//! One unit of work: a sequence of samples drawn from a private generator,
//! with the name and the text of the file that holds it.
use rand::rngs::StdRng;
use rand::{Rng, SeedableRng};
use vstd::prelude::*;

use crate::text::{
    file_name, is_sample, render_sequence, sequence_text, unit_file_name, SAMPLE_BOUND,
};
use crate::total::is_sequence;

verus! {

#[verifier::external_type_specification]
#[verifier::external_body]
pub struct ExStdRng(StdRng);

/// Relies on `SeedableRng::from_seed` for `StdRng`: builds a generator from a
/// 32-byte seed (infallible).
#[verifier::external_body]
fn seeded_rng(seed: [u8; 32]) -> StdRng {
    StdRng::from_seed(seed)
}

/// Relies on `Rng::gen_range`: a value of the half-open range `0..bound`,
/// which is not empty.
#[verifier::external_body]
fn draw_below(rng: &mut StdRng, bound: u64) -> (r: u64)
    requires
        bound > 0,
    ensures
        r < bound,
{
    rng.gen_range(0..bound)
}

/// Draws `count` independent uniform samples from `rng`; each stands for a
/// value in `[0, 1)`.
pub fn draw_sequence(rng: &mut StdRng, count: usize) -> (r: Vec<u64>)
    ensures
        is_sequence(r@, count as nat),
{
    let mut row: Vec<u64> = Vec::new();
    let mut j: usize = 0;
    while j < count
        invariant
            j <= count,
            is_sequence(row@, j as nat),
        decreases count - j,
    {
        let k = draw_below(rng, SAMPLE_BOUND);
        row.push(k);
        j = j + 1;
    }
    row
}

/// The outcome of one unit of work.
pub struct Unit {
    /// The unit's index.
    pub index: usize,
    /// The name of its file, in ASCII.
    pub file_name: Vec<u8>,
    /// Its samples, in the order drawn.
    pub samples: Vec<u64>,
    /// The text of its file.
    pub text: Vec<u8>,
}

impl Unit {
    /// The unit holds valid samples with the name and the text that belong to them.
    pub open spec fn wf(&self) -> bool {
        &&& self.file_name@ == unit_file_name(self.index as nat)
        &&& forall|k: int| 0 <= k < self.samples@.len() ==> is_sample(#[trigger] self.samples@[k])
        &&& self.text@ == sequence_text(self.samples@)
    }
}

/// Builds the unit of index `index` around the given samples.
pub fn make_unit(index: usize, samples: Vec<u64>) -> (u: Unit)
    requires
        forall|k: int| 0 <= k < samples@.len() ==> is_sample(#[trigger] samples@[k]),
    ensures
        u.wf(),
        u.index == index,
        u.samples@ == samples@,
{
    let name = file_name(index);
    let text = render_sequence(&samples);
    Unit { index, file_name: name, samples, text }
}

/// Runs unit `index`: draws `count` samples from a generator of its own,
/// seeded with `seed`, and renders its file.
pub fn generate_unit(index: usize, count: usize, seed: [u8; 32]) -> (u: Unit)
    ensures
        u.wf(),
        u.index == index,
        u.samples@.len() == count,
{
    let mut rng = seeded_rng(seed);
    let samples = draw_sequence(&mut rng, count);
    make_unit(index, samples)
}

} // verus!
