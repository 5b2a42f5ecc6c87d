//! Decimal rendering of samples and of file names, as ASCII bytes.
use vstd::prelude::*;

verus! {

/// Samples are the integers below 2^52; `k` stands for `k / 2^52`.
pub const SAMPLE_BOUND: u64 = 4503599627370496;

/// One unit of the sixth decimal place: a value has `MICROS` micro-units.
pub const MICROS: u64 = 1000000;

/// A sample is valid when it stands for a value in `[0, 1)`.
pub open spec fn is_sample(k: u64) -> bool {
    k < SAMPLE_BOUND
}

/// The value `k / 2^52` in micro-units, rounded to the nearest integer, ties to even.
pub open spec fn rounded_micros(k: u64) -> nat {
    let p = k as nat * MICROS as nat;
    let q = p / (SAMPLE_BOUND as nat);
    let r = p % (SAMPLE_BOUND as nat);
    if r * 2 > SAMPLE_BOUND as nat || (r * 2 == SAMPLE_BOUND as nat && q % 2 == 1) {
        q + 1
    } else {
        q
    }
}

/// The ASCII digit for `d < 10`.
pub open spec fn digit_byte(d: nat) -> u8 {
    (48 + d) as u8
}

pub open spec fn is_digit_byte(b: u8) -> bool {
    48 <= b <= 57
}

/// The last `width` decimal digits of `n`, most significant first, padded with zeros.
pub open spec fn padded_digits(n: nat, width: nat) -> Seq<u8>
    decreases width,
{
    if width == 0 {
        seq![]
    } else {
        padded_digits(n / 10, (width - 1) as nat).push(digit_byte(n % 10))
    }
}

/// The decimal digits of `n` without leading zeros (`0` is one digit).
pub open spec fn decimal_digits(n: nat) -> Seq<u8>
    decreases n,
{
    if n < 10 {
        seq![digit_byte(n)]
    } else {
        decimal_digits(n / 10).push(digit_byte(n % 10))
    }
}

/// The line for one sample: its value with exactly six digits after the point.
pub open spec fn sample_line(k: u64) -> Seq<u8> {
    let m = rounded_micros(k);
    decimal_digits(m / MICROS as nat) + seq![46u8] + padded_digits(m % MICROS as nat, 6) + seq![
        10u8,
    ]
}

/// The contents of a file that holds the samples of `s`, one line each, in order.
pub open spec fn sequence_text(s: Seq<u64>) -> Seq<u8>
    decreases s.len(),
{
    if s.len() == 0 {
        seq![]
    } else {
        sequence_text(s.drop_last()) + sample_line(s.last())
    }
}

/// The name of the file of unit `i`: `i` in decimal, then `.txt`.
pub open spec fn unit_file_name(i: nat) -> Seq<u8> {
    decimal_digits(i) + seq![46u8, 116u8, 120u8, 116u8]
}

/// Rounds a sample to micro-units, to nearest with ties to even.
pub fn micros_of(k: u64) -> (r: u64)
    requires
        is_sample(k),
    ensures
        r as nat == rounded_micros(k),
        r <= MICROS,
{
    let p: u128 = k as u128 * 1000000u128;
    let b: u128 = SAMPLE_BOUND as u128;
    let q: u128 = p / b;
    let rem: u128 = p % b;
    assert(p <= (SAMPLE_BOUND - 1) * 1000000) by (nonlinear_arith)
        requires
            p == k as int * 1000000,
            k < SAMPLE_BOUND,
    ;
    assert(q <= 999999) by {
        vstd::arithmetic::div_mod::lemma_div_is_ordered(
            p as int,
            (SAMPLE_BOUND - 1) * 1000000,
            SAMPLE_BOUND as int,
        );
    }
    let up = rem * 2 > b || (rem * 2 == b && q % 2 == 1);
    if up {
        (q + 1) as u64
    } else {
        q as u64
    }
}

/// Appends the last `width` decimal digits of `n`, zero padded.
pub fn push_padded_digits(out: &mut Vec<u8>, n: u64, width: usize)
    ensures
        final(out)@ == old(out)@ + padded_digits(n as nat, width as nat),
    decreases width,
{
    if width > 0 {
        push_padded_digits(out, n / 10, width - 1);
        out.push((48 + n % 10) as u8);
        assert(out@ =~= old(out)@ + padded_digits(n as nat, width as nat));
    } else {
        assert(out@ =~= old(out)@ + padded_digits(n as nat, width as nat));
    }
}

/// Appends the decimal digits of `n`, without leading zeros.
pub fn push_decimal_digits(out: &mut Vec<u8>, n: u64)
    ensures
        final(out)@ == old(out)@ + decimal_digits(n as nat),
    decreases n,
{
    if n < 10 {
        out.push((48 + n) as u8);
    } else {
        push_decimal_digits(out, n / 10);
        out.push((48 + n % 10) as u8);
    }
    assert(out@ =~= old(out)@ + decimal_digits(n as nat));
}

/// Appends the line of sample `k`: its value to six decimal places, then a newline.
pub fn push_sample_line(out: &mut Vec<u8>, k: u64)
    requires
        is_sample(k),
    ensures
        final(out)@ == old(out)@ + sample_line(k),
{
    let m = micros_of(k);
    push_decimal_digits(out, m / MICROS);
    out.push(46u8);
    push_padded_digits(out, m % MICROS, 6);
    out.push(10u8);
    assert(out@ =~= old(out)@ + sample_line(k));
}

/// Renders a sequence of samples as the text of its file: one line per
/// sample, in order, each with exactly six digits after the decimal point.
pub fn render_sequence(samples: &Vec<u64>) -> (r: Vec<u8>)
    requires
        forall|j: int| 0 <= j < samples@.len() ==> is_sample(#[trigger] samples@[j]),
    ensures
        r@ == sequence_text(samples@),
{
    let mut out: Vec<u8> = Vec::new();
    let mut j: usize = 0;
    while j < samples.len()
        invariant
            j <= samples@.len(),
            forall|i: int| 0 <= i < samples@.len() ==> is_sample(#[trigger] samples@[i]),
            out@ == sequence_text(samples@.subrange(0, j as int)),
        decreases samples@.len() - j,
    {
        proof {
            let next = samples@.subrange(0, j + 1);
            assert(next.drop_last() =~= samples@.subrange(0, j as int));
        }
        push_sample_line(&mut out, samples[j]);
        j = j + 1;
    }
    assert(samples@.subrange(0, samples@.len() as int) =~= samples@);
    out
}

/// The name of the file of unit `index`, such as `7.txt`.
pub fn file_name(index: usize) -> (r: Vec<u8>)
    ensures
        r@ == unit_file_name(index as nat),
{
    let mut out: Vec<u8> = Vec::new();
    push_decimal_digits(&mut out, index as u64);
    out.push(46u8);
    out.push(116u8);
    out.push(120u8);
    out.push(116u8);
    assert(out@ =~= unit_file_name(index as nat));
    out
}

/// A line that holds one digit, a point, exactly six digits and a newline.
pub open spec fn is_six_place_line(l: Seq<u8>) -> bool {
    &&& l.len() == 9
    &&& is_digit_byte(l[0])
    &&& l[1] == 46u8
    &&& forall|i: int| 2 <= i < 8 ==> is_digit_byte(#[trigger] l[i])
    &&& l[8] == 10u8
}

proof fn lemma_padded_digits(n: nat, width: nat)
    ensures
        padded_digits(n, width).len() == width,
        forall|i: int| 0 <= i < width ==> is_digit_byte(#[trigger] padded_digits(n, width)[i]),
    decreases width,
{
    if width > 0 {
        lemma_padded_digits(n / 10, (width - 1) as nat);
    }
}

proof fn lemma_rounded_micros_bound(k: u64)
    requires
        is_sample(k),
    ensures
        rounded_micros(k) <= MICROS,
{
    let p = k as nat * MICROS as nat;
    assert(p <= (SAMPLE_BOUND - 1) * 1000000) by (nonlinear_arith)
        requires
            p == k as int * 1000000,
            k < SAMPLE_BOUND,
    ;
    vstd::arithmetic::div_mod::lemma_div_is_ordered(
        p as int,
        (SAMPLE_BOUND - 1) * 1000000,
        SAMPLE_BOUND as int,
    );
}

/// Every valid sample renders as one line with exactly six decimal places.
pub proof fn lemma_sample_line_shape(k: u64)
    requires
        is_sample(k),
    ensures
        is_six_place_line(sample_line(k)),
{
    let m = rounded_micros(k);
    lemma_rounded_micros_bound(k);
    lemma_padded_digits(m % MICROS as nat, 6);
    assert(m / MICROS as nat <= 1);
    let l = sample_line(k);
    let pd = padded_digits(m % MICROS as nat, 6);
    assert forall|i: int| 2 <= i < 8 implies is_digit_byte(#[trigger] l[i]) by {
        assert(l[i] == pd[i - 2]);
    }
}

/// The file of a sequence of `M` valid samples holds exactly `M` lines, the
/// `j`-th being the line of the `j`-th sample, each with exactly six digits
/// after the decimal point.
pub proof fn lemma_sequence_text_lines(s: Seq<u64>)
    requires
        forall|j: int| 0 <= j < s.len() ==> is_sample(#[trigger] s[j]),
    ensures
        sequence_text(s).len() == 9 * s.len(),
        forall|j: int|
            0 <= j < s.len() ==> sequence_text(s).subrange(9 * j, 9 * j + 9) == sample_line(
                #[trigger] s[j],
            ) && is_six_place_line(sample_line(s[j])),
    decreases s.len(),
{
    if s.len() > 0 {
        let init = s.drop_last();
        lemma_sequence_text_lines(init);
        lemma_sample_line_shape(s.last());
        let t = sequence_text(s);
        assert forall|j: int| 0 <= j < s.len() implies t.subrange(9 * j, 9 * j + 9) == sample_line(
            #[trigger] s[j],
        ) && is_six_place_line(sample_line(s[j])) by {
            lemma_sample_line_shape(s[j]);
            if j < s.len() - 1 {
                assert(init[j] == s[j]);
                assert(t.subrange(9 * j, 9 * j + 9) =~= sequence_text(init).subrange(
                    9 * j,
                    9 * j + 9,
                ));
            } else {
                assert(t.subrange(9 * j, 9 * j + 9) =~= sample_line(s.last()));
            }
        }
    }
}

} // verus!
