use generate_data::text::{file_name, micros_of, render_sequence, MICROS, SAMPLE_BOUND};
use generate_data::total::{add_row, sum_sequences};
use generate_data::unit::{draw_sequence, generate_unit, make_unit};
use rand::rngs::StdRng;
use rand::SeedableRng;

const SCALE: f64 = 4503599627370496.0;

fn nearest_sample(x: f64) -> u64 {
    (x * SCALE).round() as u64
}

fn as_value(total: u128) -> f64 {
    total as f64 / SCALE
}

fn text(bytes: &[u8]) -> String {
    String::from_utf8(bytes.to_vec()).unwrap()
}

#[test]
fn micros_of_rounds_to_nearest_with_ties_to_even() {
    assert_eq!(micros_of(0), 0);
    assert_eq!(micros_of(SAMPLE_BOUND - 1), MICROS);
    assert_eq!(micros_of(SAMPLE_BOUND / 2), 500000);
    // 1/128 = 0.0078125 and 3/128 = 0.0234375 lie halfway between two micro-units.
    assert_eq!(micros_of(1u64 << 45), 7812);
    assert_eq!(micros_of(3u64 << 45), 23438);
}

#[test]
fn sample_lines_match_six_place_float_formatting() {
    let mut ks: Vec<u64> = vec![0, 1, 2, 1u64 << 45, 3u64 << 45, 5u64 << 45, SAMPLE_BOUND / 2];
    ks.push(SAMPLE_BOUND - 1);
    ks.push(SAMPLE_BOUND - 4503599627);
    let mut k: u64 = 12345;
    while k < SAMPLE_BOUND {
        ks.push(k);
        k = k * 7 + 1;
    }
    for &k in &ks {
        let expected = format!("{:.6}\n", k as f64 / SCALE);
        assert_eq!(text(&render_sequence(&vec![k])), expected, "sample {}", k);
    }
}

#[test]
fn largest_sample_renders_as_one() {
    assert_eq!(text(&render_sequence(&vec![SAMPLE_BOUND - 1])), "1.000000\n");
}

#[test]
fn empty_sequence_renders_as_empty_file() {
    assert!(render_sequence(&Vec::new()).is_empty());
}

#[test]
fn file_names_follow_unit_index() {
    assert_eq!(text(&file_name(0)), "0.txt");
    assert_eq!(text(&file_name(7)), "7.txt");
    assert_eq!(text(&file_name(1999)), "1999.txt");
    assert_eq!(text(&file_name(usize::MAX)), format!("{}.txt", usize::MAX));
}

#[test]
fn three_units_of_two_samples() {
    let rows: Vec<Vec<u64>> = vec![
        vec![nearest_sample(0.1), nearest_sample(0.2)],
        vec![nearest_sample(0.3), nearest_sample(0.4)],
        vec![nearest_sample(0.5), nearest_sample(0.6)],
    ];
    let expected_texts = ["0.100000\n0.200000\n", "0.300000\n0.400000\n", "0.500000\n0.600000\n"];
    let expected_names = ["0.txt", "1.txt", "2.txt"];
    for (i, row) in rows.iter().enumerate() {
        let unit = make_unit(i, row.clone());
        assert_eq!(unit.index, i);
        assert_eq!(text(&unit.file_name), expected_names[i]);
        assert_eq!(text(&unit.text), expected_texts[i]);
        assert_eq!(unit.samples, *row);
    }
    let sums = sum_sequences(&rows, 2);
    assert_eq!(sums.len(), 2);
    assert!((as_value(sums[0]) - 0.9).abs() < 1e-9);
    assert!((as_value(sums[1]) - 1.2).abs() < 1e-9);
}

#[test]
fn drawn_samples_lie_in_unit_interval() {
    let mut rng = StdRng::seed_from_u64(7);
    let row = draw_sequence(&mut rng, 10000);
    assert_eq!(row.len(), 10000);
    assert!(row.iter().all(|&k| k < SAMPLE_BOUND));
    let values: Vec<f64> = row.iter().map(|&k| k as f64 / SCALE).collect();
    assert!(values.iter().all(|&v| (0.0..1.0).contains(&v)));
    // The draws are not all one value, and they spread over the interval.
    assert!(row.iter().any(|&k| k != row[0]));
    assert!(values.iter().any(|&v| v < 0.1));
    assert!(values.iter().any(|&v| v > 0.9));
}

#[test]
fn empty_draw() {
    let mut rng = StdRng::seed_from_u64(1);
    assert!(draw_sequence(&mut rng, 0).is_empty());
}

#[test]
fn generated_file_has_one_six_place_line_per_sample() {
    let unit = generate_unit(4, 500, [9u8; 32]);
    assert_eq!(unit.samples.len(), 500);
    assert_eq!(text(&unit.file_name), "4.txt");
    let contents = text(&unit.text);
    let lines: Vec<&str> = contents.split_terminator('\n').collect();
    assert_eq!(lines.len(), 500);
    assert!(contents.ends_with('\n'));
    for (line, &k) in lines.iter().zip(unit.samples.iter()) {
        let (whole, frac) = line.split_once('.').unwrap();
        assert_eq!(whole.len(), 1);
        assert_eq!(frac.len(), 6);
        assert!(frac.bytes().all(|b| b.is_ascii_digit()));
        let parsed: f64 = line.parse().unwrap();
        assert!((parsed - k as f64 / SCALE).abs() <= 0.5e-6 + 1e-12);
    }
}

#[test]
fn same_seed_gives_same_unit() {
    let a = generate_unit(0, 100, [3u8; 32]);
    let b = generate_unit(0, 100, [3u8; 32]);
    let c = generate_unit(0, 100, [4u8; 32]);
    assert_eq!(a.samples, b.samples);
    assert_eq!(a.text, b.text);
    assert_ne!(a.samples, c.samples);
}

#[test]
fn sum_has_one_total_per_position() {
    for n in 1..5usize {
        for m in 1..6usize {
            let rows: Vec<Vec<u64>> = (0..n).map(|i| vec![i as u64; m]).collect();
            assert_eq!(sum_sequences(&rows, m).len(), m);
        }
    }
    assert_eq!(sum_sequences(&Vec::new(), 3), vec![0, 0, 0]);
    assert!(sum_sequences(&vec![Vec::new(), Vec::new()], 0).is_empty());
}

#[test]
fn sum_is_exact_at_the_largest_samples() {
    let big = SAMPLE_BOUND - 1;
    let rows: Vec<Vec<u64>> = vec![vec![big, 0, 1]; 2000];
    let sums = sum_sequences(&rows, 3);
    assert_eq!(sums, vec![2000 * big as u128, 0, 2000]);
}

#[test]
fn sum_does_not_depend_on_order() {
    let units: Vec<Vec<u64>> = (0..20u8).map(|i| generate_unit(i as usize, 50, [i; 32]).samples).collect();
    let forward = sum_sequences(&units, 50);
    let mut reversed = units.clone();
    reversed.reverse();
    assert_eq!(sum_sequences(&reversed, 50), forward);
    let mut rotated = units.clone();
    rotated.rotate_left(7);
    assert_eq!(sum_sequences(&rotated, 50), forward);
    for j in 0..50 {
        let reference: f64 = units.iter().map(|r| r[j] as f64 / SCALE).sum();
        let exact = as_value(forward[j]);
        assert!((exact - reference).abs() <= 1e-9 * reference.abs().max(1.0));
    }
}

#[test]
fn add_row_adds_position_by_position() {
    let mut acc: Vec<u128> = vec![1, 2, 3];
    add_row(&mut acc, &vec![10, 20, 30]);
    assert_eq!(acc, vec![11, 22, 33]);
}
