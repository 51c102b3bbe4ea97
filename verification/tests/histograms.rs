use filevis::frequency::{compute_freqs, Frequency, FrequencyTable};
use filevis::histogram::{Histogram, DIGRAPH_KINDS};

fn brute_force_max(counts: &[u64]) -> u64 {
    let mut best = 0;
    for c in counts {
        if *c > best {
            best = *c;
        }
    }
    best
}

#[test]
fn empty_data_gives_empty_histogram() {
    let h = Histogram::build(&vec![]);
    assert!(h.is_empty());
    assert_eq!(h.counts().len(), 0);
    assert_eq!(h.max_count(), 0);
}

#[test]
fn histogram_counts_every_occurrence() {
    let data = vec![5u16, 9, 5, 65535, 0, 5, 9];
    let h = Histogram::build(&data);
    assert!(!h.is_empty());
    assert_eq!(h.counts().len(), DIGRAPH_KINDS);
    assert_eq!(h.counts()[5], 3);
    assert_eq!(h.counts()[9], 2);
    assert_eq!(h.counts()[65535], 1);
    assert_eq!(h.counts()[0], 1);
    assert_eq!(h.counts()[1], 0);
    assert_eq!(h.counts().iter().sum::<u64>(), 7);
    assert_eq!(h.max_count(), 3);
}

#[test]
fn max_count_is_the_true_maximum() {
    let mut data: Vec<u16> = Vec::new();
    let mut x: u32 = 12345;
    for _ in 0..5000 {
        x = x.wrapping_mul(1103515245).wrapping_add(12345);
        data.push(((x >> 16) % 37) as u16 * 1000);
    }
    let h = Histogram::build(&data);
    assert_eq!(h.max_count(), brute_force_max(h.counts()));
    assert_eq!(h.counts().iter().sum::<u64>(), 5000);
}

#[test]
fn single_digraph_has_peak_one() {
    let h = Histogram::build(&vec![0x1234]);
    assert_eq!(h.max_count(), 1);
    assert_eq!(h.counts()[0x1234], 1);
}

#[test]
fn frequency_needs_a_fraction_in_the_unit_interval() {
    assert!(Frequency::new(0, 1).is_some());
    assert!(Frequency::new(1, 1).is_some());
    assert!(Frequency::new(3, 7).is_some());
    assert!(Frequency::new(0, 0).is_none());
    assert!(Frequency::new(1, 0).is_none());
    assert!(Frequency::new(8, 7).is_none());
    let f = Frequency::new(3, 7).unwrap();
    assert_eq!(f.numerator(), 3);
    assert_eq!(f.denominator(), 7);
}

#[test]
fn empty_histogram_normalizes_to_empty_table() {
    let t = FrequencyTable::normalize(&Histogram::build(&vec![]));
    assert!(t.is_empty());
    assert_eq!(t.len(), 0);
    assert!(t.get(0).is_none());
}

#[test]
fn normalize_divides_by_the_peak() {
    let data = vec![5u16, 9, 5, 65535, 0, 5, 9];
    let h = Histogram::build(&data);
    let t = FrequencyTable::normalize(&h);
    assert_eq!(t.len(), DIGRAPH_KINDS);
    let five = t.get(5).unwrap();
    assert_eq!((five.numerator(), five.denominator()), (3, 3));
    let nine = t.get(9).unwrap();
    assert_eq!((nine.numerator(), nine.denominator()), (2, 3));
    let none = t.get(1).unwrap();
    assert_eq!((none.numerator(), none.denominator()), (0, 3));
    assert!(t.get(DIGRAPH_KINDS).is_none());
}

#[test]
fn compute_freqs_of_empty_data_is_empty() {
    let t = compute_freqs(vec![]);
    assert!(t.is_empty());
    assert_eq!(t.len(), 0);
}

#[test]
fn compute_freqs_relates_counts_to_the_most_frequent() {
    let t = compute_freqs(vec![7, 7, 7, 7, 8, 8, 9]);
    assert_eq!(t.len(), DIGRAPH_KINDS);
    for k in 0..DIGRAPH_KINDS {
        let f = t.get(k).unwrap();
        assert_eq!(f.denominator(), 4);
        let expected = match k {
            7 => 4,
            8 => 2,
            9 => 1,
            _ => 0,
        };
        assert_eq!(f.numerator(), expected);
    }
}

#[test]
fn every_frequency_is_in_the_unit_interval_and_the_mode_is_one() {
    let t = compute_freqs(vec![1, 2, 2, 3, 3, 3, 40000, 40000, 40000]);
    let mut ones = 0;
    for k in 0..t.len() {
        let f = t.get(k).unwrap();
        assert!(f.denominator() >= 1);
        assert!(f.numerator() <= f.denominator());
        if f.numerator() == f.denominator() {
            ones += 1;
        }
    }
    assert_eq!(ones, 2);
}

#[test]
fn scaling_by_the_peak_recovers_the_counts() {
    let data = vec![5u16, 9, 5, 65535, 0, 5, 9, 9, 9, 9, 100];
    let h = Histogram::build(&data);
    let t = FrequencyTable::normalize(&h);
    let peak = h.max_count() as u128;
    for k in 0..t.len() {
        let f = t.get(k).unwrap();
        let n = f.numerator() as u128;
        let d = f.denominator() as u128;
        let rounded = (2 * n * peak + d) / (2 * d);
        assert_eq!(rounded as u64, h.counts()[k]);
    }
}
