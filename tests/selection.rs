use rust_ga::ga::{assess, select_index, LiveError};
use rust_ga::random::{radint, rex};

#[test]
fn select_walks_the_wheel() {
    let s = vec![1, 2, 3, 4];
    let expected = [0, 1, 1, 2, 2, 2, 3, 3, 3, 3];
    for (r, &i) in expected.iter().enumerate() {
        assert_eq!(select_index(&s, r as u64), i);
    }
}

#[test]
fn select_falls_back_to_last_slot() {
    let s = vec![1, 2, 3, 4];
    assert_eq!(select_index(&s, 10), 3);
    assert_eq!(select_index(&s, u64::MAX), 3);
    assert_eq!(select_index(&vec![2, 0, 0], 5), 2);
}

#[test]
fn select_skips_zero_weights() {
    let s = vec![0, 5, 0];
    for r in 0..5 {
        assert_eq!(select_index(&s, r), 1);
    }
}

#[test]
fn select_returns_a_valid_index() {
    let s = vec![3, 0, 8, 1, 1, 0, 7];
    for r in 0..40 {
        assert!(select_index(&s, r) < s.len());
    }
    assert_eq!(select_index(&vec![9], 4), 0);
}

#[test]
fn each_slot_covers_its_score_exactly() {
    let s = vec![4, 0, 1, 7, 3];
    let total: u64 = s.iter().sum();
    let mut counts = vec![0u64; s.len()];
    for r in 0..total {
        counts[select_index(&s, r)] += 1;
    }
    assert_eq!(counts, s);
}

#[test]
fn sampling_frequencies_converge() {
    let s = vec![1, 2, 3, 4];
    let total: u64 = s.iter().sum();
    let draws = 40000;
    let mut counts = vec![0u64; s.len()];
    for _ in 0..draws {
        let r = radint(total as usize) as u64;
        counts[select_index(&s, r)] += 1;
    }
    for i in 0..s.len() {
        let observed = counts[i] as f64 / draws as f64;
        let expected = s[i] as f64 / total as f64;
        assert!((observed - expected).abs() < 0.02, "slot {}: {} vs {}", i, observed, expected);
    }
}

#[test]
fn assess_reports_fittest_and_total() {
    assert_eq!(assess(&vec![1, 2, 3, 4]), Ok((3, 10)));
    assert_eq!(assess(&vec![7, 2, 7]), Ok((0, 16)));
    assert_eq!(assess(&vec![0, 0, 1]), Ok((2, 1)));
}

#[test]
fn assess_reports_each_error() {
    assert_eq!(assess(&vec![]), Err(LiveError::EmptyPopulation));
    assert_eq!(assess(&vec![0, 0]), Err(LiveError::ZeroFitness));
    assert_eq!(assess(&vec![u64::MAX, 0, 1]), Err(LiveError::FitnessOverflow));
}

#[test]
fn radint_stays_in_range() {
    assert_eq!(radint(0), 0);
    for _ in 0..200 {
        assert_eq!(radint(1), 0);
        assert!(radint(5) < 5);
    }
}

#[test]
fn radint_reaches_every_value() {
    let mut seen = [false; 4];
    for _ in 0..2000 {
        seen[radint(4)] = true;
    }
    assert!(seen.iter().all(|&b| b));
}

#[test]
fn rex_stays_in_range() {
    assert_eq!(rex(3, 3), 3);
    for _ in 0..200 {
        let r = rex(10, 20);
        assert!((10..20).contains(&r));
        assert_eq!(rex(7, 8), 7);
    }
}
