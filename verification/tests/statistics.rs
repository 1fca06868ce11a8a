use embedding_bench::sort::stable_order;
use embedding_bench::{has_nan, nearest_rank, Double, Latency};

fn double(x: f64) -> Double {
    Double { bits: x.to_bits() }
}

fn doubles(xs: &[f64]) -> Vec<Double> {
    xs.iter().map(|&x| double(x)).collect()
}

fn percentile(xs: &[f64], p: f64) -> f64 {
    let mut sorted = xs.to_vec();
    sorted.sort_by(|a, b| a.partial_cmp(b).unwrap());
    let index = (((sorted.len() - 1) as f64) * p).round() as usize;
    sorted[index.min(sorted.len() - 1)]
}

fn scrambled(count: usize) -> Vec<f64> {
    let mut state: u64 = 12345;
    let mut xs = Vec::new();
    for _ in 0..count {
        state = state.wrapping_mul(6364136223846793005).wrapping_add(1442695040888963407);
        xs.push(((state >> 33) % 1000) as f64 / 8.0 - 20.0);
    }
    xs
}

#[test]
fn every_kind_of_nan_is_found() {
    assert!(double(f64::NAN).is_nan());
    assert!(double(-f64::NAN).is_nan());
    assert!(Double { bits: 0x7ff0_0000_0000_0001 }.is_nan());
    assert!(!double(f64::INFINITY).is_nan());
    assert!(!double(f64::NEG_INFINITY).is_nan());
    assert!(!double(0.0).is_nan());
    assert!(has_nan(&doubles(&[1.0, f64::NAN])));
    assert!(!has_nan(&doubles(&[1.0, 2.0])));
    assert!(!has_nan(&[]));
}

#[test]
fn keys_order_like_the_numbers() {
    let xs = [
        f64::NEG_INFINITY,
        f64::MIN,
        -1.5,
        -1.0,
        -f64::MIN_POSITIVE,
        -5e-324,
        -0.0,
        0.0,
        5e-324,
        f64::MIN_POSITIVE,
        0.1,
        1.0,
        1.5,
        f64::MAX,
        f64::INFINITY,
    ];
    for &a in &xs {
        for &b in &xs {
            assert_eq!(a.partial_cmp(&b).unwrap(), double(a).order_key().cmp(&double(b).order_key()));
        }
    }
    assert_eq!(Double::zero(), double(0.0));
}

#[test]
fn sorting_is_stable() {
    assert_eq!(stable_order(&[3, 1, 2, 1, 3, 1]), vec![1, 3, 5, 2, 0, 4]);
    assert_eq!(stable_order(&[]), Vec::<usize>::new());
    assert_eq!(stable_order(&[7]), vec![0]);
}

#[test]
fn nearest_rank_rounds_half_up() {
    assert_eq!(nearest_rank(1, 50), 0);
    assert_eq!(nearest_rank(2, 50), 1);
    assert_eq!(nearest_rank(11, 95), 10);
    assert_eq!(nearest_rank(500, 50), 250);
    assert_eq!(nearest_rank(500, 95), 474);
    assert_eq!(nearest_rank(500, 99), 494);
    assert_eq!(nearest_rank(100, 0), 0);
    assert_eq!(nearest_rank(100, 100), 99);
}

#[test]
fn nearest_rank_agrees_with_floating_point() {
    for len in 1usize..50_000 {
        for (percent, p) in [(50u64, 0.50f64), (95, 0.95), (99, 0.99)] {
            let index = (((len - 1) as f64) * p).round() as usize;
            assert_eq!(nearest_rank(len, percent), index.min(len - 1));
        }
    }
}

#[test]
fn no_samples_are_all_zero() {
    assert_eq!(Latency::from_samples(&[], double(7.0)), Latency::default());
    assert_eq!(Latency::default().p99, double(0.0));
}

#[test]
fn one_sample_is_every_percentile() {
    let latency = Latency::from_samples(&doubles(&[4.25]), double(4.25));
    assert_eq!(latency, Latency { mean: double(4.25), p50: double(4.25), p95: double(4.25), p99: double(4.25) });
}

#[test]
fn a_single_nan_is_kept() {
    let latency = Latency::from_samples(&doubles(&[f64::NAN]), double(f64::NAN));
    assert!(latency.p50.is_nan());
}

#[test]
fn percentiles_are_samples_at_their_rank() {
    let latency = Latency::from_samples(&doubles(&[3.0, 1.0, 2.0]), double(2.0));
    assert_eq!(latency.mean, double(2.0));
    assert_eq!(latency.p50, double(2.0));
    assert_eq!(latency.p95, double(3.0));
    assert_eq!(latency.p99, double(3.0));
}

#[test]
fn percentiles_agree_with_a_float_sort() {
    for count in [2usize, 3, 10, 11, 100, 501] {
        let xs = scrambled(count);
        let latency = Latency::from_samples(&doubles(&xs), double(0.0));
        assert_eq!(latency.p50, double(percentile(&xs, 0.50)));
        assert_eq!(latency.p95, double(percentile(&xs, 0.95)));
        assert_eq!(latency.p99, double(percentile(&xs, 0.99)));
    }
}

#[test]
fn zeros_keep_their_order() {
    let latency = Latency::from_samples(&doubles(&[0.0, -0.0, 0.0]), double(0.0));
    assert_eq!(latency.p50, double(-0.0));
    assert_eq!(latency.p99, double(0.0));
}

#[test]
fn percentiles_ascend_and_ignore_order() {
    let xs = scrambled(257);
    let mut backwards = xs.clone();
    backwards.reverse();
    let a = Latency::from_samples(&doubles(&xs), double(0.0));
    let b = Latency::from_samples(&doubles(&backwards), double(0.0));
    assert!(a.p50.order_key() <= a.p95.order_key());
    assert!(a.p95.order_key() <= a.p99.order_key());
    assert_eq!(a.p50.order_key(), b.p50.order_key());
    assert_eq!(a.p95.order_key(), b.p95.order_key());
    assert_eq!(a.p99.order_key(), b.p99.order_key());
}

#[test]
fn slower_samples_give_no_faster_percentile() {
    for count in 1..40 {
        let xs = scrambled(count);
        let slower: Vec<f64> = xs.iter().enumerate().map(|(i, x)| x + ((i * 7) % 5) as f64).collect();
        let a = Latency::from_samples(&doubles(&xs), double(0.0));
        let b = Latency::from_samples(&doubles(&slower), double(0.0));
        for (low, high) in [(a.p50, b.p50), (a.p95, b.p95), (a.p99, b.p99)] {
            assert!(f64::from_bits(low.bits) <= f64::from_bits(high.bits));
        }
    }
    let a = Latency::from_samples(&doubles(&[3.0, 1.0, 2.0]), double(2.0));
    let b = Latency::from_samples(&doubles(&[3.0, 5.0, 2.0]), double(10.0 / 3.0));
    assert_eq!((a.p50, a.p95, a.p99), (double(2.0), double(3.0), double(3.0)));
    assert_eq!((b.p50, b.p95, b.p99), (double(3.0), double(5.0), double(5.0)));
}
