use soundscout::error::SoundScoutError;
use soundscout::peaks::peak_buckets;

#[test]
fn zero_resolution_is_refused() {
    assert_eq!(
        peak_buckets(100, 0),
        Err(SoundScoutError::Validation("peak resolution must be > 0".into()))
    );
}

#[test]
fn buckets_split_evenly_with_the_rest_in_the_last() {
    assert_eq!(peak_buckets(10, 3), Ok(vec![(0, 3), (3, 6), (6, 10)]));
    assert_eq!(peak_buckets(4000, 1), Ok(vec![(0, 4000)]));
}

#[test]
fn short_inputs_leave_empty_buckets_at_the_end() {
    assert_eq!(peak_buckets(2, 4), Ok(vec![(0, 1), (1, 2), (2, 2), (3, 2)]));
    assert_eq!(peak_buckets(0, 2), Ok(vec![(0, 0), (1, 0)]));
}

#[test]
fn every_sample_is_in_exactly_one_bucket() {
    for (n, res) in [(10usize, 3usize), (7, 7), (5, 9), (1000, 64), (1, 1)] {
        let b = peak_buckets(n, res).expect("buckets");
        assert_eq!(b.len(), res);
        for s in 0..n {
            let owners = b.iter().filter(|(st, en)| *st <= s && s < *en).count();
            assert_eq!(owners, 1);
        }
    }
}
