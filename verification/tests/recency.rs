use soundscout::recency::RecencyIndex;

#[test]
fn a_fresh_index_is_empty_and_holds_at_least_one() {
    let mut r = RecencyIndex::new(0);
    assert_eq!(r.len(), 0);
    assert_eq!(r.insert(1, 10), None);
    assert_eq!(r.insert(2, 20), Some((1, 10)));
    assert_eq!(r.len(), 1);
}

#[test]
fn full_index_evicts_the_least_recently_used() {
    let mut r = RecencyIndex::new(2);
    assert_eq!(r.insert(0, 100), None);
    assert_eq!(r.insert(1, 101), None);
    assert_eq!(r.insert(2, 102), Some((0, 100)));
    assert_eq!(r.get(0), None);
    assert_eq!(r.get(2), Some(102));
}

#[test]
fn lookups_move_entries_to_the_front() {
    let mut r = RecencyIndex::new(2);
    r.insert(0, 100);
    r.insert(1, 101);
    assert_eq!(r.get(0), Some(100));
    assert_eq!(r.insert(2, 102), Some((1, 101)));
    assert_eq!(r.get(1), None);
    assert_eq!(r.get(0), Some(100));
}

#[test]
fn reinserting_replaces_the_slot() {
    let mut r = RecencyIndex::new(3);
    r.insert(5, 1);
    assert_eq!(r.insert(5, 2), Some((5, 1)));
    assert_eq!(r.len(), 1);
    assert_eq!(r.get(5), Some(2));
    r.clear();
    assert_eq!(r.len(), 0);
    assert_eq!(r.get(5), None);
}

#[test]
fn cache_evicts_oldest_when_full() {
    let mut c = RecencyIndex::new(2);
    for i in 0..3i64 {
        c.insert(i, i as u64);
    }
    assert!(c.get(0).is_none());
    assert!(c.get(2).is_some());
}

#[test]
fn cache_len_tracks_entries() {
    let c = RecencyIndex::new(10);
    assert_eq!(c.len(), 0);
}

#[test]
fn cache_clear_empties() {
    let mut c = RecencyIndex::new(4);
    c.insert(1, 0);
    c.clear();
    assert_eq!(c.len(), 0);
}

#[test]
fn get_moves_entry_to_most_recent() {
    let mut c = RecencyIndex::new(2);
    c.insert(0, 0);
    c.insert(1, 1);
    c.get(0).expect("touch 0");
    c.insert(2, 2);
    assert!(c.get(1).is_none());
    assert!(c.get(0).is_some());
}
