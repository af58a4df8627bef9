use soundscout::index_plan::{plan_index_work, starts_with};

fn rows(v: &[(&str, i64)]) -> Vec<(String, i64)> {
    v.iter().map(|(p, m)| (p.to_string(), *m)).collect()
}

#[test]
fn new_changed_and_unchanged_files_are_told_apart() {
    let files = rows(&[("/lib/a.wav", 10), ("/lib/b.wav", 20), ("/lib/c.wav", 30)]);
    let indexed = rows(&[("/lib/b.wav", 20), ("/lib/c.wav", 29)]);
    let plan = plan_index_work("/lib", &files, &indexed);
    assert_eq!(plan.work, vec![(0, true), (2, false)]);
    assert_eq!(plan.skipped, 1);
    assert!(plan.missing.is_empty());
}

#[test]
fn rescan_of_an_unchanged_library_reads_nothing() {
    let files = rows(&[("/lib/a.wav", 10), ("/lib/b.wav", 20)]);
    let plan = plan_index_work("/lib", &files, &files);
    assert!(plan.work.is_empty());
    assert_eq!(plan.skipped, 2);
    assert!(plan.missing.is_empty());
}

#[test]
fn gone_files_under_the_root_are_missing_once() {
    let files = rows(&[("/lib/a.wav", 10)]);
    let indexed = rows(&[
        ("/lib/gone.wav", 1),
        ("/other/x.wav", 1),
        ("/lib/a.wav", 10),
        ("/library/y.wav", 1),
        ("/lib/gone.wav", 2),
    ]);
    let plan = plan_index_work("/lib", &files, &indexed);
    assert_eq!(plan.missing, vec!["/lib/gone.wav".to_string(), "/library/y.wav".to_string()]);
    assert_eq!(plan.skipped, 1);
}

#[test]
fn the_last_indexed_time_of_a_path_counts() {
    let files = rows(&[("/lib/a.wav", 5)]);
    let indexed = rows(&[("/lib/a.wav", 4), ("/lib/a.wav", 5)]);
    let plan = plan_index_work("/lib", &files, &indexed);
    assert!(plan.work.is_empty());
    assert_eq!(plan.skipped, 1);
}

#[test]
fn every_file_is_read_or_skipped() {
    let files = rows(&[("/r/1.wav", 1), ("/r/2.wav", 2), ("/r/3.wav", 3), ("/r/4.wav", 4)]);
    let indexed = rows(&[("/r/2.wav", 2), ("/r/4.wav", 0)]);
    let plan = plan_index_work("/r", &files, &indexed);
    assert_eq!(plan.work.len() as u64 + plan.skipped, files.len() as u64);
}

#[test]
fn prefix_test_is_by_characters() {
    assert!(starts_with("/lib/a", "/lib"));
    assert!(starts_with("/lib", ""));
    assert!(!starts_with("/li", "/lib"));
    assert!(starts_with("Ström/x", "Ström"));
    assert!(!starts_with("Strom/x", "Ström"));
}
