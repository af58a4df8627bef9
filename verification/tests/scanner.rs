use soundscout::scanner::{is_audio_ext, keeps_entry, scanned_file_for};

#[test]
fn recognises_audio_extensions_in_any_case() {
    for e in ["wav", "flac", "mp3", "ogg", "aiff", "aif", "WAV", "Flac", "AiF"] {
        assert!(is_audio_ext(e), "{e}");
    }
    for e in ["txt", "jpg", "", "wave", "mp4", "aiffx"] {
        assert!(!is_audio_ext(e), "{e}");
    }
}

#[test]
fn hidden_entries_are_skipped_below_the_root() {
    assert!(keeps_entry(true, 0, ".root"));
    assert!(!keeps_entry(true, 1, ".hidden"));
    assert!(keeps_entry(true, 1, "visible"));
    assert!(keeps_entry(false, 3, ".hidden"));
    assert!(keeps_entry(true, 2, ""));
}

#[test]
fn scanned_records_keep_stem_and_lowercase_extension() {
    let f = scanned_file_for("/lib/A.WAV", 123, 7).expect("audio");
    assert_eq!(f.path, "/lib/A.WAV");
    assert_eq!(f.filename, "A");
    assert_eq!(f.extension, "wav");
    assert_eq!(f.file_size, 123);
    assert_eq!(f.modified_at, 7);
    let g = scanned_file_for("/lib/B.Flac", 1, 1).expect("audio");
    assert_eq!(g.extension, "flac");
    assert!(scanned_file_for("/lib/notes.txt", 1, 1).is_none());
    assert!(scanned_file_for("/lib/noext", 1, 1).is_none());
}
