use soundscout::export_names::{
    clean_stem_text, clip_export_filename, export_full_wav_suggested_filename, sanitize_source_stem,
};

#[test]
fn export_suggested_filename_includes_stem_and_times() {
    let n = clip_export_filename("My Track.flac", &format!("{:.3}", 1.0f64), &format!("{:.3}", 2.5f64));
    assert_eq!(n, "My Track_1.000-2.500s.wav");
    assert_eq!(
        clip_export_filename("weird/nested.mp3", &format!("{:.3}", 0.0f64), &format!("{:.3}", 0.05f64)),
        "nested_0.000-0.050s.wav"
    );
    assert_eq!(export_full_wav_suggested_filename("My Track.flac"), "My Track.wav");
    assert_eq!(export_full_wav_suggested_filename("x/nested.mp3"), "nested.wav");
}

#[test]
fn unsafe_characters_become_underscores() {
    assert_eq!(sanitize_source_stem("a:b*c?d\"e<f>g|h.wav"), "a_b_c_d_e_f_g_h");
    assert_eq!(sanitize_source_stem("tab\there.wav"), "tab_here");
}

#[test]
fn empty_or_dot_stems_fall_back_to_clip() {
    assert_eq!(sanitize_source_stem(""), "clip");
    assert_eq!(sanitize_source_stem("   .wav"), "clip");
    assert_eq!(sanitize_source_stem("/"), "clip");
    assert_eq!(export_full_wav_suggested_filename(""), "clip.wav");
}

#[test]
fn stems_are_trimmed_and_lose_trailing_dots() {
    assert_eq!(sanitize_source_stem("  name. .wav"), "name");
    assert_eq!(sanitize_source_stem("  name...x"), "name");
    assert_eq!(sanitize_source_stem(" spaced .wav"), "spaced");
    assert_eq!(sanitize_source_stem("end....wav"), "end");
}

#[test]
fn stems_are_cut_to_120_characters() {
    let long = format!("{}.wav", "x".repeat(200));
    assert_eq!(sanitize_source_stem(&long).chars().count(), 120);
}

#[test]
fn stems_are_cleaned_whatever_their_source() {
    assert_eq!(clean_stem_text(" a|b. "), "a_b");
    assert_eq!(clean_stem_text("."), "clip");
    assert_eq!(clean_stem_text("..."), "");
    assert_eq!(clean_stem_text("x\0y"), "x_y");
    assert_eq!(clean_stem_text("x\u{7f}y"), "x_y");
}
