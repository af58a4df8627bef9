use soundscout::paths::{normalize_folder_key, parse_path};

#[test]
fn extracts_publisher_from_first_segment() {
    let m = parse_path("/audio", "/audio/Boom/hit.wav");
    assert_eq!(m.publisher.as_deref(), Some("Boom"));
}

#[test]
fn extracts_category_from_intermediate_segments() {
    let m = parse_path("/audio", "/audio/Boom/Impacts/Metal/hit.wav");
    assert_eq!(m.category.as_deref(), Some("Impacts > Metal"));
}

#[test]
fn file_directly_in_root_has_no_publisher() {
    let m = parse_path("/audio", "/audio/hit.wav");
    assert!(m.publisher.is_none());
    assert!(m.category.is_none());
}

#[test]
fn file_one_level_deep_has_publisher_no_category() {
    let m = parse_path("/audio", "/audio/Boom/hit.wav");
    assert_eq!(m.publisher.as_deref(), Some("Boom"));
    assert!(m.category.is_none());
}

#[test]
fn deeply_nested_path_joins_all_middle_segments() {
    let m = parse_path("/r", "/r/A/B/C/D/x.wav");
    assert_eq!(m.publisher.as_deref(), Some("A"));
    assert_eq!(m.category.as_deref(), Some("B > C > D"));
}

#[test]
fn filename_strips_extension() {
    let m = parse_path("/a", "/a/b.wav");
    assert_eq!(m.filename, "b");
}

#[test]
fn extension_is_lowercase() {
    let m = parse_path("/a", "/a/b.WAV");
    assert_eq!(m.extension, "wav");
}

#[test]
fn handles_non_ascii_paths() {
    let m = parse_path("/lib", "/lib/Ström Sounds/Björk.wav");
    assert_eq!(m.publisher.as_deref(), Some("Ström Sounds"));
    assert_eq!(m.filename, "Björk");
}

#[test]
fn handles_spaces_and_parens() {
    let m = parse_path("/lib", "/lib/Sound (Ideas)/SFX - Vol.1/bang!_01.wav");
    assert!(m.publisher.is_some());
    assert!(m.filename.contains("bang"));
}

#[test]
fn handles_multiple_dots_in_filename() {
    let m = parse_path("/a", "/a/ambience.v2.final.wav");
    assert_eq!(m.extension, "wav");
    assert_eq!(m.filename, "ambience.v2.final");
}

#[test]
fn handles_no_extension() {
    let m = parse_path("/a", "/a/README");
    assert_eq!(m.extension, "");
}

#[test]
fn folder_is_the_normalised_parent() {
    let m = parse_path("/audio", "/audio/Boom/Impacts/hit.wav");
    assert_eq!(m.folder, "/audio/Boom/Impacts");
    let m = parse_path("/audio", "/audio/hit.wav");
    assert_eq!(m.folder, "/audio");
}

#[test]
fn file_outside_root_uses_its_full_path() {
    let m = parse_path("/elsewhere", "/audio/Boom/Kit/hit.wav");
    assert_eq!(m.publisher.as_deref(), Some("audio"));
    assert_eq!(m.category.as_deref(), Some("Boom > Kit"));
}

#[test]
fn folder_keys_use_forward_slashes_without_trailing_slash() {
    assert_eq!(normalize_folder_key("C:\\lib\\Boom\\"), "C:/lib/Boom");
    assert_eq!(normalize_folder_key("/lib/a///"), "/lib/a");
    assert_eq!(normalize_folder_key("/"), "/");
    assert_eq!(normalize_folder_key("///"), "/");
    assert_eq!(normalize_folder_key(""), "");
}

#[test]
fn folder_key_normalisation_is_idempotent() {
    for s in ["C:\\a\\b\\", "/x/y/", "/", "plain", "a\\\\"] {
        let once = normalize_folder_key(s);
        assert_eq!(normalize_folder_key(&once), once);
    }
}

#[test]
fn file_names_follow_std_path_stems() {
    assert_eq!(parse_path("/a", "/a/b.tar.gz").filename, "b.tar");
    assert_eq!(parse_path("/a", "/a/b.tar.gz").extension, "gz");
    assert_eq!(parse_path("/a", "/a/.hidden").filename, ".hidden");
    assert_eq!(parse_path("/a", "/a/.hidden").extension, "");
}
