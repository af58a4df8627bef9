use soundscout::engine::validate_rating;
use soundscout::error::{IoKind, SoundScoutError};

#[test]
fn display_config_error() {
    let err = SoundScoutError::Config("missing field".into());
    assert!(err.message().contains("missing field"));
}

#[test]
fn display_cancelled() {
    let err = SoundScoutError::Cancelled;
    assert_eq!(err.message(), "Indexing cancelled");
}

#[test]
fn every_variant_names_its_kind() {
    let d = || "x".to_string();
    assert_eq!(SoundScoutError::Database(d()).message(), "Database error: x");
    assert_eq!(SoundScoutError::Io(IoKind::Other, d()).message(), "IO error: x");
    assert_eq!(SoundScoutError::AudioDecode(d()).message(), "Audio decode error: x");
    assert_eq!(SoundScoutError::Config(d()).message(), "Config error: x");
    assert_eq!(SoundScoutError::Validation(d()).message(), "Validation error: x");
    assert_eq!(SoundScoutError::Pool(d()).message(), "Connection pool error: x");
    assert_eq!(SoundScoutError::Embedding(d()).message(), "Text embedding error: x");
}

#[test]
fn rating_above_five_is_refused() {
    assert!(validate_rating(6).is_err());
    assert_eq!(
        validate_rating(6),
        Err(SoundScoutError::Validation("rating must be between 0 and 5".into()))
    );
    for r in 0..=5u8 {
        assert!(validate_rating(r).is_ok());
    }
}

#[test]
fn io_error_keeps_its_kind() {
    let err = SoundScoutError::Io(IoKind::NotFound, "gone".into());
    assert!(matches!(err, SoundScoutError::Io(IoKind::NotFound, _)));
    assert_eq!(err.message(), "IO error: gone");
}
