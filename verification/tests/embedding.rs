use soundscout::embedding::{expected_dim, validate_batch, EXPECTED_DIM, TEXT_EMBEDDING_MODEL_ID};
use soundscout::error::SoundScoutError;

#[test]
fn embedding_dimension_is_384() {
    assert_eq!(expected_dim(), 384);
    assert_eq!(EXPECTED_DIM, 384);
    assert_eq!(TEXT_EMBEDDING_MODEL_ID, "text_minilm_l6_v2_ort");
}

#[test]
fn batches_need_one_full_vector_per_text() {
    let good = vec![vec![0u8; 384], vec![1u8; 384]];
    assert_eq!(validate_batch(&good, 2), Ok(()));
    assert_eq!(
        validate_batch(&good, 3),
        Err(SoundScoutError::Embedding("expected 3 vectors, got 2".into()))
    );
    let bad = vec![vec![0u8; 384], vec![0u8; 12], vec![0u8; 5]];
    assert_eq!(
        validate_batch(&bad, 3),
        Err(SoundScoutError::Embedding("expected dim 384, got 12".into()))
    );
    let none: Vec<Vec<u8>> = vec![];
    assert_eq!(validate_batch(&none, 0), Ok(()));
}
