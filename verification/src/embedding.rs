//! Shape checks for text-embedding batches.

use vstd::prelude::*;
use vstd::string::StringExecFns;

use crate::error::SoundScoutError;
use crate::text::{decimal, u64_to_decimal};

verus! {

broadcast use vstd::string::group_string_axioms;

/// Identifier stored with each embedding row.
pub const TEXT_EMBEDDING_MODEL_ID: &'static str = "text_minilm_l6_v2_ort";

/// Length of every text-embedding vector.
pub const EXPECTED_DIM: usize = 384;

/// Length of every text-embedding vector.
pub fn expected_dim() -> (r: usize)
    ensures
        r == EXPECTED_DIM,
{
    EXPECTED_DIM
}

/// Checks that an embedding call returned one vector per text, each of
/// [`EXPECTED_DIM`] values; the error names the first mismatch.
pub fn validate_batch<T>(vectors: &[Vec<T>], n_texts: usize) -> (r: Result<(), SoundScoutError>)
    ensures
        vectors@.len() != n_texts ==> (r matches Err(SoundScoutError::Embedding(m)) && m@
            == "expected "@ + decimal(n_texts as nat) + " vectors, got "@ + decimal(vectors@.len())),
        vectors@.len() == n_texts ==> match r {
            Ok(_) => forall|i: int| 0 <= i < vectors@.len() ==> vectors@[i]@.len() == EXPECTED_DIM,
            Err(e) => exists|i: int|
                0 <= i < vectors@.len() && vectors@[i]@.len() != EXPECTED_DIM && (forall|j: int|
                    0 <= j < i ==> vectors@[j]@.len() == EXPECTED_DIM) && (e matches SoundScoutError::Embedding(m)
                    && m@ == "expected dim 384, got "@ + decimal(vectors@[i]@.len())),
        },
{
    if vectors.len() != n_texts {
        let mut m = String::from_str("expected ");
        let a = u64_to_decimal(n_texts as u64);
        m.append(a.as_str());
        m.append(" vectors, got ");
        let b = u64_to_decimal(vectors.len() as u64);
        m.append(b.as_str());
        return Err(SoundScoutError::Embedding(m));
    }
    let mut i: usize = 0;
    while i < vectors.len()
        invariant
            i <= vectors@.len(),
            vectors@.len() == n_texts,
            forall|j: int| 0 <= j < i ==> vectors@[j]@.len() == EXPECTED_DIM,
        decreases vectors@.len() - i,
    {
        if vectors[i].len() != EXPECTED_DIM {
            let mut m = String::from_str("expected dim 384, got ");
            m.append(u64_to_decimal(vectors[i].len() as u64).as_str());
            return Err(SoundScoutError::Embedding(m));
        }
        i = i + 1;
    }
    Ok(())
}

} // verus!
