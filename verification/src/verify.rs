//! Comparison of a written image with what was read back.
use vstd::prelude::*;

use crate::text::first_difference;

verus! {

/// How a read-back image differs from the image that was written.
#[allow(inconsistent_fields)]
#[derive(Clone, Copy, PartialEq, Eq, Structural, Debug)]
pub enum VerificationError {
    /// The two images differ in length.
    LengthMismatch { expected: usize, actual: usize },
    /// The two images first differ at `offset`.
    ByteMismatch { offset: usize, expected: u8, actual: u8 },
}

/// The index of the first byte at which two images of equal length differ.
pub open spec fn first_mismatch(expected: Seq<u8>, actual: Seq<u8>, offset: int) -> bool {
    &&& 0 <= offset < expected.len()
    &&& expected[offset] != actual[offset]
    &&& forall|j: int| 0 <= j < offset ==> expected[j] == actual[j]
}

/// What [`verify`] returns for two images.
pub open spec fn verify_result(expected: Seq<u8>, actual: Seq<u8>, result: Result<(), VerificationError>) -> bool {
    match result {
        Ok(()) => expected == actual,
        Err(VerificationError::LengthMismatch { expected: e, actual: a }) => {
            &&& expected.len() != actual.len()
            &&& e == expected.len()
            &&& a == actual.len()
        },
        Err(VerificationError::ByteMismatch { offset, expected: e, actual: a }) => {
            &&& expected.len() == actual.len()
            &&& first_mismatch(expected, actual, offset as int)
            &&& e == expected[offset as int]
            &&& a == actual[offset as int]
        },
    }
}

/// What [`verify`] returns for two images, as a function of them.
pub open spec fn spec_verify(expected: Seq<u8>, actual: Seq<u8>) -> Result<(), VerificationError> {
    if expected.len() != actual.len() {
        Err(VerificationError::LengthMismatch { expected: expected.len() as usize, actual: actual.len() as usize })
    } else if exists|k: int| #[trigger] first_mismatch(expected, actual, k) {
        let k = choose|k: int| #[trigger] first_mismatch(expected, actual, k);
        Err(VerificationError::ByteMismatch { offset: k as usize, expected: expected[k], actual: actual[k] })
    } else {
        Ok(())
    }
}

/// The comparison succeeds exactly on equal images.
pub proof fn lemma_spec_verify_ok(expected: Seq<u8>, actual: Seq<u8>)
    ensures
        spec_verify(expected, actual) is Ok <==> expected == actual,
{
    if expected.len() == actual.len() && expected != actual {
        assert(!(expected =~= actual));
        let j = choose|j: int| 0 <= j < expected.len() && expected[j] != actual[j];
        let k = first_difference(expected, actual, 0, j + 1);
        assert(first_mismatch(expected, actual, k));
    }
    if expected == actual {
        if exists|k: int| #[trigger] first_mismatch(expected, actual, k) {
            let k = choose|k: int| #[trigger] first_mismatch(expected, actual, k);
            assert(expected[k] == actual[k]);
        }
    }
}

/// Checks that `actual` holds exactly the bytes of `expected`.
pub fn verify(expected: &[u8], actual: &[u8]) -> (result: Result<(), VerificationError>)
    ensures
        verify_result(expected@, actual@, result),
        result is Ok <==> expected@ == actual@,
        result == spec_verify(expected@, actual@),
{
    if expected.len() != actual.len() {
        return Err(VerificationError::LengthMismatch { expected: expected.len(), actual: actual.len() });
    }
    let mut i: usize = 0;
    while i < expected.len()
        invariant
            expected@.len() == actual@.len(),
            i <= expected@.len(),
            forall|j: int| 0 <= j < i ==> expected@[j] == actual@[j],
        decreases expected@.len() - i,
    {
        if expected[i] != actual[i] {
            proof {
                assert(first_mismatch(expected@, actual@, i as int));
                let k = choose|k: int| #[trigger] first_mismatch(expected@, actual@, k);
                if k < i {
                    assert(expected@[k] == actual@[k]);
                } else if k > i {
                    assert(expected@[i as int] == actual@[i as int]);
                }
            }
            return Err(VerificationError::ByteMismatch { offset: i, expected: expected[i], actual: actual[i] });
        }
        i = i + 1;
    }
    assert(expected@ =~= actual@);
    assert(!exists|k: int| #[trigger] first_mismatch(expected@, actual@, k));
    Ok(())
}

} // verus!
