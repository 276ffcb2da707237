//! Whether the signatures found on a release index are enough to trust it.

use vstd::prelude::*;

use crate::error::Error;

verus! {

/// The verdict on the signatures of a document, given whether each one
/// verified, in the order they were found: there must be at least one, and
/// every one must be good.
pub fn validate_signature(valid: &[bool]) -> (r: Result<(), Error>)
    ensures
        valid@.len() == 0 ==> r == Err::<(), Error>(Error::NoSignatures),
        valid@.len() > 0 ==> (r is Ok <==> forall|i: int| 0 <= i < valid@.len() ==> #[trigger] valid@[i]),
        valid@.len() > 0 && r is Err ==> r == Err::<(), Error>(Error::InvalidSignature),
{
    if valid.len() == 0 {
        return Err(Error::NoSignatures);
    }
    let mut k: usize = 0;
    while k < valid.len()
        invariant
            k <= valid@.len(),
            forall|i: int| 0 <= i < k ==> #[trigger] valid@[i],
        decreases valid@.len() - k,
    {
        if !valid[k] {
            return Err(Error::InvalidSignature);
        }
        k = k + 1;
    }
    Ok(())
}

} // verus!
