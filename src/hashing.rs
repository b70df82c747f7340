use vstd::prelude::*;

use crate::task::{hash_input_bytes, AccountId, TaskHashInput, TaskId};

verus! {

/// The 256-bit BLAKE2b digest of `data`.
pub uninterp spec fn blake2_256_of(data: Seq<u8>) -> Seq<u8>;

/// The identifier of the task that `owner_id` submits under `provided_id`.
pub open spec fn task_id_of(owner_id: AccountId, provided_id: Seq<u8>) -> Seq<u8> {
    blake2_256_of(hash_input_bytes(owner_id, provided_id))
}

/// Relies on sp_crypto_hashing::blake2_256: a 32-byte digest that depends on
/// the input bytes alone.
#[verifier::external_body]
fn blake2_256(data: &Vec<u8>) -> (r: [u8; 32])
    ensures
        r@ == blake2_256_of(data@),
{
    sp_crypto_hashing::blake2_256(data.as_slice())
}

/// The identifier of the task that `owner_id` submits under `provided_id`.
pub fn hash_of(input: &TaskHashInput) -> (r: TaskId)
    ensures
        r@ == task_id_of(input.owner_id, input.provided_id@),
{
    let bytes = input.encode();
    blake2_256(&bytes)
}

/// Whether two identifiers are the same.
pub fn same_id(a: &TaskId, b: &TaskId) -> (r: bool)
    ensures
        r == (a@ == b@),
{
    let mut i: usize = 0;
    while i < 32
        invariant
            0 <= i <= 32,
            a@.len() == 32,
            b@.len() == 32,
            forall|k: int| 0 <= k < i ==> a@[k] == b@[k],
        decreases 32 - i,
    {
        if a[i] != b[i] {
            return false;
        }
        i = i + 1;
    }
    assert(a@ =~= b@);
    true
}

} // verus!
