use vstd::prelude::*;

use blake2::Digest;

verus! {

/// The replication-safe inputs the host exposes to one transition: a
/// per-transition seed, the index of the operation inside the transition,
/// and the sequence number of the replicated log.
#[derive(Clone, Copy, Debug)]
pub struct TransitionEnv {
    pub random_seed: u64,
    pub extrinsic_index: u32,
    pub block_number: u64,
}

/// The 16-byte BLAKE2b digest of `input`: a function of the input bytes
/// alone, identical on every replica.
pub uninterp spec fn blake2b_128_of(input: Seq<u8>) -> Seq<u8>;

/// Relies on `blake2::Blake2b128` (BLAKE2b with a 16-byte output): the
/// digest is a function of the input bytes alone and is 16 bytes long.
#[verifier::external_body]
fn blake2_128(data: &Vec<u8>) -> (r: Vec<u8>)
    ensures
        r@ == blake2b_128_of(data@),
        r@.len() == 16,
{
    blake2::Blake2b128::digest(data.as_slice()).to_vec()
}

/// The byte string hashed for one randomness draw: the seed, the caller and
/// the transition coordinates, each in little-endian bytes.
pub open spec fn payload_bytes(sender: u64, env: TransitionEnv) -> Seq<u8> {
    vstd::bytes::spec_u64_to_le_bytes(env.random_seed) + vstd::bytes::spec_u64_to_le_bytes(sender)
        + vstd::bytes::spec_u32_to_le_bytes(env.extrinsic_index)
        + vstd::bytes::spec_u64_to_le_bytes(env.block_number)
}

/// The 128-bit value every replica derives for this draw.
pub open spec fn random_value_spec(sender: u64, env: TransitionEnv) -> Seq<u8> {
    blake2b_128_of(payload_bytes(sender, env))
}

/// Derive the deterministic 128-bit randomness for `sender` under `env`:
/// the digest of the encoded seed, caller and transition coordinates.  The
/// value is reproducible by anyone who knows the inputs; it is unpredictable
/// only to outside observers, never to the caller.
pub fn random_value(sender: u64, env: TransitionEnv) -> (r: Vec<u8>)
    ensures
        r@ == random_value_spec(sender, env),
        r@.len() == 16,
{
    let mut payload = vstd::bytes::u64_to_le_bytes(env.random_seed);
    let mut sender_bytes = vstd::bytes::u64_to_le_bytes(sender);
    payload.append(&mut sender_bytes);
    let mut index_bytes = vstd::bytes::u32_to_le_bytes(env.extrinsic_index);
    payload.append(&mut index_bytes);
    let mut block_bytes = vstd::bytes::u64_to_le_bytes(env.block_number);
    payload.append(&mut block_bytes);
    proof {
        assert(payload@ =~= payload_bytes(sender, env));
    }
    blake2_128(&payload)
}

} // verus!
