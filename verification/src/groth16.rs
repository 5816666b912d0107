//! Trusted boundary to the pairing-based proof system.
//!
//! The registry treats verification keys, proofs and public inputs as byte
//! strings. Whether such bytes decode, and whether a decoded proof verifies,
//! is decided by the outside proof-system crates; the wrappers here name
//! those outcomes so that verified code can reason about them. Verification
//! is deterministic: its outcome is a function of the three byte strings
//! alone.

use vstd::prelude::*;
use ark_serialize::CanonicalDeserialize;

verus! {

/// Whether the bytes are a canonical encoding of a verification key.
pub uninterp spec fn vk_well_formed(bytes: Seq<u8>) -> bool;

/// Whether the bytes are a canonical encoding of a proof.
pub uninterp spec fn proof_well_formed(bytes: Seq<u8>) -> bool;

/// Whether the bytes are a canonical encoding of one public-input field
/// element.
pub uninterp spec fn input_well_formed(bytes: Seq<u8>) -> bool;

/// Whether the proof system accepts the proof against the verification key
/// and the ordered public inputs, all given in their canonical encodings.
pub uninterp spec fn groth16_accepts(vk: Seq<u8>, proof: Seq<u8>, inputs: Seq<Seq<u8>>) -> bool;

/// The views of a sequence of byte vectors.
pub open spec fn byte_views(s: Seq<Vec<u8>>) -> Seq<Seq<u8>> {
    s.map_values(|v: Vec<u8>| v@)
}

/// Relies on `ark_serialize::CanonicalDeserialize` for
/// `ark_groth16::VerifyingKey` over BLS12-381: reports whether the bytes are
/// a canonical verification-key encoding.
#[verifier::external_body]
pub(crate) fn vk_decodes(bytes: &Vec<u8>) -> (r: bool)
    ensures
        r == vk_well_formed(bytes@),
{
    ark_groth16::VerifyingKey::<ark_bls12_381::Bls12_381>::deserialize(&bytes[..]).is_ok()
}

/// Relies on `ark_serialize::CanonicalDeserialize` for `ark_groth16::Proof`
/// over BLS12-381: reports whether the bytes are a canonical proof encoding.
#[verifier::external_body]
pub(crate) fn proof_decodes(bytes: &Vec<u8>) -> (r: bool)
    ensures
        r == proof_well_formed(bytes@),
{
    ark_groth16::Proof::<ark_bls12_381::Bls12_381>::deserialize(&bytes[..]).is_ok()
}

/// Relies on `ark_serialize::CanonicalDeserialize` for the BLS12-381 scalar
/// field: reports whether the bytes are a canonical field-element encoding.
#[verifier::external_body]
pub(crate) fn input_decodes(bytes: &Vec<u8>) -> (r: bool)
    ensures
        r == input_well_formed(bytes@),
{
    ark_bls12_381::Fr::deserialize(&bytes[..]).is_ok()
}

/// Whether every public-input entry is a canonical field-element encoding.
pub(crate) fn inputs_decode(inputs: &Vec<Vec<u8>>) -> (r: bool)
    ensures
        r == (forall|i: int|
            0 <= i < inputs@.len() ==> input_well_formed(#[trigger] byte_views(inputs@)[i])),
{
    let n = inputs.len();
    let mut i: usize = 0;
    while i < n
        invariant
            n == inputs@.len(),
            0 <= i <= n,
            forall|k: int| 0 <= k < i ==> input_well_formed(#[trigger] byte_views(inputs@)[k]),
        decreases n - i,
    {
        if !input_decodes(&inputs[i]) {
            proof {
                assert(byte_views(inputs@)[i as int] == inputs@[i as int]@);
            }
            return false;
        }
        i += 1;
    }
    true
}

/// Relies on `ark_groth16::verify_proof` with `prepare_verifying_key` over
/// BLS12-381: the verification outcome for decodable bytes. An ark-side
/// error (for instance a public-input count that does not match the key)
/// counts as a rejection, not a distinct failure, as does a non-canonical
/// point produced by the pairing; verification itself is deterministic in
/// the three encodings.
#[verifier::external_body]
pub(crate) fn groth16_verify(vk_bytes: &Vec<u8>, proof_bytes: &Vec<u8>, inputs: &Vec<Vec<u8>>) -> (r:
    bool)
    requires
        vk_well_formed(vk_bytes@),
        proof_well_formed(proof_bytes@),
        forall|i: int|
            0 <= i < inputs@.len() ==> input_well_formed(#[trigger] byte_views(inputs@)[i]),
    ensures
        r == groth16_accepts(vk_bytes@, proof_bytes@, byte_views(inputs@)),
{
    let vk = ark_groth16::VerifyingKey::<ark_bls12_381::Bls12_381>::deserialize(&vk_bytes[..])
        .unwrap();
    let pf = ark_groth16::Proof::<ark_bls12_381::Bls12_381>::deserialize(&proof_bytes[..]).unwrap();
    let ins: Vec<ark_bls12_381::Fr> = inputs
        .iter()
        .map(|b| ark_bls12_381::Fr::deserialize(&b[..]).unwrap())
        .collect();
    let pvk = ark_groth16::prepare_verifying_key(&vk);
    ark_groth16::verify_proof(&pvk, &pf, &ins).unwrap_or(false)
}

} // verus!
