//! The cryptographic derivations behind the spent-status markers: the tag
//! and the serial number of a record commitment.
//!
//! The hash, hash-to-group, hash-to-scalar and commitment primitives are
//! supplied by the network; each is deterministic and domain-separated, so
//! each call's outcome is a function of its argument bytes alone and is
//! given a name here. Field, group and scalar elements cross this boundary
//! as their canonical little-endian byte encodings; a byte string that is
//! not a canonical encoding makes the derivation fail, which callers treat
//! as "skip this record".
use vstd::prelude::*;
use snarkvm_console_network::MainnetV0;
use snarkvm_console_network::Network;
use snarkvm_console_network::prelude::{FromBytes, ToBits, ToBytes};
use snarkvm_console_types::{Field, Group, Scalar};

verus! {

/// The byte view of an optional byte string.
pub open spec fn opt_bytes(r: Option<Vec<u8>>) -> Option<Seq<u8>> {
    match r {
        Some(v) => Some(v@),
        None => None,
    }
}

/// The tag of a commitment under a tag secret: `Hash_PSD2(sk_tag, c)`.
pub uninterp spec fn tag_of(sk_tag: Seq<u8>, commitment: Seq<u8>) -> Option<Seq<u8>>;

/// The serial-number base point: `HashToGroup_PSD2(sn_domain, c)`.
pub uninterp spec fn sn_group_of(commitment: Seq<u8>) -> Option<Seq<u8>>;

/// The product of a group element and a scalar.
pub uninterp spec fn group_mul_of(g: Seq<u8>, scalar: Seq<u8>) -> Option<Seq<u8>>;

/// The x-coordinate of a group element cleared of its cofactor.
pub uninterp spec fn cofactor_x_of(g: Seq<u8>) -> Option<Seq<u8>>;

/// The serial-number nonce: `HashToScalar_PSD2(sn_domain, x)`.
pub uninterp spec fn sn_nonce_of(x: Seq<u8>) -> Option<Seq<u8>>;

/// The serial-number commitment: `Commit_BHP512(bits(sn_domain, c), nonce)`.
pub uninterp spec fn sn_commit_of(commitment: Seq<u8>, nonce: Seq<u8>) -> Option<Seq<u8>>;

/// Relies on `Network::hash_psd2` of `snarkvm-console-network`: a
/// deterministic, domain-separated Poseidon hash of two field elements.
/// The outcome, including failure on non-canonical field bytes, is a
/// function of the argument bytes alone.
#[verifier::external_body]
fn hash_psd2_pair(sk_tag: &Vec<u8>, commitment: &Vec<u8>) -> (r: Option<Vec<u8>>)
    ensures
        opt_bytes(r) == tag_of(sk_tag@, commitment@),
{
    let a = match Field::<MainnetV0>::from_bytes_le(sk_tag) {
        Ok(v) => v,
        Err(_) => return None,
    };
    let b = match Field::<MainnetV0>::from_bytes_le(commitment) {
        Ok(v) => v,
        Err(_) => return None,
    };
    match MainnetV0::hash_psd2(&[a, b]) {
        Ok(t) => t.to_bytes_le().ok(),
        Err(_) => None,
    }
}

/// Relies on `Network::hash_to_group_psd2` and the network's fixed
/// `serial_number_domain` constant: a deterministic, domain-separated hash
/// of the commitment to a group element.
#[verifier::external_body]
fn sn_hash_to_group(commitment: &Vec<u8>) -> (r: Option<Vec<u8>>)
    ensures
        opt_bytes(r) == sn_group_of(commitment@),
{
    let c = match Field::<MainnetV0>::from_bytes_le(commitment) {
        Ok(v) => v,
        Err(_) => return None,
    };
    match MainnetV0::hash_to_group_psd2(&[MainnetV0::serial_number_domain(), c]) {
        Ok(h) => h.to_bytes_le().ok(),
        Err(_) => None,
    }
}

/// Relies on the group arithmetic of `snarkvm-console-types`: multiplies a
/// group element by a scalar; deterministic in the argument bytes.
#[verifier::external_body]
fn group_scalar_mul(g: &Vec<u8>, scalar: &Vec<u8>) -> (r: Option<Vec<u8>>)
    ensures
        opt_bytes(r) == group_mul_of(g@, scalar@),
{
    let ge = match Group::<MainnetV0>::from_bytes_le(g) {
        Ok(v) => v,
        Err(_) => return None,
    };
    let s = match Scalar::<MainnetV0>::from_bytes_le(scalar) {
        Ok(v) => v,
        Err(_) => return None,
    };
    (ge * s).to_bytes_le().ok()
}

/// Relies on `Group::mul_by_cofactor` and `Group::to_x_coordinate` of
/// `snarkvm-console-types`: clears the cofactor and projects the
/// x-coordinate; deterministic in the argument bytes.
#[verifier::external_body]
fn group_cofactor_x(g: &Vec<u8>) -> (r: Option<Vec<u8>>)
    ensures
        opt_bytes(r) == cofactor_x_of(g@),
{
    let ge = match Group::<MainnetV0>::from_bytes_le(g) {
        Ok(v) => v,
        Err(_) => return None,
    };
    ge.mul_by_cofactor().to_x_coordinate().to_bytes_le().ok()
}

/// Relies on `Network::hash_to_scalar_psd2` and the network's fixed
/// `serial_number_domain` constant: a deterministic, domain-separated hash
/// of the x-coordinate to a scalar.
#[verifier::external_body]
fn sn_hash_to_scalar(x: &Vec<u8>) -> (r: Option<Vec<u8>>)
    ensures
        opt_bytes(r) == sn_nonce_of(x@),
{
    let fx = match Field::<MainnetV0>::from_bytes_le(x) {
        Ok(v) => v,
        Err(_) => return None,
    };
    match MainnetV0::hash_to_scalar_psd2(&[MainnetV0::serial_number_domain(), fx]) {
        Ok(s) => s.to_bytes_le().ok(),
        Err(_) => None,
    }
}

/// Relies on `Network::commit_bhp512`, the network's fixed
/// `serial_number_domain` constant, and the little-endian bit encoding of
/// the pair: a deterministic, binding commitment to the domain and the
/// commitment under the nonce.
#[verifier::external_body]
fn sn_commit(commitment: &Vec<u8>, nonce: &Vec<u8>) -> (r: Option<Vec<u8>>)
    ensures
        opt_bytes(r) == sn_commit_of(commitment@, nonce@),
{
    let c = match Field::<MainnetV0>::from_bytes_le(commitment) {
        Ok(v) => v,
        Err(_) => return None,
    };
    let n = match Scalar::<MainnetV0>::from_bytes_le(nonce) {
        Ok(v) => v,
        Err(_) => return None,
    };
    let bits = (MainnetV0::serial_number_domain(), c).to_bits_le();
    match MainnetV0::commit_bhp512(&bits, &n) {
        Ok(f) => f.to_bytes_le().ok(),
        Err(_) => None,
    }
}

/// The serial number of a commitment under a signing secret:
/// `Commit_BHP512(bits(sn_domain, c), HashToScalar_PSD2(sn_domain,
/// x(cofactor_clear(sk_sig * HashToGroup_PSD2(sn_domain, c)))))`, or `None`
/// when any step of the derivation fails.
pub open spec fn serial_number_of(sk_sig: Seq<u8>, commitment: Seq<u8>) -> Option<Seq<u8>> {
    match sn_group_of(commitment) {
        None => None,
        Some(h) => match group_mul_of(h, sk_sig) {
            None => None,
            Some(gamma) => match cofactor_x_of(gamma) {
                None => None,
                Some(x) => match sn_nonce_of(x) {
                    None => None,
                    Some(nonce) => sn_commit_of(commitment, nonce),
                },
            },
        },
    }
}

/// Derives the tag of a commitment under a tag secret.
pub fn derive_tag(sk_tag: &Vec<u8>, commitment: &Vec<u8>) -> (r: Option<Vec<u8>>)
    ensures
        opt_bytes(r) == tag_of(sk_tag@, commitment@),
{
    hash_psd2_pair(sk_tag, commitment)
}

/// Derives the serial number of a commitment under a signing secret,
/// composing the four primitive steps exactly.
pub fn derive_serial_number(sk_sig: &Vec<u8>, commitment: &Vec<u8>) -> (r: Option<Vec<u8>>)
    ensures
        opt_bytes(r) == serial_number_of(sk_sig@, commitment@),
{
    let h = match sn_hash_to_group(commitment) {
        Some(v) => v,
        None => {
            return None;
        },
    };
    let gamma = match group_scalar_mul(&h, sk_sig) {
        Some(v) => v,
        None => {
            return None;
        },
    };
    let x = match group_cofactor_x(&gamma) {
        Some(v) => v,
        None => {
            return None;
        },
    };
    let nonce = match sn_hash_to_scalar(&x) {
        Some(v) => v,
        None => {
            return None;
        },
    };
    sn_commit(commitment, &nonce)
}

} // verus!
