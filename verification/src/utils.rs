//! The amount-conservation checks and the proof-verification entry point
//! that the transaction protocol builds on.

use vstd::prelude::*;
use crate::errors::ErrorCode;
use crate::field::{be_nat, be32_as_u64, be32_prefix16_eq, be32_tail_u128, fr_reduce_be, p_nat,
    pow256, FIELD_SIZE_BE, lemma_field_size_be_value, lemma_be_nat_split, lemma_be_nat_bound,
    lemma_be_nat_injective, lemma_pow256_values};
use crate::groth16::{Groth16Verifier, Groth16Verifyingkey, VerifierParams, all_inputs_in_field,
    unchecked_verdict, vk_ic_view};
use crate::transaction::Proof;

verus! {

/// Where byte `i` of the per-32-byte-chunk-reversed image of a string of
/// length `len` comes from in the original string.
pub open spec fn chunk_rev_idx(len: int, i: int) -> int {
    let start = 32 * (i / 32);
    let end = if start + 32 <= len {
        start + 32
    } else {
        len
    };
    end - 1 - (i - start)
}

/// The per-32-byte-chunk-reversed image of a byte string.
pub open spec fn chunk_swapped(s: Seq<u8>) -> Seq<u8> {
    Seq::new(s.len(), |i: int| s[chunk_rev_idx(s.len() as int, i)])
}

/// Reverses each successive 32-byte chunk of `bytes` (the final chunk may be
/// shorter), converting between big-endian and little-endian limb encodings
/// of curve points.
pub fn change_endianness(bytes: &[u8]) -> (out: Vec<u8>)
    ensures
        out@ == chunk_swapped(bytes@),
{
    let mut out: Vec<u8> = Vec::new();
    let mut start: usize = 0;
    while start < bytes.len()
        invariant
            start <= bytes@.len(),
            start % 32 == 0 || start == bytes@.len(),
            out@.len() == start,
            forall|i: int|
                0 <= i < start ==> out@[i] == bytes@[chunk_rev_idx(bytes@.len() as int, i)],
        decreases bytes@.len() - start,
    {
        let end: usize = if bytes.len() - start > 32 {
            start + 32
        } else {
            bytes.len()
        };
        let mut j: usize = end;
        while j > start
            invariant
                start <= j <= end <= bytes@.len(),
                start % 32 == 0,
                end == if start + 32 <= bytes@.len() {
                    start + 32
                } else {
                    bytes@.len() as int
                },
                out@.len() == start + (end - j),
                forall|i: int|
                    0 <= i < out@.len() ==> out@[i] == bytes@[chunk_rev_idx(
                        bytes@.len() as int,
                        i,
                    )],
            decreases j,
        {
            j = j - 1;
            out.push(bytes[j]);
            proof {
                let len = bytes@.len() as int;
                let i = out@.len() - 1;
                assert(i / 32 == start as int / 32) by (nonlinear_arith)
                    requires
                        start % 32 == 0,
                        start <= i < start + 32,
                        i == out@.len() - 1,
                {}
                assert(32 * (i / 32) == start) by (nonlinear_arith)
                    requires
                        start % 32 == 0,
                        i / 32 == start as int / 32,
                {}
                assert(chunk_rev_idx(len, i) == j);
            }
        }
        start = end;
    }
    proof {
        assert(out@ =~= chunk_swapped(bytes@));
    }
    out
}

/// The value encoded by the low 16 bytes of the field modulus.
const FIELD_SIZE_LOW: u128 = 53438638232309528389504892708671455233;

/// What the amount-conservation rule demands of the proved public amount
/// for a given plaintext amount and fee: a deposit must strictly exceed its
/// fee and prove `ext_amount - fee`; a withdrawal must prove
/// `-(|ext_amount| + fee)` in the field; a zero amount accepts anything;
/// the most-negative amount is never valid.
pub open spec fn check_public_amount_spec(ext: int, fee: u64, pub_bytes: Seq<u8>) -> bool {
    if ext == i64::MIN {
        false
    } else if ext == 0 {
        true
    } else if ext > 0 {
        ext > fee && be_nat(pub_bytes) % p_nat() == ext - fee
    } else {
        be_nat(pub_bytes) % p_nat() == p_nat() - ((-ext) + fee)
    }
}

/// Decides whether `public_amount_bytes`, read as a big-endian field
/// element, equals the public amount that `ext_amount` and `fee` demand
/// under the amount-conservation rule.
pub fn check_public_amount(ext_amount: i64, fee: u64, public_amount_bytes: [u8; 32]) -> (r: bool)
    ensures
        r == check_public_amount_spec(ext_amount as int, fee, public_amount_bytes@),
{
    if ext_amount == i64::MIN {
        return false;
    }
    if ext_amount == 0 {
        return true;
    }
    let reduced = fr_reduce_be(&public_amount_bytes);
    if ext_amount > 0 {
        let e = ext_amount as u64;
        if e <= fee {
            return false;
        }
        let d = e - fee;
        match be32_as_u64(&reduced) {
            Some(v) => v == d,
            None => {
                proof {
                    lemma_pow256_values();
                }
                false
            },
        }
    } else {
        let abs: u64 = (-(ext_amount as i128)) as u64;
        let sum: u128 = abs as u128 + fee as u128;
        let hi_eq = be32_prefix16_eq(&reduced, &FIELD_SIZE_BE);
        let lo = be32_tail_u128(&reduced);
        let expected_lo: u128 = FIELD_SIZE_LOW - sum;
        let r = hi_eq && lo == expected_lo;
        proof {
            lemma_field_size_be_value();
            lemma_pow256_values();
            let r0 = reduced@;
            let fs = FIELD_SIZE_BE@;
            let w: nat = pow256(16);
            let hi: nat = 64323764613183177041862057485226039389nat;
            assert(fs =~= fs.take(16) + fs.skip(16));
            lemma_be_nat_split(fs.take(16), fs.skip(16));
            assert(be_nat(fs.skip(16)) == p_nat() - hi * w);
            assert(be_nat(fs.skip(16)) == FIELD_SIZE_LOW);
            assert(r0 =~= r0.take(16) + r0.skip(16));
            lemma_be_nat_split(r0.take(16), r0.skip(16));
            lemma_be_nat_bound(r0.skip(16));
            let a = be_nat(r0.take(16));
            let b = be_nat(r0.skip(16));
            let s: nat = sum as nat;
            assert(s == (-(ext_amount as int)) + fee);
            assert(s < FIELD_SIZE_LOW);
            assert(p_nat() - s == hi * w + (FIELD_SIZE_LOW - s));
            if r {
                assert(a == hi) by {
                    assert(r0.take(16) == fs.take(16));
                }
                assert(b == FIELD_SIZE_LOW - s);
                assert(be_nat(r0) == p_nat() - s);
            } else {
                if be_nat(r0) == p_nat() - s {
                    let d: nat = (FIELD_SIZE_LOW - s) as nat;
                    assert(a * w + b == hi * w + d);
                    assert(a == hi && b == d) by (nonlinear_arith)
                        requires
                            a * w + b == hi * w + d,
                            0 <= b < w,
                            0 <= d < w,
                    {}
                    lemma_be_nat_injective(r0.take(16), fs.take(16));
                    assert(hi_eq);
                    assert(lo == expected_lo);
                }
            }
        }
        r
    }
}

/// What `check_external_amount` returns: the plaintext magnitudes of a
/// transfer, provided the public amount, read as a plain integer, fits a
/// 64-bit signed value and matches the amount-conservation rule exactly.
pub open spec fn external_amount_spec(ext: int, fee: u64, pub_bytes: Seq<u8>) -> Result<
    (u64, u64),
    ErrorCode,
> {
    if ext == i64::MIN {
        Err(ErrorCode::InvalidExtAmount)
    } else if ext == 0 {
        Ok((0u64, fee))
    } else if be_nat(pub_bytes) > i64::MAX {
        Err(ErrorCode::InvalidPublicAmountData)
    } else if ext > 0 {
        if ext <= fee || be_nat(pub_bytes) != ext - fee {
            Err(ErrorCode::InvalidPublicAmountData)
        } else {
            Ok((ext as u64, fee))
        }
    } else {
        if be_nat(pub_bytes) != (-ext) + fee {
            Err(ErrorCode::InvalidPublicAmountData)
        } else {
            Ok(((-ext) as u64, fee))
        }
    }
}

/// The plain-integer variant of the amount check: reads the public amount
/// as a 64-bit value (rejecting anything larger), holds it to the
/// amount-conservation rule, and hands back the transfer magnitude and fee
/// for the value-movement step.
pub fn check_external_amount(ext_amount: i64, fee: u64, public_amount_bytes: [u8; 32]) -> (r:
    Result<(u64, u64), ErrorCode>)
    ensures
        r == external_amount_spec(ext_amount as int, fee, public_amount_bytes@),
{
    if ext_amount == i64::MIN {
        return Err(ErrorCode::InvalidExtAmount);
    }
    if ext_amount == 0 {
        return Ok((0, fee));
    }
    let v = match be32_as_u64(&public_amount_bytes) {
        Some(v) => v,
        None => {
            proof {
                lemma_pow256_values();
            }
            return Err(ErrorCode::InvalidPublicAmountData);
        },
    };
    if v > i64::MAX as u64 {
        return Err(ErrorCode::InvalidPublicAmountData);
    }
    if ext_amount > 0 {
        let e = ext_amount as u64;
        if e <= fee || v != e - fee {
            return Err(ErrorCode::InvalidPublicAmountData);
        }
        Ok((e, fee))
    } else {
        let abs: u64 = (-(ext_amount as i128)) as u64;
        let sum: u128 = abs as u128 + fee as u128;
        if (v as u128) != sum {
            return Err(ErrorCode::InvalidPublicAmountData);
        }
        Ok((abs, fee))
    }
}

/// What negating a G1 point returns, over the little-endian 64-byte
/// encoding; `None` is a rejected encoding.
pub uninterp spec fn g1_negate_result(input: Seq<u8>) -> Option<Seq<u8>>;

/// Relies on `ark_bn254::G1Affine` deserialization (uncompressed, with
/// validation), `Neg`, and per-coordinate serialization: on the 64-byte
/// little-endian encoding of a curve point it returns the little-endian
/// encoding of the negated point; the result depends on the input alone.
#[verifier::external_body]
fn g1_negate_le(b: &Vec<u8>) -> (r: Option<[u8; 64]>)
    ensures
        match r {
            Some(v) => g1_negate_result(b@) == Some(v@),
            None => g1_negate_result(b@) is None,
        },
{
    let buf = [b.as_slice(), &[0u8][..]].concat();
    let de = <ark_bn254::G1Affine as ark_serialize::CanonicalDeserialize>::deserialize_with_mode(
        buf.as_slice(), ark_serialize::Compress::No, ark_serialize::Validate::Yes);
    let point = match de { Ok(p) => p, Err(_) => return None };
    let neg = core::ops::Neg::neg(point);
    let mut out = [0u8; 65];
    let r1 = ark_serialize::CanonicalSerialize::serialize_with_mode(&neg.x, &mut out[..32], ark_serialize::Compress::No);
    let r2 = ark_serialize::CanonicalSerialize::serialize_with_mode(&neg.y, &mut out[32..], ark_serialize::Compress::No);
    if r1.is_err() || r2.is_err() { return None }
    out[..64].try_into().ok()
}

/// The public-input vector a proof carries, in schema order.
pub open spec fn proof_public_inputs(proof: Proof) -> Seq<Seq<u8>> {
    seq![
        proof.root@,
        proof.public_amount@,
        proof.ext_data_hash@,
        proof.input_nullifiers@[0]@,
        proof.input_nullifiers@[1]@,
        proof.output_commitments@[0]@,
        proof.output_commitments@[1]@,
    ]
}

/// What `verify_proof` decides: the supplied `proof_a` is un-negated
/// (little-endian round trip through the curve negation), and the verifier
/// must accept the negated point with the proof's seven public inputs under
/// the given key — with every failure, including a malformed `proof_a` or a
/// wrongly-sized key, collapsing to plain rejection.
pub open spec fn verify_proof_outcome(proof: Proof, vk: Groth16Verifyingkey) -> bool {
    match g1_negate_result(chunk_swapped(proof.proof_a@)) {
        None => false,
        Some(neg_le) => {
            let p = (VerifierParams {
                proof_a: chunk_swapped(neg_le),
                proof_b: proof.proof_b@,
                proof_c: proof.proof_c@,
                inputs: proof_public_inputs(proof),
                ic: vk_ic_view(vk),
                alpha: vk.vk_alpha_g1@,
                beta: vk.vk_beta_g2@,
                gamma: vk.vk_gamme_g2@,
                delta: vk.vk_delta_g2@,
            });
            &&& vk.vk_ic@.len() == 8
            &&& all_inputs_in_field(p.inputs)
            &&& unchecked_verdict(p) == Ok::<bool, crate::errors::Groth16Error>(true)
        },
    }
}

/// Copies a 64-byte vector into an array.
fn vec_to_array64(v: &Vec<u8>) -> (a: [u8; 64])
    requires
        v@.len() == 64,
    ensures
        a@ == v@,
{
    let mut a: [u8; 64] = [0u8; 64];
    let mut i: usize = 0;
    while i < 64
        invariant
            i <= 64,
            v@.len() == 64,
            forall|j: int| 0 <= j < i ==> a@[j] == v@[j],
        decreases 64 - i,
    {
        let ghost pre = a@;
        a[i] = v[i];
        proof {
            assert(a@ == pre.update(i as int, v@[i as int]));
        }
        i = i + 1;
    }
    proof {
        assert(a@ =~= v@);
    }
    a
}

/// Verifies a proof against a verifying key: negates `proof_a` (the
/// verification equation takes the negated first element; callers supply
/// the un-negated point here), assembles the seven public inputs in schema
/// order, and runs the checked verification.  Returns `false` on any
/// failure, including a malformed `proof_a` encoding.
pub fn verify_proof(proof: Proof, verifying_key: Groth16Verifyingkey) -> (r: bool)
    ensures
        r == verify_proof_outcome(proof, verifying_key),
{
    let le_a = change_endianness(proof.proof_a.as_slice());
    let neg = match g1_negate_le(&le_a) {
        Some(v) => v,
        None => {
            return false;
        },
    };
    let neg_be_vec = change_endianness(neg.as_slice());
    let proof_a = vec_to_array64(&neg_be_vec);
    let public_inputs: [[u8; 32]; 7] = [
        proof.root,
        proof.public_amount,
        proof.ext_data_hash,
        proof.input_nullifiers[0],
        proof.input_nullifiers[1],
        proof.output_commitments[0],
        proof.output_commitments[1],
    ];
    let mut verifier = match Groth16Verifier::<7>::new(
        &proof_a,
        &proof.proof_b,
        &proof.proof_c,
        &public_inputs,
        &verifying_key,
    ) {
        Ok(v) => v,
        Err(_) => {
            return false;
        },
    };
    proof {
        assert(Seq::new(7nat, |i: int| public_inputs@[i]@) =~~= proof_public_inputs(proof));
    }
    let res = verifier.verify();
    match res {
        Ok(b) => b,
        Err(_) => false,
    }
}

} // verus!
