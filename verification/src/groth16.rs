//! The pairing-based proof verifier.
//!
//! A proof is three curve points `(A, B, C)`; the verifier folds the seven
//! public inputs into one G1 point `vk_x = ic[0] + Σ input_j · ic[j+1]` and
//! accepts exactly when the four-pair product
//! `e(A, B) · e(vk_x, γ) · e(C, δ) · e(α, β)` is the identity — which
//! presumes that the caller supplies `A` already negated.  All point
//! arithmetic is delegated to the BN254 syscall equivalents, named here by
//! uninterpreted functions.

use vstd::prelude::*;
use crate::errors::Groth16Error;
use crate::field::{be_nat, be32_lt, bytes_append, p_nat, FIELD_SIZE_BE, lemma_field_size_be_value};

verus! {

broadcast use vstd::array::group_array_axioms;

/// What BN254 G1 scalar multiplication returns on a 96-byte big-endian
/// input (64-byte point, then 32-byte scalar); `None` is a rejected input.
pub uninterp spec fn g1_mul_result(input: Seq<u8>) -> Option<Seq<u8>>;

/// What BN254 G1 point addition returns on a 128-byte big-endian input (two
/// 64-byte points); `None` is a rejected input.
pub uninterp spec fn g1_add_result(input: Seq<u8>) -> Option<Seq<u8>>;

/// What the BN254 multi-pairing check returns on a sequence of 192-byte
/// (G1, G2) pairs: a 32-byte big-endian flag, 1 exactly when the product of
/// the pairings is the identity; `None` is a rejected input.
pub uninterp spec fn pairing_result(input: Seq<u8>) -> Option<Seq<u8>>;

/// Relies on `solana_bn254::prelude::alt_bn128_g1_multiplication_be`:
/// big-endian G1 scalar multiplication, a function of the input alone,
/// returning a 64-byte point on success.
#[verifier::external_body]
fn g1_multiply(input: &Vec<u8>) -> (r: Option<[u8; 64]>)
    ensures
        match r {
            Some(v) => g1_mul_result(input@) == Some(v@),
            None => g1_mul_result(input@) is None,
        },
{
    match solana_bn254::prelude::alt_bn128_g1_multiplication_be(input) {
        Ok(v) => v.try_into().ok(),
        Err(_) => None,
    }
}

/// Relies on `solana_bn254::prelude::alt_bn128_g1_addition_be`: big-endian
/// G1 point addition, a function of the input alone, returning a 64-byte
/// point on success.
#[verifier::external_body]
fn g1_add(input: &Vec<u8>) -> (r: Option<[u8; 64]>)
    ensures
        match r {
            Some(v) => g1_add_result(input@) == Some(v@),
            None => g1_add_result(input@) is None,
        },
{
    match solana_bn254::prelude::alt_bn128_g1_addition_be(input) {
        Ok(v) => v.try_into().ok(),
        Err(_) => None,
    }
}

/// Relies on `solana_bn254::prelude::alt_bn128_pairing_be`: the big-endian
/// multi-pairing check, a function of the input alone, returning a 32-byte
/// flag on success.
#[verifier::external_body]
fn g1_pairing(input: &Vec<u8>) -> (r: Option<[u8; 32]>)
    ensures
        match r {
            Some(v) => pairing_result(input@) == Some(v@),
            None => pairing_result(input@) is None,
        },
{
    match solana_bn254::prelude::alt_bn128_pairing_be(input) {
        Ok(v) => v.try_into().ok(),
        Err(_) => None,
    }
}

/// The trusted-setup constants a proof is checked against: the fixed points
/// of the verification equation and one `ic` point per public input,
/// including the constant term.
#[derive(Clone, Copy)]
pub struct Groth16Verifyingkey<'a> {
    pub nr_pubinputs: usize,
    pub vk_alpha_g1: [u8; 64],
    pub vk_beta_g2: [u8; 128],
    pub vk_gamme_g2: [u8; 128],
    pub vk_delta_g2: [u8; 128],
    pub vk_ic: &'a [[u8; 64]],
}

/// The `ic` table of a verifying key, as a sequence of byte strings.
pub open spec fn vk_ic_view(vk: Groth16Verifyingkey) -> Seq<Seq<u8>> {
    Seq::new(vk.vk_ic@.len(), |i: int| vk.vk_ic@[i]@)
}

/// Everything a verification verdict depends on.
#[verifier::ext_equal]
pub struct VerifierParams {
    pub proof_a: Seq<u8>,
    pub proof_b: Seq<u8>,
    pub proof_c: Seq<u8>,
    pub inputs: Seq<Seq<u8>>,
    pub ic: Seq<Seq<u8>>,
    pub alpha: Seq<u8>,
    pub beta: Seq<u8>,
    pub gamma: Seq<u8>,
    pub delta: Seq<u8>,
}

/// The state of folding the public inputs into one G1 point.
pub enum PrepareResult {
    Done(Seq<u8>),
    MulFailed,
    AddFailed,
}

/// The accumulated `ic[0] + Σ_{j<n} input_j · ic[j+1]` after `n` folding
/// steps, or the first point-arithmetic failure hit on the way.
pub open spec fn prepared_after(ic: Seq<Seq<u8>>, inputs: Seq<Seq<u8>>, n: int) -> PrepareResult
    decreases n,
{
    if n <= 0 {
        PrepareResult::Done(ic[0])
    } else {
        match prepared_after(ic, inputs, n - 1) {
            PrepareResult::Done(acc) => match g1_mul_result(ic[n] + inputs[n - 1]) {
                Some(m) => match g1_add_result(m + acc) {
                    Some(s) => PrepareResult::Done(s),
                    None => PrepareResult::AddFailed,
                },
                None => PrepareResult::MulFailed,
            },
            e => e,
        }
    }
}

/// A point-arithmetic failure while folding persists to every later step.
pub proof fn lemma_prepare_error_persists(ic: Seq<Seq<u8>>, inputs: Seq<Seq<u8>>, j: int, n: int)
    requires
        0 <= j <= n,
        !(prepared_after(ic, inputs, j) is Done),
    ensures
        prepared_after(ic, inputs, n) == prepared_after(ic, inputs, j),
    decreases n - j,
{
    if j < n {
        lemma_prepare_error_persists(ic, inputs, j, n - 1);
    }
}

/// The input handed to the multi-pairing check: the four (G1, G2) pairs of
/// the verification equation, in order.
pub open spec fn pairing_input(p: VerifierParams, prepared: Seq<u8>) -> Seq<u8> {
    p.proof_a + p.proof_b + prepared + p.gamma + p.proof_c + p.delta + p.alpha + p.beta
}

/// The verdict of the verification equation itself, before any input range
/// check: a point-arithmetic failure while folding the inputs is an
/// internal error; everything the pairing check rejects — malformed points
/// included — is one undifferentiated `ProofVerificationFailed`.
pub open spec fn unchecked_verdict(p: VerifierParams) -> Result<bool, Groth16Error> {
    match prepared_after(p.ic, p.inputs, p.inputs.len() as int) {
        PrepareResult::MulFailed => Err(Groth16Error::PreparingInputsG1MulFailed),
        PrepareResult::AddFailed => Err(Groth16Error::PreparingInputsG1AdditionFailed),
        PrepareResult::Done(prepared) => match pairing_result(pairing_input(p, prepared)) {
            None => Err(Groth16Error::ProofVerificationFailed),
            Some(out) => if out.len() == 32 && out[31] == 1 {
                Ok(true)
            } else {
                Err(Groth16Error::ProofVerificationFailed)
            },
        },
    }
}

/// Every public input encodes a value below the scalar field modulus.
pub open spec fn all_inputs_in_field(inputs: Seq<Seq<u8>>) -> bool {
    forall|i: int| 0 <= i < inputs.len() ==> be_nat(#[trigger] inputs[i]) < p_nat()
}

/// Checks whether a 32-byte big-endian value is a canonical scalar-field
/// element, i.e. strictly below the BN254 scalar field modulus.
pub fn is_less_than_bn254_field_size_be(bytes: &[u8; 32]) -> (r: bool)
    ensures
        r == (be_nat(bytes@) < p_nat()),
{
    proof {
        lemma_field_size_be_value();
    }
    be32_lt(bytes, &FIELD_SIZE_BE)
}

/// A proof, its public inputs and the verifying key, ready to be checked.
pub struct Groth16Verifier<'a, const NR_INPUTS: usize> {
    proof_a: &'a [u8; 64],
    proof_b: &'a [u8; 128],
    proof_c: &'a [u8; 64],
    public_inputs: &'a [[u8; 32]; NR_INPUTS],
    prepared_public_inputs: [u8; 64],
    verifyingkey: &'a Groth16Verifyingkey<'a>,
}

impl<'a, const NR_INPUTS: usize> Groth16Verifier<'a, NR_INPUTS> {
    /// What this verifier's verdict depends on.
    pub closed spec fn params(self) -> VerifierParams {
        VerifierParams {
            proof_a: self.proof_a@,
            proof_b: self.proof_b@,
            proof_c: self.proof_c@,
            inputs: Seq::new(NR_INPUTS as nat, |i: int| self.public_inputs@[i]@),
            ic: vk_ic_view(*self.verifyingkey),
            alpha: self.verifyingkey.vk_alpha_g1@,
            beta: self.verifyingkey.vk_beta_g2@,
            gamma: self.verifyingkey.vk_gamme_g2@,
            delta: self.verifyingkey.vk_delta_g2@,
        }
    }

    /// The verifier holds one `ic` point per public input plus the constant
    /// term.
    pub closed spec fn wf(self) -> bool {
        self.verifyingkey.vk_ic@.len() == NR_INPUTS + 1
    }

    /// Builds a verifier, rejecting a verifying key whose `ic` table does
    /// not hold one point per public input plus the constant term.
    pub fn new(
        proof_a: &'a [u8; 64],
        proof_b: &'a [u8; 128],
        proof_c: &'a [u8; 64],
        public_inputs: &'a [[u8; 32]; NR_INPUTS],
        verifyingkey: &'a Groth16Verifyingkey<'a>,
    ) -> (r: Result<Groth16Verifier<'a, NR_INPUTS>, Groth16Error>)
        ensures
            match r {
                Ok(v) => {
                    &&& verifyingkey.vk_ic@.len() == NR_INPUTS + 1
                    &&& v.wf()
                    &&& v.params() == (VerifierParams {
                        proof_a: proof_a@,
                        proof_b: proof_b@,
                        proof_c: proof_c@,
                        inputs: Seq::new(NR_INPUTS as nat, |i: int| public_inputs@[i]@),
                        ic: vk_ic_view(*verifyingkey),
                        alpha: verifyingkey.vk_alpha_g1@,
                        beta: verifyingkey.vk_beta_g2@,
                        gamma: verifyingkey.vk_gamme_g2@,
                        delta: verifyingkey.vk_delta_g2@,
                    })
                },
                Err(e) => {
                    &&& e == Groth16Error::InvalidPublicInputsLength
                    &&& verifyingkey.vk_ic@.len() != NR_INPUTS + 1
                },
            },
    {
        let n = verifyingkey.vk_ic.len();
        if NR_INPUTS == usize::MAX || n != NR_INPUTS + 1 {
            return Err(Groth16Error::InvalidPublicInputsLength);
        }
        Ok(
            Groth16Verifier {
                proof_a,
                proof_b,
                proof_c,
                public_inputs,
                prepared_public_inputs: [0u8; 64],
                verifyingkey,
            },
        )
    }

    /// Folds the public inputs into `vk_x = ic[0] + Σ input_j · ic[j+1]`,
    /// caching the result; a point-arithmetic failure is an internal error,
    /// not a verification failure.
    fn prepare_inputs(&mut self) -> (r: Result<(), Groth16Error>)
        requires
            old(self).wf(),
        ensures
            final(self).params() == old(self).params(),
            final(self).wf(),
            match r {
                Ok(()) => prepared_after(
                    old(self).params().ic,
                    old(self).params().inputs,
                    NR_INPUTS as int,
                ) == PrepareResult::Done(final(self).prepared_view()),
                Err(e) => {
                    &&& prepared_after(
                        old(self).params().ic,
                        old(self).params().inputs,
                        NR_INPUTS as int,
                    ) matches PrepareResult::MulFailed ==> e
                        == Groth16Error::PreparingInputsG1MulFailed
                    &&& prepared_after(
                        old(self).params().ic,
                        old(self).params().inputs,
                        NR_INPUTS as int,
                    ) matches PrepareResult::AddFailed ==> e
                        == Groth16Error::PreparingInputsG1AdditionFailed
                    &&& !(prepared_after(
                        old(self).params().ic,
                        old(self).params().inputs,
                        NR_INPUTS as int,
                    ) matches PrepareResult::Done(_))
                },
            },
    {
        let ghost ic = old(self).params().ic;
        let ghost inputs = old(self).params().inputs;
        let mut acc: [u8; 64] = self.verifyingkey.vk_ic[0];
        let mut j: usize = 0;
        while j < NR_INPUTS
            invariant
                j <= NR_INPUTS,
                *self == *old(self),
                self.wf(),
                ic == self.params().ic,
                inputs == self.params().inputs,
                prepared_after(ic, inputs, j as int) == PrepareResult::Done(acc@),
            decreases NR_INPUTS - j,
        {
            let mut mul_in: Vec<u8> = Vec::new();
            bytes_append(&mut mul_in, self.verifyingkey.vk_ic[j + 1].as_slice());
            bytes_append(&mut mul_in, self.public_inputs[j].as_slice());
            proof {
                assert(mul_in@ == ic[j + 1] + inputs[j as int]);
            }
            let m = match g1_multiply(&mul_in) {
                Some(m) => m,
                None => {
                    proof {
                        assert(prepared_after(ic, inputs, j + 1) == PrepareResult::MulFailed);
                        lemma_prepare_error_persists(ic, inputs, j + 1, NR_INPUTS as int);
                    }
                    return Err(Groth16Error::PreparingInputsG1MulFailed);
                },
            };
            let mut add_in: Vec<u8> = Vec::new();
            bytes_append(&mut add_in, m.as_slice());
            bytes_append(&mut add_in, acc.as_slice());
            proof {
                assert(add_in@ == m@ + acc@);
            }
            let s = match g1_add(&add_in) {
                Some(s) => s,
                None => {
                    proof {
                        assert(prepared_after(ic, inputs, j + 1) == PrepareResult::AddFailed);
                        lemma_prepare_error_persists(ic, inputs, j + 1, NR_INPUTS as int);
                    }
                    return Err(Groth16Error::PreparingInputsG1AdditionFailed);
                },
            };
            acc = s;
            j = j + 1;
        }
        self.prepared_public_inputs = acc;
        Ok(())
    }

    /// The cached folded-input point.
    pub closed spec fn prepared_view(self) -> Seq<u8> {
        self.prepared_public_inputs@
    }

    /// Checks the verification equation without range-checking the public
    /// inputs first.
    pub fn verify_unchecked(&mut self) -> (r: Result<bool, Groth16Error>)
        requires
            old(self).wf(),
        ensures
            final(self).params() == old(self).params(),
            final(self).wf(),
            r == unchecked_verdict(old(self).params()),
    {
        match self.prepare_inputs() {
            Ok(()) => {},
            Err(e) => {
                return Err(e);
            },
        }
        let mut pairing_in: Vec<u8> = Vec::new();
        bytes_append(&mut pairing_in, self.proof_a.as_slice());
        bytes_append(&mut pairing_in, self.proof_b.as_slice());
        bytes_append(&mut pairing_in, self.prepared_public_inputs.as_slice());
        bytes_append(&mut pairing_in, self.verifyingkey.vk_gamme_g2.as_slice());
        bytes_append(&mut pairing_in, self.proof_c.as_slice());
        bytes_append(&mut pairing_in, self.verifyingkey.vk_delta_g2.as_slice());
        bytes_append(&mut pairing_in, self.verifyingkey.vk_alpha_g1.as_slice());
        bytes_append(&mut pairing_in, self.verifyingkey.vk_beta_g2.as_slice());
        proof {
            assert(pairing_in@ == pairing_input(
                old(self).params(),
                self.prepared_public_inputs@,
            ));
        }
        match g1_pairing(&pairing_in) {
            None => Err(Groth16Error::ProofVerificationFailed),
            Some(out) => {
                if out[31] == 1 {
                    Ok(true)
                } else {
                    Err(Groth16Error::ProofVerificationFailed)
                }
            },
        }
    }

    /// Checks that every public input is a canonical field element —
    /// rejecting oversize inputs with the distinct, cheaper-to-diagnose
    /// `PublicInputGreaterThanFieldSize` — and then checks the verification
    /// equation.
    pub fn verify(&mut self) -> (r: Result<bool, Groth16Error>)
        requires
            old(self).wf(),
        ensures
            final(self).params() == old(self).params(),
            final(self).wf(),
            r == (if !all_inputs_in_field(old(self).params().inputs) {
                Err::<bool, Groth16Error>(Groth16Error::PublicInputGreaterThanFieldSize)
            } else {
                unchecked_verdict(old(self).params())
            }),
    {
        let mut i: usize = 0;
        while i < NR_INPUTS
            invariant
                i <= NR_INPUTS,
                *self == *old(self),
                old(self).wf(),
                forall|k: int|
                    0 <= k < i ==> be_nat(#[trigger] old(self).params().inputs[k]) < p_nat(),
            decreases NR_INPUTS - i,
        {
            if !is_less_than_bn254_field_size_be(&self.public_inputs[i]) {
                proof {
                    assert(old(self).params().inputs[i as int] == self.public_inputs@[i as int]@);
                }
                return Err(Groth16Error::PublicInputGreaterThanFieldSize);
            }
            proof {
                assert(old(self).params().inputs[i as int] == self.public_inputs@[i as int]@);
            }
            i = i + 1;
        }
        self.verify_unchecked()
    }
}

} // verus!
