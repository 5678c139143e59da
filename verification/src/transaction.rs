//! The value types a transaction carries, and the orchestration of a full
//! transition: root freshness, data binding, amount conservation, proof
//! verification, value movement, tree insertion and nullifier reservation.

use vstd::prelude::*;
use crate::errors::ErrorCode;
use crate::field::{be_nat, le_nat, p_nat, pow256, bytes_append, bytes32_eq, fr_reduce_be,
    fr_reduce_le, lemma_pow256_values, lemma_be_nat_injective};
use crate::groth16::{Groth16Verifyingkey, all_inputs_in_field};
use crate::hashing::{sha256_digest, sha256_hash};
use crate::merkle_tree::{MerkleTree, MerkleTreeAccount, TreeModel, known_root, model_append,
    model_init, model_of, tree_wf, history_view, subtrees_view};
use crate::utils::{check_public_amount, check_public_amount_spec, proof_public_inputs,
    verify_proof, verify_proof_outcome};

verus! {

broadcast use vstd::array::group_array_axioms;

/// A zero-knowledge proof together with its public inputs, as supplied per
/// call.  All 32-byte values are big-endian field elements; `proof_a` is
/// expected in its negated form (see `crate::groth16`).
#[derive(Clone, Copy)]
pub struct Proof {
    pub proof_a: [u8; 64],
    pub proof_b: [u8; 128],
    pub proof_c: [u8; 64],
    pub root: [u8; 32],
    pub public_amount: [u8; 32],
    pub ext_data_hash: [u8; 32],
    pub input_nullifiers: [[u8; 32]; 2],
    pub output_commitments: [[u8; 32]; 2],
}

/// The plaintext side of a transaction: where value goes, how much enters
/// or leaves the pool, the fee, and the ciphertexts of the two newly
/// created notes.  Hashed and compared against the proof's `ext_data_hash`
/// to bind these parameters to the proof.
#[derive(Clone)]
pub struct ExtData {
    pub recipient: [u8; 32],
    pub ext_amount: i64,
    pub encrypted_output1: Vec<u8>,
    pub encrypted_output2: Vec<u8>,
    pub fee: u64,
}

/// The 8-byte big-endian encoding of a 64-bit value.
pub open spec fn u64_be(n: nat) -> Seq<u8> {
    Seq::new(8, |i: int| (((n / pow256((7 - i) as nat)) % 256) as u8))
}

/// The 4-byte big-endian encoding of a 32-bit value.
pub open spec fn u32_be(n: nat) -> Seq<u8> {
    Seq::new(4, |i: int| (((n / pow256((3 - i) as nat)) % 256) as u8))
}

/// The two's-complement 64-bit reading of a signed value.
pub open spec fn i64_as_u64(x: int) -> nat {
    if x >= 0 {
        x as nat
    } else {
        (x + 0x1_0000_0000_0000_0000) as nat
    }
}

/// Appends the 8-byte big-endian encoding of `n`.
fn push_u64_be(v: &mut Vec<u8>, n: u64)
    ensures
        final(v)@ == old(v)@ + u64_be(n as nat),
{
    proof {
        lemma_pow256_values();
    }
    v.push(((n / 0x100_0000_0000_0000) % 256) as u8);
    v.push(((n / 0x1_0000_0000_0000) % 256) as u8);
    v.push(((n / 0x100_0000_0000) % 256) as u8);
    v.push(((n / 0x1_0000_0000) % 256) as u8);
    v.push(((n / 0x100_0000) % 256) as u8);
    v.push(((n / 0x1_0000) % 256) as u8);
    v.push(((n / 0x100) % 256) as u8);
    v.push((n % 256) as u8);
    proof {
        let m = n as nat;
        let k = old(v)@.len() as int;
        assert(v@.len() == k + 8);
        assert(u64_be(m).len() == 8);
        assert(v@[k] == (((m / pow256(7)) % 256) as u8));
        assert(u64_be(m)[0] == (((m / pow256(7)) % 256) as u8));
        assert(v@[k + 7] == ((m % 256) as u8));
        assert(u64_be(m)[7] == (((m / pow256(0)) % 256) as u8));
        assert(v@ =~= old(v)@ + u64_be(n as nat));
    }
}

/// Appends the 4-byte big-endian encoding of `n`.
fn push_u32_be(v: &mut Vec<u8>, n: u32)
    ensures
        final(v)@ == old(v)@ + u32_be(n as nat),
{
    proof {
        lemma_pow256_values();
    }
    v.push(((n / 0x100_0000) % 256) as u8);
    v.push(((n / 0x1_0000) % 256) as u8);
    v.push(((n / 0x100) % 256) as u8);
    v.push((n % 256) as u8);
    proof {
        let m = n as nat;
        let k = old(v)@.len() as int;
        assert(v@.len() == k + 4);
        assert(u32_be(m).len() == 4);
        assert(v@[k] == (((m / pow256(3)) % 256) as u8));
        assert(v@[k + 1] == (((m / pow256(2)) % 256) as u8));
        assert(v@[k + 2] == (((m / pow256(1)) % 256) as u8));
        assert(v@[k + 3] == (((m / pow256(0)) % 256) as u8));
        assert(v@ =~= old(v)@ + u32_be(n as nat));
    }
}

/// The canonical encoding of the plaintext transaction data that is hashed
/// into the proof's binding value: the recipient, the signed external
/// amount (two's complement), each ciphertext behind a 4-byte length, and
/// the fee — every multi-byte value big-endian.
pub open spec fn ext_data_encoding(d: ExtData) -> Seq<u8> {
    d.recipient@ + u64_be(i64_as_u64(d.ext_amount as int)) + u32_be(d.encrypted_output1@.len())
        + d.encrypted_output1@ + u32_be(d.encrypted_output2@.len()) + d.encrypted_output2@ + u64_be(
        d.fee as nat,
    )
}

/// Produces the canonical encoding of `ext_data`.
pub fn encode_ext_data(ext_data: &ExtData) -> (v: Vec<u8>)
    requires
        ext_data.encrypted_output1@.len() < 0x1_0000_0000,
        ext_data.encrypted_output2@.len() < 0x1_0000_0000,
    ensures
        v@ == ext_data_encoding(*ext_data),
{
    let mut v: Vec<u8> = Vec::new();
    bytes_append(&mut v, ext_data.recipient.as_slice());
    let amount_bits: u64 = if ext_data.ext_amount >= 0 {
        ext_data.ext_amount as u64
    } else {
        ((ext_data.ext_amount as i128) + 0x1_0000_0000_0000_0000i128) as u64
    };
    proof {
        assert(amount_bits as nat == i64_as_u64(ext_data.ext_amount as int));
    }
    push_u64_be(&mut v, amount_bits);
    push_u32_be(&mut v, ext_data.encrypted_output1.len() as u32);
    bytes_append(&mut v, ext_data.encrypted_output1.as_slice());
    push_u32_be(&mut v, ext_data.encrypted_output2.len() as u32);
    bytes_append(&mut v, ext_data.encrypted_output2.as_slice());
    push_u64_be(&mut v, ext_data.fee);
    proof {
        assert(v@ =~= ext_data_encoding(*ext_data));
    }
    v
}

/// The binding rule: the SHA-256 digest of the canonical encoding, read as
/// a little-endian field element, must equal the binding value the proof
/// carries, read as a big-endian field element.
pub open spec fn binding_matches(d: ExtData, carried: Seq<u8>) -> bool {
    le_nat(sha256_hash(ext_data_encoding(d))) % p_nat() == be_nat(carried) % p_nat()
}

/// Recomputes the binding hash of `ext_data` and compares it, reduced to a
/// field element, with the binding value carried by a proof.
pub fn ext_data_hash_matches(ext_data: &ExtData, carried: &[u8; 32]) -> (r: bool)
    requires
        ext_data.encrypted_output1@.len() < 0x1_0000_0000,
        ext_data.encrypted_output2@.len() < 0x1_0000_0000,
    ensures
        r == binding_matches(*ext_data, carried@),
{
    let encoded = encode_ext_data(ext_data);
    let digest = sha256_digest(encoded.as_slice());
    let computed = fr_reduce_le(&digest);
    let provided = fr_reduce_be(carried);
    let r = bytes32_eq(&computed, &provided);
    proof {
        if be_nat(computed@) == be_nat(provided@) {
            lemma_be_nat_injective(computed@, provided@);
        }
    }
    r
}

/// The append-only double-spend registry: a nullifier can be reserved once
/// and is never released.
pub struct NullifierSet {
    used: Vec<[u8; 32]>,
}

/// What reserving a nullifier does to the set of reserved values: a repeat
/// reservation fails and changes nothing; a fresh one adds the value.
pub open spec fn reserve_outcome(reserved: Set<Seq<u8>>, n: Seq<u8>) -> Result<
    Set<Seq<u8>>,
    ErrorCode,
> {
    if reserved.contains(n) {
        Err(ErrorCode::NullifierAlreadyUsed)
    } else {
        Ok(reserved.insert(n))
    }
}

/// Exactly-once spend: once a reservation has succeeded, reserving the same
/// nullifier again fails, whatever else the registry holds.
pub proof fn lemma_nullifier_exactly_once(reserved: Set<Seq<u8>>, n: Seq<u8>)
    requires
        reserve_outcome(reserved, n) is Ok,
    ensures
        reserve_outcome(reserve_outcome(reserved, n).unwrap(), n) == Err::<
            Set<Seq<u8>>,
            ErrorCode,
        >(ErrorCode::NullifierAlreadyUsed),
{
}

impl NullifierSet {
    /// The set of reserved nullifiers.
    pub closed spec fn reserved(self) -> Set<Seq<u8>> {
        Set::new(|n: Seq<u8>| exists|i: int| 0 <= i < self.used@.len() && self.used@[i]@ == n)
    }

    /// An empty registry.
    pub fn new() -> (s: NullifierSet)
        ensures
            s.reserved() == Set::<Seq<u8>>::empty(),
    {
        let s = NullifierSet { used: Vec::new() };
        proof {
            assert(s.reserved() =~= Set::<Seq<u8>>::empty());
        }
        s
    }

    /// Whether `n` has been reserved.
    pub fn contains(&self, n: &[u8; 32]) -> (r: bool)
        ensures
            r == self.reserved().contains(n@),
    {
        let mut i: usize = 0;
        while i < self.used.len()
            invariant
                i <= self.used@.len(),
                forall|j: int| 0 <= j < i ==> (#[trigger] self.used@[j]@) != n@,
            decreases self.used@.len() - i,
        {
            if bytes32_eq(&self.used[i], n) {
                return true;
            }
            i = i + 1;
        }
        false
    }

    /// Reserves `n`: fails without any change if `n` was ever reserved
    /// before, and never releases a reservation.
    pub fn reserve(&mut self, n: [u8; 32]) -> (r: Result<(), ErrorCode>)
        ensures
            match r {
                Ok(()) => reserve_outcome(old(self).reserved(), n@) == Ok::<
                    Set<Seq<u8>>,
                    ErrorCode,
                >(final(self).reserved()),
                Err(e) => {
                    &&& reserve_outcome(old(self).reserved(), n@) == Err::<
                        Set<Seq<u8>>,
                        ErrorCode,
                    >(e)
                    &&& final(self).reserved() == old(self).reserved()
                },
            },
    {
        if self.contains(&n) {
            return Err(ErrorCode::NullifierAlreadyUsed);
        }
        self.used.push(n);
        proof {
            assert(self.reserved() =~= old(self).reserved().insert(n@)) by {
                assert(forall|j: int|
                    0 <= j < old(self).used@.len() ==> self.used@[j] == old(self).used@[j]);
                assert(self.used@[old(self).used@.len() as int]@ == n@);
            }
        }
        Ok(())
    }
}

/// What a successful transaction leaves behind, at the model level.
#[verifier::ext_equal]
pub struct TransactOutcomeModel {
    pub tree: TreeModel,
    pub reserved: Set<Seq<u8>>,
    pub pool_balance: int,
    pub recipient_balance: int,
    pub fee_recipient_balance: int,
    pub index0: int,
    pub index1: int,
}

/// The whole transaction protocol, as a function from the prior state and
/// the call's inputs to either the posterior state or the exact error that
/// rejects the call — each check in protocol order: authority, root
/// freshness, data binding, amount conservation, proof verification, value
/// movement, tree insertion, nullifier reservation.
pub open spec fn transact_model(
    m: TreeModel,
    reserved: Set<Seq<u8>>,
    proof: Proof,
    ext: ExtData,
    vk: Groth16Verifyingkey,
    authority: Seq<u8>,
    tree_authority: Seq<u8>,
    token_authority: Seq<u8>,
    max_deposit: u64,
    pool: u64,
    recipient: u64,
    fee_recipient: u64,
) -> Result<TransactOutcomeModel, ErrorCode> {
    let e = ext.ext_amount as int;
    let n0 = proof.input_nullifiers@[0]@;
    let n1 = proof.input_nullifiers@[1]@;
    let out0 = proof.output_commitments@[0]@;
    let out1 = proof.output_commitments@[1]@;
    if authority != tree_authority || authority != token_authority {
        Err(ErrorCode::Unauthorized)
    } else if !known_root(m.hist, proof.root@) {
        Err(ErrorCode::UnknownRoot)
    } else if !binding_matches(ext, proof.ext_data_hash@) {
        Err(ErrorCode::ExtDataHashMismatch)
    } else if !check_public_amount_spec(e, ext.fee, proof.public_amount@) {
        Err(ErrorCode::InvalidPublicAmountData)
    } else if !verify_proof_outcome(proof, vk) {
        Err(ErrorCode::InvalidProof)
    } else if e > 0 && e > max_deposit {
        Err(ErrorCode::DepositLimitExceeded)
    } else if e > 0 && pool + e > u64::MAX {
        Err(ErrorCode::ArithmeticOverflow)
    } else if e < 0 && pool < -e {
        Err(ErrorCode::InsufficientFundsForWithdrawal)
    } else if e < 0 && recipient + (-e) > u64::MAX {
        Err(ErrorCode::ArithmeticOverflow)
    } else {
        let pool1 = if e > 0 {
            pool + e
        } else if e < 0 {
            pool - (-e)
        } else {
            pool as int
        };
        let recipient1 = if e < 0 {
            recipient + (-e)
        } else {
            recipient as int
        };
        if ext.fee > 0 && pool1 < ext.fee {
            Err(ErrorCode::InsufficientFundsForFee)
        } else if ext.fee > 0 && fee_recipient + ext.fee > u64::MAX {
            Err(ErrorCode::ArithmeticOverflow)
        } else {
            let pool2 = if ext.fee > 0 {
                pool1 - ext.fee
            } else {
                pool1
            };
            let fee_recipient1 = if ext.fee > 0 {
                fee_recipient + ext.fee
            } else {
                fee_recipient as int
            };
            if m.next + 2 > u64::MAX || m.root_idx == u64::MAX {
                Err(ErrorCode::ArithmeticOverflow)
            } else if reserved.contains(n0) || reserved.contains(n1) || n0 == n1 {
                Err(ErrorCode::NullifierAlreadyUsed)
            } else {
                Ok(
                    TransactOutcomeModel {
                        tree: model_append(model_append(m, out0), out1),
                        reserved: reserved.insert(n0).insert(n1),
                        pool_balance: pool2,
                        recipient_balance: recipient1,
                        fee_recipient_balance: fee_recipient1,
                        index0: m.next as int,
                        index1: m.next as int + 1,
                    },
                )
            }
        }
    }
}

/// The plain values a successful transaction hands back to its caller: the
/// balances after the value movement and the tree positions of the two new
/// commitments.
#[derive(Debug, Clone, Copy, PartialEq, Eq, Structural)]
pub struct TransactEffects {
    pub new_pool_balance: u64,
    pub new_recipient_balance: u64,
    pub new_fee_recipient_balance: u64,
    pub commitment_index0: u64,
    pub commitment_index1: u64,
}

/// Runs one full transition against the accumulator and the nullifier
/// registry, exactly as [`transact_model`] describes it: every check must
/// pass before anything is mutated, and a failed call leaves both
/// unchanged.
pub fn transact(
    tree_account: &mut MerkleTreeAccount,
    nullifier_set: &mut NullifierSet,
    proof: &Proof,
    ext_data: &ExtData,
    verifying_key: &Groth16Verifyingkey,
    authority: [u8; 32],
    token_authority: [u8; 32],
    pool_balance: u64,
    recipient_balance: u64,
    fee_recipient_balance: u64,
) -> (r: Result<TransactEffects, ErrorCode>)
    requires
        tree_wf(*old(tree_account)),
        ext_data.encrypted_output1@.len() < 0x1_0000_0000,
        ext_data.encrypted_output2@.len() < 0x1_0000_0000,
    ensures
        match r {
            Ok(eff) => {
                &&& transact_model(
                    model_of(*old(tree_account)),
                    old(nullifier_set).reserved(),
                    *proof,
                    *ext_data,
                    *verifying_key,
                    authority@,
                    old(tree_account).authority@,
                    token_authority@,
                    old(tree_account).max_deposit_amount,
                    pool_balance,
                    recipient_balance,
                    fee_recipient_balance,
                ) == Ok::<TransactOutcomeModel, ErrorCode>(
                    (TransactOutcomeModel {
                        tree: model_of(*final(tree_account)),
                        reserved: final(nullifier_set).reserved(),
                        pool_balance: eff.new_pool_balance as int,
                        recipient_balance: eff.new_recipient_balance as int,
                        fee_recipient_balance: eff.new_fee_recipient_balance as int,
                        index0: eff.commitment_index0 as int,
                        index1: eff.commitment_index1 as int,
                    }),
                )
                &&& tree_wf(*final(tree_account))
                &&& final(tree_account).authority == old(tree_account).authority
                &&& final(tree_account).max_deposit_amount == old(
                    tree_account,
                ).max_deposit_amount
            },
            Err(e) => {
                &&& transact_model(
                    model_of(*old(tree_account)),
                    old(nullifier_set).reserved(),
                    *proof,
                    *ext_data,
                    *verifying_key,
                    authority@,
                    old(tree_account).authority@,
                    token_authority@,
                    old(tree_account).max_deposit_amount,
                    pool_balance,
                    recipient_balance,
                    fee_recipient_balance,
                ) == Err::<TransactOutcomeModel, ErrorCode>(e)
                &&& *final(tree_account) == *old(tree_account)
                &&& final(nullifier_set).reserved() == old(nullifier_set).reserved()
            },
        },
{
    let authority_ok = bytes32_eq(&authority, &tree_account.authority) && bytes32_eq(
        &authority,
        &token_authority,
    );
    if !authority_ok {
        return Err(ErrorCode::Unauthorized);
    }
    if !MerkleTree::is_known_root(tree_account, proof.root) {
        return Err(ErrorCode::UnknownRoot);
    }
    if !ext_data_hash_matches(ext_data, &proof.ext_data_hash) {
        return Err(ErrorCode::ExtDataHashMismatch);
    }
    if !check_public_amount(ext_data.ext_amount, ext_data.fee, proof.public_amount) {
        return Err(ErrorCode::InvalidPublicAmountData);
    }
    if !verify_proof(*proof, *verifying_key) {
        return Err(ErrorCode::InvalidProof);
    }
    let ext_amount = ext_data.ext_amount;
    let fee = ext_data.fee;
    let mut pool = pool_balance;
    let mut recipient = recipient_balance;
    let mut fee_recipient = fee_recipient_balance;
    if ext_amount > 0 {
        let amount = ext_amount as u64;
        if amount > tree_account.max_deposit_amount {
            return Err(ErrorCode::DepositLimitExceeded);
        }
        pool = match pool.checked_add(amount) {
            Some(p) => p,
            None => {
                return Err(ErrorCode::ArithmeticOverflow);
            },
        };
    } else if ext_amount < 0 {
        // The amount-conservation check already rejected i64::MIN, whose
        // magnitude has no signed counterpart.
        proof {
            assert(ext_amount != i64::MIN);
        }
        let amount = (-(ext_amount as i128)) as u64;
        if pool < amount {
            return Err(ErrorCode::InsufficientFundsForWithdrawal);
        }
        pool = pool - amount;
        recipient = match recipient.checked_add(amount) {
            Some(b) => b,
            None => {
                return Err(ErrorCode::ArithmeticOverflow);
            },
        };
    }
    if fee > 0 {
        if pool < fee {
            return Err(ErrorCode::InsufficientFundsForFee);
        }
        pool = pool - fee;
        fee_recipient = match fee_recipient.checked_add(fee) {
            Some(b) => b,
            None => {
                return Err(ErrorCode::ArithmeticOverflow);
            },
        };
    }
    if tree_account.next_index > u64::MAX - 2 || tree_account.root_index == u64::MAX {
        return Err(ErrorCode::ArithmeticOverflow);
    }
    let n0 = proof.input_nullifiers[0];
    let n1 = proof.input_nullifiers[1];
    if nullifier_set.contains(&n0) || nullifier_set.contains(&n1) || bytes32_eq(&n0, &n1) {
        return Err(ErrorCode::NullifierAlreadyUsed);
    }
    let commitment_index0 = tree_account.next_index;
    let commitment_index1 = commitment_index0 + 1;
    // A verified proof range-checks every public input, so both output
    // commitments are canonical field elements and may enter the tree.
    proof {
        let inputs = proof_public_inputs(*proof);
        assert(all_inputs_in_field(inputs));
        assert(inputs[5] == proof.output_commitments@[0]@);
        assert(inputs[6] == proof.output_commitments@[1]@);
        assert(be_nat(proof.output_commitments@[0]@) < p_nat());
        assert(be_nat(proof.output_commitments@[1]@) < p_nat());
    }
    // The pre-flight checks above rule out every failure of the two
    // appends and the two reservations; the error arms are unreachable.
    match MerkleTree::append(proof.output_commitments[0], tree_account) {
        Ok(_) => {},
        Err(_) => {
            proof {
                assert(false);
            }
            return Err(ErrorCode::ArithmeticOverflow);
        },
    }
    match MerkleTree::append(proof.output_commitments[1], tree_account) {
        Ok(_) => {},
        Err(_) => {
            proof {
                assert(false);
            }
            return Err(ErrorCode::ArithmeticOverflow);
        },
    }
    match nullifier_set.reserve(n0) {
        Ok(_) => {},
        Err(_) => {
            proof {
                assert(false);
            }
            return Err(ErrorCode::NullifierAlreadyUsed);
        },
    }
    match nullifier_set.reserve(n1) {
        Ok(_) => {},
        Err(_) => {
            proof {
                assert(false);
            }
            return Err(ErrorCode::NullifierAlreadyUsed);
        },
    }
    Ok(
        TransactEffects {
            new_pool_balance: pool,
            new_recipient_balance: recipient,
            new_fee_recipient_balance: fee_recipient,
            commitment_index0,
            commitment_index1,
        },
    )
}

/// Seeds a fresh pool: records its authority, zeroes the counters and the
/// root history, sets the default deposit limit, and initializes the empty
/// accumulator.
pub fn initialize(tree_account: &mut MerkleTreeAccount, authority: [u8; 32])
    ensures
        model_of(*final(tree_account)) == model_init(),
        final(tree_account).authority == authority,
        final(tree_account).max_deposit_amount == 1_000_000_000,
        tree_wf(*final(tree_account)),
{
    tree_account.authority = authority;
    tree_account.next_index = 0;
    tree_account.root_index = 0;
    tree_account.max_deposit_amount = 1_000_000_000;
    let mut i: usize = 0;
    while i < crate::merkle_tree::ROOT_HISTORY_SIZE
        invariant
            i <= crate::merkle_tree::ROOT_HISTORY_SIZE,
            forall|j: int|
                0 <= j < i ==> (#[trigger] tree_account.root_history@[j]@)
                    == crate::merkle_tree::zero_bytes32(),
            tree_account.next_index == 0,
            tree_account.root_index == 0,
            tree_account.authority == authority,
            tree_account.max_deposit_amount == 1_000_000_000,
            tree_account.subtrees == old(tree_account).subtrees,
        decreases crate::merkle_tree::ROOT_HISTORY_SIZE - i,
    {
        let z: [u8; 32] = [0u8; 32];
        let ghost pre = tree_account.root_history@;
        tree_account.root_history[i] = z;
        proof {
            assert(tree_account.root_history@ == pre.update(i as int, z));
            assert(z@ =~= crate::merkle_tree::zero_bytes32());
        }
        i = i + 1;
    }
    MerkleTree::initialize(tree_account);
    proof {
        assert(model_of(*tree_account) =~~= model_init()) by {
            assert(subtrees_view(*tree_account) == model_init().subtrees);
            assert(history_view(*tree_account) =~~= model_init().hist);
        }
    }
}

/// Updates the deposit limit, which only the pool's authority may do.
pub fn update_deposit_limit(
    tree_account: &mut MerkleTreeAccount,
    authority: [u8; 32],
    new_limit: u64,
) -> (r: Result<(), ErrorCode>)
    ensures
        match r {
            Ok(()) => {
                &&& authority@ == old(tree_account).authority@
                &&& *final(tree_account) == (MerkleTreeAccount {
                    max_deposit_amount: new_limit,
                    ..*old(tree_account)
                })
            },
            Err(e) => {
                &&& e == ErrorCode::Unauthorized
                &&& authority@ != old(tree_account).authority@
                &&& *final(tree_account) == *old(tree_account)
            },
        },
{
    if !bytes32_eq(&authority, &tree_account.authority) {
        return Err(ErrorCode::Unauthorized);
    }
    tree_account.max_deposit_amount = new_limit;
    Ok(())
}

} // verus!
