//! The append-only incremental Merkle accumulator with a bounded history of
//! recent roots.
//!
//! The accumulator caches one node per level (the right frontier of the
//! tree); appending a leaf rehashes one path from the leaf to the root and
//! records the new root in a circular buffer of the last
//! [`ROOT_HISTORY_SIZE`] roots, against which proofs may later be checked.

use vstd::prelude::*;
use vstd::arithmetic::power2::pow2;
use crate::errors::ErrorCode;
use crate::field::{be_nat, p_nat, bytes32_eq};
use crate::hashing::{poseidon_hash_pair, poseidon_zero_hash, poseidon_pair_hash,
    zero_subtree_hash};

verus! {

broadcast use vstd::array::group_array_axioms;

/// How many recent roots the accumulator remembers.
pub const ROOT_HISTORY_SIZE: usize = 100;

/// The height of the accumulator's tree.
pub const DEFAULT_HEIGHT: usize = 26;

/// The persisted state of the accumulator.
///
/// `subtrees[i]` caches the root of the last left sibling seen at level `i`;
/// `root_history` is a circular buffer of recent roots with write cursor
/// `root_index`, and `next_index` counts the leaves inserted so far.
pub struct MerkleTreeAccount {
    pub authority: [u8; 32],
    pub next_index: u64,
    pub subtrees: [[u8; 32]; DEFAULT_HEIGHT],
    pub root: [u8; 32],
    pub root_history: [[u8; 32]; ROOT_HISTORY_SIZE],
    pub root_index: u64,
    pub max_deposit_amount: u64,
}

/// The cached frontier of the account, as a sequence of byte strings.
pub open spec fn subtrees_view(t: MerkleTreeAccount) -> Seq<Seq<u8>> {
    Seq::new(DEFAULT_HEIGHT as nat, |i: int| t.subtrees@[i]@)
}

/// The root ring buffer of the account, as a sequence of byte strings.
pub open spec fn history_view(t: MerkleTreeAccount) -> Seq<Seq<u8>> {
    Seq::new(ROOT_HISTORY_SIZE as nat, |i: int| t.root_history@[i]@)
}

/// The 32-byte all-zero string: the placeholder value of an unused history
/// slot, never a valid root.
pub open spec fn zero_bytes32() -> Seq<u8> {
    Seq::new(32, |i: int| 0u8)
}

/// Every cached frontier node is a canonical field element.
pub open spec fn subtrees_canonical(st: Seq<Seq<u8>>) -> bool {
    forall|i: int| 0 <= i < st.len() ==> be_nat(#[trigger] st[i]) < p_nat()
}

/// The account is fit for appending: its cached frontier consists of
/// canonical field elements, as `initialize` establishes and `append`
/// preserves.
pub open spec fn tree_wf(t: MerkleTreeAccount) -> bool {
    subtrees_canonical(subtrees_view(t))
}

/// The node carried from the leaf up to level `i` when a leaf is appended at
/// position `idx` with cached frontier `st`: at each level the node is
/// hashed with the empty-subtree constant (even position) or with the cached
/// left sibling (odd position).
pub open spec fn merkle_node(st: Seq<Seq<u8>>, idx: nat, leaf: Seq<u8>, i: int) -> Seq<u8>
    decreases i,
{
    if i <= 0 {
        leaf
    } else {
        let below = merkle_node(st, idx, leaf, i - 1);
        if (idx / pow2((i - 1) as nat)) % 2 == 0 {
            poseidon_pair_hash(below, zero_subtree_hash(i - 1))
        } else {
            poseidon_pair_hash(st[i - 1], below)
        }
    }
}

/// The cached frontier after appending at position `idx`: levels at which
/// the appended path was a left child now cache that path's node.
pub open spec fn appended_subtrees(st: Seq<Seq<u8>>, idx: nat, leaf: Seq<u8>) -> Seq<Seq<u8>> {
    Seq::new(
        st.len(),
        |i: int|
            if (idx / pow2(i as nat)) % 2 == 0 {
                merkle_node(st, idx, leaf, i)
            } else {
                st[i]
            },
    )
}

/// The per-level siblings of the appended path, returned as an inclusion
/// proof.
pub open spec fn sibling_path(st: Seq<Seq<u8>>, idx: nat) -> Seq<Seq<u8>> {
    Seq::new(
        st.len(),
        |i: int|
            if (idx / pow2(i as nat)) % 2 == 0 {
                zero_subtree_hash(i)
            } else {
                st[i]
            },
    )
}

/// The mathematical state of an accumulator.
#[verifier::ext_equal]
pub struct TreeModel {
    pub subtrees: Seq<Seq<u8>>,
    pub next: nat,
    pub root: Seq<u8>,
    pub hist: Seq<Seq<u8>>,
    pub root_idx: nat,
}

/// The mathematical state that an account holds.
pub open spec fn model_of(t: MerkleTreeAccount) -> TreeModel {
    TreeModel {
        subtrees: subtrees_view(t),
        next: t.next_index as nat,
        root: t.root@,
        hist: history_view(t),
        root_idx: t.root_index as nat,
    }
}

/// The state of a freshly initialized accumulator of height `h`: the
/// frontier caches the empty-subtree constants, the root is the empty root,
/// and history slot 0 holds it.
pub open spec fn model_init_h(h: int) -> TreeModel {
    TreeModel {
        subtrees: Seq::new(h as nat, |i: int| zero_subtree_hash(i)),
        next: 0,
        root: zero_subtree_hash(h),
        hist: Seq::new(
            ROOT_HISTORY_SIZE as nat,
            |i: int|
                if i == 0 {
                    zero_subtree_hash(h)
                } else {
                    zero_bytes32()
                },
        ),
        root_idx: 0,
    }
}

/// The state of a freshly initialized accumulator of the default height.
pub open spec fn model_init() -> TreeModel {
    model_init_h(DEFAULT_HEIGHT as int)
}

/// One append, at the model level: rehash the path, advance the leaf count,
/// advance the write cursor modulo the buffer size, and record the new root
/// there.
pub open spec fn model_append(m: TreeModel, leaf: Seq<u8>) -> TreeModel {
    let r = merkle_node(m.subtrees, m.next, leaf, m.subtrees.len() as int);
    TreeModel {
        subtrees: appended_subtrees(m.subtrees, m.next, leaf),
        next: m.next + 1,
        root: r,
        hist: m.hist.update(((m.root_idx + 1) % (ROOT_HISTORY_SIZE as nat)) as int, r),
        root_idx: (m.root_idx + 1) % (ROOT_HISTORY_SIZE as nat),
    }
}

/// The state reached by initializing an accumulator and appending `leaves`
/// in order.
pub open spec fn model_replay(leaves: Seq<Seq<u8>>) -> TreeModel
    decreases leaves.len(),
{
    if leaves.len() == 0 {
        model_init()
    } else {
        model_append(model_replay(leaves.drop_last()), leaves.last())
    }
}

/// Whether `cand` may be accepted as a recent root given ring buffer
/// `hist`: the all-zero placeholder never may; any other value must stand
/// somewhere in the buffer.
pub open spec fn known_root(hist: Seq<Seq<u8>>, cand: Seq<u8>) -> bool {
    cand != zero_bytes32() && exists|i: int| 0 <= i < hist.len() && hist[i] == cand
}

/// Determinism: the state after an append is a function of the state before
/// it and the appended leaf alone.  Since `MerkleTree::append` ensures that
/// each successful call takes the account from `model_of` state `m` to
/// `model_append(m, leaf)`, two independently initialized accumulators fed
/// the same leaves in the same order hold the same state throughout — in
/// particular the same `root` and the same `subtrees`.
pub proof fn lemma_append_deterministic(m1: TreeModel, m2: TreeModel, leaf: Seq<u8>)
    requires
        m1.subtrees == m2.subtrees,
        m1.next == m2.next,
        m1.root == m2.root,
        m1.hist == m2.hist,
        m1.root_idx == m2.root_idx,
    ensures
        model_append(m1, leaf) == model_append(m2, leaf),
{
    assert(m1 =~~= m2);
}

/// Replaying one more leaf is one more append.
pub proof fn lemma_replay_push(leaves: Seq<Seq<u8>>, leaf: Seq<u8>)
    ensures
        model_replay(leaves.push(leaf)) == model_append(model_replay(leaves), leaf),
{
    assert(leaves.push(leaf).drop_last() =~= leaves);
    assert(leaves.push(leaf).last() == leaf);
}

/// Which value history slot `i` holds after replaying `leaves`: the root
/// recorded by the last append whose ordinal landed on that slot — the
/// empty root for slot 0 of a fresh accumulator, the all-zero placeholder
/// for a slot never written.
pub open spec fn slot_value(leaves: Seq<Seq<u8>>, i: int) -> Seq<u8>
    decreases leaves.len(),
{
    if leaves.len() == 0 {
        if i == 0 {
            zero_subtree_hash(DEFAULT_HEIGHT as int)
        } else {
            zero_bytes32()
        }
    } else if leaves.len() as int % (ROOT_HISTORY_SIZE as int) == i {
        model_replay(leaves).root
    } else {
        slot_value(leaves.drop_last(), i)
    }
}

/// After replaying `leaves`, the write cursor stands at `len % 100` and
/// each history slot holds the root of the last append that landed on it.
pub proof fn lemma_hist_slots(leaves: Seq<Seq<u8>>)
    ensures
        model_replay(leaves).root_idx == leaves.len() % (ROOT_HISTORY_SIZE as nat),
        model_replay(leaves).hist.len() == ROOT_HISTORY_SIZE,
        forall|i: int|
            0 <= i < ROOT_HISTORY_SIZE ==> model_replay(leaves).hist[i] == slot_value(leaves, i),
    decreases leaves.len(),
{
    if leaves.len() == 0 {
        assert(forall|i: int|
            0 <= i < ROOT_HISTORY_SIZE ==> model_init().hist[i] == slot_value(leaves, i));
    } else {
        lemma_hist_slots(leaves.drop_last());
        let prev = model_replay(leaves.drop_last());
        let n = leaves.len() as int;
        assert(prev.root_idx == (n - 1) % 100);
        assert((((n - 1) % 100) + 1) % 100 == n % 100) by {
            vstd::arithmetic::div_mod::lemma_fundamental_div_mod(n - 1, 100);
            vstd::arithmetic::div_mod::lemma_mod_multiples_vanish((n - 1) / 100, n % 100, 100);
            vstd::arithmetic::div_mod::lemma_fundamental_div_mod(n, 100);
        }
        let m = model_replay(leaves);
        let newidx = ((prev.root_idx + 1) % (ROOT_HISTORY_SIZE as nat)) as int;
        assert(newidx == n % 100);
        assert(m.hist == prev.hist.update(newidx, m.root));
        assert forall|i: int| 0 <= i < ROOT_HISTORY_SIZE implies m.hist[i] == slot_value(
            leaves,
            i,
        ) by {
            if i == newidx {
                assert(m.hist[i] == m.root);
            } else {
                assert(m.hist[i] == prev.hist[i]);
                assert(prev.hist[i] == slot_value(leaves.drop_last(), i));
            }
        }
    }
}

/// Root-history completeness: after `k ≤ 99` appends, every historical root
/// — the root after each prefix of the appends, the pre-append empty root
/// included — that is not the all-zero placeholder is recognized by the
/// root-history check.  (After 100 appends the write cursor has wrapped and
/// the initial empty root is overwritten, so the bound is one less than the
/// buffer size.)
pub proof fn lemma_root_history_complete(leaves: Seq<Seq<u8>>, j: int)
    requires
        leaves.len() < ROOT_HISTORY_SIZE,
        0 <= j <= leaves.len(),
        model_replay(leaves.take(j)).root != zero_bytes32(),
    ensures
        known_root(model_replay(leaves).hist, model_replay(leaves.take(j)).root),
{
    lemma_hist_slots(leaves);
    lemma_slot_of_prefix(leaves, j);
}

/// While the history has not wrapped, slot `j` holds the root reached after
/// the first `j` appends.
pub proof fn lemma_slot_of_prefix(leaves: Seq<Seq<u8>>, j: int)
    requires
        0 <= j <= leaves.len(),
        leaves.len() < ROOT_HISTORY_SIZE,
    ensures
        slot_value(leaves, j) == model_replay(leaves.take(j)).root,
    decreases leaves.len(),
{
    if leaves.len() == 0 {
        assert(leaves.take(0) =~= leaves);
    } else if leaves.len() == j {
        assert(leaves.take(j) =~= leaves);
    } else {
        lemma_slot_of_prefix(leaves.drop_last(), j);
        assert(leaves.drop_last().take(j) =~= leaves.take(j));
    }
}

/// The all-zero placeholder is never recognized as a root, whatever the
/// history holds.
pub proof fn lemma_zero_root_never_known(hist: Seq<Seq<u8>>)
    ensures
        !known_root(hist, zero_bytes32()),
{
}

/// Circular overwrite: after exactly 101 appends the write cursor stands at
/// slot 1, slot 0 holds the root produced by the 100th append, and slot 1
/// the root produced by the 101st.
pub proof fn lemma_circular_overwrite(leaves: Seq<Seq<u8>>)
    requires
        leaves.len() == 101,
    ensures
        model_replay(leaves).root_idx == 1,
        model_replay(leaves).hist[0] == model_replay(leaves.take(100)).root,
        model_replay(leaves).hist[1] == model_replay(leaves).root,
{
    lemma_hist_slots(leaves);
    assert(model_replay(leaves).hist[1] == slot_value(leaves, 1));
    assert(model_replay(leaves).hist[0] == slot_value(leaves, 0));
    assert(leaves.drop_last() =~= leaves.take(100));
    assert(slot_value(leaves, 0) == slot_value(leaves.take(100), 0));
    assert(leaves.take(100).len() % 100 == 0);
    assert(slot_value(leaves.take(100), 0) == model_replay(leaves.take(100)).root);
}

impl MerkleTreeAccount {
    /// An account with every field zeroed, as the runtime hands it to
    /// `MerkleTree::initialize`.
    pub fn new() -> (t: MerkleTreeAccount)
        ensures
            t.authority@ == zero_bytes32(),
            t.next_index == 0,
            t.root_index == 0,
            t.max_deposit_amount == 0,
            t.root@ == zero_bytes32(),
            subtrees_view(t) == Seq::new(DEFAULT_HEIGHT as nat, |i: int| zero_bytes32()),
            history_view(t) == Seq::new(ROOT_HISTORY_SIZE as nat, |i: int| zero_bytes32()),
    {
        let t = MerkleTreeAccount {
            authority: [0u8; 32],
            next_index: 0,
            subtrees: [[0u8; 32]; DEFAULT_HEIGHT],
            root: [0u8; 32],
            root_history: [[0u8; 32]; ROOT_HISTORY_SIZE],
            root_index: 0,
            max_deposit_amount: 0,
        };
        proof {
            assert(t.authority@ =~= zero_bytes32());
            assert(t.root@ =~= zero_bytes32());
            assert(subtrees_view(t) =~~= Seq::new(DEFAULT_HEIGHT as nat, |i: int| zero_bytes32()));
            assert(history_view(t) =~~= Seq::new(ROOT_HISTORY_SIZE as nat, |i: int| zero_bytes32()));
        }
        t
    }
}

/// The accumulator's operations.
pub struct MerkleTree;

impl MerkleTree {
    /// Seeds an account with the empty tree: the frontier caches the
    /// empty-subtree constants, the root becomes the empty root, and history
    /// slot 0 records it.  Leaf count and write cursor are left as the
    /// caller set them.
    pub fn initialize(tree_account: &mut MerkleTreeAccount)
        ensures
            subtrees_view(*final(tree_account)) == model_init().subtrees,
            final(tree_account).root@ == model_init().root,
            history_view(*final(tree_account)) == history_view(*old(tree_account)).update(
                0,
                model_init().root,
            ),
            final(tree_account).next_index == old(tree_account).next_index,
            final(tree_account).root_index == old(tree_account).root_index,
            final(tree_account).authority == old(tree_account).authority,
            final(tree_account).max_deposit_amount == old(tree_account).max_deposit_amount,
            tree_wf(*final(tree_account)),
    {
        let mut i: usize = 0;
        while i < DEFAULT_HEIGHT
            invariant
                i <= DEFAULT_HEIGHT,
                forall|j: int|
                    0 <= j < i ==> (#[trigger] tree_account.subtrees@[j]@) == zero_subtree_hash(j)
                        && be_nat(tree_account.subtrees@[j]@) < p_nat(),
                tree_account.root == old(tree_account).root,
                tree_account.root_history == old(tree_account).root_history,
                tree_account.next_index == old(tree_account).next_index,
                tree_account.root_index == old(tree_account).root_index,
                tree_account.authority == old(tree_account).authority,
                tree_account.max_deposit_amount == old(tree_account).max_deposit_amount,
            decreases DEFAULT_HEIGHT - i,
        {
            let z = poseidon_zero_hash(i);
            let ghost pre = tree_account.subtrees@;
            tree_account.subtrees[i] = z;
            proof {
                assert(tree_account.subtrees@ == pre.update(i as int, z));
            }
            i = i + 1;
        }
        let initial_root = poseidon_zero_hash(DEFAULT_HEIGHT);
        tree_account.root = initial_root;
        let ghost prehist = tree_account.root_history@;
        tree_account.root_history[0] = initial_root;
        proof {
            assert(tree_account.root_history@ == prehist.update(0, initial_root));
            assert(subtrees_view(*tree_account) =~~= model_init().subtrees);
            assert(history_view(*tree_account) =~~= history_view(*old(tree_account)).update(
                0,
                model_init().root,
            ));
        }
    }

    /// Appends `leaf` as the next tree leaf.
    ///
    /// Rehashes the path from the new leaf to the root, caches the path's
    /// nodes where it was a left child, increments the leaf count, advances
    /// the history cursor modulo the buffer size and records the new root
    /// there; the per-level siblings come back as an inclusion proof.  If
    /// the leaf count or the cursor would wrap, nothing changes and the
    /// append fails with `ArithmeticOverflow`.
    pub fn append(leaf: [u8; 32], tree_account: &mut MerkleTreeAccount) -> (res: Result<
        [[u8; 32]; DEFAULT_HEIGHT],
        ErrorCode,
    >)
        requires
            tree_wf(*old(tree_account)),
            be_nat(leaf@) < p_nat(),
        ensures
            match res {
                Ok(path) => {
                    &&& old(tree_account).next_index < u64::MAX
                    &&& old(tree_account).root_index < u64::MAX
                    &&& model_of(*final(tree_account)) == model_append(
                        model_of(*old(tree_account)),
                        leaf@,
                    )
                    &&& (Seq::new(DEFAULT_HEIGHT as nat, |i: int| path@[i]@) == sibling_path(
                        subtrees_view(*old(tree_account)),
                        old(tree_account).next_index as nat,
                    ))
                    &&& final(tree_account).authority == old(tree_account).authority
                    &&& final(tree_account).max_deposit_amount == old(
                        tree_account,
                    ).max_deposit_amount
                    &&& tree_wf(*final(tree_account))
                },
                Err(e) => {
                    &&& e == ErrorCode::ArithmeticOverflow
                    &&& (old(tree_account).next_index == u64::MAX || old(
                        tree_account,
                    ).root_index == u64::MAX)
                    &&& *final(tree_account) == *old(tree_account)
                },
            },
    {
        if tree_account.next_index == u64::MAX || tree_account.root_index == u64::MAX {
            return Err(ErrorCode::ArithmeticOverflow);
        }
        let ghost st0 = subtrees_view(*old(tree_account));
        let ghost idx0 = old(tree_account).next_index as nat;
        let mut current_index: u64 = tree_account.next_index;
        let mut current_level_hash: [u8; 32] = leaf;
        let mut path: [[u8; 32]; DEFAULT_HEIGHT] = [[0u8; 32]; DEFAULT_HEIGHT];
        proof {
            vstd::arithmetic::power2::lemma2_to64();
            assert(idx0 / pow2(0) == idx0);
            assert forall|j: int| 0 <= j < DEFAULT_HEIGHT implies be_nat(
                #[trigger] tree_account.subtrees@[j]@,
            ) < p_nat() && tree_account.subtrees@[j]@ == st0[j] by {
                assert(subtrees_view(*tree_account)[j] == tree_account.subtrees@[j]@);
            }
        }
        let mut i: usize = 0;
        while i < DEFAULT_HEIGHT
            invariant
                i <= DEFAULT_HEIGHT,
                be_nat(leaf@) < p_nat(),
                st0 == subtrees_view(*old(tree_account)),
                subtrees_canonical(st0),
                st0.len() == DEFAULT_HEIGHT,
                idx0 == old(tree_account).next_index as nat,
                current_index as nat == idx0 / pow2(i as nat),
                current_level_hash@ == merkle_node(st0, idx0, leaf@, i as int),
                be_nat(current_level_hash@) < p_nat(),
                forall|j: int|
                    i <= j < DEFAULT_HEIGHT ==> (#[trigger] tree_account.subtrees@[j]@) == st0[j],
                forall|j: int|
                    0 <= j < i ==> (#[trigger] tree_account.subtrees@[j]@) == appended_subtrees(
                        st0,
                        idx0,
                        leaf@,
                    )[j],
                forall|j: int|
                    0 <= j < DEFAULT_HEIGHT ==> be_nat(#[trigger] tree_account.subtrees@[j]@)
                        < p_nat(),
                forall|j: int|
                    0 <= j < i ==> (#[trigger] path@[j]@) == sibling_path(st0, idx0)[j],
                tree_account.root == old(tree_account).root,
                tree_account.root_history == old(tree_account).root_history,
                tree_account.next_index == old(tree_account).next_index,
                tree_account.root_index == old(tree_account).root_index,
                tree_account.authority == old(tree_account).authority,
                tree_account.max_deposit_amount == old(tree_account).max_deposit_amount,
            decreases DEFAULT_HEIGHT - i,
        {
            proof {
                vstd::arithmetic::power2::lemma2_to64();
                vstd::arithmetic::div_mod::lemma_div_denominator(
                    idx0 as int,
                    pow2(i as nat) as int,
                    2,
                );
                vstd::arithmetic::power2::lemma_pow2_adds(i as nat, 1);
                vstd::arithmetic::power2::lemma_pow2_pos(i as nat);
                assert(pow2((i + 1) as nat) == pow2(i as nat) * 2);
            }
            let ghost pre = tree_account.subtrees@;
            let ghost prepath = path@;
            if current_index % 2 == 0 {
                let z = poseidon_zero_hash(i);
                let left = current_level_hash;
                tree_account.subtrees[i] = current_level_hash;
                path[i] = z;
                let h = poseidon_hash_pair(&left, &z);
                proof {
                    assert(tree_account.subtrees@ == pre.update(i as int, current_level_hash));
                    assert(path@ == prepath.update(i as int, z));
                    assert(h@ == merkle_node(st0, idx0, leaf@, i + 1));
                }
                current_level_hash = h;
            } else {
                let left: [u8; 32] = tree_account.subtrees[i];
                let right = current_level_hash;
                path[i] = left;
                let h = poseidon_hash_pair(&left, &right);
                proof {
                    assert(path@ == prepath.update(i as int, left));
                    assert(left@ == st0[i as int]);
                    assert(h@ == merkle_node(st0, idx0, leaf@, i + 1));
                }
                current_level_hash = h;
            }
            current_index = current_index / 2;
            i = i + 1;
        }
        tree_account.root = current_level_hash;
        tree_account.next_index = tree_account.next_index + 1;
        let new_root_index: u64 = (tree_account.root_index + 1) % (ROOT_HISTORY_SIZE as u64);
        tree_account.root_index = new_root_index;
        let ghost prehist = tree_account.root_history@;
        tree_account.root_history[new_root_index as usize] = current_level_hash;
        proof {
            assert(tree_account.root_history@ == prehist.update(
                new_root_index as int,
                current_level_hash,
            ));
            let m0 = model_of(*old(tree_account));
            let m1 = model_append(m0, leaf@);
            assert(subtrees_view(*tree_account) =~~= m1.subtrees);
            assert(history_view(*tree_account) =~~= m1.hist);
            assert(model_of(*tree_account) == m1) by {
                assert(model_of(*tree_account).subtrees == m1.subtrees);
                assert(model_of(*tree_account).hist == m1.hist);
            }
            assert(Seq::new(DEFAULT_HEIGHT as nat, |k: int| path@[k]@) =~~= sibling_path(
                st0,
                idx0,
            ));
        }
        Ok(path)
    }

    /// Checks whether `root` may be accepted as a recent root: the all-zero
    /// placeholder is always rejected; any other value is accepted exactly
    /// when it stands somewhere in the root history buffer.
    pub fn is_known_root(tree_account: &MerkleTreeAccount, root: [u8; 32]) -> (r: bool)
        ensures
            r == known_root(history_view(*tree_account), root@),
    {
        let zero = [0u8; 32];
        if bytes32_eq(&root, &zero) {
            proof {
                assert(zero@ =~= zero_bytes32());
            }
            return false;
        }
        proof {
            assert(zero@ =~= zero_bytes32());
        }
        let mut i: usize = 0;
        while i < ROOT_HISTORY_SIZE
            invariant
                i <= ROOT_HISTORY_SIZE,
                forall|j: int| 0 <= j < i ==> #[trigger] history_view(*tree_account)[j] != root@,
                root@ != zero_bytes32(),
            decreases ROOT_HISTORY_SIZE - i,
        {
            if bytes32_eq(&tree_account.root_history[i], &root) {
                proof {
                    assert(history_view(*tree_account)[i as int] == root@);
                }
                return true;
            }
            i = i + 1;
        }
        false
    }
}

} // verus!
