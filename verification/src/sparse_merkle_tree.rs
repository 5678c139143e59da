//! A height-generic incremental Merkle accumulator with bounded root
//! history, behaviourally the same as [`crate::merkle_tree::MerkleTree`] but
//! owning its state behind getters.

use vstd::prelude::*;
use vstd::arithmetic::power2::pow2;
use crate::field::{be_nat, p_nat};
use crate::hashing::{poseidon_hash_pair, poseidon_zero_hash, zero_subtree_hash};
use crate::merkle_tree::{ROOT_HISTORY_SIZE, TreeModel, merkle_node, appended_subtrees,
    sibling_path, subtrees_canonical, model_init_h, model_append};

verus! {

broadcast use vstd::array::group_array_axioms;

/// An incremental Merkle accumulator of height `HEIGHT` with a circular
/// buffer of the last [`ROOT_HISTORY_SIZE`] roots.
pub struct SparseMerkleTreeWithHistory<const HEIGHT: usize> {
    subtrees: [[u8; 32]; HEIGHT],
    next_index_to_insert: usize,
    root: [u8; 32],
    root_history: [[u8; 32]; ROOT_HISTORY_SIZE],
    current_root_index: usize,
}

impl<const HEIGHT: usize> SparseMerkleTreeWithHistory<HEIGHT> {
    /// The mathematical state this tree holds.
    pub closed spec fn view_model(self) -> TreeModel {
        TreeModel {
            subtrees: Seq::new(HEIGHT as nat, |i: int| self.subtrees@[i]@),
            next: self.next_index_to_insert as nat,
            root: self.root@,
            hist: Seq::new(ROOT_HISTORY_SIZE as nat, |i: int| self.root_history@[i]@),
            root_idx: self.current_root_index as nat,
        }
    }

    /// The tree is fit for appending: its frontier holds canonical field
    /// elements and its write cursor stays inside the buffer.
    pub closed spec fn wf(self) -> bool {
        &&& subtrees_canonical(self.view_model().subtrees)
        &&& self.current_root_index < ROOT_HISTORY_SIZE
        &&& HEIGHT <= 40
    }

    /// A fresh, empty tree: the frontier caches the empty-subtree
    /// constants, the root is the empty root, and history slot 0 records
    /// it.
    pub fn new_empty() -> (t: Self)
        requires
            HEIGHT <= 40,
        ensures
            t.view_model() == model_init_h(HEIGHT as int),
            t.wf(),
    {
        let initial_root = poseidon_zero_hash(HEIGHT);
        let mut t = SparseMerkleTreeWithHistory {
            subtrees: [[0u8; 32]; HEIGHT],
            next_index_to_insert: 0,
            root: initial_root,
            root_history: [[0u8; 32]; ROOT_HISTORY_SIZE],
            current_root_index: 0,
        };
        let ghost prehist = t.root_history@;
        t.root_history[0] = initial_root;
        proof {
            assert(t.root_history@ == prehist.update(0, initial_root));
        }
        let mut i: usize = 0;
        while i < HEIGHT
            invariant
                i <= HEIGHT,
                HEIGHT <= 40,
                forall|j: int|
                    0 <= j < i ==> (#[trigger] t.subtrees@[j]@) == zero_subtree_hash(j) && be_nat(
                        t.subtrees@[j]@,
                    ) < p_nat(),
                t.root == initial_root,
                t.root_history@ == prehist.update(0, initial_root),
                t.next_index_to_insert == 0,
                t.current_root_index == 0,
            decreases HEIGHT - i,
        {
            let z = poseidon_zero_hash(i);
            let ghost pre = t.subtrees@;
            t.subtrees[i] = z;
            proof {
                assert(t.subtrees@ == pre.update(i as int, z));
            }
            i = i + 1;
        }
        proof {
            assert(t.view_model().subtrees =~~= model_init_h(HEIGHT as int).subtrees);
            assert(t.view_model().hist =~~= model_init_h(HEIGHT as int).hist);
            assert(t.view_model() == model_init_h(HEIGHT as int));
        }
        t
    }

    /// Appends `leaf` as the next tree leaf, returning the per-level
    /// siblings of the rehashed path as an inclusion proof.
    pub fn append(&mut self, leaf: [u8; 32]) -> (path: [[u8; 32]; HEIGHT])
        requires
            old(self).wf(),
            old(self).view_model().next < usize::MAX,
            be_nat(leaf@) < p_nat(),
        ensures
            final(self).view_model() == model_append(old(self).view_model(), leaf@),
            (Seq::new(HEIGHT as nat, |i: int| path@[i]@) == sibling_path(
                old(self).view_model().subtrees,
                old(self).view_model().next,
            )),
            final(self).wf(),
    {
        let ghost st0 = old(self).view_model().subtrees;
        let ghost idx0 = old(self).view_model().next;
        let mut current_index: usize = self.next_index_to_insert;
        let mut current_level_hash: [u8; 32] = leaf;
        let mut path: [[u8; 32]; HEIGHT] = [[0u8; 32]; HEIGHT];
        proof {
            vstd::arithmetic::power2::lemma2_to64();
            assert(idx0 / pow2(0) == idx0);
            assert forall|j: int| 0 <= j < HEIGHT implies be_nat(#[trigger] self.subtrees@[j]@)
                < p_nat() && self.subtrees@[j]@ == st0[j] by {
                assert(old(self).view_model().subtrees[j] == self.subtrees@[j]@);
            }
        }
        let mut i: usize = 0;
        while i < HEIGHT
            invariant
                i <= HEIGHT,
                HEIGHT <= 40,
                be_nat(leaf@) < p_nat(),
                st0 == old(self).view_model().subtrees,
                subtrees_canonical(st0),
                st0.len() == HEIGHT,
                idx0 == old(self).next_index_to_insert as nat,
                current_index as nat == idx0 / pow2(i as nat),
                current_level_hash@ == merkle_node(st0, idx0, leaf@, i as int),
                be_nat(current_level_hash@) < p_nat(),
                forall|j: int| i <= j < HEIGHT ==> (#[trigger] self.subtrees@[j]@) == st0[j],
                forall|j: int|
                    0 <= j < i ==> (#[trigger] self.subtrees@[j]@) == appended_subtrees(
                        st0,
                        idx0,
                        leaf@,
                    )[j],
                forall|j: int| 0 <= j < HEIGHT ==> be_nat(#[trigger] self.subtrees@[j]@) < p_nat(),
                forall|j: int| 0 <= j < i ==> (#[trigger] path@[j]@) == sibling_path(st0, idx0)[j],
                self.root == old(self).root,
                self.root_history == old(self).root_history,
                self.next_index_to_insert == old(self).next_index_to_insert,
                self.current_root_index == old(self).current_root_index,
            decreases HEIGHT - i,
        {
            proof {
                vstd::arithmetic::power2::lemma2_to64();
                vstd::arithmetic::power2::lemma_pow2_pos(i as nat);
                vstd::arithmetic::div_mod::lemma_div_denominator(
                    idx0 as int,
                    pow2(i as nat) as int,
                    2,
                );
                vstd::arithmetic::power2::lemma_pow2_adds(i as nat, 1);
                vstd::arithmetic::power2::lemma_pow2_pos(i as nat);
                assert(pow2((i + 1) as nat) == pow2(i as nat) * 2);
            }
            let ghost pre = self.subtrees@;
            let ghost prepath = path@;
            if current_index % 2 == 0 {
                let z = poseidon_zero_hash(i);
                let left = current_level_hash;
                self.subtrees[i] = current_level_hash;
                path[i] = z;
                let h = poseidon_hash_pair(&left, &z);
                proof {
                    assert(self.subtrees@ == pre.update(i as int, current_level_hash));
                    assert(path@ == prepath.update(i as int, z));
                    assert(h@ == merkle_node(st0, idx0, leaf@, i + 1));
                }
                current_level_hash = h;
            } else {
                let left: [u8; 32] = self.subtrees[i];
                let right = current_level_hash;
                path[i] = left;
                let h = poseidon_hash_pair(&left, &right);
                proof {
                    assert(path@ == prepath.update(i as int, left));
                    assert(left@ == st0[i as int]);
                    assert(h@ == merkle_node(st0, idx0, leaf@, i + 1));
                }
                current_level_hash = h;
            }
            current_index = current_index / 2;
            i = i + 1;
        }
        self.root = current_level_hash;
        self.next_index_to_insert = self.next_index_to_insert + 1;
        let new_root_index: usize = (self.current_root_index + 1) % ROOT_HISTORY_SIZE;
        self.current_root_index = new_root_index;
        let ghost prehist = self.root_history@;
        self.root_history[new_root_index] = current_level_hash;
        proof {
            assert(self.root_history@ == prehist.update(new_root_index as int, current_level_hash));
            let m0 = old(self).view_model();
            let m1 = model_append(m0, leaf@);
            assert(self.view_model().subtrees =~~= m1.subtrees);
            assert(self.view_model().hist =~~= m1.hist);
            assert(self.view_model() == m1) by {
                assert(self.view_model().subtrees == m1.subtrees);
                assert(self.view_model().hist == m1.hist);
            }
            assert(Seq::new(HEIGHT as nat, |k: int| path@[k]@) =~~= sibling_path(st0, idx0));
        }
        path
    }

    /// The current root.
    pub fn root(&self) -> (r: [u8; 32])
        ensures
            r@ == self.view_model().root,
    {
        self.root
    }

    /// The ring buffer of recent roots.
    pub fn get_root_history(&self) -> (h: [[u8; 32]; ROOT_HISTORY_SIZE])
        ensures
            (Seq::new(ROOT_HISTORY_SIZE as nat, |i: int| h@[i]@) == self.view_model().hist),
    {
        proof {
            assert(Seq::new(ROOT_HISTORY_SIZE as nat, |i: int| self.root_history@[i]@) =~~= self
                .view_model()
                .hist);
        }
        self.root_history
    }

    /// The write cursor into the root history.
    pub fn get_current_root_index(&self) -> (i: usize)
        ensures
            i as nat == self.view_model().root_idx,
    {
        self.current_root_index
    }

    /// The cached frontier nodes, one per level.
    pub fn get_subtrees(&self) -> (s: [[u8; 32]; HEIGHT])
        ensures
            (Seq::new(HEIGHT as nat, |i: int| s@[i]@) == self.view_model().subtrees),
    {
        proof {
            assert(Seq::new(HEIGHT as nat, |i: int| self.subtrees@[i]@) =~~= self
                .view_model()
                .subtrees);
        }
        self.subtrees
    }

    /// The height of the tree.
    pub fn get_height(&self) -> (h: usize)
        ensures
            h == HEIGHT,
    {
        HEIGHT
    }

    /// How many leaves have been inserted so far.
    pub fn get_next_index(&self) -> (n: usize)
        ensures
            n as nat == self.view_model().next,
    {
        self.next_index_to_insert
    }
}

} // verus!
