//! Merkle tree over data chunks.
//!
//! Leaves are SHA-256 digests of the chunks, serialized as lowercase hex;
//! inner nodes hash the concatenation of their children's hex strings; a
//! level of odd width duplicates its last element.  Proof emission and
//! proof verification are both derived from the same spec-level level list
//! `tree_levels`, and `lemma_proof_verifies` shows that every emitted leaf
//! proof verifies against the root.

use vstd::prelude::*;

use crate::crypto::{node_hash_of, sha256_hex, sha256_hex_of, merkle_node_hash};
use crate::errors::ComputeError;

verus! {

/// The leaf hashes of a chunk sequence.
pub open spec fn leaf_hashes(chunks: Seq<Seq<u8>>) -> Seq<Seq<char>> {
    Seq::new(chunks.len(), |i: int| sha256_hex_of(chunks[i]))
}

/// A level of odd width (above one) duplicates its last element.
pub open spec fn padded(level: Seq<Seq<char>>) -> Seq<Seq<char>> {
    if level.len() % 2 == 1 {
        level.push(level.last())
    } else {
        level
    }
}

/// Pairwise combination of an even-width level.
pub open spec fn next_level(level: Seq<Seq<char>>) -> Seq<Seq<char>> {
    Seq::new(level.len() / 2, |i: int| node_hash_of(level[2 * i], level[2 * i + 1]))
}

/// All levels of the tree grown from `level`, each stored after padding.
pub open spec fn tree_levels(level: Seq<Seq<char>>) -> Seq<Seq<Seq<char>>>
    decreases level.len(),
{
    if level.len() <= 1 {
        seq![level]
    } else {
        let p = padded(level);
        seq![p] + tree_levels(next_level(p))
    }
}

/// The root hash over a sequence of leaf hashes; empty input has an empty
/// root.
pub open spec fn spec_root(leaves: Seq<Seq<char>>) -> Seq<char> {
    if leaves.len() == 0 {
        Seq::empty()
    } else {
        tree_levels(leaves).last()[0]
    }
}

/// The sibling hashes on the path from leaf `idx` to the root.
pub open spec fn spec_proof(levels: Seq<Seq<Seq<char>>>, idx: nat) -> Seq<Seq<char>>
    decreases levels.len(),
{
    if levels.len() <= 1 {
        Seq::empty()
    } else {
        let level = levels[0];
        let sib: int = if idx % 2 == 0 {
            idx as int + 1
        } else {
            idx as int - 1
        };
        seq![level[sib]] + spec_proof(levels.drop_first(), idx / 2)
    }
}

/// Recompute the root from a leaf hash, its index and sibling hashes.
pub open spec fn spec_verify_chain(hash: Seq<char>, idx: nat, proof: Seq<Seq<char>>) -> Seq<char>
    decreases proof.len(),
{
    if proof.len() == 0 {
        hash
    } else {
        let h2 = if idx % 2 == 0 {
            node_hash_of(hash, proof[0])
        } else {
            node_hash_of(proof[0], hash)
        };
        spec_verify_chain(h2, idx / 2, proof.drop_first())
    }
}

/// The last level of a tree holds exactly the root.
proof fn lemma_tree_levels_shape(level: Seq<Seq<char>>)
    requires
        level.len() >= 1,
    ensures
        tree_levels(level).len() >= 1,
        tree_levels(level).last().len() == 1,
    decreases level.len(),
{
    if level.len() <= 1 {
    } else {
        let p = padded(level);
        lemma_tree_levels_shape(next_level(p));
        assert((seq![p] + tree_levels(next_level(p))).last() == tree_levels(next_level(p)).last());
    }
}

/// Every emitted leaf proof recomputes the root: the verification chain of
/// leaf `idx`'s hash along `spec_proof` ends at `spec_root`.
pub proof fn lemma_proof_verifies(leaves: Seq<Seq<char>>, idx: nat)
    requires
        leaves.len() >= 1,
        idx < leaves.len(),
    ensures
        spec_verify_chain(leaves[idx as int], idx, spec_proof(tree_levels(leaves), idx))
            == spec_root(leaves),
    decreases leaves.len(),
{
    if leaves.len() == 1 {
        assert(tree_levels(leaves) == seq![leaves]);
        assert(spec_proof(tree_levels(leaves), idx) == Seq::<Seq<char>>::empty());
    } else {
        let p = padded(leaves);
        let next = next_level(p);
        let ls = tree_levels(leaves);
        assert(ls == seq![p] + tree_levels(next));
        lemma_tree_levels_shape(next);
        assert(ls.len() >= 2);
        assert(ls[0] == p);
        assert(ls.drop_first() =~= tree_levels(next));
        assert(p[idx as int] == leaves[idx as int]);
        let sib: int = if idx % 2 == 0 {
            idx as int + 1
        } else {
            idx as int - 1
        };
        assert(p.len() % 2 == 0);
        assert(sib < p.len());
        let pr = spec_proof(ls, idx);
        assert(pr == seq![p[sib]] + spec_proof(tree_levels(next), idx / 2));
        assert(pr[0] == p[sib]);
        assert(pr.drop_first() =~= spec_proof(tree_levels(next), idx / 2));
        let h2 = if idx % 2 == 0 {
            node_hash_of(leaves[idx as int], p[sib])
        } else {
            node_hash_of(p[sib], leaves[idx as int])
        };
        assert(spec_verify_chain(leaves[idx as int], idx, pr) == spec_verify_chain(
            h2,
            idx / 2,
            pr.drop_first(),
        ));
        assert(next[idx as int / 2] == node_hash_of(p[2 * (idx as int / 2)], p[2 * (idx as int / 2)
            + 1]));
        if idx % 2 == 0 {
            assert(2 * (idx as int / 2) == idx as int);
        } else {
            assert(2 * (idx as int / 2) == idx as int - 1);
        }
        assert(h2 == next[idx as int / 2]);
        assert(idx as nat / 2 < next.len());
        lemma_proof_verifies(next, idx / 2);
        assert(spec_root(leaves) == ls.last()[0]);
        assert(ls.last() == tree_levels(next).last());
    }
}

/// A Merkle tree built over data chunks.
pub struct MerkleTree {
    root: String,
    levels: Vec<Vec<String>>,
    leaf_count: usize,
    chunks: Ghost<Seq<Seq<u8>>>,
}

impl MerkleTree {
    /// The chunk views the tree was built over.
    pub closed spec fn chunks(self) -> Seq<Seq<u8>> {
        self.chunks@
    }

    /// The number of leaves.
    pub closed spec fn spec_leaf_count(self) -> nat {
        self.leaf_count as nat
    }

    /// The tree stores exactly the levels grown from its leaf hashes, and
    /// its root field caches the last level's entry.
    pub closed spec fn wf(self) -> bool {
        &&& self.leaf_count == self.chunks@.len()
        &&& self.root@ == spec_root(leaf_hashes(self.chunks@))
        &&& self.chunks@.len() >= 1 ==> self.levels.deep_view() == tree_levels(
            leaf_hashes(self.chunks@),
        )
        &&& self.chunks@.len() == 0 ==> self.levels.deep_view() == Seq::<Seq<Seq<char>>>::empty()
    }

    /// Build a tree from data chunks.
    pub fn build(chunks: &Vec<Vec<u8>>) -> (r: MerkleTree)
        ensures
            r.wf(),
            r.chunks() == chunks.deep_view(),
            r.spec_leaf_count() == chunks@.len(),
    {
        let ghost cviews = chunks.deep_view();
        if chunks.len() == 0 {
            let t = MerkleTree {
                root: String::new(),
                levels: Vec::new(),
                leaf_count: 0,
                chunks: Ghost(cviews),
            };
            proof {
                assert(leaf_hashes(cviews).len() == 0);
                assert(t.levels.deep_view() =~~= Seq::<Seq<Seq<char>>>::empty());
            }
            return t;
        }
        let mut current: Vec<String> = Vec::new();
        let mut i: usize = 0;
        while i < chunks.len()
            invariant
                i <= chunks@.len(),
                cviews == chunks.deep_view(),
                current.deep_view() =~~= leaf_hashes(cviews).take(i as int),
            decreases chunks@.len() - i,
        {
            let ghost cur0 = current.deep_view();
            let h = sha256_hex(chunks[i].as_slice());
            current.push(h);
            i = i + 1;
            proof {
                assert(current.deep_view() =~~= cur0.push(h@));
                assert(cviews[i - 1] =~= chunks@[i - 1]@);
                assert(h@ == leaf_hashes(cviews)[i - 1]);
                assert(current.deep_view() =~~= leaf_hashes(cviews).take(i as int));
            }
        }
        proof {
            assert(leaf_hashes(cviews).take(cviews.len() as int) =~= leaf_hashes(cviews));
        }
        let leaf_count: usize = chunks.len();
        let ghost leaves = leaf_hashes(cviews);
        let mut levels: Vec<Vec<String>> = Vec::new();
        while current.len() > 1
            invariant
                current@.len() >= 1,
                tree_levels(leaves) =~~= levels.deep_view() + tree_levels(current.deep_view()),
            decreases current@.len(),
        {
            let ghost lv0 = levels.deep_view();
            let ghost cur_dv = current.deep_view();
            if current.len() % 2 == 1 {
                let last = current[current.len() - 1].clone();
                current.push(last);
            }
            proof {
                assert(current.deep_view() =~~= padded(cur_dv));
            }
            let ghost p = current.deep_view();
            let mut next: Vec<String> = Vec::new();
            let half: usize = current.len() / 2;
            let mut k: usize = 0;
            while k < half
                invariant
                    k <= half,
                    current@.len() <= usize::MAX,
                    half == p.len() / 2,
                    p.len() % 2 == 0,
                    p == current.deep_view(),
                    current@.len() == p.len(),
                    next.deep_view() =~~= next_level(p).take(k as int),
                decreases half - k,
            {
                let ghost n0 = next.deep_view();
                proof {
                    assert(current@.len() == p.len());
                    assert(2 * k + 1 < current@.len());
                }
                let h = merkle_node_hash(&current[2 * k], &current[2 * k + 1]);
                next.push(h);
                k = k + 1;
                proof {
                    assert(next.deep_view() =~~= n0.push(h@));
                    assert(next.deep_view() =~~= next_level(p).take(k as int));
                }
            }
            proof {
                assert(next_level(p).take(half as int) =~= next_level(p));
            }
            levels.push(current);
            current = next;
            proof {
                assert(levels.deep_view() =~~= lv0.push(p));
                assert(tree_levels(cur_dv) == seq![p] + tree_levels(next_level(p)));
                assert(lv0 + (seq![p] + tree_levels(next_level(p))) =~~= lv0.push(p)
                    + tree_levels(next_level(p)));
            }
        }
        let ghost lv0 = levels.deep_view();
        let ghost final_level = current.deep_view();
        let root = current[0].clone();
        levels.push(current);
        proof {
            assert(levels.deep_view() =~~= lv0.push(final_level));
            assert(tree_levels(final_level) == seq![final_level]);
            assert(lv0 + seq![final_level] =~~= lv0.push(final_level));
            assert(levels.deep_view() =~~= tree_levels(leaves));
            lemma_tree_levels_shape(leaves);
            assert(root@ == tree_levels(leaves).last()[0]);
        }
        MerkleTree { root, levels, leaf_count, chunks: Ghost(cviews) }
    }

    /// Build a tree from a single blob, cut into chunks of `chunk_size`
    /// bytes (at least one).
    pub fn from_data(data: &[u8], chunk_size: usize) -> (r: MerkleTree)
        ensures
            r.wf(),
            r.spec_leaf_count() == r.chunks().len(),
            r.chunks() == crate::frame::chunk_seq(
                data@,
                if chunk_size >= 1 {
                    chunk_size as nat
                } else {
                    1nat
                },
            ),
    {
        let size: usize = if chunk_size >= 1 {
            chunk_size
        } else {
            1
        };
        let chunks = crate::frame::chunk_bytes(data, size);
        MerkleTree::build(&chunks)
    }

    /// The root hash; empty for an empty tree.
    pub fn root(&self) -> (r: &String)
        requires
            self.wf(),
        ensures
            r@ == spec_root(leaf_hashes(self.chunks())),
    {
        &self.root
    }

    /// The number of leaves.
    pub fn leaf_count(&self) -> (r: usize)
        ensures
            r == self.spec_leaf_count(),
    {
        self.leaf_count
    }

    /// The sibling hashes from leaf `leaf_index` up to the root; an error
    /// exactly when the index is out of range.
    pub fn get_proof(&self, leaf_index: usize) -> (r: Result<Vec<String>, ComputeError>)
        requires
            self.wf(),
        ensures
            match r {
                Ok(p) => leaf_index < self.spec_leaf_count() && p.deep_view() == spec_proof(
                    tree_levels(leaf_hashes(self.chunks())),
                    leaf_index as nat,
                ),
                Err(e) => leaf_index >= self.spec_leaf_count() && e
                    == ComputeError::MerkleLeafOutOfRange,
            },
    {
        if leaf_index >= self.leaf_count {
            return Err(ComputeError::MerkleLeafOutOfRange);
        }
        let ghost leaves = leaf_hashes(self.chunks@);
        let ghost all_levels = tree_levels(leaves);
        let mut proof_out: Vec<String> = Vec::new();
        let mut idx: usize = leaf_index;
        let mut lvl: usize = 0;
        proof {
            lemma_tree_levels_shape(leaves);
            lemma_levels_even(leaves);
            lemma_idx_in_level(leaves, leaf_index as nat, 0);
            assert(tree_levels(leaves).skip(0) =~~= tree_levels(leaves));
            assert(proof_out.deep_view() + spec_proof(tree_levels(leaves), leaf_index as nat)
                =~~= spec_proof(tree_levels(leaves), leaf_index as nat));
        }
        while lvl < self.levels.len() - 1
            invariant
                self.wf(),
                self.spec_leaf_count() >= 1,
                lvl < self.levels@.len(),
                self.levels@.len() == self.levels.deep_view().len(),
                lvl < self.levels.deep_view().len(),
                self.levels.deep_view() == tree_levels(leaf_hashes(self.chunks@)),
                idx < self.levels.deep_view()[lvl as int].len(),
                lvl + 1 < self.levels.deep_view().len() ==> self.levels.deep_view()[lvl as int].len()
                    % 2 == 0,
                spec_proof(tree_levels(leaf_hashes(self.chunks@)), leaf_index as nat)
                    =~~= proof_out.deep_view() + spec_proof(
                    tree_levels(leaf_hashes(self.chunks@)).skip(lvl as int),
                    idx as nat,
                ),
            decreases self.levels.deep_view().len() - lvl,
        {
            let ghost pr0 = proof_out.deep_view();
            let ghost lvls = self.levels.deep_view();
            let sib: usize = if idx % 2 == 0 {
                idx + 1
            } else {
                idx - 1
            };
            let s = self.levels[lvl][sib].clone();
            proof_out.push(s);
            proof {
                assert(proof_out.deep_view() =~~= pr0.push(s@));
                let rest = lvls.skip(lvl as int);
                assert(rest.len() >= 2);
                assert(rest[0] == lvls[lvl as int]);
                assert(rest.drop_first() =~= lvls.skip(lvl as int + 1));
                assert(spec_proof(rest, idx as nat) == seq![lvls[lvl as int][sib as int]]
                    + spec_proof(lvls.skip(lvl as int + 1), idx as nat / 2));
                assert(pr0 + (seq![s@] + spec_proof(lvls.skip(lvl as int + 1), idx as nat / 2))
                    =~~= pr0.push(s@) + spec_proof(lvls.skip(lvl as int + 1), idx as nat / 2));
                lemma_level_step(leaf_hashes(self.chunks@), lvl as nat, idx as nat);
            }
            idx = idx / 2;
            lvl = lvl + 1;
        }
        proof {
            let lvls = self.levels.deep_view();
            assert(lvls.skip(lvl as int).len() == 1);
            assert(spec_proof(lvls.skip(lvl as int), idx as nat) == Seq::<Seq<char>>::empty());
            assert(proof_out.deep_view() + Seq::<Seq<char>>::empty() =~~= proof_out.deep_view());
        }
        Ok(proof_out)
    }

    /// Recompute the chain from a leaf and compare with `root`.
    pub fn verify_proof(root: &String, leaf_data: &[u8], leaf_index: usize, proof: &Vec<String>)
        -> (r: bool)
        ensures
            r == (spec_verify_chain(sha256_hex_of(leaf_data@), leaf_index as nat, proof.deep_view())
                == root@),
    {
        let mut hash: String = sha256_hex(leaf_data);
        let mut idx: usize = leaf_index;
        let mut k: usize = 0;
        proof {
            assert(proof.deep_view().skip(0) =~~= proof.deep_view());
        }
        while k < proof.len()
            invariant
                k <= proof@.len(),
                spec_verify_chain(sha256_hex_of(leaf_data@), leaf_index as nat, proof.deep_view())
                    == spec_verify_chain(hash@, idx as nat, proof.deep_view().skip(k as int)),
            decreases proof@.len() - k,
        {
            let ghost h0 = hash@;
            let ghost i0 = idx as nat;
            let ghost rest = proof.deep_view().skip(k as int);
            if idx % 2 == 0 {
                hash = merkle_node_hash(&hash, &proof[k]);
            } else {
                hash = merkle_node_hash(&proof[k], &hash);
            }
            idx = idx / 2;
            k = k + 1;
            proof {
                assert(rest.len() > 0);
                assert(rest[0] == proof.deep_view()[k - 1]);
                assert(hash@ == if i0 % 2 == 0 {
                    node_hash_of(h0, rest[0])
                } else {
                    node_hash_of(rest[0], h0)
                });
                assert(spec_verify_chain(h0, i0, rest) == spec_verify_chain(
                    hash@,
                    i0 / 2,
                    rest.drop_first(),
                ));
                assert(idx as nat == i0 / 2);
                assert(rest.drop_first() =~~= proof.deep_view().skip(k as int));
            }
        }
        proof {
            assert(proof.deep_view().skip(proof@.len() as int).len() == 0);
        }
        string_eq(&hash, root)
    }
}

/// Every level of a tree except the last has even width.
proof fn lemma_levels_even(leaves: Seq<Seq<char>>)
    requires
        leaves.len() >= 1,
    ensures
        forall|l: int| 0 <= l < tree_levels(leaves).len() - 1 ==> #[trigger] tree_levels(
            leaves,
        )[l].len() % 2 == 0,
    decreases leaves.len(),
{
    if leaves.len() <= 1 {
    } else {
        let p = padded(leaves);
        lemma_levels_even(next_level(p));
        let ls = tree_levels(leaves);
        assert(ls[0] == p);
        assert(forall|l: int| 1 <= l < ls.len() ==> ls[l] == tree_levels(next_level(p))[l - 1]);
    }
}

/// A leaf index stays inside its level.
proof fn lemma_idx_in_level(leaves: Seq<Seq<char>>, idx: nat, lvl: nat)
    requires
        leaves.len() >= 1,
        lvl == 0,
        idx < leaves.len(),
    ensures
        idx < tree_levels(leaves)[lvl as int].len(),
{
    let ls = tree_levels(leaves);
    if leaves.len() <= 1 {
        assert(ls[0] == leaves);
    } else {
        assert(ls[0] == padded(leaves));
    }
}

/// Stepping one level up keeps the index inside the next level, and the
/// remaining levels are the tree over the next level.
proof fn lemma_level_step(leaves: Seq<Seq<char>>, lvl: nat, idx: nat)
    requires
        leaves.len() >= 1,
        lvl + 1 < tree_levels(leaves).len(),
        idx < tree_levels(leaves)[lvl as int].len(),
    ensures
        idx / 2 < tree_levels(leaves)[lvl as int + 1].len(),
        lvl + 2 < tree_levels(leaves).len() ==> tree_levels(leaves)[lvl as int + 1].len() % 2 == 0,
    decreases leaves.len(),
{
    let ls = tree_levels(leaves);
    if leaves.len() <= 1 {
    } else {
        let p = padded(leaves);
        let next = next_level(p);
        assert(ls == seq![p] + tree_levels(next));
        if lvl == 0 {
            assert(ls[0] == p);
            assert(ls[1] == tree_levels(next)[0]);
            assert(next.len() == p.len() / 2);
            if next.len() <= 1 {
                assert(tree_levels(next) == seq![next]);
                assert(ls[1] == next);
            } else {
                assert(tree_levels(next)[0] == padded(next));
            }
            lemma_levels_even(leaves);
        } else {
            assert(forall|l: int| 1 <= l < ls.len() ==> ls[l] == tree_levels(next)[l - 1]);
            lemma_level_step(next, (lvl - 1) as nat, idx);
        }
    }
}

/// Compare two strings for equality of their character views.
pub fn string_eq(a: &String, b: &String) -> (r: bool)
    ensures
        r == (a@ == b@),
{
    a.eq(b)
}

} // verus!
