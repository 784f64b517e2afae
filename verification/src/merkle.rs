//! Binary Merkle trees over transaction ids, Bitcoin style: parents are the
//! double SHA-256 of the two children, an odd row repeats its last node, and
//! an inclusion path lists the sibling of each node on the way to the root.

use vstd::prelude::*;
use vstd::arithmetic::power2::{pow2, lemma_pow2_adds, lemma2_to64};
use vstd::arithmetic::div_mod::lemma_div_denominator;

use crate::hash::{sha256d, sha256d_of, H256};

verus! {

/// The parent node over a left and a right child.
pub open spec fn merkle_parent(left: Seq<u8>, right: Seq<u8>) -> Seq<u8> {
    sha256d_of(left + right)
}

/// The hash sequences a vector of hashes denotes.
pub open spec fn hashes_view(path: Seq<H256>) -> Seq<Seq<u8>> {
    path.map_values(|h: H256| h@)
}

/// Folds a leaf up an inclusion path: at each level the low bit of the index
/// says whether the current node is the right child.
pub open spec fn merkle_fold(leaf: Seq<u8>, path: Seq<Seq<u8>>, index: nat) -> Seq<u8>
    decreases path.len(),
{
    if path.len() == 0 {
        leaf
    } else {
        let combined = if index % 2 == 1 {
            merkle_parent(path[0], leaf)
        } else {
            merkle_parent(leaf, path[0])
        };
        merkle_fold(combined, path.drop_first(), index / 2)
    }
}

/// Hashes two nodes into their parent.
fn merkle_combine(left: &H256, right: &H256) -> (r: H256)
    ensures
        r@ == merkle_parent(left@, right@),
{
    let mut bytes: Vec<u8> = Vec::new();
    crate::hash::append_h256(&mut bytes, left);
    crate::hash::append_h256(&mut bytes, right);
    proof {
        assert(bytes@ =~= left@ + right@);
    }
    sha256d(&bytes)
}

/// Recomputes the Merkle root implied by a leaf, a sibling path and the
/// leaf's index in the block.
pub fn compute_merkle_root(leaf: &H256, path: &Vec<H256>, index: u64) -> (r: H256)
    ensures
        r@ == merkle_fold(leaf@, hashes_view(path@), index as nat),
{
    let mut cur: H256 = *leaf;
    let mut idx: u64 = index;
    let mut i: usize = 0;
    proof {
        assert(path@.skip(0) =~= path@);
    }
    while i < path.len()
        invariant
            i <= path@.len(),
            merkle_fold(leaf@, hashes_view(path@), index as nat) == merkle_fold(
                cur@,
                hashes_view(path@.skip(i as int)),
                idx as nat,
            ),
        decreases path@.len() - i,
    {
        let ghost pre = path@.skip(i as int);
        let sibling = path[i];
        cur = if idx % 2 == 1 {
            merkle_combine(&sibling, &cur)
        } else {
            merkle_combine(&cur, &sibling)
        };
        idx = idx / 2;
        i = i + 1;
        proof {
            assert(hashes_view(pre)[0] == path@[i - 1]@);
            assert(hashes_view(pre).drop_first() =~= hashes_view(path@.skip(i as int)));
        }
    }
    proof {
        assert(hashes_view(path@.skip(path@.len() as int)) =~= Seq::<Seq<u8>>::empty());
    }
    cur
}

/// Appending a sibling to a path folds it onto the already-folded node, at
/// the position the index has reached by that level.
proof fn lemma_merkle_fold_push(leaf: Seq<u8>, path: Seq<Seq<u8>>, sibling: Seq<u8>, index: nat)
    ensures
        merkle_fold(leaf, path.push(sibling), index) == ({
            let cur = merkle_fold(leaf, path, index);
            let pos = index / pow2(path.len());
            if pos % 2 == 1 {
                merkle_parent(sibling, cur)
            } else {
                merkle_parent(cur, sibling)
            }
        }),
    decreases path.len(),
{
    lemma2_to64();
    if path.len() == 0 {
        let folded = if index % 2 == 1 {
            merkle_parent(sibling, leaf)
        } else {
            merkle_parent(leaf, sibling)
        };
        assert(path.push(sibling)[0] == sibling);
        assert(path.push(sibling).drop_first() =~= Seq::<Seq<u8>>::empty());
        assert(merkle_fold(folded, Seq::<Seq<u8>>::empty(), index / 2) == folded);
        assert(merkle_fold(leaf, path.push(sibling), index) == folded);
        assert(merkle_fold(leaf, path, index) == leaf);
        assert(index / pow2(0) == index);
    } else {
        let combined = if index % 2 == 1 {
            merkle_parent(path[0], leaf)
        } else {
            merkle_parent(leaf, path[0])
        };
        assert(path.push(sibling)[0] == path[0]);
        assert(path.push(sibling).drop_first() =~= path.drop_first().push(sibling));
        assert(merkle_fold(leaf, path.push(sibling), index) == merkle_fold(
            combined,
            path.drop_first().push(sibling),
            index / 2,
        ));
        assert(merkle_fold(leaf, path, index) == merkle_fold(
            combined,
            path.drop_first(),
            index / 2,
        ));
        lemma_merkle_fold_push(combined, path.drop_first(), sibling, index / 2);
        lemma_pow2_adds(1, (path.len() - 1) as nat);
        vstd::arithmetic::power2::lemma_pow2_pos((path.len() - 1) as nat);
        lemma_div_denominator(index as int, 2, pow2((path.len() - 1) as nat) as int);
        assert((index / 2) / pow2((path.len() - 1) as nat) == index / pow2(path.len()));
    }
}

/// One tree level up: nodes pair left to right, an odd row repeating its
/// last node.
pub open spec fn merkle_level_up(level: Seq<Seq<u8>>) -> Seq<Seq<u8>> {
    let padded = if level.len() % 2 == 1 {
        level.push(level.last())
    } else {
        level
    };
    Seq::new(padded.len() / 2, |k: int| merkle_parent(padded[2 * k], padded[2 * k + 1]))
}

/// The Merkle root over a row of nodes: fold levels until one remains.
pub open spec fn merkle_root_of(level: Seq<Seq<u8>>) -> Seq<u8>
    recommends
        level.len() >= 1,
    decreases level.len(),
{
    if level.len() <= 1 {
        level[0]
    } else {
        merkle_root_of(merkle_level_up(level))
    }
}

/// Builds the Merkle root over a block's transaction ids together with the
/// inclusion path for the transaction at `index`: the root is the tree's
/// root over all ids, and the path provably folds the chosen leaf back to
/// that root.
pub fn merkle_root_with_path(txids: &Vec<H256>, index: usize) -> (r: (H256, Vec<H256>))
    requires
        txids@.len() >= 1,
        index < txids@.len(),
    ensures
        r.0@ == merkle_root_of(hashes_view(txids@)),
        merkle_fold(txids@[index as int]@, hashes_view(r.1@), index as nat) == r.0@,
{
    let ghost leaf = txids@[index as int]@;
    let mut level: Vec<H256> = clone_hashes(txids);
    let mut pos: usize = index;
    let mut path: Vec<H256> = Vec::new();
    proof {
        lemma2_to64();
        assert(hashes_view(path@) =~= Seq::<Seq<u8>>::empty());
        assert((index as nat) / pow2(0) == index as nat);
    }
    while level.len() > 1
        invariant
            1 <= level@.len(),
            pos < level@.len(),
            pos == (index as nat) / pow2(path@.len()),
            merkle_fold(leaf, hashes_view(path@), index as nat) == level@[pos as int]@,
            merkle_root_of(hashes_view(level@)) == merkle_root_of(hashes_view(txids@)),
        decreases level@.len(),
    {
        proof {
            lemma2_to64();
        }
        let ghost pre_pad = level@;
        if level.len() % 2 == 1 {
            let last = level[level.len() - 1];
            level.push(last);
        }
        let n = level.len();
        let ghost padded = level@;
        proof {
            vstd::arithmetic::div_mod::lemma_fundamental_div_mod(padded.len() as int, 2);
            vstd::arithmetic::div_mod::lemma_fundamental_div_mod(pos as int, 2);
            assert(level@[pos as int] == pre_pad[pos as int]);
        }
        let half = n / 2;
        // pair up the padded row into the next one
        let mut next: Vec<H256> = Vec::new();
        let mut j: usize = 0;
        while j < half
            invariant
                level@ == padded,
                padded.len() % 2 == 0,
                half == padded.len() / 2,
                2 * half == padded.len(),
                n == padded.len(),
                j <= half,
                next@.len() == j,
                forall|k: int|
                    0 <= k < j ==> next@[k]@ == merkle_parent(padded[2 * k]@, padded[2 * k + 1]@),
            decreases half - j,
        {
            proof {
                assert(2 * j + 1 < padded.len());
            }
            let parent = merkle_combine(&level[2 * j], &level[2 * j + 1]);
            next.push(parent);
            j = j + 1;
        }
        let sibling_pos = if pos % 2 == 0 {
            proof {
                assert(pos + 1 < padded.len());
            }
            pos + 1
        } else {
            pos - 1
        };
        let sibling = level[sibling_pos];
        let ghost path_pre = path@;
        path.push(sibling);
        proof {
            assert(path@.drop_last() =~= path_pre);
            lemma_merkle_fold_push(leaf, hashes_view(path_pre), sibling@, index as nat);
            assert(hashes_view(path_pre).push(sibling@) =~= hashes_view(path@));
            assert(hashes_view(path_pre) =~= hashes_view(path@).drop_last());
            lemma_pow2_adds(path_pre.len(), 1);
            vstd::arithmetic::power2::lemma_pow2_pos(path_pre.len());
            lemma_div_denominator(index as int, pow2(path_pre.len()) as int, 2);
            assert((index as nat) / pow2(path@.len()) == ((index as nat) / pow2(
                path_pre.len(),
            )) / 2);
            assert(pos / 2 < half);
            assert(next@[(pos / 2) as int]@ == merkle_parent(
                padded[2 * (pos / 2)]@,
                padded[2 * (pos / 2) + 1]@,
            ));
        }
        proof {
            assert(hashes_view(padded) =~= (if hashes_view(pre_pad).len() % 2 == 1 {
                hashes_view(pre_pad).push(hashes_view(pre_pad).last())
            } else {
                hashes_view(pre_pad)
            }));
            assert(hashes_view(next@) =~= merkle_level_up(hashes_view(pre_pad)));
        }
        pos = pos / 2;
        level = next;
    }
    let root = level[0];
    proof {
        assert(pos == 0);
        assert(hashes_view(level@)[0] == root@);
    }
    (root, path)
}

/// Copies a vector of hashes.
fn clone_hashes(v: &Vec<H256>) -> (r: Vec<H256>)
    ensures
        r@ == v@,
{
    let mut r: Vec<H256> = Vec::new();
    let mut i: usize = 0;
    while i < v.len()
        invariant
            i <= v@.len(),
            r@ =~= v@.subrange(0, i as int),
        decreases v@.len() - i,
    {
        r.push(v[i]);
        i = i + 1;
    }
    proof {
        assert(r@ =~= v@);
    }
    r
}

} // verus!
