//! A tree of fixed 32-byte transaction blocks. Leaves are hashed newest
//! first and odd levels are padded by duplicating their last digest, so
//! its roots are not interchangeable with those of the zero-padding store
//! at the crate root.

use vstd::prelude::*;

use crate::{hash_pair, leaf_hashes, merkle_root, root_from_level, sha256, sha256_of, zero_digest,
    zero_leaf, PaddingPolicy};

verus! {

broadcast use crate::views::lemma_digest_deep_view;

/// Merkle tree over fixed-size transaction blocks.
pub struct MerkleTree {
    blocks: Vec<[u8; 32]>,
}

impl View for MerkleTree {
    type V = Seq<Seq<u8>>;

    closed spec fn view(&self) -> Seq<Seq<u8>> {
        self.blocks.deep_view()
    }
}

impl MerkleTree {
    /// Create an empty tree.
    pub fn new() -> (t: Self)
        ensures
            t@ == Seq::<Seq<u8>>::empty(),
    {
        let t = MerkleTree { blocks: Vec::new() };
        proof {
            assert(t@ =~= Seq::<Seq<u8>>::empty());
        }
        t
    }

    /// Append one transaction block; every transaction is the all-zero
    /// 32-byte block.
    pub fn add_transaction(&mut self)
        ensures
            final(self)@ == old(self)@.push(zero_digest()),
    {
        let block = zero_leaf();
        self.blocks.push(block);
        proof {
            assert(self@ =~= old(self)@.push(zero_digest()));
        }
    }

    /// True iff the tree holds no blocks.
    pub fn empty(&self) -> (r: bool)
        ensures
            r == (self@.len() == 0),
    {
        self.blocks.len() == 0
    }

    /// Compute the root digest. Fails exactly when the tree is empty;
    /// otherwise the leaves are the SHA-256 digests of the blocks taken
    /// newest first, reduced under the duplicate-last padding policy.
    pub fn compute_merkle_root(&self) -> (r: Result<[u8; 32], ()>)
        ensures
            r is Ok <==> self@.len() > 0,
            r matches Ok(d) ==> d@ == merkle_root(self@.reverse(), PaddingPolicy::DuplicateLast),
    {
        if self.empty() {
            Err(())
        } else {
            let mut hashes: Vec<[u8; 32]> = Vec::new();
            let mut i: usize = self.blocks.len();
            while i > 0
                invariant
                    i <= self.blocks@.len(),
                    hashes@.len() == self.blocks@.len() - i,
                    forall|j: int|
                        0 <= j < hashes@.len() ==> hashes.deep_view()[j] == sha256_of(
                            self.blocks.deep_view()[self.blocks@.len() - 1 - j],
                        ),
                decreases i,
            {
                i = i - 1;
                let ghost prev: Seq<Seq<u8>> = hashes.deep_view();
                let h = sha256(self.blocks[i].as_slice());
                hashes.push(h);
                proof {
                    assert(hashes.deep_view() =~= prev.push(h@));
                }
            }
            proof {
                assert(hashes.deep_view() =~= leaf_hashes(self@.reverse()));
            }
            Ok(helper(hashes))
        }
    }
}

/// Reduce a non-empty level of digests to the root under the
/// duplicate-last padding policy.
pub fn helper(first: Vec<[u8; 32]>) -> (r: [u8; 32])
    requires
        first@.len() >= 1,
    ensures
        r@ == root_from_level(first.deep_view(), PaddingPolicy::DuplicateLast),
{
    let ghost orig: Seq<Seq<u8>> = first.deep_view();
    let mut level = first;
    loop
        invariant_except_break
            root_from_level(level.deep_view(), PaddingPolicy::DuplicateLast) == root_from_level(
                orig,
                PaddingPolicy::DuplicateLast,
            ),
        invariant
            level@.len() >= 1,
        ensures
            level@.len() == 1,
            level.deep_view()[0] == root_from_level(orig, PaddingPolicy::DuplicateLast),
        decreases level@.len(),
    {
        let ghost entry: Seq<Seq<u8>> = level.deep_view();
        if level.len() % 2 == 1 {
            let last = level[level.len() - 1];
            level.push(last);
            proof {
                assert(level.deep_view() =~= crate::pad_to_even(
                    entry,
                    PaddingPolicy::DuplicateLast,
                ));
            }
        } else {
            proof {
                assert(level.deep_view() =~= crate::pad_to_even(
                    entry,
                    PaddingPolicy::DuplicateLast,
                ));
            }
        }
        let ghost padded: Seq<Seq<u8>> = level.deep_view();
        let mut next: Vec<[u8; 32]> = Vec::new();
        let mut i: usize = 0;
        while i < level.len()
            invariant
                padded == level.deep_view(),
                level@.len() % 2 == 0,
                2 <= level@.len(),
                i % 2 == 0,
                i <= level@.len(),
                next@.len() == i / 2,
                forall|j: int|
                    0 <= j < next@.len() ==> next.deep_view()[j] == crate::reduce_pass(padded)[j],
            decreases level@.len() - i,
        {
            let parent = hash_pair(&level[i], &level[i + 1]);
            next.push(parent);
            i = i + 2;
        }
        proof {
            assert(next.deep_view() =~= crate::reduce_pass(padded));
            assert(root_from_level(entry, PaddingPolicy::DuplicateLast) == (if next.deep_view().len() == 1 {
                next.deep_view()[0]
            } else {
                root_from_level(next.deep_view(), PaddingPolicy::DuplicateLast)
            }));
        }
        level = next;
        if level.len() == 1 {
            break;
        }
    }
    level[0]
}

} // verus!
