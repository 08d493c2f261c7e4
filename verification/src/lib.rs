//! A Merkle tree library: commits an ordered collection of opaque byte
//! blocks to a single 32-byte SHA-256 root digest.

use vstd::prelude::*;

pub mod merkle_tree;
pub mod views;

verus! {

broadcast use crate::views::lemma_digest_deep_view, crate::views::lemma_block_deep_view;

/// Uninterpreted name for the SHA-256 digest of a byte sequence.
pub uninterp spec fn sha256_of(data: Seq<u8>) -> Seq<u8>;

/// Relies on `sha2::Sha256`: the digest is a pure function of the input
/// bytes alone, always 32 bytes long.
#[verifier::external_body]
pub(crate) fn sha256(data: &[u8]) -> (r: [u8; 32])
    ensures
        r@ == sha256_of(data@),
{
    let mut hasher = <sha2::Sha256 as sha2::Digest>::new();
    sha2::Digest::update(&mut hasher, data);
    sha2::Digest::finalize(hasher).into()
}

/// Compute the SHA-256 digest of a byte block.
pub fn compute_hash(val: &Vec<u8>) -> (r: [u8; 32])
    ensures
        r@ == sha256_of(val@),
{
    sha256(val.as_slice())
}

/// The all-zero digest used to pad odd-sized levels under `PaddingPolicy::ZeroPad`.
pub open spec fn zero_digest() -> Seq<u8> {
    Seq::new(32, |i: int| 0u8)
}

/// The digest of an interior node: SHA-256 over the raw 64-byte
/// concatenation `left || right`, with no separator or tag.
pub open spec fn node_hash(left: Seq<u8>, right: Seq<u8>) -> Seq<u8> {
    sha256_of(left + right)
}

/// How an odd-sized level is brought to even length before pairing.
/// The two policies yield different roots for odd-sized inputs, so the
/// chosen policy is part of a tree's external contract.
pub enum PaddingPolicy {
    /// Append the all-zero 32-byte digest.
    ZeroPad,
    /// Append a copy of the level's last digest.
    DuplicateLast,
}

/// Pad a level to even length according to `policy`.
pub open spec fn pad_to_even(level: Seq<Seq<u8>>, policy: PaddingPolicy) -> Seq<Seq<u8>> {
    if level.len() % 2 == 1 {
        match policy {
            PaddingPolicy::ZeroPad => level.push(zero_digest()),
            PaddingPolicy::DuplicateLast => level.push(level.last()),
        }
    } else {
        level
    }
}

/// One reduction pass: hash consecutive, non-overlapping pairs of an
/// even-length level, left to right.
pub open spec fn reduce_pass(level: Seq<Seq<u8>>) -> Seq<Seq<u8>>
    recommends
        level.len() % 2 == 0,
{
    Seq::new(level.len() / 2, |i: int| node_hash(level[2 * i], level[2 * i + 1]))
}

/// The root obtained by repeatedly padding and reducing a non-empty level
/// until a single digest remains. A single starting digest is still padded
/// and reduced once, so the root of one leaf is not the leaf itself.
pub open spec fn root_from_level(level: Seq<Seq<u8>>, policy: PaddingPolicy) -> Seq<u8>
    recommends
        level.len() >= 1,
    decreases level.len(),
{
    if level.len() == 0 {
        Seq::empty()
    } else {
        let next = reduce_pass(pad_to_even(level, policy));
        if next.len() == 1 {
            next[0]
        } else {
            root_from_level(next, policy)
        }
    }
}

/// The leaf digests of a block sequence, in order.
pub open spec fn leaf_hashes(blocks: Seq<Seq<u8>>) -> Seq<Seq<u8>> {
    blocks.map_values(|b: Seq<u8>| sha256_of(b))
}

/// The Merkle root of a non-empty block sequence: hash every block into a
/// leaf, then reduce the leaf level to a single digest.
pub open spec fn merkle_root(blocks: Seq<Seq<u8>>, policy: PaddingPolicy) -> Seq<u8>
    recommends
        blocks.len() >= 1,
{
    root_from_level(leaf_hashes(blocks), policy)
}

/// Determinism law: the root is a function of the block sequence and the
/// padding policy alone, so recomputing it over an unchanged store always
/// yields the identical digest.
pub proof fn lemma_root_deterministic(a: Seq<Seq<u8>>, b: Seq<Seq<u8>>, policy: PaddingPolicy)
    requires
        a == b,
    ensures
        merkle_root(a, policy) == merkle_root(b, policy),
{
}

/// Single-leaf law: the root of one block is not its leaf digest; the
/// leaf is paired with the policy's padding digest and hashed once.
pub proof fn lemma_single_leaf(x: Seq<u8>)
    ensures
        merkle_root(seq![x], PaddingPolicy::ZeroPad) == node_hash(sha256_of(x), zero_digest()),
        merkle_root(seq![x], PaddingPolicy::DuplicateLast) == node_hash(
            sha256_of(x),
            sha256_of(x),
        ),
{
    let l = leaf_hashes(seq![x]);
    assert(l =~= seq![sha256_of(x)]);
    assert(pad_to_even(l, PaddingPolicy::ZeroPad) =~= seq![sha256_of(x), zero_digest()]);
    assert(pad_to_even(l, PaddingPolicy::DuplicateLast) =~= seq![sha256_of(x), sha256_of(x)]);
    assert(reduce_pass(pad_to_even(l, PaddingPolicy::ZeroPad)).len() == 1);
    assert(reduce_pass(pad_to_even(l, PaddingPolicy::DuplicateLast)).len() == 1);
}

/// Four-leaf law: with leaf digests `h0, h1, h2, h3` in insertion order,
/// the root is `H(H(h0 || h1) || H(h2 || h3))` under either policy, since
/// no level is odd.
pub proof fn lemma_four_leaves(
    b0: Seq<u8>,
    b1: Seq<u8>,
    b2: Seq<u8>,
    b3: Seq<u8>,
    policy: PaddingPolicy,
)
    ensures
        merkle_root(seq![b0, b1, b2, b3], policy) == node_hash(
            node_hash(sha256_of(b0), sha256_of(b1)),
            node_hash(sha256_of(b2), sha256_of(b3)),
        ),
{
    let l = leaf_hashes(seq![b0, b1, b2, b3]);
    assert(l =~= seq![sha256_of(b0), sha256_of(b1), sha256_of(b2), sha256_of(b3)]);
    let mid = reduce_pass(l);
    assert(mid =~= seq![
        node_hash(sha256_of(b0), sha256_of(b1)),
        node_hash(sha256_of(b2), sha256_of(b3)),
    ]);
    assert(pad_to_even(l, policy) == l);
    assert(pad_to_even(mid, policy) == mid);
    assert(reduce_pass(mid).len() == 1);
    assert(root_from_level(l, policy) == root_from_level(mid, policy));
}

/// Odd-count padding law: a level of odd length is reduced exactly as the
/// level extended by one padding entry — the all-zero digest under
/// `ZeroPad`, a copy of the last digest under `DuplicateLast`.
pub proof fn lemma_odd_level_padding(level: Seq<Seq<u8>>)
    requires
        level.len() % 2 == 1,
    ensures
        root_from_level(level, PaddingPolicy::ZeroPad) == root_from_level(
            level.push(zero_digest()),
            PaddingPolicy::ZeroPad,
        ),
        root_from_level(level, PaddingPolicy::DuplicateLast) == root_from_level(
            level.push(level.last()),
            PaddingPolicy::DuplicateLast,
        ),
{
    assert(pad_to_even(level, PaddingPolicy::ZeroPad) == level.push(zero_digest()));
    assert(pad_to_even(level.push(zero_digest()), PaddingPolicy::ZeroPad) == level.push(
        zero_digest(),
    ));
    assert(pad_to_even(level, PaddingPolicy::DuplicateLast) == level.push(level.last()));
    assert(pad_to_even(level.push(level.last()), PaddingPolicy::DuplicateLast) == level.push(
        level.last(),
    ));
}

pub(crate) fn zero_leaf() -> (r: [u8; 32])
    ensures
        r@ == zero_digest(),
{
    let r = [0u8; 32];
    proof {
        assert(r@ =~= zero_digest());
    }
    r
}

/// Hash one sibling pair into its parent digest.
pub(crate) fn hash_pair(left: &[u8; 32], right: &[u8; 32]) -> (r: [u8; 32])
    ensures
        r@ == node_hash(left@, right@),
{
    let mut concat: Vec<u8> = Vec::new();
    concat.extend_from_slice(left.as_slice());
    concat.extend_from_slice(right.as_slice());
    proof {
        assert(concat@ =~= left@ + right@);
    }
    sha256(concat.as_slice())
}

/// Reduce a level of digests to the Merkle root under the zero-padding
/// policy. Fails exactly when the level is empty.
pub fn chain_hashes(hashes: Vec<[u8; 32]>) -> (r: Result<[u8; 32], ()>)
    ensures
        r is Ok <==> hashes@.len() > 0,
        r matches Ok(d) ==> d@ == root_from_level(
            hashes.deep_view(),
            PaddingPolicy::ZeroPad,
        ),
{
    if hashes.len() == 0 {
        return Err(());
    }
    let ghost orig: Seq<Seq<u8>> = hashes.deep_view();
    let mut level = hashes;
    loop
        invariant_except_break
            root_from_level(level.deep_view(), PaddingPolicy::ZeroPad) == root_from_level(
                orig,
                PaddingPolicy::ZeroPad,
            ),
        invariant
            level@.len() >= 1,
        ensures
            level@.len() == 1,
            level.deep_view()[0] == root_from_level(orig, PaddingPolicy::ZeroPad),
        decreases level@.len(),
    {
        let ghost entry: Seq<Seq<u8>> = level.deep_view();
        if level.len() % 2 == 1 {
            let pad = zero_leaf();
            level.push(pad);
            proof {
                assert(level.deep_view() =~= pad_to_even(entry, PaddingPolicy::ZeroPad));
            }
        } else {
            proof {
                assert(level.deep_view() =~= pad_to_even(entry, PaddingPolicy::ZeroPad));
            }
        }
        let ghost padded: Seq<Seq<u8>> = level.deep_view();
        let mut next: Vec<[u8; 32]> = Vec::new();
        let mut i: usize = 0;
        while i < level.len()
            invariant
                padded == level.deep_view(),
                level@.len() % 2 == 0,
                2 <= level@.len(),
                i % 2 == 0,
                i <= level@.len(),
                next@.len() == i / 2,
                forall|j: int|
                    0 <= j < next@.len() ==> next.deep_view()[j] == reduce_pass(padded)[j],
            decreases level@.len() - i,
        {
            let parent = hash_pair(&level[i], &level[i + 1]);
            next.push(parent);
            i = i + 2;
        }
        proof {
            assert(next.deep_view() =~= reduce_pass(padded));
            assert(root_from_level(entry, PaddingPolicy::ZeroPad) == (if next.deep_view().len()
                == 1 {
                next.deep_view()[0]
            } else {
                root_from_level(next.deep_view(), PaddingPolicy::ZeroPad)
            }));
        }
        level = next;
        if level.len() == 1 {
            break;
        }
    }
    Ok(level[0])
}

/// An ordered store of byte blocks committed to a single Merkle root.
///
/// Blocks are hashed as leaves in insertion order (oldest first) and odd
/// levels are padded with the all-zero digest.
#[derive(Debug)]
pub struct MerkleTree {
    blocks: Vec<Vec<u8>>,
}

impl View for MerkleTree {
    type V = Seq<Seq<u8>>;

    closed spec fn view(&self) -> Seq<Seq<u8>> {
        self.blocks.deep_view()
    }
}

impl Default for MerkleTree {
    /// Create a store with no blocks.
    fn default() -> (t: Self)
        ensures
            t@ == Seq::<Seq<u8>>::empty(),
    {
        let t = MerkleTree { blocks: Vec::new() };
        proof {
            assert(t@ =~= Seq::<Seq<u8>>::empty());
        }
        t
    }
}

impl MerkleTree {
    /// Append a raw block to the store. Always succeeds; any byte
    /// sequence, including the empty one, is a valid block.
    pub fn insert_block(&mut self, block: Vec<u8>)
        ensures
            final(self)@ == old(self)@.push(block@),
    {
        self.blocks.push(block);
        proof {
            assert(self@ =~= old(self)@.push(block@));
        }
    }

    /// True iff no blocks have been inserted.
    pub fn empty(&self) -> (r: bool)
        ensures
            r == (self@.len() == 0),
    {
        self.blocks.len() == 0
    }

    /// Compute the root digest of the stored blocks. Fails exactly when
    /// the store is empty; otherwise the root commits to the block
    /// contents and their insertion order.
    pub fn compute_merkle_root(&self) -> (r: Result<[u8; 32], ()>)
        ensures
            r is Ok <==> self@.len() > 0,
            r matches Ok(d) ==> d@ == merkle_root(self@, PaddingPolicy::ZeroPad),
    {
        if self.empty() {
            Err(())
        } else {
            let mut leaves: Vec<[u8; 32]> = Vec::new();
            let mut i: usize = 0;
            while i < self.blocks.len()
                invariant
                    i <= self.blocks@.len(),
                    leaves@.len() == i,
                    forall|j: int|
                        0 <= j < i ==> leaves.deep_view()[j] == sha256_of(
                            self.blocks.deep_view()[j],
                        ),
                decreases self.blocks@.len() - i,
            {
                let ghost prev: Seq<Seq<u8>> = leaves.deep_view();
                let h = sha256(self.blocks[i].as_slice());
                leaves.push(h);
                proof {
                    assert(leaves.deep_view() =~= prev.push(h@));
                }
                i = i + 1;
            }
            proof {
                assert(leaves.deep_view() =~= leaf_hashes(self@));
            }
            chain_hashes(leaves)
        }
    }

    /// Membership proofs are not part of this library's contract: the
    /// operation always reports failure.
    pub fn prove_block(&self, _block: Vec<u8>) -> (r: bool)
        ensures
            !r,
    {
        false
    }
}

} // verus!
