//! Bridging lemmas between the deep view of byte containers and their
//! plain view.

use vstd::prelude::*;

verus! {

/// A digest's deep view is its plain view: a sequence of bytes.
pub broadcast proof fn lemma_digest_deep_view(a: [u8; 32])
    ensures
        #[trigger] a.deep_view() == a@,
{
    assert(a.deep_view() =~= a@);
}

/// A byte block's deep view is its plain view: a sequence of bytes.
pub broadcast proof fn lemma_block_deep_view(v: Vec<u8>)
    ensures
        #[trigger] v.deep_view() == v@,
{
    assert(v.deep_view() =~= v@);
}

} // verus!
