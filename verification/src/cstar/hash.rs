//! Hashes that are the same in every build of the same program.

use std::collections::hash_map::DefaultHasher;
use std::hash::{Hash, Hasher};
use vstd::prelude::*;
use vstd::std_specs::hash::DefaultHasherAdditionalSpecFns;

verus! {

/// What a hasher has been fed once `str::hash` has fed it the text `s`, on top
/// of what it had been fed before.
pub uninterp spec fn fed(before: Seq<Seq<u8>>, s: Seq<char>) -> Seq<Seq<u8>>;

/// `str::hash` feeds a text to a hasher: what the hasher has been fed then
/// depends on what it had been fed before and on the text alone.  The bytes
/// that are written are not stated.
#[verifier::external_body]
fn feed(s: &str, h: &mut DefaultHasher)
    ensures
        final(h)@ == fed(old(h)@, s@),
{
    s.hash(h)
}

/// The hash of a text by a new default hasher.
pub open spec fn hash_of(s: Seq<char>) -> u64 {
    DefaultHasher::spec_finish(fed(Seq::empty(), s))
}

/// The hash of a text.
pub fn stable_hash(s: &str) -> (r: u64)
    ensures
        r == hash_of(s@),
{
    let mut h = DefaultHasher::new();
    feed(s, &mut h);
    h.finish()
}

} // verus!
