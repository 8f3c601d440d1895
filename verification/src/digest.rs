//! Combining digests.
//!
//! Ordered data is folded with [`mix`], which depends on the order of its
//! arguments. Unordered data is summed modulo 2^64: the sum of a sequence
//! does not change when the sequence is permuted.

use core::hash::Hasher;
use vstd::arithmetic::div_mod::lemma_add_mod_noop;
use vstd::prelude::*;

verus! {

/// The digest that stands for an absent value.
pub const ABSENT: u64 = 0;

/// The seed with which a present value is mixed.
pub const PRESENT: u64 = 1;

/// The multiplier of [`mix`].
pub const MULTIPLIER: u64 = 0x0000_0100_0000_01b3;

/// The digest of `seed` followed by `digest`.
pub open spec fn mixed(seed: u64, digest: u64) -> u64 {
    seed.wrapping_mul(MULTIPLIER).wrapping_add(digest)
}

/// Folds one more digest into a running one.
pub fn mix(seed: u64, digest: u64) -> (folded: u64)
    ensures
        folded == mixed(seed, digest),
{
    seed.wrapping_mul(MULTIPLIER).wrapping_add(digest)
}

/// `core::hash::Hasher::write_u64`: feeds one integer to a hasher. Nothing
/// is assumed of what the hasher makes of it.
#[verifier::external_body]
pub(crate) fn write_digest<H: Hasher>(state: &mut H, digest: u64) {
    state.write_u64(digest)
}

/// The digest of an optional value, given the digest of the value if there
/// is one.
pub open spec fn optional(digest: Option<u64>) -> u64 {
    match digest {
        Some(digest) => mixed(PRESENT, digest),
        None => ABSENT,
    }
}

/// The digest of a sequence of digests, which depends on their order.
pub open spec fn ordered(digests: Seq<u64>) -> u64
    decreases digests.len(),
{
    if digests.len() == 0 {
        ABSENT
    } else {
        mixed(ordered(digests.drop_last()), digests.last())
    }
}

/// The sum of a sequence of digests, as an integer.
pub open spec fn total(digests: Seq<u64>) -> int
    decreases digests.len(),
{
    if digests.len() == 0 {
        0
    } else {
        total(digests.drop_last()) + digests.last()
    }
}

/// An integer reduced modulo 2^64.
pub open spec fn wrapped(sum: int) -> u64 {
    (sum % 0x1_0000_0000_0000_0000) as u64
}

/// The digest of an unordered collection: the sum of its members' digests
/// modulo 2^64.
pub open spec fn unordered(digests: Seq<u64>) -> u64 {
    wrapped(total(digests))
}

/// Adding a digest to a reduced sum reduces the sum with that digest.
pub proof fn lemma_wrapped_add(sum: int, digest: u64)
    requires
        0 <= sum,
    ensures
        wrapped(sum).wrapping_add(digest) == wrapped(sum + digest),
{
    let m = 0x1_0000_0000_0000_0000int;
    lemma_add_mod_noop(sum, digest as int, m);
    assert((digest as int) % m == digest);
    let r = sum % m;
    if r + digest >= m {
        assert((r + digest) % m == r + digest - m) by {
            vstd::arithmetic::div_mod::lemma_fundamental_div_mod_converse(
                r + digest,
                m,
                1,
                r + digest - m,
            );
        }
    } else {
        assert((r + digest) % m == r + digest) by {
            vstd::arithmetic::div_mod::lemma_small_mod((r + digest) as nat, m as nat);
        }
    }
}

/// A sum of digests is not negative.
pub proof fn lemma_total_nonnegative(digests: Seq<u64>)
    ensures
        0 <= total(digests),
    decreases digests.len(),
{
    if digests.len() > 0 {
        lemma_total_nonnegative(digests.drop_last());
    }
}

/// The digest of an unordered collection with one more member adds the
/// member's digest, modulo 2^64.
pub proof fn lemma_unordered_push(digests: Seq<u64>, digest: u64)
    ensures
        unordered(digests.push(digest)) == unordered(digests).wrapping_add(digest),
{
    assert(digests.push(digest).drop_last() =~= digests);
    lemma_total_nonnegative(digests);
    lemma_wrapped_add(total(digests), digest);
}

/// Taking one digest out of a sequence takes it out of the sum.
pub proof fn lemma_total_remove(digests: Seq<u64>, at: int)
    requires
        0 <= at < digests.len(),
    ensures
        total(digests) == total(digests.remove(at)) + digests[at],
    decreases digests.len(),
{
    if at == digests.len() - 1 {
        assert(digests.remove(at) =~= digests.drop_last());
    } else {
        lemma_total_remove(digests.drop_last(), at);
        assert(digests.remove(at).drop_last() =~= digests.drop_last().remove(at));
        assert(digests.remove(at).last() == digests.last());
    }
}

/// Two sequences of digests have the same sum when each is the image, under
/// one function, of a sequence of values, and the two sequences of values
/// hold the same values the same number of times.
pub proof fn lemma_total_of_images<V>(
    left: Seq<V>,
    left_digests: Seq<u64>,
    right: Seq<V>,
    right_digests: Seq<u64>,
    weight: spec_fn(V) -> u64,
)
    requires
        left.to_multiset() == right.to_multiset(),
        left_digests.len() == left.len(),
        right_digests.len() == right.len(),
        forall|i: int| 0 <= i < left.len() ==> left_digests[i] == weight(#[trigger] left[i]),
        forall|j: int| 0 <= j < right.len() ==> right_digests[j] == weight(#[trigger] right[j]),
    ensures
        total(left_digests) == total(right_digests),
    decreases left.len(),
{
    left.to_multiset_ensures();
    right.to_multiset_ensures();
    if left.len() == 0 {
        assert(right.len() == 0);
    } else {
        let last = left.last();
        assert(left.contains(last));
        assert(right.to_multiset().count(last) > 0);
        assert(right.contains(last));
        let at = choose|j: int| 0 <= j < right.len() && right[j] == last;
        assert(left.remove(left.len() - 1) =~= left.drop_last());
        assert(left.drop_last().to_multiset() == right.remove(at).to_multiset());
        lemma_total_of_images(
            left.drop_last(),
            left_digests.drop_last(),
            right.remove(at),
            right_digests.remove(at),
            weight,
        );
        lemma_total_remove(right_digests, at);
    }
}

} // verus!
