//! Winner selection: a uniformly random permutation of the eligible pool,
//! truncated to the requested count.
//!
//! The permutation is drawn from a seeded pseudo-random generator; the seed
//! combines the clock with the draw's id so that different draws executed at
//! the same instant do not collide. Nothing is (or could be) proved about
//! which permutation comes out; what is proved is that the result is a
//! sub-multiset of the pool of the requested length, which gives the
//! selection bound, eligibility of every winner, and pairwise distinctness
//! whenever the pool is duplicate-free.

use vstd::prelude::*;
use vstd::seq_lib::lemma_multiset_commutative;
use crate::identity::id_views;
use rand::seq::SliceRandom;
use rand::SeedableRng;

verus! {

#[verifier::external_type_specification]
#[verifier::external_body]
pub struct ExStdRng(rand::rngs::StdRng);

/// Relies on rand::SeedableRng::seed_from_u64: builds a deterministic
/// generator from a 64-bit seed. Nothing about its output is assumed.
#[verifier::external_body]
pub(crate) fn rng_from_seed(seed: u64) -> rand::rngs::StdRng {
    rand::rngs::StdRng::seed_from_u64(seed)
}

/// Relies on rand::seq::SliceRandom::shuffle: a Fisher-Yates shuffle that
/// permutes the slice in place, so the multiset of elements is preserved.
/// Which permutation results depends on the generator and is not assumed.
#[verifier::external_body]
pub(crate) fn shuffle_ids(ids: &mut Vec<String>, rng: &mut rand::rngs::StdRng)
    ensures
        final(ids)@.len() == old(ids)@.len(),
        id_views(final(ids)@).to_multiset() == id_views(old(ids)@).to_multiset(),
{
    ids.shuffle(rng);
}

/// Relies on std::time::SystemTime::now (read through duration_since and
/// as_nanos): the clock reading that seeds selection. Nothing is assumed
/// about the value.
#[verifier::external_body]
pub(crate) fn now_nanos() -> u64 {
    match std::time::SystemTime::now().duration_since(std::time::UNIX_EPOCH) {
        Ok(d) => d.as_nanos() as u64,
        Err(_) => 0,
    }
}

/// A prefix of a sequence contributes a sub-multiset of the whole.
pub proof fn lemma_prefix_submultiset<A>(s: Seq<A>, k: int)
    requires
        0 <= k <= s.len(),
    ensures
        s.take(k).to_multiset().subset_of(s.to_multiset()),
{
    broadcast use vstd::multiset::group_multiset_axioms;

    assert(s =~= s.take(k) + s.skip(k));
    lemma_multiset_commutative(s.take(k), s.skip(k));
}

/// A sub-multiset of a duplicate-free sequence is itself duplicate-free.
pub proof fn lemma_submultiset_distinct<A>(sub: Seq<A>, sup: Seq<A>)
    requires
        sub.to_multiset().subset_of(sup.to_multiset()),
        sup.no_duplicates(),
    ensures
        sub.no_duplicates(),
{
    broadcast use vstd::seq_lib::group_to_multiset_ensures;

    sup.lemma_multiset_has_no_duplicates();
    assert forall|x: A| sub.to_multiset().contains(x) implies sub.to_multiset().count(x)
        == 1 by {
        assert(sub.to_multiset().count(x) <= sup.to_multiset().count(x));
    }
    sub.lemma_multiset_has_no_duplicates_conv();
}

/// Every element of a sub-multiset is an element of the larger sequence.
pub proof fn lemma_submultiset_membership<A>(sub: Seq<A>, sup: Seq<A>)
    requires
        sub.to_multiset().subset_of(sup.to_multiset()),
    ensures
        forall|x: A| sub.contains(x) ==> sup.contains(x),
{
    broadcast use vstd::seq_lib::group_to_multiset_ensures;

    assert forall|x: A| sub.contains(x) implies sup.contains(x) by {
        assert(sub.to_multiset().count(x) > 0);
        assert(sub.to_multiset().count(x) <= sup.to_multiset().count(x));
    }
}

/// Select `k` winners from `pool`: shuffle, then keep the first `k`.
pub fn select_winners(pool: Vec<String>, k: usize, seed: u64) -> (w: Vec<String>)
    requires
        k <= pool@.len(),
    ensures
        w@.len() == k,
        id_views(w@).to_multiset().subset_of(id_views(pool@).to_multiset()),
        forall|x: Seq<char>| id_views(w@).contains(x) ==> id_views(pool@).contains(x),
        id_views(pool@).no_duplicates() ==> id_views(w@).no_duplicates(),
{
    let mut shuffled = pool;
    let mut rng = rng_from_seed(seed);
    let ghost pool_views = id_views(shuffled@);
    shuffle_ids(&mut shuffled, &mut rng);
    let ghost mixed_views = id_views(shuffled@);
    shuffled.truncate(k);
    proof {
        assert(id_views(shuffled@) =~= mixed_views.take(k as int));
        lemma_prefix_submultiset(mixed_views, k as int);
        assert(id_views(shuffled@).to_multiset().subset_of(pool_views.to_multiset()));
        lemma_submultiset_membership(id_views(shuffled@), pool_views);
        if pool_views.no_duplicates() {
            lemma_submultiset_distinct(id_views(shuffled@), pool_views);
        }
    }
    shuffled
}

} // verus!
