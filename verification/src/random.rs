use vstd::prelude::*;
use rand::Rng;
use rand::seq::SliceRandom;

verus! {

/// The thread-local random number generator of the `rand` crate.
#[verifier::external_type_specification]
#[verifier::external_body]
pub struct ExThreadRng(rand::rngs::ThreadRng);

/// `rand::thread_rng` hands out the generator of the calling thread.
/// Nothing is claimed of it.
pub assume_specification[ rand::thread_rng ]() -> (rng: rand::rngs::ThreadRng)
;

/// `after` holds the items of `before`: outside of `start..end` each at its
/// place, inside of it in some order.
pub open spec fn shuffled_within(
    before: Seq<usize>,
    after: Seq<usize>,
    start: int,
    end: int,
) -> bool {
    &&& after.len() == before.len()
    &&& forall|k: int| 0 <= k < start && k < before.len() ==> #[trigger] after[k] == before[k]
    &&& forall|k: int| end <= k < before.len() ==> #[trigger] after[k] == before[k]
    &&& after.subrange(start, end).to_multiset() == before.subrange(start, end).to_multiset()
}

/// `Rng::gen_range` on `0..bound`: some index below `bound`. The call
/// panics on an empty range, which `requires` leaves out.
#[verifier::external_body]
pub(crate) fn random_below(rng: &mut rand::rngs::ThreadRng, bound: usize) -> (index: usize)
    requires
        bound > 0,
    ensures
        index < bound,
{
    rng.gen_range(0..bound)
}

/// `SliceRandom::shuffle` on the part `start..end` of `items`: it swaps
/// items of that part among themselves, so the part keeps its items and the
/// rest of the vector stays as it was.
#[verifier::external_body]
pub(crate) fn shuffle_range(
    rng: &mut rand::rngs::ThreadRng,
    items: &mut Vec<usize>,
    start: usize,
    end: usize,
)
    requires
        start <= end <= old(items).len(),
    ensures
        shuffled_within(old(items)@, final(items)@, start as int, end as int),
{
    items[start..end].shuffle(rng)
}

/// Two distinct positions below `bound`, the first drawn from all of them
/// and the second from those that are left.
pub(crate) fn distinct_pair(rng: &mut rand::rngs::ThreadRng, bound: usize) -> (pair: (usize, usize))
    requires
        bound >= 2,
    ensures
        pair.0 < bound,
        pair.1 < bound,
        pair.0 != pair.1,
{
    let first: usize = random_below(rng, bound);
    let skipped: usize = random_below(rng, bound - 1);
    let second: usize = if skipped >= first {
        skipped + 1
    } else {
        skipped
    };
    (first, second)
}

/// A shuffle of a part of a sequence keeps the items of the whole.
pub proof fn lemma_shuffled_within_permutes(
    before: Seq<usize>,
    after: Seq<usize>,
    start: int,
    end: int,
)
    requires
        0 <= start <= end <= before.len(),
        shuffled_within(before, after, start, end),
    ensures
        after.to_multiset() == before.to_multiset(),
{
    let n = before.len() as int;
    assert(before =~= before.subrange(0, start) + before.subrange(start, end) + before.subrange(
        end,
        n,
    ));
    assert(after =~= after.subrange(0, start) + after.subrange(start, end) + after.subrange(
        end,
        n,
    ));
    assert(after.subrange(0, start) =~= before.subrange(0, start));
    assert(after.subrange(end, n) =~= before.subrange(end, n));
    vstd::seq_lib::lemma_multiset_commutative(
        before.subrange(0, start),
        before.subrange(start, end),
    );
    vstd::seq_lib::lemma_multiset_commutative(
        before.subrange(0, start) + before.subrange(start, end),
        before.subrange(end, n),
    );
    vstd::seq_lib::lemma_multiset_commutative(after.subrange(0, start), after.subrange(start, end));
    vstd::seq_lib::lemma_multiset_commutative(
        after.subrange(0, start) + after.subrange(start, end),
        after.subrange(end, n),
    );
}

} // verus!
