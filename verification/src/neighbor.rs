use vstd::prelude::*;
use crate::random::{distinct_pair, lemma_shuffled_within_permutes, shuffle_range, shuffled_within};
use crate::tour::{is_tour, lemma_permutation_of_tour};

verus! {

/// `s` with the items at `i` and `j` exchanged.
pub open spec fn swapped(s: Seq<usize>, i: int, j: int) -> Seq<usize> {
    s.update(i, s[j]).update(j, s[i])
}

/// `s` with the item at `j` taken out and put back right after position `i`.
pub open spec fn moved(s: Seq<usize>, i: int, j: int) -> Seq<usize> {
    s.remove(j).insert(i + 1, s[j])
}

/// `s` with the items from `i` to `j`, both included, in reverse order.
pub open spec fn reversed(s: Seq<usize>, i: int, j: int) -> Seq<usize> {
    Seq::new(
        s.len(),
        |k: int|
            if i <= k <= j {
                s[i + j - k]
            } else {
                s[k]
            },
    )
}

/// Exchanging two items keeps the items.
pub proof fn lemma_swapped_permutes(s: Seq<usize>, i: int, j: int)
    requires
        0 <= i < s.len(),
        0 <= j < s.len(),
    ensures
        swapped(s, i, j).to_multiset() == s.to_multiset(),
{
    broadcast use vstd::multiset::group_multiset_axioms;

    let first = s.update(i, s[j]);
    vstd::seq_lib::to_multiset_update(s, i, s[j]);
    vstd::seq_lib::to_multiset_update(first, j, s[i]);
    vstd::seq_lib::to_multiset_contains(s, s[i]);
    vstd::seq_lib::to_multiset_contains(s, s[j]);
    assert(s.contains(s[i]));
    assert(s.contains(s[j]));
    assert(first[j] == s[j]);
    assert(swapped(s, i, j).to_multiset() =~= s.to_multiset());
}

/// Moving an item keeps the items.
pub proof fn lemma_moved_permutes(s: Seq<usize>, i: int, j: int)
    requires
        0 <= i < j < s.len(),
    ensures
        moved(s, i, j).to_multiset() == s.to_multiset(),
{
    broadcast use vstd::multiset::group_multiset_axioms;

    vstd::seq_lib::to_multiset_remove(s, j);
    vstd::seq_lib::to_multiset_insert(s.remove(j), i + 1, s[j]);
    vstd::seq_lib::to_multiset_contains(s, s[j]);
    assert(s.contains(s[j]));
    assert(moved(s, i, j).to_multiset() =~= s.to_multiset());
}

/// Reversing a part is one way of shuffling it.
pub proof fn lemma_reversed_shuffles(s: Seq<usize>, i: int, j: int)
    requires
        0 <= i <= j < s.len(),
    ensures
        shuffled_within(s, reversed(s, i, j), i, j + 1),
{
    let r = reversed(s, i, j);
    let part = s.subrange(i, j + 1);
    assert(r.subrange(i, j + 1) =~= part.reverse());
    part.lemma_reverse_to_multiset();
}

/// Reversing a part keeps the items.
pub proof fn lemma_reversed_permutes(s: Seq<usize>, i: int, j: int)
    requires
        0 <= i <= j < s.len(),
    ensures
        reversed(s, i, j).to_multiset() == s.to_multiset(),
{
    lemma_reversed_shuffles(s, i, j);
    lemma_shuffled_within_permutes(s, reversed(s, i, j), i, j + 1);
}

/// Each of the four moves turns a tour into a tour of the same cities.
pub proof fn lemma_moves_keep_tours(s: Seq<usize>, r: Seq<usize>, n: nat, i: int, j: int)
    requires
        is_tour(s, n),
        0 <= i < j < s.len(),
        r == swapped(s, i, j) || r == swapped(s, j, i) || r == moved(s, i, j) || r == reversed(
            s,
            i,
            j,
        ) || shuffled_within(s, r, i, j + 1),
    ensures
        is_tour(r, n),
        r.to_multiset() == s.to_multiset(),
{
    lemma_swapped_permutes(s, i, j);
    lemma_swapped_permutes(s, j, i);
    lemma_moved_permutes(s, i, j);
    lemma_reversed_permutes(s, i, j);
    if shuffled_within(s, r, i, j + 1) {
        lemma_shuffled_within_permutes(s, r, i, j + 1);
    }
    lemma_permutation_of_tour(s, r, n);
}

/// A copy of `solution` with the cities at positions `i` and `j` exchanged.
pub fn swap_at(solution: &Vec<usize>, i: usize, j: usize) -> (neighbor: Vec<usize>)
    requires
        i < solution.len(),
        j < solution.len(),
    ensures
        neighbor@ == swapped(solution@, i as int, j as int),
{
    let mut neighbor: Vec<usize> = solution.clone();
    assert(neighbor@ =~= solution@);
    let first: usize = solution[i];
    let second: usize = solution[j];
    neighbor.set(i, second);
    neighbor.set(j, first);
    neighbor
}

/// A copy of `solution` in which the city at position `j` has moved to the
/// place right after position `i`.
pub fn insert_at(solution: &Vec<usize>, i: usize, j: usize) -> (neighbor: Vec<usize>)
    requires
        i < j < solution.len(),
    ensures
        neighbor@ == moved(solution@, i as int, j as int),
{
    let mut neighbor: Vec<usize> = solution.clone();
    assert(neighbor@ =~= solution@);
    let moved_city: usize = neighbor.remove(j);
    neighbor.insert(i + 1, moved_city);
    neighbor
}

/// A copy of `solution` in which the cities from position `i` to position
/// `j`, both included, stand in reverse order.
pub fn reverse_at(solution: &Vec<usize>, i: usize, j: usize) -> (neighbor: Vec<usize>)
    requires
        i <= j < solution.len(),
    ensures
        neighbor@ == reversed(solution@, i as int, j as int),
{
    let n: usize = solution.len();
    let mut neighbor: Vec<usize> = Vec::new();
    let mut k: usize = 0;
    while k < n
        invariant
            k <= n,
            n == solution.len(),
            i <= j < n,
            neighbor.len() == k,
            forall|p: int|
                0 <= p < k ==> #[trigger] neighbor[p] == reversed(solution@, i as int, j as int)[p],
        decreases n - k,
    {
        let city: usize = if i <= k && k <= j {
            solution[i + (j - k)]
        } else {
            solution[k]
        };
        neighbor.push(city);
        k += 1;
    }
    assert(neighbor@ =~= reversed(solution@, i as int, j as int));
    neighbor
}

/// A copy of `solution` in which the cities from position `i` to position
/// `j`, both included, stand in a random order.
pub fn shuffle_at(solution: &Vec<usize>, i: usize, j: usize) -> (neighbor: Vec<usize>)
    requires
        i <= j < solution.len(),
    ensures
        shuffled_within(solution@, neighbor@, i as int, j + 1),
{
    let mut neighbor: Vec<usize> = solution.clone();
    assert(neighbor@ =~= solution@);
    let mut rng = rand::thread_rng();
    shuffle_range(&mut rng, &mut neighbor, i, j + 1);
    neighbor
}

/// Two positions below `bound`, the smaller one first.
fn ordered_pair(bound: usize) -> (pair: (usize, usize))
    requires
        bound >= 2,
    ensures
        pair.0 < pair.1 < bound,
{
    let mut rng = rand::thread_rng();
    let (first, second) = distinct_pair(&mut rng, bound);
    if first > second {
        (second, first)
    } else {
        (first, second)
    }
}

/// The swap move: two distinct positions are drawn at random and the cities
/// there change places.
pub fn swap(solution: &Vec<usize>) -> (neighbor: Vec<usize>)
    requires
        solution.len() >= 2,
    ensures
        exists|i: int, j: int|
            0 <= i < solution.len() && 0 <= j < solution.len() && i != j && neighbor@
                == #[trigger] swapped(solution@, i, j),
        neighbor@.to_multiset() == solution@.to_multiset(),
{
    let mut rng = rand::thread_rng();
    let (i, j) = distinct_pair(&mut rng, solution.len());
    proof {
        lemma_swapped_permutes(solution@, i as int, j as int);
    }
    swap_at(solution, i, j)
}

/// The insert move: two distinct positions `i < j` are drawn at random and
/// the city at `j` moves to the place right after `i`.
pub fn insert(solution: &Vec<usize>) -> (neighbor: Vec<usize>)
    requires
        solution.len() >= 2,
    ensures
        exists|i: int, j: int|
            0 <= i < j < solution.len() && neighbor@ == #[trigger] moved(solution@, i, j),
        neighbor@.to_multiset() == solution@.to_multiset(),
{
    let (i, j) = ordered_pair(solution.len());
    proof {
        lemma_moved_permutes(solution@, i as int, j as int);
    }
    insert_at(solution, i, j)
}

/// The reverse move: two distinct positions `i < j` are drawn at random and
/// the cities from `i` to `j` are put in reverse order.
pub fn reverse(solution: &Vec<usize>) -> (neighbor: Vec<usize>)
    requires
        solution.len() >= 2,
    ensures
        exists|i: int, j: int|
            0 <= i < j < solution.len() && neighbor@ == #[trigger] reversed(solution@, i, j),
        neighbor@.to_multiset() == solution@.to_multiset(),
{
    let (i, j) = ordered_pair(solution.len());
    proof {
        lemma_reversed_permutes(solution@, i as int, j as int);
    }
    reverse_at(solution, i, j)
}

/// The partial-shuffle move: two distinct positions `i < j` are drawn at
/// random and the cities from `i` to `j` are put in a random order.
pub fn partial_shuffle(solution: &Vec<usize>) -> (neighbor: Vec<usize>)
    requires
        solution.len() >= 2,
    ensures
        exists|i: int, j: int|
            0 <= i < j < solution.len() && #[trigger] shuffled_within(
                solution@,
                neighbor@,
                i,
                j + 1,
            ),
        neighbor@.to_multiset() == solution@.to_multiset(),
{
    let (i, j) = ordered_pair(solution.len());
    let neighbor = shuffle_at(solution, i, j);
    proof {
        lemma_shuffled_within_permutes(solution@, neighbor@, i as int, j + 1);
    }
    neighbor
}

} // verus!
