use vstd::prelude::*;
use crate::distance::{edge_limit, is_distance_matrix, DistanceMatrix};
use crate::error::TspError;
use crate::random::{lemma_shuffled_within_permutes, shuffle_range};

verus! {

/// `t` visits each of the cities `0..n` exactly once.
pub open spec fn is_tour(t: Seq<usize>, n: nat) -> bool {
    &&& t.len() == n
    &&& forall|i: int| 0 <= i < t.len() ==> #[trigger] t[i] < n
    &&& t.no_duplicates()
}

/// `t` is not empty, has one entry for each of the `n` cities, and names
/// only cities that exist: what it takes for `t` to have a length.
pub open spec fn is_route(t: Seq<usize>, n: nat) -> bool {
    &&& t.len() >= 1
    &&& t.len() == n
    &&& forall|i: int| 0 <= i < t.len() ==> #[trigger] t[i] < n
}

/// The sum of the first `k` edges of `t`, from each city to the next.
pub open spec fn path_sum(t: Seq<usize>, m: Seq<Seq<u64>>, k: nat) -> nat
    decreases k,
{
    if k == 0 {
        0
    } else {
        path_sum(t, m, (k - 1) as nat) + m[t[k - 1] as int][t[k as int] as int] as nat
    }
}

/// The length of the closed tour `t`: the edges from each city to the next,
/// and the edge from the last city back to the first.
pub open spec fn tour_length(t: Seq<usize>, m: Seq<Seq<u64>>) -> nat {
    if t.len() == 0 {
        0
    } else {
        path_sum(t, m, (t.len() - 1) as nat) + m[t[t.len() - 1] as int][t[0] as int] as nat
    }
}

/// The cities `0..n` in order.
pub open spec fn identity_tour(n: nat) -> Seq<usize> {
    Seq::new(n, |i: int| i as usize)
}

/// A sequence that holds the items of a tour, in any order, is a tour.
pub proof fn lemma_permutation_of_tour(t: Seq<usize>, p: Seq<usize>, n: nat)
    requires
        is_tour(t, n),
        p.to_multiset() == t.to_multiset(),
    ensures
        is_tour(p, n),
{
    vstd::seq_lib::to_multiset_len(t);
    vstd::seq_lib::to_multiset_len(p);
    assert forall|i: int| 0 <= i < p.len() implies #[trigger] p[i] < n by {
        vstd::seq_lib::to_multiset_contains(p, p[i]);
        vstd::seq_lib::to_multiset_contains(t, p[i]);
        assert(p.contains(p[i]));
        let k = choose|k: int| 0 <= k < t.len() && t[k] == p[i];
        assert(t[k] < n);
    }
    t.lemma_multiset_has_no_duplicates();
    p.lemma_multiset_has_no_duplicates_conv();
}

/// The first `k` edges of a route are together at most `k` times the limit
/// for one edge.
pub proof fn lemma_path_sum_bounded(t: Seq<usize>, m: Seq<Seq<u64>>, k: nat)
    requires
        is_distance_matrix(m),
        is_route(t, m.len()),
        k < t.len(),
    ensures
        path_sum(t, m, k) <= k * edge_limit(m.len()),
    decreases k,
{
    if k > 0 {
        lemma_path_sum_bounded(t, m, (k - 1) as nat);
        let q = edge_limit(m.len());
        assert(m[t[k - 1] as int][t[k as int] as int] <= q);
        assert((k - 1) * q + q == k * q) by (nonlinear_arith);
    }
}

/// The length of a route over a distance matrix fits in 64 bits.
pub proof fn lemma_tour_length_fits(t: Seq<usize>, m: Seq<Seq<u64>>)
    requires
        is_distance_matrix(m),
        is_route(t, m.len()),
    ensures
        tour_length(t, m) <= u64::MAX,
{
    let n = m.len();
    let q = edge_limit(n);
    lemma_path_sum_bounded(t, m, (n - 1) as nat);
    assert(m[t[n - 1] as int][t[0] as int] <= q);
    assert((n - 1) * q + q == n * q) by (nonlinear_arith);
    assert(n * (u64::MAX as nat / n) <= u64::MAX) by (nonlinear_arith)
        requires
            n > 0,
    ;
}

/// A random tour of `city_amount` cities.
pub fn initialize_solution(city_amount: usize) -> (solution: Vec<usize>)
    ensures
        is_tour(solution@, city_amount as nat),
{
    let mut solution: Vec<usize> = Vec::new();
    let mut city: usize = 0;
    while city < city_amount
        invariant
            city <= city_amount,
            solution@ == identity_tour(city as nat),
        decreases city_amount - city,
    {
        solution.push(city);
        city += 1;
    }
    let ghost ordered = solution@;
    let mut rng = rand::thread_rng();
    shuffle_range(&mut rng, &mut solution, 0, city_amount);
    proof {
        assert(is_tour(ordered, city_amount as nat));
        lemma_shuffled_within_permutes(ordered, solution@, 0, city_amount as int);
        lemma_permutation_of_tour(ordered, solution@, city_amount as nat);
    }
    solution
}

/// The length of the closed tour `solution` over `distance`, for a tour
/// that is known to have one.
pub(crate) fn route_length(solution: &Vec<usize>, distance: &DistanceMatrix) -> (length: u64)
    requires
        distance.wf(),
        is_route(solution@, distance@.len()),
    ensures
        length == tour_length(solution@, distance@),
{
    let n: usize = solution.len();
    let mut length: u64 = 0;
    let mut k: usize = 0;
    while k < n - 1
        invariant
            k <= n - 1,
            n == solution.len(),
            distance.wf(),
            is_route(solution@, distance@.len()),
            length == path_sum(solution@, distance@, k as nat),
        decreases n - 1 - k,
    {
        proof {
            lemma_path_sum_grows(solution@, distance@, (k + 1) as nat, (n - 1) as nat);
            lemma_tour_length_fits(solution@, distance@);
        }
        length = length + distance.distance(solution[k], solution[k + 1]);
        k += 1;
    }
    proof {
        lemma_tour_length_fits(solution@, distance@);
    }
    length + distance.distance(solution[n - 1], solution[0])
}

/// The length of the closed tour `solution` over `distance`: the sum of the
/// edges from each city to the next and of the edge from the last city back
/// to the first.
///
/// Fails where `solution` is empty, does not have one entry for each city,
/// or names a city that `distance` does not have.
pub fn calc_path_length(solution: &Vec<usize>, distance: &DistanceMatrix) -> (r: Result<
    u64,
    TspError,
>)
    requires
        distance.wf(),
    ensures
        is_route(solution@, distance@.len()) ==> r == Ok::<u64, TspError>(
            tour_length(solution@, distance@) as u64,
        ) && tour_length(solution@, distance@) <= u64::MAX,
        !is_route(solution@, distance@.len()) ==> r == Err::<u64, TspError>(
            TspError::InvariantViolation,
        ),
{
    let n: usize = solution.len();
    if n == 0 || n != distance.dimension() {
        return Err(TspError::InvariantViolation);
    }
    let mut c: usize = 0;
    while c < n
        invariant
            c <= n,
            n == solution.len(),
            n == distance@.len(),
            forall|i: int| 0 <= i < c ==> #[trigger] solution[i] < n,
        decreases n - c,
    {
        if solution[c] >= n {
            return Err(TspError::InvariantViolation);
        }
        c += 1;
    }
    Ok(route_length(solution, distance))
}

/// The sum of the first edges of a tour only grows with their number.
pub proof fn lemma_path_sum_grows(t: Seq<usize>, m: Seq<Seq<u64>>, k: nat, l: nat)
    requires
        k <= l,
    ensures
        path_sum(t, m, k) <= path_sum(t, m, l),
    decreases l,
{
    if k < l {
        lemma_path_sum_grows(t, m, k, (l - 1) as nat);
    }
}

} // verus!
