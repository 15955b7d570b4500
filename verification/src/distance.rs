use vstd::prelude::*;
use crate::error::TspError;

verus! {

/// The largest distance that a table over `n` cities may hold: with every
/// entry at most this, the sum of any `n` entries fits in a `u64`.
pub open spec fn edge_limit(n: nat) -> nat {
    if n == 0 {
        u64::MAX as nat
    } else {
        (u64::MAX as nat) / n
    }
}

/// A square table that is symmetric, zero on its diagonal, and whose entries
/// stay within [`edge_limit`].
pub open spec fn is_distance_matrix(m: Seq<Seq<u64>>) -> bool {
    &&& forall|i: int| 0 <= i < m.len() ==> (#[trigger] m[i]).len() == m.len()
    &&& forall|i: int| 0 <= i < m.len() ==> (#[trigger] m[i])[i] == 0
    &&& forall|i: int, j: int|
        0 <= i < m.len() && 0 <= j < m.len() ==> #[trigger] m[i][j] == m[j][i]
    &&& forall|i: int, j: int|
        0 <= i < m.len() && 0 <= j < m.len() ==> #[trigger] m[i][j] <= edge_limit(m.len())
}

/// `r` is the integer part of the square root of `n`.
pub open spec fn is_integer_sqrt(n: nat, r: nat) -> bool {
    r * r <= n < (r + 1) * (r + 1)
}

/// The integer part of the square root of `n`.
pub open spec fn integer_sqrt(n: nat) -> nat {
    choose|r: nat| is_integer_sqrt(n, r)
}

/// The sum of the squared differences of the first `k` coordinates.
pub open spec fn squared_gap(a: Seq<i64>, b: Seq<i64>, k: nat) -> nat
    decreases k,
{
    if k == 0 {
        0
    } else {
        let d = a[k - 1] - b[k - 1];
        squared_gap(a, b, (k - 1) as nat) + (d * d) as nat
    }
}

/// The squared Euclidean distance of two points of one dimension.
pub open spec fn squared_distance(a: Seq<i64>, b: Seq<i64>) -> nat {
    squared_gap(a, b, a.len())
}

/// The Euclidean distance of two points, rounded down to an integer.
pub open spec fn city_distance(a: Seq<i64>, b: Seq<i64>) -> nat {
    integer_sqrt(squared_distance(a, b))
}

/// All cities have the same number of coordinates.
pub open spec fn same_dimension(cities: Seq<Vec<i64>>) -> bool {
    forall|i: int, j: int|
        0 <= i < cities.len() && 0 <= j < cities.len() ==> (#[trigger] cities[i]).len() == (
        #[trigger] cities[j]).len()
}

/// Every pairwise distance stays within the limit for this number of cities.
pub open spec fn within_range(cities: Seq<Vec<i64>>) -> bool {
    forall|i: int, j: int|
        0 <= i < cities.len() && 0 <= j < cities.len() ==> #[trigger] city_distance(
            cities[i]@,
            cities[j]@,
        ) <= edge_limit(cities.len())
}

/// Two numbers with the defining property of the integer square root of `n`
/// are the same number.
pub proof fn lemma_integer_sqrt_unique(n: nat, r: nat, s: nat)
    requires
        is_integer_sqrt(n, r),
        is_integer_sqrt(n, s),
    ensures
        r == s,
{
    assert(r < s ==> (r + 1) * (r + 1) <= s * s) by (nonlinear_arith);
    assert(s < r ==> (s + 1) * (s + 1) <= r * r) by (nonlinear_arith);
}

/// Every natural number has an integer square root.
pub proof fn lemma_integer_sqrt_exists(n: nat)
    ensures
        is_integer_sqrt(n, integer_sqrt(n)),
    decreases n,
{
    if n == 0 {
        assert(is_integer_sqrt(0, 0)) by (nonlinear_arith);
    } else {
        lemma_integer_sqrt_exists((n - 1) as nat);
        let r = integer_sqrt((n - 1) as nat);
        if n < (r + 1) * (r + 1) {
            assert(is_integer_sqrt(n, r));
        } else {
            assert((r + 1) * (r + 1) < (r + 2) * (r + 2)) by (nonlinear_arith);
            assert(is_integer_sqrt(n, r + 1));
        }
    }
}

/// A number with the defining property is the integer square root.
pub proof fn lemma_integer_sqrt_is(n: nat, r: nat)
    requires
        is_integer_sqrt(n, r),
    ensures
        integer_sqrt(n) == r,
{
    lemma_integer_sqrt_unique(n, r, integer_sqrt(n));
}

/// The integer square root fits in 64 bits exactly when its argument fits
/// in 128 bits.
pub proof fn lemma_integer_sqrt_fits(n: nat)
    ensures
        integer_sqrt(n) <= u64::MAX <==> n <= u128::MAX,
{
    lemma_integer_sqrt_exists(n);
    let r = integer_sqrt(n);
    assert(r <= 0xffff_ffff_ffff_ffff ==> (r + 1) * (r + 1)
        <= 0x1_0000_0000_0000_0000_0000_0000_0000_0000) by (nonlinear_arith);
    assert(r >= 0x1_0000_0000_0000_0000 ==> r * r >= 0x1_0000_0000_0000_0000_0000_0000_0000_0000)
        by (nonlinear_arith);
}

/// The partial sums of squared differences only grow.
pub proof fn lemma_squared_gap_grows(a: Seq<i64>, b: Seq<i64>, k: nat, l: nat)
    requires
        k <= l,
    ensures
        squared_gap(a, b, k) <= squared_gap(a, b, l),
    decreases l,
{
    if k < l {
        lemma_squared_gap_grows(a, b, k, (l - 1) as nat);
    }
}

/// The squared distance does not depend on the order of the two points.
pub proof fn lemma_squared_gap_symmetric(a: Seq<i64>, b: Seq<i64>, k: nat)
    ensures
        squared_gap(a, b, k) == squared_gap(b, a, k),
    decreases k,
{
    if k > 0 {
        lemma_squared_gap_symmetric(a, b, (k - 1) as nat);
        let d = a[k - 1] - b[k - 1];
        let e = b[k - 1] - a[k - 1];
        assert(d * d == e * e) by (nonlinear_arith)
            requires
                e == -d,
        ;
    }
}

/// A point has squared distance zero to itself.
pub proof fn lemma_squared_gap_self(a: Seq<i64>, k: nat)
    ensures
        squared_gap(a, a, k) == 0,
    decreases k,
{
    if k > 0 {
        lemma_squared_gap_self(a, (k - 1) as nat);
    }
}

/// The integer part of the square root of `n`, by bisection.
pub fn integer_sqrt_of(n: u128) -> (r: u64)
    ensures
        r == integer_sqrt(n as nat),
{
    let mut low: u128 = 0;
    let mut high: u128 = 0x1_0000_0000_0000_0000;
    while high - low > 1
        invariant
            low < high <= 0x1_0000_0000_0000_0000,
            low * low <= n < high * high,
        decreases high - low,
    {
        let mid = low + (high - low) / 2;
        assert(mid * mid <= u128::MAX) by (nonlinear_arith)
            requires
                mid <= 0xffff_ffff_ffff_ffff,
        ;
        if mid * mid <= n {
            low = mid;
        } else {
            high = mid;
        }
    }
    proof {
        lemma_integer_sqrt_is(n as nat, low as nat);
    }
    low as u64
}


/// The Euclidean distance of two cities, rounded down to an integer.
///
/// Fails where the two differ in dimension, and where the distance does not
/// fit in 64 bits.
pub fn euclidean_distance(city1: &Vec<i64>, city2: &Vec<i64>) -> (r: Result<u64, TspError>)
    ensures
        city1.len() != city2.len() ==> r == Err::<u64, TspError>(TspError::DimensionMismatch),
        city1.len() == city2.len() && city_distance(city1@, city2@) > u64::MAX ==> r == Err::<
            u64,
            TspError,
        >(TspError::DistanceRange),
        city1.len() == city2.len() && city_distance(city1@, city2@) <= u64::MAX ==> r == Ok::<
            u64,
            TspError,
        >(city_distance(city1@, city2@) as u64),
{
    if city1.len() != city2.len() {
        return Err(TspError::DimensionMismatch);
    }
    let dimension: usize = city1.len();
    let mut total: u128 = 0;
    let mut k: usize = 0;
    while k < dimension
        invariant
            k <= dimension,
            dimension == city1.len(),
            dimension == city2.len(),
            total == squared_gap(city1@, city2@, k as nat),
        decreases dimension - k,
    {
        let gap: i128 = city1[k] as i128 - city2[k] as i128;
        let size: u128 = if gap < 0 {
            (-gap) as u128
        } else {
            gap as u128
        };
        assert(size * size == gap * gap && size * size <= u128::MAX) by (nonlinear_arith)
            requires
                size == gap || size == -gap,
                size <= 0xffff_ffff_ffff_ffff,
        ;
        let square: u128 = size * size;
        match total.checked_add(square) {
            Some(sum) => {
                total = sum;
            },
            None => {
                proof {
                    lemma_squared_gap_grows(city1@, city2@, (k + 1) as nat, dimension as nat);
                    lemma_integer_sqrt_fits(squared_distance(city1@, city2@));
                }
                return Err(TspError::DistanceRange);
            },
        }
        k += 1;
    }
    proof {
        lemma_integer_sqrt_fits(total as nat);
    }
    Ok(integer_sqrt_of(total))
}

/// The table of pairwise distances of a set of cities.
///
/// Its view is the table as a sequence of rows.
#[derive(Clone, Debug)]
pub struct DistanceMatrix {
    rows: Vec<Vec<u64>>,
}

impl View for DistanceMatrix {
    type V = Seq<Seq<u64>>;

    closed spec fn view(&self) -> Seq<Seq<u64>> {
        Seq::new(self.rows@.len(), |i: int| self.rows@[i]@)
    }
}

impl DistanceMatrix {
    /// The table is square, symmetric and zero on its diagonal, and no tour
    /// over it can be longer than a `u64` holds.
    pub open spec fn wf(&self) -> bool {
        is_distance_matrix(self@)
    }

    /// The number of cities.
    pub fn dimension(&self) -> (n: usize)
        ensures
            n == self@.len(),
    {
        self.rows.len()
    }

    /// The distance from one city to another.
    pub fn distance(&self, from: usize, to: usize) -> (d: u64)
        requires
            self.wf(),
            from < self@.len(),
            to < self@.len(),
        ensures
            d == self@[from as int][to as int],
    {
        assert(self@[from as int].len() == self@.len());
        self.rows[from][to]
    }
}

/// The table of pairwise distances of `cities`: each distance is computed
/// once and stands in both of its cells.
///
/// Fails where two cities differ in dimension, and where two cities lie
/// further apart than [`edge_limit`] allows for this number of cities.
pub fn calc_cities_distance(cities: &Vec<Vec<i64>>) -> (r: Result<DistanceMatrix, TspError>)
    ensures
        !same_dimension(cities@) ==> r is Err && r->Err_0 == TspError::DimensionMismatch,
        same_dimension(cities@) && !within_range(cities@) ==> r is Err && r->Err_0
            == TspError::DistanceRange,
        same_dimension(cities@) && within_range(cities@) ==> r is Ok,
        r matches Ok(m) ==> {
            &&& m.wf()
            &&& m@.len() == cities.len()
            &&& forall|i: int, j: int|
                0 <= i < cities.len() && 0 <= j < cities.len() ==> #[trigger] m@[i][j]
                    == city_distance(cities[i]@, cities[j]@)
        },
{
    let n: usize = cities.len();
    let mut c: usize = 1;
    while c < n
        invariant
            1 <= c,
            n == cities.len(),
            forall|i: int| 0 <= i < c && i < n ==> (#[trigger] cities[i]).len() == cities[0].len(),
        decreases n - c,
    {
        if cities[c].len() != cities[0].len() {
            return Err(TspError::DimensionMismatch);
        }
        c += 1;
    }
    assert(same_dimension(cities@));
    let limit: u64 = if n == 0 {
        u64::MAX
    } else {
        u64::MAX / (n as u64)
    };
    let mut rows: Vec<Vec<u64>> = Vec::new();
    let mut i: usize = 0;
    while i < n
        invariant
            i <= n,
            n == cities.len(),
            limit == edge_limit(n as nat),
            same_dimension(cities@),
            rows.len() == i,
            forall|a: int| 0 <= a < i ==> (#[trigger] rows[a]).len() == n,
            forall|a: int, b: int|
                0 <= a < i && 0 <= b < n ==> #[trigger] rows[a][b] == city_distance(
                    cities[a]@,
                    cities[b]@,
                ),
            forall|a: int, b: int| 0 <= a < i && 0 <= b < n ==> #[trigger] rows[a][b] <= limit,
        decreases n - i,
    {
        let mut row: Vec<u64> = Vec::new();
        let mut j: usize = 0;
        while j < n
            invariant
                i < n,
                j <= n,
                n == cities.len(),
                limit == edge_limit(n as nat),
                same_dimension(cities@),
                rows.len() == i,
                forall|a: int| 0 <= a < i ==> (#[trigger] rows[a]).len() == n,
                forall|a: int, b: int|
                    0 <= a < i && 0 <= b < n ==> #[trigger] rows[a][b] == city_distance(
                        cities[a]@,
                        cities[b]@,
                    ),
                forall|a: int, b: int| 0 <= a < i && 0 <= b < n ==> #[trigger] rows[a][b] <= limit,
                row.len() == j,
                forall|b: int|
                    0 <= b < j ==> #[trigger] row[b] == city_distance(
                        cities[i as int]@,
                        cities[b]@,
                    ),
                forall|b: int| 0 <= b < j ==> #[trigger] row[b] <= limit,
            decreases n - j,
        {
            if j < i {
                proof {
                    lemma_city_distance_symmetric(cities[j as int]@, cities[i as int]@);
                }
                let mirrored: u64 = rows[j][i];
                row.push(mirrored);
            } else if j == i {
                proof {
                    lemma_city_distance_self(cities[i as int]@);
                }
                row.push(0);
            } else {
                match euclidean_distance(&cities[i], &cities[j]) {
                    Ok(d) => {
                        if d > limit {
                            return Err(TspError::DistanceRange);
                        }
                        row.push(d);
                    },
                    Err(e) => {
                        return Err(e);
                    },
                }
            }
            j += 1;
        }
        rows.push(row);
        i += 1;
    }
    let matrix = DistanceMatrix { rows };
    proof {
        assert forall|a: int, b: int| 0 <= a < n && 0 <= b < n implies #[trigger] city_distance(
            cities[a]@,
            cities[b]@,
        ) <= edge_limit(n as nat) by {
            assert(matrix@[a][b] == city_distance(cities[a]@, cities[b]@));
        }
        assert forall|a: int, b: int| 0 <= a < n && 0 <= b < n implies #[trigger] matrix@[a][b]
            == matrix@[b][a] by {
            lemma_city_distance_symmetric(cities[a]@, cities[b]@);
        }
        assert forall|a: int| 0 <= a < n implies (#[trigger] matrix@[a])[a] == 0 by {
            lemma_city_distance_self(cities[a]@);
        }
    }
    Ok(matrix)
}

/// The distance of two cities does not depend on their order.
pub proof fn lemma_city_distance_symmetric(a: Seq<i64>, b: Seq<i64>)
    requires
        a.len() == b.len(),
    ensures
        city_distance(a, b) == city_distance(b, a),
{
    lemma_squared_gap_symmetric(a, b, a.len());
}

/// A city has distance zero to itself.
pub proof fn lemma_city_distance_self(a: Seq<i64>)
    ensures
        city_distance(a, a) == 0,
{
    lemma_squared_gap_self(a, a.len());
    assert(is_integer_sqrt(0, 0)) by (nonlinear_arith);
    lemma_integer_sqrt_is(0, 0);
}

} // verus!
