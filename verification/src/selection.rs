use vstd::prelude::*;
use crate::error::TspError;
use crate::random::distinct_pair;

verus! {

/// The winner of a round between two candidates: the one with the shorter
/// tour, and the second of the two where their tours are equally long.
pub open spec fn round_winner(lengths: Seq<u64>, round: (usize, usize)) -> usize {
    if lengths[round.0 as int] < lengths[round.1 as int] {
        round.0
    } else {
        round.1
    }
}

/// The number of `rounds` that candidate `c` has won.
pub open spec fn wins(lengths: Seq<u64>, rounds: Seq<(usize, usize)>, c: int) -> nat
    decreases rounds.len(),
{
    if rounds.len() == 0 {
        0
    } else {
        wins(lengths, rounds.drop_last(), c) + if round_winner(lengths, rounds.last()) == c {
            1nat
        } else {
            0nat
        }
    }
}

/// Each round is between two different candidates out of `m`.
pub open spec fn valid_rounds(rounds: Seq<(usize, usize)>, m: nat) -> bool {
    forall|k: int|
        0 <= k < rounds.len() ==> {
            let round = #[trigger] rounds[k];
            round.0 < m && round.1 < m && round.0 != round.1
        }
}

/// Candidate `k` has won the most rounds, and no candidate before it has
/// won as many.
pub open spec fn is_selected(lengths: Seq<u64>, rounds: Seq<(usize, usize)>, k: int) -> bool {
    &&& 0 <= k < lengths.len()
    &&& forall|c: int|
        0 <= c < lengths.len() ==> #[trigger] wins(lengths, rounds, c) <= wins(lengths, rounds, k)
    &&& forall|c: int| 0 <= c < k ==> #[trigger] wins(lengths, rounds, c) < wins(lengths, rounds, k)
}

/// The number of rounds of a tournament among `m` candidates: one for each
/// candidate, and none where there are not two candidates to draw.
pub open spec fn tournament_rounds(m: nat) -> nat {
    if m >= 2 {
        m
    } else {
        0
    }
}

/// No candidate wins more rounds than were played.
pub proof fn lemma_wins_bounded(lengths: Seq<u64>, rounds: Seq<(usize, usize)>, c: int)
    ensures
        wins(lengths, rounds, c) <= rounds.len(),
    decreases rounds.len(),
{
    if rounds.len() > 0 {
        lemma_wins_bounded(lengths, rounds.drop_last(), c);
    }
}

/// At most one candidate is selected.
pub proof fn lemma_selected_unique(
    lengths: Seq<u64>,
    rounds: Seq<(usize, usize)>,
    k1: int,
    k2: int,
)
    requires
        is_selected(lengths, rounds, k1),
        is_selected(lengths, rounds, k2),
    ensures
        k1 == k2,
{
    if k1 < k2 {
        assert(wins(lengths, rounds, k1) < wins(lengths, rounds, k2));
        assert(wins(lengths, rounds, k2) <= wins(lengths, rounds, k1));
    } else if k2 < k1 {
        assert(wins(lengths, rounds, k2) < wins(lengths, rounds, k1));
        assert(wins(lengths, rounds, k1) <= wins(lengths, rounds, k2));
    }
}

/// A candidate whose tour is shorter than every other wins each round that
/// it takes part in, and so as many rounds as it takes part in.
pub proof fn lemma_shortest_wins_round(lengths: Seq<u64>, round: (usize, usize), k: int)
    requires
        0 <= k < lengths.len(),
        forall|c: int| 0 <= c < lengths.len() && c != k ==> lengths[k] < #[trigger] lengths[c],
        round.0 < lengths.len(),
        round.1 < lengths.len(),
        round.0 != round.1,
        round.0 == k || round.1 == k,
    ensures
        round_winner(lengths, round) == k,
{
}

/// The number of `rounds` that candidate `c` takes part in.
pub open spec fn plays(rounds: Seq<(usize, usize)>, c: int) -> nat
    decreases rounds.len(),
{
    if rounds.len() == 0 {
        0
    } else {
        plays(rounds.drop_last(), c) + if rounds.last().0 == c || rounds.last().1 == c {
            1nat
        } else {
            0nat
        }
    }
}

/// A candidate whose tour is shorter than every other wins every round that
/// it takes part in.
pub proof fn lemma_shortest_wins_its_rounds(lengths: Seq<u64>, rounds: Seq<(usize, usize)>, k: int)
    requires
        0 <= k < lengths.len(),
        forall|c: int| 0 <= c < lengths.len() && c != k ==> lengths[k] < #[trigger] lengths[c],
        valid_rounds(rounds, lengths.len()),
    ensures
        wins(lengths, rounds, k) == plays(rounds, k),
    decreases rounds.len(),
{
    if rounds.len() > 0 {
        let before = rounds.drop_last();
        assert forall|i: int| 0 <= i < before.len() implies {
            let round = #[trigger] before[i];
            round.0 < lengths.len() && round.1 < lengths.len() && round.0 != round.1
        } by {
            assert(before[i] == rounds[i]);
        }
        lemma_shortest_wins_its_rounds(lengths, before, k);
        let round = rounds.last();
        assert(round == rounds[rounds.len() - 1]);
        if round.0 == k || round.1 == k {
            lemma_shortest_wins_round(lengths, round, k);
        } else {
            assert(round_winner(lengths, round) != k);
        }
    }
}

/// Of two candidates with tours of different length, a tournament of at
/// least one round selects the one with the shorter tour.
pub proof fn lemma_shorter_of_two_is_selected(
    lengths: Seq<u64>,
    rounds: Seq<(usize, usize)>,
    k: int,
)
    requires
        lengths.len() == 2,
        lengths[0] != lengths[1],
        rounds.len() >= 1,
        valid_rounds(rounds, 2),
        is_selected(lengths, rounds, k),
    ensures
        lengths[k] < lengths[1 - k],
{
    let shorter: int = if lengths[0] < lengths[1] {
        0
    } else {
        1
    };
    lemma_shortest_wins_its_rounds(lengths, rounds, shorter);
    lemma_plays_every_round_of_two(rounds, shorter);
    lemma_wins_add_up(lengths, rounds);
    assert(wins(lengths, rounds, shorter) == rounds.len());
    assert(wins(lengths, rounds, 1 - shorter) == 0);
    if k != shorter {
        assert(wins(lengths, rounds, shorter) <= wins(lengths, rounds, k));
    }
}

/// Where there are two candidates, each takes part in every round.
proof fn lemma_plays_every_round_of_two(rounds: Seq<(usize, usize)>, c: int)
    requires
        0 <= c < 2,
        valid_rounds(rounds, 2),
    ensures
        plays(rounds, c) == rounds.len(),
    decreases rounds.len(),
{
    if rounds.len() > 0 {
        let before = rounds.drop_last();
        assert forall|i: int| 0 <= i < before.len() implies {
            let round = #[trigger] before[i];
            round.0 < 2 && round.1 < 2 && round.0 != round.1
        } by {
            assert(before[i] == rounds[i]);
        }
        lemma_plays_every_round_of_two(before, c);
        assert(rounds.last() == rounds[rounds.len() - 1]);
    }
}

/// Where there are two candidates, their wins add up to the number of
/// rounds.
proof fn lemma_wins_add_up(lengths: Seq<u64>, rounds: Seq<(usize, usize)>)
    requires
        lengths.len() == 2,
        valid_rounds(rounds, 2),
    ensures
        wins(lengths, rounds, 0) + wins(lengths, rounds, 1) == rounds.len(),
    decreases rounds.len(),
{
    if rounds.len() > 0 {
        let before = rounds.drop_last();
        assert forall|i: int| 0 <= i < before.len() implies {
            let round = #[trigger] before[i];
            round.0 < 2 && round.1 < 2 && round.0 != round.1
        } by {
            assert(before[i] == rounds[i]);
        }
        lemma_wins_add_up(lengths, before);
        assert(rounds.last() == rounds[rounds.len() - 1]);
    }
}

/// For each candidate the number of rounds that it has won.
fn tally_wins(lengths: &Vec<u64>, rounds: &Vec<(usize, usize)>) -> (count: Vec<usize>)
    requires
        valid_rounds(rounds@, lengths.len() as nat),
    ensures
        count.len() == lengths.len(),
        forall|c: int| 0 <= c < lengths.len() ==> #[trigger] count[c] == wins(lengths@, rounds@, c),
{
    let m: usize = lengths.len();
    let mut count: Vec<usize> = Vec::new();
    let mut c: usize = 0;
    while c < m
        invariant
            c <= m,
            count.len() == c,
            forall|p: int| 0 <= p < c ==> #[trigger] count[p] == 0,
        decreases m - c,
    {
        count.push(0);
        c += 1;
    }
    let mut k: usize = 0;
    while k < rounds.len()
        invariant
            k <= rounds.len(),
            m == lengths.len(),
            count.len() == m,
            valid_rounds(rounds@, m as nat),
            forall|p: int|
                0 <= p < m ==> #[trigger] count[p] == wins(lengths@, rounds@.take(k as int), p),
        decreases rounds.len() - k,
    {
        let round: (usize, usize) = rounds[k];
        assert(round == rounds@[k as int]);
        let winner: usize = if lengths[round.0] < lengths[round.1] {
            round.0
        } else {
            round.1
        };
        proof {
            let played = rounds@.take(k + 1);
            assert(played.drop_last() =~= rounds@.take(k as int));
            assert(played.last() == round);
            lemma_wins_bounded(lengths@, rounds@.take(k as int), winner as int);
        }
        let won: usize = count[winner];
        count.set(winner, won + 1);
        k += 1;
    }
    assert(rounds@.take(rounds.len() as int) =~= rounds@);
    count
}

/// The first position that holds the largest number.
fn most_wins(count: &Vec<usize>) -> (best: usize)
    requires
        count.len() >= 1,
    ensures
        best < count.len(),
        forall|c: int| 0 <= c < count.len() ==> #[trigger] count[c] <= count[best as int],
        forall|c: int| 0 <= c < best ==> #[trigger] count[c] < count[best as int],
{
    let mut best: usize = 0;
    let mut c: usize = 1;
    while c < count.len()
        invariant
            1 <= c <= count.len(),
            best < c,
            forall|p: int| 0 <= p < c ==> #[trigger] count[p] <= count[best as int],
            forall|p: int| 0 <= p < best ==> #[trigger] count[p] < count[best as int],
        decreases count.len() - c,
    {
        if count[c] > count[best] {
            best = c;
        }
        c += 1;
    }
    best
}

/// Tells whether each round is between two different candidates out of `m`.
fn check_rounds(rounds: &Vec<(usize, usize)>, m: usize) -> (ok: bool)
    ensures
        ok == valid_rounds(rounds@, m as nat),
{
    let mut k: usize = 0;
    while k < rounds.len()
        invariant
            k <= rounds.len(),
            valid_rounds(rounds@.take(k as int), m as nat),
        decreases rounds.len() - k,
    {
        let round: (usize, usize) = rounds[k];
        if round.0 >= m || round.1 >= m || round.0 == round.1 {
            assert(round == rounds@[k as int]);
            return false;
        }
        assert forall|p: int| 0 <= p < k + 1 implies {
            let r = #[trigger] rounds@.take(k + 1)[p];
            r.0 < m && r.1 < m && r.0 != r.1
        } by {
            if p < k {
                assert(rounds@.take(k + 1)[p] == rounds@.take(k as int)[p]);
            }
        }
        k += 1;
    }
    assert(rounds@.take(rounds.len() as int) =~= rounds@);
    true
}

/// The candidate with the most wins, and the first of several.
fn winner_of(lengths: &Vec<u64>, rounds: &Vec<(usize, usize)>) -> (best: usize)
    requires
        lengths.len() >= 1,
        valid_rounds(rounds@, lengths.len() as nat),
    ensures
        is_selected(lengths@, rounds@, best as int),
{
    let count = tally_wins(lengths, rounds);
    let best = most_wins(&count);
    proof {
        assert forall|c: int| 0 <= c < lengths.len() implies #[trigger] wins(lengths@, rounds@, c)
            <= wins(lengths@, rounds@, best as int) by {
            assert(count[c] <= count[best as int]);
        }
        assert forall|c: int| 0 <= c < best implies #[trigger] wins(lengths@, rounds@, c) < wins(
            lengths@,
            rounds@,
            best as int,
        ) by {
            assert(count[c] < count[best as int]);
        }
    }
    best
}

/// The candidate that a tournament selects, given the length of each
/// candidate's tour and the rounds that were drawn: the one that has won
/// the most rounds, and among several of those the first.
///
/// Fails where there is no candidate, and where a round is not between two
/// different candidates.
pub fn select_candidate(lengths: &Vec<u64>, rounds: &Vec<(usize, usize)>) -> (r: Result<
    usize,
    TspError,
>)
    ensures
        lengths.len() >= 1 && valid_rounds(rounds@, lengths.len() as nat) ==> r is Ok
            && is_selected(lengths@, rounds@, r->Ok_0 as int),
        !(lengths.len() >= 1 && valid_rounds(rounds@, lengths.len() as nat)) ==> r == Err::<
            usize,
            TspError,
        >(TspError::InvariantViolation),
{
    if lengths.len() == 0 || !check_rounds(rounds, lengths.len()) {
        return Err(TspError::InvariantViolation);
    }
    Ok(winner_of(lengths, rounds))
}

/// As many rounds as a tournament among `m` candidates has, each between
/// two different candidates drawn at random.
fn draw_rounds(m: usize) -> (rounds: Vec<(usize, usize)>)
    ensures
        rounds.len() == tournament_rounds(m as nat),
        valid_rounds(rounds@, m as nat),
{
    let mut rounds: Vec<(usize, usize)> = Vec::new();
    if m < 2 {
        return rounds;
    }
    let mut rng = rand::thread_rng();
    let mut k: usize = 0;
    while k < m
        invariant
            k <= m,
            m >= 2,
            rounds.len() == k,
            valid_rounds(rounds@, m as nat),
        decreases m - k,
    {
        let round: (usize, usize) = distinct_pair(&mut rng, m);
        rounds.push(round);
        k += 1;
    }
    rounds
}

/// The tournament among candidates of which there is at least one, each
/// with its length.
pub(crate) fn run_tournament(candidates: &Vec<Vec<usize>>, lengths: &Vec<u64>) -> (chosen: Vec<
    usize,
>)
    requires
        candidates.len() >= 1,
        candidates.len() == lengths.len(),
    ensures
        exists|rounds: Seq<(usize, usize)>, k: int|
            {
                &&& rounds.len() == tournament_rounds(candidates.len() as nat)
                &&& valid_rounds(rounds, candidates.len() as nat)
                &&& #[trigger] is_selected(lengths@, rounds, k)
                &&& chosen@ == candidates[k]@
            },
{
    let rounds = draw_rounds(candidates.len());
    let best = winner_of(lengths, &rounds);
    let chosen: Vec<usize> = candidates[best].clone();
    assert(chosen@ =~= candidates[best as int]@);
    chosen
}

/// The tournament among the candidate tours of one member: as many rounds
/// as there are candidates, each between two different candidates drawn at
/// random and won by the shorter tour. The tour of the candidate with the
/// most wins is returned, and the first of them where several have as many.
/// A single candidate is returned as it is.
///
/// Fails where there is no candidate, and where `lengths` does not hold one
/// length for each candidate.
pub fn onlooker_bee(candidates: &Vec<Vec<usize>>, lengths: &Vec<u64>) -> (r: Result<
    Vec<usize>,
    TspError,
>)
    ensures
        candidates.len() >= 1 && candidates.len() == lengths.len() ==> r is Ok && exists|
            rounds: Seq<(usize, usize)>,
            k: int,
        |
            {
                &&& rounds.len() == tournament_rounds(candidates.len() as nat)
                &&& valid_rounds(rounds, candidates.len() as nat)
                &&& #[trigger] is_selected(lengths@, rounds, k)
                &&& r->Ok_0@ == candidates[k]@
            },
        !(candidates.len() >= 1 && candidates.len() == lengths.len()) ==> r is Err && r->Err_0
            == TspError::InvariantViolation,
{
    if candidates.len() == 0 || candidates.len() != lengths.len() {
        return Err(TspError::InvariantViolation);
    }
    Ok(run_tournament(candidates, lengths))
}

} // verus!
