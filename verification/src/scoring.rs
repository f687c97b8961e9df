//! Points for a guess against the official result of its race.

use crate::models::{Guess, RaceResult, ScoredGuess};
use crate::text::{
    lemma_same_ignoring_case_symmetric, lemma_same_ignoring_case_transitive, same_ignoring_case,
};
use vstd::hash_map::StringHashMap;
use vstd::prelude::*;

verus! {

/// Points for a driver guessed at the right place among the first three.
pub const CORRECT_PODIUM: u16 = 3;

/// Points for a driver guessed at the right place in fourth or fifth.
pub const CORRECT_FIVE: u16 = 6;

/// Points for a driver who finished in the first five, but elsewhere.
pub const WRONG_PLACE: u16 = 1;

/// Bonus for a guess whose five places add up to three podium hits and two
/// hits in fourth and fifth.
pub const PARLAY: u16 = 4;

/// Whether `code` is one of the codes of `result`, ASCII case set aside.
pub open spec fn appears_in(code: Seq<char>, result: Seq<Seq<char>>) -> bool {
    exists|j: int| 0 <= j < result.len() && same_ignoring_case(code, #[trigger] result[j])
}

/// The points that place `pos` (counted from 0) of `picks` earns against
/// `result`.
pub open spec fn place_points(picks: Seq<Seq<char>>, result: Seq<Seq<char>>, pos: int) -> int {
    if same_ignoring_case(picks[pos], result[pos]) {
        if pos < 3 {
            CORRECT_PODIUM as int
        } else {
            CORRECT_FIVE as int
        }
    } else if appears_in(picks[pos], result) {
        WRONG_PLACE as int
    } else {
        0
    }
}

/// The points of the places before `pos` together.
pub open spec fn points_before(picks: Seq<Seq<char>>, result: Seq<Seq<char>>, pos: int) -> int
    decreases pos,
{
    if pos <= 0 {
        0
    } else {
        points_before(picks, result, pos - 1) + place_points(picks, result, pos - 1)
    }
}

/// The points of the five places together, before any bonus.
pub open spec fn base_points(picks: Seq<Seq<char>>, result: Seq<Seq<char>>) -> int {
    points_before(picks, result, 5)
}

/// The sum that earns the bonus.
pub open spec fn parlay_sum() -> int {
    3 * CORRECT_PODIUM + 2 * CORRECT_FIVE
}

/// The points of a guess against a result: the five places, and the bonus
/// where they add up to exactly the bonus sum.
pub open spec fn guess_points(picks: Seq<Seq<char>>, result: Seq<Seq<char>>) -> int {
    let base = base_points(picks, result);
    if base == parlay_sum() {
        base + PARLAY
    } else {
        base
    }
}

/// The code at place `pos` of a result.
fn result_code(result: &RaceResult, pos: usize) -> (code: &String)
    requires
        pos < 5,
    ensures
        code@ == result.positions()[pos as int],
{
    if pos == 0 {
        &result.p1
    } else if pos == 1 {
        &result.p2
    } else if pos == 2 {
        &result.p3
    } else if pos == 3 {
        &result.p4
    } else {
        &result.p5
    }
}

/// The code at place `pos` of a guess.
fn guess_code(guess: &Guess, pos: usize) -> (code: &String)
    requires
        pos < 5,
    ensures
        code@ == guess.positions()[pos as int],
{
    if pos == 0 {
        &guess.p1
    } else if pos == 1 {
        &guess.p2
    } else if pos == 2 {
        &guess.p3
    } else if pos == 3 {
        &guess.p4
    } else {
        &guess.p5
    }
}

/// Whether `code` finished among the first five of `result`.
fn finished(code: &String, result: &RaceResult) -> (found: bool)
    ensures
        found == appears_in(code@, result.positions()),
{
    let mut j: usize = 0;
    while j < 5
        invariant
            j <= 5,
            forall|k: int| 0 <= k < j ==> !same_ignoring_case(code@, result.positions()[k]),
        decreases 5 - j,
    {
        if code.eq_ignore_ascii_case(result_code(result, j)) {
            return true;
        }
        j += 1;
    }
    false
}

/// Scores one guess against the result of its race: 3 for each of the
/// first three places guessed exactly, 6 for each of the fourth and fifth,
/// 1 for a driver who finished among the five at another place, and 4 more
/// when the places add up to 21.
pub fn score_against(guess: &Guess, result: &RaceResult) -> (points: u16)
    ensures
        points == guess_points(guess.positions(), result.positions()),
        points <= 25,
{
    let mut score: u16 = 0;
    let mut pos: usize = 0;
    while pos < 5
        invariant
            pos <= 5,
            score == points_before(guess.positions(), result.positions(), pos as int),
            score <= if pos <= 3 {
                3 * pos
            } else {
                6 * pos - 9
            },
        decreases 5 - pos,
    {
        let pick = guess_code(guess, pos);
        if pick.eq_ignore_ascii_case(result_code(result, pos)) {
            score += if pos < 3 {
                CORRECT_PODIUM
            } else {
                CORRECT_FIVE
            };
        } else if finished(pick, result) {
            score += WRONG_PLACE;
        }
        pos += 1;
    }
    if score == 3 * CORRECT_PODIUM + 2 * CORRECT_FIVE {
        score += PARLAY;
    }
    score
}

/// The official results, found by the name of their race.
pub struct ResultIndex {
    by_race: StringHashMap<RaceResult>,
}

/// The lookup that a list of results stands for: each result under the name
/// of its race, spelled as it is; of two results of one race the later one.
pub open spec fn indexed(results: Seq<RaceResult>) -> Map<Seq<char>, RaceResult>
    decreases results.len(),
{
    if results.len() == 0 {
        Map::empty()
    } else {
        indexed(results.drop_last()).insert(results.last().race@, results.last())
    }
}

impl View for ResultIndex {
    type V = Map<Seq<char>, RaceResult>;

    closed spec fn view(&self) -> Map<Seq<char>, RaceResult> {
        self.by_race@
    }
}

impl ResultIndex {
    /// Files every result under the name of its race. Where two results
    /// name one race, the later of the two is kept.
    pub fn build(results: Vec<RaceResult>) -> (index: ResultIndex)
        ensures
            index@ == indexed(results@),
    {
        let ghost all = results@;
        let mut by_race: StringHashMap<RaceResult> = StringHashMap::new();
        for result in it: results
            invariant
                it.seq() == all,
                by_race@ == indexed(all.take(it.index() as int)),
        {
            assert(all.take(it.index() + 1).drop_last() =~= all.take(it.index() as int));
            let race = result.race.clone();
            by_race.insert(race, result);
        }
        assert(all.take(all.len() as int) =~= all);
        ResultIndex { by_race }
    }

    /// The result of `race`, if one is known.
    pub fn get(&self, race: &str) -> (found: Option<&RaceResult>)
        ensures
            match found {
                Some(result) => self@.contains_key(race@) && *result == self@[race@],
                None => !self@.contains_key(race@),
            },
    {
        self.by_race.get(race)
    }
}

/// The points of a guess against what is known of its race: none while the
/// race has no result.
pub open spec fn score_for(guess: Guess, results: Map<Seq<char>, RaceResult>) -> int {
    if results.contains_key(guess.race@) {
        guess_points(guess.positions(), results[guess.race@].positions())
    } else {
        0
    }
}

/// Scores a guess against the result filed under its race; a guess for a
/// race without a result scores 0.
pub fn score_guess(guess: &Guess, results: &ResultIndex) -> (points: u16)
    ensures
        points == score_for(*guess, results@),
        points <= 25,
{
    match results.get(guess.race.as_str()) {
        Some(result) => score_against(guess, result),
        None => 0,
    }
}

/// Scores every guess, in the order given.
pub fn scored_guesses<'a>(guesses: &'a [Guess], results: &ResultIndex) -> (scored: Vec<
    ScoredGuess<'a>,
>)
    ensures
        scored.len() == guesses.len(),
        forall|i: int|
            0 <= i < guesses.len() ==> *(#[trigger] scored[i]).guess == guesses[i]
                && scored[i].points == score_for(guesses[i], results@),
{
    let mut scored: Vec<ScoredGuess<'a>> = Vec::new();
    let mut i: usize = 0;
    while i < guesses.len()
        invariant
            i <= guesses.len(),
            scored.len() == i,
            forall|k: int|
                0 <= k < i ==> *(#[trigger] scored[k]).guess == guesses[k] && scored[k].points
                    == score_for(guesses[k], results@),
        decreases guesses.len() - i,
    {
        let guess = &guesses[i];
        scored.push(ScoredGuess { guess, points: score_guess(guess, results) });
        i += 1;
    }
    scored
}

/// Whether two lists of five codes are the same place by place, ASCII case
/// set aside.
pub open spec fn same_codes(a: Seq<Seq<char>>, b: Seq<Seq<char>>) -> bool {
    &&& a.len() == 5
    &&& b.len() == 5
    &&& forall|i: int| 0 <= i < 5 ==> same_ignoring_case(#[trigger] a[i], b[i])
}

/// Comparing two codes gives the same answer after the case of either has
/// been changed.
proof fn lemma_same_after_recasing(a: Seq<char>, a2: Seq<char>, b: Seq<char>, b2: Seq<char>)
    requires
        same_ignoring_case(a, a2),
        same_ignoring_case(b, b2),
    ensures
        same_ignoring_case(a, b) == same_ignoring_case(a2, b2),
{
    lemma_same_ignoring_case_symmetric(a, a2);
    lemma_same_ignoring_case_symmetric(b, b2);
    if same_ignoring_case(a, b) {
        lemma_same_ignoring_case_transitive(a2, a, b);
        lemma_same_ignoring_case_transitive(a2, b, b2);
    }
    if same_ignoring_case(a2, b2) {
        lemma_same_ignoring_case_transitive(a, a2, b2);
        lemma_same_ignoring_case_transitive(a, b2, b);
    }
}

/// Whether a code finished is not a matter of case either.
proof fn lemma_appears_after_recasing(
    code: Seq<char>,
    code2: Seq<char>,
    result: Seq<Seq<char>>,
    result2: Seq<Seq<char>>,
)
    requires
        same_ignoring_case(code, code2),
        same_codes(result, result2),
    ensures
        appears_in(code, result) == appears_in(code2, result2),
{
    if appears_in(code, result) {
        let j = choose|j: int| 0 <= j < result.len() && same_ignoring_case(code, #[trigger] result[j]);
        lemma_same_after_recasing(code, code2, result[j], result2[j]);
        assert(same_ignoring_case(code2, result2[j]));
    }
    if appears_in(code2, result2) {
        let j = choose|j: int|
            0 <= j < result2.len() && same_ignoring_case(code2, #[trigger] result2[j]);
        lemma_same_after_recasing(code, code2, result[j], result2[j]);
        assert(same_ignoring_case(code, result[j]));
    }
}

/// The score does not depend on the case of any driver code: changing the
/// case of the letters of the guess, of the result, or of both leaves the
/// points as they were.
pub proof fn lemma_score_ignores_case(
    picks: Seq<Seq<char>>,
    picks2: Seq<Seq<char>>,
    result: Seq<Seq<char>>,
    result2: Seq<Seq<char>>,
)
    requires
        same_codes(picks, picks2),
        same_codes(result, result2),
    ensures
        guess_points(picks, result) == guess_points(picks2, result2),
{
    reveal_with_fuel(points_before, 6);
    assert forall|pos: int| 0 <= pos < 5 implies place_points(picks, result, pos) == place_points(
        picks2,
        result2,
        pos,
    ) by {
        lemma_same_after_recasing(picks[pos], picks2[pos], result[pos], result2[pos]);
        lemma_appears_after_recasing(picks[pos], picks2[pos], result, result2);
    }
}

/// A guess that names the five finishers in their order earns 25 points:
/// three times 3, twice 6, and the bonus of 4.
pub proof fn lemma_perfect_guess_scores_25(picks: Seq<Seq<char>>, result: Seq<Seq<char>>)
    requires
        same_codes(picks, result),
    ensures
        guess_points(picks, result) == 25,
{
    reveal_with_fuel(points_before, 6);
    assert(same_ignoring_case(picks[0], result[0]));
    assert(same_ignoring_case(picks[1], result[1]));
    assert(same_ignoring_case(picks[2], result[2]));
    assert(same_ignoring_case(picks[3], result[3]));
    assert(same_ignoring_case(picks[4], result[4]));
}

/// The number of places of `picks` up to `upto` that are not guessed
/// exactly.
pub open spec fn misplaced(picks: Seq<Seq<char>>, result: Seq<Seq<char>>, upto: int) -> int
    decreases upto,
{
    if upto <= 0 {
        0
    } else {
        misplaced(picks, result, upto - 1) + if same_ignoring_case(
            picks[upto - 1],
            result[upto - 1],
        ) {
            0int
        } else {
            1int
        }
    }
}

/// The points of the places of `picks` that are guessed exactly.
pub open spec fn exact_points(picks: Seq<Seq<char>>, result: Seq<Seq<char>>, upto: int) -> int
    decreases upto,
{
    if upto <= 0 {
        0
    } else {
        exact_points(picks, result, upto - 1) + if same_ignoring_case(
            picks[upto - 1],
            result[upto - 1],
        ) {
            place_points(picks, result, upto - 1)
        } else {
            0int
        }
    }
}

/// A guess of five drivers who all finished among the five, with at least
/// one of them at the wrong place, never earns the bonus: it scores the
/// points of its exact places and 1 for each driver at a wrong place.
pub proof fn lemma_misplaced_guess_earns_no_bonus(picks: Seq<Seq<char>>, result: Seq<Seq<char>>)
    requires
        picks.len() == 5,
        result.len() == 5,
        forall|pos: int| 0 <= pos < 5 ==> appears_in(#[trigger] picks[pos], result),
        exists|pos: int| 0 <= pos < 5 && !same_ignoring_case(#[trigger] picks[pos], result[pos]),
    ensures
        base_points(picks, result) != parlay_sum(),
        guess_points(picks, result) == exact_points(picks, result, 5) + misplaced(
            picks,
            result,
            5,
        ),
        forall|pos: int|
            0 <= pos < 5 && !same_ignoring_case(#[trigger] picks[pos], result[pos])
                ==> place_points(picks, result, pos) == 1,
{
    reveal_with_fuel(points_before, 6);
    reveal_with_fuel(misplaced, 6);
    reveal_with_fuel(exact_points, 6);
    assert(appears_in(picks[0], result));
    assert(appears_in(picks[1], result));
    assert(appears_in(picks[2], result));
    assert(appears_in(picks[3], result));
    assert(appears_in(picks[4], result));
}

/// The five places add up to the bonus sum only where every place is
/// guessed exactly: no other mix of exact and misplaced drivers reaches it.
pub proof fn lemma_bonus_only_for_five_exact(picks: Seq<Seq<char>>, result: Seq<Seq<char>>)
    requires
        picks.len() == 5,
        result.len() == 5,
    ensures
        base_points(picks, result) == parlay_sum() <==> same_codes(picks, result),
        guess_points(picks, result) <= 25,
        guess_points(picks, result) == 25 <==> same_codes(picks, result),
{
    reveal_with_fuel(points_before, 6);
    if base_points(picks, result) == parlay_sum() {
        assert forall|i: int| 0 <= i < 5 implies same_ignoring_case(#[trigger] picks[i], result[i]) by {
            if i == 0 {
            } else if i == 1 {
            } else if i == 2 {
            } else if i == 3 {
            } else {
            }
        }
    }
    if same_codes(picks, result) {
        lemma_perfect_guess_scores_25(picks, result);
    }
}

/// A pick that is not among the five finishers earns nothing for its place.
pub proof fn lemma_absent_driver_scores_nothing(
    picks: Seq<Seq<char>>,
    result: Seq<Seq<char>>,
    pos: int,
)
    requires
        picks.len() == 5,
        result.len() == 5,
        0 <= pos < 5,
        !appears_in(picks[pos], result),
    ensures
        place_points(picks, result, pos) == 0,
{
    if same_ignoring_case(picks[pos], result[pos]) {
        assert(appears_in(picks[pos], result));
    }
}

} // verus!
