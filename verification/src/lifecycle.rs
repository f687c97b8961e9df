//! From a submitted guess to a stored one.

use crate::collection::{
    first_of, lemma_first_match_exists, lemma_selected_some, lemma_upsert_leaves_one,
    lemma_upsert_twice, selected, upserted, Collection, Record, StoreError,
};
use crate::models::{picks_valid, roster_codes, Driver, Guess, ScoredGuess, User};
use crate::queries::owned_by;
use crate::store::Store;
use crate::text::{same_ignoring_case, unicode_lower, unicode_upper};
use vstd::prelude::*;

verus! {

/// The number of scored guesses that a user's history shows.
pub const HISTORY_LENGTH: usize = 24;

/// The number of scored guesses that the page of latest guesses shows.
pub const LATEST_LENGTH: usize = 20;

/// Why a guess was not stored.
#[derive(Debug, PartialEq, Eq, Clone, Copy, Structural)]
pub enum SubmitError {
    /// The guess names another user than the one who sent it.
    Unauthorized,
    /// The guess does not hold five different codes of the roster.
    Invalid,
    /// The store could not keep the guess.
    Persistence,
}

/// What is left to do after an update was tried.
#[derive(Debug, PartialEq, Eq, Clone, Copy, Structural)]
pub enum UpsertStep {
    /// The update replaced a record: nothing is left to do.
    Done,
    /// The update found no record: insert.
    Insert,
    /// The update failed for another reason: give up.
    Failed,
}

/// Decides what follows an update of a guess: nothing after a success, an
/// insert after `NoMatch`, and giving up after any other failure.
pub fn after_update(outcome: Result<(), StoreError>) -> (step: UpsertStep)
    ensures
        step == match outcome {
            Ok(_) => UpsertStep::Done,
            Err(StoreError::NoMatch) => UpsertStep::Insert,
            Err(StoreError::Io) => UpsertStep::Failed,
        },
{
    match outcome {
        Ok(_) => UpsertStep::Done,
        Err(StoreError::NoMatch) => UpsertStep::Insert,
        Err(StoreError::Io) => UpsertStep::Failed,
    }
}

/// What the caller of a submission hears of the store: success, or a
/// persistence error for any failure of the store.
pub fn after_insert(outcome: Result<(), StoreError>) -> (done: Result<(), SubmitError>)
    ensures
        done == match outcome {
            Ok(_) => Ok::<(), SubmitError>(()),
            Err(_) => Err::<(), SubmitError>(SubmitError::Persistence),
        },
{
    match outcome {
        Ok(_) => Ok(()),
        Err(_) => Err(SubmitError::Persistence),
    }
}

/// Whether a guess names `user` as its author, ASCII case set aside.
pub fn written_by(guess: &Guess, user: &User) -> (own: bool)
    ensures
        own == same_ignoring_case(guess.username@, user.username@),
{
    guess.username.eq_ignore_ascii_case(user.username.as_str())
}

/// `ready` is `guess` made ready for the store: stamped with the race and
/// every text field in upper case.
pub open spec fn made_ready(guess: Guess, race: Seq<char>, ready: Guess) -> bool {
    &&& ready.race@ == unicode_upper(race)
    &&& ready.username@ == unicode_upper(guess.username@)
    &&& ready.p1@ == unicode_upper(guess.p1@)
    &&& ready.p2@ == unicode_upper(guess.p2@)
    &&& ready.p3@ == unicode_upper(guess.p3@)
    &&& ready.p4@ == unicode_upper(guess.p4@)
    &&& ready.p5@ == unicode_upper(guess.p5@)
}

/// The picks of a guess as the roster check sees them once the guess has
/// been made ready: in upper case, then folded to lower case.
pub open spec fn checked_picks(guess: Guess) -> Seq<Seq<char>> {
    Seq::new(5, |i: int| unicode_lower(unicode_upper(guess.positions()[i])))
}

/// Whether a submitted guess will pass the roster check.
pub open spec fn acceptable(guess: Guess, drivers: Seq<Driver>) -> bool {
    picks_valid(checked_picks(guess), roster_codes(drivers))
}

/// Stamps a guess with the current race, whatever race it named, and
/// normalizes it.
pub fn make_ready(guess: Guess, current_race: &str) -> (ready: Guess)
    ensures
        made_ready(guess, current_race@, ready),
{
    let mut ready = guess;
    ready.race = current_race.to_owned();
    ready.normalize();
    ready
}

/// Takes a submitted guess into the store. The guess is stamped with the
/// current race and normalized. Where it then holds five different codes of
/// the roster it is stored as its user's guess for the race, in the place
/// of an earlier one or as a new one, and handed back as stored. The
/// earlier guess is looked for under the race as it is stored, so that a
/// guess once submitted is found again whatever letters the name of the race
/// holds. Where the guess is not valid, it is refused and the store stays as
/// it was.
pub fn submit(store: &mut Store, guess: Guess, current_race: &str) -> (done: Result<
    Guess,
    SubmitError,
>)
    ensures
        final(store).same_but_guesses(*old(store)),
        done is Ok <==> acceptable(guess, old(store).drivers@),
        done matches Ok(stored) ==> {
            &&& made_ready(guess, current_race@, stored)
            &&& final(store).guesses@ == upserted(
                old(store).guesses@,
                stored,
                owned_by(stored.username@, stored.race@),
            )
        },
        done matches Err(error) ==> error == SubmitError::Invalid && final(store).guesses == old(
            store,
        ).guesses,
{
    let ready = make_ready(guess, current_race);
    let drivers = store.all_drivers();
    assert(ready.folded_positions() =~= checked_picks(guess));
    if !ready.valid(drivers.as_slice()) {
        return Err(SubmitError::Invalid);
    }
    let stored = ready.duplicate();
    store.update_guess(ready, stored.race.as_str());
    Ok(stored)
}

/// Takes a guess that `user` submits: a guess that names another user is
/// refused before anything else is looked at; any other is submitted.
pub fn submit_as(store: &mut Store, user: &User, guess: Guess, current_race: &str) -> (done:
    Result<Guess, SubmitError>)
    ensures
        final(store).same_but_guesses(*old(store)),
        !same_ignoring_case(guess.username@, user.username@) ==> done == Err::<Guess, SubmitError>(
            SubmitError::Unauthorized,
        ),
        same_ignoring_case(guess.username@, user.username@) ==> (done is Ok <==> acceptable(
            guess,
            old(store).drivers@,
        )) && (done matches Err(error) ==> error == SubmitError::Invalid),
        done matches Ok(stored) ==> {
            &&& made_ready(guess, current_race@, stored)
            &&& final(store).guesses@ == upserted(
                old(store).guesses@,
                stored,
                owned_by(stored.username@, stored.race@),
            )
        },
        done is Err ==> final(store).guesses == old(store).guesses,
{
    if !written_by(&guess, user) {
        return Err(SubmitError::Unauthorized);
    }
    submit(store, guess, current_race)
}

/// A guess that a user has stored for a race is alone: where the store held
/// at most one guess of that user for that race before, it holds exactly
/// one afterwards, the stored one.
pub proof fn lemma_stored_guess_is_alone(guesses: Seq<Guess>, stored: Guess, race: Seq<char>)
    requires
        same_ignoring_case(stored.race@, race),
        selected(guesses, owned_by(stored.username@, race)).len() <= 1,
    ensures
        selected(
            upserted(guesses, stored, owned_by(stored.username@, race)),
            owned_by(stored.username@, race),
        ) == seq![stored],
{
    lemma_upsert_leaves_one(guesses, owned_by(stored.username@, race), stored);
}

/// Two guesses of one user for one race, stored one after the other, leave
/// one guess of that user for that race in the store: the second. The two
/// are guesses of one user for the race where the criteria that select the
/// first select the second too. This holds of a store that held at most one
/// such guess before.
pub proof fn lemma_second_guess_replaces_first(
    guesses: Seq<Guess>,
    first: Guess,
    second: Guess,
    race: Seq<char>,
)
    requires
        owned_by(first.username@, race)(first),
        owned_by(first.username@, race)(second),
        selected(guesses, owned_by(first.username@, race)).len() <= 1,
    ensures
        selected(
            upserted(
                upserted(guesses, first, owned_by(first.username@, race)),
                second,
                owned_by(second.username@, race),
            ),
            owned_by(second.username@, race),
        ) == seq![second],
{
    assert(owned_by(first.username@, race) =~= owned_by(second.username@, race));
    lemma_upsert_twice(guesses, owned_by(first.username@, race), first, second);
}

/// One submission leaves exactly one guess of the user for the race, the
/// submitted one as it is stored, whatever the name of the race: `stored`
/// and `after` are what `submit` hands back and leaves in the store. This
/// holds of a store that held at most one guess of the user for the race
/// before.
pub proof fn lemma_submission_leaves_one(guesses: Seq<Guess>, stored: Guess, after: Seq<Guess>)
    requires
        after == upserted(guesses, stored, owned_by(stored.username@, stored.race@)),
        selected(guesses, owned_by(stored.username@, stored.race@)).len() <= 1,
    ensures
        selected(after, owned_by(stored.username@, stored.race@)) == seq![stored],
{
    lemma_upsert_leaves_one(guesses, owned_by(stored.username@, stored.race@), stored);
}

/// Two submissions of one user for one race, one after the other, leave one
/// guess of that user for that race in the store, with the contents of the
/// second, and the second adds no record. `first_stored` and `second_stored`
/// are the two guesses as `submit` stores them. The submissions are of one
/// user where the criteria that select the first stored guess select the
/// second, as they do whenever both name the user in the same letters; no
/// condition lies on the name of the race. This holds of a store that held
/// at most one guess of the user for the race before.
pub proof fn lemma_two_submissions_leave_the_second(
    guesses: Seq<Guess>,
    first: Guess,
    second: Guess,
    race: Seq<char>,
    first_stored: Guess,
    second_stored: Guess,
)
    requires
        made_ready(first, race, first_stored),
        made_ready(second, race, second_stored),
        first.username@ == second.username@ || owned_by(
            first_stored.username@,
            first_stored.race@,
        )(second_stored),
        selected(guesses, owned_by(first_stored.username@, first_stored.race@)).len() <= 1,
    ensures
        ({
            let once = upserted(
                guesses,
                first_stored,
                owned_by(first_stored.username@, first_stored.race@),
            );
            let twice = upserted(
                once,
                second_stored,
                owned_by(second_stored.username@, second_stored.race@),
            );
            &&& twice.len() == once.len()
            &&& selected(twice, owned_by(second_stored.username@, second_stored.race@)) == seq![
                second_stored,
            ]
        }),
{
    let wanted = owned_by(first_stored.username@, first_stored.race@);
    assert(wanted(first_stored));
    assert(wanted(second_stored));
    assert(wanted =~= owned_by(second_stored.username@, second_stored.race@));
    lemma_upsert_twice(guesses, wanted, first_stored, second_stored);
    let once = upserted(guesses, first_stored, wanted);
    lemma_upsert_leaves_one(guesses, wanted, first_stored);
    lemma_selected_some(once, wanted);
    lemma_first_match_exists(once, wanted);
}

/// The guess that the form shows: the first stored guess of the user for
/// the race, or the default picks under the user's name and the race.
pub fn form_guess(stored: Vec<Guess>, race: &str, username: &str) -> (guess: Guess)
    ensures
        match first_of(stored@) {
            Some(first) => guess == first,
            None => {
                &&& guess.race@ == race@
                &&& guess.username@ == username@
                &&& guess.p1@ == "NOR"@
                &&& guess.p2@ == "VER"@
                &&& guess.p3@ == "PIA"@
                &&& guess.p4@ == "RUS"@
                &&& guess.p5@ == "LEC"@
            },
        },
{
    match Collection::first(stored) {
        Some(first) => first,
        None => {
            let mut guess = Guess::default();
            guess.race = race.to_owned();
            guess.username = username.to_owned();
            guess
        },
    }
}

/// The last `limit` scored guesses, the latest first.
pub fn latest<'a>(scored: Vec<ScoredGuess<'a>>, limit: usize) -> (shown: Vec<ScoredGuess<'a>>)
    ensures
        shown@ == scored@.reverse().take(
            if limit < scored.len() {
                limit as int
            } else {
                scored.len() as int
            },
        ),
{
    let ghost all = scored@;
    let mut scored = scored;
    let mut shown: Vec<ScoredGuess<'a>> = Vec::new();
    while shown.len() < limit && scored.len() > 0
        invariant
            scored.len() + shown.len() == all.len(),
            shown.len() <= limit,
            scored@ == all.take(scored.len() as int),
            shown@ == all.reverse().take(shown.len() as int),
        decreases scored.len(),
    {
        let ghost before = shown@;
        match scored.pop() {
            Some(last) => {
                shown.push(last);
                assert(shown@ =~= all.reverse().take(shown.len() as int));
                assert(scored@ =~= all.take(scored.len() as int));
            },
            None => {},
        }
    }
    shown
}

} // verus!
