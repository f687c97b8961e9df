//! The criteria by which the game looks records up.

use crate::collection::{predicate_of, Criteria};
use crate::models::{Event, Guess, User};
use crate::text::{contains_text, has_substring, same_ignoring_case, same_text, unicode_lower};
use vstd::prelude::*;

verus! {

/// The word that the category of a race event contains.
pub const CATEGORY: &'static str = "formula 1";

/// The channel on which race events are announced.
pub const CHANNEL: &'static str = "#formula1";

/// The description that marks an event as the race itself.
pub const RACE: &'static str = "race";

/// The users whose name is `username`, ASCII case set aside.
pub open spec fn named(username: Seq<char>) -> spec_fn(User) -> bool {
    |user: User| same_ignoring_case(user.username@, username)
}

/// The users who hold `token`.
pub open spec fn holding(token: Seq<char>) -> spec_fn(User) -> bool {
    |user: User| user.token@ == token
}

/// The text of an optional string slice.
pub open spec fn text_of(text: Option<&str>) -> Option<Seq<char>> {
    match text {
        Some(text) => Some(text@),
        None => None,
    }
}

/// The guesses of one user, of one race, of both or of neither: a name that
/// is not given lets every guess pass. ASCII case is set aside.
pub open spec fn guesses_of(username: Option<Seq<char>>, race: Option<Seq<char>>) -> spec_fn(
    Guess,
) -> bool {
    |guess: Guess|
        {
            &&& username matches Some(username) ==> same_ignoring_case(guess.username@, username)
            &&& race matches Some(race) ==> same_ignoring_case(guess.race@, race)
        }
}

/// The guesses that the user `username` has stored for `race`: the user's
/// name compared in Unicode lower case, the race with ASCII case set aside.
pub open spec fn owned_by(username: Seq<char>, race: Seq<char>) -> spec_fn(Guess) -> bool {
    |guess: Guess|
        unicode_lower(guess.username@) == unicode_lower(username) && same_ignoring_case(
            guess.race@,
            race,
        )
}

/// The races that are still to come at `now`: events of the race channel,
/// of the race category, described as the race, that start after `now`.
pub open spec fn upcoming(now: i128) -> spec_fn(Event) -> bool {
    |event: Event|
        {
            &&& event.datetime > now
            &&& same_ignoring_case(event.channel@, CHANNEL@)
            &&& has_substring(unicode_lower(event.category@), CATEGORY@)
            &&& same_ignoring_case(event.description@, RACE@)
        }
}

/// Selects the users of a name.
pub struct UserNamed<'a> {
    pub username: &'a str,
}

impl<'a> Criteria<User> for UserNamed<'a> {
    open spec fn accepts(&self, record: User) -> bool {
        named(self.username@)(record)
    }

    fn matches(&self, record: &User) -> (hit: bool) {
        record.username.eq_ignore_ascii_case(self.username)
    }
}

/// Selects the users who hold a token.
pub struct UserWithToken<'a> {
    pub token: &'a str,
}

impl<'a> Criteria<User> for UserWithToken<'a> {
    open spec fn accepts(&self, record: User) -> bool {
        holding(self.token@)(record)
    }

    fn matches(&self, record: &User) -> (hit: bool) {
        same_text(record.token.as_str(), self.token)
    }
}

/// Selects guesses by user, by race, by both or by neither.
pub struct GuessFilter<'a> {
    pub username: Option<&'a str>,
    pub race: Option<&'a str>,
}

impl<'a> Criteria<Guess> for GuessFilter<'a> {
    open spec fn accepts(&self, record: Guess) -> bool {
        guesses_of(text_of(self.username), text_of(self.race))(record)
    }

    fn matches(&self, record: &Guess) -> (hit: bool) {
        (match self.username {
            Some(username) => record.username.eq_ignore_ascii_case(username),
            None => true,
        }) && (match self.race {
            Some(race) => record.race.eq_ignore_ascii_case(race),
            None => true,
        })
    }
}

/// Selects the guesses that a user has stored for a race.
pub struct GuessOwner<'a> {
    /// The user's name in Unicode lower case.
    pub lowered_username: String,
    pub race: &'a str,
}

impl<'a> GuessOwner<'a> {
    /// The criteria that select the guesses of the user of `guess` for
    /// `race`.
    pub fn of(guess: &Guess, race: &'a str) -> (owner: GuessOwner<'a>)
        ensures
            predicate_of(owner) == owned_by(guess.username@, race@),
    {
        let owner = GuessOwner { lowered_username: guess.username.to_lowercase(), race };
        assert(predicate_of(owner) =~= owned_by(guess.username@, race@));
        owner
    }
}

impl<'a> Criteria<Guess> for GuessOwner<'a> {
    open spec fn accepts(&self, record: Guess) -> bool {
        &&& unicode_lower(record.username@) == self.lowered_username@
        &&& same_ignoring_case(record.race@, self.race@)
    }

    fn matches(&self, record: &Guess) -> (hit: bool) {
        record.username.to_lowercase() == self.lowered_username
            && record.race.eq_ignore_ascii_case(self.race)
    }
}

/// Selects the races that are still to come.
pub struct UpcomingRace {
    /// The present moment, in nanoseconds since the Unix epoch.
    pub now: i128,
}

impl Criteria<Event> for UpcomingRace {
    open spec fn accepts(&self, record: Event) -> bool {
        upcoming(self.now)(record)
    }

    fn matches(&self, record: &Event) -> (hit: bool) {
        record.datetime > self.now && record.channel.eq_ignore_ascii_case(CHANNEL)
            && contains_text(record.category.to_lowercase().as_str(), CATEGORY)
            && record.description.eq_ignore_ascii_case(RACE)
    }
}

} // verus!
