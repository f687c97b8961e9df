//! The records of the game: guesses, race results, drivers, users.

use crate::collection::Record;
use crate::text::{texts, unicode_lower, unicode_upper};
use vstd::prelude::*;

verus! {

/// What a visitor sends to sign up or to log in.
pub struct Registration {
    pub username: String,
    pub password: String,
    pub country: Option<String>,
}

/// What a user may change about their account.
pub struct Profile {
    pub country: String,
    pub password: String,
}

/// A driver of the current roster.
pub struct Driver {
    pub number: u8,
    pub code: String,
    pub name: String,
}

/// The official first five of a race, in finishing order.
pub struct RaceResult {
    pub race: String,
    pub p1: String,
    pub p2: String,
    pub p3: String,
    pub p4: String,
    pub p5: String,
}

impl RaceResult {
    /// The five driver codes in finishing order.
    pub open spec fn positions(&self) -> Seq<Seq<char>> {
        seq![self.p1@, self.p2@, self.p3@, self.p4@, self.p5@]
    }
}

/// An entry of the race calendar.
pub struct Event {
    pub category: String,
    pub name: String,
    pub description: String,
    /// When the event starts, in nanoseconds since the Unix epoch.
    pub datetime: i128,
    pub channel: String,
    pub tags: String,
    pub notify: bool,
}

/// A registered player.
pub struct User {
    pub token: String,
    pub username: String,
    pub password: String,
    pub country: String,
}

/// A user's prediction of the first five of a race.
pub struct Guess {
    pub race: String,
    pub username: String,
    pub p1: String,
    pub p2: String,
    pub p3: String,
    pub p4: String,
    pub p5: String,
}

/// A guess together with the points it earned.
pub struct ScoredGuess<'a> {
    pub guess: &'a Guess,
    pub points: u16,
}

/// Five picks are acceptable when each stands in the roster and no two of
/// them are the same.
pub open spec fn picks_valid(picks: Seq<Seq<char>>, roster: Seq<Seq<char>>) -> bool {
    &&& forall|i: int| 0 <= i < picks.len() ==> roster.contains(#[trigger] picks[i])
    &&& forall|i: int, j: int| 0 <= i < j < picks.len() ==> picks[i] != picks[j]
}

/// The codes of a roster, each in its Unicode lower-case form.
pub open spec fn roster_codes(drivers: Seq<Driver>) -> Seq<Seq<char>> {
    Seq::new(drivers.len(), |i: int| unicode_lower(drivers[i].code@))
}

/// Whether `code` occurs in `roster`.
fn roster_has(roster: &Vec<String>, code: &String) -> (found: bool)
    ensures
        found == texts(roster@).contains(code@),
{
    let mut i: usize = 0;
    while i < roster.len()
        invariant
            i <= roster.len(),
            forall|k: int| 0 <= k < i ==> texts(roster@)[k] != code@,
        decreases roster.len() - i,
    {
        if roster[i] == *code {
            assert(texts(roster@)[i as int] == code@);
            return true;
        }
        i += 1;
    }
    false
}

/// Decides whether `picks` are acceptable against `roster`, comparing the
/// strings exactly: every pick is in the roster and no pick occurs twice.
pub fn codes_valid(picks: &Vec<String>, roster: &Vec<String>) -> (ok: bool)
    ensures
        ok == picks_valid(texts(picks@), texts(roster@)),
{
    let mut i: usize = 0;
    while i < picks.len()
        invariant
            i <= picks.len(),
            forall|k: int| 0 <= k < i ==> texts(roster@).contains(#[trigger] texts(picks@)[k]),
            forall|k: int, l: int| 0 <= k < l < i ==> texts(picks@)[k] != texts(picks@)[l],
        decreases picks.len() - i,
    {
        if !roster_has(roster, &picks[i]) {
            assert(!texts(roster@).contains(texts(picks@)[i as int]));
            return false;
        }
        let mut j: usize = 0;
        while j < i
            invariant
                j <= i < picks.len(),
                forall|k: int| 0 <= k < j ==> texts(picks@)[k] != texts(picks@)[i as int],
            decreases i - j,
        {
            if picks[j] == picks[i] {
                assert(texts(picks@)[j as int] == texts(picks@)[i as int]);
                return false;
            }
            j += 1;
        }
        i += 1;
    }
    true
}

impl Guess {
    /// The five picked driver codes, first place first.
    pub open spec fn positions(&self) -> Seq<Seq<char>> {
        seq![self.p1@, self.p2@, self.p3@, self.p4@, self.p5@]
    }

    /// The five picks, each in its Unicode lower-case form.
    pub open spec fn folded_positions(&self) -> Seq<Seq<char>> {
        Seq::new(5, |i: int| unicode_lower(self.positions()[i]))
    }

    /// The guess is acceptable for a roster: each pick is the code of a
    /// driver and no driver is picked twice, case set aside.
    pub open spec fn valid_for(&self, drivers: Seq<Driver>) -> bool {
        picks_valid(self.folded_positions(), roster_codes(drivers))
    }

    /// Every text field in its Unicode upper-case form.
    pub open spec fn normalized(&self, after: Guess) -> bool {
        &&& after.race@ == unicode_upper(self.race@)
        &&& after.username@ == unicode_upper(self.username@)
        &&& after.p1@ == unicode_upper(self.p1@)
        &&& after.p2@ == unicode_upper(self.p2@)
        &&& after.p3@ == unicode_upper(self.p3@)
        &&& after.p4@ == unicode_upper(self.p4@)
        &&& after.p5@ == unicode_upper(self.p5@)
    }

    /// Puts every text field into upper case, so that stored guesses have
    /// one spelling.
    pub fn normalize(&mut self)
        ensures
            old(self).normalized(*final(self)),
    {
        self.race = self.race.to_uppercase();
        self.username = self.username.to_uppercase();
        self.p1 = self.p1.to_uppercase();
        self.p2 = self.p2.to_uppercase();
        self.p3 = self.p3.to_uppercase();
        self.p4 = self.p4.to_uppercase();
        self.p5 = self.p5.to_uppercase();
    }

    /// Checks the guess against the roster: true exactly when all five
    /// picks are codes of the roster and pairwise different, case set aside.
    pub fn valid(&self, drivers: &[Driver]) -> (ok: bool)
        ensures
            ok == self.valid_for(drivers@),
    {
        let mut roster: Vec<String> = Vec::new();
        let mut i: usize = 0;
        while i < drivers.len()
            invariant
                i <= drivers.len(),
                roster.len() == i,
                forall|k: int| 0 <= k < i ==> roster[k]@ == unicode_lower(drivers[k].code@),
            decreases drivers.len() - i,
        {
            roster.push(drivers[i].code.to_lowercase());
            i += 1;
        }
        let picks = vec![
            self.p1.to_lowercase(),
            self.p2.to_lowercase(),
            self.p3.to_lowercase(),
            self.p4.to_lowercase(),
            self.p5.to_lowercase(),
        ];
        assert(texts(picks@) =~= self.folded_positions());
        assert(texts(roster@) =~= roster_codes(drivers@));
        codes_valid(&picks, &roster)
    }
}

/// A guess that names a driver twice is not acceptable, whatever the roster:
/// two picks that are the same code once case is set aside, and so any
/// code written twice in the same letters, make the guess invalid even
/// where every pick is in the roster.
pub proof fn lemma_repeated_pick_is_invalid(guess: Guess, drivers: Seq<Driver>, i: int, j: int)
    requires
        0 <= i < j < 5,
        guess.positions()[i] == guess.positions()[j] || guess.folded_positions()[i]
            == guess.folded_positions()[j],
    ensures
        !guess.valid_for(drivers),
{
    assert(guess.folded_positions()[i] == guess.folded_positions()[j]);
}

impl Default for Guess {
    /// The guess a form starts from before the user has chosen anything.
    fn default() -> (guess: Guess)
        ensures
            guess.race@ == Seq::<char>::empty(),
            guess.username@ == Seq::<char>::empty(),
            guess.p1@ == "NOR"@,
            guess.p2@ == "VER"@,
            guess.p3@ == "PIA"@,
            guess.p4@ == "RUS"@,
            guess.p5@ == "LEC"@,
    {
        Guess {
            race: String::new(),
            username: String::new(),
            p1: "NOR".to_owned(),
            p2: "VER".to_owned(),
            p3: "PIA".to_owned(),
            p4: "RUS".to_owned(),
            p5: "LEC".to_owned(),
        }
    }
}

impl Record for Driver {
    fn duplicate(&self) -> (copy: Self) {
        Driver { number: self.number, code: self.code.clone(), name: self.name.clone() }
    }
}

impl Record for RaceResult {
    fn duplicate(&self) -> (copy: Self) {
        RaceResult {
            race: self.race.clone(),
            p1: self.p1.clone(),
            p2: self.p2.clone(),
            p3: self.p3.clone(),
            p4: self.p4.clone(),
            p5: self.p5.clone(),
        }
    }
}

impl Record for Event {
    fn duplicate(&self) -> (copy: Self) {
        Event {
            category: self.category.clone(),
            name: self.name.clone(),
            description: self.description.clone(),
            datetime: self.datetime,
            channel: self.channel.clone(),
            tags: self.tags.clone(),
            notify: self.notify,
        }
    }
}

impl Record for User {
    fn duplicate(&self) -> (copy: Self) {
        User {
            token: self.token.clone(),
            username: self.username.clone(),
            password: self.password.clone(),
            country: self.country.clone(),
        }
    }
}

impl Record for Guess {
    fn duplicate(&self) -> (copy: Self) {
        Guess {
            race: self.race.clone(),
            username: self.username.clone(),
            p1: self.p1.clone(),
            p2: self.p2.clone(),
            p3: self.p3.clone(),
            p4: self.p4.clone(),
            p5: self.p5.clone(),
        }
    }
}

} // verus!
