//! The store of the game: its five collections and what is asked of them.

use crate::collection::{
    first_match, first_of, has_match, lemma_first_match_exists, lemma_first_selected,
    lemma_selected_all, lemma_selected_some, predicate_of, selected, updated, upserted, Collection,
    Everything, StoreError,
};
use crate::models::{Driver, Event, Guess, Profile, RaceResult, ScoredGuess, User};
use crate::queries::{
    guesses_of, holding, named, owned_by, text_of, upcoming, GuessFilter, GuessOwner, UpcomingRace,
    UserNamed, UserWithToken,
};
use crate::ranking::stable_order;
use crate::scoring::{indexed, score_for, ResultIndex};
use crate::secrets::{argon2_accepts, argon2_hash, argon2_verifies, fresh_token};
use crate::text::unicode_lower;
use vstd::prelude::*;

verus! {

/// The records of the game. Each collection keeps its storage order.
pub struct Store {
    pub users: Collection<User>,
    pub drivers: Collection<Driver>,
    pub events: Collection<Event>,
    pub guesses: Collection<Guess>,
    pub results: Collection<RaceResult>,
}

/// The text of an optional string, the empty text where there is none.
pub open spec fn text_or_empty(text: Option<String>) -> Seq<char> {
    match text {
        Some(text) => text@,
        None => Seq::empty(),
    }
}

/// `event` is the first of `races` that starts earliest.
pub open spec fn is_earliest(races: Seq<Event>, event: Event) -> bool {
    exists|i: int|
        {
            &&& 0 <= i < races.len()
            &&& #[trigger] races[i] == event
            &&& forall|k: int| 0 <= k < races.len() ==> event.datetime <= (#[trigger] races[k]).datetime
            &&& forall|k: int| 0 <= k < i ==> event.datetime < (#[trigger] races[k]).datetime
        }
}

/// The user that a new account stands for: the name in lower case, the
/// country empty where none was given.
pub fn new_user(token: String, username: &str, password_hash: String, country: Option<String>) -> (user:
    User)
    ensures
        user.token == token,
        user.username@ == unicode_lower(username@),
        user.password == password_hash,
        user.country@ == text_or_empty(country),
{
    let country = match country {
        Some(country) => country,
        None => String::new(),
    };
    User { token, username: username.to_lowercase(), password: password_hash, country }
}

/// The token of `user` where the password was accepted.
pub fn token_if_accepted(user: &User, accepted: bool) -> (token: Option<String>)
    ensures
        token is Some == accepted,
        accepted ==> token->0 == user.token,
{
    if accepted {
        Some(user.token.clone())
    } else {
        None
    }
}

/// Why a profile was not changed.
#[derive(Debug, PartialEq, Eq, Clone, Copy, Structural)]
pub enum ProfileError {
    /// Nobody holds the token.
    UnknownUser,
    /// The new password could not be hashed.
    Hashing,
}

/// What a request is allowed after its credentials were looked up.
pub enum Access {
    /// The request comes from this user.
    Granted(User),
    /// The session names nobody: the request is passed on to the handler of
    /// unauthorized requests.
    Forward,
    /// The request is refused.
    Denied,
}

/// What a visitor is told who must log in first.
pub struct LoginPrompt {
    pub message: &'static str,
}

/// Answers a request that was not authorized: one that carried an API key
/// gets a plain refusal, any other is asked to log in.
pub fn unauthorized(api_key: Option<&str>) -> (answer: Result<LoginPrompt, &'static str>)
    ensures
        answer is Err <==> api_key is Some,
        answer matches Err(message) ==> message@ == "Unauthorized"@,
        answer matches Ok(prompt) ==> prompt.message@ == "Please login to continue."@,
{
    match api_key {
        Some(_) => Err("Unauthorized"),
        None => Ok(LoginPrompt { message: "Please login to continue." }),
    }
}

/// The user with the changes of a profile form: the country as given, and
/// the password hash replaced where a new one is given.
pub fn with_profile(user: User, country: &String, new_hash: Option<String>) -> (changed: User)
    ensures
        changed.token == user.token,
        changed.username == user.username,
        changed.country@ == country@,
        changed.password == match new_hash {
            Some(hash) => hash,
            None => user.password,
        },
{
    let mut changed = user;
    changed.country = country.clone();
    match new_hash {
        Some(hash) => {
            changed.password = hash;
        },
        None => {},
    }
    changed
}

impl Store {
    /// A store without records.
    pub fn new() -> (store: Store)
        ensures
            store.users@.len() == 0,
            store.drivers@.len() == 0,
            store.events@.len() == 0,
            store.guesses@.len() == 0,
            store.results@.len() == 0,
    {
        Store {
            users: Collection::new(),
            drivers: Collection::new(),
            events: Collection::new(),
            guesses: Collection::new(),
            results: Collection::new(),
        }
    }

    /// Whether everything but the users is as in `other`.
    pub open spec fn same_but_users(&self, other: Store) -> bool {
        &&& self.drivers == other.drivers
        &&& self.events == other.events
        &&& self.guesses == other.guesses
        &&& self.results == other.results
    }

    /// Whether everything but the guesses is as in `other`.
    pub open spec fn same_but_guesses(&self, other: Store) -> bool {
        &&& self.users == other.users
        &&& self.drivers == other.drivers
        &&& self.events == other.events
        &&& self.results == other.results
    }

    /// Registers a user under a new token, with the password hashed: the new
    /// user comes after all others and holds a hash that Argon2 accepts for
    /// the password. A name that is taken, ASCII case set aside, is refused
    /// with `Io`; where the password cannot be hashed the answer is
    /// `NoMatch`. Either way the store stays as it was.
    pub fn add_user(&mut self, username: &str, password: &str, country: Option<String>) -> (done:
        Result<(), StoreError>)
        ensures
            final(self).same_but_users(*old(self)),
            has_match(old(self).users@, named(username@)) ==> done == Err::<(), StoreError>(
                StoreError::Io,
            ),
            done is Err ==> final(self).users == old(self).users,
            done is Err && !has_match(old(self).users@, named(username@)) ==> done == Err::<
                (),
                StoreError,
            >(StoreError::NoMatch),
            done is Ok ==> {
                let user = final(self).users@.last();
                &&& final(self).users@ == old(self).users@.push(user)
                &&& user.username@ == unicode_lower(username@)
                &&& user.country@ == text_or_empty(country)
                &&& argon2_accepts(password@, user.password@)
            },
    {
        let wanted = UserNamed { username };
        proof {
            assert(predicate_of(wanted) =~= named(username@));
            lemma_selected_some(self.users@, named(username@));
        }
        let taken = self.users.find(&wanted);
        if taken.len() == 0 {
            let token = fresh_token();
            match argon2_hash(password) {
                Some(hash) => {
                    self.users.insert(new_user(token, username, hash, country));
                    Ok(())
                },
                None => Err(StoreError::NoMatch),
            }
        } else {
            Err(StoreError::Io)
        }
    }

    /// All users, in storage order.
    pub fn all_users(&self) -> (users: Vec<User>)
        ensures
            users@ == self.users@,
    {
        let users = self.users.find(&Everything);
        proof {
            lemma_selected_all(self.users@, predicate_of(Everything));
        }
        users
    }

    /// Puts `user` in the place of the first user who holds `token`;
    /// `NoMatch` where nobody does.
    pub fn update_user(&mut self, user: User, token: &str) -> (done: Result<(), StoreError>)
        ensures
            final(self).same_but_users(*old(self)),
            done is Ok <==> has_match(old(self).users@, holding(token@)),
            done is Err ==> done == Err::<(), StoreError>(StoreError::NoMatch),
            final(self).users@ == updated(old(self).users@, user, holding(token@)),
    {
        let holder = UserWithToken { token };
        proof {
            assert(predicate_of(holder) =~= holding(token@));
        }
        self.users.update(user, &holder)
    }

    /// The first user who holds `token`.
    pub fn get_user(&self, token: &str) -> (user: Option<User>)
        ensures
            user == first_of(selected(self.users@, holding(token@))),
    {
        let holder = UserWithToken { token };
        proof {
            assert(predicate_of(holder) =~= holding(token@));
        }
        Collection::first(self.users.find(&holder))
    }

    /// Checks a login: the token of the first user of that name, ASCII case
    /// set aside, where Argon2 accepts the password for the stored hash.
    pub fn validate_user(&self, username: &str, password: &str) -> (token: Option<String>)
        ensures
            token == match first_of(selected(self.users@, named(username@))) {
                Some(user) => if argon2_accepts(password@, user.password@) {
                    Some(user.token)
                } else {
                    None
                },
                None => None,
            },
    {
        let wanted = UserNamed { username };
        proof {
            assert(predicate_of(wanted) =~= named(username@));
        }
        let users = self.users.find(&wanted);
        if users.len() > 0 {
            let user = &users[0];
            let accepted = argon2_verifies(password, user.password.as_str());
            token_if_accepted(user, accepted)
        } else {
            None
        }
    }

    /// Hashes a password for storage, to a hash that Argon2 accepts for that password.
    pub fn hash_password(password: &str) -> (hash: Result<String, &'static str>)
        ensures
            hash matches Ok(text) ==> argon2_accepts(password@, text@),
            hash matches Err(message) ==> message@ == "Could not hash password"@,
    {
        hash_or_message(argon2_hash(password))
    }

    /// The roster, in storage order.
    pub fn all_drivers(&self) -> (drivers: Vec<Driver>)
        ensures
            drivers@ == self.drivers@,
    {
        let drivers = self.drivers.find(&Everything);
        proof {
            lemma_selected_all(self.drivers@, predicate_of(Everything));
        }
        drivers
    }

    /// The guesses of a user, of a race, of both, or all of them, in
    /// storage order. Names are compared with ASCII case set aside.
    pub fn get_guesses(&self, username: Option<&str>, race: Option<&str>) -> (guesses: Vec<Guess>)
        ensures
            guesses@ == selected(self.guesses@, guesses_of(text_of(username), text_of(race))),
    {
        let filter = GuessFilter { username, race };
        proof {
            assert(predicate_of(filter) =~= guesses_of(text_of(username), text_of(race)));
        }
        self.guesses.find(&filter)
    }

    /// Stores `guess` as its user's guess for `current_race`: in the place
    /// of the first guess that this user has stored for that race, or after
    /// all guesses where there is none. Returns whether a guess gave way.
    pub fn update_guess(&mut self, guess: Guess, current_race: &str) -> (replaced: bool)
        ensures
            final(self).same_but_guesses(*old(self)),
            replaced == has_match(old(self).guesses@, owned_by(guess.username@, current_race@)),
            final(self).guesses@ == upserted(
                old(self).guesses@,
                guess,
                owned_by(guess.username@, current_race@),
            ),
    {
        let owner = GuessOwner::of(&guess, current_race);
        self.guesses.upsert(guess, &owner)
    }

    /// The race that comes next after `now`: of the races still to come the
    /// one that starts earliest, the one stored first among several that
    /// start together. `NoMatch` where no race is to come.
    pub fn next_event(&self, now: i128) -> (next: Result<Event, StoreError>)
        ensures
            match next {
                Ok(event) => is_earliest(selected(self.events@, upcoming(now)), event),
                Err(error) => error == StoreError::NoMatch && !has_match(
                    self.events@,
                    upcoming(now),
                ),
            },
    {
        let wanted = UpcomingRace { now };
        proof {
            assert(predicate_of(wanted) =~= upcoming(now));
            lemma_selected_some(self.events@, upcoming(now));
        }
        let mut races = self.events.find(&wanted);
        let mut starts: Vec<i128> = Vec::new();
        let mut i: usize = 0;
        while i < races.len()
            invariant
                i <= races.len(),
                starts.len() == i,
                forall|k: int| 0 <= k < i ==> starts[k] == races[k].datetime,
            decreases races.len() - i,
        {
            starts.push(races[i].datetime);
            i += 1;
        }
        let order = stable_order(&starts);
        if order.len() == 0 {
            return Err(StoreError::NoMatch);
        }
        let first = order[0];
        proof {
            let event = races[first as int];
            assert forall|k: int| 0 <= k < races.len() implies event.datetime <= (
            #[trigger] races[k]).datetime by {
                assert(order@.contains(k as usize));
                let at = choose|at: int| 0 <= at < order.len() && order[at] == k as usize;
                if at > 0 {
                    assert(starts[order[0] as int] <= starts[order[at] as int]);
                }
            }
            assert forall|k: int| 0 <= k < first implies event.datetime < (
            #[trigger] races[k]).datetime by {
                assert(order@.contains(k as usize));
                let at = choose|at: int| 0 <= at < order.len() && order[at] == k as usize;
                assert(at > 0);
                assert(starts[order[0] as int] <= starts[order[at] as int]);
                if starts[order[0] as int] == starts[order[at] as int] {
                    assert(order[0] < order[at]);
                }
            }
        }
        Ok(races.swap_remove(first))
    }

    /// Changes the profile of the first user who holds `token`: the country
    /// always, and where the form gives a password, the stored hash, to one
    /// that Argon2 accepts for it. Nothing changes where nobody holds the
    /// token or the password cannot be hashed.
    pub fn update_profile(&mut self, token: &str, profile: &Profile) -> (done: Result<
        (),
        ProfileError,
    >)
        ensures
            final(self).same_but_users(*old(self)),
            !has_match(old(self).users@, holding(token@)) ==> done == Err::<(), ProfileError>(
                ProfileError::UnknownUser,
            ),
            has_match(old(self).users@, holding(token@)) && profile.password@.len() == 0
                ==> done is Ok,
            done is Err && has_match(old(self).users@, holding(token@)) ==> done == Err::<
                (),
                ProfileError,
            >(ProfileError::Hashing),
            done is Err ==> final(self).users == old(self).users,
            done is Ok ==> {
                let at = first_match(old(self).users@, holding(token@));
                let before = old(self).users@[at];
                let after = final(self).users@[at];
                &&& final(self).users@ == old(self).users@.update(at, after)
                &&& after.token == before.token
                &&& after.username == before.username
                &&& after.country@ == profile.country@
                &&& profile.password@.len() == 0 ==> after.password == before.password
                &&& profile.password@.len() > 0 ==> argon2_accepts(
                    profile.password@,
                    after.password@,
                )
            },
    {
        proof {
            lemma_selected_some(self.users@, holding(token@));
        }
        let user = match self.get_user(token) {
            Some(user) => user,
            None => {
                return Err(ProfileError::UnknownUser);
            },
        };
        proof {
            lemma_first_match_exists(self.users@, holding(token@));
            lemma_first_selected(self.users@, holding(token@));
        }
        let new_hash = if profile.password.as_str().is_empty() {
            None
        } else {
            match argon2_hash(profile.password.as_str()) {
                Some(hash) => Some(hash),
                None => {
                    return Err(ProfileError::Hashing);
                },
            }
        };
        match self.update_user(with_profile(user, &profile.country, new_hash), token) {
            Ok(_) => Ok(()),
            Err(_) => Err(ProfileError::UnknownUser),
        }
    }

    /// Looks up who sends a request: by the token of the session where
    /// there is a session, else by the API key. A session that names nobody
    /// is passed on; a key that names nobody, or no credentials at all, is
    /// refused.
    pub fn authenticate(&self, session: Option<&str>, api_key: Option<&str>) -> (access: Access)
        ensures
            access == match session {
                Some(token) => match first_of(selected(self.users@, holding(token@))) {
                    Some(user) => Access::Granted(user),
                    None => Access::Forward,
                },
                None => match api_key {
                    Some(key) => match first_of(selected(self.users@, holding(key@))) {
                        Some(user) => Access::Granted(user),
                        None => Access::Denied,
                    },
                    None => Access::Denied,
                },
            },
    {
        match session {
            Some(token) => match self.get_user(token) {
                Some(user) => Access::Granted(user),
                None => Access::Forward,
            },
            None => match api_key {
                Some(key) => match self.get_user(key) {
                    Some(user) => Access::Granted(user),
                    None => Access::Denied,
                },
                None => Access::Denied,
            },
        }
    }

    /// All results, in storage order.
    pub fn results(&self) -> (results: Vec<RaceResult>)
        ensures
            results@ == self.results@,
    {
        let results = self.results.find(&Everything);
        proof {
            lemma_selected_all(self.results@, predicate_of(Everything));
        }
        results
    }

    /// The results by the name of their race; of two results of one race
    /// the one stored later.
    pub fn normalized_results(&self) -> (index: ResultIndex)
        ensures
            index@ == indexed(self.results@),
    {
        ResultIndex::build(self.results())
    }

    /// Scores every guess against the result of its race, in the order
    /// given.
    pub fn scored_guesses<'a>(&self, guesses: &'a [Guess], normalized_results: &ResultIndex) -> (scored:
        Vec<ScoredGuess<'a>>)
        ensures
            scored.len() == guesses.len(),
            forall|i: int|
                0 <= i < guesses.len() ==> *(#[trigger] scored[i]).guess == guesses[i]
                    && scored[i].points == score_for(guesses[i], normalized_results@),
    {
        crate::scoring::scored_guesses(guesses, normalized_results)
    }
}

/// What the caller hears of an attempt to hash a password: the hash where
/// there is one, else the message that hashing failed.
pub fn hash_or_message(outcome: Option<String>) -> (hash: Result<String, &'static str>)
    ensures
        match outcome {
            Some(text) => hash == Ok::<String, &'static str>(text),
            None => hash matches Err(message) && message@ == "Could not hash password"@,
        },
{
    match outcome {
        Some(text) => Ok(text),
        None => Err("Could not hash password"),
    }
}

} // verus!
