use race_guess::collection::StoreError;
use race_guess::lifecycle::{
    after_insert, after_update, form_guess, latest, make_ready, submit, submit_as, written_by,
    SubmitError, UpsertStep, HISTORY_LENGTH, LATEST_LENGTH,
};
use race_guess::collection::Criteria;
use race_guess::models::{codes_valid, Driver, Guess, ScoredGuess, User};
use race_guess::queries::GuessOwner;
use race_guess::store::Store;

fn driver(number: u8, code: &str) -> Driver {
    Driver { number, code: code.to_string(), name: format!("Driver {}", code) }
}

fn roster() -> Vec<Driver> {
    vec![
        driver(4, "NOR"),
        driver(1, "VER"),
        driver(81, "PIA"),
        driver(63, "RUS"),
        driver(16, "LEC"),
        driver(44, "HAM"),
    ]
}

fn guess(race: &str, username: &str, codes: [&str; 5]) -> Guess {
    Guess {
        race: race.to_string(),
        username: username.to_string(),
        p1: codes[0].to_string(),
        p2: codes[1].to_string(),
        p3: codes[2].to_string(),
        p4: codes[3].to_string(),
        p5: codes[4].to_string(),
    }
}

fn perfect_guess() -> Guess {
    guess("Test GP", "test", ["NOR", "VER", "PIA", "RUS", "LEC"])
}

fn user(name: &str) -> User {
    User {
        token: format!("token-of-{}", name),
        username: name.to_string(),
        password: String::new(),
        country: String::new(),
    }
}

fn store_with_roster() -> Store {
    let mut store = Store::new();
    for entry in roster() {
        store.drivers.insert(entry);
    }
    store
}

#[test]
fn update_guess() {
    let mut store = Store::new();

    let replaced = store.update_guess(perfect_guess(), "Test GP");
    let guess = store.get_guesses(Some("test"), Some("Test GP"));

    assert!(
        !replaced
            && guess[0].race == "Test GP"
            && guess[0].username == "test"
            && guess[0].p1 == "NOR"
            && guess[0].p2 == "VER"
            && guess[0].p3 == "PIA"
            && guess[0].p4 == "RUS"
            && guess[0].p5 == "LEC"
    )
}

#[test]
fn update_guess_replaces_in_place() {
    let mut store = Store::new();
    store.update_guess(guess("Test GP", "ann", ["NOR", "VER", "PIA", "RUS", "LEC"]), "Test GP");
    store.update_guess(guess("Test GP", "bob", ["VER", "NOR", "PIA", "RUS", "LEC"]), "Test GP");
    store.update_guess(guess("Test GP", "cat", ["PIA", "NOR", "VER", "RUS", "LEC"]), "Test GP");
    let replaced =
        store.update_guess(guess("test gp", "BOB", ["HAM", "NOR", "PIA", "RUS", "LEC"]), "TEST GP");
    assert!(replaced);
    let all = store.get_guesses(None, None);
    assert_eq!(all.len(), 3);
    assert_eq!(all[0].username, "ann");
    assert_eq!(all[1].username, "BOB");
    assert_eq!(all[1].p1, "HAM");
    assert_eq!(all[1].race, "test gp");
    assert_eq!(all[2].username, "cat");
}

#[test]
fn update_guess_keeps_guesses_of_other_races() {
    let mut store = Store::new();
    store.update_guess(guess("First GP", "ann", ["NOR", "VER", "PIA", "RUS", "LEC"]), "First GP");
    let replaced =
        store.update_guess(guess("Second GP", "ann", ["VER", "NOR", "PIA", "RUS", "LEC"]), "Second GP");
    assert!(!replaced);
    assert_eq!(store.get_guesses(Some("ann"), None).len(), 2);
    assert_eq!(store.get_guesses(Some("ANN"), Some("second gp")).len(), 1);
    assert_eq!(store.get_guesses(None, Some("First GP"))[0].p1, "NOR");
    assert_eq!(store.get_guesses(Some("bob"), None).len(), 0);
}

#[test]
fn normalize_puts_every_field_in_upper_case() {
    let mut entry = guess("Test gp", "Ann", ["nor", "Ver", "pIA", "rus", "LEC"]);
    entry.normalize();
    assert_eq!(entry.race, "TEST GP");
    assert_eq!(entry.username, "ANN");
    assert_eq!(entry.p1, "NOR");
    assert_eq!(entry.p2, "VER");
    assert_eq!(entry.p3, "PIA");
    assert_eq!(entry.p4, "RUS");
    assert_eq!(entry.p5, "LEC");
}

#[test]
fn normalize_follows_unicode() {
    let mut entry = guess("são paulo", "müller", ["nor", "ver", "pia", "rus", "lec"]);
    entry.normalize();
    assert_eq!(entry.race, "SÃO PAULO");
    assert_eq!(entry.username, "MÜLLER");
}

#[test]
fn valid_accepts_five_different_codes_of_the_roster() {
    assert!(perfect_guess().valid(&roster()));
    assert!(guess("", "", ["nor", "Ver", "pIA", "rus", "ham"]).valid(&roster()));
    let lower_roster = vec![
        driver(4, "nor"),
        driver(1, "ver"),
        driver(81, "pia"),
        driver(63, "rus"),
        driver(16, "lec"),
    ];
    assert!(perfect_guess().valid(&lower_roster));
}

#[test]
fn valid_rejects_a_repeated_code() {
    assert!(!guess("", "", ["NOR", "NOR", "PIA", "RUS", "LEC"]).valid(&roster()));
    assert!(!guess("", "", ["NOR", "VER", "PIA", "RUS", "nor"]).valid(&roster()));
    assert!(!guess("", "", ["LEC", "VER", "PIA", "RUS", "Lec"]).valid(&roster()));
    assert!(!guess("", "", ["HAM", "HAM", "HAM", "HAM", "HAM"]).valid(&roster()));
}

#[test]
fn valid_rejects_a_code_outside_the_roster() {
    assert!(!guess("", "", ["NOR", "VER", "PIA", "RUS", "ANT"]).valid(&roster()));
    assert!(!guess("", "", ["", "VER", "PIA", "RUS", "LEC"]).valid(&roster()));
    assert!(!perfect_guess().valid(&[]));
}

#[test]
fn codes_valid_compares_exactly() {
    let names = |codes: &[&str]| codes.iter().map(|c| c.to_string()).collect::<Vec<String>>();
    assert!(codes_valid(&names(&["a", "b"]), &names(&["b", "a", "c"])));
    assert!(!codes_valid(&names(&["a", "A"]), &names(&["a", "b"])));
    assert!(!codes_valid(&names(&["a", "a"]), &names(&["a", "b"])));
    assert!(codes_valid(&names(&[]), &names(&[])));
}

#[test]
fn default_guess() {
    let start = Guess::default();
    assert_eq!(start.race, "");
    assert_eq!(start.username, "");
    assert_eq!(
        [start.p1, start.p2, start.p3, start.p4, start.p5],
        ["NOR", "VER", "PIA", "RUS", "LEC"]
    );
}

#[test]
fn make_ready_stamps_the_current_race() {
    let ready = make_ready(guess("Old GP", "ann", ["nor", "ver", "pia", "rus", "lec"]), "Test GP");
    assert_eq!(ready.race, "TEST GP");
    assert_eq!(ready.username, "ANN");
    assert_eq!(ready.p5, "LEC");
}

#[test]
fn submit_stores_the_normalized_guess() {
    let mut store = store_with_roster();
    let stored =
        submit(&mut store, guess("Old GP", "ann", ["nor", "ver", "pia", "rus", "lec"]), "Test GP")
            .unwrap();
    assert_eq!(stored.race, "TEST GP");
    assert_eq!(stored.username, "ANN");
    let all = store.get_guesses(None, None);
    assert_eq!(all.len(), 1);
    assert_eq!(all[0].race, "TEST GP");
    assert_eq!(all[0].username, "ANN");
    assert_eq!(all[0].p1, "NOR");
}

#[test]
fn submit_twice_keeps_one_guess_with_the_second_contents() {
    let mut store = store_with_roster();
    submit(&mut store, guess("", "bob", ["NOR", "VER", "PIA", "RUS", "LEC"]), "Test GP").unwrap();
    submit(&mut store, guess("", "ann", ["NOR", "VER", "PIA", "RUS", "LEC"]), "Test GP").unwrap();
    submit(&mut store, guess("", "ann", ["HAM", "LEC", "RUS", "PIA", "VER"]), "Test GP").unwrap();
    let of_ann = store.get_guesses(Some("ann"), Some("Test GP"));
    assert_eq!(of_ann.len(), 1);
    assert_eq!(
        [&of_ann[0].p1, &of_ann[0].p2, &of_ann[0].p3, &of_ann[0].p4, &of_ann[0].p5],
        ["HAM", "LEC", "RUS", "PIA", "VER"]
    );
    assert_eq!(store.get_guesses(None, None).len(), 2);
    assert_eq!(store.get_guesses(Some("bob"), None)[0].p1, "NOR");
}

#[test]
fn submit_twice_keeps_one_guess_whatever_the_letters_of_the_race() {
    for race in ["são paulo", "São Paulo GP", "GROSSER PREIS VON ÖSTERREICH", "Österreich", "Test GP"] {
        let mut store = store_with_roster();
        submit(&mut store, guess("", "bob", ["NOR", "VER", "PIA", "RUS", "LEC"]), race).unwrap();
        let first =
            submit(&mut store, guess("", "ann", ["NOR", "VER", "PIA", "RUS", "LEC"]), race).unwrap();
        assert_eq!(first.race, race.to_uppercase());
        assert_eq!(store.get_guesses(None, None).len(), 2);
        let second =
            submit(&mut store, guess("old", "ann", ["HAM", "LEC", "RUS", "PIA", "VER"]), race).unwrap();
        assert_eq!(second.race, race.to_uppercase());
        let all = store.get_guesses(None, None);
        assert_eq!(all.len(), 2);
        assert_eq!(all[0].username, "BOB");
        assert_eq!(all[0].p1, "NOR");
        assert_eq!(all[1].username, "ANN");
        assert_eq!(all[1].race, race.to_uppercase());
        assert_eq!(
            [&all[1].p1, &all[1].p2, &all[1].p3, &all[1].p4, &all[1].p5],
            ["HAM", "LEC", "RUS", "PIA", "VER"]
        );
    }
}

#[test]
fn submit_as_twice_keeps_one_guess_for_a_race_outside_ascii() {
    let mut store = store_with_roster();
    let ann = user("ann");
    submit_as(&mut store, &ann, guess("", "ann", ["NOR", "VER", "PIA", "RUS", "LEC"]), "são paulo")
        .unwrap();
    submit_as(&mut store, &ann, guess("", "Ann", ["VER", "NOR", "PIA", "RUS", "LEC"]), "são paulo")
        .unwrap();
    submit_as(&mut store, &ann, guess("", "ANN", ["PIA", "NOR", "VER", "RUS", "LEC"]), "são paulo")
        .unwrap();
    let all = store.get_guesses(None, None);
    assert_eq!(all.len(), 1);
    assert_eq!(all[0].race, "SÃO PAULO");
    assert_eq!(all[0].p1, "PIA");
}

#[test]
fn guess_owner_selects_the_guesses_of_a_user_for_a_race() {
    let stored = guess("SÃO PAULO", "ANN", ["NOR", "VER", "PIA", "RUS", "LEC"]);
    let owner = GuessOwner::of(&stored, &stored.race);
    assert_eq!(owner.lowered_username, "ann");
    assert!(owner.matches(&stored));
    assert!(owner.matches(&guess("SÃO PAULO", "ann", ["HAM", "VER", "PIA", "RUS", "LEC"])));
    assert!(owner.matches(&guess("sÃo paulo", "Ann", ["HAM", "VER", "PIA", "RUS", "LEC"])));
    assert!(!owner.matches(&guess("são paulo", "ann", ["HAM", "VER", "PIA", "RUS", "LEC"])));
    assert!(!owner.matches(&guess("SÃO PAULO", "bob", ["HAM", "VER", "PIA", "RUS", "LEC"])));
    assert!(!owner.matches(&guess("MONACO", "ann", ["HAM", "VER", "PIA", "RUS", "LEC"])));
}

#[test]
fn submit_refuses_an_invalid_guess_and_stores_nothing() {
    let mut store = store_with_roster();
    let repeated = submit(&mut store, guess("", "ann", ["NOR", "NOR", "PIA", "RUS", "LEC"]), "Test GP");
    assert!(matches!(repeated, Err(SubmitError::Invalid)));
    let unknown = submit(&mut store, guess("", "ann", ["NOR", "VER", "PIA", "RUS", "ANT"]), "Test GP");
    assert!(matches!(unknown, Err(SubmitError::Invalid)));
    assert_eq!(store.get_guesses(None, None).len(), 0);
}

#[test]
fn submit_as_refuses_a_guess_of_another_user() {
    let mut store = store_with_roster();
    let sent = submit_as(&mut store, &user("ann"), perfect_guess(), "Test GP");
    assert!(matches!(sent, Err(SubmitError::Unauthorized)));
    assert_eq!(store.get_guesses(None, None).len(), 0);
    let invalid_and_foreign = submit_as(
        &mut store,
        &user("ann"),
        guess("", "bob", ["NOR", "NOR", "PIA", "RUS", "LEC"]),
        "Test GP",
    );
    assert!(matches!(invalid_and_foreign, Err(SubmitError::Unauthorized)));
    let own = submit_as(&mut store, &user("test"), perfect_guess(), "Test GP");
    assert!(own.is_ok());
    let own_in_capitals = submit_as(&mut store, &user("TEST"), perfect_guess(), "Test GP");
    assert!(own_in_capitals.is_ok());
    assert_eq!(store.get_guesses(None, None).len(), 1);
}

#[test]
fn written_by_ignores_ascii_case() {
    assert!(written_by(&perfect_guess(), &user("Test")));
    assert!(!written_by(&perfect_guess(), &user("tester")));
}

#[test]
fn steps_after_an_update() {
    assert_eq!(after_update(Ok(())), UpsertStep::Done);
    assert_eq!(after_update(Err(StoreError::NoMatch)), UpsertStep::Insert);
    assert_eq!(after_update(Err(StoreError::Io)), UpsertStep::Failed);
    assert_eq!(after_insert(Ok(())), Ok(()));
    assert_eq!(after_insert(Err(StoreError::Io)), Err(SubmitError::Persistence));
    assert_eq!(after_insert(Err(StoreError::NoMatch)), Err(SubmitError::Persistence));
}

#[test]
fn form_guess_prefers_the_stored_guess() {
    let stored = vec![
        guess("Test GP", "ann", ["HAM", "VER", "PIA", "RUS", "LEC"]),
        guess("Test GP", "ann", ["NOR", "VER", "PIA", "RUS", "LEC"]),
    ];
    assert_eq!(form_guess(stored, "Test GP", "ann").p1, "HAM");
    let fresh = form_guess(Vec::new(), "Test GP", "ann");
    assert_eq!(fresh.race, "Test GP");
    assert_eq!(fresh.username, "ann");
    assert_eq!(
        [fresh.p1, fresh.p2, fresh.p3, fresh.p4, fresh.p5],
        ["NOR", "VER", "PIA", "RUS", "LEC"]
    );
}

#[test]
fn latest_shows_the_last_guesses_first() {
    let guesses: Vec<Guess> = (0..30)
        .map(|n| guess("Test GP", &format!("user{}", n), ["NOR", "VER", "PIA", "RUS", "LEC"]))
        .collect();
    let scored = |upto: usize| -> Vec<ScoredGuess<'_>> {
        guesses[..upto].iter().enumerate().map(|(n, g)| ScoredGuess { guess: g, points: n as u16 }).collect()
    };
    let shown = latest(scored(30), LATEST_LENGTH);
    assert_eq!(shown.len(), 20);
    assert_eq!(shown[0].points, 29);
    assert_eq!(shown[19].points, 10);
    let history = latest(scored(30), HISTORY_LENGTH);
    assert_eq!(history.len(), 24);
    assert_eq!(history[23].points, 6);
    let few = latest(scored(3), LATEST_LENGTH);
    assert_eq!(few.iter().map(|s| s.points).collect::<Vec<u16>>(), vec![2, 1, 0]);
    assert_eq!(latest(scored(3), 0).len(), 0);
    assert_eq!(latest(scored(0), 5).len(), 0);
}
