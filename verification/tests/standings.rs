use race_guess::leaderboard::{
    build, irc_code_of, pairs, render_irc, render_text, respond, Format, LeaderboardResponse,
    Standing,
};
use race_guess::models::{Guess, ScoredGuess};

fn guess_of(username: &str) -> Guess {
    Guess { username: username.to_string(), ..Guess::default() }
}

fn standings(rows: &[(&str, u128)]) -> Vec<Standing> {
    rows.iter()
        .enumerate()
        .map(|(rank, row)| Standing { rank, username: row.0.to_string(), points: row.1 })
        .collect()
}

fn table(standings: &[Standing]) -> Vec<(usize, String, u128)> {
    standings.iter().map(|s| (s.rank, s.username.clone(), s.points)).collect()
}

#[test]
fn leaderboard_keeps_tied_users_in_the_order_of_their_first_guess() {
    let (ann, bob, cat) = (guess_of("ann"), guess_of("bob"), guess_of("cat"));
    let scored = vec![
        ScoredGuess { guess: &ann, points: 10 },
        ScoredGuess { guess: &bob, points: 25 },
        ScoredGuess { guess: &cat, points: 25 },
    ];
    assert_eq!(
        table(&build(&scored)),
        vec![(0, "bob".to_string(), 25), (1, "cat".to_string(), 25), (2, "ann".to_string(), 10)]
    );
}

#[test]
fn leaderboard_adds_up_the_points_of_each_user() {
    let (ann, bob, cat) = (guess_of("ann"), guess_of("bob"), guess_of("cat"));
    let scored = vec![
        ScoredGuess { guess: &cat, points: 5 },
        ScoredGuess { guess: &ann, points: 7 },
        ScoredGuess { guess: &bob, points: 12 },
        ScoredGuess { guess: &ann, points: 25 },
        ScoredGuess { guess: &cat, points: 7 },
        ScoredGuess { guess: &ann, points: 0 },
        ScoredGuess { guess: &bob, points: 0 },
    ];
    assert_eq!(
        table(&build(&scored)),
        vec![(0, "ann".to_string(), 32), (1, "cat".to_string(), 12), (2, "bob".to_string(), 12)]
    );
}

#[test]
fn leaderboard_takes_names_as_stored() {
    let (lower, upper) = (guess_of("ann"), guess_of("ANN"));
    let scored = vec![
        ScoredGuess { guess: &lower, points: 1 },
        ScoredGuess { guess: &upper, points: 2 },
        ScoredGuess { guess: &lower, points: 3 },
    ];
    assert_eq!(table(&build(&scored)), vec![(0, "ann".to_string(), 4), (1, "ANN".to_string(), 2)]);
}

#[test]
fn leaderboard_of_nothing_is_empty() {
    assert!(build(&[]).is_empty());
}

#[test]
fn leaderboard_total_may_pass_the_range_of_one_guess() {
    let ann = guess_of("ann");
    let scored: Vec<ScoredGuess<'_>> =
        (0..3).map(|_| ScoredGuess { guess: &ann, points: u16::MAX }).collect();
    assert_eq!(table(&build(&scored)), vec![(0, "ann".to_string(), 196605)]);
}

#[test]
fn leaderboard_as_text() {
    let lines = standings(&[("bob", 25), ("cat", 25), ("ann", 10)]);
    assert_eq!(render_text(&lines), "1. bob 25 | 2. cat 25 | 3. ann 10");
    assert_eq!(render_text(&standings(&[("solo", 0)])), "1. solo 0");
    assert_eq!(render_text(&[]), "");
}

#[test]
fn leaderboard_as_text_counts_places_in_decimal() {
    let rows: Vec<(String, u128)> = (0..12).map(|n| (format!("u{}", n), 1000 - n as u128)).collect();
    let lines: Vec<Standing> = rows
        .iter()
        .enumerate()
        .map(|(rank, row)| Standing { rank, username: row.0.clone(), points: row.1 })
        .collect();
    let text = render_text(&lines);
    assert!(text.starts_with("1. u0 1000 | 2. u1 999 | "));
    assert!(text.ends_with(" | 10. u9 991 | 11. u10 990 | 12. u11 989"));
}

#[test]
fn leaderboard_for_irc() {
    let lines = standings(&[("bobby", 25), ("c-a_t", 25), ("al", 10), ("éa9x", 3), ("___", 0)]);
    assert_eq!(render_irc(&lines), "1. BOB 25 | 2. CAT 25 | 3. AL 10 | 4. éA9 3 | 5.  0");
}

#[test]
fn irc_code_takes_three_letters_or_numbers() {
    assert_eq!(irc_code_of("verstappen"), "VER");
    assert_eq!(irc_code_of("x"), "X");
    assert_eq!(irc_code_of(""), "");
    assert_eq!(irc_code_of("a.b.c.d"), "ABC");
    assert_eq!(irc_code_of("4ever"), "4EV");
    assert_eq!(irc_code_of("..!"), "");
    assert_eq!(irc_code_of("ça va"), "çAV");
}

#[test]
fn leaderboard_as_pairs() {
    let lines = standings(&[("bob", 25), ("ann", 10)]);
    assert_eq!(pairs(&lines), vec![("bob".to_string(), 25), ("ann".to_string(), 10)]);
}

#[test]
fn format_by_name() {
    assert_eq!(Format::parse(None), Some(Format::Json));
    assert_eq!(Format::parse(Some("json")), Some(Format::Json));
    assert_eq!(Format::parse(Some("JSON")), Some(Format::Json));
    assert_eq!(Format::parse(Some("irc")), Some(Format::Irc));
    assert_eq!(Format::parse(Some("IRC")), Some(Format::Irc));
    assert_eq!(Format::parse(Some("text")), Some(Format::Text));
    assert_eq!(Format::parse(Some("TEXT")), Some(Format::Text));
    assert_eq!(Format::parse(Some("Json")), None);
    assert_eq!(Format::parse(Some("")), None);
    assert_eq!(Format::parse(Some("xml")), None);
}

#[test]
fn response_in_the_shape_asked_for() {
    let lines = standings(&[("bobby", 25), ("ann", 10)]);
    match respond(&lines, None) {
        Some(LeaderboardResponse::Json(rows)) => {
            assert_eq!(rows, vec![("bobby".to_string(), 25), ("ann".to_string(), 10)])
        }
        _ => panic!("expected the pairs"),
    }
    assert!(matches!(respond(&lines, Some("JSON")), Some(LeaderboardResponse::Json(_))));
    match respond(&lines, Some("text")) {
        Some(LeaderboardResponse::PlainText(text)) => assert_eq!(text, "1. bobby 25 | 2. ann 10"),
        _ => panic!("expected plain text"),
    }
    match respond(&lines, Some("IRC")) {
        Some(LeaderboardResponse::Irc(text)) => assert_eq!(text, "1. BOB 25 | 2. ANN 10"),
        _ => panic!("expected the IRC text"),
    }
    assert!(respond(&lines, Some("yaml")).is_none());
}
