//! The standings: every user's points added up, the best first.

use crate::models::ScoredGuess;
use crate::ranking::{is_stable_order, stable_order};
use crate::text::{
    alphanumeric, ascii_upper_text, decimal, decimal_text, join_texts, joined, same_text,
    text_from, texts,
};
use vstd::prelude::*;
use vstd::string::{StrSliceExecFns, StringExecFns};

verus! {

/// A line of the standings.
pub struct Standing {
    /// The place in the standings, counted from 0. Users with equal points
    /// stand at consecutive places; no place is shared.
    pub rank: usize,
    pub username: String,
    /// The sum of the points of all guesses of the user.
    pub points: u128,
}

/// What the standings are made from: for each scored guess the name of its
/// user, as stored, and its points.
pub open spec fn entries(scored: Seq<ScoredGuess>) -> Seq<(Seq<char>, u16)> {
    Seq::new(scored.len(), |i: int| (scored[i].guess.username@, scored[i].points))
}

/// The names of `entries` in the order in which each occurs first.
pub open spec fn first_seen(entries: Seq<(Seq<char>, u16)>) -> Seq<Seq<char>>
    decreases entries.len(),
{
    if entries.len() == 0 {
        Seq::empty()
    } else {
        let before = first_seen(entries.drop_last());
        if before.contains(entries.last().0) {
            before
        } else {
            before.push(entries.last().0)
        }
    }
}

/// The sum of the points that `entries` hold under `name`.
pub open spec fn total_of(entries: Seq<(Seq<char>, u16)>, name: Seq<char>) -> nat
    decreases entries.len(),
{
    if entries.len() == 0 {
        0
    } else {
        total_of(entries.drop_last(), name) + if entries.last().0 == name {
            entries.last().1 as nat
        } else {
            0nat
        }
    }
}

/// One row for each user, in the order in which the users occur first: the
/// name and the sum of the user's points.
pub open spec fn groups(entries: Seq<(Seq<char>, u16)>) -> Seq<(Seq<char>, nat)> {
    Seq::new(
        first_seen(entries).len(),
        |i: int| (first_seen(entries)[i], total_of(entries, first_seen(entries)[i])),
    )
}

/// `rows` holds the rows of `groups`, every one of them and each once, by
/// falling points; rows with equal points stand in the order that they have
/// in `groups`. `from[i]` is the place in `groups` of the row at place `i`.
pub open spec fn ranked_from(
    groups: Seq<(Seq<char>, nat)>,
    rows: Seq<(Seq<char>, nat)>,
    from: Seq<int>,
) -> bool {
    &&& rows.len() == groups.len()
    &&& from.len() == groups.len()
    &&& forall|i: int| 0 <= i < from.len() ==> 0 <= #[trigger] from[i] < groups.len()
    &&& forall|i: int, j: int| 0 <= i < j < from.len() ==> #[trigger] from[i] != #[trigger] from[j]
    &&& forall|k: int| 0 <= k < groups.len() ==> #[trigger] from.contains(k)
    &&& forall|i: int| 0 <= i < rows.len() ==> #[trigger] rows[i] == groups[from[i]]
    &&& forall|i: int, j: int|
        0 <= i < j < rows.len() ==> (#[trigger] rows[i]).1 >= (#[trigger] rows[j]).1
    &&& forall|i: int, j: int|
        0 <= i < j < rows.len() && rows[i].1 == rows[j].1 ==> #[trigger] from[i]
            < #[trigger] from[j]
}

/// `rows` is `groups` ranked: by falling points, ties in the order of
/// `groups`.
pub open spec fn is_ranking(groups: Seq<(Seq<char>, nat)>, rows: Seq<(Seq<char>, nat)>) -> bool {
    exists|from: Seq<int>| ranked_from(groups, rows, from)
}

/// The name and points of each line of the standings.
pub open spec fn rows_of(standings: Seq<Standing>) -> Seq<(Seq<char>, nat)> {
    Seq::new(standings.len(), |i: int| (standings[i].username@, standings[i].points as nat))
}

/// A name occurs among the first-seen names exactly when some entry has it.
proof fn lemma_first_seen_contains(entries: Seq<(Seq<char>, u16)>, name: Seq<char>)
    ensures
        first_seen(entries).contains(name) <==> exists|i: int|
            0 <= i < entries.len() && (#[trigger] entries[i]).0 == name,
    decreases entries.len(),
{
    if entries.len() > 0 {
        let rest = entries.drop_last();
        lemma_first_seen_contains(rest, name);
        let before = first_seen(rest);
        if first_seen(entries).contains(name) {
            if before.contains(name) {
                let i = choose|i: int| 0 <= i < rest.len() && (#[trigger] rest[i]).0 == name;
                assert(entries[i].0 == name);
            } else {
                let k = choose|k: int|
                    0 <= k < first_seen(entries).len() && first_seen(entries)[k] == name;
                assert(entries[entries.len() - 1].0 == name);
            }
        }
        if exists|i: int| 0 <= i < entries.len() && (#[trigger] entries[i]).0 == name {
            let i = choose|i: int| 0 <= i < entries.len() && (#[trigger] entries[i]).0 == name;
            if i < entries.len() - 1 {
                assert(rest[i].0 == name);
                assert(before.contains(name));
                if !before.contains(entries.last().0) {
                    let k = choose|k: int| 0 <= k < before.len() && before[k] == name;
                    assert(before.push(entries.last().0)[k] == name);
                }
            } else {
                if !before.contains(entries.last().0) {
                    assert(before.push(name)[before.len() as int] == name);
                }
            }
        }
    }
}

/// A name that no entry has holds no points.
proof fn lemma_total_of_absent(entries: Seq<(Seq<char>, u16)>, name: Seq<char>)
    requires
        forall|i: int| 0 <= i < entries.len() ==> (#[trigger] entries[i]).0 != name,
    ensures
        total_of(entries, name) == 0,
    decreases entries.len(),
{
    if entries.len() > 0 {
        let rest = entries.drop_last();
        assert forall|i: int| 0 <= i < rest.len() implies (#[trigger] rest[i]).0 != name by {
            assert(entries[i].0 != name);
        }
        lemma_total_of_absent(rest, name);
    }
}

/// No user has two rows: no name occurs twice among the first-seen names.
pub proof fn lemma_first_seen_distinct(entries: Seq<(Seq<char>, u16)>)
    ensures
        forall|i: int, j: int|
            0 <= i < j < first_seen(entries).len() ==> first_seen(entries)[i] != first_seen(
                entries,
            )[j],
    decreases entries.len(),
{
    if entries.len() > 0 {
        lemma_first_seen_distinct(entries.drop_last());
        let before = first_seen(entries.drop_last());
        let names = first_seen(entries);
        assert forall|i: int, j: int| 0 <= i < j < names.len() implies names[i] != names[j] by {
            if j < before.len() {
                assert(before[i] != before[j]);
            } else {
                assert(before.contains(before[i]));
            }
        }
    }
}

/// The place of `name` among `names`, or their number where it is none of
/// them.
fn place_of(names: &Vec<String>, name: &String) -> (at: usize)
    ensures
        at <= names.len(),
        at < names.len() ==> names[at as int]@ == name@,
        forall|k: int| 0 <= k < at ==> names[k]@ != name@,
{
    let mut at: usize = 0;
    while at < names.len()
        invariant
            at <= names.len(),
            forall|k: int| 0 <= k < at ==> names[k]@ != name@,
        decreases names.len() - at,
    {
        if names[at] == *name {
            return at;
        }
        at += 1;
    }
    at
}

/// Adds up the points of each user: the names in the order in which they
/// occur first, and beside each name its sum.
fn tally(scored: &[ScoredGuess<'_>]) -> (sums: (Vec<String>, Vec<u128>))
    ensures
        sums.0.len() == groups(entries(scored@)).len(),
        sums.1.len() == groups(entries(scored@)).len(),
        forall|k: int|
            0 <= k < sums.0.len() ==> ((#[trigger] sums.0[k])@, sums.1[k] as nat) == groups(
                entries(scored@),
            )[k],
        forall|k: int| 0 <= k < sums.1.len() ==> (#[trigger] sums.1[k]) <= u16::MAX * scored.len(),
{
    let ghost all = entries(scored@);
    let mut names: Vec<String> = Vec::new();
    let mut totals: Vec<u128> = Vec::new();
    let mut i: usize = 0;
    while i < scored.len()
        invariant
            i <= scored.len(),
            all == entries(scored@),
            names.len() == totals.len(),
            names.len() == first_seen(all.take(i as int)).len(),
            forall|k: int|
                0 <= k < names.len() ==> (#[trigger] names[k])@ == first_seen(
                    all.take(i as int),
                )[k],
            forall|k: int|
                0 <= k < names.len() ==> (#[trigger] totals[k]) == total_of(
                    all.take(i as int),
                    names[k]@,
                ),
            forall|k: int| 0 <= k < names.len() ==> (#[trigger] totals[k]) <= u16::MAX * i,
        decreases scored.len() - i,
    {
        let entry = &scored[i];
        let ghost seen = all.take(i as int);
        let ghost name = entry.guess.username@;
        proof {
            assert(all.take(i + 1).drop_last() =~= seen);
            assert(all.take(i + 1).last() == (name, entry.points));
            lemma_first_seen_contains(seen, name);
            lemma_first_seen_distinct(seen);
        }
        let at = place_of(&names, &entry.guess.username);
        if at < names.len() {
            assert(first_seen(seen)[at as int] == name);
            totals.set(at, totals[at] + entry.points as u128);
        } else {
            proof {
                if first_seen(seen).contains(name) {
                    let k = choose|k: int|
                        0 <= k < first_seen(seen).len() && first_seen(seen)[k] == name;
                    assert(names[k]@ == name);
                }
                lemma_total_of_absent(seen, name);
            }
            names.push(entry.guess.username.clone());
            totals.push(entry.points as u128);
        }
        i += 1;
    }
    assert(all.take(i as int) =~= all);
    (names, totals)
}

/// Builds the standings from scored guesses: one line for each user, named
/// as the guesses name them, with the sum of the user's points; the lines
/// by falling points, users with equal points in the order in which their
/// first guess occurs; the rank of a line is its place, counted from 0.
pub fn build(scored: &[ScoredGuess<'_>]) -> (standings: Vec<Standing>)
    ensures
        is_ranking(groups(entries(scored@)), rows_of(standings@)),
        forall|i: int| 0 <= i < standings.len() ==> (#[trigger] standings[i]).rank == i,
{
    let (names, totals) = tally(scored);
    // Ascending order of the negated sums is falling order of the sums.
    let mut keys: Vec<i128> = Vec::new();
    let mut k: usize = 0;
    while k < totals.len()
        invariant
            k <= totals.len(),
            keys.len() == k,
            forall|j: int|
                0 <= j < totals.len() ==> (#[trigger] totals[j]) <= u16::MAX * scored.len(),
            forall|j: int| 0 <= j < k ==> (#[trigger] keys[j]) == -(totals[j] as int),
        decreases totals.len() - k,
    {
        keys.push(-(totals[k] as i128));
        k += 1;
    }
    let order = stable_order(&keys);
    let mut standings: Vec<Standing> = Vec::new();
    let mut rank: usize = 0;
    while rank < order.len()
        invariant
            rank <= order.len(),
            standings.len() == rank,
            is_stable_order(keys@, order@),
            keys.len() == names.len(),
            names.len() == totals.len(),
            forall|j: int|
                0 <= j < rank ==> {
                    &&& (#[trigger] standings[j]).rank == j
                    &&& standings[j].username@ == names[order[j] as int]@
                    &&& standings[j].points == totals[order[j] as int]
                },
        decreases order.len() - rank,
    {
        let from = order[rank];
        standings.push(Standing { rank, username: names[from].clone(), points: totals[from] });
        rank += 1;
    }
    proof {
        let from = Seq::new(order.len() as nat, |j: int| order[j] as int);
        let rows = rows_of(standings@);
        let made = groups(entries(scored@));
        assert forall|a: int, b: int| 0 <= a < b < rows.len() implies (#[trigger] rows[a]).1 >= (
        #[trigger] rows[b]).1 by {
            assert(keys[order[a] as int] <= keys[order[b] as int]);
        }
        assert forall|a: int, b: int|
            0 <= a < b < rows.len() && rows[a].1 == rows[b].1 implies #[trigger] from[a]
            < #[trigger] from[b] by {
            assert(keys[order[a] as int] == keys[order[b] as int]);
            assert(order[a] < order[b]);
        }
        assert forall|a: int, b: int| 0 <= a < b < from.len() implies #[trigger] from[a]
            != #[trigger] from[b] by {
            assert(order[a] != order[b]);
        }
        assert forall|g: int| 0 <= g < made.len() implies #[trigger] from.contains(g) by {
            assert(order@.contains(g as usize));
            let at = choose|at: int| 0 <= at < order.len() && order[at] == g as usize;
            assert(from[at] == g);
        }
        assert forall|a: int| 0 <= a < rows.len() implies #[trigger] rows[a] == made[from[a]] by {
            assert((names[order[a] as int]@, totals[order[a] as int] as nat) == made[order[a] as int]);
        }
        assert(ranked_from(made, rows, from));
    }
    standings
}

/// What stands between two lines of a rendered leaderboard.
pub const SEPARATOR: &'static str = " | ";

/// A line of the rendered leaderboard: the place, a full stop, the name and
/// the points.
pub open spec fn line_text(place: nat, name: Seq<char>, points: nat) -> Seq<char> {
    decimal(place) + ". "@ + name + " "@ + decimal(points)
}

/// The lines of the plain rendering: places counted from 1, names as they
/// are.
pub open spec fn text_lines(standings: Seq<Standing>) -> Seq<Seq<char>> {
    Seq::new(
        standings.len(),
        |i: int| line_text((i + 1) as nat, standings[i].username@, standings[i].points as nat),
    )
}

/// The first three of some characters, or as many as there are, ASCII
/// letters in upper case.
pub open spec fn first_three(letters: Seq<char>) -> Seq<char> {
    ascii_upper_text(
        if letters.len() > 3 {
            letters.take(3)
        } else {
            letters
        },
    )
}

/// The short name of a user on IRC: the first three letters or numbers of
/// the name, or as many as it has, ASCII letters in upper case.
pub open spec fn irc_code(name: Seq<char>) -> Seq<char> {
    first_three(name.filter(|c: char| alphanumeric(c)))
}

/// The lines of the IRC rendering: places counted from 1, short names.
pub open spec fn irc_lines(standings: Seq<Standing>) -> Seq<Seq<char>> {
    Seq::new(
        standings.len(),
        |i: int|
            line_text(
                (i + 1) as nat,
                irc_code(standings[i].username@),
                standings[i].points as nat,
            ),
    )
}

/// One rendered line.
fn line(place: usize, name: &str, points: u128) -> (text: String)
    ensures
        text@ == line_text(place as nat, name@, points as nat),
{
    let mut text = decimal_text(place as u128);
    text.append(". ");
    text.append(name);
    text.append(" ");
    text.append(decimal_text(points).as_str());
    text
}

/// The short name that the letters and numbers of a name give: the first
/// three of them, ASCII letters in upper case.
pub fn short_code(letters: &Vec<char>) -> (code: String)
    ensures
        code@ == first_three(letters@),
{
    let mut kept: Vec<char> = Vec::new();
    let mut i: usize = 0;
    while i < letters.len() && i < 3
        invariant
            i <= letters.len(),
            i <= 3,
            kept@ == letters@.take(i as int),
        decreases letters.len() - i,
    {
        kept.push(letters[i]);
        assert(kept@ =~= letters@.take(i + 1));
        i += 1;
    }
    assert(letters.len() <= 3 ==> letters@.take(i as int) =~= letters@);
    text_from(&kept).to_ascii_uppercase()
}

/// The short name of a user on IRC.
pub fn irc_code_of(name: &str) -> (code: String)
    ensures
        code@ == irc_code(name@),
{
    let ghost wanted = |c: char| alphanumeric(c);
    let length = name.unicode_len();
    let mut picked: Vec<char> = Vec::new();
    let mut i: usize = 0;
    while i < length && picked.len() < 3
        invariant
            i <= length,
            length == name@.len(),
            wanted == |c: char| alphanumeric(c),
            picked@ == name@.take(i as int).filter(wanted),
            picked.len() <= 3,
        decreases length - i,
    {
        let c = name.get_char(i);
        proof {
            assert(name@.take(i + 1) =~= name@.take(i as int).push(c));
            name@.take(i as int).lemma_filter_push(c, wanted);
        }
        if c.is_alphanumeric() {
            picked.push(c);
        }
        i += 1;
    }
    proof {
        let read = name@.take(i as int);
        let rest = name@.skip(i as int);
        assert(name@ =~= read + rest);
        Seq::filter_distributes_over_add(read, rest, wanted);
        let letters = name@.filter(wanted);
        if i == length {
            assert(rest.filter(wanted).len() == 0) by {
                rest.lemma_filter_len(wanted);
            }
            assert(letters =~= picked@);
        } else {
            assert(letters.take(3) =~= picked@);
        }
    }
    short_code(&picked)
}

/// The leaderboard as plain text: one line for each user, the lines
/// separated by a bar between two blanks.
pub fn render_text(standings: &[Standing]) -> (text: String)
    ensures
        text@ == joined(text_lines(standings@), SEPARATOR@),
{
    let mut lines: Vec<String> = Vec::new();
    let mut i: usize = 0;
    while i < standings.len()
        invariant
            i <= standings.len(),
            lines.len() == i,
            forall|k: int| 0 <= k < i ==> (#[trigger] lines[k])@ == text_lines(standings@)[k],
        decreases standings.len() - i,
    {
        lines.push(line(i + 1, standings[i].username.as_str(), standings[i].points));
        i += 1;
    }
    assert(texts(lines@) =~= text_lines(standings@));
    join_texts(&lines, SEPARATOR)
}

/// The leaderboard for IRC: as the plain text, with short names.
pub fn render_irc(standings: &[Standing]) -> (text: String)
    ensures
        text@ == joined(irc_lines(standings@), SEPARATOR@),
{
    let mut lines: Vec<String> = Vec::new();
    let mut i: usize = 0;
    while i < standings.len()
        invariant
            i <= standings.len(),
            lines.len() == i,
            forall|k: int| 0 <= k < i ==> (#[trigger] lines[k])@ == irc_lines(standings@)[k],
        decreases standings.len() - i,
    {
        let code = irc_code_of(standings[i].username.as_str());
        lines.push(line(i + 1, code.as_str(), standings[i].points));
        i += 1;
    }
    assert(texts(lines@) =~= irc_lines(standings@));
    join_texts(&lines, SEPARATOR)
}

/// The name and points of each line, in the order of the standings.
pub fn pairs(standings: &[Standing]) -> (rows: Vec<(String, u128)>)
    ensures
        rows.len() == standings.len(),
        forall|i: int|
            0 <= i < rows.len() ==> (#[trigger] rows[i]).0@ == standings[i].username@ && rows[i].1
                == standings[i].points,
{
    let mut rows: Vec<(String, u128)> = Vec::new();
    let mut i: usize = 0;
    while i < standings.len()
        invariant
            i <= standings.len(),
            rows.len() == i,
            forall|k: int|
                0 <= k < i ==> (#[trigger] rows[k]).0@ == standings[k].username@ && rows[k].1
                    == standings[k].points,
        decreases standings.len() - i,
    {
        rows.push((standings[i].username.clone(), standings[i].points));
        i += 1;
    }
    rows
}

/// A shape in which the leaderboard is handed out.
#[derive(Debug, PartialEq, Eq, Clone, Copy, Structural)]
pub enum Format {
    Json,
    Text,
    Irc,
}

/// The shape that a request names: `json`, `irc` or `text`, each in small
/// letters or in capitals; JSON where it names none; no shape for any other
/// word.
pub open spec fn format_named(kind: Option<Seq<char>>) -> Option<Format> {
    match kind {
        None => Some(Format::Json),
        Some(kind) => if kind == "json"@ || kind == "JSON"@ {
            Some(Format::Json)
        } else if kind == "irc"@ || kind == "IRC"@ {
            Some(Format::Irc)
        } else if kind == "text"@ || kind == "TEXT"@ {
            Some(Format::Text)
        } else {
            None
        },
    }
}

impl Format {
    /// Reads the shape that a request asks for.
    pub fn parse(kind: Option<&str>) -> (format: Option<Format>)
        ensures
            format == format_named(crate::queries::text_of(kind)),
    {
        match kind {
            None => Some(Format::Json),
            Some(kind) => {
                if same_text(kind, "json") || same_text(kind, "JSON") {
                    Some(Format::Json)
                } else if same_text(kind, "irc") || same_text(kind, "IRC") {
                    Some(Format::Irc)
                } else if same_text(kind, "text") || same_text(kind, "TEXT") {
                    Some(Format::Text)
                } else {
                    None
                }
            },
        }
    }
}

/// The leaderboard in the shape that was asked for.
pub enum LeaderboardResponse {
    Json(Vec<(String, u128)>),
    PlainText(String),
    Irc(String),
}

/// Renders the standings in the shape that the request names; nothing
/// where it names a shape that is not known.
pub fn respond(standings: &[Standing], kind: Option<&str>) -> (response: Option<LeaderboardResponse>)
    ensures
        match format_named(crate::queries::text_of(kind)) {
            None => response is None,
            Some(Format::Json) => response matches Some(LeaderboardResponse::Json(rows))
                && rows.len() == standings.len() && forall|i: int|
                0 <= i < rows.len() ==> (#[trigger] rows[i]).0@ == standings[i].username@
                    && rows[i].1 == standings[i].points,
            Some(Format::Text) => response matches Some(LeaderboardResponse::PlainText(text))
                && text@ == joined(text_lines(standings@), SEPARATOR@),
            Some(Format::Irc) => response matches Some(LeaderboardResponse::Irc(text)) && text@
                == joined(irc_lines(standings@), SEPARATOR@),
        },
{
    match Format::parse(kind) {
        None => None,
        Some(Format::Json) => Some(LeaderboardResponse::Json(pairs(standings))),
        Some(Format::Text) => Some(LeaderboardResponse::PlainText(render_text(standings))),
        Some(Format::Irc) => Some(LeaderboardResponse::Irc(render_irc(standings))),
    }
}

} // verus!
