//! Reading a shared Wordle result.
use crate::lines::{cut, line_ranges, lines, ranges_within};
use crate::debug_text::{bool_text, comma_joined, int_text, list_text, push_bool, push_i32};
use crate::numbers::{parse_i32, parse_i32_spec};
use crate::text::{chars_of, range_matches, str_eq};
use vstd::string::*;
use vstd::prelude::*;

verus! {

/// One square of a Wordle board.
#[derive(Clone, Copy, Debug, PartialEq, Eq)]
pub enum Tile {
    Black,
    Yellow,
    Green,
}

/// A shared Wordle result.
#[derive(Clone, Debug, PartialEq, Eq)]
pub struct Puzzle {
    pub day_offset: i32,
    pub attempts: i32,
    pub solved: bool,
    pub hard_mode: bool,
    pub board: Vec<Vec<Tile>>,
}

/// The tile that `name` stands for: a Slack emoji name or a raw emoji.
pub open spec fn tile_named(name: Seq<char>) -> Option<Tile> {
    if name == "black_large_square"@ {
        Some(Tile::Black)
    } else if name == "large_yellow_square"@ {
        Some(Tile::Yellow)
    } else if name == "large_green_square"@ {
        Some(Tile::Green)
    } else if name == "\u{2b1b}"@ {
        Some(Tile::Black)
    } else if name == "\u{1f7e8}"@ {
        Some(Tile::Yellow)
    } else if name == "\u{1f7e9}"@ {
        Some(Tile::Green)
    } else {
        None
    }
}

/// The tile that the characters `v[from..to]` name.
fn tile_in(v: &Vec<char>, from: usize, to: usize) -> (r: Option<Tile>)
    requires
        from <= to <= v@.len(),
    ensures
        r == tile_named(v@.subrange(from as int, to as int)),
{
    if range_matches(v, from, to, "black_large_square") {
        Some(Tile::Black)
    } else if range_matches(v, from, to, "large_yellow_square") {
        Some(Tile::Yellow)
    } else if range_matches(v, from, to, "large_green_square") {
        Some(Tile::Green)
    } else if range_matches(v, from, to, "\u{2b1b}") {
        Some(Tile::Black)
    } else if range_matches(v, from, to, "\u{1f7e8}") {
        Some(Tile::Yellow)
    } else if range_matches(v, from, to, "\u{1f7e9}") {
        Some(Tile::Green)
    } else {
        None
    }
}

impl Tile {
    /// The tile that `value` names; `Err` when it names none.
    pub fn try_from(value: String) -> (r: Result<Tile, ()>)
        ensures
            r matches Ok(t) ==> tile_named(value@) == Some(t),
            r is Err <==> tile_named(value@) is None,
    {
        let v = chars_of(value.as_str());
        assert(v@.subrange(0, v@.len() as int) =~= v@);
        match tile_in(&v, 0, v.len()) {
            Some(t) => Ok(t),
            None => Err(()),
        }
    }
}

/// The tiles that the pieces name, or `None` when one of them names no tile.
pub open spec fn tiles_of(pieces: Seq<Seq<char>>) -> Option<Seq<Tile>> {
    if forall|k: int| 0 <= k < pieces.len() ==> (#[trigger] tile_named(pieces[k])) is Some {
        Some(pieces.map_values(|p: Seq<char>| tile_named(p)->0))
    } else {
        None
    }
}

/// Whether `s` holds two colons in a row.
pub open spec fn has_double_colon(s: Seq<char>) -> bool {
    exists|k: int| 0 <= k && k + 1 < s.len() && #[trigger] s[k] == ':' && s[k + 1] == ':'
}

/// The pieces of `s` between occurrences of `::`, searched left to right
/// without overlap, as `str::split("::")` gives them; `cur` is the piece read
/// so far.
pub open spec fn split_double_colon(s: Seq<char>, cur: Seq<char>) -> Seq<Seq<char>>
    decreases s.len(),
{
    if s.len() == 0 {
        seq![cur]
    } else if s.len() >= 2 && s[0] == ':' && s[1] == ':' {
        seq![cur] + split_double_colon(s.skip(2), seq![])
    } else {
        split_double_colon(s.drop_first(), cur.push(s[0]))
    }
}

/// `s` with every `:` taken out.
pub open spec fn without_colons(s: Seq<char>) -> Seq<char>
    decreases s.len(),
{
    if s.len() == 0 {
        seq![]
    } else if s.last() == ':' {
        without_colons(s.drop_last())
    } else {
        without_colons(s.drop_last()).push(s.last())
    }
}

/// The row of tiles that a board line shows. A line holding `::` is Slack's
/// rendering (`:name::name:`), any other line is Discord's, one emoji per
/// character. `None` when a piece names no tile.
pub open spec fn parse_row(line: Seq<char>) -> Option<Seq<Tile>> {
    if has_double_colon(line) {
        tiles_of(split_double_colon(line, seq![]).map_values(|p: Seq<char>| without_colons(p)))
    } else {
        tiles_of(line.map_values(|c: char| seq![c]))
    }
}

/// A row of tiles as the sequence of its tiles.
pub open spec fn row_view(o: Option<Vec<Tile>>) -> Option<Seq<Tile>> {
    match o {
        Some(v) => Some(v@),
        None => None,
    }
}

fn find_double_colon(v: &Vec<char>) -> (r: bool)
    ensures
        r == has_double_colon(v@),
{
    let n = v.len();
    let mut i: usize = 0;
    while i < n
        invariant
            n == v@.len(),
            i <= n,
            forall|k: int| 0 <= k < i && k + 1 < n ==> !(#[trigger] v@[k] == ':' && v@[k + 1] == ':'),
        decreases n - i,
    {
        if i + 1 < n && v[i] == ':' && v[i + 1] == ':' {
            return true;
        }
        i = i + 1;
    }
    false
}

/// Discord's rendering: one tile emoji per character.
fn discord_row(v: &Vec<char>) -> (r: Option<Vec<Tile>>)
    ensures
        row_view(r) == tiles_of(v@.map_values(|c: char| seq![c])),
{
    let ghost pieces = v@.map_values(|c: char| seq![c]);
    let n = v.len();
    let mut tiles: Vec<Tile> = Vec::new();
    let mut i: usize = 0;
    while i < n
        invariant
            n == v@.len(),
            i <= n,
            pieces == v@.map_values(|c: char| seq![c]),
            tiles@.len() == i,
            forall|k: int| 0 <= k < i ==> tile_named(#[trigger] pieces[k]) == Some(tiles@[k]),
        decreases n - i,
    {
        assert(v@.subrange(i as int, i + 1) =~= pieces[i as int]);
        match tile_in(v, i, i + 1) {
            Some(t) => {
                tiles.push(t);
            },
            None => {
                assert(tile_named(pieces[i as int]) is None);
                return None;
            },
        }
        i = i + 1;
    }
    assert(pieces.map_values(|p: Seq<char>| tile_named(p)->0) =~= tiles@);
    Some(tiles)
}

/// Slack's rendering: `:name::name:...`.
fn slack_row(v: &Vec<char>) -> (r: Option<Vec<Tile>>)
    ensures
        row_view(r) == tiles_of(split_double_colon(v@, seq![]).map_values(|p: Seq<char>| without_colons(p))),
{
    let ghost full = split_double_colon(v@, seq![]);
    let ghost mut done: Seq<Seq<char>> = seq![];
    let ghost mut cur: Seq<char> = seq![];
    let mut piece: Vec<char> = Vec::new();
    let mut tiles: Vec<Tile> = Vec::new();
    let n = v.len();
    let mut i: usize = 0;
    assert(v@.skip(0) =~= v@);
    while i < n
        invariant
            n == v@.len(),
            i <= n,
            full == split_double_colon(v@, seq![]),
            full == done + split_double_colon(v@.skip(i as int), cur),
            piece@ == without_colons(cur),
            tiles@.len() == done.len(),
            forall|k: int| 0 <= k < done.len() ==> tile_named(without_colons(#[trigger] done[k])) == Some(tiles@[k]),
        decreases n - i,
    {
        let ghost rest = v@.skip(i as int);
        if i + 1 < n && v[i] == ':' && v[i + 1] == ':' {
            assert(rest.skip(2) =~= v@.skip(i + 2));
            assert(split_double_colon(rest, cur) == seq![cur] + split_double_colon(v@.skip(i + 2), seq![]));
            assert(piece@.subrange(0, piece@.len() as int) =~= piece@);
            match tile_in(&piece, 0, piece.len()) {
                Some(t) => {
                    tiles.push(t);
                },
                None => {
                    proof {
                        assert(full[done.len() as int] == cur);
                        let mapped = full.map_values(|p: Seq<char>| without_colons(p));
                        assert(tile_named(mapped[done.len() as int]) is None);
                    }
                    return None;
                },
            }
            proof {
                assert(done.push(cur) + split_double_colon(v@.skip(i + 2), seq![]) =~= done + (seq![cur] + split_double_colon(v@.skip(i + 2), seq![])));
                done = done.push(cur);
                cur = seq![];
            }
            piece = Vec::new();
            i = i + 2;
        } else {
            let c = v[i];
            assert(rest.drop_first() =~= v@.skip(i + 1));
            assert(rest[0] == c);
            proof {
                assert(cur.push(c).drop_last() =~= cur);
            }
            if c != ':' {
                piece.push(c);
            }
            proof {
                cur = cur.push(c);
            }
            i = i + 1;
        }
    }
    assert(v@.skip(n as int) =~= Seq::<char>::empty());
    assert(full == done.push(cur)) by {
        assert(done + seq![cur] =~= done.push(cur));
    }
    assert(piece@.subrange(0, piece@.len() as int) =~= piece@);
    match tile_in(&piece, 0, piece.len()) {
        Some(t) => {
            tiles.push(t);
        },
        None => {
            proof {
                assert(full[done.len() as int] == cur);
                let mapped = full.map_values(|p: Seq<char>| without_colons(p));
                assert(tile_named(mapped[done.len() as int]) is None);
            }
            return None;
        },
    }
    proof {
        let mapped = full.map_values(|p: Seq<char>| without_colons(p));
        assert forall|k: int| 0 <= k < mapped.len() implies (#[trigger] tile_named(mapped[k])) is Some by {
            if k < done.len() {
                assert(full[k] == done[k]);
            }
        }
        assert forall|k: int| 0 <= k < mapped.len() implies tile_named(#[trigger] mapped[k])->0 == tiles@[k] by {
            if k < done.len() {
                assert(full[k] == done[k]);
            }
        }
        assert(mapped.map_values(|p: Seq<char>| tile_named(p)->0) =~= tiles@);
    }
    Some(tiles)
}

/// The row of tiles that a board line shows; `None` when a piece of it names
/// no tile.
pub fn parse_row_exec(line: &Vec<char>) -> (r: Option<Vec<Tile>>)
    ensures
        row_view(r) == parse_row(line@),
{
    if find_double_colon(line) {
        slack_row(line)
    } else {
        discord_row(line)
    }
}

/// The board lines among `ls`: the non-empty ones, up to `room` of them.
pub open spec fn row_lines(ls: Seq<Seq<char>>, room: nat) -> Seq<Seq<char>>
    decreases ls.len(),
{
    if ls.len() == 0 || room == 0 {
        seq![]
    } else if ls[0].len() == 0 {
        row_lines(ls.drop_first(), room)
    } else {
        seq![ls[0]] + row_lines(ls.drop_first(), (room - 1) as nat)
    }
}

/// The rows that the lines show, or `None` when one of them is no row.
pub open spec fn rows_of(rls: Seq<Seq<char>>) -> Option<Seq<Seq<Tile>>> {
    if forall|k: int| 0 <= k < rls.len() ==> (#[trigger] parse_row(rls[k])) is Some {
        Some(rls.map_values(|l: Seq<char>| parse_row(l)->0))
    } else {
        None
    }
}

/// The lines of `s` after the first.
pub open spec fn body_lines(s: Seq<char>) -> Seq<Seq<char>> {
    if lines(s).len() == 0 {
        seq![]
    } else {
        lines(s).drop_first()
    }
}

/// The most rows a board has.
pub const MAX_ROWS: usize = 6;

/// The board that `s` shows below its first line: the first six non-empty
/// lines, each read as a row; `None` when one of them is no row.
pub open spec fn board_of(s: Seq<char>) -> Option<Seq<Seq<Tile>>> {
    rows_of(row_lines(body_lines(s), MAX_ROWS as nat))
}

/// A board as the sequence of its rows.
pub open spec fn board_view(b: Vec<Vec<Tile>>) -> Seq<Seq<Tile>> {
    b@.map_values(|r: Vec<Tile>| r@)
}

/// A copy of `v[from..to]`.
fn copy_range(v: &Vec<char>, from: usize, to: usize) -> (r: Vec<char>)
    requires
        from <= to <= v@.len(),
    ensures
        r@ == v@.subrange(from as int, to as int),
{
    let mut r: Vec<char> = Vec::new();
    let mut i: usize = from;
    while i < to
        invariant
            from <= i <= to <= v@.len(),
            r@ == v@.subrange(from as int, i as int),
        decreases to - i,
    {
        r.push(v[i]);
        i = i + 1;
        assert(r@ =~= v@.subrange(from as int, i as int));
    }
    r
}

/// The board that the text `v`, cut into lines at `ranges`, shows below its
/// first line; `None` when a board line is no row.
fn read_board(v: &Vec<char>, ranges: &Vec<(usize, usize)>) -> (r: Option<Vec<Vec<Tile>>>)
    requires
        ranges_within(ranges@, v@.len() as int),
        cut(v@, ranges@) == lines(v@),
    ensures
        r matches Some(b) ==> board_of(v@) == Some(board_view(b)),
        r is None <==> board_of(v@) is None,
{
    let ghost ls = lines(v@);
    let nl = ranges.len();
    let mut board: Vec<Vec<Tile>> = Vec::new();
    if nl == 0 {
        assert(body_lines(v@) =~= Seq::<Seq<char>>::empty());
        assert(rows_of(Seq::<Seq<char>>::empty()) == Some(Seq::<Seq<Tile>>::empty()));
        assert(board_view(board) =~= Seq::<Seq<Tile>>::empty());
        return Some(board);
    }
    let ghost mut consumed: Seq<Seq<char>> = seq![];
    let mut k: usize = 1;
    assert(body_lines(v@) =~= ls.skip(1));
    while k < nl && board.len() < MAX_ROWS
        invariant
            nl == ranges@.len() == ls.len(),
            1 <= k <= nl,
            ls == lines(v@),
            ranges_within(ranges@, v@.len() as int),
            cut(v@, ranges@) == ls,
            board.len() <= MAX_ROWS,
            row_lines(body_lines(v@), MAX_ROWS as nat) == consumed + row_lines(ls.skip(k as int), (MAX_ROWS - board.len()) as nat),
            consumed.len() == board@.len(),
            forall|m: int| 0 <= m < consumed.len() ==> parse_row(#[trigger] consumed[m]) == Some(board@[m]@),
        decreases nl - k,
    {
        let (from, to) = ranges[k];
        assert(ranges_within(ranges@, v@.len() as int));
        assert(ranges@[k as int].0 <= ranges@[k as int].1 <= v@.len());
        let line = copy_range(v, from, to);
        let ghost rest = ls.skip(k as int);
        assert(line@ == ls[k as int]);
        assert(rest[0] == ls[k as int]);
        assert(rest.drop_first() =~= ls.skip(k + 1));
        if line.len() == 0 {
            assert(row_lines(rest, (MAX_ROWS - board.len()) as nat) == row_lines(ls.skip(k + 1), (MAX_ROWS - board.len()) as nat));
        } else {
            let ghost room = (MAX_ROWS - board.len()) as nat;
            assert(row_lines(rest, room) == seq![line@] + row_lines(ls.skip(k + 1), (room - 1) as nat));
            match parse_row_exec(&line) {
                Some(row) => {
                    proof {
                        assert(consumed + (seq![line@] + row_lines(ls.skip(k + 1), (room - 1) as nat))
                            =~= consumed.push(line@) + row_lines(ls.skip(k + 1), (room - 1) as nat));
                        consumed = consumed.push(line@);
                    }
                    board.push(row);
                },
                None => {
                    proof {
                        let all = row_lines(body_lines(v@), MAX_ROWS as nat);
                        assert(all[consumed.len() as int] == line@);
                        assert(parse_row(all[consumed.len() as int]) is None);
                    }
                    return None;
                },
            }
        }
        k = k + 1;
    }
    proof {
        if k == nl {
            assert(ls.skip(k as int) =~= Seq::<Seq<char>>::empty());
        }
        let all = row_lines(body_lines(v@), MAX_ROWS as nat);
        assert(all =~= consumed);
        assert(all.map_values(|l: Seq<char>| parse_row(l)->0) =~= board_view(board));
    }
    Some(board)
}

/// What the `regex` crate reports for `haystack` and a regex compiled from
/// `pattern`: `None` when `Regex::new` refuses the pattern, `Some(None)` when
/// the regex does not match, and otherwise the text of each capture group of
/// the leftmost match (group 0 being the whole match), `None` for a group
/// that took no part in it.
pub uninterp spec fn regex_captures(pattern: Seq<char>, haystack: Seq<char>) -> Option<Option<Seq<Option<Seq<char>>>>>;

/// Compiles `pattern` with `regex::Regex::new` and runs `Regex::captures` on
/// `haystack`. The outcome is a function of the two strings alone and is
/// named `regex_captures`; nothing more is stated of it.
#[verifier::external_body]
fn captures(pattern: &str, haystack: &str) -> (r: Option<Option<Vec<Option<String>>>>)
    ensures
        r.deep_view() == regex_captures(pattern@, haystack@),
{
    match regex::Regex::new(pattern) {
        Err(_) => None,
        Ok(re) => Some(re.captures(haystack).map(
            |c| c.iter().map(|m| m.map(|m| m.as_str().to_string())).collect(),
        )),
    }
}

/// The first line of a shared result: `Wordle <day> <attempts>/6`, with a
/// `*` after it in hard mode; `X` attempts mean the puzzle was not solved.
/// Group 1 is the day, group 2 the attempts, group 4 the hard-mode star.
pub const HEADER_PATTERN: &'static str = r"Wordle (?<day_offset>\d+) (?<attempts>(\d|X))\/6(?<hard_mode>\*)?";

/// The first line of `s`, or nothing when `s` has no line.
pub open spec fn first_line(s: Seq<char>) -> Seq<char> {
    if lines(s).len() > 0 {
        lines(s)[0]
    } else {
        seq![]
    }
}

/// What the header pattern captures in the first line of `s`.
pub open spec fn header_captures(s: Seq<char>) -> Option<Option<Seq<Option<Seq<char>>>>> {
    regex_captures(HEADER_PATTERN@, first_line(s))
}

/// Whether the groups of a header match can be read without failing: the
/// day and the attempts are there and the day fits in an `i32`.
pub open spec fn groups_readable(g: Seq<Option<Seq<char>>>) -> bool {
    &&& g.len() > 4
    &&& g[1] is Some
    &&& g[2] is Some
    &&& parse_i32_spec(g[1]->0) is Some
}

/// Whether reading `s` runs to an answer when the header pattern captures
/// `caps` in its first line: the pattern compiles, and when it matches, its
/// groups are readable and every board line is a row.
pub open spec fn defined_with(s: Seq<char>, caps: Option<Option<Seq<Option<Seq<char>>>>>) -> bool {
    match caps {
        None => false,
        Some(None) => true,
        Some(Some(g)) => groups_readable(g) && board_of(s) is Some,
    }
}

/// Whether `r` is the puzzle that `s` shows when the header pattern captures
/// `caps` in its first line: `Err` when it does not match; otherwise the day
/// and attempts read from the groups (attempts that are no number, as `X`,
/// count as 6, and `X` means unsolved), the hard-mode star, and the board
/// below.
pub open spec fn result_with(s: Seq<char>, caps: Option<Option<Seq<Option<Seq<char>>>>>, r: Result<Puzzle, ()>) -> bool {
    match caps {
        Some(Some(g)) => {
            &&& r is Ok
            &&& r->Ok_0.day_offset == parse_i32_spec(g[1]->0)->0
            &&& r->Ok_0.attempts == match parse_i32_spec(g[2]->0) {
                Some(a) => a,
                None => 6i32,
            }
            &&& r->Ok_0.solved == (g[2]->0 != "X"@)
            &&& r->Ok_0.hard_mode == (g[4] is Some)
            &&& board_of(s) == Some(board_view(r->Ok_0.board))
        },
        _ => r is Err,
    }
}

/// Whether reading `s` as a puzzle runs to an answer.
pub open spec fn puzzle_defined(s: Seq<char>) -> bool {
    defined_with(s, header_captures(s))
}

/// Whether `r` is the puzzle that `s` shows.
pub open spec fn puzzle_result(s: Seq<char>, r: Result<Puzzle, ()>) -> bool {
    result_with(s, header_captures(s), r)
}

/// Reads `value` as a puzzle, given what the header pattern captures in its
/// first line (`None`: the pattern does not compile; `Some(None)`: no
/// match; otherwise the groups, 1 the day, 2 the attempts, 4 the hard-mode
/// star). `None` exactly where the reading would fail.
pub fn puzzle_from_captures(value: &String, caps: Option<Option<Vec<Option<String>>>>) -> (r: Option<Result<Puzzle, ()>>)
    ensures
        r is None <==> !defined_with(value@, caps.deep_view()),
        r matches Some(x) ==> result_with(value@, caps.deep_view(), x),
{
    match caps {
        None => None,
        Some(None) => Some(Err(())),
        Some(Some(g)) => {
            if g.len() <= 4 {
                return None;
            }
            let day = match &g[1] {
                Some(d) => parse_i32(d.as_str()),
                None => {
                    return None;
                },
            };
            let day_offset = match day {
                Some(d) => d,
                None => {
                    return None;
                },
            };
            let (attempts, solved) = match &g[2] {
                Some(a) => {
                    let attempts = match parse_i32(a.as_str()) {
                        Some(n) => n,
                        None => 6i32,
                    };
                    (attempts, !str_eq(a.as_str(), "X"))
                },
                None => {
                    return None;
                },
            };
            let hard_mode = g[4].is_some();
            let v = chars_of(value.as_str());
            let ranges = line_ranges(&v);
            match read_board(&v, &ranges) {
                Some(board) => Some(Ok(Puzzle { day_offset, attempts, solved, hard_mode, board })),
                None => None,
            }
        },
    }
}

/// Reads `value` as a puzzle; `None` exactly where the reading would fail.
fn read_puzzle(value: &String) -> (r: Option<Result<Puzzle, ()>>)
    ensures
        r is None <==> !puzzle_defined(value@),
        r matches Some(x) ==> puzzle_result(value@, x),
{
    let text = value.as_str();
    let v = chars_of(text);
    let ranges = line_ranges(&v);
    let first = if ranges.len() > 0 {
        let (from, to) = ranges[0];
        assert(ranges_within(ranges@, v@.len() as int));
        assert(ranges@[0].0 <= ranges@[0].1 <= v@.len());
        assert(cut(v@, ranges@)[0] == v@.subrange(from as int, to as int));
        text.substring_char(from, to)
    } else {
        text.substring_char(0, 0)
    };
    assert(first@ =~= first_line(value@));
    let caps = captures(HEADER_PATTERN, first);
    puzzle_from_captures(value, caps)
}

impl Puzzle {
    /// Reads a shared Wordle result: `Err` when its first line is no
    /// `Wordle <day> <attempts>/6` header.
    pub fn try_from(value: String) -> (r: Result<Puzzle, ()>)
        requires
            puzzle_defined(value@),
        ensures
            puzzle_result(value@, r),
    {
        match read_puzzle(&value) {
            Some(r) => r,
            None => Err(()),
        }
    }

    /// Reads a shared Wordle result as `try_from` does, where it runs to an
    /// answer; `None` on the texts that it cannot read (a day beyond `i32`, or
    /// a board line that is no row of tiles).
    pub fn parse(value: String) -> (r: Option<Result<Puzzle, ()>>)
        ensures
            r is None <==> !puzzle_defined(value@),
            r matches Some(x) ==> puzzle_result(value@, x),
    {
        if read_puzzle(&value).is_some() {
            Some(Puzzle::try_from(value))
        } else {
            None
        }
    }
}

/// How `{:?}` writes a tile.
pub open spec fn tile_text(t: Tile) -> Seq<char> {
    match t {
        Tile::Black => "Black"@,
        Tile::Yellow => "Yellow"@,
        Tile::Green => "Green"@,
    }
}

/// How `{:?}` writes a row of tiles.
pub open spec fn row_text(row: Seq<Tile>) -> Seq<char> {
    list_text(row.map_values(|t: Tile| tile_text(t)))
}

/// How `{:?}` writes a board.
pub open spec fn board_text(board: Seq<Seq<Tile>>) -> Seq<char> {
    list_text(board.map_values(|r: Seq<Tile>| row_text(r)))
}

/// How `{:?}` writes a puzzle.
pub open spec fn puzzle_text(p: Puzzle) -> Seq<char> {
    "Puzzle { day_offset: "@ + int_text(p.day_offset as int) + ", attempts: "@ + int_text(p.attempts as int)
        + ", solved: "@ + bool_text(p.solved) + ", hard_mode: "@ + bool_text(p.hard_mode) + ", board: "@
        + board_text(board_view(p.board)) + " }"@
}

proof fn lemma_comma_joined_step(items: Seq<Seq<char>>, i: int)
    requires
        0 <= i < items.len(),
    ensures
        comma_joined(items.take(i + 1)) == if i == 0 {
            items[0]
        } else {
            comma_joined(items.take(i)) + ", "@ + items[i]
        },
{
    assert(items.take(i + 1).drop_last() =~= items.take(i));
    assert(items.take(i + 1).last() == items[i]);
}

fn push_tile(out: &mut String, t: Tile)
    ensures
        final(out)@ == old(out)@ + tile_text(t),
{
    match t {
        Tile::Black => out.append("Black"),
        Tile::Yellow => out.append("Yellow"),
        Tile::Green => out.append("Green"),
    }
}

fn push_row(out: &mut String, row: &Vec<Tile>)
    ensures
        final(out)@ == old(out)@ + row_text(row@),
{
    let ghost items = row@.map_values(|t: Tile| tile_text(t));
    let ghost start = out@;
    out.append("[");
    assert(items.take(0) =~= Seq::<Seq<char>>::empty());
    let n = row.len();
    let mut i: usize = 0;
    while i < n
        invariant
            n == row@.len() == items.len(),
            i <= n,
            items == row@.map_values(|t: Tile| tile_text(t)),
            out@ == start + "["@ + comma_joined(items.take(i as int)),
        decreases n - i,
    {
        proof {
            lemma_comma_joined_step(items, i as int);
        }
        let ghost before = out@;
        if i > 0 {
            out.append(", ");
        }
        push_tile(out, row[i]);
        assert(out@ =~= start + "["@ + comma_joined(items.take(i + 1)));
        i = i + 1;
    }
    out.append("]");
    assert(items.take(n as int) =~= items);
    assert(out@ =~= start + row_text(row@));
}

fn push_board(out: &mut String, board: &Vec<Vec<Tile>>)
    ensures
        final(out)@ == old(out)@ + board_text(board_view(*board)),
{
    let ghost items = board_view(*board).map_values(|r: Seq<Tile>| row_text(r));
    let ghost start = out@;
    out.append("[");
    assert(items.take(0) =~= Seq::<Seq<char>>::empty());
    let n = board.len();
    let mut i: usize = 0;
    while i < n
        invariant
            n == board@.len() == items.len(),
            i <= n,
            items == board_view(*board).map_values(|r: Seq<Tile>| row_text(r)),
            out@ == start + "["@ + comma_joined(items.take(i as int)),
        decreases n - i,
    {
        proof {
            lemma_comma_joined_step(items, i as int);
        }
        if i > 0 {
            out.append(", ");
        }
        push_row(out, &board[i]);
        assert(items[i as int] == row_text(board@[i as int]@));
        assert(out@ =~= start + "["@ + comma_joined(items.take(i + 1)));
        i = i + 1;
    }
    out.append("]");
    assert(items.take(n as int) =~= items);
    assert(out@ =~= start + board_text(board_view(*board)));
}

impl Puzzle {
    /// The puzzle written out as `{:?}` writes it.
    pub fn debug_text(&self) -> (r: String)
        ensures
            r@ == puzzle_text(*self),
    {
        let mut out = String::new();
        out.append("Puzzle { day_offset: ");
        push_i32(&mut out, self.day_offset);
        out.append(", attempts: ");
        push_i32(&mut out, self.attempts);
        out.append(", solved: ");
        push_bool(&mut out, self.solved);
        out.append(", hard_mode: ");
        push_bool(&mut out, self.hard_mode);
        out.append(", board: ");
        push_board(&mut out, &self.board);
        out.append(" }");
        assert(out@ =~= puzzle_text(*self));
        out
    }
}

} // verus!
