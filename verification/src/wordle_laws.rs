//! What holds of every shared Wordle result that the reader accepts.
use crate::debug_text::{comma_joined, int_text, list_text, nat_text};
use crate::lines::{lines, lines_from, strip_cr};
use crate::numbers::{lemma_parse_i32_reads_written, parse_i32_spec};
use crate::wordle::{
    board_of, body_lines, first_line, has_double_colon, header_captures, parse_row, puzzle_defined,
    puzzle_result, result_with, row_lines, row_text, board_text, tile_text,
    split_double_colon, tile_named, without_colons, Puzzle, Tile, MAX_ROWS,
};
use vstd::prelude::*;
use vstd::string::*;

verus! {

/// The name that Slack writes for a tile's emoji.
pub open spec fn slack_name(t: Tile) -> Seq<char> {
    match t {
        Tile::Black => "black_large_square"@,
        Tile::Yellow => "large_yellow_square"@,
        Tile::Green => "large_green_square"@,
    }
}

/// The emoji that Discord shows for a tile.
pub open spec fn emoji(t: Tile) -> char {
    match t {
        Tile::Black => '\u{2b1b}',
        Tile::Yellow => '\u{1f7e8}',
        Tile::Green => '\u{1f7e9}',
    }
}

/// A row as Slack renders it: `:name:` for each tile, one after the other.
pub open spec fn slack_text(ts: Seq<Tile>) -> Seq<char>
    decreases ts.len(),
{
    if ts.len() == 0 {
        seq![]
    } else {
        seq![':'] + slack_name(ts[0]) + seq![':'] + slack_text(ts.drop_first())
    }
}

/// A row as Discord renders it: the emoji of each tile.
pub open spec fn discord_text(ts: Seq<Tile>) -> Seq<char> {
    ts.map_values(|t: Tile| emoji(t))
}

spec fn no_colon(x: Seq<char>) -> bool {
    forall|i: int| 0 <= i < x.len() ==> #[trigger] x[i] != ':'
}

proof fn lemma_names()
    ensures
        forall|t: Tile| #[trigger] tile_named(slack_name(t)) == Some(t),
        forall|t: Tile| #[trigger] tile_named(seq![emoji(t)]) == Some(t),
        forall|t: Tile| no_colon(#[trigger] slack_name(t)) && slack_name(t).len() > 0,
{
    reveal_strlit("black_large_square");
    reveal_strlit("large_yellow_square");
    reveal_strlit("large_green_square");
    reveal_strlit("\u{2b1b}");
    reveal_strlit("\u{1f7e8}");
    reveal_strlit("\u{1f7e9}");
    assert(seq!['\u{2b1b}'] =~= "\u{2b1b}"@);
    assert(seq!['\u{1f7e8}'] =~= "\u{1f7e8}"@);
    assert(seq!['\u{1f7e9}'] =~= "\u{1f7e9}"@);
    assert forall|t: Tile| #[trigger] tile_named(seq![emoji(t)]) == Some(t) by {
        let e = seq![emoji(t)];
        assert(e.len() != "black_large_square"@.len());
        assert(e.len() != "large_yellow_square"@.len());
        assert(e.len() != "large_green_square"@.len());
        match t {
            Tile::Black => {},
            Tile::Yellow => {
                assert(e[0] != "\u{2b1b}"@[0]);
            },
            Tile::Green => {
                assert(e[0] != "\u{2b1b}"@[0]);
                assert(e[0] != "\u{1f7e8}"@[0]);
            },
        }
    }
    assert(slack_name(Tile::Yellow) != "black_large_square"@) by {
        assert(slack_name(Tile::Yellow).len() != "black_large_square"@.len());
    }
    assert(slack_name(Tile::Green) != "black_large_square"@) by {
        assert(slack_name(Tile::Green)[0] != "black_large_square"@[0]);
    }
    assert(slack_name(Tile::Green) != "large_yellow_square"@) by {
        assert(slack_name(Tile::Green).len() != "large_yellow_square"@.len());
    }
}

/// Reading past characters that are no colon only adds them to the current piece.
proof fn lemma_split_skips(x: Seq<char>, y: Seq<char>, cur: Seq<char>)
    requires
        no_colon(x),
    ensures
        split_double_colon(x + y, cur) == split_double_colon(y, cur + x),
    decreases x.len(),
{
    if x.len() == 0 {
        assert(x + y =~= y);
        assert(cur + x =~= cur);
    } else {
        let s = x + y;
        assert(s[0] == x[0]);
        assert(s.drop_first() =~= x.drop_first() + y);
        assert(no_colon(x.drop_first()));
        lemma_split_skips(x.drop_first(), y, cur.push(x[0]));
        assert(cur.push(x[0]) + x.drop_first() =~= cur + x);
    }
}

/// The pieces that splitting a Slack row at `::` gives, the first one after
/// `prefix`.
spec fn slack_pieces(ts: Seq<Tile>, prefix: Seq<char>) -> Seq<Seq<char>>
    decreases ts.len(),
{
    if ts.len() <= 1 {
        seq![prefix + slack_name(ts[0]) + seq![':']]
    } else {
        seq![prefix + slack_name(ts[0])] + slack_pieces(ts.drop_first(), seq![])
    }
}

proof fn lemma_split_slack_tail(ts: Seq<Tile>, prefix: Seq<char>)
    requires
        ts.len() >= 1,
    ensures
        split_double_colon(slack_name(ts[0]) + seq![':'] + slack_text(ts.drop_first()), prefix)
            == slack_pieces(ts, prefix),
    decreases ts.len(),
{
    lemma_names();
    let name = slack_name(ts[0]);
    let rest = ts.drop_first();
    let y = seq![':'] + slack_text(rest);
    assert(name + seq![':'] + slack_text(rest) =~= name + y);
    lemma_split_skips(name, y, prefix);
    if rest.len() == 0 {
        assert(y =~= seq![':']);
        assert(y.drop_first() =~= Seq::<char>::empty());
        let p = (prefix + name).push(':');
        assert(split_double_colon(Seq::<char>::empty(), p) == seq![p]);
        assert(split_double_colon(y, prefix + name) == split_double_colon(y.drop_first(), p));
        assert(p =~= prefix + name + seq![':']);
        assert(slack_pieces(ts, prefix) == seq![prefix + name + seq![':']]);
    } else {
        let tail = slack_name(rest[0]) + seq![':'] + slack_text(rest.drop_first());
        assert(slack_text(rest) =~= seq![':'] + tail);
        assert(y[0] == ':' && y[1] == ':');
        assert(y.skip(2) =~= tail);
        assert(split_double_colon(y, prefix + name) == seq![prefix + name] + split_double_colon(tail, seq![]));
        lemma_split_slack_tail(rest, seq![]);
        assert(slack_pieces(ts, prefix) == seq![prefix + name] + slack_pieces(rest, seq![]));
    }
}

proof fn lemma_without_colons_colon()
    ensures
        without_colons(seq![':']) == Seq::<char>::empty(),
        without_colons(Seq::<char>::empty()) == Seq::<char>::empty(),
{
    assert(seq![':'].drop_last() =~= Seq::<char>::empty());
    assert(without_colons(Seq::<char>::empty()) == Seq::<char>::empty());
}

proof fn lemma_without_colons_concat(a: Seq<char>, b: Seq<char>)
    ensures
        without_colons(a + b) == without_colons(a) + without_colons(b),
    decreases b.len(),
{
    if b.len() == 0 {
        assert(a + b =~= a);
        assert(without_colons(a) + without_colons(b) =~= without_colons(a));
    } else {
        assert((a + b).drop_last() =~= a + b.drop_last());
        lemma_without_colons_concat(a, b.drop_last());
        if b.last() == ':' {
        } else {
            assert(without_colons(a) + without_colons(b.drop_last()).push(b.last())
                =~= (without_colons(a) + without_colons(b.drop_last())).push(b.last()));
        }
    }
}

proof fn lemma_without_colons_plain(x: Seq<char>)
    requires
        no_colon(x),
    ensures
        without_colons(x) == x,
    decreases x.len(),
{
    if x.len() > 0 {
        assert(no_colon(x.drop_last()));
        lemma_without_colons_plain(x.drop_last());
        assert(x.drop_last().push(x.last()) =~= x);
    }
}

proof fn lemma_slack_pieces_names(ts: Seq<Tile>, prefix: Seq<char>)
    requires
        ts.len() >= 1,
        without_colons(prefix) == Seq::<char>::empty(),
    ensures
        slack_pieces(ts, prefix).len() == ts.len(),
        forall|i: int| 0 <= i < ts.len() ==> without_colons(#[trigger] slack_pieces(ts, prefix)[i]) == slack_name(ts[i]),
    decreases ts.len(),
{
    lemma_names();
    let name = slack_name(ts[0]);
    lemma_without_colons_plain(name);
    lemma_without_colons_concat(prefix, name);
    assert(Seq::<char>::empty() + name =~= name);
    let colon = seq![':'];
    lemma_without_colons_colon();
    lemma_without_colons_concat(prefix + name, colon);
    assert(name + Seq::<char>::empty() =~= name);
    if ts.len() > 1 {
        let rest = ts.drop_first();
        assert(without_colons(Seq::<char>::empty()) == Seq::<char>::empty());
        lemma_slack_pieces_names(rest, seq![]);
        assert forall|i: int| 0 <= i < ts.len() implies without_colons(
            #[trigger] slack_pieces(ts, prefix)[i],
        ) == slack_name(ts[i]) by {
            if i > 0 {
                assert(slack_pieces(ts, prefix)[i] == slack_pieces(rest, seq![])[i - 1]);
                assert(ts[i] == rest[i - 1]);
            }
        }
    }
}

/// A row of two or more tiles reads the same whether Slack renders it as
/// emoji names or Discord as emoji: as exactly those tiles. (Slack's
/// rendering of a single tile holds no `::` and is read character by
/// character, so it is no row.)
pub proof fn lemma_slack_and_discord_rows_agree(ts: Seq<Tile>)
    requires
        ts.len() >= 2,
    ensures
        parse_row(slack_text(ts)) == Some(ts),
        parse_row(discord_text(ts)) == Some(ts),
{
    lemma_names();
    // Slack: ":" name0 ":" ":" name1 ":" ...
    let s = slack_text(ts);
    let rest = ts.drop_first();
    let name0 = slack_name(ts[0]);
    let body = name0 + seq![':'] + slack_text(rest);
    assert(s =~= seq![':'] + body);
    let k: int = name0.len() as int + 1;
    assert(slack_text(rest) =~= seq![':'] + slack_name(rest[0]) + seq![':'] + slack_text(rest.drop_first()));
    assert(s[k] == ':' && s[k + 1] == ':');
    assert(has_double_colon(s));
    assert(s[0] == ':');
    assert(s[1] == name0[0]);
    assert(s.drop_first() =~= body);
    lemma_split_slack_tail(ts, seq![':']);
    let pieces = split_double_colon(s, seq![]);
    assert(pieces == slack_pieces(ts, seq![':']));
    lemma_without_colons_colon();
    lemma_slack_pieces_names(ts, seq![':']);
    let names = pieces.map_values(|p: Seq<char>| without_colons(p));
    assert forall|i: int| 0 <= i < names.len() implies (#[trigger] tile_named(names[i])) is Some by {
        assert(names[i] == slack_name(ts[i]));
    }
    assert(names.map_values(|p: Seq<char>| tile_named(p)->0) =~= ts) by {
        assert forall|i: int| 0 <= i < names.len() implies tile_named(#[trigger] names[i])->0 == ts[i] by {
            assert(names[i] == slack_name(ts[i]));
        }
    }
    // Discord: one emoji per character, none of them a colon.
    let d = discord_text(ts);
    assert(!has_double_colon(d)) by {
        assert forall|k: int| 0 <= k && k + 1 < d.len() implies !(#[trigger] d[k] == ':' && d[k + 1] == ':') by {
            assert(d[k] == emoji(ts[k]));
        }
    }
    let singles = d.map_values(|c: char| seq![c]);
    assert forall|i: int| 0 <= i < singles.len() implies (#[trigger] tile_named(singles[i])) is Some by {
        assert(singles[i] == seq![emoji(ts[i])]);
    }
    assert(singles.map_values(|p: Seq<char>| tile_named(p)->0) =~= ts) by {
        assert forall|i: int| 0 <= i < singles.len() implies tile_named(#[trigger] singles[i])->0 == ts[i] by {
            assert(singles[i] == seq![emoji(ts[i])]);
        }
    }
}

proof fn lemma_row_lines_len(ls: Seq<Seq<char>>, room: nat)
    ensures
        row_lines(ls, room).len() <= room,
    decreases ls.len(),
{
    if ls.len() > 0 && room > 0 {
        lemma_row_lines_len(ls.drop_first(), room);
        lemma_row_lines_len(ls.drop_first(), (room - 1) as nat);
    }
}

/// A board that the reader accepts has at most six rows, however many lines
/// follow the header.
pub proof fn lemma_board_at_most_six_rows(s: Seq<char>)
    ensures
        board_of(s) matches Some(b) ==> b.len() <= MAX_ROWS,
{
    lemma_row_lines_len(body_lines(s), MAX_ROWS as nat);
}

/// A puzzle read as unsolved (`X/6`) counts six attempts.
pub proof fn lemma_unsolved_counts_six(s: Seq<char>, r: Result<Puzzle, ()>)
    requires
        puzzle_result(s, r),
        r matches Ok(p) && !p.solved,
    ensures
        r->Ok_0.attempts == 6,
{
    reveal_strlit("X");
    let g = header_captures(s)->0->0;
    assert(g[2]->0 == "X"@);
    assert(parse_i32_spec("X"@) is None) by {
        let x = "X"@;
        assert(x.len() == 1 && x[0] == 'X');
        assert(x[0] != '+' && x[0] != '-');
        assert(!crate::numbers::is_digit(x[0]));
    }
}

/// `s` with every line ending written as `\r\n`, as some chat clients send it.
pub open spec fn crlf(s: Seq<char>) -> Seq<char>
    decreases s.len(),
{
    if s.len() == 0 {
        seq![]
    } else if s[0] == '\n' {
        seq!['\r', '\n'] + crlf(s.drop_first())
    } else {
        seq![s[0]] + crlf(s.drop_first())
    }
}

/// Whether `s` holds no carriage return.
pub open spec fn no_cr(s: Seq<char>) -> bool {
    forall|i: int| 0 <= i < s.len() ==> #[trigger] s[i] != '\r'
}

proof fn lemma_crlf_lines_from(s: Seq<char>, cur: Seq<char>)
    requires
        no_cr(s),
        no_cr(cur),
    ensures
        lines_from(crlf(s), cur) == lines_from(s, cur),
    decreases s.len(),
{
    if s.len() > 0 {
        let rest = s.drop_first();
        assert(no_cr(rest));
        let t = crlf(s);
        if s[0] == '\n' {
            lemma_crlf_lines_from(rest, seq![]);
            let with_cr = cur.push('\r');
            assert(t[0] == '\r');
            assert(t.drop_first() =~= seq!['\n'] + crlf(rest));
            assert(lines_from(t, cur) == lines_from(t.drop_first(), with_cr));
            let u = t.drop_first();
            assert(u[0] == '\n');
            assert(u.drop_first() =~= crlf(rest));
            assert(lines_from(u, with_cr) == seq![strip_cr(with_cr)] + lines_from(crlf(rest), seq![]));
            assert(strip_cr(with_cr) =~= cur);
            assert(cur.len() > 0 ==> cur.last() != '\r');
            assert(strip_cr(cur) == cur);
            assert(no_cr(Seq::<char>::empty()));
        } else {
            assert(t.drop_first() =~= crlf(rest));
            assert(t[0] == s[0]);
            assert(no_cr(cur.push(s[0])));
            lemma_crlf_lines_from(rest, cur.push(s[0]));
        }
    }
}

/// A result sent with `\r\n` line endings reads exactly as the same result
/// sent with `\n` ones. (A text that already holds a `\r` is left out: a
/// lone `\r` before a line ending would stay in the line.)
pub proof fn lemma_crlf_reads_like_lf(s: Seq<char>)
    requires
        no_cr(s),
    ensures
        puzzle_defined(crlf(s)) == puzzle_defined(s),
        forall|r: Result<Puzzle, ()>| puzzle_result(crlf(s), r) == puzzle_result(s, r),
{
    assert(no_cr(Seq::<char>::empty()));
    lemma_crlf_lines_from(s, seq![]);
    assert(lines(crlf(s)) == lines(s));
    assert(first_line(crlf(s)) == first_line(s));
    assert(body_lines(crlf(s)) == body_lines(s));
    assert(header_captures(crlf(s)) == header_captures(s));
    assert(board_of(crlf(s)) == board_of(s));
}

/// The lines of `ls` that are not empty, in order.
pub open spec fn nonblank(ls: Seq<Seq<char>>) -> Seq<Seq<char>>
    decreases ls.len(),
{
    if ls.len() == 0 {
        seq![]
    } else if ls[0].len() == 0 {
        nonblank(ls.drop_first())
    } else {
        seq![ls[0]] + nonblank(ls.drop_first())
    }
}

proof fn lemma_row_lines_nonblank(ls: Seq<Seq<char>>, room: nat)
    ensures
        row_lines(ls, room) == row_lines(nonblank(ls), room),
    decreases ls.len(),
{
    if ls.len() > 0 {
        let df = ls.drop_first();
        if ls[0].len() == 0 {
            lemma_row_lines_nonblank(df, room);
        } else if room > 0 {
            lemma_row_lines_nonblank(df, (room - 1) as nat);
            let nb = nonblank(ls);
            assert(nb[0] == ls[0]);
            assert(nb.drop_first() =~= nonblank(df));
        }
    }
}

proof fn lemma_nonblank_concat(p: Seq<Seq<char>>, q: Seq<Seq<char>>)
    ensures
        nonblank(p + q) == nonblank(p) + nonblank(q),
    decreases p.len(),
{
    if p.len() == 0 {
        assert(p + q =~= q);
        assert(nonblank(p) + nonblank(q) =~= nonblank(q));
    } else {
        assert((p + q)[0] == p[0]);
        assert((p + q).drop_first() =~= p.drop_first() + q);
        lemma_nonblank_concat(p.drop_first(), q);
        if p[0].len() != 0 {
            assert(seq![p[0]] + (nonblank(p.drop_first()) + nonblank(q))
                =~= (seq![p[0]] + nonblank(p.drop_first())) + nonblank(q));
        }
    }
}

/// Blank lines after the first line do not matter: two texts with the same
/// first line and the same non-empty lines after it, in the same order, read
/// alike.
pub proof fn lemma_blank_lines_do_not_matter(s: Seq<char>, t: Seq<char>)
    requires
        first_line(s) == first_line(t),
        nonblank(body_lines(s)) == nonblank(body_lines(t)),
    ensures
        puzzle_defined(s) == puzzle_defined(t),
        forall|r: Result<Puzzle, ()>| puzzle_result(s, r) == puzzle_result(t, r),
{
    lemma_row_lines_nonblank(body_lines(s), MAX_ROWS as nat);
    lemma_row_lines_nonblank(body_lines(t), MAX_ROWS as nat);
    assert(board_of(s) == board_of(t));
    assert(header_captures(s) == header_captures(t));
}

proof fn lemma_lines_nonempty(x: Seq<char>, cur: Seq<char>)
    requires
        x.len() > 0,
        x.last() == '\n',
    ensures
        lines_from(x, cur).len() > 0,
    decreases x.len(),
{
    if x[0] != '\n' {
        assert(x.drop_first().last() == '\n');
        lemma_lines_nonempty(x.drop_first(), cur.push(x[0]));
    }
}

proof fn lemma_lines_concat(x: Seq<char>, y: Seq<char>, cur: Seq<char>)
    requires
        x.len() > 0,
        x.last() == '\n',
    ensures
        lines_from(x + y, cur) == lines_from(x, cur) + lines(y),
    decreases x.len(),
{
    let xy = x + y;
    assert(xy[0] == x[0]);
    assert(xy.drop_first() =~= x.drop_first() + y);
    if x.len() == 1 {
        assert(x.drop_first() =~= Seq::<char>::empty());
        assert(x.drop_first() + y =~= y);
        assert(lines_from(Seq::<char>::empty(), seq![]) == Seq::<Seq<char>>::empty());
        assert(lines_from(x, cur) == seq![strip_cr(cur)] + Seq::<Seq<char>>::empty());
        assert(seq![strip_cr(cur)] + Seq::<Seq<char>>::empty() =~= seq![strip_cr(cur)]);
    } else {
        assert(x.drop_first().last() == '\n');
        if x[0] == '\n' {
            lemma_lines_concat(x.drop_first(), y, seq![]);
            assert(seq![strip_cr(cur)] + (lines_from(x.drop_first(), seq![]) + lines(y))
                =~= (seq![strip_cr(cur)] + lines_from(x.drop_first(), seq![])) + lines(y));
        } else {
            lemma_lines_concat(x.drop_first(), y, cur.push(x[0]));
        }
    }
}

/// A blank line inserted anywhere after the first line (right after a line
/// ending) leaves the reading unchanged; read backwards, so does removing one.
pub proof fn lemma_blank_line_inserted(a: Seq<char>, b: Seq<char>)
    requires
        a.len() > 0,
        a.last() == '\n',
    ensures
        puzzle_defined(a + seq!['\n'] + b) == puzzle_defined(a + b),
        forall|r: Result<Puzzle, ()>| puzzle_result(a + seq!['\n'] + b, r) == puzzle_result(a + b, r),
{
    let s = a + seq!['\n'] + b;
    let t = a + b;
    let nb = seq!['\n'] + b;
    assert(s =~= a + nb);
    lemma_lines_concat(a, nb, seq![]);
    lemma_lines_concat(a, b, seq![]);
    lemma_lines_nonempty(a, seq![]);
    assert(nb[0] == '\n');
    assert(nb.drop_first() =~= b);
    let la = lines(a);
    let blank: Seq<Seq<char>> = seq![strip_cr(Seq::<char>::empty())];
    assert(lines(nb) == blank + lines(b));
    assert(strip_cr(Seq::<char>::empty()) =~= Seq::<char>::empty());
    assert(lines(s) == la + (blank + lines(b)));
    assert(lines(t) == la + lines(b));
    assert(first_line(s) == first_line(t));
    assert(body_lines(s) =~= la.drop_first() + (blank + lines(b)));
    assert(body_lines(t) =~= la.drop_first() + lines(b));
    lemma_nonblank_concat(la.drop_first(), blank + lines(b));
    lemma_nonblank_concat(blank, lines(b));
    lemma_nonblank_concat(la.drop_first(), lines(b));
    assert(blank.drop_first() =~= Seq::<Seq<char>>::empty());
    assert(nonblank(blank) == nonblank(Seq::<Seq<char>>::empty()));
    assert(nonblank(Seq::<Seq<char>>::empty()) == Seq::<Seq<char>>::empty());
    assert(nonblank(blank + lines(b)) =~= nonblank(lines(b)));
    lemma_blank_lines_do_not_matter(s, t);
}

/// The hard-mode star alone decides hard mode: whenever the header matches,
/// the puzzle read is in hard mode exactly when the star group is there,
/// whatever the attempts group holds (a number, or `X`).
pub proof fn lemma_star_means_hard_mode(s: Seq<char>, g: Seq<Option<Seq<char>>>, p: Puzzle)
    requires
        result_with(s, Some(Some(g)), Ok(p)),
    ensures
        p.hard_mode <==> g[4] is Some,
{
}

/// Read from a text, the same holds: when the header of `s` matches with the
/// groups `g`, the puzzle read from `s` is in hard mode exactly when the star
/// group is there.
pub proof fn lemma_header_star_means_hard_mode(s: Seq<char>, g: Seq<Option<Seq<char>>>, p: Puzzle)
    requires
        header_captures(s) == Some(Some(g)),
        puzzle_result(s, Ok(p)),
    ensures
        p.hard_mode <==> g[4] is Some,
{
    lemma_star_means_hard_mode(s, g, p);
}

/// Two results whose headers agree on the star are read alike in hard mode,
/// however their attempts differ.
pub proof fn lemma_hard_mode_ignores_attempts(
    s1: Seq<char>,
    g1: Seq<Option<Seq<char>>>,
    p1: Puzzle,
    s2: Seq<char>,
    g2: Seq<Option<Seq<char>>>,
    p2: Puzzle,
)
    requires
        result_with(s1, Some(Some(g1)), Ok(p1)),
        result_with(s2, Some(Some(g2)), Ok(p2)),
        g1[4] == g2[4],
    ensures
        p1.hard_mode == p2.hard_mode,
{
    lemma_star_means_hard_mode(s1, g1, p1);
    lemma_star_means_hard_mode(s2, g2, p2);
}

/// The numbers in the header are read back as written: a day group that
/// writes `day` gives that day, an attempts group that writes `k` gives `k`
/// attempts and a solved puzzle, and `X` gives six attempts and an unsolved
/// one.
pub proof fn lemma_header_numbers_read_back(s: Seq<char>, g: Seq<Option<Seq<char>>>, p: Puzzle, day: nat, k: nat)
    requires
        result_with(s, Some(Some(g)), Ok(p)),
    ensures
        g[1] == Some(nat_text(day)) && day <= i32::MAX ==> p.day_offset == day,
        g[2] == Some(nat_text(k)) && k <= i32::MAX ==> p.attempts == k && p.solved,
        g[2] == Some("X"@) ==> p.attempts == 6 && !p.solved,
{
    reveal_strlit("X");
    assert(parse_i32_spec("X"@) is None) by {
        let x = "X"@;
        assert(x.len() == 1 && x[0] == 'X');
        assert(x[0] != '+' && x[0] != '-');
        assert(!crate::numbers::is_digit(x[0]));
    }
    if day <= i32::MAX {
        lemma_parse_i32_reads_written(day as int);
        assert(int_text(day as int) == nat_text(day));
    }
    if k <= i32::MAX {
        lemma_parse_i32_reads_written(k as int);
        assert(int_text(k as int) == nat_text(k));
        if nat_text(k) == "X"@ {
            assert(false);
        }
    }
}

proof fn lemma_nonblank_has_no_blank(ls: Seq<Seq<char>>)
    ensures
        forall|i: int| 0 <= i < nonblank(ls).len() ==> (#[trigger] nonblank(ls)[i]).len() > 0,
    decreases ls.len(),
{
    if ls.len() > 0 {
        lemma_nonblank_has_no_blank(ls.drop_first());
        if ls[0].len() > 0 {
            let nb = nonblank(ls);
            assert forall|i: int| 0 <= i < nb.len() implies (#[trigger] nb[i]).len() > 0 by {
                if i > 0 {
                    assert(nb[i] == nonblank(ls.drop_first())[i - 1]);
                }
            }
        }
    }
}

proof fn lemma_row_lines_take(ls: Seq<Seq<char>>, room: nat)
    requires
        forall|i: int| 0 <= i < ls.len() ==> (#[trigger] ls[i]).len() > 0,
    ensures
        row_lines(ls, room) == ls.take(if ls.len() < room { ls.len() as int } else { room as int }),
    decreases ls.len(),
{
    if ls.len() == 0 || room == 0 {
        assert(ls.take(0) =~= Seq::<Seq<char>>::empty());
    } else {
        let rest = ls.drop_first();
        assert forall|i: int| 0 <= i < rest.len() implies (#[trigger] rest[i]).len() > 0 by {
            assert(rest[i] == ls[i + 1]);
        }
        assert(ls[0].len() > 0);
        lemma_row_lines_take(rest, (room - 1) as nat);
        let m: int = if rest.len() < (room - 1) as nat { rest.len() as int } else { room - 1 };
        assert(seq![ls[0]] + rest.take(m) =~= ls.take(m + 1));
    }
}

/// The board of a result is its non-empty lines after the first, each read
/// as a row, in order, up to six of them: one row per such line.
pub proof fn lemma_board_rows_are_lines(s: Seq<char>)
    ensures
        board_of(s) matches Some(b) ==> {
            let nb = nonblank(body_lines(s));
            &&& b.len() == if nb.len() < 6 { nb.len() } else { 6 }
            &&& forall|i: int| 0 <= i < b.len() ==> parse_row(#[trigger] nb[i]) == Some(b[i])
        },
{
    let nb = nonblank(body_lines(s));
    lemma_row_lines_nonblank(body_lines(s), MAX_ROWS as nat);
    lemma_nonblank_has_no_blank(body_lines(s));
    lemma_row_lines_take(nb, MAX_ROWS as nat);
    let rls = row_lines(body_lines(s), MAX_ROWS as nat);
    if board_of(s) is Some {
        let b = board_of(s)->0;
        assert forall|i: int| 0 <= i < b.len() implies parse_row(#[trigger] nb[i]) == Some(b[i]) by {
            assert(rls[i] == nb[i]);
            assert(parse_row(rls[i]) is Some);
        }
    }
}

/// The names written for the tiles tell the tiles apart.
pub proof fn lemma_tile_texts_differ(t1: Tile, t2: Tile)
    ensures
        tile_text(t1) == tile_text(t2) ==> t1 == t2,
{
    reveal_strlit("Black");
    reveal_strlit("Yellow");
    reveal_strlit("Green");
    if t1 != t2 && tile_text(t1) == tile_text(t2) {
        assert(tile_text(t1).len() == tile_text(t2).len());
        assert(tile_text(t1)[0] == tile_text(t2)[0]);
    }
}

/// Appending an item to a list of two or more items writes it after a comma,
/// before the closing bracket.
proof fn lemma_list_text_push(items: Seq<Seq<char>>, x: Seq<char>)
    requires
        items.len() > 0,
    ensures
        list_text(items.push(x)) == list_text(items).drop_last() + ", "@ + x + "]"@,
{
    reveal_strlit("]");
    let grown = items.push(x);
    assert(grown.drop_last() =~= items);
    assert(grown.last() == x);
    assert(comma_joined(grown) == comma_joined(items) + ", "@ + x);
    assert(list_text(items).drop_last() =~= "["@ + comma_joined(items));
    assert(list_text(grown) =~= list_text(items).drop_last() + ", "@ + x + "]"@);
}

proof fn lemma_list_text_short(x: Seq<char>)
    ensures
        list_text(Seq::<Seq<char>>::empty()) == "[]"@,
        list_text(seq![x]) == "["@ + x + "]"@,
{
    reveal_strlit("[]");
    reveal_strlit("[");
    reveal_strlit("]");
    assert(comma_joined(Seq::<Seq<char>>::empty()) =~= Seq::<char>::empty());
    assert(list_text(Seq::<Seq<char>>::empty()) =~= "[]"@);
}

/// How a row is written, tile by tile: an empty row is `[]`, a row of one
/// tile is that tile's name in brackets, and one tile more adds `, ` and the
/// tile's name before the closing bracket. Every tile of a row is written, in
/// order.
pub proof fn lemma_row_text_grows(r: Seq<Tile>, t: Tile)
    ensures
        row_text(Seq::<Tile>::empty()) == "[]"@,
        row_text(seq![t]) == "["@ + tile_text(t) + "]"@,
        r.len() > 0 ==> row_text(r.push(t)) == row_text(r).drop_last() + ", "@ + tile_text(t) + "]"@,
{
    lemma_list_text_short(tile_text(t));
    assert(Seq::<Tile>::empty().map_values(|u: Tile| tile_text(u)) =~= Seq::<Seq<char>>::empty());
    assert(seq![t].map_values(|u: Tile| tile_text(u)) =~= seq![tile_text(t)]);
    if r.len() > 0 {
        let items = r.map_values(|u: Tile| tile_text(u));
        assert(r.push(t).map_values(|u: Tile| tile_text(u)) =~= items.push(tile_text(t)));
        lemma_list_text_push(items, tile_text(t));
    }
}

/// How a board is written, row by row: an empty board is `[]`, a board of
/// one row is that row's text in brackets, and one row more adds `, ` and
/// the row's text before the closing bracket. Every row of a board is
/// written, in order.
pub proof fn lemma_board_text_grows(b: Seq<Seq<Tile>>, r: Seq<Tile>)
    ensures
        board_text(Seq::<Seq<Tile>>::empty()) == "[]"@,
        board_text(seq![r]) == "["@ + row_text(r) + "]"@,
        b.len() > 0 ==> board_text(b.push(r)) == board_text(b).drop_last() + ", "@ + row_text(r) + "]"@,
{
    lemma_list_text_short(row_text(r));
    assert(Seq::<Seq<Tile>>::empty().map_values(|x: Seq<Tile>| row_text(x)) =~= Seq::<Seq<char>>::empty());
    assert(seq![r].map_values(|x: Seq<Tile>| row_text(x)) =~= seq![row_text(r)]);
    if b.len() > 0 {
        let items = b.map_values(|x: Seq<Tile>| row_text(x));
        assert(b.push(r).map_values(|x: Seq<Tile>| row_text(x)) =~= items.push(row_text(r)));
        lemma_list_text_push(items, row_text(r));
    }
}

} // verus!
