//! Splitting text into lines the way `str::lines` does.
use vstd::prelude::*;

verus! {

/// A line without the carriage return that ended it, if there was one.
pub open spec fn strip_cr(l: Seq<char>) -> Seq<char> {
    if l.len() > 0 && l.last() == '\r' {
        l.drop_last()
    } else {
        l
    }
}

/// The lines of `s`, given that `cur` is the part of the current line read so
/// far. A line ends at `\n`, and a `\r` right before it is dropped; a last
/// line without `\n` is kept as it is, and nothing follows a final `\n`.
pub open spec fn lines_from(s: Seq<char>, cur: Seq<char>) -> Seq<Seq<char>>
    decreases s.len(),
{
    if s.len() == 0 {
        if cur.len() == 0 {
            seq![]
        } else {
            seq![cur]
        }
    } else if s[0] == '\n' {
        seq![strip_cr(cur)] + lines_from(s.drop_first(), seq![])
    } else {
        lines_from(s.drop_first(), cur.push(s[0]))
    }
}

/// The lines of `s`, as `str::lines` yields them.
pub open spec fn lines(s: Seq<char>) -> Seq<Seq<char>> {
    lines_from(s, seq![])
}

/// The pieces of `v` that the ranges `r` cut out.
pub open spec fn cut(v: Seq<char>, r: Seq<(usize, usize)>) -> Seq<Seq<char>> {
    r.map_values(|p: (usize, usize)| v.subrange(p.0 as int, p.1 as int))
}

pub open spec fn ranges_within(r: Seq<(usize, usize)>, n: int) -> bool {
    forall|k: int| 0 <= k < r.len() ==> #[trigger] r[k].0 <= r[k].1 && r[k].1 <= n
}

/// Where each line of `v` starts and ends.
pub fn line_ranges(v: &Vec<char>) -> (r: Vec<(usize, usize)>)
    ensures
        ranges_within(r@, v@.len() as int),
        cut(v@, r@) == lines(v@),
{
    let n = v.len();
    let mut r: Vec<(usize, usize)> = Vec::new();
    let mut start: usize = 0;
    let mut i: usize = 0;
    assert(v@.skip(0) =~= v@);
    assert(v@.subrange(0, 0) =~= Seq::<char>::empty());
    while i < n
        invariant
            n == v@.len(),
            start <= i <= n,
            ranges_within(r@, n as int),
            lines(v@) == cut(v@, r@) + lines_from(v@.skip(i as int), v@.subrange(start as int, i as int)),
        decreases n - i,
    {
        let ghost cur = v@.subrange(start as int, i as int);
        let ghost rest = v@.skip(i as int);
        let ghost old_r = r@;
        assert(rest.drop_first() =~= v@.skip(i + 1));
        assert(rest[0] == v@[i as int]);
        if v[i] == '\n' {
            let end: usize = if i > start && v[i - 1] == '\r' { i - 1 } else { i };
            assert(strip_cr(cur) =~= v@.subrange(start as int, end as int));
            r.push((start, end));
            assert(cut(v@, r@) =~= cut(v@, old_r).push(v@.subrange(start as int, end as int)));
            assert(v@.subrange(i + 1, i + 1) =~= Seq::<char>::empty());
            assert(lines(v@) == cut(v@, r@) + lines_from(v@.skip(i + 1), v@.subrange(i + 1, i + 1))) by {
                assert(lines_from(rest, cur) == seq![strip_cr(cur)] + lines_from(v@.skip(i + 1), seq![]));
                assert(cut(v@, old_r) + (seq![strip_cr(cur)] + lines_from(v@.skip(i + 1), seq![]))
                    =~= cut(v@, r@) + lines_from(v@.skip(i + 1), seq![]));
            }
            start = i + 1;
        } else {
            assert(cur.push(v@[i as int]) =~= v@.subrange(start as int, i + 1));
        }
        i = i + 1;
    }
    let ghost cur = v@.subrange(start as int, n as int);
    let ghost old_r = r@;
    assert(v@.skip(n as int) =~= Seq::<char>::empty());
    if start < n {
        r.push((start, n));
        assert(cut(v@, r@) =~= cut(v@, old_r).push(cur));
        assert(cut(v@, old_r) + seq![cur] =~= cut(v@, r@));
    } else {
        assert(cut(v@, old_r) + Seq::<Seq<char>>::empty() =~= cut(v@, r@));
    }
    r
}

} // verus!
