//! Reading decimal integers the way `str::parse` does, and writing them back.
use crate::debug_text::{digit_char, int_text, nat_text};
use crate::text::chars_of;
use vstd::prelude::*;

verus! {

pub open spec fn is_digit(c: char) -> bool {
    '0' <= c && c <= '9'
}

pub open spec fn digit_value(c: char) -> int {
    c as int - '0' as int
}

pub open spec fn all_digits(s: Seq<char>) -> bool {
    forall|i: int| 0 <= i < s.len() ==> is_digit(#[trigger] s[i])
}

/// The number that the decimal digits `s` write.
pub open spec fn decimal_value(s: Seq<char>) -> nat
    decreases s.len(),
{
    if s.len() == 0 {
        0
    } else {
        (decimal_value(s.drop_last()) * 10 + digit_value(s.last())) as nat
    }
}

/// What `s.parse::<u64>()` gives: an optional `+` then one or more ASCII
/// digits whose value fits in a `u64`.
pub open spec fn parse_u64_spec(s: Seq<char>) -> Option<u64> {
    let d = if s.len() > 0 && s[0] == '+' { s.drop_first() } else { s };
    if d.len() > 0 && all_digits(d) && decimal_value(d) <= u64::MAX {
        Some(decimal_value(d) as u64)
    } else {
        None
    }
}

/// What `s.parse::<i32>()` gives: an optional `+` or `-` then one or more
/// ASCII digits whose signed value fits in an `i32`.
pub open spec fn parse_i32_spec(s: Seq<char>) -> Option<i32> {
    let negative = s.len() > 0 && s[0] == '-';
    let d = if s.len() > 0 && (s[0] == '+' || s[0] == '-') { s.drop_first() } else { s };
    if d.len() == 0 || !all_digits(d) {
        None
    } else if negative {
        if decimal_value(d) <= 0x8000_0000 { Some((0 - decimal_value(d)) as i32) } else { None }
    } else {
        if decimal_value(d) <= i32::MAX { Some(decimal_value(d) as i32) } else { None }
    }
}

proof fn lemma_digit_char_value(d: int)
    requires
        0 <= d < 10,
    ensures
        is_digit(digit_char(d)),
        digit_value(digit_char(d)) == d,
{
}

/// The decimal digits of `n` are one or more ASCII digits whose value is `n`.
proof fn lemma_nat_text_digits(n: nat)
    ensures
        nat_text(n).len() > 0,
        all_digits(nat_text(n)),
        decimal_value(nat_text(n)) == n,
    decreases n,
{
    if n < 10 {
        lemma_digit_char_value(n as int);
        assert(nat_text(n).drop_last() =~= Seq::<char>::empty());
        assert(decimal_value(Seq::<char>::empty()) == 0);
    } else {
        let q = n / 10;
        let d = (n % 10) as int;
        lemma_nat_text_digits(q);
        lemma_digit_char_value(d);
        assert(nat_text(n).drop_last() =~= nat_text(q));
        assert(nat_text(n).last() == digit_char(d));
        assert(q * 10 + d == n);
        assert(decimal_value(nat_text(n)) == decimal_value(nat_text(q)) * 10 + d);
        assert forall|i: int| 0 <= i < nat_text(n).len() implies is_digit(#[trigger] nat_text(n)[i]) by {
            if i < nat_text(q).len() {
                assert(nat_text(n)[i] == nat_text(q)[i]);
            }
        }
    }
}

/// Reading back what writing a number gives: `n.to_string().parse::<u64>()`
/// is `n` for every `n` that fits in a `u64`.
pub proof fn lemma_parse_u64_reads_written(n: nat)
    requires
        n <= u64::MAX,
    ensures
        parse_u64_spec(nat_text(n)) == Some(n as u64),
{
    lemma_nat_text_digits(n);
    assert(is_digit(nat_text(n)[0]));
}

/// Reading back what writing a number gives: `n.to_string().parse::<i32>()`
/// is `n` for every `n` that fits in an `i32`, the negative ones included.
pub proof fn lemma_parse_i32_reads_written(n: int)
    requires
        i32::MIN <= n <= i32::MAX,
    ensures
        parse_i32_spec(int_text(n)) == Some(n as i32),
{
    if n < 0 {
        let m = (0 - n) as nat;
        lemma_nat_text_digits(m);
        assert((seq!['-'] + nat_text(m)).drop_first() =~= nat_text(m));
    } else {
        lemma_nat_text_digits(n as nat);
        assert(is_digit(nat_text(n as nat)[0]));
    }
}

proof fn lemma_decimal_value_step(s: Seq<char>, i: int)
    requires
        0 <= i < s.len(),
        is_digit(s[i]),
    ensures
        decimal_value(s.subrange(0, i + 1)) == decimal_value(s.subrange(0, i)) * 10 + digit_value(s[i]),
{
    assert(s.subrange(0, i + 1).drop_last() =~= s.subrange(0, i));
}

proof fn lemma_decimal_value_grows(s: Seq<char>, i: int, j: int)
    requires
        0 <= i <= j <= s.len(),
        all_digits(s),
    ensures
        decimal_value(s.subrange(0, i)) <= decimal_value(s.subrange(0, j)),
    decreases j - i,
{
    if i < j {
        lemma_decimal_value_grows(s, i, j - 1);
        assert(is_digit(s[j - 1]));
        lemma_decimal_value_step(s, j - 1);
    }
}

/// The value of the digits `v[from..]` when they are all ASCII digits, there
/// is at least one, and the value is at most `limit`.
fn digits_value_up_to(v: &Vec<char>, from: usize, limit: u64) -> (r: Option<u64>)
    requires
        from <= v@.len(),
    ensures
        ({
            let d = v@.subrange(from as int, v@.len() as int);
            r == if d.len() > 0 && all_digits(d) && decimal_value(d) <= limit {
                Some(decimal_value(d) as u64)
            } else {
                None::<u64>
            }
        }),
{
    let ghost d = v@.subrange(from as int, v@.len() as int);
    let n = v.len();
    if from == n {
        return None;
    }
    let mut acc: u64 = 0;
    let mut i: usize = from;
    while i < n
        invariant
            n == v@.len(),
            from <= i <= n,
            d == v@.subrange(from as int, n as int),
            forall|k: int| 0 <= k < i - from ==> is_digit(#[trigger] d[k]),
            acc as nat == decimal_value(d.subrange(0, i - from)),
            acc <= limit,
        decreases n - i,
    {
        let c = v[i];
        if !('0' <= c && c <= '9') {
            proof {
                assert(!is_digit(d[i - from]));
            }
            return None;
        }
        let dv: u64 = (c as u32 - '0' as u32) as u64;
        proof {
            assert(d[i - from] == c);
            lemma_decimal_value_step(d, i - from);
        }
        if dv > limit || acc > (limit - dv) / 10 {
            proof {
                if dv <= limit {
                    assert(acc * 10 + dv > limit) by (nonlinear_arith)
                        requires
                            acc > (limit - dv) / 10,
                            dv <= limit,
                    ;
                }
                if all_digits(d) {
                    lemma_decimal_value_grows(d, i - from + 1, d.len() as int);
                    assert(d.subrange(0, d.len() as int) =~= d);
                }
            }
            return None;
        }
        proof {
            assert(acc * 10 + dv <= limit) by (nonlinear_arith)
                requires
                    acc <= (limit - dv) / 10,
                    dv <= limit,
            ;
        }
        acc = acc * 10 + dv;
        i = i + 1;
    }
    assert(d.subrange(0, d.len() as int) =~= d);
    Some(acc)
}

/// `s.parse::<u64>()`, with the error folded into `None`.
pub fn parse_u64(s: &str) -> (r: Option<u64>)
    ensures
        r == parse_u64_spec(s@),
        forall|n: nat| n <= u64::MAX && s@ == #[trigger] nat_text(n) ==> r == Some(n as u64),
{
    proof {
        assert forall|n: nat| n <= u64::MAX && s@ == #[trigger] nat_text(n) implies parse_u64_spec(s@) == Some(n as u64) by {
            lemma_parse_u64_reads_written(n);
        }
    }
    let v = chars_of(s);
    let from: usize = if v.len() > 0 && v[0] == '+' { 1 } else { 0 };
    proof {
        if from == 1 {
            assert(v@.subrange(1, v@.len() as int) =~= s@.drop_first());
        } else {
            assert(v@.subrange(0, v@.len() as int) =~= s@);
        }
    }
    digits_value_up_to(&v, from, u64::MAX)
}

/// `s.parse::<i32>()`, with the error folded into `None`.
pub fn parse_i32(s: &str) -> (r: Option<i32>)
    ensures
        r == parse_i32_spec(s@),
        forall|n: int| i32::MIN <= n <= i32::MAX && s@ == #[trigger] int_text(n) ==> r == Some(n as i32),
{
    proof {
        assert forall|n: int| i32::MIN <= n <= i32::MAX && s@ == #[trigger] int_text(n) implies parse_i32_spec(s@) == Some(n as i32) by {
            lemma_parse_i32_reads_written(n);
        }
    }
    let v = chars_of(s);
    let negative = v.len() > 0 && v[0] == '-';
    let from: usize = if v.len() > 0 && (v[0] == '+' || v[0] == '-') { 1 } else { 0 };
    proof {
        if from == 1 {
            assert(v@.subrange(1, v@.len() as int) =~= s@.drop_first());
        } else {
            assert(v@.subrange(0, v@.len() as int) =~= s@);
        }
    }
    if negative {
        match digits_value_up_to(&v, from, 0x8000_0000) {
            Some(x) => Some((0i64 - x as i64) as i32),
            None => None,
        }
    } else {
        match digits_value_up_to(&v, from, 0x7fff_ffff) {
            Some(x) => Some(x as i32),
            None => None,
        }
    }
}

} // verus!
