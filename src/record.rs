//! The head of a kernel-log record: `[<seconds>.<fraction>] <header>: ...`.
//!
//! A line opens a new record when it starts with a bracketed timestamp
//! (blanks allowed after `[`, ASCII digits on both sides of the dot). Its
//! header is the text after the timestamp up to the first colon.
//!
//! Only the ASCII digits `0`-`9` count as digits: the kernel writes no others.
//! A line such as `[١.٢] x: y`, whose stamp uses other decimal digits, opens
//! no record here and is read as a continuation line.
use vstd::prelude::*;
use crate::text::{owned, chars_of, span_spaces, leading_spaces, is_digit, find_char};

verus! {

/// Number of leading ASCII digits of `s`.
pub open spec fn digit_run(s: Seq<char>) -> nat
    decreases s.len(),
{
    if s.len() > 0 && is_digit(s[0]) {
        1 + digit_run(s.drop_first())
    } else {
        0
    }
}

pub open spec fn digit_value(c: char) -> int {
    (c as u32) as int - ('0' as u32) as int
}

/// The number that a run of decimal digits spells.
pub open spec fn digits_value(s: Seq<char>) -> int
    decreases s.len(),
{
    if s.len() == 0 {
        0
    } else {
        digits_value(s.drop_last()) * 10 + digit_value(s.last())
    }
}

/// The first nine digits of a fraction, padded with zeros.
pub open spec fn frac9(frac: Seq<char>) -> Seq<char> {
    Seq::new(9, |i: int| if i < frac.len() { frac[i] } else { '0' })
}

/// `<whole>.<frac>` seconds in whole nanoseconds (further digits dropped),
/// saturating at `u64::MAX`.
pub open spec fn stamp_nanos(whole: Seq<char>, frac: Seq<char>) -> u64 {
    let v = digits_value(whole + frac9(frac));
    if v < u64::MAX {
        v as u64
    } else {
        u64::MAX
    }
}

/// Where the timestamp that opens `t` lies: `(a, b, c)` with the whole
/// seconds at `a..b`, the dot at `b`, the fraction at `b+1..c` and `]` at `c`.
pub open spec fn stamp_of(t: Seq<char>) -> Option<(int, int, int)> {
    if t.len() == 0 || t[0] != '[' {
        None
    } else {
        let a: int = 1 + leading_spaces(t.subrange(1, t.len() as int)) as int;
        let b: int = a + digit_run(t.subrange(a, t.len() as int));
        if b == a || b >= t.len() || t[b] != '.' {
            None
        } else {
            let c: int = b + 1 + digit_run(t.subrange(b + 1, t.len() as int));
            if c == b + 1 || c >= t.len() || t[c] != ']' {
                None
            } else {
                Some((a, b, c))
            }
        }
    }
}

/// Whether `t` starts a new record.
pub open spec fn opens_record(t: Seq<char>) -> bool {
    stamp_of(t) is Some
}

/// The header of the record that `t` opens: after the timestamp and its
/// trailing blanks, up to the first colon. Where the colon follows the blanks
/// at once, the last blank is the header.
pub open spec fn header_of(t: Seq<char>) -> Option<Seq<char>> {
    match stamp_of(t) {
        None => None,
        Some((a, b, c)) => {
            let rest = t.subrange(c + 1, t.len() as int);
            let w = leading_spaces(rest);
            match find_char(rest, ':') {
                None => None,
                Some(k) => if k > w {
                    Some(rest.subrange(w as int, k as int))
                } else if k == w && w > 0 {
                    Some(rest.subrange(w - 1, k as int))
                } else {
                    None
                },
            }
        },
    }
}

/// The timestamp of a line that has both a timestamp and a header, in
/// nanoseconds; 0 for any other line.
pub open spec fn time_of(t: Seq<char>) -> u64 {
    match (stamp_of(t), header_of(t)) {
        (Some((a, b, c)), Some(_)) => stamp_nanos(t.subrange(a, b), t.subrange(b + 1, c)),
        _ => 0,
    }
}

/// The header of a line, empty where it has none.
pub open spec fn header_or_empty(t: Seq<char>) -> Seq<char> {
    match header_of(t) {
        Some(h) => h,
        None => Seq::empty(),
    }
}

/// What the head of one line says.
pub struct RecordHead {
    pub opens_record: bool,
    pub time: u64,
    pub header: String,
}

fn span_digits(v: &Vec<char>, from: usize) -> (r: usize)
    requires
        from <= v@.len(),
    ensures
        from <= r <= v@.len(),
        r - from == digit_run(v@.subrange(from as int, v@.len() as int)),
{
    let mut i = from;
    while i < v.len() && '0' <= v[i] && v[i] <= '9'
        invariant
            from <= i <= v@.len(),
            digit_run(v@.subrange(from as int, v@.len() as int)) == (i - from) + digit_run(
                v@.subrange(i as int, v@.len() as int),
            ),
        decreases v.len() - i,
    {
        assert(v@.subrange(i as int, v@.len() as int).drop_first() =~= v@.subrange(
            i + 1,
            v@.len() as int,
        ));
        i = i + 1;
    }
    if i < v.len() {
        assert(v@.subrange(i as int, v@.len() as int)[0] == v@[i as int]);
    }
    i
}

fn first_colon(v: &Vec<char>, from: usize) -> (r: Option<usize>)
    requires
        from <= v@.len(),
    ensures
        match r {
            Some(i) => from <= i < v@.len() && find_char(v@.subrange(from as int, v@.len() as int), ':')
                == Some((i - from) as nat),
            None => find_char(v@.subrange(from as int, v@.len() as int), ':') is None,
        },
{
    let mut i = from;
    while i < v.len()
        invariant
            from <= i <= v@.len(),
            match find_char(v@.subrange(i as int, v@.len() as int), ':') {
                Some(k) => find_char(v@.subrange(from as int, v@.len() as int), ':') == Some(
                    (k + i - from) as nat,
                ),
                None => find_char(v@.subrange(from as int, v@.len() as int), ':') is None,
            },
        decreases v.len() - i,
    {
        let ghost s = v@.subrange(i as int, v@.len() as int);
        assert(s[0] == v@[i as int]);
        if v[i] == ':' {
            return Some(i);
        }
        assert(s.drop_first() =~= v@.subrange(i + 1, v@.len() as int));
        i = i + 1;
    }
    assert(v@.subrange(i as int, v@.len() as int).len() == 0);
    None
}

/// `min(value, u64::MAX)` of a run of digits, computed without overflow.
fn saturating_value(ds: &Vec<char>) -> (r: u64)
    requires
        forall|i: int| 0 <= i < ds@.len() ==> is_digit(#[trigger] ds@[i]),
    ensures
        r == (if digits_value(ds@) < u64::MAX {
            digits_value(ds@)
        } else {
            u64::MAX as int
        }),
{
    let mut acc: u64 = 0;
    let mut i: usize = 0;
    while i < ds.len()
        invariant
            i <= ds@.len(),
            forall|j: int| 0 <= j < ds@.len() ==> is_digit(#[trigger] ds@[j]),
            acc == (if digits_value(ds@.subrange(0, i as int)) < u64::MAX {
                digits_value(ds@.subrange(0, i as int))
            } else {
                u64::MAX as int
            }),
        decreases ds.len() - i,
    {
        let ghost before = ds@.subrange(0, i as int);
        let ghost after = ds@.subrange(0, i + 1);
        assert(after.drop_last() =~= before);
        assert(after.last() == ds@[i as int]);
        assert(is_digit(ds@[i as int]));
        proof {
            lemma_digits_value_nonneg(before);
        }
        let d = (ds[i] as u32 - '0' as u32) as u128;
        let next = acc as u128 * 10 + d;
        acc = if next < u64::MAX as u128 {
            next as u64
        } else {
            u64::MAX
        };
        i = i + 1;
    }
    assert(ds@.subrange(0, ds@.len() as int) =~= ds@);
    acc
}

proof fn lemma_digit_run(s: Seq<char>)
    ensures
        digit_run(s) <= s.len(),
        forall|i: int| 0 <= i < digit_run(s) ==> is_digit(#[trigger] s[i]),
    decreases s.len(),
{
    if s.len() > 0 && is_digit(s[0]) {
        lemma_digit_run(s.drop_first());
        assert forall|i: int| 0 <= i < digit_run(s) implies is_digit(#[trigger] s[i]) by {
            if i > 0 {
                assert(s.drop_first()[i - 1] == s[i]);
            }
        }
    }
}

proof fn lemma_digits_value_nonneg(s: Seq<char>)
    requires
        forall|i: int| 0 <= i < s.len() ==> is_digit(#[trigger] s[i]),
    ensures
        digits_value(s) >= 0,
    decreases s.len(),
{
    if s.len() > 0 {
        lemma_digits_value_nonneg(s.drop_last());
        assert(is_digit(s[s.len() - 1]));
    }
}

/// Reads the head of one line: whether it opens a record, its timestamp and
/// its header.
pub fn read_record_head(line: &str) -> (r: RecordHead)
    ensures
        r.opens_record == opens_record(line@),
        r.time == time_of(line@),
        r.header@ == header_or_empty(line@),
{
    let v = chars_of(line);
    let ghost t = v@;
    let n = v.len();
    let none = RecordHead { opens_record: false, time: 0, header: String::new() };
    if n == 0 || v[0] != '[' {
        return none;
    }
    let a = span_spaces(&v, 1);
    let b = span_digits(&v, a);
    if b == a || b >= n || v[b] != '.' {
        return none;
    }
    let c = span_digits(&v, b + 1);
    if c == b + 1 || c >= n || v[c] != ']' {
        return none;
    }
    assert(stamp_of(t) == Some((a as int, b as int, c as int)));
    let ghost rest = t.subrange(c + 1, t.len() as int);
    let w = span_spaces(&v, c + 1);
    let colon = first_colon(&v, c + 1);
    let k = match colon {
        None => {
            assert(find_char(rest, ':') is None);
            return RecordHead { opens_record: true, time: 0, header: String::new() };
        },
        Some(k) => k,
    };
    assert(find_char(rest, ':') == Some((k - c - 1) as nat));
    assert(leading_spaces(rest) == w - c - 1);
    let start = if k > w {
        w
    } else if k == w && w > c + 1 {
        w - 1
    } else {
        return RecordHead { opens_record: true, time: 0, header: String::new() };
    };
    let header = owned(line.substring_char(start, k));
    assert(header@ =~= header_or_empty(t));
    proof {
        lemma_digit_run(t.subrange(a as int, t.len() as int));
        assert forall|j: int| a <= j < b implies is_digit(#[trigger] t[j]) by {
            assert(t.subrange(a as int, t.len() as int)[j - a] == t[j]);
        }
    }
    let mut ds: Vec<char> = Vec::new();
    let mut i = a;
    while i < b
        invariant
            a <= i <= b,
            b < t.len(),
            v@ == t,
            ds@ == t.subrange(a as int, i as int),
            forall|j: int| a <= j < b ==> is_digit(#[trigger] t[j]),
        decreases b - i,
    {
        ds.push(v[i]);
        i = i + 1;
        assert(ds@ =~= t.subrange(a as int, i as int));
    }
    let mut j: usize = 0;
    while j < 9
        invariant
            j <= 9,
            a <= b,
            b + 1 < c < t.len(),
            v@ == t,
            ds@ == t.subrange(a as int, b as int) + frac9(t.subrange(b + 1, c as int)).subrange(
                0,
                j as int,
            ),
        decreases 9 - j,
    {
        if j < c - b - 1 {
            ds.push(v[b + 1 + j]);
        } else {
            ds.push('0');
        }
        j = j + 1;
        assert(ds@ =~= t.subrange(a as int, b as int) + frac9(t.subrange(b + 1, c as int)).subrange(
            0,
            j as int,
        ));
    }
    assert(frac9(t.subrange(b + 1, c as int)).subrange(0, 9) =~= frac9(t.subrange(b + 1, c as int)));
    proof {
        let ds_all = t.subrange(a as int, b as int) + frac9(t.subrange(b + 1, c as int));
        assert(ds@ == ds_all);
        lemma_digit_run(t.subrange(b + 1, t.len() as int));
        assert forall|i: int| 0 <= i < ds_all.len() implies is_digit(#[trigger] ds_all[i]) by {
            if i >= b - a {
                let f = i - (b - a);
                if f < c - b - 1 {
                    assert(t.subrange(b + 1, t.len() as int)[f] == t[b + 1 + f]);
                }
            }
        }
    }
    let time = saturating_value(&ds);
    RecordHead { opens_record: true, time, header }
}

} // verus!
