//! Reading plain-text test data: trimming, splitting and integers, as `str`'s
//! `trim`, `split_once`, `split`, `split_whitespace` and `parse` do them.
use vstd::prelude::*;
use crate::text::{is_white_space, white_space, lines_of, split_lines};
use crate::diagnostics::{is_digit, digit_value, decimal_value, find_from};

verus! {

/* ---------------------------------------------------------------------- */
/* Trimming                                                               */
/* ---------------------------------------------------------------------- */

/// The number of white-space characters `s` starts with.
pub open spec fn lead_ws(s: Seq<char>) -> nat
    decreases s.len(),
{
    if s.len() > 0 && is_white_space(s[0]) {
        1 + lead_ws(s.drop_first())
    } else {
        0
    }
}

/// The number of white-space characters `s` ends with.
pub open spec fn trail_ws(s: Seq<char>) -> nat
    decreases s.len(),
{
    if s.len() > 0 && is_white_space(s.last()) {
        1 + trail_ws(s.drop_last())
    } else {
        0
    }
}

/// `s` without the white space at its start and at its end.
pub open spec fn trim(s: Seq<char>) -> Seq<char> {
    if lead_ws(s) >= s.len() {
        Seq::empty()
    } else {
        s.subrange(lead_ws(s) as int, s.len() - trail_ws(s))
    }
}

proof fn lemma_lead_ws(s: Seq<char>, i: int)
    requires
        0 <= i <= s.len(),
        forall|j: int| 0 <= j < i ==> is_white_space(#[trigger] s[j]),
        i == s.len() || !is_white_space(s[i]),
    ensures
        lead_ws(s) == i,
    decreases i,
{
    if i > 0 {
        let t = s.drop_first();
        assert forall|j: int| 0 <= j < i - 1 implies is_white_space(#[trigger] t[j]) by {
            assert(t[j] == s[j + 1]);
        }
        if i < s.len() {
            assert(t[i - 1] == s[i]);
        }
        lemma_lead_ws(t, i - 1);
    }
}

proof fn lemma_trail_ws(s: Seq<char>, e: int)
    requires
        0 <= e <= s.len(),
        forall|j: int| e <= j < s.len() ==> is_white_space(#[trigger] s[j]),
        e == 0 || !is_white_space(s[e - 1]),
    ensures
        trail_ws(s) == s.len() - e,
    decreases s.len() - e,
{
    if e < s.len() {
        let t = s.drop_last();
        assert forall|j: int| e <= j < t.len() implies is_white_space(#[trigger] t[j]) by {
            assert(t[j] == s[j]);
        }
        if e > 0 {
            assert(t[e - 1] == s[e - 1]);
        }
        assert(is_white_space(s[s.len() - 1]));
        lemma_trail_ws(t, e);
    }
}

/// `str::trim`: the characters of `s` without white space at either end.
pub fn trim_chars(s: &Vec<char>) -> (r: Vec<char>)
    ensures
        r@ == trim(s@),
{
    let n = s.len();
    let mut a: usize = 0;
    while a < n && white_space(s[a])
        invariant
            a <= n,
            n == s@.len(),
            forall|j: int| 0 <= j < a ==> is_white_space(#[trigger] s@[j]),
        decreases n - a,
    {
        a = a + 1;
    }
    proof {
        lemma_lead_ws(s@, a as int);
    }
    if a == n {
        return Vec::new();
    }
    let mut e: usize = n;
    while e > a && white_space(s[e - 1])
        invariant
            a < n,
            a <= e <= n,
            n == s@.len(),
            !is_white_space(s@[a as int]),
            forall|j: int| e <= j < n ==> is_white_space(#[trigger] s@[j]),
        decreases e,
    {
        e = e - 1;
    }
    proof {
        lemma_trail_ws(s@, e as int);
    }
    let mut out: Vec<char> = Vec::new();
    let mut i = a;
    while i < e
        invariant
            a <= i <= e,
            e <= n,
            n == s@.len(),
            out@ == s@.subrange(a as int, i as int),
        decreases e - i,
    {
        out.push(s[i]);
        i = i + 1;
        assert(out@ =~= s@.subrange(a as int, i as int));
    }
    out
}

/* ---------------------------------------------------------------------- */
/* Splitting                                                              */
/* ---------------------------------------------------------------------- */

/// `str::split_once` with a one-character pattern: the text before the first
/// `c` and the text after it.
pub open spec fn split_once(s: Seq<char>, c: char) -> Option<(Seq<char>, Seq<char>)> {
    let i = find_from(s, 0, c);
    if i < s.len() {
        Some((s.subrange(0, i), s.subrange(i + 1, s.len() as int)))
    } else {
        None
    }
}

proof fn lemma_find_from_bounds(s: Seq<char>, p: int, c: char)
    requires
        0 <= p <= s.len(),
    ensures
        p <= find_from(s, p, c) <= s.len(),
        forall|j: int| p <= j < find_from(s, p, c) ==> s[j] != c,
        find_from(s, p, c) < s.len() ==> s[find_from(s, p, c)] == c,
    decreases s.len() - p,
{
    if p < s.len() && s[p] != c {
        lemma_find_from_bounds(s, p + 1, c);
    }
}

fn range_of(s: &Vec<char>, from: usize, to: usize) -> (r: Vec<char>)
    requires
        from <= to <= s@.len(),
    ensures
        r@ == s@.subrange(from as int, to as int),
{
    let mut out: Vec<char> = Vec::new();
    let mut i = from;
    while i < to
        invariant
            from <= i <= to,
            to <= s@.len(),
            out@ == s@.subrange(from as int, i as int),
        decreases to - i,
    {
        out.push(s[i]);
        i = i + 1;
        assert(out@ =~= s@.subrange(from as int, i as int));
    }
    out
}

fn first_index(s: &Vec<char>, from: usize, c: char) -> (r: usize)
    requires
        from <= s@.len(),
    ensures
        r == find_from(s@, from as int, c),
        from <= r <= s@.len(),
{
    proof {
        lemma_find_from_bounds(s@, from as int, c);
    }
    let mut i = from;
    while i < s.len() && s[i] != c
        invariant
            from <= i <= s@.len(),
            find_from(s@, i as int, c) == find_from(s@, from as int, c),
        decreases s@.len() - i,
    {
        i = i + 1;
    }
    i
}

/// The text before and after the first `c` of `s`, if there is one.
pub fn split_once_chars(s: &Vec<char>, c: char) -> (r: Option<(Vec<char>, Vec<char>)>)
    ensures
        match r {
            Some((a, b)) => split_once(s@, c) == Some((a@, b@)),
            None => split_once(s@, c) is None,
        },
{
    let i = first_index(s, 0, c);
    if i < s.len() {
        Some((range_of(s, 0, i), range_of(s, i + 1, s.len())))
    } else {
        None
    }
}

/// `str::split` with a one-character pattern: the pieces between the `c`s,
/// empty ones included.
pub open spec fn split_on(s: Seq<char>, c: char) -> Seq<Seq<char>>
    decreases s.len(),
{
    let i = find_from(s, 0, c);
    if i < s.len() && 0 <= i {
        seq![s.subrange(0, i)] + split_on(s.subrange(i + 1, s.len() as int), c)
    } else {
        seq![s]
    }
}

pub open spec fn views(v: Seq<Vec<char>>) -> Seq<Seq<char>> {
    v.map(|i: int, x: Vec<char>| x@)
}

/// The pieces of `s` between its `c`s.
pub fn split_on_chars(s: &Vec<char>, c: char) -> (r: Vec<Vec<char>>)
    ensures
        views(r@) == split_on(s@, c),
{
    let mut out: Vec<Vec<char>> = Vec::new();
    let mut start: usize = 0;
    let n = s.len();
    assert(s@.subrange(0, n as int) =~= s@);
    loop
        invariant
            n == s@.len(),
            start <= n,
            split_on(s@, c) == views(out@) + split_on(s@.subrange(start as int, n as int), c),
        decreases n - start,
    {
        let ghost rest = s@.subrange(start as int, n as int);
        let i = first_index(s, start, c);
        proof {
            lemma_find_from_shift(s@, start as int, c);
        }
        let piece = range_of(s, start, i);
        let ghost before = out@;
        out.push(piece);
        assert(views(out@) =~= views(before).push(s@.subrange(start as int, i as int)));
        if i == n {
            assert(rest.subrange(0, (i - start) as int) =~= rest);
            assert(split_on(s@, c) =~= views(out@));
            return out;
        }
        assert(rest.subrange(0, (i - start) as int) =~= s@.subrange(start as int, i as int));
        assert(rest.subrange((i - start) + 1, rest.len() as int) =~= s@.subrange(i + 1, n as int));
        start = i + 1;
    }
}

/// Searching `s[p..]` is searching `s` from `p`.
proof fn lemma_find_from_shift(s: Seq<char>, p: int, c: char)
    requires
        0 <= p <= s.len(),
    ensures
        find_from(s.subrange(p, s.len() as int), 0, c) == find_from(s, p, c) - p,
    decreases s.len() - p,
{
    lemma_find_from_shift_at(s, p, 0, c);
}

proof fn lemma_find_from_shift_at(s: Seq<char>, p: int, k: int, c: char)
    requires
        0 <= p,
        0 <= k,
        p + k <= s.len(),
    ensures
        find_from(s.subrange(p, s.len() as int), k, c) == find_from(s, p + k, c) - p,
    decreases s.len() - p - k,
{
    let t = s.subrange(p, s.len() as int);
    if p + k < s.len() {
        assert(t[k] == s[p + k]);
        if s[p + k] != c {
            lemma_find_from_shift_at(s, p, k + 1, c);
        }
    }
}

/// The number of non-white-space characters `s` starts with.
pub open spec fn word_len(s: Seq<char>) -> nat
    decreases s.len(),
{
    if s.len() > 0 && !is_white_space(s[0]) {
        1 + word_len(s.drop_first())
    } else {
        0
    }
}

proof fn lemma_word_len(s: Seq<char>, i: int)
    requires
        0 <= i <= s.len(),
        forall|j: int| 0 <= j < i ==> !is_white_space(#[trigger] s[j]),
        i == s.len() || is_white_space(s[i]),
    ensures
        word_len(s) == i,
    decreases i,
{
    if i > 0 {
        let t = s.drop_first();
        assert forall|j: int| 0 <= j < i - 1 implies !is_white_space(#[trigger] t[j]) by {
            assert(t[j] == s[j + 1]);
        }
        if i < s.len() {
            assert(t[i - 1] == s[i]);
        }
        lemma_word_len(t, i - 1);
    }
}

pub proof fn lemma_lead_ws_le(s: Seq<char>)
    ensures
        lead_ws(s) <= s.len(),
    decreases s.len(),
{
    if s.len() > 0 && is_white_space(s[0]) {
        lemma_lead_ws_le(s.drop_first());
    }
}

pub proof fn lemma_word_len_le(s: Seq<char>)
    ensures
        word_len(s) <= s.len(),
        s.len() > 0 && !is_white_space(s[0]) ==> word_len(s) >= 1,
    decreases s.len(),
{
    if s.len() > 0 && !is_white_space(s[0]) {
        lemma_word_len_le(s.drop_first());
    }
}

/// `str::split_whitespace`: the words of `s`, the runs of characters that are
/// not white space.
pub open spec fn split_whitespace(s: Seq<char>) -> Seq<Seq<char>>
    decreases s.len(),
{
    let t = s.skip(lead_ws(s) as int);
    proof {
        lemma_lead_ws_le(s);
    }
    if t.len() == 0 {
        Seq::empty()
    } else {
        proof {
            lemma_word_len_le(t);
            lemma_lead_ws_first(s);
        }
        seq![t.take(word_len(t) as int)] + split_whitespace(t.skip(word_len(t) as int))
    }
}

pub proof fn lemma_lead_ws_first(s: Seq<char>)
    ensures
        lead_ws(s) < s.len() ==> !is_white_space(s[lead_ws(s) as int]),
    decreases s.len(),
{
    if s.len() > 0 && is_white_space(s[0]) {
        let t = s.drop_first();
        lemma_lead_ws_first(t);
        if lead_ws(s) < s.len() {
            assert(t[lead_ws(t) as int] == s[lead_ws(s) as int]);
        }
    }
}

/// The words of `s`.
pub fn split_whitespace_chars(s: &Vec<char>) -> (r: Vec<Vec<char>>)
    ensures
        views(r@) == split_whitespace(s@),
{
    let mut out: Vec<Vec<char>> = Vec::new();
    let n = s.len();
    let mut start: usize = 0;
    assert(s@.skip(0) =~= s@);
    loop
        invariant
            n == s@.len(),
            start <= n,
            split_whitespace(s@) == views(out@) + split_whitespace(s@.skip(start as int)),
        decreases n - start,
    {
        let ghost rest = s@.skip(start as int);
        let mut a = start;
        while a < n && white_space(s[a])
            invariant
                start <= a <= n,
                n == s@.len(),
                forall|j: int| start <= j < a ==> is_white_space(#[trigger] s@[j]),
            decreases n - a,
        {
            a = a + 1;
        }
        proof {
            assert forall|j: int| 0 <= j < a - start implies is_white_space(#[trigger] rest[j]) by {
                assert(rest[j] == s@[start + j]);
            }
            if a < n {
                assert(rest[a - start] == s@[a as int]);
            }
            lemma_lead_ws(rest, a - start);
            assert(rest.skip(a - start) =~= s@.skip(a as int));
        }
        if a == n {
            assert(s@.skip(a as int).len() == 0);
            assert(views(out@) + Seq::<Seq<char>>::empty() =~= views(out@));
            return out;
        }
        let mut b = a;
        while b < n && !white_space(s[b])
            invariant
                a <= b <= n,
                n == s@.len(),
                forall|j: int| a <= j < b ==> !is_white_space(#[trigger] s@[j]),
            decreases n - b,
        {
            b = b + 1;
        }
        let ghost t = s@.skip(a as int);
        proof {
            assert forall|j: int| 0 <= j < b - a implies !is_white_space(#[trigger] t[j]) by {
                assert(t[j] == s@[a + j]);
            }
            if b < n {
                assert(t[b - a] == s@[b as int]);
            }
            lemma_word_len(t, b - a);
            assert(t.take(b - a) =~= s@.subrange(a as int, b as int));
            assert(t.skip(b - a) =~= s@.skip(b as int));
        }
        let word = range_of(s, a, b);
        let ghost before = out@;
        out.push(word);
        assert(views(out@) =~= views(before).push(s@.subrange(a as int, b as int)));
        start = b;
    }
}

/// The lines of `s` (see `lines_of`).
pub fn lines_chars(s: &Vec<char>) -> (r: Vec<Vec<char>>)
    ensures
        views(r@) == lines_of(s@),
{
    let spans = split_lines(s);
    let mut out: Vec<Vec<char>> = Vec::new();
    let mut i: usize = 0;
    while i < spans.len()
        invariant
            i <= spans@.len(),
            spans@.len() == lines_of(s@).len(),
            forall|j: int| 0 <= j < spans@.len() ==> (#[trigger] spans@[j]).0 <= spans@[j].1 <= s@.len()
                && s@.subrange(spans@[j].0 as int, spans@[j].1 as int) == lines_of(s@)[j],
            views(out@) == lines_of(s@).take(i as int),
        decreases spans@.len() - i,
    {
        let (a, b) = spans[i];
        let line = range_of(s, a, b);
        let ghost before = out@;
        out.push(line);
        assert(views(out@) =~= views(before).push(lines_of(s@)[i as int]));
        assert(views(out@) =~= lines_of(s@).take(i + 1));
        i = i + 1;
    }
    assert(lines_of(s@).take(i as int) =~= lines_of(s@));
    out
}

/* ---------------------------------------------------------------------- */
/* Integers                                                               */
/* ---------------------------------------------------------------------- */

/// All characters are decimal digits, and there is one at least.
pub open spec fn all_digits(s: Seq<char>) -> bool {
    s.len() > 0 && forall|i: int| 0 <= i < s.len() ==> is_digit(#[trigger] s[i])
}

/// The integer `s` spells, as integer parsing reads it: an optional `+` or
/// `-`, then one decimal digit or more, and nothing else.
pub open spec fn parse_int(s: Seq<char>) -> Option<int> {
    if s.len() > 0 && s[0] == '-' && all_digits(s.drop_first()) {
        Some(-decimal_value(s.drop_first()))
    } else if s.len() > 0 && s[0] == '+' && all_digits(s.drop_first()) {
        Some(decimal_value(s.drop_first()) as int)
    } else if all_digits(s) {
        Some(decimal_value(s) as int)
    } else {
        None
    }
}

/// `str::parse::<i64>`: the integer, if it is one and fits in an `i64`.
pub open spec fn parse_i64(s: Seq<char>) -> Option<i64> {
    match parse_int(s) {
        Some(v) => if i64::MIN <= v <= i64::MAX {
            Some(v as i64)
        } else {
            None
        },
        None => None,
    }
}

/// `str::parse::<i32>`: the integer, if it is one and fits in an `i32`.
pub open spec fn parse_i32(s: Seq<char>) -> Option<i32> {
    match parse_int(s) {
        Some(v) => if i32::MIN <= v <= i32::MAX {
            Some(v as i32)
        } else {
            None
        },
        None => None,
    }
}

/// The value of the decimal digits `s[from..]`, if it is at most 2^64.
fn digits_value(s: &Vec<char>, from: usize) -> (r: Option<u128>)
    requires
        from <= s@.len(),
        all_digits(s@.skip(from as int)),
    ensures
        match r {
            Some(v) => v == decimal_value(s@.skip(from as int)) && v <= 0x1_0000_0000_0000_0000,
            None => decimal_value(s@.skip(from as int)) > 0x1_0000_0000_0000_0000,
        },
{
    let n = s.len();
    let mut i = from;
    let mut v: u128 = 0;
    let mut big = false;
    assert(s@.subrange(from as int, from as int) =~= Seq::<char>::empty());
    while i < n
        invariant
            from <= i <= n,
            n == s@.len(),
            all_digits(s@.skip(from as int)),
            !big ==> v == decimal_value(s@.subrange(from as int, i as int)) && v <= 0x1_0000_0000_0000_0000,
            big ==> decimal_value(s@.subrange(from as int, i as int)) > 0x1_0000_0000_0000_0000,
        decreases n - i,
    {
        let c = s[i];
        assert(s@.skip(from as int)[i - from] == c);
        let d = (c as u32 - '0' as u32) as u128;
        assert(s@.subrange(from as int, i + 1).drop_last() =~= s@.subrange(from as int, i as int));
        assert(s@.subrange(from as int, i + 1).last() == c);
        if !big {
            let next = v * 10 + d;
            if next > 0x1_0000_0000_0000_0000 {
                big = true;
            } else {
                v = next;
            }
        } else {
            proof {
                let p = s@.subrange(from as int, i as int);
                assert(decimal_value(p) * 10 + digit_value(c) >= decimal_value(p)) by (nonlinear_arith);
            }
        }
        i = i + 1;
    }
    assert(s@.subrange(from as int, n as int) =~= s@.skip(from as int));
    if big {
        None
    } else {
        Some(v)
    }
}

fn digits_from(s: &Vec<char>, from: usize) -> (r: bool)
    requires
        from <= s@.len(),
    ensures
        r == all_digits(s@.skip(from as int)),
{
    if from == s.len() {
        return false;
    }
    let mut i = from;
    while i < s.len()
        invariant
            from <= i <= s@.len(),
            forall|j: int| from <= j < i ==> is_digit(#[trigger] s@[j]),
        decreases s@.len() - i,
    {
        if !('0' <= s[i] && s[i] <= '9') {
            assert(s@.skip(from as int)[i - from] == s@[i as int]);
            return false;
        }
        i = i + 1;
    }
    assert forall|j: int| 0 <= j < s@.skip(from as int).len() implies is_digit(#[trigger] s@.skip(from as int)[j]) by {
        assert(s@.skip(from as int)[j] == s@[from + j]);
    }
    true
}

/// The integer `s` spells, if it is one and fits in an `i64`.
pub fn parse_i64_chars(s: &Vec<char>) -> (r: Option<i64>)
    ensures
        r == parse_i64(s@),
{
    assert(s@.skip(1) =~= s@.drop_first()) by {
        if s@.len() > 0 {
            assert(s@.skip(1) =~= s@.drop_first());
        }
    }
    assert(s@.skip(0) =~= s@);
    let n = s.len();
    let (negative, from) = if n > 0 && s[0] == '-' {
        (true, 1)
    } else if n > 0 && s[0] == '+' {
        (false, 1)
    } else {
        (false, 0)
    };
    if !digits_from(s, from) {
        return None;
    }
    let v = match digits_value(s, from) {
        Some(v) => v,
        None => {
            return None;
        },
    };
    if negative {
        if v > 0x8000_0000_0000_0000 {
            None
        } else {
            Some((0i128 - v as i128) as i64)
        }
    } else {
        if v > 0x7fff_ffff_ffff_ffff {
            None
        } else {
            Some(v as i64)
        }
    }
}

/// The integer `s` spells, if it is one and fits in an `i32`.
pub fn parse_i32_chars(s: &Vec<char>) -> (r: Option<i32>)
    ensures
        r == parse_i32(s@),
{
    match parse_i64_chars(s) {
        Some(v) => if -0x8000_0000 <= v && v <= 0x7fff_ffff {
            Some(v as i32)
        } else {
            None
        },
        None => None,
    }
}

} // verus!
