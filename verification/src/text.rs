//! Character-level helpers for reading compiler output.
use vstd::prelude::*;
use vstd::string::StrSliceExecFns;

verus! {

/// The characters of `s`, in order.
pub fn chars_of(s: &str) -> (r: Vec<char>)
    ensures
        r@ == s@,
{
    let n = s.unicode_len();
    let mut out: Vec<char> = Vec::new();
    let mut i: usize = 0;
    while i < n
        invariant
            n == s@.len(),
            i <= n,
            out@ == s@.subrange(0, i as int),
        decreases n - i,
    {
        out.push(s.get_char(i));
        i = i + 1;
    }
    assert(out@ =~= s@);
    out
}

/// `String::push`: the string with `c` appended.
#[verifier::external_body]
pub(crate) fn push_char(s: &mut String, c: char)
    ensures
        final(s)@ == old(s)@.push(c),
{
    s.push(c);
}

/// The string made of the characters `cs[from..to]`.
pub fn string_of(cs: &Vec<char>, from: usize, to: usize) -> (r: String)
    requires
        from <= to <= cs@.len(),
    ensures
        r@ == cs@.subrange(from as int, to as int),
{
    let mut out = String::new();
    let mut i: usize = from;
    while i < to
        invariant
            from <= i <= to,
            to <= cs@.len(),
            out@ == cs@.subrange(from as int, i as int),
        decreases to - i,
    {
        push_char(&mut out, cs[i]);
        i = i + 1;
        assert(out@ =~= cs@.subrange(from as int, i as int));
    }
    out
}

/// The first `end` characters of `s` end with `suffix`.
pub open spec fn ends_with_at(s: Seq<char>, end: int, suffix: Seq<char>) -> bool {
    suffix.len() <= end && s.subrange(end - suffix.len(), end) == suffix
}

/// Whether the first `end` characters of `s` end with `suffix`.
pub fn ends_with(s: &Vec<char>, end: usize, suffix: &Vec<char>) -> (r: bool)
    requires
        end <= s@.len(),
    ensures
        r == ends_with_at(s@, end as int, suffix@),
{
    if suffix.len() > end {
        return false;
    }
    let start = end - suffix.len();
    let mut k: usize = 0;
    while k < suffix.len()
        invariant
            start + suffix@.len() == end,
            end <= s@.len(),
            k <= suffix@.len(),
            forall|j: int| 0 <= j < k ==> s@[start + j] == suffix@[j],
        decreases suffix@.len() - k,
    {
        if s[start + k] != suffix[k] {
            assert(s@.subrange(start as int, end as int)[k as int] != suffix@[k as int]);
            return false;
        }
        k = k + 1;
    }
    assert(s@.subrange(start as int, end as int) =~= suffix@);
    true
}

/// The lines of `s` as `str::lines` gives them: the pieces between line
/// feeds, each without a carriage return before its line feed, and no empty
/// piece after a final line feed.
#[verifier::opaque]
pub open spec fn lines_of(s: Seq<char>) -> Seq<Seq<char>>
    decreases s.len(),
{
    if s.len() == 0 {
        Seq::empty()
    } else {
        let n = first_newline(s);
        proof {
            lemma_first_newline_bounds(s);
        }
        let line = strip_cr(s.subrange(0, n));
        if n == s.len() {
            seq![line]
        } else {
            seq![line] + lines_of(s.subrange(n + 1, s.len() as int))
        }
    }
}

/// The index of the first line feed of `s`, or its length.
pub open spec fn first_newline(s: Seq<char>) -> int {
    if exists|i: int| 0 <= i < s.len() && s[i] == '\n' {
        choose|i: int| 0 <= i < s.len() && s[i] == '\n' && forall|j: int| 0 <= j < i ==> s[j] != '\n'
    } else {
        s.len() as int
    }
}

/// The line without a final carriage return.
pub open spec fn strip_cr(l: Seq<char>) -> Seq<char> {
    if l.len() > 0 && l.last() == '\r' {
        l.drop_last()
    } else {
        l
    }
}

pub proof fn lemma_first_newline_bounds(s: Seq<char>)
    ensures
        0 <= first_newline(s) <= s.len(),
        first_newline(s) < s.len() ==> s[first_newline(s)] == '\n',
{
    if exists|i: int| 0 <= i < s.len() && s[i] == '\n' {
        let w = choose|i: int| 0 <= i < s.len() && s[i] == '\n';
        lemma_least_newline(s, w);
    }
}

pub proof fn lemma_least_newline(s: Seq<char>, w: int)
    requires
        0 <= w < s.len(),
        s[w] == '\n',
    ensures
        exists|i: int| 0 <= i < s.len() && s[i] == '\n' && forall|j: int| 0 <= j < i ==> s[j] != '\n',
    decreases w,
{
    if exists|j: int| 0 <= j < w && s[j] == '\n' {
        let j = choose|j: int| 0 <= j < w && s[j] == '\n';
        lemma_least_newline(s, j);
    }
}

proof fn lemma_first_newline(s: Seq<char>, n: int)
    requires
        0 <= n <= s.len(),
        forall|j: int| 0 <= j < n ==> s[j] != '\n',
        n == s.len() || s[n] == '\n',
    ensures
        first_newline(s) == n,
{
    if n < s.len() {
        assert(exists|i: int| 0 <= i < s.len() && s[i] == '\n');
        let c = choose|i: int| 0 <= i < s.len() && s[i] == '\n' && forall|j: int| 0 <= j < i ==> s[j] != '\n';
        assert(0 <= n < s.len() && s[n] == '\n' && forall|j: int| 0 <= j < n ==> s[j] != '\n');
        if c < n {
        } else if c > n {
            assert(s[n] != '\n');
        }
    } else {
        assert(!exists|i: int| 0 <= i < s.len() && s[i] == '\n');
    }
}

/// One step of `lines_of`: the line that starts at `start`, which ends at the
/// line feed at `end` (or at the end of `s`), and the lines after it.
proof fn lemma_lines_step(s: Seq<char>, start: int, end: int)
    requires
        0 <= start <= end <= s.len(),
        start < s.len(),
        forall|j: int| start <= j < end ==> s[j] != '\n',
        end == s.len() || s[end] == '\n',
    ensures
        lines_of(s.subrange(start, s.len() as int)) == seq![strip_cr(s.subrange(start, end))] + lines_of(
            s.subrange(if end == s.len() { s.len() as int } else { end + 1 }, s.len() as int),
        ),
{
    reveal(lines_of);
    let rest = s.subrange(start, s.len() as int);
    lemma_first_newline(rest, end - start);
    assert(rest.subrange(0, end - start) =~= s.subrange(start, end));
    if end == s.len() {
        assert(s.subrange(s.len() as int, s.len() as int) =~= Seq::<char>::empty());
        assert(lines_of(Seq::<char>::empty()) == Seq::<Seq<char>>::empty());
    } else {
        assert(rest.subrange(end - start + 1, rest.len() as int) =~= s.subrange(end + 1, s.len() as int));
    }
}

/// Where the line that starts at `start` ends: at the first line feed from
/// `start` on, or at the end of `cs`; and where its text ends, before a
/// carriage return that precedes the line feed.
fn line_end(cs: &Vec<char>, start: usize) -> (r: (usize, usize))
    requires
        start < cs@.len(),
    ensures
        start <= r.0 <= cs@.len(),
        forall|j: int| start <= j < r.0 ==> cs@[j] != '\n',
        r.0 == cs@.len() || cs@[r.0 as int] == '\n',
        start <= r.1 <= r.0,
        cs@.subrange(start as int, r.1 as int) == strip_cr(cs@.subrange(start as int, r.0 as int)),
{
    let n = cs.len();
    let mut end: usize = start;
    while end < n && cs[end] != '\n'
        invariant
            start <= end <= n,
            n == cs@.len(),
            forall|j: int| start <= j < end ==> cs@[j] != '\n',
        decreases n - end,
    {
        end = end + 1;
    }
    let mut stop = end;
    if stop > start && cs[stop - 1] == '\r' {
        stop = stop - 1;
    }
    assert(cs@.subrange(start as int, stop as int) =~= strip_cr(cs@.subrange(start as int, end as int)));
    (end, stop)
}

/// The lines of `cs`, as positions: each line is `cs[start..end]`.
pub fn split_lines(cs: &Vec<char>) -> (r: Vec<(usize, usize)>)
    ensures
        r@.len() == lines_of(cs@).len(),
        forall|i: int| 0 <= i < r@.len() ==> (#[trigger] r@[i]).0 <= r@[i].1 <= cs@.len()
            && cs@.subrange(r@[i].0 as int, r@[i].1 as int) == lines_of(cs@)[i],
{
    let mut out: Vec<(usize, usize)> = Vec::new();
    let ghost mut done: Seq<Seq<char>> = Seq::empty();
    let mut start: usize = 0;
    let n = cs.len();
    assert(cs@.subrange(0, n as int) =~= cs@);
    while start < n
        invariant
            n == cs@.len(),
            start <= n,
            lines_of(cs@) == done + lines_of(cs@.subrange(start as int, n as int)),
            out@.len() == done.len(),
            forall|i: int| 0 <= i < out@.len() ==> (#[trigger] out@[i]).0 <= out@[i].1 <= n
                && cs@.subrange(out@[i].0 as int, out@[i].1 as int) == done[i],
        decreases n - start,
    {
        let (end, stop) = line_end(cs, start);
        proof {
            lemma_lines_step(cs@, start as int, end as int);
            done = done.push(cs@.subrange(start as int, stop as int));
        }
        out.push((start, stop));
        if end == n {
            start = n;
        } else {
            start = end + 1;
        }
        assert(lines_of(cs@) =~= done + lines_of(cs@.subrange(start as int, n as int)));
    }
    assert(cs@.subrange(start as int, n as int) =~= Seq::<char>::empty());
    assert(lines_of(Seq::<char>::empty()) == Seq::<Seq<char>>::empty()) by {
        reveal(lines_of);
    }
    assert(lines_of(cs@) =~= done);
    out
}

/// `char::is_whitespace`: the characters with the Unicode `White_Space`
/// property.
pub open spec fn is_white_space(c: char) -> bool {
    let x = c as u32;
    (0x9 <= x <= 0xd) || x == 0x20 || x == 0x85 || x == 0xa0 || x == 0x1680 || (0x2000 <= x <= 0x200a)
        || x == 0x2028 || x == 0x2029 || x == 0x202f || x == 0x205f || x == 0x3000
}

pub fn white_space(c: char) -> (r: bool)
    ensures
        r == is_white_space(c),
{
    let x = c as u32;
    (0x9 <= x && x <= 0xd) || x == 0x20 || x == 0x85 || x == 0xa0 || x == 0x1680 || (0x2000 <= x && x
        <= 0x200a) || x == 0x2028 || x == 0x2029 || x == 0x202f || x == 0x205f || x == 0x3000
}

} // verus!
