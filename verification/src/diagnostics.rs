//! Reading clang's diagnostics for a submission.
//!
//! A submission is compiled with a header of `HEADER_LINES` lines put in
//! front of it, so line numbers in diagnostics are shifted back by that much,
//! and diagnostics that point into the header are dropped.
use vstd::prelude::*;
use vstd::wrapping::usize_specs;
use vstd::string::StringExecFns;
use crate::text::{chars_of, string_of, ends_with, ends_with_at, lines_of, split_lines};

verus! {

/// How serious a diagnostic is.
#[derive(Clone, Copy, Debug, PartialEq, Eq, Structural)]
pub enum DiagnosticType {
    Error,
    Warning,
    Note,
}

/// A diagnostic of the compiler, at a line and column of the submission.
#[derive(Debug, Clone, PartialEq)]
pub struct Diagnostic {
    pub line: usize,
    pub col: usize,
    pub diagnostic_type: DiagnosticType,
    pub message: String,
}

impl View for Diagnostic {
    type V = (usize, usize, DiagnosticType, Seq<char>);

    open spec fn view(&self) -> Self::V {
        (self.line, self.col, self.diagnostic_type, self.message@)
    }
}

/// The number of lines of the header put in front of every submission.
pub const HEADER_LINES: usize = 39;

/// The source that is compiled: the header, then the submission.
pub fn process_file(header: &str, file: &str) -> (r: String)
    ensures
        r@ == header@ + file@,
{
    let mut new_file = String::new();
    new_file.append(header);
    new_file.append(file);
    new_file
}

/* ---------------------------------------------------------------------- */
/* Numbers                                                                */
/* ---------------------------------------------------------------------- */

pub open spec fn is_digit(c: char) -> bool {
    '0' <= c <= '9'
}

pub open spec fn digit_value(c: char) -> nat {
    (c as u32 - '0' as u32) as nat
}

/// The number of digits in a row from position `p` of `s`.
pub open spec fn digit_run(s: Seq<char>, p: int) -> nat
    decreases s.len() - p,
{
    if 0 <= p < s.len() && is_digit(s[p]) {
        1 + digit_run(s, p + 1)
    } else {
        0
    }
}

/// The value of the decimal digits `d`.
pub open spec fn decimal_value(d: Seq<char>) -> nat
    decreases d.len(),
{
    if d.len() == 0 {
        0
    } else {
        decimal_value(d.drop_last()) * 10 + digit_value(d.last())
    }
}

/// The value of the decimal digits `d` computed in `usize` arithmetic that
/// wraps around; it is `decimal_value(d)` whenever that fits in a `usize`.
pub open spec fn wrapped_value(d: Seq<char>) -> usize
    decreases d.len(),
{
    if d.len() == 0 {
        0
    } else {
        usize_specs::wrapping_add(
            usize_specs::wrapping_mul(wrapped_value(d.drop_last()), 10),
            digit_value(d.last()) as usize,
        )
    }
}

/// The digits from position `p` of `s`.
pub open spec fn number_at(s: Seq<char>, p: int) -> Seq<char> {
    s.subrange(p, p + digit_run(s, p))
}

/// Where reading a number from position `p` stops: after the character that
/// ended the digits, which is consumed too.
pub open spec fn after_number(s: Seq<char>, p: int) -> int {
    if p + digit_run(s, p) < s.len() {
        p + digit_run(s, p) + 1
    } else {
        s.len() as int
    }
}

proof fn lemma_digit_run_bound(s: Seq<char>, p: int)
    requires
        0 <= p <= s.len(),
    ensures
        p + digit_run(s, p) <= s.len(),
        forall|j: int| p <= j < p + digit_run(s, p) ==> is_digit(#[trigger] s[j]),
        p + digit_run(s, p) < s.len() ==> !is_digit(s[p + digit_run(s, p)]),
    decreases s.len() - p,
{
    if p < s.len() && is_digit(s[p]) {
        lemma_digit_run_bound(s, p + 1);
    }
}

proof fn lemma_wrapped_exact(d: Seq<char>)
    requires
        decimal_value(d) <= usize::MAX,
    ensures
        wrapped_value(d) == decimal_value(d),
    decreases d.len(),
{
    if d.len() > 0 {
        let p = d.drop_last();
        assert(decimal_value(p) <= decimal_value(d)) by (nonlinear_arith)
            requires
                decimal_value(d) == decimal_value(p) * 10 + digit_value(d.last()),
        ;
        lemma_wrapped_exact(p);
        let x = wrapped_value(p);
        assert(x * 10 <= usize::MAX);
        vstd::arithmetic::div_mod::lemma_small_mod((x * 10) as nat, (usize::MAX - usize::MIN + 1) as nat);
    }
}

/// Reads the decimal number that starts at `*pos`, and moves `*pos` past it
/// and past the character that ended it. Without digits the number is 0.
pub fn parse_number(chars: &[char], pos: &mut usize) -> (num: usize)
    requires
        *old(pos) <= chars@.len(),
    ensures
        *final(pos) == after_number(chars@, *old(pos) as int),
        num == wrapped_value(number_at(chars@, *old(pos) as int)),
        decimal_value(number_at(chars@, *old(pos) as int)) <= usize::MAX ==> num == decimal_value(
            number_at(chars@, *old(pos) as int),
        ),
{
    let ghost s = chars@;
    let ghost p0 = *pos as int;
    proof {
        lemma_digit_run_bound(s, p0);
    }
    let mut i: usize = *pos;
    let mut num: usize = 0;
    let n = chars.len();
    while i < n
        invariant_except_break
            n == s.len(),
            p0 <= i <= p0 + digit_run(s, p0),
            num == wrapped_value(s.subrange(p0, i as int)),
        invariant
            n == s.len(),
            s == chars@,
            p0 + digit_run(s, p0) <= s.len(),
            forall|j: int| p0 <= j < p0 + digit_run(s, p0) ==> is_digit(#[trigger] s[j]),
            p0 + digit_run(s, p0) < s.len() ==> !is_digit(s[p0 + digit_run(s, p0)]),
        ensures
            i == after_number(s, p0),
            num == wrapped_value(number_at(s, p0)),
        decreases n - i,
    {
        let c = chars[i];
        i = i + 1;
        if '0' <= c && c <= '9' {
            let d = (c as u32 - '0' as u32) as usize;
            let ghost before = s.subrange(p0, i - 1);
            assert(s.subrange(p0, i as int).drop_last() =~= before);
            num = num.wrapping_mul(10).wrapping_add(d);
        } else {
            assert(i - 1 == p0 + digit_run(s, p0));
            break;
        }
    }
    proof {
        lemma_wrapped_exact_if_fits(s, p0);
    }
    *pos = i;
    num
}

proof fn lemma_wrapped_exact_if_fits(s: Seq<char>, p: int)
    ensures
        decimal_value(number_at(s, p)) <= usize::MAX ==> wrapped_value(number_at(s, p)) == decimal_value(
            number_at(s, p),
        ),
{
    if decimal_value(number_at(s, p)) <= usize::MAX {
        lemma_wrapped_exact(number_at(s, p));
    }
}

/* ---------------------------------------------------------------------- */
/* Diagnostics                                                            */
/* ---------------------------------------------------------------------- */

/// Why a submission could not be judged.
#[derive(Debug, Clone, PartialEq)]
pub enum RunnerError {
    CompilationError { diagnostics: Vec<Diagnostic> },
    RuntimeError { message: String },
    InternalServerError { message: String },
    TimeoutError { message: String },
}

/// The index of the first `c` at or after `p` in `s`, or the length of `s`.
pub open spec fn find_from(s: Seq<char>, p: int, c: char) -> int
    decreases s.len() - p,
{
    if p < 0 || p >= s.len() {
        s.len() as int
    } else if s[p] == c {
        p
    } else {
        find_from(s, p + 1, c)
    }
}

/// The position after the first `c` at or after `p` (the end of `s` if there
/// is none).
pub open spec fn skip_past(s: Seq<char>, p: int, c: char) -> int {
    if find_from(s, p, c) < s.len() {
        find_from(s, p, c) + 1
    } else {
        s.len() as int
    }
}

/// The position after the character at `p`, if there is one.
pub open spec fn step(s: Seq<char>, p: int) -> int {
    if p < s.len() {
        p + 1
    } else {
        s.len() as int
    }
}

/// The name that a submission's source file has in every build.
pub open spec fn source_name() -> Seq<char> {
    "/implementation.cpp"@
}

/// The line names, before its first `:`, an absolute path to the
/// submission's source file.
pub open spec fn in_source(s: Seq<char>) -> bool {
    &&& s.len() > 0
    &&& s[0] == '/'
    &&& ends_with_at(s, find_from(s, 0, ':'), source_name())
}

pub open spec fn error_word() -> Seq<char> {
    seq!['e', 'r', 'r', 'o', 'r']
}

pub open spec fn warning_word() -> Seq<char> {
    seq!['w', 'a', 'r', 'n', 'i', 'n', 'g']
}

/// The kind of diagnostic the word names.
pub open spec fn kind_of_word(w: Seq<char>) -> DiagnosticType {
    if w == error_word() {
        DiagnosticType::Error
    } else if w == warning_word() {
        DiagnosticType::Warning
    } else {
        DiagnosticType::Note
    }
}

/// The diagnostic a line of clang's output holds, of the form
/// `/path/implementation.cpp:LINE:COL: KIND: MESSAGE`: none unless the file
/// named before the first `:` is an absolute path that ends in
/// `/implementation.cpp`, and none for a line of the header.
/// The line is counted from the start of the submission; the kind is `error`,
/// `warning` or else a note.
pub open spec fn spec_diagnostic(s: Seq<char>) -> Option<(usize, usize, DiagnosticType, Seq<char>)> {
    if !in_source(s) {
        None
    } else {
        let p1 = skip_past(s, 0, ':');
        let line = wrapped_value(number_at(s, p1));
        if line < HEADER_LINES {
            None
        } else {
            let p2 = after_number(s, p1);
            let col = wrapped_value(number_at(s, p2));
            let p3 = step(s, after_number(s, p2));
            let kind = s.subrange(p3, find_from(s, p3, ':'));
            let p4 = step(s, skip_past(s, p3, ':'));
            Some(((line - HEADER_LINES) as usize, col, kind_of_word(kind), s.subrange(p4, s.len() as int)))
        }
    }
}

proof fn lemma_find_from(s: Seq<char>, p: int, c: char)
    requires
        0 <= p <= s.len(),
    ensures
        p <= find_from(s, p, c) <= s.len(),
        forall|j: int| p <= j < find_from(s, p, c) ==> s[j] != c,
        find_from(s, p, c) < s.len() ==> s[find_from(s, p, c)] == c,
    decreases s.len() - p,
{
    if p < s.len() && s[p] != c {
        lemma_find_from(s, p + 1, c);
    }
}

fn find_char(s: &Vec<char>, p: usize, c: char) -> (r: usize)
    requires
        p <= s@.len(),
    ensures
        r == find_from(s@, p as int, c),
{
    let mut i = p;
    proof {
        lemma_find_from(s@, p as int, c);
    }
    while i < s.len() && s[i] != c
        invariant
            p <= i <= s@.len(),
            find_from(s@, i as int, c) == find_from(s@, p as int, c),
        decreases s@.len() - i,
    {
        i = i + 1;
    }
    i
}

fn same_chars(a: &Vec<char>, b: &Vec<char>) -> (r: bool)
    ensures
        r == (a@ == b@),
{
    if a.len() != b.len() {
        return false;
    }
    let mut i: usize = 0;
    while i < a.len()
        invariant
            a@.len() == b@.len(),
            i <= a@.len(),
            forall|j: int| 0 <= j < i ==> a@[j] == b@[j],
        decreases a@.len() - i,
    {
        if a[i] != b[i] {
            return false;
        }
        i = i + 1;
    }
    assert(a@ =~= b@);
    true
}

fn copy_range(cs: &Vec<char>, from: usize, to: usize) -> (r: Vec<char>)
    requires
        from <= to <= cs@.len(),
    ensures
        r@ == cs@.subrange(from as int, to as int),
{
    let mut out: Vec<char> = Vec::new();
    let mut i = from;
    while i < to
        invariant
            from <= i <= to,
            to <= cs@.len(),
            out@ == cs@.subrange(from as int, i as int),
        decreases to - i,
    {
        out.push(cs[i]);
        i = i + 1;
        assert(out@ =~= cs@.subrange(from as int, i as int));
    }
    out
}

fn diagnostic_from_chars(s: &Vec<char>) -> (r: Option<Diagnostic>)
    ensures
        match r {
            Some(d) => spec_diagnostic(s@) == Some(d@),
            None => spec_diagnostic(s@) is None,
        },
{
    let n = s.len();
    let colon = find_char(s, 0, ':');
    proof {
        lemma_find_from(s@, 0, ':');
    }
    let source = vec!['/', 'i', 'm', 'p', 'l', 'e', 'm', 'e', 'n', 't', 'a', 't', 'i', 'o', 'n', '.', 'c', 'p', 'p'];
    proof {
        reveal_strlit("/implementation.cpp");
    }
    assert(source@ =~= source_name());
    if !(n > 0 && s[0] == '/') || !ends_with(s, colon, &source) {
        return None;
    }
    let mut pos: usize = if colon < n { colon + 1 } else { n };
    let ghost p1 = pos as int;
    let line = parse_number(s.as_slice(), &mut pos);
    if line < HEADER_LINES {
        return None;
    }
    let line = line - HEADER_LINES;
    proof {
        lemma_digit_run_bound(s@, pos as int);
    }
    let col = parse_number(s.as_slice(), &mut pos);
    if pos < n {
        pos = pos + 1;
    }
    proof {
        lemma_find_from(s@, pos as int, ':');
    }
    let kind_end = find_char(s, pos, ':');
    let kind = copy_range(s, pos, kind_end);
    let mut rest = if kind_end < n { kind_end + 1 } else { n };
    if rest < n {
        rest = rest + 1;
    }
    let error = vec!['e', 'r', 'r', 'o', 'r'];
    let warning = vec!['w', 'a', 'r', 'n', 'i', 'n', 'g'];
    assert(error@ =~= error_word());
    assert(warning@ =~= warning_word());
    let diagnostic_type = if same_chars(&kind, &error) {
        DiagnosticType::Error
    } else if same_chars(&kind, &warning) {
        DiagnosticType::Warning
    } else {
        DiagnosticType::Note
    };
    let message = string_of(s, rest, n);
    Some(Diagnostic { line, col, diagnostic_type, message })
}

/// The diagnostic a line of clang's output holds (see `spec_diagnostic`).
pub fn diagnostic_from_str(s: &str) -> (r: Result<Option<Diagnostic>, RunnerError>)
    ensures
        match r {
            Ok(Some(d)) => spec_diagnostic(s@) == Some(d@),
            Ok(None) => spec_diagnostic(s@) is None,
            Err(_) => false,
        },
{
    let cs = chars_of(s);
    Ok(diagnostic_from_chars(&cs))
}

/// The diagnostics of the lines, in order.
pub open spec fn diagnostics_of(lines: Seq<Seq<char>>) -> Seq<(usize, usize, DiagnosticType, Seq<char>)>
    decreases lines.len(),
{
    if lines.len() == 0 {
        Seq::empty()
    } else {
        let rest = diagnostics_of(lines.drop_last());
        match spec_diagnostic(lines.last()) {
            Some(d) => rest.push(d),
            None => rest,
        }
    }
}

pub open spec fn views(ds: Seq<Diagnostic>) -> Seq<(usize, usize, DiagnosticType, Seq<char>)> {
    ds.map(|i: int, d: Diagnostic| d@)
}

/// The compilation error that clang's output `err` reports: the diagnostics
/// of its lines, in order.
pub fn parse_cplusplus_error(err: &str) -> (r: RunnerError)
    ensures
        r matches RunnerError::CompilationError { diagnostics } && views(diagnostics@) == diagnostics_of(
            lines_of(err@),
        ),
{
    let cs = chars_of(err);
    let lines = split_lines(&cs);
    let ghost ls = lines_of(cs@);
    let mut diagnostics: Vec<Diagnostic> = Vec::new();
    let mut i: usize = 0;
    while i < lines.len()
        invariant
            i <= lines@.len(),
            lines@.len() == ls.len(),
            ls == lines_of(cs@),
            forall|j: int| 0 <= j < lines@.len() ==> (#[trigger] lines@[j]).0 <= lines@[j].1 <= cs@.len()
                && cs@.subrange(lines@[j].0 as int, lines@[j].1 as int) == ls[j],
            views(diagnostics@) == diagnostics_of(ls.take(i as int)),
        decreases lines@.len() - i,
    {
        let (a, b) = lines[i];
        let line = copy_range(&cs, a, b);
        assert(ls.take(i + 1).drop_last() =~= ls.take(i as int));
        assert(ls.take(i + 1).last() == line@);
        match diagnostic_from_chars(&line) {
            Some(d) => {
                let ghost before = diagnostics@;
                diagnostics.push(d);
                assert(views(diagnostics@) =~= views(before).push(d@));
            },
            None => {},
        }
        i = i + 1;
    }
    assert(ls.take(i as int) =~= ls);
    RunnerError::CompilationError { diagnostics }
}

} // verus!
