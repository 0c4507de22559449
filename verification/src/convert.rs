//! Converting tests kept in the old text format (an input text and an
//! expected-output text) into function calls with typed arguments and results,
//! one reading per problem.
//!
//! Each conversion is described by a spec function that gives, for a test,
//! the arguments, the result type and the expected value it makes, or says
//! that reading a number fails, or that the text has not the shape the
//! conversion expects (those inputs are outside what a conversion accepts).
use vstd::prelude::*;
use vstd::string::StringExecFns;
use crate::layout::{CppType, Data};
use crate::function::{
    ContainerVariant, ContainerVariantType, FunctionType, FunctionValue, WasmFunctionCall, WasmMemory,
};
use crate::judge::Test;
use crate::service::OldTest;
use crate::text::{chars_of, string_of, lines_of};
use crate::words::{
    trim, trim_chars, split_once, split_once_chars, split_on, split_on_chars, split_whitespace,
    split_whitespace_chars, lines_chars, parse_i32, parse_i64, parse_i32_chars, parse_i64_chars, views,
};

verus! {

/// A number in the test could not be read.
#[derive(Clone, Copy, Debug, PartialEq, Eq, Structural)]
pub enum ConvertError {
    InvalidNumber,
}

/// What a conversion makes of a test.
pub enum Conversion {
    /// The text has not the shape the conversion reads.
    Panics,
    /// A number could not be read.
    Fails,
    /// The arguments, the result type and the expected output, each value by
    /// its type and content.
    Converts(Seq<(FunctionType, Data)>, FunctionType, (FunctionType, Data)),
}

pub open spec fn describes(v: FunctionValue, d: (FunctionType, Data)) -> bool {
    v.value_type() == d.0 && v.data() == d.1
}

/// `r` is what the conversion `c` says of the test `t` converted for the
/// function `name`.
pub open spec fn converted(r: Result<Test, ConvertError>, name: Seq<char>, t: OldTest, c: Conversion) -> bool {
    match c {
        Conversion::Panics => false,
        Conversion::Fails => r == Err::<Test, ConvertError>(ConvertError::InvalidNumber),
        Conversion::Converts(args, rt, exp) => r matches Ok(x) && x.id == t.id && x.index == t.test_number
            && x.max_fuel == t.max_runtime && x.input.name@ == name && x.input.return_type == rt
            && x.input.arguments@.len() == args.len() && (forall|i: int|
            0 <= i < args.len() ==> describes(#[trigger] x.input.arguments@[i], args[i])) && describes(
            x.expected_output,
            exp,
        ),
    }
}

/* Values by type and content. */

pub open spec fn int1(x: i32) -> (FunctionType, Data) {
    (FunctionType::Int(ContainerVariantType::Single), Data::Int(x))
}

pub open spec fn long1(x: i64) -> (FunctionType, Data) {
    (FunctionType::Long(ContainerVariantType::Single), Data::Long(x))
}

pub open spec fn str1(s: Seq<char>) -> (FunctionType, Data) {
    (FunctionType::String(ContainerVariantType::Single), Data::Str(s))
}

pub open spec fn bool1(b: bool) -> (FunctionType, Data) {
    (FunctionType::Bool(ContainerVariantType::Single), Data::Bool(b))
}

pub open spec fn int_items(s: Seq<i32>) -> Seq<Data> {
    s.map(|i: int, x: i32| Data::Int(x))
}

pub open spec fn ints(s: Seq<i32>) -> (FunctionType, Data) {
    (FunctionType::Int(ContainerVariantType::List), Data::Vector(CppType::Int, int_items(s)))
}

pub open spec fn strs(s: Seq<Seq<char>>) -> (FunctionType, Data) {
    (
        FunctionType::String(ContainerVariantType::List),
        Data::Vector(CppType::Str, s.map(|i: int, x: Seq<char>| Data::Str(x))),
    )
}

pub open spec fn int_grid(shape: ContainerVariantType, s: Seq<Seq<i32>>) -> (FunctionType, Data) {
    (
        FunctionType::Int(shape),
        Data::Vector(
            CppType::Vector(Box::new(CppType::Int)),
            s.map(|i: int, row: Seq<i32>| Data::Vector(CppType::Int, int_items(row))),
        ),
    )
}

pub open spec fn long_grid(s: Seq<Seq<i64>>) -> (FunctionType, Data) {
    (
        FunctionType::Long(ContainerVariantType::Grid),
        Data::Vector(
            CppType::Vector(Box::new(CppType::Long)),
            s.map(|i: int, row: Seq<i64>| Data::Vector(CppType::Long, row.map(|j: int, x: i64| Data::Long(x)))),
        ),
    )
}

pub open spec fn char_grid(s: Seq<Seq<char>>) -> (FunctionType, Data) {
    (
        FunctionType::Char(ContainerVariantType::Grid),
        Data::Vector(
            CppType::Vector(Box::new(CppType::Char)),
            s.map(|i: int, row: Seq<char>| crate::function::list_data::<char>(row)),
        ),
    )
}

/* ---------------------------------------------------------------------- */
/* Building values                                                        */
/* ---------------------------------------------------------------------- */

fn int_value(x: i32) -> (v: FunctionValue)
    ensures
        describes(v, int1(x)),
{
    FunctionValue::Int(ContainerVariant::Single(x))
}

fn long_value(x: i64) -> (v: FunctionValue)
    ensures
        describes(v, long1(x)),
{
    FunctionValue::Long(ContainerVariant::Single(x))
}

fn str_value(s: &Vec<char>) -> (v: FunctionValue)
    ensures
        describes(v, str1(s@)),
{
    let text = string_of(s, 0, s.len());
    assert(text@ =~= s@);
    FunctionValue::String(ContainerVariant::Single(text))
}

fn int_list_value(s: Vec<i32>) -> (v: FunctionValue)
    ensures
        describes(v, ints(s@)),
{
    let v = FunctionValue::Int(ContainerVariant::List(s));
    assert(s@.map(|i: int, x: i32| x.data()) =~= int_items(s@));
    v
}

fn strs_value(words: &Vec<Vec<char>>) -> (v: FunctionValue)
    ensures
        describes(v, strs(views(words@))),
{
    let mut out: Vec<String> = Vec::new();
    let mut i: usize = 0;
    while i < words.len()
        invariant
            i <= words@.len(),
            out@.len() == i,
            forall|j: int| 0 <= j < i ==> (#[trigger] out@[j])@ == words@[j]@,
        decreases words@.len() - i,
    {
        out.push(string_of(&words[i], 0, words[i].len()));
        i = i + 1;
    }
    let ghost items = out@.map(|i: int, x: String| x.data());
    assert(items =~= views(words@).map(|i: int, x: Seq<char>| Data::Str(x)));
    FunctionValue::String(ContainerVariant::List(out))
}

fn int_grid_value(shape: ContainerVariantType, g: Vec<Vec<i32>>) -> (v: FunctionValue)
    requires
        shape == ContainerVariantType::Grid || shape == ContainerVariantType::Graph,
    ensures
        describes(v, int_grid(shape, g@.map(|i: int, row: Vec<i32>| row@))),
{
    let ghost rows = g@.map(|i: int, row: Vec<i32>| row@);
    proof {
        let a = g@.map(|i: int, row: Vec<i32>| crate::function::list_data(row@));
        let b = rows.map(|i: int, row: Seq<i32>| Data::Vector(CppType::Int, int_items(row)));
        assert forall|i: int| 0 <= i < a.len() implies a[i] == b[i] by {
            assert(g@[i]@.map(|j: int, x: i32| x.data()) =~= int_items(rows[i]));
        }
        assert(a =~= b);
    }
    if shape == ContainerVariantType::Grid {
        FunctionValue::Int(ContainerVariant::Grid(g))
    } else {
        FunctionValue::Int(ContainerVariant::Graph(g))
    }
}

fn long_grid_value(g: Vec<Vec<i64>>) -> (v: FunctionValue)
    ensures
        describes(v, long_grid(g@.map(|i: int, row: Vec<i64>| row@))),
{
    let ghost rows = g@.map(|i: int, row: Vec<i64>| row@);
    proof {
        let a = g@.map(|i: int, row: Vec<i64>| crate::function::list_data(row@));
        let b = rows.map(|i: int, row: Seq<i64>| Data::Vector(CppType::Long, row.map(|j: int, x: i64| Data::Long(x))));
        assert forall|i: int| 0 <= i < a.len() implies a[i] == b[i] by {
            assert(g@[i]@.map(|j: int, x: i64| x.data()) =~= rows[i].map(|j: int, x: i64| Data::Long(x)));
        }
        assert(a =~= b);
    }
    FunctionValue::Long(ContainerVariant::Grid(g))
}

fn char_grid_value(g: Vec<Vec<char>>) -> (v: FunctionValue)
    ensures
        describes(v, char_grid(views(g@))),
{
    proof {
        let a = g@.map(|i: int, row: Vec<char>| crate::function::list_data(row@));
        let b = views(g@).map(|i: int, row: Seq<char>| crate::function::list_data::<char>(row));
        assert forall|i: int| 0 <= i < a.len() implies a[i] == b[i] by {
            assert(views(g@)[i] == g@[i]@);
        }
        assert(a =~= b);
    }
    FunctionValue::Char(ContainerVariant::Grid(g))
}

fn make_test(
    function_name: &str,
    t: &OldTest,
    arguments: Vec<FunctionValue>,
    return_type: FunctionType,
    expected_output: FunctionValue,
) -> (r: Test)
    ensures
        r.id == t.id,
        r.index == t.test_number,
        r.max_fuel == t.max_runtime,
        r.input.name@ == function_name@,
        r.input.return_type == return_type,
        r.input.arguments@ == arguments@,
        r.expected_output == expected_output,
{
    Test {
        id: t.id,
        index: t.test_number,
        max_fuel: t.max_runtime,
        input: WasmFunctionCall::new(function_name, arguments, return_type),
        expected_output,
    }
}

/* ---------------------------------------------------------------------- */
/* Single values                                                          */
/* ---------------------------------------------------------------------- */

/// The input and the expected output as they are, as single strings.
pub open spec fn spec_convert_raw_string(t: OldTest) -> Conversion {
    Conversion::Converts(seq![str1(t.input@)], FunctionType::String(ContainerVariantType::Single), str1(t.expected_output@))
}

pub fn convert_raw_string(function_name: &str, test: OldTest) -> (r: Result<Test, ConvertError>)
    ensures
        converted(r, function_name@, test, spec_convert_raw_string(test)),
{
    let input = FunctionValue::String(ContainerVariant::Single(test.input.clone()));
    let result = FunctionValue::String(ContainerVariant::Single(test.expected_output.clone()));
    let r = make_test(function_name, &test, vec![input], FunctionType::String(ContainerVariantType::Single), result);
    assert(r.input.arguments@[0] == input);
    Ok(r)
}

/// An integer in, an integer out.
pub open spec fn spec_int_int(t: OldTest) -> Conversion {
    match (parse_i32(trim(t.input@)), parse_i32(trim(t.expected_output@))) {
        (Some(x), Some(y)) => Conversion::Converts(seq![int1(x)], FunctionType::Int(ContainerVariantType::Single), int1(y)),
        _ => Conversion::Panics,
    }
}

fn int_int_or_none(function_name: &str, test: &OldTest) -> (r: Option<Result<Test, ConvertError>>)
    ensures
        match r {
            Some(x) => converted(x, function_name@, *test, spec_int_int(*test)),
            None => spec_int_int(*test) is Panics,
        },
{
    let x = match parse_i32_chars(&trim_chars(&chars_of(test.input.as_str()))) {
        Some(v) => v,
        None => {
            return None;
        },
    };
    let y = match parse_i32_chars(&trim_chars(&chars_of(test.expected_output.as_str()))) {
        Some(v) => v,
        None => {
            return None;
        },
    };
    let input = int_value(x);
    let result = int_value(y);
    let r = make_test(function_name, test, vec![input], FunctionType::Int(ContainerVariantType::Single), result);
    assert(r.input.arguments@[0] == input);
    Some(Ok(r))
}

/// Whether `int_int` reads the test: whether its text has the shape that
/// `int_int` expects.
pub fn int_int_accepts(test: &OldTest) -> (r: bool)
    ensures
        r == !(spec_int_int(*test) is Panics),
{
    int_int_or_none("", test).is_some()
}

pub fn int_int(function_name: &str, test: OldTest) -> (r: Result<Test, ConvertError>)
    requires
        !(spec_int_int(test) is Panics),
    ensures
        converted(r, function_name@, test, spec_int_int(test)),
{
    match int_int_or_none(function_name, &test) {
        Some(r) => r,
        None => Err(ConvertError::InvalidNumber),
    }
}

/// An integer in, the expected output as it is out.
pub open spec fn spec_int_string(t: OldTest) -> Conversion {
    match parse_i32(trim(t.input@)) {
        Some(x) => Conversion::Converts(seq![int1(x)], FunctionType::String(ContainerVariantType::Single), str1(t.expected_output@)),
        None => Conversion::Panics,
    }
}

fn int_string_or_none(function_name: &str, test: &OldTest) -> (r: Option<Result<Test, ConvertError>>)
    ensures
        match r {
            Some(x) => converted(x, function_name@, *test, spec_int_string(*test)),
            None => spec_int_string(*test) is Panics,
        },
{
    let x = match parse_i32_chars(&trim_chars(&chars_of(test.input.as_str()))) {
        Some(v) => v,
        None => {
            return None;
        },
    };
    let input = int_value(x);
    let result = FunctionValue::String(ContainerVariant::Single(test.expected_output.clone()));
    let r = make_test(function_name, test, vec![input], FunctionType::String(ContainerVariantType::Single), result);
    assert(r.input.arguments@[0] == input);
    Some(Ok(r))
}

/// Whether `int_string` reads the test: whether its text has the shape that
/// `int_string` expects.
pub fn int_string_accepts(test: &OldTest) -> (r: bool)
    ensures
        r == !(spec_int_string(*test) is Panics),
{
    int_string_or_none("", test).is_some()
}

pub fn int_string(function_name: &str, test: OldTest) -> (r: Result<Test, ConvertError>)
    requires
        !(spec_int_string(test) is Panics),
    ensures
        converted(r, function_name@, test, spec_int_string(test)),
{
    match int_string_or_none(function_name, &test) {
        Some(r) => r,
        None => Err(ConvertError::InvalidNumber),
    }
}

/// A trimmed string in, an integer out.
pub open spec fn spec_string_int(t: OldTest) -> Conversion {
    match parse_i32(trim(t.expected_output@)) {
        Some(y) => Conversion::Converts(seq![str1(trim(t.input@))], FunctionType::Int(ContainerVariantType::Single), int1(y)),
        None => Conversion::Fails,
    }
}

pub fn string_int(function_name: &str, test: OldTest) -> (r: Result<Test, ConvertError>)
    ensures
        converted(r, function_name@, test, spec_string_int(test)),
{
    let input = str_value(&trim_chars(&chars_of(test.input.as_str())));
    let y = match parse_i32_chars(&trim_chars(&chars_of(test.expected_output.as_str()))) {
        Some(y) => y,
        None => {
            return Err(ConvertError::InvalidNumber);
        },
    };
    let result = int_value(y);
    let r = make_test(function_name, &test, vec![input], FunctionType::Int(ContainerVariantType::Single), result);
    assert(r.input.arguments@[0] == input);
    Ok(r)
}

pub open spec fn odd_word() -> Seq<char> {
    seq!['O', 'd', 'd', '.']
}

/// A trimmed string in; out, whether the expected output reads `Odd.`.
pub open spec fn spec_string_bool(t: OldTest) -> Conversion {
    Conversion::Converts(
        seq![str1(trim(t.input@))],
        FunctionType::Bool(ContainerVariantType::Single),
        bool1(trim(t.expected_output@) == odd_word()),
    )
}

fn same_chars(a: &Vec<char>, b: &Vec<char>) -> (r: bool)
    ensures
        r == (a@ == b@),
{
    if a.len() != b.len() {
        return false;
    }
    let mut i: usize = 0;
    while i < a.len()
        invariant
            a@.len() == b@.len(),
            i <= a@.len(),
            forall|j: int| 0 <= j < i ==> a@[j] == b@[j],
        decreases a@.len() - i,
    {
        if a[i] != b[i] {
            return false;
        }
        i = i + 1;
    }
    assert(a@ =~= b@);
    true
}

pub fn string_bool(function_name: &str, test: OldTest) -> (r: Result<Test, ConvertError>)
    ensures
        converted(r, function_name@, test, spec_string_bool(test)),
{
    let input = str_value(&trim_chars(&chars_of(test.input.as_str())));
    let odd = vec!['O', 'd', 'd', '.'];
    assert(odd@ =~= odd_word());
    let b = same_chars(&trim_chars(&chars_of(test.expected_output.as_str())), &odd);
    let result = FunctionValue::Bool(ContainerVariant::Single(b));
    let r = make_test(function_name, &test, vec![input], FunctionType::Bool(ContainerVariantType::Single), result);
    assert(r.input.arguments@[0] == input);
    Ok(r)
}

/// An integer in, the expected output as it is out; reading the input may
/// fail.
pub open spec fn spec_star_arrangements(t: OldTest) -> Conversion {
    match parse_i32(trim(t.input@)) {
        Some(x) => Conversion::Converts(seq![int1(x)], FunctionType::String(ContainerVariantType::Single), str1(t.expected_output@)),
        None => Conversion::Fails,
    }
}

pub fn star_arrangements(function_name: &str, test: OldTest) -> (r: Result<Test, ConvertError>)
    ensures
        converted(r, function_name@, test, spec_star_arrangements(test)),
{
    let x = match parse_i32_chars(&trim_chars(&chars_of(test.input.as_str()))) {
        Some(x) => x,
        None => {
            return Err(ConvertError::InvalidNumber);
        },
    };
    let input = int_value(x);
    let result = FunctionValue::String(ContainerVariant::Single(test.expected_output.clone()));
    let r = make_test(function_name, &test, vec![input], FunctionType::String(ContainerVariantType::Single), result);
    assert(r.input.arguments@[0] == input);
    Ok(r)
}

/* ---------------------------------------------------------------------- */
/* Lists of numbers                                                       */
/* ---------------------------------------------------------------------- */

/// The word, trimmed or not.
pub open spec fn maybe_trim(w: Seq<char>, trimmed: bool) -> Seq<char> {
    if trimmed {
        trim(w)
    } else {
        w
    }
}

/// The `i32`s the words spell (each trimmed first, or not), if they all
/// spell one.
pub open spec fn parse_all_i32(ws: Seq<Seq<char>>, trimmed: bool) -> Option<Seq<i32>>
    decreases ws.len(),
{
    if ws.len() == 0 {
        Some(Seq::empty())
    } else {
        match (parse_all_i32(ws.drop_last(), trimmed), parse_i32(maybe_trim(ws.last(), trimmed))) {
            (Some(p), Some(x)) => Some(p.push(x)),
            _ => None,
        }
    }
}

/// The `i64`s the words spell (each trimmed first, or not), if they all
/// spell one.
pub open spec fn parse_all_i64(ws: Seq<Seq<char>>, trimmed: bool) -> Option<Seq<i64>>
    decreases ws.len(),
{
    if ws.len() == 0 {
        Some(Seq::empty())
    } else {
        match (parse_all_i64(ws.drop_last(), trimmed), parse_i64(maybe_trim(ws.last(), trimmed))) {
            (Some(p), Some(x)) => Some(p.push(x)),
            _ => None,
        }
    }
}

fn parse_each_i32(ws: &Vec<Vec<char>>, trimmed: bool) -> (r: Option<Vec<i32>>)
    ensures
        match r {
            Some(v) => parse_all_i32(views(ws@), trimmed) == Some(v@),
            None => parse_all_i32(views(ws@), trimmed) is None,
        },
{
    let ghost all = views(ws@);
    let mut out: Vec<i32> = Vec::new();
    let mut i: usize = 0;
    assert(all.take(0) =~= Seq::<Seq<char>>::empty());
    while i < ws.len()
        invariant
            i <= ws@.len(),
            all == views(ws@),
            parse_all_i32(all.take(i as int), trimmed) == Some(out@),
        decreases ws@.len() - i,
    {
        assert(all.take(i + 1).drop_last() =~= all.take(i as int));
        assert(all.take(i + 1).last() == ws@[i as int]@);
        let w = if trimmed { trim_chars(&ws[i]) } else { copy_chars(&ws[i]) };
        match parse_i32_chars(&w) {
            Some(x) => out.push(x),
            None => {
                proof {
                    lemma_parse_all_i32_prefix(all, (i + 1) as int, trimmed);
                }
                return None;
            },
        }
        i = i + 1;
    }
    assert(all.take(i as int) =~= all);
    Some(out)
}

fn parse_each_i64(ws: &Vec<Vec<char>>, trimmed: bool) -> (r: Option<Vec<i64>>)
    ensures
        match r {
            Some(v) => parse_all_i64(views(ws@), trimmed) == Some(v@),
            None => parse_all_i64(views(ws@), trimmed) is None,
        },
{
    let ghost all = views(ws@);
    let mut out: Vec<i64> = Vec::new();
    let mut i: usize = 0;
    assert(all.take(0) =~= Seq::<Seq<char>>::empty());
    while i < ws.len()
        invariant
            i <= ws@.len(),
            all == views(ws@),
            parse_all_i64(all.take(i as int), trimmed) == Some(out@),
        decreases ws@.len() - i,
    {
        assert(all.take(i + 1).drop_last() =~= all.take(i as int));
        assert(all.take(i + 1).last() == ws@[i as int]@);
        let w = if trimmed { trim_chars(&ws[i]) } else { copy_chars(&ws[i]) };
        match parse_i64_chars(&w) {
            Some(x) => out.push(x),
            None => {
                proof {
                    lemma_parse_all_i64_prefix(all, (i + 1) as int, trimmed);
                }
                return None;
            },
        }
        i = i + 1;
    }
    assert(all.take(i as int) =~= all);
    Some(out)
}

/// When a prefix fails to read, so does the whole.
proof fn lemma_parse_all_i32_prefix(ws: Seq<Seq<char>>, k: int, trimmed: bool)
    requires
        0 <= k <= ws.len(),
        parse_all_i32(ws.take(k), trimmed) is None,
    ensures
        parse_all_i32(ws, trimmed) is None,
    decreases ws.len() - k,
{
    if k < ws.len() {
        assert(ws.take(k + 1).drop_last() =~= ws.take(k));
        lemma_parse_all_i32_prefix(ws, k + 1, trimmed);
    } else {
        assert(ws.take(k) =~= ws);
    }
}

proof fn lemma_parse_all_i64_prefix(ws: Seq<Seq<char>>, k: int, trimmed: bool)
    requires
        0 <= k <= ws.len(),
        parse_all_i64(ws.take(k), trimmed) is None,
    ensures
        parse_all_i64(ws, trimmed) is None,
    decreases ws.len() - k,
{
    if k < ws.len() {
        assert(ws.take(k + 1).drop_last() =~= ws.take(k));
        lemma_parse_all_i64_prefix(ws, k + 1, trimmed);
    } else {
        assert(ws.take(k) =~= ws);
    }
}

fn copy_chars(w: &Vec<char>) -> (r: Vec<char>)
    ensures
        r@ == w@,
{
    let mut out: Vec<char> = Vec::new();
    let mut i: usize = 0;
    while i < w.len()
        invariant
            i <= w@.len(),
            out@ == w@.take(i as int),
        decreases w@.len() - i,
    {
        out.push(w[i]);
        i = i + 1;
        assert(out@ =~= w@.take(i as int));
    }
    assert(w@.take(i as int) =~= w@);
    out
}

fn trim_each(ws: &Vec<Vec<char>>) -> (r: Vec<Vec<char>>)
    ensures
        views(r@) == views(ws@).map(|i: int, w: Seq<char>| trim(w)),
{
    let mut out: Vec<Vec<char>> = Vec::new();
    let mut i: usize = 0;
    while i < ws.len()
        invariant
            i <= ws@.len(),
            views(out@) == views(ws@).take(i as int).map(|i: int, w: Seq<char>| trim(w)),
        decreases ws@.len() - i,
    {
        let t = trim_chars(&ws[i]);
        let ghost before = out@;
        out.push(t);
        assert(views(ws@)[i as int] == ws@[i as int]@);
        assert(views(out@) =~= views(before).push(trim(ws@[i as int]@)));
        assert(views(out@) =~= views(ws@).take(i + 1).map(|i: int, w: Seq<char>| trim(w)));
        i = i + 1;
    }
    assert(views(ws@).take(i as int) =~= views(ws@));
    out
}

/// Two trimmed lines in, a trimmed string out.
pub open spec fn spec_two_strings(t: OldTest) -> Conversion {
    match split_once(t.input@, '\n') {
        Some((a, b)) => Conversion::Converts(
            seq![str1(trim(a)), str1(trim(b))],
            FunctionType::String(ContainerVariantType::Single),
            str1(trim(t.expected_output@)),
        ),
        None => Conversion::Panics,
    }
}

fn two_strings_or_none(function_name: &str, test: &OldTest) -> (r: Option<Result<Test, ConvertError>>)
    ensures
        match r {
            Some(x) => converted(x, function_name@, *test, spec_two_strings(*test)),
            None => spec_two_strings(*test) is Panics,
        },
{
    let (a, b) = match split_once_chars(&chars_of(test.input.as_str()), '\n') {
        Some(v) => v,
        None => {
            return None;
        },
    };
    let first = str_value(&trim_chars(&a));
    let second = str_value(&trim_chars(&b));
    let result = str_value(&trim_chars(&chars_of(test.expected_output.as_str())));
    let r = make_test(function_name, test, vec![first, second], FunctionType::String(ContainerVariantType::Single), result);
    assert(r.input.arguments@[0] == first && r.input.arguments@[1] == second);
    Some(Ok(r))
}

/// Whether `two_strings` reads the test: whether its text has the shape that
/// `two_strings` expects.
pub fn two_strings_accepts(test: &OldTest) -> (r: bool)
    ensures
        r == !(spec_two_strings(*test) is Panics),
{
    two_strings_or_none("", test).is_some()
}

pub fn two_strings(function_name: &str, test: OldTest) -> (r: Result<Test, ConvertError>)
    requires
        !(spec_two_strings(test) is Panics),
    ensures
        converted(r, function_name@, test, spec_two_strings(test)),
{
    match two_strings_or_none(function_name, &test) {
        Some(r) => r,
        None => Err(ConvertError::InvalidNumber),
    }
}

/// Two trimmed lines in, an integer out.
pub open spec fn spec_papercuts(t: OldTest) -> Conversion {
    match (split_once(t.input@, '\n'), parse_i32(trim(t.expected_output@))) {
        (Some((a, b)), Some(y)) => Conversion::Converts(
            seq![str1(trim(a)), str1(trim(b))],
            FunctionType::Int(ContainerVariantType::Single),
            int1(y),
        ),
        _ => Conversion::Panics,
    }
}

fn papercuts_or_none(function_name: &str, test: &OldTest) -> (r: Option<Result<Test, ConvertError>>)
    ensures
        match r {
            Some(x) => converted(x, function_name@, *test, spec_papercuts(*test)),
            None => spec_papercuts(*test) is Panics,
        },
{
    let (a, b) = match split_once_chars(&chars_of(test.input.as_str()), '\n') {
        Some(v) => v,
        None => {
            return None;
        },
    };
    let first = str_value(&trim_chars(&a));
    let second = str_value(&trim_chars(&b));
    let y = match parse_i32_chars(&trim_chars(&chars_of(test.expected_output.as_str()))) {
        Some(v) => v,
        None => {
            return None;
        },
    };
    let result = int_value(y);
    let r = make_test(function_name, test, vec![first, second], FunctionType::Int(ContainerVariantType::Single), result);
    assert(r.input.arguments@[0] == first && r.input.arguments@[1] == second);
    Some(Ok(r))
}

/// Whether `papercuts` reads the test: whether its text has the shape that
/// `papercuts` expects.
pub fn papercuts_accepts(test: &OldTest) -> (r: bool)
    ensures
        r == !(spec_papercuts(*test) is Panics),
{
    papercuts_or_none("", test).is_some()
}

pub fn papercuts(function_name: &str, test: OldTest) -> (r: Result<Test, ConvertError>)
    requires
        !(spec_papercuts(test) is Panics),
    ensures
        converted(r, function_name@, test, spec_papercuts(test)),
{
    match papercuts_or_none(function_name, &test) {
        Some(r) => r,
        None => Err(ConvertError::InvalidNumber),
    }
}

/// Two `long`s separated by a space in, a `long` out.
pub open spec fn spec_fear_factoring(t: OldTest) -> Conversion {
    match parse_all_i64(split_on(t.input@, ' '), true) {
        Some(v) => if v.len() >= 2 {
            match parse_i64(trim(t.expected_output@)) {
                Some(y) => Conversion::Converts(
                    seq![long1(v[0]), long1(v[1])],
                    FunctionType::Long(ContainerVariantType::Single),
                    long1(y),
                ),
                None => Conversion::Fails,
            }
        } else {
            Conversion::Panics
        },
        None => Conversion::Panics,
    }
}

fn fear_factoring_or_none(function_name: &str, test: &OldTest) -> (r: Option<Result<Test, ConvertError>>)
    ensures
        match r {
            Some(x) => converted(x, function_name@, *test, spec_fear_factoring(*test)),
            None => spec_fear_factoring(*test) is Panics,
        },
{
    let pieces = split_on_chars(&chars_of(test.input.as_str()), ' ');
    let input = match parse_each_i64(&pieces, true) {
        Some(v) => v,
        None => {
            return None;
        },
    };
    if input.len() < 2 {
        return None;
    }
    let first = long_value(input[0]);
    let second = long_value(input[1]);
    let y = match parse_i64_chars(&trim_chars(&chars_of(test.expected_output.as_str()))) {
        Some(y) => y,
        None => {
            return Some(Err(ConvertError::InvalidNumber));
        },
    };
    let result = long_value(y);
    let r = make_test(function_name, test, vec![first, second], FunctionType::Long(ContainerVariantType::Single), result);
    assert(r.input.arguments@[0] == first && r.input.arguments@[1] == second);
    Some(Ok(r))
}

/// Whether `fear_factoring` reads the test: whether its text has the shape that
/// `fear_factoring` expects.
pub fn fear_factoring_accepts(test: &OldTest) -> (r: bool)
    ensures
        r == !(spec_fear_factoring(*test) is Panics),
{
    fear_factoring_or_none("", test).is_some()
}

pub fn fear_factoring(function_name: &str, test: OldTest) -> (r: Result<Test, ConvertError>)
    requires
        !(spec_fear_factoring(test) is Panics),
    ensures
        converted(r, function_name@, test, spec_fear_factoring(test)),
{
    match fear_factoring_or_none(function_name, &test) {
        Some(r) => r,
        None => Err(ConvertError::InvalidNumber),
    }
}

/// After a first line, a list of `int`s in; an `int` out.
pub open spec fn spec_vec_i32(t: OldTest) -> Conversion {
    match split_once(t.input@, '\n') {
        Some((_first, rest)) => match (parse_all_i32(split_whitespace(trim(rest)), true), parse_i32(trim(t.expected_output@))) {
            (Some(nums), Some(y)) => Conversion::Converts(seq![ints(nums)], FunctionType::Int(ContainerVariantType::Single), int1(y)),
            _ => Conversion::Panics,
        },
        None => Conversion::Panics,
    }
}

fn vec_i32_or_none(function_name: &str, test: &OldTest) -> (r: Option<Result<Test, ConvertError>>)
    ensures
        match r {
            Some(x) => converted(x, function_name@, *test, spec_vec_i32(*test)),
            None => spec_vec_i32(*test) is Panics,
        },
{
    let (_first, rest) = match split_once_chars(&chars_of(test.input.as_str()), '\n') {
        Some(v) => v,
        None => {
            return None;
        },
    };
    let nums = match parse_each_i32(&split_whitespace_chars(&trim_chars(&rest)), true) {
        Some(v) => v,
        None => {
            return None;
        },
    };
    let input = int_list_value(nums);
    let y = match parse_i32_chars(&trim_chars(&chars_of(test.expected_output.as_str()))) {
        Some(v) => v,
        None => {
            return None;
        },
    };
    let result = int_value(y);
    let r = make_test(function_name, test, vec![input], FunctionType::Int(ContainerVariantType::Single), result);
    assert(r.input.arguments@[0] == input);
    Some(Ok(r))
}

/// Whether `vec_i32` reads the test: whether its text has the shape that
/// `vec_i32` expects.
pub fn vec_i32_accepts(test: &OldTest) -> (r: bool)
    ensures
        r == !(spec_vec_i32(*test) is Panics),
{
    vec_i32_or_none("", test).is_some()
}

pub fn vec_i32(function_name: &str, test: OldTest) -> (r: Result<Test, ConvertError>)
    requires
        !(spec_vec_i32(test) is Panics),
    ensures
        converted(r, function_name@, test, spec_vec_i32(test)),
{
    match vec_i32_or_none(function_name, &test) {
        Some(r) => r,
        None => Err(ConvertError::InvalidNumber),
    }
}

/// The words of the input, a list of strings, in; an `int` out.
pub open spec fn spec_poker_hand(t: OldTest) -> Conversion {
    match parse_i32(trim(t.expected_output@)) {
        Some(y) => Conversion::Converts(
            seq![strs(split_whitespace(trim(t.input@)).map(|i: int, w: Seq<char>| trim(w)))],
            FunctionType::Int(ContainerVariantType::Single),
            int1(y),
        ),
        None => Conversion::Panics,
    }
}

fn poker_hand_or_none(function_name: &str, test: &OldTest) -> (r: Option<Result<Test, ConvertError>>)
    ensures
        match r {
            Some(x) => converted(x, function_name@, *test, spec_poker_hand(*test)),
            None => spec_poker_hand(*test) is Panics,
        },
{
    let words = trim_each(&split_whitespace_chars(&trim_chars(&chars_of(test.input.as_str()))));
    let input = strs_value(&words);
    let y = match parse_i32_chars(&trim_chars(&chars_of(test.expected_output.as_str()))) {
        Some(v) => v,
        None => {
            return None;
        },
    };
    let result = int_value(y);
    let r = make_test(function_name, test, vec![input], FunctionType::Int(ContainerVariantType::Single), result);
    assert(r.input.arguments@[0] == input);
    Some(Ok(r))
}

/// Whether `poker_hand` reads the test: whether its text has the shape that
/// `poker_hand` expects.
pub fn poker_hand_accepts(test: &OldTest) -> (r: bool)
    ensures
        r == !(spec_poker_hand(*test) is Panics),
{
    poker_hand_or_none("", test).is_some()
}

pub fn poker_hand(function_name: &str, test: OldTest) -> (r: Result<Test, ConvertError>)
    requires
        !(spec_poker_hand(test) is Panics),
    ensures
        converted(r, function_name@, test, spec_poker_hand(test)),
{
    match poker_hand_or_none(function_name, &test) {
        Some(r) => r,
        None => Err(ConvertError::InvalidNumber),
    }
}

/// Three `int`s on the first line and a list of `int`s after it in; an `int`
/// out.
pub open spec fn spec_meeting(t: OldTest) -> Conversion {
    match split_once(t.input@, '\n') {
        None => Conversion::Panics,
        Some((line1, rest)) => match parse_all_i32(split_whitespace(trim(line1)), true) {
            None => Conversion::Fails,
            Some(e) => if e.len() < 3 {
                Conversion::Panics
            } else {
                match parse_all_i32(split_whitespace(trim(rest)), true) {
                    None => Conversion::Fails,
                    Some(a) => match parse_i32(trim(t.expected_output@)) {
                        Some(y) => Conversion::Converts(
                            seq![int1(e[0]), int1(e[1]), int1(e[2]), ints(a)],
                            FunctionType::Int(ContainerVariantType::Single),
                            int1(y),
                        ),
                        None => Conversion::Panics,
                    },
                }
            },
        },
    }
}

fn meeting_or_none(function_name: &str, test: &OldTest) -> (r: Option<Result<Test, ConvertError>>)
    ensures
        match r {
            Some(x) => converted(x, function_name@, *test, spec_meeting(*test)),
            None => spec_meeting(*test) is Panics,
        },
{
    let (line1, rest) = match split_once_chars(&chars_of(test.input.as_str()), '\n') {
        Some(v) => v,
        None => {
            return None;
        },
    };
    let elements = match parse_each_i32(&split_whitespace_chars(&trim_chars(&line1)), true) {
        Some(e) => e,
        None => {
            return Some(Err(ConvertError::InvalidNumber));
        },
    };
    if elements.len() < 3 {
        return None;
    }
    let n = int_value(elements[0]);
    let k = int_value(elements[1]);
    let t = int_value(elements[2]);
    let a = match parse_each_i32(&split_whitespace_chars(&trim_chars(&rest)), true) {
        Some(a) => a,
        None => {
            return Some(Err(ConvertError::InvalidNumber));
        },
    };
    let list = int_list_value(a);
    let y = match parse_i32_chars(&trim_chars(&chars_of(test.expected_output.as_str()))) {
        Some(v) => v,
        None => {
            return None;
        },
    };
    let result = int_value(y);
    let r = make_test(function_name, test, vec![n, k, t, list], FunctionType::Int(ContainerVariantType::Single), result);
    assert(r.input.arguments@[0] == n && r.input.arguments@[1] == k && r.input.arguments@[2] == t
        && r.input.arguments@[3] == list);
    Some(Ok(r))
}

/// Whether `meeting` reads the test: whether its text has the shape that
/// `meeting` expects.
pub fn meeting_accepts(test: &OldTest) -> (r: bool)
    ensures
        r == !(spec_meeting(*test) is Panics),
{
    meeting_or_none("", test).is_some()
}

pub fn meeting(function_name: &str, test: OldTest) -> (r: Result<Test, ConvertError>)
    requires
        !(spec_meeting(test) is Panics),
    ensures
        converted(r, function_name@, test, spec_meeting(test)),
{
    match meeting_or_none(function_name, &test) {
        Some(r) => r,
        None => Err(ConvertError::InvalidNumber),
    }
}

/* ---------------------------------------------------------------------- */
/* Grids                                                                  */
/* ---------------------------------------------------------------------- */

/// After a first line, the lines of a grid of characters in; the lines of a
/// grid of characters out.
pub open spec fn spec_replicate(t: OldTest) -> Conversion {
    match split_once(t.input@, '\n') {
        Some((_line1, grid)) => Conversion::Converts(
            seq![char_grid(lines_of(grid))],
            FunctionType::Char(ContainerVariantType::Grid),
            char_grid(lines_of(t.expected_output@)),
        ),
        None => Conversion::Panics,
    }
}

fn replicate_or_none(function_name: &str, test: &OldTest) -> (r: Option<Result<Test, ConvertError>>)
    ensures
        match r {
            Some(x) => converted(x, function_name@, *test, spec_replicate(*test)),
            None => spec_replicate(*test) is Panics,
        },
{
    let (_line1, grid) = match split_once_chars(&chars_of(test.input.as_str()), '\n') {
        Some(v) => v,
        None => {
            return None;
        },
    };
    let input = char_grid_value(lines_chars(&grid));
    let result = char_grid_value(lines_chars(&chars_of(test.expected_output.as_str())));
    let r = make_test(function_name, test, vec![input], FunctionType::Char(ContainerVariantType::Grid), result);
    assert(r.input.arguments@[0] == input);
    Some(Ok(r))
}

/// Whether `replicate` reads the test: whether its text has the shape that
/// `replicate` expects.
pub fn replicate_accepts(test: &OldTest) -> (r: bool)
    ensures
        r == !(spec_replicate(*test) is Panics),
{
    replicate_or_none("", test).is_some()
}

pub fn replicate(function_name: &str, test: OldTest) -> (r: Result<Test, ConvertError>)
    requires
        !(spec_replicate(test) is Panics),
    ensures
        converted(r, function_name@, test, spec_replicate(test)),
{
    match replicate_or_none(function_name, &test) {
        Some(r) => r,
        None => Err(ConvertError::InvalidNumber),
    }
}

/// `k` (after a space on the first line) and the trimmed lines after it in;
/// an `int` out.
pub open spec fn spec_longest_common_subsequence(t: OldTest) -> Conversion {
    match split_once(t.input@, '\n') {
        None => Conversion::Panics,
        Some((line1, rest)) => match split_once(line1, ' ') {
            None => Conversion::Panics,
            Some((_n, k)) => match parse_i32(trim(k)) {
                None => Conversion::Fails,
                Some(k) => match parse_i32(trim(t.expected_output@)) {
                    Some(y) => Conversion::Converts(
                        seq![int1(k), strs(lines_of(trim(rest)).map(|i: int, l: Seq<char>| trim(l)))],
                        FunctionType::Int(ContainerVariantType::Single),
                        int1(y),
                    ),
                    None => Conversion::Panics,
                },
            },
        },
    }
}

fn longest_common_subsequence_or_none(function_name: &str, test: &OldTest) -> (r: Option<Result<Test, ConvertError>>)
    ensures
        match r {
            Some(x) => converted(x, function_name@, *test, spec_longest_common_subsequence(*test)),
            None => spec_longest_common_subsequence(*test) is Panics,
        },
{
    let (line1, rest) = match split_once_chars(&chars_of(test.input.as_str()), '\n') {
        Some(v) => v,
        None => {
            return None;
        },
    };
    let (_n, k) = match split_once_chars(&line1, ' ') {
        Some(v) => v,
        None => {
            return None;
        },
    };
    let k = match parse_i32_chars(&trim_chars(&k)) {
        Some(k) => k,
        None => {
            return Some(Err(ConvertError::InvalidNumber));
        },
    };
    let first = int_value(k);
    let lines = trim_each(&lines_chars(&trim_chars(&rest)));
    let second = strs_value(&lines);
    let y = match parse_i32_chars(&trim_chars(&chars_of(test.expected_output.as_str()))) {
        Some(v) => v,
        None => {
            return None;
        },
    };
    let result = int_value(y);
    let r = make_test(function_name, test, vec![first, second], FunctionType::Int(ContainerVariantType::Single), result);
    assert(r.input.arguments@[0] == first && r.input.arguments@[1] == second);
    Some(Ok(r))
}

/// Whether `longest_common_subsequence` reads the test: whether its text has the shape that
/// `longest_common_subsequence` expects.
pub fn longest_common_subsequence_accepts(test: &OldTest) -> (r: bool)
    ensures
        r == !(spec_longest_common_subsequence(*test) is Panics),
{
    longest_common_subsequence_or_none("", test).is_some()
}

pub fn longest_common_subsequence(function_name: &str, test: OldTest) -> (r: Result<Test, ConvertError>)
    requires
        !(spec_longest_common_subsequence(test) is Panics),
    ensures
        converted(r, function_name@, test, spec_longest_common_subsequence(test)),
{
    match longest_common_subsequence_or_none(function_name, &test) {
        Some(r) => r,
        None => Err(ConvertError::InvalidNumber),
    }
}

/// The numbers of each line, the words of the line read as `i64`s.
pub open spec fn parse_rows_i64(ls: Seq<Seq<char>>) -> Option<Seq<Seq<i64>>>
    decreases ls.len(),
{
    if ls.len() == 0 {
        Some(Seq::empty())
    } else {
        match (parse_rows_i64(ls.drop_last()), parse_all_i64(split_whitespace(ls.last()), false)) {
            (Some(p), Some(row)) => Some(p.push(row)),
            _ => None,
        }
    }
}

/// The numbers of each line, the words of the line read as `i32`s.
pub open spec fn parse_rows_i32(ls: Seq<Seq<char>>) -> Option<Seq<Seq<i32>>>
    decreases ls.len(),
{
    if ls.len() == 0 {
        Some(Seq::empty())
    } else {
        match (parse_rows_i32(ls.drop_last()), parse_all_i32(split_whitespace(ls.last()), false)) {
            (Some(p), Some(row)) => Some(p.push(row)),
            _ => None,
        }
    }
}

fn rows_i64(ls: &Vec<Vec<char>>) -> (r: Option<Vec<Vec<i64>>>)
    ensures
        match r {
            Some(v) => parse_rows_i64(views(ls@)) == Some(v@.map(|i: int, row: Vec<i64>| row@)),
            None => parse_rows_i64(views(ls@)) is None,
        },
{
    let ghost all = views(ls@);
    let mut out: Vec<Vec<i64>> = Vec::new();
    let mut i: usize = 0;
    assert(all.take(0) =~= Seq::<Seq<char>>::empty());
    while i < ls.len()
        invariant
            i <= ls@.len(),
            all == views(ls@),
            out@.len() == i,
            parse_rows_i64(all.take(i as int)) == Some(out@.map(|i: int, row: Vec<i64>| row@)),
        decreases ls@.len() - i,
    {
        assert(all.take(i + 1).drop_last() =~= all.take(i as int));
        assert(all.take(i + 1).last() == ls@[i as int]@);
        let row = match parse_each_i64(&split_whitespace_chars(&ls[i]), false) {
            Some(row) => row,
            None => {
                proof {
                    if parse_rows_i64(all) is Some {
                        lemma_rows_i64_prefix(all, (i + 1) as int);
                    }
                }
                return None;
            },
        };
        let ghost before = out@;
        out.push(row);
        assert(out@.map(|i: int, row: Vec<i64>| row@) =~= before.map(|i: int, row: Vec<i64>| row@).push(out@[i as int]@));
        i = i + 1;
    }
    assert(all.take(i as int) =~= all);
    Some(out)
}

fn rows_i32(ls: &Vec<Vec<char>>) -> (r: Option<Vec<Vec<i32>>>)
    ensures
        match r {
            Some(v) => parse_rows_i32(views(ls@)) == Some(v@.map(|i: int, row: Vec<i32>| row@)),
            None => parse_rows_i32(views(ls@)) is None,
        },
{
    let ghost all = views(ls@);
    let mut out: Vec<Vec<i32>> = Vec::new();
    let mut i: usize = 0;
    assert(all.take(0) =~= Seq::<Seq<char>>::empty());
    while i < ls.len()
        invariant
            i <= ls@.len(),
            all == views(ls@),
            out@.len() == i,
            parse_rows_i32(all.take(i as int)) == Some(out@.map(|i: int, row: Vec<i32>| row@)),
        decreases ls@.len() - i,
    {
        assert(all.take(i + 1).drop_last() =~= all.take(i as int));
        assert(all.take(i + 1).last() == ls@[i as int]@);
        let row = match parse_each_i32(&split_whitespace_chars(&ls[i]), false) {
            Some(row) => row,
            None => {
                proof {
                    if parse_rows_i32(all) is Some {
                        lemma_rows_i32_prefix(all, (i + 1) as int);
                    }
                }
                return None;
            },
        };
        let ghost before = out@;
        out.push(row);
        assert(out@.map(|i: int, row: Vec<i32>| row@) =~= before.map(|i: int, row: Vec<i32>| row@).push(out@[i as int]@));
        i = i + 1;
    }
    assert(all.take(i as int) =~= all);
    Some(out)
}

/// When the whole reads, so does every prefix.
proof fn lemma_rows_i64_prefix(ls: Seq<Seq<char>>, k: int)
    requires
        0 <= k <= ls.len(),
        parse_rows_i64(ls) is Some,
    ensures
        parse_rows_i64(ls.take(k)) is Some,
    decreases ls.len() - k,
{
    if k < ls.len() {
        lemma_rows_i64_prefix(ls, k + 1);
        assert(ls.take(k + 1).drop_last() =~= ls.take(k));
    } else {
        assert(ls.take(k) =~= ls);
    }
}

proof fn lemma_rows_i32_prefix(ls: Seq<Seq<char>>, k: int)
    requires
        0 <= k <= ls.len(),
        parse_rows_i32(ls) is Some,
    ensures
        parse_rows_i32(ls.take(k)) is Some,
    decreases ls.len() - k,
{
    if k < ls.len() {
        lemma_rows_i32_prefix(ls, k + 1);
        assert(ls.take(k + 1).drop_last() =~= ls.take(k));
    } else {
        assert(ls.take(k) =~= ls);
    }
}

/// After a first line, a grid of `long`s, one row per line, in; a `long` out.
pub open spec fn spec_mission_improbable(t: OldTest) -> Conversion {
    match split_once(t.input@, '\n') {
        Some((_line1, grid)) => match (parse_rows_i64(lines_of(grid)), parse_i64(trim(t.expected_output@))) {
            (Some(rows), Some(y)) => Conversion::Converts(
                seq![long_grid(rows)],
                FunctionType::Long(ContainerVariantType::Single),
                long1(y),
            ),
            _ => Conversion::Panics,
        },
        None => Conversion::Panics,
    }
}

fn mission_improbable_or_none(function_name: &str, test: &OldTest) -> (r: Option<Result<Test, ConvertError>>)
    ensures
        match r {
            Some(x) => converted(x, function_name@, *test, spec_mission_improbable(*test)),
            None => spec_mission_improbable(*test) is Panics,
        },
{
    let (_line1, grid) = match split_once_chars(&chars_of(test.input.as_str()), '\n') {
        Some(v) => v,
        None => {
            return None;
        },
    };
    let rows = match rows_i64(&lines_chars(&grid)) {
        Some(rows) => rows,
        None => {
            return None;
        },
    };
    let input = long_grid_value(rows);
    let y = match parse_i64_chars(&trim_chars(&chars_of(test.expected_output.as_str()))) {
        Some(v) => v,
        None => {
            return None;
        },
    };
    let result = long_value(y);
    let r = make_test(function_name, test, vec![input], FunctionType::Long(ContainerVariantType::Single), result);
    assert(r.input.arguments@[0] == input);
    Some(Ok(r))
}

/// Whether `mission_improbable` reads the test: whether its text has the shape that
/// `mission_improbable` expects.
pub fn mission_improbable_accepts(test: &OldTest) -> (r: bool)
    ensures
        r == !(spec_mission_improbable(*test) is Panics),
{
    mission_improbable_or_none("", test).is_some()
}

pub fn mission_improbable(function_name: &str, test: OldTest) -> (r: Result<Test, ConvertError>)
    requires
        !(spec_mission_improbable(test) is Panics),
    ensures
        converted(r, function_name@, test, spec_mission_improbable(test)),
{
    match mission_improbable_or_none(function_name, &test) {
        Some(r) => r,
        None => Err(ConvertError::InvalidNumber),
    }
}

/// After a first line, a grid of `int`s, one row per line, in; a `long` out.
pub open spec fn spec_rectangles(t: OldTest) -> Conversion {
    match split_once(t.input@, '\n') {
        Some((_line1, grid)) => match (parse_rows_i32(lines_of(grid)), parse_i64(trim(t.expected_output@))) {
            (Some(rows), Some(y)) => Conversion::Converts(
                seq![int_grid(ContainerVariantType::Grid, rows)],
                FunctionType::Long(ContainerVariantType::Single),
                long1(y),
            ),
            _ => Conversion::Panics,
        },
        None => Conversion::Panics,
    }
}

fn rectangles_or_none(function_name: &str, test: &OldTest) -> (r: Option<Result<Test, ConvertError>>)
    ensures
        match r {
            Some(x) => converted(x, function_name@, *test, spec_rectangles(*test)),
            None => spec_rectangles(*test) is Panics,
        },
{
    let (_line1, grid) = match split_once_chars(&chars_of(test.input.as_str()), '\n') {
        Some(v) => v,
        None => {
            return None;
        },
    };
    let rows = match rows_i32(&lines_chars(&grid)) {
        Some(rows) => rows,
        None => {
            return None;
        },
    };
    let input = int_grid_value(ContainerVariantType::Grid, rows);
    let y = match parse_i64_chars(&trim_chars(&chars_of(test.expected_output.as_str()))) {
        Some(v) => v,
        None => {
            return None;
        },
    };
    let result = long_value(y);
    let r = make_test(function_name, test, vec![input], FunctionType::Long(ContainerVariantType::Single), result);
    assert(r.input.arguments@[0] == input);
    Some(Ok(r))
}

/// Whether `rectangles` reads the test: whether its text has the shape that
/// `rectangles` expects.
pub fn rectangles_accepts(test: &OldTest) -> (r: bool)
    ensures
        r == !(spec_rectangles(*test) is Panics),
{
    rectangles_or_none("", test).is_some()
}

pub fn rectangles(function_name: &str, test: OldTest) -> (r: Result<Test, ConvertError>)
    requires
        !(spec_rectangles(test) is Panics),
    ensures
        converted(r, function_name@, test, spec_rectangles(test)),
{
    match rectangles_or_none(function_name, &test) {
        Some(r) => r,
        None => Err(ConvertError::InvalidNumber),
    }
}

/* ---------------------------------------------------------------------- */
/* Graphs                                                                 */
/* ---------------------------------------------------------------------- */

/// How an edge line `u v` names its nodes.
#[derive(Clone, Copy, Debug, PartialEq, Eq, Structural)]
pub enum EdgeFormat {
    /// Counted from 1, each number trimmed; a number that cannot be read is a
    /// malformed line.
    OneBasedTrimmed,
    /// Counted from 1; a number that cannot be read fails the conversion.
    OneBased,
    /// Counted from 0; a number that cannot be read fails the conversion.
    ZeroBased,
}

/// What an edge line gives.
pub enum LineRead {
    Panics,
    Fails,
    /// The two nodes, counted from 0.
    Edge(int, int),
}

pub open spec fn read_edge(f: EdgeFormat, line: Seq<char>) -> LineRead {
    match split_once(line, ' ') {
        None => LineRead::Panics,
        Some((a, b)) => match f {
            EdgeFormat::OneBasedTrimmed => match (parse_i32(trim(a)), parse_i32(trim(b))) {
                (Some(u), Some(v)) => LineRead::Edge(u - 1, v - 1),
                _ => LineRead::Panics,
            },
            EdgeFormat::OneBased => match (parse_i32(a), parse_i32(b)) {
                (Some(u), Some(v)) => LineRead::Edge(u - 1, v - 1),
                _ => LineRead::Fails,
            },
            EdgeFormat::ZeroBased => match (parse_i32(a), parse_i32(b)) {
                (Some(u), Some(v)) => LineRead::Edge(u as int, v as int),
                _ => LineRead::Fails,
            },
        },
    }
}

/// The adjacency lists after the edge `u v`: `v` added to `u`'s list, then
/// `u` to `v`'s.
pub open spec fn add_edge(g: Seq<Seq<i32>>, u: int, v: int) -> Seq<Seq<i32>> {
    let g1 = g.update(u, g[u].push(v as i32));
    g1.update(v, g1[v].push(u as i32))
}

/// What building a graph gives.
pub enum Graph {
    Panics,
    Fails,
    Built(Seq<Seq<i32>>),
}

/// The adjacency lists of `n` nodes after the edges of the lines, in order.
pub open spec fn build_graph(n: int, ls: Seq<Seq<char>>, f: EdgeFormat) -> Graph
    decreases ls.len(),
{
    if ls.len() == 0 {
        if n < 0 {
            Graph::Panics
        } else {
            Graph::Built(Seq::new(n as nat, |i: int| Seq::<i32>::empty()))
        }
    } else {
        match build_graph(n, ls.drop_last(), f) {
            Graph::Built(g) => match read_edge(f, ls.last()) {
                LineRead::Panics => Graph::Panics,
                LineRead::Fails => Graph::Fails,
                LineRead::Edge(u, v) => if 0 <= u < n && 0 <= v < n {
                    Graph::Built(add_edge(g, u, v))
                } else {
                    Graph::Panics
                },
            },
            other => other,
        }
    }
}

proof fn lemma_build_prefix(n: int, ls: Seq<Seq<char>>, f: EdgeFormat, k: int)
    requires
        0 <= k <= ls.len(),
    ensures
        build_graph(n, ls.take(k), f) is Panics ==> build_graph(n, ls, f) is Panics,
        build_graph(n, ls.take(k), f) is Fails ==> build_graph(n, ls, f) is Fails,
    decreases ls.len() - k,
{
    if k < ls.len() {
        assert(ls.take(k + 1).drop_last() =~= ls.take(k));
        lemma_build_prefix(n, ls, f, k + 1);
    } else {
        assert(ls.take(k) =~= ls);
    }
}

/// The nodes of an edge line, or `None` where reading it fails; `Err` where
/// the line is malformed.
fn edge_of(line: &Vec<char>, f: EdgeFormat) -> (r: Result<Option<(i64, i64)>, ()>)
    ensures
        match r {
            Err(()) => read_edge(f, line@) is Panics,
            Ok(None) => read_edge(f, line@) is Fails,
            Ok(Some((u, v))) => read_edge(f, line@) == LineRead::Edge(u as int, v as int),
        },
{
    let (a, b) = match split_once_chars(line, ' ') {
        Some(p) => p,
        None => {
            return Err(());
        },
    };
    match f {
        EdgeFormat::OneBasedTrimmed => match (parse_i32_chars(&trim_chars(&a)), parse_i32_chars(&trim_chars(&b))) {
            (Some(u), Some(v)) => Ok(Some((u as i64 - 1, v as i64 - 1))),
            _ => Err(()),
        },
        EdgeFormat::OneBased => match (parse_i32_chars(&a), parse_i32_chars(&b)) {
            (Some(u), Some(v)) => Ok(Some((u as i64 - 1, v as i64 - 1))),
            _ => Ok(None),
        },
        EdgeFormat::ZeroBased => match (parse_i32_chars(&a), parse_i32_chars(&b)) {
            (Some(u), Some(v)) => Ok(Some((u as i64, v as i64))),
            _ => Ok(None),
        },
    }
}

pub open spec fn rows_of(g: Seq<Vec<i32>>) -> Seq<Seq<i32>> {
    g.map(|i: int, row: Vec<i32>| row@)
}

/// The adjacency lists of `n` nodes with the edges of the lines.
fn graph_of(n: i32, lines: &Vec<Vec<char>>, f: EdgeFormat) -> (r: Option<Result<Vec<Vec<i32>>, ConvertError>>)
    ensures
        match build_graph(n as int, views(lines@), f) {
            Graph::Fails => r == Some(Err::<Vec<Vec<i32>>, ConvertError>(ConvertError::InvalidNumber)),
            Graph::Built(g) => r matches Some(Ok(v)) && rows_of(v@) == g,
            Graph::Panics => r is None,
        },
{
    let ghost all = views(lines@);
    proof {
        lemma_build_prefix(n as int, all, f, 0);
        assert(all.take(0) =~= Seq::<Seq<char>>::empty());
    }
    if n < 0 {
        return None;
    }
    let mut edges: Vec<Vec<i32>> = Vec::new();
    let mut j: i32 = 0;
    while j < n
        invariant
            0 <= j <= n,
            edges@.len() == j,
            forall|k: int| 0 <= k < j ==> (#[trigger] edges@[k])@.len() == 0,
        decreases n - j,
    {
        edges.push(Vec::new());
        j = j + 1;
    }
    assert forall|k: int| 0 <= k < n implies #[trigger] rows_of(edges@)[k] == Seq::<i32>::empty() by {
        assert(edges@[k]@ =~= Seq::<i32>::empty());
    }
    assert(rows_of(edges@) =~= Seq::new(n as nat, |i: int| Seq::<i32>::empty()));
    let mut i: usize = 0;
    while i < lines.len()
        invariant
            i <= lines@.len(),
            all == views(lines@),
            build_graph(n as int, all.take(i as int), f) == Graph::Built(rows_of(edges@)),
            edges@.len() == n,
        decreases lines@.len() - i,
    {
        assert(all.take(i + 1).drop_last() =~= all.take(i as int));
        assert(all.take(i + 1).last() == lines@[i as int]@);
        proof {
            lemma_build_prefix(n as int, all, f, i + 1);
        }
        match edge_of(&lines[i], f) {
            Err(()) => {
                return None;
            },
            Ok(None) => {
                return Some(Err(ConvertError::InvalidNumber));
            },
            Ok(Some((u, v))) => {
                if !(0 <= u && u < n as i64 && 0 <= v && v < n as i64) {
                    return None;
                }
                let ghost g = rows_of(edges@);
                let uu = u as usize;
                let vv = v as usize;
                edges[uu].push(v as i32);
                assert(rows_of(edges@) =~= g.update(u as int, g[u as int].push(v as i32)));
                let ghost g1 = rows_of(edges@);
                edges[vv].push(u as i32);
                assert(rows_of(edges@) =~= g1.update(v as int, g1[v as int].push(u as i32)));
            },
        }
        i = i + 1;
    }
    assert(all.take(i as int) =~= all);
    Some(Ok(edges))
}

fn graph_value(g: Vec<Vec<i32>>) -> (v: FunctionValue)
    ensures
        describes(v, int_grid(ContainerVariantType::Graph, rows_of(g@))),
{
    int_grid_value(ContainerVariantType::Graph, g)
}

/// `n` and `k` on the first line, then edges counted from 1: `k` (a `long`),
/// `n` and the graph in; an `int` out.
pub open spec fn spec_kth_subtree(t: OldTest) -> Conversion {
    match split_once(t.input@, '\n') {
        None => Conversion::Panics,
        Some((first, rest)) => match split_once(first, ' ') {
            None => Conversion::Panics,
            Some((n, k)) => match (parse_i32(trim(n)), parse_i64(trim(k))) {
                (Some(n), Some(k)) => match build_graph(n as int, lines_of(trim(rest)), EdgeFormat::OneBasedTrimmed) {
                    Graph::Built(g) => match parse_i32(trim(t.expected_output@)) {
                        Some(y) => Conversion::Converts(
                            seq![long1(k), int1(n), int_grid(ContainerVariantType::Graph, g)],
                            FunctionType::Int(ContainerVariantType::Single),
                            int1(y),
                        ),
                        None => Conversion::Panics,
                    },
                    _ => Conversion::Panics,
                },
                _ => Conversion::Panics,
            },
        },
    }
}

fn kth_subtree_or_none(function_name: &str, test: &OldTest) -> (r: Option<Result<Test, ConvertError>>)
    ensures
        match r {
            Some(x) => converted(x, function_name@, *test, spec_kth_subtree(*test)),
            None => spec_kth_subtree(*test) is Panics,
        },
{
    let (first, rest) = match split_once_chars(&chars_of(test.input.as_str()), '\n') {
        Some(v) => v,
        None => {
            return None;
        },
    };
    let (n, k) = match split_once_chars(&first, ' ') {
        Some(v) => v,
        None => {
            return None;
        },
    };
    let n = match parse_i32_chars(&trim_chars(&n)) {
        Some(v) => v,
        None => {
            return None;
        },
    };
    let k = match parse_i64_chars(&trim_chars(&k)) {
        Some(v) => v,
        None => {
            return None;
        },
    };
    let lines = lines_chars(&trim_chars(&rest));
    let edges = match graph_of(n, &lines, EdgeFormat::OneBasedTrimmed) {
        Some(Ok(e)) => e,
        Some(Err(_)) => {
            return None;
        },
        None => {
            return None;
        },
    };
    let a0 = long_value(k);
    let a1 = int_value(n);
    let a2 = graph_value(edges);
    let y = match parse_i32_chars(&trim_chars(&chars_of(test.expected_output.as_str()))) {
        Some(v) => v,
        None => {
            return None;
        },
    };
    let result = int_value(y);
    let r = make_test(function_name, test, vec![a0, a1, a2], FunctionType::Int(ContainerVariantType::Single), result);
    assert(r.input.arguments@[0] == a0 && r.input.arguments@[1] == a1 && r.input.arguments@[2] == a2);
    Some(Ok(r))
}

/// Whether `kth_subtree` reads the test: whether its text has the shape that
/// `kth_subtree` expects.
pub fn kth_subtree_accepts(test: &OldTest) -> (r: bool)
    ensures
        r == !(spec_kth_subtree(*test) is Panics),
{
    kth_subtree_or_none("", test).is_some()
}

pub fn kth_subtree(function_name: &str, test: OldTest) -> (r: Result<Test, ConvertError>)
    requires
        !(spec_kth_subtree(test) is Panics),
    ensures
        converted(r, function_name@, test, spec_kth_subtree(test)),
{
    match kth_subtree_or_none(function_name, &test) {
        Some(r) => r,
        None => Err(ConvertError::InvalidNumber),
    }
}

/// `n` (before a space on the first line), then edges counted from 1: `n`
/// and the graph in; an `int` out.
pub open spec fn spec_coloring_contention(t: OldTest) -> Conversion {
    match split_once(t.input@, '\n') {
        None => Conversion::Panics,
        Some((first, rest)) => match split_once(first, ' ') {
            None => Conversion::Panics,
            Some((n, _m)) => match parse_i32(trim(n)) {
                Some(n) => match build_graph(n as int, lines_of(trim(rest)), EdgeFormat::OneBasedTrimmed) {
                    Graph::Built(g) => match parse_i32(trim(t.expected_output@)) {
                        Some(y) => Conversion::Converts(
                            seq![int1(n), int_grid(ContainerVariantType::Graph, g)],
                            FunctionType::Int(ContainerVariantType::Single),
                            int1(y),
                        ),
                        None => Conversion::Panics,
                    },
                    _ => Conversion::Panics,
                },
                None => Conversion::Panics,
            },
        },
    }
}

fn coloring_contention_or_none(function_name: &str, test: &OldTest) -> (r: Option<Result<Test, ConvertError>>)
    ensures
        match r {
            Some(x) => converted(x, function_name@, *test, spec_coloring_contention(*test)),
            None => spec_coloring_contention(*test) is Panics,
        },
{
    let (first, rest) = match split_once_chars(&chars_of(test.input.as_str()), '\n') {
        Some(v) => v,
        None => {
            return None;
        },
    };
    let (n, _m) = match split_once_chars(&first, ' ') {
        Some(v) => v,
        None => {
            return None;
        },
    };
    let n = match parse_i32_chars(&trim_chars(&n)) {
        Some(v) => v,
        None => {
            return None;
        },
    };
    let lines = lines_chars(&trim_chars(&rest));
    let edges = match graph_of(n, &lines, EdgeFormat::OneBasedTrimmed) {
        Some(Ok(e)) => e,
        Some(Err(_)) => {
            return None;
        },
        None => {
            return None;
        },
    };
    let a0 = int_value(n);
    let a1 = graph_value(edges);
    let y = match parse_i32_chars(&trim_chars(&chars_of(test.expected_output.as_str()))) {
        Some(v) => v,
        None => {
            return None;
        },
    };
    let result = int_value(y);
    let r = make_test(function_name, test, vec![a0, a1], FunctionType::Int(ContainerVariantType::Single), result);
    assert(r.input.arguments@[0] == a0 && r.input.arguments@[1] == a1);
    Some(Ok(r))
}

/// Whether `coloring_contention` reads the test: whether its text has the shape that
/// `coloring_contention` expects.
pub fn coloring_contention_accepts(test: &OldTest) -> (r: bool)
    ensures
        r == !(spec_coloring_contention(*test) is Panics),
{
    coloring_contention_or_none("", test).is_some()
}

pub fn coloring_contention(function_name: &str, test: OldTest) -> (r: Result<Test, ConvertError>)
    requires
        !(spec_coloring_contention(test) is Panics),
    ensures
        converted(r, function_name@, test, spec_coloring_contention(test)),
{
    match coloring_contention_or_none(function_name, &test) {
        Some(r) => r,
        None => Err(ConvertError::InvalidNumber),
    }
}

/// The number of nodes, then edges counted from 1: the graph in; an `int`
/// out.
pub open spec fn spec_tree_vertex_cover(t: OldTest) -> Conversion {
    match split_once(t.input@, '\n') {
        None => Conversion::Panics,
        Some((first, rest)) => match parse_i32(trim(first)) {
            None => Conversion::Fails,
            Some(n) => match build_graph(n as int, lines_of(trim(rest)), EdgeFormat::OneBased) {
                Graph::Panics => Conversion::Panics,
                Graph::Fails => Conversion::Fails,
                Graph::Built(g) => match parse_i32(trim(t.expected_output@)) {
                    Some(y) => Conversion::Converts(
                        seq![int_grid(ContainerVariantType::Graph, g)],
                        FunctionType::Int(ContainerVariantType::Single),
                        int1(y),
                    ),
                    None => Conversion::Panics,
                },
            },
        },
    }
}

fn tree_vertex_cover_or_none(function_name: &str, test: &OldTest) -> (r: Option<Result<Test, ConvertError>>)
    ensures
        match r {
            Some(x) => converted(x, function_name@, *test, spec_tree_vertex_cover(*test)),
            None => spec_tree_vertex_cover(*test) is Panics,
        },
{
    let (first, rest) = match split_once_chars(&chars_of(test.input.as_str()), '\n') {
        Some(v) => v,
        None => {
            return None;
        },
    };
    let n = match parse_i32_chars(&trim_chars(&first)) {
        Some(n) => n,
        None => {
            return Some(Err(ConvertError::InvalidNumber));
        },
    };
    let lines = lines_chars(&trim_chars(&rest));
    let edges = match graph_of(n, &lines, EdgeFormat::OneBased) {
        Some(Ok(e)) => e,
        Some(Err(e)) => {
            return Some(Err(e));
        },
        None => {
            return None;
        },
    };
    let a0 = graph_value(edges);
    let y = match parse_i32_chars(&trim_chars(&chars_of(test.expected_output.as_str()))) {
        Some(v) => v,
        None => {
            return None;
        },
    };
    let result = int_value(y);
    let r = make_test(function_name, test, vec![a0], FunctionType::Int(ContainerVariantType::Single), result);
    assert(r.input.arguments@[0] == a0);
    Some(Ok(r))
}

/// Whether `tree_vertex_cover` reads the test: whether its text has the shape that
/// `tree_vertex_cover` expects.
pub fn tree_vertex_cover_accepts(test: &OldTest) -> (r: bool)
    ensures
        r == !(spec_tree_vertex_cover(*test) is Panics),
{
    tree_vertex_cover_or_none("", test).is_some()
}

pub fn tree_vertex_cover(function_name: &str, test: OldTest) -> (r: Result<Test, ConvertError>)
    requires
        !(spec_tree_vertex_cover(test) is Panics),
    ensures
        converted(r, function_name@, test, spec_tree_vertex_cover(test)),
{
    match tree_vertex_cover_or_none(function_name, &test) {
        Some(r) => r,
        None => Err(ConvertError::InvalidNumber),
    }
}

pub open spec fn min_len(n: int, len: nat) -> int {
    if n < len {
        n
    } else {
        len as int
    }
}

/// The number of nodes; a value per node, one per line; then edges counted
/// from 0: the graph and the values in; an `int` out.
pub open spec fn spec_maximum_nonadjacent_sum(t: OldTest) -> Conversion {
    match split_once(t.input@, '\n') {
        None => Conversion::Panics,
        Some((first, rest)) => match parse_i32(trim(first)) {
            None => Conversion::Fails,
            Some(n) => {
                let value_lines = if n >= 0 {
                    lines_of(rest).take(min_len(n as int, lines_of(rest).len()))
                } else {
                    lines_of(rest)
                };
                match parse_all_i32(value_lines, true) {
                    None => Conversion::Fails,
                    Some(values) => if n < 0 {
                        Conversion::Panics
                    } else {
                        let edge_lines = lines_of(trim(rest)).skip(min_len(n as int, lines_of(trim(rest)).len()));
                        match build_graph(n as int, edge_lines, EdgeFormat::ZeroBased) {
                            Graph::Panics => Conversion::Panics,
                            Graph::Fails => Conversion::Fails,
                            Graph::Built(g) => match parse_i32(trim(t.expected_output@)) {
                                Some(y) => Conversion::Converts(
                                    seq![int_grid(ContainerVariantType::Graph, g), ints(values)],
                                    FunctionType::Int(ContainerVariantType::Single),
                                    int1(y),
                                ),
                                None => Conversion::Panics,
                            },
                        }
                    },
                }
            },
        },
    }
}

fn lines_range(ls: &Vec<Vec<char>>, from: usize, to: usize) -> (r: Vec<Vec<char>>)
    requires
        from <= to <= ls@.len(),
    ensures
        views(r@) == views(ls@).subrange(from as int, to as int),
{
    let mut out: Vec<Vec<char>> = Vec::new();
    let mut i = from;
    while i < to
        invariant
            from <= i <= to,
            to <= ls@.len(),
            views(out@) == views(ls@).subrange(from as int, i as int),
        decreases to - i,
    {
        let line = copy_chars(&ls[i]);
        let ghost before = out@;
        out.push(line);
        assert(views(out@) =~= views(before).push(ls@[i as int]@));
        assert(views(out@) =~= views(ls@).subrange(from as int, i + 1));
        i = i + 1;
    }
    out
}

fn maximum_nonadjacent_sum_or_none(function_name: &str, test: &OldTest) -> (r: Option<Result<Test, ConvertError>>)
    ensures
        match r {
            Some(x) => converted(x, function_name@, *test, spec_maximum_nonadjacent_sum(*test)),
            None => spec_maximum_nonadjacent_sum(*test) is Panics,
        },
{
    let (first, rest) = match split_once_chars(&chars_of(test.input.as_str()), '\n') {
        Some(v) => v,
        None => {
            return None;
        },
    };
    let n = match parse_i32_chars(&trim_chars(&first)) {
        Some(n) => n,
        None => {
            return Some(Err(ConvertError::InvalidNumber));
        },
    };
    let all_lines = lines_chars(&rest);
    let count = if n >= 0 && (n as usize) < all_lines.len() { n as usize } else { all_lines.len() };
    let value_lines = lines_range(&all_lines, 0, count);
    proof {
        if n >= 0 {
            assert(views(all_lines@).subrange(0, count as int) =~= lines_of(rest@).take(min_len(n as int, lines_of(rest@).len())));
        } else {
            assert(views(all_lines@).subrange(0, count as int) =~= lines_of(rest@));
        }
    }
    let values = match parse_each_i32(&value_lines, true) {
        Some(v) => v,
        None => {
            return Some(Err(ConvertError::InvalidNumber));
        },
    };
    if n < 0 {
        return None;
    }
    let trimmed_lines = lines_chars(&trim_chars(&rest));
    let skip = if (n as usize) < trimmed_lines.len() { n as usize } else { trimmed_lines.len() };
    let edge_lines = lines_range(&trimmed_lines, skip, trimmed_lines.len());
    assert(views(edge_lines@) =~= lines_of(trim(rest@)).skip(min_len(n as int, lines_of(trim(rest@)).len())));
    let edges = match graph_of(n, &edge_lines, EdgeFormat::ZeroBased) {
        Some(Ok(e)) => e,
        Some(Err(e)) => {
            return Some(Err(e));
        },
        None => {
            return None;
        },
    };
    let a0 = graph_value(edges);
    let a1 = int_list_value(values);
    let y = match parse_i32_chars(&trim_chars(&chars_of(test.expected_output.as_str()))) {
        Some(v) => v,
        None => {
            return None;
        },
    };
    let result = int_value(y);
    let r = make_test(function_name, test, vec![a0, a1], FunctionType::Int(ContainerVariantType::Single), result);
    assert(r.input.arguments@[0] == a0 && r.input.arguments@[1] == a1);
    Some(Ok(r))
}

/// Whether `maximum_nonadjacent_sum` reads the test: whether its text has the shape that
/// `maximum_nonadjacent_sum` expects.
pub fn maximum_nonadjacent_sum_accepts(test: &OldTest) -> (r: bool)
    ensures
        r == !(spec_maximum_nonadjacent_sum(*test) is Panics),
{
    maximum_nonadjacent_sum_or_none("", test).is_some()
}

pub fn maximum_nonadjacent_sum(function_name: &str, test: OldTest) -> (r: Result<Test, ConvertError>)
    requires
        !(spec_maximum_nonadjacent_sum(test) is Panics),
    ensures
        converted(r, function_name@, test, spec_maximum_nonadjacent_sum(test)),
{
    match maximum_nonadjacent_sum_or_none(function_name, &test) {
        Some(r) => r,
        None => Err(ConvertError::InvalidNumber),
    }
}

/// What building a weighted graph gives.
pub enum WeightedGraph {
    Panics,
    Built(Seq<Seq<i32>>, Seq<i32>),
}

/// The adjacency lists of `n` nodes and the weights after the lines `u v w`
/// (nodes counted from 1), in order.
pub open spec fn build_weighted(n: int, ls: Seq<Seq<char>>) -> WeightedGraph
    decreases ls.len(),
{
    if ls.len() == 0 {
        if n < 0 {
            WeightedGraph::Panics
        } else {
            WeightedGraph::Built(Seq::new(n as nat, |i: int| Seq::<i32>::empty()), Seq::empty())
        }
    } else {
        match build_weighted(n, ls.drop_last()) {
            WeightedGraph::Built(g, w) => match parse_all_i32(split_on(ls.last(), ' '), true) {
                Some(e) => if e.len() >= 3 && 0 <= e[0] - 1 < n && 0 <= e[1] - 1 < n {
                    WeightedGraph::Built(add_edge(g, e[0] - 1, e[1] - 1), w.push(e[2]))
                } else {
                    WeightedGraph::Panics
                },
                None => WeightedGraph::Panics,
            },
            WeightedGraph::Panics => WeightedGraph::Panics,
        }
    }
}

proof fn lemma_weighted_prefix(n: int, ls: Seq<Seq<char>>, k: int)
    requires
        0 <= k <= ls.len(),
    ensures
        build_weighted(n, ls.take(k)) is Panics ==> build_weighted(n, ls) is Panics,
    decreases ls.len() - k,
{
    if k < ls.len() {
        assert(ls.take(k + 1).drop_last() =~= ls.take(k));
        lemma_weighted_prefix(n, ls, k + 1);
    } else {
        assert(ls.take(k) =~= ls);
    }
}

fn weighted_graph_of(n: i32, lines: &Vec<Vec<char>>) -> (r: Option<(Vec<Vec<i32>>, Vec<i32>)>)
    ensures
        match r {
            Some((e, w)) => build_weighted(n as int, views(lines@)) == WeightedGraph::Built(rows_of(e@), w@),
            None => build_weighted(n as int, views(lines@)) is Panics,
        },
{
    let ghost all = views(lines@);
    proof {
        lemma_weighted_prefix(n as int, all, 0);
        assert(all.take(0) =~= Seq::<Seq<char>>::empty());
    }
    if n < 0 {
        return None;
    }
    let mut edges: Vec<Vec<i32>> = Vec::new();
    let mut weights: Vec<i32> = Vec::new();
    let mut j: i32 = 0;
    while j < n
        invariant
            0 <= j <= n,
            edges@.len() == j,
            forall|k: int| 0 <= k < j ==> (#[trigger] edges@[k])@.len() == 0,
        decreases n - j,
    {
        edges.push(Vec::new());
        j = j + 1;
    }
    assert forall|k: int| 0 <= k < n implies #[trigger] rows_of(edges@)[k] == Seq::<i32>::empty() by {
        assert(edges@[k]@ =~= Seq::<i32>::empty());
    }
    assert(rows_of(edges@) =~= Seq::new(n as nat, |i: int| Seq::<i32>::empty()));
    let mut i: usize = 0;
    while i < lines.len()
        invariant
            i <= lines@.len(),
            all == views(lines@),
            build_weighted(n as int, all.take(i as int)) == WeightedGraph::Built(rows_of(edges@), weights@),
            edges@.len() == n,
        decreases lines@.len() - i,
    {
        assert(all.take(i + 1).drop_last() =~= all.take(i as int));
        assert(all.take(i + 1).last() == lines@[i as int]@);
        proof {
            lemma_weighted_prefix(n as int, all, i + 1);
        }
        let pieces = split_on_chars(&lines[i], ' ');
        let e = match parse_each_i32(&pieces, true) {
            Some(e) => e,
            None => {
                return None;
            },
        };
        if !(e.len() >= 3 && 0 <= e[0] as i64 - 1 && (e[0] as i64 - 1) < n as i64 && 0 <= e[1] as i64 - 1 && (e[1] as i64 - 1) < n as i64) {
            return None;
        }
        let u = e[0] - 1;
        let v = e[1] - 1;
        let ghost g = rows_of(edges@);
        edges[u as usize].push(v);
        assert(rows_of(edges@) =~= g.update(u as int, g[u as int].push(v)));
        let ghost g1 = rows_of(edges@);
        edges[v as usize].push(u);
        assert(rows_of(edges@) =~= g1.update(v as int, g1[v as int].push(u)));
        weights.push(e[2]);
        i = i + 1;
    }
    assert(all.take(i as int) =~= all);
    Some((edges, weights))
}

/// The number of nodes, then lines `u v w` (nodes counted from 1): the graph
/// and the weights in; out, the numbers on the lines of the expected output
/// after its first.
pub open spec fn spec_rainbow_roads(t: OldTest) -> Conversion {
    match split_once(t.input@, '\n') {
        None => Conversion::Panics,
        Some((first, rest)) => match parse_i32(trim(first)) {
            None => Conversion::Fails,
            Some(n) => match build_weighted(n as int, lines_of(trim(rest))) {
                WeightedGraph::Panics => Conversion::Panics,
                WeightedGraph::Built(g, w) => match split_once(t.expected_output@, '\n') {
                    None => Conversion::Panics,
                    Some((_f, rest2)) => match parse_all_i32(lines_of(rest2), false) {
                        Some(out) => Conversion::Converts(
                            seq![int_grid(ContainerVariantType::Graph, g), ints(w)],
                            FunctionType::Int(ContainerVariantType::Single),
                            ints(out),
                        ),
                        None => Conversion::Panics,
                    },
                },
            },
        },
    }
}

fn rainbow_roads_or_none(function_name: &str, test: &OldTest) -> (r: Option<Result<Test, ConvertError>>)
    ensures
        match r {
            Some(x) => converted(x, function_name@, *test, spec_rainbow_roads(*test)),
            None => spec_rainbow_roads(*test) is Panics,
        },
{
    let (first, rest) = match split_once_chars(&chars_of(test.input.as_str()), '\n') {
        Some(v) => v,
        None => {
            return None;
        },
    };
    let n = match parse_i32_chars(&trim_chars(&first)) {
        Some(n) => n,
        None => {
            return Some(Err(ConvertError::InvalidNumber));
        },
    };
    let lines = lines_chars(&trim_chars(&rest));
    let (edges, weights) = match weighted_graph_of(n, &lines) {
        Some(p) => p,
        None => {
            return None;
        },
    };
    let a0 = graph_value(edges);
    let a1 = int_list_value(weights);
    let (_f, rest2) = match split_once_chars(&chars_of(test.expected_output.as_str()), '\n') {
        Some(v) => v,
        None => {
            return None;
        },
    };
    let out = match parse_each_i32(&lines_chars(&rest2), false) {
        Some(v) => v,
        None => {
            return None;
        },
    };
    let result = int_list_value(out);
    let r = make_test(function_name, test, vec![a0, a1], FunctionType::Int(ContainerVariantType::Single), result);
    assert(r.input.arguments@[0] == a0 && r.input.arguments@[1] == a1);
    Some(Ok(r))
}

/// Whether `rainbow_roads` reads the test: whether its text has the shape that
/// `rainbow_roads` expects.
pub fn rainbow_roads_accepts(test: &OldTest) -> (r: bool)
    ensures
        r == !(spec_rainbow_roads(*test) is Panics),
{
    rainbow_roads_or_none("", test).is_some()
}

pub fn rainbow_roads(function_name: &str, test: OldTest) -> (r: Result<Test, ConvertError>)
    requires
        !(spec_rainbow_roads(test) is Panics),
    ensures
        converted(r, function_name@, test, spec_rainbow_roads(test)),
{
    match rainbow_roads_or_none(function_name, &test) {
        Some(r) => r,
        None => Err(ConvertError::InvalidNumber),
    }
}

} // verus!
