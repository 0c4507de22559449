//! Laws that relate several operations of the library.
use vstd::prelude::*;
use crate::layout::{Data, LayoutError, encodable, nalloc, root_sizes, enc, spec_decode};
use crate::roundtrip::{faithful, blocks_fit, apply, in_bounds, write_one, lemma_store_then_read};
use crate::layout::CppType;
use crate::function::{
    FunctionValue, ContainerVariant, ContainerVariantType, WasmMemory, spec_values_match, list_data, grid_data,
    spec_scale, FunctionType, result_kind, direct_param, direct_result, kind_of,
};
use crate::judge::{
    TestResult, collected, insert_by_index, count_below, sorted_by_index, lemma_report_order,
    lemma_count_below_bound,
};
use vstd::seq_lib::{group_to_multiset_ensures, lemma_multiset_commutative};
use crate::service::{difficulty_parts, problem_conditions, join, ProblemOptions, OldTest};
use crate::words::{trim, parse_i32, parse_i64};
use crate::convert::{
    spec_int_int, spec_string_int, spec_string_bool, spec_two_strings, spec_papercuts, spec_fear_factoring,
    spec_vec_i32, spec_poker_hand, spec_meeting, spec_longest_common_subsequence, spec_mission_improbable,
    spec_rectangles, spec_kth_subtree, spec_coloring_contention, spec_tree_vertex_cover,
    spec_maximum_nonadjacent_sum, Conversion, int1, long1,
};

verus! {

/// A function value stored in guest memory reads back as itself: storing
/// `v.to_cpp()` with the writes `plan_writes` makes, at blocks that do not
/// overlap and lie within memory, and reading a value of `v`'s type from the
/// first block gives `v`'s content, which `from_memory` turns back into a
/// value of `v`'s type.
pub proof fn lemma_function_value_roundtrip(mem: Seq<u8>, v: FunctionValue, addrs: Seq<u32>)
    requires
        encodable(v.data()),
        faithful(v.data()),
        mem.len() <= u32::MAX,
        addrs.len() == 1 + nalloc(v.data()),
        blocks_fit(addrs, root_sizes(v.data()), mem.len() as int),
    ensures
        forall|i: int| 0 <= i < enc(v.data(), addrs[0] as int, addrs, 1).len() ==> in_bounds(
            mem.len() as int,
            #[trigger] enc(v.data(), addrs[0] as int, addrs, 1)[i],
        ),
        spec_decode(apply(mem, enc(v.data(), addrs[0] as int, addrs, 1)), addrs[0] as int, v.value_type().cpp())
            == Ok::<Data, LayoutError>(v.data()),
{
    v.lemma_typed();
    lemma_store_then_read(mem, v.data(), addrs);
}

/// The byte that stores a character: the low byte of its code.
pub open spec fn char_byte(c: char) -> u8 {
    #[verifier::truncate] ((c as u32) as u8)
}

/// A character stored in guest memory reads back as the character of its
/// low byte, whatever the character: storing `c` at an address where a byte
/// lies within memory and reading a `char` there gives `char_byte(c)`, which
/// is `c` itself exactly when `c` is below 256.
pub proof fn lemma_char_store_then_read(mem: Seq<u8>, c: char, a: u32)
    requires
        a < mem.len(),
    ensures
        in_bounds(mem.len() as int, enc(Data::Char(c), a as int, Seq::empty(), 1)[0]),
        spec_decode(apply(mem, enc(Data::Char(c), a as int, Seq::empty(), 1)), a as int, CppType::Char)
            == Ok::<Data, LayoutError>(Data::Char(char_byte(c) as char)),
        (char_byte(c) as char == c) <==> (c as u32) < 256,
{
    let ws = enc(Data::Char(c), a as int, Seq::empty(), 1);
    let w = (a as int, seq![char_byte(c)]);
    assert(ws == seq![w]);
    assert(ws.drop_last() =~= Seq::<(int, Seq<u8>)>::empty());
    assert(apply(mem, ws.drop_last()) == mem);
    assert(ws.last() == w);
    let m2 = apply(mem, ws);
    assert(m2 == write_one(mem, w));
    assert(in_bounds(mem.len() as int, w));
    assert(m2 == mem.subrange(0, a as int) + seq![char_byte(c)] + mem.subrange(a + 1, mem.len() as int));
    assert(m2.subrange(a as int, a + 1) =~= seq![char_byte(c)]);
    let x = c as u32;
    assert(x < 256 ==> (#[verifier::truncate] (x as u8)) as u32 == x) by (bit_vector);
    assert((#[verifier::truncate] (x as u8)) as u32 == x ==> x < 256) by (bit_vector);
}

/// Whether two values match does not depend on their order.
pub proof fn lemma_values_match_symmetric(a: FunctionValue, b: FunctionValue)
    ensures
        spec_values_match(a, b) == spec_values_match(b, a),
{
}

/// A value matches itself, unless it holds floating-point numbers: single
/// `double`s are compared with a tolerance by the caller, and other `float`s
/// and `double`s never match.
pub proof fn lemma_values_match_reflexive(v: FunctionValue)
    ensures
        !(v is Float) && !(v is Double) ==> spec_values_match(v, v) == Some(true),
        v is Float ==> spec_values_match(v, v) == Some(false),
        v matches FunctionValue::Double(ContainerVariant::Single(_)) ==> spec_values_match(v, v) is None,
{
}


/// The two values hold elements of the same type.
pub open spec fn same_element_type(a: FunctionValue, b: FunctionValue) -> bool {
    match (a, b) {
        (FunctionValue::String(_), FunctionValue::String(_)) => true,
        (FunctionValue::Int(_), FunctionValue::Int(_)) => true,
        (FunctionValue::Long(_), FunctionValue::Long(_)) => true,
        (FunctionValue::Float(_), FunctionValue::Float(_)) => true,
        (FunctionValue::Double(_), FunctionValue::Double(_)) => true,
        (FunctionValue::Char(_), FunctionValue::Char(_)) => true,
        (FunctionValue::Bool(_), FunctionValue::Bool(_)) => true,
        _ => false,
    }
}

/// Values whose elements are of different types never match.
pub proof fn lemma_values_of_different_types_never_match(a: FunctionValue, b: FunctionValue)
    requires
        !same_element_type(a, b),
    ensures
        spec_values_match(a, b) == Some(false),
{
}

/// No two of the results are for the same test index.
pub open spec fn distinct_indices(s: Seq<TestResult>) -> bool {
    forall|i: int, j: int| 0 <= i < j < s.len() ==> (#[trigger] s[i]).index != (#[trigger] s[j]).index
}

/// Every result that adding `s` in turn keeps (`collected`) is one of `s`.
proof fn lemma_collected_from(s: Seq<TestResult>, f: bool)
    ensures
        forall|i: int| 0 <= i < collected(s, f).len() ==> s.contains(#[trigger] collected(s, f)[i]),
    decreases s.len(),
{
    if s.len() > 0 {
        let q = s.drop_last();
        let t = s.last();
        lemma_collected_from(q, f);
        let before = collected(q, f);
        let r = collected(s, f);
        lemma_count_below_bound(before, t.index);
        let p = count_below(before, t.index);
        assert forall|i: int| 0 <= i < r.len() implies s.contains(#[trigger] r[i]) by {
            let x = r[i];
            if x == t {
                assert(s[s.len() - 1] == t);
            } else {
                let k: int = if t.success == f && r != before && i > p { i - 1 } else { i };
                assert(x == before[k]);
                assert(q.contains(before[k]));
                let j = choose|j: int| 0 <= j < q.len() && q[j] == before[k];
                assert(s[j] == q[j]);
            }
        }
    }
}

/// The report of a submission, when each test index occurs once among the
/// results: `summarize` lists exactly the results it was given, each once
/// (the same multiset), the failed ones first and then the passed ones, each
/// group in increasing order of test index.
pub proof fn lemma_report_is_permutation(tests: Seq<TestResult>)
    requires
        distinct_indices(tests),
    ensures
        (collected(tests, false) + collected(tests, true)).to_multiset() == tests.to_multiset(),
        sorted_by_index(collected(tests, false)),
        sorted_by_index(collected(tests, true)),
        forall|i: int| 0 <= i < collected(tests, false).len() ==> !(#[trigger] collected(tests, false)[i]).success,
        forall|i: int| 0 <= i < collected(tests, true).len() ==> (#[trigger] collected(tests, true)[i]).success,
    decreases tests.len(),
{
    broadcast use group_to_multiset_ensures;
    broadcast use vstd::multiset::group_multiset_axioms;

    lemma_report_order(tests);
    if tests.len() == 0 {
        assert(collected(tests, false) + collected(tests, true) =~= Seq::<TestResult>::empty());
        assert(tests =~= Seq::<TestResult>::empty());
    } else {
        let q = tests.drop_last();
        let t = tests.last();
        assert(distinct_indices(q)) by {
            assert forall|i: int, j: int| 0 <= i < j < q.len() implies (#[trigger] q[i]).index != (
            #[trigger] q[j]).index by {
                assert(q[i] == tests[i] && q[j] == tests[j]);
            }
        }
        lemma_report_is_permutation(q);
        let f = t.success;
        let before = collected(q, f);
        let other = collected(q, !f);
        lemma_collected_from(q, f);
        assert(!exists|i: int| 0 <= i < before.len() && (#[trigger] before[i]).index == t.index) by {
            if exists|i: int| 0 <= i < before.len() && (#[trigger] before[i]).index == t.index {
                let i = choose|i: int| 0 <= i < before.len() && (#[trigger] before[i]).index == t.index;
                assert(q.contains(before[i]));
                let j = choose|j: int| 0 <= j < q.len() && q[j] == before[i];
                assert(tests[j] == q[j]);
                assert(tests[j].index != tests[tests.len() - 1].index);
            }
        }
        lemma_count_below_bound(before, t.index);
        let p = count_below(before, t.index);
        assert(insert_by_index(before, t) == before.insert(p, t));
        assert(collected(tests, f) == before.insert(p, t));
        assert(collected(tests, !f) == other);
        assert(before.insert(p, t).to_multiset() == before.to_multiset().insert(t));
        assert(tests == q.push(t));
        lemma_multiset_commutative(collected(q, false), collected(q, true));
        lemma_multiset_commutative(collected(tests, false), collected(tests, true));
        assert((collected(tests, false) + collected(tests, true)).to_multiset() =~= tests.to_multiset());
    }
}


/* ---------------------------------------------------------------------- */
/* What it means for an output to match                                   */
/* ---------------------------------------------------------------------- */

/// The items of a vector's content.
pub open spec fn items(d: Data) -> Seq<Data> {
    match d {
        Data::Vector(_, s) => s,
        _ => Seq::empty(),
    }
}

/// The elements of a value row by row, each seen through `key`: a single
/// element is one row of one, a list is one row, a grid or a graph has its
/// rows.
pub open spec fn cells_by<T, K>(c: ContainerVariant<T>, key: spec_fn(T) -> K) -> Seq<Seq<K>> {
    match c {
        ContainerVariant::Single(x) => seq![seq![key(x)]],
        ContainerVariant::List(l) => seq![l@.map_values(key)],
        ContainerVariant::Grid(g) => g@.map_values(|row: Vec<T>| row@.map_values(key)),
        ContainerVariant::Graph(g) => g@.map_values(|row: Vec<T>| row@.map_values(key)),
    }
}

pub open spec fn same_elem<T>() -> spec_fn(T) -> T {
    |x: T| x
}

pub open spec fn text_of() -> spec_fn(String) -> Seq<char> {
    |s: String| s@
}

/// The elements of a value, row by row.
pub open spec fn elements<T>(c: ContainerVariant<T>) -> Seq<Seq<T>> {
    cells_by(c, same_elem::<T>())
}

/// The texts of a value of strings, row by row.
pub open spec fn texts(c: ContainerVariant<String>) -> Seq<Seq<Seq<char>>> {
    cells_by(c, text_of())
}

/// `key` tells elements apart exactly as their content does.
pub open spec fn keyed<T: WasmMemory, K>(key: spec_fn(T) -> K) -> bool {
    forall|x: T, y: T| (#[trigger] x.data() == #[trigger] y.data()) == (key(x) == key(y))
}

proof fn lemma_list_content<T: WasmMemory, K>(s1: Seq<T>, s2: Seq<T>, key: spec_fn(T) -> K)
    requires
        keyed(key),
    ensures
        (list_data(s1) == list_data(s2)) == (s1.map_values(key) == s2.map_values(key)),
{
    let i1 = items(list_data(s1));
    let i2 = items(list_data(s2));
    assert(i1.len() == s1.len() && i2.len() == s2.len());
    assert(forall|k: int| 0 <= k < s1.len() ==> #[trigger] i1[k] == s1[k].data());
    assert(forall|k: int| 0 <= k < s2.len() ==> #[trigger] i2[k] == s2[k].data());
    if list_data(s1) == list_data(s2) {
        assert(i1 == i2);
        assert forall|k: int| 0 <= k < s1.len() implies #[trigger] s1.map_values(key)[k] == s2.map_values(key)[k] by {
            assert(i1[k] == i2[k]);
        }
        assert(s1.map_values(key) =~= s2.map_values(key));
    }
    if s1.map_values(key) == s2.map_values(key) {
        assert(s1.map_values(key).len() == s2.map_values(key).len());
        assert forall|k: int| 0 <= k < s1.len() implies #[trigger] i1[k] == i2[k] by {
            assert(s1.map_values(key)[k] == s2.map_values(key)[k]);
        }
        assert(i1 =~= i2);
    }
}

proof fn lemma_grid_content<T: WasmMemory, K>(g1: Seq<Vec<T>>, g2: Seq<Vec<T>>, key: spec_fn(T) -> K)
    requires
        keyed(key),
    ensures
        (grid_data(g1) == grid_data(g2)) == (g1.map_values(|row: Vec<T>| row@.map_values(key))
            == g2.map_values(|row: Vec<T>| row@.map_values(key))),
{
    let r1 = g1.map_values(|row: Vec<T>| row@.map_values(key));
    let r2 = g2.map_values(|row: Vec<T>| row@.map_values(key));
    let i1 = items(grid_data(g1));
    let i2 = items(grid_data(g2));
    assert(i1.len() == g1.len() && i2.len() == g2.len());
    assert(forall|k: int| 0 <= k < g1.len() ==> #[trigger] i1[k] == list_data(g1[k]@));
    assert(forall|k: int| 0 <= k < g2.len() ==> #[trigger] i2[k] == list_data(g2[k]@));
    if grid_data(g1) == grid_data(g2) {
        assert(i1 == i2);
        assert forall|k: int| 0 <= k < g1.len() implies #[trigger] r1[k] == r2[k] by {
            assert(i1[k] == i2[k]);
            lemma_list_content(g1[k]@, g2[k]@, key);
        }
        assert(r1 =~= r2);
    }
    if r1 == r2 {
        assert(r1.len() == r2.len());
        assert forall|k: int| 0 <= k < g1.len() implies #[trigger] i1[k] == i2[k] by {
            assert(r1[k] == r2[k]);
            lemma_list_content(g1[k]@, g2[k]@, key);
        }
        assert(i1 =~= i2);
    }
}

/// Two values of one shape have the same content exactly when they hold the
/// same elements, seen through a key that tells elements apart as their
/// content does.
proof fn lemma_same_content<T: WasmMemory, K>(a: ContainerVariant<T>, b: ContainerVariant<T>, key: spec_fn(T) -> K)
    requires
        keyed(key),
        a.shape() == b.shape(),
    ensures
        (a.data() == b.data()) == (cells_by(a, key) == cells_by(b, key)),
{
    match (a, b) {
        (ContainerVariant::Single(x), ContainerVariant::Single(y)) => {
            assert(x.data() == y.data() <==> key(x) == key(y));
            if cells_by(a, key) == cells_by(b, key) {
                assert(cells_by(a, key)[0][0] == key(x));
            }
        },
        (ContainerVariant::List(l1), ContainerVariant::List(l2)) => {
            lemma_list_content(l1@, l2@, key);
            if cells_by(a, key) == cells_by(b, key) {
                assert(cells_by(a, key)[0] == l1@.map_values(key));
            }
        },
        (ContainerVariant::Grid(g1), ContainerVariant::Grid(g2)) => {
            lemma_grid_content(g1@, g2@, key);
        },
        (ContainerVariant::Graph(g1), ContainerVariant::Graph(g2)) => {
            lemma_grid_content(g1@, g2@, key);
        },
        _ => {},
    }
}

/// An output matches the expected value, for values of integers, `long`s,
/// characters, booleans or strings, exactly when the two have the same shape
/// (single, list, grid or graph) and hold the same elements in the same
/// places: the same numbers, characters or booleans, the same texts. Values
/// of `float`s never match, nor do lists, grids or graphs of `double`s; two
/// single `double`s are compared with a tolerance by the caller.
pub proof fn lemma_match_is_same_elements(a: FunctionValue, b: FunctionValue)
    ensures
        (a, b) matches (FunctionValue::Int(l), FunctionValue::Int(r)) ==> spec_values_match(a, b) == Some(
            l.shape() == r.shape() && elements(l) == elements(r),
        ),
        (a, b) matches (FunctionValue::Long(l), FunctionValue::Long(r)) ==> spec_values_match(a, b) == Some(
            l.shape() == r.shape() && elements(l) == elements(r),
        ),
        (a, b) matches (FunctionValue::Char(l), FunctionValue::Char(r)) ==> spec_values_match(a, b) == Some(
            l.shape() == r.shape() && elements(l) == elements(r),
        ),
        (a, b) matches (FunctionValue::Bool(l), FunctionValue::Bool(r)) ==> spec_values_match(a, b) == Some(
            l.shape() == r.shape() && elements(l) == elements(r),
        ),
        (a, b) matches (FunctionValue::String(l), FunctionValue::String(r)) ==> spec_values_match(a, b) == Some(
            l.shape() == r.shape() && texts(l) == texts(r),
        ),
        (a, b) matches (FunctionValue::Float(_), FunctionValue::Float(_)) ==> spec_values_match(a, b) == Some(false),
        (a, b) matches (FunctionValue::Double(l), FunctionValue::Double(r)) ==> (if l is Single && r is Single {
            spec_values_match(a, b) is None
        } else {
            spec_values_match(a, b) == Some(false)
        }),
{
    match (a, b) {
        (FunctionValue::Int(l), FunctionValue::Int(r)) => {
            if l.shape() == r.shape() {
                lemma_same_content(l, r, same_elem::<i32>());
            }
        },
        (FunctionValue::Long(l), FunctionValue::Long(r)) => {
            if l.shape() == r.shape() {
                lemma_same_content(l, r, same_elem::<i64>());
            }
        },
        (FunctionValue::Char(l), FunctionValue::Char(r)) => {
            if l.shape() == r.shape() {
                lemma_same_content(l, r, same_elem::<char>());
            }
        },
        (FunctionValue::Bool(l), FunctionValue::Bool(r)) => {
            if l.shape() == r.shape() {
                lemma_same_content(l, r, same_elem::<bool>());
            }
        },
        (FunctionValue::String(l), FunctionValue::String(r)) => {
            if l.shape() == r.shape() {
                lemma_same_content(l, r, text_of());
            }
        },
        _ => {},
    }
}


/* ---------------------------------------------------------------------- */
/* Listing problems by difficulty                                         */
/* ---------------------------------------------------------------------- */

/// A problem listing that asks for difficulties `d` (a set of bits: 1 for
/// easy, 2 for medium, 4 for hard) puts on the problems the condition of each
/// difficulty asked for and of no other, each once, easiest first.
pub proof fn lemma_difficulty_conditions(d: u8)
    ensures
        difficulty_parts(d).contains("difficulty = \"Easy\""@) == (d & 1 != 0),
        difficulty_parts(d).contains("difficulty = \"Medium\""@) == (d & 2 != 0),
        difficulty_parts(d).contains("difficulty = \"Hard\""@) == (d & 4 != 0),
        forall|i: int| 0 <= i < difficulty_parts(d).len() ==> {
            let p = #[trigger] difficulty_parts(d)[i];
            ||| p == "difficulty = \"Easy\""@
            ||| p == "difficulty = \"Medium\""@
            ||| p == "difficulty = \"Hard\""@
        },
        forall|i: int, j: int| 0 <= i < j < difficulty_parts(d).len() ==> (#[trigger] difficulty_parts(d)[i])
            != #[trigger] difficulty_parts(d)[j],
{
    reveal_strlit("difficulty = \"Easy\"");
    reveal_strlit("difficulty = \"Medium\"");
    reveal_strlit("difficulty = \"Hard\"");
    let e = "difficulty = \"Easy\""@;
    let m = "difficulty = \"Medium\""@;
    let h = "difficulty = \"Hard\""@;
    assert(e != m) by { assert(e[14] != m[14]); }
    assert(e != h) by { assert(e[14] != h[14]); }
    assert(m != h) by { assert(m[14] != h[14]); }
    let pe = if d & 1 != 0 { seq![e] } else { Seq::<Seq<char>>::empty() };
    let pm = if d & 2 != 0 { seq![m] } else { Seq::<Seq<char>>::empty() };
    let ph = if d & 4 != 0 { seq![h] } else { Seq::<Seq<char>>::empty() };
    let parts = difficulty_parts(d);
    assert(parts == pe + pm + ph);
    assert forall|i: int| 0 <= i < parts.len() implies #[trigger] parts[i] == e && d & 1 != 0 || parts[i] == m
        && d & 2 != 0 || parts[i] == h && d & 4 != 0 by {
        if i < pe.len() {
            assert(parts[i] == pe[i]);
        } else if i < pe.len() + pm.len() {
            assert(parts[i] == pm[i - pe.len()]);
        } else {
            assert(parts[i] == ph[i - pe.len() - pm.len()]);
        }
    }
    if d & 1 != 0 {
        assert(parts[0] == e);
    }
    if d & 2 != 0 {
        assert(parts[pe.len() as int] == m);
    }
    if d & 4 != 0 {
        assert(parts[(pe.len() + pm.len()) as int] == h);
    }
    assert forall|i: int, j: int| 0 <= i < j < parts.len() implies (#[trigger] parts[i]) != #[trigger] parts[j] by {
        if i < pe.len() {
            assert(parts[i] == pe[i]);
        } else if i < pe.len() + pm.len() {
            assert(parts[i] == pm[i - pe.len()]);
        } else {
            assert(parts[i] == ph[i - pe.len() - pm.len()]);
        }
        if j < pe.len() {
            assert(parts[j] == pe[j]);
        } else if j < pe.len() + pm.len() {
            assert(parts[j] == pm[j - pe.len()]);
        } else {
            assert(parts[j] == ph[j - pe.len() - pm.len()]);
        }
    }
}


/* ---------------------------------------------------------------------- */
/* Reading the expected output of an old test                             */
/* ---------------------------------------------------------------------- */

/// The conversions that read the expected output as a trimmed text (a number,
/// a word or a line) read it the same whatever white space surrounds it: two
/// tests with the same input whose expected outputs agree once trimmed (such
/// as `11` and `11\n`) convert alike, or are refused alike.
pub proof fn lemma_expected_output_read_trimmed(t1: OldTest, t2: OldTest)
    requires
        t1.input@ == t2.input@,
        trim(t1.expected_output@) == trim(t2.expected_output@),
    ensures
        spec_int_int(t1) == spec_int_int(t2),
        spec_string_int(t1) == spec_string_int(t2),
        spec_string_bool(t1) == spec_string_bool(t2),
        spec_two_strings(t1) == spec_two_strings(t2),
        spec_papercuts(t1) == spec_papercuts(t2),
        spec_fear_factoring(t1) == spec_fear_factoring(t2),
        spec_vec_i32(t1) == spec_vec_i32(t2),
        spec_poker_hand(t1) == spec_poker_hand(t2),
        spec_meeting(t1) == spec_meeting(t2),
        spec_longest_common_subsequence(t1) == spec_longest_common_subsequence(t2),
        spec_mission_improbable(t1) == spec_mission_improbable(t2),
        spec_rectangles(t1) == spec_rectangles(t2),
        spec_kth_subtree(t1) == spec_kth_subtree(t2),
        spec_coloring_contention(t1) == spec_coloring_contention(t2),
        spec_tree_vertex_cover(t1) == spec_tree_vertex_cover(t2),
        spec_maximum_nonadjacent_sum(t1) == spec_maximum_nonadjacent_sum(t2),
{
}


/// The conversions whose expected output is a number make it the number that
/// the trimmed expected text spells: a test converts only when that text
/// reads as a number, and then expects exactly that number.
pub proof fn lemma_expected_output_is_its_number(t: OldTest)
    ensures
        spec_int_int(t) matches Conversion::Converts(_, _, exp) ==> parse_i32(trim(t.expected_output@)) matches Some(y)
            && exp == int1(y),
        spec_string_int(t) matches Conversion::Converts(_, _, exp) ==> parse_i32(trim(t.expected_output@)) matches Some(y)
            && exp == int1(y),
        spec_papercuts(t) matches Conversion::Converts(_, _, exp) ==> parse_i32(trim(t.expected_output@)) matches Some(y)
            && exp == int1(y),
        spec_vec_i32(t) matches Conversion::Converts(_, _, exp) ==> parse_i32(trim(t.expected_output@)) matches Some(y)
            && exp == int1(y),
        spec_poker_hand(t) matches Conversion::Converts(_, _, exp) ==> parse_i32(trim(t.expected_output@)) matches Some(y)
            && exp == int1(y),
        spec_meeting(t) matches Conversion::Converts(_, _, exp) ==> parse_i32(trim(t.expected_output@)) matches Some(y)
            && exp == int1(y),
        spec_longest_common_subsequence(t) matches Conversion::Converts(_, _, exp) ==> parse_i32(trim(t.expected_output@)) matches Some(y)
            && exp == int1(y),
        spec_kth_subtree(t) matches Conversion::Converts(_, _, exp) ==> parse_i32(trim(t.expected_output@)) matches Some(y)
            && exp == int1(y),
        spec_coloring_contention(t) matches Conversion::Converts(_, _, exp) ==> parse_i32(trim(t.expected_output@)) matches Some(y)
            && exp == int1(y),
        spec_tree_vertex_cover(t) matches Conversion::Converts(_, _, exp) ==> parse_i32(trim(t.expected_output@)) matches Some(y)
            && exp == int1(y),
        spec_maximum_nonadjacent_sum(t) matches Conversion::Converts(_, _, exp) ==> parse_i32(trim(t.expected_output@)) matches Some(y)
            && exp == int1(y),
        spec_fear_factoring(t) matches Conversion::Converts(_, _, exp) ==> parse_i64(trim(t.expected_output@)) matches Some(y)
            && exp == long1(y),
        spec_mission_improbable(t) matches Conversion::Converts(_, _, exp) ==> parse_i64(trim(t.expected_output@)) matches Some(y)
            && exp == long1(y),
        spec_rectangles(t) matches Conversion::Converts(_, _, exp) ==> parse_i64(trim(t.expected_output@)) matches Some(y)
            && exp == long1(y),
{
}


/* ---------------------------------------------------------------------- */
/* The magnitude of an input                                              */
/* ---------------------------------------------------------------------- */

proof fn lemma_container_size<T: WasmMemory>(c: ContainerVariant<T>)
    ensures
        c is List ==> items(c.data()).len() == c->List_0@.len(),
        c is Graph ==> items(c.data()).len() == c->Graph_0@.len(),
        c is Grid ==> items(c.data()).len() == c->Grid_0@.len() && (c->Grid_0@.len() > 0 ==> items(
            items(c.data())[0],
        ).len() == c->Grid_0@[0]@.len()),
        c is Grid && c->Grid_0@.len() == 0 ==> c->Grid_0@[0]@.len() * c->Grid_0@.len() == 0,
{
    match c {
        ContainerVariant::Grid(g) => {
            if g@.len() > 0 {
                assert(items(c.data())[0] == list_data(g@[0]@));
            } else {
                let a = g@[0]@.len();
                let b = g@.len();
                assert(a * b == 0) by (nonlinear_arith)
                    requires
                        b == 0,
                ;
            }
        },
        _ => {},
    }
}

/// The magnitude of an input, whatever its element type: the number of
/// items of a list, the number of nodes of a graph, the number of cells
/// (rows times the length of the first row) of a grid, each read off the
/// value's content. A single integer or `long` measures its distance from 0,
/// a single string its length in bytes, a single character or boolean 1; a
/// single floating-point number is measured by the caller.
pub proof fn lemma_scale_is_size(v: FunctionValue)
    ensures
        v.value_type().shape() == ContainerVariantType::List ==> spec_scale(v) == Some(items(v.data()).len() as int),
        v.value_type().shape() == ContainerVariantType::Graph ==> spec_scale(v) == Some(items(v.data()).len() as int),
        v.value_type().shape() == ContainerVariantType::Grid && items(v.data()).len() > 0 ==> spec_scale(v) == Some(
            (items(items(v.data())[0]).len() * items(v.data()).len()) as int,
        ),
        v.value_type().shape() == ContainerVariantType::Grid && items(v.data()).len() == 0 ==> spec_scale(v) == Some(0int),
        v matches FunctionValue::Int(ContainerVariant::Single(x)) ==> spec_scale(v) matches Some(n) && n >= 0 && (n == x
            || n == -x),
        v matches FunctionValue::Long(ContainerVariant::Single(x)) ==> spec_scale(v) matches Some(n) && n >= 0 && (n == x
            || n == -x),
        v matches FunctionValue::String(ContainerVariant::Single(s)) ==> spec_scale(v) == Some(
            vstd::utf8::encode_utf8(s@).len() as int,
        ),
        v matches FunctionValue::Char(ContainerVariant::Single(_)) ==> spec_scale(v) == Some(1int),
        v matches FunctionValue::Bool(ContainerVariant::Single(_)) ==> spec_scale(v) == Some(1int),
        v matches FunctionValue::Float(ContainerVariant::Single(_)) ==> spec_scale(v) is None,
        v matches FunctionValue::Double(ContainerVariant::Single(_)) ==> spec_scale(v) is None,
{
    match v {
        FunctionValue::String(c) => lemma_container_size(c),
        FunctionValue::Int(c) => lemma_container_size(c),
        FunctionValue::Long(c) => lemma_container_size(c),
        FunctionValue::Float(c) => lemma_container_size(c),
        FunctionValue::Double(c) => lemma_container_size(c),
        FunctionValue::Char(c) => lemma_container_size(c),
        FunctionValue::Bool(c) => lemma_container_size(c),
    }
}


/* ---------------------------------------------------------------------- */
/* Results that come back directly                                        */
/* ---------------------------------------------------------------------- */

/// A function returns its result itself, as a value of its own, exactly when
/// the result is a single number, character or boolean; every other result
/// (a string, a list, a grid, a graph) is stored in memory at an address the
/// function is given.
pub proof fn lemma_direct_results_are_single(t: FunctionType)
    ensures
        (result_kind(t) is Some) == (t.shape() == ContainerVariantType::Single && !(t is String)),
{
}

/// A single result comes back as the value that carries it: for every
/// single number, character or boolean, the value the function returns has
/// the kind the call expects, the kind with which such a value is passed;
/// and for a number or a boolean, reading the returned value gives the value
/// back.
pub proof fn lemma_single_result_round_trip(v: FunctionValue)
    requires
        v.value_type().shape() == ContainerVariantType::Single,
        !(v is String),
    ensures
        direct_param(v) matches Some(w) && result_kind(v.value_type()) == Some(kind_of(w)),
        !(v is Char) ==> (direct_param(v) matches Some(w) && direct_result(v.value_type(), w) == Some(v)),
{
}


/// The conditions of a problem listing: visible problems only, unless an
/// officer asks; the competition asked for, when one is named; the problems
/// of no competition, when none is named and competition problems are not
/// asked for; no restriction there when they are; and one group of the
/// difficulties asked for, when any is.
pub proof fn lemma_listing_conditions(is_officer: bool, o: ProblemOptions)
    ensures
        problem_conditions(is_officer, o).contains("visible = true"@) == !is_officer,
        problem_conditions(is_officer, o).contains("competition_id = ?"@) == (o.competition_id is Some),
        problem_conditions(is_officer, o).contains("competition_id IS NULL"@) == (o.show_competition_problems
            != Some(true) && o.competition_id is None),
        problem_conditions(is_officer, o).contains("TRUE"@) == (o.show_competition_problems == Some(true)),
        (exists|i: int| 0 <= i < problem_conditions(is_officer, o).len() && (#[trigger] problem_conditions(is_officer, o)[i])[0] == '(')
            == (o.difficulty is Some && o.difficulty->0 != 0),
        o.difficulty is Some && o.difficulty->0 != 0 ==> problem_conditions(is_officer, o).contains(
            "("@ + join(difficulty_parts(o.difficulty->0), " OR "@) + ")"@,
        ),
{
    reveal_strlit("visible = true");
    reveal_strlit("competition_id = ?");
    reveal_strlit("competition_id IS NULL");
    reveal_strlit("TRUE");
    reveal_strlit("(");
    reveal_strlit(")");
    let v = "visible = true"@;
    let c = "competition_id = ?"@;
    let n = "competition_id IS NULL"@;
    let t = "TRUE"@;
    let pv = if !is_officer { seq![v] } else { Seq::<Seq<char>>::empty() };
    let pc = if o.competition_id is Some { seq![c] } else { Seq::<Seq<char>>::empty() };
    let pd = match o.difficulty {
        Some(d) => if d != 0 {
            seq!["("@ + join(difficulty_parts(d), " OR "@) + ")"@]
        } else {
            Seq::<Seq<char>>::empty()
        },
        None => Seq::<Seq<char>>::empty(),
    };
    let pn = if o.show_competition_problems == Some(true) {
        seq![t]
    } else if o.competition_id is None {
        seq![n]
    } else {
        Seq::<Seq<char>>::empty()
    };
    let ps = problem_conditions(is_officer, o);
    assert(ps == pv + pc + pd + pn);
    assert(v.len() == 14 && c.len() == 18 && n.len() == 22 && t.len() == 4);
    assert(v[0] == 'v' && c[0] == 'c' && n[0] == 'c' && t[0] == 'T');
    assert(forall|i: int| 0 <= i < pd.len() ==> (#[trigger] pd[i])[0] == '(');
    let a = pv.len();
    let b = a + pc.len();
    let e = b + pd.len();
    assert forall|i: int| 0 <= i < ps.len() implies {
        ||| (i < a && #[trigger] ps[i] == v)
        ||| (a <= i < b && ps[i] == c)
        ||| (b <= i < e && ps[i] == pd[i - b])
        ||| (e <= i && ps[i] == pn[i - e])
    } by {
        if i < a {
            assert(ps[i] == pv[i]);
        } else if i < b {
            assert(ps[i] == pc[i - a]);
        } else if i < e {
            assert(ps[i] == pd[i - b]);
        } else {
            assert(ps[i] == pn[i - e]);
        }
    }
    if !is_officer {
        assert(ps[0] == v);
    }
    if o.competition_id is Some {
        assert(ps[a as int] == c);
    }
    if pd.len() > 0 {
        assert(ps[b as int] == pd[0]);
    }
    if pn.len() > 0 {
        assert(ps[e as int] == pn[0]);
    }
}

} // verus!
