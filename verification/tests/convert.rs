use acm::convert::{
    coloring_contention, convert_raw_string, fear_factoring, int_int, int_string, kth_subtree,
    longest_common_subsequence, maximum_nonadjacent_sum, meeting, mission_improbable, papercuts,
    poker_hand, rainbow_roads, rectangles, replicate, star_arrangements, string_bool, string_int,
    tree_vertex_cover, two_strings, vec_i32 as convert_vec_i32, ConvertError,
};
use acm::function::{ContainerVariant, ContainerVariantType, FunctionType, FunctionValue};
use acm::service::OldTest;
use acm::words::{
    parse_i32_chars, parse_i64_chars, split_on_chars, split_once_chars, split_whitespace_chars,
    trim_chars,
};

fn old_test(input: &str, expected: &str) -> OldTest {
    OldTest {
        id: 7,
        test_number: 3,
        max_runtime: Some(1000),
        input: input.to_string(),
        expected_output: expected.to_string(),
    }
}

fn chars(s: &str) -> Vec<char> {
    s.chars().collect()
}

fn int_single(x: i32) -> FunctionValue {
    FunctionValue::Int(ContainerVariant::Single(x))
}

fn text(s: &str) -> FunctionValue {
    FunctionValue::String(ContainerVariant::Single(s.to_string()))
}

#[test]
fn words_helpers() {
    assert_eq!(trim_chars(&chars(" \t hi there \n")), chars("hi there"));
    assert_eq!(trim_chars(&chars("   ")), chars(""));
    assert_eq!(split_once_chars(&chars("a b c"), ' '), Some((chars("a"), chars("b c"))));
    assert_eq!(split_once_chars(&chars("abc"), ' '), None);
    assert_eq!(split_on_chars(&chars("1  2"), ' '), vec![chars("1"), chars(""), chars("2")]);
    assert_eq!(split_whitespace_chars(&chars("  a\tbb \n c ")), vec![chars("a"), chars("bb"), chars("c")]);
    assert_eq!(parse_i32_chars(&chars("-42")), Some(-42));
    assert_eq!(parse_i32_chars(&chars("+7")), Some(7));
    assert_eq!(parse_i32_chars(&chars("2147483648")), None);
    assert_eq!(parse_i32_chars(&chars("-2147483648")), Some(i32::MIN));
    assert_eq!(parse_i32_chars(&chars("")), None);
    assert_eq!(parse_i32_chars(&chars("-")), None);
    assert_eq!(parse_i32_chars(&chars("1a")), None);
    assert_eq!(parse_i64_chars(&chars("9223372036854775807")), Some(i64::MAX));
    assert_eq!(parse_i64_chars(&chars("99999999999999999999999")), None);
}

#[test]
fn raw_strings() {
    let t = convert_raw_string("branch", old_test(" in \n", "out")).unwrap();
    assert_eq!(t.id, 7);
    assert_eq!(t.index, 3);
    assert_eq!(t.max_fuel, Some(1000));
    assert_eq!(t.input.name, "branch");
    assert_eq!(t.input.arguments, vec![text(" in \n")]);
    assert_eq!(t.input.return_type, FunctionType::String(ContainerVariantType::Single));
    assert_eq!(t.expected_output, text("out"));
}

#[test]
fn numbers_in_and_out() {
    let t = int_int("ways", old_test(" 12\n", "144\n")).unwrap();
    assert_eq!(t.input.arguments, vec![int_single(12)]);
    assert_eq!(t.expected_output, int_single(144));
    let t = int_string("fizzBuzz", old_test("15", "FizzBuzz\n")).unwrap();
    assert_eq!(t.input.arguments, vec![int_single(15)]);
    assert_eq!(t.expected_output, text("FizzBuzz\n"));
    let t = string_int("runes", old_test(" abc \n", " 3 ")).unwrap();
    assert_eq!(t.input.arguments, vec![text("abc")]);
    assert_eq!(t.expected_output, int_single(3));
    assert_eq!(string_int("runes", old_test("abc", "x")), Err(ConvertError::InvalidNumber));
    let t = star_arrangements("star_arrangements", old_test("50\n", "50: 2,1\n")).unwrap();
    assert_eq!(t.input.arguments, vec![int_single(50)]);
    assert_eq!(t.input.return_type, FunctionType::String(ContainerVariantType::Single));
    assert_eq!(star_arrangements("s", old_test("5x", "")), Err(ConvertError::InvalidNumber));
}

#[test]
fn odd_or_even() {
    let t = string_bool("odd_palindrome", old_test("abba\n", "Odd.\n")).unwrap();
    assert_eq!(t.expected_output, FunctionValue::Bool(ContainerVariant::Single(true)));
    let t = string_bool("odd_palindrome", old_test("abba\n", "Or not.\n")).unwrap();
    assert_eq!(t.expected_output, FunctionValue::Bool(ContainerVariant::Single(false)));
}

#[test]
fn two_lines_of_text() {
    let t = two_strings("permuteDigits", old_test(" 123 \n 321\n", " yes ")).unwrap();
    assert_eq!(t.input.arguments, vec![text("123"), text("321")]);
    assert_eq!(t.expected_output, text("yes"));
    let t = papercuts("paper_cuts", old_test("a\nb", "5")).unwrap();
    assert_eq!(t.input.arguments, vec![text("a"), text("b")]);
    assert_eq!(t.expected_output, int_single(5));
}

#[test]
fn longs_separated_by_a_space() {
    let t = fear_factoring("fear_factor", old_test("1 100\n", "42\n")).unwrap();
    assert_eq!(
        t.input.arguments,
        vec![
            FunctionValue::Long(ContainerVariant::Single(1)),
            FunctionValue::Long(ContainerVariant::Single(100))
        ]
    );
    assert_eq!(t.expected_output, FunctionValue::Long(ContainerVariant::Single(42)));
    assert_eq!(fear_factoring("f", old_test("1 2", "x")), Err(ConvertError::InvalidNumber));
}

#[test]
fn list_of_ints() {
    let t = convert_vec_i32("maxNonconsecutiveSum", old_test("4\n1 -2 3\n 4\n", "7")).unwrap();
    assert_eq!(t.input.arguments, vec![FunctionValue::Int(ContainerVariant::List(vec![1, -2, 3, 4]))]);
    assert_eq!(t.expected_output, int_single(7));
}

#[test]
fn words_of_a_hand() {
    let t = poker_hand("poker_hand", old_test(" AH KD\n2C ", "1")).unwrap();
    assert_eq!(
        t.input.arguments,
        vec![FunctionValue::String(ContainerVariant::List(vec![
            "AH".to_string(),
            "KD".to_string(),
            "2C".to_string()
        ]))]
    );
}

#[test]
fn meeting_numbers() {
    let t = meeting("meeting", old_test("3 2 10\n5 6 7\n", "11")).unwrap();
    assert_eq!(
        t.input.arguments,
        vec![
            int_single(3),
            int_single(2),
            int_single(10),
            FunctionValue::Int(ContainerVariant::List(vec![5, 6, 7]))
        ]
    );
    assert_eq!(meeting("meeting", old_test("3 x 10\n5\n", "11")), Err(ConvertError::InvalidNumber));
    assert_eq!(meeting("meeting", old_test("3 2 10\n5 y\n", "11")), Err(ConvertError::InvalidNumber));
}

#[test]
fn character_grids() {
    let t = replicate("replicate", old_test("2 2\n#.\n.#", "##\n##\n")).unwrap();
    assert_eq!(
        t.input.arguments,
        vec![FunctionValue::Char(ContainerVariant::Grid(vec![vec!['#', '.'], vec!['.', '#']]))]
    );
    assert_eq!(
        t.expected_output,
        FunctionValue::Char(ContainerVariant::Grid(vec![vec!['#', '#'], vec!['#', '#']]))
    );
    assert_eq!(t.input.return_type, FunctionType::Char(ContainerVariantType::Grid));
}

#[test]
fn strings_with_a_count() {
    let t = longest_common_subsequence("lcs", old_test("2 3\n abc \nabd\n", "2")).unwrap();
    assert_eq!(
        t.input.arguments,
        vec![
            int_single(3),
            FunctionValue::String(ContainerVariant::List(vec!["abc".to_string(), "abd".to_string()]))
        ]
    );
    assert_eq!(
        longest_common_subsequence("lcs", old_test("2 k\nabc\n", "2")),
        Err(ConvertError::InvalidNumber)
    );
}

#[test]
fn number_grids() {
    let t = mission_improbable("m", old_test("2 2\n1 2\n3 -4\n", "10")).unwrap();
    assert_eq!(
        t.input.arguments,
        vec![FunctionValue::Long(ContainerVariant::Grid(vec![vec![1, 2], vec![3, -4]]))]
    );
    assert_eq!(t.expected_output, FunctionValue::Long(ContainerVariant::Single(10)));
    let t = rectangles("r", old_test("1 3\n5 6 7", "18")).unwrap();
    assert_eq!(t.input.arguments, vec![FunctionValue::Int(ContainerVariant::Grid(vec![vec![5, 6, 7]]))]);
    assert_eq!(t.input.return_type, FunctionType::Long(ContainerVariantType::Single));
}

#[test]
fn graphs_counted_from_one() {
    let t = kth_subtree("kth_subtree", old_test("3 2\n1 2\n2 3\n", "4")).unwrap();
    assert_eq!(
        t.input.arguments,
        vec![
            FunctionValue::Long(ContainerVariant::Single(2)),
            int_single(3),
            FunctionValue::Int(ContainerVariant::Graph(vec![vec![1], vec![0, 2], vec![1]]))
        ]
    );
    let t = coloring_contention("coloring_contention", old_test("3 2\n1 3\n2 3\n", "2")).unwrap();
    assert_eq!(
        t.input.arguments,
        vec![
            int_single(3),
            FunctionValue::Int(ContainerVariant::Graph(vec![vec![2], vec![2], vec![0, 1]]))
        ]
    );
    let t = tree_vertex_cover("treeVCSize", old_test("2\n1 2\n", "1")).unwrap();
    assert_eq!(
        t.input.arguments,
        vec![FunctionValue::Int(ContainerVariant::Graph(vec![vec![1], vec![0]]))]
    );
    assert_eq!(tree_vertex_cover("t", old_test("2\n1 x\n", "1")), Err(ConvertError::InvalidNumber));
    assert_eq!(tree_vertex_cover("t", old_test("two\n1 2\n", "1")), Err(ConvertError::InvalidNumber));
}

#[test]
fn graph_with_values() {
    let t = maximum_nonadjacent_sum("maxNonadjacentSum", old_test("3\n5\n1\n 7\n0 1\n1 2\n", "12")).unwrap();
    assert_eq!(
        t.input.arguments,
        vec![
            FunctionValue::Int(ContainerVariant::Graph(vec![vec![1], vec![0, 2], vec![1]])),
            FunctionValue::Int(ContainerVariant::List(vec![5, 1, 7]))
        ]
    );
    assert_eq!(
        maximum_nonadjacent_sum("m", old_test("2\n5\nx\n0 1\n", "1")),
        Err(ConvertError::InvalidNumber)
    );
}

#[test]
fn weighted_graph() {
    let t = rainbow_roads("rainbowRoads", old_test("3\n1 2 5\n2 3 6\n", "2\n1\n3\n")).unwrap();
    assert_eq!(
        t.input.arguments,
        vec![
            FunctionValue::Int(ContainerVariant::Graph(vec![vec![1], vec![0, 2], vec![1]])),
            FunctionValue::Int(ContainerVariant::List(vec![5, 6]))
        ]
    );
    assert_eq!(t.expected_output, FunctionValue::Int(ContainerVariant::List(vec![1, 3])));
}

#[test]
fn conversions_say_which_tests_they_read() {
    assert!(acm::convert::int_int_accepts(&old_test(" 4 ", "16")));
    assert!(!acm::convert::int_int_accepts(&old_test("four", "16")));
    assert!(acm::convert::two_strings_accepts(&old_test("ab\ncd", "x")));
    assert!(!acm::convert::two_strings_accepts(&old_test("ab", "x")));
    assert!(acm::convert::meeting_accepts(&old_test("1 2 3\n4 5", "6")));
    assert!(!acm::convert::meeting_accepts(&old_test("1 2\n4 5", "6")));
    // a number that cannot be read is an error, not a malformed test
    assert!(acm::convert::meeting_accepts(&old_test("1 x 3\n4 5", "6")));
    assert!(acm::convert::kth_subtree_accepts(&old_test("2 1\n1 2", "1")));
    assert!(!acm::convert::kth_subtree_accepts(&old_test("2 1\n1 3", "1")));
    assert!(!acm::convert::rainbow_roads_accepts(&old_test("2\n1 2", "x\n1")));
    assert!(acm::convert::rainbow_roads_accepts(&old_test("2\n1 2 7", "x\n1")));
}
