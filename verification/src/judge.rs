//! Judging a submission: the result of each test, the fuel limit, and the
//! report that collects the results, failed tests first.
use vstd::prelude::*;
use vstd::string::StringExecFns;
use vstd::string::StrSliceExecFns;
use crate::function::{FunctionValue, WasmFunctionCall, spec_values_match};
use crate::diagnostics::RunnerError;
use crate::bytes::{from_utf8_lossy, utf8_lossy};

verus! {

/// The most fuel a run may use when its test sets no limit.
pub const MAX_FUEL: i64 = 281_474_976_710_656;

/// A test of a problem: a call and the output it must give.
#[derive(Debug, Clone, PartialEq)]
pub struct Test {
    pub id: i64,
    pub index: i64,
    pub max_fuel: Option<i64>,
    pub input: WasmFunctionCall,
    pub expected_output: FunctionValue,
}

/// The outcome of one test.
#[derive(Debug, Clone, PartialEq)]
pub struct TestResult {
    pub id: i64,
    pub index: i64,
    pub success: bool,
    pub input: WasmFunctionCall,
    pub expected_output: FunctionValue,
    pub output: Option<FunctionValue>,
    pub fuel: i64,
    pub error: Option<String>,
    pub max_fuel: Option<i64>,
    pub hidden: bool,
}

impl TestResult {
    /// Whether the result is shown with its details (input, expected and
    /// actual output, fuel and fuel limit) or only with its id, index,
    /// success and error: a hidden test's details are not shown.
    pub fn shows_details(&self) -> (r: bool)
        ensures
            r == !self.hidden,
    {
        !self.hidden
    }
}

/// The outcome of a submission: the results of its tests, whether all passed,
/// and the fuel they used in all.
#[derive(Debug, Clone, PartialEq)]
pub struct RunnerResponse {
    pub tests: Vec<TestResult>,
    pub passed: bool,
    pub runtime: i64,
}

/// The outcome of a run on an input of the user's choosing, with what the
/// submission printed.
#[derive(Debug, Clone, PartialEq)]
pub struct CustomInputResponse {
    pub result: TestResult,
    pub output: String,
}

/// Whether a test result is hidden when it is not said otherwise.
pub fn default_hidden() -> (r: bool)
    ensures
        r == false,
{
    false
}

/// Whether `output` counts as the expected output: as `spec_values_match`
/// says, and, for two single `double`s, as `close` says (whether they differ
/// by less than 1e-9).
pub open spec fn output_matches(output: FunctionValue, expected: FunctionValue, close: bool) -> bool {
    match spec_values_match(output, expected) {
        Some(b) => b,
        None => close,
    }
}

impl Test {
    /// The result of the test when the call returned `output` using `fuel`.
    pub fn make_result(self, output: FunctionValue, fuel: u64, close: bool) -> (r: TestResult)
        ensures
            r.id == self.id,
            r.index == self.index,
            r.success == output_matches(output, self.expected_output, close),
            r.input == self.input,
            r.expected_output == self.expected_output,
            r.output == Some(output),
            r.error is None,
            r.max_fuel == self.max_fuel,
            r.fuel == fuel as i64,
            !r.hidden,
    {
        let success = match output.values_match(&self.expected_output) {
            Some(b) => b,
            None => close,
        };
        TestResult {
            id: self.id,
            index: self.index,
            success,
            input: self.input,
            expected_output: self.expected_output,
            output: Some(output),
            error: None,
            max_fuel: self.max_fuel,
            fuel: #[verifier::truncate] (fuel as i64),
            hidden: false,
        }
    }

    /// The result of the test when the call failed with `error` after using
    /// `fuel`.
    pub fn make_result_error(self, error: String, fuel: u64) -> (r: TestResult)
        ensures
            r.id == self.id,
            r.index == self.index,
            !r.success,
            r.input == self.input,
            r.expected_output == self.expected_output,
            r.output is None,
            r.error == Some(error),
            r.max_fuel == self.max_fuel,
            r.fuel == fuel as i64,
            !r.hidden,
    {
        TestResult {
            id: self.id,
            index: self.index,
            success: false,
            input: self.input,
            expected_output: self.expected_output,
            output: None,
            error: Some(error),
            max_fuel: self.max_fuel,
            fuel: #[verifier::truncate] (fuel as i64),
            hidden: false,
        }
    }
}

/// The fuel a run of the test may use: its limit times `padding` (how many
/// times slower than the reference a submission may be), or no limit.
pub open spec fn spec_fuel_budget(test: Test, padding: i64) -> Option<i64> {
    match test.max_fuel {
        Some(f) => Some((f * padding) as i64),
        None => None,
    }
}

pub fn fuel_budget(test: &Test, padding: i64) -> (r: Option<i64>)
    requires
        test.max_fuel matches Some(f) ==> i64::MIN <= f * padding <= i64::MAX,
    ensures
        r == spec_fuel_budget(*test, padding),
{
    match test.max_fuel {
        Some(f) => Some(f * padding),
        None => None,
    }
}

/// The message of a test that used more fuel than it may.
pub open spec fn fuel_exceeded_message() -> Seq<char> {
    "Fuel limit exceeded"@
}

/// The fuel a test may use, as the run is judged: its own limit, or
/// `MAX_FUEL`.
pub open spec fn fuel_limit(max_fuel: Option<i64>) -> u64 {
    match max_fuel {
        Some(f) => f as u64,
        None => MAX_FUEL as u64,
    }
}

/// Judges a run of `test` given what the run gave: the output, what the
/// submission printed and the fuel it used; or the error it failed with.
/// `close` says, for a single `double`, whether it is within 1e-9 of the
/// expected one.
///
/// A run that used more fuel than the test allows fails with "Fuel limit
/// exceeded". A run that failed, at run time or otherwise, gives back its
/// error.
pub fn judge_run(
    test: Test,
    outcome: Result<(FunctionValue, String, u64), RunnerError>,
    close: bool,
) -> (r: Result<(TestResult, String), RunnerError>)
    ensures
        match outcome {
            Ok((value, printed, fuel)) => r matches Ok((res, out)) && out@ == printed@
                && res.id == test.id && res.index == test.index
                && res.input == test.input && res.expected_output == test.expected_output
                && res.output == Some(value) && res.max_fuel == test.max_fuel
                && res.fuel == fuel as i64 && !res.hidden
                && (if fuel > fuel_limit(test.max_fuel) {
                    !res.success && (res.error matches Some(e) && e@ == fuel_exceeded_message())
                } else {
                    res.success == output_matches(value, test.expected_output, close) && res.error is None
                }),
            Err(e) => r == Err::<(TestResult, String), RunnerError>(e),
        },
{
    match outcome {
        Ok((value, printed, fuel)) => {
            let limit: u64 = match test.max_fuel {
                Some(f) => #[verifier::truncate] (f as u64),
                None => MAX_FUEL as u64,
            };
            let mut result = test.make_result(value, fuel, close);
            if fuel > limit {
                result.success = false;
                result.error = Some(String::from_str("Fuel limit exceeded"));
            }
            Ok((result, printed))
        },
        Err(e) => Err(e),
    }
}

/// The fuel a run is given: its budget, or `MAX_FUEL` when it has none.
pub fn run_fuel(budget: Option<i64>) -> (r: u64)
    ensures
        r == fuel_limit(budget),
{
    match budget {
        Some(f) => #[verifier::truncate] (f as u64),
        None => MAX_FUEL as u64,
    }
}

/// What a run gives: the call's result and the fuel it used, with what the
/// module printed (decoded as UTF-8, invalid sequences replaced); or, when the
/// call failed, a runtime error with the message of the failure's root cause.
pub fn run_outcome(call: Result<(FunctionValue, u64), String>, printed: &[u8]) -> (r: Result<
    (FunctionValue, String, u64),
    RunnerError,
>)
    ensures
        match call {
            Ok((v, f)) => r matches Ok((v2, out, f2)) && v2 == v && f2 == f && out@ == utf8_lossy(printed@),
            Err(m) => r matches Err(RunnerError::RuntimeError { message }) && message@ == m@,
        },
{
    let output = from_utf8_lossy(printed);
    match call {
        Ok((v, f)) => Ok((v, output, f)),
        Err(message) => Err(RunnerError::RuntimeError { message }),
    }
}

/* ---------------------------------------------------------------------- */
/* Collecting results                                                     */
/* ---------------------------------------------------------------------- */

/// The results are in increasing order of their test's index, each index
/// once.
pub open spec fn sorted_by_index(s: Seq<TestResult>) -> bool {
    forall|i: int, j: int| 0 <= i < j < s.len() ==> (#[trigger] s[i]).index < (#[trigger] s[j]).index
}

/// The results of the tests with an index below `k`.
pub open spec fn count_below(s: Seq<TestResult>, k: i64) -> int
    decreases s.len(),
{
    if s.len() == 0 {
        0
    } else {
        count_below(s.drop_last(), k) + if s.last().index < k { 1int } else { 0int }
    }
}

/// `s` after adding `t`, as a set ordered by test index adds it: in its place
/// by index, unless a result of the same index is already there.
pub open spec fn insert_by_index(s: Seq<TestResult>, t: TestResult) -> Seq<TestResult> {
    if exists|i: int| 0 <= i < s.len() && (#[trigger] s[i]).index == t.index {
        s
    } else {
        s.insert(count_below(s, t.index), t)
    }
}

proof fn lemma_count_below(s: Seq<TestResult>, k: i64, p: int)
    requires
        sorted_by_index(s),
        0 <= p <= s.len(),
        forall|i: int| 0 <= i < p ==> (#[trigger] s[i]).index < k,
        forall|i: int| p <= i < s.len() ==> (#[trigger] s[i]).index >= k,
    ensures
        count_below(s, k) == p,
    decreases s.len(),
{
    if s.len() > 0 {
        let q = s.drop_last();
        if p == s.len() {
            lemma_count_below(q, k, p - 1);
        } else {
            lemma_count_below(q, k, p);
        }
    }
}

/// Adds `t` to `v` (see `insert_by_index`).
fn insert_sorted(v: &mut Vec<TestResult>, t: TestResult)
    requires
        sorted_by_index(old(v)@),
    ensures
        final(v)@ == insert_by_index(old(v)@, t),
        sorted_by_index(final(v)@),
{
    let mut p: usize = 0;
    while p < v.len() && v[p].index < t.index
        invariant
            p <= v@.len(),
            forall|i: int| 0 <= i < p ==> (#[trigger] v@[i]).index < t.index,
        decreases v@.len() - p,
    {
        p = p + 1;
    }
    if p < v.len() && v[p].index == t.index {
        return;
    }
    proof {
        assert forall|i: int| p <= i < v@.len() implies (#[trigger] v@[i]).index >= t.index by {
            if i > p {
                assert(v@[p as int].index < v@[i].index);
            }
        }
        lemma_count_below(v@, t.index, p as int);
        assert(!exists|i: int| 0 <= i < v@.len() && (#[trigger] v@[i]).index == t.index) by {
            if exists|i: int| 0 <= i < v@.len() && (#[trigger] v@[i]).index == t.index {
                let i = choose|i: int| 0 <= i < v@.len() && (#[trigger] v@[i]).index == t.index;
                if i > p {
                    assert(v@[p as int].index < v@[i].index);
                }
            }
        }
    }
    let ghost before = v@;
    v.insert(p, t);
    assert forall|i: int, j: int| 0 <= i < j < v@.len() implies (#[trigger] v@[i]).index < (#[trigger] v@[j]).index by {
        if j < p {
            assert(v@[i] == before[i] && v@[j] == before[j]);
        } else if j == p {
            assert(v@[i] == before[i]);
        } else if i < p {
            assert(v@[i] == before[i] && v@[j] == before[j - 1]);
        } else if i == p {
            assert(v@[j] == before[j - 1]);
        } else {
            assert(v@[i] == before[i - 1] && v@[j] == before[j - 1]);
        }
    }
}

/// The results of a submission's tests as they come in: failed and passed
/// ones apart, each in order of test index, and the fuel used in all.
pub struct TestResults {
    failed_tests: Vec<TestResult>,
    passed_tests: Vec<TestResult>,
    runtime: i64,
}

impl TestResults {
    pub closed spec fn failed(&self) -> Seq<TestResult> {
        self.failed_tests@
    }

    pub closed spec fn passed(&self) -> Seq<TestResult> {
        self.passed_tests@
    }

    /// The fuel used in all.
    pub closed spec fn runtime_of(&self) -> i64 {
        self.runtime
    }

    pub closed spec fn well_formed(&self) -> bool {
        &&& sorted_by_index(self.failed())
        &&& sorted_by_index(self.passed())
        &&& forall|i: int| 0 <= i < self.failed().len() ==> !(#[trigger] self.failed()[i]).success
        &&& forall|i: int| 0 <= i < self.passed().len() ==> (#[trigger] self.passed()[i]).success
    }

    pub fn new() -> (r: Self)
        ensures
            r.well_formed(),
            r.failed().len() == 0,
            r.passed().len() == 0,
            r.runtime_of() == 0,
    {
        TestResults { failed_tests: Vec::new(), passed_tests: Vec::new(), runtime: 0 }
    }

    /// Adds a result to the passed or the failed ones; a second result for
    /// the same test index is dropped.
    pub fn insert(&mut self, test: TestResult)
        requires
            old(self).well_formed(),
        ensures
            final(self).well_formed(),
            final(self).runtime_of() == old(self).runtime_of(),
            test.success ==> final(self).passed() == insert_by_index(old(self).passed(), test)
                && final(self).failed() == old(self).failed(),
            !test.success ==> final(self).failed() == insert_by_index(old(self).failed(), test)
                && final(self).passed() == old(self).passed(),
    {
        let ghost t = test;
        if test.success {
            insert_sorted(&mut self.passed_tests, test);
            proof {
                lemma_insert_keeps(old(self).passed(), t, true);
            }
        } else {
            insert_sorted(&mut self.failed_tests, test);
            proof {
                lemma_insert_keeps(old(self).failed(), t, false);
            }
        }
    }

    /// Records the fuel used in all.
    pub fn set_runtime(&mut self, runtime: i64)
        requires
            old(self).well_formed(),
        ensures
            final(self).well_formed(),
            final(self).runtime_of() == runtime,
            final(self).failed() == old(self).failed(),
            final(self).passed() == old(self).passed(),
    {
        self.runtime = runtime;
    }

    /// The report: the failed results, then the passed ones; the submission
    /// passed when none failed.
    pub fn into_response(self) -> (r: RunnerResponse)
        ensures
            r.tests@ == self.failed() + self.passed(),
            r.passed == (self.failed().len() == 0),
            r.runtime == self.runtime_of(),
    {
        let passed = self.failed_tests.len() == 0;
        let mut tests = self.failed_tests;
        let mut rest = self.passed_tests;
        tests.append(&mut rest);
        RunnerResponse { tests, runtime: self.runtime, passed }
    }
}

proof fn lemma_insert_keeps(s: Seq<TestResult>, t: TestResult, flag: bool)
    requires
        forall|i: int| 0 <= i < s.len() ==> (#[trigger] s[i]).success == flag,
        t.success == flag,
    ensures
        forall|i: int| 0 <= i < insert_by_index(s, t).len() ==> (#[trigger] insert_by_index(s, t)[i]).success
            == flag,
{
    let r = insert_by_index(s, t);
    if !exists|i: int| 0 <= i < s.len() && (#[trigger] s[i]).index == t.index {
        assert forall|i: int| 0 <= i < r.len() implies (#[trigger] r[i]).success == flag by {
            let p = count_below(s, t.index);
            lemma_count_below_bound(s, t.index);
            if i < p {
                assert(r[i] == s[i]);
            } else if i > p {
                assert(r[i] == s[i - 1]);
            }
        }
    }
}

pub(crate) proof fn lemma_count_below_bound(s: Seq<TestResult>, k: i64)
    ensures
        0 <= count_below(s, k) <= s.len(),
    decreases s.len(),
{
    if s.len() > 0 {
        lemma_count_below_bound(s.drop_last(), k);
    }
}

/// The fuel the results used in all.
pub open spec fn total_fuel(s: Seq<TestResult>) -> int
    decreases s.len(),
{
    if s.len() == 0 {
        0
    } else {
        total_fuel(s.drop_last()) + s.last().fuel
    }
}

/// The fuel used stays within `i64` however far the sum has got.
pub open spec fn fuel_sums_fit(s: Seq<TestResult>) -> bool {
    forall|k: int| 0 <= k <= s.len() ==> i64::MIN <= #[trigger] total_fuel(s.take(k)) <= i64::MAX
}

/// The report of a submission whose tests gave `tests`: each result added in
/// turn, and the fuel they used in all.
pub fn summarize(tests: Vec<TestResult>) -> (r: RunnerResponse)
    requires
        fuel_sums_fit(tests@),
    ensures
        r.runtime == total_fuel(tests@),
        r.passed == (forall|i: int| 0 <= i < tests@.len() ==> (#[trigger] tests@[i]).success),
        r.tests@ == collected(tests@, false) + collected(tests@, true),
{
    let mut results = TestResults::new();
    let mut total: i64 = 0;
    let ghost all = tests@;
    let n = tests.len();
    let mut i: usize = 0;
    let mut rest = tests;
    assert(total_fuel(all.take(0)) == 0) by {
        assert(all.take(0) =~= Seq::<TestResult>::empty());
    }
    while rest.len() > 0
        invariant
            all.len() == i + rest@.len(),
            n == all.len(),
            rest@ == all.skip(i as int),
            fuel_sums_fit(all),
            total == total_fuel(all.take(i as int)),
            results.well_formed(),
            results.runtime == 0,
            results.failed() == collected(all.take(i as int), false),
            results.passed() == collected(all.take(i as int), true),
            (results.failed().len() == 0) == (forall|j: int| 0 <= j < i ==> (#[trigger] all[j]).success),
        decreases rest@.len(),
    {
        let test = rest.remove(0);
        assert(test == all[i as int]);
        assert(rest@ =~= all.skip(i + 1));
        assert(all.take(i + 1).drop_last() =~= all.take(i as int));
        assert(i64::MIN <= total_fuel(all.take(i + 1)) <= i64::MAX);
        total = total + test.fuel;
        let ghost before = results;
        results.insert(test);
        proof {
            lemma_collected_step(all, i as int);
            if results.failed().len() == 0 {
                assert(before.failed().len() == 0);
                assert(all[i as int].success) by {
                    if !all[i as int].success {
                        lemma_insert_nonempty(before.failed(), all[i as int]);
                    }
                }
            } else {
                if before.failed().len() == 0 {
                    assert(!all[i as int].success);
                }
            }
        }
        i = i + 1;
    }
    assert(all.take(i as int) =~= all);
    results.runtime = total;
    results.into_response()
}

/// The results of `s` that passed (or failed), each index once, in order of
/// index, as adding them in turn gives them.
pub open spec fn collected(s: Seq<TestResult>, success: bool) -> Seq<TestResult>
    decreases s.len(),
{
    if s.len() == 0 {
        Seq::empty()
    } else {
        let before = collected(s.drop_last(), success);
        if s.last().success == success {
            insert_by_index(before, s.last())
        } else {
            before
        }
    }
}

proof fn lemma_collected_step(all: Seq<TestResult>, i: int)
    requires
        0 <= i < all.len(),
    ensures
        collected(all.take(i + 1), true) == (if all[i].success {
            insert_by_index(collected(all.take(i), true), all[i])
        } else {
            collected(all.take(i), true)
        }),
        collected(all.take(i + 1), false) == (if !all[i].success {
            insert_by_index(collected(all.take(i), false), all[i])
        } else {
            collected(all.take(i), false)
        }),
{
    assert(all.take(i + 1).drop_last() =~= all.take(i));
}

proof fn lemma_insert_nonempty(s: Seq<TestResult>, t: TestResult)
    ensures
        insert_by_index(s, t).len() > 0,
{
}

/* ---------------------------------------------------------------------- */
/* The order of a report                                                  */
/* ---------------------------------------------------------------------- */

proof fn lemma_count_below_split(s: Seq<TestResult>, k: i64)
    requires
        sorted_by_index(s),
    ensures
        0 <= count_below(s, k) <= s.len(),
        forall|i: int| 0 <= i < count_below(s, k) ==> (#[trigger] s[i]).index < k,
        forall|i: int| count_below(s, k) <= i < s.len() ==> (#[trigger] s[i]).index >= k,
    decreases s.len(),
{
    if s.len() > 0 {
        let q = s.drop_last();
        assert(sorted_by_index(q)) by {
            assert forall|i: int, j: int| 0 <= i < j < q.len() implies (#[trigger] q[i]).index < (#[trigger] q[j]).index by {
                assert(q[i] == s[i] && q[j] == s[j]);
            }
        }
        lemma_count_below_split(q, k);
        let c = count_below(q, k);
        if s.last().index < k {
            if c < q.len() {
                assert(q[c] == s[c]);
                assert(s[c].index < s[s.len() - 1].index);
            }
        }
        assert forall|i: int| 0 <= i < count_below(s, k) implies (#[trigger] s[i]).index < k by {
            if i < q.len() {
                assert(q[i] == s[i]);
            }
        }
        assert forall|i: int| count_below(s, k) <= i < s.len() implies (#[trigger] s[i]).index >= k by {
            if i < q.len() {
                assert(q[i] == s[i]);
            }
        }
    }
}

proof fn lemma_insert_sorted(s: Seq<TestResult>, t: TestResult)
    requires
        sorted_by_index(s),
    ensures
        sorted_by_index(insert_by_index(s, t)),
{
    if !exists|i: int| 0 <= i < s.len() && (#[trigger] s[i]).index == t.index {
        lemma_count_below_split(s, t.index);
        let p = count_below(s, t.index);
        let r = s.insert(p, t);
        assert forall|i: int, j: int| 0 <= i < j < r.len() implies (#[trigger] r[i]).index < (#[trigger] r[j]).index by {
            if j < p {
                assert(r[i] == s[i] && r[j] == s[j]);
            } else if j == p {
                assert(r[i] == s[i]);
            } else if i < p {
                assert(r[i] == s[i] && r[j] == s[j - 1]);
                assert(s[j - 1].index != t.index);
            } else if i == p {
                assert(r[j] == s[j - 1]);
                assert(s[j - 1].index != t.index);
            } else {
                assert(r[i] == s[i - 1] && r[j] == s[j - 1]);
            }
        }
    }
}

/// The report of a submission (`summarize`) lists the failed results, then
/// the passed ones, each group in increasing order of test index with each
/// index once.
pub proof fn lemma_report_order(tests: Seq<TestResult>)
    ensures
        sorted_by_index(collected(tests, false)),
        sorted_by_index(collected(tests, true)),
        forall|i: int| 0 <= i < collected(tests, false).len() ==> !(#[trigger] collected(tests, false)[i]).success,
        forall|i: int| 0 <= i < collected(tests, true).len() ==> (#[trigger] collected(tests, true)[i]).success,
    decreases tests.len(),
{
    if tests.len() > 0 {
        let q = tests.drop_last();
        lemma_report_order(q);
        let t = tests.last();
        if t.success {
            lemma_insert_sorted(collected(q, true), t);
            lemma_insert_keeps(collected(q, true), t, true);
        } else {
            lemma_insert_sorted(collected(q, false), t);
            lemma_insert_keeps(collected(q, false), t, false);
        }
    }
}

} // verus!
