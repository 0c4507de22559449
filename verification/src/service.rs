//! The web service's own rules: which problems a listing shows, and who sees
//! a queued job and where it stands in the queue. Also the plain records the
//! service takes and gives.
use vstd::prelude::*;
use vstd::string::StringExecFns;
use crate::auth::{Auth, AuthError, Claims, ServerError};
use crate::judge::{RunnerResponse, Test, TestResult};
use crate::diagnostics::RunnerError;

verus! {

#[derive(Clone, Copy, Debug, PartialEq, Eq, Structural)]
pub enum Difficulty {
    Easy,
    Medium,
    Hard,
}

/// A problem, as listings give it.
#[derive(Debug, Clone, PartialEq)]
pub struct Problem {
    pub id: i64,
    /// The competition the problem is part of, if any.
    pub competition_id: Option<i64>,
    pub title: String,
    /// Markdown.
    pub description: String,
    /// Code that reads standard input and writes standard output.
    pub runner: String,
    /// The code a solution starts from.
    pub template: String,
    pub visible: bool,
    pub difficulty: Difficulty,
}

/// The order of a problem listing.
#[derive(Clone, Copy, Debug, PartialEq, Eq, Structural)]
pub enum ProblemOrdering {
    Newest,
    Oldest,
}

impl Default for ProblemOrdering {
    fn default() -> (r: Self)
        ensures
            r == ProblemOrdering::Newest,
    {
        ProblemOrdering::Newest
    }
}

/// What a problem listing asks for.
#[derive(Debug, Clone, PartialEq)]
pub struct ProblemOptions {
    pub competition_id: Option<i64>,
    pub show_competition_problems: Option<bool>,
    /// A set of difficulties: 1 easy, 2 medium, 4 hard; 0 or none for all.
    pub difficulty: Option<u8>,
    pub sort_by: ProblemOrdering,
}

/// The pieces joined with `sep` between them.
pub open spec fn join(parts: Seq<Seq<char>>, sep: Seq<char>) -> Seq<char>
    decreases parts.len(),
{
    if parts.len() == 0 {
        Seq::empty()
    } else if parts.len() == 1 {
        parts[0]
    } else {
        join(parts.drop_last(), sep) + sep + parts.last()
    }
}

pub open spec fn difficulty_parts(d: u8) -> Seq<Seq<char>> {
    (if d & 1 != 0 { seq!["difficulty = \"Easy\""@] } else { Seq::empty() }) + (if d & 2 != 0 {
        seq!["difficulty = \"Medium\""@]
    } else {
        Seq::empty()
    }) + (if d & 4 != 0 { seq!["difficulty = \"Hard\""@] } else { Seq::empty() })
}

/// The conditions a listing puts on the problems, in order: visible ones only
/// for anyone but officers; those of the competition asked for; those of the
/// difficulties asked for; and, unless competition problems are asked for,
/// those of no competition when no competition is named.
pub open spec fn problem_conditions(is_officer: bool, o: ProblemOptions) -> Seq<Seq<char>> {
    (if !is_officer { seq!["visible = true"@] } else { Seq::empty() }) + (if o.competition_id is Some {
        seq!["competition_id = ?"@]
    } else {
        Seq::empty()
    }) + (match o.difficulty {
        Some(d) => if d != 0 {
            seq!["("@ + join(difficulty_parts(d), " OR "@) + ")"@]
        } else {
            Seq::empty()
        },
        None => Seq::empty(),
    }) + (if o.show_competition_problems == Some(true) {
        seq!["TRUE"@]
    } else if o.competition_id is None {
        seq!["competition_id IS NULL"@]
    } else {
        Seq::empty()
    })
}

pub open spec fn problems_select() -> Seq<char> {
    "SELECT id, title, description, runner, template, competition_id, visible, runtime_multiplier, difficulty as \"difficulty: Difficulty\" FROM problems WHERE "@
}

pub open spec fn ordering_clause(o: ProblemOrdering) -> Seq<char> {
    match o {
        ProblemOrdering::Newest => " ORDER BY create_dt DESC "@,
        ProblemOrdering::Oldest => " ORDER BY create_dt ASC "@,
    }
}

/// The SQL of a problem listing, with a `?` for each bound value.
pub open spec fn problems_sql(is_officer: bool, o: ProblemOptions) -> Seq<char> {
    problems_select() + join(problem_conditions(is_officer, o), " AND "@) + ordering_clause(o.sort_by)
        + " LIMIT "@ + "?"@ + " OFFSET "@ + "?"@
}

/// The values bound to the `?`s of the listing, in order.
pub open spec fn problems_binds(o: ProblemOptions, count: i64, offset: i64) -> Seq<i64> {
    (match o.competition_id {
        Some(c) => seq![c],
        None => Seq::empty(),
    }) + seq![count, offset]
}

fn join_strings(parts: &Vec<String>, sep: &str) -> (r: String)
    ensures
        r@ == join(parts@.map(|i: int, p: String| p@), sep@),
{
    let ghost views = parts@.map(|i: int, p: String| p@);
    let mut out = String::new();
    let mut i: usize = 0;
    while i < parts.len()
        invariant
            i <= parts@.len(),
            views == parts@.map(|i: int, p: String| p@),
            out@ == join(views.take(i as int), sep@),
        decreases parts@.len() - i,
    {
        proof {
            assert(views.take(i + 1).drop_last() =~= views.take(i as int));
            assert(views.take(i + 1).last() == parts@[i as int]@);
        }
        if i > 0 {
            out.append(sep);
        } else {
            assert(views.take(1) =~= seq![parts@[0]@]);
            assert(out@ =~= Seq::<char>::empty());
        }
        out.append(parts[i].as_str());
        i = i + 1;
    }
    assert(views.take(i as int) =~= views);
    out
}

/// The SQL and the bound values of a listing of problems asked for with the
/// options `o`, `count` problems from `offset`, by a sender who is or is not
/// an officer.
pub fn problems_query(is_officer: bool, o: &ProblemOptions, count: i64, offset: i64) -> (r: (String, Vec<i64>))
    ensures
        r.0@ == problems_sql(is_officer, *o),
        r.1@ == problems_binds(*o, count, offset),
{
    let mut conditions: Vec<String> = Vec::new();
    let mut binds: Vec<i64> = Vec::new();
    if !is_officer {
        conditions.push(String::from_str("visible = true"));
    }
    if let Some(competition_id) = o.competition_id {
        conditions.push(String::from_str("competition_id = ?"));
        binds.push(competition_id);
    }
    let ghost before_difficulty = conditions@;
    if let Some(difficulty) = o.difficulty {
        if difficulty != 0 {
            let mut parts: Vec<String> = Vec::new();
            if difficulty & 1 != 0 {
                parts.push(String::from_str("difficulty = \"Easy\""));
            }
            if difficulty & 2 != 0 {
                parts.push(String::from_str("difficulty = \"Medium\""));
            }
            if difficulty & 4 != 0 {
                parts.push(String::from_str("difficulty = \"Hard\""));
            }
            assert(parts@.map(|i: int, p: String| p@) =~= difficulty_parts(difficulty));
            let mut c = String::from_str("(");
            let joined = join_strings(&parts, " OR ");
            c.append(joined.as_str());
            c.append(")");
            conditions.push(c);
        }
    }
    if o.show_competition_problems == Some(true) {
        conditions.push(String::from_str("TRUE"));
    } else if o.competition_id.is_none() {
        conditions.push(String::from_str("competition_id IS NULL"));
    }
    assert(conditions@.map(|i: int, p: String| p@) =~= problem_conditions(is_officer, *o));
    let mut sql = String::from_str(
        "SELECT id, title, description, runner, template, competition_id, visible, runtime_multiplier, difficulty as \"difficulty: Difficulty\" FROM problems WHERE ",
    );
    let joined = join_strings(&conditions, " AND ");
    sql.append(joined.as_str());
    match o.sort_by {
        ProblemOrdering::Newest => sql.append(" ORDER BY create_dt DESC "),
        ProblemOrdering::Oldest => sql.append(" ORDER BY create_dt ASC "),
    }
    sql.append(" LIMIT ");
    sql.append("?");
    sql.append(" OFFSET ");
    sql.append("?");
    binds.push(count);
    binds.push(offset);
    assert(binds@ =~= problems_binds(*o, count, offset));
    (sql, binds)
}

/* ---------------------------------------------------------------------- */
/* Jobs                                                                   */
/* ---------------------------------------------------------------------- */

/// A job in the queue of the judge, and what came of it. The response is the
/// JSON text of the runner's answer.
#[derive(Debug, Clone, PartialEq)]
pub struct JobStatus {
    pub id: u64,
    pub user_id: i64,
    pub queue_position: u64,
    pub job_type: String,
    pub problem_id: i64,
    pub response: Option<String>,
    pub error: Option<String>,
}

/// The text of an optional string.
pub open spec fn opt_text(s: Option<String>) -> Option<Seq<char>> {
    match s {
        Some(x) => Some(x@),
        None => None,
    }
}

fn copy_text(s: &Option<String>) -> (r: Option<String>)
    ensures
        opt_text(r) == opt_text(*s),
{
    match s {
        Some(x) => Some(x.clone()),
        None => None,
    }
}

/// The position of a new job in the queue: how many jobs come before it, the
/// one being processed included.
pub fn initial_queue_position(job_id: u64, processing_job: u64) -> (r: u64)
    requires
        processing_job <= job_id,
    ensures
        r == job_id - processing_job,
{
    job_id - processing_job
}

/// What the sender of a request learns of the job they asked for: nothing
/// unless logged in; nothing of a job that is not there; nothing of another
/// user's job; else the job, with its queue position brought up to date
/// against the job being processed.
pub fn check_job(job: Option<&JobStatus>, claims: &Claims, processing_job: u64) -> (r: Result<JobStatus, ServerError>)
    ensures
        claims.auth == Auth::LoggedOut ==> r matches Err(ServerError::Auth(AuthError::WrongCredentials)),
        claims.auth != Auth::LoggedOut ==> match job {
            None => r matches Err(ServerError::NotFound),
            Some(j) => if j.user_id != claims.user_id {
                r matches Err(ServerError::Auth(AuthError::Unauthorized))
            } else {
                r matches Ok(v) && v.id == j.id && v.user_id == j.user_id && v.problem_id == j.problem_id
                    && v.job_type@ == j.job_type@ && opt_text(v.response) == opt_text(j.response)
                    && opt_text(v.error) == opt_text(j.error) && v.queue_position == (if j.id >= processing_job {
                    (j.id - processing_job) as u64
                } else {
                    j.queue_position
                })
            },
        },
{
    claims.validate_logged_in()?;
    match job {
        Some(j) => {
            if j.user_id == claims.user_id {
                let queue_position = if j.id >= processing_job {
                    j.id - processing_job
                } else {
                    j.queue_position
                };
                Ok(JobStatus {
                    id: j.id,
                    user_id: j.user_id,
                    queue_position,
                    job_type: j.job_type.clone(),
                    problem_id: j.problem_id,
                    response: copy_text(&j.response),
                    error: copy_text(&j.error),
                })
            } else {
                Err(ServerError::Auth(AuthError::Unauthorized))
            }
        },
        None => Err(ServerError::NotFound),
    }
}

/// A job once the judge is done with it: the text of its answer kept as the
/// response when it ran, the text of its error kept as the error when it
/// failed; the rest of the job is left as it was.
pub fn finish_job(job: JobStatus, outcome: Result<String, String>) -> (r: JobStatus)
    ensures
        r.id == job.id,
        r.user_id == job.user_id,
        r.queue_position == job.queue_position,
        r.job_type@ == job.job_type@,
        r.problem_id == job.problem_id,
        match outcome {
            Ok(text) => opt_text(r.response) == Some(text@) && opt_text(r.error) == opt_text(job.error),
            Err(text) => opt_text(r.error) == Some(text@) && opt_text(r.response) == opt_text(job.response),
        },
{
    let mut job = job;
    match outcome {
        Ok(text) => {
            job.response = Some(text);
        },
        Err(text) => {
            job.error = Some(text);
        },
    }
    job
}

/* ---------------------------------------------------------------------- */
/* Records                                                                */
/* ---------------------------------------------------------------------- */

/// The token a login hands back.
#[derive(Debug, Clone, PartialEq)]
pub struct LoginBody {
    pub token: String,
}

/// A Discord login: the authorization code and where Discord sent the user.
#[derive(Debug, Clone, PartialEq)]
pub struct LoginForm {
    pub code: String,
    pub redirect_uri: String,
}

/// The id of a new competition.
#[derive(Debug, Clone, PartialEq)]
pub struct NewCompletionBody {
    pub id: i64,
}

/// A user on the leaderboard, with the number of problems they solved first.
#[derive(Debug, Clone, PartialEq)]
pub struct LeaderboardItem {
    pub username: String,
    pub name: String,
    pub count: i64,
}

/// The id of an edited meeting.
#[derive(Debug, Clone, PartialEq)]
pub struct EditMeetingBody {
    pub id: i64,
}

/// The id of a new problem.
#[derive(Debug, Clone, PartialEq)]
pub struct NewBody {
    pub id: i64,
}

/// A test result without the test's input and output.
#[derive(Debug, Clone, PartialEq)]
pub struct TestResultNoInput {
    pub id: i64,
    pub index: i64,
    pub success: bool,
    pub hidden: bool,
}

/// A test without its input and output.
#[derive(Debug, Clone, PartialEq)]
pub struct TestNoInput {
    pub id: i64,
    pub index: i64,
    pub hidden: bool,
}

/// A submission of a solution to a problem.
#[derive(Debug, Clone, PartialEq)]
pub struct SubmitForm {
    pub problem_id: i64,
    pub implementation: String,
}

/// A request to change a user's name, user name and rank.
#[derive(Debug, Clone, PartialEq)]
pub struct EditUserForm {
    pub new_username: String,
    pub new_name: String,
    pub new_auth: Auth,
}

/// A test in the text format tests were once kept in.
#[derive(Debug, Clone, PartialEq)]
pub struct OldTest {
    pub id: i64,
    pub test_number: i64,
    pub max_runtime: Option<i64>,
    pub input: String,
    pub expected_output: String,
}

/// The check of the problem editor before a problem is sent: the title, the
/// description, the runner and the template must all be filled in.
pub fn check_problem_form(title: &str, description: &str, runner: &str, template: &str) -> (r: Result<(), String>)
    ensures
        r is Ok <==> (title@.len() > 0 && description@.len() > 0 && runner@.len() > 0 && template@.len() > 0),
        r matches Err(m) ==> m@ == "One or more required fields is empty."@,
{
    if title.is_empty() || description.is_empty() || runner.is_empty() || template.is_empty() {
        return Err(String::from_str("One or more required fields is empty."));
    }
    Ok(())
}

/// What a request for one test of a problem is answered: nothing for a
/// hidden test, the test itself otherwise.
pub fn shown_test(hidden: bool, test: Test) -> (r: Option<Test>)
    ensures
        hidden ==> r is None,
        !hidden ==> r == Some(test),
{
    if hidden {
        None
    } else {
        Some(test)
    }
}

/// How a new problem is released, given the time it is to be published at
/// (if any): it is visible at once, and announced at once, only when no
/// publish time is set. Returns (visible, announced).
pub fn problem_release(publish_time: Option<i64>) -> (r: (bool, bool))
    ensures
        r.0 == (publish_time is None),
        r.1 == (publish_time is None),
{
    let now = publish_time.is_none();
    (now, now)
}

/// What a judged submission is announced as.
#[derive(Clone, Copy, Debug, PartialEq, Eq, Structural)]
pub enum Announcement {
    /// The first successful submission of the problem.
    NewStar,
    /// A later successful submission.
    NewCompletion,
}

/// The announcement of a submission, given whether it succeeded and how many
/// successful submissions the problem has, this one included: none for a
/// failed one.
pub fn announcement(success: bool, successful_submissions: i64) -> (r: Option<Announcement>)
    ensures
        !success ==> r is None,
        success && successful_submissions == 1 ==> r == Some(Announcement::NewStar),
        success && successful_submissions != 1 ==> r == Some(Announcement::NewCompletion),
{
    if !success {
        None
    } else if successful_submissions == 1 {
        Some(Announcement::NewStar)
    } else {
        Some(Announcement::NewCompletion)
    }
}

/// What is recorded of a submission from the judge's reply: whether it
/// passed, the fuel it used, the error it failed with and the test results;
/// a failed run records no fuel and no results.
pub fn submission_outcome(reply: Result<RunnerResponse, RunnerError>) -> (r: (
    bool,
    i64,
    Option<RunnerError>,
    Vec<TestResult>,
))
    ensures
        match reply {
            Ok(res) => r.0 == res.passed && r.1 == res.runtime && r.2 is None && r.3 == res.tests,
            Err(e) => !r.0 && r.1 == 0 && r.2 == Some(e) && r.3@.len() == 0,
        },
{
    match reply {
        Ok(res) => (res.passed, res.runtime, None, res.tests),
        Err(err) => (false, 0, Some(err), Vec::new()),
    }
}

} // verus!
