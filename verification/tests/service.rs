use acm::auth::{
    login_step, LoginAction, LoginStage, User, authorize_team_leave, authorize_user_edit, fallback_username, logged_out_claims, sanitize_username, Auth, AuthError,
    Claims, FormValidationError, ServerError, UserError,
};
use acm::diagnostics::RunnerError;
use acm::service::{
    announcement, check_job, finish_job, Announcement, initial_queue_position, problems_query, JobStatus, ProblemOptions, ProblemOrdering,
};

fn claims(user_id: i64, auth: Auth) -> Claims {
    Claims { user_id, auth, exp: 0 }
}

const SELECT: &str = "SELECT id, title, description, runner, template, competition_id, visible, runtime_multiplier, difficulty as \"difficulty: Difficulty\" FROM problems WHERE ";

#[test]
fn officers_and_admins_are_officers() {
    assert!(claims(1, Auth::Admin).validate_officer().is_ok());
    assert!(claims(1, Auth::Officer).validate_officer().is_ok());
    assert_eq!(
        claims(1, Auth::Member).validate_officer(),
        Err(ServerError::Auth(AuthError::WrongCredentials))
    );
    assert!(claims(1, Auth::LoggedOut).validate_officer().is_err());
}

#[test]
fn logged_in_unless_logged_out() {
    assert!(claims(1, Auth::Member).validate_logged_in().is_ok());
    assert!(claims(1, Auth::Admin).validate_logged_in().is_ok());
    assert_eq!(
        logged_out_claims().validate_logged_in(),
        Err(ServerError::Auth(AuthError::WrongCredentials))
    );
    assert_eq!(logged_out_claims().user_id, -1);
}

#[test]
fn default_rank_is_member() {
    assert_eq!(Auth::default(), Auth::Member);
}

#[test]
fn user_edit_rules() {
    assert_eq!(authorize_user_edit(&claims(1, Auth::Admin), 7, Auth::Officer), Ok(Auth::Officer));
    assert_eq!(authorize_user_edit(&claims(7, Auth::Member), 7, Auth::Admin), Ok(Auth::Member));
    assert_eq!(
        authorize_user_edit(&claims(6, Auth::Officer), 7, Auth::Member),
        Err(ServerError::Auth(AuthError::Unauthorized))
    );
    assert_eq!(
        authorize_user_edit(&logged_out_claims(), -1, Auth::Admin),
        Err(ServerError::Auth(AuthError::WrongCredentials))
    );
}

#[test]
fn error_status_codes() {
    assert_eq!(ServerError::Auth(AuthError::WrongCredentials).status_code(), 401);
    assert_eq!(ServerError::Auth(AuthError::TokenCreation).status_code(), 500);
    assert_eq!(ServerError::Auth(AuthError::InvalidToken).status_code(), 400);
    assert_eq!(ServerError::Auth(AuthError::Unauthorized).status_code(), 401);
    assert_eq!(ServerError::Validation(FormValidationError::InvalidField("x".to_string())).status_code(), 400);
    assert_eq!(ServerError::User(UserError::NotFound("bob".to_string())).status_code(), 404);
    assert_eq!(ServerError::User(UserError::InternalError).status_code(), 500);
    assert_eq!(
        ServerError::Runner(RunnerError::TimeoutError { message: String::new() }).status_code(),
        422
    );
    assert_eq!(ServerError::InternalError.status_code(), 500);
    assert_eq!(ServerError::NotFound.status_code(), 404);
    assert_eq!(ServerError::PermissionDenied.status_code(), 403);
}

#[test]
fn error_messages() {
    assert_eq!(
        ServerError::Auth(AuthError::WrongCredentials).response_message(),
        Some("You must be logged in to do that.".to_string())
    );
    assert_eq!(
        ServerError::User(UserError::NotFound("bob".to_string())).response_message(),
        Some("User bob not found".to_string())
    );
    assert_eq!(
        ServerError::Validation(FormValidationError::InvalidField("title".to_string())).response_message(),
        Some("Field 'title' is invalid".to_string())
    );
    assert_eq!(
        ServerError::NotFound.response_message(),
        Some("The requested data was not found".to_string())
    );
    assert_eq!(
        ServerError::Runner(RunnerError::TimeoutError { message: String::new() }).response_message(),
        None
    );
    assert_eq!(AuthError::InvalidToken.message(), "Invalid token.");
}

#[test]
fn usernames() {
    assert_eq!(sanitize_username("The Real\tDeal\u{3000}"), "TheRealDeal");
    assert_eq!(sanitize_username("plain"), "plain");
    assert_eq!(fallback_username("TheRealDeal", "0042"), "TheRealDeal_0042");
}

fn options(
    competition_id: Option<i64>,
    show: Option<bool>,
    difficulty: Option<u8>,
    sort_by: ProblemOrdering,
) -> ProblemOptions {
    ProblemOptions { competition_id, show_competition_problems: show, difficulty, sort_by }
}

#[test]
fn problem_listing_for_members() {
    let (sql, binds) = problems_query(false, &options(None, None, None, ProblemOrdering::Newest), 10, 0);
    assert_eq!(
        sql,
        format!("{SELECT}visible = true AND competition_id IS NULL ORDER BY create_dt DESC  LIMIT ? OFFSET ?")
    );
    assert_eq!(binds, vec![10, 0]);
}

#[test]
fn problem_listing_with_filters() {
    let (sql, binds) =
        problems_query(true, &options(Some(3), None, Some(5), ProblemOrdering::Oldest), 20, 40);
    assert_eq!(
        sql,
        format!("{SELECT}competition_id = ? AND (difficulty = \"Easy\" OR difficulty = \"Hard\") ORDER BY create_dt ASC  LIMIT ? OFFSET ?")
    );
    assert_eq!(binds, vec![3, 20, 40]);
    let (sql, binds) =
        problems_query(true, &options(None, Some(true), Some(0), ProblemOrdering::Newest), 10, 0);
    assert_eq!(sql, format!("{SELECT}TRUE ORDER BY create_dt DESC  LIMIT ? OFFSET ?"));
    assert_eq!(binds, vec![10, 0]);
}

fn job(id: u64, user_id: i64) -> JobStatus {
    JobStatus {
        id,
        user_id,
        queue_position: 9,
        job_type: "submit".to_string(),
        problem_id: 4,
        response: None,
        error: Some("late".to_string()),
    }
}

#[test]
fn jobs_are_seen_by_their_owner_only() {
    let j = job(10, 5);
    let seen = check_job(Some(&j), &claims(5, Auth::Member), 7).unwrap();
    assert_eq!(seen.queue_position, 3);
    assert_eq!(seen.error, Some("late".to_string()));
    let done = check_job(Some(&j), &claims(5, Auth::Member), 12).unwrap();
    assert_eq!(done.queue_position, 9);
    assert_eq!(
        check_job(Some(&j), &claims(6, Auth::Admin), 7),
        Err(ServerError::Auth(AuthError::Unauthorized))
    );
    assert_eq!(check_job(None, &claims(5, Auth::Member), 7), Err(ServerError::NotFound));
    assert_eq!(
        check_job(Some(&j), &logged_out_claims(), 7),
        Err(ServerError::Auth(AuthError::WrongCredentials))
    );
}

#[test]
fn queue_position_of_new_job() {
    assert_eq!(initial_queue_position(12, 10), 2);
}

#[test]
fn claims_of_a_login() {
    let user = acm::auth::User {
        id: 4,
        name: "n".to_string(),
        username: "u".to_string(),
        discord_id: "d".to_string(),
        auth: Auth::Officer,
    };
    let c = acm::auth::claims_for(&user);
    assert_eq!(c, Claims { user_id: 4, auth: Auth::Officer, exp: usize::MAX });
}

#[test]
fn signup_passwords_must_match() {
    assert_eq!(acm::auth::check_signup_passwords("hunter22", "hunter22"), Ok(()));
    assert_eq!(
        acm::auth::check_signup_passwords("hunter22", "hunter23"),
        Err("Passwords do not match".to_string())
    );
}

#[test]
fn problem_form_needs_every_field() {
    assert_eq!(acm::service::check_problem_form("t", "d", "r", "x"), Ok(()));
    assert_eq!(
        acm::service::check_problem_form("t", "", "r", "x"),
        Err("One or more required fields is empty.".to_string())
    );
}

#[test]
fn announcements_of_submissions() {
    assert_eq!(announcement(true, 1), Some(Announcement::NewStar));
    assert_eq!(announcement(true, 3), Some(Announcement::NewCompletion));
    assert_eq!(announcement(false, 1), None);
}

#[test]
fn outcome_of_a_failed_submission() {
    let e = RunnerError::TimeoutError { message: "late".to_string() };
    let (passed, runtime, error, tests) = acm::service::submission_outcome(Err(e.clone()));
    assert!(!passed);
    assert_eq!(runtime, 0);
    assert_eq!(error, Some(e));
    assert!(tests.is_empty());
    let ok = acm::judge::RunnerResponse { tests: vec![], passed: true, runtime: 9 };
    let (passed, runtime, error, _) = acm::service::submission_outcome(Ok(ok));
    assert!(passed);
    assert_eq!(runtime, 9);
    assert_eq!(error, None);
}

#[test]
fn leaving_a_team() {
    assert_eq!(
        authorize_team_leave(&claims(-1, Auth::LoggedOut), true),
        Err(ServerError::Auth(AuthError::WrongCredentials))
    );
    assert_eq!(authorize_team_leave(&claims(2, Auth::Officer), false), Ok(()));
    assert_eq!(authorize_team_leave(&claims(3, Auth::Member), true), Ok(()));
    assert_eq!(
        authorize_team_leave(&claims(3, Auth::Member), false),
        Err(ServerError::PermissionDenied)
    );
}

#[test]
fn finished_jobs_keep_their_answer() {
    let job = JobStatus {
        id: 4,
        user_id: 7,
        queue_position: 2,
        job_type: "submit".to_string(),
        problem_id: 11,
        response: None,
        error: None,
    };
    let done = finish_job(job.clone(), Ok("{}".to_string()));
    assert_eq!(done.response, Some("{}".to_string()));
    assert_eq!(done.error, None);
    assert_eq!(done.queue_position, 2);
    let failed = finish_job(job, Err("Internal error".to_string()));
    assert_eq!(failed.response, None);
    assert_eq!(failed.error, Some("Internal error".to_string()));
}

#[test]
fn problems_with_a_publish_time_wait() {
    assert_eq!(acm::service::problem_release(None), (true, true));
    assert_eq!(acm::service::problem_release(Some(1_700_000_000)), (false, false));
}

#[test]
fn login_finds_or_makes_the_user() {
    let user = User {
        id: 3,
        name: "a b".to_string(),
        username: "ab".to_string(),
        discord_id: "99".to_string(),
        auth: Auth::Member,
    };
    assert_eq!(
        login_step(LoginStage::Lookup, Some(user), "a b", "0001"),
        LoginAction::LogIn(Claims { user_id: 3, auth: Auth::Member, exp: usize::MAX })
    );
    assert_eq!(
        login_step(LoginStage::Lookup, None, "a b", "0001"),
        LoginAction::Insert { next: LoginStage::PlainInserted, name: "ab".to_string(), username: "ab".to_string() }
    );
    assert_eq!(
        login_step(LoginStage::PlainInserted, None, "a b", "0001"),
        LoginAction::Insert {
            next: LoginStage::FallbackInserted,
            name: "ab".to_string(),
            username: "ab_0001".to_string()
        }
    );
}

#[test]
fn hidden_tests_are_not_shown() {
    let t = acm::judge::Test {
        id: 1,
        index: 0,
        max_fuel: Some(10),
        input: acm::function::WasmFunctionCall::new(
            "f",
            vec![],
            acm::function::FunctionType::Int(acm::function::ContainerVariantType::Single),
        ),
        expected_output: acm::function::FunctionValue::Int(acm::function::ContainerVariant::Single(2)),
    };
    assert_eq!(acm::service::shown_test(true, t.clone()), None);
    assert_eq!(acm::service::shown_test(false, t.clone()), Some(t));
}
