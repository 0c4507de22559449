//! Who may do what on the web service, and how its errors are answered.
use vstd::prelude::*;
use vstd::string::StringExecFns;
use crate::text::{chars_of, push_char, is_white_space, white_space};

verus! {

/// The rank of a user.
#[derive(Clone, Copy, Debug, PartialEq, Eq, Structural)]
pub enum Auth {
    Admin,
    Officer,
    Member,
    LoggedOut,
}

impl Default for Auth {
    fn default() -> (r: Self)
        ensures
            r == Auth::Member,
    {
        Auth::Member
    }
}

/// What a request's token says of its sender.
#[derive(Debug, Clone, PartialEq)]
pub struct Claims {
    pub user_id: i64,
    pub auth: Auth,
    pub exp: usize,
}

/// A user of the service.
#[derive(Debug, Clone, PartialEq)]
pub struct User {
    pub id: i64,
    pub name: String,
    pub username: String,
    pub discord_id: String,
    pub auth: Auth,
}

/// The errors of authentication.
#[derive(Clone, Copy, Debug, PartialEq, Eq, Structural)]
pub enum AuthError {
    WrongCredentials,
    TokenCreation,
    InvalidToken,
    Unauthorized,
}

/// The errors of looking up a user.
#[derive(Debug, Clone, PartialEq)]
pub enum UserError {
    NotFound(String),
    InternalError,
}

/// A form with an invalid field.
#[derive(Debug, Clone, PartialEq)]
pub enum FormValidationError {
    InvalidField(String),
}

/// Why a request failed.
#[derive(Debug, Clone, PartialEq)]
pub enum ServerError {
    Auth(AuthError),
    Validation(FormValidationError),
    User(UserError),
    Runner(crate::diagnostics::RunnerError),
    InternalError,
    NotFound,
    PermissionDenied,
}

/// The claims of a request that carries no token.
pub fn logged_out_claims() -> (c: Claims)
    ensures
        c.user_id == -1,
        c.auth == Auth::LoggedOut,
        c.exp == 0,
{
    Claims { user_id: -1, auth: Auth::LoggedOut, exp: 0 }
}

impl Claims {
    /// Fails with `WrongCredentials` unless the sender is an officer or an
    /// admin.
    pub fn validate_officer(&self) -> (r: Result<(), ServerError>)
        ensures
            r is Ok <==> (self.auth == Auth::Admin || self.auth == Auth::Officer),
            r is Err ==> r matches Err(ServerError::Auth(AuthError::WrongCredentials)),
    {
        match self.auth {
            Auth::Admin | Auth::Officer => Ok(()),
            Auth::Member | Auth::LoggedOut => Err(ServerError::Auth(AuthError::WrongCredentials)),
        }
    }

    /// Fails with `WrongCredentials` when the sender is not logged in.
    pub fn validate_logged_in(&self) -> (r: Result<(), ServerError>)
        ensures
            r is Ok <==> self.auth != Auth::LoggedOut,
            r is Err ==> r matches Err(ServerError::Auth(AuthError::WrongCredentials)),
    {
        match self.auth {
            Auth::LoggedOut => Err(ServerError::Auth(AuthError::WrongCredentials)),
            _ => Ok(()),
        }
    }
}

/// The rank a user's record gets when the sender asks to edit the user
/// `user_id` and to give it the rank `requested`: an admin may edit anyone and
/// give any rank; anyone else logged in may edit only themselves, and keeps
/// their own rank.
pub fn authorize_user_edit(claims: &Claims, user_id: i64, requested: Auth) -> (r: Result<Auth, ServerError>)
    ensures
        claims.auth == Auth::LoggedOut ==> r matches Err(ServerError::Auth(AuthError::WrongCredentials)),
        claims.auth == Auth::Admin ==> r == Ok::<Auth, ServerError>(requested),
        claims.auth != Auth::LoggedOut && claims.auth != Auth::Admin && claims.user_id != user_id ==> r matches Err(
            ServerError::Auth(AuthError::Unauthorized),
        ),
        claims.auth != Auth::LoggedOut && claims.auth != Auth::Admin && claims.user_id == user_id ==> r
            == Ok::<Auth, ServerError>(claims.auth),
{
    claims.validate_logged_in()?;
    if claims.auth != Auth::Admin {
        if claims.user_id != user_id {
            return Err(ServerError::Auth(AuthError::Unauthorized));
        } else {
            return Ok(claims.auth);
        }
    }
    Ok(requested)
}

/// Whether the sender may leave their team in a competition: only when logged
/// in, and then an officer or an admin at any time, anyone else only while
/// the competition runs (`in_time`).
pub fn authorize_team_leave(claims: &Claims, in_time: bool) -> (r: Result<(), ServerError>)
    ensures
        claims.auth == Auth::LoggedOut ==> r matches Err(ServerError::Auth(AuthError::WrongCredentials)),
        claims.auth != Auth::LoggedOut ==> (r is Ok <==> (claims.auth == Auth::Admin || claims.auth
            == Auth::Officer || in_time)),
        claims.auth != Auth::LoggedOut && r is Err ==> r matches Err(ServerError::PermissionDenied),
{
    claims.validate_logged_in()?;
    if claims.validate_officer().is_err() && !in_time {
        return Err(ServerError::PermissionDenied);
    }
    Ok(())
}

/* ---------------------------------------------------------------------- */
/* Answers                                                                */
/* ---------------------------------------------------------------------- */

impl AuthError {
    pub open spec fn spec_status(&self) -> u16 {
        match self {
            AuthError::WrongCredentials => 401,
            AuthError::TokenCreation => 500,
            AuthError::InvalidToken => 400,
            AuthError::Unauthorized => 401,
        }
    }

    /// The HTTP status the error is answered with.
    pub fn status_code(&self) -> (r: u16)
        ensures
            r == self.spec_status(),
    {
        match self {
            AuthError::WrongCredentials => 401,
            AuthError::TokenCreation => 500,
            AuthError::InvalidToken => 400,
            AuthError::Unauthorized => 401,
        }
    }

    pub open spec fn spec_message(&self) -> Seq<char> {
        match self {
            AuthError::WrongCredentials => "You must be logged in to do that."@,
            AuthError::TokenCreation => "Token creation error."@,
            AuthError::InvalidToken => "Invalid token."@,
            AuthError::Unauthorized => "Unauthorized."@,
        }
    }

    /// The text of the error.
    pub fn message(&self) -> (r: String)
        ensures
            r@ == self.spec_message(),
    {
        match self {
            AuthError::WrongCredentials => String::from_str("You must be logged in to do that."),
            AuthError::TokenCreation => String::from_str("Token creation error."),
            AuthError::InvalidToken => String::from_str("Invalid token."),
            AuthError::Unauthorized => String::from_str("Unauthorized."),
        }
    }
}

impl UserError {
    pub fn status_code(&self) -> (r: u16)
        ensures
            r == (match self {
                UserError::NotFound(_) => 404u16,
                UserError::InternalError => 500u16,
            }),
    {
        match self {
            UserError::NotFound(_) => 404,
            UserError::InternalError => 500,
        }
    }

    pub open spec fn spec_message(&self) -> Seq<char> {
        match self {
            UserError::NotFound(name) => "User "@ + name@ + " not found"@,
            UserError::InternalError => "Failed to fetch submissions"@,
        }
    }

    /// The text of the error.
    pub fn message(&self) -> (r: String)
        ensures
            r@ == self.spec_message(),
    {
        match self {
            UserError::NotFound(name) => {
                let mut m = String::from_str("User ");
                m.append(name.as_str());
                m.append(" not found");
                m
            },
            UserError::InternalError => String::from_str("Failed to fetch submissions"),
        }
    }
}

impl FormValidationError {
    pub open spec fn spec_message(&self) -> Seq<char> {
        match self {
            FormValidationError::InvalidField(f) => "Field '"@ + f@ + "' is invalid"@,
        }
    }

    /// The text the error is answered with.
    pub fn message(&self) -> (r: String)
        ensures
            r@ == self.spec_message(),
    {
        match self {
            FormValidationError::InvalidField(f) => {
                let mut m = String::from_str("Field '");
                m.append(f.as_str());
                m.append("' is invalid");
                m
            },
        }
    }
}

impl ServerError {
    /// The HTTP status the error is answered with.
    pub fn status_code(&self) -> (r: u16)
        ensures
            r == (match self {
                ServerError::Auth(e) => e.spec_status(),
                ServerError::Validation(_) => 400u16,
                ServerError::User(UserError::NotFound(_)) => 404u16,
                ServerError::User(UserError::InternalError) => 500u16,
                ServerError::Runner(_) => 422u16,
                ServerError::InternalError => 500u16,
                ServerError::NotFound => 404u16,
                ServerError::PermissionDenied => 403u16,
            }),
    {
        match self {
            ServerError::Auth(e) => e.status_code(),
            ServerError::Validation(_) => 400,
            ServerError::User(e) => e.status_code(),
            ServerError::Runner(_) => 422,
            ServerError::InternalError => 500,
            ServerError::NotFound => 404,
            ServerError::PermissionDenied => 403,
        }
    }

    /// The text the error is answered with; `None` for an error of the
    /// runner, which is answered with the runner's error itself.
    pub fn response_message(&self) -> (r: Option<String>)
        ensures
            match self {
                ServerError::Runner(_) => r is None,
                ServerError::InternalError => r matches Some(m) && m@ == "Internal server error."@,
                ServerError::NotFound => r matches Some(m) && m@ == "The requested data was not found"@,
                ServerError::PermissionDenied => r matches Some(m) && m@ == "You are not allowed to do that."@,
                ServerError::Auth(e) => r matches Some(m) && m@ == e.spec_message(),
                ServerError::Validation(e) => r matches Some(m) && m@ == e.spec_message(),
                ServerError::User(e) => r matches Some(m) && m@ == e.spec_message(),
            },
    {
        match self {
            ServerError::Auth(e) => Some(e.message()),
            ServerError::Validation(e) => Some(e.message()),
            ServerError::User(e) => Some(e.message()),
            ServerError::Runner(_) => None,
            ServerError::InternalError => Some(String::from_str("Internal server error.")),
            ServerError::NotFound => Some(String::from_str("The requested data was not found")),
            ServerError::PermissionDenied => Some(String::from_str("You are not allowed to do that.")),
        }
    }
}

/* ---------------------------------------------------------------------- */
/* User names                                                             */
/* ---------------------------------------------------------------------- */

/// The name without its white space.
pub open spec fn without_white_space(s: Seq<char>) -> Seq<char> {
    s.filter(|c: char| !is_white_space(c))
}

/// The user name a new user gets from their Discord name: the name without
/// white space.
pub fn sanitize_username(username: &str) -> (r: String)
    ensures
        r@ == without_white_space(username@),
{
    let cs = chars_of(username);
    let mut out = String::new();
    let mut i: usize = 0;
    while i < cs.len()
        invariant
            i <= cs@.len(),
            cs@ == username@,
            out@ == without_white_space(cs@.take(i as int)),
        decreases cs@.len() - i,
    {
        let c = cs[i];
        proof {
            reveal(Seq::filter);
            assert(cs@.take(i + 1).drop_last() =~= cs@.take(i as int));
        }
        if !white_space(c) {
            push_char(&mut out, c);
        }
        i = i + 1;
    }
    assert(cs@.take(i as int) =~= cs@);
    out
}

/// The user name tried when the plain one is taken: the plain one, an
/// underscore and the Discord discriminator.
pub fn fallback_username(sanitized: &str, discriminator: &str) -> (r: String)
    ensures
        r@ == sanitized@ + "_"@ + discriminator@,
{
    let mut m = String::from_str(sanitized);
    m.append("_");
    m.append(discriminator);
    m
}

/// The claims of the token a user gets on logging in: their id and rank,
/// valid for as long as can be said.
pub fn claims_for(user: &User) -> (c: Claims)
    ensures
        c.user_id == user.id,
        c.auth == user.auth,
        c.exp == usize::MAX,
{
    Claims { user_id: user.id, auth: user.auth, exp: usize::MAX }
}

/// How far a login has got in finding the user's record.
#[derive(Clone, Copy, Debug, PartialEq, Eq, Structural)]
pub enum LoginStage {
    /// The record was looked up by Discord id.
    Lookup,
    /// A record under the plain user name was inserted, then looked up.
    PlainInserted,
    /// A record under the fallback user name was inserted, then looked up.
    FallbackInserted,
}

/// What a login does next.
#[derive(Debug, Clone, PartialEq)]
pub enum LoginAction {
    /// The user is found: log in with these claims.
    LogIn(Claims),
    /// Insert a record with this name and user name for the Discord user,
    /// look it up again, and go on at stage `next`.
    Insert { next: LoginStage, name: String, username: String },
}

/// One step of finding the record of a user who logs in with Discord, given
/// the stage reached and what the last lookup by Discord id found: a found
/// user logs in; else the record is inserted under the user name without
/// white space, and when that did not give a record, under the fallback
/// name. After both inserts the record must be there.
pub fn login_step(stage: LoginStage, found: Option<User>, discord_username: &str, discriminator: &str) -> (r:
    LoginAction)
    requires
        stage == LoginStage::FallbackInserted ==> found is Some,
    ensures
        match found {
            Some(u) => r == LoginAction::LogIn(
                Claims { user_id: u.id, auth: u.auth, exp: usize::MAX },
            ),
            None => r matches LoginAction::Insert { next, name, username } && name@ == without_white_space(
                discord_username@,
            ) && if stage == LoginStage::Lookup {
                next == LoginStage::PlainInserted && username@ == name@
            } else {
                next == LoginStage::FallbackInserted && username@ == name@ + "_"@ + discriminator@
            },
        },
{
    match found {
        Some(u) => LoginAction::LogIn(claims_for(&u)),
        None => {
            let name = sanitize_username(discord_username);
            match stage {
                LoginStage::Lookup => {
                    let username = name.clone();
                    proof {
                        assert(username@ == name@);
                    }
                    LoginAction::Insert { next: LoginStage::PlainInserted, name, username }
                },
                _ => {
                    let username = fallback_username(name.as_str(), discriminator);
                    LoginAction::Insert { next: LoginStage::FallbackInserted, name, username }
                },
            }
        },
    }
}

fn same_text(a: &str, b: &str) -> (r: bool)
    ensures
        r == (a@ == b@),
{
    let x = chars_of(a);
    let y = chars_of(b);
    if x.len() != y.len() {
        return false;
    }
    let mut i: usize = 0;
    while i < x.len()
        invariant
            x@ == a@,
            y@ == b@,
            x@.len() == y@.len(),
            i <= x@.len(),
            forall|j: int| 0 <= j < i ==> x@[j] == y@[j],
        decreases x@.len() - i,
    {
        if x[i] != y[i] {
            return false;
        }
        i = i + 1;
    }
    assert(x@ =~= y@);
    true
}

/// The check of a sign-up form before it is sent: the password must be
/// typed the same twice.
pub fn check_signup_passwords(password: &str, verify_password: &str) -> (r: Result<(), String>)
    ensures
        r is Ok <==> password@ == verify_password@,
        r matches Err(m) ==> m@ == "Passwords do not match"@,
{
    if !same_text(password, verify_password) {
        return Err(String::from_str("Passwords do not match"));
    }
    Ok(())
}

} // verus!
