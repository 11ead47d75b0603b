use vstd::prelude::*;

use crate::database::{opt_view, Database};
use crate::outside::{sign_subject, signed_token, token_subject, verify_subject};
use crate::users::{first_email_at, DBUserErrors, UserCombined};

verus! {

/// Fields of the registration form.
pub struct RegisterForm {
    pub email: String,
    pub name: String,
    pub password: String,
}

/// Fields of the login form.
pub struct LoginForm {
    pub email: String,
    pub password: String,
}

/// Why issuing or reading a session token failed.
pub enum UserErrors {
    InternalError(String),
}

impl DBUserErrors {
    /// A one-line description of the error.
    pub fn message(&self) -> String {
        match self {
            DBUserErrors::PasswordHashFailed(e) => {
                let mut s = "failed to hash password: ".to_owned();
                s.append(e.as_str());
                s
            },
            DBUserErrors::PasswordMismatch(p) => {
                let mut s = "password mismatch: ".to_owned();
                s.append(p.as_str());
                s
            },
            DBUserErrors::UserNotEnabled => "user not enabled".to_owned(),
            DBUserErrors::InternalError(e) => {
                let mut s = "internal error: ".to_owned();
                s.append(e.as_str());
                s
            },
        }
    }
}

/// The session token of `user_id`: an HS256 token with `sub` set to it.
pub fn generate_token(secret: &str, user_id: &str) -> (r: Result<String, UserErrors>)
    ensures
        match r {
            Ok(t) => signed_token(secret@, user_id@) == Some(t@),
            Err(_) => signed_token(secret@, user_id@) is None,
        },
        r is Ok,
        r matches Ok(t) ==> token_subject(secret@, t@) == Some(Some(user_id@)),
{
    match sign_subject(secret, user_id) {
        Some(t) => Ok(t),
        None => Err(UserErrors::InternalError("token could not be signed".to_owned())),
    }
}

/// The `sub` claim of `token` when it verifies under `secret`.
pub fn extract_sub(secret: &str, token: &str) -> (r: Result<Option<String>, UserErrors>)
    ensures
        match r {
            Ok(sub) => token_subject(secret@, token@) == Some(opt_view(sub)),
            Err(_) => token_subject(secret@, token@) is None,
        },
{
    match verify_subject(secret, token) {
        Some(sub) => Ok(sub),
        None => Err(UserErrors::InternalError("token does not verify".to_owned())),
    }
}

/// The user id that the session token `token` carries, if it verifies.
pub fn validate_token(token: Option<&str>, secret: &str) -> (r: Option<String>)
    ensures
        match token {
            None => r is None,
            Some(t) => opt_view(r) == match token_subject(secret@, t@) {
                Some(sub) => sub,
                None => None,
            },
        },
{
    match token {
        None => None,
        Some(t) => match extract_sub(secret, t) {
            Ok(sub) => sub,
            Err(_) => None,
        },
    }
}

/// The account, with its profile, of the session token `token`.
pub fn extract_user(token: Option<&str>, db: &Database, secret: &str) -> (r: Option<UserCombined>)
    ensures
        r matches Some(c) ==> token matches Some(t) && token_subject(secret@, t@) == Some(
            Some(c.id@),
        ),
        r is None <==> match token {
            None => true,
            Some(t) => match token_subject(secret@, t@) {
                Some(Some(id)) => !db.has_user(id) || !db.has_profile(id),
                _ => true,
            },
        },
{
    match validate_token(token, secret) {
        None => None,
        Some(id) => {
            let r = db.get_user_with_profile(id.as_str());
            proof {
                if r is Some {
                    let c = r->0;
                    let (i, j) = choose|i: int, j: int|
                        crate::users::first_user_at(db.users@, id@, i) && crate::users::first_profile_at(
                            db.profiles@,
                            id@,
                            j,
                        ) && c == crate::users::combined(db.users@[i], db.profiles@[j]);
                    assert(c.id@ == id@);
                }
            }
            r
        },
    }
}

/// Checks the credentials of `form` and issues a session token for the account.
pub fn login_user(db: &Database, secret: &str, form: LoginForm) -> (r: Result<String, UserErrors>)
    ensures
        r matches Ok(t) ==> exists|i: int|
            first_email_at(db.users@, form.email@, i) && db.users@[i].is_enabled
                && crate::outside::argon2_accepts(db.users@[i].password@, form.password@)
                && signed_token(secret@, db.users@[i].id@) == Some(t@),
        r is Err ==> !exists|i: int|
            first_email_at(db.users@, form.email@, i) && db.users@[i].is_enabled
                && crate::outside::argon2_accepts(db.users@[i].password@, form.password@)
                && signed_token(secret@, db.users@[i].id@) is Some,
{
    let user_id = match db.verify_userpassword(form.email.as_str(), form.password.as_str()) {
        Ok(id) => id,
        Err(e) => {
            return Err(UserErrors::InternalError(e.message()));
        },
    };
    generate_token(secret, user_id.as_str())
}

} // verus!
