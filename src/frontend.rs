use vstd::prelude::*;

use crate::database::{created_room, Database, Room};
use crate::members::{strictly_sorted, user_room_id, user_room_members};
use crate::outside::{kebab_of, random_alphanumeric, to_kebab, is_alphanumeric};
use crate::text::{join, joined, views};
use crate::users::{DBUserErrors, UserCombined, UserProfile, User};

verus! {

/// Why a request was turned down.
pub enum FrontendError {
    InternalError(String),
    NotFound(String),
    Unauthorized,
    NoPermission,
    UserNotEnabled,
    NeedsAdmin,
    AlreadyLoggedIn,
    InvalidCredentials,
    InvalidForm(String),
}

/// How a refused request is answered.
pub enum Reply {
    /// A temporary redirect to the path.
    Redirect(String),
    /// A response with the status code and body.
    Status(u16, String),
}

/// The message form of a room.
pub struct MessageForm {
    pub msg: String,
    pub uploads: Option<Vec<String>>,
}

/// The query of a user search.
pub struct SearchUser {
    pub name: String,
    pub local: bool,
    pub roomid: Option<String>,
}

/// The form that creates a topical room.
pub struct NewRoom {
    pub name: String,
    pub description: String,
    pub is_private: Option<bool>,
}

/// The fields that a registration collected.
pub struct RegistrationForm {
    pub name: String,
    pub email: String,
    pub password: String,
    pub filename: String,
    pub image: Option<String>,
}

impl FrontendError {
    /// The answer to a request that failed with this error.
    pub fn reply(self) -> (r: Reply)
        ensures
            match self {
                FrontendError::Unauthorized => r == Reply::Redirect(r->Redirect_0) && r->Redirect_0@
                    == "/login"@,
                FrontendError::NeedsAdmin => r == Reply::Redirect(r->Redirect_0) && r->Redirect_0@
                    == "/register/admin"@,
                FrontendError::AlreadyLoggedIn => r == Reply::Redirect(r->Redirect_0)
                    && r->Redirect_0@ == "/"@,
                FrontendError::InvalidForm(e) => r == Reply::Status(400, e),
                FrontendError::NoPermission => r is Status && r->Status_0 == 401
                    && r->Status_1@.len() == 0,
                FrontendError::InternalError(e) => r == Reply::Status(500, e),
                _ => r is Status && r->Status_0 == 500 && r->Status_1@.len() == 0,
            },
    {
        match self {
            FrontendError::Unauthorized => Reply::Redirect("/login".to_owned()),
            FrontendError::NeedsAdmin => Reply::Redirect("/register/admin".to_owned()),
            FrontendError::AlreadyLoggedIn => Reply::Redirect("/".to_owned()),
            FrontendError::InvalidForm(e) => Reply::Status(400, e),
            FrontendError::NoPermission => Reply::Status(401, String::new()),
            FrontendError::InternalError(e) => Reply::Status(500, e),
            _ => Reply::Status(500, String::new()),
        }
    }
}

/// How a failed login is reported: a disabled account and an internal error
/// keep their kind, every other failure reads as invalid credentials.
pub fn login_error(e: DBUserErrors) -> (r: FrontendError)
    ensures
        match e {
            DBUserErrors::UserNotEnabled => r == FrontendError::UserNotEnabled,
            DBUserErrors::InternalError(m) => r == FrontendError::InternalError(m),
            _ => r == FrontendError::InvalidCredentials,
        },
{
    match e {
        DBUserErrors::UserNotEnabled => FrontendError::UserNotEnabled,
        DBUserErrors::InternalError(m) => FrontendError::InternalError(m),
        _ => FrontendError::InvalidCredentials,
    }
}

/// The refusal of a request without a session: a login is asked for once an
/// administrator exists, the first registration before that.
pub fn anonymous_error(has_admin: bool) -> (r: FrontendError)
    ensures
        has_admin ==> r == FrontendError::Unauthorized,
        !has_admin ==> r == FrontendError::NeedsAdmin,
{
    if has_admin {
        FrontendError::Unauthorized
    } else {
        FrontendError::NeedsAdmin
    }
}

/// An administrator may change the flags of any account but their own.
pub fn check_admin_action(actor: &UserCombined, target_id: &str) -> (r: Result<(), FrontendError>)
    ensures
        r is Ok <==> actor.is_admin && actor.id@ != target_id@,
        r matches Err(e) ==> e == FrontendError::NoPermission,
{
    if !actor.is_admin {
        return Err(FrontendError::NoPermission);
    }
    let target = target_id.to_owned();
    if actor.id == target {
        return Err(FrontendError::NoPermission);
    }
    Ok(())
}

/// Only administrators may see the list of accounts.
pub fn check_admin(actor: &UserCombined) -> (r: Result<(), FrontendError>)
    ensures
        r is Ok <==> actor.is_admin,
        r matches Err(e) ==> e == FrontendError::NoPermission,
{
    if actor.is_admin {
        Ok(())
    } else {
        Err(FrontendError::NoPermission)
    }
}

/// The registration code after an account was created: the first account
/// (made while no administrator existed) replaces the code with a fresh random
/// one, later accounts keep it.
pub fn register_id_after_signup(had_admin: bool, current: String) -> (r: String)
    ensures
        had_admin ==> r == current,
        !had_admin ==> r@.len() == 10 && forall|i: int| 0 <= i < 10 ==> is_alphanumeric(#[trigger] r@[i]),
{
    if had_admin {
        current
    } else {
        get_random_alphanumeric()
    }
}

/// Administrators and members may add or remove members of a room.
pub fn check_member_action(is_admin: bool, is_member: bool) -> (r: Result<(), FrontendError>)
    ensures
        r is Ok <==> is_admin || is_member,
        r matches Err(e) ==> e == FrontendError::NoPermission,
{
    if !is_admin && !is_member {
        Err(FrontendError::NoPermission)
    } else {
        Ok(())
    }
}

/// A room page lists the members of private topical rooms only.
pub fn shows_room_users(room: &Room) -> (r: bool)
    ensures
        r == (room.is_private && !room.is_user),
{
    room.is_private && !room.is_user
}

/// The stored name of an uploaded file: its id, `-`, and the client's file name.
pub fn upload_file_name(id: &str, file_name: &str) -> (r: String)
    ensures
        r@ == id@ + "-"@ + file_name@,
{
    let mut s = id.to_owned();
    s.append("-");
    s.append(file_name);
    s
}

/// A fresh registration code: ten random ASCII letters and digits.
pub fn get_random_alphanumeric() -> (r: String)
    ensures
        r@.len() == 10,
        forall|i: int| 0 <= i < 10 ==> is_alphanumeric(#[trigger] r@[i]),
{
    random_alphanumeric(10)
}

/// The registration code of a server: `admin` until the first account exists,
/// a random code after that.
pub fn initial_register_id(has_admin: bool) -> (r: String)
    ensures
        !has_admin ==> r@ == "admin"@,
        has_admin ==> r@.len() == 10 && forall|i: int| 0 <= i < 10 ==> is_alphanumeric(#[trigger] r@[i]),
{
    if has_admin {
        get_random_alphanumeric()
    } else {
        "admin".to_owned()
    }
}

/// Creates the topical room that `form` describes, with the kebab-case form of
/// its name as id and `user_id` as first member of a private room; returns the
/// room's id. An existing room with that id is kept as it is.
pub fn create_topic_room(db: &mut Database, form: &NewRoom, user_id: &str) -> (r: String)
    requires
        old(db).wf(),
    ensures
        final(db).wf(),
        final(db).users@ == old(db).users@ && final(db).profiles@ == old(db).profiles@,
        created_room(
            *old(db),
            *final(db),
            r@,
            kebab_of(form.name@),
            form.name@,
            form.description@,
            form.is_private == Some(true),
            false,
            seq![user_id@],
        ),
{
    let room_id = to_kebab(form.name.as_str());
    let is_private = match form.is_private {
        Some(p) => p,
        None => false,
    };
    let mut users: Vec<String> = Vec::new();
    users.push(user_id.to_owned());
    proof {
        assert(views(users@) =~= seq![user_id@]);
    }
    db.create_room(
        room_id.as_str(),
        form.name.as_str(),
        form.description.as_str(),
        is_private,
        false,
        &users,
    )
}

/// Creates, unless it exists, the private conversation of `self_id` with the
/// users of `picked`. Its id is the sorted, de-duplicated member ids joined by
/// `-`, so the same group always gets the same room; its name lists the
/// display names of the picked users.
pub fn create_user_room(db: &mut Database, picked: &Vec<String>, self_id: &str) -> (r: String)
    requires
        old(db).wf(),
    ensures
        final(db).wf(),
        final(db).users@ == old(db).users@ && final(db).profiles@ == old(db).profiles@,
        exists|members: Seq<Seq<char>>|
            #![trigger strictly_sorted(members)]
            {
                let name = joined(
                    old(db).profiles@.filter(
                        |p: UserProfile| views(picked@).contains(p.user_id@),
                    ).map_values(|p: UserProfile| p.username@),
                    ", "@,
                );
                &&& strictly_sorted(members)
                &&& forall|u: Seq<char>|
                    #[trigger] members.contains(u) <==> (views(picked@).contains(u) || u == self_id@)
                &&& created_room(
                    *old(db),
                    *final(db),
                    r@,
                    joined(members, "-"@),
                    name,
                    ""@,
                    true,
                    true,
                    members,
                )
            },
{
    let names = db.get_usernames_by_id(picked);
    let title = join(&names, ", ");
    proof {
        assert(views(names@) =~= names@.map_values(|s: String| s@));
    }
    let members = user_room_members(picked, self_id);
    let room_id = user_room_id(&members);
    let r = db.create_room(room_id.as_str(), title.as_str(), "", true, true, &members);
    proof {
        reveal_strlit("");
        assert(""@ =~= Seq::<char>::empty());
    }
    r
}

/// Checks the collected registration fields, creates the account `user_id`
/// and then records the uploaded image, if any; when the account cannot be
/// created nothing is stored. The first account is an enabled
/// administrator; later ones start disabled and without rights.
pub fn register_user(
    db: &mut Database,
    user_id: &str,
    form: RegistrationForm,
    has_admin: bool,
) -> (r: Result<String, FrontendError>)
    requires
        old(db).wf(),
    ensures
        final(db).wf(),
        final(db).rooms@ == old(db).rooms@,
        final(db).members@ == old(db).members@,
        final(db).messages@ == old(db).messages@,
        form.name@.len() == 0 ==> r is Err && *final(db) == *old(db),
        form.email@.len() == 0 ==> r is Err && *final(db) == *old(db),
        form.password@.len() == 0 ==> r is Err && *final(db) == *old(db),
        r matches Err(FrontendError::InvalidForm(_)) <==> (form.name@.len() == 0 || form.email@.len()
            == 0 || form.password@.len() == 0),
        r matches Err(e) ==> (e is InvalidForm || e is InternalError),
        r matches Err(FrontendError::InternalError(_)) ==> *final(db) == *old(db),
        r matches Ok(_) ==> {
            let u = final(db).users@.last();
            &&& crate::outside::argon2_accepts(u.password@, form.password@)
            &&& form.image is None ==> final(db).uploads@ == old(db).uploads@
            &&& form.image matches Some(url) ==> final(db).uploads@ == old(db).uploads@.push(
                final(db).uploads@.last(),
            ) && final(db).uploads@.last().url@ == url@ && final(db).uploads@.last().uploaded_by@
                == user_id@
        },
        r matches Ok(id) ==> {
            let u = final(db).users@.last();
            let p = final(db).profiles@.last();
            &&& id@ == user_id@
            &&& final(db).users@ == old(db).users@.push(u)
            &&& final(db).profiles@ == old(db).profiles@.push(p)
            &&& u.id@ == user_id@ && u.email == form.email
            &&& u.is_admin == !has_admin && u.is_enabled == !has_admin
            &&& p.username == form.name && p.image == form.image
        },
{
    if form.name.unicode_len() == 0 {
        return Err(FrontendError::InvalidForm("missing name field".to_owned()));
    }
    if form.email.unicode_len() == 0 {
        return Err(FrontendError::InvalidForm("missing email field".to_owned()));
    }
    if form.password.unicode_len() == 0 {
        return Err(FrontendError::InvalidForm("missing password field".to_owned()));
    }
    let image = crate::database::copy_opt(&form.image);
    let user = User {
        id: String::new(),
        email: form.email,
        password: form.password,
        hash: String::new(),
        is_admin: !has_admin,
        is_enabled: !has_admin,
        created_at: 0,
    };
    let profile = UserProfile {
        id: String::new(),
        user_id: String::new(),
        username: form.name,
        bio: None,
        image: form.image,
    };
    match db.create_user(user_id, user, profile) {
        Ok(id) => {
            let _ = db.add_upload_and_continue(user_id, None, image);
            Ok(id)
        },
        Err(e) => Err(FrontendError::InternalError(e.message())),
    }
}

} // verus!
