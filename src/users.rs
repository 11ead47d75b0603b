use vstd::prelude::*;

use crate::database::{Database, RoomUser};
use crate::outside::{argon2_accepts, argon2_hash, argon2_verify, new_xid, now_unix};

verus! {

/// An account: login email, argon2 hash of the password and its salt, and flags.
pub struct User {
    pub id: String,
    pub email: String,
    pub password: String,
    pub hash: String,
    pub is_admin: bool,
    pub is_enabled: bool,
    pub created_at: i64,
}

/// The public face of an account.
pub struct UserProfile {
    pub id: String,
    pub user_id: String,
    pub username: String,
    pub bio: Option<String>,
    pub image: Option<String>,
}

/// An account together with its profile.
pub struct UserCombined {
    pub id: String,
    pub email: String,
    pub is_admin: bool,
    pub is_enabled: bool,
    pub created_at: i64,
    pub username: String,
    pub bio: Option<String>,
    pub image: Option<String>,
}

/// A display name looked up by user id.
pub struct NameQuery {
    pub username: String,
}

/// Why an account operation failed.
pub enum DBUserErrors {
    PasswordHashFailed(String),
    PasswordMismatch(String),
    UserNotEnabled,
    InternalError(String),
}

impl Default for User {
    fn default() -> (r: User)
        ensures
            r.id@.len() == 0 && r.email@.len() == 0 && r.password@.len() == 0 && r.hash@.len()
                == 0,
            !r.is_admin && !r.is_enabled,
    {
        User {
            id: String::new(),
            email: String::new(),
            password: String::new(),
            hash: String::new(),
            is_admin: false,
            is_enabled: false,
            created_at: now_unix(),
        }
    }
}

/// `i` is the first row of `s` with the email `email`.
pub open spec fn first_email_at(s: Seq<User>, email: Seq<char>, i: int) -> bool {
    &&& 0 <= i < s.len()
    &&& s[i].email@ == email
    &&& forall|j: int| 0 <= j < i ==> (#[trigger] s[j]).email@ != email
}

/// `i` is the first row of `s` with the id `id`.
pub open spec fn first_user_at(s: Seq<User>, id: Seq<char>, i: int) -> bool {
    &&& 0 <= i < s.len()
    &&& s[i].id@ == id
    &&& forall|j: int| 0 <= j < i ==> (#[trigger] s[j]).id@ != id
}

/// `j` is the first profile row of `s` that belongs to `user`.
pub open spec fn first_profile_at(s: Seq<UserProfile>, user: Seq<char>, j: int) -> bool {
    &&& 0 <= j < s.len()
    &&& s[j].user_id@ == user
    &&& forall|k: int| 0 <= k < j ==> (#[trigger] s[k]).user_id@ != user
}

pub open spec fn combined(u: User, p: UserProfile) -> UserCombined {
    UserCombined {
        id: u.id,
        email: u.email,
        is_admin: u.is_admin,
        is_enabled: u.is_enabled,
        created_at: u.created_at,
        username: p.username,
        bio: p.bio,
        image: p.image,
    }
}

/// `after` is `before` with `f` applied to the rows of user `id`.
pub open spec fn users_updated(
    before: Seq<User>,
    after: Seq<User>,
    id: Seq<char>,
    f: spec_fn(User) -> User,
) -> bool {
    &&& after.len() == before.len()
    &&& forall|i: int|
        0 <= i < before.len() ==> #[trigger] after[i] == if before[i].id@ == id {
            f(before[i])
        } else {
            before[i]
        }
}

/// `after` is `before` with `f` applied to the profile rows of user `id`.
pub open spec fn profiles_updated(
    before: Seq<UserProfile>,
    after: Seq<UserProfile>,
    id: Seq<char>,
    f: spec_fn(UserProfile) -> UserProfile,
) -> bool {
    &&& after.len() == before.len()
    &&& forall|i: int|
        0 <= i < before.len() ==> #[trigger] after[i] == if before[i].user_id@ == id {
            f(before[i])
        } else {
            before[i]
        }
}

pub open spec fn with_enabled(enable: bool) -> spec_fn(User) -> User {
    |u: User| User { is_enabled: enable, ..u }
}

pub open spec fn with_admin(enable: bool) -> spec_fn(User) -> User {
    |u: User| User { is_admin: enable, ..u }
}

pub open spec fn with_image(url: Option<String>) -> spec_fn(UserProfile) -> UserProfile {
    |p: UserProfile| UserProfile { image: url, ..p }
}

pub open spec fn bio_text(b: Option<String>) -> Seq<char> {
    match b {
        Some(s) => s@,
        None => Seq::empty(),
    }
}

pub open spec fn with_name_bio(name: Seq<char>, bio: Seq<char>) -> spec_fn(UserProfile) -> bool {
    |p: UserProfile| p.username@ == name && p.bio is Some && bio_text(p.bio) == bio
}

impl Database {
    pub open spec fn has_user_email(self, email: Seq<char>) -> bool {
        exists|i: int| 0 <= i < self.users@.len() && #[trigger] self.users@[i].email@ == email
    }

    pub open spec fn has_user(self, id: Seq<char>) -> bool {
        exists|i: int| 0 <= i < self.users@.len() && #[trigger] self.users@[i].id@ == id
    }

    pub open spec fn has_profile(self, id: Seq<char>) -> bool {
        exists|j: int| 0 <= j < self.profiles@.len() && #[trigger] self.profiles@[j].user_id@ == id
    }

    /// Every table but the user and profile tables is as in `other`.
    pub open spec fn same_rooms(self, other: Database) -> bool {
        &&& self.rooms@ == other.rooms@
        &&& self.members@ == other.members@
        &&& self.messages@ == other.messages@
        &&& self.uploads@ == other.uploads@
    }

    /// Whether any account exists.
    pub fn has_admin(&self) -> (r: bool)
        ensures
            r == (self.users@.len() > 0),
    {
        self.users.len() > 0
    }

    fn find_email(&self, email: &String) -> (r: Option<usize>)
        ensures
            match r {
                Some(i) => first_email_at(self.users@, email@, i as int),
                None => !self.has_user_email(email@),
            },
    {
        let mut i: usize = 0;
        while i < self.users.len()
            invariant
                i <= self.users@.len(),
                forall|j: int| 0 <= j < i ==> (#[trigger] self.users@[j]).email@ != email@,
            decreases self.users@.len() - i,
        {
            if self.users[i].email == *email {
                return Some(i);
            }
            i = i + 1;
        }
        None
    }

    fn find_user(&self, id: &String) -> (r: Option<usize>)
        ensures
            match r {
                Some(i) => first_user_at(self.users@, id@, i as int),
                None => !self.has_user(id@),
            },
    {
        let mut i: usize = 0;
        while i < self.users.len()
            invariant
                i <= self.users@.len(),
                forall|j: int| 0 <= j < i ==> (#[trigger] self.users@[j]).id@ != id@,
            decreases self.users@.len() - i,
        {
            if self.users[i].id == *id {
                return Some(i);
            }
            i = i + 1;
        }
        None
    }

    pub(crate) fn find_profile(&self, id: &String) -> (r: Option<usize>)
        ensures
            match r {
                Some(j) => first_profile_at(self.profiles@, id@, j as int),
                None => !self.has_profile(id@),
            },
    {
        let mut j: usize = 0;
        while j < self.profiles.len()
            invariant
                j <= self.profiles@.len(),
                forall|k: int| 0 <= k < j ==> (#[trigger] self.profiles@[k]).user_id@ != id@,
            decreases self.profiles@.len() - j,
        {
            if self.profiles[j].user_id == *id {
                return Some(j);
            }
            j = j + 1;
        }
        None
    }

    /// Checks `password` against the account of `email`: the first account with
    /// that email must exist, be enabled, and accept the password. Returns the
    /// account's id.
    pub fn verify_userpassword(&self, email: &str, password: &str) -> (r: Result<
        String,
        DBUserErrors,
    >)
        ensures
            match r {
                Ok(id) => exists|i: int|
                    first_email_at(self.users@, email@, i) && self.users@[i].is_enabled
                        && argon2_accepts(self.users@[i].password@, password@) && id
                        == self.users@[i].id,
                Err(DBUserErrors::InternalError(_)) => !self.has_user_email(email@),
                Err(DBUserErrors::UserNotEnabled) => exists|i: int|
                    first_email_at(self.users@, email@, i) && !self.users@[i].is_enabled,
                Err(DBUserErrors::PasswordMismatch(p)) => p@ == password@ && exists|i: int|
                    first_email_at(self.users@, email@, i) && self.users@[i].is_enabled
                        && !argon2_accepts(self.users@[i].password@, password@),
                Err(DBUserErrors::PasswordHashFailed(_)) => false,
            },
    {
        let key = email.to_owned();
        let i = match self.find_email(&key) {
            Some(i) => i,
            None => {
                return Err(DBUserErrors::InternalError("no account with this email".to_owned()));
            },
        };
        if !self.users[i].is_enabled {
            return Err(DBUserErrors::UserNotEnabled);
        }
        if argon2_verify(self.users[i].password.as_str(), password) {
            Ok(self.users[i].id.clone())
        } else {
            Err(DBUserErrors::PasswordMismatch(password.to_owned()))
        }
    }

    /// Creates the account `user_id` from `user`, storing an argon2 hash of its
    /// password, and its profile from `profile`.
    pub fn create_user(&mut self, user_id: &str, user: User, profile: UserProfile) -> (r: Result<
        String,
        DBUserErrors,
    >)
        requires
            old(self).wf(),
        ensures
            final(self).wf(),
            final(self).same_rooms(*old(self)),
            match r {
                Ok(id) => {
                    let u = final(self).users@.last();
                    let p = final(self).profiles@.last();
                    &&& id@ == user_id@
                    &&& final(self).users@ == old(self).users@.push(u)
                    &&& final(self).profiles@ == old(self).profiles@.push(p)
                    &&& u.id@ == user_id@ && u.email == user.email
                    &&& argon2_accepts(u.password@, user.password@)
                    &&& u.is_admin == user.is_admin && u.is_enabled == user.is_enabled
                    &&& p.user_id@ == user_id@ && p.username == profile.username
                    &&& p.bio == profile.bio && p.image == profile.image
                },
                Err(DBUserErrors::PasswordHashFailed(_)) => *final(self) == *old(self),
                Err(_) => false,
            },
    {
        let (password, salt) = match argon2_hash(user.password.as_str()) {
            Ok(pair) => pair,
            Err(e) => {
                return Err(DBUserErrors::PasswordHashFailed(e));
            },
        };
        let row = User {
            id: user_id.to_owned(),
            email: user.email,
            password,
            hash: salt,
            is_admin: user.is_admin,
            is_enabled: user.is_enabled,
            created_at: now_unix(),
        };
        let face = UserProfile {
            id: new_xid(),
            user_id: user_id.to_owned(),
            username: profile.username,
            bio: profile.bio,
            image: profile.image,
        };
        let ghost before = *self;
        self.users.push(row);
        self.profiles.push(face);
        proof {
            assert(self.same_rooms(before));
            assert forall|k: int| 0 <= k < self.messages@.len() implies self.has_room(
                #[trigger] self.messages@[k].room_id@,
            ) by {
                assert(before.has_room(before.messages@[k].room_id@));
            }
        }
        Ok(user_id.to_owned())
    }

    /// Replaces the password of the account of `email` after checking `current`.
    pub fn update_user_password(&mut self, email: &str, current: &str, update: &str) -> (r: Result<
        (),
        DBUserErrors,
    >)
        requires
            old(self).wf(),
        ensures
            final(self).wf(),
            final(self).same_rooms(*old(self)),
            final(self).profiles@ == old(self).profiles@,
            r is Err ==> *final(self) == *old(self),
            match r {
                Ok(_) => exists|i: int|
                    first_email_at(old(self).users@, email@, i) && old(self).users@[i].is_enabled
                        && argon2_accepts(old(self).users@[i].password@, current@) && {
                        let id = old(self).users@[i].id@;
                        &&& final(self).users@.len() == old(self).users@.len()
                        &&& forall|k: int|
                            0 <= k < old(self).users@.len() ==> {
                                let (a, b) = (old(self).users@[k], #[trigger] final(self).users@[k]);
                                &&& b.id == a.id && b.email == a.email && b.is_admin == a.is_admin
                                &&& b.is_enabled == a.is_enabled && b.created_at == a.created_at
                                &&& a.id@ != id ==> b == a
                                &&& a.id@ == id ==> argon2_accepts(b.password@, update@)
                            }
                    },
                Err(DBUserErrors::PasswordHashFailed(_)) => exists|i: int|
                    first_email_at(old(self).users@, email@, i) && old(self).users@[i].is_enabled
                        && argon2_accepts(old(self).users@[i].password@, current@),
                Err(DBUserErrors::InternalError(_)) => !old(self).has_user_email(email@),
                Err(DBUserErrors::UserNotEnabled) => exists|i: int|
                    first_email_at(old(self).users@, email@, i) && !old(self).users@[i].is_enabled,
                Err(DBUserErrors::PasswordMismatch(p)) => p@ == current@ && exists|i: int|
                    first_email_at(old(self).users@, email@, i) && old(self).users@[i].is_enabled
                        && !argon2_accepts(old(self).users@[i].password@, current@),
            },
    {
        let id = match self.verify_userpassword(email, current) {
            Ok(id) => id,
            Err(e) => {
                return Err(e);
            },
        };
        let (password, salt) = match argon2_hash(update) {
            Ok(pair) => pair,
            Err(e) => {
                return Err(DBUserErrors::PasswordHashFailed(e));
            },
        };
        let ghost before = *self;
        let mut i: usize = 0;
        while i < self.users.len()
            invariant
                self.same_rooms(before),
                self.profiles@ == before.profiles@,
                self.users@.len() == before.users@.len(),
                i <= self.users@.len(),
                forall|k: int|
                    0 <= k < before.users@.len() ==> {
                        let (a, b) = (before.users@[k], #[trigger] self.users@[k]);
                        &&& b.id == a.id && b.email == a.email && b.is_admin == a.is_admin
                        &&& b.is_enabled == a.is_enabled && b.created_at == a.created_at
                        &&& (a.id@ != id@ || k >= i) ==> b == a
                        &&& (a.id@ == id@ && k < i) ==> argon2_accepts(b.password@, update@)
                    },
                argon2_accepts(password@, update@),
            decreases self.users@.len() - i,
        {
            if self.users[i].id == id {
                self.users[i].password = password.clone();
                self.users[i].hash = salt.clone();
            }
            i = i + 1;
        }
        proof {
            assert forall|k: int| 0 <= k < self.messages@.len() implies self.has_room(
                #[trigger] self.messages@[k].room_id@,
            ) by {
                assert(before.has_room(before.messages@[k].room_id@));
            }
        }
        Ok(())
    }

    /// Enables or disables the account `user_id`.
    pub fn enable_user(&mut self, user_id: &str, enable: bool)
        requires
            old(self).wf(),
        ensures
            final(self).wf(),
            final(self).same_rooms(*old(self)),
            final(self).profiles@ == old(self).profiles@,
            users_updated(old(self).users@, final(self).users@, user_id@, with_enabled(enable)),
    {
        let id = user_id.to_owned();
        let ghost before = *self;
        let mut i: usize = 0;
        while i < self.users.len()
            invariant
                self.same_rooms(before),
                self.profiles@ == before.profiles@,
                self.users@.len() == before.users@.len(),
                id@ == user_id@,
                i <= self.users@.len(),
                forall|k: int|
                    0 <= k < before.users@.len() ==> #[trigger] self.users@[k] == if k < i
                        && before.users@[k].id@ == user_id@ {
                        with_enabled(enable)(before.users@[k])
                    } else {
                        before.users@[k]
                    },
            decreases self.users@.len() - i,
        {
            if self.users[i].id == id {
                self.users[i].is_enabled = enable;
            }
            i = i + 1;
        }
        proof {
            assert forall|k: int| 0 <= k < self.messages@.len() implies self.has_room(
                #[trigger] self.messages@[k].room_id@,
            ) by {
                assert(before.has_room(before.messages@[k].room_id@));
            }
        }
    }

    /// Grants or revokes administration rights of the account `user_id`.
    pub fn make_admin_user(&mut self, user_id: &str, enable: bool)
        requires
            old(self).wf(),
        ensures
            final(self).wf(),
            final(self).same_rooms(*old(self)),
            final(self).profiles@ == old(self).profiles@,
            users_updated(old(self).users@, final(self).users@, user_id@, with_admin(enable)),
    {
        let id = user_id.to_owned();
        let ghost before = *self;
        let mut i: usize = 0;
        while i < self.users.len()
            invariant
                self.same_rooms(before),
                self.profiles@ == before.profiles@,
                self.users@.len() == before.users@.len(),
                id@ == user_id@,
                i <= self.users@.len(),
                forall|k: int|
                    0 <= k < before.users@.len() ==> #[trigger] self.users@[k] == if k < i
                        && before.users@[k].id@ == user_id@ {
                        with_admin(enable)(before.users@[k])
                    } else {
                        before.users@[k]
                    },
            decreases self.users@.len() - i,
        {
            if self.users[i].id == id {
                self.users[i].is_admin = enable;
            }
            i = i + 1;
        }
        proof {
            assert forall|k: int| 0 <= k < self.messages@.len() implies self.has_room(
                #[trigger] self.messages@[k].room_id@,
            ) by {
                assert(before.has_room(before.messages@[k].room_id@));
            }
        }
    }

    /// Sets the profile image of `user_id`; `None` removes it.
    pub fn set_user_image(&mut self, user_id: &str, url: Option<String>)
        requires
            old(self).wf(),
        ensures
            final(self).wf(),
            final(self).same_rooms(*old(self)),
            final(self).users@ == old(self).users@,
            profiles_updated(old(self).profiles@, final(self).profiles@, user_id@, with_image(url)),
    {
        let id = user_id.to_owned();
        let ghost before = *self;
        let mut i: usize = 0;
        while i < self.profiles.len()
            invariant
                self.same_rooms(before),
                self.users@ == before.users@,
                self.profiles@.len() == before.profiles@.len(),
                id@ == user_id@,
                i <= self.profiles@.len(),
                forall|k: int|
                    0 <= k < before.profiles@.len() ==> #[trigger] self.profiles@[k] == if k < i
                        && before.profiles@[k].user_id@ == user_id@ {
                        with_image(url)(before.profiles@[k])
                    } else {
                        before.profiles@[k]
                    },
            decreases self.profiles@.len() - i,
        {
            if self.profiles[i].user_id == id {
                self.profiles[i].image = crate::database::copy_opt(&url);
            }
            i = i + 1;
        }
        proof {
            assert forall|k: int| 0 <= k < self.messages@.len() implies self.has_room(
                #[trigger] self.messages@[k].room_id@,
            ) by {
                assert(before.has_room(before.messages@[k].room_id@));
            }
        }
    }

    /// Removes the profile image of `user_id`.
    pub fn unset_user_image(&mut self, user_id: &str)
        requires
            old(self).wf(),
        ensures
            final(self).wf(),
            final(self).same_rooms(*old(self)),
            final(self).users@ == old(self).users@,
            profiles_updated(old(self).profiles@, final(self).profiles@, user_id@, with_image(None)),
    {
        self.set_user_image(user_id, None);
    }

    /// The account `userid` with its profile: the first row of each.
    pub fn get_user_with_profile(&self, userid: &str) -> (r: Option<UserCombined>)
        ensures
            r is None <==> !self.has_user(userid@) || !self.has_profile(userid@),
            r matches Some(c) ==> exists|i: int, j: int|
                first_user_at(self.users@, userid@, i) && first_profile_at(
                    self.profiles@,
                    userid@,
                    j,
                ) && c == combined(self.users@[i], self.profiles@[j]),
    {
        let id = userid.to_owned();
        let i = match self.find_user(&id) {
            Some(i) => i,
            None => {
                return None;
            },
        };
        let j = match self.find_profile(&id) {
            Some(j) => j,
            None => {
                return None;
            },
        };
        let u = &self.users[i];
        let p = &self.profiles[j];
        let c = UserCombined {
            id: u.id.clone(),
            email: u.email.clone(),
            is_admin: u.is_admin,
            is_enabled: u.is_enabled,
            created_at: u.created_at,
            username: p.username.clone(),
            bio: crate::database::copy_opt(&p.bio),
            image: crate::database::copy_opt(&p.image),
        };
        proof {
            assert(c == combined(self.users@[i as int], self.profiles@[j as int]));
        }
        Some(c)
    }

    /// Sets the display name and bio of `user_id`, then reads the account back.
    pub fn update_user_profile(&mut self, user_id: &str, name: &str, bio: &str) -> (r: Result<
        UserCombined,
        DBUserErrors,
    >)
        requires
            old(self).wf(),
        ensures
            final(self).wf(),
            final(self).same_rooms(*old(self)),
            final(self).users@ == old(self).users@,
            final(self).profiles@.len() == old(self).profiles@.len(),
            forall|k: int|
                0 <= k < old(self).profiles@.len() ==> {
                    let (a, b) = (old(self).profiles@[k], #[trigger] final(self).profiles@[k]);
                    if a.user_id@ == user_id@ {
                        b.id == a.id && b.user_id == a.user_id && b.image == a.image
                            && with_name_bio(name@, bio@)(b)
                    } else {
                        b == a
                    }
                },
            r is Err <==> !old(self).has_user(user_id@) || !old(self).has_profile(user_id@),
            r matches Ok(c) ==> c.username@ == name@ && c.id@ == user_id@ && c.bio is Some
                && bio_text(c.bio) == bio@,
    {
        let id = user_id.to_owned();
        let ghost before = *self;
        let mut i: usize = 0;
        while i < self.profiles.len()
            invariant
                self.same_rooms(before),
                self.users@ == before.users@,
                self.profiles@.len() == before.profiles@.len(),
                id@ == user_id@,
                i <= self.profiles@.len(),
                forall|k: int|
                    0 <= k < before.profiles@.len() ==> {
                        let (a, b) = (before.profiles@[k], #[trigger] self.profiles@[k]);
                        if a.user_id@ == user_id@ && k < i {
                            b.id == a.id && b.user_id == a.user_id && b.image == a.image
                                && with_name_bio(name@, bio@)(b)
                        } else {
                            b == a
                        }
                    },
            decreases self.profiles@.len() - i,
        {
            if self.profiles[i].user_id == id {
                self.profiles[i].username = name.to_owned();
                self.profiles[i].bio = Some(bio.to_owned());
            }
            i = i + 1;
        }
        proof {
            assert forall|k: int| 0 <= k < self.messages@.len() implies self.has_room(
                #[trigger] self.messages@[k].room_id@,
            ) by {
                assert(before.has_room(before.messages@[k].room_id@));
            }
            if before.has_profile(user_id@) {
                let j = choose|j: int|
                    0 <= j < before.profiles@.len() && #[trigger] before.profiles@[j].user_id@
                        == user_id@;
                assert(self.profiles@[j].user_id@ == user_id@);
            }
            if self.has_profile(user_id@) {
                let j = choose|j: int|
                    0 <= j < self.profiles@.len() && #[trigger] self.profiles@[j].user_id@
                        == user_id@;
                assert(before.profiles@[j].user_id@ == user_id@);
            }
        }
        match self.get_user_with_profile(user_id) {
            Some(c) => {
                proof {
                    let (ui, pj) = choose|ui: int, pj: int|
                        first_user_at(self.users@, user_id@, ui) && first_profile_at(
                            self.profiles@,
                            user_id@,
                            pj,
                        ) && c == combined(self.users@[ui], self.profiles@[pj]);
                    assert(with_name_bio(name@, bio@)(self.profiles@[pj]));
                }
                Ok(c)
            },
            None => Err(DBUserErrors::InternalError("no account with this id".to_owned())),
        }
    }

    /// Display names of the profiles of the users of `ids`, in profile order.
    pub fn get_usernames_by_id(&self, ids: &Vec<String>) -> (r: Vec<String>)
        ensures
            r@.map_values(|s: String| s@) == self.profiles@.filter(
                |p: UserProfile| crate::text::views(ids@).contains(p.user_id@),
            ).map_values(|p: UserProfile| p.username@),
    {
        let ghost pred = |p: UserProfile| crate::text::views(ids@).contains(p.user_id@);
        let mut out: Vec<String> = Vec::new();
        let mut i: usize = 0;
        while i < self.profiles.len()
            invariant
                i <= self.profiles@.len(),
                pred == (|p: UserProfile| crate::text::views(ids@).contains(p.user_id@)),
                out@.map_values(|s: String| s@) == self.profiles@.subrange(0, i as int).filter(
                    pred,
                ).map_values(|p: UserProfile| p.username@),
            decreases self.profiles@.len() - i,
        {
            proof {
                let next = self.profiles@.subrange(0, i as int + 1);
                assert(next.drop_last() =~= self.profiles@.subrange(0, i as int));
                reveal(Seq::filter);
            }
            let ghost before = out@;
            if contains_id(ids, &self.profiles[i].user_id) {
                out.push(self.profiles[i].username.clone());
                proof {
                    assert(out@.map_values(|s: String| s@) =~= before.map_values(|s: String| s@).push(
                        self.profiles@[i as int].username@,
                    ));
                    assert(self.profiles@.subrange(0, i as int + 1).filter(pred).map_values(
                        |p: UserProfile| p.username@,
                    ) =~= self.profiles@.subrange(0, i as int).filter(pred).map_values(
                        |p: UserProfile| p.username@,
                    ).push(self.profiles@[i as int].username@));
                }
            }
            i = i + 1;
        }
        proof {
            assert(self.profiles@.subrange(0, self.profiles@.len() as int) =~= self.profiles@);
        }
        out
    }

    /// The members of `roomid`, in membership order, each with the display name
    /// of their first profile, or an empty name without one.
    pub fn get_room_users(&self, roomid: &str) -> (r: Vec<RoomUser>)
        requires
            self.wf(),
        ensures
            r@.len() == crate::database::rows_of(self.members@, roomid@).len(),
            forall|a: int, b: int|
                0 <= a < r@.len() && 0 <= b < r@.len() && a != b ==> (#[trigger] r@[a]).id@ != (#[trigger] r@[b]).id@,
            forall|u: Seq<char>|
                self.is_member(roomid@, u) <==> exists|k: int| 0 <= k < r@.len() && (#[trigger] r@[k]).id@ == u,
            forall|k: int|
                0 <= k < r@.len() ==> {
                    let m = crate::database::rows_of(self.members@, roomid@)[k];
                    &&& (#[trigger] r@[k]).id@ == m.user_id@
                    &&& self.has_profile(m.user_id@) ==> exists|j: int|
                        first_profile_at(self.profiles@, m.user_id@, j) && r@[k].name@
                            == self.profiles@[j].username@
                    &&& !self.has_profile(m.user_id@) ==> r@[k].name@.len() == 0
                },
    {
        let room = roomid.to_owned();
        let mut out: Vec<RoomUser> = Vec::new();
        let mut i: usize = 0;
        while i < self.members.len()
            invariant
                i <= self.members@.len(),
                room@ == roomid@,
                out@.len() == crate::database::rows_of(self.members@.subrange(0, i as int), roomid@).len(),
                forall|k: int|
                    0 <= k < out@.len() ==> {
                        let m = crate::database::rows_of(self.members@.subrange(0, i as int), roomid@)[k];
                        &&& (#[trigger] out@[k]).id@ == m.user_id@
                        &&& self.has_profile(m.user_id@) ==> exists|j: int|
                            first_profile_at(self.profiles@, m.user_id@, j) && out@[k].name@
                                == self.profiles@[j].username@
                        &&& !self.has_profile(m.user_id@) ==> out@[k].name@.len() == 0
                    },
            decreases self.members@.len() - i,
        {
            proof {
                let next = self.members@.subrange(0, i as int + 1);
                assert(next.drop_last() =~= self.members@.subrange(0, i as int));
                reveal(Seq::filter);
            }
            if self.members[i].room_id == room {
                let uid = self.members[i].user_id.clone();
                let name = match self.find_profile(&uid) {
                    Some(j) => self.profiles[j].username.clone(),
                    None => String::new(),
                };
                out.push(RoomUser { id: uid, name });
            }
            i = i + 1;
        }
        proof {
            assert(self.members@.subrange(0, self.members@.len() as int) =~= self.members@);
        }
        proof {
            crate::database::lemma_room_rows_distinct(self.rooms@, self.members@, roomid@);
            let f = crate::database::rows_of(self.members@, roomid@);
            let p = crate::database::in_room(roomid@);
            assert forall|u: Seq<char>|
                self.is_member(roomid@, u) <==> exists|k: int| 0 <= k < out@.len() && (#[trigger] out@[k]).id@ == u by {
                if self.is_member(roomid@, u) {
                    let t = choose|t: int| 0 <= t < self.members@.len() && #[trigger] self.members@[t].room_id@ == roomid@
                        && self.members@[t].user_id@ == u;
                    self.members@.lemma_filter_contains(p, t);
                    let k = choose|k: int| 0 <= k < f.len() && f[k] == self.members@[t];
                    assert(out@[k].id@ == u);
                }
                if exists|k: int| 0 <= k < out@.len() && (#[trigger] out@[k]).id@ == u {
                    let k = choose|k: int| 0 <= k < out@.len() && (#[trigger] out@[k]).id@ == u;
                    self.members@.lemma_filter_pred(p, k);
                    assert(f.contains(f[k]));
                    self.members@.lemma_filter_contains_rev(p, f[k]);
                    let t = choose|t: int| 0 <= t < self.members@.len() && self.members@[t] == f[k];
                    assert(self.members@[t].room_id@ == roomid@);
                }
            }
        }
        out
    }
}

/// Whether `id` is one of `ids`.
fn contains_id(ids: &Vec<String>, id: &String) -> (r: bool)
    ensures
        r == crate::text::views(ids@).contains(id@),
{
    let mut i: usize = 0;
    while i < ids.len()
        invariant
            i <= ids@.len(),
            forall|k: int| 0 <= k < i ==> ids@[k]@ != id@,
        decreases ids@.len() - i,
    {
        if ids[i] == *id {
            proof {
                assert(crate::text::views(ids@)[i as int] == id@);
            }
            return true;
        }
        i = i + 1;
    }
    false
}

/// Each account of `users` that has a profile, with its first profile, in
/// account order.
pub open spec fn user_list(users: Seq<User>, profiles: Seq<UserProfile>) -> Seq<UserCombined>
    decreases users.len(),
{
    if users.len() == 0 {
        Seq::empty()
    } else {
        let rest = user_list(users.drop_last(), profiles);
        let u = users.last();
        if exists|j: int| first_profile_at(profiles, u.id@, j) {
            let j = choose|j: int| first_profile_at(profiles, u.id@, j);
            rest.push(combined(u, profiles[j]))
        } else {
            rest
        }
    }
}

impl Database {
    /// Every account that has a profile, with that profile.
    pub fn get_user_list(&self) -> (r: Vec<UserCombined>)
        ensures
            r@ == user_list(self.users@, self.profiles@),
    {
        let mut out: Vec<UserCombined> = Vec::new();
        let mut i: usize = 0;
        while i < self.users.len()
            invariant
                i <= self.users@.len(),
                out@ == user_list(self.users@.subrange(0, i as int), self.profiles@),
            decreases self.users@.len() - i,
        {
            proof {
                let next = self.users@.subrange(0, i as int + 1);
                assert(next.drop_last() =~= self.users@.subrange(0, i as int));
                assert(next.last() == self.users@[i as int]);
            }
            let u = &self.users[i];
            match self.find_profile(&u.id) {
                Some(j) => {
                    let p = &self.profiles[j];
                    let c = UserCombined {
                        id: u.id.clone(),
                        email: u.email.clone(),
                        is_admin: u.is_admin,
                        is_enabled: u.is_enabled,
                        created_at: u.created_at,
                        username: p.username.clone(),
                        bio: crate::database::copy_opt(&p.bio),
                        image: crate::database::copy_opt(&p.image),
                    };
                    proof {
                        let k = choose|k: int| first_profile_at(self.profiles@, u.id@, k);
                        if k < j {
                            assert(self.profiles@[k].user_id@ != u.id@);
                        } else if k > j {
                            assert(self.profiles@[j as int].user_id@ != u.id@);
                        }
                        assert(c == combined(self.users@[i as int], self.profiles@[j as int]));
                    }
                    out.push(c);
                },
                None => {
                    proof {
                        if exists|j: int| first_profile_at(self.profiles@, u.id@, j) {
                            let j = choose|j: int| first_profile_at(self.profiles@, u.id@, j);
                            assert(self.profiles@[j].user_id@ == u.id@);
                        }
                    }
                },
            }
            i = i + 1;
        }
        proof {
            assert(self.users@.subrange(0, self.users@.len() as int) =~= self.users@);
        }
        out
    }
}

/// `c` with ASCII upper-case letters lowered.
pub open spec fn ascii_lower(c: char) -> char {
    if 'A' <= c && c <= 'Z' {
        ((c as int) + 32) as char
    } else {
        c
    }
}

/// `needle` occurs in `hay` at `i`, ASCII letters compared without case.
pub open spec fn folded_at(hay: Seq<char>, needle: Seq<char>, i: int) -> bool {
    &&& 0 <= i
    &&& i + needle.len() <= hay.len()
    &&& forall|k: int| 0 <= k < needle.len() ==> ascii_lower(#[trigger] hay[i + k]) == ascii_lower(needle[k])
}

/// `needle` occurs somewhere in `hay`, ASCII letters compared without case.
pub open spec fn contains_folded(hay: Seq<char>, needle: Seq<char>) -> bool {
    exists|i: int| folded_at(hay, needle, i)
}

/// At most the first five entries of `s`.
pub open spec fn first_five(s: Seq<UserCombined>) -> Seq<UserCombined> {
    if s.len() <= 5 {
        s
    } else {
        s.take(5)
    }
}

/// The accounts that a search for `search` by `user_id` lists.
pub open spec fn search_hit(search: Seq<char>, user_id: Seq<char>) -> spec_fn(UserCombined) -> bool {
    |c: UserCombined| c.id@ != user_id && contains_folded(c.username@, search)
}

fn lower_char(c: char) -> (r: char)
    ensures
        r == ascii_lower(c),
{
    if 'A' <= c && c <= 'Z' {
        proof {
            assert((c as int) + 32 < 256);
        }
        ((c as u8) + 32) as char
    } else {
        c
    }
}

/// Whether `needle` occurs in `hay`, ASCII letters compared without case.
pub fn contains_ignoring_case(hay: &str, needle: &str) -> (r: bool)
    ensures
        r == contains_folded(hay@, needle@),
{
    let n = hay.unicode_len();
    let m = needle.unicode_len();
    if m > n {
        return false;
    }
    let mut i: usize = 0;
    while i <= n - m
        invariant
            n == hay@.len(),
            m == needle@.len(),
            m <= n,
            i <= n - m + 1,
            forall|j: int| 0 <= j < i ==> !folded_at(hay@, needle@, j),
        decreases n - m + 1 - i,
    {
        let mut k: usize = 0;
        let mut same = true;
        while k < m
            invariant
                n == hay@.len(),
                m == needle@.len(),
                i + m <= n,
                k <= m,
                same ==> forall|q: int| 0 <= q < k ==> ascii_lower(#[trigger] hay@[i + q]) == ascii_lower(needle@[q]),
                !same ==> !folded_at(hay@, needle@, i as int),
            decreases m - k,
        {
            if lower_char(hay.get_char(i + k)) != lower_char(needle.get_char(k)) {
                same = false;
            }
            k = k + 1;
        }
        if same {
            proof {
                assert(folded_at(hay@, needle@, i as int));
            }
            return true;
        }
        i = i + 1;
    }
    proof {
        assert forall|j: int| !folded_at(hay@, needle@, j) by {
            if 0 <= j && j + m <= n {
                assert(j < i);
            }
        }
    }
    false
}

impl Database {
    /// Up to five accounts, other than `user_id`'s, whose display name holds
    /// `search` as plain text, ASCII letters compared without case.
    pub fn search_users(&self, search: &str, user_id: &str) -> (r: Vec<UserCombined>)
        ensures
            r@ == first_five(user_list(self.users@, self.profiles@).filter(search_hit(search@, user_id@))),
    {
        let all = self.get_user_list();
        let me = user_id.to_owned();
        let mut out: Vec<UserCombined> = Vec::new();
        let mut i: usize = 0;
        while i < all.len()
            invariant
                i <= all@.len(),
                me@ == user_id@,
                all@ == user_list(self.users@, self.profiles@),
                out@ == first_five(all@.subrange(0, i as int).filter(search_hit(search@, user_id@))),
            decreases all@.len() - i,
        {
            proof {
                let next = all@.subrange(0, i as int + 1);
                assert(next.drop_last() =~= all@.subrange(0, i as int));
                reveal(Seq::filter);
            }
            let ghost before = all@.subrange(0, i as int).filter(search_hit(search@, user_id@));
            if out.len() < 5 && all[i].id != me && contains_ignoring_case(all[i].username.as_str(), search) {
                let c = &all[i];
                let copy = UserCombined {
                    id: c.id.clone(),
                    email: c.email.clone(),
                    is_admin: c.is_admin,
                    is_enabled: c.is_enabled,
                    created_at: c.created_at,
                    username: c.username.clone(),
                    bio: crate::database::copy_opt(&c.bio),
                    image: crate::database::copy_opt(&c.image),
                };
                out.push(copy);
                proof {
                    assert(first_five(before.push(all@[i as int])) =~= out@);
                }
            } else {
                proof {
                    if search_hit(search@, user_id@)(all@[i as int]) {
                        assert(first_five(before.push(all@[i as int])) =~= first_five(before));
                    }
                }
            }
            i = i + 1;
        }
        proof {
            assert(all@.subrange(0, all@.len() as int) =~= all@);
        }
        out
    }
}

} // verus!
