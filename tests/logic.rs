use chat::auth::{extract_sub, extract_user, generate_token, login_user, validate_token, LoginForm};
use chat::database::Database;
use chat::frontend::{
    anonymous_error, check_admin, check_admin_action, register_id_after_signup, check_member_action, create_topic_room, create_user_room,
    get_random_alphanumeric, initial_register_id, login_error, register_user, shows_room_users,
    upload_file_name, FrontendError, NewRoom, RegistrationForm, Reply,
};
use chat::members::{str_less, user_room_id, user_room_members};
use chat::pagination::{next_page, page_offset};
use chat::text::{join, split};
use chat::users::{contains_ignoring_case, DBUserErrors, User, UserCombined, UserProfile};

fn ids(v: &[&str]) -> Vec<String> {
    v.iter().map(|s| s.to_string()).collect()
}

fn form(name: &str, email: &str, password: &str) -> RegistrationForm {
    RegistrationForm {
        name: name.to_string(),
        email: email.to_string(),
        password: password.to_string(),
        filename: String::new(),
        image: None,
    }
}

fn admin(id: &str, is_admin: bool) -> UserCombined {
    UserCombined {
        id: id.to_string(),
        email: String::new(),
        is_admin,
        is_enabled: true,
        created_at: 0,
        username: String::new(),
        bio: None,
        image: None,
    }
}

#[test]
fn split_on_bars() {
    assert_eq!(split("a||b||c".to_string()), vec!["a", "b", "c"]);
    assert_eq!(split("".to_string()), vec![""]);
    assert_eq!(split("one".to_string()), vec!["one"]);
    assert_eq!(split("|||".to_string()), vec!["", "|"]);
    assert_eq!(split("a||".to_string()), vec!["a", ""]);
}

#[test]
fn join_then_split_round_trips() {
    let parts = ids(&["x.png", "", "y z"]);
    let joined = join(&parts, "||");
    assert_eq!(joined, "x.png||||y z");
    assert_eq!(split(joined), parts);
}

#[test]
fn page_offsets_and_cursors() {
    assert_eq!(page_offset(0), 0);
    assert_eq!(page_offset(3), 15);
    assert_eq!(page_offset(-2), 0);
    assert_eq!(page_offset(i32::MAX), i32::MAX as i64 * 5);
    assert_eq!(next_page(0, 5), 1);
    assert_eq!(next_page(4, 4), 0);
    assert_eq!(next_page(2, 0), 0);
    assert_eq!(next_page(i32::MAX, 5), 0);
}

#[test]
fn string_order_is_by_characters() {
    assert!(str_less("abc", "abd"));
    assert!(str_less("ab", "abc"));
    assert!(!str_less("abc", "abc"));
    assert!(!str_less("b", "abc"));
    assert!(str_less("Z", "a"));
}

#[test]
fn conversation_members_are_sorted_and_unique() {
    let members = user_room_members(&ids(&["carol", "alice", "carol"]), "bob");
    assert_eq!(members, vec!["alice", "bob", "carol"]);
    assert_eq!(user_room_id(&members), "alice-bob-carol");
    let alone = user_room_members(&vec![], "bob");
    assert_eq!(alone, vec!["bob"]);
    assert_eq!(user_room_members(&ids(&["bob"]), "bob"), vec!["bob"]);
}

#[test]
fn conversation_room_is_shared_by_the_same_group() {
    let mut db = Database::new();
    db.create_user("u2", User { email: "b@x".into(), password: "pw".into(), ..User::default() },
        UserProfile { id: String::new(), user_id: String::new(), username: "Bee".into(), bio: None, image: None }).ok().unwrap();
    let first = create_user_room(&mut db, &ids(&["u2"]), "u1");
    let second = create_user_room(&mut db, &ids(&["u1"]), "u2");
    assert_eq!(first, "u1-u2");
    assert_eq!(second, "u1-u2");
    assert_eq!(db.rooms.len(), 1);
    assert_eq!(db.rooms[0].name, "Bee");
    assert!(db.rooms[0].is_private && db.rooms[0].is_user);
    assert!(db.is_member_of_room("u1-u2", "u1"));
    assert!(db.is_member_of_room("u1-u2", "u2"));
}

#[test]
fn topic_room_id_is_kebab_case() {
    let mut db = Database::new();
    let room = NewRoom { name: "My Cool Room".into(), description: "d".into(), is_private: Some(true) };
    let id = create_topic_room(&mut db, &room, "u1");
    assert_eq!(id, "my-cool-room");
    assert_eq!(db.rooms[0].name, "My Cool Room");
    assert!(db.is_member_of_room("my-cool-room", "u1"));
    let public = NewRoom { name: "Open Space".into(), description: String::new(), is_private: None };
    assert_eq!(create_topic_room(&mut db, &public, "u1"), "open-space");
    assert!(!db.rooms[1].is_private);
}

#[test]
fn token_round_trip() {
    let token = generate_token("s3cret", "user-1").ok().unwrap();
    assert!(token.split('.').count() == 3);
    assert_eq!(extract_sub("s3cret", &token).ok().unwrap(), Some("user-1".to_string()));
    assert!(extract_sub("other", &token).is_err());
    assert_eq!(validate_token(Some(&token), "s3cret"), Some("user-1".to_string()));
    assert_eq!(validate_token(None, "s3cret"), None);
    assert_eq!(validate_token(Some("garbage"), "s3cret"), None);
}

fn registered() -> Database {
    let mut db = Database::new();
    register_user(&mut db, "u1", form("Ann", "ann@x", "pw1"), false).ok().unwrap();
    db
}

#[test]
fn first_account_is_enabled_admin() {
    let mut db = Database::new();
    assert!(!db.has_admin());
    let has_admin = db.has_admin();
    let id = register_user(&mut db, "u1", form("Ann", "ann@x", "pw1"), has_admin).ok().unwrap();
    assert_eq!(id, "u1");
    assert!(db.has_admin());
    assert!(db.users[0].is_admin && db.users[0].is_enabled);
    assert_ne!(db.users[0].password, "pw1");
    let has_admin = db.has_admin();
    register_user(&mut db, "u2", form("Bob", "bob@x", "pw2"), has_admin).ok().unwrap();
    assert!(!db.users[1].is_admin && !db.users[1].is_enabled);
    assert!(matches!(db.verify_userpassword("bob@x", "pw2"), Err(DBUserErrors::UserNotEnabled)));
}

#[test]
fn password_check_accepts_only_the_password() {
    let db = registered();
    assert_eq!(db.verify_userpassword("ann@x", "pw1").ok().unwrap(), "u1");
    assert!(matches!(db.verify_userpassword("ann@x", "bad"), Err(DBUserErrors::PasswordMismatch(p)) if p == "bad"));
    assert!(matches!(db.verify_userpassword("nobody@x", "pw"), Err(DBUserErrors::InternalError(_))));
}

#[test]
fn login_issues_a_token_of_the_account() {
    let db = registered();
    let token = login_user(&db, "k", LoginForm { email: "ann@x".into(), password: "pw1".into() }).ok().unwrap();
    let me = extract_user(Some(&token), &db, "k").unwrap();
    assert_eq!(me.id, "u1");
    assert_eq!(me.username, "Ann");
    assert!(login_user(&db, "k", LoginForm { email: "ann@x".into(), password: "no".into() }).is_err());
}

#[test]
fn password_change_replaces_the_password() {
    let mut db = registered();
    db.update_user_password("ann@x", "pw1", "pw9").ok().unwrap();
    assert!(db.verify_userpassword("ann@x", "pw1").is_err());
    assert_eq!(db.verify_userpassword("ann@x", "pw9").ok().unwrap(), "u1");
    assert!(db.update_user_password("ann@x", "wrong", "x").is_err());
}

#[test]
fn registration_requires_every_field() {
    let mut db = Database::new();
    for f in [form("", "e", "p"), form("n", "", "p"), form("n", "e", "")] {
        assert!(matches!(register_user(&mut db, "u", f, false), Err(FrontendError::InvalidForm(_))));
    }
    assert!(db.users.is_empty());
}

#[test]
fn registration_with_image_records_upload() {
    let mut db = Database::new();
    let mut f = form("Ann", "ann@x", "pw");
    f.image = Some("u1-me.png".into());
    register_user(&mut db, "u1", f, true).ok().unwrap();
    assert_eq!(db.uploads.len(), 1);
    assert_eq!(db.uploads[0].url, "u1-me.png");
    assert_eq!(db.profiles[0].image.as_deref(), Some("u1-me.png"));
}

#[test]
fn profile_and_flag_updates() {
    let mut db = Database::new();
    register_user(&mut db, "u1", form("Ann", "ann@x", "pw"), false).ok().unwrap();
    let c = db.update_user_profile("u1", "Annie", "hello").ok().unwrap();
    assert_eq!(c.username, "Annie");
    assert_eq!(c.bio.as_deref(), Some("hello"));
    assert!(db.update_user_profile("nobody", "x", "y").is_err());
    db.set_user_image("u1", Some("pic.png".into()));
    assert_eq!(db.get_user_with_profile("u1").unwrap().image.as_deref(), Some("pic.png"));
    db.unset_user_image("u1");
    assert!(db.get_user_with_profile("u1").unwrap().image.is_none());
    db.enable_user("u1", false);
    db.make_admin_user("u1", false);
    let c = db.get_user_with_profile("u1").unwrap();
    assert!(!c.is_enabled && !c.is_admin);
    assert!(db.get_user_with_profile("nobody").is_none());
    assert_eq!(db.get_user_list().len(), 1);
    assert_eq!(db.get_usernames_by_id(&ids(&["u1", "zz"])), vec!["Annie"]);
}

#[test]
fn room_users_carry_profile_names() {
    let mut db = Database::new();
    register_user(&mut db, "u1", form("Ann", "ann@x", "pw"), false).ok().unwrap();
    db.create_room("club", "Club", "", true, false, &ids(&["u1", "ghost"]));
    let users = db.get_room_users("club");
    assert_eq!(users.len(), 2);
    assert_eq!(users[0].id, "u1");
    assert_eq!(users[0].name, "Ann");
    assert_eq!(users[1].name, "");
}

#[test]
fn admin_and_member_checks() {
    assert!(check_admin_action(&admin("a", true), "b").is_ok());
    assert!(matches!(check_admin_action(&admin("a", true), "a"), Err(FrontendError::NoPermission)));
    assert!(matches!(check_admin_action(&admin("a", false), "b"), Err(FrontendError::NoPermission)));
    assert!(check_member_action(true, false).is_ok());
    assert!(check_member_action(false, true).is_ok());
    assert!(matches!(check_member_action(false, false), Err(FrontendError::NoPermission)));
    assert!(matches!(anonymous_error(true), FrontendError::Unauthorized));
    assert!(matches!(anonymous_error(false), FrontendError::NeedsAdmin));
}

#[test]
fn login_errors_map_to_replies() {
    assert!(matches!(login_error(DBUserErrors::UserNotEnabled), FrontendError::UserNotEnabled));
    assert!(matches!(login_error(DBUserErrors::PasswordMismatch("x".into())), FrontendError::InvalidCredentials));
    assert!(matches!(login_error(DBUserErrors::InternalError("e".into())), FrontendError::InternalError(e) if e == "e"));
    assert!(matches!(FrontendError::Unauthorized.reply(), Reply::Redirect(p) if p == "/login"));
    assert!(matches!(FrontendError::NeedsAdmin.reply(), Reply::Redirect(p) if p == "/register/admin"));
    assert!(matches!(FrontendError::InvalidForm("bad".into()).reply(), Reply::Status(400, b) if b == "bad"));
    assert!(matches!(FrontendError::NoPermission.reply(), Reply::Status(401, _)));
    assert!(matches!(FrontendError::InvalidCredentials.reply(), Reply::Status(500, b) if b.is_empty()));
}

#[test]
fn small_helpers() {
    assert_eq!(upload_file_name("abc", "photo.png"), "abc-photo.png");
    let code = get_random_alphanumeric();
    assert_eq!(code.chars().count(), 10);
    assert!(code.chars().all(|c| c.is_ascii_alphanumeric()));
    assert_ne!(get_random_alphanumeric(), get_random_alphanumeric());
    assert_eq!(initial_register_id(false), "admin");
    assert_eq!(initial_register_id(true).len(), 10);
    let mut db = Database::new();
    db.create_room("club", "Club", "", true, false, &ids(&["u1"]));
    db.create_room("u1-u2", "B", "", true, true, &ids(&["u1", "u2"]));
    assert!(shows_room_users(&db.rooms[0]));
    assert!(!shows_room_users(&db.rooms[1]));
}

fn profile(name: &str) -> UserProfile {
    UserProfile { id: String::new(), user_id: String::new(), username: name.into(), bio: None, image: None }
}

#[test]
fn search_matches_names_without_case_and_skips_self() {
    let mut db = Database::new();
    for (id, name) in [("u1", "Alice"), ("u2", "alina"), ("u3", "Bob"), ("u4", "ALIstair"), ("u5", "Kalif")] {
        db.create_user(id, User { email: format!("{}@x", id), ..User::default() }, profile(name)).ok().unwrap();
    }
    let hits = db.search_users("ali", "u2");
    let names: Vec<&str> = hits.iter().map(|c| c.username.as_str()).collect();
    assert_eq!(names, vec!["Alice", "ALIstair", "Kalif"]);
    assert_eq!(db.search_users("", "nobody").len(), 5);
    assert!(db.search_users("zzz", "u1").is_empty());
}

#[test]
fn search_lists_at_most_five() {
    let mut db = Database::new();
    for i in 0..7 {
        db.create_user(&format!("u{}", i), User { email: format!("{}@x", i), ..User::default() }, profile("sam")).ok().unwrap();
    }
    assert_eq!(db.search_users("SAM", "me").len(), 5);
}

#[test]
fn case_insensitive_containment() {
    assert!(contains_ignoring_case("Hello World", "WORLD"));
    assert!(contains_ignoring_case("abc", ""));
    assert!(!contains_ignoring_case("ab", "abc"));
    assert!(!contains_ignoring_case("Straße", "SS"));
}

#[test]
fn admin_only_pages_and_register_codes() {
    assert!(check_admin(&admin("a", true)).is_ok());
    assert!(matches!(check_admin(&admin("a", false)), Err(FrontendError::NoPermission)));
    assert_eq!(register_id_after_signup(true, "keep".to_string()), "keep");
    let fresh = register_id_after_signup(false, "admin".to_string());
    assert_eq!(fresh.len(), 10);
    assert!(fresh.chars().all(|c| c.is_ascii_alphanumeric()));
}

#[test]
fn token_is_always_issued_and_carries_the_user() {
    let token = generate_token("", "u9").ok().unwrap();
    assert_eq!(extract_sub("", &token).ok().unwrap(), Some("u9".to_string()));
}
