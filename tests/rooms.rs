use chat::database::{AccessError, Database, RoomError};
use chat::rooms::{ChatRoomErrors, Manager};
use chat::stream::{RecvOutcome, StreamStats, StreamStep};
use chat::text::split;
use chat::users::{User, UserProfile};
use tokio::sync::broadcast::error::TryRecvError;

fn store_with_general() -> Database {
    let mut db = Database::new();
    db.init_rooms();
    db
}

fn ids(v: &[&str]) -> Vec<String> {
    v.iter().map(|s| s.to_string()).collect()
}

#[test]
fn init_rooms_creates_public_general_once() {
    let mut db = store_with_general();
    assert_eq!(db.rooms.len(), 1);
    assert_eq!(db.rooms[0].id, "general");
    assert_eq!(db.rooms[0].description, "The general channel");
    assert!(!db.rooms[0].is_private);
    db.init_rooms();
    assert_eq!(db.rooms.len(), 1);
}

#[test]
fn create_room_twice_returns_same_id_without_duplicates() {
    let mut db = Database::new();
    let first = db.create_room("team", "Team", "", true, false, &ids(&["u1", "u2"]));
    let rooms = db.rooms.len();
    let members = db.members.len();
    let second = db.create_room("team", "Other", "x", true, false, &ids(&["u1", "u2", "u3"]));
    assert_eq!(first, "team");
    assert_eq!(second, "team");
    assert_eq!(db.rooms.len(), rooms);
    assert_eq!(db.members.len(), members);
    assert_eq!(db.rooms[0].name, "Team");
    assert!(!db.is_member_of_room("team", "u3"));
}

#[test]
fn create_room_skips_repeated_members() {
    let mut db = Database::new();
    db.create_room("team", "Team", "", true, false, &ids(&["u1", "u1"]));
    assert_eq!(db.members.len(), 1);
    db.create_room("open", "Open", "", false, false, &ids(&["u1"]));
    assert!(!db.is_member_of_room("open", "u1"));
}

#[test]
fn private_room_history_is_hidden_from_non_members() {
    let mut db = Database::new();
    db.create_room("secret", "Secret", "", true, false, &ids(&["alice"]));
    db.send_message("secret", "alice", "Alice", None, "psst", &vec![]).ok().unwrap();
    for page in 0..3 {
        assert!(db.get_messages_for_room("secret", "bob", page).is_empty());
    }
    assert_eq!(db.get_messages_for_room("secret", "alice", 0).len(), 1);
    assert!(db.get_room("secret", "bob").is_none());
    assert!(db.get_room("secret", "alice").is_some());
    assert!(matches!(db.check_access("secret", "bob"), Err(AccessError::AccessDenied)));
    assert!(matches!(db.check_access("nowhere", "bob"), Err(AccessError::RoomNotFound)));
}

#[test]
fn non_member_cannot_send_to_private_room() {
    let mut db = Database::new();
    db.create_room("secret", "Secret", "", true, false, &ids(&["alice"]));
    let r = db.send_message("secret", "bob", "Bob", None, "hi", &vec![]);
    assert!(matches!(r, Err(AccessError::AccessDenied)));
    let r = db.send_message("missing", "bob", "Bob", None, "hi", &vec![]);
    assert!(matches!(r, Err(AccessError::RoomNotFound)));
    assert!(db.messages.is_empty());
}

#[test]
fn history_lists_latest_first() {
    let mut db = store_with_general();
    for text in ["one", "two", "three"] {
        db.send_message("general", "a", "A", None, text, &vec![]).ok().unwrap();
    }
    let page = db.get_messages_for_room("general", "b", 0);
    let texts: Vec<&str> = page.iter().map(|m| m.message.as_str()).collect();
    assert_eq!(texts, vec!["three", "two", "one"]);
}

#[test]
fn seven_messages_page_as_five_then_two() {
    let mut db = store_with_general();
    for i in 0..7 {
        db.send_message("general", "a", "A", None, &format!("m{}", i), &vec![]).ok().unwrap();
    }
    let manager = Manager::new(db);
    let (first, next) = manager.list("general", "b", 0).ok().unwrap();
    assert_eq!(first.len(), 5);
    assert_eq!(next, 1);
    assert_eq!(first[0].message, "m6");
    let (second, next) = manager.list("general", "b", next).ok().unwrap();
    assert_eq!(second.len(), 2);
    assert_eq!(next, 0);
    assert_eq!(second[1].message, "m0");
    assert!(manager.get_room_messages("general", 2, "b").is_empty());
}

#[test]
fn list_reports_missing_and_forbidden_rooms() {
    let mut db = Database::new();
    db.create_room("secret", "Secret", "", true, false, &ids(&["alice"]));
    let manager = Manager::new(db);
    assert!(matches!(manager.list("nope", "bob", 0), Err(ChatRoomErrors::RoomNotFound(id)) if id == "nope"));
    assert!(matches!(manager.list("secret", "bob", 0), Err(ChatRoomErrors::AccessDenied(id)) if id == "secret"));
}

#[test]
fn removing_the_last_member_is_refused() {
    let mut db = Database::new();
    db.create_room("solo", "Solo", "", true, false, &ids(&["alice"]));
    let r = db.remove_user_from_room("solo", "alice");
    assert!(matches!(r, Err(RoomError::CannotBeEmpty)));
    assert!(db.is_member_of_room("solo", "alice"));
    assert_eq!(db.members.len(), 1);
}

#[test]
fn removing_one_of_two_members_succeeds() {
    let mut db = Database::new();
    db.create_room("duo", "Duo", "", true, false, &ids(&["alice", "bob"]));
    db.remove_user_from_room("duo", "bob").ok().unwrap();
    assert!(!db.is_member_of_room("duo", "bob"));
    assert!(db.is_member_of_room("duo", "alice"));
}

#[test]
fn adding_a_member_twice_keeps_one_row() {
    let mut db = Database::new();
    db.create_room("duo", "Duo", "", true, false, &ids(&["alice"]));
    db.add_user_to_room("duo", "bob");
    db.add_user_to_room("duo", "bob");
    assert_eq!(db.members.len(), 2);
    assert!(db.is_member_of_room("duo", "bob"));
}

#[test]
fn attachments_resolve_to_paths_joined_by_bars() {
    let mut db = store_with_general();
    let first = db.add_upload_and_continue("a", Some("general".to_string()), Some("x-a.png".to_string()));
    let second = db.add_upload_and_continue("a", None, Some("y-b.txt".to_string()));
    assert_eq!(first.len(), 20);
    assert_ne!(first, second);
    let m = db.send_message("general", "a", "A", None, "files", &vec![first, second]).ok().unwrap();
    assert_eq!(m.uploads.as_deref(), Some("x-a.png||y-b.txt"));
    assert_eq!(split(m.uploads.unwrap()), vec!["x-a.png", "y-b.txt"]);
}

#[test]
fn upload_without_url_records_nothing() {
    let mut db = Database::new();
    let id = db.add_upload_and_continue("a", None, None);
    assert_eq!(id, "");
    assert!(db.uploads.is_empty());
}

#[test]
fn unknown_attachment_aborts_the_send() {
    let mut db = store_with_general();
    let r = db.send_message("general", "a", "A", None, "files", &ids(&["nope"]));
    assert!(matches!(r, Err(AccessError::AttachmentNotFound(a)) if a == "nope"));
    assert!(db.messages.is_empty());
}

#[test]
fn message_without_attachments_has_no_uploads() {
    let mut db = store_with_general();
    let m = db.send_message("general", "a", "A", Some("a.png".to_string()), "hi", &vec![]).ok().unwrap();
    assert!(m.uploads.is_none());
    assert_eq!(m.id.len(), 20);
    assert_eq!(m.user_image.as_deref(), Some("a.png"));
}

#[test]
fn send_without_live_room_is_stored() {
    let mut manager = Manager::new(store_with_general());
    let id = manager.send_message("general", "a", "A", None, "quiet", &vec![]).ok().unwrap();
    assert!(manager.rooms.is_empty());
    let page = manager.get_room_messages("general", 0, "b");
    assert_eq!(page[0].id, id);
}

#[test]
fn join_checks_access_and_creates_one_live_room() {
    let mut db = store_with_general();
    db.create_room("secret", "Secret", "", true, false, &ids(&["alice"]));
    let mut manager = Manager::new(db);
    assert!(matches!(manager.join_room("secret".to_string(), "bob"), Err(ChatRoomErrors::AccessDenied(_))));
    assert!(matches!(manager.join_room("none".to_string(), "bob"), Err(ChatRoomErrors::RoomNotFound(_))));
    assert!(manager.rooms.is_empty());
    let _a = manager.join_room("general".to_string(), "a").ok().unwrap();
    let _b = manager.join_room("general".to_string(), "b").ok().unwrap();
    assert_eq!(manager.rooms.len(), 1);
    assert_eq!(manager.rooms[0].room_id, "general");
}

#[test]
fn live_subscriber_sees_sends_in_order() {
    let mut manager = Manager::new(store_with_general());
    let mut rx = manager.join_room("general".to_string(), "b").ok().unwrap();
    let mut sent = Vec::new();
    for i in 0..4 {
        sent.push(manager.send_message("general", "a", "A", None, &format!("n{}", i), &vec![]).ok().unwrap());
    }
    for (i, id) in sent.iter().enumerate() {
        let m = rx.try_recv().unwrap();
        assert_eq!(&m.id, id);
        assert_eq!(m.message, format!("n{}", i));
    }
    assert!(matches!(rx.try_recv(), Err(TryRecvError::Empty)));
}

#[test]
fn end_to_end_hi_in_general() {
    let mut manager = Manager::new(store_with_general());
    let mut rx = manager.join_room("general".to_string(), "user-b").ok().unwrap();
    let id = manager.send_message("general", "user-a", "A", None, "hi", &vec![]).ok().unwrap();
    let live = rx.try_recv().unwrap();
    assert_eq!(live.id, id);
    assert_eq!(live.room_id, "general");
    assert_eq!(live.user_id, "user-a");
    assert_eq!(live.message, "hi");
    let (page, _) = manager.list("general", "user-b", 0).ok().unwrap();
    assert_eq!(page[0].id, id);
    assert_eq!(page[0].message, "hi");
}

#[test]
fn lagging_subscriber_skips_and_recovers_from_history() {
    let mut manager = Manager::new(store_with_general());
    let mut slow = manager.join_room("general".to_string(), "slow").ok().unwrap();
    let mut fast = manager.join_room("general".to_string(), "fast").ok().unwrap();
    let total = 1034;
    for i in 0..total {
        manager.send_message("general", "a", "A", None, &format!("m{}", i), &vec![]).ok().unwrap();
        let m = fast.try_recv().unwrap();
        assert_eq!(m.message, format!("m{}", i));
    }
    let mut stats = StreamStats::new();
    let lag = match slow.try_recv() {
        Err(TryRecvError::Lagged(n)) => n,
        _ => panic!("expected a lag"),
    };
    assert_eq!(lag, 10);
    assert!(matches!(stats.next_step(RecvOutcome::Lagged(lag)), StreamStep::Skip));
    assert_eq!(stats.missed, 10);
    let m = slow.try_recv().unwrap();
    assert_eq!(m.message, "m10");
    assert!(matches!(stats.next_step(RecvOutcome::Message(m)), StreamStep::Emit(_)));
    assert_eq!(stats.delivered, 1);
    let (page, next) = manager.list("general", "slow", 0).ok().unwrap();
    assert_eq!(page[0].message, "m1033");
    assert_eq!(next, 1);
    assert_eq!(manager.db.messages.len(), total);
}

#[test]
fn closed_channel_ends_the_stream() {
    let mut stats = StreamStats::new();
    assert!(matches!(stats.next_step(RecvOutcome::Closed), StreamStep::End));
    assert_eq!(stats.delivered, 0);
    assert_eq!(stats.missed, 0);
}

#[test]
fn lag_counter_saturates() {
    let mut stats = StreamStats::new();
    stats.next_step(RecvOutcome::Lagged(u64::MAX));
    stats.next_step(RecvOutcome::Lagged(5));
    assert_eq!(stats.missed, u64::MAX);
}

#[test]
fn get_rooms_splits_conversations_from_topics() {
    let mut db = store_with_general();
    db.create_room("a-b", "B", "", true, true, &ids(&["a", "b"]));
    db.create_room("c-d", "D", "", true, true, &ids(&["c", "d"]));
    db.create_room("club", "Club", "", true, false, &ids(&["a"]));
    let (conversations, topics) = db.get_rooms("a");
    let c: Vec<&str> = conversations.iter().map(|r| r.id.as_str()).collect();
    let t: Vec<&str> = topics.iter().map(|r| r.id.as_str()).collect();
    assert_eq!(c, vec!["a-b"]);
    assert_eq!(t, vec!["general", "club"]);
}

#[test]
fn members_cannot_be_added_to_unknown_rooms() {
    let mut db = Database::new();
    db.add_user_to_room("later", "ghost");
    assert!(db.members.is_empty());
    db.create_room("later", "Later", "", true, false, &ids(&["alice"]));
    assert!(!db.is_member_of_room("later", "ghost"));
    assert_eq!(db.members.len(), 1);
}

#[test]
fn history_shows_current_profile_names_newest_first() {
    let mut db = store_with_general();
    db.create_user("a", User { email: "a@x".into(), ..User::default() },
        UserProfile { id: String::new(), user_id: String::new(), username: "Ann".into(), bio: None, image: None }).ok().unwrap();
    db.send_message("general", "a", "old name", None, "one", &vec![]).ok().unwrap();
    db.send_message("general", "a", "old name", None, "two", &vec![]).ok().unwrap();
    db.set_user_image("a", Some("me.png".into()));
    let page = db.get_messages_for_room("general", "b", 0);
    assert_eq!(page[0].message, "two");
    assert_eq!(page[0].user_name, "Ann");
    assert_eq!(page[1].user_image.as_deref(), Some("me.png"));
    assert!(page[0].created_at >= page[1].created_at);
}

#[test]
fn commit_times_never_go_back() {
    let mut db = store_with_general();
    for i in 0..20 {
        db.send_message("general", "a", "A", None, &format!("m{}", i), &vec![]).ok().unwrap();
    }
    for w in db.messages.windows(2) {
        assert!(w[0].created_at <= w[1].created_at);
        assert_ne!(w[0].id, w[1].id);
    }
}

#[test]
fn append_refuses_a_taken_id_and_stamps_monotonically() {
    let mut db = store_with_general();
    let first = db.append_message("id-1".to_string(), 100, "general", "a", "A", None, "x", None).ok().unwrap();
    assert_eq!(first.created_at, 100);
    let r = db.append_message("id-1".to_string(), 200, "general", "a", "A", None, "y", None);
    assert!(matches!(r, Err(AccessError::DuplicateId(d)) if d == "id-1"));
    assert_eq!(db.messages.len(), 1);
    let late = db.append_message("id-2".to_string(), 50, "general", "a", "A", None, "z", Some("p".into())).ok().unwrap();
    assert_eq!(late.created_at, 100);
    assert_eq!(late.uploads.as_deref(), Some("p"));
}
