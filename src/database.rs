use vstd::prelude::*;

use crate::outside::{new_xid, now_unix};
use crate::pagination::{next_page_spec, page_offset, page_offset_spec, MAX_FETCH};
use crate::text::{joined, views};

verus! {

/// A chat room as stored: topical channel or direct/group conversation.
pub struct Room {
    pub id: String,
    pub name: String,
    pub is_private: bool,
    pub is_user: bool,
    pub description: String,
    /// Creation time, in seconds since the Unix epoch.
    pub created_at: i64,
}

/// One membership row: `user_id` belongs to `room_id`.
pub struct Membership {
    pub room_id: String,
    pub user_id: String,
}

/// A member of a room, with the display name of their profile.
pub struct RoomUser {
    pub id: String,
    pub name: String,
}

/// A message as stored and as delivered to live subscribers.
#[derive(Clone)]
pub struct ChatMessage {
    pub id: String,
    pub room_id: String,
    pub user_id: String,
    pub user_name: String,
    pub user_image: Option<String>,
    /// Commit time, in seconds since the Unix epoch.
    pub created_at: i64,
    pub message: String,
    /// Stored paths of the attachments, joined by `||`; `None` without attachments.
    pub uploads: Option<String>,
}

/// An uploaded file that messages may reference.
pub struct Upload {
    pub id: String,
    pub uploaded_by: String,
    pub room_id: Option<String>,
    pub url: String,
    pub created_at: i64,
}

/// Refusal of a membership change.
pub enum RoomError {
    /// The room would be left without members.
    CannotBeEmpty,
}

/// Why a read or write on a room was refused.
pub enum AccessError {
    /// No room has that id.
    RoomNotFound,
    /// The room is private and the user is not a member.
    AccessDenied,
    /// An attachment id names no upload.
    AttachmentNotFound(String),
    /// The new message's id is already taken; nothing was stored.
    DuplicateId(String),
}

pub open spec fn opt_view(o: Option<String>) -> Option<Seq<char>> {
    match o {
        Some(s) => Some(s@),
        None => None,
    }
}

pub fn copy_opt(o: &Option<String>) -> (r: Option<String>)
    ensures
        r == *o,
{
    match o {
        Some(s) => Some(s.clone()),
        None => None,
    }
}

impl Room {
    /// A field-by-field copy.
    pub fn copied(&self) -> (r: Room)
        ensures
            r == *self,
    {
        Room {
            id: self.id.clone(),
            name: self.name.clone(),
            is_private: self.is_private,
            is_user: self.is_user,
            description: self.description.clone(),
            created_at: self.created_at,
        }
    }
}

impl ChatMessage {
    /// A field-by-field copy.
    pub fn copied(&self) -> (r: ChatMessage)
        ensures
            r == *self,
    {
        ChatMessage {
            id: self.id.clone(),
            room_id: self.room_id.clone(),
            user_id: self.user_id.clone(),
            user_name: self.user_name.clone(),
            user_image: copy_opt(&self.user_image),
            created_at: self.created_at,
            message: self.message.clone(),
            uploads: copy_opt(&self.uploads),
        }
    }
}

/// The store: rooms, memberships, messages, uploads, accounts and profiles.
pub struct Database {
    pub rooms: Vec<Room>,
    pub members: Vec<Membership>,
    pub messages: Vec<ChatMessage>,
    pub uploads: Vec<Upload>,
    pub users: Vec<crate::users::User>,
    pub profiles: Vec<crate::users::UserProfile>,
}

/// What `create_room` does: with a room `id` already stored nothing changes;
/// otherwise the room is appended and, when private, `users` become its members.
/// The id is returned either way.
pub open spec fn created_room(
    before: Database,
    after: Database,
    r: Seq<char>,
    id: Seq<char>,
    name: Seq<char>,
    description: Seq<char>,
    is_private: bool,
    is_user: bool,
    users: Seq<Seq<char>>,
) -> bool {
    &&& r == id
    &&& before.has_room(id) ==> after == before
    &&& !before.has_room(id) ==> {
        let room = after.rooms@.last();
        &&& after.rooms@ == before.rooms@.push(room)
        &&& room.id@ == id && room.name@ == name && room.description@ == description
        &&& room.is_private == is_private && room.is_user == is_user
        &&& after.messages@ == before.messages@
        &&& after.uploads@ == before.uploads@
        &&& after.users@ == before.users@
        &&& after.profiles@ == before.profiles@
        &&& !is_private ==> after.members@ == before.members@
        &&& forall|rm: Seq<char>, u: Seq<char>|
            #[trigger] after.is_member(rm, u) == (before.is_member(rm, u) || (is_private && rm
                == id && users.contains(u)))
    }
}

/// Some room of `rooms` has the id `id`.
pub open spec fn room_listed(rooms: Seq<Room>, id: Seq<char>) -> bool {
    exists|i: int| 0 <= i < rooms.len() && #[trigger] rooms[i].id@ == id
}

/// The two rows make the same user a member of the same room.
pub open spec fn same_row(a: Membership, b: Membership) -> bool {
    a.room_id@ == b.room_id@ && a.user_id@ == b.user_id@
}

/// No membership row is repeated, and each names a room of `rooms`.
pub open spec fn members_ok(rooms: Seq<Room>, members: Seq<Membership>) -> bool {
    &&& forall|i: int, j: int|
        0 <= i < members.len() && 0 <= j < members.len() && i != j ==> !same_row(
            #[trigger] members[i],
            #[trigger] members[j],
        )
    &&& forall|i: int| 0 <= i < members.len() ==> room_listed(rooms, #[trigger] members[i].room_id@)
}

/// Message ids are unique and commit times never decrease along the log.
pub open spec fn messages_ok(messages: Seq<ChatMessage>) -> bool {
    &&& forall|i: int, j: int|
        0 <= i < messages.len() && 0 <= j < messages.len() && i != j ==> #[trigger] messages[i].id@
            != #[trigger] messages[j].id@
    &&& forall|i: int, j: int|
        0 <= i <= j < messages.len() ==> #[trigger] messages[i].created_at
            <= #[trigger] messages[j].created_at
}

/// Rows that stay unique and name listed rooms keep doing so through a filter.
pub proof fn lemma_filter_members_ok(
    rooms: Seq<Room>,
    s: Seq<Membership>,
    p: spec_fn(Membership) -> bool,
)
    requires
        members_ok(rooms, s),
    ensures
        members_ok(rooms, s.filter(p)),
    decreases s.len(),
{
    reveal(Seq::filter);
    if s.len() > 0 {
        let t = s.drop_last();
        assert(members_ok(rooms, t)) by {
            assert forall|i: int, j: int|
                0 <= i < t.len() && 0 <= j < t.len() && i != j implies !same_row(
                #[trigger] t[i],
                #[trigger] t[j],
            ) by {
                assert(t[i] == s[i] && t[j] == s[j]);
            }
            assert forall|i: int| 0 <= i < t.len() implies room_listed(
                rooms,
                #[trigger] t[i].room_id@,
            ) by {
                assert(t[i] == s[i]);
            }
        }
        lemma_filter_members_ok(rooms, t, p);
        let f = t.filter(p);
        if p(s.last()) {
            let g = f.push(s.last());
            assert(s.filter(p) == g);
            assert forall|k: int| 0 <= k < f.len() implies !same_row(f[k], s.last()) by {
                assert(f.contains(f[k]));
                t.lemma_filter_contains_rev(p, f[k]);
                let m = choose|m: int| 0 <= m < t.len() && t[m] == f[k];
                assert(s[m] == t[m]);
                assert(!same_row(s[m], s[s.len() - 1]));
            }
            assert forall|i: int, j: int|
                0 <= i < g.len() && 0 <= j < g.len() && i != j implies !same_row(
                #[trigger] g[i],
                #[trigger] g[j],
            ) by {
                if i < f.len() && j < f.len() {
                    assert(g[i] == f[i] && g[j] == f[j]);
                } else if i < f.len() {
                    assert(g[i] == f[i]);
                } else {
                    assert(g[j] == f[j]);
                }
            }
            assert forall|i: int| 0 <= i < g.len() implies room_listed(
                rooms,
                #[trigger] g[i].room_id@,
            ) by {
                if i < f.len() {
                    assert(g[i] == f[i]);
                }
            }
        }
    }
}

/// Rows naming listed rooms still name listed rooms after a room is added.
pub proof fn lemma_rooms_grow(rooms: Seq<Room>, r: Room, members: Seq<Membership>)
    requires
        members_ok(rooms, members),
    ensures
        members_ok(rooms.push(r), members),
{
    assert forall|i: int| 0 <= i < members.len() implies room_listed(
        rooms.push(r),
        #[trigger] members[i].room_id@,
    ) by {
        assert(room_listed(rooms, members[i].room_id@));
        let j = choose|j: int| 0 <= j < rooms.len() && #[trigger] rooms[j].id@ == members[i].room_id@;
        assert(rooms.push(r)[j] == rooms[j]);
    }
}

/// A room is readable by a user when it is public or the user is a member.
pub open spec fn can_access(room: Room, is_member: bool) -> bool {
    !room.is_private || is_member
}

impl Database {
    pub open spec fn has_room(self, id: Seq<char>) -> bool {
        exists|i: int| 0 <= i < self.rooms@.len() && #[trigger] self.rooms@[i].id@ == id
    }

    pub open spec fn is_member(self, room: Seq<char>, user: Seq<char>) -> bool {
        exists|i: int|
            0 <= i < self.members@.len() && #[trigger] self.members@[i].room_id@ == room
                && self.members@[i].user_id@ == user
    }

    /// `user` may read and write the room with id `room`.
    pub open spec fn accessible(self, room: Seq<char>, user: Seq<char>) -> bool {
        exists|i: int|
            0 <= i < self.rooms@.len() && #[trigger] self.rooms@[i].id@ == room && can_access(
                self.rooms@[i],
                self.is_member(room, user),
            )
    }

    /// Room ids are unique, every message belongs to a stored room, membership
    /// rows are unique and name stored rooms, and messages have unique ids and
    /// commit times that never decrease.
    pub open spec fn wf(self) -> bool {
        &&& forall|i: int, j: int|
            0 <= i < self.rooms@.len() && 0 <= j < self.rooms@.len() && i != j
                ==> #[trigger] self.rooms@[i].id@ != #[trigger] self.rooms@[j].id@
        &&& forall|k: int|
            0 <= k < self.messages@.len() ==> self.has_room(#[trigger] self.messages@[k].room_id@)
        &&& members_ok(self.rooms@, self.members@)
        &&& messages_ok(self.messages@)
    }

    /// The room `room` has exactly one member.
    pub open spec fn sole_member(self, room: Seq<char>) -> bool {
        exists|u: Seq<char>|
            self.is_member(room, u) && forall|v: Seq<char>| #[trigger]
                self.is_member(room, v) ==> v == u
    }

    /// An empty store.
    pub fn new() -> (r: Database)
        ensures
            r.wf(),
            r.rooms@.len() == 0,
            r.members@.len() == 0,
            r.messages@.len() == 0,
            r.uploads@.len() == 0,
    {
        Database {
            rooms: Vec::new(),
            members: Vec::new(),
            messages: Vec::new(),
            uploads: Vec::new(),
            users: Vec::new(),
            profiles: Vec::new(),
        }
    }

    fn find_room(&self, id: &String) -> (r: Option<usize>)
        ensures
            match r {
                Some(i) => i < self.rooms@.len() && self.rooms@[i as int].id@ == id@,
                None => !self.has_room(id@),
            },
    {
        let mut i: usize = 0;
        while i < self.rooms.len()
            invariant
                i <= self.rooms@.len(),
                forall|j: int| 0 <= j < i ==> self.rooms@[j].id@ != id@,
            decreases self.rooms@.len() - i,
        {
            if self.rooms[i].id == *id {
                return Some(i);
            }
            i = i + 1;
        }
        None
    }

    /// Whether `userid` is a member of `roomid`.
    pub fn is_member_of_room(&self, roomid: &str, userid: &str) -> (r: bool)
        ensures
            r == self.is_member(roomid@, userid@),
    {
        let room = roomid.to_owned();
        let user = userid.to_owned();
        let mut i: usize = 0;
        while i < self.members.len()
            invariant
                i <= self.members@.len(),
                room@ == roomid@,
                user@ == userid@,
                forall|j: int|
                    0 <= j < i ==> !(self.members@[j].room_id@ == room@
                        && self.members@[j].user_id@ == user@),
            decreases self.members@.len() - i,
        {
            if self.members[i].room_id == room && self.members[i].user_id == user {
                return true;
            }
            i = i + 1;
        }
        false
    }

    /// The room `roomid`, if it exists and `user_id` may access it.
    pub fn get_room(&self, roomid: &str, user_id: &str) -> (r: Option<Room>)
        requires
            self.wf(),
        ensures
            r is Some <==> self.accessible(roomid@, user_id@),
            r matches Some(room) ==> room.id@ == roomid@ && self.rooms@.contains(room),
    {
        match self.check_access(roomid, user_id) {
            Ok(i) => Some(self.rooms[i].copied()),
            Err(_) => None,
        }
    }

    /// Where the room `roomid` stands, when `user_id` may access it.
    pub fn check_access(&self, roomid: &str, user_id: &str) -> (r: Result<usize, AccessError>)
        requires
            self.wf(),
        ensures
            match r {
                Ok(i) => i < self.rooms@.len() && self.rooms@[i as int].id@ == roomid@
                    && self.accessible(roomid@, user_id@),
                Err(AccessError::RoomNotFound) => !self.has_room(roomid@),
                Err(AccessError::AccessDenied) => self.has_room(roomid@) && !self.accessible(
                    roomid@,
                    user_id@,
                ),
                Err(AccessError::AttachmentNotFound(_)) => false,
                Err(AccessError::DuplicateId(_)) => false,
            },
    {
        let key = roomid.to_owned();
        match self.find_room(&key) {
            None => Err(AccessError::RoomNotFound),
            Some(i) => {
                let member = self.is_member_of_room(roomid, user_id);
                if !self.rooms[i].is_private || member {
                    Ok(i)
                } else {
                    proof {
                        assert forall|j: int|
                            0 <= j < self.rooms@.len() && #[trigger] self.rooms@[j].id@
                                == roomid@ implies !can_access(
                            self.rooms@[j],
                            self.is_member(roomid@, user_id@),
                        ) by {
                            assert(j == i);
                        }
                    }
                    Err(AccessError::AccessDenied)
                }
            },
        }
    }

    /// Creates a room unless one with `id` exists; returns `id` either way. The
    /// users of `users` become members when the room is private.
    pub fn create_room(
        &mut self,
        id: &str,
        name: &str,
        description: &str,
        is_private: bool,
        is_user: bool,
        users: &Vec<String>,
    ) -> (r: String)
        requires
            old(self).wf(),
        ensures
            final(self).wf(),
            created_room(
                *old(self),
                *final(self),
                r@,
                id@,
                name@,
                description@,
                is_private,
                is_user,
                views(users@),
            ),
    {
        let key = id.to_owned();
        if self.find_room(&key).is_some() {
            return key;
        }
        let created_at = now_unix();
        let room = Room {
            id: id.to_owned(),
            name: name.to_owned(),
            is_private,
            is_user,
            description: description.to_owned(),
            created_at,
        };
        let ghost before = *self;
        let ghost new_room = room;
        self.rooms.push(room);
        proof {
            assert forall|k: int| 0 <= k < self.messages@.len() implies self.has_room(
                #[trigger] self.messages@[k].room_id@,
            ) by {
                assert(before.messages@[k] == self.messages@[k]);
                assert(before.has_room(before.messages@[k].room_id@));
                let j = choose|j: int|
                    0 <= j < before.rooms@.len() && #[trigger] before.rooms@[j].id@
                        == self.messages@[k].room_id@;
                assert(self.rooms@[j] == before.rooms@[j]);
            }
            assert(self.members@ == before.members@);
            lemma_rooms_grow(before.rooms@, new_room, before.members@);
            assert(self.rooms@ == before.rooms@.push(new_room));
            assert forall|rm: Seq<char>, u: Seq<char>|
                #[trigger] self.is_member(rm, u) == before.is_member(rm, u) by {}
            assert(views(users@).subrange(0, 0) =~= Seq::<Seq<char>>::empty());
        }
        if is_private {
            let mut i: usize = 0;
            while i < users.len()
                invariant
                    self.wf(),
                    i <= users@.len(),
                    key@ == id@,
                    self.rooms@ == before.rooms@.push(new_room),
                    new_room.id@ == id@,
                    self.messages@ == before.messages@,
                    self.uploads@ == before.uploads@,
                    self.users@ == before.users@,
                    self.profiles@ == before.profiles@,
                    forall|rm: Seq<char>, u: Seq<char>|
                        #[trigger] self.is_member(rm, u) == (before.is_member(rm, u) || (rm
                            == id@ && views(users@).subrange(0, i as int).contains(u))),
                decreases users@.len() - i,
            {
                let ghost pre = *self;
                proof {
                    assert(self.rooms@[before.rooms@.len() as int] == new_room);
                    assert(self.rooms@[before.rooms@.len() as int].id@ == key@);
                }
                self.add_member(&key, &users[i]);
                proof {
                    let prev = views(users@).subrange(0, i as int);
                    let next = views(users@).subrange(0, i as int + 1);
                    assert(next =~= prev.push(users@[i as int]@));
                    assert forall|rm: Seq<char>, u: Seq<char>|
                        #[trigger] self.is_member(rm, u) == (before.is_member(rm, u) || (rm
                            == id@ && next.contains(u))) by {
                        assert(pre.is_member(rm, u) == (before.is_member(rm, u) || (rm == id@
                            && prev.contains(u))));
                        if next.contains(u) && u != users@[i as int]@ {
                            let k = choose|k: int| 0 <= k < next.len() && next[k] == u;
                            assert(prev[k] == u);
                        }
                        if prev.contains(u) {
                            let k = choose|k: int| 0 <= k < prev.len() && prev[k] == u;
                            assert(next[k] == u);
                        }
                        if u == users@[i as int]@ {
                            assert(next[i as int] == u);
                        }
                    }
                }
                i = i + 1;
            }
            proof {
                assert(views(users@).subrange(0, users@.len() as int) =~= views(users@));
            }
        }
        key
    }

    /// Adds the membership row unless it is there already.
    fn add_member(&mut self, roomid: &String, userid: &String)
        requires
            old(self).wf(),
            old(self).has_room(roomid@),
        ensures
            final(self).wf(),
            final(self).rooms@ == old(self).rooms@,
            final(self).messages@ == old(self).messages@,
            final(self).uploads@ == old(self).uploads@,
            final(self).users@ == old(self).users@,
            final(self).profiles@ == old(self).profiles@,
            forall|rm: Seq<char>, u: Seq<char>|
                #[trigger] final(self).is_member(rm, u) == (old(self).is_member(rm, u) || (rm
                    == roomid@ && u == userid@)),
    {
        if self.is_member_of_room(roomid.as_str(), userid.as_str()) {
            return ;
        }
        let ghost before = *self;
        self.members.push(Membership { room_id: roomid.clone(), user_id: userid.clone() });
        proof {
            let n = before.members@.len() as int;
            assert forall|i: int, j: int|
                0 <= i < self.members@.len() && 0 <= j < self.members@.len() && i != j implies !same_row(
                #[trigger] self.members@[i],
                #[trigger] self.members@[j],
            ) by {
                if i < n && j < n {
                    assert(self.members@[i] == before.members@[i]);
                    assert(self.members@[j] == before.members@[j]);
                } else if i < n {
                    assert(self.members@[i] == before.members@[i]);
                    if same_row(self.members@[i], self.members@[j]) {
                        assert(before.members@[i].room_id@ == roomid@);
                    }
                } else {
                    assert(self.members@[j] == before.members@[j]);
                    if same_row(self.members@[i], self.members@[j]) {
                        assert(before.members@[j].room_id@ == roomid@);
                    }
                }
            }
            assert forall|i: int| 0 <= i < self.members@.len() implies room_listed(
                self.rooms@,
                #[trigger] self.members@[i].room_id@,
            ) by {
                if i < n {
                    assert(self.members@[i] == before.members@[i]);
                } else {
                    let t = choose|t: int| 0 <= t < self.rooms@.len() && #[trigger] self.rooms@[t].id@ == roomid@;
                }
            }
            assert forall|rm: Seq<char>, u: Seq<char>|
                #[trigger] self.is_member(rm, u) == (before.is_member(rm, u) || (rm == roomid@ && u
                    == userid@)) by {
                if before.is_member(rm, u) {
                    let j = choose|j: int|
                        0 <= j < before.members@.len() && #[trigger] before.members@[j].room_id@
                            == rm && before.members@[j].user_id@ == u;
                    assert(self.members@[j] == before.members@[j]);
                }
                if rm == roomid@ && u == userid@ {
                    assert(self.members@[before.members@.len() as int].room_id@ == rm);
                }
                if self.is_member(rm, u) {
                    let j = choose|j: int|
                        0 <= j < self.members@.len() && #[trigger] self.members@[j].room_id@ == rm
                            && self.members@[j].user_id@ == u;
                    if j < before.members@.len() {
                        assert(before.members@[j] == self.members@[j]);
                    }
                }
            }
        }
    }

    /// Makes `userid` a member of the stored room `roomid`; adding an existing
    /// member, or a member of a room that does not exist, changes nothing.
    pub fn add_user_to_room(&mut self, roomid: &str, userid: &str)
        requires
            old(self).wf(),
        ensures
            final(self).wf(),
            final(self).rooms@ == old(self).rooms@,
            final(self).messages@ == old(self).messages@,
            final(self).uploads@ == old(self).uploads@,
            final(self).users@ == old(self).users@,
            final(self).profiles@ == old(self).profiles@,
            forall|rm: Seq<char>, u: Seq<char>|
                #[trigger] final(self).is_member(rm, u) == (old(self).is_member(rm, u) || (
                old(self).has_room(roomid@) && rm == roomid@ && u == userid@)),
            !old(self).has_room(roomid@) ==> *final(self) == *old(self),
    {
        let room = roomid.to_owned();
        let user = userid.to_owned();
        if self.find_room(&room).is_none() {
            return ;
        }
        self.add_member(&room, &user);
    }

    /// Creates the public `general` room when no room exists yet.
    pub fn init_rooms(&mut self)
        requires
            old(self).wf(),
        ensures
            final(self).wf(),
            old(self).rooms@.len() > 0 ==> *final(self) == *old(self),
            old(self).rooms@.len() == 0 ==> {
                let g = final(self).rooms@[0];
                &&& final(self).rooms@.len() == 1
                &&& g.id@ == "general"@ && g.name@ == "general"@
                &&& g.description@ == "The general channel"@
                &&& !g.is_private && !g.is_user
                &&& final(self).members@ == old(self).members@
                &&& final(self).messages@ == old(self).messages@
                &&& final(self).uploads@ == old(self).uploads@
                &&& final(self).users@ == old(self).users@
                &&& final(self).profiles@ == old(self).profiles@
            },
    {
        if self.rooms.len() > 0 {
            return ;
        }
        let no_users: Vec<String> = Vec::new();
        self.create_room("general", "general", "The general channel", false, false, &no_users);
    }
}

/// Membership rows of `room`.
pub open spec fn rows_of(s: Seq<Membership>, room: Seq<char>) -> Seq<Membership> {
    s.filter(in_room(room))
}

pub open spec fn in_room(room: Seq<char>) -> spec_fn(Membership) -> bool {
    |m: Membership| m.room_id@ == room
}

/// The rows of one room name each member once.
pub proof fn lemma_room_rows_distinct(rooms: Seq<Room>, s: Seq<Membership>, room: Seq<char>)
    requires
        members_ok(rooms, s),
    ensures
        forall|a: int, b: int|
            0 <= a < rows_of(s, room).len() && 0 <= b < rows_of(s, room).len() && a != b
                ==> (#[trigger] rows_of(s, room)[a]).user_id@ != (#[trigger] rows_of(s, room)[b]).user_id@,
{
    broadcast use vstd::seq_lib::group_filter_ensures;
    lemma_filter_members_ok(rooms, s, in_room(room));
    let f = rows_of(s, room);
    assert forall|a: int, b: int| 0 <= a < f.len() && 0 <= b < f.len() && a != b implies (#[trigger] f[a]).user_id@
        != (#[trigger] f[b]).user_id@ by {
        assert(in_room(room)(f[a]) && in_room(room)(f[b]));
        assert(!same_row(f[a], f[b]));
    }
}

/// `s` without the rows that make `user` a member of `room`.
pub open spec fn rows_without(s: Seq<Membership>, room: Seq<char>, user: Seq<char>) -> Seq<
    Membership,
> {
    s.filter(keeps(room, user))
}

pub open spec fn keeps(room: Seq<char>, user: Seq<char>) -> spec_fn(Membership) -> bool {
    |m: Membership| !(m.room_id@ == room && m.user_id@ == user)
}

/// The messages of `room` in `s`, the latest committed first.
pub open spec fn newest_first(s: Seq<ChatMessage>, room: Seq<char>) -> Seq<ChatMessage>
    decreases s.len(),
{
    if s.len() == 0 {
        Seq::empty()
    } else {
        let rest = newest_first(s.drop_first(), room);
        if s[0].room_id@ == room {
            rest.push(s[0])
        } else {
            rest
        }
    }
}

/// The part of `history` that page `page` shows.
pub open spec fn page_window(history: Seq<ChatMessage>, page: int) -> Seq<ChatMessage> {
    let off = page_offset_spec(page);
    let start = if off < history.len() { off } else { history.len() as int };
    let end = if off + MAX_FETCH < history.len() { off + MAX_FETCH } else { history.len() as int };
    history.subrange(start, end)
}

/// Some stored upload has the id `id`.
pub open spec fn has_upload(uploads: Seq<Upload>, id: Seq<char>) -> bool {
    exists|j: int| 0 <= j < uploads.len() && #[trigger] uploads[j].id@ == id
}

/// Every attachment id of `ids` names a stored upload.
pub open spec fn all_resolve(uploads: Seq<Upload>, ids: Seq<String>) -> bool {
    forall|k: int| 0 <= k < ids.len() ==> has_upload(uploads, #[trigger] ids[k]@)
}

/// `paths[k]` is the stored path of an upload with id `ids[k]`.
pub open spec fn paths_of(uploads: Seq<Upload>, ids: Seq<String>, paths: Seq<Seq<char>>) -> bool {
    &&& paths.len() == ids.len()
    &&& forall|k: int|
        0 <= k < ids.len() ==> exists|j: int|
            0 <= j < uploads.len() && #[trigger] uploads[j].id@ == ids[k]@ && uploads[j].url@
                == #[trigger] paths[k]
}

impl Database {
    /// Messages of `room`, the latest first.
    pub open spec fn history(self, room: Seq<char>) -> Seq<ChatMessage> {
        newest_first(self.messages@, room)
    }

    /// What page `page` of `room`'s history shows to `user`: nothing when the
    /// user may not access the room.
    pub open spec fn visible_page(self, room: Seq<char>, user: Seq<char>, page: int) -> Seq<
        ChatMessage,
    > {
        if self.accessible(room, user) {
            page_window(self.history(room), page).map_values(self.reader_view())
        } else {
            Seq::empty()
        }
    }

    /// `m` as readers see it: author name and image come from the author's
    /// first profile when there is one, and stay as sent otherwise.
    pub open spec fn authored(self, m: ChatMessage) -> ChatMessage {
        if exists|j: int| crate::users::first_profile_at(self.profiles@, m.user_id@, j) {
            let j = choose|j: int| crate::users::first_profile_at(self.profiles@, m.user_id@, j);
            ChatMessage {
                user_name: self.profiles@[j].username,
                user_image: self.profiles@[j].image,
                ..m
            }
        } else {
            m
        }
    }

    pub open spec fn reader_view(self) -> spec_fn(ChatMessage) -> ChatMessage {
        |m: ChatMessage| self.authored(m)
    }

    /// A copy of `m` with its author's name and image read from the profiles.
    fn with_author(&self, m: &ChatMessage) -> (r: ChatMessage)
        ensures
            r == self.authored(*m),
    {
        let mut c = m.copied();
        match self.find_profile(&m.user_id) {
            Some(j) => {
                c.user_name = self.profiles[j].username.clone();
                c.user_image = copy_opt(&self.profiles[j].image);
                proof {
                    let k = choose|k: int| crate::users::first_profile_at(self.profiles@, m.user_id@, k);
                    if k < j {
                        assert(self.profiles@[k].user_id@ != m.user_id@);
                    } else if k > j {
                        assert(self.profiles@[j as int].user_id@ != m.user_id@);
                    }
                }
            },
            None => {
                proof {
                    if exists|j: int| crate::users::first_profile_at(self.profiles@, m.user_id@, j) {
                        let j = choose|j: int| crate::users::first_profile_at(self.profiles@, m.user_id@, j);
                        assert(self.profiles@[j].user_id@ == m.user_id@);
                    }
                }
            },
        }
        c
    }

    fn has_sole_member(&self, roomid: &String) -> (r: bool)
        ensures
            r == self.sole_member(roomid@),
    {
        let mut first: Option<usize> = None;
        let mut several = false;
        let mut i: usize = 0;
        while i < self.members.len()
            invariant
                i <= self.members@.len(),
                first is None ==> forall|j: int| 0 <= j < i ==> #[trigger] self.members@[j].room_id@ != roomid@,
                first matches Some(f) ==> f < i && self.members@[f as int].room_id@ == roomid@,
                first is Some && !several ==> forall|j: int|
                    0 <= j < i && #[trigger] self.members@[j].room_id@ == roomid@ ==> self.members@[j].user_id@
                        == self.members@[first->0 as int].user_id@,
                several ==> first is Some && exists|j: int|
                    0 <= j < i && #[trigger] self.members@[j].room_id@ == roomid@ && self.members@[j].user_id@
                        != self.members@[first->0 as int].user_id@,
            decreases self.members@.len() - i,
        {
            if self.members[i].room_id == *roomid {
                match first {
                    None => {
                        first = Some(i);
                    },
                    Some(f) => {
                        if self.members[i].user_id != self.members[f].user_id {
                            several = true;
                        }
                    },
                }
            }
            i = i + 1;
        }
        proof {
            match first {
                None => {
                    if self.sole_member(roomid@) {
                        let u = choose|u: Seq<char>| self.is_member(roomid@, u) && forall|v: Seq<char>| #[trigger]
                            self.is_member(roomid@, v) ==> v == u;
                        let j = choose|j: int| 0 <= j < self.members@.len() && #[trigger] self.members@[j].room_id@
                            == roomid@ && self.members@[j].user_id@ == u;
                    }
                },
                Some(f) => {
                    let u = self.members@[f as int].user_id@;
                    assert(self.is_member(roomid@, u));
                    if several {
                        let j = choose|j: int|
                            0 <= j < i && #[trigger] self.members@[j].room_id@ == roomid@ && self.members@[j].user_id@
                                != u;
                        let w = self.members@[j].user_id@;
                        assert(self.is_member(roomid@, w));
                        if self.sole_member(roomid@) {
                            let x = choose|x: Seq<char>| self.is_member(roomid@, x) && forall|v: Seq<char>| #[trigger]
                                self.is_member(roomid@, v) ==> v == x;
                            assert(u == x && w == x);
                        }
                    } else {
                        assert forall|v: Seq<char>| #[trigger] self.is_member(roomid@, v) implies v == u by {
                            let j = choose|j: int| 0 <= j < self.members@.len() && #[trigger] self.members@[j].room_id@
                                == roomid@ && self.members@[j].user_id@ == v;
                        }
                    }
                },
            }
        }
        first.is_some() && !several
    }

    /// Takes `userid` out of `roomid`, unless `roomid` has exactly one member:
    /// a room that has members never loses the last of them.
    #[verifier::rlimit(60)]
    pub fn remove_user_from_room(&mut self, roomid: &str, userid: &str) -> (r: Result<
        (),
        RoomError,
    >)
        requires
            old(self).wf(),
        ensures
            final(self).wf(),
            r is Err <==> old(self).sole_member(roomid@),
            (exists|u: Seq<char>| old(self).is_member(roomid@, u)) ==> (exists|u: Seq<char>|
                final(self).is_member(roomid@, u)),
            r is Err ==> *final(self) == *old(self),
            final(self).rooms@ == old(self).rooms@,
            final(self).messages@ == old(self).messages@,
            final(self).uploads@ == old(self).uploads@,
            final(self).users@ == old(self).users@,
            final(self).profiles@ == old(self).profiles@,
            r is Ok ==> final(self).members@ == rows_without(old(self).members@, roomid@, userid@),
            r is Ok ==> forall|rm: Seq<char>, u: Seq<char>|
                #[trigger] final(self).is_member(rm, u) == (old(self).is_member(rm, u) && !(rm
                    == roomid@ && u == userid@)),
    {
        let room = roomid.to_owned();
        let user = userid.to_owned();
        if self.has_sole_member(&room) {
            return Err(RoomError::CannotBeEmpty);
        }
        let mut kept: Vec<Membership> = Vec::new();
        let mut i: usize = 0;
        while i < self.members.len()
            invariant
                i <= self.members@.len(),
                room@ == roomid@,
                user@ == userid@,
                kept@ == rows_without(self.members@.subrange(0, i as int), roomid@, userid@),
            decreases self.members@.len() - i,
        {
            proof {
                let next = self.members@.subrange(0, i as int + 1);
                assert(next.drop_last() =~= self.members@.subrange(0, i as int));
                reveal(Seq::filter);
            }
            if !(self.members[i].room_id == room && self.members[i].user_id == user) {
                kept.push(
                    Membership {
                        room_id: self.members[i].room_id.clone(),
                        user_id: self.members[i].user_id.clone(),
                    },
                );
            }
            i = i + 1;
        }
        proof {
            assert(self.members@.subrange(0, self.members@.len() as int) =~= self.members@);
        }
        let ghost before = *self;
        self.members = kept;
        proof {
            let pred = keeps(roomid@, userid@);
            lemma_filter_members_ok(before.rooms@, before.members@, pred);
            assert(self.members@ == before.members@.filter(pred));
            assert(members_ok(self.rooms@, self.members@));
            assert(messages_ok(self.messages@));
            assert forall|rm: Seq<char>, u: Seq<char>|
                #[trigger] self.is_member(rm, u) == (before.is_member(rm, u) && !(rm == roomid@ && u
                    == userid@)) by {
                if self.is_member(rm, u) {
                    let j = choose|j: int|
                        0 <= j < self.members@.len() && #[trigger] self.members@[j].room_id@ == rm
                            && self.members@[j].user_id@ == u;
                    let m = self.members@[j];
                    assert(self.members@.contains(m));
                    before.members@.lemma_filter_contains_rev(pred, m);
                    let k = choose|k: int| 0 <= k < before.members@.len() && before.members@[k] == m;
                    assert(before.members@[k].room_id@ == rm);
                }
                if before.is_member(rm, u) && !(rm == roomid@ && u == userid@) {
                    let k = choose|k: int|
                        0 <= k < before.members@.len() && #[trigger] before.members@[k].room_id@
                            == rm && before.members@[k].user_id@ == u;
                    before.members@.lemma_filter_contains(pred, k);
                    let m = before.members@[k];
                    assert(self.members@.contains(m));
                    let j = choose|j: int| 0 <= j < self.members@.len() && self.members@[j] == m;
                    assert(self.members@[j].room_id@ == rm);
                }
            }
        }
        proof {
            if exists|u: Seq<char>| before.is_member(roomid@, u) {
                let u = choose|u: Seq<char>| before.is_member(roomid@, u);
                assert(!(forall|v: Seq<char>| #[trigger] before.is_member(roomid@, v) ==> v == u));
                let v = choose|v: Seq<char>| before.is_member(roomid@, v) && v != u;
                if u != userid@ {
                    assert(self.is_member(roomid@, u));
                } else {
                    assert(self.is_member(roomid@, v));
                }
            }
        }
        Ok(())
    }

    /// Page `page` of the history of `room_id`, the latest message first, so by
    /// descending creation time; each message carries its author's profile name
    /// and image as they are now. Empty when `user_id` may not access the room.
    pub fn get_messages_for_room(&self, room_id: &str, user_id: &str, page: i32) -> (r: Vec<
        ChatMessage,
    >)
        requires
            self.wf(),
        ensures
            r@ == self.visible_page(room_id@, user_id@, page as int),
            forall|a: int, b: int|
                0 <= a < b < r@.len() ==> (#[trigger] r@[a]).created_at >= (#[trigger] r@[b]).created_at,
    {
        proof {
            lemma_page_by_time(*self, room_id@, user_id@, page as int);
        }
        let mut out: Vec<ChatMessage> = Vec::new();
        if self.check_access(room_id, user_id).is_err() {
            return out;
        }
        let room = room_id.to_owned();
        let off = page_offset(page) as u64;
        let n = self.messages.len();
        let mut count: u64 = 0;
        let mut i: usize = n;
        while i > 0
            invariant
                i <= n == self.messages@.len(),
                room@ == room_id@,
                off == page_offset_spec(page as int),
                count == newest_first(self.messages@.subrange(i as int, n as int), room@).len(),
                count <= n - i,
                out@ == page_window(
                    newest_first(self.messages@.subrange(i as int, n as int), room@),
                    page as int,
                ).map_values(self.reader_view()),
            decreases i,
        {
            let ghost h = newest_first(self.messages@.subrange(i as int, n as int), room@);
            proof {
                let next = self.messages@.subrange(i as int - 1, n as int);
                assert(next.drop_first() =~= self.messages@.subrange(i as int, n as int));
                assert(next[0] == self.messages@[i as int - 1]);
            }
            if self.messages[i - 1].room_id == room {
                let ghost m = self.messages@[i - 1];
                let ghost h2 = h.push(m);
                if off <= count && count < off + 5 {
                    let shown = self.with_author(&self.messages[i - 1]);
                    out.push(shown);
                    assert(page_window(h2, page as int) =~= page_window(h, page as int).push(m));
                    assert(out@ =~= page_window(h2, page as int).map_values(self.reader_view()));
                } else {
                    assert(page_window(h2, page as int) =~= page_window(h, page as int));
                }
                count = count + 1;
            }
            i = i - 1;
        }
        proof {
            assert(self.messages@.subrange(0, n as int) =~= self.messages@);
        }
        out
    }

    fn message_id_taken(&self, id: &String) -> (r: bool)
        ensures
            r == exists|k: int| 0 <= k < self.messages@.len() && #[trigger] self.messages@[k].id@ == id@,
    {
        let mut k: usize = 0;
        while k < self.messages.len()
            invariant
                k <= self.messages@.len(),
                forall|q: int| 0 <= q < k ==> #[trigger] self.messages@[q].id@ != id@,
            decreases self.messages@.len() - k,
        {
            if self.messages[k].id == *id {
                return true;
            }
            k = k + 1;
        }
        false
    }

    fn find_upload(&self, id: &String) -> (r: Option<usize>)
        ensures
            match r {
                Some(j) => j < self.uploads@.len() && self.uploads@[j as int].id@ == id@,
                None => forall|j: int| 0 <= j < self.uploads@.len() ==> self.uploads@[j].id@ != id@,
            },
    {
        let mut j: usize = 0;
        while j < self.uploads.len()
            invariant
                j <= self.uploads@.len(),
                forall|k: int| 0 <= k < j ==> self.uploads@[k].id@ != id@,
            decreases self.uploads@.len() - j,
        {
            if self.uploads[j].id == *id {
                return Some(j);
            }
            j = j + 1;
        }
        None
    }

    /// Stores a message of `user_id` in `room_id`: checks access, resolves every
    /// attachment id to its stored path, and appends the message. Nothing is
    /// stored when a check fails.
    pub fn send_message(
        &mut self,
        room_id: &str,
        user_id: &str,
        user_name: &str,
        user_image: Option<String>,
        message: &str,
        uploads: &Vec<String>,
    ) -> (r: Result<ChatMessage, AccessError>)
        requires
            old(self).wf(),
        ensures
            final(self).wf(),
            match r {
                Ok(m) => {
                    &&& old(self).accessible(room_id@, user_id@)
                    &&& all_resolve(old(self).uploads@, uploads@)
                    &&& final(self).messages@ == old(self).messages@.push(m)
                    &&& m.room_id@ == room_id@ && m.user_id@ == user_id@
                    &&& m.user_name@ == user_name@ && m.user_image == user_image
                    &&& m.message@ == message@ && m.id@.len() == 20
                    &&& forall|k: int| 0 <= k < old(self).messages@.len() ==> #[trigger] old(self).messages@[k].id@ != m.id@
                    &&& forall|k: int| 0 <= k < old(self).messages@.len() ==> #[trigger] old(self).messages@[k].created_at <= m.created_at
                    &&& (uploads@.len() == 0 <==> m.uploads is None)
                    &&& m.uploads matches Some(p) ==> exists|paths: Seq<Seq<char>>|
                        paths_of(old(self).uploads@, uploads@, paths) && p@ == joined(
                            paths,
                            "||"@,
                        )
                },
                Err(AccessError::RoomNotFound) => !old(self).has_room(room_id@),
                Err(AccessError::AccessDenied) => old(self).has_room(room_id@)
                    && !old(self).accessible(room_id@, user_id@),
                Err(AccessError::DuplicateId(d)) => old(self).accessible(room_id@, user_id@)
                    && all_resolve(old(self).uploads@, uploads@) && exists|k: int|
                    0 <= k < old(self).messages@.len() && #[trigger] old(self).messages@[k].id@ == d@,
                Err(AccessError::AttachmentNotFound(a)) => old(self).accessible(room_id@, user_id@)
                    && !all_resolve(old(self).uploads@, uploads@) && (forall|j: int|
                    0 <= j < old(self).uploads@.len() ==> old(self).uploads@[j].id@ != a@),
            },
            r is Ok ==> final(self).rooms@ == old(self).rooms@ && final(self).members@ == old(
                self,
            ).members@ && final(self).uploads@ == old(self).uploads@ && final(self).users@ == old(
                self,
            ).users@ && final(self).profiles@ == old(self).profiles@,
            r is Err ==> *final(self) == *old(self),
    {
        let slot = match self.check_access(room_id, user_id) {
            Ok(i) => i,
            Err(e) => {
                return Err(e);
            },
        };
        let mut paths: Vec<String> = Vec::new();
        let mut k: usize = 0;
        while k < uploads.len()
            invariant
                *self == *old(self),
                self.wf(),
                self.accessible(room_id@, user_id@),
                slot < self.rooms@.len() && self.rooms@[slot as int].id@ == room_id@,
                k <= uploads@.len(),
                paths_of(self.uploads@, uploads@.subrange(0, k as int), views(paths@)),
                all_resolve(self.uploads@, uploads@.subrange(0, k as int)),
            decreases uploads@.len() - k,
        {
            match self.find_upload(&uploads[k]) {
                Some(j) => {
                    let ghost prev = views(paths@);
                    paths.push(self.uploads[j].url.clone());
                    proof {
                        let ids = uploads@.subrange(0, k as int + 1);
                        assert(views(paths@) =~= prev.push(self.uploads@[j as int].url@));
                        assert forall|q: int| 0 <= q < ids.len() implies exists|t: int|
                            0 <= t < self.uploads@.len() && #[trigger] self.uploads@[t].id@
                                == ids[q]@ && self.uploads@[t].url@ == #[trigger] views(
                                paths@,
                            )[q] by {
                            if q < k {
                                assert(ids[q] == uploads@.subrange(0, k as int)[q]);
                            } else {
                                assert(self.uploads@[j as int].id@ == ids[q]@);
                            }
                        }
                        assert forall|q: int| 0 <= q < ids.len() implies has_upload(
                            self.uploads@,
                            #[trigger] ids[q]@,
                        ) by {
                            if q < k {
                                assert(ids[q] == uploads@.subrange(0, k as int)[q]);
                            } else {
                                assert(self.uploads@[j as int].id@ == ids[q]@);
                            }
                        }
                    }
                },
                None => {
                    proof {
                        assert forall|t: int|
                            0 <= t < self.uploads@.len() implies !(#[trigger] self.uploads@[t].id@
                            == uploads@[k as int]@) by {}
                        assert(!has_upload(self.uploads@, uploads@[k as int]@));
                    }
                    return Err(AccessError::AttachmentNotFound(uploads[k].clone()));
                },
            }
            k = k + 1;
        }
        proof {
            assert(uploads@.subrange(0, uploads@.len() as int) =~= uploads@);
        }
        let attachments = if paths.len() == 0 {
            None
        } else {
            Some(crate::text::join(&paths, "||"))
        };
        let id = new_xid();
        let now = now_unix();
        let r = self.append_message(id, now, room_id, user_id, user_name, user_image, message, attachments);
        proof {
            if r is Ok {
                let m = r->Ok_0;
                assert forall|k: int| 0 <= k < old(self).messages@.len() implies #[trigger] old(self).messages@[k].created_at
                    <= m.created_at by {
                    let n = old(self).messages@.len() as int;
                    assert(old(self).messages@[k].created_at <= old(self).messages@[n - 1].created_at);
                }
            }
        }
        r
    }

    /// When the log holds messages, the later of `now` and the last commit
    /// time; `now` otherwise.
    pub open spec fn stamp(s: Seq<ChatMessage>, now: i64) -> i64 {
        if s.len() > 0 && s.last().created_at > now {
            s.last().created_at
        } else {
            now
        }
    }

    /// Appends a message with id `id` to the stored room `room_id`, stamped
    /// with `now` unless an earlier commit carries a later time. A message
    /// whose id is already stored is refused and nothing changes.
    pub fn append_message(
        &mut self,
        id: String,
        now: i64,
        room_id: &str,
        user_id: &str,
        user_name: &str,
        user_image: Option<String>,
        message: &str,
        uploads: Option<String>,
    ) -> (r: Result<ChatMessage, AccessError>)
        requires
            old(self).wf(),
            old(self).has_room(room_id@),
        ensures
            final(self).wf(),
            r is Err <==> exists|k: int|
                0 <= k < old(self).messages@.len() && #[trigger] old(self).messages@[k].id@ == id@,
            r matches Err(e) ==> e == AccessError::DuplicateId(id) && *final(self) == *old(self),
            r matches Ok(m) ==> {
                &&& final(self).messages@ == old(self).messages@.push(m)
                &&& m.id == id && m.created_at == Database::stamp(old(self).messages@, now)
                &&& m.room_id@ == room_id@ && m.user_id@ == user_id@
                &&& m.user_name@ == user_name@ && m.user_image == user_image
                &&& m.message@ == message@ && m.uploads == uploads
                &&& final(self).rooms@ == old(self).rooms@
                &&& final(self).members@ == old(self).members@
                &&& final(self).uploads@ == old(self).uploads@
                &&& final(self).users@ == old(self).users@
                &&& final(self).profiles@ == old(self).profiles@
            },
    {
        if self.message_id_taken(&id) {
            return Err(AccessError::DuplicateId(id));
        }
        let slot = match self.find_room(&room_id.to_owned()) {
            Some(i) => i,
            None => {
                return Err(AccessError::RoomNotFound);
            },
        };
        let n = self.messages.len();
        let created_at = if n > 0 && self.messages[n - 1].created_at > now {
            self.messages[n - 1].created_at
        } else {
            now
        };
        let msg = ChatMessage {
            id,
            room_id: room_id.to_owned(),
            user_id: user_id.to_owned(),
            user_name: user_name.to_owned(),
            user_image,
            created_at,
            message: message.to_owned(),
            uploads,
        };
        let stored = msg.copied();
        let ghost before = *self;
        self.messages.push(msg);
        proof {
            assert forall|q: int| 0 <= q < self.messages@.len() implies self.has_room(
                #[trigger] self.messages@[q].room_id@,
            ) by {
                if q < before.messages@.len() {
                    assert(before.messages@[q] == self.messages@[q]);
                    assert(before.has_room(before.messages@[q].room_id@));
                    let t = choose|t: int|
                        0 <= t < before.rooms@.len() && #[trigger] before.rooms@[t].id@
                            == before.messages@[q].room_id@;
                    assert(self.rooms@[t] == before.rooms@[t]);
                } else {
                    assert(self.messages@[q] == stored);
                    assert(stored.room_id@ == room_id@);
                    assert(self.rooms@[slot as int].id@ == room_id@);
                }
            }
            let m = self.messages@;
            assert forall|i: int, j: int| 0 <= i < m.len() && 0 <= j < m.len() && i != j implies #[trigger] m[i].id@
                != #[trigger] m[j].id@ by {
                if i < n && j < n {
                    assert(m[i] == before.messages@[i] && m[j] == before.messages@[j]);
                } else if i < n {
                    assert(m[i] == before.messages@[i]);
                } else {
                    assert(m[j] == before.messages@[j]);
                }
            }
            assert forall|k: int| 0 <= k < n implies #[trigger] before.messages@[k].created_at <= created_at by {
                assert(before.messages@[k].created_at <= before.messages@[n - 1].created_at);
            }
            assert forall|i: int, j: int| 0 <= i <= j < m.len() implies #[trigger] m[i].created_at
                <= #[trigger] m[j].created_at by {
                if j < n {
                    assert(m[i] == before.messages@[i] && m[j] == before.messages@[j]);
                } else if i < n {
                    assert(m[i] == before.messages@[i]);
                }
            }
        }
        Ok(stored)
    }

    /// Records an upload when `url` is given and returns its new id; without a
    /// `url` nothing is stored and the id is empty.
    pub fn add_upload_and_continue(
        &mut self,
        user_id: &str,
        room_id: Option<String>,
        url: Option<String>,
    ) -> (r: String)
        requires
            old(self).wf(),
        ensures
            final(self).wf(),
            url is None ==> r@.len() == 0 && *final(self) == *old(self),
            url matches Some(u) ==> {
                let up = final(self).uploads@.last();
                &&& final(self).uploads@ == old(self).uploads@.push(up)
                &&& up.id@ == r@ && r@.len() == 20 && up.url@ == u@
                &&& up.uploaded_by@ == user_id@ && up.room_id == room_id
                &&& final(self).rooms@ == old(self).rooms@
                &&& final(self).members@ == old(self).members@
                &&& final(self).messages@ == old(self).messages@
                &&& final(self).users@ == old(self).users@
                &&& final(self).profiles@ == old(self).profiles@
            },
    {
        match url {
            None => String::new(),
            Some(u) => {
                let id = new_xid();
                let up = Upload {
                    id: id.clone(),
                    uploaded_by: user_id.to_owned(),
                    room_id,
                    url: u,
                    created_at: now_unix(),
                };
                let ghost before = *self;
                self.uploads.push(up);
                proof {
                    assert forall|q: int| 0 <= q < self.messages@.len() implies self.has_room(
                        #[trigger] self.messages@[q].room_id@,
                    ) by {
                        assert(self.messages@[q] == before.messages@[q]);
                        assert(before.has_room(before.messages@[q].room_id@));
                        let t = choose|t: int|
                            0 <= t < before.rooms@.len() && #[trigger] before.rooms@[t].id@
                                == before.messages@[q].room_id@;
                        assert(self.rooms@[t] == before.rooms@[t]);
                    }
                }
                id
            },
        }
    }
}

/// Every message of `newest_first(s, room)` belongs to `room`.
pub proof fn lemma_history_in_room(s: Seq<ChatMessage>, room: Seq<char>)
    ensures
        forall|a: int|
            0 <= a < newest_first(s, room).len() ==> (#[trigger] newest_first(s, room)[a]).room_id@
                == room,
    decreases s.len(),
{
    if s.len() > 0 {
        lemma_history_in_room(s.drop_first(), room);
    }
}

/// Positions in `s` of the messages of `newest_first(s, room)`, in that order.
pub open spec fn history_positions(s: Seq<ChatMessage>, room: Seq<char>) -> Seq<int>
    decreases s.len(),
{
    if s.len() == 0 {
        Seq::empty()
    } else {
        let rest = history_positions(s.drop_first(), room).map_values(|p: int| p + 1);
        if s[0].room_id@ == room {
            rest.push(0)
        } else {
            rest
        }
    }
}

/// A room's history lists exactly the messages of the room, each one
/// committed after the one that follows it: `positions[a]` is where the `a`-th
/// entry stands in commit order, and the positions strictly decrease.
pub proof fn lemma_history_commit_order(s: Seq<ChatMessage>, room: Seq<char>)
    ensures
        ({
            let h = newest_first(s, room);
            let pos = history_positions(s, room);
            &&& pos.len() == h.len()
            &&& forall|a: int|
                0 <= a < h.len() ==> 0 <= #[trigger] pos[a] < s.len() && s[pos[a]] == h[a]
            &&& forall|a: int, b: int| 0 <= a < b < h.len() ==> #[trigger] pos[a] > #[trigger] pos[b]
            &&& forall|p: int|
                0 <= p < s.len() && (#[trigger] s[p]).room_id@ == room ==> pos.contains(p)
        }),
    decreases s.len(),
{
    if s.len() > 0 {
        let t = s.drop_first();
        lemma_history_commit_order(t, room);
        let rest = history_positions(t, room);
        let shifted = rest.map_values(|p: int| p + 1);
        let h = newest_first(s, room);
        let pos = history_positions(s, room);
        assert forall|a: int| 0 <= a < shifted.len() implies 1 <= #[trigger] shifted[a] < s.len()
            && s[shifted[a]] == newest_first(t, room)[a] by {
            assert(rest[a] == shifted[a] - 1);
            assert(t[rest[a]] == s[rest[a] + 1]);
        }
        assert forall|p: int|
            0 <= p < s.len() && (#[trigger] s[p]).room_id@ == room implies pos.contains(p) by {
            if p == 0 {
                assert(pos[pos.len() - 1] == 0);
            } else {
                assert(t[p - 1] == s[p]);
                assert(rest.contains(p - 1));
                let k = choose|k: int| 0 <= k < rest.len() && rest[k] == p - 1;
                assert(shifted[k] == p);
                assert(pos[k] == p);
            }
        }
    }
}

/// A page of `list` never shows a message of a room the user may not read:
/// each message shown belongs to the room asked for, and that room is public
/// or has the user as a member.
pub proof fn lemma_list_leak_free(db: Database, room: Seq<char>, user: Seq<char>, page: int)
    ensures
        forall|a: int|
            0 <= a < db.visible_page(room, user, page).len() ==> {
                &&& (#[trigger] db.visible_page(room, user, page)[a]).room_id@ == room
                &&& db.accessible(room, user)
            },
{
    lemma_history_in_room(db.messages@, room);
    let h = db.history(room);
    let w = db.visible_page(room, user, page);
    assert forall|a: int| 0 <= a < w.len() implies (#[trigger] w[a]).room_id@ == room
        && db.accessible(room, user) by {
        let off = page_offset_spec(page);
        let start = if off < h.len() { off } else { h.len() as int };
        assert(w[a] == db.authored(h[start + a]));
    }
}

/// In a log whose commit times never decrease, a room's history runs from the
/// latest creation time down.
pub proof fn lemma_history_by_time(s: Seq<ChatMessage>, room: Seq<char>)
    requires
        messages_ok(s),
    ensures
        forall|a: int, b: int|
            0 <= a < b < newest_first(s, room).len() ==> (#[trigger] newest_first(s, room)[a]).created_at
                >= (#[trigger] newest_first(s, room)[b]).created_at,
{
    lemma_history_commit_order(s, room);
    let h = newest_first(s, room);
    let pos = history_positions(s, room);
    assert forall|a: int, b: int| 0 <= a < b < h.len() implies (#[trigger] h[a]).created_at
        >= (#[trigger] h[b]).created_at by {
        assert(pos[a] > pos[b]);
        assert(s[pos[b]].created_at <= s[pos[a]].created_at);
    }
}

/// Every page that `list` shows runs from the latest creation time down, so a
/// room whose messages have distinct creation times is listed in strictly
/// descending creation time.
pub proof fn lemma_page_by_time(db: Database, room: Seq<char>, user: Seq<char>, page: int)
    requires
        db.wf(),
    ensures
        forall|a: int, b: int|
            0 <= a < b < db.visible_page(room, user, page).len() ==> (#[trigger] db.visible_page(
                room,
                user,
                page,
            )[a]).created_at >= (#[trigger] db.visible_page(room, user, page)[b]).created_at,
{
    lemma_history_by_time(db.messages@, room);
    let h = db.history(room);
    let w = db.visible_page(room, user, page);
    assert forall|a: int, b: int| 0 <= a < b < w.len() implies (#[trigger] w[a]).created_at
        >= (#[trigger] w[b]).created_at by {
        let off = page_offset_spec(page);
        let start = if off < h.len() { off } else { h.len() as int };
        assert(w[a] == db.authored(h[start + a]));
        assert(w[b] == db.authored(h[start + b]));
    }
}

/// Creating a room twice with the same arguments returns the same id both
/// times, and the second call changes nothing: no room or membership row is
/// duplicated.
pub proof fn lemma_create_room_idempotent(
    d0: Database,
    d1: Database,
    d2: Database,
    r1: Seq<char>,
    r2: Seq<char>,
    id: Seq<char>,
    name: Seq<char>,
    description: Seq<char>,
    is_private: bool,
    is_user: bool,
    users: Seq<Seq<char>>,
)
    requires
        created_room(d0, d1, r1, id, name, description, is_private, is_user, users),
        created_room(d1, d2, r2, id, name, description, is_private, is_user, users),
    ensures
        r1 == r2,
        d2 == d1,
        d1.has_room(id),
{
    if !d0.has_room(id) {
        let last = d1.rooms@.len() - 1;
        assert(d1.rooms@[last].id@ == id);
    }
}

/// Paging through a history cannot go on forever: from a page `page >= 0`, a
/// non-zero next cursor is `page + 1` and comes only while the next page still
/// starts inside the history, so at most `len / MAX_FETCH + 1` pages are read.
pub proof fn lemma_pages_terminate(h: Seq<ChatMessage>, page: int)
    requires
        0 <= page,
    ensures
        next_page_spec(page, page_window(h, page).len() as int) != 0 ==> next_page_spec(
            page,
            page_window(h, page).len() as int,
        ) == page + 1 && (page + 1) * MAX_FETCH <= h.len(),
{
    assert((page + 1) * 5 == page * 5 + 5) by (nonlinear_arith);
}

/// Rooms of one kind (`is_user`) that `user` may access in `db`.
pub open spec fn listed(db: Database, user: Seq<char>, is_user: bool) -> spec_fn(Room) -> bool {
    |rm: Room| rm.is_user == is_user && can_access(rm, db.is_member(rm.id@, user))
}

impl Database {
    /// The rooms that `user_id` may access, in creation order: conversations
    /// first, topical rooms second.
    pub fn get_rooms(&self, user_id: &str) -> (r: (Vec<Room>, Vec<Room>))
        ensures
            r.0@ == self.rooms@.filter(listed(*self, user_id@, true)),
            r.1@ == self.rooms@.filter(listed(*self, user_id@, false)),
    {
        let mut conversations: Vec<Room> = Vec::new();
        let mut topical: Vec<Room> = Vec::new();
        let mut i: usize = 0;
        while i < self.rooms.len()
            invariant
                i <= self.rooms@.len(),
                conversations@ == self.rooms@.subrange(0, i as int).filter(listed(*self, user_id@, true)),
                topical@ == self.rooms@.subrange(0, i as int).filter(listed(*self, user_id@, false)),
            decreases self.rooms@.len() - i,
        {
            proof {
                let next = self.rooms@.subrange(0, i as int + 1);
                assert(next.drop_last() =~= self.rooms@.subrange(0, i as int));
                reveal(Seq::filter);
            }
            let room = &self.rooms[i];
            let visible = !room.is_private || self.is_member_of_room(room.id.as_str(), user_id);
            if visible {
                if room.is_user {
                    conversations.push(room.copied());
                } else {
                    topical.push(room.copied());
                }
            }
            i = i + 1;
        }
        proof {
            assert(self.rooms@.subrange(0, self.rooms@.len() as int) =~= self.rooms@);
        }
        (conversations, topical)
    }
}

/// Pages `0 .. k` of `h`, one after the other.
pub open spec fn pages_upto(h: Seq<ChatMessage>, k: nat) -> Seq<ChatMessage>
    decreases k,
{
    if k == 0 {
        Seq::empty()
    } else {
        pages_upto(h, (k - 1) as nat) + page_window(h, k - 1)
    }
}

pub proof fn lemma_pages_prefix(h: Seq<ChatMessage>, k: nat)
    ensures
        pages_upto(h, k) == h.subrange(0, if k * 5 < h.len() { (k * 5) as int } else { h.len() as int }),
    decreases k,
{
    if k > 0 {
        let j = (k - 1) as nat;
        lemma_pages_prefix(h, j);
        assert(page_offset_spec(j as int) == j * 5);
        assert(k * 5 == j * 5 + 5) by (nonlinear_arith)
            requires
                j == k - 1,
        ;
        let a = if j * 5 < h.len() { (j * 5) as int } else { h.len() as int };
        let b = if k * 5 < h.len() { (k * 5) as int } else { h.len() as int };
        assert(h.subrange(0, a) + h.subrange(a, b) =~= h.subrange(0, b));
    } else {
        assert(h.subrange(0, 0) =~= Seq::<ChatMessage>::empty());
    }
}

/// Reading a history page by page from page 0, following each cursor while it
/// is not 0, takes exactly `len / 5 + 1` requests: every earlier page is full
/// and hands on `page + 1`, the last one hands on 0, and the pages read, put
/// together, are the whole history in order.
pub proof fn lemma_paging_reads_history(h: Seq<ChatMessage>)
    requires
        h.len() / 5 < i32::MAX,
    ensures
        forall|p: int|
            0 <= p < h.len() / 5 ==> #[trigger] next_page_spec(p, page_window(h, p).len() as int) == p
                + 1,
        next_page_spec((h.len() / 5) as int, page_window(h, (h.len() / 5) as int).len() as int) == 0,
        pages_upto(h, (h.len() / 5 + 1) as nat) == h,
{
    let n = h.len() as int;
    let last = n / 5;
    assert(last * 5 <= n < last * 5 + 5) by (nonlinear_arith)
        requires
            last == n / 5,
            n >= 0,
    ;
    assert forall|p: int| 0 <= p < last implies #[trigger] next_page_spec(p, page_window(h, p).len() as int)
        == p + 1 by {
        assert(p * 5 + 5 <= last * 5) by (nonlinear_arith)
            requires
                p < last,
        ;
        assert(page_offset_spec(p) == p * 5);
        assert(page_window(h, p).len() == 5);
    }
    assert(page_offset_spec(last) == last * 5);
    lemma_pages_prefix(h, (last + 1) as nat);
    assert((last + 1) * 5 > n) by (nonlinear_arith)
        requires
            last * 5 + 5 > n,
    ;
    assert(h.subrange(0, n) =~= h);
}

} // verus!
