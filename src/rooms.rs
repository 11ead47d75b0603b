use vstd::prelude::*;

use tokio::sync::broadcast::{Receiver, Sender};

use crate::database::{AccessError, ChatMessage, Database};
use crate::outside::{broadcast, open_channel, subscribe, subscribed, CHANNEL_CAPACITY};
use crate::pagination::next_page;

verus! {

/// A live room: the broadcast endpoint of one stored room.
pub struct Room {
    pub room_id: String,
    pub sender: Sender<ChatMessage>,
}

/// Joins, sends and lists over the store, and fans committed messages out to
/// the live subscribers of each room.
pub struct Manager {
    pub db: Database,
    pub rooms: Vec<Room>,
}

/// Why a room operation failed.
pub enum ChatRoomErrors {
    /// No room has the id.
    RoomNotFound(String),
    /// The room is private and the user is not a member.
    AccessDenied(String),
    /// An attachment id names no upload.
    AttachmentNotFound(String),
    /// The store refused the write; nothing was stored.
    PersistenceError(String),
}

impl Manager {
    /// Ids of the rooms that have a live broadcast endpoint, in creation order.
    pub open spec fn live_ids(self) -> Seq<Seq<char>> {
        self.rooms@.map_values(|r: Room| r.room_id@)
    }

    /// At most one live room per id, each bound to a stored room.
    pub open spec fn wf(self) -> bool {
        &&& self.db.wf()
        &&& forall|i: int, j: int|
            0 <= i < self.rooms@.len() && 0 <= j < self.rooms@.len() && i != j
                ==> #[trigger] self.rooms@[i].room_id@ != #[trigger] self.rooms@[j].room_id@
        &&& forall|i: int| 0 <= i < self.rooms@.len() ==> self.db.has_room(#[trigger] self.rooms@[i].room_id@)
    }

    /// A manager over `db` with no live room.
    pub fn new(db: Database) -> (r: Manager)
        requires
            db.wf(),
        ensures
            r.wf(),
            r.db == db,
            r.rooms@.len() == 0,
    {
        Manager { db, rooms: Vec::new() }
    }

    fn find_live(&self, room_id: &String) -> (r: Option<usize>)
        ensures
            match r {
                Some(i) => i < self.rooms@.len() && self.rooms@[i as int].room_id@ == room_id@,
                None => !self.live_ids().contains(room_id@),
            },
    {
        let mut i: usize = 0;
        while i < self.rooms.len()
            invariant
                i <= self.rooms@.len(),
                forall|j: int| 0 <= j < i ==> self.rooms@[j].room_id@ != room_id@,
            decreases self.rooms@.len() - i,
        {
            if self.rooms[i].room_id == *room_id {
                return Some(i);
            }
            i = i + 1;
        }
        proof {
            if self.live_ids().contains(room_id@) {
                let j = choose|j: int| 0 <= j < self.live_ids().len() && self.live_ids()[j] == room_id@;
                assert(self.rooms@[j].room_id@ == room_id@);
            }
        }
        None
    }

    /// The index of the live room of `room_id`, created when there is none.
    fn ensure_live_room(&mut self, room_id: String) -> (r: usize)
        requires
            old(self).wf(),
            old(self).db.has_room(room_id@),
        ensures
            final(self).wf(),
            final(self).db == old(self).db,
            r < final(self).rooms@.len(),
            final(self).rooms@[r as int].room_id@ == room_id@,
            old(self).live_ids().contains(room_id@) ==> final(self).rooms@ == old(self).rooms@,
            !old(self).live_ids().contains(room_id@) ==> final(self).rooms@ == old(self).rooms@.push(
                final(self).rooms@.last(),
            ),
            old(self).live_ids().contains(room_id@) ==> final(self).live_ids() == old(self).live_ids(),
            !old(self).live_ids().contains(room_id@) ==> final(self).live_ids() == old(self).live_ids().push(room_id@),
    {
        match self.find_live(&room_id) {
            Some(i) => {
                assert(self.live_ids()[i as int] == room_id@);
                i
            },
            None => {
                let ghost before = *self;
                let ghost id = room_id@;
                let sender = open_channel(CHANNEL_CAPACITY);
                self.rooms.push(Room { room_id, sender });
                proof {
                    assert(self.live_ids() =~= before.live_ids().push(id));
                    assert forall|i: int, j: int|
                        0 <= i < self.rooms@.len() && 0 <= j < self.rooms@.len() && i != j
                            implies #[trigger] self.rooms@[i].room_id@ != #[trigger] self.rooms@[j].room_id@ by {
                        if i < before.rooms@.len() && j < before.rooms@.len() {
                            assert(self.rooms@[i] == before.rooms@[i]);
                            assert(self.rooms@[j] == before.rooms@[j]);
                        } else if i < before.rooms@.len() {
                            assert(before.live_ids()[i] == before.rooms@[i].room_id@);
                        } else if j < before.rooms@.len() {
                            assert(before.live_ids()[j] == before.rooms@[j].room_id@);
                        }
                    }
                    assert forall|i: int| 0 <= i < self.rooms@.len() implies self.db.has_room(
                        #[trigger] self.rooms@[i].room_id@) by {
                        if i < before.rooms@.len() {
                            assert(self.rooms@[i] == before.rooms@[i]);
                        }
                    }
                }
                self.rooms.len() - 1
            },
        }
    }

    /// Subscribes `user_id` to the live messages of `room_id`, after the same
    /// access check as the store's reads. The room's live endpoint is created on
    /// the first join.
    pub fn join_room(&mut self, room_id: String, user_id: &str) -> (r: Result<
        Receiver<ChatMessage>,
        ChatRoomErrors,
    >)
        requires
            old(self).wf(),
        ensures
            final(self).wf(),
            final(self).db == old(self).db,
            match r {
                Ok(rx) => old(self).db.accessible(room_id@, user_id@) && final(self).live_ids().contains(room_id@)
                    && (exists|i: int|
                    0 <= i < final(self).rooms@.len() && #[trigger] final(self).rooms@[i].room_id@ == room_id@
                        && subscribed(rx, final(self).rooms@[i].sender))
                    && (old(self).live_ids().contains(room_id@) ==> final(self).rooms@ == old(self).rooms@)
                    && (!old(self).live_ids().contains(room_id@) ==> final(self).rooms@ == old(self).rooms@.push(
                        final(self).rooms@.last(),
                    ) && final(self).rooms@.last().room_id@ == room_id@)
                    && (old(self).live_ids().contains(room_id@) ==> final(self).live_ids() == old(self).live_ids())
                    && (!old(self).live_ids().contains(room_id@) ==> final(self).live_ids() == old(self).live_ids().push(room_id@)),
                Err(ChatRoomErrors::RoomNotFound(id)) => id@ == room_id@ && !old(self).db.has_room(room_id@),
                Err(ChatRoomErrors::AccessDenied(id)) => id@ == room_id@ && old(self).db.has_room(room_id@)
                    && !old(self).db.accessible(room_id@, user_id@),
                Err(ChatRoomErrors::AttachmentNotFound(_)) => false,
                Err(ChatRoomErrors::PersistenceError(_)) => false,
            },
            r is Err ==> *final(self) == *old(self),
    {
        match self.db.check_access(room_id.as_str(), user_id) {
            Ok(_) => {},
            Err(AccessError::RoomNotFound) => {
                return Err(ChatRoomErrors::RoomNotFound(room_id));
            },
            Err(_) => {
                return Err(ChatRoomErrors::AccessDenied(room_id));
            },
        }
        let ghost id = room_id@;
        let i = self.ensure_live_room(room_id);
        proof {
            assert(self.live_ids()[i as int] == id);
        }
        let rx = subscribe(&self.rooms[i].sender);
        proof {
            assert(self.rooms@[i as int].room_id@ == id);
            assert(subscribed(rx, self.rooms@[i as int].sender));
        }
        Ok(rx)
    }

    /// Page `page` of the history of `room_id` as `user_id` may see it.
    pub fn get_room_messages(&self, room_id: &str, page: i32, user_id: &str) -> (r: Vec<
        ChatMessage,
    >)
        requires
            self.wf(),
        ensures
            r@ == self.db.visible_page(room_id@, user_id@, page as int),
            forall|a: int, b: int|
                0 <= a < b < r@.len() ==> (#[trigger] r@[a]).created_at >= (#[trigger] r@[b]).created_at,
    {
        self.db.get_messages_for_room(room_id, user_id, page)
    }

    /// Page `page` of the history of `room_id` with the cursor of the next page,
    /// 0 when this page is the last.
    pub fn list(&self, room_id: &str, user_id: &str, page: i32) -> (r: Result<
        (Vec<ChatMessage>, i32),
        ChatRoomErrors,
    >)
        requires
            self.wf(),
        ensures
            match r {
                Ok((msgs, next)) => self.db.accessible(room_id@, user_id@)
                    && msgs@ == self.db.visible_page(room_id@, user_id@, page as int)
                    && (forall|a: int, b: int|
                    0 <= a < b < msgs@.len() ==> (#[trigger] msgs@[a]).created_at >= (#[trigger] msgs@[b]).created_at)
                    && next == crate::pagination::next_page_spec(page as int, msgs@.len() as int),
                Err(ChatRoomErrors::RoomNotFound(id)) => id@ == room_id@ && !self.db.has_room(room_id@),
                Err(ChatRoomErrors::AccessDenied(id)) => id@ == room_id@ && self.db.has_room(room_id@)
                    && !self.db.accessible(room_id@, user_id@),
                Err(ChatRoomErrors::AttachmentNotFound(_)) => false,
                Err(ChatRoomErrors::PersistenceError(_)) => false,
            },
    {
        match self.db.check_access(room_id, user_id) {
            Ok(_) => {},
            Err(AccessError::RoomNotFound) => {
                return Err(ChatRoomErrors::RoomNotFound(room_id.to_owned()));
            },
            Err(_) => {
                return Err(ChatRoomErrors::AccessDenied(room_id.to_owned()));
            },
        }
        let msgs = self.db.get_messages_for_room(room_id, user_id, page);
        let next = next_page(page, msgs.len());
        Ok((msgs, next))
    }

    /// Commits a message of `user_id` to `room_id` and then hands it to the
    /// room's live subscribers, if the room has a live endpoint; returns the
    /// new message's id. Live delivery never turns a commit into a failure.
    pub fn send_message(
        &mut self,
        room_id: &str,
        user_id: &str,
        user_name: &str,
        user_image: Option<String>,
        message: &str,
        uploads: &Vec<String>,
    ) -> (r: Result<String, ChatRoomErrors>)
        requires
            old(self).wf(),
        ensures
            final(self).wf(),
            final(self).rooms@ == old(self).rooms@,
            match r {
                Ok(id) => {
                    let m = final(self).db.messages@.last();
                    &&& final(self).db.messages@ == old(self).db.messages@.push(m)
                    &&& final(self).db.rooms@ == old(self).db.rooms@
                    &&& final(self).db.members@ == old(self).db.members@
                    &&& final(self).db.uploads@ == old(self).db.uploads@
                    &&& final(self).db.users@ == old(self).db.users@
                    &&& final(self).db.profiles@ == old(self).db.profiles@
                    &&& old(self).db.accessible(room_id@, user_id@)
                    &&& crate::database::all_resolve(old(self).db.uploads@, uploads@)
                    &&& m.id == id && m.room_id@ == room_id@ && m.user_id@ == user_id@
                    &&& m.user_name@ == user_name@ && m.user_image == user_image
                    &&& m.message@ == message@
                    &&& (uploads@.len() == 0 <==> m.uploads is None)
                },
                Err(ChatRoomErrors::RoomNotFound(id)) => id@ == room_id@ && !old(self).db.has_room(room_id@),
                Err(ChatRoomErrors::AccessDenied(id)) => id@ == room_id@ && old(self).db.has_room(room_id@)
                    && !old(self).db.accessible(room_id@, user_id@),
                Err(ChatRoomErrors::PersistenceError(d)) => old(self).db.accessible(room_id@, user_id@)
                    && crate::database::all_resolve(old(self).db.uploads@, uploads@) && exists|k: int|
                    0 <= k < old(self).db.messages@.len() && #[trigger] old(self).db.messages@[k].id@ == d@,
                Err(ChatRoomErrors::AttachmentNotFound(a)) => old(self).db.accessible(room_id@, user_id@)
                    && !crate::database::all_resolve(old(self).db.uploads@, uploads@)
                    && !crate::database::has_upload(old(self).db.uploads@, a@),
            },
            r is Err ==> *final(self) == *old(self),
    {
        let ghost before = *self;
        let stored = match self.db.send_message(room_id, user_id, user_name, user_image, message, uploads) {
            Ok(m) => m,
            Err(AccessError::RoomNotFound) => {
                return Err(ChatRoomErrors::RoomNotFound(room_id.to_owned()));
            },
            Err(AccessError::AccessDenied) => {
                return Err(ChatRoomErrors::AccessDenied(room_id.to_owned()));
            },
            Err(AccessError::AttachmentNotFound(a)) => {
                return Err(ChatRoomErrors::AttachmentNotFound(a));
            },
            Err(AccessError::DuplicateId(d)) => {
                return Err(ChatRoomErrors::PersistenceError(d));
            },
        };
        proof {
            assert forall|i: int| 0 <= i < self.rooms@.len() implies self.db.has_room(
                #[trigger] self.rooms@[i].room_id@) by {
                assert(before.db.has_room(self.rooms@[i].room_id@));
                let t = choose|t: int| 0 <= t < before.db.rooms@.len() && #[trigger] before.db.rooms@[t].id@ == self.rooms@[i].room_id@;
                assert(self.db.rooms@[t] == before.db.rooms@[t]);
            }
        }
        let id = stored.id.clone();
        let key = room_id.to_owned();
        match self.find_live(&key) {
            Some(i) => {
                let _ = broadcast(&self.rooms[i].sender, stored);
            },
            None => {},
        }
        Ok(id)
    }
}

} // verus!
