//! Notifications fanned out to a user's friends when their wishlists
//! change.

use crate::clock::now_secs;
use crate::digits::decimal_string;
use crate::friends::{friend_profiles, FriendsManager, FriendsManagerError};
use crate::users::{id_present, index_of_id, DbUser};
use vstd::prelude::*;

verus! {

/// What happened, and to which category or gift.
pub enum NotificationEvent {
    CreateCategory(i64),
    UpdateCategory(i64),
    DeleteCategory(i64),
    CreateGift(i64),
    UpdateGift(i64),
    DeleteGift(i64),
}

/// The stored kind tag of an event.
pub open spec fn event_kind(e: NotificationEvent) -> Seq<char> {
    match e {
        NotificationEvent::CreateCategory(_) => "CreateCategory"@,
        NotificationEvent::UpdateCategory(_) => "UpdateCategory"@,
        NotificationEvent::DeleteCategory(_) => "DeleteCategory"@,
        NotificationEvent::CreateGift(_) => "CreateGift"@,
        NotificationEvent::UpdateGift(_) => "UpdateGift"@,
        NotificationEvent::DeleteGift(_) => "DeleteGift"@,
    }
}

/// The id an event speaks of.
pub open spec fn event_subject(e: NotificationEvent) -> i64 {
    match e {
        NotificationEvent::CreateCategory(id) => id,
        NotificationEvent::UpdateCategory(id) => id,
        NotificationEvent::DeleteCategory(id) => id,
        NotificationEvent::CreateGift(id) => id,
        NotificationEvent::UpdateGift(id) => id,
        NotificationEvent::DeleteGift(id) => id,
    }
}

impl NotificationEvent {
    /// The kind tag an event is stored under.
    pub fn to_sql_type(&self) -> (r: &'static str)
        ensures
            r@ == event_kind(*self),
    {
        match self {
            NotificationEvent::CreateCategory(_) => "CreateCategory",
            NotificationEvent::UpdateCategory(_) => "UpdateCategory",
            NotificationEvent::DeleteCategory(_) => "DeleteCategory",
            NotificationEvent::CreateGift(_) => "CreateGift",
            NotificationEvent::UpdateGift(_) => "UpdateGift",
            NotificationEvent::DeleteGift(_) => "DeleteGift",
        }
    }

    /// The detail column an event is stored with: its subject id in
    /// decimal.
    pub fn to_sql_detail(&self) -> (r: String)
        ensures
            r@ == decimal_string(event_subject(*self) as int),
    {
        match self {
            NotificationEvent::CreateCategory(id) => crate::digits::i64_to_string(*id),
            NotificationEvent::UpdateCategory(id) => crate::digits::i64_to_string(*id),
            NotificationEvent::DeleteCategory(id) => crate::digits::i64_to_string(*id),
            NotificationEvent::CreateGift(id) => crate::digits::i64_to_string(*id),
            NotificationEvent::UpdateGift(id) => crate::digits::i64_to_string(*id),
            NotificationEvent::DeleteGift(id) => crate::digits::i64_to_string(*id),
        }
    }
}

/// A notification as listed to its recipient.
#[derive(Debug)]
pub struct Notification {
    pub id: i64,
    pub _type: String,
    pub detail: String,
    pub created_at: i64,
    pub created_by: String,
    pub read: bool,
}

impl PartialEq for Notification {
    /// Identity and timestamp are bookkeeping: two notifications are the
    /// same when kind, detail, author and read state agree.
    fn eq(&self, other: &Self) -> (r: bool) {
        self._type == other._type && self.detail == other.detail && self.created_by
            == other.created_by && self.read == other.read
    }
}

impl vstd::std_specs::cmp::PartialEqSpecImpl for Notification {
    open spec fn obeys_eq_spec() -> bool {
        true
    }

    open spec fn eq_spec(&self, other: &Notification) -> bool {
        self._type@ == other._type@ && self.detail@ == other.detail@ && self.created_by@
            == other.created_by@ && self.read == other.read
    }
}

/// The stored description of one event.
pub struct DetailRow {
    pub id: i64,
    pub kind: String,
    pub detail: String,
    pub created_at: i64,
    pub created_by: i64,
}

/// One recipient's copy of one event.
#[derive(Clone, Copy, PartialEq, Eq, Structural, Debug)]
pub struct NoteRow {
    pub id: i64,
    pub detail_id: i64,
    pub recipient: i64,
    pub read: bool,
}

#[derive(Debug)]
pub enum NotificationsManagerError {
    Friends(FriendsManagerError),
    /// The store cannot take another row.
    Storage,
}

/// Some stored detail carries the given id.
pub open spec fn detail_present(details: Seq<DetailRow>, id: i64) -> bool {
    exists|i: int| 0 <= i < details.len() && details[i].id == id
}

/// The index of the stored detail carrying the given id.
pub open spec fn detail_index(details: Seq<DetailRow>, id: i64) -> int {
    choose|i: int| 0 <= i < details.len() && details[i].id == id
}

/// The notifications a user sees: their copies in filing order, each joined
/// with its event description and the author's name; a copy whose
/// description or author cannot be resolved is left out.
pub open spec fn notifications_for(
    users: Seq<DbUser>,
    details: Seq<DetailRow>,
    notes: Seq<NoteRow>,
    user_id: i64,
) -> Seq<Notification>
    decreases notes.len(),
{
    if notes.len() == 0 {
        Seq::empty()
    } else {
        let pre = notifications_for(users, details, notes.drop_last(), user_id);
        let n = notes.last();
        if n.recipient == user_id && detail_present(details, n.detail_id) && id_present(
            users,
            details[detail_index(details, n.detail_id)].created_by,
        ) {
            let d = details[detail_index(details, n.detail_id)];
            pre.push(
                Notification {
                    id: n.id,
                    _type: d.kind,
                    detail: d.detail,
                    created_at: d.created_at,
                    created_by: users[index_of_id(users, d.created_by)].name,
                    read: n.read,
                },
            )
        } else {
            pre
        }
    }
}

pub struct NotificationsManager {
    pub friends: FriendsManager,
    pub details: Vec<DetailRow>,
    pub notes: Vec<NoteRow>,
    pub next_detail_id: i64,
    pub next_note_id: i64,
}

impl NotificationsManager {
    /// The friend store is well formed and detail and copy ids are unique
    /// and below the next ones to be handed out.
    pub open spec fn wf(self) -> bool {
        &&& self.friends.wf()
        &&& 1 <= self.next_detail_id
        &&& 1 <= self.next_note_id
        &&& forall|i: int|
            0 <= i < self.details@.len() ==> 1 <= #[trigger] self.details@[i].id
                < self.next_detail_id
        &&& forall|i: int, j: int|
            0 <= i < j < self.details@.len() ==> self.details@[i].id != self.details@[j].id
        &&& forall|i: int|
            0 <= i < self.notes@.len() ==> 1 <= #[trigger] self.notes@[i].id < self.next_note_id
        &&& forall|i: int, j: int|
            0 <= i < j < self.notes@.len() ==> self.notes@[i].id != self.notes@[j].id
    }

    /// Take over a friend store; no notifications exist yet.
    pub fn new(friends: FriendsManager) -> (r: NotificationsManager)
        requires
            friends.wf(),
        ensures
            r.wf(),
            r.friends == friends,
            r.details@.len() == 0,
            r.notes@.len() == 0,
    {
        NotificationsManager {
            friends,
            details: Vec::new(),
            notes: Vec::new(),
            next_detail_id: 1,
            next_note_id: 1,
        }
    }

    /// File an event by the user: every friend of theirs gets an unread
    /// copy; with no friends, nothing is stored.
    pub fn add_notification(&mut self, user_id: i64, notification_event: NotificationEvent) -> (r:
        Result<(), NotificationsManagerError>)
        requires
            old(self).wf(),
        ensures
            final(self).wf(),
            final(self).friends == old(self).friends,
            ({
                let fl = friend_profiles(
                    old(self).friends.users.users@,
                    old(self).friends.requests@,
                    user_id,
                );
                &&& fl.len() == 0 ==> *final(self) == *old(self) && r is Ok
                &&& fl.len() > 0 && (old(self).next_detail_id == i64::MAX || i64::MAX - old(
                    self,
                ).next_note_id < fl.len()) ==> *final(self) == *old(self) && (r matches Err(
                    NotificationsManagerError::Storage,
                ))
                &&& fl.len() > 0 && old(self).next_detail_id < i64::MAX && i64::MAX - old(
                    self,
                ).next_note_id >= fl.len() ==> {
                    &&& r is Ok
                    &&& final(self).next_detail_id == old(self).next_detail_id + 1
                    &&& final(self).next_note_id == old(self).next_note_id + fl.len()
                    &&& final(self).details@.len() == old(self).details@.len() + 1
                    &&& final(self).details@.drop_last() == old(self).details@
                    &&& final(self).details@.last().id == old(self).next_detail_id
                    &&& final(self).details@.last().kind@ == event_kind(
                        notification_event,
                    )
                    &&& final(self).details@.last().detail@ == decimal_string(
                        event_subject(notification_event) as int,
                    )
                    &&& final(self).details@.last().created_by == user_id
                    &&& final(self).notes@.len() == old(self).notes@.len() + fl.len()
                    &&& final(self).notes@.take(old(self).notes@.len() as int) == old(
                        self,
                    ).notes@
                    &&& forall|k: int|
                        0 <= k < fl.len() ==> #[trigger] final(self).notes@[old(
                            self,
                        ).notes@.len() + k] == (NoteRow {
                            id: (old(self).next_note_id + k) as i64,
                            detail_id: old(self).next_detail_id,
                            recipient: fl[k].id,
                            read: false,
                        })
                }
            }),
    {
        let friends_list = match self.friends.get_friends(user_id) {
            Ok(v) => v,
            Err(e) => {
                return Err(NotificationsManagerError::Friends(e));
            },
        };
        if friends_list.is_empty() {
            return Ok(());
        }
        let fl_len = friends_list.len();
        if self.next_detail_id == i64::MAX {
            return Err(NotificationsManagerError::Storage);
        }
        if (fl_len as u64) > (i64::MAX - self.next_note_id) as u64 {
            return Err(NotificationsManagerError::Storage);
        }
        let now = now_secs();
        let created_at: i64 = if now > i64::MAX as u64 {
            i64::MAX
        } else {
            now as i64
        };
        let detail_id = self.next_detail_id;
        self.details.push(
            DetailRow {
                id: detail_id,
                kind: notification_event.to_sql_type().to_owned(),
                detail: notification_event.to_sql_detail(),
                created_at,
                created_by: user_id,
            },
        );
        self.next_detail_id = detail_id + 1;
        let ghost notes0 = self.notes@;
        let ghost note_base = self.next_note_id;
        let mut k: usize = 0;
        while k < fl_len
            invariant
                old(self).wf(),
                fl_len == friends_list@.len(),
                fl_len <= i64::MAX - note_base,
                0 <= k <= fl_len,
                note_base == old(self).next_note_id,
                1 <= note_base,
                notes0 == old(self).notes@,
                self.friends == old(self).friends,
                self.details@.len() == old(self).details@.len() + 1,
                self.details@.drop_last() == old(self).details@,
                self.details@.last().id == old(self).next_detail_id,
                self.details@.last().created_by == user_id,
                self.details@.last().kind@ == event_kind(notification_event),
                self.details@.last().detail@ == decimal_string(
                    event_subject(notification_event) as int,
                ),
                self.next_detail_id == old(self).next_detail_id + 1,
                detail_id == old(self).next_detail_id,
                self.next_note_id == note_base + k,
                self.notes@.len() == notes0.len() + k,
                self.notes@.take(notes0.len() as int) == notes0,
                forall|t: int|
                    0 <= t < k ==> #[trigger] self.notes@[notes0.len() + t] == (NoteRow {
                        id: (note_base + t) as i64,
                        detail_id,
                        recipient: friends_list@[t].id,
                        read: false,
                    }),
                self.wf(),
            decreases fl_len - k,
        {
            let note_id = self.next_note_id;
            self.notes.push(
                NoteRow {
                    id: note_id,
                    detail_id,
                    recipient: friends_list[k].id,
                    read: false,
                },
            );
            self.next_note_id = note_id + 1;
            proof {
                assert(self.notes@.take(notes0.len() as int) =~= notes0);
            }
            k = k + 1;
        }
        Ok(())
    }

    /// The user's notifications, in filing order.
    pub fn get_notifications(&self, user_id: i64) -> (r: Result<
        Vec<Notification>,
        NotificationsManagerError,
    >)
        requires
            self.wf(),
        ensures
            r matches Ok(v) && v@ == notifications_for(
                self.friends.users.users@,
                self.details@,
                self.notes@,
                user_id,
            ),
    {
        let mut out: Vec<Notification> = Vec::new();
        let n = self.notes.len();
        for i in 0..n
            invariant
                self.wf(),
                n == self.notes@.len(),
                out@ == notifications_for(
                    self.friends.users.users@,
                    self.details@,
                    self.notes@.take(i as int),
                    user_id,
                ),
        {
            proof {
                assert(self.notes@.take(i + 1).drop_last() =~= self.notes@.take(i as int));
                assert(self.notes@.take(i + 1).last() == self.notes@[i as int]);
            }
            let note = self.notes[i];
            if note.recipient == user_id {
                match self.find_detail(note.detail_id) {
                    Some(di) => {
                        proof {
                            assert(self.details@[di as int].id == note.detail_id);
                            assert(detail_present(self.details@, note.detail_id));
                            let w = detail_index(self.details@, note.detail_id);
                            assert(self.details@[w].id == note.detail_id);
                            assert(w == di);
                        }
                        let d = &self.details[di];
                        match self.friends.users.find_by_id(d.created_by) {
                            Some(ui) => {
                                proof {
                                    let us = self.friends.users.users@;
                                    assert(us[ui as int].id == d.created_by);
                                    assert(id_present(us, d.created_by));
                                    let w = index_of_id(us, d.created_by);
                                    assert(us[w].id == d.created_by);
                                    assert(w == ui);
                                }
                                out.push(
                                    Notification {
                                        id: note.id,
                                        _type: d.kind.clone(),
                                        detail: d.detail.clone(),
                                        created_at: d.created_at,
                                        created_by: self.friends.users.users[ui].name.clone(),
                                        read: note.read,
                                    },
                                );
                                proof {
                                    assert(out@ =~= notifications_for(
                                        self.friends.users.users@,
                                        self.details@,
                                        self.notes@.take(i + 1),
                                        user_id,
                                    ));
                                }
                            },
                            None => (),
                        }
                    },
                    None => (),
                }
            }
        }
        proof {
            assert(self.notes@.take(n as int) =~= self.notes@);
        }
        Ok(out)
    }

    /// Mark the notification with the given id read.
    pub fn read_notification(&mut self, notification_id: i64) -> (r: Result<
        (),
        NotificationsManagerError,
    >)
        requires
            old(self).wf(),
        ensures
            final(self).wf(),
            r is Ok,
            final(self).friends == old(self).friends,
            final(self).details@ == old(self).details@,
            final(self).next_detail_id == old(self).next_detail_id,
            final(self).next_note_id == old(self).next_note_id,
            !note_present(old(self).notes@, notification_id) ==> final(self).notes@ == old(
                self,
            ).notes@,
            note_present(old(self).notes@, notification_id) ==> final(self).notes@ == old(
                self,
            ).notes@.update(
                note_index(old(self).notes@, notification_id),
                NoteRow {
                    read: true,
                    ..old(self).notes@[note_index(old(self).notes@, notification_id)]
                },
            ),
    {
        let mut i: usize = 0;
        while i < self.notes.len()
            invariant
                *self == *old(self),
                old(self).wf(),
                0 <= i <= self.notes@.len(),
                forall|k: int| 0 <= k < i ==> self.notes@[k].id != notification_id,
            decreases self.notes@.len() - i,
        {
            let row = self.notes[i];
            if row.id == notification_id {
                proof {
                    let w = note_index(self.notes@, notification_id);
                    assert(self.notes@[w].id == notification_id);
                    assert(w == i);
                }
                self.notes.set(
                    i,
                    NoteRow {
                        id: row.id,
                        detail_id: row.detail_id,
                        recipient: row.recipient,
                        read: true,
                    },
                );
                return Ok(());
            }
            i = i + 1;
        }
        Ok(())
    }

    /// How many recipient copies the store holds.
    pub fn notifications_count(&self) -> (r: usize)
        ensures
            r == self.notes@.len(),
    {
        self.notes.len()
    }

    /// How many event descriptions the store holds.
    pub fn details_count(&self) -> (r: usize)
        ensures
            r == self.details@.len(),
    {
        self.details.len()
    }

    /// Find the index of the stored detail with the given id.
    fn find_detail(&self, detail_id: i64) -> (r: Option<usize>)
        ensures
            match r {
                Some(i) => i < self.details@.len() && self.details@[i as int].id == detail_id,
                None => !detail_present(self.details@, detail_id),
            },
    {
        let mut i: usize = 0;
        while i < self.details.len()
            invariant
                0 <= i <= self.details@.len(),
                forall|k: int| 0 <= k < i ==> self.details@[k].id != detail_id,
            decreases self.details@.len() - i,
        {
            if self.details[i].id == detail_id {
                return Some(i);
            }
            i = i + 1;
        }
        None
    }
}

/// Some recipient copy carries the given id.
pub open spec fn note_present(notes: Seq<NoteRow>, id: i64) -> bool {
    exists|i: int| 0 <= i < notes.len() && notes[i].id == id
}

/// The index of the recipient copy carrying the given id.
pub open spec fn note_index(notes: Seq<NoteRow>, id: i64) -> int {
    choose|i: int| 0 <= i < notes.len() && notes[i].id == id
}

} // verus!
