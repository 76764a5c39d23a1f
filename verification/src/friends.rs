//! The friend-relationship state machine: pairwise requests that move from
//! Pending to Accepted or Declined, and the friendship relation derived from
//! the accepted ones.

use crate::users::{id_of_name, id_present, index_of_id, CleanUser, DbUser, UsersManager};
use vstd::prelude::*;

verus! {

#[derive(Clone, Copy, PartialEq, Eq, Structural, Debug)]
pub enum RequestStatus {
    Pending,
    Accepted,
    Declined,
}

/// A stored friend-request row.
#[derive(Clone, Copy, PartialEq, Eq, Structural, Debug)]
pub struct RequestRow {
    pub id: i64,
    pub user_one: i64,
    pub user_two: i64,
    pub status: RequestStatus,
}

/// A pending request as listed to a user, carrying the counterpart's public
/// profile.
#[derive(Debug, PartialEq, Eq)]
pub struct FriendRequest {
    pub id: i64,
    pub other_user: CleanUser,
}

/// The pending requests a user has sent and received.
#[derive(Debug, PartialEq, Eq)]
pub struct Requests {
    pub sent: Vec<FriendRequest>,
    pub received: Vec<FriendRequest>,
}

#[derive(Debug)]
pub enum FriendsManagerError {
    UnknownUser(String),
    CannotAskYourself(i64),
    FriendRequestAlreadyExists(i64, i64),
    FriendRequestDoesNotExists(i64, i64),
    /// The store cannot take another row.
    Storage,
}

/// A request in this status blocks a new one between the same pair.
pub open spec fn active(s: RequestStatus) -> bool {
    s == RequestStatus::Pending || s == RequestStatus::Accepted
}

/// The row connects the two users, in either direction.
pub open spec fn between(r: RequestRow, a: i64, b: i64) -> bool {
    (r.user_one == a && r.user_two == b) || (r.user_one == b && r.user_two == a)
}

/// A Pending or Accepted row connects the two users.
pub open spec fn active_between(rows: Seq<RequestRow>, a: i64, b: i64) -> bool {
    exists|i: int| 0 <= i < rows.len() && active(rows[i].status) && between(rows[i], a, b)
}

/// An Accepted row connects the two users: they are friends.
pub open spec fn accepted_between(rows: Seq<RequestRow>, a: i64, b: i64) -> bool {
    exists|i: int|
        0 <= i < rows.len() && rows[i].status == RequestStatus::Accepted && between(rows[i], a, b)
}

/// A Pending row connects the two users.
pub open spec fn pending_between(rows: Seq<RequestRow>, a: i64, b: i64) -> bool {
    exists|i: int|
        0 <= i < rows.len() && rows[i].status == RequestStatus::Pending && between(rows[i], a, b)
}

/// A Pending row with this id awaits the given receiver.
pub open spec fn has_pending_received(rows: Seq<RequestRow>, id: i64, receiver: i64) -> bool {
    exists|i: int|
        0 <= i < rows.len() && rows[i].id == id && rows[i].user_two == receiver && rows[i].status
            == RequestStatus::Pending
}

/// A Pending row with this id was sent by the given sender.
pub open spec fn has_pending_sent(rows: Seq<RequestRow>, id: i64, sender: i64) -> bool {
    exists|i: int|
        0 <= i < rows.len() && rows[i].id == id && rows[i].user_one == sender && rows[i].status
            == RequestStatus::Pending
}

/// The index of the row carrying the given id.
pub open spec fn request_index(rows: Seq<RequestRow>, id: i64) -> int {
    choose|i: int| 0 <= i < rows.len() && rows[i].id == id
}

/// The public profile a directory row projects to.
pub open spec fn clean_of(u: DbUser) -> CleanUser {
    CleanUser { id: u.id, name: u.name, picture: u.picture, date_of_birth: u.date_of_birth }
}

/// The profiles of every user with an Accepted row shared with `user_id`,
/// in directory order.
pub open spec fn friend_profiles(
    users: Seq<DbUser>,
    rows: Seq<RequestRow>,
    user_id: i64,
) -> Seq<CleanUser>
    decreases users.len(),
{
    if users.len() == 0 {
        Seq::empty()
    } else {
        let pre = friend_profiles(users.drop_last(), rows, user_id);
        if accepted_between(rows, user_id, users.last().id) && users.last().id != user_id {
            pre.push(clean_of(users.last()))
        } else {
            pre
        }
    }
}

/// The Pending rows the user sent, each joined with the receiver's profile;
/// a row whose receiver is not in the directory is left out.
pub open spec fn pending_sent(
    users: Seq<DbUser>,
    rows: Seq<RequestRow>,
    user_id: i64,
) -> Seq<FriendRequest>
    decreases rows.len(),
{
    if rows.len() == 0 {
        Seq::empty()
    } else {
        let pre = pending_sent(users, rows.drop_last(), user_id);
        let r = rows.last();
        if r.user_one == user_id && r.status == RequestStatus::Pending && id_present(
            users,
            r.user_two,
        ) {
            pre.push(
                FriendRequest { id: r.id, other_user: clean_of(users[index_of_id(users, r.user_two)]) },
            )
        } else {
            pre
        }
    }
}

/// The Pending rows the user received, each joined with the sender's
/// profile; a row whose sender is not in the directory is left out.
pub open spec fn pending_received(
    users: Seq<DbUser>,
    rows: Seq<RequestRow>,
    user_id: i64,
) -> Seq<FriendRequest>
    decreases rows.len(),
{
    if rows.len() == 0 {
        Seq::empty()
    } else {
        let pre = pending_received(users, rows.drop_last(), user_id);
        let r = rows.last();
        if r.user_two == user_id && r.status == RequestStatus::Pending && id_present(
            users,
            r.user_one,
        ) {
            pre.push(
                FriendRequest { id: r.id, other_user: clean_of(users[index_of_id(users, r.user_one)]) },
            )
        } else {
            pre
        }
    }
}

pub struct FriendsManager {
    pub users: UsersManager,
    pub requests: Vec<RequestRow>,
    pub next_request_id: i64,
}

impl FriendsManager {
    /// The directory is well formed, request ids are unique and below the
    /// next one to be handed out, no row connects a user to themselves, and
    /// for any pair of users at most one row is Pending or Accepted.
    pub open spec fn wf(self) -> bool {
        &&& self.users.wf()
        &&& 1 <= self.next_request_id
        &&& forall|i: int|
            0 <= i < self.requests@.len() ==> 1 <= #[trigger] self.requests@[i].id
                < self.next_request_id
        &&& forall|i: int, j: int|
            0 <= i < j < self.requests@.len() ==> self.requests@[i].id != self.requests@[j].id
        &&& forall|i: int|
            0 <= i < self.requests@.len() ==> #[trigger] self.requests@[i].user_one
                != self.requests@[i].user_two
        &&& forall|i: int, j: int|
            0 <= i < j < self.requests@.len() && active(self.requests@[i].status) && active(
                self.requests@[j].status,
            ) ==> !between(self.requests@[i], self.requests@[j].user_one, self.requests@[j].user_two)
    }

    /// Take over a directory; no requests exist yet.
    pub fn new(users: UsersManager) -> (r: FriendsManager)
        requires
            users.wf(),
        ensures
            r.wf(),
            r.users == users,
            r.requests@.len() == 0,
    {
        FriendsManager { users, requests: Vec::new(), next_request_id: 1 }
    }

    /// An Accepted row connects the two users.
    fn accepted_with(&self, a: i64, b: i64) -> (r: bool)
        ensures
            r == accepted_between(self.requests@, a, b),
    {
        let mut i: usize = 0;
        while i < self.requests.len()
            invariant
                0 <= i <= self.requests@.len(),
                forall|k: int|
                    0 <= k < i ==> !(self.requests@[k].status == RequestStatus::Accepted
                        && between(self.requests@[k], a, b)),
            decreases self.requests@.len() - i,
        {
            let row = &self.requests[i];
            if matches!(row.status, RequestStatus::Accepted) && ((row.user_one == a && row.user_two
                == b) || (row.user_one == b && row.user_two == a)) {
                return true;
            }
            i = i + 1;
        }
        false
    }

    /// A Pending or Accepted row connects the two users.
    fn active_with(&self, a: i64, b: i64) -> (r: bool)
        ensures
            r == active_between(self.requests@, a, b),
    {
        let mut i: usize = 0;
        while i < self.requests.len()
            invariant
                0 <= i <= self.requests@.len(),
                forall|k: int|
                    0 <= k < i ==> !(active(self.requests@[k].status) && between(
                        self.requests@[k],
                        a,
                        b,
                    )),
            decreases self.requests@.len() - i,
        {
            let row = &self.requests[i];
            if !matches!(row.status, RequestStatus::Declined) && ((row.user_one == a
                && row.user_two == b) || (row.user_one == b && row.user_two == a)) {
                return true;
            }
            i = i + 1;
        }
        false
    }

    /// File a Pending request from a user to the user a name resolves to.
    /// It fails on an unknown name, on a request to oneself, and where a
    /// Pending or Accepted request already connects the pair.
    pub fn create_friend_request(&mut self, from_user_id: i64, to_user: &str) -> (r: Result<
        (),
        FriendsManagerError,
    >)
        requires
            old(self).wf(),
        ensures
            final(self).wf(),
            final(self).users == old(self).users,
            id_of_name(old(self).users.users@, to_user@) is None ==> *final(self) == *old(self) && (
            r matches Err(FriendsManagerError::UnknownUser(n)) && n@ == to_user@),
            id_of_name(old(self).users.users@, to_user@) == Some(from_user_id) ==> {
                &&& *final(self) == *old(self)
                &&& r matches Err(FriendsManagerError::CannotAskYourself(u)) && u == from_user_id
            },
            forall|to_id: i64|
                id_of_name(old(self).users.users@, to_user@) == Some(to_id) && to_id != from_user_id
                    ==> #[trigger] create_outcome(*old(self), *final(self), r, from_user_id, to_id),
    {
        let to_id = match self.users.lookup_id(to_user) {
            Some(id) => id,
            None => {
                return Err(FriendsManagerError::UnknownUser(to_user.to_owned()));
            },
        };
        if to_id == from_user_id {
            return Err(FriendsManagerError::CannotAskYourself(from_user_id));
        }
        if self.active_with(from_user_id, to_id) {
            return Err(FriendsManagerError::FriendRequestAlreadyExists(from_user_id, to_id));
        }
        if self.next_request_id == i64::MAX {
            return Err(FriendsManagerError::Storage);
        }
        let id = self.next_request_id;
        self.requests.push(
            RequestRow {
                id,
                user_one: from_user_id,
                user_two: to_id,
                status: RequestStatus::Pending,
            },
        );
        self.next_request_id = id + 1;
        Ok(())
    }

    /// The two users are friends: an Accepted request connects them.
    pub fn is_my_friend(&self, user_id: i64, friend_id: i64) -> (r: Result<
        bool,
        FriendsManagerError,
    >)
        ensures
            r matches Ok(b) && b == accepted_between(self.requests@, user_id, friend_id),
    {
        Ok(self.accepted_with(user_id, friend_id))
    }

    /// The public profiles of every friend of the user, in directory order.
    pub fn get_friends(&self, user_id: i64) -> (r: Result<Vec<CleanUser>, FriendsManagerError>)
        requires
            self.wf(),
        ensures
            r matches Ok(v) && v@ == friend_profiles(self.users.users@, self.requests@, user_id),
    {
        let mut out: Vec<CleanUser> = Vec::new();
        let n = self.users.users.len();
        for i in 0..n
            invariant
                n == self.users.users@.len(),
                out@ == friend_profiles(
                    self.users.users@.take(i as int),
                    self.requests@,
                    user_id,
                ),
        {
            let row = &self.users.users[i];
            proof {
                assert(self.users.users@.take(i + 1).drop_last() =~= self.users.users@.take(
                    i as int,
                ));
                assert(self.users.users@.take(i + 1).last() == self.users.users@[i as int]);
            }
            if row.id != user_id && self.accepted_with(user_id, row.id) {
                let profile = CleanUser {
                    id: row.id,
                    name: row.name.clone(),
                    picture: clone_opt_string_local(&row.picture),
                    date_of_birth: row.date_of_birth,
                };
                assert(profile == clean_of(self.users.users@[i as int]));
                out.push(profile);
            }
        }
        proof {
            assert(self.users.users@.take(n as int) =~= self.users.users@);
        }
        Ok(out)
    }

    /// Resolve a friend's name to their id; a name that is unknown, or known
    /// but not a friend, is reported as unknown.
    pub fn get_friend_id(&self, user_id: i64, friend_name: &str) -> (r: Result<
        i64,
        FriendsManagerError,
    >)
        requires
            self.wf(),
        ensures
            match id_of_name(self.users.users@, friend_name@) {
                None => r matches Err(FriendsManagerError::UnknownUser(n)) && n@ == friend_name@,
                Some(fid) => if accepted_between(self.requests@, user_id, fid) {
                    r matches Ok(got) && got == fid
                } else {
                    r matches Err(FriendsManagerError::UnknownUser(n)) && n@ == friend_name@
                },
            },
    {
        let friend_id = match self.users.lookup_id(friend_name) {
            Some(id) => id,
            None => {
                return Err(FriendsManagerError::UnknownUser(friend_name.to_owned()));
            },
        };
        if !self.accepted_with(user_id, friend_id) {
            return Err(FriendsManagerError::UnknownUser(friend_name.to_owned()));
        }
        Ok(friend_id)
    }

    /// The user's pending requests: those they sent and those they received,
    /// in filing order, each with the counterpart's profile.
    pub fn get_requests(&self, user_id: i64) -> (r: Result<Requests, FriendsManagerError>)
        requires
            self.wf(),
        ensures
            r matches Ok(q) && q.sent@ == pending_sent(
                self.users.users@,
                self.requests@,
                user_id,
            ) && q.received@ == pending_received(self.users.users@, self.requests@, user_id),
    {
        let mut sent: Vec<FriendRequest> = Vec::new();
        let mut received: Vec<FriendRequest> = Vec::new();
        let n = self.requests.len();
        for i in 0..n
            invariant
                n == self.requests@.len(),
                self.wf(),
                sent@ == pending_sent(self.users.users@, self.requests@.take(i as int), user_id),
                received@ == pending_received(
                    self.users.users@,
                    self.requests@.take(i as int),
                    user_id,
                ),
        {
            let row = self.requests[i];
            proof {
                assert(self.requests@.take(i + 1).drop_last() =~= self.requests@.take(i as int));
                assert(self.requests@.take(i + 1).last() == self.requests@[i as int]);
            }
            if matches!(row.status, RequestStatus::Pending) && row.user_one == user_id {
                match self.users.find_by_id(row.user_two) {
                    Some(j) => {
                        let u = &self.users.users[j];
                        let entry = FriendRequest {
                            id: row.id,
                            other_user: CleanUser {
                                id: u.id,
                                name: u.name.clone(),
                                picture: clone_opt_string_local(&u.picture),
                                date_of_birth: u.date_of_birth,
                            },
                        };
                        proof {
                            let k = index_of_id(self.users.users@, row.user_two);
                            assert(self.users.users@[k].id == row.user_two);
                            assert(k == j);
                        }
                        sent.push(entry);
                    },
                    None => (),
                }
            } else if matches!(row.status, RequestStatus::Pending) && row.user_two == user_id {
                match self.users.find_by_id(row.user_one) {
                    Some(j) => {
                        let u = &self.users.users[j];
                        let entry = FriendRequest {
                            id: row.id,
                            other_user: CleanUser {
                                id: u.id,
                                name: u.name.clone(),
                                picture: clone_opt_string_local(&u.picture),
                                date_of_birth: u.date_of_birth,
                            },
                        };
                        proof {
                            let k = index_of_id(self.users.users@, row.user_one);
                            assert(self.users.users@[k].id == row.user_one);
                            assert(k == j);
                        }
                        received.push(entry);
                    },
                    None => (),
                }
            }
        }
        proof {
            assert(self.requests@.take(n as int) =~= self.requests@);
        }
        Ok(Requests { sent, received })
    }

    /// Resolve a Pending request addressed to the receiver: its status
    /// becomes Accepted or Declined, a terminal state.
    pub fn update_received_request(
        &mut self,
        request_id: i64,
        user_id: i64,
        status: RequestStatus,
    ) -> (r: Result<(), FriendsManagerError>)
        requires
            old(self).wf(),
        ensures
            final(self).wf(),
            final(self).users == old(self).users,
            final(self).next_request_id == old(self).next_request_id,
            !has_pending_received(old(self).requests@, request_id, user_id) ==> {
                &&& *final(self) == *old(self)
                &&& r matches Err(FriendsManagerError::FriendRequestDoesNotExists(a, b)) && a
                    == request_id && b == user_id
            },
            has_pending_received(old(self).requests@, request_id, user_id) ==> {
                &&& r matches Ok(u)
                &&& final(self).requests@ == old(self).requests@.update(
                    request_index(old(self).requests@, request_id),
                    RequestRow {
                        id: request_id,
                        user_one: old(self).requests@[request_index(
                            old(self).requests@,
                            request_id,
                        )].user_one,
                        user_two: user_id,
                        status,
                    },
                )
            },
    {
        let mut i: usize = 0;
        while i < self.requests.len()
            invariant
                *self == *old(self),
                old(self).wf(),
                0 <= i <= self.requests@.len(),
                forall|k: int|
                    0 <= k < i ==> !(self.requests@[k].id == request_id && self.requests@[k].user_two
                        == user_id && self.requests@[k].status == RequestStatus::Pending),
            decreases self.requests@.len() - i,
        {
            let row = self.requests[i];
            if row.id == request_id && row.user_two == user_id && matches!(
                row.status,
                RequestStatus::Pending,
            ) {
                proof {
                    let k = request_index(self.requests@, request_id);
                    assert(self.requests@[k].id == request_id);
                    assert(k == i);
                }
                self.requests.set(
                    i,
                    RequestRow {
                        id: row.id,
                        user_one: row.user_one,
                        user_two: row.user_two,
                        status,
                    },
                );
                proof {
                    let rows0 = old(self).requests@;
                    let rows1 = self.requests@;
                    let ii = i as int;
                    assert(active(rows0[ii].status));
                    assert(forall|k: int|
                        0 <= k < rows1.len() && k != ii ==> rows1[k] == rows0[k]);
                    assert forall|p: int, q: int|
                        0 <= p < q < rows1.len() && active(rows1[p].status) && active(
                            rows1[q].status,
                        ) implies !between(
                        rows1[p],
                        rows1[q].user_one,
                        rows1[q].user_two,
                    ) by {
                        assert(rows1[p].user_one == rows0[p].user_one && rows1[p].user_two
                            == rows0[p].user_two);
                        assert(rows1[q].user_one == rows0[q].user_one && rows1[q].user_two
                            == rows0[q].user_two);
                        assert(active(rows0[p].status) && active(rows0[q].status));
                        assert(!between(rows0[p], rows0[q].user_one, rows0[q].user_two));
                    }
                }
                return Ok(());
            }
            i = i + 1;
        }
        Err(FriendsManagerError::FriendRequestDoesNotExists(request_id, user_id))
    }

    /// Withdraw a Pending request the sender filed: the row is removed.
    pub fn cancel_sent_request(&mut self, request_id: i64, user_id: i64) -> (r: Result<
        (),
        FriendsManagerError,
    >)
        requires
            old(self).wf(),
        ensures
            final(self).wf(),
            final(self).users == old(self).users,
            final(self).next_request_id == old(self).next_request_id,
            !has_pending_sent(old(self).requests@, request_id, user_id) ==> {
                &&& *final(self) == *old(self)
                &&& r matches Err(FriendsManagerError::FriendRequestDoesNotExists(a, b)) && a
                    == request_id && b == user_id
            },
            has_pending_sent(old(self).requests@, request_id, user_id) ==> {
                &&& r matches Ok(u)
                &&& final(self).requests@ == old(self).requests@.remove(
                    request_index(old(self).requests@, request_id),
                )
            },
    {
        let mut i: usize = 0;
        while i < self.requests.len()
            invariant
                *self == *old(self),
                old(self).wf(),
                0 <= i <= self.requests@.len(),
                forall|k: int|
                    0 <= k < i ==> !(self.requests@[k].id == request_id && self.requests@[k].user_one
                        == user_id && self.requests@[k].status == RequestStatus::Pending),
            decreases self.requests@.len() - i,
        {
            let row = self.requests[i];
            if row.id == request_id && row.user_one == user_id && matches!(
                row.status,
                RequestStatus::Pending,
            ) {
                proof {
                    let k = request_index(self.requests@, request_id);
                    assert(self.requests@[k].id == request_id);
                    assert(k == i);
                }
                self.requests.remove(i);
                return Ok(());
            }
            i = i + 1;
        }
        Err(FriendsManagerError::FriendRequestDoesNotExists(request_id, user_id))
    }
}

/// Copy an optional string by contents.
fn clone_opt_string_local(o: &Option<String>) -> (r: Option<String>)
    ensures
        *o == r,
{
    match o {
        None => None,
        Some(s) => Some(s.clone()),
    }
}

/// What filing a request from `from` to the resolved id `to` does: it fails
/// where a Pending or Accepted row already connects the pair, and otherwise
/// appends a fresh Pending row.
pub open spec fn create_outcome(
    pre: FriendsManager,
    post: FriendsManager,
    r: Result<(), FriendsManagerError>,
    from: i64,
    to: i64,
) -> bool {
    if active_between(pre.requests@, from, to) {
        post == pre && (r matches Err(FriendsManagerError::FriendRequestAlreadyExists(a, b)) && a
            == from && b == to)
    } else if pre.next_request_id == i64::MAX {
        post == pre && (r matches Err(FriendsManagerError::Storage))
    } else {
        &&& r matches Ok(u)
        &&& post.requests@ == pre.requests@.push(
            RequestRow {
                id: pre.next_request_id,
                user_one: from,
                user_two: to,
                status: RequestStatus::Pending,
            },
        )
        &&& post.next_request_id == pre.next_request_id + 1
        &&& post.users == pre.users
    }
}

} // verus!
