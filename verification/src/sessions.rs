//! In-memory session tokens, one per logged-in user.

use vstd::prelude::*;

verus! {

/// Relies on rand::Rng::sample_iter with rand::distributions::Alphanumeric:
/// 128 letters and digits drawn from the thread-local generator; nothing is
/// promised of which ones.
#[verifier::external_body]
fn random_token() -> (r: String)
    ensures
        r@.len() == 128,
{
    rand::Rng::sample_iter(rand::thread_rng(), rand::distributions::Alphanumeric).take(
        128,
    ).map(char::from).collect()
}

/// The token table a row list stands for; a later row for the same user
/// would win, though the store never keeps two.
pub open spec fn sessions_map(rows: Seq<(i64, String)>) -> Map<i64, Seq<char>>
    decreases rows.len(),
{
    if rows.len() == 0 {
        Map::empty()
    } else {
        sessions_map(rows.drop_last()).insert(rows.last().0, rows.last().1@)
    }
}

/// With one row per user, the table reads off the rows.
proof fn lemma_sessions_map(rows: Seq<(i64, String)>)
    requires
        forall|i: int, j: int| 0 <= i < j < rows.len() ==> rows[i].0 != rows[j].0,
    ensures
        forall|u: i64| #[trigger] sessions_map(rows).dom().contains(u) <==> exists|i: int|
            0 <= i < rows.len() && #[trigger] rows[i].0 == u,
        forall|i: int|
            0 <= i < rows.len() ==> sessions_map(rows)[#[trigger] rows[i].0] == rows[i].1@,
    decreases rows.len(),
{
    if rows.len() > 0 {
        lemma_sessions_map(rows.drop_last());
        assert forall|u: i64| #[trigger] sessions_map(rows).dom().contains(u) implies exists|i: int|
            0 <= i < rows.len() && #[trigger] rows[i].0 == u by {
            if u != rows.last().0 {
                assert(sessions_map(rows.drop_last()).dom().contains(u));
                let w = choose|w: int|
                    0 <= w < rows.drop_last().len() && #[trigger] rows.drop_last()[w].0 == u;
                assert(rows[w].0 == u);
            } else {
                assert(rows[rows.len() - 1].0 == u);
            }
        }
        assert forall|u: i64|
            (exists|i: int| 0 <= i < rows.len() && #[trigger] rows[i].0 == u) implies
            #[trigger] sessions_map(rows).dom().contains(u) by {
            let w = choose|w: int| 0 <= w < rows.len() && #[trigger] rows[w].0 == u;
            if w < rows.len() - 1 {
                assert(rows.drop_last()[w].0 == u);
                assert(sessions_map(rows.drop_last()).dom().contains(u));
            }
        }
        assert forall|i: int| 0 <= i < rows.len() implies sessions_map(rows)[#[trigger] rows[i].0]
            == rows[i].1@ by {
            if i < rows.len() - 1 {
                assert(rows.drop_last()[i] == rows[i]);
                assert(rows[i].0 != rows.last().0);
            }
        }
    }
}

pub struct SessionManager {
    pub sessions: Vec<(i64, String)>,
}

impl SessionManager {
    /// At most one token per user.
    pub open spec fn wf(self) -> bool {
        forall|i: int, j: int|
            0 <= i < j < self.sessions@.len() ==> self.sessions@[i].0 != self.sessions@[j].0
    }

    /// The token table this store holds.
    pub open spec fn view(self) -> Map<i64, Seq<char>> {
        sessions_map(self.sessions@)
    }

    /// Find the index of the user's token row.
    fn find_session(&self, user_id: i64) -> (r: Option<usize>)
        ensures
            match r {
                Some(i) => i < self.sessions@.len() && self.sessions@[i as int].0 == user_id,
                None => forall|k: int|
                    0 <= k < self.sessions@.len() ==> self.sessions@[k].0 != user_id,
            },
    {
        let mut i: usize = 0;
        while i < self.sessions.len()
            invariant
                0 <= i <= self.sessions@.len(),
                forall|k: int| 0 <= k < i ==> self.sessions@[k].0 != user_id,
            decreases self.sessions@.len() - i,
        {
            if self.sessions[i].0 == user_id {
                return Some(i);
            }
            i = i + 1;
        }
        None
    }

    /// Hand the user their session token, drawing a fresh 128-character one
    /// the first time.
    pub fn generate_session(&mut self, user_id: i64) -> (r: String)
        requires
            old(self).wf(),
        ensures
            final(self).wf(),
            old(self)@.dom().contains(user_id) ==> *final(self) == *old(self) && r@ == old(self)@[user_id],
            !old(self)@.dom().contains(user_id) ==> r@.len() == 128 && final(self)@ == old(self)@.insert(user_id, r@),
    {
        proof {
            lemma_sessions_map(self.sessions@);
        }
        match self.find_session(user_id) {
            Some(i) => {
                proof {
                    assert(self@.dom().contains(user_id));
                    assert(self@[self.sessions@[i as int].0] == self.sessions@[i as int].1@);
                }
                self.sessions[i].1.clone()
            },
            None => {
                let token = random_token();
                self.sessions.push((user_id, token.clone()));
                proof {
                    assert(self.sessions@.drop_last() =~= old(self).sessions@);
                    assert(final(self)@ == old(self)@.insert(user_id, token@));
                }
                token
            },
        }
    }

    /// Let the user share the session another user already holds; without
    /// one, nothing changes.
    pub fn set_common_session(&mut self, user_id: i64, other_user_id: i64) -> (r: Option<()>)
        requires
            old(self).wf(),
        ensures
            final(self).wf(),
            !old(self)@.dom().contains(other_user_id) ==> *final(self) == *old(self) && r is None,
            old(self)@.dom().contains(other_user_id) ==> r is Some && final(self)@ == old(self)@.insert(user_id, old(self)@[other_user_id]),
    {
        proof {
            lemma_sessions_map(self.sessions@);
        }
        let oi = match self.find_session(other_user_id) {
            Some(i) => i,
            None => {
                proof {
                    if self@.dom().contains(other_user_id) {
                        let w = choose|w: int|
                            0 <= w < self.sessions@.len() && #[trigger] self.sessions@[w].0
                                == other_user_id;
                    }
                }
                return None;
            },
        };
        proof {
            assert(self@[self.sessions@[oi as int].0] == self.sessions@[oi as int].1@);
        }
        let token = self.sessions[oi].1.clone();
        match self.find_session(user_id) {
            Some(i) => {
                self.sessions.set(i, (user_id, token));
                proof {
                    lemma_sessions_map(self.sessions@);
                    assert(self.sessions@[i as int].0 == user_id);
                    assert forall|u: i64| #[trigger] final(self)@.dom().contains(u)
                        <==> old(self)@.insert(user_id, old(self)@[other_user_id]).dom().contains(
                        u,
                    ) by {
                        lemma_sessions_map(old(self).sessions@);
                        if final(self)@.dom().contains(u) {
                            let w = choose|w: int|
                                0 <= w < self.sessions@.len() && #[trigger] self.sessions@[w].0
                                    == u;
                            if w != i {
                                assert(old(self).sessions@[w].0 == u);
                            }
                        } else {
                            if old(self)@.insert(user_id, old(self)@[other_user_id]).dom().contains(
                                u,
                            ) {
                                if u != user_id {
                                    let w = choose|w: int|
                                        0 <= w < old(self).sessions@.len()
                                            && #[trigger] old(self).sessions@[w].0 == u;
                                    assert(self.sessions@[w].0 == u);
                                }
                            }
                        }
                    }
                    assert forall|u: i64| #[trigger] final(self)@.dom().contains(u) implies final(self)@[u] == old(self)@.insert(user_id, old(self)@[other_user_id])[u] by {
                        lemma_sessions_map(old(self).sessions@);
                        let w = choose|w: int|
                            0 <= w < self.sessions@.len() && #[trigger] self.sessions@[w].0 == u;
                        assert(final(self)@[u] == self.sessions@[w].1@);
                        if w != i {
                            assert(old(self).sessions@[w] == self.sessions@[w]);
                            assert(u != user_id);
                        }
                    }
                    assert(final(self)@ =~= old(self)@.insert(user_id, old(self)@[other_user_id]));
                }
                Some(())
            },
            None => {
                self.sessions.push((user_id, token));
                proof {
                    assert(self.sessions@.drop_last() =~= old(self).sessions@);
                    assert(final(self)@ == old(self)@.insert(user_id, old(self)@[other_user_id]));
                }
                Some(())
            },
        }
    }

    /// The token the user holds, if any.
    pub fn get_session(&self, user_id: i64) -> (r: Option<String>)
        requires
            self.wf(),
        ensures
            self@.dom().contains(user_id) ==> (r matches Some(s) && s@ == self@[user_id]),
            !self@.dom().contains(user_id) ==> r is None,
    {
        proof {
            lemma_sessions_map(self.sessions@);
        }
        match self.find_session(user_id) {
            Some(i) => {
                proof {
                    assert(self@[self.sessions@[i as int].0] == self.sessions@[i as int].1@);
                }
                Some(self.sessions[i].1.clone())
            },
            None => {
                proof {
                    if self@.dom().contains(user_id) {
                        let w = choose|w: int|
                            0 <= w < self.sessions@.len() && #[trigger] self.sessions@[w].0
                                == user_id;
                    }
                }
                None
            },
        }
    }

    /// Forget the user's token.
    pub fn delete_session(&mut self, user_id: i64)
        requires
            old(self).wf(),
        ensures
            final(self).wf(),
            final(self)@ == old(self)@.remove(user_id),
    {
        proof {
            lemma_sessions_map(self.sessions@);
        }
        match self.find_session(user_id) {
            Some(i) => {
                self.sessions.remove(i);
                proof {
                    lemma_sessions_map(self.sessions@);
                    lemma_sessions_map(old(self).sessions@);
                    assert forall|u: i64| #[trigger] final(self)@.dom().contains(u) implies old(self)@.remove(user_id).dom().contains(u) by {
                        let w = choose|w: int|
                            0 <= w < self.sessions@.len() && #[trigger] self.sessions@[w].0 == u;
                        let pw: int = if w < i as int {
                            w
                        } else {
                            w + 1
                        };
                        assert(old(self).sessions@[pw].0 == u);
                        assert(u != user_id);
                    }
                    assert forall|u: i64| #[trigger] old(self)@.remove(user_id).dom().contains(
                        u,
                    ) implies final(self)@.dom().contains(u) by {
                        let w = choose|w: int|
                            0 <= w < old(self).sessions@.len() && #[trigger] old(self).sessions@[w].0 == u;
                        if w < i as int {
                            assert(self.sessions@[w].0 == u);
                        } else {
                            assert(w != i as int);
                            assert(self.sessions@[w - 1].0 == u);
                        }
                    }
                    assert forall|u: i64| #[trigger] final(self)@.dom().contains(u) implies final(self)@[u] == old(self)@.remove(user_id)[u] by {
                        let w = choose|w: int|
                            0 <= w < self.sessions@.len() && #[trigger] self.sessions@[w].0 == u;
                        let pw: int = if w < i as int {
                            w
                        } else {
                            w + 1
                        };
                        assert(final(self)@[u] == self.sessions@[w].1@);
                        assert(old(self).sessions@[pw] == self.sessions@[w]);
                        assert(old(self)@[u] == old(self).sessions@[pw].1@);
                        assert(u != user_id);
                    }
                    assert(final(self)@ =~= old(self)@.remove(user_id));
                }
            },
            None => {
                proof {
                    assert forall|u: i64| #[trigger] final(self)@.dom().contains(u) implies old(self)@.remove(user_id).dom().contains(u) by {
                        let w = choose|w: int|
                            0 <= w < self.sessions@.len() && #[trigger] self.sessions@[w].0 == u;
                        assert(u != user_id);
                    }
                    assert(final(self)@ =~= old(self)@.remove(user_id));
                }
            },
        }
    }
}

impl Default for SessionManager {
    /// An empty session table.
    fn default() -> (r: SessionManager)
        ensures
            r.wf(),
            r.sessions@.len() == 0,
    {
        SessionManager { sessions: Vec::new() }
    }
}

} // verus!
