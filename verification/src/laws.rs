//! The laws the library stands on, stated once and proved from the
//! contracts of the stores and views.

use crate::friends::{
    accepted_between, active, active_between, between, has_pending_received, pending_between,
    pending_received, pending_sent, request_index, FriendsManager, RequestRow, RequestStatus,
};
use crate::users::{id_present, index_of_id, DbUser};
use crate::wishlist::{
    friend_gift_matches, friend_wishlist_matches, gift_index, gift_matches, gift_pairs,
    gift_present, is_member, lemma_friend_pairs_elems, lemma_gift_pairs_elems,
    lemma_member_pairs_elems, lemma_sorted_same_elems, max_gift_rank, member_pairs,
    members_reordered, new_gift_rank, own_wishlist_matches, share_with_of, FriendWishList,
    GiftRow, MemberRow, WishList, WishlistManager, SECRET_RANK_BASE,
};
use crate::order::sort_ranked;
use vstd::prelude::*;

verus! {

/// A freshly filed request blocks further requests between the pair in both
/// directions: with it stored, the condition under which
/// `create_friend_request` refuses with AlreadyExists holds for the pair
/// either way around.
pub proof fn lemma_fresh_request_blocks_both(rows: Seq<RequestRow>, id: i64, a: i64, b: i64)
    ensures
        active_between(
            rows.push(RequestRow { id, user_one: a, user_two: b, status: RequestStatus::Pending }),
            a,
            b,
        ),
        active_between(
            rows.push(RequestRow { id, user_one: a, user_two: b, status: RequestStatus::Pending }),
            b,
            a,
        ),
{
    let row = RequestRow { id, user_one: a, user_two: b, status: RequestStatus::Pending };
    let post = rows.push(row);
    assert(post[post.len() - 1] == row);
    assert(active(row.status) && between(row, a, b) && between(row, b, a));
}

/// An entry of the pending listings always reflects a stored Pending row
/// with the entry's counterpart; so where no Pending row connects a pair,
/// neither user's listing names the other.
pub proof fn lemma_no_pending_entry(users: Seq<DbUser>, rows: Seq<RequestRow>, a: i64, b: i64)
    requires
        !pending_between(rows, a, b),
    ensures
        forall|k: int|
            0 <= k < pending_sent(users, rows, a).len() ==> #[trigger] pending_sent(
                users,
                rows,
                a,
            )[k].other_user.id != b,
        forall|k: int|
            0 <= k < pending_received(users, rows, a).len() ==> #[trigger] pending_received(
                users,
                rows,
                a,
            )[k].other_user.id != b,
    decreases rows.len(),
{
    if rows.len() > 0 {
        assert(!pending_between(rows.drop_last(), a, b)) by {
            if pending_between(rows.drop_last(), a, b) {
                let w = choose|w: int|
                    0 <= w < rows.drop_last().len() && rows.drop_last()[w].status
                        == RequestStatus::Pending && between(rows.drop_last()[w], a, b);
                assert(rows[w] == rows.drop_last()[w]);
            }
        }
        lemma_no_pending_entry(users, rows.drop_last(), a, b);
        let r = rows.last();
        if r.user_one == a && r.status == RequestStatus::Pending && id_present(users, r.user_two) {
            assert(users[index_of_id(users, r.user_two)].id == r.user_two);
            assert(r.user_two != b) by {
                if r.user_two == b {
                    assert(rows[rows.len() - 1] == r);
                }
            }
        }
        if r.user_two == a && r.status == RequestStatus::Pending && id_present(users, r.user_one) {
            assert(users[index_of_id(users, r.user_one)].id == r.user_one);
            assert(r.user_one != b) by {
                if r.user_one == b {
                    assert(rows[rows.len() - 1] == r);
                }
            }
        }
    }
}

/// Accepting a pending request makes the two users friends and leaves no
/// pending request between them, so neither one's listings show a pending
/// entry for the pair any more.
pub proof fn lemma_accept_makes_friends(
    pre: FriendsManager,
    post: FriendsManager,
    request_id: i64,
    receiver: i64,
)
    requires
        pre.wf(),
        has_pending_received(pre.requests@, request_id, receiver),
        post.requests@ == pre.requests@.update(
            request_index(pre.requests@, request_id),
            RequestRow {
                id: request_id,
                user_one: pre.requests@[request_index(pre.requests@, request_id)].user_one,
                user_two: receiver,
                status: RequestStatus::Accepted,
            },
        ),
        post.users == pre.users,
    ensures
        ({
            let sender = pre.requests@[request_index(pre.requests@, request_id)].user_one;
            &&& accepted_between(post.requests@, sender, receiver)
            &&& !pending_between(post.requests@, sender, receiver)
            &&& forall|k: int|
                0 <= k < pending_sent(post.users.users@, post.requests@, sender).len()
                    ==> #[trigger] pending_sent(
                    post.users.users@,
                    post.requests@,
                    sender,
                )[k].other_user.id != receiver
            &&& forall|k: int|
                0 <= k < pending_received(post.users.users@, post.requests@, receiver).len()
                    ==> #[trigger] pending_received(
                    post.users.users@,
                    post.requests@,
                    receiver,
                )[k].other_user.id != sender
            &&& forall|k: int|
                0 <= k < pending_received(post.users.users@, post.requests@, sender).len()
                    ==> #[trigger] pending_received(
                    post.users.users@,
                    post.requests@,
                    sender,
                )[k].other_user.id != receiver
            &&& forall|k: int|
                0 <= k < pending_sent(post.users.users@, post.requests@, receiver).len()
                    ==> #[trigger] pending_sent(
                    post.users.users@,
                    post.requests@,
                    receiver,
                )[k].other_user.id != sender
        }),
{
    let idx = request_index(pre.requests@, request_id);
    let w = choose|w: int|
        0 <= w < pre.requests@.len() && pre.requests@[w].id == request_id
            && pre.requests@[w].user_two == receiver && pre.requests@[w].status
            == RequestStatus::Pending;
    assert(pre.requests@[idx].id == request_id);
    assert(idx == w);
    let sender = pre.requests@[idx].user_one;
    let row = post.requests@[idx];
    assert(row.status == RequestStatus::Accepted && between(row, sender, receiver));
    assert(accepted_between(post.requests@, sender, receiver));
    assert(!pending_between(post.requests@, sender, receiver)) by {
        if pending_between(post.requests@, sender, receiver) {
            let j = choose|j: int|
                0 <= j < post.requests@.len() && post.requests@[j].status == RequestStatus::Pending
                    && between(post.requests@[j], sender, receiver);
            assert(j != idx);
            assert(post.requests@[j] == pre.requests@[j]);
            assert(active(pre.requests@[j].status) && active(pre.requests@[idx].status));
            assert(between(pre.requests@[j], pre.requests@[idx].user_one,
                pre.requests@[idx].user_two));
            assert(between(pre.requests@[idx], pre.requests@[j].user_one,
                pre.requests@[j].user_two));
            if j < idx {
                assert(!between(pre.requests@[j], pre.requests@[idx].user_one,
                    pre.requests@[idx].user_two));
            } else {
                assert(!between(pre.requests@[idx], pre.requests@[j].user_one,
                    pre.requests@[j].user_two));
            }
        }
    }
    lemma_no_pending_entry(post.users.users@, post.requests@, sender, receiver);
    lemma_no_pending_entry(post.users.users@, post.requests@, receiver, sender);
}

/// Re-ranking one member's categories changes no other member's rows, so
/// any other member's own view is exactly what it was.
pub proof fn lemma_reorder_preserves_other_views(
    pre: WishlistManager,
    post: WishlistManager,
    user_id: i64,
    start: int,
    ids: Seq<i64>,
    other: i64,
    w: WishList,
)
    requires
        other != user_id,
        pre.members@.len() <= usize::MAX,
        post.members@ == members_reordered(pre.members@, user_id, start, ids),
        post.categories@ == pre.categories@,
        post.gifts@ == pre.gifts@,
        post.next_category_id == pre.next_category_id,
        post.next_gift_id == pre.next_gift_id,
        own_wishlist_matches(post, other, w),
    ensures
        own_wishlist_matches(pre, other, w),
{
    lemma_members_reordered_shape(pre.members@, user_id, start, ids);
    lemma_member_pairs_agree(pre.members@, post.members@, other);
    assert(member_pairs(post.members@, other) == member_pairs(pre.members@, other));
    assert forall|cid: i64, u: i64|
        #[trigger] share_with_of(post.members@, cid, u) == share_with_of(
            pre.members@,
            cid,
            u,
        ) by {
        lemma_share_with_agree(pre.members@, post.members@, cid, u);
    }
    let pairs = sort_ranked(member_pairs(pre.members@, other));
    lemma_member_pairs_elems(pre.members@, other);
    lemma_sorted_same_elems(member_pairs(pre.members@, other));
    assert forall|k: int| 0 <= k < pairs.len() implies crate::wishlist::own_category_matches(
        pre,
        other,
        pairs[k].1 as int,
        #[trigger] w.categories@[k],
    ) by {
        assert(crate::wishlist::own_category_matches(post, other, pairs[k].1 as int,
            w.categories@[k]));
        assert(pairs.contains(pairs[k]));
        assert(pairs[k].1 < pre.members@.len());
        assert(members_reordered(pre.members@, user_id, start, ids)[pairs[k].1 as int].category_id
            == pre.members@[pairs[k].1 as int].category_id);
        assert(post.members@[pairs[k].1 as int].category_id == pre.members@[pairs[k].1 as
            int].category_id);
    }
}

/// Re-ranking rewrites only the listed member's ranks: every row keeps its
/// user and category, and rows of other users are untouched.
proof fn lemma_members_reordered_shape(ms: Seq<MemberRow>, user_id: i64, start: int, ids: Seq<i64>)
    ensures
        members_reordered(ms, user_id, start, ids).len() == ms.len(),
        forall|i: int|
            0 <= i < ms.len() ==> #[trigger] members_reordered(ms, user_id, start, ids)[i].user_id
                == ms[i].user_id,
        forall|i: int|
            0 <= i < ms.len() ==> #[trigger] members_reordered(
                ms,
                user_id,
                start,
                ids,
            )[i].category_id == ms[i].category_id,
        forall|i: int|
            0 <= i < ms.len() && ms[i].user_id != user_id ==> #[trigger] members_reordered(
                ms,
                user_id,
                start,
                ids,
            )[i] == ms[i],
    decreases ids.len(),
{
    if ids.len() > 0 {
        lemma_members_reordered_shape(ms, user_id, start, ids.drop_last());
        let pre = members_reordered(ms, user_id, start, ids.drop_last());
        let cid = ids.last();
        if is_member(pre, user_id, cid) {
            let k = crate::wishlist::member_index(pre, user_id, cid);
            assert(pre[k].user_id == user_id && pre[k].category_id == cid);
        }
    }
}

/// Two row lists that agree on a user's rows yield that user's pairs alike.
proof fn lemma_member_pairs_agree(ms1: Seq<MemberRow>, ms2: Seq<MemberRow>, user_id: i64)
    requires
        ms1.len() == ms2.len(),
        forall|i: int|
            0 <= i < ms1.len() ==> (#[trigger] ms2[i].user_id == ms1[i].user_id && (ms1[i].user_id
                == user_id ==> ms2[i] == ms1[i])),
    ensures
        member_pairs(ms1, user_id) == member_pairs(ms2, user_id),
    decreases ms1.len(),
{
    if ms1.len() > 0 {
        lemma_member_pairs_agree(ms1.drop_last(), ms2.drop_last(), user_id);
        assert(ms1.drop_last().len() == ms2.drop_last().len());
        assert(ms2.last().user_id == ms1.last().user_id);
    }
}

/// Two row lists that agree on users and categories list the same fellow
/// members of every category.
proof fn lemma_share_with_agree(ms1: Seq<MemberRow>, ms2: Seq<MemberRow>, cid: i64, user_id: i64)
    requires
        ms1.len() == ms2.len(),
        forall|i: int|
            0 <= i < ms1.len() ==> (#[trigger] ms2[i].user_id == ms1[i].user_id
                && ms2[i].category_id == ms1[i].category_id),
    ensures
        share_with_of(ms1, cid, user_id) == share_with_of(ms2, cid, user_id),
    decreases ms1.len(),
{
    if ms1.len() > 0 {
        assert forall|i: int|
            0 <= i < ms1.drop_last().len() implies (#[trigger] ms2.drop_last()[i].user_id
                == ms1.drop_last()[i].user_id && ms2.drop_last()[i].category_id
                == ms1.drop_last()[i].category_id) by {
            assert(ms2.drop_last()[i] == ms2[i]);
            assert(ms1.drop_last()[i] == ms1[i]);
            assert(ms2[i].user_id == ms1[i].user_id);
        }
        lemma_share_with_agree(ms1.drop_last(), ms2.drop_last(), cid, user_id);
        assert(ms2[ms2.len() - 1].user_id == ms1[ms1.len() - 1].user_id);
        assert(ms2.last().user_id == ms1.last().user_id && ms2.last().category_id
            == ms1.last().category_id);
    }
}

/// A re-rank gives the user's listed categories exactly the contiguous
/// ranks asked for: the category at position `k` of the list ends up at
/// rank `start + k`, so the own view, which sorts by rank, lists them in
/// list order ahead of anything ranked higher.
pub proof fn lemma_reorder_assigns_listed_ranks(
    ms: Seq<MemberRow>,
    user_id: i64,
    start: int,
    ids: Seq<i64>,
)
    requires
        crate::wishlist::members_unique(ms),
        ids.no_duplicates(),
        0 <= start,
        start + ids.len() <= i64::MAX,
        forall|k: int| 0 <= k < ids.len() ==> is_member(ms, user_id, #[trigger] ids[k]),
    ensures
        forall|k: int|
            0 <= k < ids.len() ==> {
                let post = members_reordered(ms, user_id, start, ids);
                is_member(post, user_id, #[trigger] ids[k]) && post[crate::wishlist::member_index(
                    post,
                    user_id,
                    ids[k],
                )].rank == start + k
            },
    decreases ids.len(),
{
    if ids.len() > 0 {
        let d = ids.drop_last();
        assert(forall|k: int| 0 <= k < d.len() ==> is_member(ms, user_id, #[trigger] d[k]))
            by {
            assert forall|k: int| 0 <= k < d.len() implies is_member(
                ms,
                user_id,
                #[trigger] d[k],
            ) by {
                assert(d[k] == ids[k]);
            }
        }
        lemma_reorder_assigns_listed_ranks(ms, user_id, start, d);
        let pre = members_reordered(ms, user_id, start, d);
        let post = members_reordered(ms, user_id, start, ids);
        let cid = ids.last();
        lemma_members_reordered_shape(ms, user_id, start, d);
        lemma_members_reordered_shape(ms, user_id, start, ids);
        lemma_reordered_unique(ms, user_id, start, d);
        lemma_reordered_unique(ms, user_id, start, ids);
        assert(is_member(ms, user_id, cid)) by {
            assert(ids[ids.len() - 1] == cid);
        }
        assert(is_member(pre, user_id, cid)) by {
            let w = crate::wishlist::member_index(ms, user_id, cid);
            assert(ms[w].user_id == user_id && ms[w].category_id == cid);
            assert(pre[w].user_id == user_id && pre[w].category_id == cid);
        }
        let upd = crate::wishlist::member_index(pre, user_id, cid);
        assert(pre[upd].user_id == user_id && pre[upd].category_id == cid);
        assert forall|k: int| 0 <= k < ids.len() implies is_member(
            post,
            user_id,
            #[trigger] ids[k],
        ) && post[crate::wishlist::member_index(post, user_id, ids[k])].rank == start + k by {
            if k == ids.len() - 1 {
                assert(post[upd].user_id == user_id && post[upd].category_id == cid);
                assert(is_member(post, user_id, cid));
                let w = crate::wishlist::member_index(post, user_id, cid);
                assert(post[w].user_id == user_id && post[w].category_id == cid);
                assert(w == upd);
                assert(post[upd].rank == start + ids.len() - 1);
            } else {
                assert(d[k] == ids[k]);
                assert(is_member(pre, user_id, ids[k]));
                let w = crate::wishlist::member_index(pre, user_id, ids[k]);
                assert(pre[w].user_id == user_id && pre[w].category_id == ids[k]);
                assert(ids[k] != cid);
                assert(w != upd);
                assert(post[w] == pre[w]);
                assert(is_member(post, user_id, ids[k]));
                let w2 = crate::wishlist::member_index(post, user_id, ids[k]);
                assert(post[w2].user_id == user_id && post[w2].category_id == ids[k]);
                assert(w2 == w);
                assert(post[w2].rank == start + k);
            }
        }
    }
}

/// Re-ranking keeps the one-row-per-pair shape.
proof fn lemma_reordered_unique(ms: Seq<MemberRow>, user_id: i64, start: int, ids: Seq<i64>)
    requires
        crate::wishlist::members_unique(ms),
    ensures
        crate::wishlist::members_unique(members_reordered(ms, user_id, start, ids)),
{
    lemma_members_reordered_shape(ms, user_id, start, ids);
    let post = members_reordered(ms, user_id, start, ids);
    assert(post.len() == ms.len());
    assert forall|i: int, j: int| 0 <= i < j < post.len() implies !(post[i].user_id
        == post[j].user_id && post[i].category_id == post[j].category_id) by {
        lemma_members_reordered_shape(ms, user_id, start, ids);
        assert(0 <= i < ms.len() && 0 <= j < ms.len());
        assert(members_reordered(ms, user_id, start, ids)[i].user_id == ms[i].user_id
            && members_reordered(ms, user_id, start, ids)[i].category_id == ms[i].category_id);
        assert(members_reordered(ms, user_id, start, ids)[j].user_id == ms[j].user_id
            && members_reordered(ms, user_id, start, ids)[j].category_id == ms[j].category_id);
    }
}

/// The categories of the user's membership rows, in storage order.
spec fn cats_of(ms: Seq<MemberRow>, user_id: i64) -> Seq<i64>
    decreases ms.len(),
{
    if ms.len() == 0 {
        Seq::empty()
    } else {
        let pre = cats_of(ms.drop_last(), user_id);
        if ms.last().user_id == user_id {
            pre.push(ms.last().category_id)
        } else {
            pre
        }
    }
}

/// The user has as many rank-and-index pairs as categories.
proof fn lemma_cats_of_len(ms: Seq<MemberRow>, user_id: i64)
    ensures
        cats_of(ms, user_id).len() == member_pairs(ms, user_id).len(),
    decreases ms.len(),
{
    if ms.len() > 0 {
        lemma_cats_of_len(ms.drop_last(), user_id);
    }
}

/// A category is the user's exactly where one of their rows carries it.
proof fn lemma_cats_of_elems(ms: Seq<MemberRow>, user_id: i64)
    ensures
        forall|c: i64|
            #[trigger] cats_of(ms, user_id).contains(c) <==> exists|i: int|
                0 <= i < ms.len() && #[trigger] ms[i].user_id == user_id && ms[i].category_id
                    == c,
    decreases ms.len(),
{
    if ms.len() > 0 {
        lemma_cats_of_elems(ms.drop_last(), user_id);
        let pre = cats_of(ms.drop_last(), user_id);
        assert forall|c: i64| #[trigger] cats_of(ms, user_id).contains(c) implies exists|i: int|
            0 <= i < ms.len() && #[trigger] ms[i].user_id == user_id && ms[i].category_id
                == c by {
            let post = cats_of(ms, user_id);
            let w = choose|w: int| 0 <= w < post.len() && post[w] == c;
            if w < pre.len() {
                assert(pre.contains(c));
                let u = choose|u: int|
                    0 <= u < ms.drop_last().len() && #[trigger] ms.drop_last()[u].user_id
                        == user_id && ms.drop_last()[u].category_id == c;
                assert(ms[u].user_id == user_id && ms[u].category_id == c);
            } else {
                assert(ms[ms.len() - 1].user_id == user_id && ms[ms.len() - 1].category_id == c);
            }
        }
        assert forall|c: i64|
            (exists|i: int|
                0 <= i < ms.len() && #[trigger] ms[i].user_id == user_id && ms[i].category_id
                    == c) implies #[trigger] cats_of(ms, user_id).contains(c) by {
            let u = choose|u: int|
                0 <= u < ms.len() && #[trigger] ms[u].user_id == user_id && ms[u].category_id
                    == c;
            if u < ms.len() - 1 {
                assert(ms.drop_last()[u].user_id == user_id && ms.drop_last()[u].category_id
                    == c);
                assert(pre.contains(c));
                let w = choose|w: int| 0 <= w < pre.len() && pre[w] == c;
                if ms.last().user_id == user_id {
                    assert(cats_of(ms, user_id)[w] == c);
                } else {
                    assert(cats_of(ms, user_id)[w] == c);
                }
            } else {
                assert(ms.last().user_id == user_id);
                assert(cats_of(ms, user_id).last() == c);
            }
        }
    }
}

/// With one row per pair, the user's category list repeats nothing.
proof fn lemma_cats_of_unique(ms: Seq<MemberRow>, user_id: i64)
    requires
        crate::wishlist::members_unique(ms),
    ensures
        cats_of(ms, user_id).no_duplicates(),
    decreases ms.len(),
{
    if ms.len() > 0 {
        assert(crate::wishlist::members_unique(ms.drop_last()));
        lemma_cats_of_unique(ms.drop_last(), user_id);
        lemma_cats_of_elems(ms.drop_last(), user_id);
        let pre = cats_of(ms.drop_last(), user_id);
        if ms.last().user_id == user_id {
            assert(!pre.contains(ms.last().category_id)) by {
                if pre.contains(ms.last().category_id) {
                    let u = choose|u: int|
                        0 <= u < ms.drop_last().len() && #[trigger] ms.drop_last()[u].user_id
                            == user_id && ms.drop_last()[u].category_id
                            == ms.last().category_id;
                    assert(ms[u].user_id == user_id && ms[u].category_id
                        == ms.last().category_id);
                    assert(ms[ms.len() - 1].user_id == user_id);
                }
            }
            assert forall|a: int, b: int| 0 <= a < b < pre.push(
                ms.last().category_id,
            ).len() implies pre.push(ms.last().category_id)[a] != pre.push(
                ms.last().category_id,
            )[b] by {
                if b == pre.len() {
                    assert(pre.contains(pre[a]));
                }
            }
        }
    }
}

/// The user's rank-and-index pairs carry strictly increasing row indices.
proof fn lemma_member_pairs_increasing(ms: Seq<MemberRow>, user_id: i64)
    requires
        ms.len() <= usize::MAX,
    ensures
        forall|t: int|
            0 <= t < member_pairs(ms, user_id).len() ==> #[trigger] member_pairs(
                ms,
                user_id,
            )[t].1 < ms.len(),
        forall|a: int, b: int|
            0 <= a < b < member_pairs(ms, user_id).len() ==> member_pairs(ms, user_id)[a].1
                < member_pairs(ms, user_id)[b].1,
    decreases ms.len(),
{
    if ms.len() > 0 {
        lemma_member_pairs_increasing(ms.drop_last(), user_id);
        let pre = member_pairs(ms.drop_last(), user_id);
        let post = member_pairs(ms, user_id);
        assert(((ms.len() - 1) as usize) as int == ms.len() - 1);
        assert forall|t: int| 0 <= t < post.len() implies #[trigger] post[t].1 < ms.len() by {
            if t < pre.len() {
                assert(pre[t].1 < ms.drop_last().len());
            }
        }
        assert forall|a: int, b: int| 0 <= a < b < post.len() implies post[a].1 < post[b].1 by {
            if b < pre.len() {
                assert(pre[a].1 < pre[b].1);
            } else {
                assert(post[a] == pre[a]);
                assert(pre[a].1 < ms.drop_last().len());
            }
        }
    }
}

/// A strictly increasing run of `n` ranks inside `[0, n)` is the identity.
proof fn lemma_increasing_ranks_identity(s: Seq<crate::order::Ranked>, k: int)
    requires
        forall|a: int, b: int| 0 <= a < b < s.len() ==> s[a].0 < s[b].0,
        forall|t: int| 0 <= t < s.len() ==> 0 <= #[trigger] s[t].0 < s.len(),
        0 <= k < s.len(),
    ensures
        s[k].0 == k,
    decreases k, s.len() - k,
{
    if k > 0 {
        lemma_increasing_ranks_identity(s, k - 1);
        assert(s[k - 1].0 < s[k].0);
    }
    if k < s.len() - 1 {
        lemma_upper_rank_bound(s, k);
    }
}

/// In such a run, the rank at a position is at most the position.
proof fn lemma_upper_rank_bound(s: Seq<crate::order::Ranked>, k: int)
    requires
        forall|a: int, b: int| 0 <= a < b < s.len() ==> s[a].0 < s[b].0,
        forall|t: int| 0 <= t < s.len() ==> 0 <= #[trigger] s[t].0 < s.len(),
        0 <= k < s.len(),
    ensures
        s[k].0 <= k,
    decreases s.len() - k,
{
    if k < s.len() - 1 {
        lemma_upper_rank_bound(s, k + 1);
        assert(s[k].0 < s[k + 1].0);
    }
}

/// Re-ranking all of the caller's categories from rank 0 pins their own
/// view: it lists exactly the given categories, in the given order.
pub proof fn lemma_reorder_sets_own_order(
    pre: WishlistManager,
    post: WishlistManager,
    user_id: i64,
    ids: Seq<i64>,
    w: WishList,
)
    requires
        pre.wf(),
        pre.members@.len() <= usize::MAX,
        ids.no_duplicates(),
        ids.len() <= i64::MAX,
        forall|k: int| 0 <= k < ids.len() ==> is_member(pre.members@, user_id, #[trigger] ids[k]),
        forall|i: int|
            0 <= i < pre.members@.len() && pre.members@[i].user_id == user_id ==> ids.contains(
                #[trigger] pre.members@[i].category_id,
            ),
        post.members@ == members_reordered(pre.members@, user_id, 0, ids),
        own_wishlist_matches(post, user_id, w),
    ensures
        w.categories@.len() == ids.len(),
        forall|k: int| 0 <= k < ids.len() ==> #[trigger] w.categories@[k].id == ids[k],
{
    let ms = pre.members@;
    let pm = post.members@;
    let n = ids.len() as int;
    lemma_members_reordered_shape(ms, user_id, 0, ids);
    lemma_reordered_unique(ms, user_id, 0, ids);
    lemma_reorder_assigns_listed_ranks(ms, user_id, 0, ids);

    // Every row of the user carries the rank of its category's position.
    assert forall|i: int|
        0 <= i < pm.len() && pm[i].user_id == user_id implies 0 <= #[trigger] pm[i].rank < n
            && ids[pm[i].rank as int] == pm[i].category_id by {
        assert(ms[i].user_id == user_id);
        assert(ids.contains(ms[i].category_id));
        let j = choose|j: int| 0 <= j < ids.len() && ids[j] == ms[i].category_id;
        assert(is_member(pm, user_id, ids[j]));
        let mi = crate::wishlist::member_index(pm, user_id, ids[j]);
        assert(pm[mi].user_id == user_id && pm[mi].category_id == ids[j]);
        assert(pm[mi].rank == j);
        assert(pm[i].category_id == ms[i].category_id);
        assert(mi == i);
    }

    // As many pairs as listed categories.
    let pairs = member_pairs(pm, user_id);
    lemma_cats_of_len(pm, user_id);
    lemma_cats_of_elems(pm, user_id);
    lemma_cats_of_unique(pm, user_id);
    let cats = cats_of(pm, user_id);
    assert forall|c: i64| #[trigger] cats.contains(c) implies ids.contains(c) by {
        let u = choose|u: int|
            0 <= u < pm.len() && #[trigger] pm[u].user_id == user_id && pm[u].category_id == c;
        assert(ms[u].user_id == user_id && ms[u].category_id == c);
        assert(ids.contains(ms[u].category_id));
    }
    assert forall|k: int| 0 <= k < ids.len() implies cats.contains(#[trigger] ids[k]) by {
        assert(is_member(pm, user_id, ids[k]));
        let mi = crate::wishlist::member_index(pm, user_id, ids[k]);
        assert(pm[mi].user_id == user_id && pm[mi].category_id == ids[k]);
    }
    assert(cats.to_set() =~= ids.to_set());
    cats.unique_seq_to_set();
    ids.unique_seq_to_set();
    assert(pairs.len() == n);

    // Pair ranks are the positions, pairwise distinct.
    lemma_member_pairs_elems(pm, user_id);
    lemma_member_pairs_increasing(pm, user_id);
    assert forall|p: crate::order::Ranked| #[trigger] pairs.contains(p) implies 0 <= p.0 < n
        && ids[p.0 as int] == pm[p.1 as int].category_id by {
        assert(p.1 < pm.len() && pm[p.1 as int].user_id == user_id && pm[p.1 as int].rank
            == p.0);
    }
    assert forall|p: crate::order::Ranked, q: crate::order::Ranked|
        pairs.contains(p) && pairs.contains(q) && p != q implies #[trigger] distinct_ranks(
        p,
        q,
    ) by {
        if p.0 == q.0 {
            assert(pm[p.1 as int].category_id == ids[p.0 as int]);
            assert(pm[q.1 as int].category_id == ids[q.0 as int]);
            assert(pm[p.1 as int].rank == p.0 && pm[q.1 as int].rank == q.0);
            assert(p.1 != q.1);
            assert(pm[p.1 as int].user_id == user_id && pm[q.1 as int].user_id == user_id);
            let a: int = if p.1 < q.1 {
                p.1 as int
            } else {
                q.1 as int
            };
            let b: int = if p.1 < q.1 {
                q.1 as int
            } else {
                p.1 as int
            };
            assert(!(pm[a].user_id == pm[b].user_id && pm[a].category_id == pm[b].category_id));
        }
    }

    // The sorted pairs are therefore ranked 0, 1, 2, ... in order.
    let sorted = sort_ranked(pairs);
    crate::order::lemma_sort_ranked_props(pairs);
    lemma_sorted_same_elems(pairs);
    pairs.lemma_multiset_has_no_duplicates() ;
    pairs.to_multiset_ensures();
    sorted.to_multiset_ensures();
    sorted.lemma_multiset_has_no_duplicates_conv();
    assert forall|a: int, b: int| 0 <= a < b < sorted.len() implies sorted[a].0 < sorted[b].0 by {
        assert(sorted[a] != sorted[b]);
        assert(sorted.contains(sorted[a]) && sorted.contains(sorted[b]));
        assert(pairs.contains(sorted[a]) && pairs.contains(sorted[b]));
        assert(distinct_ranks(sorted[a], sorted[b]));
        assert(sorted[a].0 <= sorted[b].0);
    }
    assert forall|t: int| 0 <= t < sorted.len() implies 0 <= #[trigger] sorted[t].0
        < sorted.len() by {
        assert(sorted.contains(sorted[t]));
        assert(pairs.contains(sorted[t]));
    }
    assert forall|k: int| 0 <= k < ids.len() implies #[trigger] w.categories@[k].id == ids[k] by {
        lemma_increasing_ranks_identity(sorted, k);
        assert(sorted[k].0 == k);
        assert(sorted.contains(sorted[k]));
        assert(pairs.contains(sorted[k]));
        assert(ids[sorted[k].0 as int] == pm[sorted[k].1 as int].category_id);
        assert(crate::wishlist::own_category_matches(post, user_id, sorted[k].1 as int,
            w.categories@[k]));
    }
}

/// The two pairs carry different ranks.
spec fn distinct_ranks(p: crate::order::Ranked, q: crate::order::Ranked) -> bool {
    p.0 != q.0
}

/// Below the top of the public partition, a public gift lands one past the
/// category's greatest public rank, still inside the public partition.
pub proof fn lemma_public_gift_rank(gs: Seq<GiftRow>, category_id: i64)
    requires
        max_gift_rank(gs, category_id, false) + 1 < SECRET_RANK_BASE,
    ensures
        new_gift_rank(gs, category_id, false) == max_gift_rank(gs, category_id, false) + 1,
        new_gift_rank(gs, category_id, false) < SECRET_RANK_BASE,
{
    lemma_max_gift_rank_bounds(gs, category_id, false);
}

/// The greatest rank of a partition is the rank of some stored gift, or -1.
proof fn lemma_max_gift_rank_bounds(gs: Seq<GiftRow>, category_id: i64, secret: bool)
    ensures
        -1 <= max_gift_rank(gs, category_id, secret) <= i64::MAX,
    decreases gs.len(),
{
    if gs.len() > 0 {
        lemma_max_gift_rank_bounds(gs.drop_last(), category_id, secret);
    }
}

/// While every gift of a category still ranks inside the public partition,
/// the first secret gift lands exactly at the secret base, whatever the
/// public ranks are.
pub proof fn lemma_first_secret_gift_rank(gs: Seq<GiftRow>, category_id: i64)
    requires
        forall|i: int|
            0 <= i < gs.len() && gs[i].category_id == category_id ==> #[trigger] gs[i].rank
                < SECRET_RANK_BASE,
    ensures
        new_gift_rank(gs, category_id, true) == SECRET_RANK_BASE,
{
    lemma_secret_max_below_base(gs, category_id);
}

proof fn lemma_secret_max_below_base(gs: Seq<GiftRow>, category_id: i64)
    requires
        forall|i: int|
            0 <= i < gs.len() && gs[i].category_id == category_id ==> #[trigger] gs[i].rank
                < SECRET_RANK_BASE,
    ensures
        max_gift_rank(gs, category_id, true) < SECRET_RANK_BASE,
    decreases gs.len(),
{
    if gs.len() > 0 {
        lemma_secret_max_below_base(gs.drop_last(), category_id);
        assert(forall|i: int|
            0 <= i < gs.drop_last().len() ==> gs.drop_last()[i] == gs[i]);
    }
}

/// The listed gift reflects a stored row whose secret flag is off.
pub open spec fn reflects_public_row(s: WishlistManager, d: crate::wishlist::Gift) -> bool {
    exists|g: GiftRow| s.gifts@.contains(g) && !g.secret && gift_matches(g, d)
}

/// The listed gift reflects a stored row, its reservation field included.
pub open spec fn reflects_stored_row(s: WishlistManager, d: crate::wishlist::FriendGift) -> bool {
    exists|g: GiftRow| s.gifts@.contains(g) && friend_gift_matches(g, d)
}

/// The own view never shows a secret gift: every gift it lists reflects a
/// stored row whose secret flag is off — however many secret rows the
/// category holds.
pub proof fn lemma_own_view_excludes_secret(s: WishlistManager, user_id: i64, w: WishList)
    requires
        s.gifts@.len() <= usize::MAX,
        own_wishlist_matches(s, user_id, w),
    ensures
        forall|k: int, j: int|
            0 <= k < w.categories@.len() && 0 <= j < w.categories@[k].gifts@.len()
                ==> reflects_public_row(s, #[trigger] w.categories@[k].gifts@[j]),
{
    let pairs = sort_ranked(member_pairs(s.members@, user_id));
    assert forall|k: int, j: int|
        0 <= k < w.categories@.len() && 0 <= j
            < w.categories@[k].gifts@.len() implies reflects_public_row(
        s,
        #[trigger] w.categories@[k].gifts@[j],
    ) by {
        assert(crate::wishlist::own_category_matches(s, user_id, pairs[k].1 as int,
            w.categories@[k]));
        let cid = s.members@[pairs[k].1 as int].category_id;
        let gp = sort_ranked(gift_pairs(s.gifts@, cid, false));
        lemma_gift_pairs_elems(s.gifts@, cid, false);
        lemma_sorted_same_elems(gift_pairs(s.gifts@, cid, false));
        assert(gp.contains(gp[j]));
        let g = s.gifts@[gp[j].1 as int];
        assert(s.gifts@.contains(g));
        assert(!g.secret && gift_matches(g, w.categories@[k].gifts@[j]));
    }
}

/// The friend view lists no category the viewer is already a member of, and
/// every gift it shows carries the stored reservation field.
pub proof fn lemma_friend_view_excludes_shared(
    s: WishlistManager,
    viewer: i64,
    target: i64,
    w: FriendWishList,
)
    requires
        s.members@.len() <= usize::MAX,
        s.gifts@.len() <= usize::MAX,
        friend_wishlist_matches(s, viewer, target, w),
    ensures
        forall|k: int|
            0 <= k < w.categories@.len() ==> !is_member(
                s.members@,
                viewer,
                #[trigger] w.categories@[k].id,
            ),
        forall|k: int, j: int|
            0 <= k < w.categories@.len() && 0 <= j < w.categories@[k].gifts@.len()
                ==> reflects_stored_row(s, #[trigger] w.categories@[k].gifts@[j]),
{
    let pairs = sort_ranked(crate::wishlist::friend_member_pairs(s.members@, target, viewer));
    lemma_friend_pairs_elems(s.members@, s.members@.len() as int, target, viewer);
    lemma_sorted_same_elems(crate::wishlist::friend_member_pairs(s.members@, target, viewer));
    assert forall|k: int| 0 <= k < w.categories@.len() implies !is_member(
        s.members@,
        viewer,
        #[trigger] w.categories@[k].id,
    ) by {
        assert(crate::wishlist::friend_category_matches(s, pairs[k].1 as int, w.categories@[k]));
        assert(pairs.contains(pairs[k]));
        assert(w.categories@[k].id == s.members@[pairs[k].1 as int].category_id);
    }
    assert forall|k: int, j: int|
        0 <= k < w.categories@.len() && 0 <= j
            < w.categories@[k].gifts@.len() implies reflects_stored_row(
        s,
        #[trigger] w.categories@[k].gifts@[j],
    ) by {
        assert(crate::wishlist::friend_category_matches(s, pairs[k].1 as int, w.categories@[k]));
        let cid = s.members@[pairs[k].1 as int].category_id;
        let gp = sort_ranked(gift_pairs(s.gifts@, cid, true));
        lemma_gift_pairs_elems(s.gifts@, cid, true);
        lemma_sorted_same_elems(gift_pairs(s.gifts@, cid, true));
        assert(gp.contains(gp[j]));
        let g = s.gifts@[gp[j].1 as int];
        assert(s.gifts@.contains(g));
        assert(friend_gift_matches(g, w.categories@[k].gifts@[j]));
    }
}

/// A reservation excludes a second one: once a claim is written, the gift
/// counts as reserved, which is exactly the condition under which
/// `reserve_gift` answers any later caller with a conflict. The store runs
/// operations one at a time, so of two claims on one unreserved gift the
/// first to run wins and the second is refused.
pub proof fn lemma_reserve_is_exclusive(
    pre: WishlistManager,
    post: WishlistManager,
    gift_id: i64,
    u1: i64,
)
    requires
        pre.wf(),
        gift_present(pre.gifts@, gift_id),
        post.gifts@ == pre.gifts@.update(
            gift_index(pre.gifts@, gift_id),
            GiftRow {
                reserved_by: Some(u1),
                ..pre.gifts@[gift_index(pre.gifts@, gift_id)]
            },
        ),
    ensures
        crate::service::reserved(post, gift_id),
        post.gifts@[gift_index(post.gifts@, gift_id)].reserved_by == Some(u1),
{
    let k = gift_index(pre.gifts@, gift_id);
    assert(pre.gifts@[k].id == gift_id);
    assert(post.gifts@[k].id == gift_id);
    assert(gift_present(post.gifts@, gift_id));
    let k2 = gift_index(post.gifts@, gift_id);
    assert(post.gifts@[k2].id == gift_id);
    assert(k2 == k) by {
        if k2 != k {
            let a: int = if k < k2 {
                k
            } else {
                k2
            };
            let b: int = if k < k2 {
                k2
            } else {
                k
            };
            assert(pre.gifts@[a].id == pre.gifts@[b].id);
        }
    }
}

} // verus!
