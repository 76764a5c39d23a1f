//! The capability-checked operation surface: every call arrives with an
//! already-authenticated caller id, and the membership and friendship
//! predicates the operation depends on are evaluated here, before any store
//! is touched.

use crate::friends::{accepted_between, FriendsManager, FriendsManagerError};
use crate::users::{id_present, UsersManagerError};
use crate::wishlist::{
    category_added, category_index, category_present, gift_added, gift_in_category, gift_index,
    gift_present, gifts_reordered, is_member, members_reordered, members_without,
    gifts_without_category, has_any_member, members_kept, added_members, CategoryRow,
    FriendWishList, GiftRow, WishList, WishlistManager, WishlistManagerError,
};
use std::collections::HashSet;
use vstd::prelude::*;

verus! {

broadcast use vstd::std_specs::hash::group_hash_axioms;

#[derive(Debug)]
pub enum AppError {
    UsersManager(UsersManagerError),
    FriendsManager(FriendsManagerError),
    WishlistManager(WishlistManagerError),
    Unauthorized,
    Conflict,
}

/// The id may be shared with: it names a directory entry the caller has an
/// accepted friendship with.
pub open spec fn sharable(f: FriendsManager, auth_user: i64, id: i64) -> bool {
    accepted_between(f.requests@, auth_user, id) && id_present(f.users.users@, id)
}

/// Every listed id may be shared with.
pub open spec fn all_sharable(f: FriendsManager, auth_user: i64, ids: Seq<i64>) -> bool {
    forall|k: int| 0 <= k < ids.len() ==> sharable(f, auth_user, #[trigger] ids[k])
}

/// The position of the first listed id that may not be shared with.
pub open spec fn first_unsharable(f: FriendsManager, auth_user: i64, ids: Seq<i64>) -> int {
    choose|k: int|
        0 <= k < ids.len() && !sharable(f, auth_user, ids[k]) && (forall|j: int|
            0 <= j < k ==> sharable(f, auth_user, #[trigger] ids[j]))
}

/// Someone holds a reservation on the gift.
pub open spec fn reserved(w: WishlistManager, gift_id: i64) -> bool {
    gift_present(w.gifts@, gift_id) && w.gifts@[gift_index(w.gifts@, gift_id)].reserved_by is Some
}

/// The given user holds the reservation on the gift.
pub open spec fn reserved_by(w: WishlistManager, gift_id: i64, user_id: i64) -> bool {
    gift_present(w.gifts@, gift_id) && w.gifts@[gift_index(w.gifts@, gift_id)].reserved_by
        == Some(user_id)
}

/// The user may edit the gift: they are a member of the category it
/// currently lies in.
pub open spec fn editable_gift(w: WishlistManager, user_id: i64, gift_id: i64) -> bool {
    gift_present(w.gifts@, gift_id) && is_member(
        w.members@,
        user_id,
        w.gifts@[gift_index(w.gifts@, gift_id)].category_id,
    )
}

/// The gift lies in the given category and the user is one of its members.
pub open spec fn own_gift(w: WishlistManager, user_id: i64, category_id: i64, gift_id: i64) -> bool {
    gift_in_category(w.gifts@, gift_id, category_id) && is_member(
        w.members@,
        user_id,
        category_id,
    )
}

/// The membership set a share list resolves to: the listed friends plus the
/// caller, or the first id that is no friend.
pub fn build_category_user_list(
    auth_user: i64,
    share_with: &Vec<i64>,
    friends: &FriendsManager,
) -> (r: Result<HashSet<i64>, AppError>)
    requires
        friends.wf(),
    ensures
        all_sharable(*friends, auth_user, share_with@) ==> (r matches Ok(set) && set@
            == share_with@.to_set().insert(auth_user)),
        !all_sharable(*friends, auth_user, share_with@) ==> (r matches Err(
            AppError::WishlistManager(WishlistManagerError::UnknownUser(u)),
        ) && u == share_with@[first_unsharable(*friends, auth_user, share_with@)]),
{
    let mut set: HashSet<i64> = HashSet::new();
    set.insert(auth_user);
    let n = share_with.len();
    let mut i: usize = 0;
    while i < n
        invariant
            friends.wf(),
            n == share_with@.len(),
            0 <= i <= n,
            set@ == share_with@.take(i as int).to_set().insert(auth_user),
            forall|j: int| 0 <= j < i ==> sharable(*friends, auth_user, #[trigger] share_with@[j]),
        decreases n - i,
    {
        let u = share_with[i];
        let is_friend = match friends.is_my_friend(auth_user, u) {
            Ok(b) => b,
            Err(_) => false,
        };
        let known = friends.users.find_by_id(u).is_some();
        if !(is_friend && known) {
            proof {
                let ids = share_with@;
                assert(!sharable(*friends, auth_user, ids[i as int]));
                let k = first_unsharable(*friends, auth_user, ids);
                assert(0 <= k < ids.len() && !sharable(*friends, auth_user, ids[k]) && (
                forall|j: int| 0 <= j < k ==> sharable(*friends, auth_user, #[trigger] ids[j])));
                assert(k == i as int);
            }
            return Err(
                AppError::WishlistManager(WishlistManagerError::UnknownUser(u)),
            );
        }
        set.insert(u);
        proof {
            let ids = share_with@;
            assert forall|v: i64| #[trigger] ids.take(i + 1).contains(v) implies (v == ids[
                i as int
            ] || ids.take(i as int).contains(v)) by {
                let wi = choose|wi: int|
                    0 <= wi < ids.take(i + 1).len() && #[trigger] ids.take(i + 1)[wi] == v;
                if wi < i as int {
                    assert(ids.take(i as int)[wi] == v);
                }
            }
            assert forall|v: i64| #[trigger] ids.take(i as int).contains(v) implies ids.take(
                i + 1,
            ).contains(v) by {
                let wi = choose|wi: int|
                    0 <= wi < ids.take(i as int).len() && #[trigger] ids.take(i as int)[wi] == v;
                assert(ids.take(i + 1)[wi] == v);
            }
            assert(ids.take(i + 1).contains(ids[i as int])) by {
                assert(ids.take(i + 1)[i as int] == ids[i as int]);
            }
            assert(set@ =~= ids.take(i + 1).to_set().insert(auth_user));
        }
        i = i + 1;
    }
    proof {
        assert(share_with@.take(n as int) =~= share_with@);
    }
    Ok(set)
}

/// Create a category for the caller, shared with the listed friends.
pub fn add_category(
    friends: &FriendsManager,
    wishlist: &mut WishlistManager,
    auth_user: i64,
    name: &str,
    share_with: &Vec<i64>,
) -> (r: Result<(), AppError>)
    requires
        friends.wf(),
        old(wishlist).wf(),
    ensures
        final(wishlist).wf(),
        !all_sharable(*friends, auth_user, share_with@) ==> *final(wishlist) == *old(wishlist) && (
        r matches Err(AppError::WishlistManager(WishlistManagerError::UnknownUser(u))) && u
            == share_with@[first_unsharable(*friends, auth_user, share_with@)]),
        all_sharable(*friends, auth_user, share_with@) && old(wishlist).next_category_id
            == i64::MAX ==> *final(wishlist) == *old(wishlist) && (r matches Err(
            AppError::WishlistManager(WishlistManagerError::Storage),
        )),
        all_sharable(*friends, auth_user, share_with@) && old(wishlist).next_category_id
            < i64::MAX ==> (r matches Ok(u) && category_added(
            *old(wishlist),
            *final(wishlist),
            old(wishlist).next_category_id,
            name@,
            share_with@.to_set().insert(auth_user),
        )),
{
    let all_users = match build_category_user_list(auth_user, share_with, friends) {
        Ok(s) => s,
        Err(e) => {
            return Err(e);
        },
    };
    match wishlist.add_category(name, all_users) {
        Ok(_) => Ok(()),
        Err(e) => Err(AppError::WishlistManager(e)),
    }
}

/// Rename and reshare a category; only a member may do it.
pub fn edit_category(
    friends: &FriendsManager,
    wishlist: &mut WishlistManager,
    auth_user: i64,
    category_id: i64,
    name: &str,
    share_with: &Vec<i64>,
) -> (r: Result<(), AppError>)
    requires
        friends.wf(),
        old(wishlist).wf(),
    ensures
        final(wishlist).wf(),
        !is_member(old(wishlist).members@, auth_user, category_id) ==> *final(wishlist) == *old(wishlist) && (r matches Err(AppError::Unauthorized)),
        is_member(old(wishlist).members@, auth_user, category_id) && !all_sharable(
            *friends,
            auth_user,
            share_with@,
        ) ==> *final(wishlist) == *old(wishlist) && (r matches Err(AppError::WishlistManager(
            WishlistManagerError::UnknownUser(u),
        )) && u == share_with@[first_unsharable(*friends, auth_user, share_with@)]),
        is_member(old(wishlist).members@, auth_user, category_id) && all_sharable(
            *friends,
            auth_user,
            share_with@,
        ) ==> {
            &&& r matches Ok(u)
            &&& final(wishlist).gifts@ == old(wishlist).gifts@
            &&& final(wishlist).next_category_id == old(wishlist).next_category_id
            &&& final(wishlist).next_gift_id == old(wishlist).next_gift_id
            &&& exists|c: CategoryRow|
                {
                    &&& final(wishlist).categories@ == #[trigger] old(wishlist).categories@.update(
                        category_index(old(wishlist).categories@, category_id),
                        c,
                    )
                    &&& c.id == category_id
                    &&& c.name@ == name@
                }
            &&& exists|order: Seq<i64>|
                {
                    &&& #[trigger] added_members(
                        members_kept(
                            old(wishlist).members@,
                            category_id,
                            share_with@.to_set().insert(auth_user),
                        ),
                        final(wishlist).members@,
                        order,
                        category_id,
                    )
                    &&& order.no_duplicates()
                    &&& forall|u: i64|
                        order.contains(u) <==> (share_with@.to_set().insert(auth_user).contains(
                            u,
                        ) && !is_member(old(wishlist).members@, u, category_id))
                }
        },
{
    let mine = match wishlist.is_my_category(auth_user, category_id) {
        Ok(b) => b,
        Err(_) => false,
    };
    if !mine {
        return Err(AppError::Unauthorized);
    }
    let all_users = match build_category_user_list(auth_user, share_with, friends) {
        Ok(s) => s,
        Err(e) => {
            return Err(e);
        },
    };
    proof {
        let k = crate::wishlist::member_index(wishlist.members@, auth_user, category_id);
        assert(wishlist.members@[k].user_id == auth_user && wishlist.members@[k].category_id
            == category_id);
        assert(category_present(wishlist.categories@, category_id));
    }
    match wishlist.edit_category(category_id, name, all_users) {
        Ok(_) => Ok(()),
        Err(e) => Err(AppError::WishlistManager(e)),
    }
}

/// Re-rank the caller's own view of the listed categories; every listed
/// category must be theirs.
pub fn reorder_categories(
    wishlist: &mut WishlistManager,
    auth_user: i64,
    starting_rank: usize,
    categories: &Vec<i64>,
) -> (r: Result<(), AppError>)
    requires
        old(wishlist).wf(),
        starting_rank + categories@.len() <= i64::MAX,
    ensures
        final(wishlist).wf(),
        (exists|k: int|
            0 <= k < categories@.len() && !is_member(
                old(wishlist).members@,
                auth_user,
                #[trigger] categories@[k],
            )) ==> *final(wishlist) == *old(wishlist) && (r matches Err(AppError::Unauthorized)),
        (forall|k: int|
            0 <= k < categories@.len() ==> is_member(
                old(wishlist).members@,
                auth_user,
                #[trigger] categories@[k],
            )) ==> {
            &&& r matches Ok(u)
            &&& final(wishlist).categories@ == old(wishlist).categories@
            &&& final(wishlist).gifts@ == old(wishlist).gifts@
            &&& final(wishlist).members@ == members_reordered(
                old(wishlist).members@,
                auth_user,
                starting_rank as int,
                categories@,
            )
        },
{
    let n = categories.len();
    let mut i: usize = 0;
    while i < n
        invariant
            old(wishlist).wf(),
            *wishlist == *old(wishlist),
            n == categories@.len(),
            0 <= i <= n,
            forall|k: int|
                0 <= k < i ==> is_member(
                    old(wishlist).members@,
                    auth_user,
                    #[trigger] categories@[k],
                ),
        decreases n - i,
    {
        let mine = match wishlist.is_my_category(auth_user, categories[i]) {
            Ok(b) => b,
            Err(_) => false,
        };
        if !mine {
            return Err(AppError::Unauthorized);
        }
        i = i + 1;
    }
    match wishlist.reorder_categories(auth_user, starting_rank, categories.as_slice()) {
        Ok(_) => Ok(()),
        Err(e) => Err(AppError::WishlistManager(e)),
    }
}

/// Take the caller out of a category of theirs.
pub fn delete_category(wishlist: &mut WishlistManager, auth_user: i64, category_id: i64) -> (r:
    Result<(), AppError>)
    requires
        old(wishlist).wf(),
    ensures
        final(wishlist).wf(),
        !is_member(old(wishlist).members@, auth_user, category_id) ==> *final(wishlist) == *old(wishlist) && (r matches Err(AppError::Unauthorized)),
        is_member(old(wishlist).members@, auth_user, category_id) ==> {
            &&& r matches Ok(u)
            &&& final(wishlist).next_category_id == old(wishlist).next_category_id
            &&& final(wishlist).next_gift_id == old(wishlist).next_gift_id
            &&& final(wishlist).members@ == members_without(
                old(wishlist).members@,
                auth_user,
                category_id,
            )
            &&& has_any_member(final(wishlist).members@, category_id) ==> final(wishlist).categories@ == old(wishlist).categories@ && final(wishlist).gifts@ == old(wishlist).gifts@
            &&& !has_any_member(final(wishlist).members@, category_id) ==> {
                &&& final(wishlist).gifts@ == gifts_without_category(
                    old(wishlist).gifts@,
                    category_id,
                )
                &&& category_present(old(wishlist).categories@, category_id) ==> final(wishlist).categories@ == old(wishlist).categories@.remove(
                    category_index(old(wishlist).categories@, category_id),
                )
            }
        },
{
    let mine = match wishlist.is_my_category(auth_user, category_id) {
        Ok(b) => b,
        Err(_) => false,
    };
    if !mine {
        return Err(AppError::Unauthorized);
    }
    match wishlist.delete_category(auth_user, category_id) {
        Ok(_) => Ok(()),
        Err(e) => Err(AppError::WishlistManager(e)),
    }
}

/// Store a public gift in a category of the caller's.
pub fn add_gift(
    wishlist: &mut WishlistManager,
    auth_user: i64,
    category_id: i64,
    name: &str,
    description: Option<String>,
    price: Option<String>,
    where_to_buy: Option<String>,
    picture: Option<String>,
) -> (r: Result<(), AppError>)
    requires
        old(wishlist).wf(),
    ensures
        final(wishlist).wf(),
        !is_member(old(wishlist).members@, auth_user, category_id) ==> *final(wishlist) == *old(wishlist) && (r matches Err(AppError::Unauthorized)),
        is_member(old(wishlist).members@, auth_user, category_id) && old(wishlist).next_gift_id
            == i64::MAX ==> *final(wishlist) == *old(wishlist) && (r matches Err(
            AppError::WishlistManager(WishlistManagerError::Storage),
        )),
        is_member(old(wishlist).members@, auth_user, category_id) && old(wishlist).next_gift_id
            < i64::MAX ==> (r matches Ok(u) && gift_added(
            *old(wishlist),
            *final(wishlist),
            old(wishlist).next_gift_id,
            name@,
            description.deep_view(),
            price.deep_view(),
            where_to_buy.deep_view(),
            picture.deep_view(),
            false,
            category_id,
        )),
{
    let mine = match wishlist.is_my_category(auth_user, category_id) {
        Ok(b) => b,
        Err(_) => false,
    };
    if !mine {
        return Err(AppError::Unauthorized);
    }
    proof {
        let k = crate::wishlist::member_index(wishlist.members@, auth_user, category_id);
        assert(wishlist.members@[k].user_id == auth_user && wishlist.members@[k].category_id
            == category_id);
        assert(category_present(wishlist.categories@, category_id));
    }
    match wishlist.add_gift(name, description, price, where_to_buy, picture, false, category_id) {
        Ok(_) => Ok(()),
        Err(e) => Err(AppError::WishlistManager(e)),
    }
}

/// Store a surprise gift in a friend's category: the caller must be a
/// friend of the target and the target a member of the category.
pub fn add_secret_gift(
    friends: &FriendsManager,
    wishlist: &mut WishlistManager,
    auth_user: i64,
    friend_id: i64,
    category_id: i64,
    name: &str,
    description: Option<String>,
    price: Option<String>,
    where_to_buy: Option<String>,
    picture: Option<String>,
) -> (r: Result<(), AppError>)
    requires
        old(wishlist).wf(),
    ensures
        final(wishlist).wf(),
        !accepted_between(friends.requests@, auth_user, friend_id) ==> *final(wishlist) == *old(wishlist) && (r matches Err(AppError::Unauthorized)),
        accepted_between(friends.requests@, auth_user, friend_id) && !is_member(
            old(wishlist).members@,
            friend_id,
            category_id,
        ) ==> *final(wishlist) == *old(wishlist) && (r matches Err(AppError::Unauthorized)),
        accepted_between(friends.requests@, auth_user, friend_id) && is_member(
            old(wishlist).members@,
            friend_id,
            category_id,
        ) && old(wishlist).next_gift_id == i64::MAX ==> *final(wishlist) == *old(wishlist) && (
        r matches Err(AppError::WishlistManager(WishlistManagerError::Storage))),
        accepted_between(friends.requests@, auth_user, friend_id) && is_member(
            old(wishlist).members@,
            friend_id,
            category_id,
        ) && old(wishlist).next_gift_id < i64::MAX ==> (r matches Ok(u) && gift_added(
            *old(wishlist),
            *final(wishlist),
            old(wishlist).next_gift_id,
            name@,
            description.deep_view(),
            price.deep_view(),
            where_to_buy.deep_view(),
            picture.deep_view(),
            true,
            category_id,
        )),
{
    let is_friend = match friends.is_my_friend(auth_user, friend_id) {
        Ok(b) => b,
        Err(_) => false,
    };
    if !is_friend {
        return Err(AppError::Unauthorized);
    }
    let theirs = match wishlist.is_my_category(friend_id, category_id) {
        Ok(b) => b,
        Err(_) => false,
    };
    if !theirs {
        return Err(AppError::Unauthorized);
    }
    proof {
        let k = crate::wishlist::member_index(wishlist.members@, friend_id, category_id);
        assert(wishlist.members@[k].user_id == friend_id && wishlist.members@[k].category_id
            == category_id);
        assert(category_present(wishlist.categories@, category_id));
    }
    match wishlist.add_gift(name, description, price, where_to_buy, picture, true, category_id) {
        Ok(_) => Ok(()),
        Err(e) => Err(AppError::WishlistManager(e)),
    }
}

/// Rewrite a gift the caller may edit, re-filing it into a category of
/// theirs.
pub fn edit_gift(
    wishlist: &mut WishlistManager,
    auth_user: i64,
    category_id: i64,
    gift_id: i64,
    name: &str,
    description: Option<String>,
    price: Option<String>,
    where_to_buy: Option<String>,
    picture: Option<String>,
) -> (r: Result<(), AppError>)
    requires
        old(wishlist).wf(),
    ensures
        final(wishlist).wf(),
        !editable_gift(*old(wishlist), auth_user, gift_id) ==> *final(wishlist) == *old(wishlist)
            && (r matches Err(AppError::Unauthorized)),
        editable_gift(*old(wishlist), auth_user, gift_id) && !is_member(
            old(wishlist).members@,
            auth_user,
            category_id,
        ) ==> *final(wishlist) == *old(wishlist) && (r matches Err(AppError::Unauthorized)),
        editable_gift(*old(wishlist), auth_user, gift_id) && is_member(
            old(wishlist).members@,
            auth_user,
            category_id,
        ) ==> {
            &&& r matches Ok(u)
            &&& final(wishlist).categories@ == old(wishlist).categories@
            &&& final(wishlist).members@ == old(wishlist).members@
            &&& final(wishlist).next_category_id == old(wishlist).next_category_id
            &&& final(wishlist).next_gift_id == old(wishlist).next_gift_id
            &&& exists|g: GiftRow|
                {
                    &&& final(wishlist).gifts@ == #[trigger] old(wishlist).gifts@.update(
                        gift_index(old(wishlist).gifts@, gift_id),
                        g,
                    )
                    &&& g.id == gift_id
                    &&& g.name@ == name@
                    &&& g.description.deep_view() == description.deep_view()
                    &&& g.price.deep_view() == price.deep_view()
                    &&& g.where_to_buy.deep_view() == where_to_buy.deep_view()
                    &&& g.picture.deep_view() == picture.deep_view()
                    &&& g.category_id == category_id
                    &&& g.secret == old(wishlist).gifts@[gift_index(
                        old(wishlist).gifts@,
                        gift_id,
                    )].secret
                    &&& g.heart == old(wishlist).gifts@[gift_index(
                        old(wishlist).gifts@,
                        gift_id,
                    )].heart
                    &&& g.rank == old(wishlist).gifts@[gift_index(
                        old(wishlist).gifts@,
                        gift_id,
                    )].rank
                    &&& g.reserved_by == old(wishlist).gifts@[gift_index(
                        old(wishlist).gifts@,
                        gift_id,
                    )].reserved_by
                }
        },
{
    let editable = match wishlist.is_my_gift_for_edit(auth_user, gift_id) {
        Ok(b) => b,
        Err(_) => false,
    };
    if !editable {
        return Err(AppError::Unauthorized);
    }
    let mine = match wishlist.is_my_category(auth_user, category_id) {
        Ok(b) => b,
        Err(_) => false,
    };
    if !mine {
        return Err(AppError::Unauthorized);
    }
    proof {
        let k = crate::wishlist::member_index(wishlist.members@, auth_user, category_id);
        assert(wishlist.members@[k].user_id == auth_user && wishlist.members@[k].category_id
            == category_id);
        assert(category_present(wishlist.categories@, category_id));
    }
    match wishlist.edit_gift(gift_id, name, description, price, where_to_buy, picture, category_id)
        {
        Ok(_) => Ok(()),
        Err(e) => Err(AppError::WishlistManager(e)),
    }
}

/// Rewrite a surprise gift in a friend's category on their behalf.
pub fn edit_secret_gift(
    friends: &FriendsManager,
    wishlist: &mut WishlistManager,
    auth_user: i64,
    friend_id: i64,
    category_id: i64,
    gift_id: i64,
    name: &str,
    description: Option<String>,
    price: Option<String>,
    where_to_buy: Option<String>,
    picture: Option<String>,
) -> (r: Result<(), AppError>)
    requires
        old(wishlist).wf(),
    ensures
        final(wishlist).wf(),
        !accepted_between(friends.requests@, auth_user, friend_id) ==> *final(wishlist) == *old(
            wishlist,
        ) && (r matches Err(AppError::Unauthorized)),
        accepted_between(friends.requests@, auth_user, friend_id) && !(editable_gift(
            *old(wishlist),
            friend_id,
            gift_id,
        ) && is_member(old(wishlist).members@, friend_id, category_id)) ==> *final(wishlist)
            == *old(wishlist) && (r matches Err(AppError::Unauthorized)),
        accepted_between(friends.requests@, auth_user, friend_id) && editable_gift(
            *old(wishlist),
            friend_id,
            gift_id,
        ) && is_member(old(wishlist).members@, friend_id, category_id) ==> {
            &&& r matches Ok(u)
            &&& final(wishlist).categories@ == old(wishlist).categories@
            &&& final(wishlist).members@ == old(wishlist).members@
            &&& exists|g: GiftRow|
                {
                    &&& final(wishlist).gifts@ == #[trigger] old(wishlist).gifts@.update(
                        gift_index(old(wishlist).gifts@, gift_id),
                        g,
                    )
                    &&& g.id == gift_id
                    &&& g.name@ == name@
                    &&& g.category_id == category_id
                    &&& g.secret == old(wishlist).gifts@[gift_index(
                        old(wishlist).gifts@,
                        gift_id,
                    )].secret
                }
        },
{
    let is_friend = match friends.is_my_friend(auth_user, friend_id) {
        Ok(b) => b,
        Err(_) => false,
    };
    if !is_friend {
        return Err(AppError::Unauthorized);
    }
    let editable = match wishlist.is_my_gift_for_edit(friend_id, gift_id) {
        Ok(b) => b,
        Err(_) => false,
    };
    if !editable {
        return Err(AppError::Unauthorized);
    }
    let theirs = match wishlist.is_my_category(friend_id, category_id) {
        Ok(b) => b,
        Err(_) => false,
    };
    if !theirs {
        return Err(AppError::Unauthorized);
    }
    proof {
        let k = crate::wishlist::member_index(wishlist.members@, friend_id, category_id);
        assert(wishlist.members@[k].user_id == friend_id && wishlist.members@[k].category_id
            == category_id);
        assert(category_present(wishlist.categories@, category_id));
    }
    match wishlist.edit_gift(gift_id, name, description, price, where_to_buy, picture, category_id)
        {
        Ok(_) => Ok(()),
        Err(e) => Err(AppError::WishlistManager(e)),
    }
}

/// Re-rank the listed gifts of a category of the caller's; every listed
/// gift must lie in it.
pub fn reorder_gifts(
    wishlist: &mut WishlistManager,
    auth_user: i64,
    category_id: i64,
    starting_rank: usize,
    gifts: &Vec<i64>,
) -> (r: Result<(), AppError>)
    requires
        old(wishlist).wf(),
        starting_rank + gifts@.len() <= i64::MAX,
    ensures
        final(wishlist).wf(),
        !is_member(old(wishlist).members@, auth_user, category_id) ==> *final(wishlist) == *old(
            wishlist,
        ) && (r matches Err(AppError::Unauthorized)),
        is_member(old(wishlist).members@, auth_user, category_id) && (exists|k: int|
            0 <= k < gifts@.len() && !own_gift(
                *old(wishlist),
                auth_user,
                category_id,
                #[trigger] gifts@[k],
            )) ==> *final(wishlist) == *old(wishlist) && (r matches Err(AppError::Unauthorized)),
        is_member(old(wishlist).members@, auth_user, category_id) && (forall|k: int|
            0 <= k < gifts@.len() ==> own_gift(
                *old(wishlist),
                auth_user,
                category_id,
                #[trigger] gifts@[k],
            )) ==> {
            &&& r matches Ok(u)
            &&& final(wishlist).categories@ == old(wishlist).categories@
            &&& final(wishlist).members@ == old(wishlist).members@
            &&& final(wishlist).gifts@ == gifts_reordered(
                old(wishlist).gifts@,
                starting_rank as int,
                gifts@,
            )
        },
{
    let mine = match wishlist.is_my_category(auth_user, category_id) {
        Ok(b) => b,
        Err(_) => false,
    };
    if !mine {
        return Err(AppError::Unauthorized);
    }
    let n = gifts.len();
    let mut i: usize = 0;
    while i < n
        invariant
            old(wishlist).wf(),
            *wishlist == *old(wishlist),
            n == gifts@.len(),
            0 <= i <= n,
            forall|k: int|
                0 <= k < i ==> own_gift(
                    *old(wishlist),
                    auth_user,
                    category_id,
                    #[trigger] gifts@[k],
                ),
        decreases n - i,
    {
        let ok = match wishlist.is_my_gift(auth_user, category_id, gifts[i]) {
            Ok(b) => b,
            Err(_) => false,
        };
        if !ok {
            return Err(AppError::Unauthorized);
        }
        i = i + 1;
    }
    match wishlist.reorder_gifts(starting_rank, gifts.as_slice()) {
        Ok(_) => Ok(()),
        Err(e) => Err(AppError::WishlistManager(e)),
    }
}

/// Drop a gift from a category of the caller's.
pub fn delete_gift(
    wishlist: &mut WishlistManager,
    auth_user: i64,
    category_id: i64,
    gift_id: i64,
) -> (r: Result<(), AppError>)
    requires
        old(wishlist).wf(),
    ensures
        final(wishlist).wf(),
        !own_gift(*old(wishlist), auth_user, category_id, gift_id) ==> *final(wishlist) == *old(
            wishlist,
        ) && (r matches Err(AppError::Unauthorized)),
        own_gift(*old(wishlist), auth_user, category_id, gift_id) ==> {
            &&& r matches Ok(u)
            &&& final(wishlist).categories@ == old(wishlist).categories@
            &&& final(wishlist).members@ == old(wishlist).members@
            &&& final(wishlist).gifts@ == old(wishlist).gifts@.remove(
                gift_index(old(wishlist).gifts@, gift_id),
            )
        },
{
    let ok = match wishlist.is_my_gift(auth_user, category_id, gift_id) {
        Ok(b) => b,
        Err(_) => false,
    };
    if !ok {
        return Err(AppError::Unauthorized);
    }
    match wishlist.delete_gift(gift_id) {
        Ok(_) => Ok(()),
        Err(e) => Err(AppError::WishlistManager(e)),
    }
}

/// Drop a surprise gift from a friend's category on their behalf.
pub fn delete_secret_gift(
    friends: &FriendsManager,
    wishlist: &mut WishlistManager,
    auth_user: i64,
    friend_id: i64,
    category_id: i64,
    gift_id: i64,
) -> (r: Result<(), AppError>)
    requires
        old(wishlist).wf(),
    ensures
        final(wishlist).wf(),
        !accepted_between(friends.requests@, auth_user, friend_id) ==> *final(wishlist) == *old(
            wishlist,
        ) && (r matches Err(AppError::Unauthorized)),
        accepted_between(friends.requests@, auth_user, friend_id) && !own_gift(
            *old(wishlist),
            friend_id,
            category_id,
            gift_id,
        ) ==> *final(wishlist) == *old(wishlist) && (r matches Err(AppError::Unauthorized)),
        accepted_between(friends.requests@, auth_user, friend_id) && own_gift(
            *old(wishlist),
            friend_id,
            category_id,
            gift_id,
        ) ==> {
            &&& r matches Ok(u)
            &&& final(wishlist).categories@ == old(wishlist).categories@
            &&& final(wishlist).members@ == old(wishlist).members@
            &&& final(wishlist).gifts@ == old(wishlist).gifts@.remove(
                gift_index(old(wishlist).gifts@, gift_id),
            )
        },
{
    let is_friend = match friends.is_my_friend(auth_user, friend_id) {
        Ok(b) => b,
        Err(_) => false,
    };
    if !is_friend {
        return Err(AppError::Unauthorized);
    }
    let ok = match wishlist.is_my_gift(friend_id, category_id, gift_id) {
        Ok(b) => b,
        Err(_) => false,
    };
    if !ok {
        return Err(AppError::Unauthorized);
    }
    match wishlist.delete_gift(gift_id) {
        Ok(_) => Ok(()),
        Err(e) => Err(AppError::WishlistManager(e)),
    }
}

/// Flip the heart mark of a gift in a category of the caller's.
pub fn change_heart_gift(
    wishlist: &mut WishlistManager,
    auth_user: i64,
    category_id: i64,
    gift_id: i64,
) -> (r: Result<(), AppError>)
    requires
        old(wishlist).wf(),
    ensures
        final(wishlist).wf(),
        !own_gift(*old(wishlist), auth_user, category_id, gift_id) ==> *final(wishlist) == *old(
            wishlist,
        ) && (r matches Err(AppError::Unauthorized)),
        own_gift(*old(wishlist), auth_user, category_id, gift_id) ==> {
            &&& r matches Ok(u)
            &&& final(wishlist).categories@ == old(wishlist).categories@
            &&& final(wishlist).members@ == old(wishlist).members@
            &&& final(wishlist).gifts@ == old(wishlist).gifts@.update(
                gift_index(old(wishlist).gifts@, gift_id),
                GiftRow {
                    heart: !old(wishlist).gifts@[gift_index(old(wishlist).gifts@, gift_id)].heart,
                    ..old(wishlist).gifts@[gift_index(old(wishlist).gifts@, gift_id)]
                },
            )
        },
{
    let ok = match wishlist.is_my_gift(auth_user, category_id, gift_id) {
        Ok(b) => b,
        Err(_) => false,
    };
    if !ok {
        return Err(AppError::Unauthorized);
    }
    match wishlist.change_heart_gift(gift_id) {
        Ok(_) => Ok(()),
        Err(e) => Err(AppError::WishlistManager(e)),
    }
}

/// Claim a friend's gift: at most one claim may stand at a time, so a gift
/// someone already reserved is refused with a conflict.
pub fn reserve_gift(
    friends: &FriendsManager,
    wishlist: &mut WishlistManager,
    auth_user: i64,
    friend_id: i64,
    gift_id: i64,
) -> (r: Result<(), AppError>)
    requires
        old(wishlist).wf(),
    ensures
        final(wishlist).wf(),
        final(wishlist).categories@ == old(wishlist).categories@,
        final(wishlist).members@ == old(wishlist).members@,
        final(wishlist).next_category_id == old(wishlist).next_category_id,
        final(wishlist).next_gift_id == old(wishlist).next_gift_id,
        !accepted_between(friends.requests@, auth_user, friend_id) ==> *final(wishlist) == *old(
            wishlist,
        ) && (r matches Err(AppError::Unauthorized)),
        accepted_between(friends.requests@, auth_user, friend_id) && reserved(
            *old(wishlist),
            gift_id,
        ) ==> *final(wishlist) == *old(wishlist) && (r matches Err(AppError::Conflict)),
        accepted_between(friends.requests@, auth_user, friend_id) && !reserved(
            *old(wishlist),
            gift_id,
        ) ==> {
            &&& r matches Ok(u)
            &&& !gift_present(old(wishlist).gifts@, gift_id) ==> final(wishlist).gifts@ == old(
                wishlist,
            ).gifts@
            &&& gift_present(old(wishlist).gifts@, gift_id) ==> final(wishlist).gifts@ == old(
                wishlist,
            ).gifts@.update(
                gift_index(old(wishlist).gifts@, gift_id),
                GiftRow {
                    reserved_by: Some(auth_user),
                    ..old(wishlist).gifts@[gift_index(old(wishlist).gifts@, gift_id)]
                },
            )
        },
{
    let is_friend = match friends.is_my_friend(auth_user, friend_id) {
        Ok(b) => b,
        Err(_) => false,
    };
    if !is_friend {
        return Err(AppError::Unauthorized);
    }
    let taken = match wishlist.is_gift_reserved(gift_id) {
        Ok(b) => b,
        Err(_) => false,
    };
    if taken {
        return Err(AppError::Conflict);
    }
    match wishlist.reserve_gift(gift_id, Some(auth_user)) {
        Ok(_) => Ok(()),
        Err(e) => Err(AppError::WishlistManager(e)),
    }
}

/// Release a claim: only the friend who holds the reservation may clear it.
pub fn unreserve_gift(
    friends: &FriendsManager,
    wishlist: &mut WishlistManager,
    auth_user: i64,
    friend_id: i64,
    gift_id: i64,
) -> (r: Result<(), AppError>)
    requires
        old(wishlist).wf(),
    ensures
        final(wishlist).wf(),
        final(wishlist).categories@ == old(wishlist).categories@,
        final(wishlist).members@ == old(wishlist).members@,
        !(accepted_between(friends.requests@, auth_user, friend_id) && reserved_by(
            *old(wishlist),
            gift_id,
            auth_user,
        )) ==> *final(wishlist) == *old(wishlist) && (r matches Err(AppError::Unauthorized)),
        accepted_between(friends.requests@, auth_user, friend_id) && reserved_by(
            *old(wishlist),
            gift_id,
            auth_user,
        ) ==> {
            &&& r matches Ok(u)
            &&& final(wishlist).gifts@ == old(wishlist).gifts@.update(
                gift_index(old(wishlist).gifts@, gift_id),
                GiftRow {
                    reserved_by: None,
                    ..old(wishlist).gifts@[gift_index(old(wishlist).gifts@, gift_id)]
                },
            )
        },
{
    let is_friend = match friends.is_my_friend(auth_user, friend_id) {
        Ok(b) => b,
        Err(_) => false,
    };
    if !is_friend {
        return Err(AppError::Unauthorized);
    }
    let mine = match wishlist.is_gift_reserved_by_me(gift_id, auth_user) {
        Ok(b) => b,
        Err(_) => false,
    };
    if !mine {
        return Err(AppError::Unauthorized);
    }
    match wishlist.reserve_gift(gift_id, None) {
        Ok(_) => Ok(()),
        Err(e) => Err(AppError::WishlistManager(e)),
    }
}

/// A friend's wishlist, readable only through an accepted friendship.
pub fn get_friend_wishlist(
    friends: &FriendsManager,
    wishlist: &WishlistManager,
    auth_user: i64,
    friend_id: i64,
) -> (r: Result<FriendWishList, AppError>)
    requires
        wishlist.wf(),
    ensures
        !accepted_between(friends.requests@, auth_user, friend_id) ==> (r matches Err(
            AppError::Unauthorized,
        )),
        accepted_between(friends.requests@, auth_user, friend_id) ==> (r matches Ok(w)
            && crate::wishlist::friend_wishlist_matches(*wishlist, auth_user, friend_id, w)),
{
    let is_friend = match friends.is_my_friend(auth_user, friend_id) {
        Ok(b) => b,
        Err(_) => false,
    };
    if !is_friend {
        return Err(AppError::Unauthorized);
    }
    match wishlist.get_friend_wishlist(auth_user, friend_id) {
        Ok(w) => Ok(w),
        Err(e) => Err(AppError::WishlistManager(e)),
    }
}

/// The list a shopping printout is rendered from: the caller's own view
/// for their own wishlist, and the projected friend view for a friend's.
pub fn get_print_wishlist(
    friends: &FriendsManager,
    wishlist: &WishlistManager,
    auth_user: i64,
    user_id: i64,
) -> (r: Result<WishList, AppError>)
    requires
        wishlist.wf(),
    ensures
        auth_user == user_id ==> (r matches Ok(w) && crate::wishlist::own_wishlist_matches(
            *wishlist,
            auth_user,
            w,
        )),
        auth_user != user_id && accepted_between(friends.requests@, auth_user, user_id) ==> (
        r matches Ok(w) && exists|fv: FriendWishList|
            {
                &&& #[trigger] crate::wishlist::friend_wishlist_matches(
                    *wishlist,
                    auth_user,
                    user_id,
                    fv,
                )
                &&& crate::wishlist::print_view_matches(fv, w)
            }),
        auth_user != user_id && !accepted_between(friends.requests@, auth_user, user_id) ==> (
        r matches Err(AppError::Unauthorized)),
{
    if auth_user == user_id {
        return match wishlist.get_my_wishlist(auth_user) {
            Ok(w) => Ok(w),
            Err(e) => Err(AppError::WishlistManager(e)),
        };
    }
    let is_friend = match friends.is_my_friend(auth_user, user_id) {
        Ok(b) => b,
        Err(_) => false,
    };
    if !is_friend {
        return Err(AppError::Unauthorized);
    }
    match wishlist.get_friend_wishlist(auth_user, user_id) {
        Ok(fv) => {
            let ghost fv0 = fv;
            let w = fv.into();
            proof {
                assert(crate::wishlist::friend_wishlist_matches(
                    *wishlist,
                    auth_user,
                    user_id,
                    fv0,
                ));
            }
            Ok(w)
        },
        Err(e) => Err(AppError::WishlistManager(e)),
    }
}


} // verus!
