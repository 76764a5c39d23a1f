//! The shared-category and gift store: categories with per-member ordering,
//! gifts with a secrecy partition of the rank space, and the reservation
//! ledger.

use crate::collect::set_to_vec;
use crate::order::{sort_pairs, sort_ranked, Ranked};
use std::collections::HashSet;
use vstd::prelude::*;

verus! {

broadcast use vstd::std_specs::hash::group_hash_axioms;

/// Public gifts keep ranks below this bound; secret gifts rank at or above
/// it, so that reordering one side never disturbs the other.
pub const SECRET_RANK_BASE: i64 = 100000;

/// A stored category row.
pub struct CategoryRow {
    pub id: i64,
    pub name: String,
}

/// A stored membership row: one member's private rank of one category.
#[derive(Clone, Copy, PartialEq, Eq, Structural, Debug)]
pub struct MemberRow {
    pub user_id: i64,
    pub category_id: i64,
    pub rank: i64,
}

/// A stored gift row.
pub struct GiftRow {
    pub id: i64,
    pub name: String,
    pub description: Option<String>,
    pub price: Option<String>,
    pub where_to_buy: Option<String>,
    pub picture: Option<String>,
    pub secret: bool,
    pub heart: bool,
    pub rank: i64,
    pub reserved_by: Option<i64>,
    pub category_id: i64,
}

/// A category as the own view reports it: fellow members and public gifts.
#[derive(Debug, PartialEq, Eq)]
pub struct Category {
    pub id: i64,
    pub name: String,
    pub share_with: Vec<i64>,
    pub gifts: Vec<Gift>,
}

/// A gift as the own view reports it: no secrecy, no reservation.
#[derive(Debug, PartialEq, Eq)]
pub struct Gift {
    pub id: i64,
    pub name: String,
    pub description: Option<String>,
    pub price: Option<String>,
    pub where_to_buy: Option<String>,
    pub picture: Option<String>,
    pub heart: bool,
}

/// A user's own wishlist.
#[derive(Debug, PartialEq, Eq)]
pub struct WishList {
    pub categories: Vec<Category>,
}

/// A category as the friend view reports it.
#[derive(Debug, PartialEq, Eq)]
pub struct FriendCategory {
    pub id: i64,
    pub name: String,
    pub gifts: Vec<FriendGift>,
}

/// A gift as the friend view reports it: secrecy and reservation included.
#[derive(Debug, PartialEq, Eq)]
pub struct FriendGift {
    pub id: i64,
    pub name: String,
    pub description: Option<String>,
    pub price: Option<String>,
    pub where_to_buy: Option<String>,
    pub picture: Option<String>,
    pub heart: bool,
    pub secret: bool,
    pub reserved_by: Option<i64>,
}

/// A friend's wishlist as shown to a non-member.
#[derive(Debug, PartialEq, Eq)]
pub struct FriendWishList {
    pub categories: Vec<FriendCategory>,
}

#[derive(Debug)]
pub enum WishlistManagerError {
    UnknownUser(i64),
    /// The store cannot take another row.
    Storage,
}

/// Some category row carries the given id.
pub open spec fn category_present(cats: Seq<CategoryRow>, id: i64) -> bool {
    exists|i: int| 0 <= i < cats.len() && cats[i].id == id
}

/// The index of the category row carrying the given id.
pub open spec fn category_index(cats: Seq<CategoryRow>, id: i64) -> int {
    choose|i: int| 0 <= i < cats.len() && cats[i].id == id
}

/// Some gift row carries the given id.
pub open spec fn gift_present(gifts: Seq<GiftRow>, id: i64) -> bool {
    exists|i: int| 0 <= i < gifts.len() && gifts[i].id == id
}

/// The index of the gift row carrying the given id.
pub open spec fn gift_index(gifts: Seq<GiftRow>, id: i64) -> int {
    choose|i: int| 0 <= i < gifts.len() && gifts[i].id == id
}

/// The user holds a membership row of the category.
pub open spec fn is_member(members: Seq<MemberRow>, user_id: i64, category_id: i64) -> bool {
    exists|i: int|
        0 <= i < members.len() && members[i].user_id == user_id && members[i].category_id
            == category_id
}

/// The index of the user's membership row of the category.
pub open spec fn member_index(members: Seq<MemberRow>, user_id: i64, category_id: i64) -> int {
    choose|i: int|
        0 <= i < members.len() && members[i].user_id == user_id && members[i].category_id
            == category_id
}

/// No user holds two membership rows of one category.
pub open spec fn members_unique(ms: Seq<MemberRow>) -> bool {
    forall|i: int, j: int|
        0 <= i < j < ms.len() ==> !(ms[i].user_id == ms[j].user_id && ms[i].category_id
            == ms[j].category_id)
}

/// The gift with the given id lies in the given category.
pub open spec fn gift_in_category(gifts: Seq<GiftRow>, gift_id: i64, category_id: i64) -> bool {
    gift_present(gifts, gift_id) && gifts[gift_index(gifts, gift_id)].category_id == category_id
}

/// The greatest rank among the user's membership rows, or -1 where they
/// have none.
pub open spec fn max_member_rank(members: Seq<MemberRow>, user_id: i64) -> int
    decreases members.len(),
{
    if members.len() == 0 {
        -1
    } else {
        let pre = max_member_rank(members.drop_last(), user_id);
        if members.last().user_id == user_id && members.last().rank > pre {
            members.last().rank as int
        } else {
            pre
        }
    }
}

/// The rank a category appended to the user's list gets: one past their
/// greatest, saturating at the top of the range.
pub open spec fn appended_rank(members: Seq<MemberRow>, user_id: i64) -> i64 {
    if max_member_rank(members, user_id) == i64::MAX {
        i64::MAX
    } else {
        (max_member_rank(members, user_id) + 1) as i64
    }
}

/// The greatest rank among the category's gifts, over all of them for the
/// secret partition and only below the partition bound for the public one;
/// -1 where the partition is empty.
pub open spec fn max_gift_rank(gifts: Seq<GiftRow>, category_id: i64, secret: bool) -> int
    decreases gifts.len(),
{
    if gifts.len() == 0 {
        -1
    } else {
        let pre = max_gift_rank(gifts.drop_last(), category_id, secret);
        let g = gifts.last();
        if g.category_id == category_id && (secret || g.rank < SECRET_RANK_BASE) && g.rank > pre {
            g.rank as int
        } else {
            pre
        }
    }
}

/// The rank a new gift gets: the first secret gift of a category starts the
/// secret partition at its base; otherwise one past the partition's
/// greatest, saturating at the top of the range.
pub open spec fn new_gift_rank(gifts: Seq<GiftRow>, category_id: i64, secret: bool) -> i64 {
    let m = max_gift_rank(gifts, category_id, secret);
    if secret && m < SECRET_RANK_BASE {
        SECRET_RANK_BASE
    } else if m == i64::MAX {
        i64::MAX
    } else {
        (m + 1) as i64
    }
}

pub struct WishlistManager {
    pub categories: Vec<CategoryRow>,
    pub members: Vec<MemberRow>,
    pub gifts: Vec<GiftRow>,
    pub next_category_id: i64,
    pub next_gift_id: i64,
}

impl WishlistManager {
    /// Category and gift ids are unique and below the next ones to be
    /// handed out, a user holds at most one membership row per category,
    /// and membership and gift rows refer to stored categories.
    pub open spec fn wf(self) -> bool {
        &&& 1 <= self.next_category_id
        &&& 1 <= self.next_gift_id
        &&& forall|i: int|
            0 <= i < self.categories@.len() ==> 1 <= #[trigger] self.categories@[i].id
                < self.next_category_id
        &&& forall|i: int, j: int|
            0 <= i < j < self.categories@.len() ==> self.categories@[i].id
                != self.categories@[j].id
        &&& forall|i: int|
            0 <= i < self.gifts@.len() ==> 1 <= #[trigger] self.gifts@[i].id < self.next_gift_id
        &&& forall|i: int, j: int|
            0 <= i < j < self.gifts@.len() ==> self.gifts@[i].id != self.gifts@[j].id
        &&& members_unique(self.members@)
        &&& forall|i: int|
            0 <= i < self.members@.len() ==> category_present(
                self.categories@,
                #[trigger] self.members@[i].category_id,
            )
        &&& forall|i: int|
            0 <= i < self.gifts@.len() ==> category_present(
                self.categories@,
                #[trigger] self.gifts@[i].category_id,
            )
    }

    /// An empty store.
    pub fn new() -> (r: WishlistManager)
        ensures
            r.wf(),
            r.categories@.len() == 0,
            r.members@.len() == 0,
            r.gifts@.len() == 0,
    {
        WishlistManager {
            categories: Vec::new(),
            members: Vec::new(),
            gifts: Vec::new(),
            next_category_id: 1,
            next_gift_id: 1,
        }
    }

    /// Find the index of the category row with the given id.
    fn find_category(&self, category_id: i64) -> (r: Option<usize>)
        ensures
            match r {
                Some(i) => i < self.categories@.len() && self.categories@[i as int].id
                    == category_id,
                None => !category_present(self.categories@, category_id),
            },
    {
        let mut i: usize = 0;
        while i < self.categories.len()
            invariant
                0 <= i <= self.categories@.len(),
                forall|k: int| 0 <= k < i ==> self.categories@[k].id != category_id,
            decreases self.categories@.len() - i,
        {
            if self.categories[i].id == category_id {
                return Some(i);
            }
            i = i + 1;
        }
        None
    }

    /// Find the index of the gift row with the given id.
    fn find_gift(&self, gift_id: i64) -> (r: Option<usize>)
        ensures
            match r {
                Some(i) => i < self.gifts@.len() && self.gifts@[i as int].id == gift_id,
                None => !gift_present(self.gifts@, gift_id),
            },
    {
        let mut i: usize = 0;
        while i < self.gifts.len()
            invariant
                0 <= i <= self.gifts@.len(),
                forall|k: int| 0 <= k < i ==> self.gifts@[k].id != gift_id,
            decreases self.gifts@.len() - i,
        {
            if self.gifts[i].id == gift_id {
                return Some(i);
            }
            i = i + 1;
        }
        None
    }

    /// The user is a member of the category.
    pub fn is_my_category(&self, user_id: i64, category_id: i64) -> (r: Result<
        bool,
        WishlistManagerError,
    >)
        ensures
            r matches Ok(b) && b == is_member(self.members@, user_id, category_id),
    {
        let mut i: usize = 0;
        while i < self.members.len()
            invariant
                0 <= i <= self.members@.len(),
                forall|k: int|
                    0 <= k < i ==> !(self.members@[k].user_id == user_id
                        && self.members@[k].category_id == category_id),
            decreases self.members@.len() - i,
        {
            let row = &self.members[i];
            if row.user_id == user_id && row.category_id == category_id {
                return Ok(true);
            }
            i = i + 1;
        }
        Ok(false)
    }

    /// The gift lies in the category and the user is one of its members.
    pub fn is_my_gift(&self, user_id: i64, category_id: i64, gift_id: i64) -> (r: Result<
        bool,
        WishlistManagerError,
    >)
        requires
            self.wf(),
        ensures
            r matches Ok(b) && b == (gift_in_category(self.gifts@, gift_id, category_id)
                && is_member(self.members@, user_id, category_id)),
    {
        match self.find_gift(gift_id) {
            Some(i) => {
                proof {
                    let k = gift_index(self.gifts@, gift_id);
                    assert(self.gifts@[k].id == gift_id);
                    assert(k == i);
                }
                if self.gifts[i].category_id != category_id {
                    proof {
                        let k = gift_index(self.gifts@, gift_id);
                        if k != i {
                            assert(self.gifts@[k].id == self.gifts@[i as int].id);
                        }
                    }
                    assert(!gift_in_category(self.gifts@, gift_id, category_id));
                    return Ok(false);
                }
                proof {
                    let k = gift_index(self.gifts@, gift_id);
                    if k != i {
                        assert(self.gifts@[k].id == self.gifts@[i as int].id);
                    }
                }
                self.is_my_category(user_id, category_id)
            },
            None => Ok(false),
        }
    }

    /// The user is a member of the category the gift currently lies in.
    pub fn is_my_gift_for_edit(&self, user_id: i64, gift_id: i64) -> (r: Result<
        bool,
        WishlistManagerError,
    >)
        requires
            self.wf(),
        ensures
            r matches Ok(b) && b == (gift_present(self.gifts@, gift_id) && is_member(
                self.members@,
                user_id,
                self.gifts@[gift_index(self.gifts@, gift_id)].category_id,
            )),
    {
        match self.find_gift(gift_id) {
            Some(i) => {
                proof {
                    let k = gift_index(self.gifts@, gift_id);
                    assert(self.gifts@[k].id == gift_id);
                    assert(k == i);
                }
                self.is_my_category(user_id, self.gifts[i].category_id)
            },
            None => Ok(false),
        }
    }

    /// Someone holds a reservation on the gift.
    pub fn is_gift_reserved(&self, gift_id: i64) -> (r: Result<bool, WishlistManagerError>)
        requires
            self.wf(),
        ensures
            r matches Ok(b) && b == (gift_present(self.gifts@, gift_id) && self.gifts@[gift_index(
                self.gifts@,
                gift_id,
            )].reserved_by is Some),
    {
        match self.find_gift(gift_id) {
            Some(i) => {
                proof {
                    let k = gift_index(self.gifts@, gift_id);
                    assert(self.gifts@[k].id == gift_id);
                    assert(k == i);
                }
                Ok(self.gifts[i].reserved_by.is_some())
            },
            None => Ok(false),
        }
    }

    /// The given user holds the reservation on the gift.
    pub fn is_gift_reserved_by_me(&self, gift_id: i64, user_id: i64) -> (r: Result<
        bool,
        WishlistManagerError,
    >)
        requires
            self.wf(),
        ensures
            r matches Ok(b) && b == (gift_present(self.gifts@, gift_id) && self.gifts@[gift_index(
                self.gifts@,
                gift_id,
            )].reserved_by == Some(user_id)),
    {
        match self.find_gift(gift_id) {
            Some(i) => {
                proof {
                    let k = gift_index(self.gifts@, gift_id);
                    assert(self.gifts@[k].id == gift_id);
                    assert(k == i);
                }
                match self.gifts[i].reserved_by {
                    Some(u) => Ok(u == user_id),
                    None => Ok(false),
                }
            },
            None => Ok(false),
        }
    }

    /// Write the reservation field of the gift: `Some` claims it, `None`
    /// releases it. The callers decide who may do either.
    pub fn reserve_gift(&mut self, gift_id: i64, user_id: Option<i64>) -> (r: Result<
        (),
        WishlistManagerError,
    >)
        requires
            old(self).wf(),
        ensures
            final(self).wf(),
            r matches Ok(u),
            final(self).categories@ == old(self).categories@,
            final(self).members@ == old(self).members@,
            final(self).next_category_id == old(self).next_category_id,
            final(self).next_gift_id == old(self).next_gift_id,
            !gift_present(old(self).gifts@, gift_id) ==> final(self).gifts@ == old(self).gifts@,
            gift_present(old(self).gifts@, gift_id) ==> {
                let k = gift_index(old(self).gifts@, gift_id);
                final(self).gifts@ == old(self).gifts@.update(
                    k,
                    GiftRow { reserved_by: user_id, ..old(self).gifts@[k] },
                )
            },
    {
        match self.find_gift(gift_id) {
            Some(i) => {
                proof {
                    let k = gift_index(self.gifts@, gift_id);
                    assert(self.gifts@[k].id == gift_id);
                    assert(k == i);
                }
                let row = &self.gifts[i];
                let updated = GiftRow {
                    id: row.id,
                    name: row.name.clone(),
                    description: clone_opt_string(&row.description),
                    price: clone_opt_string(&row.price),
                    where_to_buy: clone_opt_string(&row.where_to_buy),
                    picture: clone_opt_string(&row.picture),
                    secret: row.secret,
                    heart: row.heart,
                    rank: row.rank,
                    reserved_by: user_id,
                    category_id: row.category_id,
                };
                self.gifts.set(i, updated);
                Ok(())
            },
            None => Ok(()),
        }
    }

    /// Flip the heart mark of the gift.
    pub fn change_heart_gift(&mut self, gift_id: i64) -> (r: Result<(), WishlistManagerError>)
        requires
            old(self).wf(),
        ensures
            final(self).wf(),
            r matches Ok(u),
            final(self).categories@ == old(self).categories@,
            final(self).members@ == old(self).members@,
            final(self).next_category_id == old(self).next_category_id,
            final(self).next_gift_id == old(self).next_gift_id,
            !gift_present(old(self).gifts@, gift_id) ==> final(self).gifts@ == old(self).gifts@,
            gift_present(old(self).gifts@, gift_id) ==> {
                let k = gift_index(old(self).gifts@, gift_id);
                final(self).gifts@ == old(self).gifts@.update(
                    k,
                    GiftRow { heart: !old(self).gifts@[k].heart, ..old(self).gifts@[k] },
                )
            },
    {
        match self.find_gift(gift_id) {
            Some(i) => {
                proof {
                    let k = gift_index(self.gifts@, gift_id);
                    assert(self.gifts@[k].id == gift_id);
                    assert(k == i);
                }
                let row = &self.gifts[i];
                let updated = GiftRow {
                    id: row.id,
                    name: row.name.clone(),
                    description: clone_opt_string(&row.description),
                    price: clone_opt_string(&row.price),
                    where_to_buy: clone_opt_string(&row.where_to_buy),
                    picture: clone_opt_string(&row.picture),
                    secret: row.secret,
                    heart: !row.heart,
                    rank: row.rank,
                    reserved_by: row.reserved_by,
                    category_id: row.category_id,
                };
                self.gifts.set(i, updated);
                Ok(())
            },
            None => Ok(()),
        }
    }

    /// Drop the gift row with the given id.
    pub fn delete_gift(&mut self, gift_id: i64) -> (r: Result<(), WishlistManagerError>)
        requires
            old(self).wf(),
        ensures
            final(self).wf(),
            r matches Ok(u),
            final(self).categories@ == old(self).categories@,
            final(self).members@ == old(self).members@,
            final(self).next_category_id == old(self).next_category_id,
            final(self).next_gift_id == old(self).next_gift_id,
            !gift_present(old(self).gifts@, gift_id) ==> final(self).gifts@ == old(self).gifts@,
            gift_present(old(self).gifts@, gift_id) ==> final(self).gifts@ == old(self).gifts@.remove(gift_index(old(self).gifts@, gift_id)),
    {
        match self.find_gift(gift_id) {
            Some(i) => {
                proof {
                    let k = gift_index(self.gifts@, gift_id);
                    assert(self.gifts@[k].id == gift_id);
                    assert(k == i);
                }
                self.gifts.remove(i);
                Ok(())
            },
            None => Ok(()),
        }
    }

    /// Rewrite the gift's description fields and re-file it into the given
    /// category.
    pub fn edit_gift(
        &mut self,
        gift_id: i64,
        name: &str,
        description: Option<String>,
        price: Option<String>,
        where_to_buy: Option<String>,
        picture: Option<String>,
        category_id: i64,
    ) -> (r: Result<(), WishlistManagerError>)
        requires
            old(self).wf(),
            category_present(old(self).categories@, category_id),
        ensures
            final(self).wf(),
            r matches Ok(u),
            final(self).categories@ == old(self).categories@,
            final(self).members@ == old(self).members@,
            final(self).next_category_id == old(self).next_category_id,
            final(self).next_gift_id == old(self).next_gift_id,
            !gift_present(old(self).gifts@, gift_id) ==> final(self).gifts@ == old(self).gifts@,
            gift_present(old(self).gifts@, gift_id) ==> {
                let k = gift_index(old(self).gifts@, gift_id);
                exists|g: GiftRow|
                    {
                        &&& final(self).gifts@ == #[trigger] old(self).gifts@.update(k, g)
                        &&& g.id == gift_id
                        &&& g.name@ == name@
                        &&& g.description.deep_view() == description.deep_view()
                        &&& g.price.deep_view() == price.deep_view()
                        &&& g.where_to_buy.deep_view() == where_to_buy.deep_view()
                        &&& g.picture.deep_view() == picture.deep_view()
                        &&& g.category_id == category_id
                        &&& g.secret == old(self).gifts@[k].secret
                        &&& g.heart == old(self).gifts@[k].heart
                        &&& g.rank == old(self).gifts@[k].rank
                        &&& g.reserved_by == old(self).gifts@[k].reserved_by
                    }
            },
    {
        match self.find_gift(gift_id) {
            Some(i) => {
                proof {
                    let k = gift_index(self.gifts@, gift_id);
                    assert(self.gifts@[k].id == gift_id);
                    assert(k == i);
                }
                let row = &self.gifts[i];
                let updated = GiftRow {
                    id: row.id,
                    name: name.to_owned(),
                    description,
                    price,
                    where_to_buy,
                    picture,
                    secret: row.secret,
                    heart: row.heart,
                    rank: row.rank,
                    reserved_by: row.reserved_by,
                    category_id,
                };
                self.gifts.set(i, updated);
                Ok(())
            },
            None => Ok(()),
        }
    }
}

/// The listed users, in that order, were each given a membership row of the
/// category, appended at one past their personal greatest rank.
pub open spec fn added_members(
    pre: Seq<MemberRow>,
    post: Seq<MemberRow>,
    order: Seq<i64>,
    category_id: i64,
) -> bool {
    post == pre + order.map_values(
        |u: i64| MemberRow { user_id: u, category_id, rank: appended_rank(pre, u) },
    )
}

/// What creating a category does: a fresh row at the end of the category
/// list, and a membership row appended to each listed user's own list.
pub open spec fn category_added(
    pre: WishlistManager,
    post: WishlistManager,
    cid: i64,
    name: Seq<char>,
    users: Set<i64>,
) -> bool {
    &&& cid == pre.next_category_id
    &&& post.next_category_id == pre.next_category_id + 1
    &&& post.next_gift_id == pre.next_gift_id
    &&& post.gifts@ == pre.gifts@
    &&& post.categories@.len() == pre.categories@.len() + 1
    &&& post.categories@.drop_last() == pre.categories@
    &&& post.categories@.last().id == cid
    &&& post.categories@.last().name@ == name
    &&& exists|order: Seq<i64>|
        {
            &&& #[trigger] added_members(pre.members@, post.members@, order, cid)
            &&& order.no_duplicates()
            &&& order.to_set() == users
        }
}

/// What storing a gift does: a fresh row at the end of the gift list, with
/// no heart and no reservation, ranked by `new_gift_rank`.
pub open spec fn gift_added(
    pre: WishlistManager,
    post: WishlistManager,
    gid: i64,
    name: Seq<char>,
    description: Option<Seq<char>>,
    price: Option<Seq<char>>,
    where_to_buy: Option<Seq<char>>,
    picture: Option<Seq<char>>,
    secret: bool,
    category_id: i64,
) -> bool {
    &&& gid == pre.next_gift_id
    &&& post.next_gift_id == pre.next_gift_id + 1
    &&& post.next_category_id == pre.next_category_id
    &&& post.categories@ == pre.categories@
    &&& post.members@ == pre.members@
    &&& post.gifts@.len() == pre.gifts@.len() + 1
    &&& post.gifts@.drop_last() == pre.gifts@
    &&& {
        let g = post.gifts@.last();
        &&& g.id == gid
        &&& g.name@ == name
        &&& g.description.deep_view() == description
        &&& g.price.deep_view() == price
        &&& g.where_to_buy.deep_view() == where_to_buy
        &&& g.picture.deep_view() == picture
        &&& g.secret == secret
        &&& g.heart == false
        &&& g.reserved_by is None
        &&& g.category_id == category_id
        &&& g.rank == new_gift_rank(pre.gifts@, category_id, secret)
    }
}

/// Appending rows of other users leaves a user's greatest rank alone.
proof fn lemma_max_rank_append_others(ms: Seq<MemberRow>, added: Seq<MemberRow>, user_id: i64)
    requires
        forall|k: int| 0 <= k < added.len() ==> #[trigger] added[k].user_id != user_id,
    ensures
        max_member_rank(ms + added, user_id) == max_member_rank(ms, user_id),
    decreases added.len(),
{
    if added.len() == 0 {
        assert(ms + added =~= ms);
    } else {
        lemma_max_rank_append_others(ms, added.drop_last(), user_id);
        assert((ms + added).drop_last() =~= ms + added.drop_last());
        assert((ms + added).last() == added.last());
    }
}

/// The membership rows that survive a reshare of the category: rows of
/// other categories, and rows of members who stay listed.
pub open spec fn members_kept(ms: Seq<MemberRow>, category_id: i64, keep: Set<i64>) -> Seq<
    MemberRow,
>
    decreases ms.len(),
{
    if ms.len() == 0 {
        Seq::empty()
    } else {
        let pre = members_kept(ms.drop_last(), category_id, keep);
        let r = ms.last();
        if r.category_id != category_id || keep.contains(r.user_id) {
            pre.push(r)
        } else {
            pre
        }
    }
}

/// Every surviving row was stored before.
proof fn lemma_members_kept_sub(ms: Seq<MemberRow>, category_id: i64, keep: Set<i64>)
    ensures
        forall|r: MemberRow| #[trigger] members_kept(ms, category_id, keep).contains(r)
            ==> ms.contains(r),
        members_kept(ms, category_id, keep).len() <= ms.len(),
    decreases ms.len(),
{
    if ms.len() > 0 {
        lemma_members_kept_sub(ms.drop_last(), category_id, keep);
        assert forall|r: MemberRow| #[trigger] members_kept(ms, category_id, keep).contains(
            r,
        ) implies ms.contains(r) by {
            let kept = members_kept(ms, category_id, keep);
            let w = choose|w: int| 0 <= w < kept.len() && kept[w] == r;
            let pre = members_kept(ms.drop_last(), category_id, keep);
            if w < pre.len() {
                assert(pre.contains(r));
                let v = choose|v: int| 0 <= v < pre.len() && pre[v] == r;
                assert(ms.drop_last()[choose|u: int|
                    0 <= u < ms.drop_last().len() && ms.drop_last()[u] == r] == r);
                assert(ms.drop_last().contains(r));
                let u = choose|u: int| 0 <= u < ms.drop_last().len() && ms.drop_last()[u] == r;
                assert(ms[u] == r);
            } else {
                assert(r == ms.last());
            }
        }
    }
}

/// Surviving rows stay unique if the stored ones were.
proof fn lemma_members_kept_unique(ms: Seq<MemberRow>, category_id: i64, keep: Set<i64>)
    requires
        members_unique(ms),
    ensures
        members_unique(members_kept(ms, category_id, keep)),
    decreases ms.len(),
{
    if ms.len() > 0 {
        assert(members_unique(ms.drop_last()));
        lemma_members_kept_unique(ms.drop_last(), category_id, keep);
        lemma_members_kept_sub(ms.drop_last(), category_id, keep);
        let pre = members_kept(ms.drop_last(), category_id, keep);
        let r = ms.last();
        if r.category_id != category_id || keep.contains(r.user_id) {
            assert forall|i: int, j: int|
                0 <= i < j < pre.push(r).len() implies !(pre.push(r)[i].user_id == pre.push(
                r,
            )[j].user_id && pre.push(r)[i].category_id == pre.push(r)[j].category_id) by {
                if j == pre.len() {
                    assert(pre.contains(pre[i]));
                    assert(ms.drop_last().contains(pre[i]));
                    let u = choose|u: int|
                        0 <= u < ms.drop_last().len() && ms.drop_last()[u] == pre[i];
                    assert(ms[u] == pre[i]);
                    assert(!(ms[u].user_id == r.user_id && ms[u].category_id == r.category_id));
                }
            }
        }
    }
}

/// The membership rows that survive one member leaving one category.
pub open spec fn members_without(ms: Seq<MemberRow>, user_id: i64, category_id: i64) -> Seq<
    MemberRow,
>
    decreases ms.len(),
{
    if ms.len() == 0 {
        Seq::empty()
    } else {
        let pre = members_without(ms.drop_last(), user_id, category_id);
        let r = ms.last();
        if r.user_id == user_id && r.category_id == category_id {
            pre
        } else {
            pre.push(r)
        }
    }
}

/// Every surviving row was stored before, and they stay unique.
proof fn lemma_members_without_props(ms: Seq<MemberRow>, user_id: i64, category_id: i64)
    requires
        members_unique(ms),
    ensures
        forall|r: MemberRow| #[trigger] members_without(ms, user_id, category_id).contains(r)
            ==> ms.contains(r),
        members_unique(members_without(ms, user_id, category_id)),
    decreases ms.len(),
{
    if ms.len() > 0 {
        assert(members_unique(ms.drop_last()));
        lemma_members_without_props(ms.drop_last(), user_id, category_id);
        let pre = members_without(ms.drop_last(), user_id, category_id);
        let r = ms.last();
        assert forall|x: MemberRow| #[trigger] members_without(ms, user_id, category_id).contains(
            x,
        ) implies ms.contains(x) by {
            let post = members_without(ms, user_id, category_id);
            let w = choose|w: int| 0 <= w < post.len() && post[w] == x;
            if w < pre.len() {
                assert(pre.contains(x));
                let u = choose|u: int| 0 <= u < ms.drop_last().len() && ms.drop_last()[u] == x;
                assert(ms[u] == x);
            } else {
                assert(x == r);
            }
        }
        if !(r.user_id == user_id && r.category_id == category_id) {
            assert forall|i: int, j: int|
                0 <= i < j < pre.push(r).len() implies !(pre.push(r)[i].user_id == pre.push(
                r,
            )[j].user_id && pre.push(r)[i].category_id == pre.push(r)[j].category_id) by {
                if j == pre.len() {
                    assert(pre.contains(pre[i]));
                    assert(ms.drop_last().contains(pre[i]));
                    let u = choose|u: int|
                        0 <= u < ms.drop_last().len() && ms.drop_last()[u] == pre[i];
                    assert(ms[u] == pre[i]);
                    assert(!(ms[u].user_id == r.user_id && ms[u].category_id == r.category_id));
                }
            }
        }
    }
}

/// The gift rows that survive the deletion of a category.
pub open spec fn gifts_without_category(gs: Seq<GiftRow>, category_id: i64) -> Seq<GiftRow>
    decreases gs.len(),
{
    if gs.len() == 0 {
        Seq::empty()
    } else {
        let pre = gifts_without_category(gs.drop_last(), category_id);
        let g = gs.last();
        if g.category_id == category_id {
            pre
        } else {
            pre.push(g)
        }
    }
}

/// Some membership row refers to the category.
pub open spec fn has_any_member(ms: Seq<MemberRow>, category_id: i64) -> bool {
    exists|i: int| 0 <= i < ms.len() && ms[i].category_id == category_id
}

/// The gift rows after the listed gifts are re-ranked one by one: the gift
/// at position `k` of the list gets rank `start + k`; a listed id with no
/// row is passed over.
pub open spec fn gifts_reordered(gs: Seq<GiftRow>, start: int, ids: Seq<i64>) -> Seq<GiftRow>
    decreases ids.len(),
{
    if ids.len() == 0 {
        gs
    } else {
        let pre = gifts_reordered(gs, start, ids.drop_last());
        let gid = ids.last();
        if gift_present(pre, gid) {
            pre.update(
                gift_index(pre, gid),
                GiftRow { rank: (start + ids.len() - 1) as i64, ..pre[gift_index(pre, gid)] },
            )
        } else {
            pre
        }
    }
}

/// The membership rows after the user's listed categories are re-ranked one
/// by one: the category at position `k` of the list gets rank `start + k`;
/// a listed category the user is no member of is passed over.
pub open spec fn members_reordered(
    ms: Seq<MemberRow>,
    user_id: i64,
    start: int,
    ids: Seq<i64>,
) -> Seq<MemberRow>
    decreases ids.len(),
{
    if ids.len() == 0 {
        ms
    } else {
        let pre = members_reordered(ms, user_id, start, ids.drop_last());
        let cid = ids.last();
        if is_member(pre, user_id, cid) {
            pre.update(
                member_index(pre, user_id, cid),
                MemberRow {
                    user_id,
                    category_id: cid,
                    rank: (start + ids.len() - 1) as i64,
                },
            )
        } else {
            pre
        }
    }
}

impl WishlistManager {
    /// Give the listed gifts the contiguous ranks starting at
    /// `starting_rank`, in list order; other gifts keep theirs.
    pub fn reorder_gifts(&mut self, starting_rank: usize, gifts: &[i64]) -> (r: Result<
        (),
        WishlistManagerError,
    >)
        requires
            old(self).wf(),
            starting_rank + gifts@.len() <= i64::MAX,
        ensures
            final(self).wf(),
            r matches Ok(u),
            final(self).categories@ == old(self).categories@,
            final(self).members@ == old(self).members@,
            final(self).next_category_id == old(self).next_category_id,
            final(self).next_gift_id == old(self).next_gift_id,
            final(self).gifts@ == gifts_reordered(
                old(self).gifts@,
                starting_rank as int,
                gifts@,
            ),
    {
        let n = gifts.len();
        let mut i: usize = 0;
        while i < n
            invariant
                old(self).wf(),
                starting_rank + gifts@.len() <= i64::MAX,
                n == gifts@.len(),
                0 <= i <= n,
                self.categories@ == old(self).categories@,
                self.members@ == old(self).members@,
                self.next_category_id == old(self).next_category_id,
                self.next_gift_id == old(self).next_gift_id,
                self.gifts@ == gifts_reordered(
                    old(self).gifts@,
                    starting_rank as int,
                    gifts@.take(i as int),
                ),
                self.gifts@.len() == old(self).gifts@.len(),
                forall|k: int|
                    0 <= k < self.gifts@.len() ==> #[trigger] self.gifts@[k].id == old(self).gifts@[k].id,
                self.wf(),
            decreases n - i,
        {
            let gid = gifts[i];
            proof {
                assert(gifts@.take(i + 1).drop_last() =~= gifts@.take(i as int));
                assert(gifts@.take(i + 1).last() == gifts@[i as int]);
            }
            match self.find_gift(gid) {
                Some(j) => {
                    proof {
                        let k = gift_index(self.gifts@, gid);
                        assert(self.gifts@[k].id == gid);
                        assert(k == j);
                    }
                    let rank = starting_rank as i64 + i as i64;
                    let row = &self.gifts[j];
                    let updated = GiftRow {
                        id: row.id,
                        name: row.name.clone(),
                        description: clone_opt_string(&row.description),
                        price: clone_opt_string(&row.price),
                        where_to_buy: clone_opt_string(&row.where_to_buy),
                        picture: clone_opt_string(&row.picture),
                        secret: row.secret,
                        heart: row.heart,
                        rank,
                        reserved_by: row.reserved_by,
                        category_id: row.category_id,
                    };
                    self.gifts.set(j, updated);
                },
                None => (),
            }
            i = i + 1;
        }
        proof {
            assert(gifts@.take(n as int) =~= gifts@);
        }
        Ok(())
    }

    /// Give the user's listed categories the contiguous ranks starting at
    /// `starting_rank`, in list order, touching no other member's rows.
    pub fn reorder_categories(
        &mut self,
        user_id: i64,
        starting_rank: usize,
        categories: &[i64],
    ) -> (r: Result<(), WishlistManagerError>)
        requires
            old(self).wf(),
            starting_rank + categories@.len() <= i64::MAX,
        ensures
            final(self).wf(),
            r matches Ok(u),
            final(self).categories@ == old(self).categories@,
            final(self).gifts@ == old(self).gifts@,
            final(self).next_category_id == old(self).next_category_id,
            final(self).next_gift_id == old(self).next_gift_id,
            final(self).members@ == members_reordered(
                old(self).members@,
                user_id,
                starting_rank as int,
                categories@,
            ),
    {
        let n = categories.len();
        let mut i: usize = 0;
        while i < n
            invariant
                old(self).wf(),
                starting_rank + categories@.len() <= i64::MAX,
                n == categories@.len(),
                0 <= i <= n,
                self.categories@ == old(self).categories@,
                self.gifts@ == old(self).gifts@,
                self.next_category_id == old(self).next_category_id,
                self.next_gift_id == old(self).next_gift_id,
                self.members@ == members_reordered(
                    old(self).members@,
                    user_id,
                    starting_rank as int,
                    categories@.take(i as int),
                ),
                self.members@.len() == old(self).members@.len(),
                forall|k: int|
                    0 <= k < self.members@.len() ==> #[trigger] self.members@[k].user_id == old(self).members@[k].user_id && self.members@[k].category_id == old(self).members@[k].category_id,
                self.wf(),
            decreases n - i,
        {
            let cid = categories[i];
            proof {
                assert(categories@.take(i + 1).drop_last() =~= categories@.take(i as int));
                assert(categories@.take(i + 1).last() == categories@[i as int]);
            }
            match self.find_member(user_id, cid) {
                Some(j) => {
                    proof {
                        let k = member_index(self.members@, user_id, cid);
                        assert(self.members@[k].user_id == user_id && self.members@[k].category_id
                            == cid);
                        assert(k == j);
                    }
                    let rank = starting_rank as i64 + i as i64;
                    self.members.set(j, MemberRow { user_id, category_id: cid, rank });
                },
                None => (),
            }
            i = i + 1;
        }
        proof {
            assert(categories@.take(n as int) =~= categories@);
        }
        Ok(())
    }

    /// The greatest rank among the user's membership rows, or -1.
    fn max_rank_of_user(&self, user_id: i64) -> (r: i64)
        ensures
            r as int == max_member_rank(self.members@, user_id),
    {
        let mut m: i64 = -1;
        let n = self.members.len();
        for i in 0..n
            invariant
                n == self.members@.len(),
                m as int == max_member_rank(self.members@.take(i as int), user_id),
        {
            proof {
                assert(self.members@.take(i + 1).drop_last() =~= self.members@.take(i as int));
                assert(self.members@.take(i + 1).last() == self.members@[i as int]);
            }
            let row = &self.members[i];
            if row.user_id == user_id && row.rank > m {
                m = row.rank;
            }
        }
        proof {
            assert(self.members@.take(n as int) =~= self.members@);
        }
        m
    }

    /// Append the category to each listed user's own list, at one past that
    /// user's greatest rank.
    fn add_user_to_category(&mut self, category_id: i64, users: &Vec<i64>)
        requires
            old(self).wf(),
            category_present(old(self).categories@, category_id),
            users@.no_duplicates(),
            forall|k: int|
                0 <= k < users@.len() ==> !is_member(
                    old(self).members@,
                    #[trigger] users@[k],
                    category_id,
                ),
        ensures
            final(self).wf(),
            final(self).categories@ == old(self).categories@,
            final(self).gifts@ == old(self).gifts@,
            final(self).next_category_id == old(self).next_category_id,
            final(self).next_gift_id == old(self).next_gift_id,
            added_members(old(self).members@, final(self).members@, users@, category_id),
    {
        let n = users.len();
        let mut i: usize = 0;
        while i < n
            invariant
                old(self).wf(),
                self.wf(),
                category_present(old(self).categories@, category_id),
                users@.no_duplicates(),
                forall|k: int|
                    0 <= k < users@.len() ==> !is_member(
                        old(self).members@,
                        #[trigger] users@[k],
                        category_id,
                    ),
                n == users@.len(),
                0 <= i <= n,
                self.categories@ == old(self).categories@,
                self.gifts@ == old(self).gifts@,
                self.next_category_id == old(self).next_category_id,
                self.next_gift_id == old(self).next_gift_id,
                added_members(
                    old(self).members@,
                    self.members@,
                    users@.take(i as int),
                    category_id,
                ),
            decreases n - i,
        {
            let u = users[i];
            let ghost added = users@.take(i as int).map_values(
                |v: i64|
                    MemberRow {
                        user_id: v,
                        category_id,
                        rank: appended_rank(old(self).members@, v),
                    },
            );
            proof {
                assert(self.members@ == old(self).members@ + added);
                assert forall|k: int| 0 <= k < added.len() implies #[trigger] added[k].user_id
                    != u by {
                    assert(added[k].user_id == users@.take(i as int)[k]);
                    assert(users@[k] != users@[i as int]);
                }
                lemma_max_rank_append_others(old(self).members@, added, u);
            }
            let m = self.max_rank_of_user(u);
            let rank = if m == i64::MAX {
                i64::MAX
            } else {
                m + 1
            };
            let row = MemberRow { user_id: u, category_id, rank };
            proof {
                assert(rank == appended_rank(old(self).members@, u));
                assert forall|k: int| 0 <= k < self.members@.len() implies !(
                #[trigger] self.members@[k].user_id == u && self.members@[k].category_id
                    == category_id) by {
                    if k < old(self).members@.len() {
                        assert(old(self).members@[k] == self.members@[k]);
                        assert(!is_member(old(self).members@, users@[i as int], category_id));
                    } else {
                        assert(self.members@[k] == added[k - old(self).members@.len()]);
                    }
                }
            }
            self.members.push(row);
            proof {
                assert(users@.take(i + 1).drop_last() =~= users@.take(i as int));
                assert(users@.take(i + 1).last() == users@[i as int]);
                assert(users@.take(i + 1).map_values(
                    |v: i64|
                        MemberRow {
                            user_id: v,
                            category_id,
                            rank: appended_rank(old(self).members@, v),
                        },
                ) =~= added.push(row));
                assert(self.members@ =~= old(self).members@ + added.push(row));
            }
            i = i + 1;
        }
        proof {
            assert(users@.take(n as int) =~= users@);
        }
    }

    /// Create a category and give each listed user a membership row of it,
    /// appended to the end of their personal list.
    pub fn add_category(&mut self, name: &str, user_ids: HashSet<i64>) -> (r: Result<
        i64,
        WishlistManagerError,
    >)
        requires
            old(self).wf(),
        ensures
            final(self).wf(),
            old(self).next_category_id == i64::MAX ==> *final(self) == *old(self) && (
            r matches Err(WishlistManagerError::Storage)),
            old(self).next_category_id < i64::MAX ==> (r matches Ok(cid) && category_added(
                *old(self),
                *final(self),
                cid,
                name@,
                user_ids@,
            )),
    {
        if self.next_category_id == i64::MAX {
            return Err(WishlistManagerError::Storage);
        }
        let cid = self.next_category_id;
        self.categories.push(CategoryRow { id: cid, name: name.to_owned() });
        self.next_category_id = cid + 1;
        let ids = set_to_vec(&user_ids);
        proof {
            let cats1 = self.categories@;
            assert(cats1.drop_last() =~= old(self).categories@);
            assert forall|m: int| 0 <= m < self.members@.len() implies category_present(
                cats1,
                #[trigger] self.members@[m].category_id,
            ) by {
                assert(category_present(old(self).categories@, self.members@[m].category_id));
                let w = category_index(old(self).categories@, self.members@[m].category_id);
                assert(cats1[w].id == self.members@[m].category_id);
            }
            assert forall|m: int| 0 <= m < self.gifts@.len() implies category_present(
                cats1,
                #[trigger] self.gifts@[m].category_id,
            ) by {
                assert(category_present(old(self).categories@, self.gifts@[m].category_id));
                let w = category_index(old(self).categories@, self.gifts@[m].category_id);
                assert(cats1[w].id == self.gifts@[m].category_id);
            }
            assert(self.wf());
        }
        proof {
            assert forall|k: int| 0 <= k < ids@.len() implies !is_member(
                self.members@,
                #[trigger] ids@[k],
                cid,
            ) by {
                assert(forall|m: int|
                    0 <= m < self.members@.len() ==> #[trigger] self.members@[m].category_id
                        != cid);
            }
            assert(self.categories@.last().id == cid);
        }
        self.add_user_to_category(cid, &ids);
        Ok(cid)
    }

    /// The greatest rank in the category's gift partition, or -1.
    fn max_rank_of_gifts(&self, category_id: i64, secret: bool) -> (r: i64)
        ensures
            r as int == max_gift_rank(self.gifts@, category_id, secret),
    {
        let mut m: i64 = -1;
        let n = self.gifts.len();
        for i in 0..n
            invariant
                n == self.gifts@.len(),
                m as int == max_gift_rank(self.gifts@.take(i as int), category_id, secret),
        {
            proof {
                assert(self.gifts@.take(i + 1).drop_last() =~= self.gifts@.take(i as int));
                assert(self.gifts@.take(i + 1).last() == self.gifts@[i as int]);
            }
            let row = &self.gifts[i];
            if row.category_id == category_id && (secret || row.rank < SECRET_RANK_BASE)
                && row.rank > m {
                m = row.rank;
            }
        }
        proof {
            assert(self.gifts@.take(n as int) =~= self.gifts@);
        }
        m
    }

    /// Store a new gift in the category: a public gift goes one past the
    /// public partition's greatest rank, a secret gift one past the whole
    /// category's greatest, starting the secret partition at its base.
    pub fn add_gift(
        &mut self,
        name: &str,
        description: Option<String>,
        price: Option<String>,
        where_to_buy: Option<String>,
        picture: Option<String>,
        secret: bool,
        category_id: i64,
    ) -> (r: Result<i64, WishlistManagerError>)
        requires
            old(self).wf(),
            category_present(old(self).categories@, category_id),
        ensures
            final(self).wf(),
            old(self).next_gift_id == i64::MAX ==> *final(self) == *old(self) && (r matches Err(
                WishlistManagerError::Storage,
            )),
            old(self).next_gift_id < i64::MAX ==> (r matches Ok(gid) && gift_added(
                *old(self),
                *final(self),
                gid,
                name@,
                description.deep_view(),
                price.deep_view(),
                where_to_buy.deep_view(),
                picture.deep_view(),
                secret,
                category_id,
            )),
    {
        if self.next_gift_id == i64::MAX {
            return Err(WishlistManagerError::Storage);
        }
        let m = self.max_rank_of_gifts(category_id, secret);
        let rank = if secret && m < SECRET_RANK_BASE {
            SECRET_RANK_BASE
        } else if m == i64::MAX {
            i64::MAX
        } else {
            m + 1
        };
        let gid = self.next_gift_id;
        let ghost d0 = description.deep_view();
        let ghost p0 = price.deep_view();
        let ghost w0 = where_to_buy.deep_view();
        let ghost pic0 = picture.deep_view();
        self.gifts.push(
            GiftRow {
                id: gid,
                name: name.to_owned(),
                description,
                price,
                where_to_buy,
                picture,
                secret,
                heart: false,
                rank,
                reserved_by: None,
                category_id,
            },
        );
        self.next_gift_id = gid + 1;
        proof {
            assert(self.gifts@.drop_last() =~= old(self).gifts@);
            assert(gift_added(
                *old(self),
                *self,
                gid,
                name@,
                d0,
                p0,
                w0,
                pic0,
                secret,
                category_id,
            ));
        }
        Ok(gid)
    }

    /// Find the index of the user's membership row of the category.
    fn find_member(&self, user_id: i64, category_id: i64) -> (r: Option<usize>)
        ensures
            match r {
                Some(i) => i < self.members@.len() && self.members@[i as int].user_id == user_id
                    && self.members@[i as int].category_id == category_id,
                None => !is_member(self.members@, user_id, category_id),
            },
    {
        let mut i: usize = 0;
        while i < self.members.len()
            invariant
                0 <= i <= self.members@.len(),
                forall|k: int|
                    0 <= k < i ==> !(self.members@[k].user_id == user_id
                        && self.members@[k].category_id == category_id),
            decreases self.members@.len() - i,
        {
            let row = &self.members[i];
            if row.user_id == user_id && row.category_id == category_id {
                return Some(i);
            }
            i = i + 1;
        }
        None
    }
}

impl WishlistManager {
    /// Rename a category and reshare it: newly listed friends are appended
    /// to their own lists, members no longer listed lose their row, and the
    /// remaining members' rows — and ranks — stay untouched.
    pub fn edit_category(&mut self, category_id: i64, name: &str, user_ids: HashSet<i64>) -> (r:
        Result<(), WishlistManagerError>)
        requires
            old(self).wf(),
            category_present(old(self).categories@, category_id),
        ensures
            final(self).wf(),
            r matches Ok(u),
            final(self).gifts@ == old(self).gifts@,
            final(self).next_category_id == old(self).next_category_id,
            final(self).next_gift_id == old(self).next_gift_id,
            exists|c: CategoryRow|
                {
                    &&& final(self).categories@ == #[trigger] old(self).categories@.update(
                        category_index(old(self).categories@, category_id),
                        c,
                    )
                    &&& c.id == category_id
                    &&& c.name@ == name@
                },
            exists|order: Seq<i64>|
                {
                    &&& #[trigger] added_members(
                        members_kept(old(self).members@, category_id, user_ids@),
                        final(self).members@,
                        order,
                        category_id,
                    )
                    &&& order.no_duplicates()
                    &&& forall|u: i64|
                        order.contains(u) <==> (user_ids@.contains(u) && !is_member(
                            old(self).members@,
                            u,
                            category_id,
                        ))
                },
    {
        broadcast use vstd::seq_lib::group_seq_properties;

        let cidx = match self.find_category(category_id) {
            Some(i) => i,
            None => {
                proof {
                    assert(false);
                }
                return Err(WishlistManagerError::Storage);
            },
        };
        proof {
            let k = category_index(self.categories@, category_id);
            assert(self.categories@[k].id == category_id);
            assert(k == cidx);
        }
        self.categories.set(cidx, CategoryRow { id: category_id, name: name.to_owned() });

        let all = set_to_vec(&user_ids);
        let mut to_add: Vec<i64> = Vec::new();
        let n = all.len();
        for i in 0..n
            invariant
                n == all@.len(),
                all@.no_duplicates(),
                all@.to_set() == user_ids@,
                self.members@ == old(self).members@,
                to_add@.no_duplicates(),
                forall|v: i64|
                    to_add@.contains(v) <==> (all@.take(i as int).contains(v) && !is_member(
                        old(self).members@,
                        v,
                        category_id,
                    )),
        {
            let u = all[i];
            let already = match self.is_my_category(u, category_id) {
                Ok(b) => b,
                Err(_) => false,
            };
            proof {
                assert(all@.take(i + 1).drop_last() =~= all@.take(i as int));
                assert(all@.take(i + 1).last() == all@[i as int]);
                assert forall|v: i64| #[trigger] all@.take(i + 1).contains(v) implies (v
                    == all@[i as int] || all@.take(i as int).contains(v)) by {
                    let w = choose|w: int|
                        0 <= w < all@.take(i + 1).len() && #[trigger] all@.take(i + 1)[w] == v;
                    if w < i as int {
                        assert(all@.take(i as int)[w] == v);
                    }
                }
                assert forall|v: i64| #[trigger] all@.take(i as int).contains(v) implies all@.take(
                    i + 1,
                ).contains(v) by {
                    let w = choose|w: int|
                        0 <= w < all@.take(i as int).len() && #[trigger] all@.take(i as int)[w]
                            == v;
                    assert(all@.take(i + 1)[w] == v);
                }
                assert(!all@.take(i as int).contains(all@[i as int])) by {
                    if all@.take(i as int).contains(all@[i as int]) {
                        let w = choose|w: int|
                            0 <= w < i as int && #[trigger] all@.take(i as int)[w] == all@[
                                i as int
                            ];
                        assert(all@[w] == all@[i as int]);
                    }
                }
                assert(all@.take(i + 1).contains(all@[i as int])) by {
                    assert(all@.take(i + 1)[i as int] == all@[i as int]);
                }
            }
            let ghost ta0 = to_add@;
            if !already {
                to_add.push(u);
            }
            proof {
                assert(!ta0.contains(u));
                if !already {
                    assert(to_add@ == ta0.push(u));
                    assert forall|v: i64| #[trigger] to_add@.contains(v) implies (ta0.contains(v)
                        || v == u) by {
                        let w = choose|w: int|
                            0 <= w < to_add@.len() && #[trigger] to_add@[w] == v;
                        if w < ta0.len() {
                            assert(ta0[w] == v);
                        }
                    }
                    assert(forall|v: i64|
                        ta0.contains(v) ==> #[trigger] to_add@.contains(v)) by {
                        assert forall|v: i64| #[trigger] ta0.contains(v) implies to_add@.contains(
                            v,
                        ) by {
                            let w = choose|w: int|
                                0 <= w < ta0.len() && #[trigger] ta0[w] == v;
                            assert(to_add@[w] == v);
                        }
                    }
                    assert(to_add@.contains(u)) by {
                        assert(to_add@[ta0.len() as int] == u);
                    }
                    assert forall|a: int, b: int| 0 <= a < b < to_add@.len() implies to_add@[a]
                        != to_add@[b] by {
                        if b == ta0.len() as int {
                            assert(ta0.contains(ta0[a]));
                        }
                    }
                }
            }
        }
        proof {
            assert(all@.take(n as int) =~= all@);
        }

        let mut kept: Vec<MemberRow> = Vec::new();
        let m = self.members.len();
        let ghost rows = self.members@;
        for i in 0..m
            invariant
                m == self.members@.len(),
                self.members@ == rows,
                kept@ == members_kept(rows.take(i as int), category_id, user_ids@),
        {
            let row = self.members[i];
            proof {
                assert(rows.take(i + 1).drop_last() =~= rows.take(i as int));
                assert(rows.take(i + 1).last() == rows[i as int]);
            }
            if row.category_id != category_id || user_ids.contains(&row.user_id) {
                kept.push(row);
            }
        }
        proof {
            assert(rows.take(m as int) =~= rows);
        }
        self.members = kept;

        proof {
            lemma_members_kept_sub(old(self).members@, category_id, user_ids@);
            lemma_members_kept_unique(old(self).members@, category_id, user_ids@);
            let cats1 = self.categories@;
            assert forall|k: int| 0 <= k < self.members@.len() implies category_present(
                cats1,
                #[trigger] self.members@[k].category_id,
            ) by {
                assert(self.members@.contains(self.members@[k]));
                assert(old(self).members@.contains(self.members@[k]));
                let u = choose|u: int|
                    0 <= u < old(self).members@.len() && old(self).members@[u]
                        == self.members@[k];
                assert(category_present(old(self).categories@, old(self).members@[u].category_id));
                let w = category_index(old(self).categories@, old(self).members@[u].category_id);
                assert(cats1[w].id == self.members@[k].category_id);
            }
            assert forall|k: int| 0 <= k < self.gifts@.len() implies category_present(
                cats1,
                #[trigger] self.gifts@[k].category_id,
            ) by {
                assert(category_present(old(self).categories@, self.gifts@[k].category_id));
                let w = category_index(old(self).categories@, self.gifts@[k].category_id);
                assert(cats1[w].id == self.gifts@[k].category_id);
            }
            assert(self.wf());
            assert(self.categories@[cidx as int].id == category_id);
            assert(category_present(self.categories@, category_id));
            assert forall|k: int| 0 <= k < to_add@.len() implies !is_member(
                self.members@,
                #[trigger] to_add@[k],
                category_id,
            ) by {
                assert(to_add@.contains(to_add@[k]));
                assert(!is_member(old(self).members@, to_add@[k], category_id));
                if is_member(self.members@, to_add@[k], category_id) {
                    let w = member_index(self.members@, to_add@[k], category_id);
                    assert(self.members@.contains(self.members@[w]));
                    assert(old(self).members@.contains(self.members@[w]));
                    let u = choose|u: int|
                        0 <= u < old(self).members@.len() && old(self).members@[u]
                            == self.members@[w];
                    assert(old(self).members@[u].user_id == to_add@[k]
                        && old(self).members@[u].category_id == category_id);
                }
            }
        }
        self.add_user_to_category(category_id, &to_add);
        Ok(())
    }

    /// Take the user out of the category; a category left with no member is
    /// dropped together with all its gifts.
    pub fn delete_category(&mut self, user_id: i64, category_id: i64) -> (r: Result<
        (),
        WishlistManagerError,
    >)
        requires
            old(self).wf(),
        ensures
            final(self).wf(),
            r matches Ok(u),
            final(self).next_category_id == old(self).next_category_id,
            final(self).next_gift_id == old(self).next_gift_id,
            final(self).members@ == members_without(old(self).members@, user_id, category_id),
            has_any_member(final(self).members@, category_id) ==> final(self).categories@ == old(self).categories@ && final(self).gifts@ == old(self).gifts@,
            !has_any_member(final(self).members@, category_id) ==> {
                &&& final(self).gifts@ == gifts_without_category(old(self).gifts@, category_id)
                &&& category_present(old(self).categories@, category_id) ==> final(self).categories@ == old(self).categories@.remove(
                    category_index(old(self).categories@, category_id),
                )
                &&& !category_present(old(self).categories@, category_id) ==> final(self).categories@ == old(self).categories@
            },
    {
        let mut kept: Vec<MemberRow> = Vec::new();
        let m = self.members.len();
        let ghost rows = self.members@;
        for i in 0..m
            invariant
                m == self.members@.len(),
                self.members@ == rows,
                kept@ == members_without(rows.take(i as int), user_id, category_id),
        {
            let row = self.members[i];
            proof {
                assert(rows.take(i + 1).drop_last() =~= rows.take(i as int));
                assert(rows.take(i + 1).last() == rows[i as int]);
            }
            if !(row.user_id == user_id && row.category_id == category_id) {
                kept.push(row);
            }
        }
        proof {
            assert(rows.take(m as int) =~= rows);
            lemma_members_without_props(rows, user_id, category_id);
        }
        self.members = kept;

        let remaining = match self.find_member_of_category(category_id) {
            Some(_) => true,
            None => false,
        };
        if remaining {
            proof {
                assert forall|k: int| 0 <= k < self.members@.len() implies category_present(
                    self.categories@,
                    #[trigger] self.members@[k].category_id,
                ) by {
                    assert(self.members@.contains(self.members@[k]));
                    assert(old(self).members@.contains(self.members@[k]));
                    let u = choose|u: int|
                        0 <= u < old(self).members@.len() && old(self).members@[u]
                            == self.members@[k];
                }
            }
            return Ok(());
        }

        let mut gkept: Vec<GiftRow> = Vec::new();
        let gn = self.gifts.len();
        let ghost grows = self.gifts@;
        let mut gi: usize = 0;
        while gi < gn
            invariant
                gn == self.gifts@.len(),
                self.gifts@ == grows,
                0 <= gi <= gn,
                gkept@ == gifts_without_category(grows.take(gi as int), category_id),
            decreases gn - gi,
        {
            proof {
                assert(grows.take(gi + 1).drop_last() =~= grows.take(gi as int));
                assert(grows.take(gi + 1).last() == grows[gi as int]);
            }
            let row = &self.gifts[gi];
            if row.category_id != category_id {
                let copy = GiftRow {
                    id: row.id,
                    name: row.name.clone(),
                    description: clone_opt_string(&row.description),
                    price: clone_opt_string(&row.price),
                    where_to_buy: clone_opt_string(&row.where_to_buy),
                    picture: clone_opt_string(&row.picture),
                    secret: row.secret,
                    heart: row.heart,
                    rank: row.rank,
                    reserved_by: row.reserved_by,
                    category_id: row.category_id,
                };
                assert(copy == grows.take(gi + 1).last());
                gkept.push(copy);
            }
            gi = gi + 1;
        }
        proof {
            assert(grows.take(gn as int) =~= grows);
        }
        self.gifts = gkept;

        match self.find_category(category_id) {
            Some(ci) => {
                proof {
                    let k = category_index(self.categories@, category_id);
                    assert(self.categories@[k].id == category_id);
                    assert(k == ci);
                }
                self.categories.remove(ci);
            },
            None => (),
        }
        proof {
            lemma_delete_category_wf(*old(self), *self, user_id, category_id);
        }
        Ok(())
    }

    /// Find any membership row of the category.
    fn find_member_of_category(&self, category_id: i64) -> (r: Option<usize>)
        ensures
            match r {
                Some(i) => i < self.members@.len() && self.members@[i as int].category_id
                    == category_id,
                None => !has_any_member(self.members@, category_id),
            },
    {
        let mut i: usize = 0;
        while i < self.members.len()
            invariant
                0 <= i <= self.members@.len(),
                forall|k: int| 0 <= k < i ==> self.members@[k].category_id != category_id,
            decreases self.members@.len() - i,
        {
            if self.members[i].category_id == category_id {
                return Some(i);
            }
            i = i + 1;
        }
        None
    }
}

/// After a category is dropped with its gifts and stray membership rows,
/// the store is well formed again.
proof fn lemma_delete_category_wf(
    pre: WishlistManager,
    post: WishlistManager,
    user_id: i64,
    category_id: i64,
)
    requires
        pre.wf(),
        post.members@ == members_without(pre.members@, user_id, category_id),
        !has_any_member(post.members@, category_id),
        post.gifts@ == gifts_without_category(pre.gifts@, category_id),
        category_present(pre.categories@, category_id) ==> post.categories@
            == pre.categories@.remove(category_index(pre.categories@, category_id)),
        !category_present(pre.categories@, category_id) ==> post.categories@ == pre.categories@,
        post.next_category_id == pre.next_category_id,
        post.next_gift_id == pre.next_gift_id,
    ensures
        post.wf(),
{
    lemma_members_without_props(pre.members@, user_id, category_id);
    lemma_gifts_without_category_props(pre.gifts@, category_id);
    assert forall|k: int| 0 <= k < post.categories@.len() implies 1
        <= #[trigger] post.categories@[k].id < post.next_category_id by {
        if category_present(pre.categories@, category_id) {
            let ci = category_index(pre.categories@, category_id);
            if k < ci {
                assert(post.categories@[k] == pre.categories@[k]);
            } else {
                assert(post.categories@[k] == pre.categories@[k + 1]);
            }
        }
    }
    assert forall|i: int, j: int| 0 <= i < j < post.categories@.len() implies post.categories@[i].id
        != post.categories@[j].id by {
        if category_present(pre.categories@, category_id) {
            let ci = category_index(pre.categories@, category_id);
            let pi: int = if i < ci {
                i
            } else {
                i + 1
            };
            let pj: int = if j < ci {
                j
            } else {
                j + 1
            };
            assert(post.categories@[i] == pre.categories@[pi]);
            assert(post.categories@[j] == pre.categories@[pj]);
        }
    }
    assert forall|k: int| 0 <= k < post.members@.len() implies category_present(
        post.categories@,
        #[trigger] post.members@[k].category_id,
    ) by {
        assert(post.members@.contains(post.members@[k]));
        assert(pre.members@.contains(post.members@[k]));
        let u = choose|u: int| 0 <= u < pre.members@.len() && pre.members@[u] == post.members@[k];
        assert(category_present(pre.categories@, pre.members@[u].category_id));
        let w = category_index(pre.categories@, pre.members@[u].category_id);
        assert(post.members@[k].category_id != category_id);
        if category_present(pre.categories@, category_id) {
            let ci = category_index(pre.categories@, category_id);
            assert(pre.categories@[ci].id == category_id);
            assert(w != ci);
            if w < ci {
                assert(post.categories@[w].id == post.members@[k].category_id);
            } else {
                assert(post.categories@[w - 1].id == post.members@[k].category_id);
            }
        }
    }
    assert forall|k: int| 0 <= k < post.gifts@.len() implies category_present(
        post.categories@,
        #[trigger] post.gifts@[k].category_id,
    ) by {
        assert(post.gifts@.contains(post.gifts@[k]));
        assert(pre.gifts@.contains(post.gifts@[k]));
        let u = choose|u: int| 0 <= u < pre.gifts@.len() && pre.gifts@[u] == post.gifts@[k];
        assert(category_present(pre.categories@, pre.gifts@[u].category_id));
        let w = category_index(pre.categories@, pre.gifts@[u].category_id);
        assert(post.gifts@[k].category_id != category_id);
        if category_present(pre.categories@, category_id) {
            let ci = category_index(pre.categories@, category_id);
            assert(pre.categories@[ci].id == category_id);
            assert(w != ci);
            if w < ci {
                assert(post.categories@[w].id == post.gifts@[k].category_id);
            } else {
                assert(post.categories@[w - 1].id == post.gifts@[k].category_id);
            }
        }
    }
    assert forall|i: int, j: int| 0 <= i < j < post.gifts@.len() implies post.gifts@[i].id
        != post.gifts@[j].id by {
        lemma_gifts_without_category_unique(pre.gifts@, category_id, i, j);
    }
    assert forall|k: int| 0 <= k < post.gifts@.len() implies 1 <= #[trigger] post.gifts@[k].id
        < post.next_gift_id by {
        assert(post.gifts@.contains(post.gifts@[k]));
        assert(pre.gifts@.contains(post.gifts@[k]));
        let u = choose|u: int| 0 <= u < pre.gifts@.len() && pre.gifts@[u] == post.gifts@[k];
    }
}

/// Every gift row surviving a category deletion was stored before, keeps a
/// category other than the dropped one, and no two surviving rows collapse.
proof fn lemma_gifts_without_category_props(gs: Seq<GiftRow>, category_id: i64)
    ensures
        forall|g: GiftRow| #[trigger] gifts_without_category(gs, category_id).contains(g)
            ==> gs.contains(g) && g.category_id != category_id,
    decreases gs.len(),
{
    if gs.len() > 0 {
        lemma_gifts_without_category_props(gs.drop_last(), category_id);
        assert forall|g: GiftRow| #[trigger] gifts_without_category(gs, category_id).contains(
            g,
        ) implies gs.contains(g) && g.category_id != category_id by {
            let post = gifts_without_category(gs, category_id);
            let w = choose|w: int| 0 <= w < post.len() && post[w] == g;
            let pre = gifts_without_category(gs.drop_last(), category_id);
            if w < pre.len() {
                assert(pre.contains(g));
                let u = choose|u: int| 0 <= u < gs.drop_last().len() && gs.drop_last()[u] == g;
                assert(gs[u] == g);
            } else {
                assert(g == gs.last());
            }
        }
    }
}

/// Distinct surviving positions come from distinct stored rows, so their
/// ids differ when the stored ids did.
proof fn lemma_gifts_without_category_unique(gs: Seq<GiftRow>, category_id: i64, i: int, j: int)
    requires
        forall|a: int, b: int| 0 <= a < b < gs.len() ==> gs[a].id != gs[b].id,
        0 <= i < j < gifts_without_category(gs, category_id).len(),
    ensures
        gifts_without_category(gs, category_id)[i].id != gifts_without_category(
            gs,
            category_id,
        )[j].id,
    decreases gs.len(),
{
    if gs.len() > 0 {
        let pre = gifts_without_category(gs.drop_last(), category_id);
        let post = gifts_without_category(gs, category_id);
        let g = gs.last();
        if g.category_id == category_id {
            lemma_gifts_without_category_unique(gs.drop_last(), category_id, i, j);
        } else {
            if j < pre.len() {
                lemma_gifts_without_category_unique(gs.drop_last(), category_id, i, j);
            } else {
                assert(post[j] == g);
                lemma_gifts_without_category_props(gs.drop_last(), category_id);
                assert(pre.contains(pre[i]));
                assert(gs.drop_last().contains(pre[i]));
                let u = choose|u: int| 0 <= u < gs.drop_last().len() && gs.drop_last()[u] == pre[i];
                assert(gs[u] == pre[i]);
                assert(gs[u].id != g.id);
            }
        }
    }
}

/// The user's membership rows as rank-and-index pairs, in storage order.
pub open spec fn member_pairs(ms: Seq<MemberRow>, user_id: i64) -> Seq<Ranked>
    decreases ms.len(),
{
    if ms.len() == 0 {
        Seq::empty()
    } else {
        let pre = member_pairs(ms.drop_last(), user_id);
        if ms.last().user_id == user_id {
            pre.push((ms.last().rank, (ms.len() - 1) as usize))
        } else {
            pre
        }
    }
}

/// Among the first `k` membership rows, the target's rows for categories
/// the viewer is no member of, as rank-and-index pairs.
pub open spec fn friend_pairs_upto(
    ms: Seq<MemberRow>,
    k: int,
    target: i64,
    viewer: i64,
) -> Seq<Ranked>
    decreases k,
{
    if k <= 0 {
        Seq::empty()
    } else {
        let pre = friend_pairs_upto(ms, k - 1, target, viewer);
        if 0 <= k - 1 < ms.len() && ms[k - 1].user_id == target && !is_member(
            ms,
            viewer,
            ms[k - 1].category_id,
        ) {
            pre.push((ms[k - 1].rank, (k - 1) as usize))
        } else {
            pre
        }
    }
}

/// The target's categories hidden from the viewer's own view, as
/// rank-and-index pairs.
pub open spec fn friend_member_pairs(ms: Seq<MemberRow>, target: i64, viewer: i64) -> Seq<Ranked> {
    friend_pairs_upto(ms, ms.len() as int, target, viewer)
}

/// The category's gifts, in one or both rank partitions, as rank-and-index
/// pairs in storage order.
pub open spec fn gift_pairs(gs: Seq<GiftRow>, category_id: i64, include_secret: bool) -> Seq<
    Ranked,
>
    decreases gs.len(),
{
    if gs.len() == 0 {
        Seq::empty()
    } else {
        let pre = gift_pairs(gs.drop_last(), category_id, include_secret);
        let g = gs.last();
        if g.category_id == category_id && (include_secret || !g.secret) {
            pre.push((g.rank, (gs.len() - 1) as usize))
        } else {
            pre
        }
    }
}

/// The other members of the category, in storage order.
pub open spec fn share_with_of(ms: Seq<MemberRow>, category_id: i64, user_id: i64) -> Seq<i64>
    decreases ms.len(),
{
    if ms.len() == 0 {
        Seq::empty()
    } else {
        let pre = share_with_of(ms.drop_last(), category_id, user_id);
        let r = ms.last();
        if r.category_id == category_id && r.user_id != user_id {
            pre.push(r.user_id)
        } else {
            pre
        }
    }
}

/// The reported gift carries the stored row's public fields.
pub open spec fn gift_matches(g: GiftRow, d: Gift) -> bool {
    &&& d.id == g.id
    &&& d.name@ == g.name@
    &&& d.description.deep_view() == g.description.deep_view()
    &&& d.price.deep_view() == g.price.deep_view()
    &&& d.where_to_buy.deep_view() == g.where_to_buy.deep_view()
    &&& d.picture.deep_view() == g.picture.deep_view()
    &&& d.heart == g.heart
}

/// The reported gift carries the stored row's fields, secrecy and
/// reservation included.
pub open spec fn friend_gift_matches(g: GiftRow, d: FriendGift) -> bool {
    &&& d.id == g.id
    &&& d.name@ == g.name@
    &&& d.description.deep_view() == g.description.deep_view()
    &&& d.price.deep_view() == g.price.deep_view()
    &&& d.where_to_buy.deep_view() == g.where_to_buy.deep_view()
    &&& d.picture.deep_view() == g.picture.deep_view()
    &&& d.heart == g.heart
    &&& d.secret == g.secret
    &&& d.reserved_by == g.reserved_by
}

/// What the own view reports of the category behind membership row `midx`:
/// its name, the other members, and its public gifts in rank order.
pub open spec fn own_category_matches(
    s: WishlistManager,
    user_id: i64,
    midx: int,
    c: Category,
) -> bool {
    let cid = s.members@[midx].category_id;
    let gp = sort_ranked(gift_pairs(s.gifts@, cid, false));
    &&& c.id == cid
    &&& c.name@ == s.categories@[category_index(s.categories@, cid)].name@
    &&& c.share_with@ == share_with_of(s.members@, cid, user_id)
    &&& c.gifts@.len() == gp.len()
    &&& forall|j: int|
        0 <= j < gp.len() ==> gift_matches(s.gifts@[gp[j].1 as int], #[trigger] c.gifts@[j])
}

/// What the own view reports: the user's categories in their personal rank
/// order, each as `own_category_matches` says.
pub open spec fn own_wishlist_matches(s: WishlistManager, user_id: i64, w: WishList) -> bool {
    let pairs = sort_ranked(member_pairs(s.members@, user_id));
    &&& w.categories@.len() == pairs.len()
    &&& forall|k: int|
        0 <= k < pairs.len() ==> own_category_matches(
            s,
            user_id,
            pairs[k].1 as int,
            #[trigger] w.categories@[k],
        )
}

/// What the friend view reports of the category behind membership row
/// `midx`: its name and all its gifts, secret ones included, in rank order.
pub open spec fn friend_category_matches(s: WishlistManager, midx: int, c: FriendCategory) -> bool {
    let cid = s.members@[midx].category_id;
    let gp = sort_ranked(gift_pairs(s.gifts@, cid, true));
    &&& c.id == cid
    &&& c.name@ == s.categories@[category_index(s.categories@, cid)].name@
    &&& c.gifts@.len() == gp.len()
    &&& forall|j: int|
        0 <= j < gp.len() ==> friend_gift_matches(s.gifts@[gp[j].1 as int], #[trigger] c.gifts@[j])
}

/// What the friend view reports: the target's categories the viewer is no
/// member of, in the target's rank order, each as
/// `friend_category_matches` says.
pub open spec fn friend_wishlist_matches(
    s: WishlistManager,
    viewer: i64,
    target: i64,
    w: FriendWishList,
) -> bool {
    let pairs = sort_ranked(friend_member_pairs(s.members@, target, viewer));
    &&& w.categories@.len() == pairs.len()
    &&& forall|k: int|
        0 <= k < pairs.len() ==> friend_category_matches(
            s,
            pairs[k].1 as int,
            #[trigger] w.categories@[k],
        )
}

/// Every rank-and-index pair of the user's membership rows points at one of
/// their rows and carries its rank.
pub(crate) proof fn lemma_member_pairs_elems(ms: Seq<MemberRow>, user_id: i64)
    requires
        ms.len() <= usize::MAX,
    ensures
        forall|p: Ranked| #[trigger] member_pairs(ms, user_id).contains(p) ==> p.1 < ms.len()
            && ms[p.1 as int].user_id == user_id && ms[p.1 as int].rank == p.0,
    decreases ms.len(),
{
    if ms.len() > 0 {
        lemma_member_pairs_elems(ms.drop_last(), user_id);
        assert forall|p: Ranked| #[trigger] member_pairs(ms, user_id).contains(p) implies p.1
            < ms.len() && ms[p.1 as int].user_id == user_id && ms[p.1 as int].rank == p.0 by {
            let post = member_pairs(ms, user_id);
            let pre = member_pairs(ms.drop_last(), user_id);
            let w = choose|w: int| 0 <= w < post.len() && post[w] == p;
            if w < pre.len() {
                assert(pre.contains(p));
                assert(ms.drop_last()[p.1 as int] == ms[p.1 as int]);
            }
        }
    }
}

/// Every rank-and-index pair of the hidden-category filter points at a row
/// of the target for a category the viewer is no member of.
pub(crate) proof fn lemma_friend_pairs_elems(ms: Seq<MemberRow>, k: int, target: i64, viewer: i64)
    requires
        k <= ms.len(),
        ms.len() <= usize::MAX,
    ensures
        forall|p: Ranked| #[trigger] friend_pairs_upto(ms, k, target, viewer).contains(p) ==> p.1
            < ms.len() && ms[p.1 as int].user_id == target && !is_member(
            ms,
            viewer,
            ms[p.1 as int].category_id,
        ) && ms[p.1 as int].rank == p.0,
    decreases k,
{
    if k > 0 {
        lemma_friend_pairs_elems(ms, k - 1, target, viewer);
        assert forall|p: Ranked| #[trigger] friend_pairs_upto(ms, k, target, viewer).contains(
            p,
        ) implies p.1 < ms.len() && ms[p.1 as int].user_id == target && !is_member(
            ms,
            viewer,
            ms[p.1 as int].category_id,
        ) && ms[p.1 as int].rank == p.0 by {
            let post = friend_pairs_upto(ms, k, target, viewer);
            let pre = friend_pairs_upto(ms, k - 1, target, viewer);
            let w = choose|w: int| 0 <= w < post.len() && post[w] == p;
            if w < pre.len() {
                assert(pre.contains(p));
            }
        }
    }
}

/// Every rank-and-index pair of the category's gift filter points at one of
/// its gifts, in the requested partitions, and carries its rank.
pub(crate) proof fn lemma_gift_pairs_elems(gs: Seq<GiftRow>, category_id: i64, include_secret: bool)
    requires
        gs.len() <= usize::MAX,
    ensures
        forall|p: Ranked| #[trigger] gift_pairs(gs, category_id, include_secret).contains(p)
            ==> p.1 < gs.len() && gs[p.1 as int].category_id == category_id && (include_secret
            || !gs[p.1 as int].secret) && gs[p.1 as int].rank == p.0,
    decreases gs.len(),
{
    if gs.len() > 0 {
        lemma_gift_pairs_elems(gs.drop_last(), category_id, include_secret);
        assert forall|p: Ranked| #[trigger] gift_pairs(gs, category_id, include_secret).contains(
            p,
        ) implies p.1 < gs.len() && gs[p.1 as int].category_id == category_id && (include_secret
            || !gs[p.1 as int].secret) && gs[p.1 as int].rank == p.0 by {
            let post = gift_pairs(gs, category_id, include_secret);
            let pre = gift_pairs(gs.drop_last(), category_id, include_secret);
            let w = choose|w: int| 0 <= w < post.len() && post[w] == p;
            if w < pre.len() {
                assert(pre.contains(p));
                assert(gs.drop_last()[p.1 as int] == gs[p.1 as int]);
            }
        }
    }
}

/// Sorting keeps exactly the same pairs.
pub(crate) proof fn lemma_sorted_same_elems(s: Seq<Ranked>)
    ensures
        forall|p: Ranked| #[trigger] sort_ranked(s).contains(p) <==> s.contains(p),
{
    crate::order::lemma_sort_ranked_props(s);
    s.to_multiset_ensures();
    sort_ranked(s).to_multiset_ensures();
    assert forall|p: Ranked| #[trigger] sort_ranked(s).contains(p) <==> s.contains(p) by {
        assert(sort_ranked(s).to_multiset().count(p) == s.to_multiset().count(p));
    }
}

impl WishlistManager {
    /// Collect the category's gift rows of the requested partitions as
    /// rank-and-index pairs.
    fn collect_gift_pairs(&self, category_id: i64, include_secret: bool) -> (r: Vec<Ranked>)
        ensures
            r@ == gift_pairs(self.gifts@, category_id, include_secret),
    {
        let mut out: Vec<Ranked> = Vec::new();
        let n = self.gifts.len();
        for i in 0..n
            invariant
                n == self.gifts@.len(),
                out@ == gift_pairs(self.gifts@.take(i as int), category_id, include_secret),
        {
            proof {
                assert(self.gifts@.take(i + 1).drop_last() =~= self.gifts@.take(i as int));
                assert(self.gifts@.take(i + 1).last() == self.gifts@[i as int]);
            }
            let g = &self.gifts[i];
            if g.category_id == category_id && (include_secret || !g.secret) {
                out.push((g.rank, i));
            }
        }
        proof {
            assert(self.gifts@.take(n as int) =~= self.gifts@);
        }
        out
    }

    /// Collect the other members of the category, in storage order.
    fn collect_share_with(&self, category_id: i64, user_id: i64) -> (r: Vec<i64>)
        ensures
            r@ == share_with_of(self.members@, category_id, user_id),
    {
        let mut out: Vec<i64> = Vec::new();
        let n = self.members.len();
        for i in 0..n
            invariant
                n == self.members@.len(),
                out@ == share_with_of(self.members@.take(i as int), category_id, user_id),
        {
            proof {
                assert(self.members@.take(i + 1).drop_last() =~= self.members@.take(i as int));
                assert(self.members@.take(i + 1).last() == self.members@[i as int]);
            }
            let row = &self.members[i];
            if row.category_id == category_id && row.user_id != user_id {
                out.push(row.user_id);
            }
        }
        proof {
            assert(self.members@.take(n as int) =~= self.members@);
        }
        out
    }

    /// The category's public gifts in rank order, as the own view shows
    /// them.
    fn own_gifts_of(&self, category_id: i64) -> (r: Vec<Gift>)
        ensures
            ({
                let gp = sort_ranked(gift_pairs(self.gifts@, category_id, false));
                r@.len() == gp.len() && forall|j: int|
                    0 <= j < gp.len() ==> gift_matches(
                        self.gifts@[gp[j].1 as int],
                        #[trigger] r@[j],
                    )
            }),
    {
        let pairs = self.collect_gift_pairs(category_id, false);
        let sorted = sort_pairs(&pairs);
        let gn = self.gifts.len();
        proof {
            assert(self.gifts@.len() == gn);
            lemma_gift_pairs_elems(self.gifts@, category_id, false);
            lemma_sorted_same_elems(gift_pairs(self.gifts@, category_id, false));
        }
        let mut out: Vec<Gift> = Vec::new();
        let n = sorted.len();
        for j in 0..n
            invariant
                n == sorted@.len(),
                sorted@ == sort_ranked(gift_pairs(self.gifts@, category_id, false)),
                forall|p: Ranked| #[trigger] sorted@.contains(p) ==> p.1 < self.gifts@.len(),
                out@.len() == j,
                forall|t: int|
                    0 <= t < j ==> gift_matches(
                        self.gifts@[sorted@[t].1 as int],
                        #[trigger] out@[t],
                    ),
        {
            proof {
                assert(sorted@.contains(sorted@[j as int]));
            }
            let gidx = sorted[j].1;
            let g = &self.gifts[gidx];
            out.push(
                Gift {
                    id: g.id,
                    name: g.name.clone(),
                    description: clone_opt_string(&g.description),
                    price: clone_opt_string(&g.price),
                    where_to_buy: clone_opt_string(&g.where_to_buy),
                    picture: clone_opt_string(&g.picture),
                    heart: g.heart,
                },
            );
        }
        out
    }

    /// The category's gifts, secret ones included, in rank order, as the
    /// friend view shows them.
    fn friend_gifts_of(&self, category_id: i64) -> (r: Vec<FriendGift>)
        ensures
            ({
                let gp = sort_ranked(gift_pairs(self.gifts@, category_id, true));
                r@.len() == gp.len() && forall|j: int|
                    0 <= j < gp.len() ==> friend_gift_matches(
                        self.gifts@[gp[j].1 as int],
                        #[trigger] r@[j],
                    )
            }),
    {
        let pairs = self.collect_gift_pairs(category_id, true);
        let sorted = sort_pairs(&pairs);
        let gn = self.gifts.len();
        proof {
            assert(self.gifts@.len() == gn);
            lemma_gift_pairs_elems(self.gifts@, category_id, true);
            lemma_sorted_same_elems(gift_pairs(self.gifts@, category_id, true));
        }
        let mut out: Vec<FriendGift> = Vec::new();
        let n = sorted.len();
        for j in 0..n
            invariant
                n == sorted@.len(),
                sorted@ == sort_ranked(gift_pairs(self.gifts@, category_id, true)),
                forall|p: Ranked| #[trigger] sorted@.contains(p) ==> p.1 < self.gifts@.len(),
                out@.len() == j,
                forall|t: int|
                    0 <= t < j ==> friend_gift_matches(
                        self.gifts@[sorted@[t].1 as int],
                        #[trigger] out@[t],
                    ),
        {
            proof {
                assert(sorted@.contains(sorted@[j as int]));
            }
            let gidx = sorted[j].1;
            let g = &self.gifts[gidx];
            out.push(
                FriendGift {
                    id: g.id,
                    name: g.name.clone(),
                    description: clone_opt_string(&g.description),
                    price: clone_opt_string(&g.price),
                    where_to_buy: clone_opt_string(&g.where_to_buy),
                    picture: clone_opt_string(&g.picture),
                    heart: g.heart,
                    secret: g.secret,
                    reserved_by: g.reserved_by,
                },
            );
        }
        out
    }

    /// The user's own wishlist: every category they are a member of, in
    /// their personal rank order, with fellow members listed and secret
    /// gifts and reservations withheld.
    pub fn get_my_wishlist(&self, user_id: i64) -> (r: Result<WishList, WishlistManagerError>)
        requires
            self.wf(),
        ensures
            r matches Ok(w) && own_wishlist_matches(*self, user_id, w),
    {
        let mut pairs: Vec<Ranked> = Vec::new();
        let n = self.members.len();
        for i in 0..n
            invariant
                n == self.members@.len(),
                pairs@ == member_pairs(self.members@.take(i as int), user_id),
        {
            proof {
                assert(self.members@.take(i + 1).drop_last() =~= self.members@.take(i as int));
                assert(self.members@.take(i + 1).last() == self.members@[i as int]);
            }
            let row = &self.members[i];
            if row.user_id == user_id {
                pairs.push((row.rank, i));
            }
        }
        proof {
            assert(self.members@.take(n as int) =~= self.members@);
            lemma_member_pairs_elems(self.members@, user_id);
            lemma_sorted_same_elems(member_pairs(self.members@, user_id));
        }
        let sorted = sort_pairs(&pairs);
        let mut categories: Vec<Category> = Vec::new();
        let sn = sorted.len();
        for k in 0..sn
            invariant
                self.wf(),
                sn == sorted@.len(),
                sorted@ == sort_ranked(member_pairs(self.members@, user_id)),
                forall|p: Ranked| #[trigger] sorted@.contains(p) ==> p.1 < self.members@.len()
                    && self.members@[p.1 as int].user_id == user_id,
                categories@.len() == k,
                forall|t: int|
                    0 <= t < k ==> own_category_matches(
                        *self,
                        user_id,
                        sorted@[t].1 as int,
                        #[trigger] categories@[t],
                    ),
        {
            proof {
                assert(sorted@.contains(sorted@[k as int]));
            }
            let midx = sorted[k].1;
            let cid = self.members[midx].category_id;
            let cidx = match self.find_category(cid) {
                Some(c) => c,
                None => {
                    proof {
                        assert(false);
                    }
                    return Err(WishlistManagerError::Storage);
                },
            };
            proof {
                let w = category_index(self.categories@, cid);
                assert(self.categories@[w].id == cid);
                assert(w == cidx);
            }
            let share = self.collect_share_with(cid, user_id);
            let gifts_out = self.own_gifts_of(cid);
            let c = Category {
                id: cid,
                name: self.categories[cidx].name.clone(),
                share_with: share,
                gifts: gifts_out,
            };
            proof {
                assert(own_category_matches(*self, user_id, midx as int, c));
            }
            categories.push(c);
        }
        Ok(WishList { categories })
    }

    /// A friend's wishlist as a non-member sees it: the target's categories
    /// the viewer is no member of, in the target's rank order, every gift
    /// shown with its secrecy and reservation.
    pub fn get_friend_wishlist(&self, user_id: i64, friend_id: i64) -> (r: Result<
        FriendWishList,
        WishlistManagerError,
    >)
        requires
            self.wf(),
        ensures
            r matches Ok(w) && friend_wishlist_matches(*self, user_id, friend_id, w),
    {
        let mut pairs: Vec<Ranked> = Vec::new();
        let n = self.members.len();
        for i in 0..n
            invariant
                n == self.members@.len(),
                pairs@ == friend_pairs_upto(self.members@, i as int, friend_id, user_id),
        {
            let row = self.members[i];
            let mine = match self.is_my_category(user_id, row.category_id) {
                Ok(b) => b,
                Err(_) => false,
            };
            if row.user_id == friend_id && !mine {
                pairs.push((row.rank, i));
            }
        }
        proof {
            lemma_friend_pairs_elems(
                self.members@,
                self.members@.len() as int,
                friend_id,
                user_id,
            );
            lemma_sorted_same_elems(friend_member_pairs(self.members@, friend_id, user_id));
        }
        let sorted = sort_pairs(&pairs);
        let mut categories: Vec<FriendCategory> = Vec::new();
        let sn = sorted.len();
        for k in 0..sn
            invariant
                self.wf(),
                sn == sorted@.len(),
                sorted@ == sort_ranked(friend_member_pairs(self.members@, friend_id, user_id)),
                forall|p: Ranked| #[trigger] sorted@.contains(p) ==> p.1 < self.members@.len(),
                categories@.len() == k,
                forall|t: int|
                    0 <= t < k ==> friend_category_matches(
                        *self,
                        sorted@[t].1 as int,
                        #[trigger] categories@[t],
                    ),
        {
            proof {
                assert(sorted@.contains(sorted@[k as int]));
            }
            let midx = sorted[k].1;
            let cid = self.members[midx].category_id;
            let cidx = match self.find_category(cid) {
                Some(c) => c,
                None => {
                    proof {
                        assert(false);
                    }
                    return Err(WishlistManagerError::Storage);
                },
            };
            proof {
                let w = category_index(self.categories@, cid);
                assert(self.categories@[w].id == cid);
                assert(w == cidx);
            }
            let gifts_out = self.friend_gifts_of(cid);
            let c = FriendCategory {
                id: cid,
                name: self.categories[cidx].name.clone(),
                gifts: gifts_out,
            };
            proof {
                assert(friend_category_matches(*self, midx as int, c));
            }
            categories.push(c);
        }
        Ok(FriendWishList { categories })
    }
}

/// The friend-view gifts no one has reserved yet.
pub open spec fn unreserved(gs: Seq<FriendGift>) -> Seq<FriendGift>
    decreases gs.len(),
{
    if gs.len() == 0 {
        Seq::empty()
    } else {
        let pre = unreserved(gs.drop_last());
        if gs.last().reserved_by is None {
            pre.push(gs.last())
        } else {
            pre
        }
    }
}

/// The printed gift carries the friend-view gift's public fields.
pub open spec fn print_gift_matches(f: FriendGift, d: Gift) -> bool {
    &&& d.id == f.id
    &&& d.name == f.name
    &&& d.description == f.description
    &&& d.price == f.price
    &&& d.where_to_buy == f.where_to_buy
    &&& d.picture == f.picture
    &&& d.heart == f.heart
}

/// What the print projection of a friend view holds: the same categories,
/// without member lists, keeping only gifts nobody reserved, and dropping
/// the secrecy and reservation fields.
pub open spec fn print_view_matches(v: FriendWishList, w: WishList) -> bool {
    &&& w.categories@.len() == v.categories@.len()
    &&& forall|i: int|
        0 <= i < v.categories@.len() ==> {
            let fc = v.categories@[i];
            let c = #[trigger] w.categories@[i];
            &&& c.id == fc.id
            &&& c.name == fc.name
            &&& c.share_with@.len() == 0
            &&& c.gifts@.len() == unreserved(fc.gifts@).len()
            &&& forall|j: int|
                0 <= j < c.gifts@.len() ==> print_gift_matches(
                    unreserved(fc.gifts@)[j],
                    #[trigger] c.gifts@[j],
                )
        }
}

impl FriendWishList {
    /// The shopping printout of a friend view: gifts someone already
    /// claimed are left off, and neither secrecy nor the reserver is
    /// carried over.
    pub fn into(self) -> (r: WishList)
        ensures
            print_view_matches(self, r),
    {
        let mut categories: Vec<Category> = Vec::new();
        let n = self.categories.len();
        for i in 0..n
            invariant
                n == self.categories@.len(),
                categories@.len() == i,
                forall|t: int|
                    0 <= t < i ==> {
                        let fc = self.categories@[t];
                        let c = #[trigger] categories@[t];
                        &&& c.id == fc.id
                        &&& c.name == fc.name
                        &&& c.share_with@.len() == 0
                        &&& c.gifts@.len() == unreserved(fc.gifts@).len()
                        &&& forall|j: int|
                            0 <= j < c.gifts@.len() ==> print_gift_matches(
                                unreserved(fc.gifts@)[j],
                                #[trigger] c.gifts@[j],
                            )
                    },
        {
            let fc = &self.categories[i];
            let mut gifts: Vec<Gift> = Vec::new();
            let gn = fc.gifts.len();
            for j in 0..gn
                invariant
                    gn == fc.gifts@.len(),
                    gifts@.len() == unreserved(fc.gifts@.take(j as int)).len(),
                    forall|t: int|
                        0 <= t < gifts@.len() ==> print_gift_matches(
                            unreserved(fc.gifts@.take(j as int))[t],
                            #[trigger] gifts@[t],
                        ),
            {
                proof {
                    assert(fc.gifts@.take(j + 1).drop_last() =~= fc.gifts@.take(j as int));
                    assert(fc.gifts@.take(j + 1).last() == fc.gifts@[j as int]);
                }
                let g = &fc.gifts[j];
                if g.reserved_by.is_none() {
                    gifts.push(
                        Gift {
                            id: g.id,
                            name: g.name.clone(),
                            description: clone_opt_string(&g.description),
                            price: clone_opt_string(&g.price),
                            where_to_buy: clone_opt_string(&g.where_to_buy),
                            picture: clone_opt_string(&g.picture),
                            heart: g.heart,
                        },
                    );
                }
            }
            proof {
                assert(fc.gifts@.take(gn as int) =~= fc.gifts@);
            }
            categories.push(
                Category {
                    id: fc.id,
                    name: fc.name.clone(),
                    share_with: Vec::new(),
                    gifts,
                },
            );
        }
        WishList { categories }
    }
}

/// Copy an optional string by contents.
fn clone_opt_string(o: &Option<String>) -> (r: Option<String>)
    ensures
        *o == r,
{
    match o {
        None => None,
        Some(s) => Some(s.clone()),
    }
}

} // verus!
