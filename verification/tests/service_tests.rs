use giftlist::friends::{FriendsManager, RequestStatus};
use giftlist::service::{
    add_category, add_gift, add_secret_gift, delete_category, delete_gift, edit_category,
    get_friend_wishlist, get_print_wishlist, reorder_gifts, reserve_gift, unreserve_gift, AppError,
};
use giftlist::sessions::SessionManager;
use giftlist::users::UsersManager;
use giftlist::wishlist::{WishlistManager, WishlistManagerError};

/// Three users; one is friends with two and with three; two and three are
/// not friends with each other.
fn friends_of_one() -> (FriendsManager, i64, i64, i64) {
    let mut users_manager = UsersManager::new();
    let one = users_manager.add_user("one", "pwd").unwrap();
    let two = users_manager.add_user("two", "pwd").unwrap();
    let three = users_manager.add_user("three", "pwd").unwrap();
    let mut friends = FriendsManager::new(users_manager);
    friends.create_friend_request(one, "two").unwrap();
    friends.create_friend_request(one, "three").unwrap();
    friends
        .update_received_request(1, two, RequestStatus::Accepted)
        .unwrap();
    friends
        .update_received_request(2, three, RequestStatus::Accepted)
        .unwrap();
    (friends, one, two, three)
}

#[test]
fn test_shared_category_scenario() {
    let (friends, one, two, three) = friends_of_one();
    let mut wishlist = WishlistManager::new();

    add_category(&friends, &mut wishlist, one, "Shared", &vec![two]).unwrap();

    let own = wishlist.get_my_wishlist(one).unwrap();
    assert_eq!(own.categories.len(), 1);
    assert_eq!(own.categories[0].name, "Shared");
    assert_eq!(own.categories[0].share_with, vec![two]);
    let own_three = wishlist.get_my_wishlist(three).unwrap();
    assert!(own_three.categories.is_empty());

    // Two tucks a surprise into one's shared category.
    add_secret_gift(
        &friends,
        &mut wishlist,
        two,
        one,
        1,
        "Surprise",
        None,
        None,
        None,
        None,
    )
    .unwrap();

    // One still sees no gift at all.
    let own = wishlist.get_my_wishlist(one).unwrap();
    assert_eq!(own.categories[0].gifts.len(), 0);

    // Three is no member of the category, so the friend view of one's
    // wishlist shows it, surprise included.
    let fw = get_friend_wishlist(&friends, &wishlist, three, one).unwrap();
    assert_eq!(fw.categories.len(), 1);
    assert_eq!(fw.categories[0].name, "Shared");
    assert_eq!(fw.categories[0].gifts.len(), 1);
    assert_eq!(fw.categories[0].gifts[0].name, "Surprise");
    assert!(fw.categories[0].gifts[0].secret);

    // Two is a member, so their friend view of one hides it.
    let fw_two = get_friend_wishlist(&friends, &wishlist, two, one).unwrap();
    assert!(fw_two.categories.is_empty());
}

#[test]
fn test_reserve_conflict() {
    let (friends, one, two, three) = friends_of_one();
    let mut wishlist = WishlistManager::new();
    add_category(&friends, &mut wishlist, one, "Mine", &Vec::new()).unwrap();
    add_gift(&mut wishlist, one, 1, "Gift", None, None, None, None).unwrap();

    reserve_gift(&friends, &mut wishlist, two, one, 1).unwrap();
    let error = reserve_gift(&friends, &mut wishlist, three, one, 1).unwrap_err();
    assert!(matches!(error, AppError::Conflict));

    // The reserver is visible to friends outside the category.
    let fw = get_friend_wishlist(&friends, &wishlist, three, one).unwrap();
    assert_eq!(fw.categories[0].gifts[0].reserved_by, Some(two));

    // Releasing the claim lets the other friend take it.
    unreserve_gift(&friends, &mut wishlist, two, one, 1).unwrap();
    reserve_gift(&friends, &mut wishlist, three, one, 1).unwrap();
    let fw = get_friend_wishlist(&friends, &wishlist, two, one).unwrap();
    assert_eq!(fw.categories[0].gifts[0].reserved_by, Some(three));
}

#[test]
fn test_unreserve_unauthorized() {
    let (friends, one, two, three) = friends_of_one();
    let mut wishlist = WishlistManager::new();
    add_category(&friends, &mut wishlist, one, "Mine", &Vec::new()).unwrap();
    add_gift(&mut wishlist, one, 1, "Gift", None, None, None, None).unwrap();

    // Nothing is reserved yet: releasing fails.
    let error = unreserve_gift(&friends, &mut wishlist, two, one, 1).unwrap_err();
    assert!(matches!(error, AppError::Unauthorized));

    reserve_gift(&friends, &mut wishlist, two, one, 1).unwrap();

    // Only the holder may release.
    let error = unreserve_gift(&friends, &mut wishlist, three, one, 1).unwrap_err();
    assert!(matches!(error, AppError::Unauthorized));
    unreserve_gift(&friends, &mut wishlist, two, one, 1).unwrap();
}

#[test]
fn test_friend_view_excludes_shared() {
    let (friends, one, two, three) = friends_of_one();
    let mut wishlist = WishlistManager::new();
    add_category(&friends, &mut wishlist, one, "Solo", &Vec::new()).unwrap();
    add_category(&friends, &mut wishlist, one, "Shared", &vec![two]).unwrap();
    add_gift(&mut wishlist, one, 1, "Gift", None, None, None, None).unwrap();

    // Two shares the second category, so their friend view keeps only the
    // first.
    let fw = get_friend_wishlist(&friends, &wishlist, two, one).unwrap();
    assert_eq!(fw.categories.len(), 1);
    assert_eq!(fw.categories[0].name, "Solo");

    // Three shares nothing and sees both.
    let fw = get_friend_wishlist(&friends, &wishlist, three, one).unwrap();
    assert_eq!(fw.categories.len(), 2);

    // A stranger sees nothing at all.
    let mut users2 = UsersManager::new();
    users2.add_user("one", "pwd").unwrap();
    let no_friends = FriendsManager::new(users2);
    let error = get_friend_wishlist(&no_friends, &wishlist, two, one).unwrap_err();
    assert!(matches!(error, AppError::Unauthorized));
}

#[test]
fn test_secret_rank_partition() {
    let (friends, one, two, _three) = friends_of_one();
    let mut wishlist = WishlistManager::new();
    add_category(&friends, &mut wishlist, one, "Mine", &Vec::new()).unwrap();

    add_gift(&mut wishlist, one, 1, "A", None, None, None, None).unwrap();
    add_gift(&mut wishlist, one, 1, "B", None, None, None, None).unwrap();
    assert_eq!(wishlist.gifts[0].rank, 0);
    assert_eq!(wishlist.gifts[1].rank, 1);

    // The first secret gift seeds the secret partition, whatever the
    // public ranks are; the next one follows it.
    add_secret_gift(
        &friends,
        &mut wishlist,
        two,
        one,
        1,
        "S1",
        None,
        None,
        None,
        None,
    )
    .unwrap();
    add_secret_gift(
        &friends,
        &mut wishlist,
        two,
        one,
        1,
        "S2",
        None,
        None,
        None,
        None,
    )
    .unwrap();
    assert_eq!(wishlist.gifts[2].rank, 100000);
    assert_eq!(wishlist.gifts[3].rank, 100001);

    // Public ranks are unperturbed by the secret partition.
    add_gift(&mut wishlist, one, 1, "C", None, None, None, None).unwrap();
    assert_eq!(wishlist.gifts[4].rank, 2);
}

#[test]
fn test_print_view_excludes_reserved() {
    let (friends, one, two, _three) = friends_of_one();
    let mut wishlist = WishlistManager::new();
    add_category(&friends, &mut wishlist, one, "Mine", &Vec::new()).unwrap();
    add_gift(&mut wishlist, one, 1, "Taken", None, None, None, None).unwrap();
    add_gift(&mut wishlist, one, 1, "Free", None, None, None, None).unwrap();
    reserve_gift(&friends, &mut wishlist, two, one, 1).unwrap();

    // A friend's printout skips what someone already claimed.
    let printed = get_print_wishlist(&friends, &wishlist, two, one).unwrap();
    assert_eq!(printed.categories.len(), 1);
    assert_eq!(printed.categories[0].gifts.len(), 1);
    assert_eq!(printed.categories[0].gifts[0].name, "Free");
    assert!(printed.categories[0].share_with.is_empty());

    // One's own printout is their own view, which already shows both
    // public gifts and no reservation.
    let printed = get_print_wishlist(&friends, &wishlist, one, one).unwrap();
    assert_eq!(printed.categories[0].gifts.len(), 2);
}

#[test]
fn test_category_authorization() {
    let (friends, one, two, three) = friends_of_one();
    let mut wishlist = WishlistManager::new();
    add_category(&friends, &mut wishlist, one, "Mine", &Vec::new()).unwrap();

    // Only members may edit, restock or delete.
    let error = edit_category(&friends, &mut wishlist, two, 1, "Theirs", &Vec::new()).unwrap_err();
    assert!(matches!(error, AppError::Unauthorized));
    let error = add_gift(&mut wishlist, two, 1, "Gift", None, None, None, None).unwrap_err();
    assert!(matches!(error, AppError::Unauthorized));
    let error = delete_category(&mut wishlist, two, 1).unwrap_err();
    assert!(matches!(error, AppError::Unauthorized));

    // Sharing demands friendship: two and three are no friends.
    let error = add_category(&friends, &mut wishlist, two, "Shared", &vec![three]).unwrap_err();
    assert!(matches!(
        error,
        AppError::WishlistManager(WishlistManagerError::UnknownUser(u)) if u == three
    ));
}

#[test]
fn test_delete_category_cascade() {
    let (friends, one, two, _three) = friends_of_one();
    let mut wishlist = WishlistManager::new();
    add_category(&friends, &mut wishlist, one, "Shared", &vec![two]).unwrap();
    add_gift(&mut wishlist, one, 1, "Gift", None, None, None, None).unwrap();

    // One leaves: the category survives for two, gift included.
    delete_category(&mut wishlist, one, 1).unwrap();
    let own_two = wishlist.get_my_wishlist(two).unwrap();
    assert_eq!(own_two.categories.len(), 1);
    assert_eq!(own_two.categories[0].gifts.len(), 1);

    // The last member leaves: the category and its gifts are gone.
    delete_category(&mut wishlist, two, 1).unwrap();
    assert!(wishlist.categories.is_empty());
    assert!(wishlist.gifts.is_empty());
    assert!(wishlist.members.is_empty());
}

#[test]
fn test_reorder_gifts_authorization() {
    let (friends, one, two, _three) = friends_of_one();
    let mut wishlist = WishlistManager::new();
    add_category(&friends, &mut wishlist, one, "Mine", &Vec::new()).unwrap();
    add_category(&friends, &mut wishlist, two, "Theirs", &Vec::new()).unwrap();
    add_gift(&mut wishlist, one, 1, "Gift", None, None, None, None).unwrap();
    add_gift(&mut wishlist, two, 2, "Foreign", None, None, None, None).unwrap();

    // A gift outside the caller's category may not be re-ranked from it.
    let error = reorder_gifts(&mut wishlist, one, 1, 0, &vec![2, 1]).unwrap_err();
    assert!(matches!(error, AppError::Unauthorized));
    reorder_gifts(&mut wishlist, one, 1, 0, &vec![1]).unwrap();

    // Deleting through the wrong category fails too.
    let error = delete_gift(&mut wishlist, one, 1, 2).unwrap_err();
    assert!(matches!(error, AppError::Unauthorized));
    delete_gift(&mut wishlist, one, 1, 1).unwrap();
}

#[test]
fn test_storage_exhaustion() {
    let (friends, one, _two, _three) = friends_of_one();
    let mut wishlist = WishlistManager::new();
    add_category(&friends, &mut wishlist, one, "Mine", &Vec::new()).unwrap();
    wishlist.next_gift_id = i64::MAX;
    let error = add_gift(&mut wishlist, one, 1, "Gift", None, None, None, None).unwrap_err();
    assert!(matches!(
        error,
        AppError::WishlistManager(WishlistManagerError::Storage)
    ));
}

#[test]
fn test_session_tokens() {
    let mut sessions = SessionManager::default();
    assert!(sessions.get_session(7).is_none());
    let token = sessions.generate_session(7);
    assert_eq!(token.len(), 128);
    // The same user keeps the same token.
    let again = sessions.generate_session(7);
    assert_eq!(token, again);
    assert_eq!(sessions.get_session(7), Some(token.clone()));

    // Another user cannot borrow a session nobody holds.
    assert!(sessions.set_common_session(8, 9).is_none());
    // But may share an existing one.
    assert!(sessions.set_common_session(8, 7).is_some());
    assert_eq!(sessions.get_session(8), Some(token));

    sessions.delete_session(7);
    assert!(sessions.get_session(7).is_none());
    assert!(sessions.get_session(8).is_some());
}
