use giftlist::users::UsersManager;
use giftlist::wishlist::{Category, Gift, WishList, WishlistManager};
use std::collections::HashSet;

#[test]
fn test_add_category() {
    let mut users_manager = UsersManager::new();
    let one = users_manager.add_user("one", "pwd").unwrap();
    let two = users_manager.add_user("two", "pwd").unwrap();

    let mut wishlist_manager = WishlistManager::new();
    wishlist_manager
        .add_category("OneCategory", HashSet::from([one]))
        .unwrap();
    wishlist_manager
        .add_category("TwoCategory", HashSet::from([two]))
        .unwrap();
    wishlist_manager
        .add_category("TwoCategory2", HashSet::from([two]))
        .unwrap();
    wishlist_manager
        .add_category("SharedCategory", HashSet::from([one, two]))
        .unwrap();

    let wishlist = wishlist_manager.get_my_wishlist(one).unwrap();
    assert_eq!(
        wishlist,
        WishList {
            categories: vec![
                Category {
                    id: 1,
                    name: "OneCategory".to_string(),
                    share_with: Vec::new(),
                    gifts: Vec::new()
                },
                Category {
                    id: 4,
                    name: "SharedCategory".to_string(),
                    share_with: vec![two],
                    gifts: Vec::new()
                }
            ]
        }
    );
    let wishlist = wishlist_manager.get_my_wishlist(two).unwrap();
    assert_eq!(
        wishlist,
        WishList {
            categories: vec![
                Category {
                    id: 2,
                    name: "TwoCategory".to_string(),
                    share_with: Vec::new(),
                    gifts: Vec::new()
                },
                Category {
                    id: 3,
                    name: "TwoCategory2".to_string(),
                    share_with: Vec::new(),
                    gifts: Vec::new()
                },
                Category {
                    id: 4,
                    name: "SharedCategory".to_string(),
                    share_with: vec![one],
                    gifts: Vec::new()
                }
            ]
        }
    );
}

#[test]
fn test_edit_category() {
    let mut users_manager = UsersManager::new();
    let one = users_manager.add_user("one", "pwd").unwrap();
    let two = users_manager.add_user("two", "pwd").unwrap();
    let three = users_manager.add_user("three", "pwd").unwrap();

    let mut wishlist_manager = WishlistManager::new();
    wishlist_manager
        .add_category("SharedCategory", HashSet::from([one, two]))
        .unwrap();

    let wishlist = wishlist_manager.get_my_wishlist(one).unwrap();
    assert_eq!(
        wishlist,
        WishList {
            categories: vec![Category {
                id: 1,
                name: "SharedCategory".to_string(),
                share_with: vec![two],
                gifts: Vec::new()
            }]
        }
    );
    let wishlist = wishlist_manager.get_my_wishlist(two).unwrap();
    assert_eq!(
        wishlist,
        WishList {
            categories: vec![Category {
                id: 1,
                name: "SharedCategory".to_string(),
                share_with: vec![one],
                gifts: Vec::new()
            }]
        }
    );
    let wishlist = wishlist_manager.get_my_wishlist(three).unwrap();
    assert_eq!(wishlist, WishList { categories: vec![] });

    wishlist_manager
        .edit_category(1, "NewName", HashSet::from([one, three]))
        .unwrap();
    let wishlist = wishlist_manager.get_my_wishlist(one).unwrap();
    assert_eq!(
        wishlist,
        WishList {
            categories: vec![Category {
                id: 1,
                name: "NewName".to_string(),
                share_with: vec![three],
                gifts: Vec::new()
            }]
        }
    );
    let wishlist = wishlist_manager.get_my_wishlist(two).unwrap();
    assert_eq!(wishlist, WishList { categories: vec![] });
    let wishlist = wishlist_manager.get_my_wishlist(three).unwrap();
    assert_eq!(
        wishlist,
        WishList {
            categories: vec![Category {
                id: 1,
                name: "NewName".to_string(),
                share_with: vec![one],
                gifts: Vec::new()
            }]
        }
    );
}

#[test]
fn test_reorder_categories() {
    let mut users_manager = UsersManager::new();
    let one = users_manager.add_user("one", "pwd").unwrap();
    let two = users_manager.add_user("two", "pwd").unwrap();

    let mut wishlist_manager = WishlistManager::new();
    wishlist_manager
        .add_category("OneCategory", HashSet::from([one]))
        .unwrap();
    wishlist_manager
        .add_category("TwoCategory", HashSet::from([two]))
        .unwrap();
    wishlist_manager
        .add_category("TwoCategory2", HashSet::from([two]))
        .unwrap();
    wishlist_manager
        .add_category("SharedCategory", HashSet::from([one, two]))
        .unwrap();

    //Reorder first and second of user two
    wishlist_manager.reorder_categories(two, 0, &[3, 2]).unwrap();
    let wishlist = wishlist_manager.get_my_wishlist(two).unwrap();
    assert_eq!(
        wishlist,
        WishList {
            categories: vec![
                Category {
                    id: 3,
                    name: "TwoCategory2".to_string(),
                    share_with: Vec::new(),
                    gifts: Vec::new()
                },
                Category {
                    id: 2,
                    name: "TwoCategory".to_string(),
                    share_with: Vec::new(),
                    gifts: Vec::new()
                },
                Category {
                    id: 4,
                    name: "SharedCategory".to_string(),
                    share_with: vec![one],
                    gifts: Vec::new()
                }
            ]
        }
    );

    //Reorder share does not affect user one
    wishlist_manager.reorder_categories(two, 1, &[4, 2]).unwrap();
    let wishlist = wishlist_manager.get_my_wishlist(two).unwrap();
    assert_eq!(
        wishlist,
        WishList {
            categories: vec![
                Category {
                    id: 3,
                    name: "TwoCategory2".to_string(),
                    share_with: Vec::new(),
                    gifts: Vec::new()
                },
                Category {
                    id: 4,
                    name: "SharedCategory".to_string(),
                    share_with: vec![one],
                    gifts: Vec::new()
                },
                Category {
                    id: 2,
                    name: "TwoCategory".to_string(),
                    share_with: Vec::new(),
                    gifts: Vec::new()
                }
            ]
        }
    );
    let wishlist = wishlist_manager.get_my_wishlist(one).unwrap();
    assert_eq!(
        wishlist,
        WishList {
            categories: vec![
                Category {
                    id: 1,
                    name: "OneCategory".to_string(),
                    share_with: Vec::new(),
                    gifts: Vec::new()
                },
                Category {
                    id: 4,
                    name: "SharedCategory".to_string(),
                    share_with: vec![two],
                    gifts: Vec::new()
                }
            ]
        }
    );
}

#[test]
fn test_add_gift() {
    let mut users_manager = UsersManager::new();
    let one = users_manager.add_user("one", "pwd").unwrap();
    let two = users_manager.add_user("two", "pwd").unwrap();

    let mut wishlist_manager = WishlistManager::new();
    wishlist_manager
        .add_category("OneCategory", HashSet::from([one]))
        .unwrap();
    wishlist_manager
        .add_category("SharedCategory", HashSet::from([one, two]))
        .unwrap();

    wishlist_manager
        .add_gift("Gift", None, None, None, None, false, 1)
        .unwrap();
    wishlist_manager
        .add_gift(
            "Gift2",
            Some("desc".to_string()),
            Some("price".to_string()),
            Some("wtb".to_string()),
            Some("pic".to_string()),
            false,
            2,
        )
        .unwrap();
    let wishlist = wishlist_manager.get_my_wishlist(one).unwrap();
    assert_eq!(
        wishlist,
        WishList {
            categories: vec![
                Category {
                    id: 1,
                    name: "OneCategory".to_string(),
                    share_with: Vec::new(),
                    gifts: vec![Gift {
                        id: 1,
                        name: "Gift".to_string(),
                        description: None,
                        price: None,
                        where_to_buy: None,
                        picture: None,
                        heart: false
                    }]
                },
                Category {
                    id: 2,
                    name: "SharedCategory".to_string(),
                    share_with: vec![two],
                    gifts: vec![Gift {
                        id: 2,
                        name: "Gift2".to_string(),
                        description: Some("desc".to_string()),
                        price: Some("price".to_string()),
                        where_to_buy: Some("wtb".to_string()),
                        picture: Some("pic".to_string()),
                        heart: false
                    }]
                }
            ]
        }
    );
    let wishlist = wishlist_manager.get_my_wishlist(two).unwrap();
    assert_eq!(
        wishlist,
        WishList {
            categories: vec![Category {
                id: 2,
                name: "SharedCategory".to_string(),
                share_with: vec![one],
                gifts: vec![Gift {
                    id: 2,
                    name: "Gift2".to_string(),
                    description: Some("desc".to_string()),
                    price: Some("price".to_string()),
                    where_to_buy: Some("wtb".to_string()),
                    picture: Some("pic".to_string()),
                    heart: false
                }]
            }]
        }
    );
}

#[test]
fn test_edit_gift() {
    let mut users_manager = UsersManager::new();
    let one = users_manager.add_user("one", "pwd").unwrap();

    let mut wishlist_manager = WishlistManager::new();
    wishlist_manager
        .add_category("OneCategory", HashSet::from([one]))
        .unwrap();

    wishlist_manager
        .add_gift("Gift", None, None, None, None, false, 1)
        .unwrap();
    let wishlist = wishlist_manager.get_my_wishlist(one).unwrap();
    assert_eq!(
        wishlist,
        WishList {
            categories: vec![Category {
                id: 1,
                name: "OneCategory".to_string(),
                share_with: Vec::new(),
                gifts: vec![Gift {
                    id: 1,
                    name: "Gift".to_string(),
                    description: None,
                    price: None,
                    where_to_buy: None,
                    picture: None,
                    heart: false
                }]
            }]
        }
    );

    wishlist_manager
        .edit_gift(
            1,
            "NewName",
            Some("desc".to_string()),
            Some("price".to_string()),
            Some("wtb".to_string()),
            Some("pic".to_string()),
            1,
        )
        .unwrap();
    let wishlist = wishlist_manager.get_my_wishlist(one).unwrap();
    assert_eq!(
        wishlist,
        WishList {
            categories: vec![Category {
                id: 1,
                name: "OneCategory".to_string(),
                share_with: Vec::new(),
                gifts: vec![Gift {
                    id: 1,
                    name: "NewName".to_string(),
                    description: Some("desc".to_string()),
                    price: Some("price".to_string()),
                    where_to_buy: Some("wtb".to_string()),
                    picture: Some("pic".to_string()),
                    heart: false
                }]
            }]
        }
    );
}

#[test]
fn test_reorder_gifts() {
    let mut users_manager = UsersManager::new();
    let one = users_manager.add_user("one", "pwd").unwrap();

    let mut wishlist_manager = WishlistManager::new();
    wishlist_manager
        .add_category("OneCategory", HashSet::from([one]))
        .unwrap();

    wishlist_manager
        .add_gift("Gift", None, None, None, None, false, 1)
        .unwrap();
    wishlist_manager
        .add_gift("Secret", None, None, None, None, true, 1)
        .unwrap();
    wishlist_manager
        .add_gift("Gift2", None, None, None, None, false, 1)
        .unwrap();

    //Reorder from the user that can only see gift 1 and 3
    wishlist_manager.reorder_gifts(0, &[3, 1]).unwrap();
    let wishlist = wishlist_manager.get_my_wishlist(one).unwrap();
    assert_eq!(
        wishlist,
        WishList {
            categories: vec![Category {
                id: 1,
                name: "OneCategory".to_string(),
                share_with: Vec::new(),
                gifts: vec![
                    Gift {
                        id: 3,
                        name: "Gift2".to_string(),
                        description: None,
                        price: None,
                        where_to_buy: None,
                        picture: None,
                        heart: false
                    },
                    Gift {
                        id: 1,
                        name: "Gift".to_string(),
                        description: None,
                        price: None,
                        where_to_buy: None,
                        picture: None,
                        heart: false
                    }
                ]
            }]
        }
    );
}

#[test]
fn test_change_heart() {
    let mut users_manager = UsersManager::new();
    let one = users_manager.add_user("one", "pwd").unwrap();

    let mut wishlist_manager = WishlistManager::new();
    wishlist_manager
        .add_category("OneCategory", HashSet::from([one]))
        .unwrap();

    wishlist_manager
        .add_gift("Gift", None, None, None, None, false, 1)
        .unwrap();
    let wishlist = wishlist_manager.get_my_wishlist(one).unwrap();
    assert_eq!(
        wishlist,
        WishList {
            categories: vec![Category {
                id: 1,
                name: "OneCategory".to_string(),
                share_with: Vec::new(),
                gifts: vec![Gift {
                    id: 1,
                    name: "Gift".to_string(),
                    description: None,
                    price: None,
                    where_to_buy: None,
                    picture: None,
                    heart: false
                }]
            }]
        }
    );

    wishlist_manager.change_heart_gift(1).unwrap();
    let wishlist = wishlist_manager.get_my_wishlist(one).unwrap();
    assert_eq!(
        wishlist,
        WishList {
            categories: vec![Category {
                id: 1,
                name: "OneCategory".to_string(),
                share_with: Vec::new(),
                gifts: vec![Gift {
                    id: 1,
                    name: "Gift".to_string(),
                    description: None,
                    price: None,
                    where_to_buy: None,
                    picture: None,
                    heart: true
                }]
            }]
        }
    );

    wishlist_manager.change_heart_gift(1).unwrap();
    let wishlist = wishlist_manager.get_my_wishlist(one).unwrap();
    assert_eq!(
        wishlist,
        WishList {
            categories: vec![Category {
                id: 1,
                name: "OneCategory".to_string(),
                share_with: Vec::new(),
                gifts: vec![Gift {
                    id: 1,
                    name: "Gift".to_string(),
                    description: None,
                    price: None,
                    where_to_buy: None,
                    picture: None,
                    heart: false
                }]
            }]
        }
    );
}
