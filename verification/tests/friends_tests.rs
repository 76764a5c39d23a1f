use giftlist::friends::{
    FriendRequest, FriendsManager, FriendsManagerError, RequestStatus, Requests,
};
use giftlist::users::{CleanUser, UsersManager};

fn three_users() -> (FriendsManager, i64, i64, i64) {
    let mut users_manager = UsersManager::new();
    let one = users_manager.add_user("one", "pwd").unwrap();
    let two = users_manager.add_user("two", "pwd").unwrap();
    let three = users_manager.add_user("three", "pwd").unwrap();
    (FriendsManager::new(users_manager), one, two, three)
}

#[test]
fn test_create_friend_requests() {
    let (mut friend_manager, one, two, three) = three_users();
    let _ = two;
    friend_manager.create_friend_request(one, "two").unwrap();
    friend_manager.create_friend_request(three, "two").unwrap();

    //Cannot re-ask
    let error = friend_manager.create_friend_request(one, "two").unwrap_err();
    assert!(matches!(
        error,
        FriendsManagerError::FriendRequestAlreadyExists(_, _)
    ));
    //Cannot ask the other way around
    let error = friend_manager
        .create_friend_request(two, "three")
        .unwrap_err();
    assert!(matches!(
        error,
        FriendsManagerError::FriendRequestAlreadyExists(_, _)
    ));
    //Cannot ask yourself
    let error = friend_manager.create_friend_request(two, "two").unwrap_err();
    assert!(matches!(error, FriendsManagerError::CannotAskYourself(_)));
    //Cannot ask unknown
    let error = friend_manager
        .create_friend_request(one, "unknown")
        .unwrap_err();
    assert!(matches!(error, FriendsManagerError::UnknownUser(_)));
}

#[test]
fn test_get_friend_requests() {
    let (mut friend_manager, one, two, three) = three_users();
    friend_manager.create_friend_request(one, "two").unwrap();
    friend_manager.create_friend_request(two, "three").unwrap();

    let requests = friend_manager.get_requests(one).unwrap();
    assert_eq!(
        requests,
        Requests {
            sent: vec![FriendRequest {
                id: 1,
                other_user: CleanUser {
                    id: 2,
                    name: "two".to_string(),
                    picture: None,
                    date_of_birth: None
                }
            }],
            received: vec![]
        }
    );

    let requests = friend_manager.get_requests(two).unwrap();
    assert_eq!(
        requests,
        Requests {
            sent: vec![FriendRequest {
                id: 2,
                other_user: CleanUser {
                    id: 3,
                    name: "three".to_string(),
                    picture: None,
                    date_of_birth: None
                }
            }],
            received: vec![FriendRequest {
                id: 1,
                other_user: CleanUser {
                    id: 1,
                    name: "one".to_string(),
                    picture: None,
                    date_of_birth: None
                }
            }]
        }
    );

    let requests = friend_manager.get_requests(three).unwrap();
    assert_eq!(
        requests,
        Requests {
            sent: vec![],
            received: vec![FriendRequest {
                id: 2,
                other_user: CleanUser {
                    id: 2,
                    name: "two".to_string(),
                    picture: None,
                    date_of_birth: None
                }
            }]
        }
    );
}

#[test]
fn test_update_friend_request() {
    let mut users_manager = UsersManager::new();
    let one = users_manager.add_user("one", "pwd").unwrap();
    let two = users_manager.add_user("two", "pwd").unwrap();
    let mut friend_manager = FriendsManager::new(users_manager);
    friend_manager.create_friend_request(one, "two").unwrap();

    let error = friend_manager
        .update_received_request(1, one, RequestStatus::Accepted)
        .unwrap_err();
    assert!(matches!(
        error,
        FriendsManagerError::FriendRequestDoesNotExists(_, _)
    ));

    friend_manager
        .update_received_request(1, two, RequestStatus::Accepted)
        .unwrap();

    let requests = friend_manager.get_requests(one).unwrap();
    assert_eq!(
        requests,
        Requests {
            sent: vec![],
            received: vec![]
        }
    );
    let requests = friend_manager.get_requests(two).unwrap();
    assert_eq!(
        requests,
        Requests {
            sent: vec![],
            received: vec![]
        }
    );

    let friends = friend_manager.get_friends(one).unwrap();
    assert_eq!(
        friends,
        vec![CleanUser {
            id: 2,
            name: "two".to_string(),
            picture: None,
            date_of_birth: None
        }]
    );
    let friends = friend_manager.get_friends(two).unwrap();
    assert_eq!(
        friends,
        vec![CleanUser {
            id: 1,
            name: "one".to_string(),
            picture: None,
            date_of_birth: None
        }]
    );

    assert!(friend_manager.is_my_friend(one, two).unwrap());
    assert!(friend_manager.is_my_friend(two, one).unwrap());

    //Check cannot update once accepted/declined
    let error = friend_manager
        .update_received_request(1, two, RequestStatus::Declined)
        .unwrap_err();
    assert!(matches!(
        error,
        FriendsManagerError::FriendRequestDoesNotExists(_, _)
    ));
}

#[test]
fn test_cancel_friend_request() {
    let mut users_manager = UsersManager::new();
    let one = users_manager.add_user("one", "pwd").unwrap();
    let two = users_manager.add_user("two", "pwd").unwrap();
    let mut friend_manager = FriendsManager::new(users_manager);
    friend_manager.create_friend_request(one, "two").unwrap();

    let error = friend_manager.cancel_sent_request(1, two).unwrap_err();
    assert!(matches!(
        error,
        FriendsManagerError::FriendRequestDoesNotExists(_, _)
    ));

    friend_manager.cancel_sent_request(1, one).unwrap();
    let requests = friend_manager.get_requests(one).unwrap();
    assert_eq!(
        requests,
        Requests {
            sent: vec![],
            received: vec![]
        }
    );
    let requests = friend_manager.get_requests(two).unwrap();
    assert_eq!(
        requests,
        Requests {
            sent: vec![],
            received: vec![]
        }
    );
    let friends = friend_manager.get_friends(one).unwrap();
    assert_eq!(friends, vec![]);
    let friends = friend_manager.get_friends(two).unwrap();
    assert_eq!(friends, vec![]);

    //Check cannot cancel once accepted/declined
    friend_manager.create_friend_request(one, "two").unwrap();
    friend_manager
        .update_received_request(2, two, RequestStatus::Accepted)
        .unwrap();
    let error = friend_manager.cancel_sent_request(1, two).unwrap_err();
    assert!(matches!(
        error,
        FriendsManagerError::FriendRequestDoesNotExists(_, _)
    ));
}
