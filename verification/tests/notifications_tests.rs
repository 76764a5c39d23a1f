use giftlist::friends::{FriendsManager, RequestStatus};
use giftlist::notifications::{Notification, NotificationEvent, NotificationsManager};
use giftlist::users::UsersManager;

fn friends_of_one() -> (FriendsManager, i64, i64, i64) {
    let mut users_manager = UsersManager::new();
    let user_one = users_manager.add_user("one", "pwd").unwrap();
    let user_two = users_manager.add_user("two", "pwd").unwrap();
    let user_three = users_manager.add_user("three", "pwd").unwrap();
    let mut friends_manager = FriendsManager::new(users_manager);
    friends_manager
        .create_friend_request(user_one, "two")
        .unwrap();
    friends_manager
        .create_friend_request(user_one, "three")
        .unwrap();
    let requests = friends_manager.get_requests(user_two).unwrap();
    for request in requests.received {
        friends_manager
            .update_received_request(request.id, user_two, RequestStatus::Accepted)
            .unwrap()
    }
    let requests = friends_manager.get_requests(user_three).unwrap();
    for request in requests.received {
        friends_manager
            .update_received_request(request.id, user_three, RequestStatus::Accepted)
            .unwrap()
    }
    (friends_manager, user_one, user_two, user_three)
}

#[test]
fn test_add_notification() {
    let (friends_manager, user_one, user_two, user_three) = friends_of_one();

    let mut notifications_manager = NotificationsManager::new(friends_manager);
    notifications_manager
        .add_notification(user_one, NotificationEvent::CreateGift(42))
        .unwrap();

    let notifications = notifications_manager.get_notifications(user_one).unwrap();
    assert!(notifications.is_empty());
    let notifications = notifications_manager.get_notifications(user_two).unwrap();
    assert_eq!(
        notifications,
        vec![Notification {
            id: 0,
            _type: "CreateGift".to_string(),
            detail: "42".to_string(),
            created_at: 0,
            created_by: "one".to_string(),
            read: false
        }]
    );
    let notifications = notifications_manager.get_notifications(user_three).unwrap();
    assert_eq!(
        notifications,
        vec![Notification {
            id: 0,
            _type: "CreateGift".to_string(),
            detail: "42".to_string(),
            created_at: 0,
            created_by: "one".to_string(),
            read: false
        }]
    );
}

#[test]
fn test_add_notification_no_friend() {
    let mut users_manager = UsersManager::new();
    let user_one = users_manager.add_user("one", "pwd").unwrap();
    let friends_manager = FriendsManager::new(users_manager);

    let mut notifications_manager = NotificationsManager::new(friends_manager);
    notifications_manager
        .add_notification(user_one, NotificationEvent::CreateGift(1))
        .unwrap();

    assert_eq!(notifications_manager.notifications_count(), 0);
    assert_eq!(notifications_manager.details_count(), 0);
}

#[test]
fn test_read_notification() {
    let (friends_manager, user_one, user_two, user_three) = friends_of_one();

    let mut notifications_manager = NotificationsManager::new(friends_manager);
    notifications_manager
        .add_notification(user_one, NotificationEvent::CreateGift(42))
        .unwrap();

    //read user two
    let notifications = notifications_manager.get_notifications(user_two).unwrap();
    notifications_manager
        .read_notification(notifications.first().unwrap().id)
        .unwrap();
    let notifications = notifications_manager.get_notifications(user_two).unwrap();
    assert_eq!(
        notifications,
        vec![Notification {
            id: 0,
            _type: "CreateGift".to_string(),
            detail: "42".to_string(),
            created_at: 0,
            created_by: "one".to_string(),
            read: true
        }]
    );
    let notifications = notifications_manager.get_notifications(user_three).unwrap();
    assert_eq!(
        notifications,
        vec![Notification {
            id: 0,
            _type: "CreateGift".to_string(),
            detail: "42".to_string(),
            created_at: 0,
            created_by: "one".to_string(),
            read: false
        }]
    );

    //read user three
    let notifications = notifications_manager.get_notifications(user_three).unwrap();
    notifications_manager
        .read_notification(notifications.first().unwrap().id)
        .unwrap();
    let notifications = notifications_manager.get_notifications(user_two).unwrap();
    assert_eq!(
        notifications,
        vec![Notification {
            id: 0,
            _type: "CreateGift".to_string(),
            detail: "42".to_string(),
            created_at: 0,
            created_by: "one".to_string(),
            read: true
        }]
    );
    let notifications = notifications_manager.get_notifications(user_three).unwrap();
    assert_eq!(
        notifications,
        vec![Notification {
            id: 0,
            _type: "CreateGift".to_string(),
            detail: "42".to_string(),
            created_at: 0,
            created_by: "one".to_string(),
            read: true
        }]
    );
}
