use giftlist::users::{UsersManager, UsersManagerError};

#[test]
fn test_add_user() {
    let mut users_manager = UsersManager::new();

    let id = users_manager.add_user("test", "strong_pwd").unwrap();
    assert_eq!(id, 1);
    let user = users_manager.get_user("test").unwrap();
    assert!(user.test_eq(1, "test", None, None), "Got: {user:?}");
    assert!(users_manager.check_password("test", "strong_pwd").is_ok());

    let id = users_manager.add_user("test2", "weak_pwd").unwrap();
    assert_eq!(id, 2);
    let user = users_manager.get_user("test2").unwrap();
    assert!(user.test_eq(2, "test2", None, None), "Got: {user:?}");
    assert!(users_manager.check_password("test2", "weak_pwd").is_ok());

    let error = users_manager.add_user("test2", "already_there").unwrap_err();
    assert!(matches!(error, UsersManagerError::UserAlreadyExist(_)));
}

#[test]
fn test_get_unknown_user() {
    let mut users_manager = UsersManager::new();

    users_manager.add_user("test", "strong_pwd").unwrap();
    let user = users_manager.get_user("test").unwrap();
    assert!(user.test_eq(1, "test", None, None), "Got: {user:?}");
    assert!(users_manager.check_password("test", "strong_pwd").is_ok());

    let error = users_manager.get_user("unknown").unwrap_err();
    assert!(matches!(error, UsersManagerError::UnknownUser(_)));
}

#[test]
fn test_change_password() {
    let mut users_manager = UsersManager::new();

    let id = users_manager.add_user("test", "strong_pwd").unwrap();
    assert_eq!(id, 1);
    let user = users_manager.get_user("test").unwrap();
    assert!(user.test_eq(1, "test", None, None), "Got: {user:?}");
    assert!(users_manager.check_password("test", "strong_pwd").is_ok());

    let uuid = users_manager.create_password_reset_request(1).unwrap();

    users_manager
        .change_user_password(id, &uuid, "new_strong")
        .unwrap();
    assert!(users_manager.check_password("test", "new_strong").is_ok());
    assert!(users_manager.check_password("test", "strong_pwd").is_err());
}

#[test]
fn test_change_password_unknown_uuid() {
    let mut users_manager = UsersManager::new();

    let id = users_manager.add_user("test", "strong_pwd").unwrap();
    assert_eq!(id, 1);
    let user = users_manager.get_user("test").unwrap();
    assert!(user.test_eq(1, "test", None, None), "Got: {user:?}");
    assert!(users_manager.check_password("test", "strong_pwd").is_ok());

    users_manager
        .change_user_password(id, "random_uuid", "new_strong")
        .unwrap();
    assert!(users_manager.check_password("test", "new_strong").is_err());
    assert!(users_manager.check_password("test", "strong_pwd").is_ok());
}
