use giftlist::notifications::NotificationEvent;

#[test]
fn test_event_kinds_and_details() {
    assert_eq!(NotificationEvent::CreateCategory(3).to_sql_type(), "CreateCategory");
    assert_eq!(NotificationEvent::UpdateCategory(3).to_sql_type(), "UpdateCategory");
    assert_eq!(NotificationEvent::DeleteCategory(3).to_sql_type(), "DeleteCategory");
    assert_eq!(NotificationEvent::CreateGift(3).to_sql_type(), "CreateGift");
    assert_eq!(NotificationEvent::UpdateGift(3).to_sql_type(), "UpdateGift");
    assert_eq!(NotificationEvent::DeleteGift(3).to_sql_type(), "DeleteGift");

    assert_eq!(NotificationEvent::CreateGift(0).to_sql_detail(), "0");
    assert_eq!(NotificationEvent::CreateGift(42).to_sql_detail(), "42");
    assert_eq!(NotificationEvent::UpdateGift(-7).to_sql_detail(), "-7");
    assert_eq!(NotificationEvent::DeleteGift(1000001).to_sql_detail(), "1000001");
    assert_eq!(
        NotificationEvent::DeleteGift(i64::MAX).to_sql_detail(),
        "9223372036854775807"
    );
    assert_eq!(
        NotificationEvent::DeleteGift(i64::MIN).to_sql_detail(),
        "-9223372036854775808"
    );
}
