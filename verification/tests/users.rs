use foxbox_taxonomy::method_call::User;

#[test]
fn test_user_partialeq() {
    assert_eq!(User::Anonymous, User::Anonymous);
    assert_eq!(User::Id(1), User::Id(1));
}

#[test]
fn test_user_distinguishes_ids() {
    assert_ne!(User::Id(1), User::Id(2));
    assert_ne!(User::Anonymous, User::Id(0));
}
