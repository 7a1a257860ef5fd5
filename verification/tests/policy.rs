use djroom::api::{IngressMessage, RegisterMessage};
use djroom::policy::{role_allows, AnonymousPolicy, DefaultPolicy, OwnerPolicy, Policy, Role};
use djroom::users::User;

fn all_kinds() -> Vec<IngressMessage> {
    vec![
        IngressMessage::Register(RegisterMessage { nick: "n".to_string() }),
        IngressMessage::Disconnect,
        IngressMessage::Skip,
        IngressMessage::Part,
        IngressMessage::DjQueue,
        IngressMessage::DjUnqueue,
        IngressMessage::Message("m".to_string()),
    ]
}

#[test]
fn policy_table_anonymous_row() {
    let expected = [true, false, false, true, false, false, false];
    for (m, e) in all_kinds().iter().zip(expected) {
        assert_eq!(role_allows(Role::Anonymous, m), e, "anonymous row, {:?}", m);
    }
}

#[test]
fn policy_table_member_row() {
    let expected = [false, false, false, true, false, false, true];
    for (m, e) in all_kinds().iter().zip(expected) {
        assert_eq!(role_allows(Role::Member, m), e, "member row, {:?}", m);
    }
}

#[test]
fn policy_table_owner_row() {
    for m in all_kinds() {
        assert!(role_allows(Role::Owner, &m), "owner row, {:?}", m);
    }
}

#[test]
fn policy_impls_match_table() {
    for m in all_kinds() {
        assert_eq!(AnonymousPolicy.allow(&m), role_allows(Role::Anonymous, &m));
        assert_eq!(DefaultPolicy.allow(&m), role_allows(Role::Member, &m));
        assert_eq!(OwnerPolicy.allow(&m), role_allows(Role::Owner, &m));
    }
}

#[test]
fn user_registration_state() {
    let anon = User::anonymous();
    assert!(anon.is_anonymous());
    assert_eq!(anon.nick(), "Anonymous");
    assert_eq!(anon.policy(), Role::Anonymous);

    let reg = User::registered("ann");
    assert!(!reg.is_anonymous());
    assert_eq!(reg.nick(), "ann");
    assert_eq!(reg.policy(), Role::Member);
}
