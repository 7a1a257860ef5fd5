use djroom::api::{EgressMessage, IngressMessage, Join, RegisterMessage, StatusMessage, UserMessage};
use djroom::channel::{ChanMessage, Channel};
use djroom::codec::{decode_ingress, encode_egress};
use djroom::users::UserId;

fn register(nick: &str) -> IngressMessage {
    IngressMessage::Register(RegisterMessage { nick: nick.to_string() })
}

#[test]
fn register_broadcasts_join() {
    let mut ch = Channel::new();
    assert_eq!(ch.handle_event(ChanMessage::Introduce(UserId(1))), None);
    let out = ch.handle_event(ChanMessage::Message(UserId(1), register("ann")));
    assert_eq!(
        out,
        Some(EgressMessage::Join(Join { when: 0, uid: UserId(1), nick: "ann".to_string() }))
    );
    assert_eq!(ch.broadcast_targets(), vec![UserId(1)]);
}

#[test]
fn register_wire_to_wire() {
    let mut ch = Channel::new();
    ch.handle_event(ChanMessage::Introduce(UserId(1)));
    let ingress = decode_ingress("[\"register\",{\"nick\":\"ann\"}]").unwrap();
    let out = ch.handle_msg(UserId(1), &ingress).unwrap();
    assert_eq!(
        encode_egress(&out),
        "[\"join\",{\"when\":0,\"uid\":1,\"nick\":\"ann\"}]"
    );
}

#[test]
fn anonymous_message_dropped() {
    let mut ch = Channel::new();
    ch.handle_event(ChanMessage::Introduce(UserId(1)));
    let out = ch.handle_msg(UserId(1), &IngressMessage::Message("hi".to_string()));
    assert_eq!(out, None);
}

#[test]
fn unknown_user_dropped() {
    let mut ch = Channel::new();
    assert_eq!(ch.handle_msg(UserId(5), &IngressMessage::Message("hi".to_string())), None);
    assert_eq!(ch.handle_msg(UserId(5), &register("x")), None);
    assert_eq!(ch.broadcast_targets(), Vec::<UserId>::new());
}

#[test]
fn register_twice_is_noop() {
    let mut ch = Channel::new();
    ch.handle_event(ChanMessage::Introduce(UserId(1)));
    assert!(ch.handle_msg(UserId(1), &register("ann")).is_some());
    assert_eq!(ch.handle_msg(UserId(1), &register("bob")), None);
}

#[test]
fn member_allowed_and_denied_kinds() {
    let mut ch = Channel::new();
    ch.handle_event(ChanMessage::Introduce(UserId(1)));
    ch.handle_msg(UserId(1), &register("ann"));
    let out = ch.handle_msg(UserId(1), &IngressMessage::Message("hi".to_string()));
    assert_eq!(
        out,
        Some(EgressMessage::UserMessage(UserMessage {
            when: 0,
            uid: UserId(1),
            body: "hi".to_string(),
        }))
    );
    assert_eq!(ch.handle_msg(UserId(1), &IngressMessage::Skip), None);
    assert_eq!(ch.handle_msg(UserId(1), &IngressMessage::Disconnect), None);
    assert_eq!(ch.handle_msg(UserId(1), &IngressMessage::DjQueue), None);
    assert_eq!(ch.handle_msg(UserId(1), &IngressMessage::Part), None);
}

#[test]
fn dj_queue_sequence_stays_empty() {
    let mut ch = Channel::new();
    ch.handle_event(ChanMessage::Introduce(UserId(2)));
    assert_eq!(ch.handle_msg(UserId(2), &IngressMessage::DjQueue), None);
    assert_eq!(ch.handle_msg(UserId(2), &IngressMessage::DjQueue), None);
    assert_eq!(ch.handle_msg(UserId(2), &IngressMessage::DjUnqueue), None);
    assert!(ch.dj_queue().is_empty());
}

#[test]
fn status_broadcast_unconditional() {
    let mut ch = Channel::new();
    let out = ch.handle_event(ChanMessage::Status("room open".to_string()));
    assert_eq!(
        out,
        Some(EgressMessage::StatusMessage(StatusMessage {
            when: 0,
            body: "room open".to_string(),
        }))
    );
}

#[test]
fn broadcast_targets_sorted() {
    let mut ch = Channel::new();
    ch.handle_event(ChanMessage::Introduce(UserId(3)));
    ch.handle_event(ChanMessage::Introduce(UserId(1)));
    ch.handle_event(ChanMessage::Introduce(UserId(2)));
    assert_eq!(ch.broadcast_targets(), vec![UserId(1), UserId(2), UserId(3)]);
}

#[test]
fn introduce_twice_keeps_one_slot() {
    let mut ch = Channel::new();
    ch.handle_event(ChanMessage::Introduce(UserId(1)));
    ch.handle_event(ChanMessage::Introduce(UserId(1)));
    assert_eq!(ch.broadcast_targets(), vec![UserId(1)]);
}

#[test]
fn failed_sink_pruned_and_not_retried() {
    let mut ch = Channel::new();
    ch.handle_event(ChanMessage::Introduce(UserId(1)));
    ch.handle_event(ChanMessage::Introduce(UserId(2)));
    ch.handle_event(ChanMessage::Introduce(UserId(3)));
    assert_eq!(ch.broadcast_targets(), vec![UserId(1), UserId(2), UserId(3)]);
    ch.prune_dead(&vec![UserId(2)]);
    assert_eq!(ch.broadcast_targets(), vec![UserId(1), UserId(3)]);
    ch.prune_dead(&vec![UserId(2)]);
    assert_eq!(ch.broadcast_targets(), vec![UserId(1), UserId(3)]);
}

#[test]
fn prune_keeps_order_of_the_rest() {
    let mut ch = Channel::new();
    for u in [1u64, 2, 3, 4, 5] {
        ch.handle_event(ChanMessage::Introduce(UserId(u)));
    }
    ch.prune_dead(&vec![UserId(1), UserId(4)]);
    assert_eq!(ch.broadcast_targets(), vec![UserId(2), UserId(3), UserId(5)]);
}
