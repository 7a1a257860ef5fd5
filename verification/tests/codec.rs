use djroom::api::{
    Clock, EgressMessage, EgressMessageField, EnqueueItem, IngressMessage, IngressMessageField,
    Join, Part, PlayItem, PlaybackMessage, PlaybackMessageField, RegisterMessage, Skip,
    StatusMessage, UserMessage,
};
use djroom::codec::{decode_egress, decode_ingress, encode_egress, encode_ingress};
use djroom::users::UserId;

#[test]
fn encode_join_exact() {
    let m = EgressMessage::Join(Join { when: 0, uid: UserId(1), nick: "ann".to_string() });
    assert_eq!(encode_egress(&m), "[\"join\",{\"when\":0,\"uid\":1,\"nick\":\"ann\"}]");
}

#[test]
fn encode_part_exact() {
    let m = EgressMessage::Part(Part { when: 0, uid: UserId(7) });
    assert_eq!(encode_egress(&m), "[\"part\",{\"when\":0,\"uid\":7}]");
}

#[test]
fn encode_clock_exact() {
    let m = EgressMessage::Clock(Clock { when: 1234567890 });
    assert_eq!(encode_egress(&m), "[\"clock\",{\"when\":1234567890}]");
}

#[test]
fn encode_status_exact() {
    let m = EgressMessage::StatusMessage(StatusMessage { when: 0, body: "room open".to_string() });
    assert_eq!(
        encode_egress(&m),
        "[\"status_message\",{\"when\":0,\"body\":\"room open\"}]"
    );
}

#[test]
fn encode_user_message_exact() {
    let m = EgressMessage::UserMessage(UserMessage {
        when: 0,
        uid: UserId(2),
        body: "hi".to_string(),
    });
    assert_eq!(
        encode_egress(&m),
        "[\"user_message\",{\"when\":0,\"uid\":2,\"body\":\"hi\"}]"
    );
}

#[test]
fn encode_playback_variants_exact() {
    let e = EgressMessage::PlaybackMessage(PlaybackMessage::EnqueueItem(EnqueueItem {
        when: 3,
        uid: UserId(4),
        yid: "abc".to_string(),
    }));
    assert_eq!(
        encode_egress(&e),
        "[\"playback_message\",[\"enqueue_item\",{\"when\":3,\"uid\":4,\"yid\":\"abc\"}]]"
    );
    let p = EgressMessage::PlaybackMessage(PlaybackMessage::PlayItem(PlayItem {
        when: 5,
        uid: UserId(6),
        yid: "xyz".to_string(),
    }));
    assert_eq!(
        encode_egress(&p),
        "[\"playback_message\",[\"play_item\",{\"when\":5,\"uid\":6,\"yid\":\"xyz\"}]]"
    );
    let s = EgressMessage::PlaybackMessage(PlaybackMessage::Skip(Skip { uid: UserId(9) }));
    assert_eq!(
        encode_egress(&s),
        "[\"playback_message\",[\"skip\",{\"uid\":9}]]"
    );
}

#[test]
fn encode_escapes() {
    let m = IngressMessage::Message("a\"b\\c\nd\u{1}".to_string());
    assert_eq!(
        encode_ingress(&m),
        "[\"message\",\"a\\\"b\\\\c\\nd\\u0001\"]"
    );
}

#[test]
fn encode_ingress_variants_exact() {
    let r = IngressMessage::Register(RegisterMessage { nick: "ann".to_string() });
    assert_eq!(encode_ingress(&r), "[\"register\",{\"nick\":\"ann\"}]");
    assert_eq!(encode_ingress(&IngressMessage::Disconnect), "[\"disconnect\"]");
    assert_eq!(encode_ingress(&IngressMessage::Skip), "[\"skip\"]");
    assert_eq!(encode_ingress(&IngressMessage::Part), "[\"part\"]");
    assert_eq!(encode_ingress(&IngressMessage::DjQueue), "[\"dj_queue\"]");
    assert_eq!(encode_ingress(&IngressMessage::DjUnqueue), "[\"dj_unqueue\"]");
    assert_eq!(
        encode_ingress(&IngressMessage::Message("hi".to_string())),
        "[\"message\",\"hi\"]"
    );
}

#[test]
fn decode_ingress_round_trips() {
    let msgs = vec![
        IngressMessage::Register(RegisterMessage { nick: "ann".to_string() }),
        IngressMessage::Disconnect,
        IngressMessage::Skip,
        IngressMessage::Part,
        IngressMessage::DjQueue,
        IngressMessage::DjUnqueue,
        IngressMessage::Message("hello \"world\"\n".to_string()),
    ];
    for m in msgs {
        let txt = encode_ingress(&m);
        assert_eq!(decode_ingress(&txt), Ok(m));
    }
}

#[test]
fn decode_ingress_whitespace() {
    let r = decode_ingress(" [ \"register\" , { \"nick\" : \"bob\" } ] ");
    assert_eq!(
        r,
        Ok(IngressMessage::Register(RegisterMessage { nick: "bob".to_string() }))
    );
    let d = decode_ingress("\t[\n\"disconnect\"\r]\n");
    assert_eq!(d, Ok(IngressMessage::Disconnect));
}

#[test]
fn decode_ingress_escapes() {
    let r = decode_ingress("[\"message\",\"a\\u0041\\n\\\"\\u00e9\\/\"]");
    assert_eq!(r, Ok(IngressMessage::Message("aA\n\"\u{e9}/".to_string())));
}

#[test]
fn decode_surrogate_pair() {
    let r = decode_ingress("[\"message\",\"\\ud83d\\ude00\"]");
    assert_eq!(r, Ok(IngressMessage::Message("\u{1F600}".to_string())));
}

#[test]
fn decode_ingress_errors() {
    assert!(decode_ingress("").is_err());
    assert!(decode_ingress("{}").is_err());
    assert!(decode_ingress("[\"nope\"]").is_err());
    assert!(decode_ingress("[\"register\"]").is_err());
    assert!(decode_ingress("[\"register\",{\"nick\":\"a\",\"x\":1}]").is_err());
    assert!(decode_ingress("[\"register\",{\"name\":\"a\"}]").is_err());
    assert!(decode_ingress("[\"part\",1]").is_err());
    assert!(decode_ingress("[\"message\"]").is_err());
    assert!(decode_ingress("[\"message\",\"a").is_err());
    assert!(decode_ingress("[\"message\",\"\\q\"]").is_err());
    assert!(decode_ingress("[\"message\",\"\\ud800\"]").is_err());
    assert!(decode_ingress("[\"message\",\"a\"],").is_err());
}

#[test]
fn decode_egress_round_trips() {
    let msgs = vec![
        EgressMessage::Clock(Clock { when: 42 }),
        EgressMessage::Join(Join { when: 0, uid: UserId(1), nick: "ann".to_string() }),
        EgressMessage::Part(Part { when: 0, uid: UserId(2) }),
        EgressMessage::StatusMessage(StatusMessage { when: 0, body: "up".to_string() }),
        EgressMessage::UserMessage(UserMessage {
            when: 0,
            uid: UserId(3),
            body: "yo".to_string(),
        }),
        EgressMessage::PlaybackMessage(PlaybackMessage::EnqueueItem(EnqueueItem {
            when: 1,
            uid: UserId(4),
            yid: "t1".to_string(),
        })),
        EgressMessage::PlaybackMessage(PlaybackMessage::PlayItem(PlayItem {
            when: 2,
            uid: UserId(5),
            yid: "t2".to_string(),
        })),
        EgressMessage::PlaybackMessage(PlaybackMessage::Skip(Skip { uid: UserId(6) })),
    ];
    for m in msgs {
        let txt = encode_egress(&m);
        assert_eq!(decode_egress(&txt), Ok(m));
    }
}

#[test]
fn decode_egress_numbers() {
    assert_eq!(
        decode_egress("[\"clock\",{\"when\":5}]"),
        Ok(EgressMessage::Clock(Clock { when: 5 }))
    );
    assert_eq!(
        decode_egress("[\"clock\",{\"when\":18446744073709551615}]"),
        Ok(EgressMessage::Clock(Clock { when: u64::MAX }))
    );
    assert!(decode_egress("[\"clock\",{\"when\":18446744073709551616}]").is_err());
    assert!(decode_egress("[\"clock\",{\"when\":1.5}]").is_err());
    assert!(decode_egress("[\"clock\",{\"when\":01}]").is_err());
    assert!(decode_egress("[\"clock\",{\"when\":-1}]").is_err());
    assert!(decode_egress("[\"clock\",{\"when\":}]").is_err());
}

#[test]
fn field_names_round_trip() {
    for f in [
        IngressMessageField::Register,
        IngressMessageField::Disconnect,
        IngressMessageField::Skip,
        IngressMessageField::Part,
        IngressMessageField::DjQueue,
        IngressMessageField::DjUnqueue,
        IngressMessageField::Message,
    ] {
        assert_eq!(IngressMessageField::from_name(f.name()), Ok(f));
    }
    for f in [
        EgressMessageField::Clock,
        EgressMessageField::Join,
        EgressMessageField::Part,
        EgressMessageField::StatusMessage,
        EgressMessageField::UserMessage,
        EgressMessageField::PlaybackMessage,
    ] {
        assert_eq!(EgressMessageField::from_name(f.name()), Ok(f));
    }
    for f in [
        PlaybackMessageField::EnqueueItem,
        PlaybackMessageField::PlayItem,
        PlaybackMessageField::Skip,
    ] {
        assert_eq!(PlaybackMessageField::from_name(f.name()), Ok(f));
    }
    assert_eq!(IngressMessageField::from_name("REGISTER"), Err(()));
    assert_eq!(EgressMessageField::from_name(""), Err(()));
    assert_eq!(PlaybackMessageField::from_name("jump"), Err(()));
}

#[test]
fn encoded_frames_are_json() {
    let m = EgressMessage::Join(Join { when: 0, uid: UserId(1), nick: "a\"b".to_string() });
    let txt = encode_egress(&m);
    let val: serde_json::Value = serde_json::from_str(&txt).unwrap();
    assert_eq!(val[0].as_str(), Some("join"));
    assert_eq!(val[1]["when"].as_u64(), Some(0));
    assert_eq!(val[1]["uid"].as_u64(), Some(1));
    assert_eq!(val[1]["nick"].as_str(), Some("a\"b"));
}
