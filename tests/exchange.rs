use user_rust::attr::{find_attribute, Attribute};
use user_rust::engine::{reply_result, Connection, DumpSession, DumpStep, ResolveStart};
use user_rust::error::NlError;
use user_rust::family::{build_msg, NlFoobarXmplAttribute, NlFoobarXmplCommand, ECHO_MSG, FAMILY_NAME};
use user_rust::frame::{decode_genl_message, encode_message, NLM_F_DUMP, NLM_F_REQUEST};

fn error_frame(code: i32, seq: u32, port: u32, echoed: &[u8]) -> Vec<u8> {
    let mut b = Vec::new();
    b.extend_from_slice(&((20 + echoed.len()) as u32).to_le_bytes());
    b.extend_from_slice(&[2, 0, 0, 0]);
    b.extend_from_slice(&seq.to_le_bytes());
    b.extend_from_slice(&port.to_le_bytes());
    b.extend_from_slice(&code.to_le_bytes());
    b.extend_from_slice(echoed);
    b
}

fn done_frame(seq: u32) -> Vec<u8> {
    let mut b = vec![20, 0, 0, 0, 3, 0, 2, 0];
    b.extend_from_slice(&seq.to_le_bytes());
    b.extend_from_slice(&[0u8; 8]);
    b
}

#[test]
fn echo_scenario() {
    let mut conn = Connection::new(77);
    let attrs = vec![Attribute::from_str_value(1, "hello")];
    let req = conn.request(0x20, 1, 1, 0, &attrs).unwrap();
    let sent = decode_genl_message(&req).unwrap();
    assert_eq!(sent.flags & NLM_F_REQUEST, NLM_F_REQUEST);
    assert_eq!((sent.seq, sent.port, sent.command), (1, 77, 1));
    let reply = encode_message(0x20, 0, sent.seq, sent.port, 1, 1, &sent.attrs).unwrap();
    let m = reply_result(&reply).unwrap();
    let i = find_attribute(&m.attrs, 1).unwrap();
    assert_eq!(m.attrs[i].string_value().unwrap(), "hello");
}

#[test]
fn reply_with_error_scenario() {
    let mut conn = Connection::new(5);
    let req = conn.request(0x20, 2, 1, 0, &vec![]).unwrap();
    let frame = error_frame(-22, 1, 5, &req);
    match reply_result(&frame) {
        Err(NlError::Reply(e)) => {
            assert_eq!(e.code, -22);
            assert_eq!(e.echoed.command, 2);
        }
        _ => panic!("expected an error reply"),
    }
}

#[test]
fn reply_result_rejects_done() {
    assert!(matches!(reply_result(&done_frame(1)), Err(NlError::UnexpectedDone)));
}

#[test]
fn dump_collects_three_frames_in_order() {
    let mut conn = Connection::new(9);
    let req = conn.dump_request(0x20, 1, 1, &vec![]).unwrap();
    let sent = decode_genl_message(&req).unwrap();
    assert_eq!(sent.flags, NLM_F_REQUEST | NLM_F_DUMP);
    let mut peer: Vec<Vec<u8>> = Vec::new();
    for k in 0..3u8 {
        let a = vec![Attribute { attr_type: 1, value: vec![b'0' + k, 0] }];
        peer.push(encode_message(0x20, 2, 1, 9, 1, 1, &a).unwrap());
    }
    peer.push(done_frame(1));
    peer.push(encode_message(0x20, 2, 1, 9, 1, 1, &vec![]).unwrap());
    let mut reads = 0usize;
    let mut session = DumpSession::new();
    let result = loop {
        let frame = &peer[reads];
        reads += 1;
        match session.receive(frame) {
            DumpStep::More(s) => session = s,
            DumpStep::Complete(v) => break v,
            DumpStep::Failed(_) => panic!("dump failed"),
        }
    };
    assert_eq!(reads, 4);
    assert_eq!(result.len(), 3);
    for (k, m) in result.iter().enumerate() {
        assert_eq!(m.attrs[0].string_value().unwrap(), ((b'0' + k as u8) as char).to_string());
    }
}

#[test]
fn dump_aborts_on_error_frame() {
    let s = DumpSession::new();
    let echoed = encode_message(0x20, 0, 1, 1, 1, 1, &vec![]).unwrap();
    match s.receive(&error_frame(-1, 1, 1, &echoed)) {
        DumpStep::Failed(NlError::Reply(e)) => assert_eq!(e.code, -1),
        _ => panic!("expected the dump to fail"),
    }
    let s = DumpSession::new();
    assert!(matches!(s.receive(&[0u8; 4]), DumpStep::Failed(NlError::ShortHeader)));
}

#[test]
fn family_request_layout() {
    let mut conn = Connection::new(3);
    let req = conn.family_request(FAMILY_NAME).unwrap();
    let m = decode_genl_message(&req).unwrap();
    assert_eq!((m.msg_type, m.flags, m.command, m.version), (16, 1, 3, 2));
    assert_eq!(m.attrs.len(), 1);
    assert_eq!(m.attrs[0].attr_type, 2);
    assert_eq!(m.attrs[0].value, b"gnl_foobar_xmpl\0".to_vec());
    assert_eq!(conn.next_seq, 2);
}

#[test]
fn unknown_family_is_not_found() {
    let mut conn = Connection::new(3);
    let req = conn.family_request("no_such_family").unwrap();
    let r = conn.resolve_reply("no_such_family", &error_frame(-2, 1, 3, &req));
    assert!(matches!(r, Err(NlError::FamilyNotFound)));
    assert_eq!(conn.cached_family("no_such_family"), None);
    assert!(conn.families.is_empty());
}

#[test]
fn resolved_family_is_cached() {
    let mut conn = Connection::new(3);
    conn.family_request(FAMILY_NAME).unwrap();
    let attrs = vec![
        Attribute::from_str_value(2, FAMILY_NAME),
        Attribute { attr_type: 1, value: vec![0x22, 0x01] },
    ];
    let reply = encode_message(16, 0, 1, 3, 1, 2, &attrs).unwrap();
    assert_eq!(conn.resolve_reply(FAMILY_NAME, &reply).unwrap(), 0x0122);
    assert_eq!(conn.cached_family(FAMILY_NAME), Some(0x0122));
    assert_eq!(conn.cached_family("other"), None);
}

#[test]
fn resolve_reply_without_id() {
    let mut conn = Connection::new(3);
    let reply = encode_message(16, 0, 1, 3, 1, 2, &vec![Attribute::from_str_value(2, "x")]).unwrap();
    assert!(matches!(conn.resolve_reply("x", &reply), Err(NlError::MissingAttribute)));
    let bad = encode_message(16, 0, 1, 3, 1, 2, &vec![Attribute { attr_type: 1, value: vec![1] }]).unwrap();
    assert!(matches!(conn.resolve_reply("x", &bad), Err(NlError::MalformedAttribute)));
}

#[test]
fn sequence_numbers_advance_and_wrap() {
    let mut conn = Connection::new(0);
    conn.request(0x20, 1, 1, 0, &vec![]).unwrap();
    assert_eq!(conn.next_seq, 2);
    conn.next_seq = u32::MAX;
    conn.request(0x20, 1, 1, 0, &vec![]).unwrap();
    assert_eq!(conn.next_seq, 0);
}

#[test]
fn command_and_attribute_ids() {
    assert_eq!(NlFoobarXmplCommand::EchoMsg.id(), 1);
    assert_eq!(NlFoobarXmplCommand::ReplyWithNlmsgErr.id(), 2);
    assert_eq!(NlFoobarXmplCommand::from_id(2).unwrap(), NlFoobarXmplCommand::ReplyWithNlmsgErr);
    assert!(matches!(NlFoobarXmplCommand::from_id(3), Err(NlError::UnknownVariant)));
    assert_eq!(NlFoobarXmplAttribute::Msg.id(), 1);
    assert_eq!(NlFoobarXmplAttribute::from_id(0).unwrap(), NlFoobarXmplAttribute::Unspec);
    assert!(matches!(NlFoobarXmplAttribute::from_id(2), Err(NlError::UnknownVariant)));
}

#[test]
fn build_msg_is_a_dump_echo_request() {
    let mut conn = Connection::new(12);
    let b = build_msg(&mut conn, 0x21).unwrap();
    let m = decode_genl_message(&b).unwrap();
    assert_eq!((m.msg_type, m.flags, m.command, m.version, m.port), (0x21, NLM_F_REQUEST | NLM_F_DUMP, 1, 1, 12));
    assert_eq!(m.attrs[0].attr_type, 1);
    assert_eq!(m.attrs[0].string_value().unwrap(), ECHO_MSG);
}

#[test]
fn start_resolve_asks_once_then_uses_cache() {
    let mut conn = Connection::new(4);
    let req = match conn.start_resolve(FAMILY_NAME).unwrap() {
        ResolveStart::Request(b) => b,
        ResolveStart::Cached(_) => panic!("nothing is cached yet"),
    };
    assert_eq!(decode_genl_message(&req).unwrap().command, 3);
    let attrs = vec![Attribute { attr_type: 1, value: vec![0x30, 0x00] }];
    let reply = encode_message(16, 0, 1, 4, 1, 2, &attrs).unwrap();
    assert_eq!(conn.resolve_reply(FAMILY_NAME, &reply).unwrap(), 0x30);
    assert!(matches!(conn.start_resolve(FAMILY_NAME).unwrap(), ResolveStart::Cached(0x30)));
    assert_eq!(conn.next_seq, 2);
}
