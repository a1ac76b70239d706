use clawnet::direct::{
    check_frame_len, frame, frame_len, request_frame, respond, response_content, FrameTooLarge,
    ACK_CONTENT, MAX_FRAME_LEN,
};
use clawnet::protocol::{BotAnnouncement, DecodeError, DirectMessage, GossipMessage};

fn sample_announcement() -> BotAnnouncement {
    BotAnnouncement {
        node_id: "node-x".to_string(),
        name: "alpha".to_string(),
        version: "0.1.0".to_string(),
        capabilities: vec!["chat".to_string(), "search".to_string()],
        openclaw_version: Some("1.2".to_string()),
        mode: None,
        timestamp: 1_700_000_000,
        ttl: 30,
        metadata: vec![("region".to_string(), "eu-wést".to_string())],
    }
}

#[test]
fn announce_round_trip() {
    let m = GossipMessage::Announce(sample_announcement());
    let bytes = m.to_bytes();
    assert_eq!(GossipMessage::from_bytes(&bytes), Ok(m));
}

#[test]
fn leave_round_trip() {
    let m = GossipMessage::Leave { node_id: "node-y".to_string(), timestamp: u64::MAX };
    let bytes = m.to_bytes();
    assert_eq!(GossipMessage::from_bytes(&bytes), Ok(m));
}

#[test]
fn leave_exact_bytes() {
    let m = GossipMessage::Leave { node_id: "ab".to_string(), timestamp: 300 };
    assert_eq!(m.to_bytes(), vec![1u8, 2, b'a', b'b', 0xAC, 0x02]);
}

#[test]
fn announce_exact_bytes() {
    let a = BotAnnouncement {
        node_id: "n".to_string(),
        name: "".to_string(),
        version: "v".to_string(),
        capabilities: vec![],
        openclaw_version: None,
        mode: Some("m".to_string()),
        timestamp: 1,
        ttl: 128,
        metadata: vec![],
    };
    let bytes = GossipMessage::Announce(a).to_bytes();
    assert_eq!(
        bytes,
        vec![0u8, 1, b'n', 0, 1, b'v', 0, 0, 1, 1, b'm', 1, 0x80, 0x01, 0]
    );
}

#[test]
fn every_truncation_is_rejected() {
    let msgs = vec![
        GossipMessage::Announce(sample_announcement()),
        GossipMessage::Leave { node_id: "node-y".to_string(), timestamp: 99 },
    ];
    for m in msgs {
        let bytes = m.to_bytes();
        for n in 0..bytes.len() {
            assert_eq!(GossipMessage::from_bytes(&bytes[..n]), Err(DecodeError));
        }
    }
    let d = DirectMessage { from: "a".to_string(), content: "ping".to_string(), timestamp: 5 };
    let bytes = d.to_bytes();
    for n in 0..bytes.len() {
        assert_eq!(DirectMessage::from_bytes(&bytes[..n]), Err(DecodeError));
    }
}

#[test]
fn trailing_bytes_are_rejected() {
    let mut bytes = GossipMessage::Leave { node_id: "x".to_string(), timestamp: 1 }.to_bytes();
    bytes.push(0);
    assert_eq!(GossipMessage::from_bytes(&bytes), Err(DecodeError));
}

#[test]
fn unknown_kind_is_rejected() {
    assert_eq!(GossipMessage::from_bytes(&[2u8, 0, 0]), Err(DecodeError));
    assert_eq!(GossipMessage::from_bytes(&[]), Err(DecodeError));
}

#[test]
fn invalid_utf8_is_rejected() {
    assert_eq!(GossipMessage::from_bytes(&[1u8, 1, 0xFF, 0]), Err(DecodeError));
}

#[test]
fn overlong_varint_is_rejected() {
    let mut bytes = vec![1u8, 0];
    bytes.extend_from_slice(&[0xFF; 10]);
    bytes.push(0x01);
    assert_eq!(GossipMessage::from_bytes(&bytes), Err(DecodeError));
}

#[test]
fn direct_round_trip() {
    let d = DirectMessage { from: "a".to_string(), content: "ping".to_string(), timestamp: 5 };
    let bytes = d.to_bytes();
    assert_eq!(bytes, vec![1u8, b'a', 4, b'p', b'i', b'n', b'g', 5]);
    assert_eq!(DirectMessage::from_bytes(&bytes), Ok(d));
}

#[test]
fn frame_length_is_big_endian() {
    assert_eq!(frame_len([0, 0, 1, 0]), 256);
    assert_eq!(frame_len([1, 2, 3, 4]), 0x01020304);
    assert_eq!(frame(&vec![7u8, 8, 9]), Some(vec![0u8, 0, 0, 3, 7, 8, 9]));
}

#[test]
fn oversized_length_is_rejected() {
    assert_eq!(MAX_FRAME_LEN, 1024 * 1024);
    assert_eq!(check_frame_len(1024 * 1024), Ok(1024 * 1024));
    assert_eq!(check_frame_len(1024 * 1024 + 1), Err(FrameTooLarge));
    assert_eq!(check_frame_len(frame_len([0xFF, 0xFF, 0xFF, 0xFF])), Err(FrameTooLarge));
}

#[test]
fn responder_acknowledges_a_request() {
    let req = request_frame(&"x".to_string(), &"ping".to_string(), 10).unwrap();
    let len = frame_len([req[0], req[1], req[2], req[3]]) as usize;
    assert_eq!(len, req.len() - 4);
    let reply = respond(&req[4..], &"y".to_string(), 11).unwrap();
    let rlen = frame_len([reply[0], reply[1], reply[2], reply[3]]) as usize;
    assert_eq!(rlen, reply.len() - 4);
    assert_eq!(response_content(&reply[4..]), Some(ACK_CONTENT.to_string()));
    let ack = DirectMessage::from_bytes(&reply[4..]).unwrap();
    assert_eq!(ack.from, "y");
    assert_eq!(ack.content, "received");
    assert_eq!(ack.timestamp, 11);
}

#[test]
fn responder_drops_a_malformed_request() {
    assert_eq!(respond(&[9u8, 9, 9], &"y".to_string(), 11), None);
    assert_eq!(response_content(&[0u8]), None);
}

#[test]
fn duplicate_metadata_keys_are_rejected() {
    let mut a = sample_announcement();
    a.metadata = vec![
        ("k".to_string(), "1".to_string()),
        ("k".to_string(), "2".to_string()),
    ];
    let bytes = GossipMessage::Announce(a).to_bytes();
    assert_eq!(GossipMessage::from_bytes(&bytes), Err(DecodeError));
}
