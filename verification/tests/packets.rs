use threema::flat::{discriminants, Flat};
use threema::packets::{
    AssessmentType, Ballot, BallotState, BallotType, BallotUpdates, ChoiceType, File, Header,
    Message, MessageStatus, Packet, RenderingType, Text,
};
use threema::{MessageID, ThreemaID};

fn header() -> Header {
    let mut nickname = [0u8; 32];
    nickname[..4].copy_from_slice(b"nick");
    Header {
        sender: ThreemaID::from_string("ABCD1234").unwrap(),
        receiver: ThreemaID::from_string("ECHOECHO").unwrap(),
        msg_id: MessageID::from_bytes([1, 2, 3, 4, 5, 6, 7, 8]),
        timestamp: 0x0403_0201,
        flags: 1,
        nickname,
        nonce: [0x11; 24],
    }
}

fn header_bytes() -> Vec<u8> {
    let mut bytes = b"ABCD1234ECHOECHO".to_vec();
    bytes.extend_from_slice(&[1, 2, 3, 4, 5, 6, 7, 8]);
    bytes.extend_from_slice(&[1, 2, 3, 4]);
    bytes.extend_from_slice(&[1, 0, 0, 0]);
    bytes.extend_from_slice(b"nick");
    bytes.extend_from_slice(&[0; 28]);
    bytes.extend_from_slice(&[0x11; 24]);
    bytes
}

#[test]
fn a_header_has_88_bytes_in_a_fixed_order() {
    let bytes = header().serialize();
    assert_eq!(bytes.len(), 88);
    assert_eq!(bytes, header_bytes());
    let (read, used) = Header::deserialize_with_size(&bytes).unwrap();
    assert_eq!(used, 88);
    assert_eq!(read.sender, header().sender);
    assert_eq!(read.receiver, header().receiver);
    assert_eq!(read.msg_id, header().msg_id);
    assert_eq!(read.timestamp, 0x0403_0201);
    assert_eq!(read.flags, 1);
    assert_eq!(read.nickname, header().nickname);
    assert_eq!(read.nonce, [0x11; 24]);
    assert!(Header::deserialize(&bytes[..87]).is_none());
    let mut longer = bytes.clone();
    longer.push(9);
    assert_eq!(Header::deserialize_with_size(&longer).unwrap().1, 88);
}

#[test]
fn packets_start_with_a_tag_of_four_bytes() {
    let id = ThreemaID::from_string("ECHOECHO").unwrap();
    let message = MessageID::from_bytes([9; 8]);
    assert_eq!(Packet::EchoRequest(5).serialize(), vec![0, 0, 0, 0, 5, 0, 0, 0, 0, 0, 0, 0]);
    assert_eq!(Packet::EchoReply(5).serialize(), vec![0x80, 0, 0, 0, 5, 0, 0, 0, 0, 0, 0, 0]);
    let mut expected = vec![1, 0, 0, 0];
    expected.extend_from_slice(&header_bytes());
    assert_eq!(Packet::ClientToServer(header()).serialize(), expected);
    expected[0] = 2;
    assert_eq!(Packet::ServerToClient(header()).serialize(), expected);
    let mut ack = vec![0x81, 0, 0, 0];
    ack.extend_from_slice(b"ECHOECHO");
    ack.extend_from_slice(&[9; 8]);
    assert_eq!(Packet::ServerAck(id, message).serialize(), ack);
    ack[0] = 0x82;
    assert_eq!(Packet::ClientAck(id, message).serialize(), ack);
    assert_eq!(Packet::ConnectionEstablished.serialize(), vec![0xd0, 0, 0, 0]);
    assert_eq!(Packet::DuplicateConnection.serialize(), vec![0xe0, 0, 0, 0]);
    assert_eq!(Packet::Alert.serialize(), vec![0xe1, 0, 0, 0]);
}

#[test]
fn packets_read_back() {
    let id = ThreemaID::from_string("ECHOECHO").unwrap();
    let message = MessageID::from_bytes([9; 8]);
    let packets = [
        Packet::EchoRequest(u64::MAX),
        Packet::EchoReply(0),
        Packet::ClientToServer(header()),
        Packet::ServerToClient(header()),
        Packet::ServerAck(id, message),
        Packet::ClientAck(id, message),
        Packet::ConnectionEstablished,
        Packet::DuplicateConnection,
        Packet::Alert,
    ];
    for packet in packets {
        let bytes = packet.serialize();
        let (read, used) = Packet::deserialize_with_size(&bytes).unwrap();
        assert_eq!(used, bytes.len());
        assert_eq!(read.serialize(), bytes);
        assert!(Packet::deserialize(&bytes[..bytes.len() - 1]).is_none());
        let mut longer = bytes.clone();
        longer.extend_from_slice(&[1, 2, 3]);
        assert_eq!(Packet::deserialize_with_size(&longer).unwrap().1, bytes.len());
    }
    assert!(matches!(
        Packet::deserialize(&[0x81, 0, 0, 0, 1, 1, 1, 1, 1, 1, 1, 1, 2, 2, 2, 2, 2, 2, 2, 2]),
        Some(Packet::ServerAck(_, m)) if m == MessageID::from_bytes([2; 8])
    ));
}

#[test]
fn an_unknown_packet_tag_is_no_packet() {
    assert!(Packet::deserialize(&[]).is_none());
    assert!(Packet::deserialize(&[0x03, 0, 0, 0]).is_none());
    assert!(Packet::deserialize(&[0xd0, 1, 0, 0]).is_none());
    assert!(Packet::deserialize(&[0xd0, 0, 0, 1]).is_none());
    assert!(Packet::deserialize(&[0xff, 0xff, 0xff, 0xff, 0, 0, 0, 0, 0, 0, 0, 0]).is_none());
    assert!(!Packet::has_known_tag(&[0x03, 0, 0, 0]));
    assert!(!Packet::has_known_tag(&[0x01, 0, 0]));
    assert!(Packet::has_known_tag(&[0x01, 0, 0, 0]));
    assert!(Packet::has_known_tag(&[0xe1, 0, 0, 0, 7]));
}

#[test]
fn messages_start_with_a_tag_of_one_byte() {
    let text = Message::Text(Text { message: "hi".to_string() });
    assert_eq!(text.serialize(), vec![1, b'h', b'i']);
    assert_eq!(Message::Image.serialize(), vec![2]);
    assert_eq!(Message::Location.serialize(), vec![0x10]);
    assert_eq!(Message::Video.serialize(), vec![0x13]);
    assert_eq!(Message::Audio.serialize(), vec![0x14]);
    assert_eq!(Message::ContactRequestPhoto.serialize(), vec![0x1a]);
    assert_eq!(Message::GroupText.serialize(), vec![0x41]);
    assert_eq!(Message::GroupCreate.serialize(), vec![0x4a]);
    assert_eq!(Message::GroupDeletePhoto.serialize(), vec![0x54]);
    assert_eq!(Message::VoipCallOffer.serialize(), vec![0x60]);
    assert_eq!(Message::VoipCallRinging.serialize(), vec![0x64]);
    assert_eq!(Message::TypingNotification.serialize(), vec![0x90]);
    let receipt = Message::DeliveryReceipt(MessageStatus::Read, MessageID::from_bytes([7; 8]));
    assert_eq!(receipt.serialize(), vec![0x80, 2, 7, 7, 7, 7, 7, 7, 7, 7]);
}

#[test]
fn messages_read_back() {
    assert!(matches!(
        Message::deserialize_with_size(&[1, b'h', b'i']),
        Some((Message::Text(Text { message }), 3)) if message == "hi"
    ));
    assert!(matches!(
        Message::deserialize_with_size(&[1]),
        Some((Message::Text(Text { message }), 1)) if message.is_empty()
    ));
    assert!(matches!(
        Message::deserialize_with_size(&[0x80, 4, 1, 2, 3, 4, 5, 6, 7, 8, 9]),
        Some((Message::DeliveryReceipt(MessageStatus::Disapproved, id), 10))
            if id == MessageID::from_bytes([1, 2, 3, 4, 5, 6, 7, 8])
    ));
    assert!(matches!(
        Message::deserialize_with_size(&[0x90, 1, 2]),
        Some((Message::TypingNotification, 1))
    ));
    assert!(matches!(Message::deserialize_with_size(&[2]), Some((Message::Image, 1))));
    assert!(matches!(
        Message::deserialize_with_size(&[0x62]),
        Some((Message::VoipIceCandidates, 1))
    ));
}

#[test]
fn what_is_no_message() {
    assert!(Message::deserialize(&[]).is_none());
    assert!(Message::deserialize(&[0]).is_none());
    assert!(Message::deserialize(&[3]).is_none());
    assert!(Message::deserialize(&[0x91]).is_none());
    assert!(Message::deserialize(&[0xff]).is_none());
    // Text that is not UTF-8.
    assert!(Message::deserialize(&[1, 0xc3]).is_none());
    // A receipt cut short, or with a status that is none.
    assert!(Message::deserialize(&[0x80, 1, 1, 2, 3, 4, 5, 6, 7]).is_none());
    assert!(Message::deserialize(&[0x80, 0, 1, 2, 3, 4, 5, 6, 7, 8]).is_none());
    assert!(Message::deserialize(&[0x80, 5, 1, 2, 3, 4, 5, 6, 7, 8]).is_none());
    assert!(!Message::has_known_tag(&[]));
    assert!(!Message::has_known_tag(&[3]));
    assert!(Message::has_known_tag(&[0x80]));
    assert!(Message::has_known_tag(&[0x17, 1]));
}

#[test]
fn a_text_cut_in_a_character_is_no_text() {
    let text = Message::Text(Text { message: "h\u{e9}".to_string() });
    let bytes = text.serialize();
    assert_eq!(bytes, vec![1, b'h', 0xc3, 0xa9]);
    assert!(Message::deserialize(&bytes[..3]).is_none());
    // Cut between two characters, what is left is a shorter text.
    assert!(matches!(
        Message::deserialize(&bytes[..2]),
        Some(Message::Text(Text { message })) if message == "h"
    ));
}

#[test]
fn a_status_is_one_byte() {
    assert_eq!(MessageStatus::Delivered.serialize(), vec![1]);
    assert_eq!(MessageStatus::Read.serialize(), vec![2]);
    assert_eq!(MessageStatus::Approved.serialize(), vec![3]);
    assert_eq!(MessageStatus::Disapproved.serialize(), vec![4]);
    assert_eq!(MessageStatus::deserialize_with_size(&[3, 9]), Some((MessageStatus::Approved, 1)));
    assert_eq!(MessageStatus::deserialize(&[0]), None);
    assert_eq!(MessageStatus::deserialize(&[5]), None);
    assert_eq!(MessageStatus::deserialize(&[]), None);
}

#[test]
fn json_bodies_are_kept_as_they_came() {
    let text = br#"{"b":"0011","n":"a.txt","s":3,"zz":[1,{"deep":null}]}"#.to_vec();
    let file = File::from_json(text.clone()).unwrap();
    assert_eq!(file.as_json(), &text[..]);
    assert_eq!(file.serialize(), text);
    let mut bytes = vec![0x17];
    bytes.extend_from_slice(&text);
    assert_eq!(Message::File(file).serialize(), bytes);
    match Message::deserialize_with_size(&bytes) {
        Some((Message::File(read), used)) => {
            assert_eq!(used, bytes.len());
            assert_eq!(read.as_json(), &text[..]);
        }
        other => panic!("no file: {:?}", other),
    }
    assert!(Message::deserialize(&bytes[..bytes.len() - 1]).is_none());
}

#[test]
fn a_json_body_has_the_shape_of_its_kind() {
    assert!(File::from_json(b"{}".to_vec()).is_some());
    assert!(File::from_json(b"[]".to_vec()).is_none());
    assert!(File::from_json(b"3".to_vec()).is_none());
    assert!(File::from_json(b"{".to_vec()).is_none());
    assert!(File::from_json(b"".to_vec()).is_none());
    assert!(File::from_json(b"{} x".to_vec()).is_none());
    assert!(Ballot::from_json(br#"{"d":"lunch?"}"#.to_vec()).is_some());
    assert!(Ballot::from_json(b"[1]".to_vec()).is_none());
    assert!(Ballot::from_json(b"null".to_vec()).is_none());
    assert!(BallotUpdates::from_json(b"[[1,0],[2,1]]".to_vec()).is_some());
    assert!(BallotUpdates::from_json(b"[]".to_vec()).is_some());
    assert!(BallotUpdates::from_json(b"{}".to_vec()).is_none());
    assert!(BallotUpdates::from_json(b"\"x\"".to_vec()).is_none());
    assert!(File::deserialize(b"[]").is_none());
    assert!(BallotUpdates::deserialize(b"{}").is_none());
    assert_eq!(BallotUpdates::deserialize_with_size(b"[ ]").unwrap().1, 3);
}

#[test]
fn polls_carry_their_identifiers_in_front() {
    let details = Ballot::from_json(br#"{"d":"lunch?"}"#.to_vec()).unwrap();
    let create = Message::BallotCreate { poll_id: [5; 8], details };
    let mut bytes = vec![0x15];
    bytes.extend_from_slice(&[5; 8]);
    bytes.extend_from_slice(br#"{"d":"lunch?"}"#);
    assert_eq!(create.serialize(), bytes);
    match Message::deserialize_with_size(&bytes) {
        Some((Message::BallotCreate { poll_id, details }, used)) => {
            assert_eq!(used, bytes.len());
            assert_eq!(poll_id, [5; 8]);
            assert_eq!(details.as_json(), br#"{"d":"lunch?"}"#);
        }
        other => panic!("no poll: {:?}", other),
    }
    assert!(Message::deserialize(&bytes[..8]).is_none());
    assert!(Message::deserialize(&bytes[..9]).is_none());

    let updates = BallotUpdates::from_json(b"[[0,1]]".to_vec()).unwrap();
    let sender = ThreemaID::from_string("ECHOECHO").unwrap();
    let vote = Message::BallotVote { sender, poll_id: [6; 8], updates };
    let mut bytes = vec![0x16];
    bytes.extend_from_slice(b"ECHOECHO");
    bytes.extend_from_slice(&[6; 8]);
    bytes.extend_from_slice(b"[[0,1]]");
    assert_eq!(vote.serialize(), bytes);
    match Message::deserialize_with_size(&bytes) {
        Some((Message::BallotVote { sender: who, poll_id, updates }, used)) => {
            assert_eq!(used, bytes.len());
            assert_eq!(who, sender);
            assert_eq!(poll_id, [6; 8]);
            assert_eq!(updates.as_json(), b"[[0,1]]");
        }
        other => panic!("no vote: {:?}", other),
    }
    assert!(Message::deserialize(&bytes[..17]).is_none());
}

#[test]
fn rendering_types_have_numbers() {
    assert_eq!(RenderingType::File.code(), 0);
    assert_eq!(RenderingType::Media.code(), 1);
    assert_eq!(RenderingType::Sticker.code(), 2);
    assert_eq!(RenderingType::from_code(0), Some(RenderingType::File));
    assert_eq!(RenderingType::from_code(1), Some(RenderingType::Media));
    assert_eq!(RenderingType::from_code(2), Some(RenderingType::Sticker));
    assert_eq!(RenderingType::from_code(3), None);
    assert_eq!(RenderingType::from_code(u64::MAX), None);
    assert_eq!(RenderingType::default(), RenderingType::File);
}

#[test]
fn the_settings_of_a_poll_have_numbers() {
    assert_eq!(BallotState::Open.code(), 0);
    assert_eq!(BallotState::Closed.code(), 1);
    assert_eq!(BallotState::from_code(0), Some(BallotState::Open));
    assert_eq!(BallotState::from_code(1), Some(BallotState::Closed));
    assert_eq!(BallotState::from_code(2), None);
    assert_eq!(BallotType::ResultOnClose.code(), 0);
    assert_eq!(BallotType::Intermediate.code(), 1);
    assert_eq!(BallotType::from_code(1), Some(BallotType::Intermediate));
    assert_eq!(BallotType::from_code(0), Some(BallotType::ResultOnClose));
    assert_eq!(BallotType::from_code(255), None);
    assert_eq!(AssessmentType::Single.code(), 0);
    assert_eq!(AssessmentType::Multiple.code(), 1);
    assert_eq!(AssessmentType::from_code(0), Some(AssessmentType::Single));
    assert_eq!(AssessmentType::from_code(1), Some(AssessmentType::Multiple));
    assert_eq!(AssessmentType::from_code(2), None);
    assert_eq!(ChoiceType::Text.code(), 0);
    assert_eq!(ChoiceType::from_code(0), Some(ChoiceType::Text));
    assert_eq!(ChoiceType::from_code(1), None);
}

#[test]
fn tags_follow_from_what_the_variants_declare() {
    let status = discriminants(&[Some(1), None, None, None]).unwrap();
    assert_eq!(status, vec![1, 2, 3, 4]);
    let statuses = [
        MessageStatus::Delivered,
        MessageStatus::Read,
        MessageStatus::Approved,
        MessageStatus::Disapproved,
    ];
    for (status_value, tag) in statuses.iter().zip(status) {
        assert_eq!(status_value.serialize(), vec![tag as u8]);
    }
    let front = discriminants(&[Some(1), None, Some(0x10)]).unwrap();
    assert_eq!(Message::Image.serialize(), vec![front[1] as u8]);
    assert_eq!(Message::Location.serialize(), vec![front[2] as u8]);
}
