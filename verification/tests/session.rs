use sodiumoxide::crypto::box_;

use threema::crypto::PublicKey;
use threema::flat::Flat;
use threema::packets::{Header, Message, MessageStatus, Packet, Text};
use threema::handshake::{
    check_server_ack, client_hello, login_payload, read_server_hello, CLIENT_HELLO_LEN, LOGIN_LEN,
};
use threema::padding::{pad_message, strip_padding};
use threema::session::{
    dispatch, envelope, frame, frame_length, read_body, split_packet, Dispatch, Draw, Inbound,
    Opened, SERVER_LONG_TERM_PUBKEY,
};
use threema::{Error, MessageID, SessionState, Threema, ThreemaID};

fn keypair(seed: u8) -> (box_::PublicKey, box_::SecretKey) {
    box_::keypair_from_seed(&box_::Seed([seed; 32]))
}

fn nonce(prefix: &[u8], counter: u64) -> box_::Nonce {
    let mut bytes = prefix.to_vec();
    bytes.extend_from_slice(&counter.to_le_bytes());
    box_::Nonce::from_slice(&bytes).unwrap()
}

/// The server's side of a session, played with the keys of the test.
struct Server {
    long_term: (box_::PublicKey, box_::SecretKey),
    ephemeral: (box_::PublicKey, box_::SecretKey),
    prefix: [u8; 16],
    counter: u64,
    client_ephemeral: box_::PublicKey,
    client_prefix: Vec<u8>,
    client_counter: u64,
}

impl Server {
    fn new() -> Server {
        Server {
            long_term: keypair(1),
            ephemeral: keypair(2),
            prefix: [0x5e; 16],
            counter: 1,
            client_ephemeral: box_::PublicKey([0; 32]),
            client_prefix: vec![],
            client_counter: 1,
        }
    }

    fn hello(&mut self, client_hello: &[u8]) -> Vec<u8> {
        self.client_ephemeral = box_::PublicKey::from_slice(&client_hello[..32]).unwrap();
        self.client_prefix = client_hello[32..].to_vec();
        let mut plain = self.ephemeral.0 .0.to_vec();
        plain.extend_from_slice(&self.client_prefix);
        let sealed = box_::seal(
            &plain,
            &nonce(&self.prefix, self.counter),
            &self.client_ephemeral,
            &self.long_term.1,
        );
        self.counter += 1;
        let mut hello = self.prefix.to_vec();
        hello.extend_from_slice(&sealed);
        hello
    }

    fn open(&mut self, sealed: &[u8]) -> Vec<u8> {
        let plain = box_::open(
            sealed,
            &nonce(&self.client_prefix, self.client_counter),
            &self.client_ephemeral,
            &self.ephemeral.1,
        )
        .unwrap();
        self.client_counter += 1;
        plain
    }

    fn open_frame(&mut self, frame: &[u8]) -> Vec<u8> {
        let length = frame_length([frame[0], frame[1]]);
        assert_eq!(length, frame.len() - 2);
        self.open(&frame[2..])
    }

    fn seal(&mut self, plain: &[u8]) -> Vec<u8> {
        let sealed = box_::seal(
            plain,
            &nonce(&self.prefix, self.counter),
            &self.client_ephemeral,
            &self.ephemeral.1,
        );
        self.counter += 1;
        sealed
    }

    fn ack(&mut self) -> Vec<u8> {
        self.seal(&[0u8; 16])
    }
}

fn echo() -> ThreemaID {
    ThreemaID::from_string("ECHOECHO").unwrap()
}

fn client_id() -> ThreemaID {
    ThreemaID::from_string("ABCD1234").unwrap()
}

fn client_keys() -> (box_::PublicKey, box_::SecretKey) {
    keypair(3)
}

fn new_client(server: &Server) -> Threema {
    Threema::with_server(client_id(), &client_keys().1 .0, PublicKey(server.long_term.0 .0)).unwrap()
}

fn connected() -> (Threema, Server) {
    let mut server = Server::new();
    let mut client = new_client(&server);
    let hello = client.start_handshake().unwrap();
    let server_hello = server.hello(&hello);
    let login = client.answer_server_hello(&server_hello).unwrap();
    server.open(&login);
    client.finish_handshake(&server.ack()).unwrap();
    (client, server)
}

fn draw(pad: u8) -> Draw {
    Draw {
        msg_id: MessageID::from_bytes([1, 2, 3, 4, 5, 6, 7, 8]),
        nonce: [9; 24],
        pad,
    }
}

#[test]
fn a_new_client_is_disconnected() {
    let client = Threema::new(client_id(), &[7u8; 32]).unwrap();
    assert_eq!(client.session_state(), SessionState::Disconnected);
    assert_eq!(client.id(), client_id());
    assert!(client.nick.is_none());
    assert!(client.peer_key(echo()).is_none());
}

#[test]
fn a_private_key_has_32_bytes() {
    assert!(matches!(
        Threema::new(client_id(), &[7u8; 31]),
        Err(Error::InvalidPrivateKey)
    ));
    assert!(matches!(
        Threema::new(client_id(), &[7u8; 33]),
        Err(Error::InvalidPrivateKey)
    ));
    assert!(matches!(Threema::new(client_id(), &[]), Err(Error::InvalidPrivateKey)));
}

#[test]
fn the_handshake_puts_the_expected_bytes_on_the_wire() {
    let mut server = Server::new();
    let mut client = new_client(&server);
    let (ephemeral_public, ephemeral_secret) = keypair(4);
    let hello = client
        .begin_handshake(
            PublicKey(ephemeral_public.0),
            threema::crypto::SecretKey(ephemeral_secret.0),
            [0xc1; 16],
        )
        .unwrap();
    assert_eq!(hello.len(), CLIENT_HELLO_LEN);
    assert_eq!(&hello[..32], &ephemeral_public.0[..]);
    assert_eq!(&hello[32..], &[0xc1; 16][..]);
    assert_eq!(client.session_state(), SessionState::Handshaking);

    let server_hello = server.hello(&hello);
    assert_eq!(server_hello.len(), 80);
    let login = client.login(&server_hello, [0x70; 16]).unwrap();
    assert_eq!(login.len(), LOGIN_LEN);
    assert_eq!(client.session_state(), SessionState::Handshaking);

    let payload = server.open(&login);
    assert_eq!(payload.len(), 128);
    assert_eq!(&payload[..8], b"ABCD1234");
    assert_eq!(&payload[8..40], &[0u8; 32][..]);
    assert_eq!(&payload[40..56], &server.prefix[..]);
    assert_eq!(&payload[56..72], &[0x70; 16][..]);
    assert_eq!(&payload[72..80], &1u64.to_le_bytes()[..]);
    let vouch = box_::open(
        &payload[80..],
        &box_::Nonce::from_slice(&payload[56..80]).unwrap(),
        &client_keys().0,
        &server.long_term.1,
    )
    .unwrap();
    assert_eq!(vouch, ephemeral_public.0.to_vec());

    // The same keys and prefixes give the same login.
    let mut second_server = Server::new();
    let mut second = new_client(&second_server);
    let again = second
        .begin_handshake(
            PublicKey(ephemeral_public.0),
            threema::crypto::SecretKey(ephemeral_secret.0),
            [0xc1; 16],
        )
        .unwrap();
    assert_eq!(again, hello);
    let second_hello = second_server.hello(&again);
    assert_eq!(second_hello, server_hello);
    assert_eq!(second.login(&second_hello, [0x70; 16]).unwrap(), login);

    client.finish_handshake(&server.ack()).unwrap();
    assert_eq!(client.session_state(), SessionState::Connected);
}

#[test]
fn the_handshake_with_fresh_keys_connects() {
    let (client, _server) = connected();
    assert_eq!(client.session_state(), SessionState::Connected);
}

#[test]
fn the_server_constant_is_the_default() {
    let mut client = Threema::new(client_id(), &client_keys().1 .0).unwrap();
    let hello = client.start_handshake().unwrap();
    // A server without the secret key of the service cannot answer.
    let mut server = Server::new();
    assert_ne!(server.long_term.0 .0, SERVER_LONG_TERM_PUBKEY);
    let server_hello = server.hello(&hello);
    assert!(matches!(
        client.answer_server_hello(&server_hello),
        Err(Error::DecryptionFailed)
    ));
    assert_eq!(client.session_state(), SessionState::Failed);
}

#[test]
fn a_forged_server_hello_fails_the_session() {
    let mut server = Server::new();
    let mut client = new_client(&server);
    let hello = client.start_handshake().unwrap();
    let mut server_hello = server.hello(&hello);
    server_hello[40] ^= 1;
    assert!(matches!(
        client.answer_server_hello(&server_hello),
        Err(Error::DecryptionFailed)
    ));
    assert_eq!(client.session_state(), SessionState::Failed);
    // Nothing works on a failed session.
    assert!(matches!(client.start_handshake(), Err(Error::NotConnected)));
    assert!(matches!(client.send(b"x"), Err(Error::NotConnected)));
    assert!(matches!(client.receive_packet(b"x"), Err(Error::NotConnected)));
    assert!(matches!(client.finish_handshake(&[0; 32]), Err(Error::NotConnected)));
    client.disconnect();
    assert_eq!(client.session_state(), SessionState::Failed);
}

#[test]
fn a_server_hello_of_the_wrong_length_fails_the_session() {
    let mut server = Server::new();
    let mut client = new_client(&server);
    let hello = client.start_handshake().unwrap();
    let server_hello = server.hello(&hello);
    assert!(matches!(
        client.answer_server_hello(&server_hello[..79]),
        Err(Error::ParseError(_))
    ));
    assert_eq!(client.session_state(), SessionState::Failed);
}

#[test]
fn a_server_hello_that_echoes_another_prefix_fails_the_session() {
    let mut server = Server::new();
    let mut client = new_client(&server);
    let mut hello = client.start_handshake().unwrap();
    // The server is told another prefix than the client keeps.
    hello[47] ^= 1;
    let server_hello = server.hello(&hello);
    assert!(matches!(
        client.answer_server_hello(&server_hello),
        Err(Error::ParseError(_))
    ));
    assert_eq!(client.session_state(), SessionState::Failed);
}

#[test]
fn the_steps_of_the_handshake_come_in_order() {
    let server = Server::new();
    let mut client = new_client(&server);
    assert!(matches!(client.login(&[0; 80], [0; 16]), Err(Error::NotConnected)));
    assert!(matches!(client.finish_handshake(&[0; 32]), Err(Error::NotConnected)));
    assert_eq!(client.session_state(), SessionState::Disconnected);
    client.start_handshake().unwrap();
    assert!(matches!(client.finish_handshake(&[0; 32]), Err(Error::NotConnected)));
    assert_eq!(client.session_state(), SessionState::Handshaking);
}

#[test]
fn a_wrong_server_ack_fails_the_session() {
    let mut server = Server::new();
    let mut client = new_client(&server);
    let hello = client.start_handshake().unwrap();
    let server_hello = server.hello(&hello);
    client.answer_server_hello(&server_hello).unwrap();
    let ack = server.seal(&[0, 0, 0, 0, 0, 0, 0, 0, 0, 0, 0, 0, 0, 0, 0, 1]);
    assert!(matches!(client.finish_handshake(&ack), Err(Error::ParseError(_))));
    assert_eq!(client.session_state(), SessionState::Failed);

    let mut server = Server::new();
    let mut client = new_client(&server);
    let hello = client.start_handshake().unwrap();
    let server_hello = server.hello(&hello);
    client.answer_server_hello(&server_hello).unwrap();
    let mut ack = server.ack();
    ack[3] ^= 0x80;
    assert!(matches!(client.finish_handshake(&ack), Err(Error::DecryptionFailed)));
    assert_eq!(client.session_state(), SessionState::Failed);
}

#[test]
fn the_pieces_of_the_handshake() {
    let hello = client_hello(&PublicKey([3; 32]), &[4; 16]);
    let mut expected = vec![3u8; 32];
    expected.extend_from_slice(&[4; 16]);
    assert_eq!(hello, expected);

    let mut plain = vec![8u8; 32];
    plain.extend_from_slice(&[4; 16]);
    assert_eq!(read_server_hello(&plain, &[4; 16]).unwrap().0, [8; 32]);
    assert!(matches!(read_server_hello(&plain, &[5; 16]), Err(Error::ParseError(_))));
    assert!(matches!(read_server_hello(&plain[..47], &[4; 16]), Err(Error::ParseError(_))));
    assert!(matches!(read_server_hello(&plain, &[4; 15]), Err(Error::ParseError(_))));

    let payload = login_payload(echo(), &[6; 16], &[7; 24], &[8; 48]);
    let mut expected = b"ECHOECHO".to_vec();
    expected.extend_from_slice(&[0; 32]);
    expected.extend_from_slice(&[6; 16]);
    expected.extend_from_slice(&[7; 24]);
    expected.extend_from_slice(&[8; 48]);
    assert_eq!(payload, expected);
    assert_eq!(payload.len(), 128);

    assert!(check_server_ack(&[0; 16]).is_ok());
    assert!(matches!(check_server_ack(&[0; 15]), Err(Error::ParseError(_))));
    assert!(matches!(check_server_ack(&[0; 17]), Err(Error::ParseError(_))));
    let mut ack = [0u8; 16];
    ack[15] = 1;
    assert!(matches!(check_server_ack(&ack), Err(Error::ParseError(_))));
}

#[test]
fn frames_carry_their_length_and_never_share_a_nonce() {
    let (mut client, mut server) = connected();
    let first = client.send(b"hello").unwrap();
    assert_eq!(first.len(), 2 + 5 + 16);
    assert_eq!(&first[..2], &[21, 0]);
    let second = client.send(b"hello").unwrap();
    assert_ne!(first, second);
    // The server opens them under the counters 2 and 3.
    assert_eq!(server.client_counter, 2);
    assert_eq!(server.open_frame(&first), b"hello");
    assert_eq!(server.open_frame(&second), b"hello");
    assert_eq!(server.client_counter, 4);
    let empty = client.send(b"").unwrap();
    assert_eq!(&empty[..2], &[16, 0]);
    assert_eq!(server.open_frame(&empty), b"");
}

#[test]
fn the_length_of_a_frame() {
    assert_eq!(frame(vec![7; 3]), vec![3, 0, 7, 7, 7]);
    assert_eq!(frame(vec![]), vec![0, 0]);
    let long = frame(vec![1; 0x1234]);
    assert_eq!(&long[..2], &[0x34, 0x12]);
    assert_eq!(long.len(), 0x1236);
    let longer = frame(vec![1; 0x1_0002]);
    assert_eq!(&longer[..2], &[0x02, 0x00]);
    assert_eq!(frame_length([0x34, 0x12]), 0x1234);
    assert_eq!(frame_length([0xff, 0xff]), 0xffff);
    assert_eq!(frame_length([0, 0]), 0);
}

#[test]
fn sending_needs_a_connection() {
    let server = Server::new();
    let mut client = new_client(&server);
    assert!(matches!(client.send(b"x"), Err(Error::NotConnected)));
    assert!(matches!(client.receive_packet(b"x"), Err(Error::NotConnected)));
    assert!(matches!(client.receive(b"x"), Err(Error::NotConnected)));
    assert!(matches!(client.send_ack(echo(), MessageID::from_bytes([0; 8])), Err(Error::NotConnected)));
    assert_eq!(client.session_state(), SessionState::Disconnected);
    client.start_handshake().unwrap();
    assert!(matches!(client.send(b"x"), Err(Error::NotConnected)));
    assert_eq!(client.session_state(), SessionState::Handshaking);
}

#[test]
fn packets_come_out_of_frames() {
    let (mut client, mut server) = connected();
    let id = MessageID::from_bytes([1, 2, 3, 4, 5, 6, 7, 8]);
    let mut plain = Packet::ServerAck(echo(), id).serialize();
    plain.extend_from_slice(b"rest");
    let sealed = server.seal(&plain);
    let (packet, rest) = client.receive_packet(&sealed).unwrap();
    assert!(matches!(packet, Packet::ServerAck(who, what) if who == echo() && what == id));
    assert_eq!(rest, b"rest");

    let sealed = server.seal(&Packet::ConnectionEstablished.serialize());
    let (packet, rest) = client.receive_packet(&sealed).unwrap();
    assert!(matches!(packet, Packet::ConnectionEstablished));
    assert!(rest.is_empty());

    // What is no packet is an error, and the session goes on.
    let sealed = server.seal(&[0x77, 0, 0, 0]);
    assert!(matches!(client.receive_packet(&sealed), Err(Error::ParseError(_))));
    assert_eq!(client.session_state(), SessionState::Connected);
    let sealed = server.seal(&Packet::Alert.serialize());
    assert!(matches!(client.receive_packet(&sealed), Ok((Packet::Alert, _))));
}

#[test]
fn a_frame_that_does_not_open_breaks_the_session() {
    let (mut client, mut server) = connected();
    let mut sealed = server.seal(&Packet::ConnectionEstablished.serialize());
    sealed[0] ^= 1;
    assert!(matches!(client.receive_packet(&sealed), Err(Error::DecryptionFailed)));
    assert_eq!(client.session_state(), SessionState::Failed);
    assert!(matches!(client.send(b"x"), Err(Error::NotConnected)));
}

#[test]
fn a_frame_is_opened_once() {
    let (mut client, mut server) = connected();
    let sealed = server.seal(&Packet::ConnectionEstablished.serialize());
    assert!(client.receive_packet(&sealed).is_ok());
    // The nonce has moved on: the same frame does not open again.
    assert!(matches!(client.receive_packet(&sealed), Err(Error::DecryptionFailed)));
}

#[test]
fn split_packet_takes_the_packet_off_the_front() {
    let (packet, rest) = split_packet(vec![0xd0, 0, 0, 0, 1, 2]).unwrap();
    assert!(matches!(packet, Packet::ConnectionEstablished));
    assert_eq!(rest, vec![1, 2]);
    let (packet, rest) = split_packet(vec![0x80, 0, 0, 0, 1, 0, 0, 0, 0, 0, 0, 0]).unwrap();
    assert!(matches!(packet, Packet::EchoReply(1)));
    assert!(rest.is_empty());
    assert!(matches!(split_packet(vec![0xd0, 0, 0]), Err(Error::ParseError(_))));
    assert!(matches!(split_packet(vec![0x03, 0, 0, 0]), Err(Error::ParseError(_))));
    assert!(matches!(split_packet(vec![0x01, 0, 0, 0, 1]), Err(Error::ParseError(_))));
}

#[test]
fn padding_tells_its_own_length() {
    for pad in 1..=32u8 {
        let padded = pad_message(b"hi".to_vec(), pad);
        assert_eq!(padded.len(), 2 + pad as usize);
        assert_eq!(*padded.last().unwrap(), pad);
        assert!(padded[2..].iter().all(|b| *b == pad));
        assert_eq!(strip_padding(&padded), Some(b"hi".to_vec()));
    }
    let long = vec![0x41u8; 3500];
    let padded = pad_message(long.clone(), 32);
    assert_eq!(padded.len(), 3532);
    assert_eq!(strip_padding(&padded), Some(long));
    assert_eq!(pad_message(vec![], 3), vec![3, 3, 3]);
    assert_eq!(strip_padding(&[3, 3, 3]), Some(vec![]));
}

#[test]
fn wrong_padding_is_refused() {
    assert_eq!(strip_padding(&[]), None);
    assert_eq!(strip_padding(&[0]), None);
    assert_eq!(strip_padding(&[1, 2, 0]), None);
    assert_eq!(strip_padding(&[2]), None);
    assert_eq!(strip_padding(&[1, 4, 4]), None);
    assert_eq!(strip_padding(&[33; 40]), None);
    assert_eq!(strip_padding(&[32; 40]), Some(vec![32; 8]));
    assert_eq!(strip_padding(&[9, 9, 1]), Some(vec![9, 9]));
}

#[test]
fn a_text_message_goes_out_in_an_envelope() {
    let (mut client, mut server) = connected();
    let peer = keypair(5);
    client.remember_peer_key(echo(), &peer.0 .0).unwrap();
    let (id, framed) = client
        .seal_message(echo(), Message::Text(Text { message: "hi".to_string() }).serialize(), 0x1_6543_2100, draw(5))
        .unwrap();
    assert_eq!(id, draw(5).msg_id);
    let plain = server.open_frame(&framed);
    assert_eq!(&plain[..4], &[1, 0, 0, 0]);
    let (header, used) = Header::deserialize_with_size(&plain[4..]).unwrap();
    assert_eq!(used, 88);
    assert_eq!(header.sender, client_id());
    assert_eq!(header.receiver, echo());
    assert_eq!(header.msg_id, id);
    assert_eq!(header.timestamp, 0x6543_2100);
    assert_eq!(header.flags, 1);
    let mut nickname = [0u8; 32];
    nickname[..8].copy_from_slice(b"ABCD1234");
    assert_eq!(header.nickname, nickname);
    assert_eq!(header.nonce, [9; 24]);
    let sealed = &plain[92..];
    assert_eq!(sealed.len(), 1 + 2 + 5 + 16);
    let body = box_::open(sealed, &box_::Nonce(header.nonce), &client_keys().0, &peer.1).unwrap();
    assert_eq!(body, vec![1, b'h', b'i', 5, 5, 5, 5, 5]);
}

#[test]
fn a_text_message_gets_fresh_padding_and_identifier() {
    let (mut client, mut server) = connected();
    let peer = keypair(5);
    client.remember_peer_key(echo(), &peer.0 .0).unwrap();
    let (first, framed) = client.send_text_message(echo(), "hi".to_string(), 1_700_000_000).unwrap();
    let plain = server.open_frame(&framed);
    assert_eq!(&plain[..4], &[1, 0, 0, 0]);
    let header = Header::deserialize(&plain[4..]).unwrap();
    assert_eq!(header.msg_id, first);
    assert_eq!(header.timestamp, 1_700_000_000);
    let body = box_::open(&plain[92..], &box_::Nonce(header.nonce), &client_keys().0, &peer.1).unwrap();
    let pad = *body.last().unwrap();
    assert!((1..=32).contains(&pad));
    assert_eq!(body.len(), 3 + pad as usize);
    assert_eq!(plain.len(), 4 + 88 + 3 + pad as usize + 16);
    assert_eq!(strip_padding(&body), Some(vec![1, b'h', b'i']));
    let (second, _) = client.send_text_message(echo(), "hi".to_string(), 1_700_000_000).unwrap();
    assert_ne!(first, second);
}

#[test]
fn the_nickname_is_cut_or_filled_to_32_bytes() {
    let server = Server::new();
    let mut client = new_client(&server);
    let mut expected = [0u8; 32];
    expected[..8].copy_from_slice(b"ABCD1234");
    assert_eq!(client.get_nickname(), expected);
    client.nick = Some("nick".to_string());
    let mut expected = [0u8; 32];
    expected[..4].copy_from_slice(b"nick");
    assert_eq!(client.get_nickname(), expected);
    client.nick = Some("a".repeat(40));
    assert_eq!(client.get_nickname(), [b'a'; 32]);
    client.nick = Some(String::new());
    assert_eq!(client.get_nickname(), [0u8; 32]);
}

#[test]
fn a_message_needs_the_key_of_its_receiver() {
    let (mut client, mut server) = connected();
    assert!(matches!(
        client.send_text_message(echo(), "hi".to_string(), 0),
        Err(Error::RequestError)
    ));
    // Nothing was sealed: the next frame still has the counter 2.
    let framed = client.send(b"x").unwrap();
    assert_eq!(server.open_frame(&framed), b"x");
}

#[test]
fn the_first_key_learned_of_a_peer_stands() {
    let server = Server::new();
    let mut client = new_client(&server);
    assert!(matches!(
        client.remember_peer_key(echo(), &[1; 31]),
        Err(Error::InvalidPublicKey)
    ));
    assert!(client.peer_key(echo()).is_none());
    assert_eq!(client.remember_peer_key(echo(), &[1; 32]).unwrap().0, [1; 32]);
    assert_eq!(client.peer_key(echo()).unwrap().0, [1; 32]);
    assert_eq!(client.remember_peer_key(echo(), &[2; 32]).unwrap().0, [1; 32]);
    assert_eq!(client.remember_peer_key(echo(), &[2; 3]).unwrap().0, [1; 32]);
    assert_eq!(client.peer_key(echo()).unwrap().0, [1; 32]);
    assert!(client.peer_key(client_id()).is_none());
    assert_eq!(client.remember_peer_key(client_id(), &[3; 32]).unwrap().0, [3; 32]);
    assert_eq!(client.peer_key(echo()).unwrap().0, [1; 32]);
}

fn deliver(server: &mut Server, peer: &(box_::PublicKey, box_::SecretKey), body: &[u8], tag: u32) -> Vec<u8> {
    let header = Header {
        sender: echo(),
        receiver: client_id(),
        msg_id: MessageID::from_bytes([8, 7, 6, 5, 4, 3, 2, 1]),
        timestamp: 5,
        flags: 1,
        nickname: [0; 32],
        nonce: [0x33; 24],
    };
    let mut plain = tag.to_le_bytes().to_vec();
    plain.extend_from_slice(&header.serialize());
    plain.extend_from_slice(&box_::seal(body, &box_::Nonce(header.nonce), &client_keys().0, &peer.1));
    server.seal(&plain)
}

#[test]
fn an_incoming_text_is_acknowledged_and_answered_with_a_receipt() {
    for tag in [1u32, 2u32] {
        let (mut client, mut server) = connected();
        let peer = keypair(5);
        let id = MessageID::from_bytes([8, 7, 6, 5, 4, 3, 2, 1]);
        let sealed = deliver(&mut server, &peer, &[1, b'h', b'i', 2, 2], tag);
        let (header, body, ack) = match client.receive(&sealed).unwrap() {
            Inbound::Delivery { header, body, ack } => (header, body, ack),
            other => panic!("no delivery: {:?}", other),
        };
        assert_eq!(header.sender, echo());
        assert_eq!(header.msg_id, id);
        let mut expected = vec![0x82, 0, 0, 0];
        expected.extend_from_slice(b"ECHOECHO");
        expected.extend_from_slice(&[8, 7, 6, 5, 4, 3, 2, 1]);
        assert_eq!(server.open_frame(&ack), expected);

        // The key of the sender is not known yet.
        assert!(matches!(
            client.open_delivery(&header, &body, 77),
            Err(Error::RequestError)
        ));
        client.remember_peer_key(echo(), &peer.0 .0).unwrap();
        let (message, receipt) = match client.open_delivery_with(&header, &body, 77, draw(3)).unwrap() {
            Opened::Message { message, receipt } => (message, receipt),
            other => panic!("no message: {:?}", other),
        };
        assert_eq!(message.msg_id, id);
        assert_eq!(message.sender, echo());
        assert!(matches!(message.data, Message::Text(Text { message }) if message == "hi"));

        let plain = server.open_frame(&receipt.unwrap());
        assert_eq!(&plain[..4], &[1, 0, 0, 0]);
        let sent = Header::deserialize(&plain[4..]).unwrap();
        assert_eq!(sent.sender, client_id());
        assert_eq!(sent.receiver, echo());
        assert_eq!(sent.timestamp, 77);
        let opened = box_::open(&plain[92..], &box_::Nonce(sent.nonce), &client_keys().0, &peer.1).unwrap();
        assert_eq!(opened, vec![0x80, 1, 8, 7, 6, 5, 4, 3, 2, 1, 3, 3, 3]);
    }
}

#[test]
fn receipts_and_typing_notes_are_not_answered() {
    let (mut client, mut server) = connected();
    let peer = keypair(5);
    client.remember_peer_key(echo(), &peer.0 .0).unwrap();
    let bodies: [&[u8]; 2] = [&[0x90, 1], &[0x80, 2, 1, 1, 1, 1, 1, 1, 1, 1, 1]];
    for body in bodies {
        let sealed = deliver(&mut server, &peer, body, 2);
        let (header, body) = match client.receive(&sealed).unwrap() {
            Inbound::Delivery { header, body, ack } => {
                server.open_frame(&ack);
                (header, body)
            }
            other => panic!("no delivery: {:?}", other),
        };
        match client.open_delivery(&header, &body, 0).unwrap() {
            Opened::Message { message, receipt } => {
                assert!(receipt.is_none());
                assert!(matches!(
                    message.data,
                    Message::TypingNotification | Message::DeliveryReceipt(MessageStatus::Read, _)
                ));
            }
            other => panic!("no message: {:?}", other),
        }
    }
    // No frame but the two acknowledgements went out.
    let framed = client.send(b"x").unwrap();
    assert_eq!(server.open_frame(&framed), b"x");
}

#[test]
fn a_message_that_does_not_open_leaves_the_session_alone() {
    let (mut client, mut server) = connected();
    let peer = keypair(5);
    let other = keypair(6);
    client.remember_peer_key(echo(), &other.0 .0).unwrap();
    let sealed = deliver(&mut server, &peer, &[1, b'h', b'i', 2, 2], 2);
    let (header, body) = match client.receive(&sealed).unwrap() {
        Inbound::Delivery { header, body, .. } => (header, body),
        other => panic!("no delivery: {:?}", other),
    };
    assert!(matches!(
        client.open_delivery(&header, &body, 0),
        Err(Error::DecryptionFailed)
    ));
    assert_eq!(client.session_state(), SessionState::Connected);
    let sealed = server.seal(&Packet::ConnectionEstablished.serialize());
    assert!(matches!(
        client.receive(&sealed),
        Ok(Inbound::Packet(Packet::ConnectionEstablished))
    ));
}

#[test]
fn what_a_body_may_hold() {
    assert!(matches!(read_body(&[1, b'h', b'i', 1]), Ok(Some(Message::Text(_)))));
    assert!(matches!(read_body(&[0x90, 1]), Ok(Some(Message::TypingNotification))));
    // Wrong padding.
    assert!(matches!(read_body(&[1, b'h', b'i', 0]), Err(Error::ParseError(_))));
    assert!(matches!(read_body(&[]), Err(Error::ParseError(_))));
    // The tag of no message, or no tag at all.
    assert!(matches!(read_body(&[0x03, 1]), Ok(None)));
    assert!(matches!(read_body(&[1]), Ok(None)));
    // A message that does not decode.
    assert!(matches!(read_body(&[1, 0xff, 1]), Err(Error::ParseError(_))));
    assert!(matches!(read_body(&[0x80, 1, 2, 1]), Err(Error::ParseError(_))));
    assert!(matches!(read_body(&[0x80, 9, 1, 1, 1, 1, 1, 1, 1, 1, 1]), Err(Error::ParseError(_))));
}

#[test]
fn unknown_tags_are_passed_over() {
    let (mut client, mut server) = connected();
    let peer = keypair(5);
    client.remember_peer_key(echo(), &peer.0 .0).unwrap();
    let sealed = server.seal(&[0x77, 0, 0, 0, 1, 2, 3]);
    assert!(matches!(client.receive(&sealed), Ok(Inbound::Unknown)));
    let sealed = server.seal(&[0x01]);
    assert!(matches!(client.receive(&sealed), Ok(Inbound::Unknown)));
    // A known tag with too little after it is an error.
    let sealed = server.seal(&[0x01, 0, 0, 0, 1, 2, 3]);
    assert!(matches!(client.receive(&sealed), Err(Error::ParseError(_))));
    assert_eq!(client.session_state(), SessionState::Connected);

    let sealed = deliver(&mut server, &peer, &[0x03, 9, 2, 2], 2);
    let (header, body) = match client.receive(&sealed).unwrap() {
        Inbound::Delivery { header, body, ack } => {
            server.open_frame(&ack);
            (header, body)
        }
        other => panic!("no delivery: {:?}", other),
    };
    assert!(matches!(client.open_delivery(&header, &body, 0), Ok(Opened::Unknown)));
    let framed = client.send(b"x").unwrap();
    assert_eq!(server.open_frame(&framed), b"x");
}

#[test]
fn packets_that_ask_for_nothing() {
    let (mut client, mut server) = connected();
    let id = MessageID::from_bytes([1; 8]);
    let packets = [
        Packet::ServerAck(echo(), id),
        Packet::ClientAck(echo(), id),
        Packet::ConnectionEstablished,
        Packet::Alert,
        Packet::EchoRequest(5),
        Packet::EchoReply(5),
    ];
    for packet in packets {
        assert!(matches!(dispatch(&packet), Dispatch::Continue));
        let sealed = server.seal(&packet.serialize());
        assert!(matches!(client.receive(&sealed), Ok(Inbound::Packet(_))));
    }
    assert_eq!(client.session_state(), SessionState::Connected);
}

#[test]
fn a_duplicate_connection_ends_the_session() {
    assert!(matches!(dispatch(&Packet::DuplicateConnection), Dispatch::Disconnect));
    let (mut client, mut server) = connected();
    let sealed = server.seal(&Packet::DuplicateConnection.serialize());
    assert!(matches!(client.receive(&sealed), Err(Error::NotConnected)));
    assert_eq!(client.session_state(), SessionState::Disconnected);
    assert!(matches!(client.send(b"x"), Err(Error::NotConnected)));
    // A disconnected session can be begun anew.
    assert!(client.start_handshake().is_ok());
}

#[test]
fn both_envelopes_are_deliveries() {
    let header = Header {
        sender: echo(),
        receiver: client_id(),
        msg_id: MessageID::from_bytes([0; 8]),
        timestamp: 0,
        flags: 0,
        nickname: [0; 32],
        nonce: [0; 24],
    };
    assert!(matches!(dispatch(&Packet::ClientToServer(header)), Dispatch::Deliver(_)));
    assert!(matches!(dispatch(&Packet::ServerToClient(header)), Dispatch::Deliver(_)));
    let out = envelope(header, vec![1, 2, 3]);
    assert_eq!(out.len(), 4 + 88 + 3);
    assert_eq!(&out[..4], &[1, 0, 0, 0]);
    assert_eq!(&out[4..92], &header.serialize()[..]);
    assert_eq!(&out[92..], &[1, 2, 3]);
}

#[test]
fn disconnecting_drops_the_session() {
    let (mut client, _server) = connected();
    client.disconnect();
    assert_eq!(client.session_state(), SessionState::Disconnected);
    assert!(matches!(client.send(b"x"), Err(Error::NotConnected)));
}

#[test]
fn a_receipt_can_be_sent_by_hand() {
    let (mut client, mut server) = connected();
    let peer = keypair(5);
    client.remember_peer_key(echo(), &peer.0 .0).unwrap();
    let id = MessageID::from_bytes([4; 8]);
    let (_, framed) = client.confirm_receipt(echo(), id, 9).unwrap();
    let plain = server.open_frame(&framed);
    let header = Header::deserialize(&plain[4..]).unwrap();
    let body = box_::open(&plain[92..], &box_::Nonce(header.nonce), &client_keys().0, &peer.1).unwrap();
    assert_eq!(strip_padding(&body), Some(vec![0x80, 1, 4, 4, 4, 4, 4, 4, 4, 4]));
    let ack = client.send_ack(echo(), id).unwrap();
    let mut expected = vec![0x82, 0, 0, 0];
    expected.extend_from_slice(b"ECHOECHO");
    expected.extend_from_slice(&[4; 8]);
    assert_eq!(server.open_frame(&ack), expected);
}

#[test]
fn an_aborted_session_has_failed() {
    let (mut client, _server) = connected();
    client.abort();
    assert_eq!(client.session_state(), SessionState::Failed);
    assert!(matches!(client.send(b"x"), Err(Error::NotConnected)));
    assert!(matches!(client.start_handshake(), Err(Error::NotConnected)));
}

#[test]
fn connect_takes_the_handshake_step_by_step() {
    let mut server = Server::new();
    let mut client = new_client(&server);
    assert_eq!(client.awaited_bytes(), 0);
    let hello = client.connect(&[]).unwrap();
    assert_eq!(hello.len(), 48);
    assert_eq!(client.session_state(), SessionState::Handshaking);
    assert_eq!(client.awaited_bytes(), 80);
    let login = client.connect(&server.hello(&hello)).unwrap();
    assert_eq!(login.len(), 144);
    server.open(&login);
    assert_eq!(client.awaited_bytes(), 32);
    assert!(client.connect(&server.ack()).unwrap().is_empty());
    assert_eq!(client.session_state(), SessionState::Connected);
    assert_eq!(client.awaited_bytes(), 0);
    let framed = client.send(b"x").unwrap();
    assert_eq!(server.open_frame(&framed), b"x");

    // A step that fails leaves the session failed.
    let mut server = Server::new();
    let mut client = new_client(&server);
    let hello = client.connect(&[]).unwrap();
    server.hello(&hello);
    assert!(matches!(client.connect(&[0; 80]), Err(Error::DecryptionFailed)));
    assert_eq!(client.session_state(), SessionState::Failed);
    assert!(matches!(client.connect(&[]), Err(Error::NotConnected)));
}

#[test]
fn a_key_that_seals_nothing_is_kept_but_not_sealed_for() {
    let (mut client, mut server) = connected();
    // Whatever 32 bytes the directory gives are taken in.
    assert_eq!(client.remember_peer_key(echo(), &[0; 32]).unwrap().0, [0; 32]);
    assert_eq!(client.peer_key(echo()).unwrap().0, [0; 32]);
    // No box can be sealed for such a key, and the session is left alone.
    assert!(matches!(
        client.send_text_message(echo(), "hi".to_string(), 0),
        Err(Error::InvalidPublicKey)
    ));
    assert!(matches!(
        client.confirm_receipt(echo(), MessageID::from_bytes([1; 8]), 0),
        Err(Error::InvalidPublicKey)
    ));
    assert_eq!(client.session_state(), SessionState::Connected);
    let framed = client.send(b"x").unwrap();
    assert_eq!(server.open_frame(&framed), b"x");
}

#[test]
fn a_server_hello_with_a_key_that_seals_nothing_fails_the_session() {
    let mut server = Server::new();
    let mut client = new_client(&server);
    let hello = client.start_handshake().unwrap();
    // The server names 32 zero bytes as its key for the session.
    server.ephemeral.0 = box_::PublicKey([0; 32]);
    let server_hello = server.hello(&hello);
    assert!(matches!(
        client.answer_server_hello(&server_hello),
        Err(Error::InvalidPublicKey)
    ));
    assert_eq!(client.session_state(), SessionState::Failed);
}
