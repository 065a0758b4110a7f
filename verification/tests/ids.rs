use threema::flat::Flat;
use threema::{Error, GroupID, MessageID, ThreemaID};

#[test]
fn a_message_id_holds_eight_bytes() {
    let id = MessageID::from_bytes([1, 2, 3, 4, 5, 6, 7, 8]);
    assert_eq!(id.as_bytes(), [1, 2, 3, 4, 5, 6, 7, 8]);
    assert_eq!(MessageID::from_slice(&[1, 2, 3, 4, 5, 6, 7, 8]), Some(id));
    assert_eq!(MessageID::from_slice(&[1, 2, 3, 4, 5, 6, 7]), None);
    assert_eq!(MessageID::from_slice(&[1, 2, 3, 4, 5, 6, 7, 8, 9]), None);
    assert_eq!(MessageID::from_slice(&[]), None);
}

#[test]
fn a_message_id_shows_as_sixteen_hex_digits() {
    let id = MessageID::from_bytes([0x00, 0x01, 0x0a, 0x10, 0x7f, 0x80, 0xab, 0xff]);
    assert_eq!(id.to_string(), "00010a107f80abff");
    assert_eq!(MessageID::from_bytes([0; 8]).to_string(), "0000000000000000");
}

#[test]
fn fresh_message_ids_differ() {
    assert_ne!(MessageID::random(), MessageID::random());
    assert_ne!(MessageID::default(), MessageID::default());
}

#[test]
fn an_identity_is_eight_capitals_or_digits() {
    let id = ThreemaID::from_string("ECHOECHO").unwrap();
    assert_eq!(id.as_bytes(), *b"ECHOECHO");
    assert_eq!(id.to_string(), "ECHOECHO");
    assert_eq!(ThreemaID::from_slice(b"AZ09AZ09").unwrap().as_bytes(), *b"AZ09AZ09");
    assert_eq!(ThreemaID::from_string("ABCD1234").unwrap().to_string(), "ABCD1234");
}

#[test]
fn what_is_no_identity_is_refused() {
    let wrong: [&[u8]; 9] = [
        b"",
        b"ECHOECH",
        b"ECHOECHOE",
        b"echoecho",
        b"ECHO-CHO",
        b"ECHO CHO",
        b"ECHOECH@",
        b"ECHOECH[",
        b"ECHO\xffCHO",
    ];
    for id in wrong {
        assert!(matches!(ThreemaID::from_slice(id), Err(Error::InvalidID)));
    }
    assert!(matches!(ThreemaID::from_string("ECHOECH\u{e9}"), Err(Error::InvalidID)));
    assert!(matches!(ThreemaID::from_string("ECHOECH/"), Err(Error::InvalidID)));
    assert!(matches!(ThreemaID::from_string("ECHOECH:"), Err(Error::InvalidID)));
}

#[test]
fn an_identity_has_a_number_of_its_own() {
    let a = ThreemaID::from_string("AAAAAAAA").unwrap();
    let b = ThreemaID::from_string("AAAAAAAB").unwrap();
    assert_ne!(a.as_u64(), b.as_u64());
    assert_eq!(a.as_u64(), u64::from_le_bytes(*b"AAAAAAAA"));
    assert_eq!(b.as_u64(), u64::from_le_bytes(*b"AAAAAAAB"));
}

#[test]
fn identifiers_are_written_as_their_bytes() {
    let id = ThreemaID::from_string("ECHOECHO").unwrap();
    assert_eq!(id.serialize(), b"ECHOECHO".to_vec());
    assert_eq!(ThreemaID::deserialize_with_size(b"ECHOECHO!"), Some((id, 8)));
    assert_eq!(ThreemaID::deserialize(b"ECHOECH"), None);
    // The codec takes an identity as it comes.
    let odd = ThreemaID::deserialize(&[0xff, 0, 1, 2, 3, 4, 5, 6]).unwrap();
    assert_eq!(odd.as_bytes(), [0xff, 0, 1, 2, 3, 4, 5, 6]);

    let message = MessageID::from_bytes([1; 8]);
    assert_eq!(message.serialize(), vec![1; 8]);
    assert_eq!(MessageID::deserialize_with_size(&[1; 9]), Some((message, 8)));
    assert_eq!(MessageID::deserialize(&[1; 7]), None);

    let (group, used) = GroupID::deserialize_with_size(&[2; 10]).unwrap();
    assert_eq!(used, 8);
    assert_eq!(group.serialize(), vec![2; 8]);
    assert_eq!(GroupID::deserialize(&[2; 7]), None);
}

#[test]
fn an_identity_off_the_wire_shows_what_it_can() {
    let odd = ThreemaID::deserialize(&[b'A', 0xff, b'B', b'C', b'D', b'E', b'F', b'G']).unwrap();
    assert_eq!(odd.to_string(), "A\u{fffd}BCDEFG");
    let plain = ThreemaID::deserialize(b"abc def!").unwrap();
    assert_eq!(plain.to_string(), "abc def!");
}
