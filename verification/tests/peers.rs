use threema::crypto::{PublicKey, SecretKey};
use threema::peers::PeerKeyCache;
use threema::rest::{Bytes, GetPubKeyResponse};
use threema::{Error, ThreemaID};

fn id(name: &str) -> ThreemaID {
    ThreemaID::from_string(name).unwrap()
}

#[test]
fn a_cache_keeps_what_it_learned_first() {
    let mut cache = PeerKeyCache::new();
    assert!(cache.get(id("ECHOECHO")).is_none());
    assert_eq!(cache.remember(id("ECHOECHO"), PublicKey([1; 32])).0, [1; 32]);
    assert_eq!(cache.get(id("ECHOECHO")).unwrap().0, [1; 32]);
    assert_eq!(cache.remember(id("ECHOECHO"), PublicKey([2; 32])).0, [1; 32]);
    assert_eq!(cache.get(id("ECHOECHO")).unwrap().0, [1; 32]);
    assert!(cache.get(id("ECHOECHP")).is_none());
    assert_eq!(cache.remember(id("ECHOECHP"), PublicKey([3; 32])).0, [3; 32]);
    assert_eq!(cache.get(id("ECHOECHO")).unwrap().0, [1; 32]);
    assert_eq!(cache.get(id("ECHOECHP")).unwrap().0, [3; 32]);
}

#[test]
fn keys_have_32_bytes() {
    assert_eq!(PublicKey::from_slice(&[5; 32]).unwrap().0, [5; 32]);
    assert!(PublicKey::from_slice(&[5; 31]).is_none());
    assert!(PublicKey::from_slice(&[5; 33]).is_none());
    assert_eq!(SecretKey::from_slice(&[6; 32]).unwrap().0, [6; 32]);
    assert!(SecretKey::from_slice(&[]).is_none());
}

#[test]
fn the_answer_of_the_directory_holds_a_key() {
    let answer = GetPubKeyResponse {
        identity: "ECHOECHO".to_string(),
        public_key: Bytes::from(vec![4; 32]),
    };
    assert_eq!(answer.peer_key().unwrap().0, [4; 32]);
    let short = GetPubKeyResponse {
        identity: "ECHOECHO".to_string(),
        public_key: Bytes::from(vec![4; 31]),
    };
    assert!(matches!(short.peer_key(), Err(Error::InvalidPublicKey)));
    assert!(matches!(
        GetPubKeyResponse::default().peer_key(),
        Err(Error::InvalidPublicKey)
    ));
}

#[test]
fn bytes_are_what_they_were_made_of() {
    let bytes = Bytes::from(vec![1, 2, 3]);
    assert_eq!(bytes.as_slice(), &[1, 2, 3]);
    assert_eq!(bytes.into_vec(), vec![1, 2, 3]);
    assert!(Bytes::default().as_slice().is_empty());
}

#[test]
fn keys_of_small_order_agree_with_no_secret_key() {
    let secret = SecretKey([7; 32]);
    assert!(!PublicKey([0; 32]).agrees_with(&secret));
    let mut one = [0u8; 32];
    one[0] = 1;
    assert!(!PublicKey(one).agrees_with(&secret));
    assert!(PublicKey([9; 32]).agrees_with(&secret));
    assert!(PublicKey([9; 32]).agrees_with(&SecretKey([0; 32])));
}
