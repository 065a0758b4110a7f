use threema::Error;

#[test]
fn errors_describe_themselves() {
    assert_eq!(Error::InvalidPrivateKey.to_string(), "Invalid private key");
    assert_eq!(Error::InvalidPublicKey.to_string(), "Invalid public key");
    assert_eq!(
        Error::InvalidBackupOrPassword.to_string(),
        "Invalid backup or password"
    );
    assert_eq!(
        Error::ParseError("packet".to_string()).to_string(),
        "Parser error: packet"
    );
    assert_eq!(Error::RequestError.to_string(), "Request failed");
    assert_eq!(Error::InvalidID.to_string(), "Invalid ID format");
    assert_eq!(Error::NotConnected.to_string(), "Not connected");
    assert_eq!(Error::DecryptionFailed.to_string(), "decryption failed");
}

#[test]
fn an_io_error_is_carried_along() {
    let inner = std::io::Error::new(std::io::ErrorKind::UnexpectedEof, "early end");
    let error = Error::from(inner);
    assert!(matches!(error, Error::Io(_)));
    assert_eq!(error.to_string(), "I/O error: early end");
}
