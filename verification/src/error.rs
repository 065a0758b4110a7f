//! What can go wrong.

use vstd::prelude::*;
use vstd::string::StringExecFns;

verus! {

/// The I/O error of the standard library, carried through as it came.
#[verifier::external_type_specification]
#[verifier::external_body]
pub struct ExIoError(std::io::Error);

#[derive(Debug)]
pub enum Error {
    InvalidPrivateKey,
    InvalidPublicKey,
    InvalidBackupOrPassword,
    Io(std::io::Error),
    ParseError(String),
    RequestError,
    InvalidID,
    NotConnected,
    DecryptionFailed,
}

impl Error {
    /// The text that describes this error, but for the detail of an I/O error.
    pub open spec fn description(&self) -> Seq<char> {
        match self {
            Error::InvalidPrivateKey => "Invalid private key"@,
            Error::InvalidPublicKey => "Invalid public key"@,
            Error::InvalidBackupOrPassword => "Invalid backup or password"@,
            Error::Io(_) => "I/O error: "@,
            Error::ParseError(detail) => "Parser error: "@ + detail@,
            Error::RequestError => "Request failed"@,
            Error::InvalidID => "Invalid ID format"@,
            Error::NotConnected => "Not connected"@,
            Error::DecryptionFailed => "decryption failed"@,
        }
    }

    /// Describes the error in words. The description of an I/O error is
    /// followed by what the error says of itself.
    pub fn to_string(&self) -> (text: String)
        ensures
            match self {
                Error::Io(inner) => exists|detail: String|
                    vstd::string::to_string_from_display_ensures::<std::io::Error>(inner, detail)
                        && text@ == self.description() + detail@,
                _ => text@ == self.description(),
            },
    {
        match self {
            Error::InvalidPrivateKey => "Invalid private key".to_owned(),
            Error::InvalidPublicKey => "Invalid public key".to_owned(),
            Error::InvalidBackupOrPassword => "Invalid backup or password".to_owned(),
            Error::Io(inner) => {
                let detail = inner.to_string();
                "I/O error: ".to_owned().concat(detail.as_str())
            },
            Error::ParseError(detail) => "Parser error: ".to_owned().concat(detail.as_str()),
            Error::RequestError => "Request failed".to_owned(),
            Error::InvalidID => "Invalid ID format".to_owned(),
            Error::NotConnected => "Not connected".to_owned(),
            Error::DecryptionFailed => "decryption failed".to_owned(),
        }
    }
}

impl From<std::io::Error> for Error {
    fn from(inner: std::io::Error) -> (error: Self) {
        Error::Io(inner)
    }
}

impl vstd::std_specs::convert::FromSpecImpl<std::io::Error> for Error {
    open spec fn obeys_from_spec() -> bool {
        true
    }

    open spec fn from_spec(inner: std::io::Error) -> Self {
        Error::Io(inner)
    }
}

} // verus!
