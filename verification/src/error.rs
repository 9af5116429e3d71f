use vstd::prelude::*;
use vstd::string::*;

verus! {

/// Shared error value for the key, storage and transaction layers.
///
/// `DecryptionFailed` deliberately carries no payload: a wrong password and a
/// corrupt record are indistinguishable by design.
#[derive(Debug)]
pub enum WalletError {
    Crypto(String),
    Storage(String),
    InvalidPrivateKey(String),
    DecryptionFailed,
    Io(String),
}

impl WalletError {
    /// The rendered message for this error, as shown across the UI boundary.
    pub open spec fn message_spec(&self) -> Seq<char> {
        match self {
            WalletError::Crypto(m) => "Crypto error: "@ + m@,
            WalletError::Storage(m) => "Storage error: "@ + m@,
            WalletError::InvalidPrivateKey(m) => "Invalid private key: "@ + m@,
            WalletError::DecryptionFailed => "Decryption failed (wrong password?)"@,
            WalletError::Io(m) => "IO error: "@ + m@,
        }
    }

    /// Renders the error to its display text.
    pub fn message(&self) -> (r: String)
        ensures
            r@ == self.message_spec(),
    {
        match self {
            WalletError::Crypto(m) => {
                let mut s = String::from_str("Crypto error: ");
                s.append(m.as_str());
                s
            },
            WalletError::Storage(m) => {
                let mut s = String::from_str("Storage error: ");
                s.append(m.as_str());
                s
            },
            WalletError::InvalidPrivateKey(m) => {
                let mut s = String::from_str("Invalid private key: ");
                s.append(m.as_str());
                s
            },
            WalletError::DecryptionFailed => String::from_str(
                "Decryption failed (wrong password?)",
            ),
            WalletError::Io(m) => {
                let mut s = String::from_str("IO error: ");
                s.append(m.as_str());
                s
            },
        }
    }
}

} // verus!
