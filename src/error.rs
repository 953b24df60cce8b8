use vstd::prelude::*;

verus! {

/// Every failure the vault reports, carried unchanged through every layer.
#[derive(Debug, Clone, PartialEq, Eq)]
pub enum Error {
    Io(String),
    Crypto(String),
    Storage(String),
    Zip(String),
    Csv(String),
    InvalidKey,
    ItemNotFound(String),
    Serialization(String),
    KeyDerivation(String),
    Encryption(String),
    Decryption(String),
    VaultLocked,
    InvalidMasterKey,
    VaultAlreadyInitialized,
    InvalidInput(String),
    Internal(String),
}

pub type Result<T> = core::result::Result<T, Error>;

/// An I/O failure described by its message.
#[derive(Debug, Clone)]
pub struct IoErrorWrapper(pub String);

impl IoErrorWrapper {
    pub fn new(message: String) -> (r: IoErrorWrapper)
        ensures
            r.0@ == message@,
    {
        IoErrorWrapper(message)
    }

    pub fn message(&self) -> (r: &String)
        ensures
            r@ == self.0@,
    {
        &self.0
    }
}

/// Builds an error detail from a fixed text.
pub fn detail(text: &str) -> (r: String)
    ensures
        r@ == text@,
{
    text.to_owned()
}

} // verus!
