//! What every engine offers, and the engines that there are.
use vstd::prelude::*;

use crate::config::Config;
use crate::error::KvsError;

verus! {

/// A key-value store.
pub trait KvStore: Sized + Clone + Send + 'static {
    /// Opens the store that a config describes.
    fn open(config: Config) -> Result<Self, KvsError>;

    /// Gives a key a value.
    fn set(&self, key: &str, value: &str) -> Result<(), KvsError>;

    /// Removes a key.
    fn remove(&self, key: &str) -> Result<(), KvsError>;

    /// The value of a key.
    fn get(&self, key: &str) -> Result<Option<String>, KvsError>;
}

/// The engines that there are.
#[derive(Clone, Copy, Debug, PartialEq, Eq, Structural)]
pub enum StoreType {
    Bitcask,
    Sled,
}

impl StoreType {
    /// The name of an engine.
    pub open spec fn name(self) -> Seq<char> {
        match self {
            StoreType::Bitcask => "bitcask"@,
            StoreType::Sled => "sled"@,
        }
    }

    /// The name of the engine.
    pub fn as_str(&self) -> (name: &'static str)
        ensures
            name@ == self.name(),
    {
        match self {
            StoreType::Bitcask => "bitcask",
            StoreType::Sled => "sled",
        }
    }
}

} // verus!
