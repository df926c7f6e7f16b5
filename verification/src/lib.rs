//! Verified core of the Amanda OS command-line tools: the `.amaudit` hash-chained
//! audit trail, the `.amrpt` report model, the `.amconf` configuration model, and the
//! decision logic of the `amanda-watch` process monitor (filters, ordering, alerts).

pub mod amaudit;
pub mod amconf;
pub mod amrpt;
pub mod digest;
pub mod json;
pub mod keyed;
pub mod text;
pub mod time;
pub mod watch;

use crate::time::Timestamp;
use vstd::prelude::*;

verus! {

/// The version written into the metadata of every file the tools produce.
pub const FORMAT_VERSION: &'static str = "0.1.0";

/// Common metadata for all Amanda OS formats.
#[derive(Debug, Clone, PartialEq)]
pub struct AmandaMetadata {
    pub version: String,
    pub created_at: Timestamp,
    pub generator: String,
    pub hostname: Option<String>,
}

impl AmandaMetadata {
    /// Metadata stamped now, for the tool `generator` running on `hostname`.
    pub fn new(generator: String, hostname: Option<String>) -> (r: Self)
        ensures
            r.version@ == FORMAT_VERSION@,
            r.generator == generator,
            r.hostname == hostname,
    {
        Self::stamped(generator, hostname, Timestamp::now())
    }

    /// Metadata created at `created_at`.
    pub fn stamped(generator: String, hostname: Option<String>, created_at: Timestamp) -> (r: Self)
        ensures
            r.version@ == FORMAT_VERSION@,
            r.generator == generator,
            r.hostname == hostname,
            r.created_at == created_at,
    {
        AmandaMetadata { version: FORMAT_VERSION.to_string(), created_at, generator, hostname }
    }
}

/// Common error type for Amanda OS operations.
#[derive(Debug, Clone, PartialEq, Eq)]
pub enum AmandaError {
    /// A file could not be read or written; the text is the system's message.
    Io(String),
    /// A value could not be turned into JSON or back; the text is the parser's message.
    Serialization(String),
    /// The entry at `index` of an audit trail breaks the hash chain.
    HashChainViolation { index: usize },
    InvalidFormat(String),
    Config(String),
}

pub type Result<T> = core::result::Result<T, AmandaError>;

} // verus!
