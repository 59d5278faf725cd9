use vstd::prelude::*;
use crate::fiber::session::AttributeValue;
use crate::time::Timestamp;

verus! {

/// A stored log record.
pub struct StoredLog {
    pub log_id: u128,
    pub timestamp: Timestamp,
    pub source_id: String,
    pub raw_text: String,
    pub ingestion_time: Timestamp,
    pub config_version: u64,
}

/// A fiber as it is stored: its attributes as (name, value) pairs.
pub struct FiberRecord {
    pub fiber_id: u128,
    pub fiber_type: String,
    pub config_version: u64,
    pub attributes: Vec<(String, AttributeValue)>,
    pub first_activity: Timestamp,
    pub last_activity: Timestamp,
    pub closed: bool,
}

/// A log belongs to a fiber.
pub struct FiberMembership {
    pub log_id: u128,
    pub fiber_id: u128,
    pub config_version: u64,
}

/// Where a configuration version came from.
#[derive(Clone, Copy, Debug, PartialEq, Eq, Structural)]
pub enum ConfigSource {
    File,
    UI,
    Merge,
}

impl ConfigSource {
    /// The name under which the source is stored.
    pub fn as_str(&self) -> (s: &'static str)
        ensures
            s@ == match *self {
                ConfigSource::File => "file"@,
                ConfigSource::UI => "ui"@,
                ConfigSource::Merge => "merge"@,
            },
    {
        match self {
            ConfigSource::File => "file",
            ConfigSource::UI => "ui",
            ConfigSource::Merge => "merge",
        }
    }
}

/// A stored configuration version.
pub struct ConfigVersion {
    pub version_hash: String,
    pub parent_hash: Option<String>,
    pub yaml_content: String,
    pub created_at: Timestamp,
    pub source: ConfigSource,
    pub is_active: bool,
}

/// Whether the configuration file and the stored configuration disagree.
pub struct ConfigState {
    pub has_conflict: bool,
    pub conflict_file_path: Option<String>,
    pub file_version_hash: Option<String>,
    pub db_version_hash: Option<String>,
}

} // verus!
