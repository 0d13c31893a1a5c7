//! The records the manager keeps and the rules by which they change.
use vstd::prelude::*;


pub mod api_key;
pub mod artwork_cache;
pub mod config;
pub mod custom_formats;
pub mod direct_rss_feeds;
pub mod download_clients;
pub mod episode_airings;
pub mod episode_tags;
pub mod external_accounts;
pub mod grabbed_torrents;
pub mod group_source_map;
pub mod indexers;
pub mod label_forms;
pub mod library;
pub mod local_metadata;
pub mod log;
pub mod media_probe_cache;
pub mod metadata_cache;
pub mod migrations;
pub mod nyaa_description_cache;
pub mod pending_grabs;
pub mod rss;
pub mod series;
pub mod startup;

verus! {

/// Why a change to the records was refused.
#[derive(Debug, Clone, Copy, PartialEq, Eq, Structural)]
pub enum StoreError {
    /// The numbers for new rows are used up.
    Full,
    /// Another row holds the same key.
    Duplicate,
    /// The row refers to one that does not exist.
    MissingParent,
    /// There is no such row.
    NotFound,
    /// A value that has to be there is missing.
    MissingValue,
    /// Other rows refer to the row.
    Referenced,
    /// A stored text is not what it should be.
    Malformed,
}

impl StoreError {
    pub open spec fn reason_text(self) -> Seq<char> {
        match self {
            StoreError::Full => "no ids are left"@,
            StoreError::Duplicate => "the key is taken"@,
            StoreError::MissingParent => "what it refers to does not exist"@,
            StoreError::NotFound => "there is no such row"@,
            StoreError::MissingValue => "a value is missing"@,
            StoreError::Referenced => "other rows refer to it"@,
            StoreError::Malformed => "a stored list cannot be read"@,
        }
    }

    /// The reason in words.
    pub fn reason(&self) -> (text: &'static str)
        ensures
            text@ == self.reason_text(),
    {
        match self {
            StoreError::Full => "no ids are left",
            StoreError::Duplicate => "the key is taken",
            StoreError::MissingParent => "what it refers to does not exist",
            StoreError::NotFound => "there is no such row",
            StoreError::MissingValue => "a value is missing",
            StoreError::Referenced => "other rows refer to it",
            StoreError::Malformed => "a stored list cannot be read",
        }
    }
}

} // verus!
