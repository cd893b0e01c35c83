//! br1ef: a morning digest of your email. The library holds the logic that
//! decides what is fetched, kept, collapsed, filtered and summarised; the
//! program around it does the talking to mail servers, databases and models.
pub mod text;
pub mod clock;
pub mod config;
pub mod dedup;
pub mod noise;
pub mod email;
pub mod storage;
pub mod cli;
pub mod fetcher;
pub mod fetch;
pub mod agent;
pub mod digest;
pub mod service;
pub mod commands;
pub mod configure;

use vstd::prelude::*;

verus! {

/// Where an item was fetched from.
#[derive(Debug, Clone, Copy, PartialEq, Eq, Hash)]
pub enum Source {
    Imap,
}

impl Source {
    /// The lower-case name of the source, as it is stored with each item.
    pub fn as_str(&self) -> (r: &'static str)
        ensures
            r@ == "imap"@,
    {
        match self {
            Source::Imap => "imap",
        }
    }
}

/// A single digest item: an email or notification fetched from a source.
#[derive(Debug, Clone, PartialEq)]
pub struct Item {
    pub id: String,
    pub title: String,
    pub from: String,
    pub body: String,
    pub source: String,
    pub mailbox: String,
    pub urgent: bool,
}

impl Item {
    /// A field-by-field copy of the item.
    pub fn duplicate(&self) -> (r: Item)
        ensures
            r == *self,
    {
        Item {
            id: self.id.clone(),
            title: self.title.clone(),
            from: self.from.clone(),
            body: self.body.clone(),
            source: self.source.clone(),
            mailbox: self.mailbox.clone(),
            urgent: self.urgent,
        }
    }
}

/// A moment in UTC: whole seconds since the Unix epoch and the nanoseconds
/// past them.
#[derive(Debug, Clone, Copy, PartialEq, Eq)]
pub struct UtcTime {
    pub secs: i64,
    pub nanos: u32,
}

/// A digest: the processed summary of the stored items.
#[derive(Debug, Clone, PartialEq)]
pub struct Digest {
    /// How many items the digest covers, after collapsing threads.
    pub total_items: usize,
    /// How many of those items came from each source, largest count first.
    pub by_source: Vec<(String, usize)>,
    /// The text of the brief.
    pub summary: String,
    /// When the digest was made.
    pub generated_at: UtcTime,
}

/// What a digest holds, as plain values.
pub struct DigestView {
    pub total_items: usize,
    pub by_source: Seq<(String, usize)>,
    pub summary: Seq<char>,
    pub generated_at: UtcTime,
}

impl View for Digest {
    type V = DigestView;

    open spec fn view(&self) -> DigestView {
        DigestView {
            total_items: self.total_items,
            by_source: self.by_source@,
            summary: self.summary@,
            generated_at: self.generated_at,
        }
    }
}

} // verus!
