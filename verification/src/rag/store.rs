//! The records of the index store and the rules by which their status moves.
use vstd::prelude::*;

use crate::text::str_eq;

verus! {

/// The indexing status of a file.
#[derive(Debug, Clone, Copy, PartialEq, Eq)]
pub enum IndexStatus {
    Pending,
    Indexing,
    Paused,
    Done,
    Error,
    Canceled,
}

/// The stored name of a status.
pub open spec fn status_name(s: IndexStatus) -> Seq<char> {
    match s {
        IndexStatus::Pending => "pending"@,
        IndexStatus::Indexing => "indexing"@,
        IndexStatus::Paused => "paused"@,
        IndexStatus::Done => "done"@,
        IndexStatus::Error => "error"@,
        IndexStatus::Canceled => "canceled"@,
    }
}

impl IndexStatus {
    /// The stored name of this status.
    pub fn as_str(&self) -> (s: &'static str)
        ensures
            s@ == status_name(*self),
    {
        match self {
            IndexStatus::Pending => "pending",
            IndexStatus::Indexing => "indexing",
            IndexStatus::Paused => "paused",
            IndexStatus::Done => "done",
            IndexStatus::Error => "error",
            IndexStatus::Canceled => "canceled",
        }
    }
}

/// A file of a library as the store records it.
#[derive(Debug, Clone)]
pub struct FileRecord {
    pub id: i64,
    pub library_id: String,
    pub path: String,
    pub file_name: String,
    pub content_hash: String,
    pub status: String,
    pub level: i64,
    pub chunks: i64,
    pub error: Option<String>,
}

/// Which columns a status update writes besides the status and the error.
#[derive(Debug, Clone, Copy, PartialEq, Eq)]
pub enum StatusUpdate {
    /// The start time (status `indexing`).
    Started,
    /// The level, the chunk count (where given) and the finish time
    /// (statuses `done`, `error` and `canceled`).
    Finished,
    /// Nothing more.
    Plain,
}

/// Which columns an update to `status` writes.
pub open spec fn spec_status_update(status: Seq<char>) -> StatusUpdate {
    if status == "indexing"@ {
        StatusUpdate::Started
    } else if status == "done"@ || status == "error"@ || status == "canceled"@ {
        StatusUpdate::Finished
    } else {
        StatusUpdate::Plain
    }
}

/// Which columns an update to `status` writes.
pub fn status_update_kind(status: &str) -> (k: StatusUpdate)
    ensures
        k == spec_status_update(status@),
{
    if str_eq(status, "indexing") {
        StatusUpdate::Started
    } else if str_eq(status, "done") || str_eq(status, "error") || str_eq(status, "canceled") {
        StatusUpdate::Finished
    } else {
        StatusUpdate::Plain
    }
}

/// A file with this status is indexed again by the scheduler.
pub open spec fn is_retry_status(status: Seq<char>) -> bool {
    status == "pending"@ || status == "error"@
}

/// A copy of a record.
fn copy_record(f: &FileRecord) -> (r: FileRecord)
    ensures
        r == *f,
{
    FileRecord {
        id: f.id,
        library_id: f.library_id.clone(),
        path: f.path.clone(),
        file_name: f.file_name.clone(),
        content_hash: f.content_hash.clone(),
        status: f.status.clone(),
        level: f.level,
        chunks: f.chunks,
        error: match &f.error {
            Some(e) => Some(e.clone()),
            None => None,
        },
    }
}

/// The files the scheduler indexes again: those pending or in error, in
/// their order.
pub fn pending_files(files: &Vec<FileRecord>) -> (r: Vec<FileRecord>)
    ensures
        r@ == files@.filter(|f: FileRecord| is_retry_status(f.status@)),
{
    let ghost p = |f: FileRecord| is_retry_status(f.status@);
    let mut out: Vec<FileRecord> = Vec::new();
    let mut i: usize = 0;
    assert(files@.take(0).filter(p) =~= Seq::<FileRecord>::empty());
    while i < files.len()
        invariant
            i <= files.len(),
            out@ == files@.take(i as int).filter(p),
            p == (|f: FileRecord| is_retry_status(f.status@)),
        decreases files.len() - i,
    {
        assert(files@.take(i + 1) =~= files@.take(i as int).push(files@[i as int]));
        proof {
            files@.take(i as int).lemma_filter_push(files@[i as int], p);
        }
        let f = &files[i];
        if str_eq(f.status.as_str(), "pending") || str_eq(f.status.as_str(), "error") {
            out.push(copy_record(f));
        }
        i = i + 1;
    }
    assert(files@.take(files.len() as int) =~= files@);
    out
}

} // verus!
