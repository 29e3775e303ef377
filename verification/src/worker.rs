//! The request protocol of the query worker.
//!
//! Arbitrarily many callers enqueue typed requests, each answered through a
//! private one-shot reply; a single dedicated worker services them strictly
//! in order, opening a fresh decode stream per request.  The channel, the
//! thread and the file handling live with the embedder; the dispatch from a
//! request to its reply — the one decision the worker takes — is verified
//! here, so every reply is a function of the decoded entries and the
//! request alone, whatever order concurrent callers enqueue in.

use crate::entry::{Entry, EntryKind};
use crate::query::{
    child_paths, fetch_file, fetch_file_spec, fetch_metadata, fetch_metadata_spec,
    list_children, paths_sorted, views_of,
};
use vstd::prelude::*;

verus! {

/// One query against the archive: the path it asks about, by kind of query.
#[derive(Debug)]
pub enum Request {
    FetchFile(String),
    FetchMetadata(String),
    ListChildren(String),
}

/// The reply to one request.  An absent inner value encodes "not found";
/// the child listing is empty — never absent — when nothing qualifies.
#[derive(Debug)]
pub enum Reply {
    FileBytes(Option<Vec<u8>>),
    Metadata(Option<EntryKind>),
    Children(Vec<String>),
}

/// The reply that the entries owe the request: file bytes for a fetch,
/// the classification for a metadata query, and the sorted child paths for
/// a listing.  Together with the sortedness of the listing this pins the
/// reply down to one value per request and entry sequence.
pub open spec fn valid_reply(s: Seq<Entry>, req: Request, r: Reply) -> bool {
    match req {
        Request::FetchFile(p) => match r {
            Reply::FileBytes(o) => (match fetch_file_spec(s, p@) {
                Some(d) => o matches Some(v) && v@ == d,
                None => o is None,
            }),
            _ => false,
        },
        Request::FetchMetadata(p) => match r {
            Reply::Metadata(o) => o == fetch_metadata_spec(s, p@),
            _ => false,
        },
        Request::ListChildren(p) => match r {
            Reply::Children(c) => paths_sorted(c@) && views_of(c@).to_multiset() == child_paths(
                s,
                p@,
            ).to_multiset(),
            _ => false,
        },
    }
}

/// Services one request against the decoded entries: the single step of the
/// worker loop.  The reply depends on the entries and the request alone, so
/// concurrent callers can never affect each other's answers.
pub fn handle_request(entries: &Vec<Entry>, req: &Request) -> (r: Reply)
    ensures
        valid_reply(entries@, *req, r),
{
    match req {
        Request::FetchFile(p) => Reply::FileBytes(fetch_file(entries, p.as_str())),
        Request::FetchMetadata(p) => Reply::Metadata(fetch_metadata(entries, p.as_str())),
        Request::ListChildren(p) => Reply::Children(list_children(entries, p.as_str())),
    }
}

/// Whether a metadata reply reports a regular file; absent metadata counts
/// as not a file rather than an error.
pub fn metadata_is_file(m: &Option<EntryKind>) -> (r: bool)
    ensures
        r == (m matches Some(k) && k is File),
{
    match m {
        Some(k) => k.is_file(),
        None => false,
    }
}

/// Whether a metadata reply reports a directory; absent metadata counts as
/// not a directory rather than an error.
pub fn metadata_is_dir(m: &Option<EntryKind>) -> (r: bool)
    ensures
        r == (m matches Some(k) && k is Directory),
{
    match m {
        Some(k) => k.is_dir(),
        None => false,
    }
}

} // verus!
