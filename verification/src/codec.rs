//! The container codec: serializing an entry sequence into a single
//! zstd-compressed tar stream, and enumerating the entries back out of one.
//!
//! The tar crate writes and reads the container format and the zstd crate
//! compresses and decompresses the byte stream; both are called through
//! trusted wrappers whose contracts name the bytes they produce.  The
//! builder loop and the composition of the two layers are verified against
//! those contracts.

use crate::entry::{
    clean_path_of, entry_model, kind_code, lemma_wf_entries_models, models, wf_entries,
    wf_entry, wf_models, Entry, EntryKind,
};
use std::io::Read;
use tar::EntryType;
use vstd::prelude::*;

verus! {

/// The fixed compression level every archive is written with.
pub const ZSTD_LEVEL: i32 = 12;

/// The in-memory tar serializer.  The builder type of the tar crate takes a
/// writer parameter with a bound Verus cannot express, so the builder is
/// held in an opaque struct and reached only through the wrappers below.
#[verifier::external_body]
pub struct TarSink {
    inner: tar::Builder<Vec<u8>>,
}

/// The models of the entries appended to a tar sink so far, in order.
pub uninterp spec fn packed(b: TarSink) -> Seq<(Seq<char>, int, Seq<u8>)>;

/// The bytes of the tar serialization of an entry-model sequence.  The
/// container format is deterministic: the bytes are a function of the
/// entries alone.
pub uninterp spec fn tar_bytes(items: Seq<(Seq<char>, int, Seq<u8>)>) -> Seq<u8>;

/// The bytes of the zstd compression of `data` at `level`.  For a fixed
/// level the compressed stream is a function of the input bytes alone.
pub uninterp spec fn zstd_bytes(level: int, data: Seq<u8>) -> Seq<u8>;

/// The full container bytes for an entry-model sequence: its tar
/// serialization, zstd-compressed at the fixed level.
pub open spec fn archive_bytes(items: Seq<(Seq<char>, int, Seq<u8>)>) -> Seq<u8> {
    zstd_bytes(ZSTD_LEVEL as int, tar_bytes(items))
}

/// Relies on tar::Builder::new: a fresh builder over an empty in-memory
/// buffer holds no entries.
#[verifier::external_body]
fn tar_builder_new() -> (b: TarSink)
    ensures
        packed(b) == Seq::<(Seq<char>, int, Seq<u8>)>::empty(),
{
    TarSink { inner: tar::Builder::new(Vec::new()) }
}

/// Relies on tar::Builder::append_data: it appends exactly one record with
/// the given path, entry type and content bytes.  A clean path is stored
/// byte for byte (long ones through the GNU long-name extension), entries
/// of the Other kind as symbolic-link records, and with an in-memory buffer
/// and a clean path every failure path of the call is excluded, so the
/// append succeeds.
#[verifier::external_body]
fn tar_builder_append(b: &mut TarSink, path: &str, kind: &EntryKind, data: &Vec<u8>) -> (ok:
    bool)
    requires
        clean_path_of(path@),
        !(kind is File) ==> data@.len() == 0,
    ensures
        ok,
        packed(*final(b)) == packed(*old(b)).push((path@, kind_code(*kind), data@)),
{
    let mut h = tar::Header::new_gnu();
    match kind {
        EntryKind::File => h.set_entry_type(tar::EntryType::Regular),
        EntryKind::Directory => h.set_entry_type(tar::EntryType::Directory),
        EntryKind::Other => h.set_entry_type(tar::EntryType::Symlink),
    }
    h.set_mode(0o644);
    h.set_size(data.len() as u64);
    b.inner.append_data(&mut h, path, data.as_slice()).is_ok()
}

/// Relies on tar::Builder::into_inner: it finishes the archive (writing the
/// terminating blocks) and hands back the buffer, whose bytes are the tar
/// serialization of the appended entries.  Writing the terminator into the
/// in-memory buffer cannot fail, so the finish succeeds.
#[verifier::external_body]
fn tar_builder_finish(b: TarSink) -> (r: Option<Vec<u8>>)
    ensures
        r is Some,
        r matches Some(v) ==> v@ == tar_bytes(packed(b)),
{
    b.inner.into_inner().ok()
}

/// The models of the records that a forward scan reads from the front of a
/// tar stream, up to its end or the first damaged record: a function of
/// the bytes alone.
pub uninterp spec fn parse_models(bytes: Seq<u8>) -> Seq<(Seq<char>, int, Seq<u8>)>;

/// Parsing inverts serialization: whenever `bytes` is the tar serialization
/// of a well-formed model sequence, the parsed entries model exactly it.
pub open spec fn parses_exactly(bytes: Seq<u8>, es: Seq<Entry>) -> bool {
    forall|s: Seq<(Seq<char>, int, Seq<u8>)>|
        wf_models(s) && bytes == #[trigger] tar_bytes(s) ==> models(es) == s
}

/// Relies on tar::Archive::entries: a forward scan yields the records of
/// the stream in order until its end or the first record it cannot read;
/// damaged records and everything behind them are dropped, never an error.
/// Over the serialization of a well-formed entry sequence no record is
/// damaged, so exactly that sequence comes back.
#[verifier::external_body]
fn tar_parse(bytes: &[u8]) -> (r: Vec<Entry>)
    ensures
        models(r@) == parse_models(bytes@),
        parses_exactly(bytes@, r@),
{
    let mut out: Vec<Entry> = Vec::new();
    let mut archive = tar::Archive::new(bytes);
    let Ok(items) = archive.entries() else { return out };
    for item in items {
        let Ok(mut ent) = item else { return out };
        let Ok(path) = ent.path().map(|c| c.to_string_lossy().into_owned()) else { return out };
        let t = ent.header().entry_type();
        let kind = if t == EntryType::Regular { EntryKind::File } else if t == EntryType::Directory { EntryKind::Directory } else { EntryKind::Other };
        let mut data = Vec::new();
        if ent.read_to_end(&mut data).is_err() { return out; }
        out.push(Entry { path, kind, data });
    }
    out
}

/// Relies on zstd::stream::encode_all: the result is the zstd frame for
/// `data` at `level`, a deterministic function of both.  At a valid level,
/// reading from memory and writing to memory, compression cannot fail.
#[verifier::external_body]
fn zstd_compress(data: &[u8], level: i32) -> (r: Option<Vec<u8>>)
    requires
        0 <= level <= 22,
    ensures
        r is Some,
        r matches Some(v) ==> v@ == zstd_bytes(level as int, data@),
{
    zstd::stream::encode_all(data, level).ok()
}

/// Relies on zstd::stream::decode_all: decompression is lossless, so a
/// stream compressed from `b` at any level decompresses back to `b`.
#[verifier::external_body]
fn zstd_decompress(data: &[u8]) -> (r: Option<Vec<u8>>)
    ensures
        r matches Some(v) ==> forall|level: int, b: Seq<u8>|
            data@ == #[trigger] zstd_bytes(level, b) ==> v@ == b,
        r is None ==> forall|level: int, b: Seq<u8>| data@ != #[trigger] zstd_bytes(level, b),
{
    zstd::stream::decode_all(data).ok()
}

/// Serializes the well-formed entries into a single compressed container.
/// The build succeeds, and the result is exactly the deterministic
/// container bytes for the entry models, so rebuilding from an unchanged
/// source yields an identical archive.
pub fn build_archive(entries: &Vec<Entry>) -> (r: Option<Vec<u8>>)
    requires
        wf_entries(entries@),
    ensures
        r is Some,
        r matches Some(bytes) ==> bytes@ == archive_bytes(models(entries@)),
{
    let mut b = tar_builder_new();
    proof {
        assert(models(entries@.take(0)) =~= Seq::<(Seq<char>, int, Seq<u8>)>::empty());
    }
    let mut i: usize = 0;
    while i < entries.len()
        invariant
            i <= entries@.len(),
            wf_entries(entries@),
            packed(b) == models(entries@.take(i as int)),
        decreases entries@.len() - i,
    {
        let e = &entries[i];
        proof {
            assert(wf_entry(entries@[i as int]));
        }
        let ok = tar_builder_append(&mut b, e.path.as_str(), &e.kind, &e.data);
        if !ok {
            return None;
        }
        proof {
            assert(models(entries@.take(i + 1)) =~= models(entries@.take(i as int)).push(
                entry_model(entries@[i as int]),
            ));
        }
        i += 1;
    }
    proof {
        assert(entries@.take(entries@.len() as int) =~= entries@);
    }
    let tar_data = match tar_builder_finish(b) {
        Some(v) => v,
        None => {
            return None;
        },
    };
    match zstd_compress(tar_data.as_slice(), ZSTD_LEVEL) {
        Some(v) => Some(v),
        None => None,
    }
}

/// Decodes a container back into its entry sequence.  Whenever the bytes
/// are the container encoding of a well-formed entry sequence, decoding
/// succeeds and returns exactly that sequence.  `None` comes only of bytes
/// that cannot be opened as a zstd stream; a valid stream whose tar payload
/// is damaged yields the entries in front of the damage, so a structurally
/// broken archive answers queries with absence, never a failure.
pub fn decode_archive(bytes: &[u8]) -> (r: Option<Vec<Entry>>)
    ensures
        forall|s: Seq<(Seq<char>, int, Seq<u8>)>|
            wf_models(s) && bytes@ == #[trigger] archive_bytes(s) ==> (r matches Some(v)
                && models(v@) == s),
{
    let inner = match zstd_decompress(bytes) {
        Some(v) => v,
        None => {
            return None;
        },
    };
    let parsed = tar_parse(inner.as_slice());
    proof {
        assert forall|s: Seq<(Seq<char>, int, Seq<u8>)>|
            wf_models(s) && bytes@ == #[trigger] archive_bytes(s) implies models(parsed@)
            == s by {
            assert(bytes@ == zstd_bytes(ZSTD_LEVEL as int, tar_bytes(s)));
            assert(inner@ == tar_bytes(s));
        }
    }
    Some(parsed)
}

/// The verified composition of building and reopening: the build succeeds,
/// decoding its bytes succeeds, and the decoded entries carry exactly the
/// models of the input — the round trip of the container.
pub fn build_then_decode(entries: &Vec<Entry>) -> (r: Option<Vec<Entry>>)
    requires
        wf_entries(entries@),
    ensures
        r is Some,
        r matches Some(v) ==> models(v@) == models(entries@),
{
    let bytes = match build_archive(entries) {
        Some(b) => b,
        None => {
            return None;
        },
    };
    proof {
        lemma_wf_entries_models(entries@);
    }
    let r = decode_archive(bytes.as_slice());
    proof {
        assert(bytes@ == archive_bytes(models(entries@)));
        assert(r matches Some(v) && models(v@) == models(entries@));
    }
    r
}

} // verus!

