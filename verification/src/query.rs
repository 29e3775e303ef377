//! The three query functions over a decoded entry sequence: exact-path
//! lookup of file bytes, exact-path type classification, and enumeration of
//! the immediate children of a directory.
//!
//! Every query scans the entries in stream order, as the forward-only decode
//! stream of the container dictates.

use crate::entry::{Entry, EntryKind};
use crate::paths::{
    bytes_le, lemma_bytes_le_total, lemma_bytes_le_trans, parent_matches, parent_of, str_eq,
    str_le,
};
use vstd::prelude::*;
use vstd::utf8::encode_utf8;

verus! {

/// Lexicographic order of two path strings by their UTF-8 bytes.
pub open spec fn le_path(a: Seq<char>, b: Seq<char>) -> bool {
    bytes_le(encode_utf8(a), encode_utf8(b))
}

/// The first entry of `s` whose path equals `p` exactly, in stream order.
pub open spec fn find_entry_spec(s: Seq<Entry>, p: Seq<char>) -> Option<Entry>
    decreases s.len(),
{
    if s.len() == 0 {
        None
    } else if s.first().path@ == p {
        Some(s.first())
    } else {
        find_entry_spec(s.drop_first(), p)
    }
}

/// What fetching the file at `p` returns: the bytes of the first entry whose
/// path equals `p`, provided that entry is a regular file.
pub open spec fn fetch_file_spec(s: Seq<Entry>, p: Seq<char>) -> Option<Seq<u8>> {
    match find_entry_spec(s, p) {
        Some(e) => if e.kind is File {
            Some(e.data@)
        } else {
            None
        },
        None => None,
    }
}

/// What fetching the metadata at `p` returns: the classification of the
/// first entry whose path equals `p`; entries of any other kind are treated
/// as absent.
pub open spec fn fetch_metadata_spec(s: Seq<Entry>, p: Seq<char>) -> Option<EntryKind> {
    match find_entry_spec(s, p) {
        Some(e) => match e.kind {
            EntryKind::File => Some(EntryKind::File),
            EntryKind::Directory => Some(EntryKind::Directory),
            EntryKind::Other => None,
        },
        None => None,
    }
}

/// Whether the immediate parent path of entry `e` is `d`.
pub open spec fn is_child_entry(e: Entry, d: Seq<char>) -> bool {
    parent_of(encode_utf8(e.path@)) == encode_utf8(d)
}

/// The child predicate for parent `d`, as a function value.
pub open spec fn child_pred(d: Seq<char>) -> spec_fn(Entry) -> bool {
    |e: Entry| is_child_entry(e, d)
}

/// The path of an entry, as a function value.
pub open spec fn path_of() -> spec_fn(Entry) -> Seq<char> {
    |e: Entry| e.path@
}

/// The paths of all entries whose immediate parent is `d`, in stream order.
pub open spec fn child_paths(s: Seq<Entry>, d: Seq<char>) -> Seq<Seq<char>> {
    s.filter(child_pred(d)).map_values(path_of())
}

/// The views of a sequence of strings.
pub open spec fn views_of(s: Seq<String>) -> Seq<Seq<char>> {
    s.map_values(|x: String| x@)
}

/// The strings of `s` are in lexicographic order of their UTF-8 bytes.
pub open spec fn paths_sorted(s: Seq<String>) -> bool {
    forall|i: int, j: int|
        0 <= i < j < s.len() ==> le_path(#[trigger] s[i]@, #[trigger] s[j]@)
}

/// When `s[i]` is the first entry with path `p`, the scan finds it.
pub proof fn lemma_find_spec_first(s: Seq<Entry>, p: Seq<char>, i: int)
    requires
        0 <= i < s.len(),
        s[i].path@ == p,
        forall|j: int| 0 <= j < i ==> (#[trigger] s[j]).path@ != p,
    ensures
        find_entry_spec(s, p) == Some(s[i]),
    decreases i,
{
    if i > 0 {
        lemma_find_spec_first(s.drop_first(), p, i - 1);
    }
}

/// When no entry has path `p`, the scan finds nothing.
pub proof fn lemma_find_spec_none(s: Seq<Entry>, p: Seq<char>)
    requires
        forall|j: int| 0 <= j < s.len() ==> (#[trigger] s[j]).path@ != p,
    ensures
        find_entry_spec(s, p) is None,
    decreases s.len(),
{
    if s.len() > 0 {
        lemma_find_spec_none(s.drop_first(), p);
    }
}

/// The index of the first entry of `entries` whose path equals `path`
/// exactly, scanning in stream order; `None` when the scan exhausts the
/// stream without a match.
pub fn find_entry(entries: &Vec<Entry>, path: &str) -> (r: Option<usize>)
    ensures
        match r {
            Some(i) => {
                &&& i < entries@.len()
                &&& entries@[i as int].path@ == path@
                &&& forall|j: int| 0 <= j < i ==> (#[trigger] entries@[j]).path@ != path@
                &&& find_entry_spec(entries@, path@) == Some(entries@[i as int])
            },
            None => {
                &&& forall|j: int|
                    0 <= j < entries@.len() ==> (#[trigger] entries@[j]).path@ != path@
                &&& find_entry_spec(entries@, path@) is None
            },
        },
{
    let mut i: usize = 0;
    while i < entries.len()
        invariant
            i <= entries@.len(),
            forall|j: int| 0 <= j < i ==> (#[trigger] entries@[j]).path@ != path@,
        decreases entries@.len() - i,
    {
        if str_eq(entries[i].path.as_str(), path) {
            proof {
                lemma_find_spec_first(entries@, path@, i as int);
            }
            return Some(i);
        }
        i += 1;
    }
    proof {
        lemma_find_spec_none(entries@, path@);
    }
    None
}

/// A copy of a byte vector.
fn copy_bytes(src: &Vec<u8>) -> (r: Vec<u8>)
    ensures
        r@ == src@,
{
    let mut out: Vec<u8> = Vec::new();
    let mut i: usize = 0;
    while i < src.len()
        invariant
            i <= src@.len(),
            out@ == src@.take(i as int),
        decreases src@.len() - i,
    {
        out.push(src[i]);
        proof {
            assert(out@ =~= src@.take(i + 1));
        }
        i += 1;
    }
    proof {
        assert(src@.take(src@.len() as int) =~= src@);
    }
    out
}

/// The content bytes of the regular file at `path`: the bytes of the first
/// entry whose path equals `path` exactly, or `None` when no entry matches
/// or the matching entry is not a regular file.
pub fn fetch_file(entries: &Vec<Entry>, path: &str) -> (r: Option<Vec<u8>>)
    ensures
        fetch_file_spec(entries@, path@) matches Some(d) ==> (r matches Some(v) && v@ == d),
        fetch_file_spec(entries@, path@) is None ==> r is None,
{
    match find_entry(entries, path) {
        Some(i) => {
            let e = &entries[i];
            match e.kind {
                EntryKind::File => Some(copy_bytes(&e.data)),
                _ => None,
            }
        },
        None => None,
    }
}

/// The type classification of the entry at `path`: `File` or `Directory`
/// for the first entry whose path equals `path` exactly, or `None` when no
/// entry matches or the matching entry is of another kind.
pub fn fetch_metadata(entries: &Vec<Entry>, path: &str) -> (r: Option<EntryKind>)
    ensures
        r == fetch_metadata_spec(entries@, path@),
{
    match find_entry(entries, path) {
        Some(i) => match entries[i].kind {
            EntryKind::File => Some(EntryKind::File),
            EntryKind::Directory => Some(EntryKind::Directory),
            EntryKind::Other => None,
        },
        None => None,
    }
}

/// Inserts `x` into a sorted vector of paths, keeping it sorted and adding
/// exactly one occurrence of `x`.
fn insert_sorted(out: &mut Vec<String>, x: String)
    requires
        paths_sorted(old(out)@),
    ensures
        paths_sorted(final(out)@),
        views_of(final(out)@).to_multiset() == views_of(old(out)@).to_multiset().insert(x@),
{
    let ghost s0 = out@;
    let mut idx: usize = 0;
    loop
        invariant
            idx <= out@.len(),
            out@ == s0,
            paths_sorted(s0),
            forall|j: int| 0 <= j < idx ==> le_path((#[trigger] s0[j])@, x@),
        ensures
            idx <= out@.len(),
            out@ == s0,
            forall|j: int| 0 <= j < idx ==> le_path((#[trigger] s0[j])@, x@),
            idx == out@.len() || le_path(x@, s0[idx as int]@),
        decreases out@.len() - idx,
    {
        if idx >= out.len() {
            break;
        }
        if !str_le(out[idx].as_str(), x.as_str()) {
            proof {
                lemma_bytes_le_total(encode_utf8(s0[idx as int]@), encode_utf8(x@));
            }
            break;
        }
        idx += 1;
    }
    out.insert(idx, x);
    proof {
        let s1 = out@;
        assert(s1 == s0.insert(idx as int, x));
        assert forall|i: int, j: int|
            0 <= i < j < s1.len() implies le_path((#[trigger] s1[i])@, (#[trigger] s1[j])@) by {
            let n: int = idx as int;
            if j < n {
                assert(s1[i] == s0[i]);
                assert(s1[j] == s0[j]);
            } else if i > n {
                assert(s1[i] == s0[i - 1]);
                assert(s1[j] == s0[j - 1]);
            } else if i < n && j == n {
                assert(s1[i] == s0[i]);
                assert(s1[j] == x);
            } else if i == n && j > n {
                assert(s1[i] == x);
                assert(s1[j] == s0[j - 1]);
                assert(le_path(x@, s0[n]@));
                if j - 1 > n {
                    assert(le_path(s0[n]@, s0[j - 1]@));
                    lemma_bytes_le_trans(
                        encode_utf8(x@),
                        encode_utf8(s0[n]@),
                        encode_utf8(s0[j - 1]@),
                    );
                }
            } else if i < n && j > n {
                assert(s1[i] == s0[i]);
                assert(s1[j] == s0[j - 1]);
                if i < j - 1 {
                    assert(le_path(s0[i]@, s0[j - 1]@));
                } else {
                    assert(le_path(s0[i]@, x@));
                    assert(le_path(x@, s0[n]@));
                    lemma_bytes_le_trans(
                        encode_utf8(s0[i]@),
                        encode_utf8(x@),
                        encode_utf8(s0[n]@),
                    );
                }
            }
        }
        assert(views_of(s1) =~= views_of(s0).insert(idx as int, x@));
        assert(views_of(s1).to_multiset() == views_of(s0).to_multiset().insert(x@)) by {
            broadcast use vstd::seq_lib::group_to_multiset_ensures;

            assert(views_of(s0).insert(idx as int, x@).to_multiset() == views_of(
                s0,
            ).to_multiset().insert(x@));
        }
    }
}

/// The paths of all entries whose immediate parent path is `dir`, sorted
/// lexicographically by their UTF-8 bytes.  The result is empty — not
/// absent — when no entry qualifies, so a childless directory and a missing
/// one are reported alike.
pub fn list_children(entries: &Vec<Entry>, dir: &str) -> (r: Vec<String>)
    ensures
        paths_sorted(r@),
        views_of(r@).to_multiset() == child_paths(entries@, dir@).to_multiset(),
{
    let mut out: Vec<String> = Vec::new();
    let mut i: usize = 0;
    proof {
        let pred = child_pred(dir@);
        reveal(Seq::filter);
        assert(entries@.take(0) =~= Seq::<Entry>::empty());
        assert(Seq::<Entry>::empty().filter(pred) =~= Seq::<Entry>::empty());
        assert(child_paths(entries@.take(0), dir@) =~= Seq::<Seq<char>>::empty());
        assert(views_of(out@) =~= Seq::<Seq<char>>::empty());
    }
    while i < entries.len()
        invariant
            i <= entries@.len(),
            paths_sorted(out@),
            views_of(out@).to_multiset() == child_paths(entries@.take(i as int), dir@)
                .to_multiset(),
        decreases entries@.len() - i,
    {
        let ghost prefix = entries@.take(i as int);
        let ghost e = entries@[i as int];
        let ghost pred = child_pred(dir@);
        proof {
            broadcast use vstd::seq_lib::group_to_multiset_ensures;

            reveal(Seq::filter);
            assert(entries@.take(i + 1) =~= prefix.push(e));
            assert(prefix.push(e).drop_last() =~= prefix);
            let filtered = prefix.push(e).filter(pred);
            if pred(e) {
                assert(filtered == prefix.filter(pred).push(e));
                assert(child_paths(prefix.push(e), dir@) =~= child_paths(prefix, dir@).push(
                    e.path@,
                ));
            } else {
                assert(filtered == prefix.filter(pred));
                assert(child_paths(prefix.push(e), dir@) =~= child_paths(prefix, dir@));
            }
        }
        let ent = &entries[i];
        if parent_matches(ent.path.as_str(), dir) {
            let p = ent.path.clone();
            insert_sorted(&mut out, p);
        }
        i += 1;
    }
    proof {
        assert(entries@.take(entries@.len() as int) =~= entries@);
    }
    out
}

} // verus!
