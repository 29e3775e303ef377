//! The laws of the archive: round-trip fidelity, type classification,
//! exactness of child enumeration, determinism of rebuilding, and agreement
//! of independent replies.
//!
//! The codec contracts pin the container bytes of a well-formed entry
//! sequence to a function of its models, and pin decoding to the inverse of
//! that function; the laws here carry those models back to the queries.

use crate::codec::archive_bytes;
use crate::entry::{
    lemma_models_determine_entries, models, unique_paths, Entry, EntryKind,
};
use crate::paths::{
    lemma_bytes_le_antisym, lemma_bytes_le_total, lemma_bytes_le_trans,
    lemma_encode_utf8_injective,
};
use crate::query::{
    child_paths, fetch_file_spec, fetch_metadata_spec, is_child_entry, le_path,
    lemma_find_spec_first, lemma_find_spec_none, paths_sorted, views_of,
};
use crate::worker::{valid_reply, Reply, Request};
use vstd::prelude::*;
use vstd::relations::{sorted_by, total_ordering};
use vstd::seq_lib::lemma_sorted_unique;

verus! {

/// Round trip, presence: over any decoded entry sequence whose models equal
/// those of the built tree — which decoding an archive built from the tree
/// guarantees — fetching the path of any regular file of the tree returns
/// exactly its original bytes.
pub proof fn lemma_round_trip_fetch_file(es: Seq<Entry>, v: Seq<Entry>, i: int)
    requires
        models(v) == models(es),
        unique_paths(es),
        0 <= i < es.len(),
        es[i].kind is File,
    ensures
        fetch_file_spec(v, es[i].path@) == Some(es[i].data@),
{
    lemma_models_determine_entries(v, es);
    assert forall|j: int| 0 <= j < i implies (#[trigger] v[j]).path@ != es[i].path@ by {
        assert(v[j].path@ == es[j].path@);
    }
    lemma_find_spec_first(v, es[i].path@, i);
    assert(v[i].kind == es[i].kind);
}

/// Round trip, absence: a path that no entry of the archive has is not
/// found, whichever query asks for it.
pub proof fn lemma_fetch_absent(v: Seq<Entry>, p: Seq<char>)
    requires
        forall|j: int| 0 <= j < v.len() ==> (#[trigger] v[j]).path@ != p,
    ensures
        fetch_file_spec(v, p) is None,
        fetch_metadata_spec(v, p) is None,
{
    lemma_find_spec_none(v, p);
}

/// Type classification: over any decoded entry sequence whose models equal
/// those of the built tree, the metadata of every file path of the tree
/// reports a file, of every directory path a directory, and an entry of
/// any other recorded kind — a symbolic link, say — is invisible to both
/// the metadata and the file query.
pub proof fn lemma_round_trip_metadata(es: Seq<Entry>, v: Seq<Entry>, i: int)
    requires
        models(v) == models(es),
        unique_paths(es),
        0 <= i < es.len(),
    ensures
        es[i].kind is File ==> fetch_metadata_spec(v, es[i].path@) == Some(EntryKind::File),
        es[i].kind is Directory ==> fetch_metadata_spec(v, es[i].path@) == Some(
            EntryKind::Directory,
        ),
        es[i].kind is Other ==> fetch_metadata_spec(v, es[i].path@) is None,
        es[i].kind is Other ==> fetch_file_spec(v, es[i].path@) is None,
{
    lemma_models_determine_entries(v, es);
    assert forall|j: int| 0 <= j < i implies (#[trigger] v[j]).path@ != es[i].path@ by {
        assert(v[j].path@ == es[j].path@);
    }
    lemma_find_spec_first(v, es[i].path@, i);
    assert(v[i].kind == es[i].kind);
}

/// Every element of a filtered sequence is an element of the original.
proof fn lemma_filter_subset<A>(s: Seq<A>, pred: spec_fn(A) -> bool)
    ensures
        forall|k: int|
            0 <= k < s.filter(pred).len() ==> s.contains(#[trigger] s.filter(pred)[k]),
    decreases s.len(),
{
    reveal(Seq::filter);
    if s.len() > 0 {
        lemma_filter_subset(s.drop_last(), pred);
        let f = s.filter(pred);
        let g = s.drop_last().filter(pred);
        assert forall|k: int| 0 <= k < f.len() implies s.contains(#[trigger] f[k]) by {
            if pred(s.last()) && k == f.len() - 1 {
                assert(f[k] == s.last());
                assert(s[s.len() - 1] == s.last());
            } else {
                assert(f[k] == g[k]);
                assert(s.drop_last().contains(g[k]));
                let m = choose|m: int|
                    0 <= m < s.drop_last().len() && s.drop_last()[m] == g[k];
                assert(s[m] == g[k]);
            }
        }
    }
}

/// Children enumeration is exact: a path stands in the listing if and only
/// if some entry has it and its immediate parent is the listed directory —
/// so in particular no deeper descendant is listed.
pub proof fn lemma_children_exact(s: Seq<Entry>, d: Seq<char>, r: Seq<Seq<char>>)
    requires
        r.to_multiset() == child_paths(s, d).to_multiset(),
    ensures
        forall|p: Seq<char>|
            #[trigger] r.contains(p) <==> (exists|j: int|
                0 <= j < s.len() && (#[trigger] s[j]).path@ == p && is_child_entry(s[j], d)),
{
    broadcast use vstd::seq_lib::group_to_multiset_ensures;

    let pred = crate::query::child_pred(d);
    let cp = child_paths(s, d);
    s.filter_lemma(pred);
    lemma_filter_subset(s, pred);
    assert forall|p: Seq<char>|
        #[trigger] r.contains(p) implies (exists|j: int|
        0 <= j < s.len() && (#[trigger] s[j]).path@ == p && is_child_entry(s[j], d)) by {
        assert(r.to_multiset().count(p) > 0);
        assert(cp.to_multiset().count(p) > 0);
        assert(cp.contains(p));
        let k = choose|k: int| 0 <= k < cp.len() && cp[k] == p;
        let f = s.filter(pred);
        assert(cp[k] == f[k].path@);
        assert(pred(f[k]));
        assert(s.contains(f[k]));
        let j = choose|j: int| 0 <= j < s.len() && s[j] == f[k];
        assert(s[j].path@ == p && is_child_entry(s[j], d));
    }
    assert forall|p: Seq<char>|
        (exists|j: int| 0 <= j < s.len() && (#[trigger] s[j]).path@ == p && is_child_entry(
            s[j],
            d,
        )) implies #[trigger] r.contains(p) by {
        let j = choose|j: int|
            0 <= j < s.len() && (#[trigger] s[j]).path@ == p && is_child_entry(s[j], d);
        assert(pred(s[j]));
        let f = s.filter(pred);
        assert(f.contains(s[j]));
        let k = choose|k: int| 0 <= k < f.len() && f[k] == s[j];
        assert(cp[k] == p);
        assert(cp.contains(p));
        assert(cp.to_multiset().count(p) > 0);
        assert(r.to_multiset().count(p) > 0);
    }
}

/// A directory that no entry calls its parent has an empty listing — by
/// design indistinguishable from an existing directory with no children.
pub proof fn lemma_children_of_missing_empty(s: Seq<Entry>, d: Seq<char>, r: Seq<Seq<char>>)
    requires
        r.to_multiset() == child_paths(s, d).to_multiset(),
        forall|j: int| 0 <= j < s.len() ==> !is_child_entry(#[trigger] s[j], d),
    ensures
        r.len() == 0,
{
    broadcast use vstd::seq_lib::group_to_multiset_ensures;

    let pred = crate::query::child_pred(d);
    let f = s.filter(pred);
    s.filter_lemma(pred);
    lemma_filter_subset(s, pred);
    if f.len() > 0 {
        assert(pred(f[0]));
        assert(s.contains(f[0]));
        let j = choose|j: int| 0 <= j < s.len() && s[j] == f[0];
        assert(is_child_entry(s[j], d));
    }
    assert(child_paths(s, d).len() == 0);
    assert(r.to_multiset().len() == 0);
}

/// Rebuilding from an unchanged entry sequence yields the identical
/// archive: the container bytes are a function of the entry models alone,
/// so two builds of the same tree agree byte for byte, and every query
/// against the rebuilt archive answers as before.
pub proof fn lemma_rebuild_identical(es: Seq<Entry>, a: Seq<u8>, b: Seq<u8>)
    requires
        a == archive_bytes(models(es)),
        b == archive_bytes(models(es)),
    ensures
        a == b,
{
}

/// The lexicographic order on path views, as a function value.
pub open spec fn le_path_fn() -> spec_fn(Seq<char>, Seq<char>) -> bool {
    |a: Seq<char>, b: Seq<char>| le_path(a, b)
}

/// The lexicographic order on path views is a total ordering.
pub proof fn lemma_le_path_total_ordering()
    ensures
        total_ordering(le_path_fn()),
{
    let leq = le_path_fn();
    assert forall|x: Seq<char>| #[trigger] leq(x, x) by {
        lemma_bytes_le_total(vstd::utf8::encode_utf8(x), vstd::utf8::encode_utf8(x));
    }
    assert forall|x: Seq<char>, y: Seq<char>| #[trigger] leq(x, y) && #[trigger] leq(y, x)
        implies x == y by {
        lemma_bytes_le_antisym(vstd::utf8::encode_utf8(x), vstd::utf8::encode_utf8(y));
        lemma_encode_utf8_injective(x, y);
    }
    assert forall|x: Seq<char>, y: Seq<char>, z: Seq<char>|
        #[trigger] leq(x, y) && #[trigger] leq(y, z) implies leq(x, z) by {
        lemma_bytes_le_trans(
            vstd::utf8::encode_utf8(x),
            vstd::utf8::encode_utf8(y),
            vstd::utf8::encode_utf8(z),
        );
    }
    assert forall|x: Seq<char>, y: Seq<char>| #[trigger] leq(x, y) || #[trigger] leq(y, x) by {
        lemma_bytes_le_total(vstd::utf8::encode_utf8(x), vstd::utf8::encode_utf8(y));
    }
}

/// Two replies agree: same kind, and the same values up to the views of
/// the carried strings and byte vectors.
pub open spec fn replies_agree(r1: Reply, r2: Reply) -> bool {
    match (r1, r2) {
        (Reply::FileBytes(o1), Reply::FileBytes(o2)) => (match (o1, o2) {
            (Some(v1), Some(v2)) => v1@ == v2@,
            (None, None) => true,
            _ => false,
        }),
        (Reply::Metadata(m1), Reply::Metadata(m2)) => m1 == m2,
        (Reply::Children(c1), Reply::Children(c2)) => views_of(c1@) == views_of(c2@),
        _ => false,
    }
}

/// Concurrency safety at the protocol level: the reply owed to a request
/// is unique, so however many callers interleave, each gets the one answer
/// its own request and the shared entries determine — replies cannot cross
/// between requests.
pub proof fn lemma_reply_unique(s: Seq<Entry>, req: Request, r1: Reply, r2: Reply)
    requires
        valid_reply(s, req, r1),
        valid_reply(s, req, r2),
    ensures
        replies_agree(r1, r2),
{
    match req {
        Request::FetchFile(_) => {
        },
        Request::FetchMetadata(_) => {
        },
        Request::ListChildren(p) => {
            let c1 = r1->Children_0;
            let c2 = r2->Children_0;
            let leq = le_path_fn();
            lemma_le_path_total_ordering();
            assert(sorted_by(views_of(c1@), leq)) by {
                assert forall|i: int, j: int|
                    0 <= i < j < views_of(c1@).len() implies leq(
                    views_of(c1@)[i],
                    views_of(c1@)[j],
                ) by {
                    assert(le_path(c1@[i]@, c1@[j]@));
                }
            }
            assert(sorted_by(views_of(c2@), leq)) by {
                assert forall|i: int, j: int|
                    0 <= i < j < views_of(c2@).len() implies leq(
                    views_of(c2@)[i],
                    views_of(c2@)[j],
                ) by {
                    assert(le_path(c2@[i]@, c2@[j]@));
                }
            }
            lemma_sorted_unique(views_of(c1@), views_of(c2@), leq);
            assert(views_of(c1@) =~= views_of(c2@));
        },
    }
}

} // verus!
