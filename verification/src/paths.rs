//! Archive path strings: byte-level equality, lexicographic ordering and the
//! parent-directory relation.
//!
//! Lookups compare paths exactly, with no normalization, so all reasoning is
//! done over the UTF-8 byte representation of the path strings.

use vstd::prelude::*;
use vstd::utf8::encode_utf8;
use vstd::utf8::encode_utf8_decode_utf8;

verus! {

/// The byte value of `/`, the path component separator.
pub const SEPARATOR: u8 = 47;

/// The byte value of `.`, the path of the archive root.
pub const ROOT_DOT: u8 = 46;

/// Lexicographic order on byte strings: `a` sorts no later than `b`.
pub open spec fn bytes_le(a: Seq<u8>, b: Seq<u8>) -> bool
    decreases a.len(),
{
    if a.len() == 0 {
        true
    } else if b.len() == 0 {
        false
    } else if a[0] != b[0] {
        a[0] < b[0]
    } else {
        bytes_le(a.drop_first(), b.drop_first())
    }
}

/// The scan for a parent path: everything before the last separator, or
/// `.` when `p` has no separator, so that top-level entries are children of
/// the root.
pub open spec fn parent_scan(p: Seq<u8>) -> Seq<u8>
    decreases p.len(),
{
    if p.len() == 0 {
        seq![ROOT_DOT]
    } else if p[p.len() - 1] == SEPARATOR {
        p.drop_last()
    } else {
        parent_scan(p.drop_last())
    }
}

/// The parent path of `p`.  The root entry `.` is nobody's child — its
/// parent is the empty string — while every other separator-free path has
/// the root `.` as its parent.
pub open spec fn parent_of(p: Seq<u8>) -> Seq<u8> {
    if p == seq![ROOT_DOT] {
        Seq::empty()
    } else {
        parent_scan(p)
    }
}

/// `bytes_le` is total: of any two byte strings, one sorts no later than the
/// other.
pub proof fn lemma_bytes_le_total(a: Seq<u8>, b: Seq<u8>)
    ensures
        bytes_le(a, b) || bytes_le(b, a),
    decreases a.len(),
{
    if a.len() > 0 && b.len() > 0 && a[0] == b[0] {
        lemma_bytes_le_total(a.drop_first(), b.drop_first());
    }
}

/// `bytes_le` is transitive.
pub proof fn lemma_bytes_le_trans(a: Seq<u8>, b: Seq<u8>, c: Seq<u8>)
    requires
        bytes_le(a, b),
        bytes_le(b, c),
    ensures
        bytes_le(a, c),
    decreases a.len(),
{
    if a.len() > 0 && b.len() > 0 && c.len() > 0 && a[0] == b[0] && b[0] == c[0] {
        lemma_bytes_le_trans(a.drop_first(), b.drop_first(), c.drop_first());
    }
}

/// `bytes_le` is antisymmetric: mutual order means equality.
pub proof fn lemma_bytes_le_antisym(a: Seq<u8>, b: Seq<u8>)
    requires
        bytes_le(a, b),
        bytes_le(b, a),
    ensures
        a == b,
    decreases a.len(),
{
    if a.len() > 0 && b.len() > 0 && a[0] == b[0] {
        lemma_bytes_le_antisym(a.drop_first(), b.drop_first());
        assert forall|i: int| 0 <= i < a.len() implies a[i] == b[i] by {
            if i > 0 {
                assert(a[i] == a.drop_first()[i - 1]);
                assert(b[i] == b.drop_first()[i - 1]);
            }
        }
        assert(a =~= b);
    } else {
        assert(a =~= b);
    }
}

/// Dropping an equal prefix of both strings does not change their order.
pub proof fn lemma_bytes_le_skip(a: Seq<u8>, b: Seq<u8>, i: int)
    requires
        0 <= i <= a.len(),
        i <= b.len(),
        forall|j: int| 0 <= j < i ==> a[j] == b[j],
    ensures
        bytes_le(a, b) == bytes_le(a.skip(i), b.skip(i)),
    decreases i,
{
    if i > 0 {
        assert(a[0] == b[0]);
        lemma_bytes_le_skip(a.drop_first(), b.drop_first(), i - 1);
        assert(a.drop_first().skip(i - 1) =~= a.skip(i));
        assert(b.drop_first().skip(i - 1) =~= b.skip(i));
        assert(a.skip(0) =~= a);
        assert(b.skip(0) =~= b);
    } else {
        assert(a.skip(0) =~= a);
        assert(b.skip(0) =~= b);
    }
}

/// UTF-8 encoding is injective: equal byte encodings mean equal strings.
pub proof fn lemma_encode_utf8_injective(a: Seq<char>, b: Seq<char>)
    requires
        encode_utf8(a) == encode_utf8(b),
    ensures
        a == b,
{
    encode_utf8_decode_utf8(a);
    encode_utf8_decode_utf8(b);
}

/// A path without separators scans to the root `.` as its parent.
pub proof fn lemma_parent_scan_no_separator(p: Seq<u8>)
    requires
        forall|j: int| 0 <= j < p.len() ==> p[j] != SEPARATOR,
    ensures
        parent_scan(p) == seq![ROOT_DOT],
    decreases p.len(),
{
    if p.len() > 0 {
        lemma_parent_scan_no_separator(p.drop_last());
    }
}

/// When the last separator of `p` stands at index `i`, the parent scan
/// gives the prefix before that separator.
pub proof fn lemma_parent_scan_last_separator(p: Seq<u8>, i: int)
    requires
        0 <= i < p.len(),
        p[i] == SEPARATOR,
        forall|j: int| i < j < p.len() ==> p[j] != SEPARATOR,
    ensures
        parent_scan(p) == p.take(i),
    decreases p.len(),
{
    if i == p.len() - 1 {
        assert(p.drop_last() =~= p.take(i));
    } else {
        lemma_parent_scan_last_separator(p.drop_last(), i);
        assert(p.drop_last().take(i) =~= p.take(i));
    }
}

/// Exact byte-string equality.
pub fn bytes_eq(a: &[u8], b: &[u8]) -> (r: bool)
    ensures
        r == (a@ == b@),
{
    if a.len() != b.len() {
        return false;
    }
    let mut i: usize = 0;
    while i < a.len()
        invariant
            a@.len() == b@.len(),
            i <= a@.len(),
            forall|j: int| 0 <= j < i ==> a@[j] == b@[j],
        decreases a@.len() - i,
    {
        if a[i] != b[i] {
            return false;
        }
        i += 1;
    }
    proof {
        assert(a@ =~= b@);
    }
    true
}

/// Exact string equality, the comparison every lookup uses.
pub fn str_eq(a: &str, b: &str) -> (r: bool)
    ensures
        r == (a@ == b@),
{
    let r = bytes_eq(a.as_bytes(), b.as_bytes());
    proof {
        if r {
            lemma_encode_utf8_injective(a@, b@);
        }
    }
    r
}

/// Lexicographic comparison of two strings by their UTF-8 bytes.
pub fn str_le(a: &str, b: &str) -> (r: bool)
    ensures
        r == bytes_le(encode_utf8(a@), encode_utf8(b@)),
{
    let ab = a.as_bytes();
    let bb = b.as_bytes();
    let mut i: usize = 0;
    loop
        invariant
            i <= ab@.len(),
            i <= bb@.len(),
            ab@ == encode_utf8(a@),
            bb@ == encode_utf8(b@),
            forall|j: int| 0 <= j < i ==> ab@[j] == bb@[j],
        decreases ab@.len() - i,
    {
        proof {
            lemma_bytes_le_skip(ab@, bb@, i as int);
            lemma_bytes_le_skip(bb@, ab@, i as int);
        }
        if i >= ab.len() {
            return true;
        }
        if i >= bb.len() {
            return false;
        }
        let x = ab[i];
        let y = bb[i];
        if x != y {
            proof {
                assert(ab@.skip(i as int)[0] == x);
                assert(bb@.skip(i as int)[0] == y);
            }
            return x < y;
        }
        i += 1;
    }
}

/// Whether the parent path of `path` is exactly `dir`.
pub fn parent_matches(path: &str, dir: &str) -> (r: bool)
    ensures
        r == (parent_of(encode_utf8(path@)) == encode_utf8(dir@)),
{
    let pb = path.as_bytes();
    let db = dir.as_bytes();
    if pb.len() == 1 && pb[0] == ROOT_DOT {
        proof {
            assert(pb@ =~= seq![ROOT_DOT]);
        }
        let r = db.len() == 0;
        proof {
            if r {
                assert(db@ =~= Seq::<u8>::empty());
            } else {
                assert(db@ != Seq::<u8>::empty());
            }
        }
        return r;
    }
    proof {
        assert(pb@ != seq![ROOT_DOT]);
    }
    let mut k: usize = pb.len();
    while k > 0 && pb[k - 1] != SEPARATOR
        invariant
            k <= pb@.len(),
            forall|j: int| k <= j < pb@.len() ==> pb@[j] != SEPARATOR,
        decreases k,
    {
        k -= 1;
    }
    if k == 0 {
        proof {
            lemma_parent_scan_no_separator(pb@);
        }
        let r = db.len() == 1 && db[0] == ROOT_DOT;
        proof {
            if r {
                assert(db@ =~= seq![ROOT_DOT]);
            } else {
                assert(db@ != seq![ROOT_DOT]);
            }
        }
        r
    } else {
        proof {
            lemma_parent_scan_last_separator(pb@, k - 1);
        }
        let prefix = &pb[0..k - 1];
        let r = bytes_eq(prefix, db);
        proof {
            assert(prefix@ =~= pb@.take(k - 1));
        }
        r
    }
}

} // verus!
