//! Entries of the archive: one named, typed record per file or directory of
//! the bundled source tree.

use crate::paths::{ROOT_DOT, SEPARATOR};
use vstd::prelude::*;
use vstd::utf8::encode_utf8;

verus! {

/// The type classification of one archive entry.  `Other` stands for every
/// container record that is neither a regular file nor a directory (such as
/// a symbolic link); the file and metadata queries treat such entries as
/// absent, though child listings still name them.
#[derive(Clone, Copy, Debug, PartialEq, Eq, Structural)]
pub enum EntryKind {
    File,
    Directory,
    Other,
}

/// One logical record of the archive: a slash-separated relative path, a
/// type classification, and the content bytes (empty for directories).
#[derive(Debug)]
pub struct Entry {
    pub path: String,
    pub kind: EntryKind,
    pub data: Vec<u8>,
}

impl EntryKind {
    /// Whether this classification is a regular file.
    pub fn is_file(&self) -> (r: bool)
        ensures
            r == (self is File),
    {
        match self {
            EntryKind::File => true,
            _ => false,
        }
    }

    /// Whether this classification is a directory.
    pub fn is_dir(&self) -> (r: bool)
        ensures
            r == (self is Directory),
    {
        match self {
            EntryKind::Directory => true,
            _ => false,
        }
    }
}

/// An integer code for each entry kind; the codes are pairwise distinct, so
/// the model of an entry determines its kind.
pub open spec fn kind_code(k: EntryKind) -> int {
    match k {
        EntryKind::File => 0,
        EntryKind::Directory => 1,
        EntryKind::Other => 2,
    }
}

/// The mathematical model of one entry: its path, kind code and data.
pub open spec fn entry_model(e: Entry) -> (Seq<char>, int, Seq<u8>) {
    (e.path@, kind_code(e.kind), e.data@)
}

/// The model of a whole entry sequence.
pub open spec fn models(s: Seq<Entry>) -> Seq<(Seq<char>, int, Seq<u8>)> {
    s.map_values(|e: Entry| entry_model(e))
}

/// A double separator at byte index `i` of `b`.
pub open spec fn double_separator_at(b: Seq<u8>, i: int) -> bool {
    &&& 0 <= i
    &&& i + 1 < b.len()
    &&& b[i] == SEPARATOR
    &&& b[i + 1] == SEPARATOR
}

/// A `.` path component starting at byte index `i` of `b`.
pub open spec fn dot_component_at(b: Seq<u8>, i: int) -> bool {
    &&& 0 <= i < b.len()
    &&& b[i] == ROOT_DOT
    &&& (i == 0 || b[i - 1] == SEPARATOR)
    &&& (i + 1 == b.len() || b[i + 1] == SEPARATOR)
}

/// A `..` path component starting at byte index `i` of `b`.
pub open spec fn dot_dot_component_at(b: Seq<u8>, i: int) -> bool {
    &&& 0 <= i
    &&& i + 1 < b.len()
    &&& b[i] == ROOT_DOT
    &&& b[i + 1] == ROOT_DOT
    &&& (i == 0 || b[i - 1] == SEPARATOR)
    &&& (i + 2 == b.len() || b[i + 2] == SEPARATOR)
}

/// A clean multi-component relative path: nonempty, relative, without a
/// trailing separator, without empty, `.` or `..` components, and without
/// NUL bytes.
pub open spec fn clean_component_path(b: Seq<u8>) -> bool {
    &&& b.len() > 0
    &&& b[0] != SEPARATOR
    &&& b[b.len() - 1] != SEPARATOR
    &&& forall|i: int| 0 <= i < b.len() ==> #[trigger] b[i] != 0
    &&& forall|i: int| !double_separator_at(b, i)
    &&& forall|i: int| !dot_component_at(b, i)
    &&& forall|i: int| !dot_dot_component_at(b, i)
}

/// A path the container stores byte for byte: the root path `.` — the one
/// place a lone `.` survives the container's path copy — or a clean
/// multi-component relative path.
pub open spec fn clean_path(b: Seq<u8>) -> bool {
    b == seq![ROOT_DOT] || clean_component_path(b)
}

/// A clean path, stated over the character string.
pub open spec fn clean_path_of(p: Seq<char>) -> bool {
    clean_path(encode_utf8(p))
}

/// A well-formed entry, as the archive builder records it: a clean path,
/// and content bytes only on a regular file — directories and other kinds
/// (symbolic links among them) carry none.
pub open spec fn wf_entry(e: Entry) -> bool {
    &&& clean_path(encode_utf8(e.path@))
    &&& (!(e.kind is File) ==> e.data@.len() == 0)
}

/// All entries of the sequence are well-formed.
pub open spec fn wf_entries(s: Seq<Entry>) -> bool {
    forall|i: int| 0 <= i < s.len() ==> wf_entry(#[trigger] s[i])
}

/// No two entries share a path, as holds of every archive built from a
/// directory tree.
pub open spec fn unique_paths(s: Seq<Entry>) -> bool {
    forall|i: int, j: int| 0 <= i < j < s.len() ==> #[trigger] s[i].path@ != #[trigger] s[j].path@
}

/// A well-formed entry model, mirroring `wf_entry` on the model tuples.
pub open spec fn wf_model(m: (Seq<char>, int, Seq<u8>)) -> bool {
    &&& clean_path(encode_utf8(m.0))
    &&& (m.1 == 0 || m.1 == 1 || m.1 == 2)
    &&& (m.1 != 0 ==> m.2.len() == 0)
}

/// All models of the sequence are well-formed.
pub open spec fn wf_models(s: Seq<(Seq<char>, int, Seq<u8>)>) -> bool {
    forall|i: int| 0 <= i < s.len() ==> wf_model(#[trigger] s[i])
}

/// Well-formed entries have well-formed models.
pub proof fn lemma_wf_entries_models(s: Seq<Entry>)
    requires
        wf_entries(s),
    ensures
        wf_models(models(s)),
{
    assert forall|i: int| 0 <= i < models(s).len() implies wf_model(#[trigger] models(s)[i]) by {
        assert(wf_entry(s[i]));
    }
}

/// Equal models are equal entry sequences, field by field: the model keeps
/// the path, kind and data of every entry.
pub proof fn lemma_models_determine_entries(a: Seq<Entry>, b: Seq<Entry>)
    requires
        models(a) == models(b),
    ensures
        a.len() == b.len(),
        forall|i: int| 0 <= i < a.len() ==> #[trigger] a[i].path@ == b[i].path@,
        forall|i: int| 0 <= i < a.len() ==> #[trigger] a[i].kind == b[i].kind,
        forall|i: int| 0 <= i < a.len() ==> #[trigger] a[i].data@ == b[i].data@,
{
    assert(models(a).len() == a.len());
    assert(models(b).len() == b.len());
    assert forall|i: int| 0 <= i < a.len() implies #[trigger] a[i].path@ == b[i].path@ by {
        assert(models(a)[i] == entry_model(a[i]));
        assert(models(b)[i] == entry_model(b[i]));
    }
    assert forall|i: int| 0 <= i < a.len() implies #[trigger] a[i].kind == b[i].kind by {
        assert(models(a)[i] == entry_model(a[i]));
        assert(models(b)[i] == entry_model(b[i]));
        assert(kind_code(a[i].kind) == kind_code(b[i].kind));
    }
    assert forall|i: int| 0 <= i < a.len() implies #[trigger] a[i].data@ == b[i].data@ by {
        assert(models(a)[i] == entry_model(a[i]));
        assert(models(b)[i] == entry_model(b[i]));
    }
}

/// Whether `p` is a clean path that the archive builder accepts.
pub fn is_clean_path(p: &str) -> (r: bool)
    ensures
        r == clean_path(encode_utf8(p@)),
{
    let b = p.as_bytes();
    if b.len() == 0 {
        return false;
    }
    if b.len() == 1 && b[0] == ROOT_DOT {
        proof {
            assert(b@ =~= seq![ROOT_DOT]);
        }
        return true;
    }
    proof {
        assert(b@ != seq![ROOT_DOT]);
    }
    if b[0] == SEPARATOR || b[b.len() - 1] == SEPARATOR {
        return false;
    }
    let mut i: usize = 0;
    while i < b.len()
        invariant
            b@ == encode_utf8(p@),
            b@ != seq![ROOT_DOT],
            i <= b@.len(),
            b@.len() > 0,
            b@[0] != SEPARATOR,
            b@[b@.len() - 1] != SEPARATOR,
            forall|j: int| 0 <= j < i ==> #[trigger] b@[j] != 0,
            forall|j: int| j < i ==> !double_separator_at(b@, j),
            forall|j: int| j < i ==> !dot_component_at(b@, j),
            forall|j: int| j < i ==> !dot_dot_component_at(b@, j),
        decreases b@.len() - i,
    {
        if b[i] == 0 {
            return false;
        }
        let at_start = i == 0 || b[i - 1] == SEPARATOR;
        if i + 1 < b.len() && b[i] == SEPARATOR && b[i + 1] == SEPARATOR {
            assert(double_separator_at(b@, i as int));
            return false;
        }
        if at_start && b[i] == ROOT_DOT && (i + 1 == b.len() || b[i + 1] == SEPARATOR) {
            assert(dot_component_at(b@, i as int));
            return false;
        }
        if at_start && i + 1 < b.len() && b[i] == ROOT_DOT && b[i + 1] == ROOT_DOT && (i + 2
            == b.len() || b[i + 2] == SEPARATOR) {
            assert(dot_dot_component_at(b@, i as int));
            return false;
        }
        i += 1;
    }
    proof {
        assert forall|j: int| !double_separator_at(b@, j) by {
            if j >= i { }
        }
        assert forall|j: int| !dot_component_at(b@, j) by {
            if j >= i { }
        }
        assert forall|j: int| !dot_dot_component_at(b@, j) by {
            if j >= i { }
        }
    }
    true
}

} // verus!
