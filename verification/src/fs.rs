//! The filesystem abstraction: the error taxonomy, the node kinds, the
//! mathematical model of a flat root directory, and the `FileSystem` trait
//! whose contracts pin down what creating and listing entries does.

use vstd::prelude::*;

verus! {

use crate::text::{lex_lt, has_slash, lemma_lex_trichotomy, lemma_lex_asymmetric,
    lemma_lex_irreflexive, lemma_lex_transitive};

/// Error taxonomy surfaced by the filesystem.
#[derive(Clone, Copy, Debug, PartialEq, Eq, Structural)]
pub enum FsError {
    NotFound,
    AlreadyExists,
    InvalidPath,
    NotADirectory,
}

/// The kind of a node.  In this revision directories hold no children of
/// their own: every entry lives in the root, and a `Directory` differs from
/// a `File` only in its kind and in its listing suffix.
#[derive(Clone, Copy, Debug, PartialEq, Eq, Structural)]
pub enum NodeKind {
    File,
    Directory,
}

/// The model of the root directory: its entries as (name, kind) pairs, in
/// listing order.
pub type FsModel = Seq<(Seq<char>, NodeKind)>;

/// Entries are strictly sorted by name in lexicographic order; names are
/// therefore also unique.
pub open spec fn fs_sorted(entries: FsModel) -> bool {
    forall|i: int, j: int|
        0 <= i < j < entries.len() ==> lex_lt(#[trigger] entries[i].0, #[trigger] entries[j].0)
}

/// Whether a node of the given name exists in the root.
pub open spec fn fs_contains_name(entries: FsModel, name: Seq<char>) -> bool {
    exists|i: int| 0 <= i < entries.len() && #[trigger] entries[i].0 == name
}

/// A new entry placed at its sorted position.
pub open spec fn insert_entry(entries: FsModel, name: Seq<char>, kind: NodeKind) -> FsModel
    decreases entries.len(),
{
    if entries.len() == 0 {
        seq![(name, kind)]
    } else if lex_lt(name, entries[0].0) {
        seq![(name, kind)] + entries
    } else {
        seq![entries[0]] + insert_entry(entries.drop_first(), name, kind)
    }
}

/// What one `create_file` or `create_dir` call does to the model: a name
/// holding a separator is rejected as an invalid path, a name already
/// present is rejected as existing, and otherwise the new node lands at its
/// sorted position.  A failed call leaves the model unchanged.
pub open spec fn create_spec(entries: FsModel, name: Seq<char>, kind: NodeKind) -> (FsModel, Result<
    (),
    FsError,
>) {
    if has_slash(name) {
        (entries, Err(FsError::InvalidPath))
    } else if fs_contains_name(entries, name) {
        (entries, Err(FsError::AlreadyExists))
    } else {
        (insert_entry(entries, name, kind), Ok(()))
    }
}

/// How one entry is displayed in a directory listing: directories carry a
/// trailing slash.
pub open spec fn display_name(e: (Seq<char>, NodeKind)) -> Seq<char> {
    if e.1 == NodeKind::Directory {
        e.0 + "/"@
    } else {
        e.0
    }
}

/// The lines a root listing reports, in entry order.
pub open spec fn listing(entries: FsModel) -> Seq<Seq<char>> {
    entries.map_values(|e: (Seq<char>, NodeKind)| display_name(e))
}

/// The paths that refer to the root directory.
pub open spec fn is_root_path(p: Seq<char>) -> bool {
    p == "/"@ || p.len() == 0
}

/// A name store of files and directories.  The contract fixes a flat root:
/// creation places entries directly in the root, and only the root can be
/// listed; the behaviour of deeper paths is deliberately left out of this
/// revision.
pub trait FileSystem: Sized {
    /// The entries of the root directory, in listing order.
    spec fn fs_entries(&self) -> FsModel;

    /// Create a `File` node named `path` in the root.
    fn create_file(&mut self, path: &str) -> (r: Result<(), FsError>)
        requires
            fs_sorted(old(self).fs_entries()),
            path@.len() > 0,
        ensures
            fs_sorted(final(self).fs_entries()),
            (final(self).fs_entries(), r) == create_spec(
                old(self).fs_entries(),
                path@,
                NodeKind::File,
            ),
    ;

    /// Create an empty `Directory` node named `path` in the root.
    fn create_dir(&mut self, path: &str) -> (r: Result<(), FsError>)
        requires
            fs_sorted(old(self).fs_entries()),
            path@.len() > 0,
        ensures
            fs_sorted(final(self).fs_entries()),
            (final(self).fs_entries(), r) == create_spec(
                old(self).fs_entries(),
                path@,
                NodeKind::Directory,
            ),
    ;

    /// List the directory `path` refers to.  `/` and the empty path name
    /// the root; every other path fails with `NotFound` in this revision.
    fn list_dir(&self, path: &str) -> (r: Result<Vec<String>, FsError>)
        requires
            fs_sorted(self.fs_entries()),
        ensures
            is_root_path(path@) ==> r is Ok && r->Ok_0.deep_view() == listing(self.fs_entries()),
            !is_root_path(path@) ==> r == Err::<Vec<String>, FsError>(FsError::NotFound),
    ;
}

/// Whether every create in a sequence of requests succeeds, applied in
/// order.
pub open spec fn create_all_ok(entries: FsModel, reqs: Seq<(Seq<char>, NodeKind)>) -> bool
    decreases reqs.len(),
{
    if reqs.len() == 0 {
        true
    } else {
        let step = create_spec(entries, reqs[0].0, reqs[0].1);
        step.1 is Ok && create_all_ok(step.0, reqs.drop_first())
    }
}

/// The model after a sequence of create calls, applied in order.
pub open spec fn create_all(entries: FsModel, reqs: Seq<(Seq<char>, NodeKind)>) -> FsModel
    decreases reqs.len(),
{
    if reqs.len() == 0 {
        entries
    } else {
        create_all(create_spec(entries, reqs[0].0, reqs[0].1).0, reqs.drop_first())
    }
}

/// Inserting a fresh name keeps the entries sorted, grows them by one, and
/// adds exactly that pair.
pub proof fn lemma_insert_entry_props(entries: FsModel, name: Seq<char>, kind: NodeKind)
    requires
        fs_sorted(entries),
        !fs_contains_name(entries, name),
    ensures
        fs_sorted(insert_entry(entries, name, kind)),
        insert_entry(entries, name, kind).len() == entries.len() + 1,
        forall|p: (Seq<char>, NodeKind)|
            #[trigger] insert_entry(entries, name, kind).contains(p) <==> (entries.contains(p)
                || p == (name, kind)),
    decreases entries.len(),
{
    let result = insert_entry(entries, name, kind);
    if entries.len() == 0 {
        assert(result =~= seq![(name, kind)]);
        assert forall|p: (Seq<char>, NodeKind)| #[trigger] result.contains(p) implies (
        entries.contains(p) || p == (name, kind)) by {
            let i = choose|i: int| 0 <= i < result.len() && result[i] == p;
            assert(result[0] == (name, kind));
        }
        assert(result[0] == (name, kind));
        assert(result.contains((name, kind)));
    } else if lex_lt(name, entries[0].0) {
        assert(result == seq![(name, kind)] + entries);
        assert forall|i: int, j: int| 0 <= i < j < result.len() implies lex_lt(
            #[trigger] result[i].0,
            #[trigger] result[j].0,
        ) by {
            if i == 0 {
                assert(result[j] == entries[j - 1]);
                if j - 1 > 0 {
                    assert(lex_lt(entries[0].0, entries[j - 1].0));
                    lemma_lex_transitive(name, entries[0].0, entries[j - 1].0);
                }
            } else {
                assert(result[i] == entries[i - 1] && result[j] == entries[j - 1]);
            }
        }
        assert forall|p: (Seq<char>, NodeKind)| #[trigger] result.contains(p) implies (
        entries.contains(p) || p == (name, kind)) by {
            let i = choose|i: int| 0 <= i < result.len() && result[i] == p;
            if i > 0 {
                assert(entries[i - 1] == p);
                assert(entries.contains(p));
            }
        }
        assert forall|p: (Seq<char>, NodeKind)| entries.contains(p) || p == (name, kind) implies
            #[trigger] result.contains(p) by {
            if entries.contains(p) {
                let i = choose|i: int| 0 <= i < entries.len() && entries[i] == p;
                assert(result[i + 1] == p);
            } else {
                assert(result[0] == p);
            }
        }
    } else {
        assert(entries[0].0 != name) by {
            if entries[0].0 == name {
                assert(fs_contains_name(entries, name));
            }
        }
        lemma_lex_trichotomy(name, entries[0].0);
        assert(lex_lt(entries[0].0, name));
        let rest = entries.drop_first();
        assert(fs_sorted(rest)) by {
            assert forall|i: int, j: int| 0 <= i < j < rest.len() implies lex_lt(
                #[trigger] rest[i].0,
                #[trigger] rest[j].0,
            ) by {
                assert(rest[i] == entries[i + 1] && rest[j] == entries[j + 1]);
            }
        }
        assert(!fs_contains_name(rest, name)) by {
            if fs_contains_name(rest, name) {
                let i = choose|i: int| 0 <= i < rest.len() && rest[i].0 == name;
                assert(entries[i + 1].0 == name);
                assert(fs_contains_name(entries, name));
            }
        }
        lemma_insert_entry_props(rest, name, kind);
        let rp = insert_entry(rest, name, kind);
        assert(result == seq![entries[0]] + rp);
        assert forall|i: int, j: int| 0 <= i < j < result.len() implies lex_lt(
            #[trigger] result[i].0,
            #[trigger] result[j].0,
        ) by {
            if i == 0 {
                assert(result[j] == rp[j - 1]);
                assert(rp.contains(rp[j - 1]));
                if rp[j - 1] == (name, kind) {
                    assert(lex_lt(entries[0].0, name));
                } else {
                    assert(rest.contains(rp[j - 1]));
                    let k = choose|k: int| 0 <= k < rest.len() && rest[k] == rp[j - 1];
                    assert(rest[k] == entries[k + 1]);
                    assert(lex_lt(entries[0].0, entries[k + 1].0));
                }
            } else {
                assert(result[i] == rp[i - 1] && result[j] == rp[j - 1]);
            }
        }
        assert forall|p: (Seq<char>, NodeKind)| #[trigger] result.contains(p) implies (
        entries.contains(p) || p == (name, kind)) by {
            let i = choose|i: int| 0 <= i < result.len() && result[i] == p;
            if i == 0 {
                assert(entries[0] == p);
                assert(entries.contains(p));
            } else {
                assert(rp[i - 1] == p);
                assert(rp.contains(p));
                if rest.contains(p) {
                    let k = choose|k: int| 0 <= k < rest.len() && rest[k] == p;
                    assert(entries[k + 1] == p);
                    assert(entries.contains(p));
                }
            }
        }
        assert forall|p: (Seq<char>, NodeKind)| entries.contains(p) || p == (name, kind) implies
            #[trigger] result.contains(p) by {
            if entries.contains(p) {
                let i = choose|i: int| 0 <= i < entries.len() && entries[i] == p;
                if i == 0 {
                    assert(result[0] == p);
                } else {
                    assert(rest[i - 1] == p);
                    assert(rest.contains(p));
                    assert(rp.contains(p));
                    let k = choose|k: int| 0 <= k < rp.len() && rp[k] == p;
                    assert(result[k + 1] == p);
                }
            } else {
                assert(rp.contains(p));
                let k = choose|k: int| 0 <= k < rp.len() && rp[k] == p;
                assert(result[k + 1] == p);
            }
        }
    }
}

/// Creating a batch of fresh, distinct, slash-free names succeeds for each
/// and adds exactly those pairs, keeping the entries sorted.
proof fn lemma_create_all_props(entries: FsModel, reqs: Seq<(Seq<char>, NodeKind)>)
    requires
        fs_sorted(entries),
        forall|i: int, j: int| 0 <= i < j < reqs.len() ==> #[trigger] reqs[i].0 != #[trigger] reqs[j].0,
        forall|i: int| 0 <= i < reqs.len() ==> !has_slash(#[trigger] reqs[i].0),
        forall|i: int| 0 <= i < reqs.len() ==> !fs_contains_name(entries, #[trigger] reqs[i].0),
    ensures
        create_all_ok(entries, reqs),
        fs_sorted(create_all(entries, reqs)),
        create_all(entries, reqs).len() == entries.len() + reqs.len(),
        forall|p: (Seq<char>, NodeKind)|
            #[trigger] create_all(entries, reqs).contains(p) <==> (entries.contains(p)
                || reqs.contains(p)),
    decreases reqs.len(),
{
    if reqs.len() == 0 {
        assert forall|p: (Seq<char>, NodeKind)| #[trigger] create_all(entries, reqs).contains(p)
            <==> (entries.contains(p) || reqs.contains(p)) by {
            if reqs.contains(p) {
                let i = choose|i: int| 0 <= i < reqs.len() && reqs[i] == p;
            }
        }
    } else {
        let r0 = reqs[0];
        assert(!has_slash(r0.0));
        assert(!fs_contains_name(entries, r0.0));
        lemma_insert_entry_props(entries, r0.0, r0.1);
        let e1 = insert_entry(entries, r0.0, r0.1);
        assert(create_spec(entries, r0.0, r0.1) == (e1, Ok::<(), FsError>(())));
        let rest = reqs.drop_first();
        assert forall|i: int| 0 <= i < rest.len() implies !fs_contains_name(
            e1,
            #[trigger] rest[i].0,
        ) by {
            assert(rest[i] == reqs[i + 1]);
            if fs_contains_name(e1, rest[i].0) {
                let k = choose|k: int| 0 <= k < e1.len() && e1[k].0 == rest[i].0;
                assert(e1.contains(e1[k]));
                if entries.contains(e1[k]) {
                    let m = choose|m: int| 0 <= m < entries.len() && entries[m] == e1[k];
                    assert(fs_contains_name(entries, reqs[i + 1].0));
                } else {
                    assert(e1[k] == (r0.0, r0.1));
                    assert(reqs[0].0 == reqs[i + 1].0);
                }
            }
        }
        assert forall|i: int, j: int| 0 <= i < j < rest.len() implies #[trigger] rest[i].0
            != #[trigger] rest[j].0 by {
            assert(rest[i] == reqs[i + 1] && rest[j] == reqs[j + 1]);
        }
        assert forall|i: int| 0 <= i < rest.len() implies !has_slash(#[trigger] rest[i].0) by {
            assert(rest[i] == reqs[i + 1]);
        }
        lemma_create_all_props(e1, rest);
        assert(create_all(entries, reqs) == create_all(e1, rest));
        assert forall|p: (Seq<char>, NodeKind)| #[trigger] create_all(entries, reqs).contains(p)
            <==> (entries.contains(p) || reqs.contains(p)) by {
            if create_all(e1, rest).contains(p) {
                if e1.contains(p) && !entries.contains(p) {
                    assert(p == (r0.0, r0.1));
                    assert(reqs[0] == p);
                    assert(reqs.contains(p));
                }
                if rest.contains(p) {
                    let i = choose|i: int| 0 <= i < rest.len() && rest[i] == p;
                    assert(reqs[i + 1] == p);
                    assert(reqs.contains(p));
                }
            }
            if entries.contains(p) {
                assert(e1.contains(p));
            }
            if reqs.contains(p) {
                let i = choose|i: int| 0 <= i < reqs.len() && reqs[i] == p;
                if i == 0 {
                    assert(p == (r0.0, r0.1));
                    assert(e1.contains(p));
                } else {
                    assert(rest[i - 1] == p);
                    assert(rest.contains(p));
                }
            }
        }
    }
}

/// Law: creating any batch of distinct, slash-free names into an empty
/// filesystem succeeds for every name, and the root then holds exactly
/// those names with their kinds, strictly sorted in lexicographic order.
/// Together with the contract of `list_dir`, the root listing then shows
/// exactly those names in lexicographic order, directories suffixed with a
/// slash.
pub proof fn lemma_creations_listed_sorted(reqs: Seq<(Seq<char>, NodeKind)>)
    requires
        forall|i: int, j: int| 0 <= i < j < reqs.len() ==> #[trigger] reqs[i].0 != #[trigger] reqs[j].0,
        forall|i: int| 0 <= i < reqs.len() ==> !has_slash(#[trigger] reqs[i].0),
    ensures
        create_all_ok(Seq::empty(), reqs),
        fs_sorted(create_all(Seq::empty(), reqs)),
        create_all(Seq::empty(), reqs).len() == reqs.len(),
        forall|p: (Seq<char>, NodeKind)|
            #[trigger] create_all(Seq::empty(), reqs).contains(p) <==> reqs.contains(p),
{
    let empty = Seq::<(Seq<char>, NodeKind)>::empty();
    assert forall|i: int| 0 <= i < reqs.len() implies !fs_contains_name(
        empty,
        #[trigger] reqs[i].0,
    ) by {
        if fs_contains_name(empty, reqs[i].0) {
            let k = choose|k: int| 0 <= k < empty.len() && empty[k].0 == reqs[i].0;
        }
    }
    lemma_create_all_props(empty, reqs);
}

/// `insert_entry` at a known sorted position is a plain sequence insertion.
pub proof fn lemma_insert_entry_at(entries: FsModel, name: Seq<char>, kind: NodeKind, idx: int)
    requires
        0 <= idx <= entries.len(),
        forall|k: int| 0 <= k < idx ==> lex_lt(#[trigger] entries[k].0, name),
        idx < entries.len() ==> !lex_lt(entries[idx].0, name) && entries[idx].0 != name,
    ensures
        insert_entry(entries, name, kind) == entries.insert(idx, (name, kind)),
    decreases entries.len(),
{
    if entries.len() == 0 {
        assert(insert_entry(entries, name, kind) =~= entries.insert(0, (name, kind)));
    } else if idx == 0 {
        lemma_lex_trichotomy(name, entries[0].0);
        assert(lex_lt(name, entries[0].0));
        assert(seq![(name, kind)] + entries =~= entries.insert(0, (name, kind)));
    } else {
        lemma_lex_asymmetric(entries[0].0, name);
        assert(!lex_lt(name, entries[0].0));
        let rest = entries.drop_first();
        assert(forall|k: int| 0 <= k < idx - 1 ==> lex_lt(#[trigger] rest[k].0, name)) by {
            assert(forall|k: int|
                0 <= k < idx - 1 ==> #[trigger] rest[k] == entries[k + 1] && lex_lt(
                    entries[k + 1].0,
                    name,
                ));
        }
        assert(idx - 1 < rest.len() ==> rest[idx - 1] == entries[idx]);
        lemma_insert_entry_at(rest, name, kind, idx - 1);
        assert(seq![entries[0]] + rest.insert(idx - 1, (name, kind)) =~= entries.insert(
            idx,
            (name, kind),
        ));
    }
}

/// Inserting a fresh name at its sorted position keeps the entries sorted,
/// grows them by one, and adds exactly that name with its kind.
pub proof fn lemma_insert_position_sorted(entries: FsModel, name: Seq<char>, kind: NodeKind, idx: int)
    requires
        fs_sorted(entries),
        0 <= idx <= entries.len(),
        forall|k: int| 0 <= k < idx ==> lex_lt(#[trigger] entries[k].0, name),
        idx < entries.len() ==> !lex_lt(entries[idx].0, name) && entries[idx].0 != name,
    ensures
        fs_sorted(entries.insert(idx, (name, kind))),
        !fs_contains_name(entries, name),
{
    let new = entries.insert(idx, (name, kind));
    if idx < entries.len() {
        lemma_lex_trichotomy(name, entries[idx].0);
        assert(lex_lt(name, entries[idx].0));
    }
    assert forall|i: int, j: int| 0 <= i < j < new.len() implies lex_lt(
        #[trigger] new[i].0,
        #[trigger] new[j].0,
    ) by {
        if i < idx && j < idx {
            assert(new[i] == entries[i] && new[j] == entries[j]);
        } else if i < idx && j == idx {
            assert(new[i] == entries[i]);
        } else if i < idx && j > idx {
            assert(new[i] == entries[i] && new[j] == entries[j - 1]);
            if i == j - 1 {
                assert(false);
            }
        } else if i == idx && j > idx {
            assert(new[j] == entries[j - 1]);
            if j - 1 > idx {
                assert(lex_lt(entries[idx].0, entries[j - 1].0));
                lemma_lex_transitive(name, entries[idx].0, entries[j - 1].0);
            }
        } else {
            assert(new[i] == entries[i - 1] && new[j] == entries[j - 1]);
        }
    }
    assert forall|k: int| 0 <= k < entries.len() implies #[trigger] entries[k].0 != name by {
        if k < idx {
            if entries[k].0 == name {
                lemma_lex_irreflexive(name);
            }
        } else if k > idx {
            lemma_lex_trichotomy(name, entries[idx].0);
            if idx < k {
                if entries[k].0 == name {
                    assert(lex_lt(entries[idx].0, entries[k].0));
                    lemma_lex_transitive(name, entries[idx].0, entries[k].0);
                    lemma_lex_irreflexive(name);
                }
            }
        }
    }
}

} // verus!
