//! In-memory filesystem with a flat root directory: a vector of named
//! nodes kept strictly sorted by name, so that listings come out in
//! lexicographic order without further work.

use vstd::prelude::*;

verus! {

use vstd::string::{StrSliceExecFns, StringExecFns};
use crate::fs::{
    FileSystem, FsError, FsModel, NodeKind, create_spec, display_name, fs_contains_name,
    fs_sorted, is_root_path, lemma_insert_entry_at, lemma_insert_position_sorted,
    listing,
};
use crate::text::{contains_slash, lex_lt, str_eq, str_lt};

/// One root entry: a node and its name.
struct Node {
    name: String,
    kind: NodeKind,
}

/// The in-memory filesystem.  Its root entries are stored sorted by name.
pub struct RamFS {
    root: Vec<Node>,
}

impl RamFS {
    /// A fresh filesystem with an empty root directory.
    pub fn new() -> (fs: RamFS)
        ensures
            fs_sorted(fs.fs_entries()),
            fs.fs_entries() == Seq::<(Seq<char>, NodeKind)>::empty(),
    {
        let fs = RamFS { root: Vec::new() };
        proof {
            assert(fs.fs_entries() =~= Seq::<(Seq<char>, NodeKind)>::empty());
        }
        fs
    }

    /// Create a node of the given kind in the root, shared by `create_file`
    /// and `create_dir`.
    fn create_node(&mut self, path: &str, kind: NodeKind) -> (r: Result<(), FsError>)
        requires
            fs_sorted(old(self).fs_entries()),
            path@.len() > 0,
        ensures
            fs_sorted(final(self).fs_entries()),
            (final(self).fs_entries(), r) == create_spec(old(self).fs_entries(), path@, kind),
    {
        if contains_slash(path) {
            return Err(FsError::InvalidPath);
        }
        let ghost entries = self.fs_entries();
        let mut idx: usize = 0;
        let n = self.root.len();
        while idx < n && str_lt(self.root[idx].name.as_str(), path)
            invariant
                idx <= n,
                n == self.root.len(),
                entries == self.fs_entries(),
                forall|k: int| 0 <= k < idx ==> lex_lt(#[trigger] entries[k].0, path@),
            decreases n - idx,
        {
            proof {
                assert(entries[idx as int].0 == self.root@[idx as int].name@);
            }
            idx += 1;
        }
        if idx < n {
            if str_eq(self.root[idx].name.as_str(), path) {
                proof {
                    assert(entries[idx as int].0 == path@);
                    assert(fs_contains_name(entries, path@));
                }
                return Err(FsError::AlreadyExists);
            }
        }
        proof {
            assert(idx < n ==> !lex_lt(entries[idx as int].0, path@) && entries[idx as int].0
                != path@);
            lemma_insert_position_sorted(entries, path@, kind, idx as int);
            lemma_insert_entry_at(entries, path@, kind, idx as int);
        }
        let node = Node { name: path.to_owned(), kind };
        self.root.insert(idx, node);
        proof {
            assert(self.fs_entries() =~= entries.insert(idx as int, (path@, kind)));
        }
        Ok(())
    }
}

impl FileSystem for RamFS {
    closed spec fn fs_entries(&self) -> FsModel {
        self.root@.map_values(|n: Node| (n.name@, n.kind))
    }

    fn create_file(&mut self, path: &str) -> (r: Result<(), FsError>) {
        self.create_node(path, NodeKind::File)
    }

    fn create_dir(&mut self, path: &str) -> (r: Result<(), FsError>) {
        self.create_node(path, NodeKind::Directory)
    }

    fn list_dir(&self, path: &str) -> (r: Result<Vec<String>, FsError>) {
        let at_root = str_eq(path, "/") || path.unicode_len() == 0;
        if !at_root {
            return Err(FsError::NotFound);
        }
        let mut out: Vec<String> = Vec::new();
        let n = self.root.len();
        let mut i: usize = 0;
        proof {
            assert(out.deep_view() =~= listing(self.fs_entries()).take(0));
        }
        while i < n
            invariant
                i <= n,
                n == self.root.len(),
                fs_sorted(self.fs_entries()),
                out.deep_view() == listing(self.fs_entries()).take(i as int),
            decreases n - i,
        {
            let node = &self.root[i];
            let disp: String = match node.kind {
                NodeKind::Directory => node.name.clone().concat("/"),
                NodeKind::File => node.name.clone(),
            };
            proof {
                assert(self.fs_entries()[i as int] == (node.name@, node.kind));
                assert(disp@ == display_name(self.fs_entries()[i as int]));
            }
            let ghost prev = out.deep_view();
            out.push(disp);
            proof {
                assert(out.deep_view() =~~= prev.push(disp@));
                assert(out.deep_view() =~~= listing(self.fs_entries()).take(i as int + 1));
            }
            i += 1;
        }
        proof {
            assert(listing(self.fs_entries()).take(n as int) =~= listing(self.fs_entries()));
        }
        Ok(out)
    }
}

} // verus!
