//! Tests of the in-memory filesystem: creation, duplicate and invalid
//! names, and the sorted root listing.

use zynthos::fs::{FileSystem, FsError};
use zynthos::ramfs::RamFS;

#[test]
fn empty_root_lists_nothing() {
    let fs = RamFS::new();
    assert_eq!(fs.list_dir("/").unwrap(), Vec::<String>::new());
    assert_eq!(fs.list_dir("").unwrap(), Vec::<String>::new());
}

#[test]
fn created_names_listed_sorted_with_suffix() {
    let mut fs = RamFS::new();
    assert_eq!(fs.create_dir("foo"), Ok(()));
    assert_eq!(fs.create_file("bar"), Ok(()));
    let entries = fs.list_dir("/").unwrap();
    assert_eq!(entries, vec!["bar".to_string(), "foo/".to_string()]);
}

#[test]
fn listing_sorted_whatever_the_creation_order() {
    let mut fs = RamFS::new();
    for name in ["zeta", "alpha", "mu", "beta", "omega"] {
        assert_eq!(fs.create_file(name), Ok(()));
    }
    assert_eq!(fs.create_dir("delta"), Ok(()));
    let entries = fs.list_dir("/").unwrap();
    assert_eq!(
        entries,
        vec![
            "alpha".to_string(),
            "beta".to_string(),
            "delta/".to_string(),
            "mu".to_string(),
            "omega".to_string(),
            "zeta".to_string(),
        ]
    );
}

#[test]
fn duplicate_name_rejected_without_mutation() {
    let mut fs = RamFS::new();
    assert_eq!(fs.create_file("a"), Ok(()));
    assert_eq!(fs.create_file("a"), Err(FsError::AlreadyExists));
    // A directory of the same name is also rejected: names are unique.
    assert_eq!(fs.create_dir("a"), Err(FsError::AlreadyExists));
    assert_eq!(fs.list_dir("/").unwrap(), vec!["a".to_string()]);
}

#[test]
fn slash_in_name_rejected_without_mutation() {
    let mut fs = RamFS::new();
    assert_eq!(fs.create_file("a/b"), Err(FsError::InvalidPath));
    assert_eq!(fs.create_dir("x/"), Err(FsError::InvalidPath));
    assert_eq!(fs.create_dir("/y"), Err(FsError::InvalidPath));
    assert_eq!(fs.list_dir("/").unwrap(), Vec::<String>::new());
}

#[test]
fn non_root_paths_not_found() {
    let mut fs = RamFS::new();
    assert_eq!(fs.create_dir("sub"), Ok(()));
    assert_eq!(fs.list_dir("sub"), Err(FsError::NotFound));
    assert_eq!(fs.list_dir("nowhere"), Err(FsError::NotFound));
    assert_eq!(fs.list_dir("//"), Err(FsError::NotFound));
}
