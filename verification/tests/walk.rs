use far::dir_iter::{DirIterator, DirIteratorError, RawEntry};
use far::far::{diriter_vec, RootListing};
use far::iter::collect_all;

fn file(name: &str) -> RawEntry {
    RawEntry::File { name: name.to_string() }
}

fn dir(name: &str, entries: Vec<RawEntry>) -> RawEntry {
    RawEntry::Dir { name: name.to_string(), entries }
}

fn walk_paths(root: &str, entries: Vec<RawEntry>) -> Vec<String> {
    let mut d = match DirIterator::new(root, Ok(entries)) {
        Ok(d) => d,
        Err(_) => panic!("A listed root should construct."),
    };
    let mut out = Vec::new();
    loop {
        match d.next() {
            Some(item) => out.push(item.unwrap()),
            None => return out,
        }
    }
}

fn test_dirs(root: &str, entries: Vec<RawEntry>, expected: Vec<&str>) {
    let mut expected: Vec<String> = expected.into_iter().map(|x| format!("{}/{}", root, x)).collect();
    expected.sort();

    let mut paths = walk_paths(root, entries);
    paths.sort();

    assert_eq!(paths.len(), expected.len());
    for (a, b) in paths.iter().zip(expected.iter()) {
        assert_eq!(a, b);
    }
}

#[test]
fn test_empty_middle_dir() {
    let entries = vec![
        file("1"),
        dir("a", vec![file("2"), dir("aa", vec![dir("aaa", vec![file("3")])])]),
    ];

    let expected = vec!["1", "a/2", "a/aa/aaa/3"];

    test_dirs("root", entries, expected);
}

#[test]
fn test_comprehensive() {
    let entries = vec![
        file("1"),
        file("2"),
        file("3"),
        file("4"),
        dir(
            "a",
            vec![file("5"), file("6"), dir("aa", vec![dir("aaa", vec![file("7")])])],
        ),
        dir("b", vec![]),
        dir("c", vec![file("8")]),
    ];

    let expected = vec!["1", "2", "3", "4", "a/5", "a/6", "a/aa/aaa/7", "c/8"];

    test_dirs("root", entries, expected);
}

#[test]
fn walk_is_preorder_depth_first() {
    let entries = vec![file("x"), dir("d", vec![file("y")]), file("z")];
    let paths = walk_paths("r", entries);

    assert_eq!(paths, vec!["r/x", "r/d/y", "r/z"]);
}

#[test]
fn symlinks_are_skipped_silently() {
    let entries = vec![
        file("x"),
        RawEntry::Symlink { name: "link".to_string() },
        dir("d", vec![RawEntry::Symlink { name: "inner".to_string() }]),
        file("z"),
    ];
    let paths = walk_paths("r", entries);

    assert_eq!(paths, vec!["r/x", "r/z"]);
}

#[test]
fn entry_failure_does_not_suppress_siblings() {
    let entries = vec![
        file("before"),
        RawEntry::ReadError { path: "r/broken".to_string(), err: "denied".to_string() },
        dir(
            "d",
            vec![RawEntry::DirOpenError { name: "locked".to_string(), err: "denied".to_string() }, file("y")],
        ),
        file("after"),
    ];
    let mut d = DirIterator::new("r", Ok(entries)).unwrap();

    let mut oks = Vec::new();
    let mut errs: Vec<DirIteratorError> = Vec::new();
    loop {
        match d.next() {
            Some(Ok(p)) => oks.push(p),
            Some(Err(e)) => errs.push(e),
            None => break,
        }
    }

    assert_eq!(oks, vec!["r/before", "r/d/y", "r/after"]);
    assert_eq!(errs.len(), 2);
    assert_eq!(errs[0].path, "r/broken");
    assert_eq!(errs[0].err, "denied");
    assert_eq!(errs[1].path, "r/d/locked");
}

#[test]
fn exhausted_walk_stays_exhausted() {
    let mut d = DirIterator::new("r", Ok(vec![file("only")])).unwrap();
    assert!(d.next().is_some());
    assert!(d.next().is_none());
    assert!(d.next().is_none());
}

#[test]
fn unreadable_root_fails_construction() {
    match DirIterator::new("r", Err("permission denied".to_string())) {
        Err(err) => {
            assert_eq!(err.path, "r");
            assert_eq!(err.err, "permission denied");
        }
        Ok(_) => panic!("An unreadable root should fail construction."),
    }
}

#[test]
fn diriter_error_new_keeps_path_and_error() {
    let e = DirIteratorError::new("some/path", "oops".to_string());
    assert_eq!(e.path, "some/path");
    assert_eq!(e.err, "oops");
}

#[test]
fn chained_roots_walk_in_root_order() {
    let roots = vec![
        RootListing { path: "one".to_string(), listing: Ok(vec![file("a")]) },
        RootListing { path: "two".to_string(), listing: Ok(vec![dir("d", vec![file("b")])]) },
    ];
    let mut chained = diriter_vec(roots).unwrap();
    let items = collect_all(&mut chained);
    let paths: Vec<String> = items.into_iter().map(|r| r.unwrap()).collect();

    assert_eq!(paths, vec!["one/a", "two/d/b"]);
}

#[test]
fn chained_roots_fail_on_first_unreadable_root() {
    let roots = vec![
        RootListing { path: "good".to_string(), listing: Ok(vec![file("a")]) },
        RootListing { path: "bad".to_string(), listing: Err("denied".to_string()) },
    ];
    match diriter_vec(roots) {
        Err(err) => {
            assert_eq!(err.path, "bad");
            assert_eq!(err.err, "denied");
        }
        Ok(_) => panic!("The first unreadable root should fail the chaining."),
    }
}
