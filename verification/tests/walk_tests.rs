use ferret::filter::{evaluate, EntryKind, FilterSpec, FsEntry};
use ferret::pattern::{Matcher, PatternKind};
use ferret::walk::{RawChild, Step, Walker};

fn file(name: &str, size: u64) -> RawChild {
    RawChild {
        name: name.as_bytes().to_vec(),
        kind: EntryKind::File,
        size,
        modified: Some(0),
        dir_target: false,
        canon: None,
    }
}

fn dir(name: &str) -> RawChild {
    RawChild {
        name: name.as_bytes().to_vec(),
        kind: EntryKind::Directory,
        size: 0,
        modified: Some(0),
        dir_target: true,
        canon: None,
    }
}

fn dir_id(name: &str, id: (u64, u64)) -> RawChild {
    RawChild {
        name: name.as_bytes().to_vec(),
        kind: EntryKind::Directory,
        size: 0,
        modified: Some(0),
        dir_target: true,
        canon: Some(id),
    }
}

fn link_dir(name: &str, id: (u64, u64)) -> RawChild {
    RawChild {
        name: name.as_bytes().to_vec(),
        kind: EntryKind::Symlink,
        size: 0,
        modified: Some(0),
        dir_target: true,
        canon: Some(id),
    }
}

fn base_spec() -> FilterSpec {
    FilterSpec {
        type_filter: None,
        min_size: None,
        max_size: None,
        max_age_days: None,
        include_hidden: false,
        recursive: true,
        max_depth: None,
        follow_symlinks: false,
    }
}

/// Drives a walk to completion, answering listing requests from the given
/// table (an unlisted directory reads as empty, like an unreadable one).
fn run(
    mut w: Walker,
    mut listings: Vec<(String, Vec<RawChild>)>,
) -> (Vec<FsEntry>, Vec<String>) {
    let mut emitted = Vec::new();
    let mut requests = Vec::new();
    while let Some(step) = w.next_step() {
        match step {
            Step::Emit(e) => emitted.push(e),
            Step::NeedListing { path, depth } => {
                let key = String::from_utf8(path.clone()).unwrap();
                requests.push(key.clone());
                let children = match listings.iter().position(|(p, _)| *p == key) {
                    Some(i) => listings.remove(i).1,
                    None => Vec::new(),
                };
                w.feed(&path, depth, children);
            }
        }
    }
    (emitted, requests)
}

fn names(entries: &[FsEntry]) -> Vec<String> {
    entries
        .iter()
        .map(|e| String::from_utf8(e.name.clone()).unwrap())
        .collect()
}

#[test]
fn hidden_pruned_and_pattern_filters() {
    // root holds a.txt (10 bytes), b.log (2000 bytes), .hidden (5 bytes).
    let spec = base_spec();
    let w = Walker::new(b"root".to_vec(), &spec, None);
    let listing = vec![file("b.log", 2000), file(".hidden", 5), file("a.txt", 10)];
    let (emitted, requests) = run(w, vec![("root".to_string(), listing)]);
    assert_eq!(requests, vec!["root".to_string()]);
    assert_eq!(names(&emitted), vec!["a.txt", "b.log"]);

    let matcher = Matcher::compile(b"*.txt", PatternKind::Glob, false).unwrap();
    let matched: Vec<String> = emitted
        .iter()
        .filter(|e| evaluate(e, &spec, &matcher, 0))
        .map(|e| String::from_utf8(e.name.clone()).unwrap())
        .collect();
    assert_eq!(matched, vec!["a.txt"]);
}

#[test]
fn hidden_included_in_sorted_order() {
    let mut spec = base_spec();
    spec.include_hidden = true;
    let w = Walker::new(b"root".to_vec(), &spec, None);
    let listing = vec![file("b.log", 2000), file(".hidden", 5), file("a.txt", 10)];
    let (emitted, _) = run(w, vec![("root".to_string(), listing)]);
    let matcher = Matcher::compile(b"*", PatternKind::Glob, false).unwrap();
    let matched: Vec<String> = emitted
        .iter()
        .filter(|e| evaluate(e, &spec, &matcher, 0))
        .map(|e| String::from_utf8(e.name.clone()).unwrap())
        .collect();
    assert_eq!(matched, vec![".hidden", "a.txt", "b.log"]);
}

#[test]
fn max_depth_lists_but_never_descends() {
    // maxDepth=1 over root/sub/deep/file.txt: sub is listed, deep and
    // file.txt are never seen.
    let mut spec = base_spec();
    spec.max_depth = Some(1);
    let w = Walker::new(b"root".to_vec(), &spec, None);
    let (emitted, requests) = run(
        w,
        vec![
            ("root".to_string(), vec![dir("sub")]),
            ("root/sub".to_string(), vec![dir("deep")]),
            ("root/sub/deep".to_string(), vec![file("file.txt", 1)]),
        ],
    );
    assert_eq!(requests, vec!["root".to_string()]);
    assert_eq!(names(&emitted), vec!["sub"]);
    assert_eq!(emitted[0].depth, 1);
}

#[test]
fn depth_two_stops_at_the_limit() {
    let mut spec = base_spec();
    spec.max_depth = Some(2);
    let w = Walker::new(b"root".to_vec(), &spec, None);
    let (emitted, requests) = run(
        w,
        vec![
            ("root".to_string(), vec![dir("a")]),
            ("root/a".to_string(), vec![dir("b"), file("x", 1)]),
            ("root/a/b".to_string(), vec![file("never", 1)]),
        ],
    );
    assert_eq!(requests, vec!["root".to_string(), "root/a".to_string()]);
    assert_eq!(names(&emitted), vec!["a", "b", "x"]);
}

#[test]
fn non_recursive_behaves_as_depth_one() {
    let mut spec = base_spec();
    spec.recursive = false;
    let w = Walker::new(b"root".to_vec(), &spec, None);
    let (emitted, requests) = run(
        w,
        vec![
            ("root".to_string(), vec![dir("sub"), file("top", 3)]),
            ("root/sub".to_string(), vec![file("below", 4)]),
        ],
    );
    assert_eq!(requests, vec!["root".to_string()]);
    assert_eq!(names(&emitted), vec!["sub", "top"]);
}

#[test]
fn depth_first_name_sorted_order() {
    let spec = base_spec();
    let w = Walker::new(b"root".to_vec(), &spec, None);
    let (emitted, _) = run(
        w,
        vec![
            (
                "root".to_string(),
                vec![file("z.txt", 1), dir("mid"), file("a.txt", 1)],
            ),
            ("root/mid".to_string(), vec![file("inner", 1)]),
        ],
    );
    // A directory's contents come right after it, before later siblings.
    assert_eq!(names(&emitted), vec!["a.txt", "mid", "inner", "z.txt"]);
    let paths: Vec<String> = emitted
        .iter()
        .map(|e| String::from_utf8(e.path.clone()).unwrap())
        .collect();
    assert_eq!(
        paths,
        vec!["root/a.txt", "root/mid", "root/mid/inner", "root/z.txt"]
    );
}

#[test]
fn symlinks_not_followed_by_default() {
    let spec = base_spec();
    let w = Walker::new(b"root".to_vec(), &spec, None);
    let (emitted, requests) = run(
        w,
        vec![
            ("root".to_string(), vec![link_dir("ln", (9, 9)), file("f", 1)]),
            ("root/ln".to_string(), vec![file("inside", 1)]),
        ],
    );
    assert_eq!(requests, vec!["root".to_string()]);
    assert_eq!(names(&emitted), vec!["f", "ln"]);
    assert_eq!(emitted[1].kind, EntryKind::Symlink);
}

#[test]
fn cyclic_links_never_relist_a_directory() {
    let mut spec = base_spec();
    spec.follow_symlinks = true;
    let w = Walker::new(b"root".to_vec(), &spec, Some((1, 1)));
    let (emitted, requests) = run(
        w,
        vec![
            (
                "root".to_string(),
                vec![dir_id("x", (2, 2)), link_dir("back", (1, 1))],
            ),
            (
                "root/x".to_string(),
                vec![link_dir("loop", (2, 2)), file("f", 1)],
            ),
        ],
    );
    // Each canonical directory is listed exactly once; the links back are
    // reported but never re-entered.
    assert_eq!(requests, vec!["root".to_string(), "root/x".to_string()]);
    assert_eq!(names(&emitted), vec!["back", "x", "f", "loop"]);
}

#[test]
fn followed_link_descends_once() {
    let mut spec = base_spec();
    spec.follow_symlinks = true;
    let w = Walker::new(b"root".to_vec(), &spec, Some((1, 1)));
    let (emitted, requests) = run(
        w,
        vec![
            ("root".to_string(), vec![link_dir("ln", (5, 5))]),
            ("root/ln".to_string(), vec![file("inside", 1)]),
        ],
    );
    assert_eq!(requests, vec!["root".to_string(), "root/ln".to_string()]);
    assert_eq!(names(&emitted), vec!["ln", "inside"]);
}

#[test]
fn repeated_walks_are_identical() {
    let build = || {
        let mut spec = base_spec();
        spec.include_hidden = true;
        Walker::new(b"root".to_vec(), &spec, None)
    };
    let listings = || {
        vec![
            (
                "root".to_string(),
                vec![file("c", 1), dir("b"), file(".a", 1)],
            ),
            ("root/b".to_string(), vec![file("y", 2), file("x", 3)]),
        ]
    };
    let (e1, r1) = run(build(), listings());
    let (e2, r2) = run(build(), listings());
    assert_eq!(r1, r2);
    let sig = |es: &[FsEntry]| -> Vec<(String, u64, usize)> {
        es.iter()
            .map(|e| {
                (
                    String::from_utf8(e.path.clone()).unwrap(),
                    e.size,
                    e.depth,
                )
            })
            .collect()
    };
    assert_eq!(sig(&e1), sig(&e2));
    assert_eq!(
        sig(&e1)
            .into_iter()
            .map(|(p, _, _)| p)
            .collect::<Vec<_>>(),
        vec!["root/.a", "root/b", "root/b/x", "root/b/y", "root/c"]
    );
}

#[test]
fn unreadable_directory_skips_only_that_subtree() {
    let spec = base_spec();
    let w = Walker::new(b"root".to_vec(), &spec, None);
    // root/bad is never answered (as if its listing failed): its subtree is
    // skipped, its siblings continue.
    let (emitted, requests) = run(
        w,
        vec![
            (
                "root".to_string(),
                vec![dir("bad"), dir("good")],
            ),
            ("root/good".to_string(), vec![file("kept", 1)]),
        ],
    );
    assert_eq!(
        requests,
        vec!["root".to_string(), "root/bad".to_string(), "root/good".to_string()]
    );
    assert_eq!(names(&emitted), vec!["bad", "good", "kept"]);
}
