use ferret::filter::{EntryKind, FsEntry};
use ferret::sink::{build_command, render_line, ActionLog, ActionOutcome, OutputMode};

fn sample() -> FsEntry {
    FsEntry {
        path: b"root/a.txt".to_vec(),
        name: b"a.txt".to_vec(),
        kind: EntryKind::File,
        size: 2000,
        modified: Some(1234),
        depth: 1,
    }
}

#[test]
fn default_and_quiet_render_the_bare_path() {
    let e = sample();
    assert_eq!(render_line(&e, OutputMode::Default), b"root/a.txt".to_vec());
    assert_eq!(render_line(&e, OutputMode::Quiet), b"root/a.txt".to_vec());
}

#[test]
fn verbose_renders_path_size_kind_mtime() {
    let e = sample();
    assert_eq!(
        String::from_utf8(render_line(&e, OutputMode::Verbose)).unwrap(),
        "root/a.txt  2000  file  1234"
    );
    let mut d = sample();
    d.kind = EntryKind::Directory;
    d.size = 0;
    d.modified = None;
    assert_eq!(
        String::from_utf8(render_line(&d, OutputMode::Verbose)).unwrap(),
        "root/a.txt  0  dir  -"
    );
}

#[test]
fn detailed_renders_one_record_per_match() {
    let e = sample();
    assert_eq!(
        String::from_utf8(render_line(&e, OutputMode::Detailed)).unwrap(),
        r#"{"path":"root/a.txt","size":2000,"type":"file","modified":1234}"#
    );
    let mut s = sample();
    s.kind = EntryKind::Symlink;
    s.modified = None;
    assert_eq!(
        String::from_utf8(render_line(&s, OutputMode::Detailed)).unwrap(),
        r#"{"path":"root/a.txt","size":2000,"type":"symlink","modified":null}"#
    );
}

#[test]
fn detailed_escapes_special_bytes_in_paths() {
    let mut e = sample();
    e.path = b"we\"ird\\name\n".to_vec();
    let line = String::from_utf8(render_line(&e, OutputMode::Detailed)).unwrap();
    assert!(line.starts_with(r#"{"path":"we\"ird\\name\u000a","#));
}

#[test]
fn placeholder_substituted_everywhere() {
    assert_eq!(
        build_command(b"echo {}", b"root/a.txt"),
        b"echo root/a.txt".to_vec()
    );
    assert_eq!(
        build_command(b"cp {} {}.bak", b"f"),
        b"cp f f.bak".to_vec()
    );
}

#[test]
fn no_placeholder_appends_the_path() {
    assert_eq!(build_command(b"wc -c", b"root/a.txt"), b"wc -c root/a.txt".to_vec());
}

#[test]
fn three_matches_three_outcomes_in_traversal_order() {
    // Action mode over three matches: each spawned in traversal order, each
    // outcome attributed to exactly one match; the failing middle one stops
    // nothing.
    let matches = [b"root/a".to_vec(), b"root/b".to_vec(), b"root/c".to_vec()];
    let mut log = ActionLog::new();
    let mut commands = Vec::new();
    for (i, path) in matches.iter().enumerate() {
        commands.push(build_command(b"echo {}", path));
        let outcome = if i == 1 {
            ActionOutcome::SpawnFailed
        } else {
            ActionOutcome::Exited(0)
        };
        log.record(outcome);
    }
    assert_eq!(
        commands,
        vec![
            b"echo root/a".to_vec(),
            b"echo root/b".to_vec(),
            b"echo root/c".to_vec()
        ]
    );
    assert_eq!(log.len(), 3);
    assert_eq!(log.failed(), 1);
    assert_eq!(
        log.outcomes,
        vec![
            ActionOutcome::Exited(0),
            ActionOutcome::SpawnFailed,
            ActionOutcome::Exited(0)
        ]
    );
}

#[test]
fn nonzero_exits_count_as_failures() {
    let mut log = ActionLog::new();
    log.record(ActionOutcome::Exited(0));
    log.record(ActionOutcome::Exited(2));
    log.record(ActionOutcome::SpawnFailed);
    assert_eq!(log.failed(), 2);
}
