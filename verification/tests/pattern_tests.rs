use ferret::glob::glob_match_bytes;
use ferret::pattern::{Matcher, PatternError, PatternKind};

fn glob(p: &str, ci: bool) -> Matcher {
    Matcher::compile(p.as_bytes(), PatternKind::Glob, ci).unwrap()
}

#[test]
fn star_matches_any_run() {
    let m = glob("*.txt", false);
    assert!(m.matches(b"a.txt"));
    assert!(m.matches(b".txt"));
    assert!(m.matches(b"notes.backup.txt"));
    assert!(!m.matches(b"a.log"));
    assert!(!m.matches(b"a.txt.old"));
}

#[test]
fn question_matches_one_byte() {
    let m = glob("?at", false);
    assert!(m.matches(b"cat"));
    assert!(m.matches(b"bat"));
    assert!(!m.matches(b"at"));
    assert!(!m.matches(b"goat"));
}

#[test]
fn bare_star_matches_everything() {
    let m = glob("*", false);
    assert!(m.matches(b""));
    assert!(m.matches(b".hidden"));
    assert!(m.matches(b"a.txt"));
}

#[test]
fn literal_pattern_is_exact_equality() {
    let m = glob("hello", false);
    assert!(m.matches(b"hello"));
    assert!(!m.matches(b"Hello"));
    assert!(!m.matches(b"hell"));
    assert!(!m.matches(b"helloo"));
}

#[test]
fn case_insensitive_glob() {
    let m = glob("A.TXT", true);
    assert!(m.matches(b"a.txt"));
    assert!(m.matches(b"A.txt"));
    let literal = glob("Hello", true);
    assert!(literal.matches(b"hello"));
    assert!(literal.matches(b"HELLO"));
    assert!(!literal.matches(b"hell"));
}

#[test]
fn separator_selects_full_path_matching() {
    let m = glob("src/*.rs", false);
    assert!(m.full_path);
    let plain = glob("*.rs", false);
    assert!(!plain.full_path);
}

#[test]
fn raw_glob_engine() {
    assert!(glob_match_bytes(b"a*b*c", b"axxbyyc"));
    assert!(glob_match_bytes(b"a*b*c", b"abc"));
    assert!(!glob_match_bytes(b"a*b*c", b"acb"));
    assert!(glob_match_bytes(b"", b""));
    assert!(!glob_match_bytes(b"", b"x"));
    assert!(glob_match_bytes(b"**", b"anything"));
}

#[test]
fn regex_partial_match() {
    let m = Matcher::compile(b"ab+c", PatternKind::Regex, false).unwrap();
    assert!(m.matches(b"xxabbbcyy"));
    assert!(!m.matches(b"ac"));
}

#[test]
fn regex_anchors() {
    let m = Matcher::compile(b"^a.*z$", PatternKind::Regex, false).unwrap();
    assert!(m.matches(b"abcz"));
    assert!(!m.matches(b"xabcz"));
}

#[test]
fn regex_case_insensitive_flag() {
    let m = Matcher::compile(b"abc", PatternKind::Regex, true).unwrap();
    assert!(m.matches(b"xxABCyy"));
    let cs = Matcher::compile(b"abc", PatternKind::Regex, false).unwrap();
    assert!(!cs.matches(b"xxABCyy"));
}

#[test]
fn invalid_regex_fails_at_compile_time() {
    assert_eq!(
        Matcher::compile(b"[", PatternKind::Regex, false).err(),
        Some(PatternError::InvalidPattern)
    );
    assert_eq!(
        Matcher::compile(b"(unclosed", PatternKind::Regex, false).err(),
        Some(PatternError::InvalidPattern)
    );
}
