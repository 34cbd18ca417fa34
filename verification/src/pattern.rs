//! Pattern compilation: a search pattern is resolved once into a `Matcher`,
//! either shell-style glob or full regular expression, case-sensitive or
//! case-insensitive. An invalid expression fails here, before any traversal.

use vstd::prelude::*;
use crate::glob::glob_match;
use crate::glob::glob_match_bytes;
use crate::glob::STAR;
use crate::glob::QMARK;
use crate::text::lower_seq;
use crate::text::to_lower_bytes;
use crate::text::contains_byte;
use crate::text::copy_bytes;

verus! {

/// Byte 47, the path separator: a pattern that names one is tested against
/// the whole relative path instead of the base name.
pub const SEPARATOR: u8 = 47;

/// Whether a byte sequence compiles as a regular expression. Only the
/// regular-expression engine defines this; nothing more is assumed of it.
pub uninterp spec fn regex_valid(pat: Seq<u8>) -> bool;

/// Whether a regular expression matches somewhere inside a text. The result
/// depends on the pattern and the text alone.
pub uninterp spec fn regex_accepts(pat: Seq<u8>, text: Seq<u8>) -> bool;

/// Relies on regex::bytes::Regex::new: `Ok` exactly on well-formed
/// expressions (a pattern that is not valid UTF-8 is not one).
#[verifier::external_body]
fn regex_compiles(pat: &[u8]) -> (r: bool)
    ensures
        r == regex_valid(pat@),
{
    match core::str::from_utf8(pat) {
        Ok(p) => regex::bytes::Regex::new(p).is_ok(),
        Err(_) => false,
    }
}

/// Relies on regex::bytes::Regex::new and Regex::is_match: whether the
/// expression matches somewhere in the text; the answer is a function of the
/// expression and the text alone.
#[verifier::external_body]
fn regex_match(pat: &[u8], text: &[u8]) -> (r: bool)
    requires
        regex_valid(pat@),
    ensures
        r == regex_accepts(pat@, text@),
{
    let p = core::str::from_utf8(pat).unwrap();
    regex::bytes::Regex::new(p).unwrap().is_match(text)
}

#[derive(Clone, Copy, Debug, PartialEq, Eq, Structural)]
pub enum PatternKind {
    Glob,
    Regex,
}

#[derive(Clone, Copy, Debug, PartialEq, Eq, Structural)]
pub enum PatternError {
    InvalidPattern,
}

/// The expression handed to the regular-expression engine: the pattern
/// itself, under an inline case-fold flag `(?i)` when case-insensitive.
pub open spec fn regex_effective(pat: Seq<u8>, case_insensitive: bool) -> Seq<u8> {
    if case_insensitive {
        seq![40u8, 63u8, 105u8, 41u8] + pat
    } else {
        pat
    }
}

/// A compiled pattern: one capability, `matches`, resolved from the kind and
/// the case policy at compilation time.
pub struct Matcher {
    pub kind: PatternKind,
    /// Glob: the pattern, case-folded when insensitive. Regex: the effective
    /// expression, flag included.
    pub pattern: Vec<u8>,
    pub case_insensitive: bool,
    /// The pattern names a path separator, so it is tested against the whole
    /// relative path rather than the base name.
    pub full_path: bool,
}

impl Matcher {
    /// A matcher in regex mode holds an expression the engine accepts.
    pub open spec fn wf(self) -> bool {
        self.kind is Regex ==> regex_valid(self.pattern@)
    }

    /// What `matches` decides for a given text.
    pub open spec fn accepts(self, text: Seq<u8>) -> bool {
        match self.kind {
            PatternKind::Glob => glob_match(
                self.pattern@,
                if self.case_insensitive {
                    lower_seq(text)
                } else {
                    text
                },
            ),
            PatternKind::Regex => regex_accepts(self.pattern@, text),
        }
    }

    /// Compiles a pattern. Glob compilation always succeeds; regex
    /// compilation succeeds exactly when the engine accepts the effective
    /// expression. Failure happens here, never per entry.
    pub fn compile(pattern: &[u8], kind: PatternKind, case_insensitive: bool) -> (r: Result<
        Matcher,
        PatternError,
    >)
        ensures
            kind is Glob ==> r is Ok,
            kind is Regex ==> (r is Ok <==> regex_valid(regex_effective(pattern@, case_insensitive))),
            r is Ok ==> {
                let m = r.unwrap();
                &&& m.wf()
                &&& m.kind == kind
                &&& m.case_insensitive == case_insensitive
                &&& m.full_path == pattern@.contains(SEPARATOR)
                &&& (kind is Glob ==> m.pattern@ == (if case_insensitive {
                    lower_seq(pattern@)
                } else {
                    pattern@
                }))
                &&& (kind is Regex ==> m.pattern@ == regex_effective(pattern@, case_insensitive))
            },
    {
        let full_path = contains_byte(pattern, SEPARATOR);
        match kind {
            PatternKind::Glob => {
                let stored: Vec<u8> = if case_insensitive {
                    to_lower_bytes(pattern)
                } else {
                    copy_bytes(pattern)
                };
                Ok(Matcher { kind, pattern: stored, case_insensitive, full_path })
            },
            PatternKind::Regex => {
                let mut stored: Vec<u8> = Vec::new();
                if case_insensitive {
                    stored.push(40);
                    stored.push(63);
                    stored.push(105);
                    stored.push(41);
                }
                let mut i: usize = 0;
                while i < pattern.len()
                    invariant
                        i <= pattern@.len(),
                        stored@ == regex_effective(pattern@.take(i as int), case_insensitive),
                    decreases pattern@.len() - i,
                {
                    stored.push(pattern[i]);
                    proof {
                        assert(regex_effective(pattern@.take(i as int + 1), case_insensitive)
                            =~= regex_effective(pattern@.take(i as int), case_insensitive).push(
                            pattern@[i as int],
                        ));
                    }
                    i += 1;
                }
                proof {
                    assert(pattern@.take(pattern@.len() as int) =~= pattern@);
                }
                if regex_compiles(stored.as_slice()) {
                    Ok(Matcher { kind, pattern: stored, case_insensitive, full_path })
                } else {
                    Err(PatternError::InvalidPattern)
                }
            },
        }
    }

    /// Tests a text against the compiled pattern.
    pub fn matches(&self, text: &[u8]) -> (r: bool)
        requires
            self.wf(),
        ensures
            r == self.accepts(text@),
    {
        match self.kind {
            PatternKind::Glob => {
                if self.case_insensitive {
                    let folded = to_lower_bytes(text);
                    glob_match_bytes(self.pattern.as_slice(), folded.as_slice())
                } else {
                    glob_match_bytes(self.pattern.as_slice(), text)
                }
            },
            PatternKind::Regex => regex_match(self.pattern.as_slice(), text),
        }
    }
}

/// A glob pattern without wildcards tests as plain equality against the
/// text: exactly, or up to case folding when the matcher is
/// case-insensitive.
pub proof fn lemma_literal_glob_is_equality(m: Matcher, text: Seq<u8>)
    requires
        m.kind is Glob,
        forall|i: int| 0 <= i < m.pattern@.len() ==> m.pattern@[i] != STAR && m.pattern@[i] != QMARK,
    ensures
        m.accepts(text) <==> m.pattern@ == (if m.case_insensitive {
            lower_seq(text)
        } else {
            text
        }),
{
    if m.case_insensitive {
        crate::glob::lemma_glob_literal_exact(m.pattern@, lower_seq(text));
    } else {
        crate::glob::lemma_glob_literal_exact(m.pattern@, text);
    }
}

} // verus!
