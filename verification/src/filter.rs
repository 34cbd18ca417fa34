//! Predicate evaluation: the independent filter dimensions — visibility,
//! entry type, name pattern, size range, modification age — combined by
//! logical AND over one filesystem entry. An absent dimension is vacuously
//! true; evaluation short-circuits on the first failing dimension, cheapest
//! first.

use vstd::prelude::*;
use crate::pattern::Matcher;

verus! {

/// Byte 46: a name beginning with a dot is hidden by convention.
pub const DOT: u8 = 46;

pub const SECONDS_PER_DAY: u64 = 86400;

#[derive(Clone, Copy, Debug, PartialEq, Eq, Structural)]
pub enum EntryKind {
    File,
    Directory,
    Symlink,
}

/// One traversal observation, read once from the filesystem and never
/// mutated: where it sits, what it is, how large, when modified, how deep.
pub struct FsEntry {
    /// Path from the root of the walk, separator-joined.
    pub path: Vec<u8>,
    /// Base name, the last path segment.
    pub name: Vec<u8>,
    pub kind: EntryKind,
    /// Byte size; 0 for directories and symlinks.
    pub size: u64,
    /// Seconds since the epoch; `None` where metadata was unreadable.
    pub modified: Option<u64>,
    /// Distance from the root; the root's own children sit at depth 1.
    pub depth: usize,
}

/// Immutable configuration of one search, built once before traversal.
/// Every present dimension must pass for an entry to match.
pub struct FilterSpec {
    pub type_filter: Option<EntryKind>,
    pub min_size: Option<u64>,
    pub max_size: Option<u64>,
    /// An entry matches when it was modified within the last N days.
    pub max_age_days: Option<u64>,
    pub include_hidden: bool,
    pub recursive: bool,
    pub max_depth: Option<usize>,
    pub follow_symlinks: bool,
}

pub open spec fn is_hidden_name(name: Seq<u8>) -> bool {
    name.len() > 0 && name[0] == DOT
}

/// Visibility dimension: hidden entries pass only when asked for.
pub open spec fn hidden_ok(e: FsEntry, f: FilterSpec) -> bool {
    f.include_hidden || !is_hidden_name(e.name@)
}

/// Type dimension.
pub open spec fn type_ok(e: FsEntry, f: FilterSpec) -> bool {
    match f.type_filter {
        Option::None => true,
        Option::Some(k) => e.kind == k,
    }
}

/// Name dimension: the pattern is tested against the base name, or against
/// the whole relative path when the pattern names a separator.
pub open spec fn name_ok(e: FsEntry, m: Matcher) -> bool {
    m.accepts(
        if m.full_path {
            e.path@
        } else {
            e.name@
        },
    )
}

/// Size dimension: inclusive bounds, an unset bound unconstrained.
pub open spec fn size_ok(e: FsEntry, f: FilterSpec) -> bool {
    &&& match f.min_size {
        Option::None => true,
        Option::Some(lo) => e.size >= lo,
    }
    &&& match f.max_size {
        Option::None => true,
        Option::Some(hi) => e.size <= hi,
    }
}

/// Age dimension: modified within the last N days of `now`; an entry whose
/// modification time could not be read does not match.
pub open spec fn age_ok(e: FsEntry, f: FilterSpec, now: u64) -> bool {
    match f.max_age_days {
        Option::None => true,
        Option::Some(d) => e.modified is Some && now - e.modified.unwrap() <= d
            * (SECONDS_PER_DAY as int),
    }
}

/// All configured dimensions at once.
pub open spec fn entry_matches(e: FsEntry, f: FilterSpec, m: Matcher, now: u64) -> bool {
    &&& hidden_ok(e, f)
    &&& type_ok(e, f)
    &&& name_ok(e, m)
    &&& size_ok(e, f)
    &&& age_ok(e, f, now)
}

/// Evaluates the predicate set over one entry: true exactly when every
/// configured dimension independently passes, each absent dimension being
/// vacuously true.
pub fn evaluate(e: &FsEntry, f: &FilterSpec, m: &Matcher, now: u64) -> (r: bool)
    requires
        m.wf(),
    ensures
        r == entry_matches(*e, *f, *m, now),
{
    if !f.include_hidden && e.name.len() > 0 && e.name[0] == DOT {
        return false;
    }
    match f.type_filter {
        Option::Some(k) => {
            if k != e.kind {
                return false;
            }
        },
        Option::None => {},
    }
    let text = if m.full_path {
        e.path.as_slice()
    } else {
        e.name.as_slice()
    };
    if !m.matches(text) {
        return false;
    }
    match f.min_size {
        Option::Some(lo) => {
            if e.size < lo {
                return false;
            }
        },
        Option::None => {},
    }
    match f.max_size {
        Option::Some(hi) => {
            if e.size > hi {
                return false;
            }
        },
        Option::None => {},
    }
    match f.max_age_days {
        Option::Some(d) => {
            match e.modified {
                Option::Some(m_secs) => {
                    if m_secs >= now {
                        // A timestamp at or past `now` lies within any window.
                        true
                    } else {
                        let age = now - m_secs;
                        match d.checked_mul(SECONDS_PER_DAY) {
                            Option::Some(window) => age <= window,
                            // The window exceeds u64::MAX seconds, so any age fits.
                            Option::None => true,
                        }
                    }
                },
                Option::None => false,
            }
        },
        Option::None => true,
    }
}

} // verus!
