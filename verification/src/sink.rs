//! The result sink's computations: one rendered line or record per match
//! (bare path, verbose, or a machine-readable record), and for action mode
//! the command line with the match's path put in for the placeholder, plus
//! the log that attributes one outcome to each acted-on match.

use vstd::prelude::*;
use crate::filter::EntryKind;
use crate::filter::FsEntry;
use crate::text::dec_rep;
use crate::text::u64_to_dec;

verus! {

/// Byte 32, the space that separates the fields of a verbose line.
pub const SPACE: u8 = 32;

#[derive(Clone, Copy, Debug, PartialEq, Eq, Structural)]
pub enum OutputMode {
    /// Bare path per line.
    Default,
    /// Bare path, suppressing any decoration.
    Quiet,
    /// Path, size, kind and modification time.
    Verbose,
    /// One machine-readable record per match.
    Detailed,
}

/// The kind names used by the verbose line and the structured record.
pub open spec fn kind_text(k: EntryKind) -> Seq<u8> {
    match k {
        EntryKind::File => seq![102u8, 105u8, 108u8, 101u8],  // file
        EntryKind::Directory => seq![100u8, 105u8, 114u8],  // dir
        EntryKind::Symlink => seq![115u8, 121u8, 109u8, 108u8, 105u8, 110u8, 107u8],  // symlink
    }
}

/// A modification time as decimal seconds, or a dash where it was
/// unreadable.
pub open spec fn mtime_text(m: Option<u64>) -> Seq<u8> {
    match m {
        Option::Some(t) => dec_rep(t as nat),
        Option::None => seq![45u8],
    }
}

/// The verbose line: path, size, kind and modification time, two spaces
/// between fields.
pub open spec fn verbose_line(e: FsEntry) -> Seq<u8> {
    e.path@ + seq![SPACE, SPACE] + dec_rep(e.size as nat) + seq![SPACE, SPACE] + kind_text(e.kind)
        + seq![SPACE, SPACE] + mtime_text(e.modified)
}

/// Lower-case hex digit of a value below 16.
pub open spec fn hex_digit(n: u8) -> u8 {
    if n < 10 {
        (48 + n) as u8
    } else {
        (87 + n) as u8
    }
}

/// How one byte appears inside a quoted record field: quote and backslash
/// are escaped, control bytes become `\u00XX`, anything else stands as is.
pub open spec fn esc_byte(b: u8) -> Seq<u8> {
    if b == 34 {
        seq![92u8, 34u8]
    } else if b == 92 {
        seq![92u8, 92u8]
    } else if b < 32 {
        seq![92u8, 117u8, 48u8, 48u8, hex_digit(b / 16), hex_digit(b % 16)]
    } else {
        seq![b]
    }
}

/// The first `i` bytes of `s`, escaped for a quoted record field.
pub open spec fn esc_upto(s: Seq<u8>, i: int) -> Seq<u8>
    decreases i,
{
    if i <= 0 {
        Seq::empty()
    } else {
        esc_upto(s, i - 1) + esc_byte(s[i - 1])
    }
}

pub open spec fn json_escaped(s: Seq<u8>) -> Seq<u8> {
    esc_upto(s, s.len() as int)
}

// The fixed pieces of the structured record.
pub open spec fn lit_path_open() -> Seq<u8> {
    seq![123u8, 34u8, 112u8, 97u8, 116u8, 104u8, 34u8, 58u8, 34u8]  // {"path":"
}

pub open spec fn lit_size() -> Seq<u8> {
    seq![34u8, 44u8, 34u8, 115u8, 105u8, 122u8, 101u8, 34u8, 58u8]  // ","size":
}

pub open spec fn lit_type() -> Seq<u8> {
    seq![44u8, 34u8, 116u8, 121u8, 112u8, 101u8, 34u8, 58u8, 34u8]  // ,"type":"
}

pub open spec fn lit_modified() -> Seq<u8> {
    seq![34u8, 44u8, 34u8, 109u8, 111u8, 100u8, 105u8, 102u8, 105u8, 101u8, 100u8, 34u8, 58u8]  // ","modified":
}

/// A modification time in the record: decimal seconds, or `null`.
pub open spec fn mtime_json(m: Option<u64>) -> Seq<u8> {
    match m {
        Option::Some(t) => dec_rep(t as nat),
        Option::None => seq![110u8, 117u8, 108u8, 108u8],  // null
    }
}

/// The structured record: path (escaped), size in bytes, entry kind and
/// modification timestamp, one self-describing record per match.
pub open spec fn detailed_record(e: FsEntry) -> Seq<u8> {
    lit_path_open() + json_escaped(e.path@) + lit_size() + dec_rep(e.size as nat) + lit_type()
        + kind_text(e.kind) + lit_modified() + mtime_json(e.modified) + seq![125u8]  // }
}

/// What one match renders as under each output mode.
pub open spec fn rendered(e: FsEntry, mode: OutputMode) -> Seq<u8> {
    match mode {
        OutputMode::Default => e.path@,
        OutputMode::Quiet => e.path@,
        OutputMode::Verbose => verbose_line(e),
        OutputMode::Detailed => detailed_record(e),
    }
}

fn push_kind(out: &mut Vec<u8>, k: EntryKind)
    ensures
        final(out)@ == old(out)@ + kind_text(k),
{
    let ghost o0 = out@;
    match k {
        EntryKind::File => {
            out.push(102);
            out.push(105);
            out.push(108);
            out.push(101);
        },
        EntryKind::Directory => {
            out.push(100);
            out.push(105);
            out.push(114);
        },
        EntryKind::Symlink => {
            out.push(115);
            out.push(121);
            out.push(109);
            out.push(108);
            out.push(105);
            out.push(110);
            out.push(107);
        },
    }
    proof {
        assert(out@ =~= o0 + kind_text(k));
    }
}

fn push_dec(out: &mut Vec<u8>, n: u64)
    ensures
        final(out)@ == old(out)@ + dec_rep(n as nat),
{
    let ghost o0 = out@;
    let digits = u64_to_dec(n);
    out.extend_from_slice(digits.as_slice());
    proof {
        assert(out@ =~= o0 + dec_rep(n as nat));
    }
}

fn push_escaped(out: &mut Vec<u8>, s: &[u8])
    ensures
        final(out)@ == old(out)@ + json_escaped(s@),
{
    let ghost o0 = out@;
    let mut i: usize = 0;
    while i < s.len()
        invariant
            i <= s@.len(),
            out@ == o0 + esc_upto(s@, i as int),
        decreases s@.len() - i,
    {
        let ghost before = out@;
        let b = s[i];
        if b == 34 {
            out.push(92);
            out.push(34);
        } else if b == 92 {
            out.push(92);
            out.push(92);
        } else if b < 32 {
            out.push(92);
            out.push(117);
            out.push(48);
            out.push(48);
            let hi = b / 16;
            let lo = b % 16;
            out.push(if hi < 10 { 48 + hi } else { 87 + hi });
            out.push(if lo < 10 { 48 + lo } else { 87 + lo });
        } else {
            out.push(b);
        }
        proof {
            assert(out@ =~= before + esc_byte(s@[i as int]));
            assert(esc_upto(s@, i as int + 1) == esc_upto(s@, i as int) + esc_byte(s@[i as int]));
            assert(out@ =~= o0 + esc_upto(s@, i as int + 1));
        }
        i += 1;
    }
}

/// Renders one match under the selected output mode: exactly one line or
/// record per match, nothing else.
#[verifier::rlimit(50)]
pub fn render_line(e: &FsEntry, mode: OutputMode) -> (r: Vec<u8>)
    ensures
        r@ == rendered(*e, mode),
{
    match mode {
        OutputMode::Default => crate::text::copy_bytes(e.path.as_slice()),
        OutputMode::Quiet => crate::text::copy_bytes(e.path.as_slice()),
        OutputMode::Verbose => {
            let mut out = crate::text::copy_bytes(e.path.as_slice());
            out.push(SPACE);
            out.push(SPACE);
            push_dec(&mut out, e.size);
            out.push(SPACE);
            out.push(SPACE);
            push_kind(&mut out, e.kind);
            out.push(SPACE);
            out.push(SPACE);
            match e.modified {
                Option::Some(t) => push_dec(&mut out, t),
                Option::None => out.push(45),
            }
            proof {
                assert(out@ =~= verbose_line(*e));
            }
            out
        },
        OutputMode::Detailed => {
            let mut out: Vec<u8> = Vec::new();
            out.push(123);
            out.push(34);
            out.push(112);
            out.push(97);
            out.push(116);
            out.push(104);
            out.push(34);
            out.push(58);
            out.push(34);
            proof {
                assert(out@ =~= lit_path_open());
            }
            push_escaped(&mut out, e.path.as_slice());
            out.push(34);
            out.push(44);
            out.push(34);
            out.push(115);
            out.push(105);
            out.push(122);
            out.push(101);
            out.push(34);
            out.push(58);
            proof {
                assert(out@ =~= lit_path_open() + json_escaped(e.path@) + lit_size());
            }
            push_dec(&mut out, e.size);
            out.push(44);
            out.push(34);
            out.push(116);
            out.push(121);
            out.push(112);
            out.push(101);
            out.push(34);
            out.push(58);
            out.push(34);
            proof {
                assert(out@ =~= lit_path_open() + json_escaped(e.path@) + lit_size() + dec_rep(
                    e.size as nat,
                ) + lit_type());
            }
            push_kind(&mut out, e.kind);
            out.push(34);
            out.push(44);
            out.push(34);
            out.push(109);
            out.push(111);
            out.push(100);
            out.push(105);
            out.push(102);
            out.push(105);
            out.push(101);
            out.push(100);
            out.push(34);
            out.push(58);
            proof {
                assert(out@ =~= lit_path_open() + json_escaped(e.path@) + lit_size() + dec_rep(
                    e.size as nat,
                ) + lit_type() + kind_text(e.kind) + lit_modified());
            }
            match e.modified {
                Option::Some(t) => push_dec(&mut out, t),
                Option::None => {
                    out.push(110);
                    out.push(117);
                    out.push(108);
                    out.push(108);
                },
            }
            out.push(125);
            proof {
                assert(out@ =~= detailed_record(*e));
            }
            out
        },
    }
}

/// Whether the command template names the placeholder `{}` anywhere.
pub open spec fn has_placeholder(t: Seq<u8>) -> bool {
    exists|i: int| 0 <= i && i + 1 < t.len() && #[trigger] t[i] == 123 && t[i + 1] == 125
}

/// The template from position `i` on, with every `{}` replaced by the path.
pub open spec fn subst_from(t: Seq<u8>, i: int, path: Seq<u8>) -> Seq<u8>
    decreases t.len() - i,
{
    if i < 0 || i >= t.len() {
        Seq::empty()
    } else if i + 1 < t.len() && t[i] == 123 && t[i + 1] == 125 {
        path + subst_from(t, i + 2, path)
    } else {
        seq![t[i]] + subst_from(t, i + 1, path)
    }
}

pub open spec fn substituted(t: Seq<u8>, path: Seq<u8>) -> Seq<u8> {
    subst_from(t, 0, path)
}

/// The command line run for one match: the template with the path put in
/// for every placeholder; a template without a placeholder gets the path
/// appended as a final argument, one space between.
pub open spec fn command_line(t: Seq<u8>, path: Seq<u8>) -> Seq<u8> {
    if has_placeholder(t) {
        substituted(t, path)
    } else {
        t + seq![SPACE] + path
    }
}

/// Builds the action command line for one match.
pub fn build_command(template: &[u8], path: &[u8]) -> (r: Vec<u8>)
    ensures
        r@ == command_line(template@, path@),
{
    let mut found = false;
    let mut i: usize = 0;
    while !found && i + 1 < template.len()
        invariant
            i <= template@.len(),
            i < usize::MAX,
            found ==> has_placeholder(template@),
            !found ==> forall|j: int|
                0 <= j < i ==> !(#[trigger] template@[j] == 123 && j + 1 < template@.len()
                    && template@[j + 1] == 125),
        decreases template@.len() - i,
    {
        if template[i] == 123 && template[i + 1] == 125 {
            found = true;
        }
        i += 1;
    }
    if !found {
        let mut out = crate::text::copy_bytes(template);
        out.push(SPACE);
        out.extend_from_slice(path);
        proof {
            assert(!has_placeholder(template@));
            assert(out@ =~= command_line(template@, path@));
        }
        return out;
    }
    proof {
        assert(has_placeholder(template@));
    }
    let mut out: Vec<u8> = Vec::new();
    let mut k: usize = 0;
    while k < template.len()
        invariant
            k <= template@.len(),
            substituted(template@, path@) == out@ + subst_from(template@, k as int, path@),
        decreases template@.len() - k,
    {
        let ghost before = out@;
        if k + 1 < template.len() && template[k] == 123 && template[k + 1] == 125 {
            out.extend_from_slice(path);
            proof {
                assert(subst_from(template@, k as int, path@) == path@ + subst_from(template@,
                    k as int + 2, path@));
                assert(out@ + subst_from(template@, k as int + 2, path@) =~= before + subst_from(
                    template@,
                    k as int,
                    path@,
                ));
            }
            k += 2;
        } else {
            out.push(template[k]);
            proof {
                assert(subst_from(template@, k as int, path@) == seq![template@[k as int]]
                    + subst_from(template@, k as int + 1, path@));
                assert(out@ + subst_from(template@, k as int + 1, path@) =~= before + subst_from(
                    template@,
                    k as int,
                    path@,
                ));
            }
            k += 1;
        }
    }
    proof {
        assert(subst_from(template@, template@.len() as int, path@) == Seq::<u8>::empty());
        assert(out@ + Seq::<u8>::empty() =~= out@);
    }
    out
}

/// What one match's action came to: the spawned command's exit code, or a
/// spawn failure (command not found, permission denied).
#[derive(Clone, Copy, Debug, PartialEq, Eq, Structural)]
pub enum ActionOutcome {
    Exited(i32),
    SpawnFailed,
}

/// An outcome that counts as a failure for reporting: a spawn failure or a
/// non-zero exit.
pub open spec fn is_failure(o: ActionOutcome) -> bool {
    match o {
        ActionOutcome::Exited(c) => c != 0,
        ActionOutcome::SpawnFailed => true,
    }
}

/// Failures among the first `i` outcomes.
pub open spec fn failures_upto(s: Seq<ActionOutcome>, i: int) -> int
    decreases i,
{
    if i <= 0 {
        0
    } else {
        failures_upto(s, i - 1) + if is_failure(s[i - 1]) {
            1int
        } else {
            0int
        }
    }
}

/// The action record of one scan: exactly one outcome per acted-on match,
/// in traversal order. A failure is recorded and aborts nothing.
pub struct ActionLog {
    pub outcomes: Vec<ActionOutcome>,
}

impl ActionLog {
    pub fn new() -> (r: ActionLog)
        ensures
            r.outcomes@ == Seq::<ActionOutcome>::empty(),
    {
        ActionLog { outcomes: Vec::new() }
    }

    /// Attributes one outcome to exactly one match, after the ones already
    /// recorded.
    pub fn record(&mut self, o: ActionOutcome)
        ensures
            final(self).outcomes@ == old(self).outcomes@.push(o),
    {
        self.outcomes.push(o);
    }

    pub fn len(&self) -> (r: usize)
        ensures
            r == self.outcomes@.len(),
    {
        self.outcomes.len()
    }

    /// How many recorded actions failed.
    pub fn failed(&self) -> (r: usize)
        ensures
            r as int == failures_upto(self.outcomes@, self.outcomes@.len() as int),
    {
        let mut count: usize = 0;
        let mut i: usize = 0;
        while i < self.outcomes.len()
            invariant
                i <= self.outcomes@.len(),
                count as int == failures_upto(self.outcomes@, i as int),
                count <= i,
            decreases self.outcomes@.len() - i,
        {
            let fail = match self.outcomes[i] {
                ActionOutcome::Exited(c) => c != 0,
                ActionOutcome::SpawnFailed => true,
            };
            if fail {
                count += 1;
            }
            i += 1;
        }
        count
    }
}

} // verus!
