//! Unix permission bits rendered as text: the ten-character mode column of
//! a long listing, and the spelled-out owner/group/other explanation.

use vstd::prelude::*;

verus! {

/// Byte for `r`, `w` or `x` when the bit is set, `-` (45) otherwise.
pub open spec fn bit_byte(set: bool, letter: u8) -> u8 {
    if set {
        letter
    } else {
        45
    }
}

/// The three permission letters for one class, given its read, write and
/// execute bits.
pub open spec fn triple(r: bool, w: bool, x: bool) -> Seq<u8> {
    seq![bit_byte(r, 114), bit_byte(w, 119), bit_byte(x, 120)]
}

/// The file-type column: `d` for a directory, `l` for a symlink, `-` else.
pub open spec fn type_byte(mode: u32) -> u8 {
    if mode & 0o170000 == 0o040000 {
        100
    } else if mode & 0o170000 == 0o120000 {
        108
    } else {
        45
    }
}

/// The ten-character mode column: type, then owner, group and other bits.
pub open spec fn perm_text(mode: u32) -> Seq<u8> {
    seq![type_byte(mode)] + triple(mode & 0o400 != 0, mode & 0o200 != 0, mode & 0o100 != 0)
        + triple(mode & 0o040 != 0, mode & 0o020 != 0, mode & 0o010 != 0) + triple(
        mode & 0o004 != 0,
        mode & 0o002 != 0,
        mode & 0o001 != 0,
    )
}

/// The spelled-out form: `(owner:rwx, group:rwx, other:rwx)`.
pub open spec fn perm_explanation(mode: u32) -> Seq<u8> {
    seq![40u8, 111u8, 119u8, 110u8, 101u8, 114u8, 58u8]  // (owner:
     + triple(mode & 0o400 != 0, mode & 0o200 != 0, mode & 0o100 != 0) + seq![
        44u8,
        32u8,
        103u8,
        114u8,
        111u8,
        117u8,
        112u8,
        58u8,
    ]  // , group:
     + triple(mode & 0o040 != 0, mode & 0o020 != 0, mode & 0o010 != 0) + seq![
        44u8,
        32u8,
        111u8,
        116u8,
        104u8,
        101u8,
        114u8,
        58u8,
    ]  // , other:
     + triple(mode & 0o004 != 0, mode & 0o002 != 0, mode & 0o001 != 0) + seq![41u8]  // )
}

fn push_triple(out: &mut Vec<u8>, r: bool, w: bool, x: bool)
    ensures
        final(out)@ == old(out)@ + triple(r, w, x),
{
    let ghost o0 = out@;
    out.push(if r { 114 } else { 45 });
    out.push(if w { 119 } else { 45 });
    out.push(if x { 120 } else { 45 });
    proof {
        assert(out@ =~= o0 + triple(r, w, x));
    }
}

/// The mode column of a long listing entry.
pub fn format_permissions(mode: u32) -> (r: Vec<u8>)
    ensures
        r@ == perm_text(mode),
{
    let mut out: Vec<u8> = Vec::new();
    let t: u8 = if mode & 0o170000 == 0o040000 {
        100
    } else if mode & 0o170000 == 0o120000 {
        108
    } else {
        45
    };
    out.push(t);
    push_triple(&mut out, mode & 0o400 != 0, mode & 0o200 != 0, mode & 0o100 != 0);
    push_triple(&mut out, mode & 0o040 != 0, mode & 0o020 != 0, mode & 0o010 != 0);
    push_triple(&mut out, mode & 0o004 != 0, mode & 0o002 != 0, mode & 0o001 != 0);
    proof {
        assert(out@ =~= perm_text(mode));
    }
    out
}

/// The spelled-out owner/group/other explanation of a mode.
#[verifier::rlimit(100)]
pub fn explain_permissions(mode: u32) -> (r: Vec<u8>)
    ensures
        r@ == perm_explanation(mode),
{
    let mut out: Vec<u8> = Vec::new();
    out.push(40);
    out.push(111);
    out.push(119);
    out.push(110);
    out.push(101);
    out.push(114);
    out.push(58);
    proof {
        assert(out@ =~= seq![40u8, 111u8, 119u8, 110u8, 101u8, 114u8, 58u8]);
    }
    push_triple(&mut out, mode & 0o400 != 0, mode & 0o200 != 0, mode & 0o100 != 0);
    let ghost s1 = out@;
    out.push(44);
    out.push(32);
    out.push(103);
    out.push(114);
    out.push(111);
    out.push(117);
    out.push(112);
    out.push(58);
    proof {
        assert(out@ =~= s1 + seq![44u8, 32u8, 103u8, 114u8, 111u8, 117u8, 112u8, 58u8]);
    }
    push_triple(&mut out, mode & 0o040 != 0, mode & 0o020 != 0, mode & 0o010 != 0);
    let ghost s2 = out@;
    out.push(44);
    out.push(32);
    out.push(111);
    out.push(116);
    out.push(104);
    out.push(101);
    out.push(114);
    out.push(58);
    proof {
        assert(out@ =~= s2 + seq![44u8, 32u8, 111u8, 116u8, 104u8, 101u8, 114u8, 58u8]);
    }
    push_triple(&mut out, mode & 0o004 != 0, mode & 0o002 != 0, mode & 0o001 != 0);
    out.push(41);
    proof {
        assert(out@ =~= perm_explanation(mode));
    }
    out
}

} // verus!
