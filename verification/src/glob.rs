//! Shell-style wildcard matching on bytes: `*` (byte 42) matches any run of
//! bytes, `?` (byte 63) matches exactly one byte, any other byte matches
//! itself. A pattern matches only the whole text.

use vstd::prelude::*;

verus! {

pub const STAR: u8 = 42;

pub const QMARK: u8 = 63;

/// Whether the glob pattern `p` matches the whole text `t`.
pub open spec fn glob_match(p: Seq<u8>, t: Seq<u8>) -> bool
    decreases p.len(), t.len(),
{
    if p.len() == 0 {
        t.len() == 0
    } else if p[0] == STAR {
        glob_match(p.skip(1), t) || (t.len() > 0 && glob_match(p, t.skip(1)))
    } else if p[0] == QMARK {
        t.len() > 0 && glob_match(p.skip(1), t.skip(1))
    } else {
        t.len() > 0 && t[0] == p[0] && glob_match(p.skip(1), t.skip(1))
    }
}

/// A pattern with neither `*` nor `?` matches exactly one text: itself.
pub proof fn lemma_glob_literal_exact(p: Seq<u8>, t: Seq<u8>)
    requires
        forall|i: int| 0 <= i < p.len() ==> p[i] != STAR && p[i] != QMARK,
    ensures
        glob_match(p, t) <==> p == t,
    decreases p.len(),
{
    if p.len() == 0 {
        if t.len() == 0 {
            assert(p =~= t);
        }
    } else {
        assert(forall|i: int|
            0 <= i < p.skip(1).len() ==> p.skip(1)[i] != STAR && p.skip(1)[i] != QMARK);
        lemma_glob_literal_exact(p.skip(1), t.skip(1));
        if t.len() > 0 && t[0] == p[0] && p.skip(1) == t.skip(1) {
            assert(forall|i: int| 1 <= i < p.len() ==> p[i] == p.skip(1)[i - 1]);
            assert(forall|i: int| 1 <= i < t.len() ==> t[i] == t.skip(1)[i - 1]);
            assert(p =~= t);
        }
        if p == t {
            assert(p.skip(1) =~= t.skip(1));
        }
    }
}

/// Decides `glob_match` by filling a table over the suffixes of the pattern
/// and of the text, last row first.
pub fn glob_match_bytes(p: &[u8], t: &[u8]) -> (r: bool)
    ensures
        r == glob_match(p@, t@),
{
    let pl = p.len();
    let tl = t.len();
    // Row for the empty pattern suffix: cell k answers for the text suffix
    // of length k.
    let mut below: Vec<bool> = Vec::new();
    let mut k: usize = 0;
    while k <= tl
        invariant
            k <= tl + 1,
            tl == t@.len(),
            pl == p@.len(),
            below@.len() == k,
            forall|x: int|
                0 <= x < k ==> below@[x] == glob_match(p@.skip(pl as int), t@.skip(tl - x)),
        decreases tl + 1 - k,
    {
        let v = k == 0;
        proof {
            assert(p@.skip(pl as int).len() == 0);
            assert(t@.skip(tl - k as int).len() == k as int);
        }
        below.push(v);
        k = below.len();
    }

    let mut i: usize = pl;
    while i > 0
        invariant
            i <= pl,
            tl == t@.len(),
            pl == p@.len(),
            below@.len() == tl + 1,
            forall|x: int|
                0 <= x <= tl ==> below@[x] == glob_match(p@.skip(i as int), t@.skip(tl - x)),
        decreases i,
    {
        let pi = p[i - 1];
        let mut cur: Vec<bool> = Vec::new();
        let mut k: usize = 0;
        while k <= tl
            invariant
                k <= tl + 1,
                0 < i <= pl,
                tl == t@.len(),
                pl == p@.len(),
                pi == p@[i - 1],
                below@.len() == tl + 1,
                forall|x: int|
                    0 <= x <= tl ==> below@[x] == glob_match(p@.skip(i as int), t@.skip(tl - x)),
                cur@.len() == k,
                forall|x: int|
                    0 <= x < k ==> cur@[x] == glob_match(p@.skip(i as int - 1), t@.skip(tl - x)),
            decreases tl + 1 - k,
        {
            let v: bool = if pi == STAR {
                below[k] || (k > 0 && cur[k - 1])
            } else if pi == QMARK {
                k > 0 && below[k - 1]
            } else {
                k > 0 && t[tl - k] == pi && below[k - 1]
            };
            proof {
                let pp = p@.skip(i as int - 1);
                let tt = t@.skip(tl - k as int);
                assert(pp.len() == pl - i + 1);
                assert(tt.len() == k as int);
                assert(pp[0] == p@[i - 1]);
                assert(pp.skip(1) =~= p@.skip(i as int));
                if k > 0 {
                    assert(tt[0] == t@[tl - k as int]);
                    assert(tt.skip(1) =~= t@.skip(tl - k as int + 1));
                }
                assert(v == glob_match(pp, tt));
            }
            cur.push(v);
            k = cur.len();
        }
        below = cur;
        i -= 1;
    }
    proof {
        assert(p@.skip(0) =~= p@);
        assert(t@.skip(0) =~= t@);
    }
    below[tl]
}

} // verus!
