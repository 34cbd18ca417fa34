//! Human-friendly size expressions: an unsigned integer with an optional
//! unit suffix `K`/`KB` (×1024), `M`/`MB` (×1024²) or `G`/`GB` (×1024³),
//! case-insensitive. A malformed expression, or one whose byte count does
//! not fit in `u64`, is rejected; nothing is silently truncated.

use vstd::prelude::*;
use crate::text::lower_byte;
use crate::text::to_lower_byte;

verus! {

pub open spec fn is_digit(b: u8) -> bool {
    48 <= b && b <= 57
}

/// Number of leading decimal digits of `s`.
pub open spec fn num_len(s: Seq<u8>) -> int
    decreases s.len(),
{
    if s.len() == 0 || !is_digit(s[0]) {
        0
    } else {
        1 + num_len(s.skip(1))
    }
}

/// Value of a run of decimal digits, most significant first.
pub open spec fn dec_val(s: Seq<u8>) -> nat
    decreases s.len(),
{
    if s.len() == 0 {
        0
    } else {
        dec_val(s.drop_last()) * 10 + ((s.last() - 48) as nat)
    }
}

/// The multiplier named by a unit suffix, case-insensitive; `None` for an
/// unrecognized suffix.
pub open spec fn suffix_mult(s: Seq<u8>) -> Option<nat> {
    if s.len() == 0 {
        Some(1 as nat)
    } else if s.len() == 1 || (s.len() == 2 && lower_byte(s[1]) == 98) {
        if lower_byte(s[0]) == 107 {
            Some(1024 as nat)
        } else if lower_byte(s[0]) == 109 {
            Some(1048576 as nat)
        } else if lower_byte(s[0]) == 103 {
            Some(1073741824 as nat)
        } else {
            None
        }
    } else {
        None
    }
}

/// The byte count a size expression names: its digits times its unit's
/// multiplier; `None` where the expression is malformed.
pub open spec fn size_of_expr(s: Seq<u8>) -> Option<nat> {
    let n = num_len(s);
    if n == 0 {
        None
    } else {
        match suffix_mult(s.skip(n)) {
            Some(m) => Some(dec_val(s.take(n)) * m),
            None => None,
        }
    }
}

/// A size expression is accepted exactly when it is well formed and its
/// byte count fits in `u64`.
pub open spec fn size_expr_valid(s: Seq<u8>) -> bool {
    &&& size_of_expr(s) is Some
    &&& size_of_expr(s).unwrap() <= u64::MAX
}

#[derive(Clone, Copy, Debug, PartialEq, Eq, Structural)]
pub enum SizeError {
    InvalidSizeExpression,
}

proof fn lemma_num_len_at(s: Seq<u8>, i: int)
    requires
        0 <= i <= s.len(),
        forall|j: int| 0 <= j < i ==> is_digit(s[j]),
        i == s.len() || !is_digit(s[i]),
    ensures
        num_len(s) == i,
    decreases i,
{
    if i == 0 {
    } else {
        assert(forall|j: int| 0 <= j < i - 1 ==> s.skip(1)[j] == s[j + 1]);
        lemma_num_len_at(s.skip(1), i - 1);
    }
}

proof fn lemma_dec_val_mono(s: Seq<u8>, i: int, j: int)
    requires
        0 <= i <= j <= s.len(),
    ensures
        dec_val(s.take(i)) <= dec_val(s.take(j)),
    decreases j - i,
{
    if i < j {
        lemma_dec_val_mono(s, i, j - 1);
        assert(s.take(j).drop_last() =~= s.take(j - 1));
    }
}

/// Parses a size expression. Returns the byte count exactly when the
/// expression is well formed and fits in `u64`; every malformed or
/// overflowing input is rejected.
pub fn parse_size(s: &[u8]) -> (r: Result<u64, SizeError>)
    ensures
        r is Ok <==> size_expr_valid(s@),
        r is Ok ==> r.unwrap() as nat == size_of_expr(s@).unwrap(),
{
    let mut i: usize = 0;
    while i < s.len() && 48 <= s[i] && s[i] <= 57
        invariant
            i <= s@.len(),
            forall|j: int| 0 <= j < i ==> is_digit(s@[j]),
        decreases s@.len() - i,
    {
        i += 1;
    }
    let n = i;
    proof {
        lemma_num_len_at(s@, n as int);
    }
    if n == 0 {
        return Err(SizeError::InvalidSizeExpression);
    }

    let mut acc: u64 = 0;
    let mut j: usize = 0;
    while j < n
        invariant
            j <= n <= s@.len(),
            n == num_len(s@),
            n >= 1,
            forall|k: int| 0 <= k < n ==> is_digit(s@[k]),
            acc as nat == dec_val(s@.take(j as int)),
        decreases n - j,
    {
        let d = (s[j] - 48) as u64;
        let stepped = match acc.checked_mul(10) {
            Some(t) => t.checked_add(d),
            None => None,
        };
        match stepped {
            Some(v) => {
                proof {
                    assert(s@.take(j as int + 1).drop_last() =~= s@.take(j as int));
                }
                acc = v;
            },
            None => {
                proof {
                    assert(s@.take(j as int + 1).drop_last() =~= s@.take(j as int));
                    assert(dec_val(s@.take(j as int + 1)) > u64::MAX);
                    lemma_dec_val_mono(s@, j as int + 1, n as int);
                    if suffix_mult(s@.skip(n as int)) is Some {
                        let m = suffix_mult(s@.skip(n as int)).unwrap();
                        assert(m >= 1);
                        assert(dec_val(s@.take(n as int)) * m >= dec_val(s@.take(n as int)) * 1)
                            by (nonlinear_arith)
                            requires m >= 1;
                    }
                }
                return Err(SizeError::InvalidSizeExpression);
            },
        }
        j += 1;
    }

    let mult: u64 = if n == s.len() {
        1
    } else {
        let c0 = to_lower_byte(s[n]);
        let two = n + 1 == s.len() || (n + 2 == s.len() && to_lower_byte(s[n + 1]) == 98);
        if !two {
            proof {
                assert(suffix_mult(s@.skip(n as int)) is None);
            }
            return Err(SizeError::InvalidSizeExpression);
        }
        if c0 == 107 {
            1024
        } else if c0 == 109 {
            1048576
        } else if c0 == 103 {
            1073741824
        } else {
            proof {
                assert(suffix_mult(s@.skip(n as int)) is None);
            }
            return Err(SizeError::InvalidSizeExpression);
        }
    };
    proof {
        assert(suffix_mult(s@.skip(n as int)) == Some(mult as nat));
    }
    match acc.checked_mul(mult) {
        Some(v) => Ok(v),
        None => {
            proof {
                assert(acc as nat * mult as nat > u64::MAX);
            }
            Err(SizeError::InvalidSizeExpression)
        },
    }
}

/// The size-distribution bucket an entry of `size` bytes falls in, six
/// buckets from "up to 1 KiB" (0) to "over 100 MiB" (5), with the bounds
/// the statistics view draws.
pub fn size_bucket(size: u64) -> (r: usize)
    ensures
        size <= 1024 ==> r == 0,
        1024 < size <= 102400 ==> r == 1,
        102400 < size <= 1048576 ==> r == 2,
        1048576 < size <= 10485760 ==> r == 3,
        10485760 < size <= 104857600 ==> r == 4,
        size > 104857600 ==> r == 5,
{
    if size <= 1024 {
        0
    } else if size <= 102400 {
        1
    } else if size <= 1048576 {
        2
    } else if size <= 10485760 {
        3
    } else if size <= 104857600 {
        4
    } else {
        5
    }
}

} // verus!
