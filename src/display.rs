//! What a progress message shows of a category's counters.

use crate::stats::SizeStats;
use vstd::prelude::*;

verus! {

/// A signed byte count, shown with binary prefixes.
#[derive(Clone, Copy, Debug, PartialEq, Eq, Structural)]
pub struct HumanBytes(pub i64);

/// How a byte delta is highlighted.
#[derive(Clone, Copy, Debug, PartialEq, Eq, Structural)]
pub enum Tone {
    /// Within one KiB either way.
    Dim,
    /// More than one KiB saved.
    Good,
    /// More than one KiB lost.
    Bad,
}

/// One KiB.
pub const KIB: i64 = 1024;

impl HumanBytes {
    /// The highlight of the delta: dim within one KiB of zero, good above, bad below.
    pub fn tone(&self) -> (r: Tone)
        ensures
            r == if self.0 > KIB {
                Tone::Good
            } else if self.0 < -KIB {
                Tone::Bad
            } else {
                Tone::Dim
            },
    {
        if self.0 > KIB {
            Tone::Good
        } else if self.0 < -KIB {
            Tone::Bad
        } else {
            Tone::Dim
        }
    }
}

/// Quotient of `x` by a positive `d`, rounded toward zero.
pub open spec fn quotient_toward_zero(x: int, d: int) -> int {
    if x >= 0 {
        x / d
    } else {
        -((-x) / d)
    }
}

/// Mean delta per success: zero without successes (or with more successes
/// than an `i64` holds), else the total rounded toward zero.
pub fn average(diff: i64, success: u64) -> (r: i64)
    ensures
        r == if success == 0 || success > i64::MAX {
            0
        } else {
            quotient_toward_zero(diff as int, success as int)
        },
{
    if success == 0 || success > i64::MAX as u64 {
        return 0;
    }
    let d = success as i64;
    match diff.checked_div(d) {
        Some(q) => q,
        None => 0,
    }
}

/// The figures of one category's progress message.
#[derive(Clone, Copy, Debug, PartialEq, Eq, Structural)]
pub struct Summary {
    pub success: u64,
    pub failed: u64,
    pub diff: i64,
    pub average: i64,
}

/// The figures to show for a category; no counters yet shows zeros.
pub fn summarize(stats: Option<&SizeStats>) -> (r: Summary)
    ensures
        ({
            let s = match stats {
                Some(s) => *s,
                None => SizeStats { success: 0, failed: 0, diff: 0 },
            };
            r == Summary {
                success: s.success,
                failed: s.failed,
                diff: s.diff,
                average: if s.success == 0 || s.success > i64::MAX {
                    0
                } else {
                    quotient_toward_zero(s.diff as int, s.success as int) as i64
                },
            }
        }),
{
    let s = match stats {
        Some(s) => *s,
        None => SizeStats::const_new(),
    };
    Summary { success: s.success, failed: s.failed, diff: s.diff, average: average(s.diff, s.success) }
}

} // verus!
