use vstd::prelude::*;

use crate::lines::count_newlines;
use crate::lines::newline_count;

verus! {

/// Files beyond this size take the parallel strategy outright.
pub const LARGE_FILE_BYTES: u64 = 100 * 1024 * 1024;

/// A sampled line count beyond this cap takes the parallel strategy; the
/// prefix scan may stop as soon as the estimate passes it.
pub const LINE_ESTIMATE_CAP: usize = 500_000;

/// A sum of line counts, clipped to what a counter can hold.
pub open spec fn saturated_line_estimate(count: nat, fresh: nat) -> nat {
    if count + fresh > usize::MAX {
        usize::MAX as nat
    } else {
        count + fresh
    }
}

/// Folds one sampled buffer into the running line estimate of the prefix
/// scan, saturating rather than wrapping.
pub fn extend_line_estimate(count: usize, buf: &[u8]) -> (r: usize)
    ensures
        r == saturated_line_estimate(count as nat, newline_count(buf@)),
{
    let fresh = count_newlines(buf);
    if fresh > usize::MAX - count {
        usize::MAX
    } else {
        count + fresh
    }
}

/// Whether the prefix scan may stop early: the estimate already settles
/// the strategy, so reading further would not change the decision.
pub fn estimate_exceeds_cap(count: usize) -> (r: bool)
    ensures
        r == (count > LINE_ESTIMATE_CAP),
{
    count > LINE_ESTIMATE_CAP
}

/// The strategy decision: parallel for a file beyond the size threshold or
/// a sampled line count beyond the cap, sequential otherwise.
pub fn choose_parallel(file_size: u64, estimated_lines: usize) -> (r: bool)
    ensures
        r == (file_size > LARGE_FILE_BYTES || estimated_lines > LINE_ESTIMATE_CAP),
{
    file_size > LARGE_FILE_BYTES || estimated_lines > LINE_ESTIMATE_CAP
}

} // verus!
