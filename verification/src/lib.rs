//! Row-bounded partitioning of delimited-text files.
//!
//! The library splits a CSV source into shards of at most a configured
//! number of data rows, chooses between a sequential and a parallel
//! execution strategy, computes line-aligned chunk boundaries for parallel
//! workers, plans the shard-to-spreadsheet conversion pass, and aggregates
//! per-shard outcomes into the final report. All file and thread handling
//! lives with the caller; everything here is a pure, verified function of
//! the bytes and facts handed in.

pub mod chunks;
pub mod convert;
pub mod errors;
pub mod header;
pub mod lines;
pub mod partition;
pub mod pipeline;
pub mod report;
pub mod splitter;
pub mod strategy;
pub mod validate;

use vstd::prelude::*;

verus! {

/// Ceiling division: the least `q` with `q * b >= a`.
pub open spec fn ceil_div(a: nat, b: nat) -> nat
    recommends
        b > 0,
{
    if a % b == 0 {
        a / b
    } else {
        a / b + 1
    }
}

/// Number of shards needed to hold `data_rows` rows, at most
/// `rows_per_file` rows each.
pub fn shard_count(data_rows: usize, rows_per_file: usize) -> (r: usize)
    requires
        rows_per_file > 0,
    ensures
        r == ceil_div(data_rows as nat, rows_per_file as nat),
{
    let q = data_rows / rows_per_file;
    if data_rows % rows_per_file == 0 {
        q
    } else {
        assert(q < data_rows) by (nonlinear_arith)
            requires
                rows_per_file > 0,
                data_rows % rows_per_file != 0,
                q == data_rows / rows_per_file,
        ;
        q + 1
    }
}

} // verus!
