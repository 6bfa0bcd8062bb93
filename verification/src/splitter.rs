use vstd::prelude::*;
use vstd::arithmetic::div_mod::lemma_fundamental_div_mod;
use vstd::arithmetic::div_mod::lemma_fundamental_div_mod_converse;

use crate::ceil_div;

verus! {

/// The running state of the sequential, streaming pass: records are handed
/// over one at a time in file order, and the splitter decides before each
/// one whether a fresh shard must be opened. Memory use is one record,
/// whatever the source size.
pub struct SequentialSplitter {
    /// Upper bound on data rows per shard.
    pub rows_per_file: usize,
    /// Data rows already written to the currently open shard, reset on
    /// reaching `rows_per_file`.
    pub rows_in_current: usize,
    /// Shards opened so far; the running total of the final report.
    pub shards_opened: usize,
    /// Records handed over so far.
    pub records_seen: usize,
}

impl SequentialSplitter {
    /// The state the streaming pass maintains: the shard total is exactly
    /// the shard count owed for the records seen, and the row counter is
    /// the position of the next record within its shard.
    pub open spec fn wf(self) -> bool {
        &&& self.rows_per_file > 0
        &&& self.shards_opened == ceil_div(self.records_seen as nat, self.rows_per_file as nat)
        &&& self.rows_in_current == self.records_seen as int % self.rows_per_file as int
    }

    pub fn new(rows_per_file: usize) -> (s: Self)
        requires
            rows_per_file > 0,
        ensures
            s.wf(),
            s.rows_per_file == rows_per_file,
            s.records_seen == 0,
            s.shards_opened == 0,
    {
        let s = SequentialSplitter { rows_per_file, rows_in_current: 0, shards_opened: 0, records_seen: 0 };
        proof {
            lemma_fundamental_div_mod_converse(0, rows_per_file as int, 0, 0);
        }
        s
    }

    /// Accounts for the next record of the stream. Returns whether a fresh
    /// shard must be opened — and the header written to it — before this
    /// record is written. The record lands in shard
    /// `records_seen / rows_per_file`, at position
    /// `records_seen % rows_per_file` among that shard's data rows: exactly
    /// where the partition law places it.
    pub fn begin_record(&mut self) -> (open_new: bool)
        requires
            old(self).wf(),
            old(self).records_seen < usize::MAX,
        ensures
            final(self).wf(),
            final(self).rows_per_file == old(self).rows_per_file,
            final(self).records_seen == old(self).records_seen + 1,
            open_new == (old(self).records_seen as int % old(self).rows_per_file as int == 0),
            final(self).shards_opened == ceil_div(
                final(self).records_seen as nat,
                final(self).rows_per_file as nat,
            ),
            open_new ==> final(self).shards_opened == old(self).shards_opened + 1,
            !open_new ==> final(self).shards_opened == old(self).shards_opened,
            old(self).records_seen as int / old(self).rows_per_file as int
                == final(self).shards_opened - 1,
    {
        let ghost n = self.records_seen as int;
        let ghost r = self.rows_per_file as int;
        let ghost q = n / r;
        let ghost m = n % r;
        proof {
            lemma_fundamental_div_mod(n, r);
        }
        let open_new = self.rows_in_current == 0;
        if open_new {
            proof {
                // n == q * r, so one more record starts shard q + 1.
                if r == 1 {
                    assert(n + 1 == (q + 1) * r) by (nonlinear_arith)
                        requires
                            n == q * r + m,
                            m == 0,
                            r == 1,
                    ;
                    lemma_fundamental_div_mod_converse(n + 1, r, q + 1, 0);
                } else {
                    lemma_fundamental_div_mod_converse(n + 1, r, q, m + 1);
                }
                assert(self.shards_opened < usize::MAX) by {
                    crate::partition::lemma_ceil_div_bounds(n as nat, r as nat);
                }
            }
            self.shards_opened = self.shards_opened + 1;
        } else {
            proof {
                if m + 1 < r {
                    lemma_fundamental_div_mod_converse(n + 1, r, q, m + 1);
                } else {
                    assert(n + 1 == (q + 1) * r) by (nonlinear_arith)
                        requires
                            n == q * r + m,
                            m + 1 == r,
                    ;
                    lemma_fundamental_div_mod_converse(n + 1, r, q + 1, 0);
                }
            }
        }
        self.rows_in_current = self.rows_in_current + 1;
        if self.rows_in_current == self.rows_per_file {
            self.rows_in_current = 0;
        }
        self.records_seen = self.records_seen + 1;
        open_new
    }
}

} // verus!
