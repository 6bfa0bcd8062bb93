use vstd::prelude::*;

verus! {

/// The line-terminator byte.
pub const LINE_FEED: u8 = 10;

/// Number of line-terminator bytes in `bytes`.
pub open spec fn newline_count(bytes: Seq<u8>) -> nat
    decreases bytes.len(),
{
    if bytes.len() == 0 {
        0
    } else {
        newline_count(bytes.drop_last()) + if bytes.last() == LINE_FEED {
            1nat
        } else {
            0nat
        }
    }
}

/// `breaks` lists the offset of every line terminator of `bytes`, each
/// exactly once, in strictly increasing order.
pub open spec fn is_line_break_index(bytes: Seq<u8>, breaks: Seq<usize>) -> bool {
    &&& forall|j: int|
        0 <= j < breaks.len() ==> #[trigger] breaks[j] < bytes.len() && bytes[breaks[j] as int]
            == LINE_FEED
    &&& forall|j1: int, j2: int|
        0 <= j1 < j2 < breaks.len() ==> #[trigger] breaks[j1] < #[trigger] breaks[j2]
    &&& forall|k: int| 0 <= k < bytes.len() && bytes[k] == LINE_FEED ==> breaks.contains(k as usize)
}

/// Total lines of a buffer: its terminated lines, plus one unterminated
/// final line when the buffer does not end in a terminator.
pub open spec fn line_count(bytes: Seq<u8>) -> nat {
    newline_count(bytes) + if bytes.len() > 0 && bytes.last() != LINE_FEED {
        1nat
    } else {
        0nat
    }
}

/// Rows left once the header line, if one is declared, is set aside.
pub open spec fn data_rows_in(total_lines: nat, has_header: bool) -> nat {
    if has_header {
        if total_lines > 0 {
            (total_lines - 1) as nat
        } else {
            0
        }
    } else {
        total_lines
    }
}

/// Rows the shards must hold: the total lines, less the header line when
/// one is declared.
pub fn data_row_count(total_lines: usize, has_header: bool) -> (r: usize)
    ensures
        r == data_rows_in(total_lines as nat, has_header),
{
    if has_header {
        if total_lines > 0 {
            total_lines - 1
        } else {
            0
        }
    } else {
        total_lines
    }
}

/// A strictly increasing sequence grows at least as fast as its indices.
pub proof fn lemma_strictly_increasing_ge_index(breaks: Seq<usize>, j: int)
    requires
        forall|j1: int, j2: int|
            0 <= j1 < j2 < breaks.len() ==> #[trigger] breaks[j1] < #[trigger] breaks[j2],
        0 <= j < breaks.len(),
    ensures
        breaks[j] >= j,
    decreases j,
{
    if j > 0 {
        lemma_strictly_increasing_ge_index(breaks, j - 1);
    }
}

/// Scans the buffer and records the offset of every line terminator.
/// Foundation for the parallel chunking pass.
pub fn index_line_breaks(bytes: &[u8]) -> (breaks: Vec<usize>)
    ensures
        is_line_break_index(bytes@, breaks@),
        breaks@.len() == newline_count(bytes@),
{
    let n = bytes.len();
    let mut breaks: Vec<usize> = Vec::new();
    let mut i: usize = 0;
    while i < n
        invariant
            n == bytes@.len(),
            i <= n,
            forall|j: int|
                0 <= j < breaks@.len() ==> #[trigger] breaks@[j] < i && bytes@[breaks@[j] as int]
                    == LINE_FEED,
            forall|j1: int, j2: int|
                0 <= j1 < j2 < breaks@.len() ==> #[trigger] breaks@[j1] < #[trigger] breaks@[j2],
            forall|k: int| 0 <= k < i && bytes@[k] == LINE_FEED ==> breaks@.contains(k as usize),
            breaks@.len() == newline_count(bytes@.take(i as int)),
        decreases n - i,
    {
        let ghost prev = breaks@;
        if bytes[i] == LINE_FEED {
            breaks.push(i);
        }
        proof {
            assert(bytes@.take(i + 1).drop_last() =~= bytes@.take(i as int));
            assert(bytes@.take(i + 1).last() == bytes@[i as int]);
            assert forall|k: int| 0 <= k < i + 1 && bytes@[k] == LINE_FEED implies breaks@.contains(
                k as usize,
            ) by {
                if k < i {
                    let j = choose|j: int| 0 <= j < prev.len() && prev[j] == k as usize;
                    assert(breaks@[j] == k as usize);
                } else {
                    assert(breaks@[breaks@.len() - 1] == k as usize);
                }
            }
        }
        i += 1;
    }
    proof {
        assert(bytes@.take(n as int) =~= bytes@);
    }
    breaks
}

/// Counts the line terminators of a buffer, for the sampled line estimate
/// of the strategy selector.
pub fn count_newlines(bytes: &[u8]) -> (r: usize)
    ensures
        r == newline_count(bytes@),
{
    let n = bytes.len();
    let mut count: usize = 0;
    let mut i: usize = 0;
    while i < n
        invariant
            n == bytes@.len(),
            i <= n,
            count <= i,
            count == newline_count(bytes@.take(i as int)),
        decreases n - i,
    {
        proof {
            assert(bytes@.take(i + 1).drop_last() =~= bytes@.take(i as int));
            assert(bytes@.take(i + 1).last() == bytes@[i as int]);
        }
        if bytes[i] == LINE_FEED {
            count += 1;
        }
        i += 1;
    }
    proof {
        assert(bytes@.take(n as int) =~= bytes@);
    }
    count
}

/// Total line count of the source, from its line-break index: one line per
/// terminator, adjusted for an unterminated final line.
pub fn total_line_count(breaks: &Vec<usize>, bytes: &[u8]) -> (r: usize)
    requires
        is_line_break_index(bytes@, breaks@),
    ensures
        r == line_count(bytes@),
{
    let n = bytes.len();
    let terminated = breaks.len();
    proof {
        lemma_break_index_counts(bytes@, breaks@);
    }
    if n == 0 {
        0
    } else if terminated == 0 {
        proof {
            if bytes@.last() == LINE_FEED {
                assert(breaks@.contains((bytes@.len() - 1) as usize));
            }
        }
        1
    } else if breaks[terminated - 1] == n - 1 {
        terminated
    } else {
        proof {
            lemma_strictly_increasing_ge_index(breaks@, terminated - 1);
            assert(breaks@[terminated - 1] < n - 1);
            if bytes@.last() == LINE_FEED {
                assert(breaks@.contains((bytes@.len() - 1) as usize));
                let j = choose|j: int|
                    0 <= j < breaks@.len() && breaks@[j] == (bytes@.len() - 1) as usize;
                if j < terminated - 1 {
                    assert(breaks@[j] < breaks@[terminated - 1]);
                }
                assert(false);
            }
        }
        terminated + 1
    }
}

/// A complete, strictly increasing index has exactly `newline_count` entries.
pub proof fn lemma_break_index_counts(bytes: Seq<u8>, breaks: Seq<usize>)
    requires
        bytes.len() <= usize::MAX,
        is_line_break_index(bytes, breaks),
    ensures
        breaks.len() == newline_count(bytes),
    decreases bytes.len(),
{
    if bytes.len() == 0 {
        if breaks.len() > 0 {
            assert(breaks[0] < bytes.len());
        }
    } else {
        let head = bytes.drop_last();
        let last_pos = (bytes.len() - 1) as usize;
        if bytes.last() == LINE_FEED {
            assert(bytes[bytes.len() - 1] == LINE_FEED);
            assert(breaks.contains(last_pos));
            let j = choose|j: int| 0 <= j < breaks.len() && breaks[j] == last_pos;
            if j < breaks.len() - 1 {
                assert(breaks[j] < breaks[breaks.len() - 1]);
                assert(breaks[breaks.len() - 1] < bytes.len());
                assert(false);
            }
            let front = breaks.drop_last();
            assert forall|jj: int| 0 <= jj < front.len() implies #[trigger] front[jj] < head.len()
                && head[front[jj] as int] == LINE_FEED by {
                assert(front[jj] == breaks[jj]);
                assert(breaks[jj] < breaks[j]);
                assert(bytes[breaks[jj] as int] == LINE_FEED);
            }
            assert forall|k: int| 0 <= k < head.len() && head[k] == LINE_FEED implies front
                .contains(k as usize) by {
                assert(bytes[k] == LINE_FEED);
                assert(breaks.contains(k as usize));
                let jj = choose|jj: int| 0 <= jj < breaks.len() && breaks[jj] == k as usize;
                if jj == breaks.len() - 1 {
                    assert(breaks[jj] == last_pos);
                    assert(false);
                }
                assert(front[jj] == k as usize);
            }
            assert(is_line_break_index(head, front));
            lemma_break_index_counts(head, front);
        } else {
            assert forall|j: int| 0 <= j < breaks.len() implies #[trigger] breaks[j] < head.len()
                && head[breaks[j] as int] == LINE_FEED by {
                assert(breaks[j] < bytes.len());
                assert(bytes[breaks[j] as int] == LINE_FEED);
                if breaks[j] == bytes.len() - 1 {
                    assert(false);
                }
            }
            assert forall|k: int| 0 <= k < head.len() && head[k] == LINE_FEED implies breaks
                .contains(k as usize) by {
                assert(bytes[k] == LINE_FEED);
            }
            assert(is_line_break_index(head, breaks));
            lemma_break_index_counts(head, breaks);
        }
    }
}

} // verus!
