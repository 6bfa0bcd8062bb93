use vstd::prelude::*;

use crate::ceil_div;
use crate::partition::lemma_ceil_div_bounds;

verus! {

/// Byte offset where line `j` starts: right after the terminator of the
/// line before it.
pub open spec fn line_start(breaks: Seq<usize>, j: nat) -> int
    recommends
        j <= breaks.len(),
{
    if j == 0 {
        0
    } else {
        breaks[j - 1] + 1
    }
}

/// The break offsets lie inside the file and are strictly increasing.
pub open spec fn breaks_within(breaks: Seq<usize>, file_size: usize) -> bool {
    &&& forall|j: int| 0 <= j < breaks.len() ==> #[trigger] breaks[j] < file_size
    &&& forall|j1: int, j2: int|
        0 <= j1 < j2 < breaks.len() ==> #[trigger] breaks[j1] < #[trigger] breaks[j2]
}

/// An offset never splits a record: it is the start of the file, its end,
/// or the position right after a line terminator.
pub open spec fn line_aligned(breaks: Seq<usize>, file_size: usize, off: usize) -> bool {
    ||| off == 0
    ||| off == file_size
    ||| exists|j: int| 0 <= j < breaks.len() && off == #[trigger] breaks[j] + 1
}

/// Where each parallel chunk's byte range is owed to start: at the first
/// line of its row range when the source has such a line, else at the end
/// of the file.
pub open spec fn chunk_start_spec(
    breaks: Seq<usize>,
    file_size: usize,
    header_lines: nat,
    rows_per_chunk: nat,
    i: nat,
) -> int {
    if header_lines + i * rows_per_chunk <= breaks.len() {
        line_start(breaks, header_lines + i * rows_per_chunk)
    } else {
        file_size as int
    }
}

/// Byte offset where line `j` starts, read off the break index.
fn line_start_at(breaks: &Vec<usize>, j: usize, file_size: usize) -> (r: usize)
    requires
        breaks_within(breaks@, file_size),
        j <= breaks@.len(),
    ensures
        r == line_start(breaks@, j as nat),
        r <= file_size,
{
    if j == 0 {
        0
    } else {
        breaks[j - 1] + 1
    }
}

/// Computes the `file_count + 1` chunk boundaries of the parallel pass:
/// boundary `i` is where the chunk owed rows `[i * rows_per_chunk,
/// (i + 1) * rows_per_chunk)` of the data begins, with the header line
/// excluded from every chunk, and the last boundary closes the final chunk
/// at end-of-file. Every boundary is line-aligned, and consecutive
/// boundaries never cross.
pub fn chunk_boundaries(
    breaks: &Vec<usize>,
    file_size: usize,
    has_header: bool,
    file_count: usize,
    rows_per_chunk: usize,
) -> (bounds: Vec<usize>)
    requires
        breaks_within(breaks@, file_size),
        has_header ==> breaks@.len() >= 1,
        file_count >= 1,
        rows_per_chunk >= 1,
        (if has_header {
            1int
        } else {
            0
        }) + (file_count - 1) * rows_per_chunk <= usize::MAX,
    ensures
        bounds@.len() == file_count + 1,
        forall|i: int|
            0 <= i < file_count ==> #[trigger] bounds@[i] == chunk_start_spec(
                breaks@,
                file_size,
                if has_header {
                    1nat
                } else {
                    0nat
                },
                rows_per_chunk as nat,
                i as nat,
            ),
        bounds@[file_count as int] == file_size,
        forall|i: int| 0 <= i < bounds@.len() ==> #[trigger] bounds@[i] <= file_size,
        forall|i: int, k: int|
            0 <= i < k < bounds@.len() ==> #[trigger] bounds@[i] <= #[trigger] bounds@[k],
        forall|i: int|
            0 <= i < bounds@.len() ==> line_aligned(breaks@, file_size, #[trigger] bounds@[i]),
{
    let hdr: usize = if has_header {
        1
    } else {
        0
    };
    let ghost hdr_nat = hdr as nat;
    let mut bounds: Vec<usize> = Vec::new();
    let first = line_start_at(breaks, hdr, file_size);
    bounds.push(first);
    proof {
        assert(0nat * rows_per_chunk as nat == 0) by (nonlinear_arith);
        assert(bounds@[0] == chunk_start_spec(
            breaks@,
            file_size,
            hdr as nat,
            rows_per_chunk as nat,
            0nat,
        ));
    }
    let mut target: usize = hdr;
    let mut i: usize = 1;
    while i < file_count
        invariant
            breaks_within(breaks@, file_size),
            file_count >= 1,
            rows_per_chunk >= 1,
            hdr == if has_header {
                1int
            } else {
                0
            },
            hdr + (file_count - 1) * rows_per_chunk <= usize::MAX,
            1 <= i <= file_count,
            target == hdr + (i - 1) * rows_per_chunk,
            bounds@.len() == i,
            forall|k: int|
                0 <= k < i ==> #[trigger] bounds@[k] == chunk_start_spec(
                    breaks@,
                    file_size,
                    hdr as nat,
                    rows_per_chunk as nat,
                    k as nat,
                ),
            forall|k: int| 0 <= k < bounds@.len() ==> #[trigger] bounds@[k] <= file_size,
        decreases file_count - i,
    {
        proof {
            assert((i - 1) * rows_per_chunk + rows_per_chunk == i * rows_per_chunk)
                by (nonlinear_arith);
            assert(i * rows_per_chunk <= (file_count - 1) * rows_per_chunk) by (nonlinear_arith)
                requires
                    1 <= i <= file_count - 1,
                    rows_per_chunk >= 1,
            ;
        }
        target = target + rows_per_chunk;
        let next = if target <= breaks.len() {
            line_start_at(breaks, target, file_size)
        } else {
            file_size
        };
        bounds.push(next);
        i += 1;
    }
    bounds.push(file_size);
    proof {
        assert forall|k: int| 0 <= k < bounds@.len() implies line_aligned(
            breaks@,
            file_size,
            #[trigger] bounds@[k],
        ) by {
            if k < file_count {
                let line = hdr_nat + k * rows_per_chunk as nat;
                if line <= breaks@.len() && line > 0 {
                    assert(bounds@[k] == breaks@[line - 1] + 1);
                }
            }
        }
        assert forall|a: int, k: int| 0 <= a < k < bounds@.len() implies #[trigger] bounds@[a]
            <= #[trigger] bounds@[k] by {
            if k < file_count {
                let la = hdr_nat + a * rows_per_chunk as nat;
                let lk = hdr_nat + k * rows_per_chunk as nat;
                assert(la < lk) by (nonlinear_arith)
                    requires
                        0 <= a < k,
                        rows_per_chunk >= 1,
                        la == hdr_nat + a * rows_per_chunk,
                        lk == hdr_nat + k * rows_per_chunk,
                ;
                if lk <= breaks@.len() {
                    if la > 0 {
                        assert(breaks@[la - 1] <= breaks@[lk - 1]);
                    }
                }
            }
        }
    }
    bounds
}

/// Rows owed to one chunk of the parallel pass: a full stride for every
/// chunk but the last, which absorbs the remainder.
pub fn chunk_target_rows(
    chunk_index: usize,
    file_count: usize,
    data_rows: usize,
    rows_per_chunk: usize,
) -> (r: usize)
    requires
        data_rows > 0,
        rows_per_chunk > 0,
        chunk_index < file_count,
        file_count == ceil_div(data_rows as nat, rows_per_chunk as nat),
    ensures
        r == if chunk_index + 1 < file_count {
            rows_per_chunk as int
        } else {
            data_rows - rows_per_chunk * (file_count - 1)
        },
        1 <= r <= rows_per_chunk,
{
    proof {
        lemma_ceil_div_bounds(data_rows as nat, rows_per_chunk as nat);
        assert((file_count - 1) * rows_per_chunk == rows_per_chunk * (file_count - 1))
            by (nonlinear_arith);
        assert(file_count * rows_per_chunk - (file_count - 1) * rows_per_chunk == rows_per_chunk)
            by (nonlinear_arith)
            requires
                file_count >= 1,
        ;
    }
    if chunk_index + 1 < file_count {
        rows_per_chunk
    } else {
        data_rows - rows_per_chunk * (file_count - 1)
    }
}

} // verus!
