use vstd::prelude::*;

verus! {

/// Columns beyond this index are dropped by the spreadsheet pass.
pub const MAX_COLUMNS: usize = 100;

/// Cell text beyond this many bytes is truncated by the spreadsheet pass.
pub const MAX_CELL_BYTES: usize = 500;

/// A cosmetic row-height adjustment is applied once per this many rows, to
/// bound accumulated formatting state.
pub const ROW_HEIGHT_INTERVAL: usize = 5000;

/// What a cell carries into the spreadsheet after the length cap.
pub open spec fn cell_truncation(field: Seq<u8>) -> Seq<u8> {
    if field.len() <= MAX_CELL_BYTES {
        field
    } else {
        field.take(MAX_CELL_BYTES as int)
    }
}

/// Caps one cell's text to the converter's bound.
pub fn truncate_cell(field: &Vec<u8>) -> (r: Vec<u8>)
    ensures
        r@ == cell_truncation(field@),
{
    let n = if field.len() <= MAX_CELL_BYTES {
        field.len()
    } else {
        MAX_CELL_BYTES
    };
    let mut r: Vec<u8> = Vec::new();
    let mut i: usize = 0;
    while i < n
        invariant
            n <= field@.len(),
            i <= n,
            r@ == field@.take(i as int),
        decreases n - i,
    {
        r.push(field[i]);
        proof {
            assert(r@ =~= field@.take(i + 1));
        }
        i += 1;
    }
    proof {
        assert(field@.len() <= MAX_CELL_BYTES ==> field@.take(n as int) =~= field@);
    }
    r
}

/// How many leading columns of a record the spreadsheet pass writes.
pub fn column_cap(record_len: usize) -> (r: usize)
    ensures
        r == if record_len <= MAX_COLUMNS {
            record_len as int
        } else {
            MAX_COLUMNS as int
        },
{
    if record_len <= MAX_COLUMNS {
        record_len
    } else {
        MAX_COLUMNS
    }
}

/// The row whose height is to be adjusted once the writer reaches `row`:
/// at every full interval, the row one interval back — and no other.
pub open spec fn row_height_marker_spec(row: nat) -> Option<nat> {
    if row >= ROW_HEIGHT_INTERVAL && row % (ROW_HEIGHT_INTERVAL as nat) == 0 {
        Some((row - ROW_HEIGHT_INTERVAL) as nat)
    } else {
        None
    }
}

/// Decides the periodic cosmetic row-height adjustment of the spreadsheet
/// pass.
pub fn row_height_marker(row: usize) -> (r: Option<usize>)
    ensures
        r is Some <==> row_height_marker_spec(row as nat) is Some,
        r is Some ==> r.unwrap() == row_height_marker_spec(row as nat).unwrap(),
{
    if row >= ROW_HEIGHT_INTERVAL && row % ROW_HEIGHT_INTERVAL == 0 {
        Some(row - ROW_HEIGHT_INTERVAL)
    } else {
        None
    }
}

/// A cell within both caps crosses the conversion pass with its text
/// unchanged; together with the column cap this is the lossless half of
/// the conversion round trip.
pub proof fn lemma_short_cell_unchanged(field: Seq<u8>)
    requires
        field.len() <= MAX_CELL_BYTES,
    ensures
        cell_truncation(field) == field,
{
}

/// Truncation is deterministic and idempotent: a longer or extra cell is
/// cut to a pinned prefix, never corrupted, and re-converting changes
/// nothing further.
pub proof fn lemma_truncation_idempotent(field: Seq<u8>)
    ensures
        cell_truncation(field).len() <= MAX_CELL_BYTES,
        cell_truncation(cell_truncation(field)) == cell_truncation(field),
{
}

} // verus!
