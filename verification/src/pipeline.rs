use vstd::prelude::*;

use crate::ceil_div;
use crate::errors::SplitError;
use crate::header::synthesize_header;
use crate::header::synthesized_header;
use crate::partition::lemma_ceil_div_bounds;
use crate::partition::shard_rows;

verus! {

/// What the CSV reader yields on a byte buffer, headers off, default
/// dialect: the records, each an ordered sequence of fields. Named rather
/// than spelled out — the grammar (delimiters, quoting, escapes) is the
/// csv crate's own — and a pure function of the bytes alone.
pub uninterp spec fn csv_rows_of(bytes: Seq<u8>) -> Seq<Seq<Seq<u8>>>;

/// The bytes the CSV writer emits for one record, default dialect. Each
/// record's encoding is independent of its neighbours and a pure function
/// of its fields alone.
pub uninterp spec fn csv_record_encoding_of(row: Seq<Seq<u8>>) -> Seq<u8>;

/// Whether the CSV reader accepts the byte buffer whole, headers off,
/// default dialect. The reader is a deterministic state machine over the
/// bytes — its only failure is the unequal-field-counts check — so whether
/// it succeeds is a pure function of the bytes alone.
pub uninterp spec fn csv_parse_ok(bytes: Seq<u8>) -> bool;

/// Relies on csv::Reader::read_byte_record, headers off, default dialect:
/// whether the read succeeds, and the records it yields, are pure
/// functions of the byte buffer; `None` carries the reader's own parse
/// error (records of unequal field counts).
#[verifier::external_body]
fn parse_csv(bytes: &[u8]) -> (r: Option<Vec<Vec<Vec<u8>>>>)
    ensures
        r is Some <==> csv_parse_ok(bytes@),
        r matches Some(rows) ==> rows.deep_view() == csv_rows_of(bytes@),
{
    let mut reader = csv::ReaderBuilder::new().has_headers(false).from_reader(bytes);
    let mut rows: Vec<Vec<Vec<u8>>> = Vec::new();
    let mut record = csv::ByteRecord::new();
    loop {
        match reader.read_byte_record(&mut record) {
            Ok(true) => rows.push(record.iter().map(|f| f.to_vec()).collect()),
            Ok(false) => return Some(rows),
            Err(_) => return None,
        }
    }
}

/// Relies on csv::Writer::write_record into an in-memory buffer, default
/// dialect: the encoding of one record is a pure function of its fields,
/// and a single-record write to a fresh in-memory writer does not fail —
/// length checks compare against earlier records of the same writer, and
/// the sink is an infallible `Vec<u8>`.
#[verifier::external_body]
fn encode_csv_record(row: &Vec<Vec<u8>>) -> (r: Vec<u8>)
    ensures
        r@ == csv_record_encoding_of(row.deep_view()),
{
    let mut writer = csv::WriterBuilder::new().from_writer(Vec::new());
    writer.write_record(row).expect("single-record in-memory CSV write");
    writer.into_inner().expect("in-memory CSV flush")
}

/// The bytes of one shard file: the header record first, then the shard's
/// data rows, each record encoded on its own.
pub open spec fn shard_encoding(header: Seq<Seq<u8>>, rows: Seq<Seq<Seq<u8>>>) -> Seq<u8>
    decreases rows.len(),
{
    if rows.len() == 0 {
        csv_record_encoding_of(header)
    } else {
        shard_encoding(header, rows.drop_last()) + csv_record_encoding_of(rows.last())
    }
}

/// Every shard file opens with the header row: whatever data rows follow,
/// the shard's bytes begin with the header's own encoding.
pub proof fn lemma_shard_opens_with_header(header: Seq<Seq<u8>>, rows: Seq<Seq<Seq<u8>>>)
    ensures
        shard_encoding(header, rows).len() >= csv_record_encoding_of(header).len(),
        shard_encoding(header, rows).take(csv_record_encoding_of(header).len() as int)
            == csv_record_encoding_of(header),
    decreases rows.len(),
{
    let henc = csv_record_encoding_of(header);
    if rows.len() == 0 {
        assert(shard_encoding(header, rows).take(henc.len() as int) =~= henc);
    } else {
        lemma_shard_opens_with_header(header, rows.drop_last());
        assert(shard_encoding(header, rows).take(henc.len() as int) =~= shard_encoding(
            header,
            rows.drop_last(),
        ).take(henc.len() as int));
    }
}

/// The records left for shards once the source header, if one is declared,
/// is set aside.
pub open spec fn data_rows_for(rows: Seq<Seq<Seq<u8>>>, has_header: bool) -> Seq<Seq<Seq<u8>>> {
    if has_header {
        if rows.len() > 0 {
            rows.skip(1)
        } else {
            rows
        }
    } else {
        rows
    }
}

/// The header row every shard opens with: the source's first record when
/// one is declared, else column names synthesized from the first record's
/// width.
pub open spec fn header_for(rows: Seq<Seq<Seq<u8>>>, has_header: bool) -> Seq<Seq<u8>>
    recommends
        rows.len() > 0,
{
    if has_header {
        rows[0]
    } else {
        synthesized_header(rows[0].len())
    }
}

/// The verdict owed for parsed records: no columns to synthesize names
/// for, no data rows, or a split worth doing.
pub open spec fn split_verdict(rows: Seq<Seq<Seq<u8>>>, has_header: bool) -> Result<
    (),
    SplitError,
> {
    if !has_header && (rows.len() == 0 || rows[0].len() == 0) {
        Err(SplitError::NoColumns)
    } else if data_rows_for(rows, has_header).len() == 0 {
        Err(SplitError::NoDataRows)
    } else {
        Ok(())
    }
}

/// Copies one field.
fn clone_field(f: &Vec<u8>) -> (r: Vec<u8>)
    ensures
        r@ == f@,
{
    let n = f.len();
    let mut r: Vec<u8> = Vec::new();
    let mut i: usize = 0;
    while i < n
        invariant
            n == f@.len(),
            i <= n,
            r@ == f@.take(i as int),
        decreases n - i,
    {
        r.push(f[i]);
        proof {
            assert(r@ =~= f@.take(i + 1));
        }
        i += 1;
    }
    proof {
        assert(r@ =~= f@);
    }
    r
}

/// Copies one record.
fn clone_record(rec: &Vec<Vec<u8>>) -> (r: Vec<Vec<u8>>)
    ensures
        r.deep_view() == rec.deep_view(),
{
    let n = rec.len();
    let mut r: Vec<Vec<u8>> = Vec::new();
    let mut i: usize = 0;
    while i < n
        invariant
            n == rec@.len(),
            i <= n,
            r@.len() == i,
            forall|j: int| 0 <= j < i ==> (#[trigger] r@[j])@ == rec@[j]@,
        decreases n - i,
    {
        let field = clone_field(&rec[i]);
        r.push(field);
        i += 1;
    }
    proof {
        assert(r.deep_view() =~~= rec.deep_view());
    }
    r
}

/// Encodes one shard: the header record, then `count` data records of the
/// source starting at `start`.
pub fn build_shard_bytes(
    header: &Vec<Vec<u8>>,
    rows: &Vec<Vec<Vec<u8>>>,
    start: usize,
    count: usize,
) -> (r: Vec<u8>)
    requires
        start + count <= rows@.len(),
    ensures
        r@ == shard_encoding(
            header.deep_view(),
            rows.deep_view().subrange(start as int, start + count),
        ),
{
    let total = rows.len();
    let mut out = encode_csv_record(header);
    proof {
        assert(rows.deep_view().subrange(start as int, start as int).len() == 0);
    }
    let mut j: usize = 0;
    while j < count
        invariant
            start + count <= rows@.len(),
            total == rows@.len(),
            rows@.len() == rows.deep_view().len(),
            j <= count,
            out@ == shard_encoding(
                header.deep_view(),
                rows.deep_view().subrange(start as int, start + j),
            ),
        decreases count - j,
    {
        let mut piece = encode_csv_record(&rows[start + j]);
        out.append(&mut piece);
        proof {
            let dv = rows.deep_view();
            let seg = dv.subrange(start as int, start + j + 1);
            assert(seg.drop_last() =~= dv.subrange(start as int, start + j));
            assert(seg.last() == dv[start + j]);
            assert(dv[start + j] == rows@[start + j].deep_view());
        }
        j += 1;
    }
    out
}

/// Splits already-parsed records into encoded shards: shard `i` holds the
/// header and data rows `[i * rows_per_file, (i + 1) * rows_per_file)`.
/// Succeeds if and only if the records admit a split at all; the shard
/// count is exactly the one owed, `ceil(data rows / rows_per_file)`.
pub fn split_parsed_rows(rows: &Vec<Vec<Vec<u8>>>, has_header: bool, rows_per_file: usize) -> (r:
    Result<Vec<Vec<u8>>, SplitError>)
    requires
        rows_per_file > 0,
    ensures
        r is Ok <==> split_verdict(rows.deep_view(), has_header) is Ok,
        r is Err ==> Err::<(), SplitError>(r.unwrap_err()) == split_verdict(
            rows.deep_view(),
            has_header,
        ),
        r is Ok ==> ({
            let data = data_rows_for(rows.deep_view(), has_header);
            let header = header_for(rows.deep_view(), has_header);
            let shards = r.unwrap();
            &&& shards@.len() == ceil_div(data.len(), rows_per_file as nat)
            &&& forall|i: int|
                0 <= i < shards@.len() ==> (#[trigger] shards@[i])@ == shard_encoding(
                    header,
                    shard_rows(data, rows_per_file as nat, i as nat),
                )
        }),
{
    let n = rows.len();
    proof {
        assert(rows.deep_view().len() == n);
    }
    if !has_header && (n == 0 || rows[0].len() == 0) {
        return Err(SplitError::NoColumns);
    }
    let start_off: usize = if has_header {
        1
    } else {
        0
    };
    let data_len = if has_header {
        if n > 0 {
            n - 1
        } else {
            0
        }
    } else {
        n
    };
    proof {
        if has_header && n > 0 {
            assert(rows.deep_view().skip(1).len() == n - 1);
        }
    }
    if data_len == 0 {
        return Err(SplitError::NoDataRows);
    }
    let ghost dv = rows.deep_view();
    let ghost data = data_rows_for(dv, has_header);
    let header: Vec<Vec<u8>> = if has_header {
        clone_record(&rows[0])
    } else {
        synthesize_header(rows[0].len())
    };
    proof {
        assert(dv[0] == rows@[0].deep_view());
        assert(rows@[0].deep_view().len() == rows@[0]@.len());
        assert(header.deep_view() == header_for(dv, has_header));
    }
    let fc = crate::shard_count(data_len, rows_per_file);
    proof {
        lemma_ceil_div_bounds(data_len as nat, rows_per_file as nat);
    }
    let mut shards: Vec<Vec<u8>> = Vec::new();
    let mut done: usize = 0;
    while done < data_len
        invariant
            rows_per_file > 0,
            0 < data_len <= rows@.len(),
            start_off == if has_header {
                1int
            } else {
                0
            },
            data_len == data.len(),
            dv == rows.deep_view(),
            data == data_rows_for(dv, has_header),
            data_len + start_off <= rows@.len(),
            header.deep_view() == header_for(dv, has_header),
            fc == ceil_div(data_len as nat, rows_per_file as nat),
            shards@.len() <= fc,
            done == if shards@.len() * rows_per_file <= data_len {
                shards@.len() * rows_per_file
            } else {
                data_len as int
            },
            shards@.len() < fc ==> done == shards@.len() * rows_per_file,
            done == data_len ==> shards@.len() == fc,
            forall|i: int|
                0 <= i < shards@.len() ==> (#[trigger] shards@[i])@ == shard_encoding(
                    header_for(dv, has_header),
                    shard_rows(data, rows_per_file as nat, i as nat),
                ),
        decreases data_len - done,
    {
        let ghost i = shards@.len();
        proof {
            lemma_ceil_div_bounds(data_len as nat, rows_per_file as nat);
            if i >= fc {
                assert(fc * rows_per_file >= data_len);
                assert(i * rows_per_file >= fc * rows_per_file) by (nonlinear_arith)
                    requires
                        i >= fc,
                        rows_per_file > 0,
                ;
            }
            assert(i < fc);
            assert((i + 1) * rows_per_file == i * rows_per_file + rows_per_file)
                by (nonlinear_arith);
        }
        let count = if rows_per_file < data_len - done {
            rows_per_file
        } else {
            data_len - done
        };
        let piece = build_shard_bytes(&header, rows, start_off + done, count);
        proof {
            let seg = dv.subrange(start_off + done, start_off + done + count);
            let target = shard_rows(data, rows_per_file as nat, i as nat);
            assert(seg =~= target);
        }
        shards.push(piece);
        done = done + count;
        proof {
            let newlen = shards@.len();
            assert(newlen == i + 1);
            if done < data_len {
                assert(done == newlen * rows_per_file) by (nonlinear_arith)
                    requires
                        done == i * rows_per_file + rows_per_file,
                        newlen == i + 1,
                ;
            } else {
                assert(done == data_len);
                if newlen < fc {
                    assert(newlen * rows_per_file <= (fc - 1) * rows_per_file)
                        by (nonlinear_arith)
                        requires
                            newlen <= fc - 1,
                            rows_per_file > 0,
                    ;
                    assert(newlen * rows_per_file >= done) by (nonlinear_arith)
                        requires
                            done <= i * rows_per_file + rows_per_file,
                            newlen == i + 1,
                    ;
                    assert(false);
                }
                if newlen > fc {
                    assert(false);
                }
            }
        }
    }
    Ok(shards)
}

/// Splits a CSV source held in memory into encoded shards. Success is
/// owed: exactly when the reader accepts the bytes and the parsed records
/// admit a split. The shards are then exactly those owed:
/// `ceil(data rows / rows_per_file)` of them, shard `i` carrying the
/// header and the `i`-th stride of data rows. A rejected buffer reports
/// the parse error; every other failure is the verdict owed for the
/// parsed records.
pub fn split_csv_bytes(bytes: &[u8], has_header: bool, rows_per_file: usize) -> (r: Result<
    Vec<Vec<u8>>,
    SplitError,
>)
    requires
        rows_per_file > 0,
    ensures
        !csv_parse_ok(bytes@) ==> r == Err::<Vec<Vec<u8>>, SplitError>(SplitError::Parse),
        csv_parse_ok(bytes@) ==> (r is Ok <==> split_verdict(csv_rows_of(bytes@), has_header)
            is Ok),
        csv_parse_ok(bytes@) && r is Err ==> Err::<(), SplitError>(r.unwrap_err())
            == split_verdict(csv_rows_of(bytes@), has_header),
        r is Ok ==> ({
            let rows = csv_rows_of(bytes@);
            let data = data_rows_for(rows, has_header);
            let shards = r.unwrap();
            &&& shards@.len() == ceil_div(data.len(), rows_per_file as nat)
            &&& forall|i: int|
                0 <= i < shards@.len() ==> (#[trigger] shards@[i])@ == shard_encoding(
                    header_for(rows, has_header),
                    shard_rows(data, rows_per_file as nat, i as nat),
                )
        }),
{
    match parse_csv(bytes) {
        None => Err(SplitError::Parse),
        Some(rows) => split_parsed_rows(&rows, has_header, rows_per_file),
    }
}

/// One parallel worker's computation: parses its line-aligned byte range,
/// sets the source header aside when the range opens the file, and encodes
/// at most `target_rows` records behind the shared header. Reports how
/// many data rows the shard holds. Success is owed exactly when the reader
/// accepts the chunk's bytes.
pub fn shard_bytes_from_chunk(
    chunk: &[u8],
    skip_first: bool,
    target_rows: usize,
    header: &Vec<Vec<u8>>,
) -> (r: Result<(Vec<u8>, usize), SplitError>)
    ensures
        r is Ok <==> csv_parse_ok(chunk@),
        r is Err ==> r.unwrap_err() == SplitError::Parse,
        r is Ok ==> ({
            let avail = data_rows_for(csv_rows_of(chunk@), skip_first);
            let written = r.unwrap().1;
            &&& written == if target_rows <= avail.len() {
                target_rows as int
            } else {
                avail.len() as int
            }
            &&& r.unwrap().0@ == shard_encoding(
                header.deep_view(),
                avail.take(written as int),
            )
        }),
{
    let parsed = parse_csv(chunk);
    match parsed {
        None => Err(SplitError::Parse),
        Some(rows) => {
            let ghost dv = rows.deep_view();
            let ghost avail = data_rows_for(dv, skip_first);
            let n = rows.len();
            proof {
                assert(dv.len() == n);
            }
            let start: usize = if skip_first && n > 0 {
                1
            } else {
                0
            };
            let avail_len = n - start;
            let written = if target_rows <= avail_len {
                target_rows
            } else {
                avail_len
            };
            let shard = build_shard_bytes(header, &rows, start, written);
            proof {
                assert(avail.len() == n - start);
                assert(dv.subrange(start as int, start + written) =~= avail.take(written as int));
            }
            Ok((shard, written))
        },
    }
}

} // verus!
