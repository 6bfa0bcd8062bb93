use csv_sharder::errors::SplitError;
use csv_sharder::pipeline::shard_bytes_from_chunk;
use csv_sharder::pipeline::split_csv_bytes;

/// Reads the records of one encoded shard back, headers off.
fn records_of(bytes: &[u8]) -> Vec<Vec<String>> {
    let mut reader = csv::ReaderBuilder::new()
        .has_headers(false)
        .from_reader(bytes);
    let mut rows = Vec::new();
    for rec in reader.byte_records() {
        let rec = rec.expect("shard parses back");
        rows.push(
            rec.iter()
                .map(|f| String::from_utf8(f.to_vec()).unwrap())
                .collect(),
        );
    }
    rows
}

fn nine_row_source() -> Vec<u8> {
    let mut s = String::from("id,name\n");
    for i in 1..=9 {
        s.push_str(&format!("{},row{}\n", i, i));
    }
    s.into_bytes()
}

#[test]
fn nine_rows_by_four_gives_three_shards_of_4_4_1() {
    let shards = split_csv_bytes(&nine_row_source(), true, 4).expect("split succeeds");
    assert_eq!(shards.len(), 3);
    let sizes: Vec<usize> = shards.iter().map(|s| records_of(s).len() - 1).collect();
    assert_eq!(sizes, vec![4, 4, 1]);
    for shard in &shards {
        let rows = records_of(shard);
        assert_eq!(rows[0], vec!["id".to_string(), "name".to_string()]);
    }
}

#[test]
fn shards_concatenate_back_to_the_source_rows() {
    let source = nine_row_source();
    let shards = split_csv_bytes(&source, true, 4).expect("split succeeds");
    let mut reassembled: Vec<Vec<String>> = Vec::new();
    for shard in &shards {
        let rows = records_of(shard);
        reassembled.extend(rows.into_iter().skip(1));
    }
    let source_rows: Vec<Vec<String>> = records_of(&source).into_iter().skip(1).collect();
    assert_eq!(reassembled, source_rows);
}

#[test]
fn exact_multiple_fills_every_shard() {
    let shards = split_csv_bytes(&nine_row_source(), true, 3).expect("split succeeds");
    assert_eq!(shards.len(), 3);
    let sizes: Vec<usize> = shards.iter().map(|s| records_of(s).len() - 1).collect();
    assert_eq!(sizes, vec![3, 3, 3]);
}

#[test]
fn headerless_source_gets_synthesized_column_names() {
    let shards = split_csv_bytes(b"1,a\n2,b\n3,c\n", false, 2).expect("split succeeds");
    assert_eq!(shards.len(), 2);
    let rows = records_of(&shards[0]);
    assert_eq!(rows[0], vec!["column_1".to_string(), "column_2".to_string()]);
    assert_eq!(rows[1], vec!["1".to_string(), "a".to_string()]);
    let rows2 = records_of(&shards[1]);
    assert_eq!(rows2[0], vec!["column_1".to_string(), "column_2".to_string()]);
    assert_eq!(rows2[1], vec!["3".to_string(), "c".to_string()]);
}

#[test]
fn quoted_fields_survive_the_round_trip() {
    let shards = split_csv_bytes(b"h1,h2\nx,\"y,z\"\n", true, 5).expect("split succeeds");
    assert_eq!(shards.len(), 1);
    let rows = records_of(&shards[0]);
    assert_eq!(rows[1], vec!["x".to_string(), "y,z".to_string()]);
}

#[test]
fn empty_source_reports_no_data_rows() {
    assert_eq!(split_csv_bytes(b"", true, 5), Err(SplitError::NoDataRows));
}

#[test]
fn headerless_empty_source_reports_no_columns() {
    assert_eq!(split_csv_bytes(b"", false, 5), Err(SplitError::NoColumns));
}

#[test]
fn header_only_source_reports_no_data_rows() {
    assert_eq!(
        split_csv_bytes(b"id,name\n", true, 5),
        Err(SplitError::NoDataRows)
    );
}

#[test]
fn chunk_worker_encodes_its_slice_behind_the_header() {
    let header: Vec<Vec<u8>> = vec![b"x".to_vec(), b"y".to_vec()];
    let (shard, written) =
        shard_bytes_from_chunk(b"1,a\n2,b\n3,c\n", false, 2, &header).expect("worker succeeds");
    assert_eq!(written, 2);
    assert_eq!(shard, b"x,y\n1,a\n2,b\n".to_vec());
}

#[test]
fn chunk_worker_skips_the_header_line_of_the_first_chunk() {
    let header: Vec<Vec<u8>> = vec![b"x".to_vec(), b"y".to_vec()];
    let (shard, written) =
        shard_bytes_from_chunk(b"x,y\n1,a\n2,b\n", true, 5, &header).expect("worker succeeds");
    assert_eq!(written, 2);
    assert_eq!(shard, b"x,y\n1,a\n2,b\n".to_vec());
}

#[test]
fn chunk_worker_reports_short_chunks() {
    let header: Vec<Vec<u8>> = vec![b"x".to_vec()];
    let (_, written) = shard_bytes_from_chunk(b"1\n", false, 4, &header).expect("worker succeeds");
    assert_eq!(written, 1);
}

#[test]
fn ragged_records_report_a_parse_error() {
    assert_eq!(
        split_csv_bytes(b"a,b\n1\n2,3\n", true, 2),
        Err(SplitError::Parse)
    );
}
