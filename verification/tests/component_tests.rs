use csv_sharder::chunks::chunk_boundaries;
use csv_sharder::chunks::chunk_target_rows;
use csv_sharder::convert::column_cap;
use csv_sharder::convert::row_height_marker;
use csv_sharder::convert::truncate_cell;
use csv_sharder::header::shard_file_name;
use csv_sharder::header::synthesize_header;
use csv_sharder::lines::count_newlines;
use csv_sharder::lines::data_row_count;
use csv_sharder::lines::index_line_breaks;
use csv_sharder::lines::total_line_count;
use csv_sharder::strategy::choose_parallel;
use csv_sharder::strategy::estimate_exceeds_cap;
use csv_sharder::strategy::extend_line_estimate;

#[test]
fn line_breaks_are_indexed_exactly() {
    let bytes = b"a\nbb\n\nc";
    let breaks = index_line_breaks(bytes);
    assert_eq!(breaks, vec![1, 4, 5]);
    assert_eq!(total_line_count(&breaks, bytes), 4);
}

#[test]
fn terminated_final_line_is_not_counted_twice() {
    let bytes = b"a\nb\n";
    let breaks = index_line_breaks(bytes);
    assert_eq!(breaks, vec![1, 3]);
    assert_eq!(total_line_count(&breaks, bytes), 2);
}

#[test]
fn unterminated_single_line_counts_once() {
    let bytes = b"abc";
    let breaks = index_line_breaks(bytes);
    assert!(breaks.is_empty());
    assert_eq!(total_line_count(&breaks, bytes), 1);
}

#[test]
fn empty_buffer_has_no_lines() {
    let bytes = b"";
    let breaks = index_line_breaks(bytes);
    assert!(breaks.is_empty());
    assert_eq!(total_line_count(&breaks, bytes), 0);
}

#[test]
fn data_rows_exclude_the_declared_header() {
    assert_eq!(data_row_count(10, true), 9);
    assert_eq!(data_row_count(10, false), 10);
    assert_eq!(data_row_count(0, true), 0);
    assert_eq!(data_row_count(1, true), 0);
}

#[test]
fn line_estimate_accumulates_and_saturates() {
    assert_eq!(count_newlines(b"a\nb\n\n"), 3);
    assert_eq!(extend_line_estimate(10, b"x\ny\n"), 12);
    assert_eq!(extend_line_estimate(usize::MAX - 1, b"\n\n\n"), usize::MAX);
    assert!(estimate_exceeds_cap(500_001));
    assert!(!estimate_exceeds_cap(500_000));
}

#[test]
fn strategy_picks_parallel_only_beyond_the_thresholds() {
    assert!(choose_parallel(200 * 1024 * 1024, 0));
    assert!(choose_parallel(1, 500_001));
    assert!(!choose_parallel(100 * 1024 * 1024, 500_000));
    assert!(!choose_parallel(1, 10));
}

#[test]
fn chunk_boundaries_walk_the_line_index() {
    // Twelve bytes, four terminated lines: "aa\nbb\ncc\ndd\n".
    let breaks = vec![2usize, 5, 8, 11];
    let bounds = chunk_boundaries(&breaks, 12, true, 3, 1);
    assert_eq!(bounds, vec![3, 6, 9, 12]);
}

#[test]
fn chunk_boundaries_without_header_start_at_zero() {
    let breaks = vec![2usize, 5, 8, 11];
    let bounds = chunk_boundaries(&breaks, 12, false, 2, 2);
    assert_eq!(bounds, vec![0, 6, 12]);
}

#[test]
fn chunk_boundaries_past_the_index_close_at_end_of_file() {
    let breaks = vec![2usize];
    let bounds = chunk_boundaries(&breaks, 9, false, 2, 5);
    assert_eq!(bounds, vec![0, 9, 9]);
}

#[test]
fn last_chunk_absorbs_the_remainder() {
    assert_eq!(chunk_target_rows(0, 3, 10, 4), 4);
    assert_eq!(chunk_target_rows(1, 3, 10, 4), 4);
    assert_eq!(chunk_target_rows(2, 3, 10, 4), 2);
    assert_eq!(chunk_target_rows(0, 1, 3, 3), 3);
}

#[test]
fn synthesized_header_names_columns_in_order() {
    let h = synthesize_header(3);
    assert_eq!(h, vec![b"column_1".to_vec(), b"column_2".to_vec(), b"column_3".to_vec()]);
    let wide = synthesize_header(12);
    assert_eq!(wide[11], b"column_12".to_vec());
    assert!(synthesize_header(0).is_empty());
}

#[test]
fn shard_names_carry_index_and_format() {
    assert_eq!(shard_file_name(&b"data".to_vec(), 3, false), b"data_3.csv".to_vec());
    assert_eq!(shard_file_name(&b"data".to_vec(), 12, true), b"data_12.xlsx".to_vec());
    assert_eq!(shard_file_name(&b"a".to_vec(), 10, false), b"a_10.csv".to_vec());
}

#[test]
fn short_cells_cross_conversion_unchanged() {
    let cell = vec![b'x'; 500];
    assert_eq!(truncate_cell(&cell), cell);
    let small = b"3.14".to_vec();
    assert_eq!(truncate_cell(&small), small);
}

#[test]
fn long_cells_are_truncated_to_the_cap() {
    let cell = vec![b'x'; 501];
    let t = truncate_cell(&cell);
    assert_eq!(t.len(), 500);
    assert_eq!(t, vec![b'x'; 500]);
}

#[test]
fn column_cap_keeps_at_most_one_hundred() {
    assert_eq!(column_cap(3), 3);
    assert_eq!(column_cap(100), 100);
    assert_eq!(column_cap(150), 100);
}

#[test]
fn row_height_marker_fires_once_per_interval() {
    assert_eq!(row_height_marker(1), None);
    assert_eq!(row_height_marker(4999), None);
    assert_eq!(row_height_marker(5000), Some(0));
    assert_eq!(row_height_marker(10000), Some(5000));
    assert_eq!(row_height_marker(10001), None);
}
