use csv_sharder::errors::ErrorKind;
use csv_sharder::errors::SplitError;
use csv_sharder::report::aggregate;
use csv_sharder::report::aggregate_workers;
use csv_sharder::report::collect_worker_results;
use csv_sharder::report::WorkerFailure;
use csv_sharder::shard_count;
use csv_sharder::splitter::SequentialSplitter;
use csv_sharder::validate::validate_request;
use csv_sharder::validate::RequestFacts;

fn facts_ok() -> RequestFacts {
    RequestFacts {
        input_exists: true,
        input_is_csv: true,
        input_len: 42,
        output_dir_available: true,
        output_dir_writable: true,
        rows_per_file: 4,
    }
}

#[test]
fn shard_count_is_ceiling() {
    assert_eq!(shard_count(9, 4), 3);
    assert_eq!(shard_count(8, 4), 2);
    assert_eq!(shard_count(1, 1), 1);
    assert_eq!(shard_count(10, 3), 4);
    assert_eq!(shard_count(0, 5), 0);
    assert_eq!(shard_count(500, 500), 1);
}

#[test]
fn validation_accepts_good_request() {
    assert!(validate_request(&facts_ok()).is_ok());
}

#[test]
fn validation_rejects_missing_input() {
    let mut f = facts_ok();
    f.input_exists = false;
    assert_eq!(validate_request(&f), Err(SplitError::InputMissing));
}

#[test]
fn validation_rejects_wrong_extension() {
    let mut f = facts_ok();
    f.input_is_csv = false;
    assert_eq!(validate_request(&f), Err(SplitError::NotCsv));
}

#[test]
fn validation_rejects_empty_input() {
    let mut f = facts_ok();
    f.input_len = 0;
    assert_eq!(validate_request(&f), Err(SplitError::EmptyInput));
}

#[test]
fn validation_rejects_unavailable_output_dir() {
    let mut f = facts_ok();
    f.output_dir_available = false;
    assert_eq!(validate_request(&f), Err(SplitError::OutputDirCreate));
}

#[test]
fn validation_rejects_zero_rows_per_file() {
    let mut f = facts_ok();
    f.rows_per_file = 0;
    assert_eq!(validate_request(&f), Err(SplitError::ZeroRowsPerFile));
}

#[test]
fn unwritable_output_fails_the_same_way_every_run() {
    let mut f = facts_ok();
    f.output_dir_writable = false;
    let first = validate_request(&f);
    let second = validate_request(&f);
    assert_eq!(first, Err(SplitError::OutputDirUnwritable));
    assert_eq!(first, second);
    assert_eq!(first.unwrap_err().kind(), ErrorKind::Validation);
}

#[test]
fn every_error_has_a_message() {
    let errors = vec![
        SplitError::InputMissing,
        SplitError::NotCsv,
        SplitError::EmptyInput,
        SplitError::OutputDirCreate,
        SplitError::OutputDirUnwritable,
        SplitError::ZeroRowsPerFile,
        SplitError::NoColumns,
        SplitError::NoDataRows,
        SplitError::Parse,
        SplitError::Io,
        SplitError::Conversion,
    ];
    for e in errors {
        assert!(!e.message().is_empty());
    }
    assert_eq!(SplitError::EmptyInput.message(), "the CSV file is empty");
}

#[test]
fn aggregate_reports_success() {
    let r = aggregate(Ok(3));
    assert!(r.success);
    assert_eq!(r.file_count, 3);
    assert!(r.error.is_none());
}

#[test]
fn aggregate_reports_failure_with_message() {
    let r = aggregate(Err(SplitError::ZeroRowsPerFile));
    assert!(!r.success);
    assert_eq!(r.file_count, 0);
    assert_eq!(
        r.error,
        Some("rows per file must be greater than zero".to_string())
    );
}

#[test]
fn collect_worker_results_counts_successes() {
    let results: Vec<(usize, Result<(), SplitError>)> = vec![(1, Ok(())), (2, Ok(())), (3, Ok(()))];
    assert_eq!(collect_worker_results(&results), Ok(3));
}

#[test]
fn collect_worker_results_reports_first_failure_with_its_shard() {
    let results: Vec<(usize, Result<(), SplitError>)> =
        vec![(1, Ok(())), (2, Err(SplitError::Io)), (3, Err(SplitError::Parse))];
    assert_eq!(
        collect_worker_results(&results),
        Err(WorkerFailure { shard_index: 2, error: SplitError::Io })
    );
}

#[test]
fn worker_failure_message_names_the_shard() {
    let wf = WorkerFailure { shard_index: 12, error: SplitError::Io };
    assert_eq!(wf.message(), "shard 12 failed: a file operation failed");
    let report = aggregate_workers(Err(wf));
    assert!(!report.success);
    assert_eq!(report.file_count, 0);
    assert_eq!(
        report.error,
        Some("shard 12 failed: a file operation failed".to_string())
    );
}

#[test]
fn aggregate_workers_reports_success() {
    let report = aggregate_workers(Ok(4));
    assert!(report.success);
    assert_eq!(report.file_count, 4);
    assert!(report.error.is_none());
}

#[test]
fn sequential_splitter_opens_shards_on_schedule() {
    let mut s = SequentialSplitter::new(4);
    let mut opened: Vec<usize> = Vec::new();
    for k in 0..9usize {
        if s.begin_record() {
            opened.push(k);
        }
    }
    assert_eq!(opened, vec![0, 4, 8]);
    assert_eq!(s.shards_opened, 3);
    assert_eq!(s.records_seen, 9);
}

#[test]
fn sequential_splitter_single_row_shards() {
    let mut s = SequentialSplitter::new(1);
    for _ in 0..5usize {
        assert!(s.begin_record());
    }
    assert_eq!(s.shards_opened, 5);
}
