use vstd::prelude::*;

use crate::errors::SplitError;

verus! {

/// The facts a request is validated against. The caller probes the file
/// system and records what it found; validation itself is a pure decision
/// over these facts, so two runs over the same facts decide alike.
pub struct RequestFacts {
    /// The input file exists.
    pub input_exists: bool,
    /// The input file name carries the `.csv` extension.
    pub input_is_csv: bool,
    /// Size of the input file in bytes.
    pub input_len: u64,
    /// The output directory exists, or was created on demand.
    pub output_dir_available: bool,
    /// A scoped probe file could be created in the output directory.
    pub output_dir_writable: bool,
    /// Upper bound on data rows per shard, from the request.
    pub rows_per_file: usize,
}

/// The verdict validation owes for given facts: the first failed check
/// in order — missing input, wrong extension, empty input, unavailable
/// output directory, unwritable output directory, zero rows per file.
pub open spec fn validation_verdict(facts: RequestFacts) -> Result<(), SplitError> {
    if !facts.input_exists {
        Err(SplitError::InputMissing)
    } else if !facts.input_is_csv {
        Err(SplitError::NotCsv)
    } else if facts.input_len == 0 {
        Err(SplitError::EmptyInput)
    } else if !facts.output_dir_available {
        Err(SplitError::OutputDirCreate)
    } else if !facts.output_dir_writable {
        Err(SplitError::OutputDirUnwritable)
    } else if facts.rows_per_file == 0 {
        Err(SplitError::ZeroRowsPerFile)
    } else {
        Ok(())
    }
}

/// Checks a request before any shard is created.
pub fn validate_request(facts: &RequestFacts) -> (r: Result<(), SplitError>)
    ensures
        r == validation_verdict(*facts),
{
    if !facts.input_exists {
        Err(SplitError::InputMissing)
    } else if !facts.input_is_csv {
        Err(SplitError::NotCsv)
    } else if facts.input_len == 0 {
        Err(SplitError::EmptyInput)
    } else if !facts.output_dir_available {
        Err(SplitError::OutputDirCreate)
    } else if !facts.output_dir_writable {
        Err(SplitError::OutputDirUnwritable)
    } else if facts.rows_per_file == 0 {
        Err(SplitError::ZeroRowsPerFile)
    } else {
        Ok(())
    }
}

/// Validation is idempotent on an unwritable output directory: whenever the
/// input itself is acceptable but the directory refuses the write probe, the
/// verdict is `OutputDirUnwritable` — a validation error — every time, before
/// any shard is created.
pub proof fn lemma_unwritable_always_same_error(facts: RequestFacts)
    requires
        facts.input_exists,
        facts.input_is_csv,
        facts.input_len > 0,
        facts.output_dir_available,
        !facts.output_dir_writable,
    ensures
        validation_verdict(facts) == Err::<(), SplitError>(SplitError::OutputDirUnwritable),
        validation_verdict(facts).unwrap_err().kind_spec() == crate::errors::ErrorKind::Validation,
{
}

/// A rows-per-file bound of zero is rejected, and with exactly the
/// rows-per-file error, whenever the input itself passed its checks.
pub proof fn lemma_zero_rows_per_file_rejected(facts: RequestFacts)
    requires
        facts.rows_per_file == 0,
    ensures
        validation_verdict(facts) is Err,
        facts.input_exists && facts.input_is_csv && facts.input_len > 0
            && facts.output_dir_available && facts.output_dir_writable
            ==> validation_verdict(facts) == Err::<(), SplitError>(SplitError::ZeroRowsPerFile),
{
}

/// An empty input file is rejected whenever it exists and is named `.csv`.
pub proof fn lemma_empty_input_rejected(facts: RequestFacts)
    requires
        facts.input_exists,
        facts.input_is_csv,
        facts.input_len == 0,
    ensures
        validation_verdict(facts) == Err::<(), SplitError>(SplitError::EmptyInput),
{
}

} // verus!
