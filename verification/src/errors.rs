use vstd::prelude::*;

verus! {

/// Every failure the split operation can report. All failures are carried
/// as values to the boundary; no verified function panics.
#[derive(Clone, Copy, PartialEq, Eq, Structural, Debug)]
pub enum SplitError {
    /// The input file does not exist.
    InputMissing,
    /// The input file does not carry the `.csv` extension.
    NotCsv,
    /// The input file is empty.
    EmptyInput,
    /// The output directory could not be created.
    OutputDirCreate,
    /// The output directory refused the write probe.
    OutputDirUnwritable,
    /// The rows-per-file bound is zero.
    ZeroRowsPerFile,
    /// The first record of the source has no fields, so no header can be
    /// synthesized.
    NoColumns,
    /// The source holds no data rows.
    NoDataRows,
    /// A record of the source could not be parsed.
    Parse,
    /// A file operation failed.
    Io,
    /// Writing a spreadsheet failed.
    Conversion,
}

/// The broad families of `SplitError`, used to state that two runs fail
/// the same way.
#[derive(Clone, Copy, PartialEq, Eq, Structural, Debug)]
pub enum ErrorKind {
    Validation,
    Parse,
    Io,
    Conversion,
}

impl SplitError {
    /// The family a given error belongs to.
    pub open spec fn kind_spec(self) -> ErrorKind {
        match self {
            SplitError::InputMissing => ErrorKind::Validation,
            SplitError::NotCsv => ErrorKind::Validation,
            SplitError::EmptyInput => ErrorKind::Validation,
            SplitError::OutputDirCreate => ErrorKind::Validation,
            SplitError::OutputDirUnwritable => ErrorKind::Validation,
            SplitError::ZeroRowsPerFile => ErrorKind::Validation,
            SplitError::NoColumns => ErrorKind::Parse,
            SplitError::NoDataRows => ErrorKind::Validation,
            SplitError::Parse => ErrorKind::Parse,
            SplitError::Io => ErrorKind::Io,
            SplitError::Conversion => ErrorKind::Conversion,
        }
    }

    pub fn kind(&self) -> (r: ErrorKind)
        ensures
            r == self.kind_spec(),
    {
        match self {
            SplitError::InputMissing => ErrorKind::Validation,
            SplitError::NotCsv => ErrorKind::Validation,
            SplitError::EmptyInput => ErrorKind::Validation,
            SplitError::OutputDirCreate => ErrorKind::Validation,
            SplitError::OutputDirUnwritable => ErrorKind::Validation,
            SplitError::ZeroRowsPerFile => ErrorKind::Validation,
            SplitError::NoColumns => ErrorKind::Parse,
            SplitError::NoDataRows => ErrorKind::Validation,
            SplitError::Parse => ErrorKind::Parse,
            SplitError::Io => ErrorKind::Io,
            SplitError::Conversion => ErrorKind::Conversion,
        }
    }

    /// The human-readable message of each error.
    pub open spec fn message_spec(self) -> Seq<char> {
        match self {
            SplitError::InputMissing => "input file does not exist"@,
            SplitError::NotCsv => "input file must be a .csv file"@,
            SplitError::EmptyInput => "the CSV file is empty"@,
            SplitError::OutputDirCreate => "the output directory could not be created"@,
            SplitError::OutputDirUnwritable => "the output directory is not writable"@,
            SplitError::ZeroRowsPerFile => "rows per file must be greater than zero"@,
            SplitError::NoColumns => "the CSV file has no columns"@,
            SplitError::NoDataRows => "the CSV file has no data rows"@,
            SplitError::Parse => "failed to parse a CSV record"@,
            SplitError::Io => "a file operation failed"@,
            SplitError::Conversion => "failed to convert a shard to a spreadsheet"@,
        }
    }

    pub fn message(&self) -> (r: String)
        ensures
            r@ == self.message_spec(),
    {
        match self {
            SplitError::InputMissing => "input file does not exist".to_owned(),
            SplitError::NotCsv => "input file must be a .csv file".to_owned(),
            SplitError::EmptyInput => "the CSV file is empty".to_owned(),
            SplitError::OutputDirCreate => "the output directory could not be created".to_owned(),
            SplitError::OutputDirUnwritable => "the output directory is not writable".to_owned(),
            SplitError::ZeroRowsPerFile => "rows per file must be greater than zero".to_owned(),
            SplitError::NoColumns => "the CSV file has no columns".to_owned(),
            SplitError::NoDataRows => "the CSV file has no data rows".to_owned(),
            SplitError::Parse => "failed to parse a CSV record".to_owned(),
            SplitError::Io => "a file operation failed".to_owned(),
            SplitError::Conversion => "failed to convert a shard to a spreadsheet".to_owned(),
        }
    }
}

} // verus!
