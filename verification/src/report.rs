use vstd::prelude::*;
use vstd::string::StringExecFns;

use crate::errors::SplitError;

verus! {

/// The sole artifact exposed at the boundary: either a shard count, or a
/// human-readable message. No failure escapes as anything else.
pub struct SplitResult {
    pub success: bool,
    pub file_count: usize,
    pub error: Option<String>,
}

/// One worker's reported failure: which shard it was writing, and why.
#[derive(Clone, Copy, PartialEq, Eq, Structural, Debug)]
pub struct WorkerFailure {
    /// 1-based index of the shard the worker owned.
    pub shard_index: usize,
    pub error: SplitError,
}

/// The decimal digit `d` as a one-character text.
pub open spec fn digit_char(d: nat) -> Seq<char> {
    if d == 0 {
        "0"@
    } else if d == 1 {
        "1"@
    } else if d == 2 {
        "2"@
    } else if d == 3 {
        "3"@
    } else if d == 4 {
        "4"@
    } else if d == 5 {
        "5"@
    } else if d == 6 {
        "6"@
    } else if d == 7 {
        "7"@
    } else if d == 8 {
        "8"@
    } else {
        "9"@
    }
}

/// Decimal rendering of `n` as text, most significant digit first.
pub open spec fn decimal_chars(n: nat) -> Seq<char>
    decreases n,
{
    if n < 10 {
        digit_char(n)
    } else {
        decimal_chars(n / 10) + digit_char(n % 10)
    }
}

/// Appends one decimal digit.
fn append_digit(d: usize, out: &mut String)
    requires
        d < 10,
    ensures
        final(out)@ == old(out)@ + digit_char(d as nat),
{
    if d == 0 {
        out.append("0");
    } else if d == 1 {
        out.append("1");
    } else if d == 2 {
        out.append("2");
    } else if d == 3 {
        out.append("3");
    } else if d == 4 {
        out.append("4");
    } else if d == 5 {
        out.append("5");
    } else if d == 6 {
        out.append("6");
    } else if d == 7 {
        out.append("7");
    } else if d == 8 {
        out.append("8");
    } else {
        out.append("9");
    }
}

/// Appends the decimal rendering of `n`.
fn append_decimal(n: usize, out: &mut String)
    ensures
        final(out)@ == old(out)@ + decimal_chars(n as nat),
    decreases n,
{
    if n < 10 {
        append_digit(n, out);
    } else {
        append_decimal(n / 10, out);
        append_digit(n % 10, out);
        proof {
            assert(final(out)@ =~= old(out)@ + decimal_chars(n as nat));
        }
    }
}

impl WorkerFailure {
    /// The message the report carries: the failing shard named by index,
    /// then the error's own message.
    pub open spec fn message_spec(self) -> Seq<char> {
        "shard "@ + decimal_chars(self.shard_index as nat) + " failed: "@
            + self.error.message_spec()
    }

    pub fn message(&self) -> (r: String)
        ensures
            r@ == self.message_spec(),
    {
        let mut out = String::new();
        out.append("shard ");
        append_decimal(self.shard_index, &mut out);
        out.append(" failed: ");
        let tail = self.error.message();
        out.append(tail.as_str());
        proof {
            assert(out@ =~= self.message_spec());
        }
        out
    }
}

/// Builds the boundary report: the shard count on success, the error's
/// message and a zero count otherwise.
pub fn aggregate(outcome: Result<usize, SplitError>) -> (r: SplitResult)
    ensures
        match outcome {
            Ok(n) => r.success && r.file_count == n && r.error is None,
            Err(e) => !r.success && r.file_count == 0 && r.error is Some
                && r.error.unwrap()@ == e.message_spec(),
        },
{
    match outcome {
        Ok(n) => SplitResult { success: true, file_count: n, error: None },
        Err(e) => SplitResult { success: false, file_count: 0, error: Some(e.message()) },
    }
}

/// Builds the boundary report of the parallel pass: on a worker's failure
/// the message names the failing shard.
pub fn aggregate_workers(outcome: Result<usize, WorkerFailure>) -> (r: SplitResult)
    ensures
        match outcome {
            Ok(n) => r.success && r.file_count == n && r.error is None,
            Err(wf) => !r.success && r.file_count == 0 && r.error is Some
                && r.error.unwrap()@ == wf.message_spec(),
        },
{
    match outcome {
        Ok(n) => SplitResult { success: true, file_count: n, error: None },
        Err(wf) => SplitResult { success: false, file_count: 0, error: Some(wf.message()) },
    }
}

/// Walks the collected per-worker outcomes in order: returns how many
/// outcomes there are when every one is `Ok`, else the first failure,
/// paired with the shard index its worker reported.
pub fn collect_worker_results(results: &Vec<(usize, Result<(), SplitError>)>) -> (r: Result<
    usize,
    WorkerFailure,
>)
    ensures
        r is Ok <==> (forall|j: int|
            0 <= j < results@.len() ==> (#[trigger] results@[j]).1 is Ok),
        r is Ok ==> r.unwrap() == results@.len(),
        r is Err ==> exists|j: int|
            0 <= j < results@.len() && (#[trigger] results@[j]).0 == r.unwrap_err().shard_index
                && results@[j].1 == Err::<(), SplitError>(r.unwrap_err().error) && (forall|k: int|
                0 <= k < j ==> (#[trigger] results@[k]).1 is Ok),
{
    let n = results.len();
    let mut j: usize = 0;
    while j < n
        invariant
            n == results@.len(),
            j <= n,
            forall|k: int| 0 <= k < j ==> (#[trigger] results@[k]).1 is Ok,
        decreases n - j,
    {
        let (shard_index, outcome) = results[j];
        match outcome {
            Ok(_) => {},
            Err(e) => {
                return Err(WorkerFailure { shard_index, error: e });
            },
        }
        j += 1;
    }
    Ok(n)
}

} // verus!
