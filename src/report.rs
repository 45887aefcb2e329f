//! Fan-in of a reconciliation pass: every task's failure is kept, none stops
//! the others, and the pass fails when any task did.

use crate::integrity::VerifyError;
use vstd::prelude::*;

verus! {

/// Why one task of a pass failed.
pub enum TaskError {
    /// The file on disk, or the one just fetched, did not check out.
    Integrity(VerifyError),
    /// The download of `file_name` failed; `reason` is the fetcher's account.
    Fetch { file_name: String, reason: String },
    /// The file at `path` could not be deleted.
    Remove { path: String, reason: String },
    /// The file at `path` could not be read.
    Read { path: String, reason: String },
}

/// The failures of a pass, in the order of its tasks.
pub struct Error {
    pub failures: Vec<TaskError>,
}

/// The errors among `outcomes`, in order.
pub open spec fn failures_of(outcomes: Seq<Result<(), TaskError>>) -> Seq<TaskError>
    decreases outcomes.len(),
{
    if outcomes.len() == 0 {
        Seq::empty()
    } else {
        let rest = failures_of(outcomes.drop_first());
        match outcomes[0] {
            Ok(()) => rest,
            Err(e) => seq![e] + rest,
        }
    }
}

/// The outcome of a whole pass: success when every task succeeded, else one
/// error that lists every failure in task order.
pub fn aggregate(outcomes: Vec<Result<(), TaskError>>) -> (r: Result<(), Error>)
    ensures
        r is Ok <==> failures_of(outcomes@).len() == 0,
        r matches Err(e) ==> e.failures@ == failures_of(outcomes@),
{
    let ghost all = outcomes@;
    let mut failures: Vec<TaskError> = Vec::new();
    let mut rest = outcomes;
    assert(failures@ + failures_of(all) =~= failures_of(all));
    while rest.len() > 0
        invariant
            failures_of(all) == failures@ + failures_of(rest@),
        decreases rest@.len(),
    {
        let ghost before = rest@;
        let o = rest.remove(0);
        assert(before[0] == o);
        assert(before.drop_first() =~= rest@);
        match o {
            Ok(()) => {},
            Err(e) => {
                let ghost prev = failures@;
                failures.push(e);
                assert(failures@ =~= prev + seq![failures@.last()]);
            },
        }
    }
    assert(failures@ + failures_of(rest@) =~= failures@);
    if failures.len() == 0 {
        Ok(())
    } else {
        Err(Error { failures })
    }
}

} // verus!
