//! What a background scan job does to the recorded matches: a first scan over the target's
//! regions, a narrowing of the recorded matches, or a re-read of their values.

use vstd::prelude::*;

use crate::appstate::ScanJob;
use crate::error::ScanmemError;
use crate::scanroutines::{MatchType, ScanDataType};
use crate::session::{expr_problem, validate, ScanCriterion, ScanExpr};

verus! {

/// One pass over the target.
#[derive(Debug, Clone, PartialEq)]
pub enum ScanPass {
    /// Scan every considered region from scratch with this expression.
    First(ScanExpr),
    /// Re-test the recorded matches against this expression, keeping those that still match.
    Narrow(ScanExpr),
    /// Re-read the recorded matches' values, keeping every match.
    Refresh,
}

/// The expression a snapshot scans with: every numeric width, matching anything.
pub open spec fn snapshot_expr() -> ScanExpr {
    ScanExpr {
        data_type: ScanDataType::AnyNumber,
        match_type: MatchType::Any,
        criterion: ScanCriterion::Absent,
    }
}

/// The pass `job` calls for while `recorded` matches are recorded: a scan runs from scratch
/// when nothing is recorded and narrows otherwise; a new scan always runs from scratch; a
/// snapshot scans from scratch for anything; an expression [`validate`] rejects fails.
pub open spec fn pass_for(job: ScanJob, recorded: usize) -> Result<ScanPass, Seq<char>> {
    match job {
        ScanJob::Run(x) => match expr_problem(x) {
            Some(t) => Err(t),
            None => Ok(if recorded == 0 { ScanPass::First(x) } else { ScanPass::Narrow(x) }),
        },
        ScanJob::New(x) => match expr_problem(x) {
            Some(t) => Err(t),
            None => Ok(ScanPass::First(x)),
        },
        ScanJob::Snapshot => Ok(ScanPass::First(snapshot_expr())),
        ScanJob::Refresh => Ok(ScanPass::Refresh),
    }
}

/// The pass `job` calls for while `recorded` matches are recorded (see [`pass_for`]).
pub fn plan_pass(job: ScanJob, recorded: usize) -> (r: Result<ScanPass, ScanmemError>)
    ensures
        match pass_for(job, recorded) {
            Ok(p) => r == Ok::<ScanPass, ScanmemError>(p),
            Err(t) => r matches Err(ScanmemError::InvalidExpr(s)) && s@ == t,
        },
{
    match job {
        ScanJob::Run(x) => match validate(&x) {
            Err(e) => Err(e),
            Ok(()) => Ok(if recorded == 0 { ScanPass::First(x) } else { ScanPass::Narrow(x) }),
        },
        ScanJob::New(x) => match validate(&x) {
            Err(e) => Err(e),
            Ok(()) => Ok(ScanPass::First(x)),
        },
        ScanJob::Snapshot => Ok(
            ScanPass::First(
                ScanExpr {
                    data_type: ScanDataType::AnyNumber,
                    match_type: MatchType::Any,
                    criterion: ScanCriterion::Absent,
                },
            ),
        ),
        ScanJob::Refresh => Ok(ScanPass::Refresh),
    }
}

} // verus!
