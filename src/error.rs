use vstd::prelude::*;

verus! {

/// The error kinds that optimization and execution report.
#[derive(Debug, Clone, Copy, PartialEq, Eq, Structural)]
pub enum PlanError {
    /// A rewrite would change the names or types of the output columns.
    SchemaMismatch,
    /// A rule cannot act on a node and leaves it as it is.
    UnsupportedPushdown,
    /// An expression or a plan could not be evaluated.
    ComputeError,
    /// The execution was stopped through the cancellation flag.
    Cancelled,
}

pub type PlanResult<T> = Result<T, PlanError>;

} // verus!
