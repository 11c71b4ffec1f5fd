//! Logical dependency and retirement values kept beside the digest-only edits of a change.

use crate::kernel::{DependencyRecord, RetirementRecord};
use vstd::prelude::*;

verus! {

/// The dependency records a digest-only dependency edit stands for, before and after.
#[derive(Clone, Copy, Debug, PartialEq, Eq, Structural)]
pub struct LogicalDependencyValues {
    pub before: Option<DependencyRecord>,
    pub after: Option<DependencyRecord>,
}

/// The retirement records a digest-only retirement edit stands for, before and after.
#[derive(Clone, Copy, Debug, PartialEq, Eq, Structural)]
pub struct LogicalRetirementValues {
    pub before: Option<RetirementRecord>,
    pub after: Option<RetirementRecord>,
}

} // verus!
