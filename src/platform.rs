//! The machine's processor counts.

use vstd::prelude::*;

verus! {

/// Relies on `num_cpus::get`: the number of logical CPUs available to this
/// process, documented to be at least 1.
#[verifier::external_body]
pub(crate) fn logical_cpus() -> (r: usize)
    ensures
        r >= 1,
{
    num_cpus::get()
}

/// Relies on `num_cpus::get_physical`: the number of physical cores, documented
/// to be at least 1.
#[verifier::external_body]
pub(crate) fn physical_cpus() -> (r: usize)
    ensures
        r >= 1,
{
    num_cpus::get_physical()
}

/// The number of physical cores whose registers a model-specific-register
/// backend reads.
pub fn physical_core_count() -> (r: usize)
    ensures
        r >= 1,
{
    physical_cpus()
}

} // verus!
