use vstd::prelude::*;

verus! {

/// When the store writes itself out.
#[derive(Clone, Copy, Debug, PartialEq, Eq, Structural)]
pub enum PickleDbDumpPolicy {
    /// Never write; the store is read-only with respect to its file.
    NeverDump,
    /// Write after every mutation.
    AutoDump,
    /// Write only when `dump` is called.
    DumpUponRequest,
    /// Write after a mutation when more than the given number of
    /// nanoseconds have passed since the last write.
    PeriodicDump(u128),
}

/// Whether a mutation made `elapsed` nanoseconds after the last flush
/// triggers a flush under `p`.
pub open spec fn flushes_after_mutation(p: PickleDbDumpPolicy, elapsed: int) -> bool {
    match p {
        PickleDbDumpPolicy::AutoDump => true,
        PickleDbDumpPolicy::PeriodicDump(d) => elapsed > d,
        _ => false,
    }
}

/// Decides whether a mutation made `elapsed_nanos` after the last flush
/// triggers a flush.
pub fn flush_due(policy: &PickleDbDumpPolicy, elapsed_nanos: u128) -> (r: bool)
    ensures
        r == flushes_after_mutation(*policy, elapsed_nanos as int),
{
    match policy {
        PickleDbDumpPolicy::AutoDump => true,
        PickleDbDumpPolicy::PeriodicDump(d) => elapsed_nanos > *d,
        _ => false,
    }
}

} // verus!
