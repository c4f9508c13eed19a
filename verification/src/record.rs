use vstd::prelude::*;

verus! {

/// One CPU utilisation reading, stored as an order key.
///
/// The snapshot provider reports CPU utilisation as a floating-point
/// percentage, and the table only ever compares readings against each
/// other. The host therefore hands the reading over as an
/// order-preserving unsigned key; a value that compares with nothing
/// (an undefined or not-a-number reading) arrives as `Incomparable` and
/// ties with every other reading when ranking.
#[derive(Clone, Copy, PartialEq, Eq, Structural, Debug)]
pub enum CpuReading {
    Ordered(u64),
    Incomparable,
}

/// One raw snapshot entry, as the snapshot provider hands it over:
/// process identity, display name, resident memory in bytes, and the
/// instantaneous CPU reading.
#[derive(Clone, Debug)]
pub struct RawProcess {
    pub pid: u32,
    pub name: String,
    pub memory_bytes: u64,
    pub cpu_percent: CpuReading,
}

/// One row of the process table, immutable once built. A refresh builds
/// an entirely new set of rows; no row is ever updated in place.
#[derive(Clone, Debug)]
pub struct ProcessRecord {
    pub pid: u32,
    pub name: String,
    /// Resident memory in whole megabytes, truncated (never rounded).
    pub memory_mb: u64,
    pub cpu_percent: CpuReading,
}

/// Bytes-to-megabytes conversion used for the memory column: integer
/// (floor) division, so fractional megabytes are truncated.
pub open spec fn mb_of_bytes(bytes: u64) -> u64 {
    bytes / 1_048_576
}

/// The table row that one raw snapshot entry normalises to.
pub open spec fn record_of(raw: RawProcess) -> ProcessRecord {
    ProcessRecord {
        pid: raw.pid,
        name: raw.name,
        memory_mb: mb_of_bytes(raw.memory_bytes),
        cpu_percent: raw.cpu_percent,
    }
}

/// The rows that a whole raw snapshot normalises to, entry by entry.
pub open spec fn records_of(snapshot: Seq<RawProcess>) -> Seq<ProcessRecord> {
    snapshot.map_values(|raw: RawProcess| record_of(raw))
}

/// Builds the table row for one raw snapshot entry.
///
/// Total: every raw entry, including one with zero memory or an empty
/// name, yields a record. Memory is converted from bytes to whole
/// megabytes by integer division; the CPU reading is passed through
/// unchanged (no clamping).
pub fn build_record(raw: RawProcess) -> (r: ProcessRecord)
    ensures
        r == record_of(raw),
{
    ProcessRecord {
        pid: raw.pid,
        name: raw.name,
        memory_mb: raw.memory_bytes / 1_048_576,
        cpu_percent: raw.cpu_percent,
    }
}

} // verus!
