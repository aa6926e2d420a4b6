//! User-initiated searches: for a value given by its bytes, and for pointers
//! to a given address.

use vstd::prelude::*;
use crate::encoding::{le_bytes, write_le};
use crate::region::{POINTER_CHUNK_SIZE, RESULT_CAP, SCAN_CHUNK_SIZE};
use crate::walk::{fresh, RegionWalk, WalkMode, WalkStage, WalkStep};

verus! {

/// The pattern that stands for an exact run of bytes.
pub open spec fn literal(bytes: Seq<u8>) -> Seq<Option<u8>> {
    bytes.map_values(|b: u8| Some(b))
}

/// ManualScanner handles user-initiated searches for specific values.
pub struct ManualScanner;

impl ManualScanner {
    /// The walk that scans a process for the bytes `target` of a value, up
    /// to `RESULT_CAP` matches, and its first step. A scan of the engine's
    /// own process (`own_process`) is refused: it is over at once, empty.
    pub fn scan_for_value(target: &[u8], own_process: bool) -> (r: (RegionWalk, WalkStep))
        requires
            target@.len() > 0,
        ensures
            r.0.wf(),
            own_process ==> r.0@.results.len() == 0 && r.0@.stage == WalkStage::Done && r.1
                == WalkStep::Done,
            !own_process ==> fresh(
                r.0@,
                WalkMode::Value,
                literal(target@),
                RESULT_CAP as nat,
                SCAN_CHUNK_SIZE as nat,
            ) && r.1 == WalkStep::Query(0),
    {
        RegionWalk::value(target, own_process)
    }

    /// The eight bytes that a pointer to `target_address` holds in memory.
    pub fn pointer_bytes(target_address: usize) -> (r: Vec<u8>)
        ensures
            r@ == le_bytes(target_address as nat, 8),
    {
        write_le(target_address as u64, 8)
    }

    /// The walk that scans a process for pointers to `target_address`,
    /// with no limit on the results, and its first step.
    pub fn find_pointers(target_address: usize) -> (r: (RegionWalk, WalkStep))
        ensures
            r.0.wf(),
            fresh(
                r.0@,
                WalkMode::Pointer,
                literal(le_bytes(target_address as nat, 8)),
                usize::MAX as nat,
                POINTER_CHUNK_SIZE as nat,
            ),
            r.1 == WalkStep::Query(0),
    {
        RegionWalk::pointer(target_address)
    }
}

} // verus!
