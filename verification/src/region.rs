//! Decisions of a walk over the memory regions of a process: which regions
//! are read, in which chunks, and where the walk goes next.

use vstd::prelude::*;

verus! {

/// The region state of committed memory (`MEM_COMMIT`).
pub const MEM_COMMIT: u32 = 0x1000;

/// The protection flag of memory that cannot be accessed (`PAGE_NOACCESS`).
pub const PAGE_NOACCESS: u32 = 0x01;

/// The protection flag of guard pages (`PAGE_GUARD`).
pub const PAGE_GUARD: u32 = 0x100;

/// Bytes read at once by the pattern and value scans.
pub const SCAN_CHUNK_SIZE: usize = 2097152;

/// Bytes read at once by the pointer scan.
pub const POINTER_CHUNK_SIZE: usize = 4194304;

/// Matches after which the pattern and value scans stop, so that the front
/// end never has to show more.
pub const RESULT_CAP: usize = 1000;

/// A region is read only when it is committed and neither inaccessible nor a
/// guard page.
pub open spec fn scannable(state: u32, protect: u32) -> bool {
    &&& state == MEM_COMMIT
    &&& protect & PAGE_NOACCESS == 0
    &&& protect & PAGE_GUARD == 0
}

/// Whether a region with this state and protection is read by a scan.
pub fn region_is_scannable(state: u32, protect: u32) -> (r: bool)
    ensures
        r == scannable(state, protect),
{
    state == MEM_COMMIT && protect & PAGE_NOACCESS == 0 && protect & PAGE_GUARD == 0
}

/// How many bytes to read at `offset` into a region: a whole chunk, or what
/// is left of the region.
pub fn chunk_read_len(region_size: usize, offset: usize, chunk_size: usize) -> (n: usize)
    requires
        offset < region_size,
    ensures
        n == if chunk_size <= region_size - offset {
            chunk_size
        } else {
            (region_size - offset) as usize
        },
        offset + n <= region_size,
{
    if chunk_size <= region_size - offset {
        chunk_size
    } else {
        region_size - offset
    }
}

/// Where the value scan reads next in a region after `bytes_read` bytes at
/// `offset`, or `None` when the region is done (a read shorter than a value
/// ends the region). Consecutive chunks overlap by one byte less than the
/// value.
pub fn value_next_offset(offset: usize, bytes_read: usize, value_size: usize, region_size: usize) -> (r:
    Option<usize>)
    requires
        offset + bytes_read <= usize::MAX,
        value_size >= 1,
    ensures
        bytes_read < value_size ==> r is None,
        bytes_read >= value_size && offset + bytes_read - value_size + 1 >= region_size ==> r is None,
        bytes_read >= value_size && offset + bytes_read - value_size + 1 < region_size ==> r == Some(
            (offset + bytes_read - value_size + 1) as usize,
        ),
        r matches Some(next) ==> offset < next && next + value_size - 1 == offset + bytes_read,
{
    if bytes_read >= value_size {
        let next = offset + bytes_read - value_size + 1;
        if next >= region_size {
            None
        } else {
            Some(next)
        }
    } else {
        None
    }
}

/// Where the pointer scan reads next in a region after a chunk of `to_read`
/// bytes at `offset`; its chunks follow each other without overlap.
pub fn pointer_next_offset(offset: usize, to_read: usize, region_size: usize) -> (r: Option<usize>)
    requires
        offset + to_read <= usize::MAX,
    ensures
        r == (if offset + to_read < region_size {
            Some((offset + to_read) as usize)
        } else {
            None::<usize>
        }),
{
    let next = offset + to_read;
    if next < region_size {
        Some(next)
    } else {
        None
    }
}

/// The address just past a region, wrapping around the address space.
pub open spec fn region_end(base: usize, size: usize) -> usize {
    if base + size > usize::MAX {
        (base + size - (usize::MAX + 1)) as usize
    } else {
        (base + size) as usize
    }
}

/// The address where the walk queries the next region, or `None` when the
/// end of the address space has been reached.
pub fn next_region_address(base: usize, size: usize) -> (r: Option<usize>)
    ensures
        r == (if region_end(base, size) == 0 {
            None::<usize>
        } else {
            Some(region_end(base, size))
        }),
{
    let next = base.wrapping_add(size);
    if next == 0 {
        None
    } else {
        Some(next)
    }
}

/// The address where the pointer scan queries the next region; it does not
/// stop at the end of the address space.
pub fn pointer_next_region(base: usize, size: usize) -> (r: usize)
    ensures
        r == region_end(base, size),
{
    base.wrapping_add(size)
}

} // verus!
