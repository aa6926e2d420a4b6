//! A scan over every region of a process, as a state machine: it asks for
//! the description of a region or for a chunk of memory, and decides from
//! what comes back which region and chunk come next, which addresses match
//! and when the scan is over.

use vstd::prelude::*;
use crate::aob::{AOBScanner, capped_append, match_addresses};
use crate::encoding::le_bytes;
use crate::manual::{literal, ManualScanner};
use crate::region::{
    chunk_read_len, next_region_address, pointer_next_offset, pointer_next_region, region_end,
    region_is_scannable, scannable, value_next_offset, MEM_COMMIT, PAGE_GUARD, PAGE_NOACCESS,
    POINTER_CHUNK_SIZE, RESULT_CAP, SCAN_CHUNK_SIZE,
};

verus! {

/// What a walk looks for.
#[derive(Debug, Clone, Copy, PartialEq, Eq, Structural)]
pub enum WalkMode {
    /// A byte pattern with wildcards.
    Pattern,
    /// The exact bytes of a value.
    Value,
    /// Pointers to an address.
    Pointer,
}

/// What a walk asks for next.
#[derive(Debug, Clone, Copy, PartialEq, Eq, Structural)]
pub enum WalkStep {
    /// The description of the region that holds this address.
    Query(usize),
    /// This many bytes of memory at this address.
    Read(usize, usize),
    /// Nothing: the walk is over.
    Done,
}

/// The stages of a walk.
#[derive(Debug, Clone, Copy, PartialEq, Eq, Structural)]
pub enum WalkStage {
    /// Waiting for the description of a region.
    Querying,
    /// Waiting for the bytes of a chunk.
    Reading,
    /// Over.
    Done,
}

/// The view of a walk.
pub struct WalkView {
    pub mode: WalkMode,
    /// What matches, byte by byte.
    pub pattern: Seq<Option<u8>>,
    /// The walk ends once it holds this many results.
    pub cap: nat,
    /// The largest chunk read at once.
    pub chunk_size: nat,
    /// The region being read: its start and size, and the offset of the
    /// chunk asked for.
    pub base: usize,
    pub size: usize,
    pub offset: usize,
    /// The chunk asked for: its address and length.
    pub read_at: usize,
    pub read_len: usize,
    /// The addresses found so far, in the order found.
    pub results: Seq<usize>,
    pub stage: WalkStage,
}

/// Whether a walk reads a region with this description: a scannable region
/// with bytes in it.
pub open spec fn takes_region(size: usize, state: u32, protect: u32) -> bool {
    scannable(state, protect) && size > 0
}

/// The address whose region comes after the region at `base` of `size`
/// bytes, or `None` when the walk ends there: the pattern and value scans
/// stop at the end of the address space, the pointer scan goes on.
pub open spec fn after_region(mode: WalkMode, base: usize, size: usize) -> Option<usize> {
    if mode == WalkMode::Pointer || region_end(base, size) != 0 {
        Some(region_end(base, size))
    } else {
        None
    }
}

/// The view `v` as it asks for the chunk at `offset` of its region.
pub open spec fn reading_at(v: WalkView, offset: usize) -> WalkView {
    let len = if v.chunk_size <= v.size - offset {
        v.chunk_size as usize
    } else {
        (v.size - offset) as usize
    };
    WalkView {
        offset,
        read_at: region_end(v.base, offset),
        read_len: len,
        stage: WalkStage::Reading,
        ..v
    }
}

/// What asking for the chunk at `offset` leads to: the new view and the
/// read it asks for.
pub open spec fn read_at_offset(v: WalkView, offset: usize) -> (WalkView, WalkStep) {
    let w = reading_at(v, offset);
    (w, WalkStep::Read(w.read_at, w.read_len))
}

/// What leaving the region of `v` with the results `results` leads to: it
/// asks for the next region, or ends.
pub open spec fn leave(v: WalkView, results: Seq<usize>) -> (WalkView, WalkStep) {
    match after_region(v.mode, v.base, v.size) {
        Some(a) => (WalkView { results, stage: WalkStage::Querying, ..v }, WalkStep::Query(a)),
        None => (WalkView { results, stage: WalkStage::Done, ..v }, WalkStep::Done),
    }
}

/// The view `v` ended with the results `results`.
pub open spec fn ended(v: WalkView, results: Seq<usize>) -> (WalkView, WalkStep) {
    (WalkView { results, stage: WalkStage::Done, ..v }, WalkStep::Done)
}

/// The offset in its region of the chunk after the one of `v`, of which
/// `got` bytes were read, or `None` when the region is done. Consecutive
/// chunks overlap by one byte less than the pattern, so that no match is
/// lost at a border. A pattern scan leaves a region at a read that gives
/// less than a whole pattern; a pointer scan steps over such a read.
pub open spec fn next_offset(v: WalkView, got: nat) -> Option<usize> {
    let plen = v.pattern.len();
    match v.mode {
        WalkMode::Pattern => if got < plen || v.offset + got >= v.size {
            None
        } else {
            Some((v.offset + got - plen + 1) as usize)
        },
        WalkMode::Value => if v.offset + got - plen + 1 >= v.size {
            None
        } else {
            Some((v.offset + got - plen + 1) as usize)
        },
        WalkMode::Pointer => if got >= plen {
            if v.offset + got >= v.size {
                None
            } else {
                Some((v.offset + got - plen + 1) as usize)
            }
        } else if v.offset + v.read_len < v.size {
            Some((v.offset + v.read_len) as usize)
        } else {
            None
        },
    }
}

/// A value scan gives up on a region at a chunk whose read failed or gave
/// fewer bytes than the value.
pub open spec fn ends_early(v: WalkView, ok: bool, got: nat) -> bool {
    v.mode == WalkMode::Value && (!ok || got < v.pattern.len())
}

/// The results after a chunk `data` read at the address of `v`: its
/// matches are added, up to the cap, when it holds at least one whole
/// pattern.
pub open spec fn collected(v: WalkView, ok: bool, data: Seq<u8>) -> Seq<usize> {
    if !ends_early(v, ok, data.len()) && data.len() >= v.pattern.len() {
        capped_append(v.results, match_addresses(v.pattern, data, v.read_at as int), v.cap as int)
    } else {
        v.results
    }
}

/// What the description `region` of the region asked for (`None` past the
/// last one) leads to: a region that the walk reads leads to its first
/// chunk, any other to the next region. The walk ends past the last region
/// or when `cancelled`. A walk that asked for no region stays as it is.
pub open spec fn region_step(
    v: WalkView,
    region: Option<(usize, usize, u32, u32)>,
    cancelled: bool,
) -> (WalkView, WalkStep) {
    if v.stage != WalkStage::Querying {
        (v, WalkStep::Done)
    } else {
        match region {
            None => ended(v, v.results),
            Some((base, size, state, protect)) => if cancelled {
                ended(v, v.results)
            } else if takes_region(size, state, protect) {
                read_at_offset(WalkView { base, size, ..v }, 0)
            } else {
                leave(WalkView { base, size, ..v }, v.results)
            },
        }
    }
}

/// What the bytes `data` of the chunk asked for, read with success `ok`,
/// lead to. A value scan leaves the region at a failed or short read;
/// otherwise the chunk's matches are added up to the cap, which ends the
/// walk, and the walk asks for the next chunk of the region or, when the
/// region is done, for the next region. The walk ends when `cancelled`
/// instead of reading on. A walk that asked for no chunk stays as it is.
pub open spec fn read_step(v: WalkView, ok: bool, data: Seq<u8>, cancelled: bool) -> (
    WalkView,
    WalkStep,
) {
    let got = data.len();
    let kept = collected(v, ok, data);
    if v.stage != WalkStage::Reading {
        (v, WalkStep::Done)
    } else if ends_early(v, ok, got) {
        leave(v, kept)
    } else if got >= v.pattern.len() && kept.len() >= v.cap {
        ended(v, kept)
    } else {
        match next_offset(v, got) {
            Some(n) => if cancelled {
                ended(v, kept)
            } else {
                read_at_offset(WalkView { results: kept, ..v }, n)
            },
            None => leave(v, kept),
        }
    }
}

/// `v` is a walk that has just started: nothing found yet, waiting for the
/// description of the first region.
pub open spec fn fresh(v: WalkView, mode: WalkMode, pattern: Seq<Option<u8>>, cap: nat, chunk_size: nat) -> bool {
    &&& v.mode == mode
    &&& v.pattern == pattern
    &&& v.cap == cap
    &&& v.chunk_size == chunk_size
    &&& v.results.len() == 0
    &&& v.stage == WalkStage::Querying
}

/// A read of `got` bytes answers the chunk that `v` asks for: no more bytes
/// than asked, and none past the end of the address space.
pub open spec fn read_acceptable(v: WalkView, got: nat) -> bool {
    &&& got <= v.read_len
    &&& v.read_at + got <= usize::MAX
}

/// A walk over the regions of a process.
pub struct RegionWalk {
    mode: WalkMode,
    scanner: AOBScanner,
    cap: usize,
    chunk_size: usize,
    base: usize,
    size: usize,
    offset: usize,
    read_at: usize,
    read_len: usize,
    results: Vec<usize>,
    stage: WalkStage,
}

impl View for RegionWalk {
    type V = WalkView;

    closed spec fn view(&self) -> WalkView {
        WalkView {
            mode: self.mode,
            pattern: self.scanner@,
            cap: self.cap as nat,
            chunk_size: self.chunk_size as nat,
            base: self.base,
            size: self.size,
            offset: self.offset,
            read_at: self.read_at,
            read_len: self.read_len,
            results: self.results@,
            stage: self.stage,
        }
    }
}

/// The invariant of a walk's view: it holds fewer results than its cap
/// unless it is over, and a chunk it asks for lies in its region.
pub open spec fn walk_inv(v: WalkView) -> bool {
    &&& v.pattern.len() > 0
    &&& v.chunk_size > 0
    &&& v.results.len() <= v.cap
    &&& v.stage != WalkStage::Done ==> v.results.len() < v.cap
    &&& v.mode == WalkMode::Pointer ==> v.pattern.len() == 8
    &&& v.stage == WalkStage::Reading ==> {
        &&& v.offset < v.size
        &&& v == reading_at(v, v.offset)
    }
}

impl RegionWalk {
    /// The walk is consistent (see `walk_inv`).
    pub closed spec fn wf(&self) -> bool {
        &&& walk_inv(self@)
        &&& self.chunk_size <= usize::MAX
    }

    /// The stage of the walk.
    pub fn stage(&self) -> (r: WalkStage)
        ensures
            r == self@.stage,
    {
        self.stage
    }

    /// A walk that looks in every region for the pattern `scanner`, the
    /// bytes of a value (`Value`) or a pointer (`Pointer`), and its first
    /// step. A walk of the engine's own process (`own_process`) is over at
    /// once, with no results.
    fn start(mode: WalkMode, scanner: AOBScanner, cap: usize, chunk_size: usize, own_process: bool) -> (r: (
        RegionWalk,
        WalkStep,
    ))
        requires
            cap > 0,
            chunk_size > 0,
            mode == WalkMode::Pointer ==> scanner@.len() == 8,
        ensures
            r.0.wf(),
            own_process ==> r.0@.results.len() == 0 && r.0@.stage == WalkStage::Done && r.1
                == WalkStep::Done,
            !own_process ==> fresh(r.0@, mode, scanner@, cap as nat, chunk_size as nat) && r.1
                == WalkStep::Query(0),
    {
        let plen = scanner.len();
        let stage = if own_process {
            WalkStage::Done
        } else {
            WalkStage::Querying
        };
        let w = RegionWalk {
            mode,
            scanner,
            cap,
            chunk_size,
            base: 0,
            size: 0,
            offset: 0,
            read_at: 0,
            read_len: 0,
            results: Vec::new(),
            stage,
        };
        assert(plen > 0);
        if own_process {
            (w, WalkStep::Done)
        } else {
            (w, WalkStep::Query(0))
        }
    }

    /// A walk that looks for the pattern of `scanner` in every region, up
    /// to `RESULT_CAP` matches, and its first step; a walk of the engine's
    /// own process is over at once, with no results.
    pub fn pattern(scanner: AOBScanner, own_process: bool) -> (r: (RegionWalk, WalkStep))
        ensures
            r.0.wf(),
            own_process ==> r.0@.results.len() == 0 && r.0@.stage == WalkStage::Done && r.1
                == WalkStep::Done,
            !own_process ==> fresh(
                r.0@,
                WalkMode::Pattern,
                scanner@,
                RESULT_CAP as nat,
                SCAN_CHUNK_SIZE as nat,
            ) && r.1 == WalkStep::Query(0),
    {
        Self::start(WalkMode::Pattern, scanner, RESULT_CAP, SCAN_CHUNK_SIZE, own_process)
    }

    /// A walk that looks for the bytes `target` of a value in every region,
    /// up to `RESULT_CAP` matches, and its first step; a walk of the
    /// engine's own process is over at once, with no results.
    pub fn value(target: &[u8], own_process: bool) -> (r: (RegionWalk, WalkStep))
        requires
            target@.len() > 0,
        ensures
            r.0.wf(),
            own_process ==> r.0@.results.len() == 0 && r.0@.stage == WalkStage::Done && r.1
                == WalkStep::Done,
            !own_process ==> fresh(
                r.0@,
                WalkMode::Value,
                literal(target@),
                RESULT_CAP as nat,
                SCAN_CHUNK_SIZE as nat,
            ) && r.1 == WalkStep::Query(0),
    {
        let scanner = AOBScanner::from_bytes(target);
        Self::start(WalkMode::Value, scanner, RESULT_CAP, SCAN_CHUNK_SIZE, own_process)
    }

    /// A walk that looks for pointers to `target_address` in every region,
    /// and its first step.
    pub fn pointer(target_address: usize) -> (r: (RegionWalk, WalkStep))
        ensures
            r.0.wf(),
            fresh(
                r.0@,
                WalkMode::Pointer,
                literal(le_bytes(target_address as nat, 8)),
                usize::MAX as nat,
                POINTER_CHUNK_SIZE as nat,
            ),
            r.1 == WalkStep::Query(0),
    {
        let bytes = ManualScanner::pointer_bytes(target_address);
        proof {
            crate::encoding::lemma_le_roundtrip(target_address as nat, 8);
        }
        let scanner = AOBScanner::from_bytes(bytes.as_slice());
        Self::start(WalkMode::Pointer, scanner, usize::MAX, POINTER_CHUNK_SIZE, false)
    }

    /// Asks for the chunk at `offset` of the current region.
    fn read_chunk(&mut self, offset: usize) -> (step: WalkStep)
        requires
            old(self).wf(),
            old(self)@.stage != WalkStage::Done,
            offset < old(self)@.size,
        ensures
            final(self).wf(),
            (final(self)@, step) == read_at_offset(old(self)@, offset),
    {
        let len = chunk_read_len(self.size, offset, self.chunk_size);
        self.offset = offset;
        self.read_at = self.base.wrapping_add(offset);
        self.read_len = len;
        self.stage = WalkStage::Reading;
        assert(self@ == reading_at(old(self)@, offset));
        WalkStep::Read(self.read_at, len)
    }

    /// Leaves the current region: asks for the next one, or ends the walk.
    fn leave_region(&mut self) -> (step: WalkStep)
        requires
            old(self).wf(),
            old(self)@.stage != WalkStage::Done,
        ensures
            final(self).wf(),
            (final(self)@, step) == leave(old(self)@, old(self)@.results),
    {
        if self.mode == WalkMode::Pointer {
            let a = pointer_next_region(self.base, self.size);
            self.stage = WalkStage::Querying;
            WalkStep::Query(a)
        } else {
            match next_region_address(self.base, self.size) {
                Some(a) => {
                    self.stage = WalkStage::Querying;
                    WalkStep::Query(a)
                },
                None => {
                    self.stage = WalkStage::Done;
                    WalkStep::Done
                },
            }
        }
    }

    /// Takes the description of the region asked for (`None` past the last
    /// region); see `region_step`.
    pub fn on_region(&mut self, region: Option<(usize, usize, u32, u32)>, cancelled: bool) -> (step: WalkStep)
        requires
            old(self).wf(),
        ensures
            final(self).wf(),
            (final(self)@, step) == region_step(old(self)@, region, cancelled),
    {
        if self.stage != WalkStage::Querying {
            return WalkStep::Done;
        }
        match region {
            None => {
                self.stage = WalkStage::Done;
                WalkStep::Done
            },
            Some((base, size, state, protect)) => {
                if cancelled {
                    self.stage = WalkStage::Done;
                    return WalkStep::Done;
                }
                self.base = base;
                self.size = size;
                if region_is_scannable(state, protect) && size > 0 {
                    self.read_chunk(0)
                } else {
                    self.leave_region()
                }
            },
        }
    }

    /// Whether a read of `got` bytes may be handed to `on_read`.
    pub fn accepts_read(&self, got: usize) -> (r: bool)
        requires
            self.wf(),
        ensures
            r == (self@.stage == WalkStage::Reading ==> read_acceptable(self@, got as nat)),
    {
        if self.stage != WalkStage::Reading {
            return true;
        }
        got <= self.read_len && got <= usize::MAX - self.read_at
    }

    /// Takes the bytes `data` read for the chunk asked for, and whether the
    /// read succeeded; see `read_step`.
    pub fn on_read(&mut self, data: &[u8], ok: bool, cancelled: bool) -> (step: WalkStep)
        requires
            old(self).wf(),
            old(self)@.stage == WalkStage::Reading ==> read_acceptable(old(self)@, data@.len()),
        ensures
            final(self).wf(),
            (final(self)@, step) == read_step(old(self)@, ok, data@, cancelled),
    {
        if self.stage != WalkStage::Reading {
            return WalkStep::Done;
        }
        let got = data.len();
        let plen = self.scanner.len();
        if self.mode == WalkMode::Value && (!ok || got < plen) {
            return self.leave_region();
        }
        if got >= plen {
            let reached = self.scanner.collect_matches(data, self.read_at, &mut self.results, self.cap);
            if reached {
                self.stage = WalkStage::Done;
                return WalkStep::Done;
            }
        }
        let next: Option<usize> = match self.mode {
            WalkMode::Pattern => {
                if got < plen || got >= self.size - self.offset {
                    None
                } else {
                    Some(self.offset + got - plen + 1)
                }
            },
            WalkMode::Value => value_next_offset(self.offset, got, plen, self.size),
            WalkMode::Pointer => {
                if got >= plen {
                    if got >= self.size - self.offset {
                        None
                    } else {
                        Some(self.offset + got - plen + 1)
                    }
                } else {
                    pointer_next_offset(self.offset, self.read_len, self.size)
                }
            },
        };
        match next {
            Some(n) => {
                if cancelled {
                    self.stage = WalkStage::Done;
                    WalkStep::Done
                } else {
                    self.read_chunk(n)
                }
            },
            None => self.leave_region(),
        }
    }

    /// The addresses found so far, in the order found.
    pub fn results(&self) -> (r: Vec<usize>)
        ensures
            r@ == self@.results,
    {
        let mut out: Vec<usize> = Vec::new();
        let n = self.results.len();
        for i in 0..n
            invariant
                n == self.results@.len(),
                out@ == self.results@.take(i as int),
        {
            out.push(self.results[i]);
            assert(out@ =~= self.results@.take(i + 1));
        }
        assert(self.results@.take(n as int) =~= self.results@);
        out
    }
}

/// A walk never holds more results than its cap, and holds fewer while it
/// goes on: the pattern and value scans stop at `RESULT_CAP` matches.
pub proof fn lemma_walk_within_cap(w: &RegionWalk)
    requires
        w.wf(),
    ensures
        w@.results.len() <= w@.cap,
        w@.stage != WalkStage::Done ==> w@.results.len() < w@.cap,
{
}

/// A chunk keeps every result found before it, in order, and adds at most
/// the room left under the cap.
pub proof fn lemma_results_only_grow(v: WalkView, ok: bool, data: Seq<u8>)
    requires
        v.results.len() <= v.cap,
    ensures
        collected(v, ok, data).len() <= v.cap,
        v.results.is_prefix_of(collected(v, ok, data)),
{
    let c = collected(v, ok, data);
    assert(c.subrange(0, v.results.len() as int) =~= v.results);
}

/// Consecutive chunks overlap so that no match is lost at a chunk border:
/// after a read of at least one whole pattern, the next chunk starts right
/// after the last position at which a whole pattern still fits in the
/// chunk just read. This holds of pointers too, whose chunks overlap by
/// seven bytes.
pub proof fn lemma_chunks_overlap(v: WalkView, got: nat)
    requires
        v.pattern.len() > 0,
        got >= v.pattern.len(),
        next_offset(v, got) is Some,
    ensures
        v.offset < next_offset(v, got).unwrap(),
        next_offset(v, got).unwrap() + v.pattern.len() - 1 == v.offset + got,
{
}


/// What a walk in view `v` that asked for `step` turns into when the
/// process answers with `regions` (the description of the region at an
/// address) and `reads` (the outcome and bytes of a read of a length at an
/// address), with the stop flag at `cancelled`.
pub open spec fn advance(
    v: WalkView,
    step: WalkStep,
    regions: spec_fn(usize) -> Option<(usize, usize, u32, u32)>,
    reads: spec_fn(usize, usize) -> (bool, Seq<u8>),
    cancelled: bool,
) -> (WalkView, WalkStep) {
    match step {
        WalkStep::Query(a) => region_step(v, regions(a), cancelled),
        WalkStep::Read(a, len) => read_step(v, reads(a, len).0, reads(a, len).1, cancelled),
        WalkStep::Done => (v, WalkStep::Done),
    }
}

/// The walk after `n` more steps, the `i`-th step seeing the stop flag at
/// `cancel(i)`.
pub open spec fn run(
    v: WalkView,
    step: WalkStep,
    regions: spec_fn(usize) -> Option<(usize, usize, u32, u32)>,
    reads: spec_fn(usize, usize) -> (bool, Seq<u8>),
    cancel: spec_fn(nat) -> bool,
    i: nat,
    n: nat,
) -> (WalkView, WalkStep)
    decreases n,
{
    if n == 0 {
        (v, step)
    } else {
        let next = advance(v, step, regions, reads, cancel(i));
        run(next.0, next.1, regions, reads, cancel, i + 1, (n - 1) as nat)
    }
}

/// A stop flag that is never set.
pub open spec fn never_cancelled() -> spec_fn(nat) -> bool {
    |i: nat| false
}

proof fn lemma_prefix_trans(a: Seq<usize>, b: Seq<usize>, c: Seq<usize>)
    requires
        a.is_prefix_of(b),
        b.is_prefix_of(c),
    ensures
        a.is_prefix_of(c),
{
    assert(a =~= c.subrange(0, a.len() as int)) by {
        assert forall|k: int| 0 <= k < a.len() implies a[k] == c[k] by {
            assert(a[k] == b[k]);
            assert(b[k] == c[k]);
        }
    }
}

/// One step keeps the results found so far, in order, and stays under the
/// cap; the cap does not change.
proof fn lemma_advance_grows(
    v: WalkView,
    step: WalkStep,
    regions: spec_fn(usize) -> Option<(usize, usize, u32, u32)>,
    reads: spec_fn(usize, usize) -> (bool, Seq<u8>),
    cancelled: bool,
)
    requires
        v.results.len() <= v.cap,
    ensures
        ({
            let w = advance(v, step, regions, reads, cancelled).0;
            &&& w.cap == v.cap
            &&& w.results.len() <= w.cap
            &&& v.results.is_prefix_of(w.results)
        }),
{
    assert(v.results =~= v.results.subrange(0, v.results.len() as int));
    match step {
        WalkStep::Read(a, len) => {
            lemma_results_only_grow(v, reads(a, len).0, reads(a, len).1);
        },
        _ => {},
    }
}

/// The stop flag only ends a step early: the step taken with it set keeps
/// the results of the step taken without it, and is either that same step
/// or the end of the walk.
proof fn lemma_cancel_ends_step(
    v: WalkView,
    step: WalkStep,
    regions: spec_fn(usize) -> Option<(usize, usize, u32, u32)>,
    reads: spec_fn(usize, usize) -> (bool, Seq<u8>),
)
    requires
        v.results.len() <= v.cap,
    ensures
        ({
            let c = advance(v, step, regions, reads, true);
            let u = advance(v, step, regions, reads, false);
            ||| c == u
            ||| c.1 == WalkStep::Done && c.0.stage == WalkStage::Done && c.0.results.is_prefix_of(
                u.0.results,
            )
        }),
{
    let u = advance(v, step, regions, reads, false);
    lemma_advance_grows(v, step, regions, reads, false);
    match step {
        WalkStep::Read(a, len) => {
            let kept = collected(v, reads(a, len).0, reads(a, len).1);
            assert(kept =~= kept.subrange(0, kept.len() as int));
        },
        _ => {},
    }
}

proof fn lemma_runs_pair(
    vc: WalkView,
    sc: WalkStep,
    vu: WalkView,
    su: WalkStep,
    regions: spec_fn(usize) -> Option<(usize, usize, u32, u32)>,
    reads: spec_fn(usize, usize) -> (bool, Seq<u8>),
    cancel: spec_fn(nat) -> bool,
    i: nat,
    n: nat,
)
    requires
        vu.results.len() <= vu.cap,
        (vc == vu && sc == su) || (sc == WalkStep::Done && vc.stage == WalkStage::Done
            && vc.results.is_prefix_of(vu.results)),
    ensures
        run(vc, sc, regions, reads, cancel, i, n).0.results.is_prefix_of(
            run(vu, su, regions, reads, never_cancelled(), i, n).0.results,
        ),
    decreases n,
{
    if n == 0 {
        assert(vu.results =~= vu.results.subrange(0, vu.results.len() as int));
    } else {
        let c = advance(vc, sc, regions, reads, cancel(i));
        let u = advance(vu, su, regions, reads, never_cancelled()(i));
        assert(never_cancelled()(i) == false);
        lemma_advance_grows(vu, su, regions, reads, false);
        if vc == vu && sc == su {
            if cancel(i) {
                lemma_cancel_ends_step(vu, su, regions, reads);
            }
        } else {
            assert(c == (vc, sc));
            lemma_prefix_trans(vc.results, vu.results, u.0.results);
        }
        lemma_runs_pair(c.0, c.1, u.0, u.1, regions, reads, cancel, i + 1, (n - 1) as nat);
    }
}

/// Stopping a walk keeps only what it had found: whenever the stop flag is
/// set, the results after any number of steps are a prefix of the results
/// that the same walk, answered alike and never stopped, has after as many
/// steps.
pub proof fn lemma_cancelled_walk_is_prefix(
    v: WalkView,
    step: WalkStep,
    regions: spec_fn(usize) -> Option<(usize, usize, u32, u32)>,
    reads: spec_fn(usize, usize) -> (bool, Seq<u8>),
    cancel: spec_fn(nat) -> bool,
    n: nat,
)
    requires
        v.results.len() <= v.cap,
    ensures
        run(v, step, regions, reads, cancel, 0, n).0.results.is_prefix_of(
            run(v, step, regions, reads, never_cancelled(), 0, n).0.results,
        ),
{
    lemma_runs_pair(v, step, v, step, regions, reads, cancel, 0, n);
}

proof fn lemma_done_stays(
    v: WalkView,
    regions: spec_fn(usize) -> Option<(usize, usize, u32, u32)>,
    reads: spec_fn(usize, usize) -> (bool, Seq<u8>),
    cancel: spec_fn(nat) -> bool,
    i: nat,
    n: nat,
)
    ensures
        run(v, WalkStep::Done, regions, reads, cancel, i, n) == (v, WalkStep::Done),
    decreases n,
{
    if n > 0 {
        lemma_done_stays(v, regions, reads, cancel, i + 1, (n - 1) as nat);
    }
}

/// A walk stopped before its first step finds nothing.
pub proof fn lemma_cancelled_at_start_finds_nothing(
    v: WalkView,
    regions: spec_fn(usize) -> Option<(usize, usize, u32, u32)>,
    reads: spec_fn(usize, usize) -> (bool, Seq<u8>),
    cancel: spec_fn(nat) -> bool,
    n: nat,
)
    requires
        v.results.len() == 0,
        v.stage == WalkStage::Querying,
        cancel(0),
    ensures
        run(v, WalkStep::Query(0), regions, reads, cancel, 0, n).0.results.len() == 0,
{
    if n > 0 {
        let c = advance(v, WalkStep::Query(0), regions, reads, true);
        assert(c.1 == WalkStep::Done && c.0.results.len() == 0);
        lemma_done_stays(c.0, regions, reads, cancel, 1, (n - 1) as nat);
    }
}


/// A walk reads every region on to its end: after a chunk that came back
/// whole, with at least one whole pattern and short of the end of its
/// region, the walk (unless stopped) either holds its full cap of results
/// and ends, or asks next for the chunk of the same region that starts one
/// byte past the last position at which a whole pattern fits in the chunk
/// just read, as long as the chunk size allows and the region lasts.
pub proof fn lemma_walk_reads_on(v: WalkView, data: Seq<u8>)
    requires
        walk_inv(v),
        v.stage == WalkStage::Reading,
        data.len() == v.read_len,
        data.len() >= v.pattern.len(),
        v.offset + data.len() < v.size,
    ensures
        ({
            let w = read_step(v, true, data, false).0;
            let step = read_step(v, true, data, false).1;
            let n = v.offset + data.len() - v.pattern.len() + 1;
            let len = if v.chunk_size <= v.size - n {
                v.chunk_size
            } else {
                (v.size - n) as nat
            };
            ||| w.results.len() == v.cap && step == WalkStep::Done
            ||| {
                &&& step == WalkStep::Read(region_end(v.base, n as usize), len as usize)
                &&& w.stage == WalkStage::Reading
                &&& w.base == v.base
                &&& w.size == v.size
                &&& w.offset == n
                &&& w.read_len == len
            }
        }),
{
    let kept = collected(v, true, data);
    lemma_results_only_grow(v, true, data);
    let found = match_addresses(v.pattern, data, v.read_at as int);
    if v.results.len() + found.len() > v.cap {
        assert(kept.len() == v.cap);
    }
}

/// The stop flag is obeyed before any further chunk is read: a step taken
/// with the flag set never asks for another chunk of memory, and a region
/// step taken with it ends the walk.
pub proof fn lemma_stop_reads_nothing_more(
    v: WalkView,
    ok: bool,
    data: Seq<u8>,
    region: Option<(usize, usize, u32, u32)>,
)
    ensures
        !(read_step(v, ok, data, true).1 is Read),
        region_step(v, region, true).1 == WalkStep::Done,
        region_step(v, region, true).0.results == v.results,
{
}


/// A region is read from its start: a walk that is waiting for a region
/// description and is not stopped asks, for a committed region that is
/// neither inaccessible nor a guard page and has bytes, for its first chunk
/// (the whole region or one chunk size, whichever is smaller) at its base,
/// keeping its results; any other region it passes over without a read.
pub proof fn lemma_regions_read_from_start(v: WalkView, base: usize, size: usize, state: u32, protect: u32)
    requires
        v.stage == WalkStage::Querying,
    ensures
        ({
            let (w, step) = region_step(v, Some((base, size, state, protect)), false);
            &&& w.results == v.results
            &&& (state == MEM_COMMIT && protect & PAGE_NOACCESS == 0 && protect & PAGE_GUARD == 0
                && size > 0) ==> step == WalkStep::Read(
                base,
                (if v.chunk_size <= size {
                    v.chunk_size
                } else {
                    size as nat
                }) as usize,
            ) && w.base == base && w.size == size && w.offset == 0
            &&& !(state == MEM_COMMIT && protect & PAGE_NOACCESS == 0 && protect & PAGE_GUARD == 0
                && size > 0) ==> !(step is Read)
        }),
{
    assert(region_end(base, 0) == base);
}

} // verus!
