use h4_engine::aob::AOBScanner;
use h4_engine::manual::ManualScanner;
use h4_engine::region::{MEM_COMMIT, PAGE_GUARD, POINTER_CHUNK_SIZE, RESULT_CAP, SCAN_CHUNK_SIZE};
use h4_engine::walk::{RegionWalk, WalkStage, WalkStep};

/// A region of a simulated process.
struct Region {
    base: usize,
    state: u32,
    protect: u32,
    data: Vec<u8>,
    readable: bool,
}

fn region(base: usize, data: Vec<u8>) -> Region {
    Region { base, state: MEM_COMMIT, protect: 0x04, data, readable: true }
}

/// Answers the walk's steps from the regions until it is over; its results
/// and the steps it asked for. `cancel_after` sets the stop flag after that
/// many steps.
fn run(mut walk: RegionWalk, first: WalkStep, regions: &[Region], cancel_after: Option<usize>) -> (Vec<usize>, Vec<WalkStep>) {
    let mut steps = vec![first];
    let mut step = first;
    loop {
        let cancelled = cancel_after.map_or(false, |n| steps.len() > n);
        step = match step {
            WalkStep::Done => return (walk.results(), steps),
            WalkStep::Query(a) => {
                let found = regions.iter().find(|r| r.base <= a && a < r.base + r.data.len());
                let next = regions.iter().filter(|r| r.base > a).map(|r| r.base).min();
                let info = match (found, next) {
                    (Some(r), _) => Some((r.base, r.data.len(), r.state, r.protect)),
                    // free address space up to the next region
                    (None, Some(b)) => Some((a, b - a, 0x10000, 0x01)),
                    (None, None) => None,
                };
                walk.on_region(info, cancelled)
            }
            WalkStep::Read(addr, len) => {
                let r = regions.iter().find(|r| r.base <= addr && addr < r.base + r.data.len()).unwrap();
                if !r.readable {
                    walk.on_read(&[], false, cancelled)
                } else {
                    let start = addr - r.base;
                    let end = std::cmp::min(start + len, r.data.len());
                    assert!(walk.accepts_read(end - start));
                    walk.on_read(&r.data[start..end], true, cancelled)
                }
            }
        };
        steps.push(step);
        assert!(steps.len() < 100_000, "walk does not end");
    }
}

#[test]
fn pattern_walk_reads_every_scannable_region() {
    let mut a = vec![0u8; 64];
    a[10..13].copy_from_slice(&[0x48, 0x8B, 0x05]);
    let mut guarded = region(0x2000, vec![0x48, 0x8B, 0x05, 0, 0, 0]);
    guarded.protect |= PAGE_GUARD;
    let mut b = vec![0u8; 32];
    b[0..3].copy_from_slice(&[0x48, 0x11, 0x05]);
    b[29..32].copy_from_slice(&[0x48, 0x8B, 0x05]);
    let regions = vec![region(0x1000, a), guarded, region(0x3000, b)];
    let scanner = AOBScanner::new("48 ?? 05").unwrap();
    let (walk, first) = scanner.scan_process(false);
    assert_eq!(first, WalkStep::Query(0));
    let (results, steps) = run(walk, first, &regions, None);
    assert_eq!(results, vec![0x100A, 0x3000, 0x301D]);
    assert!(steps.contains(&WalkStep::Read(0x1000, 64)));
    assert!(!steps.iter().any(|s| matches!(s, WalkStep::Read(0x2000, _))));
    assert_eq!(*steps.last().unwrap(), WalkStep::Done);
}

#[test]
fn scanning_the_own_process_is_refused() {
    let scanner = AOBScanner::new("00").unwrap();
    let (walk, first) = scanner.scan_process(true);
    assert_eq!(first, WalkStep::Done);
    assert_eq!(walk.stage(), WalkStage::Done);
    assert!(walk.results().is_empty());
}

#[test]
fn value_walk_finds_a_value_across_a_chunk_border() {
    let target = 452i32.to_le_bytes();
    let mut data = vec![0u8; SCAN_CHUNK_SIZE + 16];
    data[SCAN_CHUNK_SIZE - 2..SCAN_CHUNK_SIZE + 2].copy_from_slice(&target);
    data[5..9].copy_from_slice(&target);
    let regions = vec![region(0x10000, data)];
    let (walk, first) = ManualScanner::scan_for_value(&target, false);
    let (results, steps) = run(walk, first, &regions, None);
    assert_eq!(results, vec![0x10005, 0x10000 + SCAN_CHUNK_SIZE - 2]);
    // the second chunk starts three bytes before the end of the first
    assert!(steps.contains(&WalkStep::Read(0x10000 + SCAN_CHUNK_SIZE - 3, 19)));
}

#[test]
fn value_walk_skips_unreadable_regions() {
    let v = [9u8, 9];
    let mut unreadable = region(0x3000, vec![9, 9, 9]);
    unreadable.readable = false;
    let regions = vec![region(0x1000, vec![9, 9, 0]), region(0x2000, vec![9, 9]), unreadable, region(0x4000, vec![1, 9, 9])];
    let (walk, first) = ManualScanner::scan_for_value(&v, false);
    let (results, _) = run(walk, first, &regions, None);
    assert_eq!(results, vec![0x1000, 0x2000, 0x4001]);
}

#[test]
fn value_scan_of_the_own_process_is_refused() {
    let (walk, first) = ManualScanner::scan_for_value(&[9, 9], true);
    assert_eq!(first, WalkStep::Done);
    assert_eq!(walk.stage(), WalkStage::Done);
    assert!(walk.results().is_empty());
}

#[test]
fn pointer_walk_finds_a_pointer_across_a_chunk_border() {
    let target: usize = 0x7FF6_1234_0000;
    let mut data = vec![0u8; POINTER_CHUNK_SIZE + 64];
    data[POINTER_CHUNK_SIZE - 4..POINTER_CHUNK_SIZE + 4].copy_from_slice(&(target as u64).to_le_bytes());
    let regions = vec![region(0x10000, data)];
    let (walk, first) = ManualScanner::find_pointers(target);
    let (results, steps) = run(walk, first, &regions, None);
    assert_eq!(results, vec![0x10000 + POINTER_CHUNK_SIZE - 4]);
    // the second chunk starts seven bytes before the end of the first
    assert!(steps.contains(&WalkStep::Read(0x10000 + POINTER_CHUNK_SIZE - 7, 71)));
}

#[test]
fn short_pattern_read_leaves_the_region() {
    let scanner = AOBScanner::new("48 8B 05").unwrap();
    let (mut walk, first) = scanner.scan_process(false);
    assert_eq!(walk.on_region(Some((0, 0x1000, 0x10000, 0x01)), false), WalkStep::Query(0x1000));
    assert_eq!(first, WalkStep::Query(0));
    assert_eq!(walk.on_region(Some((0x1000, 8, MEM_COMMIT, 0x04)), false), WalkStep::Read(0x1000, 8));
    // only two bytes could be read although the region goes on
    assert!(walk.accepts_read(2));
    assert_eq!(walk.on_read(&[0x48, 0x8B], true, false), WalkStep::Query(0x1008));
    assert!(walk.results().is_empty());
}

#[test]
fn value_walk_stops_at_the_result_cap() {
    let regions = vec![region(0x1000, vec![7u8; 1500]), region(0x2000, vec![7u8; 10])];
    let (walk, first) = ManualScanner::scan_for_value(&[7], false);
    let (results, steps) = run(walk, first, &regions, None);
    assert_eq!(results.len(), RESULT_CAP);
    assert_eq!(results[999], 0x1000 + 999);
    assert_eq!(*steps.last().unwrap(), WalkStep::Done);
    assert!(!steps.iter().any(|s| matches!(s, WalkStep::Read(0x2000, _))));
}

#[test]
fn pointer_walk_finds_every_pointer() {
    let target: usize = 0x7FF6_1234_0000;
    let mut data = vec![0u8; 40];
    data[0..8].copy_from_slice(&(target as u64).to_le_bytes());
    data[20..28].copy_from_slice(&(target as u64).to_le_bytes());
    let regions = vec![region(0x1000, data)];
    let (walk, first) = ManualScanner::find_pointers(target);
    let (results, _) = run(walk, first, &regions, None);
    assert_eq!(results, vec![0x1000, 0x1014]);
}

#[test]
fn cancelled_walk_ends_without_reading_on() {
    let regions = vec![region(0x1000, vec![7u8; 16]), region(0x2000, vec![7u8; 16])];
    let (walk, first) = ManualScanner::scan_for_value(&[7], false);
    let (results, steps) = run(walk, first, &regions, Some(2));
    assert_eq!(results.len(), 16);
    assert_eq!(steps.len(), 5);
    assert_eq!(*steps.last().unwrap(), WalkStep::Done);
    assert!(!steps.iter().any(|s| matches!(s, WalkStep::Read(0x2000, _))));
}

#[test]
fn walk_past_the_last_region_ends() {
    let (walk, first) = ManualScanner::scan_for_value(&[1], false);
    let (results, steps) = run(walk, first, &[], None);
    assert!(results.is_empty());
    assert_eq!(steps, vec![WalkStep::Query(0), WalkStep::Done]);
}
