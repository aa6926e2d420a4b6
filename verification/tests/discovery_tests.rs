use h4_engine::discovery::{
    apply_offset, follow_rel32, locate_pointer, target_value_type, user_space, DiscoveryEngine,
    DiscoveryPass, DiscoverySignature, Probe,
};
use h4_engine::shared::{ScanResult, ValueType};

fn sig(name: &str, aliases: &[&str], patterns: &[&str], ptr: Option<i32>, vt: ValueType) -> DiscoverySignature {
    DiscoverySignature {
        name: name.to_string(),
        aliases: aliases.iter().map(|s| s.to_string()).collect(),
        aob_patterns: patterns.iter().map(|s| s.to_string()).collect(),
        offset: 0,
        ptr_offset: ptr,
        value_type: vt,
        category: "Games".to_string(),
    }
}

/// Runs a pass the way the front end does, over a simulated memory image
/// that starts at `base`.
fn run(sigs: Vec<DiscoverySignature>, memory: &[u8], base: usize, cancel_after: Option<usize>) -> Vec<ScanResult> {
    let mut pass = DiscoveryPass::new(sigs);
    let mut steps = 0usize;
    let cancelled = |steps: usize| cancel_after.map(|n| steps >= n).unwrap_or(false);
    while let Some(scanner) = pass.next_pattern(cancelled(steps)) {
        steps += 1;
        let mut matches = Vec::new();
        scanner.collect_matches(memory, base, &mut matches, 1000);
        pass.begin_matches(matches);
        loop {
            steps += 1;
            match pass.next_probe(cancelled(steps)) {
                Probe::PatternDone => break,
                Probe::ReadDisplacement(loc) => {
                    let bytes = if loc >= base && loc + 4 <= base + memory.len() {
                        Some(memory[loc - base..loc - base + 4].to_vec())
                    } else {
                        None
                    };
                    if let Some(start) = pass.on_displacement(bytes) {
                        pass.on_surroundings(readable(memory, base, start));
                    }
                }
                Probe::ReadSurroundings(start) => pass.on_surroundings(readable(memory, base, start)),
            }
        }
    }
    assert!(pass.is_finished());
    pass.results()
}

fn readable(memory: &[u8], base: usize, start: usize) -> usize {
    if start < base || start >= base + memory.len() {
        0
    } else {
        (base + memory.len() - start).min(256)
    }
}

#[test]
fn new_engine_knows_six_signatures() {
    let e = DiscoveryEngine::new();
    let sigs = e.get_signatures();
    assert_eq!(sigs.len(), 6);
    assert_eq!(sigs[0].name, "Health");
    assert_eq!(sigs[0].aliases, vec!["HP", "Health", "Vitality", "Vitals", "Life", "LifeForce"]);
    assert_eq!(sigs[0].aob_patterns, vec!["48 8B 05 ?? ?? ?? ?? 48 8B 88 ?? ?? ?? ?? 89 81"]);
    assert_eq!(sigs[0].ptr_offset, Some(3));
    assert_eq!(sigs[1].ptr_offset, None);
    assert_eq!(sigs[1].value_type, ValueType::Float32);
    assert_eq!(sigs[4].name, "Money");
    assert_eq!(sigs[5].aliases, vec!["Gold", "Wealth"]);
    assert!(sigs.iter().all(|s| s.category == "Games" && s.offset == 0));
}

#[test]
fn added_signature_is_listed_last() {
    let mut e = DiscoveryEngine::new();
    e.add_signature(sig("Mana", &["MP"], &["01 02"], None, ValueType::Int32));
    let sigs = e.get_signatures();
    assert_eq!(sigs.len(), 7);
    assert_eq!(sigs[6].name, "Mana");
    assert_eq!(sigs[6].aliases, vec!["MP"]);
}

#[test]
fn target_modes_pick_value_types() {
    assert_eq!(target_value_type("Float"), ValueType::Float32);
    assert_eq!(target_value_type("Double (64)"), ValueType::Float64);
    assert_eq!(target_value_type("Short"), ValueType::Int16);
    assert_eq!(target_value_type("Int16"), ValueType::Int16);
    assert_eq!(target_value_type("Byte"), ValueType::Byte);
    assert_eq!(target_value_type("Int32"), ValueType::Int32);
    assert_eq!(target_value_type(""), ValueType::Int32);
}

#[test]
fn targets_are_selected_by_name_or_alias_ignoring_case() {
    let e = DiscoveryEngine::new();
    let hp = e.select_targets("hp", "Int32");
    assert_eq!(hp.len(), 1);
    assert_eq!(hp[0].value_type, ValueType::Int32);
    let gold = e.select_targets("GOLD", "Double");
    assert_eq!(gold.len(), 1);
    assert_eq!(gold[0].name, "Money");
    assert!(e.select_targets("mana", "Int32").is_empty());
    assert!(e.select_targets("health", "Byte").is_empty());
}

#[test]
fn pointer_arithmetic_saturates_like_i64() {
    assert_eq!(locate_pointer(0x1000, 3), 0x1003);
    assert_eq!(locate_pointer(0, -1), usize::MAX);
    assert_eq!(locate_pointer(usize::MAX, 1), 0);
    assert_eq!(locate_pointer(0x7FFF_FFFF_FFFF_FFFF, 5), 0x7FFF_FFFF_FFFF_FFFF);
    assert_eq!(follow_rel32(0x10000, 0x10), 0x10014);
    assert_eq!(follow_rel32(0x10000, -0x20), 0xFFE4);
    assert_eq!(apply_offset(0x20000, -0x10), 0x1FFF0);
    assert!(user_space(0x10000));
    assert!(user_space(0x7FFF_FFFF_FFFF));
    assert!(!user_space(0xFFFF));
    assert!(!user_space(0x8000_0000_0000));
}

#[test]
fn pass_follows_rel32_displacements() {
    let base = 0x10_0000usize;
    let mut memory = vec![0u8; 0x400];
    // mov rax, [rip + disp] at offset 0x100: 48 8B 05 <disp32>
    memory[0x100..0x103].copy_from_slice(&[0x48, 0x8B, 0x05]);
    memory[0x103..0x107].copy_from_slice(&0x200i32.to_le_bytes());
    let sigs = vec![sig("Health", &["HP"], &["48 8B 05 ?? ?? ?? ??"], Some(3), ValueType::Int32)];
    let results = run(sigs, &memory, base, None);
    assert_eq!(results.len(), 1);
    assert_eq!(results[0].address, base + 0x103 + 4 + 0x200);
    assert_eq!(results[0].label.as_deref(), Some("Health (Ptr Resolved)"));
    assert_eq!(results[0].value_type, ValueType::Int32);
    assert_eq!(results[0].category, "Games");
}

#[test]
fn pass_keeps_direct_matches_with_readable_surroundings() {
    let base = 0x20_0000usize;
    let mut memory = vec![0u8; 0x400];
    memory[0x10..0x12].copy_from_slice(&[0xF3, 0x0F]);
    memory[0x100..0x102].copy_from_slice(&[0xF3, 0x0F]);
    let sigs = vec![sig("Health", &[], &["F3 0F"], None, ValueType::Float32)];
    let results = run(sigs, &memory, base, None);
    // The bytes before the first match cannot be read, so it is dropped.
    let addrs: Vec<usize> = results.iter().map(|r| r.address).collect();
    assert_eq!(addrs, vec![base + 0x100]);
}

#[test]
fn unparsable_patterns_are_skipped() {
    let base = 0x20_0000usize;
    let mut memory = vec![0u8; 0x200];
    memory[0x100] = 0xAB;
    let sigs = vec![sig("X", &[], &["ZZ", "AB"], None, ValueType::Byte)];
    let results = run(sigs, &memory, base, None);
    assert_eq!(results.len(), 1);
    assert_eq!(results[0].address, base + 0x100);
}

#[test]
fn each_pattern_keeps_at_most_fifty() {
    let base = 0x30_0000usize;
    let memory = vec![0xCCu8; 0x400];
    let sigs = vec![sig("Pad", &[], &["CC"], None, ValueType::Byte)];
    let results = run(sigs, &memory, base, None);
    assert_eq!(results.len(), 50);
}

#[test]
fn low_addresses_are_refused() {
    let base = 0x100usize;
    let mut memory = vec![0u8; 0x200];
    memory[0x10] = 0xAB;
    let sigs = vec![sig("Low", &[], &["AB"], None, ValueType::Byte)];
    assert!(run(sigs, &memory, base, None).is_empty());
}

#[test]
fn cancelled_pass_finishes_at_once() {
    let base = 0x30_0000usize;
    let memory = vec![0xCCu8; 0x400];
    let sigs = vec![sig("Pad", &[], &["CC"], None, ValueType::Byte)];
    assert!(run(sigs, &memory, base, Some(0)).is_empty());
}

#[test]
fn smart_scan_passes_over_every_signature() {
    let engine = DiscoveryEngine::new();
    let mut pass = engine.smart_scan();
    assert!(!pass.is_finished());
    let first = pass.next_pattern(false).expect("the built-in patterns parse");
    assert_eq!(first.len(), 16);
    assert!(pass.results().is_empty());
}

#[test]
fn targeted_scan_passes_over_the_selected_signatures() {
    let engine = DiscoveryEngine::new();
    let mut none = engine.targeted_scan("Mana", "Int32");
    assert!(none.next_pattern(false).is_none());
    assert!(none.is_finished());

    let mut money = engine.targeted_scan("gold", "Double");
    let scanner = money.next_pattern(false).expect("the Float64 money pattern");
    assert_eq!(scanner.len(), 13);
    let mut cancelled = engine.targeted_scan("HP", "Short Int16");
    assert!(cancelled.next_pattern(true).is_none());
    assert!(cancelled.is_finished());
}
