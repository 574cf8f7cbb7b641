//! Linear-scan register allocation.

use vredrs_codegen::cstar::raw::regalloc::{AllocResult, RegisterAllocator};

#[test]
fn test_basic_allocation() {
    let mut alloc = RegisterAllocator::new(
        vec!["r1".to_string(), "r2".to_string(), "r3".to_string()],
        0,
    );
    // Variable A: live from 0 to 5
    let r = alloc.allocate("A", 0, 5);
    assert!(matches!(r, AllocResult::Register(_)));
    // Variable B: live from 1 to 3
    let r = alloc.allocate("B", 1, 3);
    assert!(matches!(r, AllocResult::Register(_)));
    // Variable C: live from 2 to 4
    let r = alloc.allocate("C", 2, 4);
    assert!(matches!(r, AllocResult::Register(_)));
}

#[test]
fn test_register_reuse() {
    let mut alloc = RegisterAllocator::new(
        vec!["r1".to_string(), "r2".to_string()],
        0,
    );
    // A: live 0-2
    alloc.allocate("A", 0, 2);
    assert_eq!(alloc.active_count(), 1);
    // B: live 1-3
    alloc.allocate("B", 1, 3);
    assert_eq!(alloc.active_count(), 2);
    // C: live 3-5 — A's end (2) <= C's start (3), so A is expired.
    let r = alloc.allocate("C", 3, 5);
    assert!(matches!(r, AllocResult::Register(_)));
    // B is still active (end 3 > start 3? No, 3 <= 3 is true, so B is also expired)
    // Actually: B's end is 3, C's start is 3, 3 <= 3 is true, so B is expired too.
    // So only C should be active.
    assert_eq!(alloc.active_count(), 1); // Only C
}

#[test]
fn test_spill_when_full() {
    let mut alloc = RegisterAllocator::new(
        vec!["r1".to_string()], // Only 1 register
        0,
    );
    // A: live 0-10
    alloc.allocate("A", 0, 10);
    // B: live 1-5 — A lives longer (end 10 > 5), so B should be spilled
    let r = alloc.allocate("B", 1, 5);
    assert!(matches!(r, AllocResult::Spilled(_)));
}

#[test]
fn test_spill_furthest() {
    let mut alloc = RegisterAllocator::new(
        vec!["r1".to_string()], // Only 1 register
        0,
    );
    // A: live 0-10 (long-lived)
    alloc.allocate("A", 0, 10);
    // B: live 1-20 (even longer-lived)
    // A's end (10) < B's end (20), so A should be spilled and B gets the register
    let r = alloc.allocate("B", 1, 20);
    assert!(matches!(r, AllocResult::Register(_)));
    // A should now be spilled
    let a_alloc = alloc.get_allocation("A").unwrap();
    assert!(matches!(a_alloc, AllocResult::Spilled(_)));
}

#[test]
fn test_no_spill_for_non_overlapping() {
    let mut alloc = RegisterAllocator::new(
        vec!["r1".to_string()], // Only 1 register
        0,
    );
    // A: live 0-3
    alloc.allocate("A", 0, 3);
    // Advance past A
    alloc.current_pos = 3;
    alloc.expire_old_intervals();
    // B: live 4-6 — should reuse r1 (A expired)
    let r = alloc.allocate("B", 4, 6);
    assert!(matches!(r, AllocResult::Register(_)));
}

#[test]
fn test_used_registers() {
    let mut alloc = RegisterAllocator::new(
        vec!["r1".to_string(), "r2".to_string(), "r3".to_string()],
        0,
    );
    alloc.allocate("A", 0, 5);
    alloc.allocate("B", 1, 3);
    alloc.allocate("C", 2, 4);
    let used = alloc.used_registers();
    assert_eq!(used.len(), 3);
}

#[test]
fn live_variables_hold_different_registers() {
    let mut alloc = RegisterAllocator::new(vec!["r1".to_string(), "r2".to_string()], -8);
    let place = |r: AllocResult| match r {
        AllocResult::Register(r) => r,
        AllocResult::Spilled(o) => format!("{}", o),
    };
    let a = place(alloc.allocate("A", 0, 10));
    let b = place(alloc.allocate("B", 1, 9));
    assert_ne!(a, b);
    // A ends last of the two, and before C: it makes room.
    let c = place(alloc.allocate("C", 2, 20));
    assert_eq!(c, a);
    assert!(matches!(alloc.get_allocation("A"), Some(AllocResult::Spilled(-8))));
    let d = place(alloc.allocate("D", 3, 30));
    assert_eq!(d, c);
    assert!(matches!(alloc.get_allocation("C"), Some(AllocResult::Spilled(-16))));
    assert_eq!(alloc.stack_used(), 24);
    assert!(alloc.get_allocation("E").is_none());
}

#[test]
fn last_uses_free_registers() {
    let mut alloc = RegisterAllocator::new(vec!["r1".to_string()], 0);
    alloc.allocate("A", 0, 100);
    alloc.advance();
    alloc.advance();
    assert_eq!(alloc.current_pos(), 2);
    alloc.mark_last_use("A");
    alloc.expire_old_intervals();
    assert_eq!(alloc.active_count(), 1);
    alloc.advance();
    alloc.expire_old_intervals();
    assert_eq!(alloc.active_count(), 0);
    assert!(matches!(alloc.allocate("B", 3, 5), AllocResult::Register(r) if r == "r1"));
    alloc.reset(-32);
    assert_eq!(alloc.active_count(), 0);
    assert_eq!(alloc.current_pos(), 0);
    assert!(alloc.get_allocation("B").is_none());
    assert!(alloc.used_registers().is_empty());
}

fn place(alloc: &RegisterAllocator, name: &str) -> String {
    match alloc.get_allocation(name) {
        Some(AllocResult::Register(r)) => r.clone(),
        Some(AllocResult::Spilled(o)) => format!("{}", o),
        None => "none".to_string(),
    }
}

#[test]
fn overlapping_variables_have_different_registers() {
    let vars = [
        ("a", 0, 9),
        ("b", 1, 4),
        ("c", 2, 30),
        ("d", 4, 6),
        ("e", 5, 40),
        ("f", 9, 12),
        ("g", 12, 50),
    ];
    let mut alloc = RegisterAllocator::new(vec!["r1".to_string(), "r2".to_string()], 0);
    for (name, start, end) in vars {
        alloc.allocate(name, start, end);
    }
    for (i, (a, a_start, a_end)) in vars.iter().enumerate() {
        for (b, b_start, b_end) in &vars[i + 1..] {
            if a_start < b_end && b_start < a_end {
                assert_ne!(place(&alloc, a), place(&alloc, b), "{} and {}", a, b);
            }
        }
    }
}

#[test]
fn spilled_variables_fill_the_stack_without_a_gap() {
    let mut alloc = RegisterAllocator::new(vec!["r1".to_string()], 0);
    alloc.allocate("a", 0, 100);
    assert_eq!(alloc.stack_used(), 0);
    alloc.allocate("b", 1, 50);
    alloc.advance();
    alloc.mark_last_use("b");
    alloc.allocate("c", 2, 200);
    alloc.expire_old_intervals();
    alloc.allocate("d", 3, 60);
    assert_eq!(place(&alloc, "c"), "r1");
    let slots: Vec<String> = ["b", "a", "d"].iter().map(|n| place(&alloc, n)).collect();
    assert_eq!(slots, vec!["0", "-8", "-16"]);
    assert_eq!(alloc.stack_used(), 24);
}

#[test]
fn only_allocated_variables_have_a_place() {
    let mut alloc = RegisterAllocator::new(vec!["r1".to_string()], 0);
    assert_eq!(place(&alloc, "a"), "none");
    alloc.allocate("a", 0, 5);
    alloc.allocate("b", 1, 9);
    assert_eq!(place(&alloc, "c"), "none");
    let before = (place(&alloc, "a"), place(&alloc, "b"), alloc.active_count());
    alloc.allocate("a", 20, 30);
    alloc.allocate("b", 20, 30);
    assert_eq!((place(&alloc, "a"), place(&alloc, "b"), alloc.active_count()), before);
    alloc.reset(0);
    assert_eq!(place(&alloc, "a"), "none");
    assert_eq!(place(&alloc, "b"), "none");
}

#[test]
fn used_registers_are_those_that_were_given() {
    let mut alloc = RegisterAllocator::new(
        vec!["r1".to_string(), "r2".to_string(), "r3".to_string()],
        0,
    );
    assert!(alloc.used_registers().is_empty());
    alloc.allocate("a", 0, 10);
    alloc.allocate("b", 1, 10);
    alloc.allocate("c", 10, 12);
    let mut used = alloc.used_registers();
    used.sort();
    assert_eq!(used, vec!["r1", "r2"]);
}

#[test]
fn a_marked_last_use_frees_the_register() {
    let mut alloc = RegisterAllocator::new(vec!["r1".to_string()], 0);
    alloc.allocate("a", 0, 100);
    alloc.mark_last_use("a");
    alloc.advance();
    alloc.expire_old_intervals();
    assert_eq!(alloc.active_count(), 0);
    alloc.allocate("b", 1, 5);
    assert_eq!(place(&alloc, "b"), "r1");
}
