use game_ecs::array::GenerationalIndexArray;
use game_ecs::slot::{GenerationalIndex, GenerationalIndexAllocator};

#[test]
fn reallocating_a_freed_index_bumps_its_generation() {
    let mut a = GenerationalIndexAllocator::new();
    let s0 = a.allocate();
    assert_eq!(s0, GenerationalIndex { index: 0, generation: 0 });
    assert!(a.deallocate(s0));
    let s1 = a.allocate();
    assert_eq!(s1, GenerationalIndex { index: 0, generation: 1 });
    assert_eq!(s1.index(), 0);
    assert_eq!(s1.generation(), 1);
}

#[test]
fn fresh_indices_start_at_generation_zero() {
    let mut a = GenerationalIndexAllocator::new();
    for i in 0..4usize {
        let s = a.allocate();
        assert_eq!(s, GenerationalIndex { index: i, generation: 0 });
    }
}

#[test]
fn deallocating_out_of_range_returns_false() {
    let mut a = GenerationalIndexAllocator::new();
    let _ = a.allocate();
    assert!(!a.deallocate(GenerationalIndex { index: 5, generation: 0 }));
    assert!(a.is_live(GenerationalIndex { index: 0, generation: 0 }));
}

#[test]
fn liveness_follows_allocation_by_index_only() {
    let mut a = GenerationalIndexAllocator::new();
    let s = a.allocate();
    assert!(a.is_live(s));
    assert!(a.is_live(GenerationalIndex { index: 0, generation: 7 }));
    assert!(!a.is_current(GenerationalIndex { index: 0, generation: 7 }));
    assert!(a.is_current(s));
    assert!(a.deallocate(s));
    assert!(!a.is_live(s));
    assert!(!a.is_current(s));
    assert!(!a.is_live(GenerationalIndex { index: 3, generation: 0 }));
}

#[test]
fn freed_indices_are_reused_last_in_first_out() {
    let mut a = GenerationalIndexAllocator::new();
    let s0 = a.allocate();
    let _s1 = a.allocate();
    let s2 = a.allocate();
    assert!(a.deallocate(s0));
    assert!(a.deallocate(s2));
    assert_eq!(a.allocate(), GenerationalIndex { index: 2, generation: 1 });
    assert_eq!(a.allocate(), GenerationalIndex { index: 0, generation: 1 });
    assert_eq!(a.allocate(), GenerationalIndex { index: 3, generation: 0 });
}

#[test]
fn generations_strictly_increase_on_each_reuse() {
    let mut a = GenerationalIndexAllocator::new();
    let mut last = a.allocate();
    for _ in 0..5 {
        assert!(a.deallocate(last));
        let next = a.allocate();
        assert_eq!(next.index, last.index);
        assert!(next.generation > last.generation);
        last = next;
    }
    assert_eq!(last.generation, 5);
}

#[test]
fn live_slots_never_share_index_and_generation() {
    let mut a = GenerationalIndexAllocator::new();
    let mut live: Vec<GenerationalIndex> = Vec::new();
    for round in 0..6usize {
        live.push(a.allocate());
        live.push(a.allocate());
        if round % 2 == 0 {
            let gone = live.remove(0);
            assert!(a.deallocate(gone));
        }
    }
    for (i, s) in live.iter().enumerate() {
        assert!(a.is_current(*s));
        for t in live.iter().skip(i + 1) {
            assert_ne!(s, t);
            assert_ne!(s.index, t.index);
        }
    }
}

#[test]
fn array_reads_only_the_generation_written() {
    let mut arr: GenerationalIndexArray<u32> = GenerationalIndexArray::new();
    let old = GenerationalIndex { index: 2, generation: 0 };
    let new = GenerationalIndex { index: 2, generation: 1 };
    arr.set(old, 10);
    assert_eq!(arr.len(), 3);
    assert_eq!(arr.get(old), Some(&10));
    arr.set(new, 20);
    assert_eq!(arr.get(old), None);
    assert_eq!(arr.get(new), Some(&20));
    assert_eq!(arr.get(GenerationalIndex { index: 0, generation: 0 }), None);
    assert_eq!(arr.get(GenerationalIndex { index: 9, generation: 0 }), None);
}

#[test]
fn array_get_mut_writes_in_place() {
    let mut arr: GenerationalIndexArray<u32> = GenerationalIndexArray::new();
    let s = GenerationalIndex { index: 0, generation: 3 };
    arr.set(s, 1);
    *arr.get_mut(s).unwrap() += 41;
    assert_eq!(arr.get(s), Some(&42));
    assert!(arr.get_mut(GenerationalIndex { index: 0, generation: 2 }).is_none());
}
