use lab_allocator::{AllocError, Heap, LabByteAllocator, Layout};

#[test]
fn heap_scenario_small_and_large() {
    let mut h = Heap::new(0x1000, 0x8000);
    assert_eq!(h.total_bytes(), 0x8000);
    assert_eq!(h.used_bytes(), 0);

    // routes to the 64-byte class, which grows by one page from the buddy tier
    let before = h.used_bytes();
    let a = h.allocate(Layout { size: 32, align: 8 }).unwrap();
    assert_eq!(a % 8, 0);
    assert_eq!(h.used_bytes(), before + 64);
    assert_eq!(h.buddy_allocator.stats_total_bytes(), 0x8000);
    assert_eq!(h.buddy_allocator.stats_alloc_actual(), 0x1000);

    // routes to the buddy tier: counts exactly the requested size
    let before = h.used_bytes();
    let b = h.allocate(Layout { size: 9000, align: 8 }).unwrap();
    assert_eq!(b % 8, 0);
    assert_eq!(h.used_bytes(), before + 9000);
    // the buddy tier itself occupies the next power of two
    assert_eq!(h.buddy_allocator.stats_alloc_actual(), 0x1000 + 0x4000);
}

#[test]
fn heap_exhaustion_boundary() {
    // a heap of exactly MIN_HEAP_SIZE cannot serve one more byte than that
    let mut h = Heap::new(0x1000, 0x8000);
    let r = h.allocate(Layout { size: 0x8001, align: 8 });
    assert_eq!(r, Err(AllocError::NoMemory));
    assert_eq!(h.used_bytes(), 0);
    assert_eq!(h.total_bytes(), 0x8000);
}

#[test]
fn heap_classification_minimal() {
    let h = Heap::new(0x1000, 0x8000);
    // smallest class covering both size and alignment
    assert_eq!(h.usable_size(Layout { size: 32, align: 8 }), (32, 64));
    assert_eq!(h.usable_size(Layout { size: 64, align: 64 }), (64, 64));
    assert_eq!(h.usable_size(Layout { size: 65, align: 1 }), (65, 128));
    assert_eq!(h.usable_size(Layout { size: 100, align: 256 }), (100, 256));
    assert_eq!(h.usable_size(Layout { size: 16, align: 4096 }), (16, 4096));
    assert_eq!(h.usable_size(Layout { size: 8192, align: 1 }), (8192, 8192));
    // over the largest class: the buddy tier grants the exact size
    assert_eq!(h.usable_size(Layout { size: 8193, align: 8 }), (8193, 8193));
    assert_eq!(h.usable_size(Layout { size: 20000, align: 16384 }), (20000, 20000));
}

#[test]
fn heap_roundtrip_restores_used_bytes() {
    let mut h = Heap::new(0x1000, 0x8000);
    // slab-class round trip
    let l = Layout { size: 48, align: 16 };
    let before = h.used_bytes();
    let a = h.allocate(l).unwrap();
    assert_eq!(h.used_bytes(), before + 64);
    h.deallocate(a, l);
    assert_eq!(h.used_bytes(), before);
    // buddy-tier round trip
    let l = Layout { size: 9000, align: 8 };
    let before = h.used_bytes();
    let b = h.allocate(l).unwrap();
    assert_eq!(h.used_bytes(), before + 9000);
    h.deallocate(b, l);
    assert_eq!(h.used_bytes(), before);
}

#[test]
fn heap_alignment_guarantee() {
    let mut h = Heap::new(0x1000, 0x20000);
    let layouts = [
        (1usize, 1usize),
        (32, 32),
        (100, 64),
        (500, 512),
        (3000, 1024),
        (8192, 8192),
        (9000, 8),
        (10000, 4096),
    ];
    for (size, align) in layouts {
        let a = h.allocate(Layout { size, align }).unwrap();
        assert_eq!(a % align, 0, "size {size} align {align}");
    }
}

#[test]
fn heap_stats_partition() {
    let mut h = Heap::new(0x1000, 0x10000);
    assert_eq!(h.total_bytes(), h.used_bytes() + h.available_bytes());
    h.allocate(Layout { size: 128, align: 8 }).unwrap();
    assert_eq!(h.total_bytes(), h.used_bytes() + h.available_bytes());
    h.allocate(Layout { size: 9000, align: 8 }).unwrap();
    assert_eq!(h.total_bytes(), h.used_bytes() + h.available_bytes());
}

#[test]
fn heap_add_memory_extends_buddy_tier() {
    let mut h = Heap::new(0x1000, 0x8000);
    let before = h.total_bytes();
    h.add_memory(0x20000, 0x4000);
    assert_eq!(h.total_bytes(), before + 0x4000);
    assert_eq!(h.used_bytes(), 0);
    // the new range serves a large request that failed before
    let l = Layout { size: 0x3000, align: 8 };
    let a = h.allocate(l).unwrap();
    assert_eq!(a % 8, 0);
}

#[test]
fn heap_allocate_failure_leaves_state() {
    let mut h = Heap::new(0x1000, 0x8000);
    h.allocate(Layout { size: 9000, align: 8 }).unwrap();
    let used = h.used_bytes();
    let total = h.total_bytes();
    // nothing that large is left
    assert_eq!(
        h.allocate(Layout { size: 0x6000, align: 8 }),
        Err(AllocError::NoMemory)
    );
    assert_eq!(h.used_bytes(), used);
    assert_eq!(h.total_bytes(), total);
}

#[test]
fn heap_slab_reuses_freed_block() {
    let mut h = Heap::new(0x1000, 0x8000);
    let l = Layout { size: 64, align: 64 };
    let a = h.allocate(l).unwrap();
    h.deallocate(a, l);
    let b = h.allocate(l).unwrap();
    // the freed block is back on top of the free list
    assert_eq!(a, b);
}

#[test]
fn lab_allocator_lifecycle() {
    let mut lab = LabByteAllocator::new();
    lab.init(0x1000, 0x8000);
    assert_eq!(lab.total_bytes(), 0x8000);
    assert_eq!(lab.used_bytes(), 0);
    assert_eq!(lab.available_bytes(), 0x8000);

    let l = Layout { size: 200, align: 8 };
    let a = lab.alloc_bytes(l).unwrap();
    assert_eq!(a % 8, 0);
    assert_eq!(lab.used_bytes(), 256);
    // the growth chunk donated to the 256-byte class counts in the total
    assert_eq!(lab.total_bytes(), 0x9000);
    assert_eq!(lab.total_bytes(), lab.used_bytes() + lab.available_bytes());

    lab.dealloc(a, l);
    assert_eq!(lab.used_bytes(), 0);

    assert_eq!(lab.add_memory(0x10000, 0x1000), Ok(()));
    assert_eq!(lab.total_bytes(), 0xA000);
}

#[test]
fn heap_buddy_coalesces_on_free() {
    let mut h = Heap::new(0x1000, 0x10000);
    let l = Layout { size: 9000, align: 8 };
    let a = h.allocate(l).unwrap();
    let b = h.allocate(l).unwrap();
    h.deallocate(a, l);
    h.deallocate(b, l);
    // the two freed 16 KiB buddies must have merged back into a 32 KiB block
    let big = Layout { size: 0x7000, align: 8 };
    let c = h.allocate(big).unwrap();
    assert_eq!(c % 8, 0);
    assert_eq!(h.used_bytes(), 0x7000);
}
