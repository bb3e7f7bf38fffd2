use lab_allocator::{AllocError, EarlyAllocator, Layout};

const PAGE: usize = 0x1000;

#[test]
fn early_scenario_double_ended() {
    let mut ea: EarlyAllocator<PAGE> = EarlyAllocator::new();
    ea.init(0x1000, 0x2000);
    assert_eq!(ea.start, 0x1000);
    assert_eq!(ea.end, 0x3000);
    assert_eq!(ea.b_pos, 0x1000);
    assert_eq!(ea.p_pos, 0x3000);

    let a = ea.alloc_bytes(&Layout { size: 16, align: 16 });
    assert_eq!(a, Ok(0x1000));
    assert_eq!(ea.b_pos, 0x1010);

    let p = ea.alloc_pages(1, 0x1000);
    assert_eq!(p, Ok(0x2000));
    assert_eq!(ea.p_pos, 0x2000);

    let b = ea.alloc_bytes(&Layout { size: 0x1000, align: 1 });
    assert_eq!(b, Err(AllocError::NoMemory));
    assert_eq!(ea.b_pos, 0x1010);
}

#[test]
fn early_stats_partition() {
    let mut ea: EarlyAllocator<PAGE> = EarlyAllocator::new();
    ea.init(0x4000, 0x3000);
    assert_eq!(ea.total_bytes(), 0x3000);
    assert_eq!(ea.used_bytes(), 0);
    assert_eq!(ea.available_bytes(), 0x3000);

    ea.alloc_bytes(&Layout { size: 100, align: 4 }).unwrap();
    ea.alloc_pages(1, 0x1000).unwrap();
    assert_eq!(ea.total_bytes(), ea.used_bytes() + ea.available_bytes());
    assert_eq!(ea.used_bytes(), 100 + 0x1000);
}

#[test]
fn early_alloc_alignment() {
    let mut ea: EarlyAllocator<PAGE> = EarlyAllocator::new();
    ea.init(0x1000, 0x1000);
    ea.alloc_bytes(&Layout { size: 3, align: 1 }).unwrap();
    let a = ea.alloc_bytes(&Layout { size: 8, align: 64 }).unwrap();
    assert_eq!(a % 64, 0);
    assert_eq!(a, 0x1040);
    assert_eq!(ea.b_pos, 0x1048);
}

#[test]
fn early_add_memory_unsupported() {
    let mut ea: EarlyAllocator<PAGE> = EarlyAllocator::new();
    ea.init(0x1000, 0x1000);
    assert_eq!(ea.add_memory(0x8000, 0x1000), Err(AllocError::NoMemory));
    assert_eq!(ea.total_bytes(), 0x1000);
}

#[test]
fn early_monotonic_cursors() {
    let mut ea: EarlyAllocator<PAGE> = EarlyAllocator::new();
    ea.init(0x2000, 0x4000);
    let mut last_b = ea.b_pos;
    let mut last_p = ea.p_pos;
    let layouts = [(8usize, 8usize), (40, 4), (1, 1), (256, 128), (9000, 2)];
    for (size, align) in layouts {
        let _ = ea.alloc_bytes(&Layout { size, align });
        let _ = ea.alloc_pages(1, 0x1000);
        ea.dealloc(ea.start, &Layout { size, align });
        ea.dealloc_pages(ea.end - 0x1000, 1);
        assert!(ea.b_pos >= last_b);
        assert!(ea.p_pos <= last_p);
        assert!(ea.b_pos <= ea.p_pos);
        last_b = ea.b_pos;
        last_p = ea.p_pos;
    }
}

#[test]
fn early_exhaustion_leaves_state() {
    let mut ea: EarlyAllocator<PAGE> = EarlyAllocator::new();
    ea.init(0x1000, 0x100);
    assert_eq!(
        ea.alloc_bytes(&Layout { size: 0x200, align: 1 }),
        Err(AllocError::NoMemory)
    );
    assert_eq!(ea.alloc_pages(1, 0x1000), Err(AllocError::NoMemory));
    assert_eq!(ea.b_pos, 0x1000);
    assert_eq!(ea.p_pos, 0x1100);
    assert_eq!(ea.used_bytes(), 0);
}

#[test]
fn early_page_stats() {
    let mut ea: EarlyAllocator<PAGE> = EarlyAllocator::new();
    ea.init(0x10000, 0x5000);
    assert_eq!(ea.total_pages(), 5);
    assert_eq!(ea.used_pages(), 0);
    assert_eq!(ea.available_pages(), 5);
    ea.alloc_pages(2, 0x1000).unwrap();
    assert_eq!(ea.used_pages(), 2);
    assert_eq!(ea.available_pages(), 3);
    ea.alloc_bytes(&Layout { size: 0x800, align: 1 }).unwrap();
    assert_eq!(ea.available_pages(), 2);
}
