use tcmalloc::AllocRequest;
use tcmalloc::ModelAllocator;
use tcmalloc::SamplingMode;
use tcmalloc::TcMalloc;
use tcmalloc::adapter::allocate_then_deallocate;
use tcmalloc::mode::activate_guarded_sampling;

#[test]
fn free_malloc() {
    let mut m = ModelAllocator::new();
    let ptr = m.malloc(8);
    m.free(ptr);
}

#[test]
fn free_calloc() {
    let mut m = ModelAllocator::new();
    let ptr = m.calloc(1, 8);
    m.free(ptr);
}

#[test]
fn calloc_zeroed() {
    let mut m = ModelAllocator::new();
    let ptr = m.calloc(1, 8);

    // Check if the memory is zeroed
    for i in 0..8 {
        assert_eq!(m.load(ptr, i), 0); // All bytes should be zero
    }
    // Free the memory
    m.free(ptr);
}

#[test]
fn realloc() {
    let mut m = ModelAllocator::new();
    let ptr = m.malloc(8);
    // Verify realloc preserves data
    m.store(ptr, 0, 42);
    // Reallocate the block
    let new_ptr = m.realloc(ptr, 16);
    // Check if the original data is preserved
    assert_eq!(m.load(new_ptr, 0), 42);
    // Free the memory
    m.free(new_ptr);
}

#[test]
fn free_realloc() {
    let mut m = ModelAllocator::new();
    let ptr = m.malloc(8);
    let ptr = m.realloc(ptr, 16);
    m.free(ptr);
}

#[test]
fn scenario_alloc_write_free() {
    let mut m = ModelAllocator::new();
    let tc = TcMalloc;
    let layout = AllocRequest::from_size_align(8, 8).unwrap();
    let p = tc.allocate(&mut m, layout);
    assert_ne!(p, 0);
    m.store(p, 0, 42);
    assert_eq!(m.load(p, 0), 42);
    tc.dealloc(&mut m, p, layout);
}

#[test]
fn scenario_alloc_zeroed_all_zero() {
    let mut m = ModelAllocator::new();
    let tc = TcMalloc;
    let layout = AllocRequest::from_size_align(8, 8).unwrap();
    let p = tc.alloc_zeroed(&mut m, layout);
    assert_ne!(p, 0);
    for i in 0..8 {
        assert_eq!(m.load(p, i), 0);
    }
    tc.dealloc(&mut m, p, layout);
}

#[test]
fn scenario_realloc_preserves_content() {
    let mut m = ModelAllocator::new();
    let tc = TcMalloc;
    let layout = AllocRequest::from_size_align(8, 8).unwrap();
    let p = tc.allocate(&mut m, layout);
    m.store(p, 0, 42);
    let q = tc.realloc(&mut m, p, layout, 16);
    assert_ne!(q, 0);
    assert_eq!(m.load(q, 0), 42);
    let grown = AllocRequest::from_size_align(16, 8).unwrap();
    tc.dealloc(&mut m, q, grown);
}

#[test]
fn scenario_free_after_realloc() {
    let mut m = ModelAllocator::new();
    let tc = TcMalloc;
    let layout = AllocRequest::from_size_align(8, 8).unwrap();
    let p = tc.allocate(&mut m, layout);
    let q = tc.realloc(&mut m, p, layout, 16);
    let grown = AllocRequest::from_size_align(16, 8).unwrap();
    tc.dealloc(&mut m, q, grown);
}

#[test]
fn scenario_stats_after_alloc() {
    let mut m = ModelAllocator::new();
    let p = m.malloc(8);
    assert_ne!(p, 0);
    let stats = m.snapshot_stats();
    assert!(!stats.is_empty());
    assert_eq!(stats, "1 0 1\n");
}

#[test]
fn stats_of_fresh_backend() {
    let m = ModelAllocator::new();
    assert_eq!(m.snapshot_stats(), "0 0 0\n");
}

#[test]
fn stats_count_frees_and_live() {
    let mut m = ModelAllocator::new();
    let p = m.malloc(4);
    let q = m.malloc(4);
    m.free(p);
    let _keep = q;
    assert_eq!(m.snapshot_stats(), "2 1 1\n");
}

#[test]
fn calloc_overflow_returns_null() {
    let mut m = ModelAllocator::new();
    let p = m.calloc(usize::MAX, 2);
    assert_eq!(p, 0);
    assert_eq!(m.snapshot_stats(), "0 0 0\n");
}

#[test]
fn alloc_free_round_trip_law() {
    let mut m = ModelAllocator::new();
    let layout = AllocRequest::from_size_align(32, 16).unwrap();
    let p = allocate_then_deallocate(&mut m, layout);
    assert_ne!(p, 0);
    assert_eq!(m.snapshot_stats(), "1 1 0\n");
}

#[test]
fn zero_sized_allocations() {
    let mut m = ModelAllocator::new();
    let tc = TcMalloc;
    let layout = AllocRequest::from_size_align(0, 1).unwrap();
    let p = tc.allocate(&mut m, layout);
    assert_ne!(p, 0);
    tc.dealloc(&mut m, p, layout);
    let q = tc.alloc_zeroed(&mut m, layout);
    assert_ne!(q, 0);
    tc.dealloc(&mut m, q, layout);
}

#[test]
fn activate_guarded_sampling_idempotent() {
    let mut mode = SamplingMode::Inactive;
    activate_guarded_sampling(&mut mode);
    assert_eq!(mode, SamplingMode::Active);
    let after_once = mode;
    activate_guarded_sampling(&mut mode);
    assert_eq!(mode, after_once);
    assert_eq!(mode, SamplingMode::Active);
}
