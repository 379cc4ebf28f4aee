use stupidalloc::engine::confirm_alloc;
use stupidalloc::engine::CoreStep;
use stupidalloc::engine::StupidAlloc;
use stupidalloc::graphics::Message;
use stupidalloc::layout::Layout;

fn fresh() -> StupidAlloc {
    StupidAlloc::new("/tmp/stupidalloc".to_string(), 1024)
}

/// Drives one full allocation through the engine's steps, with the default
/// providers, reporting the backing path it was given.
fn alloc_at(a: &mut StupidAlloc, base: usize, size: usize) -> String {
    let layout = Layout::from_size_align(size, 8).expect("valid layout");
    assert!(a.begin_allocate());
    let confirmed = confirm_alloc(&layout);
    let provided = a.get_alloc_file_path();
    let path = a.proceed_allocate(confirmed, provided).expect("declined");
    assert!(a.finish_allocate(&layout, path.clone(), base));
    path
}

#[test]
fn allocate_registers_and_locates() {
    let mut a = fresh();
    let path = alloc_at(&mut a, 0x1000, 1024);
    assert_eq!(path, "/tmp/stupidalloc/alloc_0000000000.mem");
    let state = a.state();
    assert_eq!(state.len(), 1);
    assert_eq!(state[0].0, 0x1000);
    assert_eq!(state[0].1, path);
    assert_eq!(a.file_of(0x1000), Some(path.clone()));
    assert_eq!(a.file_of(0x1000 + 1023), Some(path));
    assert_eq!(a.file_of(0x1000 + 1024), None);
    assert_eq!(a.file_of(0xfff), None);
}

#[test]
fn paths_are_distinct_across_allocations() {
    let mut a = fresh();
    let p1 = alloc_at(&mut a, 0x1000, 64);
    let p2 = alloc_at(&mut a, 0x2000, 64);
    assert_ne!(p1, p2);
    assert_eq!(p2, "/tmp/stupidalloc/alloc_0000000001.mem");
}

#[test]
fn deallocate_unregisters() {
    let mut a = fresh();
    let path = alloc_at(&mut a, 0x1000, 1024);
    let handle = match a.begin_deallocate(0x1000) {
        CoreStep::Proceed { handle } => handle,
        _ => panic!("expected Proceed"),
    };
    assert_eq!(handle.path, path);
    assert_eq!(handle.size, 1024);
    a.finish_deallocate();
    assert!(a.state().is_empty());
    assert_eq!(a.file_of(0x1000), None);
}

#[test]
fn grow_then_shrink_keeps_backing_path() {
    let mut a = fresh();
    let path = alloc_at(&mut a, 0x1000, 1024);

    // Grow to 2048 bytes; the platform may move the mapping.
    let handle = match a.begin_resize(0x1000) {
        CoreStep::Proceed { handle } => handle,
        _ => panic!("expected Proceed"),
    };
    assert_eq!(handle.size, 1024);
    assert_eq!(handle.path, path);
    assert!(a.finish_resize(handle, 2048, 0x8000));
    let state = a.state();
    assert_eq!(state.len(), 1);
    assert_eq!(state[0].0, 0x8000);
    assert_eq!(state[0].1, path);

    // Shrink to 512 bytes.
    let handle = match a.begin_resize(0x8000) {
        CoreStep::Proceed { handle } => handle,
        _ => panic!("expected Proceed"),
    };
    assert_eq!(handle.size, 2048);
    assert_eq!(handle.path, path);
    assert!(a.finish_resize(handle, 512, 0x8000));
    assert_eq!(a.file_of(0x8000 + 511), Some(path));
    assert_eq!(a.file_of(0x8000 + 512), None);

    // Free it again.
    match a.begin_deallocate(0x8000) {
        CoreStep::Proceed { handle: _ } => {}
        _ => panic!("expected Proceed"),
    }
    a.finish_deallocate();
    assert!(a.state().is_empty());
}

#[test]
fn reentrant_requests_fall_back() {
    let mut a = fresh();
    assert!(a.begin_allocate());
    // A nested allocation during an allocation is sent to the fallback.
    assert!(!a.begin_allocate());
    assert!(!a.begin_allocate());
    match a.begin_resize(0x1000) {
        CoreStep::Fallback => {}
        _ => panic!("expected Fallback"),
    }
    match a.begin_deallocate(0x1000) {
        CoreStep::Fallback => {}
        _ => panic!("expected Fallback"),
    }
    // Ending the outer allocation re-enables the file-backed path.
    let declined = a.proceed_allocate(false, None);
    assert_eq!(declined, None);
    assert!(a.begin_allocate());
    let _ = a.proceed_allocate(false, None);
}

#[test]
fn deallocation_in_progress_blocks_allocation() {
    let mut a = fresh();
    alloc_at(&mut a, 0x1000, 16);
    match a.begin_deallocate(0x1000) {
        CoreStep::Proceed { handle: _ } => {}
        _ => panic!("expected Proceed"),
    }
    // While the backing file is being deleted, allocations fall back.
    assert!(!a.begin_allocate());
    a.finish_deallocate();
    assert!(a.begin_allocate());
    let _ = a.proceed_allocate(false, None);
}

#[test]
fn opt_out_disables_file_backed_allocation() {
    let mut a = fresh();
    a.enable_in_thread(false);
    assert!(!a.begin_allocate());
    a.enable_in_thread(true);
    assert!(a.begin_allocate());
    let _ = a.proceed_allocate(false, None);
}

#[test]
fn declined_confirmation_fails_like_exhaustion() {
    let mut a = fresh();
    assert!(a.begin_allocate());
    let provided = a.get_alloc_file_path();
    assert!(provided.is_some());
    assert_eq!(a.proceed_allocate(false, provided), None);
    assert!(a.state().is_empty());
}

#[test]
fn exhausted_path_provider_fails_like_exhaustion() {
    let mut a = fresh();
    a.paths.counter = u64::MAX;
    assert!(a.begin_allocate());
    let provided = a.get_alloc_file_path();
    assert_eq!(provided, None);
    assert_eq!(a.proceed_allocate(true, provided), None);
    assert!(a.state().is_empty());
}

#[test]
fn distinct_allocations_make_distinct_entries() {
    let mut a = fresh();
    let count: usize = 10;
    for i in 0..count {
        alloc_at(&mut a, 0x1000 * (i + 1), 64);
    }
    let state = a.state();
    assert_eq!(state.len(), count);
    for i in 0..count {
        assert_eq!(state[i].0, 0x1000 * (i + 1));
    }
}

#[test]
fn state_is_idempotent() {
    let mut a = fresh();
    alloc_at(&mut a, 0x5000, 32);
    alloc_at(&mut a, 0x1000, 64);
    alloc_at(&mut a, 0x3000, 16);
    let s1 = a.state();
    let s2 = a.state();
    assert_eq!(s1, s2);
    assert_eq!(s1[0].0, 0x1000);
    assert_eq!(s1[1].0, 0x3000);
    assert_eq!(s1[2].0, 0x5000);
}

#[test]
fn overlapping_registration_is_rejected() {
    let mut a = fresh();
    alloc_at(&mut a, 0x1000, 1024);
    let layout = Layout::from_size_align(16, 8).expect("valid layout");
    assert!(a.begin_allocate());
    let provided = a.get_alloc_file_path();
    let path = a.proceed_allocate(true, provided).expect("declined");
    // 0x1400 lies inside the live range [0x1000, 0x1400).
    assert!(!a.finish_allocate(&layout, path, 0x13ff));
    assert_eq!(a.state().len(), 1);
}

#[test]
fn duplicate_base_is_rejected() {
    let mut a = fresh();
    alloc_at(&mut a, 0x1000, 16);
    let layout = Layout::from_size_align(16, 8).expect("valid layout");
    assert!(a.begin_allocate());
    let provided = a.get_alloc_file_path();
    let path = a.proceed_allocate(true, provided).expect("declined");
    assert!(!a.finish_allocate(&layout, path, 0x1000));
    assert_eq!(a.state().len(), 1);
}

#[test]
fn zero_sized_allocation_is_registered_but_owns_no_address() {
    let mut a = fresh();
    alloc_at(&mut a, 0x3000, 0);
    let state = a.state();
    assert_eq!(state.len(), 1);
    assert_eq!(state[0].0, 0x3000);
    assert_eq!(a.file_of(0x3000), None);
}

#[test]
fn resize_of_unknown_pointer_is_a_contract_violation() {
    let mut a = fresh();
    match a.begin_resize(0x9999) {
        CoreStep::NotRegistered => {}
        _ => panic!("expected NotRegistered"),
    }
    match a.begin_deallocate(0x9999) {
        CoreStep::NotRegistered => {}
        _ => panic!("expected NotRegistered"),
    }
}

#[test]
fn window_lifecycle() {
    let mut a = fresh();
    let path = alloc_at(&mut a, 0x1000, 64);

    // No window yet: opening attaches one.
    let opened = a.open_window_of(0x1010, 8, false);
    assert_eq!(opened, Some((0x1000, path.clone())));
    // A live window is left alone.
    assert_eq!(a.open_window_of(0x1010, 4, false), None);
    // A finished window is replaced.
    assert_eq!(a.open_window_of(0x1010, 4, true), Some((0x1000, path)));

    // Column changes go to the attached window.
    assert_eq!(
        a.set_columns_of(0x1010, 2),
        Some((0x1000, Message::Resize { columns: 2 }))
    );

    // Closing detaches it; afterwards there is nothing to message.
    assert_eq!(a.close_graphics_of(0x1010), Some(0x1000));
    assert_eq!(a.set_columns_of(0x1010, 2), None);
    assert_eq!(a.close_graphics_of(0x1010), None);

    // Pointers outside any allocation have no window to act on.
    assert_eq!(a.open_window_of(0x9999, 8, false), None);
    assert_eq!(a.set_columns_of(0x9999, 8), None);
    assert_eq!(a.close_graphics_of(0x9999), None);
}

#[test]
fn state_string_lists_every_allocation() {
    let mut a = fresh();
    assert_eq!(a.state_string(), "Stupid allocation state:\n");
    alloc_at(&mut a, 0x2000, 16);
    alloc_at(&mut a, 0x1000, 16);
    assert_eq!(
        a.state_string(),
        "Stupid allocation state:\n\
         - 0x00001000 @ /tmp/stupidalloc/alloc_0000000001.mem\n\
         - 0x00002000 @ /tmp/stupidalloc/alloc_0000000000.mem\n"
    );
}

#[test]
fn layout_validity() {
    assert!(Layout::from_size_align(16, 8).is_some());
    assert!(Layout::from_size_align(0, 1).is_some());
    assert!(Layout::from_size_align(16, 0).is_none());
    assert!(Layout::from_size_align(16, 3).is_none());
    assert!(Layout::from_size_align(usize::MAX, 1).is_none());
    let l = Layout::from_size_align(1024, 8).expect("valid layout");
    assert_eq!(l.size, 1024);
    assert_eq!(l.align, 8);
}
