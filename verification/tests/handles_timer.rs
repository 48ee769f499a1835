use aniline::{
    HandleAllocator, ImportRegistry, Shader, ShaderHandle, ShaderImport, ShaderRegistry, Timer,
};

#[test]
fn allocation_is_sequential_distinct_and_gapless() {
    let mut alloc = HandleAllocator::new();
    let mut handles = Vec::new();
    for _ in 0..10 {
        handles.push(alloc.allocate());
    }
    for (i, h) in handles.iter().enumerate() {
        assert_eq!(h.0, i as u32);
    }
    for i in 0..handles.len() {
        for j in 0..handles.len() {
            if i != j {
                assert_ne!(handles[i], handles[j]);
            }
        }
    }
}

#[test]
fn handle_new_wraps_the_given_value() {
    let h = ShaderHandle::new(7);
    assert_eq!(h.0, 7);
    assert_eq!(h, ShaderHandle(7));
}

#[test]
fn registry_lookup_finds_registered_units() {
    let mut alloc = HandleAllocator::new();
    let mut sr = ShaderRegistry::new();
    let h1 = alloc.allocate();
    let h2 = alloc.allocate();
    sr.insert(h1, Shader::from_wgsl("one".to_string()));
    sr.insert(h2, Shader::from_wgsl("two".to_string()));
    assert_eq!(sr.len(), 2);
    assert!(sr.get(&h1).is_some());
    assert!(sr.get(&h2).is_some());
    assert!(sr.get(&ShaderHandle::new(99)).is_none());
}

#[test]
fn registry_insert_replaces_under_the_same_handle() {
    let mut sr = ShaderRegistry::new();
    let h = ShaderHandle::new(0);
    sr.insert(h, Shader::from_wgsl("first".to_string()));
    sr.insert(h, Shader::from_wgsl("#import X".to_string()));
    assert_eq!(sr.len(), 1);
    let unit = sr.get(&h).unwrap();
    assert_eq!(*unit.imports(), vec![ShaderImport::Custom("X".to_string())]);
}

#[test]
fn import_registry_resolves_by_reference_value() {
    let mut ir = ImportRegistry::new();
    ir.insert(ShaderImport::Custom("a".to_string()), ShaderHandle::new(1));
    ir.insert(ShaderImport::AssetPath("a".to_string()), ShaderHandle::new(2));
    assert_eq!(ir.len(), 2);
    assert_eq!(
        ir.get(&ShaderImport::Custom("a".to_string())),
        Some(ShaderHandle::new(1))
    );
    assert_eq!(
        ir.get(&ShaderImport::AssetPath("a".to_string())),
        Some(ShaderHandle::new(2))
    );
    assert_eq!(ir.get(&ShaderImport::Custom("b".to_string())), None);
    ir.insert(ShaderImport::Custom("a".to_string()), ShaderHandle::new(3));
    assert_eq!(ir.len(), 2);
    assert_eq!(
        ir.get(&ShaderImport::Custom("a".to_string())),
        Some(ShaderHandle::new(3))
    );
}

#[test]
fn timer_records_frame_durations() {
    let mut t = Timer::new(1000);
    t.start_frame(1016);
    t.start_frame(1032);
    assert_eq!(*t.current_durations(), vec![16u128, 16]);
    assert_eq!(*t.average_durations(), Vec::<u128>::new());
}

#[test]
fn timer_archives_a_batch_average_after_three_seconds() {
    let mut t = Timer::new(1000);
    t.start_frame(1010);
    t.start_frame(1025);
    t.start_frame(4200);
    assert_eq!(*t.average_durations(), vec![12u128]);
    assert_eq!(*t.current_durations(), vec![3175u128]);
}

#[test]
fn empty_batch_averages_to_zero() {
    let mut t = Timer::new(0);
    t.start_frame(5000);
    assert_eq!(*t.average_durations(), vec![0u128]);
    assert_eq!(*t.current_durations(), vec![5000u128]);
}

#[test]
fn paused_timer_rebases_on_the_next_frame() {
    let mut t = Timer::new(1000);
    t.start_frame(1010);
    t.pause();
    assert!(t.is_stopped());
    t.start_frame(9000);
    assert!(!t.is_stopped());
    assert_eq!(*t.current_durations(), vec![10u128]);
    t.start_frame(9020);
    assert_eq!(*t.current_durations(), vec![10u128, 20]);
}
