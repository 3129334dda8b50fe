use wgpu_isp::descriptor::{BufferDescriptor, Buffers, MemoryCategory, Usage};
use wgpu_isp::plan::{BufferSolver, UnboundBufferError};
use wgpu_isp::solver::{Declaration, ResolutionError};

fn storage() -> Usage {
    Usage { map_read: false, map_write: false, copy_src: false, copy_dst: false, storage: true }
}

fn copy_src() -> Usage {
    Usage { map_read: false, map_write: false, copy_src: true, copy_dst: false, storage: false }
}

fn declare(stage: usize, name: Buffers, category: MemoryCategory, usage: Usage, size: u64) -> Declaration {
    Declaration { stage, descriptor: BufferDescriptor { name, category, usage, size } }
}

#[test]
fn persistent_name_gets_one_buffer_however_often_declared() {
    let declarations = vec![
        declare(0, Buffers::Raw, MemoryCategory::Persistent, storage(), 64),
        declare(1, Buffers::Raw, MemoryCategory::Persistent, copy_src(), 64),
        declare(1, Buffers::Mean, MemoryCategory::Persistent, storage(), 16),
        declare(4, Buffers::Raw, MemoryCategory::Persistent, storage(), 64),
    ];
    let plan = BufferSolver::resolve(&declarations).unwrap();
    assert_eq!(plan.len(), 2);
    let raw = plan.lookup_any(Buffers::Raw).unwrap();
    let mean = plan.lookup_any(Buffers::Mean).unwrap();
    assert_eq!(raw, 0);
    assert_eq!(mean, 1);
    let buffer = plan.buffer(raw).unwrap();
    assert_eq!(buffer.size, 64);
    assert_eq!(buffer.category, MemoryCategory::Persistent);
    assert_eq!(
        buffer.usage,
        Usage { map_read: false, map_write: false, copy_src: true, copy_dst: false, storage: true }
    );
    assert_eq!(plan.buffer(mean).unwrap().size, 16);
    assert_eq!(plan.buffer(2), None);
    assert_eq!(plan.total_bytes(), 80);
    let entry = plan.entry(Buffers::Raw).unwrap();
    assert_eq!((entry.first, entry.last), (0, 4));
}

#[test]
fn size_mismatch_is_an_error() {
    let declarations = vec![
        declare(0, Buffers::Raw, MemoryCategory::Persistent, storage(), 64),
        declare(1, Buffers::Mean, MemoryCategory::Persistent, storage(), 16),
        declare(2, Buffers::Raw, MemoryCategory::Persistent, storage(), 65),
    ];
    let err = BufferSolver::resolve(&declarations).unwrap_err();
    assert_eq!(err, ResolutionError::Incompatible { name: Buffers::Raw, stage: 2 });
}

#[test]
fn category_mismatch_is_an_error() {
    let declarations = vec![
        declare(0, Buffers::Raw, MemoryCategory::Persistent, storage(), 64),
        declare(0, Buffers::Raw, MemoryCategory::Transient, storage(), 64),
    ];
    let err = BufferSolver::resolve(&declarations).unwrap_err();
    assert_eq!(err, ResolutionError::Incompatible { name: Buffers::Raw, stage: 0 });
}

#[test]
fn stages_out_of_order_are_refused() {
    let declarations = vec![
        declare(1, Buffers::Raw, MemoryCategory::Persistent, storage(), 64),
        declare(0, Buffers::Mean, MemoryCategory::Persistent, storage(), 16),
    ];
    let err = BufferSolver::resolve(&declarations).unwrap_err();
    assert_eq!(err, ResolutionError::OutOfOrder { position: 1 });
}

#[test]
fn total_that_cannot_be_counted_is_an_error() {
    let declarations = vec![
        declare(0, Buffers::Raw, MemoryCategory::Persistent, storage(), u64::MAX),
        declare(0, Buffers::Mean, MemoryCategory::Persistent, storage(), 1),
    ];
    let err = BufferSolver::resolve(&declarations).unwrap_err();
    assert_eq!(err, ResolutionError::Overflow);
}

#[test]
fn transient_names_that_never_overlap_share_a_buffer() {
    let declarations = vec![
        declare(0, Buffers::TempMean, MemoryCategory::Transient, storage(), 100),
        declare(1, Buffers::Mean, MemoryCategory::Transient, copy_src(), 300),
    ];
    let plan = BufferSolver::resolve(&declarations).unwrap();
    assert_eq!(plan.len(), 1);
    assert_eq!(plan.lookup_any(Buffers::TempMean), Some(0));
    assert_eq!(plan.lookup_any(Buffers::Mean), Some(0));
    let buffer = plan.buffer(0).unwrap();
    assert_eq!(buffer.size, 300);
    assert_eq!(buffer.category, MemoryCategory::Transient);
    assert_eq!(
        buffer.usage,
        Usage { map_read: false, map_write: false, copy_src: true, copy_dst: false, storage: true }
    );
    assert_eq!(plan.total_bytes(), 300);
}

#[test]
fn transient_names_that_overlap_do_not_share() {
    let declarations = vec![
        declare(0, Buffers::TempMean, MemoryCategory::Transient, storage(), 100),
        declare(1, Buffers::Mean, MemoryCategory::Transient, storage(), 300),
        declare(1, Buffers::TempMean, MemoryCategory::Transient, storage(), 100),
    ];
    let plan = BufferSolver::resolve(&declarations).unwrap();
    assert_eq!(plan.len(), 2);
    assert_eq!(plan.lookup_any(Buffers::TempMean), Some(0));
    assert_eq!(plan.lookup_any(Buffers::Mean), Some(1));
    assert_eq!(plan.total_bytes(), 400);
}

#[test]
fn transient_name_ending_at_a_stage_blocks_one_starting_there() {
    let declarations = vec![
        declare(0, Buffers::TempMean, MemoryCategory::Transient, storage(), 8),
        declare(0, Buffers::Mean, MemoryCategory::Transient, storage(), 8),
    ];
    let plan = BufferSolver::resolve(&declarations).unwrap();
    assert_eq!(plan.len(), 2);
}

#[test]
fn first_free_transient_buffer_is_taken() {
    // Two scratch buffers are alive at stage 0; at stage 1 only the second is
    // still alive, so the new name takes the first.
    let declarations = vec![
        declare(0, Buffers::TempMean, MemoryCategory::Transient, storage(), 10),
        declare(0, Buffers::Mean, MemoryCategory::Transient, storage(), 1),
        declare(1, Buffers::Mean, MemoryCategory::Transient, storage(), 1),
        declare(1, Buffers::BlackLevel, MemoryCategory::Transient, storage(), 1),
        declare(2, Buffers::RGB, MemoryCategory::Transient, storage(), 10),
    ];
    let plan = BufferSolver::resolve(&declarations).unwrap();
    assert_eq!(plan.len(), 2);
    assert_eq!(plan.lookup_any(Buffers::TempMean), Some(0));
    assert_eq!(plan.lookup_any(Buffers::Mean), Some(1));
    assert_eq!(plan.lookup_any(Buffers::BlackLevel), Some(0));
    assert_eq!(plan.lookup_any(Buffers::RGB), Some(0));
    assert_eq!(plan.buffer(0).unwrap().size, 10);
    assert_eq!(plan.buffer(1).unwrap().size, 1);
}

#[test]
fn persistent_and_transient_never_share() {
    let declarations = vec![
        declare(0, Buffers::Raw, MemoryCategory::Persistent, storage(), 10),
        declare(1, Buffers::TempMean, MemoryCategory::Transient, storage(), 10),
        declare(2, Buffers::Mean, MemoryCategory::Persistent, storage(), 10),
        declare(3, Buffers::BlackLevel, MemoryCategory::Transient, storage(), 10),
    ];
    let plan = BufferSolver::resolve(&declarations).unwrap();
    assert_eq!(plan.len(), 3);
    assert_eq!(plan.lookup_any(Buffers::Raw), Some(0));
    assert_eq!(plan.lookup_any(Buffers::TempMean), Some(1));
    assert_eq!(plan.lookup_any(Buffers::Mean), Some(2));
    assert_eq!(plan.lookup_any(Buffers::BlackLevel), Some(1));
}

#[test]
fn stage_reaches_only_what_it_declared() {
    let declarations = vec![
        declare(0, Buffers::Raw, MemoryCategory::Persistent, storage(), 10),
        declare(1, Buffers::Mean, MemoryCategory::Persistent, storage(), 10),
    ];
    let plan = BufferSolver::resolve(&declarations).unwrap();
    assert_eq!(plan.lookup(0, Buffers::Raw), Ok(0));
    assert_eq!(plan.lookup(1, Buffers::Mean), Ok(1));
    assert_eq!(
        plan.lookup(1, Buffers::Raw),
        Err(UnboundBufferError { stage: 1, name: Buffers::Raw })
    );
    assert_eq!(
        plan.lookup(0, Buffers::RGB),
        Err(UnboundBufferError { stage: 0, name: Buffers::RGB })
    );
    assert_eq!(plan.lookup_any(Buffers::RGB), None);
    assert!(plan.declares(0, Buffers::Raw));
    assert!(!plan.declares(2, Buffers::Raw));
}

#[test]
fn empty_declarations_give_an_empty_plan() {
    let plan = BufferSolver::resolve(&Vec::new()).unwrap();
    assert_eq!(plan.len(), 0);
    assert_eq!(plan.total_bytes(), 0);
    assert_eq!(plan.entry(Buffers::Raw), None);
}

#[test]
fn sharing_can_need_more_than_the_live_names_of_any_one_stage() {
    // Two names of 10 and 1 bytes at stage 0, two of 1 and 10 bytes at stage 1:
    // never more than 11 bytes are alive, but each buffer grows to 10 bytes.
    let declarations = vec![
        declare(0, Buffers::TempMean, MemoryCategory::Transient, storage(), 10),
        declare(0, Buffers::Mean, MemoryCategory::Transient, storage(), 1),
        declare(1, Buffers::BlackLevel, MemoryCategory::Transient, storage(), 1),
        declare(1, Buffers::RGB, MemoryCategory::Transient, storage(), 10),
    ];
    let plan = BufferSolver::resolve(&declarations).unwrap();
    assert_eq!(plan.len(), 2);
    assert_eq!(plan.lookup_any(Buffers::BlackLevel), Some(0));
    assert_eq!(plan.lookup_any(Buffers::RGB), Some(1));
    assert_eq!(plan.total_bytes(), 20);
}

#[test]
fn names_of_one_size_need_no_more_than_the_busiest_stage() {
    let declarations = vec![
        declare(0, Buffers::TempMean, MemoryCategory::Transient, storage(), 8),
        declare(1, Buffers::TempMean, MemoryCategory::Transient, storage(), 8),
        declare(1, Buffers::Mean, MemoryCategory::Transient, storage(), 8),
        declare(2, Buffers::Mean, MemoryCategory::Transient, storage(), 8),
        declare(2, Buffers::BlackLevel, MemoryCategory::Transient, storage(), 8),
        declare(3, Buffers::BlackLevel, MemoryCategory::Transient, storage(), 8),
        declare(4, Buffers::RGB, MemoryCategory::Transient, storage(), 8),
    ];
    let plan = BufferSolver::resolve(&declarations).unwrap();
    // Two names are alive at stages 1 and 2, and two buffers are all it takes.
    assert_eq!(plan.len(), 2);
    assert_eq!(plan.total_bytes(), 16);
    assert_eq!(plan.lookup_any(Buffers::TempMean), Some(0));
    assert_eq!(plan.lookup_any(Buffers::Mean), Some(1));
    assert_eq!(plan.lookup_any(Buffers::BlackLevel), Some(0));
    assert_eq!(plan.lookup_any(Buffers::RGB), Some(0));
}

#[test]
fn plan_keeps_its_declarations() {
    let declarations = vec![
        declare(0, Buffers::Raw, MemoryCategory::Persistent, storage(), 10),
        declare(2, Buffers::Raw, MemoryCategory::Persistent, copy_src(), 10),
    ];
    let plan = BufferSolver::resolve(&declarations).unwrap();
    assert_eq!(plan.declarations(), &declarations);
    let entry = plan.entry(Buffers::Raw).unwrap();
    assert_eq!(entry.name, Buffers::Raw);
    assert_eq!(entry.category, MemoryCategory::Persistent);
    assert_eq!(entry.size, 10);
    assert_eq!(entry.slot, 0);
    assert!(entry.usage.storage && entry.usage.copy_src);
}
