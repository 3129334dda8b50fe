use std::collections::HashMap;

use gpwgpu::shaderpreprocessor::ShaderProcessor;
use gpwgpu::wgpu::BufferUsages;
use wgpu_isp::descriptor::{
    BufferDescriptor, Buffers, MemoryCategory, Usage, UsageFlag,
};
use wgpu_isp::operations::{
    AutoWhiteBalance, BlackLevel, Debayer, PreserveRaw, RGBSpaceOperations,
};
use wgpu_isp::pipeline::Operation;
use wgpu_isp::setup::Params;

fn params(width: i32, height: i32) -> Params {
    let shader_processor = match ShaderProcessor::from_parsed_shader_hashmap(HashMap::new()) {
        Ok(processor) => processor,
        Err(_) => panic!("an empty set of shaders is refused"),
    };
    Params { width, height, shader_processor }
}

fn working() -> Usage {
    Usage { map_read: false, map_write: false, copy_src: true, copy_dst: true, storage: true }
}

#[test]
fn usage_bits_are_those_of_the_gpu_interface() {
    assert_eq!(Usage::empty().bits(), BufferUsages::empty().bits());
    assert_eq!(
        working().bits(),
        (BufferUsages::STORAGE | BufferUsages::COPY_DST | BufferUsages::COPY_SRC).bits()
    );
    let input = Buffers::Raw.init(&params(4, 4)).usage;
    assert_eq!(
        input.bits(),
        (BufferUsages::MAP_WRITE
            | BufferUsages::STORAGE
            | BufferUsages::COPY_DST
            | BufferUsages::COPY_SRC)
            .bits()
    );
    let output = Buffers::RGB.init(&params(4, 4)).usage;
    assert_eq!(
        output.bits(),
        (BufferUsages::MAP_READ | BufferUsages::STORAGE | BufferUsages::COPY_SRC).bits()
    );
    assert_eq!(output.bits(), 1 + 4 + 128);
}

#[test]
fn usages_are_joined_not_overwritten() {
    let read = Usage { map_read: true, map_write: false, copy_src: false, copy_dst: false, storage: false };
    let both = read.union(working());
    assert!(both.contains(UsageFlag::MapRead));
    assert!(both.contains(UsageFlag::Storage));
    assert!(both.contains(UsageFlag::CopySrc));
    assert!(both.contains(UsageFlag::CopyDst));
    assert!(!both.contains(UsageFlag::MapWrite));
    assert_eq!(both.union(Usage::empty()), both);
    assert_eq!(working().union(read), both);
}

#[test]
fn buffers_are_declared_for_the_dimensions() {
    let image = params(1920, 1080);
    let plane = 1920 * 1080 * 4;
    assert_eq!(
        Buffers::TempMean.init(&image),
        BufferDescriptor {
            name: Buffers::TempMean,
            category: MemoryCategory::Transient,
            usage: working(),
            size: plane,
        }
    );
    assert_eq!(
        Buffers::Mean.init(&image),
        BufferDescriptor {
            name: Buffers::Mean,
            category: MemoryCategory::Persistent,
            usage: working(),
            size: 16,
        }
    );
    assert_eq!(Buffers::Raw.init(&image).size, plane);
    assert_eq!(Buffers::Raw.init(&image).category, MemoryCategory::Persistent);
    assert_eq!(Buffers::BlackLevel.init(&image).size, plane);
    assert_eq!(Buffers::BlackLevel.init(&image).usage, working());
    assert_eq!(Buffers::AutoWhiteBalance.init(&image).size, plane);
    assert_eq!(Buffers::RGB.init(&image).size, 4 * plane);
}

#[test]
fn stages_declare_their_buffers() {
    let image = params(8, 8);
    let names = |list: Vec<BufferDescriptor>| list.iter().map(|d| d.name).collect::<Vec<_>>();
    assert_eq!(names(BlackLevel::buffers(&image)), vec![Buffers::Raw, Buffers::BlackLevel]);
    assert_eq!(
        names(AutoWhiteBalance::buffers(&image)),
        vec![Buffers::BlackLevel, Buffers::TempMean, Buffers::Mean, Buffers::AutoWhiteBalance]
    );
    assert_eq!(names(Debayer::buffers(&image)), vec![Buffers::AutoWhiteBalance, Buffers::RGB]);
    assert_eq!(names(RGBSpaceOperations::buffers(&image)), vec![Buffers::RGB]);
    assert_eq!(names(PreserveRaw::buffers(&image)), vec![Buffers::Raw]);
    assert_eq!(Operation::Debayer.buffers(&image), Debayer::buffers(&image));
    assert!(BlackLevel::enabled(&image));
    assert!(AutoWhiteBalance::enabled(&image));
    assert!(Debayer::enabled(&image));
    assert!(RGBSpaceOperations::enabled(&image));
    assert!(PreserveRaw::enabled(&image));
    assert!(Operation::PreserveRaw.enabled(&image));
}
