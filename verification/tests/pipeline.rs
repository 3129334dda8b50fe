use std::borrow::Cow;
use std::collections::HashMap;

use gpwgpu::shaderpreprocessor::{parse_shader, ShaderProcessor};
use wgpu_isp::descriptor::Buffers;
use wgpu_isp::operations::{
    create_to_texture, record_pass, AutoWhiteBalance, BlackLevel, Command, Debayer, Encoder,
    PreserveRaw, RGBSpaceOperations,
};
use wgpu_isp::plan::{BufferSolver, UnboundBufferError};
use wgpu_isp::solver::Declaration;
use wgpu_isp::pass::{Binding, Resource, ShaderBuildError, StateError};
use wgpu_isp::pipeline::{AllOperations, Operation, Stage};
use wgpu_isp::push::{
    AutoWhiteBalancePush, BlackLevelPush, ColorCorrectionPush, DebayerPush, GammaPush, ISPParams,
};
use wgpu_isp::setup::{Params, State};
use wgpu_isp::shader::{Constant, Definition, EntryPoint, Extent, Specialisation};

const BODY: &str = "const H = #HEIGHT; const W = #WIDTH; @compute @workgroup_size(#WG_X, #WG_Y, #WG_Z) fn main() {}";

const PADDED: &str = "const H = #HEIGHT; const W = #WIDTH; const P = #PADDING; @compute @workgroup_size(#WG_X, #WG_Y, #WG_Z) fn main() {}";

const BROKEN: &str = "const H = #HEIGHT; const N = #NOT_DEFINED;";

const IMPORTING: &str = "const H = #HEIGHT; #import helper";

const EXPORTING: &str = "#export helper { fn helper() {} } const H = #HEIGHT; const W = #WIDTH;";

const SELF_IMPORTING: &str = "#export round { #import round } const H = #HEIGHT;";

const BRANCHING: &str = "#export choice { #if HEIGHT > 1 { a } } const H = #HEIGHT;";

fn processor(sources: &[(&'static str, &'static str)]) -> ShaderProcessor<'static> {
    let mut parsed = HashMap::new();
    for (name, source) in sources {
        let shader = match parse_shader(source) {
            Ok(shader) => shader,
            Err(_) => panic!("the shader {} does not parse", name),
        };
        parsed.insert(Cow::Borrowed(*name), shader);
    }
    match ShaderProcessor::from_parsed_shader_hashmap(parsed) {
        Ok(processor) => processor,
        Err(_) => panic!("the shaders export a name twice"),
    }
}

fn all_sources() -> Vec<(&'static str, &'static str)> {
    vec![
        ("black_level", PADDED),
        ("bayer_to_vec4", BODY),
        ("auto_white_balance", BODY),
        ("debayer", PADDED),
        ("rgb_space", BODY),
        ("to_texture", BODY),
    ]
}

fn without(name: &str) -> Vec<(&'static str, &'static str)> {
    all_sources().into_iter().filter(|(held, _)| *held != name).collect()
}

fn params(width: i32, height: i32, sources: &[(&'static str, &'static str)]) -> Params {
    Params { width, height, shader_processor: processor(sources) }
}

fn bits(value: f32) -> u32 {
    value.to_bits()
}

fn identity() -> [u32; 16] {
    let mut matrix = [bits(0.0); 16];
    matrix[0] = bits(1.0);
    matrix[5] = bits(1.0);
    matrix[10] = bits(1.0);
    matrix[15] = bits(1.0);
    matrix
}

fn neutral_arguments() -> ISPParams {
    ISPParams {
        debayer_push: DebayerPush { enabled: 1 },
        black_level_push: BlackLevelPush {
            r_offset: bits(0.0),
            gr_offset: bits(0.0),
            gb_offset: bits(0.0),
            b_offset: bits(0.0),
            alpha: bits(0.0),
            beta: bits(0.0),
        },
        auto_white_balance_push: AutoWhiteBalancePush { gain: bits(1.0) },
        gamma_push: GammaPush { gain: bits(1.0), gamma: bits(1.0) },
        color_correction_push: ColorCorrectionPush { color_correction_matrix: identity() },
    }
}

fn buffer(binding: u32, slot: usize) -> Binding {
    Binding { binding, resource: Resource::Buffer(slot) }
}

#[test]
fn pipeline_plans_one_buffer_for_each_name() {
    let state = State::new(params(64, 64, &all_sources())).unwrap();
    let plan = &state.sequential().buffers;
    assert_eq!(plan.len(), 6);
    assert_eq!(plan.lookup_any(Buffers::Raw), Some(0));
    assert_eq!(plan.lookup_any(Buffers::BlackLevel), Some(1));
    assert_eq!(plan.lookup_any(Buffers::TempMean), Some(2));
    assert_eq!(plan.lookup_any(Buffers::Mean), Some(3));
    assert_eq!(plan.lookup_any(Buffers::AutoWhiteBalance), Some(4));
    assert_eq!(plan.lookup_any(Buffers::RGB), Some(5));
    assert_eq!(plan.buffer(0).unwrap().size, 64 * 64 * 4);
    assert_eq!(plan.buffer(3).unwrap().size, 16);
    assert_eq!(plan.buffer(5).unwrap().size, 64 * 64 * 16);
    assert_eq!(plan.total_bytes(), 4 * 16384 + 16 + 65536);
    // The raw buffer is declared by the first and by the last stage.
    let raw = plan.entry(Buffers::Raw).unwrap();
    assert_eq!((raw.first, raw.last), (0, 4));
    assert_eq!(plan.lookup(4, Buffers::Raw), Ok(0));
    assert!(plan.lookup(3, Buffers::Raw).is_err());
}

#[test]
fn stages_are_constructed_in_their_order() {
    let state = State::new(params(64, 64, &all_sources())).unwrap();
    let stages = &state.sequential().operations;
    assert_eq!(stages.len(), 5);
    match &stages[0] {
        Stage::BlackLevel(stage) => {
            assert_eq!(stage.pass.spec.entry_point, EntryPoint::BlackLevel);
            assert_eq!(stage.pass.spec.workgroup_size, Extent { x: 8, y: 32, z: 1 });
            assert_eq!(stage.pass.spec.dispatch_size, Extent { x: 64, y: 64, z: 1 });
            assert_eq!(stage.pass.spec.padding, Some(1));
            assert_eq!(stage.pass.spec.push_constants, None);
            assert_eq!(stage.pass.workgroups, Extent { x: 8, y: 2, z: 1 });
            assert_eq!(stage.pass.bindings, vec![buffer(0, 0), buffer(1, 1)]);
        }
        _ => panic!("the first stage is the black-level correction"),
    }
    match &stages[1] {
        Stage::AutoWhiteBalance(stage) => {
            assert_eq!(stage.align.spec.entry_point, EntryPoint::BayerToVec4);
            assert_eq!(stage.align.spec.dispatch_size, Extent { x: 32, y: 32, z: 1 });
            assert_eq!(stage.align.workgroups, Extent { x: 4, y: 1, z: 1 });
            assert_eq!(stage.align.bindings, vec![buffer(0, 1), buffer(1, 2)]);
            assert_eq!(stage.mean.input, 2);
            assert_eq!(stage.mean.output, 3);
            assert_eq!(stage.mean.unroll, 8);
            assert_eq!(stage.mean.workgroup_size, Extent { x: 256, y: 1, z: 1 });
            assert_eq!(stage.mean.last_size, 24);
            assert_eq!(stage.reduction_length, 64 * 64 / 4);
            assert_eq!(stage.gain_application.spec.entry_point, EntryPoint::AutoWhiteBalance);
            assert_eq!(stage.gain_application.workgroups, Extent { x: 8, y: 2, z: 1 });
            assert_eq!(
                stage.gain_application.bindings,
                vec![buffer(0, 1), buffer(1, 4), buffer(2, 3)]
            );
        }
        _ => panic!("the second stage is the white balance"),
    }
    match &stages[2] {
        Stage::Debayer(stage) => {
            assert_eq!(stage.pass.spec.entry_point, EntryPoint::Debayer);
            assert_eq!(stage.pass.spec.padding, Some(2));
            assert_eq!(stage.pass.bindings, vec![buffer(0, 4), buffer(1, 5)]);
        }
        _ => panic!("the third stage is the demosaicing"),
    }
    match &stages[3] {
        Stage::RGBSpaceOperations(stage) => {
            assert_eq!(stage.pass.spec.entry_point, EntryPoint::RgbSpace);
            assert_eq!(stage.pass.spec.push_constants, Some(100));
            assert_eq!(stage.pass.bindings, vec![buffer(0, 5)]);
        }
        _ => panic!("the fourth stage is the colour correction"),
    }
    assert!(matches!(stages[4], Stage::PreserveRaw(_)));
    let to_texture = state.to_texture();
    assert_eq!(to_texture.spec.entry_point, EntryPoint::ToTexture);
    assert_eq!(to_texture.workgroups, Extent { x: 8, y: 2, z: 1 });
    assert_eq!(
        to_texture.bindings,
        vec![buffer(0, 5), Binding { binding: 1, resource: Resource::Texture }]
    );
}

#[test]
fn work_groups_are_rounded_up() {
    let state = State::new(params(33, 9, &all_sources())).unwrap();
    match &state.sequential().operations[0] {
        Stage::BlackLevel(stage) => {
            assert_eq!(stage.pass.spec.dispatch_size, Extent { x: 9, y: 33, z: 1 });
            assert_eq!(stage.pass.workgroups, Extent { x: 2, y: 2, z: 1 });
        }
        _ => panic!("the first stage is the black-level correction"),
    }
    match &state.sequential().operations[1] {
        Stage::AutoWhiteBalance(stage) => {
            assert_eq!(stage.align.spec.dispatch_size, Extent { x: 4, y: 16, z: 1 });
            assert_eq!(stage.align.workgroups, Extent { x: 1, y: 1, z: 1 });
            assert_eq!(stage.reduction_length, 74);
        }
        _ => panic!("the second stage is the white balance"),
    }
}

#[test]
fn shaders_are_expanded_with_the_constants_of_the_pass() {
    let state = State::new(params(48, 20, &all_sources())).unwrap();
    match &state.sequential().operations[0] {
        Stage::BlackLevel(stage) => {
            assert_eq!(
                stage.pass.source,
                "const H = 20; const W = 48; const P = 1; @compute @workgroup_size(8u, 32u, 1u) fn main() {}"
            );
        }
        _ => panic!("the first stage is the black-level correction"),
    }
    match &state.sequential().operations[2] {
        Stage::Debayer(stage) => {
            assert_eq!(
                stage.pass.source,
                "const H = 20; const W = 48; const P = 2; @compute @workgroup_size(8u, 32u, 1u) fn main() {}"
            );
        }
        _ => panic!("the third stage is the demosaicing"),
    }
}

#[test]
fn frame_is_recorded_stage_by_stage() {
    let state = State::new(params(64, 64, &all_sources())).unwrap();
    let arguments = neutral_arguments();
    let mut encoder = Encoder::new();
    state.execute(&mut encoder, &arguments);
    let full = Extent { x: 8, y: 2, z: 1 };
    let one = vec![0x00, 0x00, 0x80, 0x3f];
    let mut colour = Vec::new();
    for word in identity() {
        colour.extend_from_slice(&word.to_le_bytes());
    }
    colour.extend_from_slice(&one);
    colour.extend_from_slice(&one);
    assert_eq!(colour.len(), 72);
    assert_eq!(
        encoder.commands,
        vec![
            Command::Dispatch {
                entry_point: EntryPoint::BlackLevel,
                workgroups: full,
                push: vec![0; 24],
            },
            Command::Dispatch {
                entry_point: EntryPoint::BayerToVec4,
                workgroups: Extent { x: 4, y: 1, z: 1 },
                push: vec![],
            },
            Command::Reduce { input: 2, output: 3, length: 1024 },
            Command::Dispatch {
                entry_point: EntryPoint::AutoWhiteBalance,
                workgroups: full,
                push: one.clone(),
            },
            Command::Dispatch {
                entry_point: EntryPoint::Debayer,
                workgroups: full,
                push: vec![1, 0, 0, 0],
            },
            Command::Dispatch { entry_point: EntryPoint::RgbSpace, workgroups: full, push: colour },
        ]
    );
}

#[test]
fn same_arguments_give_the_same_commands() {
    let state = State::new(params(64, 64, &all_sources())).unwrap();
    let arguments = neutral_arguments();
    let mut first = Encoder::new();
    state.execute(&mut first, &arguments);
    let mut second = Encoder::new();
    state.execute(&mut second, &arguments);
    assert_eq!(first, second);
    // A second frame is appended behind the first.
    state.execute(&mut first, &arguments);
    assert_eq!(first.commands.len(), 12);
    assert_eq!(first.commands[..6], second.commands[..]);
    assert_eq!(first.commands[6..], second.commands[..]);
}

#[test]
fn reload_with_the_same_parameters_gives_the_same_pipeline() {
    let state = State::new(params(64, 64, &all_sources())).unwrap();
    let again = state.reload(params(64, 64, &all_sources())).unwrap();
    assert_eq!(state.to_texture(), again.to_texture());
    assert_eq!(state.sequential().buffers.len(), again.sequential().buffers.len());
    for slot in 0..state.sequential().buffers.len() {
        assert_eq!(
            state.sequential().buffers.buffer(slot),
            again.sequential().buffers.buffer(slot)
        );
    }
    let arguments = neutral_arguments();
    let mut before = Encoder::new();
    state.execute(&mut before, &arguments);
    let mut after = Encoder::new();
    again.execute(&mut after, &arguments);
    assert_eq!(before, after);
}

#[test]
fn failed_reload_leaves_the_pipeline_usable() {
    let state = State::new(params(64, 64, &all_sources())).unwrap();
    let failed = state.reload(params(64, 64, &without("debayer")));
    assert!(matches!(
        failed,
        Err(StateError::Shader(ShaderBuildError::Missing(EntryPoint::Debayer)))
    ));
    let mut encoder = Encoder::new();
    state.execute(&mut encoder, &neutral_arguments());
    assert_eq!(encoder.commands.len(), 6);
    assert_eq!(state.params().width, 64);
}

#[test]
fn reload_with_other_dimensions_plans_anew() {
    let state = State::new(params(64, 64, &all_sources())).unwrap();
    let larger = state.reload(params(128, 64, &all_sources())).unwrap();
    assert_eq!(larger.sequential().buffers.buffer(0).unwrap().size, 128 * 64 * 4);
    assert_eq!(state.sequential().buffers.buffer(0).unwrap().size, 64 * 64 * 4);
}

#[test]
fn missing_shader_is_reported_for_each_entry_point() {
    let cases = [
        ("black_level", EntryPoint::BlackLevel),
        ("bayer_to_vec4", EntryPoint::BayerToVec4),
        ("auto_white_balance", EntryPoint::AutoWhiteBalance),
        ("debayer", EntryPoint::Debayer),
        ("rgb_space", EntryPoint::RgbSpace),
        ("to_texture", EntryPoint::ToTexture),
    ];
    for (name, entry_point) in cases {
        match State::new(params(64, 64, &without(name))) {
            Err(StateError::Shader(ShaderBuildError::Missing(missing))) => {
                assert_eq!(missing, entry_point)
            }
            _ => panic!("the missing shader {} is not reported", name),
        }
    }
}

#[test]
fn first_missing_shader_in_stage_order_is_reported() {
    let sources: Vec<_> = all_sources()
        .into_iter()
        .filter(|(held, _)| *held != "debayer" && *held != "bayer_to_vec4")
        .collect();
    assert!(matches!(
        State::new(params(64, 64, &sources)),
        Err(StateError::Shader(ShaderBuildError::Missing(EntryPoint::BayerToVec4)))
    ));
}

#[test]
fn shader_that_cannot_be_expanded_is_reported() {
    let mut sources = without("rgb_space");
    sources.push(("rgb_space", BROKEN));
    assert!(matches!(
        State::new(params(64, 64, &sources)),
        Err(StateError::Shader(ShaderBuildError::Expansion(EntryPoint::RgbSpace, _)))
    ));
    // A shader that asks for the padding where the pass sets none.
    let mut sources = without("to_texture");
    sources.push(("to_texture", PADDED));
    assert!(matches!(
        State::new(params(64, 64, &sources)),
        Err(StateError::Shader(ShaderBuildError::Expansion(EntryPoint::ToTexture, _)))
    ));
}

#[test]
fn dimensions_that_cannot_be_worked_with_are_refused() {
    for (width, height) in [(0, 64), (64, 0), (-4, 4), (4, -4), (32768, 4096), (i32::MAX, i32::MAX)] {
        match State::new(params(width, height, &all_sources())) {
            Err(StateError::Dimensions { width: w, height: h }) => assert_eq!((w, h), (width, height)),
            _ => panic!("{} by {} is not refused", width, height),
        }
    }
    // The largest image of this width that still fits.
    assert!(Params { width: 32768, height: 4095, shader_processor: processor(&[]) }.is_valid());
    assert!(!Params { width: 32768, height: 4096, shader_processor: processor(&[]) }.is_valid());
    assert!(Params { width: 134_217_727, height: 1, shader_processor: processor(&[]) }.is_valid());
    assert_eq!(
        Params { width: 1920, height: 1080, shader_processor: processor(&[]) }.byte_size(),
        1920 * 1080 * 4
    );
}

#[test]
fn stages_can_be_registered_in_another_selection() {
    let parameters = params(16, 16, &all_sources());
    let all = AllOperations::new(&parameters, vec![Operation::PreserveRaw, Operation::BlackLevel])
        .unwrap();
    assert_eq!(all.buffers.len(), 2);
    assert_eq!(all.buffers.lookup(0, Buffers::Raw), Ok(0));
    assert_eq!(all.buffers.lookup(1, Buffers::Raw), Ok(0));
    assert_eq!(all.buffers.lookup(1, Buffers::BlackLevel), Ok(1));
    assert!(all.buffers.lookup(0, Buffers::BlackLevel).is_err());
    let mut encoder = Encoder::new();
    all.execute(&mut encoder, &neutral_arguments());
    assert_eq!(encoder.commands.len(), 1);
    let none = AllOperations::new(&parameters, vec![]).unwrap();
    assert_eq!(none.buffers.len(), 0);
    assert_eq!(none.operations.len(), 0);
}

#[test]
fn raw_input_of_another_length_is_refused() {
    let state = State::new(params(4, 2, &all_sources())).unwrap();
    for length in [0usize, 1, 15, 17, 32] {
        let err = state.write_to_input(&vec![0u8; length]).unwrap_err();
        assert_eq!(err.expected, 16);
        assert_eq!(err.found, length);
    }
}

#[test]
fn raw_input_is_read_as_sixteen_bit_samples() {
    let state = State::new(params(2, 2, &all_sources())).unwrap();
    let samples = state.write_to_input(&[0x01, 0x00, 0xff, 0x00, 0x00, 0x01, 0xff, 0xff]).unwrap();
    assert_eq!(samples, vec![1, 255, 256, 65535]);
}

#[test]
fn runner() {
    let params = params(1920, 1080, &all_sources());
    let isp_params = neutral_arguments();
    let state = State::new(params).unwrap();

    let data: Vec<u8> = (0..1920 * 1080 * 2).map(|i| (i % 251) as u8).collect();
    let samples = state.write_to_input(&data).unwrap();
    assert_eq!(samples.len(), 1920 * 1080);

    let mut first = Encoder::new();
    state.execute(&mut first, &isp_params);
    for _ in 0..1000 {
        let mut encoder = Encoder::new();
        state.execute(&mut encoder, &isp_params);
        assert_eq!(encoder, first);
    }
    assert_eq!(first.commands.len(), 6);
    assert_eq!(
        state.to_texture().workgroups,
        Extent { x: 135, y: 60, z: 1 }
    );
}

#[test]
fn stage_that_did_not_declare_its_buffer_is_refused() {
    let parameters = params(16, 16, &all_sources());
    // Only the raw buffer is declared, and by the stage at position 0.
    let declarations =
        vec![Declaration { stage: 0, descriptor: Buffers::Raw.init(&parameters) }];
    let plan = BufferSolver::resolve(&declarations).unwrap();
    match BlackLevel::create(&parameters, &plan, 0) {
        Err(StateError::UnboundBuffer(err)) => {
            assert_eq!(err, UnboundBufferError { stage: 0, name: Buffers::BlackLevel })
        }
        _ => panic!("the black-level buffer was not declared"),
    }
    match BlackLevel::create(&parameters, &plan, 1) {
        Err(StateError::UnboundBuffer(err)) => {
            assert_eq!(err, UnboundBufferError { stage: 1, name: Buffers::Raw })
        }
        _ => panic!("the stage at position 1 declared nothing"),
    }
    match AutoWhiteBalance::create(&parameters, &plan, 0) {
        Err(StateError::UnboundBuffer(err)) => {
            assert_eq!(err, UnboundBufferError { stage: 0, name: Buffers::BlackLevel })
        }
        _ => panic!("the black-level buffer was not declared"),
    }
    match Debayer::create(&parameters, &plan, 0) {
        Err(StateError::UnboundBuffer(err)) => {
            assert_eq!(err, UnboundBufferError { stage: 0, name: Buffers::AutoWhiteBalance })
        }
        _ => panic!("the white-balanced buffer was not declared"),
    }
    match RGBSpaceOperations::create(&parameters, &plan, 0) {
        Err(StateError::UnboundBuffer(err)) => {
            assert_eq!(err, UnboundBufferError { stage: 0, name: Buffers::RGB })
        }
        _ => panic!("the colour buffer was not declared"),
    }
    assert!(PreserveRaw::create(&parameters, &plan, 7).is_ok());
}

#[test]
fn texture_pass_is_bound_to_the_final_buffer_and_the_texture() {
    let parameters = params(40, 24, &all_sources());
    let pass = create_to_texture(&parameters, 3).unwrap();
    assert_eq!(pass.spec.entry_point, EntryPoint::ToTexture);
    assert_eq!(pass.spec.dispatch_size, Extent { x: 24, y: 40, z: 1 });
    assert_eq!(pass.workgroups, Extent { x: 3, y: 2, z: 1 });
    assert_eq!(
        pass.bindings,
        vec![buffer(0, 3), Binding { binding: 1, resource: Resource::Texture }]
    );
    assert_eq!(
        pass.source,
        "const H = 24; const W = 40; @compute @workgroup_size(8u, 32u, 1u) fn main() {}"
    );
    let mut encoder = Encoder::new();
    record_pass(&mut encoder, &pass, vec![]);
    assert_eq!(
        encoder.commands,
        vec![Command::Dispatch {
            entry_point: EntryPoint::ToTexture,
            workgroups: Extent { x: 3, y: 2, z: 1 },
            push: vec![],
        }]
    );
    assert!(matches!(
        create_to_texture(&params(40, 24, &without("to_texture")), 3),
        Err(StateError::Shader(ShaderBuildError::Missing(EntryPoint::ToTexture)))
    ));
}

#[test]
fn import_without_exports_fails_to_expand() {
    let mut sources = without("debayer");
    sources.push(("debayer", IMPORTING));
    assert!(matches!(
        State::new(params(64, 64, &sources)),
        Err(StateError::Shader(ShaderBuildError::Expansion(EntryPoint::Debayer, _)))
    ));
}

#[test]
fn plain_exports_are_imported() {
    let mut sources = without("debayer");
    sources.push(("debayer", IMPORTING));
    sources.retain(|(held, _)| *held != "rgb_space");
    sources.push(("rgb_space", EXPORTING));
    let state = State::new(params(64, 48, &sources)).unwrap();
    match &state.sequential().operations[2] {
        Stage::Debayer(stage) => assert_eq!(stage.pass.source, "const H = 48;  fn helper() {} "),
        _ => panic!("the third stage is the demosaicing"),
    }
}

#[test]
fn shader_set_that_exports_more_than_plain_code_is_refused() {
    // An export that imports itself would be expanded without end. No shader of
    // such a set is expanded: the first shader of the pipeline is reported.
    for exporting in [SELF_IMPORTING, BRANCHING] {
        let mut sources = without("rgb_space");
        sources.push(("rgb_space", exporting));
        assert!(matches!(
            State::new(params(64, 64, &sources)),
            Err(StateError::Shader(ShaderBuildError::Exporting(EntryPoint::BlackLevel)))
        ));
        // A shader that is missing is reported as missing all the same.
        sources.retain(|(held, _)| *held != "black_level");
        assert!(matches!(
            State::new(params(64, 64, &sources)),
            Err(StateError::Shader(ShaderBuildError::Missing(EntryPoint::BlackLevel)))
        ));
        assert!(matches!(
            create_to_texture(&params(8, 8, &[("to_texture", exporting)]), 0),
            Err(StateError::Shader(ShaderBuildError::Exporting(EntryPoint::ToTexture)))
        ));
    }
}

#[test]
fn first_shader_that_cannot_be_made_ready_is_reported() {
    // The gain shader of the white balance fails to expand and the demosaicing
    // shader is missing: the white balance comes first.
    let mut sources: Vec<_> = all_sources()
        .into_iter()
        .filter(|(held, _)| *held != "debayer" && *held != "auto_white_balance")
        .collect();
    sources.push(("auto_white_balance", BROKEN));
    assert!(matches!(
        State::new(params(64, 64, &sources)),
        Err(StateError::Shader(ShaderBuildError::Expansion(EntryPoint::AutoWhiteBalance, _)))
    ));
    // Within the white balance the packing shader comes before the gain shader.
    let sources: Vec<_> =
        sources.into_iter().filter(|(held, _)| *held != "bayer_to_vec4").collect();
    assert!(matches!(
        State::new(params(64, 64, &sources)),
        Err(StateError::Shader(ShaderBuildError::Missing(EntryPoint::BayerToVec4)))
    ));
    // The conversion to the texture comes last.
    let mut sources = without("to_texture");
    sources.retain(|(held, _)| *held != "rgb_space");
    assert!(matches!(
        State::new(params(64, 64, &sources)),
        Err(StateError::Shader(ShaderBuildError::Missing(EntryPoint::RgbSpace)))
    ));
}

#[test]
fn work_groups_cover_the_largest_grid() {
    let spec = Specialisation {
        entry_point: EntryPoint::BlackLevel,
        workgroup_size: Extent { x: 8, y: 32, z: 1 },
        dispatch_size: Extent { x: u32::MAX - 8, y: u32::MAX - 32, z: u32::MAX - 1 },
        height: 1,
        width: 1,
        padding: None,
        push_constants: None,
    };
    assert_eq!(
        spec.workgroups(),
        Extent { x: 536_870_911, y: 134_217_727, z: u32::MAX - 1 }
    );
    let small = Specialisation { dispatch_size: Extent { x: 0, y: 1, z: 33 }, ..spec };
    assert_eq!(small.workgroups(), Extent { x: 0, y: 1, z: 33 });
    assert_eq!(
        Specialisation { padding: Some(2), ..spec }.definitions(),
        vec![
            Definition { constant: Constant::Height, value: 1 },
            Definition { constant: Constant::Width, value: 1 },
            Definition { constant: Constant::Padding, value: 2 },
        ]
    );
}

#[test]
fn plane_size_is_counted_for_any_sides_that_fit() {
    let sides = |width: i32, height: i32| Params { width, height, shader_processor: processor(&[]) };
    assert_eq!(sides(0, 7).byte_size(), 0);
    assert_eq!(sides(-2, -3).byte_size(), 24);
    assert_eq!(sides(-2, 3).byte_size(), -24);
    assert_eq!(sides(23170, 23170).byte_size(), 2_147_395_600);
}

#[test]
fn copied_parameters_give_the_same_pipeline() {
    let parameters = params(48, 32, &all_sources());
    let copy = parameters.clone();
    assert_eq!((copy.width, copy.height), (48, 32));
    let state = State::new(parameters).unwrap();
    let again = state.reload(copy).unwrap();
    assert_eq!(state.to_texture(), again.to_texture());
    for (one, other) in state.sequential().operations.iter().zip(&again.sequential().operations) {
        match (one, other) {
            (Stage::BlackLevel(a), Stage::BlackLevel(b)) => assert_eq!(a.pass, b.pass),
            (Stage::AutoWhiteBalance(a), Stage::AutoWhiteBalance(b)) => {
                assert_eq!(a.align, b.align);
                assert_eq!(a.mean, b.mean);
                assert_eq!(a.reduction_length, b.reduction_length);
                assert_eq!(a.gain_application, b.gain_application);
            }
            (Stage::Debayer(a), Stage::Debayer(b)) => assert_eq!(a.pass, b.pass),
            (Stage::RGBSpaceOperations(a), Stage::RGBSpaceOperations(b)) => {
                assert_eq!(a.pass, b.pass)
            }
            (Stage::PreserveRaw(_), Stage::PreserveRaw(_)) => {}
            _ => panic!("the stages are of different kinds"),
        }
    }
}
