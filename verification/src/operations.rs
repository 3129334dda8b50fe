use vstd::prelude::*;
pub use crate::descriptor::Buffers;
pub use crate::pass::StateError;
pub use crate::push::{
    AutoWhiteBalancePush, BlackLevelPush, ColorCorrectionPush, DebayerPush, GammaPush, ISPParams,
};
use crate::descriptor::{BufferDescriptor, MemoryCategory, Usage};
use gpwgpu::shaderpreprocessor::ShaderProcessor;
use crate::pass::{
    bind, bound, build_pass, built, first_unbound, refuses, Binding, ComputePass, PassView,
    Resource, ShaderBuildError, Wanted,
};
use crate::plan::{backs, BufferPlan, PlanView, UnboundBufferError};
use crate::push::words_bytes;
use crate::setup::{lemma_valid_bounds, Params};
use crate::shader::{expands, source_of, EntryPoint, Extent, Specialisation};

verus! {

/// The size in bytes of the buffer that holds the four-component mean.
pub const MEAN_BYTES: u64 = 16;

/// Storage that can be copied from and to.
pub open spec fn working_usage() -> Usage {
    Usage { map_read: false, map_write: false, copy_src: true, copy_dst: true, storage: true }
}

/// Storage that the host can map for writing and that can be copied from and to.
pub open spec fn input_usage() -> Usage {
    Usage { map_read: false, map_write: true, copy_src: true, copy_dst: true, storage: true }
}

/// Storage that the host can map for reading and that can be copied from.
pub open spec fn output_usage() -> Usage {
    Usage { map_read: true, map_write: false, copy_src: true, copy_dst: false, storage: true }
}

impl Buffers {
    /// What the pipeline declares of the buffer for an image of the given dimensions.
    pub open spec fn spec_init(self, params: &Params) -> BufferDescriptor {
        let plane = params.spec_byte_size() as u64;
        match self {
            Buffers::Raw => BufferDescriptor {
                name: self,
                category: MemoryCategory::Persistent,
                usage: input_usage(),
                size: plane,
            },
            Buffers::TempMean => BufferDescriptor {
                name: self,
                category: MemoryCategory::Transient,
                usage: working_usage(),
                size: plane,
            },
            Buffers::Mean => BufferDescriptor {
                name: self,
                category: MemoryCategory::Persistent,
                usage: working_usage(),
                size: 16,
            },
            Buffers::BlackLevel => BufferDescriptor {
                name: self,
                category: MemoryCategory::Persistent,
                usage: working_usage(),
                size: plane,
            },
            Buffers::AutoWhiteBalance => BufferDescriptor {
                name: self,
                category: MemoryCategory::Persistent,
                usage: working_usage(),
                size: plane,
            },
            Buffers::RGB => BufferDescriptor {
                name: self,
                category: MemoryCategory::Persistent,
                usage: output_usage(),
                size: (params.spec_byte_size() * 4) as u64,
            },
        }
    }

    /// What the pipeline declares of the buffer for an image of the given dimensions.
    pub fn init(self, params: &Params) -> (descriptor: BufferDescriptor)
        requires
            params.valid(),
        ensures
            descriptor == self.spec_init(params),
    {
        let name = self;
        let working = Usage {
            map_read: false,
            map_write: false,
            copy_src: true,
            copy_dst: true,
            storage: true,
        };
        proof {
            lemma_valid_bounds(params.width as int, params.height as int);
        }
        match self {
            Buffers::Raw => BufferDescriptor {
                name,
                category: MemoryCategory::Persistent,
                usage: Usage {
                    map_read: false,
                    map_write: true,
                    copy_src: true,
                    copy_dst: true,
                    storage: true,
                },
                size: params.byte_size() as u64,
            },
            Buffers::TempMean => BufferDescriptor {
                name,
                category: MemoryCategory::Transient,
                usage: working,
                size: params.byte_size() as u64,
            },
            Buffers::Mean => BufferDescriptor {
                name,
                category: MemoryCategory::Persistent,
                usage: working,
                size: MEAN_BYTES,
            },
            Buffers::BlackLevel => BufferDescriptor {
                name,
                category: MemoryCategory::Persistent,
                usage: working,
                size: params.byte_size() as u64,
            },
            Buffers::AutoWhiteBalance => BufferDescriptor {
                name,
                category: MemoryCategory::Persistent,
                usage: working,
                size: params.byte_size() as u64,
            },
            Buffers::RGB => BufferDescriptor {
                name,
                category: MemoryCategory::Persistent,
                usage: Usage {
                    map_read: true,
                    map_write: false,
                    copy_src: true,
                    copy_dst: false,
                    storage: true,
                },
                size: (params.byte_size() * 4) as u64,
            },
        }
    }
}

/// One step that the host carries out on the GPU.
#[derive(Clone, Debug, PartialEq, Eq)]
pub enum Command {
    /// Run the pass of `entry_point` over `workgroups` work groups with the per-frame
    /// arguments `push`.
    Dispatch { entry_point: EntryPoint, workgroups: Extent, push: Vec<u8> },
    /// Reduce the first `length` four-component elements of physical buffer `input`
    /// to their mean, in physical buffer `output`.
    Reduce { input: usize, output: usize, length: u32 },
}

/// What a command is made of.
pub enum CommandView {
    Dispatch { entry_point: EntryPoint, workgroups: Extent, push: Seq<u8> },
    Reduce { input: usize, output: usize, length: u32 },
}

impl View for Command {
    type V = CommandView;

    open spec fn view(&self) -> CommandView {
        match self {
            Command::Dispatch { entry_point, workgroups, push } => CommandView::Dispatch {
                entry_point: *entry_point,
                workgroups: *workgroups,
                push: push@,
            },
            Command::Reduce { input, output, length } => CommandView::Reduce {
                input: *input,
                output: *output,
                length: *length,
            },
        }
    }
}

/// The commands of a frame, in the order in which they are to be carried out.
#[derive(Clone, Debug, PartialEq, Eq)]
pub struct Encoder {
    pub commands: Vec<Command>,
}

impl View for Encoder {
    type V = Seq<CommandView>;

    open spec fn view(&self) -> Seq<CommandView> {
        Seq::new(self.commands@.len(), |i: int| self.commands@[i]@)
    }
}

impl Encoder {
    /// A sequence without commands.
    pub fn new() -> (encoder: Encoder)
        ensures
            encoder@ == Seq::<CommandView>::empty(),
    {
        let encoder = Encoder { commands: Vec::new() };
        proof {
            assert(encoder@ =~= Seq::<CommandView>::empty());
        }
        encoder
    }

    /// Puts `command` at the end of the sequence.
    pub fn record(&mut self, command: Command)
        ensures
            final(self)@ == old(self)@.push(command@),
    {
        self.commands.push(command);
        proof {
            assert(self@ =~= old(self)@.push(command@));
        }
    }
}

/// The dispatch of `pass` with the per-frame arguments `push`.
pub open spec fn dispatch_of(pass: PassView, push: Seq<u8>) -> CommandView {
    CommandView::Dispatch { entry_point: pass.spec.entry_point, workgroups: pass.workgroups, push }
}

/// Records the dispatch of `pass` with the per-frame arguments `push`.
pub fn record_pass(encoder: &mut Encoder, pass: &ComputePass, push: Vec<u8>)
    ensures
        final(encoder)@ == old(encoder)@.push(dispatch_of(pass@, push@)),
{
    encoder.record(
        Command::Dispatch {
            entry_point: pass.spec.entry_point,
            workgroups: pass.workgroups,
            push,
        },
    );
}

/// The work-group size of every pass of the pipeline.
pub open spec fn tile() -> Extent {
    Extent { x: 8, y: 32, z: 1 }
}

/// The specialisation of a pass that runs once for each of `rows` times `columns`
/// positions of an image of the dimensions of `params`.
pub open spec fn grid_spec(
    params: &Params,
    entry_point: EntryPoint,
    rows: u32,
    columns: u32,
    padding: Option<i32>,
    push_constants: Option<u32>,
) -> Specialisation {
    Specialisation {
        entry_point,
        workgroup_size: tile(),
        dispatch_size: Extent { x: rows, y: columns, z: 1 },
        height: params.height,
        width: params.width,
        padding,
        push_constants,
    }
}

/// The specialisation of a pass that runs once for each of `rows` times `columns`
/// positions of an image of the dimensions of `params`.
pub fn make_grid_spec(
    params: &Params,
    entry_point: EntryPoint,
    rows: u32,
    columns: u32,
    padding: Option<i32>,
    push_constants: Option<u32>,
) -> (spec: Specialisation)
    requires
        rows <= i32::MAX,
        columns <= i32::MAX,
    ensures
        spec == grid_spec(params, entry_point, rows, columns, padding, push_constants),
        spec.valid(),
{
    Specialisation {
        entry_point,
        workgroup_size: Extent { x: 8, y: 32, z: 1 },
        dispatch_size: Extent { x: rows, y: columns, z: 1 },
        height: params.height,
        width: params.width,
        padding,
        push_constants,
    }
}

/// The shaders of all of `specs` expand.
pub open spec fn all_expand(shaders: ShaderProcessor<'static>, specs: Seq<Specialisation>) -> bool {
    forall|i: int| 0 <= i < specs.len() ==> expands(shaders, #[trigger] specs[i])
}

/// `i` is the first position of `specs` whose shader does not expand.
pub open spec fn first_failing(
    shaders: ShaderProcessor<'static>,
    specs: Seq<Specialisation>,
    i: int,
) -> bool {
    &&& 0 <= i < specs.len()
    &&& !expands(shaders, specs[i])
    &&& forall|j: int| 0 <= j < i ==> expands(shaders, #[trigger] specs[j])
}

/// `err` is why the first shader of `specs` that cannot be made ready cannot.
pub open spec fn refused(
    shaders: ShaderProcessor<'static>,
    specs: Seq<Specialisation>,
    err: ShaderBuildError,
) -> bool {
    exists|i: int| #[trigger] first_failing(shaders, specs, i) && refuses(shaders, specs[i], err)
}

/// `stage` declares every buffer of `wanted`.
pub open spec fn all_declared(plan: PlanView, stage: usize, wanted: Seq<Wanted>) -> bool {
    forall|i: int| !first_unbound(plan, stage, wanted, i)
}

/// The construction of passes with the shaders `specs`, bound to the buffers
/// `wanted`, succeeds: the stage declares every buffer, and every shader expands.
pub open spec fn succeeds(
    params: &Params,
    plan: PlanView,
    stage: usize,
    wanted: Seq<Wanted>,
    specs: Seq<Specialisation>,
) -> bool {
    all_declared(plan, stage, wanted) && all_expand(params.shader_processor, specs)
}

/// `err` is why the construction of passes with the shaders `specs`, bound to the
/// buffers `wanted`, fails: the first wanted buffer that the stage does not
/// declare; else the first shader that cannot be made ready.
pub open spec fn failure(
    params: &Params,
    plan: PlanView,
    stage: usize,
    wanted: Seq<Wanted>,
    specs: Seq<Specialisation>,
    err: StateError,
) -> bool {
    match err {
        StateError::UnboundBuffer(unbound) => exists|i: int|
            #![trigger wanted[i]]
            first_unbound(plan, stage, wanted, i) && unbound == (UnboundBufferError {
                stage,
                name: wanted[i].name,
            }),
        StateError::Shader(shader) => all_declared(plan, stage, wanted) && refused(
            params.shader_processor,
            specs,
            shader,
        ),
        _ => false,
    }
}

/// `pass` is the pass of `spec`: it has the expanded source of its shader, covers
/// the invocations with whole work groups, and is bound, for `stage`, to the
/// buffers `wanted`.
pub open spec fn pass_made(
    pass: PassView,
    shaders: ShaderProcessor<'static>,
    spec: Specialisation,
    plan: PlanView,
    stage: usize,
    wanted: Seq<Wanted>,
) -> bool {
    &&& pass.spec == spec
    &&& pass.workgroups == spec.spec_workgroups()
    &&& bound(plan, stage, wanted, pass.bindings, wanted.len() as int)
    &&& source_of(shaders, spec) == Some(pass.source)
}

/// What the construction of one pass gives: the pass, exactly where the stage
/// declares every wanted buffer and the shader expands; else the reason.
pub open spec fn constructed(
    params: &Params,
    plan: PlanView,
    stage: usize,
    spec: Specialisation,
    wanted: Seq<Wanted>,
    r: Result<ComputePass, StateError>,
) -> bool {
    match r {
        Ok(pass) => succeeds(params, plan, stage, wanted, seq![spec]) && pass_made(
            pass@,
            params.shader_processor,
            spec,
            plan,
            stage,
            wanted,
        ),
        Err(err) => failure(params, plan, stage, wanted, seq![spec], err),
    }
}

/// Binds a pass of `stage` to the buffers it wants and makes its shader ready.
pub fn construct_pass(
    params: &Params,
    buffers: &BufferPlan,
    stage: usize,
    spec: Specialisation,
    wanted: &Vec<Wanted>,
) -> (r: Result<ComputePass, StateError>)
    requires
        spec.valid(),
    ensures
        constructed(params, buffers@, stage, spec, wanted@, r),
{
    let bindings = match bind(buffers, stage, wanted) {
        Ok(bindings) => bindings,
        Err(err) => {
            return Err(StateError::UnboundBuffer(err));
        },
    };
    proof {
        assert forall|i: int| !first_unbound(buffers@, stage, wanted@, i) by {
            if 0 <= i < wanted.len() {
                assert(bindings@[i].binding == wanted@[i].binding);
            }
        }
    }
    match build_pass(&params.shader_processor, spec, bindings) {
        Ok(pass) => Ok(pass),
        Err(err) => {
            proof {
                assert(first_failing(params.shader_processor, seq![spec], 0));
            }
            Err(StateError::Shader(err))
        },
    }
}

/// The height of a valid image as a count of invocations.
pub fn rows(params: &Params) -> (n: u32)
    requires
        params.valid(),
    ensures
        n == params.height,
        n <= i32::MAX,
{
    params.height as u32
}

/// The width of a valid image as a count of invocations.
pub fn columns(params: &Params) -> (n: u32)
    requires
        params.valid(),
    ensures
        n == params.width,
        n <= i32::MAX,
{
    params.width as u32
}

/// Black-level correction: reads the raw samples and writes the corrected ones.
#[derive(Debug)]
pub struct BlackLevel {
    pub pass: ComputePass,
}

impl BlackLevel {
    /// The stage is part of every pipeline.
    pub fn enabled(_params: &Params) -> (on: bool)
        ensures
            on,
    {
        true
    }

    /// The buffers that the stage declares.
    pub open spec fn spec_buffers(params: &Params) -> Seq<BufferDescriptor> {
        seq![Buffers::Raw.spec_init(params), Buffers::BlackLevel.spec_init(params)]
    }

    /// The buffers that the stage declares.
    pub fn buffers(params: &Params) -> (list: Vec<BufferDescriptor>)
        requires
            params.valid(),
        ensures
            list@ == Self::spec_buffers(params),
    {
        let mut list: Vec<BufferDescriptor> = Vec::new();
        list.push(Buffers::Raw.init(params));
        list.push(Buffers::BlackLevel.init(params));
        proof {
            assert(list@ =~= Self::spec_buffers(params));
        }
        list
    }

    /// What the stage asks of its shader.
    pub open spec fn specialisation(params: &Params) -> Specialisation {
        grid_spec(
            params,
            EntryPoint::BlackLevel,
            params.height as u32,
            params.width as u32,
            Some(1),
            None,
        )
    }

    /// The buffers that the pass is bound to.
    pub open spec fn wanted() -> Seq<Wanted> {
        seq![
            Wanted { binding: 0, name: Buffers::Raw },
            Wanted { binding: 1, name: Buffers::BlackLevel },
        ]
    }

    /// The shaders of the stage, in the order in which they are made ready.
    pub open spec fn specs(params: &Params) -> Seq<Specialisation> {
        seq![Self::specialisation(params)]
    }

    /// The stage is the one that is constructed at position `stage` for `params`
    /// against `plan`.
    pub open spec fn made_for(&self, params: &Params, plan: PlanView, stage: usize) -> bool {
        pass_made(
            self.pass@,
            params.shader_processor,
            Self::specialisation(params),
            plan,
            stage,
            Self::wanted(),
        )
    }

    /// Constructs the stage, which stands at position `stage`, against the plan.
    pub fn create(params: &Params, buffers: &BufferPlan, stage: usize) -> (r: Result<
        Self,
        StateError,
    >)
        requires
            params.valid(),
        ensures
            match r {
                Ok(made) => succeeds(params, buffers@, stage, Self::wanted(), Self::specs(params))
                    && made.made_for(params, buffers@, stage),
                Err(err) => failure(
                    params,
                    buffers@,
                    stage,
                    Self::wanted(),
                    Self::specs(params),
                    err,
                ),
            },
    {
        let spec = make_grid_spec(
            params,
            EntryPoint::BlackLevel,
            rows(params),
            columns(params),
            Some(1),
            None,
        );
        let mut wanted: Vec<Wanted> = Vec::new();
        wanted.push(Wanted { binding: 0, name: Buffers::Raw });
        wanted.push(Wanted { binding: 1, name: Buffers::BlackLevel });
        proof {
            assert(wanted@ =~= Self::wanted());
        }
        match construct_pass(params, buffers, stage, spec, &wanted) {
            Ok(pass) => Ok(BlackLevel { pass }),
            Err(err) => Err(err),
        }
    }

    /// The commands of the stage for one frame.
    pub open spec fn commands(&self, args: &ISPParams) -> Seq<CommandView> {
        seq![dispatch_of(self.pass@, words_bytes(args.black_level_push.words()))]
    }

    /// Records the commands of the stage for one frame.
    pub fn execute(&self, encoder: &mut Encoder, _buffers: &BufferPlan, args: &ISPParams)
        ensures
            final(encoder)@ == old(encoder)@ + self.commands(args),
    {
        record_pass(encoder, &self.pass, args.black_level_push.bytes());
        proof {
            assert(encoder@ =~= old(encoder)@ + self.commands(args));
        }
    }
}

/// Demosaicing: reads the white-balanced samples and writes four channels for
/// each pixel.
#[derive(Debug)]
pub struct Debayer {
    pub pass: ComputePass,
}

impl Debayer {
    /// The stage is part of every pipeline.
    pub fn enabled(_params: &Params) -> (on: bool)
        ensures
            on,
    {
        true
    }

    /// The buffers that the stage declares.
    pub open spec fn spec_buffers(params: &Params) -> Seq<BufferDescriptor> {
        seq![Buffers::AutoWhiteBalance.spec_init(params), Buffers::RGB.spec_init(params)]
    }

    /// The buffers that the stage declares.
    pub fn buffers(params: &Params) -> (list: Vec<BufferDescriptor>)
        requires
            params.valid(),
        ensures
            list@ == Self::spec_buffers(params),
    {
        let mut list: Vec<BufferDescriptor> = Vec::new();
        list.push(Buffers::AutoWhiteBalance.init(params));
        list.push(Buffers::RGB.init(params));
        proof {
            assert(list@ =~= Self::spec_buffers(params));
        }
        list
    }

    /// What the stage asks of its shader.
    pub open spec fn specialisation(params: &Params) -> Specialisation {
        grid_spec(
            params,
            EntryPoint::Debayer,
            params.height as u32,
            params.width as u32,
            Some(2),
            None,
        )
    }

    /// The buffers that the pass is bound to.
    pub open spec fn wanted() -> Seq<Wanted> {
        seq![
            Wanted { binding: 0, name: Buffers::AutoWhiteBalance },
            Wanted { binding: 1, name: Buffers::RGB },
        ]
    }

    /// The shaders of the stage, in the order in which they are made ready.
    pub open spec fn specs(params: &Params) -> Seq<Specialisation> {
        seq![Self::specialisation(params)]
    }

    /// The stage is the one that is constructed at position `stage` for `params`
    /// against `plan`.
    pub open spec fn made_for(&self, params: &Params, plan: PlanView, stage: usize) -> bool {
        pass_made(
            self.pass@,
            params.shader_processor,
            Self::specialisation(params),
            plan,
            stage,
            Self::wanted(),
        )
    }

    /// Constructs the stage, which stands at position `stage`, against the plan.
    pub fn create(params: &Params, buffers: &BufferPlan, stage: usize) -> (r: Result<
        Self,
        StateError,
    >)
        requires
            params.valid(),
        ensures
            match r {
                Ok(made) => succeeds(params, buffers@, stage, Self::wanted(), Self::specs(params))
                    && made.made_for(params, buffers@, stage),
                Err(err) => failure(
                    params,
                    buffers@,
                    stage,
                    Self::wanted(),
                    Self::specs(params),
                    err,
                ),
            },
    {
        let spec = make_grid_spec(
            params,
            EntryPoint::Debayer,
            rows(params),
            columns(params),
            Some(2),
            None,
        );
        let mut wanted: Vec<Wanted> = Vec::new();
        wanted.push(Wanted { binding: 0, name: Buffers::AutoWhiteBalance });
        wanted.push(Wanted { binding: 1, name: Buffers::RGB });
        proof {
            assert(wanted@ =~= Self::wanted());
        }
        match construct_pass(params, buffers, stage, spec, &wanted) {
            Ok(pass) => Ok(Debayer { pass }),
            Err(err) => Err(err),
        }
    }

    /// The commands of the stage for one frame.
    pub open spec fn commands(&self, args: &ISPParams) -> Seq<CommandView> {
        seq![dispatch_of(self.pass@, words_bytes(args.debayer_push.words()))]
    }

    /// Records the commands of the stage for one frame.
    pub fn execute(&self, encoder: &mut Encoder, _buffers: &BufferPlan, args: &ISPParams)
        ensures
            final(encoder)@ == old(encoder)@ + self.commands(args),
    {
        record_pass(encoder, &self.pass, args.debayer_push.bytes());
        proof {
            assert(encoder@ =~= old(encoder)@ + self.commands(args));
        }
    }
}

/// The number of bytes that the colour pass reserves for its per-frame arguments.
pub const RGB_PUSH_ROOM: u32 = 100;

/// Colour correction and tone curve, in place on the four-channel buffer.
#[derive(Debug)]
pub struct RGBSpaceOperations {
    pub pass: ComputePass,
}

impl RGBSpaceOperations {
    /// The stage is part of every pipeline.
    pub fn enabled(_params: &Params) -> (on: bool)
        ensures
            on,
    {
        true
    }

    /// The buffers that the stage declares.
    pub open spec fn spec_buffers(params: &Params) -> Seq<BufferDescriptor> {
        seq![Buffers::RGB.spec_init(params)]
    }

    /// The buffers that the stage declares.
    pub fn buffers(params: &Params) -> (list: Vec<BufferDescriptor>)
        requires
            params.valid(),
        ensures
            list@ == Self::spec_buffers(params),
    {
        let mut list: Vec<BufferDescriptor> = Vec::new();
        list.push(Buffers::RGB.init(params));
        proof {
            assert(list@ =~= Self::spec_buffers(params));
        }
        list
    }

    /// What the stage asks of its shader.
    pub open spec fn specialisation(params: &Params) -> Specialisation {
        grid_spec(
            params,
            EntryPoint::RgbSpace,
            params.height as u32,
            params.width as u32,
            None,
            Some(100),
        )
    }

    /// The buffers that the pass is bound to.
    pub open spec fn wanted() -> Seq<Wanted> {
        seq![Wanted { binding: 0, name: Buffers::RGB }]
    }

    /// The shaders of the stage, in the order in which they are made ready.
    pub open spec fn specs(params: &Params) -> Seq<Specialisation> {
        seq![Self::specialisation(params)]
    }

    /// The stage is the one that is constructed at position `stage` for `params`
    /// against `plan`.
    pub open spec fn made_for(&self, params: &Params, plan: PlanView, stage: usize) -> bool {
        pass_made(
            self.pass@,
            params.shader_processor,
            Self::specialisation(params),
            plan,
            stage,
            Self::wanted(),
        )
    }

    /// Constructs the stage, which stands at position `stage`, against the plan.
    pub fn create(params: &Params, buffers: &BufferPlan, stage: usize) -> (r: Result<
        Self,
        StateError,
    >)
        requires
            params.valid(),
        ensures
            match r {
                Ok(made) => succeeds(params, buffers@, stage, Self::wanted(), Self::specs(params))
                    && made.made_for(params, buffers@, stage),
                Err(err) => failure(
                    params,
                    buffers@,
                    stage,
                    Self::wanted(),
                    Self::specs(params),
                    err,
                ),
            },
    {
        let spec = make_grid_spec(
            params,
            EntryPoint::RgbSpace,
            rows(params),
            columns(params),
            None,
            Some(RGB_PUSH_ROOM),
        );
        let mut wanted: Vec<Wanted> = Vec::new();
        wanted.push(Wanted { binding: 0, name: Buffers::RGB });
        proof {
            assert(wanted@ =~= Self::wanted());
        }
        match construct_pass(params, buffers, stage, spec, &wanted) {
            Ok(pass) => Ok(RGBSpaceOperations { pass }),
            Err(err) => Err(err),
        }
    }

    /// The per-frame arguments of the pass: the colour matrix, then the tone curve.
    pub open spec fn push(args: &ISPParams) -> Seq<u8> {
        words_bytes(args.color_correction_push.words()) + words_bytes(args.gamma_push.words())
    }

    /// The commands of the stage for one frame.
    pub open spec fn commands(&self, args: &ISPParams) -> Seq<CommandView> {
        seq![dispatch_of(self.pass@, Self::push(args))]
    }

    /// Records the commands of the stage for one frame.
    pub fn execute(&self, encoder: &mut Encoder, _buffers: &BufferPlan, args: &ISPParams)
        ensures
            final(encoder)@ == old(encoder)@ + self.commands(args),
    {
        let mut push = args.color_correction_push.bytes();
        let mut tone = args.gamma_push.bytes();
        push.append(&mut tone);
        record_pass(encoder, &self.pass, push);
        proof {
            assert(encoder@ =~= old(encoder)@ + self.commands(args));
        }
    }
}

/// Declares the raw buffer once more, so that it stays alive and can be reached
/// to the end of the pipeline. It does no work.
#[derive(Debug)]
pub struct PreserveRaw;

impl PreserveRaw {
    /// The stage is part of every pipeline.
    pub fn enabled(_params: &Params) -> (on: bool)
        ensures
            on,
    {
        true
    }

    /// The buffers that the stage declares.
    pub open spec fn spec_buffers(params: &Params) -> Seq<BufferDescriptor> {
        seq![Buffers::Raw.spec_init(params)]
    }

    /// The buffers that the stage declares.
    pub fn buffers(params: &Params) -> (list: Vec<BufferDescriptor>)
        requires
            params.valid(),
        ensures
            list@ == Self::spec_buffers(params),
    {
        let mut list: Vec<BufferDescriptor> = Vec::new();
        list.push(Buffers::Raw.init(params));
        proof {
            assert(list@ =~= Self::spec_buffers(params));
        }
        list
    }

    /// The shaders of the stage: none.
    pub open spec fn specs(params: &Params) -> Seq<Specialisation> {
        Seq::empty()
    }

    /// Constructs the stage: there is nothing to construct.
    pub fn create(_params: &Params, _buffers: &BufferPlan, _stage: usize) -> (r: Result<
        Self,
        StateError,
    >)
        ensures
            r is Ok,
    {
        Ok(PreserveRaw)
    }

    /// The commands of the stage for one frame: none.
    pub open spec fn commands(&self, args: &ISPParams) -> Seq<CommandView> {
        Seq::empty()
    }

    /// Records the commands of the stage for one frame: none.
    pub fn execute(&self, encoder: &mut Encoder, _buffers: &BufferPlan, _args: &ISPParams)
        ensures
            final(encoder)@ == old(encoder)@ + self.commands(_args),
    {
        proof {
            assert(encoder@ =~= old(encoder)@ + self.commands(_args));
        }
    }
}

/// The number of elements that one invocation of the mean reduction folds.
pub const MEAN_UNROLL: u32 = 8;

/// The number of invocations in one work group of the mean reduction.
pub const MEAN_GROUP: u32 = 256;

/// The number of elements that the reduction leaves to its last pass.
pub const MEAN_LAST_SIZE: u32 = 24;

/// The tree-style reduction that folds four-component elements down to their mean.
#[derive(Clone, Copy, Debug, PartialEq, Eq, Structural)]
pub struct MeanReduce {
    /// The physical buffer that holds the elements. The reduction works in place.
    pub input: usize,
    /// The physical buffer that receives the mean.
    pub output: usize,
    pub unroll: u32,
    pub workgroup_size: Extent,
    pub last_size: u32,
}

/// White balance: packs each Bayer cell into one four-component element, reduces
/// the elements to their mean and applies the gain.
#[derive(Debug)]
pub struct AutoWhiteBalance {
    pub align: ComputePass,
    pub mean: MeanReduce,
    pub reduction_length: u32,
    pub gain_application: ComputePass,
}

/// The number of the physical buffer that a binding names, if it names one.
pub fn slot_of(binding: &Binding) -> (slot: Option<usize>)
    ensures
        slot == (match binding.resource {
            Resource::Buffer(number) => Some(number),
            Resource::Texture => None,
        }),
{
    match binding.resource {
        Resource::Buffer(number) => Some(number),
        Resource::Texture => None,
    }
}

impl AutoWhiteBalance {
    /// The stage is part of every pipeline.
    pub fn enabled(_params: &Params) -> (on: bool)
        ensures
            on,
    {
        true
    }

    /// The buffers that the stage declares.
    pub open spec fn spec_buffers(params: &Params) -> Seq<BufferDescriptor> {
        seq![
            Buffers::BlackLevel.spec_init(params),
            Buffers::TempMean.spec_init(params),
            Buffers::Mean.spec_init(params),
            Buffers::AutoWhiteBalance.spec_init(params),
        ]
    }

    /// The buffers that the stage declares.
    pub fn buffers(params: &Params) -> (list: Vec<BufferDescriptor>)
        requires
            params.valid(),
        ensures
            list@ == Self::spec_buffers(params),
    {
        let mut list: Vec<BufferDescriptor> = Vec::new();
        list.push(Buffers::BlackLevel.init(params));
        list.push(Buffers::TempMean.init(params));
        list.push(Buffers::Mean.init(params));
        list.push(Buffers::AutoWhiteBalance.init(params));
        proof {
            assert(list@ =~= Self::spec_buffers(params));
        }
        list
    }

    /// What the packing pass asks of its shader: one invocation for each Bayer cell.
    pub open spec fn align_specialisation(params: &Params) -> Specialisation {
        grid_spec(
            params,
            EntryPoint::BayerToVec4,
            (params.height / 2) as u32,
            (params.width / 2) as u32,
            None,
            None,
        )
    }

    /// What the gain pass asks of its shader: one invocation for each pixel.
    pub open spec fn gain_specialisation(params: &Params) -> Specialisation {
        grid_spec(
            params,
            EntryPoint::AutoWhiteBalance,
            params.height as u32,
            params.width as u32,
            None,
            None,
        )
    }

    /// The buffers that the stage looks up, in the order in which it does.
    pub open spec fn wanted() -> Seq<Wanted> {
        seq![
            Wanted { binding: 0, name: Buffers::BlackLevel },
            Wanted { binding: 1, name: Buffers::AutoWhiteBalance },
            Wanted { binding: 1, name: Buffers::TempMean },
            Wanted { binding: 2, name: Buffers::Mean },
        ]
    }

    /// The buffers that the packing pass is bound to.
    pub open spec fn align_wanted() -> Seq<Wanted> {
        seq![
            Wanted { binding: 0, name: Buffers::BlackLevel },
            Wanted { binding: 1, name: Buffers::TempMean },
        ]
    }

    /// The buffers that the gain pass is bound to.
    pub open spec fn gain_wanted() -> Seq<Wanted> {
        seq![
            Wanted { binding: 0, name: Buffers::BlackLevel },
            Wanted { binding: 1, name: Buffers::AutoWhiteBalance },
            Wanted { binding: 2, name: Buffers::Mean },
        ]
    }

    /// The number of elements that the reduction starts from: one for each Bayer
    /// cell of two by two pixels.
    pub open spec fn spec_reduction_length(params: &Params) -> int {
        params.height * params.width / 4
    }

    /// The shaders of the stage, in the order in which they are made ready.
    pub open spec fn specs(params: &Params) -> Seq<Specialisation> {
        seq![Self::align_specialisation(params), Self::gain_specialisation(params)]
    }

    /// The stage is the one that is constructed at position `stage` for `params`
    /// against `plan`.
    pub open spec fn made_for(&self, params: &Params, plan: PlanView, stage: usize) -> bool {
        &&& pass_made(
            self.align@,
            params.shader_processor,
            Self::align_specialisation(params),
            plan,
            stage,
            Self::align_wanted(),
        )
        &&& pass_made(
            self.gain_application@,
            params.shader_processor,
            Self::gain_specialisation(params),
            plan,
            stage,
            Self::gain_wanted(),
        )
        &&& backs(plan, Buffers::TempMean, self.mean.input)
        &&& backs(plan, Buffers::Mean, self.mean.output)
        &&& self.mean.unroll == 8
        &&& self.mean.workgroup_size == (Extent { x: 256, y: 1, z: 1 })
        &&& self.mean.last_size == 24
        &&& self.reduction_length == Self::spec_reduction_length(params)
    }

    /// Constructs the stage, which stands at position `stage`, against the plan.
    ///
    /// The stage is made exactly where it declared its four buffers and both its
    /// shaders expand. Else the first buffer that it did not declare is reported,
    /// or why the first of its shaders, the packing shader before the gain shader,
    /// cannot be made ready.
    pub fn create(params: &Params, buffers: &BufferPlan, stage: usize) -> (r: Result<
        Self,
        StateError,
    >)
        requires
            params.valid(),
        ensures
            match r {
                Ok(made) => succeeds(params, buffers@, stage, Self::wanted(), Self::specs(params))
                    && made.made_for(params, buffers@, stage),
                Err(err) => failure(
                    params,
                    buffers@,
                    stage,
                    Self::wanted(),
                    Self::specs(params),
                    err,
                ),
            },
    {
        let mut wanted: Vec<Wanted> = Vec::new();
        wanted.push(Wanted { binding: 0, name: Buffers::BlackLevel });
        wanted.push(Wanted { binding: 1, name: Buffers::AutoWhiteBalance });
        wanted.push(Wanted { binding: 1, name: Buffers::TempMean });
        wanted.push(Wanted { binding: 2, name: Buffers::Mean });
        proof {
            assert(wanted@ =~= Self::wanted());
        }
        let found = match bind(buffers, stage, &wanted) {
            Ok(found) => found,
            Err(err) => {
                return Err(StateError::UnboundBuffer(err));
            },
        };
        proof {
            assert forall|i: int| !first_unbound(buffers@, stage, Self::wanted(), i) by {
                if 0 <= i < wanted.len() {
                    assert(found@[i].binding == wanted@[i].binding);
                }
            }
        }
        let black_level = found[0];
        let auto_white_balance = found[1];
        let temp_mean = found[2];
        let mean_buf = found[3];
        let (input, output) = match (slot_of(&temp_mean), slot_of(&mean_buf)) {
            (Some(input), Some(output)) => (input, output),
            _ => (0, 0),
        };

        proof {
            lemma_valid_bounds(params.width as int, params.height as int);
        }
        let align_spec = make_grid_spec(
            params,
            EntryPoint::BayerToVec4,
            (params.height / 2) as u32,
            (params.width / 2) as u32,
            None,
            None,
        );
        let mut align_bindings: Vec<Binding> = Vec::new();
        align_bindings.push(black_level);
        align_bindings.push(temp_mean);
        proof {
            assert(bound(buffers@, stage, Self::align_wanted(), align_bindings@, 2));
        }
        let align = match build_pass(&params.shader_processor, align_spec, align_bindings) {
            Ok(pass) => pass,
            Err(err) => {
                proof {
                    assert(first_failing(params.shader_processor, Self::specs(params), 0));
                }
                return Err(StateError::Shader(err));
            },
        };

        let mean = MeanReduce {
            input,
            output,
            unroll: MEAN_UNROLL,
            workgroup_size: Extent { x: MEAN_GROUP, y: 1, z: 1 },
            last_size: MEAN_LAST_SIZE,
        };

        let gain_spec = make_grid_spec(
            params,
            EntryPoint::AutoWhiteBalance,
            rows(params),
            columns(params),
            None,
            None,
        );
        let mut gain_bindings: Vec<Binding> = Vec::new();
        gain_bindings.push(black_level);
        gain_bindings.push(auto_white_balance);
        gain_bindings.push(mean_buf);
        proof {
            assert(bound(buffers@, stage, Self::gain_wanted(), gain_bindings@, 3));
        }
        let gain_application = match build_pass(&params.shader_processor, gain_spec, gain_bindings) {
            Ok(pass) => pass,
            Err(err) => {
                proof {
                    assert(first_failing(params.shader_processor, Self::specs(params), 1));
                }
                return Err(StateError::Shader(err));
            },
        };

        proof {
            assert(params.height * params.width == params.width * params.height)
                by (nonlinear_arith);
        }
        let reduction_length = ((params.height * params.width) / 4) as u32;

        Ok(AutoWhiteBalance { align, mean, reduction_length, gain_application })
    }

    /// The commands of the stage for one frame.
    pub open spec fn commands(&self, args: &ISPParams) -> Seq<CommandView> {
        seq![
            dispatch_of(self.align@, Seq::empty()),
            CommandView::Reduce {
                input: self.mean.input,
                output: self.mean.output,
                length: self.reduction_length,
            },
            dispatch_of(
                self.gain_application@,
                words_bytes(args.auto_white_balance_push.words()),
            ),
        ]
    }

    /// Records the commands of the stage for one frame.
    pub fn execute(&self, encoder: &mut Encoder, _buffers: &BufferPlan, args: &ISPParams)
        ensures
            final(encoder)@ == old(encoder)@ + self.commands(args),
    {
        record_pass(encoder, &self.align, Vec::new());
        encoder.record(
            Command::Reduce {
                input: self.mean.input,
                output: self.mean.output,
                length: self.reduction_length,
            },
        );
        record_pass(encoder, &self.gain_application, args.auto_white_balance_push.bytes());
        proof {
            assert(encoder@ =~= old(encoder)@ + self.commands(args));
        }
    }
}

/// What the conversion to the texture asks of its shader.
pub open spec fn to_texture_specialisation(params: &Params) -> Specialisation {
    grid_spec(
        params,
        EntryPoint::ToTexture,
        params.height as u32,
        params.width as u32,
        None,
        None,
    )
}

/// What the conversion to the texture is bound to: the final buffer and the
/// texture.
pub open spec fn to_texture_bindings(final_buffer: usize) -> Seq<Binding> {
    seq![
        Binding { binding: 0, resource: Resource::Buffer(final_buffer) },
        Binding { binding: 1, resource: Resource::Texture },
    ]
}

/// Constructs the pass that writes the final buffer into the texture that the host
/// shows. It runs after the stages of a frame.
pub fn create_to_texture(params: &Params, final_buffer: usize) -> (r: Result<
    ComputePass,
    StateError,
>)
    requires
        params.valid(),
    ensures
        match r {
            Ok(pass) => built(
                params.shader_processor,
                to_texture_specialisation(params),
                to_texture_bindings(final_buffer),
                Ok(pass),
            ),
            Err(StateError::Shader(err)) => built(
                params.shader_processor,
                to_texture_specialisation(params),
                to_texture_bindings(final_buffer),
                Err(err),
            ),
            Err(_) => false,
        },
{
    let spec = make_grid_spec(
        params,
        EntryPoint::ToTexture,
        rows(params),
        columns(params),
        None,
        None,
    );
    let mut bindings: Vec<Binding> = Vec::new();
    bindings.push(Binding { binding: 0, resource: Resource::Buffer(final_buffer) });
    bindings.push(Binding { binding: 1, resource: Resource::Texture });
    proof {
        assert(bindings@ =~= to_texture_bindings(final_buffer));
    }
    match build_pass(&params.shader_processor, spec, bindings) {
        Ok(pass) => Ok(pass),
        Err(err) => Err(StateError::Shader(err)),
    }
}

} // verus!
