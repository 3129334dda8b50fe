use vstd::prelude::*;
use crate::descriptor::Buffers;
use crate::operations::{
    all_expand, create_to_texture, first_failing, refused, to_texture_bindings,
    to_texture_specialisation, Encoder,
};
use crate::pass::{pass_of, refuses, ComputePass, ShaderBuildError, StateError};
use crate::pipeline::{lemma_declarations, pipeline_specs, AllOperations, Operation};
use crate::plan::backs;
use crate::push::ISPParams;
use crate::shader::{expands, Specialisation};
use crate::solver::declared_by;

verus! {

/// Number of bytes of one sample once it has been promoted to a 32-bit float.
pub const SAMPLE_BYTES: i32 = 4;

/// Number of bytes of one raw 16-bit sensor sample.
pub const RAW_SAMPLE_BYTES: usize = 2;

/// Largest pixel count for which the four-channel output plane still has a size
/// that fits the 32-bit arithmetic the sizes are computed in.
pub const MAX_PIXELS: i32 = 134_217_727;

/// What a pipeline is built from: the image dimensions and the shader sources.
#[derive(Debug)]
pub struct Params {
    pub width: i32,
    pub height: i32,
    pub shader_processor: gpwgpu::shaderpreprocessor::ShaderProcessor<'static>,
}

impl Clone for Params {
    /// The same dimensions and the same shader sources.
    fn clone(&self) -> (copy: Self)
        ensures
            copy == *self,
    {
        Params {
            width: self.width,
            height: self.height,
            shader_processor: self.shader_processor.clone(),
        }
    }
}

impl Params {
    /// Both sides are positive and sixteen bytes per pixel still fit in an `i32`.
    pub open spec fn valid(&self) -> bool {
        &&& self.width > 0
        &&& self.height > 0
        &&& self.width * self.height * 16 <= i32::MAX
    }

    /// The number of pixels of the image.
    pub open spec fn spec_pixels(&self) -> int {
        self.width * self.height
    }

    /// The size in bytes of one single-channel plane of 32-bit samples.
    pub open spec fn spec_byte_size(&self) -> int {
        self.width * self.height * 4
    }

    /// Decides whether the dimensions can be worked with at all.
    pub fn is_valid(&self) -> (ok: bool)
        ensures
            ok == self.valid(),
    {
        if self.width <= 0 || self.height <= 0 {
            return false;
        }
        let limit: i32 = MAX_PIXELS / self.height;
        proof {
            lemma_fits(self.width as int, self.height as int);
        }
        self.width <= limit
    }

    /// Size in bytes of one single-channel plane of 32-bit samples.
    pub fn byte_size(&self) -> (size: i32)
        requires
            i32::MIN <= self.width * self.height <= i32::MAX,
            i32::MIN <= self.spec_byte_size() <= i32::MAX,
        ensures
            size == self.spec_byte_size(),
    {
        self.width * self.height * SAMPLE_BYTES
    }
}

/// For positive sides, `w * h * 16` fits an `i32` exactly when `w` is at most
/// `MAX_PIXELS / h`.
pub proof fn lemma_fits(w: int, h: int)
    requires
        w > 0,
        h > 0,
    ensures
        (w <= 134_217_727int / h) <==> (w * h * 16 <= i32::MAX),
{
    let q = 134_217_727int / h;
    assert(q * h <= 134_217_727 < (q + 1) * h) by (nonlinear_arith)
        requires
            h > 0,
            q == 134_217_727int / h,
    ;
    if w <= q {
        assert(w * h <= q * h) by (nonlinear_arith)
            requires
                w <= q,
                h > 0,
        ;
    } else {
        assert(w * h >= (q + 1) * h) by (nonlinear_arith)
            requires
                w >= q + 1,
                h > 0,
        ;
    }
}

/// Valid dimensions keep every intermediate product of the size computation small.
pub proof fn lemma_valid_bounds(w: int, h: int)
    requires
        w > 0,
        h > 0,
        w * h * 16 <= i32::MAX,
    ensures
        0 < w * h <= 134_217_727,
        0 < w * h * 4 <= 536_870_908,
        w <= 134_217_727,
        h <= 134_217_727,
{
    assert(w * h >= w && w * h >= h && w * h > 0) by (nonlinear_arith)
        requires
            w > 0,
            h > 0,
    ;
}

/// The raw input does not have the length that the dimensions ask for.
#[derive(Clone, Copy, Debug, PartialEq, Eq, Structural)]
pub struct DimensionMismatchError {
    /// The number of bytes that an image of the dimensions has.
    pub expected: usize,
    /// The number of bytes that were given.
    pub found: usize,
}

/// The stages of the pipeline, in the order in which they run.
pub open spec fn stages() -> Seq<Operation> {
    seq![
        Operation::BlackLevel,
        Operation::AutoWhiteBalance,
        Operation::Debayer,
        Operation::RGBSpaceOperations,
        Operation::PreserveRaw,
    ]
}

/// The 16-bit sample whose two bytes, lower byte first, stand at `2 * i`.
pub open spec fn sample_at(bytes: Seq<u8>, i: int) -> int {
    bytes[2 * i] + 256 * bytes[2 * i + 1]
}

/// A pipeline that has been constructed: its parameters, its stages with the plan
/// of their buffers, and the pass that writes the result into the texture.
#[derive(Debug)]
pub struct State {
    params: Params,
    to_texture: ComputePass,
    sequential: AllOperations,
}

/// What a constructed pipeline is made of.
pub struct StateView {
    pub params: Params,
    pub to_texture: ComputePass,
    pub sequential: AllOperations,
}

impl View for State {
    type V = StateView;

    closed spec fn view(&self) -> StateView {
        StateView {
            params: self.params,
            to_texture: self.to_texture,
            sequential: self.sequential,
        }
    }
}

/// The shaders of a pipeline, in the order in which they are made ready: those of
/// the stages, and then that of the conversion to the texture.
pub open spec fn state_specs(params: &Params) -> Seq<Specialisation> {
    pipeline_specs(params, stages()).push(to_texture_specialisation(params))
}

/// The pipeline is the one that is constructed for `params`.
pub open spec fn made_for(state: StateView, params: Params) -> bool {
    &&& state.params == params
    &&& params.valid()
    &&& all_expand(params.shader_processor, state_specs(&params))
    &&& state.sequential.made_for(&params, stages())
    &&& exists|slot: usize|
        #![trigger to_texture_bindings(slot)]
        backs(state.sequential.buffers@, Buffers::RGB, slot) && state.to_texture@ == pass_of(
            params.shader_processor,
            to_texture_specialisation(&params),
            to_texture_bindings(slot),
        )
}

/// What the construction of a pipeline gives. Dimensions that cannot be worked
/// with are refused. Else the pipeline is made exactly where all its shaders
/// expand; where they do not, the error says why the first of them, in the order
/// of the stages and with the conversion to the texture last, cannot be made
/// ready.
pub open spec fn constructed(params: Params, r: Result<State, StateError>) -> bool {
    if !params.valid() {
        r matches Err(StateError::Dimensions { width, height }) && width == params.width
            && height == params.height
    } else {
        match r {
            Ok(state) => made_for(state@, params),
            Err(StateError::Shader(err)) => refused(
                params.shader_processor,
                state_specs(&params),
                err,
            ),
            Err(_) => false,
        }
    }
}

/// A shader that is the first of the stages that cannot be made ready is the first
/// of the pipeline.
pub proof fn lemma_refused_stage(params: &Params, err: ShaderBuildError)
    requires
        refused(params.shader_processor, pipeline_specs(params, stages()), err),
    ensures
        refused(params.shader_processor, state_specs(params), err),
{
    let shaders = params.shader_processor;
    let specs = pipeline_specs(params, stages());
    let all = state_specs(params);
    let i = choose|i: int|
        #[trigger] first_failing(shaders, specs, i) && refuses(shaders, specs[i], err);
    assert(all[i] == specs[i]);
    assert forall|j: int| 0 <= j < i implies expands(shaders, #[trigger] all[j]) by {
        assert(all[j] == specs[j]);
    }
    assert(first_failing(shaders, all, i));
}

/// Where the shaders of the stages expand, the shader of the conversion to the
/// texture decides: the pipeline's shaders all expand, or it is the first that
/// cannot be made ready.
pub proof fn lemma_texture_decides(params: &Params)
    requires
        all_expand(params.shader_processor, pipeline_specs(params, stages())),
    ensures
        expands(params.shader_processor, to_texture_specialisation(params)) ==> all_expand(
            params.shader_processor,
            state_specs(params),
        ),
        !expands(params.shader_processor, to_texture_specialisation(params)) ==> first_failing(
            params.shader_processor,
            state_specs(params),
            pipeline_specs(params, stages()).len() as int,
        ),
{
    let shaders = params.shader_processor;
    let specs = pipeline_specs(params, stages());
    let all = state_specs(params);
    assert forall|j: int| 0 <= j < specs.len() implies expands(shaders, #[trigger] all[j]) by {
        assert(all[j] == specs[j]);
    }
    assert(all[specs.len() as int] == to_texture_specialisation(params));
}

impl State {
    #[verifier::type_invariant]
    spec fn inv(self) -> bool {
        made_for(self@, self.params)
    }

    /// Constructs the pipeline for `params`: the five stages in their order, the
    /// plan of their buffers, and the pass that writes the final buffer into the
    /// texture. Nothing is handed back where any part of it fails.
    pub fn new(params: Params) -> (r: Result<State, StateError>)
        ensures
            constructed(params, r),
    {
        let mut operations: Vec<Operation> = Vec::new();
        operations.push(Operation::BlackLevel);
        operations.push(Operation::AutoWhiteBalance);
        operations.push(Operation::Debayer);
        operations.push(Operation::RGBSpaceOperations);
        operations.push(Operation::PreserveRaw);
        proof {
            assert(operations@ =~= stages());
        }
        let sequential = match AllOperations::new(&params, operations) {
            Ok(sequential) => sequential,
            Err(err) => {
                proof {
                    if err is Shader {
                        lemma_refused_stage(&params, err->Shader_0);
                    }
                }
                return Err(err);
            },
        };
        proof {
            lemma_declarations(&params, stages());
            assert(stages()[2].wanted()[1].name == Buffers::RGB);
            assert(declared_by(sequential.buffers@.declarations, 2, Buffers::RGB));
        }
        let final_buffer = match sequential.buffers.lookup_any(Buffers::RGB) {
            Some(slot) => slot,
            None => 0,
        };
        proof {
            lemma_texture_decides(&params);
        }
        let to_texture = match create_to_texture(&params, final_buffer) {
            Ok(pass) => pass,
            Err(err) => {
                return Err(err);
            },
        };
        Ok(State { params, to_texture, sequential })
    }

    /// Constructs a new pipeline for `params`. The pipeline at hand stays as it is
    /// and can be used on, whatever the outcome.
    pub fn reload(&self, params: Params) -> (r: Result<State, StateError>)
        ensures
            constructed(params, r),
    {
        State::new(params)
    }

    /// The parameters that the pipeline was constructed for.
    pub fn params(&self) -> (params: &Params)
        ensures
            *params == self@.params,
            made_for(self@, self@.params),
    {
        proof {
            use_type_invariant(self);
        }
        &self.params
    }

    /// The pass that writes the final buffer into the texture.
    pub fn to_texture(&self) -> (pass: &ComputePass)
        ensures
            *pass == self@.to_texture,
            made_for(self@, self@.params),
    {
        proof {
            use_type_invariant(self);
        }
        &self.to_texture
    }

    /// The stages and the plan of their buffers.
    pub fn sequential(&self) -> (all: &AllOperations)
        ensures
            *all == self@.sequential,
            made_for(self@, self@.params),
    {
        proof {
            use_type_invariant(self);
        }
        &self.sequential
    }

    /// Records the commands of one frame, stage by stage.
    pub fn execute(&self, encoder: &mut Encoder, args: &ISPParams)
        ensures
            final(encoder)@ == old(encoder)@ + self@.sequential.commands(args),
    {
        self.sequential.execute(encoder, args);
    }

    /// The number of bytes of a raw image of the pipeline's dimensions: two for
    /// each pixel.
    pub open spec fn spec_input_bytes(&self) -> int {
        self@.params.width * self@.params.height * 2
    }

    /// Checks the raw input against the dimensions and reads its samples: sixteen
    /// bits for each pixel, row by row, the lower byte first. Input of another
    /// length than two bytes for each pixel is refused, and then nothing is handed
    /// on to the GPU.
    pub fn write_to_input(&self, data: &[u8]) -> (r: Result<Vec<u16>, DimensionMismatchError>)
        ensures
            match r {
                Ok(samples) => {
                    &&& data@.len() == self.spec_input_bytes()
                    &&& samples@.len() == self@.params.spec_pixels()
                    &&& forall|i: int|
                        0 <= i < samples@.len() ==> #[trigger] samples@[i] == sample_at(data@, i)
                },
                Err(err) => {
                    &&& data@.len() != self.spec_input_bytes()
                    &&& err.expected == self.spec_input_bytes()
                    &&& err.found == data@.len()
                },
            },
    {
        proof {
            use_type_invariant(self);
            lemma_valid_bounds(self.params.width as int, self.params.height as int);
        }
        let pixels: usize = (self.params.width * self.params.height) as usize;
        let expected: usize = pixels * RAW_SAMPLE_BYTES;
        if data.len() != expected {
            return Err(DimensionMismatchError { expected, found: data.len() });
        }
        let mut samples: Vec<u16> = Vec::new();
        let mut i: usize = 0;
        while i < pixels
            invariant
                i <= pixels,
                pixels <= 134_217_727,
                data@.len() == pixels * 2,
                samples@.len() == i,
                forall|k: int| 0 <= k < i ==> #[trigger] samples@[k] == sample_at(data@, k),
            decreases pixels - i,
        {
            let low: u16 = data[2 * i] as u16;
            let high: u16 = data[2 * i + 1] as u16;
            samples.push(low + 256 * high);
            i += 1;
        }
        Ok(samples)
    }
}

} // verus!
