use vstd::prelude::*;
use gpwgpu::shaderpreprocessor::ShaderProcessor;
use gpwgpu::ExpansionError;
use crate::descriptor::Buffers;
use crate::plan::{backs, BufferPlan, PlanView, UnboundBufferError};
use crate::shader::{
    expand_shader, expands, exports_are_plain, exports_plain, has_shader, loaded_shaders,
    source_of, EntryPoint, Extent, Specialisation,
};
use crate::solver::{declared_by, ResolutionError};

verus! {

/// What a pass is bound to.
#[derive(Clone, Copy, Debug, PartialEq, Eq, Structural)]
pub enum Resource {
    /// The physical buffer with this number.
    Buffer(usize),
    /// The texture that the host shows.
    Texture,
}

/// One entry of the bind group of a pass.
#[derive(Clone, Copy, Debug, PartialEq, Eq, Structural)]
pub struct Binding {
    pub binding: u32,
    pub resource: Resource,
}

/// One compute dispatch, ready to be built on a device: its shader, specialised
/// and expanded, the number of work groups and the resources it is bound to.
#[derive(Clone, Debug, PartialEq, Eq)]
pub struct ComputePass {
    pub spec: Specialisation,
    pub workgroups: Extent,
    pub bindings: Vec<Binding>,
    pub source: String,
}

/// What a compute pass is made of.
pub struct PassView {
    pub spec: Specialisation,
    pub workgroups: Extent,
    pub bindings: Seq<Binding>,
    pub source: Seq<char>,
}

impl View for ComputePass {
    type V = PassView;

    open spec fn view(&self) -> PassView {
        PassView {
            spec: self.spec,
            workgroups: self.workgroups,
            bindings: self.bindings@,
            source: self.source@,
        }
    }
}

/// Why the shader of a pass could not be made ready.
#[derive(Debug)]
pub enum ShaderBuildError {
    /// The shader sources hold no shader of the entry point's name.
    Missing(EntryPoint),
    /// The shader sources export code that branches, loops or imports. Whether the
    /// imports of such a set come to an end cannot be told from outside, so no
    /// shader of it is expanded.
    Exporting(EntryPoint),
    /// The shader could not be expanded with the constants of the pass.
    Expansion(EntryPoint, ExpansionError),
}

/// Why a pipeline could not be constructed.
#[derive(Debug)]
pub enum StateError {
    /// The image has a side that is not positive, or too many pixels.
    Dimensions { width: i32, height: i32 },
    /// The declared buffers have no allocation plan.
    Resolution(ResolutionError),
    /// A stage asked for a buffer that it did not declare.
    UnboundBuffer(UnboundBufferError),
    /// A shader is missing or cannot be specialised.
    Shader(ShaderBuildError),
}

/// A buffer that a pass wants at a binding.
#[derive(Clone, Copy, Debug, PartialEq, Eq, Structural)]
pub struct Wanted {
    pub binding: u32,
    pub name: Buffers,
}

/// The first `n` bindings are those that the plan gives to `stage` for `wanted`.
pub open spec fn bound(
    plan: PlanView,
    stage: usize,
    wanted: Seq<Wanted>,
    bindings: Seq<Binding>,
    n: int,
) -> bool {
    &&& bindings.len() == n
    &&& forall|i: int|
        0 <= i < n ==> {
            &&& (#[trigger] bindings[i]).binding == wanted[i].binding
            &&& declared_by(plan.declarations, stage, wanted[i].name)
            &&& exists|slot: usize|
                bindings[i].resource == Resource::Buffer(slot) && backs(
                    plan,
                    wanted[i].name,
                    slot,
                ) && slot < plan.physical.len()
        }
}

/// `i` is the first position of `wanted` whose buffer `stage` does not declare.
pub open spec fn first_unbound(plan: PlanView, stage: usize, wanted: Seq<Wanted>, i: int) -> bool {
    &&& 0 <= i < wanted.len()
    &&& !declared_by(plan.declarations, stage, wanted[i].name)
    &&& forall|j: int| 0 <= j < i ==> declared_by(plan.declarations, stage, (#[trigger] wanted[j]).name)
}

/// Looks up, for `stage`, the physical buffer of each wanted name.
pub fn bind(buffers: &BufferPlan, stage: usize, wanted: &Vec<Wanted>) -> (r: Result<
    Vec<Binding>,
    UnboundBufferError,
>)
    ensures
        match r {
            Ok(bindings) => bound(buffers@, stage, wanted@, bindings@, wanted.len() as int),
            Err(err) => exists|i: int|
                #![trigger wanted[i]]
                first_unbound(buffers@, stage, wanted@, i) && err == (UnboundBufferError {
                    stage,
                    name: wanted[i].name,
                }),
        },
{
    let mut bindings: Vec<Binding> = Vec::new();
    let mut i: usize = 0;
    while i < wanted.len()
        invariant
            i <= wanted.len(),
            bound(buffers@, stage, wanted@, bindings@, i as int),
        decreases wanted.len() - i,
    {
        let want = wanted[i];
        match buffers.lookup(stage, want.name) {
            Ok(slot) => {
                let ghost before = bindings@;
                bindings.push(Binding { binding: want.binding, resource: Resource::Buffer(slot) });
                proof {
                    assert forall|j: int| 0 <= j < i + 1 implies {
                        &&& (#[trigger] bindings@[j]).binding == wanted@[j].binding
                        &&& declared_by(buffers@.declarations, stage, wanted@[j].name)
                        &&& exists|slot: usize|
                            bindings@[j].resource == Resource::Buffer(slot) && backs(
                                buffers@,
                                wanted@[j].name,
                                slot,
                            ) && slot < buffers@.physical.len()
                    } by {
                        if j < i {
                            assert(bindings@[j] == before[j]);
                        }
                    }
                }
            },
            Err(err) => {
                proof {
                    assert forall|j: int| 0 <= j < i implies declared_by(
                        buffers@.declarations,
                        stage,
                        (#[trigger] wanted@[j]).name,
                    ) by {
                        assert(bindings@[j].binding == wanted@[j].binding);
                    }
                    assert(first_unbound(buffers@, stage, wanted@, i as int));
                }
                return Err(err);
            },
        }
        i += 1;
    }
    Ok(bindings)
}

/// Makes the pass of what the expansion of its shader gave.
pub fn finish_pass(
    spec: Specialisation,
    workgroups: Extent,
    bindings: Vec<Binding>,
    expanded: Result<String, ExpansionError>,
) -> (r: Result<ComputePass, ShaderBuildError>)
    ensures
        match (expanded, r) {
            (Ok(source), Ok(pass)) => pass@ == (PassView {
                spec,
                workgroups,
                bindings: bindings@,
                source: source@,
            }),
            (Err(cause), Err(ShaderBuildError::Expansion(entry_point, carried))) => entry_point
                == spec.entry_point && carried == cause,
            _ => false,
        },
{
    match expanded {
        Ok(source) => Ok(ComputePass { spec, workgroups, bindings, source }),
        Err(cause) => Err(ShaderBuildError::Expansion(spec.entry_point, cause)),
    }
}

/// `err` is why the shader of `spec` cannot be made ready: it is missing; else
/// the sources export more than plain code; else its expansion fails.
pub open spec fn refuses(
    shaders: ShaderProcessor<'static>,
    spec: Specialisation,
    err: ShaderBuildError,
) -> bool {
    match err {
        ShaderBuildError::Missing(entry_point) => {
            &&& entry_point == spec.entry_point
            &&& !loaded_shaders(shaders).contains(spec.entry_point.spec_name())
        },
        ShaderBuildError::Exporting(entry_point) => {
            &&& entry_point == spec.entry_point
            &&& loaded_shaders(shaders).contains(spec.entry_point.spec_name())
            &&& !exports_plain(shaders)
        },
        ShaderBuildError::Expansion(entry_point, _) => {
            &&& entry_point == spec.entry_point
            &&& loaded_shaders(shaders).contains(spec.entry_point.spec_name())
            &&& exports_plain(shaders)
            &&& source_of(shaders, spec) is None
        },
    }
}

/// The pass that `spec` and `bindings` give where the shader expands.
pub open spec fn pass_of(
    shaders: ShaderProcessor<'static>,
    spec: Specialisation,
    bindings: Seq<Binding>,
) -> PassView {
    PassView {
        spec,
        workgroups: spec.spec_workgroups(),
        bindings,
        source: source_of(shaders, spec)->Some_0,
    }
}

/// What `build_pass` gives for a specialisation and its bindings: the pass,
/// exactly where the shader expands, and else the reason why it does not.
pub open spec fn built(
    shaders: ShaderProcessor<'static>,
    spec: Specialisation,
    bindings: Seq<Binding>,
    r: Result<ComputePass, ShaderBuildError>,
) -> bool {
    match r {
        Ok(pass) => expands(shaders, spec) && pass@ == pass_of(shaders, spec, bindings),
        Err(err) => !expands(shaders, spec) && refuses(shaders, spec, err),
    }
}

/// Specialises and expands the shader of a pass and counts its work groups.
///
/// The pass is refused where the sources hold no shader of its entry point's
/// name, where they export more than plain code, and where the expansion fails.
pub fn build_pass(shaders: &ShaderProcessor<'static>, spec: Specialisation, bindings: Vec<Binding>) -> (r:
    Result<ComputePass, ShaderBuildError>)
    requires
        spec.valid(),
    ensures
        built(*shaders, spec, bindings@, r),
{
    if !has_shader(shaders, spec.entry_point.name()) {
        return Err(ShaderBuildError::Missing(spec.entry_point));
    }
    if !exports_are_plain(shaders) {
        return Err(ShaderBuildError::Exporting(spec.entry_point));
    }
    let workgroups = spec.workgroups();
    let constants = spec.definitions();
    let expanded = expand_shader(shaders, spec.entry_point.name(), &spec, &constants);
    finish_pass(spec, workgroups, bindings, expanded)
}

} // verus!
