use vstd::prelude::*;
use crate::allocation::{allocates, sized_by};
use crate::descriptor::BufferDescriptor;
use crate::laws::{lemma_no_more_buffers_than_names, lemma_total_at_most};
use crate::operations::{
    all_expand, failure, first_failing, refused, succeeds, AutoWhiteBalance, BlackLevel,
    CommandView, Debayer, Encoder, PreserveRaw, RGBSpaceOperations,
};
use crate::pass::{first_unbound, refuses, PassView, ShaderBuildError, StateError, Wanted};
use crate::plan::{solved, total_bytes, BufferPlan, BufferSolver, PlanView};
use crate::push::ISPParams;
use crate::setup::{lemma_valid_bounds, Params};
use crate::shader::{expands, Specialisation};
use crate::solver::{
    compatible, consistent, declared_by, describes, first_pos, lemma_first_pos, ordered,
    summarises, Declaration, Entry, ResolutionError,
};

verus! {

/// The kinds of stage that a pipeline can be made of.
#[derive(Clone, Copy, Debug, PartialEq, Eq, Hash, Structural)]
pub enum Operation {
    BlackLevel,
    AutoWhiteBalance,
    Debayer,
    RGBSpaceOperations,
    PreserveRaw,
}

/// A stage that has been constructed.
#[derive(Debug)]
pub enum Stage {
    BlackLevel(BlackLevel),
    AutoWhiteBalance(AutoWhiteBalance),
    Debayer(Debayer),
    RGBSpaceOperations(RGBSpaceOperations),
    PreserveRaw(PreserveRaw),
}

impl Operation {
    /// Whether a pipeline for `params` has the stage.
    pub fn enabled(&self, params: &Params) -> (on: bool)
        ensures
            on,
    {
        match self {
            Operation::BlackLevel => BlackLevel::enabled(params),
            Operation::AutoWhiteBalance => AutoWhiteBalance::enabled(params),
            Operation::Debayer => Debayer::enabled(params),
            Operation::RGBSpaceOperations => RGBSpaceOperations::enabled(params),
            Operation::PreserveRaw => PreserveRaw::enabled(params),
        }
    }

    /// The buffers that the stage declares.
    pub open spec fn spec_buffers(&self, params: &Params) -> Seq<BufferDescriptor> {
        match self {
            Operation::BlackLevel => BlackLevel::spec_buffers(params),
            Operation::AutoWhiteBalance => AutoWhiteBalance::spec_buffers(params),
            Operation::Debayer => Debayer::spec_buffers(params),
            Operation::RGBSpaceOperations => RGBSpaceOperations::spec_buffers(params),
            Operation::PreserveRaw => PreserveRaw::spec_buffers(params),
        }
    }

    /// The buffers that the stage declares.
    pub fn buffers(&self, params: &Params) -> (list: Vec<BufferDescriptor>)
        requires
            params.valid(),
        ensures
            list@ == self.spec_buffers(params),
    {
        match self {
            Operation::BlackLevel => BlackLevel::buffers(params),
            Operation::AutoWhiteBalance => AutoWhiteBalance::buffers(params),
            Operation::Debayer => Debayer::buffers(params),
            Operation::RGBSpaceOperations => RGBSpaceOperations::buffers(params),
            Operation::PreserveRaw => PreserveRaw::buffers(params),
        }
    }

    /// The buffers that the stage looks up when it is constructed.
    pub open spec fn wanted(&self) -> Seq<Wanted> {
        match self {
            Operation::BlackLevel => BlackLevel::wanted(),
            Operation::AutoWhiteBalance => AutoWhiteBalance::wanted(),
            Operation::Debayer => Debayer::wanted(),
            Operation::RGBSpaceOperations => RGBSpaceOperations::wanted(),
            Operation::PreserveRaw => Seq::empty(),
        }
    }

    /// The shaders of the stage, in the order in which they are made ready.
    pub open spec fn specs(&self, params: &Params) -> Seq<Specialisation> {
        match self {
            Operation::BlackLevel => BlackLevel::specs(params),
            Operation::AutoWhiteBalance => AutoWhiteBalance::specs(params),
            Operation::Debayer => Debayer::specs(params),
            Operation::RGBSpaceOperations => RGBSpaceOperations::specs(params),
            Operation::PreserveRaw => PreserveRaw::specs(params),
        }
    }

    /// What the construction of the stage at position `stage` gives: the stage,
    /// exactly where it declared the buffers that it looks up and all its shaders
    /// expand; else the first buffer that it did not declare, or why the first of
    /// its shaders cannot be made ready.
    pub open spec fn constructed(
        &self,
        params: &Params,
        plan: PlanView,
        stage: usize,
        r: Result<Stage, StateError>,
    ) -> bool {
        match r {
            Ok(made) => succeeds(params, plan, stage, self.wanted(), self.specs(params))
                && made.made_for(*self, params, plan, stage),
            Err(err) => failure(params, plan, stage, self.wanted(), self.specs(params), err),
        }
    }

    /// Constructs the stage, which stands at position `stage`, against the plan.
    pub fn create(&self, params: &Params, buffers: &BufferPlan, stage: usize) -> (r: Result<
        Stage,
        StateError,
    >)
        requires
            params.valid(),
        ensures
            self.constructed(params, buffers@, stage, r),
    {
        match self {
            Operation::BlackLevel => match BlackLevel::create(params, buffers, stage) {
                Ok(made) => Ok(Stage::BlackLevel(made)),
                Err(err) => Err(err),
            },
            Operation::AutoWhiteBalance => match AutoWhiteBalance::create(params, buffers, stage) {
                Ok(made) => Ok(Stage::AutoWhiteBalance(made)),
                Err(err) => Err(err),
            },
            Operation::Debayer => match Debayer::create(params, buffers, stage) {
                Ok(made) => Ok(Stage::Debayer(made)),
                Err(err) => Err(err),
            },
            Operation::RGBSpaceOperations => match RGBSpaceOperations::create(
                params,
                buffers,
                stage,
            ) {
                Ok(made) => Ok(Stage::RGBSpaceOperations(made)),
                Err(err) => Err(err),
            },
            Operation::PreserveRaw => match PreserveRaw::create(params, buffers, stage) {
                Ok(made) => Ok(Stage::PreserveRaw(made)),
                Err(err) => Err(err),
            },
        }
    }
}

impl Stage {
    /// The kind of the stage.
    pub open spec fn kind(&self) -> Operation {
        match self {
            Stage::BlackLevel(_) => Operation::BlackLevel,
            Stage::AutoWhiteBalance(_) => Operation::AutoWhiteBalance,
            Stage::Debayer(_) => Operation::Debayer,
            Stage::RGBSpaceOperations(_) => Operation::RGBSpaceOperations,
            Stage::PreserveRaw(_) => Operation::PreserveRaw,
        }
    }

    /// The stage is the one of kind `operation` that is constructed at position
    /// `stage` for `params` against `plan`.
    pub open spec fn made_for(
        &self,
        operation: Operation,
        params: &Params,
        plan: PlanView,
        stage: usize,
    ) -> bool {
        &&& self.kind() == operation
        &&& match self {
            Stage::BlackLevel(made) => made.made_for(params, plan, stage),
            Stage::AutoWhiteBalance(made) => made.made_for(params, plan, stage),
            Stage::Debayer(made) => made.made_for(params, plan, stage),
            Stage::RGBSpaceOperations(made) => made.made_for(params, plan, stage),
            Stage::PreserveRaw(_) => true,
        }
    }

    /// The passes of the stage, in the order in which they are made.
    pub open spec fn passes(&self) -> Seq<PassView> {
        match self {
            Stage::BlackLevel(made) => seq![made.pass@],
            Stage::AutoWhiteBalance(made) => seq![made.align@, made.gain_application@],
            Stage::Debayer(made) => seq![made.pass@],
            Stage::RGBSpaceOperations(made) => seq![made.pass@],
            Stage::PreserveRaw(_) => Seq::empty(),
        }
    }

    /// The commands of the stage for one frame.
    pub open spec fn commands(&self, args: &ISPParams) -> Seq<CommandView> {
        match self {
            Stage::BlackLevel(made) => made.commands(args),
            Stage::AutoWhiteBalance(made) => made.commands(args),
            Stage::Debayer(made) => made.commands(args),
            Stage::RGBSpaceOperations(made) => made.commands(args),
            Stage::PreserveRaw(made) => made.commands(args),
        }
    }

    /// Records the commands of the stage for one frame.
    pub fn execute(&self, encoder: &mut Encoder, buffers: &BufferPlan, args: &ISPParams)
        ensures
            final(encoder)@ == old(encoder)@ + self.commands(args),
    {
        match self {
            Stage::BlackLevel(made) => made.execute(encoder, buffers, args),
            Stage::AutoWhiteBalance(made) => made.execute(encoder, buffers, args),
            Stage::Debayer(made) => made.execute(encoder, buffers, args),
            Stage::RGBSpaceOperations(made) => made.execute(encoder, buffers, args),
            Stage::PreserveRaw(made) => made.execute(encoder, buffers, args),
        }
    }
}

/// The declarations of the stage of kind `operation` at position `stage`.
pub open spec fn stage_declarations(params: &Params, operation: Operation, stage: usize) -> Seq<
    Declaration,
> {
    Seq::new(
        operation.spec_buffers(params).len(),
        |j: int| Declaration { stage, descriptor: operation.spec_buffers(params)[j] },
    )
}

/// The declarations of the stages `operations`, stage by stage.
pub open spec fn declarations_of(params: &Params, operations: Seq<Operation>) -> Seq<Declaration>
    decreases operations.len(),
{
    if operations.len() == 0 {
        Seq::empty()
    } else {
        declarations_of(params, operations.drop_last()) + stage_declarations(
            params,
            operations.last(),
            (operations.len() - 1) as usize,
        )
    }
}

/// The declarations come stage by stage, each is what the pipeline declares of its
/// name, and every stage declares the buffers that it looks up.
pub open spec fn well_declared(params: &Params, operations: Seq<Operation>, d: Seq<Declaration>) -> bool {
    &&& ordered(d)
    &&& forall|p: int|
        0 <= p < d.len() ==> (#[trigger] d[p]).stage < operations.len() && d[p].descriptor
            == d[p].descriptor.name.spec_init(params)
    &&& forall|i: int, j: int|
        0 <= i < operations.len() && 0 <= j < operations[i].wanted().len() ==> declared_by(
            d,
            i as usize,
            (#[trigger] operations[i].wanted()[j]).name,
        )
}

/// Every descriptor of a stage is what the pipeline declares of its name.
pub proof fn lemma_stage_declares(params: &Params, operation: Operation, j: int)
    requires
        0 <= j < operation.spec_buffers(params).len(),
    ensures
        operation.spec_buffers(params)[j] == operation.spec_buffers(params)[j].name.spec_init(
            params,
        ),
{
}

/// Every buffer that a stage looks up is among those that it declares.
pub proof fn lemma_wanted_declared(params: &Params, operation: Operation, j: int) -> (k: int)
    requires
        0 <= j < operation.wanted().len(),
    ensures
        0 <= k < operation.spec_buffers(params).len(),
        operation.spec_buffers(params)[k].name == operation.wanted()[j].name,
{
    match operation {
        Operation::BlackLevel => j,
        Operation::AutoWhiteBalance => if j == 0 {
            0
        } else if j == 1 {
            3
        } else if j == 2 {
            1
        } else {
            2
        },
        Operation::Debayer => j,
        Operation::RGBSpaceOperations => j,
        Operation::PreserveRaw => 0,
    }
}

/// The declarations of a pipeline are in order and agree with each other, and
/// every stage declares what it looks up.
pub proof fn lemma_declarations(params: &Params, operations: Seq<Operation>)
    requires
        operations.len() <= usize::MAX,
    ensures
        well_declared(params, operations, declarations_of(params, operations)),
        consistent(declarations_of(params, operations)),
    decreases operations.len(),
{
    let d = declarations_of(params, operations);
    if operations.len() > 0 {
        let rest = operations.drop_last();
        let n = (operations.len() - 1) as usize;
        let op = operations.last();
        let before = declarations_of(params, rest);
        let own = stage_declarations(params, op, n);
        lemma_declarations(params, rest);
        assert(d == before + own);
        assert forall|p: int| 0 <= p < d.len() implies (#[trigger] d[p]).stage < operations.len()
            && d[p].descriptor == d[p].descriptor.name.spec_init(params) by {
            if p < before.len() {
                assert(d[p] == before[p]);
            } else {
                assert(d[p] == own[p - before.len()]);
                lemma_stage_declares(params, op, p - before.len());
            }
        }
        assert forall|p: int, q: int| 0 <= p <= q < d.len() implies d[p].stage <= d[q].stage by {
            if q < before.len() {
                assert(d[p] == before[p] && d[q] == before[q]);
            } else {
                assert(d[q] == own[q - before.len()]);
                if p < before.len() {
                    assert(d[p] == before[p]);
                } else {
                    assert(d[p] == own[p - before.len()]);
                }
            }
        }
        assert forall|i: int, j: int|
            0 <= i < operations.len() && 0 <= j < operations[i].wanted().len() implies declared_by(
            d,
            i as usize,
            (#[trigger] operations[i].wanted()[j]).name,
        ) by {
            let name = operations[i].wanted()[j].name;
            if i < n {
                assert(operations[i] == rest[i]);
                assert(declared_by(before, i as usize, rest[i].wanted()[j].name));
                let p = choose|p: int|
                    0 <= p < before.len() && #[trigger] before[p].descriptor.name == name
                        && before[p].stage == i as usize;
                assert(d[p] == before[p]);
                assert(d[p].descriptor.name == name && d[p].stage == i as usize);
            } else {
                let k = lemma_wanted_declared(params, op, j);
                let p = before.len() + k;
                assert(d[p] == own[k]);
                assert(d[p].descriptor.name == name && d[p].stage == i as usize);
            }
        }
    }
    assert forall|p: int, q: int|
        0 <= p < d.len() && 0 <= q < d.len() && d[p].descriptor.name
            == d[q].descriptor.name implies compatible(d[p].descriptor, d[q].descriptor) by {
        assert(d[p].descriptor == d[p].descriptor.name.spec_init(params));
        assert(d[q].descriptor == d[q].descriptor.name.spec_init(params));
    }
}

/// A pipeline has six buffer names, so no summary of its declarations is longer.
pub proof fn lemma_six_names(d: Seq<Declaration>, e: Seq<Entry>)
    requires
        summarises(d, e),
    ensures
        e.len() <= 6,
{
    if e.len() >= 7 {
        let f = |k: int| first_pos(d, e[k].name);
        assert(f(0) < f(1) < f(2) < f(3) < f(4) < f(5) < f(6));
    }
}

/// The buffers of a pipeline for valid dimensions can be counted in 64 bits: no
/// allocation for its declarations needs more than six buffers of the largest
/// size.
pub proof fn lemma_pipeline_fits(params: &Params, operations: Seq<Operation>, v: PlanView)
    requires
        params.valid(),
        operations.len() <= usize::MAX,
        v.declarations == declarations_of(params, operations),
        summarises(v.declarations, v.entries),
        allocates(v.entries, v.physical),
    ensures
        total_bytes(v.physical) <= 6 * 0x7fff_ffff,
{
    let d = v.declarations;
    let e = v.entries;
    let ph = v.physical;
    lemma_declarations(params, operations);
    lemma_six_names(d, e);
    lemma_no_more_buffers_than_names(e, ph);
    lemma_valid_bounds(params.width as int, params.height as int);
    assert forall|i: int| 0 <= i < ph.len() implies (#[trigger] ph[i]).size <= 0x7fff_ffff by {
        assert(sized_by(e, ph, i));
        let k = choose|k: int|
            0 <= k < e.len() && (#[trigger] e[k]).slot == i && e[k].size == ph[i].size;
        assert(describes(d, e[k]));
        lemma_first_pos(d, e[k].name);
        let p = first_pos(d, e[k].name);
        assert(d[p].descriptor == d[p].descriptor.name.spec_init(params));
    }
    lemma_total_at_most(ph, 0x7fff_ffff);
    assert(ph.len() * 0x7fff_ffff <= 6 * 0x7fff_ffff) by (nonlinear_arith)
        requires
            ph.len() <= 6,
    ;
}

/// Lists the declarations of the stages `operations`, stage by stage.
pub fn declare(params: &Params, operations: &Vec<Operation>) -> (list: Vec<Declaration>)
    requires
        params.valid(),
    ensures
        list@ == declarations_of(params, operations@),
{
    let mut list: Vec<Declaration> = Vec::new();
    let mut i: usize = 0;
    while i < operations.len()
        invariant
            params.valid(),
            i <= operations.len(),
            list@ == declarations_of(params, operations@.take(i as int)),
        decreases operations.len() - i,
    {
        let own = operations[i].buffers(params);
        let ghost before = list@;
        let mut j: usize = 0;
        while j < own.len()
            invariant
                j <= own.len(),
                i < operations.len(),
                own@ == operations@[i as int].spec_buffers(params),
                list@ == before + stage_declarations(params, operations@[i as int], i).take(
                    j as int,
                ),
            decreases own.len() - j,
        {
            list.push(Declaration { stage: i, descriptor: own[j] });
            proof {
                let all = stage_declarations(params, operations@[i as int], i);
                assert(all.take(j + 1) =~= all.take(j as int).push(all[j as int]));
                assert(list@ =~= before + all.take(j + 1));
            }
            j += 1;
        }
        proof {
            let all = stage_declarations(params, operations@[i as int], i);
            assert(all.take(j as int) =~= all);
            assert(operations@.take(i + 1).drop_last() =~= operations@.take(i as int));
        }
        i += 1;
    }
    proof {
        assert(operations@.take(i as int) =~= operations@);
    }
    list
}

/// The shaders of the stages `operations`, in the order in which they are made
/// ready: stage by stage.
pub open spec fn pipeline_specs(params: &Params, operations: Seq<Operation>) -> Seq<Specialisation>
    decreases operations.len(),
{
    if operations.len() == 0 {
        Seq::empty()
    } else {
        pipeline_specs(params, operations.drop_last()) + operations.last().specs(params)
    }
}

/// The shaders of the first `k + 1` stages are those of the first `k` and then
/// those of the stage at `k`.
pub proof fn lemma_specs_step(params: &Params, operations: Seq<Operation>, k: int)
    requires
        0 <= k < operations.len(),
    ensures
        pipeline_specs(params, operations.take(k + 1)) == pipeline_specs(
            params,
            operations.take(k),
        ) + operations[k].specs(params),
{
    assert(operations.take(k + 1).drop_last() =~= operations.take(k));
}

/// The shaders of the first `k` stages stand first among the shaders of all
/// stages.
pub proof fn lemma_specs_prefix(params: &Params, operations: Seq<Operation>, k: int)
    requires
        0 <= k <= operations.len(),
    ensures
        pipeline_specs(params, operations.take(k)).len() <= pipeline_specs(
            params,
            operations,
        ).len(),
        forall|j: int|
            0 <= j < pipeline_specs(params, operations.take(k)).len() ==> pipeline_specs(
                params,
                operations,
            )[j] == #[trigger] pipeline_specs(params, operations.take(k))[j],
    decreases operations.len() - k,
{
    if k == operations.len() {
        assert(operations.take(k) =~= operations);
    } else {
        lemma_specs_prefix(params, operations, k + 1);
        lemma_specs_step(params, operations, k);
        let before = pipeline_specs(params, operations.take(k));
        let upto = pipeline_specs(params, operations.take(k + 1));
        let all = pipeline_specs(params, operations);
        assert forall|j: int| 0 <= j < before.len() implies all[j] == #[trigger] before[j] by {
            assert(upto[j] == before[j]);
            assert(all[j] == upto[j]);
        }
    }
}

/// Where the shaders of the first `k` stages expand and the stage at `k` is
/// refused for one of its shaders, that shader is the first of the pipeline that
/// cannot be made ready.
pub proof fn lemma_refused_in_pipeline(
    params: &Params,
    operations: Seq<Operation>,
    k: int,
    err: ShaderBuildError,
)
    requires
        0 <= k < operations.len(),
        all_expand(params.shader_processor, pipeline_specs(params, operations.take(k))),
        refused(params.shader_processor, operations[k].specs(params), err),
    ensures
        refused(params.shader_processor, pipeline_specs(params, operations), err),
{
    let shaders = params.shader_processor;
    let before = pipeline_specs(params, operations.take(k));
    let own = operations[k].specs(params);
    let upto = pipeline_specs(params, operations.take(k + 1));
    let all = pipeline_specs(params, operations);
    lemma_specs_step(params, operations, k);
    lemma_specs_prefix(params, operations, k + 1);
    let i = choose|i: int| #[trigger] first_failing(shaders, own, i) && refuses(shaders, own[i], err);
    let g = before.len() + i;
    assert(all[g] == upto[g]);
    assert(upto[g] == own[i]);
    assert forall|j: int| 0 <= j < g implies expands(shaders, #[trigger] all[j]) by {
        assert(all[j] == upto[j]);
        if j < before.len() {
            assert(upto[j] == before[j]);
        } else {
            assert(upto[j] == own[j - before.len()]);
        }
    }
    assert(first_failing(shaders, all, g));
}

/// Where the shaders of the first `k` stages expand and so do those of the stage
/// at `k`, the shaders of the first `k + 1` stages expand.
pub proof fn lemma_expand_in_pipeline(params: &Params, operations: Seq<Operation>, k: int)
    requires
        0 <= k < operations.len(),
        all_expand(params.shader_processor, pipeline_specs(params, operations.take(k))),
        all_expand(params.shader_processor, operations[k].specs(params)),
    ensures
        all_expand(params.shader_processor, pipeline_specs(params, operations.take(k + 1))),
{
    let shaders = params.shader_processor;
    let before = pipeline_specs(params, operations.take(k));
    let own = operations[k].specs(params);
    let upto = pipeline_specs(params, operations.take(k + 1));
    lemma_specs_step(params, operations, k);
    assert forall|j: int| 0 <= j < upto.len() implies expands(shaders, #[trigger] upto[j]) by {
        if j < before.len() {
            assert(upto[j] == before[j]);
        } else {
            assert(upto[j] == own[j - before.len()]);
        }
    }
}

/// The stages of a pipeline, constructed against the plan of their buffers.
#[derive(Debug)]
pub struct AllOperations {
    pub buffers: BufferPlan,
    pub operations: Vec<Stage>,
}

impl AllOperations {
    /// The plan is the one for the stages `operations`, and the stages are those
    /// that are constructed against it, in the order of `operations`.
    pub open spec fn made_for(&self, params: &Params, operations: Seq<Operation>) -> bool {
        &&& all_expand(params.shader_processor, pipeline_specs(params, operations))
        &&& self.buffers@.declarations == declarations_of(params, operations)
        &&& solved(self.buffers@)
        &&& self.operations@.len() == operations.len()
        &&& forall|i: int|
            0 <= i < operations.len() ==> (#[trigger] self.operations@[i]).made_for(
                operations[i],
                params,
                self.buffers@,
                i as usize,
            )
    }

    /// What the construction of the stages gives. Dimensions that cannot be worked
    /// with are refused. Else the stages are made exactly where all their shaders
    /// expand; where they do not, the error says why the first of them, in the
    /// order of the stages, cannot be made ready.
    pub open spec fn constructed(
        params: &Params,
        operations: Seq<Operation>,
        r: Result<AllOperations, StateError>,
    ) -> bool {
        if !params.valid() {
            r matches Err(StateError::Dimensions { width, height }) && width == params.width
                && height == params.height
        } else {
            match r {
                Ok(all) => all.made_for(params, operations),
                Err(StateError::Shader(err)) => refused(
                    params.shader_processor,
                    pipeline_specs(params, operations),
                    err,
                ),
                Err(_) => false,
            }
        }
    }

    /// Constructs the stages `operations`, in this order: collects what they
    /// declare, plans the buffers and constructs each stage against the plan. No
    /// stage is left half made: the first failure ends the construction.
    pub fn new(params: &Params, operations: Vec<Operation>) -> (r: Result<Self, StateError>)
        ensures
            Self::constructed(params, operations@, r),
    {
        if !params.is_valid() {
            return Err(StateError::Dimensions { width: params.width, height: params.height });
        }
        let mut active: Vec<Operation> = Vec::new();
        let mut i: usize = 0;
        while i < operations.len()
            invariant
                i <= operations.len(),
                active@ == operations@.take(i as int),
            decreases operations.len() - i,
        {
            if operations[i].enabled(params) {
                active.push(operations[i]);
            }
            proof {
                assert(active@ =~= operations@.take(i + 1));
            }
            i += 1;
        }
        proof {
            assert(operations@.take(i as int) =~= operations@);
            lemma_declarations(params, operations@);
        }
        let declarations = declare(params, &active);
        let buffers = match BufferSolver::resolve(&declarations) {
            Ok(buffers) => buffers,
            Err(err) => {
                proof {
                    if err == ResolutionError::Overflow {
                        let v = choose|v: PlanView|
                            #![trigger v.physical]
                            v.declarations == declarations@ && summarises(
                                v.declarations,
                                v.entries,
                            ) && allocates(v.entries, v.physical) && total_bytes(v.physical)
                                > u64::MAX;
                        lemma_pipeline_fits(params, operations@, v);
                    }
                }
                return Err(StateError::Resolution(err));
            },
        };
        let mut stages: Vec<Stage> = Vec::new();
        let mut k: usize = 0;
        while k < active.len()
            invariant
                params.valid(),
                k <= active.len(),
                active@ == operations@,
                all_expand(
                    params.shader_processor,
                    pipeline_specs(params, operations@.take(k as int)),
                ),
                buffers@.declarations == declarations_of(params, operations@),
                well_declared(params, operations@, buffers@.declarations),
                solved(buffers@),
                stages@.len() == k,
                forall|i: int|
                    0 <= i < k ==> (#[trigger] stages@[i]).made_for(
                        operations@[i],
                        params,
                        buffers@,
                        i as usize,
                    ),
            decreases active.len() - k,
        {
            let made = match active[k].create(params, &buffers, k) {
                Ok(made) => made,
                Err(err) => {
                    proof {
                        let op = operations@[k as int];
                        assert forall|i: int| !first_unbound(
                            buffers@,
                            k,
                            op.wanted(),
                            i,
                        ) by {
                            if 0 <= i < op.wanted().len() {
                                assert(declared_by(
                                    buffers@.declarations,
                                    k,
                                    operations@[k as int].wanted()[i].name,
                                ));
                            }
                        }
                        if err is Shader {
                            lemma_refused_in_pipeline(
                                params,
                                operations@,
                                k as int,
                                err->Shader_0,
                            );
                        }
                    }
                    return Err(err);
                },
            };
            let ghost before = stages@;
            stages.push(made);
            proof {
                lemma_expand_in_pipeline(params, operations@, k as int);
                assert forall|i: int| 0 <= i < k + 1 implies (#[trigger] stages@[i]).made_for(
                    operations@[i],
                    params,
                    buffers@,
                    i as usize,
                ) by {
                    if i < k {
                        assert(stages@[i] == before[i]);
                    }
                }
            }
            k += 1;
        }
        proof {
            assert(operations@.take(k as int) =~= operations@);
        }
        Ok(AllOperations { buffers, operations: stages })
    }

    /// The commands of the first `n` stages for one frame.
    pub open spec fn commands_of(stages: Seq<Stage>, args: &ISPParams, n: int) -> Seq<CommandView>
        decreases n,
    {
        if n <= 0 {
            Seq::empty()
        } else {
            Self::commands_of(stages, args, n - 1) + stages[n - 1].commands(args)
        }
    }

    /// The commands of all stages for one frame, in the order of the stages.
    pub open spec fn commands(&self, args: &ISPParams) -> Seq<CommandView> {
        Self::commands_of(self.operations@, args, self.operations@.len() as int)
    }

    /// Records the commands of one frame: those of each stage, in the order in
    /// which the stages were registered.
    pub fn execute(&self, encoder: &mut Encoder, args: &ISPParams)
        ensures
            final(encoder)@ == old(encoder)@ + self.commands(args),
    {
        let mut k: usize = 0;
        proof {
            assert(encoder@ =~= old(encoder)@ + Self::commands_of(self.operations@, args, 0));
        }
        while k < self.operations.len()
            invariant
                k <= self.operations.len(),
                encoder@ == old(encoder)@ + Self::commands_of(self.operations@, args, k as int),
            decreases self.operations.len() - k,
        {
            let ghost before = encoder@;
            self.operations[k].execute(encoder, &self.buffers, args);
            proof {
                assert(encoder@ =~= old(encoder)@ + Self::commands_of(
                    self.operations@,
                    args,
                    k + 1,
                ));
            }
            k += 1;
        }
    }
}

} // verus!
