use vstd::prelude::*;
use gpwgpu::shaderpreprocessor::ShaderProcessor;
use gpwgpu::ExpansionError;

verus! {

/// Declares the shader source set of `gpwgpu`, `ShaderProcessor`, to the verifier
/// as an opaque value.
#[verifier::external_type_specification]
#[verifier::external_body]
pub struct ExShaderProcessor<'a>(ShaderProcessor<'a>);

/// The derived `Clone` of `gpwgpu`'s `ShaderProcessor`, which copies both of its
/// maps. The contract claims that the copy is the same set of shader sources.
pub assume_specification<'a>[ <ShaderProcessor<'a> as Clone>::clone ](
    shaders: &ShaderProcessor<'a>,
) -> (copy: ShaderProcessor<'a>)
    ensures
        copy == *shaders,
;

/// Declares the error of `gpwgpu`'s shader expansion, `ExpansionError`, to the
/// verifier as an opaque value.
#[verifier::external_type_specification]
#[verifier::external_body]
pub struct ExExpansionError(ExpansionError);

/// The compute entry points that the pipeline needs from the shader sources.
#[derive(Clone, Copy, Debug, PartialEq, Eq, Hash, Structural)]
pub enum EntryPoint {
    BlackLevel,
    BayerToVec4,
    AutoWhiteBalance,
    Debayer,
    RgbSpace,
    ToTexture,
}

impl EntryPoint {
    /// The name under which the shader sources hold the entry point.
    pub open spec fn spec_name(&self) -> Seq<char> {
        match self {
            EntryPoint::BlackLevel => "black_level"@,
            EntryPoint::BayerToVec4 => "bayer_to_vec4"@,
            EntryPoint::AutoWhiteBalance => "auto_white_balance"@,
            EntryPoint::Debayer => "debayer"@,
            EntryPoint::RgbSpace => "rgb_space"@,
            EntryPoint::ToTexture => "to_texture"@,
        }
    }

    /// The name under which the shader sources hold the entry point.
    pub fn name(&self) -> (name: &'static str)
        ensures
            name@ == self.spec_name(),
    {
        match self {
            EntryPoint::BlackLevel => "black_level",
            EntryPoint::BayerToVec4 => "bayer_to_vec4",
            EntryPoint::AutoWhiteBalance => "auto_white_balance",
            EntryPoint::Debayer => "debayer",
            EntryPoint::RgbSpace => "rgb_space",
            EntryPoint::ToTexture => "to_texture",
        }
    }
}

/// The constants that a shader is specialised with when its pass is built.
#[derive(Clone, Copy, Debug, PartialEq, Eq, Hash, Structural)]
pub enum Constant {
    Height,
    Width,
    Padding,
}

impl Constant {
    /// The name by which the shader sources refer to the constant.
    pub open spec fn spec_name(&self) -> Seq<char> {
        match self {
            Constant::Height => "HEIGHT"@,
            Constant::Width => "WIDTH"@,
            Constant::Padding => "PADDING"@,
        }
    }

    /// The name by which the shader sources refer to the constant.
    pub fn name(&self) -> (name: &'static str)
        ensures
            name@ == self.spec_name(),
    {
        match self {
            Constant::Height => "HEIGHT",
            Constant::Width => "WIDTH",
            Constant::Padding => "PADDING",
        }
    }
}

/// A constant together with the value it is given.
#[derive(Clone, Copy, Debug, PartialEq, Eq, Structural)]
pub struct Definition {
    pub constant: Constant,
    pub value: i32,
}

/// A count along each of the three axes of a compute grid.
#[derive(Clone, Copy, Debug, PartialEq, Eq, Structural)]
pub struct Extent {
    pub x: u32,
    pub y: u32,
    pub z: u32,
}

/// What a pass asks of its shader: the entry point, the work-group size, the
/// number of invocations along each axis, the constants and the room for per-frame
/// arguments.
#[derive(Clone, Copy, Debug, PartialEq, Eq, Structural)]
pub struct Specialisation {
    pub entry_point: EntryPoint,
    pub workgroup_size: Extent,
    pub dispatch_size: Extent,
    pub height: i32,
    pub width: i32,
    pub padding: Option<i32>,
    pub push_constants: Option<u32>,
}

impl Specialisation {
    /// No work-group size is zero, and the invocations and the work-group size
    /// along an axis add up within 32 bits.
    pub open spec fn valid(&self) -> bool {
        &&& self.workgroup_size.x > 0
        &&& self.workgroup_size.y > 0
        &&& self.workgroup_size.z > 0
        &&& self.dispatch_size.x + self.workgroup_size.x <= u32::MAX
        &&& self.dispatch_size.y + self.workgroup_size.y <= u32::MAX
        &&& self.dispatch_size.z + self.workgroup_size.z <= u32::MAX
    }

    /// The number of work groups along each axis that covers the invocations.
    pub open spec fn spec_workgroups(&self) -> Extent {
        Extent {
            x: groups_needed(self.dispatch_size.x as int, self.workgroup_size.x as int) as u32,
            y: groups_needed(self.dispatch_size.y as int, self.workgroup_size.y as int) as u32,
            z: groups_needed(self.dispatch_size.z as int, self.workgroup_size.z as int) as u32,
        }
    }

    /// The number of work groups along each axis that covers the invocations.
    pub fn workgroups(&self) -> (counts: Extent)
        requires
            self.valid(),
        ensures
            counts == self.spec_workgroups(),
            counts.x == groups_needed(self.dispatch_size.x as int, self.workgroup_size.x as int),
            counts.y == groups_needed(self.dispatch_size.y as int, self.workgroup_size.y as int),
            counts.z == groups_needed(self.dispatch_size.z as int, self.workgroup_size.z as int),
    {
        direct_workgroups(self.dispatch_size, self.workgroup_size)
    }

    /// The constants that the shader is given, in the order in which they are set.
    pub open spec fn spec_definitions(&self) -> Seq<Definition> {
        let sides = seq![
            Definition { constant: Constant::Height, value: self.height },
            Definition { constant: Constant::Width, value: self.width },
        ];
        match self.padding {
            Some(padding) => sides.push(Definition { constant: Constant::Padding, value: padding }),
            None => sides,
        }
    }

    /// The constants that the shader is given, in the order in which they are set.
    pub fn definitions(&self) -> (list: Vec<Definition>)
        ensures
            list@ == self.spec_definitions(),
    {
        let mut list: Vec<Definition> = Vec::new();
        list.push(Definition { constant: Constant::Height, value: self.height });
        list.push(Definition { constant: Constant::Width, value: self.width });
        match self.padding {
            Some(padding) => {
                list.push(Definition { constant: Constant::Padding, value: padding });
            },
            None => {},
        }
        proof {
            assert(list@ =~= self.spec_definitions());
        }
        list
    }
}

/// The names of the shaders that a source set holds.
pub uninterp spec fn loaded_shaders(shaders: ShaderProcessor<'static>) -> Set<Seq<char>>;

/// The kinds of piece that `gpwgpu` parses a shader source into.
#[derive(Clone, Copy, Debug, PartialEq, Eq, Hash, Structural)]
pub enum TokenKind {
    /// Plain shader code.
    Code,
    /// The name of a constant, to be replaced by its value.
    Ident,
    /// An expression over constants, to be replaced by its value.
    Expr,
    If,
    For,
    NestedFor,
    Concat,
    /// The place where exported code is to be put in.
    Import,
    /// Code that is offered to other shaders for import.
    Export,
}

/// A piece of this kind is expanded without looking at any other code.
pub open spec fn is_plain(kind: TokenKind) -> bool {
    kind == TokenKind::Code || kind == TokenKind::Ident || kind == TokenKind::Expr
}

/// The kinds of the pieces that stand at the top of the code that a source set
/// exports for import.
pub uninterp spec fn exported_kinds(shaders: ShaderProcessor<'static>) -> Set<TokenKind>;

/// All that the source set exports is plain: code, constants and expressions. An
/// import of such code needs no further import, so the expansion comes to an end.
pub open spec fn exports_plain(shaders: ShaderProcessor<'static>) -> bool {
    forall|kind: TokenKind| #[trigger] exported_kinds(shaders).contains(kind) ==> is_plain(kind)
}

/// The source that the expansion of the shader `name` gives for work groups of
/// size `group` and the constants `constants`, where it succeeds.
pub uninterp spec fn expansion(
    shaders: ShaderProcessor<'static>,
    name: Seq<char>,
    group: Extent,
    constants: Seq<Definition>,
) -> Option<Seq<char>>;

/// The number of work groups of size `group` that cover `extent` invocations.
pub open spec fn groups_needed(extent: int, group: int) -> int {
    (extent + group - 1) / group
}

/// The source that the shader of `spec` expands to, where its expansion succeeds.
pub open spec fn source_of(shaders: ShaderProcessor<'static>, spec: Specialisation) -> Option<
    Seq<char>,
> {
    expansion(shaders, spec.entry_point.spec_name(), spec.workgroup_size, spec.spec_definitions())
}

/// The sources hold the shader of `spec`, export plain code only, and the shader
/// expands.
pub open spec fn expands(shaders: ShaderProcessor<'static>, spec: Specialisation) -> bool {
    &&& loaded_shaders(shaders).contains(spec.entry_point.spec_name())
    &&& exports_plain(shaders)
    &&& source_of(shaders, spec) is Some
}

/// Looks `name` up among the shaders of `gpwgpu`'s `ShaderProcessor`, with
/// `contains_key` on its `shaders` map. The contract claims that the answer is
/// whether the set holds a shader of that name.
#[verifier::external_body]
pub(crate) fn has_shader(shaders: &ShaderProcessor<'static>, name: &str) -> (held: bool)
    ensures
        held == loaded_shaders(*shaders).contains(name@),
{
    shaders.shaders.contains_key(name)
}

/// Walks the `exports` map of `gpwgpu`'s `ShaderProcessor` and tells, for each
/// piece at the top of each exported code, which variant of `gpwgpu`'s `Token` it
/// is. The contract claims that the kinds handed back are those that occur.
#[verifier::external_body]
pub(crate) fn export_kinds(shaders: &ShaderProcessor<'static>) -> (kinds: Vec<TokenKind>)
    ensures
        forall|kind: TokenKind|
            #[trigger] exported_kinds(*shaders).contains(kind) <==> kinds@.contains(kind),
{
    let pieces = shaders.exports.values().flatten();
    pieces.map(|token| match token {
        gpwgpu::parser::Token::Code(_) => TokenKind::Code,
        gpwgpu::parser::Token::Ident(_) => TokenKind::Ident,
        gpwgpu::parser::Token::Expr(_) => TokenKind::Expr,
        gpwgpu::parser::Token::If(_) => TokenKind::If,
        gpwgpu::parser::Token::For(_) => TokenKind::For,
        gpwgpu::parser::Token::NestedFor(_) => TokenKind::NestedFor,
        gpwgpu::parser::Token::Concat(_) => TokenKind::Concat,
        gpwgpu::parser::Token::Import(_) => TokenKind::Import,
        gpwgpu::parser::Token::Export(_) => TokenKind::Export,
    }).collect()
}

/// Whether all that the source set exports is plain.
pub fn exports_are_plain(shaders: &ShaderProcessor<'static>) -> (plain: bool)
    ensures
        plain == exports_plain(*shaders),
{
    let kinds = export_kinds(shaders);
    let mut i: usize = 0;
    while i < kinds.len()
        invariant
            i <= kinds.len(),
            forall|kind: TokenKind|
                #[trigger] exported_kinds(*shaders).contains(kind) <==> kinds@.contains(kind),
            forall|k: int| 0 <= k < i ==> is_plain(#[trigger] kinds@[k]),
        decreases kinds.len() - i,
    {
        let kind = kinds[i];
        if !(kind == TokenKind::Code || kind == TokenKind::Ident || kind == TokenKind::Expr) {
            proof {
                assert(kinds@.contains(kinds@[i as int]));
                assert(exported_kinds(*shaders).contains(kind));
                assert(!is_plain(kind));
            }
            return false;
        }
        i += 1;
    }
    proof {
        assert forall|kind: TokenKind| exported_kinds(*shaders).contains(kind) implies is_plain(
            kind,
        ) by {
            assert(kinds@.contains(kind));
            let k = choose|k: int| 0 <= k < kinds@.len() && kinds@[k] == kind;
            assert(is_plain(kinds@[k]));
        }
    }
    true
}

/// Calls `gpwgpu::utils::Dispatcher::new_direct`. The contract claims what its
/// source computes along each axis: the invocations plus the work-group size less
/// one, divided by the work-group size. The inputs on which its first sum, of
/// invocations and work-group size, overflows or on which it divides by zero are
/// left out.
#[verifier::external_body]
pub(crate) fn direct_workgroups(dims: Extent, group: Extent) -> (counts: Extent)
    requires
        group.x > 0,
        group.y > 0,
        group.z > 0,
        dims.x + group.x <= u32::MAX,
        dims.y + group.y <= u32::MAX,
        dims.z + group.z <= u32::MAX,
    ensures
        counts.x == groups_needed(dims.x as int, group.x as int),
        counts.y == groups_needed(dims.y as int, group.y as int),
        counts.z == groups_needed(dims.z as int, group.z as int),
{
    let size = gpwgpu::utils::WorkgroupSize::new(group.x, group.y, group.z);
    match gpwgpu::utils::Dispatcher::new_direct(&[dims.x, dims.y, dims.z], &size) {
        gpwgpu::utils::Dispatcher::Direct(counts) => Extent {
            x: counts[0],
            y: counts[1],
            z: counts[2],
        },
        _ => dims,
    }
}

/// Builds `gpwgpu`'s `ShaderSpecs` from `spec` and `constants` and calls
/// `ShaderProcessor::process_by_name`, which expands the shader `name`, and hands
/// back the expanded source or the error.
///
/// Left out are the inputs on which the call panics or does not return: a set
/// that does not hold the shader; work-group arithmetic of the direct dispatcher
/// that overflows; and a set that exports more than plain code. An export that
/// imports itself, straight or in a round, is expanded without end; where every
/// export is plain, an import puts in code that needs no further import. The
/// constants are integers, so the panic on a constant that holds text cannot
/// arise, and what a constant is replaced by is a number that holds no import.
///
/// The expansion reads the shader set, the name, the work-group size and the
/// constants, and nothing else: the contract names what it gives for them.
#[verifier::external_body]
pub(crate) fn expand_shader(
    shaders: &ShaderProcessor<'static>,
    name: &str,
    spec: &Specialisation,
    constants: &Vec<Definition>,
) -> (expanded: Result<String, ExpansionError>)
    requires
        loaded_shaders(*shaders).contains(name@),
        exports_plain(*shaders),
        spec.valid(),
    ensures
        match expanded {
            Ok(source) => expansion(*shaders, name@, spec.workgroup_size, constants@) == Some(
                source@,
            ),
            Err(_) => expansion(*shaders, name@, spec.workgroup_size, constants@) is None,
        },
{
    let (group, dims) = (spec.workgroup_size, spec.dispatch_size);
    let mut specs = gpwgpu::shaderpreprocessor::ShaderSpecs::new((group.x, group.y, group.z))
        .direct_dispatcher(&[dims.x, dims.y, dims.z])
        .extend_defs(
            constants.iter().map(|d| (d.constant.name(), gpwgpu::parser::Definition::Int(d.value))),
        );
    specs.push_constants = spec.push_constants;
    shaders.process_by_name(name, specs).map(|processed| processed.source)
}

} // verus!
