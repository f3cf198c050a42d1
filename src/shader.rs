//! The per-stage shader interface, and the classifier that builds it from
//! one shader's reflection data.

use vstd::prelude::*;

use crate::dedupe::{dedupe_bindings, deduplicated};
use crate::error::ModelError;
use crate::model::{layout_binding_of, BindMethod, Param, SetLayoutBinding, Uniform};
use crate::reflection::{Category, ParameterLayout, ShaderReflection, SubCategory};
use crate::types::{semantic_type, ParamType, ShaderType};

verus! {

/// Where a classified parameter goes.
#[derive(Debug)]
pub enum ParamRole {
    /// A vertex-stage input.
    Input(Param),
    /// A push-constant field.
    Constant(Param),
    /// A resource binding.
    Binding(Uniform),
}

/// Set, binding, input attachment index, and whether a subpass sub-category
/// was seen, gathered from the sub-categories of a mixed parameter.
pub open spec fn mixed_layout(subs: Seq<SubCategory>) -> Result<(u32, u32, u32, bool), ModelError>
    decreases subs.len(),
{
    if subs.len() == 0 {
        Ok((0, 0, 0, false))
    } else {
        match mixed_layout(subs.drop_last()) {
            Err(e) => Err(e),
            Ok((set, binding, index, subpass)) => {
                let c = subs.last();
                match c.category {
                    Category::DescriptorTableSlot => Ok((c.space, c.offset, index, subpass)),
                    Category::Subpass => Ok((set, binding, c.offset, true)),
                    other => Err(ModelError::UnsupportedSubCategory(other)),
                }
            },
        }
    }
}

/// The role of a reflected parameter. Varying inputs are accepted only at
/// entry-point scope.
pub open spec fn param_role(p: ParameterLayout, entry_scope: bool) -> Result<ParamRole, ModelError> {
    match semantic_type(p.ty) {
        Err(e) => Err(e),
        Ok(ty) => match p.category {
            Category::VaryingInput => if entry_scope {
                Ok(ParamRole::Input(Param { name: p.name, ty }))
            } else {
                Err(ModelError::UnsupportedCategory(Category::VaryingInput))
            },
            Category::PushConstantBuffer => Ok(ParamRole::Constant(Param { name: p.name, ty })),
            Category::Uniform | Category::DescriptorTableSlot | Category::Subpass => Ok(
                ParamRole::Binding(
                    Uniform {
                        param: Param { name: p.name, ty },
                        set: p.binding_space,
                        binding: p.binding_index,
                        input_attachment_index: 0,
                    },
                ),
            ),
            Category::Mixed => match mixed_layout(p.sub_categories@) {
                Err(e) => Err(e),
                Ok((set, binding, index, subpass)) => Ok(
                    ParamRole::Binding(
                        Uniform {
                            param: Param {
                                name: p.name,
                                ty: if subpass {
                                    ParamType::Image
                                } else {
                                    ty
                                },
                            },
                            set,
                            binding,
                            input_attachment_index: index,
                        },
                    ),
                ),
            },
            other => Err(ModelError::UnsupportedCategory(other)),
        },
    }
}

/// Inputs, bindings and push constants of one parameter scope, in reflection
/// order; or the name of the first parameter that cannot be classified, with
/// the reason.
pub open spec fn scope_parts(ps: Seq<ParameterLayout>, entry_scope: bool) -> Result<
    (Seq<Param>, Seq<Uniform>, Seq<Param>),
    (String, ModelError),
>
    decreases ps.len(),
{
    if ps.len() == 0 {
        Ok((seq![], seq![], seq![]))
    } else {
        match scope_parts(ps.drop_last(), entry_scope) {
            Err(e) => Err(e),
            Ok((inputs, bindings, constants)) => match param_role(ps.last(), entry_scope) {
                Err(e) => Err((ps.last().name, e)),
                Ok(ParamRole::Input(p)) => Ok((inputs.push(p), bindings, constants)),
                Ok(ParamRole::Constant(p)) => Ok((inputs, bindings, constants.push(p))),
                Ok(ParamRole::Binding(u)) => Ok((inputs, bindings.push(u), constants)),
            },
        }
    }
}

/// Gathers the set and binding of a mixed parameter from its
/// sub-categories.
fn gather_mixed(subs: &Vec<SubCategory>) -> (r: Result<(u32, u32, u32, bool), ModelError>)
    ensures
        r == mixed_layout(subs@),
{
    let mut set: u32 = 0;
    let mut binding: u32 = 0;
    let mut index: u32 = 0;
    let mut subpass = false;
    let mut i: usize = 0;
    while i < subs.len()
        invariant
            0 <= i <= subs@.len(),
            mixed_layout(subs@.take(i as int)) == Ok::<(u32, u32, u32, bool), ModelError>(
                (set, binding, index, subpass),
            ),
        decreases subs@.len() - i,
    {
        let c = subs[i];
        proof {
            assert(subs@.take(i + 1).drop_last() =~= subs@.take(i as int));
            assert(subs@.take(i + 1).last() == c);
        }
        match c.category {
            Category::DescriptorTableSlot => {
                binding = c.offset;
                set = c.space;
            },
            Category::Subpass => {
                subpass = true;
                index = c.offset;
            },
            other => {
                proof {
                    lemma_mixed_error_persists(subs@, i as int + 1);
                }
                return Err(ModelError::UnsupportedSubCategory(other));
            },
        }
        i = i + 1;
    }
    assert(subs@.take(i as int) =~= subs@);
    Ok((set, binding, index, subpass))
}

proof fn lemma_mixed_error_persists(subs: Seq<SubCategory>, j: int)
    requires
        0 <= j <= subs.len(),
        mixed_layout(subs.take(j)) is Err,
    ensures
        mixed_layout(subs) == mixed_layout(subs.take(j)),
    decreases subs.len() - j,
{
    if j < subs.len() {
        assert(subs.take(j + 1).drop_last() =~= subs.take(j));
        lemma_mixed_error_persists(subs, j + 1);
    } else {
        assert(subs.take(j) =~= subs);
    }
}

/// Classifies one reflected parameter.
pub fn classify_param(p: &ParameterLayout, entry_scope: bool) -> (r: Result<ParamRole, ModelError>)
    ensures
        r == param_role(*p, entry_scope),
{
    let ty = match ParamType::from_type(&p.ty) {
        Ok(ty) => ty,
        Err(e) => return Err(e),
    };
    match p.category {
        Category::VaryingInput => if entry_scope {
            Ok(ParamRole::Input(Param::new(p.name.clone(), ty)))
        } else {
            Err(ModelError::UnsupportedCategory(Category::VaryingInput))
        },
        Category::PushConstantBuffer => Ok(ParamRole::Constant(Param::new(p.name.clone(), ty))),
        Category::Uniform | Category::DescriptorTableSlot | Category::Subpass => {
            let param = Param::new(p.name.clone(), ty);
            Ok(ParamRole::Binding(Uniform::new(param, p.binding_space, p.binding_index, 0)))
        },
        Category::Mixed => match gather_mixed(&p.sub_categories) {
            Err(e) => Err(e),
            Ok((set, binding, index, subpass)) => {
                let ty = if subpass {
                    ParamType::Image
                } else {
                    ty
                };
                let param = Param::new(p.name.clone(), ty);
                Ok(ParamRole::Binding(Uniform::new(param, set, binding, index)))
            },
        },
        other => Err(ModelError::UnsupportedCategory(other)),
    }
}

/// Why a shader interface could not be built: the shader, the parameter at
/// fault (if one is), and the reason.
#[derive(Debug)]
pub struct ShaderError {
    pub path: String,
    pub parameter: Option<String>,
    pub error: ModelError,
}

/// The per-stage interface of a shader.
#[derive(Debug)]
pub struct Shader {
    pub ty: ShaderType,
    /// Where the shader source lives.
    pub path: String,
    /// Vertex-stage inputs, in reflection order.
    pub params: Vec<Param>,
    /// Resource bindings.
    pub uniforms: Vec<Uniform>,
    /// Push-constant fields, in reflection order.
    pub constants: Vec<Param>,
}

/// Mathematical model of a shader interface.
pub struct ShaderModel {
    pub ty: ShaderType,
    pub path: String,
    pub params: Seq<Param>,
    pub uniforms: Seq<Uniform>,
    pub constants: Seq<Param>,
}

impl View for Shader {
    type V = ShaderModel;

    open spec fn view(&self) -> ShaderModel {
        ShaderModel {
            ty: self.ty,
            path: self.path,
            params: self.params@,
            uniforms: self.uniforms@,
            constants: self.constants@,
        }
    }
}

/// The interface a reflection unit yields: it must have exactly one entry
/// point; its entry-point parameters come first, then its program-scope
/// parameters; the bindings are deduplicated and sorted.
pub open spec fn shader_model(r: ShaderReflection) -> Result<ShaderModel, ShaderError> {
    if r.entry_points@.len() != 1 {
        Err(ShaderError { path: r.path, parameter: None, error: ModelError::MultipleEntryPoints })
    } else {
        let entry = r.entry_points@[0];
        match scope_parts(entry.parameters@, true) {
            Err((name, e)) => Err(ShaderError { path: r.path, parameter: Some(name), error: e }),
            Ok((i1, u1, c1)) => match scope_parts(r.parameters@, false) {
                Err((name, e)) => Err(ShaderError { path: r.path, parameter: Some(name), error: e }),
                Ok((i2, u2, c2)) => Ok(
                    ShaderModel {
                        ty: entry.stage,
                        path: r.path,
                        params: i1 + i2,
                        uniforms: deduplicated(u1 + u2),
                        constants: c1 + c2,
                    },
                ),
            },
        }
    }
}

proof fn lemma_scope_error_persists(ps: Seq<ParameterLayout>, entry_scope: bool, j: int)
    requires
        0 <= j <= ps.len(),
        scope_parts(ps.take(j), entry_scope) is Err,
    ensures
        scope_parts(ps, entry_scope) == scope_parts(ps.take(j), entry_scope),
    decreases ps.len() - j,
{
    if j < ps.len() {
        assert(ps.take(j + 1).drop_last() =~= ps.take(j));
        lemma_scope_error_persists(ps, entry_scope, j + 1);
    } else {
        assert(ps.take(j) =~= ps);
    }
}

/// Classifies every parameter of one scope, in order.
fn classify_scope(ps: &Vec<ParameterLayout>, entry_scope: bool) -> (r: Result<
    (Vec<Param>, Vec<Uniform>, Vec<Param>),
    (String, ModelError),
>)
    ensures
        match r {
            Ok((inputs, bindings, constants)) => scope_parts(ps@, entry_scope) == Ok::<
                (Seq<Param>, Seq<Uniform>, Seq<Param>),
                (String, ModelError),
            >((inputs@, bindings@, constants@)),
            Err(e) => scope_parts(ps@, entry_scope) == Err::<
                (Seq<Param>, Seq<Uniform>, Seq<Param>),
                (String, ModelError),
            >(e),
        },
{
    let mut inputs: Vec<Param> = Vec::new();
    let mut bindings: Vec<Uniform> = Vec::new();
    let mut constants: Vec<Param> = Vec::new();
    let mut i: usize = 0;
    while i < ps.len()
        invariant
            0 <= i <= ps@.len(),
            scope_parts(ps@.take(i as int), entry_scope) == Ok::<
                (Seq<Param>, Seq<Uniform>, Seq<Param>),
                (String, ModelError),
            >((inputs@, bindings@, constants@)),
        decreases ps@.len() - i,
    {
        let p = &ps[i];
        proof {
            assert(ps@.take(i + 1).drop_last() =~= ps@.take(i as int));
            assert(ps@.take(i + 1).last() == *p);
        }
        match classify_param(p, entry_scope) {
            Ok(ParamRole::Input(param)) => inputs.push(param),
            Ok(ParamRole::Constant(param)) => constants.push(param),
            Ok(ParamRole::Binding(uniform)) => bindings.push(uniform),
            Err(e) => {
                proof {
                    lemma_scope_error_persists(ps@, entry_scope, i as int + 1);
                }
                return Err((p.name.clone(), e));
            },
        }
        i = i + 1;
    }
    assert(ps@.take(i as int) =~= ps@);
    Ok((inputs, bindings, constants))
}

/// The uniforms of `us` in descriptor set `set`, in order.
pub open spec fn uniforms_in_set(us: Seq<Uniform>, set: u32) -> Seq<Uniform> {
    us.filter(|u: Uniform| u.set == set)
}

/// The layout bindings of `us` as seen from `stage`.
pub open spec fn layout_bindings(us: Seq<Uniform>, stage: ShaderType) -> Seq<SetLayoutBinding> {
    us.map_values(|u: Uniform| layout_binding_of(u, stage))
}

/// The largest set index among `us`, or 0 when there is none.
pub open spec fn max_set(us: Seq<Uniform>) -> u32
    decreases us.len(),
{
    if us.len() == 0 {
        0
    } else {
        let m = max_set(us.drop_last());
        if us.last().set > m {
            us.last().set
        } else {
            m
        }
    }
}

impl Shader {
    pub fn new(
        ty: ShaderType,
        path: String,
        params: Vec<Param>,
        uniforms: Vec<Uniform>,
        constants: Vec<Param>,
    ) -> (r: Self)
        ensures
            r@ == (ShaderModel {
                ty,
                path,
                params: params@,
                uniforms: uniforms@,
                constants: constants@,
            }),
    {
        Self { ty, path, params, uniforms, constants }
    }

    /// Builds the interface of one shader from its reflection data.
    pub fn from_reflection(reflection: &ShaderReflection) -> (r: Result<Shader, ShaderError>)
        ensures
            match r {
                Ok(s) => shader_model(*reflection) == Ok::<ShaderModel, ShaderError>(s@),
                Err(e) => shader_model(*reflection) == Err::<ShaderModel, ShaderError>(e),
            },
    {
        if reflection.entry_points.len() != 1 {
            return Err(
                ShaderError {
                    path: reflection.path.clone(),
                    parameter: None,
                    error: ModelError::MultipleEntryPoints,
                },
            );
        }
        let entry = &reflection.entry_points[0];
        let (mut params, mut uniforms, mut constants) = match classify_scope(
            &entry.parameters,
            true,
        ) {
            Ok(parts) => parts,
            Err((name, e)) => {
                return Err(
                    ShaderError { path: reflection.path.clone(), parameter: Some(name), error: e },
                );
            },
        };
        let (mut params2, mut uniforms2, mut constants2) = match classify_scope(
            &reflection.parameters,
            false,
        ) {
            Ok(parts) => parts,
            Err((name, e)) => {
                return Err(
                    ShaderError { path: reflection.path.clone(), parameter: Some(name), error: e },
                );
            },
        };
        params.append(&mut params2);
        uniforms.append(&mut uniforms2);
        constants.append(&mut constants2);
        let uniforms = dedupe_bindings(&uniforms);
        Ok(Shader::new(entry.stage, reflection.path.clone(), params, uniforms, constants))
    }

    /// The layout bindings of this shader in descriptor set `set`.
    pub fn get_set_layout_bindings(&self, set: u32) -> (r: Vec<SetLayoutBinding>)
        ensures
            r@ == layout_bindings(uniforms_in_set(self.uniforms@, set), self.ty),
    {
        let ghost p = |u: Uniform| u.set == set;
        let mut ret: Vec<SetLayoutBinding> = Vec::new();
        let mut i: usize = 0;
        while i < self.uniforms.len()
            invariant
                0 <= i <= self.uniforms@.len(),
                ret@ == layout_bindings(uniforms_in_set(self.uniforms@.take(i as int), set), self.ty),
            decreases self.uniforms@.len() - i,
        {
            let uniform = &self.uniforms[i];
            proof {
                reveal(Seq::filter);
                assert(self.uniforms@.take(i + 1).drop_last() =~= self.uniforms@.take(i as int));
            }
            if uniform.set == set {
                ret.push(uniform.get_set_layout_binding(self.ty));
            }
            i = i + 1;
            assert(ret@ =~= layout_bindings(uniforms_in_set(self.uniforms@.take(i as int), set), self.ty));
        }
        assert(self.uniforms@.take(i as int) =~= self.uniforms@);
        ret
    }

    /// The largest descriptor set index this shader uses, or 0.
    pub fn get_descriptor_max(&self) -> (r: u32)
        ensures
            r == max_set(self.uniforms@),
    {
        let mut descriptor_max: u32 = 0;
        let mut i: usize = 0;
        while i < self.uniforms.len()
            invariant
                0 <= i <= self.uniforms@.len(),
                descriptor_max == max_set(self.uniforms@.take(i as int)),
            decreases self.uniforms@.len() - i,
        {
            proof {
                assert(self.uniforms@.take(i + 1).drop_last() =~= self.uniforms@.take(i as int));
            }
            if self.uniforms[i].set > descriptor_max {
                descriptor_max = self.uniforms[i].set;
            }
            i = i + 1;
        }
        assert(self.uniforms@.take(i as int) =~= self.uniforms@);
        descriptor_max
    }

    /// Appends each binding of this shader to the bind operation of its set.
    pub fn get_bind_methods(&self, methods: &mut Vec<BindMethod>)
        requires
            forall|i: int|
                0 <= i < self.uniforms@.len() ==> (#[trigger] self.uniforms@[i]).set < old(
                    methods,
                )@.len(),
        ensures
            final(methods)@.len() == old(methods)@.len(),
            forall|s: u32|
                (s as int) < old(methods)@.len() ==> (#[trigger] final(methods)@[s as int]).uniforms@
                    == old(methods)@[s as int].uniforms@ + uniforms_in_set(self.uniforms@, s),
    {
        let ghost start = methods@;
        let mut i: usize = 0;
        while i < self.uniforms.len()
            invariant
                0 <= i <= self.uniforms@.len(),
                methods@.len() == start.len(),
                forall|j: int|
                    0 <= j < self.uniforms@.len() ==> (#[trigger] self.uniforms@[j]).set
                        < start.len(),
                forall|s: u32|
                    (s as int) < start.len() ==> (#[trigger] methods@[s as int]).uniforms@
                        == start[s as int].uniforms@ + uniforms_in_set(
                        self.uniforms@.take(i as int),
                        s,
                    ),
            decreases self.uniforms@.len() - i,
        {
            let uniform = self.uniforms[i].clone();
            let set = uniform.set;
            proof {
                reveal(Seq::filter);
                assert(self.uniforms@.take(i + 1).drop_last() =~= self.uniforms@.take(i as int));
                assert(self.uniforms@.take(i + 1).last() == uniform);
            }
            methods[set as usize].uniforms.push(uniform);
            i = i + 1;
            assert forall|s: u32| (s as int) < start.len() implies (#[trigger] methods@[s as int]).uniforms@
                    == start[s as int].uniforms@ + uniforms_in_set(self.uniforms@.take(i as int), s) by {
                if s == set {
                    assert(methods@[s as int].uniforms@ =~= start[s as int].uniforms@ + uniforms_in_set(self.uniforms@.take(i as int), s));
                }
            }
        }
        assert(self.uniforms@.take(i as int) =~= self.uniforms@);
    }
}

} // verus!
