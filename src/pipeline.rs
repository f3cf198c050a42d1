//! A pipeline: the shader interfaces of its stages, and what a backend needs
//! from them — descriptor-set layouts, bind operations, push-constant ranges
//! and push operations.

use vstd::prelude::*;

use crate::error::ModelError;
use crate::model::{BindMethod, PushMethod, PushRange, SetLayout, SetLayoutBinding, Uniform};
use crate::order::{sort_by_binding, sort_by_binding_index};
use crate::reflection::ShaderReflection;
use crate::shader::{
    layout_bindings,
    max_set,
    shader_model,
    uniforms_in_set,
    Shader,
    ShaderError,
    ShaderModel,
};

verus! {

/// The bindings of all stages in descriptor set `set`, stage by stage.
pub open spec fn pipeline_set_uniforms(shaders: Seq<Shader>, set: u32) -> Seq<Uniform>
    decreases shaders.len(),
{
    if shaders.len() == 0 {
        seq![]
    } else {
        pipeline_set_uniforms(shaders.drop_last(), set) + uniforms_in_set(
            shaders.last().uniforms@,
            set,
        )
    }
}

/// The layout bindings of all stages in descriptor set `set`, stage by stage.
pub open spec fn pipeline_set_bindings(shaders: Seq<Shader>, set: u32) -> Seq<SetLayoutBinding>
    decreases shaders.len(),
{
    if shaders.len() == 0 {
        seq![]
    } else {
        pipeline_set_bindings(shaders.drop_last(), set) + layout_bindings(
            uniforms_in_set(shaders.last().uniforms@, set),
            shaders.last().ty,
        )
    }
}

/// Some stage has a resource binding.
pub open spec fn any_binding(shaders: Seq<Shader>) -> bool {
    exists|i: int| 0 <= i < shaders.len() && (#[trigger] shaders[i]).uniforms@.len() > 0
}

/// The largest set index over all stages, or 0.
pub open spec fn pipeline_max_set(shaders: Seq<Shader>) -> u32
    decreases shaders.len(),
{
    if shaders.len() == 0 {
        0
    } else {
        let m = pipeline_max_set(shaders.drop_last());
        let n = max_set(shaders.last().uniforms@);
        if n > m {
            n
        } else {
            m
        }
    }
}

/// Number of descriptor sets: one per index up to the largest one used, or
/// none when no stage has a binding.
pub open spec fn set_count(shaders: Seq<Shader>) -> nat {
    if any_binding(shaders) {
        pipeline_max_set(shaders) as nat + 1
    } else {
        0
    }
}

/// One push range per push-constant field, stage by stage.
pub open spec fn push_ranges(shaders: Seq<Shader>) -> Seq<PushRange>
    decreases shaders.len(),
{
    if shaders.len() == 0 {
        seq![]
    } else {
        let sh = shaders.last();
        push_ranges(shaders.drop_last()) + sh.constants@.map_values(
            |p: crate::model::Param| PushRange { ty: p.ty, stage: sh.ty },
        )
    }
}

/// One push operation per push-constant field, stage by stage.
pub open spec fn push_methods(shaders: Seq<Shader>) -> Seq<PushMethod>
    decreases shaders.len(),
{
    if shaders.len() == 0 {
        seq![]
    } else {
        let sh = shaders.last();
        push_methods(shaders.drop_last()) + sh.constants@.map_values(
            |p: crate::model::Param| PushMethod { name: p.name, ty: p.ty, stage: sh.ty },
        )
    }
}

/// `r` is what building a pipeline named `name` from `reflections` gives:
/// the interface of every shader, in order, or the error of the first shader
/// that has none.
pub open spec fn built_from(
    name: Seq<char>,
    reflections: Seq<ShaderReflection>,
    r: Result<Pipeline, ShaderError>,
) -> bool {
    match r {
        Ok(p) => {
            &&& p.name@ == name
            &&& p.shaders@.len() == reflections.len()
            &&& forall|i: int|
                0 <= i < reflections.len() ==> shader_model(#[trigger] reflections[i]) == Ok::<
                    ShaderModel,
                    ShaderError,
                >(p.shaders@[i]@)
        },
        Err(e) => exists|i: int|
            0 <= i < reflections.len() && shader_model(#[trigger] reflections[i]) == Err::<
                ShaderModel,
                ShaderError,
            >(e) && forall|j: int| 0 <= j < i ==> shader_model(#[trigger] reflections[j]) is Ok,
    }
}

proof fn lemma_max_set_bound(us: Seq<Uniform>, j: int)
    requires
        0 <= j < us.len(),
    ensures
        us[j].set <= max_set(us),
    decreases us.len(),
{
    if j < us.len() - 1 {
        lemma_max_set_bound(us.drop_last(), j);
    }
}

proof fn lemma_pipeline_set_bound(shaders: Seq<Shader>, i: int, j: int)
    requires
        0 <= i < shaders.len(),
        0 <= j < shaders[i].uniforms@.len(),
    ensures
        shaders[i].uniforms@[j].set <= pipeline_max_set(shaders),
    decreases shaders.len(),
{
    if i < shaders.len() - 1 {
        lemma_pipeline_set_bound(shaders.drop_last(), i, j);
    } else {
        lemma_max_set_bound(shaders[i].uniforms@, j);
    }
}

/// A graphics pipeline: a name and the interfaces of its stages, in order.
#[derive(Debug)]
pub struct Pipeline {
    pub name: String,
    pub shaders: Vec<Shader>,
}

/// Collects the name and the shaders of a pipeline.
#[derive(Debug)]
pub struct PipelineBuilder {
    pub name: String,
    pub shaders: Vec<ShaderReflection>,
}

impl PipelineBuilder {
    pub fn name(self, name: &str) -> (r: Self)
        ensures
            r.name@ == name@,
            r.shaders@ == self.shaders@,
    {
        PipelineBuilder { name: name.to_owned(), shaders: self.shaders }
    }

    pub fn vert(self, vert: ShaderReflection) -> (r: Self)
        ensures
            r.name == self.name,
            r.shaders@ == self.shaders@.push(vert),
    {
        let mut b = self;
        b.shaders.push(vert);
        b
    }

    pub fn frag(self, frag: ShaderReflection) -> (r: Self)
        ensures
            r.name == self.name,
            r.shaders@ == self.shaders@.push(frag),
    {
        let mut b = self;
        b.shaders.push(frag);
        b
    }

    pub fn build(self) -> (r: Result<Pipeline, ShaderError>)
        requires
            self.name@.len() > 0,
            self.shaders@.len() > 0,
        ensures
            built_from(self.name@, self.shaders@, r),
    {
        Pipeline::new(self.name.as_str(), self.shaders)
    }
}

impl Pipeline {
    pub fn builder() -> (r: PipelineBuilder)
        ensures
            r.name@.len() == 0,
            r.shaders@.len() == 0,
    {
        PipelineBuilder { name: String::new(), shaders: Vec::new() }
    }

    /// Builds the interface of every shader; fails with the first shader
    /// that cannot be classified.
    pub fn new(name: &str, reflections: Vec<ShaderReflection>) -> (r: Result<Pipeline, ShaderError>)
        requires
            reflections@.len() > 0,
        ensures
            built_from(name@, reflections@, r),
    {
        let mut shaders: Vec<Shader> = Vec::new();
        let mut i: usize = 0;
        while i < reflections.len()
            invariant
                0 <= i <= reflections@.len(),
                shaders@.len() == i,
                forall|j: int|
                    0 <= j < i ==> shader_model(#[trigger] reflections@[j]) == Ok::<
                        ShaderModel,
                        ShaderError,
                    >(shaders@[j]@),
            decreases reflections@.len() - i,
        {
            match Shader::from_reflection(&reflections[i]) {
                Ok(shader) => shaders.push(shader),
                Err(e) => {
                    assert(forall|j: int| 0 <= j < i ==> shader_model(#[trigger] reflections@[j]) is Ok);
                    return Err(e);
                },
            }
            i = i + 1;
        }
        Ok(Pipeline { name: name.to_owned(), shaders })
    }

    /// Number of descriptor sets the pipeline uses.
    fn descriptor_count(&self) -> (r: u64)
        ensures
            r == set_count(self.shaders@),
    {
        let ghost sh = self.shaders@;
        let mut any = false;
        let mut m: u32 = 0;
        let mut i: usize = 0;
        while i < self.shaders.len()
            invariant
                sh == self.shaders@,
                0 <= i <= sh.len(),
                any == any_binding(sh.take(i as int)),
                m == pipeline_max_set(sh.take(i as int)),
            decreases sh.len() - i,
        {
            let shader = &self.shaders[i];
            proof {
                let t = sh.take(i + 1);
                assert(t.drop_last() =~= sh.take(i as int));
                assert(t.last() == *shader);
                if any_binding(t) {
                    let k = choose|k: int| 0 <= k < t.len() && (#[trigger] t[k]).uniforms@.len() > 0;
                    if k < i {
                        assert(sh.take(i as int)[k] == t[k]);
                    }
                }
                if any_binding(sh.take(i as int)) {
                    let k = choose|k: int|
                        0 <= k < i && (#[trigger] sh.take(i as int)[k]).uniforms@.len() > 0;
                    assert(t[k] == sh.take(i as int)[k]);
                }
                if shader.uniforms@.len() > 0 {
                    assert(t[i as int] == *shader);
                }
            }
            if shader.uniforms.len() > 0 {
                any = true;
            }
            let n = shader.get_descriptor_max();
            if n > m {
                m = n;
            }
            i = i + 1;
        }
        assert(sh.take(i as int) =~= sh);
        if any {
            m as u64 + 1
        } else {
            0
        }
    }

    /// The layout bindings of descriptor set `set`: those of every stage in
    /// stage order, stably sorted by binding index.
    pub fn get_set_layout_bindings(&self, set: u32) -> (r: Vec<SetLayoutBinding>)
        ensures
            r@ == sort_by_binding(pipeline_set_bindings(self.shaders@, set)),
    {
        let ghost sh = self.shaders@;
        let mut ret: Vec<SetLayoutBinding> = Vec::new();
        let mut i: usize = 0;
        while i < self.shaders.len()
            invariant
                sh == self.shaders@,
                0 <= i <= sh.len(),
                ret@ == pipeline_set_bindings(sh.take(i as int), set),
            decreases sh.len() - i,
        {
            let mut bindings = self.shaders[i].get_set_layout_bindings(set);
            proof {
                assert(sh.take(i + 1).drop_last() =~= sh.take(i as int));
                assert(sh.take(i + 1).last() == sh[i as int]);
            }
            ret.append(&mut bindings);
            i = i + 1;
        }
        assert(sh.take(i as int) =~= sh);
        sort_by_binding_index(ret)
    }

    /// One layout per descriptor set index, from 0 up to the largest one
    /// used; none when no stage has a binding.
    pub fn get_set_layouts(&self) -> (r: Vec<SetLayout>)
        ensures
            r@.len() == set_count(self.shaders@),
            forall|s: int|
                0 <= s < r@.len() ==> (#[trigger] r@[s]).bindings@ == sort_by_binding(
                    pipeline_set_bindings(self.shaders@, s as u32),
                ),
    {
        let count = self.descriptor_count();
        let mut ret: Vec<SetLayout> = Vec::new();
        let mut set: u64 = 0;
        while set < count
            invariant
                count == set_count(self.shaders@),
                count <= u32::MAX as u64 + 1,
                0 <= set <= count,
                ret@.len() == set,
                forall|s: int|
                    0 <= s < set ==> (#[trigger] ret@[s]).bindings@ == sort_by_binding(
                        pipeline_set_bindings(self.shaders@, s as u32),
                    ),
            decreases count - set,
        {
            ret.push(SetLayout::new(self.get_set_layout_bindings(set as u32)));
            set = set + 1;
        }
        ret
    }

    /// One bind operation per descriptor set index, from 0 up to the largest
    /// one used, holding the bindings of every stage in that set, stably
    /// sorted by binding index; none when no stage has a binding. Fails when
    /// a set index in that range has no binding.
    pub fn get_bind_methods(&self) -> (r: Result<Vec<BindMethod>, ModelError>)
        ensures
            match r {
                Ok(methods) => {
                    &&& methods@.len() == set_count(self.shaders@)
                    &&& forall|s: int|
                        0 <= s < methods@.len() ==> (#[trigger] methods@[s]).uniforms@
                            == sort_by_binding(pipeline_set_uniforms(self.shaders@, s as u32))
                    &&& forall|s: int|
                        0 <= s < methods@.len() ==> (#[trigger] pipeline_set_uniforms(
                            self.shaders@,
                            s as u32,
                        )).len() > 0
                },
                Err(e) => {
                    &&& e == ModelError::EmptyBindingSet
                    &&& exists|s: int|
                        0 <= s < set_count(self.shaders@) && (#[trigger] pipeline_set_uniforms(
                            self.shaders@,
                            s as u32,
                        )).len() == 0
                },
            },
    {
        let ghost sh = self.shaders@;
        let count = self.descriptor_count();
        let mut methods: Vec<BindMethod> = Vec::new();
        let mut set: u64 = 0;
        while set < count
            invariant
                count == set_count(sh),
                0 <= set <= count,
                methods@.len() == set,
                forall|t: int| 0 <= t < set ==> (#[trigger] methods@[t]).uniforms@.len() == 0,
            decreases count - set,
        {
            methods.push(BindMethod { uniforms: Vec::new() });
            set = set + 1;
        }
        let mut i: usize = 0;
        while i < self.shaders.len()
            invariant
                sh == self.shaders@,
                0 <= i <= sh.len(),
                count == set_count(sh),
                methods@.len() == count,
                forall|t: u32|
                    (t as int) < count ==> (#[trigger] methods@[t as int]).uniforms@
                        == pipeline_set_uniforms(sh.take(i as int), t),
            decreases sh.len() - i,
        {
            let shader = &self.shaders[i];
            proof {
                assert(sh.take(i + 1).drop_last() =~= sh.take(i as int));
                assert(sh.take(i + 1).last() == *shader);
                if shader.uniforms@.len() > 0 {
                    assert(sh[i as int] == *shader);
                    assert(any_binding(sh));
                }
                assert forall|j: int| 0 <= j < shader.uniforms@.len() implies (
                #[trigger] shader.uniforms@[j]).set < methods@.len() by {
                    lemma_pipeline_set_bound(sh, i as int, j);
                }
                if i == 0 {
                    assert forall|t: u32| (t as int) < count implies (
                    #[trigger] methods@[t as int]).uniforms@ == pipeline_set_uniforms(
                        sh.take(0),
                        t,
                    ) by {
                        assert(methods@[t as int].uniforms@ =~= Seq::<Uniform>::empty());
                    }
                }
            }
            shader.get_bind_methods(&mut methods);
            i = i + 1;
        }
        assert(sh.take(i as int) =~= sh);
        let ghost filled = methods@;
        let mut out: Vec<BindMethod> = Vec::new();
        let mut s: u64 = 0;
        while methods.len() > 0
            invariant
                sh == self.shaders@,
                count == set_count(sh),
                filled.len() == count,
                0 <= s <= count,
                methods@ == filled.skip(s as int),
                out@.len() == s,
                forall|t: u32|
                    (t as int) < count ==> (#[trigger] filled[t as int]).uniforms@
                        == pipeline_set_uniforms(sh, t),
                forall|t: int|
                    0 <= t < s ==> (#[trigger] out@[t]).uniforms@ == sort_by_binding(
                        pipeline_set_uniforms(sh, t as u32),
                    ),
                forall|t: int|
                    0 <= t < s ==> (#[trigger] pipeline_set_uniforms(sh, t as u32)).len() > 0,
            decreases methods@.len(),
        {
            let method = methods.remove(0);
            proof {
                assert(method == filled[s as int]);
                assert(filled[(s as u32) as int] == filled[s as int]);
            }
            if method.uniforms.len() == 0 {
                return Err(ModelError::EmptyBindingSet);
            }
            out.push(BindMethod { uniforms: sort_by_binding_index(method.uniforms) });
            s = s + 1;
            assert(methods@ =~= filled.skip(s as int));
        }
        Ok(out)
    }

    /// One push range per push-constant field of each stage, in order.
    pub fn get_push_ranges(&self) -> (r: Vec<PushRange>)
        ensures
            r@ == push_ranges(self.shaders@),
    {
        let ghost sh = self.shaders@;
        let mut ret: Vec<PushRange> = Vec::new();
        let mut i: usize = 0;
        while i < self.shaders.len()
            invariant
                sh == self.shaders@,
                0 <= i <= sh.len(),
                ret@ == push_ranges(sh.take(i as int)),
            decreases sh.len() - i,
        {
            let shader = &self.shaders[i];
            let ghost before = ret@;
            let mut j: usize = 0;
            while j < shader.constants.len()
                invariant
                    0 <= j <= shader.constants@.len(),
                    ret@ == before + shader.constants@.take(j as int).map_values(
                        |p: crate::model::Param| PushRange { ty: p.ty, stage: shader.ty },
                    ),
                decreases shader.constants@.len() - j,
            {
                ret.push(PushRange::new(shader.constants[j].ty, shader.ty));
                j = j + 1;
                assert(ret@ =~= before + shader.constants@.take(j as int).map_values(
                    |p: crate::model::Param| PushRange { ty: p.ty, stage: shader.ty },
                ));
            }
            proof {
                assert(shader.constants@.take(j as int) =~= shader.constants@);
                assert(sh.take(i + 1).drop_last() =~= sh.take(i as int));
                assert(sh.take(i + 1).last() == *shader);
            }
            i = i + 1;
        }
        assert(sh.take(i as int) =~= sh);
        ret
    }

    /// One push operation per push-constant field of each stage, in order.
    pub fn get_push_methods(&self) -> (r: Vec<PushMethod>)
        ensures
            r@ == push_methods(self.shaders@),
    {
        let ghost sh = self.shaders@;
        let mut ret: Vec<PushMethod> = Vec::new();
        let mut i: usize = 0;
        while i < self.shaders.len()
            invariant
                sh == self.shaders@,
                0 <= i <= sh.len(),
                ret@ == push_methods(sh.take(i as int)),
            decreases sh.len() - i,
        {
            let shader = &self.shaders[i];
            let ghost before = ret@;
            let mut j: usize = 0;
            while j < shader.constants.len()
                invariant
                    0 <= j <= shader.constants@.len(),
                    ret@ == before + shader.constants@.take(j as int).map_values(
                        |p: crate::model::Param| PushMethod { name: p.name, ty: p.ty, stage: shader.ty },
                    ),
                decreases shader.constants@.len() - j,
            {
                let param = &shader.constants[j];
                ret.push(PushMethod::new(param.name.clone(), param.ty, shader.ty));
                j = j + 1;
                assert(ret@ =~= before + shader.constants@.take(j as int).map_values(
                    |p: crate::model::Param| PushMethod { name: p.name, ty: p.ty, stage: shader.ty },
                ));
            }
            proof {
                assert(shader.constants@.take(j as int) =~= shader.constants@);
                assert(sh.take(i + 1).drop_last() =~= sh.take(i as int));
                assert(sh.take(i + 1).last() == *shader);
            }
            i = i + 1;
        }
        assert(sh.take(i as int) =~= sh);
        ret
    }
}

} // verus!
