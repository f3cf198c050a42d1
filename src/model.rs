//! The resource-binding model: parameters, bindings, set layouts and the
//! bind and push operations derived from them.

use vstd::prelude::*;

use crate::order::BindingSlot;
use crate::types::{ParamType, ShaderType};

verus! {

/// A shader parameter: a vertex attribute, a uniform, a sampler, a push
/// constant, and so on.
#[derive(Debug)]
pub struct Param {
    pub name: String,
    pub ty: ParamType,
}

impl Clone for Param {
    fn clone(&self) -> (r: Self)
        ensures
            r == *self,
    {
        Param { name: self.name.clone(), ty: self.ty }
    }
}

impl Param {
    pub fn new(name: String, ty: ParamType) -> (r: Self)
        ensures
            r.name == name,
            r.ty == ty,
    {
        Self { name, ty }
    }
}

/// A parameter bound to a descriptor slot `(set, binding)`.
#[derive(Debug)]
pub struct Uniform {
    pub param: Param,
    pub set: u32,
    pub binding: u32,
    /// Meaningful only for subpass inputs, which have type `Image`.
    pub input_attachment_index: u32,
}

impl Clone for Uniform {
    fn clone(&self) -> (r: Self)
        ensures
            r == *self,
    {
        Uniform {
            param: self.param.clone(),
            set: self.set,
            binding: self.binding,
            input_attachment_index: self.input_attachment_index,
        }
    }
}

impl BindingSlot for Uniform {
    open spec fn slot(&self) -> u32 {
        self.binding
    }

    fn binding_index(&self) -> (r: u32) {
        self.binding
    }
}

/// Kind of descriptor that backs a parameter.
#[derive(Clone, Copy, Debug, PartialEq, Eq, Structural)]
pub enum DescriptorType {
    Uniform,
    CombinedSampler,
    InputAttachment,
}

/// The descriptor kind of a semantic type: sampled images use combined
/// image samplers, images are input attachments, all else is a uniform buffer.
pub open spec fn descriptor_type_of(ty: ParamType) -> DescriptorType {
    match ty {
        ParamType::SampledImage => DescriptorType::CombinedSampler,
        ParamType::Image => DescriptorType::InputAttachment,
        _ => DescriptorType::Uniform,
    }
}

impl From<ParamType> for DescriptorType {
    fn from(param: ParamType) -> Self {
        match param {
            ParamType::SampledImage => DescriptorType::CombinedSampler,
            ParamType::Image => DescriptorType::InputAttachment,
            _ => DescriptorType::Uniform,
        }
    }
}

impl vstd::std_specs::convert::FromSpecImpl<ParamType> for DescriptorType {
    open spec fn obeys_from_spec() -> bool {
        true
    }

    open spec fn from_spec(v: ParamType) -> Self {
        descriptor_type_of(v)
    }
}

/// Host-side resource kind that a bind operation takes for a parameter.
#[derive(Clone, Copy, Debug, PartialEq, Eq, Structural)]
pub enum VkrType {
    Buffer,
    Texture,
}

/// Images, sampled or not, are bound as textures; all else as buffers.
pub open spec fn vkr_type_of(ty: ParamType) -> VkrType {
    match ty {
        ParamType::SampledImage | ParamType::Image => VkrType::Texture,
        _ => VkrType::Buffer,
    }
}

impl From<ParamType> for VkrType {
    fn from(ty: ParamType) -> Self {
        match ty {
            ParamType::SampledImage | ParamType::Image => VkrType::Texture,
            _ => VkrType::Buffer,
        }
    }
}

impl vstd::std_specs::convert::FromSpecImpl<ParamType> for VkrType {
    open spec fn obeys_from_spec() -> bool {
        true
    }

    open spec fn from_spec(v: ParamType) -> Self {
        vkr_type_of(v)
    }
}

/// One binding of a descriptor-set layout.
#[derive(Clone, Copy, Debug, PartialEq, Eq, Structural)]
pub struct SetLayoutBinding {
    pub stage: ShaderType,
    pub descriptor_type: DescriptorType,
    pub binding: u32,
}

impl BindingSlot for SetLayoutBinding {
    open spec fn slot(&self) -> u32 {
        self.binding
    }

    fn binding_index(&self) -> (r: u32) {
        self.binding
    }
}

/// The layout binding of uniform `u` as seen from `stage`.
pub open spec fn layout_binding_of(u: Uniform, stage: ShaderType) -> SetLayoutBinding {
    SetLayoutBinding {
        stage,
        descriptor_type: descriptor_type_of(u.param.ty),
        binding: u.binding,
    }
}

impl Uniform {
    pub fn new(param: Param, set: u32, binding: u32, input_attachment_index: u32) -> (r: Self)
        ensures
            r == (Uniform { param, set, binding, input_attachment_index }),
    {
        Self { param, set, binding, input_attachment_index }
    }

    pub fn get_set_layout_binding(&self, stage: ShaderType) -> (r: SetLayoutBinding)
        ensures
            r == layout_binding_of(*self, stage),
    {
        SetLayoutBinding {
            stage,
            descriptor_type: DescriptorType::from(self.param.ty),
            binding: self.binding,
        }
    }
}

/// The layout of one descriptor set.
#[derive(Debug)]
pub struct SetLayout {
    pub bindings: Vec<SetLayoutBinding>,
}

impl SetLayout {
    pub fn new(bindings: Vec<SetLayoutBinding>) -> (r: SetLayout)
        ensures
            r.bindings@ == bindings@,
    {
        Self { bindings }
    }
}

/// A parameter of a bind operation.
#[derive(Debug)]
pub struct MethodParam {
    pub name: String,
    pub ty: ParamType,
}

/// What a bind operation writes for one binding.
#[derive(Debug)]
pub struct WriteSetInfo {
    pub name: String,
    pub ty: ParamType,
}

/// One descriptor write of a bind operation.
#[derive(Debug)]
pub struct WriteSet {
    pub binding: u32,
    pub descriptor_type: DescriptorType,
    pub info: WriteSetInfo,
}

/// `w` is the descriptor write for uniform `u`.
pub open spec fn write_set_for(w: WriteSet, u: Uniform) -> bool {
    &&& w.binding == u.binding
    &&& w.descriptor_type == descriptor_type_of(u.param.ty)
    &&& w.info.name == u.param.name
    &&& w.info.ty == u.param.ty
}

/// The operation that binds every resource of one descriptor set.
#[derive(Debug)]
pub struct BindMethod {
    pub uniforms: Vec<Uniform>,
}

impl BindMethod {
    /// One parameter per binding, in binding order.
    pub fn get_method_params(&self) -> (r: Vec<MethodParam>)
        ensures
            r@.len() == self.uniforms@.len(),
            forall|i: int|
                0 <= i < r@.len() ==> r@[i].name == self.uniforms@[i].param.name && r@[i].ty
                    == self.uniforms@[i].param.ty,
    {
        let mut ret: Vec<MethodParam> = Vec::new();
        let mut i: usize = 0;
        while i < self.uniforms.len()
            invariant
                0 <= i <= self.uniforms@.len(),
                ret@.len() == i,
                forall|j: int|
                    0 <= j < i ==> ret@[j].name == self.uniforms@[j].param.name && ret@[j].ty
                        == self.uniforms@[j].param.ty,
            decreases self.uniforms@.len() - i,
        {
            let uniform = &self.uniforms[i];
            ret.push(MethodParam { name: uniform.param.name.clone(), ty: uniform.param.ty });
            i = i + 1;
        }
        ret
    }

    /// One descriptor write per binding, in binding order.
    pub fn get_write_sets(&self) -> (r: Vec<WriteSet>)
        ensures
            r@.len() == self.uniforms@.len(),
            forall|i: int|
                0 <= i < r@.len() ==> write_set_for(#[trigger] r@[i], self.uniforms@[i]),
    {
        let mut ret: Vec<WriteSet> = Vec::new();
        let mut i: usize = 0;
        while i < self.uniforms.len()
            invariant
                0 <= i <= self.uniforms@.len(),
                ret@.len() == i,
                forall|j: int|
                    0 <= j < i ==> write_set_for(#[trigger] ret@[j], self.uniforms@[j]),
            decreases self.uniforms@.len() - i,
        {
            let uniform = &self.uniforms[i];
            ret.push(
                WriteSet {
                    binding: uniform.binding,
                    descriptor_type: DescriptorType::from(uniform.param.ty),
                    info: WriteSetInfo { name: uniform.param.name.clone(), ty: uniform.param.ty },
                },
            );
            i = i + 1;
        }
        ret
    }
}

/// A push-constant range of the pipeline layout; its offset is always 0.
#[derive(Clone, Copy, Debug, PartialEq, Eq, Structural)]
pub struct PushRange {
    pub ty: ParamType,
    pub stage: ShaderType,
}

impl PushRange {
    pub fn new(ty: ParamType, stage: ShaderType) -> (r: Self)
        ensures
            r == (PushRange { ty, stage }),
    {
        Self { ty, stage }
    }
}

/// The operation that writes one push-constant field.
#[derive(Debug)]
pub struct PushMethod {
    pub name: String,
    pub ty: ParamType,
    pub stage: ShaderType,
}

impl Clone for PushMethod {
    fn clone(&self) -> (r: Self)
        ensures
            r == *self,
    {
        PushMethod { name: self.name.clone(), ty: self.ty, stage: self.stage }
    }
}

impl PushMethod {
    pub fn new(name: String, ty: ParamType, stage: ShaderType) -> (r: Self)
        ensures
            r == (PushMethod { name, ty, stage }),
    {
        Self { name, ty, stage }
    }
}

} // verus!
