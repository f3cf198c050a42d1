//! Plain-value description of what a shader compiler reports about one
//! compiled shader: its entry points, its parameters, their categories,
//! binding coordinates and types.

use vstd::prelude::*;

use crate::types::ShaderType;

verus! {

/// The kind of a reflected type.
#[derive(Clone, Copy, Debug, PartialEq, Eq, Structural)]
pub enum TypeKind {
    Unknown,
    Struct,
    Array,
    Matrix,
    Vector,
    Scalar,
    ConstantBuffer,
    Resource,
    SamplerState,
    TextureBuffer,
    ShaderStorageBuffer,
    ParameterBlock,
    GenericTypeParameter,
    Interface,
    OutputStream,
    MeshOutput,
    Specialized,
    Feedback,
    Pointer,
    DynamicResource,
}

/// The binding category of a reflected parameter.
#[derive(Clone, Copy, Debug, PartialEq, Eq, Structural)]
pub enum Category {
    Unassigned,
    Mixed,
    ConstantBuffer,
    ShaderResource,
    UnorderedAccess,
    VaryingInput,
    VaryingOutput,
    SamplerState,
    Uniform,
    DescriptorTableSlot,
    SpecializationConstant,
    PushConstantBuffer,
    RegisterSpace,
    GenericResource,
    RayPayload,
    HitAttributes,
    CallablePayload,
    ShaderRecord,
    ExistentialTypeParam,
    ExistentialObjectParam,
    SubElementRegisterSpace,
    Subpass,
    MetalArgumentBufferElement,
    MetalAttribute,
    MetalPayload,
}

/// A reflected type, as a tree.
#[derive(Debug)]
pub enum ReflectedType {
    /// A vector with the given number of elements.
    Vector(usize),
    /// A matrix with the given numbers of rows and columns.
    Matrix(usize, usize),
    /// A constant buffer wrapping its element type.
    ConstantBuffer(Box<ReflectedType>),
    /// A texture or other resource.
    Resource,
    /// A sampler state.
    SamplerState,
    /// A struct, with the types of its fields in declaration order.
    Struct(Vec<ReflectedType>),
    /// A type of any other kind.
    Other(TypeKind),
}

/// The location of a mixed parameter within one of its sub-categories.
#[derive(Clone, Copy, Debug, PartialEq, Eq, Structural)]
pub struct SubCategory {
    pub category: Category,
    /// Offset of the parameter within the category (binding index, or
    /// input attachment index for a subpass input).
    pub offset: u32,
    /// Register space (descriptor set) of the parameter within the category.
    pub space: u32,
}

/// The layout of one reflected parameter.
#[derive(Debug)]
pub struct ParameterLayout {
    pub name: String,
    pub ty: ReflectedType,
    pub category: Category,
    pub binding_index: u32,
    pub binding_space: u32,
    /// For a mixed parameter, each category its storage spans.
    pub sub_categories: Vec<SubCategory>,
}

/// One entry point of a shader: its stage and its own parameters.
#[derive(Debug)]
pub struct EntryPoint {
    pub stage: ShaderType,
    pub parameters: Vec<ParameterLayout>,
}

/// What the compiler reports about one shader unit.
#[derive(Debug)]
pub struct ShaderReflection {
    /// Where the shader source lives.
    pub path: String,
    pub entry_points: Vec<EntryPoint>,
    /// Program-scope (global) parameters.
    pub parameters: Vec<ParameterLayout>,
}

} // verus!
