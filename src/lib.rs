//! Resource-binding model for graphics pipelines, synthesised from shader
//! reflection data.
//!
//! The library classifies every reflected shader parameter, merges redundant
//! sampler bindings, groups bindings into descriptor sets and derives the
//! push-constant ranges and bind/push operations a backend needs.

pub mod dedupe;
pub mod error;
pub mod model;
pub mod order;
pub mod pipeline;
pub mod reflection;
pub mod shader;
pub mod types;

pub use dedupe::dedupe_bindings;
pub use error::ModelError;
pub use model::{
    BindMethod, DescriptorType, MethodParam, Param, PushMethod, PushRange, SetLayout,
    SetLayoutBinding, Uniform, VkrType, WriteSet, WriteSetInfo,
};
pub use order::{sort_by_binding_index, BindingSlot};
pub use pipeline::{Pipeline, PipelineBuilder};
pub use reflection::{
    Category, EntryPoint, ParameterLayout, ReflectedType, ShaderReflection, SubCategory, TypeKind,
};
pub use shader::{classify_param, ParamRole, Shader, ShaderError};
pub use types::{ParamType, ShaderType};
