use vstd::prelude::*;

use crate::reflection::{Category, TypeKind};

verus! {

/// Why a shader interface or a pipeline could not be synthesised.
#[derive(Clone, Copy, Debug, PartialEq, Eq, Structural)]
pub enum ModelError {
    /// A reflected type whose shape is outside the semantic type set:
    /// its kind, and its dimensions (element count, or rows and columns).
    UnsupportedType(TypeKind, usize, usize),
    /// A parameter category the classifier does not handle.
    UnsupportedCategory(Category),
    /// A sub-category of a mixed parameter that cannot be combined.
    UnsupportedSubCategory(Category),
    /// A reflection unit that does not expose exactly one entry point.
    MultipleEntryPoints,
    /// A bind operation requested for a set that holds no binding.
    EmptyBindingSet,
    /// A struct whose byte size cannot be computed.
    StructSizeUnresolved,
}

} // verus!
