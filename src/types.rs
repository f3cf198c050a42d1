//! Semantic types: the closed set of data shapes the model understands, their
//! byte sizes, and how reflected types map onto them.

use vstd::prelude::*;

use crate::error::ModelError;
use crate::reflection::{ReflectedType, TypeKind};

verus! {

/// The pipeline stage a shader belongs to.
#[derive(Clone, Copy, Debug, PartialEq, Eq, Structural)]
pub enum ShaderType {
    Vertex,
    Fragment,
}

/// The semantic type of a shader parameter.
#[derive(Clone, Copy, Debug, PartialEq, Eq, Structural)]
pub enum ParamType {
    Vec2,
    Vec3,
    Vec4,
    Mat3,
    Mat4,
    SampledImage,
    Image,
    Sampler,
    /// A struct, with its byte size rounded up to a multiple of 16.
    Struct(usize),
}

/// Byte size of a semantic type in uniform and push-constant storage.
/// A 3-vector is padded to the footprint of a 4-vector. Images and samplers
/// have no byte size, nor has a struct whose size is unknown (zero).
pub open spec fn byte_size(t: ParamType) -> Option<usize> {
    match t {
        ParamType::Vec2 => Some(8),
        ParamType::Vec3 => Some(16),
        ParamType::Vec4 => Some(16),
        ParamType::Mat3 => Some(36),
        ParamType::Mat4 => Some(64),
        ParamType::Struct(n) => if n == 0 { None } else { Some(n) },
        _ => None,
    }
}

/// `s` rounded up to the next multiple of 16.
pub open spec fn round16(s: nat) -> nat {
    ((s + 15) / 16 * 16) as nat
}

/// Byte size of a reflected type: vectors and matrices have their fixed
/// (padded) sizes, a constant buffer has the size of its element, and a struct
/// the sum of its fields' sizes rounded up to a multiple of 16.
pub open spec fn reflected_size(t: ReflectedType) -> Result<nat, ModelError>
    decreases t,
{
    match t {
        ReflectedType::Vector(n) => {
            if n == 2 {
                Ok(8)
            } else if n == 3 || n == 4 {
                Ok(16)
            } else {
                Err(ModelError::UnsupportedType(TypeKind::Vector, n, 0))
            }
        },
        ReflectedType::Matrix(r, c) => {
            if r == 3 && c == 3 {
                Ok(36)
            } else if r == 4 && c == 4 {
                Ok(64)
            } else {
                Err(ModelError::UnsupportedType(TypeKind::Matrix, r, c))
            }
        },
        ReflectedType::ConstantBuffer(e) => reflected_size(*e),
        ReflectedType::Struct(fs) => match fields_size(fs@) {
            Some(s) => Ok(round16(s)),
            None => Err(ModelError::StructSizeUnresolved),
        },
        ReflectedType::Resource => Err(ModelError::UnsupportedType(TypeKind::Resource, 0, 0)),
        ReflectedType::SamplerState => Err(
            ModelError::UnsupportedType(TypeKind::SamplerState, 0, 0),
        ),
        ReflectedType::Other(k) => Err(ModelError::UnsupportedType(k, 0, 0)),
    }
}

/// Sum of the sizes of a sequence of struct fields, if every field has one.
pub open spec fn fields_size(fs: Seq<ReflectedType>) -> Option<nat>
    decreases fs,
{
    if fs.len() == 0 {
        Some(0)
    } else {
        match (fields_size(fs.drop_last()), reflected_size(fs.last())) {
            (Some(a), Ok(b)) => Some(a + b),
            _ => None,
        }
    }
}

/// A reflected size as a machine size: sizes beyond `usize` make the struct
/// that holds them unresolved.
pub open spec fn machine_size(r: Result<nat, ModelError>) -> Result<usize, ModelError> {
    match r {
        Ok(s) => if s <= usize::MAX {
            Ok(s as usize)
        } else {
            Err(ModelError::StructSizeUnresolved)
        },
        Err(e) => Err(e),
    }
}

/// The semantic type of a reflected type.
pub open spec fn semantic_type(t: ReflectedType) -> Result<ParamType, ModelError>
    decreases t,
{
    match t {
        ReflectedType::Vector(n) => {
            if n == 2 {
                Ok(ParamType::Vec2)
            } else if n == 3 {
                Ok(ParamType::Vec3)
            } else if n == 4 {
                Ok(ParamType::Vec4)
            } else {
                Err(ModelError::UnsupportedType(TypeKind::Vector, n, 0))
            }
        },
        ReflectedType::Matrix(r, c) => {
            if r == 3 && c == 3 {
                Ok(ParamType::Mat3)
            } else if r == 4 && c == 4 {
                Ok(ParamType::Mat4)
            } else {
                Err(ModelError::UnsupportedType(TypeKind::Matrix, r, c))
            }
        },
        ReflectedType::ConstantBuffer(e) => semantic_type(*e),
        ReflectedType::Resource => Ok(ParamType::SampledImage),
        ReflectedType::SamplerState => Ok(ParamType::SampledImage),
        ReflectedType::Struct(_) => match machine_size(reflected_size(t)) {
            Ok(n) => Ok(ParamType::Struct(n)),
            Err(e) => Err(e),
        },
        ReflectedType::Other(k) => Err(ModelError::UnsupportedType(k, 0, 0)),
    }
}

proof fn lemma_round16_bounds(s: nat)
    ensures
        s <= round16(s) < s + 16,
        round16(s) % 16 == 0,
{
    assert(s <= round16(s) < s + 16 && round16(s) % 16 == 0) by (nonlinear_arith);
}

/// A prefix of a field list that has a size has a size no larger.
proof fn lemma_fields_size_prefix(fs: Seq<ReflectedType>, j: int)
    requires
        0 <= j <= fs.len(),
        fields_size(fs) is Some,
    ensures
        fields_size(fs.take(j)) is Some,
        fields_size(fs.take(j))->0 <= fields_size(fs)->0,
    decreases fs.len() - j,
{
    if j < fs.len() {
        lemma_fields_size_prefix(fs, j + 1);
        let p = fs.take(j + 1);
        assert(p.drop_last() =~= fs.take(j));
    } else {
        assert(fs.take(j) =~= fs);
    }
}

/// A 3-vector keeps the semantic type `Vec3` but occupies 16 bytes, the
/// padded footprint of a 4-vector, both as a reflected type and as a
/// semantic type.
pub proof fn lemma_vec3_padded(t: ReflectedType)
    requires
        semantic_type(t) == Ok::<ParamType, ModelError>(ParamType::Vec3),
    ensures
        reflected_size(t) == Ok::<nat, ModelError>(16),
        byte_size(ParamType::Vec3) == Some(16usize),
    decreases t,
{
    match t {
        ReflectedType::ConstantBuffer(e) => lemma_vec3_padded(*e),
        ReflectedType::Struct(_) => {
            assert(semantic_type(t) is Err || semantic_type(t)->Ok_0 is Struct);
        },
        _ => {},
    }
}

/// A struct whose fields' sizes sum to `S` has size `ceil(S / 16) * 16`: the
/// least multiple of 16 that is at least `S`.
pub proof fn lemma_struct_alignment(t: ReflectedType)
    requires
        t is Struct,
        fields_size(t->Struct_0@) is Some,
    ensures
        ({
            let s = fields_size(t->Struct_0@)->0;
            let padded = round16(s);
            &&& reflected_size(t) == Ok::<nat, ModelError>(padded)
            &&& padded % 16 == 0
            &&& s <= padded < s + 16
            &&& padded <= usize::MAX ==> semantic_type(t) == Ok::<ParamType, ModelError>(
                ParamType::Struct(padded as usize),
            )
        }),
{
    lemma_round16_bounds(fields_size(t->Struct_0@)->0);
}

impl ParamType {
    /// Byte size of this type, if it has one.
    pub fn get_size(&self) -> (r: Option<usize>)
        ensures
            r == byte_size(*self),
    {
        match self {
            ParamType::Vec2 => Some(8),
            ParamType::Vec3 => Some(16),
            ParamType::Vec4 => Some(16),
            ParamType::Mat3 => Some(36),
            ParamType::Mat4 => Some(64),
            ParamType::Struct(size) => if *size == 0 {
                None
            } else {
                Some(*size)
            },
            _ => None,
        }
    }

    /// Byte size of a reflected type.
    pub fn get_type_size(ty: &ReflectedType) -> (r: Result<usize, ModelError>)
        ensures
            r == machine_size(reflected_size(*ty)),
        decreases ty,
    {
        match ty {
            ReflectedType::Vector(n) => {
                if *n == 2 {
                    Ok(8)
                } else if *n == 3 || *n == 4 {
                    Ok(16)
                } else {
                    Err(ModelError::UnsupportedType(TypeKind::Vector, *n, 0))
                }
            },
            ReflectedType::Matrix(r, c) => {
                if *r == 3 && *c == 3 {
                    Ok(36)
                } else if *r == 4 && *c == 4 {
                    Ok(64)
                } else {
                    Err(ModelError::UnsupportedType(TypeKind::Matrix, *r, *c))
                }
            },
            ReflectedType::ConstantBuffer(e) => Self::get_type_size(e),
            ReflectedType::Struct(fields) => {
                assert(*ty == ReflectedType::Struct(*fields));
                let mut size: usize = 0;
                let mut i: usize = 0;
                while i < fields.len()
                    invariant
                        *ty == ReflectedType::Struct(*fields),
                        0 <= i <= fields@.len(),
                        fields_size(fields@.take(i as int)) == Some(size as nat),
                    decreases fields@.len() - i,
                {
                    assert(fields@.take(i + 1).drop_last() =~= fields@.take(i as int));
                    assert(fields@.take(i + 1).last() == fields@[i as int]);
                    assert(decreases_to!(*ty => fields@[i as int]));
                    let field_size = Self::get_type_size(&fields[i]);
                    match field_size {
                        Ok(n) => {
                            if n > usize::MAX - size {
                                proof {
                                    assert(reflected_size(fields@[i as int]) == Ok::<nat, ModelError>(n as nat));
                                    assert(fields_size(fields@.take(i + 1)) == Some((size + n) as nat));
                                    if fields_size(fields@) is Some {
                                        lemma_fields_size_prefix(fields@, i + 1);
                                        lemma_round16_bounds(fields_size(fields@)->0);
                                    }
                                }
                                return Err(ModelError::StructSizeUnresolved);
                            }
                            size = size + n;
                        },
                        Err(_) => {
                            proof {
                                if fields_size(fields@) is Some {
                                    lemma_fields_size_prefix(fields@, i + 1);
                                    lemma_round16_bounds(fields_size(fields@)->0);
                                }
                            }
                            return Err(ModelError::StructSizeUnresolved);
                        },
                    }
                    i = i + 1;
                }
                assert(fields@.take(i as int) =~= fields@);
                proof {
                    lemma_round16_bounds(size as nat);
                }
                if size > usize::MAX - 15 {
                    return Err(ModelError::StructSizeUnresolved);
                }
                Ok((size + 15) / 16 * 16)
            },
            ReflectedType::Resource => Err(ModelError::UnsupportedType(TypeKind::Resource, 0, 0)),
            ReflectedType::SamplerState => Err(
                ModelError::UnsupportedType(TypeKind::SamplerState, 0, 0),
            ),
            ReflectedType::Other(k) => Err(ModelError::UnsupportedType(*k, 0, 0)),
        }
    }

    /// The semantic type of a reflected type.
    pub fn from_type(ty: &ReflectedType) -> (r: Result<ParamType, ModelError>)
        ensures
            r == semantic_type(*ty),
        decreases ty,
    {
        match ty {
            ReflectedType::Vector(n) => {
                if *n == 2 {
                    Ok(ParamType::Vec2)
                } else if *n == 3 {
                    Ok(ParamType::Vec3)
                } else if *n == 4 {
                    Ok(ParamType::Vec4)
                } else {
                    Err(ModelError::UnsupportedType(TypeKind::Vector, *n, 0))
                }
            },
            ReflectedType::Matrix(r, c) => {
                if *r == 3 && *c == 3 {
                    Ok(ParamType::Mat3)
                } else if *r == 4 && *c == 4 {
                    Ok(ParamType::Mat4)
                } else {
                    Err(ModelError::UnsupportedType(TypeKind::Matrix, *r, *c))
                }
            },
            ReflectedType::ConstantBuffer(e) => Self::from_type(e),
            ReflectedType::Resource => Ok(ParamType::SampledImage),
            ReflectedType::SamplerState => Ok(ParamType::SampledImage),
            ReflectedType::Struct(_) => match Self::get_type_size(ty) {
                Ok(n) => Ok(ParamType::Struct(n)),
                Err(e) => Err(e),
            },
            ReflectedType::Other(k) => Err(ModelError::UnsupportedType(*k, 0, 0)),
        }
    }
}

} // verus!
