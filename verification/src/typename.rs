//! Source names of schema types in the two target dialects.

use vstd::prelude::*;
use vstd::string::StringExecFns;

use crate::model::{GpuType, MAX_SIZE};
use crate::scalar::{
    is_word_scalar, scalar_hlsl_name, scalar_metal_name, scalar_size, GpuScalar,
};
use crate::text::{dec_of, push_dec, uints_of};

verus! {

/// The Metal name of a type. A vector is the scalar name with its lane
/// count; an inline struct is its packed struct; a typed reference is the
/// target's `Ref` typedef and any other reference a raw `uint`.
pub open spec fn type_metal_name(t: GpuType) -> Seq<char> {
    match t {
        GpuType::Scalar(s) => scalar_metal_name(s),
        GpuType::Vector(s, n) => scalar_metal_name(s) + dec_of(n as int),
        GpuType::InlineStruct(name) => name@ + "Packed"@,
        GpuType::Ref(inner) => match *inner {
            GpuType::InlineStruct(name) => name@ + "Ref"@,
            _ => "uint"@,
        },
    }
}

/// The HLSL name of a type. Sub-word vectors are stored as the `uint`
/// vector of the words they occupy; an inline struct keeps its own name.
pub open spec fn type_hlsl_name(t: GpuType) -> Seq<char> {
    match t {
        GpuType::Scalar(s) => scalar_hlsl_name(s),
        GpuType::Vector(s, n) => if is_word_scalar(s) {
            scalar_hlsl_name(s) + dec_of(n as int)
        } else {
            let w = uints_of(scalar_size(s) * n);
            if w == 1 {
                "uint"@
            } else {
                "uint"@ + dec_of(w)
            }
        },
        GpuType::InlineStruct(name) => name@,
        GpuType::Ref(inner) => match *inner {
            GpuType::InlineStruct(name) => name@ + "Ref"@,
            _ => "uint"@,
        },
    }
}

/// A vector type small enough for its word count to be computed.
pub open spec fn vector_bounded(t: GpuType) -> bool {
    match t {
        GpuType::Vector(s, n) => scalar_size(s) * n <= MAX_SIZE,
        _ => true,
    }
}

impl GpuType {
    /// The Metal source name of this type.
    pub fn metal_typename(&self) -> (r: String)
        ensures
            r@ == type_metal_name(*self),
    {
        match self {
            GpuType::Scalar(scalar) => String::from_str(scalar.metal_typename()),
            GpuType::Vector(scalar, size) => {
                let mut s = String::from_str(scalar.metal_typename());
                push_dec(&mut s, *size);
                s
            },
            GpuType::InlineStruct(name) => {
                let mut s = name.clone();
                s.append("Packed");
                s
            },
            GpuType::Ref(inner) => match &**inner {
                GpuType::InlineStruct(name) => {
                    let mut s = name.clone();
                    s.append("Ref");
                    s
                },
                _ => String::from_str("uint"),
            },
        }
    }

    /// The HLSL source name of this type.
    pub fn hlsl_typename(&self) -> (r: String)
        requires
            vector_bounded(*self),
        ensures
            r@ == type_hlsl_name(*self),
    {
        match self {
            GpuType::Scalar(scalar) => String::from_str(scalar.hlsl_typename()),
            GpuType::Vector(scalar, size) => match scalar {
                GpuScalar::F32 | GpuScalar::I32 | GpuScalar::U32 => {
                    let mut s = String::from_str(scalar.hlsl_typename());
                    push_dec(&mut s, *size);
                    s
                },
                _ => {
                    let words = crate::text::size_in_uints(scalar.size() * *size);
                    if words == 1 {
                        String::from_str("uint")
                    } else {
                        let mut s = String::from_str("uint");
                        push_dec(&mut s, words);
                        s
                    }
                },
            },
            GpuType::InlineStruct(name) => name.clone(),
            GpuType::Ref(inner) => match &**inner {
                GpuType::InlineStruct(name) => {
                    let mut s = name.clone();
                    s.append("Ref");
                    s
                },
                _ => String::from_str("uint"),
            },
        }
    }
}

} // verus!
