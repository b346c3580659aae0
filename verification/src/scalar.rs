//! Scalar kinds and their per-dialect names and sizes.

use vstd::prelude::*;

verus! {

/// A scalar kind of the schema: 32-bit float, or a signed or unsigned
/// integer of 1, 2 or 4 bytes.
#[derive(Clone, Copy, PartialEq, Eq, Structural, Debug)]
pub enum GpuScalar {
    I8,
    I16,
    I32,
    F32,
    U8,
    U16,
    U32,
}

/// Byte size of a scalar kind.
pub open spec fn scalar_size(s: GpuScalar) -> int {
    match s {
        GpuScalar::F32 | GpuScalar::I32 | GpuScalar::U32 => 4,
        GpuScalar::I8 | GpuScalar::U8 => 1,
        GpuScalar::I16 | GpuScalar::U16 => 2,
    }
}

/// True for the scalar kinds that are a whole 32-bit word.
pub open spec fn is_word_scalar(s: GpuScalar) -> bool {
    match s {
        GpuScalar::F32 | GpuScalar::I32 | GpuScalar::U32 => true,
        _ => false,
    }
}

/// The Metal name of a scalar kind.
pub open spec fn scalar_metal_name(s: GpuScalar) -> Seq<char> {
    match s {
        GpuScalar::F32 => "float"@,
        GpuScalar::I8 => "char"@,
        GpuScalar::I16 => "short"@,
        GpuScalar::I32 => "int"@,
        GpuScalar::U8 => "uchar"@,
        GpuScalar::U16 => "ushort"@,
        GpuScalar::U32 => "uint"@,
    }
}

/// The HLSL name of a scalar kind. Only 32-bit scalars have native HLSL
/// names; the sub-word kinds are stored in a `uint`.
pub open spec fn scalar_hlsl_name(s: GpuScalar) -> Seq<char> {
    match s {
        GpuScalar::F32 => "float"@,
        GpuScalar::I32 => "int"@,
        GpuScalar::U32 => "uint"@,
        _ => "uint"@,
    }
}

impl GpuScalar {
    /// The Metal source name of this scalar kind.
    pub fn metal_typename(self) -> (r: &'static str)
        ensures
            r@ == scalar_metal_name(self),
    {
        match self {
            GpuScalar::F32 => "float",
            GpuScalar::I8 => "char",
            GpuScalar::I16 => "short",
            GpuScalar::I32 => "int",
            GpuScalar::U8 => "uchar",
            GpuScalar::U16 => "ushort",
            GpuScalar::U32 => "uint",
        }
    }

    /// The HLSL source name of this scalar kind.
    pub fn hlsl_typename(self) -> (r: &'static str)
        ensures
            r@ == scalar_hlsl_name(self),
    {
        match self {
            GpuScalar::F32 => "float",
            GpuScalar::I32 => "int",
            GpuScalar::U32 => "uint",
            _ => "uint",
        }
    }

    /// Byte size of this scalar kind.
    pub fn size(self) -> (r: usize)
        ensures
            r as int == scalar_size(self),
    {
        match self {
            GpuScalar::F32 | GpuScalar::I32 | GpuScalar::U32 => 4,
            GpuScalar::I8 | GpuScalar::U8 => 1,
            GpuScalar::I16 | GpuScalar::U16 => 2,
        }
    }
}

} // verus!
