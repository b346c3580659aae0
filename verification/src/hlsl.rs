//! The HLSL emitter: bit-extraction helpers, packed structs and readers,
//! per-field accessors, unpackers back to the logical form, enum bodies
//! and bulk copies, and size and tag macros.

use vstd::prelude::*;
use vstd::string::StringExecFns;

use crate::model::{type_size_full, type_wf, GpuModule, GpuType, MAX_SIZE};
use crate::pack::{
    close_ty, slot_closed_wf, stored_min, stored_sum, stored_wf, PackedField, SlotV, StoredField,
    StoredV,
};
use crate::scalar::{is_word_scalar, scalar_hlsl_name, scalar_size, GpuScalar};
use crate::text::{dec_of, push_dec, simplified_add, simplified_add_spec, uints_of};
use crate::typename::type_hlsl_name;

verus! {

/// The text of the helper that extracts a `bits`-wide value from a word.
pub open spec fn extractor_text(bits: u32) -> Seq<char> {
    "inline uint extract_"@ + dec_of(bits as int) + "bit_value(uint bit_shift, uint package) {\n"@
        + "    uint mask = "@ + dec_of((1u64 << (bits as u64)) as int - 1) + ";\n"@
        + "    uint result = (package >> bit_shift) & mask;\n\n    return result;\n}\n\n"@
}

/// Emits the helper that extracts a value of `size_in_bits` bits from a
/// 32-bit package at a given shift.
pub fn generate_hlsl_value_extractor(size_in_bits: u32) -> (r: String)
    requires
        size_in_bits <= 31,
    ensures
        r@ == extractor_text(size_in_bits),
{
    let mut extractor = String::new();
    proof {
        assert((1u64 << (size_in_bits as u64)) >= 1 && (1u64 << (size_in_bits as u64))
            < 0x1_0000_0000) by (bit_vector)
            requires
                size_in_bits <= 31,
        ;
    }
    let mask64: u64 = (1u64 << size_in_bits) - 1;
    let mask_width: usize = mask64 as usize;
    extractor.append("inline uint extract_");
    push_dec(&mut extractor, size_in_bits as usize);
    extractor.append("bit_value(uint bit_shift, uint package) {\n");
    extractor.append("    uint mask = ");
    push_dec(&mut extractor, mask_width);
    extractor.append(";\n");
    extractor.append("    uint result = (package >> bit_shift) & mask;\n\n    return result;\n}\n\n");
    extractor
}

/// A stored field for which an unpacker is emitted: a sub-word scalar or
/// a sub-word vector.
pub open spec fn is_packed_stored(t: GpuType) -> bool {
    match t {
        GpuType::Scalar(s) => !is_word_scalar(s),
        GpuType::Vector(s, _) => !is_word_scalar(s),
        _ => false,
    }
}

/// The lane extraction lines of a vector unpacker, first `n` lanes:
/// lane `i` is taken `bits` wide at shift `32 - (i + 1) * bits`,
/// most significant lane first.
pub open spec fn lane_lines(pf_name: Seq<char>, bits: int, n: int) -> Seq<char>
    decreases n,
{
    if n <= 0 {
        Seq::empty()
    } else {
        lane_lines(pf_name, bits, n - 1) + "    result["@ + dec_of(n - 1) + "] = extract_"@
            + dec_of(bits) + "bit_value("@ + dec_of(32 - n * bits) + ", "@ + pf_name + ");\n"@
    }
}

/// The head of a scalar unpacker.
pub open spec fn unpacker_scalar_head(
    sf: StoredV,
    ps_name: Seq<char>,
    pf_name: Seq<char>,
    s: GpuScalar,
) -> Seq<char> {
    "inline uint "@ + ps_name + "_unpack_"@ + sf.name + "(uint "@ + pf_name + ") {\n    "@
        + scalar_hlsl_name(s) + " result;\n\n"@
}

/// The one extraction line of a scalar unpacker.
pub open spec fn unpacker_scalar_line(sf: StoredV, pf_name: Seq<char>, s: GpuScalar) -> Seq<char> {
    "    result = extract_"@ + dec_of(8 * scalar_size(s)) + "bit_value("@ + dec_of(sf.offset)
        + ", "@ + pf_name + ");\n"@
}

/// The head of a vector unpacker.
pub open spec fn unpacker_vector_head(
    sf: StoredV,
    ps_name: Seq<char>,
    pf_name: Seq<char>,
    s: GpuScalar,
    n: int,
) -> Seq<char> {
    let w = uints_of(scalar_size(s) * n);
    "inline uint"@ + dec_of(n) + " "@ + ps_name + "_unpack_"@ + sf.name + "(uint"@ + dec_of(w)
        + " "@ + pf_name + ") {\n    "@ + scalar_hlsl_name(s) + dec_of(n) + " result;\n\n"@
}

/// The shared tail of every unpacker.
pub open spec fn unpacker_tail() -> Seq<char> {
    "    return result;\n"@ + "}\n\n"@
}

/// The unpacker emitted for one stored field; empty for an inline struct
/// (which is unpacked by its own routine).
#[verifier::opaque]
pub open spec fn unpacker_text(sf: StoredV, ps_name: Seq<char>, pf_name: Seq<char>) -> Seq<char> {
    match sf.ty {
        GpuType::Scalar(s) => unpacker_scalar_head(sf, ps_name, pf_name, s) + unpacker_scalar_line(
            sf,
            pf_name,
            s,
        ) + unpacker_tail(),
        GpuType::Vector(s, n) => unpacker_vector_head(sf, ps_name, pf_name, s, n as int)
            + lane_lines(pf_name, 8 * scalar_size(s), n as int) + unpacker_tail(),
        _ => Seq::empty(),
    }
}

/// The unpacker for a lone sub-word scalar stored field.
#[verifier::loop_isolation(false)]
#[verifier::rlimit(60)]
fn scalar_unpacker(sf: &StoredField, ps: &str, pf: &str) -> (r: String)
    requires
        sf@.ty is Scalar,
        !is_word_scalar(sf@.ty->Scalar_0),
    ensures
        r@ == unpacker_text(sf@, ps@, pf@),
{
    let scalar = match &sf.ty {
        GpuType::Scalar(s) => *s,
        _ => {
            proof {
                assert(false);
            }
            GpuScalar::U8
        },
    };
    let size_in_bits: usize = 8 * scalar.size();
    let mut unpacker = String::new();
    unpacker.append("inline uint ");
    unpacker.append(ps);
    unpacker.append("_unpack_");
    unpacker.append(sf.name.as_str());
    unpacker.append("(uint ");
    unpacker.append(pf);
    unpacker.append(") {\n    ");
    unpacker.append(scalar.hlsl_typename());
    unpacker.append(" result;\n\n");
    proof {
        assert(unpacker@ =~= unpacker_scalar_head(sf@, ps@, pf@, scalar));
    }
    let ghost head = unpacker@;
    unpacker.append("    result = extract_");
    push_dec(&mut unpacker, size_in_bits);
    unpacker.append("bit_value(");
    push_dec(&mut unpacker, sf.offset);
    unpacker.append(", ");
    unpacker.append(pf);
    unpacker.append(");\n");
    proof {
        assert(unpacker@ =~= head + unpacker_scalar_line(sf@, pf@, scalar));
    }
    unpacker.append("    return result;\n");
    unpacker.append("}\n\n");
    proof {
        reveal(unpacker_text);
        assert(unpacker@ =~= unpacker_text(sf@, ps@, pf@));
    }
    unpacker
}

/// The unpacker for a sub-word vector stored field: one extraction per
/// lane, most significant lane first.
#[verifier::loop_isolation(false)]
#[verifier::rlimit(100)]
#[verifier::spinoff_prover]
fn vector_unpacker(sf: &StoredField, ps: &str, pf: &str) -> (r: String)
    requires
        sf@.ty is Vector,
        !is_word_scalar(sf@.ty->Vector_0),
        1 <= sf@.ty->Vector_1,
        scalar_size(sf@.ty->Vector_0) * sf@.ty->Vector_1 <= 4,
    ensures
        r@ == unpacker_text(sf@, ps@, pf@),
{
    let (scalar, unpacked_size) = match &sf.ty {
        GpuType::Vector(s, n) => (*s, *n),
        _ => {
            proof {
                assert(false);
            }
            (GpuScalar::U8, 0)
        },
    };
    let scalar_size_in_bits: usize = 8 * scalar.size();
    let size_in_uints = crate::text::size_in_uints(scalar.size() * unpacked_size);
    let mut unpacker = String::new();
    unpacker.append("inline uint");
    push_dec(&mut unpacker, unpacked_size);
    unpacker.append(" ");
    unpacker.append(ps);
    unpacker.append("_unpack_");
    unpacker.append(sf.name.as_str());
    unpacker.append("(uint");
    push_dec(&mut unpacker, size_in_uints);
    unpacker.append(" ");
    unpacker.append(pf);
    unpacker.append(") {\n    ");
    unpacker.append(scalar.hlsl_typename());
    push_dec(&mut unpacker, unpacked_size);
    unpacker.append(" result;\n\n");
    proof {
        assert(unpacker@ =~= unpacker_vector_head(sf@, ps@, pf@, scalar, unpacked_size as int));
    }
    let ghost head = unpacker@;
    let mut i: usize = 0;
    while i < unpacked_size
        invariant
            i <= unpacked_size,
            unpacker@ == head + lane_lines(pf@, 8 * scalar_size(scalar), i as int),
        decreases unpacked_size - i,
    {
        proof {
            assert((i + 1) * (8 * scalar_size(scalar)) <= 32) by (nonlinear_arith)
                requires
                    scalar_size(scalar) >= 1,
                    i + 1 <= unpacked_size as int,
                    scalar_size(scalar) * (unpacked_size as int) <= 4,
            ;
        }
        unpacker.append("    result[");
        push_dec(&mut unpacker, i);
        unpacker.append("] = extract_");
        push_dec(&mut unpacker, scalar_size_in_bits);
        unpacker.append("bit_value(");
        push_dec(&mut unpacker, 32 - (i + 1) * scalar_size_in_bits);
        unpacker.append(", ");
        unpacker.append(pf);
        unpacker.append(");\n");
        i += 1;
    }
    unpacker.append("    return result;\n");
    unpacker.append("}\n\n");
    proof {
        reveal(unpacker_text);
        assert(unpacker@ =~= unpacker_text(sf@, ps@, pf@));
    }
    unpacker
}

impl StoredField {
    /// The unpacker for this stored field: it extracts the field's bits
    /// from the packed slot `packed_field_name` of `packed_struct_name`.
    /// An inline struct contributes nothing.
    pub fn generate_hlsl_unpacker(&self, packed_struct_name: &str, packed_field_name: &str) -> (r:
        String)
        requires
            match self@.ty {
                GpuType::Scalar(s) => !is_word_scalar(s),
                GpuType::Vector(s, n) => !is_word_scalar(s) && 1 <= n && scalar_size(s) * n <= 4,
                GpuType::InlineStruct(_) => true,
                GpuType::Ref(_) => false,
            },
        ensures
            r@ == unpacker_text(self@, packed_struct_name@, packed_field_name@),
    {
        proof {
            reveal(unpacker_text);
        }
        if self.ty.is_small() {
            match &self.ty {
                GpuType::Scalar(_) => scalar_unpacker(self, packed_struct_name, packed_field_name),
                GpuType::Vector(_, _) => vector_unpacker(
                    self,
                    packed_struct_name,
                    packed_field_name,
                ),
                _ => {
                    proof {
                        assert(false);
                    }
                    String::new()
                },
            }
        } else {
            String::new()
        }
    }
}

} // verus!

verus! {

/// The reader line of a closed slot at byte offset `off`: a scalar or
/// reference is one word load, a vector a multi-word load, and an inline
/// struct a recursive packed read.
#[verifier::opaque]
pub open spec fn reader_text(s: SlotV, off: int) -> Seq<char> {
    let sa = simplified_add_spec("ref"@, off);
    match s.ty->Some_0 {
        GpuType::Scalar(sc) => "    "@ + scalar_hlsl_name(sc) + " "@ + s.name + " = buf.Load("@
            + sa + ");\n"@,
        GpuType::Vector(sc, n) => if n == 1 {
            "    "@ + scalar_hlsl_name(sc) + dec_of(1) + " "@ + s.name + " = buf.Load("@ + sa
                + ");\n"@
        } else {
            "    "@ + scalar_hlsl_name(sc) + dec_of(n as int) + " "@ + s.name + " = buf.Load"@
                + dec_of(n as int) + "("@ + sa + ");\n"@
        },
        GpuType::InlineStruct(isn) => "    "@ + isn@ + "Packed "@ + s.name + " = "@ + isn@
            + "Packed_read(buf, "@ + sa + ");\n"@,
        GpuType::Ref(inner) => match *inner {
            GpuType::InlineStruct(isn) => "    "@ + isn@ + "Ref "@ + s.name + " = buf.Load("@ + sa
                + ");\n"@,
            _ => "    uint "@ + s.name + " = buf.Load("@ + sa + ");\n"@,
        },
    }
}

/// The accessor wrapping a slot's reader into a function returning it.
#[verifier::opaque]
pub open spec fn accessor_text(
    s: SlotV,
    ps_name: Seq<char>,
    ref_type: Seq<char>,
    reader: Seq<char>,
) -> Seq<char> {
    "inline "@ + type_hlsl_name(s.ty->Some_0) + (if s.ty->Some_0 is InlineStruct {
        "Packed"@
    } else {
        Seq::<char>::empty()
    }) + " "@ + ps_name + "_"@ + s.name + "(ByteAddressBuffer buf, "@ + ref_type + " ref) {\n"@
        + reader + "    return "@ + s.name + ";\n}\n\n"@
}

/// The unpackers of the first `n` stored fields of a slot: one for each
/// sub-word scalar or vector.
pub open spec fn unpackers_text(s: SlotV, ps_name: Seq<char>, n: int) -> Seq<char>
    decreases n,
{
    if n <= 0 {
        Seq::empty()
    } else {
        unpackers_text(s, ps_name, n - 1) + if is_packed_stored(s.stored[n - 1].ty) {
            unpacker_text(s.stored[n - 1], ps_name, s.name)
        } else {
            Seq::empty()
        }
    }
}

/// Stored fields an HLSL unpacker can be emitted for: a sub-word vector
/// must fit in a single word.
pub open spec fn hlsl_stored_ok(stored: Seq<StoredV>) -> bool {
    forall|j: int|
        0 <= j < stored.len() ==> match (#[trigger] stored[j]).ty {
            GpuType::Vector(s, n) => is_word_scalar(s) || (1 <= n && scalar_size(s) * n <= 4),
            _ => true,
        }
}

impl PackedField {
    /// The reader line for this slot at byte offset `current_offset`;
    /// an open slot, or a vector of no lanes, is reported instead.
    pub fn generate_hlsl_reader(&self, current_offset: usize) -> (r: Result<String, String>)
        ensures
            match r {
                Ok(t) => {
                    &&& self@.ty is Some
                    &&& !(self@.ty->Some_0 matches GpuType::Vector(_, n) && n == 0)
                    &&& t@ == reader_text(self@, current_offset as int)
                },
                Err(e) => {
                    if self@.ty is None {
                        e@ == "cannot generate field reader from an open packed field"@
                    } else {
                        &&& self@.ty->Some_0 matches GpuType::Vector(_, n) && n == 0
                        &&& e@ == "vector of size 0 is not well defined!"@
                    }
                },
            },
    {
        proof {
            reveal(reader_text);
        }
        match &self.ty {
            Some(ty) => {
                let packed_field_name = self.name.as_str();
                let mut out = String::new();
                match ty {
                    GpuType::Scalar(sc) => {
                        out.append("    ");
                        out.append(sc.hlsl_typename());
                        out.append(" ");
                        out.append(packed_field_name);
                        out.append(" = buf.Load(");
                        let sa = simplified_add("ref", current_offset);
                        out.append(sa.as_str());
                        out.append(");\n");
                        Ok(out)
                    },
                    GpuType::Vector(scalar, size) => {
                        if *size == 0 {
                            Err(String::from_str("vector of size 0 is not well defined!"))
                        } else if *size == 1 {
                            out.append("    ");
                            out.append(scalar.hlsl_typename());
                            push_dec(&mut out, *size);
                            out.append(" ");
                            out.append(packed_field_name);
                            out.append(" = buf.Load(");
                            let sa = simplified_add("ref", current_offset);
                            out.append(sa.as_str());
                            out.append(");\n");
                            Ok(out)
                        } else {
                            out.append("    ");
                            out.append(scalar.hlsl_typename());
                            push_dec(&mut out, *size);
                            out.append(" ");
                            out.append(packed_field_name);
                            out.append(" = buf.Load");
                            push_dec(&mut out, *size);
                            out.append("(");
                            let sa = simplified_add("ref", current_offset);
                            out.append(sa.as_str());
                            out.append(");\n");
                            Ok(out)
                        }
                    },
                    GpuType::InlineStruct(isn) => {
                        out.append("    ");
                        out.append(isn.as_str());
                        out.append("Packed ");
                        out.append(packed_field_name);
                        out.append(" = ");
                        out.append(isn.as_str());
                        out.append("Packed_read(buf, ");
                        let sa = simplified_add("ref", current_offset);
                        out.append(sa.as_str());
                        out.append(");\n");
                        Ok(out)
                    },
                    GpuType::Ref(inner) => {
                        match &**inner {
                            GpuType::InlineStruct(isn) => {
                                out.append("    ");
                                out.append(isn.as_str());
                                out.append("Ref ");
                                out.append(packed_field_name);
                                out.append(" = buf.Load(");
                                let sa = simplified_add("ref", current_offset);
                                out.append(sa.as_str());
                                out.append(");\n");
                                Ok(out)
                            },
                            _ => {
                                out.append("    uint ");
                                out.append(packed_field_name);
                                out.append(" = buf.Load(");
                                let sa = simplified_add("ref", current_offset);
                                out.append(sa.as_str());
                                out.append(");\n");
                                Ok(out)
                            },
                        }
                    },
                }
            },
            None => Err(
                String::from_str("cannot generate field reader from an open packed field"),
            ),
        }
    }

    /// The accessor returning this slot's value from the buffer; an open
    /// slot is reported instead.
    pub fn generate_hlsl_accessor(
        &self,
        packed_struct_name: &str,
        ref_type: &str,
        reader: &str,
    ) -> (r: Result<String, String>)
        requires
            crate::typename::vector_bounded(
                match self@.ty {
                    Some(t) => t,
                    None => GpuType::Scalar(GpuScalar::U32),
                },
            ),
        ensures
            match r {
                Ok(t) => self@.ty is Some && t@ == accessor_text(
                    self@,
                    packed_struct_name@,
                    ref_type@,
                    reader@,
                ),
                Err(e) => self@.ty is None && e@
                    == "cannot generate field accessor from open packed field"@,
            },
    {
        proof {
            reveal(accessor_text);
        }
        match &self.ty {
            Some(ty) => {
                let mut field_accessor = String::new();
                field_accessor.append("inline ");
                let tn = ty.hlsl_typename();
                field_accessor.append(tn.as_str());
                if let GpuType::InlineStruct(_) = ty {
                    field_accessor.append("Packed");
                }
                field_accessor.append(" ");
                field_accessor.append(packed_struct_name);
                field_accessor.append("_");
                field_accessor.append(self.name.as_str());
                field_accessor.append("(ByteAddressBuffer buf, ");
                field_accessor.append(ref_type);
                field_accessor.append(" ref) {\n");
                field_accessor.append(reader);
                field_accessor.append("    return ");
                field_accessor.append(self.name.as_str());
                field_accessor.append(";\n}\n\n");
                Ok(field_accessor)
            },
            None => Err(
                String::from_str("cannot generate field accessor from open packed field"),
            ),
        }
    }

    /// The unpackers for every packed stored field of this slot.
    #[verifier::loop_isolation(false)]
    pub fn generate_hlsl_unpackers(&self, packed_struct_name: &str) -> (r: String)
        requires
            hlsl_stored_ok(self@.stored),
        ensures
            r@ == unpackers_text(self@, packed_struct_name@, self@.stored.len() as int),
    {
        let mut unpackers = String::new();
        let mut j: usize = 0;
        while j < self.stored_fields.len()
            invariant
                j <= self.stored_fields@.len(),
                unpackers@ == unpackers_text(self@, packed_struct_name@, j as int),
            decreases self.stored_fields@.len() - j,
        {
            let sf = &self.stored_fields[j];
            proof {
                assert(self@.stored[j as int] == self.stored_fields@[j as int]@);
            }
            let emit = match &sf.ty {
                GpuType::Scalar(s) => match s {
                    GpuScalar::F32 | GpuScalar::I32 | GpuScalar::U32 => false,
                    _ => true,
                },
                GpuType::Vector(s, _) => match s {
                    GpuScalar::F32 | GpuScalar::I32 | GpuScalar::U32 => false,
                    _ => true,
                },
                _ => false,
            };
            if emit {
                let u = sf.generate_hlsl_unpacker(packed_struct_name, self.name.as_str());
                unpackers.append(u.as_str());
            }
            j += 1;
        }
        unpackers
    }
}

} // verus!

verus! {

/// The character sequences of a list of strings, first `n` entries.
pub open spec fn concat_strs(v: Seq<String>, n: int) -> Seq<char>
    decreases n,
{
    if n <= 0 {
        Seq::empty()
    } else {
        concat_strs(v, n - 1) + v[n - 1]@
    }
}

/// A packed struct the HLSL emitter accepts: every slot closed and well
/// formed, every packed stored field extractable, and the total
/// materialised size bounded.
pub open spec fn ps_ok(m: GpuModule, ps: crate::pack::PackedStructV) -> bool {
    &&& forall|i: int| 0 <= i < ps.slots.len() ==> slot_closed_wf(m, #[trigger] ps.slots[i])
    &&& forall|i: int| 0 <= i < ps.slots.len() ==> hlsl_stored_ok((#[trigger] ps.slots[i]).stored)
    &&& crate::pack::slots_ty_sum(m, ps.slots, ps.slots.len() as int) <= 9 * MAX_SIZE
}

/// The starting byte offset of a packed struct's fields: one word in for
/// an enum-variant struct.
pub open spec fn ps_start(ps: crate::pack::PackedStructV) -> int {
    if ps.is_enum_variant {
        4
    } else {
        0
    }
}

/// The head of the whole-struct read function.
pub open spec fn read_fn_head(psname: Seq<char>) -> Seq<char> {
    "inline "@ + psname + " "@ + psname + "_read(ByteAddressBuffer buf, "@ + psname + "Ref"@
        + " ref) {\n"@ + "    "@ + psname + " result;\n\n"@
}

/// The reader and assignment lines for the first `n` slots, each at its
/// running byte offset.
pub open spec fn read_fn_lines(m: GpuModule, ps: crate::pack::PackedStructV, n: int) -> Seq<char>
    decreases n,
{
    if n <= 0 {
        Seq::empty()
    } else {
        let s = ps.slots[n - 1];
        read_fn_lines(m, ps, n - 1) + reader_text(
            s,
            ps_start(ps) + crate::pack::slots_ty_sum(m, ps.slots, n - 1),
        ) + "    result."@ + s.name + " = "@ + s.name + ";\n\n"@
    }
}

/// The accessor functions for the first `n` slots.
pub open spec fn accessors_cat(m: GpuModule, ps: crate::pack::PackedStructV, n: int) -> Seq<char>
    decreases n,
{
    if n <= 0 {
        Seq::empty()
    } else {
        let s = ps.slots[n - 1];
        accessors_cat(m, ps, n - 1) + accessor_text(
            s,
            ps.name,
            ps.name + "Ref"@,
            reader_text(s, ps_start(ps) + crate::pack::slots_ty_sum(m, ps.slots, n - 1)),
        )
    }
}

/// The unpackers of the first `n` slots.
pub open spec fn unpackers_cat(ps: crate::pack::PackedStructV, n: int) -> Seq<char>
    decreases n,
{
    if n <= 0 {
        Seq::empty()
    } else {
        let s = ps.slots[n - 1];
        unpackers_cat(ps, n - 1) + unpackers_text(s, ps.name, s.stored.len() as int)
    }
}

/// The whole-struct read function, the per-slot accessors, and the
/// per-stored-field unpackers of a packed struct.
pub open spec fn hlsl_functions_text(m: GpuModule, ps: crate::pack::PackedStructV) -> Seq<char> {
    read_fn_head(ps.name) + read_fn_lines(m, ps, ps.slots.len() as int)
        + "    return result;\n}\n\n"@ + accessors_cat(m, ps, ps.slots.len() as int)
        + unpackers_cat(ps, ps.slots.len() as int)
}

/// The field lines of the packed struct definition.
pub open spec fn ps_def_lines(ps: crate::pack::PackedStructV, n: int) -> Seq<char>
    decreases n,
{
    if n <= 0 {
        Seq::empty()
    } else {
        let s = ps.slots[n - 1];
        ps_def_lines(ps, n - 1) + match s.ty->Some_0 {
            GpuType::InlineStruct(name) => "    "@ + name@ + "Packed "@ + s.name + ";\n"@,
            _ => "    "@ + type_hlsl_name(s.ty->Some_0) + " "@ + s.name + ";\n"@,
        }
    }
}

/// The packed struct definition, with a tag word for an enum-variant
/// struct.
pub open spec fn ps_def_text(ps: crate::pack::PackedStructV) -> Seq<char> {
    "struct "@ + ps.name + " {\n"@ + (if ps.is_enum_variant {
        "    uint tag;\n"@
    } else {
        Seq::<char>::empty()
    }) + ps_def_lines(ps, ps.slots.len() as int) + "};\n\n"@
}

impl crate::pack::PackedStruct {
    /// The whole-struct read function, per-slot accessors, and stored
    /// field unpackers for this packed struct.
    #[verifier::loop_isolation(false)]
    #[verifier::rlimit(100)]
    #[verifier::spinoff_prover]
    pub fn generate_hlsl_functions(&self, module: &GpuModule) -> (r: String)
        requires
            module.wf(),
            ps_ok(*module, self@),
        ensures
            r@ == hlsl_functions_text(*module, self@),
    {
        let ghost m = *module;
        let ghost psv = self@;
        let ghost nslots = self@.slots.len() as int;
        let mut r = String::new();
        let mut field_accessors: Vec<String> = Vec::new();
        let mut unpackers: Vec<String> = Vec::new();

        let mut ref_type = self.name.clone();
        ref_type.append("Ref");

        r.append("inline ");
        r.append(self.name.as_str());
        r.append(" ");
        r.append(self.name.as_str());
        r.append("_read(ByteAddressBuffer buf, ");
        r.append(ref_type.as_str());
        r.append(" ref) {\n");
        r.append("    ");
        r.append(self.name.as_str());
        r.append(" result;\n\n");
        proof {
            assert(ref_type@ =~= psv.name + "Ref"@);
            assert(r@ =~= read_fn_head(psv.name));
        }
        let ghost head = r@;

        let mut current_offset: usize = 0;
        if self.is_enum_variant {
            current_offset = 4;
        }

        let mut k: usize = 0;
        while k < self.packed_fields.len()
            invariant
                k <= self.packed_fields@.len(),
                r@ == head + read_fn_lines(m, psv, k as int),
                current_offset as int == ps_start(psv) + crate::pack::slots_ty_sum(
                    m,
                    psv.slots,
                    k as int,
                ),
                current_offset <= 4 + 9 * MAX_SIZE,
                field_accessors@.len() == k,
                unpackers@.len() == k,
                forall|j: int|
                    0 <= j < k ==> (#[trigger] field_accessors@[j])@ == accessor_text(
                        psv.slots[j],
                        psv.name,
                        psv.name + "Ref"@,
                        reader_text(
                            psv.slots[j],
                            ps_start(psv) + crate::pack::slots_ty_sum(m, psv.slots, j),
                        ),
                    ),
                forall|j: int|
                    0 <= j < k ==> (#[trigger] unpackers@[j])@ == unpackers_text(
                        psv.slots[j],
                        psv.name,
                        psv.slots[j].stored.len() as int,
                    ),
            decreases self.packed_fields@.len() - k,
        {
            proof {
                assert(psv.slots[k as int] == self.packed_fields@[k as int]@);
                assert(slot_closed_wf(m, psv.slots[k as int]));
                crate::pack::lemma_slot_ty_le(m, psv.slots[k as int]);
                crate::pack::lemma_slots_ty_sum_mono(m, psv.slots, k as int + 1, nslots);
            }
            let packed_field = &self.packed_fields[k];
            let reader = match packed_field.generate_hlsl_reader(current_offset) {
                Ok(t) => t,
                Err(_) => {
                    proof {
                        assert(false);
                    }
                    String::new()
                },
            };
            let field_accessor = match packed_field.generate_hlsl_accessor(
                self.name.as_str(),
                ref_type.as_str(),
                reader.as_str(),
            ) {
                Ok(t) => t,
                Err(_) => {
                    proof {
                        assert(false);
                    }
                    String::new()
                },
            };
            field_accessors.push(field_accessor);
            unpackers.push(packed_field.generate_hlsl_unpackers(self.name.as_str()));

            r.append(reader.as_str());
            r.append("    result.");
            r.append(packed_field.name.as_str());
            r.append(" = ");
            r.append(packed_field.name.as_str());
            r.append(";\n\n");

            let sz = match packed_field.size(module) {
                Ok(s) => s,
                Err(_) => {
                    proof {
                        assert(false);
                    }
                    0
                },
            };
            current_offset += sz;
            k += 1;
        }
        r.append("    return result;\n}\n\n");
        proof {
            assert(r@ =~= read_fn_head(psv.name) + read_fn_lines(m, psv, nslots)
                + "    return result;\n}\n\n"@);
        }
        let ghost head2 = r@;
        let mut a: usize = 0;
        while a < field_accessors.len()
            invariant
                a <= field_accessors@.len(),
                r@ == head2 + accessors_cat(m, psv, a as int),
            decreases field_accessors@.len() - a,
        {
            r.append(field_accessors[a].as_str());
            a += 1;
        }
        let ghost head3 = r@;
        let mut u: usize = 0;
        while u < unpackers.len()
            invariant
                u <= unpackers@.len(),
                r@ == head3 + unpackers_cat(psv, u as int),
            decreases unpackers@.len() - u,
        {
            r.append(unpackers[u].as_str());
            u += 1;
        }
        proof {
            assert(r@ =~= hlsl_functions_text(m, psv));
        }
        r
    }

    /// The packed struct definition.
    #[verifier::loop_isolation(false)]
    #[verifier::rlimit(100)]
    #[verifier::spinoff_prover]
    pub fn generate_hlsl_structure_def(&self) -> (r: String)
        requires
            forall|i: int|
                0 <= i < self@.slots.len() ==> (#[trigger] self@.slots[i]).ty is Some
                    && crate::typename::vector_bounded(self@.slots[i].ty->Some_0),
        ensures
            r@ == ps_def_text(self@),
    {
        let ghost psv = self@;
        let mut r = String::new();
        r.append("struct ");
        r.append(self.name.as_str());
        r.append(" {\n");
        if self.is_enum_variant {
            r.append("    uint tag;\n");
        }
        let ghost head = r@;
        let mut k: usize = 0;
        while k < self.packed_fields.len()
            invariant
                k <= self.packed_fields@.len(),
                r@ == head + ps_def_lines(psv, k as int),
            decreases self.packed_fields@.len() - k,
        {
            proof {
                assert(psv.slots[k as int] == self.packed_fields@[k as int]@);
            }
            let packed_field = &self.packed_fields[k];
            match &packed_field.ty {
                Some(ty) => {
                    match ty {
                        GpuType::InlineStruct(name) => {
                            r.append("    ");
                            r.append(name.as_str());
                            r.append("Packed ");
                            r.append(packed_field.name.as_str());
                            r.append(";\n");
                        },
                        _ => {
                            r.append("    ");
                            let tn = ty.hlsl_typename();
                            r.append(tn.as_str());
                            r.append(" ");
                            r.append(packed_field.name.as_str());
                            r.append(";\n");
                        },
                    }
                },
                None => {
                    proof {
                        assert(false);
                    }
                },
            }
            k += 1;
        }
        r.append("};\n\n");
        r
    }

    /// The packed struct definition followed by its functions.
    pub fn to_hlsl(&self, module: &GpuModule) -> (r: String)
        requires
            module.wf(),
            ps_ok(*module, self@),
        ensures
            r@ == ps_def_text(self@) + hlsl_functions_text(*module, self@),
    {
        proof {
            assert forall|i: int| 0 <= i < self@.slots.len() implies (
            #[trigger] self@.slots[i]).ty is Some && crate::typename::vector_bounded(
                self@.slots[i].ty->Some_0,
            ) by {
                crate::pack::lemma_slot_ty_le(*module, self@.slots[i]);
            }
        }
        let mut r = self.generate_hlsl_structure_def();
        let f = self.generate_hlsl_functions(module);
        r.append(f.as_str());
        r
    }
}

} // verus!

verus! {

/// Whether a packed slot stores a field with the given name.
fn slot_contains(pf: &PackedField, name: &str) -> (r: bool)
    ensures
        r == crate::pack::slot_has_name(pf@, name@),
{
    let mut j: usize = 0;
    while j < pf.stored_fields.len()
        invariant
            j <= pf.stored_fields@.len(),
            forall|i: int| 0 <= i < j ==> (#[trigger] pf@.stored[i]).name != name@,
        decreases pf.stored_fields@.len() - j,
    {
        proof {
            assert(pf@.stored[j as int] == pf.stored_fields@[j as int]@);
        }
        if crate::text::str_eq(pf.stored_fields[j].name.as_str(), name) {
            proof {
                assert(crate::pack::slot_has_name(pf@, name@));
            }
            return true;
        }
        j += 1;
    }
    false
}

/// The field lines of the logical struct definition.
pub open spec fn ss_def_lines(fields: Seq<(String, GpuType)>, n: int) -> Seq<char>
    decreases n,
{
    if n <= 0 {
        Seq::empty()
    } else {
        ss_def_lines(fields, n - 1) + "    "@ + type_hlsl_name(fields[n - 1].1) + " "@ + fields[n
            - 1].0@ + ";\n"@
    }
}

/// The logical struct definition, with the original field types.
pub open spec fn ss_def_text(name: Seq<char>, fields: Seq<(String, GpuType)>) -> Seq<char> {
    "struct "@ + name + " {\n"@ + ss_def_lines(fields, fields.len() as int) + "};\n\n"@
}

/// The head of the whole-struct unpacker.
pub open spec fn ss_unpack_head(name: Seq<char>, psname: Seq<char>) -> Seq<char> {
    "inline "@ + name + " "@ + psname + "_unpack("@ + psname + " packed_form) {\n"@ + "    "@
        + name + " result;\n\n"@
}

/// The unpacking line of one logical field, read from the first slot
/// that stores it: an inline struct is unpacked by its own routine, a
/// field whose stored form was packed (a sub-word scalar or vector) by
/// the per-field unpacker, and a 32-bit native or reference is copied
/// directly from the slot.
pub open spec fn ss_unpack_line(
    ps: crate::pack::PackedStructV,
    fname: Seq<char>,
    fty: GpuType,
) -> Seq<char> {
    let pf = ps.slots[crate::pack::find_slot(ps.slots, fname)];
    match fty {
        GpuType::InlineStruct(inner) => "    result."@ + fname + " = "@ + inner@
            + "Packed_unpack(packed_form."@ + pf.name + ");\n"@,
        _ => if is_packed_stored(fty) {
            "    result."@ + fname + " = "@ + ps.name + "_unpack_"@ + fname + "(packed_form."@
                + pf.name + ");\n"@
        } else {
            "    result."@ + fname + " = packed_form."@ + pf.name + ";\n"@
        },
    }
}

/// The unpacking lines of the first `n` logical fields.
pub open spec fn ss_unpack_lines(
    ps: crate::pack::PackedStructV,
    fields: Seq<(String, GpuType)>,
    n: int,
) -> Seq<char>
    decreases n,
{
    if n <= 0 {
        Seq::empty()
    } else {
        ss_unpack_lines(ps, fields, n - 1) + ss_unpack_line(ps, fields[n - 1].0@, fields[n - 1].1)
    }
}

/// The whole-struct unpacker: every logical field recovered from the
/// slot that stores it.
pub open spec fn ss_unpacker_text(
    name: Seq<char>,
    ps: crate::pack::PackedStructV,
    fields: Seq<(String, GpuType)>,
) -> Seq<char> {
    ss_unpack_head(name, ps.name) + ss_unpack_lines(ps, fields, fields.len() as int)
        + "\n    return result;\n}\n\n"@
}

/// Every logical field of the struct is stored in some slot.
pub open spec fn ss_covered(s: crate::pack::SpecifiedStruct) -> bool {
    forall|k: int|
        0 <= k < s.fields@.len() ==> exists|i: int|
            0 <= i < s.packed_form@.slots.len() && crate::pack::slot_has_name(
                #[trigger] s.packed_form@.slots[i],
                (#[trigger] s.fields@[k]).0@,
            )
}

impl crate::pack::SpecifiedStruct {
    /// The logical struct definition.
    #[verifier::loop_isolation(false)]
    pub fn generate_hlsl_structure_def(&self) -> (r: String)
        requires
            forall|k: int|
                0 <= k < self.fields@.len() ==> crate::typename::vector_bounded(
                    (#[trigger] self.fields@[k]).1,
                ),
        ensures
            r@ == ss_def_text(self.name@, self.fields@),
    {
        let mut r = String::new();
        r.append("struct ");
        r.append(self.name.as_str());
        r.append(" {\n");
        let ghost head = r@;
        let mut k: usize = 0;
        while k < self.fields.len()
            invariant
                k <= self.fields@.len(),
                r@ == head + ss_def_lines(self.fields@, k as int),
            decreases self.fields@.len() - k,
        {
            r.append("    ");
            let tn = self.fields[k].1.hlsl_typename();
            r.append(tn.as_str());
            r.append(" ");
            r.append(self.fields[k].0.as_str());
            r.append(";\n");
            k += 1;
        }
        r.append("};\n\n");
        r
    }

    /// The unpacker that rebuilds the logical struct from its packed
    /// form, field by field: packed fields through their per-field
    /// unpackers, inline structs through their own unpackers, and
    /// 32-bit natives and references by direct copy.
    #[verifier::loop_isolation(false)]
    #[verifier::rlimit(100)]
    #[verifier::spinoff_prover]
    pub fn generate_hlsl_unpacker(&self) -> (r: String)
        requires
            ss_covered(*self),
        ensures
            r@ == ss_unpacker_text(self.name@, self.packed_form@, self.fields@),
    {
        let ghost psv = self.packed_form@;
        let mut r = String::new();
        r.append("inline ");
        r.append(self.name.as_str());
        r.append(" ");
        r.append(self.packed_form.name.as_str());
        r.append("_unpack(");
        r.append(self.packed_form.name.as_str());
        r.append(" packed_form) {\n");
        r.append("    ");
        r.append(self.name.as_str());
        r.append(" result;\n\n");
        proof {
            assert(r@ =~= ss_unpack_head(self.name@, psv.name));
        }
        let ghost head = r@;
        let mut k: usize = 0;
        while k < self.fields.len()
            invariant
                k <= self.fields@.len(),
                r@ == head + ss_unpack_lines(psv, self.fields@, k as int),
            decreases self.fields@.len() - k,
        {
            let field_name = &self.fields[k].0;
            proof {
                crate::pack::lemma_find_slot(psv.slots, field_name@);
            }
            let mut idx: usize = 0;
            while idx < self.packed_form.packed_fields.len() && !slot_contains(
                &self.packed_form.packed_fields[idx],
                field_name.as_str(),
            )
                invariant
                    idx <= self.packed_form.packed_fields@.len(),
                    forall|i: int|
                        0 <= i < idx ==> !crate::pack::slot_has_name(
                            #[trigger] psv.slots[i],
                            field_name@,
                        ),
                decreases self.packed_form.packed_fields@.len() - idx,
            {
                proof {
                    assert(psv.slots[idx as int] == self.packed_form.packed_fields@[idx as int]@);
                }
                idx += 1;
            }
            proof {
                if idx == psv.slots.len() {
                    assert(forall|i: int|
                        0 <= i < psv.slots.len() ==> !crate::pack::slot_has_name(
                            #[trigger] psv.slots[i],
                            field_name@,
                        ));
                    assert(false);
                }
                assert(psv.slots[idx as int] == self.packed_form.packed_fields@[idx as int]@);
                assert(crate::pack::slot_has_name(psv.slots[idx as int], field_name@));
                assert(idx as int == crate::pack::find_slot(psv.slots, field_name@));
            }
            let packed_field = &self.packed_form.packed_fields[idx];
            let packed_stored = match &self.fields[k].1 {
                GpuType::Scalar(sc) => match sc {
                    GpuScalar::F32 | GpuScalar::I32 | GpuScalar::U32 => false,
                    _ => true,
                },
                GpuType::Vector(sc, _) => match sc {
                    GpuScalar::F32 | GpuScalar::I32 | GpuScalar::U32 => false,
                    _ => true,
                },
                _ => false,
            };
            match &self.fields[k].1 {
                GpuType::InlineStruct(name) => {
                    r.append("    result.");
                    r.append(field_name.as_str());
                    r.append(" = ");
                    r.append(name.as_str());
                    r.append("Packed_unpack(packed_form.");
                    r.append(packed_field.name.as_str());
                    r.append(");\n");
                },
                _ => {
                    if packed_stored {
                        r.append("    result.");
                        r.append(field_name.as_str());
                        r.append(" = ");
                        r.append(self.packed_form.name.as_str());
                        r.append("_unpack_");
                        r.append(field_name.as_str());
                        r.append("(packed_form.");
                        r.append(packed_field.name.as_str());
                        r.append(");\n");
                    } else {
                        r.append("    result.");
                        r.append(field_name.as_str());
                        r.append(" = packed_form.");
                        r.append(packed_field.name.as_str());
                        r.append(";\n");
                    }
                },
            }
            k += 1;
        }
        r.append("\n    return result;\n}\n\n");
        r
    }

    /// The logical struct definition followed by its unpacker.
    pub fn to_hlsl(&self) -> (r: String)
        requires
            ss_covered(*self),
            forall|k: int|
                0 <= k < self.fields@.len() ==> crate::typename::vector_bounded(
                    (#[trigger] self.fields@[k]).1,
                ),
        ensures
            r@ == ss_def_text(self.name@, self.fields@) + ss_unpacker_text(
                self.name@,
                self.packed_form@,
                self.fields@,
            ),
    {
        let mut r = self.generate_hlsl_structure_def();
        let u = self.generate_hlsl_unpacker();
        r.append(u.as_str());
        r
    }
}

} // verus!

verus! {

/// A definition the HLSL emitter accepts: any sub-word vector field fits
/// in a single word (its lanes are extracted by 32-bit shifts).
pub open spec fn def_hlsl_ok(d: crate::model::GpuTypeDef) -> bool {
    match d {
        crate::model::GpuTypeDef::Struct(_, fields) => forall|k: int|
            0 <= k < fields@.len() ==> match (#[trigger] fields@[k]).1 {
                GpuType::Vector(s, n) => is_word_scalar(s) || scalar_size(s) * n <= 4,
                _ => true,
            },
        crate::model::GpuTypeDef::Enum(_) => true,
    }
}

/// Every module definition is acceptable to the HLSL emitter.
pub open spec fn module_hlsl_ok(m: GpuModule) -> bool {
    forall|i: int| 0 <= i < m.defs@.len() ==> def_hlsl_ok(#[trigger] m.defs@[i])
}

/// Packing fields whose sub-word vectors fit one word yields slots whose
/// stored fields the unpacker emitters accept.
pub proof fn lemma_pack_model_hlsl_ok(
    m: GpuModule,
    fields: Seq<(Seq<char>, GpuType)>,
    cur: crate::pack::SlotV,
)
    requires
        hlsl_stored_ok(cur.stored),
        forall|k: int|
            0 <= k < fields.len() ==> match (#[trigger] fields[k]).1 {
                GpuType::Vector(s, n) => is_word_scalar(s) || (1 <= n && scalar_size(s) * n <= 4),
                _ => true,
            },
    ensures
        forall|i: int|
            0 <= i < crate::pack::pack_model(m, fields, cur).len() ==> hlsl_stored_ok(
                (#[trigger] crate::pack::pack_model(m, fields, cur)[i]).stored,
            ),
    decreases fields.len(), cur.stored.len(),
{
    let whole = crate::pack::pack_model(m, fields, cur);
    if fields.len() == 0 {
    } else {
        let fname = fields[0].0;
        let fty = fields[0].1;
        let fs = crate::model::type_size_full(m, fty);
        assert forall|k: int| 0 <= k < fields.drop_first().len() implies match (
        #[trigger] fields.drop_first()[k]).1 {
            GpuType::Vector(s, n) => is_word_scalar(s) || (1 <= n && scalar_size(s) * n <= 4),
            _ => true,
        } by {
            assert(fields.drop_first()[k] == fields[k + 1]);
        }
        if fs + cur.size > 4 {
            if cur.stored.len() == 0 {
                let bs = crate::pack::close_slot(m, crate::pack::big_single(fname, fty));
                assert(hlsl_stored_ok(bs.stored)) by {
                    assert(bs.stored[0].ty == fty);
                }
                lemma_pack_model_hlsl_ok(m, fields.drop_first(), crate::pack::empty_slot());
                let rest = crate::pack::pack_model(
                    m,
                    fields.drop_first(),
                    crate::pack::empty_slot(),
                );
                assert(whole =~= seq![bs] + rest);
                assert forall|i: int| 0 <= i < whole.len() implies hlsl_stored_ok(
                    (#[trigger] whole[i]).stored,
                ) by {
                    if i == 0 {
                        assert(whole[0] == bs);
                    } else {
                        assert(whole[i] == rest[i - 1]);
                    }
                }
            } else {
                let cs = crate::pack::close_slot(m, cur);
                lemma_pack_model_hlsl_ok(m, fields, crate::pack::empty_slot());
                let rest = crate::pack::pack_model(m, fields, crate::pack::empty_slot());
                assert(whole =~= seq![cs] + rest);
                assert forall|i: int| 0 <= i < whole.len() implies hlsl_stored_ok(
                    (#[trigger] whole[i]).stored,
                ) by {
                    if i == 0 {
                        assert(whole[0] == cs);
                    } else {
                        assert(whole[i] == rest[i - 1]);
                    }
                }
            }
        } else {
            let ext = crate::pack::slot_extend(m, cur, fname, fty);
            assert(hlsl_stored_ok(ext.stored)) by {
                assert forall|j: int| 0 <= j < ext.stored.len() implies match (
                #[trigger] ext.stored[j]).ty {
                    GpuType::Vector(s, n) => is_word_scalar(s) || (1 <= n && scalar_size(s) * n
                        <= 4),
                    _ => true,
                } by {
                    if j < cur.stored.len() {
                        assert(ext.stored[j] == cur.stored[j]);
                    } else {
                        assert(ext.stored[j].ty == fty);
                    }
                }
            }
            lemma_pack_model_hlsl_ok(m, fields.drop_first(), ext);
            assert(whole == crate::pack::pack_model(m, fields.drop_first(), ext));
        }
    }
}

} // verus!

verus! {

/// A copy of a field list, pair by pair.
fn clone_fields(v: &Vec<(String, GpuType)>) -> (r: Vec<(String, GpuType)>)
    ensures
        r@ == v@,
{
    let mut r: Vec<(String, GpuType)> = Vec::new();
    let mut i: usize = 0;
    while i < v.len()
        invariant
            i <= v@.len(),
            r@ =~= v@.take(i as int),
        decreases v@.len() - i,
    {
        r.push((v[i].0.clone(), v[i].1.clone()));
        proof {
            assert(r@ =~= v@.take(i as int + 1));
        }
        i += 1;
    }
    proof {
        assert(v@.take(v@.len() as int) =~= v@);
    }
    r
}

/// The packed form a struct definition is emitted with.
pub open spec fn ps_of(
    m: GpuModule,
    name: Seq<char>,
    fields: Seq<(String, GpuType)>,
) -> crate::pack::PackedStructV {
    crate::pack::PackedStructV {
        name: name + "Packed"@,
        slots: crate::pack::pack_model(m, crate::pack::fields_v(fields), crate::pack::empty_slot()),
        is_enum_variant: crate::model::spec_is_enum_variant(m, name),
    }
}

/// The enum body struct and its tag accessor. The body word count is
/// `(size + 3) / 4 - 1`: with the tag word it spans the layout size
/// rounded up, erring on the wide side for enums whose first payload
/// embeds the tag (see the enum body bound law).
pub open spec fn enum_hlsl_head(ename: Seq<char>, body_size: int) -> Seq<char> {
    "struct "@ + ename + " {\n"@ + "    uint tag;\n"@ + "    uint body["@ + dec_of(body_size)
        + "];\n"@ + "};\n"@ + "inline uint "@ + ename + "_tag(ByteAddressBuffer buf, "@ + ename
        + "Ref"@ + " ref) {\n"@ + "    uint result = buf.Load(ref);\n    return result;\n"@
        + "}\n\n"@
}

/// The four-word copy lines of the bulk-copy routine, first `q` groups.
pub open spec fn copy_group_lines(q: int) -> Seq<char>
    decreases q,
{
    if q <= 0 {
        Seq::empty()
    } else {
        copy_group_lines(q - 1) + "    uint4 group"@ + dec_of(q - 1) + " = src.Load4("@
            + simplified_add_spec("src_ref"@, (q - 1) * 16) + ");\n"@ + "    dst.Store4("@
            + simplified_add_spec("dst_ref"@, (q - 1) * 16) + ", group"@ + dec_of(q - 1)
            + ");\n"@
    }
}

/// The tail copy of the remaining one to four words, if any.
pub open spec fn copy_tail(q: int, rem: int) -> Seq<char> {
    if 1 <= rem <= 4 {
        "\n    uint"@ + dec_of(rem) + " group"@ + dec_of(q) + " = src.Load"@ + dec_of(rem) + "("@
            + simplified_add_spec("src_ref"@, q * 16) + ");\n"@ + "    dst.Store"@ + dec_of(rem)
            + "("@ + simplified_add_spec("dst_ref"@, q * 16) + ", group"@ + dec_of(q) + ");\n"@
    } else {
        Seq::empty()
    }
}

/// The whole HLSL emission for one definition: for a struct, its packed
/// form, functions, logical form and unpacker; for an enum, its body,
/// tag accessor and bulk-copy routine.
pub open spec fn def_hlsl_text(m: GpuModule, d: crate::model::GpuTypeDef) -> Seq<char> {
    match d {
        crate::model::GpuTypeDef::Struct(name, fields) => {
            let ps = ps_of(m, name@, fields@);
            ps_def_text(ps) + hlsl_functions_text(m, ps) + ss_def_text(name@, fields@)
                + ss_unpacker_text(name@, ps, fields@)
        },
        crate::model::GpuTypeDef::Enum(en) => {
            let size = crate::model::def_size_d(m, d, m.defs@.len() as int);
            let body_size = (size + 3) / 4 - 1;
            let q = size / 16;
            let rem = (size + 3) / 4 - q * 4;
            enum_hlsl_head(en.name@, body_size)
                + "inline void PietItem_read_into(ByteAddressBuffer src, uint src_ref, RWByteAddressBuffer dst, uint dst_ref) {\n"@
                + copy_group_lines(q) + copy_tail(q, rem) + "}\n\n"@
        },
    }
}

/// The HLSL emission for a struct definition.
#[verifier::loop_isolation(false)]
#[verifier::rlimit(100)]
#[verifier::spinoff_prover]
fn struct_def_to_hlsl(d: &crate::model::GpuTypeDef, module: &GpuModule) -> (r: String)
    requires
        module.wf(),
        exists|i: int| 0 <= i < module.defs@.len() && module.defs@[i] == *d,
        def_hlsl_ok(*d),
        d is Struct,
    ensures
        r@ == def_hlsl_text(*module, *d),
{
    let ghost m = *module;
    let ghost len = m.defs@.len() as int;
    let ghost i0 = choose|i: int| 0 <= i < m.defs@.len() && m.defs@[i] == *d;
    let mut r = String::new();
    match d {
            crate::model::GpuTypeDef::Struct(name, fields) => {
                proof {
                    assert(crate::model::def_wf_at(m, i0));
                    assert forall|k: int| 0 <= k < fields@.len() implies crate::model::type_wf(
                        m,
                        (#[trigger] fields@[k]).1,
                        len,
                    ) && crate::model::type_size_full(m, fields@[k].1) >= 1
                        && crate::typename::vector_bounded(fields@[k].1) by {
                        assert(crate::model::struct_field_wf(m, fields@[k].1, i0));
                        crate::model::lemma_type_size_bound(m, fields@[k].1, i0, len);
                    }
                    assert(crate::pack::fields_ok(m, fields@));
                }
                let ghost ps = ps_of(m, name@, fields@);
                let structure = crate::pack::SpecifiedStruct::new(
                    module,
                    name.as_str(),
                    clone_fields(fields),
                );
                proof {
                    assert(structure.packed_form@ =~= ps);
                    // The packed form is acceptable to the emitters.
                    assert(crate::pack::stored_sum(m, crate::pack::empty_slot().stored, 0) == 0);
                    crate::pack::lemma_pack_model_wf(
                        m,
                        crate::pack::fields_v(fields@),
                        crate::pack::empty_slot(),
                    );
                    assert forall|k: int| 0 <= k < crate::pack::fields_v(fields@).len() implies match (
                    #[trigger] crate::pack::fields_v(fields@)[k]).1 {
                        GpuType::Vector(s, n) => is_word_scalar(s) || (1 <= n && scalar_size(s) * n
                            <= 4),
                        _ => true,
                    } by {
                        assert(crate::pack::fields_v(fields@)[k].1 == fields@[k].1);
                        assert(crate::model::type_wf(m, fields@[k].1, len));
                    }
                    lemma_pack_model_hlsl_ok(
                        m,
                        crate::pack::fields_v(fields@),
                        crate::pack::empty_slot(),
                    );
                    crate::pack::lemma_pack_model_sum(
                        m,
                        crate::pack::fields_v(fields@),
                        crate::pack::empty_slot(),
                    );
                    let ghost base: int = if crate::model::spec_is_enum_variant(m, name@) {
                        4int
                    } else {
                        0int
                    };
                    crate::pack::lemma_fields_sz_le_layout(m, fields@, fields@.len() as int, base);
                    crate::model::lemma_def_size_bound(m, i0, len);
                    assert(crate::model::fields_size(m, fields@, fields@.len() as int, base, len)
                        == crate::model::def_size_at(m, i0));
                    assert(crate::pack::fields_sz_sum(
                        m,
                        crate::pack::fields_v(fields@),
                        fields@.len() as int,
                    ) <= crate::model::MAX_SIZE);
                    crate::pack::lemma_fields_sz_min(
                        m,
                        crate::pack::fields_v(fields@),
                        fields@.len() as int,
                    );
                    assert(ps_ok(m, structure.packed_form@));
                    // Every field is stored in some slot.
                    crate::pack::lemma_pack_model_covers(
                        m,
                        crate::pack::fields_v(fields@),
                        crate::pack::empty_slot(),
                    );
                    assert forall|k: int| 0 <= k < structure.fields@.len() implies exists|i: int|
                        0 <= i < structure.packed_form@.slots.len()
                            && crate::pack::slot_has_name(
                            #[trigger] structure.packed_form@.slots[i],
                            (#[trigger] structure.fields@[k]).0@,
                        ) by {
                        assert(crate::pack::fields_v(fields@)[k] == (
                            fields@[k].0@,
                            fields@[k].1,
                        ));
                        assert(structure.fields@[k] == fields@[k]);
                    }
                    assert(ss_covered(structure));
                }
                let packed = structure.packed_form.to_hlsl(module);
                r.append(packed.as_str());
                let logical = structure.to_hlsl();
                r.append(logical.as_str());
                proof {
                    assert(r@ =~= def_hlsl_text(m, *d));
                }
            },
            _ => {
                proof {
                    assert(false);
                }
            },
    }
    r
}

/// The HLSL emission for an enum definition.
#[verifier::loop_isolation(false)]
#[verifier::rlimit(100)]
#[verifier::spinoff_prover]
fn enum_def_to_hlsl(d: &crate::model::GpuTypeDef, module: &GpuModule) -> (r: String)
    requires
        module.wf(),
        exists|i: int| 0 <= i < module.defs@.len() && module.defs@[i] == *d,
        d is Enum,
    ensures
        r@ == def_hlsl_text(*module, *d),
{
    let ghost m = *module;
    let ghost len = m.defs@.len() as int;
    let ghost i0 = choose|i: int| 0 <= i < m.defs@.len() && m.defs@[i] == *d;
    let mut r = String::new();
    match d {
            crate::model::GpuTypeDef::Enum(en) => {
                let size = d.size(module);
                proof {
                    assert(size as int == crate::model::def_size_at(m, i0));
                    crate::model::lemma_variants_max_mono(
                        m,
                        en.variants@,
                        0,
                        en.variants@.len() as int,
                        i0,
                    );
                    crate::model::lemma_def_size_bound(m, i0, len);
                    assert(size >= 4);
                }
                r.append("struct ");
                r.append(en.name.as_str());
                r.append(" {\n");
                r.append("    uint tag;\n");
                let body_size = (size + 3) / 4 - 1;
                r.append("    uint body[");
                push_dec(&mut r, body_size);
                r.append("];\n");
                r.append("};\n");
                r.append("inline uint ");
                r.append(en.name.as_str());
                r.append("_tag(ByteAddressBuffer buf, ");
                r.append(en.name.as_str());
                r.append("Ref");
                r.append(" ref) {\n");
                r.append("    uint result = buf.Load(ref);\n    return result;\n");
                r.append("}\n\n");
                proof {
                    assert(r@ =~= enum_hlsl_head(en.name@, (size as int + 3) / 4 - 1));
                }
                let quotient_in_u32x4 = size / 16;
                proof {
                    assert(quotient_in_u32x4 * 4 <= (size + 3) / 4) by (nonlinear_arith)
                        requires
                            quotient_in_u32x4 == size / 16,
                            size >= 0,
                    ;
                }
                // The tail rounds the covered bytes up to the next
                // 4-byte multiple of the enum's size.
                let remainder_in_u32s = (size + 3) / 4 - quotient_in_u32x4 * 4;
                r.append(
                    "inline void PietItem_read_into(ByteAddressBuffer src, uint src_ref, RWByteAddressBuffer dst, uint dst_ref) {\n",
                );
                let ghost head = r@;
                proof {
                    assert(quotient_in_u32x4 * 16 <= size) by (nonlinear_arith)
                        requires
                            quotient_in_u32x4 == size / 16,
                            size >= 0,
                    ;
                }
                let mut i: usize = 0;
                while i < quotient_in_u32x4
                    invariant
                        i <= quotient_in_u32x4,
                        quotient_in_u32x4 * 16 <= size,
                        r@ == head + copy_group_lines(i as int),
                    decreases quotient_in_u32x4 - i,
                {
                    proof {
                        assert((i + 1) * 16 <= quotient_in_u32x4 * 16) by (nonlinear_arith)
                            requires
                                i + 1 <= quotient_in_u32x4,
                        ;
                    }
                    r.append("    uint4 group");
                    push_dec(&mut r, i);
                    r.append(" = src.Load4(");
                    let sa = simplified_add("src_ref", i * 16);
                    r.append(sa.as_str());
                    r.append(");\n");
                    r.append("    dst.Store4(");
                    let sa2 = simplified_add("dst_ref", i * 16);
                    r.append(sa2.as_str());
                    r.append(", group");
                    push_dec(&mut r, i);
                    r.append(");\n");
                    i += 1;
                }
                let ghost head_tail = r@;
                match remainder_in_u32s {
                    1 | 2 | 3 | 4 => {
                        r.append("\n    uint");
                        push_dec(&mut r, remainder_in_u32s);
                        r.append(" group");
                        push_dec(&mut r, quotient_in_u32x4);
                        r.append(" = src.Load");
                        push_dec(&mut r, remainder_in_u32s);
                        r.append("(");
                        let sa = simplified_add("src_ref", quotient_in_u32x4 * 16);
                        r.append(sa.as_str());
                        r.append(");\n");
                        r.append("    dst.Store");
                        push_dec(&mut r, remainder_in_u32s);
                        r.append("(");
                        let sa2 = simplified_add("dst_ref", quotient_in_u32x4 * 16);
                        r.append(sa2.as_str());
                        r.append(", group");
                        push_dec(&mut r, quotient_in_u32x4);
                        r.append(");\n");
                    },
                    _ => {},
                }
                proof {
                    assert(r@ =~= head_tail + copy_tail(
                        quotient_in_u32x4 as int,
                        remainder_in_u32s as int,
                    ));
                }
                r.append("}\n\n");
                proof {
                    assert(r@ =~= def_hlsl_text(m, *d));
                }
            },
            _ => {
                proof {
                    assert(false);
                }
            },
    }
    r
}

impl crate::model::GpuTypeDef {
    /// The HLSL emission for this definition.
    pub fn to_hlsl(&self, module: &GpuModule) -> (r: String)
        requires
            module.wf(),
            exists|i: int| 0 <= i < module.defs@.len() && module.defs@[i] == *self,
            def_hlsl_ok(*self),
        ensures
            r@ == def_hlsl_text(*module, *self),
    {
        match self {
            crate::model::GpuTypeDef::Struct(_, _) => struct_def_to_hlsl(self, module),
            crate::model::GpuTypeDef::Enum(_) => enum_def_to_hlsl(self, module),
        }
    }
}

} // verus!

verus! {

/// The typedef lines of the first `n` definitions: structs get a `Ref`
/// and a `PackedRef` typedef, enums a `Ref` typedef.
pub open spec fn hlsl_typedef_lines(defs: Seq<crate::model::GpuTypeDef>, n: int) -> Seq<char>
    decreases n,
{
    if n <= 0 {
        Seq::empty()
    } else {
        hlsl_typedef_lines(defs, n - 1) + match defs[n - 1] {
            crate::model::GpuTypeDef::Struct(name, _) => "typedef uint "@ + name@ + "Ref;\n"@
                + "typedef uint "@ + name@ + "PackedRef;\n"@,
            crate::model::GpuTypeDef::Enum(en) => "typedef uint "@ + en.name@ + "Ref;\n"@,
        }
    }
}

/// The HLSL emissions of the first `n` definitions, in order.
pub open spec fn hlsl_body_texts(m: GpuModule, n: int) -> Seq<char>
    decreases n,
{
    if n <= 0 {
        Seq::empty()
    } else {
        hlsl_body_texts(m, n - 1) + def_hlsl_text(m, m.defs@[n - 1])
    }
}

/// The 0-based variant tag defines of an enum, first `k` variants.
pub open spec fn hlsl_tag_lines(
    ename: Seq<char>,
    vars: Seq<(String, Vec<GpuType>)>,
    k: int,
) -> Seq<char>
    decreases k,
{
    if k <= 0 {
        Seq::empty()
    } else {
        hlsl_tag_lines(ename, vars, k - 1) + "#define "@ + ename + "_"@ + vars[k - 1].0@ + " "@
            + dec_of(k - 1) + "\n"@
    }
}

/// The footer lines of the definition at index `i`: a `_SIZE` macro for
/// a definition that is not an enum-variant payload, and the 0-based
/// variant tags of an enum.
pub open spec fn def_footer_text(m: GpuModule, i: int) -> Seq<char> {
    (if !crate::model::spec_is_enum_variant(m, crate::model::def_name(m.defs@[i])) {
        "#define "@ + crate::text::upper_str(
            crate::text::snake_of(crate::model::def_name(m.defs@[i])),
        ) + "_SIZE "@ + dec_of(crate::model::def_size_at(m, i)) + "\n"@
    } else {
        Seq::<char>::empty()
    }) + match m.defs@[i] {
        crate::model::GpuTypeDef::Enum(en) => hlsl_tag_lines(
            en.name@,
            en.variants@,
            en.variants@.len() as int,
        ),
        _ => Seq::<char>::empty(),
    }
}

/// The footers of the first `n` definitions.
pub open spec fn hlsl_footer(m: GpuModule, n: int) -> Seq<char>
    decreases n,
{
    if n <= 0 {
        Seq::empty()
    } else {
        hlsl_footer(m, n - 1) + def_footer_text(m, n - 1)
    }
}

/// The whole HLSL output of a module: the 8-bit and 16-bit extractors,
/// all typedefs, every definition's emission, and the size and tag
/// macros.
pub open spec fn module_hlsl_text(m: GpuModule) -> Seq<char> {
    extractor_text(8) + extractor_text(16) + hlsl_typedef_lines(m.defs@, m.defs@.len() as int)
        + "\n"@ + hlsl_body_texts(m, m.defs@.len() as int) + hlsl_footer(
        m,
        m.defs@.len() as int,
    )
}

/// The typedef lines of a module.
#[verifier::loop_isolation(false)]
fn hlsl_typedefs(m: &GpuModule) -> (r: String)
    ensures
        r@ == hlsl_typedef_lines(m.defs@, m.defs@.len() as int),
{
    let mut r = String::new();
    let mut k: usize = 0;
    while k < m.defs.len()
        invariant
            k <= m.defs@.len(),
            r@ == hlsl_typedef_lines(m.defs@, k as int),
        decreases m.defs@.len() - k,
    {
        match &m.defs[k] {
            crate::model::GpuTypeDef::Struct(name, _) => {
                r.append("typedef uint ");
                r.append(name.as_str());
                r.append("Ref;\n");
                r.append("typedef uint ");
                r.append(name.as_str());
                r.append("PackedRef;\n");
            },
            crate::model::GpuTypeDef::Enum(en) => {
                r.append("typedef uint ");
                r.append(en.name.as_str());
                r.append("Ref;\n");
            },
        }
        k += 1;
    }
    r
}

/// The size and tag macro footer of a module.
#[verifier::loop_isolation(false)]
#[verifier::rlimit(100)]
#[verifier::spinoff_prover]
fn hlsl_footer_lines(m: &GpuModule) -> (r: String)
    requires
        m.wf(),
    ensures
        r@ == hlsl_footer(*m, m.defs@.len() as int),
{
    let mut r = String::new();
    let mut k3: usize = 0;
    while k3 < m.defs.len()
        invariant
            k3 <= m.defs@.len(),
            r@ == hlsl_footer(*m, k3 as int),
        decreases m.defs@.len() - k3,
    {
        let name = m.defs[k3].name();
        if !m.is_enum_variant(name) {
            r.append("#define ");
            let sn = crate::text::to_snake_case(name);
            let up = crate::text::str_to_uppercase(sn.as_str());
            r.append(up.as_str());
            r.append("_SIZE ");
            let sz = m.defs[k3].size(m);
            push_dec(&mut r, sz);
            r.append("\n");
        }
        if let crate::model::GpuTypeDef::Enum(en) = &m.defs[k3] {
            let ghost head4 = r@;
            let mut v: usize = 0;
            while v < en.variants.len()
                invariant
                    v <= en.variants@.len(),
                    r@ == head4 + hlsl_tag_lines(en.name@, en.variants@, v as int),
                decreases en.variants@.len() - v,
            {
                r.append("#define ");
                r.append(en.name.as_str());
                r.append("_");
                r.append(en.variants[v].0.as_str());
                r.append(" ");
                push_dec(&mut r, v);
                r.append("\n");
                v += 1;
            }
        }
        k3 += 1;
    }
    r
}

impl GpuModule {
    /// The whole HLSL output of this module.
    #[verifier::loop_isolation(false)]
    #[verifier::rlimit(60)]
    pub fn to_hlsl(&self) -> (r: String)
        requires
            self.wf(),
            module_hlsl_ok(*self),
        ensures
            r@ == module_hlsl_text(*self),
    {
        let mut r = String::new();
        let e8 = generate_hlsl_value_extractor(8);
        r.append(e8.as_str());
        let e16 = generate_hlsl_value_extractor(16);
        r.append(e16.as_str());
        let td = hlsl_typedefs(self);
        r.append(td.as_str());
        r.append("\n");
        let ghost head2 = r@;
        let mut k2: usize = 0;
        while k2 < self.defs.len()
            invariant
                k2 <= self.defs@.len(),
                r@ == head2 + hlsl_body_texts(*self, k2 as int),
            decreases self.defs@.len() - k2,
        {
            let body = self.defs[k2].to_hlsl(self);
            r.append(body.as_str());
            k2 += 1;
        }
        let ft = hlsl_footer_lines(self);
        r.append(ft.as_str());
        proof {
            assert(r@ =~= module_hlsl_text(*self));
        }
        r
    }
}

} // verus!
