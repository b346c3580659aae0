//! The library's laws: properties of the packing and of the emitted
//! text, stated and proved over the same specifications the emitters'
//! contracts use.

use vstd::prelude::*;

use crate::hlsl::{extractor_text, ps_def_lines, ps_def_text, ps_of, ps_start};
use crate::model::{
    def_name, def_size_at, spec_is_enum_variant, type_size_full, type_wf, GpuModule, GpuType,
};
use crate::msl::{metal_struct_header, module_metal_text};
use crate::pack::{
    close_ty, empty_slot, fields_v, pack_model, slot_closed_wf, stored_min, stored_sum, stored_wf,
    StoredV,
};
use crate::text::uints_of;
use crate::scalar::{is_word_scalar, GpuScalar};
use crate::text::{dec_of, snake_of, upper_str};

verus! {

/// A slot's sum exceeds any single member by the count of the others,
/// when every member is at least one byte.
proof fn lemma_stored_sum_without(m: GpuModule, stored: Seq<StoredV>, n: int, j: int)
    requires
        m.wf(),
        stored_wf(m, stored),
        stored_min(m, stored),
        0 <= j < n <= stored.len(),
    ensures
        stored_sum(m, stored, n) >= type_size_full(m, stored[j].ty) + (n - 1),
    decreases n,
{
    crate::model::lemma_type_size_range(m, stored[n - 1].ty, m.defs@.len() as int);
    if j == n - 1 {
        crate::pack::lemma_stored_sum_mono(m, stored, 0, n - 1);
        lemma_sum_at_least_count(m, stored, n - 1);
    } else {
        lemma_stored_sum_without(m, stored, n - 1, j);
    }
}

/// A sum over members of at least one byte is at least the member count.
proof fn lemma_sum_at_least_count(m: GpuModule, stored: Seq<StoredV>, n: int)
    requires
        stored_min(m, stored),
        0 <= n <= stored.len(),
    ensures
        stored_sum(m, stored, n) >= n,
    decreases n,
{
    if n > 0 {
        lemma_sum_at_least_count(m, stored, n - 1);
    }
}

/// Law (slot fill): in the packing of a struct's fields, every slot that
/// holds two or more stored fields has sizes summing to at most one
/// 32-bit word, and each stored field is sub-word.
pub proof fn lemma_slot_fill(m: GpuModule, fields: Seq<(String, GpuType)>, i: int)
    requires
        m.wf(),
        crate::pack::fields_ok(m, fields),
        0 <= i < pack_model(m, fields_v(fields), empty_slot()).len(),
        pack_model(m, fields_v(fields), empty_slot())[i].stored.len() >= 2,
    ensures
        ({
            let s = pack_model(m, fields_v(fields), empty_slot())[i];
            &&& stored_sum(m, s.stored, s.stored.len() as int) <= 4
            &&& forall|j: int|
                0 <= j < s.stored.len() ==> 1 <= type_size_full(
                    m,
                    (#[trigger] s.stored[j]).ty,
                ) <= 3
        }),
{
    lemma_fields_v_ok(m, fields);
    crate::pack::lemma_pack_model_wf(m, fields_v(fields), empty_slot());
    let s = pack_model(m, fields_v(fields), empty_slot())[i];
    assert(slot_closed_wf(m, s));
    let n = s.stored.len() as int;
    assert forall|j: int| 0 <= j < s.stored.len() implies 1 <= type_size_full(
        m,
        (#[trigger] s.stored[j]).ty,
    ) <= 3 by {
        lemma_stored_sum_without(m, s.stored, n, j);
    }
}

/// The packer's preconditions follow from a well-formed field list.
proof fn lemma_fields_v_ok(m: GpuModule, fields: Seq<(String, GpuType)>)
    requires
        crate::pack::fields_ok(m, fields),
    ensures
        crate::pack::slot_open_wf(m, empty_slot()),
        stored_min(m, empty_slot().stored),
        forall|k: int|
            0 <= k < fields_v(fields).len() ==> type_wf(
                m,
                (#[trigger] fields_v(fields)[k]).1,
                m.defs@.len() as int,
            ) && type_size_full(m, fields_v(fields)[k].1) >= 1,
{
    assert(stored_sum(m, empty_slot().stored, 0) == 0);
    assert forall|k: int| 0 <= k < fields_v(fields).len() implies type_wf(
        m,
        (#[trigger] fields_v(fields)[k]).1,
        m.defs@.len() as int,
    ) && type_size_full(m, fields_v(fields)[k].1) >= 1 by {
        assert(fields_v(fields)[k].1 == fields[k].1);
    }
}

/// Law (bit-offset correctness): within a multi-field slot, the stored
/// field at position `j` sits at bit offset `32 - 8 *` (the sum of the
/// sizes up to and including it), counted from the most significant bit.
pub proof fn lemma_bit_offsets(m: GpuModule, fields: Seq<(String, GpuType)>, i: int, j: int)
    requires
        m.wf(),
        crate::pack::fields_ok(m, fields),
        0 <= i < pack_model(m, fields_v(fields), empty_slot()).len(),
        pack_model(m, fields_v(fields), empty_slot())[i].stored.len() >= 2,
        0 <= j < pack_model(m, fields_v(fields), empty_slot())[i].stored.len(),
    ensures
        ({
            let s = pack_model(m, fields_v(fields), empty_slot())[i];
            s.stored[j].offset == 32 - 8 * stored_sum(m, s.stored, j + 1)
        }),
{
    lemma_fields_v_ok(m, fields);
    crate::pack::lemma_pack_model_wf(m, fields_v(fields), empty_slot());
    let s = pack_model(m, fields_v(fields), empty_slot())[i];
    assert(slot_closed_wf(m, s));
    assert(crate::pack::offsets_ok(m, s.stored, s.stored.len() as int));
}

/// Law (packed-type mapping): a lone native 32-bit scalar keeps its
/// type; a lone sub-word scalar is stored as `U32`; and several packed
/// fields summing to two to four words are stored as a `U32` vector of
/// that many words.
pub proof fn lemma_packed_type_mapping(m: GpuModule, stored: Seq<StoredV>)
    ensures
        (stored.len() == 1 && (stored[0].ty matches GpuType::Scalar(s) && is_word_scalar(s)))
            ==> close_ty(m, stored) == stored[0].ty,
        (stored.len() == 1 && (stored[0].ty matches GpuType::Scalar(s) && !is_word_scalar(s)))
            ==> close_ty(m, stored) == GpuType::Scalar(GpuScalar::U32),
        stored.len() >= 2 && 2 <= uints_of(stored_sum(m, stored, stored.len() as int)) <= 4
            ==> close_ty(m, stored) == GpuType::Vector(
            GpuScalar::U32,
            uints_of(stored_sum(m, stored, stored.len() as int)) as usize,
        ),
        stored.len() >= 2 && uints_of(stored_sum(m, stored, stored.len() as int)) == 1
            ==> close_ty(m, stored) == GpuType::Scalar(GpuScalar::U32),
{
}

/// Law (enum-variant tag): a struct recorded as an enum-variant payload
/// is emitted with a leading `uint tag` field in both dialects, and its
/// packed accessors read the body starting at byte offset 4.
pub proof fn lemma_enum_variant_tag(m: GpuModule, name: Seq<char>, fields: Seq<(String, GpuType)>)
    requires
        spec_is_enum_variant(m, name),
    ensures
        metal_struct_header(m, name) == "struct "@ + name + "Packed {\n"@ + "    uint tag;\n"@,
        ps_def_text(ps_of(m, name, fields)) == "struct "@ + (name + "Packed"@) + " {\n"@
            + "    uint tag;\n"@ + ps_def_lines(
            ps_of(m, name, fields),
            ps_of(m, name, fields).slots.len() as int,
        ) + "};\n\n"@,
        ps_start(ps_of(m, name, fields)) == 4,
{
}

/// Law (bulk-copy coverage): the four-word groups and the tail words of
/// the emitted bulk copy cover, with no overlap, exactly the enum's size
/// rounded up to the next 4-byte multiple: the groups cover bytes
/// `[0, 16q)` and the tail `[16q, 16q + 4r)`.
pub proof fn lemma_bulk_copy_coverage(size: int)
    requires
        size >= 0,
    ensures
        ({
            let q = size / 16;
            let rem = (size + 3) / 4 - q * 4;
            &&& 0 <= rem <= 4
            &&& q * 16 + rem * 4 == 4 * ((size + 3) / 4)
            &&& size <= q * 16 + rem * 4 < size + 4
        }),
{
    let q = size / 16;
    let rem = (size + 3) / 4 - q * 4;
    assert(size <= 4 * ((size + 3) / 4) < size + 4) by (nonlinear_arith)
        requires
            size >= 0,
    ;
    assert(q * 16 <= size && size < q * 16 + 16) by (nonlinear_arith)
        requires
            q == size / 16,
            size >= 0,
    ;
    assert(0 <= rem <= 4) by (nonlinear_arith)
        requires
            rem == (size + 3) / 4 - q * 4,
            size <= 4 * ((size + 3) / 4) < size + 4,
            q * 16 <= size && size < q * 16 + 16,
    ;
}

/// The enum body is emitted as `uint body[((size + 3) / 4) - 1]`; with
/// the tag word in front, the emitted struct spans `4 * ceil(size / 4)`
/// bytes — a conservative cover of the layout size, never short of it.
/// For an enum whose first payloads embed the tag, `size` already counts
/// that shared word, so the body errs on the wide side rather than
/// under-counting.
pub proof fn lemma_enum_body_bound(size: int)
    requires
        size >= 4,
    ensures
        ({
            let body = (size + 3) / 4 - 1;
            &&& body >= 0
            &&& size <= 4 * (1 + body) < size + 4
        }),
{
    assert(size <= 4 * ((size + 3) / 4) < size + 4 && (size + 3) / 4 >= 1) by (nonlinear_arith)
        requires
            size >= 4,
    ;
}

/// Law (size macro): the `_SIZE` macro emitted for a definition that is
/// not an enum-variant payload carries exactly the layout size of that
/// definition.
pub proof fn lemma_size_macro(m: GpuModule, i: int)
    requires
        0 <= i < m.defs@.len(),
        !spec_is_enum_variant(m, def_name(m.defs@[i])),
    ensures
        crate::hlsl::def_footer_text(m, i) == "#define "@ + upper_str(
            snake_of(def_name(m.defs@[i])),
        ) + "_SIZE "@ + dec_of(def_size_at(m, i)) + "\n"@ + match m.defs@[i] {
            crate::model::GpuTypeDef::Enum(en) => crate::hlsl::hlsl_tag_lines(
                en.name@,
                en.variants@,
                en.variants@.len() as int,
            ),
            _ => Seq::<char>::empty(),
        },
{
}

/// Law (determinism): both outputs are functions of the module value
/// alone — `to_metal` and `to_hlsl` promise exactly these texts — so two
/// runs on equal modules emit byte-identical source.
pub proof fn lemma_emission_deterministic(m1: GpuModule, m2: GpuModule)
    requires
        m1 == m2,
    ensures
        module_metal_text(m1) == module_metal_text(m2),
        crate::hlsl::module_hlsl_text(m1) == crate::hlsl::module_hlsl_text(m2),
{
}

/// The value computed by the emitted extractor helper: the package
/// shifted right and masked to the low `bits` bits.
pub open spec fn extract_value(bits: u32, shift: u32, package: u32) -> u32 {
    (package >> shift) & (((1u64 << (bits as u64)) - 1) as u32)
}

/// Law (extractor correctness): the 8-bit extractor emitted in the HLSL
/// header computes `(package >> shift) & 0xFF` — its mask literal is 255.
pub proof fn lemma_extract_8bit(shift: u32, package: u32)
    ensures
        extract_value(8, shift, package) == (package >> shift) & 0xFF,
        extractor_text(8) == "inline uint extract_"@ + dec_of(8)
            + "bit_value(uint bit_shift, uint package) {\n"@ + "    uint mask = "@ + dec_of(255)
            + ";\n"@ + "    uint result = (package >> bit_shift) & mask;\n\n    return result;\n}\n\n"@,
{
    assert((1u64 << 8u64) == 256) by (bit_vector);
}

} // verus!
