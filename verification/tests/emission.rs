use piet_metal_derive::hlsl::generate_hlsl_value_extractor;
use piet_metal_derive::model::{align_padding, GpuEnum, GpuModule, GpuType, GpuTypeDef};
use piet_metal_derive::scalar::GpuScalar;
use piet_metal_derive::text::{simplified_add, size_in_uints, to_snake_case};

fn module_of(defs: Vec<GpuTypeDef>) -> GpuModule {
    let mut enum_variants: Vec<String> = Vec::new();
    for def in &defs {
        def.collect_refs(&mut enum_variants);
    }
    GpuModule {
        name: String::from("scene"),
        enum_variants,
        defs,
    }
}

fn foo_fields() -> Vec<(String, GpuType)> {
    vec![
        (String::from("a"), GpuType::Scalar(GpuScalar::U8)),
        (String::from("b"), GpuType::Scalar(GpuScalar::U8)),
        (String::from("c"), GpuType::Scalar(GpuScalar::U16)),
    ]
}

fn scene_module() -> GpuModule {
    let foo = GpuTypeDef::Struct(String::from("Foo"), foo_fields());
    let bar = GpuTypeDef::Struct(
        String::from("Bar"),
        vec![
            (
                String::from("p"),
                GpuType::Ref(Box::new(GpuType::InlineStruct(String::from("Foo")))),
            ),
            (String::from("q"), GpuType::Scalar(GpuScalar::F32)),
        ],
    );
    let item = GpuTypeDef::Enum(GpuEnum {
        name: String::from("PietItem"),
        variants: vec![
            (
                String::from("A"),
                vec![GpuType::InlineStruct(String::from("Foo"))],
            ),
            (
                String::from("B"),
                vec![GpuType::InlineStruct(String::from("Bar"))],
            ),
        ],
    });
    module_of(vec![foo, bar, item])
}

#[test]
fn extractor_text_is_exact() {
    assert_eq!(
        generate_hlsl_value_extractor(8),
        "inline uint extract_8bit_value(uint bit_shift, uint package) {\n    uint mask = 255;\n    uint result = (package >> bit_shift) & mask;\n\n    return result;\n}\n\n"
    );
    assert_eq!(
        generate_hlsl_value_extractor(16),
        "inline uint extract_16bit_value(uint bit_shift, uint package) {\n    uint mask = 65535;\n    uint result = (package >> bit_shift) & mask;\n\n    return result;\n}\n\n"
    );
}

#[test]
fn extractor_computes_masked_shift() {
    // The emitted 8-bit helper masks the shifted package to one byte.
    let package: u32 = 0xAABBCCDD;
    let mask: u32 = 255;
    for (shift, expect) in [(24u32, 0xAAu32), (16, 0xBB), (8, 0xCC), (0, 0xDD)] {
        let result = (package >> shift) & mask;
        assert_eq!(result, expect);
        assert_eq!(result, (package >> shift) & 0xFF);
    }
}

#[test]
fn simplified_add_omits_zero_offsets() {
    assert_eq!(simplified_add("ref", 0), "ref");
    assert_eq!(simplified_add("ref", 8), "ref + 8");
    assert_eq!(simplified_add("src_ref", 16), "src_ref + 16");
}

#[test]
fn size_in_uints_rounds_up() {
    assert_eq!(size_in_uints(0), 0);
    assert_eq!(size_in_uints(1), 1);
    assert_eq!(size_in_uints(4), 1);
    assert_eq!(size_in_uints(5), 2);
    assert_eq!(size_in_uints(16), 4);
}

#[test]
fn align_padding_rounds_to_alignment() {
    assert_eq!(align_padding(5, 4), 3);
    assert_eq!(align_padding(8, 4), 0);
    assert_eq!(align_padding(0, 8), 0);
}

#[test]
fn to_snake_case_breaks_at_uppercase() {
    assert_eq!(to_snake_case("PietItem"), "piet_item");
    assert_eq!(to_snake_case("Foo"), "foo");
    assert_eq!(to_snake_case("_Leading"), "_leading");
    assert_eq!(to_snake_case("RGBValue"), "rgbvalue");
    assert_eq!(to_snake_case("already_snake"), "already_snake");
}

#[test]
fn metal_output_for_single_struct_is_exact() {
    let module = module_of(vec![GpuTypeDef::Struct(
        String::from("Foo"),
        vec![(String::from("a"), GpuType::Scalar(GpuScalar::U32))],
    )]);
    let expected = "typedef uint FooRef;\nstruct FooPacked {\n    uint a;\n};\nFooPacked Foo_read(const device char *buf, FooRef ref) {\n    return *((const device FooPacked *)(buf + ref));\n}\nuint Foo_a(const device char *buf, FooRef ref) {\n    return ((const device FooPacked *)(buf + ref))->a;\n}\n";
    assert_eq!(module.to_metal(), expected);
}

#[test]
fn enum_sizes_account_for_embedded_tags() {
    let module = scene_module();
    // Both payload structs gain a tag word: Foo is 4 data bytes + 4,
    // Bar 8 data bytes + 4.
    assert_eq!(module.defs[0].size(&module), 8);
    assert_eq!(module.defs[1].size(&module), 12);
    // The enum takes the widest variant, whose embedded struct already
    // holds the tag.
    assert_eq!(module.defs[2].size(&module), 12);
}

#[test]
fn enum_offset_restarts_only_for_the_first_payload() {
    // The first payload embeds the tag (an empty enum-variant struct of
    // size 4); the second sits after it and is not folded into the tag
    // word, so the variant body spans 4 + size(Foo) = 8 bytes.
    let empty = GpuTypeDef::Struct(String::from("Empty"), vec![]);
    let foo = GpuTypeDef::Struct(
        String::from("Foo"),
        vec![(String::from("a"), GpuType::Scalar(GpuScalar::U32))],
    );
    let pair = GpuTypeDef::Enum(GpuEnum {
        name: String::from("Pair"),
        variants: vec![(
            String::from("V"),
            vec![
                GpuType::InlineStruct(String::from("Empty")),
                GpuType::InlineStruct(String::from("Foo")),
            ],
        )],
    });
    let module = module_of(vec![empty, foo, pair]);
    // Empty is an enum-variant struct: a bare tag word.
    assert_eq!(module.defs[0].size(&module), 4);
    // Foo is a second payload, not an enum-variant struct: no tag.
    assert_eq!(module.defs[1].size(&module), 4);
    assert_eq!(module.defs[2].size(&module), 8);
}

#[test]
fn tag_values_are_one_based_in_metal_and_zero_based_in_hlsl() {
    let module = scene_module();
    let metal = module.to_metal();
    assert!(metal.contains("#define PietItem_A 1\n"));
    assert!(metal.contains("#define PietItem_B 2\n"));
    let hlsl = module.to_hlsl();
    assert!(hlsl.contains("#define PietItem_A 0\n"));
    assert!(hlsl.contains("#define PietItem_B 1\n"));
}

#[test]
fn enum_variant_structs_carry_a_leading_tag() {
    let module = scene_module();
    let metal = module.to_metal();
    assert!(metal.contains("struct FooPacked {\n    uint tag;\n"));
    assert!(metal.contains("struct BarPacked {\n    uint tag;\n"));
    let hlsl = module.to_hlsl();
    assert!(hlsl.contains("struct FooPacked {\n    uint tag;\n"));
    // Accessors of an enum-variant struct start reading after the tag.
    assert!(hlsl.contains("    uint a_b_c = buf.Load(ref + 4);\n"));
}

#[test]
fn hlsl_reader_and_unpackers_for_packed_scalars() {
    let module = module_of(vec![GpuTypeDef::Struct(String::from("Foo"), foo_fields())]);
    let hlsl = module.to_hlsl();
    // One slot read with a single word load.
    assert!(hlsl.contains("inline FooPacked FooPacked_read(ByteAddressBuffer buf, FooPackedRef ref) {\n"));
    assert!(hlsl.contains("    uint a_b_c = buf.Load(ref);\n"));
    // Three unpackers at the packed bit offsets.
    assert!(hlsl.contains("inline uint FooPacked_unpack_a(uint a_b_c) {\n"));
    assert!(hlsl.contains("    result = extract_8bit_value(24, a_b_c);\n"));
    assert!(hlsl.contains("    result = extract_8bit_value(16, a_b_c);\n"));
    assert!(hlsl.contains("    result = extract_16bit_value(0, a_b_c);\n"));
}

#[test]
fn hlsl_vector_unpacker_extracts_lanes_msb_first() {
    let module = module_of(vec![GpuTypeDef::Struct(
        String::from("V"),
        vec![(String::from("v"), GpuType::Vector(GpuScalar::U8, 4))],
    )]);
    let hlsl = module.to_hlsl();
    assert!(hlsl.contains("inline uint4 VPacked_unpack_v(uint1 v) {\n"));
    assert!(hlsl.contains("    result[0] = extract_8bit_value(24, v);\n"));
    assert!(hlsl.contains("    result[1] = extract_8bit_value(16, v);\n"));
    assert!(hlsl.contains("    result[2] = extract_8bit_value(8, v);\n"));
    assert!(hlsl.contains("    result[3] = extract_8bit_value(0, v);\n"));
}

#[test]
fn hlsl_struct_reader_offsets_follow_slot_sizes() {
    let module = scene_module();
    let hlsl = module.to_hlsl();
    // Bar's two slots sit at offsets 4 and 8 (after its tag word).
    assert!(hlsl.contains("    FooRef p = buf.Load(ref + 4);\n"));
    assert!(hlsl.contains("    float q = buf.Load(ref + 8);\n"));
}

#[test]
fn hlsl_unpacker_rebuilds_logical_struct() {
    let module = module_of(vec![GpuTypeDef::Struct(String::from("Foo"), foo_fields())]);
    let hlsl = module.to_hlsl();
    assert!(hlsl.contains("inline Foo FooPacked_unpack(FooPacked packed_form) {\n"));
    assert!(hlsl.contains("    result.a = FooPacked_unpack_a(packed_form.a_b_c);\n"));
    assert!(hlsl.contains("    result.b = FooPacked_unpack_b(packed_form.a_b_c);\n"));
    assert!(hlsl.contains("    result.c = FooPacked_unpack_c(packed_form.a_b_c);\n"));
}

#[test]
fn hlsl_unpacker_copies_word_fields_directly() {
    // 32-bit natives and references have no per-field unpacker: the
    // whole-struct unpacker copies them straight from their slot.
    let module = scene_module();
    let hlsl = module.to_hlsl();
    assert!(hlsl.contains("inline Bar BarPacked_unpack(BarPacked packed_form) {\n"));
    assert!(hlsl.contains("    result.p = packed_form.p;\n"));
    assert!(hlsl.contains("    result.q = packed_form.q;\n"));
    assert!(!hlsl.contains("BarPacked_unpack_p"));
    assert!(!hlsl.contains("BarPacked_unpack_q"));
}

#[test]
fn size_macros_cover_top_level_definitions_only() {
    let module = scene_module();
    let hlsl = module.to_hlsl();
    assert!(hlsl.contains("#define PIET_ITEM_SIZE 12\n"));
    // Enum-variant payload structs get no size macro.
    assert!(!hlsl.contains("FOO_SIZE"));
    assert!(!hlsl.contains("BAR_SIZE"));
}

#[test]
fn bulk_copy_covers_enum_size() {
    let module = scene_module();
    let hlsl = module.to_hlsl();
    // size(PietItem) = 12: no 16-byte group, one 3-word tail copy.
    assert!(hlsl.contains(
        "inline void PietItem_read_into(ByteAddressBuffer src, uint src_ref, RWByteAddressBuffer dst, uint dst_ref) {\n"
    ));
    assert!(hlsl.contains("\n    uint3 group0 = src.Load3(src_ref);\n"));
    assert!(hlsl.contains("    dst.Store3(dst_ref, group0);\n"));
}

#[test]
fn bulk_copy_rounds_odd_sizes_up() {
    // A u8 payload gives size 5; the copy must cover 8 bytes (the size
    // rounded up to the next word), not 4.
    let module = module_of(vec![GpuTypeDef::Enum(GpuEnum {
        name: String::from("Odd"),
        variants: vec![(String::from("X"), vec![GpuType::Scalar(GpuScalar::U8)])],
    })]);
    assert_eq!(module.defs[0].size(&module), 5);
    let hlsl = module.to_hlsl();
    assert!(hlsl.contains("\n    uint2 group0 = src.Load2(src_ref);\n"));
    assert!(hlsl.contains("    dst.Store2(dst_ref, group0);\n"));
    // The emitted body is also a conservative cover: one body word plus
    // the tag spans 8 bytes for the 5-byte layout.
    assert!(hlsl.contains("    uint body[1];\n"));
}

#[test]
fn bulk_copy_emits_four_word_tail() {
    // Two words plus a byte give size 13: the tail is a whole Load4.
    let module = module_of(vec![GpuTypeDef::Enum(GpuEnum {
        name: String::from("Wide"),
        variants: vec![(
            String::from("X"),
            vec![
                GpuType::Scalar(GpuScalar::U32),
                GpuType::Scalar(GpuScalar::U32),
                GpuType::Scalar(GpuScalar::U8),
            ],
        )],
    })]);
    assert_eq!(module.defs[0].size(&module), 13);
    let hlsl = module.to_hlsl();
    assert!(hlsl.contains("\n    uint4 group0 = src.Load4(src_ref);\n"));
    assert!(hlsl.contains("    dst.Store4(dst_ref, group0);\n"));
    assert!(hlsl.contains("    uint body[3];\n"));
}

#[test]
fn enum_body_word_count_covers_the_size() {
    // size(PietItem) = 12: a tag word and body[2] span exactly 12 bytes.
    let module = scene_module();
    let hlsl = module.to_hlsl();
    assert!(hlsl.contains("struct PietItem {\n    uint tag;\n    uint body[2];\n};\n"));
    let metal = module.to_metal();
    assert!(metal.contains("struct PietItem {\n    uint tag;\n    uint body[2];\n};\n"));
}

#[test]
fn outputs_are_deterministic() {
    let m1 = scene_module();
    let m2 = scene_module();
    assert_eq!(m1.to_metal(), m2.to_metal());
    assert_eq!(m1.to_hlsl(), m2.to_hlsl());
    assert_eq!(m1.to_hlsl(), m1.to_hlsl());
}

#[test]
fn resolve_by_name_finds_first_and_reports_missing() {
    let module = scene_module();
    let d = module.resolve_by_name("Bar").unwrap();
    assert_eq!(d.name(), "Bar");
    let e = module.resolve_by_name("Quux").unwrap_err();
    assert_eq!(e, "could not find Quux in module");
}

#[test]
fn hlsl_output_for_vector_struct_is_exact() {
    let module = module_of(vec![GpuTypeDef::Struct(
        String::from("V"),
        vec![(String::from("v"), GpuType::Vector(GpuScalar::U8, 4))],
    )]);
    let mut expected = String::new();
    expected.push_str("inline uint extract_8bit_value(uint bit_shift, uint package) {\n");
    expected.push_str("    uint mask = 255;\n");
    expected.push_str("    uint result = (package >> bit_shift) & mask;\n\n    return result;\n}\n\n");
    expected.push_str("inline uint extract_16bit_value(uint bit_shift, uint package) {\n");
    expected.push_str("    uint mask = 65535;\n");
    expected.push_str("    uint result = (package >> bit_shift) & mask;\n\n    return result;\n}\n\n");
    expected.push_str("typedef uint VRef;\n");
    expected.push_str("typedef uint VPackedRef;\n");
    expected.push_str("\n");
    expected.push_str("struct VPacked {\n    uint1 v;\n};\n\n");
    expected.push_str("inline VPacked VPacked_read(ByteAddressBuffer buf, VPackedRef ref) {\n");
    expected.push_str("    VPacked result;\n\n");
    expected.push_str("    uint1 v = buf.Load(ref);\n");
    expected.push_str("    result.v = v;\n\n");
    expected.push_str("    return result;\n}\n\n");
    expected.push_str("inline uint1 VPacked_v(ByteAddressBuffer buf, VPackedRef ref) {\n");
    expected.push_str("    uint1 v = buf.Load(ref);\n");
    expected.push_str("    return v;\n}\n\n");
    expected.push_str("inline uint4 VPacked_unpack_v(uint1 v) {\n");
    expected.push_str("    uint4 result;\n\n");
    expected.push_str("    result[0] = extract_8bit_value(24, v);\n");
    expected.push_str("    result[1] = extract_8bit_value(16, v);\n");
    expected.push_str("    result[2] = extract_8bit_value(8, v);\n");
    expected.push_str("    result[3] = extract_8bit_value(0, v);\n");
    expected.push_str("    return result;\n}\n\n");
    expected.push_str("struct V {\n    uint v;\n};\n\n");
    expected.push_str("inline V VPacked_unpack(VPacked packed_form) {\n");
    expected.push_str("    V result;\n\n");
    expected.push_str("    result.v = VPacked_unpack_v(packed_form.v);\n");
    expected.push_str("\n    return result;\n}\n\n");
    expected.push_str("#define V_SIZE 4\n");
    assert_eq!(module.to_hlsl(), expected);
}

#[test]
fn empty_module_emits_only_headers() {
    let module = module_of(vec![]);
    assert_eq!(module.to_metal(), "");
    let hlsl = module.to_hlsl();
    let mut expected = String::new();
    expected.push_str("inline uint extract_8bit_value(uint bit_shift, uint package) {\n");
    expected.push_str("    uint mask = 255;\n");
    expected.push_str("    uint result = (package >> bit_shift) & mask;\n\n    return result;\n}\n\n");
    expected.push_str("inline uint extract_16bit_value(uint bit_shift, uint package) {\n");
    expected.push_str("    uint mask = 65535;\n");
    expected.push_str("    uint result = (package >> bit_shift) & mask;\n\n    return result;\n}\n\n");
    expected.push_str("\n");
    assert_eq!(hlsl, expected);
}
