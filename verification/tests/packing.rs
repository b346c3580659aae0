use piet_metal_derive::model::{GpuModule, GpuType, GpuTypeDef};
use piet_metal_derive::pack::{PackResult, PackedField, PackedStruct};
use piet_metal_derive::scalar::GpuScalar;

fn module_of(defs: Vec<GpuTypeDef>) -> GpuModule {
    let mut enum_variants: Vec<String> = Vec::new();
    for def in &defs {
        def.collect_refs(&mut enum_variants);
    }
    GpuModule {
        name: String::from("scene"),
        enum_variants,
        defs,
    }
}

fn foo_fields() -> Vec<(String, GpuType)> {
    vec![
        (String::from("a"), GpuType::Scalar(GpuScalar::U8)),
        (String::from("b"), GpuType::Scalar(GpuScalar::U8)),
        (String::from("c"), GpuType::Scalar(GpuScalar::U16)),
    ]
}

#[test]
fn packs_three_small_scalars_into_one_slot() {
    let fields = foo_fields();
    let module = module_of(vec![GpuTypeDef::Struct(String::from("Foo"), foo_fields())]);
    let packed = PackedStruct::new(&module, "Foo", &fields);
    assert_eq!(packed.name, "FooPacked");
    assert!(!packed.is_enum_variant);
    assert_eq!(packed.packed_fields.len(), 1);
    let slot = &packed.packed_fields[0];
    assert_eq!(slot.name, "a_b_c");
    assert!(matches!(slot.ty, Some(GpuType::Scalar(GpuScalar::U32))));
    assert_eq!(slot.size, 4);
    let offsets: Vec<usize> = slot.stored_fields.iter().map(|sf| sf.offset).collect();
    assert_eq!(offsets, vec![24, 16, 0]);
}

#[test]
fn ref_and_float_take_separate_word_slots() {
    let foo = GpuTypeDef::Struct(String::from("Foo"), foo_fields());
    let bar_fields = vec![
        (
            String::from("p"),
            GpuType::Ref(Box::new(GpuType::InlineStruct(String::from("Foo")))),
        ),
        (String::from("q"), GpuType::Scalar(GpuScalar::F32)),
    ];
    let module = module_of(vec![
        foo,
        GpuTypeDef::Struct(String::from("Bar"), bar_fields.clone()),
    ]);
    let packed = PackedStruct::new(&module, "Bar", &bar_fields);
    assert_eq!(packed.packed_fields.len(), 2);
    assert_eq!(packed.packed_fields[0].name, "p");
    assert!(matches!(packed.packed_fields[0].ty, Some(GpuType::Ref(_))));
    assert_eq!(packed.packed_fields[1].name, "q");
    assert!(matches!(
        packed.packed_fields[1].ty,
        Some(GpuType::Scalar(GpuScalar::F32))
    ));
}

#[test]
fn sub_word_vector_packs_to_one_uint() {
    let v_fields = vec![(String::from("v"), GpuType::Vector(GpuScalar::U8, 4))];
    let module = module_of(vec![GpuTypeDef::Struct(String::from("V"), v_fields.clone())]);
    let packed = PackedStruct::new(&module, "V", &v_fields);
    assert_eq!(packed.packed_fields.len(), 1);
    let slot = &packed.packed_fields[0];
    assert_eq!(slot.name, "v");
    assert!(matches!(
        slot.stored_fields[0].ty,
        GpuType::Vector(GpuScalar::U8, 4)
    ));
    // A lone sub-word vector is stored as the one 32-bit word it needs.
    assert!(matches!(slot.ty, Some(GpuType::Vector(GpuScalar::U32, 1))));
    assert_eq!(slot.stored_fields[0].offset, 0);
}

#[test]
fn pack_reports_state_transitions() {
    let module = module_of(vec![]);
    let mut slot = PackedField::new();
    let r1 = slot
        .pack(&module, &GpuType::Scalar(GpuScalar::U16), "x")
        .unwrap();
    assert!(matches!(r1, PackResult::SuccessAndOpen));
    let r2 = slot
        .pack(&module, &GpuType::Scalar(GpuScalar::U16), "y")
        .unwrap();
    assert!(matches!(r2, PackResult::SuccessAndOpen));
    // A third half-word no longer fits: the slot closes unchanged.
    let r3 = slot
        .pack(&module, &GpuType::Scalar(GpuScalar::U16), "z")
        .unwrap();
    assert!(matches!(r3, PackResult::FailAndClosed));
    assert_eq!(slot.name, "x_y");
    // A closed slot takes nothing more.
    let r4 = slot.pack(&module, &GpuType::Scalar(GpuScalar::U8), "w");
    assert_eq!(r4.unwrap_err(), "cannot extend closed package");
}

#[test]
fn close_rejects_empty_and_closed_slots() {
    let module = module_of(vec![]);
    let mut slot = PackedField::new();
    assert_eq!(slot.close(&module).unwrap_err(), "cannot close empty package");
    slot.pack(&module, &GpuType::Scalar(GpuScalar::U8), "a")
        .unwrap();
    slot.close(&module).unwrap();
    assert_eq!(
        slot.close(&module).unwrap_err(),
        "cannot close closed package"
    );
}

#[test]
fn slot_size_requires_a_closed_slot() {
    let module = module_of(vec![]);
    let mut slot = PackedField::new();
    assert_eq!(
        slot.size(&module).unwrap_err(),
        "cannot calculate size of open packed field"
    );
    slot.pack(&module, &GpuType::Scalar(GpuScalar::U16), "h")
        .unwrap();
    slot.close(&module).unwrap();
    assert_eq!(slot.size(&module).unwrap(), 4);
}

#[test]
fn oversized_field_sits_alone_at_offset_zero() {
    let fields = vec![
        (String::from("small"), GpuType::Scalar(GpuScalar::U8)),
        (String::from("wide"), GpuType::Vector(GpuScalar::F32, 2)),
    ];
    let module = module_of(vec![GpuTypeDef::Struct(String::from("W"), fields.clone())]);
    let packed = PackedStruct::new(&module, "W", &fields);
    assert_eq!(packed.packed_fields.len(), 2);
    assert_eq!(packed.packed_fields[0].name, "small");
    let wide = &packed.packed_fields[1];
    assert_eq!(wide.name, "wide");
    assert_eq!(wide.stored_fields[0].offset, 0);
    assert!(matches!(wide.ty, Some(GpuType::Vector(GpuScalar::F32, 2))));
}

#[test]
fn reader_rejects_open_slots_and_empty_vectors() {
    let module = module_of(vec![]);
    let open_slot = PackedField::new();
    assert_eq!(
        open_slot.generate_hlsl_reader(0).unwrap_err(),
        "cannot generate field reader from an open packed field"
    );
    assert_eq!(
        open_slot
            .generate_hlsl_accessor("FooPacked", "FooPackedRef", "")
            .unwrap_err(),
        "cannot generate field accessor from open packed field"
    );
    let zero_vec = PackedField {
        name: String::from("z"),
        ty: Some(GpuType::Vector(GpuScalar::U8, 0)),
        stored_fields: vec![],
        size: 0,
    };
    assert_eq!(
        zero_vec.generate_hlsl_reader(0).unwrap_err(),
        "vector of size 0 is not well defined!"
    );
}
