use float_pigment::compat::{
    compare_enum_items, compare_struct_fields, compare_variant, CompatError, EnumItem, EnumType,
};

fn item(typing: EnumType, ident: &str, field: &[&str]) -> EnumItem {
    EnumItem {
        typing,
        ident: ident.to_string(),
        field: field.iter().map(|s| s.to_string()).collect(),
    }
}

fn strings(v: &[&str]) -> Vec<String> {
    v.iter().map(|s| s.to_string()).collect()
}

#[test]
fn enum_may_gain_variants_at_its_end() {
    let prev = vec![item(EnumType::Unit, "A", &[]), item(EnumType::Named, "B", &["u8"])];
    let next = vec![
        item(EnumType::Unit, "A", &[]),
        item(EnumType::Named, "B", &["u8", "u16"]),
        item(EnumType::Unnamed, "C", &["Vec < u8 >"]),
    ];
    assert_eq!(compare_enum_items(&prev, &next), Ok(()));
    assert_eq!(
        compare_enum_items(&next, &prev),
        Err(CompatError::VariantsRemoved { cached: 3, current: 2 })
    );
}

#[test]
fn enum_variant_changes_are_reported() {
    let p = item(EnumType::Unit, "A", &[]);
    assert_eq!(
        compare_variant(&p, &item(EnumType::Named, "A", &[]), 4),
        Some(CompatError::VariantKindChanged { idx: 4 })
    );
    assert_eq!(
        compare_variant(&p, &item(EnumType::Unit, "Z", &[]), 0),
        Some(CompatError::UnitVariantRenamed { idx: 0 })
    );
    let p = item(EnumType::Named, "B", &["u8", "u16"]);
    assert_eq!(
        compare_variant(&p, &item(EnumType::Named, "B", &["u8"]), 1),
        Some(CompatError::NamedFieldsRemoved { idx: 1 })
    );
    assert_eq!(
        compare_variant(&p, &item(EnumType::Named, "B", &["u8", "u32"]), 1),
        Some(CompatError::NamedFieldChanged { variant: 1, field: 1 })
    );
    let p = item(EnumType::Unnamed, "C", &["Vec<u8>"]);
    assert_eq!(compare_variant(&p, &item(EnumType::Unnamed, "C", &["Vec < u8 >"]), 2), None);
    assert_eq!(
        compare_variant(&p, &item(EnumType::Unnamed, "C", &["Vec<u8>", "u8"]), 2),
        Some(CompatError::UnnamedFieldCountChanged { idx: 2 })
    );
    assert_eq!(
        compare_variant(&p, &item(EnumType::Unnamed, "C", &["Vec<u16>"]), 2),
        Some(CompatError::UnnamedFieldChanged { variant: 2, field: 0 })
    );
    assert_eq!(
        compare_variant(&p, &item(EnumType::Unnamed, "D", &["Vec<u8>"]), 2).map(|e| e.code()),
        Some(1006)
    );
}

#[test]
fn struct_may_gain_fields_at_its_end() {
    let prev = strings(&["a: u8", "b: u16"]);
    assert_eq!(compare_struct_fields(&prev, &strings(&["a: u8", "b: u16", "c: u32"])), Ok(()));
    assert_eq!(
        compare_struct_fields(&prev, &strings(&["a: u8"])),
        Err(CompatError::FieldsRemoved { cached: 2, current: 1 })
    );
    assert_eq!(
        compare_struct_fields(&prev, &strings(&["a: u8", "b: u32"])),
        Err(CompatError::FieldChanged { idx: 1 })
    );
    assert_eq!(CompatError::FieldChanged { idx: 1 }.code(), 2001);
}
