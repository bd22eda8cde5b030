use exocore::store::schema::{
    build_dynamic_fields_mapping, build_schema_short_type_mapping, get_dynamic_trait_field,
    get_message_name_from_short, sort_by_for, DynamicFieldError, DynamicFieldKind, DynamicFields, FieldDescriptor,
    FieldType, MessageDescriptor, OrderingError, OrderingKind, Registry, SortBy,
};

fn field(name: &str, field_type: FieldType, indexed: bool, sorted: bool, text: bool) -> FieldDescriptor {
    FieldDescriptor { name: name.to_string(), field_type, indexed_flag: indexed, sorted_flag: sorted, text_flag: text }
}

fn registry() -> Registry {
    Registry {
        messages: vec![
            MessageDescriptor {
                name: "exocore.test.TestMessage".to_string(),
                fields: vec![
                    field("string1", FieldType::String, true, false, false),
                    field("text1", FieldType::String, false, false, true),
                    field("date1", FieldType::DateTime, false, true, false),
                    field("uint1", FieldType::Uint64, true, false, false),
                    field("int1", FieldType::Int32, false, true, false),
                    field("ref1", FieldType::Reference, true, false, false),
                    field("not_indexed", FieldType::Uint32, false, false, false),
                    field("list", FieldType::Repeated(Box::new(FieldType::String)), true, false, false),
                    field("sub", FieldType::Message("exocore.test.Sub".to_string()), true, false, false),
                    field("missing", FieldType::Message("exocore.test.Missing".to_string()), true, false, false),
                ],
                short_names: vec!["Test".to_string(), "tst".to_string()],
            },
            MessageDescriptor {
                name: "exocore.test.Sub".to_string(),
                fields: vec![
                    field("a", FieldType::Int64, true, false, false),
                    field("b", FieldType::Uint64, false, true, false),
                ],
                short_names: vec!["test".to_string()],
            },
            MessageDescriptor {
                name: "exocore.test.Empty".to_string(),
                fields: vec![field("x", FieldType::String, false, false, false)],
                short_names: vec![],
            },
        ],
    }
}

fn dyn_fields() -> DynamicFields {
    DynamicFields { reference: 2, text: 2, string: 2, i64: 2, i64_fast: 2, u64: 2, u64_fast: 1 }
}

#[test]
fn maps_fields_to_dynamic_fields() {
    let registry = registry();
    let mappings = build_dynamic_fields_mapping(&registry, &dyn_fields());
    let names: Vec<&str> = mappings.iter().map(|(n, _)| n.as_str()).collect();
    assert_eq!(names, vec!["exocore.test.TestMessage", "exocore.test.Sub"]);

    let get = |f: &str| {
        let m = get_dynamic_trait_field(&mappings, &"exocore.test.TestMessage".to_string(), &f.to_string()).unwrap();
        (m.kind, m.slot, m.is_fast_field)
    };
    assert_eq!(get("string1"), (DynamicFieldKind::String, 0, false));
    assert_eq!(get("text1"), (DynamicFieldKind::Text, 0, false));
    assert_eq!(get("date1"), (DynamicFieldKind::U64Fast, 0, true));
    assert_eq!(get("uint1"), (DynamicFieldKind::U64, 0, false));
    assert_eq!(get("int1"), (DynamicFieldKind::I64Fast, 0, true));
    assert_eq!(get("ref1"), (DynamicFieldKind::Reference, 0, false));
    assert_eq!(get("sub.a"), (DynamicFieldKind::I64, 0, false));
    // the only u64 fast field is taken: a sorted field that isn't indexed gets none
    assert_eq!(
        get_dynamic_trait_field(&mappings, &"exocore.test.TestMessage".to_string(), &"sub.b".to_string()).err(),
        Some(DynamicFieldError::NoSuchField)
    );
    assert_eq!(
        get_dynamic_trait_field(&mappings, &"exocore.test.TestMessage".to_string(), &"not_indexed".to_string()).err(),
        Some(DynamicFieldError::NoSuchField)
    );
    assert_eq!(
        get_dynamic_trait_field(&mappings, &"exocore.test.Empty".to_string(), &"x".to_string()).err(),
        Some(DynamicFieldError::NoDynamicFields)
    );
}

#[test]
fn sort_field_of_query() {
    let registry = registry();
    let mappings = build_dynamic_fields_mapping(&registry, &dyn_fields());
    let trait_name = Some("exocore.test.TestMessage".to_string());
    assert_eq!(sort_by_for(&None, &trait_name, &mappings), Err(OrderingError::MissingOrdering));
    assert_eq!(sort_by_for(&Some(OrderingKind::Score), &None, &mappings), Ok(SortBy::Score));
    assert_eq!(sort_by_for(&Some(OrderingKind::UpdatedAt), &None, &mappings), Ok(SortBy::ModificationDate));
    assert_eq!(
        sort_by_for(&Some(OrderingKind::Field("date1".to_string())), &None, &mappings),
        Err(OrderingError::FieldWithoutTrait)
    );
    assert_eq!(
        sort_by_for(&Some(OrderingKind::Field("date1".to_string())), &trait_name, &mappings),
        Ok(SortBy::Dynamic(DynamicFieldKind::U64Fast, 0))
    );
    assert_eq!(
        sort_by_for(&Some(OrderingKind::Field("uint1".to_string())), &trait_name, &mappings),
        Err(OrderingError::Field(DynamicFieldError::NotSortable))
    );
}

#[test]
fn short_type_names() {
    let registry = registry();
    let short_names = build_schema_short_type_mapping(&registry);
    assert_eq!(get_message_name_from_short(&short_names, "TEST"), Some("exocore.test.TestMessage".to_string()));
    assert_eq!(get_message_name_from_short(&short_names, "tst"), Some("exocore.test.TestMessage".to_string()));
    assert_eq!(get_message_name_from_short(&short_names, "other"), None);
}
