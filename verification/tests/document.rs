use exocore::store::document::{trait_message_terms, DocTerm, FieldValue, MessageField};
use exocore::store::schema::{DynamicFieldKind, DynamicFields, FieldDescriptor, FieldType, MappedDynamicField, MsgFields};

fn desc(name: &str, field_type: FieldType, indexed: bool, sorted: bool, text: bool) -> FieldDescriptor {
    FieldDescriptor { name: name.to_string(), field_type, indexed_flag: indexed, sorted_flag: sorted, text_flag: text }
}

fn mapped(kind: DynamicFieldKind, slot: usize) -> MappedDynamicField {
    MappedDynamicField { kind, slot, field_type: FieldType::String, is_fast_field: false }
}

fn mappings() -> Vec<(String, MsgFields)> {
    let fields = MsgFields {
        mapping: vec![
            ("subject".to_string(), mapped(DynamicFieldKind::Text, 0)),
            ("code".to_string(), mapped(DynamicFieldKind::String, 1)),
            ("ref".to_string(), mapped(DynamicFieldKind::Reference, 0)),
            ("when".to_string(), mapped(DynamicFieldKind::U64Fast, 2)),
            ("count".to_string(), mapped(DynamicFieldKind::I64, 3)),
            ("inner.size".to_string(), mapped(DynamicFieldKind::U64, 4)),
        ],
        used: DynamicFields { reference: 1, text: 1, string: 2, i64: 4, i64_fast: 0, u64: 5, u64_fast: 3 },
    };
    vec![("exocore.test.TestMessage".to_string(), fields)]
}

#[test]
fn message_fields_indexed_by_their_mapping_and_flags() {
    let message = vec![
        MessageField {
            desc: desc("subject", FieldType::String, true, false, true),
            value: Some(FieldValue::String("Hello".to_string())),
        },
        MessageField { desc: desc("code", FieldType::String, true, false, false), value: Some(FieldValue::String("c1".to_string())) },
        MessageField {
            desc: desc("ref", FieldType::Reference, true, false, false),
            value: Some(FieldValue::Reference("et1".to_string(), "trt1".to_string())),
        },
        MessageField { desc: desc("when", FieldType::DateTime, false, true, false), value: Some(FieldValue::DateTime(1234)) },
        MessageField { desc: desc("count", FieldType::Int32, true, false, false), value: Some(FieldValue::Int32(-3)) },
        // not mapped: not indexed
        MessageField { desc: desc("other", FieldType::String, true, false, true), value: Some(FieldValue::String("x".to_string())) },
        // sub-message fields are mapped by their dotted name
        MessageField {
            desc: desc("inner", FieldType::Message("exocore.test.Inner".to_string()), false, false, false),
            value: Some(FieldValue::Message(vec![MessageField {
                desc: desc("size", FieldType::Uint32, true, false, false),
                value: Some(FieldValue::Uint32(7)),
            }])),
        },
        // a value that couldn't be read is skipped
        MessageField { desc: desc("code", FieldType::String, true, false, false), value: None },
    ];
    let res = trait_message_terms(&mappings(), &"exocore.test.TestMessage".to_string(), message).expect("mapped message");
    assert_eq!(
        res.terms,
        vec![
            DocTerm::Text(DynamicFieldKind::Text, 0, "Hello".to_string()),
            DocTerm::AllText("Hello".to_string()),
            DocTerm::Text(DynamicFieldKind::String, 1, "c1".to_string()),
            DocTerm::Text(DynamicFieldKind::Reference, 0, "entityet1 traittrt1".to_string()),
            DocTerm::AllRefs("entityet1 traittrt1".to_string()),
            DocTerm::U64(DynamicFieldKind::U64Fast, 2, 1234),
            DocTerm::I64(DynamicFieldKind::I64, 3, -3),
            DocTerm::U64(DynamicFieldKind::U64, 4, 7),
        ]
    );
    assert!(res.has_reference);
}

#[test]
fn message_without_mapping_or_flags_indexes_nothing() {
    assert!(trait_message_terms(&mappings(), &"exocore.test.Unknown".to_string(), vec![]).is_none());

    let message = vec![
        // mapped, but with no flag: not indexed
        MessageField { desc: desc("count", FieldType::Int64, false, false, false), value: Some(FieldValue::Int64(9)) },
        // a reference that isn't indexed doesn't flag the document
        MessageField {
            desc: desc("ref", FieldType::Reference, false, false, false),
            value: Some(FieldValue::Reference("et1".to_string(), "trt1".to_string())),
        },
    ];
    let res = trait_message_terms(&mappings(), &"exocore.test.TestMessage".to_string(), message).expect("mapped message");
    assert!(res.terms.is_empty());
    assert!(!res.has_reference);
}
