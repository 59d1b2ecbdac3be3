use serde_json_macro::emit::{emit, generate};
use serde_json_macro::plan::{synthesize, Primitive, SchemaError};
use serde_json_macro::schema::{Field, Schema, TypeRef};

fn field(name: &str, ty: TypeRef) -> Field {
    Field { name: name.to_string(), ty }
}

fn two_field_schema() -> Schema {
    Schema {
        fields: vec![
            field("id", TypeRef::UnsignedInteger64),
            field("active", TypeRef::Boolean),
        ],
    }
}

#[test]
fn synthesize_selects_primitives_in_order() {
    let schema = Schema {
        fields: vec![
            field("id", TypeRef::UnsignedInteger64),
            field("name", TypeRef::ByteString),
            field("active", TypeRef::Boolean),
            field("balance", TypeRef::FieldElement),
            field("tags", TypeRef::ArrayOf(Box::new(TypeRef::UnsignedInteger64))),
            field("owner", TypeRef::Named("Owner".to_string())),
        ],
    };
    let plan = synthesize("Account", &schema).unwrap();
    assert_eq!(plan.struct_name, "Account");
    assert_eq!(plan.entries.len(), 6);
    assert_eq!(plan.entries[0].name, "id");
    assert_eq!(plan.entries[0].type_text, "u64");
    assert_eq!(plan.entries[0].primitive, Primitive::U64Parser);
    assert_eq!(plan.entries[1].primitive, Primitive::StringParser);
    assert_eq!(plan.entries[1].type_text, "ByteArray");
    assert_eq!(plan.entries[2].primitive, Primitive::BoolParser);
    assert_eq!(plan.entries[3].primitive, Primitive::Felt252Parser);
    assert_eq!(plan.entries[4].primitive, Primitive::ArrayParser);
    assert_eq!(plan.entries[4].type_text, "Array<u64>");
    assert_eq!(plan.entries[5].primitive, Primitive::ObjectParser);
    assert_eq!(plan.entries[5].type_text, "Owner");
}

#[test]
fn synthesize_rejects_duplicate_names() {
    let schema = Schema {
        fields: vec![
            field("id", TypeRef::UnsignedInteger64),
            field("id", TypeRef::Boolean),
        ],
    };
    assert_eq!(
        synthesize("Foo", &schema).unwrap_err(),
        SchemaError::DuplicateFieldName
    );
}

#[test]
fn synthesize_rejects_invalid_names() {
    let bad = ["", "1bad", "na\u{ef}ve", "with space", "semi;colon"];
    for name in bad {
        let schema = Schema {
            fields: vec![field(name, TypeRef::UnsignedInteger64)],
        };
        assert_eq!(
            synthesize("Foo", &schema).unwrap_err(),
            SchemaError::InvalidFieldName
        );
    }
    let schema = Schema {
        fields: vec![field("_ok_2", TypeRef::UnsignedInteger64)],
    };
    assert!(synthesize("Foo", &schema).is_ok());
}

#[test]
fn regeneration_is_deterministic() {
    let first = generate("Foo", &two_field_schema()).unwrap();
    let second = generate("Foo", &two_field_schema()).unwrap();
    assert_eq!(first, second);
}

#[test]
fn emitted_dispatch_follows_declaration_order() {
    let text = generate("Foo", &two_field_schema()).unwrap();
    let id_branch = text.find("if field_name == \"id\"").unwrap();
    let active_branch = text.find("} else if field_name == \"active\"").unwrap();
    let unknown = text.find("error = \"Unknown field\"").unwrap();
    assert!(id_branch < active_branch);
    assert!(active_branch < unknown);
    assert!(text.contains("json_parser::parse_u64(data, ref pos)"));
    assert!(text.contains("json_parser::parse_bool(data, ref pos)"));
    assert!(text.contains("!id_parsed || !active_parsed"));
    assert!(text.contains("Result::Ok(Foo { id, active })"));
}

#[test]
fn emitted_text_for_single_field_schema() {
    let schema = Schema {
        fields: vec![field("id", TypeRef::UnsignedInteger64)],
    };
    let plan = synthesize("Foo", &schema).unwrap();
    let text = emit(&plan);
    let expected = "impl FooJsonDeserializeImpl of JsonDeserialize<Foo> {
    fn deserialize(data: @ByteArray, ref pos: usize) -> Result<Foo, ByteArray> {
        let mut id: u64 = Default::default();
        let mut id_parsed = false;
        let mut error: ByteArray = \"\";
        let mut success = true;
        loop {
            json_parser::skip_whitespace(data, ref pos);
            let current_char = data.at(pos).unwrap();
            if current_char == 125_u8 {
                break;
            }
            match json_parser::parse_string(data, ref pos) {
                Result::Ok(field_name) => {
                    json_parser::skip_whitespace(data, ref pos);
                    if data.at(pos).unwrap() != 58_u8 {
                        error = \"Expected ':'\";
                        success = false;
                        break;
                    }
                    pos += 1;
                    if field_name == \"id\" {
                        match json_parser::parse_u64(data, ref pos) {
                            Result::Ok(value) => {
                                id = value;
                                id_parsed = true;
                            },
                            Result::Err(_) => {
                                error = \"Failed to parse id\";
                                success = false;
                                break;
                            },
                        };
                    } else {
                        error = \"Unknown field\";
                        success = false;
                        break;
                    }
                },
                Result::Err(_) => {
                    error = \"Failed to parse field name\";
                    success = false;
                    break;
                },
            };
            json_parser::skip_whitespace(data, ref pos);
            let next_char = data.at(pos).unwrap();
            if next_char == 44_u8 {
                pos += 1;
            } else if next_char != 125_u8 {
                let mut debug_msg: ByteArray = \"Unexpected char: \";
                debug_msg.append_byte(next_char);
                error = debug_msg;
                success = false;
                break;
            }
        };
        if !success {
            Result::Err(error)
        } else if !id_parsed {
            Result::Err(\"Missing required field\")
        } else {
            Result::Ok(Foo { id })
        }
    }
}
";
    assert_eq!(text, expected);
}

#[test]
fn emitted_text_for_empty_schema_guards_with_false() {
    let plan = synthesize("Unit", &Schema { fields: vec![] }).unwrap();
    let text = emit(&plan);
    assert!(text.contains("} else if false {"));
    assert!(text.contains("Result::Ok(Unit {  })"));
    assert!(text.contains("error = \"Unknown field\""));
}

#[test]
fn type_text_classification_round_trips() {
    let t = TypeRef::from_text("u64");
    assert!(matches!(t, TypeRef::UnsignedInteger64));
    assert!(matches!(TypeRef::from_text("ByteArray"), TypeRef::ByteString));
    assert!(matches!(TypeRef::from_text("bool"), TypeRef::Boolean));
    assert!(matches!(TypeRef::from_text("felt252"), TypeRef::FieldElement));
    match TypeRef::from_text("Array<u64>") {
        TypeRef::ArrayOf(inner) => assert!(matches!(*inner, TypeRef::UnsignedInteger64)),
        _ => panic!("expected an array type"),
    }
    match TypeRef::from_text("Array<Array<Bar>>") {
        TypeRef::ArrayOf(inner) => match *inner {
            TypeRef::ArrayOf(inner2) => match *inner2 {
                TypeRef::Named(name) => assert_eq!(name, "Bar"),
                _ => panic!("expected a named type"),
            },
            _ => panic!("expected a nested array type"),
        },
        _ => panic!("expected an array type"),
    }
    match TypeRef::from_text("Custom") {
        TypeRef::Named(name) => assert_eq!(name, "Custom"),
        _ => panic!("expected a named type"),
    }
    for text in ["u64", "ByteArray", "bool", "felt252", "Array<felt252>", "Custom"] {
        assert_eq!(TypeRef::from_text(text).render(), text);
    }
}
