use serde_json_macro::plan::{synthesize, ParsePlan};
use serde_json_macro::run::{run_plan, DeserializeError, JsonValue};
use serde_json_macro::schema::{Field, Schema, TypeRef};

fn field(name: &str, ty: TypeRef) -> Field {
    Field { name: name.to_string(), ty }
}

fn plan_of(struct_name: &str, fields: Vec<Field>) -> ParsePlan {
    synthesize(struct_name, &Schema { fields }).unwrap()
}

fn id_active_plan() -> ParsePlan {
    plan_of(
        "Foo",
        vec![
            field("id", TypeRef::UnsignedInteger64),
            field("active", TypeRef::Boolean),
        ],
    )
}

/// Runs a plan against a whole object literal, consuming the opening brace
/// as the generated routine's caller would.
fn parse(plan: &ParsePlan, input: &[u8]) -> Result<Vec<JsonValue>, DeserializeError> {
    let mut pos: usize = 1;
    run_plan(plan, input, &mut pos)
}

#[test]
fn two_field_object_parses() {
    let plan = id_active_plan();
    let record = parse(&plan, b"{\"id\":1,\"active\":true}").unwrap();
    assert_eq!(record, vec![JsonValue::U64(1), JsonValue::Bool(true)]);
}

#[test]
fn input_field_order_is_irrelevant() {
    let plan = id_active_plan();
    let record = parse(&plan, b"{\"id\":1,\"active\":true}").unwrap();
    let reordered = parse(&plan, b"{\"active\":true,\"id\":1}").unwrap();
    assert_eq!(record, reordered);
}

#[test]
fn cursor_rests_on_terminator_after_success() {
    let plan = id_active_plan();
    let input = b"{\"id\":1,\"active\":true}";
    let mut pos: usize = 1;
    run_plan(&plan, input, &mut pos).unwrap();
    assert_eq!(pos, input.len() - 1);
    assert_eq!(input[pos], b'}');
}

#[test]
fn missing_required_field_is_rejected() {
    let plan = id_active_plan();
    let err = parse(&plan, b"{\"id\":1}").unwrap_err();
    assert_eq!(err, DeserializeError::MissingRequiredField);
}

#[test]
fn unknown_field_is_rejected_not_skipped() {
    let plan = id_active_plan();
    let err = parse(&plan, b"{\"id\":1,\"extra\":2,\"active\":true}").unwrap_err();
    assert_eq!(err, DeserializeError::UnknownField);
}

#[test]
fn type_mismatch_is_a_primitive_parse_failure() {
    let plan = id_active_plan();
    let err = parse(&plan, b"{\"id\":\"oops\",\"active\":true}").unwrap_err();
    assert_eq!(
        err,
        DeserializeError::PrimitiveParseFailure("id".to_string())
    );
}

#[test]
fn missing_colon_is_a_missing_separator() {
    let plan = id_active_plan();
    let err = parse(&plan, b"{\"id\" 1,\"active\":true}").unwrap_err();
    assert_eq!(err, DeserializeError::MissingSeparator);
}

#[test]
fn wrong_terminator_is_an_unexpected_character() {
    let plan = id_active_plan();
    let err = parse(&plan, b"{\"id\":1,\"active\":true]").unwrap_err();
    assert_eq!(err, DeserializeError::UnexpectedCharacter(b']'));
}

#[test]
fn malformed_field_name_is_rejected() {
    let plan = id_active_plan();
    let err = parse(&plan, b"{id:1}").unwrap_err();
    assert_eq!(err, DeserializeError::MalformedFieldName);
}

#[test]
fn truncated_input_is_rejected() {
    let plan = id_active_plan();
    assert_eq!(
        parse(&plan, b"{\"id\":1").unwrap_err(),
        DeserializeError::UnexpectedEnd
    );
    let mut pos: usize = 0;
    assert_eq!(
        run_plan(&plan, b"", &mut pos).unwrap_err(),
        DeserializeError::UnexpectedEnd
    );
}

#[test]
fn whitespace_between_tokens_is_skipped() {
    let plan = id_active_plan();
    let record = parse(&plan, b"{ \t\n\"id\" : 1 ,\r\n \"active\" : false }").unwrap();
    assert_eq!(record, vec![JsonValue::U64(1), JsonValue::Bool(false)]);
}

#[test]
fn empty_schema_accepts_empty_object() {
    let plan = plan_of("Unit", vec![]);
    let mut pos: usize = 0;
    let record = run_plan(&plan, b"}", &mut pos).unwrap();
    assert_eq!(record, vec![]);
    assert_eq!(pos, 0);
    let err = parse(&plan, b"{\"x\":1}").unwrap_err();
    assert_eq!(err, DeserializeError::UnknownField);
}

#[test]
fn u64_bounds_are_enforced() {
    let plan = plan_of("N", vec![field("n", TypeRef::UnsignedInteger64)]);
    let record = parse(&plan, b"{\"n\":18446744073709551615}").unwrap();
    assert_eq!(record, vec![JsonValue::U64(u64::MAX)]);
    let err = parse(&plan, b"{\"n\":18446744073709551616}").unwrap_err();
    assert_eq!(err, DeserializeError::PrimitiveParseFailure("n".to_string()));
}

#[test]
fn string_field_keeps_raw_bytes() {
    let plan = plan_of("S", vec![field("s", TypeRef::ByteString)]);
    let record = parse(&plan, b"{\"s\":\"hi there\"}").unwrap();
    assert_eq!(record, vec![JsonValue::Str(b"hi there".to_vec())]);
}

#[test]
fn felt_field_keeps_raw_digits() {
    let plan = plan_of("F", vec![field("x", TypeRef::FieldElement)]);
    let record = parse(&plan, b"{\"x\":123456789012345678901234567890}").unwrap();
    assert_eq!(
        record,
        vec![JsonValue::Felt(b"123456789012345678901234567890".to_vec())]
    );
}

#[test]
fn array_field_keeps_balanced_region() {
    let plan = plan_of(
        "A",
        vec![field(
            "a",
            TypeRef::ArrayOf(Box::new(TypeRef::UnsignedInteger64)),
        )],
    );
    let record = parse(&plan, b"{\"a\":[[1,2],[3]]}").unwrap();
    assert_eq!(record, vec![JsonValue::Array(b"[[1,2],[3]]".to_vec())]);
    let err = parse(&plan, b"{\"a\":[1,2}").unwrap_err();
    assert_eq!(err, DeserializeError::PrimitiveParseFailure("a".to_string()));
}

#[test]
fn nested_object_field_keeps_balanced_region() {
    let plan = plan_of("O", vec![field("o", TypeRef::Named("Bar".to_string()))]);
    let record = parse(&plan, b"{\"o\":{\"y\":{\"z\":1}}}").unwrap();
    assert_eq!(record, vec![JsonValue::Object(b"{\"y\":{\"z\":1}}".to_vec())]);
}

#[test]
fn duplicate_field_in_input_overwrites_earlier_value() {
    let plan = id_active_plan();
    let record = parse(&plan, b"{\"id\":1,\"id\":2,\"active\":true}").unwrap();
    assert_eq!(record, vec![JsonValue::U64(2), JsonValue::Bool(true)]);
}

#[test]
fn bool_field_rejects_other_tokens() {
    let plan = id_active_plan();
    let err = parse(&plan, b"{\"id\":1,\"active\":yes}").unwrap_err();
    assert_eq!(
        err,
        DeserializeError::PrimitiveParseFailure("active".to_string())
    );
}
