//! The parser synthesizer: from a schema to a deterministic parse plan.
//!
//! The plan fixes, for every field, the primitive parsing operation that the
//! generated routine will invoke, and carries everything the emitter needs to
//! render the routine without reinterpreting schema semantics.

use vstd::prelude::*;

verus! {

use vstd::string::StringExecFns;
use crate::schema::{Field, FieldV, Schema, TypeRef, TypeRefV};
use crate::schema::{check_field_name, render_type_spec, valid_field_name};

/// The primitive parsing operation selected for one field.
#[derive(Clone, Copy, PartialEq, Eq, Structural, Debug)]
pub enum Primitive {
    U64Parser,
    StringParser,
    BoolParser,
    Felt252Parser,
    ArrayParser,
    ObjectParser,
}

/// The static type-directed selection table.
pub open spec fn primitive_for_spec(t: TypeRefV) -> Primitive {
    match t {
        TypeRefV::UnsignedInteger64 => Primitive::U64Parser,
        TypeRefV::ByteString => Primitive::StringParser,
        TypeRefV::Boolean => Primitive::BoolParser,
        TypeRefV::FieldElement => Primitive::Felt252Parser,
        TypeRefV::ArrayOf(_) => Primitive::ArrayParser,
        TypeRefV::Named(_) => Primitive::ObjectParser,
    }
}

/// Select the primitive parser for a declared type.
pub fn primitive_for(t: &TypeRef) -> (p: Primitive)
    ensures
        p == primitive_for_spec(t@),
{
    match t {
        TypeRef::UnsignedInteger64 => Primitive::U64Parser,
        TypeRef::ByteString => Primitive::StringParser,
        TypeRef::Boolean => Primitive::BoolParser,
        TypeRef::FieldElement => Primitive::Felt252Parser,
        TypeRef::ArrayOf(_) => Primitive::ArrayParser,
        TypeRef::Named(_) => Primitive::ObjectParser,
    }
}

/// The fixed name under which the generated code calls a primitive parser.
pub open spec fn primitive_name_spec(p: Primitive) -> Seq<char> {
    match p {
        Primitive::U64Parser => "parse_u64"@,
        Primitive::StringParser => "parse_string"@,
        Primitive::BoolParser => "parse_bool"@,
        Primitive::Felt252Parser => "parse_felt252"@,
        Primitive::ArrayParser => "parse_array"@,
        Primitive::ObjectParser => "parse_object"@,
    }
}

/// Render the fixed name of a primitive parser.
pub fn primitive_name(p: Primitive) -> (r: &'static str)
    ensures
        r@ == primitive_name_spec(p),
{
    match p {
        Primitive::U64Parser => "parse_u64",
        Primitive::StringParser => "parse_string",
        Primitive::BoolParser => "parse_bool",
        Primitive::Felt252Parser => "parse_felt252",
        Primitive::ArrayParser => "parse_array",
        Primitive::ObjectParser => "parse_object",
    }
}

/// Mathematical view of one plan entry.
pub ghost struct PlanEntryV {
    pub name: Seq<char>,
    pub type_text: Seq<char>,
    pub primitive: Primitive,
}

/// One entry of a parse plan: a field name, the source text of its declared
/// type, and the primitive parser selected for it.
#[derive(Debug)]
pub struct PlanEntry {
    pub name: String,
    pub type_text: String,
    pub primitive: Primitive,
}

impl View for PlanEntry {
    type V = PlanEntryV;

    open spec fn view(&self) -> PlanEntryV {
        PlanEntryV { name: self.name@, type_text: self.type_text@, primitive: self.primitive }
    }
}

/// Mathematical view of a parse plan.
pub ghost struct PlanV {
    pub struct_name: Seq<char>,
    pub entries: Seq<PlanEntryV>,
}

/// A deterministic parse plan for one record type: one entry per declared
/// field, in declaration order.  Every field is required.
#[derive(Debug)]
pub struct ParsePlan {
    pub struct_name: String,
    pub entries: Vec<PlanEntry>,
}

impl View for ParsePlan {
    type V = PlanV;

    open spec fn view(&self) -> PlanV {
        PlanV {
            struct_name: self.struct_name@,
            entries: self.entries@.map_values(|e: PlanEntry| e@),
        }
    }
}

/// A well-formed plan: every field name is a nonempty ASCII identifier and
/// no two entries share a name.
pub open spec fn plan_wf(p: PlanV) -> bool {
    &&& forall|i: int|
        0 <= i < p.entries.len() ==> valid_field_name(#[trigger] p.entries[i].name)
    &&& forall|i: int, j: int|
        0 <= i < j < p.entries.len() ==> p.entries[i].name != p.entries[j].name
}

impl ParsePlan {
    pub open spec fn wf(&self) -> bool {
        plan_wf(self@)
    }
}

/// Every field name of the schema is a nonempty ASCII identifier.
pub open spec fn schema_names_valid(fields: Seq<FieldV>) -> bool {
    forall|i: int| 0 <= i < fields.len() ==> valid_field_name(#[trigger] fields[i].name)
}

/// No two fields of the schema share a name.
pub open spec fn schema_names_unique(fields: Seq<FieldV>) -> bool {
    forall|i: int, j: int| 0 <= i < j < fields.len() ==> fields[i].name != fields[j].name
}

/// Rejected schema shapes.
#[derive(Clone, Copy, PartialEq, Eq, Structural, Debug)]
pub enum SchemaError {
    /// Some field name is not a nonempty ASCII identifier, so it cannot be
    /// interpolated verbatim into generated source.
    InvalidFieldName,
    /// Two fields share a name; a later duplicate could never win the
    /// first-match field dispatch, so the schema is rejected outright.
    DuplicateFieldName,
}

/// The plan entry derived from one field declaration.
pub open spec fn plan_entry_of(f: FieldV) -> PlanEntryV {
    PlanEntryV {
        name: f.name,
        type_text: render_type_spec(f.ty),
        primitive: primitive_for_spec(f.ty),
    }
}

/// The plan derived from a schema.
pub open spec fn plan_of(struct_name: Seq<char>, fields: Seq<FieldV>) -> PlanV {
    PlanV { struct_name: struct_name, entries: fields.map_values(|f: FieldV| plan_entry_of(f)) }
}

/// The error that a rejected schema earns: invalid names are reported before
/// duplicate names.
pub open spec fn schema_error_of(fields: Seq<FieldV>) -> SchemaError {
    if !schema_names_valid(fields) {
        SchemaError::InvalidFieldName
    } else {
        SchemaError::DuplicateFieldName
    }
}

/// Compute the parse plan of a schema.  Identical schemas always yield
/// identical plans: the result is a function of the schema alone.
pub fn synthesize(struct_name: &str, schema: &Schema) -> (r: Result<ParsePlan, SchemaError>)
    ensures
        r is Ok <==> schema_names_valid(schema@) && schema_names_unique(schema@),
        r matches Ok(p) ==> p@ == plan_of(struct_name@, schema@) && p.wf(),
        r matches Err(e) ==> e == schema_error_of(schema@),
{
    let n = schema.fields.len();
    let mut i: usize = 0;
    while i < n
        invariant
            n == schema.fields@.len(),
            i <= n,
            forall|j: int| 0 <= j < i ==> valid_field_name(#[trigger] schema@[j].name),
        decreases n - i,
    {
        if !check_field_name(schema.fields[i].name.as_str()) {
            assert(!valid_field_name(schema@[i as int].name));
            return Err(SchemaError::InvalidFieldName);
        }
        i += 1;
    }
    assert(schema_names_valid(schema@));
    let mut i: usize = 0;
    while i < n
        invariant
            n == schema.fields@.len(),
            i <= n,
            schema_names_valid(schema@),
            forall|a: int, b: int| 0 <= a < b < n && a < i ==> schema@[a].name != schema@[b].name,
        decreases n - i,
    {
        let mut j: usize = i + 1;
        while j < n
            invariant
                n == schema.fields@.len(),
                i < n,
                i + 1 <= j <= n,
                schema_names_valid(schema@),
                forall|b: int| i < b < j ==> schema@[i as int].name != schema@[b].name,
            decreases n - j,
        {
            if schema.fields[i].name == schema.fields[j].name {
                proof {
                    assert(schema@[i as int].name == schema@[j as int].name);
                    assert(!schema_names_unique(schema@));
                }
                return Err(SchemaError::DuplicateFieldName);
            }
            j += 1;
        }
        i += 1;
    }
    assert(schema_names_unique(schema@));
    let mut entries: Vec<PlanEntry> = Vec::new();
    let mut i: usize = 0;
    while i < n
        invariant
            n == schema.fields@.len(),
            i <= n,
            entries@.len() == i,
            forall|j: int| 0 <= j < i ==> #[trigger] entries@[j]@ == plan_entry_of(schema@[j]),
        decreases n - i,
    {
        let f = &schema.fields[i];
        let entry = PlanEntry {
            name: f.name.clone(),
            type_text: f.ty.render(),
            primitive: primitive_for(&f.ty),
        };
        entries.push(entry);
        i += 1;
    }
    let plan = ParsePlan { struct_name: String::from_str(struct_name), entries };
    proof {
        assert(plan@.entries =~= schema@.map_values(|f: FieldV| plan_entry_of(f)));
        assert forall|k: int| 0 <= k < plan@.entries.len() implies valid_field_name(
            #[trigger] plan@.entries[k].name,
        ) by {
            assert(plan@.entries[k].name == schema@[k].name);
        }
        assert forall|a: int, b: int|
            0 <= a < b < plan@.entries.len() implies plan@.entries[a].name
            != plan@.entries[b].name by {
            assert(plan@.entries[a].name == schema@[a].name);
            assert(plan@.entries[b].name == schema@[b].name);
        }
    }
    Ok(plan)
}

} // verus!
