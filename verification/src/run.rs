//! Execution of a parse plan against an input buffer.
//!
//! `run_plan` is the behaviour that the emitted routine is specified to
//! have: it walks one JSON object literal (whose opening brace the caller
//! has already consumed), dispatches each field name against the plan in
//! declared order, parses each value with the field's selected primitive,
//! and either returns a fully populated record or aborts on the first
//! failure.  The cursor is owned by the caller and threaded by mutable
//! reference; on failure its position is unspecified.

use vstd::prelude::*;

verus! {

use vstd::utf8::is_ascii_chars;
use crate::plan::{ParsePlan, PlanEntryV, PlanV, Primitive};
use crate::runtime::{
    COLON_BYTE, COMMA_BYTE, PrimError, RBRACE_BYTE, lemma_parse_string_bounds,
    lemma_parse_u64_bounds, lemma_parse_felt_bounds, lemma_parse_balanced_bounds,
    lemma_skip_ws_spec, parse_array, parse_array_spec, parse_bool, parse_bool_spec, parse_felt252,
    parse_felt_spec, parse_object, parse_object_spec, parse_string, parse_string_spec, parse_u64,
    parse_u64_spec, skip_whitespace, skip_ws_spec, LBRACE_BYTE, LBRACKET_BYTE, RBRACKET_BYTE,
};
use crate::schema::ascii_bytes;

/// Mathematical view of one parsed value.
pub ghost enum JsonValueV {
    U64(u64),
    Str(Seq<u8>),
    Bool(bool),
    Felt(Seq<u8>),
    Array(Seq<u8>),
    Object(Seq<u8>),
}

/// One parsed field value.  String contents are the raw bytes between the
/// quotes; field elements keep their raw digits; arrays and nested objects
/// keep the raw bytes of their balanced region.
#[derive(Debug, PartialEq, Eq)]
pub enum JsonValue {
    U64(u64),
    Str(Vec<u8>),
    Bool(bool),
    Felt(Vec<u8>),
    Array(Vec<u8>),
    Object(Vec<u8>),
}

impl View for JsonValue {
    type V = JsonValueV;

    open spec fn view(&self) -> JsonValueV {
        match self {
            JsonValue::U64(v) => JsonValueV::U64(*v),
            JsonValue::Str(v) => JsonValueV::Str(v@),
            JsonValue::Bool(v) => JsonValueV::Bool(*v),
            JsonValue::Felt(v) => JsonValueV::Felt(v@),
            JsonValue::Array(v) => JsonValueV::Array(v@),
            JsonValue::Object(v) => JsonValueV::Object(v@),
        }
    }
}

/// Mathematical view of a terminal parse failure.
pub ghost enum DeserializeErrorV {
    MalformedFieldName,
    MissingSeparator,
    UnknownField,
    PrimitiveParseFailure(Seq<char>),
    MissingRequiredField,
    UnexpectedCharacter(u8),
    UnexpectedEnd,
}

/// A terminal parse failure.  The first failure anywhere aborts the whole
/// parse; no partial record is ever returned.
#[derive(Debug, PartialEq, Eq)]
pub enum DeserializeError {
    /// The field-name token itself is not a valid string.
    MalformedFieldName,
    /// `:` absent after a field name.
    MissingSeparator,
    /// The field name is not present in the schema; unrecognized fields are
    /// rejected, never skipped.
    UnknownField,
    /// The selected primitive parser for the named field failed.
    PrimitiveParseFailure(String),
    /// The loop completed but some declared field was never parsed.
    MissingRequiredField,
    /// The byte after a value is neither a comma nor the terminator.
    UnexpectedCharacter(u8),
    /// The buffer ended where a byte was required.
    UnexpectedEnd,
}

impl View for DeserializeError {
    type V = DeserializeErrorV;

    open spec fn view(&self) -> DeserializeErrorV {
        match self {
            DeserializeError::MalformedFieldName => DeserializeErrorV::MalformedFieldName,
            DeserializeError::MissingSeparator => DeserializeErrorV::MissingSeparator,
            DeserializeError::UnknownField => DeserializeErrorV::UnknownField,
            DeserializeError::PrimitiveParseFailure(name) => DeserializeErrorV::PrimitiveParseFailure(
                name@,
            ),
            DeserializeError::MissingRequiredField => DeserializeErrorV::MissingRequiredField,
            DeserializeError::UnexpectedCharacter(b) => DeserializeErrorV::UnexpectedCharacter(*b),
            DeserializeError::UnexpectedEnd => DeserializeErrorV::UnexpectedEnd,
        }
    }
}

/// The outcome of running a plan: a populated record (one value per plan
/// entry, in declared order) with the final cursor, or a failure.
pub ghost enum RunOutcome {
    Success(Seq<JsonValueV>, nat),
    Failure(DeserializeErrorV),
}

pub open spec fn slot_view(o: Option<JsonValue>) -> Option<JsonValueV> {
    match o {
        Some(v) => Some(v@),
        None => None,
    }
}

pub open spec fn slots_view(s: Seq<Option<JsonValue>>) -> Seq<Option<JsonValueV>> {
    s.map_values(|o: Option<JsonValue>| slot_view(o))
}

pub open spec fn values_view(s: Seq<JsonValue>) -> Seq<JsonValueV> {
    s.map_values(|v: JsonValue| v@)
}

/// The slot state before any field has been parsed.
pub open spec fn init_slots(n: nat) -> Seq<Option<JsonValueV>> {
    Seq::new(n, |k: int| None::<JsonValueV>)
}

pub open spec fn all_slots_filled(slots: Seq<Option<JsonValueV>>) -> bool {
    forall|k: int| 0 <= k < slots.len() ==> (#[trigger] slots[k]) is Some
}

pub open spec fn filled_value(o: Option<JsonValueV>) -> JsonValueV {
    match o {
        Some(v) => v,
        None => JsonValueV::Bool(false),
    }
}

pub open spec fn filled_values(slots: Seq<Option<JsonValueV>>) -> Seq<JsonValueV> {
    Seq::new(slots.len(), |k: int| filled_value(slots[k]))
}

/// The outcome at the object terminator: the record if every declared
/// field was parsed, otherwise the missing-field failure.
pub open spec fn finish_spec(slots: Seq<Option<JsonValueV>>, pos: nat) -> RunOutcome {
    if all_slots_filled(slots) {
        RunOutcome::Success(filled_values(slots), pos)
    } else {
        RunOutcome::Failure(DeserializeErrorV::MissingRequiredField)
    }
}

/// The index of the first plan entry whose name has the given bytes, or -1.
/// Names are unique in a well-formed plan, so this is a plain lookup.
pub open spec fn find_entry(es: Seq<PlanEntryV>, name: Seq<u8>) -> int
    decreases es.len(),
{
    if es.len() == 0 {
        -1
    } else if ascii_bytes(es[0].name) == name {
        0
    } else {
        let r = find_entry(es.drop_first(), name);
        if r == -1 {
            -1
        } else {
            r + 1
        }
    }
}

pub proof fn lemma_find_entry(es: Seq<PlanEntryV>, name: Seq<u8>)
    ensures
        ({
            let r = find_entry(es, name);
            &&& (r == -1 ==> forall|k: int|
                0 <= k < es.len() ==> ascii_bytes(#[trigger] es[k].name) != name)
            &&& (r != -1 ==> 0 <= r < es.len() && ascii_bytes(es[r].name) == name && forall|
                k: int,
            |
                0 <= k < r ==> ascii_bytes(#[trigger] es[k].name) != name)
        }),
    decreases es.len(),
{
    if es.len() > 0 && ascii_bytes(es[0].name) != name {
        lemma_find_entry(es.drop_first(), name);
        let rd = find_entry(es.drop_first(), name);
        if rd == -1 {
            assert forall|k: int| 0 <= k < es.len() implies ascii_bytes(
                #[trigger] es[k].name,
            ) != name by {
                if k > 0 {
                    assert(es.drop_first()[k - 1] == es[k]);
                }
            }
        } else {
            assert(es.drop_first()[rd] == es[rd + 1]);
            assert forall|k: int| 0 <= k < rd + 1 implies ascii_bytes(
                #[trigger] es[k].name,
            ) != name by {
                if k > 0 {
                    assert(es.drop_first()[k - 1] == es[k]);
                }
            }
        }
    }
}

/// The result of one field's selected primitive, as a tagged value.
pub open spec fn prim_spec(p: Primitive, data: Seq<u8>, pos: nat) -> Option<(JsonValueV, nat)> {
    match p {
        Primitive::U64Parser => match parse_u64_spec(data, pos) {
            Some(r) => Some((JsonValueV::U64(r.0), r.1)),
            None => None,
        },
        Primitive::StringParser => match parse_string_spec(data, pos) {
            Some(r) => Some((JsonValueV::Str(r.0), r.1)),
            None => None,
        },
        Primitive::BoolParser => match parse_bool_spec(data, pos) {
            Some(r) => Some((JsonValueV::Bool(r.0), r.1)),
            None => None,
        },
        Primitive::Felt252Parser => match parse_felt_spec(data, pos) {
            Some(r) => Some((JsonValueV::Felt(r.0), r.1)),
            None => None,
        },
        Primitive::ArrayParser => match parse_array_spec(data, pos) {
            Some(r) => Some((JsonValueV::Array(r.0), r.1)),
            None => None,
        },
        Primitive::ObjectParser => match parse_object_spec(data, pos) {
            Some(r) => Some((JsonValueV::Object(r.0), r.1)),
            None => None,
        },
    }
}

pub proof fn lemma_prim_bounds(p: Primitive, data: Seq<u8>, pos: nat)
    ensures
        match prim_spec(p, data, pos) {
            Some(r) => pos < r.1 <= data.len(),
            None => true,
        },
{
    lemma_parse_u64_bounds(data, pos);
    lemma_parse_string_bounds(data, pos);
    lemma_parse_felt_bounds(data, pos);
    lemma_parse_balanced_bounds(data, pos, LBRACKET_BYTE, RBRACKET_BYTE);
    lemma_parse_balanced_bounds(data, pos, LBRACE_BYTE, RBRACE_BYTE);
}

/// The outcome of the parse loop from `pos`, with the fields parsed so far
/// recorded in `slots`.  This is the plan's runtime meaning, step for step:
/// skip whitespace; finish at the terminator; otherwise parse a field name,
/// require the separator, dispatch the name against the plan, parse the
/// value with the selected primitive, then continue after a comma or let
/// the terminator end the loop.
pub open spec fn run_spec(
    p: PlanV,
    data: Seq<u8>,
    pos: nat,
    slots: Seq<Option<JsonValueV>>,
) -> RunOutcome
    decreases data.len() - pos,
{
    proof {
        lemma_skip_ws_spec(data, pos);
    }
    let p1 = skip_ws_spec(data, pos);
    if p1 >= data.len() {
        RunOutcome::Failure(DeserializeErrorV::UnexpectedEnd)
    } else if data[p1 as int] == RBRACE_BYTE {
        finish_spec(slots, p1)
    } else {
        proof {
            lemma_parse_string_bounds(data, p1);
        }
        match parse_string_spec(data, p1) {
            None => RunOutcome::Failure(DeserializeErrorV::MalformedFieldName),
            Some(nr) => {
                proof {
                    lemma_skip_ws_spec(data, nr.1);
                }
                let p3 = skip_ws_spec(data, nr.1);
                if p3 >= data.len() || data[p3 as int] != COLON_BYTE {
                    RunOutcome::Failure(DeserializeErrorV::MissingSeparator)
                } else {
                    proof {
                        lemma_skip_ws_spec(data, (p3 + 1) as nat);
                    }
                    let p4 = skip_ws_spec(data, (p3 + 1) as nat);
                    let j = find_entry(p.entries, nr.0);
                    if j < 0 {
                        RunOutcome::Failure(DeserializeErrorV::UnknownField)
                    } else {
                        proof {
                            lemma_prim_bounds(p.entries[j].primitive, data, p4);
                        }
                        match prim_spec(p.entries[j].primitive, data, p4) {
                            None => RunOutcome::Failure(
                                DeserializeErrorV::PrimitiveParseFailure(p.entries[j].name),
                            ),
                            Some(vr) => {
                                proof {
                                    lemma_skip_ws_spec(data, vr.1);
                                }
                                let slots2 = slots.update(j, Some(vr.0));
                                let p6 = skip_ws_spec(data, vr.1);
                                if p6 >= data.len() {
                                    RunOutcome::Failure(DeserializeErrorV::UnexpectedEnd)
                                } else if data[p6 as int] == COMMA_BYTE {
                                    run_spec(p, data, (p6 + 1) as nat, slots2)
                                } else if data[p6 as int] == RBRACE_BYTE {
                                    run_spec(p, data, p6, slots2)
                                } else {
                                    RunOutcome::Failure(
                                        DeserializeErrorV::UnexpectedCharacter(data[p6 as int]),
                                    )
                                }
                            },
                        }
                    }
                }
            },
        }
    }
}

/// Whether a plan entry's (ASCII) name has exactly the given bytes.
fn name_matches(name: &String, parsed: &Vec<u8>) -> (r: bool)
    requires
        is_ascii_chars(name@),
    ensures
        r == (ascii_bytes(name@) == parsed@),
{
    broadcast use vstd::string::is_ascii_spec_bytes;

    let s = name.as_str();
    let b = s.as_bytes();
    proof {
        assert(vstd::string::is_ascii(s));
        assert(b@ =~= ascii_bytes(name@));
    }
    if b.len() != parsed.len() {
        return false;
    }
    let mut i: usize = 0;
    while i < b.len()
        invariant
            i <= b@.len(),
            b@.len() == parsed@.len(),
            b@ == ascii_bytes(name@),
            forall|k: int| 0 <= k < i ==> b@[k] == parsed@[k],
        decreases b@.len() - i,
    {
        if b[i] != parsed[i] {
            return false;
        }
        i += 1;
    }
    proof {
        assert(ascii_bytes(name@) =~= parsed@);
    }
    true
}

/// One round of the parse loop and everything after it, starting from
/// `pos` with the fields parsed so far in `slots`.
fn run_from(
    plan: &ParsePlan,
    data: &[u8],
    pos: &mut usize,
    slots: Vec<Option<JsonValue>>,
) -> (r: Result<Vec<JsonValue>, DeserializeError>)
    requires
        plan.wf(),
        slots@.len() == plan@.entries.len(),
    ensures
        match r {
            Ok(vals) => run_spec(plan@, data@, *old(pos) as nat, slots_view(slots@))
                == RunOutcome::Success(values_view(vals@), *final(pos) as nat),
            Err(e) => run_spec(plan@, data@, *old(pos) as nat, slots_view(slots@))
                == RunOutcome::Failure(e@),
        },
    decreases data@.len() - *pos,
{
    let ghost p0 = *pos as nat;
    let ghost sv = slots_view(slots@);
    proof {
        lemma_skip_ws_spec(data@, p0);
    }
    skip_whitespace(data, pos);
    if *pos >= data.len() {
        return Err(DeserializeError::UnexpectedEnd);
    }
    if data[*pos] == RBRACE_BYTE {
        let n = slots.len();
        let mut k: usize = 0;
        while k < n
            invariant
                n == sv.len(),
                k <= n,
                p0 == *old(pos) as nat,
                sv == slots_view(slots@),
                n == slots@.len(),
                run_spec(plan@, data@, p0, sv) == finish_spec(sv, *pos as nat),
                forall|t: int| 0 <= t < k ==> (#[trigger] sv[t]) is Some,
            decreases n - k,
        {
            if slots[k].is_none() {
                proof {
                    assert(sv[k as int] is None);
                }
                return Err(DeserializeError::MissingRequiredField);
            }
            k += 1;
        }
        proof {
            assert(all_slots_filled(sv));
        }
        let mut vals: Vec<JsonValue> = Vec::new();
        let mut rest = slots;
        let mut k: usize = 0;
        while k < n
            invariant
                n == sv.len(),
                k <= n,
                rest@.len() == n - k,
                vals@.len() == k,
                all_slots_filled(sv),
                forall|t: int| 0 <= t < k ==> (#[trigger] vals@[t])@ == filled_value(sv[t]),
                forall|t: int| 0 <= t < n - k ==> slot_view(#[trigger] rest@[t]) == sv[t + k],
            decreases n - k,
        {
            let item = rest.remove(0);
            proof {
                assert(slot_view(item) == sv[k as int]);
                assert(sv[k as int] is Some);
            }
            match item {
                Some(v) => {
                    vals.push(v);
                },
                None => {
                    proof {
                        assert(false);
                    }
                    return Err(DeserializeError::MissingRequiredField);
                },
            }
            k += 1;
        }
        proof {
            assert(values_view(vals@) =~= filled_values(sv));
        }
        return Ok(vals);
    }
    let ghost p1 = *pos as nat;
    proof {
        lemma_parse_string_bounds(data@, p1);
    }
    let name = match parse_string(data, pos) {
        Ok(v) => v,
        Err(_) => {
            return Err(DeserializeError::MalformedFieldName);
        },
    };
    let ghost p2 = *pos as nat;
    proof {
        lemma_skip_ws_spec(data@, p2);
    }
    skip_whitespace(data, pos);
    if *pos >= data.len() || data[*pos] != COLON_BYTE {
        return Err(DeserializeError::MissingSeparator);
    }
    *pos = *pos + 1;
    let ghost p3a = *pos as nat;
    proof {
        lemma_skip_ws_spec(data@, p3a);
    }
    skip_whitespace(data, pos);
    let ghost p4 = *pos as nat;
    let n_entries = plan.entries.len();
    let mut j: usize = 0;
    let mut matched = false;
    while j < n_entries && !matched
        invariant
            plan.wf(),
            n_entries == plan@.entries.len(),
            j <= n_entries,
            forall|k: int| 0 <= k < j ==> ascii_bytes(#[trigger] plan@.entries[k].name) != name@,
            matched ==> j < n_entries && ascii_bytes(plan@.entries[j as int].name) == name@,
        decreases n_entries - j + (if matched { 0int } else { 1int }),
    {
        proof {
            assert(crate::schema::valid_field_name(plan@.entries[j as int].name));
        }
        if name_matches(&plan.entries[j].name, &name) {
            matched = true;
        } else {
            j += 1;
        }
    }
    let ghost fe = find_entry(plan@.entries, name@);
    proof {
        lemma_find_entry(plan@.entries, name@);
    }
    if !matched {
        proof {
            if fe != -1 {
                assert(ascii_bytes(plan@.entries[fe].name) == name@);
                assert(false);
            }
        }
        return Err(DeserializeError::UnknownField);
    }
    proof {
        assert(ascii_bytes(plan@.entries[j as int].name) == name@);
        if fe < j {
            assert(ascii_bytes(plan@.entries[fe].name) == name@);
            assert(false);
        }
        if fe > j {
            assert(ascii_bytes(plan@.entries[j as int].name) != name@);
            assert(false);
        }
        assert(fe == j as int);
        lemma_prim_bounds(plan@.entries[j as int].primitive, data@, p4);
    }
    let entry_primitive = plan.entries[j].primitive;
    let prim_result: Result<JsonValue, PrimError> = match entry_primitive {
        Primitive::U64Parser => match parse_u64(data, pos) {
            Ok(v) => Ok(JsonValue::U64(v)),
            Err(e) => Err(e),
        },
        Primitive::StringParser => match parse_string(data, pos) {
            Ok(v) => Ok(JsonValue::Str(v)),
            Err(e) => Err(e),
        },
        Primitive::BoolParser => match parse_bool(data, pos) {
            Ok(v) => Ok(JsonValue::Bool(v)),
            Err(e) => Err(e),
        },
        Primitive::Felt252Parser => match parse_felt252(data, pos) {
            Ok(v) => Ok(JsonValue::Felt(v)),
            Err(e) => Err(e),
        },
        Primitive::ArrayParser => match parse_array(data, pos) {
            Ok(v) => Ok(JsonValue::Array(v)),
            Err(e) => Err(e),
        },
        Primitive::ObjectParser => match parse_object(data, pos) {
            Ok(v) => Ok(JsonValue::Object(v)),
            Err(e) => Err(e),
        },
    };
    let value = match prim_result {
        Ok(v) => v,
        Err(_) => {
            proof {
                assert(prim_spec(entry_primitive, data@, p4) is None);
            }
            return Err(DeserializeError::PrimitiveParseFailure(plan.entries[j].name.clone()));
        },
    };
    proof {
        assert(prim_spec(entry_primitive, data@, p4) == Some((value@, *pos as nat)));
    }
    let mut slots2 = slots;
    slots2.set(j, Some(value));
    let ghost sv2 = sv.update(j as int, slot_view(slots2@[j as int]));
    proof {
        assert(slots_view(slots2@) =~= sv2);
    }
    let ghost p5 = *pos as nat;
    proof {
        lemma_skip_ws_spec(data@, p5);
    }
    skip_whitespace(data, pos);
    if *pos >= data.len() {
        return Err(DeserializeError::UnexpectedEnd);
    }
    let c = data[*pos];
    if c == COMMA_BYTE {
        *pos = *pos + 1;
        let res = run_from(plan, data, pos, slots2);
        return res;
    } else if c == RBRACE_BYTE {
        let res = run_from(plan, data, pos, slots2);
        return res;
    } else {
        return Err(DeserializeError::UnexpectedCharacter(c));
    }
}

/// Run a parse plan against an input buffer whose opening brace the caller
/// has already consumed, advancing the cursor in place.  On success the
/// record carries one value per plan entry, in declared order, and the
/// cursor rests on the object terminator; on failure the cursor position
/// is unspecified.
pub fn run_plan(plan: &ParsePlan, data: &[u8], pos: &mut usize) -> (r: Result<
    Vec<JsonValue>,
    DeserializeError,
>)
    requires
        plan.wf(),
    ensures
        match r {
            Ok(vals) => run_spec(
                plan@,
                data@,
                *old(pos) as nat,
                init_slots(plan@.entries.len()),
            ) == RunOutcome::Success(values_view(vals@), *final(pos) as nat),
            Err(e) => run_spec(plan@, data@, *old(pos) as nat, init_slots(plan@.entries.len()))
                == RunOutcome::Failure(e@),
        },
{
    let n = plan.entries.len();
    let mut slots: Vec<Option<JsonValue>> = Vec::new();
    let mut k: usize = 0;
    while k < n
        invariant
            k <= n,
            slots@.len() == k,
            forall|t: int| 0 <= t < k ==> (#[trigger] slots@[t]) is None,
        decreases n - k,
    {
        slots.push(None);
        k += 1;
    }
    proof {
        assert(slots_view(slots@) =~= init_slots(plan@.entries.len()));
    }
    run_from(plan, data, pos, slots)
}

} // verus!
