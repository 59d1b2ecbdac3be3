//! The code emitter: render a parse plan as the source text of a
//! deserialization routine.
//!
//! The rendered routine implements `JsonDeserialize<T>` with
//! `deserialize(data, ref pos) -> Result<T, ByteArray>`.  Its field dispatch
//! chain is emitted in exactly declaration order, it references the runtime
//! primitives by their fixed names, and field identifiers are interpolated
//! verbatim.  Emission is deterministic: the text is a function of the plan
//! alone.

use vstd::prelude::*;

verus! {

use vstd::string::StringExecFns;
use crate::plan::{ParsePlan, PlanEntryV, PlanV, primitive_name, primitive_name_spec};
use crate::plan::{SchemaError, plan_of, schema_error_of, schema_names_unique, schema_names_valid, synthesize};
use crate::schema::{FieldV, Schema};

/// Opening of the generated impl, up to the start of the slot declarations.
pub open spec fn emit_header(name: Seq<char>) -> Seq<char> {
    "impl "@ + name + "JsonDeserializeImpl of JsonDeserialize<"@ + name
        + "> {\n    fn deserialize(data: @ByteArray, ref pos: usize) -> Result<"@ + name
        + ", ByteArray> {\n"@
}

/// Slot declarations for one field: a default-initialized value and a
/// parsed flag.
pub open spec fn emit_decl(e: PlanEntryV) -> Seq<char> {
    "        let mut "@ + e.name + ": "@ + e.type_text
        + " = Default::default();\n        let mut "@ + e.name + "_parsed = false;\n"@
}

/// Slot declarations of all fields, in declaration order.
pub open spec fn emit_decls(es: Seq<PlanEntryV>) -> Seq<char>
    decreases es.len(),
{
    if es.len() == 0 {
        Seq::empty()
    } else {
        emit_decls(es.drop_last()) + emit_decl(es.last())
    }
}

/// Fixed text between the slot declarations and the field dispatch chain:
/// the parse loop head, terminator test, field-name parse and separator
/// check.
pub open spec fn emit_loop_head() -> Seq<char> {
    "        let mut error: ByteArray = \"\";\n        let mut success = true;\n        loop {\n            json_parser::skip_whitespace(data, ref pos);\n            let current_char = data.at(pos).unwrap();\n            if current_char == 125_u8 {\n                break;\n            }\n            match json_parser::parse_string(data, ref pos) {\n                Result::Ok(field_name) => {\n                    json_parser::skip_whitespace(data, ref pos);\n                    if data.at(pos).unwrap() != 58_u8 {\n                        error = \"Expected ':'\";\n                        success = false;\n                        break;\n                    }\n                    pos += 1;\n"@
}

/// One branch of the field dispatch chain.  The first branch opens with
/// `if`, every later one with `} else if`; the branch invokes the entry's
/// selected primitive and on failure aborts with the entry's error message.
pub open spec fn emit_branch(i: int, e: PlanEntryV) -> Seq<char> {
    (if i == 0 {
        "                    if field_name == \""@
    } else {
        "                    } else if field_name == \""@
    }) + e.name + "\" {\n                        match json_parser::"@ + primitive_name_spec(
        e.primitive,
    ) + "(data, ref pos) {\n                            Result::Ok(value) => {\n                                "@
        + e.name + " = value;\n                                "@ + e.name
        + "_parsed = true;\n                            },\n                            Result::Err(_) => {\n                                error = \"Failed to parse "@
        + e.name
        + "\";\n                                success = false;\n                                break;\n                            },\n                        };\n"@
}

/// The dispatch branches of all fields, in declaration order.
pub open spec fn emit_branches(es: Seq<PlanEntryV>) -> Seq<char>
    decreases es.len(),
{
    if es.len() == 0 {
        Seq::empty()
    } else {
        emit_branches(es.drop_last()) + emit_branch(es.len() - 1, es.last())
    }
}

/// The unknown-field abort: the final alternative of the dispatch chain.
pub open spec fn emit_unknown_block() -> Seq<char> {
    "                        error = \"Unknown field\";\n                        success = false;\n                        break;\n"@
}

/// The whole field dispatch chain.  With no declared fields every name is
/// unknown, so the abort stands alone.
pub open spec fn emit_dispatch(es: Seq<PlanEntryV>) -> Seq<char> {
    if es.len() == 0 {
        "                    {\n"@ + emit_unknown_block() + "                    }\n"@
    } else {
        emit_branches(es) + "                    } else {\n"@ + emit_unknown_block()
            + "                    }\n"@
    }
}

/// Fixed text between the dispatch chain and the missing-field condition:
/// the field-name failure arm, the separator handling after a value, the
/// loop close, and the failure test.
pub open spec fn emit_loop_tail() -> Seq<char> {
    "                },\n                Result::Err(_) => {\n                    error = \"Failed to parse field name\";\n                    success = false;\n                    break;\n                },\n            };\n            json_parser::skip_whitespace(data, ref pos);\n            let next_char = data.at(pos).unwrap();\n            if next_char == 44_u8 {\n                pos += 1;\n            } else if next_char != 125_u8 {\n                let mut debug_msg: ByteArray = \"Unexpected char: \";\n                debug_msg.append_byte(next_char);\n                error = debug_msg;\n                success = false;\n                break;\n            }\n        };\n        if !success {\n            Result::Err(error)\n        } else if "@
}

/// One disjunct of the missing-required-field condition.
pub open spec fn emit_missing_item(i: int, e: PlanEntryV) -> Seq<char> {
    (if i == 0 {
        "!"@
    } else {
        " || !"@
    }) + e.name + "_parsed"@
}

pub open spec fn emit_missing_list(es: Seq<PlanEntryV>) -> Seq<char>
    decreases es.len(),
{
    if es.len() == 0 {
        Seq::empty()
    } else {
        emit_missing_list(es.drop_last()) + emit_missing_item(es.len() - 1, es.last())
    }
}

/// The missing-required-field condition: true when some parsed flag is
/// still unset.  With no declared fields nothing can be missing.
pub open spec fn emit_missing_cond(es: Seq<PlanEntryV>) -> Seq<char> {
    if es.len() == 0 {
        "false"@
    } else {
        emit_missing_list(es)
    }
}

/// Fixed text between the missing-field condition and the record
/// constructor.
pub open spec fn emit_missing_arm() -> Seq<char> {
    " {\n            Result::Err(\"Missing required field\")\n        } else {\n            Result::Ok("@
}

/// One name of the record constructor's field list.
pub open spec fn emit_member_item(i: int, e: PlanEntryV) -> Seq<char> {
    (if i == 0 {
        Seq::<char>::empty()
    } else {
        ", "@
    }) + e.name
}

pub open spec fn emit_member_list(es: Seq<PlanEntryV>) -> Seq<char>
    decreases es.len(),
{
    if es.len() == 0 {
        Seq::empty()
    } else {
        emit_member_list(es.drop_last()) + emit_member_item(es.len() - 1, es.last())
    }
}

/// Closing of the generated impl, after the constructed record.
pub open spec fn emit_footer() -> Seq<char> {
    " })\n        }\n    }\n}\n"@
}

/// The whole source text rendered from a plan.
pub open spec fn emit_spec(p: PlanV) -> Seq<char> {
    emit_header(p.struct_name) + emit_decls(p.entries) + emit_loop_head() + emit_dispatch(
        p.entries,
    ) + emit_loop_tail() + emit_missing_cond(p.entries) + emit_missing_arm() + p.struct_name
        + " { "@ + emit_member_list(p.entries) + emit_footer()
}

/// Render a parse plan as source text.  The result is a function of the
/// plan alone.
#[verifier::rlimit(100)]
pub fn emit(plan: &ParsePlan) -> (out: String)
    ensures
        out@ == emit_spec(plan@),
{
    let ghost es = plan@.entries;
    let n = plan.entries.len();
    let mut out = String::new();
    out.append("impl ");
    out.append(plan.struct_name.as_str());
    out.append("JsonDeserializeImpl of JsonDeserialize<");
    out.append(plan.struct_name.as_str());
    out.append("> {\n    fn deserialize(data: @ByteArray, ref pos: usize) -> Result<");
    out.append(plan.struct_name.as_str());
    out.append(", ByteArray> {\n");
    proof {
        assert(out@ =~= emit_header(plan@.struct_name));
    }
    let ghost pre_decls = out@;
    let mut i: usize = 0;
    while i < n
        invariant
            n == plan.entries@.len(),
            es == plan@.entries,
            i <= n,
            out@ == pre_decls + emit_decls(es.take(i as int)),
            pre_decls == emit_header(plan@.struct_name),
        decreases n - i,
    {
        let e = &plan.entries[i];
        out.append("        let mut ");
        out.append(e.name.as_str());
        out.append(": ");
        out.append(e.type_text.as_str());
        out.append(" = Default::default();\n        let mut ");
        out.append(e.name.as_str());
        out.append("_parsed = false;\n");
        proof {
            assert(es.take(i + 1).drop_last() =~= es.take(i as int));
            assert(es.take(i + 1).last() == es[i as int]);
            assert(plan.entries@[i as int]@ == es[i as int]);
            assert(out@ =~= pre_decls + emit_decls(es.take(i + 1)));
        }
        i += 1;
    }
    proof {
        assert(es.take(n as int) =~= es);
    }
    out.append("        let mut error: ByteArray = \"\";\n        let mut success = true;\n        loop {\n            json_parser::skip_whitespace(data, ref pos);\n            let current_char = data.at(pos).unwrap();\n            if current_char == 125_u8 {\n                break;\n            }\n            match json_parser::parse_string(data, ref pos) {\n                Result::Ok(field_name) => {\n                    json_parser::skip_whitespace(data, ref pos);\n                    if data.at(pos).unwrap() != 58_u8 {\n                        error = \"Expected ':'\";\n                        success = false;\n                        break;\n                    }\n                    pos += 1;\n");
    let ghost pre_branches = out@;
    proof {
        assert(pre_branches =~= emit_header(plan@.struct_name) + emit_decls(es)
            + emit_loop_head());
    }
    let mut i: usize = 0;
    while i < n
        invariant
            n == plan.entries@.len(),
            es == plan@.entries,
            i <= n,
            out@ == pre_branches + emit_branches(es.take(i as int)),
            pre_branches == emit_header(plan@.struct_name) + emit_decls(es) + emit_loop_head(),
        decreases n - i,
    {
        let e = &plan.entries[i];
        let mut piece = String::new();
        if i == 0 {
            piece.append("                    if field_name == \"");
        } else {
            piece.append("                    } else if field_name == \"");
        }
        piece.append(e.name.as_str());
        piece.append("\" {\n                        match json_parser::");
        piece.append(primitive_name(e.primitive));
        piece.append(
            "(data, ref pos) {\n                            Result::Ok(value) => {\n                                ",
        );
        piece.append(e.name.as_str());
        piece.append(" = value;\n                                ");
        piece.append(e.name.as_str());
        piece.append(
            "_parsed = true;\n                            },\n                            Result::Err(_) => {\n                                error = \"Failed to parse ",
        );
        piece.append(e.name.as_str());
        piece.append(
            "\";\n                                success = false;\n                                break;\n                            },\n                        };\n",
        );
        proof {
            assert(plan.entries@[i as int]@ == es[i as int]);
            assert(piece@ =~= emit_branch(i as int, es[i as int]));
            assert(es.take(i + 1).drop_last() =~= es.take(i as int));
            assert(es.take(i + 1).last() == es[i as int]);
            assert(emit_branches(es.take(i + 1)) == emit_branches(es.take(i as int))
                + emit_branch(i as int, es[i as int]));
        }
        out.append(piece.as_str());
        proof {
            assert(out@ =~= pre_branches + emit_branches(es.take(i + 1)));
        }
        i += 1;
    }
    proof {
        assert(es.take(n as int) =~= es);
    }
    if n == 0 {
        out.append("                    {\n");
    } else {
        out.append("                    } else {\n");
    }
    out.append(
        "                        error = \"Unknown field\";\n                        success = false;\n                        break;\n",
    );
    out.append("                    }\n");
    proof {
        assert(out@ =~= emit_header(plan@.struct_name) + emit_decls(es) + emit_loop_head()
            + emit_dispatch(es));
    }
    out.append("                },\n                Result::Err(_) => {\n                    error = \"Failed to parse field name\";\n                    success = false;\n                    break;\n                },\n            };\n            json_parser::skip_whitespace(data, ref pos);\n            let next_char = data.at(pos).unwrap();\n            if next_char == 44_u8 {\n                pos += 1;\n            } else if next_char != 125_u8 {\n                let mut debug_msg: ByteArray = \"Unexpected char: \";\n                debug_msg.append_byte(next_char);\n                error = debug_msg;\n                success = false;\n                break;\n            }\n        };\n        if !success {\n            Result::Err(error)\n        } else if ");
    let ghost pre_missing = out@;
    proof {
        assert(pre_missing =~= emit_header(plan@.struct_name) + emit_decls(es) + emit_loop_head()
            + emit_dispatch(es) + emit_loop_tail());
    }
    if n == 0 {
        out.append("false");
    } else {
        let mut i: usize = 0;
        while i < n
            invariant
                n == plan.entries@.len(),
                es == plan@.entries,
                i <= n,
                out@ == pre_missing + emit_missing_list(es.take(i as int)),
            decreases n - i,
        {
            let e = &plan.entries[i];
            if i == 0 {
                out.append("!");
            } else {
                out.append(" || !");
            }
            out.append(e.name.as_str());
            out.append("_parsed");
            proof {
                assert(es.take(i + 1).drop_last() =~= es.take(i as int));
                assert(es.take(i + 1).last() == es[i as int]);
                assert(plan.entries@[i as int]@ == es[i as int]);
                assert(out@ =~= pre_missing + emit_missing_list(es.take(i + 1)));
            }
            i += 1;
        }
        proof {
            assert(es.take(n as int) =~= es);
        }
    }
    proof {
        assert(out@ =~= pre_missing + emit_missing_cond(es));
    }
    out.append(
        " {\n            Result::Err(\"Missing required field\")\n        } else {\n            Result::Ok(",
    );
    out.append(plan.struct_name.as_str());
    out.append(" { ");
    let ghost pre_members = out@;
    proof {
        assert(pre_members =~= emit_header(plan@.struct_name) + emit_decls(es) + emit_loop_head()
            + emit_dispatch(es) + emit_loop_tail() + emit_missing_cond(es) + emit_missing_arm()
            + plan@.struct_name + " { "@);
    }
    let mut i: usize = 0;
    while i < n
        invariant
            n == plan.entries@.len(),
            es == plan@.entries,
            i <= n,
            out@ == pre_members + emit_member_list(es.take(i as int)),
        decreases n - i,
    {
        let e = &plan.entries[i];
        if i > 0 {
            out.append(", ");
        }
        out.append(e.name.as_str());
        proof {
            assert(es.take(i + 1).drop_last() =~= es.take(i as int));
            assert(es.take(i + 1).last() == es[i as int]);
            assert(plan.entries@[i as int]@ == es[i as int]);
            assert(out@ =~= pre_members + emit_member_list(es.take(i + 1)));
        }
        i += 1;
    }
    proof {
        assert(es.take(n as int) =~= es);
    }
    out.append(" })\n        }\n    }\n}\n");
    proof {
        assert(out@ =~= emit_spec(plan@));
    }
    out
}

/// Synthesize a plan from a schema and render it: the whole generation
/// pipeline.  The text is a function of the struct name and schema alone.
pub fn generate(struct_name: &str, schema: &Schema) -> (r: Result<String, SchemaError>)
    ensures
        r is Ok <==> schema_names_valid(schema@) && schema_names_unique(schema@),
        r matches Ok(text) ==> text@ == emit_spec(plan_of(struct_name@, schema@)),
        r matches Err(e) ==> e == schema_error_of(schema@),
{
    match synthesize(struct_name, schema) {
        Ok(plan) => Ok(emit(&plan)),
        Err(e) => Err(e),
    }
}

/// Determinism of generation: the emitted source text is a function of the
/// struct name and the schema's field views alone, so regenerating from an
/// unchanged schema yields identical text.
pub proof fn lemma_generation_deterministic(
    name1: Seq<char>,
    fields1: Seq<FieldV>,
    name2: Seq<char>,
    fields2: Seq<FieldV>,
)
    requires
        name1 == name2,
        fields1 == fields2,
    ensures
        emit_spec(plan_of(name1, fields1)) == emit_spec(plan_of(name2, fields2)),
{
}

} // verus!
