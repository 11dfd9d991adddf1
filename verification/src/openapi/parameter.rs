//! Query-parameter inference: typing a parameter from its observed string
//! value, and unwrapping the `[]` array-key convention.

use vstd::prelude::*;
use vstd::string::*;
use crate::strutil::{ends_with, str_ends_with, str_eq};
use crate::numlit::{spec_is_i32_literal, spec_is_float_literal, is_i32_literal, is_float_literal};
use crate::openapi::schema::{
    Schema, SchemaKind, SchemaOrRef, StrFormat, SchemaV, SchemaKindV, SchemaOrRefV,
};
use crate::error::GenError;

verus! {

#[derive(Clone, Copy, PartialEq, Eq, Structural, Debug)]
pub enum ParamLocation {
    Query,
    Path,
}

/// One operation parameter: a query parameter inferred from a sample, or a
/// required integer path parameter.
pub struct Parameter {
    pub name: String,
    pub location: ParamLocation,
    pub required: bool,
    pub schema: Schema,
}

pub struct ParameterV {
    pub name: Seq<char>,
    pub location: ParamLocation,
    pub required: bool,
    pub schema: SchemaV,
}

impl View for Parameter {
    type V = ParameterV;

    open spec fn view(&self) -> ParameterV {
        ParameterV {
            name: self.name@,
            location: self.location,
            required: self.required,
            schema: self.schema@,
        }
    }
}

/// The scalar typing of one observed value: a 32-bit integer literal gives
/// integer, a float literal gives number, `true`/`false` gives boolean,
/// anything else string — first match wins.
pub open spec fn spec_param_scalar_schema(value: Seq<char>) -> SchemaV {
    let kind = if spec_is_i32_literal(value) {
        SchemaKindV::Integer
    } else if spec_is_float_literal(value) {
        SchemaKindV::Number
    } else if value == "true"@ || value == "false"@ {
        SchemaKindV::Boolean
    } else {
        SchemaKindV::Text(StrFormat::Plain)
    };
    SchemaV { kind: kind, format_date: false, null_as_zero: false }
}

/// The schema for one query key: each trailing `[]` wraps the scalar in
/// one more array level.
pub open spec fn spec_param_schema(key: Seq<char>, value: Seq<char>) -> SchemaV
    decreases key.len(),
{
    if ends_with(key, seq!['[', ']']) {
        SchemaV {
            kind: SchemaKindV::Array(
                Some(
                    Box::new(
                        SchemaOrRefV::Item(
                            spec_param_schema(key.subrange(0, key.len() - 2), value),
                        ),
                    ),
                ),
            ),
            format_date: false,
            null_as_zero: false,
        }
    } else {
        spec_param_scalar_schema(value)
    }
}

/// Examine the key (e.g. `id[]`) and attempt parses (integer, then float)
/// on the value to infer the parameter's schema.
pub fn infer_parameter_schema(key: &str, value: &str) -> (r: Schema)
    ensures
        r@ == spec_param_schema(key@, value@),
    decreases key@.len(),
{
    proof {
        reveal_strlit("[]");
        assert("[]"@ =~= seq!['[', ']']);
    }
    if str_ends_with(key, "[]") {
        let len = key.unicode_len();
        let inner_key = key.substring_char(0, len - 2);
        proof {
            assert(inner_key@ =~= key@.subrange(0, key@.len() - 2));
        }
        let inner = infer_parameter_schema(inner_key, value);
        return Schema {
            kind: SchemaKind::Array(Some(Box::new(SchemaOrRef::Item(inner)))),
            format_date: false,
            null_as_zero: false,
        };
    }
    let kind = if is_i32_literal(value) {
        SchemaKind::Integer
    } else if is_float_literal(value) {
        SchemaKind::Number
    } else if str_eq(value, "true") || str_eq(value, "false") {
        SchemaKind::Boolean
    } else {
        SchemaKind::Text(StrFormat::Plain)
    };
    Schema { kind: kind, format_date: false, null_as_zero: false }
}

/// The published name of a query key: every `[]` occurrence removed,
/// scanning left to right.
pub open spec fn spec_remove_brackets(s: Seq<char>) -> Seq<char>
    decreases s.len(),
{
    if s.len() < 2 {
        s
    } else if s[0] == '[' && s[1] == ']' {
        spec_remove_brackets(s.subrange(2, s.len() as int))
    } else {
        seq![s[0]] + spec_remove_brackets(s.drop_first())
    }
}

pub fn sanitize_parameter_key(key: &str) -> (r: String)
    ensures
        r@ == spec_remove_brackets(key@),
{
    let len = key.unicode_len();
    let mut out = String::new();
    let mut i: usize = 0;
    proof {
        assert(key@.subrange(0, len as int) =~= key@);
        assert(out@ + spec_remove_brackets(key@) =~= spec_remove_brackets(key@));
    }
    while i < len
        invariant
            len == key@.len(),
            i <= len,
            spec_remove_brackets(key@) == out@ + spec_remove_brackets(
                key@.subrange(i as int, len as int),
            ),
        decreases len - i,
    {
        let ghost suffix = key@.subrange(i as int, len as int);
        let c = key.get_char(i);
        if c == '[' && i + 1 < len && key.get_char(i + 1) == ']' {
            proof {
                assert(suffix.subrange(2, suffix.len() as int) =~= key@.subrange(
                    i + 2,
                    len as int,
                ));
            }
            i = i + 2;
        } else {
            let ghost prev = out@;
            out.push(c);
            proof {
                if suffix.len() >= 2 && suffix[0] == '[' && suffix[1] == ']' {
                    assert(false);
                }
                assert(suffix.drop_first() =~= key@.subrange(i + 1, len as int));
                assert(out@ =~= prev + seq![c]);
                assert(out@ + spec_remove_brackets(key@.subrange(i + 1, len as int))
                    =~= prev + (seq![c] + spec_remove_brackets(suffix.drop_first())));
            }
            i = i + 1;
        }
    }
    proof {
        assert(key@.subrange(len as int, len as int) =~= Seq::<char>::empty());
        assert(out@ + Seq::<char>::empty() =~= out@);
    }
    out
}

/// Query parameters arrive as strings, so the type is inferred from the
/// observed value; the published name has the `[]` convention stripped.
/// Always succeeds.
pub fn create_parameter(key: &str, value: &str) -> (r: Result<Parameter, GenError>)
    ensures
        r matches Ok(p) && p@ == (ParameterV {
            name: spec_remove_brackets(key@),
            location: ParamLocation::Query,
            required: false,
            schema: spec_param_schema(key@, value@),
        }),
{
    let schema = infer_parameter_schema(key, value);
    let name = sanitize_parameter_key(key);
    Ok(Parameter { name, location: ParamLocation::Query, required: false, schema })
}

} // verus!
