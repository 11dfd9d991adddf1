//! Schema inference: turning one sample's parsed JSON into schema
//! components with cross-references, and naming those components.

pub mod components;
pub mod operation;
pub mod parameter;
pub mod response;
pub mod schema;

use vstd::prelude::*;
use vstd::string::*;
use crate::strutil::{
    ends_with, str_ends_with, str_prefix, str_eq, str_contains, contains_at, contains_seq,
    is_ascii_word_char, eq_ignore_case, str_eq_ignore_case,
};
use crate::numlit::{spec_is_float_literal, is_float_literal};
use crate::bridge::{pascal_of, to_pascal_case};
use crate::jsonval::JsonValue;
use crate::openapi::schema::{
    Schema, SchemaKind, SchemaOrRef, Property, StrFormat, SchemaV, SchemaKindV, SchemaOrRefV,
    PropertyV, schema_view, props_view, prop_view, is_primitive, use_reference,
    spec_is_primitive, spec_use_reference,
};
use crate::openapi::components::{
    Components, contains_name, spec_insert_entries, spec_insert_collides, schema_refs_valid,
    sor_refs_valid, names_of, lemma_prefix_trans, lemma_push_prefix, lemma_insert_prefix,
    lemma_names_prefix_subset, lemma_refs_valid_monotone, lemma_sor_refs_valid_monotone,
    lemma_find_prefix,
};
use crate::http::{spec_singular, singular};

verus! {

broadcast use vstd::std_specs::vec::group_vec_axioms, vstd::seq::group_seq_axioms;

/// `extract_object_name`, stated over character sequences: drop a trailing
/// `"Response"`, drop a trailing `"List"` or `"list"`, then singularize
/// (`"ies"` to `"y"`, a plain trailing `"s"` dropped).
pub open spec fn spec_extract_object_name(s: Seq<char>) -> Seq<char> {
    let a = if ends_with(s, "Response"@) {
        s.subrange(0, s.len() - 8)
    } else {
        s
    };
    let b = if ends_with(a, "List"@) {
        a.subrange(0, a.len() - 4)
    } else {
        a
    };
    let c = if ends_with(b, "list"@) {
        b.subrange(0, b.len() - 4)
    } else {
        b
    };
    if ends_with(c, "ies"@) {
        c.subrange(0, c.len() - 3) + "y"@
    } else if ends_with(c, "s"@) && !ends_with(c, "ss"@) {
        c.drop_last()
    } else {
        c
    }
}

/// Takes a name and returns the singular version of it, with the known
/// suffixes stripped first; e.g. `Vendors` and `VendorsResponse` both give
/// `Vendor`. Always succeeds.
pub fn extract_object_name(name: &str) -> (r: Option<String>)
    ensures
        r matches Some(v) && v@ == spec_extract_object_name(name@),
{
    proof {
        reveal_strlit("Response");
        reveal_strlit("List");
        reveal_strlit("list");
        reveal_strlit("ies");
        reveal_strlit("y");
        reveal_strlit("s");
        reveal_strlit("ss");
    }
    let mut len = name.unicode_len();
    let mut cur: String = if str_ends_with(name, "Response") {
        len = len - 8;
        str_prefix(name, len)
    } else {
        name.to_owned()
    };
    if str_ends_with(cur.as_str(), "List") {
        len = len - 4;
        cur = str_prefix(cur.as_str(), len);
    }
    if str_ends_with(cur.as_str(), "list") {
        len = len - 4;
        cur = str_prefix(cur.as_str(), len);
    }
    let r = if str_ends_with(cur.as_str(), "ies") {
        str_prefix(cur.as_str(), len - 3).concat("y")
    } else if str_ends_with(cur.as_str(), "s") && !str_ends_with(cur.as_str(), "ss") {
        str_prefix(cur.as_str(), len - 1)
    } else {
        cur
    };
    proof {
        assert(r@ =~= spec_extract_object_name(name@));
    }
    Some(r)
}

/// PascalCases a name for use as a schema component name.
pub fn schema_name(name: &str) -> (r: String)
    ensures
        r@ == pascal_of(name@),
{
    to_pascal_case(name)
}


// --- the annotation lookup tables ---

/// A character that binds `date` into a larger word: a word character that
/// is not an underscore.
pub open spec fn spec_date_boundary(c: char) -> bool {
    !is_ascii_word_char(c) || c == '_'
}

/// `date` occurs at `i`, bounded on both sides by the string's edge, a
/// non-word character, or an underscore.
pub open spec fn date_token_at(s: Seq<char>, i: int) -> bool {
    &&& contains_at(s, "date"@, i)
    &&& (i == 0 || spec_date_boundary(s[i - 1]))
    &&& (i + 4 == s.len() || spec_date_boundary(s[i + 4]))
}

pub open spec fn has_date_token(s: Seq<char>) -> bool {
    exists|i: int| date_token_at(s, i)
}

fn date_boundary(c: char) -> (r: bool)
    ensures
        r == spec_date_boundary(c),
{
    let word = ('0' <= c && c <= '9') || ('a' <= c && c <= 'z') || ('A' <= c && c <= 'Z')
        || c == '_';
    !word || c == '_'
}

fn date_token_at_exec(s: &str, i: usize) -> (r: bool)
    requires
        i + 4 <= s@.len(),
    ensures
        r == date_token_at(s@, i as int),
{
    proof {
        reveal_strlit("date");
    }
    let slen = s.unicode_len();
    if s.get_char(i) != 'd' || s.get_char(i + 1) != 'a' || s.get_char(i + 2) != 't'
        || s.get_char(i + 3) != 'e' {
        proof {
            if contains_at(s@, "date"@, i as int) {
                let sub = s@.subrange(i as int, i + 4);
                assert(sub[0] == s@[i as int] && sub[1] == s@[i + 1] && sub[2] == s@[i + 2]
                    && sub[3] == s@[i + 3]);
            }
        }
        return false;
    }
    proof {
        assert(s@.subrange(i as int, i + 4) =~= "date"@);
    }
    let left = i == 0 || date_boundary(s.get_char(i - 1));
    let right = i + 4 == slen || date_boundary(s.get_char(i + 4));
    left && right
}

/// Whether the name carries a `date` token bounded by a word boundary or
/// an underscore.
pub fn name_has_date_token(s: &str) -> (r: bool)
    ensures
        r == has_date_token(s@),
{
    proof {
        reveal_strlit("date");
    }
    let slen = s.unicode_len();
    if slen < 4 {
        proof {
            assert(forall|i: int| !date_token_at(s@, i));
        }
        return false;
    }
    let last = slen - 4;
    let mut i: usize = 0;
    while i < last
        invariant
            slen == s@.len(),
            slen >= 4,
            last == slen - 4,
            i <= last,
            "date"@.len() == 4,
            forall|j: int| 0 <= j < i ==> !date_token_at(s@, j),
        decreases last - i,
    {
        if date_token_at_exec(s, i) {
            return true;
        }
        i = i + 1;
    }
    if date_token_at_exec(s, last) {
        return true;
    }
    proof {
        assert(forall|j: int| date_token_at(s@, j) ==> 0 <= j <= last);
    }
    false
}

/// Number fields whose name marks them as dates: the `date` token pattern,
/// or one of the known date-bearing field names.
pub open spec fn spec_is_date_name(name: Seq<char>) -> bool {
    ||| has_date_token(name)
    ||| name == "delivered"@
    ||| name == "lastmodifieddate"@
    ||| name == "approved"@
    ||| name == "createddate"@
}

pub fn is_date_name(name: &str) -> (r: bool)
    ensures
        r == spec_is_date_name(name@),
{
    name_has_date_token(name) || str_eq(name, "delivered") || str_eq(name, "lastmodifieddate")
        || str_eq(name, "approved") || str_eq(name, "createddate")
}

/// The money-bearing type names whose null samples stand for zero.
pub open spec fn spec_is_money_name(name: Seq<char>) -> bool {
    name == "client"@ || name == "order_c"@ || name == "invoice"@
}

pub fn is_money_name(name: &str) -> (r: bool)
    ensures
        r == spec_is_money_name(name@),
{
    str_eq(name, "client") || str_eq(name, "order_c") || str_eq(name, "invoice")
}

/// String fields left as plain strings even when their value looks
/// numeric: identifier, name, postal and item tokens, and one known
/// exception.
pub open spec fn spec_is_plain_string_name(name: Seq<char>) -> bool {
    ||| contains_seq(name, "item"@)
    ||| contains_seq(name, "name"@)
    ||| contains_seq(name, "id"@)
    ||| contains_seq(name, "zip"@)
    ||| contains_seq(name, "postal"@)
    ||| name == "order_vendor_order"@
}

pub fn is_plain_string_name(name: &str) -> (r: bool)
    ensures
        r == spec_is_plain_string_name(name@),
{
    str_contains(name, "item") || str_contains(name, "name") || str_contains(name, "id")
        || str_contains(name, "zip") || str_contains(name, "postal") || str_eq(
        name,
        "order_vendor_order",
    )
}

// --- scalar schema inference ---

pub open spec fn ctx_view(ctx: Option<&str>) -> Option<Seq<char>> {
    match ctx {
        Some(s) => Some(s@),
        None => None,
    }
}

/// The format a string field gets, in priority order: `phone` and `email`
/// by exact name first, then the plain-string override, then the decimal
/// heuristic for values that parse as floats, else plain.
pub open spec fn spec_string_format(name_opt: Option<Seq<char>>, value: Seq<char>) -> StrFormat {
    match name_opt {
        None => StrFormat::Plain,
        Some(name) => {
            if name == "phone"@ {
                StrFormat::Phone
            } else if name == "email"@ {
                StrFormat::Email
            } else if spec_is_plain_string_name(name) {
                StrFormat::Plain
            } else if spec_is_float_literal(value) {
                StrFormat::Decimal
            } else {
                StrFormat::Plain
            }
        },
    }
}

/// What inference gives one scalar JSON value: null becomes an object with
/// no properties (a money-bearing name keeps its null-as-zero mark), a
/// number becomes integer or number with the date and money annotations,
/// a string is formatted by `spec_string_format`.
pub open spec fn spec_scalar_schema(v: JsonValue, name_opt: Option<Seq<char>>) -> SchemaV {
    match v {
        JsonValue::Null => SchemaV {
            kind: SchemaKindV::Object(Seq::empty()),
            format_date: false,
            null_as_zero: name_opt matches Some(n) && spec_is_money_name(n),
        },
        JsonValue::Bool(_) => SchemaV {
            kind: SchemaKindV::Boolean,
            format_date: false,
            null_as_zero: false,
        },
        JsonValue::Number { float } => SchemaV {
            kind: if float {
                SchemaKindV::Number
            } else {
                SchemaKindV::Integer
            },
            format_date: name_opt matches Some(n) && spec_is_date_name(n),
            null_as_zero: name_opt matches Some(n) && spec_is_money_name(n),
        },
        JsonValue::Text(s) => SchemaV {
            kind: SchemaKindV::Text(spec_string_format(name_opt, s@)),
            format_date: false,
            null_as_zero: false,
        },
        _ => SchemaV { kind: SchemaKindV::Boolean, format_date: false, null_as_zero: false },
    }
}

/// Infers the schema of one string value under its field name.
pub fn infer_string_schema(name_opt: Option<&str>, value: &str) -> (r: Schema)
    ensures
        r@ == (SchemaV {
            kind: SchemaKindV::Text(spec_string_format(ctx_view(name_opt), value@)),
            format_date: false,
            null_as_zero: false,
        }),
{
    let format = match name_opt {
        None => StrFormat::Plain,
        Some(name) => {
            if str_eq(name, "phone") {
                StrFormat::Phone
            } else if str_eq(name, "email") {
                StrFormat::Email
            } else if is_plain_string_name(name) {
                StrFormat::Plain
            } else if is_float_literal(value) {
                StrFormat::Decimal
            } else {
                StrFormat::Plain
            }
        },
    };
    Schema { kind: SchemaKind::Text(format), format_date: false, null_as_zero: false }
}

/// Infers the schema of one scalar JSON value under its field name.
pub fn infer_scalar_schema(value: &JsonValue, name_opt: Option<&str>) -> (r: Schema)
    requires
        value.is_scalar(),
    ensures
        r@ == spec_scalar_schema(*value, ctx_view(name_opt)),
{
    match value {
        JsonValue::Null => {
            let null_as_zero = match name_opt {
                Some(n) => is_money_name(n),
                None => false,
            };
            let empty_props: Vec<Property> = Vec::new();
            proof {
                assert(props_view(empty_props) =~= Seq::<PropertyV>::empty());
            }
            Schema { kind: SchemaKind::Object(empty_props), format_date: false, null_as_zero }
        },
        JsonValue::Bool(_) => Schema {
            kind: SchemaKind::Boolean,
            format_date: false,
            null_as_zero: false,
        },
        JsonValue::Number { float } => {
            let (format_date, null_as_zero) = match name_opt {
                Some(n) => (is_date_name(n), is_money_name(n)),
                None => (false, false),
            };
            Schema {
                kind: if *float {
                    SchemaKind::Number
                } else {
                    SchemaKind::Integer
                },
                format_date,
                null_as_zero,
            }
        },
        JsonValue::Text(s) => infer_string_schema(name_opt, s.as_str()),
        _ => Schema { kind: SchemaKind::Boolean, format_date: false, null_as_zero: false },
    }
}


/// Law: every string value that parses as a float, under a field name
/// that is neither `phone` nor `email` nor one of the plain-string
/// overrides, is typed as a string with the `decimal` format.
pub proof fn lemma_decimal_for_float_strings(name: Seq<char>, value: Seq<char>)
    requires
        spec_is_float_literal(value),
        name != "phone"@,
        name != "email"@,
        !spec_is_plain_string_name(name),
    ensures
        spec_string_format(Some(name), value) == StrFormat::Decimal,
{
}

/// Law: the string annotations follow the documented priority exactly —
/// `phone` and `email` by exact name first, the plain-string overrides
/// next, the decimal heuristic last, plain otherwise.
pub proof fn lemma_string_format_priority(name: Seq<char>, value: Seq<char>)
    ensures
        name == "phone"@ ==> spec_string_format(Some(name), value) == StrFormat::Phone,
        name != "phone"@ && name == "email"@ ==> spec_string_format(Some(name), value)
            == StrFormat::Email,
        name != "phone"@ && name != "email"@ && spec_is_plain_string_name(name)
            ==> spec_string_format(Some(name), value) == StrFormat::Plain,
        name != "phone"@ && name != "email"@ && !spec_is_plain_string_name(name)
            && spec_is_float_literal(value) ==> spec_string_format(Some(name), value)
            == StrFormat::Decimal,
        name != "phone"@ && name != "email"@ && !spec_is_plain_string_name(name)
            && !spec_is_float_literal(value) ==> spec_string_format(Some(name), value)
            == StrFormat::Plain,
{
}

// --- recursive schema inference ---

/// The naming context one object field hands down: the sample's primary
/// object name for the `{list: [...]}` wrapper idiom, the singularized key
/// otherwise.
pub open spec fn spec_field_ctx(key: Seq<char>, v: JsonValue, primary: Seq<char>) -> Seq<char> {
    if v is Array && eq_ignore_case(key, "list"@) {
        primary
    } else {
        spec_singular(key)
    }
}

/// A scalar's schema is never extracted into a component.
pub proof fn lemma_scalar_not_ref(v: JsonValue, ctx: Option<Seq<char>>)
    requires
        v.is_scalar(),
    ensures
        !spec_use_reference(spec_scalar_schema(v, ctx)),
{
}

pub open spec fn spec_empty_object_schema() -> SchemaV {
    SchemaV { kind: SchemaKindV::Object(Seq::empty()), format_date: false, null_as_zero: false }
}

/// The inline schema of an array whose sampled first element is scalar
/// (or which is empty): a function of the input and context alone.
pub open spec fn spec_primitive_array_schema(
    elems: Seq<JsonValue>,
    ctx: Option<Seq<char>>,
) -> SchemaV {
    SchemaV {
        kind: SchemaKindV::Array(
            Some(
                Box::new(
                    SchemaOrRefV::Item(
                        if elems.len() == 0 {
                            spec_empty_object_schema()
                        } else {
                            spec_scalar_schema(elems[0], ctx)
                        },
                    ),
                ),
            ),
        ),
        format_date: false,
        null_as_zero: false,
    }
}

/// Law: a primitive array inferred twice from the same input produces
/// identical inline schemas — the schema is a function of the input and
/// context alone (and, by `create_schema`'s contract, no registry entry is
/// created for it).
pub proof fn lemma_primitive_array_round_trip(
    elems: Seq<JsonValue>,
    ctx: Option<Seq<char>>,
    r1: SchemaV,
    r2: SchemaV,
)
    requires
        r1 == spec_primitive_array_schema(elems, ctx),
        r2 == spec_primitive_array_schema(elems, ctx),
    ensures
        r1 == r2,
{
}

/// A JSON value that inference extracts into a named component: an object
/// with at least one field.
pub open spec fn is_nonempty_object(v: JsonValue) -> bool {
    v matches JsonValue::Object(fields) && fields@.len() > 0
}

/// The inference engine as one function: what one call returns and what it
/// leaves in the registry. Scalars touch nothing; an array infers its
/// first element and inlines it if primitive, else registers it under the
/// PascalCased context (or primary) name; an object infers its fields left
/// to right, extracting each non-trivial object field.
pub open spec fn spec_infer(
    entries: crate::openapi::components::Entries,
    v: JsonValue,
    ctx: Option<Seq<char>>,
    primary: Seq<char>,
) -> (crate::openapi::components::Entries, SchemaV)
    decreases v,
{
    match v {
        JsonValue::Array(elems) => {
            let inner = if elems@.len() == 0 {
                (entries, spec_empty_object_schema())
            } else {
                spec_infer(entries, elems@[0], ctx, primary)
            };
            if spec_is_primitive(inner.1) {
                (
                    inner.0,
                    SchemaV {
                        kind: SchemaKindV::Array(Some(Box::new(SchemaOrRefV::Item(inner.1)))),
                        format_date: false,
                        null_as_zero: false,
                    },
                )
            } else {
                let name = pascal_of(
                    match ctx {
                        Some(c) => c,
                        None => primary,
                    },
                );
                (
                    spec_insert_entries(inner.0, name, inner.1),
                    SchemaV {
                        kind: SchemaKindV::Array(Some(Box::new(SchemaOrRefV::Ref(name)))),
                        format_date: false,
                        null_as_zero: false,
                    },
                )
            }
        },
        JsonValue::Object(fields) => {
            let walked = spec_infer_fields(entries, fields@, fields@.len() as nat, primary);
            (
                walked.0,
                SchemaV {
                    kind: SchemaKindV::Object(walked.1),
                    format_date: false,
                    null_as_zero: false,
                },
            )
        },
        _ => (entries, spec_scalar_schema(v, ctx)),
    }
}

/// The first `n` fields of an object, inferred left to right: each field
/// recurses under its context; a non-trivial object result is registered
/// under the PascalCased context and referenced, anything else is inlined.
pub open spec fn spec_infer_fields(
    entries: crate::openapi::components::Entries,
    fields: Seq<(String, JsonValue)>,
    n: nat,
    primary: Seq<char>,
) -> (crate::openapi::components::Entries, Seq<PropertyV>)
    decreases fields, n,
{
    if n == 0 || n > fields.len() {
        (entries, Seq::empty())
    } else {
        let prev = spec_infer_fields(entries, fields, (n - 1) as nat, primary);
        let key = fields[n - 1].0;
        let val = fields[n - 1].1;
        let fctx = spec_field_ctx(key@, val, primary);
        let inferred = spec_infer(prev.0, val, Some(fctx), primary);
        if spec_use_reference(inferred.1) {
            let name = pascal_of(fctx);
            (
                spec_insert_entries(inferred.0, name, inferred.1),
                prev.1.push(PropertyV { name: key@, schema: SchemaOrRefV::Ref(name) }),
            )
        } else {
            (
                inferred.0,
                prev.1.push(PropertyV { name: key@, schema: SchemaOrRefV::Item(inferred.1) }),
            )
        }
    }
}

/// Converts one JSON value into a schema node, extracting non-trivial
/// object shapes into named components of the registry.
///
/// The result and the registry effect are exactly `spec_infer` of the
/// inputs. Beyond that, the contract spells out the readable corollaries:
/// the registry only ever grows (old entries stay, in place, unchanged),
/// a well-formed registry stays well-formed and the result's references
/// all resolve in it, scalars and primitive arrays are inferred exactly
/// and touch the registry not at all, an object keeps its keys in payload
/// order (every one required), a non-empty-object field is extracted and
/// referenced while every other field stays inline.
pub fn create_schema(
    components: &mut Components,
    value: &JsonValue,
    object_name: Option<&str>,
    primary: &str,
) -> (r: Schema)
    ensures
        old(components).entries().is_prefix_of(final(components).entries()),
        old(components).collisions@.is_prefix_of(final(components).collisions@),
        old(components).wf() ==> final(components).wf(),
        old(components).wf() ==> schema_refs_valid(r@, final(components).names()),
        final(components).entries() == spec_infer(
            old(components).entries(),
            *value,
            ctx_view(object_name),
            primary@,
        ).0,
        r@ == spec_infer(old(components).entries(), *value, ctx_view(object_name), primary@).1,
        value.is_scalar() ==> {
            &&& r@ == spec_scalar_schema(*value, ctx_view(object_name))
            &&& final(components).entries() == old(components).entries()
            &&& final(components).collisions@ == old(components).collisions@
        },
        value matches JsonValue::Array(elems) ==> {
            &&& r@.format_date == false
            &&& r@.null_as_zero == false
            &&& r@.kind matches SchemaKindV::Array(Some(_))
            &&& (elems@.len() == 0 || elems@[0].is_scalar() ==> {
                &&& final(components).entries() == old(components).entries()
                &&& final(components).collisions@ == old(components).collisions@
                &&& r@ == spec_primitive_array_schema(elems@, ctx_view(object_name))
            })
            &&& (r@.kind matches SchemaKindV::Array(Some(b)) && *b matches SchemaOrRefV::Ref(n)
                ==> {
                &&& n == pascal_of(
                    match ctx_view(object_name) {
                        Some(c) => c,
                        None => primary@,
                    },
                )
                &&& contains_name(final(components).entries(), n)
            })
        },
        value matches JsonValue::Object(entries) ==> {
            &&& r@.format_date == false
            &&& r@.null_as_zero == false
            &&& ((forall|i: int| 0 <= i < entries@.len() ==> (#[trigger] entries@[i].1).is_scalar())
                ==> final(components).entries() == old(components).entries()
                    && final(components).collisions@ == old(components).collisions@)
            &&& r@.kind matches SchemaKindV::Object(props) && {
                &&& props.len() == entries@.len()
                &&& forall|i: int|
                    0 <= i < props.len() ==> (#[trigger] props[i].name) == entries@[i].0@
                &&& forall|i: int|
                    0 <= i < props.len() && entries@[i].1.is_scalar() ==> (
                    #[trigger] props[i].schema) == SchemaOrRefV::Item(
                        spec_scalar_schema(
                            entries@[i].1,
                            Some(spec_field_ctx(entries@[i].0@, entries@[i].1, primary@)),
                        ),
                    )
                &&& forall|i: int|
                    0 <= i < props.len() && is_nonempty_object(entries@[i].1) ==> ((
                    #[trigger] props[i].schema) matches SchemaOrRefV::Ref(n) && n == pascal_of(
                        spec_field_ctx(entries@[i].0@, entries@[i].1, primary@),
                    ) && contains_name(final(components).entries(), n))
                &&& forall|i: int|
                    0 <= i < props.len() && !is_nonempty_object(entries@[i].1) ==> ((
                    #[trigger] props[i].schema) matches SchemaOrRefV::Item(_))
                &&& forall|i: int|
                    0 <= i < props.len() && entries@[i].1.is_array() ==> ((
                    #[trigger] props[i].schema) matches SchemaOrRefV::Item(s) && s.kind matches
                        SchemaKindV::Array(Some(_)))
                &&& forall|i: int|
                    0 <= i < props.len() ==> ((#[trigger] props[i].schema) matches
                        SchemaOrRefV::Ref(n) ==> n == pascal_of(
                        spec_field_ctx(entries@[i].0@, entries@[i].1, primary@),
                    ) && contains_name(final(components).entries(), n))
            }
        },
    decreases *value,
{
    match value {
        JsonValue::Null | JsonValue::Bool(_) | JsonValue::Number { .. } | JsonValue::Text(_) => {
            proof {
                assert(old(components).entries().is_prefix_of(components.entries())) by {
                    assert(components.entries() =~= components.entries().subrange(
                        0,
                        components.entries().len() as int,
                    ));
                }
                assert(old(components).collisions@.is_prefix_of(components.collisions@)) by {
                    assert(components.collisions@ =~= components.collisions@.subrange(
                        0,
                        components.collisions@.len() as int,
                    ));
                }
                assert(*components == *old(components));
            }
            let r = infer_scalar_schema(value, object_name);
            proof {
                assert(spec_infer(
                    old(components).entries(),
                    *value,
                    ctx_view(object_name),
                    primary@,
                ) == (components.entries(), r@));
                if old(components).wf() {
                    assert(schema_refs_valid(r@, components.names())) by {
                        reveal_with_fuel(crate::openapi::components::schema_refs_valid, 2);
                        reveal_with_fuel(crate::openapi::components::sor_refs_valid, 2);
                        match r@.kind {
                            SchemaKindV::Object(props) => {
                                assert(props.len() == 0);
                            },
                            _ => {},
                        }
                    }
                }
            }
            r
        },
        JsonValue::Array(elems) => {
            proof {
                assert(*value == JsonValue::Array(*elems));
                assert(decreases_to!(*value => *elems));
            }
            let inner: Schema = if elems.len() == 0 {
                let empty_props: Vec<Property> = Vec::new();
                proof {
                    assert(props_view(empty_props) =~= Seq::<PropertyV>::empty());
                }
                let s = Schema {
                    kind: SchemaKind::Object(empty_props),
                    format_date: false,
                    null_as_zero: false,
                };
                proof {
                    assert(schema_refs_valid(s@, components.names()));
                    assert(s@ == spec_empty_object_schema());
                }
                s
            } else {
                proof {
                    assert(decreases_to!(*elems => elems@[0]));
                }
                create_schema(components, &elems[0], object_name, primary)
            };
            if is_primitive(&inner) {
                let r = Schema {
                    kind: SchemaKind::Array(Some(Box::new(SchemaOrRef::Item(inner)))),
                    format_date: false,
                    null_as_zero: false,
                };
                proof {
                    assert(old(components).entries().is_prefix_of(components.entries())) by {
                        if old(components).entries() == components.entries() {
                            assert(components.entries() =~= components.entries().subrange(
                                0,
                                components.entries().len() as int,
                            ));
                        }
                    }
                    assert(old(components).collisions@.is_prefix_of(components.collisions@)) by {
                        if old(components).collisions@ == components.collisions@ {
                            assert(components.collisions@ =~= components.collisions@.subrange(
                                0,
                                components.collisions@.len() as int,
                            ));
                        }
                    }
                    if elems@.len() > 0 && elems@[0].is_scalar() {
                        assert(r@.kind == SchemaKindV::Array(
                            Some(
                                Box::new(
                                    SchemaOrRefV::Item(
                                        spec_scalar_schema(elems@[0], ctx_view(object_name)),
                                    ),
                                ),
                            ),
                        ));
                    }
                    if old(components).wf() {
                        assert(schema_refs_valid(inner@, components.names()));
                        assert(schema_refs_valid(r@, components.names())) by {
                            reveal_with_fuel(crate::openapi::components::schema_refs_valid, 3);
                            reveal_with_fuel(crate::openapi::components::sor_refs_valid, 3);
                        }
                    }
                    assert(spec_infer(
                        old(components).entries(),
                        *value,
                        ctx_view(object_name),
                        primary@,
                    ) == (components.entries(), r@));
                }
                r
            } else {
                let base: &str = match object_name {
                    Some(n) => n,
                    None => primary,
                };
                proof {
                    assert(base@ == (match ctx_view(object_name) {
                        Some(c) => c,
                        None => primary@,
                    }));
                }
                let comp = to_pascal_case(base);
                let ghost before = components.entries();
                let ghost cols_before = components.collisions@;
                proof {
                    if old(components).wf() {
                        assert(components.names().subset_of(components.names().insert(comp@)));
                        lemma_refs_valid_monotone(
                            inner@,
                            components.names(),
                            components.names().insert(comp@),
                        );
                    }
                }
                let _collided = components.insert_if_absent(comp.clone(), inner);
                proof {
                    lemma_insert_prefix(before, comp@, inner@);
                    lemma_prefix_trans(old(components).entries(), before, components.entries());
                    assert(cols_before.is_prefix_of(components.collisions@)) by {
                        assert(cols_before =~= components.collisions@.subrange(
                            0,
                            cols_before.len() as int,
                        ));
                    }
                    lemma_prefix_trans(
                        old(components).collisions@,
                        cols_before,
                        components.collisions@,
                    );
                }
                let r = Schema {
                    kind: SchemaKind::Array(Some(Box::new(SchemaOrRef::Ref(comp)))),
                    format_date: false,
                    null_as_zero: false,
                };
                proof {
                    if old(components).wf() {
                        assert(names_of(components.entries()).contains(comp@));
                        assert(schema_refs_valid(r@, components.names())) by {
                            reveal_with_fuel(crate::openapi::components::schema_refs_valid, 3);
                            reveal_with_fuel(crate::openapi::components::sor_refs_valid, 3);
                        }
                    }
                    assert(spec_infer(
                        old(components).entries(),
                        *value,
                        ctx_view(object_name),
                        primary@,
                    ) == (components.entries(), r@));
                }
                r
            }
        },
        JsonValue::Object(entries) => {
            proof {
                assert(*value == JsonValue::Object(*entries));
                assert(decreases_to!(*value => *entries));
            }
            let mut props: Vec<Property> = Vec::new();
            let mut i: usize = 0;
            #[verifier::loop_isolation(false)]
            while i < entries.len()
                invariant
                    *value == JsonValue::Object(*entries),
                    i <= entries@.len(),
                    props@.len() == i,
                    old(components).entries().is_prefix_of(components.entries()),
                    old(components).collisions@.is_prefix_of(components.collisions@),
                    old(components).wf() ==> components.wf(),
                    (components.entries(), props_view(props)) == spec_infer_fields(
                        old(components).entries(),
                        entries@,
                        i as nat,
                        primary@,
                    ),
                    (forall|j: int| 0 <= j < i ==> (#[trigger] entries@[j].1).is_scalar())
                        ==> components.entries() == old(components).entries()
                            && components.collisions@ == old(components).collisions@,
                    forall|j: int|
                        0 <= j < i && is_nonempty_object(entries@[j].1) ==> ((
                        #[trigger] props_view(props)[j].schema) matches SchemaOrRefV::Ref(_)),
                    forall|j: int|
                        0 <= j < i && !is_nonempty_object(entries@[j].1) ==> ((
                        #[trigger] props_view(props)[j].schema) matches SchemaOrRefV::Item(_)),
                    forall|j: int|
                        0 <= j < i && entries@[j].1.is_array() ==> ((
                        #[trigger] props_view(props)[j].schema) matches SchemaOrRefV::Item(s)
                            && s.kind matches SchemaKindV::Array(Some(_))),
                    forall|j: int|
                        0 <= j < i ==> (#[trigger] props@[j].name@) == entries@[j].0@,
                    old(components).wf() ==> forall|j: int|
                        0 <= j < i ==> sor_refs_valid(
                            #[trigger] props_view(props)[j].schema,
                            components.names(),
                        ),
                    forall|j: int|
                        0 <= j < i && entries@[j].1.is_scalar() ==> (
                        #[trigger] props_view(props)[j].schema) == SchemaOrRefV::Item(
                            spec_scalar_schema(
                                entries@[j].1,
                                Some(spec_field_ctx(entries@[j].0@, entries@[j].1, primary@)),
                            ),
                        ),
                    forall|j: int|
                        0 <= j < i ==> ((#[trigger] props_view(props)[j].schema) matches
                            SchemaOrRefV::Ref(n) ==> n == pascal_of(
                            spec_field_ctx(entries@[j].0@, entries@[j].1, primary@),
                        ) && contains_name(components.entries(), n)),
                decreases entries@.len() - i,
            {
                proof {
                    assert(decreases_to!(*value => *entries));
                    assert(decreases_to!(*entries => entries@[i as int]));
                    assert(decreases_to!(entries@[i as int] => entries@[i as int].1));
                    assert(decreases_to!(*value => entries@[i as int].1));
                }
                let ghost c_at_start = components.entries();
                let pair = &entries[i];
                let key = &pair.0;
                let val = &pair.1;
                let is_wrapper = val.is_array_exec() && str_eq_ignore_case(key.as_str(), "list");
                let field_ctx: String = if is_wrapper {
                    primary.to_owned()
                } else {
                    singular(key.as_str())
                };
                proof {
                    assert(field_ctx@ == spec_field_ctx(key@, *val, primary@));
                }
                proof {
                    assert(*val == entries@[i as int].1);
                }
                let ghost cols_at_start = components.collisions@;
                let schema = create_schema(components, val, Some(field_ctx.as_str()), primary);
                let ghost c_after_rec = components.entries();
                let ghost cols_after_rec = components.collisions@;
                let ghost prev_props = props_view(props);
                if use_reference(&schema) {
                    proof {
                        if entries@[i as int].1.is_scalar() {
                            lemma_scalar_not_ref(
                                entries@[i as int].1,
                                Some(spec_field_ctx(entries@[i as int].0@, entries@[i as int].1, primary@)),
                            );
                        }
                    }
                    let comp = to_pascal_case(field_ctx.as_str());
                    proof {
                        if old(components).wf() {
                            assert(components.names().subset_of(
                                components.names().insert(comp@),
                            ));
                            lemma_refs_valid_monotone(
                                schema@,
                                components.names(),
                                components.names().insert(comp@),
                            );
                        }
                    }
                    let _collided = components.insert_if_absent(comp.clone(), schema);
                    props.push(Property { name: key.clone(), schema: SchemaOrRef::Ref(comp) });
                    proof {
                        lemma_insert_prefix(c_after_rec, comp@, schema@);
                        lemma_prefix_trans(c_at_start, c_after_rec, components.entries());
                        lemma_prefix_trans(
                            old(components).entries(),
                            c_at_start,
                            components.entries(),
                        );
                        assert(props_view(props) =~= prev_props.push(
                            prop_view(props@[i as int]),
                        ));
                        if old(components).wf() {
                            lemma_names_prefix_subset(c_after_rec, components.entries());
                            assert forall|j: int| 0 <= j < i + 1 implies sor_refs_valid(
                                #[trigger] props_view(props)[j].schema,
                                components.names(),
                            ) by {
                                if j < i {
                                    lemma_names_prefix_subset(c_at_start, components.entries());
                                    lemma_sor_refs_valid_monotone(
                                        prev_props[j].schema,
                                        names_of(c_at_start),
                                        components.names(),
                                    );
                                } else {
                                    assert(names_of(components.entries()).contains(comp@));
                                }
                            }
                        }
                        assert forall|j: int| 0 <= j < i + 1 implies ((
                        #[trigger] props_view(props)[j].schema) matches SchemaOrRefV::Ref(n)
                            ==> n == pascal_of(
                            spec_field_ctx(entries@[j].0@, entries@[j].1, primary@),
                        ) && contains_name(components.entries(), n)) by {
                            if j < i {
                                match props_view(props)[j].schema {
                                    SchemaOrRefV::Ref(nm) => {
                                        lemma_find_prefix(c_at_start, components.entries(), nm);
                                    },
                                    _ => {},
                                }
                            }
                        }
                    }
                } else {
                    props.push(Property { name: key.clone(), schema: SchemaOrRef::Item(schema) });
                    proof {
                        assert(props_view(props) =~= prev_props.push(
                            prop_view(props@[i as int]),
                        ));
                        lemma_prefix_trans(
                            old(components).entries(),
                            c_at_start,
                            components.entries(),
                        );
                        if old(components).wf() {
                            assert forall|j: int| 0 <= j < i + 1 implies sor_refs_valid(
                                #[trigger] props_view(props)[j].schema,
                                components.names(),
                            ) by {
                                if j < i {
                                    lemma_names_prefix_subset(c_at_start, components.entries());
                                    lemma_sor_refs_valid_monotone(
                                        prev_props[j].schema,
                                        names_of(c_at_start),
                                        components.names(),
                                    );
                                }
                            }
                        }
                        assert forall|j: int| 0 <= j < i + 1 implies ((
                        #[trigger] props_view(props)[j].schema) matches SchemaOrRefV::Ref(n)
                            ==> n == pascal_of(
                            spec_field_ctx(entries@[j].0@, entries@[j].1, primary@),
                        ) && contains_name(components.entries(), n)) by {
                            if j < i {
                                match props_view(props)[j].schema {
                                    SchemaOrRefV::Ref(nm) => {
                                        lemma_find_prefix(c_at_start, components.entries(), nm);
                                    },
                                    _ => {},
                                }
                            }
                        }
                    }
                }
                proof {
                    assert(cols_after_rec.is_prefix_of(components.collisions@)) by {
                        assert(cols_after_rec =~= components.collisions@.subrange(
                            0,
                            cols_after_rec.len() as int,
                        ));
                    }
                    lemma_prefix_trans(cols_at_start, cols_after_rec, components.collisions@);
                    lemma_prefix_trans(
                        old(components).collisions@,
                        cols_at_start,
                        components.collisions@,
                    );
                    assert((components.entries(), props_view(props)) == spec_infer_fields(
                        old(components).entries(),
                        entries@,
                        (i + 1) as nat,
                        primary@,
                    ));
                }
                i = i + 1;
            }
            let r = Schema { kind: SchemaKind::Object(props), format_date: false, null_as_zero: false };
            proof {
                if old(components).wf() {
                    assert(schema_refs_valid(r@, components.names()));
                }
                assert(spec_infer(
                    old(components).entries(),
                    *value,
                    ctx_view(object_name),
                    primary@,
                ) == (components.entries(), r@));
            }
            r
        },
    }
}
} // verus!
