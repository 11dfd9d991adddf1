//! Building one operation per sample, and the document's path map keyed by
//! (path template, method) with last-write-wins on key collisions.

use vstd::prelude::*;
use vstd::string::*;
use crate::strutil::{starts_with, str_starts_with, str_eq, ascii_upper, str_to_ascii_upper};
use crate::http::{RequestBody, RequestResponse};
use crate::jsonval::JsonValue;
use crate::openapi::schema::{
    Schema, SchemaKind, SchemaOrRef, Property, StrFormat, SchemaV, SchemaKindV, PropertyV,
    schema_view, props_view, prop_view,
};
use crate::openapi::parameter::{
    Parameter, ParameterV, ParamLocation, spec_param_schema, spec_remove_brackets,
    create_parameter,
};
use crate::error::GenError;

verus! {

broadcast use vstd::std_specs::vec::group_vec_axioms, vstd::seq::group_seq_axioms;

/// One inferred operation: its id, parameters in publication order, an
/// optional JSON request-body schema, and the name of the response
/// component its single success response references.
pub struct Operation {
    pub operation_id: String,
    pub parameters: Vec<Parameter>,
    pub request_body: Option<Schema>,
    pub response_name: String,
}

pub struct OperationV {
    pub operation_id: Seq<char>,
    pub parameters: Seq<ParameterV>,
    pub request_body: Option<SchemaV>,
    pub response_name: Seq<char>,
}

impl View for Operation {
    type V = OperationV;

    open spec fn view(&self) -> OperationV {
        OperationV {
            operation_id: self.operation_id@,
            parameters: self.parameters.deep_view(),
            request_body: match self.request_body {
                Some(s) => Some(schema_view(s)),
                None => None,
            },
            response_name: self.response_name@,
        }
    }
}

impl DeepView for Parameter {
    type V = ParameterV;

    open spec fn deep_view(&self) -> ParameterV {
        self.view()
    }
}

// --- request bodies ---

/// Body fields are typed by direct value kind alone; anything nested is
/// dropped.
pub open spec fn is_body_field(v: JsonValue) -> bool {
    v matches JsonValue::Number { .. } || v matches JsonValue::Bool(_) || v matches
        JsonValue::Text(_)
}

pub open spec fn spec_body_field_kind(v: JsonValue) -> SchemaKindV {
    match v {
        JsonValue::Number { .. } => SchemaKindV::Number,
        JsonValue::Bool(_) => SchemaKindV::Boolean,
        _ => SchemaKindV::Text(StrFormat::Plain),
    }
}

pub open spec fn spec_body_props(entries: Seq<(String, JsonValue)>) -> Seq<PropertyV> {
    entries.filter(|e: (String, JsonValue)| is_body_field(e.1)).map_values(
        |e: (String, JsonValue)|
            PropertyV {
                name: e.0@,
                schema: crate::openapi::schema::SchemaOrRefV::Item(
                    SchemaV {
                        kind: spec_body_field_kind(e.1),
                        format_date: false,
                        null_as_zero: false,
                    },
                ),
            },
    )
}

/// What a sample's request body contributes: for a JSON-mime body whose
/// content is a top-level object, an object schema with one property per
/// scalar field in payload order; anything else contributes nothing. The
/// body itself is required but none of its properties is.
pub open spec fn spec_make_body(body: Option<RequestBody>) -> Option<SchemaV> {
    match body {
        None => None,
        Some(b) => {
            if !starts_with(b.mime@, "application/json"@) {
                None
            } else {
                match b.content {
                    JsonValue::Object(entries) => Some(
                        SchemaV {
                            kind: SchemaKindV::Object(spec_body_props(entries@)),
                            format_date: false,
                            null_as_zero: false,
                        },
                    ),
                    _ => None,
                }
            }
        },
    }
}

pub open spec fn schema_opt_view(r: Option<Schema>) -> Option<SchemaV> {
    match r {
        Some(s) => Some(schema_view(s)),
        None => None,
    }
}

pub fn make_body(body: &Option<RequestBody>) -> (r: Option<Schema>)
    ensures
        schema_opt_view(r) == spec_make_body(*body),
{
    let b = match body {
        Some(b) => b,
        None => {
            return None;
        },
    };
    if !str_starts_with(b.mime.as_str(), "application/json") {
        return None;
    }
    let entries = match &b.content {
        JsonValue::Object(entries) => entries,
        _ => {
            return None;
        },
    };
    let mut props: Vec<Property> = Vec::new();
    let mut i: usize = 0;
    proof {
        assert(entries@.subrange(0, 0) =~= Seq::<(String, JsonValue)>::empty());
        assert(props_view(props) =~= spec_body_props(entries@.subrange(0, 0)));
    }
    while i < entries.len()
        invariant
            i <= entries@.len(),
            *body matches Some(bb) && bb.content matches JsonValue::Object(ee) && ee == *entries,
            props_view(props) == spec_body_props(entries@.subrange(0, i as int)),
        decreases entries@.len() - i,
    {
        let ghost pre = entries@.subrange(0, i as int);
        proof {
            assert(entries@.subrange(0, i + 1) =~= pre.push(entries@[i as int]));
            reveal_with_fuel(Seq::<_>::filter, 2);
            assert(pre.push(entries@[i as int]).drop_last() =~= pre);
        }
        let pair = &entries[i];
        let kind: Option<SchemaKind> = match &pair.1 {
            JsonValue::Number { .. } => Some(SchemaKind::Number),
            JsonValue::Bool(_) => Some(SchemaKind::Boolean),
            JsonValue::Text(_) => Some(SchemaKind::Text(StrFormat::Plain)),
            _ => None,
        };
        let ghost prev = props_view(props);
        match kind {
            Some(k) => {
                props.push(
                    Property {
                        name: pair.0.clone(),
                        schema: SchemaOrRef::Item(
                            Schema { kind: k, format_date: false, null_as_zero: false },
                        ),
                    },
                );
                proof {
                    assert(props_view(props) =~= prev.push(prop_view(props@[props@.len() - 1])));
                    assert(props_view(props) =~= spec_body_props(entries@.subrange(0, i + 1)));
                }
            },
            None => {
                proof {
                    assert(props_view(props) =~= spec_body_props(entries@.subrange(0, i + 1)));
                }
            },
        }
        i = i + 1;
    }
    proof {
        assert(entries@.subrange(0, entries@.len() as int) =~= entries@);
    }
    Some(Schema { kind: SchemaKind::Object(props), format_date: false, null_as_zero: false })
}

// --- one operation per sample ---

pub open spec fn contains_query_key(q: Seq<(String, String)>, k: Seq<char>) -> bool {
    exists|i: int| 0 <= i < q.len() && q[i].0@ == k
}

/// The query pairs deduplicated by key, first occurrence winning, order
/// kept.
pub open spec fn spec_dedup_queries(q: Seq<(String, String)>) -> Seq<(String, String)>
    decreases q.len(),
{
    if q.len() == 0 {
        q
    } else {
        let d = spec_dedup_queries(q.drop_last());
        if contains_query_key(q.drop_last(), q.last().0@) {
            d
        } else {
            d.push(q.last())
        }
    }
}

pub open spec fn spec_query_params(q: Seq<(String, String)>) -> Seq<ParameterV> {
    spec_dedup_queries(q).map_values(
        |p: (String, String)|
            ParameterV {
                name: spec_remove_brackets(p.0@),
                location: ParamLocation::Query,
                required: false,
                schema: spec_param_schema(p.0@, p.1@),
            },
    )
}

pub open spec fn spec_path_params(ps: Seq<crate::http::PathParameter>) -> Seq<ParameterV> {
    ps.map_values(
        |p: crate::http::PathParameter|
            ParameterV {
                name: p.name@,
                location: ParamLocation::Path,
                required: true,
                schema: SchemaV {
                    kind: SchemaKindV::Integer,
                    format_date: false,
                    null_as_zero: false,
                },
            },
    )
}

/// The whole operation one sample yields.
pub open spec fn spec_operation_v(rr: RequestResponse) -> OperationV {
    OperationV {
        operation_id: rr.info.operation_id@,
        parameters: spec_query_params(rr.request.query@) + spec_path_params(
            rr.info.path_parameters@,
        ),
        request_body: spec_make_body(rr.request.body),
        response_name: rr.info.response_object_name@,
    }
}

/// Builds the operation for one sample: query parameters deduplicated by
/// key (first seen wins) then one required integer path parameter per
/// placeholder, the request body's contribution, and the response
/// component name. Always succeeds.
pub fn create_operation(rr: &RequestResponse) -> (r: Result<Operation, GenError>)
    ensures
        r matches Ok(op) && op@ == spec_operation_v(*rr),
{
    let q = &rr.request.query;
    let mut parameters: Vec<Parameter> = Vec::new();
    let mut i: usize = 0;
    proof {
        assert(q@.subrange(0, 0) =~= Seq::<(String, String)>::empty());
        assert(parameters.deep_view() =~= spec_query_params(q@.subrange(0, 0)));
    }
    while i < q.len()
        invariant
            i <= q@.len(),
            q == rr.request.query,
            parameters.deep_view() == spec_query_params(q@.subrange(0, i as int)),
        decreases q@.len() - i,
    {
        let ghost pre = q@.subrange(0, i as int);
        proof {
            assert(q@.subrange(0, i + 1) =~= pre.push(q@[i as int]));
            assert(pre.push(q@[i as int]).drop_last() =~= pre);
        }
        // first occurrence wins: skip a key that already appeared
        let mut seen = false;
        let mut j: usize = 0;
        while j < i
            invariant
                j <= i,
                i < q@.len(),
                seen ==> contains_query_key(q@.subrange(0, i as int), q@[i as int].0@),
                !seen ==> forall|k: int| 0 <= k < j ==> q@[k].0@ != q@[i as int].0@,
            decreases i - j,
        {
            if str_eq(q[j].0.as_str(), q[i].0.as_str()) {
                proof {
                    assert(q@.subrange(0, i as int)[j as int].0@ == q@[i as int].0@);
                }
                seen = true;
            }
            j = j + 1;
        }
        let ghost prev = parameters.deep_view();
        if !seen {
            proof {
                assert forall|k: int|
                    !(0 <= k < pre.len() && pre[k].0@ == q@[i as int].0@) by {
                    if 0 <= k < pre.len() {
                        assert(pre[k] == q@[k]);
                    }
                }
                assert(!contains_query_key(pre, q@[i as int].0@));
            }
            let p = match create_parameter(q[i].0.as_str(), q[i].1.as_str()) {
                Ok(p) => p,
                Err(e) => {
                    return Err(e);
                },
            };
            parameters.push(p);
            proof {
                assert(parameters.deep_view() =~= prev.push(parameters@[parameters@.len() - 1]@));
                assert(parameters.deep_view() =~= spec_query_params(q@.subrange(0, i + 1)));
            }
        } else {
            proof {
                assert(parameters.deep_view() =~= spec_query_params(q@.subrange(0, i + 1)));
            }
        }
        i = i + 1;
    }
    proof {
        assert(q@.subrange(0, q@.len() as int) =~= q@);
    }
    let ghost qparams = parameters.deep_view();

    // the required integer path parameters, one per placeholder
    let pps = &rr.info.path_parameters;
    let mut k: usize = 0;
    while k < pps.len()
        invariant
            k <= pps@.len(),
            pps == rr.info.path_parameters,
            parameters.deep_view() == qparams + spec_path_params(pps@.subrange(0, k as int)),
        decreases pps@.len() - k,
    {
        let ghost prev = parameters.deep_view();
        parameters.push(
            Parameter {
                name: pps[k].name.clone(),
                location: ParamLocation::Path,
                required: true,
                schema: Schema {
                    kind: SchemaKind::Integer,
                    format_date: false,
                    null_as_zero: false,
                },
            },
        );
        proof {
            assert(pps@.subrange(0, k + 1) =~= pps@.subrange(0, k as int).push(pps@[k as int]));
            assert(parameters.deep_view() =~= prev.push(parameters@[parameters@.len() - 1]@));
            assert(parameters.deep_view() =~= qparams + spec_path_params(
                pps@.subrange(0, k + 1),
            ));
        }
        k = k + 1;
    }
    proof {
        assert(pps@.subrange(0, pps@.len() as int) =~= pps@);
    }

    let request_body = make_body(&rr.request.body);
    let op = Operation {
        operation_id: rr.info.operation_id.clone(),
        parameters,
        request_body,
        response_name: rr.info.response_object_name.clone(),
    };
    proof {
        assert(op@.parameters =~= spec_operation_v(*rr).parameters);
    }
    Ok(op)
}

// --- the path map ---

/// One path-map entry: a path template, an upper-cased method, and the
/// operation stored under them.
pub struct PathItem {
    pub path: String,
    pub method: String,
    pub operation: Operation,
}

pub type PathsV = Seq<(Seq<char>, Seq<char>, OperationV)>;

/// The document's path map: ordered, keyed by (path template, method),
/// last write under a key winning in place.
pub struct Paths {
    pub entries: Vec<PathItem>,
}

impl Paths {
    pub open spec fn view_entries(self) -> PathsV {
        Seq::new(
            self.entries@.len(),
            |i: int|
                (
                    self.entries@[i].path@,
                    self.entries@[i].method@,
                    self.entries@[i].operation@,
                ),
        )
    }

    pub fn new() -> (r: Paths)
        ensures
            r.view_entries() == Seq::<(Seq<char>, Seq<char>, OperationV)>::empty(),
    {
        let r = Paths { entries: Vec::new() };
        proof {
            assert(r.view_entries() =~= Seq::<(Seq<char>, Seq<char>, OperationV)>::empty());
        }
        r
    }
}

/// The first index holding the key, or the map's length if none does.
pub open spec fn spec_path_index(m: PathsV, p: Seq<char>, meth: Seq<char>) -> int
    decreases m.len(),
{
    if m.len() == 0 {
        0
    } else if m[0].0 == p && m[0].1 == meth {
        0
    } else {
        1 + spec_path_index(m.drop_first(), p, meth)
    }
}

/// Last write wins, in place: an occupied key is overwritten where it
/// stands, a fresh key is appended.
pub open spec fn spec_upsert(m: PathsV, p: Seq<char>, meth: Seq<char>, op: OperationV) -> PathsV {
    let i = spec_path_index(m, p, meth);
    if i < m.len() {
        m.update(i, (p, meth, op))
    } else {
        m.push((p, meth, op))
    }
}

proof fn lemma_path_index_bound(m: PathsV, p: Seq<char>, meth: Seq<char>)
    ensures
        0 <= spec_path_index(m, p, meth) <= m.len(),
        spec_path_index(m, p, meth) < m.len() ==> m[spec_path_index(m, p, meth)].0 == p
            && m[spec_path_index(m, p, meth)].1 == meth,
        forall|j: int|
            0 <= j < spec_path_index(m, p, meth) ==> !(m[j].0 == p && m[j].1 == meth),
    decreases m.len(),
{
    if m.len() > 0 && !(m[0].0 == p && m[0].1 == meth) {
        lemma_path_index_bound(m.drop_first(), p, meth);
        assert forall|j: int| 0 <= j < spec_path_index(m, p, meth) implies !(m[j].0 == p
            && m[j].1 == meth) by {
            if j > 0 {
                assert(m.drop_first()[j - 1] == m[j]);
            }
        }
    }
}

/// A scan that saw no earlier key match pins the index down.
proof fn lemma_path_index_is(m: PathsV, p: Seq<char>, meth: Seq<char>, k: int)
    requires
        0 <= k <= m.len(),
        forall|j: int| 0 <= j < k ==> !(m[j].0 == p && m[j].1 == meth),
        k < m.len() ==> m[k].0 == p && m[k].1 == meth,
    ensures
        spec_path_index(m, p, meth) == k,
    decreases k,
{
    if k > 0 {
        lemma_path_index_is(m.drop_first(), p, meth, k - 1);
    }
}

impl Paths {
    /// Stores `operation` under (path, method): the later write replaces an
    /// earlier one in place.
    pub fn insert_operation(&mut self, path: String, method: String, operation: Operation)
        ensures
            final(self).view_entries() == spec_upsert(
                old(self).view_entries(),
                path@,
                method@,
                operation@,
            ),
    {
        let ghost m = self.view_entries();
        let mut found: Option<usize> = None;
        let mut i: usize = 0;
        while i < self.entries.len() && found.is_none()
            invariant
                m == self.view_entries(),
                i <= self.entries@.len(),
                match found {
                    None => forall|j: int| 0 <= j < i ==> !(m[j].0 == path@ && m[j].1 == method@),
                    Some(k) => k < self.entries@.len() && spec_path_index(m, path@, method@)
                        == k as int,
                },
            decreases self.entries@.len() - i + (if found is None { 1int } else { 0int }),
        {
            if str_eq(self.entries[i].path.as_str(), path.as_str()) && str_eq(
                self.entries[i].method.as_str(),
                method.as_str(),
            ) {
                proof {
                    lemma_path_index_is(m, path@, method@, i as int);
                }
                found = Some(i);
            } else {
                i = i + 1;
            }
        }
        match found {
            Some(k) => {
                self.entries.set(k, PathItem { path, method, operation });
                proof {
                    assert(self.view_entries() =~= m.update(
                        k as int,
                        (path@, method@, operation@),
                    ));
                }
            },
            None => {
                proof {
                    lemma_path_index_is(m, path@, method@, m.len() as int);
                }
                self.entries.push(PathItem { path, method, operation });
                proof {
                    assert(self.view_entries() =~= m.push((path@, method@, operation@)));
                }
            },
        }
    }

}

/// The path-map key one sample writes: its template and its method,
/// upper-cased.
pub open spec fn spec_path_key(rr: RequestResponse) -> (Seq<char>, Seq<char>) {
    (rr.info.path@, ascii_upper(rr.info.method@))
}

/// What a batch of samples leaves in the path map, in order.
pub open spec fn spec_add_all(m: PathsV, rrs: Seq<RequestResponse>) -> PathsV
    decreases rrs.len(),
{
    if rrs.len() == 0 {
        m
    } else {
        spec_upsert(
            spec_add_all(m, rrs.drop_last()),
            spec_path_key(rrs.last()).0,
            spec_path_key(rrs.last()).1,
            spec_operation_v(rrs.last()),
        )
    }
}

/// Adds one operation per sample to the path map, in sample order; a
/// repeated (template, method) key keeps only the later sample's
/// operation. Always succeeds.
pub fn create_paths(rrs: &Vec<RequestResponse>, paths: &mut Paths) -> (r: Result<(), GenError>)
    ensures
        r is Ok,
        final(paths).view_entries() == spec_add_all(old(paths).view_entries(), rrs@),
{
    let mut i: usize = 0;
    while i < rrs.len()
        invariant
            i <= rrs@.len(),
            paths.view_entries() == spec_add_all(
                old(paths).view_entries(),
                rrs@.subrange(0, i as int),
            ),
        decreases rrs@.len() - i,
    {
        let ghost pre = rrs@.subrange(0, i as int);
        proof {
            assert(rrs@.subrange(0, i + 1) =~= pre.push(rrs@[i as int]));
            assert(pre.push(rrs@[i as int]).drop_last() =~= pre);
        }
        let rr = &rrs[i];
        let operation = match create_operation(rr) {
            Ok(op) => op,
            Err(e) => {
                return Err(e);
            },
        };
        let method = str_to_ascii_upper(rr.info.method.as_str());
        paths.insert_operation(rr.info.path.clone(), method, operation);
        i = i + 1;
    }
    proof {
        assert(rrs@.subrange(0, rrs@.len() as int) =~= rrs@);
    }
    Ok(())
}

/// No two entries of the map share a key.
pub open spec fn paths_wf(m: PathsV) -> bool {
    forall|i: int, j: int|
        0 <= i < j < m.len() ==> !(m[i].0 == m[j].0 && m[i].1 == m[j].1)
}

/// Law: writing two operations under one (path template, method) key
/// leaves exactly one entry for that key, holding the later operation —
/// the path map is last-write-wins.
pub proof fn lemma_path_map_last_write_wins(
    m: PathsV,
    p: Seq<char>,
    meth: Seq<char>,
    op1: OperationV,
    op2: OperationV,
)
    requires
        paths_wf(m),
    ensures
        ({
            let m2 = spec_upsert(spec_upsert(m, p, meth, op1), p, meth, op2);
            &&& paths_wf(m2)
            &&& exists|i: int| 0 <= i < m2.len() && m2[i] == (p, meth, op2)
            &&& forall|i: int|
                0 <= i < m2.len() && m2[i].0 == p && m2[i].1 == meth ==> m2[i].2 == op2
        }),
{
    lemma_upsert_wf(m, p, meth, op1);
    let m1 = spec_upsert(m, p, meth, op1);
    lemma_upsert_wf(m1, p, meth, op2);
    let m2 = spec_upsert(m1, p, meth, op2);
    lemma_path_index_bound(m, p, meth);
    lemma_path_index_bound(m1, p, meth);
    let i1 = spec_path_index(m1, p, meth);
    assert(i1 < m1.len() && m1[i1].0 == p && m1[i1].1 == meth) by {
        let i0 = spec_path_index(m, p, meth);
        if i0 < m.len() {
            lemma_path_index_is(m1, p, meth, i0);
        } else {
            lemma_path_index_is(m1, p, meth, m.len() as int);
        }
    }
    assert(m2[i1] == (p, meth, op2));
}

/// A whole batch of samples leaves the path-map keys unique.
pub proof fn lemma_add_all_wf(m: PathsV, rrs: Seq<RequestResponse>)
    requires
        paths_wf(m),
    ensures
        paths_wf(spec_add_all(m, rrs)),
    decreases rrs.len(),
{
    if rrs.len() > 0 {
        lemma_add_all_wf(m, rrs.drop_last());
        lemma_upsert_wf(
            spec_add_all(m, rrs.drop_last()),
            spec_path_key(rrs.last()).0,
            spec_path_key(rrs.last()).1,
            spec_operation_v(rrs.last()),
        );
    }
}

/// Upserting keeps the keys unique.
proof fn lemma_upsert_wf(m: PathsV, p: Seq<char>, meth: Seq<char>, op: OperationV)
    requires
        paths_wf(m),
    ensures
        paths_wf(spec_upsert(m, p, meth, op)),
        spec_path_index(spec_upsert(m, p, meth, op), p, meth) < spec_upsert(
            m,
            p,
            meth,
            op,
        ).len(),
{
    lemma_path_index_bound(m, p, meth);
    let i = spec_path_index(m, p, meth);
    let m2 = spec_upsert(m, p, meth, op);
    if i < m.len() {
        lemma_path_index_is(m2, p, meth, i);
    } else {
        lemma_path_index_is(m2, p, meth, i);
        assert forall|a: int, b: int| 0 <= a < b < m2.len() implies !(m2[a].0 == m2[b].0
            && m2[a].1 == m2[b].1) by {
            if b == m2.len() - 1 {
                assert(!(m[a].0 == p && m[a].1 == meth));
            }
        }
    }
}

} // verus!
