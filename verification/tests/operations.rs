//! Parameter inference, request bodies, the path map, the filter, and the
//! assembled document.

use har2openapi::command::filter::{filter_keep, keep_path};
use har2openapi::command::generate::{build_document, longest_common_prefix};
use har2openapi::http::{Request, RequestBody, RequestResponse, Response};
use har2openapi::jsonval::JsonValue;
use har2openapi::openapi::operation::{create_operation, make_body};
use har2openapi::openapi::parameter::{
    infer_parameter_schema, sanitize_parameter_key, ParamLocation,
};
use har2openapi::openapi::schema::{SchemaKind, SchemaOrRef, StrFormat};

fn sample_with_query(
    url: &str,
    method: &str,
    query: Vec<(String, String)>,
    data: JsonValue,
) -> RequestResponse {
    let request = Request {
        url: url.to_string(),
        headers: vec![],
        query,
        method: method.to_string(),
        body: None,
    };
    let response = Response { data, headers: vec![] };
    RequestResponse::new(request, response).unwrap()
}

#[test]
fn test_longest_common_prefix() {
    let strings = vec![
        "https://app.studiodesigner.com/api/item/details/12334".to_string(),
        "https://app.studiodesigner.com/api/itemlist".to_string(),
        "https://app.studiodesigner.com/api/activities/list".to_string(),
    ];
    assert_eq!(
        longest_common_prefix(&strings),
        "https://app.studiodesigner.com/api/"
    );
}

#[test]
fn test_infer_parameter_schema() {
    let s = infer_parameter_schema("foo", "");
    assert!(matches!(s.kind, SchemaKind::Text(_)));

    let s = infer_parameter_schema("foo", "32");
    assert!(matches!(s.kind, SchemaKind::Integer));

    let s = infer_parameter_schema("foo", "-32");
    assert!(matches!(s.kind, SchemaKind::Integer));

    let s = infer_parameter_schema("foo", "1.0");
    assert!(matches!(s.kind, SchemaKind::Number));

    let s = infer_parameter_schema("foo[]", "");
    let items = match s.kind {
        SchemaKind::Array(Some(items)) => items,
        _ => panic!("expected array"),
    };
    let items = match *items {
        SchemaOrRef::Item(s) => s,
        _ => panic!("expected array"),
    };
    assert!(matches!(items.kind, SchemaKind::Text(_)));
}

#[test]
fn parameter_boolean_and_sanitizing() {
    let s = infer_parameter_schema("flag", "true");
    assert!(matches!(s.kind, SchemaKind::Boolean));
    let s = infer_parameter_schema("flag", "false");
    assert!(matches!(s.kind, SchemaKind::Boolean));
    // an out-of-range integer still parses as a float
    let s = infer_parameter_schema("big", "99999999999");
    assert!(matches!(s.kind, SchemaKind::Number));
    assert_eq!(sanitize_parameter_key("id[]"), "id");
    assert_eq!(sanitize_parameter_key("a[]b[]"), "ab");
}

/// Scenario: `id[]=1&id[]=2` gives one array-of-integer parameter named
/// `id`.
#[test]
fn array_query_parameter() {
    let rr = sample_with_query(
        "https://app.studiodesigner.com/api/items",
        "GET",
        vec![
            ("id[]".to_string(), "1".to_string()),
            ("id[]".to_string(), "2".to_string()),
        ],
        JsonValue::Null,
    );
    let op = create_operation(&rr).unwrap();
    assert_eq!(op.parameters.len(), 1);
    let p = &op.parameters[0];
    assert_eq!(p.name, "id");
    assert!(matches!(p.location, ParamLocation::Query));
    let items = match &p.schema.kind {
        SchemaKind::Array(Some(items)) => items,
        _ => panic!("expected array"),
    };
    match items.as_ref() {
        SchemaOrRef::Item(s) => assert!(matches!(s.kind, SchemaKind::Integer)),
        _ => panic!("expected inline item"),
    }
}

#[test]
fn path_parameters_are_required_integers() {
    let rr = sample_with_query(
        "https://app.studiodesigner.com/api/vendors/42",
        "GET",
        vec![],
        JsonValue::Null,
    );
    let op = create_operation(&rr).unwrap();
    assert_eq!(op.parameters.len(), 1);
    let p = &op.parameters[0];
    assert_eq!(p.name, "id");
    assert!(p.required);
    assert!(matches!(p.location, ParamLocation::Path));
    assert!(matches!(p.schema.kind, SchemaKind::Integer));
}

#[test]
fn request_body_keeps_scalar_fields_only() {
    let body = Some(RequestBody {
        mime: "application/json".to_string(),
        content: JsonValue::Object(vec![
            ("user".to_string(), JsonValue::Text("bob".to_string())),
            ("age".to_string(), JsonValue::Number { float: false }),
            ("active".to_string(), JsonValue::Bool(true)),
            ("nested".to_string(), JsonValue::Object(vec![])),
            ("tags".to_string(), JsonValue::Array(vec![])),
        ]),
    });
    let schema = make_body(&body).unwrap();
    match &schema.kind {
        SchemaKind::Object(props) => {
            assert_eq!(props.len(), 3);
            assert_eq!(props[0].name, "user");
            assert_eq!(props[1].name, "age");
            assert_eq!(props[2].name, "active");
        }
        _ => panic!("expected object"),
    }
    let not_json = Some(RequestBody {
        mime: "text/plain".to_string(),
        content: JsonValue::Text("x".to_string()),
    });
    assert!(make_body(&not_json).is_none());
    assert!(make_body(&None).is_none());
}

/// Scenario: two samples resolving to the same (template, method) key
/// leave exactly one operation, the later sample's.
#[test]
fn path_map_last_write_wins() {
    let first = sample_with_query(
        "https://app.studiodesigner.com/api/vendors/7",
        "GET",
        vec![],
        JsonValue::Null,
    );
    let second = sample_with_query(
        "https://app.studiodesigner.com/api/vendors/8",
        "GET",
        vec![("q".to_string(), "x".to_string())],
        JsonValue::Null,
    );
    assert_eq!(first.path(), "/vendors/{id}");
    assert_eq!(second.path(), "/vendors/{id}");
    let rrs = vec![first, second];
    let doc = build_document(&rrs, None);
    assert_eq!(doc.paths.entries.len(), 1);
    let item = &doc.paths.entries[0];
    assert_eq!(item.path, "/vendors/{id}");
    assert_eq!(item.method, "GET");
    // the stored operation is the second sample's: it carries the query
    // parameter beside the path parameter
    assert_eq!(item.operation.parameters.len(), 2);
    assert_eq!(item.operation.parameters[0].name, "q");
}

#[test]
fn document_server_and_security() {
    let a = sample_with_query(
        "https://app.studiodesigner.com/api/clients",
        "GET",
        vec![],
        JsonValue::Null,
    );
    let b = sample_with_query(
        "https://app.studiodesigner.com/api/itemlist",
        "GET",
        vec![],
        JsonValue::Null,
    );
    let rrs = vec![a, b];
    let doc = build_document(&rrs, Some("sessid".to_string()));
    // the shared prefix "https://app.studiodesigner.com/api/" loses its
    // trailing slash
    assert_eq!(doc.server, "https://app.studiodesigner.com/api");
    assert_eq!(doc.security_cookie.as_deref(), Some("sessid"));
    assert_eq!(doc.paths.entries.len(), 2);
}

/// The path-map key upper-cases the sample's method.
#[test]
fn method_is_upper_cased_in_path_map() {
    let rr = sample_with_query(
        "https://app.studiodesigner.com/api/vendors",
        "get",
        vec![],
        JsonValue::Null,
    );
    assert_eq!(rr.operation_id(), "getVendors");
    let rrs = vec![rr];
    let doc = build_document(&rrs, None);
    assert_eq!(doc.paths.entries[0].method, "GET");
}

#[test]
fn filter_by_prefix_with_dedup() {
    let paths = vec![
        "/api/clients".to_string(),
        "/internal/health".to_string(),
        "/api/clients".to_string(),
        "/api/private/x".to_string(),
        "/api/items".to_string(),
    ];
    let excludes = vec!["/api/private".to_string()];
    assert!(keep_path("/api/clients", "/api", &excludes));
    assert!(!keep_path("/api/private/x", "/api", &excludes));
    assert!(!keep_path("/other", "/api", &excludes));
    let keep = filter_keep(&paths, "/api", &excludes);
    assert_eq!(keep, vec![true, false, false, false, true]);
}
