//! Schema inference over whole samples: component extraction, references,
//! annotations, and the registry's first-writer-wins policy.

use har2openapi::http::{Request, RequestResponse, Response};
use har2openapi::jsonval::JsonValue;
use har2openapi::openapi::components::Components;
use har2openapi::openapi::response::create_schema_for_responses;
use har2openapi::openapi::schema::{Schema, SchemaKind, SchemaOrRef, StrFormat};
use har2openapi::openapi::{create_schema, infer_scalar_schema, infer_string_schema};

fn sample(url: &str, method: &str, data: JsonValue) -> RequestResponse {
    let request = Request {
        url: url.to_string(),
        headers: vec![],
        query: vec![],
        method: method.to_string(),
        body: None,
    };
    let response = Response { data, headers: vec![] };
    RequestResponse::new(request, response).unwrap()
}

fn get_schema<'a>(c: &'a Components, name: &str) -> Option<&'a Schema> {
    for (n, s) in c.schemas.iter() {
        if n == name {
            return Some(s);
        }
    }
    None
}

fn get_property<'a>(s: &'a Schema, name: &str) -> Option<&'a SchemaOrRef> {
    match &s.kind {
        SchemaKind::Object(props) => {
            for p in props.iter() {
                if p.name == name {
                    return Some(&p.schema);
                }
            }
            None
        }
        _ => None,
    }
}

fn text(s: &str) -> JsonValue {
    JsonValue::Text(s.to_string())
}

#[test]
fn test_into_rr_swtraining() {
    let rr = sample(
        "https://app.studiodesigner.com/api/swtraining/freetrainings",
        "GET",
        JsonValue::Array(vec![JsonValue::Object(vec![(
            "name".to_string(),
            text("intro"),
        )])]),
    );
    assert_eq!(rr.operation_id(), "getSwtrainingFreetrainings");
    assert_eq!(rr.object_name(), "Freetraining");
    assert_eq!(rr.response_object_name(), "GetSwtrainingFreetrainingsResponse");
    let mut components = Components::new();
    let rrs = vec![rr];
    create_schema_for_responses(&rrs, &mut components);
    let schema = get_schema(&components, "GetSwtrainingFreetrainingsResponse").unwrap();
    assert!(matches!(schema.kind, SchemaKind::Array(_)));
}

#[test]
fn test_into_rr_activities_list() {
    let rr = sample(
        "https://app.studiodesigner.com/api/activities/list",
        "GET",
        JsonValue::Object(vec![(
            "list".to_string(),
            JsonValue::Array(vec![JsonValue::Object(vec![(
                "id".to_string(),
                JsonValue::Number { float: false },
            )])]),
        )]),
    );
    assert_eq!(rr.operation_id(), "getActivities");
    assert_eq!(rr.object_name(), "Activity");
    assert_eq!(rr.response_object_name(), "GetActivitiesResponse");
    let mut components = Components::new();
    let rrs = vec![rr];
    create_schema_for_responses(&rrs, &mut components);
    let schema = get_schema(&components, "GetActivitiesResponse").unwrap();
    assert!(matches!(schema.kind, SchemaKind::Object(_)));
}

#[test]
fn test_nested_objects_are_references() {
    let rr = sample(
        "https://app.studiodesigner.com/api/vendors/external",
        "GET",
        JsonValue::Object(vec![
            (
                "address".to_string(),
                JsonValue::Object(vec![("zip".to_string(), text("10001"))]),
            ),
            ("logo".to_string(), text("logo.png")),
            (
                "external".to_string(),
                JsonValue::Array(vec![JsonValue::Object(vec![
                    (
                        "users".to_string(),
                        JsonValue::Array(vec![JsonValue::Object(vec![(
                            "name".to_string(),
                            text("bob"),
                        )])]),
                    ),
                    ("id".to_string(), JsonValue::Number { float: false }),
                ])]),
            ),
        ]),
    );
    let mut components = Components::new();
    let rrs = vec![rr];
    create_schema_for_responses(&rrs, &mut components);
    let response = get_schema(&components, "GetVendorsExternalResponse").unwrap();
    assert!(matches!(response.kind, SchemaKind::Object(_)));
    assert!(get_schema(&components, "Address").is_some());
    assert!(get_schema(&components, "External").is_some());
    assert!(get_schema(&components, "Logo").is_none());
    let external = get_schema(&components, "External").unwrap();
    let users = match get_property(external, "users").unwrap() {
        SchemaOrRef::Item(s) => s,
        _ => panic!("expected inline array"),
    };
    let items = match &users.kind {
        SchemaKind::Array(Some(items)) => items,
        _ => panic!("expected array"),
    };
    let users_schema_ref = items.ref_path().unwrap();
    assert_eq!(users_schema_ref, "#/components/schemas/User");
}

#[test]
fn test_nested_array_is_not_reference() {
    let rr = sample(
        "https://app.studiodesigner.com/api/itemlist",
        "GET",
        JsonValue::Object(vec![(
            "list".to_string(),
            JsonValue::Array(vec![JsonValue::Object(vec![
                ("invoice".to_string(), JsonValue::Null),
                ("client_total_balance".to_string(), text("120.50")),
                ("invoice_name".to_string(), text("330.00")),
            ])]),
        )]),
    );
    assert_eq!(rr.operation_id(), "getItems");
    let mut components = Components::new();
    let rrs = vec![rr];
    create_schema_for_responses(&rrs, &mut components);
    assert!(get_schema(&components, "List").is_none());
    let item = get_schema(&components, "Item").unwrap();
    let invoice = match get_property(item, "invoice").unwrap() {
        SchemaOrRef::Item(s) => s,
        _ => panic!("expected inline schema"),
    };
    assert!(invoice.null_as_zero, "invoice is x-null-as-zero");
    let balance = match get_property(item, "client_total_balance").unwrap() {
        SchemaOrRef::Item(s) => s,
        _ => panic!("expected inline schema"),
    };
    assert!(
        matches!(&balance.kind, SchemaKind::Text(StrFormat::Decimal)),
        "client_total_balance is decimal (currency) as string"
    );
    let invoice_name = match get_property(item, "invoice_name").unwrap() {
        SchemaOrRef::Item(s) => s,
        _ => panic!("expected inline schema"),
    };
    assert!(
        matches!(&invoice_name.kind, SchemaKind::Text(StrFormat::Plain)),
        "invoice_name is string (not format: decimal/currency)"
    );
}

#[test]
fn test_login() {
    let rr = sample(
        "https://app.studiodesigner.com/api/login",
        "POST",
        JsonValue::Object(vec![(
            "permissions".to_string(),
            JsonValue::Array(vec![text("read"), text("write")]),
        )]),
    );
    let mut components = Components::new();
    let rrs = vec![rr];
    create_schema_for_responses(&rrs, &mut components);
    let res = get_schema(&components, "PostLoginResponse").unwrap();
    let permissions = match get_property(res, "permissions").unwrap() {
        SchemaOrRef::Item(s) => s,
        _ => panic!("expected inline schema"),
    };
    let items = match &permissions.kind {
        SchemaKind::Array(Some(items)) => items,
        _ => panic!("expected array"),
    };
    let item = match items.as_ref() {
        SchemaOrRef::Item(s) => s,
        _ => panic!("expected item, but array item is a ref"),
    };
    assert!(matches!(&item.kind, SchemaKind::Text(_)));
}

/// A primitive array inferred twice from the same input gives identical
/// inline schemas and leaves the registry empty.
#[test]
fn primitive_array_inference_is_stable() {
    let rr = sample(
        "https://app.studiodesigner.com/api/clients",
        "GET",
        JsonValue::Null,
    );
    let value = JsonValue::Array(vec![JsonValue::Number { float: false }]);
    let mut components = Components::new();
    let s1 = create_schema(&mut components, &value, Some("total"), rr.object_name());
    let s2 = create_schema(&mut components, &value, Some("total"), rr.object_name());
    assert!(s1.deep_eq(&s2));
    assert!(components.schemas.is_empty());
    assert!(components.collisions.is_empty());
}

/// An object all of whose fields are scalar stays fully inline and
/// registers nothing; the top-level installation is the caller's job.
#[test]
fn all_scalar_object_registers_nothing() {
    let rr = sample(
        "https://app.studiodesigner.com/api/clients",
        "GET",
        JsonValue::Null,
    );
    let value = JsonValue::Object(vec![
        ("id".to_string(), JsonValue::Number { float: false }),
        ("name".to_string(), text("Acme")),
    ]);
    let mut components = Components::new();
    let s = create_schema(&mut components, &value, None, rr.object_name());
    assert!(components.schemas.is_empty());
    assert!(components.collisions.is_empty());
    match &s.kind {
        SchemaKind::Object(props) => {
            assert_eq!(props.len(), 2);
            assert!(matches!(props[0].schema, SchemaOrRef::Item(_)));
            assert!(matches!(props[1].schema, SchemaOrRef::Item(_)));
        }
        _ => panic!("expected object"),
    }
}

/// Registering the same name twice: an identical shape raises no
/// collision; a differing shape raises exactly one and keeps the first.
#[test]
fn registry_first_writer_wins() {
    let mut components = Components::new();
    let a = Schema { kind: SchemaKind::Integer, format_date: false, null_as_zero: false };
    let a_again = Schema { kind: SchemaKind::Integer, format_date: false, null_as_zero: false };
    let b = Schema { kind: SchemaKind::Boolean, format_date: false, null_as_zero: false };
    assert!(!components.insert_if_absent("Total".to_string(), a));
    assert!(!components.insert_if_absent("Total".to_string(), a_again));
    assert!(components.collisions.is_empty());
    assert!(components.insert_if_absent("Total".to_string(), b));
    assert_eq!(components.collisions.len(), 1);
    assert!(matches!(
        get_schema(&components, "Total").unwrap().kind,
        SchemaKind::Integer
    ));
}

/// Scenario: `/api/clients/42` with `{"id": 1, "name": "Acme"}` gives an
/// inline object with an integer and a plain string property.
#[test]
fn scalar_properties_stay_inline() {
    let rr = sample(
        "https://app.studiodesigner.com/api/clients/42",
        "GET",
        JsonValue::Object(vec![
            ("id".to_string(), JsonValue::Number { float: false }),
            ("name".to_string(), text("Acme")),
        ]),
    );
    assert_eq!(rr.path(), "/clients/{id}");
    assert_eq!(rr.object_name(), "Client");
    let mut components = Components::new();
    let rrs = vec![rr];
    create_schema_for_responses(&rrs, &mut components);
    let res = get_schema(&components, "GetClientsResponse").unwrap();
    let id = match get_property(res, "id").unwrap() {
        SchemaOrRef::Item(s) => s,
        _ => panic!("expected inline schema"),
    };
    assert!(matches!(id.kind, SchemaKind::Integer));
    let name = match get_property(res, "name").unwrap() {
        SchemaOrRef::Item(s) => s,
        _ => panic!("expected inline schema"),
    };
    assert!(matches!(name.kind, SchemaKind::Text(StrFormat::Plain)));
}

#[test]
fn annotation_priority_order() {
    // phone and email win over everything
    let s = infer_string_schema(Some("phone"), "5551212");
    assert!(matches!(s.kind, SchemaKind::Text(StrFormat::Phone)));
    let s = infer_string_schema(Some("email"), "120.50");
    assert!(matches!(s.kind, SchemaKind::Text(StrFormat::Email)));
    // the plain-string override beats the decimal heuristic
    let s = infer_string_schema(Some("zip_code"), "10001");
    assert!(matches!(s.kind, SchemaKind::Text(StrFormat::Plain)));
    let s = infer_string_schema(Some("order_vendor_order"), "12.5");
    assert!(matches!(s.kind, SchemaKind::Text(StrFormat::Plain)));
    // a float-parsing value under a free name is decimal
    let s = infer_string_schema(Some("total"), "120.50");
    assert!(matches!(s.kind, SchemaKind::Text(StrFormat::Decimal)));
    let s = infer_string_schema(Some("total"), "acme");
    assert!(matches!(s.kind, SchemaKind::Text(StrFormat::Plain)));
    // date and money annotations on numbers
    let v = JsonValue::Number { float: false };
    let s = infer_scalar_schema(&v, Some("createddate"));
    assert!(s.format_date);
    let s = infer_scalar_schema(&v, Some("start_date_time"));
    assert!(s.format_date);
    let s = infer_scalar_schema(&v, Some("validated"));
    assert!(!s.format_date);
    let s = infer_scalar_schema(&v, Some("invoice"));
    assert!(s.null_as_zero);
    let s = infer_scalar_schema(&JsonValue::Null, Some("invoice"));
    assert!(s.null_as_zero);
    assert!(matches!(&s.kind, SchemaKind::Object(props) if props.is_empty()));
}
