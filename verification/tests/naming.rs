//! The path classifier and operation namer, exercised sample by sample.

use har2openapi::http::{Request, RequestResponse, Response};
use har2openapi::jsonval::JsonValue;

fn sample(url: &str, method: &str, data: JsonValue) -> RequestResponse {
    let request = Request {
        url: url.to_string(),
        headers: vec![],
        query: vec![],
        method: method.to_string(),
        body: None,
    };
    let response = Response { data, headers: vec![] };
    RequestResponse::new(request, response).unwrap()
}

#[test]
fn test_into_rr_client() {
    let rr = sample(
        "https://app.studiodesigner.com/api/clients",
        "GET",
        JsonValue::Object(vec![
            ("id".to_string(), JsonValue::Number { float: false }),
            ("name".to_string(), JsonValue::Text("Acme".to_string())),
        ]),
    );
    assert_eq!(rr.operation_id(), "getClients");
    assert_eq!(rr.object_name(), "Client");
    assert_eq!(rr.response_object_name(), "GetClientsResponse");
}

#[test]
fn test_into_rr_employeeslist() {
    let rr = sample(
        "https://app.studiodesigner.com/api/employeelist",
        "GET",
        JsonValue::Array(vec![]),
    );
    assert_eq!(rr.operation_id(), "getEmployees");
    assert_eq!(rr.object_name(), "Employee");
    assert_eq!(rr.response_object_name(), "GetEmployeesResponse");
}

#[test]
fn path_template_and_parameters() {
    let rr = sample(
        "https://app.studiodesigner.com/api/clients/42",
        "GET",
        JsonValue::Object(vec![
            ("id".to_string(), JsonValue::Number { float: false }),
            ("name".to_string(), JsonValue::Text("Acme".to_string())),
        ]),
    );
    assert_eq!(rr.path(), "/clients/{id}");
    assert_eq!(rr.info.path_parameters.len(), 1);
    assert_eq!(rr.info.path_parameters[0].name, "id");
    assert_eq!(rr.object_name(), "Client");
}

#[test]
fn malformed_url_is_rejected() {
    let request = Request {
        url: "not a url".to_string(),
        headers: vec![],
        query: vec![],
        method: "GET".to_string(),
        body: None,
    };
    let response = Response { data: JsonValue::Null, headers: vec![] };
    assert!(RequestResponse::new(request, response).is_err());
}

#[test]
fn missing_object_name_is_rejected() {
    let request = Request {
        url: "https://app.studiodesigner.com/api/123".to_string(),
        headers: vec![],
        query: vec![],
        method: "GET".to_string(),
        body: None,
    };
    let response = Response { data: JsonValue::Null, headers: vec![] };
    assert!(RequestResponse::new(request, response).is_err());
}

#[test]
fn singular_and_plural_heuristics() {
    assert_eq!(har2openapi::http::singular("bodies"), "body");
    assert_eq!(har2openapi::http::singular("clients"), "client");
    assert_eq!(har2openapi::http::singular("glasses"), "glass");
    assert_eq!(har2openapi::http::singular("address"), "address");
    let mut s = "getActivity".to_string();
    har2openapi::http::pluralize(&mut s);
    assert_eq!(s, "getActivities");
    let mut t = "getActivities".to_string();
    har2openapi::http::pluralize(&mut t);
    assert_eq!(t, "getActivities");
}

/// `pluralize(singular(x))` need not give back `x`: one concrete witness.
#[test]
fn pluralize_does_not_invert_singular() {
    let w = har2openapi::http::singular("glass");
    assert_eq!(w, "glass");
    let mut p = w.clone();
    har2openapi::http::pluralize(&mut p);
    assert_eq!(p, "glasses");
    assert_ne!(p, "glass");
}

#[test]
fn extract_object_name_strips_suffixes() {
    assert_eq!(har2openapi::openapi::extract_object_name("Vendors").unwrap(), "Vendor");
    assert_eq!(
        har2openapi::openapi::extract_object_name("VendorsResponse").unwrap(),
        "Vendor"
    );
    assert_eq!(har2openapi::openapi::extract_object_name("ActivityList").unwrap(), "Activity");
    assert_eq!(har2openapi::openapi::extract_object_name("itemlist").unwrap(), "item");
}

#[test]
fn response_reference_path() {
    let rr = sample(
        "https://app.studiodesigner.com/api/clients",
        "GET",
        JsonValue::Null,
    );
    assert_eq!(
        rr.response_schema_ref(),
        "#/components/schemas/GetClientsResponse"
    );
}

#[test]
fn ignored_headers_are_dropped() {
    let headers = vec![
        ("cookie".to_string(), "a=1".to_string()),
        ("x-request-id".to_string(), "7".to_string()),
        ("content-type".to_string(), "application/json".to_string()),
    ];
    let kept = har2openapi::http::filter_headers(headers);
    assert_eq!(kept.len(), 1);
    assert_eq!(kept[0].0, "x-request-id");
}
