use std::cmp::Ordering;

use kbc_core::store_update::{
    apple_version, compare_versions, first_google_payload, google_response_version, google_version,
    json_array_end,
    parse_google_rpc, parse_version, valid_version, AppleLookup, AppleResult, JsonValue,
    StorePlatform,
};
use serde_json::Value;

#[test]
fn parses_google_bootstrap_and_response() {
    let html = "x 'ds:5' : {id:'Ws7gDc',request:[null,[\"a]\"],[1]]},'ds:6' y";
    let rpc = parse_google_rpc(html).expect("RPC should parse");
    assert_eq!(rpc.id, "Ws7gDc");
    assert_eq!(rpc.request, "[null,[\"a]\"],[1]]");

    let mut fields = vec![Value::Null; 141];
    fields[140] = Value::Array(vec![Value::Array(vec![Value::Array(vec![Value::String(
        "15.6.1".to_owned(),
    )])])]);
    let app = Value::Array(vec![
        Value::Null,
        Value::Array(vec![Value::Null, Value::Null, Value::Array(fields)]),
    ]);
    let inner = app.to_string();
    let frame = Value::Array(vec![Value::Array(vec![
        Value::String("wrb.fr".to_owned()),
        Value::String("Ws7gDc".to_owned()),
        Value::String(inner),
    ])])
    .to_string();
    assert_eq!(google_response_version(&format!(")]}}'\n{frame}"), "Ws7gDc").unwrap(), "15.6.1");
    assert_eq!(
        google_response_version("not json\n[1]", "Ws7gDc").unwrap_err().code(),
        "google-response-schema"
    );
}

#[test]
fn parses_apple_lookup_and_compares_patch_versions() {
    let body = r#"{"resultCount":1,"results":[{"bundleId":"jp.co.ponos.battlecats","version":"15.6.1"}]}"#;
    let value: Value = serde_json::from_str(body).unwrap();
    let lookup = AppleLookup {
        result_count: value["resultCount"].as_u64().unwrap() as usize,
        results: value["results"]
            .as_array()
            .unwrap()
            .iter()
            .map(|r| AppleResult {
                bundle_id: r["bundleId"].as_str().unwrap().to_owned(),
                version: r["version"].as_str().unwrap().to_owned(),
            })
            .collect(),
    };
    assert_eq!(apple_version(&lookup).unwrap(), "15.6.1");
    assert_eq!(compare_versions("15.6.1", "15.6.0"), Some(Ordering::Greater));
    assert_eq!(compare_versions("15.6", "15.6.0"), Some(Ordering::Equal));
}

#[test]
fn rejects_malformed_versions_and_lookups() {
    assert_eq!(parse_version("1.02.3"), Some(vec![1, 2, 3]));
    assert_eq!(parse_version(""), None);
    assert_eq!(parse_version("1..2"), None);
    assert_eq!(parse_version("1.+2"), None);
    assert_eq!(parse_version("4294967296"), None);
    assert_eq!(parse_version(&"1".repeat(65)), None);
    assert!(valid_version("15"));
    assert_eq!(compare_versions("2", "10"), Some(Ordering::Less));
    assert_eq!(compare_versions("x", "1"), None);
    let lookup = AppleLookup {
        result_count: 1,
        results: vec![AppleResult { bundle_id: "other".to_owned(), version: "1".to_owned() }],
    };
    assert_eq!(apple_version(&lookup).unwrap_err().code(), "apple-bundle-mismatch");
    let empty = AppleLookup { result_count: 0, results: vec![] };
    assert_eq!(apple_version(&empty).unwrap_err().code(), "apple-app-missing");
    let bad = AppleLookup {
        result_count: 1,
        results: vec![AppleResult { bundle_id: "jp.co.ponos.battlecats".to_owned(), version: "v1".to_owned() }],
    };
    assert_eq!(apple_version(&bad).unwrap_err().code(), "invalid-store-version");
}

#[test]
fn finds_the_end_of_json_arrays() {
    let text: Vec<char> = "a[1,[\"]\\\"\"],2]b".chars().collect();
    assert_eq!(json_array_end(&text, 1), Some(text.len() - 1));
    let open: Vec<char> = "[[1]".chars().collect();
    assert_eq!(json_array_end(&open, 0), None);
    assert_eq!(parse_google_rpc("no entry").unwrap_err().code(), "google-bootstrap-schema");
    assert_eq!(parse_google_rpc("'ds:5' id:'a-b' request:[1]").unwrap_err().code(), "google-bootstrap-schema");
    assert_eq!(StorePlatform::Ios.key(), "ios");
    assert_eq!(google_version(&JsonValue::Null).unwrap_err().code(), "google-version-missing");
}
