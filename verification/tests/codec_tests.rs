use cratedb::json::{Json, parse_json, to_json_string, parse_i64_lexeme, parse_u64_lexeme};
use cratedb::sql::{build_sql_request, decode_query_response, decode_bulk_response, extract_error};
use cratedb::backend::{parse_status, BackendResult};
use cratedb::dbcluster::{DBCluster, EndpointType, Loadbalancing};
use cratedb::error::CrateDBError;
use cratedb::blob::{upload_outcome, delete_outcome, fetch_outcome};
use cratedb::error::BlobError;
use cratedb::row::{ByIndex, ByColumnName};

#[test]
fn parse_scalars() {
    assert_eq!(parse_json("null"), Some(Json::Null));
    assert_eq!(parse_json("true"), Some(Json::Bool(true)));
    assert_eq!(parse_json("false"), Some(Json::Bool(false)));
    assert_eq!(parse_json("0.206"), Some(Json::Num("0.206".to_string())));
    assert_eq!(parse_json("-12e3"), Some(Json::Num("-12e3".to_string())));
    assert_eq!(parse_json("\"hi\""), Some(Json::Str("hi".to_string())));
    assert_eq!(parse_json("  42  "), Some(Json::Num("42".to_string())));
}

#[test]
fn parse_rejects_invalid_text() {
    assert_eq!(parse_json("this is wrong my friend :{"), None);
    assert_eq!(parse_json(""), None);
    assert_eq!(parse_json("{"), None);
    assert_eq!(parse_json("[1,]"), None);
    assert_eq!(parse_json("01"), None);
    assert_eq!(parse_json("\"unterminated"), None);
    assert_eq!(parse_json("nul"), None);
    assert_eq!(parse_json("1 2"), None);
}

#[test]
fn parse_structures() {
    assert_eq!(
        parse_json("[1, \"a\", [true]]"),
        Some(Json::Arr(vec![
            Json::Num("1".to_string()),
            Json::Str("a".to_string()),
            Json::Arr(vec![Json::Bool(true)]),
        ]))
    );
    assert_eq!(
        parse_json("{\"k\": 1, \"m\": {}}"),
        Some(Json::Obj(vec![
            ("k".to_string(), Json::Num("1".to_string())),
            ("m".to_string(), Json::Obj(vec![])),
        ]))
    );
    assert_eq!(parse_json("[]"), Some(Json::Arr(vec![])));
}

#[test]
fn parse_string_escapes() {
    assert_eq!(
        parse_json("\"a\\n\\t\\\\\\\"\\u0041\""),
        Some(Json::Str("a\n\t\\\"A".to_string()))
    );
    // a surrogate pair denotes one character beyond the basic plane
    assert_eq!(
        parse_json("\"\\uD83D\\uDE00\""),
        Some(Json::Str("\u{1F600}".to_string()))
    );
    // a lone surrogate is invalid
    assert_eq!(parse_json("\"\\uD83D\""), None);
    // an unescaped control character is invalid
    assert_eq!(parse_json("\"a\nb\""), None);
}

#[test]
fn serializer_round_trip() {
    let v = Json::Obj(vec![
        ("stmt".to_string(), Json::Str("select 1".to_string())),
        (
            "args".to_string(),
            Json::Arr(vec![Json::Num("1".to_string()), Json::Null, Json::Bool(false)]),
        ),
    ]);
    let text = to_json_string(&v);
    assert_eq!(text, "{\"stmt\":\"select 1\",\"args\":[1,null,false]}");
    assert_eq!(parse_json(&text), Some(v));
}

#[test]
fn request_bodies() {
    assert_eq!(build_sql_request("select 1", false, None), "{\"stmt\":\"select 1\"}");
    let params = Json::Arr(vec![Json::Str("hello".to_string())]);
    assert_eq!(
        build_sql_request("select ?", false, Some(&params)),
        "{\"stmt\":\"select ?\",\"args\":[\"hello\"]}"
    );
    assert_eq!(
        build_sql_request("select ?", true, Some(&params)),
        "{\"stmt\":\"select ?\",\"bulk_args\":[\"hello\"]}"
    );
}

#[test]
fn integer_lexemes() {
    assert_eq!(parse_i64_lexeme("0"), Some(0));
    assert_eq!(parse_i64_lexeme("-1234"), Some(-1234));
    assert_eq!(parse_i64_lexeme("9223372036854775807"), Some(i64::MAX));
    assert_eq!(parse_i64_lexeme("9223372036854775808"), None);
    assert_eq!(parse_i64_lexeme("-9223372036854775808"), Some(i64::MIN));
    assert_eq!(parse_i64_lexeme("-9223372036854775809"), None);
    assert_eq!(parse_i64_lexeme("3.5"), None);
    assert_eq!(parse_i64_lexeme("1e3"), None);
    assert_eq!(parse_u64_lexeme("18446744073709551615"), Some(u64::MAX));
    assert_eq!(parse_u64_lexeme("18446744073709551616"), None);
    assert_eq!(parse_u64_lexeme("-5"), None);
}

#[test]
fn decode_table_response() {
    let (dur, mut rows) = decode_query_response(
        "{\"cols\":[\"name\"],\"rows\":[[\"A\"],[\"B\"]],\"rowcount\":2,\"duration\":0.206}",
    )
    .unwrap();
    assert_eq!(dur, "0.206");
    assert_eq!(rows.len(), 2);
    let first = rows.next().unwrap();
    assert_eq!(ByIndex::as_string(&first, 0), Some("A".to_string()));
    let second = rows.next().unwrap();
    assert_eq!(ByIndex::as_string(&second, 0), Some("B".to_string()));
    assert!(rows.next().is_none());
}

#[test]
fn decode_table_by_name() {
    // every row resolves names through the one shared column index
    let (_, mut rows) = decode_query_response(
        "{\"cols\":[\"name\",\"n\"],\"rows\":[[\"A\",1],[\"B\",2]],\"rowcount\":2,\"duration\":0.1}",
    )
    .unwrap();
    let first = rows.next().unwrap();
    assert_eq!(ByColumnName::as_string(&first, &"name".to_owned()), Some("A".to_string()));
    assert_eq!(ByColumnName::as_i64(&first, &"n".to_owned()), Some(1));
    let second = rows.next().unwrap();
    assert_eq!(ByColumnName::as_string(&second, &"name".to_owned()), Some("B".to_string()));
    assert_eq!(ByColumnName::as_i64(&second, &"n".to_owned()), Some(2));
}

#[test]
fn decode_error_response() {
    let e = decode_query_response("{\"error\":{\"message\":\"boom\",\"code\":5000}}").unwrap_err();
    assert_eq!(e, CrateDBError::new("boom", "5000"));
    // a string code is accepted as well
    let e = decode_query_response("{\"error\":{\"message\":\"boom\",\"code\":\"x\"}}").unwrap_err();
    assert_eq!(e, CrateDBError::new("boom", "x"));
}

#[test]
fn decode_shape_failures() {
    // a parsed body that has neither the success nor the error shape
    // is reported as invalid JSON, with the raw body embedded
    let body = "{\"unexpected\": 1}";
    let e = decode_query_response(body).unwrap_err();
    assert_eq!(
        e,
        CrateDBError::new("Invalid JSON was returned: {\"unexpected\": 1}", "500")
    );
    // cols present, but rows of the wrong shape
    let body = "{\"cols\":[],\"rows\":1,\"duration\":0.1}";
    let e = decode_query_response(body).unwrap_err();
    assert_eq!(e.code, "500");
}

#[test]
fn decode_bulk() {
    let (dur, counts) = decode_bulk_response(
        "{\"cols\":[],\"results\":[{\"rowcount\":1},{\"rowcount\":2},{\"rowcount\":3}],\"duration\":0.206}",
    )
    .unwrap();
    assert_eq!(dur, "0.206");
    assert_eq!(counts, vec![1, 2, 3]);
}

#[test]
fn extract_error_values() {
    let body = parse_json("{\"error\":{\"message\":\"m\",\"code\":42}}").unwrap();
    let e = extract_error(&body).unwrap();
    assert_eq!(e.message, "m");
    assert_eq!(e.code, "42");
    assert_eq!(e.description, "Error [Code 42]: m");
    let body = parse_json("{\"ok\":true}").unwrap();
    assert!(extract_error(&body).is_none());
}

#[test]
fn status_classification() {
    assert_eq!(parse_status(200), BackendResult::Success);
    assert_eq!(parse_status(201), BackendResult::Success);
    assert_eq!(parse_status(202), BackendResult::Success);
    assert_eq!(parse_status(400), BackendResult::Error);
    assert_eq!(parse_status(500), BackendResult::Error);
    assert_eq!(parse_status(401), BackendResult::NotAuthorized);
    assert_eq!(parse_status(403), BackendResult::NotAuthorized);
    assert_eq!(parse_status(405), BackendResult::NotAuthorized);
    assert_eq!(parse_status(408), BackendResult::Timeout);
    assert_eq!(parse_status(302), BackendResult::Error);
    assert_eq!(parse_status(204), BackendResult::Error);
}

#[test]
fn outcome_mappings() {
    // every non-success outcome carries its fixed message and code
    match upload_outcome(BackendResult::NotFound, "b", vec![]).unwrap_err() {
        BlobError::Action(e) => {
            assert_eq!(e.message, "Could not upload BLOB. Not found.");
            assert_eq!(e.code, "404");
        }
        _ => panic!("Unexpected Error was returned"),
    }
    match delete_outcome(BackendResult::Timeout).unwrap_err() {
        BlobError::Action(e) => {
            assert_eq!(e.message, "Could not delete BLOB. Timed out.");
            assert_eq!(e.code, "408");
        }
        _ => panic!("Unexpected Error was returned"),
    }
    match fetch_outcome(BackendResult::Error, vec![]).unwrap_err() {
        BlobError::Action(e) => {
            assert_eq!(e.message, "Could not fetch BLOB. Server error.");
            assert_eq!(e.code, "500");
        }
        _ => panic!("Unexpected Error was returned"),
    }
    match fetch_outcome(BackendResult::NotAuthorized, vec![]).unwrap_err() {
        BlobError::Action(e) => {
            assert_eq!(e.message, "Could not fetch BLOB: Not authorized.");
            assert_eq!(e.code, "403");
        }
        _ => panic!("Unexpected Error was returned"),
    }
    assert_eq!(fetch_outcome(BackendResult::Success, vec![1, 2]).unwrap(), vec![1, 2]);
}

#[test]
fn cluster_construction() {
    // zero nodes are a configuration error and construct nothing
    let r = DBCluster::new(vec![]);
    assert!(r.is_err());
    assert_eq!(r.err().unwrap().description, "Please provide URLs to connect to");
    let r = DBCluster::with_proxy(vec![], "localhost", 12345);
    assert!(r.is_err());

    let c = DBCluster::new(vec!["http://localhost:4200".to_string()]).unwrap();
    assert_eq!(c.nodes.len(), 1);
}

#[test]
fn cluster_from_string() {
    let node1 = "http://localhost:4200/";
    let node2 = "http://play.crate.io/";
    let c = DBCluster::from_string(&format!("{},{}", node1, node2)).unwrap();
    assert_eq!(c.nodes.get(0).unwrap(), node1);
    assert_eq!(c.nodes.get(1).unwrap(), node2);
}

#[test]
fn endpoint_selection() {
    let c = DBCluster::new(vec!["http://localhost:4200/".to_string()]).unwrap();
    assert_eq!(
        c.get_endpoint(EndpointType::SQL),
        Some("http://localhost:4200/_sql".to_string())
    );
    assert_eq!(
        c.get_endpoint(EndpointType::Blob),
        Some("http://localhost:4200/_blobs".to_string())
    );
    let empty = DBCluster::with_custom_backend(
        Vec::<String>::new(),
        cratedb::backend::HTTPBackend::new(),
    );
    assert_eq!(empty.get_endpoint(EndpointType::SQL), None);
}

#[test]
fn error_description_format() {
    let e = CrateDBError::new("boom", "5000");
    assert_eq!(e.description, "Error [Code 5000]: boom");
}
