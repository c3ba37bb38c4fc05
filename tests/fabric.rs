use fabric_cache::{Error, Fabric, Json};
use serde_json::Value;

fn text_of(json: &str) -> String {
    let v: Value = serde_json::from_str(json).unwrap();
    v.to_string()
}

#[test]
fn can_create_new_fabric_instance() {
    let fabric = Fabric::new();
    assert!(fabric.cache.is_empty())
}

#[test]
fn can_set_values() {
    let mut fabric = Fabric::new();

    fabric
        .set(["testStruct", "a"].to_vec(), "{\"x\": 5, \"y\": 10}")
        .unwrap();
    fabric.set(["testStruct", "a", "x"].to_vec(), "3").unwrap();

    fabric
        .set(
            ["otherTest"].to_vec(),
            "\"b7be9512-69d2-40c9-9a01-329ffe79e2ff\"",
        )
        .unwrap();
}

#[test]
fn can_get_values() {
    let mut fabric = Fabric::new();

    fabric
        .set(["testStruct", "a"].to_vec(), "{\"x\": 5, \"y\": 10}")
        .unwrap();
    let test_struct_a_actual = fabric.get(vec!["testStruct", "a"]).unwrap();
    assert_eq!(text_of("{\"x\": 5, \"y\": 10}"), test_struct_a_actual.to_text());

    fabric
        .set(["testStruct", "b"].to_vec(), "{\"x\": 3, \"y\": 10.5}")
        .unwrap();
    let test_struct_b_actual = fabric.get(vec!["testStruct", "b"]).unwrap();
    assert_eq!(text_of("{\"x\": 3, \"y\": 10.5}"), test_struct_b_actual.to_text());

    let test_structs_actual = fabric.get(vec!["testStruct"]).unwrap();
    assert_eq!(
        text_of("{\"a\": {\"x\": 5, \"y\": 10}, \"b\": {\"x\": 3, \"y\": 10.5}}"),
        test_structs_actual.to_text()
    );
}

#[test]
fn can_remove_values() {
    let mut fabric = Fabric::new();

    fabric
        .set(
            vec!["testStruct"],
            "{\"a\": {\"x\": 5, \"y\": 10}, \"b\": {\"x\": 3, \"y\": 10.5}}",
        )
        .unwrap();

    fabric.remove(vec!["testStruct", "a"]).unwrap();

    let test_structs_actual = fabric.get(vec!["testStruct"]).unwrap();
    assert_eq!(
        text_of("{\"b\": {\"x\": 3, \"y\": 10.5}}"),
        test_structs_actual.to_text()
    );
}

#[test]
fn handles_empty_keys() {
    let mut fabric = Fabric::new();

    assert!(fabric.set(vec![], "{\"x\": 5}").is_err());
    assert!(fabric.get(vec![]).is_err());
    assert!(fabric.remove(vec![]).is_err());
}

#[test]
fn handles_invalid_key_path() {
    let mut fabric = Fabric::new();

    fabric.set(vec!["someKey"], "{\"x\": 29}").unwrap();
    assert!(fabric.get(vec!["nonexistent"]).is_err());
}

#[test]
fn can_get_nested_values_with_special_keys() {
    let mut fabric = Fabric::new();

    let strategies = r#"
    {
        "b7be9512-69d2-40c9-9a01-329ffe79e2ff": {
            "id": "b7be9512-69d2-40c9-9a01-329ffe79e2ff",
            "name": "10 Year Scalper",
            "symbol": "TYH25",
            "position_size": 2,
            "account_number": "some_id",
            "tick_size": "0.015625",
            "open_trade": null
        }
    }"#;

    fabric.set(vec!["strategies"], strategies).unwrap();

    let result = fabric
        .get(vec!["strategies", "b7be9512-69d2-40c9-9a01-329ffe79e2ff"])
        .unwrap();

    let expected = text_of(
        r#"
    {
        "id": "b7be9512-69d2-40c9-9a01-329ffe79e2ff",
        "name": "10 Year Scalper",
        "symbol": "TYH25",
        "position_size": 2,
        "account_number": "some_id",
        "tick_size": "0.015625",
        "open_trade": null
    }"#,
    );

    assert_eq!(result.to_text(), expected);
}

#[test]
fn empty_paths_are_invalid_key_paths() {
    let mut fabric = Fabric::new();
    match fabric.get(vec![]) {
        Err(Error::InvalidKeyPath(m)) => assert_eq!(m, "Empty key path"),
        other => panic!("unexpected {:?}", other),
    }
    match fabric.set(vec![], "1") {
        Err(Error::InvalidKeyPath(m)) => assert_eq!(m, "Empty key path"),
        other => panic!("unexpected {:?}", other),
    }
    match fabric.remove(vec![]) {
        Err(Error::InvalidKeyPath(m)) => assert_eq!(m, "Empty key path"),
        other => panic!("unexpected {:?}", other),
    }
}

#[test]
fn missing_path_reports_the_dotted_path() {
    let mut fabric = Fabric::new();
    fabric.set(vec!["a"], "{\"b\": 1}").unwrap();
    match fabric.get(vec!["a", "c", "d"]) {
        Err(Error::InvalidKeyPath(m)) => assert_eq!(m, "a.c.d"),
        other => panic!("unexpected {:?}", other),
    }
}

#[test]
fn bad_payload_leaves_store_unchanged() {
    let mut fabric = Fabric::new();
    fabric.set(vec!["a"], "{\"b\": 1}").unwrap();
    match fabric.set(vec!["a", "b"], "{not json") {
        Err(Error::BadDataStructure(m)) => assert!(!m.is_empty()),
        other => panic!("unexpected {:?}", other),
    }
    assert_eq!(fabric.get(vec!["a"]).unwrap().to_text(), "{\"b\":1}");
}

#[test]
fn set_through_a_scalar_is_an_invalid_path() {
    let mut fabric = Fabric::new();
    fabric.set(vec!["a"], "5").unwrap();
    match fabric.set(vec!["a", "b"], "1") {
        Err(Error::InvalidKeyPath(m)) => assert_eq!(m, "a.b"),
        other => panic!("unexpected {:?}", other),
    }
    assert_eq!(fabric.get(vec!["a"]).unwrap().to_text(), "5");
}

#[test]
fn set_then_get_round_trips() {
    let mut fabric = Fabric::new();
    fabric.set(vec!["k", "l", "m"], "[1, {\"z\": true}, \"s\"]").unwrap();
    assert_eq!(
        fabric.get(vec!["k", "l", "m"]).unwrap().to_text(),
        text_of("[1, {\"z\": true}, \"s\"]")
    );
}

#[test]
fn remove_then_get_fails() {
    let mut fabric = Fabric::new();
    fabric.set(vec!["a", "b"], "1").unwrap();
    fabric.remove(vec!["a", "b"]).unwrap();
    assert!(fabric.get(vec!["a", "b"]).is_err());
    fabric.remove(vec!["a"]).unwrap();
    assert!(fabric.get(vec!["a"]).is_err());
}

#[test]
fn set_creates_missing_objects() {
    let mut fabric = Fabric::new();
    fabric.set(vec!["a", "b"], "7").unwrap();
    assert_eq!(fabric.get(vec!["a"]).unwrap().to_text(), "{\"b\":7}");
}

#[test]
fn set_adds_siblings() {
    let mut fabric = Fabric::new();
    fabric.set(vec!["a", "b"], "1").unwrap();
    fabric.set(vec!["a", "c"], "\"two\"").unwrap();
    assert_eq!(fabric.get(vec!["a"]).unwrap().to_text(), "{\"b\":1,\"c\":\"two\"}");
}

#[test]
fn removing_an_absent_root_key_succeeds() {
    let mut fabric = Fabric::new();
    assert!(fabric.remove(vec!["nothing"]).is_ok());
    assert!(fabric.cache.is_empty());
}

#[test]
fn removing_an_absent_nested_key_fails() {
    let mut fabric = Fabric::new();
    fabric.set(vec!["a"], "{\"b\": 1}").unwrap();
    match fabric.remove(vec!["a", "zz"]) {
        Err(Error::InvalidKeyPath(m)) => assert_eq!(m, "a.zz"),
        other => panic!("unexpected {:?}", other),
    }
    assert!(fabric.remove(vec!["missing", "zz"]).is_err());
    assert_eq!(fabric.get(vec!["a"]).unwrap().to_text(), "{\"b\":1}");
}

#[test]
fn keys_are_written_as_json_strings() {
    let mut fabric = Fabric::new();
    fabric.set(vec!["a", "q\"t"], "null").unwrap();
    assert_eq!(fabric.get(vec!["a"]).unwrap().to_text(), "{\"q\\\"t\":null}");
    fabric.set(vec!["c", "x\ny\u{1}"], "0.1").unwrap();
    assert_eq!(fabric.get(vec!["c"]).unwrap().to_text(), "{\"x\\ny\\u0001\":0.1}");
}

#[test]
fn parse_refuses_text_that_is_not_json() {
    assert!(Json::parse("{").is_err());
    assert_eq!(Json::parse(" [1, 2] ").unwrap().to_text(), "[1,2]");
    assert_eq!(Json::parse("{\"b\": 2, \"a\": 1}").unwrap().to_text(), "{\"a\":1,\"b\":2}");
}

#[test]
fn copy_keeps_the_value() {
    let v = Json::parse("{\"a\": {\"b\": [1]}}").unwrap();
    assert_eq!(v.copy().to_text(), v.to_text());
}
