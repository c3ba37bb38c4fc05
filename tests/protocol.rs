use fabric_cache::command::{error_reply, get_reply, remove_reply, set_reply};
use fabric_cache::{Command, Error, Fabric};

fn run(line: &str, fabric: &mut Fabric) -> String {
    let cmd = Command::from(line).unwrap();
    String::from_utf8(cmd.handle(line.trim(), fabric).unwrap()).unwrap()
}

#[test]
fn command_from_reads_the_leading_token() {
    assert_eq!(Command::from("GET a.b").unwrap(), Command::Get);
    assert_eq!(Command::from("  SET a 1  ").unwrap(), Command::Put);
    assert_eq!(Command::from("REMOVE a").unwrap(), Command::Remove);
    match Command::from("  PING now please ") {
        Err(Error::UnsupportedCommand(c)) => assert_eq!(c, "PING"),
        other => panic!("unexpected {:?}", other),
    }
    match Command::from("GETX a") {
        Err(Error::UnsupportedCommand(c)) => assert_eq!(c, "GETX"),
        other => panic!("unexpected {:?}", other),
    }
    match Command::from("SETX a 1") {
        Err(Error::UnsupportedCommand(c)) => assert_eq!(c, "SETX"),
        other => panic!("unexpected {:?}", other),
    }
    assert_eq!(Command::from("GET").unwrap(), Command::Get);
    match Command::from("   ") {
        Err(Error::UnsupportedCommand(c)) => assert_eq!(c, ""),
        other => panic!("unexpected {:?}", other),
    }
}

#[test]
fn unsupported_command_gets_an_error_line() {
    let e = Command::from("FLY away").unwrap_err();
    assert_eq!(error_reply(&e), "\"FLY\" Is Not A Supported Command.\n");
}

#[test]
fn malformed_set_changes_nothing() {
    let mut fabric = Fabric::new();
    assert_eq!(run("SET onlyonetoken", &mut fabric), "Invalid SET Command\n");
    assert!(fabric.cache.is_empty());
}

#[test]
fn scenario_set_then_get() {
    let mut fabric = Fabric::new();
    assert_eq!(
        run("SET coordinates.House {\"x\":10,\"y\":29,\"z\":6}", &mut fabric),
        "OK\n"
    );
    assert_eq!(
        run("GET coordinates.House", &mut fabric),
        "{\"x\":10,\"y\":29,\"z\":6}\n"
    );
}

#[test]
fn scenario_update_one_field() {
    let mut fabric = Fabric::new();
    run("SET coordinates.House {\"x\":10,\"y\":29,\"z\":6}", &mut fabric);
    assert_eq!(run("SET coordinates.House.x 12", &mut fabric), "OK\n");
    assert_eq!(
        run("GET coordinates.House", &mut fabric),
        "{\"x\":12,\"y\":29,\"z\":6}\n"
    );
}

#[test]
fn scenario_remove_one_field() {
    let mut fabric = Fabric::new();
    run("SET coordinates.House {\"x\":10,\"y\":29,\"z\":6}", &mut fabric);
    run("SET coordinates.House.x 12", &mut fabric);
    assert_eq!(run("REMOVE coordinates.House.z", &mut fabric), "OK\n");
    assert_eq!(
        run("GET coordinates.House", &mut fabric),
        "{\"x\":12,\"y\":29}\n"
    );
}

#[test]
fn scenario_get_missing_key() {
    let fabric = Fabric::new();
    let reply = get_reply("GET nosuchkey", &fabric);
    assert_eq!(reply, "Key: \"nosuchkey\" Not Found.\n");
    assert_ne!(reply, "OK\n");
}

#[test]
fn set_value_may_hold_spaces() {
    let mut fabric = Fabric::new();
    assert_eq!(set_reply("SET a {\"x\": 1, \"y\": \"p q\"}  ", &mut fabric), "OK\n");
    assert_eq!(get_reply("GET a", &fabric), "{\"x\":1,\"y\":\"p q\"}\n");
}

#[test]
fn set_with_bad_json_reports_the_key() {
    let mut fabric = Fabric::new();
    let reply = set_reply("SET a.b {oops", &mut fabric);
    assert!(reply.starts_with("SET ERROR For Key: a.b: Bad Data Structure: "));
    assert!(reply.ends_with('\n'));
    assert!(fabric.cache.is_empty());
}

#[test]
fn set_through_a_scalar_reports_an_invalid_path() {
    let mut fabric = Fabric::new();
    set_reply("SET a 1", &mut fabric);
    assert_eq!(
        set_reply("SET a.b 2", &mut fabric),
        "SET ERROR For Key: a.b: \"a.b\" Is Not A Valid Key Path.\n"
    );
}

#[test]
fn remove_of_missing_nested_key_reports_an_error() {
    let mut fabric = Fabric::new();
    assert_eq!(
        remove_reply("REMOVE a.b", &mut fabric),
        "REMOVE Error For Key: a.b: \"a.b\" Is Not A Valid Key Path.\n"
    );
    assert_eq!(remove_reply("REMOVE a", &mut fabric), "OK\n");
}

#[test]
fn get_of_a_scalar_root_gives_its_text() {
    let mut fabric = Fabric::new();
    set_reply("SET s \"hi there\"", &mut fabric);
    assert_eq!(run("GET s", &mut fabric), "\"hi there\"\n");
}

#[test]
fn error_messages_are_single_lines() {
    assert_eq!(
        Error::KeyNotFound("k".to_string()).message(),
        "Key: \"k\" Not Found."
    );
    assert_eq!(
        Error::InvalidKeyPath("a.b".to_string()).message(),
        "\"a.b\" Is Not A Valid Key Path."
    );
    assert_eq!(
        Error::BadDataStructure("eof".to_string()).message(),
        "Bad Data Structure: eof"
    );
}
