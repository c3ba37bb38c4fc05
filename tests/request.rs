use fabric_cache::request::{get_request, remove_request, reply_is_ok, set_request};

#[test]
fn request_lines_are_framed() {
    assert_eq!(set_request("a.b", "{\"x\": 1}"), "SET a.b {\"x\": 1}\n");
    assert_eq!(get_request("a.b"), "GET a.b\n");
    assert_eq!(remove_request("a"), "REMOVE a\n");
}

#[test]
fn replies_with_ok_are_success() {
    assert!(reply_is_ok("OK\n"));
    assert!(!reply_is_ok("Key: \"OK.x\" Not Found.\n"));
    assert!(!reply_is_ok("Invalid SET Command\n"));
    assert!(!reply_is_ok("O"));
    assert!(!reply_is_ok(""));
}
