use distribeautie::protocol::get_object;
use distribeautie::protocol::get_object_checked;
use distribeautie::protocol::handle_request;
use distribeautie::protocol::ProtocolError;
use distribeautie::storage::Store;

fn response(status: &str, body: &str) -> String {
    format!("{}\r\nContent-Length: {}\r\n\r\n{}", status, body.len(), body)
}

#[test]
fn object_is_second_token_without_slashes() {
    assert_eq!(get_object(String::from("POST /foo HTTP/1.1")), "foo");
    assert_eq!(get_object(String::from("GET /a/b HTTP/1.1")), "ab");
    assert_eq!(get_object(String::from("GET / HTTP/1.1")), "");
    assert_eq!(get_object(String::from("  GET   /spaced   x")), "spaced");
}

#[test]
fn malformed_line_has_no_object() {
    assert_eq!(get_object_checked("POST"), None);
    assert_eq!(get_object_checked(""), None);
    assert_eq!(get_object_checked("   "), None);
    assert_eq!(get_object_checked("POST   "), None);
    assert_eq!(get_object_checked("GET /x y").as_deref(), Some("x"));
}

#[test]
fn write_returns_created_response_and_stores_item() {
    let mut store = Store::new();
    let reply = handle_request(&mut store, "POST /foo HTTP/1.1");
    let expected = response(
        "HTTP/1.1 201 DISTRIBEAUTIE_OBJECT_CREATED",
        "The following object has been created: foo",
    );
    assert_eq!(reply, Ok(Some(expected)));
    assert!(store.get_item(String::from("foo")));
}

#[test]
fn read_of_never_added_item_reports_false() {
    let mut store = Store::new();
    let reply = handle_request(&mut store, "GET /ghost HTTP/1.1");
    let expected = response("HTTP/1.1 200 OK", "The following object exists: false");
    assert_eq!(
        expected,
        "HTTP/1.1 200 OK\r\nContent-Length: 34\r\n\r\nThe following object exists: false"
    );
    assert_eq!(reply, Ok(Some(expected)));
}

#[test]
fn write_then_read_reports_true() {
    let mut store = Store::new();
    handle_request(&mut store, "POST /foo HTTP/1.1").unwrap();
    let reply = handle_request(&mut store, "GET /foo HTTP/1.1");
    let expected = response("HTTP/1.1 200 OK", "The following object exists: true");
    assert_eq!(reply, Ok(Some(expected)));
}

#[test]
fn write_then_read_on_another_connection_reports_true() {
    // Two handler calls model two distinct connections against the one store.
    let mut store = Store::new();
    let first = handle_request(&mut store, "POST /item42 x");
    assert!(matches!(first, Ok(Some(_))));
    let second = handle_request(&mut store, "GET /item42 y");
    let expected = response("HTTP/1.1 200 OK", "The following object exists: true");
    assert_eq!(second, Ok(Some(expected)));
}

#[test]
fn duplicate_writes_both_recorded() {
    let mut store = Store::new();
    handle_request(&mut store, "POST /a HTTP/1.1").unwrap();
    handle_request(&mut store, "POST /a HTTP/1.1").unwrap();
    assert_eq!(store.get_all_items(), vec![String::from("a"), String::from("a")]);
}

#[test]
fn malformed_post_fails_connection_without_storing() {
    let mut store = Store::new();
    let reply = handle_request(&mut store, "POST");
    assert_eq!(reply, Err(ProtocolError::MalformedRequest));
    assert_eq!(store.get_all_items().len(), 0);
}

#[test]
fn malformed_get_fails_connection() {
    let mut store = Store::new();
    let reply = handle_request(&mut store, "GET");
    assert_eq!(reply, Err(ProtocolError::MalformedRequest));
}

#[test]
fn unknown_method_gets_no_response() {
    let mut store = Store::new();
    let reply = handle_request(&mut store, "PUT /foo HTTP/1.1");
    assert_eq!(reply, Ok(None));
    assert_eq!(store.get_all_items().len(), 0);
}
