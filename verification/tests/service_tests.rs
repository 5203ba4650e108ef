use hash_ledger::service::{bad_request, json_reply, not_found, route, Route};

#[test]
fn route_get_reads_the_chain() {
    assert_eq!(route("GET"), Route::ReadChain);
}

#[test]
fn route_post_appends_a_block() {
    assert_eq!(route("POST"), Route::AppendBlock);
}

#[test]
fn route_other_methods_are_not_found() {
    for method in ["PUT", "DELETE", "HEAD", "OPTIONS", "PATCH", "TRACE", "CONNECT", ""] {
        assert_eq!(route(method), Route::NotFound);
    }
}

#[test]
fn route_compares_methods_as_written() {
    assert_eq!(route("get"), Route::NotFound);
    assert_eq!(route("Post"), Route::NotFound);
    assert_eq!(route("GET "), Route::NotFound);
    assert_eq!(route("POSTS"), Route::NotFound);
}

#[test]
fn json_reply_carries_the_encoded_text() {
    let reply = json_reply(Ok("{\"index\": 0}".to_string()));
    assert_eq!(reply.status, 200);
    assert_eq!(reply.content_type.as_deref(), Some("application/json"));
    assert_eq!(reply.body, "{\"index\": 0}");
}

#[test]
fn json_reply_turns_a_failure_into_a_server_error() {
    let reply = json_reply(Err("key must be a string".to_string()));
    assert_eq!(reply.status, 500);
    assert_eq!(reply.content_type, None);
    assert_eq!(reply.body, "Internal Server Error");
}

#[test]
fn not_found_reply() {
    let reply = not_found();
    assert_eq!(reply.status, 404);
    assert_eq!(reply.content_type, None);
    assert_eq!(reply.body, "Not Found");
}

#[test]
fn bad_request_reply() {
    let reply = bad_request();
    assert_eq!(reply.status, 400);
    assert_eq!(reply.content_type, None);
    assert_eq!(reply.body, "Bad Request");
}
