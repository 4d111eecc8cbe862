use wasi_http_server::config::ServerConfig;
use wasi_http_server::framing::{Action, Framer};
use wasi_http_server::response::{
    create_error_response, dispatch, handle_http_request, handle_options_request, HttpResponse,
    ServerError,
};
use wasi_http_server::service::{respond, response_for};

fn header<'a>(r: &'a HttpResponse, key: &str) -> Option<&'a str> {
    r.headers.iter().find(|(k, _)| k == key).map(|(_, v)| v.as_str())
}

fn has_cors(r: &HttpResponse) -> bool {
    header(r, "Access-Control-Allow-Origin") == Some("*")
        && header(r, "Access-Control-Allow-Methods") == Some("GET, POST, OPTIONS")
        && header(r, "Access-Control-Allow-Headers") == Some("Content-Type")
}

#[test]
fn new_response_has_cors_headers_only() {
    let r = HttpResponse::new(204, "No Content");
    assert_eq!(r.status_code, 204);
    assert_eq!(r.status_text, "No Content");
    assert_eq!(r.headers.len(), 3);
    assert!(has_cors(&r));
    assert_eq!(r.body, "");
}

#[test]
fn with_body_counts_utf8_bytes() {
    let r = HttpResponse::new(200, "OK").with_body("héllo".to_string());
    assert_eq!(header(&r, "Content-Length"), Some("6"));
    assert_eq!(header(&r, "Content-Type"), Some("text/plain"));
    assert_eq!(r.body, "héllo");
}

#[test]
fn with_content_type_replaces_or_adds() {
    let r = HttpResponse::new(200, "OK").with_body("x".to_string()).with_content_type("text/html");
    assert_eq!(r.headers.len(), 5);
    assert_eq!(header(&r, "Content-Type"), Some("text/html"));
    let r = HttpResponse::new(200, "OK").with_content_type("application/json");
    assert_eq!(r.headers.len(), 4);
    assert_eq!(r.headers[3], ("Content-Type".to_string(), "application/json".to_string()));
}

#[test]
fn rendered_response_text() {
    let r = HttpResponse::new(200, "OK").with_body("hi".to_string());
    assert_eq!(
        r.to_string(),
        "HTTP/1.1 200 OK\r\nAccess-Control-Allow-Origin: *\r\n\
         Access-Control-Allow-Methods: GET, POST, OPTIONS\r\n\
         Access-Control-Allow-Headers: Content-Type\r\nContent-Length: 2\r\n\
         Content-Type: text/plain\r\n\r\nhi"
    );
}

#[test]
fn get_and_post_handling() {
    let r = handle_http_request("GET", "ignored");
    assert_eq!(r.status_code, 200);
    assert_eq!(r.body, "GET request processed successfully");
    let r = handle_http_request("POST", "data");
    assert_eq!(r.body, "echo: data");
    assert_eq!(header(&r, "Content-Length"), Some("10"));
    let r = handle_http_request("PUT", "data");
    assert_eq!(r.body, "Unexpected method");
}

#[test]
fn options_answer_has_no_body_headers() {
    let r = handle_options_request();
    assert_eq!(r.status_code, 200);
    assert_eq!(r.body, "");
    assert!(has_cors(&r));
    assert_eq!(header(&r, "Content-Type"), None);
    assert_eq!(header(&r, "Content-Length"), None);
}

#[test]
fn error_responses() {
    let r = create_error_response(ServerError::RequestTooLarge);
    assert_eq!((r.status_code, r.status_text.as_str()), (413, "Request Entity Too Large"));
    assert_eq!(r.body, "Request Entity Too Large");
    let r = create_error_response(ServerError::DecodingError("bad".to_string()));
    assert_eq!((r.status_code, r.body.as_str()), (400, "Bad Request: bad"));
    let r = create_error_response(ServerError::MethodNotAllowed);
    assert_eq!((r.status_code, r.body.as_str()), (405, "Method Not Allowed"));
    let r = create_error_response(ServerError::IoError("broken pipe".to_string()));
    assert_eq!((r.status_code, r.body.as_str()), (500, "Internal Server Error: broken pipe"));
    assert_eq!(header(&r, "Content-Type"), Some("text/plain"));
}

#[test]
fn dispatch_by_method() {
    assert_eq!(dispatch("GET", "").status_code, 200);
    assert_eq!(dispatch("POST", "b").body, "echo: b");
    assert_eq!(dispatch("OPTIONS", "").body, "");
    assert_eq!(dispatch("DELETE", "").status_code, 405);
    assert_eq!(dispatch("get", "").status_code, 405);
}

#[test]
fn post_split_over_reads_is_echoed() {
    let req = b"POST / HTTP/1.1\r\nContent-Length: 11\r\n\r\nhello world";
    let mut f = Framer::new(8192, 20);
    let mut action = Action::ReadMore;
    for c in [&req[..20], &req[20..40], &req[40..]] {
        action = f.on_read(c);
    }
    assert_eq!(action, Action::Decode);
    let r = response_for(action, &f.data).unwrap();
    assert_eq!(r.status_code, 200);
    assert_eq!(r.body, "echo: hello world");
    assert!(has_cors(&r));
    assert!(r.to_string().ends_with("\r\n\r\necho: hello world"));
}

#[test]
fn options_request_end_to_end() {
    let mut f = Framer::new(8192, 2048);
    let action = f.on_read(b"OPTIONS / HTTP/1.1\r\nHost: x\r\n\r\n");
    let r = response_for(action, &f.data).unwrap();
    assert_eq!(r.status_code, 200);
    assert_eq!(r.body, "");
    assert!(has_cors(&r));
    assert_eq!(header(&r, "Content-Type"), None);
}

#[test]
fn oversized_request_end_to_end() {
    let mut f = Framer::new(8192, 2048);
    let bytes = vec![b'a'; 10000];
    let mut action = Action::ReadMore;
    for c in bytes.chunks(2048) {
        action = f.on_read(c);
        if action != Action::ReadMore {
            break;
        }
    }
    let r = response_for(action, &f.data).unwrap();
    assert_eq!(r.status_code, 413);
    assert!(r.body.contains("Too Large"));
}

#[test]
fn undecodable_request_is_bad_request() {
    let r = respond(b"\x01\x02 nonsense\r\n\r\n");
    assert_eq!(r.status_code, 400);
    assert!(r.body.starts_with("Bad Request: "));
    assert!(r.body.len() > "Bad Request: ".len());
}

#[test]
fn get_request_is_decoded() {
    let r = respond(b"GET /x HTTP/1.1\r\nHost: a\r\n\r\n");
    assert_eq!(r.status_code, 200);
    assert_eq!(r.body, "GET request processed successfully");
}

#[test]
fn unknown_method_is_not_allowed() {
    let r = respond(b"DELETE /x HTTP/1.1\r\n\r\n");
    assert_eq!(r.status_code, 405);
}

#[test]
fn read_more_has_no_response() {
    assert!(response_for(Action::ReadMore, b"GET").is_none());
    let r = response_for(Action::FailClosed, b"").unwrap();
    assert_eq!(r.status_code, 500);
    assert_eq!(r.body, "Internal Server Error: connection closed before the request was complete");
}

#[test]
fn config_defaults_and_overrides() {
    let c = ServerConfig::from_settings(None, None, None);
    assert_eq!((c.max_request_size, c.buffer_size, c.port.as_str()), (8192, 2048, "1234"));
    let c = ServerConfig::from_settings(
        Some("100".to_string()),
        Some("abc".to_string()),
        Some("8080".to_string()),
    );
    assert_eq!((c.max_request_size, c.buffer_size, c.port.as_str()), (100, 2048, "8080"));
}

#[test]
fn config_port_falls_back_when_unreadable() {
    let port = |p: &str| ServerConfig::from_settings(None, None, Some(p.to_string())).port;
    assert_eq!(port("8080"), "8080");
    assert_eq!(port("65535"), "65535");
    assert_eq!(port("abc"), "1234");
    assert_eq!(port("65536"), "1234");
    assert_eq!(port(""), "1234");
    assert_eq!(port("-1"), "1234");
}

#[test]
fn config_size_settings_fall_back_when_unreadable() {
    let c = ServerConfig::from_settings(Some("1e3".to_string()), Some("".to_string()), None);
    assert_eq!((c.max_request_size, c.buffer_size), (8192, 2048));
}

#[test]
fn transfer_encoding_request_is_refused() {
    let req = b"POST / HTTP/1.1\r\nTransfer-Encoding: chunked\r\nContent-Length: 25\r\n\r\n11111111111111111\r\nabcd";
    let r = respond(req);
    assert_eq!(r.status_code, 400);
    assert_eq!(r.body, "Bad Request: transfer-encoding is not supported");
    let r = respond(b"POST / HTTP/1.1\r\ntransfer-encoding: chunked\r\n\r\n5\r\nhello\r\n0\r\n\r\n");
    assert_eq!(r.status_code, 400);
}

#[test]
fn transfer_encoding_text_in_body_is_served() {
    let req = b"POST / HTTP/1.1\r\nContent-Length: 20\r\n\r\nTransfer-Encoding: x";
    let r = respond(req);
    assert_eq!(r.status_code, 200);
    assert_eq!(r.body, "echo: Transfer-Encoding: x");
}
