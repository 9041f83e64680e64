use dsh_desktop::health::{body_of, check_http_response, http_request_text, http_response, is_dsh_healthy, reply_is_healthy};

const DSH_REPLY: &str =
    "HTTP/1.1 200 OK\r\nContent-Length: 41\r\nConnection: close\r\n\r\n<html><title>DeepSeek Harness</title></html>";
const OTHER_REPLY: &str =
    "HTTP/1.1 200 OK\r\nContent-Length: 15\r\nConnection: close\r\n\r\n<html>hello</html>";

#[test]
fn healthy_check_detects_dsh_response() {
    assert!(is_dsh_healthy(&Ok(DSH_REPLY.to_string())));
    assert!(!is_dsh_healthy(&Ok(OTHER_REPLY.to_string())));
    // no answer at all is not healthy
    assert!(!is_dsh_healthy(&Err("连接 127.0.0.1:0 失败".to_string())));
    assert!(!is_dsh_healthy(&Err(String::new())));
}

#[test]
fn health_needs_status_200() {
    assert!(!is_dsh_healthy(&Ok("HTTP/1.1 404 Not Found\r\n\r\ndsh".to_string())));
    assert!(is_dsh_healthy(&Ok("HTTP/1.0 200 OK\r\n\r\nHARNESS".to_string())));
    assert!(!is_dsh_healthy(&Ok("HTTP/2 200\r\n\r\ndsh".to_string())));
    assert!(reply_is_healthy("HTTP/1.1 200 OK\r\n\r\nDSH", "dsh"));
    assert!(!reply_is_healthy("HTTP/1.1 200 OK\r\n\r\nDSH", ""));
}

#[test]
fn request_text_is_exact() {
    assert_eq!(
        http_request_text(3080, "/"),
        "GET / HTTP/1.1\r\nHost: 127.0.0.1:3080\r\nConnection: close\r\nUser-Agent: dsh-desktop-launcher\r\n\r\n"
    );
    assert_eq!(
        http_request_text(0, "/x"),
        "GET /x HTTP/1.1\r\nHost: 127.0.0.1:0\r\nConnection: close\r\nUser-Agent: dsh-desktop-launcher\r\n\r\n"
    );
}

#[test]
fn non_http_replies_are_rejected() {
    assert_eq!(check_http_response("HTTP/1.0 500 x".to_string()), Ok("HTTP/1.0 500 x".to_string()));
    assert_eq!(check_http_response("SSH-2.0".to_string()), Err("非 HTTP 响应".to_string()));
    assert_eq!(http_response(b"HTTP/1.1 200 OK\r\n\r\n"), Ok("HTTP/1.1 200 OK\r\n\r\n".to_string()));
    assert_eq!(http_response(b"HTTP/1.1 200 \xff"), Ok("HTTP/1.1 200 \u{fffd}".to_string()));
    assert_eq!(http_response(b""), Err("非 HTTP 响应".to_string()));
}

#[test]
fn health_reads_unicode_lowercase() {
    // KELVIN SIGN lowercases to an ASCII 'k'
    assert!(is_dsh_healthy(&Ok("HTTP/1.1 200 OK\r\n\r\nDEEPSEE\u{212a}".to_string())));
}

#[test]
fn service_name_must_be_in_the_body() {
    assert!(!is_dsh_healthy(&Ok("HTTP/1.1 200 OK\r\nServer: dsh\r\n\r\nhello".to_string())));
    assert!(!is_dsh_healthy(&Ok("HTTP/1.1 200 OK dsh".to_string())));
    assert!(is_dsh_healthy(&Ok("HTTP/1.1 200 OK\r\nServer: x\r\n\r\nbody\r\n\r\nDeepSeek".to_string())));
    assert_eq!(body_of("HTTP/1.1 200 OK\r\nA: b\r\n\r\n<p>x</p>"), "<p>x</p>");
    assert_eq!(body_of("no headers end"), "");
}
