use http_server::method::HttpMethod;
use http_server::request::{parse_http_request, HttpRequest};
use http_server::response::{find_agent, handle_response, has_response, ok_response};

fn answer(text: &str) -> String {
    let request = parse_http_request(text).expect("a request line of three words");
    assert!(has_response(&request));
    handle_response(request)
}

fn request_for(path: &str, headers: &[&str]) -> HttpRequest {
    HttpRequest {
        method: HttpMethod::GET,
        path: path.to_string(),
        version: "HTTP/1.1".to_string(),
        headers: headers.iter().map(|h| h.to_string()).collect(),
    }
}

#[test]
fn root_is_answered_with_200() {
    let response = answer("GET / HTTP/1.1\r\n\r\n");
    assert!(response.starts_with("HTTP/1.1 200 OK"));
    assert_eq!(response, "HTTP/1.1 200 OK\r\n\r\n");
}

#[test]
fn echo_returns_the_suffix() {
    let response = answer("GET /echo/abc HTTP/1.1\r\n\r\n");
    assert_eq!(
        response,
        "HTTP/1.1 200 OK\r\nContent-Type: text/plain\r\nContent-Length: 3\r\n\r\nabc"
    );
}

#[test]
fn user_agent_returns_the_header_value() {
    let response = answer("GET /user-agent HTTP/1.1\r\nUser-Agent: foo\r\n\r\n");
    assert_eq!(
        response,
        "HTTP/1.1 200 OK\r\nContent-Type: text/plain\r\nContent-Length: 3\r\n\r\nfoo"
    );
}

#[test]
fn other_paths_are_answered_with_404() {
    let response = answer("GET /nope HTTP/1.1\r\n\r\n");
    assert!(response.starts_with("HTTP/1.1 404 NOT FOUND"));
    assert_eq!(response, "HTTP/1.1 404 NOT FOUND\r\n\r\n");
}

#[test]
fn request_in_a_zero_filled_buffer() {
    let mut buffer = [0u8; 1024];
    let text = b"GET /user-agent HTTP/1.1\r\nHost: localhost:4221\r\nUser-Agent: curl/7.64.1\r\n\r\n";
    buffer[..text.len()].copy_from_slice(text);
    let response = answer(&String::from_utf8_lossy(&buffer));
    assert_eq!(
        response,
        "HTTP/1.1 200 OK\r\nContent-Type: text/plain\r\nContent-Length: 11\r\n\r\ncurl/7.64.1"
    );
}

#[test]
fn the_method_does_not_choose_the_route() {
    assert_eq!(answer("POST / HTTP/1.1\r\n\r\n"), "HTTP/1.1 200 OK\r\n\r\n");
    assert_eq!(answer("BREW /x HTTP/1.1\r\n\r\n"), "HTTP/1.1 404 NOT FOUND\r\n\r\n");
}

#[test]
fn echo_returns_later_marks_too() {
    let response = handle_response(request_for("/echo/a/echo/b", &[]));
    assert_eq!(
        response,
        "HTTP/1.1 200 OK\r\nContent-Type: text/plain\r\nContent-Length: 8\r\n\r\na/echo/b"
    );
}

#[test]
fn echo_mark_must_begin_the_path() {
    assert_eq!(
        handle_response(request_for("/x/echo/abc", &[])),
        "HTTP/1.1 404 NOT FOUND\r\n\r\n"
    );
    assert_eq!(
        handle_response(request_for(" /echo/abc", &[])),
        "HTTP/1.1 404 NOT FOUND\r\n\r\n"
    );
    assert_eq!(
        handle_response(request_for("/ECHO/abc", &[])),
        "HTTP/1.1 404 NOT FOUND\r\n\r\n"
    );
}

#[test]
fn echo_with_nothing_behind_it() {
    let response = handle_response(request_for("/echo/", &[]));
    assert_eq!(
        response,
        "HTTP/1.1 200 OK\r\nContent-Type: text/plain\r\nContent-Length: 0\r\n\r\n"
    );
}

#[test]
fn echo_keeps_whitespace() {
    let response = handle_response(request_for("/echo/ a b\t", &[]));
    assert_eq!(
        response,
        "HTTP/1.1 200 OK\r\nContent-Type: text/plain\r\nContent-Length: 5\r\n\r\n a b\t"
    );
}

#[test]
fn content_length_counts_bytes() {
    let response = handle_response(request_for("/echo/h\u{e9}\u{20ac}\u{1f600}", &[]));
    assert_eq!(
        response,
        "HTTP/1.1 200 OK\r\nContent-Type: text/plain\r\nContent-Length: 10\r\n\r\nh\u{e9}\u{20ac}\u{1f600}"
    );
}

#[test]
fn content_length_of_several_digits() {
    let body = "x".repeat(1205);
    let response = handle_response(request_for(&format!("/echo/{}", body), &[]));
    assert_eq!(
        response,
        format!(
            "HTTP/1.1 200 OK\r\nContent-Type: text/plain\r\nContent-Length: 1205\r\n\r\n{}",
            body
        )
    );
}

#[test]
fn echo_of_another_route_s_name() {
    let response = handle_response(request_for("/echo/user-agent", &[]));
    assert_eq!(
        response,
        "HTTP/1.1 200 OK\r\nContent-Type: text/plain\r\nContent-Length: 10\r\n\r\nuser-agent"
    );
    assert_eq!(
        handle_response(request_for("/user-agent/echo/", &[])),
        "HTTP/1.1 404 NOT FOUND\r\n\r\n"
    );
}

#[test]
fn first_matching_header_names_the_client() {
    let request = request_for(
        "/user-agent",
        &["Host: here", "  X-User-Agent: one  ", "User-Agent: two"],
    );
    assert_eq!(find_agent(&request.headers), 1);
    assert_eq!(
        handle_response(request),
        "HTTP/1.1 200 OK\r\nContent-Type: text/plain\r\nContent-Length: 5\r\n\r\nX-one"
    );
}

#[test]
fn user_agent_without_the_header_has_no_response() {
    let request = request_for("/user-agent", &["Host: here", "user-agent: lower"]);
    assert_eq!(find_agent(&request.headers), 2);
    assert!(!has_response(&request));
    let parsed = parse_http_request("GET /user-agent HTTP/1.1\r\n\r\n").unwrap();
    assert!(!has_response(&parsed));
}

#[test]
fn paths_are_matched_in_full() {
    assert_eq!(
        handle_response(request_for("/user-agent/", &[])),
        "HTTP/1.1 404 NOT FOUND\r\n\r\n"
    );
    assert_eq!(handle_response(request_for("//", &[])), "HTTP/1.1 404 NOT FOUND\r\n\r\n");
    assert_eq!(handle_response(request_for("", &[])), "HTTP/1.1 404 NOT FOUND\r\n\r\n");
    assert_eq!(handle_response(request_for("/echo", &[])), "HTTP/1.1 404 NOT FOUND\r\n\r\n");
}

#[test]
fn ok_response_of_a_body() {
    let body: Vec<char> = "hello world".chars().collect();
    assert_eq!(
        ok_response(&body),
        "HTTP/1.1 200 OK\r\nContent-Type: text/plain\r\nContent-Length: 11\r\n\r\nhello world"
    );
}

#[test]
fn user_agent_header_without_a_value() {
    let response = handle_response(request_for("/user-agent", &["User-Agent: "]));
    assert_eq!(
        response,
        "HTTP/1.1 200 OK\r\nContent-Type: text/plain\r\nContent-Length: 11\r\n\r\nUser-Agent:"
    );
}

#[test]
fn user_agent_value_is_trimmed_before_the_mark_is_removed() {
    let response = handle_response(request_for("/user-agent", &["\tUser-Agent: a b \r"]));
    assert_eq!(
        response,
        "HTTP/1.1 200 OK\r\nContent-Type: text/plain\r\nContent-Length: 3\r\n\r\na b"
    );
}

#[test]
fn routes_begin_with_the_200_status_line() {
    let agent = ["User-Agent: x"];
    for path in ["/", "/echo/", "/echo/x", "/user-agent"] {
        let response = handle_response(request_for(path, &agent));
        assert!(response.starts_with("HTTP/1.1 200 OK\r\n"), "{:?}", path);
    }
    for path in ["", "/index.html", "/echo", "x/echo/", "/User-Agent", "/ "] {
        let response = handle_response(request_for(path, &agent));
        assert_eq!(response, "HTTP/1.1 404 NOT FOUND\r\n\r\n", "{:?}", path);
    }
}
