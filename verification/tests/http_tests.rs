use worker_pool::channel::Job;
use worker_pool::http::{build_response, decimal_string, route, str_eq};
use worker_pool::pool::ThreadPool;

#[test]
fn known_routes_map_to_greeting_page() {
    let r = route("GET / HTTP/1.1");
    assert_eq!(r.status, "HTTP/1.1 200 OK");
    assert_eq!(r.filename, "hello.html");
    assert_eq!(r.delay, 0);
    let s = route("GET /sleep HTTP/1.1");
    assert_eq!(s.status, "HTTP/1.1 200 OK");
    assert_eq!(s.filename, "hello.html");
    assert_eq!(s.delay, 5);
}

#[test]
fn unknown_route_maps_to_fallback_page() {
    let r = route("GET /missing HTTP/1.1");
    assert_eq!(r.status, "HTTP/1.1 404 NOT FOUND");
    assert_eq!(r.filename, "404.html");
    assert_eq!(r.delay, 0);
}

#[test]
fn str_eq_compares_exactly() {
    assert!(str_eq("abc", "abc"));
    assert!(str_eq("", ""));
    assert!(!str_eq("abc", "abcd"));
    assert!(!str_eq("abc", "abd"));
}

#[test]
fn decimal_rendering_has_exact_digits() {
    assert_eq!(decimal_string(0), "0");
    assert_eq!(decimal_string(7), "7");
    assert_eq!(decimal_string(42), "42");
    assert_eq!(decimal_string(100), "100");
    assert_eq!(decimal_string(1000000), "1000000");
    assert_eq!(decimal_string(u64::MAX), "18446744073709551615");
}

#[test]
fn response_is_status_length_blank_line_body() {
    let r = build_response("HTTP/1.1 200 OK", "hello");
    assert_eq!(r, "HTTP/1.1 200 OK\r\nContent-Length: 5\r\n\r\nhello");
    let e = build_response("HTTP/1.1 404 NOT FOUND", "");
    assert_eq!(e, "HTTP/1.1 404 NOT FOUND\r\nContent-Length: 0\r\n\r\n");
}

#[test]
fn content_length_counts_bytes_not_characters() {
    let r = build_response("HTTP/1.1 200 OK", "h\u{e9}llo");
    assert_eq!(r, "HTTP/1.1 200 OK\r\nContent-Length: 6\r\n\r\nh\u{e9}llo");
}

#[test]
fn immediate_response_finishes_before_delayed_one() {
    let slow = route("GET /sleep HTTP/1.1");
    let fast = route("GET / HTTP/1.1");
    let mut p = ThreadPool::new(2);
    p.execute(Job { label: 1, duration: slow.delay });
    p.execute(Job { label: 2, duration: fast.delay });
    let t = p.shutdown();
    assert!(p.log[1].finish < p.log[0].finish);
    assert_eq!(p.log[1].finish, 0);
    assert!(t >= slow.delay);
}
