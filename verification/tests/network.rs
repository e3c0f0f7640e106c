use makepad::live_id::{LiveId, LiveIdCounter};
use makepad::network::{HttpRequest, HttpResponse};
use std::collections::HashMap;

/// Reads a header block the way the parser is meant to, with std's `lines`
/// and `split`, for comparison.
fn reference_parse(text: &str) -> HashMap<String, Vec<String>> {
    let mut headers: HashMap<String, Vec<String>> = HashMap::new();
    for line in text.lines() {
        let mut split = line.split(":");
        let key = split.next().unwrap();
        let values = split.next().unwrap().to_string();
        for val in values.split(",") {
            headers.entry(key.to_string()).or_insert(Vec::new()).push(val.to_string());
        }
    }
    headers
}

fn check_parse(text: &str) {
    let mut r = HttpResponse::new(LiveId(1), 200, None);
    r.parse_and_set_headers(text.to_string());
    let expected = reference_parse(text);
    assert_eq!(r.headers.len(), expected.len());
    for (k, v) in expected.iter() {
        assert_eq!(r.headers.get(k).as_ref(), Some(v), "header {:?} of {:?}", k, text);
    }
}

#[test]
fn request_starts_empty() {
    let r = HttpRequest::new("http://x".to_string(), "GET".to_string());
    assert_eq!(r.url, "http://x");
    assert_eq!(r.method, "GET");
    assert_eq!(r.headers.len(), 0);
    assert!(r.body.is_none());
    assert_eq!(r.get_headers_string(), "");
}

#[test]
fn set_header_appends_values() {
    let mut r = HttpRequest::new("u".to_string(), "POST".to_string());
    r.set_header("Accept".to_string(), "a".to_string());
    r.set_header("Accept".to_string(), "b".to_string());
    r.set_header("Host".to_string(), "h".to_string());
    assert_eq!(r.headers.get("Accept"), Some(vec!["a".to_string(), "b".to_string()]));
    assert_eq!(r.headers.get("Host"), Some(vec!["h".to_string()]));
    assert_eq!(r.headers.get("Other"), None);
    assert_eq!(r.get_headers_string(), "Accept: a,b\nHost: h\n");
}

#[test]
fn set_body_stores_utf8_bytes() {
    let mut r = HttpRequest::new("u".to_string(), "POST".to_string());
    r.set_body("héllo".to_string());
    assert_eq!(r.body, Some("héllo".as_bytes().to_vec()));
}

#[test]
fn response_body_reads_back_as_text() {
    let r = HttpResponse::new(LiveId(7), 404, Some("día".as_bytes().to_vec()));
    assert_eq!(r.id, LiveId(7));
    assert_eq!(r.status_code, 404);
    assert_eq!(r.get_body(), Some("día".to_string()));
    let e = HttpResponse::new(LiveId(7), 204, None);
    assert_eq!(e.get_body(), None);
}

#[test]
fn response_headers_string_uses_crlf() {
    let mut r = HttpResponse::new(LiveId(1), 200, None);
    r.parse_and_set_headers("Content-Type: text/html\r\nX: 1,2\r\n".to_string());
    assert_eq!(r.get_headers_string(), "Content-Type:  text/html\r\nX:  1,2\r\n");
}

#[test]
fn parse_keeps_leading_space_and_splits_commas() {
    let mut r = HttpResponse::new(LiveId(1), 200, None);
    r.parse_and_set_headers("A: x, y\nB:z\nA:w".to_string());
    assert_eq!(r.headers.get("A"), Some(vec![" x".to_string(), " y".to_string(), "w".to_string()]));
    assert_eq!(r.headers.get("B"), Some(vec!["z".to_string()]));
}

#[test]
fn parse_matches_std_lines_and_split() {
    for text in [
        "",
        "a:b",
        "a:b\n",
        "a:b\r\n",
        "a:b\r",
        "a:b\r\nc:d\r\n",
        "a:b:c\n",
        "a:,\n",
        "k:1,2,3\nk:4\n\n:x\n",
        "x:y\r\r\n",
        "é:ü,ö\n",
        ":\n",
    ] {
        if text.lines().all(|l| l.contains(':')) {
            check_parse(text);
        }
    }
}

#[test]
fn parse_replaces_previous_headers() {
    let mut r = HttpResponse::new(LiveId(1), 200, None);
    r.parse_and_set_headers("a:1".to_string());
    r.parse_and_set_headers("b:2".to_string());
    assert_eq!(r.headers.get("a"), None);
    assert_eq!(r.headers.get("b"), Some(vec!["2".to_string()]));
}

#[test]
fn fresh_ids_differ() {
    let a = HttpRequest::new("u".to_string(), "GET".to_string());
    let b = HttpRequest::new("u".to_string(), "GET".to_string());
    assert_ne!(a.id, b.id);
}

#[test]
fn headers_round_trip_with_leading_space() {
    let mut r = HttpResponse::new(LiveId(3), 200, None);
    r.headers.append("a".to_string(), "x".to_string());
    r.headers.append("b".to_string(), "z".to_string());
    r.headers.append("a".to_string(), "y".to_string());
    let text = r.get_headers_string();
    assert_eq!(text, "a: x,y\r\nb: z\r\n");
    let mut back = HttpResponse::new(LiveId(4), 200, None);
    back.parse_and_set_headers(text);
    assert_eq!(back.headers.len(), 2);
    assert_eq!(back.headers.get("a"), Some(vec![" x".to_string(), "y".to_string()]));
    assert_eq!(back.headers.get("b"), Some(vec![" z".to_string()]));
    assert_eq!(back.get_headers_string(), "a:  x,y\r\nb:  z\r\n");
}

#[test]
fn requests_from_a_counter_have_distinct_ids() {
    let mut ids = LiveIdCounter::new();
    let a = HttpRequest::new_from(&mut ids, "http://a".to_string(), "GET".to_string());
    let b = HttpRequest::new_from(&mut ids, "http://b".to_string(), "POST".to_string());
    assert_eq!(a.id, LiveId(1));
    assert_eq!(b.id, LiveId(2));
    assert_eq!(b.url, "http://b");
    assert_eq!(b.method, "POST");
    assert_eq!(b.headers.len(), 0);
    assert!(b.body.is_none());
    assert_eq!(ids.fresh(), LiveId(3));
}
