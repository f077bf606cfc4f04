use std::time::Duration;

use google_cloud_storage::client::{done, failure, judge, listed, listing, Client};
use google_cloud_storage::endpoint::authority;
use google_cloud_storage::message::{Request, Response};
use google_cloud_storage::percent::{decode, encode};
use google_cloud_storage::transport::GcsTransport;

#[test]
fn a_server_failure_is_worth_repeating_and_a_client_one_is_not() {
    assert!(judge(Response::new(503)).expect_err("server").retryable);
    assert!(judge(Response::new(429)).expect_err("throttled").retryable);
    let forbidden = Response::new(403).body(br#"{"error":{"code":403,"message":"no"}}"#);
    let failure = judge(forbidden).expect_err("forbidden");
    assert!(!failure.retryable);
    assert_eq!(failure.message, "Cloud Storage answered 403 no");
    assert!(Client::new("orders.local", "t").is_err());
}

#[test]
fn a_status_is_judged_at_its_bounds() {
    let cases = vec![
        (199, Some(false)),
        (200, None),
        (204, None),
        (299, None),
        (300, Some(false)),
        (407, Some(false)),
        (408, Some(true)),
        (428, Some(false)),
        (499, Some(false)),
        (500, Some(true)),
        (65535, Some(true)),
    ];
    for (status, expected) in cases {
        let retryable = done(Response::new(status)).err().map(|e| e.retryable);
        assert_eq!(retryable, expected, "{status}");
    }
}

#[test]
fn a_failure_names_the_message_where_the_body_has_one() {
    let bodies = vec![
        (&b"{\"error\":{\"message\":\"a \\u00fc\"}}"[..], "a ü"),
        (&b"{\"error\":{\"message\":7}}"[..], ""),
        (&b"{\"error\":[]}"[..], ""),
        (&b"[]"[..], ""),
        (&b"<html>"[..], ""),
        (&b""[..], ""),
    ];
    for (body, message) in bodies {
        let error = judge(Response::new(404).body(body)).expect_err("failure");
        assert_eq!(
            error.message,
            format!("Cloud Storage answered 404 {message}")
        );
    }
    let parsed = serde_json::from_slice(br#"{"error":{"message":"no"}}"#);
    let error = failure(500, Ok(parsed.expect("json")));
    assert_eq!(error.message, "Cloud Storage answered 500 no");
    assert!(error.retryable);
    let error = failure(400, Err("complaint".to_string()));
    assert_eq!(error.message, "Cloud Storage answered 400 ");
}

#[test]
fn a_listing_is_read_as_far_as_it_has_names() {
    let body = br#"{"items":[{"name":"b"},{"name":1},{},"x",{"name":"a"}]}"#;
    let names = listed(Response::new(200).body(body)).expect("listing");
    assert_eq!(names, vec!["b".to_string(), "a".to_string()]);
    for body in [
        r#"{"items":[]}"#,
        r#"{"kind":"storage#objects"}"#,
        r#"{"items":null,"kind":"storage#objects"}"#,
    ] {
        let names = listed(Response::new(200).body(body.as_bytes())).expect("listing");
        assert!(names.is_empty());
    }
    let parsed = serde_json::from_slice(br#"{"items":[{"name":"n"}]}"#).expect("json");
    assert_eq!(listing(Ok(parsed)).expect("listing"), vec!["n".to_string()]);
}

#[test]
fn an_answer_that_is_not_a_listing_is_an_error() {
    for body in [
        "{}",
        r#"{"items":{}}"#,
        "[]",
        "null",
        r#"{"kind":"storage#object","name":"k"}"#,
        r#"{"kind":"storage#objects","items":"x"}"#,
    ] {
        let error = listed(Response::new(200).body(body.as_bytes())).expect_err("no listing");
        assert_eq!(error.message, "an answer that is not a listing");
        assert!(!error.retryable);
    }
    let parsed = serde_json::from_slice(b"[]").expect("json");
    assert!(listing(Ok(parsed)).is_err());
}

#[test]
fn a_listing_that_is_not_json_is_an_error() {
    let error = listed(Response::new(200).body(b"<html>")).expect_err("not json");
    assert_eq!(
        error.message,
        "a listing that is not JSON: expected value at line 1 column 1"
    );
    assert!(!error.retryable);
    let error = listing(Err("words".to_string())).expect_err("not json");
    assert_eq!(error.message, "a listing that is not JSON: words");
    let error = listed(Response::new(500)).expect_err("refused");
    assert_eq!(error.message, "Cloud Storage answered 500 ");
}

#[test]
fn the_four_requests_are_the_apis() {
    let client = Client::new("https://storage.googleapis.com/", "t").expect("endpoint");
    let addressed = |request: Request| {
        request
            .header("Host", "storage.googleapis.com")
            .header("Authorization", "Bearer t")
    };
    let list = Request::new("GET", "/storage/v1/b/b/o").query("prefix", "in/");
    assert_eq!(client.list("b", "in/"), addressed(list));
    let get = Request::new("GET", "/storage/v1/b/b/o/in%2Fk").query("alt", "media");
    assert_eq!(client.get("b", "in/k"), addressed(get));
    let put = Request::new("POST", "/upload/storage/v1/b/b/o")
        .query("uploadType", "media")
        .query("name", "in/k")
        .header("Content-Type", "application/octet-stream")
        .body(b"x");
    assert_eq!(client.put("b", "in/k", b"x"), addressed(put));
    let delete = Request::new("DELETE", "/storage/v1/b/b/o/in%2Fk");
    assert_eq!(client.delete("b", "in/k"), addressed(delete));
}

#[test]
fn an_endpoint_is_an_http_url() {
    assert_eq!(authority("http://host:80").expect("url"), "host:80");
    assert_eq!(authority("https://host/a/b").expect("url"), "host");
    for endpoint in ["host", "ftp://host", "http:/host", "", "http://", "https:///path"] {
        let error = authority(endpoint).expect_err("no url");
        assert_eq!(error.message, format!("not an HTTP URL: {endpoint}"));
        assert!(!error.retryable);
    }
}

#[test]
fn a_transport_hands_on_what_it_is_configured_with() {
    let transport = GcsTransport::new("http://h:1", "b")
        .with_token("t")
        .with_prefix("p/");
    let client = transport.client().expect("endpoint");
    assert_eq!(client.endpoint(), "http://h:1");
    assert_eq!(client.timeout(), None);
    assert_eq!(transport.session().timeout(), None);
    let request = transport.receive().expect("endpoint").request();
    assert_eq!(request, Some(client.list("b", "p/")));
    let transport = transport.timing_out_after(Duration::from_secs(1));
    let client = transport.client().expect("endpoint");
    assert_eq!(client.timeout(), Some(Duration::from_secs(1)));
    assert_eq!(transport.session().timeout(), Some(Duration::from_secs(1)));
    assert!(GcsTransport::new("h", "b").receive().is_err());
    let (_, request) = transport.send("gs://c/n", b"x").expect("endpoint");
    assert_eq!(request, client.put("c", "n", b"x"));
}

#[test]
fn escapes_are_written_and_read() {
    assert_eq!(encode("in/a b.edi"), "in%2Fa%20b.edi");
    assert_eq!(encode("AZaz09-._~"), "AZaz09-._~");
    assert_eq!(encode("ü%"), "%C3%BC%25");
    assert_eq!(decode("in%2fa%20b"), "in/a b");
    assert_eq!(decode("%C3%BC"), "ü");
    assert_eq!(decode("100%"), "100%");
    assert_eq!(decode("%zz%4"), "%zz%4");
    assert_eq!(decode("%FF"), "\u{fffd}");
    assert_eq!(decode("a+b"), "a+b");
    for text in ["", "/o/", "%25", "ß–𝄞", "a\u{0}b"] {
        assert_eq!(decode(&encode(text)), text);
    }
}

#[test]
fn a_body_is_read_as_text() {
    assert_eq!(Response::new(200).body("größe".as_bytes()).text(), "größe");
    assert_eq!(Response::new(200).body(&[b'a', 0xff]).text(), "a\u{fffd}");
}
