use std::time::Duration;

use google_cloud_storage::arrived::Arrived;
use google_cloud_storage::message::{Request, Response};
use google_cloud_storage::objects::Objects;
use google_cloud_storage::session::{origin, Event, Session};

fn bearing(request: Request) -> Request {
    request
        .header("Host", "storage.local")
        .header("Authorization", "Bearer ya29.token")
}

fn header<'a>(response: &'a Response, name: &str) -> &'a str {
    let found = response.headers.iter().find(|pair| pair.0 == name);
    found.expect("header").1.as_str()
}

#[test]
fn a_session_answers_in_the_json_apis_shapes_and_refuses_a_wrong_token() {
    let mut session = Session::new("ya29.token");
    let upload = Request::new("POST", "/upload/storage/v1/b/b/o")
        .query("uploadType", "media")
        .query("name", "in/k")
        .body(b"x");
    let (event, response) = session.answer(&bearing(upload));
    assert_eq!(response.status, 200);
    assert!(response.text().contains(r#""name":"in/k""#));
    assert_eq!(
        event,
        Event::Stored(Arrived::new("gs://b/in/k", b"x".to_vec()))
    );
    let listing = Request::new("GET", "/storage/v1/b/b/o").query("prefix", "in/");
    let (_, response) = session.answer(&bearing(listing));
    assert!(response.text().contains(r#""items":[{"#));
    let listing = Request::new("GET", "/storage/v1/b/b/o").query("prefix", "z");
    let (_, response) = session.answer(&bearing(listing));
    assert!(!response.text().contains("items"));
    let media = Request::new("GET", "/storage/v1/b/b/o/in%2Fk").query("alt", "media");
    let (event, response) = session.answer(&bearing(media));
    assert_eq!(
        (event, response.body),
        (Event::Retrieved("gs://b/in/k".to_string()), b"x".to_vec())
    );
    let (event, response) =
        session.answer(&bearing(Request::new("DELETE", "/storage/v1/b/b/o/in%2Fk")));
    assert_eq!(
        (event, response.status),
        (Event::Deleted("gs://b/in/k".to_string()), 204)
    );
    assert!(session.objects().is_empty());
    let wrong = Request::new("GET", "/storage/v1/b/b/o").header("Authorization", "Bearer other");
    let (event, response) = session.answer(&wrong);
    assert_eq!(event, Event::Refused("authError".to_string()));
    assert_eq!(response.status, 401);
    assert!(response.text().contains("Invalid Credentials"));
    let (_, response) = session.answer(&bearing(Request::new("GET", "/elsewhere")));
    assert_eq!(response.status, 404);
    let (_, response) = session.answer(&bearing(Request::new("PUT", "/storage/v1/b/b/o/k")));
    assert_eq!(response.status, 405);
    let bare = Request::new("POST", "/upload/storage/v1/b/b/o").query("uploadType", "media");
    let (_, response) = session.answer(&bearing(bare));
    assert_eq!(response.status, 400);
}

#[test]
fn each_refusal_has_its_reason() {
    let mut session = Session::new("ya29.token");
    let unsigned = Request::new("GET", "/storage/v1/b/b/o");
    let resumable = Request::new("POST", "/upload/storage/v1/b/b/o").query("uploadType", "resumable");
    let nameless = Request::new("POST", "/upload/storage/v1/b/b/o").query("uploadType", "media");
    let cases = vec![
        (unsigned, 401, "authError"),
        (bearing(Request::new("GET", "/elsewhere")), 404, "notFound"),
        (bearing(Request::new("GET", "/storage/v1/b/b")), 404, "notFound"),
        (bearing(Request::new("GET", "/storage/v1/b/b/o/k")), 404, "notFound"),
        (bearing(Request::new("DELETE", "/storage/v1/b/b/o/k")), 404, "notFound"),
        (bearing(Request::new("DELETE", "/storage/v1/b/b/o")), 405, "methodNotAllowed"),
        (bearing(Request::new("POST", "/storage/v1/b/b/o")), 405, "methodNotAllowed"),
        (bearing(Request::new("GET", "/upload/storage/v1/b/b/o")), 405, "methodNotAllowed"),
        (bearing(resumable), 400, "badRequest"),
        (bearing(nameless), 400, "required"),
    ];
    for (request, status, reason) in cases {
        let (event, response) = session.answer(&request);
        assert_eq!(event, Event::Refused(reason.to_string()));
        assert_eq!(response.status, status);
        assert_eq!(
            header(&response, "Content-Type"),
            "application/json; charset=UTF-8"
        );
        assert!(session.objects().is_empty());
    }
}

#[test]
fn documents_go_out_in_full() {
    let mut session = Session::new("ya29.token");
    let mut objects = Objects::new();
    objects.insert("b/k\"1", b"twelve bytes".to_vec());
    objects.insert("b/a", b"".to_vec());
    objects.insert("bc/a", b"".to_vec());
    session = session.with_objects(objects);
    let (event, response) = session.answer(&bearing(Request::new("GET", "/storage/v1/b/b/o")));
    assert_eq!(
        event,
        Event::Listed {
            bucket: "b".to_string(),
            prefix: String::new()
        }
    );
    assert_eq!(
        response.text(),
        concat_text(&[
            r#"{"items":["#,
            r#"{"bucket":"b","kind":"storage#object","name":"a","size":"0"},"#,
            r#"{"bucket":"b","kind":"storage#object","name":"k\"1","size":"12"}"#,
            r#"],"kind":"storage#objects"}"#,
        ])
    );
    let (_, response) = session.answer(&bearing(Request::new("GET", "/storage/v1/b/none/o")));
    assert_eq!(response.text(), r#"{"kind":"storage#objects"}"#);
    let (_, response) = session.answer(&bearing(Request::new("GET", "/storage/v1/b/b/o/x")));
    assert_eq!(
        response.text(),
        concat_text(&[
            r#"{"error":{"code":404,"errors":[{"domain":"global","#,
            r#""message":"No such object: b/x","reason":"notFound"}],"#,
            r#""message":"No such object: b/x"}}"#,
        ])
    );
    let (_, response) = session.answer(&bearing(Request::new("GET", "/storage/v1/b/b/o/k%221")));
    assert_eq!(
        header(&response, "Content-Type"),
        "application/octet-stream"
    );
    assert_eq!(response.body, b"twelve bytes");
}

fn concat_text(parts: &[&str]) -> String {
    parts.concat()
}

#[test]
fn an_upload_takes_the_place_of_what_was_there() {
    let mut session = Session::new("ya29.token");
    for body in [&b"first"[..], &b"second"[..]] {
        let upload = Request::new("POST", "/upload/storage/v1/b/b/o")
            .query("uploadType", "media")
            .query("name", "k")
            .body(body);
        let (_, response) = session.answer(&bearing(upload));
        assert_eq!(response.status, 200);
    }
    assert_eq!(session.objects().len(), 1);
    assert_eq!(session.objects().get("b/k"), Some(&b"second".to_vec()));
}

#[test]
fn the_first_of_two_headers_counts_whatever_its_case() {
    let mut session = Session::new("t");
    let request = Request::new("GET", "/storage/v1/b/b/o")
        .header("AUTHORIZATION", "Bearer t")
        .header("authorization", "Bearer other");
    let (_, response) = session.answer(&request);
    assert_eq!(response.status, 200);
    let request = Request::new("GET", "/storage/v1/b/b/o")
        .header("authorization", "Bearer other")
        .header("authorization", "Bearer t");
    let (_, response) = session.answer(&request);
    assert_eq!(response.status, 401);
}

#[test]
fn a_connection_that_sent_nothing_is_an_error() {
    let mut session = Session::new("t").timing_out_after(Duration::from_secs(3));
    assert_eq!(session.timeout(), Some(Duration::from_secs(3)));
    let failure = session.serve_one(None).expect_err("nothing");
    assert_eq!(failure.message, "a connection that sent no request");
    assert!(!failure.retryable);
}

#[test]
fn an_origin_is_the_object_in_the_protocols_own_terms() {
    assert_eq!(origin("bucket", "in/order-1.edi"), "gs://bucket/in/order-1.edi");
}

#[test]
fn a_session_holds_what_its_events_say_over_any_requests() {
    let mut session = Session::new("ya29.token");
    let mut held = Objects::new();
    let upload = |name: &str, body: &[u8]| {
        let request = Request::new("POST", "/upload/storage/v1/b/b/o")
            .query("uploadType", "media")
            .query("name", name)
            .body(body);
        bearing(request)
    };
    let requests = vec![
        upload("a", b"1"),
        upload("b", b"2"),
        Request::new("DELETE", "/storage/v1/b/b/o/a"),
        bearing(Request::new("DELETE", "/storage/v1/b/b/o/b")),
        bearing(Request::new("DELETE", "/storage/v1/b/b/o/b")),
        upload("a", b"3"),
        bearing(Request::new("GET", "/storage/v1/b/b/o")),
    ];
    for request in requests {
        match session.answer(&request).0 {
            Event::Stored(arrived) => {
                held.insert(&arrived.origin_uri["gs://".len()..], arrived.bytes)
            }
            Event::Deleted(uri) => {
                held.remove(&uri["gs://".len()..]);
            }
            _ => {}
        }
        assert_eq!(session.objects(), &held);
    }
    assert_eq!(session.objects().len(), 1);
    assert_eq!(session.objects().get("b/a"), Some(&b"3".to_vec()));
}

#[test]
fn keys_are_in_the_order_of_their_bytes() {
    let texts = ["\u{10000}", "\u{ffff}", "\u{7ff}", "\u{800}", "\u{7f}", "\u{80}", "\u{10ffff}", "\u{e000}"];
    let mut objects = Objects::new();
    for text in texts {
        objects.insert(text, Vec::new());
    }
    let keys: Vec<&[u8]> = objects.entries().iter().map(|e| e.0.as_bytes()).collect();
    let mut sorted = keys.clone();
    sorted.sort();
    assert_eq!(keys, sorted);
}

#[test]
fn objects_stand_once_and_in_order() {
    let mut objects = Objects::new();
    for key in ["m", "z", "a", "m", "é", "ab", ""] {
        objects.insert(key, key.as_bytes().to_vec());
    }
    let keys: Vec<&str> = objects.entries().iter().map(|e| e.0.as_str()).collect();
    assert_eq!(keys, vec!["", "a", "ab", "m", "z", "é"]);
    assert_eq!(objects.len(), 6);
    assert_eq!(objects.remove("m"), Some(b"m".to_vec()));
    assert_eq!(objects.remove("m"), None);
    assert_eq!(objects.get("m"), None);
    assert_eq!(objects.get("z"), Some(&b"z".to_vec()));
    assert!(!objects.is_empty());
}
