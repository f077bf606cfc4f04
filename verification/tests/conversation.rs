use std::time::Duration;

use google_cloud_storage::arrived::Arrived;
use google_cloud_storage::client::{done, fetched, judge, listed, Client};
use google_cloud_storage::error::TransportError;
use google_cloud_storage::message::{Request, Response};
use google_cloud_storage::session::{Event, Session};
use google_cloud_storage::transport::{GcsTransport, ResourceClaim};

/// A far end, and what its clients did.
struct FarEnd {
    session: Session,
    events: Vec<Event>,
}

impl FarEnd {
    fn new(session: Session) -> Self {
        FarEnd {
            session,
            events: Vec::new(),
        }
    }

    fn exchange(&mut self, request: Request) -> Response {
        let (event, response) = self.session.serve_one(Some(&request)).expect("served");
        self.events.push(event);
        response
    }
}

fn node(endpoint: &str, token: &str) -> GcsTransport {
    GcsTransport::new(endpoint, "orders")
        .with_token(token)
        .with_prefix("in/")
        .timing_out_after(Duration::from_secs(2))
}

fn send(
    near: &GcsTransport,
    far_end: &mut FarEnd,
    target: &str,
    bytes: &[u8],
) -> Result<(), TransportError> {
    let (_, request) = near.send(target, bytes)?;
    done(far_end.exchange(request))
}

fn receive(near: &GcsTransport, far_end: &mut FarEnd) -> Result<Vec<Arrived>, TransportError> {
    let mut receiving = near.receive()?;
    while let Some(request) = receiving.request() {
        receiving = receiving.advance(Ok(far_end.exchange(request)));
    }
    receiving.finish().expect("over")
}

#[test]
fn what_is_sent_to_a_session_is_received_back_and_deleted() {
    let near = node("http://127.0.0.1:4443", "ya29.token");
    let mut far_end = FarEnd::new(near.session());
    send(&near, &mut far_end, "in/1.edi", b"UNA:+.? '").expect("a name alone");
    send(&near, &mut far_end, "gs://orders/in/2.edi", b"").expect("a full target");
    let mut arrived = receive(&near, &mut far_end).expect("received");
    arrived.sort_by(|a, b| a.origin_uri.cmp(&b.origin_uri));
    assert_eq!(arrived.len(), 2);
    assert_eq!(arrived[0].origin_uri, "gs://orders/in/1.edi");
    assert_eq!(arrived[0].bytes, b"UNA:+.? '");
    assert_eq!(arrived[1].origin_uri, "gs://orders/in/2.edi");
    assert!(arrived[1].bytes.is_empty());
    // Two uploads, one list, then a get and a delete per object under in/.
    assert_eq!(far_end.events.len(), 7);
    assert!(
        far_end.session.objects().is_empty(),
        "deleted after retrieve"
    );
    assert_eq!(
        far_end.events[0],
        Event::Stored(Arrived::new("gs://orders/in/1.edi", b"UNA:+.? '".to_vec()))
    );
    let deleted = far_end
        .events
        .iter()
        .filter(|e| matches!(e, Event::Deleted(_)));
    assert_eq!(deleted.count(), 2);
}

#[test]
fn a_wrong_token_is_refused_with_the_apis_own_status_and_message() {
    let mut far_end = FarEnd::new(node("http://x", "ya29.token").session());
    let near = node("http://127.0.0.1:4443", "ya29.other");
    let failure = send(&near, &mut far_end, "in/1.edi", b"x").expect_err("refused");
    assert!(
        failure.message.contains("401 Invalid Credentials"),
        "{}",
        failure.message
    );
    assert!(!failure.retryable);
    assert_eq!(
        far_end.events,
        vec![Event::Refused("authError".to_string())]
    );
    assert!(far_end.session.objects().is_empty());
}

#[test]
fn objects_are_artefacts_without_a_lock_and_an_unreachable_endpoint_is_retryable() {
    let near = node("http://127.0.0.1:1", "t");
    assert!(near.claims().is_some());
    assert_eq!(near.claims(), Some(ResourceClaim::NoNativeClaim));
    assert_eq!(near.name(), "google-cloud-storage");
    assert!(near.directions().receives() && near.directions().sends());
    let unreachable = TransportError {
        message: "nothing listening".to_string(),
        retryable: true,
    };
    let receiving = near.receive().expect("endpoint");
    assert!(receiving.request().is_some());
    let receiving = receiving.advance(Err(unreachable.clone()));
    assert!(receiving.request().is_none());
    let failure = receiving.finish().expect("over").expect_err("nothing listening");
    assert!(failure.retryable);
    assert_eq!(failure, unreachable);
    let failure = node("orders.local", "t")
        .send("k", b"")
        .err()
        .expect("no scheme");
    assert!(!failure.retryable);
}

#[test]
fn the_four_calls_reach_a_session_and_come_back_shaped_as_the_json_api_shapes_them() {
    let mut far_end =
        FarEnd::new(Session::new("ya29.token").timing_out_after(Duration::from_secs(2)));
    let client = Client::new("http://127.0.0.1:4443", "ya29.token")
        .expect("endpoint")
        .timing_out_after(Duration::from_secs(2));
    done(far_end.exchange(client.put("orders", "in/a b.edi", b"UNA"))).expect("put");
    done(far_end.exchange(client.put("orders", "out/c.edi", b"UNB"))).expect("put");
    assert_eq!(
        listed(far_end.exchange(client.list("orders", "in/"))).expect("list"),
        vec!["in/a b.edi".to_string()]
    );
    assert_eq!(
        fetched(far_end.exchange(client.get("orders", "in/a b.edi"))).expect("get"),
        b"UNA"
    );
    done(far_end.exchange(client.delete("orders", "in/a b.edi"))).expect("delete");
    let missing =
        fetched(far_end.exchange(client.get("orders", "in/a b.edi"))).expect_err("gone");
    assert!(
        missing.message.contains("404 No such object"),
        "{}",
        missing.message
    );
    assert!(!missing.retryable);
    assert_eq!(far_end.session.objects().len(), 1);
    assert!(matches!(&far_end.events[2], Event::Listed { prefix, .. } if prefix == "in/"));
    let origin = "gs://orders/in/a b.edi".to_string();
    assert_eq!(far_end.events[3], Event::Retrieved(origin.clone()));
    assert_eq!(far_end.events[4], Event::Deleted(origin));
    assert_eq!(far_end.events[5], Event::Refused("notFound".to_string()));
}

#[test]
fn a_receive_leaves_what_is_not_under_its_prefix_and_comes_in_order() {
    let near = node("https://storage.googleapis.com", "t");
    let mut far_end = FarEnd::new(near.session());
    for name in ["in/b", "out/x", "in/a", "in", "in/ä"] {
        send(&near, &mut far_end, name, name.as_bytes()).expect("sent");
    }
    send(&near, &mut far_end, "gs://other/in/a", b"theirs").expect("sent");
    let arrived = receive(&near, &mut far_end).expect("received");
    let origins: Vec<&str> = arrived.iter().map(|a| a.origin_uri.as_str()).collect();
    assert_eq!(
        origins,
        vec!["gs://orders/in/a", "gs://orders/in/b", "gs://orders/in/ä"]
    );
    assert_eq!(arrived[2].bytes, "in/ä".as_bytes());
    let keys: Vec<&str> = far_end
        .session
        .objects()
        .entries()
        .iter()
        .map(|entry| entry.0.as_str())
        .collect();
    assert_eq!(keys, vec!["orders/in", "orders/out/x", "other/in/a"]);
    assert!(receive(&near, &mut far_end).expect("nothing").is_empty());
}

#[test]
fn a_failure_amid_a_receive_ends_it() {
    let near = node("http://127.0.0.1:4443", "t");
    let mut far_end = FarEnd::new(near.session());
    send(&near, &mut far_end, "in/1", b"1").expect("sent");
    let mut receiving = near.receive().expect("endpoint");
    let request = receiving.request().expect("a listing");
    assert_eq!(request.method, "GET");
    assert_eq!(request.path, "/storage/v1/b/orders/o");
    receiving = receiving.advance(Ok(far_end.exchange(request)));
    let request = receiving.request().expect("a fetch");
    assert_eq!(request.path, "/storage/v1/b/orders/o/in%2F1");
    receiving = receiving.advance(Ok(far_end.exchange(request)));
    let request = receiving.request().expect("a deletion");
    assert_eq!(request.method, "DELETE");
    receiving = receiving.advance(Ok(Response::new(503)));
    assert!(receiving.request().is_none());
    let failure = receiving.finish().expect("over").expect_err("failed");
    assert_eq!(failure.message, "Cloud Storage answered 503 ");
    assert!(failure.retryable);
    assert_eq!(far_end.session.objects().len(), 1);
}

#[test]
fn an_object_that_could_not_be_fetched_is_not_deleted() {
    let near = node("http://127.0.0.1:4443", "t");
    let mut far_end = FarEnd::new(near.session());
    send(&near, &mut far_end, "in/1", b"1").expect("sent");
    let mut receiving = near.receive().expect("endpoint");
    let request = receiving.request().expect("a listing");
    receiving = receiving.advance(Ok(far_end.exchange(request)));
    receiving = receiving.advance(Ok(Response::new(500)));
    assert!(receiving.request().is_none());
    receiving = receiving.advance(Ok(Response::new(200)));
    assert!(receiving.request().is_none());
    let failure = receiving.finish().expect("over").expect_err("failed");
    assert_eq!(failure.message, "Cloud Storage answered 500 ");
    assert_eq!(far_end.session.objects().len(), 1);
}

#[test]
fn a_receive_under_way_has_no_result() {
    let receiving = node("http://h", "t").receive().expect("endpoint");
    assert_eq!(receiving.client().endpoint(), "http://h");
    assert_eq!(receiving.client().timeout(), Some(Duration::from_secs(2)));
    assert!(receiving.finish().is_none());
}

#[test]
fn an_object_is_named_whatever_its_characters() {
    let near = node("http://h", "t");
    let mut far_end = FarEnd::new(near.session());
    let client = near.client().expect("endpoint");
    for name in ["/o", "a/o/b", "100% & more?", "ö#", "%2F", ""] {
        done(far_end.exchange(client.put("b/o", name, name.as_bytes()))).expect("put");
        assert_eq!(
            fetched(far_end.exchange(client.get("b/o", name))).expect("got"),
            name.as_bytes()
        );
        done(far_end.exchange(client.delete("b/o", name))).expect("deleted");
    }
    assert!(far_end.session.objects().is_empty());
}

#[test]
fn an_origin_is_a_target_and_a_name_alone_is_not() {
    let near = node("http://h", "t");
    assert_eq!(
        near.resolve("gs://theirs/in/1.edi"),
        ("theirs", "in/1.edi")
    );
    assert_eq!(near.resolve("in/1.edi"), ("orders", "in/1.edi"));
    assert_eq!(near.resolve("gs://theirs"), ("orders", "gs://theirs"));
}

#[test]
fn a_success_is_handed_on_as_it_is() {
    let response = Response::new(299).header("X", "y").body(b"not json");
    assert_eq!(judge(response.clone()), Ok(response));
}
