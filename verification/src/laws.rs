//! What holds of a client and a session together.
//!
//! The contracts of the two sides say what each puts on the wire and what it
//! makes of what came off it. These are the laws of the two in conversation:
//! the calls reach the objects they name, what was stored is read back, a
//! wrong token is refused, and a receive takes every object once.

use vstd::prelude::*;

use crate::arrived::ArrivedView;
use crate::client;
use crate::client::ClientView;
use crate::error::Failure;
use crate::json;
use crate::json::Json;
use crate::message;
use crate::message::{RequestView, ResponseView};
use crate::percent;
use crate::receiving;
use crate::receiving::{ReceivingView, StageView};
use crate::session;
use crate::session::{Body, EventView, Reply, Route, SessionView};
use crate::text;
use crate::transport;

verus! {

proof fn lemma_encoded_has_no_slash(segment: Seq<char>)
    ensures
        !percent::encoded(segment).contains('/'),
{
    percent::encoding_is_one_segment(segment);
}

/// The path of the objects in a bucket names that bucket and no object.
pub proof fn objects_path_names_the_bucket(bucket: Seq<char>)
    ensures
        session::route(client::objects_path(bucket)) == Some(
            Route { upload: false, bucket, name: None },
        ),
{
    let path = client::objects_path(bucket);
    let encoded = percent::encoded(bucket);
    lemma_literals();
    lemma_encoded_has_no_slash(bucket);
    percent::decoding_undoes_encoding(bucket);
    assert(path == "/storage/v1/b/"@ + (encoded + "/o"@));
    text::lemma_after("/storage/v1/b/"@, encoded + "/o"@);
    text::lemma_find_behind(encoded, "/o"@, seq![]);
    assert(encoded + "/o"@ + Seq::<char>::empty() == encoded + "/o"@);
    assert(path[1] == 's');
}

/// The path of an upload names its bucket, in the upload part of the API.
pub proof fn upload_path_names_the_bucket(bucket: Seq<char>)
    ensures
        session::route("/upload"@ + client::objects_path(bucket)) == Some(
            Route { upload: true, bucket, name: None },
        ),
{
    objects_path_names_the_bucket(bucket);
    lemma_literals();
    text::lemma_after("/upload"@, client::objects_path(bucket));
    assert(client::objects_path(bucket)[1] == 's');
}

/// The path of an object names that object and its bucket, whatever
/// characters the two are written with.
pub proof fn object_path_names_the_object(bucket: Seq<char>, name: Seq<char>)
    ensures
        session::route(client::object_path(bucket, name)) == Some(
            Route { upload: false, bucket, name: Some(name) },
        ),
{
    let path = client::object_path(bucket, name);
    let encoded = percent::encoded(bucket);
    let tail = "/"@ + percent::encoded(name);
    lemma_literals();
    lemma_encoded_has_no_slash(bucket);
    percent::decoding_undoes_encoding(bucket);
    percent::decoding_undoes_encoding(name);
    assert(path == "/storage/v1/b/"@ + (encoded + "/o"@ + tail));
    text::lemma_after("/storage/v1/b/"@, encoded + "/o"@ + tail);
    text::lemma_find_behind(encoded, "/o"@, tail);
    text::lemma_after("/"@, percent::encoded(name));
    assert(path[1] == 's');
}

proof fn lemma_literals()
    ensures
        "/upload"@.len() == 7,
        "/upload"@[1] == 'u',
        "/storage/v1/b/"@.len() == 14,
        "/storage/v1/b/"@[1] == 's',
        "/o"@.len() == 2,
        "/o"@[0] == '/',
        "/"@.len() == 1,
        "/"@[0] == '/',
{
    reveal_strlit("/upload");
    reveal_strlit("/storage/v1/b/");
    reveal_strlit("/o");
    reveal_strlit("/");
}

proof fn lemma_header_names()
    ensures
        text::lowered("Host"@) != text::lowered("authorization"@),
        text::lowered("Content-Type"@) != text::lowered("authorization"@),
        text::lowered("Authorization"@) == text::lowered("authorization"@),
{
    reveal_strlit("Host");
    reveal_strlit("Content-Type");
    reveal_strlit("Authorization");
    reveal_strlit("authorization");
    assert(text::lowered("Host"@).len() != text::lowered("authorization"@).len());
    assert(text::lowered("Content-Type"@).len() != text::lowered("authorization"@).len());
    assert(text::lowered("Authorization"@) =~= text::lowered("authorization"@));
}

/// Whether none of `headers` is an authorization.
spec fn unauthorized(headers: message::Fields) -> bool {
    forall|i: int|
        0 <= i < headers.len() ==> text::lowered(#[trigger] headers[i].0) != text::lowered(
            "authorization"@,
        )
}

proof fn lemma_last_header(headers: message::Fields, value: Seq<char>)
    requires
        unauthorized(headers),
    ensures
        message::header_value(headers.push(("Authorization"@, value)), "authorization"@) == Some(
            value,
        ),
    decreases headers.len(),
{
    let all = headers.push(("Authorization"@, value));
    lemma_header_names();
    if headers.len() > 0 {
        assert(all[0] == headers[0]);
        assert(all.drop_first() == headers.drop_first().push(("Authorization"@, value)));
        assert forall|i: int| 0 <= i < headers.drop_first().len() implies text::lowered(
            #[trigger] headers.drop_first()[i].0,
        ) != text::lowered("authorization"@) by {
            assert(headers.drop_first()[i] == headers[i + 1]);
        }
        lemma_last_header(headers.drop_first(), value);
    }
}

proof fn lemma_bears_token(session: SessionView, client: ClientView, request: RequestView)
    requires
        unauthorized(request.headers),
    ensures
        session::bears_token(session, client::addressed(client, request)) == (session.token
            == client.token),
{
    lemma_header_names();
    let headers = request.headers.push(("Host"@, client.host));
    assert(unauthorized(headers));
    lemma_last_header(headers, "Bearer "@ + client.token);
    if "Bearer "@ + client.token == "Bearer "@ + session.token {
        text::lemma_after("Bearer "@, client.token);
        text::lemma_after("Bearer "@, session.token);
    }
}

/// Whether `request` is one of the four that `client` makes.
pub open spec fn is_call(client: ClientView, request: RequestView) -> bool {
    ||| exists|bucket: Seq<char>, prefix: Seq<char>|
        request == #[trigger] client::list_request(client, bucket, prefix)
    ||| exists|bucket: Seq<char>, name: Seq<char>|
        request == #[trigger] client::get_request(client, bucket, name)
    ||| exists|bucket: Seq<char>, name: Seq<char>, bytes: Seq<u8>|
        request == #[trigger] client::put_request(client, bucket, name, bytes)
    ||| exists|bucket: Seq<char>, name: Seq<char>|
        request == #[trigger] client::delete_request(client, bucket, name)
}

/// A session knows a client's calls by the token alone.
pub proof fn calls_present_the_token(session: SessionView, client: ClientView, request: RequestView)
    requires
        is_call(client, request),
    ensures
        session::bears_token(session, request) == (session.token == client.token),
{
    lemma_header_names();
    if exists|bucket: Seq<char>, prefix: Seq<char>|
        request == #[trigger] client::list_request(client, bucket, prefix) {
        let (bucket, prefix) = choose|bucket: Seq<char>, prefix: Seq<char>|
            request == #[trigger] client::list_request(client, bucket, prefix);
        let bare = RequestView {
            method: "GET"@,
            path: client::objects_path(bucket),
            query: seq![("prefix"@, prefix)],
            headers: seq![],
            body: seq![],
        };
        lemma_bears_token(session, client, bare);
    } else if exists|bucket: Seq<char>, name: Seq<char>|
        request == #[trigger] client::get_request(client, bucket, name) {
        let (bucket, name) = choose|bucket: Seq<char>, name: Seq<char>|
            request == #[trigger] client::get_request(client, bucket, name);
        let bare = RequestView {
            method: "GET"@,
            path: client::object_path(bucket, name),
            query: seq![("alt"@, "media"@)],
            headers: seq![],
            body: seq![],
        };
        lemma_bears_token(session, client, bare);
    } else if exists|bucket: Seq<char>, name: Seq<char>, bytes: Seq<u8>|
        request == #[trigger] client::put_request(client, bucket, name, bytes) {
        let (bucket, name, bytes) = choose|bucket: Seq<char>, name: Seq<char>, bytes: Seq<u8>|
            request == #[trigger] client::put_request(client, bucket, name, bytes);
        let bare = RequestView {
            method: "POST"@,
            path: "/upload"@ + client::objects_path(bucket),
            query: seq![("uploadType"@, "media"@), ("name"@, name)],
            headers: seq![("Content-Type"@, "application/octet-stream"@)],
            body: bytes,
        };
        lemma_bears_token(session, client, bare);
    } else {
        let (bucket, name) = choose|bucket: Seq<char>, name: Seq<char>|
            request == #[trigger] client::delete_request(client, bucket, name);
        let bare = RequestView {
            method: "DELETE"@,
            path: client::object_path(bucket, name),
            query: seq![],
            headers: seq![],
            body: seq![],
        };
        lemma_bears_token(session, client, bare);
    }
}

/// A client reads in a refusal the status and message that it was given.
pub proof fn refusals_are_read_as_given(
    session: SessionView,
    status: u16,
    reason: Seq<char>,
    message: Seq<char>,
    response: ResponseView,
)
    requires
        !client::is_success(status),
        session::carries(response, session::refusal(session, status, reason, message).reply),
    ensures
        client::judged(response) == Err::<ResponseView, Failure>(client::answered_with(status, message)),
{
    reveal_strlit("error");
    reveal_strlit("message");
    reveal_strlit("code");
    reveal_strlit("errors");
    assert("message"@.len() != "errors"@.len());
    let document = session::error_document(status, reason, message);
    let error = json::member(document, "error"@);
    assert(json::member(error, "message"@) == Json::Text(message));
}

/// A wrong token is refused with the API's own status and message, whichever
/// of the four calls it is presented with; nothing changes, and the call is
/// not worth repeating.
pub proof fn a_wrong_token_is_refused(
    session: SessionView,
    client: ClientView,
    request: RequestView,
    response: ResponseView,
)
    requires
        is_call(client, request),
        session.token != client.token,
        session::carries(response, session::answer_to(session, request).reply),
    ensures
        session::answer_to(session, request).session == session,
        session::answer_to(session, request).event == EventView::Refused("authError"@),
        client::judged(response) == Err::<ResponseView, Failure>(
            client::answered_with(401, "Invalid Credentials"@),
        ),
        !client::answered_with(401, "Invalid Credentials"@).retryable,
{
    calls_present_the_token(session, client, request);
    refusals_are_read_as_given(session, 401, "authError"@, "Invalid Credentials"@, response);
}

/// A request without the session's token, whatever else it is, is refused and
/// changes nothing.
pub proof fn no_request_passes_without_the_token(session: SessionView, request: RequestView)
    requires
        !session::bears_token(session, request),
    ensures
        session::answer_to(session, request) == session::refusal(
            session,
            401,
            "authError"@,
            "Invalid Credentials"@,
        ),
{
}

/// With the token, a listing is answered with the bucket and prefix it names.
pub proof fn list_reaches_the_session(
    session: SessionView,
    client: ClientView,
    bucket: Seq<char>,
    prefix: Seq<char>,
)
    requires
        session.token == client.token,
    ensures
        ({
            let request = client::list_request(client, bucket, prefix);
            let answer = session::answer_to(session, request);
            &&& answer == session::list_answer(session, bucket, request)
            &&& answer.session == session
            &&& answer.event == EventView::Listed { bucket, prefix }
        }),
{
    let request = client::list_request(client, bucket, prefix);
    lemma_methods();
    calls_present_the_token(session, client, request);
    objects_path_names_the_bucket(bucket);
    assert(request.query[0] == ("prefix"@, prefix));
}

/// With the token, a fetch is answered with the object it names.
pub proof fn get_reaches_the_session(
    session: SessionView,
    client: ClientView,
    bucket: Seq<char>,
    name: Seq<char>,
)
    requires
        session.token == client.token,
    ensures
        session::answer_to(session, client::get_request(client, bucket, name))
            == session::get_answer(session, bucket, name),
{
    lemma_methods();
    calls_present_the_token(session, client, client::get_request(client, bucket, name));
    object_path_names_the_object(bucket, name);
}

/// With the token, an upload is stored under the name it gives.
pub proof fn put_reaches_the_session(
    session: SessionView,
    client: ClientView,
    bucket: Seq<char>,
    name: Seq<char>,
    bytes: Seq<u8>,
)
    requires
        session.token == client.token,
    ensures
        ({
            let answer = session::answer_to(
                session,
                client::put_request(client, bucket, name, bytes),
            );
            let origin_uri = session::origin_uri(bucket, name);
            &&& answer.session == SessionView {
                objects: session.objects.insert(session::key(bucket, name), bytes),
                ..session
            }
            &&& answer.event == EventView::Stored(ArrivedView { origin_uri, bytes })
            &&& answer.reply == Reply {
                status: 200,
                body: Body::Document(session::resource_document(bucket, name, bytes.len())),
            }
        }),
{
    let request = client::put_request(client, bucket, name, bytes);
    lemma_methods();
    calls_present_the_token(session, client, request);
    upload_path_names_the_bucket(bucket);
    reveal_strlit("uploadType");
    reveal_strlit("name");
    assert(request.query[0] == ("uploadType"@, "media"@));
    assert(request.query.drop_first()[0] == ("name"@, name));
    assert("uploadType"@.len() != "name"@.len());
    reveal_with_fuel(message::query_value, 2);
}

/// With the token, a deletion is answered about the object it names.
pub proof fn delete_reaches_the_session(
    session: SessionView,
    client: ClientView,
    bucket: Seq<char>,
    name: Seq<char>,
)
    requires
        session.token == client.token,
    ensures
        session::answer_to(session, client::delete_request(client, bucket, name))
            == session::delete_answer(session, bucket, name),
{
    lemma_methods();
    calls_present_the_token(session, client, client::delete_request(client, bucket, name));
    object_path_names_the_object(bucket, name);
}

proof fn lemma_methods()
    ensures
        "GET"@ != "POST"@,
        "GET"@ != "DELETE"@,
        "POST"@ != "DELETE"@,
{
    reveal_strlit("GET");
    reveal_strlit("POST");
    reveal_strlit("DELETE");
    assert("GET"@.len() != "POST"@.len());
    assert("GET"@.len() != "DELETE"@.len());
    assert("POST"@.len() != "DELETE"@.len());
}

/// What a client puts, it gets back: the put is taken, and a get of the same
/// object comes to the same bytes.
pub proof fn what_is_put_is_got_back(
    session: SessionView,
    client: ClientView,
    bucket: Seq<char>,
    name: Seq<char>,
    bytes: Seq<u8>,
    taken: ResponseView,
    media: ResponseView,
)
    requires
        session.token == client.token,
        ({
            let put = session::answer_to(
                session,
                client::put_request(client, bucket, name, bytes),
            );
            let get = session::answer_to(put.session, client::get_request(client, bucket, name));
            session::carries(taken, put.reply) && session::carries(media, get.reply)
        }),
    ensures
        client::judged(taken) is Ok,
        client::judged(media) is Ok,
        media.body == bytes,
{
    let put = session::answer_to(session, client::put_request(client, bucket, name, bytes));
    put_reaches_the_session(session, client, bucket, name, bytes);
    get_reaches_the_session(put.session, client, bucket, name);
}

/// What was deleted is gone: the deletion is done, a get of the object fails
/// with its name, and no other object changes.
pub proof fn what_is_deleted_is_gone(
    session: SessionView,
    client: ClientView,
    bucket: Seq<char>,
    name: Seq<char>,
    gone: ResponseView,
    missing: ResponseView,
)
    requires
        session.token == client.token,
        session.objects.contains_key(session::key(bucket, name)),
        ({
            let delete = session::answer_to(session, client::delete_request(client, bucket, name));
            let get = session::answer_to(delete.session, client::get_request(client, bucket, name));
            session::carries(gone, delete.reply) && session::carries(missing, get.reply)
        }),
    ensures
        client::judged(gone) is Ok,
        client::judged(missing) == Err::<ResponseView, Failure>(
            client::answered_with(404, "No such object: "@ + session::key(bucket, name)),
        ),
        session::answer_to(session, client::delete_request(client, bucket, name)).session
            == (SessionView {
            objects: session.objects.remove(session::key(bucket, name)),
            ..session
        }),
{
    let delete = session::answer_to(session, client::delete_request(client, bucket, name));
    delete_reaches_the_session(session, client, bucket, name);
    get_reaches_the_session(delete.session, client, bucket, name);
    refusals_are_read_as_given(
        delete.session,
        404,
        "notFound"@,
        "No such object: "@ + session::key(bucket, name),
        missing,
    );
}

proof fn lemma_item_names(
    objects: Map<Seq<char>, Seq<u8>>,
    bucket: Seq<char>,
    listed: Seq<Seq<char>>,
)
    ensures
        client::item_names(session::resources(objects, bucket, listed)) == listed,
    decreases listed.len(),
{
    let items = session::resources(objects, bucket, listed);
    if listed.len() > 0 {
        reveal_strlit("kind");
        reveal_strlit("name");
        reveal_strlit("bucket");
        reveal_strlit("size");
        lemma_item_names(objects, bucket, listed.drop_last());
        assert(items.drop_last() == session::resources(objects, bucket, listed.drop_last()));
        assert("name"@[0] != "size"@[0] && "name"@[0] != "kind"@[0]);
        assert("name"@.len() != "bucket"@.len());
        assert(json::member(items.last(), "name"@) == Json::Text(listed.last()));
        assert(listed == listed.drop_last().push(listed.last()));
    }
}

/// A client reads in a listing the names that the session holds in the bucket
/// under the prefix, each once and in order.
pub proof fn a_listing_names_what_is_held(
    session: SessionView,
    client: ClientView,
    bucket: Seq<char>,
    prefix: Seq<char>,
    response: ResponseView,
)
    requires
        session.token == client.token,
        session.objects.dom().finite(),
        session::carries(
            response,
            session::answer_to(session, client::list_request(client, bucket, prefix)).reply,
        ),
    ensures
        ({
            let listed = session::names_under(session.objects, bucket, prefix);
            &&& client::listed_in(response) == Ok::<Seq<Seq<char>>, Failure>(listed)
            &&& text::increasing(listed)
            &&& forall|name: Seq<char>| #[trigger]
                listed.contains(name) <==> prefix.is_prefix_of(name)
                    && session.objects.contains_key(session::key(bucket, name))
        }),
{
    list_reaches_the_session(session, client, bucket, prefix);
    let listed = session::names_under(session.objects, bucket, prefix);
    let items = session::resources(session.objects, bucket, listed);
    let document = session::listing_document(items);
    lemma_names_finite(session.objects, bucket, prefix);
    text::in_order_holds_each_once(session::names(session.objects, bucket, prefix));
    lemma_item_names(session.objects, bucket, listed);
    reveal_strlit("kind");
    reveal_strlit("items");
    assert("kind"@.len() != "items"@.len());
    assert(client::is_listing(document));
    assert(client::listed_names(document) == listed);
}

pub(crate) proof fn lemma_names_finite(
    objects: Map<Seq<char>, Seq<u8>>,
    bucket: Seq<char>,
    prefix: Seq<char>,
)
    requires
        objects.dom().finite(),
    ensures
        session::names(objects, bucket, prefix).finite(),
{
    let start = bucket + "/"@;
    let behind = |key: Seq<char>| key.skip(start.len() as int);
    let all = objects.dom().map(behind);
    objects.dom().lemma_map_finite(behind);
    assert forall|name: Seq<char>| session::names(objects, bucket, prefix).contains(
        name,
    ) implies #[trigger] all.contains(name) by {
        assert(behind(session::key(bucket, name)) == name);
        assert(objects.dom().contains(session::key(bucket, name)));
    }
    vstd::set_lib::lemma_set_subset_finite(all, session::names(objects, bucket, prefix));
}

/// A refusal, for whatever reason, changes nothing; nor does a listing or a
/// fetch.
pub proof fn only_uploads_and_deletions_change_a_session(
    session: SessionView,
    request: RequestView,
)
    requires
        !(session::answer_to(session, request).event is Stored),
        !(session::answer_to(session, request).event is Deleted),
    ensures
        session::answer_to(session, request).session == session,
{
}

/// An answer leaves the token, the timeout and every object other than the one
/// in the event as they were.
pub proof fn an_answer_touches_one_object(
    session: SessionView,
    request: RequestView,
    key: Seq<char>,
)
    requires
        match session::answer_to(session, request).event {
            EventView::Stored(arrived) => arrived.origin_uri != "gs://"@ + key,
            EventView::Deleted(origin_uri) => origin_uri != "gs://"@ + key,
            _ => true,
        },
    ensures
        ({
            let after = session::answer_to(session, request).session;
            &&& after.token == session.token
            &&& after.timeout == session.timeout
            &&& after.objects.contains_key(key) == session.objects.contains_key(key)
            &&& after.objects.contains_key(key) ==> after.objects[key] == session.objects[key]
        }),
{
}

/// The objects after what an event says was done to them.
pub open spec fn after_event(
    objects: Map<Seq<char>, Seq<u8>>,
    event: EventView,
) -> Map<Seq<char>, Seq<u8>> {
    match event {
        EventView::Stored(arrived) => objects.insert(
            arrived.origin_uri.skip("gs://"@.len() as int),
            arrived.bytes,
        ),
        EventView::Deleted(origin_uri) => objects.remove(
            origin_uri.skip("gs://"@.len() as int),
        ),
        _ => objects,
    }
}

/// The objects after these events, in their order.
pub open spec fn after_events(
    objects: Map<Seq<char>, Seq<u8>>,
    events: Seq<EventView>,
) -> Map<Seq<char>, Seq<u8>>
    decreases events.len(),
{
    if events.len() == 0 {
        objects
    } else {
        after_events(after_event(objects, events[0]), events.drop_first())
    }
}

/// The session after it has answered these requests, in their order.
pub open spec fn served(session: SessionView, requests: Seq<RequestView>) -> SessionView
    decreases requests.len(),
{
    if requests.len() == 0 {
        session
    } else {
        served(session::answer_to(session, requests[0]).session, requests.drop_first())
    }
}

/// The events of answering these requests, in their order.
pub open spec fn events_of(session: SessionView, requests: Seq<RequestView>) -> Seq<EventView>
    decreases requests.len(),
{
    if requests.len() == 0 {
        seq![]
    } else {
        let answer = session::answer_to(session, requests[0]);
        seq![answer.event] + events_of(answer.session, requests.drop_first())
    }
}

/// After any requests, a session holds what it held before them with every
/// upload and deletion it reported applied in order, and expects what it
/// expected.
pub proof fn a_session_holds_what_its_events_say(
    session: SessionView,
    requests: Seq<RequestView>,
)
    ensures
        served(session, requests) == (SessionView {
            objects: after_events(session.objects, events_of(session, requests)),
            ..session
        }),
        events_of(session, requests).len() == requests.len(),
    decreases requests.len(),
{
    if requests.len() > 0 {
        let answer = session::answer_to(session, requests[0]);
        lemma_answer_applies_event(session, requests[0]);
        a_session_holds_what_its_events_say(answer.session, requests.drop_first());
        let events = events_of(session, requests);
        assert(events[0] == answer.event);
        assert(events.drop_first() == events_of(answer.session, requests.drop_first()));
    }
}

proof fn lemma_answer_applies_event(session: SessionView, request: RequestView)
    ensures
        session::answer_to(session, request).session == (SessionView {
            objects: after_event(
                session.objects,
                session::answer_to(session, request).event,
            ),
            ..session
        }),
{
    assert forall|bucket: Seq<char>, name: Seq<char>| #[trigger]
        session::origin_uri(bucket, name).skip("gs://"@.len() as int) == session::key(
            bucket,
            name,
        ) by {
        text::lemma_after("gs://"@, session::key(bucket, name));
    }
}

/// An event that is no refusal is answered 2xx, and a refusal is not.
pub proof fn events_and_statuses_agree(session: SessionView, request: RequestView)
    ensures
        client::is_success(session::answer_to(session, request).reply.status)
            == !(session::answer_to(session, request).event is Refused),
{
}

/// The origin URI of an object is a target that names it, from any transport,
/// where its bucket is written without a slash.
pub proof fn an_origin_is_a_target(own: Seq<char>, bucket: Seq<char>, name: Seq<char>)
    requires
        !bucket.contains('/'),
    ensures
        transport::resolved(own, session::origin_uri(bucket, name)) == (bucket, name),
{
    lemma_literals();
    text::lemma_after("gs://"@, session::key(bucket, name));
    text::lemma_find_behind(bucket, "/"@, name);
}

/// A target that does not start as an origin URI is a name alone, in the
/// transport's own bucket.
pub proof fn a_name_alone_is_in_the_own_bucket(own: Seq<char>, target: Seq<char>)
    requires
        !"gs://"@.is_prefix_of(target),
    ensures
        transport::resolved(own, target) == (own, target),
{
}

/// Whatever the service answers, a receive asks to delete an object only when
/// the exchange before has brought its bytes.
pub proof fn a_deletion_follows_its_fetch(
    receiving: ReceivingView,
    exchange: Result<ResponseView, Failure>,
)
    requires
        receiving::advanced(receiving, exchange).stage is Deleting,
        !(receiving.stage is Deleting),
    ensures
        receiving.stage is Fetching,
        exchange is Ok,
        client::is_success(exchange->Ok_0.status),
        receiving::advanced(receiving, exchange).stage == (StageView::Deleting {
            names: receiving.stage->Fetching_names,
            bytes: exchange->Ok_0.body,
        }),
{
}

/// A receive that is over stays as it is.
pub proof fn a_receive_that_is_over_stays_over(
    receiving: ReceivingView,
    exchange: Result<ResponseView, Failure>,
)
    requires
        receiving::next_request(receiving) is None,
    ensures
        receiving::advanced(receiving, exchange) == receiving,
{
}

/// Whether `responses` are what a receive is answered by a session, exchange
/// by exchange.
pub open spec fn exchanged(
    receiving: ReceivingView,
    session: SessionView,
    responses: Seq<ResponseView>,
) -> bool
    decreases responses.len(),
{
    responses.len() == 0 || match receiving::next_request(receiving) {
        Some(request) => {
            let answer = session::answer_to(session, request);
            &&& session::carries(responses[0], answer.reply)
            &&& exchanged(
                receiving::answered(receiving, responses[0]),
                answer.session,
                responses.drop_first(),
            )
        },
        None => false,
    }
}

/// The receive after these responses.
pub open spec fn receiving_after(
    receiving: ReceivingView,
    responses: Seq<ResponseView>,
) -> ReceivingView
    decreases responses.len(),
{
    if responses.len() == 0 {
        receiving
    } else {
        receiving_after(receiving::answered(receiving, responses[0]), responses.drop_first())
    }
}

/// The session after it was asked what the receive asks over these responses.
pub open spec fn session_after(
    receiving: ReceivingView,
    session: SessionView,
    responses: Seq<ResponseView>,
) -> SessionView
    decreases responses.len(),
{
    match receiving::next_request(receiving) {
        Some(request) if responses.len() > 0 => session_after(
            receiving::answered(receiving, responses[0]),
            session::answer_to(session, request).session,
            responses.drop_first(),
        ),
        _ => session,
    }
}

/// The Streams of the objects called `names`.
pub open spec fn streams_of(
    objects: Map<Seq<char>, Seq<u8>>,
    bucket: Seq<char>,
    names: Seq<Seq<char>>,
) -> Seq<ArrivedView> {
    names.map_values(
        |name: Seq<char>|
            ArrivedView {
                origin_uri: session::origin_uri(bucket, name),
                bytes: objects[session::key(bucket, name)],
            },
    )
}

/// The objects without those called `names`.
pub open spec fn without(
    objects: Map<Seq<char>, Seq<u8>>,
    bucket: Seq<char>,
    names: Seq<Seq<char>>,
) -> Map<Seq<char>, Seq<u8>>
    decreases names.len(),
{
    if names.len() == 0 {
        objects
    } else {
        without(objects.remove(session::key(bucket, names[0])), bucket, names.drop_first())
    }
}

proof fn lemma_drained(
    receiving: ReceivingView,
    session: SessionView,
    names: Seq<Seq<char>>,
    responses: Seq<ResponseView>,
)
    requires
        session.token == receiving.client.token,
        receiving.stage == receiving::left(names),
        names.no_duplicates(),
        forall|i: int|
            0 <= i < names.len() ==> session.objects.contains_key(
                #[trigger] session::key(receiving.bucket, names[i]),
            ),
        exchanged(receiving, session, responses),
    ensures
        responses.len() <= 2 * names.len(),
        ({
            let end = receiving_after(receiving, responses);
            let over = responses.len() == 2 * names.len();
            &&& receiving::next_request(end) is None <==> over
            &&& over ==> {
                &&& end.stage == StageView::Received
                &&& end.arrived == receiving.arrived + streams_of(
                    session.objects,
                    receiving.bucket,
                    names,
                )
                &&& session_after(receiving, session, responses) == SessionView {
                    objects: without(session.objects, receiving.bucket, names),
                    ..session
                }
            }
        }),
    decreases names.len(),
{
    let client = receiving.client;
    let bucket = receiving.bucket;
    if names.len() == 0 {
        assert(streams_of(session.objects, bucket, names) == Seq::<ArrivedView>::empty());
        assert(receiving.arrived + Seq::<ArrivedView>::empty() == receiving.arrived);
    } else if responses.len() > 0 {
        assert(session.objects.contains_key(session::key(bucket, names[0])));
        let bytes = session.objects[session::key(bucket, names[0])];
        get_reaches_the_session(session, client, bucket, names[0]);
        let fetched = receiving::answered(receiving, responses[0]);
        assert(fetched.stage == StageView::Deleting { names, bytes });
        let rest = responses.drop_first();
        reveal_with_fuel(exchanged, 2);
        reveal_with_fuel(receiving_after, 2);
        reveal_with_fuel(session_after, 2);
        if rest.len() > 0 {
            delete_reaches_the_session(session, client, bucket, names[0]);
            let deleted = receiving::answered(fetched, rest[0]);
            let left = names.drop_first();
            let after = session::answer_to(
                session,
                client::delete_request(client, bucket, names[0]),
            ).session;
            assert forall|i: int| 0 <= i < left.len() implies after.objects.contains_key(
                #[trigger] session::key(bucket, left[i]),
            ) by {
                assert(left[i] == names[i + 1]);
                assert(session.objects.contains_key(session::key(bucket, names[i + 1])));
                if session::key(bucket, left[i]) == session::key(bucket, names[0]) {
                    session::one_key_is_one_name(bucket, left[i], names[0]);
                }
            }
            lemma_drained(deleted, after, left, rest.drop_first());
            let stream = ArrivedView {
                origin_uri: session::origin_uri(bucket, names[0]),
                bytes,
            };
            assert(streams_of(session.objects, bucket, names) == seq![stream] + streams_of(
                after.objects,
                bucket,
                left,
            )) by {
                assert forall|i: int| 0 <= i < left.len() implies after.objects[session::key(
                    bucket,
                    #[trigger] left[i],
                )] == session.objects[session::key(bucket, names[i + 1])] by {
                    assert(left[i] == names[i + 1]);
                    if session::key(bucket, left[i]) == session::key(bucket, names[0]) {
                        session::one_key_is_one_name(bucket, left[i], names[0]);
                    }
                }
            }
            assert(receiving.arrived.push(stream) + streams_of(after.objects, bucket, left)
                == receiving.arrived + streams_of(session.objects, bucket, names));
        }
    }
}

proof fn lemma_without(
    objects: Map<Seq<char>, Seq<u8>>,
    bucket: Seq<char>,
    names: Seq<Seq<char>>,
    key: Seq<char>,
)
    ensures
        without(objects, bucket, names).contains_key(key) <==> objects.contains_key(key) && !(
        exists|i: int| 0 <= i < names.len() && key == session::key(bucket, #[trigger] names[i])),
        without(objects, bucket, names).contains_key(key) ==> without(objects, bucket, names)[key]
            == objects[key],
    decreases names.len(),
{
    if names.len() > 0 {
        let rest = names.drop_first();
        lemma_without(objects.remove(session::key(bucket, names[0])), bucket, rest, key);
        if exists|i: int| 0 <= i < rest.len() && key == session::key(bucket, #[trigger] rest[i]) {
            let i = choose|i: int|
                0 <= i < rest.len() && key == session::key(bucket, #[trigger] rest[i]);
            assert(names[i + 1] == rest[i]);
        }
        if exists|i: int| 0 <= i < names.len() && key == session::key(bucket, #[trigger] names[i]) {
            let i = choose|i: int|
                0 <= i < names.len() && key == session::key(bucket, #[trigger] names[i]);
            if i > 0 {
                assert(rest[i - 1] == names[i]);
            }
        }
    }
}

/// A receive from a session that expects its token is over after the listing
/// and two exchanges for each object in the bucket under the prefix, no sooner
/// and no later. Then each of these objects has arrived, once, with its origin
/// and its bytes, in the order of the names; the session holds none of them
/// any more, and everything else as before.
pub proof fn a_receive_takes_every_object_once(
    client: ClientView,
    bucket: Seq<char>,
    prefix: Seq<char>,
    session: SessionView,
    responses: Seq<ResponseView>,
)
    requires
        session.token == client.token,
        session.objects.dom().finite(),
        exchanged(receiving::begun(client, bucket, prefix), session, responses),
    ensures
        ({
            let start = receiving::begun(client, bucket, prefix);
            let names = session::names_under(session.objects, bucket, prefix);
            let end = receiving_after(start, responses);
            let after = session_after(start, session, responses);
            let over = responses.len() == 1 + 2 * names.len();
            &&& responses.len() <= 1 + 2 * names.len()
            &&& receiving::next_request(end) is None <==> over
            &&& over ==> {
                &&& end.stage == StageView::Received
                &&& end.arrived == streams_of(session.objects, bucket, names)
                &&& after.token == session.token
                &&& after.timeout == session.timeout
                &&& forall|key: Seq<char>| #[trigger]
                    after.objects.contains_key(key) <==> session.objects.contains_key(key)
                        && !is_under(bucket, prefix, key)
                &&& forall|key: Seq<char>| #[trigger]
                    after.objects.contains_key(key) ==> after.objects[key] == session.objects[key]
            }
        }),
{
    let start = receiving::begun(client, bucket, prefix);
    let names = session::names_under(session.objects, bucket, prefix);
    if responses.len() > 0 {
        a_listing_names_what_is_held(session, client, bucket, prefix, responses[0]);
        list_reaches_the_session(session, client, bucket, prefix);
        let listed = receiving::answered(start, responses[0]);
        assert forall|i: int| 0 <= i < names.len() implies session.objects.contains_key(
            #[trigger] session::key(bucket, names[i]),
        ) by {
            assert(names.contains(names[i]));
        }
        lemma_drained(listed, session, names, responses.drop_first());
        assert(Seq::<ArrivedView>::empty() + streams_of(session.objects, bucket, names)
            == streams_of(session.objects, bucket, names));
        if responses.len() == 1 + 2 * names.len() {
            let after = without(session.objects, bucket, names);
            assert forall|key: Seq<char>|
                (#[trigger] after.contains_key(key) <==> session.objects.contains_key(key)
                    && !is_under(bucket, prefix, key)) && (after.contains_key(key) ==> after[key]
                    == session.objects[key]) by {
                lemma_without(session.objects, bucket, names, key);
                if session.objects.contains_key(key) && is_under(bucket, prefix, key) {
                    let name = choose|name: Seq<char>|
                        prefix.is_prefix_of(name) && key == #[trigger] session::key(bucket, name);
                    assert(names.contains(name));
                }
                if exists|i: int|
                    0 <= i < names.len() && key == session::key(bucket, #[trigger] names[i]) {
                    let i = choose|i: int|
                        0 <= i < names.len() && key == session::key(bucket, #[trigger] names[i]);
                    assert(names.contains(names[i]));
                }
            }
        }
    }
}

/// Whether `key` is that of an object in `bucket` under `prefix`.
pub open spec fn is_under(bucket: Seq<char>, prefix: Seq<char>, key: Seq<char>) -> bool {
    exists|name: Seq<char>|
        prefix.is_prefix_of(name) && key == #[trigger] session::key(bucket, name)
}

/// What is sent to a session is received back and deleted: after a client has
/// put an object under the prefix, the receive that is then run to its end
/// brings it, and the session no longer holds it.
pub proof fn what_is_sent_is_received_back_and_deleted(
    client: ClientView,
    bucket: Seq<char>,
    prefix: Seq<char>,
    name: Seq<char>,
    bytes: Seq<u8>,
    session: SessionView,
    responses: Seq<ResponseView>,
)
    requires
        session.token == client.token,
        session.objects.dom().finite(),
        prefix.is_prefix_of(name),
        ({
            let start = receiving::begun(client, bucket, prefix);
            let sent = session::answer_to(
                session,
                client::put_request(client, bucket, name, bytes),
            ).session;
            &&& exchanged(start, sent, responses)
            &&& receiving::next_request(receiving_after(start, responses)) is None
        }),
    ensures
        ({
            let start = receiving::begun(client, bucket, prefix);
            let sent = session::answer_to(
                session,
                client::put_request(client, bucket, name, bytes),
            ).session;
            let end = receiving_after(start, responses);
            let after = session_after(start, sent, responses);
            &&& end.stage == StageView::Received
            &&& end.arrived.contains(
                ArrivedView { origin_uri: session::origin_uri(bucket, name), bytes },
            )
            &&& !after.objects.contains_key(session::key(bucket, name))
        }),
{
    let sent = session::answer_to(
        session,
        client::put_request(client, bucket, name, bytes),
    ).session;
    put_reaches_the_session(session, client, bucket, name, bytes);
    a_receive_takes_every_object_once(client, bucket, prefix, sent, responses);
    let names = session::names_under(sent.objects, bucket, prefix);
    lemma_names_finite(sent.objects, bucket, prefix);
    text::in_order_holds_each_once(session::names(sent.objects, bucket, prefix));
    assert(names.contains(name));
    let i = choose|i: int| 0 <= i < names.len() && names[i] == name;
    assert(streams_of(sent.objects, bucket, names)[i] == ArrivedView {
        origin_uri: session::origin_uri(bucket, name),
        bytes,
    });
    assert(is_under(bucket, prefix, session::key(bucket, name)));
}

} // verus!
