//! The far end: enough of the JSON API to answer one Location, and what a
//! test or the playground puts on loopback.
//!
//! Not Cloud Storage. One session holds objects in memory, checks every
//! request for one bearer token, and answers the four calls with the shapes
//! the API answers them: the object list, the media, the object resource, the
//! error with its reason. A Location that needs durability, generations or a
//! token it obtains itself talks to the service through
//! [`Client`](crate::client::Client).

use std::time::Duration;

use serde_json::Value;
use vstd::prelude::*;
use vstd::utf8;

use crate::arrived::{Arrived, ArrivedView};
use crate::error;
use crate::error::TransportError;
use crate::json;
use crate::json::Json;
use crate::message;
use crate::message::{copied, Request, RequestView, Response, ResponseView};
use crate::objects;
use crate::objects::Objects;
use crate::percent;
use crate::text;

verus! {

/// The header that a session reads.
pub const AUTHORIZATION: &'static str = "authorization";

/// The parameters that a session reads.
pub const PREFIX: &'static str = "prefix";

pub const UPLOAD_TYPE: &'static str = "uploadType";

pub const NAME: &'static str = "name";

/// What the client did, as [`Session::serve_one`] reports it.
#[derive(Clone, Debug, PartialEq, Eq)]
pub enum Event {
    /// The client listed `prefix` in `bucket`.
    Listed { bucket: String, prefix: String },
    /// The client fetched this object.
    Retrieved(String),
    /// The client uploaded an object; here is the Stream.
    Stored(Arrived),
    /// The client deleted this object.
    Deleted(String),
    /// The client was answered with this error reason.
    Refused(String),
}

/// What an [`Event`] says.
#[verifier::ext_equal]
pub enum EventView {
    Listed { bucket: Seq<char>, prefix: Seq<char> },
    Retrieved(Seq<char>),
    Stored(ArrivedView),
    Deleted(Seq<char>),
    Refused(Seq<char>),
}

impl View for Event {
    type V = EventView;

    open spec fn view(&self) -> EventView {
        match self {
            Event::Listed { bucket, prefix } => EventView::Listed {
                bucket: bucket@,
                prefix: prefix@,
            },
            Event::Retrieved(origin) => EventView::Retrieved(origin@),
            Event::Stored(arrived) => EventView::Stored(arrived@),
            Event::Deleted(origin) => EventView::Deleted(origin@),
            Event::Refused(reason) => EventView::Refused(reason@),
        }
    }
}

/// A far end in memory.
pub struct Session {
    token: String,
    objects: Objects,
    timeout: Option<Duration>,
}

/// What a [`Session`] expects and holds: the objects by `bucket/name`.
#[verifier::ext_equal]
pub struct SessionView {
    pub token: Seq<char>,
    pub objects: Map<Seq<char>, Seq<u8>>,
    pub timeout: Option<Duration>,
}

impl View for Session {
    type V = SessionView;

    closed spec fn view(&self) -> SessionView {
        SessionView { token: self.token@, objects: self.objects@, timeout: self.timeout }
    }
}

/// The body of a reply: none, an object's bytes, or a document.
pub enum Body {
    Empty,
    Media(Seq<u8>),
    Document(Json),
}

/// What the far end replies.
pub struct Reply {
    pub status: u16,
    pub body: Body,
}

/// Whether `response` is how `reply` goes out: media and documents under their
/// content types, a document in the text that reads back as it.
pub open spec fn carries(response: ResponseView, reply: Reply) -> bool {
    &&& response.status == reply.status
    &&& match reply.body {
        Body::Empty => {
            &&& response.headers == Seq::<(Seq<char>, Seq<char>)>::empty()
            &&& response.body == Seq::<u8>::empty()
        },
        Body::Media(bytes) => {
            &&& response.headers == seq![("Content-Type"@, "application/octet-stream"@)]
            &&& response.body == bytes
        },
        Body::Document(document) => {
            &&& response.headers == seq![("Content-Type"@, "application/json; charset=UTF-8"@)]
            &&& response.body == utf8::encode_utf8(json::rendered(document))
            &&& json::reads(response.body, document)
        },
    }
}

/// The key of the object `name` in `bucket`.
pub open spec fn key(bucket: Seq<char>, name: Seq<char>) -> Seq<char> {
    bucket + "/"@ + name
}

/// The object `name` in `bucket` in the protocol's own terms.
pub open spec fn origin_uri(bucket: Seq<char>, name: Seq<char>) -> Seq<char> {
    "gs://"@ + key(bucket, name)
}

/// The names in `bucket` that start with `prefix`.
pub open spec fn names(
    objects: Map<Seq<char>, Seq<u8>>,
    bucket: Seq<char>,
    prefix: Seq<char>,
) -> Set<Seq<char>> {
    Set::new(
        |name: Seq<char>| objects.contains_key(key(bucket, name)) && prefix.is_prefix_of(name),
    )
}

/// The names in `bucket` that start with `prefix`, in order.
pub open spec fn names_under(
    objects: Map<Seq<char>, Seq<u8>>,
    bucket: Seq<char>,
    prefix: Seq<char>,
) -> Seq<Seq<char>> {
    text::in_order(names(objects, bucket, prefix))
}

/// An object resource: kind, name, bucket, and the size in decimal.
pub open spec fn resource_document(bucket: Seq<char>, name: Seq<char>, size: nat) -> Json {
    Json::Object(
        map![
            "kind"@ => Json::Text("storage#object"@),
            "name"@ => Json::Text(name),
            "bucket"@ => Json::Text(bucket),
            "size"@ => Json::Text(text::decimal(size)),
        ],
    )
}

/// The resources of the objects called `listed` in `bucket`.
pub open spec fn resources(
    objects: Map<Seq<char>, Seq<u8>>,
    bucket: Seq<char>,
    listed: Seq<Seq<char>>,
) -> Seq<Json> {
    listed.map_values(
        |name: Seq<char>| resource_document(bucket, name, objects[key(bucket, name)].len()),
    )
}

/// An object list; it has no items where there are none.
pub open spec fn listing_document(items: Seq<Json>) -> Json {
    let bare = map!["kind"@ => Json::Text("storage#objects"@)];
    if items.len() == 0 {
        Json::Object(bare)
    } else {
        Json::Object(bare.insert("items"@, Json::List(items)))
    }
}

/// An error, with its code, its message, and its reason.
pub open spec fn error_document(status: u16, reason: Seq<char>, message: Seq<char>) -> Json {
    let detail = Json::Object(
        map![
            "message"@ => Json::Text(message),
            "domain"@ => Json::Text("global"@),
            "reason"@ => Json::Text(reason),
        ],
    );
    let error = Json::Object(
        map![
            "code"@ => Json::Whole(status as int),
            "message"@ => Json::Text(message),
            "errors"@ => Json::List(seq![detail]),
        ],
    );
    Json::Object(map!["error"@ => error])
}

/// What a path names: a bucket, an object in it or none, in the upload part of
/// the API or not.
#[verifier::ext_equal]
pub struct Route {
    pub upload: bool,
    pub bucket: Seq<char>,
    pub name: Option<Seq<char>>,
}

/// What `path` names, where it is one of the API's.
pub open spec fn route(path: Seq<char>) -> Option<Route> {
    let (upload, rest) = match text::after(path, "/upload"@) {
        Some(rest) => (true, rest),
        None => (false, path),
    };
    match text::after(rest, "/storage/v1/b/"@) {
        Some(rest) => match text::split(rest, "/o"@) {
            Some((bucket, tail)) => Some(
                Route {
                    upload,
                    bucket: percent::decoded(bucket),
                    name: match text::after(tail, "/"@) {
                        Some(name) => Some(percent::decoded(name)),
                        None => None,
                    },
                },
            ),
            None => None,
        },
        None => None,
    }
}

/// An answer: what the client did, what it is told, and the session after it.
pub struct Answer {
    pub session: SessionView,
    pub event: EventView,
    pub reply: Reply,
}

/// A refusal; it changes nothing.
pub open spec fn refusal(
    session: SessionView,
    status: u16,
    reason: Seq<char>,
    message: Seq<char>,
) -> Answer {
    Answer {
        session,
        event: EventView::Refused(reason),
        reply: Reply { status, body: Body::Document(error_document(status, reason, message)) },
    }
}

/// The answer to a listing.
pub open spec fn list_answer(session: SessionView, bucket: Seq<char>, request: RequestView) -> Answer {
    let prefix = match message::query_value(request.query, "prefix"@) {
        Some(prefix) => prefix,
        None => seq![],
    };
    let listed = names_under(session.objects, bucket, prefix);
    Answer {
        session,
        event: EventView::Listed { bucket, prefix },
        reply: Reply {
            status: 200,
            body: Body::Document(listing_document(resources(session.objects, bucket, listed))),
        },
    }
}

/// The answer about an object that is not held.
pub open spec fn missing_answer(session: SessionView, bucket: Seq<char>, name: Seq<char>) -> Answer {
    refusal(session, 404, "notFound"@, "No such object: "@ + key(bucket, name))
}

/// The answer to a fetch.
pub open spec fn get_answer(session: SessionView, bucket: Seq<char>, name: Seq<char>) -> Answer {
    if session.objects.contains_key(key(bucket, name)) {
        Answer {
            session,
            event: EventView::Retrieved(origin_uri(bucket, name)),
            reply: Reply { status: 200, body: Body::Media(session.objects[key(bucket, name)]) },
        }
    } else {
        missing_answer(session, bucket, name)
    }
}

/// The answer to an upload.
pub open spec fn put_answer(session: SessionView, bucket: Seq<char>, request: RequestView) -> Answer {
    if message::query_value(request.query, "uploadType"@) != Some("media"@) {
        refusal(session, 400, "badRequest"@, "only uploadType=media is served"@)
    } else {
        match message::query_value(request.query, "name"@) {
            Some(name) => Answer {
                session: SessionView {
                    objects: session.objects.insert(key(bucket, name), request.body),
                    ..session
                },
                event: EventView::Stored(
                    ArrivedView { origin_uri: origin_uri(bucket, name), bytes: request.body },
                ),
                reply: Reply {
                    status: 200,
                    body: Body::Document(resource_document(bucket, name, request.body.len())),
                },
            },
            None => refusal(session, 400, "required"@, "Required parameter: name"@),
        }
    }
}

/// The answer to a deletion.
pub open spec fn delete_answer(session: SessionView, bucket: Seq<char>, name: Seq<char>) -> Answer {
    if session.objects.contains_key(key(bucket, name)) {
        Answer {
            session: SessionView {
                objects: session.objects.remove(key(bucket, name)),
                ..session
            },
            event: EventView::Deleted(origin_uri(bucket, name)),
            reply: Reply { status: 204, body: Body::Empty },
        }
    } else {
        missing_answer(session, bucket, name)
    }
}

/// Whether `request` presents the token that `session` expects.
pub open spec fn bears_token(session: SessionView, request: RequestView) -> bool {
    message::header_value(request.headers, "authorization"@) == Some("Bearer "@ + session.token)
}

/// The answer to `request`.
pub open spec fn answer_to(session: SessionView, request: RequestView) -> Answer {
    if !bears_token(session, request) {
        refusal(session, 401, "authError"@, "Invalid Credentials"@)
    } else {
        match route(request.path) {
            Some(Route { upload: false, bucket, name: None }) if request.method == "GET"@ =>
                list_answer(session, bucket, request),
            Some(Route { upload: false, bucket, name: Some(name) }) if request.method == "GET"@ =>
                get_answer(session, bucket, name),
            Some(Route { upload: true, bucket, name: None }) if request.method == "POST"@ =>
                put_answer(session, bucket, request),
            Some(Route { upload: false, bucket, name: Some(name) }) if request.method
                == "DELETE"@ => delete_answer(session, bucket, name),
            Some(_) => refusal(session, 405, "methodNotAllowed"@, "not one of the four calls"@),
            None => refusal(session, 404, "notFound"@, "Not Found"@),
        }
    }
}

/// Whether what happened and what went out are what `answer` says.
pub open spec fn gives(result: (Event, Response), answer: Answer) -> bool {
    &&& result.0@ == answer.event
    &&& carries(result.1@, answer.reply)
}

impl Session {
    /// Answer requests presenting `token`.
    #[must_use]
    pub fn new(token: &str) -> (session: Self)
        ensures
            session@ == (SessionView { token: token@, objects: Map::empty(), timeout: None }),
    {
        Session { token: token.to_string(), objects: Objects::new(), timeout: None }
    }

    /// Give up on a client that stops mid-request after `timeout`.
    #[must_use]
    pub fn timing_out_after(self, timeout: Duration) -> (session: Self)
        ensures
            session@ == (SessionView { timeout: Some(timeout), ..self@ }),
    {
        Session { token: self.token, objects: self.objects, timeout: Some(timeout) }
    }

    /// Hold these objects, keyed `bucket/name`.
    #[must_use]
    pub fn with_objects(self, objects: Objects) -> (session: Self)
        ensures
            session@ == (SessionView { objects: objects@, ..self@ }),
    {
        Session { token: self.token, objects, timeout: self.timeout }
    }

    /// What is held now, keyed `bucket/name`, uploads and deletes included.
    #[must_use]
    pub fn objects(&self) -> (objects: &Objects)
        ensures
            objects@ == self@.objects,
    {
        &self.objects
    }

    /// How long a client may stop mid-request.
    #[must_use]
    pub fn timeout(&self) -> (timeout: Option<Duration>)
        ensures
            timeout == self@.timeout,
    {
        self.timeout
    }

    /// Answer one request, and say what it was.
    pub fn answer(&mut self, request: &Request) -> (result: (Event, Response))
        ensures
            final(self)@ == answer_to(old(self)@, request@).session,
            gives(result, answer_to(old(self)@, request@)),
    {
        let bearer = text::join("Bearer ", self.token.as_str());
        let known = match request.header_value(AUTHORIZATION) {
            Some(presented) => text::same(presented, bearer.as_str()),
            None => false,
        };
        if !known {
            return refused(401, "authError", "Invalid Credentials");
        }
        let (upload, rest) = match text::strip_prefix(request.path.as_str(), "/upload") {
            Some(rest) => (true, rest),
            None => (false, request.path.as_str()),
        };
        let rest = match text::strip_prefix(rest, "/storage/v1/b/") {
            Some(rest) => rest,
            None => {
                return refused(404, "notFound", "Not Found");
            },
        };
        let (bucket, name) = match text::split_once(rest, "/o") {
            Some((bucket, tail)) => match text::strip_prefix(tail, "/") {
                Some(name) => (percent::decode(bucket), Some(percent::decode(name))),
                None => (percent::decode(bucket), None),
            },
            None => {
                return refused(404, "notFound", "Not Found");
            },
        };
        let get = text::same(request.method.as_str(), "GET");
        let post = text::same(request.method.as_str(), "POST");
        let delete = text::same(request.method.as_str(), "DELETE");
        proof {
            reveal_strlit("GET");
            reveal_strlit("POST");
            reveal_strlit("DELETE");
        }
        match name {
            None => {
                if get && !upload {
                    self.list(bucket.as_str(), request)
                } else if post && upload {
                    self.put(bucket.as_str(), request)
                } else {
                    refused(405, "methodNotAllowed", "not one of the four calls")
                }
            },
            Some(name) => {
                if get && !upload {
                    self.get(bucket.as_str(), name.as_str())
                } else if delete && !upload {
                    self.delete(bucket.as_str(), name.as_str())
                } else {
                    refused(405, "methodNotAllowed", "not one of the four calls")
                }
            },
        }
    }

    /// Answer the one request of a connection, and say what it was.
    ///
    /// # Errors
    /// Where the connection sent nothing.
    pub fn serve_one(&mut self, request: Option<&Request>) -> (result: Result<
        (Event, Response),
        TransportError,
    >)
        ensures
            match (request, result) {
                (Some(request), Ok(answered)) => {
                    &&& final(self)@ == answer_to(old(self)@, request@).session
                    &&& gives(answered, answer_to(old(self)@, request@))
                },
                (None, Err(error)) => {
                    &&& final(self)@ == old(self)@
                    &&& error@ == error::protocol_failure("a connection that sent no request"@)
                },
                _ => false,
            },
    {
        match request {
            Some(request) => Ok(self.answer(request)),
            None => Err(error::protocol_error("a connection that sent no request")),
        }
    }

    fn get(&self, bucket: &str, name: &str) -> (result: (Event, Response))
        ensures
            gives(result, get_answer(self@, bucket@, name@)),
    {
        match self.objects.get(object_key(bucket, name).as_str()) {
            Some(bytes) => (
                Event::Retrieved(origin(bucket, name)),
                Response::new(200).header("Content-Type", "application/octet-stream").body(
                    bytes.as_slice(),
                ),
            ),
            None => missing(bucket, name),
        }
    }

    fn put(&mut self, bucket: &str, request: &Request) -> (result: (Event, Response))
        ensures
            final(self)@ == put_answer(old(self)@, bucket@, request@).session,
            gives(result, put_answer(old(self)@, bucket@, request@)),
    {
        let media = match request.query_value(UPLOAD_TYPE) {
            Some(kind) => text::same(kind, "media"),
            None => false,
        };
        if !media {
            return refused(400, "badRequest", "only uploadType=media is served");
        }
        let name = match request.query_value(NAME) {
            Some(name) => name,
            None => {
                return refused(400, "required", "Required parameter: name");
            },
        };
        self.objects.insert(
            object_key(bucket, name).as_str(),
            copied(request.body.as_slice()),
        );
        let arrived = Arrived::new(origin(bucket, name).as_str(), copied(request.body.as_slice()));
        let document = resource(bucket, name, request.body.len());
        proof {
            lemma_resource_plain(bucket@, name@, request.body@.len(), 127);
        }
        (Event::Stored(arrived), answer(200, &document))
    }

    fn delete(&mut self, bucket: &str, name: &str) -> (result: (Event, Response))
        ensures
            final(self)@ == delete_answer(old(self)@, bucket@, name@).session,
            gives(result, delete_answer(old(self)@, bucket@, name@)),
    {
        match self.objects.remove(object_key(bucket, name).as_str()) {
            Some(_) => (Event::Deleted(origin(bucket, name)), Response::new(204)),
            None => {
                assert(old(self)@.objects.remove(key(bucket@, name@)) == old(self)@.objects);
                missing(bucket, name)
            },
        }
    }

    fn list(&self, bucket: &str, request: &Request) -> (result: (Event, Response))
        ensures
            gives(result, list_answer(self@, bucket@, request@)),
    {
        let prefix = match request.query_value(PREFIX) {
            Some(prefix) => prefix.to_string(),
            None => String::new(),
        };
        let start = text::join(bucket, "/");
        let entries = self.objects.entries();
        let mut items: Vec<Value> = Vec::new();
        let ghost mut listed: Seq<Seq<char>> = seq![];
        let ghost objects = self@.objects;
        let mut at: usize = 0;
        while at < entries.len()
            invariant
                at <= entries@.len(),
                text::increasing(objects::keys(entries@)),
                objects == objects::held(entries@),
                start@ == bucket@ + "/"@,
                json::documents(items@) == resources(objects, bucket@, listed),
                listed_so_far(entries@, at as int, bucket@, prefix@, listed),
            decreases entries@.len() - at,
        {
            let ghost before = listed;
            let ghost items_before = items@;
            proof {
                objects::lemma_held_at(entries@, at as int);
            }
            match text::strip_prefix(entries[at].0.as_str(), start.as_str()) {
                Some(name) => {
                    if text::strip_prefix(name, prefix.as_str()).is_some() {
                        items.push(resource(bucket, name, entries[at].1.len()));
                        proof {
                            listed = listed.push(name@);
                            assert(entries@[at as int].0@ == key(bucket@, name@));
                            lemma_listed_one_more(
                                entries@,
                                at as int,
                                bucket@,
                                prefix@,
                                before,
                                name@,
                            );
                            assert(json::documents(items@) == json::documents(items_before).push(
                                json::json(items@.last()),
                            ));
                            assert(resources(objects, bucket@, listed) == resources(
                                objects,
                                bucket@,
                                before,
                            ).push(
                                resource_document(
                                    bucket@,
                                    name@,
                                    objects[key(bucket@, name@)].len(),
                                ),
                            ));
                        }
                    }
                },
                None => {},
            }
            proof {
                if listed == before {
                    lemma_listed_no_more(entries@, at as int, bucket@, prefix@, before);
                }
            }
            at = at + 1;
        }
        proof {
            lemma_listed_all(entries@, bucket@, prefix@, listed);
            lemma_listing_plain(objects, bucket@, listed);
        }
        let mut listing = json::object();
        json::set(&mut listing, "kind", json::text("storage#objects"));
        if !items.is_empty() {
            json::set(&mut listing, "items", json::list(items));
        }
        let response = answer(200, &listing);
        (Event::Listed { bucket: bucket.to_string(), prefix }, response)
    }
}

/// The object `name` in `bucket` in the protocol's own terms.
pub fn origin(bucket: &str, name: &str) -> (uri: String)
    ensures
        uri@ == origin_uri(bucket@, name@),
{
    text::join("gs://", object_key(bucket, name).as_str())
}

fn object_key(bucket: &str, name: &str) -> (result: String)
    ensures
        result@ == key(bucket@, name@),
{
    text::join(bucket, "/").concat(name)
}

/// An object resource, as much of it as a listing or an upload answer needs.
fn resource(bucket: &str, name: &str, size: usize) -> (document: Value)
    ensures
        json::json(document) == resource_document(bucket@, name@, size as nat),
{
    let mut document = json::object();
    json::set(&mut document, "kind", json::text("storage#object"));
    json::set(&mut document, "name", json::text(name));
    json::set(&mut document, "bucket", json::text(bucket));
    json::set(&mut document, "size", json::text(text::number(size).as_str()));
    document
}

fn answer(status: u16, body: &Value) -> (response: Response)
    requires
        json::plain(json::json(*body), 127),
    ensures
        carries(
            response@,
            (Reply { status, body: Body::Document(json::json(*body)) }),
        ),
{
    let text = json::render(body);
    Response::new(status).header("Content-Type", "application/json; charset=UTF-8").body(
        text.as_str().as_bytes(),
    )
}

fn refused(status: u16, reason: &str, message: &str) -> (result: (Event, Response))
    ensures
        forall|session: SessionView|
            gives(result, #[trigger] refusal(session, status, reason@, message@)),
{
    let mut detail = json::object();
    json::set(&mut detail, "message", json::text(message));
    json::set(&mut detail, "domain", json::text("global"));
    json::set(&mut detail, "reason", json::text(reason));
    let mut details: Vec<Value> = Vec::new();
    details.push(detail);
    assert(json::documents(details@) == seq![json::json(detail)]);
    let mut error = json::object();
    json::set(&mut error, "code", json::whole(status));
    json::set(&mut error, "message", json::text(message));
    json::set(&mut error, "errors", json::list(details));
    let mut body = json::object();
    json::set(&mut body, "error", error);
    proof {
        lemma_error_plain(status, reason@, message@);
    }
    (Event::Refused(reason.to_string()), answer(status, &body))
}

fn missing(bucket: &str, name: &str) -> (result: (Event, Response))
    ensures
        forall|session: SessionView|
            gives(result, #[trigger] missing_answer(session, bucket@, name@)),
{
    let message = text::join("No such object: ", object_key(bucket, name).as_str());
    refused(404, "notFound", message.as_str())
}

/// Whether `listed` are, in order, the names of those of the first `count`
/// entries that are in `bucket` under `prefix`.
spec fn listed_so_far(
    entries: Seq<(String, Vec<u8>)>,
    count: int,
    bucket: Seq<char>,
    prefix: Seq<char>,
    listed: Seq<Seq<char>>,
) -> bool {
    &&& text::increasing(listed)
    &&& forall|name: Seq<char>| #[trigger]
        listed.contains(name) <==> prefix.is_prefix_of(name) && objects::keys(entries).take(
            count,
        ).contains(key(bucket, name))
}

proof fn lemma_listed_one_more(
    entries: Seq<(String, Vec<u8>)>,
    at: int,
    bucket: Seq<char>,
    prefix: Seq<char>,
    listed: Seq<Seq<char>>,
    name: Seq<char>,
)
    requires
        0 <= at < entries.len(),
        text::increasing(objects::keys(entries)),
        listed_so_far(entries, at, bucket, prefix, listed),
        entries[at].0@ == key(bucket, name),
        prefix.is_prefix_of(name),
    ensures
        listed_so_far(entries, at + 1, bucket, prefix, listed.push(name)),
{
    let all = objects::keys(entries);
    let now = listed.push(name);
    assert(all[at] == key(bucket, name));
    assert(all.take(at + 1) == all.take(at).push(key(bucket, name)));
    assert forall|i: int, j: int|
        #![trigger now[i], now[j]]
        0 <= i < j < now.len() implies text::at_most(now[i], now[j]) && now[i] != now[j] by {
        if j == listed.len() {
            assert(listed.contains(listed[i]));
            let k = choose|k: int| 0 <= k < at && all.take(at)[k] == key(bucket, listed[i]);
            assert(all[k] == key(bucket, listed[i]));
            assert(text::at_most(all[k], all[at]));
            text::lemma_at_most_behind(bucket + "/"@, listed[i], name);
        }
    }
    assert forall|other: Seq<char>| #[trigger]
        now.contains(other) <==> prefix.is_prefix_of(other) && all.take(at + 1).contains(
            key(bucket, other),
        ) by {
        if now.contains(other) {
            let i = choose|i: int| 0 <= i < now.len() && now[i] == other;
            if i < listed.len() {
                assert(listed[i] == other);
                assert(listed.contains(other));
                let k = choose|k: int| 0 <= k < at && all.take(at)[k] == key(bucket, other);
                assert(all.take(at + 1)[k] == key(bucket, other));
            } else {
                assert(all.take(at + 1)[at] == key(bucket, other));
            }
        }
        if prefix.is_prefix_of(other) && all.take(at + 1).contains(key(bucket, other)) {
            let more = all.take(at + 1);
            let k = choose|k: int| 0 <= k < more.len() && more[k] == key(bucket, other);
            if k < at {
                assert(all.take(at)[k] == key(bucket, other));
                assert(listed.contains(other));
                let i = choose|i: int| 0 <= i < listed.len() && listed[i] == other;
                assert(now[i] == other);
            } else {
                one_key_is_one_name(bucket, name, other);
                assert(now[listed.len() as int] == other);
            }
        }
    }
}

proof fn lemma_listed_no_more(
    entries: Seq<(String, Vec<u8>)>,
    at: int,
    bucket: Seq<char>,
    prefix: Seq<char>,
    listed: Seq<Seq<char>>,
)
    requires
        0 <= at < entries.len(),
        listed_so_far(entries, at, bucket, prefix, listed),
        forall|name: Seq<char>|
            entries[at].0@ == #[trigger] key(bucket, name) ==> !prefix.is_prefix_of(name),
    ensures
        listed_so_far(entries, at + 1, bucket, prefix, listed),
{
    let all = objects::keys(entries);
    assert forall|name: Seq<char>| #[trigger]
        listed.contains(name) <==> prefix.is_prefix_of(name) && all.take(at + 1).contains(
            key(bucket, name),
        ) by {
        if listed.contains(name) {
            let k = choose|k: int| 0 <= k < at && all.take(at)[k] == key(bucket, name);
            assert(all.take(at + 1)[k] == key(bucket, name));
        }
        if prefix.is_prefix_of(name) && all.take(at + 1).contains(key(bucket, name)) {
            let more = all.take(at + 1);
            let k = choose|k: int| 0 <= k < more.len() && more[k] == key(bucket, name);
            assert(all[k] == key(bucket, name));
            assert(all.take(at)[k] == key(bucket, name));
        }
    }
}

proof fn lemma_listed_all(
    entries: Seq<(String, Vec<u8>)>,
    bucket: Seq<char>,
    prefix: Seq<char>,
    listed: Seq<Seq<char>>,
)
    requires
        listed_so_far(entries, entries.len() as int, bucket, prefix, listed),
    ensures
        listed == names_under(objects::held(entries), bucket, prefix),
{
    let all = objects::keys(entries);
    assert(all.take(entries.len() as int) == all);
    text::in_order_is_unique(names(objects::held(entries), bucket, prefix), listed);
}

/// In one bucket, two objects have one key only where they have one name.
pub proof fn one_key_is_one_name(bucket: Seq<char>, name: Seq<char>, other: Seq<char>)
    requires
        key(bucket, name) == key(bucket, other),
    ensures
        name == other,
{
    let start = bucket + "/"@;
    assert(key(bucket, name).skip(start.len() as int) == name);
    assert(key(bucket, other).skip(start.len() as int) == other);
}

proof fn lemma_resource_plain(bucket: Seq<char>, name: Seq<char>, size: nat, depth: nat)
    requires
        depth > 0,
    ensures
        json::plain(resource_document(bucket, name, size), depth),
{
    reveal_with_fuel(json::plain, 2);
}

proof fn lemma_listing_plain(
    objects: Map<Seq<char>, Seq<u8>>,
    bucket: Seq<char>,
    listed: Seq<Seq<char>>,
)
    ensures
        json::plain(listing_document(resources(objects, bucket, listed)), 127),
{
    reveal_with_fuel(json::plain, 3);
    let items = resources(objects, bucket, listed);
    assert forall|i: int| 0 <= i < items.len() implies json::plain(#[trigger] items[i], 125) by {
        lemma_resource_plain(bucket, listed[i], objects[key(bucket, listed[i])].len(), 125);
    }
}

proof fn lemma_error_plain(status: u16, reason: Seq<char>, message: Seq<char>)
    ensures
        json::plain(error_document(status, reason, message), 127),
{
    reveal_with_fuel(json::plain, 5);
}

} // verus!
