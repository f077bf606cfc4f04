//! A Location's side: the four calls it makes, each one request with a bearer
//! token over one connection.
//!
//! The JSON API, because it is one HTTP call per operation and answers in a
//! shape that is read with one parse. Obtaining the token is outside: a
//! Location is configured with one (from a service account, a metadata server,
//! or an operator) and hands it on as `Authorization: Bearer`.
//!
//! A call is in two halves with the connection between them: the request that
//! the client makes, and what its response comes to.

use std::time::Duration;

use serde_json::Value;
use vstd::prelude::*;

use crate::endpoint;
use crate::error;
use crate::error::{Failure, TransportError};
use crate::json;
use crate::json::Json;
use crate::message::{Request, RequestView, Response, ResponseView};
use crate::percent;
use crate::text;

verus! {

/// One endpoint, spoken to with one token.
pub struct Client {
    endpoint: String,
    host: String,
    token: String,
    timeout: Option<Duration>,
}

/// What a [`Client`] is configured with.
#[verifier::ext_equal]
pub struct ClientView {
    pub endpoint: Seq<char>,
    pub host: Seq<char>,
    pub token: Seq<char>,
    pub timeout: Option<Duration>,
}

impl View for Client {
    type V = ClientView;

    closed spec fn view(&self) -> ClientView {
        ClientView {
            endpoint: self.endpoint@,
            host: self.host@,
            token: self.token@,
            timeout: self.timeout,
        }
    }
}

/// The path of the objects in `bucket`.
pub open spec fn objects_path(bucket: Seq<char>) -> Seq<char> {
    "/storage/v1/b/"@ + percent::encoded(bucket) + "/o"@
}

/// The path of the object `name` in `bucket`.
pub open spec fn object_path(bucket: Seq<char>, name: Seq<char>) -> Seq<char> {
    objects_path(bucket) + "/"@ + percent::encoded(name)
}

/// `request` as `client` sends it: to its host, presenting its token.
pub open spec fn addressed(client: ClientView, request: RequestView) -> RequestView {
    RequestView {
        headers: request.headers.push(("Host"@, client.host)).push(
            ("Authorization"@, "Bearer "@ + client.token),
        ),
        ..request
    }
}

/// The request that lists `prefix` in `bucket`.
pub open spec fn list_request(
    client: ClientView,
    bucket: Seq<char>,
    prefix: Seq<char>,
) -> RequestView {
    addressed(
        client,
        RequestView {
            method: "GET"@,
            path: objects_path(bucket),
            query: seq![("prefix"@, prefix)],
            headers: seq![],
            body: seq![],
        },
    )
}

/// The request that fetches the object `name` in `bucket`.
pub open spec fn get_request(client: ClientView, bucket: Seq<char>, name: Seq<char>) -> RequestView {
    addressed(
        client,
        RequestView {
            method: "GET"@,
            path: object_path(bucket, name),
            query: seq![("alt"@, "media"@)],
            headers: seq![],
            body: seq![],
        },
    )
}

/// The request that uploads `bytes` as the object `name` in `bucket`.
pub open spec fn put_request(
    client: ClientView,
    bucket: Seq<char>,
    name: Seq<char>,
    bytes: Seq<u8>,
) -> RequestView {
    addressed(
        client,
        RequestView {
            method: "POST"@,
            path: "/upload"@ + objects_path(bucket),
            query: seq![("uploadType"@, "media"@), ("name"@, name)],
            headers: seq![("Content-Type"@, "application/octet-stream"@)],
            body: bytes,
        },
    )
}

/// The request that deletes the object `name` in `bucket`.
pub open spec fn delete_request(
    client: ClientView,
    bucket: Seq<char>,
    name: Seq<char>,
) -> RequestView {
    addressed(
        client,
        RequestView {
            method: "DELETE"@,
            path: object_path(bucket, name),
            query: seq![],
            headers: seq![],
            body: seq![],
        },
    )
}

/// Whether a status says that the call was done.
pub open spec fn is_success(status: u16) -> bool {
    200 <= status < 300
}

/// Whether a status says to come back.
pub open spec fn is_retryable(status: u16) -> bool {
    status >= 500 || status == 408 || status == 429
}

/// The message that a body puts at `error.message`, empty where it puts none.
pub open spec fn message_of(body: Result<Json, Seq<char>>) -> Seq<char> {
    match body {
        Ok(document) => match json::member(json::member(document, "error"@), "message"@) {
            Json::Text(message) => message,
            _ => seq![],
        },
        Err(_) => seq![],
    }
}

/// The failure of a call that was answered with `status` and `message`.
pub open spec fn answered_with(status: u16, message: Seq<char>) -> Failure {
    Failure {
        message: "Cloud Storage answered "@ + text::decimal(status as nat) + " "@ + message,
        retryable: is_retryable(status),
    }
}

/// What a response comes to: itself where it says that the call was done.
pub open spec fn judged(response: ResponseView) -> Result<ResponseView, Failure> {
    if is_success(response.status) {
        Ok(response)
    } else {
        Err(answered_with(response.status, message_of(json::parsed(response.body))))
    }
}

/// The names that `items` have, in their order.
pub open spec fn item_names(items: Seq<Json>) -> Seq<Seq<char>>
    decreases items.len(),
{
    if items.len() == 0 {
        seq![]
    } else {
        let before = item_names(items.drop_last());
        match json::member(items.last(), "name"@) {
            Json::Text(name) => before.push(name),
            _ => before,
        }
    }
}

/// The names in an object list; one without items has none.
pub open spec fn listed_names(listing: Json) -> Seq<Seq<char>> {
    match json::member(listing, "items"@) {
        Json::List(items) => item_names(items),
        _ => seq![],
    }
}

/// Whether `document` is an object list: it has a list of items, or says that
/// it is one and has no items.
pub open spec fn is_listing(document: Json) -> bool {
    ||| json::member(document, "items"@) is List
    ||| {
        &&& json::member(document, "items"@) is Null
        &&& json::member(document, "kind"@) == Json::Text("storage#objects"@)
    }
}

/// What a body comes to as an object list.
pub open spec fn listing_of(body: Result<Json, Seq<char>>) -> Result<Seq<Seq<char>>, Failure> {
    match body {
        Ok(document) => if is_listing(document) {
            Ok(listed_names(document))
        } else {
            Err(error::protocol_failure("an answer that is not a listing"@))
        },
        Err(words) => Err(error::protocol_failure("a listing that is not JSON: "@ + words)),
    }
}

/// What a response to a listing comes to.
pub open spec fn listed_in(response: ResponseView) -> Result<Seq<Seq<char>>, Failure> {
    match judged(response) {
        Ok(response) => listing_of(json::parsed(response.body)),
        Err(failure) => Err(failure),
    }
}

/// What a parse came to.
pub open spec fn parse_of(result: Result<Value, String>) -> Result<Json, Seq<char>> {
    match result {
        Ok(value) => Ok(json::json(value)),
        Err(words) => Err(words@),
    }
}

/// The texts in `strings`.
pub open spec fn texts(strings: Seq<String>) -> Seq<Seq<char>> {
    strings.map_values(|string: String| string@)
}

/// Whether `result` is names as `expected` has them, or its failure.
pub open spec fn names_are(
    result: Result<Vec<String>, TransportError>,
    expected: Result<Seq<Seq<char>>, Failure>,
) -> bool {
    match (result, expected) {
        (Ok(names), Ok(listed)) => texts(names@) == listed,
        (Err(error), Err(failure)) => error@ == failure,
        _ => false,
    }
}

impl Client {
    /// Speak to the Cloud Storage endpoint at `endpoint` (`http://host:port`
    /// or `https://host:port`), presenting `token`.
    ///
    /// # Errors
    /// Where `endpoint` is not an HTTP URL.
    pub fn new(endpoint: &str, token: &str) -> (result: Result<Self, TransportError>)
        ensures
            match result {
                Ok(client) => {
                    &&& endpoint::authority_of(endpoint@) == Some(client@.host)
                    &&& client@.endpoint == endpoint@
                    &&& client@.token == token@
                    &&& client@.timeout is None
                },
                Err(error) => {
                    &&& endpoint::authority_of(endpoint@) is None
                    &&& error@ == endpoint::not_http(endpoint@)
                },
            },
    {
        match endpoint::authority(endpoint) {
            Ok(host) => Ok(
                Client {
                    endpoint: endpoint.to_string(),
                    host,
                    token: token.to_string(),
                    timeout: None,
                },
            ),
            Err(error) => Err(error),
        }
    }

    /// Give up on an endpoint that stops answering after `timeout`.
    #[must_use]
    pub fn timing_out_after(self, timeout: Duration) -> (client: Self)
        ensures
            client@ == (ClientView { timeout: Some(timeout), ..self@ }),
    {
        Client {
            endpoint: self.endpoint,
            host: self.host,
            token: self.token,
            timeout: Some(timeout),
        }
    }

    /// Where to connect.
    #[must_use]
    pub fn endpoint(&self) -> (endpoint: &str)
        ensures
            endpoint@ == self@.endpoint,
    {
        self.endpoint.as_str()
    }

    /// How long the endpoint may stop answering.
    #[must_use]
    pub fn timeout(&self) -> (timeout: Option<Duration>)
        ensures
            timeout == self@.timeout,
    {
        self.timeout
    }

    /// Ask for the object names under `prefix` in `bucket`, as many as one
    /// listing carries (a thousand), so a fuller prefix is taken a thousand at
    /// a time. What the response holds, [`listed`] says.
    #[must_use]
    pub fn list(&self, bucket: &str, prefix: &str) -> (request: Request)
        ensures
            request@ == list_request(self@, bucket@, prefix@),
    {
        let request = Request::new("GET", objects(bucket).as_str()).query("prefix", prefix);
        assert(request@.query == seq![("prefix"@, prefix@)]);
        self.call(request)
    }

    /// Ask for the object `name` in `bucket`. What the response holds,
    /// [`fetched`] says.
    #[must_use]
    pub fn get(&self, bucket: &str, name: &str) -> (request: Request)
        ensures
            request@ == get_request(self@, bucket@, name@),
    {
        let request = Request::new("GET", object(bucket, name).as_str()).query("alt", "media");
        assert(request@.query == seq![("alt"@, "media"@)]);
        self.call(request)
    }

    /// Upload `bytes` as the object `name` in `bucket`, in one piece. Whether
    /// it was taken, [`done`] says.
    #[must_use]
    pub fn put(&self, bucket: &str, name: &str, bytes: &[u8]) -> (request: Request)
        ensures
            request@ == put_request(self@, bucket@, name@, bytes@),
    {
        let path = text::join("/upload", objects(bucket).as_str());
        let request = Request::new("POST", path.as_str()).query("uploadType", "media").query(
            "name",
            name,
        ).header("Content-Type", "application/octet-stream").body(bytes);
        assert(request@.query == seq![("uploadType"@, "media"@), ("name"@, name@)]);
        assert(request@.headers == seq![("Content-Type"@, "application/octet-stream"@)]);
        self.call(request)
    }

    /// Delete the object `name` in `bucket`. Whether it is gone, [`done`]
    /// says.
    #[must_use]
    pub fn delete(&self, bucket: &str, name: &str) -> (request: Request)
        ensures
            request@ == delete_request(self@, bucket@, name@),
    {
        self.call(Request::new("DELETE", object(bucket, name).as_str()))
    }

    fn call(&self, request: Request) -> (result: Request)
        ensures
            result@ == addressed(self@, request@),
    {
        let bearer = text::join("Bearer ", self.token.as_str());
        request.header("Host", self.host.as_str()).header("Authorization", bearer.as_str())
    }
}

fn objects(bucket: &str) -> (path: String)
    ensures
        path@ == objects_path(bucket@),
{
    text::join("/storage/v1/b/", percent::encode(bucket).as_str()).concat("/o")
}

fn object(bucket: &str, name: &str) -> (path: String)
    ensures
        path@ == object_path(bucket@, name@),
{
    objects(bucket).concat("/").concat(percent::encode(name).as_str())
}

/// A 2xx answer as it is; anything else as a failure naming the status and the
/// message the service put in the body, retryable where it says come back.
///
/// # Errors
/// Where the status is not 2xx.
pub fn judge(response: Response) -> (result: Result<Response, TransportError>)
    ensures
        match (result, judged(response@)) {
            (Ok(same), Ok(_)) => same == response,
            (Err(error), Err(failure)) => error@ == failure,
            _ => false,
        },
        result is Ok <==> 200 <= response.status < 300,
        result is Err ==> (result->Err_0.retryable <==> response.status >= 500 || response.status
            == 408 || response.status == 429),
{
    if 200 <= response.status && response.status < 300 {
        return Ok(response);
    }
    Err(failure(response.status, json::parse(response.body.as_slice())))
}

/// The failure of a call that was answered with `status`, from what the body
/// parsed to.
pub fn failure(status: u16, body: Result<Value, String>) -> (error: TransportError)
    ensures
        error@ == answered_with(status, message_of(parse_of(body))),
        error.retryable <==> status >= 500 || status == 408 || status == 429,
{
    let message = match body {
        Ok(document) => match json::as_text(json::get(json::get(&document, "error"), "message")) {
            Some(message) => message.to_string(),
            None => String::new(),
        },
        Err(_) => String::new(),
    };
    let retryable = status >= 500 || status == 408 || status == 429;
    let start = text::join("Cloud Storage answered ", text::number(status as usize).as_str());
    TransportError { message: start.concat(" ").concat(message.as_str()), retryable }
}

/// The object names in the response to [`Client::list`].
///
/// # Errors
/// Where the endpoint refused, or did not answer with a listing.
pub fn listed(response: Response) -> (result: Result<Vec<String>, TransportError>)
    ensures
        names_are(result, listed_in(response@)),
{
    match judge(response) {
        Ok(response) => listing(json::parse(response.body.as_slice())),
        Err(error) => Err(error),
    }
}

/// The object names in a listing, from what the body parsed to.
///
/// # Errors
/// Where it did not parse, or is no object list.
pub fn listing(body: Result<Value, String>) -> (result: Result<Vec<String>, TransportError>)
    ensures
        names_are(result, listing_of(parse_of(body))),
{
    let document = match body {
        Ok(document) => document,
        Err(words) => {
            let message = text::join("a listing that is not JSON: ", words.as_str());
            return Err(error::protocol_error(message.as_str()));
        },
    };
    let mut names: Vec<String> = Vec::new();
    if let Some(items) = json::as_list(json::get(&document, "items")) {
        let ghost all = json::documents(items@);
        let mut at: usize = 0;
        while at < items.len()
            invariant
                at <= items@.len(),
                all == json::documents(items@),
                texts(names@) == item_names(all.take(at as int)),
            decreases items@.len() - at,
        {
            let ghost before = texts(names@);
            let ghost now = all.take(at + 1);
            assert(now.drop_last() == all.take(at as int));
            assert(now.last() == json::json(items@[at as int]));
            if let Some(name) = json::as_text(json::get(&items[at], "name")) {
                names.push(name.to_string());
                assert(texts(names@) == before.push(name@));
            }
            at = at + 1;
        }
        assert(all.take(at as int) == all);
    } else if !(json::is_null(json::get(&document, "items")) && says_listing(&document)) {
        return Err(error::protocol_error("an answer that is not a listing"));
    }
    assert(texts(names@) == listed_names(json::json(document)));
    Ok(names)
}

/// Whether `document` says that it is an object list.
fn says_listing(document: &Value) -> (result: bool)
    ensures
        result == (json::member(json::json(*document), "kind"@) == Json::Text(
            "storage#objects"@,
        )),
{
    match json::as_text(json::get(document, "kind")) {
        Some(kind) => text::same(kind, "storage#objects"),
        None => false,
    }
}

/// The object in the response to [`Client::get`].
///
/// # Errors
/// Where there is no such object, or the endpoint refused.
pub fn fetched(response: Response) -> (result: Result<Vec<u8>, TransportError>)
    ensures
        match (result, judged(response@)) {
            (Ok(bytes), Ok(_)) => bytes@ == response@.body,
            (Err(error), Err(failure)) => error@ == failure,
            _ => false,
        },
{
    match judge(response) {
        Ok(response) => Ok(response.body),
        Err(error) => Err(error),
    }
}

/// Whether the call was done, from the response to [`Client::put`] or
/// [`Client::delete`].
///
/// # Errors
/// Where there is no such object, or the endpoint refused.
pub fn done(response: Response) -> (result: Result<(), TransportError>)
    ensures
        match (result, judged(response@)) {
            (Ok(_), Ok(_)) => true,
            (Err(error), Err(failure)) => error@ == failure,
            _ => false,
        },
{
    match judge(response) {
        Ok(_) => Ok(()),
        Err(error) => Err(error),
    }
}

} // verus!
