//! An HTTP request and its response, as far as Cloud Storage needs them.

use vstd::prelude::*;

use crate::text;

verus! {

/// Names and the values given to them, in order.
pub type Fields = Seq<(Seq<char>, Seq<char>)>;

/// A request: the path as it stands on the request line, percent-encoded, and
/// the query and headers as names and plain values.
#[derive(Clone, Debug, PartialEq, Eq)]
pub struct Request {
    pub method: String,
    pub path: String,
    pub query: Vec<(String, String)>,
    pub headers: Vec<(String, String)>,
    pub body: Vec<u8>,
}

/// A response.
#[derive(Clone, Debug, PartialEq, Eq)]
pub struct Response {
    pub status: u16,
    pub headers: Vec<(String, String)>,
    pub body: Vec<u8>,
}

/// What a [`Request`] says.
#[verifier::ext_equal]
pub struct RequestView {
    pub method: Seq<char>,
    pub path: Seq<char>,
    pub query: Fields,
    pub headers: Fields,
    pub body: Seq<u8>,
}

/// What a [`Response`] says.
#[verifier::ext_equal]
pub struct ResponseView {
    pub status: u16,
    pub headers: Fields,
    pub body: Seq<u8>,
}

/// The names and values in `pairs`.
pub open spec fn fields(pairs: Seq<(String, String)>) -> Fields {
    pairs.map_values(|pair: (String, String)| (pair.0@, pair.1@))
}

/// The value of the first header called `name`, whatever the case of either.
pub open spec fn header_value(headers: Fields, name: Seq<char>) -> Option<Seq<char>>
    decreases headers.len(),
{
    if headers.len() == 0 {
        None
    } else if text::lowered(headers[0].0) == text::lowered(name) {
        Some(headers[0].1)
    } else {
        header_value(headers.drop_first(), name)
    }
}

/// The value of the first query parameter called `name`.
pub open spec fn query_value(query: Fields, name: Seq<char>) -> Option<Seq<char>>
    decreases query.len(),
{
    if query.len() == 0 {
        None
    } else if query[0].0 == name {
        Some(query[0].1)
    } else {
        query_value(query.drop_first(), name)
    }
}

impl View for Request {
    type V = RequestView;

    open spec fn view(&self) -> RequestView {
        RequestView {
            method: self.method@,
            path: self.path@,
            query: fields(self.query@),
            headers: fields(self.headers@),
            body: self.body@,
        }
    }
}

impl View for Response {
    type V = ResponseView;

    open spec fn view(&self) -> ResponseView {
        ResponseView {
            status: self.status,
            headers: fields(self.headers@),
            body: self.body@,
        }
    }
}

impl Request {
    /// A request for `path`, with nothing else to it.
    #[must_use]
    pub fn new(method: &str, path: &str) -> (request: Self)
        ensures
            request@ == (RequestView {
                method: method@,
                path: path@,
                query: seq![],
                headers: seq![],
                body: seq![],
            }),
    {
        Request {
            method: method.to_string(),
            path: path.to_string(),
            query: Vec::new(),
            headers: Vec::new(),
            body: Vec::new(),
        }
    }

    /// The request with the parameter `name` behind those it has.
    #[must_use]
    pub fn query(self, name: &str, value: &str) -> (request: Self)
        ensures
            request@ == (RequestView { query: self@.query.push((name@, value@)), ..self@ }),
    {
        let mut request = self;
        request.query.push((name.to_string(), value.to_string()));
        assert(fields(request.query@) == self@.query.push((name@, value@)));
        request
    }

    /// The request with the header `name` behind those it has.
    #[must_use]
    pub fn header(self, name: &str, value: &str) -> (request: Self)
        ensures
            request@ == (RequestView { headers: self@.headers.push((name@, value@)), ..self@ }),
    {
        let mut request = self;
        request.headers.push((name.to_string(), value.to_string()));
        assert(fields(request.headers@) == self@.headers.push((name@, value@)));
        request
    }

    /// The request with this body.
    #[must_use]
    pub fn body(self, bytes: &[u8]) -> (request: Self)
        ensures
            request@ == (RequestView { body: bytes@, ..self@ }),
    {
        let mut request = self;
        request.body = copied(bytes);
        request
    }

    /// The value of the first header called `name`, whatever the case of
    /// either.
    pub fn header_value(&self, name: &str) -> (value: Option<&str>)
        ensures
            match value {
                Some(value) => header_value(self@.headers, name@) == Some(value@),
                None => header_value(self@.headers, name@) is None,
            },
    {
        let ghost all = self@.headers;
        assert(all.skip(0) == all);
        let mut at: usize = 0;
        while at < self.headers.len()
            invariant
                at <= self.headers@.len(),
                all == fields(self.headers@),
                header_value(all, name@) == header_value(all.skip(at as int), name@),
            decreases self.headers@.len() - at,
        {
            assert(all.skip(at as int)[0] == all[at as int]);
            assert(all.skip(at as int).drop_first() == all.skip(at + 1));
            if self.headers[at].0.as_str().eq_ignore_ascii_case(name) {
                return Some(self.headers[at].1.as_str());
            }
            at = at + 1;
        }
        None
    }

    /// The value of the first query parameter called `name`.
    pub fn query_value(&self, name: &str) -> (value: Option<&str>)
        ensures
            match value {
                Some(value) => query_value(self@.query, name@) == Some(value@),
                None => query_value(self@.query, name@) is None,
            },
    {
        let ghost all = self@.query;
        assert(all.skip(0) == all);
        let mut at: usize = 0;
        while at < self.query.len()
            invariant
                at <= self.query@.len(),
                all == fields(self.query@),
                query_value(all, name@) == query_value(all.skip(at as int), name@),
            decreases self.query@.len() - at,
        {
            assert(all.skip(at as int)[0] == all[at as int]);
            assert(all.skip(at as int).drop_first() == all.skip(at + 1));
            if text::same(self.query[at].0.as_str(), name) {
                return Some(self.query[at].1.as_str());
            }
            at = at + 1;
        }
        None
    }
}

impl Response {
    /// A response of `status`, with nothing else to it.
    #[must_use]
    pub fn new(status: u16) -> (response: Self)
        ensures
            response@ == (ResponseView { status, headers: seq![], body: seq![] }),
    {
        Response { status, headers: Vec::new(), body: Vec::new() }
    }

    /// The response with the header `name` behind those it has.
    #[must_use]
    pub fn header(self, name: &str, value: &str) -> (response: Self)
        ensures
            response@ == (ResponseView { headers: self@.headers.push((name@, value@)), ..self@ }),
    {
        let mut response = self;
        response.headers.push((name.to_string(), value.to_string()));
        assert(fields(response.headers@) == self@.headers.push((name@, value@)));
        response
    }

    /// The response with this body.
    #[must_use]
    pub fn body(self, bytes: &[u8]) -> (response: Self)
        ensures
            response@ == (ResponseView { body: bytes@, ..self@ }),
    {
        let mut response = self;
        response.body = copied(bytes);
        response
    }

    /// The body as text.
    pub fn text(&self) -> (text: String)
        ensures
            text@ == text::as_text(self@.body),
    {
        text::lossy(self.body.as_slice())
    }
}

/// The bytes, in a vector of their own.
pub(crate) fn copied(bytes: &[u8]) -> (copy: Vec<u8>)
    ensures
        copy@ == bytes@,
{
    let mut copy: Vec<u8> = Vec::new();
    copy.extend_from_slice(bytes);
    assert(copy@ == bytes@);
    copy
}

/// Of the headers that have a name, whatever the case, the first counts.
pub proof fn the_first_header_counts(headers: Fields, name: Seq<char>, at: int)
    requires
        0 <= at < headers.len(),
        text::lowered(headers[at].0) == text::lowered(name),
        forall|i: int|
            0 <= i < at ==> text::lowered(#[trigger] headers[i].0) != text::lowered(name),
    ensures
        header_value(headers, name) == Some(headers[at].1),
    decreases at,
{
    if at > 0 {
        let rest = headers.drop_first();
        assert forall|i: int| 0 <= i < at - 1 implies text::lowered(#[trigger] rest[i].0)
            != text::lowered(name) by {
            assert(rest[i] == headers[i + 1]);
        }
        assert(text::lowered(headers[0].0) != text::lowered(name));
        the_first_header_counts(rest, name, at - 1);
    }
}

/// A header that is not there has no value.
pub proof fn a_missing_header_has_no_value(headers: Fields, name: Seq<char>)
    requires
        forall|i: int|
            0 <= i < headers.len() ==> text::lowered(#[trigger] headers[i].0) != text::lowered(
                name,
            ),
    ensures
        header_value(headers, name) is None,
    decreases headers.len(),
{
    if headers.len() > 0 {
        let rest = headers.drop_first();
        assert forall|i: int| 0 <= i < rest.len() implies text::lowered(#[trigger] rest[i].0)
            != text::lowered(name) by {
            assert(rest[i] == headers[i + 1]);
        }
        assert(text::lowered(headers[0].0) != text::lowered(name));
        a_missing_header_has_no_value(rest, name);
    }
}

/// Of the parameters that have a name, the first counts.
pub proof fn the_first_parameter_counts(query: Fields, name: Seq<char>, at: int)
    requires
        0 <= at < query.len(),
        query[at].0 == name,
        forall|i: int| 0 <= i < at ==> #[trigger] query[i].0 != name,
    ensures
        query_value(query, name) == Some(query[at].1),
    decreases at,
{
    if at > 0 {
        let rest = query.drop_first();
        assert forall|i: int| 0 <= i < at - 1 implies #[trigger] rest[i].0 != name by {
            assert(rest[i] == query[i + 1]);
        }
        assert(query[0].0 != name);
        the_first_parameter_counts(rest, name, at - 1);
    }
}

/// A parameter that is not there has no value.
pub proof fn a_missing_parameter_has_no_value(query: Fields, name: Seq<char>)
    requires
        forall|i: int| 0 <= i < query.len() ==> #[trigger] query[i].0 != name,
    ensures
        query_value(query, name) is None,
    decreases query.len(),
{
    if query.len() > 0 {
        let rest = query.drop_first();
        assert forall|i: int| 0 <= i < rest.len() implies #[trigger] rest[i].0 != name by {
            assert(rest[i] == query[i + 1]);
        }
        assert(query[0].0 != name);
        a_missing_parameter_has_no_value(rest, name);
    }
}

/// What a request and a response say is what stands in them.
pub proof fn messages_say_what_stands_in_them(request: Request, response: Response)
    ensures
        request@.method == request.method@,
        request@.path == request.path@,
        request@.body == request.body@,
        request@.query.len() == request.query@.len(),
        request@.headers.len() == request.headers@.len(),
        forall|i: int|
            0 <= i < request.query@.len() ==> #[trigger] request@.query[i] == (
                request.query@[i].0@,
                request.query@[i].1@,
            ),
        forall|i: int|
            0 <= i < request.headers@.len() ==> #[trigger] request@.headers[i] == (
                request.headers@[i].0@,
                request.headers@[i].1@,
            ),
        response@.status == response.status,
        response@.body == response.body@,
        response@.headers.len() == response.headers@.len(),
        forall|i: int|
            0 <= i < response.headers@.len() ==> #[trigger] response@.headers[i] == (
                response.headers@[i].0@,
                response.headers@[i].1@,
            ),
{
}

} // verus!
