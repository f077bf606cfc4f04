//! What the far end answers, in the API's own terms.
//!
//! Every request has one of the answers below, whoever made it and whatever
//! else it carries: the token decides first, then the path, then the method,
//! then the parameters. Statuses, reasons and members are written out here.

use vstd::prelude::*;

use crate::arrived::ArrivedView;
use crate::client;
use crate::client::ClientView;
use crate::json;
use crate::json::Json;
use crate::laws;
use crate::message;
use crate::message::{RequestView, Response, ResponseView};
use crate::percent;
use crate::session;
use crate::session::{Answer, Body, Event, EventView, Route, SessionView};
use crate::text;

verus! {

proof fn lemma_member_names()
    ensures
        "kind"@ != "name"@,
        "kind"@ != "bucket"@,
        "kind"@ != "size"@,
        "kind"@ != "items"@,
        "name"@ != "bucket"@,
        "name"@ != "size"@,
        "bucket"@ != "size"@,
        "code"@ != "message"@,
        "code"@ != "errors"@,
        "message"@ != "errors"@,
        "message"@ != "domain"@,
        "message"@ != "reason"@,
        "domain"@ != "reason"@,
{
    reveal_strlit("kind");
    reveal_strlit("name");
    reveal_strlit("bucket");
    reveal_strlit("size");
    reveal_strlit("items");
    reveal_strlit("code");
    reveal_strlit("message");
    reveal_strlit("errors");
    reveal_strlit("domain");
    reveal_strlit("reason");
    assert("kind"@[0] == 'k' && "name"@[0] == 'n' && "size"@[0] == 's' && "bucket"@[0] == 'b');
    assert("items"@[0] == 'i' && "code"@[0] == 'c' && "message"@[0] == 'm');
    assert("errors"@[0] == 'e' && "domain"@[0] == 'd' && "reason"@[0] == 'r');
}

/// An object's key is its bucket and its name with a slash between them, and
/// its origin is `gs://` and the key.
pub proof fn keys_and_origins_are_written_out(bucket: Seq<char>, name: Seq<char>)
    ensures
        session::key(bucket, name) == bucket + "/"@ + name,
        session::origin_uri(bucket, name) == "gs://"@ + bucket + "/"@ + name,
{
    assert("gs://"@ + bucket + "/"@ + name == "gs://"@ + (bucket + "/"@ + name));
}

/// A resource has four members: the kind, the object's name and bucket, and
/// its size, in decimal digits that read back as the length.
pub proof fn a_resource_tells_name_bucket_and_length(
    bucket: Seq<char>,
    name: Seq<char>,
    size: nat,
)
    ensures
        ({
            let document = session::resource_document(bucket, name, size);
            let members = document->Object_0;
            let digits = members["size"@]->Text_0;
            &&& document is Object
            &&& members.dom() == set!["kind"@, "name"@, "bucket"@, "size"@]
            &&& members["kind"@] == Json::Text("storage#object"@)
            &&& members["name"@] == Json::Text(name)
            &&& members["bucket"@] == Json::Text(bucket)
            &&& members["size"@] is Text
            &&& text::number_read(digits) == size
            &&& digits.len() > 0
            &&& digits[0] == '0' ==> size == 0
            &&& forall|i: int| 0 <= i < digits.len() ==> '0' <= #[trigger] digits[i] <= '9'
        }),
{
    lemma_member_names();
    text::decimal_reads_back(size);
}

/// Two objects of different lengths never show the same size.
pub proof fn sizes_tell_lengths_apart(
    bucket: Seq<char>,
    name: Seq<char>,
    size: nat,
    other_bucket: Seq<char>,
    other_name: Seq<char>,
    other_size: nat,
)
    requires
        size != other_size,
    ensures
        json::member(session::resource_document(bucket, name, size), "size"@) != json::member(
            session::resource_document(other_bucket, other_name, other_size),
            "size"@,
        ),
{
    a_resource_tells_name_bucket_and_length(bucket, name, size);
    a_resource_tells_name_bucket_and_length(other_bucket, other_name, other_size);
}

/// A listing says that it is one, and has its items where there are any.
pub proof fn a_listing_has_its_items(items: Seq<Json>)
    ensures
        ({
            let document = session::listing_document(items);
            let members = document->Object_0;
            &&& document is Object
            &&& members.contains_key("kind"@)
            &&& members["kind"@] == Json::Text("storage#objects"@)
            &&& items.len() == 0 ==> members.dom() == set!["kind"@]
            &&& items.len() > 0 ==> {
                &&& members.dom() == set!["kind"@, "items"@]
                &&& members["items"@] == Json::List(items)
            }
        }),
{
    lemma_member_names();
}

/// An error tells its code as a number, its message twice, and its reason in
/// one detail of the domain `global`.
pub proof fn an_error_tells_code_message_and_reason(
    status: u16,
    reason: Seq<char>,
    message: Seq<char>,
)
    ensures
        ({
            let document = session::error_document(status, reason, message);
            let members = document->Object_0;
            let error = members["error"@]->Object_0;
            let details = error["errors"@]->List_0;
            let detail = details[0]->Object_0;
            &&& document is Object
            &&& members.dom() == set!["error"@]
            &&& members["error"@] is Object
            &&& error.dom() == set!["code"@, "message"@, "errors"@]
            &&& error["code"@] == Json::Whole(status as int)
            &&& error["message"@] == Json::Text(message)
            &&& error["errors"@] is List
            &&& details.len() == 1
            &&& details[0] is Object
            &&& detail.dom() == set!["message"@, "domain"@, "reason"@]
            &&& detail["message"@] == Json::Text(message)
            &&& detail["domain"@] == Json::Text("global"@)
            &&& detail["reason"@] == Json::Text(reason)
        }),
{
    lemma_member_names();
}

/// Whether `answer` refuses with this status, reason and message, and leaves
/// the session as it was.
pub open spec fn refuses(
    answer: Answer,
    session: SessionView,
    status: u16,
    reason: Seq<char>,
    message: Seq<char>,
) -> bool {
    &&& answer.session == session
    &&& answer.event == EventView::Refused(reason)
    &&& answer.reply.status == status
    &&& answer.reply.body == Body::Document(session::error_document(status, reason, message))
}

/// A request passes exactly where its first authorization is the word `Bearer`,
/// a space and the session's token; any other is refused with 401.
pub proof fn the_token_decides_first(session: SessionView, request: RequestView)
    ensures
        ({
            let presented = message::header_value(request.headers, "authorization"@);
            let answer = session::answer_to(session, request);
            &&& presented == Some("Bearer "@ + session.token) ==> {
                &&& answer.reply.status != 401
                &&& answer.event != EventView::Refused("authError"@)
            }
            &&& presented != Some("Bearer "@ + session.token) ==> refuses(
                answer,
                session,
                401,
                "authError"@,
                "Invalid Credentials"@,
            )
        }),
{
    reveal_strlit("authError");
    reveal_strlit("notFound");
    reveal_strlit("badRequest");
    reveal_strlit("required");
    reveal_strlit("methodNotAllowed");
    assert("authError"@.len() != "notFound"@.len());
    assert("authError"@.len() != "badRequest"@.len());
    assert("authError"@.len() != "required"@.len());
    assert("authError"@.len() != "methodNotAllowed"@.len());
}

/// A path of the API: the objects of a bucket, and what stands behind.
pub open spec fn api_path(upload: bool, bucket: Seq<char>, tail: Seq<char>) -> Seq<char> {
    if upload {
        "/upload/storage/v1/b/"@ + bucket + "/o"@ + tail
    } else {
        "/storage/v1/b/"@ + bucket + "/o"@ + tail
    }
}

/// Whether the first `/o` behind `bucket` is the one that ends it.
pub open spec fn ends_at_the_objects(bucket: Seq<char>) -> bool {
    forall|i: int|
        0 <= i < bucket.len() ==> !(#[trigger] bucket[i] == '/' && (bucket + "/o"@)[i + 1] == 'o')
}

proof fn lemma_mark_behind(bucket: Seq<char>, tail: Seq<char>)
    requires
        ends_at_the_objects(bucket),
    ensures
        text::split(bucket + "/o"@ + tail, "/o"@) == Some((bucket, tail)),
{
    reveal_strlit("/o");
    let rest = bucket + "/o"@ + tail;
    let at = bucket.len();
    assert(rest.skip(at as int) == "/o"@ + tail);
    assert(("/o"@ + tail).subrange(0, 2) == "/o"@);
    assert("/o"@.is_prefix_of(rest.skip(at as int)));
    assert forall|i: int| 0 <= i < at implies !"/o"@.is_prefix_of(#[trigger] rest.skip(i)) by {
        if "/o"@.is_prefix_of(rest.skip(i)) {
            text::lemma_prefix_at("/o"@, rest.skip(i), 0);
            text::lemma_prefix_at("/o"@, rest.skip(i), 1);
            assert(bucket[i] == '/');
            assert((bucket + "/o"@)[i + 1] == rest[i + 1]);
        }
    }
    text::a_mark_is_found_where_it_first_stands(rest, "/o"@, at);
    assert(rest.take(at as int) == bucket);
    assert(rest.skip((at + "/o"@.len()) as int) == tail);
}

proof fn lemma_tail(tail: Seq<char>)
    ensures
        text::after(tail, "/"@) == if tail.len() > 0 && tail[0] == '/' {
            Some(tail.drop_first())
        } else {
            None
        },
{
    reveal_strlit("/");
    if tail.len() > 0 && tail[0] == '/' {
        assert(tail == "/"@ + tail.drop_first());
        text::lemma_after("/"@, tail.drop_first());
    } else if "/"@.is_prefix_of(tail) {
        text::lemma_prefix_at("/"@, tail, 0);
    }
}

proof fn lemma_parts(rest: Seq<char>)
    ensures
        ({
            let inner = "/storage/v1/b/"@ + rest;
            &&& text::after(inner, "/upload"@) is None
            &&& text::after(inner, "/storage/v1/b/"@) == Some(rest)
            &&& "/upload/storage/v1/b/"@ + rest == "/upload"@ + inner
            &&& text::after("/upload/storage/v1/b/"@ + rest, "/upload"@) == Some(inner)
        }),
{
    reveal_strlit("/upload");
    reveal_strlit("/storage/v1/b/");
    reveal_strlit("/upload/storage/v1/b/");
    let inner = "/storage/v1/b/"@ + rest;
    assert("/upload/storage/v1/b/"@ == "/upload"@ + "/storage/v1/b/"@);
    assert("/upload/storage/v1/b/"@ + rest == "/upload"@ + inner);
    text::lemma_after("/storage/v1/b/"@, rest);
    text::lemma_after("/upload"@, inner);
    if "/upload"@.is_prefix_of(inner) {
        text::lemma_prefix_at("/upload"@, inner, 1);
        assert(inner[1] == 's');
    }
}

proof fn lemma_route(upload: bool, bucket: Seq<char>, tail: Seq<char>)
    requires
        ends_at_the_objects(bucket),
    ensures
        session::route(api_path(upload, bucket, tail)) == Some(
            Route {
                upload,
                bucket: percent::decoded(bucket),
                name: if tail.len() > 0 && tail[0] == '/' {
                    Some(percent::decoded(tail.drop_first()))
                } else {
                    None
                },
            },
        ),
{
    let rest = bucket + "/o"@ + tail;
    lemma_mark_behind(bucket, tail);
    lemma_tail(tail);
    lemma_parts(rest);
    assert("/storage/v1/b/"@ + bucket + "/o"@ + tail == "/storage/v1/b/"@ + rest);
    assert("/upload/storage/v1/b/"@ + bucket + "/o"@ + tail == "/upload/storage/v1/b/"@ + rest);
}

proof fn lemma_methods()
    ensures
        "GET"@ != "POST"@,
        "GET"@ != "DELETE"@,
        "POST"@ != "DELETE"@,
{
    reveal_strlit("GET");
    reveal_strlit("POST");
    reveal_strlit("DELETE");
    assert("GET"@.len() != "POST"@.len());
    assert("GET"@.len() != "DELETE"@.len());
    assert("POST"@.len() != "DELETE"@.len());
}

/// With the token, a GET of a bucket's objects is answered with the objects
/// that the bucket holds under the prefix, or all of them where none is given:
/// each once, in the order of the names, with its own length.
pub proof fn a_listing_shows_what_is_held(
    session: SessionView,
    request: RequestView,
    bucket: Seq<char>,
    tail: Seq<char>,
    prefix: Seq<char>,
)
    requires
        message::header_value(request.headers, "authorization"@) == Some(
            "Bearer "@ + session.token,
        ),
        session.objects.dom().finite(),
        request.method == "GET"@,
        request.path == api_path(false, bucket, tail),
        ends_at_the_objects(bucket),
        tail.len() == 0 || tail[0] != '/',
        match message::query_value(request.query, "prefix"@) {
            Some(given) => prefix == given,
            None => prefix.len() == 0,
        },
    ensures
        ({
            let inside = percent::decoded(bucket);
            let answer = session::answer_to(session, request);
            let members = answer.reply.body->Document_0->Object_0;
            let items = members["items"@]->List_0;
            &&& answer.session == session
            &&& answer.event == EventView::Listed { bucket: inside, prefix }
            &&& answer.reply.status == 200
            &&& answer.reply.body is Document
            &&& answer.reply.body->Document_0 is Object
            &&& members.contains_key("kind"@)
            &&& members["kind"@] == Json::Text("storage#objects"@)
            &&& members.contains_key("items"@) ==> {
                &&& members["items"@] is List
                &&& items.len() > 0
                &&& forall|i: int|
                    #![trigger items[i]]
                    0 <= i < items.len() ==> is_item(session.objects, inside, prefix, items[i])
                &&& forall|i: int, j: int|
                    #![trigger items[i], items[j]]
                    0 <= i < j < items.len() ==> {
                        let left = items[i]->Object_0["name"@]->Text_0;
                        let right = items[j]->Object_0["name"@]->Text_0;
                        text::at_most(left, right) && left != right
                    }
            }
            &&& forall|name: Seq<char>|
                #![trigger session.objects.contains_key(inside + "/"@ + name)]
                session.objects.contains_key(inside + "/"@ + name) && prefix.is_prefix_of(name)
                    ==> members.contains_key("items"@) && exists|i: int|
                    #![trigger items[i]]
                    0 <= i < items.len() && items[i]->Object_0["name"@] == Json::Text(name)
        }),
{
    let inside = percent::decoded(bucket);
    lemma_route(false, bucket, tail);
    let answer = session::answer_to(session, request);
    assert(message::query_value(request.query, "prefix"@) is None ==> prefix == Seq::<
        char,
    >::empty());
    let listed = session::names_under(session.objects, inside, prefix);
    let resources = session::resources(session.objects, inside, listed);
    assert(answer == session::list_answer(session, inside, request));
    laws::lemma_names_finite(session.objects, inside, prefix);
    text::in_order_holds_each_once(session::names(session.objects, inside, prefix));
    a_listing_has_its_items(resources);
    let members = answer.reply.body->Document_0->Object_0;
    let items = members["items"@]->List_0;
    lemma_member_names();
    if members.contains_key("items"@) {
        assert(items == resources);
        assert forall|i: int|
            #![trigger items[i]]
            0 <= i < items.len() implies is_item(session.objects, inside, prefix, items[i]) by {
            a_resource_tells_name_bucket_and_length(
                inside,
                listed[i],
                session.objects[session::key(inside, listed[i])].len(),
            );
            assert(listed.contains(listed[i]));
            assert(session::names(session.objects, inside, prefix).contains(listed[i]));
        }
        assert forall|i: int, j: int|
            #![trigger items[i], items[j]]
            0 <= i < j < items.len() implies {
            let left = items[i]->Object_0["name"@]->Text_0;
            let right = items[j]->Object_0["name"@]->Text_0;
            text::at_most(left, right) && left != right
        } by {
            assert(text::at_most(listed[i], listed[j]) && listed[i] != listed[j]);
        }
    }
    assert forall|name: Seq<char>|
        #![trigger session.objects.contains_key(inside + "/"@ + name)]
        session.objects.contains_key(inside + "/"@ + name) && prefix.is_prefix_of(
            name,
        ) implies members.contains_key("items"@) && exists|i: int|
        #![trigger items[i]]
        0 <= i < items.len() && items[i]->Object_0["name"@] == Json::Text(name) by {
        assert(session.objects.contains_key(session::key(inside, name)));
        assert(session::names(session.objects, inside, prefix).contains(name));
        assert(listed.contains(name));
        let i = choose|i: int| 0 <= i < listed.len() && listed[i] == name;
        assert(resources.len() > 0);
        assert(items[i]->Object_0["name"@] == Json::Text(name));
    }
}

/// Whether `item` shows an object that `bucket` holds under `prefix`: the kind,
/// its name and bucket, and its length in digits.
pub open spec fn is_item(
    objects: Map<Seq<char>, Seq<u8>>,
    bucket: Seq<char>,
    prefix: Seq<char>,
    item: Json,
) -> bool {
    let members = item->Object_0;
    let name = members["name"@]->Text_0;
    &&& item is Object
    &&& members.dom() == set!["kind"@, "name"@, "bucket"@, "size"@]
    &&& members["kind"@] == Json::Text("storage#object"@)
    &&& members["name"@] is Text
    &&& members["bucket"@] == Json::Text(bucket)
    &&& members["size"@] is Text
    &&& prefix.is_prefix_of(name)
    &&& objects.contains_key(bucket + "/"@ + name)
    &&& text::number_read(members["size"@]->Text_0) == objects[bucket + "/"@ + name].len()
}

/// With the token, a GET of an object is answered with its bytes and reported
/// by its origin; one that is not held is refused with 404 and its key. Nothing
/// changes.
pub proof fn a_fetch_gives_what_is_held(
    session: SessionView,
    request: RequestView,
    bucket: Seq<char>,
    name: Seq<char>,
)
    requires
        message::header_value(request.headers, "authorization"@) == Some(
            "Bearer "@ + session.token,
        ),
        request.method == "GET"@,
        request.path == api_path(false, bucket, "/"@ + name),
        ends_at_the_objects(bucket),
    ensures
        ({
            let key = percent::decoded(bucket) + "/"@ + percent::decoded(name);
            let answer = session::answer_to(session, request);
            &&& session.objects.contains_key(key) ==> {
                &&& answer.session == session
                &&& answer.event == EventView::Retrieved("gs://"@ + key)
                &&& answer.reply.status == 200
                &&& answer.reply.body == Body::Media(session.objects[key])
            }
            &&& !session.objects.contains_key(key) ==> refuses(
                answer,
                session,
                404,
                "notFound"@,
                "No such object: "@ + key,
            )
        }),
{
    lemma_named_tail(bucket, name);
    lemma_methods();
}

proof fn lemma_named_tail(bucket: Seq<char>, name: Seq<char>)
    requires
        ends_at_the_objects(bucket),
    ensures
        session::route(api_path(false, bucket, "/"@ + name)) == Some(
            Route {
                upload: false,
                bucket: percent::decoded(bucket),
                name: Some(percent::decoded(name)),
            },
        ),
{
    reveal_strlit("/");
    let tail = "/"@ + name;
    assert(tail[0] == '/');
    assert(tail.drop_first() == name);
    lemma_route(false, bucket, tail);
}

/// With the token, a DELETE of an object takes that object away and no other,
/// is answered 204 with nothing, and reported by its origin; one that is not
/// held is refused with 404 and its key.
pub proof fn a_deletion_takes_one_object_away(
    session: SessionView,
    request: RequestView,
    bucket: Seq<char>,
    name: Seq<char>,
)
    requires
        message::header_value(request.headers, "authorization"@) == Some(
            "Bearer "@ + session.token,
        ),
        request.method == "DELETE"@,
        request.path == api_path(false, bucket, "/"@ + name),
        ends_at_the_objects(bucket),
    ensures
        ({
            let key = percent::decoded(bucket) + "/"@ + percent::decoded(name);
            let answer = session::answer_to(session, request);
            &&& session.objects.contains_key(key) ==> {
                &&& answer.session == (SessionView {
                    objects: session.objects.remove(key),
                    ..session
                })
                &&& answer.event == EventView::Deleted("gs://"@ + key)
                &&& answer.reply.status == 204
                &&& answer.reply.body == Body::Empty
            }
            &&& !session.objects.contains_key(key) ==> refuses(
                answer,
                session,
                404,
                "notFound"@,
                "No such object: "@ + key,
            )
        }),
{
    lemma_named_tail(bucket, name);
    lemma_methods();
}

/// With the token, a POST of media with a name keeps the body as that object,
/// in place of one there was, and leaves every other; it is answered 200 with
/// the object's resource, whose size reads back as the length of the body, and
/// reported by its origin and bytes. Without `uploadType=media`, or without a
/// name, it is refused with 400.
pub proof fn an_upload_is_kept(
    session: SessionView,
    request: RequestView,
    bucket: Seq<char>,
    tail: Seq<char>,
)
    requires
        message::header_value(request.headers, "authorization"@) == Some(
            "Bearer "@ + session.token,
        ),
        request.method == "POST"@,
        request.path == api_path(true, bucket, tail),
        ends_at_the_objects(bucket),
        tail.len() == 0 || tail[0] != '/',
    ensures
        ({
            let inside = percent::decoded(bucket);
            let media = message::query_value(request.query, "uploadType"@) == Some("media"@);
            let name = message::query_value(request.query, "name"@);
            let key = inside + "/"@ + name->0;
            let answer = session::answer_to(session, request);
            let members = answer.reply.body->Document_0->Object_0;
            &&& media && name is Some ==> {
                &&& answer.session == (SessionView {
                    objects: session.objects.insert(key, request.body),
                    ..session
                })
                &&& answer.event == EventView::Stored(
                    ArrivedView { origin_uri: "gs://"@ + key, bytes: request.body },
                )
                &&& answer.reply.status == 200
                &&& answer.reply.body is Document
                &&& answer.reply.body->Document_0 is Object
                &&& members.dom() == set!["kind"@, "name"@, "bucket"@, "size"@]
                &&& members["kind"@] == Json::Text("storage#object"@)
                &&& members["name"@] == Json::Text(name->0)
                &&& members["bucket"@] == Json::Text(inside)
                &&& members["size"@] is Text
                &&& text::number_read(members["size"@]->Text_0) == request.body.len()
            }
            &&& !media ==> refuses(
                answer,
                session,
                400,
                "badRequest"@,
                "only uploadType=media is served"@,
            )
            &&& media && name is None ==> refuses(
                answer,
                session,
                400,
                "required"@,
                "Required parameter: name"@,
            )
        }),
{
    lemma_route(true, bucket, tail);
    lemma_methods();
    if message::query_value(request.query, "name"@) is Some {
        a_resource_tells_name_bucket_and_length(
            percent::decoded(bucket),
            message::query_value(request.query, "name"@)->0,
            request.body.len(),
        );
    }
}

/// With the token, any other method on a path of the API is refused with 405:
/// only GET is answered for objects, only POST for uploads, and only GET and
/// DELETE for one object.
pub proof fn other_methods_are_refused(
    session: SessionView,
    request: RequestView,
    upload: bool,
    bucket: Seq<char>,
    tail: Seq<char>,
)
    requires
        message::header_value(request.headers, "authorization"@) == Some(
            "Bearer "@ + session.token,
        ),
        request.path == api_path(upload, bucket, tail),
        ends_at_the_objects(bucket),
        ({
            let one = tail.len() > 0 && tail[0] == '/';
            &&& !(request.method == "GET"@ && !upload)
            &&& !(request.method == "POST"@ && upload && !one)
            &&& !(request.method == "DELETE"@ && !upload && one)
        }),
    ensures
        refuses(
            session::answer_to(session, request),
            session,
            405,
            "methodNotAllowed"@,
            "not one of the four calls"@,
        ),
{
    lemma_route(upload, bucket, tail);
    lemma_methods();
}

/// With the token, a path outside the API is refused with 404, whatever the
/// method; so is one in it that does not get as far as the objects.
pub proof fn other_paths_are_refused(session: SessionView, request: RequestView, rest: Seq<char>)
    requires
        message::header_value(request.headers, "authorization"@) == Some(
            "Bearer "@ + session.token,
        ),
        ({
            ||| !"/storage/v1/b/"@.is_prefix_of(request.path)
                && !"/upload/storage/v1/b/"@.is_prefix_of(request.path)
            ||| {
                &&& request.path == "/storage/v1/b/"@ + rest || request.path
                    == "/upload/storage/v1/b/"@ + rest
                &&& forall|i: int|
                    0 <= i < rest.len() - 1 ==> !(#[trigger] rest[i] == '/' && rest[i + 1] == 'o')
            }
        }),
    ensures
        refuses(session::answer_to(session, request), session, 404, "notFound"@, "Not Found"@),
{
    let path = request.path;
    if "/storage/v1/b/"@.is_prefix_of(path) || "/upload/storage/v1/b/"@.is_prefix_of(path) {
        lemma_parts(rest);
        lemma_no_mark(rest);
    } else {
        lemma_outside(path);
    }
}

proof fn lemma_no_mark(rest: Seq<char>)
    requires
        forall|i: int|
            0 <= i < rest.len() - 1 ==> !(#[trigger] rest[i] == '/' && rest[i + 1] == 'o'),
    ensures
        text::split(rest, "/o"@) is None,
{
    reveal_strlit("/o");
    assert forall|i: int| 0 <= i <= rest.len() implies !"/o"@.is_prefix_of(
        #[trigger] rest.skip(i),
    ) by {
        if "/o"@.is_prefix_of(rest.skip(i)) {
            text::lemma_prefix_at("/o"@, rest.skip(i), 0);
            text::lemma_prefix_at("/o"@, rest.skip(i), 1);
            assert(rest[i] == '/');
        }
    }
    text::a_mark_that_stands_nowhere_is_not_found(rest, "/o"@);
}

proof fn lemma_outside(path: Seq<char>)
    requires
        !"/storage/v1/b/"@.is_prefix_of(path),
        !"/upload/storage/v1/b/"@.is_prefix_of(path),
    ensures
        session::route(path) is None,
{
    if "/upload"@.is_prefix_of(path) {
        let inner = path.skip("/upload"@.len() as int);
        if "/storage/v1/b/"@.is_prefix_of(inner) {
            let rest = inner.skip("/storage/v1/b/"@.len() as int);
            assert(inner == "/storage/v1/b/"@ + rest);
            assert(path == "/upload"@ + inner);
            lemma_parts(rest);
            let whole = "/upload/storage/v1/b/"@;
            assert((whole + rest).subrange(0, whole.len() as int) == whole);
        }
    }
}

/// After a client's upload, the object's item in a listing of a prefix of its
/// name shows the length of what was uploaded, and the answer to the upload
/// showed the same.
pub proof fn an_uploaded_object_shows_its_length(
    session: SessionView,
    client: ClientView,
    bucket: Seq<char>,
    name: Seq<char>,
    prefix: Seq<char>,
    bytes: Seq<u8>,
)
    requires
        session.token == client.token,
        session.objects.dom().finite(),
        prefix.is_prefix_of(name),
    ensures
        ({
            let put = session::answer_to(session, client::put_request(client, bucket, name, bytes));
            let answered = put.reply.body->Document_0->Object_0;
            let list = session::answer_to(
                put.session,
                client::list_request(client, bucket, prefix),
            );
            let listing = list.reply.body->Document_0->Object_0;
            let items = listing["items"@]->List_0;
            &&& put.reply.status == 200
            &&& put.reply.body is Document
            &&& put.reply.body->Document_0 is Object
            &&& answered["name"@] == Json::Text(name)
            &&& answered["bucket"@] == Json::Text(bucket)
            &&& answered["kind"@] == Json::Text("storage#object"@)
            &&& answered["size"@] is Text
            &&& text::number_read(answered["size"@]->Text_0) == bytes.len()
            &&& list.reply.status == 200
            &&& list.reply.body is Document
            &&& list.reply.body->Document_0 is Object
            &&& listing.contains_key("items"@)
            &&& listing["items"@] is List
            &&& exists|i: int|
                #![trigger items[i]]
                {
                    let item = items[i]->Object_0;
                    &&& 0 <= i < items.len()
                    &&& items[i] is Object
                    &&& item["name"@] == Json::Text(name)
                    &&& item["bucket"@] == Json::Text(bucket)
                    &&& item["kind"@] == Json::Text("storage#object"@)
                    &&& item["size"@] is Text
                    &&& text::number_read(item["size"@]->Text_0) == bytes.len()
                }
        }),
{
    let put = session::answer_to(session, client::put_request(client, bucket, name, bytes));
    let list = session::answer_to(put.session, client::list_request(client, bucket, prefix));
    laws::put_reaches_the_session(session, client, bucket, name, bytes);
    a_resource_tells_name_bucket_and_length(bucket, name, bytes.len());
    laws::list_reaches_the_session(put.session, client, bucket, prefix);
    laws::lemma_names_finite(put.session.objects, bucket, prefix);
    text::in_order_holds_each_once(session::names(put.session.objects, bucket, prefix));
    let listed = session::names_under(put.session.objects, bucket, prefix);
    let resources = session::resources(put.session.objects, bucket, listed);
    assert(session::names(put.session.objects, bucket, prefix).contains(name));
    assert(listed.contains(name));
    let at = choose|at: int| 0 <= at < listed.len() && listed[at] == name;
    a_listing_has_its_items(resources);
    let items = list.reply.body->Document_0->Object_0["items"@]->List_0;
    assert(items == resources);
    assert(items[at] == session::resource_document(bucket, name, bytes.len()));
}

/// A reply goes out with its status: bytes as they are and as a stream of
/// octets, a document as JSON that reads back as it, nothing as nothing.
pub proof fn replies_go_out_as_they_are(result: (Event, Response), answer: Answer)
    requires
        session::gives(result, answer),
    ensures
        ({
            let event = result.0;
            let response = result.1@;
            let told = message::header_value(response.headers, "content-type"@);
            &&& response.status == answer.reply.status
            &&& match answer.reply.body {
                Body::Empty => response.body.len() == 0 && told is None,
                Body::Media(bytes) => response.body == bytes && told == Some(
                    "application/octet-stream"@,
                ),
                Body::Document(document) => {
                    &&& json::parsed(response.body) == Ok::<Json, Seq<char>>(document)
                    &&& told == Some("application/json; charset=UTF-8"@)
                },
            }
            &&& match event {
                Event::Listed { bucket, prefix } => answer.event == (EventView::Listed {
                    bucket: bucket@,
                    prefix: prefix@,
                }),
                Event::Retrieved(origin) => answer.event == EventView::Retrieved(origin@),
                Event::Stored(arrived) => answer.event == EventView::Stored(
                    ArrivedView { origin_uri: arrived.origin_uri@, bytes: arrived.bytes@ },
                ),
                Event::Deleted(origin) => answer.event == EventView::Deleted(origin@),
                Event::Refused(reason) => answer.event == EventView::Refused(reason@),
            }
        }),
{
    reveal_strlit("Content-Type");
    reveal_strlit("content-type");
    assert(text::lowered("Content-Type"@) =~= text::lowered("content-type"@));
    let headers = result.1@.headers;
    if headers.len() > 0 {
        message::the_first_header_counts(headers, "content-type"@, 0);
    }
}

} // verus!
