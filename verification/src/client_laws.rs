//! What a client asks for and makes of the answers, in the API's own terms.
//!
//! Methods, paths, statuses and members are written out here: these are what
//! the service on the other side goes by.

use serde_json::Value;
use vstd::prelude::*;

use crate::client;
use crate::client::ClientView;
use crate::error::{Failure, TransportError};
use crate::json;
use crate::json::Json;
use crate::message::ResponseView;
use crate::percent;
use crate::text;

verus! {

/// The four calls as they go out: each has one method, one path, one query and
/// one set of headers, and only an upload has a body.
pub proof fn the_calls_are_the_four_of_the_api(
    client: ClientView,
    bucket: Seq<char>,
    name: Seq<char>,
    prefix: Seq<char>,
    bytes: Seq<u8>,
)
    ensures
        ({
            let objects = "/storage/v1/b/"@ + percent::encoded(bucket) + "/o"@;
            let object = objects + "/"@ + percent::encoded(name);
            let host = ("Host"@, client.host);
            let token = ("Authorization"@, "Bearer "@ + client.token);
            let list = client::list_request(client, bucket, prefix);
            let get = client::get_request(client, bucket, name);
            let put = client::put_request(client, bucket, name, bytes);
            let delete = client::delete_request(client, bucket, name);
            &&& list.method == "GET"@
            &&& list.path == objects
            &&& list.query == seq![("prefix"@, prefix)]
            &&& list.headers == seq![host, token]
            &&& list.body == Seq::<u8>::empty()
            &&& get.method == "GET"@
            &&& get.path == object
            &&& get.query == seq![("alt"@, "media"@)]
            &&& get.headers == seq![host, token]
            &&& get.body == Seq::<u8>::empty()
            &&& put.method == "POST"@
            &&& put.path == "/upload"@ + objects
            &&& put.query == seq![("uploadType"@, "media"@), ("name"@, name)]
            &&& put.headers == seq![
                ("Content-Type"@, "application/octet-stream"@),
                host,
                token,
            ]
            &&& put.body == bytes
            &&& delete.method == "DELETE"@
            &&& delete.path == object
            &&& delete.query == Seq::<(Seq<char>, Seq<char>)>::empty()
            &&& delete.headers == seq![host, token]
            &&& delete.body == Seq::<u8>::empty()
        }),
{
}

/// A bucket and a name of letters, digits and the marks `-._~` stand in the
/// paths as they are.
pub proof fn plain_names_stand_in_the_path(
    client: ClientView,
    bucket: Seq<char>,
    name: Seq<char>,
    prefix: Seq<char>,
    bytes: Seq<u8>,
)
    requires
        forall|i: int|
            0 <= i < bucket.len() ==> {
                let c = #[trigger] bucket[i];
                'A' <= c <= 'Z' || 'a' <= c <= 'z' || '0' <= c <= '9' || c == '-' || c == '.' || c
                    == '_' || c == '~'
            },
        forall|i: int|
            0 <= i < name.len() ==> {
                let c = #[trigger] name[i];
                'A' <= c <= 'Z' || 'a' <= c <= 'z' || '0' <= c <= '9' || c == '-' || c == '.' || c
                    == '_' || c == '~'
            },
    ensures
        client::list_request(client, bucket, prefix).path == "/storage/v1/b/"@ + bucket + "/o"@,
        client::get_request(client, bucket, name).path == "/storage/v1/b/"@ + bucket + "/o/"@
            + name,
        client::put_request(client, bucket, name, bytes).path == "/upload/storage/v1/b/"@ + bucket
            + "/o"@,
        client::delete_request(client, bucket, name).path == "/storage/v1/b/"@ + bucket + "/o/"@
            + name,
{
    percent::encoding_keeps_plain_text(bucket);
    percent::encoding_keeps_plain_text(name);
    reveal_strlit("/o");
    reveal_strlit("/");
    reveal_strlit("/o/");
    reveal_strlit("/upload");
    reveal_strlit("/storage/v1/b/");
    reveal_strlit("/upload/storage/v1/b/");
    assert("/o"@ + "/"@ == "/o/"@);
    assert("/upload"@ + "/storage/v1/b/"@ == "/upload/storage/v1/b/"@);
    assert(client::object_path(bucket, name) == "/storage/v1/b/"@ + bucket + ("/o"@ + "/"@) + name);
    assert("/upload"@ + client::objects_path(bucket) == "/upload"@ + "/storage/v1/b/"@ + bucket
        + "/o"@);
}

/// A call is worth repeating exactly where its status is 408, 429 or at least
/// 500, whatever the body says; the failure tells the status and the message.
pub proof fn a_status_alone_says_to_come_back(status: u16, message: Seq<char>)
    ensures
        ({
            let failure = client::answered_with(status, message);
            &&& failure.retryable <==> status >= 500 || status == 408 || status == 429
            &&& failure.message == "Cloud Storage answered "@ + text::decimal(status as nat) + " "@
                + message
        }),
{
}

/// A response of 200 to 299 is taken as it is. Any other is a failure, worth
/// repeating exactly where its status is 408, 429 or at least 500.
pub proof fn a_response_is_judged_by_its_status(response: ResponseView)
    ensures
        200 <= response.status < 300 ==> client::judged(response) == Ok::<ResponseView, Failure>(
            response,
        ),
        !(200 <= response.status < 300) ==> {
            &&& client::judged(response) is Err
            &&& client::judged(response)->Err_0.retryable <==> response.status >= 500
                || response.status == 408 || response.status == 429
        },
{
}

/// The service's message, the text at `error.message`, is the last of the
/// failure's words, whatever else the body has.
pub proof fn a_failure_tells_the_services_message(
    response: ResponseView,
    top: Map<Seq<char>, Json>,
    error: Map<Seq<char>, Json>,
    message: Seq<char>,
)
    requires
        !(200 <= response.status < 300),
        json::parsed(response.body) == Ok::<Json, Seq<char>>(Json::Object(top)),
        top.contains_key("error"@),
        top["error"@] == Json::Object(error),
        error.contains_key("message"@),
        error["message"@] == Json::Text(message),
    ensures
        client::judged(response) is Err,
        client::judged(response)->Err_0.message == "Cloud Storage answered "@ + text::decimal(
            response.status as nat,
        ) + " "@ + message,
        client::message_of(Ok(Json::Object(top))) == message,
{
}

/// A body without a text at `error.message` adds nothing to the failure.
pub proof fn a_failure_without_a_message_tells_the_status(response: ResponseView)
    requires
        !(200 <= response.status < 300),
        match json::parsed(response.body) {
            Ok(Json::Object(top)) => !top.contains_key("error"@) || match top["error"@] {
                Json::Object(error) => !error.contains_key("message"@) || !(error["message"@] is Text),
                _ => true,
            },
            _ => true,
        },
    ensures
        client::judged(response) is Err,
        client::judged(response)->Err_0.message == "Cloud Storage answered "@ + text::decimal(
            response.status as nat,
        ) + " "@,
{
    let start = "Cloud Storage answered "@ + text::decimal(response.status as nat) + " "@;
    assert(start + Seq::<char>::empty() == start);
}

/// The same of a body that was parsed before: only a text at `error.message`
/// is its message.
pub proof fn a_message_is_a_text_at_its_place(body: Result<Json, Seq<char>>)
    ensures
        match body {
            Ok(Json::Object(top)) if top.contains_key("error"@) => match top["error"@] {
                Json::Object(error) if error.contains_key("message"@) => match error["message"@] {
                    Json::Text(message) => client::message_of(body) == message,
                    _ => client::message_of(body).len() == 0,
                },
                _ => client::message_of(body).len() == 0,
            },
            _ => client::message_of(body).len() == 0,
        },
{
}

/// Whatever else its items have, a listing in which every item has a text as
/// its `name` is read as exactly these names, in their order.
pub proof fn a_listing_is_read_as_the_names_of_its_items(
    listing: Map<Seq<char>, Json>,
    items: Seq<Json>,
    names: Seq<Seq<char>>,
)
    requires
        listing.contains_key("items"@),
        listing["items"@] == Json::List(items),
        items.len() == names.len(),
        forall|i: int|
            #![trigger items[i]]
            #![trigger names[i]]
            0 <= i < items.len() ==> {
                &&& items[i] is Object
                &&& items[i]->Object_0.contains_key("name"@)
                &&& items[i]->Object_0["name"@] == Json::Text(names[i])
            },
    ensures
        client::listing_of(Ok(Json::Object(listing))) == Ok::<Seq<Seq<char>>, Failure>(names),
{
    lemma_all_named(items, names);
}

proof fn lemma_all_named(items: Seq<Json>, names: Seq<Seq<char>>)
    requires
        items.len() == names.len(),
        forall|i: int|
            #![trigger items[i]]
            #![trigger names[i]]
            0 <= i < items.len() ==> {
                &&& items[i] is Object
                &&& items[i]->Object_0.contains_key("name"@)
                &&& items[i]->Object_0["name"@] == Json::Text(names[i])
            },
    ensures
        client::item_names(items) == names,
    decreases items.len(),
{
    if items.len() > 0 {
        let last = items.len() - 1;
        lemma_all_named(items.drop_last(), names.drop_last());
        assert(json::member(items[last], "name"@) == Json::Text(names[last]));
        assert(names == names.drop_last().push(names[last]));
    }
}

/// Of any items, exactly those that are objects with a text as their `name`
/// are read, in their order; `places` are where these stand. An item whose name
/// is no text contributes nothing.
pub proof fn only_items_with_a_name_are_read(
    listing: Map<Seq<char>, Json>,
    items: Seq<Json>,
    places: Seq<int>,
    names: Seq<Seq<char>>,
)
    requires
        listing.contains_key("items"@),
        listing["items"@] == Json::List(items),
        places.len() == names.len(),
        forall|j: int, k: int|
            #![trigger places[j], places[k]]
            0 <= j < k < places.len() ==> places[j] < places[k],
        forall|j: int|
            #![trigger places[j]]
            #![trigger names[j]]
            0 <= j < places.len() ==> {
                &&& 0 <= places[j] < items.len()
                &&& items[places[j]] is Object
                &&& items[places[j]]->Object_0.contains_key("name"@)
                &&& items[places[j]]->Object_0["name"@] == Json::Text(names[j])
            },
        forall|i: int|
            #![trigger items[i]]
            0 <= i < items.len() && !places.contains(i) ==> !(items[i] is Object
                && items[i]->Object_0.contains_key("name"@) && items[i]->Object_0["name"@] is Text),
    ensures
        client::listing_of(Ok(Json::Object(listing))) == Ok::<Seq<Seq<char>>, Failure>(names),
{
    lemma_named_at(items, places, names);
}

proof fn lemma_named_at(items: Seq<Json>, places: Seq<int>, names: Seq<Seq<char>>)
    requires
        places.len() == names.len(),
        forall|j: int, k: int|
            #![trigger places[j], places[k]]
            0 <= j < k < places.len() ==> places[j] < places[k],
        forall|j: int|
            #![trigger places[j]]
            #![trigger names[j]]
            0 <= j < places.len() ==> {
                &&& 0 <= places[j] < items.len()
                &&& items[places[j]] is Object
                &&& items[places[j]]->Object_0.contains_key("name"@)
                &&& items[places[j]]->Object_0["name"@] == Json::Text(names[j])
            },
        forall|i: int|
            #![trigger items[i]]
            0 <= i < items.len() && !places.contains(i) ==> !(items[i] is Object
                && items[i]->Object_0.contains_key("name"@) && items[i]->Object_0["name"@] is Text),
    ensures
        client::item_names(items) == names,
    decreases items.len(),
{
    if items.len() > 0 {
        let last = items.len() - 1;
        let before = items.drop_last();
        assert(items.last() == items[last]);
        if places.contains(last) {
            let j = choose|j: int| 0 <= j < places.len() && places[j] == last;
            let end = places.len() - 1;
            if j < end {
                assert(places[j] < places[end]);
            }
            let fewer = places.drop_last();
            assert forall|i: int|
                #![trigger before[i]]
                0 <= i < before.len() && !fewer.contains(i) implies !(before[i] is Object
                && before[i]->Object_0.contains_key("name"@)
                && before[i]->Object_0["name"@] is Text) by {
                assert(before[i] == items[i]);
                if places.contains(i) {
                    let k = choose|k: int| 0 <= k < places.len() && places[k] == i;
                    assert(fewer[k] == i);
                }
            }
            assert forall|k: int| 0 <= k < fewer.len() implies #[trigger] fewer[k] < last by {
                assert(places[k] < places[end]);
            }
            lemma_named_at(before, fewer, names.drop_last());
            assert(json::member(items[last], "name"@) == Json::Text(names[end]));
            assert(names == names.drop_last().push(names[end]));
        } else {
            assert forall|k: int| 0 <= k < places.len() implies #[trigger] places[k] < last by {
                assert(places.contains(places[k]));
            }
            lemma_named_at(before, places, names);
            assert(!(json::member(items[last], "name"@) is Text));
        }
    } else {
        if places.len() > 0 {
            assert(0 <= places[0] < items.len());
        }
        assert(names == Seq::<Seq<char>>::empty());
    }
}

/// What a listing is: an object with a list of items, or one that says it is
/// `storage#objects` and has no items, or null for them. That one names
/// nothing. Everything else is refused for good.
pub proof fn what_is_no_listing_is_refused(body: Result<Json, Seq<char>>)
    ensures
        match body {
            Err(words) => client::listing_of(body) == Err::<Seq<Seq<char>>, Failure>(
                Failure { message: "a listing that is not JSON: "@ + words, retryable: false },
            ),
            Ok(Json::Object(top)) => if top.contains_key("items"@) && top["items"@] is List {
                client::listing_of(body) is Ok
            } else if (!top.contains_key("items"@) || top["items"@] is Null) && top.contains_key(
                "kind"@,
            ) && top["kind"@] == Json::Text("storage#objects"@) {
                client::listing_of(body) == Ok::<Seq<Seq<char>>, Failure>(seq![])
            } else {
                client::listing_of(body) == Err::<Seq<Seq<char>>, Failure>(
                    Failure { message: "an answer that is not a listing"@, retryable: false },
                )
            },
            Ok(_) => client::listing_of(body) == Err::<Seq<Seq<char>>, Failure>(
                Failure { message: "an answer that is not a listing"@, retryable: false },
            ),
        },
{
}

/// A listing is read in a response of 200 to 299 only; any other comes to the
/// failure that it is for every call.
pub proof fn a_listing_is_read_where_the_call_was_done(response: ResponseView)
    ensures
        200 <= response.status < 300 ==> client::listed_in(response) == client::listing_of(
            json::parsed(response.body),
        ),
        !(200 <= response.status < 300) ==> {
            &&& client::judged(response) is Err
            &&& client::listed_in(response) == Err::<Seq<Seq<char>>, Failure>(
                client::judged(response)->Err_0,
            )
        },
{
}

/// The names that a caller is handed are those that were read, one by one, and
/// the error it is handed is the failure; a parse is taken as it came.
pub proof fn results_are_handed_on_as_they_are(
    result: Result<Vec<String>, TransportError>,
    expected: Result<Seq<Seq<char>>, Failure>,
    parse: Result<Value, String>,
)
    requires
        client::names_are(result, expected),
    ensures
        result is Ok <==> expected is Ok,
        result is Ok ==> {
            &&& result->Ok_0@.len() == expected->Ok_0.len()
            &&& forall|i: int|
                0 <= i < expected->Ok_0.len() ==> #[trigger] expected->Ok_0[i]
                    == result->Ok_0@[i]@
        },
        result is Err ==> {
            &&& result->Err_0.message@ == expected->Err_0.message
            &&& result->Err_0.retryable == expected->Err_0.retryable
        },
        match parse {
            Ok(value) => client::parse_of(parse) == Ok::<Json, Seq<char>>(json::json(value)),
            Err(words) => client::parse_of(parse) == Err::<Json, Seq<char>>(words@),
        },
{
}

} // verus!
