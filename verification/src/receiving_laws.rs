//! What a receive does with each exchange, whatever the service answers.
//!
//! A Stream arrives in one way only: its object was fetched, and the deletion
//! that followed was answered 2xx. Every other answer leaves what has arrived
//! as it is, and one that is not 2xx ends the receive.

use vstd::prelude::*;

use crate::arrived::{Arrived, ArrivedView};
use crate::client;
use crate::client::ClientView;
use crate::error::{Failure, TransportError};
use crate::laws;
use crate::message::{Response, ResponseView};
use crate::percent;
use crate::receiving;
use crate::receiving::{ReceivingView, StageView};
use crate::text;

verus! {

/// A receive begins with its listing, from where it was told, with nothing
/// arrived.
pub proof fn a_receive_begins_with_its_listing(
    client: ClientView,
    bucket: Seq<char>,
    prefix: Seq<char>,
)
    ensures
        ({
            let start = receiving::begun(client, bucket, prefix);
            &&& start.client == client
            &&& start.bucket == bucket
            &&& start.prefix == prefix
            &&& start.stage == StageView::Listing
            &&& start.arrived.len() == 0
        }),
{
}

/// Before its listing a receive asks for the objects under its prefix; with
/// names left, for the first of them, and then for its deletion; once it is
/// over, for nothing.
pub proof fn a_receive_asks_for_the_first_that_is_left(receiving: ReceivingView)
    ensures
        ({
            let asked = receiving::next_request(receiving);
            let objects = "/storage/v1/b/"@ + percent::encoded(receiving.bucket) + "/o"@;
            match receiving.stage {
                StageView::Listing => {
                    &&& asked is Some
                    &&& asked->0.method == "GET"@
                    &&& asked->0.path == objects
                    &&& asked->0.query == seq![("prefix"@, receiving.prefix)]
                    &&& asked->0 == client::list_request(
                        receiving.client,
                        receiving.bucket,
                        receiving.prefix,
                    )
                },
                StageView::Fetching { names } => {
                    &&& asked is Some
                    &&& asked->0.method == "GET"@
                    &&& asked->0.path == objects + "/"@ + percent::encoded(names[0])
                    &&& asked->0 == client::get_request(
                        receiving.client,
                        receiving.bucket,
                        names[0],
                    )
                },
                StageView::Deleting { names, .. } => {
                    &&& asked is Some
                    &&& asked->0.method == "DELETE"@
                    &&& asked->0.path == objects + "/"@ + percent::encoded(names[0])
                    &&& asked->0 == client::delete_request(
                        receiving.client,
                        receiving.bucket,
                        names[0],
                    )
                },
                StageView::Received => asked is None,
                StageView::Failed(_) => asked is None,
            }
        }),
{
}

/// A receive that is under way and answered other than 2xx, at whatever stage,
/// has failed: with the status and what the service said of it, worth
/// repeating exactly where the status is 408, 429 or at least 500. It asks for
/// nothing more, and nothing has arrived that had not before.
pub proof fn a_refused_exchange_ends_the_receive(receiving: ReceivingView, response: ResponseView)
    requires
        receiving.stage is Listing || receiving.stage is Fetching || receiving.stage is Deleting,
        !(200 <= response.status < 300),
    ensures
        ({
            let next = receiving::advanced(receiving, Ok(response));
            let told = "Cloud Storage answered "@ + text::decimal(response.status as nat) + " "@;
            &&& next.stage is Failed
            &&& next.stage->Failed_0.retryable <==> response.status >= 500 || response.status
                == 408 || response.status == 429
            &&& told.is_prefix_of(next.stage->Failed_0.message)
            &&& client::judged(response) == Err::<ResponseView, Failure>(next.stage->Failed_0)
            &&& receiving::next_request(next) is None
            &&& next.arrived == receiving.arrived
        }),
{
    let next = receiving::advanced(receiving, Ok(response));
    let told = "Cloud Storage answered "@ + text::decimal(response.status as nat) + " "@;
    let message = next.stage->Failed_0.message;
    assert(message.subrange(0, told.len() as int) == told);
}

/// A receive that is under way and gets no answer has failed with the reason
/// for that, asks for nothing more, and keeps what has arrived.
pub proof fn a_lost_exchange_ends_the_receive(receiving: ReceivingView, failure: Failure)
    requires
        receiving.stage is Listing || receiving.stage is Fetching || receiving.stage is Deleting,
    ensures
        ({
            let next = receiving::advanced(receiving, Err(failure));
            &&& next.stage == StageView::Failed(failure)
            &&& receiving::next_request(next) is None
            &&& next.arrived == receiving.arrived
        }),
{
}

/// A Stream arrives exactly where a deletion is answered 2xx: the object that
/// was deleted, by its origin, with the bytes that were fetched. Nothing else
/// ever changes what has arrived.
pub proof fn a_stream_arrives_once_its_deletion_is_done(
    receiving: ReceivingView,
    exchange: Result<ResponseView, Failure>,
)
    ensures
        ({
            let next = receiving::advanced(receiving, exchange);
            let done = exchange is Ok && 200 <= exchange->Ok_0.status < 300;
            &&& receiving.stage is Deleting && done ==> next.arrived == receiving.arrived.push(
                ArrivedView {
                    origin_uri: "gs://"@ + receiving.bucket + "/"@
                        + receiving.stage->Deleting_names[0],
                    bytes: receiving.stage->Deleting_bytes,
                },
            )
            &&& !(receiving.stage is Deleting && done) ==> next.arrived == receiving.arrived
        }),
{
    if receiving.stage is Deleting {
        let name = receiving.stage->Deleting_names[0];
        assert("gs://"@ + receiving.bucket + "/"@ + name == "gs://"@ + (receiving.bucket + "/"@
            + name));
    }
}

/// After a deletion answered 2xx the names behind the deleted one are left; the
/// receive is over where there are none.
pub proof fn a_done_deletion_leaves_the_rest(receiving: ReceivingView, response: ResponseView)
    requires
        receiving.stage is Deleting,
        receiving.stage->Deleting_names.len() > 0,
        200 <= response.status < 300,
    ensures
        ({
            let names = receiving.stage->Deleting_names;
            let next = receiving::advanced(receiving, Ok(response));
            &&& names.len() == 1 ==> next.stage == StageView::Received
            &&& names.len() > 1 ==> {
                &&& next.stage is Fetching
                &&& next.stage->Fetching_names.len() == names.len() - 1
                &&& forall|i: int|
                    0 <= i < names.len() - 1 ==> #[trigger] next.stage->Fetching_names[i]
                        == names[i + 1]
            }
        }),
{
}

/// After a fetch answered 2xx the body is kept, and the same object is to be
/// deleted.
pub proof fn a_done_fetch_is_kept(receiving: ReceivingView, response: ResponseView)
    requires
        receiving.stage is Fetching,
        200 <= response.status < 300,
    ensures
        receiving::advanced(receiving, Ok(response)).stage == (StageView::Deleting {
            names: receiving.stage->Fetching_names,
            bytes: response.body,
        }),
{
}

/// After its listing a receive has the listed names before it, all of them and
/// in their order; it is over where there are none, and has failed where the
/// answer was no listing.
pub proof fn a_done_listing_is_fetched(receiving: ReceivingView, response: ResponseView)
    requires
        receiving.stage is Listing,
    ensures
        match client::listed_in(response) {
            Ok(names) => if names.len() == 0 {
                receiving::advanced(receiving, Ok(response)).stage == StageView::Received
            } else {
                receiving::advanced(receiving, Ok(response)).stage == (StageView::Fetching {
                    names,
                })
            },
            Err(failure) => receiving::advanced(receiving, Ok(response)).stage
                == StageView::Failed(failure),
        },
{
}

/// Whatever is answered, a receive stays with its client, its bucket and its
/// prefix, and once it is over it stays as it is.
pub proof fn a_receive_stays_with_its_bucket(
    receiving: ReceivingView,
    exchange: Result<ResponseView, Failure>,
)
    ensures
        ({
            let next = receiving::advanced(receiving, exchange);
            &&& next.client == receiving.client
            &&& next.bucket == receiving.bucket
            &&& next.prefix == receiving.prefix
            &&& receiving.stage is Received || receiving.stage is Failed ==> next == receiving
        }),
{
}

/// Over any answers, a receive only adds to what has arrived, one Stream to two
/// answers at most.
pub proof fn what_has_arrived_stays(receiving: ReceivingView, responses: Seq<ResponseView>)
    ensures
        ({
            let end = laws::receiving_after(receiving, responses);
            let grown = end.arrived.len() - receiving.arrived.len();
            &&& receiving.arrived.is_prefix_of(end.arrived)
            &&& 2 * grown <= responses.len() + 1
            &&& !(receiving.stage is Deleting) ==> 2 * grown <= responses.len()
        }),
    decreases responses.len(),
{
    if responses.len() > 0 {
        let next = receiving::answered(receiving, responses[0]);
        a_stream_arrives_once_its_deletion_is_done(receiving, Ok(responses[0]));
        what_has_arrived_stays(next, responses.drop_first());
        let end = laws::receiving_after(receiving, responses);
        assert(end.arrived.subrange(0, receiving.arrived.len() as int) == receiving.arrived) by {
            assert(end.arrived.subrange(0, next.arrived.len() as int) == next.arrived);
            assert forall|i: int| 0 <= i < receiving.arrived.len() implies end.arrived[i]
                == receiving.arrived[i] by {
                assert(end.arrived.subrange(0, next.arrived.len() as int)[i] == end.arrived[i]);
            }
        }
    } else {
        assert(receiving.arrived.subrange(0, receiving.arrived.len() as int) == receiving.arrived);
    }
}

/// Streams, errors and exchanges are handed on as they are.
pub proof fn exchanges_are_told_as_they_went(
    arrived: Seq<Arrived>,
    exchange: Result<Response, TransportError>,
)
    ensures
        receiving::streams(arrived).len() == arrived.len(),
        forall|i: int|
            #![trigger receiving::streams(arrived)[i]]
            0 <= i < arrived.len() ==> {
                &&& receiving::streams(arrived)[i].origin_uri == arrived[i].origin_uri@
                &&& receiving::streams(arrived)[i].bytes == arrived[i].bytes@
            },
        match exchange {
            Ok(response) => receiving::outcome(exchange) == Ok::<ResponseView, Failure>(response@),
            Err(error) => {
                &&& receiving::outcome(exchange) is Err
                &&& receiving::outcome(exchange)->Err_0.message == error.message@
                &&& receiving::outcome(exchange)->Err_0.retryable == error.retryable
            },
        },
{
}

} // verus!
