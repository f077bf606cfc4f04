//! One receive, between its exchanges.
//!
//! A receive lists a prefix, then gets each object and deletes it once it is
//! safely a Stream. Each of these is one exchange with the endpoint: a
//! [`Receiving`] says what to ask next and is told how the exchange went. The
//! first exchange that fails ends it with that failure.

use vstd::prelude::*;

use crate::arrived::{Arrived, ArrivedView};
use crate::client;
use crate::client::{Client, ClientView};
use crate::error::{Failure, TransportError};
use crate::message::{Request, RequestView, Response, ResponseView};
use crate::session;

verus! {

enum Stage {
    Listing,
    Fetching,
    Deleting(Vec<u8>),
    Received,
    Failed(TransportError),
}

/// A receive that is under way or over.
pub struct Receiving {
    client: Client,
    bucket: String,
    prefix: String,
    names: Vec<String>,
    at: usize,
    arrived: Vec<Arrived>,
    stage: Stage,
}

/// Where a receive is: before its listing, before it fetches or deletes the
/// first of the `names` that are left, or over.
pub enum StageView {
    Listing,
    Fetching { names: Seq<Seq<char>> },
    Deleting { names: Seq<Seq<char>>, bytes: Seq<u8> },
    Received,
    Failed(Failure),
}

/// What a [`Receiving`] takes, from where, and how far it is.
pub struct ReceivingView {
    pub client: ClientView,
    pub bucket: Seq<char>,
    pub prefix: Seq<char>,
    pub stage: StageView,
    pub arrived: Seq<ArrivedView>,
}

/// What `arrived` hold.
pub open spec fn streams(arrived: Seq<Arrived>) -> Seq<ArrivedView> {
    arrived.map_values(|one: Arrived| one@)
}

impl View for Receiving {
    type V = ReceivingView;

    closed spec fn view(&self) -> ReceivingView {
        let names = client::texts(self.names@).skip(self.at as int);
        ReceivingView {
            client: self.client@,
            bucket: self.bucket@,
            prefix: self.prefix@,
            stage: match self.stage {
                Stage::Listing => StageView::Listing,
                Stage::Fetching => StageView::Fetching { names },
                Stage::Deleting(bytes) => StageView::Deleting { names, bytes: bytes@ },
                Stage::Received => StageView::Received,
                Stage::Failed(error) => StageView::Failed(error@),
            },
            arrived: streams(self.arrived@),
        }
    }
}

/// The receive of `prefix` in `bucket` before its first exchange.
pub open spec fn begun(client: ClientView, bucket: Seq<char>, prefix: Seq<char>) -> ReceivingView {
    ReceivingView { client, bucket, prefix, stage: StageView::Listing, arrived: seq![] }
}

/// What to ask next; nothing once the receive is over.
pub open spec fn next_request(receiving: ReceivingView) -> Option<RequestView> {
    let client = receiving.client;
    let bucket = receiving.bucket;
    match receiving.stage {
        StageView::Listing => Some(client::list_request(client, bucket, receiving.prefix)),
        StageView::Fetching { names } => Some(client::get_request(client, bucket, names[0])),
        StageView::Deleting { names, .. } => Some(client::delete_request(client, bucket, names[0])),
        StageView::Received => None,
        StageView::Failed(_) => None,
    }
}

/// The stage in which `names` are left.
pub open spec fn left(names: Seq<Seq<char>>) -> StageView {
    if names.len() == 0 {
        StageView::Received
    } else {
        StageView::Fetching { names }
    }
}

/// How an exchange went: the response, or why there is none.
pub open spec fn outcome(exchange: Result<Response, TransportError>) -> Result<
    ResponseView,
    Failure,
> {
    match exchange {
        Ok(response) => Ok(response@),
        Err(error) => Err(error@),
    }
}

/// The receive after an exchange.
pub open spec fn advanced(
    receiving: ReceivingView,
    exchange: Result<ResponseView, Failure>,
) -> ReceivingView {
    match exchange {
        Ok(response) => answered(receiving, response),
        Err(failure) => match receiving.stage {
            StageView::Received => receiving,
            StageView::Failed(_) => receiving,
            _ => ReceivingView { stage: StageView::Failed(failure), ..receiving },
        },
    }
}

/// The receive after a response. An object arrives once its deletion is done.
pub open spec fn answered(receiving: ReceivingView, response: ResponseView) -> ReceivingView {
    match receiving.stage {
        StageView::Listing => match client::listed_in(response) {
            Ok(names) => ReceivingView { stage: left(names), ..receiving },
            Err(failure) => ReceivingView { stage: StageView::Failed(failure), ..receiving },
        },
        StageView::Fetching { names } => match client::judged(response) {
            Ok(response) => ReceivingView {
                stage: StageView::Deleting { names, bytes: response.body },
                ..receiving
            },
            Err(failure) => ReceivingView { stage: StageView::Failed(failure), ..receiving },
        },
        StageView::Deleting { names, bytes } => match client::judged(response) {
            Ok(_) => ReceivingView {
                stage: left(names.drop_first()),
                arrived: receiving.arrived.push(
                    ArrivedView { origin_uri: session::origin_uri(receiving.bucket, names[0]), bytes },
                ),
                ..receiving
            },
            Err(failure) => ReceivingView { stage: StageView::Failed(failure), ..receiving },
        },
        StageView::Received => receiving,
        StageView::Failed(_) => receiving,
    }
}

impl Receiving {
    #[verifier::type_invariant]
    spec fn some_left(&self) -> bool {
        match self.stage {
            Stage::Fetching => self.at < self.names@.len(),
            Stage::Deleting(_) => self.at < self.names@.len(),
            _ => true,
        }
    }

    /// Receive what is under `prefix` in `bucket`.
    pub fn new(client: Client, bucket: &str, prefix: &str) -> (receiving: Self)
        ensures
            receiving@ == begun(client@, bucket@, prefix@),
    {
        let arrived: Vec<Arrived> = Vec::new();
        assert(streams(arrived@) == Seq::<ArrivedView>::empty());
        Receiving {
            client,
            bucket: bucket.to_string(),
            prefix: prefix.to_string(),
            names: Vec::new(),
            at: 0,
            arrived,
            stage: Stage::Listing,
        }
    }

    /// Where and how patiently to ask.
    pub fn client(&self) -> (client: &Client)
        ensures
            client@ == self@.client,
    {
        &self.client
    }

    /// What to ask next; nothing once the receive is over.
    pub fn request(&self) -> (request: Option<Request>)
        ensures
            match request {
                Some(request) => next_request(self@) == Some(request@),
                None => next_request(self@) is None,
            },
    {
        proof {
            use_type_invariant(self);
        }
        match &self.stage {
            Stage::Listing => Some(self.client.list(self.bucket.as_str(), self.prefix.as_str())),
            Stage::Fetching => {
                Some(self.client.get(self.bucket.as_str(), self.names[self.at].as_str()))
            },
            Stage::Deleting(_) => {
                Some(self.client.delete(self.bucket.as_str(), self.names[self.at].as_str()))
            },
            Stage::Received => None,
            Stage::Failed(_) => None,
        }
    }

    /// The receive after an exchange: the response, or why there is none.
    pub fn advance(self, exchange: Result<Response, TransportError>) -> (next: Self)
        ensures
            next@ == advanced(self@, outcome(exchange)),
    {
        proof {
            use_type_invariant(&self);
        }
        let ghost before = self@;
        let Receiving { client, bucket, prefix, names, at, arrived, stage } = self;
        match stage {
            Stage::Listing => {
                let result = match exchange {
                    Ok(response) => client::listed(response),
                    Err(error) => Err(error),
                };
                match result {
                    Ok(names) => {
                        assert(client::texts(names@).skip(0) == client::texts(names@));
                        let stage = if names.is_empty() {
                            Stage::Received
                        } else {
                            Stage::Fetching
                        };
                        Receiving { client, bucket, prefix, names, at: 0, arrived, stage }
                    },
                    Err(error) => {
                        let stage = Stage::Failed(error);
                        Receiving { client, bucket, prefix, names, at, arrived, stage }
                    },
                }
            },
            Stage::Fetching => {
                let result = match exchange {
                    Ok(response) => client::fetched(response),
                    Err(error) => Err(error),
                };
                let stage = match result {
                    Ok(bytes) => Stage::Deleting(bytes),
                    Err(error) => Stage::Failed(error),
                };
                Receiving { client, bucket, prefix, names, at, arrived, stage }
            },
            Stage::Deleting(bytes) => {
                let result = match exchange {
                    Ok(response) => client::done(response),
                    Err(error) => Err(error),
                };
                match result {
                    Ok(_) => {
                        let ghost streams_before = streams(arrived@);
                        let ghost all = client::texts(names@);
                        let origin = session::origin(bucket.as_str(), names[at].as_str());
                        let mut arrived = arrived;
                        arrived.push(Arrived::new(origin.as_str(), bytes));
                        assert(streams(arrived@) == streams_before.push(arrived@.last()@));
                        assert(all.skip(at as int).drop_first() == all.skip(at + 1));
                        let count: usize = names.len();
                        let at: usize = at + 1;
                        let stage = if at == count {
                            Stage::Received
                        } else {
                            Stage::Fetching
                        };
                        Receiving { client, bucket, prefix, names, at, arrived, stage }
                    },
                    Err(error) => {
                        let stage = Stage::Failed(error);
                        Receiving { client, bucket, prefix, names, at, arrived, stage }
                    },
                }
            },
            Stage::Received => {
                Receiving { client, bucket, prefix, names, at, arrived, stage: Stage::Received }
            },
            Stage::Failed(error) => {
                Receiving { client, bucket, prefix, names, at, arrived, stage: Stage::Failed(error) }
            },
        }
    }

    /// What arrived, or what went wrong, once the receive is over; before
    /// that, nothing.
    pub fn finish(self) -> (result: Option<Result<Vec<Arrived>, TransportError>>)
        ensures
            match result {
                Some(Ok(arrived)) => {
                    &&& self@.stage is Received
                    &&& streams(arrived@) == self@.arrived
                },
                Some(Err(error)) => {
                    &&& self@.stage is Failed
                    &&& self@.stage->Failed_0 == error@
                },
                None => next_request(self@) is Some,
            },
    {
        match self.stage {
            Stage::Received => Some(Ok(self.arrived)),
            Stage::Failed(error) => Some(Err(error)),
            _ => None,
        }
    }
}

} // verus!
