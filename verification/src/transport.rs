//! The transport: one bucket at one endpoint, received from and sent to.

use std::time::Duration;

use vstd::prelude::*;

use crate::client::{Client, ClientView};
use crate::endpoint;
use crate::error::TransportError;
use crate::message::Request;
use crate::receiving;
use crate::receiving::Receiving;
use crate::session::{Session, SessionView};
use crate::text;

verus! {

/// Which ways a transport carries Streams.
#[derive(Clone, Copy, Debug, PartialEq, Eq)]
pub struct Directions {
    pub receives: bool,
    pub sends: bool,
}

impl Directions {
    /// Whether Streams are received.
    pub fn receives(self) -> (receives: bool)
        ensures
            receives == self.receives,
    {
        self.receives
    }

    /// Whether Streams are sent.
    pub fn sends(self) -> (sends: bool)
        ensures
            sends == self.sends,
    {
        self.sends
    }
}

/// How a transport lets one of several receivers claim an artefact.
#[derive(Clone, Copy, Debug, PartialEq, Eq)]
pub enum ResourceClaim {
    /// There are artefacts to claim, and no lock of the protocol's own is
    /// used to claim them.
    NoNativeClaim,
}

/// Objects in a Cloud Storage bucket, as Streams.
pub struct GcsTransport {
    endpoint: String,
    bucket: String,
    token: String,
    prefix: String,
    timeout: Option<Duration>,
}

/// What a [`GcsTransport`] is configured with.
#[verifier::ext_equal]
pub struct TransportView {
    pub endpoint: Seq<char>,
    pub bucket: Seq<char>,
    pub token: Seq<char>,
    pub prefix: Seq<char>,
    pub timeout: Option<Duration>,
}

impl View for GcsTransport {
    type V = TransportView;

    closed spec fn view(&self) -> TransportView {
        TransportView {
            endpoint: self.endpoint@,
            bucket: self.bucket@,
            token: self.token@,
            prefix: self.prefix@,
            timeout: self.timeout,
        }
    }
}

/// The bucket and name in `gs://bucket/name`.
pub open spec fn named_target(target: Seq<char>) -> Option<(Seq<char>, Seq<char>)> {
    match text::after(target, "gs://"@) {
        Some(rest) => text::split(rest, "/"@),
        None => None,
    }
}

/// The bucket and name that `target` means where `bucket` is the transport's.
pub open spec fn resolved(bucket: Seq<char>, target: Seq<char>) -> (Seq<char>, Seq<char>) {
    match named_target(target) {
        Some(named) => named,
        None => (bucket, target),
    }
}

/// The client of `transport`, where its endpoint is an HTTP URL.
pub open spec fn client_of(transport: TransportView) -> Option<ClientView> {
    match endpoint::authority_of(transport.endpoint) {
        Some(host) => Some(
            ClientView {
                endpoint: transport.endpoint,
                host,
                token: transport.token,
                timeout: transport.timeout,
            },
        ),
        None => None,
    }
}

impl GcsTransport {
    /// Speak to the endpoint at `endpoint` (`http://host:port` or
    /// `https://host:port`, `https://storage.googleapis.com` in the cloud)
    /// about `bucket`.
    #[must_use]
    pub fn new(endpoint: &str, bucket: &str) -> (transport: Self)
        ensures
            transport@ == (TransportView {
                endpoint: endpoint@,
                bucket: bucket@,
                token: seq![],
                prefix: seq![],
                timeout: None,
            }),
    {
        GcsTransport {
            endpoint: endpoint.to_string(),
            bucket: bucket.to_string(),
            token: String::new(),
            prefix: String::new(),
            timeout: None,
        }
    }

    /// Present this bearer token.
    #[must_use]
    pub fn with_token(self, token: &str) -> (transport: Self)
        ensures
            transport@ == (TransportView { token: token@, ..self@ }),
    {
        let mut transport = self;
        transport.token = token.to_string();
        transport
    }

    /// Receive only what is under `prefix`, `in/` say.
    #[must_use]
    pub fn with_prefix(self, prefix: &str) -> (transport: Self)
        ensures
            transport@ == (TransportView { prefix: prefix@, ..self@ }),
    {
        let mut transport = self;
        transport.prefix = prefix.to_string();
        transport
    }

    /// Give up on an endpoint that stops answering after `timeout`.
    #[must_use]
    pub fn timing_out_after(self, timeout: Duration) -> (transport: Self)
        ensures
            transport@ == (TransportView { timeout: Some(timeout), ..self@ }),
    {
        let mut transport = self;
        transport.timeout = Some(timeout);
        transport
    }

    /// The client this transport speaks through.
    ///
    /// # Errors
    /// Where the endpoint is not an HTTP URL.
    pub fn client(&self) -> (result: Result<Client, TransportError>)
        ensures
            match result {
                Ok(client) => client_of(self@) == Some(client@),
                Err(error) => {
                    &&& client_of(self@) is None
                    &&& error@ == endpoint::not_http(self@.endpoint)
                },
            },
    {
        match Client::new(self.endpoint.as_str(), self.token.as_str()) {
            Ok(client) => Ok(
                match self.timeout {
                    Some(timeout) => client.timing_out_after(timeout),
                    None => client,
                },
            ),
            Err(error) => Err(error),
        }
    }

    /// A far end that expects this transport's token, for a test or the
    /// playground to run on loopback.
    #[must_use]
    pub fn session(&self) -> (session: Session)
        ensures
            session@ == (SessionView {
                token: self@.token,
                objects: Map::empty(),
                timeout: self@.timeout,
            }),
    {
        let session = Session::new(self.token.as_str());
        match self.timeout {
            Some(timeout) => session.timing_out_after(timeout),
            None => session,
        }
    }

    /// Where a target names the bucket and object itself, `gs://bucket/name`,
    /// or is a name alone in this transport's bucket.
    pub fn resolve<'a>(&'a self, target: &'a str) -> (result: (&'a str, &'a str))
        ensures
            (result.0@, result.1@) == resolved(self@.bucket, target@),
    {
        if let Some(rest) = text::strip_prefix(target, "gs://") {
            if let Some((bucket, name)) = text::split_once(rest, "/") {
                return (bucket, name);
            }
        }
        (self.bucket.as_str(), target)
    }

    /// What this transport is called.
    #[must_use]
    pub fn name(&self) -> (name: &'static str)
        ensures
            name@ == "google-cloud-storage"@,
    {
        "google-cloud-storage"
    }

    /// Both ways.
    #[must_use]
    pub fn directions(&self) -> (directions: Directions)
        ensures
            directions == (Directions { receives: true, sends: true }),
    {
        Directions { receives: true, sends: true }
    }

    /// Objects are artefacts to claim; the native claim, a generation
    /// precondition, is not used.
    #[must_use]
    pub fn claims(&self) -> (claim: Option<ResourceClaim>)
        ensures
            claim == Some(ResourceClaim::NoNativeClaim),
    {
        Some(ResourceClaim::NoNativeClaim)
    }

    /// Begin to receive every object under the prefix, each deleted once it is
    /// a Stream.
    ///
    /// # Errors
    /// Where the endpoint is not an HTTP URL.
    pub fn receive(&self) -> (result: Result<Receiving, TransportError>)
        ensures
            match result {
                Ok(receiving) => {
                    &&& client_of(self@) is Some
                    &&& receiving@ == receiving::begun(
                        client_of(self@)->0,
                        self@.bucket,
                        self@.prefix,
                    )
                },
                Err(error) => {
                    &&& client_of(self@) is None
                    &&& error@ == endpoint::not_http(self@.endpoint)
                },
            },
    {
        match self.client() {
            Ok(client) => Ok(
                Receiving::new(client, self.bucket.as_str(), self.prefix.as_str()),
            ),
            Err(error) => Err(error),
        }
    }

    /// Send `bytes` to `target`: the client to send them through, and the
    /// request to make. Whether they were taken,
    /// [`done`](crate::client::done) says.
    ///
    /// # Errors
    /// Where the endpoint is not an HTTP URL.
    pub fn send(&self, target: &str, bytes: &[u8]) -> (result: Result<
        (Client, Request),
        TransportError,
    >)
        ensures
            match result {
                Ok((client, request)) => {
                    let (bucket, name) = resolved(self@.bucket, target@);
                    &&& client_of(self@) == Some(client@)
                    &&& request@ == crate::client::put_request(client@, bucket, name, bytes@)
                },
                Err(error) => {
                    &&& client_of(self@) is None
                    &&& error@ == endpoint::not_http(self@.endpoint)
                },
            },
    {
        let (bucket, name) = self.resolve(target);
        match self.client() {
            Ok(client) => {
                let request = client.put(bucket, name, bytes);
                Ok((client, request))
            },
            Err(error) => Err(error),
        }
    }
}

/// `gs://`, a bucket without a slash, a slash and a name mean that name in that
/// bucket, whatever the transport's own is and whatever the name has in it.
pub proof fn a_full_target_names_its_bucket(own: Seq<char>, bucket: Seq<char>, name: Seq<char>)
    requires
        !bucket.contains('/'),
    ensures
        resolved(own, "gs://"@ + bucket + "/"@ + name) == (bucket, name),
{
    reveal_strlit("/");
    let rest = bucket + "/"@ + name;
    assert("gs://"@ + bucket + "/"@ + name == "gs://"@ + rest);
    text::lemma_after("gs://"@, rest);
    text::lemma_find_behind(bucket, "/"@, name);
}

/// A target that does not start so, or has no slash behind it, is a name alone
/// in the transport's own bucket, as it stands.
pub proof fn any_other_target_is_a_name(own: Seq<char>, target: Seq<char>)
    requires
        !"gs://"@.is_prefix_of(target) || !target.skip("gs://"@.len() as int).contains('/'),
    ensures
        resolved(own, target) == (own, target),
{
    if "gs://"@.is_prefix_of(target) {
        reveal_strlit("/");
        let rest = target.skip("gs://"@.len() as int);
        assert forall|i: int| 0 <= i <= rest.len() implies !"/"@.is_prefix_of(
            #[trigger] rest.skip(i),
        ) by {
            if "/"@.is_prefix_of(rest.skip(i)) {
                text::lemma_prefix_at("/"@, rest.skip(i), 0);
                assert(rest[i] == '/');
            }
        }
        text::a_mark_that_stands_nowhere_is_not_found(rest, "/"@);
    }
}

/// A transport whose endpoint is an HTTP URL, of either scheme and with or
/// without a path, speaks to the host in it, presenting its own token and
/// waiting as long as it was told. One with another endpoint speaks to none.
pub proof fn a_transport_speaks_to_its_endpoint(
    transport: TransportView,
    host: Seq<char>,
    path: Seq<char>,
)
    requires
        host.len() > 0,
        !host.contains('/'),
    ensures
        ({
            let endpoint = transport.endpoint;
            let client = client_of(transport);
            &&& ({
                ||| endpoint == "http://"@ + host
                ||| endpoint == "https://"@ + host
                ||| endpoint == "http://"@ + host + "/"@ + path
                ||| endpoint == "https://"@ + host + "/"@ + path
            }) ==> {
                &&& client is Some
                &&& client->0.endpoint == endpoint
                &&& client->0.host == host
                &&& client->0.token == transport.token
                &&& client->0.timeout == transport.timeout
            }
            &&& !"http://"@.is_prefix_of(endpoint) && !"https://"@.is_prefix_of(endpoint)
                ==> client is None
        }),
{
    endpoint::an_http_url_names_its_host(host, path);
    endpoint::what_is_no_http_url_names_no_host(transport.endpoint, path);
}

} // verus!
