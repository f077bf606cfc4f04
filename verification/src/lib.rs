//! Streams that arrive as objects in a Cloud Storage bucket. One object is
//! one Stream, its name kept beside it.
//!
//! Cloud Storage is the drop box of every organisation that lives in Google
//! Cloud, and its JSON API is four calls on a bucket: list under a prefix, get
//! as media, upload as media, delete. A Receive Location lists a prefix, gets
//! each object and deletes it once it is safely a Stream; a Send Location
//! uploads a Stream as an object. Both present a bearer token over plain
//! HTTP/1.1. Obtaining the token is outside: a Location is configured with it.
//!
//! ```text
//! transport    the bucket a Location receives from and sends to
//! receiving    one receive, between its exchanges
//! client       a Location's side: the four requests, and what responses mean
//! session      the far end a test or the playground runs on loopback
//! laws         what holds of a client and a session together
//! ```
//!
//! `client_laws`, `receiving_laws` and `session_laws` say what each of these
//! owes on its own, in the API's methods, statuses and members.
//!
//! Nothing here opens a socket. Each side says what to put on the wire and is
//! handed what came off it.
//!
//! The origin URI is the object in the protocol's own terms:
//! `gs://bucket/in/order-1.edi`. A send target is the same form, or a name
//! alone in this transport's bucket.

pub mod arrived;
pub mod client;
pub mod client_laws;
pub mod endpoint;
pub mod error;
pub mod json;
pub mod laws;
pub mod message;
pub mod objects;
pub mod percent;
pub mod receiving;
pub mod receiving_laws;
pub mod session;
pub mod session_laws;
pub mod text;
pub mod transport;

pub use client::Client;
pub use session::{Event, Session};
pub use transport::GcsTransport;
