//! Where the service is: an HTTP URL, and the host it names.

use vstd::prelude::*;

use crate::error;
use crate::error::TransportError;
use crate::text;

verus! {

/// The host and port of an HTTP URL: what stands behind the scheme, `http` or
/// `https`, up to the path. There is none in a text that is no HTTP URL.
pub open spec fn authority_of(endpoint: Seq<char>) -> Option<Seq<char>> {
    let rest = match text::after(endpoint, "http://"@) {
        Some(rest) => Some(rest),
        None => text::after(endpoint, "https://"@),
    };
    match rest {
        Some(rest) => {
            let host = match text::split(rest, "/"@) {
                Some((host, _)) => host,
                None => rest,
            };
            if host.len() == 0 {
                None
            } else {
                Some(host)
            }
        },
        None => None,
    }
}

/// The failure of an endpoint that is no HTTP URL.
pub open spec fn not_http(endpoint: Seq<char>) -> error::Failure {
    error::protocol_failure("not an HTTP URL: "@ + endpoint)
}

/// The host and port that `endpoint` names.
///
/// # Errors
/// Where `endpoint` is not an HTTP URL.
pub fn authority(endpoint: &str) -> (result: Result<String, TransportError>)
    ensures
        match result {
            Ok(host) => authority_of(endpoint@) == Some(host@),
            Err(failure) => authority_of(endpoint@) is None && failure@ == not_http(endpoint@),
        },
{
    let rest = match text::strip_prefix(endpoint, "http://") {
        Some(rest) => Some(rest),
        None => text::strip_prefix(endpoint, "https://"),
    };
    if let Some(rest) = rest {
        let host = match text::split_once(rest, "/") {
            Some((host, _)) => host,
            None => rest,
        };
        if !host.is_empty() {
            return Ok(host.to_string());
        }
    }
    Err(error::protocol_error(text::join("not an HTTP URL: ", endpoint).as_str()))
}

proof fn lemma_host(host: Seq<char>, path: Seq<char>)
    requires
        host.len() > 0,
        !host.contains('/'),
    ensures
        text::split(host, "/"@) is None,
        text::split(host + "/"@ + path, "/"@) == Some((host, path)),
{
    reveal_strlit("/");
    text::lemma_find_behind(host, "/"@, path);
    assert forall|i: int| 0 <= i <= host.len() implies !"/"@.is_prefix_of(
        #[trigger] host.skip(i),
    ) by {
        if "/"@.is_prefix_of(host.skip(i)) {
            assert(host.skip(i)[0] == '/');
            assert(host[i] == '/');
        }
    }
    text::a_mark_that_stands_nowhere_is_not_found(host, "/"@);
}

proof fn lemma_schemes_differ(rest: Seq<char>)
    ensures
        text::after("https://"@ + rest, "http://"@) is None,
{
    reveal_strlit("http://");
    reveal_strlit("https://");
    let whole = "https://"@ + rest;
    assert(whole[4] == 's');
    assert("http://"@[4] == ':');
}

/// Whatever the host, and whether or not a path follows, an HTTP URL of either
/// scheme names its host.
pub proof fn an_http_url_names_its_host(host: Seq<char>, path: Seq<char>)
    requires
        host.len() > 0,
        !host.contains('/'),
    ensures
        authority_of("http://"@ + host) == Some(host),
        authority_of("https://"@ + host) == Some(host),
        authority_of("http://"@ + host + "/"@ + path) == Some(host),
        authority_of("https://"@ + host + "/"@ + path) == Some(host),
{
    let long = host + "/"@ + path;
    lemma_host(host, path);
    lemma_schemes_differ(host);
    lemma_schemes_differ(long);
    text::lemma_after("http://"@, host);
    text::lemma_after("https://"@, host);
    text::lemma_after("http://"@, long);
    text::lemma_after("https://"@, long);
    assert("http://"@ + host + "/"@ + path == "http://"@ + long);
    assert("https://"@ + host + "/"@ + path == "https://"@ + long);
}

/// A text that starts with neither scheme names no host, nor does one with
/// nothing before its path. The failure quotes the text, and is not worth
/// repeating.
pub proof fn what_is_no_http_url_names_no_host(endpoint: Seq<char>, path: Seq<char>)
    ensures
        !"http://"@.is_prefix_of(endpoint) && !"https://"@.is_prefix_of(endpoint)
            ==> authority_of(endpoint) is None,
        authority_of("http://"@) is None,
        authority_of("https://"@) is None,
        authority_of("http:///"@ + path) is None,
        authority_of("https:///"@ + path) is None,
        !not_http(endpoint).retryable,
        not_http(endpoint).message == "not an HTTP URL: "@ + endpoint,
{
    reveal_strlit("/");
    reveal_strlit("http:///");
    reveal_strlit("https:///");
    reveal_strlit("http://");
    reveal_strlit("https://");
    let none = Seq::<char>::empty();
    let bare = none + "/"@ + path;
    lemma_schemes_differ(none);
    lemma_schemes_differ(bare);
    text::lemma_find_behind(none, "/"@, path);
    text::lemma_after("http://"@, none);
    text::lemma_after("https://"@, none);
    text::lemma_after("http://"@, bare);
    text::lemma_after("https://"@, bare);
    assert("http://"@ + none == "http://"@);
    assert("https://"@ + none == "https://"@);
    assert("http:///"@ + path == "http://"@ + bare);
    assert("https:///"@ + path == "https://"@ + bare);
    assert forall|i: int| 0 <= i <= none.len() implies !"/"@.is_prefix_of(
        #[trigger] none.skip(i),
    ) by {}
    text::a_mark_that_stands_nowhere_is_not_found(none, "/"@);
}

} // verus!
