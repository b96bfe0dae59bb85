//! Targets as they flow through the stages, and how a client for one is made.

use vstd::prelude::*;

verus! {

/// One target server: its `address:port` text, which is also its identity.
#[derive(Clone, Debug)]
pub struct Endpoint {
    pub addr: String,
}

impl View for Endpoint {
    type V = Seq<char>;

    open spec fn view(&self) -> Seq<char> {
        self.addr@
    }
}

/// The identities of a sequence of endpoints.
pub open spec fn addrs(s: Seq<Endpoint>) -> Seq<Seq<char>> {
    s.map_values(|e: Endpoint| e@)
}

impl Endpoint {
    pub fn new(addr: String) -> (r: Endpoint)
        ensures
            r@ == addr@,
    {
        Endpoint { addr }
    }

    /// A copy with the same identity.
    pub fn duplicate(&self) -> (r: Endpoint)
        ensures
            r@ == self@,
    {
        Endpoint { addr: self.addr.clone() }
    }
}

/// The URL that names the server at `addr` with no credentials and the default
/// database.
pub open spec fn url_of(addr: Seq<char>) -> Seq<char> {
    "redis://"@ + addr + "/"@
}

/// The connection URL of an endpoint.
pub fn connection_url(e: &Endpoint) -> (r: String)
    ensures
        r@ == url_of(e@),
{
    let mut url = String::from_str("redis://");
    url.append(e.addr.as_str());
    url.append("/");
    url
}

#[verifier::external_type_specification]
#[verifier::external_body]
pub struct ExClient(redis::Client);

#[verifier::external_type_specification]
#[verifier::external_body]
pub struct ExRedisError(redis::RedisError);

/// Whether `redis::Client::open` accepts a URL: a matter of the URL alone.
pub uninterp spec fn accepts_url(url: Seq<char>) -> bool;

/// Relies on redis::Client::open: it checks the URL, opens no connection, and
/// fails exactly where the URL is refused.
#[verifier::external_body]
fn open_client(url: &str) -> (r: Result<redis::Client, redis::RedisError>)
    ensures
        r is Ok <==> accepts_url(url@),
{
    redis::Client::open(url)
}

/// A client for the server at `e`, or `None` where its URL is refused.
pub fn client_for(e: &Endpoint) -> (r: Option<redis::Client>)
    ensures
        r is Some <==> accepts_url(url_of(e@)),
{
    let url = connection_url(e);
    match open_client(url.as_str()) {
        Ok(c) => Some(c),
        Err(_) => None,
    }
}

} // verus!
