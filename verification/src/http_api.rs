//! The values that the control-plane HTTP API answers with, and their text.
use vstd::prelude::*;
use vstd::string::*;

verus! {

/// HTTP status 200.
pub const STATUS_OK: u16 = 200;

/// The answer of `GET /health`.
#[derive(Debug)]
pub struct HealthResponse {
    pub message: String,
}

/// A neighbour known by name and address.
#[derive(Debug)]
pub struct Peer {
    pub name: String,
    pub address: String,
}

/// The answer of `GET /peers`.
#[derive(Debug)]
pub struct PeersResponse {
    pub peers: Vec<String>,
}

/// An answer that carries one peer.
#[derive(Debug)]
pub struct PeerResponse {
    pub peer: Peer,
}

/// A request that carries one peer.
#[derive(Debug)]
pub struct PeerRequest {
    pub peer: Peer,
}

/// The text of a list of strings as `{:?}` prints it: brackets, commas and
/// each string quoted and escaped.
pub uninterp spec fn debug_text_of_strings(items: Seq<Seq<char>>) -> Seq<char>;

/// The views of a list of strings.
pub open spec fn string_views(items: Seq<String>) -> Seq<Seq<char>> {
    items.map_values(|s: String| s@)
}

/// Calls `format!("{:?}", items)` of std; its result is what `Debug` of a
/// `Vec<String>` writes, named `debug_text_of_strings` of the strings' texts.
#[verifier::external_body]
fn debug_strings(items: &Vec<String>) -> (r: String)
    ensures
        r@ == debug_text_of_strings(string_views(items@)),
{
    format!("{:?}", items)
}

/// The text of a peer: its name, a space, its address.
pub open spec fn peer_text(name: Seq<char>, address: Seq<char>) -> Seq<char> {
    name + " "@ + address
}

impl HealthResponse {
    /// The text of the answer: its message.
    pub fn to_string(&self) -> (s: String)
        ensures
            s@ == self.message@,
    {
        self.message.clone()
    }
}

impl Peer {
    /// The text of the peer: `<name> <address>`.
    pub fn to_string(&self) -> (s: String)
        ensures
            s@ == peer_text(self.name@, self.address@),
    {
        let mut s = self.name.clone();
        s.append(" ");
        s.append(self.address.as_str());
        s
    }
}

impl PeersResponse {
    /// The text of the answer: the list of peers as `{:?}` prints it.
    pub fn to_string(&self) -> (s: String)
        ensures
            s@ == debug_text_of_strings(string_views(self.peers@)),
    {
        debug_strings(&self.peers)
    }
}

impl PeerResponse {
    /// The text of the answer: that of its peer.
    pub fn to_string(&self) -> (s: String)
        ensures
            s@ == peer_text(self.peer.name@, self.peer.address@),
    {
        self.peer.to_string()
    }
}

impl PeerRequest {
    /// The text of the request: that of its peer.
    pub fn to_string(&self) -> (s: String)
        ensures
            s@ == peer_text(self.peer.name@, self.peer.address@),
    {
        self.peer.to_string()
    }
}

/// `GET /health`: status 200 and the message "OK".
pub fn health() -> (r: (u16, HealthResponse))
    ensures
        r.0 == STATUS_OK,
        r.1.message@ == "OK"@,
{
    (STATUS_OK, HealthResponse { message: String::from_str("OK") })
}

/// `GET /peers`: status 200 and an empty list of peers.
pub fn get_peers() -> (r: (u16, PeersResponse))
    ensures
        r.0 == STATUS_OK,
        r.1.peers@.len() == 0,
{
    (STATUS_OK, PeersResponse { peers: Vec::new() })
}

} // verus!
