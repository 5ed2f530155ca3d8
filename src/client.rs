//! The endpoint of a remote server.
use vstd::prelude::*;

verus! {

/// An XML-RPC client for the server at one URL.
pub struct Client {
    url: String,
}

impl Client {
    pub closed spec fn url_view(&self) -> Seq<char> {
        self.url@
    }

    pub fn new(s: &str) -> (r: Client)
        ensures
            r.url_view() == s@,
    {
        Client { url: String::from_str(s) }
    }

    /// The server's URL.
    pub fn url(&self) -> (r: &str)
        ensures
            r@ == self.url_view(),
    {
        self.url.as_str()
    }
}

} // verus!
