//! The state of the SDK's HTTP client: the server address and the optional
//! admin API key.  The requests themselves are plain I/O and live outside
//! the library.

use vstd::prelude::*;

verus! {

/// Address and credentials every SDK request is built from.
pub struct BaseClient {
    address: String,
    api_key: Option<String>,
}

impl View for BaseClient {
    type V = (Seq<char>, Option<Seq<char>>);

    closed spec fn view(&self) -> (Seq<char>, Option<Seq<char>>) {
        (
            self.address@,
            match self.api_key {
                Some(k) => Some(k@),
                None => None,
            },
        )
    }
}

impl BaseClient {
    /// A client for the given server address, with no API key yet.
    pub fn new(address: String) -> (r: Self)
        ensures
            r@ == (address@, Option::<Seq<char>>::None),
    {
        Self { address, api_key: None }
    }

    /// Installs the admin API key that later requests authenticate with.
    pub fn set_api_key(&mut self, api_key: String)
        ensures
            final(self)@ == (old(self)@.0, Some(api_key@)),
    {
        self.api_key = Some(api_key);
    }
}

} // verus!
