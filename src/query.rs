//! The tracker's read endpoints: the chain specification and the current
//! peers of a chain. Both are reads with no side effect.
use vstd::prelude::*;

use crate::address::addrs;
use crate::registry::{peers_of, ChainSpecStore, PeerAddressBook};

verus! {

/// HTTP status of a chain specification that is not stored.
pub const STATUS_NOT_FOUND: u16 = 404;

/// Why a chain specification could not be served.
#[derive(Clone, Copy, Debug, PartialEq, Eq, Structural)]
pub enum GetChainSpecError {
    NotFound,
}

impl GetChainSpecError {
    /// The HTTP status and body that answer this error: not found, with an
    /// empty body.
    pub fn response_parts(&self) -> (r: (u16, Vec<u8>))
        ensures
            r.0 == STATUS_NOT_FOUND,
            r.1@.len() == 0,
    {
        match self {
            GetChainSpecError::NotFound => (STATUS_NOT_FOUND, Vec::new()),
        }
    }
}

/// The specification stored for `chain_id`, or `NotFound` where none is.
pub fn get_chain_spec(list: &ChainSpecStore, chain_id: &String) -> (r: Result<Vec<u8>, GetChainSpecError>)
    ensures
        r is Ok <==> list@.contains_key(chain_id@),
        r matches Ok(b) ==> b@ == list@[chain_id@],
        r matches Err(e) ==> e == GetChainSpecError::NotFound,
{
    match list.get(chain_id) {
        Some(b) => Ok(b),
        None => Err(GetChainSpecError::NotFound),
    }
}

/// The current peers of `chain_id`, possibly none; never an error.
pub fn get_peers(book: &PeerAddressBook, chain_id: &String) -> (r: Vec<String>)
    ensures
        addrs(r@) == peers_of(book@, chain_id@),
{
    book.fetch(chain_id)
}

} // verus!
