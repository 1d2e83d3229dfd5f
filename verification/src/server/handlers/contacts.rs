//! Contacts: everyone known to chat records or name maps.

use vstd::prelude::*;

use crate::server::handlers::{clamp, clamped};
use crate::store::query::{contact_views, page, queried_contacts, query_contacts};
use crate::store::Store;
use crate::text::opt_view;

pub use crate::store::query::ContactOut;

verus! {

/// Request parameters.
#[derive(Debug)]
pub struct Params {
    pub keyword: Option<String>,
    pub limit: usize,
    pub offset: usize,
    pub access_token: Option<String>,
}

/// The page size without a `limit`.
pub fn default_limit() -> (r: usize)
    ensures
        r == 100,
{
    100
}

impl Default for Params {
    fn default() -> (r: Self)
        ensures
            r.keyword is None,
            r.limit == 100,
            r.offset == 0,
            r.access_token is None,
    {
        Params { keyword: None, limit: default_limit(), offset: 0, access_token: None }
    }
}

/// Reply: a page, the number of matches in all, and whether more follow.
#[derive(Debug)]
pub struct ContactsReply {
    pub contacts: Vec<ContactOut>,
    pub total: usize,
    pub has_more: bool,
}

/// The page of contacts that was asked for.
pub fn handle(store: &Store, params: &Params) -> (r: ContactsReply)
    requires
        store.wf(),
    ensures
        ({
            let all = queried_contacts(store@, opt_view(params.keyword));
            let limit = clamped(params.limit as int, 1, 10000);
            &&& contact_views(r.contacts@) == page(all, params.offset as int, limit)
            &&& r.total == all.len()
            &&& r.has_more == (params.offset + limit < all.len())
        }),
{
    let limit: usize = clamp(params.limit, 1, 10000);
    let keyword: Option<&str> = match &params.keyword {
        Some(k) => Some(k.as_str()),
        None => None,
    };
    let (contacts, total) = query_contacts(store, keyword, limit, params.offset);
    proof {
        let all = queried_contacts(store@, opt_view(params.keyword));
        assert(contact_views(contacts@).len() == contacts@.len());
        assert(contacts@.len() == page(all, params.offset as int, limit as int).len());
    }
    let count: usize = contacts.len();
    let has_more = params.offset < total && total - params.offset > count;
    ContactsReply { contacts, total, has_more }
}

} // verus!
