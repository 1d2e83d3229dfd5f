//! Manual sync: a trigger that tells how many rows it appended.

use vstd::prelude::*;

use crate::store::query::{out_views, MessageOut};
use crate::sync::{counts_of, sync_counts};

verus! {

/// Request parameters.
#[derive(Debug)]
pub struct Params {
    pub access_token: Option<String>,
}

impl Default for Params {
    fn default() -> (r: Self)
        ensures
            r.access_token is None,
    {
        Params { access_token: None }
    }
}

/// Reply: new messages and recalls, counted apart.
#[derive(Debug, Clone, Copy)]
pub struct SyncReply {
    pub new_messages: usize,
    pub revoke_messages: usize,
}

/// The reply for the rows that the pass appended.
pub fn handle(rows: &Vec<MessageOut>) -> (r: SyncReply)
    ensures
        (r.new_messages as nat, r.revoke_messages as nat) == counts_of(out_views(rows@)),
{
    let (new_messages, revoke_messages) = sync_counts(rows);
    SyncReply { new_messages, revoke_messages }
}

} // verus!
