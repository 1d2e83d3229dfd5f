//! Health: readiness and a single account phase. It is answered without a token, so it
//! tells nothing of which accounts there are.

use vstd::prelude::*;

use crate::server::{
    account_views, bound_account, bound_of, phase_of, AccountModel, AccountPhase, AccountState,
};

verus! {

/// Reply of the health endpoint.
#[derive(Debug, Clone, Copy)]
pub struct Health {
    /// "ok" or "starting".
    pub status: &'static str,
    pub account: AccountPhase,
}

impl AccountPhase {
    /// The name of the phase.
    pub open spec fn name(self) -> Seq<char> {
        match self {
            AccountPhase::Unregistered => "unregistered"@,
            AccountPhase::Indexing => "indexing"@,
            AccountPhase::Ready => "ready"@,
            AccountPhase::Error => "error"@,
        }
    }

    /// The name of the phase.
    pub fn as_str(self) -> (r: &'static str)
        ensures
            r@ == self.name(),
    {
        match self {
            AccountPhase::Unregistered => "unregistered",
            AccountPhase::Indexing => "indexing",
            AccountPhase::Ready => "ready",
            AccountPhase::Error => "error",
        }
    }
}

/// The phase of the bound account; without one the service is unregistered.
pub open spec fn service_phase(accounts: Seq<AccountModel>) -> AccountPhase {
    match bound_of(accounts) {
        Some(a) => phase_of(a.state),
        None => AccountPhase::Unregistered,
    }
}

/// The health of the service.
pub fn handle(accounts: &Vec<AccountState>, ready: bool) -> (r: Health)
    ensures
        r.status@ == (if ready {
            "ok"@
        } else {
            "starting"@
        }),
        r.account == service_phase(account_views(accounts@)),
{
    let account = match bound_account(accounts) {
        Some(a) => AccountPhase::from(a.state),
        None => AccountPhase::Unregistered,
    };
    Health {
        status: if ready {
            "ok"
        } else {
            "starting"
        },
        account,
    }
}

/// What health tells rests on the bound account's state alone: accounts that merely await
/// a key leave no trace.
pub proof fn law_health_hides_unregistered_accounts(
    accounts: Seq<AccountModel>,
    extra: AccountModel,
)
    requires
        extra.state is AwaitingKey,
    ensures
        service_phase(accounts.push(extra)) == service_phase(accounts),
{
    assert(accounts.push(extra).drop_last() =~= accounts);
    crate::server::lemma_bound_place(accounts);
}

/// The names of the phases.
pub proof fn law_phase_names()
    ensures
        AccountPhase::Unregistered.name() == "unregistered"@,
        AccountPhase::Indexing.name() == "indexing"@,
        AccountPhase::Ready.name() == "ready"@,
        AccountPhase::Error.name() == "error"@,
{
}

/// The service's phase is that of the account that holds a key; without one it is
/// unregistered.
pub proof fn law_service_phase(accounts: Seq<AccountModel>, a: AccountModel)
    requires
        crate::server::single_binding(accounts),
    ensures
        accounts.contains(a) && a.state is Ready ==> service_phase(accounts) is Ready,
        accounts.contains(a) && a.state is Indexing ==> service_phase(accounts) is Indexing,
        accounts.contains(a) && a.state is Error ==> service_phase(accounts) is Error,
        (forall|i: int| 0 <= i < accounts.len() ==> (#[trigger] accounts[i]).state is AwaitingKey)
            ==> service_phase(accounts) is Unregistered,
{
    crate::server::lemma_bound_place(accounts);
    if accounts.contains(a) && !(a.state is AwaitingKey) {
        let i = choose|i: int| 0 <= i < accounts.len() && accounts[i] == a;
        assert(accounts[i].state == a.state);
        let b = crate::server::bound_place(accounts)->0;
        assert(accounts[b] == accounts[b]);
        assert(i == b);
    }
}

} // verus!
