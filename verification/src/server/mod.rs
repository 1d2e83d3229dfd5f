//! Account registration, readiness and the replay history of the HTTP layer.

use std::collections::VecDeque;

use vstd::prelude::*;
use vstd::string::StringExecFns;

use crate::db::scan::{db_views, opt_db, DbInfo, DbModel};
use crate::store::{ConversationModel, Store};
use crate::sync::events::{sync_event, Event};
use crate::text::{
    clone_opt, contains, contains_seq, decimal, decimal_u64, has_string, opt_str_view, opt_view,
    same, starts_with, starts_with_seq, views,
};

pub mod auth;
pub mod error;
pub mod handlers;

verus! {

/// Per-account readiness state.
#[derive(Debug, Clone, Copy, PartialEq, Eq, Structural)]
pub enum AccountStatus {
    /// Scanned at startup, no key registered yet.
    AwaitingKey,
    /// Background build running.
    Indexing,
    /// Index built, incremental sync active.
    Ready,
    /// Initialization failed; a corrected registration recovers.
    Error,
}

impl AccountStatus {
    /// The index is built.
    pub fn is_ready(&self) -> (r: bool)
        ensures
            r == self is Ready,
    {
        match self {
            AccountStatus::Ready => true,
            _ => false,
        }
    }
}

/// One account's readiness.
#[derive(Debug)]
pub struct AccountState {
    pub qq: String,
    pub state: AccountStatus,
    pub message_count: usize,
    pub error: Option<String>,
}

/// What an [`AccountState`] holds.
pub struct AccountModel {
    pub qq: Seq<char>,
    pub state: AccountStatus,
    pub message_count: int,
    pub error: Option<Seq<char>>,
}

impl View for AccountState {
    type V = AccountModel;

    open spec fn view(&self) -> AccountModel {
        AccountModel {
            qq: self.qq@,
            state: self.state,
            message_count: self.message_count as int,
            error: opt_view(self.error),
        }
    }
}

impl Clone for AccountState {
    fn clone(&self) -> (r: Self)
        ensures
            r@ == self@,
    {
        AccountState {
            qq: self.qq.clone(),
            state: self.state,
            message_count: self.message_count,
            error: clone_opt(&self.error),
        }
    }
}

/// The accounts of a list.
pub open spec fn account_views(v: Seq<AccountState>) -> Seq<AccountModel> {
    v.map_values(|a: AccountState| a@)
}

/// The first ready account's number, or the empty text.
pub open spec fn ready_qq(accounts: Seq<AccountModel>) -> Seq<char>
    decreases accounts.len(),
{
    if accounts.len() == 0 {
        Seq::empty()
    } else if accounts[0].state is Ready {
        accounts[0].qq
    } else {
        ready_qq(accounts.drop_first())
    }
}

/// The first ready account's number, or the empty text.
pub fn ready_account(accounts: &Vec<AccountState>) -> (r: String)
    ensures
        r@ == ready_qq(account_views(accounts@)),
{
    let ghost all = account_views(accounts@);
    let mut i: usize = 0;
    assert(all.skip(0) =~= all);
    while i < accounts.len()
        invariant
            i <= accounts.len(),
            all == account_views(accounts@),
            ready_qq(all) == ready_qq(all.skip(i as int)),
        decreases accounts.len() - i,
    {
        assert(all.skip(i as int).drop_first() =~= all.skip(i + 1));
        assert(all.skip(i as int)[0] == accounts@[i as int]@);
        if accounts[i].state.is_ready() {
            return accounts[i].qq.clone();
        }
        i += 1;
    }
    String::new()
}

/// Where an account first stands in a list.
pub open spec fn account_place(accounts: Seq<AccountModel>, qq: Seq<char>) -> Option<int>
    decreases accounts.len(),
{
    if accounts.len() == 0 {
        None
    } else {
        match account_place(accounts.drop_last(), qq) {
            Some(i) => Some(i),
            None => if accounts.last().qq == qq {
                Some(accounts.len() - 1)
            } else {
                None
            },
        }
    }
}

/// A place is the first of its account.
pub proof fn lemma_account_place(accounts: Seq<AccountModel>, qq: Seq<char>)
    ensures
        match account_place(accounts, qq) {
            Some(i) => 0 <= i < accounts.len() && accounts[i].qq == qq && forall|j: int|
                0 <= j < i ==> (#[trigger] accounts[j]).qq != qq,
            None => forall|j: int| 0 <= j < accounts.len() ==> (#[trigger] accounts[j]).qq != qq,
        },
    decreases accounts.len(),
{
    if accounts.len() > 0 {
        lemma_account_place(accounts.drop_last(), qq);
        assert forall|j: int| 0 <= j < accounts.len() - 1 implies accounts.drop_last()[j]
            == #[trigger] accounts[j] by {}
    }
}

/// The state of an account, if it is listed.
pub open spec fn status_of(accounts: Seq<AccountModel>, qq: Seq<char>) -> Option<AccountStatus> {
    match account_place(accounts, qq) {
        Some(i) => Some(accounts[i].state),
        None => None,
    }
}

/// The accounts with one set to a state; a new account comes last.
pub open spec fn with_account(accounts: Seq<AccountModel>, a: AccountModel) -> Seq<AccountModel> {
    match account_place(accounts, a.qq) {
        Some(i) => accounts.update(i, a),
        None => accounts.push(a),
    }
}

/// Where an account stands.
fn find_account(accounts: &Vec<AccountState>, qq: &str) -> (r: Option<usize>)
    ensures
        match r {
            Some(i) => account_place(account_views(accounts@), qq@) == Some(i as int) && i
                < accounts.len(),
            None => account_place(account_views(accounts@), qq@) is None,
        },
{
    let ghost all = account_views(accounts@);
    let mut i: usize = 0;
    assert(all.take(0) =~= Seq::empty());
    while i < accounts.len()
        invariant
            i <= accounts.len(),
            all == account_views(accounts@),
            account_place(all.take(i as int), qq@) is None,
        decreases accounts.len() - i,
    {
        assert(all.take(i + 1).drop_last() =~= all.take(i as int));
        assert(all[i as int] == accounts@[i as int]@);
        if same(accounts[i].qq.as_str(), qq) {
            proof {
                lemma_account_place(all.take(i as int), qq@);
                lemma_account_place(all, qq@);
                assert forall|j: int| 0 <= j < i implies (#[trigger] all[j]).qq != qq@ by {
                    assert(all.take(i as int)[j] == all[j]);
                }
            }
            return Some(i);
        }
        i += 1;
    }
    assert(all.take(all.len() as int) =~= all);
    None
}

/// Insert or update one account's state entry.
pub fn set_account_state(
    accounts: &mut Vec<AccountState>,
    qq: &str,
    status: AccountStatus,
    count: usize,
    error: Option<String>,
)
    ensures
        account_views(final(accounts)@) == with_account(
            account_views(old(accounts)@),
            AccountModel {
                qq: qq@,
                state: status,
                message_count: count as int,
                error: opt_view(error),
            },
        ),
{
    let ghost before = accounts@;
    let a = AccountState { qq: qq.to_owned(), state: status, message_count: count, error };
    let ghost added = a@;
    match find_account(accounts, qq) {
        Some(i) => {
            accounts[i] = a;
            assert(account_views(accounts@) =~= account_views(before).update(i as int, added));
        },
        None => {
            accounts.push(a);
            assert(account_views(accounts@) =~= account_views(before).push(added));
        },
    }
}

/// The first account that holds the binding: any state but awaiting a key does.
pub open spec fn bound_place(accounts: Seq<AccountModel>) -> Option<int>
    decreases accounts.len(),
{
    if accounts.len() == 0 {
        None
    } else {
        match bound_place(accounts.drop_last()) {
            Some(i) => Some(i),
            None => if !(accounts.last().state is AwaitingKey) {
                Some(accounts.len() - 1)
            } else {
                None
            },
        }
    }
}

/// The bound account, if there is one.
pub open spec fn bound_of(accounts: Seq<AccountModel>) -> Option<AccountModel> {
    match bound_place(accounts) {
        Some(i) => Some(accounts[i]),
        None => None,
    }
}

/// The bound place is the first account that does not await a key.
pub proof fn lemma_bound_place(accounts: Seq<AccountModel>)
    ensures
        match bound_place(accounts) {
            Some(i) => 0 <= i < accounts.len() && !(accounts[i].state is AwaitingKey)
                && forall|j: int|
                0 <= j < i ==> (#[trigger] accounts[j]).state is AwaitingKey,
            None => forall|j: int|
                0 <= j < accounts.len() ==> (#[trigger] accounts[j]).state is AwaitingKey,
        },
    decreases accounts.len(),
{
    if accounts.len() > 0 {
        lemma_bound_place(accounts.drop_last());
        assert forall|j: int| 0 <= j < accounts.len() - 1 implies accounts.drop_last()[j]
            == #[trigger] accounts[j] by {}
    }
}

/// At most one account holds the binding, and no account is listed twice.
pub open spec fn single_binding(accounts: Seq<AccountModel>) -> bool {
    &&& forall|i: int, j: int|
        0 <= i < accounts.len() && 0 <= j < accounts.len() && !((#[trigger] accounts[i]).state is AwaitingKey)
            && !((#[trigger] accounts[j]).state is AwaitingKey) ==> i == j
    &&& forall|i: int, j: int|
        0 <= i < j < accounts.len() ==> (#[trigger] accounts[i]).qq != (#[trigger] accounts[j]).qq
}

fn find_bound(accounts: &Vec<AccountState>) -> (r: Option<usize>)
    ensures
        match r {
            Some(i) => bound_place(account_views(accounts@)) == Some(i as int) && i
                < accounts.len(),
            None => bound_place(account_views(accounts@)) is None,
        },
{
    let ghost all = account_views(accounts@);
    let mut i: usize = 0;
    assert(all.take(0) =~= Seq::empty());
    while i < accounts.len()
        invariant
            i <= accounts.len(),
            all == account_views(accounts@),
            bound_place(all.take(i as int)) is None,
        decreases accounts.len() - i,
    {
        assert(all.take(i + 1).drop_last() =~= all.take(i as int));
        assert(all[i as int] == accounts@[i as int]@);
        if accounts[i].state != AccountStatus::AwaitingKey {
            proof {
                lemma_bound_place(all.take(i as int));
                lemma_bound_place(all);
                assert forall|j: int| 0 <= j < i implies (#[trigger] all[j]).state is AwaitingKey by {
                    assert(all.take(i as int)[j] == all[j]);
                }
            }
            return Some(i);
        }
        i += 1;
    }
    assert(all.take(all.len() as int) =~= all);
    None
}

/// The account that holds the binding, if there is one.
pub fn bound_account(accounts: &Vec<AccountState>) -> (r: Option<&AccountState>)
    ensures
        match r {
            Some(a) => bound_of(account_views(accounts@)) == Some(a@),
            None => bound_of(account_views(accounts@)) is None,
        },
{
    match find_bound(accounts) {
        Some(i) => Some(&accounts[i]),
        None => None,
    }
}

/// The state that blocks an account's registration: another account's binding, or its own
/// where it is being indexed or ready.
pub open spec fn blocked_by(accounts: Seq<AccountModel>, qq: Seq<char>) -> Option<AccountStatus> {
    match bound_of(accounts) {
        Some(b) => if b.qq != qq {
            Some(b.state)
        } else {
            match status_of(accounts, qq) {
                Some(AccountStatus::Ready) => Some(AccountStatus::Ready),
                Some(AccountStatus::Indexing) => Some(AccountStatus::Indexing),
                _ => None,
            }
        },
        None => None,
    }
}

/// An account that was just accepted.
pub open spec fn indexing_account(qq: Seq<char>) -> AccountModel {
    AccountModel { qq, state: AccountStatus::Indexing, message_count: 0, error: None }
}

/// Flip an account to `indexing` together with the occupancy guard. Returns the state that
/// blocked: then nothing changed. An account in `error` may retry; another account never
/// takes the binding over.
pub fn begin_indexing(accounts: &mut Vec<AccountState>, qq: &str) -> (r: Option<AccountStatus>)
    ensures
        r == blocked_by(account_views(old(accounts)@), qq@),
        account_views(final(accounts)@) == if r is Some {
            account_views(old(accounts)@)
        } else {
            with_account(account_views(old(accounts)@), indexing_account(qq@))
        },
{
    if let Some(i) = find_bound(accounts) {
        if !same(accounts[i].qq.as_str(), qq) {
            return Some(accounts[i].state);
        }
        if let Some(k) = find_account(accounts, qq) {
            if accounts[k].state == AccountStatus::Ready || accounts[k].state
                == AccountStatus::Indexing {
                return Some(accounts[k].state);
            }
        }
    }
    set_account_state(accounts, qq, AccountStatus::Indexing, 0, None);
    None
}

/// Beginning to index keeps the binding single: a second account never slips in.
pub proof fn law_begin_keeps_single_binding(accounts: Seq<AccountModel>, qq: Seq<char>)
    requires
        single_binding(accounts),
        blocked_by(accounts, qq) is None,
    ensures
        single_binding(with_account(accounts, indexing_account(qq))),
        bound_of(with_account(accounts, indexing_account(qq))) == Some(indexing_account(qq)),
{
    let next = with_account(accounts, indexing_account(qq));
    lemma_account_place(accounts, qq);
    lemma_bound_place(accounts);
    lemma_bound_place(next);
    match account_place(accounts, qq) {
        Some(i) => {
            assert forall|j: int| 0 <= j < accounts.len() && j != i implies (
            #[trigger] accounts[j]).state is AwaitingKey by {
                if !(accounts[j].state is AwaitingKey) {
                    let b = bound_place(accounts)->0;
                    assert(b == j);
                    assert(accounts[b].qq == qq);
                    assert(accounts[i].qq == accounts[b].qq);
                }
            }
            assert(forall|j: int| 0 <= j < next.len() && j != i ==> next[j] == accounts[j]);
            assert(next[i] == indexing_account(qq));
        },
        None => {
            assert forall|j: int| 0 <= j < accounts.len() implies (
            #[trigger] accounts[j]).state is AwaitingKey by {
                if !(accounts[j].state is AwaitingKey) {
                    let b = bound_place(accounts)->0;
                    assert(accounts[b].qq == qq);
                }
            }
            assert(next[accounts.len() as int] == indexing_account(qq));
            assert(forall|j: int| 0 <= j < accounts.len() ==> next[j] == accounts[j]);
        },
    }
}

/// While one account holds the binding, registering another is blocked, in error too.
pub proof fn law_second_account_is_blocked(
    accounts: Seq<AccountModel>,
    holder: AccountModel,
    qq: Seq<char>,
)
    requires
        bound_of(accounts) == Some(holder),
        holder.qq != qq,
    ensures
        blocked_by(accounts, qq) == Some(holder.state),
{
}

/// At least one account holds the binding, and all that do are ready.
pub open spec fn all_ready(accounts: Seq<AccountModel>) -> bool {
    &&& exists|i: int| 0 <= i < accounts.len() && (#[trigger] accounts[i]).state is Ready
    &&& forall|i: int|
        0 <= i < accounts.len() ==> (#[trigger] accounts[i]).state is Ready
            || accounts[i].state is AwaitingKey
}

/// Global readiness: at least one registered account, all of them ready. Accounts that
/// await a key do not count: the startup scan lists every account it finds.
pub fn update_ready(accounts: &Vec<AccountState>) -> (r: bool)
    ensures
        r == all_ready(account_views(accounts@)),
{
    let ghost all = account_views(accounts@);
    let mut some = false;
    let mut i: usize = 0;
    while i < accounts.len()
        invariant
            i <= accounts.len(),
            all == account_views(accounts@),
            some == exists|j: int| 0 <= j < i && (#[trigger] all[j]).state is Ready,
            forall|j: int|
                0 <= j < i ==> (#[trigger] all[j]).state is Ready || all[j].state is AwaitingKey,
        decreases accounts.len() - i,
    {
        assert(all[i as int] == accounts@[i as int]@);
        match accounts[i].state {
            AccountStatus::AwaitingKey => {},
            AccountStatus::Ready => {
                some = true;
            },
            _ => {
                return false;
            },
        }
        i += 1;
    }
    some
}

/// With a single binding, the service is ready exactly when the bound account is.
pub proof fn law_ready_iff_bound_account_is(accounts: Seq<AccountModel>)
    requires
        single_binding(accounts),
    ensures
        all_ready(accounts) <==> bound_of(accounts) is Some && bound_of(accounts)->0.state is Ready,
{
    lemma_bound_place(accounts);
    if all_ready(accounts) {
        let i = choose|i: int| 0 <= i < accounts.len() && (#[trigger] accounts[i]).state is Ready;
        assert(bound_place(accounts) is Some);
        assert(bound_place(accounts)->0 == i);
    }
    if bound_of(accounts) is Some && bound_of(accounts)->0.state is Ready {
        let b = bound_place(accounts)->0;
        assert(accounts[b].state is Ready);
        assert forall|i: int| 0 <= i < accounts.len() implies (#[trigger] accounts[i]).state is Ready
            || accounts[i].state is AwaitingKey by {
            if !(accounts[i].state is AwaitingKey) {
                assert(i == b);
            }
        }
    }
}

/// The accounts that a startup scan found, each awaiting its key.
pub open spec fn awaiting(dbs: Seq<DbModel>) -> Seq<AccountModel> {
    dbs.map_values(
        |d: DbModel|
            AccountModel {
                qq: d.qq,
                state: AccountStatus::AwaitingKey,
                message_count: 0,
                error: None,
            },
    )
}

/// The accounts to start with: those that the startup scan found, each awaiting its key.
pub fn awaiting_accounts(dbs: &Vec<DbInfo>) -> (r: Vec<AccountState>)
    ensures
        account_views(r@) == awaiting(db_views(dbs@)),
{
    let mut r: Vec<AccountState> = Vec::new();
    let mut i: usize = 0;
    while i < dbs.len()
        invariant
            i <= dbs.len(),
            r.len() == i,
            forall|k: int|
                0 <= k < i ==> (#[trigger] r@[k])@ == (AccountModel {
                    qq: dbs@[k].qq@,
                    state: AccountStatus::AwaitingKey,
                    message_count: 0,
                    error: None,
                }),
        decreases dbs.len() - i,
    {
        r.push(
            AccountState {
                qq: dbs[i].qq.clone(),
                state: AccountStatus::AwaitingKey,
                message_count: 0,
                error: None,
            },
        );
        i += 1;
    }
    assert(account_views(r@) =~= awaiting(db_views(dbs@)));
    r
}

/// Scan results alone bind nothing and make nothing ready.
pub proof fn law_scanned_accounts_bind_nothing(dbs: Seq<DbModel>)
    ensures
        bound_of(awaiting(dbs)) is None,
        !all_ready(awaiting(dbs)),
{
    lemma_bound_place(awaiting(dbs));
}

/// How many messages the conversations hold.
pub open spec fn message_total(convs: Seq<(Seq<char>, ConversationModel)>) -> nat
    decreases convs.len(),
{
    if convs.len() == 0 {
        0
    } else {
        message_total(convs.drop_last()) + convs.last().1.msgs.len()
    }
}

/// How many messages a store holds; `None` where the number does not fit.
pub fn message_count(store: &Store) -> (r: Option<usize>)
    ensures
        r is Some == (message_total(store@.convs) <= usize::MAX),
        r is Some ==> r->0 == message_total(store@.convs),
{
    let ghost convs = store@.convs;
    let mut r: usize = 0;
    let mut i: usize = 0;
    assert(convs.take(0) =~= Seq::empty());
    while i < store.convs.len()
        invariant
            i <= convs.len(),
            convs == store@.convs,
            convs.len() == store.convs@.len(),
            r == message_total(convs.take(i as int)),
        decreases convs.len() - i,
    {
        let c = store.convs.value_at(i);
        proof {
            let now = convs.take(i + 1);
            assert(now.drop_last() =~= convs.take(i as int));
            assert(now.last().1 == c@);
            lemma_message_total_grows(convs, i + 1);
        }
        r = match r.checked_add(c.msgs.len()) {
            Some(n) => n,
            None => return None,
        };
        i += 1;
    }
    assert(convs.take(convs.len() as int) =~= convs);
    Some(r)
}

proof fn lemma_message_total_grows(convs: Seq<(Seq<char>, ConversationModel)>, n: int)
    requires
        0 <= n <= convs.len(),
    ensures
        message_total(convs.take(n)) <= message_total(convs),
    decreases convs.len(),
{
    if n < convs.len() {
        lemma_message_total_grows(convs.drop_last(), n);
        assert(convs.drop_last().take(n) =~= convs.take(n));
    } else {
        assert(convs.take(n) =~= convs);
    }
}

/// Replace the store by a freshly built index. The event re-baselines subscribers: a client
/// that connected while the index was built was told watermarks of nothing.
pub fn install_index(store: &mut Store, built: Store, now: i64) -> (r: Event)
    ensures
        *final(store) == built,
        r@ == sync_event(built.watermark_group, built.watermark_c2c, now),
{
    let r = Event::sync(built.watermark_group, built.watermark_c2c, now);
    *store = built;
    r
}

/// What the health endpoint tells of the bound account. It never lists accounts.
#[derive(Debug, Clone, Copy, PartialEq, Eq, Structural)]
pub enum AccountPhase {
    Unregistered,
    Indexing,
    Ready,
    Error,
}

/// The phase of a state: awaiting a key counts as unregistered.
pub open spec fn phase_of(s: AccountStatus) -> AccountPhase {
    match s {
        AccountStatus::AwaitingKey => AccountPhase::Unregistered,
        AccountStatus::Indexing => AccountPhase::Indexing,
        AccountStatus::Ready => AccountPhase::Ready,
        AccountStatus::Error => AccountPhase::Error,
    }
}

impl vstd::std_specs::convert::FromSpecImpl<AccountStatus> for AccountPhase {
    open spec fn obeys_from_spec() -> bool {
        true
    }

    open spec fn from_spec(s: AccountStatus) -> AccountPhase {
        phase_of(s)
    }
}

impl From<AccountStatus> for AccountPhase {
    fn from(s: AccountStatus) -> (r: AccountPhase) {
        match s {
            AccountStatus::AwaitingKey => AccountPhase::Unregistered,
            AccountStatus::Indexing => AccountPhase::Indexing,
            AccountStatus::Ready => AccountPhase::Ready,
            AccountStatus::Error => AccountPhase::Error,
        }
    }
}

/// Where an account's location first stands in a list.
pub open spec fn db_place(dbs: Seq<DbModel>, qq: Seq<char>) -> Option<int>
    decreases dbs.len(),
{
    if dbs.len() == 0 {
        None
    } else {
        match db_place(dbs.drop_last(), qq) {
            Some(i) => Some(i),
            None => if dbs.last().qq == qq {
                Some(dbs.len() - 1)
            } else {
                None
            },
        }
    }
}

/// The location known for an account.
pub open spec fn known_db(dbs: Seq<DbModel>, qq: Seq<char>) -> Option<DbModel> {
    match db_place(dbs, qq) {
        Some(i) => Some(dbs[i]),
        None => None,
    }
}

/// The locations with one set; a new account comes last.
pub open spec fn with_db(dbs: Seq<DbModel>, d: DbModel) -> Seq<DbModel> {
    match db_place(dbs, d.qq) {
        Some(i) => dbs.update(i, d),
        None => dbs.push(d),
    }
}

/// The locations without an account's.
pub open spec fn without_db(dbs: Seq<DbModel>, qq: Seq<char>) -> Seq<DbModel> {
    match db_place(dbs, qq) {
        Some(i) => dbs.remove(i),
        None => dbs,
    }
}

/// Where the accounts' databases are: startup scan results plus client registrations.
#[derive(Debug)]
pub struct AccountRegistry {
    pub accounts_db: Vec<DbInfo>,
    /// The accounts that the startup scan found.
    pub scanned: Vec<String>,
    /// Counts registrations and deregistrations: a build that an older count began is
    /// void.
    pub epoch: u64,
}

fn find_db_place(dbs: &Vec<DbInfo>, qq: &str) -> (r: Option<usize>)
    ensures
        match r {
            Some(i) => db_place(db_views(dbs@), qq@) == Some(i as int) && i < dbs.len(),
            None => db_place(db_views(dbs@), qq@) is None,
        },
{
    let ghost all = db_views(dbs@);
    let mut i: usize = 0;
    let mut r: Option<usize> = None;
    assert(all.take(0) =~= Seq::empty());
    while i < dbs.len()
        invariant
            i <= dbs.len(),
            all == db_views(dbs@),
            match r {
                Some(k) => db_place(all.take(i as int), qq@) == Some(k as int) && k < dbs.len(),
                None => db_place(all.take(i as int), qq@) is None,
            },
        decreases dbs.len() - i,
    {
        assert(all.take(i + 1).drop_last() =~= all.take(i as int));
        assert(all[i as int] == dbs@[i as int]@);
        if r.is_none() && same(dbs[i].qq.as_str(), qq) {
            r = Some(i);
        }
        i += 1;
    }
    assert(all.take(all.len() as int) =~= all);
    r
}

impl AccountRegistry {
    /// The registry as the startup scan found it.
    pub fn new(accounts: Vec<DbInfo>) -> (r: Self)
        ensures
            r.accounts_db == accounts,
            r.epoch == 0,
            views(r.scanned@) == db_views(accounts@).map_values(|d: DbModel| d.qq),
    {
        let mut scanned: Vec<String> = Vec::new();
        let mut i: usize = 0;
        while i < accounts.len()
            invariant
                i <= accounts.len(),
                scanned.len() == i,
                forall|k: int| 0 <= k < i ==> #[trigger] scanned@[k]@ == accounts@[k].qq@,
            decreases accounts.len() - i,
        {
            scanned.push(accounts[i].qq.clone());
            i += 1;
        }
        assert(views(scanned@) =~= db_views(accounts@).map_values(|d: DbModel| d.qq));
        AccountRegistry { accounts_db: accounts, scanned, epoch: 0 }
    }

    /// Whether the startup scan found the account.
    pub fn is_scanned(&self, qq: &str) -> (r: bool)
        ensures
            r == views(self.scanned@).contains(qq@),
    {
        has_string(&self.scanned, qq)
    }

    /// Location known for an account (startup scan or earlier registration).
    pub fn find_db(&self, qq: &str) -> (r: Option<DbInfo>)
        ensures
            opt_db(r) == known_db(db_views(self.accounts_db@), qq@),
    {
        match find_db_place(&self.accounts_db, qq) {
            Some(i) => Some(self.accounts_db[i].clone()),
            None => None,
        }
    }

    /// Register or override one account's database location.
    pub fn upsert_db(&mut self, info: DbInfo)
        ensures
            db_views(final(self).accounts_db@) == with_db(
                db_views(old(self).accounts_db@),
                info@,
            ),
            final(self).scanned == old(self).scanned,
            final(self).epoch == old(self).epoch,
    {
        let ghost before = self.accounts_db@;
        let ghost added = info@;
        match find_db_place(&self.accounts_db, info.qq.as_str()) {
            Some(i) => {
                self.accounts_db[i] = info;
                assert(db_views(self.accounts_db@) =~= db_views(before).update(i as int, added));
            },
            None => {
                self.accounts_db.push(info);
                assert(db_views(self.accounts_db@) =~= db_views(before).push(added));
            },
        }
    }

    /// Forget an account's location.
    pub fn forget_db(&mut self, qq: &str)
        ensures
            db_views(final(self).accounts_db@) == without_db(
                db_views(old(self).accounts_db@),
                qq@,
            ),
            final(self).scanned == old(self).scanned,
            final(self).epoch == old(self).epoch,
    {
        let ghost before = self.accounts_db@;
        match find_db_place(&self.accounts_db, qq) {
            Some(i) => {
                self.accounts_db.remove(i);
                assert(db_views(self.accounts_db@) =~= db_views(before).remove(i as int));
            },
            None => {},
        }
    }
}

/// The host that exported links name: bind-all addresses are not reachable as such.
pub open spec fn link_host(host: Seq<char>) -> Seq<char> {
    if host == "0.0.0.0"@ || host == "::"@ {
        "127.0.0.1"@
    } else {
        host
    }
}

/// The base of exported links.
pub open spec fn base_url_of(host: Seq<char>, port: int, override_url: Option<Seq<char>>) -> Seq<char> {
    match override_url {
        Some(url) => url,
        None => {
            let h = link_host(host);
            if contains_seq(h, ":"@) && !starts_with_seq(h, "["@) {
                "http://["@ + h + "]:"@ + decimal(port)
            } else {
                "http://"@ + h + ":"@ + decimal(port)
            }
        },
    }
}

/// Base URL for exported media links. An explicit override wins; otherwise
/// `http://<host>:<port>`, where bind-all addresses fall back to 127.0.0.1 and IPv6 hosts
/// are bracketed.
pub fn derive_base_url(host: &str, port: u16, override_url: Option<&str>) -> (r: String)
    ensures
        r@ == base_url_of(host@, port as int, opt_str_view(override_url)),
{
    match override_url {
        Some(url) => url.to_owned(),
        None => {
            let h = if same(host, "0.0.0.0") || same(host, "::") {
                "127.0.0.1"
            } else {
                host
            };
            let p = decimal_u64(port as u64);
            if contains(h, ":") && !starts_with(h, "[") {
                let mut r = "http://[".to_owned();
                r.append(h);
                r.append("]:");
                r.append(p.as_str());
                r
            } else {
                let mut r = "http://".to_owned();
                r.append(h);
                r.append(":");
                r.append(p.as_str());
                r
            }
        },
    }
}

/// One buffered event.
#[derive(Debug)]
pub struct HistoryItem {
    pub id: u64,
    /// When it was appended, in milliseconds.
    pub at: u64,
    pub name: String,
    pub payload: String,
}

/// What a [`HistoryItem`] holds.
pub struct HistoryModel {
    pub id: u64,
    pub at: u64,
    pub name: Seq<char>,
    pub payload: Seq<char>,
}

impl View for HistoryItem {
    type V = HistoryModel;

    open spec fn view(&self) -> HistoryModel {
        HistoryModel { id: self.id, at: self.at, name: self.name@, payload: self.payload@ }
    }
}

/// The items of a buffer.
pub open spec fn history_views(v: Seq<HistoryItem>) -> Seq<HistoryModel> {
    v.map_values(|i: HistoryItem| i@)
}

/// The most events that are kept for replay.
pub const HISTORY_MAX: usize = 1000;

/// How long an event is replayed, in milliseconds.
pub const HISTORY_TTL_MS: u64 = 600000;

/// Recent events, for clients that reconnect.
#[derive(Debug)]
pub struct HistoryBuf {
    items: VecDeque<HistoryItem>,
    last_id: u64,
}

/// An event that is replayed to a client that has seen the ids up to `since`.
pub open spec fn replayed(i: HistoryModel, since: u64, now: u64) -> bool {
    i.id > since && (now < i.at || now - i.at < HISTORY_TTL_MS)
}

/// The events of a buffer that are replayed.
pub open spec fn replay_of(items: Seq<HistoryModel>, since: u64, now: u64) -> Seq<HistoryModel>
    decreases items.len(),
{
    if items.len() == 0 {
        Seq::empty()
    } else {
        let before = replay_of(items.drop_last(), since, now);
        if replayed(items.last(), since, now) {
            before.push(items.last())
        } else {
            before
        }
    }
}

/// The view of a replay.
pub open spec fn replay_views(v: Seq<(u64, String, String)>) -> Seq<(u64, Seq<char>, Seq<char>)> {
    v.map_values(|e: (u64, String, String)| (e.0, e.1@, e.2@))
}

/// What a replay sends of the events.
pub open spec fn frames(items: Seq<HistoryModel>) -> Seq<(u64, Seq<char>, Seq<char>)> {
    items.map_values(|i: HistoryModel| (i.id, i.name, i.payload))
}

impl HistoryBuf {
    /// The events in the buffer, oldest first.
    pub closed spec fn events(&self) -> Seq<HistoryModel> {
        history_views(self.items@)
    }

    /// The id of the last event that was ever appended.
    pub closed spec fn last(&self) -> u64 {
        self.last_id
    }

    /// The buffer keeps to its cap, and its ids follow one another up to the last one.
    pub open spec fn wf(&self) -> bool {
        &&& self.events().len() <= HISTORY_MAX
        &&& self.events().len() <= self.last()
        &&& forall|i: int|
            0 <= i < self.events().len() ==> (#[trigger] self.events()[i]).id == self.last()
                - self.events().len() + 1 + i
    }

    /// The id of the last event that was ever appended, 0 before the first.
    pub fn last_id(&self) -> (r: u64)
        ensures
            r == self.last(),
    {
        self.last_id
    }

    /// Append an event at a time and return its id, one more than the last.
    pub fn append(&mut self, name: String, payload: String, now: u64) -> (id: u64)
        requires
            old(self).wf(),
            old(self).last() < u64::MAX,
        ensures
            final(self).wf(),
            id == old(self).last() + 1,
            final(self).last() == id,
            ({
                let all = old(self).events().push(
                    HistoryModel { id, at: now, name: name@, payload: payload@ },
                );
                final(self).events() == if all.len() > HISTORY_MAX {
                    all.drop_first()
                } else {
                    all
                }
            }),
    {
        let ghost before = self.items@;
        self.last_id = self.last_id + 1;
        let item = HistoryItem { id: self.last_id, at: now, name, payload };
        let ghost added = item@;
        self.items.push_back(item);
        let ghost all = history_views(before).push(added);
        assert(history_views(self.items@) =~= all);
        if self.items.len() > HISTORY_MAX {
            let ghost full = self.items@;
            self.items.pop_front();
            assert(history_views(self.items@) =~= all.drop_first());
        }
        self.last_id
    }

    /// Events with an id above `since`, still within the replay window.
    pub fn replay_since(&self, since: u64, now: u64) -> (r: Vec<(u64, String, String)>)
        ensures
            replay_views(r@) == frames(replay_of(self.events(), since, now)),
    {
        let ghost all = self.events();
        let mut r: Vec<(u64, String, String)> = Vec::new();
        let mut i: usize = 0;
        assert(all.take(0) =~= Seq::empty());
        assert(replay_views(r@) =~= frames(replay_of(all.take(0), since, now)));
        while i < self.items.len()
            invariant
                i <= self.items.len(),
                all == history_views(self.items@),
                replay_views(r@) == frames(replay_of(all.take(i as int), since, now)),
            decreases self.items.len() - i,
        {
            let it = &self.items[i];
            proof {
                let next = all.take(i + 1);
                assert(next.drop_last() =~= all.take(i as int));
                assert(next.last() == it@);
            }
            if it.id > since && (now < it.at || now - it.at < HISTORY_TTL_MS) {
                let ghost before = r@;
                let ghost kept = replay_of(all.take(i as int), since, now);
                r.push((it.id, it.name.clone(), it.payload.clone()));
                assert(replay_views(r@) =~= replay_views(before).push(
                    (it@.id, it@.name, it@.payload),
                ));
                assert(frames(kept.push(it@)) =~= frames(kept).push(
                    (it@.id, it@.name, it@.payload),
                ));
            }
            i += 1;
        }
        assert(all.take(all.len() as int) =~= all);
        r
    }

    /// Drops every event; ids go on counting.
    pub fn clear(&mut self)
        ensures
            final(self).events().len() == 0,
            final(self).last() == old(self).last(),
            final(self).wf(),
    {
        self.items = VecDeque::new();
    }
}

impl Default for HistoryBuf {
    fn default() -> (r: Self)
        ensures
            r.wf(),
            r.events().len() == 0,
            r.last() == 0,
    {
        HistoryBuf { items: VecDeque::new(), last_id: 0 }
    }
}

/// A client that has seen an id is never sent it, or an older one, again.
pub proof fn law_replay_sends_newer_ids_only(items: Seq<HistoryModel>, since: u64, now: u64)
    ensures
        forall|i: int|
            0 <= i < replay_of(items, since, now).len() ==> replayed(
                #[trigger] replay_of(items, since, now)[i],
                since,
                now,
            ),
    decreases items.len(),
{
    if items.len() > 0 {
        let before = replay_of(items.drop_last(), since, now);
        let all = replay_of(items, since, now);
        law_replay_sends_newer_ids_only(items.drop_last(), since, now);
        assert forall|i: int| 0 <= i < all.len() implies replayed(#[trigger] all[i], since, now) by {
            if i < before.len() {
                assert(all[i] == before[i]);
            }
        }
    }
}

/// The owner is the first account that is ready; without one it is empty.
pub proof fn law_ready_account(accounts: Seq<AccountModel>)
    ensures
        (forall|i: int| 0 <= i < accounts.len() ==> !((#[trigger] accounts[i]).state is Ready))
            ==> ready_qq(accounts).len() == 0,
        forall|i: int|
            0 <= i < accounts.len() && (#[trigger] accounts[i]).state is Ready && (forall|j: int|
                0 <= j < i ==> !((#[trigger] accounts[j]).state is Ready)) ==> ready_qq(accounts)
                == accounts[i].qq,
    decreases accounts.len(),
{
    if accounts.len() > 0 && !(accounts[0].state is Ready) {
        let rest = accounts.drop_first();
        law_ready_account(rest);
        if forall|i: int| 0 <= i < accounts.len() ==> !((#[trigger] accounts[i]).state is Ready) {
            assert forall|i: int| 0 <= i < rest.len() implies !((#[trigger] rest[i]).state is Ready) by {
                assert(rest[i] == accounts[i + 1]);
            }
        }
        assert forall|i: int|
            0 <= i < accounts.len() && (#[trigger] accounts[i]).state is Ready && (forall|j: int|
                0 <= j < i ==> !((#[trigger] accounts[j]).state is Ready)) implies ready_qq(accounts)
            == accounts[i].qq by {
            assert(rest[i - 1] == accounts[i]);
            assert forall|j: int| 0 <= j < i - 1 implies !((#[trigger] rest[j]).state is Ready) by {
                assert(rest[j] == accounts[j + 1]);
            }
        }
    }
}

/// An account's state is what was set last, and setting it leaves every other account's as
/// it was; a new account stands behind the others.
pub proof fn law_set_states_are_read_back(accounts: Seq<AccountModel>, a: AccountModel, qq: Seq<char>)
    ensures
        ({
            let after = with_account(accounts, a);
            &&& status_of(after, a.qq) == Some(a.state)
            &&& qq != a.qq ==> status_of(after, qq) == status_of(accounts, qq)
            &&& status_of(accounts, a.qq) is None ==> after == accounts.push(a)
            &&& status_of(accounts, a.qq) is Some ==> after.len() == accounts.len()
            &&& after.contains(a)
        }),
{
    let after = with_account(accounts, a);
    lemma_account_place(accounts, a.qq);
    lemma_account_place(accounts, qq);
    lemma_account_place(after, a.qq);
    lemma_account_place(after, qq);
    match account_place(accounts, a.qq) {
        Some(i) => {
            assert(after[i] == a);
            assert forall|j: int| 0 <= j < after.len() implies (#[trigger] after[j]).qq
                == accounts[j].qq by {}
        },
        None => {
            assert(after[accounts.len() as int] == a);
            assert forall|j: int| 0 <= j < accounts.len() implies after[j] == #[trigger] accounts[j] by {}
        },
    }
    if qq != a.qq {
        match (account_place(accounts, qq), account_place(after, qq)) {
            (Some(i), Some(j)) => {
                if i < j {
                    assert(after[i].qq == qq);
                }
                if j < i {
                    assert(accounts[j].qq == qq);
                }
            },
            (Some(i), None) => {
                assert(after[i].qq == qq);
            },
            (None, Some(j)) => {
                if j < accounts.len() {
                    assert(accounts[j].qq == qq);
                }
            },
            (None, None) => {},
        }
    }
    match account_place(after, a.qq) {
        Some(j) => {
            match account_place(accounts, a.qq) {
                Some(i) => {
                    if j < i {
                        assert(accounts[j].qq == a.qq);
                    }
                    if i < j {
                        assert(after[i].qq == a.qq);
                    }
                },
                None => {
                    if j < accounts.len() {
                        assert(accounts[j].qq == a.qq);
                    }
                },
            }
        },
        None => {
            match account_place(accounts, a.qq) {
                Some(i) => {
                    assert(after[i].qq == a.qq);
                },
                None => {
                    assert(after[accounts.len() as int].qq == a.qq);
                },
            }
        },
    }
}

/// While no account holds a key, any may begin. An account that holds one may begin again
/// exactly where it failed; while it is being read or is ready, it and every other account
/// is told its state.
pub proof fn law_who_may_begin(accounts: Seq<AccountModel>, a: AccountModel, qq: Seq<char>)
    requires
        single_binding(accounts),
    ensures
        (forall|i: int| 0 <= i < accounts.len() ==> (#[trigger] accounts[i]).state is AwaitingKey)
            ==> blocked_by(accounts, qq) is None,
        accounts.contains(a) && !(a.state is AwaitingKey) && qq != a.qq ==> blocked_by(accounts, qq)
            == Some(a.state),
        accounts.contains(a) && a.state is Error ==> blocked_by(accounts, a.qq) is None,
        accounts.contains(a) && (a.state is Ready || a.state is Indexing) ==> blocked_by(
            accounts,
            a.qq,
        ) == Some(a.state),
{
    lemma_bound_place(accounts);
    if accounts.contains(a) && !(a.state is AwaitingKey) {
        let i = choose|i: int| 0 <= i < accounts.len() && accounts[i] == a;
        let b = bound_place(accounts)->0;
        assert(accounts[i].state == a.state);
        assert(bound_place(accounts) is Some);
        assert(accounts[b] == accounts[b]);
        assert(i == b);
        lemma_account_place(accounts, a.qq);
        let p = account_place(accounts, a.qq)->0;
        assert(accounts[i].qq == a.qq);
        if p < i {
            assert(accounts[p].qq != accounts[i].qq);
        }
        if i < p {
            assert(accounts[i].qq != accounts[p].qq);
        }
        assert(status_of(accounts, a.qq) == Some(a.state));
    }
}

/// An account that begins is being read, has no messages yet and no error; a scanned one
/// awaits its key.
pub proof fn law_fresh_accounts(qq: Seq<char>, dbs: Seq<DbModel>, i: int)
    requires
        0 <= i < dbs.len(),
    ensures
        indexing_account(qq).qq == qq,
        indexing_account(qq).state is Indexing,
        indexing_account(qq).message_count == 0,
        indexing_account(qq).error is None,
        awaiting(dbs).len() == dbs.len(),
        awaiting(dbs)[i].qq == dbs[i].qq,
        awaiting(dbs)[i].state is AwaitingKey,
        awaiting(dbs)[i].message_count == 0,
        awaiting(dbs)[i].error is None,
{
}

/// The messages of a store are those of all its conversations, each counted once.
pub proof fn law_message_totals(
    a: Seq<(Seq<char>, ConversationModel)>,
    k: Seq<char>,
    c: ConversationModel,
    b: Seq<(Seq<char>, ConversationModel)>,
)
    ensures
        message_total(Seq::empty()) == 0,
        message_total(seq![(k, c)]) == c.msgs.len(),
        message_total(a + b) == message_total(a) + message_total(b),
    decreases b.len(),
{
    assert(seq![(k, c)].drop_last() =~= Seq::empty());
    reveal_with_fuel(message_total, 2);
    if b.len() == 0 {
        assert(a + b =~= a);
    } else {
        assert((a + b).drop_last() =~= a + b.drop_last());
        law_message_totals(a, k, c, b.drop_last());
    }
}

/// The phase that is told of each state.
pub proof fn law_phases(s: AccountStatus)
    ensures
        phase_of(s) is Unregistered <==> s is AwaitingKey,
        phase_of(s) is Indexing <==> s is Indexing,
        phase_of(s) is Ready <==> s is Ready,
        phase_of(s) is Error <==> s is Error,
{
}

proof fn lemma_db_place(dbs: Seq<DbModel>, qq: Seq<char>)
    ensures
        match db_place(dbs, qq) {
            Some(i) => 0 <= i < dbs.len() && dbs[i].qq == qq && forall|j: int|
                0 <= j < i ==> (#[trigger] dbs[j]).qq != qq,
            None => forall|j: int| 0 <= j < dbs.len() ==> (#[trigger] dbs[j]).qq != qq,
        },
    decreases dbs.len(),
{
    if dbs.len() > 0 {
        let front = dbs.drop_last();
        lemma_db_place(front, qq);
        assert forall|j: int| 0 <= j < front.len() implies front[j] == #[trigger] dbs[j] by {}
    }
}

/// The database that is found for an account is the one put there last; putting or
/// forgetting one leaves every other account's as it was, and a forgotten one is gone.
pub proof fn law_databases_are_found_again(dbs: Seq<DbModel>, d: DbModel, qq: Seq<char>)
    ensures
        known_db(with_db(dbs, d), d.qq) == Some(d),
        qq != d.qq ==> known_db(with_db(dbs, d), qq) == known_db(dbs, qq),
        qq != d.qq ==> known_db(without_db(dbs, d.qq), qq) == known_db(dbs, qq),
        (forall|i: int, j: int|
            0 <= i < j < dbs.len() ==> (#[trigger] dbs[i]).qq != (#[trigger] dbs[j]).qq)
            ==> known_db(without_db(dbs, d.qq), d.qq) is None,
        known_db(dbs, d.qq) is None ==> without_db(dbs, d.qq) == dbs,
{
    let put_in = with_db(dbs, d);
    let out = without_db(dbs, d.qq);
    lemma_db_place(dbs, d.qq);
    lemma_db_place(dbs, qq);
    lemma_db_place(put_in, d.qq);
    lemma_db_place(put_in, qq);
    lemma_db_place(out, d.qq);
    lemma_db_place(out, qq);
    match db_place(dbs, d.qq) {
        Some(i) => {
            assert(put_in[i] == d);
            assert forall|j: int| 0 <= j < dbs.len() implies (#[trigger] put_in[j]).qq
                == dbs[j].qq by {}
            assert forall|j: int| 0 <= j < dbs.len() && j != i implies #[trigger] put_in[j]
                == dbs[j] by {}
            assert forall|j: int| 0 <= j < i implies #[trigger] out[j] == dbs[j] by {}
            assert forall|j: int| i <= j < out.len() implies #[trigger] out[j] == dbs[j + 1] by {}
            match db_place(put_in, d.qq) {
                Some(j) => {
                    if j < i {
                        assert(dbs[j].qq == d.qq);
                    }
                    if i < j {
                        assert(put_in[i].qq == d.qq);
                    }
                },
                None => {
                    assert(put_in[i].qq == d.qq);
                },
            }
            if qq != d.qq {
                match (db_place(dbs, qq), db_place(put_in, qq)) {
                    (Some(x), Some(y)) => {
                        if x < y {
                            assert(put_in[x].qq == qq);
                        }
                        if y < x {
                            assert(dbs[y].qq == qq);
                        }
                    },
                    (Some(x), None) => {
                        assert(put_in[x].qq == qq);
                    },
                    (None, Some(y)) => {
                        assert(dbs[y].qq == qq);
                    },
                    (None, None) => {},
                }
                match (db_place(dbs, qq), db_place(out, qq)) {
                    (Some(x), Some(y)) => {
                        let x2 = if x < i {
                            x
                        } else {
                            x - 1
                        };
                        let y2 = if y < i {
                            y
                        } else {
                            y + 1
                        };
                        assert(out[x2] == dbs[x]);
                        assert(out[y] == dbs[y2]);
                        if y2 < x {
                            assert(dbs[y2].qq == qq);
                        }
                        if x2 < y {
                            assert(out[x2].qq == qq);
                        }
                    },
                    (Some(x), None) => {
                        if x < i {
                            assert(out[x].qq == qq);
                        } else {
                            assert(out[x - 1].qq == qq);
                        }
                    },
                    (None, Some(y)) => {
                        if y < i {
                            assert(dbs[y].qq == qq);
                        } else {
                            assert(dbs[y + 1].qq == qq);
                        }
                    },
                    (None, None) => {},
                }
            }
            if forall|i: int, j: int|
                0 <= i < j < dbs.len() ==> (#[trigger] dbs[i]).qq != (#[trigger] dbs[j]).qq {
                match db_place(out, d.qq) {
                    Some(y) => {
                        if y < i {
                            assert(dbs[y].qq != dbs[i].qq);
                        } else {
                            assert(dbs[i].qq != dbs[y + 1].qq);
                        }
                    },
                    None => {},
                }
            }
        },
        None => {
            assert(put_in[dbs.len() as int] == d);
            assert forall|j: int| 0 <= j < dbs.len() implies #[trigger] put_in[j] == dbs[j] by {}
            match db_place(put_in, d.qq) {
                Some(j) => {
                    if j < dbs.len() {
                        assert(dbs[j].qq == d.qq);
                    }
                },
                None => {
                    assert(put_in[dbs.len() as int].qq == d.qq);
                },
            }
            if qq != d.qq {
                match (db_place(dbs, qq), db_place(put_in, qq)) {
                    (Some(x), Some(y)) => {
                        if x < y {
                            assert(put_in[x].qq == qq);
                        }
                        if y < x {
                            assert(dbs[y].qq == qq);
                        }
                    },
                    (Some(x), None) => {
                        assert(put_in[x].qq == qq);
                    },
                    (None, Some(y)) => {
                        if y < dbs.len() {
                            assert(dbs[y].qq == qq);
                        }
                    },
                    (None, None) => {},
                }
            }
        },
    }
}

/// Links lead to a host that can be reached: one that stands for every address is told as
/// the loopback one, an IPv6 address stands in brackets, and a configured url goes before
/// all of it.
pub proof fn law_base_urls(host: Seq<char>, port: int, url: Seq<char>)
    ensures
        base_url_of(host, port, Some(url)) == url,
        base_url_of("0.0.0.0"@, port, None) == "http://127.0.0.1:"@ + decimal(port),
        base_url_of("::"@, port, None) == "http://127.0.0.1:"@ + decimal(port),
        !host.contains(':') && host != "0.0.0.0"@ ==> base_url_of(host, port, None) == "http://"@
            + host + seq![':'] + decimal(port),
        host.contains(':') && host[0] != '[' && host != "::"@ ==> base_url_of(host, port, None)
            == "http://"@ + seq!['['] + host + seq![']', ':'] + decimal(port),
        host.len() > 0 && host[0] == '[' ==> base_url_of(host, port, None) == "http://"@ + host
            + seq![':'] + decimal(port),
{
    reveal_strlit("0.0.0.0");
    reveal_strlit("::");
    reveal_strlit("127.0.0.1");
    reveal_strlit(":");
    reveal_strlit("[");
    reveal_strlit("http://");
    reveal_strlit("http://[");
    reveal_strlit("]:");
    reveal_strlit("http://127.0.0.1:");
    assert("::"@[0] == ':' && "0.0.0.0"@[0] == '0');
    let local = "127.0.0.1"@;
    lemma_colon(local);
    lemma_colon(host);
    assert(local[0] == '1' && local[1] == '2' && local[2] == '7' && local[3] == '.');
    assert(local[4] == '0' && local[5] == '.' && local[6] == '0' && local[7] == '.' && local[8]
        == '1');
    assert forall|i: int| 0 <= i < local.len() implies local[i] != ':' by {}
    assert("http://"@ + local + ":"@ =~= "http://127.0.0.1:"@);
    assert("http://"@ + local + ":"@ + decimal(port) =~= "http://127.0.0.1:"@ + decimal(port));
    assert(":"@ =~= seq![':']);
    assert("]:"@ =~= seq![']', ':']);
    assert("http://["@ =~= "http://"@ + seq!['[']);
    if host.len() > 0 {
        if host[0] == '[' {
            assert(host.subrange(0, 1) =~= "["@);
        } else {
            assert(host.subrange(0, 1)[0] == host[0]);
            assert("["@[0] == '[');
        }
    }
    if host == "::"@ {
        assert(host[0] == ':');
        assert(host.contains(host[0]));
    }
}

proof fn lemma_colon(s: Seq<char>)
    ensures
        contains_seq(s, ":"@) <==> s.contains(':'),
{
    reveal_strlit(":");
    crate::text::law_contains(s, ":"@);
    if s.contains(':') {
        let i = choose|i: int| 0 <= i < s.len() && s[i] == ':';
        assert(s =~= s.take(i) + ":"@ + s.skip(i + 1));
    }
    if exists|a: Seq<char>, b: Seq<char>| s == #[trigger] (a + ":"@ + b) {
        let (a, b) = choose|a: Seq<char>, b: Seq<char>| s == #[trigger] (a + ":"@ + b);
        assert(s[a.len() as int] == ':');
    }
}

/// A replay sends, in order, exactly the events behind the given id that are less than ten
/// minutes old.
pub proof fn law_replays(items: Seq<HistoryModel>, since: u64, now: u64)
    ensures
        replay_of(items, since, now) == items.filter(
            |i: HistoryModel| i.id > since && now - i.at < 600_000,
        ),
    decreases items.len(),
{
    reveal(Seq::filter);
    if items.len() > 0 {
        law_replays(items.drop_last(), since, now);
    }
}

/// A replayed event is sent with its own id, name and payload.
pub proof fn law_frames(items: Seq<HistoryModel>, i: int)
    requires
        0 <= i < items.len(),
    ensures
        frames(items).len() == items.len(),
        frames(items)[i].0 == items[i].id,
        frames(items)[i].1 == items[i].name,
        frames(items)[i].2 == items[i].payload,
{
}

/// An account is seen as what its fields hold, each under its own name.
pub proof fn law_account_view(v: AccountState)
    ensures
        v@.qq == v.qq@,
        v@.state == v.state,
        v@.message_count == v.message_count,
        v.error is Some ==> v@.error == Some(v.error->0@),
        v.error is None ==> v@.error is None,
{
}

/// A kept event is seen as what its fields hold, each under its own name.
pub proof fn law_history_item_view(v: HistoryItem)
    ensures
        v@.id == v.id,
        v@.at == v.at,
        v@.name == v.name@,
        v@.payload == v.payload@,
{
}

} // verus!
