//! Account registration, deregistration and listing.
//!
//! A client supplies the account, the database key, and optionally the database path; the
//! service then initializes the account in the background. Not gated on readiness: without
//! an account the service would never become ready. The index has no account dimension, so
//! at most one account holds the binding.

use vstd::prelude::*;

use crate::db::scan::{db_views, DbInfo, DbModel};
use crate::keystore::{is_valid_key, validate_key};
use crate::pathsafe::{is_safe_segment, safe_segment};
use crate::server::error::{ApiError, ApiErrorModel};
use crate::server::{
    account_place, account_views, all_ready, begin_indexing, blocked_by, bound_account, bound_of,
    bound_place, indexing_account, known_db, law_databases_are_found_again,
    law_set_states_are_read_back, lemma_account_place, lemma_bound_place, set_account_state,
    single_binding, status_of, with_account, with_db, without_db, AccountModel, AccountRegistry,
    AccountState, AccountStatus,
};
use crate::store::{conv_views, ConversationModel, Store};
use crate::text::{opt_view, same, views};
use vstd::utf8::encode_utf8;

verus! {

/// Request parameters of a registration.
#[derive(Debug)]
pub struct Params {
    pub qq: Option<String>,
    pub key: Option<String>,
    pub db_path: Option<String>,
    pub access_token: Option<String>,
}

impl Default for Params {
    fn default() -> (r: Self)
        ensures
            r.qq is None,
            r.key is None,
            r.db_path is None,
            r.access_token is None,
    {
        Params { qq: None, key: None, db_path: None, access_token: None }
    }
}

/// The text of an optional parameter, empty where it is absent.
pub open spec fn param_text(o: Option<String>) -> Seq<char> {
    match o {
        Some(s) => s@,
        None => Seq::empty(),
    }
}

fn text_of(o: &Option<String>) -> (r: &str)
    ensures
        r@ == param_text(*o),
{
    match o {
        Some(s) => s.as_str(),
        None => {
            proof {
                reveal_strlit("");
                assert(""@ =~= Seq::<char>::empty());
            }
            ""
        },
    }
}

/// The account and the key of a registration; both are required.
pub fn required(params: &Params) -> (r: Result<(&str, &str), ApiError>)
    ensures
        match r {
            Ok((qq, key)) => qq@ == param_text(params.qq) && key@ == param_text(params.key)
                && qq@.len() > 0 && key@.len() > 0,
            Err(e) => if param_text(params.qq).len() == 0 {
                e@ == (ApiErrorModel { code: 400, message: "缺少必填参数 qq"@ })
            } else {
                param_text(params.key).len() == 0 && e@ == (ApiErrorModel {
                    code: 400,
                    message: "缺少必填参数 key"@,
                })
            },
        },
{
    let qq = text_of(&params.qq);
    let key = text_of(&params.key);
    if qq.is_empty() {
        return Err(ApiError::bad_request("缺少必填参数 qq"));
    }
    if key.is_empty() {
        return Err(ApiError::bad_request("缺少必填参数 key"));
    }
    Ok((qq, key))
}

/// Outcome of a registration.
#[derive(Debug, Clone, Copy, PartialEq, Eq, Structural)]
pub enum RegisterState {
    Accepted,
    InvalidKey,
    InvalidDbPath,
    UnknownQq,
    AlreadyReady,
    InProgress,
    AccountConflict,
}

impl RegisterState {
    /// The name of the outcome.
    pub open spec fn name(self) -> Seq<char> {
        match self {
            RegisterState::Accepted => "accepted"@,
            RegisterState::InvalidKey => "invalid_key"@,
            RegisterState::InvalidDbPath => "invalid_db_path"@,
            RegisterState::UnknownQq => "unknown_qq"@,
            RegisterState::AlreadyReady => "already_ready"@,
            RegisterState::InProgress => "in_progress"@,
            RegisterState::AccountConflict => "account_conflict"@,
        }
    }

    /// The name of the outcome.
    pub fn as_str(self) -> (r: &'static str)
        ensures
            r@ == self.name(),
    {
        match self {
            RegisterState::Accepted => "accepted",
            RegisterState::InvalidKey => "invalid_key",
            RegisterState::InvalidDbPath => "invalid_db_path",
            RegisterState::UnknownQq => "unknown_qq",
            RegisterState::AlreadyReady => "already_ready",
            RegisterState::InProgress => "in_progress",
            RegisterState::AccountConflict => "account_conflict",
        }
    }
}

/// Reply to a registration: its outcome, the account's state, and the database that the
/// service resolved.
#[derive(Debug)]
pub struct RegisterReply {
    pub state: RegisterState,
    pub status: Option<AccountStatus>,
    pub db_path: Option<String>,
    pub occupied_by: Option<String>,
    pub occupied_status: Option<AccountStatus>,
    /// Set where a background build is to begin: the count under which it does.
    pub ticket: Option<u64>,
}

/// What a [`RegisterReply`] holds.
pub struct RegisterModel {
    pub state: RegisterState,
    pub status: Option<AccountStatus>,
    pub db_path: Option<Seq<char>>,
    pub occupied_by: Option<Seq<char>>,
    pub occupied_status: Option<AccountStatus>,
    pub ticket: Option<u64>,
}

impl View for RegisterReply {
    type V = RegisterModel;

    open spec fn view(&self) -> RegisterModel {
        RegisterModel {
            state: self.state,
            status: self.status,
            db_path: opt_view(self.db_path),
            occupied_by: opt_view(self.occupied_by),
            occupied_status: self.occupied_status,
            ticket: self.ticket,
        }
    }
}

/// The accounts, the locations and the count that registrations work on.
pub struct Registration {
    pub accounts: Seq<AccountModel>,
    pub dbs: Seq<DbModel>,
    pub epoch: u64,
}

/// The path known for an account.
pub open spec fn known_path(dbs: Seq<DbModel>, qq: Seq<char>) -> Option<Seq<char>> {
    match known_db(dbs, qq) {
        Some(d) => Some(d.path),
        None => None,
    }
}

/// A reply that changes nothing.
pub open spec fn plain_reply(
    state: RegisterState,
    status: Option<AccountStatus>,
    db_path: Option<Seq<char>>,
) -> RegisterModel {
    RegisterModel {
        state,
        status,
        db_path,
        occupied_by: None,
        occupied_status: None,
        ticket: None,
    }
}

/// What a registration does: the state after it, and the reply. An account that is ready
/// or being indexed stays as it is; another account's binding stands in the way; then the
/// path is resolved; and only then the key is looked at.
pub open spec fn registered(
    s: Registration,
    qq: Seq<char>,
    key: Seq<char>,
    path_given: bool,
    resolved: Option<Seq<char>>,
) -> (Registration, RegisterModel) {
    let current = status_of(s.accounts, qq);
    let path = if path_given {
        resolved
    } else {
        known_path(s.dbs, qq)
    };
    if current == Some(AccountStatus::Ready) {
        (s, plain_reply(RegisterState::AlreadyReady, current, known_path(s.dbs, qq)))
    } else if current == Some(AccountStatus::Indexing) {
        (s, plain_reply(RegisterState::InProgress, current, known_path(s.dbs, qq)))
    } else if bound_of(s.accounts) is Some && bound_of(s.accounts)->0.qq != qq {
        (
            s,
            RegisterModel {
                occupied_by: Some(bound_of(s.accounts)->0.qq),
                occupied_status: Some(bound_of(s.accounts)->0.state),
                ..plain_reply(RegisterState::AccountConflict, None, None)
            },
        )
    } else if path is None {
        (
            s,
            plain_reply(
                if path_given {
                    RegisterState::InvalidDbPath
                } else {
                    RegisterState::UnknownQq
                },
                current,
                None,
            ),
        )
    } else {
        let dbs = if path_given {
            with_db(s.dbs, DbModel { qq, path: path->0 })
        } else {
            s.dbs
        };
        if !is_valid_key(encode_utf8(key)) {
            (Registration { dbs, ..s }, plain_reply(RegisterState::InvalidKey, current, path))
        } else {
            let epoch = (s.epoch + 1) as u64;
            (
                Registration {
                    accounts: with_account(s.accounts, indexing_account(qq)),
                    dbs,
                    epoch,
                },
                RegisterModel {
                    ticket: Some(epoch),
                    ..plain_reply(
                        RegisterState::Accepted,
                        Some(AccountStatus::Indexing),
                        path,
                    )
                },
            )
        }
    }
}

/// What registrations work on.
pub open spec fn registration(accounts: Seq<AccountState>, reg: AccountRegistry) -> Registration {
    Registration {
        accounts: account_views(accounts),
        dbs: db_views(reg.accounts_db@),
        epoch: reg.epoch,
    }
}

fn current_status(accounts: &Vec<AccountState>, qq: &str) -> (r: Option<AccountStatus>)
    ensures
        r == status_of(account_views(accounts@), qq@),
{
    let ghost all = account_views(accounts@);
    let mut i: usize = 0;
    assert(all.take(0) =~= Seq::empty());
    while i < accounts.len()
        invariant
            i <= accounts.len(),
            all == account_views(accounts@),
            account_place(all.take(i as int), qq@) is None,
        decreases accounts.len() - i,
    {
        assert(all.take(i + 1).drop_last() =~= all.take(i as int));
        assert(all[i as int] == accounts@[i as int]@);
        if same(accounts[i].qq.as_str(), qq) {
            proof {
                lemma_account_place(all.take(i as int), qq@);
                lemma_account_place(all, qq@);
                assert forall|j: int| 0 <= j < i implies (#[trigger] all[j]).qq != qq@ by {
                    assert(all.take(i as int)[j] == all[j]);
                }
                assert(account_place(all, qq@) == Some(i as int));
            }
            return Some(accounts[i].state);
        }
        i += 1;
    }
    assert(all.take(all.len() as int) =~= all);
    None
}

fn reply(state: RegisterState, status: Option<AccountStatus>, db_path: Option<String>) -> (r: RegisterReply)
    ensures
        r@ == plain_reply(state, status, opt_view(db_path)),
{
    RegisterReply {
        state,
        status,
        db_path,
        occupied_by: None,
        occupied_status: None,
        ticket: None,
    }
}

fn path_of(reg: &AccountRegistry, qq: &str) -> (r: Option<String>)
    ensures
        opt_view(r) == known_path(db_views(reg.accounts_db@), qq@),
{
    match reg.find_db(qq) {
        Some(d) => Some(d.path),
        None => None,
    }
}

/// Register an account: `db_path` is the path that the client gave, `resolved` the
/// database that it resolves to.
pub fn register(
    accounts: &mut Vec<AccountState>,
    reg: &mut AccountRegistry,
    qq: &str,
    key: &str,
    db_path: Option<&str>,
    resolved: Option<String>,
) -> (r: RegisterReply)
    requires
        old(reg).epoch < u64::MAX,
    ensures
        ({
            let out = registered(
                registration(old(accounts)@, *old(reg)),
                qq@,
                key@,
                db_path is Some && db_path->0@.len() > 0,
                opt_view(resolved),
            );
            &&& registration(final(accounts)@, *final(reg)) == out.0
            &&& r@ == out.1
        }),
        final(reg).scanned == old(reg).scanned,
{
    let current = current_status(accounts, qq);
    if current == Some(AccountStatus::Ready) {
        return reply(RegisterState::AlreadyReady, current, path_of(reg, qq));
    }
    if current == Some(AccountStatus::Indexing) {
        return reply(RegisterState::InProgress, current, path_of(reg, qq));
    }
    if let Some(b) = bound_account(accounts) {
        if !same(b.qq.as_str(), qq) {
            return RegisterReply {
                state: RegisterState::AccountConflict,
                status: None,
                db_path: None,
                occupied_by: Some(b.qq.clone()),
                occupied_status: Some(b.state),
                ticket: None,
            };
        }
    }
    let given = match db_path {
        Some(p) => !p.is_empty(),
        None => false,
    };
    let path = if given {
        resolved
    } else {
        path_of(reg, qq)
    };
    let path = match path {
        Some(p) => p,
        None => {
            return reply(
                if given {
                    RegisterState::InvalidDbPath
                } else {
                    RegisterState::UnknownQq
                },
                current,
                None,
            );
        },
    };
    if given {
        reg.upsert_db(DbInfo { qq: qq.to_owned(), path: path.clone() });
    }
    if validate_key(key).is_err() {
        return reply(RegisterState::InvalidKey, current, Some(path));
    }
    let blocked = begin_indexing(accounts, qq);
    assert(blocked is None);
    reg.epoch = reg.epoch + 1;
    RegisterReply {
        state: RegisterState::Accepted,
        status: Some(AccountStatus::Indexing),
        db_path: Some(path),
        occupied_by: None,
        occupied_status: None,
        ticket: Some(reg.epoch),
    }
}

/// Registering keeps the binding single, whatever is asked for.
pub proof fn law_register_keeps_single_binding(
    s: Registration,
    qq: Seq<char>,
    key: Seq<char>,
    path_given: bool,
    resolved: Option<Seq<char>>,
)
    requires
        single_binding(s.accounts),
    ensures
        single_binding(registered(s, qq, key, path_given, resolved).0.accounts),
{
    let out = registered(s, qq, key, path_given, resolved);
    if out.1.state is Accepted {
        assert(blocked_by(s.accounts, qq) is None);
        crate::server::law_begin_keeps_single_binding(s.accounts, qq);
    }
}

/// A registration that is not accepted leaves every account's state alone.
pub proof fn law_rejected_registration_changes_no_account(
    s: Registration,
    qq: Seq<char>,
    key: Seq<char>,
    path_given: bool,
    resolved: Option<Seq<char>>,
)
    requires
        !(registered(s, qq, key, path_given, resolved).1.state is Accepted),
    ensures
        registered(s, qq, key, path_given, resolved).0.accounts == s.accounts,
        registered(s, qq, key, path_given, resolved).0.epoch == s.epoch,
{
}

/// How a background build ended.
#[derive(Debug)]
pub enum BuildResult {
    /// The index is built: how many messages it holds.
    Built(usize),
    /// It failed: why.
    Failed(String),
}

/// The account after its build ended.
pub open spec fn build_account(qq: Seq<char>, result: BuildResult) -> AccountModel {
    match result {
        BuildResult::Built(n) => AccountModel {
            qq,
            state: AccountStatus::Ready,
            message_count: n as int,
            error: None,
        },
        BuildResult::Failed(e) => AccountModel {
            qq,
            state: AccountStatus::Error,
            message_count: 0,
            error: Some(e@),
        },
    }
}

/// Notes how the build of a registration ended, and tells whether its index is to be
/// installed. A build that was begun before the latest registration or deregistration is
/// void: it changes nothing.
pub fn finish_build(
    accounts: &mut Vec<AccountState>,
    reg: &AccountRegistry,
    qq: &str,
    ticket: u64,
    result: BuildResult,
) -> (install: bool)
    ensures
        install == (ticket == reg.epoch && result is Built),
        account_views(final(accounts)@) == if ticket == reg.epoch {
            with_account(account_views(old(accounts)@), build_account(qq@, result))
        } else {
            account_views(old(accounts)@)
        },
{
    if ticket != reg.epoch {
        return false;
    }
    match result {
        BuildResult::Built(n) => {
            set_account_state(accounts, qq, AccountStatus::Ready, n, None);
            true
        },
        BuildResult::Failed(e) => {
            set_account_state(accounts, qq, AccountStatus::Error, 0, Some(e));
            false
        },
    }
}

/// The end of a build keeps the binding single: it is the bound account's own.
pub proof fn law_finish_keeps_single_binding(
    accounts: Seq<AccountModel>,
    qq: Seq<char>,
    result: BuildResult,
)
    requires
        single_binding(accounts),
        bound_of(accounts) is Some,
        bound_of(accounts)->0.qq == qq,
    ensures
        single_binding(with_account(accounts, build_account(qq, result))),
        bound_of(with_account(accounts, build_account(qq, result))) == Some(
            build_account(qq, result),
        ),
        all_ready(with_account(accounts, build_account(qq, result))) == result is Built,
{
    let next = with_account(accounts, build_account(qq, result));
    lemma_account_place(accounts, qq);
    lemma_bound_place(accounts);
    let b = bound_place(accounts)->0;
    let i = account_place(accounts, qq)->0;
    assert(accounts[b].qq == accounts[i].qq);
    assert(i == b);
    assert(forall|j: int| 0 <= j < next.len() && j != i ==> next[j] == accounts[j]);
    assert(next[i] == build_account(qq, result));
    lemma_bound_place(next);
    crate::server::law_ready_iff_bound_account_is(next);
}

/// Outcome of a deregistration.
#[derive(Debug, Clone, Copy, PartialEq, Eq, Structural)]
pub enum DeregisterState {
    Deregistered,
    NotRegistered,
    QqMismatch,
}

impl DeregisterState {
    /// The name of the outcome.
    pub open spec fn name(self) -> Seq<char> {
        match self {
            DeregisterState::Deregistered => "deregistered"@,
            DeregisterState::NotRegistered => "not_registered"@,
            DeregisterState::QqMismatch => "qq_mismatch"@,
        }
    }

    /// The name of the outcome.
    pub fn as_str(self) -> (r: &'static str)
        ensures
            r@ == self.name(),
    {
        match self {
            DeregisterState::Deregistered => "deregistered",
            DeregisterState::NotRegistered => "not_registered",
            DeregisterState::QqMismatch => "qq_mismatch",
        }
    }
}

/// Reply to a deregistration.
#[derive(Debug)]
pub struct DeregisterReply {
    pub state: DeregisterState,
    /// The account's state when the request arrived.
    pub previous_status: Option<AccountStatus>,
    /// Whether an index is dropped.
    pub index_cleared: bool,
    pub occupied_by: Option<String>,
    pub occupied_status: Option<AccountStatus>,
}

/// What a [`DeregisterReply`] holds.
pub struct DeregisterModel {
    pub state: DeregisterState,
    pub previous_status: Option<AccountStatus>,
    pub index_cleared: bool,
    pub occupied_by: Option<Seq<char>>,
    pub occupied_status: Option<AccountStatus>,
}

impl View for DeregisterReply {
    type V = DeregisterModel;

    open spec fn view(&self) -> DeregisterModel {
        DeregisterModel {
            state: self.state,
            previous_status: self.previous_status,
            index_cleared: self.index_cleared,
            occupied_by: opt_view(self.occupied_by),
            occupied_status: self.occupied_status,
        }
    }
}

/// An account that the startup scan found and that nobody registered.
pub open spec fn awaiting_account(qq: Seq<char>) -> AccountModel {
    AccountModel { qq, state: AccountStatus::AwaitingKey, message_count: 0, error: None }
}

/// What a deregistration does: the state after it, and the reply. The account named is a
/// safety interlock: naming another than the bound one changes nothing. A scanned account
/// goes back to awaiting its key; any other is forgotten, with its path.
pub open spec fn deregistered(s: Registration, scanned: bool, qq: Seq<char>) -> (
    Registration,
    DeregisterModel,
) {
    match bound_place(s.accounts) {
        None => (
            s,
            DeregisterModel {
                state: DeregisterState::NotRegistered,
                previous_status: None,
                index_cleared: false,
                occupied_by: None,
                occupied_status: None,
            },
        ),
        Some(i) => {
            let b = s.accounts[i];
            if b.qq != qq {
                (
                    s,
                    DeregisterModel {
                        state: DeregisterState::QqMismatch,
                        previous_status: None,
                        index_cleared: false,
                        occupied_by: Some(b.qq),
                        occupied_status: Some(b.state),
                    },
                )
            } else {
                (
                    Registration {
                        accounts: if scanned {
                            s.accounts.update(i, awaiting_account(qq))
                        } else {
                            s.accounts.remove(i)
                        },
                        dbs: if scanned {
                            s.dbs
                        } else {
                            without_db(s.dbs, qq)
                        },
                        epoch: (s.epoch + 1) as u64,
                    },
                    DeregisterModel {
                        state: DeregisterState::Deregistered,
                        previous_status: Some(b.state),
                        index_cleared: b.state is Ready,
                        occupied_by: None,
                        occupied_status: None,
                    },
                )
            }
        },
    }
}

/// Deregister an account.
pub fn deregister(accounts: &mut Vec<AccountState>, reg: &mut AccountRegistry, qq: &str) -> (r: DeregisterReply)
    requires
        old(reg).epoch < u64::MAX,
    ensures
        ({
            let out = deregistered(
                registration(old(accounts)@, *old(reg)),
                views(old(reg).scanned@).contains(qq@),
                qq@,
            );
            &&& registration(final(accounts)@, *final(reg)) == out.0
            &&& r@ == out.1
        }),
        final(reg).scanned == old(reg).scanned,
{
    let ghost before = accounts@;
    let mut i: usize = 0;
    let ghost all = account_views(accounts@);
    assert(all.take(0) =~= Seq::empty());
    while i < accounts.len() && accounts[i].state == AccountStatus::AwaitingKey
        invariant
            i <= accounts.len(),
            all == account_views(accounts@),
            bound_place(all.take(i as int)) is None,
            *accounts == *old(accounts),
        decreases accounts.len() - i,
    {
        assert(all.take(i + 1).drop_last() =~= all.take(i as int));
        assert(all[i as int] == accounts@[i as int]@);
        i += 1;
    }
    if i == accounts.len() {
        assert(all.take(all.len() as int) =~= all);
        return DeregisterReply {
            state: DeregisterState::NotRegistered,
            previous_status: None,
            index_cleared: false,
            occupied_by: None,
            occupied_status: None,
        };
    }
    proof {
        lemma_bound_place(all.take(i as int));
        lemma_bound_place(all);
        assert(all[i as int] == accounts@[i as int]@);
        assert forall|j: int| 0 <= j < i implies (#[trigger] all[j]).state is AwaitingKey by {
            assert(all.take(i as int)[j] == all[j]);
        }
        assert(bound_place(all) == Some(i as int));
    }
    let previous = accounts[i].state;
    if !same(accounts[i].qq.as_str(), qq) {
        return DeregisterReply {
            state: DeregisterState::QqMismatch,
            previous_status: None,
            index_cleared: false,
            occupied_by: Some(accounts[i].qq.clone()),
            occupied_status: Some(previous),
        };
    }
    if reg.is_scanned(qq) {
        let a = AccountState {
            qq: qq.to_owned(),
            state: AccountStatus::AwaitingKey,
            message_count: 0,
            error: None,
        };
        let ghost added = a@;
        accounts[i] = a;
        assert(account_views(accounts@) =~= all.update(i as int, added));
    } else {
        accounts.remove(i);
        assert(account_views(accounts@) =~= all.remove(i as int));
        reg.forget_db(qq);
    }
    reg.epoch = reg.epoch + 1;
    DeregisterReply {
        state: DeregisterState::Deregistered,
        previous_status: Some(previous),
        index_cleared: previous == AccountStatus::Ready,
        occupied_by: None,
        occupied_status: None,
    }
}

/// Deregistering releases the binding: nobody is bound afterwards, the service is not
/// ready, and doing it again changes nothing. A build begun before is void.
pub proof fn law_deregister_releases_the_binding(s: Registration, scanned: bool, qq: Seq<char>)
    requires
        single_binding(s.accounts),
        s.epoch < u64::MAX,
        deregistered(s, scanned, qq).1.state is Deregistered,
    ensures
        ({
            let next = deregistered(s, scanned, qq).0;
            &&& single_binding(next.accounts)
            &&& bound_of(next.accounts) is None
            &&& !all_ready(next.accounts)
            &&& next.epoch > s.epoch
            &&& deregistered(next, scanned, qq).1.state is NotRegistered
            &&& deregistered(next, scanned, qq).0 == next
        }),
{
    let next = deregistered(s, scanned, qq).0;
    lemma_bound_place(s.accounts);
    let b = bound_place(s.accounts)->0;
    assert forall|j: int| 0 <= j < s.accounts.len() && j != b implies (
    #[trigger] s.accounts[j]).state is AwaitingKey by {}
    if scanned {
        assert(forall|j: int| 0 <= j < next.accounts.len() && j != b ==> next.accounts[j] == s.accounts[j]);
        assert(next.accounts[b] == awaiting_account(qq));
    } else {
        assert(forall|j: int| 0 <= j < b ==> next.accounts[j] == s.accounts[j]);
        assert(forall|j: int|
            b <= j < next.accounts.len() ==> next.accounts[j] == s.accounts[j + 1]);
    }
    assert forall|j: int| 0 <= j < next.accounts.len() implies (
    #[trigger] next.accounts[j]).state is AwaitingKey by {}
    lemma_bound_place(next.accounts);
}

/// Naming another account than the bound one, or deregistering when nobody is bound,
/// changes nothing.
pub proof fn law_deregister_interlock(s: Registration, scanned: bool, qq: Seq<char>)
    requires
        bound_of(s.accounts) is None || bound_of(s.accounts)->0.qq != qq,
    ensures
        deregistered(s, scanned, qq).0 == s,
        !deregistered(s, scanned, qq).1.index_cleared,
{
}

/// The directories that the service itself exports media into.
pub open spec fn media_kinds() -> Seq<Seq<char>> {
    seq!["images"@, "voices"@, "videos"@, "emojis"@]
}

/// The export directories of a talker; none for a talker that is no safe path component.
pub open spec fn purge_of(talker: Seq<char>) -> Seq<(Seq<char>, Seq<char>)> {
    if is_safe_segment(talker) {
        media_kinds().map_values(|k: Seq<char>| (talker, k))
    } else {
        Seq::empty()
    }
}

/// The export directories of the conversations.
pub open spec fn purge_list(convs: Seq<(Seq<char>, ConversationModel)>) -> Seq<
    (Seq<char>, Seq<char>),
>
    decreases convs.len(),
{
    if convs.len() == 0 {
        Seq::empty()
    } else {
        purge_list(convs.drop_last()) + purge_of(convs.last().1.talker)
    }
}

/// The view of export directories.
pub open spec fn target_views(v: Seq<(String, String)>) -> Seq<(Seq<char>, Seq<char>)> {
    v.map_values(|t: (String, String)| (t.0@, t.1@))
}

/// The export directories `<talker>/<kind>` to delete on a media purge: of every
/// conversation the four that the service writes, and nothing else.
pub fn purge_targets(store: &Store) -> (r: Vec<(String, String)>)
    ensures
        target_views(r@) == purge_list(conv_views(store.convs)),
{
    let ghost convs = conv_views(store.convs);
    let mut r: Vec<(String, String)> = Vec::new();
    let mut i: usize = 0;
    assert(convs.take(0) =~= Seq::empty());
    assert(target_views(r@) =~= Seq::empty());
    while i < store.convs.len()
        invariant
            i <= convs.len(),
            convs == conv_views(store.convs),
            convs.len() == store.convs@.len(),
            target_views(r@) == purge_list(convs.take(i as int)),
        decreases convs.len() - i,
    {
        let talker = &store.convs.value_at(i).talker;
        let ghost before = r@;
        proof {
            assert(convs.take(i + 1).drop_last() =~= convs.take(i as int));
            assert(convs.take(i + 1).last().1.talker == talker@);
        }
        if safe_segment(talker.as_str()) {
            r.push((talker.clone(), "images".to_owned()));
            r.push((talker.clone(), "voices".to_owned()));
            r.push((talker.clone(), "videos".to_owned()));
            r.push((talker.clone(), "emojis".to_owned()));
            assert(target_views(r@) =~= target_views(before) + purge_of(talker@));
        } else {
            assert(target_views(before) + purge_of(talker@) =~= target_views(before));
        }
        i += 1;
    }
    assert(convs.take(convs.len() as int) =~= convs);
    r
}

/// One account as the detail endpoint tells it.
#[derive(Debug)]
pub struct AccountDetail {
    pub account: AccountState,
    pub db_path: Option<String>,
}

/// What an [`AccountDetail`] holds.
pub struct DetailModel {
    pub account: AccountModel,
    pub db_path: Option<Seq<char>>,
}

impl View for AccountDetail {
    type V = DetailModel;

    open spec fn view(&self) -> DetailModel {
        DetailModel { account: self.account@, db_path: opt_view(self.db_path) }
    }
}

/// The details of a list.
pub open spec fn detail_views(v: Seq<AccountDetail>) -> Seq<DetailModel> {
    v.map_values(|d: AccountDetail| d@)
}

/// Every account with its state and its known database path.
pub fn account_details(accounts: &Vec<AccountState>, reg: &AccountRegistry) -> (r: Vec<AccountDetail>)
    ensures
        detail_views(r@) == account_views(accounts@).map_values(
            |a: AccountModel|
                DetailModel {
                    account: a,
                    db_path: known_path(db_views(reg.accounts_db@), a.qq),
                },
        ),
{
    let mut r: Vec<AccountDetail> = Vec::new();
    let mut i: usize = 0;
    while i < accounts.len()
        invariant
            i <= accounts.len(),
            r.len() == i,
            forall|k: int|
                0 <= k < i ==> (#[trigger] r@[k])@ == (DetailModel {
                    account: accounts@[k]@,
                    db_path: known_path(db_views(reg.accounts_db@), accounts@[k]@.qq),
                }),
        decreases accounts.len() - i,
    {
        r.push(
            AccountDetail {
                account: accounts[i].clone(),
                db_path: path_of(reg, accounts[i].qq.as_str()),
            },
        );
        i += 1;
    }
    assert(detail_views(r@) =~= account_views(accounts@).map_values(
        |a: AccountModel|
            DetailModel { account: a, db_path: known_path(db_views(reg.accounts_db@), a.qq) },
    ));
    r
}

/// The names of the outcomes of a registration and of a deregistration.
pub proof fn law_outcome_names()
    ensures
        RegisterState::Accepted.name() == "accepted"@,
        RegisterState::InvalidKey.name() == "invalid_key"@,
        RegisterState::InvalidDbPath.name() == "invalid_db_path"@,
        RegisterState::UnknownQq.name() == "unknown_qq"@,
        RegisterState::AlreadyReady.name() == "already_ready"@,
        RegisterState::InProgress.name() == "in_progress"@,
        RegisterState::AccountConflict.name() == "account_conflict"@,
        DeregisterState::Deregistered.name() == "deregistered"@,
        DeregisterState::NotRegistered.name() == "not_registered"@,
        DeregisterState::QqMismatch.name() == "qq_mismatch"@,
{
}

/// An account that is ready, or is being read, is told so and nothing changes, whatever the
/// key and the path are.
pub proof fn law_registered_accounts_are_told(
    s: Registration,
    qq: Seq<char>,
    key: Seq<char>,
    path_given: bool,
    resolved: Option<Seq<char>>,
)
    ensures
        ({
            let (after, reply) = registered(s, qq, key, path_given, resolved);
            let current = status_of(s.accounts, qq);
            &&& current == Some(AccountStatus::Ready) ==> reply.state is AlreadyReady
                && reply.status == Some(AccountStatus::Ready) && after == s
            &&& current == Some(AccountStatus::Indexing) ==> reply.state is InProgress
                && reply.status == Some(AccountStatus::Indexing) && after == s
            &&& reply.state is AlreadyReady ==> current == Some(AccountStatus::Ready)
            &&& reply.state is InProgress ==> current == Some(AccountStatus::Indexing)
            &&& (reply.state is AlreadyReady || reply.state is InProgress) && known_db(
                s.dbs,
                qq,
            ) is Some ==> reply.db_path == Some(known_db(s.dbs, qq)->0.path)
        }),
{
}

/// While another account holds the key, a registration is refused, told who holds it and in
/// which state, and changes nothing.
pub proof fn law_registration_conflicts(
    s: Registration,
    holder: AccountModel,
    qq: Seq<char>,
    key: Seq<char>,
    path_given: bool,
    resolved: Option<Seq<char>>,
)
    requires
        bound_of(s.accounts) == Some(holder),
        holder.qq != qq,
        status_of(s.accounts, qq) is None || status_of(s.accounts, qq)
            == Some(AccountStatus::AwaitingKey),
    ensures
        ({
            let (after, reply) = registered(s, qq, key, path_given, resolved);
            &&& reply.state is AccountConflict
            &&& reply.occupied_by == Some(holder.qq)
            &&& reply.occupied_status == Some(holder.state)
            &&& reply.ticket is None
            &&& after == s
        }),
{
}

/// While no account holds a key: a registration needs a database, the one at the given path
/// or else the one that is known, and a valid key. A path that was given is kept even where
/// the key is refused. An accepted one is being read, and its ticket is the new epoch.
pub proof fn law_free_registrations(
    s: Registration,
    qq: Seq<char>,
    key: Seq<char>,
    given: Option<Seq<char>>,
)
    requires
        bound_of(s.accounts) is None,
        s.epoch < u64::MAX,
    ensures
        ({
            let (after, reply) = registered(s, qq, key, true, given);
            let (after2, reply2) = registered(s, qq, key, false, given);
            let valid = is_valid_key(encode_utf8(key));
            let known = known_db(s.dbs, qq);
            &&& given is None ==> reply.state is InvalidDbPath && after == s
            &&& given is Some ==> reply.db_path == given && known_db(after.dbs, qq) == Some(
                DbModel { qq, path: given->0 },
            )
            &&& given is Some && !valid ==> reply.state is InvalidKey && reply.ticket is None
                && after.accounts == s.accounts && after.epoch == s.epoch
            &&& given is Some && valid ==> reply.state is Accepted && reply.ticket == Some(
                after.epoch,
            ) && after.epoch == s.epoch + 1 && status_of(after.accounts, qq) == Some(
                AccountStatus::Indexing,
            ) && reply.status == Some(AccountStatus::Indexing)
            &&& known is None ==> reply2.state is UnknownQq && after2 == s
            &&& known is Some ==> reply2.db_path == Some(known->0.path) && after2.dbs == s.dbs
            &&& known is Some && !valid ==> reply2.state is InvalidKey && after2 == s
            &&& known is Some && valid ==> reply2.state is Accepted && reply2.ticket == Some(
                after2.epoch,
            ) && after2.epoch == s.epoch + 1 && status_of(after2.accounts, qq) == Some(
                AccountStatus::Indexing,
            )
        }),
{
    lemma_bound_place(s.accounts);
    lemma_account_place(s.accounts, qq);
    match account_place(s.accounts, qq) {
        Some(i) => {
            assert(s.accounts[i].state is AwaitingKey);
        },
        None => {},
    }
    law_set_states_are_read_back(s.accounts, indexing_account(qq), qq);
    if given is Some {
        law_databases_are_found_again(s.dbs, DbModel { qq, path: given->0 }, qq);
    }
}

/// A build that succeeded makes its account ready with its messages counted; one that failed
/// leaves it with the error and no messages.
pub proof fn law_builds_are_told(accounts: Seq<AccountModel>, qq: Seq<char>, n: usize, e: String)
    ensures
        ({
            let good = build_account(qq, BuildResult::Built(n));
            let bad = build_account(qq, BuildResult::Failed(e));
            &&& good.qq == qq && bad.qq == qq
            &&& good.state is Ready && good.message_count == n && good.error is None
            &&& bad.state is Error && bad.message_count == 0 && bad.error == Some(e@)
            &&& status_of(with_account(accounts, good), qq) == Some(AccountStatus::Ready)
            &&& status_of(with_account(accounts, bad), qq) == Some(AccountStatus::Error)
        }),
{
    law_set_states_are_read_back(accounts, build_account(qq, BuildResult::Built(n)), qq);
    law_set_states_are_read_back(accounts, build_account(qq, BuildResult::Failed(e)), qq);
}

/// What a deregistration is told: that no account holds a key, that another one does, or the
/// state that it ended. The index is cleared exactly where the account was ready.
pub proof fn law_deregistrations_are_told(s: Registration, scanned: bool, qq: Seq<char>)
    requires
        s.epoch < u64::MAX,
    ensures
        ({
            let (after, reply) = deregistered(s, scanned, qq);
            let holder = bound_of(s.accounts);
            &&& holder is None ==> reply.state is NotRegistered && after == s
            &&& holder is Some && holder->0.qq != qq ==> reply.state is QqMismatch
                && reply.occupied_by == Some(holder->0.qq) && reply.occupied_status == Some(
                holder->0.state,
            ) && after == s
            &&& holder is Some && holder->0.qq == qq ==> reply.state is Deregistered
                && reply.previous_status == Some(holder->0.state) && reply.index_cleared == (
            holder->0.state is Ready) && reply.occupied_by is None && reply.occupied_status is None
                && after.epoch == s.epoch + 1
        }),
{
    lemma_bound_place(s.accounts);
}

/// A scanned account that is deregistered awaits its key again and keeps its database; any
/// other one is gone, with its database.
pub proof fn law_deregistered_accounts(s: Registration, qq: Seq<char>, other: Seq<char>)
    requires
        single_binding(s.accounts),
        s.epoch < u64::MAX,
        bound_of(s.accounts) is Some,
        bound_of(s.accounts)->0.qq == qq,
        forall|i: int, j: int|
            0 <= i < j < s.dbs.len() ==> (#[trigger] s.dbs[i]).qq != (#[trigger] s.dbs[j]).qq,
    ensures
        ({
            let (kept, _) = deregistered(s, true, qq);
            let (gone, _) = deregistered(s, false, qq);
            &&& status_of(kept.accounts, qq) == Some(AccountStatus::AwaitingKey)
            &&& kept.accounts.len() == s.accounts.len()
            &&& kept.accounts.contains(
                AccountModel {
                    qq,
                    state: AccountStatus::AwaitingKey,
                    message_count: 0,
                    error: None,
                },
            )
            &&& gone.accounts.len() == s.accounts.len() - 1
            &&& kept.dbs == s.dbs
            &&& status_of(gone.accounts, qq) is None
            &&& known_db(gone.dbs, qq) is None
            &&& other != qq ==> known_db(gone.dbs, other) == known_db(s.dbs, other)
        }),
{
    lemma_bound_place(s.accounts);
    let i = bound_place(s.accounts)->0;
    let kept = s.accounts.update(i, awaiting_account(qq));
    let gone = s.accounts.remove(i);
    lemma_account_place(kept, qq);
    lemma_account_place(gone, qq);
    assert(kept[i].qq == qq);
    match account_place(kept, qq) {
        Some(j) => {
            if j < i {
                assert(s.accounts[j].qq != s.accounts[i].qq);
            }
        },
        None => {},
    }
    match account_place(gone, qq) {
        Some(j) => {
            if j < i {
                assert(gone[j] == s.accounts[j]);
                assert(s.accounts[j].qq != s.accounts[i].qq);
            } else {
                assert(gone[j] == s.accounts[j + 1]);
                assert(s.accounts[i].qq != s.accounts[j + 1].qq);
            }
        },
        None => {},
    }
    let d = DbModel { qq, path: Seq::empty() };
    law_databases_are_found_again(s.dbs, d, other);
}

/// What is purged of a store: for every talker that can be a directory's name, the four
/// directories of its exported media, and nothing else.
pub proof fn law_purged_directories(
    convs: Seq<(Seq<char>, ConversationModel)>,
    talker: Seq<char>,
    kind: Seq<char>,
)
    ensures
        purge_list(convs).contains((talker, kind)) <==> is_safe_segment(talker) && (kind
            == "images"@ || kind == "voices"@ || kind == "videos"@ || kind == "emojis"@) && exists|
            i: int,
        |
            0 <= i < convs.len() && (#[trigger] convs[i]).1.talker == talker,
    decreases convs.len(),
{
    if convs.len() > 0 {
        let front = convs.drop_last();
        let t = convs.last().1.talker;
        law_purged_directories(front, talker, kind);
        let k = media_kinds();
        assert(k[0] == "images"@ && k[1] == "voices"@ && k[2] == "videos"@ && k[3] == "emojis"@);
        let a = purge_list(front);
        let b = purge_of(t);
        let all = purge_list(convs);
        if all.contains((talker, kind)) {
            let j = choose|j: int| 0 <= j < all.len() && all[j] == (talker, kind);
            if j < a.len() {
                assert(a[j] == (talker, kind));
                let i = choose|i: int|
                    0 <= i < front.len() && (#[trigger] front[i]).1.talker == talker;
                assert(convs[i].1.talker == talker);
            } else {
                assert(b[j - a.len()] == (talker, kind));
                assert(convs[convs.len() - 1].1.talker == talker);
            }
        }
        if is_safe_segment(talker) && (kind == "images"@ || kind == "voices"@ || kind == "videos"@
            || kind == "emojis"@) && exists|i: int|
            0 <= i < convs.len() && (#[trigger] convs[i]).1.talker == talker {
            let i = choose|i: int| 0 <= i < convs.len() && (#[trigger] convs[i]).1.talker == talker;
            if i < front.len() {
                assert(front[i].1.talker == talker);
                let j = choose|j: int| 0 <= j < a.len() && a[j] == (talker, kind);
                assert(all[j] == (talker, kind));
            } else {
                let n: int = if kind == "images"@ {
                    0
                } else if kind == "voices"@ {
                    1
                } else if kind == "videos"@ {
                    2
                } else {
                    3
                };
                assert(b[n] == (talker, kind));
                assert(all[a.len() + n] == (talker, kind));
            }
        }
    }
}

/// A registration reply is seen as what its fields hold, each under its own name.
pub proof fn law_register_reply_view(v: RegisterReply)
    ensures
        v@.state == v.state,
        v@.status == v.status,
        v.db_path is Some ==> v@.db_path == Some(v.db_path->0@),
        v.db_path is None ==> v@.db_path is None,
        v.occupied_by is Some ==> v@.occupied_by == Some(v.occupied_by->0@),
        v.occupied_by is None ==> v@.occupied_by is None,
        v@.occupied_status == v.occupied_status,
        v@.ticket == v.ticket,
{
}

/// A deregistration reply is seen as what its fields hold, each under its own name.
pub proof fn law_deregister_reply_view(v: DeregisterReply)
    ensures
        v@.state == v.state,
        v@.previous_status == v.previous_status,
        v@.index_cleared == v.index_cleared,
        v.occupied_by is Some ==> v@.occupied_by == Some(v.occupied_by->0@),
        v.occupied_by is None ==> v@.occupied_by is None,
        v@.occupied_status == v.occupied_status,
{
}

} // verus!
