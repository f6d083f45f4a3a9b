//! The part of a server that decides: whether a request may run at the
//! current permission tier, and what running it does to an in-memory store.

use vstd::prelude::*;
use crate::error::Error;
use crate::keys::key_error;
use crate::lexer::{lex_statements, TokenView};
use crate::memory::Storage;
use crate::messaging::{Request, Response};
use crate::parser::{is_spawn_word, statement_call, statement_error, statement_fails, CallType, Env};
use crate::permission::{lowered, permits, Permission};
use crate::runtime::QueryExecutor;
use crate::storage::{
    after_counter, after_delete, after_set, counter_step, delete_result, lookup, presence,
    search_keys, Store,
};
use crate::table::StringMap;

verus! {

/// Whether `resp` is exactly the list of keys that a search for `p` finds
/// in `m`, each once.
pub open spec fn lists_search(resp: Response, m: Store, p: Seq<char>) -> bool {
    match resp {
        Response::TextList(v) => {
            &&& forall|j: int| 0 <= j < v@.len() ==> search_keys(m, p).contains(#[trigger] v@[j]@)
            &&& forall|k: Seq<char>| #[trigger] search_keys(m, p).contains(k) ==> exists|j: int|
                0 <= j < v@.len() && v@[j]@ == k
            &&& forall|a: int, b: int| 0 <= a < v@.len() && 0 <= b < v@.len() && a != b ==> v@[a]@ != v@[b]@
        },
        _ => false,
    }
}

/// The answer to a permitted request against the store `m`.
pub open spec fn answers(resp: Response, m: Store, req: Request) -> bool {
    match req {
        Request::SetKey(k, v) => match key_error(k@) {
            Some(e) => resp == Response::Error(e),
            None => resp == Response::Okay,
        },
        Request::Get(k) => match lookup(m, k@) {
            Ok(v) => resp is Text && resp->Text_0@ == v,
            Err(e) => resp == Response::Error(e),
        },
        Request::Delete(k) => match delete_result(m, k@) {
            Ok(_) => resp == Response::Okay,
            Err(e) => resp == Response::Error(e),
        },
        Request::Exists(k) => match presence(m, k@) {
            Ok(b) => resp == Response::Boolean(b),
            Err(e) => resp == Response::Error(e),
        },
        Request::Increment(k, n) => match counter_step(m, k@, n as nat, true) {
            Ok(v) => resp == Response::Number(v as usize),
            Err(e) => resp == Response::Error(e),
        },
        Request::Decrement(k, n) => match counter_step(m, k@, n as nat, false) {
            Ok(v) => resp == Response::Number(v as usize),
            Err(e) => resp == Response::Error(e),
        },
        Request::Search(p) => lists_search(resp, m, p@),
        Request::Flush => resp == Response::Okay,
        Request::DowngradePermission => resp == Response::Okay,
    }
}

/// The store after a permitted request.
pub open spec fn store_after(m: Store, req: Request) -> Store {
    match req {
        Request::SetKey(k, v) => after_set(m, k@, v@),
        Request::Delete(k) => after_delete(m, k@),
        Request::Increment(k, n) => after_counter(m, k@, n as nat, true),
        Request::Decrement(k, n) => after_counter(m, k@, n as nat, false),
        Request::Flush => Store::empty(),
        _ => m,
    }
}

/// The tier after a request: only a permitted downgrade changes it.
pub open spec fn permission_after(p: Permission, req: Request) -> Permission {
    if permits(p, req) && req is DowngradePermission {
        lowered(p)
    } else {
        p
    }
}

/// Whether a statement waits for its answer.
pub open spec fn awaits(ts: Seq<TokenView>) -> bool {
    ts.len() > 0 && !is_spawn_word(ts[0].0)
}

/// How many statements of a script wait for their answer.
pub open spec fn await_count(stmts: Seq<Seq<TokenView>>) -> nat
    decreases stmts.len(),
{
    if stmts.len() == 0 {
        0
    } else {
        await_count(stmts.drop_last()) + if awaits(stmts.last()) {
            1nat
        } else {
            0nat
        }
    }
}

pub open spec fn call_request(c: CallType) -> Request {
    match c {
        CallType::Await(r) => r,
        CallType::Spawn(r) => r,
    }
}

/// One request moves the store from `m` to `next_m` and the tier from `p`
/// to `next_p`.
pub open spec fn step_fits(m: Store, p: Permission, req: Request, next_m: Store, next_p: Permission) -> bool {
    &&& (permits(p, req) ==> next_m == store_after(m, req))
    &&& (!permits(p, req) ==> next_m == m)
    &&& next_p == permission_after(p, req)
}

/// The answer to a request at store `m` and tier `p`.
pub open spec fn reply_fits(resp: Response, m: Store, p: Permission, req: Request) -> bool {
    &&& (permits(p, req) ==> answers(resp, m, req))
    &&& (!permits(p, req) ==> resp == Response::Error(Error::PermissionFailure))
}

/// The first `n` statements ran as the calls `calls`, through the stores
/// `stores` and tiers `tiers`, and the waited-for ones gave `responses`.
pub open spec fn run_fits(
    env: Env,
    stmts: Seq<Seq<TokenView>>,
    calls: Seq<CallType>,
    stores: Seq<Store>,
    tiers: Seq<Permission>,
    responses: Seq<Response>,
    n: int,
) -> bool {
    &&& 0 <= n <= stmts.len()
    &&& calls.len() == n
    &&& stores.len() == n + 1
    &&& tiers.len() == n + 1
    &&& responses.len() == await_count(stmts.subrange(0, n))
    &&& forall|i: int| 0 <= i < n ==> statement_call(#[trigger] calls[i], env, stmts[i])
    &&& forall|i: int| 0 <= i < n ==> step_fits(stores[i], tiers[i], call_request(#[trigger] calls[i]), stores[i + 1], tiers[i + 1])
    &&& forall|i: int| 0 <= i < n && awaits(stmts[i]) ==> reply_fits(
        responses[await_count(stmts.subrange(0, i)) as int],
        stores[i],
        tiers[i],
        call_request(#[trigger] calls[i]),
    )
}

proof fn lemma_await_count_step(stmts: Seq<Seq<TokenView>>, i: int)
    requires
        0 <= i < stmts.len(),
    ensures
        await_count(stmts.subrange(0, i + 1)) == await_count(stmts.subrange(0, i)) + if awaits(stmts[i]) {
            1nat
        } else {
            0nat
        },
{
    assert(stmts.subrange(0, i + 1).drop_last() =~= stmts.subrange(0, i));
}

proof fn lemma_await_count_monotone(stmts: Seq<Seq<TokenView>>, i: int, n: int)
    requires
        0 <= i < n <= stmts.len(),
        awaits(stmts[i]),
    ensures
        await_count(stmts.subrange(0, i)) < await_count(stmts.subrange(0, n)),
    decreases n - i,
{
    lemma_await_count_step(stmts, n - 1);
    if i < n - 1 {
        lemma_await_count_monotone(stmts, i, n - 1);
    }
}

/// Whether some statement of a script fails to parse.
pub open spec fn script_fails(env: Env, stmts: Seq<Seq<TokenView>>) -> bool {
    exists|i: int| 0 <= i < stmts.len() && statement_fails(env, #[trigger] stmts[i])
}

/// What a dispatcher does with one request.
#[derive(Debug, Clone, PartialEq, Eq)]
pub enum Action {
    /// Answer at once, without touching the store.
    Reply(Response),
    /// Set the tier to this one and answer `Okay`.
    Lower(Permission),
    /// Carry the request out against the store.
    Perform(Request),
}

/// Decides what to do with a request at tier `permission`: refuse it,
/// lower the tier, or carry it out.
pub fn decide(permission: Permission, request: Request) -> (r: Action)
    ensures
        !permits(permission, request) ==> r == Action::Reply(Response::Error(Error::PermissionFailure)),
        permits(permission, request) && request is DowngradePermission ==> r == Action::Lower(
            lowered(permission),
        ),
        permits(permission, request) && !(request is DowngradePermission) ==> r == Action::Perform(
            request,
        ),
{
    match permission.allowed(&request) {
        Err(error) => Action::Reply(error.as_response()),
        Ok(()) => match request {
            Request::DowngradePermission => Action::Lower(permission.lower()),
            other => Action::Perform(other),
        },
    }
}

/// Runs requests against an in-memory store at a permission tier.
pub struct Executor {
    storage: Storage,
    permission: Permission,
}

impl Executor {
    pub closed spec fn store(&self) -> Store {
        self.storage@
    }

    pub closed spec fn tier(&self) -> Permission {
        self.permission
    }

    pub closed spec fn wf(&self) -> bool {
        self.storage.wf()
    }

    /// An executor over `storage` at the highest tier.
    pub fn new(storage: Storage) -> (r: Executor)
        requires
            storage.wf(),
        ensures
            r.wf(),
            r.store() == storage@,
            r.tier() == Permission::Owner,
    {
        Executor { storage, permission: Permission::Owner }
    }

    /// The current tier.
    pub fn permission(&self) -> (r: Permission)
        ensures
            r == self.tier(),
    {
        self.permission
    }

    /// Sets the tier, higher or lower.
    pub fn set_permission(&mut self, permission: Permission)
        requires
            old(self).wf(),
        ensures
            final(self).wf(),
            final(self).tier() == permission,
            final(self).store() == old(self).store(),
    {
        self.permission = permission;
    }

    /// Writes a value; answers `Okay` or the error.
    pub fn set(&mut self, key: String, value: String) -> (r: Response)
        requires
            old(self).wf(),
        ensures
            final(self).wf(),
            answers(r, old(self).store(), Request::SetKey(key, value)),
            final(self).store() == after_set(old(self).store(), key@, value@),
            final(self).tier() == old(self).tier(),
    {
        let ghost k = key;
        match self.storage.set(key, value) {
            Ok(()) => Response::Okay,
            Err(error) => {
                assert(key_error(k@) == Some(error));
                error.as_response()
            },
        }
    }

    /// Reads a value; answers `Text` or the error.
    pub fn get(&self, key: String) -> (r: Response)
        requires
            self.wf(),
        ensures
            answers(r, self.store(), Request::Get(key)),
    {
        match self.storage.get(key) {
            Ok(value) => Response::Text(value),
            Err(error) => error.as_response(),
        }
    }

    /// Removes a key; answers `Okay` or the error.
    pub fn delete(&mut self, key: String) -> (r: Response)
        requires
            old(self).wf(),
        ensures
            final(self).wf(),
            answers(r, old(self).store(), Request::Delete(key)),
            final(self).store() == after_delete(old(self).store(), key@),
            final(self).tier() == old(self).tier(),
    {
        match self.storage.delete(key) {
            Ok(()) => Response::Okay,
            Err(error) => error.as_response(),
        }
    }

    /// Whether a key is stored; answers `Boolean` or the error.
    pub fn key_exists(&self, key: String) -> (r: Response)
        requires
            self.wf(),
        ensures
            answers(r, self.store(), Request::Exists(key)),
    {
        match self.storage.key_exists(key) {
            Ok(value) => Response::Boolean(value),
            Err(error) => error.as_response(),
        }
    }

    /// Adds to a counter; answers `Number` or the error.
    pub fn increment(&mut self, key: String, value: usize) -> (r: Response)
        requires
            old(self).wf(),
        ensures
            final(self).wf(),
            answers(r, old(self).store(), Request::Increment(key, value)),
            final(self).store() == after_counter(old(self).store(), key@, value as nat, true),
            final(self).tier() == old(self).tier(),
    {
        match self.storage.increment(key, value) {
            Ok(new) => Response::Number(new),
            Err(error) => error.as_response(),
        }
    }

    /// Subtracts from a counter; answers `Number` or the error.
    pub fn decrement(&mut self, key: String, value: usize) -> (r: Response)
        requires
            old(self).wf(),
        ensures
            final(self).wf(),
            answers(r, old(self).store(), Request::Decrement(key, value)),
            final(self).store() == after_counter(old(self).store(), key@, value as nat, false),
            final(self).tier() == old(self).tier(),
    {
        match self.storage.decrement(key, value) {
            Ok(new) => Response::Number(new),
            Err(error) => error.as_response(),
        }
    }

    /// Lists the keys with a prefix; answers `TextList`.
    pub fn search(&self, key: String) -> (r: Response)
        requires
            self.wf(),
        ensures
            answers(r, self.store(), Request::Search(key)),
    {
        let ghost p = key@;
        match self.storage.search(key) {
            Ok(value) => {
                assert(forall|j: int| 0 <= j < value@.len() ==> search_keys(self.storage@, p).contains(#[trigger] value@[j]@));
                assert(forall|k: Seq<char>| #[trigger] search_keys(self.storage@, p).contains(k) ==> exists|j: int|
                    0 <= j < value@.len() && value@[j]@ == k);
                assert(forall|a: int, b: int| 0 <= a < value@.len() && 0 <= b < value@.len() && a != b ==> value@[a]@ != value@[b]@);
                let r = Response::TextList(value);
                assert(r->TextList_0 == value);
                assert(r->TextList_0@ == value@);
                assert(lists_search(r, self.storage@, p));
                r
            },
            Err(error) => error.as_response(),
        }
    }

    /// Removes every key; answers `Okay`.
    pub fn flush(&mut self) -> (r: Response)
        requires
            old(self).wf(),
        ensures
            final(self).wf(),
            r == Response::Okay,
            final(self).store() == Store::empty(),
            final(self).tier() == old(self).tier(),
    {
        match self.storage.flush() {
            Ok(()) => Response::Okay,
            Err(error) => error.as_response(),
        }
    }

    /// Runs one request: refused with `PermissionFailure` when the tier
    /// does not allow it, else carried out against the store; a downgrade
    /// lowers the tier by one step.
    pub fn execute(&mut self, request: Request) -> (r: Response)
        requires
            old(self).wf(),
        ensures
            final(self).wf(),
            !permits(old(self).tier(), request) ==> r == Response::Error(Error::PermissionFailure)
                && final(self).store() == old(self).store(),
            permits(old(self).tier(), request) ==> answers(r, old(self).store(), request)
                && final(self).store() == store_after(old(self).store(), request),
            final(self).tier() == permission_after(old(self).tier(), request),
    {
        let request = match decide(self.permission, request) {
            Action::Reply(response) => return response,
            Action::Lower(permission) => {
                self.permission = permission;
                return Response::Okay;
            },
            Action::Perform(request) => request,
        };
        match request {
            Request::SetKey(key, value) => self.set(key, value),
            Request::Get(key) => self.get(key),
            Request::Delete(key) => self.delete(key),
            Request::Exists(key) => self.key_exists(key),
            Request::Increment(key, num) => self.increment(key, num),
            Request::Decrement(key, num) => self.decrement(key, num),
            Request::Search(key) => self.search(key),
            Request::Flush => self.flush(),
            Request::DowngradePermission => Response::Okay,
        }
    }

    /// Runs a script statement by statement. Requests written with `?` run
    /// without adding their answer; the others add theirs, in order. The
    /// first statement that fails to parse stops the run with its error.
    pub fn query(&mut self, source: String, env: StringMap) -> (r: Result<Vec<Response>, Error>)
        requires
            old(self).wf(),
            env.wf(),
        ensures
            final(self).wf(),
            r is Err <==> script_fails(env@, lex_statements(source@)),
            r is Err ==> exists|i: int|
                0 <= i < lex_statements(source@).len() && statement_error(
                    r->Err_0,
                    env@,
                    #[trigger] lex_statements(source@)[i],
                ) && statement_fails(env@, lex_statements(source@)[i]) && !script_fails(
                    env@,
                    lex_statements(source@).subrange(0, i),
                ),
            r is Ok ==> r->Ok_0@.len() == await_count(lex_statements(source@)),
            r is Ok ==> exists|calls: Seq<CallType>, stores: Seq<Store>, tiers: Seq<Permission>|
                run_fits(env@, lex_statements(source@), calls, stores, tiers, r->Ok_0@,
                    lex_statements(source@).len() as int)
                && stores[0] == old(self).store() && tiers[0] == old(self).tier()
                && stores.last() == final(self).store() && tiers.last() == final(self).tier(),
    {
        let ghost stmts = lex_statements(source@);
        let ghost envm = env@;
        let mut runner = QueryExecutor::new(source, env);
        let mut results: Vec<Response> = Vec::new();
        let ghost mut calls: Seq<CallType> = Seq::empty();
        let ghost mut stores: Seq<Store> = seq![self.store()];
        let ghost mut tiers: Seq<Permission> = seq![self.tier()];
        assert(stmts.subrange(0, 0) =~= Seq::<Seq<TokenView>>::empty());
        loop
            invariant
                self.wf(),
                run_fits(envm, stmts, calls, stores, tiers, results@, runner.position() as int),
                stores[0] == old(self).store(),
                tiers[0] == old(self).tier(),
                stores.last() == self.store(),
                tiers.last() == self.tier(),
                runner.wf(),
                runner.statements() == stmts,
                runner.env() == envm,
                stmts == lex_statements(source@),
                envm == env@,
                runner.position() <= stmts.len(),
                !script_fails(envm, stmts.subrange(0, runner.position() as int)),
                results@.len() == await_count(stmts.subrange(0, runner.position() as int)),
            decreases stmts.len() - runner.position(),
        {
            let ghost pos = runner.position() as int;
            match runner.next_call() {
                None => {
                    assert(stmts.subrange(0, pos) =~= stmts);
                    assert(run_fits(envm, stmts, calls, stores, tiers, results@, stmts.len() as int));
                    let r: Result<Vec<Response>, Error> = Ok(results);
                    assert(run_fits(env@, lex_statements(source@), calls, stores, tiers, r->Ok_0@,
                        lex_statements(source@).len() as int)
                        && stores[0] == old(self).store() && tiers[0] == old(self).tier()
                        && stores.last() == self.store() && tiers.last() == self.tier());
                    return r;
                },
                Some(step) => {
                    let ghost ts = stmts[pos];
                    assert(stmts.subrange(0, pos + 1).drop_last() =~= stmts.subrange(0, pos));
                    assert(stmts.subrange(0, pos + 1).last() == ts);
                    match step {
                        Err(e) => {
                            assert(script_fails(envm, stmts));
                            assert(stmts.subrange(0, pos) =~= stmts.subrange(0, pos));
                            return Err(e);
                        },
                        Ok(call) => {
                            assert(!script_fails(envm, stmts.subrange(0, pos + 1))) by {
                                assert forall|i: int| 0 <= i < pos + 1 implies !statement_fails(
                                    envm,
                                    #[trigger] stmts.subrange(0, pos + 1)[i],
                                ) by {
                                    if i < pos {
                                        assert(stmts.subrange(0, pos + 1)[i] == stmts.subrange(0, pos)[i]);
                                    }
                                }
                            }
                            let ghost m = self.store();
                            let ghost p = self.tier();
                            let ghost old_results = results@;
                            proof { lemma_await_count_step(stmts, pos); }
                            match call {
                                CallType::Await(request) => {
                                    let response = self.execute(request);
                                    results.push(response);
                                },
                                CallType::Spawn(request) => {
                                    let _ = self.execute(request);
                                },
                            }
                            proof {
                                let ghost c = call;
                                calls = calls.push(c);
                                stores = stores.push(self.store());
                                tiers = tiers.push(self.tier());
                                assert(step_fits(m, p, call_request(c), self.store(), self.tier()));
                                assert forall|i: int| 0 <= i < pos + 1 && awaits(stmts[i]) implies reply_fits(
                                    results@[await_count(stmts.subrange(0, i)) as int],
                                    stores[i],
                                    tiers[i],
                                    call_request(#[trigger] calls[i]),
                                ) by {
                                    if i < pos {
                                        lemma_await_count_monotone(stmts, i, pos);
                                        assert(results@[await_count(stmts.subrange(0, i)) as int]
                                            == old_results[await_count(stmts.subrange(0, i)) as int]);
                                    }
                                }
                                assert(run_fits(envm, stmts, calls, stores, tiers, results@, pos + 1));
                            }
                        },
                    }
                },
            }
        }
    }
}

} // verus!
