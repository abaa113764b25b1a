//! The path of one request through the service.
//!
//! A request is answered in two steps with the caller's work in between.
//! `accept` decides whether the request is a lookup, leases a connection
//! for it and names the key to read. The caller then reads every field
//! under that key over the leased connection, which it opens first where
//! the lease is fresh, and reports what came of it. `complete` turns that
//! report into the answer and settles the lease: a connection that
//! answered goes back to the pool, one that failed is given up.

use vstd::prelude::*;

use crate::error::ServiceError;
use crate::key::{key_for, store_key};
use crate::pool::{ConnectionHandle, Pool, PoolOp, PoolState};
use crate::record::PredictionRecord;
use crate::response::{Answer, Response};
use crate::route::{
    client_of_path, is_client_id, lemma_path_round_trip, lookup_method, lookup_path, route, Route,
};

verus! {

/// What came of the query.
#[derive(Debug)]
pub enum StoreReply {
    /// The store answered with these fields: none where it holds nothing
    /// under the key.
    Fields(PredictionRecord),
    /// The connection could not be opened, or the query met a timeout, a
    /// reset or an answer that is no field map.
    Failed,
}

impl View for StoreReply {
    type V = Option<Map<Seq<char>, u32>>;

    open spec fn view(&self) -> Option<Map<Seq<char>, u32>> {
        match self {
            StoreReply::Fields(record) => Some(record@),
            StoreReply::Failed => None,
        }
    }
}

/// A lookup under way, as a mathematical value.
pub struct Ticket {
    /// The id of the leased connection.
    pub connection: u64,
    /// Whether that connection is yet to be opened.
    pub fresh: bool,
    /// The key to read.
    pub key: Seq<char>,
}

/// A lookup under way: it holds the lease on a connection and names the key
/// to read over it. It ends, once, in `complete`.
#[must_use]
#[derive(Debug)]
pub struct Lookup {
    handle: ConnectionHandle,
    key: String,
}

impl View for Lookup {
    type V = Ticket;

    closed spec fn view(&self) -> Ticket {
        Ticket { connection: self.handle.conn(), fresh: self.handle.fresh(), key: self.key@ }
    }
}

impl Lookup {
    /// The key under which the store holds the client's record.
    pub fn key(&self) -> (key: &str)
        ensures
            key@ == self@.key,
    {
        self.key.as_str()
    }

    /// The id of the leased connection.
    pub fn connection(&self) -> (id: u64)
        ensures
            id == self@.connection,
    {
        self.handle.id()
    }

    /// Whether the leased connection is yet to be opened.
    pub fn is_fresh(&self) -> (fresh: bool)
        ensures
            fresh == self@.fresh,
    {
        self.handle.is_fresh()
    }
}

/// What becomes of a connection when its lease ends.
#[derive(Clone, Copy, Debug, PartialEq, Eq, Structural)]
pub enum Disposal {
    /// It stays open and waits for the next lease.
    Keep,
    /// It is closed.
    Close,
}

/// How a lookup ended.
#[derive(Debug)]
pub struct Completion {
    /// The answer to the request.
    pub response: Response,
    /// The id of the connection that the lookup held.
    pub connection: u64,
    /// What becomes of that connection.
    pub disposal: Disposal,
}

/// How the lookup of `client_id` begins with the pool in the state `pool`.
/// A client id that is not there leads nowhere; with no connection to be
/// had the request fails.
pub open spec fn begun(pool: PoolState, client_id: Seq<char>) -> Result<Ticket, Answer> {
    if client_id.len() == 0 {
        Err(Answer::NotFound)
    } else if !pool.can_lease() {
        Err(Answer::Failed(ServiceError::PoolExhausted))
    } else {
        Ok(Ticket { connection: pool.next_id(), fresh: !pool.reuses(), key: key_for(client_id) })
    }
}

/// How a request with this method and path begins. The pool is asked for
/// a connection only where the request is a lookup.
pub open spec fn accepted(pool: PoolState, method: Seq<char>, path: Seq<char>) -> Result<
    Ticket,
    Answer,
> {
    if method != lookup_method() {
        Err(Answer::MethodNotAllowed)
    } else {
        match client_of_path(path) {
            Some(client_id) => begun(pool, client_id),
            None => Err(Answer::NotFound),
        }
    }
}

/// The answer to a lookup after the store's reply: the fields as they
/// came, or the failure.
pub open spec fn answer_to(reply: Option<Map<Seq<char>, u32>>) -> Answer {
    match reply {
        Some(fields) => Answer::Found(fields),
        None => Answer::Failed(ServiceError::StoreUnavailable),
    }
}

/// The pool after the lease on the connection `id` ended with this reply.
pub open spec fn settled(pool: PoolState, id: u64, reply: Option<Map<Seq<char>, u32>>) -> PoolState {
    match reply {
        Some(_) => pool.release(id),
        None => pool.discard(id),
    }
}

/// What becomes of the connection `id` after this reply: it is kept where
/// it answered and the pool has it on lease.
pub open spec fn disposal_of(pool: PoolState, id: u64, reply: Option<Map<Seq<char>, u32>>) -> Disposal {
    if reply is Some && pool.leased.contains(id) {
        Disposal::Keep
    } else {
        Disposal::Close
    }
}

/// The fields that a store gives for a key. A store is taken as the mapping
/// from each key that it holds to the fields under it; a key that it does
/// not hold reads as no fields, not as an error.
pub open spec fn stored(store: Map<Seq<char>, Map<Seq<char>, u32>>, key: Seq<char>) -> Map<
    Seq<char>,
    u32,
> {
    if store.contains_key(key) {
        store[key]
    } else {
        Map::empty()
    }
}

/// What a store replies to the query for a key: its fields under the key
/// where it can be reached (`Some`), a failure where it cannot (`None`).
pub open spec fn reply_of(store: Option<Map<Seq<char>, Map<Seq<char>, u32>>>, key: Seq<char>) -> Option<
    Map<Seq<char>, u32>,
> {
    match store {
        Some(held) => Some(stored(held, key)),
        None => None,
    }
}

/// One whole request: the pool after it, and the answer to it. The request
/// begins as `accepted` says; where a lookup begins, the store is asked for
/// the key and the lookup ends with its reply.
pub open spec fn served(
    pool: PoolState,
    method: Seq<char>,
    path: Seq<char>,
    store: Option<Map<Seq<char>, Map<Seq<char>, u32>>>,
) -> (PoolState, Answer) {
    match accepted(pool, method, path) {
        Ok(ticket) => (
            settled(pool.lease(), ticket.connection, reply_of(store, ticket.key)),
            answer_to(reply_of(store, ticket.key)),
        ),
        Err(answer) => (pool, answer),
    }
}

/// A client whose record the store holds is answered with status 200 and
/// exactly that record, read under the client's own key. This holds where
/// the client id can stand in a path, a connection can be had and the store
/// can be reached.
pub proof fn lemma_record_served(
    pool: PoolState,
    store: Map<Seq<char>, Map<Seq<char>, u32>>,
    client_id: Seq<char>,
)
    requires
        is_client_id(client_id),
        pool.can_lease(),
        store.contains_key(key_for(client_id)),
    ensures
        accepted(pool, lookup_method(), lookup_path(client_id)) matches Ok(ticket) && ticket.key
            == key_for(client_id),
        served(pool, lookup_method(), lookup_path(client_id), Some(store)).1 == Answer::Found(
            store[key_for(client_id)],
        ),
        served(pool, lookup_method(), lookup_path(client_id), Some(store)).1.status_code() == 200,
{
    lemma_path_round_trip(client_id, lookup_path(client_id));
}

/// A client of whom the store holds nothing is answered with status 200
/// and the record without fields, not with an error. This holds where the
/// client id can stand in a path, a connection can be had and the store can
/// be reached.
pub proof fn lemma_absent_is_empty(
    pool: PoolState,
    store: Map<Seq<char>, Map<Seq<char>, u32>>,
    client_id: Seq<char>,
)
    requires
        is_client_id(client_id),
        pool.can_lease(),
        !store.contains_key(key_for(client_id)),
    ensures
        served(pool, lookup_method(), lookup_path(client_id), Some(store)).1 == Answer::Found(
            Map::empty(),
        ),
        served(pool, lookup_method(), lookup_path(client_id), Some(store)).1.status_code() == 200,
{
    lemma_path_round_trip(client_id, lookup_path(client_id));
}

/// Every request, however it ends, leaves the connections out on lease as
/// it found them, and the books of the pool in order. After a lookup that
/// the store answered, the next lease is on the connection that served it.
pub proof fn lemma_request_returns_lease(
    pool: PoolState,
    method: Seq<char>,
    path: Seq<char>,
    store: Option<Map<Seq<char>, Map<Seq<char>, u32>>>,
)
    requires
        pool.wf(),
    ensures
        served(pool, method, path, store).0.wf(),
        served(pool, method, path, store).0.leased == pool.leased,
        served(pool, method, path, store).0.capacity == pool.capacity,
        accepted(pool, method, path) is Ok && store is Some ==> served(
            pool,
            method,
            path,
            store,
        ).0.can_lease() && served(pool, method, path, store).0.reuses() && served(
            pool,
            method,
            path,
            store,
        ).0.next_id() == pool.next_id(),
{
    if let Ok(ticket) = accepted(pool, method, path) {
        let id = pool.next_id();
        pool.lemma_step_wf(PoolOp::Lease);
        pool.lemma_release_restores();
        assert(!pool.leased.contains(id)) by {
            assert(pool.reuses() ==> pool.idle.contains(id));
        }
        if reply_of(store, ticket.key) is Some {
            pool.lease().lemma_step_wf(PoolOp::Release(id));
        } else {
            pool.lease().lemma_step_wf(PoolOp::Discard(id));
            pool.lease().lemma_discard_frees(id);
        }
    }
}

/// Lookups for different clients share the pool and nothing else: whether
/// a lookup gets a connection, which one it gets and what it leaves of the
/// pool do not depend on the client that is asked for.
pub proof fn lemma_clients_share_only_the_pool(
    pool: PoolState,
    store: Option<Map<Seq<char>, Map<Seq<char>, u32>>>,
    first: Seq<char>,
    second: Seq<char>,
)
    requires
        is_client_id(first),
        is_client_id(second),
    ensures
        accepted(pool, lookup_method(), lookup_path(first)) is Ok <==> pool.can_lease(),
        accepted(pool, lookup_method(), lookup_path(first)) is Ok <==> accepted(
            pool,
            lookup_method(),
            lookup_path(second),
        ) is Ok,
        accepted(pool, lookup_method(), lookup_path(first)) matches Ok(ticket) ==> ticket.connection
            == pool.next_id(),
        served(pool, lookup_method(), lookup_path(first), store).0 == served(
            pool,
            lookup_method(),
            lookup_path(second),
            store,
        ).0,
{
    lemma_path_round_trip(first, lookup_path(first));
    lemma_path_round_trip(second, lookup_path(second));
}

/// A lookup that meets an unreachable store is answered with a server
/// error, never with a success, and its connection is gone for good:
/// whatever is done to the pool afterwards, no lease is on that connection
/// again.
pub proof fn lemma_failed_connection_retired(
    pool: PoolState,
    method: Seq<char>,
    path: Seq<char>,
    later: Seq<PoolOp>,
)
    requires
        pool.wf(),
        accepted(pool, method, path) is Ok,
    ensures
        500 <= served(pool, method, path, None).1.status_code() < 600,
        served(pool, method, path, None).0.retired(pool.next_id()),
        served(pool, method, path, None).0.run(later).retired(pool.next_id()),
        served(pool, method, path, None).0.run(later).can_lease() ==> served(
            pool,
            method,
            path,
            None,
        ).0.run(later).next_id() != pool.next_id(),
{
    let id = pool.next_id();
    let after = served(pool, method, path, None).0;
    lemma_request_returns_lease(pool, method, path, None);
    pool.lemma_step_wf(PoolOp::Lease);
    pool.lease().lemma_discard_frees(id);
    after.lemma_retired_stays(id, later);
}

/// A failure does not wear the pool down: after a lookup that met an
/// unreachable store, a lookup that finds the store reachable again is
/// answered with status 200 and the fields that the store holds. This holds
/// where the pool has ids left to name two new connections by.
pub proof fn lemma_recovers_after_failure(
    pool: PoolState,
    store: Map<Seq<char>, Map<Seq<char>, u32>>,
    failed: Seq<char>,
    client_id: Seq<char>,
)
    requires
        pool.wf(),
        pool.can_lease(),
        pool.minted + 1 < u64::MAX,
        is_client_id(failed),
        is_client_id(client_id),
    ensures
        served(
            served(pool, lookup_method(), lookup_path(failed), None).0,
            lookup_method(),
            lookup_path(client_id),
            Some(store),
        ).1 == Answer::Found(stored(store, key_for(client_id))),
{
    lemma_path_round_trip(failed, lookup_path(failed));
    lemma_path_round_trip(client_id, lookup_path(client_id));
    lemma_request_returns_lease(pool, lookup_method(), lookup_path(failed), None);
    let after = served(pool, lookup_method(), lookup_path(failed), None).0;
    assert(pool.reuses() ==> pool.idle.contains(pool.next_id()));
    assert(after.can_lease());
}

/// The lookup service: the pool, and the steps of a request.
#[derive(Debug)]
pub struct LookupService {
    pool: Pool,
}

impl View for LookupService {
    type V = PoolState;

    closed spec fn view(&self) -> PoolState {
        self.pool@
    }
}

impl LookupService {
    /// A service whose pool may have up to `pool_size` connections out on
    /// lease.
    pub fn new(pool_size: usize) -> (service: LookupService)
        ensures
            service@ == PoolState::empty(pool_size as nat),
            service@.wf(),
    {
        LookupService { pool: Pool::new(pool_size) }
    }

    /// The service after startup, where the caller tried to open all
    /// `pool_size` connections of the pool and `opened` says how many it
    /// could open. Unless all were opened this is a `StartupFailure`, and
    /// no request is served.
    pub fn establish(pool_size: usize, opened: usize) -> (started: Result<LookupService, ServiceError>)
        ensures
            match started {
                Ok(service) => opened == pool_size && service@ == PoolState::established(
                    pool_size as nat,
                ) && service@.wf(),
                Err(error) => opened != pool_size && error == ServiceError::StartupFailure,
            },
    {
        match Pool::establish(pool_size, opened) {
            Ok(pool) => Ok(LookupService { pool }),
            Err(error) => Err(error),
        }
    }

    /// The pool of the service.
    pub fn pool(&self) -> (pool: &Pool)
        ensures
            pool@ == self@,
    {
        &self.pool
    }

    /// Begins the lookup of the client `client_id`: leases a connection and
    /// names the key to read. Where the lookup cannot begin, the answer to
    /// the request is returned in its place and the pool stays as it is.
    pub fn begin(&mut self, client_id: &str) -> (started: Result<Lookup, Response>)
        ensures
            match started {
                Ok(lookup) => begun(old(self)@, client_id@) == Ok::<Ticket, Answer>(lookup@)
                    && final(self)@ == old(self)@.lease(),
                Err(response) => begun(old(self)@, client_id@) == Err::<Ticket, Answer>(response@)
                    && final(self)@ == old(self)@,
            },
            final(self)@.wf(),
    {
        if client_id.unicode_len() == 0 {
            proof {
                use_type_invariant(&self.pool);
            }
            return Err(Response::NotFound);
        }
        match self.pool.acquire() {
            Ok(handle) => Ok(Lookup { handle, key: store_key(client_id) }),
            Err(error) => Err(Response::Failed(error)),
        }
    }

    /// Begins the answer to the request with this method and path. Where
    /// the request is a lookup and a connection can be had, the lookup
    /// begins; else the answer to the request is returned in its place and
    /// the pool stays as it is.
    pub fn accept(&mut self, method: &str, path: &str) -> (started: Result<Lookup, Response>)
        ensures
            match started {
                Ok(lookup) => accepted(old(self)@, method@, path@) == Ok::<Ticket, Answer>(lookup@)
                    && final(self)@ == old(self)@.lease(),
                Err(response) => accepted(old(self)@, method@, path@) == Err::<Ticket, Answer>(
                    response@,
                ) && final(self)@ == old(self)@,
            },
            final(self)@.wf(),
    {
        match route(method, path) {
            Route::Lookup(client_id) => self.begin(client_id.as_str()),
            Route::NotFound => {
                proof {
                    use_type_invariant(&self.pool);
                }
                Err(Response::NotFound)
            },
            Route::MethodNotAllowed => {
                proof {
                    use_type_invariant(&self.pool);
                }
                Err(Response::MethodNotAllowed)
            },
        }
    }

    /// Ends a lookup with what came of its query. The fields that the
    /// store gave are the answer, as they came, and the connection goes
    /// back to the pool; a failure is answered as `StoreUnavailable`, and
    /// the connection is given up. A lookup whose lease the pool does not
    /// hold is answered alike and leaves the pool as it is.
    pub fn complete(&mut self, lookup: Lookup, reply: StoreReply) -> (done: Completion)
        ensures
            done.response@ == answer_to(reply@),
            reply matches StoreReply::Fields(record) ==> done.response == Response::Found(record),
            done.connection == lookup@.connection,
            done.disposal == disposal_of(old(self)@, lookup@.connection, reply@),
            final(self)@ == settled(old(self)@, lookup@.connection, reply@),
            final(self)@.wf(),
    {
        let connection = lookup.handle.id();
        match reply {
            StoreReply::Fields(record) => {
                let kept = self.pool.release(lookup.handle);
                Completion {
                    response: Response::Found(record),
                    connection,
                    disposal: if kept {
                        Disposal::Keep
                    } else {
                        Disposal::Close
                    },
                }
            },
            StoreReply::Failed => {
                self.pool.discard(lookup.handle);
                Completion {
                    response: Response::Failed(ServiceError::StoreUnavailable),
                    connection,
                    disposal: Disposal::Close,
                }
            },
        }
    }
}

} // verus!
