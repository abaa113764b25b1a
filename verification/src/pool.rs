//! The connection pool: which connections exist, which are out on lease, and
//! which one the next request gets.
//!
//! The pool keeps the books and opens no connection itself. A lease names a
//! connection by its id; the holder of a fresh lease opens the connection
//! under that id, and every holder hands the lease back exactly once, by
//! `release` when the connection may serve again or by `discard` when it may
//! not.

use vstd::prelude::*;

use crate::error::ServiceError;

verus! {

/// The state of a pool as a mathematical value.
pub struct PoolState {
    /// The most connections that may be out on lease at one time.
    pub capacity: nat,
    /// The open connections that wait for a lease, the one released last at the end.
    pub idle: Seq<u64>,
    /// The connections that are out on lease.
    pub leased: Set<u64>,
    /// How many connections the pool has named so far: their ids are `0..minted`.
    pub minted: nat,
}

/// One operation on a pool.
pub enum PoolOp {
    /// Lease a connection, if one can be had.
    Lease,
    /// Hand the connection with this id back for reuse.
    Release(u64),
    /// Hand the connection with this id back for good.
    Discard(u64),
}

impl PoolState {
    /// The pool of this capacity that has not named a connection yet.
    pub open spec fn empty(capacity: nat) -> PoolState {
        PoolState { capacity, idle: Seq::empty(), leased: Set::empty(), minted: 0 }
    }

    /// The pool of this capacity whose connections are all open and wait
    /// for their first lease: they are known by the ids `0..capacity`, in
    /// the order in which they were opened.
    pub open spec fn established(capacity: nat) -> PoolState {
        PoolState {
            capacity,
            idle: Seq::new(capacity, |i: int| i as u64),
            leased: Set::empty(),
            minted: capacity,
        }
    }

    /// What holds of every state that a pool reaches.
    pub open spec fn wf(self) -> bool {
        &&& self.leased.finite()
        &&& self.idle.no_duplicates()
        &&& self.idle.len() + self.leased.len() <= self.capacity
        &&& self.minted <= u64::MAX
        &&& forall|id: u64| #[trigger] self.idle.contains(id) ==> id < self.minted && !self.leased.contains(id)
        &&& forall|id: u64| #[trigger] self.leased.contains(id) ==> id < self.minted
    }

    /// Whether the next lease reuses an open connection.
    pub open spec fn reuses(self) -> bool {
        self.idle.len() > 0
    }

    /// Whether a lease can be had: an idle connection waits, or the pool is
    /// below its capacity and has an id left to name a new connection by.
    pub open spec fn can_lease(self) -> bool {
        self.reuses() || (self.leased.len() < self.capacity && self.minted < u64::MAX)
    }

    /// The id of the connection that the next lease gives out: the idle
    /// connection that was released last, else a new one.
    pub open spec fn next_id(self) -> u64 {
        if self.reuses() {
            self.idle.last()
        } else {
            self.minted as u64
        }
    }

    /// The state after a lease. Where none can be had the state stays as it is.
    pub open spec fn lease(self) -> PoolState {
        if self.reuses() {
            PoolState { idle: self.idle.drop_last(), leased: self.leased.insert(self.idle.last()), ..self }
        } else if self.can_lease() {
            PoolState { leased: self.leased.insert(self.minted as u64), minted: self.minted + 1, ..self }
        } else {
            self
        }
    }

    /// The state after the connection `id` came back for reuse. An id that
    /// is not out on lease changes nothing.
    pub open spec fn release(self, id: u64) -> PoolState {
        if self.leased.contains(id) {
            PoolState { idle: self.idle.push(id), leased: self.leased.remove(id), ..self }
        } else {
            self
        }
    }

    /// The state after the connection `id` came back for good. An id that is
    /// not out on lease changes nothing.
    pub open spec fn discard(self, id: u64) -> PoolState {
        if self.leased.contains(id) {
            PoolState { leased: self.leased.remove(id), ..self }
        } else {
            self
        }
    }

    /// Whether the connection `id` once existed and is gone: the pool named
    /// it, and it neither waits nor is out on lease.
    pub open spec fn retired(self, id: u64) -> bool {
        id < self.minted && !self.idle.contains(id) && !self.leased.contains(id)
    }

    /// The state after one operation.
    pub open spec fn step(self, op: PoolOp) -> PoolState {
        match op {
            PoolOp::Lease => self.lease(),
            PoolOp::Release(id) => self.release(id),
            PoolOp::Discard(id) => self.discard(id),
        }
    }

    /// The state after a sequence of operations, the first one first.
    pub open spec fn run(self, ops: Seq<PoolOp>) -> PoolState
        decreases ops.len(),
    {
        if ops.len() == 0 {
            self
        } else {
            self.run(ops.drop_last()).step(ops.last())
        }
    }

    /// Every operation keeps the books in order.
    pub proof fn lemma_step_wf(self, op: PoolOp)
        requires
            self.wf(),
        ensures
            self.step(op).wf(),
    {
        match op {
            PoolOp::Lease => {
                if self.reuses() {
                    lemma_drop_last_distinct(self.idle);
                    assert(self.idle.contains(self.idle.last()));
                }
            },
            PoolOp::Release(id) => {
                if self.leased.contains(id) {
                    let grown = self.idle.push(id);
                    assert forall|other: u64| #[trigger] grown.contains(other) implies other == id
                        || self.idle.contains(other) by {
                        let i = choose|i: int| 0 <= i < grown.len() && grown[i] == other;
                        assert(i < self.idle.len() ==> self.idle[i] == other);
                    }
                    assert(grown.no_duplicates()) by {
                        assert forall|i: int, j: int| 0 <= i < grown.len() && 0 <= j < grown.len() && i != j
                            implies grown[i] != grown[j] by {
                            if i < self.idle.len() {
                                assert(self.idle.contains(grown[i]));
                            }
                            if j < self.idle.len() {
                                assert(self.idle.contains(grown[j]));
                            }
                        }
                    }
                }
            },
            PoolOp::Discard(id) => {},
        }
    }

    /// Whatever is done to a pool, and in whatever order, its books stay in
    /// order. In particular the connections out on lease never outnumber
    /// its capacity, which no operation changes.
    pub proof fn lemma_run_wf(self, ops: Seq<PoolOp>)
        requires
            self.wf(),
        ensures
            self.run(ops).wf(),
            self.run(ops).capacity == self.capacity,
            self.run(ops).leased.len() <= self.capacity,
        decreases ops.len(),
    {
        if ops.len() > 0 {
            self.lemma_run_wf(ops.drop_last());
            self.run(ops.drop_last()).lemma_step_wf(ops.last());
        }
    }

    /// A connection that is released after its lease serves again: the
    /// connections out on lease are those from before the lease, and the
    /// next lease can be had and is on that same connection, not on a fresh
    /// one.
    pub proof fn lemma_release_restores(self)
        requires
            self.wf(),
            self.can_lease(),
        ensures
            self.lease().release(self.next_id()).leased == self.leased,
            self.lease().release(self.next_id()).can_lease(),
            self.lease().release(self.next_id()).reuses(),
            self.lease().release(self.next_id()).next_id() == self.next_id(),
    {
        let id = self.next_id();
        assert(!self.leased.contains(id)) by {
            if self.reuses() {
                assert(self.idle.contains(id));
            }
        }
    }

    /// A connection that is discarded after its lease is gone, and the room
    /// it took is free again: where the pool has an id left to name a new
    /// connection by, the next lease can be had.
    pub proof fn lemma_discard_frees(self, id: u64)
        requires
            self.wf(),
            self.leased.contains(id),
        ensures
            self.discard(id).retired(id),
            self.discard(id).leased == self.leased.remove(id),
            self.discard(id).leased.len() < self.capacity,
            self.minted < u64::MAX ==> self.discard(id).can_lease(),
    {
        assert(!self.idle.contains(id));
    }

    /// A connection that is gone stays gone: no operation brings it back,
    /// and no lease is ever on it again.
    pub proof fn lemma_retired_stays(self, id: u64, ops: Seq<PoolOp>)
        requires
            self.wf(),
            self.retired(id),
        ensures
            self.run(ops).retired(id),
            self.run(ops).can_lease() ==> self.run(ops).next_id() != id,
        decreases ops.len(),
    {
        if ops.len() > 0 {
            self.lemma_retired_stays(id, ops.drop_last());
            self.lemma_run_wf(ops.drop_last());
            self.run(ops.drop_last()).lemma_step_retired(id, ops.last());
        }
        let end = self.run(ops);
        assert(end.reuses() ==> end.idle.contains(end.idle.last()));
    }

    /// One operation leaves a connection that is gone as it is.
    proof fn lemma_step_retired(self, id: u64, op: PoolOp)
        requires
            self.wf(),
            self.retired(id),
        ensures
            self.step(op).retired(id),
    {
        match op {
            PoolOp::Lease => {
                if self.reuses() {
                    lemma_drop_last_distinct(self.idle);
                }
            },
            PoolOp::Release(other) => {
                let grown = self.idle.push(other);
                if self.leased.contains(other) && grown.contains(id) {
                    let i = choose|i: int| 0 <= i < grown.len() && grown[i] == id;
                    assert(i < self.idle.len() ==> self.idle[i] == id);
                }
            },
            PoolOp::Discard(other) => {},
        }
    }

    /// The state after `count` leases in a row.
    pub open spec fn lease_many(self, count: nat) -> PoolState
        decreases count,
    {
        if count == 0 {
            self
        } else {
            self.lease_many((count - 1) as nat).lease()
        }
    }

    /// Requests contend for room in the pool and for nothing else: as long
    /// as the pool has room for all of them, and ids to name new connections
    /// by, each of `count` leases in a row can be had, and each is on a
    /// connection of its own.
    pub proof fn lemma_room_for_all(self, count: nat, earlier: nat)
        requires
            self.wf(),
            self.leased.len() + count <= self.capacity,
            self.minted + count <= u64::MAX,
            earlier < count,
        ensures
            self.lease_many(earlier).can_lease(),
            self.lease_many(count).leased.len() == self.leased.len() + count,
            self.lease_many(count).leased.contains(self.lease_many(earlier).next_id()),
            !self.lease_many(earlier).leased.contains(self.lease_many(earlier).next_id()),
    {
        self.lemma_lease_many(earlier);
        let at = self.lease_many(earlier);
        let id = at.next_id();
        if at.reuses() {
            assert(at.idle.contains(id));
        }
        self.lemma_lease_many(count);
        self.lemma_lease_many_grows(earlier + 1, count);
    }

    /// What `count` leases in a row leave behind, where the pool has room.
    proof fn lemma_lease_many(self, count: nat)
        requires
            self.wf(),
            self.leased.len() + count <= self.capacity,
            self.minted + count <= u64::MAX,
        ensures
            self.lease_many(count).wf(),
            self.lease_many(count).capacity == self.capacity,
            self.lease_many(count).leased.len() == self.leased.len() + count,
            self.lease_many(count).minted <= self.minted + count,
            self.lease_many(count).idle.len() + self.lease_many(count).leased.len() == self.idle.len()
                + self.leased.len() || self.lease_many(count).idle.len() == 0,
        decreases count,
    {
        if count > 0 {
            let before = self.lease_many((count - 1) as nat);
            self.lemma_lease_many((count - 1) as nat);
            before.lemma_step_wf(PoolOp::Lease);
            if before.reuses() {
                assert(before.idle.contains(before.idle.last()));
            }
        }
    }

    /// Leases only add to the connections out on lease.
    proof fn lemma_lease_many_grows(self, fewer: nat, more: nat)
        requires
            fewer <= more,
        ensures
            self.lease_many(fewer).leased.subset_of(self.lease_many(more).leased),
        decreases more,
    {
        if fewer < more {
            self.lemma_lease_many_grows(fewer, (more - 1) as nat);
        }
    }
}

/// A lease on one connection: the right to use it, alone, until the lease is
/// handed back to the pool. A lease cannot be copied, and handing it back
/// uses it up.
#[must_use]
#[derive(Debug)]
pub struct ConnectionHandle {
    id: u64,
    fresh: bool,
}

impl ConnectionHandle {
    /// The id of the leased connection.
    pub closed spec fn conn(self) -> u64 {
        self.id
    }

    /// Whether the connection is yet to be opened.
    pub closed spec fn fresh(self) -> bool {
        self.fresh
    }

    /// The id by which the pool knows the leased connection.
    pub fn id(&self) -> (id: u64)
        ensures
            id == self.conn(),
    {
        self.id
    }

    /// A fresh lease names a connection that does not exist yet: its holder
    /// opens one before use. Any other lease is on a connection that is
    /// open.
    pub fn is_fresh(&self) -> (fresh: bool)
        ensures
            fresh == self.fresh(),
    {
        self.fresh
    }
}

/// The books of a connection pool.
#[derive(Debug)]
pub struct Pool {
    capacity: usize,
    idle: Vec<u64>,
    leased: Vec<u64>,
    minted: u64,
}

impl View for Pool {
    type V = PoolState;

    closed spec fn view(&self) -> PoolState {
        PoolState {
            capacity: self.capacity as nat,
            idle: self.idle@,
            leased: self.leased@.to_set(),
            minted: self.minted as nat,
        }
    }
}

impl Pool {
    /// Whether the pool lists each connection out on lease once.
    pub closed spec fn listed_once(self) -> bool {
        self.leased@.no_duplicates()
    }

    /// What holds of every pool: its books are in order.
    #[verifier::type_invariant]
    pub open spec fn inv(self) -> bool {
        self.listed_once() && self@.wf()
    }

    /// A pool that may have up to `capacity` connections out on lease, and
    /// has none yet.
    pub fn new(capacity: usize) -> (pool: Pool)
        ensures
            pool@ == PoolState::empty(capacity as nat),
            pool@.wf(),
    {
        assert(Seq::<u64>::empty().to_set() =~= Set::<u64>::empty());
        Pool { capacity, idle: Vec::new(), leased: Vec::new(), minted: 0 }
    }

    /// The pool after startup, where the caller tried to open all of its
    /// `capacity` connections and `opened` says how many it could open. A
    /// pool does not start short of connections: unless all were opened,
    /// this is a `StartupFailure`. The connections of the pool that starts
    /// are known by the ids `0..capacity`, in the order in which they were
    /// opened.
    pub fn establish(capacity: usize, opened: usize) -> (started: Result<Pool, ServiceError>)
        ensures
            match started {
                Ok(pool) => opened == capacity && pool@ == PoolState::established(capacity as nat)
                    && pool@.wf(),
                Err(error) => opened != capacity && error == ServiceError::StartupFailure,
            },
    {
        if opened != capacity {
            return Err(ServiceError::StartupFailure);
        }
        let mut idle: Vec<u64> = Vec::new();
        let mut next: usize = 0;
        while next < capacity
            invariant
                next <= capacity,
                idle@ == Seq::new(next as nat, |i: int| i as u64),
            decreases capacity - next,
        {
            idle.push(next as u64);
            next += 1;
        }
        assert(Seq::<u64>::empty().to_set() =~= Set::<u64>::empty());
        assert forall|id: u64| #[trigger] idle@.contains(id) implies id < capacity by {
            let i = choose|i: int| 0 <= i < idle@.len() && idle@[i] == id;
            assert(idle@[i] == i);
        }
        Ok(Pool { capacity, idle, leased: Vec::new(), minted: capacity as u64 })
    }

    /// The most connections that may be out on lease at one time.
    pub fn capacity(&self) -> (capacity: usize)
        ensures
            capacity == self@.capacity,
            self@.wf(),
    {
        proof {
            use_type_invariant(self);
        }
        self.capacity
    }

    /// How many connections are out on lease.
    pub fn leased_count(&self) -> (count: usize)
        ensures
            count == self@.leased.len(),
            count <= self@.capacity,
            self@.wf(),
    {
        proof {
            use_type_invariant(self);
            self.leased@.unique_seq_to_set();
        }
        self.leased.len()
    }

    /// How many open connections wait for a lease.
    pub fn idle_count(&self) -> (count: usize)
        ensures
            count == self@.idle.len(),
            self@.wf(),
    {
        proof {
            use_type_invariant(self);
        }
        self.idle.len()
    }

    /// Whether the connection `id` is out on lease.
    pub fn is_leased(&self, id: u64) -> (leased: bool)
        ensures
            leased == self@.leased.contains(id),
    {
        position(&self.leased, id).is_some()
    }

    /// Whether the connection `id` is open and waits for a lease.
    pub fn is_idle(&self, id: u64) -> (idle: bool)
        ensures
            idle == self@.idle.contains(id),
    {
        position(&self.idle, id).is_some()
    }

    /// Leases a connection: the idle one that was released last or, where
    /// none is idle and the pool is below its capacity, a fresh one. Fails
    /// with `PoolExhausted` where no lease can be had, and then changes
    /// nothing.
    pub fn acquire(&mut self) -> (lease: Result<ConnectionHandle, ServiceError>)
        ensures
            final(self)@ == old(self)@.lease(),
            final(self)@.wf(),
            match lease {
                Ok(handle) => old(self)@.can_lease() && handle.conn() == old(self)@.next_id()
                    && handle.fresh() == !old(self)@.reuses(),
                Err(error) => !old(self)@.can_lease() && error == ServiceError::PoolExhausted,
            },
    {
        proof {
            use_type_invariant(&*self);
            self.leased@.unique_seq_to_set();
        }
        let ghost before = self@;
        let mut idle: Vec<u64> = Vec::new();
        std::mem::swap(&mut idle, &mut self.idle);
        let mut leased: Vec<u64> = Vec::new();
        assert(Seq::<u64>::empty().to_set() =~= Set::<u64>::empty());
        std::mem::swap(&mut leased, &mut self.leased);
        let lease = if idle.len() > 0 {
            let id = idle.pop().unwrap();
            proof {
                assert(before.idle.contains(id));
                lemma_push_fresh(leased@, id);
                lemma_drop_last_distinct(before.idle);
            }
            leased.push(id);
            Ok(ConnectionHandle { id, fresh: false })
        } else if leased.len() < self.capacity && self.minted < u64::MAX {
            let id = self.minted;
            proof {
                lemma_push_fresh(leased@, id);
            }
            leased.push(id);
            self.minted = id + 1;
            Ok(ConnectionHandle { id, fresh: true })
        } else {
            Err(ServiceError::PoolExhausted)
        };
        self.leased = leased;
        self.idle = idle;
        lease
    }

    /// Takes back a lease whose connection may serve again: the connection
    /// becomes the first in line for the next lease. Answers whether the
    /// lease was one of this pool's; a lease that was not changes nothing.
    pub fn release(&mut self, handle: ConnectionHandle) -> (returned: bool)
        ensures
            returned == old(self)@.leased.contains(handle.conn()),
            final(self)@ == old(self)@.release(handle.conn()),
            final(self)@.wf(),
    {
        proof {
            use_type_invariant(&*self);
        }
        let ghost before = self@;
        let id = handle.id;
        let mut idle: Vec<u64> = Vec::new();
        std::mem::swap(&mut idle, &mut self.idle);
        let mut leased: Vec<u64> = Vec::new();
        assert(Seq::<u64>::empty().to_set() =~= Set::<u64>::empty());
        std::mem::swap(&mut leased, &mut self.leased);
        let returned = match position(&leased, id) {
            Some(at) => {
                proof {
                    lemma_remove_at(leased@, at as int);
                    before.lemma_step_wf(PoolOp::Release(id));
                }
                leased.remove(at);
                idle.push(id);
                true
            },
            None => false,
        };
        self.leased = leased;
        self.idle = idle;
        returned
    }

    /// Takes back a lease whose connection must not serve again: the pool
    /// forgets the connection, and its id is never given out again. Answers
    /// whether the lease was one of this pool's; a lease that was not
    /// changes nothing.
    pub fn discard(&mut self, handle: ConnectionHandle) -> (dropped: bool)
        ensures
            dropped == old(self)@.leased.contains(handle.conn()),
            final(self)@ == old(self)@.discard(handle.conn()),
            final(self)@.wf(),
    {
        proof {
            use_type_invariant(&*self);
        }
        let id = handle.id;
        let mut leased: Vec<u64> = Vec::new();
        assert(Seq::<u64>::empty().to_set() =~= Set::<u64>::empty());
        std::mem::swap(&mut leased, &mut self.leased);
        let dropped = match position(&leased, id) {
            Some(at) => {
                proof {
                    lemma_remove_at(leased@, at as int);
                }
                leased.remove(at);
                true
            },
            None => false,
        };
        self.leased = leased;
        dropped
    }
}

/// Where `id` stands in `ids`, if it does.
fn position(ids: &Vec<u64>, id: u64) -> (found: Option<usize>)
    ensures
        match found {
            Some(at) => at < ids.len() && ids[at as int] == id,
            None => !ids@.contains(id),
        },
{
    let mut at: usize = 0;
    while at < ids.len()
        invariant
            at <= ids.len(),
            forall|i: int| 0 <= i < at ==> ids[i] != id,
        decreases ids.len() - at,
    {
        if ids[at] == id {
            return Some(at);
        }
        at += 1;
    }
    None
}

/// Taking one value out of a duplicate-free sequence takes just that value
/// out of its set.
proof fn lemma_remove_at(s: Seq<u64>, at: int)
    requires
        s.no_duplicates(),
        0 <= at < s.len(),
    ensures
        s.remove(at).no_duplicates(),
        s.remove(at).to_set() == s.to_set().remove(s[at]),
{
    let rest = s.remove(at);
    assert forall|i: int, j: int| 0 <= i < rest.len() && 0 <= j < rest.len() && i != j implies rest[i]
        != rest[j] by {
        let a = if i < at { i } else { i + 1 };
        let b = if j < at { j } else { j + 1 };
        assert(rest[i] == s[a] && rest[j] == s[b]);
    }
    assert forall|other: u64| rest.to_set().contains(other) <==> s.to_set().remove(s[at]).contains(
        other,
    ) by {
        if rest.contains(other) {
            let i = choose|i: int| 0 <= i < rest.len() && rest[i] == other;
            let a = if i < at { i } else { i + 1 };
            assert(s[a] == other);
        }
        if s.contains(other) && other != s[at] {
            let a = choose|a: int| 0 <= a < s.len() && s[a] == other;
            let i = if a < at { a } else { a - 1 };
            assert(rest[i] == other);
        }
    }
}

/// Pushing a value that a duplicate-free sequence lacks keeps it free of
/// duplicates and adds the value to its set.
proof fn lemma_push_fresh(s: Seq<u64>, id: u64)
    requires
        s.no_duplicates(),
        !s.to_set().contains(id),
    ensures
        s.push(id).no_duplicates(),
        s.push(id).to_set() == s.to_set().insert(id),
{
    let grown = s.push(id);
    assert forall|i: int, j: int| 0 <= i < grown.len() && 0 <= j < grown.len() && i != j implies grown[i]
        != grown[j] by {
        assert(i < s.len() ==> s.contains(grown[i]));
        assert(j < s.len() ==> s.contains(grown[j]));
    }
    assert forall|other: u64| grown.to_set().contains(other) <==> s.to_set().insert(id).contains(
        other,
    ) by {
        if grown.contains(other) {
            let i = choose|i: int| 0 <= i < grown.len() && grown[i] == other;
            assert(i < s.len() ==> s[i] == other);
        }
        if s.contains(other) {
            let i = choose|i: int| 0 <= i < s.len() && s[i] == other;
            assert(grown[i] == other);
        }
        assert(grown[s.len() as int] == id);
    }
}

/// In a duplicate-free sequence the last value occurs nowhere before the end.
proof fn lemma_drop_last_distinct(s: Seq<u64>)
    requires
        s.no_duplicates(),
        s.len() > 0,
    ensures
        s.drop_last().no_duplicates(),
        !s.drop_last().contains(s.last()),
        forall|id: u64| #[trigger] s.drop_last().contains(id) ==> s.contains(id),
{
    let rest = s.drop_last();
    assert forall|id: u64| #[trigger] rest.contains(id) implies s.contains(id) && id != s.last() by {
        let i = choose|i: int| 0 <= i < rest.len() && rest[i] == id;
        assert(s[i] == id);
    }
}

} // verus!
