//! Server role, per-connection offset accounting, and the replica registry.

use vstd::prelude::*;

pub mod commands;
pub mod processing;
pub mod replica;
pub mod synchronize;

verus! {

/// The role a running instance was configured with, fixed for its lifetime.
#[derive(PartialEq, Eq, Structural, Debug, Clone, Copy)]
pub enum RedisState {
    Master,
    Replica,
}

impl RedisState {
    /// The role name as it appears in `INFO` output.
    pub fn role_str(&self) -> (r: &'static str)
        ensures
            *self == RedisState::Master ==> r@ == "master"@,
            *self == RedisState::Replica ==> r@ == "slave"@,
    {
        match self {
            RedisState::Master => "master",
            RedisState::Replica => "slave",
        }
    }
}

/// Per-connection replication counters.
pub struct ConnCounters {
    /// On a replica: the raw length of every frame decoded from the master
    /// after the initial snapshot.
    pub total_bytes_processed: u64,
    /// On a master: the raw length of every write frame from this client.
    pub write_bytes_processed: u64,
    /// On a master: write frames seen on this client since its last `WAIT`.
    pub write_commands_since_wait: u64,
}

/// The counters as unbounded numbers.
pub ghost struct CountersV {
    pub total: nat,
    pub writes: nat,
    pub since: nat,
}

impl View for ConnCounters {
    type V = CountersV;

    open spec fn view(&self) -> CountersV {
        CountersV {
            total: self.total_bytes_processed as nat,
            writes: self.write_bytes_processed as nat,
            since: self.write_commands_since_wait as nat,
        }
    }
}

/// How one decoded frame of `nbytes` raw bytes moves the counters: a
/// replica accounts every frame, a master only write frames from clients.
pub open spec fn counters_step(c: CountersV, role: RedisState, is_write: bool, nbytes: nat) -> CountersV {
    if role == RedisState::Replica {
        CountersV { total: c.total + nbytes, ..c }
    } else if is_write {
        CountersV { writes: c.writes + nbytes, since: c.since + 1, ..c }
    } else {
        c
    }
}

/// The counters after a replica ingests frames of the given lengths in order.
pub open spec fn replica_ingest(c: CountersV, lens: Seq<nat>) -> CountersV
    decreases lens.len(),
{
    if lens.len() == 0 {
        c
    } else {
        counters_step(replica_ingest(c, lens.drop_last()), RedisState::Replica, false, lens.last())
    }
}

/// Sum of frame lengths.
pub open spec fn sum_lens(lens: Seq<nat>) -> nat
    decreases lens.len(),
{
    if lens.len() == 0 {
        0
    } else {
        sum_lens(lens.drop_last()) + lens.last()
    }
}

/// Offset accounting on a replica: after ingesting frames of lengths
/// `lens`, the total equals the starting total plus the sum of the frame
/// lengths, and the master-side counters are untouched.
pub proof fn lemma_offset_accounting(c: CountersV, lens: Seq<nat>)
    ensures
        replica_ingest(c, lens).total == c.total + sum_lens(lens),
        replica_ingest(c, lens).writes == c.writes,
        replica_ingest(c, lens).since == c.since,
    decreases lens.len(),
{
    if lens.len() > 0 {
        lemma_offset_accounting(c, lens.drop_last());
    }
}

impl ConnCounters {
    /// Fresh counters for a new connection.
    pub fn new() -> (r: ConnCounters)
        ensures
            r@ == (CountersV { total: 0, writes: 0, since: 0 }),
    {
        ConnCounters { total_bytes_processed: 0, write_bytes_processed: 0, write_commands_since_wait: 0 }
    }

    /// Accounts one decoded frame, before it is dispatched.
    pub fn record_frame(&mut self, role: RedisState, is_write: bool, nbytes: u64)
        requires
            old(self)@.total + nbytes <= u64::MAX,
            old(self)@.writes + nbytes <= u64::MAX,
            old(self)@.since + 1 <= u64::MAX,
        ensures
            final(self)@ == counters_step(old(self)@, role, is_write, nbytes as nat),
    {
        if role == RedisState::Replica {
            self.total_bytes_processed = self.total_bytes_processed + nbytes;
        } else if is_write {
            self.write_bytes_processed = self.write_bytes_processed + nbytes;
            self.write_commands_since_wait = self.write_commands_since_wait + 1;
        }
    }

    /// A `WAIT` has been answered on this connection.
    pub fn reset_wait(&mut self)
        ensures
            final(self)@ == (CountersV { since: 0, ..old(self)@ }),
    {
        self.write_commands_since_wait = 0;
    }
}

/// The master's registry of replica links, keyed by a stable, orderable
/// handle. Kept sorted so that `WAIT` probes replicas in a deterministic
/// order.
pub struct ReplicaRegistry {
    pub handles: Vec<i64>,
}

impl ReplicaRegistry {
    /// The invariant: handles strictly increase, so each occurs once.
    pub open spec fn wf(&self) -> bool {
        forall|i: int, j: int|
            0 <= i < j < self.handles@.len() ==> self.handles@[i] < self.handles@[j]
    }

    pub open spec fn spec_contains(&self, h: i64) -> bool {
        self.handles@.contains(h)
    }

    /// An empty registry.
    pub fn new() -> (r: ReplicaRegistry)
        ensures
            r.wf(),
            r.handles@.len() == 0,
    {
        ReplicaRegistry { handles: Vec::new() }
    }

    /// How many replica links are registered.
    pub fn len(&self) -> (r: usize)
        ensures
            r == self.handles@.len(),
    {
        self.handles.len()
    }

    /// Whether a link is a registered replica.
    pub fn contains_handle(&self, h: i64) -> (r: bool)
        requires
            self.wf(),
        ensures
            r == self.spec_contains(h),
    {
        let n = self.handles.len();
        let mut i: usize = 0;
        while i < n
            invariant
                0 <= i <= n,
                n == self.handles@.len(),
                forall|j: int| 0 <= j < i ==> self.handles@[j] != h,
            decreases n - i,
        {
            if self.handles[i] == h {
                assert(self.spec_contains(h));
                return true;
            }
            i += 1;
        }
        assert(!self.handles@.contains(h));
        false
    }

    fn lower_bound(&self, h: i64) -> (p: usize)
        ensures
            p <= self.handles@.len(),
            forall|j: int| 0 <= j < p ==> self.handles@[j] < h,
            p < self.handles@.len() ==> self.handles@[p as int] >= h,
    {
        let n = self.handles.len();
        let mut i: usize = 0;
        while i < n
            invariant
                0 <= i <= n,
                n == self.handles@.len(),
                forall|j: int| 0 <= j < i ==> self.handles@[j] < h,
            decreases n - i,
        {
            if self.handles[i] >= h {
                return i;
            }
            i += 1;
        }
        i
    }

    /// Registers a replica link once its handshake has completed. A handle
    /// already present stays put.
    pub fn register(&mut self, h: i64)
        requires
            old(self).wf(),
        ensures
            final(self).wf(),
            forall|x: i64| final(self).spec_contains(x) == (old(self).spec_contains(x) || x == h),
            old(self).spec_contains(h) ==> final(self).handles@.len() == old(self).handles@.len(),
            !old(self).spec_contains(h) ==> final(self).handles@.len() == old(self).handles@.len()
                + 1,
    {
        let ghost old_h = self.handles@;
        let n = self.handles.len();
        let i = self.lower_bound(h);
        if i < n && self.handles[i] == h {
            assert(self.spec_contains(h));
            return ;
        }
        assert(forall|j: int| 0 <= j < i ==> old_h[j] < h);
        assert(forall|j: int| i <= j < old_h.len() ==> old_h[j] > h) by {
            if (i as int) < old_h.len() {
                assert(old_h[i as int] > h);
                assert forall|j: int| i <= j < old_h.len() implies old_h[j] > h by {
                    if j > i {
                        assert(old_h[i as int] < old_h[j]);
                    }
                }
            }
        }
        self.handles.insert(i, h);
        proof {
            assert(self.handles@ == old_h.insert(i as int, h));
            assert forall|a: int, b: int|
                0 <= a < b < self.handles@.len() implies self.handles@[a] < self.handles@[b] by {
                let av: i64 = self.handles@[a];
                let bv: i64 = self.handles@[b];
                if a < i && b > i {
                    assert(av == old_h[a] && bv == old_h[b - 1]);
                } else if a == i {
                    assert(bv == old_h[b - 1]);
                } else if b == i {
                    assert(av == old_h[a]);
                } else if b < i {
                    assert(av == old_h[a] && bv == old_h[b]);
                } else {
                    assert(av == old_h[a - 1] && bv == old_h[b - 1]);
                }
            }
            assert(!old_h.contains(h)) by {
                if old_h.contains(h) {
                    let j = choose|j: int| 0 <= j < old_h.len() && old_h[j] == h;
                }
            }
            assert forall|x: i64|
                final(self).spec_contains(x) == (old(self).spec_contains(x) || x == h) by {
                if x == h {
                    assert(self.handles@[i as int] == h);
                    assert(self.spec_contains(x));
                } else {
                    if old_h.contains(x) {
                        let j = choose|j: int| 0 <= j < old_h.len() && old_h[j] == x;
                        let j2: int = if j < i { j } else { j + 1 };
                        assert(self.handles@[j2] == x);
                    }
                    if self.handles@.contains(x) {
                        let j = choose|j: int|
                            0 <= j < self.handles@.len() && self.handles@[j] == x;
                        let j0: int = if j < i { j } else { j - 1 };
                        assert(old_h[j0] == x);
                    }
                }
            }
        }
    }

    /// Drops a replica link when its connection closes.
    pub fn remove(&mut self, h: i64)
        requires
            old(self).wf(),
        ensures
            final(self).wf(),
            forall|x: i64| final(self).spec_contains(x) == (old(self).spec_contains(x) && x != h),
    {
        let ghost old_h = self.handles@;
        let n = self.handles.len();
        let mut i: usize = 0;
        while i < n
            invariant
                old(self).wf(),
                old(self).handles@ == old_h,
                0 <= i <= n,
                n == self.handles@.len(),
                self.handles@ == old_h,
                forall|j: int| 0 <= j < i ==> self.handles@[j] != h,
            decreases n - i,
        {
            if self.handles[i] == h {
                self.handles.remove(i);
                proof {
                    assert(self.handles@ == old_h.remove(i as int));
                    assert forall|a: int, b: int|
                        0 <= a < b < self.handles@.len() implies self.handles@[a]
                        < self.handles@[b] by {
                        let a0: int = if a < i { a } else { a + 1 };
                        let b0: int = if b < i { b } else { b + 1 };
                        assert(self.handles@[a] == old_h[a0] && self.handles@[b] == old_h[b0]);
                    }
                    assert forall|x: i64|
                        final(self).spec_contains(x) == (old(self).spec_contains(x) && x
                            != h) by {
                        if self.handles@.contains(x) {
                            let j = choose|j: int|
                                0 <= j < self.handles@.len() && self.handles@[j] == x;
                            let j0: int = if j < i { j } else { j + 1 };
                            assert(old_h[j0] == x);
                            if x == h {
                                assert(j0 != i);
                                assert(old_h[j0] != old_h[i as int]);
                            }
                        }
                        if old_h.contains(x) && x != h {
                            let j0 = choose|j0: int| 0 <= j0 < old_h.len() && old_h[j0] == x;
                            assert(j0 != i);
                            let j: int = if j0 < i { j0 } else { j0 - 1 };
                            assert(self.handles@[j] == x);
                        }
                    }
                }
                return ;
            }
            i += 1;
        }
        proof {
            assert(!old_h.contains(h)) by {
                if old_h.contains(h) {
                    let j = choose|j: int| 0 <= j < old_h.len() && old_h[j] == h;
                }
            }
        }
    }

    /// The registered handles, in the deterministic probing order.
    pub fn sorted_handles(&self) -> (r: Vec<i64>)
        ensures
            r@ == self.handles@,
    {
        let n = self.handles.len();
        let mut out: Vec<i64> = Vec::new();
        let mut i: usize = 0;
        while i < n
            invariant
                0 <= i <= n,
                n == self.handles@.len(),
                out@ == self.handles@.take(i as int),
            decreases n - i,
        {
            out.push(self.handles[i]);
            proof {
                assert(self.handles@.take(i as int).push(self.handles@[i as int])
                    =~= self.handles@.take(i + 1));
            }
            i += 1;
        }
        proof {
            assert(self.handles@.take(n as int) =~= self.handles@);
        }
        out
    }
}

} // verus!
