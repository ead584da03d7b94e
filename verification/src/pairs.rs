//! Live relay pairs and the stuck-pair sweeper ("guillotine"): a pair whose
//! last progress is older than the idle threshold is closed and dropped.
//! Times are milliseconds on a monotonic clock supplied by the caller.

use vstd::prelude::*;
use crate::caps::PairTicket;
use crate::proto::{PairId, ServerId};

verus! {

#[verifier::external_type_specification]
#[verifier::external_body]
pub struct ExInstant(std::time::Instant);

/// `Instant::now()`: a fresh progress marker from the monotonic clock.
/// Nothing is claimed of it.
#[verifier::external_body]
pub fn now_marker() -> (r: std::time::Instant) {
    std::time::Instant::now()
}

/// The handles of a pair's two legs, as the pair-opening path hands them on.
pub struct PairEnds<T> {
    pub to_server: T,
    pub to_client: T,
}

/// A live pair and the handles of its two legs.
pub struct Pair<T> {
    pub pair_id: PairId,
    pub server_id: ServerId,
    pub created_at_ms: u64,
    pub last_progress_ms: u64,
    pub ticket: PairTicket,
    pub server_tx: T,
    pub client_tx: T,
}

impl<T> Pair<T> {
    pub open spec fn progress(&self) -> u64 {
        self.last_progress_ms
    }

    /// A pair created at `now_ms`, which counts as progress.
    pub fn new(pair_id: PairId, server_id: ServerId, ticket: PairTicket, server_tx: T, client_tx: T, now_ms: u64) -> (r: Self)
        ensures
            r.pair_id == pair_id,
            r.server_id == server_id,
            r.created_at_ms == now_ms,
            r.progress() == now_ms,
            r.server_tx == server_tx,
            r.client_tx == client_tx,
            r.ticket == ticket,
    {
        Pair {
            pair_id,
            server_id,
            created_at_ms: now_ms,
            last_progress_ms: now_ms,
            ticket,
            server_tx,
            client_tx,
        }
    }

    /// Stamps progress at `now_ms`.
    pub fn touch(&mut self, now_ms: u64)
        ensures
            final(self).progress() == now_ms,
            final(self).pair_id == old(self).pair_id,
            final(self).server_id == old(self).server_id,
            final(self).created_at_ms == old(self).created_at_ms,
    {
        self.last_progress_ms = now_ms;
    }

    pub fn last_progress(&self) -> (r: u64)
        ensures
            r == self.progress(),
    {
        self.last_progress_ms
    }

    /// The pair's capacity ticket (rate and queue budgets).
    pub fn ticket(&mut self) -> (r: &mut PairTicket)
        ensures
            *r == old(self).ticket,
            final(self).ticket == *final(r),
            final(self).pair_id == old(self).pair_id,
            final(self).server_id == old(self).server_id,
            final(self).created_at_ms == old(self).created_at_ms,
            final(self).progress() == old(self).progress(),
    {
        &mut self.ticket
    }
}

/// A pair is stuck when more than `threshold_ms` have passed since its last
/// progress (a progress stamp in the future counts as no time passed).
pub open spec fn is_stuck(progress: u64, now_ms: u64, threshold_ms: u64) -> bool {
    now_ms > progress && now_ms - progress > threshold_ms
}

pub fn stuck(progress: u64, now_ms: u64, threshold_ms: u64) -> (r: bool)
    ensures
        r == is_stuck(progress, now_ms, threshold_ms),
{
    now_ms > progress && now_ms - progress > threshold_ms
}

/// Seconds between sweeps: a quarter of the idle threshold, at least one.
pub open spec fn spec_sweep_interval(idle_seconds: u64) -> u64 {
    if idle_seconds / 4 >= 1 { idle_seconds / 4 } else { 1 }
}

pub fn sweep_interval_secs(idle_seconds: u64) -> (r: u64)
    ensures
        r == spec_sweep_interval(idle_seconds),
{
    let q = idle_seconds / 4;
    if q >= 1 { q } else { 1 }
}

/// Law: a sweep leaves nothing for a second sweep at the same time to do:
/// the pairs that remain after a sweep at `now_ms` are not stuck, so the
/// pairs a second sweep returns (each one a remaining pair, with its
/// progress) cannot be stuck either; there are none.
pub proof fn lemma_second_sweep_removes_nothing<T>(
    after_first: PairManager<T>,
    second: Seq<Pair<T>>,
    threshold_ms: u64,
    now_ms: u64,
)
    requires
        forall|i: int|
            0 <= i < after_first.ids().len() ==> !is_stuck(after_first.progress()[i], now_ms, threshold_ms),
        after_first.all_taken_from(second),
        forall|i: int| 0 <= i < second.len() ==> is_stuck(second[i].progress(), now_ms, threshold_ms),
    ensures
        second.len() == 0,
{
    after_first.lemma_parallel();
    if second.len() > 0 {
        let p = second[0];
        let j = after_first.ids().index_of(p.pair_id);
        assert(after_first.ids().contains(p.pair_id));
        assert(0 <= j < after_first.ids().len());
        assert(after_first.progress()[j] == p.progress());
    }
}

/// Which pairs [`PairManager::take_where`] removes.
#[derive(Clone, Copy, Debug, PartialEq, Eq, Structural)]
pub enum Criterion {
    /// The pairs stuck at `now_ms` for longer than `threshold_ms`.
    Stuck { threshold_ms: u64, now_ms: u64 },
    /// The pairs routed to this server.
    OfServer(ServerId),
}

pub open spec fn selects(c: Criterion, progress: u64, server: ServerId) -> bool {
    match c {
        Criterion::Stuck { threshold_ms, now_ms } => is_stuck(progress, now_ms, threshold_ms),
        Criterion::OfServer(s) => server == s,
    }
}

fn selected<T>(c: &Criterion, p: &Pair<T>) -> (r: bool)
    ensures
        r == selects(*c, p.last_progress_ms, p.server_id),
{
    match c {
        Criterion::Stuck { threshold_ms, now_ms } => stuck(p.last_progress_ms, *now_ms, *threshold_ms),
        Criterion::OfServer(s) => p.server_id == *s,
    }
}

pub struct PairManager<T> {
    pairs: Vec<Pair<T>>,
}

impl<T> PairManager<T> {
    /// Ids of the live pairs.
    pub closed spec fn ids(&self) -> Seq<PairId> {
        self.pairs@.map_values(|p: Pair<T>| p.pair_id)
    }

    /// Server of each live pair, in the same order.
    pub closed spec fn servers(&self) -> Seq<ServerId> {
        self.pairs@.map_values(|p: Pair<T>| p.server_id)
    }

    /// Last progress of each live pair, in the same order.
    pub closed spec fn progress(&self) -> Seq<u64> {
        self.pairs@.map_values(|p: Pair<T>| p.last_progress_ms)
    }

    /// The live pairs themselves, in the same order as [`PairManager::ids`].
    pub closed spec fn entries(&self) -> Seq<Pair<T>> {
        self.pairs@
    }

    /// `p` is one of the live pairs (with unique ids, the one under `p.pair_id`).
    pub open spec fn holds(&self, p: Pair<T>) -> bool {
        exists|i: int| 0 <= i < self.entries().len() && self.entries()[i] == p
    }

    /// With unique ids, two live pairs with the same id are the same pair.
    pub proof fn lemma_holds_unique(&self, p: Pair<T>, q: Pair<T>)
        requires
            self.wf(),
            self.holds(p),
            self.holds(q),
            p.pair_id == q.pair_id,
        ensures
            p == q,
    {
        let i = choose|i: int| 0 <= i < self.entries().len() && self.entries()[i] == p;
        let j = choose|j: int| 0 <= j < self.entries().len() && self.entries()[j] == q;
        if i != j {
            assert(self.pairs@[i].pair_id != self.pairs@[j].pair_id);
        }
    }

    /// Every pair left in `self` was in `before`, with the same server and
    /// progress.
    pub open spec fn survivors_unchanged(&self, before: Self) -> bool {
        forall|i: int| #![trigger self.ids()[i]]
            0 <= i < self.ids().len() ==> {
                let j = before.ids().index_of(self.ids()[i]);
                &&& before.ids().contains(self.ids()[i])
                &&& before.progress()[j] == self.progress()[i]
                &&& before.servers()[j] == self.servers()[i]
            }
    }

    /// Every pair in `r` was in `self`, with the same server and progress.
    pub open spec fn all_taken_from(&self, r: Seq<Pair<T>>) -> bool {
        forall|i: int| #![trigger r[i]]
            0 <= i < r.len() ==> {
                let j = self.ids().index_of(r[i].pair_id);
                &&& self.ids().contains(r[i].pair_id)
                &&& self.progress()[j] == r[i].progress()
                &&& self.servers()[j] == r[i].server_id
            }
    }

    /// Pair ids are unique.
    pub closed spec fn wf(&self) -> bool {
        forall|i: int, j: int|
            0 <= i < self.pairs@.len() && 0 <= j < self.pairs@.len() && i != j
                ==> self.pairs@[i].pair_id != self.pairs@[j].pair_id
    }

    pub fn new() -> (r: Self)
        ensures
            r.wf(),
            r.ids() == Seq::<PairId>::empty(),
    {
        let r = PairManager { pairs: Vec::new() };
        assert(r.ids() =~= Seq::<PairId>::empty());
        r
    }

    pub fn len(&self) -> (r: usize)
        ensures
            r == self.ids().len(),
    {
        self.pairs.len()
    }

    fn position(&self, pid: &PairId) -> (r: Option<usize>)
        ensures
            r is None ==> !self.ids().contains(*pid),
            r is Some ==> r->0 < self.ids().len() && self.ids()[r->0 as int] == *pid,
    {
        let mut i: usize = 0;
        while i < self.pairs.len()
            invariant
                i <= self.pairs@.len(),
                forall|k: int| 0 <= k < i ==> self.ids()[k] != *pid,
            decreases self.pairs@.len() - i,
        {
            if self.pairs[i].pair_id == *pid {
                return Some(i);
            }
            i = i + 1;
        }
        proof {
            if self.ids().contains(*pid) {
                let k = choose|k: int| 0 <= k < self.ids().len() && self.ids()[k] == *pid;
            }
        }
        None
    }

    /// Adds a pair, replacing (and returning) a pair with the same id.
    pub fn insert(&mut self, pair: Pair<T>) -> (r: Option<Pair<T>>)
        requires
            old(self).wf(),
        ensures
            final(self).wf(),
            final(self).ids().contains(pair.pair_id),
            r is Some <==> old(self).ids().contains(pair.pair_id),
            r is Some ==> r->0.pair_id == pair.pair_id,
            r is Some ==> old(self).holds(r->0),
            final(self).ids().to_set() == old(self).ids().to_set().insert(pair.pair_id),
            final(self).holds(pair),
            forall|p: Pair<T>| #[trigger] old(self).holds(p) && p.pair_id != pair.pair_id ==> final(self).holds(p),
            forall|p: Pair<T>| #[trigger] final(self).holds(p) ==> p == pair || (old(self).holds(p) && p.pair_id
                != pair.pair_id),
    {
        let pid = pair.pair_id;
        let ghost stored = pair;
        let previous = self.remove(&pid);
        let ghost mid = self.ids();
        let ghost prev = self.pairs@;
        let ghost mid_mgr = *self;
        self.pairs.push(pair);
        proof {
            assert(self.pairs@ == prev.push(stored));
            assert(self.entries()[prev.len() as int] == stored);
            assert forall|p: Pair<T>| #[trigger] old(self).holds(p) && p.pair_id != pid implies self.holds(p) by {
                assert(mid_mgr.holds(p));
                let k = choose|k: int| 0 <= k < prev.len() && prev[k] == p;
                assert(self.entries()[k] == p);
            }
            assert forall|p: Pair<T>| #[trigger] self.holds(p) implies p == stored || (old(self).holds(p)
                && p.pair_id != pid) by {
                let k = choose|k: int| 0 <= k < self.entries().len() && self.entries()[k] == p;
                if k < prev.len() {
                    assert(prev[k] == p);
                    assert(mid_mgr.entries()[k] == p);
                    assert(mid_mgr.holds(p));
                }
            }
            assert(self.ids() =~= mid.push(pid));
            assert(self.ids()[mid.len() as int] == pid);
            assert forall|i: int, j: int|
                0 <= i < self.pairs@.len() && 0 <= j < self.pairs@.len() && i != j implies self.pairs@[i].pair_id
                != self.pairs@[j].pair_id by {
                if i < prev.len() && j < prev.len() {
                    assert(prev[i] == self.pairs@[i] && prev[j] == self.pairs@[j]);
                } else if i < prev.len() {
                    assert(mid[i] == self.pairs@[i].pair_id);
                } else {
                    assert(mid[j] == self.pairs@[j].pair_id);
                }
            }
            assert forall|x: PairId| self.ids().to_set().contains(x) == old(self).ids().to_set().insert(pid).contains(x) by {
                assert(self.ids().to_set().contains(x) == self.ids().contains(x));
                assert(old(self).ids().to_set().contains(x) == old(self).ids().contains(x));
                assert(mid.to_set().contains(x) == mid.contains(x));
                if self.ids().contains(x) {
                    let k = choose|k: int| 0 <= k < self.ids().len() && self.ids()[k] == x;
                    if k < mid.len() {
                        assert(mid[k] == x);
                        assert(mid.contains(x));
                    }
                }
                if old(self).ids().contains(x) && x != pid {
                    assert(mid.to_set().contains(x));
                    assert(mid.contains(x));
                    let k = choose|k: int| 0 <= k < mid.len() && mid[k] == x;
                    assert(self.ids()[k] == x);
                }
            }
            assert(self.ids().to_set() =~= old(self).ids().to_set().insert(pid));
        }
        previous
    }

    /// The pair with id `pid`.
    pub fn get(&self, pid: &PairId) -> (r: Option<&Pair<T>>)
        ensures
            r is Some <==> self.ids().contains(*pid),
            r is Some ==> r->0.pair_id == *pid,
            r is Some ==> exists|i: int|
                0 <= i < self.ids().len() && self.ids()[i] == *pid && #[trigger] self.servers()[i] == r->0.server_id
                    && self.progress()[i] == r->0.progress(),
    {
        match self.position(pid) {
            Some(i) => {
                assert(self.servers()[i as int] == self.pairs@[i as int].server_id);
                Some(&self.pairs[i])
            },
            None => None,
        }
    }

    /// Stamps progress on the pair with id `pid`; false when there is none.
    pub fn touch(&mut self, pid: &PairId, now_ms: u64) -> (r: bool)
        requires
            old(self).wf(),
        ensures
            final(self).wf(),
            r == old(self).ids().contains(*pid),
            final(self).ids() == old(self).ids(),
            final(self).servers() == old(self).servers(),
            forall|i: int|
                0 <= i < final(self).ids().len() ==> final(self).progress()[i] == (if final(self).ids()[i] == *pid {
                    now_ms
                } else {
                    old(self).progress()[i]
                }),
    {
        match self.position(pid) {
            Some(i) => {
                let ghost prev = self.pairs@;
                let mut pair = self.pairs.remove(i);
                pair.touch(now_ms);
                self.pairs.insert(i, pair);
                proof {
                    assert forall|k: int| 0 <= k < self.pairs@.len() && k != i implies self.pairs@[k] == prev[k] by {}
                    assert(self.ids() =~= old(self).ids());
                    assert(self.servers() =~= old(self).servers());
                    assert forall|a: int, b: int|
                        0 <= a < self.pairs@.len() && 0 <= b < self.pairs@.len() && a != b implies self.pairs@[a].pair_id
                        != self.pairs@[b].pair_id by {
                        assert(self.ids()[a] == old(self).ids()[a]);
                        assert(self.ids()[b] == old(self).ids()[b]);
                    }
                    assert forall|k: int| 0 <= k < self.ids().len() implies self.progress()[k] == (if self.ids()[k] == *pid {
                        now_ms
                    } else {
                        old(self).progress()[k]
                    }) by {
                        if k != i && self.ids()[k] == *pid {
                            assert(prev[k].pair_id == prev[i as int].pair_id);
                        }
                    }
                }
                true
            },
            None => false,
        }
    }

    /// Removes and returns the pair with id `pid`.
    pub fn remove(&mut self, pid: &PairId) -> (r: Option<Pair<T>>)
        requires
            old(self).wf(),
        ensures
            final(self).wf(),
            r is Some <==> old(self).ids().contains(*pid),
            r is Some ==> r->0.pair_id == *pid,
            r is Some ==> old(self).holds(r->0),
            !final(self).ids().contains(*pid),
            final(self).ids().to_set() == old(self).ids().to_set().remove(*pid),
            forall|p: Pair<T>| #[trigger] old(self).holds(p) && p.pair_id != *pid ==> final(self).holds(p),
            forall|p: Pair<T>| #[trigger] final(self).holds(p) ==> old(self).holds(p) && p.pair_id != *pid,
    {
        match self.position(pid) {
            Some(i) => {
                let ghost prev = self.pairs@;
                let removed = self.pairs.remove(i);
                proof {
                    assert(old(self).entries()[i as int] == removed);
                    assert forall|p: Pair<T>| #[trigger] old(self).holds(p) && p.pair_id != *pid implies self.holds(p) by {
                        let k = choose|k: int| 0 <= k < prev.len() && prev[k] == p;
                        assert(k != i);
                        let k2 = if k < i { k } else { k - 1 };
                        assert(self.entries()[k2] == p);
                    }
                    assert forall|p: Pair<T>| #[trigger] self.holds(p) implies old(self).holds(p) && p.pair_id != *pid by {
                        let k = choose|k: int| 0 <= k < self.entries().len() && self.entries()[k] == p;
                        let k2 = if k < i { k } else { k + 1 };
                        assert(prev[k2] == p);
                        assert(self.ids()[k] == p.pair_id);
                    }
                    assert(self.ids() =~= old(self).ids().remove(i as int));
                    assert forall|a: int, b: int|
                        0 <= a < self.pairs@.len() && 0 <= b < self.pairs@.len() && a != b implies self.pairs@[a].pair_id
                        != self.pairs@[b].pair_id by {
                        let a2 = if a < i { a } else { a + 1 };
                        let b2 = if b < i { b } else { b + 1 };
                        assert(self.pairs@[a] == prev[a2] && self.pairs@[b] == prev[b2]);
                    }
                    assert(!self.ids().contains(*pid)) by {
                        if self.ids().contains(*pid) {
                            let k = choose|k: int| 0 <= k < self.ids().len() && self.ids()[k] == *pid;
                            let k2 = if k < i { k } else { k + 1 };
                            assert(prev[k2].pair_id == prev[i as int].pair_id);
                        }
                    }
                    assert forall|x: PairId| self.ids().to_set().contains(x) == old(self).ids().to_set().remove(*pid).contains(x) by {
                        if self.ids().contains(x) {
                            let k = choose|k: int| 0 <= k < self.ids().len() && self.ids()[k] == x;
                            let k2 = if k < i { k } else { k + 1 };
                            assert(old(self).ids()[k2] == x);
                        }
                        if old(self).ids().contains(x) && x != *pid {
                            let k = choose|k: int| 0 <= k < old(self).ids().len() && old(self).ids()[k] == x;
                            assert(k != i);
                            let k2 = if k < i { k } else { k - 1 };
                            assert(self.ids()[k2] == x);
                        }
                    }
                    assert(self.ids().to_set() =~= old(self).ids().to_set().remove(*pid));
                }
                Some(removed)
            },
            None => {
                assert(old(self).ids().to_set() =~= old(self).ids().to_set().remove(*pid)) by {
                    assert(!old(self).ids().to_set().contains(*pid));
                }
                assert forall|p: Pair<T>| #[trigger] self.holds(p) implies p.pair_id != *pid by {
                    let k = choose|k: int| 0 <= k < self.entries().len() && self.entries()[k] == p;
                    assert(self.ids()[k] == p.pair_id);
                }
                None
            },
        }
    }

    /// Ids of all live pairs.
    pub fn list_for_sweep(&self) -> (r: Vec<PairId>)
        ensures
            r@ == self.ids(),
    {
        let mut out: Vec<PairId> = Vec::new();
        let mut i: usize = 0;
        while i < self.pairs.len()
            invariant
                i <= self.pairs@.len(),
                out@ == self.ids().take(i as int),
            decreases self.pairs@.len() - i,
        {
            out.push(self.pairs[i].pair_id);
            assert(out@ =~= self.ids().take(i + 1));
            i = i + 1;
        }
        assert(out@ =~= self.ids());
        out
    }

    /// Ids of the live pairs routed to `server_id`.
    pub fn pairs_of_server(&self, server_id: ServerId) -> (r: Vec<PairId>)
        ensures
            forall|x: PairId| r@.contains(x) <==> exists|i: int|
                0 <= i < self.ids().len() && self.ids()[i] == x && self.servers()[i] == server_id,
    {
        let mut out: Vec<PairId> = Vec::new();
        let mut i: usize = 0;
        while i < self.pairs.len()
            invariant
                i <= self.pairs@.len(),
                forall|x: PairId| out@.contains(x) <==> exists|k: int|
                    0 <= k < i && self.ids()[k] == x && self.servers()[k] == server_id,
            decreases self.pairs@.len() - i,
        {
            let ghost prev = out@;
            if self.pairs[i].server_id == server_id {
                out.push(self.pairs[i].pair_id);
            }
            proof {
                assert forall|x: PairId| out@.contains(x) <==> exists|k: int|
                    0 <= k < i + 1 && self.ids()[k] == x && self.servers()[k] == server_id by {
                    if out@.contains(x) && !prev.contains(x) {
                        assert(x == self.ids()[i as int]);
                        assert(self.ids()[i as int] == x && self.servers()[i as int] == server_id);
                    }
                    if exists|k: int| 0 <= k < i + 1 && self.ids()[k] == x && self.servers()[k] == server_id {
                        let k = choose|k: int| 0 <= k < i + 1 && self.ids()[k] == x && self.servers()[k] == server_id;
                        if k == i {
                            assert(out@[out@.len() - 1] == x);
                        } else {
                            assert(prev.contains(x));
                            let j = choose|j: int| 0 <= j < prev.len() && prev[j] == x;
                            assert(out@[j] == x);
                        }
                    }
                    if prev.contains(x) {
                        let j = choose|j: int| 0 <= j < prev.len() && prev[j] == x;
                        assert(out@[j] == x);
                    }
                }
            }
            i = i + 1;
        }
        out
    }

    /// One sweep: removes every stuck pair and returns them, for the caller
    /// to close both legs; the pairs that are not stuck stay, unchanged.
    pub fn sweep_once(&mut self, threshold_ms: u64, now_ms: u64) -> (r: Vec<Pair<T>>)
        requires
            old(self).wf(),
        ensures
            final(self).wf(),
            forall|i: int|
                0 <= i < r@.len() ==> old(self).ids().contains(r@[i].pair_id) && is_stuck(
                    r@[i].progress(),
                    now_ms,
                    threshold_ms,
                ),
            forall|i: int|
                0 <= i < final(self).ids().len() ==> !is_stuck(final(self).progress()[i], now_ms, threshold_ms),
            forall|i: int|
                0 <= i < old(self).ids().len() && !is_stuck(old(self).progress()[i], now_ms, threshold_ms)
                    ==> final(self).ids().contains(old(self).ids()[i]),
            forall|i: int|
                0 <= i < old(self).ids().len() && is_stuck(old(self).progress()[i], now_ms, threshold_ms)
                    ==> exists|j: int| 0 <= j < r@.len() && r@[j].pair_id == old(self).ids()[i],
            forall|x: PairId| final(self).ids().contains(x) ==> old(self).ids().contains(x),
            final(self).survivors_unchanged(*old(self)),
            old(self).all_taken_from(r@),
    {
        self.take_where(Criterion::Stuck { threshold_ms, now_ms })
    }

    /// Removes every pair routed to `server_id` and returns them; the pairs
    /// of other servers stay, unchanged.
    pub fn take_server_pairs(&mut self, server_id: ServerId) -> (r: Vec<Pair<T>>)
        requires
            old(self).wf(),
        ensures
            final(self).wf(),
            forall|i: int| 0 <= i < r@.len() ==> old(self).ids().contains(r@[i].pair_id) && r@[i].server_id == server_id,
            forall|i: int| 0 <= i < final(self).ids().len() ==> final(self).servers()[i] != server_id,
            forall|i: int|
                0 <= i < old(self).ids().len() && old(self).servers()[i] != server_id
                    ==> final(self).ids().contains(old(self).ids()[i]),
            forall|i: int|
                0 <= i < old(self).ids().len() && old(self).servers()[i] == server_id
                    ==> exists|j: int| 0 <= j < r@.len() && r@[j].pair_id == old(self).ids()[i],
            forall|x: PairId| final(self).ids().contains(x) ==> old(self).ids().contains(x),
            final(self).survivors_unchanged(*old(self)),
            old(self).all_taken_from(r@),
    {
        self.take_where(Criterion::OfServer(server_id))
    }

    /// The id, server and progress sequences run in parallel.
    pub proof fn lemma_parallel(&self)
        ensures
            self.servers().len() == self.ids().len(),
            self.progress().len() == self.ids().len(),
    {
    }

    /// With unique ids, the pair with id `x` sits at `ids().index_of(x)` and
    /// nowhere else.
    pub proof fn lemma_index_of_id(&self, x: PairId)
        requires
            self.wf(),
            self.ids().contains(x),
        ensures
            0 <= self.ids().index_of(x) < self.ids().len(),
            self.ids()[self.ids().index_of(x)] == x,
            forall|i: int| 0 <= i < self.ids().len() && self.ids()[i] == x ==> i == self.ids().index_of(x),
    {
        let k = self.ids().index_of(x);
        assert forall|i: int| 0 <= i < self.ids().len() && self.ids()[i] == x implies i == k by {
            assert(self.pairs@[i].pair_id == self.ids()[i]);
            assert(self.pairs@[k].pair_id == self.ids()[k]);
        }
    }

    /// Removes every pair that the criterion selects and returns them; the
    /// others stay, unchanged.
    #[verifier::rlimit(60)]
    pub fn take_where(&mut self, c: Criterion) -> (r: Vec<Pair<T>>)
        requires
            old(self).wf(),
        ensures
            final(self).wf(),
            forall|i: int|
                0 <= i < r@.len() ==> old(self).ids().contains(r@[i].pair_id) && selects(c, r@[i].progress(), r@[i].server_id),
            forall|i: int|
                0 <= i < final(self).ids().len() ==> !selects(c, final(self).progress()[i], final(self).servers()[i]),
            forall|i: int|
                0 <= i < old(self).ids().len() && !selects(c, old(self).progress()[i], old(self).servers()[i])
                    ==> final(self).ids().contains(old(self).ids()[i]),
            forall|i: int|
                0 <= i < old(self).ids().len() && selects(c, old(self).progress()[i], old(self).servers()[i])
                    ==> exists|j: int| 0 <= j < r@.len() && r@[j].pair_id == old(self).ids()[i],
            forall|x: PairId| final(self).ids().contains(x) ==> old(self).ids().contains(x),
            final(self).survivors_unchanged(*old(self)),
            old(self).all_taken_from(r@),
    {
        let ghost orig = self.pairs@;
        let ghost before = *self;
        let mut kept: Vec<Pair<T>> = Vec::new();
        let mut killed: Vec<Pair<T>> = Vec::new();
        let mut all = Vec::new();
        std::mem::swap(&mut all, &mut self.pairs);
        assert(all@ == orig);
        let mut rest = all;
        let ghost mut taken: int = 0;
        while rest.len() > 0
            invariant
                taken + rest@.len() == orig.len(),
                rest@ == orig.subrange(taken, orig.len() as int),
                0 <= taken <= orig.len(),
                forall|k: int| 0 <= k < killed@.len() ==> orig.map_values(|p: Pair<T>| p.pair_id).contains(killed@[k].pair_id)
                    && selects(c, killed@[k].last_progress_ms, killed@[k].server_id),
                forall|k: int| #![trigger killed@[k]] 0 <= k < killed@.len() ==> exists|j: int| #![trigger orig[j]] 0 <= j < taken && orig[j] == killed@[k],
                forall|k: int| 0 <= k < kept@.len() ==> !selects(c, kept@[k].last_progress_ms, kept@[k].server_id),
                forall|k: int| #![trigger kept@[k]] 0 <= k < kept@.len() ==> exists|j: int| #![trigger orig[j]] 0 <= j < taken && orig[j] == kept@[k],
                forall|j: int| #![trigger orig[j]] 0 <= j < taken && !selects(c, orig[j].last_progress_ms, orig[j].server_id)
                    ==> exists|k: int| #![trigger kept@[k]] 0 <= k < kept@.len() && kept@[k].pair_id == orig[j].pair_id,
                forall|j: int| #![trigger orig[j]] 0 <= j < taken && selects(c, orig[j].last_progress_ms, orig[j].server_id)
                    ==> exists|k: int| #![trigger killed@[k]] 0 <= k < killed@.len() && killed@[k].pair_id == orig[j].pair_id,
                forall|a: int, b: int| 0 <= a < kept@.len() && 0 <= b < kept@.len() && a != b ==> kept@[a].pair_id != kept@[b].pair_id,
                forall|a: int, j: int| 0 <= a < kept@.len() && taken <= j < orig.len() ==> kept@[a].pair_id != orig[j].pair_id,
                forall|i: int, j: int| 0 <= i < orig.len() && 0 <= j < orig.len() && i != j ==> orig[i].pair_id != orig[j].pair_id,
            decreases rest@.len(),
        {
            let pair = rest.remove(0);
            assert(pair == orig[taken]);
            let ghost t = taken;
            proof {
                taken = taken + 1;
            }
            assert(rest@ =~= orig.subrange(taken, orig.len() as int));
            if selected(&c, &pair) {
                assert(orig.map_values(|p: Pair<T>| p.pair_id)[t] == pair.pair_id);
                let ghost prior = killed@;
                killed.push(pair);
                proof {
                    assert forall|k: int| #![trigger killed@[k]] 0 <= k < killed@.len() implies exists|j: int| #![trigger orig[j]] 0 <= j < taken && orig[j] == killed@[k] by {
                        if k < prior.len() {
                            assert(killed@[k] == prior[k]);
                        } else {
                            assert(orig[t] == killed@[k]);
                        }
                    }
                    assert forall|j: int| #![trigger orig[j]] 0 <= j < taken && selects(c, orig[j].last_progress_ms, orig[j].server_id)
                        implies exists|k: int| #![trigger killed@[k]] 0 <= k < killed@.len() && killed@[k].pair_id == orig[j].pair_id by {
                        if j < t {
                            let k = choose|k: int| 0 <= k < prior.len() && prior[k].pair_id == orig[j].pair_id;
                            assert(killed@[k] == prior[k]);
                        } else {
                            assert(killed@[prior.len() as int].pair_id == orig[j].pair_id);
                        }
                    }
                }
            } else {
                let ghost before = kept@;
                kept.push(pair);
                proof {
                    assert forall|k: int| #![trigger kept@[k]] 0 <= k < kept@.len() implies exists|j: int| #![trigger orig[j]] 0 <= j < taken && orig[j] == kept@[k] by {
                        if k < before.len() {
                            assert(kept@[k] == before[k]);
                        } else {
                            assert(orig[t] == kept@[k]);
                        }
                    }
                    assert forall|j: int| #![trigger orig[j]] 0 <= j < taken && !selects(c, orig[j].last_progress_ms, orig[j].server_id)
                        implies exists|k: int| #![trigger kept@[k]] 0 <= k < kept@.len() && kept@[k].pair_id == orig[j].pair_id by {
                        if j < t {
                            let k = choose|k: int| 0 <= k < before.len() && before[k].pair_id == orig[j].pair_id;
                            assert(kept@[k] == before[k]);
                        } else {
                            assert(kept@[before.len() as int].pair_id == orig[j].pair_id);
                        }
                    }
                    assert forall|a: int, b: int| 0 <= a < kept@.len() && 0 <= b < kept@.len() && a != b implies kept@[a].pair_id != kept@[b].pair_id by {
                        if a < before.len() && b < before.len() {
                            assert(kept@[a] == before[a] && kept@[b] == before[b]);
                        } else if a < before.len() {
                            assert(kept@[a] == before[a]);
                        } else {
                            assert(kept@[b] == before[b]);
                        }
                    }
                    assert forall|a: int, j: int| 0 <= a < kept@.len() && taken <= j < orig.len() implies kept@[a].pair_id != orig[j].pair_id by {
                        if a < before.len() {
                            assert(kept@[a] == before[a]);
                        } else {
                            assert(kept@[a] == orig[t]);
                        }
                    }
                }
            }
        }
        self.pairs = kept;
        proof {
            assert forall|x: PairId| self.ids().contains(x) implies old(self).ids().contains(x) by {
                let k = choose|k: int| 0 <= k < self.ids().len() && self.ids()[k] == x;
                let j = choose|j: int| 0 <= j < taken && orig[j] == self.pairs@[k];
                assert(old(self).ids()[j] == x);
            }
            assert forall|i: int| 0 <= i < old(self).ids().len() && !selects(c, old(self).progress()[i], old(self).servers()[i])
                implies self.ids().contains(old(self).ids()[i]) by {
                let k = choose|k: int| 0 <= k < self.pairs@.len() && self.pairs@[k].pair_id == orig[i].pair_id;
                assert(self.ids()[k] == old(self).ids()[i]);
            }
            assert forall|i: int| 0 <= i < self.ids().len() implies !selects(c, self.progress()[i], self.servers()[i]) by {
                assert(self.progress()[i] == self.pairs@[i].last_progress_ms && self.servers()[i] == self.pairs@[i].server_id);
            }
            assert forall|i: int| #![trigger self.ids()[i]] 0 <= i < self.ids().len() implies {
                let j = before.ids().index_of(self.ids()[i]);
                &&& before.ids().contains(self.ids()[i])
                &&& before.progress()[j] == self.progress()[i]
                &&& before.servers()[j] == self.servers()[i]
            } by {
                let j = choose|j: int| 0 <= j < taken && orig[j] == self.pairs@[i];
                assert(before.pairs@[j] == orig[j]);
                assert(before.ids()[j] == self.ids()[i]);
                before.lemma_index_of_id(self.ids()[i]);
            }
            assert forall|i: int| 0 <= i < old(self).ids().len() && selects(c, old(self).progress()[i], old(self).servers()[i])
                implies exists|j: int| 0 <= j < killed@.len() && killed@[j].pair_id == old(self).ids()[i] by {
                assert(old(self).progress()[i] == orig[i].last_progress_ms && old(self).servers()[i] == orig[i].server_id);
                let k = choose|k: int| 0 <= k < killed@.len() && killed@[k].pair_id == orig[i].pair_id;
                assert(old(self).ids()[i] == orig[i].pair_id);
            }
            assert forall|i: int| 0 <= i < killed@.len() implies old(self).ids().contains(killed@[i].pair_id) by {
                assert(orig.map_values(|p: Pair<T>| p.pair_id) == old(self).ids());
            }
            assert forall|i: int| #![trigger killed@[i]] 0 <= i < killed@.len() implies {
                let j = before.ids().index_of(killed@[i].pair_id);
                &&& before.ids().contains(killed@[i].pair_id)
                &&& before.progress()[j] == killed@[i].progress()
                &&& before.servers()[j] == killed@[i].server_id
            } by {
                let j = choose|j: int| 0 <= j < taken && orig[j] == killed@[i];
                assert(before.pairs@[j] == orig[j]);
                assert(before.ids()[j] == killed@[i].pair_id);
                before.lemma_index_of_id(killed@[i].pair_id);
            }
        }
        killed
    }
}

} // verus!
