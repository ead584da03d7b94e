//! Relay capacity: how many servers and pairs may be live at once, and each
//! pair's byte-rate budget (a token bucket refilled every tenth of a second)
//! and queued-byte budget.

use vstd::prelude::*;
use std::sync::Arc;
use std::sync::atomic::{AtomicUsize, Ordering};
use crate::relay_error::{RelayError, RelayResult};

verus! {

/// Admission step on a live counter: one more, unless the limit is reached.
pub open spec fn spec_admit(current: usize, limit: usize) -> Option<usize> {
    if current < limit { Some((current + 1) as usize) } else { None }
}

pub fn admit_step(current: usize, limit: usize) -> (r: Option<usize>)
    ensures
        r == spec_admit(current, limit),
{
    if current < limit { Some(current + 1) } else { None }
}

/// Release step on a live counter: one less, never below zero.
pub open spec fn spec_release(current: usize) -> Option<usize> {
    if current >= 1 { Some((current - 1) as usize) } else { None }
}

pub fn release_step(current: usize) -> (r: Option<usize>)
    ensures
        r == spec_release(current),
{
    if current >= 1 { Some(current - 1) } else { None }
}

/// `AtomicUsize::fetch_update` with [`admit_step`]: the counter is raised by
/// one only if the value it held was below `limit`. Returns `Ok(previous)`
/// when the update was stored and `Err(previous)` when the step declined.
#[verifier::external_body]
fn fetch_admit(counter: &AtomicUsize, limit: usize) -> (r: Result<usize, usize>)
    ensures
        r matches Ok(prev) ==> prev < limit,
        r matches Err(prev) ==> prev >= limit,
{
    counter.fetch_update(Ordering::AcqRel, Ordering::Acquire, |c| admit_step(c, limit))
}

/// `AtomicUsize::load` (acquire): the counter's current value, as seen by this thread.
#[verifier::external_body]
fn load_counter(counter: &AtomicUsize) -> usize {
    counter.load(Ordering::Acquire)
}

/// `AtomicUsize::new`.
#[verifier::external_body]
fn new_counter() -> AtomicUsize {
    AtomicUsize::new(0)
}

struct CapsInner {
    max_hosts: usize,
    max_pairs: usize,
    max_bytes_per_sec: u64,
    max_queued_bytes: usize,
    hosts: AtomicUsize,
    pairs: AtomicUsize,
}

/// Shared capacity counters for the relay; clones share the same counters.
#[derive(Clone)]
pub struct Caps {
    inner: Arc<CapsInner>,
}

#[derive(Debug, Clone, Copy, PartialEq, Eq, Structural)]
pub struct CapsSnapshot {
    pub hosts: usize,
    pub pairs: usize,
}

#[derive(Debug, Clone, Copy, PartialEq, Eq, Structural)]
pub struct PairCapsSnapshot {
    pub rate_remaining: u64,
    pub queued_bytes: usize,
}

/// Counts increments of a counter: one live server held while it lives.
pub struct HostTicket {
    inner: Arc<CapsInner>,
}

/// The name the server-facing code uses for a host ticket.
pub type ServerTicket = HostTicket;

/// One live pair, with its own rate and queue budgets.
pub struct PairTicket {
    inner: Arc<CapsInner>,
    rate_bucket: u64,
    rate_remainder_tenths: u64,
    queued_bytes: usize,
}

/// Increments `counter` unless it already holds `limit`; on refusal the
/// error names `label`.
pub fn increment_bounded_usize(counter: &AtomicUsize, limit: usize, label: &'static str) -> (r:
    RelayResult<()>)
    ensures
        r is Err ==> r == Err::<(), RelayError>(RelayError::OverCapacity(label)),
        limit == 0 ==> r is Err,
{
    match fetch_admit(counter, limit) {
        Ok(_) => Ok(()),
        Err(_) => Err(RelayError::OverCapacity(label)),
    }
}

impl Caps {
    pub closed spec fn spec_max_hosts(&self) -> usize {
        self.inner.max_hosts
    }

    pub closed spec fn spec_max_pairs(&self) -> usize {
        self.inner.max_pairs
    }

    pub closed spec fn spec_max_bytes_per_sec(&self) -> u64 {
        self.inner.max_bytes_per_sec
    }

    pub closed spec fn spec_max_queued_bytes(&self) -> usize {
        self.inner.max_queued_bytes
    }

    /// Capacity counters with the given limits, nothing admitted yet.
    pub fn new(max_hosts: usize, max_pairs: usize, max_bytes_per_sec: u64, max_queued_bytes: usize) -> (r: Self)
        ensures
            r.spec_max_hosts() == max_hosts,
            r.spec_max_pairs() == max_pairs,
            r.spec_max_bytes_per_sec() == max_bytes_per_sec,
            r.spec_max_queued_bytes() == max_queued_bytes,
    {
        Caps {
            inner: Arc::new(
                CapsInner {
                    max_hosts,
                    max_pairs,
                    max_bytes_per_sec,
                    max_queued_bytes,
                    hosts: new_counter(),
                    pairs: new_counter(),
                },
            ),
        }
    }

    /// Admits one more server, unless `max_hosts` are live.
    pub fn try_add_host(&self) -> (r: RelayResult<HostTicket>)
        ensures
            r is Err ==> r->Err_0 == RelayError::OverCapacity("max_hosts"),
            self.spec_max_hosts() == 0 ==> r is Err,
    {
        match increment_bounded_usize(&self.inner.hosts, self.inner.max_hosts, "max_hosts") {
            Ok(()) => Ok(HostTicket { inner: self.inner.clone() }),
            Err(e) => Err(e),
        }
    }

    /// Admits one more server (the same counter as [`Caps::try_add_host`]).
    pub fn try_add_server(&self) -> (r: RelayResult<ServerTicket>)
        ensures
            r is Err ==> r->Err_0 == RelayError::OverCapacity("max_hosts"),
            self.spec_max_hosts() == 0 ==> r is Err,
    {
        self.try_add_host()
    }

    /// Admits one more pair, unless `max_pairs` are live. The pair starts
    /// with a full one-second rate budget and nothing queued.
    pub fn try_add_pair(&self) -> (r: RelayResult<PairTicket>)
        ensures
            r is Err ==> r->Err_0 == RelayError::OverCapacity("max_pairs"),
            r is Ok ==> r->Ok_0.wf() && r->Ok_0.rate() == self.spec_max_bytes_per_sec()
                && r->Ok_0.bucket() == self.spec_max_bytes_per_sec() && r->Ok_0.remainder_tenths()
                == 0 && r->Ok_0.queued() == 0 && r->Ok_0.max_queued()
                == self.spec_max_queued_bytes(),
    {
        match increment_bounded_usize(&self.inner.pairs, self.inner.max_pairs, "max_pairs") {
            Ok(()) => Ok(
                PairTicket {
                    inner: self.inner.clone(),
                    rate_bucket: self.inner.max_bytes_per_sec,
                    rate_remainder_tenths: 0,
                    queued_bytes: 0,
                },
            ),
            Err(e) => Err(e),
        }
    }

    pub fn max_queued_bytes(&self) -> (r: usize)
        ensures
            r == self.spec_max_queued_bytes(),
    {
        self.inner.max_queued_bytes
    }

    /// The live server and pair counts as seen now.
    pub fn snapshot(&self) -> CapsSnapshot {
        CapsSnapshot { hosts: load_counter(&self.inner.hosts), pairs: load_counter(&self.inner.pairs) }
    }

    /// Another handle on the same counters.
    pub fn clone_handle(&self) -> (r: Self)
        ensures
            r.spec_max_hosts() == self.spec_max_hosts(),
            r.spec_max_pairs() == self.spec_max_pairs(),
            r.spec_max_bytes_per_sec() == self.spec_max_bytes_per_sec(),
            r.spec_max_queued_bytes() == self.spec_max_queued_bytes(),
    {
        Caps { inner: self.inner.clone() }
    }
}

impl Drop for HostTicket {
    /// Releases the server slot (`AtomicUsize::fetch_update` with [`release_step`]).
    #[verifier::external_body]
    fn drop(&mut self)
        opens_invariants none
        no_unwind
    {
        let _ = self.inner.hosts.fetch_update(Ordering::AcqRel, Ordering::Acquire, |c| release_step(c));
    }
}

impl Drop for PairTicket {
    /// Releases the pair slot (`AtomicUsize::fetch_update` with [`release_step`]).
    #[verifier::external_body]
    fn drop(&mut self)
        opens_invariants none
        no_unwind
    {
        let _ = self.inner.pairs.fetch_update(Ordering::AcqRel, Ordering::Acquire, |c| release_step(c));
    }
}

// ---------------------------------------------------------------------------
// Per-pair budgets.

/// One refill tick of the token bucket: `rate` tenths of a byte are added to
/// the carried remainder; whole bytes go into the bucket, which never holds
/// more than `rate`.
pub open spec fn refill_step(bucket: u64, rem: u64, rate: u64) -> (u64, u64) {
    let total: int = if rem + rate > u64::MAX { u64::MAX as int } else { rem + rate };
    let whole: int = total / 10;
    let next_rem: int = total % 10;
    if whole == 0 {
        (bucket, next_rem as u64)
    } else {
        let filled: int = if bucket + whole > u64::MAX { u64::MAX as int } else { bucket + whole };
        (if filled < rate { filled as u64 } else { rate }, next_rem as u64)
    }
}

/// `n` refill ticks in a row.
pub open spec fn refill_ticks(bucket: u64, rem: u64, rate: u64, n: nat) -> (u64, u64)
    decreases n,
{
    if n == 0 {
        (bucket, rem)
    } else {
        let s = refill_ticks(bucket, rem, rate, (n - 1) as nat);
        refill_step(s.0, s.1, rate)
    }
}

/// Law: from an empty bucket and no carried remainder, `k <= 10` refill
/// ticks have added exactly `k` tenths of the per-second rate (whole bytes
/// in the bucket, the fraction carried); ten ticks restore one full second
/// of budget and nothing more.
pub proof fn lemma_refill_accumulates(rate: u64, k: nat)
    requires
        k <= 10,
        rate <= u64::MAX - 9,
    ensures
        refill_ticks(0, 0, rate, k) == (((k * rate) / 10) as u64, ((k * rate) % 10) as u64),
        (k * rate) / 10 <= rate,
    decreases k,
{
    if k == 0 {
        assert(0 * rate == 0) by (nonlinear_arith);
    } else {
        let j = (k - 1) as nat;
        lemma_refill_accumulates(rate, j);
        let a: int = j * rate;
        let q: int = a / 10;
        let m: int = a % 10;
        assert(a == 10 * q + m && 0 <= m < 10) by (nonlinear_arith)
            requires
                q == a / 10,
                m == a % 10,
                a >= 0,
        ;
        assert(k * rate == a + rate) by (nonlinear_arith)
            requires
                a == j * rate,
                k == j + 1,
        ;
        let t: int = m + rate;
        assert((a + rate) / 10 == q + t / 10 && (a + rate) % 10 == t % 10) by (nonlinear_arith)
            requires
                a == 10 * q + m,
                t == m + rate,
                0 <= m < 10,
                rate >= 0,
        ;
        assert((k * rate) / 10 <= rate) by (nonlinear_arith)
            requires
                k <= 10,
                rate >= 0,
        ;
        assert(a / 10 <= a) by (nonlinear_arith)
            requires
                a >= 0,
        ;
        assert(k * rate <= 10 * rate) by (nonlinear_arith)
            requires
                k <= 10,
                rate >= 0,
        ;
    }
}

/// Law: ten refill ticks from an empty bucket give back exactly the
/// configured per-second rate.
pub proof fn lemma_ten_ticks_refill_one_second(rate: u64)
    requires
        rate <= u64::MAX - 9,
    ensures
        refill_ticks(0, 0, rate, 10) == (rate, 0u64),
{
    lemma_refill_accumulates(rate, 10);
    assert((10 * rate) / 10 == rate && (10 * rate) % 10 == 0) by (nonlinear_arith);
}

/// Law: any number of refill ticks keeps a valid budget valid and never
/// takes anything away: the bucket stays between where it started and one
/// second of budget, and the carried remainder stays below one byte.
pub proof fn lemma_refill_ticks_bounded(bucket: u64, rem: u64, rate: u64, n: nat)
    requires
        bucket <= rate,
        rem < 10,
        rate <= u64::MAX - 9,
    ensures
        bucket <= refill_ticks(bucket, rem, rate, n).0 <= rate,
        refill_ticks(bucket, rem, rate, n).1 < 10,
    decreases n,
{
    if n > 0 {
        lemma_refill_ticks_bounded(bucket, rem, rate, (n - 1) as nat);
    }
}

/// Law: after `n` refill ticks from a valid budget (`bucket` bytes and
/// `rem` tenths carried), the bucket holds exactly the whole bytes of what
/// was there plus `n` tenths of the rate, capped at one second of budget:
/// `min(rate, bucket + (rem + n * rate) / 10)`. While the cap has not been
/// reached the fraction of a byte is carried exactly.
pub proof fn lemma_refill_ticks_exact(bucket: u64, rem: u64, rate: u64, n: nat)
    requires
        bucket <= rate,
        rem < 10,
        rate <= u64::MAX - 9,
    ensures
        ({
            let s = refill_ticks(bucket, rem, rate, n);
            let total: int = bucket + (rem + n * rate) / 10;
            &&& s.0 == (if total < rate { total } else { rate as int })
            &&& s.0 < rate ==> s.1 == (rem + n * rate) % 10
        }),
    decreases n,
{
    if n == 0 {
        assert(0 * rate == 0) by (nonlinear_arith);
    } else {
        let j = (n - 1) as nat;
        lemma_refill_ticks_exact(bucket, rem, rate, j);
        lemma_refill_ticks_bounded(bucket, rem, rate, j);
        let s = refill_ticks(bucket, rem, rate, j);
        let a: int = rem + j * rate;
        assert(rem + n * rate == a + rate) by (nonlinear_arith)
            requires
                n == j + 1,
                a == rem + j * rate,
        ;
        assert(a >= 0) by (nonlinear_arith)
            requires
                a == rem + j * rate,
                rem >= 0,
                rate >= 0,
        ;
        let q: int = a / 10;
        let m: int = a % 10;
        assert(a == 10 * q + m && 0 <= m < 10) by (nonlinear_arith)
            requires
                q == a / 10,
                m == a % 10,
                a >= 0,
        ;
        let t: int = m + rate;
        assert((a + rate) / 10 == q + t / 10 && (a + rate) % 10 == t % 10) by (nonlinear_arith)
            requires
                a == 10 * q + m,
                t == m + rate,
                0 <= m < 10,
                rate >= 0,
        ;
        assert(t / 10 >= 0) by (nonlinear_arith)
            requires
                t >= 0,
        ;
        assert(a / 10 <= (a + rate) / 10) by (nonlinear_arith)
            requires
                a >= 0,
                rate >= 0,
        ;
    }
}

/// Law: ten refill ticks fill the bucket to one second of budget, from any
/// valid starting budget.
pub proof fn lemma_ten_ticks_fill_from_any(bucket: u64, rem: u64, rate: u64)
    requires
        bucket <= rate,
        rem < 10,
        rate <= u64::MAX - 9,
    ensures
        refill_ticks(bucket, rem, rate, 10).0 == rate,
{
    lemma_refill_ticks_exact(bucket, rem, rate, 10);
    assert((rem + 10 * rate) / 10 >= rate) by (nonlinear_arith)
        requires
            rem >= 0,
            rate >= 0,
    ;
}

impl PairTicket {
    pub closed spec fn rate(&self) -> u64 {
        self.inner.max_bytes_per_sec
    }

    pub closed spec fn max_queued(&self) -> usize {
        self.inner.max_queued_bytes
    }

    /// Bytes that may still be sent in the current second.
    pub closed spec fn bucket(&self) -> u64 {
        self.rate_bucket
    }

    /// Tenths of a byte carried over between refill ticks.
    pub closed spec fn remainder_tenths(&self) -> u64 {
        self.rate_remainder_tenths
    }

    /// Bytes queued for the peer.
    pub closed spec fn queued(&self) -> usize {
        self.queued_bytes
    }

    /// The bucket never holds more than one second of budget; the carried
    /// remainder is less than one byte.
    pub closed spec fn wf(&self) -> bool {
        &&& self.rate_bucket <= self.inner.max_bytes_per_sec
        &&& self.rate_remainder_tenths < 10
    }

    /// Spends `bytes` of the rate budget, or refuses (changing nothing) when
    /// the bucket holds less.
    pub fn try_consume_rate(&mut self, bytes: u64) -> (r: RelayResult<()>)
        requires
            old(self).wf(),
        ensures
            final(self).wf(),
            final(self).rate() == old(self).rate(),
            final(self).max_queued() == old(self).max_queued(),
            final(self).queued() == old(self).queued(),
            final(self).remainder_tenths() == old(self).remainder_tenths(),
            r is Ok <==> bytes <= old(self).bucket(),
            r is Ok ==> final(self).bucket() == old(self).bucket() - bytes,
            r is Err ==> final(self).bucket() == old(self).bucket() && r
                == Err::<(), RelayError>(RelayError::OverCapacity("max_bytes_per_sec")),
    {
        if self.rate_bucket >= bytes {
            self.rate_bucket = self.rate_bucket - bytes;
            Ok(())
        } else {
            Err(RelayError::OverCapacity("max_bytes_per_sec"))
        }
    }

    /// One tenth-of-a-second refill: a tenth of the per-second rate,
    /// carrying fractions of a byte to the next tick, capped at one second
    /// of budget.
    pub fn refill_one_tick(&mut self)
        requires
            old(self).wf(),
        ensures
            final(self).wf(),
            (final(self).bucket(), final(self).remainder_tenths()) == refill_step(
                old(self).bucket(),
                old(self).remainder_tenths(),
                old(self).rate(),
            ),
            final(self).rate() == old(self).rate(),
            final(self).max_queued() == old(self).max_queued(),
            final(self).queued() == old(self).queued(),
    {
        let tick_tenths = self.inner.max_bytes_per_sec;
        let total: u64 = if self.rate_remainder_tenths > u64::MAX - tick_tenths {
            u64::MAX
        } else {
            self.rate_remainder_tenths + tick_tenths
        };
        let whole_bytes = total / 10;
        self.rate_remainder_tenths = total % 10;
        if whole_bytes == 0 {
            return;
        }
        let filled: u64 = if self.rate_bucket > u64::MAX - whole_bytes {
            u64::MAX
        } else {
            self.rate_bucket + whole_bytes
        };
        let next = if filled < self.inner.max_bytes_per_sec { filled } else { self.inner.max_bytes_per_sec };
        self.rate_bucket = next;
    }

    /// Adds `bytes` to the queue, or refuses (changing nothing) when that
    /// would exceed the queued-bytes limit.
    pub fn try_add_queued_bytes(&mut self, bytes: usize) -> (r: RelayResult<()>)
        requires
            old(self).wf(),
        ensures
            final(self).wf(),
            final(self).rate() == old(self).rate(),
            final(self).max_queued() == old(self).max_queued(),
            final(self).bucket() == old(self).bucket(),
            final(self).remainder_tenths() == old(self).remainder_tenths(),
            r is Ok <==> old(self).queued() + bytes <= old(self).max_queued(),
            r is Ok ==> final(self).queued() == old(self).queued() + bytes,
            r is Err ==> final(self).queued() == old(self).queued() && r
                == Err::<(), RelayError>(RelayError::OverCapacity("max_queued_bytes")),
    {
        if self.queued_bytes > usize::MAX - bytes {
            return Err(RelayError::OverCapacity("max_queued_bytes"));
        }
        let next = self.queued_bytes + bytes;
        if next > self.inner.max_queued_bytes {
            return Err(RelayError::OverCapacity("max_queued_bytes"));
        }
        self.queued_bytes = next;
        Ok(())
    }

    /// Removes `bytes` from the queue, stopping at zero.
    pub fn remove_queued_bytes(&mut self, bytes: usize)
        requires
            old(self).wf(),
        ensures
            final(self).wf(),
            final(self).queued() == (if old(self).queued() >= bytes {
                old(self).queued() - bytes
            } else {
                0
            }),
            final(self).rate() == old(self).rate(),
            final(self).max_queued() == old(self).max_queued(),
            final(self).bucket() == old(self).bucket(),
            final(self).remainder_tenths() == old(self).remainder_tenths(),
    {
        self.queued_bytes = if self.queued_bytes >= bytes { self.queued_bytes - bytes } else { 0 };
    }

    pub fn snapshot(&self) -> (r: PairCapsSnapshot)
        ensures
            r.rate_remaining == self.bucket(),
            r.queued_bytes == self.queued(),
    {
        PairCapsSnapshot { rate_remaining: self.rate_bucket, queued_bytes: self.queued_bytes }
    }
}

} // verus!
