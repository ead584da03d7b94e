//! The daemon's outbound relay connection: the retry back-off between
//! dial attempts, the check of the relay's answer to registration, and the
//! table of pair bridges that the read loop keeps while connected.

use vstd::prelude::*;
use crate::daemon_error::DaemonError;
use crate::proto::PairId;
use crate::relay_route::{RelayCtrl, RelayWire, WsKind};
use crate::text::{hyphenated, uuid_text};

verus! {

/// Shortest delay between dial attempts, in milliseconds.
pub const MIN_DELAY_MS: u64 = 50;

pub open spec fn min_u64(a: int, b: int) -> int {
    if a < b { a } else { b }
}

pub open spec fn max_u64(a: int, b: int) -> int {
    if a < b { b } else { a }
}

/// The delay after `cur_ms`: scaled by `mul_x10 / 10`, capped at `max_ms`
/// (and at `u64::MAX`), and never below [`MIN_DELAY_MS`].
pub open spec fn spec_next_delay(cur_ms: u64, max_ms: u64, mul_x10: u32) -> u64 {
    max_u64(min_u64(min_u64((cur_ms * mul_x10) / 10, u64::MAX as int), max_ms as int), MIN_DELAY_MS as int) as u64
}

/// Law: between the floor and the cap the back-off grows by exactly the
/// multiplier: the next delay is `cur_ms * mul_x10 / 10` rounded down, so
/// ten times it is within ten of `cur_ms * mul_x10`.
pub proof fn lemma_next_delay_scales(cur_ms: u64, max_ms: u64, mul_x10: u32)
    requires
        MIN_DELAY_MS * 10 <= cur_ms * mul_x10 <= max_ms * 10,
    ensures
        10 * spec_next_delay(cur_ms, max_ms, mul_x10) <= cur_ms * mul_x10,
        cur_ms * mul_x10 < 10 * spec_next_delay(cur_ms, max_ms, mul_x10) + 10,
{
    let p: int = cur_ms * mul_x10;
    let q: int = p / 10;
    assert(10 * q <= p < 10 * q + 10) by (nonlinear_arith)
        requires
            q == p / 10,
            p >= 0,
    ;
    assert(50 <= q <= max_ms);
}

/// Law: the next delay is never below [`MIN_DELAY_MS`], never above the cap
/// (when the cap is above the floor), and with a multiplier of at least
/// one it never shrinks a delay that is within the cap.
pub proof fn lemma_next_delay_bounds(cur_ms: u64, max_ms: u64, mul_x10: u32)
    ensures
        MIN_DELAY_MS <= spec_next_delay(cur_ms, max_ms, mul_x10),
        max_ms >= MIN_DELAY_MS ==> spec_next_delay(cur_ms, max_ms, mul_x10) <= max_ms,
        mul_x10 >= 10 && cur_ms <= max_ms ==> cur_ms <= spec_next_delay(cur_ms, max_ms, mul_x10),
{
    let p: int = cur_ms * mul_x10;
    if mul_x10 >= 10 {
        assert(p >= cur_ms * 10) by (nonlinear_arith)
            requires
                p == cur_ms * mul_x10,
                mul_x10 >= 10,
                cur_ms >= 0,
        ;
        assert(p / 10 >= cur_ms) by (nonlinear_arith)
            requires
                p >= cur_ms * 10,
                cur_ms >= 0,
        ;
    }
}

pub fn next_delay(cur_ms: u64, max_ms: u64, mul_x10: u32) -> (r: u64)
    ensures
        r == spec_next_delay(cur_ms, max_ms, mul_x10),
{
    proof {
        assert(cur_ms * mul_x10 <= 0xffff_ffff_ffff_ffffu128 * 0xffff_ffffu128) by (nonlinear_arith)
            requires
                cur_ms <= 0xffff_ffff_ffff_ffffu64,
                mul_x10 <= 0xffff_ffffu32,
        ;
    }
    let product: u128 = (cur_ms as u128) * (mul_x10 as u128);
    let scaled: u128 = product / 10;
    let capped: u64 = if scaled > u64::MAX as u128 { u64::MAX } else { scaled as u64 };
    let bounded: u64 = if capped < max_ms { capped } else { max_ms };
    if bounded < MIN_DELAY_MS { MIN_DELAY_MS } else { bounded }
}

/// `a / b` rounded toward zero.
pub open spec fn trunc_div(a: int, b: int) -> int {
    if a >= 0 { a / b } else { -((-a) / b) }
}

/// `base_ms` moved by `(rng_byte - 128) / 512` of itself (rounded toward
/// zero), so within -25% .. +24.8%; at least 1 and at most `u64::MAX`.
pub open spec fn spec_jitter(base_ms: u64, rng_byte: u8) -> u64 {
    let j = base_ms + trunc_div(base_ms * (rng_byte - 128), 512);
    if j <= 0 { 1 } else if j > u64::MAX { u64::MAX } else { j as u64 }
}

pub fn jitter(base_ms: u64, rng_byte: u8) -> (r: u64)
    ensures
        r == spec_jitter(base_ms, rng_byte),
{
    let base = base_ms as u128;
    if rng_byte >= 128 {
        let k = (rng_byte - 128) as u128;
        proof {
            assert(base * k <= 0xffff_ffff_ffff_ffffu128 * 127) by (nonlinear_arith)
                requires
                    base <= 0xffff_ffff_ffff_ffffu128,
                    k <= 127,
            ;
        }
        let delta = base * k / 512;
        let j = base + delta;
        if j == 0 {
            1
        } else if j > u64::MAX as u128 {
            u64::MAX
        } else {
            j as u64
        }
    } else {
        let k = (128 - rng_byte) as u128;
        proof {
            assert(base * k <= base * 128) by (nonlinear_arith)
                requires
                    k <= 128,
            ;
        }
        let delta = base * k / 512;
        proof {
            assert(base * (rng_byte - 128) == -(base * k)) by (nonlinear_arith)
                requires
                    k == 128 - rng_byte,
            ;
        }
        if delta >= base {
            1
        } else {
            (base - delta) as u64
        }
    }
}

/// `getrandom::getrandom` on a one-byte buffer: the byte it wrote, or `None`
/// when the call failed. Nothing is claimed of the byte: it comes from the
/// operating system's random source.
#[verifier::external_body]
fn random_byte() -> Option<u8> {
    let mut byte = [0_u8; 1];
    match getrandom::getrandom(&mut byte) {
        Ok(()) => Some(byte[0]),
        Err(_) => None,
    }
}

/// The jitter byte from a draw of the random source: the byte drawn, or the
/// neutral 128 (no jitter) when the source failed.
pub fn jitter_byte(drawn: Option<u8>) -> (r: u8)
    ensures
        r == (match drawn {
            Some(b) => b,
            None => 128u8,
        }),
{
    match drawn {
        Some(b) => b,
        None => 128,
    }
}

/// The retry settings of the relay dialer.
#[derive(Clone, Copy, Debug, PartialEq, Eq, Structural)]
pub struct RetryPolicy {
    pub initial_ms: u64,
    pub max_ms: u64,
    pub mul_x10: u32,
}

/// The first delay: the initial delay, at least [`MIN_DELAY_MS`].
pub open spec fn first_delay(p: RetryPolicy) -> u64 {
    if p.initial_ms < MIN_DELAY_MS { MIN_DELAY_MS } else { p.initial_ms }
}

/// Back-off state of the dial loop.
#[derive(Clone, Copy, Debug, PartialEq, Eq, Structural)]
pub struct Backoff {
    pub delay_ms: u64,
    pub attempts: u64,
}

impl Backoff {
    pub fn new(policy: RetryPolicy) -> (r: Self)
        ensures
            r.delay_ms == first_delay(policy),
            r.attempts == 0,
    {
        let d = if policy.initial_ms < MIN_DELAY_MS { MIN_DELAY_MS } else { policy.initial_ms };
        Backoff { delay_ms: d, attempts: 0 }
    }

    /// Counts an attempt (saturating).
    pub fn start_attempt(&mut self)
        ensures
            final(self).delay_ms == old(self).delay_ms,
            final(self).attempts == (if old(self).attempts == u64::MAX {
                u64::MAX
            } else {
                (old(self).attempts + 1) as u64
            }),
    {
        self.attempts = self.attempts.saturating_add(1);
    }

    /// After a relay session: a session that ended normally resets the
    /// delay and redials at once (`None`); a failed one sleeps the jittered
    /// delay (returned) and grows the delay for next time.
    pub fn after_session(&mut self, policy: RetryPolicy, ended_ok: bool, rng_byte: u8) -> (r: Option<u64>)
        ensures
            final(self).attempts == old(self).attempts,
            ended_ok ==> r is None && final(self).delay_ms == first_delay(policy),
            !ended_ok ==> r == Some(spec_jitter(old(self).delay_ms, rng_byte)) && final(self).delay_ms
                == spec_next_delay(old(self).delay_ms, policy.max_ms, policy.mul_x10),
    {
        if ended_ok {
            self.delay_ms = if policy.initial_ms < MIN_DELAY_MS { MIN_DELAY_MS } else { policy.initial_ms };
            None
        } else {
            let sleep_ms = jitter(self.delay_ms, rng_byte);
            self.delay_ms = next_delay(self.delay_ms, policy.max_ms, policy.mul_x10);
            Some(sleep_ms)
        }
    }

    /// [`Backoff::after_session`] with a random jitter byte.
    pub fn after_session_random(&mut self, policy: RetryPolicy, ended_ok: bool) -> (r: Option<u64>)
        ensures
            final(self).attempts == old(self).attempts,
            ended_ok ==> r is None && final(self).delay_ms == first_delay(policy),
            !ended_ok ==> (exists|b: u8| r == Some(spec_jitter(old(self).delay_ms, b))) && final(self).delay_ms
                == spec_next_delay(old(self).delay_ms, policy.max_ms, policy.mul_x10),
    {
        let b = jitter_byte(random_byte());
        self.after_session(policy, ended_ok, b)
    }
}

/// What waiting for the registration answer does with a websocket message
/// (`None` when the socket ended): binary frames are taken, pings and pongs
/// skipped, and anything else ends the attempt.
pub fn registration_wait_step(msg: Option<WsKind>) -> (r: Result<bool, DaemonError>)
    ensures
        msg == Some(WsKind::Binary) ==> r == Ok::<bool, DaemonError>(true),
        msg == Some(WsKind::Ping) || msg == Some(WsKind::Pong) ==> r == Ok::<bool, DaemonError>(false),
        msg == Some(WsKind::Close) || msg is None ==> r is Err && r->Err_0 is Internal
            && r->Err_0->Internal_0@ == "relay websocket closed"@,
        msg == Some(WsKind::Text) || msg == Some(WsKind::Frame) ==> r is Err && r->Err_0 is Internal
            && r->Err_0->Internal_0@ == "unexpected non-binary frame on relay dialer"@,
{
    match msg {
        Some(WsKind::Binary) => Ok(true),
        Some(WsKind::Ping) | Some(WsKind::Pong) => Ok(false),
        Some(WsKind::Close) | None => Err(DaemonError::Internal(String::from_str("relay websocket closed"))),
        Some(WsKind::Text) | Some(WsKind::Frame) => Err(
            DaemonError::Internal(String::from_str("unexpected non-binary frame on relay dialer")),
        ),
    }
}

/// The name of a relay frame's kind, as used in error messages.
pub open spec fn wire_name(w: RelayWire) -> Seq<char> {
    match w {
        RelayWire::Ctrl(RelayCtrl::ServerRegister { .. }) => "ServerRegister"@,
        RelayWire::Ctrl(RelayCtrl::ServerRegisterOk) => "ServerRegisterOk"@,
        RelayWire::Ctrl(RelayCtrl::ServerRegisterErr { .. }) => "ServerRegisterErr"@,
        RelayWire::Ctrl(RelayCtrl::ServerHeartbeat) => "ServerHeartbeat"@,
        RelayWire::Ctrl(RelayCtrl::ClientConnect { .. }) => "ClientConnect"@,
        RelayWire::Ctrl(RelayCtrl::PairInbound { .. }) => "PairInbound"@,
        RelayWire::Ctrl(RelayCtrl::PairOpen { .. }) => "PairOpen"@,
        RelayWire::Ctrl(RelayCtrl::PairClose { .. }) => "PairClose"@,
        RelayWire::Forward { .. } => "Forward"@,
    }
}

fn wire_name_str(w: &RelayWire) -> (r: &'static str)
    ensures
        r@ == wire_name(*w),
{
    match w {
        RelayWire::Ctrl(RelayCtrl::ServerRegister { .. }) => "ServerRegister",
        RelayWire::Ctrl(RelayCtrl::ServerRegisterOk) => "ServerRegisterOk",
        RelayWire::Ctrl(RelayCtrl::ServerRegisterErr { .. }) => "ServerRegisterErr",
        RelayWire::Ctrl(RelayCtrl::ServerHeartbeat) => "ServerHeartbeat",
        RelayWire::Ctrl(RelayCtrl::ClientConnect { .. }) => "ClientConnect",
        RelayWire::Ctrl(RelayCtrl::PairInbound { .. }) => "PairInbound",
        RelayWire::Ctrl(RelayCtrl::PairOpen { .. }) => "PairOpen",
        RelayWire::Ctrl(RelayCtrl::PairClose { .. }) => "PairClose",
        RelayWire::Forward { .. } => "Forward",
    }
}

/// The relay's answer to ServerRegister: ok, a refusal with its reason, or
/// an unexpected frame.
pub fn registration_outcome(answer: &RelayWire) -> (r: Result<(), DaemonError>)
    ensures
        *answer == RelayWire::Ctrl(RelayCtrl::ServerRegisterOk) ==> r is Ok,
        (answer matches RelayWire::Ctrl(RelayCtrl::ServerRegisterErr { reason })) ==> r is Err && r->Err_0 is Internal
            && r->Err_0->Internal_0@ == "relay rejected server registration: "@ + answer->Ctrl_0->ServerRegisterErr_reason@,
        !(answer matches RelayWire::Ctrl(RelayCtrl::ServerRegisterErr { .. })) && *answer != RelayWire::Ctrl(
            RelayCtrl::ServerRegisterOk,
        ) ==> r is Err && r->Err_0 is Internal && r->Err_0->Internal_0@ == "unexpected relay registration response: "@
            + wire_name(*answer),
{
    match answer {
        RelayWire::Ctrl(RelayCtrl::ServerRegisterOk) => Ok(()),
        RelayWire::Ctrl(RelayCtrl::ServerRegisterErr { reason }) => {
            let m = String::from_str("relay rejected server registration: ");
            Err(DaemonError::Internal(m.concat(reason.as_str())))
        },
        _ => {
            let m = String::from_str("unexpected relay registration response: ");
            Err(DaemonError::Internal(m.concat(wire_name_str(answer))))
        },
    }
}

/// The label of a connection that arrived through the relay.
pub open spec fn relay_label(pair: PairId) -> Seq<char> {
    "relay:PairId("@ + hyphenated(pair.0) + ")"@
}

/// What the read loop does with a relay frame.
#[derive(Debug, PartialEq, Eq)]
pub enum BridgeStep {
    /// A client arrived: open a bridge for the pair and hand the daemon a
    /// connection with this label.
    Open(PairId, String),
    /// Deliver the bytes to the pair's bridge.
    Deliver(PairId),
    /// Nothing to do.
    Ignore,
}

/// The pairs that have a live bridge on this relay connection.
pub struct Bridges {
    ids: Vec<PairId>,
}

impl Bridges {
    pub closed spec fn view(&self) -> Set<PairId> {
        self.ids@.to_set()
    }

    pub closed spec fn wf(&self) -> bool {
        self.ids@.no_duplicates()
    }

    pub fn new() -> (r: Self)
        ensures
            r.wf(),
            r.view() == Set::<PairId>::empty(),
    {
        let r = Bridges { ids: Vec::new() };
        assert(r.view() =~= Set::<PairId>::empty());
        r
    }

    pub fn contains(&self, pair: PairId) -> (r: bool)
        ensures
            r == self.view().contains(pair),
    {
        let mut i: usize = 0;
        while i < self.ids.len()
            invariant
                i <= self.ids@.len(),
                forall|k: int| 0 <= k < i ==> self.ids@[k] != pair,
            decreases self.ids@.len() - i,
        {
            if self.ids[i] == pair {
                assert(self.ids@.to_set().contains(pair) == self.ids@.contains(pair));
                return true;
            }
            i = i + 1;
        }
        assert(self.ids@.to_set().contains(pair) == self.ids@.contains(pair));
        false
    }

    pub fn insert(&mut self, pair: PairId)
        requires
            old(self).wf(),
        ensures
            final(self).wf(),
            final(self).view() == old(self).view().insert(pair),
    {
        if !self.contains(pair) {
            let ghost before = self.ids@;
            self.ids.push(pair);
            proof {
                assert(self.ids@ == before.push(pair));
                before.lemma_push_to_set_commute(pair);
                assert(forall|k: int| 0 <= k < before.len() ==> before[k] != pair) by {
                    assert forall|k: int| 0 <= k < before.len() implies before[k] != pair by {
                        assert(before.to_set().contains(before[k]));
                    }
                }
                assert(self.ids@.no_duplicates()) by {
                    assert forall|a: int, b: int| 0 <= a < self.ids@.len() && 0 <= b < self.ids@.len() && a != b
                        implies self.ids@[a] != self.ids@[b] by {
                        if a < before.len() && b < before.len() {
                        } else if a < before.len() {
                            assert(before[a] != pair);
                        } else {
                            assert(before[b] != pair);
                        }
                    }
                }
            }
        } else {
            assert(old(self).view().insert(pair) =~= old(self).view());
        }
    }

    pub fn remove(&mut self, pair: PairId)
        requires
            old(self).wf(),
        ensures
            final(self).wf(),
            final(self).view() == old(self).view().remove(pair),
    {
        let mut i: usize = 0;
        while i < self.ids.len()
            invariant
                i <= self.ids@.len(),
                self.ids@ == old(self).ids@,
                self.ids@.no_duplicates(),
                forall|k: int| 0 <= k < i ==> self.ids@[k] != pair,
            decreases self.ids@.len() - i,
        {
            if self.ids[i] == pair {
                let ghost before = self.ids@;
                self.ids.remove(i);
                proof {
                    assert(self.ids@ == before.remove(i as int));
                    assert(self.ids@.no_duplicates()) by {
                        assert forall|a: int, b: int| 0 <= a < self.ids@.len() && 0 <= b < self.ids@.len() && a != b
                            implies self.ids@[a] != self.ids@[b] by {
                            let a2 = if a < i { a } else { a + 1 };
                            let b2 = if b < i { b } else { b + 1 };
                            assert(self.ids@[a] == before[a2] && self.ids@[b] == before[b2]);
                        }
                    }
                    assert forall|x: PairId| self.ids@.to_set().contains(x) == before.to_set().remove(pair).contains(x) by {
                        assert(self.ids@.to_set().contains(x) == self.ids@.contains(x));
                        assert(before.to_set().contains(x) == before.contains(x));
                        if self.ids@.contains(x) {
                            let k = choose|k: int| 0 <= k < self.ids@.len() && self.ids@[k] == x;
                            let k2 = if k < i { k } else { k + 1 };
                            assert(before[k2] == x);
                            assert(k2 != i);
                        }
                        if before.contains(x) && x != pair {
                            let k = choose|k: int| 0 <= k < before.len() && before[k] == x;
                            assert(k != i);
                            let k2 = if k < i { k } else { k - 1 };
                            assert(self.ids@[k2] == x);
                        }
                    }
                    assert(self.ids@.to_set() =~= before.to_set().remove(pair));
                }
                return;
            }
            i = i + 1;
        }
        proof {
            assert forall|x: PairId| self.ids@.to_set().contains(x) == old(self).ids@.to_set().remove(pair).contains(x) by {
                assert(self.ids@.to_set().contains(x) == self.ids@.contains(x));
            }
            assert(self.ids@.to_set() =~= old(self).ids@.to_set().remove(pair));
        }
    }

    /// Handles a decoded frame from the relay: PairInbound opens a bridge,
    /// Forward is delivered when its pair has one, PairClose drops the
    /// bridge, and other control frames are ignored.
    pub fn on_frame(&mut self, frame: &RelayWire) -> (r: BridgeStep)
        requires
            old(self).wf(),
        ensures
            final(self).wf(),
            match *frame {
                RelayWire::Ctrl(RelayCtrl::PairInbound { pair_id }) => (r matches BridgeStep::Open(p, label) && p
                    == pair_id && label@ == relay_label(pair_id)) && final(self).view() == old(self).view().insert(
                    pair_id,
                ),
                RelayWire::Forward { pair_id, .. } => (if old(self).view().contains(pair_id) {
                    r == BridgeStep::Deliver(pair_id)
                } else {
                    r == BridgeStep::Ignore
                }) && final(self).view() == old(self).view(),
                RelayWire::Ctrl(RelayCtrl::PairClose { pair_id, .. }) => r == BridgeStep::Ignore && final(self).view()
                    == old(self).view().remove(pair_id),
                _ => r == BridgeStep::Ignore && final(self).view() == old(self).view(),
            },
    {
        match frame {
            RelayWire::Ctrl(RelayCtrl::PairInbound { pair_id }) => {
                self.insert(*pair_id);
                let mut label = String::from_str("relay:PairId(");
                let id = uuid_text(pair_id.0);
                label.append(id.as_str());
                label.append(")");
                BridgeStep::Open(*pair_id, label)
            },
            RelayWire::Forward { pair_id, .. } => {
                if self.contains(*pair_id) {
                    BridgeStep::Deliver(*pair_id)
                } else {
                    BridgeStep::Ignore
                }
            },
            RelayWire::Ctrl(RelayCtrl::PairClose { pair_id, .. }) => {
                self.remove(*pair_id);
                BridgeStep::Ignore
            },
            _ => BridgeStep::Ignore,
        }
    }

    /// A bridge whose receiver is gone is dropped.
    pub fn on_delivery_failed(&mut self, pair: PairId)
        requires
            old(self).wf(),
        ensures
            final(self).wf(),
            final(self).view() == old(self).view().remove(pair),
    {
        self.remove(pair);
    }
}

/// What the read loop does with a websocket message (`None` when the
/// socket ended): binary frames are handled, pings and pongs skipped, a
/// close or the end stops the loop normally, anything else is an error.
pub fn bridge_ws_step(msg: Option<WsKind>) -> (r: Result<crate::relay_route::WsStep, DaemonError>)
    ensures
        msg == Some(WsKind::Binary) ==> r == Ok::<crate::relay_route::WsStep, DaemonError>(
            crate::relay_route::WsStep::Handle,
        ),
        msg == Some(WsKind::Ping) || msg == Some(WsKind::Pong) ==> r == Ok::<crate::relay_route::WsStep, DaemonError>(
            crate::relay_route::WsStep::Skip,
        ),
        msg == Some(WsKind::Close) || msg is None ==> r == Ok::<crate::relay_route::WsStep, DaemonError>(
            crate::relay_route::WsStep::Stop,
        ),
        msg == Some(WsKind::Text) || msg == Some(WsKind::Frame) ==> r is Err && r->Err_0 is Internal
            && r->Err_0->Internal_0@ == "unexpected non-binary frame on relay dialer"@,
{
    match msg {
        Some(WsKind::Binary) => Ok(crate::relay_route::WsStep::Handle),
        Some(WsKind::Ping) | Some(WsKind::Pong) => Ok(crate::relay_route::WsStep::Skip),
        Some(WsKind::Close) | None => Ok(crate::relay_route::WsStep::Stop),
        Some(WsKind::Text) | Some(WsKind::Frame) => Err(
            DaemonError::Internal(String::from_str("unexpected non-binary frame on relay dialer")),
        ),
    }
}

/// The dial delay stays between [`MIN_DELAY_MS`] and the larger of the
/// configured maximum and [`MIN_DELAY_MS`], however often it grows.
pub proof fn lemma_delay_bounds(cur_ms: u64, max_ms: u64, mul_x10: u32)
    ensures
        MIN_DELAY_MS <= spec_next_delay(cur_ms, max_ms, mul_x10),
        spec_next_delay(cur_ms, max_ms, mul_x10) <= max_u64(max_ms as int, MIN_DELAY_MS as int),
{
    assert(0 <= cur_ms * mul_x10) by (nonlinear_arith);
}

/// A jittered delay stays within a quarter of the base: from 3/4 of it
/// (rounded up) to 5/4 of it (rounded down), and is never 0.
pub proof fn lemma_jitter_bounds(base_ms: u64, rng_byte: u8)
    ensures
        spec_jitter(base_ms, rng_byte) >= 1,
        base_ms > 0 ==> base_ms - base_ms / 4 <= spec_jitter(base_ms, rng_byte),
        spec_jitter(base_ms, rng_byte) <= base_ms + base_ms / 4 || spec_jitter(base_ms, rng_byte) == 1,
{
    let k: int = rng_byte - 128;
    if k >= 0 {
        assert(base_ms * k >= 0) by (nonlinear_arith)
            requires
                k >= 0,
        ;
        assert((base_ms * k) / 512 <= base_ms / 4) by (nonlinear_arith)
            requires
                0 <= k <= 127,
                base_ms >= 0,
        ;
    } else {
        assert((base_ms * (-k)) / 512 <= base_ms / 4) by (nonlinear_arith)
            requires
                0 < -k <= 128,
                base_ms >= 0,
        ;
        assert(base_ms * k == -(base_ms * (-k))) by (nonlinear_arith);
        assert(base_ms * (-k) >= 0) by (nonlinear_arith)
            requires
                -k > 0,
        ;
    }
}

} // verus!
