//! How the relay routes frames between a registered daemon and the clients
//! paired with it: what the first frame of each socket must be, and what
//! each later frame does to the live pairs and which leg it goes to.
//!
//! The socket tasks own the sockets and the write channels; they decode
//! each frame, call the step function for their side and carry out the
//! returned step.

use vstd::prelude::*;
use crate::caps::PairTicket;
use crate::pairs::{Pair, PairManager};
use crate::proto::{PairCloseReason, PairId, ServerId};
use crate::registry::{ServerMsg, ServerRegistry};
use crate::relay_error::{RelayError, RelayResult};

verus! {

/// First byte of a relay frame that carries a control message.
pub const RELAY_DISC_CTRL: u8 = 0;

/// First byte of a relay frame that carries forwarded data.
pub const RELAY_DISC_DATA: u8 = 1;

/// Splits a relay frame into its discriminator byte and the rest.
pub fn split_disc(msg: &[u8]) -> (r: RelayResult<(u8, &[u8])>)
    ensures
        msg@.len() == 0 ==> r == Err::<(u8, &[u8]), RelayError>(RelayError::Protocol("empty relay frame")),
        msg@.len() > 0 ==> r is Ok && r->Ok_0.0 == msg@[0] && r->Ok_0.1@ == msg@.skip(1),
{
    if msg.len() == 0 {
        return Err(RelayError::Protocol("empty relay frame"));
    }
    let rest = vstd::slice::slice_subrange(msg, 1, msg.len());
    assert(rest@ =~= msg@.skip(1));
    Ok((msg[0], rest))
}

/// A relay control message.
#[derive(Debug, PartialEq, Eq)]
pub enum RelayCtrl {
    ServerRegister { server_id: ServerId },
    ServerRegisterOk,
    ServerRegisterErr { reason: String },
    ServerHeartbeat,
    ClientConnect { server_id: ServerId },
    PairInbound { pair_id: PairId },
    PairOpen { pair_id: PairId },
    PairClose { pair_id: PairId, reason: PairCloseReason },
}

/// A decoded relay frame.
#[derive(Debug, PartialEq, Eq)]
pub enum RelayWire {
    Ctrl(RelayCtrl),
    /// Opaque bytes forwarded within a pair.
    Forward { pair_id: PairId, bytes: Vec<u8> },
}

/// The kind of a websocket message.
#[derive(Clone, Copy, Debug, PartialEq, Eq, Structural)]
pub enum WsKind {
    Binary,
    Text,
    Ping,
    Pong,
    Close,
    /// A raw frame.
    Frame,
}

/// What a read loop does with a websocket message.
#[derive(Clone, Copy, Debug, PartialEq, Eq, Structural)]
pub enum WsStep {
    /// Decode and handle the binary payload.
    Handle,
    /// Read on.
    Skip,
    /// Leave the loop normally.
    Stop,
}

/// The read loops' treatment of a message (`None` when the socket ended):
/// binary frames are handled, pings and pongs skipped, a close or the end
/// stops the loop, and text or raw frames break the protocol.
pub fn ws_step(msg: Option<WsKind>) -> (r: RelayResult<WsStep>)
    ensures
        msg == Some(WsKind::Binary) ==> r == Ok::<WsStep, RelayError>(WsStep::Handle),
        msg == Some(WsKind::Ping) || msg == Some(WsKind::Pong) ==> r == Ok::<WsStep, RelayError>(WsStep::Skip),
        msg == Some(WsKind::Close) || msg is None ==> r == Ok::<WsStep, RelayError>(WsStep::Stop),
        msg == Some(WsKind::Text) || msg == Some(WsKind::Frame) ==> r == Err::<WsStep, RelayError>(
            RelayError::Protocol("unexpected non-binary frame on relay socket"),
        ),
{
    match msg {
        Some(WsKind::Binary) => Ok(WsStep::Handle),
        Some(WsKind::Ping) | Some(WsKind::Pong) => Ok(WsStep::Skip),
        Some(WsKind::Close) | None => Ok(WsStep::Stop),
        Some(WsKind::Text) | Some(WsKind::Frame) => Err(
            RelayError::Protocol("unexpected non-binary frame on relay socket"),
        ),
    }
}

/// While waiting for a socket's first frame: binary frames are taken,
/// pings and pongs skipped, and anything else ends the socket with an error.
pub fn first_frame_step(msg: Option<WsKind>) -> (r: RelayResult<bool>)
    ensures
        msg == Some(WsKind::Binary) ==> r == Ok::<bool, RelayError>(true),
        msg == Some(WsKind::Ping) || msg == Some(WsKind::Pong) ==> r == Ok::<bool, RelayError>(false),
        msg == Some(WsKind::Close) || msg is None ==> r == Err::<bool, RelayError>(
            RelayError::Protocol("relay websocket closed"),
        ),
        msg == Some(WsKind::Text) || msg == Some(WsKind::Frame) ==> r == Err::<bool, RelayError>(
            RelayError::Protocol("unexpected non-binary frame on relay socket"),
        ),
{
    match msg {
        Some(WsKind::Binary) => Ok(true),
        Some(WsKind::Ping) | Some(WsKind::Pong) => Ok(false),
        Some(WsKind::Close) | None => Err(RelayError::Protocol("relay websocket closed")),
        Some(WsKind::Text) | Some(WsKind::Frame) => Err(
            RelayError::Protocol("unexpected non-binary frame on relay socket"),
        ),
    }
}

/// A daemon socket must open with ServerRegister; returns the server id.
pub fn expect_server_register(first: &RelayWire) -> (r: RelayResult<ServerId>)
    ensures
        forall|s: ServerId| (*first == RelayWire::Ctrl(RelayCtrl::ServerRegister { server_id: s })) ==> r
            == Ok::<ServerId, RelayError>(s),
        !(first matches RelayWire::Ctrl(RelayCtrl::ServerRegister { .. })) ==> r == Err::<ServerId, RelayError>(
            RelayError::Protocol("expected ServerRegister as first server frame"),
        ),
{
    match first {
        RelayWire::Ctrl(RelayCtrl::ServerRegister { server_id }) => Ok(*server_id),
        _ => Err(RelayError::Protocol("expected ServerRegister as first server frame")),
    }
}

/// A client socket must open with ClientConnect naming the server that the
/// client asked for in its URL.
pub fn expect_client_connect(first: &RelayWire, target: ServerId) -> (r: RelayResult<()>)
    ensures
        !(first matches RelayWire::Ctrl(RelayCtrl::ClientConnect { .. })) ==> r == Err::<(), RelayError>(
            RelayError::Protocol("expected ClientConnect as first client frame"),
        ),
        forall|s: ServerId| (*first == RelayWire::Ctrl(RelayCtrl::ClientConnect { server_id: s })) ==> r == (if s
            == target {
            Ok::<(), RelayError>(())
        } else {
            Err::<(), RelayError>(RelayError::Protocol("client pair request server mismatch"))
        }),
{
    match first {
        RelayWire::Ctrl(RelayCtrl::ClientConnect { server_id }) => {
            if *server_id == target {
                Ok(())
            } else {
                Err(RelayError::Protocol("client pair request server mismatch"))
            }
        },
        _ => Err(RelayError::Protocol("expected ClientConnect as first client frame")),
    }
}

/// The write handle of the daemon a client asked for: the registered
/// server's handle, or the refusal when no daemon is registered under
/// `target`.
pub fn registered_target<'a, T>(registry: &'a ServerRegistry<T>, target: &ServerId) -> (r: RelayResult<&'a T>)
    requires
        registry.wf(),
    ensures
        !registry.ids().contains(*target) ==> r == Err::<&T, RelayError>(
            RelayError::Protocol("target server not registered"),
        ),
        registry.ids().contains(*target) ==> r is Ok && (registry.index_of(*target) matches Some(i)
            && *r->Ok_0 == registry.handles()[i]),
{
    match registry.get(target) {
        Some(tx) => Ok(tx),
        None => Err(RelayError::Protocol("target server not registered")),
    }
}

/// The announcements of a newly opened pair, in the order they are sent:
/// first PairInbound to the daemon, then PairOpen to the client.
pub fn pair_announcements(pair_id: PairId) -> (r: (RelayCtrl, RelayCtrl))
    ensures
        r.0 == (RelayCtrl::PairInbound { pair_id }),
        r.1 == (RelayCtrl::PairOpen { pair_id }),
{
    (RelayCtrl::PairInbound { pair_id }, RelayCtrl::PairOpen { pair_id })
}

/// When a client's read loop ends, however it ended: its pair is dropped
/// from the live set and returned with reason client gone, for the caller
/// to send PairClose on both legs (nothing when it was already gone).
pub fn finish_client_side<T>(pairs: &mut PairManager<T>, pair_id: PairId) -> (r: (Option<Pair<T>>, PairCloseReason))
    requires
        old(pairs).wf(),
    ensures
        final(pairs).wf(),
        r.1 == PairCloseReason::ClientGone,
        r.0 is Some <==> old(pairs).ids().contains(pair_id),
        r.0 is Some ==> r.0->0.pair_id == pair_id,
        !final(pairs).ids().contains(pair_id),
        final(pairs).ids().to_set() == old(pairs).ids().to_set().remove(pair_id),
{
    let p = pairs.remove(&pair_id);
    (p, PairCloseReason::ClientGone)
}

/// Opens a pair between `server_id` and a newly connected client: the pair
/// is live from `now_ms`. The caller then tells the daemon (PairInbound)
/// and the client (PairOpen).
pub fn open_pair<T>(
    pairs: &mut PairManager<T>,
    pair_id: PairId,
    server_id: ServerId,
    ticket: PairTicket,
    server_tx: T,
    client_tx: T,
    now_ms: u64,
) -> (r: Option<Pair<T>>)
    requires
        old(pairs).wf(),
    ensures
        final(pairs).wf(),
        final(pairs).ids().contains(pair_id),
        final(pairs).ids().to_set() == old(pairs).ids().to_set().insert(pair_id),
        r is Some <==> old(pairs).ids().contains(pair_id),
        r is Some ==> old(pairs).holds(r->0) && r->0.pair_id == pair_id,
        exists|p: Pair<T>|
            #[trigger] final(pairs).holds(p) && p.pair_id == pair_id && p.server_id == server_id && p.created_at_ms
                == now_ms && p.progress() == now_ms && p.ticket == ticket && p.server_tx == server_tx
                && p.client_tx == client_tx,
        forall|p: Pair<T>| #[trigger] old(pairs).holds(p) && p.pair_id != pair_id ==> final(pairs).holds(p),
        forall|p: Pair<T>|
            #[trigger] final(pairs).holds(p) ==> p.pair_id == pair_id || old(pairs).holds(p),
{
    let ghost t = ticket;
    let pair = Pair::new(pair_id, server_id, ticket, server_tx, client_tx, now_ms);
    let ghost stored = pair;
    let r = pairs.insert(pair);
    assert(pairs.holds(stored));
    r
}

/// What the daemon's read loop does after a frame.
pub enum ServerStep<T> {
    /// Send PairClose with the reason to both legs of this pair (dropped
    /// from the live set), or nothing when the pair was already gone.
    Close(Option<Pair<T>>, PairCloseReason),
    /// Forward the bytes to the client leg of this pair.
    ToClient(PairId, Vec<u8>),
    /// Tell the daemon that this pair is gone (client gone).
    ReplyClientGone(PairId),
    /// Nothing to do.
    Ignore,
}

/// Handles a frame from the daemon registered as `server_id`.
pub fn on_server_frame<T>(pairs: &mut PairManager<T>, server_id: ServerId, frame: RelayWire, now_ms: u64) -> (r:
    RelayResult<ServerStep<T>>)
    requires
        old(pairs).wf(),
    ensures
        final(pairs).wf(),
        match frame {
            RelayWire::Ctrl(RelayCtrl::PairClose { pair_id, reason }) => (r matches Ok(ServerStep::Close(p, why))
                && why == reason && (p is Some <==> old(pairs).ids().contains(pair_id)) && (p is Some ==> p->0.pair_id
                == pair_id)) && !final(pairs).ids().contains(pair_id) && final(pairs).ids().to_set() == old(pairs).ids().to_set().remove(pair_id),
            RelayWire::Ctrl(_) => (r matches Ok(ServerStep::Ignore)) && final(pairs).ids() == old(pairs).ids()
                && final(pairs).progress() == old(pairs).progress(),
            RelayWire::Forward { pair_id, bytes } => {
                &&& !old(pairs).ids().contains(pair_id) ==> ((r matches Ok(ServerStep::ReplyClientGone(p))
                    && p == pair_id) && final(pairs).ids() == old(pairs).ids())
                &&& old(pairs).ids().contains(pair_id) ==> {
                    let i = old(pairs).ids().index_of(pair_id);
                    if old(pairs).servers()[i] != server_id {
                        r == Err::<ServerStep<T>, RelayError>(RelayError::Protocol("pair routed to wrong server"))
                            && final(pairs).ids() == old(pairs).ids()
                    } else {
                        (r matches Ok(ServerStep::ToClient(p, b)) && p == pair_id && b@ == bytes@) && final(pairs).ids() == old(pairs).ids() && final(pairs).progress() == old(pairs).progress().update(i, now_ms)
                    }
                }
            },
        },
{
    match frame {
        RelayWire::Ctrl(RelayCtrl::PairClose { pair_id, reason }) => {
            let p = pairs.remove(&pair_id);
            Ok(ServerStep::Close(p, reason))
        },
        RelayWire::Ctrl(_) => Ok(ServerStep::Ignore),
        RelayWire::Forward { pair_id, bytes } => {
            let owner = match pairs.get(&pair_id) {
                Some(p) => Some(p.server_id),
                None => None,
            };
            match owner {
                None => Ok(ServerStep::ReplyClientGone(pair_id)),
                Some(owner) => {
                    proof {
                        pairs.lemma_index_of_id(pair_id);
                    }
                    if owner != server_id {
                        return Err(RelayError::Protocol("pair routed to wrong server"));
                    }
                    let ghost i = old(pairs).ids().index_of(pair_id);
                    pairs.touch(&pair_id, now_ms);
                    proof {
                        old(pairs).lemma_parallel();
                        pairs.lemma_parallel();
                        assert(pairs.progress() =~= old(pairs).progress().update(i, now_ms));
                    }
                    Ok(ServerStep::ToClient(pair_id, bytes))
                },
            }
        },
    }
}

/// What the client's read loop does after a frame.
pub enum ClientStep<T> {
    /// The client closed the pair: send PairClose with the reason to both
    /// legs of this pair (dropped from the live set), or nothing when it was
    /// already gone; then leave the loop.
    Close(Option<Pair<T>>, PairCloseReason),
    /// Forward the bytes, framed for this pair, to the daemon.
    ToServer(PairId),
}

/// Handles a binary frame from the client of pair `pair_id`. `close` is
/// the frame read as a PairClose, when it reads as one; any other frame is
/// forwarded verbatim and counts as progress.
pub fn on_client_frame<T>(
    pairs: &mut PairManager<T>,
    pair_id: PairId,
    close: Option<(PairId, PairCloseReason)>,
    now_ms: u64,
) -> (r: ClientStep<T>)
    requires
        old(pairs).wf(),
    ensures
        final(pairs).wf(),
        match close {
            Some((pid, reason)) => (r matches ClientStep::Close(p, why) && why == reason && (p is Some <==> old(pairs).ids().contains(pid)) && (p is Some ==> p->0.pair_id == pid)) && final(pairs).ids().to_set() == old(pairs).ids().to_set().remove(pid),
            None => (r matches ClientStep::ToServer(p) && p == pair_id) && final(pairs).ids() == old(pairs).ids()
                && (old(pairs).ids().contains(pair_id) ==> final(pairs).progress() == old(pairs).progress().update(
                old(pairs).ids().index_of(pair_id),
                now_ms,
            )) && (!old(pairs).ids().contains(pair_id) ==> final(pairs).progress() == old(pairs).progress()),
        },
{
    match close {
        Some((pid, reason)) => {
            let p = pairs.remove(&pid);
            ClientStep::Close(p, reason)
        },
        None => {
            let ghost i = old(pairs).ids().index_of(pair_id);
            proof {
                if old(pairs).ids().contains(pair_id) {
                    pairs.lemma_index_of_id(pair_id);
                }
            }
            pairs.touch(&pair_id, now_ms);
            proof {
                old(pairs).lemma_parallel();
                pairs.lemma_parallel();
                if old(pairs).ids().contains(pair_id) {
                    assert(pairs.progress() =~= old(pairs).progress().update(i, now_ms));
                } else {
                    assert(pairs.progress() =~= old(pairs).progress());
                }
            }
            ClientStep::ToServer(pair_id)
        },
    }
}

/// When a daemon's socket ends: drops every pair routed to it and returns
/// them, for the caller to send PairClose (server gone) on both legs.
pub fn close_server_pairs<T>(pairs: &mut PairManager<T>, server_id: ServerId) -> (r: Vec<Pair<T>>)
    requires
        old(pairs).wf(),
    ensures
        final(pairs).wf(),
        forall|i: int| 0 <= i < r@.len() ==> r@[i].server_id == server_id && old(pairs).ids().contains(r@[i].pair_id),
        forall|i: int| 0 <= i < final(pairs).ids().len() ==> final(pairs).servers()[i] != server_id,
        forall|i: int|
            0 <= i < old(pairs).ids().len() && old(pairs).servers()[i] != server_id ==> final(pairs).ids().contains(
                old(pairs).ids()[i],
            ),
        forall|i: int|
            0 <= i < old(pairs).ids().len() && old(pairs).servers()[i] == server_id ==> exists|j: int|
                0 <= j < r@.len() && r@[j].pair_id == old(pairs).ids()[i],
        forall|x: PairId| final(pairs).ids().contains(x) ==> old(pairs).ids().contains(x),
{
    pairs.take_server_pairs(server_id)
}

/// The metric label of a close reason.
pub fn close_reason_label(reason: &PairCloseReason) -> (r: &'static str)
    ensures
        r@ == match reason {
            PairCloseReason::Normal => "normal"@,
            PairCloseReason::ServerGone => "server_gone"@,
            PairCloseReason::ClientGone => "client_gone"@,
            PairCloseReason::Stuck => "stuck"@,
            PairCloseReason::RelayShutdown => "relay_shutdown"@,
            PairCloseReason::Rejected(_) => "rejected"@,
        },
{
    match reason {
        PairCloseReason::Normal => "normal",
        PairCloseReason::ServerGone => "server_gone",
        PairCloseReason::ClientGone => "client_gone",
        PairCloseReason::Stuck => "stuck",
        PairCloseReason::RelayShutdown => "relay_shutdown",
        PairCloseReason::Rejected(_) => "rejected",
    }
}

/// What a writer task does with a message.
#[derive(Debug, PartialEq, Eq)]
pub enum WriterStep {
    /// Send these bytes as one binary message.
    Send(Vec<u8>),
    /// Send a close message and stop.
    CloseAndStop,
    /// Stop without closing.
    Stop,
}

/// A daemon socket's writer sends control and data frames as they are and
/// closes on request.
pub fn server_writer_step(msg: ServerMsg) -> (r: WriterStep)
    ensures
        match msg {
            ServerMsg::Ctrl(b) => r == WriterStep::Send(b),
            ServerMsg::Data(b) => r == WriterStep::Send(b),
            ServerMsg::Close => r == WriterStep::CloseAndStop,
        },
{
    match msg {
        ServerMsg::Ctrl(b) => WriterStep::Send(b),
        ServerMsg::Data(b) => WriterStep::Send(b),
        ServerMsg::Close => WriterStep::CloseAndStop,
    }
}

/// A client socket's writer sends control frames as they are, and of a
/// data frame only its payload (`payload`, the frame read as forwarded
/// data); a data frame that does not read as one stops the writer.
pub fn client_writer_step(msg: ServerMsg, payload: Option<Vec<u8>>) -> (r: WriterStep)
    ensures
        match msg {
            ServerMsg::Ctrl(b) => r == WriterStep::Send(b),
            ServerMsg::Data(_) => match payload {
                Some(p) => r == WriterStep::Send(p),
                None => r == WriterStep::Stop,
            },
            ServerMsg::Close => r == WriterStep::CloseAndStop,
        },
{
    match msg {
        ServerMsg::Ctrl(b) => WriterStep::Send(b),
        ServerMsg::Data(_) => match payload {
            Some(p) => WriterStep::Send(p),
            None => WriterStep::Stop,
        },
        ServerMsg::Close => WriterStep::CloseAndStop,
    }
}

} // verus!
