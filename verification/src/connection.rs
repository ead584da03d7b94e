//! The daemon side of one client connection after the key exchange: the
//! Hello check, the frame dispatch state machine, the attached-stream table
//! and how terminal bytes are cut into stream data frames.
//!
//! The caller owns the channel and the terminals; it feeds each decoded
//! client frame to [`Connection::on_frame`] and performs the returned step.

use vstd::prelude::*;
use crate::daemon_error::DaemonError;
use crate::proto::{StreamSeq, TerminalId};
use crate::session::SessionManager;
use crate::text::{dec_digits, hyphenated, push_decimal, uuid_text};

verus! {

/// The one protocol version this daemon speaks.
pub const PROTOCOL_VERSION: u16 = 1;

/// Largest stream data frame used to replay a snapshot.
pub const SNAPSHOT_CHUNK_BYTES: usize = 16384;

/// Largest stream data frame used for live output.
pub const OUTPUT_CHUNK_BYTES: usize = 16384;

/// Largest stream data frame used for a history page.
pub const HISTORY_CHUNK_BYTES: usize = 16384;

/// Identifier of a stream within one connection.
#[derive(Clone, Copy, Debug, PartialEq, Eq, Structural)]
pub struct StreamId(pub u32);

/// Identifier of a client request within one connection.
#[derive(Clone, Copy, Debug, PartialEq, Eq, Structural)]
pub struct RequestId(pub u32);

/// The client's opening frame.
#[derive(Debug)]
pub struct Hello {
    pub protocol_min: u16,
    pub protocol_max: u16,
    /// A resume token, when the client asks to resume an earlier session.
    pub resume: Option<Vec<u8>>,
}

/// Whether the client's supported range contains [`PROTOCOL_VERSION`].
pub open spec fn hello_compatible(min: u16, max: u16) -> bool {
    min <= PROTOCOL_VERSION && PROTOCOL_VERSION <= max
}

/// The text of the version mismatch error.
pub open spec fn mismatch_message(min: u16, max: u16) -> Seq<char> {
    "protocol version mismatch: client supports "@ + dec_digits(min as nat) + ".."@ + dec_digits(
        max as nat,
    ) + ", server is "@ + dec_digits(PROTOCOL_VERSION as nat)
}

/// Accepts a Hello whose version range contains [`PROTOCOL_VERSION`].
pub fn validate_hello(hello: &Hello) -> (r: Result<(), DaemonError>)
    ensures
        r is Ok <==> hello_compatible(hello.protocol_min, hello.protocol_max),
        r is Err ==> r->Err_0 is Internal && r->Err_0->Internal_0@ == mismatch_message(
            hello.protocol_min,
            hello.protocol_max,
        ),
{
    if hello.protocol_min > PROTOCOL_VERSION || hello.protocol_max < PROTOCOL_VERSION {
        let mut m = String::from_str("protocol version mismatch: client supports ");
        push_decimal(&mut m, hello.protocol_min as u64);
        m.append("..");
        push_decimal(&mut m, hello.protocol_max as u64);
        m.append(", server is ");
        push_decimal(&mut m, PROTOCOL_VERSION as u64);
        return Err(DaemonError::Internal(m));
    }
    Ok(())
}

/// `a + b`, saturating at `u64::MAX`.
pub open spec fn sat_add_u64(a: u64, b: int) -> u64 {
    if a + b > u64::MAX { u64::MAX } else { (a + b) as u64 }
}

/// `a + min(b, u32::MAX)`, saturating at `u32::MAX`.
pub open spec fn sat_add_u32(a: u32, b: int) -> u32 {
    let c = if b > u32::MAX { u32::MAX as int } else { b };
    if a + c > u32::MAX { u32::MAX } else { (a + c) as u32 }
}

/// One stream data frame: its sequence number, optional byte offset, the
/// range `start..end` of the payload it carries, and whether it is the last.
#[derive(Clone, Copy, Debug, PartialEq, Eq, Structural)]
pub struct StreamChunk {
    pub seq: StreamSeq,
    pub offset: Option<u32>,
    pub start: usize,
    pub end: usize,
    pub last: bool,
}

/// The `i`-th frame that carries a payload of `len` bytes in frames of
/// `size` bytes. With `advance`, each frame's sequence number is `seq` plus
/// its start; otherwise every frame carries `seq`.
pub open spec fn stream_chunk(
    seq: StreamSeq,
    first_offset: Option<u32>,
    len: int,
    size: int,
    advance: bool,
    i: int,
) -> StreamChunk {
    let start = i * size;
    let end = if start + size < len { start + size } else { len };
    StreamChunk {
        seq: if advance { StreamSeq(sat_add_u64(seq.0, start)) } else { seq },
        offset: match first_offset {
            Some(b) => Some(sat_add_u32(b, start)),
            None => None,
        },
        start: start as usize,
        end: end as usize,
        last: end >= len,
    }
}

/// The frames that carry a payload of `len` bytes: a single empty last
/// frame for an empty payload, else consecutive frames of `chunk_size`
/// bytes (the last one shorter) that together cover the payload.
pub fn plan_stream_chunks(
    len: usize,
    seq: StreamSeq,
    first_offset: Option<u32>,
    chunk_size: usize,
    advance: bool,
) -> (r: Vec<StreamChunk>)
    requires
        chunk_size > 0,
    ensures
        len == 0 ==> r@ == seq![StreamChunk { seq, offset: first_offset, start: 0, end: 0, last: true }],
        len > 0 ==> {
            &&& r@.len() > 0
            &&& forall|i: int|
                0 <= i < r@.len() ==> r@[i] == stream_chunk(seq, first_offset, len as int, chunk_size as int, advance, i)
                    && r@[i].start < len
            &&& r@[r@.len() - 1].end == len
        },
{
    let mut out: Vec<StreamChunk> = Vec::new();
    if len == 0 {
        out.push(StreamChunk { seq, offset: first_offset, start: 0, end: 0, last: true });
        return out;
    }
    let mut offset: usize = 0;
    while offset < len
        invariant
            chunk_size > 0,
            len > 0,
            offset <= len,
            offset < len ==> offset == out@.len() * chunk_size,
            out@.len() > 0 ==> out@[out@.len() - 1].end == offset,
            offset == 0 <==> out@.len() == 0,
            forall|i: int|
                0 <= i < out@.len() ==> out@[i] == stream_chunk(seq, first_offset, len as int, chunk_size as int, advance, i)
                    && out@[i].start < len,
        decreases len - offset,
    {
        let end: usize = if len - offset > chunk_size { offset + chunk_size } else { len };
        let chunk_seq = if advance { StreamSeq(seq.0.saturating_add(offset as u64)) } else { seq };
        let chunk_offset = match first_offset {
            Some(b) => {
                let o: u32 = if offset > u32::MAX as usize { u32::MAX } else { offset as u32 };
                Some(b.saturating_add(o))
            },
            None => None,
        };
        let ghost n = out@.len();
        out.push(StreamChunk { seq: chunk_seq, offset: chunk_offset, start: offset, end, last: end >= len });
        proof {
            assert(out@[n as int] == stream_chunk(seq, first_offset, len as int, chunk_size as int, advance, n as int));
            assert((n + 1) * chunk_size == n * chunk_size + chunk_size) by (nonlinear_arith);
        }
        offset = end;
    }
    out
}

/// One live-output frame: its sequence number (the stream position after
/// its last byte) and the range `start..end` of the chunk it carries.
#[derive(Clone, Copy, Debug, PartialEq, Eq, Structural)]
pub struct OutputPiece {
    pub seq: StreamSeq,
    pub start: usize,
    pub end: usize,
}

/// The `i`-th live-output frame of a chunk of `total` bytes that begins at
/// stream position `start_seq`.
pub open spec fn output_piece(start_seq: int, total: int, size: int, i: int) -> OutputPiece {
    let start = i * size;
    let end = if start + size < total { start + size } else { total };
    OutputPiece { seq: StreamSeq((start_seq + end) as u64), start: start as usize, end: end as usize }
}

/// The text of the error for a chunk that claims more bytes than its end
/// position.
pub open spec fn underflow_message(terminal: TerminalId) -> Seq<char> {
    "output sequence underflow for terminal TerminalId("@ + hyphenated(terminal.0) + ")"@
}

/// The frames that forward a live output chunk of `total` bytes ending at
/// stream position `seq_at_end`: none for an empty chunk, an error when
/// `total` exceeds `seq_at_end`, else frames of [`OUTPUT_CHUNK_BYTES`].
pub fn plan_live_output(seq_at_end: StreamSeq, total: usize, terminal: TerminalId) -> (r: Result<
    Vec<OutputPiece>,
    DaemonError,
>)
    ensures
        total == 0 ==> r is Ok && r->Ok_0@.len() == 0,
        total > 0 && total > seq_at_end.0 ==> r is Err && r->Err_0 is Internal && r->Err_0->Internal_0@
            == underflow_message(terminal),
        total > 0 && total <= seq_at_end.0 ==> r is Ok && {
            let v = r->Ok_0@;
            &&& v.len() > 0
            &&& forall|i: int|
                0 <= i < v.len() ==> v[i] == output_piece(
                    seq_at_end.0 - total,
                    total as int,
                    OUTPUT_CHUNK_BYTES as int,
                    i,
                ) && v[i].start < total
            &&& v[v.len() - 1].end == total
        },
{
    let mut out: Vec<OutputPiece> = Vec::new();
    if total == 0 {
        return Ok(out);
    }
    if total as u64 > seq_at_end.0 {
        let mut m = String::from_str("output sequence underflow for terminal TerminalId(");
        let id = uuid_text(terminal.0);
        m.append(id.as_str());
        m.append(")");
        return Err(DaemonError::Internal(m));
    }
    let start_seq: u64 = seq_at_end.0 - total as u64;
    let size = OUTPUT_CHUNK_BYTES;
    let mut sent: usize = 0;
    while sent < total
        invariant
            total > 0,
            start_seq + total == seq_at_end.0,
            size == OUTPUT_CHUNK_BYTES,
            sent <= total,
            sent < total ==> sent == out@.len() * size,
            out@.len() > 0 ==> out@[out@.len() - 1].end == sent,
            sent == 0 <==> out@.len() == 0,
            forall|i: int|
                0 <= i < out@.len() ==> out@[i] == output_piece(start_seq as int, total as int, size as int, i)
                    && out@[i].start < total,
        decreases total - sent,
    {
        let end: usize = if total - sent > size { sent + size } else { total };
        let ghost n = out@.len();
        out.push(OutputPiece { seq: StreamSeq(start_seq + end as u64), start: sent, end });
        proof {
            assert(out@[n as int] == output_piece(start_seq as int, total as int, size as int, n as int));
            assert((n + 1) * size == n * size + size) by (nonlinear_arith);
        }
        sent = end;
    }
    Ok(out)
}

/// Sequence number of the first snapshot byte when the snapshot of
/// `snapshot_len` bytes ends at `head` (zero if it would be negative).
pub fn baseline_start_seq(head: StreamSeq, snapshot_len: usize) -> (r: StreamSeq)
    ensures
        r.0 == (if head.0 >= snapshot_len { head.0 - snapshot_len } else { 0 }),
{
    StreamSeq(head.0.saturating_sub(snapshot_len as u64))
}

/// The stream attached on this connection: attaching a terminal replaces
/// the previous stream, and stream ids count up from 1 (saturating).
pub struct StreamTable {
    current: Option<(StreamId, TerminalId)>,
    next_local_stream_id: u32,
}

impl StreamTable {
    /// Attached streams and their terminals.
    pub closed spec fn entries(&self) -> Map<StreamId, TerminalId> {
        match self.current {
            Some((s, t)) => map![s => t],
            None => Map::empty(),
        }
    }

    /// The id the next attach hands out.
    pub closed spec fn next_id(&self) -> u32 {
        self.next_local_stream_id
    }

    /// Every attached stream id was handed out before the next one: it is
    /// below `next_id`, unless the counter has saturated.
    pub open spec fn wf(&self) -> bool {
        &&& 1 <= self.next_id()
        &&& forall|s: StreamId|
            #![trigger self.entries().dom().contains(s)]
            self.entries().dom().contains(s) ==> 1 <= s.0 && (s.0 < self.next_id() || self.next_id()
                == u32::MAX)
    }

    pub fn new() -> (r: Self)
        ensures
            r.wf(),
            r.entries() == Map::<StreamId, TerminalId>::empty(),
            r.next_id() == 1,
    {
        let r = StreamTable { current: None, next_local_stream_id: 1 };
        assert(r.entries() =~= Map::<StreamId, TerminalId>::empty());
        r
    }

    /// Attaches `terminal` on a fresh stream, dropping the previous one.
    pub fn attach(&mut self, terminal: TerminalId) -> (sid: StreamId)
        ensures
            old(self).wf() ==> final(self).wf(),
            old(self).wf() && old(self).next_id() < u32::MAX ==> forall|s: StreamId|
                #![trigger old(self).entries().dom().contains(s)]
                old(self).entries().dom().contains(s) ==> s.0 < sid.0,
            sid.0 == old(self).next_id(),
            final(self).next_id() == (if old(self).next_id() == u32::MAX {
                u32::MAX
            } else {
                (old(self).next_id() + 1) as u32
            }),
            final(self).entries() == map![sid => terminal],
    {
        let sid = StreamId(self.next_local_stream_id);
        self.next_local_stream_id = self.next_local_stream_id.saturating_add(1);
        self.current = Some((sid, terminal));
        assert(self.entries().dom() =~= set![sid]);
        sid
    }

    /// The stream on which `terminal` is attached, if any.
    pub fn stream_of(&self, terminal: TerminalId) -> (r: Option<StreamId>)
        ensures
            r is Some ==> self.entries().dom().contains(r->0) && self.entries()[r->0] == terminal,
            r is None ==> forall|s: StreamId| #![trigger self.entries()[s]]
                self.entries().dom().contains(s) ==> self.entries()[s] != terminal,
    {
        match self.current {
            Some((s, t)) => if t == terminal { Some(s) } else { None },
            None => None,
        }
    }

    /// The terminal attached on `stream`, if any.
    pub fn terminal_of(&self, stream: StreamId) -> (r: Option<TerminalId>)
        ensures
            r == (if self.entries().dom().contains(stream) {
                Some(self.entries()[stream])
            } else {
                None
            }),
    {
        match self.current {
            Some((s, t)) => if s == stream { Some(t) } else { None },
            None => None,
        }
    }
}

/// An attach request for `terminal`: when the terminal is live, it is
/// attached on a fresh stream (the previous stream stops); otherwise the
/// answer is the unknown-terminal error (`None`) and nothing changes.
pub fn attach_stream<T>(streams: &mut StreamTable, sessions: &SessionManager<T>, terminal: TerminalId) -> (r:
    Option<StreamId>)
    ensures
        sessions.ids().contains(terminal) ==> r == Some(StreamId(old(streams).next_id()))
            && final(streams).entries() == map![StreamId(old(streams).next_id()) => terminal]
            && final(streams).next_id() == (if old(streams).next_id() == u32::MAX {
                u32::MAX
            } else {
                (old(streams).next_id() + 1) as u32
            }),
        !sessions.ids().contains(terminal) ==> r is None && *final(streams) == *old(streams),
        old(streams).wf() ==> final(streams).wf(),
{
    if sessions.attach(&terminal).is_some() {
        Some(streams.attach(terminal))
    } else {
        None
    }
}

/// A client request, as far as routing needs it.
#[derive(Debug)]
pub enum RequestBody {
    ListTerminals,
    CreateTerminal,
    AttachTerminal { terminal_id: TerminalId },
    ReadHistory { terminal_id: TerminalId, before: Option<StreamSeq>, max_bytes: u32 },
    KillTerminal { terminal_id: TerminalId },
    GetServerConfig,
    SetServerConfig { scrollback_bytes: u32 },
    SendInput { terminal_id: TerminalId },
    ResizeTerminal { terminal_id: TerminalId, cols: u16, rows: u16 },
}

/// What to do for a request.
#[derive(Debug, PartialEq, Eq)]
pub enum Route {
    /// Answer with the terminal list.
    List,
    /// Spawn a terminal and answer with its info, or with its error.
    Create,
    /// Attach the terminal (see [`StreamTable::attach`]).
    Attach(TerminalId),
    /// Answer with a history page on the stream numbered like the request.
    History { terminal_id: TerminalId, stream: StreamId, before: Option<StreamSeq>, max_bytes: usize },
    /// Kill the terminal and answer with the outcome.
    Kill(TerminalId),
    /// Answer with the server configuration.
    GetConfig,
    /// Store the new scrollback size and answer with it.
    SetConfig(usize),
    /// Write the input to the terminal attached on this stream and answer ok.
    Input(StreamId),
    /// Resize the terminal attached on this stream and answer ok.
    Resize { stream: StreamId, cols: u16, rows: u16 },
    /// Answer with the unknown-terminal error.
    UnknownTerminal,
}

/// The route for an input or resize request: the stream on which the
/// terminal is attached, or the unknown-terminal answer.
pub open spec fn attached_route(entries: Map<StreamId, TerminalId>, t: TerminalId, r: Route) -> bool {
    if exists|s: StreamId| #![trigger entries[s]] entries.dom().contains(s) && entries[s] == t {
        (r matches Route::Input(s) && entries.dom().contains(s) && entries[s] == t) || (
        r matches Route::Resize { stream: s, .. } && entries.dom().contains(s) && entries[s] == t)
    } else {
        r == Route::UnknownTerminal
    }
}

/// Decides how a request is answered.
pub fn route_request(streams: &StreamTable, id: RequestId, body: &RequestBody) -> (r: Route)
    ensures
        match body {
            RequestBody::ListTerminals => r == Route::List,
            RequestBody::CreateTerminal => r == Route::Create,
            RequestBody::AttachTerminal { terminal_id } => r == Route::Attach(*terminal_id),
            RequestBody::ReadHistory { terminal_id, before, max_bytes } => r == (Route::History {
                terminal_id: *terminal_id,
                stream: StreamId(id.0),
                before: *before,
                max_bytes: *max_bytes as usize,
            }),
            RequestBody::KillTerminal { terminal_id } => r == Route::Kill(*terminal_id),
            RequestBody::GetServerConfig => r == Route::GetConfig,
            RequestBody::SetServerConfig { scrollback_bytes } => r == Route::SetConfig(
                *scrollback_bytes as usize,
            ),
            RequestBody::SendInput { terminal_id } => attached_route(streams.entries(), *terminal_id, r)
                && !(r is Resize),
            RequestBody::ResizeTerminal { terminal_id, cols, rows } => attached_route(
                streams.entries(),
                *terminal_id,
                r,
            ) && !(r is Input) && (r matches Route::Resize { cols: c, rows: w, .. } ==> c == *cols && w
                == *rows),
        },
{
    match body {
        RequestBody::ListTerminals => Route::List,
        RequestBody::CreateTerminal => Route::Create,
        RequestBody::AttachTerminal { terminal_id } => Route::Attach(*terminal_id),
        RequestBody::ReadHistory { terminal_id, before, max_bytes } => Route::History {
            terminal_id: *terminal_id,
            stream: StreamId(id.0),
            before: *before,
            max_bytes: *max_bytes as usize,
        },
        RequestBody::KillTerminal { terminal_id } => Route::Kill(*terminal_id),
        RequestBody::GetServerConfig => Route::GetConfig,
        RequestBody::SetServerConfig { scrollback_bytes } => Route::SetConfig(*scrollback_bytes as usize),
        RequestBody::SendInput { terminal_id } => match streams.stream_of(*terminal_id) {
            Some(s) => Route::Input(s),
            None => Route::UnknownTerminal,
        },
        RequestBody::ResizeTerminal { terminal_id, cols, rows } => match streams.stream_of(*terminal_id) {
            Some(s) => Route::Resize { stream: s, cols: *cols, rows: *rows },
            None => Route::UnknownTerminal,
        },
    }
}

/// The scrollback size as the wire's 32-bit value.
pub fn server_config_scrollback(scrollback_bytes: usize) -> (r: Result<u32, DaemonError>)
    ensures
        scrollback_bytes <= u32::MAX ==> r == Ok::<u32, DaemonError>(scrollback_bytes as u32),
        scrollback_bytes > u32::MAX ==> r is Err && r->Err_0 is Config
            && r->Err_0->Config_0@ == "limits.scrollback_bytes exceeds u32::MAX"@,
{
    if scrollback_bytes > u32::MAX as usize {
        Err(DaemonError::Config(String::from_str("limits.scrollback_bytes exceeds u32::MAX")))
    } else {
        Ok(scrollback_bytes as u32)
    }
}

/// A frame received from the client.
#[derive(Debug)]
pub enum ClientFrame {
    Hello(Hello),
    Request(RequestId, RequestBody),
    Ping(u64),
    Bye,
    /// Any frame a client does not send to a daemon.
    Other,
}

/// Where the connection stands.
#[derive(Clone, Copy, Debug, PartialEq, Eq, Structural)]
pub enum Phase {
    AwaitingHello,
    Open,
    Closed,
}

/// What the caller does next.
#[derive(Debug, PartialEq, Eq)]
pub enum Step {
    /// Send HelloOk with a fresh session id and the `resumed` flag.
    SendHelloOk { resumed: bool },
    /// Send Bye (protocol mismatch), then end with this error.
    RejectFirstFrame(DaemonError),
    /// End with this error.
    Fail(DaemonError),
    /// Answer the request as routed.
    Answer(RequestId, Route),
    /// Send Pong with the nonce.
    Pong(u64),
    /// The client said goodbye: end normally.
    Finish,
    /// Nothing to do.
    Ignore,
}

/// The per-connection state machine.
pub struct Connection {
    pub phase: Phase,
    pub streams: StreamTable,
}

impl Connection {
    pub fn new() -> (r: Self)
        ensures
            r.phase == Phase::AwaitingHello,
            r.streams.entries() == Map::<StreamId, TerminalId>::empty(),
            r.streams.next_id() == 1,
    {
        Connection { phase: Phase::AwaitingHello, streams: StreamTable::new() }
    }

    /// Handles one client frame. The first frame must be a compatible
    /// Hello; after it requests are routed, pings answered and Bye ends the
    /// connection. A closed connection ignores everything.
    pub fn on_frame(&mut self, frame: ClientFrame) -> (r: Step)
        ensures
            final(self).streams == old(self).streams,
            old(self).phase == Phase::AwaitingHello ==> match frame {
                ClientFrame::Hello(h) => if hello_compatible(h.protocol_min, h.protocol_max) {
                    r == (Step::SendHelloOk { resumed: h.resume is Some }) && final(self).phase == Phase::Open
                } else {
                    r is Fail && r->Fail_0 is Internal && r->Fail_0->Internal_0@ == mismatch_message(
                        h.protocol_min,
                        h.protocol_max,
                    ) && final(self).phase == Phase::Closed
                },
                _ => r is RejectFirstFrame && r->RejectFirstFrame_0 is Internal
                    && r->RejectFirstFrame_0->Internal_0@ == "expected Hello as first frame"@
                    && final(self).phase == Phase::Closed,
            },
            old(self).phase == Phase::Open ==> match frame {
                ClientFrame::Request(id, body) => r is Answer && r->Answer_0 == id && final(self).phase
                    == Phase::Open,
                ClientFrame::Ping(n) => r == Step::Pong(n) && final(self).phase == Phase::Open,
                ClientFrame::Bye => r == Step::Finish && final(self).phase == Phase::Closed,
                _ => r == Step::Ignore && final(self).phase == Phase::Open,
            },
            old(self).phase == Phase::Open ==> (frame matches ClientFrame::Request(id, body) ==> r
                == Step::Answer(id, route_request_spec(old(self).streams, id, body))),
            old(self).phase == Phase::Closed ==> r == Step::Ignore && final(self).phase == Phase::Closed,
    {
        match self.phase {
            Phase::AwaitingHello => match frame {
                ClientFrame::Hello(h) => match validate_hello(&h) {
                    Ok(()) => {
                        self.phase = Phase::Open;
                        Step::SendHelloOk { resumed: h.resume.is_some() }
                    },
                    Err(e) => {
                        self.phase = Phase::Closed;
                        Step::Fail(e)
                    },
                },
                _ => {
                    self.phase = Phase::Closed;
                    Step::RejectFirstFrame(
                        DaemonError::Internal(String::from_str("expected Hello as first frame")),
                    )
                },
            },
            Phase::Open => match frame {
                ClientFrame::Request(id, body) => {
                    let route = route_request(&self.streams, id, &body);
                    proof {
                        lemma_route_is_function(self.streams, id, body, route);
                    }
                    Step::Answer(id, route)
                },
                ClientFrame::Ping(n) => Step::Pong(n),
                ClientFrame::Bye => {
                    self.phase = Phase::Closed;
                    Step::Finish
                },
                _ => Step::Ignore,
            },
            Phase::Closed => Step::Ignore,
        }
    }

    /// Handles a change of the revocation list: end when the list is gone,
    /// say goodbye (revoked) and end when this client is on it, else go on.
    pub fn on_revocation(&mut self, list_closed: bool, client_revoked: bool) -> (r: RevocationStep)
        ensures
            final(self).streams == old(self).streams,
            list_closed ==> r == RevocationStep::Finish && final(self).phase == Phase::Closed,
            !list_closed && client_revoked ==> r == RevocationStep::ByeRevoked && final(self).phase
                == Phase::Closed,
            !list_closed && !client_revoked ==> r == RevocationStep::Continue && final(self).phase
                == old(self).phase,
    {
        if list_closed {
            self.phase = Phase::Closed;
            RevocationStep::Finish
        } else if client_revoked {
            self.phase = Phase::Closed;
            RevocationStep::ByeRevoked
        } else {
            RevocationStep::Continue
        }
    }

    /// The terminal whose live output on `stream` is to be forwarded, or
    /// `None` when the stream is no longer attached (the output is dropped).
    pub fn on_output(&self, stream: StreamId) -> (r: Option<TerminalId>)
        ensures
            r == (if self.streams.entries().dom().contains(stream) {
                Some(self.streams.entries()[stream])
            } else {
                None
            }),
    {
        self.streams.terminal_of(stream)
    }
}

/// What a revocation change leads to.
#[derive(Clone, Copy, Debug, PartialEq, Eq, Structural)]
pub enum RevocationStep {
    Finish,
    ByeRevoked,
    Continue,
}

/// The route a request takes (the one [`route_request`] returns).
pub closed spec fn route_request_spec(streams: StreamTable, id: RequestId, body: RequestBody) -> Route {
    choose|r: Route| route_ok(streams, id, body, r)
}

/// The conditions [`route_request`] ensures of its result.
pub open spec fn route_ok(streams: StreamTable, id: RequestId, body: RequestBody, r: Route) -> bool {
    match body {
        RequestBody::ListTerminals => r == Route::List,
        RequestBody::CreateTerminal => r == Route::Create,
        RequestBody::AttachTerminal { terminal_id } => r == Route::Attach(terminal_id),
        RequestBody::ReadHistory { terminal_id, before, max_bytes } => r == (Route::History {
            terminal_id,
            stream: StreamId(id.0),
            before,
            max_bytes: max_bytes as usize,
        }),
        RequestBody::KillTerminal { terminal_id } => r == Route::Kill(terminal_id),
        RequestBody::GetServerConfig => r == Route::GetConfig,
        RequestBody::SetServerConfig { scrollback_bytes } => r == Route::SetConfig(scrollback_bytes as usize),
        RequestBody::SendInput { terminal_id } => attached_route(streams.entries(), terminal_id, r) && !(r is Resize),
        RequestBody::ResizeTerminal { terminal_id, cols, rows } => attached_route(
            streams.entries(),
            terminal_id,
            r,
        ) && !(r is Input) && (r matches Route::Resize { cols: c, rows: w, .. } ==> c == cols && w == rows),
    }
}

/// At most one route meets the conditions, because at most one stream is
/// attached.
proof fn lemma_route_is_function(streams: StreamTable, id: RequestId, body: RequestBody, a: Route)
    requires
        route_ok(streams, id, body, a),
    ensures
        route_ok(streams, id, body, route_request_spec(streams, id, body)),
        route_request_spec(streams, id, body) == a,
{
    let c = route_request_spec(streams, id, body);
    assert(route_ok(streams, id, body, c));
    match streams.current {
        Some((s, t)) => {
            assert(streams.entries().dom() =~= set![s]);
        },
        None => {
            assert(streams.entries().dom() =~= Set::<StreamId>::empty());
        },
    }
}

/// The frames of a non-empty payload tile it: with `n` frames (so that
/// `(n - 1) * size < len <= n * size`), the first starts at 0, each next
/// one starts where the previous one ended, only the last is marked last,
/// and the last ends at the payload's end.
pub proof fn lemma_chunks_tile(
    seq: StreamSeq,
    first_offset: Option<u32>,
    len: int,
    size: int,
    advance: bool,
    n: int,
)
    requires
        size > 0,
        len > 0,
        n > 0,
        (n - 1) * size < len,
        len <= n * size,
        len <= usize::MAX,
    ensures
        stream_chunk(seq, first_offset, len, size, advance, 0).start == 0,
        forall|i: int|
            0 <= i < n - 1 ==> (#[trigger] stream_chunk(seq, first_offset, len, size, advance, i)).end
                == stream_chunk(seq, first_offset, len, size, advance, i + 1).start && !stream_chunk(
                seq,
                first_offset,
                len,
                size,
                advance,
                i,
            ).last,
        stream_chunk(seq, first_offset, len, size, advance, n - 1).last,
        stream_chunk(seq, first_offset, len, size, advance, n - 1).end == len,
{
    assert(n * size == (n - 1) * size + size) by (nonlinear_arith);
    assert(0 <= (n - 1) * size) by (nonlinear_arith)
        requires
            n >= 1,
            size > 0,
    ;
    assert forall|i: int| 0 <= i < n - 1 implies (#[trigger] stream_chunk(seq, first_offset, len, size, advance, i)).end
        == stream_chunk(seq, first_offset, len, size, advance, i + 1).start && !stream_chunk(
        seq,
        first_offset,
        len,
        size,
        advance,
        i,
    ).last by {
        assert((i + 1) * size == i * size + size) by (nonlinear_arith);
        assert((i + 1) * size <= (n - 1) * size) by (nonlinear_arith)
            requires
                i + 1 <= n - 1,
                size > 0,
        ;
        assert(0 <= i * size) by (nonlinear_arith)
            requires
                i >= 0,
                size > 0,
        ;
    }
}

/// The live-output frames of a chunk end exactly at the chunk's end
/// position, and each frame's position is its start position plus its
/// length.
pub proof fn lemma_output_positions(seq_at_end: u64, total: int, n: int)
    requires
        0 < total <= seq_at_end,
        n > 0,
        output_piece(seq_at_end - total, total, OUTPUT_CHUNK_BYTES as int, n - 1).end == total,
        forall|i: int| 0 <= i < n ==> (#[trigger] output_piece(seq_at_end - total, total, OUTPUT_CHUNK_BYTES as int, i)).start < total,
    ensures
        output_piece(seq_at_end - total, total, OUTPUT_CHUNK_BYTES as int, n - 1).seq.0 == seq_at_end,
        forall|i: int|
            0 <= i < n ==> (#[trigger] output_piece(seq_at_end - total, total, OUTPUT_CHUNK_BYTES as int, i)).seq.0
                == seq_at_end - total + output_piece(seq_at_end - total, total, OUTPUT_CHUNK_BYTES as int, i).end,
{
    assert forall|i: int| 0 <= i < n implies (#[trigger] output_piece(seq_at_end - total, total, OUTPUT_CHUNK_BYTES as int, i)).seq.0
        == seq_at_end - total + output_piece(seq_at_end - total, total, OUTPUT_CHUNK_BYTES as int, i).end by {
        let p = output_piece(seq_at_end - total, total, OUTPUT_CHUNK_BYTES as int, i);
        assert(0 <= i * (OUTPUT_CHUNK_BYTES as int)) by (nonlinear_arith)
            requires
                i >= 0,
        ;
    }
}

} // verus!
