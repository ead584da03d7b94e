//! Decisions around one PTY-backed terminal: which command it runs, the
//! sizes it is given, how its exit is reported, and when writes, resizes
//! and kills are refused or forgiven. The PTY itself is driven by the
//! caller.

use vstd::prelude::*;
use crate::proto::StreamSeq;
use crate::ring::{MAX_CAPACITY_BYTES, RingError};
use crate::text::dec_digits;

verus! {

/// How a terminal is started.
#[derive(Clone, Debug, PartialEq, Eq)]
pub struct TerminalCreateParams {
    /// Program and arguments; empty for the default shell.
    pub cmd: Vec<String>,
    pub cwd: Option<String>,
    pub env: Vec<(String, String)>,
    pub cols: u16,
    pub rows: u16,
    pub scrollback_bytes: Option<u32>,
}

/// How a terminal's process ended.
#[derive(Clone, Copy, Debug, PartialEq, Eq, Structural)]
pub struct ExitInfo {
    pub code: Option<i32>,
    pub signal: Option<i32>,
    pub at_unix_ms: u64,
}

/// What went wrong with a terminal.
#[derive(Debug, PartialEq, Eq)]
pub enum TerminalError {
    Ring(RingError),
    Io(String),
    Pty(String),
    Exited,
    InvalidCommand,
}

impl TerminalError {
    /// The error's message.
    pub fn message(&self) -> (r: String)
        ensures
            match self {
                TerminalError::Ring(RingError::CapacityTooLarge(n)) => r@ == "ring error: "@ + "capacity "@ + dec_digits(
                    *n as nat,
                ) + " exceeds the per-terminal limit "@ + dec_digits(MAX_CAPACITY_BYTES as nat),
                TerminalError::Io(d) => r@ == "io error: "@ + d@,
                TerminalError::Pty(d) => r@ == "portable-pty error: "@ + d@,
                TerminalError::Exited => r@ == "terminal already exited"@,
                TerminalError::InvalidCommand => r@ == "command argv cannot be empty"@,
            },
    {
        match self {
            TerminalError::Ring(e) => {
                let s = String::from_str("ring error: ");
                let m = e.message();
                s.concat(m.as_str())
            },
            TerminalError::Io(d) => String::from_str("io error: ").concat(d.as_str()),
            TerminalError::Pty(d) => String::from_str("portable-pty error: ").concat(d.as_str()),
            TerminalError::Exited => String::from_str("terminal already exited"),
            TerminalError::InvalidCommand => String::from_str("command argv cannot be empty"),
        }
    }
}

/// A PTY dimension: at least 1.
pub open spec fn dim(x: u16) -> u16 {
    if x < 1 { 1 } else { x }
}

/// The PTY size for the requested columns and rows.
pub fn pty_dims(cols: u16, rows: u16) -> (r: (u16, u16))
    ensures
        r == (dim(cols), dim(rows)),
{
    let c = if cols < 1 { 1 } else { cols };
    let w = if rows < 1 { 1 } else { rows };
    (c, w)
}

/// The scrollback capacity the terminal asks of its ring.
pub fn ring_capacity(params: &TerminalCreateParams) -> (r: Option<usize>)
    ensures
        r == (match params.scrollback_bytes {
            Some(v) => Some(v as usize),
            None => None,
        }),
{
    match params.scrollback_bytes {
        Some(v) => Some(v as usize),
        None => None,
    }
}

/// The default shell on Unix: `$SHELL` when set and not empty, else
/// `/bin/sh`.
pub fn default_shell(shell_env: Option<&str>) -> (r: Vec<String>)
    ensures
        r@.len() == 1,
        (shell_env is Some && shell_env->0@.len() > 0) ==> r@[0]@ == shell_env->0@,
        !(shell_env is Some && shell_env->0@.len() > 0) ==> r@[0]@ == "/bin/sh"@,
{
    let mut v: Vec<String> = Vec::new();
    match shell_env {
        Some(s) => {
            if s.unicode_len() > 0 {
                v.push(String::from_str(s));
            } else {
                v.push(String::from_str("/bin/sh"));
            }
        },
        None => v.push(String::from_str("/bin/sh")),
    }
    v
}

/// The program and arguments to run: the requested ones, or the default
/// shell when none were requested; an empty result is refused.
pub fn command_argv(cmd: &Vec<String>, shell: Vec<String>) -> (r: Result<Vec<String>, TerminalError>)
    ensures
        cmd@.len() > 0 ==> r is Ok && r->Ok_0@.len() == cmd@.len() && forall|i: int|
            0 <= i < cmd@.len() ==> r->Ok_0@[i]@ == #[trigger] cmd@[i]@,
        cmd@.len() == 0 && shell@.len() > 0 ==> r is Ok && r->Ok_0@ == shell@,
        cmd@.len() == 0 && shell@.len() == 0 ==> r == Err::<Vec<String>, TerminalError>(TerminalError::InvalidCommand),
{
    if cmd.len() == 0 {
        if shell.len() == 0 {
            return Err(TerminalError::InvalidCommand);
        }
        return Ok(shell);
    }
    let mut out: Vec<String> = Vec::new();
    let mut i: usize = 0;
    while i < cmd.len()
        invariant
            i <= cmd@.len(),
            out@.len() == i,
            forall|k: int| 0 <= k < i ==> out@[k]@ == #[trigger] cmd@[k]@,
        decreases cmd@.len() - i,
    {
        out.push(cmd[i].clone());
        i = i + 1;
    }
    Ok(out)
}

/// Writes and resizes are refused once the process has exited.
pub fn require_running(exited: bool) -> (r: Result<(), TerminalError>)
    ensures
        exited ==> r == Err::<(), TerminalError>(TerminalError::Exited),
        !exited ==> r is Ok,
{
    if exited { Err(TerminalError::Exited) } else { Ok(()) }
}

/// A failed kill is forgiven when the process exited anyway; otherwise it
/// is reported with the error's text.
pub fn map_kill_error(error: &str, exited_after_error: bool) -> (r: Result<(), TerminalError>)
    ensures
        exited_after_error ==> r is Ok,
        !exited_after_error ==> r is Err && r->Err_0 is Pty && r->Err_0->Pty_0@ == "failed to kill PTY child: "@
            + error@,
{
    if exited_after_error {
        Ok(())
    } else {
        Err(TerminalError::Pty(String::from_str("failed to kill PTY child: ").concat(error)))
    }
}

/// The outcome of a kill: nothing to do once the process has exited; a
/// failed kill is forgiven when the process has exited by then or within
/// the short wait, and reported otherwise.
pub fn kill_outcome(
    exited_before: bool,
    kill_error: Option<&str>,
    exited_after_error: bool,
    exited_after_wait: bool,
) -> (r: Result<(), TerminalError>)
    ensures
        (exited_before || kill_error is None || exited_after_error || exited_after_wait) ==> r is Ok,
        !(exited_before || kill_error is None || exited_after_error || exited_after_wait) ==> r is Err
            && r->Err_0 is Pty && r->Err_0->Pty_0@ == "failed to kill PTY child: "@ + kill_error->0@,
{
    if exited_before {
        return Ok(());
    }
    match kill_error {
        None => Ok(()),
        Some(e) => {
            if exited_after_error {
                Ok(())
            } else {
                map_kill_error(e, exited_after_wait)
            }
        },
    }
}

/// The exit of a process that ended with `code` at `at_unix_ms`: codes that
/// do not fit an `i32` are not reported, and no signal is ever invented.
pub fn exit_info_from_code(code: u32, at_unix_ms: u64) -> (r: ExitInfo)
    ensures
        r.code == (if code <= i32::MAX { Some(code as i32) } else { None::<i32> }),
        r.signal is None,
        r.at_unix_ms == at_unix_ms,
{
    let c = if code <= i32::MAX as u32 { Some(code as i32) } else { None };
    ExitInfo { code: c, signal: None, at_unix_ms }
}

/// The exit reported when the process's status could not be read.
pub fn default_exit_info(at_unix_ms: u64) -> (r: ExitInfo)
    ensures
        r == (ExitInfo { code: Some(1), signal: None, at_unix_ms }),
{
    ExitInfo { code: Some(1), signal: None, at_unix_ms }
}

/// `SystemTime::now().duration_since(UNIX_EPOCH)` in whole milliseconds, or
/// `None` when the clock is before the epoch. Nothing is claimed of the
/// value: it is the machine's clock.
#[verifier::external_body]
fn clock_millis() -> Option<u128> {
    std::time::SystemTime::now().duration_since(std::time::UNIX_EPOCH).ok().map(|d| d.as_millis())
}

/// Milliseconds since the Unix epoch as a `u64`: the clock's reading when
/// it fits, `u64::MAX` when the clock is before the epoch or too far ahead.
pub fn unix_ms_from(millis: Option<u128>) -> (r: u64)
    ensures
        r == (match millis {
            Some(m) => if m <= u64::MAX { m as u64 } else { u64::MAX },
            None => u64::MAX,
        }),
{
    match millis {
        Some(m) => if m <= u64::MAX as u128 { m as u64 } else { u64::MAX },
        None => u64::MAX,
    }
}

/// The current time in milliseconds since the Unix epoch, as
/// [`unix_ms_from`] makes it of the machine's clock.
pub fn now_unix_ms() -> u64 {
    unix_ms_from(clock_millis())
}

/// Bytes a terminal produced, ending at stream position `seq_at_end`.
#[derive(Debug, Clone, PartialEq, Eq)]
pub struct OutputChunk {
    pub seq_at_end: StreamSeq,
    pub bytes: Vec<u8>,
}

/// What a subscriber to a terminal's output receives.
#[derive(Debug, PartialEq, Eq)]
pub enum OutputRecv {
    Chunk(OutputChunk),
    /// The subscriber fell behind and missed `skipped` chunks.
    Lagged { skipped: u64 },
    /// The terminal's output ended.
    Closed,
}

/// A count of chunks a slow subscriber missed.
#[derive(Debug, Clone, Copy, PartialEq, Eq, Structural)]
pub struct Lagged {
    pub skipped: u64,
}

/// What the task that forwards a subscription to a connection does next.
#[derive(Debug, PartialEq, Eq)]
pub enum ForwardStep {
    /// Hand this chunk to the connection.
    Forward(OutputChunk),
    /// Keep receiving (a lag is only noted).
    Continue,
    /// Stop forwarding.
    Stop,
}

/// Chunks are forwarded (the forwarding stops when the connection no
/// longer takes them), lags are skipped over, and the end of the output
/// stops the forwarding.
pub fn forward_step(recv: OutputRecv) -> (r: ForwardStep)
    ensures
        match recv {
            OutputRecv::Chunk(c) => r == ForwardStep::Forward(c),
            OutputRecv::Lagged { .. } => r == ForwardStep::Continue,
            OutputRecv::Closed => r == ForwardStep::Stop,
        },
{
    match recv {
        OutputRecv::Chunk(c) => ForwardStep::Forward(c),
        OutputRecv::Lagged { .. } => ForwardStep::Continue,
        OutputRecv::Closed => ForwardStep::Stop,
    }
}

} // verus!
