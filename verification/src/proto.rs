//! Plain data shared by the terminal, daemon and relay layers: stream
//! positions, terminal render state and the identifiers of servers,
//! clients, pairs and terminals.

use vstd::prelude::*;

verus! {

/// Absolute position in a terminal output stream (bytes ever produced).
#[derive(Clone, Copy, Debug, PartialEq, Eq, Structural)]
pub struct StreamSeq(pub u64);

/// A terminal colour as carried by SGR sequences.
#[derive(Clone, Copy, Debug, PartialEq, Eq, Structural)]
pub enum Color {
    Palette(u8),
    Indexed(u8),
    Rgb(u8, u8, u8),
}

/// Graphic rendition attributes in effect at a stream position.
#[derive(Clone, Copy, Debug, PartialEq, Eq, Structural)]
pub struct SgrAttrs {
    pub bold: bool,
    pub faint: bool,
    pub italic: bool,
    pub underline: bool,
    pub blink: bool,
    pub reverse: bool,
    pub strikethrough: bool,
    pub fg: Option<Color>,
    pub bg: Option<Color>,
}

/// Mouse reporting mode selected by the DEC private modes 9/1000/1002/1003.
#[derive(Clone, Copy, Debug, PartialEq, Eq, Structural)]
pub enum MouseMode {
    Off,
    X10,
    Normal,
    ButtonEvent,
    AnyEvent,
}

/// DEC private terminal modes tracked for replay.
#[derive(Clone, Copy, Debug, PartialEq, Eq, Structural)]
pub struct TerminalModes {
    pub deccmm_cursor_keys: bool,
    pub autowrap: bool,
    pub alt_screen: bool,
    pub bracketed_paste: bool,
    pub mouse_reporting: MouseMode,
    pub origin_mode: bool,
}

/// The designated G0..G3 character sets.
#[derive(Clone, Copy, Debug, PartialEq, Eq)]
pub struct CharsetState {
    pub g: [u8; 4],
}

/// Render state needed to replay a stream from an anchor position.
#[derive(Debug)]
pub struct AnchorState {
    pub cursor: (u16, u16),
    pub sgr: SgrAttrs,
    pub modes: TerminalModes,
    pub charset: CharsetState,
    pub title: Option<String>,
}

/// Full retained scrollback together with the state at its first byte.
#[derive(Debug)]
pub struct Snapshot {
    pub cols: u16,
    pub rows: u16,
    pub anchor_state: AnchorState,
    pub bytes: Vec<u8>,
    pub head_seq: StreamSeq,
}

/// Bytes produced after a given stream position.
#[derive(Debug)]
pub struct DeltaSlice {
    pub bytes: Vec<u8>,
    pub head_seq: StreamSeq,
}

/// Identifier of a daemon registered at a relay (the 128 bits of its UUID).
#[derive(Clone, Copy, Debug, PartialEq, Eq, Structural)]
pub struct ServerId(pub u128);

/// Identifier of a client/daemon pair routed by a relay.
#[derive(Clone, Copy, Debug, PartialEq, Eq, Structural)]
pub struct PairId(pub u128);

/// Identifier of a paired client.
#[derive(Clone, Copy, Debug, PartialEq, Eq, Structural)]
pub struct ClientId(pub u128);

/// Identifier of a terminal owned by a daemon.
#[derive(Clone, Copy, Debug, PartialEq, Eq, Structural)]
pub struct TerminalId(pub u128);

/// Why a relay pair was closed.
#[derive(Clone, Debug, PartialEq, Eq)]
pub enum PairCloseReason {
    Normal,
    ServerGone,
    ClientGone,
    Stuck,
    RelayShutdown,
    Rejected(String),
}

pub open spec fn default_sgr() -> SgrAttrs {
    SgrAttrs {
        bold: false,
        faint: false,
        italic: false,
        underline: false,
        blink: false,
        reverse: false,
        strikethrough: false,
        fg: None,
        bg: None,
    }
}

pub open spec fn default_modes() -> TerminalModes {
    TerminalModes {
        deccmm_cursor_keys: false,
        autowrap: false,
        alt_screen: false,
        bracketed_paste: false,
        mouse_reporting: MouseMode::Off,
        origin_mode: false,
    }
}

impl SgrAttrs {
    /// All attributes off, default colours.
    pub fn reset() -> (r: SgrAttrs)
        ensures
            r == default_sgr(),
    {
        SgrAttrs {
            bold: false,
            faint: false,
            italic: false,
            underline: false,
            blink: false,
            reverse: false,
            strikethrough: false,
            fg: None,
            bg: None,
        }
    }
}

impl TerminalModes {
    /// All modes off, no mouse reporting.
    pub fn reset() -> (r: TerminalModes)
        ensures
            r == default_modes(),
    {
        TerminalModes {
            deccmm_cursor_keys: false,
            autowrap: false,
            alt_screen: false,
            bracketed_paste: false,
            mouse_reporting: MouseMode::Off,
            origin_mode: false,
        }
    }
}

/// A copy of an optional title string.
pub fn clone_title(t: &Option<String>) -> (r: Option<String>)
    ensures
        r is Some <==> t is Some,
        r is Some ==> r->0@ == t->0@,
{
    match t {
        Some(s) => Some(s.clone()),
        None => None,
    }
}

/// Two render states agree (titles compared as text).
pub open spec fn same_state(a: AnchorState, b: AnchorState) -> bool {
    &&& a.cursor == b.cursor
    &&& a.sgr == b.sgr
    &&& a.modes == b.modes
    &&& a.charset == b.charset
    &&& (a.title is Some <==> b.title is Some)
    &&& (a.title is Some ==> a.title->0@ == b.title->0@)
}

impl AnchorState {
    /// An independent copy of this state.
    pub fn duplicate(&self) -> (r: AnchorState)
        ensures
            r.cursor == self.cursor,
            r.sgr == self.sgr,
            r.modes == self.modes,
            r.charset == self.charset,
            r.title is Some <==> self.title is Some,
            r.title is Some ==> r.title->0@ == self.title->0@,
    {
        AnchorState {
            cursor: self.cursor,
            sgr: self.sgr,
            modes: self.modes,
            charset: self.charset,
            title: clone_title(&self.title),
        }
    }
}

/// An IP address.
#[derive(Clone, Copy, Debug, PartialEq, Eq, Structural)]
pub enum IpAddress {
    V4(u8, u8, u8, u8),
    V6(u16, u16, u16, u16, u16, u16, u16, u16),
}

/// Loopback: `127.0.0.0/8` or `::1`.
pub open spec fn spec_is_loopback(a: IpAddress) -> bool {
    match a {
        IpAddress::V4(x, _, _, _) => x == 127,
        IpAddress::V6(a0, a1, a2, a3, a4, a5, a6, a7) => a0 == 0 && a1 == 0 && a2 == 0 && a3 == 0 && a4 == 0
            && a5 == 0 && a6 == 0 && a7 == 1,
    }
}

/// Law: the loopback addresses are exactly those of `std::net`'s
/// `IpAddr::is_loopback`: every IPv4 address whose first octet is 127, the
/// IPv6 address `::1`, and nothing else (in particular no other IPv6
/// address, and no IPv4 address outside `127.0.0.0/8`).
pub proof fn lemma_loopback_addresses(b: u8, c: u8, d: u8, x: u8, a0: u16, a1: u16, a2: u16, a3: u16, a4: u16, a5: u16, a6: u16, a7: u16)
    ensures
        spec_is_loopback(IpAddress::V4(127, b, c, d)),
        x != 127 ==> !spec_is_loopback(IpAddress::V4(x, b, c, d)),
        spec_is_loopback(IpAddress::V6(0, 0, 0, 0, 0, 0, 0, 1)),
        IpAddress::V6(a0, a1, a2, a3, a4, a5, a6, a7) != IpAddress::V6(0, 0, 0, 0, 0, 0, 0, 1) ==> !spec_is_loopback(
            IpAddress::V6(a0, a1, a2, a3, a4, a5, a6, a7),
        ),
{
}

impl IpAddress {
    pub fn is_loopback(&self) -> (r: bool)
        ensures
            r == spec_is_loopback(*self),
    {
        match *self {
            IpAddress::V4(x, _, _, _) => x == 127,
            IpAddress::V6(a0, a1, a2, a3, a4, a5, a6, a7) => a0 == 0 && a1 == 0 && a2 == 0 && a3 == 0 && a4 == 0
                && a5 == 0 && a6 == 0 && a7 == 1,
        }
    }
}

/// Version of the wire scaffold that the daemon banner reports.
pub const SCAFFOLD_VERSION: u32 = 0;

} // verus!
