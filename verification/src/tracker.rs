//! Anchor tracking: follows the terminal state that a byte stream sets up
//! (cursor, graphic rendition, DEC modes, character sets, window title) and
//! whether the stream currently stands at a point where it can be split.
//!
//! The byte-level escape-sequence grammar is decoded by `vte`; every event it
//! reports is handled by the verified transitions of [`TrackerState`].

use vstd::prelude::*;
use crate::proto::{
    clone_title, default_modes, default_sgr, AnchorState, CharsetState, Color, MouseMode, SgrAttrs,
    TerminalModes,
};

verus! {

// ---------------------------------------------------------------------------
// Arithmetic helpers on u16 cursor coordinates.

pub open spec fn sat_add16(a: u16, b: u16) -> u16 {
    if a + b > u16::MAX { u16::MAX } else { (a + b) as u16 }
}

pub open spec fn sat_sub16(a: u16, b: u16) -> u16 {
    if a >= b { (a - b) as u16 } else { 0 }
}

fn add16(a: u16, b: u16) -> (r: u16)
    ensures
        r == sat_add16(a, b),
{
    if a > u16::MAX - b { u16::MAX } else { a + b }
}

fn sub16(a: u16, b: u16) -> (r: u16)
    ensures
        r == sat_sub16(a, b),
{
    if a >= b { a - b } else { 0 }
}

/// Column position after a horizontal tab: the next multiple of eight.
pub open spec fn tab_stop(col: u16) -> u16 {
    if (col / 8 + 1) * 8 > u16::MAX { u16::MAX } else { ((col / 8 + 1) * 8) as u16 }
}

// ---------------------------------------------------------------------------
// Characters.

/// The Unicode control characters (general category Cc): U+0000..U+001F
/// and U+007F..U+009F.
pub open spec fn is_control_char(c: char) -> bool {
    (c as u32) <= 0x1f || (0x7f <= (c as u32) && (c as u32) <= 0x9f)
}

/// Columns taken by a printed character: one, or none for a control character.
pub open spec fn spec_char_width(c: char) -> u16 {
    if is_control_char(c) { 0 } else { 1 }
}

pub fn char_width(c: char) -> (r: u16)
    ensures
        r == spec_char_width(c),
{
    let code: u32 = c as u32;
    if code <= 0x1f || (0x7f <= code && code <= 0x9f) { 0 } else { 1 }
}

// ---------------------------------------------------------------------------
// CSI parameters, as groups of sub-parameters.

pub open spec fn groups_view(items: &Vec<Vec<u16>>) -> Seq<Seq<u16>> {
    items@.map_values(|g: Vec<u16>| g@)
}

/// Value of the first sub-parameter of group `k`, or `default` when the group
/// is missing, empty or zero.
pub open spec fn param_or(groups: Seq<Seq<u16>>, k: int, default: u16) -> u16 {
    if 0 <= k < groups.len() && groups[k].len() > 0 && groups[k][0] != 0 {
        groups[k][0]
    } else {
        default
    }
}

fn nth_param(items: &Vec<Vec<u16>>, k: usize, default: u16) -> (r: u16)
    ensures
        r == param_or(groups_view(items), k as int, default),
{
    if k < items.len() && items[k].len() > 0 && items[k][0] != 0 {
        items[k][0]
    } else {
        default
    }
}

/// First sub-parameter of a group, zero when the group is empty.
pub open spec fn code_of(group: Seq<u16>) -> u16 {
    if group.len() > 0 { group[0] } else { 0 }
}

pub open spec fn byte_of(v: u16) -> Option<u8> {
    if v <= 255 { Some(v as u8) } else { None }
}

pub open spec fn get_byte(g: Seq<u16>, i: int) -> Option<u8> {
    if 0 <= i < g.len() { byte_of(g[i]) } else { None }
}

/// Extended colour (`38`/`48` followed by `5;n` or `2;r;g;b`) starting at
/// group `index`, either with colon-separated sub-parameters inside the group
/// or spread over the following groups. The second component counts the
/// groups it used.
pub open spec fn extended_color(items: Seq<Seq<u16>>, index: int) -> Option<(Color, usize)> {
    if !(0 <= index < items.len()) {
        None
    } else {
        let cur = items[index];
        if cur.len() > 1 {
            if cur[1] == 5 {
                match get_byte(cur, 2) {
                    Some(v) => Some((Color::Indexed(v), 1usize)),
                    None => None,
                }
            } else if cur[1] == 2 {
                match (get_byte(cur, 2), get_byte(cur, 3), get_byte(cur, 4)) {
                    (Some(r), Some(g), Some(b)) => Some((Color::Rgb(r, g, b), 1usize)),
                    _ => None,
                }
            } else {
                None
            }
        } else if index + 1 < items.len() && items[index + 1].len() > 0 {
            let sel = items[index + 1][0];
            if sel == 5 {
                if index + 2 < items.len() && items[index + 2].len() > 0 {
                    match byte_of(items[index + 2][0]) {
                        Some(v) => Some((Color::Indexed(v), 3usize)),
                        None => None,
                    }
                } else {
                    None
                }
            } else if sel == 2 {
                if index + 4 < items.len() && items[index + 2].len() > 0 && items[index + 3].len()
                    > 0 && items[index + 4].len() > 0 {
                    match (
                        byte_of(items[index + 2][0]),
                        byte_of(items[index + 3][0]),
                        byte_of(items[index + 4][0]),
                    ) {
                        (Some(r), Some(g), Some(b)) => Some((Color::Rgb(r, g, b), 5usize)),
                        _ => None,
                    }
                } else {
                    None
                }
            } else {
                None
            }
        } else {
            None
        }
    }
}

fn to_byte(v: u16) -> (r: Option<u8>)
    ensures
        r == byte_of(v),
{
    if v <= 255 { Some(v as u8) } else { None }
}

fn group_byte(g: &Vec<u16>, i: usize) -> (r: Option<u8>)
    ensures
        r == get_byte(g@, i as int),
{
    if i < g.len() { to_byte(g[i]) } else { None }
}

pub fn parse_extended_color(items: &Vec<Vec<u16>>, index: usize) -> (r: Option<(Color, usize)>)
    ensures
        r == extended_color(groups_view(items), index as int),
{
    let ghost v = groups_view(items);
    if index >= items.len() {
        return None;
    }
    let cur = &items[index];
    assert(v[index as int] == cur@);
    if cur.len() > 1 {
        if cur[1] == 5 {
            match group_byte(cur, 2) {
                Some(b) => Some((Color::Indexed(b), 1)),
                None => None,
            }
        } else if cur[1] == 2 {
            let r = group_byte(cur, 2);
            let g = group_byte(cur, 3);
            let b = group_byte(cur, 4);
            match (r, g, b) {
                (Some(r), Some(g), Some(b)) => Some((Color::Rgb(r, g, b), 1)),
                _ => None,
            }
        } else {
            None
        }
    } else if index + 1 < items.len() && items[index + 1].len() > 0 {
        assert(v[index + 1] == items@[index + 1]@);
        let sel = items[index + 1][0];
        if sel == 5 {
            if index + 2 < items.len() && items[index + 2].len() > 0 {
                assert(v[index + 2] == items@[index + 2]@);
                match to_byte(items[index + 2][0]) {
                    Some(b) => Some((Color::Indexed(b), 3)),
                    None => None,
                }
            } else {
                None
            }
        } else if sel == 2 {
            if items.len() - index > 4 && items[index + 2].len() > 0 && items[index + 3].len() > 0
                && items[index + 4].len() > 0 {
                assert(v[index + 2] == items@[index + 2]@);
                assert(v[index + 3] == items@[index + 3]@);
                assert(v[index + 4] == items@[index + 4]@);
                let r = to_byte(items[index + 2][0]);
                let g = to_byte(items[index + 3][0]);
                let b = to_byte(items[index + 4][0]);
                match (r, g, b) {
                    (Some(r), Some(g), Some(b)) => Some((Color::Rgb(r, g, b), 5)),
                    _ => None,
                }
            } else {
                None
            }
        } else {
            None
        }
    } else {
        None
    }
}

// ---------------------------------------------------------------------------
// SGR.

/// Effect of one plain SGR code.
pub open spec fn sgr_code(a: SgrAttrs, code: u16) -> SgrAttrs {
    if code == 0 {
        default_sgr()
    } else if code == 1 {
        SgrAttrs { bold: true, ..a }
    } else if code == 2 {
        SgrAttrs { faint: true, ..a }
    } else if code == 3 {
        SgrAttrs { italic: true, ..a }
    } else if code == 4 {
        SgrAttrs { underline: true, ..a }
    } else if code == 5 {
        SgrAttrs { blink: true, ..a }
    } else if code == 7 {
        SgrAttrs { reverse: true, ..a }
    } else if code == 9 {
        SgrAttrs { strikethrough: true, ..a }
    } else if code == 21 || code == 22 {
        SgrAttrs { bold: false, faint: false, ..a }
    } else if code == 23 {
        SgrAttrs { italic: false, ..a }
    } else if code == 24 {
        SgrAttrs { underline: false, ..a }
    } else if code == 25 {
        SgrAttrs { blink: false, ..a }
    } else if code == 27 {
        SgrAttrs { reverse: false, ..a }
    } else if code == 29 {
        SgrAttrs { strikethrough: false, ..a }
    } else if 30 <= code <= 37 {
        SgrAttrs { fg: Some(Color::Palette((code - 30) as u8)), ..a }
    } else if code == 39 {
        SgrAttrs { fg: None, ..a }
    } else if 40 <= code <= 47 {
        SgrAttrs { bg: Some(Color::Palette((code - 40) as u8)), ..a }
    } else if code == 49 {
        SgrAttrs { bg: None, ..a }
    } else if 90 <= code <= 97 {
        SgrAttrs { fg: Some(Color::Palette((code - 82) as u8)), ..a }
    } else if 100 <= code <= 107 {
        SgrAttrs { bg: Some(Color::Palette((code - 92) as u8)), ..a }
    } else {
        a
    }
}

/// SGR groups from `index` on, applied in order to `a`.
pub open spec fn sgr_run(a: SgrAttrs, items: Seq<Seq<u16>>, index: int) -> SgrAttrs
    decreases items.len() - index,
{
    if index < 0 || index >= items.len() {
        a
    } else {
        let code = code_of(items[index]);
        if code == 38 || code == 48 {
            match extended_color(items, index) {
                Some(found) => {
                    let next = if code == 38 {
                        SgrAttrs { fg: Some(found.0), ..a }
                    } else {
                        SgrAttrs { bg: Some(found.0), ..a }
                    };
                    if found.1 >= 1 {
                        sgr_run(next, items, index + found.1)
                    } else {
                        next
                    }
                },
                None => sgr_run(a, items, index + 1),
            }
        } else {
            sgr_run(sgr_code(a, code), items, index + 1)
        }
    }
}

/// A CSI `m` sequence: no parameter at all resets, otherwise the groups apply in order.
pub open spec fn sgr_effect(a: SgrAttrs, items: Seq<Seq<u16>>) -> SgrAttrs {
    if items.len() == 0 { default_sgr() } else { sgr_run(a, items, 0) }
}

fn apply_sgr_code(a: SgrAttrs, code: u16) -> (r: SgrAttrs)
    ensures
        r == sgr_code(a, code),
{
    let mut s = a;
    if code == 0 {
        s = SgrAttrs::reset();
    } else if code == 1 {
        s.bold = true;
    } else if code == 2 {
        s.faint = true;
    } else if code == 3 {
        s.italic = true;
    } else if code == 4 {
        s.underline = true;
    } else if code == 5 {
        s.blink = true;
    } else if code == 7 {
        s.reverse = true;
    } else if code == 9 {
        s.strikethrough = true;
    } else if code == 21 || code == 22 {
        s.bold = false;
        s.faint = false;
    } else if code == 23 {
        s.italic = false;
    } else if code == 24 {
        s.underline = false;
    } else if code == 25 {
        s.blink = false;
    } else if code == 27 {
        s.reverse = false;
    } else if code == 29 {
        s.strikethrough = false;
    } else if 30 <= code && code <= 37 {
        s.fg = Some(Color::Palette((code - 30) as u8));
    } else if code == 39 {
        s.fg = None;
    } else if 40 <= code && code <= 47 {
        s.bg = Some(Color::Palette((code - 40) as u8));
    } else if code == 49 {
        s.bg = None;
    } else if 90 <= code && code <= 97 {
        s.fg = Some(Color::Palette((code - 82) as u8));
    } else if 100 <= code && code <= 107 {
        s.bg = Some(Color::Palette((code - 92) as u8));
    }
    s
}

pub fn apply_sgr(a: SgrAttrs, items: &Vec<Vec<u16>>) -> (r: SgrAttrs)
    ensures
        r == sgr_effect(a, groups_view(items)),
{
    let ghost v = groups_view(items);
    if items.len() == 0 {
        return SgrAttrs::reset();
    }
    let mut s = a;
    let mut index: usize = 0;
    while index < items.len()
        invariant
            v == groups_view(items),
            v.len() == items.len(),
            0 <= index,
            sgr_run(s, v, index as int) == sgr_run(a, v, 0),
        decreases items.len() - index,
    {
        assert(v[index as int] == items@[index as int]@);
        let code: u16 = if items[index].len() > 0 { items[index][0] } else { 0 };
        if code == 38 || code == 48 {
            match parse_extended_color(items, index) {
                Some(found) => {
                    if code == 38 {
                        s.fg = Some(found.0);
                    } else {
                        s.bg = Some(found.0);
                    }
                    index = if index > usize::MAX - found.1 { usize::MAX } else { index + found.1 };
                },
                None => {
                    index = index + 1;
                },
            }
        } else {
            s = apply_sgr_code(s, code);
            index = index + 1;
        }
    }
    s
}

// ---------------------------------------------------------------------------
// DEC private modes.

pub open spec fn mode_code(m: TerminalModes, code: u16, on: bool) -> TerminalModes {
    if code == 1 {
        TerminalModes { deccmm_cursor_keys: on, ..m }
    } else if code == 7 {
        TerminalModes { autowrap: on, ..m }
    } else if code == 1049 {
        TerminalModes { alt_screen: on, ..m }
    } else if code == 2004 {
        TerminalModes { bracketed_paste: on, ..m }
    } else if code == 9 {
        TerminalModes { mouse_reporting: if on { MouseMode::X10 } else { MouseMode::Off }, ..m }
    } else if code == 1000 {
        TerminalModes { mouse_reporting: if on { MouseMode::Normal } else { MouseMode::Off }, ..m }
    } else if code == 1002 {
        TerminalModes {
            mouse_reporting: if on { MouseMode::ButtonEvent } else { MouseMode::Off },
            ..m
        }
    } else if code == 1003 {
        TerminalModes {
            mouse_reporting: if on { MouseMode::AnyEvent } else { MouseMode::Off },
            ..m
        }
    } else if code == 6 {
        TerminalModes { origin_mode: on, ..m }
    } else {
        m
    }
}

/// The first `k` groups applied in order.
pub open spec fn modes_run(m: TerminalModes, items: Seq<Seq<u16>>, on: bool, k: int) -> TerminalModes
    decreases k,
{
    if k <= 0 || k > items.len() {
        m
    } else {
        mode_code(modes_run(m, items, on, k - 1), code_of(items[k - 1]), on)
    }
}

/// `CSI ? ... h` / `CSI ? ... l`: only the private marker `?` selects DEC modes.
pub open spec fn modes_effect(m: TerminalModes, items: Seq<Seq<u16>>, intermediates: Seq<u8>, on: bool) -> TerminalModes {
    if intermediates == seq![63u8] {
        modes_run(m, items, on, items.len() as int)
    } else {
        m
    }
}

fn apply_mode_code(m: TerminalModes, code: u16, on: bool) -> (r: TerminalModes)
    ensures
        r == mode_code(m, code, on),
{
    let mut s = m;
    if code == 1 {
        s.deccmm_cursor_keys = on;
    } else if code == 7 {
        s.autowrap = on;
    } else if code == 1049 {
        s.alt_screen = on;
    } else if code == 2004 {
        s.bracketed_paste = on;
    } else if code == 9 {
        s.mouse_reporting = if on { MouseMode::X10 } else { MouseMode::Off };
    } else if code == 1000 {
        s.mouse_reporting = if on { MouseMode::Normal } else { MouseMode::Off };
    } else if code == 1002 {
        s.mouse_reporting = if on { MouseMode::ButtonEvent } else { MouseMode::Off };
    } else if code == 1003 {
        s.mouse_reporting = if on { MouseMode::AnyEvent } else { MouseMode::Off };
    } else if code == 6 {
        s.origin_mode = on;
    }
    s
}

pub fn apply_modes(m: TerminalModes, items: &Vec<Vec<u16>>, intermediates: &[u8], on: bool) -> (r: TerminalModes)
    ensures
        r == modes_effect(m, groups_view(items), intermediates@, on),
{
    let ghost v = groups_view(items);
    if !(intermediates.len() == 1 && intermediates[0] == 63u8) {
        assert(intermediates@ != seq![63u8]) by {
            if intermediates@ == seq![63u8] {
                assert(intermediates@.len() == 1);
                assert(intermediates@[0] == 63u8);
            }
        }
        return m;
    }
    assert(intermediates@ =~= seq![63u8]);
    let mut s = m;
    let mut k: usize = 0;
    while k < items.len()
        invariant
            v == groups_view(items),
            v.len() == items.len(),
            k <= items.len(),
            s == modes_run(m, v, on, k as int),
        decreases items.len() - k,
    {
        assert(v[k as int] == items@[k as int]@);
        let code: u16 = if items[k].len() > 0 { items[k][0] } else { 0 };
        s = apply_mode_code(s, code, on);
        k = k + 1;
    }
    s
}

// ---------------------------------------------------------------------------
// OSC window title.

/// The groups joined with `;` between them.
pub open spec fn join_semicolon(parts: Seq<Seq<u8>>) -> Seq<u8>
    decreases parts.len(),
{
    if parts.len() == 0 {
        Seq::empty()
    } else if parts.len() == 1 {
        parts[0]
    } else {
        join_semicolon(parts.drop_last()) + seq![59u8] + parts.last()
    }
}

pub open spec fn osc_parts(params: &[&[u8]]) -> Seq<Seq<u8>> {
    params@.map_values(|p: &[u8]| p@)
}

/// The title set by `OSC 0` or `OSC 2`: the remaining parameters joined by
/// `;`, when they form valid UTF-8.
pub open spec fn osc_title(parts: Seq<Seq<u8>>) -> Option<Seq<char>> {
    if parts.len() == 0 {
        None
    } else if parts[0] != seq![48u8] && parts[0] != seq![50u8] {
        None
    } else {
        let raw = join_semicolon(parts.skip(1));
        if vstd::utf8::valid_utf8(raw) { Some(vstd::utf8::decode_utf8(raw)) } else { None }
    }
}

/// `String::from_utf8`, keeping the string only when the bytes are valid UTF-8.
#[verifier::external_body]
fn utf8_string(bytes: Vec<u8>) -> (r: Option<String>)
    ensures
        r is Some <==> vstd::utf8::valid_utf8(bytes@),
        r is Some ==> r->0@ == vstd::utf8::decode_utf8(bytes@),
{
    String::from_utf8(bytes).ok()
}

fn is_title_selector(p: &[u8]) -> (r: bool)
    ensures
        r == (p@ == seq![48u8] || p@ == seq![50u8]),
{
    if p.len() == 1 && (p[0] == 48u8 || p[0] == 50u8) {
        assert(p@ =~= seq![p[0]]);
        true
    } else {
        assert(p@ != seq![48u8]) by {
            if p@ == seq![48u8] { assert(p@.len() == 1 && p@[0] == 48u8); }
        }
        assert(p@ != seq![50u8]) by {
            if p@ == seq![50u8] { assert(p@.len() == 1 && p@[0] == 50u8); }
        }
        false
    }
}

pub fn parse_osc_title(params: &[&[u8]]) -> (r: Option<String>)
    ensures
        r is Some <==> osc_title(osc_parts(params)) is Some,
        r is Some ==> r->0@ == osc_title(osc_parts(params))->0,
{
    let ghost parts = osc_parts(params);
    if params.len() == 0 {
        return None;
    }
    assert(parts[0] == params@[0]@);
    if !is_title_selector(params[0]) {
        return None;
    }
    let ghost tail = parts.skip(1);
    let mut raw: Vec<u8> = Vec::new();
    let mut index: usize = 1;
    while index < params.len()
        invariant
            parts == osc_parts(params),
            tail == parts.skip(1),
            parts.len() == params@.len(),
            1 <= index <= params.len(),
            raw@ == join_semicolon(tail.take(index - 1)),
        decreases params.len() - index,
    {
        let part = params[index];
        assert(parts[index as int] == part@);
        if index != 1 {
            raw.push(59u8);
        }
        let ghost before = raw@;
        let mut j: usize = 0;
        while j < part.len()
            invariant
                j <= part@.len(),
                raw@ == before + part@.take(j as int),
            decreases part.len() - j,
        {
            raw.push(part[j]);
            assert(part@.take(j + 1) =~= part@.take(j as int).push(part@[j as int]));
            j = j + 1;
        }
        assert(part@.take(part@.len() as int) =~= part@);
        proof {
            let t1 = tail.take(index as int);
            assert(t1.drop_last() =~= tail.take(index - 1));
            assert(t1.last() == part@);
            if index == 1 {
                assert(tail.take(0) =~= Seq::<Seq<u8>>::empty());
                assert(t1.len() == 1);
            }
        }
        index = index + 1;
    }
    assert(tail.take(params.len() - 1) =~= tail);
    utf8_string(raw)
}

// ---------------------------------------------------------------------------
// The tracker state and its transitions.

/// What the tracker knows at a stream position.
pub struct TrackerState {
    pub cursor_row: u16,
    pub cursor_col: u16,
    pub sgr: SgrAttrs,
    pub modes: TerminalModes,
    pub charset: CharsetState,
    pub title: Option<String>,
    pub at_safe_split: bool,
}

/// The cursor and rendition state, apart from the title and the split flag,
/// left as it was.
pub open spec fn same_render(s: TrackerState, t: TrackerState) -> bool {
    &&& t.cursor_row == s.cursor_row
    &&& t.cursor_col == s.cursor_col
    &&& t.sgr == s.sgr
    &&& t.modes == s.modes
    &&& t.charset == s.charset
}

/// A printable character advances the cursor by its width.
pub open spec fn print_step(s: TrackerState, t: TrackerState, c: char) -> bool {
    &&& t.cursor_col == sat_add16(s.cursor_col, spec_char_width(c))
    &&& t.cursor_row == s.cursor_row
    &&& t.sgr == s.sgr
    &&& t.modes == s.modes
    &&& t.charset == s.charset
    &&& t.title == s.title
    &&& t.at_safe_split
}

/// Where a C0 control moves the cursor (row, column).
pub open spec fn execute_cursor(row: u16, col: u16, byte: u8) -> (u16, u16) {
    if byte == 10 {
        (sat_add16(row, 1), 0u16)
    } else if byte == 13 {
        (row, 0u16)
    } else if byte == 8 {
        (row, sat_sub16(col, 1))
    } else if byte == 9 {
        (row, tab_stop(col))
    } else {
        (row, col)
    }
}

/// A C0 control moves the cursor and leaves the rest.
pub open spec fn execute_step(s: TrackerState, t: TrackerState, byte: u8) -> bool {
    &&& (t.cursor_row, t.cursor_col) == execute_cursor(s.cursor_row, s.cursor_col, byte)
    &&& t.sgr == s.sgr
    &&& t.modes == s.modes
    &&& t.charset == s.charset
    &&& t.title == s.title
    &&& t.at_safe_split
}

/// Inside a device control string: nothing changes but the split flag, which
/// is cleared.
pub open spec fn hook_step(s: TrackerState, t: TrackerState) -> bool {
    &&& same_render(s, t)
    &&& t.title == s.title
    &&& !t.at_safe_split
}

/// The end of a device control string: nothing changes but the split flag,
/// which is set.
pub open spec fn unhook_step(s: TrackerState, t: TrackerState) -> bool {
    &&& same_render(s, t)
    &&& t.title == s.title
    &&& t.at_safe_split
}

/// An operating system command sets the title when it names one.
pub open spec fn osc_step(s: TrackerState, t: TrackerState, parts: Seq<Seq<u8>>) -> bool {
    &&& osc_title(parts) is Some ==> t.title is Some && t.title->0@ == osc_title(parts)->0
    &&& osc_title(parts) is None ==> t.title == s.title
    &&& same_render(s, t)
    &&& t.at_safe_split
}

/// An escape sequence; `ESC ( x`, `ESC ) x`, `ESC * x`, `ESC + x` designate
/// the G0..G3 character sets.
pub open spec fn esc_step(s: TrackerState, t: TrackerState, intermediates: Seq<u8>, byte: u8) -> bool {
    &&& t.charset.g@ == (if intermediates.len() == 1 && 40 <= intermediates[0] <= 43 {
        s.charset.g@.update(intermediates[0] - 40, byte)
    } else {
        s.charset.g@
    })
    &&& t.cursor_row == s.cursor_row
    &&& t.cursor_col == s.cursor_col
    &&& t.sgr == s.sgr
    &&& t.modes == s.modes
    &&& t.title == s.title
    &&& t.at_safe_split
}

/// Where a control sequence moves the cursor (row, column).
pub open spec fn csi_cursor(row: u16, col: u16, g: Seq<Seq<u16>>, action: char) -> (u16, u16) {
    let n = param_or(g, 0, 1);
    if action == 'H' || action == 'f' {
        (sat_sub16(n, 1), sat_sub16(param_or(g, 1, 1), 1))
    } else if action == 'A' {
        (sat_sub16(row, n), col)
    } else if action == 'B' {
        (sat_add16(row, n), col)
    } else if action == 'C' {
        (row, sat_add16(col, n))
    } else if action == 'D' {
        (row, sat_sub16(col, n))
    } else if action == 'E' {
        (sat_add16(row, n), 0u16)
    } else if action == 'F' {
        (sat_sub16(row, n), 0u16)
    } else if action == 'G' {
        (row, sat_sub16(n, 1))
    } else if action == 'd' {
        (sat_sub16(n, 1), col)
    } else {
        (row, col)
    }
}

/// A control sequence: SGR, cursor movement and DEC private modes.
pub open spec fn csi_step(
    s: TrackerState,
    t: TrackerState,
    g: Seq<Seq<u16>>,
    intermediates: Seq<u8>,
    action: char,
) -> bool {
    &&& t.at_safe_split
    &&& t.charset == s.charset
    &&& t.title == s.title
    &&& t.sgr == (if action == 'm' { sgr_effect(s.sgr, g) } else { s.sgr })
    &&& t.modes == (if action == 'h' {
        modes_effect(s.modes, g, intermediates, true)
    } else if action == 'l' {
        modes_effect(s.modes, g, intermediates, false)
    } else {
        s.modes
    })
    &&& (t.cursor_row, t.cursor_col) == csi_cursor(s.cursor_row, s.cursor_col, g, action)
}

/// An event that the escape-sequence parser reports, as plain values:
/// what the matching `vte::Perform` method receives and acts on.
pub enum ParserEvent {
    Print(char),
    Execute(u8),
    Hook,
    Put(u8),
    Unhook,
    Osc(Seq<Seq<u8>>),
    Csi(Seq<Seq<u16>>, Seq<u8>, char),
    Esc(Seq<u8>, u8),
}

/// Handling event `e` takes the state `s` to `t`.
pub open spec fn event_effect(s: TrackerState, t: TrackerState, e: ParserEvent) -> bool {
    match e {
        ParserEvent::Print(c) => print_step(s, t, c),
        ParserEvent::Execute(b) => execute_step(s, t, b),
        ParserEvent::Hook => hook_step(s, t),
        ParserEvent::Put(_) => hook_step(s, t),
        ParserEvent::Unhook => unhook_step(s, t),
        ParserEvent::Osc(parts) => osc_step(s, t, parts),
        ParserEvent::Csi(g, inter, action) => csi_step(s, t, g, inter, action),
        ParserEvent::Esc(inter, b) => esc_step(s, t, inter, b),
    }
}

/// `trace` runs from its first state to its last by handling `events` in order.
pub open spec fn event_trace(trace: Seq<TrackerState>, events: Seq<ParserEvent>) -> bool {
    &&& trace.len() == events.len() + 1
    &&& forall|i: int| 0 <= i < events.len() ==> #[trigger] event_effect(trace[i], trace[i + 1], events[i])
}

/// Handling `events` in order takes the state `s` to `t`.
pub open spec fn events_apply(s: TrackerState, events: Seq<ParserEvent>, t: TrackerState) -> bool {
    exists|trace: Seq<TrackerState>|
        #[trigger] event_trace(trace, events) && trace[0] == s && trace.last() == t
}

/// The events that a `vte` parser made by `vte::Parser::new` and fed the
/// bytes `fed` reports when it is then fed `byte`.
pub uninterp spec fn vte_events(fed: Seq<u8>, byte: u8) -> Seq<ParserEvent>;

/// The state with the split flag cleared, everything else kept.
pub open spec fn split_cleared(s: TrackerState) -> TrackerState {
    TrackerState { at_safe_split: false, ..s }
}

/// `states` are the tracker states before and after each byte of `bytes`,
/// fed in turn to a parser that had been fed `fed` before: each byte clears
/// the split flag, then the events the parser reports for it are handled.
pub open spec fn fed_run(states: Seq<TrackerState>, fed: Seq<u8>, bytes: Seq<u8>) -> bool {
    &&& states.len() == bytes.len() + 1
    &&& forall|k: int|
        0 <= k < bytes.len() ==> #[trigger] events_apply(
            split_cleared(states[k]),
            vte_events(fed + bytes.take(k), bytes[k]),
            states[k + 1],
        )
}

/// Law: a cursor position sequence `CSI r ; c H` (or `f`) puts the cursor on
/// row `r - 1` and column `c - 1` (the parameters are 1-based, the tracked
/// position 0-based; a zero parameter counts as 1), whatever the cursor was
/// before; a missing column parameter means column 1.
pub proof fn lemma_cursor_position(
    s: TrackerState,
    t: TrackerState,
    r: u16,
    c: u16,
    inter: Seq<u8>,
    action: char,
)
    requires
        action == 'H' || action == 'f',
    ensures
        csi_step(s, t, seq![seq![r], seq![c]], inter, action) ==> t.cursor_row == (if r == 0 { 0 } else { r - 1 })
            && t.cursor_col == (if c == 0 { 0 } else { c - 1 }),
        csi_step(s, t, seq![seq![r]], inter, action) ==> t.cursor_row == (if r == 0 { 0 } else { r - 1 })
            && t.cursor_col == 0,
        csi_step(s, t, Seq::<Seq<u16>>::empty(), inter, action) ==> t.cursor_row == 0 && t.cursor_col == 0,
{
}

/// Law: each DEC private mode the tracker follows is switched by its own
/// code: `CSI ? n h` turns it on and `CSI ? n l` off (1: cursor keys, 7:
/// autowrap, 1049: alternate screen, 2004: bracketed paste, 6: origin mode;
/// 9, 1000, 1002, 1003: X10, normal, button-event and any-event mouse
/// reporting, off again with `l`). The other modes stay as they were, and
/// without the `?` marker nothing changes.
pub proof fn lemma_dec_private_mode(s: TrackerState, t: TrackerState, n: u16, on: bool, inter: Seq<u8>)
    requires
        csi_step(s, t, seq![seq![n]], inter, if on { 'h' } else { 'l' }),
    ensures
        inter != seq![63u8] ==> t.modes == s.modes,
        inter == seq![63u8] ==> {
            &&& n == 1 ==> t.modes.deccmm_cursor_keys == on
            &&& n == 7 ==> t.modes.autowrap == on
            &&& n == 1049 ==> t.modes.alt_screen == on
            &&& n == 2004 ==> t.modes.bracketed_paste == on
            &&& n == 6 ==> t.modes.origin_mode == on
            &&& n == 9 ==> t.modes.mouse_reporting == (if on { MouseMode::X10 } else { MouseMode::Off })
            &&& n == 1000 ==> t.modes.mouse_reporting == (if on { MouseMode::Normal } else { MouseMode::Off })
            &&& n == 1002 ==> t.modes.mouse_reporting == (if on { MouseMode::ButtonEvent } else { MouseMode::Off })
            &&& n == 1003 ==> t.modes.mouse_reporting == (if on { MouseMode::AnyEvent } else { MouseMode::Off })
            &&& n != 1 ==> t.modes.deccmm_cursor_keys == s.modes.deccmm_cursor_keys
            &&& n != 7 ==> t.modes.autowrap == s.modes.autowrap
            &&& n != 1049 ==> t.modes.alt_screen == s.modes.alt_screen
            &&& n != 2004 ==> t.modes.bracketed_paste == s.modes.bracketed_paste
            &&& n != 6 ==> t.modes.origin_mode == s.modes.origin_mode
            &&& n != 9 && n != 1000 && n != 1002 && n != 1003 ==> t.modes.mouse_reporting
                == s.modes.mouse_reporting
        },
        t.cursor_row == s.cursor_row && t.cursor_col == s.cursor_col,
        t.sgr == s.sgr,
{
    let g = seq![seq![n]];
    assert(code_of(g[0]) == n);
    assert(modes_run(s.modes, g, on, 0) == s.modes);
    assert(modes_run(s.modes, g, on, 1) == mode_code(s.modes, n, on));
}

/// Whether handling `e` leaves the stream at a safe split point: every event
/// does but a DCS hook or put (inside a device control string).
pub open spec fn ends_at_split(e: ParserEvent) -> bool {
    !(e is Hook || e is Put)
}

/// Law: after a byte is fed, the stream is at a safe split point exactly
/// when the byte completed at least one event and the last of them was not
/// a DCS hook or put; a byte that completes nothing (such as the start of
/// an escape sequence) leaves it not splittable.
pub proof fn lemma_split_after_byte(s: TrackerState, events: Seq<ParserEvent>, t: TrackerState)
    requires
        events_apply(split_cleared(s), events, t),
    ensures
        t.at_safe_split <==> (events.len() > 0 && ends_at_split(events.last())),
{
    let trace = choose|trace: Seq<TrackerState>|
        #[trigger] event_trace(trace, events) && trace[0] == split_cleared(s) && trace.last() == t;
    if events.len() > 0 {
        let i = events.len() - 1;
        assert(event_effect(trace[i], trace[i + 1], events[i]));
        assert(trace[i + 1] == t);
    }
}

/// Law: feeding bytes in two pieces is feeding them at once: a run over
/// `a` followed by a run over `b` (from where the first ended, with `a`
/// fed in the meantime) is a run over `a + b`.
pub proof fn lemma_fed_run_concat(
    s1: Seq<TrackerState>,
    s2: Seq<TrackerState>,
    fed: Seq<u8>,
    a: Seq<u8>,
    b: Seq<u8>,
)
    requires
        fed_run(s1, fed, a),
        fed_run(s2, fed + a, b),
        s1.last() == s2[0],
    ensures
        fed_run(s1 + s2.drop_first(), fed, a + b),
        (s1 + s2.drop_first())[0] == s1[0],
        (s1 + s2.drop_first()).last() == s2.last(),
{
    let st = s1 + s2.drop_first();
    let n = a.len() as int;
    assert forall|k: int| 0 <= k < (a + b).len() implies #[trigger] events_apply(
        split_cleared(st[k]),
        vte_events(fed + (a + b).take(k), (a + b)[k]),
        st[k + 1],
    ) by {
        if k < n {
            assert(st[k] == s1[k]);
            assert(st[k + 1] == s1[k + 1]);
            assert((a + b).take(k) =~= a.take(k));
            assert((a + b)[k] == a[k]);
            assert(events_apply(split_cleared(s1[k]), vte_events(fed + a.take(k), a[k]), s1[k + 1]));
        } else {
            let k2 = k - n;
            if k == n {
                assert(st[k] == s1.last());
            } else {
                assert(st[k] == s2[k2]);
            }
            assert(st[k + 1] == s2[k2 + 1]);
            assert(fed + (a + b).take(k) =~= (fed + a) + b.take(k2));
            assert((a + b)[k] == b[k2]);
            assert(events_apply(split_cleared(s2[k2]), vte_events((fed + a) + b.take(k2), b[k2]), s2[k2 + 1]));
        }
    }
    if s2.len() == 1 {
        assert(st =~= s1);
    }
}

impl TrackerState {
    /// Cursor at the origin, default rendition and modes, no title; a fresh
    /// stream is splittable.
    pub fn new() -> (r: TrackerState)
        ensures
            r.cursor_row == 0,
            r.cursor_col == 0,
            r.sgr == default_sgr(),
            r.modes == default_modes(),
            r.charset.g@ == seq![0u8, 0u8, 0u8, 0u8],
            r.title is None,
            r.at_safe_split,
    {
        let r = TrackerState {
            cursor_row: 0,
            cursor_col: 0,
            sgr: SgrAttrs::reset(),
            modes: TerminalModes::reset(),
            charset: CharsetState { g: [0u8; 4] },
            title: None,
            at_safe_split: true,
        };
        assert(r.charset.g@ =~= seq![0u8, 0u8, 0u8, 0u8]);
        r
    }

    /// A printable character advances the cursor by its width.
    pub fn on_print(&mut self, c: char)
        ensures
            print_step(*old(self), *final(self), c),
    {
        let w = char_width(c);
        self.cursor_col = add16(self.cursor_col, w);
        self.at_safe_split = true;
    }

    /// C0 controls: line feed, carriage return, backspace and tab move the cursor.
    pub fn on_execute(&mut self, byte: u8)
        ensures
            execute_step(*old(self), *final(self), byte),
    {
        if byte == 10 {
            self.cursor_row = add16(self.cursor_row, 1);
            self.cursor_col = 0;
        } else if byte == 13 {
            self.cursor_col = 0;
        } else if byte == 8 {
            self.cursor_col = sub16(self.cursor_col, 1);
        } else if byte == 9 {
            let stop: u32 = ((self.cursor_col / 8) as u32 + 1) * 8;
            self.cursor_col = if stop > 65535 { u16::MAX } else { stop as u16 };
        }
        self.at_safe_split = true;
    }

    /// Inside a device control string the stream cannot be split.
    pub fn on_hook(&mut self)
        ensures
            hook_step(*old(self), *final(self)),
    {
        self.at_safe_split = false;
    }

    /// The end of a device control string is a split point again.
    pub fn on_unhook(&mut self)
        ensures
            unhook_step(*old(self), *final(self)),
    {
        self.at_safe_split = true;
    }

    /// An operating system command; `OSC 0`/`OSC 2` set the window title.
    pub fn on_osc(&mut self, params: &[&[u8]])
        ensures
            osc_step(*old(self), *final(self), osc_parts(params)),
    {
        let t = parse_osc_title(params);
        if t.is_some() {
            self.title = t;
        }
        self.at_safe_split = true;
    }

    /// Escape sequences; `ESC ( x`, `ESC ) x`, `ESC * x`, `ESC + x` designate
    /// the G0..G3 character sets.
    pub fn on_esc(&mut self, intermediates: &[u8], byte: u8)
        ensures
            esc_step(*old(self), *final(self), intermediates@, byte),
    {
        if intermediates.len() == 1 {
            let marker = intermediates[0];
            if 40 <= marker && marker <= 43 {
                let idx: usize = (marker - 40) as usize;
                let mut g = self.charset.g;
                g[idx] = byte;
                self.charset = CharsetState { g };
            }
        }
        self.at_safe_split = true;
    }

    /// A control sequence: SGR, cursor movement and DEC private modes.
    pub fn on_csi(&mut self, items: &Vec<Vec<u16>>, intermediates: &[u8], action: char)
        ensures
            csi_step(*old(self), *final(self), groups_view(items), intermediates@, action),
    {
        let n = nth_param(items, 0, 1);
        if action == 'm' {
            self.sgr = apply_sgr(self.sgr, items);
        } else if action == 'H' || action == 'f' {
            let c = nth_param(items, 1, 1);
            self.cursor_row = sub16(n, 1);
            self.cursor_col = sub16(c, 1);
        } else if action == 'A' {
            self.cursor_row = sub16(self.cursor_row, n);
        } else if action == 'B' {
            self.cursor_row = add16(self.cursor_row, n);
        } else if action == 'C' {
            self.cursor_col = add16(self.cursor_col, n);
        } else if action == 'D' {
            self.cursor_col = sub16(self.cursor_col, n);
        } else if action == 'E' {
            self.cursor_row = add16(self.cursor_row, n);
            self.cursor_col = 0;
        } else if action == 'F' {
            self.cursor_row = sub16(self.cursor_row, n);
            self.cursor_col = 0;
        } else if action == 'G' {
            self.cursor_col = sub16(n, 1);
        } else if action == 'd' {
            self.cursor_row = sub16(n, 1);
        } else if action == 'h' {
            self.modes = apply_modes(self.modes, items, intermediates, true);
        } else if action == 'l' {
            self.modes = apply_modes(self.modes, items, intermediates, false);
        }
        self.at_safe_split = true;
    }

    /// The render state recorded at an anchor.
    pub fn snapshot_state(&self) -> (r: AnchorState)
        ensures
            r.cursor == (self.cursor_col, self.cursor_row),
            r.sgr == self.sgr,
            r.modes == self.modes,
            r.charset == self.charset,
            r.title is Some <==> self.title is Some,
            r.title is Some ==> r.title->0@ == self.title->0@,
    {
        AnchorState {
            cursor: (self.cursor_col, self.cursor_row),
            sgr: self.sgr,
            modes: self.modes,
            charset: self.charset,
            title: clone_title(&self.title),
        }
    }
}

// ---------------------------------------------------------------------------
// The `vte` parser drives the transitions above.

#[verifier::external_type_specification]
#[verifier::external_body]
pub struct ExVteParser<const N: usize>(vte::Parser<N>);

#[verifier::external_type_specification]
#[verifier::external_body]
pub struct ExVteParams(vte::Params);

/// `Params::iter`, each group (a parameter followed by its colon
/// sub-parameters) copied out. Nothing is claimed of the groups here: the
/// groups the parser reports with a control sequence are part of what
/// [`vte_events`] names.
#[verifier::external_body]
fn param_groups(p: &vte::Params) -> Vec<Vec<u16>> {
    p.iter().map(|g| g.to_vec()).collect()
}

/// `vte::Parser::new`: a parser in the ground state.
#[verifier::external_body]
fn vte_parser_new() -> vte::Parser<1024> {
    vte::Parser::new()
}

/// `vte::Parser::advance`: feeds one byte to the tracker's parser, which
/// reports the events the byte completes to the tracker state. The parser
/// reaches the state only through the `vte::Perform` methods implemented
/// below, and what it reports depends only on the bytes fed to it since
/// `vte::Parser::new` (kept in `fed`), so the state after the call is the
/// state before with [`vte_events`] of those bytes and `byte` handled in
/// order; `fed` grows by `byte`.
#[verifier::external_body]
fn vte_advance(tracker: &mut AnchorTracker, byte: u8)
    ensures
        final(tracker).fed() == old(tracker).fed().push(byte),
        events_apply(*old(tracker).view_state(), vte_events(old(tracker).fed(), byte), *final(tracker).view_state()),
{
    tracker.parser.advance(&mut tracker.state, byte);
}

impl vte::Perform for TrackerState {
    fn print(&mut self, c: char)
        ensures
            print_step(*old(self), *final(self), c),
    {
        self.on_print(c);
    }

    fn execute(&mut self, byte: u8)
        ensures
            execute_step(*old(self), *final(self), byte),
    {
        self.on_execute(byte);
    }

    fn hook(&mut self, _params: &vte::Params, _intermediates: &[u8], _ignore: bool, _action: char)
        ensures
            hook_step(*old(self), *final(self)),
    {
        self.on_hook();
    }

    fn put(&mut self, _byte: u8)
        ensures
            hook_step(*old(self), *final(self)),
    {
        self.on_hook();
    }

    fn unhook(&mut self)
        ensures
            unhook_step(*old(self), *final(self)),
    {
        self.on_unhook();
    }

    fn osc_dispatch(&mut self, params: &[&[u8]], _bell_terminated: bool)
        ensures
            osc_step(*old(self), *final(self), osc_parts(params)),
    {
        self.on_osc(params);
    }

    fn csi_dispatch(&mut self, params: &vte::Params, intermediates: &[u8], _ignore: bool, action: char)
        ensures
            exists|g: Seq<Seq<u16>>| #[trigger] csi_step(*old(self), *final(self), g, intermediates@, action),
    {
        let groups = param_groups(params);
        self.on_csi(&groups, intermediates, action);
    }

    fn esc_dispatch(&mut self, intermediates: &[u8], _ignore: bool, byte: u8)
        ensures
            esc_step(*old(self), *final(self), intermediates@, byte),
    {
        self.on_esc(intermediates, byte);
    }
}

/// Follows a terminal byte stream and reports the render state at any point.
pub struct AnchorTracker {
    parser: vte::Parser<1024>,
    state: TrackerState,
    fed: Ghost<Seq<u8>>,
}

impl AnchorTracker {
    pub closed spec fn view_state(&self) -> &TrackerState {
        &self.state
    }

    /// The bytes fed to the parser since it was made.
    pub closed spec fn fed(&self) -> Seq<u8> {
        self.fed@
    }

    /// A tracker at the start of a stream: cursor at the origin, default
    /// rendition, splittable.
    pub fn new() -> (r: AnchorTracker)
        ensures
            r.view_state().cursor_row == 0,
            r.view_state().cursor_col == 0,
            r.view_state().sgr == default_sgr(),
            r.view_state().modes == default_modes(),
            r.view_state().charset.g@ == seq![0u8, 0u8, 0u8, 0u8],
            r.view_state().title is None,
            r.view_state().at_safe_split,
            r.fed() == Seq::<u8>::empty(),
    {
        AnchorTracker { parser: vte_parser_new(), state: TrackerState::new(), fed: Ghost(Seq::empty()) }
    }

    /// Feeds bytes through the escape-sequence parser. Each byte first marks
    /// the stream as not splittable; the events it completes may mark it
    /// splittable again.
    pub fn advance(&mut self, bytes: &[u8])
        ensures
            final(self).fed() == old(self).fed() + bytes@,
            exists|states: Seq<TrackerState>|
                #[trigger] fed_run(states, old(self).fed(), bytes@) && states[0] == *old(self).view_state()
                    && states.last() == *final(self).view_state(),
    {
        let ghost mut states: Seq<TrackerState> = seq![self.state];
        let mut i: usize = 0;
        while i < bytes.len()
            invariant
                i <= bytes.len(),
                states.len() == i + 1,
                states[0] == *old(self).view_state(),
                states.last() == self.state,
                self.fed@ == old(self).fed() + bytes@.take(i as int),
                forall|k: int|
                    0 <= k < i ==> #[trigger] events_apply(
                        split_cleared(states[k]),
                        vte_events(old(self).fed() + bytes@.take(k), bytes@[k]),
                        states[k + 1],
                    ),
            decreases bytes.len() - i,
        {
            let ghost before = self.state;
            self.state.at_safe_split = false;
            assert(self.state == split_cleared(before));
            vte_advance(self, bytes[i]);
            proof {
                let prev = states;
                states = states.push(self.state);
                assert(old(self).fed() + bytes@.take(i + 1) =~= (old(self).fed() + bytes@.take(i as int)).push(bytes@[i as int]));
                assert forall|k: int| 0 <= k < i + 1 implies #[trigger] events_apply(
                    split_cleared(states[k]),
                    vte_events(old(self).fed() + bytes@.take(k), bytes@[k]),
                    states[k + 1],
                ) by {
                    if k < i {
                        assert(states[k] == prev[k]);
                        assert(states[k + 1] == prev[k + 1]);
                    } else {
                        assert(states[k] == before);
                    }
                }
            }
            i = i + 1;
        }
        assert(bytes@.take(bytes@.len() as int) =~= bytes@);
        assert(fed_run(states, old(self).fed(), bytes@));
    }

    /// Whether the bytes fed so far end at a point where a replay can start.
    pub fn is_at_safe_split(&self) -> (r: bool)
        ensures
            r == self.view_state().at_safe_split,
    {
        self.state.at_safe_split
    }

    /// The render state after the bytes fed so far.
    pub fn snapshot_state(&self) -> (r: AnchorState)
        ensures
            r.cursor == (self.view_state().cursor_col, self.view_state().cursor_row),
            r.sgr == self.view_state().sgr,
            r.modes == self.view_state().modes,
            r.charset == self.view_state().charset,
            r.title is Some <==> self.view_state().title is Some,
            r.title is Some ==> r.title->0@ == self.view_state().title->0@,
    {
        self.state.snapshot_state()
    }
}

} // verus!
