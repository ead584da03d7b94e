//! Daemon configuration: its sections and defaults, where the daemon keeps
//! its state files, the relay websocket URLs, and the pairing offer URL
//! that a client opens to pair with this daemon.
//!
//! Paths are text; the caller supplies what the environment holds (the
//! home directory) and does the file I/O.

use vstd::prelude::*;
use base64::Engine;
use crate::daemon_error::DaemonError;
use crate::proto::{IpAddress, ServerId};
use crate::text::{
    has_prefix, hex_char, hex_decode, hex_decoded, hex_encode, hex_of_bytes, hyphenated, trim_end_char,
    trim_ws, trimmed, trimmed_end, uuid_text,
};

verus! {

/// Where the app that opens pairing links lives, unless configured.
pub const DEFAULT_APP_BASE_URL: &'static str = "https://cli-pocket.32r4.asia";

/// Name of the per-user state directory (under the home directory).
pub const STATE_DIR_NAME: &'static str = ".cli-pocket";

/// The development config file, whose state lives in the work tree.
pub const DEV_CONFIG_PATH: &'static str = "crates/server/daemon-bin/daemon.dev.toml";

/// State directory used with the development config.
pub const DEV_STATE_DIR: &'static str = ".cache/cli-pocket-daemon-dev";

/// Built-in configuration template, written to disk when no config exists.
pub const BUILD_CONFIG_TEMPLATE: &'static str = "[listen]\naddr = \"127.0.0.1\"\nport = 7447\n\n[relay]\nbase_url = \"wss://relay.cli-pocket.32r4.asia\"\npsk_hex = \"\"\n\n[relay.retry]\ninitial_ms = 500\nmax_ms = 30000\nmul_x10 = 20\n\n[app]\nbase_url = \"https://cli-pocket.32r4.asia\"\n\n[limits]\nmax_terminals = 16\nscrollback_bytes = 4194304\nscrollback_anchor_interval = 65536\nbroadcast_capacity = 256\n";

/// Configuration template for local development against a local relay.
pub const DEV_CONFIG_TEMPLATE: &'static str = "[listen]\naddr = \"127.0.0.1\"\nport = 7447\n\n[relay]\nbase_url = \"ws://127.0.0.1:8080\"\npsk_hex = \"\"\n\n[relay.retry]\ninitial_ms = 500\nmax_ms = 30000\nmul_x10 = 20\n\n[app]\nbase_url = \"http://127.0.0.1:5173\"\n\n[limits]\nmax_terminals = 16\nscrollback_bytes = 4194304\nscrollback_anchor_interval = 65536\nbroadcast_capacity = 256\n";

/// The built-in configuration template.
pub fn build_config_template() -> (r: &'static str)
    ensures
        r@ == BUILD_CONFIG_TEMPLATE@,
{
    BUILD_CONFIG_TEMPLATE
}

/// The development configuration template.
pub fn dev_config_template() -> (r: &'static str)
    ensures
        r@ == DEV_CONFIG_TEMPLATE@,
{
    DEV_CONFIG_TEMPLATE
}

/// Where the daemon listens for direct connections.
#[derive(Clone, Copy, Debug, PartialEq, Eq, Structural)]
pub struct ListenConfig {
    pub addr: IpAddress,
    pub port: u16,
}

/// The daemon's state files.
#[derive(Clone, Debug, PartialEq, Eq)]
pub struct SecurityConfig {
    pub identity_path: String,
    pub clients_path: String,
    pub revoked_path: String,
}

/// How the relay dialer backs off between attempts.
#[derive(Clone, Copy, Debug, PartialEq, Eq, Structural)]
pub struct RelayRetryConfig {
    pub initial_ms: u64,
    pub max_ms: u64,
    pub mul_x10: u32,
}

/// The relay the daemon registers with.
#[derive(Clone, Debug, PartialEq, Eq)]
pub struct RelayConfig {
    pub base_url: String,
    pub psk_hex: String,
    pub server_auth_token: Option<String>,
    pub retry: RelayRetryConfig,
}

/// The app that opens pairing links.
#[derive(Clone, Debug, PartialEq, Eq)]
pub struct AppConfig {
    pub base_url: String,
}

/// Resource limits.
#[derive(Clone, Copy, Debug, PartialEq, Eq, Structural)]
pub struct LimitsConfig {
    pub max_terminals: usize,
    pub scrollback_bytes: usize,
    pub scrollback_anchor_interval: usize,
    pub broadcast_capacity: usize,
}

/// The whole daemon configuration.
#[derive(Clone, Debug, PartialEq, Eq)]
pub struct DaemonConfig {
    pub listen: ListenConfig,
    pub security: SecurityConfig,
    pub relay: RelayConfig,
    pub app: AppConfig,
    pub limits: LimitsConfig,
}

pub fn default_relay_retry_initial_ms() -> (r: u64)
    ensures
        r == 500,
{
    500
}

pub fn default_relay_retry_max_ms() -> (r: u64)
    ensures
        r == 30000,
{
    30000
}

pub fn default_relay_retry_mul_x10() -> (r: u32)
    ensures
        r == 20,
{
    20
}

impl Default for RelayRetryConfig {
    fn default() -> (r: Self)
        ensures
            r == (RelayRetryConfig { initial_ms: 500, max_ms: 30000, mul_x10: 20 }),
    {
        RelayRetryConfig {
            initial_ms: default_relay_retry_initial_ms(),
            max_ms: default_relay_retry_max_ms(),
            mul_x10: default_relay_retry_mul_x10(),
        }
    }
}

impl Default for AppConfig {
    fn default() -> (r: Self)
        ensures
            r.base_url@ == DEFAULT_APP_BASE_URL@,
    {
        AppConfig { base_url: String::from_str(DEFAULT_APP_BASE_URL) }
    }
}

/// `base` joined with `name`, as `PathBuf::join` does on Unix, the only
/// platform the daemon runs on (its terminals are Unix pseudo-terminals):
/// an absolute `name` replaces `base`; otherwise `name` is appended, with a
/// `/` between unless `base` is empty or already ends with one.
pub open spec fn joined(base: Seq<char>, name: Seq<char>) -> Seq<char> {
    if name.len() > 0 && name[0] == '/' {
        name
    } else if base.len() == 0 || base[base.len() - 1] == '/' {
        base + name
    } else {
        base + seq!['/'] + name
    }
}

/// Joins the path `name` onto the path `base`.
pub fn join_path(base: &str, name: &str) -> (r: String)
    ensures
        r@ == joined(base@, name@),
{
    if name.unicode_len() > 0 && name.get_char(0) == '/' {
        return String::from_str(name);
    }
    let n = base.unicode_len();
    let s = String::from_str(base);
    if n == 0 || base.get_char(n - 1) == '/' {
        s.concat(name)
    } else {
        let t = s.concat("/");
        proof {
            reveal_strlit("/");
        }
        t.concat(name)
    }
}

/// The per-user state directory: `~/.cli-pocket`, or `.cli-pocket` when
/// the home directory is unknown.
pub open spec fn spec_state_dir(home: Option<Seq<char>>) -> Seq<char> {
    match home {
        Some(h) => joined(h, STATE_DIR_NAME@),
        None => STATE_DIR_NAME@,
    }
}

/// The per-user state directory for the given home directory.
pub fn default_state_dir(home: Option<&str>) -> (r: String)
    ensures
        r@ == spec_state_dir(
            match home {
                Some(h) => Some(h@),
                None => None,
            },
        ),
{
    match home {
        Some(h) => join_path(h, STATE_DIR_NAME),
        None => String::from_str(STATE_DIR_NAME),
    }
}

/// The default config file: `daemon.toml` in the state directory.
pub fn default_config_path(home: Option<&str>) -> (r: String)
    ensures
        r@ == joined(
            spec_state_dir(
                match home {
                    Some(h) => Some(h@),
                    None => None,
                },
            ),
            "daemon.toml"@,
        ),
{
    let dir = default_state_dir(home);
    join_path(dir.as_str(), "daemon.toml")
}

/// What `std::path::Path::parent` gives for a path (as text), where it
/// gives a path that is valid text.
pub uninterp spec fn path_parent(p: Seq<char>) -> Option<Seq<char>>;

/// `std::path::Path::parent`, as text.
#[verifier::external_body]
fn parent_of(p: &str) -> (r: Option<String>)
    ensures
        r is Some <==> path_parent(p@) is Some,
        r is Some ==> r->0@ == path_parent(p@)->0,
{
    std::path::Path::new(p).parent().and_then(|q| q.to_str()).map(|q| q.to_string())
}

/// The state files in directory `base`.
pub open spec fn files_in(base: Seq<char>, s: SecurityConfig) -> bool {
    &&& s.identity_path@ == joined(base, "identity.json"@)
    &&& s.clients_path@ == joined(base, "clients.json"@)
    &&& s.revoked_path@ == joined(base, "revoked.json"@)
}

/// The directory that holds the state of the daemon configured by the
/// file at `config_path`: the development state directory for the
/// development config, else the file's directory, else the per-user one.
pub open spec fn state_base(config_path: Seq<char>, home: Option<Seq<char>>) -> Seq<char> {
    if config_path == DEV_CONFIG_PATH@ {
        DEV_STATE_DIR@
    } else {
        match path_parent(config_path) {
            Some(p) => if p.len() > 0 { p } else { spec_state_dir(home) },
            None => spec_state_dir(home),
        }
    }
}

fn security_in(base: &str) -> (r: SecurityConfig)
    ensures
        files_in(base@, r),
{
    SecurityConfig {
        identity_path: join_path(base, "identity.json"),
        clients_path: join_path(base, "clients.json"),
        revoked_path: join_path(base, "revoked.json"),
    }
}

impl SecurityConfig {
    /// The state files of the daemon configured by the file at
    /// `config_path` (see [`state_base`]).
    pub fn for_config_path(config_path: &str, home: Option<&str>) -> (r: Self)
        ensures
            files_in(
                state_base(
                    config_path@,
                    match home {
                        Some(h) => Some(h@),
                        None => None,
                    },
                ),
                r,
            ),
    {
        if config_path.unicode_len() == DEV_CONFIG_PATH.unicode_len() && has_prefix(config_path, DEV_CONFIG_PATH) {
            proof {
                assert(config_path@ =~= config_path@.subrange(0, DEV_CONFIG_PATH@.len() as int));
            }
            return security_in(DEV_STATE_DIR);
        }
        proof {
            if config_path@ == DEV_CONFIG_PATH@ {
                assert(config_path@.subrange(0, DEV_CONFIG_PATH@.len() as int) =~= DEV_CONFIG_PATH@);
            }
        }
        match parent_of(config_path) {
            Some(p) => {
                if p.as_str().unicode_len() > 0 {
                    security_in(p.as_str())
                } else {
                    let d = default_state_dir(home);
                    security_in(d.as_str())
                }
            },
            None => {
                let d = default_state_dir(home);
                security_in(d.as_str())
            },
        }
    }

    /// The state files in the per-user state directory.
    pub fn default_for_home(home: Option<&str>) -> (r: Self)
        ensures
            files_in(
                spec_state_dir(
                    match home {
                        Some(h) => Some(h@),
                        None => None,
                    },
                ),
                r,
            ),
    {
        let d = default_state_dir(home);
        security_in(d.as_str())
    }
}

/// `base` without surrounding whitespace and trailing slashes, when it is a
/// websocket URL.
pub open spec fn ws_base_ok(base: Seq<char>) -> bool {
    let t = trimmed(base);
    (t.len() >= 5 && t.subrange(0, 5) == "ws://"@) || (t.len() >= 6 && t.subrange(0, 6) == "wss://"@)
}

/// The relay URL for a route: the trimmed base without trailing slashes,
/// followed by the route.
pub open spec fn ws_url(base: Seq<char>, suffix: Seq<char>) -> Seq<char> {
    trimmed_end(trimmed(base), '/') + suffix
}

/// The message of the error for a relay base URL that is not `ws://` or
/// `wss://`.
pub open spec fn bad_relay_base() -> Seq<char> {
    "relay.base_url must start with ws:// or wss://"@
}

/// The relay websocket URL for `suffix`, or a configuration error when the
/// base is not a `ws://` or `wss://` URL.
pub fn relay_ws_url(base_url: &str, suffix: &str) -> (r: Result<String, DaemonError>)
    ensures
        ws_base_ok(base_url@) ==> r is Ok && r->Ok_0@ == ws_url(base_url@, suffix@),
        !ws_base_ok(base_url@) ==> r is Err && r->Err_0 is Config && r->Err_0->Config_0@ == bad_relay_base(),
{
    let t = trim_ws(base_url);
    proof {
        reveal_strlit("ws://");
        reveal_strlit("wss://");
    }
    if !(has_prefix(t.as_str(), "ws://") || has_prefix(t.as_str(), "wss://")) {
        return Err(DaemonError::Config(String::from_str("relay.base_url must start with ws:// or wss://")));
    }
    let stripped = trim_end_char(t.as_str(), '/');
    Ok(stripped.concat(suffix))
}

/// The URL at which the daemon registers with the relay.
pub fn relay_server_ws_url(base_url: &str) -> (r: Result<String, DaemonError>)
    ensures
        ws_base_ok(base_url@) ==> r is Ok && r->Ok_0@ == ws_url(base_url@, "/ws/server"@),
        !ws_base_ok(base_url@) ==> r is Err && r->Err_0 is Config && r->Err_0->Config_0@ == bad_relay_base(),
{
    relay_ws_url(base_url, "/ws/server")
}

/// The URL at which clients reach the relay.
pub fn relay_client_ws_url(base_url: &str) -> (r: Result<String, DaemonError>)
    ensures
        ws_base_ok(base_url@) ==> r is Ok && r->Ok_0@ == ws_url(base_url@, "/ws/client"@),
        !ws_base_ok(base_url@) ==> r is Err && r->Err_0 is Config && r->Err_0->Config_0@ == bad_relay_base(),
{
    relay_ws_url(base_url, "/ws/client")
}

/// `url?server=<server id>`.
pub open spec fn with_server(url: Seq<char>, server_id: ServerId) -> Seq<char> {
    url + "?server="@ + hyphenated(server_id.0)
}

fn append_server(url: String, server_id: ServerId) -> (r: String)
    ensures
        r@ == with_server(url@, server_id),
{
    let u = url.concat("?server=");
    let id = uuid_text(server_id.0);
    u.concat(id.as_str())
}

/// The registration URL of the daemon `server_id`.
pub fn relay_server_ws_url_for_server(base_url: &str, server_id: ServerId) -> (r: Result<String, DaemonError>)
    ensures
        ws_base_ok(base_url@) ==> r is Ok && r->Ok_0@ == with_server(ws_url(base_url@, "/ws/server"@), server_id),
        !ws_base_ok(base_url@) ==> r is Err && r->Err_0 is Config && r->Err_0->Config_0@ == bad_relay_base(),
{
    let url = relay_server_ws_url(base_url)?;
    Ok(append_server(url, server_id))
}

/// The URL at which clients reach the daemon `server_id` through the relay.
pub fn relay_client_ws_url_for_server(base_url: &str, server_id: ServerId) -> (r: Result<String, DaemonError>)
    ensures
        ws_base_ok(base_url@) ==> r is Ok && r->Ok_0@ == with_server(ws_url(base_url@, "/ws/client"@), server_id),
        !ws_base_ok(base_url@) ==> r is Err && r->Err_0 is Config && r->Err_0->Config_0@ == bad_relay_base(),
{
    let url = relay_client_ws_url(base_url)?;
    Ok(append_server(url, server_id))
}

/// What a client needs to pair with this daemon through the relay.
#[derive(Clone, Debug, PartialEq, Eq)]
pub struct PairingOffer {
    pub label: Option<String>,
    pub server_id: ServerId,
    pub server_public_hex: String,
    pub relay_url: String,
    pub relay_psk_hex: String,
}

/// How `serde_json` writes one character inside a string literal: `"` and
/// `\` and the control characters below U+0020 are escaped (`\b`, `\t`,
/// `\n`, `\f`, `\r` by name, the others as `\u00` and two lowercase hex
/// digits); every other character is written as it is.
pub open spec fn json_escape_char(c: char) -> Seq<char> {
    if c == '"' {
        seq!['\\', '"']
    } else if c == '\\' {
        seq!['\\', '\\']
    } else if c == '\u{8}' {
        seq!['\\', 'b']
    } else if c == '\t' {
        seq!['\\', 't']
    } else if c == '\n' {
        seq!['\\', 'n']
    } else if c == '\u{c}' {
        seq!['\\', 'f']
    } else if c == '\r' {
        seq!['\\', 'r']
    } else if (c as u32) < 0x20 {
        seq!['\\', 'u', '0', '0', hex_char((c as u32) as int / 16), hex_char((c as u32) as int % 16)]
    } else {
        seq![c]
    }
}

/// The characters of `s`, each written as in a JSON string literal.
pub open spec fn json_escaped(s: Seq<char>) -> Seq<char>
    decreases s.len(),
{
    if s.len() == 0 {
        Seq::empty()
    } else {
        json_escaped(s.drop_last()) + json_escape_char(s.last())
    }
}

/// The JSON string literal of `s`, as `serde_json` writes it: quoted and
/// escaped.
pub open spec fn json_quoted(s: Seq<char>) -> Seq<char> {
    seq!['"'] + json_escaped(s) + seq!['"']
}

/// `serde_json::to_string` of a string: the quoted, escaped literal
/// (`serde_json`'s `format_escaped_str` with its `ESCAPE` table). Serializing
/// a string into memory cannot fail.
#[verifier::external_body]
fn json_string(s: &str) -> (r: String)
    ensures
        r@ == json_quoted(s@),
{
    serde_json::to_string(s).expect("a string always serializes")
}

/// Appends `s` as a JSON string literal.
fn push_json_string(out: &mut String, s: &str)
    ensures
        final(out)@ == old(out)@ + json_quoted(s@),
{
    let t = json_string(s);
    out.append(t.as_str());
}

/// The label a pairing offer shows: the given one, unless it is blank.
pub open spec fn shown_label(label: Option<Seq<char>>) -> Option<Seq<char>> {
    match label {
        Some(l) => if trimmed(l).len() > 0 { Some(l) } else { None },
        None => None,
    }
}

/// The JSON payload of a pairing offer: an object with the fields `v`
/// (version 1), `label` (only when it is not blank), `serverId`,
/// `serverPublicHex` and `relay` (`url`, `pskHex`), in this order, written
/// compactly; the string values as `serde_json` writes them.
pub open spec fn offer_payload(
    label: Option<Seq<char>>,
    server_id: ServerId,
    public_hex: Seq<char>,
    relay_url: Seq<char>,
    psk_hex: Seq<char>,
) -> Seq<char> {
    "{\"v\":1,"@ + match shown_label(label) {
        Some(l) => "\"label\":"@ + json_quoted(l) + ","@,
        None => Seq::<char>::empty(),
    } + "\"serverId\":"@ + json_quoted(hyphenated(server_id.0)) + ",\"serverPublicHex\":"@ + json_quoted(public_hex)
        + ",\"relay\":{\"url\":"@ + json_quoted(relay_url) + ",\"pskHex\":"@ + json_quoted(psk_hex) + "}}"@
}

pub open spec fn opt_view(o: Option<String>) -> Option<Seq<char>> {
    match o {
        Some(s) => Some(s@),
        None => None,
    }
}

/// The JSON payload of `offer`.
pub fn pairing_offer_payload(offer: &PairingOffer) -> (r: String)
    ensures
        r@ == offer_payload(
            opt_view(offer.label),
            offer.server_id,
            offer.server_public_hex@,
            offer.relay_url@,
            offer.relay_psk_hex@,
        ),
{
    let mut out = String::from_str("{\"v\":1,");
    let ghost start = out@;
    match &offer.label {
        Some(l) => {
            let t = trim_ws(l.as_str());
            if t.as_str().unicode_len() > 0 {
                out.append("\"label\":");
                push_json_string(&mut out, l.as_str());
                out.append(",");
            }
        },
        None => {},
    }
    let ghost after_label = out@;
    assert(after_label == start + match shown_label(opt_view(offer.label)) {
        Some(l) => "\"label\":"@ + json_quoted(l) + ","@,
        None => Seq::<char>::empty(),
    });
    out.append("\"serverId\":");
    let id = uuid_text(offer.server_id.0);
    push_json_string(&mut out, id.as_str());
    out.append(",\"serverPublicHex\":");
    push_json_string(&mut out, offer.server_public_hex.as_str());
    out.append(",\"relay\":{\"url\":");
    push_json_string(&mut out, offer.relay_url.as_str());
    out.append(",\"pskHex\":");
    push_json_string(&mut out, offer.relay_psk_hex.as_str());
    out.append("}}");
    out
}

/// What the `base64` crate's URL-safe engine without padding makes of the
/// UTF-8 bytes of a text.
pub uninterp spec fn base64_url_text(s: Seq<char>) -> Seq<char>;

/// `base64::engine::general_purpose::URL_SAFE_NO_PAD.encode` of the UTF-8
/// bytes of `s`.
#[verifier::external_body]
fn base64_url(s: &str) -> (r: String)
    ensures
        r@ == base64_url_text(s@),
{
    base64::engine::general_purpose::URL_SAFE_NO_PAD.encode(s.as_bytes())
}

/// Whether the app base URL is an `http://` or `https://` URL.
pub open spec fn app_base_ok(base: Seq<char>) -> bool {
    let t = trimmed(base);
    (t.len() >= 7 && t.subrange(0, 7) == "http://"@) || (t.len() >= 8 && t.subrange(0, 8) == "https://"@)
}

/// The link a client opens to pair: the app base (trimmed, without trailing
/// slashes), then `/#pair=` and the encoded offer.
pub open spec fn offer_url(base: Seq<char>, payload: Seq<char>) -> Seq<char> {
    trimmed_end(trimmed(base), '/') + "/#pair="@ + base64_url_text(payload)
}

/// The pairing link for `offer`, or a configuration error when the app base
/// URL is not `http://` or `https://`.
pub fn build_pairing_offer_url(app_base_url: &str, offer: &PairingOffer) -> (r: Result<String, DaemonError>)
    ensures
        app_base_ok(app_base_url@) ==> r is Ok && r->Ok_0@ == offer_url(
            app_base_url@,
            offer_payload(
                opt_view(offer.label),
                offer.server_id,
                offer.server_public_hex@,
                offer.relay_url@,
                offer.relay_psk_hex@,
            ),
        ),
        !app_base_ok(app_base_url@) ==> r is Err && r->Err_0 is Config && r->Err_0->Config_0@
            == "app.base_url must start with http:// or https://"@,
{
    let base = trim_ws(app_base_url);
    proof {
        reveal_strlit("http://");
        reveal_strlit("https://");
    }
    if !(has_prefix(base.as_str(), "http://") || has_prefix(base.as_str(), "https://")) {
        return Err(DaemonError::Config(String::from_str("app.base_url must start with http:// or https://")));
    }
    let payload = pairing_offer_payload(offer);
    let encoded = base64_url(payload.as_str());
    let trimmed_base = trim_end_char(base.as_str(), '/');
    let url = trimmed_base.concat("/#pair=");
    Ok(url.concat(encoded.as_str()))
}

/// How the pairing link of a daemon comes out (see [`daemon_pair_url`]).
pub open spec fn pair_url_outcome(
    app_base: Seq<char>,
    relay_base: Seq<char>,
    psk_hex: Seq<char>,
    server_id: ServerId,
    public_key: Seq<u8>,
) -> Option<Seq<char>> {
    let psk = trimmed(psk_hex);
    if !ws_base_ok(relay_base) || psk.len() == 0 || hex_decoded(psk) is None || hex_decoded(psk)->0.len() != 32
        || !app_base_ok(app_base) {
        None
    } else {
        Some(
            offer_url(
                app_base,
                offer_payload(
                    None,
                    server_id,
                    hex_of_bytes(public_key),
                    with_server(ws_url(relay_base, "/ws/client"@), server_id),
                    psk,
                ),
            ),
        )
    }
}

/// The pairing link of the daemon `server_id` with public key
/// `public_key`: the relay must be a websocket URL and the pre-shared key
/// must be 32 bytes of hexadecimal; the checks and their errors come in
/// that order.
pub fn daemon_pair_url(
    app_base_url: &str,
    relay_base_url: &str,
    psk_hex: &str,
    server_id: ServerId,
    public_key: &[u8],
) -> (r: Result<String, DaemonError>)
    ensures
        r is Ok <==> pair_url_outcome(app_base_url@, relay_base_url@, psk_hex@, server_id, public_key@) is Some,
        r is Ok ==> r->Ok_0@ == pair_url_outcome(app_base_url@, relay_base_url@, psk_hex@, server_id, public_key@)->0,
        !ws_base_ok(relay_base_url@) ==> r is Err && r->Err_0 is Config && r->Err_0->Config_0@ == bad_relay_base(),
        ws_base_ok(relay_base_url@) && trimmed(psk_hex@).len() == 0 ==> r is Err && r->Err_0 is Config
            && r->Err_0->Config_0@ == "pair-url requires relay.psk_hex"@,
        ws_base_ok(relay_base_url@) && trimmed(psk_hex@).len() > 0 && hex_decoded(trimmed(psk_hex@)) is None ==> r is Err
            && r->Err_0 is Config && r->Err_0->Config_0@.len() >= 14 && r->Err_0->Config_0@.subrange(0, 14)
            == "relay.psk_hex: "@.subrange(0, 14),
        ws_base_ok(relay_base_url@) && trimmed(psk_hex@).len() > 0 && hex_decoded(trimmed(psk_hex@)) is Some
            && hex_decoded(trimmed(psk_hex@))->0.len() != 32 ==> r is Err && r->Err_0 is Config && r->Err_0->Config_0@
            == "pair-url requires relay.psk_hex to decode to 32 bytes"@,
{
    let relay_url = relay_client_ws_url_for_server(relay_base_url, server_id)?;
    let psk = trim_ws(psk_hex);
    if psk.as_str().unicode_len() == 0 {
        return Err(DaemonError::Config(String::from_str("pair-url requires relay.psk_hex")));
    }
    let decoded = match hex_decode(psk.as_str()) {
        Ok(b) => b,
        Err(e) => {
            let m = String::from_str("relay.psk_hex: ");
            proof {
                reveal_strlit("relay.psk_hex: ");
            }
            return Err(DaemonError::Config(m.concat(e.as_str())));
        },
    };
    if decoded.len() != 32 {
        return Err(DaemonError::Config(String::from_str("pair-url requires relay.psk_hex to decode to 32 bytes")));
    }
    let offer = PairingOffer {
        label: None,
        server_id,
        server_public_hex: hex_encode(public_key),
        relay_url,
        relay_psk_hex: psk,
    };
    build_pairing_offer_url(app_base_url, &offer)
}

/// The relay pre-shared key, when `psk_hex` is exactly 32 bytes of
/// hexadecimal (no surrounding whitespace allowed).
pub fn relay_psk_bytes(psk_hex: &str) -> (r: Option<Vec<u8>>)
    ensures
        r is Some <==> hex_decoded(psk_hex@) is Some && hex_decoded(psk_hex@)->0.len() == 32,
        r is Some ==> r->0@ == hex_decoded(psk_hex@)->0,
{
    match hex_decode(psk_hex) {
        Ok(b) => if b.len() == 32 { Some(b) } else { None },
        Err(_) => None,
    }
}

/// The label a daemon reports about itself: the first of the given
/// environment values (`COMPUTERNAME`, then `HOSTNAME`) that is present and
/// not blank, trimmed; the search stops at the first one that is absent.
pub open spec fn spec_server_label(values: Seq<Option<Seq<char>>>) -> Option<Seq<char>>
    decreases values.len(),
{
    if values.len() == 0 {
        None
    } else {
        match values[0] {
            None => None,
            Some(v) => if trimmed(v).len() > 0 { Some(trimmed(v)) } else { spec_server_label(values.drop_first()) },
        }
    }
}

pub fn server_label(values: &Vec<Option<String>>) -> (r: Option<String>)
    ensures
        opt_view(r) == spec_server_label(values@.map_values(|o: Option<String>| opt_view(o))),
{
    let ghost vs = values@.map_values(|o: Option<String>| opt_view(o));
    assert(vs.skip(0) =~= vs);
    let mut i: usize = 0;
    while i < values.len()
        invariant
            i <= values@.len(),
            vs == values@.map_values(|o: Option<String>| opt_view(o)),
            spec_server_label(vs) == spec_server_label(vs.skip(i as int)),
        decreases values@.len() - i,
    {
        assert(vs.skip(i as int).drop_first() =~= vs.skip(i + 1));
        assert(vs.skip(i as int)[0] == opt_view(values@[i as int]));
        match &values[i] {
            None => {
                return None;
            },
            Some(v) => {
                let t = trim_ws(v.as_str());
                if t.as_str().unicode_len() > 0 {
                    return Some(t);
                }
            },
        }
        i = i + 1;
    }
    None
}

/// `getrandom::getrandom` filling `n` bytes; the crate's error text when
/// the OS source fails. Nothing is claimed of the bytes.
#[verifier::external_body]
fn random_bytes(n: usize) -> (r: Result<Vec<u8>, String>)
    ensures
        r is Ok ==> r->Ok_0@.len() == n,
{
    let mut bytes = vec![0_u8; n];
    getrandom::getrandom(&mut bytes).map(|_| bytes).map_err(|e| e.to_string())
}

/// A fresh relay pre-shared key: 32 random bytes in hexadecimal, or an
/// error when the OS random source fails.
pub fn generate_relay_psk_hex() -> (r: Result<String, DaemonError>)
    ensures
        r is Ok ==> exists|b: Seq<u8>| b.len() == 32 && r->Ok_0@ == hex_of_bytes(b),
        r is Err ==> r->Err_0 is Internal,
{
    match random_bytes(32) {
        Ok(b) => Ok(hex_encode(b.as_slice())),
        Err(e) => Err(DaemonError::Internal(String::from_str("read OS random bytes: ").concat(e.as_str()))),
    }
}

/// A configuration written for the first time gets a fresh pre-shared key
/// when its template left it empty.
pub fn ensure_relay_psk(relay: &mut RelayConfig) -> (r: Result<(), DaemonError>)
    ensures
        old(relay).psk_hex@.len() > 0 ==> r is Ok && *final(relay) == *old(relay),
        old(relay).psk_hex@.len() == 0 && r is Ok ==> final(relay).base_url == old(relay).base_url
            && final(relay).server_auth_token == old(relay).server_auth_token && final(relay).retry == old(relay).retry
            && exists|b: Seq<u8>| b.len() == 32 && final(relay).psk_hex@ == hex_of_bytes(b),
{
    if relay.psk_hex.as_str().unicode_len() > 0 {
        return Ok(());
    }
    let psk = generate_relay_psk_hex()?;
    relay.psk_hex = psk;
    Ok(())
}

} // verus!
