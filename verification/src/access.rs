//! Who may talk to the daemon: which direct websocket connections are
//! accepted, which key exchange each kind of connection runs, and whether
//! the client behind a finished key exchange is paired and not revoked.

use vstd::prelude::*;
use crate::client_db::{has_key, ClientDb, ClientRecord};
use crate::daemon_error::DaemonError;
use crate::proto::{spec_is_loopback, ClientId, IpAddress, SCAFFOLD_VERSION};
use crate::text::{
    dec_digits, hex_encode, hex_of_bytes, hyphenated, push_decimal, trimmed, uuid_text,
};

verus! {

/// The websocket subprotocol of direct sessions.
pub const DIRECT_SESSION_SUBPROTOCOL: &'static str = "cli-pocket-server/v1";

/// The only websocket path that direct connections may use.
pub const SESSION_PATH: &'static str = "/session";

/// The comma-separated items of `s`.
pub open spec fn split_commas(s: Seq<char>) -> Seq<Seq<char>>
    decreases s.len(),
{
    if s.len() == 0 {
        seq![Seq::<char>::empty()]
    } else {
        let rest = split_commas(s.drop_last());
        if s.last() == ',' {
            rest.push(Seq::<char>::empty())
        } else {
            rest.update(rest.len() - 1, rest.last().push(s.last()))
        }
    }
}

proof fn lemma_split_nonempty(s: Seq<char>)
    ensures
        split_commas(s).len() >= 1,
    decreases s.len(),
{
    if s.len() > 0 {
        lemma_split_nonempty(s.drop_last());
    }
}

/// Whether a `Sec-WebSocket-Protocol` value offers the direct session
/// subprotocol: one of its comma-separated items, trimmed, is it.
pub open spec fn offers_subprotocol(value: Seq<char>) -> bool {
    exists|i: int|
        0 <= i < split_commas(value).len() && trimmed(#[trigger] split_commas(value)[i])
            == DIRECT_SESSION_SUBPROTOCOL@
}

/// Whether the item `value[a..b]` (one comma-separated item), trimmed, is
/// the direct session subprotocol.
fn item_matches(value: &str, a: usize, b: usize) -> (r: bool)
    requires
        a <= b <= value@.len(),
    ensures
        r == (trimmed(value@.subrange(a as int, b as int)) == DIRECT_SESSION_SUBPROTOCOL@),
{
    let item = value.substring_char(a, b);
    let t = crate::text::trim_ws(item);
    crate::pairing::str_eq(t.as_str(), DIRECT_SESSION_SUBPROTOCOL)
}

/// Whether a `Sec-WebSocket-Protocol` value offers the direct session
/// subprotocol.
pub fn requested_subprotocol_supported(value: &str) -> (r: bool)
    ensures
        r == offers_subprotocol(value@),
{
    let n = value.unicode_len();
    let mut start: usize = 0;
    let mut i: usize = 0;
    let ghost mut found_at: int = -1;
    while i < n
        invariant
            n == value@.len(),
            start <= i <= n,
            split_commas(value@.take(i as int)).len() >= 1,
            split_commas(value@.take(i as int)).last() == value@.subrange(start as int, i as int),
            forall|k: int|
                0 <= k < split_commas(value@.take(i as int)).len() - 1 ==> trimmed(
                    #[trigger] split_commas(value@.take(i as int))[k],
                ) != DIRECT_SESSION_SUBPROTOCOL@,
            forall|k: int|
                0 <= k < split_commas(value@.take(i as int)).len() - 1 ==> #[trigger] split_commas(
                    value@.take(i as int),
                )[k] == split_commas(value@)[k],
        decreases n - i,
    {
        proof {
            lemma_split_prefix(value@, i as int);
        }
        if value.get_char(i) == ',' {
            if item_matches(value, start, i) {
                proof {
                    let p = split_commas(value@.take(i as int));
                    assert(value@.take(i + 1).drop_last() =~= value@.take(i as int));
                    let k = p.len() - 1;
                    lemma_split_nonempty(value@.take(i as int));
                    assert(value@.take(i + 1).last() == ',');
                    assert(split_commas(value@.take(i + 1)) == p.push(Seq::<char>::empty()));
                    assert(split_commas(value@.take(i + 1))[k] == p.last());
                    lemma_split_stable(value@, i + 1, k);
                    assert(trimmed(split_commas(value@)[k]) == DIRECT_SESSION_SUBPROTOCOL@);
                }
                return true;
            }
            start = i + 1;
        }
        proof {
            let p = split_commas(value@.take(i as int));
            assert(value@.take(i + 1).drop_last() =~= value@.take(i as int));
            assert(value@.take(i + 1).last() == value@[i as int]);
            lemma_split_nonempty(value@.take(i as int));
            let q = split_commas(value@.take(i + 1));
            if value@[i as int] == ',' {
                assert(q == p.push(Seq::<char>::empty()));
                assert(q.last() =~= value@.subrange(start as int, i + 1));
                assert forall|k: int| 0 <= k < q.len() - 1 implies #[trigger] q[k] == split_commas(value@)[k] by {
                    lemma_split_stable(value@, i + 1, k);
                }
            } else {
                assert(q == p.update(p.len() - 1, p.last().push(value@[i as int])));
                assert(q.last() =~= value@.subrange(start as int, i + 1));
                assert forall|k: int| 0 <= k < q.len() - 1 implies #[trigger] q[k] == split_commas(value@)[k] by {
                    lemma_split_stable(value@, i + 1, k);
                }
            }
        }
        i = i + 1;
    }
    assert(value@.take(n as int) =~= value@);
    let last = item_matches(value, start, n);
    proof {
        let p = split_commas(value@);
        if !last {
            assert forall|k: int| 0 <= k < p.len() implies trimmed(#[trigger] p[k]) != DIRECT_SESSION_SUBPROTOCOL@ by {
                if k < p.len() - 1 {
                } else {
                    assert(p[k] == value@.subrange(start as int, n as int));
                }
            }
        } else {
            assert(trimmed(p[p.len() - 1]) == DIRECT_SESSION_SUBPROTOCOL@);
        }
    }
    last
}

/// Items of a prefix before its last one are items of the whole value.
proof fn lemma_split_stable(s: Seq<char>, j: int, k: int)
    requires
        0 <= j <= s.len(),
        0 <= k < split_commas(s.take(j)).len() - 1,
    ensures
        split_commas(s.take(j))[k] == split_commas(s)[k],
        k < split_commas(s).len(),
    decreases s.len() - j,
{
    if j < s.len() {
        lemma_split_prefix(s, j);
        lemma_split_stable(s, j + 1, k);
        assert(s.take(j + 1).drop_last() =~= s.take(j));
        lemma_split_nonempty(s.take(j));
    } else {
        assert(s.take(j) =~= s);
    }
}

/// Splitting one more character keeps the earlier items.
proof fn lemma_split_prefix(s: Seq<char>, j: int)
    requires
        0 <= j < s.len(),
    ensures
        split_commas(s.take(j + 1)).len() >= split_commas(s.take(j)).len(),
        forall|k: int|
            0 <= k < split_commas(s.take(j)).len() - 1 ==> split_commas(s.take(j + 1))[k] == split_commas(
                s.take(j),
            )[k],
{
    assert(s.take(j + 1).drop_last() =~= s.take(j));
    lemma_split_nonempty(s.take(j));
}

/// How a connection was accepted.
#[derive(Clone, Copy, Debug, PartialEq, Eq, Structural)]
pub enum AcceptedTransportKind {
    /// A direct websocket connection; loopback peers may pair on first use.
    Direct { auto_pair: bool },
    /// A connection bridged by the relay.
    Relay,
}

/// A connection the daemon accepted, with a label for its logs.
pub struct AcceptedTransport<T> {
    pub label: String,
    pub kind: AcceptedTransportKind,
    pub transport: T,
}

/// The kind of a direct connection from `peer` on websocket path `path`
/// (`/` when the request named none), or `None` when the path is not the
/// session path and the connection is dropped.
pub fn accept_direct(path: Option<&str>, peer: IpAddress) -> (r: Option<AcceptedTransportKind>)
    ensures
        r == (if path is Some && path->0@ == SESSION_PATH@ {
            Some(AcceptedTransportKind::Direct { auto_pair: spec_is_loopback(peer) })
        } else {
            None::<AcceptedTransportKind>
        }),
{
    proof {
        reveal_strlit("/session");
    }
    match path {
        Some(p) => {
            if crate::pairing::str_eq(p, SESSION_PATH) {
                Some(AcceptedTransportKind::Direct { auto_pair: peer.is_loopback() })
            } else {
                None
            }
        },
        None => None,
    }
}

/// The key exchange a connection runs.
#[derive(Clone, Copy, Debug, PartialEq, Eq, Structural)]
pub enum HandshakeKind {
    /// Anonymous responder; `auto_pair` lets an unknown client pair.
    Direct { auto_pair: bool },
    /// Responder with the relay's pre-shared key, when one is configured.
    Relay { has_psk: bool },
}

/// The key exchange for a connection of kind `kind`.
pub fn handshake_for(kind: AcceptedTransportKind, has_relay_psk: bool) -> (r: HandshakeKind)
    ensures
        r == match kind {
            AcceptedTransportKind::Direct { auto_pair } => HandshakeKind::Direct { auto_pair },
            AcceptedTransportKind::Relay => HandshakeKind::Relay { has_psk: has_relay_psk },
        },
{
    match kind {
        AcceptedTransportKind::Direct { auto_pair } => HandshakeKind::Direct { auto_pair },
        AcceptedTransportKind::Relay => HandshakeKind::Relay { has_psk: has_relay_psk },
    }
}

/// The text of the error for a revoked client.
pub open spec fn revoked_text(id: ClientId) -> Seq<char> {
    "ClientId("@ + hyphenated(id.0) + ")"@
}

/// After the key exchange: the client with static key `client_pk` must be
/// paired (else `NotPaired` with the key in hexadecimal) and not revoked
/// (else `Revoked` with its id).
pub fn authorize_client(db: &ClientDb, client_pk: &[u8; 32]) -> (r: Result<ClientRecord, DaemonError>)
    requires
        db.wf(),
    ensures
        !has_key(db.records(), client_pk@) ==> r is Err && r->Err_0 is NotPaired && r->Err_0->NotPaired_0@
            == hex_of_bytes(client_pk@),
        has_key(db.records(), client_pk@) ==> {
            &&& r is Err ==> r->Err_0 is Revoked
            &&& r is Ok ==> r->Ok_0.public_key@ == client_pk@ && db.records().contains(r->Ok_0) && !db.revoked_ids().contains(
                r->Ok_0.client_id,
            )
            &&& r is Err ==> exists|rec: ClientRecord|
                db.records().contains(rec) && rec.public_key@ == client_pk@ && db.revoked_ids().contains(rec.client_id)
                    && r->Err_0->Revoked_0@ == revoked_text(rec.client_id)
        },
        forall|rec: ClientRecord|
            #![trigger db.records().contains(rec)]
            db.records().contains(rec) && rec.public_key@ == client_pk@ ==> {
                &&& db.revoked_ids().contains(rec.client_id) ==> (r matches Err(DaemonError::Revoked(m))
                    && m@ == revoked_text(rec.client_id))
                &&& !db.revoked_ids().contains(rec.client_id) ==> r == Ok::<ClientRecord, DaemonError>(rec)
            },
{
    match db.lookup_by_public(client_pk) {
        None => {
            proof {
                assert forall|rec: ClientRecord| db.records().contains(rec) implies rec.public_key@ != client_pk@ by {
                    let i = choose|i: int| 0 <= i < db.records().len() && db.records()[i] == rec;
                }
            }
            Err(DaemonError::NotPaired(hex_encode(client_pk.as_slice())))
        },
        Some(record) => {
            proof {
                assert forall|rec: ClientRecord| db.records().contains(rec) && rec.public_key@ == client_pk@
                    implies rec == record by {
                    db.lemma_key_unique(rec, record);
                }
            }
            if db.is_revoked(&record.client_id) {
                let m = String::from_str("ClientId(");
                let id = uuid_text(record.client_id.0);
                let m = m.concat(id.as_str());
                return Err(DaemonError::Revoked(m.concat(")")));
            }
            Ok(record)
        },
    }
}

/// The daemon's banner, naming the wire scaffold version.
pub fn version_banner() -> (r: String)
    ensures
        r@ == "cli-pocket-daemon (scaffold proto v"@ + dec_digits(SCAFFOLD_VERSION as nat) + ")"@,
{
    let mut s = String::from_str("cli-pocket-daemon (scaffold proto v");
    push_decimal(&mut s, SCAFFOLD_VERSION as u64);
    s.append(")");
    s
}

} // verus!
