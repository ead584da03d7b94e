//! Resume tokens: a client that reconnects presents a token that names its
//! client and terminal, carries when it was issued and when it expires,
//! and is authenticated by a truncated HMAC-SHA256 tag under the daemon's
//! secret.
//!
//! Layout (65 bytes): version `1`, client id (16 bytes), terminal id (16
//! bytes), issued and expiry times in milliseconds (8 bytes each, all
//! big-endian), then the first 16 bytes of the tag over those 49 bytes.

use vstd::prelude::*;
use hmac::Mac;
use subtle::ConstantTimeEq;
use crate::proto::{ClientId, TerminalId};

verus! {

pub const VERSION: u8 = 1;

pub const TAG_LEN: usize = 16;

pub const BODY_LEN: usize = 49;

pub const TOKEN_LEN: usize = 65;

/// What HMAC-SHA256 (the `hmac` crate over `sha2::Sha256`) computes for a
/// key and a message.
pub uninterp spec fn hmac_sha256(key: Seq<u8>, msg: Seq<u8>) -> Seq<u8>;

/// `Hmac::<Sha256>::new_from_slice(key)`, `update(msg)`, `finalize()`: the
/// 32-byte tag. Any key length is accepted.
#[verifier::external_body]
fn hmac_tag(key: &[u8], msg: &[u8]) -> (r: Vec<u8>)
    ensures
        r@ == hmac_sha256(key@, msg@),
        r@.len() == 32,
{
    let mut mac = hmac::Hmac::<sha2::Sha256>::new_from_slice(key).expect("HMAC accepts any key length");
    mac.update(msg);
    mac.finalize().into_bytes().to_vec()
}

/// `subtle::ConstantTimeEq::ct_eq` on byte slices: equal lengths and equal
/// bytes.
#[verifier::external_body]
fn ct_equal(a: &[u8], b: &[u8]) -> (r: bool)
    ensures
        r == (a@ == b@),
{
    bool::from(a.ct_eq(b))
}

/// The last `w` base-256 digits of `x`, most significant first.
pub open spec fn be(x: nat, w: nat) -> Seq<u8>
    decreases w,
{
    if w == 0 {
        Seq::empty()
    } else {
        be(x / 256, (w - 1) as nat).push((x % 256) as u8)
    }
}

/// The number whose base-256 digits, most significant first, are `s`.
pub open spec fn from_be(s: Seq<u8>) -> nat
    decreases s.len(),
{
    if s.len() == 0 {
        0
    } else {
        from_be(s.drop_last()) * 256 + s.last() as nat
    }
}

pub open spec fn pow256(w: nat) -> nat
    decreases w,
{
    if w == 0 { 1 } else { 256 * pow256((w - 1) as nat) }
}

proof fn lemma_be_len(x: nat, w: nat)
    ensures
        be(x, w).len() == w,
    decreases w,
{
    if w > 0 {
        lemma_be_len(x / 256, (w - 1) as nat);
    }
}

proof fn lemma_pow256_pos(w: nat)
    ensures
        pow256(w) >= 1,
    decreases w,
{
    if w > 0 {
        lemma_pow256_pos((w - 1) as nat);
    }
}

/// Reading back `w` written digits gives the number modulo `256^w`.
proof fn lemma_from_be_of_be(x: nat, w: nat)
    ensures
        from_be(be(x, w)) == x % pow256(w),
    decreases w,
{
    if w == 0 {
        assert(be(x, 0) =~= Seq::<u8>::empty());
    } else {
        let p = pow256((w - 1) as nat);
        lemma_from_be_of_be(x / 256, (w - 1) as nat);
        lemma_pow256_pos((w - 1) as nat);
        assert(be(x, w).drop_last() =~= be(x / 256, (w - 1) as nat));
        vstd::arithmetic::div_mod::lemma_mod_breakdown(x as int, 256, p as int);
        assert(pow256(w) == 256 * p);
    }
}

proof fn lemma_from_be_bound(s: Seq<u8>)
    ensures
        from_be(s) < pow256(s.len()),
    decreases s.len(),
{
    if s.len() > 0 {
        lemma_from_be_bound(s.drop_last());
        let a = from_be(s.drop_last());
        let p = pow256((s.len() - 1) as nat);
        assert(a * 256 + s.last() < 256 * p) by (nonlinear_arith)
            requires
                a < p,
                s.last() < 256,
        ;
    }
}

proof fn lemma_pow256_values()
    ensures
        pow256(8) == 0x1_0000_0000_0000_0000,
        pow256(16) == 0x1_0000_0000_0000_0000_0000_0000_0000_0000,
{
    reveal_with_fuel(pow256, 17);
}

/// Digits of a `u64` or `u128` read back as the same number.
proof fn lemma_roundtrip(x: nat, w: nat)
    requires
        w == 8 || w == 16,
        x < pow256(w),
    ensures
        from_be(be(x, w)) == x,
        be(x, w).len() == w,
{
    lemma_from_be_of_be(x, w);
    lemma_be_len(x, w);
    vstd::arithmetic::div_mod::lemma_small_mod(x, pow256(w));
}

/// Appends the last `w` base-256 digits of `x`.
fn push_be(out: &mut Vec<u8>, x: u128, w: u32)
    ensures
        final(out)@ == old(out)@ + be(x as nat, w as nat),
    decreases w,
{
    if w > 0 {
        push_be(out, x / 256, w - 1);
        out.push((x % 256) as u8);
        assert(be(x as nat, w as nat) == be((x / 256) as nat, (w - 1) as nat).push((x % 256) as u8));
        assert(final(out)@ =~= old(out)@ + be(x as nat, w as nat)) by {
            assert(out@ =~= old(out)@ + be(x as nat, w as nat));
        }
    } else {
        assert(old(out)@ + be(x as nat, 0) =~= old(out)@);
    }
}

/// The number whose `w` digits start at `start`.
fn read_be(bytes: &[u8], start: usize, w: usize) -> (r: u128)
    requires
        start + w <= bytes@.len(),
        w <= 16,
    ensures
        r == from_be(bytes@.subrange(start as int, start + w)),
{
    let n = bytes.len();
    let mut val: u128 = 0;
    let mut k: usize = 0;
    proof {
        assert(bytes@.subrange(start as int, start as int) =~= Seq::<u8>::empty());
    }
    while k < w
        invariant
            n == bytes@.len(),
            start + w <= n,
            w <= 16,
            k <= w,
            val == from_be(bytes@.subrange(start as int, start + k)),
            val < pow256(k as nat),
        decreases w - k,
    {
        proof {
            lemma_pow256_values();
            lemma_pow256_split(k as nat);
        }
        let b = bytes[start + k];
        assert(val * 256 + b < pow256((k + 1) as nat)) by (nonlinear_arith)
            requires
                val < pow256(k as nat),
                b < 256,
                pow256((k + 1) as nat) == 256 * pow256(k as nat),
        ;
        val = val * 256 + b as u128;
        proof {
            assert(bytes@.subrange(start as int, start + k + 1).drop_last() =~= bytes@.subrange(start as int, start + k));
        }
        k = k + 1;
    }
    val
}

proof fn lemma_pow256_split(k: nat)
    requires
        k < 16,
    ensures
        pow256((k + 1) as nat) == 256 * pow256(k),
        256 * pow256(k) <= pow256(16),
{
    lemma_pow256_le(k + 1, 16);
}

proof fn lemma_pow256_le(a: nat, b: nat)
    requires
        a <= b,
    ensures
        pow256(a) <= pow256(b),
    decreases b,
{
    if a < b {
        lemma_pow256_le(a, (b - 1) as nat);
        lemma_pow256_pos((b - 1) as nat);
    }
}

/// The claims that a valid token carries.
#[derive(Clone, Copy, Debug, PartialEq, Eq, Structural)]
pub struct VerifiedResume {
    pub client_id: ClientId,
    pub terminal_id: TerminalId,
    pub issued_ms: u64,
    pub expiry_ms: u64,
}

/// Why a token was refused.
#[derive(Clone, Copy, Debug, PartialEq, Eq, Structural)]
pub enum ResumeError {
    Malformed,
    BadVersion,
    Expired,
    BadTag,
}

impl ResumeError {
    pub fn message(&self) -> (r: &'static str)
        ensures
            r@ == match *self {
                ResumeError::Malformed => "malformed token"@,
                ResumeError::BadVersion => "bad version"@,
                ResumeError::Expired => "token expired"@,
                ResumeError::BadTag => "bad tag"@,
            },
    {
        match self {
            ResumeError::Malformed => "malformed token",
            ResumeError::BadVersion => "bad version",
            ResumeError::Expired => "token expired",
            ResumeError::BadTag => "bad tag",
        }
    }
}

/// Token bytes.
#[derive(Debug, Clone)]
pub struct ResumeTokenBytes {
    pub bytes: Vec<u8>,
}

/// The 49 bytes that the tag covers.
pub open spec fn token_body(client: ClientId, terminal: TerminalId, issued: u64, expiry: u64) -> Seq<u8> {
    seq![VERSION] + be(client.0 as nat, 16) + be(terminal.0 as nat, 16) + be(issued as nat, 8) + be(
        expiry as nat,
        8,
    )
}

/// A complete token under `key`.
pub open spec fn token_bytes(key: Seq<u8>, client: ClientId, terminal: TerminalId, issued: u64, expiry: u64) -> Seq<
    u8,
> {
    let body = token_body(client, terminal, issued, expiry);
    body + hmac_sha256(key, body).take(TAG_LEN as int)
}

/// What checking `token` under `key` at time `now` gives: the length, the
/// version, the tag and the expiry are checked in that order.
pub open spec fn verify_outcome(key: Seq<u8>, token: Seq<u8>, now: u64) -> Result<VerifiedResume, ResumeError> {
    if token.len() != TOKEN_LEN {
        Err(ResumeError::Malformed)
    } else if token[0] != VERSION {
        Err(ResumeError::BadVersion)
    } else if hmac_sha256(key, token.take(BODY_LEN as int)).take(TAG_LEN as int) != token.skip(BODY_LEN as int) {
        Err(ResumeError::BadTag)
    } else {
        let expiry = from_be(token.subrange(41, 49));
        if now >= expiry {
            Err(ResumeError::Expired)
        } else {
            Ok(
                VerifiedResume {
                    client_id: ClientId(from_be(token.subrange(1, 17)) as u128),
                    terminal_id: TerminalId(from_be(token.subrange(17, 33)) as u128),
                    issued_ms: from_be(token.subrange(33, 41)) as u64,
                    expiry_ms: expiry as u64,
                },
            )
        }
    }
}

/// The secret under which tokens are minted and checked.
pub struct ResumeTokenSecret {
    key: [u8; 32],
}

impl ResumeTokenSecret {
    pub closed spec fn key(&self) -> Seq<u8> {
        self.key@
    }

    pub fn from_bytes(b: [u8; 32]) -> (r: Self)
        ensures
            r.key() == b@,
    {
        ResumeTokenSecret { key: b }
    }

    /// A token for `client` and `terminal`, issued at `now_ms` and valid
    /// for `ttl_ms`.
    pub fn mint(&self, client: &ClientId, terminal: &TerminalId, now_ms: u64, ttl_ms: u64) -> (r: ResumeTokenBytes)
        requires
            now_ms + ttl_ms <= u64::MAX,
        ensures
            r.bytes@ == token_bytes(self.key(), *client, *terminal, now_ms, (now_ms + ttl_ms) as u64),
            r.bytes@.len() == TOKEN_LEN,
    {
        let mut body: Vec<u8> = Vec::new();
        body.push(VERSION);
        push_be(&mut body, client.0, 16);
        push_be(&mut body, terminal.0, 16);
        push_be(&mut body, now_ms as u128, 8);
        push_be(&mut body, (now_ms + ttl_ms) as u128, 8);
        assert(body@ =~= token_body(*client, *terminal, now_ms, (now_ms + ttl_ms) as u64));
        proof {
            lemma_be_len(client.0 as nat, 16);
            lemma_be_len(terminal.0 as nat, 16);
            lemma_be_len(now_ms as nat, 8);
            lemma_be_len((now_ms + ttl_ms) as nat, 8);
        }
        let tag = hmac_tag(self.key.as_slice(), body.as_slice());
        let ghost b = body@;
        let mut i: usize = 0;
        while i < TAG_LEN
            invariant
                tag@.len() == 32,
                i <= TAG_LEN,
                body@ == b + tag@.take(i as int),
            decreases TAG_LEN - i,
        {
            body.push(tag[i]);
            assert(tag@.take(i + 1) =~= tag@.take(i as int).push(tag@[i as int]));
            assert(body@ =~= b + tag@.take(i + 1));
            i = i + 1;
        }
        ResumeTokenBytes { bytes: body }
    }

    /// Checks a token at time `now_ms` (see [`verify_outcome`]).
    pub fn verify(&self, token: &ResumeTokenBytes, now_ms: u64) -> (r: Result<VerifiedResume, ResumeError>)
        ensures
            r == verify_outcome(self.key(), token.bytes@, now_ms),
    {
        let t = token.bytes.as_slice();
        if t.len() != TOKEN_LEN {
            return Err(ResumeError::Malformed);
        }
        if t[0] != VERSION {
            return Err(ResumeError::BadVersion);
        }
        let body = vstd::slice::slice_subrange(t, 0, BODY_LEN);
        let tag = vstd::slice::slice_subrange(t, BODY_LEN, TOKEN_LEN);
        let expected = hmac_tag(self.key.as_slice(), body);
        let expected_tag = vstd::slice::slice_subrange(expected.as_slice(), 0, TAG_LEN);
        assert(body@ =~= t@.take(BODY_LEN as int));
        assert(tag@ =~= t@.skip(BODY_LEN as int));
        if !ct_equal(expected_tag, tag) {
            return Err(ResumeError::BadTag);
        }
        let client = read_be(t, 1, 16);
        let terminal = read_be(t, 17, 16);
        let issued = read_be(t, 33, 8);
        let expiry = read_be(t, 41, 8);
        proof {
            lemma_pow256_values();
            lemma_from_be_bound(t@.subrange(33, 41));
            lemma_from_be_bound(t@.subrange(41, 49));
        }
        if now_ms as u128 >= expiry {
            return Err(ResumeError::Expired);
        }
        Ok(
            VerifiedResume {
                client_id: ClientId(client),
                terminal_id: TerminalId(terminal),
                issued_ms: issued as u64,
                expiry_ms: expiry as u64,
            },
        )
    }
}

/// A token minted under a key (any token that [`ResumeTokenSecret::mint`]
/// returns, which is 65 bytes long) is accepted under the same key, with
/// the claims it was minted with, until its expiry; from then on it is
/// refused as expired.
pub proof fn lemma_mint_then_verify(
    key: Seq<u8>,
    client: ClientId,
    terminal: TerminalId,
    issued: u64,
    expiry: u64,
    now: u64,
)
    requires
        token_bytes(key, client, terminal, issued, expiry).len() == TOKEN_LEN,
    ensures
        verify_outcome(key, token_bytes(key, client, terminal, issued, expiry), now) == (if now < expiry {
            Ok::<VerifiedResume, ResumeError>(
                VerifiedResume { client_id: client, terminal_id: terminal, issued_ms: issued, expiry_ms: expiry },
            )
        } else {
            Err::<VerifiedResume, ResumeError>(ResumeError::Expired)
        }),
{
    lemma_pow256_values();
    let b1 = be(client.0 as nat, 16);
    let b2 = be(terminal.0 as nat, 16);
    let b3 = be(issued as nat, 8);
    let b4 = be(expiry as nat, 8);
    lemma_roundtrip(client.0 as nat, 16);
    lemma_roundtrip(terminal.0 as nat, 16);
    lemma_roundtrip(issued as nat, 8);
    lemma_roundtrip(expiry as nat, 8);
    let body = token_body(client, terminal, issued, expiry);
    let tok = token_bytes(key, client, terminal, issued, expiry);
    assert(body.len() == 49);
    assert(tok.take(49) =~= body);
    assert(tok.subrange(1, 17) =~= b1);
    assert(tok.subrange(17, 33) =~= b2);
    assert(tok.subrange(33, 41) =~= b3);
    assert(tok.subrange(41, 49) =~= b4);
    assert(tok.skip(49) =~= hmac_sha256(key, body).take(16));
    assert(tok.len() == 65);
    assert(tok[0] == VERSION);
    assert(from_be(tok.subrange(41, 49)) == expiry);
    assert(from_be(tok.subrange(1, 17)) == client.0);
    assert(from_be(tok.subrange(17, 33)) == terminal.0);
    assert(from_be(tok.subrange(33, 41)) == issued);
}

} // verus!
