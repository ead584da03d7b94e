//! Six-digit pairing codes: the daemon shows a code, a client that presents
//! it may pair once, and the code then changes. A code also changes when
//! it has been shown for longer than its lifetime.
//!
//! Times are milliseconds on a monotonic clock supplied by the caller.

use vstd::prelude::*;
use rand::Rng;
use crate::text::{dec_char, dec_fixed, push_decimal_fixed};

verus! {

/// Number of distinct codes.
pub const CODE_SPACE: u32 = 1000000;

/// Random draws tried before falling back to the next code in sequence.
pub const DRAWS: u32 = 16;

/// The code for `n`: six decimal digits, zero-padded.
pub open spec fn code_text(n: nat) -> Seq<char> {
    dec_fixed(n, 6)
}

/// Whether `s` is the code of some number below [`CODE_SPACE`].
pub open spec fn is_code(s: Seq<char>) -> bool {
    exists|n: nat| n < CODE_SPACE && s == code_text(n)
}

/// `rand::thread_rng().gen_range(0..1_000_000)`: a number below one
/// million; nothing more is claimed of it.
#[verifier::external_body]
fn random_below_code_space() -> (r: u32)
    ensures
        r < CODE_SPACE,
{
    rand::thread_rng().gen_range(0..1_000_000)
}

/// The code text of `n`.
pub fn format_code(n: u32) -> (r: String)
    requires
        n < CODE_SPACE,
    ensures
        r@ == code_text(n as nat),
{
    let mut s = String::new();
    push_decimal_fixed(&mut s, n as u64, 6);
    assert(Seq::<char>::empty() + dec_fixed(n as nat, 6) =~= dec_fixed(n as nat, 6));
    s
}

/// A fresh random code.
pub fn generate_pair_code() -> (r: String)
    ensures
        is_code(r@),
{
    let n = random_below_code_space();
    format_code(n)
}

/// What `str::parse::<u32>` accepts: an optional `+`, then one or more
/// ASCII digits whose value fits in a `u32`.
pub open spec fn parsed_u32(s: Seq<char>) -> Option<nat> {
    let d = unsigned_digits(s);
    if d.len() > 0 && all_digits(d) && digits_value(d) <= u32::MAX {
        Some(digits_value(d))
    } else {
        None
    }
}

/// `s` without one leading `+`.
pub open spec fn unsigned_digits(s: Seq<char>) -> Seq<char> {
    if s.len() > 0 && s[0] == '+' { s.drop_first() } else { s }
}

/// Whether every character of `d` is an ASCII digit.
pub open spec fn all_digits(d: Seq<char>) -> bool {
    forall|i: int| 0 <= i < d.len() ==> '0' <= #[trigger] d[i] <= '9'
}

/// The value of a string of decimal digits.
pub open spec fn digits_value(d: Seq<char>) -> nat
    decreases d.len(),
{
    if d.len() == 0 {
        0
    } else {
        digits_value(d.drop_last()) * 10 + ((d.last() as u32) - 48) as nat
    }
}

proof fn lemma_digits_value_grows(d: Seq<char>, k: int)
    requires
        0 <= k <= d.len(),
        forall|i: int| 0 <= i < d.len() ==> '0' <= #[trigger] d[i] <= '9',
    ensures
        digits_value(d.take(k)) <= digits_value(d),
    decreases d.len() - k,
{
    if k < d.len() {
        lemma_digits_value_grows(d, k + 1);
        assert(d.take(k + 1).drop_last() =~= d.take(k));
    } else {
        assert(d.take(k) =~= d);
    }
}

/// `str::parse::<u32>`: the number, or `None` when `s` is not one.
pub fn parse_u32(s: &str) -> (r: Option<u32>)
    ensures
        r is Some <==> parsed_u32(s@) is Some,
        r is Some ==> r->0 == parsed_u32(s@)->0,
{
    let n = s.unicode_len();
    let start: usize = if n > 0 && s.get_char(0) == '+' { 1 } else { 0 };
    let ghost d = unsigned_digits(s@);
    assert(d =~= s@.subrange(start as int, n as int));
    if start == n {
        return None;
    }
    let mut val: u64 = 0;
    let mut i: usize = start;
    while i < n
        invariant
            n == s@.len(),
            start <= i <= n,
            d == unsigned_digits(s@),
            d == s@.subrange(start as int, n as int),
            forall|k: int| 0 <= k < i - start ==> '0' <= #[trigger] d[k] <= '9',
            val == digits_value(d.take(i - start)),
            val <= u32::MAX,
        decreases n - i,
    {
        let c = s.get_char(i);
        if c < '0' || c > '9' {
            assert(d[i - start] == c);
            assert(!('0' <= d[i - start] <= '9'));
            assert(!all_digits(d));
            return None;
        }
        assert(d.take(i - start + 1).drop_last() =~= d.take(i - start));
        assert(d.take(i - start + 1).last() == c);
        let next: u64 = val * 10 + (c as u64 - 48);
        assert(next == digits_value(d.take(i - start + 1)));
        if next > u32::MAX as u64 {
            proof {
                assert forall|k: int| 0 <= k < i - start + 1 implies '0' <= #[trigger] d.take(i - start + 1)[k] <= '9' by {
                    if k < i - start {
                        assert(d.take(i - start + 1)[k] == d[k]);
                    }
                }
                if all_digits(d) {
                    lemma_digits_value_grows(d, i - start + 1);
                }
            }
            return None;
        }
        val = next;
        i = i + 1;
    }
    assert(d.take(n - start) =~= d);
    Some(val as u32)
}

/// The code after a failed run of random draws: the one after `previous`
/// in sequence (wrapping), or `000000` when `previous` is not a number.
pub open spec fn fallback_code(previous: Seq<char>) -> Seq<char> {
    match parsed_u32(previous) {
        Some(n) => code_text(((n + 1) % (CODE_SPACE as nat)) as nat),
        None => code_text(0),
    }
}

/// A code that differs from `previous`: up to [`DRAWS`] random draws,
/// then [`fallback_code`]. `previous` must not be the number `u32::MAX`,
/// whose successor does not fit.
pub fn generate_pair_code_except(previous: &str) -> (r: String)
    requires
        parsed_u32(previous@) != Some(u32::MAX as nat),
    ensures
        is_code(r@),
        r@ != previous@,
{
    let mut tries: u32 = 0;
    while tries < DRAWS
        invariant
            tries <= DRAWS,
        decreases DRAWS - tries,
    {
        let next = generate_pair_code();
        if !str_eq(next.as_str(), previous) {
            return next;
        }
        tries = tries + 1;
    }
    let n: u32 = match parse_u32(previous) {
        Some(p) => (p + 1) % CODE_SPACE,
        None => 0,
    };
    let r = format_code(n);
    proof {
        lemma_code_parses(n as nat);
        if r@ == previous@ {
            assert(parsed_u32(previous@) == Some(n as nat));
        }
    }
    r
}

/// Whether two strings are equal.
pub fn str_eq(a: &str, b: &str) -> (r: bool)
    ensures
        r == (a@ == b@),
{
    let n = a.unicode_len();
    if n != b.unicode_len() {
        return false;
    }
    let mut i: usize = 0;
    while i < n
        invariant
            n == a@.len(),
            n == b@.len(),
            i <= n,
            forall|k: int| 0 <= k < i ==> a@[k] == b@[k],
        decreases n - i,
    {
        if a.get_char(i) != b.get_char(i) {
            return false;
        }
        i = i + 1;
    }
    assert(a@ =~= b@);
    true
}

proof fn lemma_dec_fixed_digits(n: nat, w: nat)
    ensures
        dec_fixed(n, w).len() == w,
        forall|i: int| 0 <= i < w ==> '0' <= #[trigger] dec_fixed(n, w)[i] <= '9',
        digits_value(dec_fixed(n, w)) == n % pow10(w),
    decreases w,
{
    if w > 0 {
        lemma_dec_fixed_digits(n / 10, (w - 1) as nat);
        let p = pow10((w - 1) as nat);
        lemma_pow10_pos((w - 1) as nat);
        assert(dec_fixed(n, w).drop_last() =~= dec_fixed(n / 10, (w - 1) as nat));
        assert(((dec_char((n % 10) as int) as u32) - 48) as nat == n % 10);
        vstd::arithmetic::div_mod::lemma_mod_breakdown(n as int, 10, p as int);
        assert(pow10(w) == 10 * p);
    }
}

pub open spec fn pow10(w: nat) -> nat
    decreases w,
{
    if w == 0 { 1 } else { 10 * pow10((w - 1) as nat) }
}

proof fn lemma_pow10_pos(w: nat)
    ensures
        pow10(w) >= 1,
    decreases w,
{
    if w > 0 {
        lemma_pow10_pos((w - 1) as nat);
    }
}

/// A code reads back as its number.
proof fn lemma_code_parses(n: nat)
    requires
        n < CODE_SPACE,
    ensures
        parsed_u32(code_text(n)) == Some(n),
{
    lemma_dec_fixed_digits(n, 6);
    reveal_with_fuel(pow10, 7);
    vstd::arithmetic::div_mod::lemma_small_mod(n, pow10(6));
    assert(code_text(n)[0] != '+');
}

/// Six ASCII digits.
pub open spec fn six_digits(s: Seq<char>) -> bool {
    s.len() == 6 && all_digits(s)
}

/// Every code is six ASCII digits.
pub proof fn lemma_code_is_six_digits(s: Seq<char>)
    requires
        is_code(s),
    ensures
        six_digits(s),
{
    let n = choose|n: nat| n < CODE_SPACE && s == code_text(n);
    lemma_dec_fixed_digits(n, 6);
}

/// The code currently shown, and since when.
pub struct PairingCodes {
    code: String,
    generated_at_ms: u64,
    ttl_ms: u64,
}

impl PairingCodes {
    pub closed spec fn code(&self) -> Seq<char> {
        self.code@
    }

    pub closed spec fn generated_at(&self) -> u64 {
        self.generated_at_ms
    }

    pub closed spec fn ttl(&self) -> u64 {
        self.ttl_ms
    }

    /// The shown code is a code.
    pub closed spec fn wf(&self) -> bool {
        is_code(self.code@)
    }

    /// Codes that live for `ttl_ms`, starting with a fresh one at `now_ms`.
    pub fn new(ttl_ms: u64, now_ms: u64) -> (r: Self)
        ensures
            r.wf(),
            is_code(r.code()),
            six_digits(r.code()),
            r.generated_at() == now_ms,
            r.ttl() == ttl_ms,
    {
        let r = PairingCodes { code: generate_pair_code(), generated_at_ms: now_ms, ttl_ms };
        proof {
            lemma_code_is_six_digits(r.code@);
        }
        r
    }

    pub fn current_code(&self) -> (r: String)
        ensures
            r@ == self.code(),
    {
        self.code.clone()
    }

    /// Replaces the code with a different one, shown from `now_ms`.
    pub fn rotate(&mut self, now_ms: u64) -> (r: String)
        requires
            old(self).wf(),
        ensures
            final(self).wf(),
            is_code(r@),
            six_digits(r@),
            r@ == final(self).code(),
            final(self).code() != old(self).code(),
            final(self).generated_at() == now_ms,
            final(self).ttl() == old(self).ttl(),
    {
        proof {
            self.lemma_code_not_max();
        }
        self.code = generate_pair_code_except(self.code.as_str());
        self.generated_at_ms = now_ms;
        proof {
            lemma_code_is_six_digits(self.code@);
        }
        self.code.clone()
    }

    /// Whether the code has been shown for at least its lifetime at
    /// `now_ms` (no time has passed when `now_ms` is earlier).
    pub open spec fn expired(&self, now_ms: u64) -> bool {
        (if now_ms >= self.generated_at() { now_ms - self.generated_at() } else { 0 }) >= self.ttl()
    }

    /// Rotates the code when it has expired; returns the new code.
    pub fn rotate_if_expired(&mut self, now_ms: u64) -> (r: Option<String>)
        requires
            old(self).wf(),
        ensures
            final(self).wf(),
            final(self).ttl() == old(self).ttl(),
            !old(self).expired(now_ms) ==> r is None && final(self).code() == old(self).code()
                && final(self).generated_at() == old(self).generated_at(),
            old(self).expired(now_ms) ==> r is Some && r->0@ == final(self).code() && final(self).code() != old(
                self,
            ).code() && final(self).generated_at() == now_ms,
            r is Some ==> is_code(r->0@) && six_digits(r->0@),
    {
        let elapsed: u64 = if now_ms >= self.generated_at_ms { now_ms - self.generated_at_ms } else { 0 };
        if elapsed < self.ttl_ms {
            return None;
        }
        Some(self.rotate(now_ms))
    }

    /// Whether `code` is the code shown.
    pub fn match_current(&self, code: &str) -> (r: bool)
        ensures
            r == (code@ == self.code()),
    {
        str_eq(self.code.as_str(), code)
    }

    /// Uses up the code: when `code` is the one shown, it is replaced by a
    /// different one (returned); otherwise nothing changes.
    pub fn consume_current(&mut self, code: &str, now_ms: u64) -> (r: Option<String>)
        requires
            old(self).wf(),
        ensures
            final(self).wf(),
            final(self).ttl() == old(self).ttl(),
            code@ != old(self).code() ==> r is None && final(self).code() == old(self).code()
                && final(self).generated_at() == old(self).generated_at(),
            code@ == old(self).code() ==> r is Some && r->0@ == final(self).code() && final(self).code() != old(
                self,
            ).code() && final(self).generated_at() == now_ms,
            r is Some ==> is_code(r->0@) && six_digits(r->0@),
            consumed(*old(self), *final(self), code@, r is Some),
    {
        if !str_eq(self.code.as_str(), code) {
            return None;
        }
        Some(self.rotate(now_ms))
    }

    proof fn lemma_code_not_max(&self)
        requires
            self.wf(),
        ensures
            parsed_u32(self.code@) != Some(u32::MAX as nat),
    {
        let n = choose|n: nat| n < CODE_SPACE && self.code@ == code_text(n);
        lemma_code_parses(n);
    }
}

/// What [`PairingCodes::consume_current`] does when `code` is presented:
/// `accepted` exactly when it is the code shown; an accepted code is
/// replaced by a different one, a refused one changes nothing.
pub open spec fn consumed(before: PairingCodes, after: PairingCodes, code: Seq<char>, accepted: bool) -> bool {
    &&& accepted == (code == before.code())
    &&& after.ttl() == before.ttl()
    &&& accepted ==> after.code() != before.code()
    &&& !accepted ==> after.code() == before.code() && after.generated_at() == before.generated_at()
}

/// A code is accepted at most once: once `consume_current` has accepted
/// `code`, presenting the same code again is refused and changes nothing.
pub proof fn lemma_code_single_use(
    s0: PairingCodes,
    s1: PairingCodes,
    s2: PairingCodes,
    code: Seq<char>,
    again: bool,
)
    requires
        consumed(s0, s1, code, true),
        consumed(s1, s2, code, again),
    ensures
        !again,
        s2.code() == s1.code(),
        s2.generated_at() == s1.generated_at(),
{
}

} // verus!
