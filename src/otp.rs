//! One-time codes for the sign-in step, from a shared secret and the current
//! time, through otpauth's time-based code generator, and their six-digit form.

use otpauth::TOTP;
use vstd::prelude::*;
use vstd::string::StringExecFns;

verus! {

/// Seconds for which one code is valid.
pub const CODE_PERIOD_SECS: u64 = 30;

/// Codes have six decimal digits: they are below this bound.
pub const CODE_BOUND: u32 = 1_000_000;

/// A base-32 secret (RFC 4648, no padding): every character is `A`-`Z` or `2`-`7`.
pub open spec fn is_base32_secret(secret: Seq<char>) -> bool {
    forall|i: int|
        0 <= i < secret.len() ==> ('A' <= #[trigger] secret[i] <= 'Z') || ('2' <= secret[i] <= '7')
}

/// The code for time step `counter` of the key that a base-32 secret encodes.
pub uninterp spec fn base32_totp_code(secret: Seq<char>, counter: u64) -> u32;

/// The code for time step `counter` of a key made of the secret's own bytes.
pub uninterp spec fn raw_totp_code(secret: Seq<char>, counter: u64) -> u32;

/// Relies on otpauth's `TOTP::from_base32` and `TOTP::generate`: the secret
/// decodes (base32's RFC 4648 alphabet, no padding) exactly when each character
/// is `A`-`Z` or `2`-`7`; the code is HMAC-SHA1 of the key and
/// `timestamp / period`, reduced modulo one million, so it depends on the
/// secret and the time step alone. `generate` divides by the period.
#[verifier::external_body]
fn base32_code_at(secret: &str, period: u64, timestamp: u64) -> (r: Option<u32>)
    requires
        period > 0,
    ensures
        r is Some <==> is_base32_secret(secret@),
        r matches Some(c) ==> c == base32_totp_code(secret@, (timestamp / period) as u64),
        r matches Some(c) ==> c < 1_000_000,
{
    match TOTP::from_base32(secret) {
        Some(totp) => Some(totp.generate(period, timestamp)),
        None => None,
    }
}

/// Relies on otpauth's `TOTP::new` and `TOTP::generate`: the secret's bytes are
/// the key as they stand; the code is HMAC-SHA1 of the key and
/// `timestamp / period`, reduced modulo one million. `generate` divides by the
/// period.
#[verifier::external_body]
fn raw_code_at(secret: &str, period: u64, timestamp: u64) -> (r: u32)
    requires
        period > 0,
    ensures
        r == raw_totp_code(secret@, (timestamp / period) as u64),
        r < 1_000_000,
{
    TOTP::new(secret).generate(period, timestamp)
}

/// The code for `unix_secs` from a secret used as raw bytes, in steps of
/// `CODE_PERIOD_SECS`.
pub fn raw_secret_code(secret: &str, unix_secs: u64) -> (r: u32)
    ensures
        r == raw_totp_code(secret@, unix_secs / CODE_PERIOD_SECS),
        r < CODE_BOUND,
{
    raw_code_at(secret, CODE_PERIOD_SECS, unix_secs)
}

/// The code for `unix_secs` from a base-32 `secret`, in steps of
/// `CODE_PERIOD_SECS`; `None` when the secret is not valid base 32.
pub fn one_time_code(secret: &str, unix_secs: u64) -> (r: Option<u32>)
    ensures
        r is Some <==> is_base32_secret(secret@),
        r matches Some(c) ==> c == base32_totp_code(secret@, unix_secs / CODE_PERIOD_SECS),
        r matches Some(c) ==> c < CODE_BOUND,
{
    base32_code_at(secret, CODE_PERIOD_SECS, unix_secs)
}

/// Two times in one time step give the same code, from either kind of secret.
pub proof fn lemma_code_fixed_within_step(secret: Seq<char>, t1: u64, t2: u64)
    requires
        t1 / CODE_PERIOD_SECS == t2 / CODE_PERIOD_SECS,
    ensures
        base32_totp_code(secret, t1 / CODE_PERIOD_SECS) == base32_totp_code(
            secret,
            t2 / CODE_PERIOD_SECS,
        ),
        raw_totp_code(secret, t1 / CODE_PERIOD_SECS) == raw_totp_code(secret, t2 / CODE_PERIOD_SECS),
{
}

pub open spec fn digit_char(d: nat) -> char {
    if d == 0 {
        '0'
    } else if d == 1 {
        '1'
    } else if d == 2 {
        '2'
    } else if d == 3 {
        '3'
    } else if d == 4 {
        '4'
    } else if d == 5 {
        '5'
    } else if d == 6 {
        '6'
    } else if d == 7 {
        '7'
    } else if d == 8 {
        '8'
    } else {
        '9'
    }
}

/// The last six decimal digits of `code`, with leading zeros.
pub open spec fn six_digits(code: u32) -> Seq<char> {
    let c = code as nat;
    seq![
        digit_char((c / 100_000) % 10),
        digit_char((c / 10_000) % 10),
        digit_char((c / 1_000) % 10),
        digit_char((c / 100) % 10),
        digit_char((c / 10) % 10),
        digit_char(c % 10),
    ]
}

fn digit_str(d: u32) -> (r: &'static str)
    requires
        d < 10,
    ensures
        r@ == seq![digit_char(d as nat)],
{
    proof {
        reveal_strlit("0");
        reveal_strlit("1");
        reveal_strlit("2");
        reveal_strlit("3");
        reveal_strlit("4");
        reveal_strlit("5");
        reveal_strlit("6");
        reveal_strlit("7");
        reveal_strlit("8");
        reveal_strlit("9");
    }
    let r = if d == 0 {
        "0"
    } else if d == 1 {
        "1"
    } else if d == 2 {
        "2"
    } else if d == 3 {
        "3"
    } else if d == 4 {
        "4"
    } else if d == 5 {
        "5"
    } else if d == 6 {
        "6"
    } else if d == 7 {
        "7"
    } else if d == 8 {
        "8"
    } else {
        "9"
    };
    assert(r@ =~= seq![digit_char(d as nat)]);
    r
}

/// A code as typed: exactly six decimal digits, with leading zeros.
pub fn code_text(code: u32) -> (r: String)
    ensures
        r@ == six_digits(code),
        r@.len() == 6,
{
    let mut r = String::new();
    r.append(digit_str((code / 100_000) % 10));
    r.append(digit_str((code / 10_000) % 10));
    r.append(digit_str((code / 1_000) % 10));
    r.append(digit_str((code / 100) % 10));
    r.append(digit_str((code / 10) % 10));
    r.append(digit_str(code % 10));
    assert(r@ =~= six_digits(code));
    r
}

} // verus!
