use vstd::prelude::*;

use crate::addon::AddonFile;
use crate::text::{chars_of, parse_decimal, string_of};

verus! {

/// The SHA-1 digest of some bytes.
pub uninterp spec fn sha1_of(b: Seq<u8>) -> Seq<u8>;

/// The instant an HTTP date names, in seconds since the Unix epoch; `None` where the text is
/// not an HTTP date.
pub uninterp spec fn http_date_secs(s: Seq<char>) -> Option<u64>;

/// The instant an RFC 3339 timestamp names, in whole seconds since the Unix epoch; `None` where
/// the text is not such a timestamp.
pub uninterp spec fn rfc3339_secs(s: Seq<char>) -> Option<i64>;

/// Relies on `chrono::DateTime::parse_from_rfc3339` and `DateTime::timestamp`: the instant the
/// timestamp names, in whole seconds since the Unix epoch.
#[verifier::external_body]
fn parse_rfc3339_secs(s: &str) -> (r: Option<i64>)
    ensures
        r == rfc3339_secs(s@),
{
    chrono::DateTime::parse_from_rfc3339(s).ok().map(|d| d.timestamp())
}

/// A file's publication time: the text as an RFC 3339 timestamp, or, lacking a zone, as one in
/// UTC.
pub fn parse_date(s: &str) -> (r: Option<i64>)
    ensures
        r == match rfc3339_secs(s@) {
            Some(t) => Some(t),
            None => rfc3339_secs(s@ + seq!['Z']),
        },
{
    match parse_rfc3339_secs(s) {
        Some(t) => Some(t),
        None => {
            let mut c = chars_of(s);
            c.push('Z');
            let z = string_of(c.as_slice());
            assert(z@ =~= s@ + seq!['Z']);
            parse_rfc3339_secs(z.as_str())
        },
    }
}

/// Relies on `sha1::Sha1::digest`: the 20-byte SHA-1 digest of the bytes.
#[verifier::external_body]
fn sha1_digest(b: &[u8]) -> (r: Vec<u8>)
    ensures
        r@ == sha1_of(b@),
        r@.len() == 20,
{
    <sha1::Sha1 as sha1::Digest>::digest(b).to_vec()
}

/// A lowercase hex digit.
pub open spec fn hex_digit(n: u8) -> char {
    if n < 10 {
        (48 + n) as char
    } else {
        (87 + n) as char
    }
}

/// Two lowercase hex digits per byte, high nibble first.
pub open spec fn hex_lower(b: Seq<u8>) -> Seq<char>
    decreases b.len(),
{
    if b.len() == 0 {
        seq![]
    } else {
        hex_lower(b.drop_last()) + seq![hex_digit(b.last() / 16), hex_digit(b.last() % 16)]
    }
}

/// Relies on `hex::encode`: two lowercase digits per byte, high nibble first.
#[verifier::external_body]
fn hex_encode(b: &[u8]) -> (r: String)
    ensures
        r@ == hex_lower(b@),
{
    hex::encode(b)
}

/// Relies on `httpdate::parse_http_date`: the instant an HTTP date names, as whole seconds
/// since the Unix epoch.
#[verifier::external_body]
fn parse_http_date_secs(s: &str) -> (r: Option<u64>)
    ensures
        r == http_date_secs(s@),
{
    match httpdate::parse_http_date(s) {
        Ok(t) => t.duration_since(std::time::UNIX_EPOCH).ok().map(|d| d.as_secs()),
        Err(_) => None,
    }
}

/// The SHA-1 of the bytes as lowercase hex, as stored and compared.
pub fn sha1_hex(b: &[u8]) -> (r: String)
    ensures
        r@ == hex_lower(sha1_of(b@)),
{
    let d = sha1_digest(b);
    hex_encode(d.as_slice())
}

/// A transient failure of one transfer attempt.
#[derive(Clone, Copy, Debug, PartialEq, Eq, Structural)]
pub enum SoftError {
    RateLimited,
    LengthMismatch,
    HashMismatch,
}

/// The bytes agree with the hash the server declared, if any.
pub open spec fn hash_ok(file: AddonFile, b: Seq<u8>) -> bool {
    match file.sha1_hash {
        Some(h) => h@ == hex_lower(sha1_of(b)),
        None => true,
    }
}

/// Checks transferred bytes against the file's length and, if the server declared one, its
/// hash; gives the bytes' hash.
pub fn check_transfer(file: &AddonFile, body: &[u8]) -> (r: Result<String, SoftError>)
    ensures
        body@.len() != file.file_length ==> r == Err::<String, SoftError>(SoftError::LengthMismatch),
        body@.len() == file.file_length && !hash_ok(*file, body@) ==> r == Err::<String, SoftError>(SoftError::HashMismatch),
        body@.len() == file.file_length && hash_ok(*file, body@) ==> (r matches Ok(s) && s@ == hex_lower(sha1_of(body@))),
{
    if body.len() as u64 != file.file_length {
        return Err(SoftError::LengthMismatch);
    }
    let sha = sha1_hex(body);
    match &file.sha1_hash {
        Some(h) => {
            if sha != *h {
                return Err(SoftError::HashMismatch);
            }
        },
        None => {},
    }
    Ok(sha)
}

/// How many attempts a transfer gets: the configured count, at least one.
pub fn attempt_count(soft_retries: u32) -> (r: u32)
    ensures
        r == if soft_retries >= 1 { soft_retries } else { 1 },
{
    if soft_retries >= 1 { soft_retries } else { 1 }
}

pub open spec fn pow4(e: nat) -> nat
    decreases e,
{
    if e == 0 { 1 } else { 4 * pow4((e - 1) as nat) }
}

/// The default wait before retrying attempt `attempt`: `4^min(attempt, 3)` seconds.
pub fn backoff_secs(attempt: u32) -> (r: u64)
    ensures
        r == pow4(if attempt <= 3 { attempt as nat } else { 3 }),
{
    assert(pow4(1) == 4 && pow4(2) == 16 && pow4(3) == 64) by {
        reveal_with_fuel(pow4, 4);
    }
    if attempt == 0 {
        1
    } else if attempt == 1 {
        4
    } else if attempt == 2 {
        16
    } else {
        64
    }
}

/// The seconds that a `Retry-After` value in whole seconds asks for, as `u64::from_str` reads it.
pub open spec fn seconds_value(b: Seq<u8>) -> Option<u64> {
    if b.len() > 1 && b[0] == 43 {
        crate::text::decimal_value(b.drop_first())
    } else {
        crate::text::decimal_value(b)
    }
}

/// The wait that a `Retry-After` value asks for, given the instant it names if it is an HTTP
/// date, and the time `now_secs`: a date still ahead gives the seconds until it plus one; a
/// date passed gives `fallback`; otherwise an integer gives that many seconds, and anything else
/// `fallback`.
pub open spec fn wait_given(date: Option<u64>, h: Seq<char>, fallback: u64, now_secs: u64) -> u64 {
    match date {
        Some(t) => if t >= now_secs {
            if t - now_secs < u64::MAX { (t - now_secs + 1) as u64 } else { u64::MAX }
        } else {
            fallback
        },
        None => match seconds_value(vstd::utf8::encode_utf8(h)) {
            Some(s) => s,
            None => fallback,
        },
    }
}

/// The wait that a rate-limited response asks for; with no header, `fallback`.
pub open spec fn retry_wait(retry_after: Option<Seq<char>>, fallback: u64, now_secs: u64) -> u64 {
    match retry_after {
        None => fallback,
        Some(h) => wait_given(http_date_secs(h), h, fallback, now_secs),
    }
}

/// How long to wait after a rate-limited response whose `Retry-After` value is `h`, given what
/// reading `h` as an HTTP date gave.
pub fn retry_wait_given(date: Option<u64>, h: &str, fallback: u64, now_secs: u64) -> (r: u64)
    ensures
        r == wait_given(date, h@, fallback, now_secs),
{
    match date {
        Some(t) => {
            if t >= now_secs {
                if t - now_secs < u64::MAX { t - now_secs + 1 } else { u64::MAX }
            } else {
                fallback
            }
        },
        None => {
            let b = h.as_bytes();
            let v = if b.len() > 1 && b[0] == 43 {
                let mut rest: Vec<u8> = Vec::new();
                let mut i: usize = 1;
                while i < b.len()
                    invariant
                        1 <= i <= b@.len(),
                        rest@ == b@.subrange(1, i as int),
                    decreases b@.len() - i,
                {
                    rest.push(b[i]);
                    i = i + 1;
                    assert(rest@ =~= b@.subrange(1, i as int));
                }
                assert(rest@ =~= b@.drop_first());
                parse_decimal(rest.as_slice())
            } else {
                parse_decimal(b)
            };
            match v {
                Some(s) => s,
                None => fallback,
            }
        },
    }
}

/// How long to wait after a rate-limited response.
pub fn parse_retry_duration(retry_after: Option<&str>, fallback: u64, now_secs: u64) -> (r: u64)
    ensures
        r == retry_wait(crate::conf::opt_view(retry_after), fallback, now_secs),
{
    match retry_after {
        None => fallback,
        Some(h) => retry_wait_given(parse_http_date_secs(h), h, fallback, now_secs),
    }
}

/// What one attempt at fetching the bytes came to.
#[derive(Clone, Debug)]
pub enum TransferOutcome {
    /// The server answered 429 and asks to wait this long.
    TooManyRequests { wait_secs: u64 },
    /// The bytes arrived.
    Body(Vec<u8>),
}

/// What to do after an attempt.
#[derive(Clone, Debug)]
pub enum TransferStep {
    /// Store the bytes, whose hash is `sha`.
    Store { sha: String },
    /// Wait, then make the next attempt.
    Retry { sleep_secs: u64, error: SoftError },
    /// The attempts are used up; this was the last failure.
    GiveUp(SoftError),
}

/// Decides what follows attempt `attempt` (counted from zero) of `tries`.
pub fn after_attempt(file: &AddonFile, attempt: u32, tries: u32, outcome: &TransferOutcome) -> (r: TransferStep)
    requires
        attempt < tries,
    ensures
        match *outcome {
            TransferOutcome::TooManyRequests { wait_secs } => if attempt + 1 < tries {
                (r matches TransferStep::Retry { sleep_secs, error } && sleep_secs == wait_secs && error == SoftError::RateLimited)
            } else {
                (r matches TransferStep::GiveUp(e) && e == SoftError::RateLimited)
            },
            TransferOutcome::Body(b) => {
                let bad = b@.len() != file.file_length || !hash_ok(*file, b@);
                if !bad {
                    (r matches TransferStep::Store { sha } && sha@ == hex_lower(sha1_of(b@)))
                } else if attempt + 1 < tries {
                    (r matches TransferStep::Retry { sleep_secs, error } && sleep_secs == 0
                        && error == (if b@.len() != file.file_length { SoftError::LengthMismatch } else { SoftError::HashMismatch }))
                } else {
                    (r matches TransferStep::GiveUp(e)
                        && e == (if b@.len() != file.file_length { SoftError::LengthMismatch } else { SoftError::HashMismatch }))
                }
            },
        },
{
    let last = attempt + 1 >= tries;
    match outcome {
        TransferOutcome::TooManyRequests { wait_secs } => {
            if last {
                TransferStep::GiveUp(SoftError::RateLimited)
            } else {
                TransferStep::Retry { sleep_secs: *wait_secs, error: SoftError::RateLimited }
            }
        },
        TransferOutcome::Body(b) => {
            match check_transfer(file, b.as_slice()) {
                Ok(sha) => TransferStep::Store { sha },
                Err(e) => {
                    if last {
                        TransferStep::GiveUp(e)
                    } else {
                        TransferStep::Retry { sleep_secs: 0, error: e }
                    }
                },
            }
        },
    }
}

} // verus!
