//! Settings and their defaults.

use vstd::prelude::*;
use vstd::string::StrSliceExecFns;

use crate::history::DEFAULT_HISTORY_BYTES;

verus! {

pub const CACHE_LOSS_FUNNEL_ENABLED_ENV: &'static str = "DYN_CACHE_LOSS_FUNNEL_ENABLED";

pub const CACHE_LOSS_HISTORY_BLOCKS_ENV: &'static str = "DYN_CACHE_LOSS_HISTORY_BLOCKS";

pub const DEFAULT_CACHE_LOSS_HISTORY_BLOCKS: usize = 1_000_000;

pub const CACHE_LOSS_EVIDENCE_FRESHNESS_MS_ENV: &'static str =
    "DYN_CACHE_LOSS_EVIDENCE_FRESHNESS_MS";

pub const DEFAULT_CACHE_LOSS_EVIDENCE_FRESHNESS_MS: u64 = 5_000;

pub const CACHE_LOSS_BARRIER_TIMEOUT_MS_ENV: &'static str = "DYN_CACHE_LOSS_BARRIER_TIMEOUT_MS";

pub const DEFAULT_CACHE_LOSS_BARRIER_TIMEOUT_MS: u64 = 250;

pub const CACHE_LOSS_BARRIER_PENDING_ENV: &'static str = "DYN_CACHE_LOSS_BARRIER_PENDING";

pub const DEFAULT_CACHE_LOSS_BARRIER_PENDING: usize = 1_024;

pub const CACHE_LOSS_COLD_EPOCH_SINGLE_FRONTEND_ENV: &'static str =
    "DYN_CACHE_LOSS_COLD_EPOCH_SINGLE_FRONTEND";

pub const CACHE_LOSS_COLD_EPOCH_READINESS_MS_ENV: &'static str =
    "DYN_CACHE_LOSS_COLD_EPOCH_READINESS_MS";

pub const DEFAULT_COLD_EPOCH_READINESS_MS: u64 = 120_000;

pub const COLD_EPOCH_LEASE_MS: u64 = 30_000;

pub const COLD_EPOCH_BEGIN_TIMEOUT_MS: u64 = 12_000;

pub const COLD_EPOCH_RELEASE_TIMEOUT_MS: u64 = 1_000;

/// The value of a decimal digit.
pub open spec fn digit(c: char) -> nat {
    (c as int - '0' as int) as nat
}

pub open spec fn is_digit(c: char) -> bool {
    '0' <= c && c <= '9'
}

/// The number that digits spell.
pub open spec fn decimal(digits: Seq<char>) -> nat
    decreases digits.len(),
{
    if digits.len() == 0 {
        0
    } else {
        decimal(digits.drop_last()) * 10 + digit(digits.last())
    }
}

/// The digits of a number, behind a plus sign if there is one.
pub open spec fn digits_of(text: Seq<char>) -> Seq<char> {
    if text.len() > 0 && text[0] == '+' {
        text.skip(1)
    } else {
        text
    }
}

/// The text is a number up to `max`: an optional plus sign and at least one
/// digit, and nothing else.
pub open spec fn is_number(text: Seq<char>, max: u64) -> bool {
    &&& digits_of(text).len() > 0
    &&& forall|i: int| 0 <= i < digits_of(text).len() ==> is_digit(#[trigger] digits_of(text)[i])
    &&& decimal(digits_of(text)) <= max
}

/// A longer number is no smaller.
proof fn lemma_decimal_grows(digits: Seq<char>, count: int)
    requires
        0 <= count <= digits.len(),
    ensures
        decimal(digits.take(count)) <= decimal(digits),
    decreases digits.len(),
{
    if count == digits.len() {
        assert(digits.take(count) =~= digits);
    } else {
        lemma_decimal_grows(digits.drop_last(), count);
        assert(digits.drop_last().take(count) =~= digits.take(count));
    }
}

/// Reads a number up to `max`.
pub fn parse_number(text: &str, max: u64) -> (number: Option<u64>)
    ensures
        match number {
            Some(number) => is_number(text@, max) && number == decimal(digits_of(text@)),
            None => !is_number(text@, max),
        },
{
    let len: usize = text.unicode_len();
    let first: usize = if len > 0 && text.get_char(0) == '+' {
        1
    } else {
        0
    };
    let ghost digits = digits_of(text@);
    if first == len {
        return None;
    }
    let mut number: u64 = 0;
    let mut i: usize = first;
    proof {
        assert(digits =~= text@.skip(first as int));
        assert(digits.take(0) =~= Seq::<char>::empty());
    }
    while i < len
        invariant
            first <= i <= len,
            first <= 1,
            len == text@.len(),
            digits == text@.skip(first as int),
            digits == digits_of(text@),
            number == decimal(digits.take(i - first)),
            number <= max,
            forall|j: int| 0 <= j < i - first ==> is_digit(#[trigger] digits[j]),
        decreases len - i,
    {
        let c: char = text.get_char(i);
        let ghost at = i - first;
        assert(digits[at] == c);
        if c < '0' || c > '9' {
            assert(!is_digit(digits[at]));
            return None;
        }
        let value: u64 = c as u64 - '0' as u64;
        proof {
            assert(digits.take(at + 1).drop_last() =~= digits.take(at));
            assert(decimal(digits.take(at + 1)) == number * 10 + value);
            lemma_decimal_grows(digits, at + 1);
        }
        if number > (u64::MAX - value) / 10 || number * 10 + value > max {
            return None;
        }
        number = number * 10 + value;
        i = i + 1;
    }
    assert(digits.take(i - first) =~= digits);
    Some(number)
}

/// The value of a setting that must be a positive number up to `max`; anything
/// else falls back to the default.
pub open spec fn setting(value: Option<&str>, max: u64, default: u64) -> u64 {
    match value {
        Some(text) => if is_number(text@, max) && decimal(digits_of(text@)) > 0 {
            decimal(digits_of(text@)) as u64
        } else {
            default
        },
        None => default,
    }
}

fn positive_or(value: Option<&str>, max: u64, default: u64) -> (number: u64)
    ensures
        number == setting(value, max, default),
{
    match value {
        Some(text) => match parse_number(text, max) {
            Some(number) => if number > 0 {
                number
            } else {
                default
            },
            None => default,
        },
        None => default,
    }
}

/// The value of a setting that must be a positive size.
fn positive_size_or(value: Option<&str>, default: usize) -> (size: usize)
    ensures
        size == setting(value, usize::MAX as u64, default as u64),
{
    positive_or(value, usize::MAX as u64, default as u64) as usize
}

/// How many blocks the history of the ledger retains.
pub fn history_capacity(value: Option<&str>) -> (blocks: usize)
    ensures
        blocks == setting(
            value,
            usize::MAX as u64,
            DEFAULT_CACHE_LOSS_HISTORY_BLOCKS as u64,
        ),
{
    positive_size_or(value, DEFAULT_CACHE_LOSS_HISTORY_BLOCKS)
}

/// How many route-time cuts may be pending.
pub fn barrier_pending_capacity(value: Option<&str>) -> (cuts: usize)
    ensures
        cuts == setting(value, usize::MAX as u64, DEFAULT_CACHE_LOSS_BARRIER_PENDING as u64),
{
    positive_size_or(value, DEFAULT_CACHE_LOSS_BARRIER_PENDING)
}

/// How many bytes the history of completed requests may take.
pub fn history_bytes(value: Option<&str>) -> (bytes: usize)
    ensures
        bytes == setting(value, usize::MAX as u64, DEFAULT_HISTORY_BYTES as u64),
{
    positive_size_or(value, DEFAULT_HISTORY_BYTES)
}

/// Milliseconds as nanoseconds, saturating.
pub open spec fn nanos(millis: u64) -> u64 {
    if millis * 1_000_000 > u64::MAX {
        u64::MAX
    } else {
        (millis * 1_000_000) as u64
    }
}

/// How long a watermark counts as fresh, in nanoseconds.
pub fn evidence_freshness(value: Option<&str>) -> (age: u64)
    ensures
        age == nanos(setting(value, u64::MAX, DEFAULT_CACHE_LOSS_EVIDENCE_FRESHNESS_MS)),
{
    millis_to_nanos(positive_or(value, u64::MAX, DEFAULT_CACHE_LOSS_EVIDENCE_FRESHNESS_MS))
}

/// How long a cut may take, in nanoseconds.
pub fn barrier_timeout(value: Option<&str>) -> (timeout: u64)
    ensures
        timeout == nanos(setting(value, u64::MAX, DEFAULT_CACHE_LOSS_BARRIER_TIMEOUT_MS)),
{
    millis_to_nanos(positive_or(value, u64::MAX, DEFAULT_CACHE_LOSS_BARRIER_TIMEOUT_MS))
}

/// How long to wait for all workers before a cold epoch, in nanoseconds.
pub fn cold_epoch_readiness_timeout(value: Option<&str>) -> (timeout: u64)
    ensures
        timeout == nanos(setting(value, u64::MAX, DEFAULT_COLD_EPOCH_READINESS_MS)),
{
    millis_to_nanos(positive_or(value, u64::MAX, DEFAULT_COLD_EPOCH_READINESS_MS))
}

/// Milliseconds as nanoseconds, saturating.
pub fn millis_to_nanos(millis: u64) -> (nanos: u64)
    ensures
        nanos == self::nanos(millis),
{
    match millis.checked_mul(1_000_000) {
        Some(nanos) => nanos,
        None => u64::MAX,
    }
}

/// The character is the lower-case letter, or its upper-case form.
pub open spec fn reads_as(c: char, lower: char) -> bool {
    c == lower || ('a' <= lower && lower <= 'z' && c as int + 32 == lower as int)
}

/// The text is the lower-case word, in any mixture of cases.
pub open spec fn reads(text: Seq<char>, word: Seq<char>) -> bool {
    text.len() == word.len() && forall|i: int|
        0 <= i < word.len() ==> reads_as(#[trigger] text[i], word[i])
}

fn matches_word(text: &str, word: &str) -> (matches: bool)
    ensures
        matches == reads(text@, word@),
{
    let len: usize = text.unicode_len();
    if len != word.unicode_len() {
        return false;
    }
    let mut i: usize = 0;
    while i < len
        invariant
            i <= len,
            len == text@.len(),
            len == word@.len(),
            forall|j: int| 0 <= j < i ==> reads_as(#[trigger] text@[j], word@[j]),
        decreases len - i,
    {
        let c: char = text.get_char(i);
        let lower: char = word.get_char(i);
        let same = c == lower || ('a' <= lower && lower <= 'z' && c as u64 + 32 == lower as u64);
        if !same {
            assert(!reads_as(text@[i as int], word@[i as int]));
            return false;
        }
        i = i + 1;
    }
    true
}

/// The value switches a feature on: "1", "true" or "yes", in any case.
pub open spec fn is_affirmative(value: Seq<char>) -> bool {
    reads(value, "1"@) || reads(value, "true"@) || reads(value, "yes"@)
}

/// Whether a feature is switched on by the value of its variable, if it has
/// one.
pub fn enabled(value: Option<&str>) -> (on: bool)
    ensures
        on == match value {
            Some(value) => is_affirmative(value@),
            None => false,
        },
{
    match value {
        Some(value) => matches_word(value, "1") || matches_word(value, "true") || matches_word(
            value,
            "yes",
        ),
        None => false,
    }
}

/// When a cold epoch that is issued now runs out.
pub fn epoch_deadline(issued_at_unix_ms: u64) -> (deadline: u64)
    ensures
        deadline == if issued_at_unix_ms + COLD_EPOCH_LEASE_MS > u64::MAX {
            u64::MAX as int
        } else {
            issued_at_unix_ms + COLD_EPOCH_LEASE_MS
        },
{
    issued_at_unix_ms.saturating_add(COLD_EPOCH_LEASE_MS)
}

} // verus!
