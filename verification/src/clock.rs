//! Time and identifiers from outside: the wall clock, the monotonic clock, random ids.

use std::collections::hash_map::DefaultHasher;
use std::hash::Hasher;
use std::time::Instant;
use vstd::arithmetic::div_mod::lemma_div_denominator;
use vstd::arithmetic::power::{lemma_pow0, lemma_pow_positive, pow};
use vstd::prelude::*;
use vstd::std_specs::hash::DefaultHasherAdditionalSpecFns;

verus! {

/// A reading of the monotonic clock.
#[verifier::external_type_specification]
#[verifier::external_body]
pub struct ExInstant(Instant);

/// Reads the monotonic clock.
///
/// Trusted: `std::time::Instant::now` gives a reading; nothing is claimed of it.
#[verifier::external_body]
pub(crate) fn monotonic_now() -> Instant {
    Instant::now()
}

/// Nanoseconds that have passed since a reading of the monotonic clock.
///
/// Trusted: `std::time::Instant::elapsed` reads the clock again; nothing is claimed of it.
#[verifier::external_body]
pub(crate) fn nanos_since(then: &Instant) -> u128 {
    then.elapsed().as_nanos()
}

/// The nanoseconds of a second.
pub const SECOND: i128 = 1_000_000_000;

/// The wall clock: seconds since the Unix epoch, and the nanoseconds beyond them.
///
/// Trusted: `chrono::Utc::now` reads the clock of the machine; nothing is claimed of what it
/// reads.
#[verifier::external_body]
fn utc_reading() -> (i64, u32) {
    let t = chrono::Utc::now();
    (t.timestamp(), t.timestamp_subsec_nanos())
}

/// The wall clock, in nanoseconds since the Unix epoch.
pub(crate) fn utc_now() -> i128 {
    let (seconds, nanos) = utc_reading();
    seconds as i128 * SECOND + nanos as i128
}

/// A random identifier.
///
/// Trusted: `uuid::Uuid::new_v4` makes a random id, whose text form has thirty-six characters.
#[verifier::external_body]
pub(crate) fn random_id() -> (r: String)
    ensures
        r@.len() == 36,
{
    uuid::Uuid::new_v4().to_string()
}

/// Whole seconds between two times, cut off towards zero; negative where `then` is later than
/// `now`.
pub open spec fn seconds_between(now: int, then: int) -> int {
    if now >= then {
        (now - then) / 1_000_000_000
    } else {
        -((then - now) / 1_000_000_000)
    }
}

/// How far two times lie apart.
fn gap(later: i128, earlier: i128) -> (r: u128)
    requires
        later >= earlier,
    ensures
        r == later - earlier,
{
    if earlier >= 0 || later < 0 {
        (later - earlier) as u128
    } else {
        // The distance of the earlier time from the epoch, which may be one more than the largest
        // positive number.
        let before: u128 = (-(earlier + 1)) as u128 + 1;
        later as u128 + before
    }
}

/// Whole seconds from `then` to `now`.
pub fn seconds_since(now: i128, then: i128) -> (r: i128)
    ensures
        r == seconds_between(now as int, then as int),
{
    if now >= then {
        (gap(now, then) / 1_000_000_000) as i128
    } else {
        -((gap(then, now) / 1_000_000_000) as i128)
    }
}

/// The last sixty-four bits of a number, read as an unsigned one.
pub open spec fn as_unsigned(n: int) -> int {
    n % 0x1_0000_0000_0000_0000
}

/// Whole seconds from `then` to `now` as an unsigned number: a time that lies ahead counts
/// as a very long time ago.
pub fn unsigned_seconds_since(now: i128, then: i128) -> (r: u64)
    ensures
        r == as_unsigned(seconds_between(now as int, then as int)),
{
    let s: i128 = seconds_since(now, then);
    if s >= 0 {
        (s as u128 % 0x1_0000_0000_0000_0000) as u64
    } else {
        // The remainder of a negative number, counted from the next multiple below it.
        let m: u128 = (-(s + 1)) as u128 % 0x1_0000_0000_0000_0000;
        (0xffff_ffff_ffff_ffff - m) as u64
    }
}

/// The whole seconds of a time, as a number of thirty-two bits.
pub open spec fn low_seconds(t: int) -> u32 {
    ((t / 1_000_000_000) % 0x1_0000_0000) as u32
}

/// The whole seconds of a time, as a number of thirty-two bits.
pub fn seconds32(t: i128) -> (r: u32)
    ensures
        r == low_seconds(t as int),
{
    if t >= 0 {
        ((t as u128 / 1_000_000_000) % 0x1_0000_0000) as u32
    } else {
        let m: u128 = (-(t + 1)) as u128;
        let q: u128 = m / 1_000_000_000;
        assert(t as int / 1_000_000_000 == -(q as int) - 1);
        (0xffff_ffff - q % 0x1_0000_0000) as u32
    }
}

/// The seconds that remain until an expiry, as a number of thirty-two bits; zero where there is
/// no expiry or it is over.
pub open spec fn remaining_seconds(expiry: Option<i128>, now: i128) -> u32 {
    match expiry {
        Some(e) => if e > now {
            (((e - now) / 1_000_000_000) % 0x1_0000_0000) as u32
        } else {
            0
        },
        None => 0,
    }
}

/// The seconds that remain until an expiry.
pub fn seconds_left(expiry: Option<i128>, now: i128) -> (r: u32)
    ensures
        r == remaining_seconds(expiry, now),
{
    match expiry {
        Some(e) => if e > now {
            ((gap(e, now) / 1_000_000_000) % 0x1_0000_0000) as u32
        } else {
            0
        },
        None => 0,
    }
}

// ---- Texts ----

/// The whole seconds of a time, as far as a number of sixty-four bits goes.
pub open spec fn whole_seconds(t: int) -> i64 {
    let s = t / 1_000_000_000;
    if s > i64::MAX {
        i64::MAX
    } else if s < i64::MIN {
        i64::MIN
    } else {
        s as i64
    }
}

/// The nanoseconds of a time beyond its whole seconds.
pub open spec fn subsecond_nanos(t: int) -> u32 {
    (t % 1_000_000_000) as u32
}

/// Takes a time apart.
fn parts_of(t: i128) -> (r: (i64, u32))
    ensures
        r.0 == whole_seconds(t as int),
        r.1 == subsecond_nanos(t as int),
{
    if t >= 0 {
        let n: u128 = t as u128;
        let s: u128 = n / 1_000_000_000;
        let seconds: i64 = if s > 0x7fff_ffff_ffff_ffff {
            0x7fff_ffff_ffff_ffff
        } else {
            s as i64
        };
        (seconds, (n % 1_000_000_000) as u32)
    } else {
        let m: u128 = (-(t + 1)) as u128;
        let q: u128 = m / 1_000_000_000;
        assert(t as int / 1_000_000_000 == -(q as int) - 1);
        assert(t as int % 1_000_000_000 == 999_999_999 - m as int % 1_000_000_000);
        let seconds: i64 = if q > 0x7fff_ffff_ffff_ffff {
            -0x7fff_ffff_ffff_ffff - 1
        } else {
            -(q as i64) - 1
        };
        (seconds, (999_999_999 - m % 1_000_000_000) as u32)
    }
}

/// A time, as seconds since the Unix epoch and nanoseconds beyond them, in the notation of RFC 3339.
pub uninterp spec fn rfc3339_text(seconds: i64, nanos: u32) -> Seq<char>;

/// A time in the notation of RFC 3339.
///
/// Trusted: `chrono::DateTime::from_timestamp` and `to_rfc3339` write a time down in a way that
/// depends on the time alone; a time outside the calendar is written as the epoch. The text is left
/// unsaid.
#[verifier::external_body]
fn write_rfc3339(seconds: i64, nanos: u32) -> (r: String)
    ensures
        r@ == rfc3339_text(seconds, nanos),
{
    chrono::DateTime::from_timestamp(seconds, nanos).unwrap_or_default().to_rfc3339()
}

/// A time in the notation of RFC 3339.
pub open spec fn rfc3339_of(t: i128) -> Seq<char> {
    rfc3339_text(whole_seconds(t as int), subsecond_nanos(t as int))
}

/// A time in the notation of RFC 3339.
pub(crate) fn rfc3339(t: i128) -> (r: String)
    ensures
        r@ == rfc3339_of(t),
{
    let (seconds, nanos) = parts_of(t);
    write_rfc3339(seconds, nanos)
}

/// A time, as seconds since the Unix epoch and nanoseconds beyond them, written after a pattern.
pub uninterp spec fn patterned_text(seconds: i64, nanos: u32, pattern: Seq<char>) -> Seq<char>;

/// A time written after a pattern of year, month, day, an underscore, and hours, minutes and
/// seconds.
///
/// Trusted: `chrono::DateTime::from_timestamp` and `format` write a time down in a way that depends
/// on the time and the pattern alone; a time outside the calendar is written as the epoch. Other
/// patterns are left out because not all are sound. The text is left unsaid.
#[verifier::external_body]
fn write_patterned(seconds: i64, nanos: u32, pattern: &str) -> (r: String)
    requires
        pattern@ == "%Y%m%d_%H%M%S"@,
    ensures
        r@ == patterned_text(seconds, nanos, pattern@),
{
    chrono::DateTime::from_timestamp(seconds, nanos).unwrap_or_default().format(pattern).to_string()
}

/// A time written after a pattern.
pub open spec fn patterned_time_of(t: i128, pattern: Seq<char>) -> Seq<char> {
    patterned_text(whole_seconds(t as int), subsecond_nanos(t as int), pattern)
}

/// A time written after a pattern of year, month, day, an underscore, and hours, minutes and
/// seconds.
pub(crate) fn patterned_time(t: i128, pattern: &str) -> (r: String)
    requires
        pattern@ == "%Y%m%d_%H%M%S"@,
    ensures
        r@ == patterned_time_of(t, pattern@),
{
    let (seconds, nanos) = parts_of(t);
    write_patterned(seconds, nanos, pattern)
}

// ---- Numbers that differ ----

/// Nanoseconds since the Unix epoch, by the clock of the machine.
///
/// Trusted: `std::time::SystemTime::now` reads the clock; nothing is claimed of it.
#[verifier::external_body]
pub(crate) fn unix_nanos() -> u128 {
    std::time::SystemTime::now()
        .duration_since(std::time::UNIX_EPOCH)
        .unwrap_or_default()
        .as_nanos()
}

/// The last `k` bytes of a number, the least significant first.
pub open spec fn le_bytes(n: nat, k: nat) -> Seq<u8>
    decreases k,
{
    if k == 0 {
        Seq::empty()
    } else {
        seq![(n % 256) as u8] + le_bytes(n / 256, (k - 1) as nat)
    }
}

/// The hash of a number.
pub open spec fn number_hash(n: u128) -> u64 {
    DefaultHasher::spec_finish(Seq::empty().push(le_bytes(n as nat, 16)))
}

/// The hash of a number.
pub fn hash_number(n: u128) -> (r: u64)
    ensures
        r == number_hash(n),
{
    let mut bytes: Vec<u8> = Vec::new();
    let mut rest: u128 = n;
    let mut k: usize = 0;
    while k < 16
        invariant
            k <= 16,
            bytes@ + le_bytes(rest as nat, (16 - k) as nat) == le_bytes(n as nat, 16),
        decreases 16 - k,
    {
        let ghost prior = bytes@;
        let ghost tail = le_bytes(rest as nat / 256, (15 - k) as nat);
        bytes.push((rest % 256) as u8);
        assert(bytes@ + tail =~= prior + (seq![(rest as nat % 256) as u8] + tail));
        rest = rest / 256;
        k = k + 1;
    }
    assert(bytes@ =~= le_bytes(n as nat, 16));
    let mut h = DefaultHasher::new();
    h.write(bytes.as_slice());
    h.finish()
}

// ---- Laws ----

/// The seconds between two times are as many as fit in between, counted down where the first time is
/// the earlier one.
pub proof fn law_seconds_fit_in_between(now: int, then: int)
    ensures
        now >= then ==> seconds_between(now, then) * 1_000_000_000 <= now - then < (seconds_between(
            now,
            then,
        ) + 1) * 1_000_000_000,
        seconds_between(now, then) == -seconds_between(then, now),
{
}

/// As an unsigned number, one that fits is itself, and a negative one lies as far below two to the
/// power of sixty-four as it lies below zero.
pub proof fn law_negative_numbers_become_large(n: int)
    ensures
        0 <= n < 0x1_0000_0000_0000_0000 ==> as_unsigned(n) == n,
        -0x1_0000_0000_0000_0000 <= n < 0 ==> as_unsigned(n) == 0x1_0000_0000_0000_0000 + n,
{
}

/// What is left until an expiry ahead is as many whole seconds as fit in; nothing is left of one that
/// is over, or of none.
pub proof fn law_time_left_runs_out(expiry: i128, now: i128)
    ensures
        now < expiry && expiry - now < 0x1_0000_0000 * 1_000_000_000 ==> remaining_seconds(
            Some(expiry),
            now,
        ) * 1_000_000_000 <= expiry - now < (remaining_seconds(Some(expiry), now) + 1)
            * 1_000_000_000,
        expiry <= now ==> remaining_seconds(Some(expiry), now) == 0,
        remaining_seconds(None, now) == 0,
{
}

/// A time is its whole seconds and the nanoseconds beyond them, of which there are less than a
/// second.
pub proof fn law_times_are_seconds_and_nanos(t: int)
    requires
        i64::MIN * 1_000_000_000 <= t <= i64::MAX * 1_000_000_000,
    ensures
        whole_seconds(t) * 1_000_000_000 + subsecond_nanos(t) == t,
        0 <= subsecond_nanos(t) < 1_000_000_000,
        0 <= t < 0x1_0000_0000 * 1_000_000_000 ==> low_seconds(t) == whole_seconds(t),
{
}

/// The bytes of a number in little-endian order: each one counts two hundred and fifty-six times as
/// much as the one before it.
pub proof fn law_first_byte_counts_least(n: nat, k: nat, i: int)
    requires
        0 <= i < k,
    ensures
        le_bytes(n, k).len() == k,
        le_bytes(n, k)[i] as int == (n as int / pow(256, i as nat)) % 256,
    decreases k,
{
    lemma_le_len(n, k);
    lemma_pow_positive(256, i as nat);
    if i == 0 {
        lemma_pow0(256);
    } else {
        law_first_byte_counts_least(n / 256, (k - 1) as nat, i - 1);
        lemma_pow_positive(256, (i - 1) as nat);
        reveal(pow);
        assert(pow(256, i as nat) == 256 * pow(256, (i - 1) as nat));
        lemma_div_denominator(n as int, 256, pow(256, (i - 1) as nat));
        assert(le_bytes(n, k)[i] == le_bytes(n / 256, (k - 1) as nat)[i - 1]);
    }
}

proof fn lemma_le_len(n: nat, k: nat)
    ensures
        le_bytes(n, k).len() == k,
    decreases k,
{
    if k > 0 {
        lemma_le_len(n / 256, (k - 1) as nat);
    }
}

/// A number is hashed over its sixteen bytes; a time is written down by its seconds and nanoseconds.
pub proof fn law_times_are_written_by_their_parts(n: u128, t: i128, pattern: Seq<char>)
    ensures
        number_hash(n) == DefaultHasher::spec_finish(seq![le_bytes(n as nat, 16)]),
        rfc3339_of(t) == rfc3339_text(whole_seconds(t as int), subsecond_nanos(t as int)),
        patterned_time_of(t, pattern) == patterned_text(
            whole_seconds(t as int),
            subsecond_nanos(t as int),
            pattern,
        ),
{
}

} // verus!
