//! Pacing of subtitle requests, and retries where the service asks to slow down.

use crate::text::{
    ascii_lowered, contains, has_text, texts_hold_what_stands_in_them, to_ascii_lowercase,
};
use std::collections::hash_map::DefaultHasher;
use std::hash::Hasher;
use vstd::arithmetic::power2::{lemma2_to64, pow2};
use vstd::prelude::*;
use vstd::std_specs::hash::DefaultHasherAdditionalSpecFns;

verus! {

/// How often a refused request is tried again.
pub const MAX_429_RETRIES: usize = 3;

/// The gap between requests, in milliseconds.
pub const MIN_SUBTITLE_REQUEST_GAP_MS: u64 = 300;

/// The delay before the first retry, in milliseconds.
pub const BASE_429_BACKOFF_MS: u64 = 1_000;

/// How long one attempt may take, in seconds.
pub const SUBTITLE_ATTEMPT_TIMEOUT_SECS: u64 = 300;

/// Whether the downloader's messages say that the service refused because of too many
/// requests.
pub open spec fn says_rate_limited(stderr: Seq<char>) -> bool {
    let lower = ascii_lowered(stderr);
    has_text(lower, "http error 429"@) || has_text(lower, "too many requests"@) || has_text(
        lower,
        "rate limit"@,
    ) || has_text(lower, "rate-limited"@)
}

/// Whether the downloader's messages say that the service refused because of too many
/// requests.
pub fn is_rate_limited(stderr: &str) -> (r: bool)
    ensures
        r == says_rate_limited(stderr@),
{
    let lower = to_ascii_lowercase(stderr);
    contains(lower.as_str(), "http error 429") || contains(lower.as_str(), "too many requests")
        || contains(lower.as_str(), "rate limit") || contains(lower.as_str(), "rate-limited")
}

/// How long to wait for a slot, when `elapsed` has passed since the last request.
pub open spec fn slot_wait(min_gap: u64, elapsed: u64) -> u64 {
    if elapsed < min_gap {
        (min_gap - elapsed) as u64
    } else {
        0
    }
}

/// When the last request is taken to have been at the start.
pub open spec fn first_request_time(min_gap: u64, now: u64) -> u64 {
    if min_gap <= now {
        (now - min_gap) as u64
    } else {
        now
    }
}

/// Keeps a gap between requests. Times are in any one unit.
#[derive(Debug, Clone, Copy)]
pub struct SubtitleRateLimiter {
    pub min_gap: u64,
}

impl SubtitleRateLimiter {
    pub fn new(min_gap: u64) -> (r: Self)
        ensures
            r.min_gap == min_gap,
    {
        SubtitleRateLimiter { min_gap }
    }

    /// When the last request is taken to have been at the start: a gap before now, so that
    /// the first request does not wait; now, where there is no such time.
    pub fn initial_request_time(&self, now: u64) -> (r: u64)
        ensures
            r == first_request_time(self.min_gap, now),
    {
        match now.checked_sub(self.min_gap) {
            Some(time) => time,
            None => now,
        }
    }

    /// How long to wait before the next request.
    pub fn wait_for_slot(&self, elapsed: u64) -> (r: u64)
        ensures
            r == slot_wait(self.min_gap, elapsed),
    {
        if elapsed < self.min_gap {
            self.min_gap - elapsed
        } else {
            0
        }
    }
}

/// Whatever time has passed, with the wait at least the gap lies between two requests, and
/// nobody waits longer than the gap or without need.
pub proof fn requests_keep_their_gap(min_gap: u64, elapsed: u64)
    ensures
        elapsed + slot_wait(min_gap, elapsed) >= min_gap,
        slot_wait(min_gap, elapsed) <= min_gap,
        elapsed >= min_gap ==> slot_wait(min_gap, elapsed) == 0,
{
}

/// Where there is a time a gap before now, the first request does not wait: the last one is
/// taken to have been at that time.
pub proof fn the_first_request_does_not_wait(min_gap: u64, now: u64)
    requires
        min_gap <= now,
    ensures
        slot_wait(min_gap, (now - first_request_time(min_gap, now)) as u64) == 0,
        first_request_time(min_gap, now) == now - min_gap,
{
}

/// What follows an attempt.
#[derive(Debug, Clone, Copy, PartialEq, Eq, Structural)]
pub enum SubtitleStep {
    /// Its outcome stands.
    Finished,
    /// Try again after a delay; so many retries have begun.
    Retry { retry_count: usize, delay_ms: u64 },
}

/// Two to the power of the number of retries before this one, at most eight.
pub open spec fn retry_multiplier(retry_count: nat) -> nat {
    if retry_count <= 1 {
        1
    } else if retry_count == 2 {
        2
    } else if retry_count == 3 {
        4
    } else {
        8
    }
}

/// What follows an attempt: a retry with twice the delay, where the service refused and
/// retries are left.
pub open spec fn step_after_attempt(
    retry_count: usize,
    success: bool,
    stderr: Seq<char>,
    base_backoff_ms: u64,
) -> SubtitleStep {
    if success || !says_rate_limited(stderr) || retry_count >= MAX_429_RETRIES {
        SubtitleStep::Finished
    } else {
        SubtitleStep::Retry {
            retry_count: (retry_count + 1) as usize,
            delay_ms: (base_backoff_ms * retry_multiplier((retry_count + 1) as nat)) as u64,
        }
    }
}

fn multiplier(retry_count: usize) -> (r: u64)
    ensures
        r == retry_multiplier(retry_count as nat),
        r <= 8,
{
    if retry_count <= 1 {
        1
    } else if retry_count == 2 {
        2
    } else if retry_count == 3 {
        4
    } else {
        8
    }
}

/// What follows an attempt after `retry_count` retries.
pub fn after_attempt(
    retry_count: usize,
    success: bool,
    stderr: &str,
    base_backoff_ms: u64,
) -> (step: SubtitleStep)
    requires
        base_backoff_ms * 8 <= u64::MAX,
    ensures
        step == step_after_attempt(retry_count, success, stderr@, base_backoff_ms),
{
    if success || !is_rate_limited(stderr) || retry_count >= MAX_429_RETRIES {
        return SubtitleStep::Finished;
    }
    let factor: u64 = multiplier(retry_count + 1);
    assert(base_backoff_ms * factor <= base_backoff_ms * 8) by (nonlinear_arith)
        requires
            factor <= 8,
    ;
    SubtitleStep::Retry { retry_count: retry_count + 1, delay_ms: base_backoff_ms * factor }
}

/// A request is retried at most so often, only where it was refused, and each retry counts.
pub proof fn retries_are_bounded(
    retry_count: usize,
    success: bool,
    stderr: Seq<char>,
    base_backoff_ms: u64,
)
    ensures
        step_after_attempt(retry_count, success, stderr, base_backoff_ms) matches SubtitleStep::Retry {
            retry_count: next,
            ..
        } ==> !success && says_rate_limited(stderr) && next == retry_count + 1 && next
            <= MAX_429_RETRIES,
        retry_count >= MAX_429_RETRIES ==> step_after_attempt(
            retry_count,
            success,
            stderr,
            base_backoff_ms,
        ) == SubtitleStep::Finished,
{
}

/// The first delay of jittered retries, in milliseconds.
pub const JITTERED_BACKOFF_MS: u64 = 2_000;

/// The longest delay of jittered retries but for the jitter, in milliseconds.
pub const MAX_429_BACKOFF_MS: u64 = 16_000;

/// The largest jitter, in milliseconds.
pub const MAX_JITTER_MS: u64 = 300;

/// Whether, on some machine and in some release of std, `std::hash::Hash::hash` of `str` takes
/// a hasher that was fed `before` to one that was fed `after`, for a text.
pub uninterp spec fn feeds_text(text: Seq<char>, before: Seq<Seq<u8>>, after: Seq<Seq<u8>>) -> bool;

/// Calls `std::hash::Hash::hash` of `str`: feeds a text to the hasher. What is fed is portable
/// neither across machines nor across releases, so it is one of the things that may be fed for
/// the text, and not stated which.
#[verifier::external_body]
fn hash_text(text: &str, hasher: &mut DefaultHasher)
    ensures
        feeds_text(text@, old(hasher)@, final(hasher)@),
{
    std::hash::Hash::hash(text, hasher)
}

/// Whether, on some machine and in some release of std, `std::hash::Hash::hash` of `usize`
/// takes a hasher that was fed `before` to one that was fed `after`, for a number.
pub uninterp spec fn feeds_number(number: usize, before: Seq<Seq<u8>>, after: Seq<Seq<u8>>) -> bool;

/// Calls `std::hash::Hash::hash` of `usize`: feeds a number to the hasher. What is fed depends
/// on the machine's word size and byte order, so it is one of the things that may be fed for
/// the number, and not stated which.
#[verifier::external_body]
fn hash_number(number: usize, hasher: &mut DefaultHasher)
    ensures
        feeds_number(number, old(hasher)@, final(hasher)@),
{
    std::hash::Hash::hash(&number, hasher)
}

/// The jitter that a hash gives.
pub open spec fn jitter(hash: u64) -> u64 {
    hash % (MAX_JITTER_MS + 1) as u64
}

/// The delay before a jittered retry, but for the jitter.
pub open spec fn exponential_delay(retry_count: nat) -> u64 {
    let delay = JITTERED_BACKOFF_MS * retry_multiplier(retry_count);
    if delay <= MAX_429_BACKOFF_MS {
        delay as u64
    } else {
        MAX_429_BACKOFF_MS
    }
}

/// Whether a new hasher that is fed a video and then a number of retries may give a jitter.
pub open spec fn possible_jitter(video_id: Seq<char>, retry_count: usize, jitter_ms: u64) -> bool {
    exists|video_fed: Seq<Seq<u8>>, all_fed: Seq<Seq<u8>>|
        {
            &&& #[trigger] feeds_text(video_id, Seq::empty(), video_fed)
            &&& #[trigger] feeds_number(retry_count, video_fed, all_fed)
            &&& jitter_ms == jitter(DefaultHasher::spec_finish(all_fed))
        }
}

/// The jitter of a retry, which a hash of the video and of the number of retries gives.
pub fn deterministic_jitter_ms(video_id: &str, retry_count: usize) -> (r: u64)
    ensures
        possible_jitter(video_id@, retry_count, r),
        r <= MAX_JITTER_MS,
{
    let mut hasher = DefaultHasher::new();
    hash_text(video_id, &mut hasher);
    let ghost video_fed = hasher@;
    hash_number(retry_count, &mut hasher);
    assert(feeds_text(video_id@, Seq::empty(), video_fed));
    assert(feeds_number(retry_count, video_fed, hasher@));
    jitter_of_hash(hasher.finish())
}

/// The jitter that a hash gives.
pub fn jitter_of_hash(hash: u64) -> (r: u64)
    ensures
        r == jitter(hash),
        r <= MAX_JITTER_MS,
{
    hash % (MAX_JITTER_MS + 1)
}

/// The delay before a retry, in milliseconds, given its jitter.
pub fn retry_delay_with_jitter(retry_count: usize, jitter_ms: u64) -> (r: u64)
    requires
        jitter_ms <= MAX_JITTER_MS,
    ensures
        r == exponential_delay(retry_count as nat) + jitter_ms,
{
    let delay: u64 = JITTERED_BACKOFF_MS * multiplier(retry_count);
    if delay <= MAX_429_BACKOFF_MS {
        delay + jitter_ms
    } else {
        MAX_429_BACKOFF_MS + jitter_ms
    }
}

/// Whether a retry may be delayed so long: by what the number of retries calls for, and by a
/// jitter that it may have.
pub open spec fn possible_delay(video_id: Seq<char>, retry_count: usize, delay_ms: u64) -> bool {
    exists|jitter_ms: u64| #[trigger]
        possible_jitter(video_id, retry_count, jitter_ms) && delay_ms == exponential_delay(
            retry_count as nat,
        ) + jitter_ms
}

/// The delay before a retry, in milliseconds: the one that the number of retries calls for,
/// and the retry's jitter.
pub fn retry_delay_for(video_id: &str, retry_count: usize) -> (r: u64)
    ensures
        possible_delay(video_id@, retry_count, r),
        exponential_delay(retry_count as nat) <= r <= exponential_delay(retry_count as nat)
            + MAX_JITTER_MS,
{
    let jitter_ms: u64 = deterministic_jitter_ms(video_id, retry_count);
    retry_delay_with_jitter(retry_count, jitter_ms)
}

/// Without its jitter, a delay doubles from each retry to the next, three times; with it, a
/// delay of one of the first three retries is shorter than one of the next retry, whichever
/// jitters the two have, and no delay is longer than the longest one and the largest jitter.
pub proof fn jittered_delays_grow_and_are_capped(
    video_id: Seq<char>,
    retry_count: usize,
    delay_ms: u64,
    next_delay_ms: u64,
)
    requires
        retry_count < usize::MAX,
        possible_delay(video_id, retry_count, delay_ms),
        possible_delay(video_id, (retry_count + 1) as usize, next_delay_ms),
    ensures
        exponential_delay(retry_count as nat) == JITTERED_BACKOFF_MS * pow2(
            doublings(retry_count as nat),
        ),
        exponential_delay(retry_count as nat) <= delay_ms <= exponential_delay(
            retry_count as nat,
        ) + MAX_JITTER_MS,
        1 <= retry_count < 4 ==> delay_ms < next_delay_ms,
        delay_ms <= MAX_429_BACKOFF_MS + MAX_JITTER_MS,
{
    lemma2_to64();
    lemma_delay_range(video_id, retry_count, delay_ms);
    lemma_delay_range(video_id, (retry_count + 1) as usize, next_delay_ms);
}

/// How often the delay of a retry was doubled.
pub open spec fn doublings(retry_count: nat) -> nat {
    if retry_count <= 1 {
        0
    } else if retry_count <= 4 {
        (retry_count - 1) as nat
    } else {
        3
    }
}

proof fn lemma_delay_range(video_id: Seq<char>, retry_count: usize, delay_ms: u64)
    requires
        possible_delay(video_id, retry_count, delay_ms),
    ensures
        exponential_delay(retry_count as nat) <= delay_ms <= exponential_delay(
            retry_count as nat,
        ) + MAX_JITTER_MS,
{
    let jitter_ms = choose|jitter_ms: u64| #[trigger]
        possible_jitter(video_id, retry_count, jitter_ms) && delay_ms == exponential_delay(
            retry_count as nat,
        ) + jitter_ms;
    assert(jitter_ms <= MAX_JITTER_MS);
}

/// Messages tell a refusal where they hold one of four phrases, in capitals or small letters
/// and whatever stands around it, and only there.
pub proof fn refusals_are_told_by_their_phrases(
    stderr: Seq<char>,
    front: Seq<char>,
    back: Seq<char>,
)
    ensures
        ascii_lowered(stderr) == front + "http error 429"@ + back ==> says_rate_limited(stderr),
        ascii_lowered(stderr) == front + "too many requests"@ + back ==> says_rate_limited(stderr),
        ascii_lowered(stderr) == front + "rate limit"@ + back ==> says_rate_limited(stderr),
        ascii_lowered(stderr) == front + "rate-limited"@ + back ==> says_rate_limited(stderr),
        says_rate_limited(stderr) ==> has_text(ascii_lowered(stderr), "http error 429"@)
            || has_text(ascii_lowered(stderr), "too many requests"@) || has_text(
            ascii_lowered(stderr),
            "rate limit"@,
        ) || has_text(ascii_lowered(stderr), "rate-limited"@),
{
    texts_hold_what_stands_in_them(front, "http error 429"@, back, stderr);
    texts_hold_what_stands_in_them(front, "too many requests"@, back, stderr);
    texts_hold_what_stands_in_them(front, "rate limit"@, back, stderr);
    texts_hold_what_stands_in_them(front, "rate-limited"@, back, stderr);
}

/// A refused request is tried again three times, after the base delay, twice and four times as
/// long; nothing else is tried again.
pub proof fn refused_requests_are_tried_again_three_times(
    retry_count: usize,
    success: bool,
    stderr: Seq<char>,
    base_backoff_ms: u64,
)
    requires
        base_backoff_ms * 8 <= u64::MAX,
    ensures
        ({
            let step = step_after_attempt(retry_count, success, stderr, base_backoff_ms);
            let again = !success && says_rate_limited(stderr) && retry_count < 3;
            &&& !again ==> step == SubtitleStep::Finished
            &&& again ==> (step matches SubtitleStep::Retry { retry_count: next, delay_ms } && next
                == retry_count + 1 && delay_ms == base_backoff_ms * if retry_count == 0 {
                1int
            } else if retry_count == 1 {
                2int
            } else {
                4int
            })
        }),
{
    assert(base_backoff_ms * 1 == base_backoff_ms);
}

/// The delays of jittered retries, but for the jitter: two seconds at first, doubled up to
/// sixteen.
pub proof fn jittered_delays_begin_at_two_seconds(retry_count: nat)
    ensures
        retry_count <= 1 ==> exponential_delay(retry_count) == 2_000,
        1 <= retry_count < 4 ==> exponential_delay(retry_count + 1) == 2 * exponential_delay(
            retry_count,
        ),
        retry_count >= 4 ==> exponential_delay(retry_count) == 16_000,
{
}

/// The jitter of a hash is what is left of it after as many whole parts of three hundred and
/// one as it holds.
pub proof fn jitters_are_remainders(hash: u64)
    ensures
        0 <= jitter(hash) <= 300,
        hash == 301 * (hash as int / 301) + jitter(hash),
{
}

} // verus!
