//! Fetching channels' Atom feeds one after another, slowly enough for the service.

use crate::data::{video_views, Video, VideoView};
use crate::feed::fetcher::{
    is_server_error, is_transient, should_retry, FetchFailure, FetchProgress, ProgressView,
    MAX_FETCH_ATTEMPTS,
};
use crate::feed::parser::{feed_videos, parse_feed, xml_events};
use vstd::arithmetic::div_mod::{lemma_add_mod_noop, lemma_mod_bound, lemma_small_mod};
use vstd::prelude::*;
use vstd::string::StringSliceAdditionalSpecFns;

verus! {

/// The least time between the starts of two requests.
pub const MIN_REQUEST_SPACING_MS: u64 = 4_000;

/// The most that is added to it.
pub const MAX_REQUEST_JITTER_MS: u64 = 1_500;

/// The delay before the first retry after a failure of no particular kind.
pub const INITIAL_BACKOFF_MS: u64 = 15_000;

/// The longest delay before a retry.
pub const MAX_BACKOFF_MS: u64 = 300_000;

/// The most that is added to a delay before a retry.
pub const MAX_BACKOFF_JITTER_MS: u64 = 2_000;

/// Two to the power of sixty-four.
pub open spec fn word() -> nat {
    0x1_0000_0000_0000_0000
}

/// The number that bytes are mixed to.
pub open spec fn mixed(bytes: Seq<u8>) -> nat
    decreases bytes.len(),
{
    if bytes.len() == 0 {
        0
    } else {
        (mixed(bytes.drop_last()) * 131 + bytes.last() as nat) % word()
    }
}

/// A number up to `max` that depends on a channel and an attempt only.
pub open spec fn jitter(bytes: Seq<u8>, attempt: nat, max: nat) -> nat {
    if max == 0 {
        0
    } else {
        (mixed(bytes) + attempt * 97) % word() % (max + 1)
    }
}

proof fn lemma_wrapped_sum(a: nat, b: nat, sum: u64)
    requires
        a < word(),
        b < word(),
        sum == if a + b > u64::MAX {
            a + b - word()
        } else {
            (a + b) as int
        },
    ensures
        sum == (a + b) % word(),
{
    if a + b > u64::MAX {
        lemma_small_mod((a + b - word()) as nat, word());
        vstd::arithmetic::div_mod::lemma_mod_add_multiples_vanish(a + b - word(), word() as int);
    } else {
        lemma_small_mod(a + b, word());
    }
}

/// A number up to `max_jitter_ms` that depends on a channel and an attempt only.
pub fn deterministic_jitter_ms(channel_id: &str, attempt: usize, max_jitter_ms: u64) -> (r: u64)
    requires
        max_jitter_ms < u64::MAX,
    ensures
        r == jitter(channel_id.spec_bytes(), attempt as nat, max_jitter_ms as nat),
        r <= max_jitter_ms,
{
    if max_jitter_ms == 0 {
        return 0;
    }
    let bytes = channel_id.as_bytes();
    let ghost all = bytes@;
    let mut seed: u64 = 0;
    let mut i: usize = 0;
    while i < bytes.len()
        invariant
            i <= bytes.len(),
            all == bytes@,
            seed == mixed(all.take(i as int)),
        decreases bytes.len() - i,
    {
        let ghost before = seed as nat;
        let byte: u64 = bytes[i] as u64;
        let scaled: u64 = seed.wrapping_mul(131);
        seed = scaled.wrapping_add(byte);
        proof {
            assert(all.take(i + 1).drop_last() =~= all.take(i as int));
            assert(all.take(i + 1).last() == bytes@[i as int]);
            lemma_mod_bound((before * 131) as int, word() as int);
            assert(scaled == (before * 131) % word());
            lemma_wrapped_sum(scaled as nat, byte as nat, seed);
            lemma_add_mod_noop((before * 131) as int, byte as int, word() as int);
            lemma_add_mod_noop(scaled as int, byte as int, word() as int);
            vstd::arithmetic::div_mod::lemma_mod_twice((before * 131) as int, word() as int);
        }
        i += 1;
    }
    assert(all.take(all.len() as int) =~= all);
    let step: u64 = (attempt as u64).wrapping_mul(97);
    let total: u64 = seed.wrapping_add(step);
    proof {
        let n = (attempt * 97) as nat;
        lemma_mod_bound(n as int, word() as int);
        assert(step == n % word());
        lemma_wrapped_sum(seed as nat, step as nat, total);
        lemma_add_mod_noop(seed as int, n as int, word() as int);
        lemma_add_mod_noop(seed as int, step as int, word() as int);
        vstd::arithmetic::div_mod::lemma_mod_twice(n as int, word() as int);
        lemma_mod_bound(total as int, max_jitter_ms + 1);
    }
    total % (max_jitter_ms + 1)
}

/// The time between the start of a request and the next one.
pub open spec fn spacing(bytes: Seq<u8>, attempt: nat) -> nat {
    MIN_REQUEST_SPACING_MS as nat + jitter(bytes, attempt, MAX_REQUEST_JITTER_MS as nat)
}

/// The time between the start of a request and the next one.
pub fn request_spacing_ms(channel_id: &str, attempt: usize) -> (r: u64)
    ensures
        r == spacing(channel_id.spec_bytes(), attempt as nat),
        MIN_REQUEST_SPACING_MS <= r <= MIN_REQUEST_SPACING_MS + MAX_REQUEST_JITTER_MS,
{
    MIN_REQUEST_SPACING_MS + deterministic_jitter_ms(channel_id, attempt, MAX_REQUEST_JITTER_MS)
}

/// The delay that a kind of failure calls for.
pub open spec fn base_delay(failure: FetchFailure) -> nat {
    if failure.status == Some(429u16) {
        30_000
    } else if failure.status == Some(408u16) {
        12_000
    } else if is_server_error(failure.status) {
        20_000
    } else if failure.timeout || failure.connect {
        12_000
    } else {
        INITIAL_BACKOFF_MS as nat
    }
}

/// Two to the power of the number of attempts before this one, at most sixty-four.
pub open spec fn doubling(attempt: nat) -> nat {
    if attempt <= 1 {
        1
    } else if attempt == 2 {
        2
    } else if attempt == 3 {
        4
    } else if attempt == 4 {
        8
    } else if attempt == 5 {
        16
    } else if attempt == 6 {
        32
    } else {
        64
    }
}

/// The delay before the retry after an attempt that failed.
pub open spec fn delay(attempt: nat, bytes: Seq<u8>, failure: FetchFailure) -> nat {
    let wanted = base_delay(failure) * doubling(attempt) + jitter(
        bytes,
        attempt + 13,
        MAX_BACKOFF_JITTER_MS as nat,
    );
    if wanted <= MAX_BACKOFF_MS {
        wanted
    } else {
        MAX_BACKOFF_MS as nat
    }
}

fn doubled(attempt: usize) -> (r: u64)
    ensures
        r == doubling(attempt as nat),
{
    if attempt <= 1 {
        1
    } else if attempt == 2 {
        2
    } else if attempt == 3 {
        4
    } else if attempt == 4 {
        8
    } else if attempt == 5 {
        16
    } else if attempt == 6 {
        32
    } else {
        64
    }
}

/// The delay before the retry after an attempt that failed.
pub fn backoff_ms_for_attempt(attempt: usize, channel_id: &str, failure: &FetchFailure) -> (r: u64)
    requires
        attempt <= usize::MAX - 13,
    ensures
        r == delay(attempt as nat, channel_id.spec_bytes(), *failure),
        r <= MAX_BACKOFF_MS,
{
    let base_ms: u64 = match failure.status {
        Some(code) => if code == 429 {
            30_000
        } else if code == 408 {
            12_000
        } else if 500 <= code && code < 600 {
            20_000
        } else if failure.timeout || failure.connect {
            12_000
        } else {
            INITIAL_BACKOFF_MS
        },
        None => if failure.timeout || failure.connect {
            12_000
        } else {
            INITIAL_BACKOFF_MS
        },
    };
    let factor: u64 = doubled(attempt);
    assert(base_ms * factor <= 30_000 * 64) by (nonlinear_arith)
        requires
            base_ms <= 30_000,
            factor <= 64,
    ;
    let exponential: u64 = base_ms * factor;
    let jitter_ms: u64 = deterministic_jitter_ms(channel_id, attempt + 13, MAX_BACKOFF_JITTER_MS);
    let wanted: u64 = exponential + jitter_ms;
    if wanted <= MAX_BACKOFF_MS {
        wanted
    } else {
        MAX_BACKOFF_MS
    }
}

/// When requests may start, in milliseconds.
#[derive(Debug)]
pub struct RequestThrottle {
    next_allowed_at: u64,
}

impl View for RequestThrottle {
    type V = u64;

    closed spec fn view(&self) -> u64 {
        self.next_allowed_at
    }
}

impl RequestThrottle {
    /// Requests may start from now on.
    pub fn new(now: u64) -> (r: Self)
        ensures
            r@ == now,
    {
        RequestThrottle { next_allowed_at: now }
    }

    /// When a request starts: now, or when the spacing after the one before is over. The next
    /// one starts no earlier than this one's spacing later.
    pub fn wait_for_turn(&mut self, channel_id: &str, attempt: usize, now: u64) -> (start: u64)
        requires
            old(self)@ <= u64::MAX - MIN_REQUEST_SPACING_MS - MAX_REQUEST_JITTER_MS,
            now <= u64::MAX - MIN_REQUEST_SPACING_MS - MAX_REQUEST_JITTER_MS,
        ensures
            start == if old(self)@ > now {
                old(self)@
            } else {
                now
            },
            final(self)@ == start + spacing(channel_id.spec_bytes(), attempt as nat),
    {
        let start: u64 = if self.next_allowed_at > now {
            self.next_allowed_at
        } else {
            now
        };
        self.next_allowed_at = start + request_spacing_ms(channel_id, attempt);
        start
    }
}

/// Of two requests that take turns, the second starts at least the least spacing after the
/// first, whenever it asks.
pub proof fn request_starts_are_spaced(first: nat, bytes: Seq<u8>, attempt: nat, now: nat)
    ensures
        ({
            let next = first + spacing(bytes, attempt);
            let second = if next > now {
                next
            } else {
                now
            };
            second >= first + MIN_REQUEST_SPACING_MS
        }),
{
}

/// Delays before retries are never longer than the longest one, and the doubling never
/// shrinks.
pub proof fn delays_are_capped(
    earlier: nat,
    later: nat,
    bytes: Seq<u8>,
    failure: FetchFailure,
)
    requires
        earlier <= later,
    ensures
        delay(earlier, bytes, failure) <= MAX_BACKOFF_MS,
        doubling(earlier) <= doubling(later),
{
}

/// What happens to a channel next.
#[derive(Debug)]
pub enum FeedStep {
    /// Its videos are there.
    Done { videos: Vec<Video>, progress: FetchProgress },
    /// Fetch it again, as the attempt with the next number, after a delay.
    Retry { delay_ms: u64, progress: FetchProgress },
    /// It failed for good.
    GiveUp { progress: FetchProgress },
}

/// What a [`FeedStep`] holds.
#[verifier::ext_equal]
pub enum FeedStepView {
    Done { videos: Seq<VideoView>, progress: ProgressView },
    Retry { delay_ms: nat, progress: ProgressView },
    GiveUp { progress: ProgressView },
}

impl View for FeedStep {
    type V = FeedStepView;

    open spec fn view(&self) -> FeedStepView {
        match *self {
            FeedStep::Done { videos, progress } => FeedStepView::Done {
                videos: video_views(videos@),
                progress: progress@,
            },
            FeedStep::Retry { delay_ms, progress } => FeedStepView::Retry {
                delay_ms: delay_ms as nat,
                progress: progress@,
            },
            FeedStep::GiveUp { progress } => FeedStepView::GiveUp { progress: progress@ },
        }
    }
}

/// What follows a failed request: another one where the failure may pass and attempts are
/// left.
pub open spec fn step_after_failure(
    channel_id: Seq<char>,
    bytes: Seq<u8>,
    attempt: nat,
    failure: FetchFailure,
) -> FeedStepView {
    if is_transient(failure) && attempt < MAX_FETCH_ATTEMPTS {
        FeedStepView::Retry {
            delay_ms: delay(attempt, bytes, failure),
            progress: ProgressView::RetryScheduled {
                channel_id,
                next_attempt: (attempt + 1) as usize,
                max_attempts: MAX_FETCH_ATTEMPTS,
                delay_secs: ((delay(attempt, bytes, failure) + 999) / 1000) as u64,
                reason: failure.message@,
            },
        }
    } else {
        FeedStepView::GiveUp {
            progress: ProgressView::Error { channel_id, error: failure.message@ },
        }
    }
}

/// What follows a failed request.
pub fn after_failure(channel_id: &str, attempt: usize, failure: FetchFailure) -> (step: FeedStep)
    ensures
        step@ == step_after_failure(
            channel_id@,
            channel_id.spec_bytes(),
            attempt as nat,
            failure,
        ),
{
    if should_retry(&failure) && attempt < MAX_FETCH_ATTEMPTS {
        let delay_ms: u64 = backoff_ms_for_attempt(attempt, channel_id, &failure);
        let delay_secs: u64 = (delay_ms + 999) / 1000;
        FeedStep::Retry {
            delay_ms,
            progress: FetchProgress::RetryScheduled {
                channel_id: channel_id.to_owned(),
                next_attempt: attempt + 1,
                max_attempts: MAX_FETCH_ATTEMPTS,
                delay_secs,
                reason: failure.message,
            },
        }
    } else {
        FeedStep::GiveUp {
            progress: FetchProgress::Error {
                channel_id: channel_id.to_owned(),
                error: failure.message,
            },
        }
    }
}

/// What follows the videos of a feed.
pub fn after_videos(channel_id: &str, videos: Vec<Video>) -> (step: FeedStep)
    ensures
        step@ == (FeedStepView::Done {
            videos: video_views(videos@),
            progress: ProgressView::ChannelComplete {
                channel: channel_id@,
                count: videos@.len() as usize,
            },
        }),
{
    let count: usize = videos.len();
    FeedStep::Done {
        videos,
        progress: FetchProgress::ChannelComplete { channel: channel_id.to_owned(), count },
    }
}

/// What follows a request for a channel's feed.
pub fn fetch_channel_with_retry(
    channel_id: &str,
    attempt: usize,
    result: Result<String, FetchFailure>,
) -> (step: FeedStep)
    ensures
        match result {
            Ok(xml) => step@ == (FeedStepView::Done {
                videos: feed_videos(xml_events(xml@), channel_id@),
                progress: ProgressView::ChannelComplete {
                    channel: channel_id@,
                    count: feed_videos(xml_events(xml@), channel_id@).len() as usize,
                },
            }),
            Err(failure) => step@ == step_after_failure(
                channel_id@,
                channel_id.spec_bytes(),
                attempt as nat,
                failure,
            ),
        },
{
    match result {
        Ok(xml) => {
            let videos = parse_feed(xml.as_str(), channel_id);
            assert(video_views(videos@).len() == videos@.len());
            after_videos(channel_id, videos)
        },
        Err(failure) => after_failure(channel_id, attempt, failure),
    }
}

/// The number that bytes are mixed to: a single byte gives itself, and each further one is
/// added to 131 times what those before it gave, all of it in 64 bits.
pub proof fn bytes_are_mixed_one_by_one(bytes: Seq<u8>, byte: u8)
    ensures
        mixed(seq![byte]) == byte,
        mixed(bytes.push(byte)) == (131 * mixed(bytes) + byte) % 0x1_0000_0000_0000_0000,
{
    assert(bytes.push(byte).drop_last() =~= bytes);
    assert(seq![byte].drop_last() =~= Seq::<u8>::empty());
    assert(mixed(Seq::<u8>::empty()) == 0);
    assert(mixed(bytes) * 131 == 131 * mixed(bytes)) by (nonlinear_arith);
}

/// The jitter of an attempt goes on by 97 from one attempt to the next, and never exceeds the
/// largest one.
pub proof fn jitters_differ_from_attempt_to_attempt(bytes: Seq<u8>, attempt: nat, max: nat)
    ensures
        jitter(bytes, attempt, max) <= max,
        mixed(bytes) + attempt * 97 < 0x1_0000_0000_0000_0000 ==> jitter(bytes, attempt, max) == (
        mixed(bytes) + attempt * 97) % (max + 1),
{
    let sum = mixed(bytes) + attempt * 97;
    if max > 0 {
        lemma_mod_bound((sum % word()) as int, (max + 1) as int);
        if sum < word() {
            lemma_small_mod(sum, word());
        }
    } else {
        assert(sum % 1 == 0);
    }
}

/// Requests start from four to five and a half seconds after one another, and how much more
/// than four is the channel's jitter.
pub proof fn requests_are_four_seconds_apart(bytes: Seq<u8>, attempt: nat)
    ensures
        4_000 <= spacing(bytes, attempt) <= 5_500,
        spacing(bytes, attempt) - 4_000 == jitter(bytes, attempt, 1_500),
{
    jitters_differ_from_attempt_to_attempt(bytes, attempt, 1_500);
}

/// A retry waits for thirty seconds after too many requests, for twenty where the service is at
/// fault, for twelve after a timeout or a lost connection, and for fifteen otherwise.
pub proof fn delays_go_by_the_kind_of_failure(failure: FetchFailure)
    ensures
        match failure.status {
            Some(code) => {
                &&& code == 429 ==> base_delay(failure) == 30_000
                &&& code == 408 ==> base_delay(failure) == 12_000
                &&& 500 <= code <= 599 ==> base_delay(failure) == 20_000
                &&& code != 429 && code != 408 && !(500 <= code <= 599) ==> base_delay(failure)
                    == if failure.timeout || failure.connect {
                    12_000nat
                } else {
                    15_000nat
                }
            },
            None => base_delay(failure) == if failure.timeout || failure.connect {
                12_000nat
            } else {
                15_000nat
            },
        },
{
}

/// The delay doubles from attempt to attempt, six times at most, and with its jitter it is
/// never longer than five minutes.
pub proof fn delays_double_up_to_five_minutes(
    attempt: nat,
    bytes: Seq<u8>,
    failure: FetchFailure,
)
    ensures
        doubling(1) == 1,
        1 <= attempt < 7 ==> doubling(attempt + 1) == 2 * doubling(attempt),
        attempt >= 7 ==> doubling(attempt) == 64,
        ({
            let wanted = base_delay(failure) * doubling(attempt) + jitter(
                bytes,
                attempt + 13,
                2_000,
            );
            &&& wanted <= 300_000 ==> delay(attempt, bytes, failure) == wanted
            &&& wanted > 300_000 ==> delay(attempt, bytes, failure) == 300_000
        }),
{
}

/// A request that failed is made again while fewer than three attempts were made and the
/// failure may pass: after a timeout, a lost connection, or the status 408, 429, or one from
/// 500 to 599. Otherwise the channel ends with what went wrong.
pub proof fn what_follows_a_failed_request(
    channel_id: Seq<char>,
    bytes: Seq<u8>,
    attempt: nat,
    failure: FetchFailure,
)
    requires
        attempt < usize::MAX,
    ensures
        ({
            let may_pass = failure.timeout || failure.connect || (failure.status matches Some(code)
                && (code == 408 || code == 429 || 500 <= code <= 599));
            match step_after_failure(channel_id, bytes, attempt, failure) {
                FeedStepView::Retry { delay_ms, progress } => {
                    &&& may_pass && attempt < 3
                    &&& delay_ms == delay(attempt, bytes, failure)
                    &&& progress matches ProgressView::RetryScheduled {
                        channel_id: id,
                        next_attempt,
                        max_attempts,
                        delay_secs,
                        reason,
                    } && id == channel_id && next_attempt == attempt + 1 && max_attempts == 3
                        && reason == failure.message@ && delay_secs * 1000 >= delay_ms && delay_secs
                        * 1000 < delay_ms + 1000
                },
                FeedStepView::GiveUp { progress } => {
                    &&& !may_pass || attempt >= 3
                    &&& progress == (ProgressView::Error { channel_id, error: failure.message@ })
                },
                FeedStepView::Done { .. } => false,
            }
        }),
{
}

} // verus!
