//! Refreshing the feed and searching, of which one runs at a time, and what the status line
//! says of them.

use crate::feed::fetcher::{feed_error_text, FeedError, FetchProgress, ProgressView};
use crate::frogpoints::{
    balance_in, balances_read_back, contents_for, debit_refresh_frogpoints, frogpoints_error_text,
    Balance, FrogpointsError, REFRESH_COST,
};
use crate::text::{blank, decimal, push_decimal, signed_decimal, texts, to_signed_decimal, trim, trimmed};
use vstd::prelude::*;

verus! {

/// Whether a refresh or a search is running.
#[derive(Debug)]
pub struct Activity {
    in_progress: bool,
}

impl View for Activity {
    type V = bool;

    closed spec fn view(&self) -> bool {
        self.in_progress
    }
}

impl Activity {
    /// Nothing is running.
    pub fn new() -> (r: Self)
        ensures
            !r@,
    {
        Activity { in_progress: false }
    }

    /// Begins an activity, unless one is running already; tells whether it began.
    pub fn try_begin_activity(&mut self) -> (began: bool)
        ensures
            began == !old(self)@,
            final(self)@,
    {
        let began = !self.in_progress;
        self.in_progress = true;
        began
    }

    /// Ends the activity that is running.
    pub fn end_activity(&mut self)
        ensures
            !final(self)@,
    {
        self.in_progress = false;
    }
}

/// How far a refresh is.
#[derive(Debug, Clone, Copy, PartialEq, Eq, Structural)]
pub struct RefreshStatus {
    pub total_channels: usize,
    pub completed_channels: usize,
    pub failed_channels: usize,
}

/// What follows a report of progress.
#[derive(Debug)]
pub struct StatusUpdate {
    /// What the status line says now.
    pub text: String,
    /// Whether the refresh is over.
    pub finished: bool,
    /// Whether the cost of the refresh is given back.
    pub refund: bool,
}

/// What the status line says of a report.
pub open spec fn progress_text(status: RefreshStatus, progress: ProgressView) -> Seq<char> {
    match progress {
        ProgressView::Started { total } => "Fetching feeds (0/"@ + decimal(total as nat) + ")..."@,
        ProgressView::ChannelComplete { .. } => {
            "Fetching feeds ("@ + decimal(status.completed_channels as nat + 1) + "/"@ + decimal(
                status.total_channels as nat,
            ) + if status.failed_channels > 0 {
                ", "@ + decimal(status.failed_channels as nat) + " failed"@
            } else {
                Seq::empty()
            } + ")..."@
        },
        ProgressView::RetryScheduled { channel_id, next_attempt, max_attempts, delay_secs, .. } => {
            "Retrying "@ + channel_id + " ("@ + decimal(next_attempt as nat) + "/"@ + decimal(
                max_attempts as nat,
            ) + ") in "@ + decimal(delay_secs as nat) + "s..."@
        },
        ProgressView::Error { channel_id, .. } => {
            "Failed "@ + decimal(status.failed_channels as nat + 1) + " of "@ + decimal(
                status.total_channels as nat,
            ) + " channels (last: "@ + channel_id + ")"@
        },
        ProgressView::Fatal { error } => "Refresh failed (frogpoints refunded): "@ + error,
        ProgressView::AllComplete { total_videos, successful_channels, failed_channels } => {
            decimal(total_videos as nat) + " videos loaded"@ + if failed_channels > 0 {
                " ("@ + decimal(successful_channels as nat) + " channels ok, "@ + decimal(
                    failed_channels as nat,
                ) + if failed_channels > successful_channels {
                    " failed; frogpoints refunded)"@
                } else {
                    " failed)"@
                }
            } else {
                Seq::empty()
            }
        },
    }
}

/// How far a refresh is after a report.
pub open spec fn after_progress(status: RefreshStatus, progress: ProgressView) -> RefreshStatus {
    match progress {
        ProgressView::Started { total } => RefreshStatus {
            total_channels: total,
            completed_channels: 0,
            failed_channels: 0,
        },
        ProgressView::ChannelComplete { .. } => RefreshStatus {
            completed_channels: (status.completed_channels + 1) as usize,
            ..status
        },
        ProgressView::Error { .. } => RefreshStatus {
            completed_channels: (status.completed_channels + 1) as usize,
            failed_channels: (status.failed_channels + 1) as usize,
            ..status
        },
        _ => status,
    }
}

/// Whether a report is the last one.
pub open spec fn is_last(progress: ProgressView) -> bool {
    progress is Fatal || progress is AllComplete
}

/// Whether a report gives back the cost of the refresh: after a fatal error, and where more
/// channels failed than were fetched.
pub open spec fn is_refunded(progress: ProgressView) -> bool {
    match progress {
        ProgressView::Fatal { .. } => true,
        ProgressView::AllComplete { successful_channels, failed_channels, .. } => failed_channels
            > successful_channels,
        _ => false,
    }
}

impl RefreshStatus {
    /// Before the first report.
    pub fn new() -> (r: Self)
        ensures
            r == (RefreshStatus { total_channels: 0, completed_channels: 0, failed_channels: 0 }),
    {
        RefreshStatus { total_channels: 0, completed_channels: 0, failed_channels: 0 }
    }

    /// Takes in a report.
    pub fn on_progress(&mut self, progress: &FetchProgress) -> (update: StatusUpdate)
        requires
            old(self).completed_channels < usize::MAX,
            old(self).failed_channels < usize::MAX,
        ensures
            *final(self) == after_progress(*old(self), progress@),
            update.text@ == progress_text(*old(self), progress@),
            update.finished == is_last(progress@),
            update.refund == is_refunded(progress@),
    {
        let ghost status = *self;
        let mut text = String::new();
        let mut finished = false;
        let mut refund = false;
        match progress {
            FetchProgress::Started { total } => {
                self.total_channels = *total;
                self.completed_channels = 0;
                self.failed_channels = 0;
                text.append("Fetching feeds (0/");
                push_decimal(&mut text, *total as u64);
                text.append(")...");
            },
            FetchProgress::ChannelComplete { channel: _, count: _ } => {
                self.completed_channels = self.completed_channels + 1;
                text.append("Fetching feeds (");
                push_decimal(&mut text, self.completed_channels as u64);
                text.append("/");
                push_decimal(&mut text, self.total_channels as u64);
                if self.failed_channels > 0 {
                    text.append(", ");
                    push_decimal(&mut text, self.failed_channels as u64);
                    text.append(" failed");
                }
                text.append(")...");
            },
            FetchProgress::RetryScheduled {
                channel_id,
                next_attempt,
                max_attempts,
                delay_secs,
                reason: _,
            } => {
                text.append("Retrying ");
                text.append(channel_id.as_str());
                text.append(" (");
                push_decimal(&mut text, *next_attempt as u64);
                text.append("/");
                push_decimal(&mut text, *max_attempts as u64);
                text.append(") in ");
                push_decimal(&mut text, *delay_secs);
                text.append("s...");
            },
            FetchProgress::Error { channel_id, error: _ } => {
                self.completed_channels = self.completed_channels + 1;
                self.failed_channels = self.failed_channels + 1;
                text.append("Failed ");
                push_decimal(&mut text, self.failed_channels as u64);
                text.append(" of ");
                push_decimal(&mut text, self.total_channels as u64);
                text.append(" channels (last: ");
                text.append(channel_id.as_str());
                text.append(")");
            },
            FetchProgress::Fatal { error } => {
                text.append("Refresh failed (frogpoints refunded): ");
                text.append(error.as_str());
                finished = true;
                refund = true;
            },
            FetchProgress::AllComplete { total_videos, successful_channels, failed_channels } => {
                push_decimal(&mut text, *total_videos as u64);
                text.append(" videos loaded");
                refund = *failed_channels > *successful_channels;
                if *failed_channels > 0 {
                    text.append(" (");
                    push_decimal(&mut text, *successful_channels as u64);
                    text.append(" channels ok, ");
                    push_decimal(&mut text, *failed_channels as u64);
                    if refund {
                        text.append(" failed; frogpoints refunded)");
                    } else {
                        text.append(" failed)");
                    }
                }
                finished = true;
            },
        }
        assert(text@ =~= progress_text(status, progress@));
        StatusUpdate { text, finished, refund }
    }
}

/// What follows a press of the refresh button.
#[derive(Debug, Clone, Copy, PartialEq, Eq, Structural)]
pub enum RefreshStart {
    /// Something is running already.
    Busy,
    /// The refresh begins.
    Started,
}

impl RefreshStart {
    /// What the status line says.
    pub fn message(self) -> (r: &'static str)
        ensures
            r@ == match self {
                RefreshStart::Busy => "A refresh or search is already running."@,
                RefreshStart::Started => "Refreshing..."@,
            },
    {
        match self {
            RefreshStart::Busy => "A refresh or search is already running.",
            RefreshStart::Started => "Refreshing...",
        }
    }
}

/// Begins a refresh, unless something is running already.
pub fn start_feed_refresh(activity: &mut Activity) -> (start: RefreshStart)
    ensures
        start == if old(activity)@ {
            RefreshStart::Busy
        } else {
            RefreshStart::Started
        },
        final(activity)@,
{
    if activity.try_begin_activity() {
        RefreshStart::Started
    } else {
        RefreshStart::Busy
    }
}

/// Why a refresh cannot succeed, where that is known before it begins, as the status line says
/// it.
pub open spec fn obstacle(channels: Result<Vec<String>, FeedError>, has_api_key: bool) -> Option<
    Seq<char>,
> {
    match channels {
        Ok(_) => if has_api_key {
            None
        } else {
            Some("Refresh blocked: GOOGLE_API_KEY is not set."@)
        },
        Err(error) => Some("Error: "@ + feed_error_text(error)),
    }
}

/// What is checked before a refresh costs anything: the channels are there, and so is the API
/// key. Otherwise what the status line says.
pub fn prepare_refresh(channels: Result<Vec<String>, FeedError>, has_api_key: bool) -> (r: Result<
    Vec<String>,
    String,
>)
    ensures
        match obstacle(channels, has_api_key) {
            None => r matches Ok(found) && channels matches Ok(ids) && texts(found@) == texts(ids@),
            Some(text) => r matches Err(message) && message@ == text,
        },
{
    match channels {
        Ok(ids) => if has_api_key {
            Ok(ids)
        } else {
            Err("Refresh blocked: GOOGLE_API_KEY is not set.".to_owned())
        },
        Err(error) => Err("Error: ".to_owned().concat(error.message().as_str())),
    }
}

/// What is done about the cost of a refresh.
#[derive(Debug)]
pub enum RefreshPayment {
    /// The refresh does not go on, and nothing is taken.
    Blocked { message: String },
    /// The balance has to be read first.
    ReadBalance { channel_ids: Vec<String> },
    /// The refresh goes on once this balance took the place of the old one.
    Debit { channel_ids: Vec<String>, balance: Balance },
}

/// What a [`RefreshPayment`] holds.
#[verifier::ext_equal]
pub enum PaymentView {
    Blocked { message: Seq<char> },
    ReadBalance { channel_ids: Seq<Seq<char>> },
    Debit { channel_ids: Seq<Seq<char>>, points: int, contents: Seq<char> },
}

impl View for RefreshPayment {
    type V = PaymentView;

    open spec fn view(&self) -> PaymentView {
        match *self {
            RefreshPayment::Blocked { message } => PaymentView::Blocked { message: message@ },
            RefreshPayment::ReadBalance { channel_ids } => PaymentView::ReadBalance {
                channel_ids: texts(channel_ids@),
            },
            RefreshPayment::Debit { channel_ids, balance } => PaymentView::Debit {
                channel_ids: texts(channel_ids@),
                points: balance.points as int,
                contents: balance.contents@,
            },
        }
    }
}

pub open spec fn blocked(error: FrogpointsError) -> PaymentView {
    PaymentView::Blocked { message: "Refresh blocked: "@ + frogpoints_error_text(error) }
}

/// What is done about the cost of a refresh, given what reading the balance's file gave, once
/// it was read.
pub open spec fn refresh_payment(
    channels: Result<Vec<String>, FeedError>,
    has_api_key: bool,
    balance: Option<Result<String, FrogpointsError>>,
) -> PaymentView {
    match (obstacle(channels, has_api_key), channels, balance) {
        (None, Ok(ids), None) => PaymentView::ReadBalance { channel_ids: texts(ids@) },
        (None, Ok(_), Some(Err(error))) => blocked(error),
        (None, Ok(ids), Some(Ok(contents))) => match balance_in(contents@) {
            None => blocked(FrogpointsError::InvalidNumber),
            Some(points) => if points < REFRESH_COST {
                blocked(
                    FrogpointsError::Insufficient { available: points as i64, cost: REFRESH_COST },
                )
            } else {
                PaymentView::Debit {
                    channel_ids: texts(ids@),
                    points: points - REFRESH_COST,
                    contents: contents_for(points - REFRESH_COST),
                }
            },
        },
        (obstacle, _, _) => PaymentView::Blocked { message: obstacle.unwrap() },
    }
}

/// Decides what is done about the cost of a refresh. What is known to keep the refresh from
/// succeeding comes before the balance, which is neither read nor changed for it.
pub fn pay_for_refresh(
    channels: Result<Vec<String>, FeedError>,
    has_api_key: bool,
    balance: Option<Result<String, FrogpointsError>>,
) -> (payment: RefreshPayment)
    ensures
        payment@ == refresh_payment(channels, has_api_key, balance),
{
    let channel_ids = match prepare_refresh(channels, has_api_key) {
        Ok(channel_ids) => channel_ids,
        Err(message) => {
            return RefreshPayment::Blocked { message };
        },
    };
    let debited = match balance {
        Some(Ok(contents)) => debit_refresh_frogpoints(contents.as_str()),
        Some(Err(error)) => Err(error),
        None => {
            return RefreshPayment::ReadBalance { channel_ids };
        },
    };
    match debited {
        Ok(balance) => RefreshPayment::Debit { channel_ids, balance },
        Err(error) => RefreshPayment::Blocked { message: blocked_message(&error) },
    }
}

/// A refresh that cannot succeed costs nothing: a new balance comes only where the channels
/// and the key are there and the balance covers the cost, by which it is the lower; otherwise
/// the refresh is blocked, or the balance has to be read first.
pub proof fn blocked_refreshes_cost_nothing(
    channels: Result<Vec<String>, FeedError>,
    has_api_key: bool,
    balance: Option<Result<String, FrogpointsError>>,
)
    ensures
        obstacle(channels, has_api_key) matches Some(text) ==> refresh_payment(
            channels,
            has_api_key,
            balance,
        ) == (PaymentView::Blocked { message: text }),
        match refresh_payment(channels, has_api_key, balance) {
            PaymentView::Blocked { .. } => true,
            PaymentView::ReadBalance { channel_ids } => {
                &&& obstacle(channels, has_api_key) is None
                &&& balance is None
                &&& channels matches Ok(ids) && channel_ids == texts(ids@)
            },
            PaymentView::Debit { channel_ids, points, contents } => {
                &&& obstacle(channels, has_api_key) is None
                &&& channels matches Ok(ids) && channel_ids == texts(ids@)
                &&& balance matches Some(Ok(before)) && balance_in(before@) == Some(
                    points + REFRESH_COST,
                )
                &&& points >= 0
                &&& balance_in(contents) == Some(points)
            },
        },
{
    if let PaymentView::Debit { points, .. } = refresh_payment(channels, has_api_key, balance) {
        balances_read_back(points as i64);
    }
}

fn blocked_message(error: &FrogpointsError) -> (r: String)
    ensures
        r@ == "Refresh blocked: "@ + frogpoints_error_text(*error),
{
    "Refresh blocked: ".to_owned().concat(error.message().as_str())
}

/// What the status line says once the cost of a refresh was taken, or was refused; tells
/// whether the refresh goes on.
pub fn refresh_paid(remaining: Result<i64, FrogpointsError>) -> (r: Result<String, String>)
    ensures
        match remaining {
            Ok(remaining) => r matches Ok(text) && text@ == "Refreshing... ("@ + signed_decimal(
                remaining as int,
            ) + " frogpoints remaining)"@,
            Err(error) => r matches Err(text) && text@ == "Refresh blocked: "@
                + frogpoints_error_text(error),
        },
{
    match remaining {
        Ok(remaining) => Ok(
            "Refreshing... (".to_owned().concat(to_signed_decimal(remaining).as_str()).concat(
                " frogpoints remaining)",
            ),
        ),
        Err(error) => Err(blocked_message(&error)),
    }
}

/// What follows when a search is asked for.
#[derive(Debug)]
pub enum SearchStart {
    /// There is nothing to search for: the results go.
    Clear,
    /// Something is running already.
    Busy,
    /// The search begins.
    Started { query: String },
}

/// What the status line says.
pub open spec fn search_start_text(start: SearchStart) -> Seq<char> {
    match start {
        SearchStart::Clear => ""@,
        SearchStart::Busy => "A refresh or search is already running."@,
        SearchStart::Started { query } => "Searching YouTube for \""@ + query@ + "\"..."@,
    }
}

impl SearchStart {
    /// What the status line says.
    pub fn message(&self) -> (r: String)
        ensures
            r@ == search_start_text(*self),
    {
        match self {
            SearchStart::Clear => "".to_owned(),
            SearchStart::Busy => "A refresh or search is already running.".to_owned(),
            SearchStart::Started { query } => "Searching YouTube for \"".to_owned().concat(
                query.as_str(),
            ).concat("\"..."),
        }
    }
}

/// Begins a search for the trimmed query, unless something is running already. A blank query
/// clears the results instead.
pub fn start_youtube_search(activity: &mut Activity, query: &str) -> (start: SearchStart)
    ensures
        match start {
            SearchStart::Clear => trimmed(query@).len() == 0 && final(activity)@ == old(activity)@,
            SearchStart::Busy => trimmed(query@).len() > 0 && old(activity)@ && final(activity)@,
            SearchStart::Started { query: wanted } => trimmed(query@).len() > 0 && !old(activity)@
                && wanted@ == trimmed(query@) && final(activity)@,
        },
{
    if blank(query) {
        return SearchStart::Clear;
    }
    if !activity.try_begin_activity() {
        return SearchStart::Busy;
    }
    SearchStart::Started { query: trim(query).to_owned() }
}

/// What the status line says of a search that is over: the number of results, the error, or
/// neither where the search was lost.
pub fn search_finished(result: Option<Result<usize, String>>) -> (r: String)
    ensures
        r@ == match result {
            Some(Ok(count)) => decimal(count as nat) + " search results"@,
            Some(Err(error)) => "Search failed: "@ + error@,
            None => "Search failed"@,
        },
{
    match result {
        Some(Ok(count)) => {
            let mut text = String::new();
            push_decimal(&mut text, count as u64);
            text.append(" search results");
            text
        },
        Some(Err(error)) => "Search failed: ".to_owned().concat(error.as_str()),
        None => "Search failed".to_owned(),
    }
}

/// The question before a channel is unsubscribed from.
pub fn unsubscribe_question(channel_name: &str) -> (r: String)
    ensures
        r@ == "Unsubscribe from "@ + channel_name@ + "?"@,
{
    "Unsubscribe from ".to_owned().concat(channel_name).concat("?")
}

/// The cost of a refresh is given back by the last report or not at all.
pub proof fn only_the_last_report_refunds(progress: ProgressView)
    ensures
        is_refunded(progress) ==> is_last(progress),
{
}

/// A channel that is done counts, whether it was fetched or failed, and one that failed counts
/// as failed besides; a new refresh counts from nought, and no other report counts.
pub proof fn every_channel_counts_once(status: RefreshStatus, progress: ProgressView)
    requires
        status.completed_channels < usize::MAX,
        status.failed_channels < usize::MAX,
    ensures
        ({
            let after = after_progress(status, progress);
            match progress {
                ProgressView::Started { total } => after.total_channels == total
                    && after.completed_channels == 0 && after.failed_channels == 0,
                _ => {
                    &&& after.total_channels == status.total_channels
                    &&& after.completed_channels == status.completed_channels + if progress
                        is ChannelComplete || progress is Error {
                        1int
                    } else {
                        0int
                    }
                    &&& after.failed_channels == status.failed_channels + if progress is Error {
                        1int
                    } else {
                        0int
                    }
                },
            }
        }),
{
}

/// A refresh ends with a fatal error or when all channels are done. Its cost is given back
/// after a fatal error, and where more channels failed than were fetched.
pub proof fn refunds_go_by_the_failures(
    error: Seq<char>,
    total_videos: usize,
    successful_channels: usize,
    failed_channels: usize,
    total: usize,
    channel_id: Seq<char>,
    count: usize,
)
    ensures
        is_last(ProgressView::Fatal { error }) && is_refunded(ProgressView::Fatal { error }),
        ({
            let end = ProgressView::AllComplete {
                total_videos,
                successful_channels,
                failed_channels,
            };
            is_last(end) && (is_refunded(end) <==> successful_channels < failed_channels)
        }),
        ({
            let start = ProgressView::Started { total };
            !is_last(start) && !is_refunded(start)
        }),
        ({
            let done = ProgressView::ChannelComplete { channel: channel_id, count };
            !is_last(done) && !is_refunded(done)
        }),
        ({
            let failed = ProgressView::Error { channel_id, error };
            !is_last(failed) && !is_refunded(failed)
        }),
{
}

/// The status line counts a channel that was just fetched, tells the failed ones where there
/// are some, and names the channel that failed last or is tried again.
pub proof fn the_status_line_tells_the_counts(
    status: RefreshStatus,
    channel_id: Seq<char>,
    reason: Seq<char>,
    count: usize,
    attempt: usize,
    attempts: usize,
    delay_secs: u64,
)
    ensures
        progress_text(status, ProgressView::Started { total: count }) == "Fetching feeds (0/"@
            + decimal(count as nat) + ")..."@,
        status.failed_channels == 0 ==> progress_text(
            status,
            ProgressView::ChannelComplete { channel: channel_id, count },
        ) == "Fetching feeds ("@ + decimal((status.completed_channels + 1) as nat) + "/"@ + decimal(
            status.total_channels as nat,
        ) + ")..."@,
        status.failed_channels > 0 ==> progress_text(
            status,
            ProgressView::ChannelComplete { channel: channel_id, count },
        ) == "Fetching feeds ("@ + decimal((status.completed_channels + 1) as nat) + "/"@ + decimal(
            status.total_channels as nat,
        ) + ", "@ + decimal(status.failed_channels as nat) + " failed)..."@,
        progress_text(
            status,
            ProgressView::RetryScheduled {
                channel_id,
                next_attempt: attempt,
                max_attempts: attempts,
                delay_secs,
                reason,
            },
        ) == "Retrying "@ + channel_id + " ("@ + decimal(attempt as nat) + "/"@ + decimal(
            attempts as nat,
        ) + ") in "@ + decimal(delay_secs as nat) + "s..."@,
        progress_text(status, ProgressView::Error { channel_id, error: reason }) == "Failed "@
            + decimal((status.failed_channels + 1) as nat) + " of "@ + decimal(
            status.total_channels as nat,
        ) + " channels (last: "@ + channel_id + ")"@,
{
    reveal_strlit(" failed");
    reveal_strlit(")...");
    reveal_strlit(" failed)...");
    let start = "Fetching feeds ("@ + decimal((status.completed_channels + 1) as nat) + "/"@
        + decimal(status.total_channels as nat);
    let failed = ", "@ + decimal(status.failed_channels as nat);
    let none = Seq::<char>::empty();
    assert(" failed"@ + ")..."@ =~= " failed)..."@);
    assert(start + none + ")..."@ =~= start + ")..."@);
    assert(start + (failed + " failed"@) + ")..."@ =~= start + ", "@ + decimal(
        status.failed_channels as nat,
    ) + " failed)..."@);
}

/// The last status line tells the videos and, where channels failed, how many; that the cost
/// is given back is told exactly where it is.
pub proof fn the_last_status_line_tells_the_outcome(
    status: RefreshStatus,
    total_videos: usize,
    successful_channels: usize,
    failed_channels: usize,
    error: Seq<char>,
)
    ensures
        ({
            let end = ProgressView::AllComplete {
                total_videos,
                successful_channels,
                failed_channels,
            };
            let loaded = decimal(total_videos as nat) + " videos loaded"@;
            let counts = loaded + " ("@ + decimal(successful_channels as nat) + " channels ok, "@
                + decimal(failed_channels as nat);
            &&& failed_channels == 0 ==> progress_text(status, end) == loaded
            &&& 0 < failed_channels <= successful_channels ==> progress_text(status, end) == counts
                + " failed)"@
            &&& failed_channels > successful_channels ==> progress_text(status, end) == counts
                + " failed; frogpoints refunded)"@
        }),
        progress_text(status, ProgressView::Fatal { error })
            == "Refresh failed (frogpoints refunded): "@ + error,
{
    let end = ProgressView::AllComplete { total_videos, successful_channels, failed_channels };
    let loaded = decimal(total_videos as nat) + " videos loaded"@;
    let counts = loaded + " ("@ + decimal(successful_channels as nat) + " channels ok, "@ + decimal(
        failed_channels as nat,
    );
    if failed_channels == 0 {
        assert(progress_text(status, end) =~= loaded);
    } else if failed_channels > successful_channels {
        assert(progress_text(status, end) =~= counts + " failed; frogpoints refunded)"@);
    } else {
        assert(progress_text(status, end) =~= counts + " failed)"@);
    }
}

/// A refresh with channels and a key is blocked by a balance that cannot be read or is below
/// the cost, and by nothing else: a balance of ten or more points is debited by ten.
pub proof fn balances_that_cover_the_cost_are_debited(
    ids: Vec<String>,
    contents: String,
    error: FrogpointsError,
)
    ensures
        obstacle(Ok(ids), true) is None,
        obstacle(Ok(ids), false) == Some("Refresh blocked: GOOGLE_API_KEY is not set."@),
        refresh_payment(Ok(ids), true, None) == (PaymentView::ReadBalance {
            channel_ids: texts(ids@),
        }),
        refresh_payment(Ok(ids), true, Some(Err(error))) == (PaymentView::Blocked {
            message: "Refresh blocked: "@ + frogpoints_error_text(error),
        }),
        match balance_in(contents@) {
            None => refresh_payment(Ok(ids), true, Some(Ok(contents))) == (PaymentView::Blocked {
                message: "Refresh blocked: "@ + "frogpoints.md must contain a whole number"@,
            }),
            Some(points) => {
                &&& points >= 10 ==> (refresh_payment(
                    Ok(ids),
                    true,
                    Some(Ok(contents)),
                ) matches PaymentView::Debit { channel_ids, points: left, contents: _ }
                    && channel_ids == texts(ids@) && left == points - 10)
                &&& points < 10 ==> refresh_payment(Ok(ids), true, Some(Ok(contents))) is Blocked
            },
        },
{
}

/// Where the channels cannot be read, the status line tells why.
pub proof fn unreadable_channels_are_told(error: FeedError, has_api_key: bool)
    ensures
        obstacle(Err(error), has_api_key) == Some("Error: "@ + feed_error_text(error)),
{
}

/// A search is told with its query, and so is why it does not begin.
pub proof fn searches_are_told(query: String)
    ensures
        search_start_text(SearchStart::Started { query }) == "Searching YouTube for \""@ + query@
            + "\"..."@,
        search_start_text(SearchStart::Busy) == "A refresh or search is already running."@,
        search_start_text(SearchStart::Clear) == Seq::<char>::empty(),
{
    reveal_strlit("");
    assert(""@ =~= Seq::<char>::empty());
}

} // verus!
