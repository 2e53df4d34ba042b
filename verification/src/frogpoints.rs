//! Frogpoints: points that refreshes of the feed and leisurely watching cost. The balance is
//! a whole number in a file.

use crate::data::Timestamp;
use crate::paths::{join_path, joined_path, with_extension, with_extension_of};
use crate::text::{
    all_digits, ascii_lowered, digits_value, i64_value, is_ascii_digit, is_whitespace,
    padding_is_taken_off, parse_i64, same, signed_decimal,
    signed_decimal_reads_back, skip_leading, skip_trailing, slices, to_ascii_lowercase,
    to_signed_decimal, trim, trimmed, CharSet, decimal_denotes_its_number, decimal,
};
use vstd::prelude::*;

verus! {

/// What a refresh of the feed costs.
pub const REFRESH_COST: i64 = 10;

/// What a minute of leisurely watching costs.
pub const LEISURE_COST: i64 = 1;

/// For how long an edited drawing counts as work, in seconds.
pub const LEISURE_IDLE_SECONDS: u64 = 120;

/// How often leisurely watching is looked for, in seconds.
pub const LEISURE_INTERVAL_SECONDS: u32 = 60;

/// Errors of accounting.
#[derive(Debug)]
pub enum FrogpointsError {
    /// There is no home directory.
    MissingHome,
    /// The file could not be read or locked.
    Read(String),
    /// The file holds no whole number.
    InvalidNumber,
    /// The balance does not cover the cost.
    Insufficient { available: i64, cost: i64 },
    /// The file could not be written.
    Write(String),
}

pub open spec fn frogpoints_error_text(error: FrogpointsError) -> Seq<char> {
    match error {
        FrogpointsError::MissingHome => "HOME is not set"@,
        FrogpointsError::Read(cause) => "Failed to read frogpoints: "@ + cause@,
        FrogpointsError::InvalidNumber => "frogpoints.md must contain a whole number"@,
        FrogpointsError::Insufficient { available, cost } => "Need "@ + signed_decimal(cost as int)
            + " frogpoints to refresh, but only "@ + signed_decimal(available as int) + " remain"@,
        FrogpointsError::Write(cause) => "Failed to save frogpoints: "@ + cause@,
    }
}

impl FrogpointsError {
    pub fn message(&self) -> (r: String)
        ensures
            r@ == frogpoints_error_text(*self),
    {
        match self {
            FrogpointsError::MissingHome => "HOME is not set".to_owned(),
            FrogpointsError::Read(cause) => "Failed to read frogpoints: ".to_owned().concat(
                cause.as_str(),
            ),
            FrogpointsError::InvalidNumber =>
                "frogpoints.md must contain a whole number".to_owned(),
            FrogpointsError::Insufficient { available, cost } => "Need ".to_owned().concat(
                to_signed_decimal(*cost).as_str(),
            ).concat(" frogpoints to refresh, but only ").concat(
                to_signed_decimal(*available).as_str(),
            ).concat(" remain"),
            FrogpointsError::Write(cause) => "Failed to save frogpoints: ".to_owned().concat(
                cause.as_str(),
            ),
        }
    }
}

/// A path with further components.
pub open spec fn path_with(path: Seq<char>, components: Seq<Seq<char>>) -> Seq<char>
    decreases components.len(),
{
    if components.len() == 0 {
        path
    } else {
        joined_path(path_with(path, components.drop_last()), components.last())
    }
}

/// The path of components below the home directory.
pub fn home_relative_path(home: Option<&str>, relative: &[&str]) -> (r: Result<
    String,
    FrogpointsError,
>)
    ensures
        match home {
            Some(home) => r matches Ok(path) && path@ == path_with(home@, slices(relative@)),
            None => r == Err::<String, FrogpointsError>(FrogpointsError::MissingHome),
        },
{
    let home = match home {
        Some(home) => home,
        None => {
            return Err(FrogpointsError::MissingHome);
        },
    };
    let ghost all = slices(relative@);
    let mut path = home.to_owned();
    let mut i: usize = 0;
    while i < relative.len()
        invariant
            i <= relative.len(),
            all == slices(relative@),
            path@ == path_with(home@, all.take(i as int)),
        decreases relative.len() - i,
    {
        assert(all.take(i + 1).drop_last() =~= all.take(i as int));
        path = join_path(path.as_str(), relative[i]);
        i += 1;
    }
    assert(all.take(all.len() as int) =~= all);
    Ok(path)
}

/// The file of the balance.
pub fn frogpoints_path(home: Option<&str>) -> (r: Result<String, FrogpointsError>)
    ensures
        match home {
            Some(home) => r matches Ok(path) && path@ == path_with(
                home@,
                seq!["Desktop"@, "RemoteVault"@, "frogpoints.md"@],
            ),
            None => r == Err::<String, FrogpointsError>(FrogpointsError::MissingHome),
        },
{
    let relative = ["Desktop", "RemoteVault", "frogpoints.md"];
    assert(slices(relative@) =~= seq!["Desktop"@, "RemoteVault"@, "frogpoints.md"@]);
    home_relative_path(home, &relative)
}

/// The directories in which edited drawings count as work.
pub fn svg_watch_dirs(home: Option<&str>) -> (r: Result<(String, String), FrogpointsError>)
    ensures
        match home {
            Some(home) => r matches Ok(dirs) && dirs.0@ == path_with(
                home@,
                seq!["Desktop"@, "allfiles"@, "templates"@],
            ) && dirs.1@ == path_with(home@, seq![".cache"@, "inkscape"@]),
            None => r == Err::<(String, String), FrogpointsError>(FrogpointsError::MissingHome),
        },
{
    let templates = ["Desktop", "allfiles", "templates"];
    let drawings = [".cache", "inkscape"];
    assert(slices(templates@) =~= seq!["Desktop"@, "allfiles"@, "templates"@]);
    assert(slices(drawings@) =~= seq![".cache"@, "inkscape"@]);
    let first = match home_relative_path(home, &templates) {
        Ok(path) => path,
        Err(error) => {
            return Err(error);
        },
    };
    match home_relative_path(home, &drawings) {
        Ok(second) => Ok((first, second)),
        Err(error) => Err(error),
    }
}

/// The file that is locked while the balance changes. It is not the balance's own file, which
/// is replaced by the change.
pub fn lock_path(path: &str) -> (r: String)
    ensures
        r@ == with_extension_of(path@, "md.lock"@),
{
    proof {
        reveal_strlit("md.lock");
    }
    with_extension(path, "md.lock")
}

/// The file that a new balance is written to before it takes the place of the old one.
pub fn temp_path(path: &str) -> (r: String)
    ensures
        r@ == with_extension_of(path@, "md.tmp"@),
{
    proof {
        reveal_strlit("md.tmp");
    }
    with_extension(path, "md.tmp")
}

/// The balance that the content of a file tells.
pub open spec fn balance_in(contents: Seq<char>) -> Option<int> {
    i64_value(trimmed(contents))
}

/// The content of a file that tells a balance.
pub open spec fn contents_for(balance: int) -> Seq<char> {
    signed_decimal(balance) + "\n"@
}

/// A new balance, and the content of the file that tells it.
#[derive(Debug)]
pub struct Balance {
    pub points: i64,
    pub contents: String,
}

/// The balance that the content of a file tells.
pub fn read_balance(contents: &str) -> (r: Result<i64, FrogpointsError>)
    ensures
        match balance_in(contents@) {
            Some(points) => r matches Ok(n) && n == points,
            None => r == Err::<i64, FrogpointsError>(FrogpointsError::InvalidNumber),
        },
{
    match parse_i64(trim(contents)) {
        Some(points) => Ok(points),
        None => Err(FrogpointsError::InvalidNumber),
    }
}

fn balance_of(points: i64) -> (r: Balance)
    ensures
        r.points == points,
        r.contents@ == contents_for(points as int),
{
    Balance { points, contents: to_signed_decimal(points).concat("\n") }
}

/// Takes `cost` off the balance that a file tells, where the balance covers it.
pub fn debit_frogpoints(contents: &str, cost: i64) -> (r: Result<Balance, FrogpointsError>)
    requires
        balance_in(contents@) matches Some(points) ==> points >= cost ==> points - cost <= i64::MAX,
    ensures
        match balance_in(contents@) {
            None => r == Err::<Balance, FrogpointsError>(FrogpointsError::InvalidNumber),
            Some(points) => if points < cost {
                r == Err::<Balance, FrogpointsError>(
                    FrogpointsError::Insufficient { available: points as i64, cost },
                )
            } else {
                r matches Ok(balance) && balance.points == points - cost && balance.contents@
                    == contents_for(points - cost)
            },
        },
{
    let points: i64 = match read_balance(contents) {
        Ok(points) => points,
        Err(_) => {
            return Err(FrogpointsError::InvalidNumber);
        },
    };
    if points < cost {
        Err(FrogpointsError::Insufficient { available: points, cost })
    } else {
        Ok(balance_of(points - cost))
    }
}

/// Adds `delta` to the balance that a file tells. The balance may become negative.
pub fn adjust_frogpoints(contents: &str, delta: i64) -> (r: Result<Balance, FrogpointsError>)
    requires
        balance_in(contents@) matches Some(points) ==> i64::MIN <= points + delta <= i64::MAX,
    ensures
        match balance_in(contents@) {
            None => r == Err::<Balance, FrogpointsError>(FrogpointsError::InvalidNumber),
            Some(points) => r matches Ok(balance) && balance.points == points + delta
                && balance.contents@ == contents_for(points + delta),
        },
{
    let points: i64 = match read_balance(contents) {
        Ok(points) => points,
        Err(_) => {
            return Err(FrogpointsError::InvalidNumber);
        },
    };
    Ok(balance_of(points + delta))
}

/// Takes the cost of a refresh off the balance; a balance that does not cover it is not
/// charged.
pub fn debit_refresh_frogpoints(contents: &str) -> (r: Result<Balance, FrogpointsError>)
    ensures
        match balance_in(contents@) {
            None => r == Err::<Balance, FrogpointsError>(FrogpointsError::InvalidNumber),
            Some(points) => if points < REFRESH_COST {
                r == Err::<Balance, FrogpointsError>(
                    FrogpointsError::Insufficient { available: points as i64, cost: REFRESH_COST },
                )
            } else {
                r matches Ok(balance) && balance.points == points - REFRESH_COST
                    && balance.contents@ == contents_for(points - REFRESH_COST)
            },
        },
{
    proof {
        lemma_balance_fits(contents@);
    }
    debit_frogpoints(contents, REFRESH_COST)
}

/// Gives the cost of a refresh back.
pub fn refund_refresh_frogpoints(contents: &str) -> (r: Result<Balance, FrogpointsError>)
    requires
        balance_in(contents@) matches Some(points) ==> points + REFRESH_COST <= i64::MAX,
    ensures
        match balance_in(contents@) {
            None => r == Err::<Balance, FrogpointsError>(FrogpointsError::InvalidNumber),
            Some(points) => r matches Ok(balance) && balance.points == points + REFRESH_COST
                && balance.contents@ == contents_for(points + REFRESH_COST),
        },
{
    proof {
        lemma_balance_fits(contents@);
    }
    adjust_frogpoints(contents, REFRESH_COST)
}

/// Whether the last minute was one of leisurely watching: the player runs, and no drawing was
/// edited lately.
pub fn is_leisure(player_running: bool, recent_svg_modification: bool) -> (r: bool)
    ensures
        r == (player_running && !recent_svg_modification),
{
    player_running && !recent_svg_modification
}

/// Charges a minute where it was one of leisurely watching; otherwise nothing happens.
pub fn charge_leisure_frogpoint_if_needed(
    player_running: bool,
    recent_svg_modification: bool,
    contents: &str,
) -> (r: Option<Result<Balance, FrogpointsError>>)
    requires
        balance_in(contents@) matches Some(points) ==> points - LEISURE_COST >= i64::MIN,
    ensures
        r is Some <==> player_running && !recent_svg_modification,
        r matches Some(charged) ==> match balance_in(contents@) {
            None => charged == Err::<Balance, FrogpointsError>(FrogpointsError::InvalidNumber),
            Some(points) => charged matches Ok(balance) && balance.points == points - LEISURE_COST
                && balance.contents@ == contents_for(points - LEISURE_COST),
        },
{
    proof {
        lemma_balance_fits(contents@);
    }
    if is_leisure(player_running, recent_svg_modification) {
        Some(adjust_frogpoints(contents, -LEISURE_COST))
    } else {
        None
    }
}

/// Whether a file's extension is that of a drawing.
pub fn is_svg(extension: Option<&str>) -> (r: bool)
    ensures
        r == match extension {
            Some(extension) => ascii_lowered(extension@) == "svg"@,
            None => false,
        },
{
    match extension {
        Some(extension) => same(to_ascii_lowercase(extension).as_str(), "svg"),
        None => false,
    }
}

/// The time after which an edit counts as recent: so many seconds before now, or the epoch
/// where no time is that early.
pub open spec fn recent_since(now: Timestamp, idle_seconds: u64) -> Timestamp {
    if now.secs - idle_seconds >= i64::MIN {
        Timestamp { secs: (now.secs - idle_seconds) as i64, nanos: now.nanos }
    } else {
        Timestamp { secs: 0, nanos: 0 }
    }
}

/// Whether a file is a drawing that was edited within the last `idle_seconds`; an edit just so
/// long ago is not recent.
pub fn is_recent_svg_modification(
    extension: Option<&str>,
    modified: Timestamp,
    now: Timestamp,
    idle_seconds: u64,
) -> (r: bool)
    ensures
        r == match extension {
            Some(extension) => ascii_lowered(extension@) == "svg"@ && modified.is_after(
                recent_since(now, idle_seconds),
            ),
            None => false,
        },
{
    let since = match now.secs.checked_sub_unsigned(idle_seconds) {
        Some(secs) => Timestamp { secs, nanos: now.nanos },
        None => Timestamp { secs: 0, nanos: 0 },
    };
    is_svg(extension) && modified.after(&since)
}

proof fn lemma_balance_fits(contents: Seq<char>)
    ensures
        balance_in(contents) matches Some(points) ==> i64::MIN <= points <= i64::MAX,
{
}

/// A balance is read back as it was written.
pub proof fn balances_read_back(points: i64)
    ensures
        balance_in(contents_for(points as int)) == Some(points as int),
{
    reveal_strlit("\n");
    let digits = signed_decimal(points as int);
    let contents = contents_for(points as int);
    let magnitude = if points < 0 { (-points) as nat } else { points as nat };
    decimal_denotes_its_number(magnitude);
    assert(crate::text::is_ascii_digit(decimal(magnitude)[0]));
    assert(crate::text::is_ascii_digit(decimal(magnitude)[decimal(magnitude).len() - 1]));
    assert(digits.last() == decimal(magnitude).last());
    assert(!is_whitespace(digits[0]));
    assert(!is_whitespace(digits.last()));
    assert(skip_leading(contents, CharSet::Whitespace) == contents);
    assert(contents.last() == '\n');
    assert(contents.drop_last() =~= digits);
    assert(skip_trailing(contents, CharSet::Whitespace) == skip_trailing(
        digits,
        CharSet::Whitespace,
    ));
    assert(trimmed(contents) == digits);
    signed_decimal_reads_back(points);
}

/// A refund after a debit restores the balance, as the file tells it.
pub proof fn refund_undoes_debit(before: Seq<char>, debited: Seq<char>, refunded: Seq<char>)
    requires
        balance_in(before) matches Some(points) && points >= REFRESH_COST && debited
            == contents_for(points - REFRESH_COST),
        balance_in(debited) matches Some(points) && refunded == contents_for(points + REFRESH_COST),
    ensures
        balance_in(refunded) == balance_in(before),
{
    lemma_balance_fits(before);
    let points = balance_in(before).unwrap();
    balances_read_back((points - REFRESH_COST) as i64);
    balances_read_back(points as i64);
}

/// The file of the balance and the directories of drawings lie below the home directory.
pub proof fn places_lie_below_home(home: Seq<char>)
    requires
        home.len() > 0,
        home.last() != '/',
    ensures
        path_with(home, seq!["Desktop"@, "RemoteVault"@, "frogpoints.md"@]) == home
            + "/Desktop/RemoteVault/frogpoints.md"@,
        path_with(home, seq!["Desktop"@, "allfiles"@, "templates"@]) == home
            + "/Desktop/allfiles/templates"@,
        path_with(home, seq![".cache"@, "inkscape"@]) == home + "/.cache/inkscape"@,
{
    reveal_strlit("/");
    reveal_strlit("Desktop");
    reveal_strlit("RemoteVault");
    reveal_strlit("frogpoints.md");
    reveal_strlit("/Desktop/RemoteVault/frogpoints.md");
    reveal_strlit("allfiles");
    reveal_strlit("templates");
    reveal_strlit("/Desktop/allfiles/templates");
    reveal_strlit(".cache");
    reveal_strlit("inkscape");
    reveal_strlit("/.cache/inkscape");
    let none = Seq::<Seq<char>>::empty();
    let desktop = seq!["Desktop"@];
    assert(desktop.drop_last() =~= none);
    assert(path_with(home, none) == home);
    let at_desktop = path_with(home, desktop);
    assert(at_desktop =~= home + "/"@ + "Desktop"@);
    let vault = seq!["Desktop"@, "RemoteVault"@];
    assert(vault.drop_last() =~= desktop);
    let at_vault = path_with(home, vault);
    assert(at_vault =~= at_desktop + "/"@ + "RemoteVault"@);
    let file = seq!["Desktop"@, "RemoteVault"@, "frogpoints.md"@];
    assert(file.drop_last() =~= vault);
    assert(path_with(home, file) =~= at_vault + "/"@ + "frogpoints.md"@);
    assert(path_with(home, file) =~= home + "/Desktop/RemoteVault/frogpoints.md"@);
    let files = seq!["Desktop"@, "allfiles"@];
    assert(files.drop_last() =~= desktop);
    let at_files = path_with(home, files);
    assert(at_files =~= at_desktop + "/"@ + "allfiles"@);
    let templates = seq!["Desktop"@, "allfiles"@, "templates"@];
    assert(templates.drop_last() =~= files);
    assert(path_with(home, templates) =~= at_files + "/"@ + "templates"@);
    assert(path_with(home, templates) =~= home + "/Desktop/allfiles/templates"@);
    let cache = seq![".cache"@];
    assert(cache.drop_last() =~= none);
    let at_cache = path_with(home, cache);
    assert(at_cache =~= home + "/"@ + ".cache"@);
    let drawings = seq![".cache"@, "inkscape"@];
    assert(drawings.drop_last() =~= cache);
    assert(path_with(home, drawings) =~= at_cache + "/"@ + "inkscape"@);
    assert(path_with(home, drawings) =~= home + "/.cache/inkscape"@);
}

/// Whitespace round a balance does not count, and a balance is what its digits denote, behind a
/// minus sign the negative of it; what is no whole number is no balance.
pub proof fn balances_are_whole_numbers(before: Seq<char>, digits: Seq<char>, after: Seq<char>)
    requires
        forall|i: int| 0 <= i < before.len() ==> is_whitespace(#[trigger] before[i]),
        forall|i: int| 0 <= i < after.len() ==> is_whitespace(#[trigger] after[i]),
        digits.len() > 0 && all_digits(digits),
    ensures
        digits_value(digits) <= i64::MAX ==> balance_in(before + digits + after) == Some(
            digits_value(digits) as int,
        ),
        digits_value(digits) <= i64::MAX ==> balance_in(before + (seq!['-'] + digits) + after)
            == Some(-digits_value(digits)),
        digits_value(digits) > i64::MAX ==> balance_in(before + digits + after) is None,
        balance_in(before) is None,
{
    assert(is_ascii_digit(digits[0]) && is_ascii_digit(digits[digits.len() - 1]));
    let negative = seq!['-'] + digits;
    assert(negative.skip(1) =~= digits);
    assert(negative.last() == digits.last());
    padding_is_taken_off(before, digits, after, CharSet::Whitespace);
    padding_is_taken_off(before, negative, after, CharSet::Whitespace);
    let none = Seq::<char>::empty();
    padding_is_taken_off(before, none, none, CharSet::Whitespace);
    assert(before + none + none =~= before);
}

/// An edit is recent for as long as the idle time lasts, to the nanosecond.
pub proof fn edits_are_recent_within_the_idle_time(
    modified: Timestamp,
    now: Timestamp,
    idle_seconds: u64,
)
    requires
        now.secs - idle_seconds >= i64::MIN,
    ensures
        modified.is_after(recent_since(now, idle_seconds)) <==> modified.secs + idle_seconds
            > now.secs || (modified.secs + idle_seconds == now.secs && modified.nanos > now.nanos),
{
}

/// What is wrong with the balance is told, and where it is too low both what is needed and what
/// is there.
pub proof fn troubles_with_the_balance_are_told(cause: String, available: i64, cost: i64)
    ensures
        frogpoints_error_text(FrogpointsError::MissingHome) == "HOME is not set"@,
        frogpoints_error_text(FrogpointsError::Read(cause)) == "Failed to read frogpoints: "@
            + cause@,
        frogpoints_error_text(FrogpointsError::InvalidNumber)
            == "frogpoints.md must contain a whole number"@,
        frogpoints_error_text(FrogpointsError::Insufficient { available, cost }) == "Need "@
            + signed_decimal(cost as int) + " frogpoints to refresh, but only "@ + signed_decimal(
            available as int,
        ) + " remain"@,
        frogpoints_error_text(FrogpointsError::Write(cause)) == "Failed to save frogpoints: "@
            + cause@,
{
}

} // verus!
