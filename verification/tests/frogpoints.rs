use yt_gtk::data::Timestamp;
use yt_gtk::frogpoints::{
    adjust_frogpoints, charge_leisure_frogpoint_if_needed, debit_frogpoints,
    debit_refresh_frogpoints, frogpoints_path, is_leisure, is_recent_svg_modification, is_svg,
    lock_path, read_balance, refund_refresh_frogpoints, svg_watch_dirs, temp_path,
    FrogpointsError, REFRESH_COST,
};
use yt_gtk::paths::extension;

fn at(secs: i64, nanos: u32) -> Timestamp {
    Timestamp { secs, nanos }
}

#[test]
fn debit_frogpoints_subtracts_cost_and_returns_remaining_balance() {
    let balance = debit_frogpoints("18", REFRESH_COST).expect("debit enough frogpoints");

    assert_eq!(balance.points, 8);
    assert_eq!(balance.contents, "8\n");
}

#[test]
fn debit_frogpoints_blocks_when_balance_is_too_small() {
    let error = debit_frogpoints("9", REFRESH_COST).expect_err("block insufficient balance");

    assert!(matches!(
        error,
        FrogpointsError::Insufficient {
            available: 9,
            cost: REFRESH_COST
        }
    ));
    assert_eq!(error.message(), "Need 10 frogpoints to refresh, but only 9 remain");
}

#[test]
fn adjust_frogpoints_with_positive_delta_credits_the_balance() {
    let balance = adjust_frogpoints("3", REFRESH_COST).expect("credit frogpoints");

    assert_eq!(balance.points, 13);
    assert_eq!(balance.contents, "13\n");
}

#[test]
fn adjust_frogpoints_allows_negative_balances() {
    let balance = adjust_frogpoints("0", -1).expect("adjust frogpoints");

    assert_eq!(balance.points, -1);
    assert_eq!(balance.contents, "-1\n");
}

#[test]
fn adjust_frogpoints_writes_shorter_balance_without_stale_bytes() {
    let balance = adjust_frogpoints("1000", -995).expect("adjust frogpoints");

    assert_eq!(balance.points, 5);
    assert_eq!(balance.contents, "5\n");
}

#[test]
fn repeated_updates_with_lock_sibling_do_not_corrupt_the_balance() {
    let mut contents = "100".to_string();
    for _ in 0..5 {
        contents = adjust_frogpoints(&contents, -1).expect("adjust frogpoints").contents;
    }

    assert_eq!(contents, "95\n");
    assert_eq!(lock_path("/home/me/frogpoints.md"), "/home/me/frogpoints.md.lock");
    assert_eq!(temp_path("/home/me/frogpoints.md"), "/home/me/frogpoints.md.tmp");
}

#[test]
fn has_recent_svg_modification_ignores_non_svg_files() {
    for name in ["not-svg.txt", "svg"] {
        assert!(!is_svg(extension(name)));
        assert!(!is_recent_svg_modification(extension(name), at(5_000, 0), at(5_000, 1), 120));
    }
}

#[test]
fn has_recent_svg_modification_finds_nested_svg_files_case_insensitively() {
    for name in ["nested/work.SVG", "work.svg"] {
        assert!(is_svg(extension(name)));
        assert!(is_recent_svg_modification(extension(name), at(5_000, 0), at(5_000, 1), 120));
    }
}

#[test]
fn edits_stay_recent_for_the_idle_time() {
    let recent = |modified: Timestamp, now: Timestamp, idle_seconds: u64| {
        is_recent_svg_modification(Some("svg"), modified, now, idle_seconds)
    };
    let now = at(5_000, 500);
    assert!(recent(at(4_881, 0), now, 120));
    assert!(recent(at(4_880, 501), now, 120));
    assert!(!recent(at(4_880, 500), now, 120));
    assert!(!recent(at(4_879, 999_999_999), now, 120));
    assert!(recent(at(6_000, 0), now, 120));
    assert!(!recent(at(5_000, 500), now, 0));

    // Where no time is early enough, the epoch is what counts.
    assert!(recent(at(0, 1), at(i64::MIN, 7), 1));
    assert!(!recent(at(0, 0), at(i64::MIN, 7), 1));
    assert!(!recent(at(-1, 0), at(0, 0), u64::MAX));
}

#[test]
fn a_refund_restores_the_balance() {
    let debited = debit_refresh_frogpoints(" 42 \n").expect("there is enough");
    assert_eq!(debited.points, 32);
    let refunded = refund_refresh_frogpoints(&debited.contents).expect("the balance reads back");
    assert_eq!(refunded.points, 42);
}

#[test]
fn leisure_costs_only_while_nothing_is_drawn() {
    assert!(is_leisure(true, false));
    assert!(charge_leisure_frogpoint_if_needed(false, false, "5").is_none());
    assert!(charge_leisure_frogpoint_if_needed(true, true, "5").is_none());
    let charged = charge_leisure_frogpoint_if_needed(true, false, "5")
        .expect("it is leisure")
        .expect("the balance reads");
    assert_eq!(charged.points, 4);
}

#[test]
fn balances_are_whole_numbers() {
    assert_eq!(read_balance("+7").expect("a whole number"), 7);
    let error = read_balance("7.5").expect_err("not a whole number");
    assert_eq!(error.message(), "frogpoints.md must contain a whole number");
    assert_eq!(FrogpointsError::MissingHome.message(), "HOME is not set");
    assert_eq!(
        FrogpointsError::Read("x".to_string()).message(),
        "Failed to read frogpoints: x"
    );
    assert_eq!(
        FrogpointsError::Write("x".to_string()).message(),
        "Failed to save frogpoints: x"
    );
}

#[test]
fn the_balance_is_kept_in_the_home_directory() {
    assert!(frogpoints_path(Some("/home/me")).expect("there is a home").starts_with("/home/me/"));
    assert!(frogpoints_path(None).is_err());
    assert!(svg_watch_dirs(None).is_err());
}
