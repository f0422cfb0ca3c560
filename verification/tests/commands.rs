use git_ai::commands::exchange_nonce::{
    failure_message, format_error, missing_api_base_warning, plan_exchange, store_failure_warning,
    ExchangePlan, ExchangeStep,
};
use git_ai::commands::status::{capitalize, format_time_ago, replace_first, time_ago_at};
use git_ai::text::{decimal, leading, pad_left, pad_right};

#[test]
fn capitalize_raises_the_first_letter_only() {
    assert_eq!(capitalize("editor"), "Editor");
    assert_eq!(capitalize("tool a"), "Tool a");
    assert_eq!(capitalize("Already"), "Already");
    assert_eq!(capitalize("x"), "X");
}

#[test]
fn capitalize_of_nothing_is_nothing() {
    assert_eq!(capitalize(""), "");
}

#[test]
fn capitalize_may_lengthen_the_text() {
    assert_eq!(capitalize("ßa"), "SSa");
    assert_eq!(capitalize("éa"), "Éa");
    assert_eq!(capitalize("1a"), "1a");
}

#[test]
fn replace_first_swaps_the_head() {
    assert_eq!(replace_first("abc", "XY"), "XYbc");
    assert_eq!(replace_first("a", ""), "");
    assert_eq!(replace_first("", "XY"), "");
}

#[test]
fn time_ago_in_seconds() {
    assert_eq!(time_ago_at(1000, 1000), "0 secs ago");
    assert_eq!(time_ago_at(1059, 1000), "59 secs ago");
}

#[test]
fn time_ago_in_minutes() {
    assert_eq!(time_ago_at(1060, 1000), "1 mins ago");
    assert_eq!(time_ago_at(1000 + 3599, 1000), "59 mins ago");
}

#[test]
fn time_ago_in_hours() {
    assert_eq!(time_ago_at(1000 + 3600, 1000), "1 hours ago");
    assert_eq!(time_ago_at(1000 + 86399, 1000), "23 hours ago");
}

#[test]
fn time_ago_in_days() {
    assert_eq!(time_ago_at(1000 + 86400, 1000), "1 days ago");
    assert_eq!(time_ago_at(1000 + 86400 * 400 + 5, 1000), "400 days ago");
    assert_eq!(time_ago_at(u64::MAX, 0), "213503982334601 days ago");
}

#[test]
fn time_ago_of_a_time_ahead_is_now() {
    assert_eq!(time_ago_at(1000, 5000), "0 secs ago");
}

#[test]
fn format_time_ago_reads_the_clock() {
    assert_eq!(format_time_ago(u64::MAX), "0 secs ago");
    let long_ago = format_time_ago(0);
    assert!(long_ago.ends_with(" days ago"));
    let days: u64 = long_ago.trim_end_matches(" days ago").parse().unwrap();
    assert!(days > 19000);
}

#[test]
fn decimal_writes_every_digit() {
    assert_eq!(decimal(0), "0");
    assert_eq!(decimal(7), "7");
    assert_eq!(decimal(10), "10");
    assert_eq!(decimal(1234567890), "1234567890");
    assert_eq!(decimal(u64::MAX), "18446744073709551615");
}

#[test]
fn padding_fills_up_to_the_width() {
    assert_eq!(pad_right("ab", 5), "ab   ");
    assert_eq!(pad_left("ab", 5), "   ab");
    assert_eq!(pad_right("abcdef", 5), "abcdef");
    assert_eq!(pad_left("abcdef", 5), "abcdef");
    assert_eq!(pad_right("", 0), "");
    assert_eq!(pad_left("é", 3), "  é");
}

#[test]
fn leading_takes_whole_characters() {
    assert_eq!(leading("0123456789abcdef", 7), "0123456");
    assert_eq!(leading("abc", 7), "abc");
    assert_eq!(leading("ééééééééé", 7), "ééééééé");
    assert_eq!(leading("abc", 0), "");
}

#[test]
fn format_error_with_install_page() {
    assert_eq!(
        format_error("boom", Some("https://example.com/install")),
        "\x1b[33mAutomatic login expired. Visit the link below to get a fresh install command:\n  https://example.com/install\x1b[0m"
    );
}

#[test]
fn format_error_without_install_page() {
    assert_eq!(
        format_error("boom", None),
        "\x1b[33mAutomatic login expired. Visit your organization's install page for a fresh install command.\x1b[0m"
    );
}

#[test]
fn store_failure_shows_the_detail() {
    assert_eq!(
        store_failure_warning("disk full"),
        "\x1b[33mWarning: Failed to store credentials: disk full\x1b[0m"
    );
}

#[test]
fn failure_message_by_step() {
    let url = Some("https://example.com/i");
    assert_eq!(failure_message(ExchangeStep::Connect, "refused", url), format_error("", url));
    assert_eq!(failure_message(ExchangeStep::Exchange, "410", None), format_error("", None));
    assert_eq!(
        failure_message(ExchangeStep::Store, "disk full", url),
        store_failure_warning("disk full")
    );
}

#[test]
fn missing_api_base_is_a_warning() {
    assert_eq!(
        missing_api_base_warning(),
        "\x1b[33mWarning: INSTALL_NONCE set but API_BASE missing\x1b[0m"
    );
}

#[test]
fn no_nonce_means_nothing_to_do() {
    assert_eq!(plan_exchange(None, Some("https://api".to_string()), None), ExchangePlan::Skip);
    assert_eq!(
        plan_exchange(Some(String::new()), Some("https://api".to_string()), None),
        ExchangePlan::Skip
    );
}

#[test]
fn nonce_without_api_base_is_reported() {
    assert_eq!(plan_exchange(Some("n1".to_string()), None, None), ExchangePlan::MissingApiBase);
    assert_eq!(
        plan_exchange(Some("n1".to_string()), Some(String::new()), Some("u".to_string())),
        ExchangePlan::MissingApiBase
    );
}

#[test]
fn nonce_and_api_base_are_exchanged() {
    assert_eq!(
        plan_exchange(Some("n1".to_string()), Some("https://api".to_string()), Some(String::new())),
        ExchangePlan::Exchange {
            nonce: "n1".to_string(),
            api_base: "https://api".to_string(),
            install_page_url: None
        }
    );
    assert_eq!(
        plan_exchange(
            Some("n1".to_string()),
            Some("https://api".to_string()),
            Some("https://page".to_string())
        ),
        ExchangePlan::Exchange {
            nonce: "n1".to_string(),
            api_base: "https://api".to_string(),
            install_page_url: Some("https://page".to_string())
        }
    );
}
