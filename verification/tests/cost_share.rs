use codex_usage::aggregates::session_detail::{cost_share, ShareUnavailable};
use codex_usage::aggregates::{EstimatedCost, ReadError};

fn cost(subtotal: Option<&str>, complete: bool) -> EstimatedCost {
    EstimatedCost { known_subtotal: subtotal.map(str::to_string), complete }
}

fn share(row: &str, session: &str) -> String {
    cost_share(&cost(Some(row), true), &cost(Some(session), true)).unwrap().0.unwrap()
}

#[test]
fn cost_share_rounds_half_up_to_hundredths() {
    assert_eq!(share("2500", "10000"), "25.00");
    assert_eq!(share("1", "3"), "33.33");
    assert_eq!(share("2", "3"), "66.67");
    assert_eq!(share("1", "8"), "12.50");
    assert_eq!(share("1", "80000"), "0.00");
    assert_eq!(share("1", "20000"), "0.01");
    assert_eq!(share("3", "3"), "100.00");
    assert_eq!(share("7", "2"), "350.00");
}

#[test]
fn cost_share_keeps_truncating_division_for_signed_amounts() {
    assert_eq!(share("-1", "3"), "-33.-33");
    assert_eq!(share("1", "-3"), "-33.-32");
    assert_eq!(share("-1", "-3"), "33.34");
    assert_eq!(share("0", "-5"), "0.01");
    assert_eq!(share("-5", "1000000"), "0.00");
}

#[test]
fn cost_share_handles_the_widest_amounts() {
    assert_eq!(
        share("170141183460469231731687303715884105727", "1"),
        "17014118346046923173168730371588410572700.00"
    );
    assert_eq!(share("-170141183460469231731687303715884105728", "-170141183460469231731687303715884105728"), "100.01");
}

#[test]
fn cost_share_reports_why_it_is_unavailable() {
    let known = cost(Some("10"), true);
    assert_eq!(cost_share(&cost(None, true), &known).unwrap(), (None, Some(ShareUnavailable::Unavailable)));
    assert_eq!(cost_share(&known, &cost(None, true)).unwrap(), (None, Some(ShareUnavailable::Unavailable)));
    assert_eq!(cost_share(&cost(Some("1"), false), &known).unwrap(), (None, Some(ShareUnavailable::Incomplete)));
    assert_eq!(cost_share(&known, &cost(Some("0"), true)).unwrap(), (None, Some(ShareUnavailable::ZeroDenominator)));
    assert_eq!(cost_share(&cost(Some("1.5"), true), &known).err(), Some(ReadError::Storage));
    assert_eq!(cost_share(&known, &cost(Some("x"), true)).err(), Some(ReadError::Storage));
}
