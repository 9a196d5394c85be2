use codex_usage::aggregates::{Category, Tokens};
use codex_usage::export::{
    category_state, cost_state, csv_row, cycle_row, estimate_state, token_headers, token_values,
    unix_seconds, usage_headers, usage_row, usage_state, usd, valid_destination, weekly_headers,
    Error, Kind, UsageCounts,
};
use codex_usage::weekly::{Cost, Cycle, Estimate, Observation, Time, Unavailable};

fn category(known: Option<&str>, complete: bool) -> Category {
    Category {
        known_tokens: known.map(String::from),
        complete,
    }
}

fn tokens() -> Tokens {
    Tokens {
        total_tokens: category(Some("12"), true),
        input_tokens: category(Some("10"), false),
        cached_input_tokens: category(None, false),
        cache_write_tokens: category(Some("0"), true),
        output_tokens: category(Some("2"), true),
        reasoning_tokens: category(None, false),
    }
}

#[test]
fn csv_rows_quote_commas_quotes_and_line_breaks_and_end_with_crlf() {
    let fields = vec![
        String::from("model:model,\"雪\"\r\nnext"),
        String::from("observedModel"),
        String::from("plain"),
        String::new(),
    ];
    assert_eq!(
        csv_row(&fields),
        "\"model:model,\"\"雪\"\"\r\nnext\",observedModel,plain,\r\n"
    );
    assert_eq!(csv_row(&[]), "\r\n");
}

#[test]
fn model_rows_keep_the_quoted_identity_and_its_attribution() {
    let counts = UsageCounts {
        observed_sessions: 1,
        accepted: 1,
        incomplete: false,
        unresolved: false,
        diagnostics: false,
        sessions_with_usage: 1,
        valued: 0,
    };
    let row = usage_row(
        Kind::ModelUsage,
        String::from("model:model,\"雪\"\r\nnext"),
        String::new(),
        &counts,
        &tokens(),
        None,
    )
    .unwrap();
    let line = csv_row(&row);
    assert!(line.starts_with(
        "\"model:model,\"\"雪\"\"\r\nnext\",observedModel,\"model,\"\"雪\"\"\r\nnext\",direct,1,0,1,observed,false,false,"
    ));
    assert!(line.ends_with("\r\n"));
    assert_eq!(row.len(), usage_headers(Kind::ModelUsage).len());
    assert_eq!(row[row.len() - 3], "");
    assert_eq!(row[row.len() - 2], "unpriced");
}

#[test]
fn session_rows_name_their_project() {
    let counts = UsageCounts {
        observed_sessions: 2,
        accepted: 3,
        incomplete: false,
        unresolved: true,
        diagnostics: false,
        sessions_with_usage: 1,
        valued: 3,
    };
    let row = usage_row(
        Kind::Sessions,
        String::from("root"),
        String::from("repository:/work/repo"),
        &counts,
        &tokens(),
        Some(String::from("1500000000000")),
    )
    .unwrap();
    assert_eq!(
        &row[..13],
        &[
            "root",
            "observed_session",
            "",
            "repository:/work/repo",
            "confirmedRepository",
            "/work/repo",
            "direct",
            "2",
            "1",
            "3",
            "incomplete",
            "true",
            "false"
        ]
    );
    assert_eq!(row[row.len() - 3], "1.500000000000");
    assert_eq!(row[row.len() - 2], "complete");
    assert_eq!(row.len(), usage_headers(Kind::Sessions).len());
    let broken = usage_row(
        Kind::Sessions,
        String::from("root"),
        String::from("unknown:"),
        &counts,
        &tokens(),
        Some(String::from("0015")),
    );
    assert_eq!(broken.unwrap_err(), Error::Storage);
}

#[test]
fn headers_name_every_token_category_twice() {
    let mut headers = Vec::new();
    token_headers(&mut headers);
    assert_eq!(headers.len(), 12);
    assert_eq!(headers[0], "total_tokens_known_subtotal");
    assert_eq!(headers[1], "total_tokens_state");
    assert_eq!(headers[11], "reasoning_tokens_state");
    let usage = usage_headers(Kind::ProjectTotals);
    assert_eq!(usage[0], "project_id");
    assert_eq!(usage.len(), 3 + 7 + 12 + 3);
    assert_eq!(usage_headers(Kind::Sessions).len(), 6 + 7 + 12 + 3);
    let weekly = weekly_headers();
    assert_eq!(weekly.len(), 20 + 12 + 1);
    assert_eq!(weekly[19], "estimate_state");
    assert_eq!(weekly[32], "coverage_note");
}

#[test]
fn token_values_report_subtotals_and_states() {
    let mut fields = vec![String::from("head")];
    token_values(&mut fields, Some(&tokens()));
    assert_eq!(
        fields,
        vec![
            "head",
            "12",
            "complete",
            "10",
            "incomplete",
            "",
            "unavailable",
            "0",
            "complete",
            "2",
            "complete",
            "",
            "unavailable"
        ]
    );
    let mut empty = Vec::new();
    token_values(&mut empty, None);
    assert_eq!(empty.len(), 12);
    assert!(empty.iter().step_by(2).all(|f| f.is_empty()));
    assert!(empty.iter().skip(1).step_by(2).all(|f| f == "unavailable"));
}

#[test]
fn states_follow_their_precedence() {
    assert_eq!(category_state(None), "unavailable");
    assert_eq!(category_state(Some(&category(Some("1"), true))), "complete");
    assert_eq!(category_state(Some(&category(Some("1"), false))), "incomplete");
    assert_eq!(category_state(Some(&category(None, true))), "complete");
    assert_eq!(cost_state(Some("1"), true, 1), "complete");
    assert_eq!(cost_state(Some("1"), false, 2), "incomplete_unpriced_usage");
    assert_eq!(cost_state(None, false, 2), "unpriced");
    assert_eq!(cost_state(None, false, 0), "unavailable");
    assert_eq!(usage_state(0, true, true, true, 3), "unavailable");
    assert_eq!(usage_state(1, false, false, false, 1), "incomplete");
    assert_eq!(usage_state(1, false, false, false, 0), "observed");
    assert_eq!(estimate_state(None), "available");
    assert_eq!(
        estimate_state(Some(Unavailable::BelowOnePercentagePoint)),
        "below_one_percentage_point"
    );
}

#[test]
fn money_and_instants_render_exact_decimals() {
    assert_eq!(usd(None).unwrap(), "");
    assert_eq!(usd(Some("0")).unwrap(), "0.000000000000");
    assert_eq!(usd(Some("1234567890123")).unwrap(), "1.234567890123");
    assert_eq!(usd(Some("-1")).unwrap_err(), Error::Storage);
    assert_eq!(usd(Some("+1")).unwrap_err(), Error::Storage);
    assert_eq!(usd(Some("x")).unwrap_err(), Error::Storage);
    assert_eq!(
        unix_seconds(Time {
            seconds: 1_700_000_000,
            nanos: 5
        }),
        "1700000000.000000005"
    );
    assert_eq!(
        unix_seconds(Time {
            seconds: -1,
            nanos: 500_000_000
        }),
        "-0.500000000"
    );
}

#[test]
fn destinations_must_be_absolute_csv_files() {
    assert!(valid_destination("/tmp/report.csv"));
    assert!(valid_destination("/tmp/report.CsV"));
    assert!(!valid_destination("relative.csv"));
    assert!(!valid_destination("/tmp/source.jsonl"));
    assert!(!valid_destination("/tmp/.csv"));
    assert!(!valid_destination("/"));
    assert!(valid_destination("/tmp/a..csv"));
}

#[test]
fn cycle_rows_render_the_comparable_interval() {
    let observation = |seconds: i64, used: &str| Observation {
        time: Time { seconds, nanos: 0 },
        used_percent: used.into(),
        remaining_percent: "80".into(),
        resets_at: Some(900),
    };
    let cycle = Cycle {
        key: "100:000000000".into(),
        first_observation: observation(100, "10"),
        last_observation: observation(200, "20"),
        detected_reset: true,
        has_ambiguous_observations: false,
        full_cycle_cost_known: false,
    };
    let estimate = Estimate {
        start: Some(Time { seconds: 100, nanos: 0 }),
        end: Some(Time { seconds: 200, nanos: 0 }),
        consumed_percentage_points: Some("10".into()),
        estimated_cost: Some(Cost {
            known_subtotal: None,
            complete: false,
            accepted_observations: 2,
        }),
        effective_usd_per_percent: None,
        estimated_full_week_usd: None,
        unavailable_reason: Some(Unavailable::UnpricedUsage),
    };
    let row = cycle_row(&cycle, "completed", &estimate, None).unwrap();
    assert_eq!(row.len(), weekly_headers().len());
    assert_eq!(row[0], "100:000000000");
    assert_eq!(row[1], "completed");
    assert_eq!(row[3], "100.000000000");
    assert_eq!(row[8], "900");
    assert_eq!(row[9], "true");
    assert_eq!(row[11], "unavailable");
    assert_eq!(row[15], "");
    assert_eq!(row[16], "unpriced");
    assert_eq!(row[19], "unpriced_usage");
}
