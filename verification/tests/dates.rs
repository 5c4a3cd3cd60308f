use logtrak::dates::{
    is_valid_month_day, recognized_date_suffix_len, suggest_today_pattern_for_date,
    today_format_names, CalendarDate, DateTokens,
};

#[test]
fn suggest_today_pattern_replaces_recognized_date_suffix() {
    let path = "/tmp/app_20260424.log";

    let suggestion = suggest_today_pattern_for_date(path).expect("today suggestion");

    assert_eq!(suggestion.original_path, path);
    assert_eq!(suggestion.pattern_path, "/tmp/app_{today}.log");
}

#[test]
fn suggest_today_pattern_supports_short_date_suffixes() {
    let suggestion = suggest_today_pattern_for_date("/tmp/app-0424.log").expect("today suggestion");

    assert_eq!(suggestion.pattern_path, "/tmp/app-{today}.log");
}

#[test]
fn suggest_today_pattern_supports_valid_non_today_suffixes() {
    let suggestion = suggest_today_pattern_for_date("/tmp/app_04_26.log").expect("today suggestion");

    assert_eq!(suggestion.pattern_path, "/tmp/app_{today}.log");
}

#[test]
fn suggest_today_pattern_ignores_invalid_date_suffix() {
    assert_eq!(suggest_today_pattern_for_date("/tmp/app_20261340.log"), None);
}

#[test]
fn suggestion_needs_more_than_a_date() {
    assert_eq!(suggest_today_pattern_for_date("/tmp/20260424"), None);
    assert_eq!(
        suggest_today_pattern_for_date("20260424.log").map(|s| s.pattern_path),
        Some("{today}.log".to_string())
    );
    assert_eq!(suggest_today_pattern_for_date("/"), None);
    assert_eq!(suggest_today_pattern_for_date("/tmp/app_{mm}_0424.log"), None);
}

#[test]
fn every_form_of_a_date_is_recognised() {
    let date = CalendarDate {
        year: 2026,
        month: 4,
        day: 24,
    };
    let tokens = DateTokens::for_date(date);
    let mut lengths = Vec::new();
    for name in today_format_names() {
        let stem: Vec<char> = format!("app{}", tokens.value_for(name)).chars().collect();
        lengths.push(recognized_date_suffix_len(&stem));
    }
    assert_eq!(
        lengths,
        vec![
            Some(8),
            Some(10),
            Some(10),
            Some(4),
            Some(5),
            Some(5),
            Some(6),
            Some(8),
            Some(8)
        ]
    );
}

#[test]
fn days_that_no_calendar_has_are_not_dates() {
    for stem in [
        "app_20251341", "app_2025-13-29", "app_20261301", "app-0230", "app-0431", "app-0000",
        "app_1232", "app", "a1b2c3d4", "app_2026-4-2-1",
    ] {
        let chars: Vec<char> = stem.chars().collect();
        assert_eq!(recognized_date_suffix_len(&chars), None, "{stem}");
    }
    for (stem, len) in [
        ("app_20240229", 8),
        ("app_20250229", 4),
        ("app_2025-02-29", 5),
        ("app-0229", 4),
        ("app-1231", 4),
        ("app_000101", 6),
        ("app_+026-+4-24", 10),
        ("app-026_04_24", 10),
        ("\u{e9}0424", 4),
    ] {
        let chars: Vec<char> = stem.chars().collect();
        assert_eq!(recognized_date_suffix_len(&chars), Some(len), "{stem}");
    }
}

#[test]
fn years_of_other_lengths_are_padded() {
    let early = DateTokens::for_date(CalendarDate {
        year: 7,
        month: 1,
        day: 2,
    });
    assert_eq!(early.value_for("yyyymmdd"), "00070102");
    assert_eq!(early.value_for("yy-mm-dd"), "07-01-02");
    assert_eq!(early.value_for("no such format"), "00070102");
    let before = DateTokens::for_date(CalendarDate {
        year: -42,
        month: 11,
        day: 30,
    });
    assert_eq!(before.value_for("yyyy_mm_dd"), "-042_11_30");
    assert_eq!(before.apply("{yyyy}|{yy}|{today}"), "-042|42|{today}");
}

#[test]
fn padding_agrees_with_the_formatter() {
    for year in [-12345, -9999, -100, -7, 0, 5, 99, 100, 999, 2026, 9999, 12345] {
        let tokens = DateTokens::for_date(CalendarDate {
            year,
            month: 3,
            day: 9,
        });
        let short = (year % 100i32).abs();
        assert_eq!(
            tokens.apply("{yyyy} {yy} {mmdd}"),
            format!("{year:04} {short:02} 0309")
        );
    }
}

#[test]
fn month_and_day_without_a_year() {
    for month in 0..=13u8 {
        for day in 0..=32u8 {
            let expected = matches!(
                (month, day),
                (1 | 3 | 5 | 7 | 8 | 10 | 12, 1..=31) | (4 | 6 | 9 | 11, 1..=30) | (2, 1..=29)
            );
            assert_eq!(is_valid_month_day(month, day), expected, "{month}-{day}");
        }
    }
}

#[test]
fn calendar_days_agree_with_the_time_crate() {
    for year in [1900, 1999, 2000, 2023, 2024, 2100] {
        for month in 1..=12u8 {
            for day in 1..=31u8 {
                let chars: Vec<char> = format!("x{year:04}-{month:02}-{day:02}").chars().collect();
                let month_of = time::Month::try_from(month).expect("month");
                let exists = time::Date::from_calendar_date(year, month_of, day).is_ok();
                let suffix = recognized_date_suffix_len(&chars);
                assert_eq!(suffix == Some(10), exists, "{year}-{month}-{day}");
            }
        }
    }
}

const EXPLICIT: [&str; 13] = [
    "{yyyymmdd}", "{yyyy-mm-dd}", "{yyyy_mm_dd}", "{yymmdd}", "{yy-mm-dd}", "{yy_mm_dd}", "{mmdd}",
    "{mm-dd}", "{mm_dd}", "{yyyy}", "{yy}", "{mm}", "{dd}",
];

fn sample_tokens(year: i32) -> DateTokens {
    DateTokens::for_date(CalendarDate {
        year,
        month: 4,
        day: 24,
    })
}

#[test]
fn filling_in_leaves_no_placeholder() {
    let raws = [
        "/logs/{yyyy}/{mmdd}-{today}.log".to_string(),
        "{yy{yyyy}}{mm{dd}}".to_string(),
        "{{mm}dd}{yyyy{mm}dd}".to_string(),
        "{yy{yyyy}mm-dd}".to_string(),
        EXPLICIT.concat(),
    ];
    for year in [-42, 7, 2026] {
        let tokens = sample_tokens(year);
        for raw in &raws {
            let filled = tokens.apply(raw);
            for token in EXPLICIT {
                assert!(!filled.contains(token), "{filled}");
            }
            assert_eq!(tokens.apply(&filled), filled);
            assert_eq!(sample_tokens(1999).apply(&filled), filled);
        }
    }
    assert_eq!(sample_tokens(2026).apply("{yy{yyyy}}{mm{dd}}"), "{yy2026}{mm24}");
}

#[test]
fn format_names_in_braces_are_filled_in() {
    for year in [-42, 7, 2026] {
        let tokens = sample_tokens(year);
        for name in today_format_names() {
            assert_eq!(&tokens.apply(&format!("{{{name}}}")), tokens.value_for(name));
        }
    }
    assert_eq!(sample_tokens(2026).apply("{yy-mm-dd}"), "26-04-24");
}

#[test]
fn text_without_explicit_placeholders_is_left_alone() {
    let tokens = sample_tokens(2026);
    for raw in ["", "/var/log/app.log", "{today}", "a{today}b*", "{yyyy", "mm}dd", "{YYYY}"] {
        assert_eq!(tokens.apply(raw), raw);
    }
}
