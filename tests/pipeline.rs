use spending_report::calendar::{Date, MonthYear};
use spending_report::groups::{GroupConfig, Groups, MAX_RECORDS};
use spending_report::import::{
    extract_record, field_from_name, import, map_header, read_header, read_records, Field,
    ImportConfig, ImportError, MissingField,
};
use spending_report::number::{amount_from_parts, parse_fraction, NumberLocale};
use spending_report::record::Record;
use spending_report::text::{find_first, Pattern};

fn s(x: &str) -> String {
    x.to_string()
}

fn cells(xs: &[&str]) -> Vec<Vec<u8>> {
    xs.iter().map(|c| c.as_bytes().to_vec()).collect()
}

fn german_config() -> ImportConfig {
    ImportConfig {
        skip: None,
        date_format: s("%Y-%m-%d"),
        number_locale: Some(s("de")),
        map: vec![
            (s("^Amount$"), s("amount")),
            (s("^Date$"), s("date")),
            (s("^Party$"), s("party")),
        ],
    }
}

fn record(date: (i32, u32, u32), party: &str, amount: i128) -> Record {
    Record {
        date: Date { year: date.0, month: date.1, day: date.2 },
        party1: s(party),
        party2: s(party),
        description: String::new(),
        amount,
    }
}

fn groups_with(patterns: &[(&str, &str)]) -> Groups {
    let config = GroupConfig {
        parties: patterns.iter().map(|(p, g)| (s(p), s(g))).collect(),
    };
    match Groups::new(&config) {
        Ok(g) => g,
        Err(p) => panic!("pattern {} did not compile", p),
    }
}

#[test]
fn german_amount_with_grouping() {
    let de = NumberLocale::new(Some(s("de"))).unwrap();
    assert_eq!(de.decimal(), ",");
    assert_eq!(de.parse_amount("1.234,56"), Some(1_234_560_000));
}

#[test]
fn default_locale_is_english() {
    let en = NumberLocale::new(None).unwrap();
    assert_eq!(en.name(), "en");
    assert_eq!(en.decimal(), ".");
    assert_eq!(en.parse_amount("1,234.5"), Some(1_234_500_000));
}

#[test]
fn unknown_locale_is_refused() {
    assert!(NumberLocale::new(Some(s("no-such-locale"))).is_none());
}

#[test]
fn negative_amount_fraction_takes_sign() {
    let de = NumberLocale::new(Some(s("de"))).unwrap();
    assert_eq!(de.parse_amount("-50,00"), Some(-50_000_000));
    assert_eq!(de.parse_amount("-50,25"), Some(-50_250_000));
    assert_eq!(amount_from_parts(-50, "25"), Some(-50_250_000));
    assert_eq!(amount_from_parts(7, "5"), Some(7_500_000));
}

#[test]
fn amount_without_separator_and_with_noise() {
    let de = NumberLocale::new(Some(s("de"))).unwrap();
    assert_eq!(de.parse_amount("1.234"), Some(1_234_000_000));
    assert_eq!(de.parse_amount("12,34 EUR"), Some(12_340_000));
}

#[test]
fn malformed_amounts_are_refused() {
    let de = NumberLocale::new(Some(s("de"))).unwrap();
    assert_eq!(de.parse_amount("abc"), None);
    assert_eq!(de.parse_amount("5,"), None);
    assert_eq!(de.parse_amount("5,x1"), None);
    assert_eq!(de.parse_amount("123456789012345678901,0"), None);
}

#[test]
fn fraction_digits() {
    assert_eq!(parse_fraction("5"), Some(500_000));
    assert_eq!(parse_fraction("05"), Some(50_000));
    assert_eq!(parse_fraction("123456"), Some(123_456));
    assert_eq!(parse_fraction("1234567"), Some(123_456));
    assert_eq!(parse_fraction(""), None);
    assert_eq!(parse_fraction("1a"), None);
}

#[test]
fn first_occurrence_search() {
    assert_eq!(find_first("1.234,56", ","), Some(5));
    assert_eq!(find_first("a,b,c", ","), Some(1));
    assert_eq!(find_first("abc", "x"), None);
    assert_eq!(find_first("ab", "abc"), None);
}

#[test]
fn dates_parse_with_the_pattern() {
    let en = NumberLocale::new(None).unwrap();
    let proj = vec![(0, Field::Date), (1, Field::Party), (2, Field::Amount)];
    let dotted = s("%d.%m.%Y");
    let r = extract_record(&proj, &cells(&["15.01.2024", "x", "1"]), 1, &en, &dotted).unwrap();
    assert_eq!(r.date, Date { year: 2024, month: 1, day: 15 });
    let iso = s("%Y-%m-%d");
    assert!(matches!(
        extract_record(&proj, &cells(&["2024-02-30", "x", "1"]), 1, &en, &iso),
        Err(ImportError::DateFormat { .. })
    ));
    assert!(matches!(
        extract_record(&proj, &cells(&["yesterday", "x", "1"]), 1, &en, &iso),
        Err(ImportError::DateFormat { .. })
    ));
}

#[test]
fn date_order_and_month() {
    let a = Date { year: 2024, month: 1, day: 31 };
    let b = Date { year: 2024, month: 2, day: 1 };
    assert!(a.is_before(&b));
    assert_eq!(a.earlier(b), a);
    assert_eq!(a.later(b), b);
    assert_eq!(b.month_year(), MonthYear { month: 2, year: 2024 });
    assert!(MonthYear { month: 12, year: 2023 }.is_before(&MonthYear { month: 1, year: 2024 }));
}

#[test]
fn lossy_decoding_and_lowercase() {
    let en = NumberLocale::new(None).unwrap();
    let proj = vec![(0, Field::Date), (1, Field::Party), (2, Field::Amount), (3, Field::Description)];
    let row = vec![
        b"2024-01-02".to_vec(),
        vec![b'a', 0xff, b'b'],
        b"-1".to_vec(),
        "Grüße".as_bytes().to_vec(),
    ];
    let r = extract_record(&proj, &row, 1, &en, &s("%Y-%m-%d")).unwrap();
    assert_eq!(r.party1, "a\u{fffd}b");
    assert_eq!(r.description, "Grüße");
    let groups = groups_with(&[]);
    assert_eq!(groups.classify(&s("ACME Corp")), (s("acme corp"), false));
}

#[test]
fn patterns_compile_and_match() {
    let p = Pattern::new(s("^acme.*")).unwrap();
    assert_eq!(p.source(), "^acme.*");
    assert!(p.is_match("acme corp"));
    assert!(!p.is_match("the acme"));
    assert!(Pattern::new(s("(unclosed")).is_none());
}

#[test]
fn field_names() {
    assert_eq!(field_from_name("party2"), Some(Field::Party2));
    assert_eq!(field_from_name("description"), Some(Field::Description));
    assert_eq!(field_from_name("payee"), None);
}

#[test]
fn header_mapping_takes_first_matching_pattern() {
    let map = vec![(s("(?i)date"), s("date")), (s("(?i)^.*$"), s("description"))];
    let ms = spending_report::import::compile_field_map(&map).unwrap();
    let fields = map_header(&ms, &cells(&["Booking date", "Text"]));
    assert_eq!(fields, vec![(0, Field::Date), (1, Field::Description)]);
}

#[test]
fn acme_and_employer_scenario() {
    let rows = vec![
        cells(&["Date", "Party", "Amount"]),
        cells(&["2024-01-15", "Acme Corp", "-50,00"]),
        cells(&["2024-01-31", "Employer", "2000,00"]),
    ];
    let imported = import(&german_config(), &rows).unwrap();
    assert!(!imported.mismatch);
    assert_eq!(imported.records.len(), 2);
    let mut groups = groups_with(&[("^acme.*", "shopping")]);
    for r in imported.records.iter() {
        groups.push(r);
    }
    let result = groups.aggregate();
    assert_eq!(
        result.stats_summary,
        vec![(s("shopping"), -50_000_000), (s("employer"), 2_000_000_000)]
    );
    assert_eq!(result.start, Date { year: 2024, month: 1, day: 15 });
    assert_eq!(result.end, Date { year: 2024, month: 1, day: 31 });
}

#[test]
fn unmatched_header_gives_incomplete_record() {
    let rows = vec![
        cells(&["Wann", "Wer", "Wieviel"]),
        cells(&["2024-01-15", "Acme Corp", "-50,00"]),
    ];
    match import(&german_config(), &rows) {
        Err(ImportError::IncompleteRecord { row, missing }) => {
            assert_eq!(row, 1);
            assert_eq!(missing, MissingField::Date);
        }
        _ => panic!("expected an incomplete record"),
    }
    let ms = spending_report::import::compile_field_map(&german_config().map).unwrap();
    assert!(map_header(&ms, &rows[0]).is_empty());
    let header = read_header(&german_config(), &rows).unwrap();
    assert!(header.fields.is_empty());
    assert!(header.mismatch);
}

#[test]
fn header_read_before_rows() {
    let rows = vec![
        cells(&["Wann", "Party", "Amount"]),
        cells(&["2024-01-15", "Acme Corp", "-50,00"]),
    ];
    let config = german_config();
    let header = read_header(&config, &rows).unwrap();
    assert!(header.mismatch);
    assert_eq!(header.fields, vec![(1, Field::Party), (2, Field::Amount)]);
    assert!(matches!(
        read_records(&header, &rows, 1, &config.date_format),
        Err(ImportError::IncompleteRecord { row: 1, missing: MissingField::Date })
    ));
    assert!(read_records(&header, &rows, 2, &config.date_format).unwrap().is_empty());
}

#[test]
fn header_mismatch_is_reported() {
    let rows = vec![cells(&["Date", "Party"])];
    let imported = import(&german_config(), &rows).unwrap();
    assert!(imported.mismatch);
    assert_eq!(imported.fields, vec![(0, Field::Date), (1, Field::Party)]);
    assert!(imported.records.is_empty());
}

#[test]
fn skip_rows_before_header() {
    let mut config = german_config();
    config.skip = Some(2);
    let rows = vec![
        cells(&["Statement"]),
        cells(&[""]),
        cells(&["Date", "Party", "Amount"]),
        cells(&["2024-03-01", "Shop", "1,5"]),
    ];
    let imported = import(&config, &rows).unwrap();
    assert_eq!(imported.records.len(), 1);
    assert_eq!(imported.records[0].amount, 1_500_000);
    assert_eq!(imported.records[0].party1, "Shop");
    assert_eq!(imported.records[0].party2, "Shop");
    assert_eq!(imported.records[0].description, "");
}

#[test]
fn import_errors() {
    let mut config = german_config();
    config.number_locale = Some(s("xx-nowhere"));
    assert!(matches!(import(&config, &vec![]), Err(ImportError::UnknownLocale { .. })));

    let mut config = german_config();
    config.map.push((s("^Memo$"), s("memo")));
    match import(&config, &vec![]) {
        Err(ImportError::UnknownField { field }) => assert_eq!(field, "memo"),
        _ => panic!("expected an unknown field"),
    }

    let mut config = german_config();
    config.map.push((s("(["), s("description")));
    match import(&config, &vec![]) {
        Err(ImportError::InvalidPattern { pattern }) => assert_eq!(pattern, "(["),
        _ => panic!("expected an invalid pattern"),
    }

    assert!(matches!(import(&german_config(), &vec![]), Err(ImportError::MissingHeader)));

    let header = cells(&["Date", "Party", "Amount"]);
    let short = vec![header.clone(), cells(&["2024-01-15", "Acme"])];
    match import(&german_config(), &short) {
        Err(ImportError::NotEnoughColumns { row, column }) => {
            assert_eq!(row, 1);
            assert_eq!(column, 2);
        }
        _ => panic!("expected missing columns"),
    }

    let bad_date = vec![header.clone(), cells(&["15/01/2024", "Acme", "1,00"])];
    match import(&german_config(), &bad_date) {
        Err(ImportError::DateFormat { row, value, format }) => {
            assert_eq!(row, 1);
            assert_eq!(value, "15/01/2024");
            assert_eq!(format, "%Y-%m-%d");
        }
        _ => panic!("expected a date error"),
    }

    let bad_number = vec![
        header.clone(),
        cells(&["2024-01-15", "Acme", "1,00"]),
        cells(&["2024-01-16", "Acme", "lots"]),
    ];
    match import(&german_config(), &bad_number) {
        Err(ImportError::NumberFormat { row, value }) => {
            assert_eq!(row, 2);
            assert_eq!(value, "lots");
        }
        _ => panic!("expected a number error"),
    }
}

#[test]
fn missing_party_and_amount() {
    let de = NumberLocale::new(Some(s("de"))).unwrap();
    let row = cells(&["2024-01-15", "Acme", "3,00"]);
    let fmt = s("%Y-%m-%d");
    let only_date_and_second_party = vec![(0, Field::Date), (1, Field::Party2)];
    assert!(matches!(
        extract_record(&only_date_and_second_party, &row, 4, &de, &fmt),
        Err(ImportError::IncompleteRecord { row: 4, missing: MissingField::Party1 })
    ));
    let no_amount = vec![(0, Field::Date), (1, Field::Party)];
    assert!(matches!(
        extract_record(&no_amount, &row, 4, &de, &fmt),
        Err(ImportError::IncompleteRecord { row: 4, missing: MissingField::Amount })
    ));
    let no_second_party = vec![(0, Field::Date), (1, Field::Party1), (2, Field::Amount)];
    assert!(matches!(
        extract_record(&no_second_party, &row, 4, &de, &fmt),
        Err(ImportError::IncompleteRecord { row: 4, missing: MissingField::Party2 })
    ));
    let later_wins = vec![(0, Field::Date), (1, Field::Party), (2, Field::Amount), (2, Field::Party1)];
    let r = extract_record(&later_wins, &row, 4, &de, &fmt).unwrap();
    assert_eq!(r.party1, "3,00");
    assert_eq!(r.party2, "Acme");
}

#[test]
fn invalid_group_pattern_is_named() {
    let config = GroupConfig { parties: vec![(s("^ok$"), s("ok")), (s("(bad"), s("x"))] };
    match Groups::new(&config) {
        Err(p) => assert_eq!(p, "(bad"),
        Ok(_) => panic!("expected an error"),
    }
}

#[test]
fn outflow_goes_to_recipient_inflow_to_source() {
    let mut groups = groups_with(&[]);
    let out = Record {
        date: Date { year: 2024, month: 5, day: 2 },
        party1: s("Me"),
        party2: s("Bakery"),
        description: s("bread"),
        amount: -3_000_000,
    };
    let inc = Record {
        date: Date { year: 2024, month: 5, day: 3 },
        party1: s("Employer"),
        party2: s("Me"),
        description: String::new(),
        amount: 10_000_000,
    };
    groups.push(&out);
    groups.push(&inc);
    let result = groups.aggregate();
    assert_eq!(
        result.stats_summary,
        vec![(s("bakery"), -3_000_000), (s("employer"), 10_000_000)]
    );
}

#[test]
fn unmapped_group_is_reported_once() {
    let mut groups = groups_with(&[("^acme", "shopping")]);
    assert_eq!(groups.push(&record((2024, 1, 1), "Kiosk", -1)), Some(s("kiosk")));
    assert_eq!(groups.push(&record((2024, 1, 2), "KIOSK", -1)), None);
    assert_eq!(groups.push(&record((2024, 1, 3), "Acme", -1)), None);
    assert_eq!(groups.pushed(), 3);
    let (group, matched) = groups.classify(&s("ACME Corp"));
    assert_eq!(group, "shopping");
    assert!(matched);
    assert!(groups.pushed() < MAX_RECORDS);
}

#[test]
fn summary_total_equals_sum_of_amounts() {
    let mut groups = groups_with(&[("^a", "alpha")]);
    let amounts = [5_000_000i128, -7_250_000, 1, 300_000_000, -2];
    let parties = ["ab", "b", "ac", "c", "b"];
    for (i, (a, p)) in amounts.iter().zip(parties.iter()).enumerate() {
        groups.push(&record((2024, 1 + i as u32, 1), p, *a));
    }
    let result = groups.aggregate();
    let total: i128 = result.stats_summary.iter().map(|e| e.1).sum();
    assert_eq!(total, amounts.iter().sum::<i128>());
    assert_eq!(result.stats_summary.len(), 3);
}

#[test]
fn months_strictly_ascending() {
    let mut groups = groups_with(&[]);
    groups.push(&record((2024, 3, 1), "x", 1));
    groups.push(&record((2023, 12, 5), "x", 1));
    groups.push(&record((2024, 1, 9), "y", 1));
    groups.push(&record((2024, 3, 20), "y", 1));
    groups.push(&record((2023, 11, 30), "x", 1));
    let result = groups.aggregate();
    let months: Vec<MonthYear> = result.stats_monthly.iter().map(|e| e.0).collect();
    assert_eq!(
        months,
        vec![
            MonthYear { month: 11, year: 2023 },
            MonthYear { month: 12, year: 2023 },
            MonthYear { month: 1, year: 2024 },
            MonthYear { month: 3, year: 2024 },
        ]
    );
    assert_eq!(result.start, Date { year: 2023, month: 11, day: 30 });
    assert_eq!(result.end, Date { year: 2024, month: 3, day: 20 });
}

#[test]
fn monthly_top_twenty_by_magnitude() {
    let mut groups = groups_with(&[]);
    for i in 0..25i128 {
        let amount = if i % 2 == 0 { -i * 1_000 } else { i * 1_000 };
        groups.push(&record((2024, 6, 1), &format!("party{}", i), amount));
    }
    let result = groups.aggregate();
    assert_eq!(result.stats_monthly.len(), 1);
    let entries = &result.stats_monthly[0].1;
    assert_eq!(entries.len(), 20);
    for w in entries.windows(2) {
        assert!(w[0].1.abs() >= w[1].1.abs());
    }
    assert_eq!(entries[0], (s("party24"), -24_000));
    assert_eq!(entries[19], (s("party5"), 5_000));
}

#[test]
fn equal_totals_keep_first_seen_order() {
    let mut groups = groups_with(&[]);
    groups.push(&record((2024, 1, 1), "b", 5));
    groups.push(&record((2024, 1, 1), "a", 5));
    groups.push(&record((2024, 1, 1), "c", -5));
    let result = groups.aggregate();
    assert_eq!(result.stats_summary, vec![(s("c"), -5), (s("b"), 5), (s("a"), 5)]);
    assert_eq!(result.stats_monthly[0].1, vec![(s("b"), 5), (s("a"), 5), (s("c"), -5)]);
}

#[test]
fn grouped_follows_summary_order() {
    let mut groups = groups_with(&[]);
    groups.push(&record((2024, 1, 1), "rent", -900));
    groups.push(&record((2024, 2, 1), "salary", 3000));
    groups.push(&record((2024, 2, 2), "food", -100));
    let result = groups.aggregate();
    let names: Vec<&String> = result.stats_summary.iter().map(|e| &e.0).collect();
    let grouped: Vec<&String> = result.stats_grouped.iter().map(|e| &e.0).collect();
    assert_eq!(names, grouped);
    let jan = MonthYear { month: 1, year: 2024 };
    let feb = MonthYear { month: 2, year: 2024 };
    assert_eq!(result.stats_grouped[0], (s("rent"), vec![(jan, -900), (feb, 0)]));
    assert_eq!(result.stats_grouped[2], (s("salary"), vec![(jan, 0), (feb, 3000)]));
}

#[test]
fn aggregating_equal_states_gives_equal_results() {
    let build = || {
        let mut g = groups_with(&[("^s", "s-group")]);
        g.push(&record((2024, 4, 1), "sx", 10));
        g.push(&record((2024, 3, 1), "t", 10));
        g.push(&record((2024, 4, 2), "u", -10));
        g.push(&record((2024, 3, 5), "sy", -10));
        g.aggregate()
    };
    let a = build();
    let b = build();
    assert_eq!(a.stats_summary, b.stats_summary);
    assert_eq!(a.stats_monthly, b.stats_monthly);
    assert_eq!(a.stats_grouped, b.stats_grouped);
    assert_eq!(a.start, b.start);
    assert_eq!(a.end, b.end);
}

#[test]
fn empty_accumulator() {
    let result = groups_with(&[]).aggregate();
    assert!(result.stats_summary.is_empty());
    assert!(result.stats_monthly.is_empty());
    assert_eq!(result.start, Date::latest());
    assert_eq!(result.end, Date::earliest());
}
