use today::calendar::Date;
use today::events::{
    params_to_event, params_to_event_in, parse_excludes, Category, Event, EventKind, MonthDay, Ordinal, Rule,
    Weekday,
};

#[test]
fn month_day_from_mmdd() {
    let md = MonthDay::from_str("0305").unwrap();
    assert_eq!((md.month(), md.day()), (3, 5));
    assert_eq!(MonthDay::from_str("0229").unwrap(), MonthDay::new(2, 29));
    assert_eq!(MonthDay::from_str("1305"), Err("Invalid month".to_string()));
    assert_eq!(MonthDay::from_str("0005"), Err("Invalid month".to_string()));
    assert_eq!(MonthDay::from_str("0230"), Err("Invalid day".to_string()));
    assert_eq!(MonthDay::from_str("0431"), Err("Invalid day".to_string()));
    assert_eq!(MonthDay::from_str("01x1"), Err("Invalid day".to_string()));
    assert_eq!(
        MonthDay::from_str("123"),
        Err("MonthDay string must be exactly 4 characters in MMDD format".to_string())
    );
    assert_eq!(MonthDay::from_str("+1+5").unwrap(), MonthDay::new(1, 5));
}

#[test]
fn month_day_from_mm_dd() {
    assert_eq!(MonthDay::from_str_split("03-05").unwrap(), MonthDay::new(3, 5));
    assert_eq!(MonthDay::from_str_split("3-5").unwrap(), MonthDay::new(3, 5));
    assert_eq!(MonthDay::from_str_split("00-00").unwrap(), MonthDay::new(0, 0));
    assert_eq!(MonthDay::from_str_split("13-01"), Err("Invalid month".to_string()));
    assert_eq!(MonthDay::from_str_split("02-30"), Err("Invalid day".to_string()));
    assert_eq!(MonthDay::from_str_split("a-1"), Err("Invalid month".to_string()));
    assert_eq!(MonthDay::from_str_split("1-"), Err("Invalid day".to_string()));
    assert_eq!(
        MonthDay::from_str_split("0305"),
        Err("Expected date in MM-DD format".to_string())
    );
    assert_eq!(
        MonthDay::from_str_split("1-2-3"),
        Err("Expected date in MM-DD format".to_string())
    );
}

#[test]
fn month_day_texts_read_back() {
    let largest = [31, 29, 31, 30, 31, 30, 31, 31, 30, 31, 30, 31];
    for month in 1..=12u32 {
        for day in 1..=largest[(month - 1) as usize] {
            let md = MonthDay::new(month, day);
            assert_eq!(MonthDay::from_str(&format!("{:02}{:02}", month, day)), Ok(md));
            assert_eq!(MonthDay::from_str_split(&format!("{:02}-{:02}", month, day)), Ok(md));
        }
    }
}

#[test]
fn category_from_text() {
    let c = Category::from_str("programming/rust");
    assert_eq!(c.primary(), "programming");
    assert_eq!(c.secondary(), "rust");
    assert_eq!(c, Category::new("programming", "rust"));
    let p = Category::from_str("holiday");
    assert_eq!(p, Category::from_primary("holiday"));
    assert_eq!(p.secondary(), "");
    assert_eq!(Category::from_str("a/b/c"), Category::new("a", "b"));
    assert_eq!(Category::from_str("a/"), Category::new("a", ""));
    assert_eq!(Category::from_str(""), Category::from_primary(""));
    assert_ne!(Category::new("a", ""), Category::from_primary("a"));
}

#[test]
fn category_text_reads_back() {
    for c in [Category::new("programming", "rust"), Category::from_primary("holiday")] {
        assert_eq!(Category::from_str(&c.to_string()), c);
    }
    assert_eq!(Category::new("a", "b").to_string(), "a/b");
    assert_eq!(Category::from_primary("a").to_string(), "a");
}

#[test]
fn excludes_list() {
    let cs = parse_excludes("a/b,c/d,e");
    assert_eq!(
        cs,
        vec![Category::new("a", "b"), Category::new("c", "d"), Category::from_primary("e")]
    );
    assert_eq!(parse_excludes(""), vec![Category::from_primary("")]);
    assert_eq!(parse_excludes("x,"), vec![Category::from_primary("x"), Category::from_primary("")]);
}

#[test]
fn ordinals_and_names() {
    assert_eq!(Ordinal::from_str("FIRST"), Some(Ordinal::First));
    assert_eq!(Ordinal::from_str("last"), Some(Ordinal::Last));
    assert_eq!(Ordinal::from_str("fifth"), None);
    assert_eq!(Ordinal::Third.to_string(), "Third");
    assert_eq!(Ordinal::Fourth.number(), 4);
    assert!(Ordinal::First < Ordinal::Last);
    assert!(Weekday::Monday < Weekday::Sunday);
}

#[test]
fn rule_parse_and_text() {
    let r = Rule::parse("first monday in june").unwrap();
    assert_eq!(r.to_string(), "first Mon of June");
    let r2 = Rule::parse("  Last FRI of   DECEMBER ").unwrap();
    assert_eq!(r2.to_string(), "last Fri of December");
    assert_eq!(Rule::parse("fifth monday in june"), None);
    assert_eq!(Rule::parse("first mon at june"), None);
    assert_eq!(Rule::parse("first mon of june extra"), None);
    assert_eq!(Rule::parse("first mond of june"), None);
    assert_eq!(Rule::parse("second tue in sept"), None);
    assert!(Rule::parse("second tue in sep").is_some());
}

#[test]
fn rule_text_reads_back() {
    for text in ["first monday in june", "last sunday of march", "third wed in feb"] {
        let r = Rule::parse(text).unwrap();
        assert_eq!(Rule::parse(&r.to_string()), Some(r));
    }
}

#[test]
fn rule_resolves_dates() {
    let r = Rule::parse("first monday in june").unwrap();
    assert_eq!(r.resolve_date(2026), Date::from_ymd_opt(2026, 6, 1));
    assert_eq!(r.resolve_date(2027), Date::from_ymd_opt(2027, 6, 7));
    let last = Rule::parse("last friday of december").unwrap();
    assert_eq!(last.resolve_date(2026), Date::from_ymd_opt(2026, 12, 25));
    let fourth = Rule::parse("fourth thursday of november").unwrap();
    assert_eq!(fourth.resolve_date(2026), Date::from_ymd_opt(2026, 11, 26));
    assert_eq!(r.resolve_date(300000), None);
}

#[test]
fn dates() {
    let d = Date::from_ymd_opt(2026, 3, 5).unwrap();
    assert_eq!((d.year(), d.month(), d.day()), (2026, 3, 5));
    assert_eq!(d.weekday(), 3);
    assert_eq!(d.iso_text(), "2026-03-05");
    assert_eq!(Date::from_ymd_opt(2026, 2, 29), None);
    assert!(Date::from_ymd_opt(2024, 2, 29).is_some());
    assert_eq!(Date::from_ymd_opt(2026, 13, 1), None);
    assert_eq!(Date::parse_iso("2026-3-5"), Some(d));
    assert_eq!(Date::parse_iso("march"), None);
    assert_eq!(Date::from_ymd_opt(10000, 1, 2).unwrap().iso_text(), "+10000-01-02");
    assert_eq!(Date::from_ymd_opt(-5, 1, 2).unwrap().iso_text(), "-0005-01-02");
}

fn category() -> Category {
    Category::new("programming", "rust")
}

#[test]
fn event_texts() {
    let d = Date::from_ymd_opt(2026, 3, 5).unwrap();
    let e = Event::new_singular(d, "Rust 1.94.0 released".to_string(), category());
    assert_eq!(e.date_string(), "2026-03-05");
    assert_eq!(e.year_in(1999), 2026);
    assert_eq!(e.year(), 2026);
    assert_eq!(e.to_string_in(1999), "2026: Rust 1.94.0 released (programming/rust)");
    assert_eq!(e.month_day(), MonthDay::new(3, 5));
    assert_eq!(e.kind(), EventKind::Singular(d));
    assert_eq!(e.description(), "Rust 1.94.0 released");
    assert_eq!(e.category(), category());

    let a = Event::new_annual(MonthDay::new(12, 25), "Christmas".to_string(), Category::from_primary("holiday"));
    assert_eq!(a.date_string(), "--12-25");
    assert_eq!(a.year_in(2030), 2030);
    assert_eq!(a.to_string_in(2030), "2030: Christmas (holiday)");
    assert_eq!(a.month_day_in(2030), MonthDay::new(12, 25));

    let r = Rule::parse("last friday of december").unwrap();
    let b = Event::new_rule_based(r, "Party".to_string(), Category::from_primary("fun"));
    assert_eq!(b.date_string(), "last Fri of December");
    assert_eq!(b.month_day_in(2026), MonthDay::new(12, 25));
    assert_eq!(b.month_day_in(2027), MonthDay::new(12, 31));
}

#[test]
fn events_from_params() {
    let e = params_to_event_in("--12-25", "Christmas", "holiday", 2026).unwrap();
    assert_eq!(e.kind(), EventKind::Annual(MonthDay::new(12, 25)));
    assert_eq!(e.category(), Category::from_primary("holiday"));
    let s = params_to_event_in("2026-03-05", "Release", "programming/rust", 2000).unwrap();
    assert_eq!(s.kind(), EventKind::Singular(Date::from_ymd_opt(2026, 3, 5).unwrap()));
    let r = params_to_event_in("first monday of june", "x", "c", 2026).unwrap();
    assert_eq!(r.kind(), EventKind::RuleBased(Rule::parse("first mon in jun").unwrap()));
    assert_eq!(
        params_to_event_in("bogus", "x", "c", 2026),
        Err("Invalid date 'bogus'".to_string())
    );
    assert_eq!(
        params_to_event_in("--02-30", "x", "c", 2026),
        Err("Invalid date '2026-02-30'".to_string())
    );
    assert_eq!(
        params_to_event_in("--5-6--", "x", "c", 7),
        Err("Invalid date '0007-5-60007-'".to_string())
    );
    assert!(today::events::params_to_event("2026-03-05", "x", "c").is_ok());
}

#[test]
fn written_events_read_back() {
    let events = vec![
        Event::new_singular(Date::from_ymd_opt(2026, 3, 5).unwrap(), "Release".to_string(), category()),
        Event::new_singular(Date::from_ymd_opt(12345, 1, 1).unwrap(), "Far".to_string(), category()),
        Event::new_annual(MonthDay::new(2, 29), "Leap".to_string(), Category::from_primary("odd")),
        Event::new_annual(MonthDay::new(11, 3), "Day".to_string(), Category::new("a", "b")),
        Event::new_rule_based(
            Rule::parse("second sunday of may").unwrap(),
            "Mother's day".to_string(),
            Category::new("family", ""),
        ),
    ];
    for e in events {
        let back = params_to_event_in(
            &e.date_string(),
            &e.description(),
            &e.category().to_string(),
            2028,
        );
        assert_eq!(back, Ok(e));
    }
}

#[test]
fn leap_day_not_read_in_common_year() {
    let e = Event::new_annual(MonthDay::new(2, 29), "Leap".to_string(), Category::from_primary("odd"));
    let back = params_to_event_in(&e.date_string(), "Leap", "odd", 2026);
    assert_eq!(back, Err("Invalid date '2026-2-29'".to_string()));
}

#[test]
fn written_dates_read_back_by_the_clock() {
    let e = Event::new_singular(
        Date::from_ymd_opt(2026, 3, 5).unwrap(),
        "Rust 1.94.0 released".to_string(),
        Category::new("programming", "rust"),
    );
    assert_eq!(params_to_event("2026-03-05", "Rust 1.94.0 released", "programming/rust"), Ok(e.clone()));
    assert_eq!(params_to_event(&e.date_string(), &e.description(), &e.category().to_string()), Ok(e));
    let r = Rule::parse("last friday of december").unwrap();
    let ruled = Event::new_rule_based(r, "Party".to_string(), Category::from_primary("fun"));
    assert_eq!(params_to_event(&ruled.date_string(), "Party", "fun"), Ok(ruled));
}

#[test]
fn rules_resolve_in_every_year() {
    let r = Rule::parse("fourth sunday of february").unwrap();
    for year in [-262143, -1, 0, 1900, 2000, 2026, 9999, 262142] {
        assert!(r.resolve_date(year).is_some());
    }
}

#[test]
fn yearless_dates_get_four_digit_years() {
    let e = params_to_event_in("--3-5", "x", "y", 26).unwrap();
    assert_eq!(e.month_day().month(), 3);
    assert_eq!(e.to_string_in(26), "26: x (y)");
    assert_eq!(e.to_string_in(-7), "-7: x (y)");
    assert_eq!(params_to_event_in("--3-5 x", "x", "y", -7), Err("Invalid date '-007-3-5 x'".to_string()));
}
