use today::calendar::Date;
use today::events::{Category, Event, MonthDay};
use today::filters::FilterBuilder;

fn rust_release() -> Event {
    let rust_category = Category::new("programming", "rust");
    Event::new_singular(
        Date::from_ymd_opt(2026, 3, 5).unwrap(),
        "Rust 1.94.0 released".to_string(),
        rust_category.clone(),
    )
}

#[test]
fn filter_accepts_anything() {
    let rust_category = Category::new("programming", "rust");
    let event = Event::new_singular(
        Date::from_ymd_opt(2026, 3, 5).unwrap(),
        "Rust 1.94.0 released".to_string(),
        rust_category.clone(),
    );
    let filter = FilterBuilder::new().build();
    assert!(filter.accepts(&event));
}

#[test]
fn build_filter_no_options() {
    let filter = FilterBuilder::new().build();
    let contains = [
        filter.contains_month_day(),
        filter.contains_category(),
        filter.contains_text(),
    ];
    assert_eq!(contains, [false, false, false]);
}

#[test]
fn filter_accepts_month_day() {
    let event = rust_release();
    let month_day = MonthDay::new(3, 5);
    let filter = FilterBuilder::new().month_day(month_day).build();
    assert!(filter.accepts(&event));
}

#[test]
fn filter_rejects_month_day() {
    let event = rust_release();
    let month_day = MonthDay::new(3, 6);
    let filter = FilterBuilder::new().month_day(month_day).build();
    assert!(!filter.accepts(&event));
}

#[test]
fn filter_accepts_category() {
    let rust_category = Category::new("programming", "rust");
    let event = rust_release();
    let filter = FilterBuilder::new().category(rust_category).build();
    assert!(filter.accepts(&event));
}

#[test]
fn filter_rejects_category() {
    let event = rust_release();
    let filter = FilterBuilder::new()
        .category(Category::new("programming", "python"))
        .build();
    assert!(!filter.accepts(&event));
}

#[test]
fn filter_accepts_text() {
    let event = rust_release();
    let filter = FilterBuilder::new().text("released".to_string()).build();
    assert!(filter.accepts(&event));
}

#[test]
fn filter_rejects_text() {
    let event = rust_release();
    let filter = FilterBuilder::new().text("updated".to_string()).build();
    assert!(!filter.accepts(&event));
}

#[test]
fn filter_accepts_all() {
    let rust_category = Category::new("programming", "rust");
    let event = rust_release();
    let month_day = MonthDay::new(3, 5);
    let filter = FilterBuilder::new()
        .month_day(month_day)
        .category(rust_category)
        .text("released".to_string())
        .build();
    assert!(filter.accepts(&event));
}

#[test]
fn filter_rejects_some() {
    let rust_category = Category::new("programming", "rust");
    let event = rust_release();
    let month_day = MonthDay::new(3, 6);
    let filter = FilterBuilder::new()
        .month_day(month_day)
        .category(rust_category)
        .text("released".to_string())
        .build();
    assert!(!filter.accepts(&event));
}

#[test]
fn duplicate_options_dropped() {
    let month_day = MonthDay::new(3, 5);
    let month_day2 = MonthDay::new(3, 6);

    let rust_category = Category::new("programming", "rust");
    let python_category = Category::new("programming", "python");

    let filter = FilterBuilder::new()
        .month_day(month_day)
        .month_day(month_day2)
        .category(rust_category)
        .category(python_category)
        .text("released".to_string())
        .text("updated".to_string())
        .build();

    assert_eq!(
        filter,
        FilterBuilder::new()
            .month_day(MonthDay::new(3, 5))
            .category(Category::new("programming", "rust"))
            .text("released".to_string())
            .build()
    )
}

#[test]
fn filter_rejects_excluded_category() {
    let event = rust_release();
    let filter = FilterBuilder::new()
        .exclude(Category::new("programming", "rust"))
        .build();
    assert!(!filter.accepts(&event));
    let other = FilterBuilder::new()
        .exclude(Category::new("programming", "python"))
        .build();
    assert!(other.accepts(&event));
}

#[test]
fn exclusions_in_any_order_are_equal() {
    let a = Category::new("a", "b");
    let b = Category::from_primary("c");
    let f1 = FilterBuilder::new().exclude(a.clone()).exclude(b.clone()).build();
    let f2 = FilterBuilder::new().exclude(b.clone()).exclude(a.clone()).exclude(a).build();
    assert_eq!(f1, f2);
}

#[test]
fn option_order_does_not_matter() {
    let f1 = FilterBuilder::new()
        .month_day(MonthDay::new(3, 5))
        .category(Category::new("programming", "rust"))
        .build();
    let f2 = FilterBuilder::new()
        .category(Category::new("programming", "rust"))
        .month_day(MonthDay::new(3, 5))
        .build();
    assert_eq!(f1, f2);
    assert_ne!(f1, FilterBuilder::new().month_day(MonthDay::new(3, 5)).build());
}

#[test]
fn filter_getters_return_options() {
    let filter = FilterBuilder::new()
        .month_day(MonthDay::new(12, 24))
        .category(Category::new("holiday", "xmas"))
        .text("eve".to_string())
        .build();
    assert!(filter.contains_month_day() && filter.contains_category() && filter.contains_text());
    assert_eq!(filter.month_day(), Some(MonthDay::new(12, 24)));
    assert_eq!(filter.category(), Some(Category::new("holiday", "xmas")));
    assert_eq!(filter.text(), Some("eve".to_string()));
    let empty = today::filters::EventFilter::new();
    assert_eq!(empty.month_day(), None);
    assert_eq!(empty.category(), None);
    assert_eq!(empty.text(), None);
}

#[test]
fn filter_month_day_of_rule_event_uses_year() {
    let rule = today::events::Rule::parse("first monday in june").unwrap();
    let event = Event::new_rule_based(rule, "x".to_string(), Category::from_primary("c"));
    let filter = FilterBuilder::new().month_day(MonthDay::new(6, 1)).build();
    assert!(filter.accepts_in(&event, 2026));
    assert!(!filter.accepts_in(&event, 2027));
    let filter2 = FilterBuilder::new().month_day(MonthDay::new(6, 7)).build();
    assert!(filter2.accepts_in(&event, 2027));
}

#[test]
fn filter_accessors_report_the_one_option() {
    let c = Category::new("programming", "rust");
    let f = FilterBuilder::new()
        .month_day(MonthDay::new(3, 5))
        .month_day(MonthDay::new(4, 1))
        .exclude(c.clone())
        .text("released".to_string())
        .build();
    assert_eq!(f.month_day(), Some(MonthDay::new(3, 5)));
    assert_eq!(f.month_day().is_some(), f.contains_month_day());
    assert_eq!(f.category(), None);
    assert!(!f.contains_category());
    assert_eq!(f.text(), Some("released".to_string()));
    let g = FilterBuilder::new().category(c.clone()).build();
    assert_eq!(g.category(), Some(c));
    assert_eq!(g.text(), None);
}

#[test]
fn filter_keeps_accepted_events() {
    let f = FilterBuilder::new().category(Category::new("programming", "rust")).build();
    let mut events = Vec::new();
    assert!(f.keep_in(&mut events, rust_release(), 2026));
    let other = Event::new_singular(
        Date::from_ymd_opt(2026, 3, 5).unwrap(),
        "Python 3.14 released".to_string(),
        Category::new("programming", "python"),
    );
    assert!(!f.keep_in(&mut events, other.clone(), 2026));
    assert_eq!(events, vec![rust_release()]);
    let mut all = Vec::new();
    assert!(FilterBuilder::new().build().keep(&mut all, other.clone()));
    assert_eq!(all, vec![other]);
}
