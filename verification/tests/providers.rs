use std::collections::HashMap;
use today::config::{Config, ProviderConfig, ProviderKind};
use today::events::{Category, MonthDay};
use today::filters::FilterBuilder;
use today::providers::{
    csv_event_record, csv_events_from_records, csv_events_in, sqlite_events_in, text_record_lines, web_event,
    category_exists, event_query, insert_category_query, insert_event_query, make_category_part,
    make_date_part, make_text_part, make_where_clause, provider_for_add, CSVFileProvider,
    EventProviderError, SQLiteProvider, TextFileProvider, TextRecordReader, WebProvider,
};

#[test]
fn provider_error_texts() {
    assert_eq!(EventProviderError::Io("x".to_string()).to_string(), "I/O error: x");
    assert_eq!(EventProviderError::Parse("x".to_string()).to_string(), "Parse error: x");
    assert_eq!(EventProviderError::Db("x".to_string()).to_string(), "Database error: x");
    assert_eq!(EventProviderError::Http("x".to_string()).to_string(), "HTTP error: x");
    assert_eq!(EventProviderError::OperationNotSupported.to_string(), "operation not supported");
    assert_eq!(
        EventProviderError::OperationFailed("x".to_string()).to_string(),
        "operation failed: x"
    );
}

#[test]
fn choosing_provider_for_add() {
    let names = vec!["web".to_string(), "file".to_string(), "file".to_string()];
    let supported = vec![false, true, false];
    assert_eq!(provider_for_add(&names, &supported, "file").unwrap(), 1);
    match provider_for_add(&names, &supported, "web") {
        Err(EventProviderError::OperationNotSupported) => {}
        _ => panic!("expected not supported"),
    }
    match provider_for_add(&names, &supported, "nope") {
        Err(EventProviderError::OperationFailed(m)) => {
            assert_eq!(m, "Unknown event provider 'nope'")
        }
        _ => panic!("expected unknown provider"),
    }
}

#[test]
fn text_records() {
    let mut reader = TextRecordReader::new();
    let lines = ["2026-03-05", "Release", "programming/rust", "", "--12-25", "Xmas", "holiday"];
    let mut records = Vec::new();
    for line in lines {
        if let Some(rec) = reader.feed(line.to_string()) {
            records.push(rec);
        }
    }
    assert_eq!(
        records,
        vec![(
            "2026-03-05".to_string(),
            "Release".to_string(),
            "programming/rust".to_string()
        )]
    );
    assert_eq!(
        reader.feed("separator".to_string()),
        Some(("--12-25".to_string(), "Xmas".to_string(), "holiday".to_string()))
    );
}

#[test]
fn web_url() {
    let filter = FilterBuilder::new().month_day(MonthDay::new(3, 5)).build();
    let events = WebProvider::new("events", "http://example.org/events");
    assert_eq!(events.request_url(&filter).unwrap(), "http://example.org/events?date=03-05");
    let other = WebProvider::new("other", "http://example.org");
    match other.request_url(&FilterBuilder::new().build()) {
        Err(EventProviderError::Parse(m)) => assert_eq!(m, "missing month-day filter"),
        _ => panic!("expected parse error"),
    }
}

fn category_map() -> HashMap<i64, Category> {
    let mut m = HashMap::new();
    m.insert(7, Category::new("programming", "rust"));
    m.insert(-3, Category::from_primary("holiday"));
    m
}

#[test]
fn sql_parts() {
    let m = category_map();
    let f = FilterBuilder::new()
        .month_day(MonthDay::new(3, 5))
        .category(Category::from_primary("holiday"))
        .text("rel".to_string())
        .build();
    assert_eq!(make_category_part(&f, &m), "category_id = -3");
    assert_eq!(make_text_part(&f), "event_description LIKE '%rel%'");
    assert_eq!(make_date_part(&f), "strftime('%m-%d', event_date) = '03-05'");
    assert_eq!(
        make_where_clause(&f, &m).unwrap(),
        "WHERE category_id = -3 AND event_description LIKE '%rel%'"
    );
    let g = FilterBuilder::new().category(Category::from_primary("none")).build();
    assert_eq!(make_category_part(&g, &m), "");
    assert_eq!(make_where_clause(&g, &m).unwrap(), "WHERE 0");
    let h = FilterBuilder::new().text("x".to_string()).build();
    assert_eq!(make_where_clause(&h, &m).unwrap(), "WHERE event_description LIKE '%x%'");
    let k = FilterBuilder::new().month_day(MonthDay::new(1, 2)).build();
    assert_eq!(make_where_clause(&k, &m).unwrap(), "");
    assert_eq!(make_text_part(&k), "");
}

#[test]
fn category_lookup() {
    let m = category_map();
    let mut id = 0;
    assert!(category_exists(&m, &Category::new("programming", "rust"), &mut id));
    assert_eq!(id, 7);
    let mut id2 = 42;
    assert!(!category_exists(&m, &Category::from_primary("programming"), &mut id2));
    assert_eq!(id2, 42);
}

#[test]
fn sql_inserts() {
    assert_eq!(
        insert_category_query(&Category::from_primary("holiday")),
        "INSERT INTO category (primary_name, secondary_name)\n                    VALUES ('holiday', NULL)\n                    RETURNING category_id"
    );
    assert_eq!(
        insert_category_query(&Category::new("a", "b")),
        "INSERT INTO category (primary_name, secondary_name)\n                    VALUES ('a', 'b')\n                    RETURNING category_id"
    );
    assert_eq!(
        insert_event_query("2026-03-05", "Release", 12),
        "INSERT INTO event (event_date, event_description, category_id)\n            VALUES ('2026-03-05', 'Release', 12)"
    );
}

#[test]
fn provider_configs() {
    let cfg = ProviderConfig::new("n".to_string(), "csv".to_string(), "events.csv".to_string());
    assert_eq!(cfg.name(), "n");
    assert_eq!(cfg.kind(), "csv");
    assert_eq!(cfg.resource(), "events.csv");
    assert_eq!(cfg.provider_kind(), Some(ProviderKind::Csv));
    let odd = ProviderConfig::new("o".to_string(), "ftp".to_string(), "x".to_string());
    assert_eq!(odd.provider_kind(), None);
    let config = Config::new(vec![cfg, odd]);
    assert_eq!(config.providers().len(), 2);
    assert_eq!(config.providers()[1].name(), "o");
}

#[test]
fn provider_values() {
    let text = TextFileProvider::new("notes", std::path::PathBuf::from("/tmp/notes.txt"));
    assert_eq!(text.name(), "notes");
    assert_eq!(text.path(), &std::path::PathBuf::from("/tmp/notes.txt"));
    assert!(text.is_add_supported());
    let csv = CSVFileProvider::new("table", std::path::PathBuf::from("events.csv"));
    assert_eq!(csv.name(), "table");
    assert_eq!(csv.path(), &std::path::PathBuf::from("events.csv"));
    assert!(csv.is_add_supported());
    let db = SQLiteProvider::new("db", std::path::PathBuf::from("events.db"));
    assert_eq!(db.name(), "db");
    assert!(db.is_add_supported());
    let web = WebProvider::new("web", "http://example.org");
    assert_eq!(web.name(), "web");
    assert!(!web.is_add_supported());
}

#[test]
fn category_rows() {
    let db = SQLiteProvider::new("db", std::path::PathBuf::from("events.db"));
    let rows = vec![
        (1i64, "programming".to_string(), Some("rust".to_string())),
        (2i64, "holiday".to_string(), None),
        (1i64, "programming".to_string(), Some("go".to_string())),
    ];
    let map = db.get_categories(&rows);
    assert_eq!(map.len(), 2);
    assert_eq!(map.get(&1).unwrap().to_string(), "programming/go");
    assert_eq!(map.get(&2).unwrap().to_string(), "holiday");
    assert!(db.get_categories(&Vec::new()).is_empty());
}

#[test]
fn event_queries() {
    assert_eq!(event_query(""), "SELECT event_date, event_description, category_id FROM event");
    assert_eq!(
        event_query("WHERE category_id = 1"),
        "SELECT event_date, event_description, category_id FROM event WHERE category_id = 1"
    );
}

#[test]
fn csv_records_read() {
    let bytes = b"2026-03-05,Release,programming/rust\n--12-25,Xmas,holiday\nfirst monday in june,Party\nnot a date,Odd,x\n";
    let read = csv_events_in(bytes, 2026);
    assert_eq!(read.len(), 4);
    let first = read[0].clone().unwrap().unwrap();
    assert_eq!(first.date_string(), "2026-03-05");
    assert_eq!(first.description(), "Release");
    assert_eq!(first.category().to_string(), "programming/rust");
    assert_eq!(read[1].clone().unwrap().unwrap().date_string(), "--12-25");
    // a record with fewer fields than the first one cannot be read
    assert!(read[2].is_err());
    assert_eq!(read[3].clone().unwrap(), Err("Invalid date 'not a date'".to_string()));
    let quoted = csv_events_in(b"\"2026-03-05\",\"Release, final\",x\n", 2026);
    assert_eq!(quoted[0].clone().unwrap().unwrap().description(), "Release, final");
    assert!(csv_events_in(b"", 2026).is_empty());
}

#[test]
fn csv_records_written() {
    let date = today::calendar::Date::from_ymd_opt(2026, 3, 5).unwrap();
    let e = today::events::Event::new_singular(date, "Release, final".to_string(), Category::new("programming", "rust"));
    let bytes = csv_event_record(&e).unwrap();
    assert_eq!(String::from_utf8(bytes.clone()).unwrap(), "2026-03-05,\"Release, final\",programming/rust\n");
    let back = csv_events_in(&bytes, 2026);
    assert_eq!(back[0].clone().unwrap().unwrap(), e);
}

#[test]
fn text_record_written() {
    let date = today::calendar::Date::from_ymd_opt(2026, 3, 5).unwrap();
    let e = today::events::Event::new_singular(date, "Release".to_string(), Category::from_primary("news"));
    let lines = text_record_lines(&e);
    assert_eq!(lines, vec!["2026-03-05".to_string(), "Release".to_string(), "news".to_string(), String::new()]);
    let mut reader = TextRecordReader::new();
    let mut got = None;
    for line in lines {
        if let Some(rec) = reader.feed(line) {
            got = Some(rec);
        }
    }
    assert_eq!(got, Some(("2026-03-05".to_string(), "Release".to_string(), "news".to_string())));
}

#[test]
fn sqlite_rows_read() {
    let map = category_map();
    let rows = vec![
        ("2026-03-05".to_string(), "Release".to_string(), 7i64),
        ("bad".to_string(), "Odd".to_string(), 7i64),
    ];
    let (read, error) = sqlite_events_in(&rows, &map, 2026);
    assert!(error.is_none());
    assert_eq!(read.len(), 2);
    assert_eq!(read[0].clone().unwrap().category(), map.get(&7).unwrap().clone());
    assert_eq!(read[1].clone(), Err("bad".to_string()));
    let missing = vec![
        ("2026-03-05".to_string(), "Release".to_string(), -3i64),
        ("2026-03-06".to_string(), "Other".to_string(), 99i64),
        ("2026-03-07".to_string(), "Later".to_string(), 7i64),
    ];
    let (read, error) = sqlite_events_in(&missing, &map, 2026);
    assert_eq!(read.len(), 1);
    assert_eq!(read[0].clone().unwrap().description(), "Release");
    match error {
        Some(EventProviderError::Db(m)) => assert_eq!(m, "missing category id 99"),
        _ => panic!("expected a database error"),
    }
}

#[test]
fn csv_records_given() {
    let records = vec![
        Ok(vec!["2026-03-05".to_string(), "Release".to_string(), "programming/rust".to_string()]),
        Err("bad record".to_string()),
        Ok(vec!["--12-25".to_string()]),
    ];
    let read = csv_events_from_records(&records, 2026);
    assert_eq!(read.len(), 3);
    assert_eq!(read[0].clone().unwrap().unwrap().category().to_string(), "programming/rust");
    assert_eq!(read[1].clone(), Err("bad record".to_string()));
    let short = read[2].clone().unwrap().unwrap();
    assert_eq!(short.date_string(), "--12-25");
    assert_eq!(short.description(), "");
    assert_eq!(short.category().to_string(), "");
}

#[test]
fn web_events() {
    let e = web_event("2026-03-05", "Release".to_string(), "programming/rust").unwrap();
    assert_eq!(e.date_string(), "2026-03-05");
    assert_eq!(e.description(), "Release");
    assert_eq!(e.category(), Category::new("programming", "rust"));
    assert!(web_event("first monday in june", "Party".to_string(), "x").is_none());
    assert!(web_event("2026-02-30", "Nope".to_string(), "x").is_none());
}

#[test]
fn numbers_written_in_queries() {
    for id in [0i64, 7, -3, 10, 1234567890, i64::MAX, i64::MIN] {
        assert_eq!(
            insert_event_query("d", "x", id),
            format!("INSERT INTO event (event_date, event_description, category_id)\n            VALUES ('d', 'x', {})", id)
        );
    }
    let f = FilterBuilder::new().month_day(MonthDay::new(12, 5)).build();
    let web = WebProvider::new("w", "u");
    assert_eq!(web.request_url(&f).unwrap(), "u?date=12-05");
    let g = FilterBuilder::new().month_day(MonthDay::new(123, 0)).build();
    assert_eq!(web.request_url(&g).unwrap(), "u?date=123-00");
}
