//! What the event providers decide: their errors, the records of a text file and of a
//! CSV file, the request of a web provider, and the SQL and rows of an SQLite provider.

use vstd::prelude::*;
use std::collections::HashMap;
use vstd::std_specs::iter::IteratorSpec;
use crate::events::{
    Category, CategoryView, Event, EventKind, EventView, secondary_text, kind_date_text, category_text,
    kind_read_from, date_text_is_readable, invalid_date_message, expanded_date_text,
    category_from_text, params_to_event_in, event_from_fields, is_written_event,
    is_written_dated_event, is_written_kind, is_written_dated_kind,
};
use crate::calendar::{Date, MIN_YEAR, MAX_YEAR};
use crate::filters::{EventFilter, FilterOptionView, has_month_day, has_category, has_text};
use crate::text::{zero_padded, signed_decimal, u32_text_pad2, i64_text, same_text, contains_text};

verus! {

/// An error of an event provider.
#[derive(Debug)]
pub enum EventProviderError {
    Io(String),
    Parse(String),
    Db(String),
    Http(String),
    OperationNotSupported,
    OperationFailed(String),
}

/// The mathematical value of a provider error.
pub enum EventProviderErrorView {
    Io(Seq<char>),
    Parse(Seq<char>),
    Db(Seq<char>),
    Http(Seq<char>),
    OperationNotSupported,
    OperationFailed(Seq<char>),
}

impl View for EventProviderError {
    type V = EventProviderErrorView;

    open spec fn view(&self) -> EventProviderErrorView {
        match self {
            EventProviderError::Io(m) => EventProviderErrorView::Io(m@),
            EventProviderError::Parse(m) => EventProviderErrorView::Parse(m@),
            EventProviderError::Db(m) => EventProviderErrorView::Db(m@),
            EventProviderError::Http(m) => EventProviderErrorView::Http(m@),
            EventProviderError::OperationNotSupported => EventProviderErrorView::OperationNotSupported,
            EventProviderError::OperationFailed(m) => EventProviderErrorView::OperationFailed(m@),
        }
    }
}

/// How a provider error is displayed.
pub open spec fn provider_error_text(e: EventProviderErrorView) -> Seq<char> {
    match e {
        EventProviderErrorView::Io(m) => "I/O error: "@ + m,
        EventProviderErrorView::Parse(m) => "Parse error: "@ + m,
        EventProviderErrorView::Db(m) => "Database error: "@ + m,
        EventProviderErrorView::Http(m) => "HTTP error: "@ + m,
        EventProviderErrorView::OperationNotSupported => "operation not supported"@,
        EventProviderErrorView::OperationFailed(m) => "operation failed: "@ + m,
    }
}

fn owned(s: &str) -> (r: String)
    ensures
        r@ == s@,
{
    s.to_owned()
}

fn joined(a: &str, b: &str) -> (r: String)
    ensures
        r@ == a@ + b@,
{
    let mut r = owned(a);
    r.append(b);
    r
}

impl EventProviderError {
    /// The error as it is displayed.
    pub fn to_string(&self) -> (r: String)
        ensures
            r@ == provider_error_text(self@),
    {
        match self {
            EventProviderError::Io(m) => joined("I/O error: ", m.as_str()),
            EventProviderError::Parse(m) => joined("Parse error: ", m.as_str()),
            EventProviderError::Db(m) => joined("Database error: ", m.as_str()),
            EventProviderError::Http(m) => joined("HTTP error: ", m.as_str()),
            EventProviderError::OperationNotSupported => owned("operation not supported"),
            EventProviderError::OperationFailed(m) => joined("operation failed: ", m.as_str()),
        }
    }
}

// ---------------------------------------------------------------------------
// Choosing the provider that adds an event
// ---------------------------------------------------------------------------

/// The first position of `name` among `names`, or `names.len()`.
pub open spec fn first_named(names: Seq<Seq<char>>, name: Seq<char>, from: int) -> int
    decreases names.len() - from,
{
    if from >= names.len() {
        names.len() as int
    } else if names[from] == name {
        from
    } else {
        first_named(names, name, from + 1)
    }
}

pub open spec fn unknown_provider_message(name: Seq<char>) -> Seq<char> {
    "Unknown event provider '"@ + name + "'"@
}

/// Picks the provider that an event is added to: the first one with the given name.
/// It fails when there is none, or when that provider cannot add events.
pub fn provider_for_add(names: &Vec<String>, add_supported: &Vec<bool>, provider_name: &str) -> (r:
    Result<usize, EventProviderError>)
    requires
        names@.len() == add_supported@.len(),
    ensures
        ({
            let ns = names@.map_values(|n: String| n@);
            let i = first_named(ns, provider_name@, 0);
            &&& r matches Ok(k) ==> k == i && i < ns.len() && add_supported@[i]
            &&& r matches Err(e) ==> if i < ns.len() {
                !add_supported@[i] && e@ == EventProviderErrorView::OperationNotSupported
            } else {
                e@ == EventProviderErrorView::OperationFailed(unknown_provider_message(provider_name@))
            }
        }),
{
    let ghost ns = names@.map_values(|n: String| n@);
    let mut i: usize = 0;
    while i < names.len()
        invariant
            i <= names@.len(),
            names@.len() == add_supported@.len(),
            ns == names@.map_values(|n: String| n@),
            first_named(ns, provider_name@, 0) == first_named(ns, provider_name@, i as int),
        decreases names@.len() - i,
    {
        assert(ns[i as int] == names@[i as int]@);
        if same_text(names[i].as_str(), provider_name) {
            if add_supported[i] {
                return Ok(i);
            } else {
                return Err(EventProviderError::OperationNotSupported);
            }
        }
        i = i + 1;
    }
    let mut message = joined("Unknown event provider '", provider_name);
    message.append("'");
    Err(EventProviderError::OperationFailed(message))
}

// ---------------------------------------------------------------------------
// Text files: a date line, a description line, a category line, a separator line
// ---------------------------------------------------------------------------

/// Which line of a record a text file provider reads next.
#[derive(Debug, Clone, Copy, PartialEq, Eq, Structural)]
pub enum ReadingState {
    Date,
    Description,
    Category,
    Separator,
}

/// The mathematical value of a text record reader.
pub struct TextRecordReaderView {
    pub state: ReadingState,
    pub date: Seq<char>,
    pub description: Seq<char>,
    pub category: Seq<char>,
}

/// Reads the records of a text file line by line.
pub struct TextRecordReader {
    state: ReadingState,
    date: String,
    description: String,
    category: String,
}

impl View for TextRecordReader {
    type V = TextRecordReaderView;

    closed spec fn view(&self) -> TextRecordReaderView {
        TextRecordReaderView {
            state: self.state,
            date: self.date@,
            description: self.description@,
            category: self.category@,
        }
    }
}

/// The reader after it takes `line`.
pub open spec fn next_reader(v: TextRecordReaderView, line: Seq<char>) -> TextRecordReaderView {
    match v.state {
        ReadingState::Date => TextRecordReaderView { state: ReadingState::Description, date: line, ..v },
        ReadingState::Description => TextRecordReaderView {
            state: ReadingState::Category,
            description: line,
            ..v
        },
        ReadingState::Category => TextRecordReaderView { state: ReadingState::Separator, category: line, ..v },
        ReadingState::Separator => TextRecordReaderView { state: ReadingState::Date, ..v },
    }
}

/// The record that taking `line` completes: the date, description and category lines,
/// once the separator line after them is taken.
pub open spec fn completed_record(v: TextRecordReaderView, line: Seq<char>) -> Option<
    (Seq<char>, Seq<char>, Seq<char>),
> {
    match v.state {
        ReadingState::Separator => Some((v.date, v.description, v.category)),
        _ => None,
    }
}

/// Four lines taken at the start of a record give back its date, description and
/// category lines, and the reader is then at the start of the next record.
pub proof fn lemma_four_lines_make_a_record(
    v: TextRecordReaderView,
    date: Seq<char>,
    description: Seq<char>,
    category: Seq<char>,
    separator: Seq<char>,
)
    requires
        v.state == ReadingState::Date,
    ensures
        ({
            let v1 = next_reader(v, date);
            let v2 = next_reader(v1, description);
            let v3 = next_reader(v2, category);
            &&& completed_record(v, date) is None
            &&& completed_record(v1, description) is None
            &&& completed_record(v2, category) is None
            &&& completed_record(v3, separator) == Some((date, description, category))
            &&& next_reader(v3, separator).state == ReadingState::Date
        }),
{
}

impl TextRecordReader {
    /// A reader at the start of a record, holding no lines yet.
    pub fn new() -> (r: TextRecordReader)
        ensures
            r@ == (TextRecordReaderView {
                state: ReadingState::Date,
                date: Seq::empty(),
                description: Seq::empty(),
                category: Seq::empty(),
            }),
    {
        TextRecordReader {
            state: ReadingState::Date,
            date: String::new(),
            description: String::new(),
            category: String::new(),
        }
    }

    /// Takes the next line. The separator line after a record's date, description and
    /// category lines completes the record, which is handed out.
    pub fn feed(&mut self, line: String) -> (r: Option<(String, String, String)>)
        ensures
            final(self)@ == next_reader(old(self)@, line@),
            r is None <==> completed_record(old(self)@, line@) is None,
            r matches Some(rec) ==> completed_record(old(self)@, line@) == Some((rec.0@, rec.1@, rec.2@)),
    {
        match self.state {
            ReadingState::Date => {
                self.date = line;
                self.state = ReadingState::Description;
                None
            },
            ReadingState::Description => {
                self.description = line;
                self.state = ReadingState::Category;
                None
            },
            ReadingState::Category => {
                self.category = line;
                self.state = ReadingState::Separator;
                None
            },
            ReadingState::Separator => {
                self.state = ReadingState::Date;
                Some((self.date.clone(), self.description.clone(), self.category.clone()))
            },
        }
    }
}

/// The lines a text file provider writes for an event: its date text, its description,
/// its category's text, and an empty separator line.
pub open spec fn record_lines(e: EventView) -> Seq<Seq<char>> {
    seq![kind_date_text(e.kind), e.description, category_text(e.category), Seq::<char>::empty()]
}

/// The lines of the record that a text file provider writes for `event`.
pub fn text_record_lines(event: &Event) -> (r: Vec<String>)
    ensures
        r.deep_view() == record_lines(event@),
{
    let mut r: Vec<String> = Vec::new();
    r.push(event.date_string());
    r.push(event.description());
    r.push(event.category().to_string());
    r.push(String::new());
    assert(r.deep_view() =~= record_lines(event@));
    r
}

/// The lines written for an event, taken by a reader at the start of a record, give back
/// its date text, description and category text, and leave the reader at the start of
/// the next record.
pub proof fn lemma_text_record_reads_back(e: EventView, v: TextRecordReaderView)
    requires
        v.state == ReadingState::Date,
    ensures
        ({
            let l = record_lines(e);
            let v1 = next_reader(v, l[0]);
            let v2 = next_reader(v1, l[1]);
            let v3 = next_reader(v2, l[2]);
            &&& completed_record(v, l[0]) is None
            &&& completed_record(v1, l[1]) is None
            &&& completed_record(v2, l[2]) is None
            &&& completed_record(v3, l[3]) == Some(
                (kind_date_text(e.kind), e.description, category_text(e.category)),
            )
            &&& next_reader(v3, l[3]).state == ReadingState::Date
        }),
{
    let l = record_lines(e);
    lemma_four_lines_make_a_record(v, l[0], l[1], l[2], l[3]);
}

// ---------------------------------------------------------------------------
// Web providers
// ---------------------------------------------------------------------------

/// The URL that asks a web provider for the events of a month-day: `url?date=MM-DD`.
pub open spec fn web_request_text(url: Seq<char>, month: int, day: int) -> Seq<char> {
    url + "?date="@ + zero_padded(month as nat, 2) + seq!['-'] + zero_padded(day as nat, 2)
}



/// The event that a web provider makes of an entry of its reply: a dated event read
/// from the entry's date as `chrono` parses `%F`, with its description and category.
/// An entry whose date does not parse gives none.
pub fn web_event(date: &str, description: String, category: &str) -> (r: Option<Event>)
    ensures
        r is Some <==> crate::calendar::chrono_date_parse(date@) is Some,
        r matches Some(e) ==> (e@.kind matches EventKind::Singular(d) && crate::calendar::chrono_date_parse(date@)
            == Some((d@.year, d@.month, d@.day))) && e@.description == description@ && e@.category
            == category_from_text(category@),
        // A date written as `YYYY-MM-DD` is read as that date.
        forall|d: Date|
            #[trigger] crate::calendar::iso_date_text(d@.year, d@.month, d@.day) == date@ && d@.is_valid()
                ==> (r matches Some(e) && e@.kind == EventKind::Singular(d)),
{
    let parsed = Date::parse_iso(date);
    proof {
        assert forall|d: Date|
            #[trigger] crate::calendar::iso_date_text(d@.year, d@.month, d@.day) == date@ && d@.is_valid()
                implies (parsed matches Some(x) && x == d) by {
            assert(crate::calendar::iso_date_text(d@.year, d@.month, d@.day) == crate::calendar::ymd_text(
                d@.year,
                d@.month,
                d@.day,
                2,
                2,
            ));
            if let Some(x) = parsed {
                crate::calendar::lemma_date_view_injective(x, d);
            }
        }
    }
    match parsed {
        Some(d) => Some(Event::new_singular(d, description, Category::from_str(category))),
        None => None,
    }
}

// ---------------------------------------------------------------------------
// CSV files: records of `date,description,category`
// ---------------------------------------------------------------------------

/// What the `csv` crate reads from `bytes` as records without a header row: each
/// record's fields, or the text of the error for a record it cannot read.
pub uninterp spec fn csv_records_of(bytes: Seq<u8>) -> Seq<Result<Seq<Seq<char>>, Seq<char>>>;

/// The mathematical value of records as `csv_records` hands them out.
pub open spec fn csv_record_views(v: Seq<Result<Vec<String>, String>>) -> Seq<
    Result<Seq<Seq<char>>, Seq<char>>,
> {
    v.map_values(
        |x: Result<Vec<String>, String>|
            match x {
                Ok(f) => Ok(f.deep_view()),
                Err(e) => Err(e@),
            },
    )
}

/// `csv::ReaderBuilder::new().has_headers(false)` reading `bytes` record by record, as
/// `csv::Reader::records` yields them: a record's fields, or the `Display` text of the
/// error for a record it cannot read. The records depend on the bytes alone and are
/// named by `csv_records_of`; the CSV grammar itself is not written out here.
#[verifier::external_body]
fn csv_records(bytes: &[u8]) -> (r: Vec<Result<Vec<String>, String>>)
    ensures
        csv_record_views(r@) == csv_records_of(bytes@),
{
    csv::ReaderBuilder::new().has_headers(false).from_reader(bytes).records().map(
        |record| match record {
            Ok(fields) => Ok(fields.iter().map(|field| field.to_string()).collect()),
            Err(error) => Err(error.to_string()),
        },
    ).collect()
}

/// Field `i` of a record, or the empty text when the record is shorter.
pub open spec fn csv_field(fields: Seq<Seq<char>>, i: int) -> Seq<char> {
    if 0 <= i < fields.len() {
        fields[i]
    } else {
        Seq::empty()
    }
}

fn field_at(fields: &Vec<String>, i: usize) -> (r: &str)
    ensures
        r@ == csv_field(fields.deep_view(), i as int),
{
    if i < fields.len() {
        fields[i].as_str()
    } else {
        proof { reveal_strlit(""); }
        ""
    }
}

/// What a CSV provider makes of a record in year `year`: an event read from its date,
/// description and category fields, the message for a date that cannot be read, or the
/// error text of a record that cannot be read. A record written for an event is read
/// back as that event.
pub open spec fn csv_record_read(
    record: Result<Seq<Seq<char>>, Seq<char>>,
    out: Result<Result<Event, String>, String>,
    year: int,
) -> bool {
    &&& match (record, out) {
        (Err(e), Err(m)) => m@ == e,
        (Ok(f), Ok(Ok(ev))) => date_text_is_readable(csv_field(f, 0), year) && kind_read_from(
            ev@.kind,
            csv_field(f, 0),
            year,
        ) && ev@.description == csv_field(f, 1) && ev@.category == category_from_text(
            csv_field(f, 2),
        ),
        (Ok(f), Ok(Err(m))) => !date_text_is_readable(csv_field(f, 0), year) && m@
            == invalid_date_message(expanded_date_text(csv_field(f, 0), year)),
        _ => false,
    }
    &&& record matches Ok(f) ==> forall|ev: EventView|
        #[trigger] is_written_event(ev, csv_field(f, 0), csv_field(f, 1), csv_field(f, 2), year)
            ==> (out matches Ok(Ok(e)) && e@ == ev)
}

/// `out` is what a CSV provider makes of the records, one for each, in order.
pub open spec fn csv_events_read(
    records: Seq<Result<Seq<Seq<char>>, Seq<char>>>,
    out: Seq<Result<Result<Event, String>, String>>,
    year: int,
) -> bool {
    &&& out.len() == records.len()
    &&& forall|i: int| 0 <= i < out.len() ==> #[trigger] csv_record_read(records[i], out[i], year)
}

/// The record is the CSV record written for event `ev`, which has a date or a rule.
pub open spec fn csv_record_written(record: Result<Seq<Seq<char>>, Seq<char>>, ev: EventView) -> bool {
    record matches Ok(f) && is_written_dated_event(ev, csv_field(f, 0), csv_field(f, 1), csv_field(f, 2))
}

/// Reads the events of CSV records, with `current_year` put in for a date without a year.
pub fn csv_events_from_records(records: &Vec<Result<Vec<String>, String>>, current_year: i32) -> (r: Vec<
    Result<Result<Event, String>, String>,
>)
    ensures
        csv_events_read(csv_record_views(records@), r@, current_year as int),
{
    let ghost views = csv_record_views(records@);
    let mut out: Vec<Result<Result<Event, String>, String>> = Vec::new();
    let mut i: usize = 0;
    while i < records.len()
        invariant
            i <= records@.len(),
            views == csv_record_views(records@),
            out@.len() == i,
            forall|j: int| 0 <= j < i ==> #[trigger] csv_record_read(views[j], out@[j], current_year as int),
        decreases records@.len() - i,
    {
        let read = match &records[i] {
            Ok(fields) => {
                let date = field_at(fields, 0);
                let description = field_at(fields, 1);
                let category = field_at(fields, 2);
                Ok(params_to_event_in(date, description, category, current_year))
            },
            Err(e) => Err(e.clone()),
        };
        assert(views[i as int] == match records@[i as int] {
            Ok(f) => Ok::<Seq<Seq<char>>, Seq<char>>(f.deep_view()),
            Err(e) => Err(e@),
        });
        out.push(read);
        assert(csv_record_read(views[i as int], out@[i as int], current_year as int));
        i = i + 1;
    }
    out
}

/// Reads the events of a CSV file's bytes, with `current_year` put in for a date without
/// a year.
pub fn csv_events_in(bytes: &[u8], current_year: i32) -> (r: Vec<Result<Result<Event, String>, String>>)
    ensures
        csv_events_read(csv_records_of(bytes@), r@, current_year as int),
{
    let records = csv_records(bytes);
    csv_events_from_records(&records, current_year)
}

/// Reads the events of a CSV file's bytes; a date without a year gets the current year
/// by the clock, read once for the whole file.
pub fn csv_events(bytes: &[u8]) -> (r: Vec<Result<Result<Event, String>, String>>)
    ensures
        exists|y: int| MIN_YEAR <= y <= MAX_YEAR && csv_events_read(csv_records_of(bytes@), r@, y),
        r@.len() == csv_records_of(bytes@).len(),
        // A record written for an event with a date or a rule is read back as that event,
        // whatever the current year.
        forall|i: int, ev: EventView|
            0 <= i < r@.len() && #[trigger] csv_record_written(csv_records_of(bytes@)[i], ev) ==> (
            r@[i] matches Ok(Ok(e)) && e@ == ev),
{
    let today = Date::today();
    let y = today.year();
    let r = csv_events_in(bytes, y);
    proof {
        assert forall|i: int, ev: EventView|
            0 <= i < r@.len() && #[trigger] csv_record_written(csv_records_of(bytes@)[i], ev) implies (
            r@[i] matches Ok(Ok(e)) && e@ == ev) by {
            let rec = csv_records_of(bytes@)[i];
            assert(csv_record_read(rec, r@[i], y as int));
            if let Ok(f) = rec {
                assert(is_written_event(ev, csv_field(f, 0), csv_field(f, 1), csv_field(f, 2), y as int));
            }
        }
    }
    r
}

/// What the `csv` crate writes for one record of the given fields, without a header
/// row, or the text of its error.
pub uninterp spec fn csv_record_bytes_of(fields: Seq<Seq<char>>) -> Result<Seq<u8>, Seq<char>>;

/// `csv::WriterBuilder::new().has_headers(false)` writing one record of `fields` into
/// memory: the bytes written, or the `Display` text of the error. They depend on the
/// fields alone and are named by `csv_record_bytes_of`; the quoting rules are not
/// written out here.
#[verifier::external_body]
fn csv_record_bytes(fields: &Vec<String>) -> (r: Result<Vec<u8>, String>)
    ensures
        match r {
            Ok(b) => csv_record_bytes_of(fields.deep_view()) == Ok::<Seq<u8>, Seq<char>>(b@),
            Err(e) => csv_record_bytes_of(fields.deep_view()) == Err::<Seq<u8>, Seq<char>>(e@),
        },
{
    let mut writer = csv::WriterBuilder::new().has_headers(false).from_writer(Vec::new());
    match writer.write_record(fields) {
        Ok(()) => writer.into_inner().map_err(|error| error.to_string()),
        Err(error) => Err(error.to_string()),
    }
}

/// The fields a CSV provider writes for an event: its date text, description and
/// category text.
pub open spec fn csv_event_fields(e: EventView) -> Seq<Seq<char>> {
    seq![kind_date_text(e.kind), e.description, category_text(e.category)]
}

/// The bytes of the CSV record that a CSV provider appends for `event`.
pub fn csv_event_record(event: &Event) -> (r: Result<Vec<u8>, String>)
    ensures
        match r {
            Ok(b) => csv_record_bytes_of(csv_event_fields(event@)) == Ok::<Seq<u8>, Seq<char>>(b@),
            Err(e) => csv_record_bytes_of(csv_event_fields(event@)) == Err::<Seq<u8>, Seq<char>>(e@),
        },
{
    let mut fields: Vec<String> = Vec::new();
    fields.push(event.date_string());
    fields.push(event.description());
    fields.push(event.category().to_string());
    assert(fields.deep_view() =~= csv_event_fields(event@));
    csv_record_bytes(&fields)
}

// ---------------------------------------------------------------------------
// SQLite providers
// ---------------------------------------------------------------------------

/// A row of the event table: its date text, description and category id.
pub type EventRow = (String, String, i64);

/// The error text for a row whose category id is not in the category table.
pub open spec fn missing_category_message(id: int) -> Seq<char> {
    "missing category id "@ + signed_decimal(id)
}

/// What an SQLite provider makes of an event row in year `year`, given the category
/// map: the row's category id is in the map, and `out` is the event read from the row's
/// date and description with that category, or the row's date text with the year put
/// in when it reads as neither a date nor a rule. A date written for an event is read
/// back as that event's date.
pub open spec fn sqlite_row_read(row: EventRow, m: Map<i64, Category>, out: Result<Event, String>, year: int) -> bool {
    &&& m.contains_key(row.2)
    &&& match out {
        Ok(e) => date_text_is_readable(row.0@, year) && kind_read_from(e@.kind, row.0@, year)
            && e@.description == row.1@ && e@.category == m[row.2]@,
        Err(t) => !date_text_is_readable(row.0@, year) && t@ == expanded_date_text(row.0@, year),
    }
    &&& forall|k: EventKind| #[trigger] is_written_kind(k, row.0@, year) ==> (out matches Ok(e) && e@.kind == k)
}

/// `out` and `error` are what an SQLite provider makes of the event rows in order: each
/// row up to the first whose category id is not in the map gives its event or its
/// unreadable date text; that row, if there is one, gives the error.
pub open spec fn sqlite_events_read(
    rows: Seq<EventRow>,
    m: Map<i64, Category>,
    out: Seq<Result<Event, String>>,
    error: Option<EventProviderError>,
    year: int,
) -> bool {
    &&& out.len() <= rows.len()
    &&& forall|i: int| 0 <= i < out.len() ==> #[trigger] sqlite_row_read(rows[i], m, out[i], year)
    &&& match error {
        None => out.len() == rows.len(),
        Some(e) => out.len() < rows.len() && !m.contains_key(rows[out.len() as int].2) && e@
            == EventProviderErrorView::Db(missing_category_message(rows[out.len() as int].2 as int)),
    }
}

/// Reads the events of the event table's rows, with `current_year` put in for a date
/// without a year; it stops at the first row whose category id is not in the map.
pub fn sqlite_events_in(rows: &Vec<EventRow>, category_map: &HashMap<i64, Category>, current_year: i32) -> (r: (
    Vec<Result<Event, String>>,
    Option<EventProviderError>,
))
    ensures
        sqlite_events_read(rows@, category_map@, r.0@, r.1, current_year as int),
{
    broadcast use vstd::std_specs::hash::group_hash_axioms;
    let mut out: Vec<Result<Event, String>> = Vec::new();
    let mut i: usize = 0;
    while i < rows.len()
        invariant
            i <= rows@.len(),
            out@.len() == i,
            forall|j: int| 0 <= j < i ==> #[trigger] sqlite_row_read(rows@[j], category_map@, out@[j], current_year as int),
        decreases rows@.len() - i,
    {
        let (date, description, id) = &rows[i];
        match category_map.get(id) {
            Some(category) => {
                let read = event_from_fields(date.as_str(), description.as_str(), category.clone(), current_year);
                out.push(read);
                assert(sqlite_row_read(rows@[i as int], category_map@, out@[i as int], current_year as int));
            },
            None => {
                let message = joined("missing category id ", i64_text(*id).as_str());
                return (out, Some(EventProviderError::Db(message)));
            },
        }
        i = i + 1;
    }
    (out, None)
}

/// The row's date is the date or rule written for kind `k`.
pub open spec fn sqlite_row_written(row: EventRow, k: EventKind) -> bool {
    is_written_dated_kind(k, row.0@)
}

/// Reads the events of the event table's rows; a date without a year gets the current
/// year by the clock, read once for all rows.
pub fn sqlite_events(rows: &Vec<EventRow>, category_map: &HashMap<i64, Category>) -> (r: (
    Vec<Result<Event, String>>,
    Option<EventProviderError>,
))
    ensures
        exists|y: int|
            MIN_YEAR <= y <= MAX_YEAR && sqlite_events_read(rows@, category_map@, r.0@, r.1, y),
        // A date or rule written for an event is read back as it, whatever the current year.
        forall|i: int, k: EventKind|
            0 <= i < r.0@.len() && #[trigger] sqlite_row_written(rows@[i], k) ==> (r.0@[i] matches Ok(e)
                && e@.kind == k),
{
    let today = Date::today();
    let y = today.year();
    let r = sqlite_events_in(rows, category_map, y);
    proof {
        assert forall|i: int, k: EventKind|
            0 <= i < r.0@.len() && #[trigger] sqlite_row_written(rows@[i], k) implies (r.0@[i] matches Ok(e)
                && e@.kind == k) by {
            assert(sqlite_row_read(rows@[i], category_map@, r.0@[i], y as int));
            assert(is_written_kind(k, rows@[i].0@, y as int));
        }
    }
    r
}

/// Whether some entry of the category map holds the category `c`.
pub open spec fn map_has_category(m: Map<i64, Category>, c: CategoryView) -> bool {
    exists|id: i64| #[trigger] m.contains_key(id) && m[id]@ == c
}

/// Looks for `category` in the map; when it is found, its id is put in `id`.
pub fn category_exists(category_map: &HashMap<i64, Category>, category: &Category, id: &mut i64) -> (r:
    bool)
    ensures
        r == map_has_category(category_map@, category@),
        r ==> category_map@.contains_key(*final(id)) && category_map@[*final(id)]@ == category@,
        !r ==> *final(id) == *old(id),
{
    broadcast use vstd::std_specs::hash::group_hash_axioms;
    let ghost m = category_map@;
    for (key, value) in it: category_map.iter()
        invariant
            m == category_map@,
            *id == *old(id),
            it.seq() == vstd::std_specs::hash::spec_hash_map_iter(category_map).remaining(),
            forall|j: int| 0 <= j < it.index() ==> (#[trigger] it.seq()[j]).1@ != category@,
    {
        if value.eq(category) {
            proof {
                let entries = vstd::std_specs::hash::spec_hash_map_iter(category_map).remaining();
                let j = it.index();
                assert(entries[j] == (key, value));
                assert(m.contains_key(*entries[j].0));
            }
            *id = *key;
            return true;
        }
    }
    proof {
        if map_has_category(m, category@) {
            let k = choose|k: i64| #[trigger] m.contains_key(k) && m[k]@ == category@;
            let entries = vstd::std_specs::hash::spec_hash_map_iter(category_map).remaining();
            assert(entries.contains((&k, &m[k])));
        }
    }
    false
}


pub open spec fn category_part_prefix() -> Seq<char> {
    "category_id = "@
}

/// `part` is what the category part of the `WHERE` clause may be: `category_id = <id>`
/// for an id of the map that holds the filter's category; empty when the filter has no
/// category or the map does not hold it.
pub open spec fn is_category_part(filter: Set<FilterOptionView>, m: Map<i64, Category>, part: Seq<char>) -> bool {
    if has_category(filter) {
        forall|c: CategoryView|
            #[trigger] filter.contains(FilterOptionView::Category(c)) ==> if map_has_category(m, c) {
                exists|id: i64|
                    #![trigger m.contains_key(id)]
                    m.contains_key(id) && m[id]@ == c && part == category_part_prefix()
                        + signed_decimal(id as int)
            } else {
                part.len() == 0
            }
    } else {
        part.len() == 0
    }
}

/// The condition on the category, for an SQL `WHERE` clause.
pub fn make_category_part(filter: &EventFilter, category_map: &HashMap<i64, Category>) -> (r: String)
    ensures
        is_category_part(filter@, category_map@, r@),
{
    match filter.category() {
        Some(filter_category) => {
            let mut id: i64 = 0;
            let ghost c = filter_category@;
            proof {
                assert(crate::filters::is_category_option(FilterOptionView::Category(c)));
                assert(has_category(filter@));
            }
            if category_exists(category_map, &filter_category, &mut id) {
                let r = joined("category_id = ", i64_text(id).as_str());
                proof {
                    assert(category_map@.contains_key(id));
                    assert(filter@.contains(FilterOptionView::Category(c)));
                }
                r
            } else {
                let r = String::new();
                proof {
                    assert(filter@.contains(FilterOptionView::Category(c)));
                }
                r
            }
        },
        None => String::new(),
    }
}

pub open spec fn text_part_prefix() -> Seq<char> {
    "event_description LIKE '%"@
}

pub open spec fn text_part_suffix() -> Seq<char> {
    "%'"@
}

/// `part` is the condition on the description for a filter's text, or empty.
pub open spec fn is_text_part(filter: Set<FilterOptionView>, part: Seq<char>) -> bool {
    if has_text(filter) {
        forall|t: Seq<char>|
            #[trigger] filter.contains(FilterOptionView::Text(t)) ==> part == text_part_prefix() + t
                + text_part_suffix()
    } else {
        part.len() == 0
    }
}

/// The condition on the description, for an SQL `WHERE` clause.
pub fn make_text_part(filter: &EventFilter) -> (r: String)
    ensures
        is_text_part(filter@, r@),
{
    match filter.text() {
        Some(text) => {
            let mut r = joined("event_description LIKE '%", text.as_str());
            r.append("%'");
            proof {
                assert(crate::filters::is_text_option(FilterOptionView::Text(text@)));
            }
            r
        },
        None => String::new(),
    }
}

pub open spec fn date_part_prefix() -> Seq<char> {
    "strftime('%m-%d', event_date) = '"@
}

/// `part` is the condition on the month-day for a filter's month-day, or empty.
pub open spec fn is_date_part(filter: Set<FilterOptionView>, part: Seq<char>) -> bool {
    if has_month_day(filter) {
        forall|md: crate::events::MonthDayView|
            #[trigger] filter.contains(FilterOptionView::MonthDay(md)) ==> md.month >= 0 && md.day >= 0
                && part == date_part_prefix() + zero_padded(md.month as nat, 2) + seq!['-'] + zero_padded(
                md.day as nat,
                2,
            ) + seq!['\'']
    } else {
        part.len() == 0
    }
}

/// The condition on the month-day, for an SQL `WHERE` clause.
pub fn make_date_part(filter: &EventFilter) -> (r: String)
    ensures
        is_date_part(filter@, r@),
{
    match filter.month_day() {
        Some(md) => {
            let mut r = owned("strftime('%m-%d', event_date) = '");
            r.append(u32_text_pad2(md.month()).as_str());
            r.append("-");
            r.append(u32_text_pad2(md.day()).as_str());
            r.append("'");
            proof {
                reveal_strlit("-");
                reveal_strlit("'");
                assert(crate::filters::is_month_day_option(FilterOptionView::MonthDay(md@)));
                assert(r@ =~= date_part_prefix() + zero_padded(md@.month as nat, 2) + seq!['-']
                    + zero_padded(md@.day as nat, 2) + seq!['\'']);
            }
            r
        },
        None => String::new(),
    }
}

/// The `WHERE` clause for a filter's category and text parts: `WHERE 0` when the
/// filter's category is not in the map, else the parts joined by ` AND ` (none: empty).
pub open spec fn where_clause_text(
    has_category: bool,
    category_part: Seq<char>,
    has_text: bool,
    text_part: Seq<char>,
) -> Seq<char> {
    if has_category && category_part.len() == 0 {
        "WHERE 0"@
    } else if has_category && has_text {
        "WHERE "@ + category_part + " AND "@ + text_part
    } else if has_category {
        "WHERE "@ + category_part
    } else if has_text {
        "WHERE "@ + text_part
    } else {
        Seq::empty()
    }
}

/// The SQL condition that a row's category id is `id`.
pub open spec fn category_condition(id: int) -> Seq<char> {
    "category_id = "@ + signed_decimal(id)
}

/// The SQL condition that a row's description is like `%t%`.
pub open spec fn text_condition(t: Seq<char>) -> Seq<char> {
    "event_description LIKE '%"@ + t + "%'"@
}

/// An event row with category id `id` and description `desc` is selected by the clause
/// `w`, for clauses of the shapes an SQLite provider writes: no clause selects every
/// row; otherwise `WHERE ` is followed by the category condition on `id`, a text
/// condition whose text the description contains, or the two joined by ` AND `.
/// (`WHERE 0` selects no row.) A description that contains the text matches `LIKE`.
pub open spec fn clause_selects(w: Seq<char>, id: int, desc: Seq<char>) -> bool {
    ||| w.len() == 0
    ||| w == "WHERE "@ + category_condition(id)
    ||| exists|t: Seq<char>|
        #![trigger text_condition(t)]
        contains_text(desc, t) && (w == "WHERE "@ + text_condition(t) || w == "WHERE "@
            + category_condition(id) + " AND "@ + text_condition(t))
}

/// The filter accepts a row with category id `id` and description `desc` on its category
/// and text: the map gives the row's category, which is the filter's category if it has
/// one, and the description contains the filter's text if it has one.
pub open spec fn row_passes_category_and_text(
    filter: Set<FilterOptionView>,
    m: Map<i64, Category>,
    id: i64,
    desc: Seq<char>,
) -> bool {
    &&& m.contains_key(id)
    &&& forall|c: CategoryView| #[trigger] filter.contains(FilterOptionView::Category(c)) ==> m[id]@ == c
    &&& forall|t: Seq<char>| #[trigger] filter.contains(FilterOptionView::Text(t)) ==> contains_text(desc, t)
}

/// No other id of the map holds the category that `id` holds.
pub open spec fn category_id_unique(m: Map<i64, Category>, id: i64) -> bool {
    forall|k: i64| #[trigger] m.contains_key(k) && m[k]@ == m[id]@ ==> k == id
}

/// A clause with the given category and text parts keeps every row that the filter
/// accepts on category and text (when its category has one id in the map); and when the
/// filter has a category, the clause asks for an id that holds it, or selects nothing
/// when the map holds it under no id.
pub proof fn lemma_where_clause_selects(
    filter: Set<FilterOptionView>,
    m: Map<i64, Category>,
    cp: Seq<char>,
    tp: Seq<char>,
    id: i64,
    desc: Seq<char>,
)
    requires
        is_category_part(filter, m, cp),
        is_text_part(filter, tp),
    ensures
        row_passes_category_and_text(filter, m, id, desc) && category_id_unique(m, id) ==> clause_selects(
            where_clause_text(has_category(filter), cp, has_text(filter), tp),
            id as int,
            desc,
        ),
        forall|c: CategoryView|
            #[trigger] filter.contains(FilterOptionView::Category(c)) ==> ({
                let w = where_clause_text(has_category(filter), cp, has_text(filter), tp);
                if map_has_category(m, c) {
                    exists|k: i64|
                        #![trigger m.contains_key(k)]
                        m.contains_key(k) && m[k]@ == c && (w == "WHERE "@ + category_condition(k as int)
                            || exists|rest: Seq<char>| w == "WHERE "@ + category_condition(k as int) + " AND "@ + rest)
                } else {
                    w == "WHERE 0"@
                }
            }),
{
    let w = where_clause_text(has_category(filter), cp, has_text(filter), tp);
    if row_passes_category_and_text(filter, m, id, desc) && category_id_unique(m, id) {
        if has_category(filter) {
            let o = choose|o: FilterOptionView| filter.contains(o) && crate::filters::is_category_option(o);
            let c = o->Category_0;
            assert(filter.contains(FilterOptionView::Category(c)));
            assert(map_has_category(m, c));
            let k = choose|k: i64| m.contains_key(k) && m[k]@ == c && cp == category_part_prefix()
                + signed_decimal(k as int);
            assert(k == id);
            assert(cp.len() > 0);
            if has_text(filter) {
                let ot = choose|o: FilterOptionView| filter.contains(o) && crate::filters::is_text_option(o);
                let t = ot->Text_0;
                assert(filter.contains(FilterOptionView::Text(t)));
                assert(w == "WHERE "@ + category_condition(id as int) + " AND "@ + text_condition(t));
            } else {
                assert(w == "WHERE "@ + category_condition(id as int));
            }
        } else if has_text(filter) {
            let ot = choose|o: FilterOptionView| filter.contains(o) && crate::filters::is_text_option(o);
            let t = ot->Text_0;
            assert(filter.contains(FilterOptionView::Text(t)));
            assert(w == "WHERE "@ + text_condition(t));
        }
    }
    assert forall|c: CategoryView| #[trigger] filter.contains(FilterOptionView::Category(c)) implies (if map_has_category(m, c) {
        exists|k: i64|
            #![trigger m.contains_key(k)]
            m.contains_key(k) && m[k]@ == c && (w == "WHERE "@ + category_condition(k as int)
                || exists|rest: Seq<char>| w == "WHERE "@ + category_condition(k as int) + " AND "@ + rest)
    } else {
        w == "WHERE 0"@
    }) by {
        assert(crate::filters::is_category_option(FilterOptionView::Category(c)));
        assert(has_category(filter));
        if map_has_category(m, c) {
            let k = choose|k: i64| m.contains_key(k) && m[k]@ == c && cp == category_part_prefix()
                + signed_decimal(k as int);
            assert(cp.len() > 0);
            if has_text(filter) {
                assert(w == "WHERE "@ + category_condition(k as int) + " AND "@ + tp);
            }
        }
    }
}

/// The `WHERE` clause of the query for a filter's events: its category (by id in the
/// category map) and its text; month-days are left to the filter.
pub fn make_where_clause(filter: &EventFilter, category_map: &HashMap<i64, Category>) -> (r: Result<
    String,
    EventProviderError,
>)
    ensures
        r matches Ok(w) && exists|cp: Seq<char>, tp: Seq<char>|
            #![trigger is_category_part(filter@, category_map@, cp), is_text_part(filter@, tp)]
            is_category_part(filter@, category_map@, cp) && is_text_part(filter@, tp) && w@
                == where_clause_text(has_category(filter@), cp, has_text(filter@), tp),
        // The clause keeps every row that the filter accepts on category and text.
        forall|id: i64, desc: Seq<char>|
            #[trigger] row_passes_category_and_text(filter@, category_map@, id, desc) && category_id_unique(
                category_map@,
                id,
            ) ==> (r matches Ok(w) && clause_selects(w@, id as int, desc)),
        // With a category, the clause asks for an id that holds it, or selects nothing.
        forall|c: CategoryView|
            #[trigger] filter@.contains(FilterOptionView::Category(c)) ==> (r matches Ok(w) && if map_has_category(
                category_map@,
                c,
            ) {
                exists|k: i64|
                    #![trigger category_map@.contains_key(k)]
                    category_map@.contains_key(k) && category_map@[k]@ == c && (w@ == "WHERE "@
                        + category_condition(k as int) || exists|rest: Seq<char>| w@ == "WHERE "@
                        + category_condition(k as int) + " AND "@ + rest)
            } else {
                w@ == "WHERE 0"@
            }),
{
    let has_cat = filter.contains_category();
    let has_txt = filter.contains_text();
    let category_part = make_category_part(filter, category_map);
    let text_part = make_text_part(filter);
    let ghost cp = category_part@;
    let ghost tp = text_part@;
    if has_cat && category_part.as_str().is_empty() {
        let result = owned("WHERE 0");
        proof {
            assert(result@ == where_clause_text(has_cat, cp, has_txt, tp));
            assert forall|id: i64, desc: Seq<char>|
                #[trigger] row_passes_category_and_text(filter@, category_map@, id, desc) && category_id_unique(
                    category_map@,
                    id,
                ) implies clause_selects(result@, id as int, desc) by {
                lemma_where_clause_selects(filter@, category_map@, cp, tp, id, desc);
            }
            lemma_where_clause_selects(filter@, category_map@, cp, tp, 0, Seq::empty());
        }
        return Ok(result);
    }
    let mut result = String::new();
    if has_cat || has_txt {
        result.append("WHERE ");
        if has_cat {
            result.append(category_part.as_str());
            if has_txt {
                result.append(" AND ");
                result.append(text_part.as_str());
            }
        } else {
            result.append(text_part.as_str());
        }
    }
    proof {
        assert(result@ =~= where_clause_text(has_cat, cp, has_txt, tp));
        assert forall|id: i64, desc: Seq<char>|
            #[trigger] row_passes_category_and_text(filter@, category_map@, id, desc) && category_id_unique(
                category_map@,
                id,
            ) implies clause_selects(result@, id as int, desc) by {
            lemma_where_clause_selects(filter@, category_map@, cp, tp, id, desc);
        }
        lemma_where_clause_selects(filter@, category_map@, cp, tp, 0, Seq::empty());
    }
    Ok(result)
}

pub open spec fn category_insert_head() -> Seq<char> {
    "INSERT INTO category (primary_name, secondary_name)\n                    VALUES ('"@
}

pub open spec fn returning_category_id() -> Seq<char> {
    ")\n                    RETURNING category_id"@
}

/// The query for the events of an SQLite provider, narrowed by a `WHERE` clause when
/// there is one.
pub open spec fn event_query_text(where_clause: Seq<char>) -> Seq<char> {
    let head = "SELECT event_date, event_description, category_id FROM event"@;
    if where_clause.len() == 0 {
        head
    } else {
        head + seq![' '] + where_clause
    }
}

/// The query for the events of an SQLite provider.
pub fn event_query(where_clause: &str) -> (r: String)
    ensures
        r@ == event_query_text(where_clause@),
{
    let mut r = owned("SELECT event_date, event_description, category_id FROM event");
    if !where_clause.is_empty() {
        r.append(" ");
        r.append(where_clause);
        proof {
            reveal_strlit(" ");
            assert(r@ =~= event_query_text(where_clause@));
        }
    }
    r
}

/// The SQL that adds a category and returns its id; an empty secondary name is stored
/// as `NULL`.
pub open spec fn category_insert_text(c: CategoryView) -> Seq<char> {
    if secondary_text(c).len() == 0 {
        category_insert_head() + c.primary + "', NULL"@ + returning_category_id()
    } else {
        category_insert_head() + c.primary + "', '"@ + secondary_text(c) + "'"@
            + returning_category_id()
    }
}

/// The SQL that adds `category` to the category table and returns its id.
pub fn insert_category_query(category: &Category) -> (r: String)
    ensures
        r@ == category_insert_text(category@),
{
    let primary = category.primary();
    let secondary = category.secondary();
    let mut r = owned("INSERT INTO category (primary_name, secondary_name)\n                    VALUES ('");
    r.append(primary.as_str());
    if secondary.as_str().is_empty() {
        r.append("', NULL");
    } else {
        r.append("', '");
        r.append(secondary.as_str());
        r.append("'");
    }
    r.append(")\n                    RETURNING category_id");
    r
}

/// The SQL that adds an event with the given date text, description and category id.
pub open spec fn event_insert_text(date: Seq<char>, description: Seq<char>, category_id: int) -> Seq<char> {
    "INSERT INTO event (event_date, event_description, category_id)\n            VALUES ('"@ + date
        + "', '"@ + description + "', "@ + signed_decimal(category_id) + ")"@
}

/// The SQL that adds an event to the event table.
pub fn insert_event_query(date: &str, description: &str, category_id: i64) -> (r: String)
    ensures
        r@ == event_insert_text(date@, description@, category_id as int),
{
    let mut r = owned(
        "INSERT INTO event (event_date, event_description, category_id)\n            VALUES ('",
    );
    r.append(date);
    r.append("', '");
    r.append(description);
    r.append("', ");
    r.append(i64_text(category_id).as_str());
    r.append(")");
    r
}

// ---------------------------------------------------------------------------
// The providers themselves: a name and where their events are
// ---------------------------------------------------------------------------

/// `std::path::PathBuf`, declared so that a provider can hold the path of its file.
/// Nothing is claimed of it: a path is carried through, never looked into.
#[verifier::external_type_specification]
#[verifier::external_body]
pub struct ExPathBuf(std::path::PathBuf);

/// A provider that reads and adds events in a text file of four-line records.
pub struct TextFileProvider {
    name: String,
    path: std::path::PathBuf,
}

impl TextFileProvider {
    pub closed spec fn name_text(&self) -> Seq<char> {
        self.name@
    }

    pub closed spec fn file_path(&self) -> std::path::PathBuf {
        self.path
    }

    pub fn new(name: &str, path: std::path::PathBuf) -> (r: TextFileProvider)
        ensures
            r.name_text() == name@,
            r.file_path() == path,
    {
        TextFileProvider { name: name.to_string(), path }
    }

    pub fn name(&self) -> (r: String)
        ensures
            r@ == self.name_text(),
    {
        self.name.clone()
    }

    pub fn path(&self) -> (r: &std::path::PathBuf)
        ensures
            *r == self.file_path(),
    {
        &self.path
    }

    /// A text file takes new events.
    pub fn is_add_supported(&self) -> (r: bool)
        ensures
            r,
    {
        true
    }
}

/// A provider that reads and adds events in a CSV file of `date,description,category` rows.
pub struct CSVFileProvider {
    name: String,
    path: std::path::PathBuf,
}

impl CSVFileProvider {
    pub closed spec fn name_text(&self) -> Seq<char> {
        self.name@
    }

    pub closed spec fn file_path(&self) -> std::path::PathBuf {
        self.path
    }

    pub fn new(name: &str, path: std::path::PathBuf) -> (r: CSVFileProvider)
        ensures
            r.name_text() == name@,
            r.file_path() == path,
    {
        CSVFileProvider { name: name.to_string(), path }
    }

    pub fn name(&self) -> (r: String)
        ensures
            r@ == self.name_text(),
    {
        self.name.clone()
    }

    pub fn path(&self) -> (r: &std::path::PathBuf)
        ensures
            *r == self.file_path(),
    {
        &self.path
    }

    /// A CSV file takes new events.
    pub fn is_add_supported(&self) -> (r: bool)
        ensures
            r,
    {
        true
    }
}

/// A provider that reads and adds events in an SQLite database.
pub struct SQLiteProvider {
    name: String,
    path: std::path::PathBuf,
}

/// A row of the category table: its id, primary name and optional secondary name.
pub type CategoryRow = (i64, String, Option<String>);

/// The category that a row of the category table stands for.
pub open spec fn row_category(row: CategoryRow) -> CategoryView {
    CategoryView {
        primary: row.1@,
        secondary: match row.2 {
            Some(s) => Some(s@),
            None => None,
        },
    }
}

/// The category map that the rows make, read in order: each id holds the category of
/// the last row with that id.
pub open spec fn categories_of_rows(rows: Seq<CategoryRow>) -> Map<i64, CategoryView>
    decreases rows.len(),
{
    if rows.len() == 0 {
        Map::empty()
    } else {
        categories_of_rows(rows.drop_last()).insert(rows.last().0, row_category(rows.last()))
    }
}

impl SQLiteProvider {
    pub closed spec fn name_text(&self) -> Seq<char> {
        self.name@
    }

    pub closed spec fn file_path(&self) -> std::path::PathBuf {
        self.path
    }

    pub fn new(name: &str, path: std::path::PathBuf) -> (r: SQLiteProvider)
        ensures
            r.name_text() == name@,
            r.file_path() == path,
    {
        SQLiteProvider { name: name.to_string(), path }
    }

    pub fn name(&self) -> (r: String)
        ensures
            r@ == self.name_text(),
    {
        self.name.clone()
    }

    pub fn path(&self) -> (r: &std::path::PathBuf)
        ensures
            *r == self.file_path(),
    {
        &self.path
    }

    /// A database takes new events.
    pub fn is_add_supported(&self) -> (r: bool)
        ensures
            r,
    {
        true
    }

    /// The category map made from the rows of the category table, in the order read.
    pub fn get_categories(&self, rows: &Vec<CategoryRow>) -> (r: HashMap<i64, Category>)
        ensures
            r@.dom() == categories_of_rows(rows@).dom(),
            forall|id: i64| #[trigger] r@.contains_key(id) ==> r@[id]@ == categories_of_rows(rows@)[id],
    {
        broadcast use vstd::std_specs::hash::group_hash_axioms;
        let mut category_map: HashMap<i64, Category> = HashMap::new();
        let mut i: usize = 0;
        while i < rows.len()
            invariant
                i <= rows@.len(),
                category_map@.dom() == categories_of_rows(rows@.take(i as int)).dom(),
                forall|id: i64| #[trigger] category_map@.contains_key(id)
                    ==> category_map@[id]@ == categories_of_rows(rows@.take(i as int))[id],
            decreases rows@.len() - i,
        {
            let (id, primary, secondary) = &rows[i];
            let category = match secondary {
                Some(sec) => Category::new(primary.as_str(), sec.as_str()),
                None => Category::from_primary(primary.as_str()),
            };
            proof {
                assert(rows@.take(i + 1).drop_last() =~= rows@.take(i as int));
                assert(rows@.take(i + 1).last() == rows@[i as int]);
            }
            category_map.insert(*id, category);
            i = i + 1;
        }
        assert(rows@.take(rows@.len() as int) =~= rows@);
        category_map
    }
}

/// A provider that asks a web service for the events of a day.
pub struct WebProvider {
    name: String,
    url: String,
}

impl WebProvider {
    pub closed spec fn name_text(&self) -> Seq<char> {
        self.name@
    }

    pub closed spec fn url_text(&self) -> Seq<char> {
        self.url@
    }

    pub fn new(name: &str, url: &str) -> (r: WebProvider)
        ensures
            r.name_text() == name@,
            r.url_text() == url@,
    {
        WebProvider { name: name.to_string(), url: url.to_string() }
    }

    pub fn name(&self) -> (r: String)
        ensures
            r@ == self.name_text(),
    {
        self.name.clone()
    }

    /// The request URL for the filter's month-day; a filter without one is refused.
    pub fn request_url(&self, filter: &EventFilter) -> (r: Result<String, EventProviderError>)
        ensures
            r matches Ok(u) ==> forall|md: crate::events::MonthDayView|
                #[trigger] filter@.contains(FilterOptionView::MonthDay(md)) ==> md.month >= 0 && md.day
                    >= 0 && u@ == web_request_text(self.url_text(), md.month, md.day),
            r is Err <==> !has_month_day(filter@),
            r matches Err(e) ==> e@ == EventProviderErrorView::Parse("missing month-day filter"@),
    {
        match filter.month_day() {
            Some(md) => {
                let mut u = joined(self.url.as_str(), "?date=");
                u.append(u32_text_pad2(md.month()).as_str());
                u.append("-");
                u.append(u32_text_pad2(md.day()).as_str());
                proof {
                    reveal_strlit("-");
                    assert(u@ =~= web_request_text(self.url@, md@.month, md@.day));
                    assert(crate::filters::is_month_day_option(FilterOptionView::MonthDay(md@)));
                }
                Ok(u)
            },
            None => Err(EventProviderError::Parse(owned("missing month-day filter"))),
        }
    }

    /// A web service only hands out events.
    pub fn is_add_supported(&self) -> (r: bool)
        ensures
            !r,
    {
        false
    }
}

} // verus!
