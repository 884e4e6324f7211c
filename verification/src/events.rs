//! Events: what happens on a date, on a day of every year, or on a rule such as
//! "first monday of june"; their categories; and how they are read from text.

use vstd::prelude::*;
use vstd::utf8::is_char_boundary;
use vstd::string::StringSliceAdditionalSpecFns;
use crate::text::{
    parse_u32, parse_u32_spec, split, split_on, decimal, signed_decimal, signed_zero_padded,
    has_prefix, replace_all, starts_with, replace, u32_text, i32_text, i32_text_pad4, split_whitespace, words, same_text, to_lowercase,
    unicode_lowercase, ascii_lower, eq_ignore_ascii_case, text_eq_ignore_ascii_case, all_ascii,
    zero_padded, ascii_bytes, lemma_parse_zero_padded, lemma_decimal_below_100,
};
use crate::calendar::{
    Date, DateView, iso_date_text, chrono_date_parse, valid_ymd, weekday_from_monday, days_in_month_of, lemma_weekday_next_day, MIN_YEAR, MAX_YEAR,
    chrono_parse_weekday, chrono_parse_month, chrono_weekday_text, chrono_month_text,
    weekday_from_name, month_from_name, weekday_display_name, month_debug_name,
};

verus! {

// ---------------------------------------------------------------------------
// Month-day
// ---------------------------------------------------------------------------

/// The largest day number that a month may have in some year (February: 29).
pub open spec fn max_day_of_month(month: int) -> int {
    if month == 4 || month == 6 || month == 9 || month == 11 {
        30
    } else if month == 2 {
        29
    } else {
        31
    }
}

fn days_in_month(month: u32) -> (r: u32)
    ensures
        r == max_day_of_month(month as int),
{
    if month == 4 || month == 6 || month == 9 || month == 11 {
        30
    } else if month == 2 {
        29
    } else {
        31
    }
}

/// The mathematical value of a month-day.
pub struct MonthDayView {
    pub month: int,
    pub day: int,
}

/// A day of the year, as month and day, without a year.
#[derive(Clone, Copy, Debug, PartialEq, Eq, Structural, Hash)]
pub struct MonthDay {
    month: u32,
    day: u32,
}

impl View for MonthDay {
    type V = MonthDayView;

    closed spec fn view(&self) -> MonthDayView {
        MonthDayView { month: self.month as int, day: self.day as int }
    }
}

/// Two month-days with the same month and day are the same value.
pub proof fn lemma_month_day_view_injective(a: MonthDay, b: MonthDay)
    requires
        a@ == b@,
    ensures
        a == b,
{
}

/// The message for a month-day text that is not four bytes long.
pub open spec fn mmdd_length_message() -> Seq<char> {
    "MonthDay string must be exactly 4 characters in MMDD format"@
}

pub open spec fn invalid_month_message() -> Seq<char> {
    "Invalid month"@
}

pub open spec fn invalid_day_message() -> Seq<char> {
    "Invalid day"@
}

pub open spec fn mm_dd_format_message() -> Seq<char> {
    "Expected date in MM-DD format"@
}

/// What `MonthDay::from_str` gives for the UTF-8 bytes `b`: two bytes of month
/// (1 to 12), then two bytes of day (1 to the month's largest day).
pub open spec fn mmdd_result(b: Seq<u8>) -> Result<(int, int), Seq<char>> {
    if b.len() != 4 {
        Err(mmdd_length_message())
    } else {
        match parse_u32_spec(b.subrange(0, 2)) {
            None => Err(invalid_month_message()),
            Some(m) => if m == 0 || m > 12 {
                Err(invalid_month_message())
            } else {
                match parse_u32_spec(b.subrange(2, 4)) {
                    None => Err(invalid_day_message()),
                    Some(d) => if d == 0 || d > max_day_of_month(m as int) {
                        Err(invalid_day_message())
                    } else {
                        Ok((m as int, d as int))
                    },
                }
            },
        }
    }
}

/// What `MonthDay::from_str_split` gives for the text `s`: a month up to 12, `-`, and a
/// day up to the month's largest day; zero is let through for either.
pub open spec fn mm_dd_result(s: Seq<char>) -> Result<(int, int), Seq<char>> {
    let parts = split_on(s, '-');
    if parts.len() != 2 {
        Err(mm_dd_format_message())
    } else {
        match parse_u32_spec(vstd::utf8::encode_utf8(parts[0])) {
            None => Err(invalid_month_message()),
            Some(m) => if m > 12 {
                Err(invalid_month_message())
            } else {
                match parse_u32_spec(vstd::utf8::encode_utf8(parts[1])) {
                    None => Err(invalid_day_message()),
                    Some(d) => if d > max_day_of_month(m as int) {
                        Err(invalid_day_message())
                    } else {
                        Ok((m as int, d as int))
                    },
                }
            },
        }
    }
}

/// A month and day written as `MMDD`: two digits each.
pub open spec fn mmdd_text(month: int, day: int) -> Seq<char> {
    zero_padded(month as nat, 2) + zero_padded(day as nat, 2)
}

/// A month and day written as `MM-DD`: two digits each, joined by `-`.
pub open spec fn mm_dd_text(month: int, day: int) -> Seq<char> {
    zero_padded(month as nat, 2) + seq!['-'] + zero_padded(day as nat, 2)
}

/// The `MMDD` text of a month-day is read back as that month-day.
proof fn lemma_mmdd_text_reads_back(m: int, d: int)
    requires
        1 <= m <= 12,
        1 <= d <= max_day_of_month(m),
    ensures
        mmdd_result(vstd::utf8::encode_utf8(mmdd_text(m, d))) == Ok::<(int, int), Seq<char>>((m, d)),
{
    let a = zero_padded(m as nat, 2);
    let b = zero_padded(d as nat, 2);
    lemma_decimal_below_100(m as nat);
    lemma_decimal_below_100(d as nat);
    lemma_parse_zero_padded(m as nat, 2);
    lemma_parse_zero_padded(d as nat, 2);
    crate::text::lemma_zero_padded_digits(m as nat, 2);
    crate::text::lemma_zero_padded_digits(d as nat, 2);
    let t = mmdd_text(m, d);
    assert(vstd::utf8::is_ascii_chars(t)) by {
        assert forall|i: int| 0 <= i < t.len() implies '\0' <= #[trigger] t[i] <= '\u{7f}' by {
            if i < 2 {
                assert(crate::text::is_digit_char(a[i]));
            } else {
                assert(crate::text::is_digit_char(b[i - 2]));
            }
        }
    }
    vstd::utf8::is_ascii_chars_encode_utf8(t);
    let bytes = vstd::utf8::encode_utf8(t);
    assert(bytes =~= ascii_bytes(a) + ascii_bytes(b));
    assert(bytes.subrange(0, 2) =~= ascii_bytes(a));
    assert(bytes.subrange(2, 4) =~= ascii_bytes(b));
}

/// The `MM-DD` text of a month and day is read back as that month and day.
proof fn lemma_mm_dd_text_reads_back(m: int, d: int)
    requires
        0 <= m <= 12,
        0 <= d <= max_day_of_month(m),
    ensures
        mm_dd_result(mm_dd_text(m, d)) == Ok::<(int, int), Seq<char>>((m, d)),
{
    let a = zero_padded(m as nat, 2);
    let b = zero_padded(d as nat, 2);
    lemma_parse_zero_padded(m as nat, 2);
    lemma_parse_zero_padded(d as nat, 2);
    crate::text::lemma_zero_padded_digits(m as nat, 2);
    crate::text::lemma_zero_padded_digits(d as nat, 2);
    let t = mm_dd_text(m, d);
    assert forall|i: int| 0 <= i < a.len() implies t[i] != '-' by {
        assert(t[i] == a[i]);
        assert(crate::text::is_digit_char(a[i]));
    }
    lemma_index_of_first(t, '-', 0, a.len() as int);
    assert forall|i: int| a.len() + 1 <= i < t.len() implies t[i] != '-' by {
        assert(t[i] == b[i - a.len() - 1]);
        assert(crate::text::is_digit_char(b[i - a.len() - 1]));
    }
    lemma_index_of_absent(t, '-', a.len() + 1int);
    reveal_with_fuel(crate::text::split_from, 3);
    assert(t.subrange(0, a.len() as int) =~= a);
    assert(t.subrange(a.len() + 1int, t.len() as int) =~= b);
    assert(split_on(t, '-') =~= seq![a, b]);
}

/// An owned string with the characters of `s`.
fn owned(s: &str) -> (r: String)
    ensures
        r@ == s@,
{
    s.to_owned()
}

impl MonthDay {
    pub fn new(month: u32, day: u32) -> (r: MonthDay)
        ensures
            r@ == (MonthDayView { month: month as int, day: day as int }),
    {
        MonthDay { month, day }
    }

    /// Parses `MMDD`: exactly four bytes, a month from 1 to 12 and a day from 1 to the
    /// month's largest day (February has 29).
    pub fn from_str(s: &str) -> (r: Result<MonthDay, String>)
        requires
            s.spec_bytes().len() == 4 ==> is_char_boundary(s.spec_bytes(), 2),
        ensures
            r matches Ok(md) ==> mmdd_result(s.spec_bytes()) == Ok::<(int, int), Seq<char>>(
                (md@.month, md@.day),
            ),
            r matches Err(e) ==> mmdd_result(s.spec_bytes()) == Err::<(int, int), Seq<char>>(
                e@,
            ),
            // The `MMDD` text of a month-day is read back as that month-day.
            forall|m: int, d: int|
                #![trigger mmdd_text(m, d)]
                1 <= m <= 12 && 1 <= d <= max_day_of_month(m) && s@ == mmdd_text(m, d) ==> (r matches Ok(
                    md,
                ) && md@ == (MonthDayView { month: m, day: d })),
    {
        proof {
            assert forall|m: int, d: int|
                #![trigger mmdd_text(m, d)]
                1 <= m <= 12 && 1 <= d <= max_day_of_month(m) && s@ == mmdd_text(m, d) implies mmdd_result(
                    s.spec_bytes(),
                ) == Ok::<(int, int), Seq<char>>((m, d)) by {
                lemma_mmdd_text_reads_back(m, d);
            }
        }
        let b = s.as_bytes();
        if b.len() != 4 {
            return Err(owned("MonthDay string must be exactly 4 characters in MMDD format"));
        }
        let month = match parse_u32(b, 0, 2) {
            Some(m) => m,
            None => return Err(owned("Invalid month")),
        };
        if month == 0 || month > 12 {
            return Err(owned("Invalid month"));
        }
        let day = match parse_u32(b, 2, 4) {
            Some(d) => d,
            None => return Err(owned("Invalid day")),
        };
        if day == 0 || day > days_in_month(month) {
            return Err(owned("Invalid day"));
        }
        Ok(MonthDay { month, day })
    }

    /// Parses `MM-DD`: a month up to 12 and a day up to the month's largest day,
    /// separated by the one `-` of the text.
    pub fn from_str_split(s: &str) -> (r: Result<MonthDay, String>)
        ensures
            r matches Ok(md) ==> mm_dd_result(s@) == Ok::<(int, int), Seq<char>>(
                (md@.month, md@.day),
            ),
            r matches Err(e) ==> mm_dd_result(s@) == Err::<(int, int), Seq<char>>(e@),
            // The `MM-DD` text of a month and day is read back as them.
            forall|m: int, d: int|
                #![trigger mm_dd_text(m, d)]
                0 <= m <= 12 && 0 <= d <= max_day_of_month(m) && s@ == mm_dd_text(m, d) ==> (r matches Ok(
                    md,
                ) && md@ == (MonthDayView { month: m, day: d })),
    {
        proof {
            assert forall|m: int, d: int|
                #![trigger mm_dd_text(m, d)]
                0 <= m <= 12 && 0 <= d <= max_day_of_month(m) && s@ == mm_dd_text(m, d) implies mm_dd_result(
                    s@,
                ) == Ok::<(int, int), Seq<char>>((m, d)) by {
                lemma_mm_dd_text_reads_back(m, d);
            }
        }
        let parts = split(s, '-');
        proof {
            assert(parts@.map_values(|p: String| p@).len() == parts@.len());
        }
        if parts.len() != 2 {
            return Err(owned("Expected date in MM-DD format"));
        }
        assert(parts@.map_values(|p: String| p@)[0] == parts@[0]@);
        assert(parts@.map_values(|p: String| p@)[1] == parts@[1]@);
        let mb = parts[0].as_str().as_bytes();
        assert(mb@.subrange(0, mb@.len() as int) =~= vstd::utf8::encode_utf8(parts@[0]@));
        let month = match parse_u32(mb, 0, mb.len()) {
            Some(m) => {
                if m > 12 {
                    return Err(owned("Invalid month"));
                }
                m
            },
            None => return Err(owned("Invalid month")),
        };
        let db = parts[1].as_str().as_bytes();
        assert(db@.subrange(0, db@.len() as int) =~= vstd::utf8::encode_utf8(parts@[1]@));
        let day = match parse_u32(db, 0, db.len()) {
            Some(d) => {
                if d > days_in_month(month) {
                    return Err(owned("Invalid day"));
                }
                d
            },
            None => return Err(owned("Invalid day")),
        };
        Ok(MonthDay { month, day })
    }

    pub fn month(&self) -> (r: u32)
        ensures
            r == self@.month,
    {
        self.month
    }

    pub fn day(&self) -> (r: u32)
        ensures
            r == self@.day,
    {
        self.day
    }
}


// ---------------------------------------------------------------------------
// Category
// ---------------------------------------------------------------------------

/// The mathematical value of a category.
pub struct CategoryView {
    pub primary: Seq<char>,
    pub secondary: Option<Seq<char>>,
}

/// A category such as `programming/rust`: a primary name and an optional secondary one.
#[derive(Debug, Hash)]
pub struct Category {
    primary: String,
    secondary: Option<String>,
}

impl View for Category {
    type V = CategoryView;

    closed spec fn view(&self) -> CategoryView {
        CategoryView {
            primary: self.primary@,
            secondary: match &self.secondary {
                Some(sec) => Some(sec@),
                None => None,
            },
        }
    }
}

/// The category that `Category::from_str` reads from `s`: the text before the first `/`,
/// and, when there is a `/`, the text between it and the next `/` (or the end).
pub open spec fn category_from_text(s: Seq<char>) -> CategoryView {
    let parts = split_on(s, '/');
    CategoryView {
        primary: parts[0],
        secondary: if parts.len() < 2 { None } else { Some(parts[1]) },
    }
}

/// The text that a category is displayed as: `primary/secondary`, or `primary` alone.
pub open spec fn category_text(c: CategoryView) -> Seq<char> {
    match c.secondary {
        Some(sec) => c.primary + seq!['/'] + sec,
        None => c.primary,
    }
}

/// The text of an optional secondary name; none reads as the empty text.
pub open spec fn secondary_text(c: CategoryView) -> Seq<char> {
    match c.secondary {
        Some(sec) => sec,
        None => Seq::empty(),
    }
}

fn copy_optional(s: &Option<String>) -> (r: Option<String>)
    ensures
        match (r, *s) {
            (Some(a), Some(b)) => a@ == b@,
            (None, None) => true,
            _ => false,
        },
{
    match s {
        Some(x) => Some(x.clone()),
        None => None,
    }
}

impl Clone for Category {
    fn clone(&self) -> (r: Category)
        ensures
            r@ == self@,
    {
        Category { primary: self.primary.clone(), secondary: copy_optional(&self.secondary) }
    }
}

impl PartialEq for Category {
    fn eq(&self, other: &Category) -> (r: bool) {
        let same_secondary = match (&self.secondary, &other.secondary) {
            (Some(a), Some(b)) => a.eq(b),
            (None, None) => true,
            _ => false,
        };
        self.primary.eq(&other.primary) && same_secondary
    }
}

impl vstd::std_specs::cmp::PartialEqSpecImpl for Category {
    open spec fn obeys_eq_spec() -> bool {
        true
    }

    open spec fn eq_spec(&self, other: &Category) -> bool {
        self@ == other@
    }
}

impl Eq for Category {
}

impl Category {
    pub fn new(primary: &str, secondary: &str) -> (r: Category)
        ensures
            r@ == (CategoryView { primary: primary@, secondary: Some(secondary@) }),
    {
        Category { primary: owned(primary), secondary: Some(owned(secondary)) }
    }

    pub fn from_primary(primary: &str) -> (r: Category)
        ensures
            r@ == (CategoryView { primary: primary@, secondary: None }),
    {
        Category { primary: owned(primary), secondary: None }
    }

    /// Reads `primary[/secondary]`; text after a second `/` is dropped.
    pub fn from_str(s: &str) -> (r: Category)
        ensures
            r@ == category_from_text(s@),
    {
        let parts = split(s, '/');
        proof {
            lemma_split_nonempty(s@, '/');
            assert(parts@.map_values(|p: String| p@).len() == parts@.len());
            assert(parts@.map_values(|p: String| p@)[0] == parts@[0]@);
        }
        if parts.len() < 2 {
            Category { primary: parts[0].clone(), secondary: None }
        } else {
            assert(parts@.map_values(|p: String| p@)[1] == parts@[1]@);
            Category { primary: parts[0].clone(), secondary: Some(parts[1].clone()) }
        }
    }

    pub fn primary(&self) -> (r: String)
        ensures
            r@ == self@.primary,
    {
        self.primary.clone()
    }

    /// The secondary name, or the empty text when there is none.
    pub fn secondary(&self) -> (r: String)
        ensures
            r@ == secondary_text(self@),
    {
        match &self.secondary {
            Some(sec) => sec.clone(),
            None => String::new(),
        }
    }

    /// The category as it is displayed: `primary/secondary`, or `primary` alone.
    pub fn to_string(&self) -> (r: String)
        ensures
            r@ == category_text(self@),
    {
        let mut r = self.primary.clone();
        match &self.secondary {
            Some(sec) => {
                r.append("/");
                proof { reveal_strlit("/"); }
                r.append(sec.as_str());
            },
            None => {},
        }
        r
    }
}

/// `str::split` always yields at least one piece.
pub proof fn lemma_split_nonempty(s: Seq<char>, c: char)
    ensures
        split_on(s, c).len() >= 1,
{
    crate::text::lemma_index_of_from(s, c, 0);
    reveal_with_fuel(crate::text::split_from, 2);
}

/// Neither name of the category holds a `/`, so its text reads back as the category.
pub open spec fn category_names_without_slash(c: CategoryView) -> bool {
    &&& !c.primary.contains('/')
    &&& c.secondary matches Some(sec) ==> !sec.contains('/')
}

proof fn lemma_index_of_absent(s: Seq<char>, c: char, from: int)
    requires
        0 <= from <= s.len(),
        forall|i: int| from <= i < s.len() ==> s[i] != c,
    ensures
        crate::text::index_of_from(s, c, from) == s.len(),
    decreases s.len() - from,
{
    if from < s.len() {
        lemma_index_of_absent(s, c, from + 1);
    }
}

proof fn lemma_index_of_first(s: Seq<char>, c: char, from: int, at: int)
    requires
        0 <= from <= at < s.len(),
        s[at] == c,
        forall|i: int| from <= i < at ==> s[i] != c,
    ensures
        crate::text::index_of_from(s, c, from) == at,
    decreases at - from,
{
    if from < at {
        lemma_index_of_first(s, c, from + 1, at);
    }
}

/// A category whose names hold no `/` is read back from the text it is displayed as.
pub proof fn lemma_category_text_reads_back(c: CategoryView)
    requires
        category_names_without_slash(c),
    ensures
        category_from_text(category_text(c)) == c,
{
    let p = c.primary;
    let t = category_text(c);
    match c.secondary {
        None => {
            assert forall|i: int| 0 <= i < t.len() implies t[i] != '/' by {
                if t[i] == '/' {
                    assert(p.contains('/'));
                }
            }
            lemma_index_of_absent(t, '/', 0);
            assert(t.subrange(0, t.len() as int) =~= t);
        },
        Some(sec) => {
            assert forall|i: int| 0 <= i < p.len() implies t[i] != '/' by {
                if t[i] == '/' {
                    assert(p[i] == '/');
                    assert(p.contains('/'));
                }
            }
            lemma_index_of_first(t, '/', 0, p.len() as int);
            assert forall|i: int| p.len() + 1 <= i < t.len() implies t[i] != '/' by {
                if t[i] == '/' {
                    assert(sec[i - p.len() - 1] == '/');
                    assert(sec.contains('/'));
                }
            }
            lemma_index_of_absent(t, '/', p.len() + 1int);
            reveal_with_fuel(crate::text::split_from, 3);
            assert(t.subrange(0, p.len() as int) =~= p);
            assert(t.subrange(p.len() + 1int, t.len() as int) =~= sec);
        },
    }
}

/// The categories of a comma-separated list.
pub open spec fn categories_from_list(s: Seq<char>) -> Seq<CategoryView> {
    split_on(s, ',').map_values(|p: Seq<char>| category_from_text(p))
}

/// Reads a comma-separated list of categories, such as `a/b,c/d`.
pub fn parse_excludes(excludes: &str) -> (r: Vec<Category>)
    ensures
        r@.map_values(|c: Category| c@) == categories_from_list(excludes@),
{
    let parts = split(excludes, ',');
    let ghost pieces = parts@.map_values(|p: String| p@);
    let mut categories: Vec<Category> = Vec::new();
    let mut i: usize = 0;
    while i < parts.len()
        invariant
            pieces == parts@.map_values(|p: String| p@),
            pieces == split_on(excludes@, ','),
            i <= parts@.len(),
            categories@.map_values(|c: Category| c@) =~= pieces.subrange(0, i as int).map_values(
                |p: Seq<char>| category_from_text(p),
            ),
        decreases parts@.len() - i,
    {
        let category = Category::from_str(parts[i].as_str());
        assert(pieces[i as int] == parts@[i as int]@);
        let ghost before = categories@.map_values(|c: Category| c@);
        categories.push(category);
        assert(categories@.map_values(|c: Category| c@) =~= before.push(category@));
        assert(pieces.subrange(0, i + 1) =~= pieces.subrange(0, i as int).push(pieces[i as int]));
        i = i + 1;
    }
    assert(pieces.subrange(0, i as int) =~= pieces);
    categories
}


// ---------------------------------------------------------------------------
// Ordinals and weekdays
// ---------------------------------------------------------------------------

/// Which occurrence of a weekday in a month a rule means.
#[derive(Debug, Clone, Copy, PartialEq, Eq, PartialOrd, Ord, Structural, Hash)]
pub enum Ordinal {
    First,
    Second,
    Third,
    Fourth,
    Last,
}

/// The number of an ordinal: 1 for `First` up to 5 for `Last`.
pub open spec fn ordinal_number(o: Ordinal) -> int {
    match o {
        Ordinal::First => 1,
        Ordinal::Second => 2,
        Ordinal::Third => 3,
        Ordinal::Fourth => 4,
        Ordinal::Last => 5,
    }
}

/// The name an ordinal is displayed with.
pub open spec fn ordinal_display_name(o: Ordinal) -> Seq<char> {
    match o {
        Ordinal::First => seq!['F', 'i', 'r', 's', 't'],
        Ordinal::Second => seq!['S', 'e', 'c', 'o', 'n', 'd'],
        Ordinal::Third => seq!['T', 'h', 'i', 'r', 'd'],
        Ordinal::Fourth => seq!['F', 'o', 'u', 'r', 't', 'h'],
        Ordinal::Last => seq!['L', 'a', 's', 't'],
    }
}

/// The ordinal whose name `s` is, in any ASCII letter case.
pub open spec fn ordinal_from_name(s: Seq<char>) -> Option<Ordinal> {
    if eq_ignore_ascii_case(s, ordinal_display_name(Ordinal::First)) {
        Some(Ordinal::First)
    } else if eq_ignore_ascii_case(s, ordinal_display_name(Ordinal::Second)) {
        Some(Ordinal::Second)
    } else if eq_ignore_ascii_case(s, ordinal_display_name(Ordinal::Third)) {
        Some(Ordinal::Third)
    } else if eq_ignore_ascii_case(s, ordinal_display_name(Ordinal::Fourth)) {
        Some(Ordinal::Fourth)
    } else if eq_ignore_ascii_case(s, ordinal_display_name(Ordinal::Last)) {
        Some(Ordinal::Last)
    } else {
        None
    }
}

impl Ordinal {
    pub fn number(&self) -> (r: i32)
        ensures
            r == ordinal_number(*self),
    {
        match self {
            Ordinal::First => 1,
            Ordinal::Second => 2,
            Ordinal::Third => 3,
            Ordinal::Fourth => 4,
            Ordinal::Last => 5,
        }
    }

    /// The ordinal's name, such as `First`.
    pub fn to_string(&self) -> (r: String)
        ensures
            r@ == ordinal_display_name(*self),
    {
        proof {
            reveal_strlit("First");
            reveal_strlit("Second");
            reveal_strlit("Third");
            reveal_strlit("Fourth");
            reveal_strlit("Last");
        }
        match self {
            Ordinal::First => owned("First"),
            Ordinal::Second => owned("Second"),
            Ordinal::Third => owned("Third"),
            Ordinal::Fourth => owned("Fourth"),
            Ordinal::Last => owned("Last"),
        }
    }

    /// Reads an ordinal's name, in any ASCII letter case.
    pub fn from_str(s: &str) -> (r: Option<Ordinal>)
        ensures
            r == ordinal_from_name(s@),
    {
        proof {
            reveal_strlit("First");
            reveal_strlit("Second");
            reveal_strlit("Third");
            reveal_strlit("Fourth");
            reveal_strlit("Last");
            assert("First"@ =~= ordinal_display_name(Ordinal::First));
            assert("Second"@ =~= ordinal_display_name(Ordinal::Second));
            assert("Third"@ =~= ordinal_display_name(Ordinal::Third));
            assert("Fourth"@ =~= ordinal_display_name(Ordinal::Fourth));
            assert("Last"@ =~= ordinal_display_name(Ordinal::Last));
        }
        if text_eq_ignore_ascii_case(s, "First") {
            Some(Ordinal::First)
        } else if text_eq_ignore_ascii_case(s, "Second") {
            Some(Ordinal::Second)
        } else if text_eq_ignore_ascii_case(s, "Third") {
            Some(Ordinal::Third)
        } else if text_eq_ignore_ascii_case(s, "Fourth") {
            Some(Ordinal::Fourth)
        } else if text_eq_ignore_ascii_case(s, "Last") {
            Some(Ordinal::Last)
        } else {
            None
        }
    }
}

/// A day of the week.
#[derive(Debug, Clone, Copy, PartialEq, Eq, PartialOrd, Ord, Structural, Hash)]
pub enum Weekday {
    Monday,
    Tuesday,
    Wednesday,
    Thursday,
    Friday,
    Saturday,
    Sunday,
}

/// Days from Monday to the weekday.
pub open spec fn weekday_number(w: Weekday) -> int {
    match w {
        Weekday::Monday => 0,
        Weekday::Tuesday => 1,
        Weekday::Wednesday => 2,
        Weekday::Thursday => 3,
        Weekday::Friday => 4,
        Weekday::Saturday => 5,
        Weekday::Sunday => 6,
    }
}

/// The weekday `i` days after Monday (`i` from 0 to 6).
pub open spec fn weekday_of_number(i: int) -> Weekday {
    if i == 0 {
        Weekday::Monday
    } else if i == 1 {
        Weekday::Tuesday
    } else if i == 2 {
        Weekday::Wednesday
    } else if i == 3 {
        Weekday::Thursday
    } else if i == 4 {
        Weekday::Friday
    } else if i == 5 {
        Weekday::Saturday
    } else {
        Weekday::Sunday
    }
}

fn weekday_index(w: Weekday) -> (r: u32)
    ensures
        r == weekday_number(w),
{
    match w {
        Weekday::Monday => 0,
        Weekday::Tuesday => 1,
        Weekday::Wednesday => 2,
        Weekday::Thursday => 3,
        Weekday::Friday => 4,
        Weekday::Saturday => 5,
        Weekday::Sunday => 6,
    }
}

fn weekday_from_index(i: u32) -> (r: Weekday)
    requires
        i < 7,
    ensures
        r == weekday_of_number(i as int),
{
    if i == 0 {
        Weekday::Monday
    } else if i == 1 {
        Weekday::Tuesday
    } else if i == 2 {
        Weekday::Wednesday
    } else if i == 3 {
        Weekday::Thursday
    } else if i == 4 {
        Weekday::Friday
    } else if i == 5 {
        Weekday::Saturday
    } else {
        Weekday::Sunday
    }
}

// ---------------------------------------------------------------------------
// Rules
// ---------------------------------------------------------------------------

/// The mathematical value of a rule.
pub struct RuleView {
    pub ordinal: Ordinal,
    pub weekday: Weekday,
    pub month: int,
}

/// A yearly date given by a rule: the first, second, third, fourth or last given
/// weekday of a month.
#[derive(Debug, Clone, Copy, PartialEq, Eq, Structural)]
pub struct Rule {
    ordinal: Ordinal,
    weekday: Weekday,
    month: u32,
}

impl View for Rule {
    type V = RuleView;

    closed spec fn view(&self) -> RuleView {
        RuleView { ordinal: self.ordinal, weekday: self.weekday, month: self.month as int }
    }
}

/// Two rules with the same ordinal, weekday and month are the same value.
pub proof fn lemma_rule_view_injective(a: Rule, b: Rule)
    requires
        a@ == b@,
    ensures
        a == b,
{
}

/// What `Rule::parse` reads from `s`: after lower-casing, four words: an ordinal, a
/// weekday as `chrono` reads it, `in` or `of`, and a month as `chrono` reads it.
pub open spec fn rule_from_text(s: Seq<char>) -> Option<RuleView> {
    rule_from_words(words(unicode_lowercase(s)))
}

/// The rule that four words give: an ordinal, a weekday as `chrono` reads it, `in` or
/// `of`, and a month as `chrono` reads it.
pub open spec fn rule_from_words(w: Seq<Seq<char>>) -> Option<RuleView> {
    if w.len() != 4 {
        None
    } else {
        match (ordinal_from_name(w[0]), weekday_from_name(w[1]), month_from_name(w[3])) {
            (Some(o), Some(d), Some(m)) => if w[2] == seq!['i', 'n'] || w[2] == seq!['o', 'f'] {
                Some(RuleView { ordinal: o, weekday: weekday_of_number(d), month: m })
            } else {
                None
            },
            _ => None,
        }
    }
}

/// The text a rule is written as: the ordinal in small letters, the weekday as `chrono`
/// displays it, `of`, and the month as `chrono` writes it for `Debug`.
pub open spec fn rule_text(r: RuleView) -> Seq<char> {
    ascii_lower(ordinal_display_name(r.ordinal)) + seq![' '] + weekday_display_name(
        weekday_number(r.weekday),
    ) + seq![' ', 'o', 'f', ' '] + month_debug_name(r.month)
}

// ---------------------------------------------------------------------------
// Weekdays within a month
// ---------------------------------------------------------------------------

/// Day `d` of month `m` in year `y` exists and falls on weekday `w` (counted from Monday).
pub open spec fn day_matches(y: int, m: int, w: int, d: int) -> bool {
    valid_ymd(y, m, d) && weekday_from_monday(y, m, d) == w
}

/// How many of the days `1..=k` of the month fall on weekday `w`.
pub open spec fn matching_days_upto(y: int, m: int, w: int, k: int) -> int
    decreases k,
{
    if k <= 0 {
        0
    } else {
        matching_days_upto(y, m, w, k - 1) + if day_matches(y, m, w, k) { 1int } else { 0int }
    }
}

/// Day `d` is the `n`-th day of the month that falls on weekday `w`.
pub open spec fn is_nth_matching_day(y: int, m: int, w: int, n: int, d: int) -> bool {
    1 <= d <= 31 && day_matches(y, m, w, d) && matching_days_upto(y, m, w, d - 1) == n - 1
}

/// Day `d` is the last day of the month that falls on weekday `w`.
pub open spec fn is_last_matching_day(y: int, m: int, w: int, d: int) -> bool {
    &&& 1 <= d <= 31
    &&& day_matches(y, m, w, d)
    &&& forall|k: int| d < k <= 31 ==> !day_matches(y, m, w, k)
}

/// The day of the month that a rule gives in year `year`, if there is one.
pub open spec fn rule_day(r: RuleView, year: int) -> Option<int> {
    let w = weekday_number(r.weekday);
    if r.ordinal == Ordinal::Last {
        if exists|d: int| is_last_matching_day(year, r.month, w, d) {
            Some(choose|d: int| is_last_matching_day(year, r.month, w, d))
        } else {
            None
        }
    } else {
        let n = ordinal_number(r.ordinal);
        if exists|d: int| is_nth_matching_day(year, r.month, w, n, d) {
            Some(choose|d: int| is_nth_matching_day(year, r.month, w, n, d))
        } else {
            None
        }
    }
}

proof fn lemma_matching_days_monotonic(y: int, m: int, w: int, j: int, k: int)
    requires
        j <= k,
    ensures
        matching_days_upto(y, m, w, j) <= matching_days_upto(y, m, w, k),
    decreases k - j,
{
    if j < k {
        lemma_matching_days_monotonic(y, m, w, j, k - 1);
    }
}

/// At most one day is the `n`-th day of a month on a weekday.
proof fn lemma_nth_matching_day_unique(y: int, m: int, w: int, n: int, d1: int, d2: int)
    requires
        is_nth_matching_day(y, m, w, n, d1),
        is_nth_matching_day(y, m, w, n, d2),
    ensures
        d1 == d2,
{
    if d1 < d2 {
        lemma_matching_days_monotonic(y, m, w, d1, d2 - 1);
    } else if d2 < d1 {
        lemma_matching_days_monotonic(y, m, w, d2, d1 - 1);
    }
}

proof fn lemma_last_matching_day_unique(y: int, m: int, w: int, d1: int, d2: int)
    requires
        is_last_matching_day(y, m, w, d1),
        is_last_matching_day(y, m, w, d2),
    ensures
        d1 == d2,
{
}

/// Looks for the `ordinal`-th day of `month` in `year` that falls on `weekday`.
fn nth_weekday_in_month(year: i32, month: u32, weekday: Weekday, ordinal: Ordinal) -> (r: Option<Date>)
    ensures
        r matches Some(d) ==> d@.year == year && d@.month == month && is_nth_matching_day(
            year as int,
            month as int,
            weekday_number(weekday),
            ordinal_number(ordinal),
            d@.day,
        ),
        r is None ==> forall|d: int|
            !is_nth_matching_day(
                year as int,
                month as int,
                weekday_number(weekday),
                ordinal_number(ordinal),
                d,
            ),
{
    let ghost w = weekday_number(weekday);
    let ghost n = ordinal_number(ordinal);
    let wanted = weekday_index(weekday);
    let target = ordinal.number();
    let mut count: i32 = 0;
    let mut day: u32 = 1;
    while day <= 31
        invariant
            1 <= day <= 32,
            w == wanted,
            n == target,
            w == weekday_number(weekday),
            n == ordinal_number(ordinal),
            1 <= target <= 5,
            0 <= count < target,
            count == matching_days_upto(year as int, month as int, w, day - 1),
        decreases 32 - day,
    {
        if let Some(date) = Date::from_ymd_opt(year, month, day) {
            if date.weekday() == wanted {
                assert(date@.day == day && date@.year == year && date@.month == month);
                assert(day_matches(year as int, month as int, w, day as int));
                count = count + 1;
                if count == target {
                    assert(is_nth_matching_day(year as int, month as int, w, n, date@.day));
                    return Some(date);
                }
            }
        }
        day = day + 1;
    }
    proof {
        assert forall|d: int| !is_nth_matching_day(year as int, month as int, w, n, d) by {
            if is_nth_matching_day(year as int, month as int, w, n, d) {
                lemma_matching_days_monotonic(year as int, month as int, w, d, 31);
            }
        }
    }
    None
}

/// Looks for the last day of `month` in `year` that falls on `weekday`.
fn last_weekday_in_month(year: i32, month: u32, weekday: Weekday) -> (r: Option<Date>)
    ensures
        r matches Some(d) ==> d@.year == year && d@.month == month && is_last_matching_day(
            year as int,
            month as int,
            weekday_number(weekday),
            d@.day,
        ),
        r is None ==> forall|d: int|
            !is_last_matching_day(year as int, month as int, weekday_number(weekday), d),
{
    let ghost w = weekday_number(weekday);
    let wanted = weekday_index(weekday);
    let mut day: u32 = 31;
    while day >= 1
        invariant
            0 <= day <= 31,
            w == wanted,
            w == weekday_number(weekday),
            forall|k: int| day < k <= 31 ==> !day_matches(year as int, month as int, w, k),
        decreases day,
    {
        if let Some(date) = Date::from_ymd_opt(year, month, day) {
            if date.weekday() == wanted {
                return Some(date);
            }
        }
        day = day - 1;
    }
    None
}

/// The weekday of day `d` follows from the weekday of the first day of the month.
proof fn lemma_weekday_in_month(y: int, m: int, d: int)
    requires
        d >= 1,
    ensures
        weekday_from_monday(y, m, d) == (weekday_from_monday(y, m, 1) + d - 1) % 7,
    decreases d,
{
    if d > 1 {
        lemma_weekday_in_month(y, m, d - 1);
        lemma_weekday_next_day(y, m, d - 1);
        let a = weekday_from_monday(y, m, 1);
        let b = weekday_from_monday(y, m, d - 1);
        assert((b + 1) % 7 == (a + d - 1) % 7) by (nonlinear_arith)
            requires
                b == (a + d - 2) % 7,
        ;
    }
}

/// In the first four weeks of a month, each weekday falls once a week: from its first
/// day `d0`, every seventh day.
proof fn lemma_matching_days_count(y: int, m: int, w: int, d0: int, k: int)
    requires
        MIN_YEAR <= y <= MAX_YEAR,
        1 <= m <= 12,
        1 <= d0 <= 7,
        forall|d: int| 1 <= d <= 28 ==> (day_matches(y, m, w, d) <==> (d - d0) % 7 == 0),
        0 <= k <= 28,
    ensures
        matching_days_upto(y, m, w, k) == if k < d0 { 0 } else { (k - d0) / 7 + 1 },
    decreases k,
{
    if k > 0 {
        lemma_matching_days_count(y, m, w, d0, k - 1);
    }
}

/// In a year of `chrono`'s range, every rule gives a day: each weekday falls at least
/// four times in every month.
pub proof fn lemma_rule_day_exists(r: RuleView, year: int)
    requires
        MIN_YEAR <= year <= MAX_YEAR,
        1 <= r.month <= 12,
    ensures
        rule_day(r, year) is Some,
{
    let m = r.month;
    let w = weekday_number(r.weekday);
    let w1 = weekday_from_monday(year, m, 1);
    lemma_weekday_next_day(year, m, 1);
    let d0 = (w - w1 + 7) % 7 + 1;
    assert forall|d: int| 1 <= d <= 28 implies (day_matches(year, m, w, d) <==> (d - d0) % 7 == 0) by {
        lemma_weekday_in_month(year, m, d);
        assert(valid_ymd(year, m, d));
    }
    lemma_weekday_in_month(year, m, d0);
    assert(day_matches(year, m, w, d0));
    if r.ordinal == Ordinal::Last {
        lemma_last_matching_day_exists(year, m, w, 31, d0);
    } else {
        let n = ordinal_number(r.ordinal);
        let dn = d0 + 7 * (n - 1);
        assert((dn - d0) % 7 == 0);
        lemma_matching_days_count(year, m, w, d0, dn - 1);
        assert(is_nth_matching_day(year, m, w, n, dn));
    }
}

proof fn lemma_last_matching_day_exists(y: int, m: int, w: int, k: int, d: int)
    requires
        1 <= d <= k <= 31,
        day_matches(y, m, w, d),
        forall|j: int| k < j <= 31 ==> !day_matches(y, m, w, j),
    ensures
        exists|e: int| is_last_matching_day(y, m, w, e),
    decreases k,
{
    if day_matches(y, m, w, k) {
        assert(is_last_matching_day(y, m, w, k));
    } else {
        lemma_last_matching_day_exists(y, m, w, k - 1, d);
    }
}

/// The ordinal names are read back, also in small letters.
proof fn lemma_ordinal_display_name(o: Ordinal)
    ensures
        ordinal_display_name(o).len() > 0,
        all_ascii(ordinal_display_name(o)),
        crate::text::no_white_space(ascii_lower(ordinal_display_name(o))),
        crate::text::is_ascii_letter(ordinal_display_name(o)[0]),
        ordinal_from_name(ascii_lower(ordinal_display_name(o))) == Some(o),
{
    let l = ascii_lower(ordinal_display_name(o));
    assert(ascii_lower(l) =~= ascii_lower(ordinal_display_name(o)));
    let f = ascii_lower(ordinal_display_name(Ordinal::First));
    let sc = ascii_lower(ordinal_display_name(Ordinal::Second));
    let t = ascii_lower(ordinal_display_name(Ordinal::Third));
    let fo = ascii_lower(ordinal_display_name(Ordinal::Fourth));
    match o {
        Ordinal::First => {},
        Ordinal::Second => {
            assert(l[0] != f[0]);
        },
        Ordinal::Third => {
            assert(l[0] != f[0]);
            assert(l[0] != sc[0]);
        },
        Ordinal::Fourth => {
            assert(l.len() != f.len());
            assert(l[0] != sc[0]);
            assert(l[0] != t[0]);
        },
        Ordinal::Last => {
            assert(l[0] != f[0]);
            assert(l[0] != sc[0]);
            assert(l[0] != t[0]);
            assert(l[0] != fo[0]);
        },
    }
}

/// A rule's text is ASCII, starts with a letter, and reads back as the rule.
pub proof fn lemma_rule_text_reads_back(r: RuleView)
    requires
        1 <= r.month <= 12,
    ensures
        rule_text(r).len() > 0,
        all_ascii(rule_text(r)),
        crate::text::is_ascii_letter(rule_text(r)[0]),
        rule_from_words(words(ascii_lower(rule_text(r)))) == Some(r),
{
    let i = weekday_number(r.weekday);
    lemma_ordinal_display_name(r.ordinal);
    crate::calendar::lemma_weekday_display_name(i);
    crate::calendar::lemma_month_debug_name(r.month);
    let od = ordinal_display_name(r.ordinal);
    let wd = weekday_display_name(i);
    let md = month_debug_name(r.month);
    let a = ascii_lower(od);
    let b = ascii_lower(wd);
    let c = seq!['o', 'f'];
    let d = ascii_lower(md);
    let sp = seq![' '];
    assert(ascii_lower(od) =~= ascii_lower(ascii_lower(od)));
    assert(rule_text(r) =~= ascii_lower(od) + sp + wd + (sp + c + sp) + md);
    assert(ascii_lower(rule_text(r)) =~= a + (sp + (b + (sp + (c + (sp + d))))));
    crate::text::lemma_words_single(d);
    crate::text::lemma_words_skip_space(' ', d);
    crate::text::lemma_words_word_then(c, sp + d);
    crate::text::lemma_words_skip_space(' ', c + (sp + d));
    crate::text::lemma_words_word_then(b, sp + (c + (sp + d)));
    crate::text::lemma_words_skip_space(' ', b + (sp + (c + (sp + d))));
    crate::text::lemma_words_word_then(a, sp + (b + (sp + (c + (sp + d)))));
    let w = words(ascii_lower(rule_text(r)));
    assert(w =~= seq![a, b, c, d]);
    assert(weekday_of_number(i) == r.weekday);
    assert(all_ascii(rule_text(r)));
}

impl Rule {
    #[verifier::type_invariant]
    pub closed spec fn inv(self) -> bool {
        1 <= self.month <= 12
    }

    /// Every rule names a month from 1 to 12.
    pub fn month_number(&self) -> (r: u32)
        ensures
            r == self@.month,
            1 <= r <= 12,
    {
        proof { use_type_invariant(self); }
        self.month
    }

    /// Parses a rule such as `first monday in june` or `last fri of DECEMBER`.
    pub fn parse(rule_string: &str) -> (r: Option<Rule>)
        ensures
            r matches Some(x) ==> rule_from_text(rule_string@) == Some(x@),
            r is None ==> rule_from_text(rule_string@) is None,
            all_ascii(rule_string@) ==> rule_from_text(rule_string@) == rule_from_words(
                words(ascii_lower(rule_string@)),
            ),
            // The text a rule is written as is read back as that rule.
            forall|rv: RuleView|
                #![trigger rule_text(rv)]
                1 <= rv.month <= 12 && rule_string@ == rule_text(rv) ==> (r matches Some(x) && x@
                    == rv),
    {
        let lower = to_lowercase(rule_string);
        proof {
            assert forall|rv: RuleView|
                #![trigger rule_text(rv)]
                1 <= rv.month <= 12 && rule_string@ == rule_text(rv) implies rule_from_text(
                    rule_string@,
                ) == Some(rv) by {
                lemma_rule_text_reads_back(rv);
            }
        }
        let parts = split_whitespace(lower.as_str());
        let ghost w = parts@.map_values(|p: String| p@);
        assert(w.len() == parts@.len());
        if parts.len() != 4 {
            return None;
        }
        assert(w[0] == parts@[0]@ && w[1] == parts@[1]@ && w[2] == parts@[2]@ && w[3] == parts@[3]@);
        let ordinal = match Ordinal::from_str(parts[0].as_str()) {
            Some(o) => o,
            None => return None,
        };
        let day = match chrono_parse_weekday(parts[1].as_str()) {
            Some(d) => d,
            None => return None,
        };
        proof {
            reveal_strlit("in");
            reveal_strlit("of");
            assert("in"@ =~= seq!['i', 'n']);
            assert("of"@ =~= seq!['o', 'f']);
        }
        if !same_text(parts[2].as_str(), "in") && !same_text(parts[2].as_str(), "of") {
            return None;
        }
        let month = match chrono_parse_month(parts[3].as_str()) {
            Some(m) => m,
            None => return None,
        };
        proof {
            crate::calendar::lemma_weekday_from_name_range(parts@[1]@);
            crate::calendar::lemma_month_from_name_range(parts@[3]@);
        }
        Some(Rule { ordinal, weekday: weekday_from_index(day), month })
    }

    /// The date that the rule gives in `year`, if there is one.
    pub fn resolve_date(&self, year: i32) -> (r: Option<Date>)
        ensures
            r matches Some(d) ==> d@.year == year && d@.month == self@.month && rule_day(
                self@,
                year as int,
            ) == Some(d@.day),
            r is None ==> rule_day(self@, year as int) is None,
            // In every year of `chrono`'s range the rule gives a date.
            MIN_YEAR <= year <= MAX_YEAR ==> r is Some,
    {
        proof {
            use_type_invariant(self);
            if MIN_YEAR <= year <= MAX_YEAR {
                lemma_rule_day_exists(self@, year as int);
            }
        }
        let ghost w = weekday_number(self.weekday);
        if self.ordinal == Ordinal::Last {
            let r = last_weekday_in_month(year, self.month, self.weekday);
            proof {
                if let Some(d) = r {
                    assert(is_last_matching_day(year as int, self.month as int, w, d@.day));
                    let c = choose|e: int| is_last_matching_day(year as int, self.month as int, w, e);
                    lemma_last_matching_day_unique(year as int, self.month as int, w, c, d@.day);
                    assert(self@.month == self.month as int);
                    assert(weekday_number(self@.weekday) == w);
                    assert(self@.ordinal == Ordinal::Last);
                    assert(rule_day(self@, year as int) == Some(c));
                }
            }
            r
        } else {
            let r = nth_weekday_in_month(year, self.month, self.weekday, self.ordinal);
            proof {
                let n = ordinal_number(self.ordinal);
                if let Some(d) = r {
                    assert(is_nth_matching_day(year as int, self.month as int, w, n, d@.day));
                    let c = choose|e: int| is_nth_matching_day(year as int, self.month as int, w, n, e);
                    lemma_nth_matching_day_unique(year as int, self.month as int, w, n, c, d@.day);
                    assert(self@.month == self.month as int);
                    assert(weekday_number(self@.weekday) == w);
                    assert(self@.ordinal != Ordinal::Last);
                    assert(rule_day(self@, year as int) == Some(c));
                }
            }
            r
        }
    }

    /// The rule written out, such as `first Mon of June`.
    pub fn to_string(&self) -> (r: String)
        ensures
            r@ == rule_text(self@),
    {
        proof { use_type_invariant(self); }
        let ordinal_name = self.ordinal.to_string();
        let mut r = to_lowercase(ordinal_name.as_str());
        proof {
            let n = ordinal_display_name(self.ordinal);
            assert(crate::text::all_ascii(n));
        }
        r.append(" ");
        r.append(chrono_weekday_text(weekday_index(self.weekday)).as_str());
        r.append(" of ");
        r.append(chrono_month_text(self.month).as_str());
        proof {
            reveal_strlit(" ");
            reveal_strlit(" of ");
            assert(r@ =~= rule_text(self@));
        }
        r
    }
}


// ---------------------------------------------------------------------------
// Events
// ---------------------------------------------------------------------------

/// When an event happens: on a date, on a day of every year, or on a rule.
#[derive(Debug, Clone, Copy, PartialEq, Eq, Structural)]
pub enum EventKind {
    Singular(Date),
    Annual(MonthDay),
    RuleBased(Rule),
}

/// The mathematical value of an event.
pub struct EventView {
    pub kind: EventKind,
    pub description: Seq<char>,
    pub category: CategoryView,
}

/// Something that happens, with a description and a category.
#[derive(Debug)]
pub struct Event {
    kind: EventKind,
    description: String,
    category: Category,
}

impl View for Event {
    type V = EventView;

    closed spec fn view(&self) -> EventView {
        EventView { kind: self.kind, description: self.description@, category: self.category@ }
    }
}

/// The year an event is shown in: its own year for a dated event, else the current year.
pub open spec fn event_year(e: EventView, current_year: int) -> int {
    match e.kind {
        EventKind::Singular(d) => d@.year,
        _ => current_year,
    }
}

/// The month and day an event falls on in the current year.
pub open spec fn event_month_day(e: EventView, current_year: int) -> MonthDayView {
    match e.kind {
        EventKind::Singular(d) => MonthDayView { month: d@.month, day: d@.day },
        EventKind::Annual(md) => md@,
        EventKind::RuleBased(r) => MonthDayView {
            month: r@.month,
            day: rule_day(r@, current_year)->0,
        },
    }
}

/// How the date of an event kind is written: `YYYY-MM-DD`, `--M-D`, or the rule.
pub open spec fn kind_date_text(k: EventKind) -> Seq<char> {
    match k {
        EventKind::Singular(d) => iso_date_text(d@.year, d@.month, d@.day),
        EventKind::Annual(md) => seq!['-', '-'] + decimal(md@.month as nat) + seq!['-'] + decimal(
            md@.day as nat,
        ),
        EventKind::RuleBased(r) => rule_text(r@),
    }
}

/// A dated event's text never starts with the mark of a missing year.
proof fn lemma_iso_text_has_year(y: int, m: int, d: int)
    ensures
        !has_prefix(iso_date_text(y, m, d), yearless_mark()),
        iso_date_text(y, m, d) == crate::calendar::ymd_text(y, m, d, 2, 2),
{
    let s = iso_date_text(y, m, d);
    let yt = crate::calendar::year_text(y);
    if 0 <= y <= 9999 {
        crate::text::lemma_zero_padded_digits(y as nat, 4);
        assert(s[0] == yt[0]);
    } else if y > 0 {
        crate::text::lemma_zero_padded_digits(y as nat, 4);
        assert(s[0] == yt[0]);
    } else {
        crate::text::lemma_zero_padded_digits((-y) as nat, 4);
        assert(s[1] == yt[1]);
        assert(yt[1] == crate::text::zero_padded((-y) as nat, 4)[0]);
    }
    if has_prefix(s, yearless_mark()) {
        assert(s[0] == yearless_mark()[0]);
        assert(s[1] == yearless_mark()[1]);
    }
}

/// The text of a day of every year, read in a year with four digits in which that day
/// exists, becomes that year's date written with one-digit month and day where they fit.
proof fn lemma_annual_text_expands(md: MonthDay, year: int)
    requires
        0 <= year <= 9999,
        valid_ymd(year, md@.month, md@.day),
    ensures
        has_prefix(kind_date_text(EventKind::Annual(md)), yearless_mark()),
        expanded_date_text(kind_date_text(EventKind::Annual(md)), year)
            == crate::calendar::ymd_text(year, md@.month, md@.day, 1, 1),
{
    let m = md@.month as nat;
    let d = md@.day as nat;
    let dm = decimal(m);
    let dd = decimal(d);
    let s = kind_date_text(EventKind::Annual(md));
    let p = yearless_mark();
    let t = signed_zero_padded(year, 4) + seq!['-'];
    crate::text::lemma_decimal_digits(m);
    crate::text::lemma_decimal_digits(d);
    crate::text::lemma_zero_padded_digits(m, 1);
    crate::text::lemma_zero_padded_digits(d, 1);
    assert(s.subrange(0, 2) =~= p);
    let rest = dm + seq!['-'] + dd;
    assert(s =~= p + rest);
    assert forall|i: int| 2 <= i implies !crate::text::occurs_at(s, p, i) by {
        if crate::text::occurs_at(s, p, i) {
            assert(s.subrange(i, i + 2)[0] == s[i]);
            assert(s.subrange(i, i + 2)[1] == s[i + 1]);
            if i < 2 + dm.len() {
                assert(s[i] == dm[i - 2]);
            } else if i == 2 + dm.len() {
                assert(s[i + 1] == dd[0]);
            } else {
                assert(s[i] == dd[i - 3 - dm.len()]);
            }
        }
    }
    crate::text::lemma_replace_without_occurrence(s, p, t, 2);
    assert(crate::text::occurs_at(s, p, 0));
    assert(s.subrange(2, s.len() as int) =~= rest);
    assert(replace_all(s, p, t) == t + rest);
    assert(expanded_date_text(s, year) =~= crate::calendar::ymd_text(year, md@.month, md@.day, 1, 1));
}

/// How an event is displayed: `year: description (category)`.
pub open spec fn event_text(e: EventView, current_year: int) -> Seq<char> {
    signed_decimal(event_year(e, current_year)) + seq![':', ' '] + e.description + seq![' ', '(']
        + category_text(e.category) + seq![')']
}

/// `t` is, piece by piece: the decimal text of the event's year, `: `, the event's
/// description, ` (`, the text of its category, and `)`.
pub open spec fn event_text_has_pieces(t: Seq<char>, e: EventView, current_year: int) -> bool {
    let y = signed_decimal(event_year(e, current_year));
    let n = y.len() as int;
    let d = e.description.len() as int;
    let c = category_text(e.category);
    &&& t.len() == n + d + c.len() + 5
    &&& t.subrange(0, n) == y
    &&& t.subrange(n, n + 2) == seq![':', ' ']
    &&& t.subrange(n + 2, n + 2 + d) == e.description
    &&& t.subrange(n + 2 + d, n + 4 + d) == seq![' ', '(']
    &&& t.subrange(n + 4 + d, n + 4 + d + c.len()) == c
    &&& t[t.len() - 1] == ')'
}

/// However an event is made, its displayed text holds its year, its description right
/// after `: `, and its category's text inside the closing parentheses.
pub proof fn lemma_event_text_pieces(e: EventView, current_year: int)
    ensures
        event_text_has_pieces(event_text(e, current_year), e, current_year),
{
    let t = event_text(e, current_year);
    let y = signed_decimal(event_year(e, current_year));
    let n = y.len() as int;
    let d = e.description.len() as int;
    let c = category_text(e.category);
    assert(t.subrange(0, n) =~= y);
    assert(t.subrange(n, n + 2) =~= seq![':', ' ']);
    assert(t.subrange(n + 2, n + 2 + d) =~= e.description);
    assert(t.subrange(n + 2 + d, n + 4 + d) =~= seq![' ', '(']);
    assert(t.subrange(n + 4 + d, n + 4 + d + c.len()) =~= c);
}

impl PartialEq for Event {
    fn eq(&self, other: &Event) -> (r: bool) {
        let same = self.kind == other.kind && self.description.eq(&other.description)
            && self.category.eq(&other.category);
        same
    }
}

impl vstd::std_specs::cmp::PartialEqSpecImpl for Event {
    open spec fn obeys_eq_spec() -> bool {
        true
    }

    open spec fn eq_spec(&self, other: &Event) -> bool {
        self@ == other@
    }
}

impl Clone for Event {
    fn clone(&self) -> (r: Event)
        ensures
            r@ == self@,
    {
        Event { kind: self.kind, description: self.description.clone(), category: self.category.clone() }
    }
}

impl Event {
    pub fn new_singular(date: Date, description: String, category: Category) -> (r: Event)
        ensures
            r@ == (EventView {
                kind: EventKind::Singular(date),
                description: description@,
                category: category@,
            }),
    {
        Event { kind: EventKind::Singular(date), description, category }
    }

    pub fn new_annual(month_day: MonthDay, description: String, category: Category) -> (r: Event)
        ensures
            r@ == (EventView {
                kind: EventKind::Annual(month_day),
                description: description@,
                category: category@,
            }),
    {
        Event { kind: EventKind::Annual(month_day), description, category }
    }

    pub fn new_rule_based(rule: Rule, description: String, category: Category) -> (r: Event)
        ensures
            r@ == (EventView {
                kind: EventKind::RuleBased(rule),
                description: description@,
                category: category@,
            }),
    {
        Event { kind: EventKind::RuleBased(rule), description, category }
    }

    /// The event's year when the current year is `current_year`.
    pub fn year_in(&self, current_year: i32) -> (r: i32)
        ensures
            r == event_year(self@, current_year as int),
            self@.kind matches EventKind::Singular(d) ==> d@.is_valid(),
    {
        match &self.kind {
            EventKind::Singular(date) => date.year(),
            EventKind::Annual(_) => current_year,
            EventKind::RuleBased(_) => current_year,
        }
    }

    /// The event's year: its own for a dated event, else the current year by the clock.
    pub fn year(&self) -> (r: i32)
        ensures
            MIN_YEAR <= r <= MAX_YEAR,
            exists|y: int| MIN_YEAR <= y <= MAX_YEAR && r == event_year(self@, y),
    {
        let today = Date::today();
        let y = today.year();
        self.year_in(y)
    }

    /// The month and day the event falls on when the current year is `current_year`.
    pub fn month_day_in(&self, current_year: i32) -> (r: MonthDay)
        requires
            MIN_YEAR <= current_year <= MAX_YEAR,
        ensures
            r@ == event_month_day(self@, current_year as int),
    {
        match &self.kind {
            EventKind::Singular(date) => MonthDay::new(date.month(), date.day()),
            EventKind::Annual(md) => MonthDay::new(md.month(), md.day()),
            EventKind::RuleBased(rule) => {
                let m = rule.month_number();
                proof {
                    lemma_rule_day_exists(rule@, current_year as int);
                }
                match rule.resolve_date(current_year) {
                    Some(date) => MonthDay::new(date.month(), date.day()),
                    None => {
                        proof {
                            assert(false);
                        }
                        MonthDay::new(m, 1)
                    },
                }
            },
        }
    }

    /// The month and day the event falls on this year, by the clock.
    pub fn month_day(&self) -> (r: MonthDay)
        ensures
            exists|y: int| MIN_YEAR <= y <= MAX_YEAR && r@ == event_month_day(self@, y),
    {
        let today = Date::today();
        let y = today.year();
        self.month_day_in(y)
    }

    pub fn category(&self) -> (r: Category)
        ensures
            r@ == self@.category,
    {
        self.category.clone()
    }

    pub fn description(&self) -> (r: String)
        ensures
            r@ == self@.description,
    {
        self.description.clone()
    }

    pub fn kind(&self) -> (r: EventKind)
        ensures
            r == self@.kind,
    {
        self.kind
    }

    /// The event's date as it is written to a record: `YYYY-MM-DD`, `--M-D`, or the rule.
    pub fn date_string(&self) -> (r: String)
        ensures
            r@ == kind_date_text(self@.kind),
    {
        match &self.kind {
            EventKind::Singular(date) => date.iso_text(),
            EventKind::Annual(md) => {
                let mut r = owned("--");
                r.append(u32_text(md.month()).as_str());
                r.append("-");
                r.append(u32_text(md.day()).as_str());
                proof {
                    reveal_strlit("--");
                    reveal_strlit("-");
                    assert(r@ =~= kind_date_text(self@.kind));
                }
                r
            },
            EventKind::RuleBased(rule) => rule.to_string(),
        }
    }

    /// The event as it is displayed when the current year is `current_year`.
    pub fn to_string_in(&self, current_year: i32) -> (r: String)
        ensures
            r@ == event_text(self@, current_year as int),
            // For every kind of event: the year, `: `, the description, ` (`, the
            // category's text and `)`, each piece in its place.
            event_text_has_pieces(r@, self@, current_year as int),
    {
        let mut r = i32_text(self.year_in(current_year));
        r.append(": ");
        r.append(self.description.as_str());
        r.append(" (");
        r.append(self.category.to_string().as_str());
        r.append(")");
        proof {
            reveal_strlit(": ");
            reveal_strlit(" (");
            reveal_strlit(")");
            assert(r@ =~= event_text(self@, current_year as int));
            lemma_event_text_pieces(self@, current_year as int);
        }
        r
    }

    /// The event as it is displayed: `year: description (category)`, with the current
    /// year by the clock for an event without a year of its own.
    pub fn to_string(&self) -> (r: String)
        ensures
            exists|y: int| MIN_YEAR <= y <= MAX_YEAR && r@ == event_text(self@, y),
    {
        let today = Date::today();
        let y = today.year();
        self.to_string_in(y)
    }
}


// ---------------------------------------------------------------------------
// Reading events from text
// ---------------------------------------------------------------------------

/// The mark of a date without a year, as in `--12-25`.
pub open spec fn yearless_mark() -> Seq<char> {
    seq!['-', '-']
}

/// A date text with the current year put in for the mark of a missing year: every `--`
/// becomes the year in four digits (`format!("{:04}-", year)`).
pub open spec fn expanded_date_text(s: Seq<char>, year: int) -> Seq<char> {
    if has_prefix(s, yearless_mark()) {
        replace_all(s, yearless_mark(), signed_zero_padded(year, 4) + seq!['-'])
    } else {
        s
    }
}

/// The kind `k` is what the date text `s` reads as in year `year`: a date as `chrono`
/// parses `%F` (a day of every year when `s` has no year), or else a rule.
pub open spec fn kind_read_from(k: EventKind, s: Seq<char>, year: int) -> bool {
    let t = expanded_date_text(s, year);
    match chrono_date_parse(t) {
        Some(ymd) => if has_prefix(s, yearless_mark()) {
            k matches EventKind::Annual(md) && md@ == (MonthDayView { month: ymd.1, day: ymd.2 })
        } else {
            k matches EventKind::Singular(d) && d@ == (DateView {
                year: ymd.0,
                month: ymd.1,
                day: ymd.2,
            })
        },
        None => match rule_from_text(t) {
            Some(rv) => k matches EventKind::RuleBased(r) && r@ == rv,
            None => false,
        },
    }
}

/// The date text `s` reads as a date or a rule in year `year`.
pub open spec fn date_text_is_readable(s: Seq<char>, year: int) -> bool {
    let t = expanded_date_text(s, year);
    chrono_date_parse(t) is Some || rule_from_text(t) is Some
}

/// `s` is how the date of kind `k` is written by `Event::date_string`, and reading it
/// in year `year` can give the same kind back: a day of every year must exist in that
/// year, whose number must have four digits.
pub open spec fn is_written_kind(k: EventKind, s: Seq<char>, year: int) -> bool {
    &&& s == kind_date_text(k)
    &&& match k {
        EventKind::Singular(d) => d@.is_valid(),
        EventKind::Annual(md) => 0 <= year <= 9999 && valid_ymd(year, md@.month, md@.day),
        EventKind::RuleBased(r) => 1 <= r@.month <= 12,
    }
}

/// Reads an event from the fields of a record: the date text, the description, and the
/// category. A date text that is neither a date nor a rule is handed back, with the
/// current year put in.
pub fn event_from_fields(
    date_string: &str,
    description: &str,
    category: Category,
    current_year: i32,
) -> (r: Result<Event, String>)
    ensures
        r is Ok <==> date_text_is_readable(date_string@, current_year as int),
        r matches Ok(e) ==> kind_read_from(e@.kind, date_string@, current_year as int)
            && e@.description == description@ && e@.category == category@,
        r matches Err(t) ==> t@ == expanded_date_text(date_string@, current_year as int),
        // What `Event::date_string` writes is read back as the same kind of date.
        forall|k: EventKind|
            #[trigger] is_written_kind(k, date_string@, current_year as int) ==> (r matches Ok(e)
                && e@.kind == k),
{
    proof {
        reveal_strlit("--");
        reveal_strlit("-");
        assert("--"@ =~= yearless_mark());
    }
    let is_yearless = starts_with(date_string, "--");
    let text = if is_yearless {
        let mut year_text = i32_text_pad4(current_year);
        year_text.append("-");
        assert(year_text@ =~= signed_zero_padded(current_year as int, 4) + seq!['-']);
        replace(date_string, "--", year_text.as_str())
    } else {
        owned(date_string)
    };
    assert(text@ == expanded_date_text(date_string@, current_year as int));
    let ghost s = date_string@;
    let ghost y = current_year as int;
    let parsed = Date::parse_iso(text.as_str());
    match parsed {
        Some(date) => {
            let event = if is_yearless {
                Event::new_annual(MonthDay::new(date.month(), date.day()), owned(description), category)
            } else {
                Event::new_singular(date, owned(description), category)
            };
            proof {
                assert forall|k: EventKind| #[trigger] is_written_kind(k, s, y) implies event@.kind == k by {
                    match k {
                        EventKind::Singular(d) => {
                            lemma_iso_text_has_year(d@.year, d@.month, d@.day);
                            assert(text@ == crate::calendar::ymd_text(d@.year, d@.month, d@.day, 2, 2));
                            crate::calendar::lemma_date_view_injective(date, d);
                        },
                        EventKind::Annual(md) => {
                            lemma_annual_text_expands(md, y);
                            assert(text@ == crate::calendar::ymd_text(y, md@.month, md@.day, 1, 1));
                            if let EventKind::Annual(x) = event@.kind {
                                lemma_month_day_view_injective(x, md);
                            }
                        },
                        EventKind::RuleBased(rl) => {
                            lemma_rule_text_reads_back(rl@);
                            assert(!has_prefix(s, yearless_mark())) by {
                                if has_prefix(s, yearless_mark()) {
                                    assert(s[0] == yearless_mark()[0]);
                                }
                            }
                        },
                    }
                }
            }
            Ok(event)
        },
        None => {
            let rule = Rule::parse(text.as_str());
            match rule {
                Some(rl) => {
                    let event = Event::new_rule_based(rl, owned(description), category);
                    proof {
                        assert forall|k: EventKind| #[trigger] is_written_kind(k, s, y) implies event@.kind == k by {
                            match k {
                                EventKind::Singular(d) => {
                                    lemma_iso_text_has_year(d@.year, d@.month, d@.day);
                                },
                                EventKind::Annual(md) => {
                                    lemma_annual_text_expands(md, y);
                                },
                                EventKind::RuleBased(r2) => {
                                    lemma_rule_text_reads_back(r2@);
                                    assert(!has_prefix(s, yearless_mark())) by {
                                        if has_prefix(s, yearless_mark()) {
                                            assert(s[0] == yearless_mark()[0]);
                                        }
                                    }
                                    lemma_rule_view_injective(rl, r2);
                                },
                            }
                        }
                    }
                    Ok(event)
                },
                None => {
                    proof {
                        assert forall|k: EventKind| !is_written_kind(k, s, y) by {
                            match k {
                                EventKind::Singular(d) => {
                                    lemma_iso_text_has_year(d@.year, d@.month, d@.day);
                                },
                                EventKind::Annual(md) => {
                                    if is_written_kind(k, s, y) {
                                        lemma_annual_text_expands(md, y);
                                    }
                                },
                                EventKind::RuleBased(r2) => {
                                    if is_written_kind(k, s, y) {
                                        lemma_rule_text_reads_back(r2@);
                                        assert(!has_prefix(s, yearless_mark())) by {
                                            if has_prefix(s, yearless_mark()) {
                                                assert(s[0] == yearless_mark()[0]);
                                            }
                                        }
                                    }
                                },
                            }
                        }
                    }
                    Err(text)
                },
            }
        },
    }
}

/// The message for a date text that is neither a date nor a rule.
pub open spec fn invalid_date_message(t: Seq<char>) -> Seq<char> {
    "Invalid date '"@ + t + "'"@
}

/// `(s, description, category)` is how event `e` is written to a record (the date as
/// `Event::date_string` writes it, the description, and the category's text), and
/// reading it in year `year` can give the same event back: the category's names hold
/// no `/`, and a day of every year exists in `year`, whose number has four digits.
pub open spec fn is_written_event(
    e: EventView,
    s: Seq<char>,
    description: Seq<char>,
    category: Seq<char>,
    year: int,
) -> bool {
    &&& is_written_kind(e.kind, s, year)
    &&& description == e.description
    &&& category == category_text(e.category)
    &&& category_names_without_slash(e.category)
}

/// `s` is how the date or rule of kind `k` is written by `Event::date_string`, and
/// reading it gives the same kind back in every year: the date exists, or the rule
/// names a month.
pub open spec fn is_written_dated_kind(k: EventKind, s: Seq<char>) -> bool {
    &&& s == kind_date_text(k)
    &&& match k {
        EventKind::Singular(d) => d@.is_valid(),
        EventKind::RuleBased(r) => 1 <= r@.month <= 12,
        EventKind::Annual(_) => false,
    }
}

/// `(s, description, category)` is how event `e`, which has a date or a rule, is written
/// to a record, and reading it gives the same event back in every year: the date
/// exists, the rule names a month, and the category's names hold no `/`.
pub open spec fn is_written_dated_event(
    e: EventView,
    s: Seq<char>,
    description: Seq<char>,
    category: Seq<char>,
) -> bool {
    &&& is_written_dated_kind(e.kind, s)
    &&& description == e.description
    &&& category == category_text(e.category)
    &&& category_names_without_slash(e.category)
}

/// Reads an event from its date text, description and category text, with
/// `current_year` put in for a date without a year.
pub fn params_to_event_in(
    date_string: &str,
    description_string: &str,
    category_string: &str,
    current_year: i32,
) -> (r: Result<Event, String>)
    ensures
        r is Ok <==> date_text_is_readable(date_string@, current_year as int),
        r matches Ok(e) ==> kind_read_from(e@.kind, date_string@, current_year as int)
            && e@.description == description_string@ && e@.category == category_from_text(
            category_string@,
        ),
        r matches Err(m) ==> m@ == invalid_date_message(
            expanded_date_text(date_string@, current_year as int),
        ),
        // An event written to a record is read back as the same event.
        forall|ev: EventView|
            #[trigger] is_written_event(
                ev,
                date_string@,
                description_string@,
                category_string@,
                current_year as int,
            ) ==> (r matches Ok(e) && e@ == ev),
{
    let category = Category::from_str(category_string);
    proof {
        assert forall|ev: EventView|
            #[trigger] is_written_event(
                ev,
                date_string@,
                description_string@,
                category_string@,
                current_year as int,
            ) implies category@ == ev.category by {
            lemma_category_text_reads_back(ev.category);
        }
    }
    match event_from_fields(date_string, description_string, category, current_year) {
        Ok(event) => Ok(event),
        Err(text) => {
            let mut message = owned("Invalid date '");
            message.append(text.as_str());
            message.append("'");
            Err(message)
        },
    }
}

/// Reads an event from its date text, description and category text; a date without a
/// year gets the current year by the clock.
pub fn params_to_event(date_string: &str, description_string: &str, category_string: &str) -> (r:
    Result<Event, String>)
    ensures
        exists|y: int|
            MIN_YEAR <= y <= MAX_YEAR && (r is Ok <==> date_text_is_readable(date_string@, y)) && (
            r matches Ok(e) ==> kind_read_from(e@.kind, date_string@, y)) && (r matches Err(m)
                ==> m@ == invalid_date_message(expanded_date_text(date_string@, y)))
                // An event written to a record is read back as the same event.
                && (forall|ev: EventView|
                #[trigger] is_written_event(ev, date_string@, description_string@, category_string@, y)
                    ==> (r matches Ok(e) && e@ == ev)),
        r matches Ok(e) ==> e@.description == description_string@ && e@.category
            == category_from_text(category_string@),
        // An event with a date or a rule, written to a record, is read back as that event
        // whatever the current year.
        forall|ev: EventView|
            #[trigger] is_written_dated_event(ev, date_string@, description_string@, category_string@)
                ==> (r matches Ok(e) && e@ == ev),
{
    let today = Date::today();
    let y = today.year();
    let r = params_to_event_in(date_string, description_string, category_string, y);
    proof {
        assert forall|ev: EventView|
            #[trigger] is_written_dated_event(ev, date_string@, description_string@, category_string@)
                implies (r matches Ok(e) && e@ == ev) by {
            assert(is_written_event(ev, date_string@, description_string@, category_string@, y as int));
        }
    }
    r
}

} // verus!
