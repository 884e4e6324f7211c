//! Event filters: a set of options that an event must all pass, and the builder
//! that collects them.

use vstd::prelude::*;
use crate::events::{
    Category, CategoryView, Event, EventView, MonthDay, MonthDayView, event_month_day,
    lemma_month_day_view_injective,
};
use crate::calendar::{MIN_YEAR, MAX_YEAR};
use crate::text::{contains, contains_text};

verus! {

/// One condition of a filter.
#[derive(Debug, Hash)]
pub enum FilterOption {
    MonthDay(MonthDay),
    Category(Category),
    Text(String),
    Exclude(Category),
}

/// The mathematical value of a filter option.
pub enum FilterOptionView {
    MonthDay(MonthDayView),
    Category(CategoryView),
    Text(Seq<char>),
    Exclude(CategoryView),
}

impl View for FilterOption {
    type V = FilterOptionView;

    open spec fn view(&self) -> FilterOptionView {
        match self {
            FilterOption::MonthDay(md) => FilterOptionView::MonthDay(md@),
            FilterOption::Category(c) => FilterOptionView::Category(c@),
            FilterOption::Text(t) => FilterOptionView::Text(t@),
            FilterOption::Exclude(c) => FilterOptionView::Exclude(c@),
        }
    }
}

impl Clone for FilterOption {
    fn clone(&self) -> (r: FilterOption)
        ensures
            r@ == self@,
    {
        match self {
            FilterOption::MonthDay(md) => FilterOption::MonthDay(*md),
            FilterOption::Category(c) => FilterOption::Category(c.clone()),
            FilterOption::Text(t) => FilterOption::Text(t.clone()),
            FilterOption::Exclude(c) => FilterOption::Exclude(c.clone()),
        }
    }
}

impl PartialEq for FilterOption {
    fn eq(&self, other: &FilterOption) -> (r: bool) {
        let same = match (self, other) {
            (FilterOption::MonthDay(a), FilterOption::MonthDay(b)) => {
                let e = a.month() == b.month() && a.day() == b.day();
                e
            },
            (FilterOption::Category(a), FilterOption::Category(b)) => a.eq(b),
            (FilterOption::Text(a), FilterOption::Text(b)) => a.eq(b),
            (FilterOption::Exclude(a), FilterOption::Exclude(b)) => a.eq(b),
            _ => false,
        };
        same
    }
}

impl vstd::std_specs::cmp::PartialEqSpecImpl for FilterOption {
    open spec fn obeys_eq_spec() -> bool {
        true
    }

    open spec fn eq_spec(&self, other: &FilterOption) -> bool {
        self@ == other@
    }
}

impl Eq for FilterOption {
}

/// Whether an event passes one option when the current year is `year`.
pub open spec fn option_accepts(o: FilterOptionView, e: EventView, year: int) -> bool {
    match o {
        FilterOptionView::MonthDay(md) => md == event_month_day(e, year),
        FilterOptionView::Category(c) => c == e.category,
        FilterOptionView::Text(t) => contains_text(e.description, t),
        FilterOptionView::Exclude(c) => c != e.category,
    }
}

/// Whether an event passes every option of a set when the current year is `year`.
pub open spec fn filter_accepts(options: Set<FilterOptionView>, e: EventView, year: int) -> bool {
    forall|o: FilterOptionView| #[trigger] options.contains(o) ==> option_accepts(o, e, year)
}

pub open spec fn is_month_day_option(o: FilterOptionView) -> bool {
    o is MonthDay
}

pub open spec fn is_category_option(o: FilterOptionView) -> bool {
    o is Category
}

pub open spec fn is_text_option(o: FilterOptionView) -> bool {
    o is Text
}

/// The views of a sequence of options.
pub open spec fn option_views(s: Seq<FilterOption>) -> Seq<FilterOptionView> {
    s.map_values(|o: FilterOption| o@)
}

/// A sequence of options stands for a set: nothing occurs twice, and there is at most
/// one month-day, one category and one text option.
pub open spec fn options_wf(s: Seq<FilterOptionView>) -> bool {
    &&& forall|i: int, j: int| 0 <= i < j < s.len() ==> s[i] != s[j]
    &&& forall|i: int, j: int|
        0 <= i < j < s.len() ==> !(is_month_day_option(s[i]) && is_month_day_option(s[j]))
    &&& forall|i: int, j: int|
        0 <= i < j < s.len() ==> !(is_category_option(s[i]) && is_category_option(s[j]))
    &&& forall|i: int, j: int|
        0 <= i < j < s.len() ==> !(is_text_option(s[i]) && is_text_option(s[j]))
}

/// The set a sequence of options stands for.
pub open spec fn option_set(s: Seq<FilterOption>) -> Set<FilterOptionView> {
    option_views(s).to_set()
}

/// The kinds of option of which a filter holds at most one.
#[derive(Clone, Copy, PartialEq, Eq, Structural)]
enum SingleKind {
    MonthDay,
    Category,
    Text,
}

spec fn is_of_kind(o: FilterOptionView, kind: SingleKind) -> bool {
    match kind {
        SingleKind::MonthDay => is_month_day_option(o),
        SingleKind::Category => is_category_option(o),
        SingleKind::Text => is_text_option(o),
    }
}

/// The position of the option of the given kind, if there is one.
fn position_of_kind(v: &Vec<FilterOption>, kind: SingleKind) -> (r: Option<usize>)
    ensures
        r matches Some(i) ==> i < v@.len() && is_of_kind(v@[i as int]@, kind),
        r is None ==> forall|o: FilterOptionView|
            #[trigger] option_set(v@).contains(o) ==> !is_of_kind(o, kind),
{
    let mut i: usize = 0;
    while i < v.len()
        invariant
            i <= v@.len(),
            forall|j: int| 0 <= j < i ==> !is_of_kind(#[trigger] v@[j]@, kind),
        decreases v@.len() - i,
    {
        let found = match (&v[i], kind) {
            (FilterOption::MonthDay(_), SingleKind::MonthDay) => true,
            (FilterOption::Category(_), SingleKind::Category) => true,
            (FilterOption::Text(_), SingleKind::Text) => true,
            _ => false,
        };
        if found {
            return Some(i);
        }
        i = i + 1;
    }
    proof {
        assert forall|o: FilterOptionView| option_set(v@).contains(o) implies !is_of_kind(o, kind) by {
            let k = choose|k: int| 0 <= k < option_views(v@).len() && option_views(v@)[k] == o;
            assert(option_views(v@)[k] == v@[k]@);
        }
    }
    None
}

proof fn lemma_option_set_contains(v: Seq<FilterOption>, i: int)
    requires
        0 <= i < v.len(),
    ensures
        option_set(v).contains(v[i]@),
{
    assert(option_views(v)[i] == v[i]@);
}

/// In a sequence that stands for a set, the option of a single kind at position `i` is
/// the only option of that kind in the set.
proof fn lemma_single_of_kind(v: Seq<FilterOption>, i: int, o: FilterOptionView, kind: SingleKind)
    requires
        options_wf(option_views(v)),
        0 <= i < v.len(),
        is_of_kind(v[i]@, kind),
        option_set(v).contains(o),
        is_of_kind(o, kind),
    ensures
        v[i]@ == o,
{
    let w = option_views(v);
    let k = choose|k: int| 0 <= k < w.len() && w[k] == o;
    assert(w[k] == v[k]@);
    assert(w[i] == v[i]@);
    if k < i {
        match kind {
            SingleKind::MonthDay => assert(!(is_month_day_option(w[k]) && is_month_day_option(w[i]))),
            SingleKind::Category => assert(!(is_category_option(w[k]) && is_category_option(w[i]))),
            SingleKind::Text => assert(!(is_text_option(w[k]) && is_text_option(w[i]))),
        }
    } else if i < k {
        match kind {
            SingleKind::MonthDay => assert(!(is_month_day_option(w[i]) && is_month_day_option(w[k]))),
            SingleKind::Category => assert(!(is_category_option(w[i]) && is_category_option(w[k]))),
            SingleKind::Text => assert(!(is_text_option(w[i]) && is_text_option(w[k]))),
        }
    }
}

/// Whether `v` holds an option equal to `o`.
fn holds_option(v: &Vec<FilterOption>, o: &FilterOption) -> (r: bool)
    ensures
        r == option_set(v@).contains(o@),
{
    let mut i: usize = 0;
    while i < v.len()
        invariant
            i <= v@.len(),
            forall|j: int| 0 <= j < i ==> v@[j]@ != o@,
        decreases v@.len() - i,
    {
        if v[i].eq(o) {
            proof { lemma_option_set_contains(v@, i as int); }
            return true;
        }
        i = i + 1;
    }
    proof {
        if option_set(v@).contains(o@) {
            let k = choose|k: int| 0 <= k < option_views(v@).len() && option_views(v@)[k] == o@;
            assert(option_views(v@)[k] == v@[k]@);
        }
    }
    false
}

/// Adding an option that the sequence does not hold, and of whose single kind it holds
/// none, keeps the sequence a set.
proof fn lemma_push_keeps_wf(v: Seq<FilterOption>, o: FilterOption)
    requires
        options_wf(option_views(v)),
        !option_set(v).contains(o@),
        is_month_day_option(o@) ==> !has_month_day(option_set(v)),
        is_category_option(o@) ==> !has_category(option_set(v)),
        is_text_option(o@) ==> !has_text(option_set(v)),
    ensures
        options_wf(option_views(v.push(o))),
        option_set(v.push(o)) == option_set(v).insert(o@),
{
    let w = option_views(v.push(o));
    assert(w =~= option_views(v).push(o@));
    assert forall|i: int| 0 <= i < v.len() implies #[trigger] w[i] != o@ && !(is_month_day_option(w[i]) && is_month_day_option(o@))
        && !(is_category_option(w[i]) && is_category_option(o@)) && !(is_text_option(w[i]) && is_text_option(o@)) by {
        lemma_option_set_contains(v, i);
        assert(w[i] == v[i]@);
    }
    let u = option_views(v);
    assert forall|x: FilterOptionView| w.contains(x) <==> u.contains(x) || x == o@ by {
        if w.contains(x) {
            let k = choose|k: int| 0 <= k < w.len() && w[k] == x;
            if k < u.len() {
                assert(u[k] == x);
            }
        }
        if u.contains(x) {
            let k = choose|k: int| 0 <= k < u.len() && u[k] == x;
            assert(w[k] == x);
        }
        if x == o@ {
            assert(w[u.len() as int] == x);
        }
    }
    assert(option_set(v.push(o)) =~= option_set(v).insert(o@));
}

/// The set holds a month-day option.
pub open spec fn has_month_day(set: Set<FilterOptionView>) -> bool {
    exists|o: FilterOptionView| set.contains(o) && is_month_day_option(o)
}

/// The set holds a category option.
pub open spec fn has_category(set: Set<FilterOptionView>) -> bool {
    exists|o: FilterOptionView| set.contains(o) && is_category_option(o)
}

/// The set holds a text option.
pub open spec fn has_text(set: Set<FilterOptionView>) -> bool {
    exists|o: FilterOptionView| set.contains(o) && is_text_option(o)
}

/// What adding a month-day option does: nothing when there is one already.
pub open spec fn with_month_day(set: Set<FilterOptionView>, md: MonthDayView) -> Set<FilterOptionView> {
    if has_month_day(set) {
        set
    } else {
        set.insert(FilterOptionView::MonthDay(md))
    }
}

/// What adding a category option does: nothing when there is one already.
pub open spec fn with_category(set: Set<FilterOptionView>, c: CategoryView) -> Set<FilterOptionView> {
    if has_category(set) {
        set
    } else {
        set.insert(FilterOptionView::Category(c))
    }
}

/// What adding a text option does: nothing when there is one already.
pub open spec fn with_text(set: Set<FilterOptionView>, t: Seq<char>) -> Set<FilterOptionView> {
    if has_text(set) {
        set
    } else {
        set.insert(FilterOptionView::Text(t))
    }
}

/// What adding an exclusion does: it joins the set (once).
pub open spec fn with_exclude(set: Set<FilterOptionView>, c: CategoryView) -> Set<FilterOptionView> {
    set.insert(FilterOptionView::Exclude(c))
}

// ---------------------------------------------------------------------------
// The filter
// ---------------------------------------------------------------------------

/// A filter: an event passes it when it passes every option.
#[derive(Debug)]
pub struct EventFilter {
    options: Vec<FilterOption>,
}

impl View for EventFilter {
    type V = Set<FilterOptionView>;

    closed spec fn view(&self) -> Set<FilterOptionView> {
        option_set(self.options@)
    }
}

impl EventFilter {
    #[verifier::type_invariant]
    closed spec fn inv(self) -> bool {
        options_wf(option_views(self.options@))
    }

    /// A filter without options, which every event passes.
    pub fn new() -> (r: EventFilter)
        ensures
            r@ == Set::<FilterOptionView>::empty(),
    {
        let r = EventFilter { options: Vec::new() };
        assert(r@ =~= Set::<FilterOptionView>::empty());
        r
    }

    /// Whether `event` passes every option when the current year is `current_year`.
    pub fn accepts_in(&self, event: &Event, current_year: i32) -> (r: bool)
        requires
            MIN_YEAR <= current_year <= MAX_YEAR,
        ensures
            r == filter_accepts(self@, event@, current_year as int),
    {
        let ghost set = self@;
        let mut i: usize = 0;
        while i < self.options.len()
            invariant
                i <= self.options@.len(),
                set == option_set(self.options@),
                MIN_YEAR <= current_year <= MAX_YEAR,
                forall|j: int| 0 <= j < i ==> option_accepts(#[trigger] self.options@[j]@, event@, current_year as int),
            decreases self.options@.len() - i,
        {
            let passes = match &self.options[i] {
                FilterOption::MonthDay(md) => {
                    let emd = event.month_day_in(current_year);
                    let same = md.month() == emd.month() && md.day() == emd.day();
                    same
                },
                FilterOption::Category(c) => c.eq(&event.category()),
                FilterOption::Text(t) => contains(event.description().as_str(), t.as_str()),
                FilterOption::Exclude(c) => !c.eq(&event.category()),
            };
            if !passes {
                proof { lemma_option_set_contains(self.options@, i as int); }
                return false;
            }
            i = i + 1;
        }
        proof {
            assert forall|o: FilterOptionView| #[trigger] set.contains(o) implies option_accepts(o, event@, current_year as int) by {
                let k = choose|k: int| 0 <= k < option_views(self.options@).len() && option_views(self.options@)[k] == o;
                assert(option_views(self.options@)[k] == self.options@[k]@);
            }
        }
        true
    }

    /// Whether `event` passes every option; a month-day option is checked against the
    /// day the event falls on this year, by the clock.
    pub fn accepts(&self, event: &Event) -> (r: bool)
        ensures
            exists|y: int| MIN_YEAR <= y <= MAX_YEAR && r == filter_accepts(self@, event@, y),
            self@.is_empty() ==> r,
    {
        let today = crate::calendar::Date::today();
        let y = today.year();
        self.accepts_in(event, y)
    }

    /// Adds `event` to `events` when it passes the filter in the year `current_year`, and
    /// says whether it did.
    pub fn keep_in(&self, events: &mut Vec<Event>, event: Event, current_year: i32) -> (r: bool)
        requires
            MIN_YEAR <= current_year <= MAX_YEAR,
        ensures
            r == filter_accepts(self@, event@, current_year as int),
            final(events)@ == if r {
                old(events)@.push(event)
            } else {
                old(events)@
            },
    {
        if self.accepts_in(&event, current_year) {
            events.push(event);
            true
        } else {
            false
        }
    }

    /// Adds `event` to `events` when it passes the filter this year, by the clock, and
    /// says whether it did.
    pub fn keep(&self, events: &mut Vec<Event>, event: Event) -> (r: bool)
        ensures
            exists|y: int| MIN_YEAR <= y <= MAX_YEAR && r == filter_accepts(self@, event@, y),
            self@.is_empty() ==> r,
            final(events)@ == if r {
                old(events)@.push(event)
            } else {
                old(events)@
            },
    {
        let today = crate::calendar::Date::today();
        self.keep_in(events, event, today.year())
    }

    pub fn contains_month_day(&self) -> (r: bool)
        ensures
            r == has_month_day(self@),
    {
        let p = position_of_kind(&self.options, SingleKind::MonthDay);
        proof {
            if let Some(i) = p {
                lemma_option_set_contains(self.options@, i as int);
            }
        }
        p.is_some()
    }

    pub fn contains_category(&self) -> (r: bool)
        ensures
            r == has_category(self@),
    {
        let p = position_of_kind(&self.options, SingleKind::Category);
        proof {
            if let Some(i) = p {
                lemma_option_set_contains(self.options@, i as int);
            }
        }
        p.is_some()
    }

    pub fn contains_text(&self) -> (r: bool)
        ensures
            r == has_text(self@),
    {
        let p = position_of_kind(&self.options, SingleKind::Text);
        proof {
            if let Some(i) = p {
                lemma_option_set_contains(self.options@, i as int);
            }
        }
        p.is_some()
    }

    /// The month-day option's month-day, if there is one.
    pub fn month_day(&self) -> (r: Option<MonthDay>)
        ensures
            r matches Some(md) ==> self@.contains(FilterOptionView::MonthDay(md@)),
            r is Some <==> has_month_day(self@),
            // A filter holds at most one month-day option.
            forall|x: MonthDayView|
                #[trigger] self@.contains(FilterOptionView::MonthDay(x)) ==> (r matches Some(md) && md@
                    == x),
    {
        proof { use_type_invariant(self); }
        match position_of_kind(&self.options, SingleKind::MonthDay) {
            Some(i) => match &self.options[i] {
                FilterOption::MonthDay(md) => {
                    proof {
                        lemma_option_set_contains(self.options@, i as int);
                        assert(is_month_day_option(FilterOptionView::MonthDay(md@)));
                        assert forall|x: MonthDayView| #[trigger] self@.contains(FilterOptionView::MonthDay(x))
                            implies md@ == x by {
                            lemma_single_of_kind(self.options@, i as int, FilterOptionView::MonthDay(x), SingleKind::MonthDay);
                        }
                    }
                    Some(*md)
                },
                _ => None,
            },
            None => None,
        }
    }

    /// The category option's category, if there is one.
    pub fn category(&self) -> (r: Option<Category>)
        ensures
            r matches Some(c) ==> self@.contains(FilterOptionView::Category(c@)),
            r is Some <==> has_category(self@),
            // A filter holds at most one category option.
            forall|x: CategoryView|
                #[trigger] self@.contains(FilterOptionView::Category(x)) ==> (r matches Some(c) && c@ == x),
    {
        proof { use_type_invariant(self); }
        match position_of_kind(&self.options, SingleKind::Category) {
            Some(i) => match &self.options[i] {
                FilterOption::Category(c) => {
                    proof {
                        lemma_option_set_contains(self.options@, i as int);
                        assert(is_category_option(FilterOptionView::Category(c@)));
                        assert forall|x: CategoryView| #[trigger] self@.contains(FilterOptionView::Category(x))
                            implies c@ == x by {
                            lemma_single_of_kind(self.options@, i as int, FilterOptionView::Category(x), SingleKind::Category);
                        }
                    }
                    Some(c.clone())
                },
                _ => None,
            },
            None => None,
        }
    }

    /// The text option's text, if there is one.
    pub fn text(&self) -> (r: Option<String>)
        ensures
            r matches Some(t) ==> self@.contains(FilterOptionView::Text(t@)),
            r is Some <==> has_text(self@),
            // A filter holds at most one text option.
            forall|x: Seq<char>|
                #[trigger] self@.contains(FilterOptionView::Text(x)) ==> (r matches Some(t) && t@ == x),
    {
        proof { use_type_invariant(self); }
        match position_of_kind(&self.options, SingleKind::Text) {
            Some(i) => match &self.options[i] {
                FilterOption::Text(t) => {
                    proof {
                        lemma_option_set_contains(self.options@, i as int);
                        assert(is_text_option(FilterOptionView::Text(t@)));
                        assert forall|x: Seq<char>| #[trigger] self@.contains(FilterOptionView::Text(x))
                            implies t@ == x by {
                            lemma_single_of_kind(self.options@, i as int, FilterOptionView::Text(x), SingleKind::Text);
                        }
                    }
                    Some(t.clone())
                },
                _ => None,
            },
            None => None,
        }
    }
}


/// Whether every option of `a` is held by `b`.
fn all_held(a: &Vec<FilterOption>, b: &Vec<FilterOption>) -> (r: bool)
    ensures
        r == option_set(a@).subset_of(option_set(b@)),
{
    let mut i: usize = 0;
    while i < a.len()
        invariant
            i <= a@.len(),
            forall|j: int| 0 <= j < i ==> option_set(b@).contains(#[trigger] a@[j]@),
        decreases a@.len() - i,
    {
        if !holds_option(b, &a[i]) {
            proof { lemma_option_set_contains(a@, i as int); }
            return false;
        }
        i = i + 1;
    }
    proof {
        assert forall|o: FilterOptionView| option_set(a@).contains(o) implies option_set(b@).contains(o) by {
            let k = choose|k: int| 0 <= k < option_views(a@).len() && option_views(a@)[k] == o;
            assert(option_views(a@)[k] == a@[k]@);
        }
    }
    true
}

impl PartialEq for EventFilter {
    fn eq(&self, other: &EventFilter) -> (r: bool) {
        let same = all_held(&self.options, &other.options) && all_held(&other.options, &self.options);
        proof {
            if same {
                assert(self@ =~= other@);
            }
        }
        same
    }
}

impl vstd::std_specs::cmp::PartialEqSpecImpl for EventFilter {
    open spec fn obeys_eq_spec() -> bool {
        true
    }

    open spec fn eq_spec(&self, other: &EventFilter) -> bool {
        self@ == other@
    }
}

// ---------------------------------------------------------------------------
// The builder
// ---------------------------------------------------------------------------

/// Collects the options of a filter; a second month-day, category or text option is
/// dropped, the first one is kept.
pub struct FilterBuilder {
    options: Vec<FilterOption>,
}

impl View for FilterBuilder {
    type V = Set<FilterOptionView>;

    closed spec fn view(&self) -> Set<FilterOptionView> {
        option_set(self.options@)
    }
}

impl FilterBuilder {
    #[verifier::type_invariant]
    closed spec fn inv(self) -> bool {
        options_wf(option_views(self.options@))
    }

    pub fn new() -> (r: FilterBuilder)
        ensures
            r@ == Set::<FilterOptionView>::empty(),
    {
        let r = FilterBuilder { options: Vec::new() };
        assert(r@ =~= Set::<FilterOptionView>::empty());
        r
    }

    pub fn contains_month_day(&self) -> (r: bool)
        ensures
            r == has_month_day(self@),
    {
        let p = position_of_kind(&self.options, SingleKind::MonthDay);
        proof {
            if let Some(i) = p {
                lemma_option_set_contains(self.options@, i as int);
            }
        }
        p.is_some()
    }

    pub fn contains_category(&self) -> (r: bool)
        ensures
            r == has_category(self@),
    {
        let p = position_of_kind(&self.options, SingleKind::Category);
        proof {
            if let Some(i) = p {
                lemma_option_set_contains(self.options@, i as int);
            }
        }
        p.is_some()
    }

    pub fn contains_text(&self) -> (r: bool)
        ensures
            r == has_text(self@),
    {
        let p = position_of_kind(&self.options, SingleKind::Text);
        proof {
            if let Some(i) = p {
                lemma_option_set_contains(self.options@, i as int);
            }
        }
        p.is_some()
    }

    /// Adds a month-day option, unless there is one already.
    pub fn month_day(self, month_day: MonthDay) -> (r: FilterBuilder)
        ensures
            r@ == with_month_day(self@, month_day@),
    {
        proof { use_type_invariant(&self); }
        if self.contains_month_day() {
            self
        } else {
            let FilterBuilder { options } = self;
            let mut options = options;
            let o = FilterOption::MonthDay(month_day);
            proof {
                if option_set(options@).contains(o@) {
                    assert(is_month_day_option(o@));
                }
                lemma_push_keeps_wf(options@, o);
            }
            options.push(o);
            FilterBuilder { options }
        }
    }

    /// Adds a category option, unless there is one already.
    pub fn category(self, category: Category) -> (r: FilterBuilder)
        ensures
            r@ == with_category(self@, category@),
    {
        proof { use_type_invariant(&self); }
        if self.contains_category() {
            self
        } else {
            let FilterBuilder { options } = self;
            let mut options = options;
            let o = FilterOption::Category(category);
            proof {
                if option_set(options@).contains(o@) {
                    assert(is_category_option(o@));
                }
                lemma_push_keeps_wf(options@, o);
            }
            options.push(o);
            FilterBuilder { options }
        }
    }

    /// Adds a text option, unless there is one already.
    pub fn text(self, text: String) -> (r: FilterBuilder)
        ensures
            r@ == with_text(self@, text@),
    {
        proof { use_type_invariant(&self); }
        if self.contains_text() {
            self
        } else {
            let FilterBuilder { options } = self;
            let mut options = options;
            let o = FilterOption::Text(text);
            proof {
                if option_set(options@).contains(o@) {
                    assert(is_text_option(o@));
                }
                lemma_push_keeps_wf(options@, o);
            }
            options.push(o);
            FilterBuilder { options }
        }
    }

    /// Adds an option that excludes a category.
    pub fn exclude(self, category: Category) -> (r: FilterBuilder)
        ensures
            r@ == with_exclude(self@, category@),
    {
        proof { use_type_invariant(&self); }
        let o = FilterOption::Exclude(category);
        if holds_option(&self.options, &o) {
            assert(self@.insert(o@) =~= self@);
            self
        } else {
            let FilterBuilder { options } = self;
            let mut options = options;
            proof {
                lemma_push_keeps_wf(options@, o);
            }
            options.push(o);
            FilterBuilder { options }
        }
    }

    pub fn build(self) -> (r: EventFilter)
        ensures
            r@ == self@,
    {
        proof { use_type_invariant(&self); }
        let FilterBuilder { options } = self;
        EventFilter { options }
    }
}

// ---------------------------------------------------------------------------
// Laws of filters
// ---------------------------------------------------------------------------

/// A filter without options passes every event.
pub proof fn lemma_empty_filter_accepts_all(e: EventView, year: int)
    ensures
        filter_accepts(Set::<FilterOptionView>::empty(), e, year),
{
}

/// An event passes a filter with one more option exactly when it passes that option and
/// the rest.
pub proof fn lemma_filter_accepts_insert(set: Set<FilterOptionView>, o: FilterOptionView, e: EventView, year: int)
    ensures
        filter_accepts(set.insert(o), e, year) == (option_accepts(o, e, year) && filter_accepts(set, e, year)),
{
    if option_accepts(o, e, year) && filter_accepts(set, e, year) {
        assert forall|x: FilterOptionView| #[trigger] set.insert(o).contains(x) implies option_accepts(x, e, year) by {
            if x != o {
                assert(set.contains(x));
            }
        }
    }
    if filter_accepts(set.insert(o), e, year) {
        assert(set.insert(o).contains(o));
        assert forall|x: FilterOptionView| #[trigger] set.contains(x) implies option_accepts(x, e, year) by {
            assert(set.insert(o).contains(x));
        }
    }
}

/// The first month-day, category and text given to a builder are kept; later ones are
/// dropped.
pub proof fn lemma_first_single_option_kept(
    set: Set<FilterOptionView>,
    md1: MonthDayView,
    md2: MonthDayView,
    c1: CategoryView,
    c2: CategoryView,
    t1: Seq<char>,
    t2: Seq<char>,
)
    ensures
        with_month_day(with_month_day(set, md1), md2) == with_month_day(set, md1),
        with_category(with_category(set, c1), c2) == with_category(set, c1),
        with_text(with_text(set, t1), t2) == with_text(set, t1),
{
    if !has_month_day(set) {
        let o = FilterOptionView::MonthDay(md1);
        assert(with_month_day(set, md1).contains(o) && is_month_day_option(o));
    }
    if !has_category(set) {
        let o = FilterOptionView::Category(c1);
        assert(with_category(set, c1).contains(o) && is_category_option(o));
    }
    if !has_text(set) {
        let o = FilterOptionView::Text(t1);
        assert(with_text(set, t1).contains(o) && is_text_option(o));
    }
}

/// Excluding a category twice is excluding it once, and the order of exclusions does
/// not matter.
pub proof fn lemma_exclusions_commute(set: Set<FilterOptionView>, a: CategoryView, b: CategoryView)
    ensures
        with_exclude(with_exclude(set, a), a) == with_exclude(set, a),
        with_exclude(with_exclude(set, a), b) == with_exclude(with_exclude(set, b), a),
{
    assert(with_exclude(with_exclude(set, a), a) =~= with_exclude(set, a));
    assert(with_exclude(with_exclude(set, a), b) =~= with_exclude(with_exclude(set, b), a));
}

/// Options of different kinds may be given to a builder in either order.
pub proof fn lemma_single_options_commute(
    set: Set<FilterOptionView>,
    md: MonthDayView,
    c: CategoryView,
    t: Seq<char>,
)
    ensures
        with_category(with_month_day(set, md), c) == with_month_day(with_category(set, c), md),
        with_text(with_month_day(set, md), t) == with_month_day(with_text(set, t), md),
        with_text(with_category(set, c), t) == with_category(with_text(set, t), c),
{
    assert(has_category(with_month_day(set, md)) == has_category(set)) by {
        if has_category(with_month_day(set, md)) {
            let o = choose|o: FilterOptionView| with_month_day(set, md).contains(o) && is_category_option(o);
            assert(set.contains(o));
        }
    }
    assert(has_month_day(with_category(set, c)) == has_month_day(set)) by {
        if has_month_day(with_category(set, c)) {
            let o = choose|o: FilterOptionView| with_category(set, c).contains(o) && is_month_day_option(o);
            assert(set.contains(o));
        }
    }
    assert(has_text(with_month_day(set, md)) == has_text(set)) by {
        if has_text(with_month_day(set, md)) {
            let o = choose|o: FilterOptionView| with_month_day(set, md).contains(o) && is_text_option(o);
            assert(set.contains(o));
        }
    }
    assert(has_month_day(with_text(set, t)) == has_month_day(set)) by {
        if has_month_day(with_text(set, t)) {
            let o = choose|o: FilterOptionView| with_text(set, t).contains(o) && is_month_day_option(o);
            assert(set.contains(o));
        }
    }
    assert(has_text(with_category(set, c)) == has_text(set)) by {
        if has_text(with_category(set, c)) {
            let o = choose|o: FilterOptionView| with_category(set, c).contains(o) && is_text_option(o);
            assert(set.contains(o));
        }
    }
    assert(has_category(with_text(set, t)) == has_category(set)) by {
        if has_category(with_text(set, t)) {
            let o = choose|o: FilterOptionView| with_text(set, t).contains(o) && is_category_option(o);
            assert(set.contains(o));
        }
    }
    assert(with_category(with_month_day(set, md), c) =~= with_month_day(with_category(set, c), md));
    assert(with_text(with_month_day(set, md), t) =~= with_month_day(with_text(set, t), md));
    assert(with_text(with_category(set, c), t) =~= with_category(with_text(set, t), c));
}

} // verus!
