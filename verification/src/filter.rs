//! Filters that select events by month and day, category and text.

use crate::chars::{
    string_of, chars_of, contains, contains_spec, occurs_at, eq_ignore_ascii_case, is_ascii_seq, lemma_lowercase_ignores_case, lowercase, to_lowercase,
};
use crate::date::{today_local, MAX_YEAR, MIN_YEAR};
use crate::event::{
    event_month_day_spec, md_opt_view, EventKindView, Category, CategoryView, Event, EventView, MonthDay, MonthDayView,
};
use vstd::prelude::*;

verus! {

/// One condition of a filter.
#[derive(Debug, Clone, PartialEq)]
pub enum FilterOption {
    MonthDay(MonthDay),
    Categories(Vec<Category>),
    Text(String),
    ExcludeCategories(Vec<Category>),
}

pub enum FilterOptionView {
    MonthDay(MonthDayView),
    Categories(Seq<CategoryView>),
    Text(Seq<char>),
    ExcludeCategories(Seq<CategoryView>),
}

pub open spec fn categories_view(v: Seq<Category>) -> Seq<CategoryView> {
    v.map_values(|c: Category| c@)
}

impl View for FilterOption {
    type V = FilterOptionView;

    open spec fn view(&self) -> FilterOptionView {
        match self {
            FilterOption::MonthDay(md) => FilterOptionView::MonthDay(md@),
            FilterOption::Categories(cs) => FilterOptionView::Categories(categories_view(cs@)),
            FilterOption::Text(t) => FilterOptionView::Text(t@),
            FilterOption::ExcludeCategories(cs) => FilterOptionView::ExcludeCategories(categories_view(cs@)),
        }
    }
}

/// The text `*`.
pub open spec fn star() -> Seq<char> {
    seq!['*']
}

/// A filter category matches an event category when
/// - the filter's secondary category is `*` and the primary categories are equal, or
/// - the filter has another secondary category and the categories are equal, or
/// - the filter has no secondary category and its primary category equals the
///   event's primary or secondary category.
pub open spec fn categories_match_spec(f: CategoryView, e: CategoryView) -> bool {
    match f.secondary {
        Some(s) => if s == star() {
            f.primary == e.primary
        } else {
            f == e
        },
        None => match e.secondary {
            Some(es) => f.primary == e.primary || f.primary == es,
            None => f.primary == e.primary,
        },
    }
}

/// Some category of `cs` matches the event category `e`.
pub open spec fn any_category_matches(cs: Seq<CategoryView>, e: CategoryView) -> bool {
    exists|i: int| 0 <= i < cs.len() && categories_match_spec(#[trigger] cs[i], e)
}

/// The event passes one option of a filter, in year `y`.
pub open spec fn option_accepts(o: FilterOptionView, e: EventView, y: int) -> bool {
    match o {
        FilterOptionView::MonthDay(md) => event_month_day_spec(e, y) == Some(md),
        FilterOptionView::Categories(cs) => any_category_matches(cs, e.category),
        FilterOptionView::Text(t) => contains_spec(lowercase(e.description), lowercase(t)),
        FilterOptionView::ExcludeCategories(cs) => !any_category_matches(cs, e.category),
    }
}

/// An event passes a filter in year `y` when it passes all of its options;
/// a filter without options passes every event.
pub open spec fn accepts_spec(options: Seq<FilterOptionView>, e: EventView, y: int) -> bool {
    forall|i: int| 0 <= i < options.len() ==> option_accepts(#[trigger] options[i], e, y)
}

/// Which of the four kinds an option is: month and day, categories, text,
/// or categories to exclude.
pub open spec fn option_kind(o: FilterOptionView) -> int {
    match o {
        FilterOptionView::MonthDay(_) => 0,
        FilterOptionView::Categories(_) => 1,
        FilterOptionView::Text(_) => 2,
        FilterOptionView::ExcludeCategories(_) => 3,
    }
}

/// No two options are of the same kind.
pub open spec fn kinds_distinct(options: Seq<FilterOptionView>) -> bool {
    forall|i: int, j: int| 0 <= i < j < options.len() ==> option_kind(options[i]) != option_kind(options[j])
}

/// `options` without those of kind `k`, the others in their order.
pub open spec fn remove_kind(options: Seq<FilterOptionView>, k: int) -> Seq<FilterOptionView>
    decreases options.len(),
{
    if options.len() == 0 {
        seq![]
    } else {
        let rest = remove_kind(options.drop_last(), k);
        if option_kind(options.last()) == k {
            rest
        } else {
            rest.push(options.last())
        }
    }
}

/// `options` with `o` set: in place of any option of its kind, at the end.
pub open spec fn set_spec(options: Seq<FilterOptionView>, o: FilterOptionView) -> Seq<FilterOptionView> {
    remove_kind(options, option_kind(o)).push(o)
}

proof fn lemma_remove_kind(options: Seq<FilterOptionView>, k: int)
    ensures
        forall|i: int| 0 <= i < remove_kind(options, k).len() ==> option_kind(#[trigger] remove_kind(options, k)[i]) != k,
        forall|x: FilterOptionView| remove_kind(options, k).contains(x) ==> options.contains(x),
        kinds_distinct(options) ==> kinds_distinct(remove_kind(options, k)),
        (forall|i: int| 0 <= i < options.len() ==> option_kind(#[trigger] options[i]) != k) ==> remove_kind(options, k) == options,
    decreases options.len(),
{
    if options.len() > 0 {
        let dl = options.drop_last();
        let last = options.last();
        lemma_remove_kind(dl, k);
        let rest = remove_kind(dl, k);
        assert forall|x: FilterOptionView| dl.contains(x) implies options.contains(x) by {
            let j = choose|j: int| 0 <= j < dl.len() && dl[j] == x;
            assert(options[j] == x);
        }
        assert(options[options.len() - 1] == last);
        if option_kind(last) != k {
            let r = rest.push(last);
            assert forall|x: FilterOptionView| r.contains(x) implies options.contains(x) by {
                let j = choose|j: int| 0 <= j < r.len() && r[j] == x;
                if j < rest.len() {
                    assert(rest[j] == x);
                    assert(rest.contains(x));
                }
            }
            if kinds_distinct(options) {
                assert(kinds_distinct(dl)) by {
                    assert forall|i: int, j: int| 0 <= i < j < dl.len() implies option_kind(dl[i]) != option_kind(dl[j]) by {
                        assert(dl[i] == options[i] && dl[j] == options[j]);
                    }
                }
                assert forall|i: int, j: int| 0 <= i < j < r.len() implies option_kind(r[i]) != option_kind(r[j]) by {
                    if j == rest.len() {
                        assert(rest.contains(rest[i]));
                        assert(dl.contains(rest[i]));
                        let m = choose|m: int| 0 <= m < dl.len() && dl[m] == rest[i];
                        assert(options[m] == dl[m]);
                    } else {
                        assert(r[i] == rest[i] && r[j] == rest[j]);
                    }
                }
            }
            if forall|i: int| 0 <= i < options.len() ==> option_kind(#[trigger] options[i]) != k {
                assert forall|i: int| 0 <= i < dl.len() implies option_kind(#[trigger] dl[i]) != k by {
                    assert(dl[i] == options[i]);
                }
                assert(r =~= options);
            }
        } else {
            if kinds_distinct(options) {
                assert forall|i: int, j: int| 0 <= i < j < dl.len() implies option_kind(dl[i]) != option_kind(dl[j]) by {
                    assert(dl[i] == options[i] && dl[j] == options[j]);
                }
            }
        }
    }
}

pub open spec fn options_view(v: Seq<FilterOption>) -> Seq<FilterOptionView> {
    v.map_values(|o: FilterOption| o@)
}

fn kind_of(o: &FilterOption) -> (r: u8)
    ensures
        r as int == option_kind(o@),
{
    match o {
        FilterOption::MonthDay(_) => 0,
        FilterOption::Categories(_) => 1,
        FilterOption::Text(_) => 2,
        FilterOption::ExcludeCategories(_) => 3,
    }
}

/// Sets `o` in `options`, in place of any option of its kind.
fn set_option(options: Vec<FilterOption>, o: FilterOption) -> (r: Vec<FilterOption>)
    requires
        kinds_distinct(options_view(options@)),
    ensures
        options_view(r@) == set_spec(options_view(options@), o@),
        kinds_distinct(options_view(r@)),
{
    let ghost orig = options_view(options@);
    let k = kind_of(&o);
    let mut rest = options;
    let mut kept: Vec<FilterOption> = Vec::new();
    let ghost mut i: int = 0;
    assert(orig.take(0) =~= Seq::<FilterOptionView>::empty());
    assert(options_view(kept@) =~= Seq::<FilterOptionView>::empty());
    assert(orig.skip(0) =~= orig);
    while rest.len() > 0
        invariant
            0 <= i <= orig.len(),
            options_view(rest@) == orig.skip(i),
            options_view(kept@) == remove_kind(orig.take(i), k as int),
            k as int == option_kind(o@),
        decreases rest.len(),
    {
        assert(options_view(rest@).len() == rest@.len());
        let x = rest.remove(0);
        proof {
            assert(orig.skip(i)[0] == x@);
            assert(orig.take(i + 1).drop_last() =~= orig.take(i));
            assert(orig.take(i + 1).last() == orig[i]);
            assert(orig.skip(i).drop_first() =~= orig.skip(i + 1));
            assert(options_view(rest@) =~= orig.skip(i).drop_first());
        }
        if kind_of(&x) != k {
            let ghost before = options_view(kept@);
            kept.push(x);
            assert(options_view(kept@) =~= before.push(x@));
        }
        proof {
            i = i + 1;
        }
    }
    assert(orig.take(i) =~= orig);
    let ghost before = options_view(kept@);
    kept.push(o);
    assert(options_view(kept@) =~= before.push(o@));
    proof {
        lemma_remove_kind(orig, k as int);
        let r = before.push(o@);
        assert forall|a: int, b: int| 0 <= a < b < r.len() implies option_kind(r[a]) != option_kind(r[b]) by {
            if b == before.len() {
                assert(option_kind(before[a]) != k as int);
            } else {
                assert(r[a] == before[a] && r[b] == before[b]);
            }
        }
    }
    kept
}

/// A set of options that selects events: an event passes when it passes
/// every option.
#[derive(Debug)]
pub struct EventFilter {
    options: Vec<FilterOption>,
}

impl View for EventFilter {
    type V = Seq<FilterOptionView>;

    closed spec fn view(&self) -> Seq<FilterOptionView> {
        options_view(self.options@)
    }
}

/// Whether a filter category matches an event category; see
/// `categories_match_spec`.
pub fn categories_match(filter_category: &Category, event_category: &Category) -> (r: bool)
    ensures
        r == categories_match_spec(filter_category@, event_category@),
{
    let fp = filter_category.primary();
    let ep = event_category.primary();
    match filter_category.secondary() {
        Some(fs) => {
            let star_text = string_of(&chars_of("*"));
            proof {
                reveal_strlit("*");
                assert(star_text@ =~= star());
            }
            if fs == star_text {
                fp == ep
            } else {
                match event_category.secondary() {
                    Some(es) => fp == ep && fs == es,
                    None => false,
                }
            }
        },
        None => match event_category.secondary() {
            Some(es) => fp == ep || fp == es,
            None => fp == ep,
        },
    }
}

/// Some category of `categories` matches `event_category`.
pub(crate) fn any_match(categories: &Vec<Category>, event_category: &Category) -> (r: bool)
    ensures
        r == any_category_matches(categories_view(categories@), event_category@),
{
    let mut i: usize = 0;
    while i < categories.len()
        invariant
            i <= categories.len(),
            forall|k: int| 0 <= k < i ==> !categories_match_spec(#[trigger] categories_view(categories@)[k], event_category@),
        decreases categories.len() - i,
    {
        if categories_match(&categories[i], event_category) {
            assert(categories_match_spec(categories_view(categories@)[i as int], event_category@));
            return true;
        }
        i = i + 1;
    }
    false
}

/// Whether `event` passes the option `o` in year `year`.
fn option_passes(o: &FilterOption, event: &Event, year: i32) -> (r: bool)
    requires
        MIN_YEAR <= year <= MAX_YEAR,
    ensures
        r == option_accepts(o@, event@, year as int),
{
    match o {
        FilterOption::MonthDay(md) => {
            match event.month_day_in(year) {
                Some(emd) => emd.month() == md.month() && emd.day() == md.day(),
                None => false,
            }
        },
        FilterOption::Categories(categories) => {
            let c = event.category();
            any_match(categories, &c)
        },
        FilterOption::Text(text) => {
            let d = event.description();
            let ld = to_lowercase(d.as_str());
            let lt = to_lowercase(text.as_str());
            let hay = chars_of(ld.as_str());
            let needle = chars_of(lt.as_str());
            contains(&hay, &needle)
        },
        FilterOption::ExcludeCategories(categories) => {
            let c = event.category();
            !any_match(categories, &c)
        },
    }
}

impl EventFilter {
    #[verifier::type_invariant]
    closed spec fn inv(self) -> bool {
        kinds_distinct(options_view(self.options@))
    }

    /// The filter without options, which passes every event.
    pub fn new() -> (r: EventFilter)
        ensures
            r@ == Seq::<FilterOptionView>::empty(),
    {
        let r = EventFilter { options: Vec::new() };
        assert(r@ =~= Seq::<FilterOptionView>::empty());
        r
    }

    /// The options hold at most one option of each kind.
    pub fn options_are_distinct(&self)
        ensures
            kinds_distinct(self@),
    {
        proof { use_type_invariant(self); }
    }

    /// Whether `event` passes the filter in year `year`: it passes every option.
    pub fn accepts_in_year(&self, event: &Event, year: i32) -> (r: bool)
        requires
            MIN_YEAR <= year <= MAX_YEAR,
        ensures
            r == accepts_spec(self@, event@, year as int),
    {
        let mut i: usize = 0;
        while i < self.options.len()
            invariant
                MIN_YEAR <= year <= MAX_YEAR,
                i <= self.options.len(),
                forall|k: int| 0 <= k < i ==> option_accepts(#[trigger] self@[k], event@, year as int),
            decreases self.options.len() - i,
        {
            let ok = option_passes(&self.options[i], event, year);
            assert(self@[i as int] == self.options@[i as int]@);
            if !ok {
                return false;
            }
            i = i + 1;
        }
        true
    }

    /// Checks if an event passes the filter: it passes every option, taken in
    /// the current year. A filter without options passes every event.
    pub fn accepts(&self, event: &Event) -> (r: bool)
        ensures
            exists|y: int| MIN_YEAR <= y <= MAX_YEAR && r == accepts_spec(self@, event@, y),
    {
        let y = today_local().year();
        self.accepts_in_year(event, y)
    }

    pub fn contains_month_day(&self) -> (r: bool)
        ensures
            r == first_month_day(self@) is Some,
    {
        self.month_day().is_some()
    }

    pub fn contains_categories(&self) -> (r: bool)
        ensures
            r == first_categories(self@) is Some,
    {
        self.categories().is_some()
    }

    pub fn contains_exclude_categories(&self) -> (r: bool)
        ensures
            r == first_exclude(self@) is Some,
    {
        self.exclude_categories().is_some()
    }

    pub fn contains_text(&self) -> (r: bool)
        ensures
            r == first_text(self@) is Some,
    {
        self.text().is_some()
    }

    /// The month and day of the filter, where it has one.
    pub fn month_day(&self) -> (r: Option<MonthDay>)
        ensures
            md_opt_view(r) == first_month_day(self@),
    {
        let ghost o = self@;
        let mut i: usize = 0;
        assert(o.skip(0) =~= o);
        while i < self.options.len()
            invariant
                i <= self.options.len(),
                o == self@,
                o == options_view(self.options@),
                first_month_day(o) == first_month_day(o.skip(i as int)),
            decreases self.options.len() - i,
        {
            proof { lemma_skip_first(o, i as int); }
            match &self.options[i] {
                FilterOption::MonthDay(md) => {
                    return Some(*md);
                },
                _ => {},
            }
            i = i + 1;
        }
        None
    }

    /// The categories of the filter, where it has them.
    pub fn categories(&self) -> (r: Option<Vec<Category>>)
        ensures
            categories_opt_view(r) == first_categories(self@),
    {
        let ghost o = self@;
        let mut i: usize = 0;
        assert(o.skip(0) =~= o);
        while i < self.options.len()
            invariant
                i <= self.options.len(),
                o == self@,
                o == options_view(self.options@),
                first_categories(o) == first_categories(o.skip(i as int)),
            decreases self.options.len() - i,
        {
            proof { lemma_skip_first(o, i as int); }
            match &self.options[i] {
                FilterOption::Categories(cs) => {
                    return Some(clone_categories(cs));
                },
                _ => {},
            }
            i = i + 1;
        }
        None
    }

    /// The text of the filter, where it has one.
    pub fn text(&self) -> (r: Option<String>)
        ensures
            (match r { Some(t) => Some(t@), None => None::<Seq<char>> }) == first_text(self@),
    {
        let ghost o = self@;
        let mut i: usize = 0;
        assert(o.skip(0) =~= o);
        while i < self.options.len()
            invariant
                i <= self.options.len(),
                o == self@,
                o == options_view(self.options@),
                first_text(o) == first_text(o.skip(i as int)),
            decreases self.options.len() - i,
        {
            proof { lemma_skip_first(o, i as int); }
            match &self.options[i] {
                FilterOption::Text(t) => {
                    return Some(t.clone());
                },
                _ => {},
            }
            i = i + 1;
        }
        None
    }

    /// The categories to exclude of the filter, where it has them.
    pub fn exclude_categories(&self) -> (r: Option<Vec<Category>>)
        ensures
            categories_opt_view(r) == first_exclude(self@),
    {
        let ghost o = self@;
        let mut i: usize = 0;
        assert(o.skip(0) =~= o);
        while i < self.options.len()
            invariant
                i <= self.options.len(),
                o == self@,
                o == options_view(self.options@),
                first_exclude(o) == first_exclude(o.skip(i as int)),
            decreases self.options.len() - i,
        {
            proof { lemma_skip_first(o, i as int); }
            match &self.options[i] {
                FilterOption::ExcludeCategories(cs) => {
                    return Some(clone_categories(cs));
                },
                _ => {},
            }
            i = i + 1;
        }
        None
    }
}

pub open spec fn categories_opt_view(r: Option<Vec<Category>>) -> Option<Seq<CategoryView>> {
    match r {
        Some(c) => Some(categories_view(c@)),
        None => None,
    }
}

/// The month and day of the first month-and-day option, where there is one.
pub open spec fn first_month_day(options: Seq<FilterOptionView>) -> Option<MonthDayView>
    decreases options.len(),
{
    if options.len() == 0 {
        None
    } else {
        match options[0] {
            FilterOptionView::MonthDay(md) => Some(md),
            _ => first_month_day(options.drop_first()),
        }
    }
}

/// The categories of the first categories option, where there is one.
pub open spec fn first_categories(options: Seq<FilterOptionView>) -> Option<Seq<CategoryView>>
    decreases options.len(),
{
    if options.len() == 0 {
        None
    } else {
        match options[0] {
            FilterOptionView::Categories(cs) => Some(cs),
            _ => first_categories(options.drop_first()),
        }
    }
}

/// The text of the first text option, where there is one.
pub open spec fn first_text(options: Seq<FilterOptionView>) -> Option<Seq<char>>
    decreases options.len(),
{
    if options.len() == 0 {
        None
    } else {
        match options[0] {
            FilterOptionView::Text(t) => Some(t),
            _ => first_text(options.drop_first()),
        }
    }
}

/// The categories of the first exclude option, where there is one.
pub open spec fn first_exclude(options: Seq<FilterOptionView>) -> Option<Seq<CategoryView>>
    decreases options.len(),
{
    if options.len() == 0 {
        None
    } else {
        match options[0] {
            FilterOptionView::ExcludeCategories(cs) => Some(cs),
            _ => first_exclude(options.drop_first()),
        }
    }
}

proof fn lemma_skip_first(options: Seq<FilterOptionView>, i: int)
    requires
        0 <= i < options.len(),
    ensures
        options.skip(i)[0] == options[i],
        options.skip(i).drop_first() == options.skip(i + 1),
{
    assert(options.skip(i).drop_first() =~= options.skip(i + 1));
}

fn clone_categories(v: &Vec<Category>) -> (r: Vec<Category>)
    ensures
        categories_view(r@) == categories_view(v@),
{
    let mut r: Vec<Category> = Vec::new();
    let mut i: usize = 0;
    while i < v.len()
        invariant
            i <= v.len(),
            categories_view(r@) =~= categories_view(v@).take(i as int),
        decreases v.len() - i,
    {
        let c = v[i].clone();
        let ghost before = r@;
        r.push(c);
        assert(categories_view(r@) =~= categories_view(before).push(c@));
        assert(categories_view(v@).take(i + 1) =~= categories_view(v@).take(i as int).push(v@[i as int]@));
        i = i + 1;
    }
    assert(categories_view(v@).take(v.len() as int) =~= categories_view(v@));
    r
}

/// Builds an `EventFilter` option by option. If no options are set, the
/// filter passes every event.
pub struct FilterBuilder {
    options: Vec<FilterOption>,
}

impl View for FilterBuilder {
    type V = Seq<FilterOptionView>;

    closed spec fn view(&self) -> Seq<FilterOptionView> {
        options_view(self.options@)
    }
}

impl FilterBuilder {
    #[verifier::type_invariant]
    closed spec fn inv(self) -> bool {
        kinds_distinct(options_view(self.options@))
    }

    pub fn new() -> (r: FilterBuilder)
        ensures
            r@ == Seq::<FilterOptionView>::empty(),
    {
        let r = FilterBuilder { options: Vec::new() };
        assert(r@ =~= Seq::<FilterOptionView>::empty());
        r
    }

    /// Sets the month and day to accept, in place of any set before.
    pub fn month_day(self, month_day: MonthDay) -> (r: FilterBuilder)
        ensures
            r@ == set_spec(self@, FilterOptionView::MonthDay(month_day@)),
    {
        proof { use_type_invariant(&self); }
        let options = set_option(self.options, FilterOption::MonthDay(month_day));
        FilterBuilder { options }
    }

    /// Sets the categories to accept, in place of any set before; `None`
    /// leaves the builder as it is.
    pub fn categories(self, categories: Option<Vec<Category>>) -> (r: FilterBuilder)
        ensures
            r@ == (match categories {
                Some(c) => set_spec(self@, FilterOptionView::Categories(categories_view(c@))),
                None => self@,
            }),
    {
        proof { use_type_invariant(&self); }
        match categories {
            Some(c) => FilterBuilder { options: set_option(self.options, FilterOption::Categories(c)) },
            None => self,
        }
    }

    /// Sets the categories to not accept, in place of any set before; `None`
    /// leaves the builder as it is.
    pub fn exclude_categories(self, exclude_categories: Option<Vec<Category>>) -> (r: FilterBuilder)
        ensures
            r@ == (match exclude_categories {
                Some(c) => set_spec(self@, FilterOptionView::ExcludeCategories(categories_view(c@))),
                None => self@,
            }),
    {
        proof { use_type_invariant(&self); }
        match exclude_categories {
            Some(e) => FilterBuilder { options: set_option(self.options, FilterOption::ExcludeCategories(e)) },
            None => self,
        }
    }

    /// Sets the text to search for in the event description, in place of
    /// any set before; `None` leaves the builder as it is.
    pub fn text(self, text: Option<String>) -> (r: FilterBuilder)
        ensures
            r@ == (match text {
                Some(t) => set_spec(self@, FilterOptionView::Text(t@)),
                None => self@,
            }),
    {
        proof { use_type_invariant(&self); }
        match text {
            Some(t) => FilterBuilder { options: set_option(self.options, FilterOption::Text(t)) },
            None => self,
        }
    }

    /// The filter with the options set so far.
    pub fn build(self) -> (r: EventFilter)
        ensures
            r@ == self@,
    {
        proof { use_type_invariant(&self); }
        EventFilter { options: self.options }
    }
}

// ---------------------------------------------------------------- laws

/// A filter without options passes every event, in every year.
pub proof fn lemma_empty_filter_passes_all(e: EventView, y: int)
    ensures
        accepts_spec(Seq::<FilterOptionView>::empty(), e, y),
{
}

/// An event passes a filter with an option set exactly when it passes the
/// other options and the new one.
pub proof fn lemma_set_option_accepts(options: Seq<FilterOptionView>, o: FilterOptionView, e: EventView, y: int)
    ensures
        accepts_spec(set_spec(options, o), e, y) == (accepts_spec(remove_kind(options, option_kind(o)), e, y)
            && option_accepts(o, e, y)),
{
    let r = remove_kind(options, option_kind(o));
    let n = r.push(o);
    if accepts_spec(r, e, y) && option_accepts(o, e, y) {
        assert forall|i: int| 0 <= i < n.len() implies option_accepts(#[trigger] n[i], e, y) by {
            if i < r.len() {
                assert(n[i] == r[i]);
            }
        }
    }
    if accepts_spec(n, e, y) {
        assert(option_accepts(n[r.len() as int], e, y));
        assert forall|i: int| 0 <= i < r.len() implies option_accepts(#[trigger] r[i], e, y) by {
            assert(n[i] == r[i]);
        }
    }
}

/// Setting an option of a kind that the filter does not have yet only
/// narrows it: an event passes the new filter exactly when it passes the
/// old one and the option.
pub proof fn lemma_added_option_narrows(options: Seq<FilterOptionView>, o: FilterOptionView, e: EventView, y: int)
    requires
        forall|i: int| 0 <= i < options.len() ==> option_kind(#[trigger] options[i]) != option_kind(o),
    ensures
        accepts_spec(set_spec(options, o), e, y) == (accepts_spec(options, e, y) && option_accepts(o, e, y)),
{
    lemma_remove_kind(options, option_kind(o));
    lemma_set_option_accepts(options, o, e, y);
}

/// Every category matches itself.
pub proof fn lemma_category_matches_itself(c: CategoryView)
    ensures
        categories_match_spec(c, c),
{
}

/// Excluding categories passes exactly the events that including the same
/// categories does not pass.
pub proof fn lemma_exclude_is_complement(cs: Seq<CategoryView>, e: EventView, y: int)
    ensures
        option_accepts(FilterOptionView::ExcludeCategories(cs), e, y) == !option_accepts(
            FilterOptionView::Categories(cs),
            e,
            y,
        ),
{
}

proof fn lemma_first_month_day_push(options: Seq<FilterOptionView>, o: FilterOptionView)
    ensures
        first_month_day(options.push(o)) == (match first_month_day(options) {
            Some(x) => Some(x),
            None => first_month_day(seq![o]),
        }),
    decreases options.len(),
{
    if options.len() > 0 {
        assert(options.push(o)[0] == options[0]);
        assert(options.push(o).drop_first() =~= options.drop_first().push(o));
        lemma_first_month_day_push(options.drop_first(), o);
    } else {
        assert(options.push(o) =~= seq![o]);
    }
    assert(seq![o].drop_first() =~= Seq::<FilterOptionView>::empty());
}

proof fn lemma_first_month_day_remove(options: Seq<FilterOptionView>, k: int)
    ensures
        k == 0 ==> first_month_day(remove_kind(options, k)) is None,
        k != 0 ==> first_month_day(remove_kind(options, k)) == first_month_day(options),
    decreases options.len(),
{
    if options.len() > 0 {
        let dl = options.drop_last();
        let last = options.last();
        lemma_first_month_day_remove(dl, k);
        lemma_first_month_day_push(dl, last);
        assert(dl.push(last) =~= options);
        assert(seq![last].drop_first() =~= Seq::<FilterOptionView>::empty());
        assert(first_month_day(Seq::<FilterOptionView>::empty()) is None);
        assert(seq![last][0] == last);
        if option_kind(last) != 0 {
            assert(first_month_day(seq![last]) is None);
        }
        assert(remove_kind(options, k) == (if option_kind(last) == k {
            remove_kind(dl, k)
        } else {
            remove_kind(dl, k).push(last)
        }));
        if option_kind(last) != k {
            lemma_first_month_day_push(remove_kind(dl, k), last);
        }
    }
}

proof fn lemma_first_categories_push(options: Seq<FilterOptionView>, o: FilterOptionView)
    ensures
        first_categories(options.push(o)) == (match first_categories(options) {
            Some(x) => Some(x),
            None => first_categories(seq![o]),
        }),
    decreases options.len(),
{
    if options.len() > 0 {
        assert(options.push(o)[0] == options[0]);
        assert(options.push(o).drop_first() =~= options.drop_first().push(o));
        lemma_first_categories_push(options.drop_first(), o);
    } else {
        assert(options.push(o) =~= seq![o]);
    }
    assert(seq![o].drop_first() =~= Seq::<FilterOptionView>::empty());
}

proof fn lemma_first_categories_remove(options: Seq<FilterOptionView>, k: int)
    ensures
        k == 1 ==> first_categories(remove_kind(options, k)) is None,
        k != 1 ==> first_categories(remove_kind(options, k)) == first_categories(options),
    decreases options.len(),
{
    if options.len() > 0 {
        let dl = options.drop_last();
        let last = options.last();
        lemma_first_categories_remove(dl, k);
        lemma_first_categories_push(dl, last);
        assert(dl.push(last) =~= options);
        assert(seq![last].drop_first() =~= Seq::<FilterOptionView>::empty());
        assert(first_categories(Seq::<FilterOptionView>::empty()) is None);
        assert(seq![last][0] == last);
        if option_kind(last) != 1 {
            assert(first_categories(seq![last]) is None);
        }
        assert(remove_kind(options, k) == (if option_kind(last) == k {
            remove_kind(dl, k)
        } else {
            remove_kind(dl, k).push(last)
        }));
        if option_kind(last) != k {
            lemma_first_categories_push(remove_kind(dl, k), last);
        }
    }
}

proof fn lemma_first_text_push(options: Seq<FilterOptionView>, o: FilterOptionView)
    ensures
        first_text(options.push(o)) == (match first_text(options) {
            Some(x) => Some(x),
            None => first_text(seq![o]),
        }),
    decreases options.len(),
{
    if options.len() > 0 {
        assert(options.push(o)[0] == options[0]);
        assert(options.push(o).drop_first() =~= options.drop_first().push(o));
        lemma_first_text_push(options.drop_first(), o);
    } else {
        assert(options.push(o) =~= seq![o]);
    }
    assert(seq![o].drop_first() =~= Seq::<FilterOptionView>::empty());
}

proof fn lemma_first_text_remove(options: Seq<FilterOptionView>, k: int)
    ensures
        k == 2 ==> first_text(remove_kind(options, k)) is None,
        k != 2 ==> first_text(remove_kind(options, k)) == first_text(options),
    decreases options.len(),
{
    if options.len() > 0 {
        let dl = options.drop_last();
        let last = options.last();
        lemma_first_text_remove(dl, k);
        lemma_first_text_push(dl, last);
        assert(dl.push(last) =~= options);
        assert(seq![last].drop_first() =~= Seq::<FilterOptionView>::empty());
        assert(first_text(Seq::<FilterOptionView>::empty()) is None);
        assert(seq![last][0] == last);
        if option_kind(last) != 2 {
            assert(first_text(seq![last]) is None);
        }
        assert(remove_kind(options, k) == (if option_kind(last) == k {
            remove_kind(dl, k)
        } else {
            remove_kind(dl, k).push(last)
        }));
        if option_kind(last) != k {
            lemma_first_text_push(remove_kind(dl, k), last);
        }
    }
}

proof fn lemma_first_exclude_push(options: Seq<FilterOptionView>, o: FilterOptionView)
    ensures
        first_exclude(options.push(o)) == (match first_exclude(options) {
            Some(x) => Some(x),
            None => first_exclude(seq![o]),
        }),
    decreases options.len(),
{
    if options.len() > 0 {
        assert(options.push(o)[0] == options[0]);
        assert(options.push(o).drop_first() =~= options.drop_first().push(o));
        lemma_first_exclude_push(options.drop_first(), o);
    } else {
        assert(options.push(o) =~= seq![o]);
    }
    assert(seq![o].drop_first() =~= Seq::<FilterOptionView>::empty());
}

proof fn lemma_first_exclude_remove(options: Seq<FilterOptionView>, k: int)
    ensures
        k == 3 ==> first_exclude(remove_kind(options, k)) is None,
        k != 3 ==> first_exclude(remove_kind(options, k)) == first_exclude(options),
    decreases options.len(),
{
    if options.len() > 0 {
        let dl = options.drop_last();
        let last = options.last();
        lemma_first_exclude_remove(dl, k);
        lemma_first_exclude_push(dl, last);
        assert(dl.push(last) =~= options);
        assert(seq![last].drop_first() =~= Seq::<FilterOptionView>::empty());
        assert(first_exclude(Seq::<FilterOptionView>::empty()) is None);
        assert(seq![last][0] == last);
        if option_kind(last) != 3 {
            assert(first_exclude(seq![last]) is None);
        }
        assert(remove_kind(options, k) == (if option_kind(last) == k {
            remove_kind(dl, k)
        } else {
            remove_kind(dl, k).push(last)
        }));
        if option_kind(last) != k {
            lemma_first_exclude_push(remove_kind(dl, k), last);
        }
    }
}

/// What is set on a filter is what the filter gives back: setting the
/// month and day makes them the filter's month and day, in place of any set
/// before, and leaves what the filter gives of its other options.
pub proof fn lemma_set_month_day_then_get(options: Seq<FilterOptionView>, md: MonthDayView)
    ensures
        first_month_day(set_spec(options, FilterOptionView::MonthDay(md))) == Some(md),
        first_categories(set_spec(options, FilterOptionView::MonthDay(md))) == first_categories(options),
        first_text(set_spec(options, FilterOptionView::MonthDay(md))) == first_text(options),
        first_exclude(set_spec(options, FilterOptionView::MonthDay(md))) == first_exclude(options),
{
    lemma_first_month_day_remove(options, 0);
    lemma_first_month_day_push(remove_kind(options, 0), FilterOptionView::MonthDay(md));
    lemma_first_categories_remove(options, 0);
    lemma_first_categories_push(remove_kind(options, 0), FilterOptionView::MonthDay(md));
    lemma_first_text_remove(options, 0);
    lemma_first_text_push(remove_kind(options, 0), FilterOptionView::MonthDay(md));
    lemma_first_exclude_remove(options, 0);
    lemma_first_exclude_push(remove_kind(options, 0), FilterOptionView::MonthDay(md));
    assert(seq![FilterOptionView::MonthDay(md)].drop_first() =~= Seq::<FilterOptionView>::empty());
    assert(first_categories(seq![FilterOptionView::MonthDay(md)]) == first_categories(Seq::<FilterOptionView>::empty()));
    assert(first_text(seq![FilterOptionView::MonthDay(md)]) == first_text(Seq::<FilterOptionView>::empty()));
    assert(first_exclude(seq![FilterOptionView::MonthDay(md)]) == first_exclude(Seq::<FilterOptionView>::empty()));
}

/// What is set on a filter is what the filter gives back: setting the
/// categories makes them the filter's categories, in place of any set
/// before, and leaves what the filter gives of its other options.
pub proof fn lemma_set_categories_then_get(options: Seq<FilterOptionView>, cs: Seq<CategoryView>)
    ensures
        first_categories(set_spec(options, FilterOptionView::Categories(cs))) == Some(cs),
        first_month_day(set_spec(options, FilterOptionView::Categories(cs))) == first_month_day(options),
        first_text(set_spec(options, FilterOptionView::Categories(cs))) == first_text(options),
        first_exclude(set_spec(options, FilterOptionView::Categories(cs))) == first_exclude(options),
{
    lemma_first_month_day_remove(options, 1);
    lemma_first_month_day_push(remove_kind(options, 1), FilterOptionView::Categories(cs));
    lemma_first_categories_remove(options, 1);
    lemma_first_categories_push(remove_kind(options, 1), FilterOptionView::Categories(cs));
    lemma_first_text_remove(options, 1);
    lemma_first_text_push(remove_kind(options, 1), FilterOptionView::Categories(cs));
    lemma_first_exclude_remove(options, 1);
    lemma_first_exclude_push(remove_kind(options, 1), FilterOptionView::Categories(cs));
    assert(seq![FilterOptionView::Categories(cs)].drop_first() =~= Seq::<FilterOptionView>::empty());
    assert(first_month_day(seq![FilterOptionView::Categories(cs)]) == first_month_day(Seq::<FilterOptionView>::empty()));
    assert(first_text(seq![FilterOptionView::Categories(cs)]) == first_text(Seq::<FilterOptionView>::empty()));
    assert(first_exclude(seq![FilterOptionView::Categories(cs)]) == first_exclude(Seq::<FilterOptionView>::empty()));
}

/// What is set on a filter is what the filter gives back: setting the
/// text makes them the filter's text, in place of any set
/// before, and leaves what the filter gives of its other options.
pub proof fn lemma_set_text_then_get(options: Seq<FilterOptionView>, t: Seq<char>)
    ensures
        first_text(set_spec(options, FilterOptionView::Text(t))) == Some(t),
        first_month_day(set_spec(options, FilterOptionView::Text(t))) == first_month_day(options),
        first_categories(set_spec(options, FilterOptionView::Text(t))) == first_categories(options),
        first_exclude(set_spec(options, FilterOptionView::Text(t))) == first_exclude(options),
{
    lemma_first_month_day_remove(options, 2);
    lemma_first_month_day_push(remove_kind(options, 2), FilterOptionView::Text(t));
    lemma_first_categories_remove(options, 2);
    lemma_first_categories_push(remove_kind(options, 2), FilterOptionView::Text(t));
    lemma_first_text_remove(options, 2);
    lemma_first_text_push(remove_kind(options, 2), FilterOptionView::Text(t));
    lemma_first_exclude_remove(options, 2);
    lemma_first_exclude_push(remove_kind(options, 2), FilterOptionView::Text(t));
    assert(seq![FilterOptionView::Text(t)].drop_first() =~= Seq::<FilterOptionView>::empty());
    assert(first_month_day(seq![FilterOptionView::Text(t)]) == first_month_day(Seq::<FilterOptionView>::empty()));
    assert(first_categories(seq![FilterOptionView::Text(t)]) == first_categories(Seq::<FilterOptionView>::empty()));
    assert(first_exclude(seq![FilterOptionView::Text(t)]) == first_exclude(Seq::<FilterOptionView>::empty()));
}

/// What is set on a filter is what the filter gives back: setting the
/// categories to exclude makes them the filter's categories to exclude, in place of any set
/// before, and leaves what the filter gives of its other options.
pub proof fn lemma_set_exclude_then_get(options: Seq<FilterOptionView>, cs: Seq<CategoryView>)
    ensures
        first_exclude(set_spec(options, FilterOptionView::ExcludeCategories(cs))) == Some(cs),
        first_month_day(set_spec(options, FilterOptionView::ExcludeCategories(cs))) == first_month_day(options),
        first_categories(set_spec(options, FilterOptionView::ExcludeCategories(cs))) == first_categories(options),
        first_text(set_spec(options, FilterOptionView::ExcludeCategories(cs))) == first_text(options),
{
    lemma_first_month_day_remove(options, 3);
    lemma_first_month_day_push(remove_kind(options, 3), FilterOptionView::ExcludeCategories(cs));
    lemma_first_categories_remove(options, 3);
    lemma_first_categories_push(remove_kind(options, 3), FilterOptionView::ExcludeCategories(cs));
    lemma_first_text_remove(options, 3);
    lemma_first_text_push(remove_kind(options, 3), FilterOptionView::ExcludeCategories(cs));
    lemma_first_exclude_remove(options, 3);
    lemma_first_exclude_push(remove_kind(options, 3), FilterOptionView::ExcludeCategories(cs));
    assert(seq![FilterOptionView::ExcludeCategories(cs)].drop_first() =~= Seq::<FilterOptionView>::empty());
    assert(first_month_day(seq![FilterOptionView::ExcludeCategories(cs)]) == first_month_day(Seq::<FilterOptionView>::empty()));
    assert(first_categories(seq![FilterOptionView::ExcludeCategories(cs)]) == first_categories(Seq::<FilterOptionView>::empty()));
    assert(first_text(seq![FilterOptionView::ExcludeCategories(cs)]) == first_text(Seq::<FilterOptionView>::empty()));
}

/// Text search ignores case: two ASCII search texts that differ only in the
/// case of their letters pass the same events.
pub proof fn lemma_text_search_ignores_case(t1: Seq<char>, t2: Seq<char>, e: EventView, y: int)
    requires
        is_ascii_seq(t1),
        is_ascii_seq(t2),
        eq_ignore_ascii_case(t1, t2),
    ensures
        option_accepts(FilterOptionView::Text(t1), e, y) == option_accepts(FilterOptionView::Text(t2), e, y),
{
    lemma_lowercase_ignores_case(t1, t2);
}

/// A filter category with a secondary name other than `*` (`primary/secondary`)
/// matches an event category exactly when both names are equal: the two
/// categories are the same.
pub proof fn lemma_exact_category_matches_only_itself(f: CategoryView, e: CategoryView)
    requires
        f.secondary is Some,
        f.secondary.unwrap() != star(),
    ensures
        categories_match_spec(f, e) <==> (f.primary == e.primary && f.secondary == e.secondary),
{
}

/// A filter category `primary/*` matches exactly the event categories with the
/// same primary name, whatever their secondary name.
pub proof fn lemma_star_category_matches_primary(f: CategoryView, e: CategoryView)
    requires
        f.secondary == Some(star()),
    ensures
        categories_match_spec(f, e) <==> f.primary == e.primary,
{
}

/// A filter category with only a primary name matches an event category
/// exactly when that name is the event's primary or its secondary name.
pub proof fn lemma_primary_category_matches_either_name(f: CategoryView, e: CategoryView)
    requires
        f.secondary is None,
    ensures
        categories_match_spec(f, e) <==> (f.primary == e.primary || e.secondary == Some(f.primary)),
{
}

/// A month-day option passes an event in year `y` exactly when the event
/// falls on a day that year whose month and day are the option's.
pub proof fn lemma_month_day_option_passes(md: MonthDayView, e: EventView, y: int)
    ensures
        option_accepts(FilterOptionView::MonthDay(md), e, y) <==> (event_month_day_spec(e, y) is Some
            && event_month_day_spec(e, y).unwrap().month == md.month
            && event_month_day_spec(e, y).unwrap().day == md.day),
{
}

/// An event on a date, or a yearly event on a month and day, passes a
/// month-day option exactly when its month and its day are the option's,
/// in every year.
pub proof fn lemma_month_day_option_dated_events(md: MonthDayView, e: EventView, y: int)
    ensures
        e.kind matches EventKindView::Singular(d) ==> (option_accepts(FilterOptionView::MonthDay(md), e, y)
            <==> (d.month == md.month && d.day == md.day)),
        e.kind matches EventKindView::Annual(a) ==> (option_accepts(FilterOptionView::MonthDay(md), e, y)
            <==> (a.month == md.month && a.day == md.day)),
{
}

/// A filter whose only option is a month and day passes an event on a date
/// exactly when the date's month and day are those.
pub proof fn lemma_month_day_filter_dated_event(md: MonthDayView, e: EventView, y: int)
    requires
        e.kind is Singular,
    ensures
        accepts_spec(seq![FilterOptionView::MonthDay(md)], e, y) <==> (e.kind->Singular_0.month == md.month
            && e.kind->Singular_0.day == md.day),
{
    assert(seq![FilterOptionView::MonthDay(md)][0] == FilterOptionView::MonthDay(md));
}

/// A text option passes an event exactly when the lowercased text occurs,
/// as a run of consecutive characters, in the lowercased description.
pub proof fn lemma_text_option_searches_description(t: Seq<char>, e: EventView, y: int)
    ensures
        option_accepts(FilterOptionView::Text(t), e, y) <==> (exists|i: int|
            0 <= i && i + lowercase(t).len() <= lowercase(e.description).len()
                && #[trigger] lowercase(e.description).subrange(i, i + lowercase(t).len()) == lowercase(t)),
{
    let hay = lowercase(e.description);
    let needle = lowercase(t);
    if option_accepts(FilterOptionView::Text(t), e, y) {
        let i = choose|i: int| occurs_at(hay, needle, i);
        assert(hay.subrange(i, i + needle.len()) == needle);
    }
    if exists|i: int| 0 <= i && i + needle.len() <= hay.len() && #[trigger] hay.subrange(i, i + needle.len()) == needle {
        let i = choose|i: int| 0 <= i && i + needle.len() <= hay.len() && #[trigger] hay.subrange(i, i + needle.len()) == needle;
        assert(occurs_at(hay, needle, i));
    }
}

/// Whether an event passes a text option depends on its description alone:
/// two events with the same description pass or fail it alike, whatever
/// their categories, dates and years.
pub proof fn lemma_text_option_ignores_all_but_description(t: Seq<char>, e1: EventView, e2: EventView, y1: int, y2: int)
    requires
        e1.description == e2.description,
    ensures
        option_accepts(FilterOptionView::Text(t), e1, y1) == option_accepts(FilterOptionView::Text(t), e2, y2),
{
}

/// An empty description passes a text option only for a text that
/// lowercases to nothing.
pub proof fn lemma_text_option_empty_description(t: Seq<char>, e: EventView, y: int)
    requires
        lowercase(e.description).len() == 0,
    ensures
        option_accepts(FilterOptionView::Text(t), e, y) <==> lowercase(t).len() == 0,
{
    let hay = lowercase(e.description);
    let needle = lowercase(t);
    if needle.len() == 0 {
        assert(hay.subrange(0, 0) =~= needle);
        assert(occurs_at(hay, needle, 0));
    } else if option_accepts(FilterOptionView::Text(t), e, y) {
        let i = choose|i: int| occurs_at(hay, needle, i);
        assert(false);
    }
}

/// A categories option with a single category passes exactly the events
/// whose category that one matches.
pub proof fn lemma_single_category_option(c: CategoryView, e: EventView, y: int)
    ensures
        option_accepts(FilterOptionView::Categories(seq![c]), e, y) == categories_match_spec(c, e.category),
{
    if categories_match_spec(c, e.category) {
        assert(seq![c][0] == c);
    }
}

/// A categories option passes an event exactly when one of its parts does:
/// the categories of `cs1 + cs2` select what `cs1` or `cs2` selects.
pub proof fn lemma_categories_option_union(cs1: Seq<CategoryView>, cs2: Seq<CategoryView>, e: EventView, y: int)
    ensures
        option_accepts(FilterOptionView::Categories(cs1 + cs2), e, y) == (option_accepts(
            FilterOptionView::Categories(cs1),
            e,
            y,
        ) || option_accepts(FilterOptionView::Categories(cs2), e, y)),
{
    let cs = cs1 + cs2;
    if option_accepts(FilterOptionView::Categories(cs), e, y) {
        let i = choose|i: int| 0 <= i < cs.len() && categories_match_spec(#[trigger] cs[i], e.category);
        if i < cs1.len() {
            assert(cs[i] == cs1[i]);
        } else {
            assert(cs[i] == cs2[i - cs1.len()]);
        }
    }
    if option_accepts(FilterOptionView::Categories(cs1), e, y) {
        let i = choose|i: int| 0 <= i < cs1.len() && categories_match_spec(#[trigger] cs1[i], e.category);
        assert(cs[i] == cs1[i]);
    }
    if option_accepts(FilterOptionView::Categories(cs2), e, y) {
        let i = choose|i: int| 0 <= i < cs2.len() && categories_match_spec(#[trigger] cs2[i], e.category);
        assert(cs[i + cs1.len()] == cs2[i]);
    }
}

/// A categories option without categories passes no event, and excluding
/// no categories passes every event.
pub proof fn lemma_empty_categories_option(e: EventView, y: int)
    ensures
        !option_accepts(FilterOptionView::Categories(Seq::empty()), e, y),
        option_accepts(FilterOptionView::ExcludeCategories(Seq::empty()), e, y),
{
}

} // verus!
