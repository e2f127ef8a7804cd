//! Events kept in a text file, one event per block of four lines: the date,
//! the description, the category and a separator line.

use crate::chars::{
    lemma_split_concat, lemma_split_nonempty, lowercase, contains_spec, decimal_spec, lemma_two_digits, occurs_at, is_digit, lemma_padded_digits, lemma_replace_absent, padded_decimal_spec, lemma_split_append, lemma_split_without_sep, chars_of, contains_char, push_all, replace_all, replace_spec, split_char, split_spec, starts_with,
    starts_with_spec, string_of,
};
use crate::date::{chrono_parse_date, date_opt_view, date_text, date_string, parse_date, Date, DateView};
use crate::event::{
    lemma_category_text_reads_back, lemma_rule_text_reads_back, lemma_rule_text_letters, valid_month_day, MonthDayView, category_from_str_spec, category_text, md_of, month_day_text, rule_parse_spec, rule_text, Category,
    CategoryView, Event, EventKind, EventKindView, EventView, MonthDay, Rule,
};
use crate::filter::{accepts_spec, EventFilter, FilterOptionView};
use vstd::prelude::*;

verus! {

/// A text file of events.
pub struct TextFileProvider {
    name: String,
    path: String,
}

#[derive(Debug, Clone, Copy, PartialEq, Eq, Structural)]
pub enum TextFileProviderError {
    ParseError,
}

pub open spec fn event_opt_view(r: Option<Event>) -> Option<EventView> {
    match r {
        Some(e) => Some(e@),
        None => None,
    }
}

pub open spec fn event_result_view<E>(r: Result<Event, E>) -> Option<EventView> {
    match r {
        Ok(e) => Some(e@),
        Err(_) => None,
    }
}

/// The mark `--` of a date without a year.
pub open spec fn yearless_mark() -> Seq<char> {
    seq!['-', '-']
}

pub open spec fn year_2000_prefix() -> Seq<char> {
    seq!['2', '0', '0', '0', '-']
}

/// The event of a date that chrono has read (`parsed`): an annual event on
/// its month and day where the text had no year, an event on that date
/// otherwise; none where chrono read no date.
pub open spec fn dated_event_spec(
    parsed: Option<DateView>,
    yearless: bool,
    description: Seq<char>,
    category: CategoryView,
) -> Option<EventView> {
    match parsed {
        None => None,
        Some(d) => if yearless {
            Some(EventView { kind: EventKindView::Annual(md_of(d)), description, category })
        } else {
            Some(EventView { kind: EventKindView::Singular(d), description, category })
        },
    }
}

/// The event of one block of a text file: a date text without `-` is a
/// rule; `--MM-DD` is an annual date (read as a date of the year 2000);
/// any other text is a date that chrono reads.
pub open spec fn text_event_spec(category: Seq<char>, date: Seq<char>, description: Seq<char>) -> Option<EventView> {
    let cat = category_from_str_spec(category);
    let yearless = starts_with_spec(date, yearless_mark());
    let ds = if yearless { replace_spec(date, yearless_mark(), year_2000_prefix()) } else { date };
    if !ds.contains('-') {
        match rule_parse_spec(ds) {
            Ok(r) => Some(EventView { kind: EventKindView::RuleBased(r), description, category: cat }),
            Err(_) => None,
        }
    } else {
        dated_event_spec(chrono_parse_date(ds), yearless, description, cat)
    }
}

/// The events of the lines of a text file that pass the filter `options` in
/// year `y`: each block of four lines holds one event; reading stops at the
/// first block that holds none, and at an incomplete last block.
pub open spec fn text_events_spec(lines: Seq<Seq<char>>, options: Seq<crate::filter::FilterOptionView>, y: int) -> Seq<EventView>
    decreases lines.len(),
{
    if lines.len() < 4 {
        seq![]
    } else {
        match text_event_spec(lines[2], lines[0], lines[1]) {
            None => seq![],
            Some(e) => (if accepts_spec(options, e, y) { seq![e] } else { seq![] }) + text_events_spec(
                lines.skip(4),
                options,
                y,
            ),
        }
    }
}

/// The lines of a text as `BufRead::lines` gives them: the pieces between
/// line feeds, a carriage return before a line feed dropped, and no last
/// piece where the text ends with a line feed.
pub open spec fn lines_spec(content: Seq<char>) -> Seq<Seq<char>> {
    let pieces = split_spec(content, '\n');
    let n = pieces.len();
    let complete = pieces.take(n - 1).map_values(|p: Seq<char>| strip_cr(p));
    if pieces[n - 1].len() == 0 {
        complete
    } else {
        complete.push(pieces[n - 1])
    }
}

/// A line without one carriage return at its end.
pub open spec fn strip_cr(p: Seq<char>) -> Seq<char> {
    if p.len() > 0 && p.last() == '\r' {
        p.drop_last()
    } else {
        p
    }
}

/// The date line that the text file holds for an event.
pub open spec fn date_line(e: EventView) -> Seq<char> {
    match e.kind {
        EventKindView::Singular(d) => date_text(d),
        EventKindView::Annual(md) => yearless_mark() + month_day_text(md),
        EventKindView::RuleBased(r) => rule_text(r),
    }
}

/// The block that adding an event appends to a text file.
pub open spec fn text_entry(e: EventView) -> Seq<char> {
    date_line(e).push('\n') + e.description.push('\n') + category_text(e.category).push('\n').push('\n')
}

pub open spec fn strings_view(v: Seq<String>) -> Seq<Seq<char>> {
    v.map_values(|s: String| s@)
}

pub open spec fn events_view(v: Seq<Event>) -> Seq<EventView> {
    v.map_values(|e: Event| e@)
}

impl TextFileProvider {
    pub fn new(name: &str, path: &str) -> (r: TextFileProvider)
        ensures
            r.name_spec() == name@,
            r.path_spec() == path@,
    {
        TextFileProvider { name: name.to_string(), path: path.to_string() }
    }

    pub closed spec fn name_spec(&self) -> Seq<char> {
        self.name@
    }

    pub fn name(&self) -> (r: String)
        ensures
            r@ == self.name_spec(),
    {
        self.name.clone()
    }

    /// The path of the file.
    pub fn path(&self) -> (r: &str)
        ensures
            r@ == self.path_spec(),
    {
        self.path.as_str()
    }

    /// The path of the file that the source was made with.
    pub closed spec fn path_spec(&self) -> Seq<char> {
        self.path@
    }

    /// Events can be added to a text file.
    pub fn add_is_supported(&self) -> (r: bool)
        ensures
            r,
    {
        true
    }

    /// The event of a date that chrono has read; see `dated_event_spec`.
    pub fn dated_event(parsed: Option<Date>, is_yearless: bool, description: &str, category: Category) -> (r: Option<Event>)
        ensures
            event_opt_view(r) == dated_event_spec(date_opt_view(parsed), is_yearless, description@, category@),
    {
        match parsed {
            Some(date) => {
                if is_yearless {
                    let md = MonthDay::of_date(&date);
                    Some(Event::new_annual(md, description.to_string(), category))
                } else {
                    Some(Event::new_singular(date, description.to_string(), category))
                }
            },
            None => None,
        }
    }

    /// The event of one block of a text file. The lines that adding an
    /// event writes are read as that event.
    pub fn parse_event(category_string: &str, date_string: &str, description: &str) -> (r: Result<Event, TextFileProviderError>)
        ensures
            event_result_view(r) == text_event_spec(category_string@, date_string@, description@),
            forall|e: EventView|
                #![trigger date_line(e), category_text(e.category)]
                date_line(e) == date_string@ && category_text(e.category) == category_string@ && e.description
                    == description@ && event_kind_valid(e.kind) && names_storable(e.category) ==> event_result_view(r)
                    == Some(e),
    {
        let category = Category::from_str(category_string);
        let date_chars = chars_of(date_string);
        let mark: Vec<char> = vec!['-', '-'];
        let is_yearless = starts_with(&date_chars, &mark);
        let ds = if is_yearless {
            let prefix: Vec<char> = vec!['2', '0', '0', '0', '-'];
            replace_all(&date_chars, &mark, &prefix)
        } else {
            date_chars
        };
        if !contains_char(&ds, '-') {
            let text = string_of(&ds);
            let result = match Rule::parse(text.as_str()) {
                Ok(rule) => Ok(Event::new_rule_based(rule, description.to_string(), category)),
                Err(_) => Err(TextFileProviderError::ParseError),
            };
            proof {
                assert forall|e: EventView|
                    #![trigger date_line(e), category_text(e.category)]
                    date_line(e) == date_string@ && category_text(e.category) == category_string@ && e.description
                        == description@ && event_kind_valid(e.kind) && names_storable(
                        e.category,
                    ) implies event_result_view(result) == Some(e) by {
                    lemma_category_text_reads_back(e.category);
                    match e.kind {
                        EventKindView::Singular(d) => {
                            lemma_date_text_shape(d);
                        },
                        EventKindView::Annual(md) => {
                            lemma_annual_line_shape(md);
                        },
                        EventKindView::RuleBased(rl) => {
                            lemma_rule_line_shape(rl);
                            lemma_rule_text_reads_back(rl);
                        },
                    }
                }
            }
            result
        } else {
            let text = string_of(&ds);
            let parsed = parse_date(text.as_str());
            let result = match Self::dated_event(parsed, is_yearless, description, category) {
                Some(e) => Ok(e),
                None => Err(TextFileProviderError::ParseError),
            };
            proof {
                assert forall|e: EventView|
                    #![trigger date_line(e), category_text(e.category)]
                    date_line(e) == date_string@ && category_text(e.category) == category_string@ && e.description
                        == description@ && event_kind_valid(e.kind) && names_storable(
                        e.category,
                    ) implies event_result_view(result) == Some(e) by {
                    lemma_category_text_reads_back(e.category);
                    match e.kind {
                        EventKindView::Singular(d) => {
                            lemma_date_text_shape(d);
                            assert(text@ == date_text(d));
                        },
                        EventKindView::Annual(md) => {
                            lemma_annual_line_shape(md);
                            assert(text@ == date_text(DateView { year: 2000, month: md.month, day: md.day }));
                        },
                        EventKindView::RuleBased(rl) => {
                            lemma_rule_line_shape(rl);
                        },
                    }
                }
            }
            result
        }
    }

    /// The events of the lines of a text file that pass `filter` in year `year`.
    pub fn events_from_lines_in_year(lines: &Vec<String>, filter: &EventFilter, year: i32) -> (r: Vec<Event>)
        requires
            crate::date::MIN_YEAR <= year <= crate::date::MAX_YEAR,
        ensures
            events_view(r@) == text_events_spec(strings_view(lines@), filter@, year as int),
    {
        let mut events: Vec<Event> = Vec::new();
        let mut i: usize = 0;
        let ghost all = strings_view(lines@);
        assert(all.skip(0) =~= all);
        assert(events_view(events@) + text_events_spec(all, filter@, year as int) =~= text_events_spec(all, filter@, year as int));
        while lines.len() - i >= 4
            invariant
                crate::date::MIN_YEAR <= year <= crate::date::MAX_YEAR,
                i <= lines.len(),
                all == strings_view(lines@),
                events_view(events@) + text_events_spec(all.skip(i as int), filter@, year as int)
                    == text_events_spec(all, filter@, year as int),
            decreases lines.len() - i,
        {
            let ghost rest = all.skip(i as int);
            assert(rest[0] == lines@[i as int]@);
            assert(rest[1] == lines@[i + 1]@);
            assert(rest[2] == lines@[i + 2]@);
            assert(rest.skip(4) =~= all.skip(i + 4));
            match Self::parse_event(lines[i + 2].as_str(), lines[i].as_str(), lines[i + 1].as_str()) {
                Ok(event) => {
                    let ghost before = events_view(events@);
                    if filter.accepts_in_year(&event, year) {
                        events.push(event);
                        assert(events_view(events@) =~= before.push(event@));
                        assert(before.push(event@) + text_events_spec(all.skip(i + 4), filter@, year as int)
                            =~= before + (seq![event@] + text_events_spec(all.skip(i + 4), filter@, year as int)));
                    } else {
                        assert(seq![] + text_events_spec(all.skip(i + 4), filter@, year as int)
                            =~= text_events_spec(all.skip(i + 4), filter@, year as int));
                    }
                },
                Err(_) => {
                    assert(events_view(events@) + Seq::<EventView>::empty() =~= events_view(events@));
                    return events;
                },
            }
            i = i + 4;
        }
        assert(events_view(events@) + Seq::<EventView>::empty() =~= events_view(events@));
        events
    }

    /// The events of the lines of a text file that pass `filter`, taken in
    /// the current year.
    pub fn events_from_lines(lines: &Vec<String>, filter: &EventFilter) -> (r: Vec<Event>)
        ensures
            exists|y: int| crate::date::MIN_YEAR <= y <= crate::date::MAX_YEAR
                && events_view(r@) == text_events_spec(strings_view(lines@), filter@, y),
    {
        let y = crate::date::today_local().year();
        Self::events_from_lines_in_year(lines, filter, y)
    }

    /// The lines of a text, as `BufRead::lines` gives them.
    pub fn lines_of(content: &str) -> (r: Vec<String>)
        ensures
            strings_view(r@) == lines_spec(content@),
    {
        let cs = chars_of(content);
        let pieces = split_char(&cs, '\n');
        let n = pieces.len();
        let mut out: Vec<String> = Vec::new();
        let mut i: usize = 0;
        let ghost ps = split_spec(content@, '\n');
        while i + 1 < n
            invariant
                n == pieces.len(),
                n >= 1,
                i < n,
                ps == crate::chars::seqs_of(pieces@),
                strings_view(out@) =~= ps.take(i as int).map_values(|p: Seq<char>| strip_cr(p)),
            decreases n - i,
        {
            let p = &pieces[i];
            let line = if p.len() > 0 && p[p.len() - 1] == '\r' {
                let mut q: Vec<char> = Vec::new();
                let mut k: usize = 0;
                while k + 1 < p.len()
                    invariant
                        p.len() > 0,
                        k + 1 <= p.len(),
                        q@ =~= p@.take(k as int),
                    decreases p.len() - k,
                {
                    q.push(p[k]);
                    k = k + 1;
                }
                assert(q@ =~= p@.drop_last());
                string_of(&q)
            } else {
                string_of(p)
            };
            assert(line@ == strip_cr(ps[i as int]));
            let ghost before = strings_view(out@);
            out.push(line);
            assert(strings_view(out@) =~= before.push(line@));
            assert(ps.take(i + 1).map_values(|p: Seq<char>| strip_cr(p))
                =~= ps.take(i as int).map_values(|p: Seq<char>| strip_cr(p)).push(strip_cr(ps[i as int])));
            i = i + 1;
        }
        assert(ps[n - 1] == pieces@[n - 1]@);
        if pieces[n - 1].len() > 0 {
            let last = string_of(&pieces[n - 1]);
            let ghost before = strings_view(out@);
            out.push(last);
            assert(strings_view(out@) =~= before.push(last@));
        }
        out
    }

    /// The date line of an event: its date, `--MM-DD`, or its rule.
    pub fn date_line_text(event: &Event) -> (r: String)
        ensures
            r@ == date_line(event@),
    {
        match event.kind() {
            EventKind::Singular(date) => date_string(&date),
            EventKind::Annual(md) => {
                let mut w: Vec<char> = vec!['-', '-'];
                let t = md.to_string();
                let tc = chars_of(t.as_str());
                push_all(&mut w, &tc);
                string_of(&w)
            },
            EventKind::RuleBased(rule) => rule.as_string(),
        }
    }

    /// The block that adding `event` appends to the file: the date line, the
    /// description, the category and an empty line.
    pub fn entry_text(event: &Event) -> (r: String)
        ensures
            r@ == text_entry(event@),
    {
        let first = Self::date_line_text(event);
        let mut v = chars_of(first.as_str());
        v.push('\n');
        let d = event.description();
        let dc = chars_of(d.as_str());
        push_all(&mut v, &dc);
        v.push('\n');
        let c = event.category().to_string();
        let cc = chars_of(c.as_str());
        push_all(&mut v, &cc);
        v.push('\n');
        v.push('\n');
        string_of(&v)
    }
}


// ---------------------------------------------------------------- reading back what is added

/// A line as the file holds it: no line feed in it, and no carriage return
/// at its end.
pub open spec fn plain_line(s: Seq<char>) -> bool {
    !s.contains('\n') && strip_cr(s) == s
}

proof fn lemma_split_push_sep(x: Seq<char>, sep: char)
    ensures
        split_spec(x.push(sep), sep) == split_spec(x, sep).push(Seq::<char>::empty()),
{
    assert(x.push(sep).drop_last() =~= x);
}

proof fn lemma_split_push_line(x: Seq<char>, b: Seq<char>, sep: char)
    requires
        !b.contains(sep),
        split_spec(x, sep).len() >= 1,
        split_spec(x, sep).last() == Seq::<char>::empty(),
    ensures
        split_spec(x + b, sep) == split_spec(x, sep).drop_last().push(b),
{
    lemma_split_append(x, b, sep);
    let p = split_spec(x, sep);
    assert(Seq::<char>::empty() + b =~= b);
    assert(p.update(p.len() - 1, p.last() + b) =~= p.drop_last().push(b));
}

/// The block of three plain lines and an empty line is read as those four
/// lines.
proof fn lemma_lines_of_block(l1: Seq<char>, l2: Seq<char>, l3: Seq<char>)
    requires
        plain_line(l1),
        plain_line(l2),
        plain_line(l3),
    ensures
        lines_spec(l1.push('\n') + l2.push('\n') + l3.push('\n').push('\n')) == seq![l1, l2, l3, Seq::<char>::empty()],
{
    let nl = '\n';
    let e = Seq::<char>::empty();
    lemma_split_without_sep(l1, nl);
    let a = l1.push(nl);
    lemma_split_push_sep(l1, nl);
    assert(split_spec(a, nl) == seq![l1, e]);
    lemma_split_push_line(a, l2, nl);
    assert(seq![l1, e].drop_last().push(l2) =~= seq![l1, l2]);
    let b = (a + l2).push(nl);
    lemma_split_push_sep(a + l2, nl);
    assert(split_spec(b, nl) == seq![l1, l2, e]);
    lemma_split_push_line(b, l3, nl);
    assert(seq![l1, l2, e].drop_last().push(l3) =~= seq![l1, l2, l3]);
    let c = (b + l3).push(nl);
    lemma_split_push_sep(b + l3, nl);
    let d = c.push(nl);
    lemma_split_push_sep(c, nl);
    assert(split_spec(d, nl) =~= seq![l1, l2, l3, e, e]);
    assert(l1.push(nl) + l2.push(nl) + l3.push(nl).push(nl) =~= d);
    let pieces = seq![l1, l2, l3, e, e];
    assert(pieces.take(4).map_values(|p: Seq<char>| strip_cr(p)) =~= seq![l1, l2, l3, e]);
}


/// A character of a date text: a digit, `-` or `+`.
pub open spec fn date_char(c: char) -> bool {
    is_digit(c) || c == '-' || c == '+'
}

pub(crate) proof fn lemma_date_text_shape(d: DateView)
    requires
        d.valid(),
    ensures
        forall|i: int| 0 <= i < date_text(d).len() ==> date_char(#[trigger] date_text(d)[i]),
        plain_line(date_text(d)),
        date_text(d).contains('-'),
        !starts_with_spec(date_text(d), yearless_mark()),
{
    let ys = if 0 <= d.year <= 9999 {
        padded_decimal_spec(d.year as nat, 4)
    } else if d.year < 0 {
        seq!['-'] + padded_decimal_spec((-d.year) as nat, 4)
    } else {
        seq!['+'] + padded_decimal_spec(d.year as nat, 5)
    };
    let mm = padded_decimal_spec(d.month as nat, 2);
    let dd = padded_decimal_spec(d.day as nat, 2);
    lemma_padded_digits(d.month as nat, 2);
    lemma_padded_digits(d.day as nat, 2);
    let t = date_text(d);
    assert(t == ys.push('-') + mm.push('-') + dd);
    if 0 <= d.year <= 9999 {
        lemma_padded_digits(d.year as nat, 4);
        assert(is_digit(ys[0]));
    } else if d.year < 0 {
        let q = padded_decimal_spec((-d.year) as nat, 4);
        lemma_padded_digits((-d.year) as nat, 4);
        assert(ys[1] == q[0]);
        assert(is_digit(ys[1]));
        assert forall|i: int| 0 <= i < ys.len() implies date_char(#[trigger] ys[i]) by {
            if i > 0 {
                assert(ys[i] == q[i - 1]);
            }
        }
    } else {
        let q = padded_decimal_spec(d.year as nat, 5);
        lemma_padded_digits(d.year as nat, 5);
        assert forall|i: int| 0 <= i < ys.len() implies date_char(#[trigger] ys[i]) by {
            if i > 0 {
                assert(ys[i] == q[i - 1]);
            }
        }
    }
    assert(ys.len() >= 4);
    assert forall|i: int| 0 <= i < ys.len() implies date_char(#[trigger] ys[i]) by {
        if 0 <= d.year <= 9999 {
            assert(is_digit(ys[i]));
        }
    }
    assert forall|i: int| 0 <= i < t.len() implies date_char(#[trigger] t[i]) by {
        if i < ys.len() {
            assert(t[i] == ys[i]);
        } else if i == ys.len() {
            assert(t[i] == '-');
        } else if i < ys.len() + 1 + mm.len() {
            assert(t[i] == mm[i - ys.len() - 1]);
            assert(is_digit(mm[i - ys.len() - 1]));
        } else if i == ys.len() + 1 + mm.len() {
            assert(t[i] == '-');
        } else {
            assert(t[i] == dd[i - ys.len() - 2 - mm.len()]);
            assert(is_digit(dd[i - ys.len() - 2 - mm.len()]));
        }
    }
    assert(!t.contains('\n')) by {
        if t.contains('\n') {
            let i = choose|i: int| 0 <= i < t.len() && t[i] == '\n';
            assert(date_char(t[i]));
        }
    }
    assert(t.last() == dd.last());
    assert(is_digit(dd[dd.len() - 1]));
    assert(strip_cr(t) == t);
    assert(t[ys.len() as int] == '-');
    assert(t.take(2)[0] == ys[0]);
    assert(t.take(2)[1] == ys[1]);
    assert(!starts_with_spec(t, yearless_mark())) by {
        if starts_with_spec(t, yearless_mark()) {
            assert(t.take(2) == yearless_mark());
            assert(t.take(2)[0] == '-');
            assert(t.take(2)[1] == '-');
        }
    }
}


pub(crate) proof fn lemma_rule_line_shape(r: Rule)
    ensures
        plain_line(rule_text(r)),
        !rule_text(r).contains('-'),
        !starts_with_spec(rule_text(r), yearless_mark()),
{
    lemma_rule_text_letters(r);
    let t = rule_text(r);
    assert(!t.contains('\n')) by {
        if t.contains('\n') {
            let i = choose|i: int| 0 <= i < t.len() && t[i] == '\n';
            assert('A' <= t[i] <= 'Z' || 'a' <= t[i] <= 'z' || t[i] == ' ');
        }
    }
    assert(!t.contains('-')) by {
        if t.contains('-') {
            let i = choose|i: int| 0 <= i < t.len() && t[i] == '-';
            assert('A' <= t[i] <= 'Z' || 'a' <= t[i] <= 'z' || t[i] == ' ');
        }
    }
    assert(t[t.len() - 1] == t.last());
    assert('A' <= t[t.len() - 1] <= 'Z' || 'a' <= t[t.len() - 1] <= 'z' || t[t.len() - 1] == ' ');
    assert(!starts_with_spec(t, yearless_mark())) by {
        if starts_with_spec(t, yearless_mark()) {
            assert(t.take(2)[0] == t[0]);
            assert(t.take(2) == yearless_mark());
            assert('A' <= t[0] <= 'Z' || 'a' <= t[0] <= 'z' || t[0] == ' ');
        }
    }
}

/// The line of an annual event, `--MM-DD`, read as the date `2000-MM-DD`.
pub(crate) proof fn lemma_annual_line_shape(md: MonthDayView)
    requires
        valid_month_day(md.month, md.day),
    ensures
        forall|i: int| 0 <= i < (yearless_mark() + month_day_text(md)).len() ==> date_char(#[trigger] (yearless_mark() + month_day_text(md))[i]),
        forall|i: int| 0 <= i < month_day_text(md).len() ==> date_char(#[trigger] month_day_text(md)[i]),
        !contains_spec(month_day_text(md), yearless_mark()),
        plain_line(yearless_mark() + month_day_text(md)),
        starts_with_spec(yearless_mark() + month_day_text(md), yearless_mark()),
        replace_spec(yearless_mark() + month_day_text(md), yearless_mark(), year_2000_prefix())
            == date_text(DateView { year: 2000, month: md.month, day: md.day }),
        date_text(DateView { year: 2000, month: md.month, day: md.day }).contains('-'),
{
    let mm = padded_decimal_spec(md.month as nat, 2);
    let dd = padded_decimal_spec(md.day as nat, 2);
    lemma_two_digits(md.month as nat);
    lemma_two_digits(md.day as nat);
    let mdt = month_day_text(md);
    assert(mdt == mm.push('-') + dd);
    assert(mdt.len() == 5);
    assert(mdt[2] == '-');
    assert(is_digit(mdt[0]) && is_digit(mdt[1]) && is_digit(mdt[3]) && is_digit(mdt[4])) by {
        assert(mdt[0] == mm[0]);
        assert(mdt[1] == mm[1]);
        assert(mdt[3] == dd[0]);
        assert(mdt[4] == dd[1]);
    }
    let line = yearless_mark() + mdt;
    assert forall|i: int| 0 <= i < mdt.len() implies date_char(#[trigger] mdt[i]) by {
        if i != 2 {
            assert(is_digit(mdt[i]));
        }
    }
    assert forall|i: int| 0 <= i < line.len() implies date_char(#[trigger] line[i]) by {
        if i >= 2 {
            assert(line[i] == mdt[i - 2]);
        }
    }
    assert(line.take(2) =~= yearless_mark());
    assert(!line.contains('\n')) by {
        if line.contains('\n') {
            let i = choose|i: int| 0 <= i < line.len() && line[i] == '\n';
            if i >= 2 {
                assert(line[i] == mdt[i - 2]);
            }
        }
    }
    assert(line.last() == mdt[4]);
    assert(!contains_spec(mdt, yearless_mark())) by {
        if contains_spec(mdt, yearless_mark()) {
            let i = choose|i: int| occurs_at(mdt, yearless_mark(), i);
            assert(mdt.subrange(i, i + 2)[0] == mdt[i]);
            assert(mdt.subrange(i, i + 2)[1] == mdt[i + 1]);
        }
    }
    lemma_replace_absent(mdt, yearless_mark(), year_2000_prefix());
    assert(line.skip(2) =~= mdt);
    assert(replace_spec(line, yearless_mark(), year_2000_prefix()) == year_2000_prefix() + mdt);
    reveal_with_fuel(decimal_spec, 5);
    assert(padded_decimal_spec(2000, 4) =~= seq!['2', '0', '0', '0']);
    let dt = date_text(DateView { year: 2000, month: md.month, day: md.day });
    assert(dt =~= year_2000_prefix() + mdt);
    assert(dt[4] == '-');
}


/// The event's date, or its month and day, is valid.
pub open spec fn event_kind_valid(k: EventKindView) -> bool {
    match k {
        EventKindView::Singular(d) => d.valid(),
        EventKindView::Annual(md) => valid_month_day(md.month, md.day),
        EventKindView::RuleBased(_) => true,
    }
}

/// chrono reads the text that it writes of a date as that date.
pub open spec fn chrono_reads_back(d: DateView) -> bool {
    chrono_parse_date(date_text(d)) == Some(d)
}

/// chrono reads back the date that the event's date line is read as: the
/// date of a singular event, the date in the year 2000 of an annual one.
pub open spec fn dates_read_back(k: EventKindView) -> bool {
    match k {
        EventKindView::Singular(d) => chrono_reads_back(d),
        EventKindView::Annual(md) => chrono_reads_back(DateView { year: 2000, month: md.month, day: md.day }),
        EventKindView::RuleBased(_) => true,
    }
}

/// The names of a category hold no `/` and are in lowercase, so that its
/// text reads back as the category.
pub open spec fn names_storable(c: CategoryView) -> bool {
    &&& !c.primary.contains('/')
    &&& lowercase(c.primary) == c.primary
    &&& (c.secondary matches Some(s) ==> !s.contains('/') && lowercase(s) == s)
}

/// A category that a line of the file holds as it is: its names hold no
/// `/` and are in lowercase, and its text is a plain line.
pub open spec fn storable_category(c: CategoryView) -> bool {
    names_storable(c) && plain_line(category_text(c))
}

/// What is added to a text file is read back: the lines of the block that
/// adding an event writes are read as that event, which the filter then
/// passes or not. This holds of a valid event whose description and
/// category are plain lines (the category's names without `/` and in
/// lowercase), where chrono reads back the date text it writes.
pub proof fn lemma_added_event_reads_back(e: EventView, options: Seq<FilterOptionView>, y: int)
    requires
        event_kind_valid(e.kind),
        dates_read_back(e.kind),
        plain_line(e.description),
        storable_category(e.category),
    ensures
        text_events_spec(lines_spec(text_entry(e)), options, y) == (if accepts_spec(options, e, y) {
            seq![e]
        } else {
            Seq::<EventView>::empty()
        }),
{
    let l1 = date_line(e);
    let l3 = category_text(e.category);
    match e.kind {
        EventKindView::Singular(d) => {
            lemma_date_text_shape(d);
        },
        EventKindView::Annual(md) => {
            lemma_annual_line_shape(md);
        },
        EventKindView::RuleBased(r) => {
            lemma_rule_line_shape(r);
            lemma_rule_text_reads_back(r);
        },
    }
    lemma_lines_of_block(l1, e.description, l3);
    let lines = seq![l1, e.description, l3, Seq::<char>::empty()];
    assert(lines_spec(text_entry(e)) == lines);
    lemma_category_text_reads_back(e.category);
    assert(text_event_spec(l3, l1, e.description) == Some(e));
    assert(lines.skip(4) =~= Seq::<Seq<char>>::empty());
    let rest = text_events_spec(lines.skip(4), options, y);
    assert(rest == Seq::<EventView>::empty());
    if accepts_spec(options, e, y) {
        assert(seq![e] + rest =~= seq![e]);
    } else {
        assert(Seq::<EventView>::empty() + rest =~= Seq::<EventView>::empty());
    }
}


/// The lines of a text that ends with a line feed, followed by more text:
/// the lines of the first text, then those of the second.
proof fn lemma_lines_concat(c: Seq<char>, t: Seq<char>)
    requires
        c.len() > 0 ==> c.last() == '\n',
    ensures
        lines_spec(c + t) == lines_spec(c) + lines_spec(t),
{
    lemma_split_concat(c, t, '\n');
    lemma_split_nonempty(c, '\n');
    lemma_split_nonempty(t, '\n');
    let pc = split_spec(c, '\n');
    let pt = split_spec(t, '\n');
    let p = pc.drop_last();
    if c.len() > 0 {
        assert(pc == split_spec(c.drop_last(), '\n').push(Seq::<char>::empty()));
    } else {
        assert(pc == seq![Seq::<char>::empty()]);
    }
    assert(pc[pc.len() - 1].len() == 0);
    let all = p + pt;
    assert(all.take(all.len() - 1) =~= p + pt.take(pt.len() - 1));
    assert((p + pt.take(pt.len() - 1)).map_values(|q: Seq<char>| strip_cr(q))
        =~= p.map_values(|q: Seq<char>| strip_cr(q)) + pt.take(pt.len() - 1).map_values(|q: Seq<char>| strip_cr(q)));
    assert(pc.take(pc.len() - 1) =~= p);
    assert(all[all.len() - 1] == pt[pt.len() - 1]);
    let cp = p.map_values(|q: Seq<char>| strip_cr(q));
    let ct = pt.take(pt.len() - 1).map_values(|q: Seq<char>| strip_cr(q));
    if pt[pt.len() - 1].len() != 0 {
        assert((cp + ct).push(pt[pt.len() - 1]) =~= cp + ct.push(pt[pt.len() - 1]));
    }
}

/// Every block of four lines holds an event, so reading goes through all
/// of them.
pub open spec fn all_blocks_hold_events(lines: Seq<Seq<char>>) -> bool
    decreases lines.len(),
{
    if lines.len() < 4 {
        true
    } else {
        text_event_spec(lines[2], lines[0], lines[1]) is Some && all_blocks_hold_events(lines.skip(4))
    }
}

/// Reading lines that come in whole blocks, each with an event, and then
/// more lines: the events of the first lines, then those of the others.
proof fn lemma_events_concat(a: Seq<Seq<char>>, b: Seq<Seq<char>>, options: Seq<FilterOptionView>, y: int)
    requires
        a.len() % 4 == 0,
        all_blocks_hold_events(a),
    ensures
        text_events_spec(a + b, options, y) == text_events_spec(a, options, y) + text_events_spec(b, options, y),
    decreases a.len(),
{
    if a.len() == 0 {
        assert(a + b =~= b);
        assert(Seq::<EventView>::empty() + text_events_spec(b, options, y) =~= text_events_spec(b, options, y));
    } else {
        let ab = a + b;
        assert(ab[0] == a[0] && ab[1] == a[1] && ab[2] == a[2]);
        assert(ab.skip(4) =~= a.skip(4) + b);
        lemma_events_concat(a.skip(4), b, options, y);
        let e = text_event_spec(a[2], a[0], a[1]).unwrap();
        let head = if accepts_spec(options, e, y) { seq![e] } else { Seq::<EventView>::empty() };
        assert(head + (text_events_spec(a.skip(4), options, y) + text_events_spec(b, options, y))
            =~= (head + text_events_spec(a.skip(4), options, y)) + text_events_spec(b, options, y));
    }
}

/// What is added to a text file is read after what it held: reading a file
/// of whole blocks, each with an event, after an event is added gives the
/// events read before and then the added event (where the filter passes
/// it). The added event is as in `lemma_added_event_reads_back`.
pub proof fn lemma_appended_event_reads_back(content: Seq<char>, e: EventView, options: Seq<FilterOptionView>, y: int)
    requires
        content.len() > 0 ==> content.last() == '\n',
        lines_spec(content).len() % 4 == 0,
        all_blocks_hold_events(lines_spec(content)),
        event_kind_valid(e.kind),
        dates_read_back(e.kind),
        plain_line(e.description),
        storable_category(e.category),
    ensures
        text_events_spec(lines_spec(content + text_entry(e)), options, y) == text_events_spec(lines_spec(content), options, y) + (
        if accepts_spec(options, e, y) {
            seq![e]
        } else {
            Seq::<EventView>::empty()
        }),
{
    lemma_lines_concat(content, text_entry(e));
    lemma_events_concat(lines_spec(content), lines_spec(text_entry(e)), options, y);
    lemma_added_event_reads_back(e, options, y);
}

} // verus!





