//! What the command line asks for: the filter of a listing, the event of
//! an `add` command, and the marks in the list of sources.

use crate::chars::{
    all_digits, chars_of, contains_char, digit_value, digits_value, is_digit, push_all, split_char, split_spec, starts_with, starts_with_spec, string_of,
};
use crate::date::{chrono_parse_date, parse_date, Date};
use crate::event::{
    category_from_str_spec, md_of, md_result_view, month_day_from_str_spec, month_day_new_spec, rule_parse_spec, Category,
    CategoryView, Event, EventKindView, EventView, MonthDay, MonthDayParseError, MonthDayView, Rule,
};
use crate::filter::{categories_view, set_spec, EventFilter, FilterBuilder, FilterOptionView};
use vstd::prelude::*;

verus! {

/// The categories of a comma-separated list, each read as
/// `primary[/secondary]`.
pub open spec fn categories_list_spec(s: Seq<char>) -> Seq<CategoryView> {
    split_spec(s, ',').map_values(|p: Seq<char>| category_from_str_spec(p))
}

/// The categories of a comma-separated list such as `a/b,c,d/*`.
pub fn handle_categories(categories_string: &str) -> (r: Vec<Category>)
    ensures
        categories_view(r@) == categories_list_spec(categories_string@),
{
    let cs = chars_of(categories_string);
    let parts = split_char(&cs, ',');
    let ghost ps = split_spec(categories_string@, ',');
    let mut out: Vec<Category> = Vec::new();
    let mut i: usize = 0;
    while i < parts.len()
        invariant
            i <= parts.len(),
            ps == crate::chars::seqs_of(parts@),
            categories_view(out@) =~= ps.take(i as int).map_values(|p: Seq<char>| category_from_str_spec(p)),
        decreases parts.len() - i,
    {
        let text = string_of(&parts[i]);
        let c = Category::from_str(text.as_str());
        let ghost before = categories_view(out@);
        out.push(c);
        assert(categories_view(out@) =~= before.push(c@));
        assert(ps.take(i + 1).map_values(|p: Seq<char>| category_from_str_spec(p))
            =~= ps.take(i as int).map_values(|p: Seq<char>| category_from_str_spec(p)).push(
            category_from_str_spec(ps[i as int]),
        ));
        i = i + 1;
    }
    assert(ps.take(parts.len() as int) =~= ps);
    out
}

pub open spec fn opt_categories_spec(s: Option<Seq<char>>) -> Option<Seq<CategoryView>> {
    match s {
        Some(t) => Some(categories_list_spec(t)),
        None => None,
    }
}

pub open spec fn opt_str_view(s: Option<&str>) -> Option<Seq<char>> {
    match s {
        Some(t) => Some(t@),
        None => None,
    }
}

/// `options` with the option `o` of the builder added where there is one.
pub open spec fn add_opt(options: Seq<FilterOptionView>, o: Option<FilterOptionView>) -> Seq<FilterOptionView> {
    match o {
        Some(x) => set_spec(options, x),
        None => options,
    }
}

/// The options of the filter of a listing: the month and day, then the
/// categories to exclude, the categories and the text, where given.
pub open spec fn listing_options_spec(
    md: MonthDayView,
    exclude: Option<Seq<char>>,
    categories: Option<Seq<char>>,
    text: Option<Seq<char>>,
) -> Seq<FilterOptionView> {
    let o1 = set_spec(seq![], FilterOptionView::MonthDay(md));
    let o2 = add_opt(o1, match opt_categories_spec(exclude) {
        Some(c) => Some(FilterOptionView::ExcludeCategories(c)),
        None => None,
    });
    let o3 = add_opt(o2, match opt_categories_spec(categories) {
        Some(c) => Some(FilterOptionView::Categories(c)),
        None => None,
    });
    add_opt(o3, match text {
        Some(t) => Some(FilterOptionView::Text(t)),
        None => None,
    })
}

/// The filter of a listing: events on the month and day, without the
/// excluded categories, with one of the categories and the text, where
/// these are given.
pub fn listing_filter(month_day: MonthDay, exclude: Option<&str>, categories: Option<&str>, text: Option<String>) -> (r: EventFilter)
    ensures
        r@ == listing_options_spec(month_day@, opt_str_view(exclude), opt_str_view(categories), match text {
            Some(t) => Some(t@),
            None => None,
        }),
{
    let exclude_categories = match exclude {
        Some(s) => Some(handle_categories(s)),
        None => None,
    };
    let included = match categories {
        Some(s) => Some(handle_categories(s)),
        None => None,
    };
    FilterBuilder::new().month_day(month_day).exclude_categories(exclude_categories).categories(included).text(
        text,
    ).build()
}

/// The month and day to list: the one given as `MM-DD` or as `MMDD`, or
/// else today's.
pub open spec fn listing_month_day_spec(date: Option<Seq<char>>, today: MonthDayView) -> Result<MonthDayView, MonthDayParseError> {
    match date {
        Some(s) => if s.len() == 4 && all_digits(s) {
            month_day_new_spec(digits_value(s.take(2)) as int, digits_value(s.skip(2)) as int)
        } else {
            month_day_from_str_spec(s)
        },
        None => Ok(today),
    }
}

/// The number that two decimal digits spell.
fn two_digit_value(a: char, b: char) -> (r: u32)
    requires
        is_digit(a),
        is_digit(b),
    ensures
        r == digits_value(seq![a, b]),
{
    assert(seq![a, b].drop_last() =~= seq![a]);
    assert(seq![a].drop_last() =~= Seq::<char>::empty());
    assert(digits_value(Seq::<char>::empty()) == 0);
    assert(digits_value(seq![a]) == digit_value(a));
    assert(seq![a, b].last() == b);
    (a as u32 - '0' as u32) * 10 + (b as u32 - '0' as u32)
}

/// The month and day to list: the one given as `MM-DD` or `MMDD`, or else
/// the month and day of `today`.
pub fn listing_month_day(date: Option<&str>, today: &Date) -> (r: Result<MonthDay, MonthDayParseError>)
    ensures
        md_result_view(r) == listing_month_day_spec(opt_str_view(date), md_of(today@)),
{
    match date {
        Some(s) => {
            let cs = chars_of(s);
            if cs.len() == 4 && is_digit_char(cs[0]) && is_digit_char(cs[1]) && is_digit_char(cs[2]) && is_digit_char(
                cs[3],
            ) {
                assert(all_digits(cs@));
                assert(cs@.take(2) =~= seq![cs@[0], cs@[1]]);
                assert(cs@.skip(2) =~= seq![cs@[2], cs@[3]]);
                let month = two_digit_value(cs[0], cs[1]);
                let day = two_digit_value(cs[2], cs[3]);
                MonthDay::new(month, day)
            } else {
                assert(!(cs@.len() == 4 && all_digits(cs@))) by {
                    if cs@.len() == 4 && all_digits(cs@) {
                        assert(is_digit(cs@[0]) && is_digit(cs@[1]) && is_digit(cs@[2]) && is_digit(cs@[3]));
                    }
                }
                MonthDay::from_str(s)
            }
        },
        None => Ok(MonthDay::of_date(today)),
    }
}

fn is_digit_char(c: char) -> (r: bool)
    ensures
        r == is_digit(c),
{
    '0' <= c && c <= '9'
}

/// Why the date of an `add` command names no event.
#[derive(Debug, Clone, Copy, PartialEq, Eq, Structural)]
pub enum AddDateError {
    /// A text without `-` that is no rule.
    InvalidRule,
    /// A text with `-` that chrono reads as no date.
    InvalidDate,
}

pub open spec fn year_2000_prefix() -> Seq<char> {
    seq!['2', '0', '0', '0', '-']
}

/// The event of an `add` command. A date of five bytes (`MM-DD`), or a
/// date `--MM-DD`, is a month and day, read as a date of the year 2000 and
/// added as an annual event; a date without `-` is a rule; any other date is
/// read by chrono as `%Y-%m-%d` (chrono's `%F`).
pub open spec fn add_event_spec(date: Seq<char>, description: Seq<char>, category: Seq<char>) -> Result<EventView, AddDateError> {
    let cat = category_from_str_spec(category);
    let marked = starts_with_spec(date, seq!['-', '-']);
    let yearless = marked || vstd::utf8::encode_utf8(date).len() == 5;
    let rule_based = !date.contains('-');
    let ds = if marked {
        year_2000_prefix() + date.skip(2)
    } else if yearless {
        year_2000_prefix() + date
    } else {
        date
    };
    if rule_based {
        match rule_parse_spec(ds) {
            Ok(r) => Ok(EventView { kind: EventKindView::RuleBased(r), description, category: cat }),
            Err(_) => Err(AddDateError::InvalidRule),
        }
    } else {
        match chrono_parse_date(ds) {
            None => Err(AddDateError::InvalidDate),
            Some(d) => if yearless {
                Ok(EventView { kind: EventKindView::Annual(md_of(d)), description, category: cat })
            } else {
                Ok(EventView { kind: EventKindView::Singular(d), description, category: cat })
            },
        }
    }
}

pub open spec fn add_result_view(r: Result<Event, AddDateError>) -> Result<EventView, AddDateError> {
    match r {
        Ok(e) => Ok(e@),
        Err(x) => Err(x),
    }
}

/// The event that an `add` command describes; see `add_event_spec`.
pub fn event_from_add_args(date: &str, description: String, category: &str) -> (r: Result<Event, AddDateError>)
    ensures
        add_result_view(r) == add_event_spec(date@, description@, category@),
{
    let cat = Category::from_str(category);
    let dc = chars_of(date);
    let mark: Vec<char> = vec!['-', '-'];
    let is_marked = starts_with(&dc, &mark);
    let is_yearless = is_marked || date.as_bytes().len() == 5;
    let is_rule_based = !contains_char(&dc, '-');
    let ds = if is_marked {
        let mut v: Vec<char> = vec!['2', '0', '0', '0', '-'];
        let mut k: usize = 2;
        while k < dc.len()
            invariant
                2 <= k <= dc.len(),
                v@ =~= year_2000_prefix() + dc@.subrange(2, k as int),
            decreases dc.len() - k,
        {
            v.push(dc[k]);
            k = k + 1;
        }
        assert(dc@.subrange(2, dc.len() as int) =~= dc@.skip(2));
        v
    } else if is_yearless {
        let mut v: Vec<char> = vec!['2', '0', '0', '0', '-'];
        push_all(&mut v, &dc);
        v
    } else {
        dc
    };
    let text = string_of(&ds);
    assert(text@ =~= (if is_marked {
        year_2000_prefix() + date@.skip(2)
    } else if is_yearless {
        year_2000_prefix() + date@
    } else {
        date@
    }));
    if is_rule_based {
        match Rule::parse(text.as_str()) {
            Ok(rule) => Ok(Event::new_rule_based(rule, description, cat)),
            Err(_) => Err(AddDateError::InvalidRule),
        }
    } else {
        match parse_date(text.as_str()) {
            None => Err(AddDateError::InvalidDate),
            Some(d) => {
                if is_yearless {
                    Ok(Event::new_annual(MonthDay::of_date(&d), description, cat))
                } else {
                    Ok(Event::new_singular(d, description, cat))
                }
            },
        }
    }
}

/// The mark after a source's name in the list of sources: ` *` for sources
/// that take events (text and CSV files), ` **` for those that take singular
/// events only (databases), nothing for others.
pub open spec fn provider_mark_spec(kind: Seq<char>) -> Seq<char> {
    if kind == "text"@ || kind == "csv"@ {
        " *"@
    } else if kind == "sqlite"@ {
        " **"@
    } else {
        Seq::<char>::empty()
    }
}

/// The mark after a source's name in the list of sources.
pub fn provider_mark(kind: &str) -> (r: String)
    ensures
        r@ == provider_mark_spec(kind@),
{
    let k = chars_of(kind);
    let t = chars_of("text");
    let c = chars_of("csv");
    let s = chars_of("sqlite");
    if crate::chars::seq_eq(&k, &t) || crate::chars::seq_eq(&k, &c) {
        string_of(&chars_of(" *"))
    } else if crate::chars::seq_eq(&k, &s) {
        string_of(&chars_of(" **"))
    } else {
        string_of(&Vec::new())
    }
}

} // verus!
