//! Events, their dates and categories, and rules such as
//! "first Monday in January".

use crate::chars::{
    eq_ignore_ascii_case, split_whitespace, words, signed_decimal, signed_decimal_spec, seq_eq_ignore_ascii_case, lowercase, to_lowercase, seq_eq, chars_of, padded_decimal, padded_decimal_spec, parse_u32, parse_u32_spec, push_all, split_char,
    split_spec, string_of, lemma_lowercase_ascii_twice, lemma_lowercase_ignores_case, ascii_lower_seq, ascii_letters, lemma_ascii_letters_lower, is_ascii_seq, is_ascii_char, unicode_white_space, words_from, lemma_words_run, lemma_words_space, lemma_two_digits, lemma_split_two, lemma_split_without_sep, is_digit,
};
use crate::date::{
    date_opt_view, days_from_civil, today_local, valid_ymd, weekday_number, Date, DateView, MAX_YEAR, MIN_YEAR,
};
use chrono::Datelike;
use vstd::prelude::*;

verus! {

// ---------------------------------------------------------------- month and day

/// The last day of a month in any year (February counts 29 days).
pub open spec fn max_day_of_month(m: int) -> int {
    if m == 1 || m == 3 || m == 5 || m == 7 || m == 8 || m == 10 || m == 12 {
        31
    } else if m == 4 || m == 6 || m == 9 || m == 11 {
        30
    } else if m == 2 {
        29
    } else {
        0
    }
}

pub open spec fn valid_month_day(m: int, d: int) -> bool {
    1 <= m <= 12 && 1 <= d <= max_day_of_month(m)
}

pub struct MonthDayView {
    pub month: int,
    pub day: int,
}

/// A month and a day of that month, in some year.
#[derive(Debug, Clone, Copy, PartialEq, Eq, Hash, Structural)]
pub struct MonthDay {
    month: u32,
    day: u32,
}

#[derive(Debug, Clone, Copy, PartialEq, Eq, Structural)]
pub enum MonthDayParseError {
    InvalidFormat,
    InvalidMonth,
    InvalidDay,
}

impl View for MonthDay {
    type V = MonthDayView;

    closed spec fn view(&self) -> MonthDayView {
        MonthDayView { month: self.month as int, day: self.day as int }
    }
}

/// What `MonthDay::new` gives for a month and a day.
pub open spec fn month_day_new_spec(m: int, d: int) -> Result<MonthDayView, MonthDayParseError> {
    if !(1 <= m <= 12) {
        Err(MonthDayParseError::InvalidMonth)
    } else if !(1 <= d <= max_day_of_month(m)) {
        Err(MonthDayParseError::InvalidDay)
    } else {
        Ok(MonthDayView { month: m, day: d })
    }
}

/// What `MonthDay::from_str` gives for a text `MM-DD`.
pub open spec fn month_day_from_str_spec(s: Seq<char>) -> Result<MonthDayView, MonthDayParseError> {
    let parts = split_spec(s, '-');
    if parts.len() != 2 {
        Err(MonthDayParseError::InvalidFormat)
    } else {
        match parse_u32_spec(parts[0]) {
            None => Err(MonthDayParseError::InvalidMonth),
            Some(m) => if m < 1 || m > 12 {
                Err(MonthDayParseError::InvalidMonth)
            } else {
                match parse_u32_spec(parts[1]) {
                    None => Err(MonthDayParseError::InvalidDay),
                    Some(d) => if d < 1 || d > 31 {
                        Err(MonthDayParseError::InvalidDay)
                    } else {
                        month_day_new_spec(m as int, d as int)
                    },
                }
            },
        }
    }
}

pub open spec fn md_result_view(r: Result<MonthDay, MonthDayParseError>) -> Result<MonthDayView, MonthDayParseError> {
    match r {
        Ok(md) => Ok(md@),
        Err(e) => Err(e),
    }
}

impl MonthDay {
    #[verifier::type_invariant]
    closed spec fn inv(self) -> bool {
        valid_month_day(self.month as int, self.day as int)
    }

    /// The month and day, where the day exists in that month in some year.
    pub fn new(month: u32, day: u32) -> (r: Result<MonthDay, MonthDayParseError>)
        ensures
            md_result_view(r) == month_day_new_spec(month as int, day as int),
    {
        let max: u32 = if month == 1 || month == 3 || month == 5 || month == 7 || month == 8
            || month == 10 || month == 12 {
            31
        } else if month == 4 || month == 6 || month == 9 || month == 11 {
            30
        } else if month == 2 {
            29
        } else {
            return Err(MonthDayParseError::InvalidMonth);
        };
        if day < 1 || day > max {
            return Err(MonthDayParseError::InvalidDay);
        }
        Ok(MonthDay { month, day })
    }

    /// The month and day of a text `MM-DD`.
    pub fn from_str(month_day_string: &str) -> (r: Result<MonthDay, MonthDayParseError>)
        ensures
            md_result_view(r) == month_day_from_str_spec(month_day_string@),
    {
        let s = chars_of(month_day_string);
        let parts = split_char(&s, '-');
        if parts.len() != 2 {
            return Err(MonthDayParseError::InvalidFormat);
        }
        assert(parts@[0]@ == split_spec(s@, '-')[0]);
        assert(parts@[1]@ == split_spec(s@, '-')[1]);
        let month = match parse_u32(&parts[0]) {
            Some(m) => m,
            None => return Err(MonthDayParseError::InvalidMonth),
        };
        if month < 1 || month > 12 {
            return Err(MonthDayParseError::InvalidMonth);
        }
        let day = match parse_u32(&parts[1]) {
            Some(d) => d,
            None => return Err(MonthDayParseError::InvalidDay),
        };
        if day < 1 || day > 31 {
            return Err(MonthDayParseError::InvalidDay);
        }
        Self::new(month, day)
    }

    /// The month and day of a valid calendar date.
    pub fn of_date(date: &Date) -> (r: MonthDay)
        ensures
            r@ == (MonthDayView { month: date@.month, day: date@.day }),
    {
        let m = date.month();
        let d = date.day();
        MonthDay { month: m, day: d }
    }

    pub fn month(&self) -> (r: u32)
        ensures
            r == self@.month,
            valid_month_day(self@.month, self@.day),
    {
        proof { use_type_invariant(self); }
        self.month
    }

    pub fn day(&self) -> (r: u32)
        ensures
            r == self@.day,
            valid_month_day(self@.month, self@.day),
    {
        proof { use_type_invariant(self); }
        self.day
    }

    /// The text `MM-DD`, each number with two digits at least.
    pub fn to_string(&self) -> (r: String)
        ensures
            r@ == month_day_text(self@),
    {
        let mut v = padded_decimal(self.month() as u64, 2);
        v.push('-');
        let d = padded_decimal(self.day() as u64, 2);
        push_all(&mut v, &d);
        string_of(&v)
    }
}

/// The text `MM-DD` of a month and day.
pub open spec fn month_day_text(md: MonthDayView) -> Seq<char> {
    padded_decimal_spec(md.month as nat, 2).push('-') + padded_decimal_spec(md.day as nat, 2)
}

/// The text of a month and day reads back as that month and day:
/// `MonthDay::from_str` of `MonthDay::to_string` gives the month and day.
pub proof fn lemma_month_day_text_reads_back(md: MonthDayView)
    requires
        valid_month_day(md.month, md.day),
    ensures
        month_day_from_str_spec(month_day_text(md)) == Ok::<MonthDayView, MonthDayParseError>(md),
{
    let a = padded_decimal_spec(md.month as nat, 2);
    let b = padded_decimal_spec(md.day as nat, 2);
    lemma_two_digits(md.month as nat);
    lemma_two_digits(md.day as nat);
    assert(!a.contains('-')) by {
        if a.contains('-') {
            let i = choose|i: int| 0 <= i < a.len() && a[i] == '-';
            assert(is_digit(a[i]));
        }
    }
    assert(!b.contains('-')) by {
        if b.contains('-') {
            let i = choose|i: int| 0 <= i < b.len() && b[i] == '-';
            assert(is_digit(b[i]));
        }
    }
    lemma_split_two(a, b, '-');
}

impl Date {
    /// The month and day of the date.
    pub fn month_day(&self) -> (r: MonthDay)
        ensures
            r@ == md_of(self@),
    {
        MonthDay::of_date(self)
    }
}

// ---------------------------------------------------------------- categories

pub struct CategoryView {
    pub primary: Seq<char>,
    pub secondary: Option<Seq<char>>,
}

/// A category `primary` or `primary/secondary`, kept in lowercase.
#[derive(Debug)]
pub struct Category {
    primary: String,
    secondary: Option<String>,
}

impl View for Category {
    type V = CategoryView;

    closed spec fn view(&self) -> CategoryView {
        CategoryView {
            primary: self.primary@,
            secondary: match self.secondary {
                Some(s) => Some(s@),
                None => None,
            },
        }
    }
}

/// What `Category::from_str` gives of a text `primary[/secondary]`: the text
/// before the first `/`, and the text between the first and the second `/`
/// where there is one, both in lowercase.
pub open spec fn category_from_str_spec(s: Seq<char>) -> CategoryView {
    let parts = split_spec(s, '/');
    CategoryView {
        primary: lowercase(parts[0]),
        secondary: if parts.len() < 2 { None } else { Some(lowercase(parts[1])) },
    }
}

/// The text `primary` or `primary/secondary` of a category.
pub open spec fn category_text(c: CategoryView) -> Seq<char> {
    match c.secondary {
        Some(s) => c.primary.push('/') + s,
        None => c.primary,
    }
}

fn opt_string_eq(a: &Option<String>, b: &Option<String>) -> (r: bool)
    ensures
        r == ((match a { Some(s) => Some(s@), None => None::<Seq<char>> }) == (match b {
            Some(s) => Some(s@),
            None => None::<Seq<char>>,
        })),
{
    match a {
        Some(x) => match b {
            Some(y) => {
                let e = x.eq(y);
                e
            },
            None => false,
        },
        None => b.is_none(),
    }
}

impl Clone for Category {
    fn clone(&self) -> (r: Self)
        ensures
            r@ == self@,
    {
        Category {
            primary: self.primary.clone(),
            secondary: match &self.secondary {
                Some(s) => Some(s.clone()),
                None => None,
            },
        }
    }
}

impl PartialEq for Category {
    fn eq(&self, other: &Self) -> (r: bool) {
        self.primary == other.primary && opt_string_eq(&self.secondary, &other.secondary)
    }
}

impl Eq for Category {}

impl vstd::std_specs::cmp::PartialEqSpecImpl for Category {
    open spec fn obeys_eq_spec() -> bool {
        true
    }

    open spec fn eq_spec(&self, other: &Self) -> bool {
        self@ == other@
    }
}

impl Category {
    /// The category `primary/secondary`, in lowercase.
    pub fn new(primary: &str, secondary: &str) -> (r: Category)
        ensures
            r@ == (CategoryView { primary: lowercase(primary@), secondary: Some(lowercase(secondary@)) }),
    {
        Category { primary: to_lowercase(primary), secondary: Some(to_lowercase(secondary)) }
    }

    /// The category `primary`, in lowercase.
    pub fn from_primary(primary: &str) -> (r: Category)
        ensures
            r@ == (CategoryView { primary: lowercase(primary@), secondary: None }),
    {
        Category { primary: to_lowercase(primary), secondary: None }
    }

    /// The category of a text `primary[/secondary]`.
    pub fn from_str(s: &str) -> (r: Category)
        ensures
            r@ == category_from_str_spec(s@),
    {
        let cs = chars_of(s);
        let parts = split_char(&cs, '/');
        assert(parts@[0]@ == split_spec(cs@, '/')[0]);
        let first = string_of(&parts[0]);
        let primary = to_lowercase(first.as_str());
        if parts.len() < 2 {
            Category { primary, secondary: None }
        } else {
            assert(parts@[1]@ == split_spec(cs@, '/')[1]);
            let second = string_of(&parts[1]);
            Category { primary, secondary: Some(to_lowercase(second.as_str())) }
        }
    }

    pub fn primary(&self) -> (r: String)
        ensures
            r@ == self@.primary,
    {
        self.primary.clone()
    }

    pub fn secondary(&self) -> (r: Option<String>)
        ensures
            (match r { Some(s) => Some(s@), None => None::<Seq<char>> }) == self@.secondary,
    {
        match &self.secondary {
            Some(s) => Some(s.clone()),
            None => None,
        }
    }

    /// The text `primary` or `primary/secondary`.
    pub fn to_string(&self) -> (r: String)
        ensures
            r@ == category_text(self@),
    {
        let mut v = chars_of(self.primary.as_str());
        match &self.secondary {
            Some(s) => {
                v.push('/');
                let sc = chars_of(s.as_str());
                push_all(&mut v, &sc);
            },
            None => {},
        }
        string_of(&v)
    }
}

/// The text of a category reads back as the category: `Category::from_str`
/// of `Category::to_string` gives it, for a category whose names hold no
/// `/` and are already in lowercase.
pub proof fn lemma_category_text_reads_back(c: CategoryView)
    requires
        !c.primary.contains('/'),
        lowercase(c.primary) == c.primary,
        c.secondary matches Some(s) ==> !s.contains('/') && lowercase(s) == s,
    ensures
        category_from_str_spec(category_text(c)) == c,
{
    match c.secondary {
        Some(s) => {
            lemma_split_two(c.primary, s, '/');
        },
        None => {
            lemma_split_without_sep(c.primary, '/');
        },
    }
}

/// The text of a category made of ASCII names without `/` reads back as
/// that category: `Category::from_str` of `Category::to_string` of
/// `Category::new(p, s)` (or of `Category::from_primary(p)`) gives it.
pub proof fn lemma_new_category_text_reads_back(p: Seq<char>, s: Option<Seq<char>>)
    requires
        is_ascii_seq(p),
        !p.contains('/'),
        s matches Some(x) ==> is_ascii_seq(x) && !x.contains('/'),
    ensures
        ({
            let c = CategoryView {
                primary: lowercase(p),
                secondary: match s {
                    Some(x) => Some(lowercase(x)),
                    None => None,
                },
            };
            category_from_str_spec(category_text(c)) == c
        }),
{
    lemma_lowercase_ascii_twice(p, '/');
    match s {
        Some(x) => {
            lemma_lowercase_ascii_twice(x, '/');
        },
        None => {},
    }
    let c = CategoryView {
        primary: lowercase(p),
        secondary: match s {
            Some(x) => Some(lowercase(x)),
            None => None,
        },
    };
    lemma_category_text_reads_back(c);
}

// ---------------------------------------------------------------- weekdays, ordinals, months

#[derive(Debug, Clone, Copy, PartialEq, Eq, PartialOrd, Ord, Structural)]
pub enum Weekday {
    Monday,
    Tuesday,
    Wednesday,
    Thursday,
    Friday,
    Saturday,
    Sunday,
}

/// Which of the days with a weekday in a month: the first to the fourth, or the last.
#[derive(Debug, Clone, Copy, PartialEq, Eq, PartialOrd, Ord, Structural)]
pub enum Ordinal {
    First,
    Second,
    Third,
    Fourth,
    Last,
}

#[derive(Debug, Clone, Copy, PartialEq, Eq, PartialOrd, Ord, Structural)]
pub enum Month {
    January,
    February,
    March,
    April,
    May,
    June,
    July,
    August,
    September,
    October,
    November,
    December,
}

impl Weekday {
    /// Days after Monday.
    pub open spec fn index(self) -> int {
        match self {
            Weekday::Monday => 0,
            Weekday::Tuesday => 1,
            Weekday::Wednesday => 2,
            Weekday::Thursday => 3,
            Weekday::Friday => 4,
            Weekday::Saturday => 5,
            Weekday::Sunday => 6,
        }
    }

    pub open spec fn name(self) -> Seq<char> {
        match self {
            Weekday::Monday => seq!['M', 'o', 'n', 'd', 'a', 'y'],
            Weekday::Tuesday => seq!['T', 'u', 'e', 's', 'd', 'a', 'y'],
            Weekday::Wednesday => seq!['W', 'e', 'd', 'n', 'e', 's', 'd', 'a', 'y'],
            Weekday::Thursday => seq!['T', 'h', 'u', 'r', 's', 'd', 'a', 'y'],
            Weekday::Friday => seq!['F', 'r', 'i', 'd', 'a', 'y'],
            Weekday::Saturday => seq!['S', 'a', 't', 'u', 'r', 'd', 'a', 'y'],
            Weekday::Sunday => seq!['S', 'u', 'n', 'd', 'a', 'y'],
        }
    }

    /// The weekday whose name is `s`, ASCII letters compared without case.
    pub open spec fn from_name_spec(s: Seq<char>) -> Option<Weekday> {
        if eq_ignore_ascii_case(s, Weekday::Monday.name()) {
            Some(Weekday::Monday)
        } else if eq_ignore_ascii_case(s, Weekday::Tuesday.name()) {
            Some(Weekday::Tuesday)
        } else if eq_ignore_ascii_case(s, Weekday::Wednesday.name()) {
            Some(Weekday::Wednesday)
        } else if eq_ignore_ascii_case(s, Weekday::Thursday.name()) {
            Some(Weekday::Thursday)
        } else if eq_ignore_ascii_case(s, Weekday::Friday.name()) {
            Some(Weekday::Friday)
        } else if eq_ignore_ascii_case(s, Weekday::Saturday.name()) {
            Some(Weekday::Saturday)
        } else if eq_ignore_ascii_case(s, Weekday::Sunday.name()) {
            Some(Weekday::Sunday)
        } else {
            None
        }
    }

    /// The weekday that is `n` days after Monday.
    pub open spec fn from_index(n: int) -> Weekday {
        if n == 0 {
            Weekday::Monday
        } else if n == 1 {
            Weekday::Tuesday
        } else if n == 2 {
            Weekday::Wednesday
        } else if n == 3 {
            Weekday::Thursday
        } else if n == 4 {
            Weekday::Friday
        } else if n == 5 {
            Weekday::Saturday
        } else {
            Weekday::Sunday
        }
    }

    /// The name of the weekday.
    pub fn name_chars(&self) -> (r: Vec<char>)
        ensures
            r@ == self.name(),
    {
        match self {
            Weekday::Monday => vec!['M', 'o', 'n', 'd', 'a', 'y'],
            Weekday::Tuesday => vec!['T', 'u', 'e', 's', 'd', 'a', 'y'],
            Weekday::Wednesday => vec!['W', 'e', 'd', 'n', 'e', 's', 'd', 'a', 'y'],
            Weekday::Thursday => vec!['T', 'h', 'u', 'r', 's', 'd', 'a', 'y'],
            Weekday::Friday => vec!['F', 'r', 'i', 'd', 'a', 'y'],
            Weekday::Saturday => vec!['S', 'a', 't', 'u', 'r', 'd', 'a', 'y'],
            Weekday::Sunday => vec!['S', 'u', 'n', 'd', 'a', 'y'],
        }
    }

    /// The weekday named `s`, ASCII letters compared without case.
    pub fn from_name(s: &[char]) -> (r: Option<Weekday>)
        ensures
            r == Weekday::from_name_spec(s@),
    {
        if seq_eq_ignore_ascii_case(s, &Weekday::Monday.name_chars()) {
            Some(Weekday::Monday)
        } else if seq_eq_ignore_ascii_case(s, &Weekday::Tuesday.name_chars()) {
            Some(Weekday::Tuesday)
        } else if seq_eq_ignore_ascii_case(s, &Weekday::Wednesday.name_chars()) {
            Some(Weekday::Wednesday)
        } else if seq_eq_ignore_ascii_case(s, &Weekday::Thursday.name_chars()) {
            Some(Weekday::Thursday)
        } else if seq_eq_ignore_ascii_case(s, &Weekday::Friday.name_chars()) {
            Some(Weekday::Friday)
        } else if seq_eq_ignore_ascii_case(s, &Weekday::Saturday.name_chars()) {
            Some(Weekday::Saturday)
        } else if seq_eq_ignore_ascii_case(s, &Weekday::Sunday.name_chars()) {
            Some(Weekday::Sunday)
        } else {
            None
        }
    }

    /// The weekday `n` days after Monday.
    pub fn from_days_after_monday(n: u32) -> (r: Weekday)
        requires
            n < 7,
        ensures
            r == Weekday::from_index(n as int),
            r.index() == n,
    {
        if n == 0 {
            Weekday::Monday
        } else if n == 1 {
            Weekday::Tuesday
        } else if n == 2 {
            Weekday::Wednesday
        } else if n == 3 {
            Weekday::Thursday
        } else if n == 4 {
            Weekday::Friday
        } else if n == 5 {
            Weekday::Saturday
        } else {
            Weekday::Sunday
        }
    }

    /// The weekday of a date.
    pub fn of_date(date: &Date) -> (r: Weekday)
        ensures
            r.index() == weekday_number(date@.year, date@.month, date@.day),
    {
        let y = date.year();
        let m = date.month();
        let d = date.day();
        let n = chrono_weekday(y, m, d);
        Weekday::from_days_after_monday(n)
    }
}

impl Ordinal {
    /// 1 to 4 for the first to the fourth, 5 for the last.
    pub open spec fn number(self) -> int {
        match self {
            Ordinal::First => 1,
            Ordinal::Second => 2,
            Ordinal::Third => 3,
            Ordinal::Fourth => 4,
            Ordinal::Last => 5,
        }
    }

    pub open spec fn name(self) -> Seq<char> {
        match self {
            Ordinal::First => seq!['F', 'i', 'r', 's', 't'],
            Ordinal::Second => seq!['S', 'e', 'c', 'o', 'n', 'd'],
            Ordinal::Third => seq!['T', 'h', 'i', 'r', 'd'],
            Ordinal::Fourth => seq!['F', 'o', 'u', 'r', 't', 'h'],
            Ordinal::Last => seq!['L', 'a', 's', 't'],
        }
    }

    pub open spec fn from_name_spec(s: Seq<char>) -> Option<Ordinal> {
        if eq_ignore_ascii_case(s, Ordinal::First.name()) {
            Some(Ordinal::First)
        } else if eq_ignore_ascii_case(s, Ordinal::Second.name()) {
            Some(Ordinal::Second)
        } else if eq_ignore_ascii_case(s, Ordinal::Third.name()) {
            Some(Ordinal::Third)
        } else if eq_ignore_ascii_case(s, Ordinal::Fourth.name()) {
            Some(Ordinal::Fourth)
        } else if eq_ignore_ascii_case(s, Ordinal::Last.name()) {
            Some(Ordinal::Last)
        } else {
            None
        }
    }

    pub fn name_chars(&self) -> (r: Vec<char>)
        ensures
            r@ == self.name(),
    {
        match self {
            Ordinal::First => vec!['F', 'i', 'r', 's', 't'],
            Ordinal::Second => vec!['S', 'e', 'c', 'o', 'n', 'd'],
            Ordinal::Third => vec!['T', 'h', 'i', 'r', 'd'],
            Ordinal::Fourth => vec!['F', 'o', 'u', 'r', 't', 'h'],
            Ordinal::Last => vec!['L', 'a', 's', 't'],
        }
    }

    /// The ordinal named `s`, ASCII letters compared without case.
    pub fn from_name(s: &[char]) -> (r: Option<Ordinal>)
        ensures
            r == Ordinal::from_name_spec(s@),
    {
        if seq_eq_ignore_ascii_case(s, &Ordinal::First.name_chars()) {
            Some(Ordinal::First)
        } else if seq_eq_ignore_ascii_case(s, &Ordinal::Second.name_chars()) {
            Some(Ordinal::Second)
        } else if seq_eq_ignore_ascii_case(s, &Ordinal::Third.name_chars()) {
            Some(Ordinal::Third)
        } else if seq_eq_ignore_ascii_case(s, &Ordinal::Fourth.name_chars()) {
            Some(Ordinal::Fourth)
        } else if seq_eq_ignore_ascii_case(s, &Ordinal::Last.name_chars()) {
            Some(Ordinal::Last)
        } else {
            None
        }
    }

    pub fn number_of(&self) -> (r: u32)
        ensures
            r == self.number(),
    {
        match self {
            Ordinal::First => 1,
            Ordinal::Second => 2,
            Ordinal::Third => 3,
            Ordinal::Fourth => 4,
            Ordinal::Last => 5,
        }
    }
}

impl Month {
    /// 1 for January to 12 for December.
    pub open spec fn number(self) -> int {
        match self {
            Month::January => 1,
            Month::February => 2,
            Month::March => 3,
            Month::April => 4,
            Month::May => 5,
            Month::June => 6,
            Month::July => 7,
            Month::August => 8,
            Month::September => 9,
            Month::October => 10,
            Month::November => 11,
            Month::December => 12,
        }
    }

    pub open spec fn from_number_spec(n: int) -> Option<Month> {
        if n == 1 {
            Some(Month::January)
        } else if n == 2 {
            Some(Month::February)
        } else if n == 3 {
            Some(Month::March)
        } else if n == 4 {
            Some(Month::April)
        } else if n == 5 {
            Some(Month::May)
        } else if n == 6 {
            Some(Month::June)
        } else if n == 7 {
            Some(Month::July)
        } else if n == 8 {
            Some(Month::August)
        } else if n == 9 {
            Some(Month::September)
        } else if n == 10 {
            Some(Month::October)
        } else if n == 11 {
            Some(Month::November)
        } else if n == 12 {
            Some(Month::December)
        } else {
            None
        }
    }

    /// The English name of the month.
    pub open spec fn name(self) -> Seq<char> {
        match self {
            Month::January => seq!['J', 'a', 'n', 'u', 'a', 'r', 'y'],
            Month::February => seq!['F', 'e', 'b', 'r', 'u', 'a', 'r', 'y'],
            Month::March => seq!['M', 'a', 'r', 'c', 'h'],
            Month::April => seq!['A', 'p', 'r', 'i', 'l'],
            Month::May => seq!['M', 'a', 'y'],
            Month::June => seq!['J', 'u', 'n', 'e'],
            Month::July => seq!['J', 'u', 'l', 'y'],
            Month::August => seq!['A', 'u', 'g', 'u', 's', 't'],
            Month::September => seq!['S', 'e', 'p', 't', 'e', 'm', 'b', 'e', 'r'],
            Month::October => seq!['O', 'c', 't', 'o', 'b', 'e', 'r'],
            Month::November => seq!['N', 'o', 'v', 'e', 'm', 'b', 'e', 'r'],
            Month::December => seq!['D', 'e', 'c', 'e', 'm', 'b', 'e', 'r'],
        }
    }

    /// `s` names the month by its full English name or its first three
    /// letters, ASCII letters compared without case.
    pub open spec fn named_by(self, s: Seq<char>) -> bool {
        eq_ignore_ascii_case(s, self.name()) || eq_ignore_ascii_case(s, self.name().take(3))
    }

    /// The month that `s` names, as chrono's `Month::from_str` reads it.
    pub open spec fn from_name_spec(s: Seq<char>) -> Option<Month> {
        if Month::January.named_by(s) {
            Some(Month::January)
        } else if Month::February.named_by(s) {
            Some(Month::February)
        } else if Month::March.named_by(s) {
            Some(Month::March)
        } else if Month::April.named_by(s) {
            Some(Month::April)
        } else if Month::May.named_by(s) {
            Some(Month::May)
        } else if Month::June.named_by(s) {
            Some(Month::June)
        } else if Month::July.named_by(s) {
            Some(Month::July)
        } else if Month::August.named_by(s) {
            Some(Month::August)
        } else if Month::September.named_by(s) {
            Some(Month::September)
        } else if Month::October.named_by(s) {
            Some(Month::October)
        } else if Month::November.named_by(s) {
            Some(Month::November)
        } else if Month::December.named_by(s) {
            Some(Month::December)
        } else {
            None
        }
    }

    pub fn number_of(&self) -> (r: u32)
        ensures
            r == self.number(),
    {
        match self {
            Month::January => 1,
            Month::February => 2,
            Month::March => 3,
            Month::April => 4,
            Month::May => 5,
            Month::June => 6,
            Month::July => 7,
            Month::August => 8,
            Month::September => 9,
            Month::October => 10,
            Month::November => 11,
            Month::December => 12,
        }
    }

    /// The month with number `n` (1 for January).
    pub fn from_number(n: u32) -> (r: Option<Month>)
        ensures
            r == Month::from_number_spec(n as int),
    {
        if n == 1 {
            Some(Month::January)
        } else if n == 2 {
            Some(Month::February)
        } else if n == 3 {
            Some(Month::March)
        } else if n == 4 {
            Some(Month::April)
        } else if n == 5 {
            Some(Month::May)
        } else if n == 6 {
            Some(Month::June)
        } else if n == 7 {
            Some(Month::July)
        } else if n == 8 {
            Some(Month::August)
        } else if n == 9 {
            Some(Month::September)
        } else if n == 10 {
            Some(Month::October)
        } else if n == 11 {
            Some(Month::November)
        } else if n == 12 {
            Some(Month::December)
        } else {
            None
        }
    }

    pub fn name_chars(&self) -> (r: Vec<char>)
        ensures
            r@ == self.name(),
    {
        match self {
            Month::January => vec!['J', 'a', 'n', 'u', 'a', 'r', 'y'],
            Month::February => vec!['F', 'e', 'b', 'r', 'u', 'a', 'r', 'y'],
            Month::March => vec!['M', 'a', 'r', 'c', 'h'],
            Month::April => vec!['A', 'p', 'r', 'i', 'l'],
            Month::May => vec!['M', 'a', 'y'],
            Month::June => vec!['J', 'u', 'n', 'e'],
            Month::July => vec!['J', 'u', 'l', 'y'],
            Month::August => vec!['A', 'u', 'g', 'u', 's', 't'],
            Month::September => vec!['S', 'e', 'p', 't', 'e', 'm', 'b', 'e', 'r'],
            Month::October => vec!['O', 'c', 't', 'o', 'b', 'e', 'r'],
            Month::November => vec!['N', 'o', 'v', 'e', 'm', 'b', 'e', 'r'],
            Month::December => vec!['D', 'e', 'c', 'e', 'm', 'b', 'e', 'r'],
        }
    }

    /// The month named by `s`, read by chrono.
    pub fn from_name(s: &[char]) -> (r: Option<Month>)
        ensures
            r == Month::from_name_spec(s@),
    {
        let text = string_of(s);
        match chrono_month_number(text.as_str()) {
            Some(n) => Month::from_number(n),
            None => None,
        }
    }
}

/// Calls `chrono::NaiveDate::from_ymd_opt` and `Datelike::weekday` on the
/// date, and gives `Weekday::num_days_from_monday`. Claimed: the weekday of
/// the proleptic Gregorian calendar, where 1970-01-01 is a Thursday.
#[verifier::external_body]
fn chrono_weekday(year: i32, month: u32, day: u32) -> (r: u32)
    requires
        valid_ymd(year as int, month as int, day as int),
    ensures
        r == weekday_number(year as int, month as int, day as int),
        r < 7,
{
    chrono::NaiveDate::from_ymd_opt(year, month, day).unwrap().weekday().num_days_from_monday()
}

/// Calls `str::parse::<chrono::Month>` and gives `Month::number_from_month`.
/// Claimed (chrono's `scan::short_or_long_month0`, which must consume the
/// whole text): a month is read exactly when the text is its English name or
/// its first three letters, ASCII letters compared without case.
#[verifier::external_body]
fn chrono_month_number(s: &str) -> (r: Option<u32>)
    ensures
        r == (match Month::from_name_spec(s@) {
            Some(m) => Some(m.number() as u32),
            None => None::<u32>,
        }),
{
    match s.parse::<chrono::Month>() {
        Ok(m) => Some(m.number_from_month()),
        Err(_) => None,
    }
}

// ---------------------------------------------------------------- rules

/// A yearly date given by a rule such as "first Monday in January".
#[derive(Debug, Clone, Copy, PartialEq, Eq, Structural)]
pub struct Rule {
    pub ordinal: Ordinal,
    pub weekday: Weekday,
    pub month: Month,
}

#[derive(Debug, Clone, Copy, PartialEq, Eq, Structural)]
pub enum RuleParseError {
    InvalidFormat,
    InvalidOrdinal,
    InvalidWeekday,
    InvalidMonth,
}

/// What `Rule::parse` gives of a text `<ordinal> <weekday> in|of <month>`:
/// the text is lowercased and split into words at white space.
pub open spec fn rule_parse_spec(s: Seq<char>) -> Result<Rule, RuleParseError> {
    let p = words(lowercase(s));
    if p.len() != 4 {
        Err(RuleParseError::InvalidFormat)
    } else {
        match Ordinal::from_name_spec(p[0]) {
            None => Err(RuleParseError::InvalidOrdinal),
            Some(o) => match Weekday::from_name_spec(p[1]) {
                None => Err(RuleParseError::InvalidWeekday),
                Some(w) => if p[2] != seq!['i', 'n'] && p[2] != seq!['o', 'f'] {
                    Err(RuleParseError::InvalidFormat)
                } else {
                    match Month::from_name_spec(p[3]) {
                        None => Err(RuleParseError::InvalidMonth),
                        Some(m) => Ok(Rule { ordinal: o, weekday: w, month: m }),
                    }
                },
            },
        }
    }
}

/// The text `<Ordinal> <Weekday> in <Month>` of a rule.
pub open spec fn rule_text(r: Rule) -> Seq<char> {
    r.ordinal.name() + seq![' '] + r.weekday.name() + seq![' ', 'i', 'n', ' '] + r.month.name()
}

pub open spec fn md_opt_view(r: Option<MonthDay>) -> Option<MonthDayView> {
    match r {
        Some(d) => Some(d@),
        None => None,
    }
}

/// The month and day of a date.
pub open spec fn md_of(d: DateView) -> MonthDayView {
    MonthDayView { month: d.month, day: d.day }
}

/// The month and day that rule `r` gives in year `y`, where it gives one.
pub open spec fn rule_month_day_spec(r: Rule, y: int) -> Option<MonthDayView> {
    match rule_date_spec(r, y) {
        Some(d) => Some(md_of(d)),
        None => None,
    }
}

/// Day `d` of month `m` in year `y` exists and falls on weekday `w`.
pub open spec fn day_matches(y: int, m: int, w: Weekday, d: int) -> bool {
    valid_ymd(y, m, d) && weekday_number(y, m, d) == w.index()
}

/// How many of the days `1..=upto` of the month exist and fall on `w`.
pub open spec fn count_matching(y: int, m: int, w: Weekday, upto: int) -> int
    decreases upto,
{
    if upto <= 0 {
        0
    } else {
        count_matching(y, m, w, upto - 1) + if day_matches(y, m, w, upto) { 1int } else { 0int }
    }
}

/// Day `d` is the `n`-th day of the month that falls on `w`.
pub open spec fn is_nth_weekday(y: int, m: int, w: Weekday, n: int, d: int) -> bool {
    day_matches(y, m, w, d) && count_matching(y, m, w, d) == n
}

/// Day `d` is the last day of the month that falls on `w`.
pub open spec fn is_last_weekday(y: int, m: int, w: Weekday, d: int) -> bool {
    day_matches(y, m, w, d) && forall|e: int| d < e <= 31 ==> !day_matches(y, m, w, e)
}

/// The date that `r` gives in year `y`, where there is one: the `n`-th or
/// the last day of the month with the rule's weekday.
pub open spec fn rule_date_ok(r: Rule, y: int, dt: DateView) -> bool {
    &&& dt.year == y
    &&& dt.month == r.month.number()
    &&& if r.ordinal == Ordinal::Last {
        is_last_weekday(y, dt.month, r.weekday, dt.day)
    } else {
        is_nth_weekday(y, dt.month, r.weekday, r.ordinal.number(), dt.day)
    }
}

/// The date that `r` gives in year `y`, where it gives one.
pub open spec fn rule_date_spec(r: Rule, y: int) -> Option<DateView> {
    if exists|dt: DateView| rule_date_ok(r, y, dt) {
        Some(choose|dt: DateView| rule_date_ok(r, y, dt))
    } else {
        None
    }
}

/// A rule gives at most one date in a year.
pub proof fn lemma_rule_date_unique(r: Rule, y: int, a: DateView, b: DateView)
    requires
        rule_date_ok(r, y, a),
        rule_date_ok(r, y, b),
    ensures
        a == b,
{
    let m = r.month.number();
    if a.day < b.day {
        if r.ordinal != Ordinal::Last {
            lemma_count_monotone(y, m, r.weekday, a.day, b.day - 1);
        }
    } else if b.day < a.day {
        if r.ordinal != Ordinal::Last {
            lemma_count_monotone(y, m, r.weekday, b.day, a.day - 1);
        }
    }
}

/// The rule gives no date in year `y`.
pub open spec fn rule_has_no_date(r: Rule, y: int) -> bool {
    if r.ordinal == Ordinal::Last {
        forall|d: int| 1 <= d <= 31 ==> !day_matches(y, r.month.number(), r.weekday, d)
    } else {
        count_matching(y, r.month.number(), r.weekday, 31) < r.ordinal.number()
    }
}

/// Consecutive days of a month fall on consecutive weekdays.
pub proof fn lemma_next_weekday(y: int, m: int, d: int)
    ensures
        weekday_number(y, m, d + 1) == (weekday_number(y, m, d) + 1) % 7,
{
    let a = days_from_civil(y, m, d);
    assert(days_from_civil(y, m, d + 1) == a + 1);
}

proof fn lemma_count_monotone(y: int, m: int, w: Weekday, a: int, b: int)
    requires
        a <= b,
    ensures
        count_matching(y, m, w, a) <= count_matching(y, m, w, b),
    decreases b - a,
{
    if a < b {
        lemma_count_monotone(y, m, w, a, b - 1);
    }
}

/// Every seven days in a row that all exist hold the weekday `w` once.
proof fn lemma_week_holds_weekday_once(y: int, m: int, w: Weekday, a: int)
    requires
        0 <= a,
        forall|d: int| a < d <= a + 7 ==> valid_ymd(y, m, d),
    ensures
        count_matching(y, m, w, a + 7) == count_matching(y, m, w, a) + 1,
{
    lemma_next_weekday(y, m, a + 1);
    lemma_next_weekday(y, m, a + 2);
    lemma_next_weekday(y, m, a + 3);
    lemma_next_weekday(y, m, a + 4);
    lemma_next_weekday(y, m, a + 5);
    lemma_next_weekday(y, m, a + 6);
    let x = weekday_number(y, m, a + 1);
    assert(0 <= x < 7);
    assert(valid_ymd(y, m, a + 1));
    assert(valid_ymd(y, m, a + 2));
    assert(valid_ymd(y, m, a + 3));
    assert(valid_ymd(y, m, a + 4));
    assert(valid_ymd(y, m, a + 5));
    assert(valid_ymd(y, m, a + 6));
    assert(valid_ymd(y, m, a + 7));
    reveal_with_fuel(count_matching, 8);
}

/// In a month of a year in range, every weekday falls on four of the first
/// 28 days.
pub proof fn lemma_four_of_each_weekday(y: int, m: int, w: Weekday)
    requires
        MIN_YEAR <= y <= MAX_YEAR,
        1 <= m <= 12,
    ensures
        count_matching(y, m, w, 28) == count_matching(y, m, w, 0) + 4,
        count_matching(y, m, w, 7) == 1,
        count_matching(y, m, w, 31) >= 4,
{
    assert forall|d: int| 0 < d <= 28 implies valid_ymd(y, m, d) by {}
    lemma_week_holds_weekday_once(y, m, w, 0);
    lemma_week_holds_weekday_once(y, m, w, 7);
    lemma_week_holds_weekday_once(y, m, w, 14);
    lemma_week_holds_weekday_once(y, m, w, 21);
    lemma_count_monotone(y, m, w, 28, 31);
}

proof fn lemma_count_positive_has_match(y: int, m: int, w: Weekday, upto: int)
    requires
        count_matching(y, m, w, upto) > 0,
    ensures
        exists|d: int| 1 <= d <= upto && day_matches(y, m, w, d),
    decreases upto,
{
    if upto > 0 && !day_matches(y, m, w, upto) {
        lemma_count_positive_has_match(y, m, w, upto - 1);
    }
}

/// The `n`-th day of `month` in `year` that falls on `weekday`.
pub fn nth_weekday_in_month(year: i32, month: Month, weekday: Weekday, ordinal: Ordinal) -> (r: Option<Date>)
    ensures
        r matches Some(dt) ==> dt@.year == year && dt@.month == month.number()
            && is_nth_weekday(year as int, month.number(), weekday, ordinal.number(), dt@.day),
        r is None <==> count_matching(year as int, month.number(), weekday, 31) < ordinal.number(),
{
    let n = ordinal.number_of();
    let m = month.number_of();
    let mut count: u32 = 0;
    let mut day: u32 = 1;
    while day <= 31
        invariant
            1 <= day <= 32,
            n == ordinal.number(),
            m == month.number(),
            count == count_matching(year as int, m as int, weekday, day - 1),
            count < n,
        decreases 32 - day,
    {
        match Date::from_ymd(year, m, day) {
            Some(date) => {
                if Weekday::of_date(&date) == weekday {
                    count = count + 1;
                    if count == n {
                        proof {
                            lemma_count_monotone(year as int, m as int, weekday, day as int, 31);
                        }
                        return Some(date);
                    }
                }
            },
            None => {},
        }
        day = day + 1;
    }
    None
}

/// The last day of `month` in `year` that falls on `weekday`.
pub fn last_weekday_in_month(year: i32, month: Month, weekday: Weekday) -> (r: Option<Date>)
    ensures
        r matches Some(dt) ==> dt@.year == year && dt@.month == month.number()
            && is_last_weekday(year as int, month.number(), weekday, dt@.day),
        r is None <==> forall|d: int| 1 <= d <= 31 ==> !day_matches(year as int, month.number(), weekday, d),
{
    let m = month.number_of();
    let mut day: u32 = 31;
    while day >= 1
        invariant
            day <= 31,
            m == month.number(),
            forall|e: int| day < e <= 31 ==> !day_matches(year as int, m as int, weekday, e),
        decreases day,
    {
        match Date::from_ymd(year, m, day) {
            Some(date) => {
                if Weekday::of_date(&date) == weekday {
                    assert(day_matches(year as int, m as int, weekday, day as int));
                    return Some(date);
                }
            },
            None => {},
        }
        day = day - 1;
    }
    None
}

impl Rule {
    /// The rule of a text `<ordinal> <weekday> in|of <month>`, read without case.
    pub fn parse(rule_string: &str) -> (r: Result<Rule, RuleParseError>)
        ensures
            r == rule_parse_spec(rule_string@),
    {
        let lower = to_lowercase(rule_string);
        let cs = chars_of(lower.as_str());
        let parts = split_whitespace(&cs);
        if parts.len() != 4 {
            return Err(RuleParseError::InvalidFormat);
        }
        let ghost p = words(lowercase(rule_string@));
        assert(parts@[0]@ == p[0]);
        assert(parts@[1]@ == p[1]);
        assert(parts@[2]@ == p[2]);
        assert(parts@[3]@ == p[3]);
        let ordinal = match Ordinal::from_name(&parts[0]) {
            Some(o) => o,
            None => return Err(RuleParseError::InvalidOrdinal),
        };
        let weekday = match Weekday::from_name(&parts[1]) {
            Some(w) => w,
            None => return Err(RuleParseError::InvalidWeekday),
        };
        let in_word: Vec<char> = vec!['i', 'n'];
        let of_word: Vec<char> = vec!['o', 'f'];
        if !seq_eq(&parts[2], &in_word) && !seq_eq(&parts[2], &of_word) {
            return Err(RuleParseError::InvalidFormat);
        }
        let month = match Month::from_name(&parts[3]) {
            Some(m) => m,
            None => return Err(RuleParseError::InvalidMonth),
        };
        Ok(Rule { ordinal, weekday, month })
    }

    /// The date that the rule gives in `year`, where it gives one.
    pub fn resolve_date(&self, year: i32) -> (r: Option<Date>)
        ensures
            r matches Some(dt) ==> rule_date_ok(*self, year as int, dt@),
            date_opt_view(r) == rule_date_spec(*self, year as int),
            r is None <==> rule_has_no_date(*self, year as int),
            MIN_YEAR <= year <= MAX_YEAR ==> r is Some,
    {
        proof {
            if MIN_YEAR <= year <= MAX_YEAR {
                lemma_four_of_each_weekday(year as int, self.month.number(), self.weekday);
                lemma_count_positive_has_match(year as int, self.month.number(), self.weekday, 7);
            }
        }
        let r = if self.ordinal == Ordinal::Last {
            last_weekday_in_month(year, self.month, self.weekday)
        } else {
            nth_weekday_in_month(year, self.month, self.weekday, self.ordinal)
        };
        proof {
            match r {
                Some(dt) => {
                    assert(rule_date_ok(*self, year as int, dt@));
                    let c = choose|c: DateView| rule_date_ok(*self, year as int, c);
                    lemma_rule_date_unique(*self, year as int, dt@, c);
                },
                None => {
                    if exists|dt: DateView| rule_date_ok(*self, year as int, dt) {
                        let c = choose|c: DateView| rule_date_ok(*self, year as int, c);
                        if self.ordinal != Ordinal::Last {
                            lemma_count_monotone(year as int, self.month.number(), self.weekday, c.day, 31);
                        }
                    }
                },
            }
        }
        r
    }

    /// The month and day that the rule gives in `year`, where it gives one.
    pub fn month_day_in(&self, year: i32) -> (r: Option<MonthDay>)
        ensures
            md_opt_view(r) == rule_month_day_spec(*self, year as int),
            MIN_YEAR <= year <= MAX_YEAR ==> r is Some,
    {
        match self.resolve_date(year) {
            Some(date) => Some(MonthDay::of_date(&date)),
            None => None,
        }
    }

    /// The month and day that the rule gives in the current year.
    pub fn month_day(&self) -> (r: Option<MonthDay>)
        ensures
            r is Some,
            exists|y: int| MIN_YEAR <= y <= MAX_YEAR && md_opt_view(r) == rule_month_day_spec(*self, y),
    {
        let y = self.year();
        self.month_day_in(y)
    }

    /// The current year.
    pub fn year(&self) -> (r: i32)
        ensures
            MIN_YEAR <= r <= MAX_YEAR,
    {
        let today = today_local();
        today.year()
    }

    /// The text `<Ordinal> <Weekday> in <Month>`.
    pub fn as_string(&self) -> (r: String)
        ensures
            r@ == rule_text(*self),
    {
        let mut v = self.ordinal.name_chars();
        v.push(' ');
        let w = self.weekday.name_chars();
        push_all(&mut v, &w);
        let sep: Vec<char> = vec![' ', 'i', 'n', ' '];
        push_all(&mut v, &sep);
        let m = self.month.name_chars();
        push_all(&mut v, &m);
        string_of(&v)
    }
}

// ---------------------------------------------------------------- events

/// When an event takes place: on one date, on a month and day each year, or
/// on the day that a rule gives each year.
#[derive(Debug, Clone, Copy, PartialEq, Eq, Structural)]
pub enum EventKind {
    Singular(Date),
    Annual(MonthDay),
    RuleBased(Rule),
}

/// The mathematical value of an `EventKind`.
pub enum EventKindView {
    Singular(DateView),
    Annual(MonthDayView),
    RuleBased(Rule),
}

impl View for EventKind {
    type V = EventKindView;

    open spec fn view(&self) -> EventKindView {
        match self {
            EventKind::Singular(d) => EventKindView::Singular(d@),
            EventKind::Annual(md) => EventKindView::Annual(md@),
            EventKind::RuleBased(r) => EventKindView::RuleBased(*r),
        }
    }
}

pub struct EventView {
    pub kind: EventKindView,
    pub description: Seq<char>,
    pub category: CategoryView,
}

#[derive(Debug)]
pub struct Event {
    kind: EventKind,
    description: String,
    category: Category,
}

impl View for Event {
    type V = EventView;

    closed spec fn view(&self) -> EventView {
        EventView { kind: self.kind@, description: self.description@, category: self.category@ }
    }
}

impl Clone for Event {
    fn clone(&self) -> (r: Self)
        ensures
            r@ == self@,
    {
        Event { kind: self.kind, description: self.description.clone(), category: self.category.clone() }
    }
}

fn same_kind(a: &EventKind, b: &EventKind) -> (r: bool)
    ensures
        r == (a@ == b@),
{
    match (a, b) {
        (EventKind::Singular(x), EventKind::Singular(y)) => {
            x.year() == y.year() && x.month() == y.month() && x.day() == y.day()
        },
        (EventKind::Annual(x), EventKind::Annual(y)) => x.month() == y.month() && x.day() == y.day(),
        (EventKind::RuleBased(x), EventKind::RuleBased(y)) => {
            let r = *x == *y;
            r
        },
        _ => false,
    }
}

impl PartialEq for Event {
    fn eq(&self, other: &Self) -> (r: bool) {
        same_kind(&self.kind, &other.kind) && self.description == other.description && self.category == other.category
    }
}

impl Eq for Event {}

impl vstd::std_specs::cmp::PartialEqSpecImpl for Event {
    open spec fn obeys_eq_spec() -> bool {
        true
    }

    open spec fn eq_spec(&self, other: &Self) -> bool {
        self@ == other@
    }
}

/// The month and day on which an event falls in year `y`, where it falls on one.
pub open spec fn event_month_day_spec(e: EventView, y: int) -> Option<MonthDayView> {
    match e.kind {
        EventKindView::Singular(d) => Some(md_of(d)),
        EventKindView::Annual(md) => Some(md),
        EventKindView::RuleBased(r) => rule_month_day_spec(r, y),
    }
}

/// The text `<year>: <description> (<category>)` of an event, where `year`
/// is the year to show for it.
pub open spec fn event_text(e: EventView, year: int) -> Seq<char> {
    signed_decimal_spec(year) + seq![':', ' '] + e.description + seq![' ', '('] + category_text(e.category) + seq![')']
}

/// The year that an event shows: its own for one on a date, the current one
/// (`today`) for the others.
pub open spec fn event_year_spec(e: EventView, today: int) -> int {
    match e.kind {
        EventKindView::Singular(d) => d.year,
        _ => today,
    }
}

impl Event {
    pub fn category(&self) -> (r: Category)
        ensures
            r@ == self@.category,
    {
        self.category.clone()
    }

    pub fn description(&self) -> (r: String)
        ensures
            r@ == self@.description,
    {
        self.description.clone()
    }

    pub fn kind(&self) -> (r: EventKind)
        ensures
            r@ == self@.kind,
    {
        self.kind
    }

    pub fn new_singular(date: Date, description: String, category: Category) -> (r: Event)
        ensures
            r@ == (EventView { kind: EventKindView::Singular(date@), description: description@, category: category@ }),
    {
        Event { kind: EventKind::Singular(date), description, category }
    }

    pub fn new_annual(month_day: MonthDay, description: String, category: Category) -> (r: Event)
        ensures
            r@ == (EventView { kind: EventKindView::Annual(month_day@), description: description@, category: category@ }),
    {
        Event { kind: EventKind::Annual(month_day), description, category }
    }

    pub fn new_rule_based(rule: Rule, description: String, category: Category) -> (r: Event)
        ensures
            r@ == (EventView { kind: EventKindView::RuleBased(rule), description: description@, category: category@ }),
    {
        Event { kind: EventKind::RuleBased(rule), description, category }
    }

    /// The year of an event on a date; the current year for the others.
    pub fn year(&self) -> (r: i32)
        ensures
            exists|y: int| MIN_YEAR <= y <= MAX_YEAR && r == event_year_spec(self@, y),
    {
        match &self.kind {
            EventKind::Singular(date) => {
                let r = date.year();
                assert(MIN_YEAR <= 2000 <= MAX_YEAR && r == event_year_spec(self@, 2000));
                r
            },
            _ => {
                let r = today_local().year();
                assert(event_year_spec(self@, r as int) == r);
                r
            },
        }
    }

    /// The month and day on which the event falls in `year`, where it falls on one.
    pub fn month_day_in(&self, year: i32) -> (r: Option<MonthDay>)
        ensures
            md_opt_view(r) == event_month_day_spec(self@, year as int),
            MIN_YEAR <= year <= MAX_YEAR ==> r is Some,
    {
        match &self.kind {
            EventKind::Singular(date) => Some(MonthDay::of_date(date)),
            EventKind::Annual(month_day) => Some(*month_day),
            EventKind::RuleBased(rule) => {
                rule.month_day_in(year)
            },
        }
    }

    /// The month and day on which the event falls this year.
    pub fn month_day(&self) -> (r: MonthDay)
        ensures
            exists|y: int| MIN_YEAR <= y <= MAX_YEAR && event_month_day_spec(self@, y) == Some(r@),
    {
        let y = today_local().year();
        match self.month_day_in(y) {
            Some(md) => md,
            None => {
                assert(false);
                MonthDay { month: 1, day: 1 }
            },
        }
    }

    /// The text `<year>: <description> (<category>)`, shown with the year `year`
    /// where the event has none of its own.
    pub fn to_string_in(&self, year: i32) -> (r: String)
        ensures
            r@ == event_text(self@, event_year_spec(self@, year as int)),
    {
        let y: i32 = match &self.kind {
            EventKind::Singular(date) => date.year(),
            _ => year,
        };
        let mut v = signed_decimal(y as i64);
        v.push(':');
        v.push(' ');
        let d = chars_of(self.description.as_str());
        push_all(&mut v, &d);
        v.push(' ');
        v.push('(');
        let c = self.category.to_string();
        let cc = chars_of(c.as_str());
        push_all(&mut v, &cc);
        v.push(')');
        string_of(&v)
    }

    /// The text `<year>: <description> (<category>)`, with the current year
    /// for an event that has none of its own.
    pub fn to_string(&self) -> (r: String)
        ensures
            exists|y: int| MIN_YEAR <= y <= MAX_YEAR && r@ == event_text(self@, event_year_spec(self@, y)),
    {
        let y = today_local().year();
        self.to_string_in(y)
    }
}


// ---------------------------------------------------------------- names read back

proof fn lemma_ordinal_name_reads_back(o: Ordinal)
    ensures
        Ordinal::from_name_spec(ascii_lower_seq(o.name())) == Some(o),
        ascii_letters(o.name()),
        o.name().len() > 0,
{
    match o {
        Ordinal::First => {
            assert(ascii_lower_seq(o.name()) =~= seq!['f', 'i', 'r', 's', 't']);
        },
        Ordinal::Second => {
            assert(ascii_lower_seq(o.name()) =~= seq!['s', 'e', 'c', 'o', 'n', 'd']);
        },
        Ordinal::Third => {
            assert(ascii_lower_seq(o.name()) =~= seq!['t', 'h', 'i', 'r', 'd']);
        },
        Ordinal::Fourth => {
            assert(ascii_lower_seq(o.name()) =~= seq!['f', 'o', 'u', 'r', 't', 'h']);
        },
        Ordinal::Last => {
            assert(ascii_lower_seq(o.name()) =~= seq!['l', 'a', 's', 't']);
        },
    }
}


proof fn lemma_weekday_name_reads_back(w: Weekday)
    ensures
        Weekday::from_name_spec(ascii_lower_seq(w.name())) == Some(w),
        ascii_letters(w.name()),
        w.name().len() > 0,
{
    match w {
        Weekday::Monday => {
            assert(ascii_lower_seq(w.name()) =~= seq!['m', 'o', 'n', 'd', 'a', 'y']);
        },
        Weekday::Tuesday => {
            assert(ascii_lower_seq(w.name()) =~= seq!['t', 'u', 'e', 's', 'd', 'a', 'y']);
        },
        Weekday::Wednesday => {
            assert(ascii_lower_seq(w.name()) =~= seq!['w', 'e', 'd', 'n', 'e', 's', 'd', 'a', 'y']);
        },
        Weekday::Thursday => {
            assert(ascii_lower_seq(w.name()) =~= seq!['t', 'h', 'u', 'r', 's', 'd', 'a', 'y']);
        },
        Weekday::Friday => {
            assert(ascii_lower_seq(w.name()) =~= seq!['f', 'r', 'i', 'd', 'a', 'y']);
        },
        Weekday::Saturday => {
            assert(ascii_lower_seq(w.name()) =~= seq!['s', 'a', 't', 'u', 'r', 'd', 'a', 'y']);
        },
        Weekday::Sunday => {
            assert(ascii_lower_seq(w.name()) =~= seq!['s', 'u', 'n', 'd', 'a', 'y']);
        },
    }
}

proof fn lemma_month_name_reads_back(m: Month)
    ensures
        Month::from_name_spec(ascii_lower_seq(m.name())) == Some(m),
        ascii_letters(m.name()),
        m.name().len() > 0,
{
    match m {
        Month::January => {
            assert(ascii_lower_seq(m.name()) =~= seq!['j', 'a', 'n', 'u', 'a', 'r', 'y']);
        },
        Month::February => {
            assert(ascii_lower_seq(m.name()) =~= seq!['f', 'e', 'b', 'r', 'u', 'a', 'r', 'y']);
        },
        Month::March => {
            assert(ascii_lower_seq(m.name()) =~= seq!['m', 'a', 'r', 'c', 'h']);
        },
        Month::April => {
            assert(ascii_lower_seq(m.name()) =~= seq!['a', 'p', 'r', 'i', 'l']);
        },
        Month::May => {
            assert(ascii_lower_seq(m.name()) =~= seq!['m', 'a', 'y']);
        },
        Month::June => {
            assert(ascii_lower_seq(m.name()) =~= seq!['j', 'u', 'n', 'e']);
        },
        Month::July => {
            assert(ascii_lower_seq(m.name()) =~= seq!['j', 'u', 'l', 'y']);
        },
        Month::August => {
            assert(ascii_lower_seq(m.name()) =~= seq!['a', 'u', 'g', 'u', 's', 't']);
        },
        Month::September => {
            assert(ascii_lower_seq(m.name()) =~= seq!['s', 'e', 'p', 't', 'e', 'm', 'b', 'e', 'r']);
        },
        Month::October => {
            assert(ascii_lower_seq(m.name()) =~= seq!['o', 'c', 't', 'o', 'b', 'e', 'r']);
        },
        Month::November => {
            assert(ascii_lower_seq(m.name()) =~= seq!['n', 'o', 'v', 'e', 'm', 'b', 'e', 'r']);
        },
        Month::December => {
            assert(ascii_lower_seq(m.name()) =~= seq!['d', 'e', 'c', 'e', 'm', 'b', 'e', 'r']);
        },
    }
}


/// The text of a rule reads back as the rule: `Rule::parse` of
/// `Rule::as_string` gives the rule.
pub proof fn lemma_rule_text_reads_back(r: Rule)
    ensures
        rule_parse_spec(rule_text(r)) == Ok::<Rule, RuleParseError>(r),
{
    lemma_ordinal_name_reads_back(r.ordinal);
    lemma_weekday_name_reads_back(r.weekday);
    lemma_month_name_reads_back(r.month);
    let on = r.ordinal.name();
    let wn = r.weekday.name();
    let mn = r.month.name();
    lemma_ascii_letters_lower(on);
    lemma_ascii_letters_lower(wn);
    lemma_ascii_letters_lower(mn);
    let lo = ascii_lower_seq(on);
    let lw = ascii_lower_seq(wn);
    let lm = ascii_lower_seq(mn);
    let inw = seq!['i', 'n'];
    let text = rule_text(r);
    assert(is_ascii_seq(text)) by {
        assert forall|i: int| 0 <= i < text.len() implies is_ascii_char(#[trigger] text[i]) by {
            if i < on.len() {
                assert(text[i] == on[i]);
            } else if i < on.len() + 1 {
            } else if i < on.len() + 1 + wn.len() {
                assert(text[i] == wn[i - on.len() - 1]);
            } else if i < on.len() + 5 + wn.len() {
            } else {
                assert(text[i] == mn[i - on.len() - 5 - wn.len()]);
            }
        }
    }
    let tail4 = seq![' '] + lm;
    let tail3 = inw + tail4;
    let tail2 = seq![' '] + tail3;
    let tail1 = lw + tail2;
    let tail0 = seq![' '] + tail1;
    assert(lowercase(text) =~= lo + tail0);
    assert(forall|i: int| 0 <= i < inw.len() ==> !unicode_white_space(#[trigger] inw[i]));
    lemma_words_run(lo, tail0, Seq::<char>::empty());
    assert(Seq::<char>::empty() + lo =~= lo);
    lemma_words_space(tail1, lo);
    lemma_words_run(lw, tail2, Seq::<char>::empty());
    assert(Seq::<char>::empty() + lw =~= lw);
    lemma_words_space(tail3, lw);
    lemma_words_run(inw, tail4, Seq::<char>::empty());
    assert(Seq::<char>::empty() + inw =~= inw);
    lemma_words_space(lm, inw);
    assert(lm + Seq::<char>::empty() =~= lm);
    lemma_words_run(lm, Seq::<char>::empty(), Seq::<char>::empty());
    assert(Seq::<char>::empty() + lm =~= lm);
    assert(words_from(Seq::<char>::empty(), lm) == seq![lm]);
    let p = words(lowercase(text));
    assert(p =~= seq![lo, lw, inw, lm]);
}


/// The text of a rule is made of ASCII letters and spaces, and starts with
/// a letter.
pub proof fn lemma_rule_text_letters(r: Rule)
    ensures
        forall|i: int| 0 <= i < rule_text(r).len() ==> ('A' <= #[trigger] rule_text(r)[i] <= 'Z' || 'a' <= rule_text(r)[i] <= 'z' || rule_text(r)[i] == ' '),
        rule_text(r).len() > 0,
        rule_text(r)[0] != ' ',
{
    lemma_ordinal_name_reads_back(r.ordinal);
    lemma_weekday_name_reads_back(r.weekday);
    lemma_month_name_reads_back(r.month);
    let on = r.ordinal.name();
    let wn = r.weekday.name();
    let mn = r.month.name();
    let text = rule_text(r);
    assert forall|i: int| 0 <= i < text.len() implies ('A' <= #[trigger] text[i] <= 'Z' || 'a' <= text[i] <= 'z' || text[i] == ' ') by {
        if i < on.len() {
            assert(text[i] == on[i]);
        } else if i < on.len() + 1 {
        } else if i < on.len() + 1 + wn.len() {
            assert(text[i] == wn[i - on.len() - 1]);
        } else if i < on.len() + 5 + wn.len() {
        } else {
            assert(text[i] == mn[i - on.len() - 5 - wn.len()]);
        }
    }
    assert(text[0] == on[0]);
}


/// Reading a rule ignores case: two ASCII texts that differ only in the
/// case of their letters are read as the same rule, or fail alike.
pub proof fn lemma_rule_parse_ignores_case(s: Seq<char>, t: Seq<char>)
    requires
        is_ascii_seq(s),
        is_ascii_seq(t),
        eq_ignore_ascii_case(s, t),
    ensures
        rule_parse_spec(s) == rule_parse_spec(t),
{
    lemma_lowercase_ignores_case(s, t);
}


/// The text ` of `.
pub open spec fn of_text() -> Seq<char> {
    seq![' ', 'o', 'f', ' ']
}

/// The text ` in `.
pub open spec fn in_text() -> Seq<char> {
    seq![' ', 'i', 'n', ' ']
}

/// The words of a text with ` of ` in it and of the same text with ` in `
/// in its place are the same but for one word, `of` in the first and `in`
/// in the second, at the position returned.
proof fn lemma_words_of_in(a: Seq<char>, b: Seq<char>, cur: Seq<char>) -> (k: int)
    ensures
        words_from(a + of_text() + b, cur).len() == words_from(a + in_text() + b, cur).len(),
        0 <= k < words_from(a + of_text() + b, cur).len(),
        words_from(a + of_text() + b, cur)[k] == seq!['o', 'f'],
        words_from(a + in_text() + b, cur)[k] == seq!['i', 'n'],
        forall|i: int|
            0 <= i < words_from(a + of_text() + b, cur).len() && i != k ==> words_from(a + of_text() + b, cur)[i]
                == words_from(a + in_text() + b, cur)[i],
    decreases a.len(),
{
    let x = a + of_text() + b;
    let y = a + in_text() + b;
    if a.len() == 0 {
        let e = Seq::<char>::empty();
        let of_w = seq!['o', 'f'];
        let in_w = seq!['i', 'n'];
        let tail = seq![' '] + b;
        assert(x =~= seq![' '] + (of_w + tail));
        assert(y =~= seq![' '] + (in_w + tail));
        assert(forall|i: int| 0 <= i < of_w.len() ==> !unicode_white_space(#[trigger] of_w[i]));
        assert(forall|i: int| 0 <= i < in_w.len() ==> !unicode_white_space(#[trigger] in_w[i]));
        lemma_words_run(of_w, tail, e);
        lemma_words_run(in_w, tail, e);
        assert(e + of_w =~= of_w);
        assert(e + in_w =~= in_w);
        lemma_words_space(b, of_w);
        lemma_words_space(b, in_w);
        let r = words_from(b, e);
        let wo = seq![of_w] + r;
        let wi = seq![in_w] + r;
        assert(words_from(of_w + tail, e) == wo);
        assert(words_from(in_w + tail, e) == wi);
        let xs = seq![' '] + (of_w + tail);
        let ys = seq![' '] + (in_w + tail);
        assert(xs[0] == ' ' && ys[0] == ' ');
        assert(xs.drop_first() =~= of_w + tail);
        assert(ys.drop_first() =~= in_w + tail);
        if cur.len() == 0 {
            assert(cur =~= e);
            0
        } else {
            assert(words_from(xs, cur) == seq![cur] + wo);
            assert(words_from(ys, cur) == seq![cur] + wi);
            assert((seq![cur] + wo)[1] == of_w);
            assert((seq![cur] + wi)[1] == in_w);
            assert forall|i: int| 0 <= i < (seq![cur] + wo).len() && i != 1 implies (seq![cur] + wo)[i] == (seq![cur] + wi)[i] by {
                if i > 1 {
                    assert((seq![cur] + wo)[i] == r[i - 2]);
                    assert((seq![cur] + wi)[i] == r[i - 2]);
                }
            }
            1
        }
    } else {
        let c = a[0];
        let a2 = a.drop_first();
        assert(x[0] == c && y[0] == c);
        assert(x.drop_first() =~= a2 + of_text() + b);
        assert(y.drop_first() =~= a2 + in_text() + b);
        if unicode_white_space(c) {
            if cur.len() == 0 {
                lemma_words_of_in(a2, b, cur)
            } else {
                let e = Seq::<char>::empty();
                let k = lemma_words_of_in(a2, b, e);
                let w1 = words_from(a2 + of_text() + b, e);
                let w2 = words_from(a2 + in_text() + b, e);
                assert(words_from(x, cur) == seq![cur] + w1);
                assert(words_from(y, cur) == seq![cur] + w2);
                assert((seq![cur] + w1)[k + 1] == w1[k]);
                assert((seq![cur] + w2)[k + 1] == w2[k]);
                assert forall|i: int| 0 <= i < (seq![cur] + w1).len() && i != k + 1 implies (seq![cur] + w1)[i] == (seq![cur]
                    + w2)[i] by {
                    if i > 0 {
                        assert((seq![cur] + w1)[i] == w1[i - 1]);
                        assert((seq![cur] + w2)[i] == w2[i - 1]);
                    }
                }
                k + 1
            }
        } else {
            lemma_words_of_in(a2, b, cur.push(c))
        }
    }
}

/// Reading a rule takes `of` as it takes `in`: an ASCII text with ` of `
/// in it is read as the same text with ` in ` in its place (the same rule,
/// or the same error).
pub proof fn lemma_rule_parse_of_as_in(a: Seq<char>, b: Seq<char>)
    requires
        is_ascii_seq(a),
        is_ascii_seq(b),
    ensures
        rule_parse_spec(a + of_text() + b) == rule_parse_spec(a + in_text() + b),
{
    let x = a + of_text() + b;
    let y = a + in_text() + b;
    assert(is_ascii_seq(x)) by {
        assert forall|i: int| 0 <= i < x.len() implies is_ascii_char(#[trigger] x[i]) by {
            if i < a.len() {
                assert(x[i] == a[i]);
            } else if i >= a.len() + 4 {
                assert(x[i] == b[i - a.len() - 4]);
            }
        }
    }
    assert(is_ascii_seq(y)) by {
        assert forall|i: int| 0 <= i < y.len() implies is_ascii_char(#[trigger] y[i]) by {
            if i < a.len() {
                assert(y[i] == a[i]);
            } else if i >= a.len() + 4 {
                assert(y[i] == b[i - a.len() - 4]);
            }
        }
    }
    let la = ascii_lower_seq(a);
    let lb = ascii_lower_seq(b);
    assert(lowercase(x) =~= la + of_text() + lb);
    assert(lowercase(y) =~= la + in_text() + lb);
    let k = lemma_words_of_in(la, lb, Seq::<char>::empty());
    let p1 = words(lowercase(x));
    let p2 = words(lowercase(y));
    assert(p1 == words_from(la + of_text() + lb, Seq::<char>::empty()));
    assert(p2 == words_from(la + in_text() + lb, Seq::<char>::empty()));
    if p1.len() == 4 {
        if k != 0 {
            assert(p1[0] == p2[0]);
        }
        if k != 1 {
            assert(p1[1] == p2[1]);
        }
        if k != 2 {
            assert(p1[2] == p2[2]);
        }
        if k != 3 {
            assert(p1[3] == p2[3]);
        }
        if k == 3 {
            assert(Month::from_name_spec(seq!['o', 'f']) is None);
            assert(Month::from_name_spec(seq!['i', 'n']) is None);
        }
    }
}

} // verus!



