//! Plain listings of the events on a day: events given as numbers
//! `YYYYMMDD` with a description, or as dates with a description.

use crate::chars::{decimal_spec, digit_value, all_digits, chars_of, digits_value, is_digit, lemma_decimal_digits, push_all, signed_decimal, signed_decimal_spec, string_of};
use crate::date::{Date, DateView};
use crate::event::Month;
use crate::providers::text::strings_view;
use vstd::prelude::*;

verus! {

pub open spec fn pow10(n: nat) -> nat
    decreases n,
{
    if n == 0 {
        1
    } else {
        10 * pow10((n - 1) as nat)
    }
}

/// The year, month and day of a number `YYYYMMDD`, read from its decimal
/// text: the first four characters are the year (a `-` among them makes it
/// negative), the next two the month and the rest the day.
pub open spec fn format_date_spec(date: int) -> (int, int, int) {
    let s = signed_decimal_spec(date);
    let year = if date < 0 { -digits_value(s.subrange(1, 4)) } else { digits_value(s.take(4)) as int };
    (year, digits_value(s.subrange(4, 6)) as int, digits_value(s.skip(6)) as int)
}

/// The number that the digits of `v` from `from` to `to` spell.
fn digits_between(v: &Vec<char>, from: usize, to: usize) -> (r: i32)
    requires
        from <= to <= v.len(),
        to - from <= 5,
        all_digits(v@.subrange(from as int, to as int)),
    ensures
        r == digits_value(v@.subrange(from as int, to as int)),
{
    let mut value: i32 = 0;
    let mut i: usize = from;
    proof { reveal_with_fuel(pow10, 6); }
    assert(v@.subrange(from as int, from as int) =~= Seq::<char>::empty());
    while i < to
        invariant
            from <= i <= to <= v.len(),
            to - from <= 5,
            all_digits(v@.subrange(from as int, to as int)),
            value == digits_value(v@.subrange(from as int, i as int)),
            value < pow10((i - from) as nat),
            pow10(5) == 100000,
        decreases to - i,
    {
        assert(v@.subrange(from as int, to as int)[i - from] == v@[i as int]);
        assert(is_digit(v@[i as int]));
        let d: i32 = (v[i] as u32 - '0' as u32) as i32;
        proof {
            let k = (i - from) as nat;
            assert(pow10(k + 1) == 10 * pow10(k));
            if k + 1 <= 5 {
                assert(pow10(k + 1) <= 100000) by {
                    reveal_with_fuel(pow10, 6);
                }
            }
        }
        value = value * 10 + d;
        assert(v@.subrange(from as int, i + 1).drop_last() =~= v@.subrange(from as int, i as int));
        i = i + 1;
    }
    value
}

/// A number below `10^k` has at most `k` decimal digits.
proof fn lemma_decimal_len(n: nat, k: nat)
    requires
        k >= 1,
        n < pow10(k),
    ensures
        decimal_spec(n).len() <= k,
    decreases k,
{
    if n >= 10 {
        assert(pow10(k) == 10 * pow10((k - 1) as nat));
        if k == 1 {
            assert(pow10(0) == 1);
        } else {
            lemma_decimal_len(n / 10, (k - 1) as nat);
        }
    }
}

/// The year, month and day of a number `YYYYMMDD`; see `format_date_spec`.
pub fn format_date(date: i32) -> (r: (i32, i32, i32))
    requires
        signed_decimal_spec(date as int).len() >= 7,
    ensures
        (r.0 as int, r.1 as int, r.2 as int) == format_date_spec(date as int),
{
    let v = signed_decimal(date as i64);
    let ghost s = v@;
    proof {
        reveal_with_fuel(pow10, 11);
        if date < 0 {
            let m = (-date) as nat;
            lemma_decimal_digits(m);
            lemma_decimal_len(m, 10);
            assert forall|i: int| 1 <= i < s.len() implies is_digit(#[trigger] s[i]) by {
                assert(s[i] == decimal_spec(m)[i - 1]);
            }
        } else {
            lemma_decimal_digits(date as nat);
            lemma_decimal_len(date as nat, 10);
        }
    }
    assert(v.len() <= 11);
    let year = if date < 0 {
        assert(all_digits(s.subrange(1, 4))) by {
            assert forall|i: int| 0 <= i < 3 implies is_digit(#[trigger] s.subrange(1, 4)[i]) by {
                assert(s.subrange(1, 4)[i] == s[i + 1]);
            }
        }
        -digits_between(&v, 1, 4)
    } else {
        assert(all_digits(s.subrange(0, 4))) by {
            assert forall|i: int| 0 <= i < 4 implies is_digit(#[trigger] s.subrange(0, 4)[i]) by {
                assert(s.subrange(0, 4)[i] == s[i]);
            }
        }
        assert(s.take(4) =~= s.subrange(0, 4));
        digits_between(&v, 0, 4)
    };
    assert(all_digits(s.subrange(4, 6))) by {
        assert forall|i: int| 0 <= i < 2 implies is_digit(#[trigger] s.subrange(4, 6)[i]) by {
            assert(s.subrange(4, 6)[i] == s[i + 4]);
        }
    }
    let month = digits_between(&v, 4, 6);
    assert(all_digits(s.subrange(6, s.len() as int))) by {
        assert forall|i: int| 0 <= i < s.len() - 6 implies is_digit(#[trigger] s.subrange(6, s.len() as int)[i]) by {
            assert(s.subrange(6, s.len() as int)[i] == s[i + 6]);
        }
    }
    assert(s.skip(6) =~= s.subrange(6, s.len() as int));
    let day = digits_between(&v, 6, v.len());
    (year, month, day)
}

/// The text of a month and day `day.month.` as the listings write it.
pub open spec fn day_month_text(month: int, day: int) -> Seq<char> {
    signed_decimal_spec(day) + "."@ + signed_decimal_spec(month) + "."@
}

/// The line of one event of a numbered listing: `year: description`.
pub open spec fn year_line(year: int, description: Seq<char>) -> Seq<char> {
    signed_decimal_spec(year) + ": "@ + description
}

/// The lines of the numbered events on the month and day, in order.
pub open spec fn numbered_matches(events: Seq<(i32, String)>, month: int, day: int) -> Seq<Seq<char>>
    decreases events.len(),
{
    if events.len() == 0 {
        seq![]
    } else {
        let rest = numbered_matches(events.drop_last(), month, day);
        let (y, m, d) = format_date_spec(events.last().0 as int);
        if m == month && d == day { rest.push(year_line(y, events.last().1@)) } else { rest }
    }
}

/// The listing of the numbered events on a month and day: a heading, the
/// line of each event on that month and day, and a note where there is
/// none.
pub open spec fn numbered_listing_spec(events: Seq<(i32, String)>, month: int, day: int) -> Seq<Seq<char>> {
    let found = numbered_matches(events, month, day);
    seq!["Events on date: "@ + day_month_text(month, day) + " :"@] + (if found.len() == 0 {
        seq!["No events found on date "@ + day_month_text(month, day)]
    } else {
        found
    })
}

/// Every event number has seven characters at least, as `YYYYMMDD` has.
pub open spec fn numbers_readable(events: Seq<(i32, String)>) -> bool {
    forall|i: int| 0 <= i < events.len() ==> signed_decimal_spec((#[trigger] events[i]).0 as int).len() >= 7
}

fn day_month_string(month: i32, day: i32) -> (r: Vec<char>)
    ensures
        r@ == day_month_text(month as int, day as int),
{
    let mut v = signed_decimal(day as i64);
    push_all(&mut v, &chars_of("."));
    push_all(&mut v, &signed_decimal(month as i64));
    push_all(&mut v, &chars_of("."));
    v
}

/// The listing of the numbered events on the month and day `date`
/// (month, day); see `numbered_listing_spec`.
pub fn print_events_on_date(events: &Vec<(i32, String)>, date: (i32, i32)) -> (r: Vec<String>)
    requires
        numbers_readable(events@),
    ensures
        strings_view(r@) == numbered_listing_spec(events@, date.0 as int, date.1 as int),
{
    let dm = day_month_string(date.0, date.1);
    let mut heading = chars_of("Events on date: ");
    push_all(&mut heading, &dm);
    push_all(&mut heading, &chars_of(" :"));
    let mut lines: Vec<String> = Vec::new();
    lines.push(string_of(&heading));
    let ghost es = events@;
    let mut i: usize = 0;
    assert(es.take(0) =~= Seq::<(i32, String)>::empty());
    while i < events.len()
        invariant
            i <= events.len(),
            es == events@,
            numbers_readable(es),
            lines@.len() >= 1,
            strings_view(lines@) =~= seq![heading@] + numbered_matches(es.take(i as int), date.0 as int, date.1 as int),
        decreases events.len() - i,
    {
        assert(es.take(i + 1).drop_last() =~= es.take(i as int));
        assert(es.take(i + 1).last() == es[i as int]);
        assert(signed_decimal_spec(es[i as int].0 as int).len() >= 7);
        let (y, m, d) = format_date(events[i].0);
        if m == date.0 && d == date.1 {
            let mut line = signed_decimal(y as i64);
            push_all(&mut line, &chars_of(": "));
            push_all(&mut line, &chars_of(events[i].1.as_str()));
            let ghost before = strings_view(lines@);
            let t = string_of(&line);
            lines.push(t);
            assert(strings_view(lines@) =~= before.push(t@));
        }
        i = i + 1;
    }
    assert(es.take(events.len() as int) =~= es);
    if lines.len() == 1 {
        let mut none = chars_of("No events found on date ");
        push_all(&mut none, &dm);
        let ghost before = strings_view(lines@);
        let t = string_of(&none);
        lines.push(t);
        assert(strings_view(lines@) =~= before.push(t@));
    }
    lines
}

/// The ending of an ordinal day number: `st`, `nd` and `rd` for the days 1,
/// 2 and 3, `th` for the others.
pub open spec fn day_ending_spec(day: int) -> Seq<char> {
    if day == 1 {
        "st"@
    } else if day == 2 {
        "nd"@
    } else if day == 3 {
        "rd"@
    } else {
        "th"@
    }
}

/// The ending of an ordinal day number.
pub fn day_ending(day: u32) -> (r: String)
    ensures
        r@ == day_ending_spec(day as int),
{
    let t = if day == 1 {
        "st"
    } else if day == 2 {
        "nd"
    } else if day == 3 {
        "rd"
    } else {
        "th"
    };
    string_of(&chars_of(t))
}

/// A day of a month as the dated listing writes it: `January 15th`.
pub open spec fn month_day_words(month: int, day: int) -> Seq<char> {
    Month::from_number_spec(month).unwrap().name() + " "@ + signed_decimal_spec(day) + day_ending_spec(day)
}

/// The lines of the dated events on the month and day of `date`, in order.
pub open spec fn dated_matches(events: Seq<(Date, String)>, date: DateView) -> Seq<Seq<char>>
    decreases events.len(),
{
    if events.len() == 0 {
        seq![]
    } else {
        let rest = dated_matches(events.drop_last(), date);
        let d = events.last().0@;
        if d.month == date.month && d.day == date.day { rest.push(year_line(d.year, events.last().1@)) } else { rest }
    }
}

/// The listing of the dated events on the month and day of a date: a
/// heading, the line of each event on that month and day, and a note where
/// there is none.
pub open spec fn dated_listing_spec(events: Seq<(Date, String)>, date: DateView) -> Seq<Seq<char>> {
    let found = dated_matches(events, date);
    let words = month_day_words(date.month, date.day);
    seq!["Events on date: "@ + words] + (if found.len() == 0 {
        seq!["No events found on date "@ + words]
    } else {
        found
    })
}

/// The listing of the dated events on the month and day of `date`; see
/// `dated_listing_spec`.
pub fn events_on_month_day(events: &Vec<(Date, String)>, date: &Date) -> (r: Vec<String>)
    ensures
        strings_view(r@) == dated_listing_spec(events@, date@),
{
    let month = Month::from_number(date.month()).unwrap();
    let mut words = month.name_chars();
    push_all(&mut words, &chars_of(" "));
    push_all(&mut words, &signed_decimal(date.day() as i64));
    let ending = day_ending(date.day());
    push_all(&mut words, &chars_of(ending.as_str()));
    let mut heading = chars_of("Events on date: ");
    push_all(&mut heading, &words);
    let mut lines: Vec<String> = Vec::new();
    lines.push(string_of(&heading));
    let ghost es = events@;
    let mut i: usize = 0;
    assert(es.take(0) =~= Seq::<(Date, String)>::empty());
    while i < events.len()
        invariant
            i <= events.len(),
            es == events@,
            lines@.len() >= 1,
            strings_view(lines@) =~= seq![heading@] + dated_matches(es.take(i as int), date@),
        decreases events.len() - i,
    {
        assert(es.take(i + 1).drop_last() =~= es.take(i as int));
        assert(es.take(i + 1).last() == es[i as int]);
        let d = &events[i].0;
        if d.month() == date.month() && d.day() == date.day() {
            let mut line = signed_decimal(d.year() as i64);
            push_all(&mut line, &chars_of(": "));
            push_all(&mut line, &chars_of(events[i].1.as_str()));
            let ghost before = strings_view(lines@);
            let t = string_of(&line);
            lines.push(t);
            assert(strings_view(lines@) =~= before.push(t@));
        }
        i = i + 1;
    }
    assert(es.take(events.len() as int) =~= es);
    if lines.len() == 1 {
        let mut none = chars_of("No events found on date ");
        push_all(&mut none, &words);
        let ghost before = strings_view(lines@);
        let t = string_of(&none);
        lines.push(t);
        assert(strings_view(lines@) =~= before.push(t@));
    }
    lines
}

/// The lines of the numbered events on a month and day are, in order, the
/// year lines of exactly those events whose number reads as that month and
/// that day.
pub proof fn lemma_numbered_lines_are_the_days_events(events: Seq<(i32, String)>, month: int, day: int)
    ensures
        numbered_matches(events, month, day) == events.filter(
            |e: (i32, String)| format_date_spec(e.0 as int).1 == month && format_date_spec(e.0 as int).2 == day,
        ).map_values(|e: (i32, String)| year_line(format_date_spec(e.0 as int).0, e.1@)),
    decreases events.len(),
{
    reveal(Seq::filter);
    let p = |e: (i32, String)| format_date_spec(e.0 as int).1 == month && format_date_spec(e.0 as int).2 == day;
    let f = |e: (i32, String)| year_line(format_date_spec(e.0 as int).0, e.1@);
    if events.len() == 0 {
        assert(events.filter(p).map_values(f) =~= Seq::<Seq<char>>::empty());
    } else {
        lemma_numbered_lines_are_the_days_events(events.drop_last(), month, day);
        let sub = events.drop_last().filter(p);
        if p(events.last()) {
            assert(events.filter(p) == sub.push(events.last()));
            assert(sub.push(events.last()).map_values(f) =~= sub.map_values(f).push(f(events.last())));
        } else {
            assert(events.filter(p) == sub);
        }
    }
}

/// Where no event's number reads as the month and day, the listing is the
/// heading and the note that there are none.
pub proof fn lemma_numbered_listing_without_events_on_the_day(events: Seq<(i32, String)>, month: int, day: int)
    requires
        forall|i: int| 0 <= i < events.len() ==> !(format_date_spec((#[trigger] events[i]).0 as int).1 == month
            && format_date_spec(events[i].0 as int).2 == day),
    ensures
        numbered_matches(events, month, day).len() == 0,
        numbered_listing_spec(events, month, day) == seq![
            "Events on date: "@ + day_month_text(month, day) + " :"@,
            "No events found on date "@ + day_month_text(month, day),
        ],
    decreases events.len(),
{
    if events.len() > 0 {
        assert forall|i: int| 0 <= i < events.drop_last().len() implies !(format_date_spec(
            (#[trigger] events.drop_last()[i]).0 as int,
        ).1 == month && format_date_spec(events.drop_last()[i].0 as int).2 == day) by {
            assert(events.drop_last()[i] == events[i]);
        }
        lemma_numbered_listing_without_events_on_the_day(events.drop_last(), month, day);
        assert(events.last() == events[events.len() - 1]);
    }
}

/// The lines of the dated events on the month and day of `date` are, in
/// order, the year lines of exactly those events whose date has that month
/// and that day.
pub proof fn lemma_dated_lines_are_the_days_events(events: Seq<(Date, String)>, date: DateView)
    ensures
        dated_matches(events, date) == events.filter(
            |e: (Date, String)| e.0@.month == date.month && e.0@.day == date.day,
        ).map_values(|e: (Date, String)| year_line(e.0@.year, e.1@)),
    decreases events.len(),
{
    reveal(Seq::filter);
    let p = |e: (Date, String)| e.0@.month == date.month && e.0@.day == date.day;
    let f = |e: (Date, String)| year_line(e.0@.year, e.1@);
    if events.len() == 0 {
        assert(events.filter(p).map_values(f) =~= Seq::<Seq<char>>::empty());
    } else {
        lemma_dated_lines_are_the_days_events(events.drop_last(), date);
        let sub = events.drop_last().filter(p);
        if p(events.last()) {
            assert(events.filter(p) == sub.push(events.last()));
            assert(sub.push(events.last()).map_values(f) =~= sub.map_values(f).push(f(events.last())));
        } else {
            assert(events.filter(p) == sub);
        }
    }
}

/// The decimal digits of a number spell that number.
proof fn lemma_decimal_value(n: nat)
    ensures
        digits_value(decimal_spec(n)) == n,
    decreases n,
{
    let c = ((n % 10) + 48) as char;
    assert(c as u32 == (n % 10) + 48);
    if n < 10 {
        let s = decimal_spec(n);
        assert(s.drop_last() =~= Seq::<char>::empty());
        assert(s.last() == c);
        assert(digits_value(Seq::<char>::empty()) == 0);
        assert(digit_value(c) == n % 10);
        assert(digits_value(s) == digits_value(s.drop_last()) * 10 + digit_value(s.last()));
    } else {
        lemma_decimal_value(n / 10);
        let s = decimal_spec(n);
        assert(s.drop_last() == decimal_spec(n / 10));
        assert(s.last() == c);
        assert(digit_value(c) == n % 10);
        assert(digits_value(s) == digits_value(s.drop_last()) * 10 + digit_value(s.last()));
    }
}

/// Writing one more digit `b` after a number `a` gives the number `10a + b`.
proof fn lemma_decimal_push(a: nat, b: nat)
    requires
        a >= 1,
        b < 10,
    ensures
        decimal_spec(a * 10 + b) == decimal_spec(a).push(((b + 48) as char)),
{
    let n = a * 10 + b;
    assert(n / 10 == a && n % 10 == b);
}

/// A number of four digits has four characters.
proof fn lemma_four_digits(y: nat)
    requires
        1000 <= y <= 9999,
    ensures
        decimal_spec(y).len() == 4,
{
    reveal_with_fuel(decimal_spec, 4);
    assert(decimal_spec(y / 1000).len() == 1);
}

/// The value of two digits written as characters.
proof fn lemma_two_digit_value(a: nat, b: nat)
    requires
        a < 10,
        b < 10,
    ensures
        digits_value(seq![((a + 48) as char), ((b + 48) as char)]) == a * 10 + b,
{
    let s = seq![((a + 48) as char), ((b + 48) as char)];
    assert(((a + 48) as char) as u32 == a + 48);
    assert(((b + 48) as char) as u32 == b + 48);
    assert(s.drop_last() =~= seq![((a + 48) as char)]);
    assert(s.drop_last().drop_last() =~= Seq::<char>::empty());
    assert(digits_value(Seq::<char>::empty()) == 0);
    assert(digit_value(s.last()) == b);
    assert(digit_value(s.drop_last().last()) == a);
    assert(digits_value(s.drop_last()) == digits_value(s.drop_last().drop_last()) * 10 + digit_value(s.drop_last().last()));
    assert(digits_value(s) == digits_value(s.drop_last()) * 10 + digit_value(s.last()));
}

/// A number `YYYYMMDD` with a year of four digits reads back as its year,
/// month and day: the month is the third pair of digits and the day the
/// fourth, whatever the digits are.
pub proof fn lemma_format_date_reads_parts(year: int, month: int, day: int)
    requires
        1000 <= year <= 9999,
        0 <= month <= 99,
        0 <= day <= 99,
    ensures
        format_date_spec(year * 10000 + month * 100 + day) == (year, month, day),
{
    let y = year as nat;
    let m1 = (month / 10) as nat;
    let m0 = (month % 10) as nat;
    let d1 = (day / 10) as nat;
    let d0 = (day % 10) as nat;
    let n = (year * 10000 + month * 100 + day) as nat;
    lemma_decimal_push(y, m1);
    lemma_decimal_push(y * 10 + m1, m0);
    lemma_decimal_push((y * 10 + m1) * 10 + m0, d1);
    lemma_decimal_push(((y * 10 + m1) * 10 + m0) * 10 + d1, d0);
    assert((((y * 10 + m1) * 10 + m0) * 10 + d1) * 10 + d0 == n);
    let c = |k: nat| ((k + 48) as char);
    let s = decimal_spec(n);
    lemma_four_digits(y);
    assert(s =~= decimal_spec(y) + seq![c(m1), c(m0), c(d1), c(d0)]);
    assert(signed_decimal_spec(n as int) == s);
    assert(s.take(4) =~= decimal_spec(y));
    lemma_decimal_value(y);
    assert(s.subrange(4, 6) =~= seq![c(m1), c(m0)]);
    lemma_two_digit_value(m1, m0);
    assert(s.skip(6) =~= seq![c(d1), c(d0)]);
    lemma_two_digit_value(d1, d0);
}

} // verus!
