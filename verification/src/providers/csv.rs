//! Events kept in a CSV file without a header: `date,description,category`.

use crate::chars::{
    digits_value, lemma_replace_absent, lemma_two_digits, chars_of, contains_char, padded_decimal, padded_decimal_spec, push_all, replace_all, replace_spec, seq_eq,
    starts_with, starts_with_spec, string_of,
};
use crate::date::{date_text, DateView, chrono_parse_date, is_leap_year, parse_date, today_local, Date, MAX_YEAR, MIN_YEAR};
use crate::event::{category_text, lemma_category_text_reads_back, lemma_rule_text_letters, lemma_rule_text_reads_back, month_day_text, rule_text, category_from_str_spec, rule_parse_spec, Category, Event, EventKindView, EventView, Rule};
use crate::filter::{accepts_spec, EventFilter, FilterOptionView};
use crate::providers::text::{
    chrono_reads_back, date_char, event_kind_valid, lemma_annual_line_shape, lemma_date_text_shape, lemma_rule_line_shape,
    names_storable, date_line, dated_event_spec, event_opt_view, events_view, strings_view, yearless_mark,
    TextFileProvider,
};
use vstd::prelude::*;

verus! {

/// A CSV file of events.
pub struct CSVFileProvider {
    name: String,
    path: String,
}

/// The records that the `csv` crate reads from the bytes of a file without
/// a header: each record's fields, or none where reading it failed.
pub uninterp spec fn csv_records_spec(bytes: Seq<u8>) -> Seq<Option<Seq<Seq<char>>>>;

pub open spec fn record_view(r: Option<Vec<String>>) -> Option<Seq<Seq<char>>> {
    match r {
        Some(fields) => Some(strings_view(fields@)),
        None => None,
    }
}

pub open spec fn records_view(v: Seq<Option<Vec<String>>>) -> Seq<Option<Seq<Seq<char>>>> {
    v.map_values(|r: Option<Vec<String>>| record_view(r))
}

/// A field that the `csv` crate reads back as it is: no delimiter `,`, no
/// quote, no line end and no byte order mark in it.
pub open spec fn plain_field(f: Seq<char>) -> bool {
    &&& !f.contains(',')
    &&& !f.contains('"')
    &&& !f.contains('\n')
    &&& !f.contains('\r')
    &&& !f.contains('\u{feff}')
}

/// Records of plain fields, each with as many fields as the first, and with
/// two fields at least (so that no line is empty).
pub open spec fn simple_records(lines: Seq<Seq<Seq<char>>>) -> bool {
    forall|i: int|
        #![trigger lines[i]]
        0 <= i < lines.len() ==> lines[i].len() == lines[0].len() && lines[i].len() >= 2 && (forall|j: int|
            0 <= j < lines[i].len() ==> plain_field(#[trigger] lines[i][j]))
}

/// The fields of a record with `,` between them.
pub open spec fn record_text(fields: Seq<Seq<char>>) -> Seq<char>
    decreases fields.len(),
{
    if fields.len() == 0 {
        seq![]
    } else if fields.len() == 1 {
        fields[0]
    } else {
        record_text(fields.drop_last()).push(',') + fields.last()
    }
}

/// The text of records, each on a line of its own ended by a line feed.
pub open spec fn csv_text(lines: Seq<Seq<Seq<char>>>) -> Seq<char>
    decreases lines.len(),
{
    if lines.len() == 0 {
        seq![]
    } else {
        csv_text(lines.drop_last()) + record_text(lines.last()).push('\n')
    }
}

/// Each record read in full.
pub open spec fn read_in_full(lines: Seq<Seq<Seq<char>>>) -> Seq<Option<Seq<Seq<char>>>> {
    lines.map_values(|l: Seq<Seq<char>>| Some(l))
}

/// Calls `csv::ReaderBuilder::new().has_headers(false).from_reader(..).records()`
/// and gives each record's fields as strings. Claimed: the result is the
/// name `csv_records_spec` of the bytes; and (the crate's documentation:
/// RFC 4180, with a line feed ending a record and records of one length
/// required by default) the UTF-8 text of simple records, each line ended
/// by a line feed, is read as those records. Nothing more is stated of how
/// the `csv` crate reads other bytes.
#[verifier::external_body]
fn csv_records(bytes: &[u8]) -> (r: Vec<Option<Vec<String>>>)
    ensures
        records_view(r@) == csv_records_spec(bytes@),
        forall|lines: Seq<Seq<Seq<char>>>|
            #![trigger csv_text(lines)]
            simple_records(lines) && bytes@ == vstd::utf8::encode_utf8(csv_text(lines)) ==> records_view(r@)
                == read_in_full(lines),
{
    let mut reader = csv::ReaderBuilder::new().has_headers(false).from_reader(bytes);
    let mut out = Vec::new();
    for record in reader.records() {
        out.push(match record {
            Ok(fields) => Some(fields.iter().map(String::from).collect()),
            Err(_) => None,
        });
    }
    out
}

/// The text `{:04}-` of a year: four digits at least, a sign counted among them.
pub open spec fn year_prefix(y: int) -> Seq<char> {
    if y < 0 {
        (seq!['-'] + padded_decimal_spec((-y) as nat, 3)).push('-')
    } else {
        padded_decimal_spec(y as nat, 4).push('-')
    }
}

pub open spec fn feb_29_mark() -> Seq<char> {
    seq!['-', '-', '0', '2', '-', '2', '9']
}

/// The event of one CSV record in a year `ty` (the current one): a date
/// without `-` is a rule; `--MM-DD` is an annual date, read as a date of
/// `ty` (none for `--02-29` when `ty` is not a leap year); any other text is
/// a date that chrono reads.
pub open spec fn csv_event_spec(category: Seq<char>, date: Seq<char>, description: Seq<char>, ty: int) -> Option<EventView> {
    let rule_based = !date.contains('-');
    let yearless = starts_with_spec(date, yearless_mark());
    let cat = category_from_str_spec(category);
    if yearless && !is_leap_year(ty) && date == feb_29_mark() {
        None
    } else {
        let ds = if yearless { replace_spec(date, yearless_mark(), year_prefix(ty)) } else { date };
        if rule_based {
            match rule_parse_spec(ds) {
                Ok(r) => Some(EventView { kind: EventKindView::RuleBased(r), description, category: cat }),
                Err(_) => None,
            }
        } else {
            dated_event_spec(chrono_parse_date(ds), yearless, description, cat)
        }
    }
}

/// The records up to the first one that could not be read all hold three
/// fields at least.
pub open spec fn records_complete(recs: Seq<Option<Seq<Seq<char>>>>) -> bool
    decreases recs.len(),
{
    if recs.len() == 0 {
        true
    } else {
        match recs[0] {
            None => true,
            Some(fields) => fields.len() >= 3 && records_complete(recs.drop_first()),
        }
    }
}

/// The events of the CSV records that pass the filter `options` in year
/// `ty`: reading stops at the first record that could not be read; a record
/// that holds no event is passed over.
pub open spec fn csv_events_spec(recs: Seq<Option<Seq<Seq<char>>>>, options: Seq<FilterOptionView>, ty: int) -> Seq<EventView>
    decreases recs.len(),
{
    if recs.len() == 0 {
        seq![]
    } else {
        match recs[0] {
            None => seq![],
            Some(f) => {
                let rest = csv_events_spec(recs.drop_first(), options, ty);
                match csv_event_spec(f[2], f[0], f[1], ty) {
                    Some(e) => if accepts_spec(options, e, ty) { seq![e] + rest } else { rest },
                    None => rest,
                }
            },
        }
    }
}

/// The line that adding an event appends to a CSV file.
pub open spec fn csv_line(e: EventView) -> Seq<char> {
    date_line(e).push(',') + e.description.push(',') + crate::event::category_text(e.category).push('\n')
}

fn year_prefix_text(y: i32) -> (r: Vec<char>)
    ensures
        r@ == year_prefix(y as int),
{
    if y < 0 {
        let m: u64 = ((-(y as i64)) as u64);
        let d = padded_decimal(m, 3);
        let mut v: Vec<char> = vec!['-'];
        push_all(&mut v, &d);
        v.push('-');
        v
    } else {
        let mut v = padded_decimal(y as u64, 4);
        v.push('-');
        v
    }
}

impl CSVFileProvider {
    pub fn new(name: &str, path: &str) -> (r: CSVFileProvider)
        ensures
            r.name_spec() == name@,
            r.path_spec() == path@,
    {
        CSVFileProvider { name: name.to_string(), path: path.to_string() }
    }

    pub closed spec fn name_spec(&self) -> Seq<char> {
        self.name@
    }

    pub fn name(&self) -> (r: String)
        ensures
            r@ == self.name_spec(),
    {
        self.name.clone()
    }

    /// The path of the file.
    pub fn path(&self) -> (r: &str)
        ensures
            r@ == self.path_spec(),
    {
        self.path.as_str()
    }

    /// The path of the file that the source was made with.
    pub closed spec fn path_spec(&self) -> Seq<char> {
        self.path@
    }

    /// Events can be added to a CSV file.
    pub fn add_is_supported(&self) -> (r: bool)
        ensures
            r,
    {
        true
    }

    /// The event of one record, with `today` as the current date.
    pub fn parse_event_on(category_string: &str, date_string: &str, description: &str, today: &Date) -> (r: Option<Event>)
        ensures
            event_opt_view(r) == csv_event_spec(category_string@, date_string@, description@, today@.year),
    {
        let date_chars = chars_of(date_string);
        let is_rule_based = !contains_char(&date_chars, '-');
        let mark: Vec<char> = vec!['-', '-'];
        let is_yearless = starts_with(&date_chars, &mark);
        let ds = if is_yearless {
            let feb29: Vec<char> = vec!['-', '-', '0', '2', '-', '2', '9'];
            if !today.leap_year() && seq_eq(&date_chars, &feb29) {
                return None;
            }
            let prefix = year_prefix_text(today.year());
            replace_all(&date_chars, &mark, &prefix)
        } else {
            date_chars
        };
        if is_rule_based {
            let text = string_of(&ds);
            match Rule::parse(text.as_str()) {
                Ok(rule) => Some(Event::new_rule_based(rule, description.to_string(), Category::from_str(category_string))),
                Err(_) => None,
            }
        } else {
            let text = string_of(&ds);
            let parsed = parse_date(text.as_str());
            let category = Category::from_str(category_string);
            TextFileProvider::dated_event(parsed, is_yearless, description, category)
        }
    }

    /// The event of one record, with today's date.
    pub fn parse_event(category_string: &str, date_string: &str, description: &str) -> (r: Option<Event>)
        ensures
            exists|ty: int| MIN_YEAR <= ty <= MAX_YEAR
                && event_opt_view(r) == csv_event_spec(category_string@, date_string@, description@, ty),
    {
        let today = today_local();
        Self::parse_event_on(category_string, date_string, description, &today)
    }

    /// The records that the `csv` crate reads from the bytes of a file.
    pub fn records_of(bytes: &[u8]) -> (r: Vec<Option<Vec<String>>>)
        ensures
            records_view(r@) == csv_records_spec(bytes@),
            forall|lines: Seq<Seq<Seq<char>>>|
                #![trigger csv_text(lines)]
                simple_records(lines) && bytes@ == vstd::utf8::encode_utf8(csv_text(lines)) ==> records_view(r@)
                    == read_in_full(lines),
    {
        csv_records(bytes)
    }

    /// Whether the records up to the first unreadable one all hold three fields.
    pub fn records_are_complete(records: &Vec<Option<Vec<String>>>) -> (r: bool)
        ensures
            r == records_complete(records_view(records@)),
    {
        let ghost all = records_view(records@);
        let mut i: usize = records.len();
        let mut ok: bool = true;
        assert(all.skip(records.len() as int) =~= Seq::<Option<Seq<Seq<char>>>>::empty());
        while i > 0
            invariant
                i <= records.len(),
                all == records_view(records@),
                ok == records_complete(all.skip(i as int)),
            decreases i,
        {
            i = i - 1;
            let ghost rest = all.skip(i as int);
            assert(rest[0] == all[i as int]);
            assert(rest.drop_first() =~= all.skip(i + 1));
            match &records[i] {
                None => {
                    ok = true;
                },
                Some(fields) => {
                    assert(record_view(records@[i as int]) == Some(strings_view(fields@)));
                    ok = ok && fields.len() >= 3;
                },
            }
        }
        assert(all.skip(0) =~= all);
        ok
    }

    /// The events of a CSV file's bytes that pass `filter`, taken with
    /// today's date; none where a record before the first unreadable one
    /// holds fewer than three fields.
    pub fn events_from_bytes(bytes: &[u8], filter: &EventFilter) -> (r: Option<Vec<Event>>)
        ensures
            r is Some <==> records_complete(csv_records_spec(bytes@)),
            r matches Some(v) ==> exists|ty: int| MIN_YEAR <= ty <= MAX_YEAR
                && events_view(v@) == csv_events_spec(csv_records_spec(bytes@), filter@, ty),
    {
        let records = Self::records_of(bytes);
        if !Self::records_are_complete(&records) {
            return None;
        }
        let today = today_local();
        Some(Self::events_from_records_on(&records, filter, &today))
    }

    /// The events of the records that pass `filter`, with `today` as the
    /// current date.
    pub fn events_from_records_on(records: &Vec<Option<Vec<String>>>, filter: &EventFilter, today: &Date) -> (r: Vec<Event>)
        requires
            records_complete(records_view(records@)),
        ensures
            events_view(r@) == csv_events_spec(records_view(records@), filter@, today@.year),
    {
        let year = today.year();
        let ghost all = records_view(records@);
        let ghost opts = filter@;
        let mut events: Vec<Event> = Vec::new();
        let mut i: usize = 0;
        assert(all.skip(0) =~= all);
        assert(events_view(events@) + csv_events_spec(all, opts, year as int) =~= csv_events_spec(all, opts, year as int));
        while i < records.len()
            invariant
                i <= records.len(),
                all == records_view(records@),
                opts == filter@,
                year == today@.year,
                MIN_YEAR <= year <= MAX_YEAR,
                records_complete(all.skip(i as int)),
                events_view(events@) + csv_events_spec(all.skip(i as int), opts, year as int)
                    == csv_events_spec(all, opts, year as int),
            decreases records.len() - i,
        {
            let ghost rest = all.skip(i as int);
            assert(rest[0] == all[i as int]);
            assert(rest.drop_first() =~= all.skip(i + 1));
            match &records[i] {
                None => {
                    assert(events_view(events@) + Seq::<EventView>::empty() =~= events_view(events@));
                    return events;
                },
                Some(fields) => {
                    assert(record_view(records@[i as int]) == Some(strings_view(fields@)));
                    assert(fields@[0]@ == strings_view(fields@)[0]);
                    assert(fields@[1]@ == strings_view(fields@)[1]);
                    assert(fields@[2]@ == strings_view(fields@)[2]);
                    let ghost before = events_view(events@);
                    let ghost later = csv_events_spec(all.skip(i + 1), opts, year as int);
                    match Self::parse_event_on(fields[2].as_str(), fields[0].as_str(), fields[1].as_str(), today) {
                        Some(event) => {
                            if filter.accepts_in_year(&event, year) {
                                events.push(event);
                                assert(events_view(events@) =~= before.push(event@));
                                assert(before.push(event@) + later =~= before + (seq![event@] + later));
                            }
                        },
                        None => {},
                    }
                },
            }
            i = i + 1;
        }
        assert(events_view(events@) + Seq::<EventView>::empty() =~= events_view(events@));
        events
    }

    /// The line that adding `event` appends to the file:
    /// `date,description,category`.
    pub fn entry_line(event: &Event) -> (r: String)
        ensures
            r@ == csv_line(event@),
    {
        let first = TextFileProvider::date_line_text(event);
        let mut v = chars_of(first.as_str());
        v.push(',');
        let d = event.description();
        let dc = chars_of(d.as_str());
        push_all(&mut v, &dc);
        v.push(',');
        let c = event.category().to_string();
        let cc = chars_of(c.as_str());
        push_all(&mut v, &cc);
        v.push('\n');
        string_of(&v)
    }
}


// ---------------------------------------------------------------- reading back what is added

/// The fields of the line that adding an event appends: its date line,
/// its description and its category.
pub open spec fn entry_fields(e: EventView) -> Seq<Seq<char>> {
    seq![date_line(e), e.description, category_text(e.category)]
}

/// chrono reads back the date that the event's date line is read as in
/// year `ty`: the date of a singular event; for an annual one, the date of
/// its month and day in `ty`, from the text `year_prefix(ty)` and `MM-DD`.
pub open spec fn csv_dates_read_back(k: EventKindView, ty: int) -> bool {
    match k {
        EventKindView::Singular(d) => chrono_reads_back(d),
        EventKindView::Annual(md) => chrono_parse_date(year_prefix(ty) + month_day_text(md)) == Some(
            DateView { year: ty, month: md.month, day: md.day },
        ),
        EventKindView::RuleBased(_) => true,
    }
}

proof fn lemma_plain_date_chars(t: Seq<char>)
    requires
        forall|i: int| 0 <= i < t.len() ==> date_char(#[trigger] t[i]),
    ensures
        plain_field(t),
{
    assert forall|c: char| c == ',' || c == '"' || c == '\n' || c == '\r' || c == '\u{feff}' implies !t.contains(c) by {
        if t.contains(c) {
            let i = choose|i: int| 0 <= i < t.len() && t[i] == c;
            assert(date_char(t[i]));
        }
    }
}

/// The date line of a valid event is a plain field.
proof fn lemma_date_line_plain(e: EventView)
    requires
        event_kind_valid(e.kind),
    ensures
        plain_field(date_line(e)),
{
    match e.kind {
        EventKindView::Singular(d) => {
            lemma_date_text_shape(d);
            lemma_plain_date_chars(date_text(d));
        },
        EventKindView::Annual(md) => {
            lemma_annual_line_shape(md);
            lemma_plain_date_chars(yearless_mark() + month_day_text(md));
        },
        EventKindView::RuleBased(r) => {
            lemma_rule_text_letters(r);
            let t = rule_text(r);
            assert forall|c: char| c == ',' || c == '"' || c == '\n' || c == '\r' || c == '\u{feff}' implies !t.contains(c) by {
                if t.contains(c) {
                    let i = choose|i: int| 0 <= i < t.len() && t[i] == c;
                    assert('A' <= t[i] <= 'Z' || 'a' <= t[i] <= 'z' || t[i] == ' ');
                }
            }
        },
    }
}

/// The record of the line that adding an event writes is read, in year
/// `ty`, as that event.
proof fn lemma_entry_record_event(e: EventView, ty: int)
    requires
        event_kind_valid(e.kind),
        csv_dates_read_back(e.kind, ty),
        names_storable(e.category),
        e.kind matches EventKindView::Annual(md) ==> !(md.month == 2 && md.day == 29 && !is_leap_year(ty)),
    ensures
        csv_event_spec(category_text(e.category), date_line(e), e.description, ty) == Some(e),
{
    lemma_category_text_reads_back(e.category);
    match e.kind {
        EventKindView::Singular(d) => {
            lemma_date_text_shape(d);
            assert(date_line(e) == date_text(d));
            assert(chrono_parse_date(date_text(d)) == Some(d));
            assert(!starts_with_spec(date_line(e), yearless_mark()));
            assert(date_line(e).contains('-'));
            assert(dated_event_spec(Some(d), false, e.description, e.category) == Some(e));
            assert(category_from_str_spec(category_text(e.category)) == e.category);
            assert(!(starts_with_spec(date_line(e), yearless_mark()) && !is_leap_year(ty) && date_line(e) == feb_29_mark()));
            assert(csv_event_spec(category_text(e.category), date_line(e), e.description, ty) == dated_event_spec(
                chrono_parse_date(date_line(e)),
                false,
                e.description,
                category_from_str_spec(category_text(e.category)),
            ));
            assert(csv_event_spec(category_text(e.category), date_line(e), e.description, ty) == Some(e));
        },
        EventKindView::Annual(md) => {
            lemma_annual_line_shape(md);
            lemma_two_digits(md.month as nat);
            assert(month_day_text(md)[2] == '-');
            let line = yearless_mark() + month_day_text(md);
            assert(line.take(2) =~= yearless_mark());
            assert(line.skip(2) =~= month_day_text(md));
            lemma_replace_absent(month_day_text(md), yearless_mark(), year_prefix(ty));
            assert(replace_spec(line, yearless_mark(), year_prefix(ty)) == year_prefix(ty) + month_day_text(md));
            if line == feb_29_mark() {
                lemma_two_digits(md.month as nat);
                lemma_two_digits(md.day as nat);
                let mm = padded_decimal_spec(md.month as nat, 2);
                let dd = padded_decimal_spec(md.day as nat, 2);
                assert(month_day_text(md) == mm.push('-') + dd);
                assert(mm =~= seq!['0', '2']) by {
                    assert(mm[0] == line[2] && mm[1] == line[3]);
                }
                assert(dd =~= seq!['2', '9']) by {
                    assert(dd[0] == line[5] && dd[1] == line[6]);
                }
                assert(seq!['0', '2'].drop_last() =~= seq!['0']);
                assert(seq!['2', '9'].drop_last() =~= seq!['2']);
                assert(seq!['0'].drop_last() =~= Seq::<char>::empty());
                assert(seq!['2'].drop_last() =~= Seq::<char>::empty());
                assert(digits_value(Seq::<char>::empty()) == 0);
                assert(digits_value(seq!['0']) == 0);
                assert(digits_value(seq!['2']) == 2);
                assert(digits_value(seq!['0', '2']) == 2);
                assert(digits_value(seq!['2', '9']) == 29);
                assert(md.month == 2 && md.day == 29);
                assert(is_leap_year(ty));
            }
            assert((year_prefix(ty) + month_day_text(md)).contains('-')) by {
                assert((year_prefix(ty) + month_day_text(md))[year_prefix(ty).len() + 2int] == '-');
            }
            assert(line[0] == '-');
            assert(csv_event_spec(category_text(e.category), date_line(e), e.description, ty) == Some(e));
        },
        EventKindView::RuleBased(r) => {
            lemma_rule_line_shape(r);
            lemma_rule_text_reads_back(r);
            assert(csv_event_spec(category_text(e.category), date_line(e), e.description, ty) == Some(e));
        },
    }
}

/// Reading records read in full, then more records: the events of the
/// first, then those of the others.
proof fn lemma_csv_events_concat(a: Seq<Seq<Seq<char>>>, b: Seq<Option<Seq<Seq<char>>>>, options: Seq<FilterOptionView>, ty: int)
    requires
        forall|i: int| 0 <= i < a.len() ==> (#[trigger] a[i]).len() >= 3,
    ensures
        csv_events_spec(read_in_full(a) + b, options, ty) == csv_events_spec(read_in_full(a), options, ty)
            + csv_events_spec(b, options, ty),
    decreases a.len(),
{
    if a.len() == 0 {
        assert(read_in_full(a) + b =~= b);
        assert(read_in_full(a) =~= Seq::<Option<Seq<Seq<char>>>>::empty());
        assert(Seq::<EventView>::empty() + csv_events_spec(b, options, ty) =~= csv_events_spec(b, options, ty));
    } else {
        let ra = read_in_full(a);
        let x = ra + b;
        assert(x[0] == Some(a[0]));
        assert(ra[0] == Some(a[0]));
        assert(x.drop_first() =~= read_in_full(a.drop_first()) + b);
        assert(ra.drop_first() =~= read_in_full(a.drop_first()));
        assert forall|i: int| 0 <= i < a.drop_first().len() implies (#[trigger] a.drop_first()[i]).len() >= 3 by {
            assert(a.drop_first()[i] == a[i + 1]);
        }
        lemma_csv_events_concat(a.drop_first(), b, options, ty);
        let f = a[0];
        let rest_a = csv_events_spec(read_in_full(a.drop_first()), options, ty);
        let rest_b = csv_events_spec(b, options, ty);
        match csv_event_spec(f[2], f[0], f[1], ty) {
            Some(e) => {
                if accepts_spec(options, e, ty) {
                    assert(seq![e] + (rest_a + rest_b) =~= (seq![e] + rest_a) + rest_b);
                }
            },
            None => {},
        }
    }
}

/// What is added to a CSV file is read after what it held: reading, in
/// year `ty`, a file of simple records of three fields after an event is
/// added gives the events of those records and then the added event (where
/// the filter passes it). This holds of a valid event whose description and
/// category text are plain fields (the category's names without `/` and in
/// lowercase), that is not an annual event on February 29 read in a year
/// without it, where chrono reads back the date read from its date line,
/// and where the `csv` crate reads the file's records in full (which the
/// contract of `CSVFileProvider::records_of` gives of such files).
pub proof fn lemma_csv_appended_event_reads_back(
    lines: Seq<Seq<Seq<char>>>,
    e: EventView,
    options: Seq<FilterOptionView>,
    ty: int,
)
    requires
        simple_records(lines),
        forall|i: int| 0 <= i < lines.len() ==> (#[trigger] lines[i]).len() == 3,
        plain_field(e.description),
        plain_field(category_text(e.category)),
        event_kind_valid(e.kind),
        csv_dates_read_back(e.kind, ty),
        names_storable(e.category),
        e.kind matches EventKindView::Annual(md) ==> !(md.month == 2 && md.day == 29 && !is_leap_year(ty)),
        csv_records_spec(vstd::utf8::encode_utf8(csv_text(lines) + csv_line(e))) == read_in_full(lines.push(entry_fields(e))),
    ensures
        simple_records(lines.push(entry_fields(e))),
        csv_text(lines) + csv_line(e) == csv_text(lines.push(entry_fields(e))),
        csv_events_spec(csv_records_spec(vstd::utf8::encode_utf8(csv_text(lines) + csv_line(e))), options, ty)
            == csv_events_spec(read_in_full(lines), options, ty) + (if accepts_spec(options, e, ty) {
            seq![e]
        } else {
            Seq::<EventView>::empty()
        }),
{
    let l = entry_fields(e);
    let all = lines.push(l);
    assert(all.drop_last() =~= lines);
    lemma_date_line_plain(e);
    assert forall|i: int| #![trigger all[i]] 0 <= i < all.len() implies all[i].len() == all[0].len() && all[i].len() >= 2
        && (forall|j: int| 0 <= j < all[i].len() ==> plain_field(#[trigger] all[i][j])) by {
        if lines.len() > 0 {
            assert(all[0] == lines[0]);
            assert(lines[0].len() == 3);
        }
        if i < lines.len() {
            assert(all[i] == lines[i]);
            assert(lines[i].len() == 3);
        } else {
            assert(all[i] == l);
            assert forall|j: int| 0 <= j < l.len() implies plain_field(#[trigger] l[j]) by {
                if j == 0 {
                } else if j == 1 {
                } else {
                }
            }
        }
    }
    assert(simple_records(all));
    assert(record_text(l) =~= date_line(e).push(',') + e.description.push(',') + category_text(e.category)) by {
        assert(l.drop_last() =~= seq![date_line(e), e.description]);
        assert(seq![date_line(e), e.description].drop_last() =~= seq![date_line(e)]);
        assert(record_text(seq![date_line(e)]) == date_line(e));
        assert(record_text(seq![date_line(e), e.description]) == date_line(e).push(',') + e.description);
        assert(record_text(l) == record_text(seq![date_line(e), e.description]).push(',') + category_text(e.category));
    }
    assert(csv_text(all) =~= csv_text(lines) + csv_line(e));
    assert(read_in_full(all) =~= read_in_full(lines) + seq![Some(l)]);
    assert forall|i: int| 0 <= i < lines.len() implies (#[trigger] lines[i]).len() >= 3 by {
        assert(all[i] == lines[i]);
        assert(all[lines.len() as int] == l);
        assert(all[0].len() == l.len());
    }
    lemma_csv_events_concat(lines, seq![Some(l)], options, ty);
    lemma_entry_record_event(e, ty);
    assert(seq![Some(l)].drop_first() =~= Seq::<Option<Seq<Seq<char>>>>::empty());
    let tail = csv_events_spec(Seq::<Option<Seq<Seq<char>>>>::empty(), options, ty);
    assert(tail == Seq::<EventView>::empty());
    if accepts_spec(options, e, ty) {
        assert(seq![e] + tail =~= seq![e]);
    } else {
        assert(tail =~= Seq::<EventView>::empty());
    }
}

} // verus!

