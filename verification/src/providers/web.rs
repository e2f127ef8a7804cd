//! Events served by a web endpoint as JSON, asked for one month and day at
//! a time.

use crate::chars::{chars_of, push_all, string_of};
use crate::date::{chrono_parse_date, parse_date, today_local, Date, MAX_YEAR, MIN_YEAR};
use crate::event::{category_from_str_spec, month_day_text, Category, Event, EventKindView, EventView};
use crate::filter::{accepts_spec, first_month_day, EventFilter, FilterOptionView};
use crate::providers::text::events_view;
use crate::providers::EventProviderError;
use vstd::prelude::*;

verus! {

/// A web endpoint of events.
pub struct WebProvider {
    name: String,
    url: String,
}

/// One event as the endpoint sends it: its category text, its date text and
/// its description.
pub struct JsonEvent {
    pub category: String,
    pub date: String,
    pub description: String,
}

/// Every date text of the events is one that chrono reads.
pub open spec fn dates_readable(js: Seq<JsonEvent>) -> bool {
    forall|i: int| 0 <= i < js.len() ==> (#[trigger] chrono_parse_date(js[i].date@)) is Some
}

/// The event of one JSON event whose date chrono reads: an event on that
/// date, with the category read from its text.
pub open spec fn web_event_spec(j: JsonEvent) -> EventView {
    EventView {
        kind: EventKindView::Singular(chrono_parse_date(j.date@).unwrap()),
        description: j.description@,
        category: category_from_str_spec(j.category@),
    }
}

/// The events of the JSON events, in their order, that pass the filter
/// `options` in year `y`.
pub open spec fn web_events_spec(js: Seq<JsonEvent>, options: Seq<FilterOptionView>, y: int) -> Seq<EventView>
    decreases js.len(),
{
    if js.len() == 0 {
        seq![]
    } else {
        let rest = web_events_spec(js.drop_last(), options, y);
        let e = web_event_spec(js.last());
        if accepts_spec(options, e, y) { rest.push(e) } else { rest }
    }
}

/// The address asked for the filter's month and day: the endpoint's address
/// with the query `?date=MM-DD`; none for a filter without a month and day.
pub open spec fn request_url_spec(url: Seq<char>, options: Seq<FilterOptionView>) -> Option<Seq<char>> {
    match first_month_day(options) {
        Some(md) => Some(url + "?date="@ + month_day_text(md)),
        None => None,
    }
}

impl WebProvider {
    pub fn new(name: &str, url: &str) -> (r: WebProvider)
        ensures
            r.name_spec() == name@,
            r.url_spec() == url@,
    {
        WebProvider { name: name.to_string(), url: url.to_string() }
    }

    pub closed spec fn name_spec(&self) -> Seq<char> {
        self.name@
    }

    pub closed spec fn url_spec(&self) -> Seq<char> {
        self.url@
    }

    pub fn name(&self) -> (r: String)
        ensures
            r@ == self.name_spec(),
    {
        self.name.clone()
    }

    /// The address of the endpoint.
    pub fn url(&self) -> (r: String)
        ensures
            r@ == self.url_spec(),
    {
        self.url.clone()
    }

    /// Events cannot be added to a web endpoint.
    pub fn add_is_supported(&self) -> (r: bool)
        ensures
            !r,
    {
        false
    }

    /// Adding an event to a web endpoint is not supported.
    pub fn add_event(&self, event: &Event) -> (r: Result<(), EventProviderError>)
        ensures
            r == Err::<(), EventProviderError>(EventProviderError::OperationNotSupported),
    {
        Err(EventProviderError::OperationNotSupported)
    }

    /// The address to ask for the events of the filter's month and day; none
    /// where the filter has no month and day, and then nothing is asked.
    pub fn request_url(&self, filter: &EventFilter) -> (r: Option<String>)
        ensures
            (match r { Some(s) => Some(s@), None => None::<Seq<char>> }) == request_url_spec(self.url_spec(), filter@),
    {
        match filter.month_day() {
            Some(md) => {
                let mut v = chars_of(self.url.as_str());
                let q = chars_of("?date=");
                push_all(&mut v, &q);
                let t = md.to_string();
                let tc = chars_of(t.as_str());
                push_all(&mut v, &tc);
                Some(string_of(&v))
            },
            None => None,
        }
    }

    /// The events of the JSON events that pass the filter in year `year`,
    /// where chrono reads every date.
    pub fn events_from_json_in_year(json_events: &Vec<JsonEvent>, filter: &EventFilter, year: i32) -> (r: Vec<Event>)
        requires
            MIN_YEAR <= year <= MAX_YEAR,
            dates_readable(json_events@),
        ensures
            events_view(r@) == web_events_spec(json_events@, filter@, year as int),
    {
        let mut events: Vec<Event> = Vec::new();
        let mut i: usize = 0;
        let ghost js = json_events@;
        assert(js.take(0) =~= Seq::<JsonEvent>::empty());
        assert(events_view(events@) =~= Seq::<EventView>::empty());
        while i < json_events.len()
            invariant
                MIN_YEAR <= year <= MAX_YEAR,
                i <= json_events.len(),
                js == json_events@,
                dates_readable(js),
                events_view(events@) == web_events_spec(js.take(i as int), filter@, year as int),
            decreases json_events.len() - i,
        {
            let j = &json_events[i];
            assert(chrono_parse_date(js[i as int].date@) is Some);
            let date = match parse_date(j.date.as_str()) {
                Some(d) => d,
                None => {
                    assert(false);
                    return events;
                },
            };
            let category = Category::from_str(j.category.as_str());
            let event = Event::new_singular(date, j.description.clone(), category);
            assert(event@ == web_event_spec(js[i as int]));
            assert(js.take(i + 1).drop_last() =~= js.take(i as int));
            assert(js.take(i + 1).last() == js[i as int]);
            let ghost before = events_view(events@);
            if filter.accepts_in_year(&event, year) {
                events.push(event);
                assert(events_view(events@) =~= before.push(event@));
            }
            i = i + 1;
        }
        assert(js.take(json_events.len() as int) =~= js);
        events
    }

    /// Whether chrono reads every date text of the JSON events.
    pub fn json_dates_readable(json_events: &Vec<JsonEvent>) -> (r: bool)
        ensures
            r == dates_readable(json_events@),
    {
        let mut i: usize = 0;
        while i < json_events.len()
            invariant
                i <= json_events.len(),
                forall|k: int| 0 <= k < i ==> (#[trigger] chrono_parse_date(json_events@[k].date@)) is Some,
            decreases json_events.len() - i,
        {
            if parse_date(json_events[i].date.as_str()).is_none() {
                return false;
            }
            i = i + 1;
        }
        true
    }

    /// The events of the JSON events that pass the filter in year `year`;
    /// none where some date is one that chrono does not read.
    pub fn checked_events_from_json_in_year(json_events: &Vec<JsonEvent>, filter: &EventFilter, year: i32) -> (r: Option<Vec<Event>>)
        requires
            MIN_YEAR <= year <= MAX_YEAR,
        ensures
            r is Some <==> dates_readable(json_events@),
            r matches Some(v) ==> events_view(v@) == web_events_spec(json_events@, filter@, year as int),
    {
        if Self::json_dates_readable(json_events) {
            Some(Self::events_from_json_in_year(json_events, filter, year))
        } else {
            None
        }
    }

    /// The events of the JSON events that pass the filter, taken in the
    /// current year; none where some date is one that chrono does not read.
    pub fn events_from_json(json_events: &Vec<JsonEvent>, filter: &EventFilter) -> (r: Option<Vec<Event>>)
        ensures
            r is Some <==> dates_readable(json_events@),
            r matches Some(v) ==> exists|y: int| MIN_YEAR <= y <= MAX_YEAR
                && events_view(v@) == web_events_spec(json_events@, filter@, y),
    {
        let y = today_local().year();
        Self::checked_events_from_json_in_year(json_events, filter, y)
    }
}

} // verus!
