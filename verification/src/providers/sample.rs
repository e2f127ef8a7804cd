//! A source that holds a fixed list of historical events in January.

use crate::chars::lowercase;
use crate::date::{valid_ymd, Date, DateView};
use crate::event::{Category, CategoryView, Event, EventKindView, EventView};
use crate::providers::text::events_view;
use vstd::prelude::*;

verus! {

/// A source of the fixed list `sample_events`.
pub struct TestProvider {
    name: String,
}

/// The event on `y-m-d` with the description and the category
/// `primary/secondary` (in lowercase).
pub open spec fn sample_event(y: int, m: int, d: int, description: Seq<char>, primary: Seq<char>, secondary: Seq<char>) -> EventView {
    EventView {
        kind: EventKindView::Singular(DateView { year: y, month: m, day: d }),
        description,
        category: CategoryView { primary: lowercase(primary), secondary: Some(lowercase(secondary)) },
    }
}

/// The events of the source, in order.
pub open spec fn sample_events() -> Seq<EventView> {
    seq![
        sample_event(1759, 1, 15, "The British Museum opens to the public."@, "culture"@, "museum"@),
        sample_event(1892, 1, 15, "James Naismith publishes the rules of basketball."@, "sports"@, "basketball"@),
        sample_event(2001, 1, 15, "Wikipedia is launched."@, "technology"@, "internet"@),
        sample_event(1556, 1, 16, "Philip II becomes King of Spain."@, "politics"@, "monarchy"@),
        sample_event(1963, 1, 16, "Top Gear host James May is born."@, "culture"@, "television"@),
        sample_event(1917, 1, 17, "The United States pays Denmark $25 million for the Virgin Islands."@, "politics"@, "treaty"@),
        sample_event(1899, 1, 17, "Al Capone is born."@, "crime"@, "biography"@),
        sample_event(1956, 1, 17, "Antero Mertaranta, Finnish sports journalist, is born."@, "sports"@, "journalism"@),
        sample_event(1978, 1, 19, "The last Volkswagen Beetle made in Germany leaves the production line."@, "industry"@, "automotive"@),
        sample_event(1946, 1, 19, "Dolly Parton is born."@, "music"@, "biography"@),
        sample_event(1925, 1, 21, "Albania declares itself a republic."@, "politics"@, "statehood"@),
        sample_event(1981, 1, 21, "Production of the DeLorean sports car begins in Northern Ireland."@, "industry"@, "automotive"@),
        sample_event(1968, 1, 22, "Apollo 5 lifts off."@, "science"@, "spaceflight"@),
        sample_event(1959, 1, 22, "Meiju Suvas is born."@, "music"@, "biography"@),
        sample_event(1996, 1, 23, "Java 1.0 released"@, "technology"@, "programming"@),
        sample_event(1996, 1, 24, "Air India Flight 101 crashes into Mont Blanc"@, "aviation"@, "air crash"@),
        sample_event(1918, 1, 25, "The Ukrainian People's Republic declares independence from Soviet Russia"@, "geography"@, "ukraine"@),
        sample_event(1956, 1, 26, "Soviet Union cedes Porkkala back to Finland"@, "geography"@, "finland"@),
        sample_event(2010, 1, 27, "Apple announces the iPad."@, "technology"@, "apple"@),
        sample_event(1956, 1, 28, "Elvis Presley makes his first national television appearance."@, "music"@, "television"@),
        sample_event(1965, 1, 29, "Dominik Hašek, ice hockey goaltender, is born"@, "sport"@, "ice hockey"@),
    ]
}

fn sample(year: i32, month: u32, day: u32, description: &str, primary: &str, secondary: &str) -> (r: Event)
    requires
        valid_ymd(year as int, month as int, day as int),
    ensures
        r@ == sample_event(year as int, month as int, day as int, description@, primary@, secondary@),
{
    let date = Date::from_ymd(year, month, day).unwrap();
    Event::new_singular(date, description.to_string(), Category::new(primary, secondary))
}

impl TestProvider {
    pub fn new(name: &str) -> (r: TestProvider)
        ensures
            r.name_spec() == name@,
    {
        TestProvider { name: name.to_string() }
    }

    pub closed spec fn name_spec(&self) -> Seq<char> {
        self.name@
    }

    pub fn name(&self) -> (r: String)
        ensures
            r@ == self.name_spec(),
    {
        self.name.clone()
    }

    /// Appends the events of the source to `events`.
    #[verifier::rlimit(40)]
    pub fn get_events(&self, events: &mut Vec<Event>)
        ensures
            events_view(final(events)@) == events_view(old(events)@) + sample_events(),
    {
        let ghost start = events_view(events@);
        events.push(sample(1759, 1, 15, "The British Museum opens to the public.", "culture", "museum"));
        events.push(sample(1892, 1, 15, "James Naismith publishes the rules of basketball.", "sports", "basketball"));
        events.push(sample(2001, 1, 15, "Wikipedia is launched.", "technology", "internet"));
        events.push(sample(1556, 1, 16, "Philip II becomes King of Spain.", "politics", "monarchy"));
        events.push(sample(1963, 1, 16, "Top Gear host James May is born.", "culture", "television"));
        events.push(sample(1917, 1, 17, "The United States pays Denmark $25 million for the Virgin Islands.", "politics", "treaty"));
        events.push(sample(1899, 1, 17, "Al Capone is born.", "crime", "biography"));
        events.push(sample(1956, 1, 17, "Antero Mertaranta, Finnish sports journalist, is born.", "sports", "journalism"));
        events.push(sample(1978, 1, 19, "The last Volkswagen Beetle made in Germany leaves the production line.", "industry", "automotive"));
        events.push(sample(1946, 1, 19, "Dolly Parton is born.", "music", "biography"));
        events.push(sample(1925, 1, 21, "Albania declares itself a republic.", "politics", "statehood"));
        events.push(sample(1981, 1, 21, "Production of the DeLorean sports car begins in Northern Ireland.", "industry", "automotive"));
        events.push(sample(1968, 1, 22, "Apollo 5 lifts off.", "science", "spaceflight"));
        events.push(sample(1959, 1, 22, "Meiju Suvas is born.", "music", "biography"));
        events.push(sample(1996, 1, 23, "Java 1.0 released", "technology", "programming"));
        events.push(sample(1996, 1, 24, "Air India Flight 101 crashes into Mont Blanc", "aviation", "air crash"));
        events.push(sample(1918, 1, 25, "The Ukrainian People's Republic declares independence from Soviet Russia", "geography", "ukraine"));
        events.push(sample(1956, 1, 26, "Soviet Union cedes Porkkala back to Finland", "geography", "finland"));
        events.push(sample(2010, 1, 27, "Apple announces the iPad.", "technology", "apple"));
        events.push(sample(1956, 1, 28, "Elvis Presley makes his first national television appearance.", "music", "television"));
        events.push(sample(1965, 1, 29, "Dominik Hašek, ice hockey goaltender, is born", "sport", "ice hockey"));
        assert(events_view(events@) =~= start + sample_events());
    }
}

} // verus!
