//! Events kept in a SQLite database: the query that selects them, and the
//! events of the rows it gives.

use crate::chars::{chars_of, push_all, signed_decimal, signed_decimal_spec, string_of};
use crate::date::{chrono_parse_date, parse_date};
use crate::event::{month_day_text, Category, CategoryView, Event, EventKindView, EventView, MonthDayView};
use crate::filter::{
    any_category_matches, any_match, categories_view, first_categories, first_exclude, first_month_day,
    first_text, EventFilter, FilterOptionView,
};
use crate::providers::text::{event_opt_view};
use crate::providers::EventProviderError;
use vstd::prelude::*;

verus! {

/// A SQLite database of events.
pub struct SQLiteProvider {
    name: String,
    path: String,
}

/// Categories by id, in the order in which they were first inserted.
pub open spec fn map_view(m: Seq<(i64, Category)>) -> Seq<(int, CategoryView)> {
    m.map_values(|p: (i64, Category)| (p.0 as int, p.1@))
}

/// No id occurs twice.
pub open spec fn ids_distinct(m: Seq<(int, CategoryView)>) -> bool {
    forall|i: int, j: int| 0 <= i < j < m.len() ==> m[i].0 != m[j].0
}

/// `m` with category `c` stored under `id`: in place of the category that
/// was there, or added at the end.
pub open spec fn map_insert_spec(m: Seq<(int, CategoryView)>, id: int, c: CategoryView) -> Seq<(int, CategoryView)> {
    if exists|i: int| 0 <= i < m.len() && m[i].0 == id {
        let i = choose|i: int| 0 <= i < m.len() && m[i].0 == id;
        m.update(i, (id, c))
    } else {
        m.push((id, c))
    }
}

/// The category of a row `(id, primary, secondary)` of the category table.
pub open spec fn row_category(primary: Seq<char>, secondary: Option<Seq<char>>) -> CategoryView {
    match secondary {
        Some(s) => CategoryView { primary: crate::chars::lowercase(primary), secondary: Some(crate::chars::lowercase(s)) },
        None => CategoryView { primary: crate::chars::lowercase(primary), secondary: None },
    }
}

pub type CategoryRow = (i64, String, Option<String>);

pub open spec fn opt_string_view(s: Option<String>) -> Option<Seq<char>> {
    match s {
        Some(x) => Some(x@),
        None => None,
    }
}

/// The categories by id of the rows of the category table, each row stored
/// in turn.
pub open spec fn categories_from_rows_spec(rows: Seq<CategoryRow>) -> Seq<(int, CategoryView)>
    decreases rows.len(),
{
    if rows.len() == 0 {
        seq![]
    } else {
        let r = rows.last();
        map_insert_spec(categories_from_rows_spec(rows.drop_last()), r.0 as int, row_category(r.1@, opt_string_view(r.2)))
    }
}

/// The ids of the categories of `m`, in their order, that some filter
/// category of `fs` matches.
pub open spec fn matching_ids_spec(fs: Seq<CategoryView>, m: Seq<(int, CategoryView)>) -> Seq<int>
    decreases m.len(),
{
    if m.len() == 0 {
        seq![]
    } else {
        let rest = matching_ids_spec(fs, m.drop_last());
        if any_category_matches(fs, m.last().1) {
            rest.push(m.last().0)
        } else {
            rest
        }
    }
}

/// The texts of `parts` with `sep` between them.
pub open spec fn join_spec(parts: Seq<Seq<char>>, sep: Seq<char>) -> Seq<char>
    decreases parts.len(),
{
    if parts.len() == 0 {
        seq![]
    } else if parts.len() == 1 {
        parts[0]
    } else {
        join_spec(parts.drop_last(), sep) + sep + parts.last()
    }
}

pub open spec fn id_texts(ids: Seq<int>) -> Seq<Seq<char>> {
    ids.map_values(|id: int| signed_decimal_spec(id))
}

/// The texts of the ids, each as a decimal number.
fn ids_text(ids: &Vec<i64>) -> (r: Vec<Vec<char>>)
    ensures
        crate::chars::seqs_of(r@) == id_texts(ids@.map_values(|x: i64| x as int)),
{
    let mut out: Vec<Vec<char>> = Vec::new();
    let mut i: usize = 0;
    let ghost target = id_texts(ids@.map_values(|x: i64| x as int));
    while i < ids.len()
        invariant
            i <= ids.len(),
            target == id_texts(ids@.map_values(|x: i64| x as int)),
            crate::chars::seqs_of(out@) =~= target.take(i as int),
        decreases ids.len() - i,
    {
        let t = signed_decimal(ids[i]);
        let ghost before = crate::chars::seqs_of(out@);
        out.push(t);
        assert(crate::chars::seqs_of(out@) =~= before.push(t@));
        assert(target.take(i + 1) =~= target.take(i as int).push(target[i as int]));
        i = i + 1;
    }
    assert(target.take(ids.len() as int) =~= target);
    out
}

/// The texts of `parts` with `sep` between them.
pub fn join(parts: &Vec<Vec<char>>, sep: &[char]) -> (r: Vec<char>)
    ensures
        r@ == join_spec(crate::chars::seqs_of(parts@), sep@),
{
    let ghost ps = crate::chars::seqs_of(parts@);
    let mut out: Vec<char> = Vec::new();
    if parts.len() == 0 {
        return out;
    }
    push_all(&mut out, &parts[0]);
    assert(ps.take(1).drop_last() =~= ps.take(0));
    assert(out@ == join_spec(ps.take(1), sep@));
    let mut i: usize = 1;
    while i < parts.len()
        invariant
            1 <= i <= parts.len(),
            ps == crate::chars::seqs_of(parts@),
            out@ == join_spec(ps.take(i as int), sep@),
        decreases parts.len() - i,
    {
        push_all(&mut out, sep);
        push_all(&mut out, &parts[i]);
        assert(ps.take(i + 1).drop_last() =~= ps.take(i as int));
        i = i + 1;
    }
    assert(ps.take(parts.len() as int) =~= ps);
    out
}

/// The condition `category_id IN (<ids>)`, or `NOT IN` for `negate`.
pub open spec fn in_clause(ids: Seq<int>, negate: bool) -> Seq<char> {
    (if negate { "category_id NOT IN ("@ } else { "category_id IN ("@ }) + join_spec(id_texts(ids), ", "@) + ")"@
}

/// The condition on the month and day of `event_date`.
pub open spec fn date_clause(md: MonthDayView) -> Seq<char> {
    "strftime('%m-%d', event_date) = '"@ + month_day_text(md) + "'"@
}

/// The condition that the description holds `text`.
pub open spec fn text_clause(text: Seq<char>) -> Seq<char> {
    "event_description LIKE '%"@ + text + "%'"@
}

/// The condition on categories for the filter's first categories option:
/// the ids that match them, none where no category matches; empty text for
/// a filter without categories.
pub open spec fn categories_part_spec(options: Seq<FilterOptionView>, m: Seq<(int, CategoryView)>) -> Option<Seq<char>> {
    match first_categories(options) {
        Some(fs) => {
            let ids = matching_ids_spec(fs, m);
            if ids.len() == 0 { None } else { Some(in_clause(ids, false)) }
        },
        None => Some(Seq::<char>::empty()),
    }
}

/// The condition for the filter's first exclude option, where some category
/// matches it.
pub open spec fn exclude_part_spec(options: Seq<FilterOptionView>, m: Seq<(int, CategoryView)>) -> Option<Seq<char>> {
    match first_exclude(options) {
        Some(fs) => {
            let ids = matching_ids_spec(fs, m);
            if ids.len() == 0 { None } else { Some(in_clause(ids, true)) }
        },
        None => None,
    }
}

pub open spec fn date_part_spec(options: Seq<FilterOptionView>) -> Option<Seq<char>> {
    match first_month_day(options) {
        Some(md) => Some(date_clause(md)),
        None => None,
    }
}

pub open spec fn text_part_spec(options: Seq<FilterOptionView>) -> Option<Seq<char>> {
    match first_text(options) {
        Some(t) => Some(text_clause(t)),
        None => None,
    }
}

/// `parts` with `p` added where it is some text.
pub open spec fn push_opt(parts: Seq<Seq<char>>, p: Option<Seq<char>>) -> Seq<Seq<char>> {
    match p {
        Some(x) => parts.push(x),
        None => parts,
    }
}

/// The `WHERE` clause of the query for a filter: the conditions for its
/// categories, month and day, excluded categories and text, joined by
/// `AND`; empty for no conditions; none where the filter has categories
/// and none of them matches a category of the database.
pub open spec fn where_clause_spec(options: Seq<FilterOptionView>, m: Seq<(int, CategoryView)>) -> Option<Seq<char>> {
    let has_cats = first_categories(options) is Some;
    if has_cats && categories_part_spec(options, m) is None {
        None
    } else {
        let p1 = if has_cats { push_opt(seq![], categories_part_spec(options, m)) } else { seq![] };
        let p2 = push_opt(p1, date_part_spec(options));
        let p3 = push_opt(p2, exclude_part_spec(options, m));
        let p4 = push_opt(p3, text_part_spec(options));
        if p4.len() == 0 {
            Some(Seq::<char>::empty())
        } else {
            Some("WHERE "@ + join_spec(p4, " AND "@))
        }
    }
}

/// The query for the events that pass a filter: all events, with the
/// `WHERE` clause of the filter; none where the filter has categories and
/// none of them matches a category of the database.
pub open spec fn event_query_spec(options: Seq<FilterOptionView>, m: Seq<(int, CategoryView)>) -> Option<Seq<char>> {
    match where_clause_spec(options, m) {
        Some(w) => Some("SELECT event_date, event_description, category_id FROM\n event"@ + " "@ + w),
        None => None,
    }
}

/// The category stored under `id`, where there is one.
pub open spec fn lookup_spec(m: Seq<(int, CategoryView)>, id: int) -> Option<CategoryView>
    decreases m.len(),
{
    if m.len() == 0 {
        None
    } else if m[0].0 == id {
        Some(m[0].1)
    } else {
        lookup_spec(m.drop_first(), id)
    }
}

/// The event of a row `(event_date, event_description, category_id)`: none
/// where chrono reads no date or no category has the id.
pub open spec fn row_event_spec(date: Seq<char>, description: Seq<char>, id: int, m: Seq<(int, CategoryView)>) -> Option<EventView> {
    match chrono_parse_date(date) {
        None => None,
        Some(d) => match lookup_spec(m, id) {
            None => None,
            Some(c) => Some(EventView { kind: EventKindView::Singular(d), description, category: c }),
        },
    }
}

/// The id of the first category of `m` equal to `c`, where there is one.
pub open spec fn exact_id_spec(m: Seq<(int, CategoryView)>, c: CategoryView) -> Option<int>
    decreases m.len(),
{
    if m.len() == 0 {
        None
    } else if m[0].1 == c {
        Some(m[0].0)
    } else {
        exact_id_spec(m.drop_first(), c)
    }
}

pub open spec fn opt_text_view(r: Option<String>) -> Option<Seq<char>> {
    match r {
        Some(s) => Some(s@),
        None => None,
    }
}

proof fn lemma_map_skip(m: Seq<(int, CategoryView)>, j: int)
    requires
        0 <= j < m.len(),
    ensures
        m.skip(j)[0] == m[j],
        m.skip(j).drop_first() == m.skip(j + 1),
{
    assert(m.skip(j).drop_first() =~= m.skip(j + 1));
}

/// The category stored under `id`, where there is one.
fn lookup(map: &Vec<(i64, Category)>, id: i64) -> (r: Option<Category>)
    ensures
        (match r { Some(c) => Some(c@), None => None::<CategoryView> }) == lookup_spec(map_view(map@), id as int),
{
    let ghost m = map_view(map@);
    let mut j: usize = 0;
    assert(m.skip(0) =~= m);
    while j < map.len()
        invariant
            j <= map.len(),
            m == map_view(map@),
            lookup_spec(m, id as int) == lookup_spec(m.skip(j as int), id as int),
        decreases map.len() - j,
    {
        proof { lemma_map_skip(m, j as int); }
        if map[j].0 == id {
            return Some(map[j].1.clone());
        }
        j = j + 1;
    }
    None
}

/// The ids of the categories of the map, in their order, that some filter
/// category matches.
fn matching_ids(filter_categories: &Vec<Category>, map: &Vec<(i64, Category)>) -> (r: Vec<i64>)
    ensures
        r@.map_values(|x: i64| x as int) == matching_ids_spec(categories_view(filter_categories@), map_view(map@)),
{
    let ghost fs = categories_view(filter_categories@);
    let ghost m = map_view(map@);
    let mut ids: Vec<i64> = Vec::new();
    let mut j: usize = 0;
    assert(m.take(0) =~= Seq::<(int, CategoryView)>::empty());
    assert(ids@.map_values(|x: i64| x as int) =~= Seq::<int>::empty());
    while j < map.len()
        invariant
            j <= map.len(),
            fs == categories_view(filter_categories@),
            m == map_view(map@),
            ids@.map_values(|x: i64| x as int) == matching_ids_spec(fs, m.take(j as int)),
        decreases map.len() - j,
    {
        assert(m.take(j + 1).drop_last() =~= m.take(j as int));
        assert(m.take(j + 1).last() == m[j as int]);
        assert(m[j as int] == (map@[j as int].0 as int, map@[j as int].1@));
        let ghost before = ids@.map_values(|x: i64| x as int);
        if any_match(filter_categories, &map[j].1) {
            ids.push(map[j].0);
            assert(ids@.map_values(|x: i64| x as int) =~= before.push(map@[j as int].0 as int));
        }
        j = j + 1;
    }
    assert(m.take(map.len() as int) =~= m);
    ids
}

fn in_clause_text(ids: &Vec<i64>, negate: bool) -> (r: String)
    ensures
        r@ == in_clause(ids@.map_values(|x: i64| x as int), negate),
{
    let mut v = if negate { chars_of("category_id NOT IN (") } else { chars_of("category_id IN (") };
    let texts = ids_text(ids);
    let sep = chars_of(", ");
    let joined = join(&texts, &sep);
    push_all(&mut v, &joined);
    let close = chars_of(")");
    push_all(&mut v, &close);
    string_of(&v)
}

impl SQLiteProvider {
    pub fn new(name: &str, path: &str) -> (r: SQLiteProvider)
        ensures
            r.name_spec() == name@,
            r.path_spec() == path@,
    {
        SQLiteProvider { name: name.to_string(), path: path.to_string() }
    }

    pub closed spec fn name_spec(&self) -> Seq<char> {
        self.name@
    }

    pub fn name(&self) -> (r: String)
        ensures
            r@ == self.name_spec(),
    {
        self.name.clone()
    }

    /// The path of the database file.
    pub fn path(&self) -> (r: &str)
        ensures
            r@ == self.path_spec(),
    {
        self.path.as_str()
    }

    /// The path of the database file that the source was made with.
    pub closed spec fn path_spec(&self) -> Seq<char> {
        self.path@
    }

    /// Adding is offered for a database.
    pub fn add_is_supported(&self) -> (r: bool)
        ensures
            r,
    {
        true
    }

    /// The categories by id of the rows `(category_id, primary_name,
    /// secondary_name)` of the category table, each row stored in turn.
    pub fn categories_from_rows(rows: &Vec<CategoryRow>) -> (r: Vec<(i64, Category)>)
        ensures
            map_view(r@) == categories_from_rows_spec(rows@),
            ids_distinct(map_view(r@)),
    {
        let mut map: Vec<(i64, Category)> = Vec::new();
        let mut i: usize = 0;
        assert(rows@.take(0) =~= Seq::<CategoryRow>::empty());
        assert(map_view(map@) =~= Seq::<(int, CategoryView)>::empty());
        while i < rows.len()
            invariant
                i <= rows.len(),
                map_view(map@) == categories_from_rows_spec(rows@.take(i as int)),
                ids_distinct(map_view(map@)),
            decreases rows.len() - i,
        {
            let row = &rows[i];
            let id = row.0;
            let category = match &row.2 {
                Some(sec) => Category::new(row.1.as_str(), sec.as_str()),
                None => Category::from_primary(row.1.as_str()),
            };
            assert(rows@.take(i + 1).drop_last() =~= rows@.take(i as int));
            assert(rows@.take(i + 1).last() == rows@[i as int]);
            assert(category@ == row_category(row.1@, opt_string_view(row.2)));
            let ghost m = map_view(map@);
            let mut j: usize = 0;
            let mut found: bool = false;
            while j < map.len() && !found
                invariant
                    j <= map.len(),
                    m == map_view(map@),
                    found ==> j < map.len() && m[j as int].0 == id as int,
                    forall|k: int| 0 <= k < j ==> m[k].0 != id as int,
                decreases map.len() - j + (if found { 0int } else { 1int }),
            {
                if map[j].0 == id {
                    found = true;
                } else {
                    j = j + 1;
                }
            }
            if found {
                proof {
                    assert(m[j as int].0 == id as int);
                    let c = choose|k: int| 0 <= k < m.len() && m[k].0 == id as int;
                    assert(ids_distinct(m));
                    assert(c == j);
                }
                map.set(j, (id, category));
                assert(map_view(map@) =~= m.update(j as int, (id as int, category@)));
            } else {
                map.push((id, category));
                assert(map_view(map@) =~= m.push((id as int, category@)));
            }
            i = i + 1;
        }
        assert(rows@.take(rows.len() as int) =~= rows@);
        map
    }

    /// The ids, as texts, of the categories of the map that some filter
    /// category matches, in the map's order; none where no category matches.
    pub fn matching_categories_ids(&self, filter_categories: Vec<Category>, category_map: &Vec<(i64, Category)>) -> (r: Option<Vec<String>>)
        ensures
            ({
                let ids = matching_ids_spec(categories_view(filter_categories@), map_view(category_map@));
                match r {
                    Some(v) => ids.len() > 0 && crate::providers::text::strings_view(v@) == id_texts(ids),
                    None => ids.len() == 0,
                }
            }),
    {
        let ids = matching_ids(&filter_categories, category_map);
        if ids.len() == 0 {
            return None;
        }
        let texts = ids_text(&ids);
        let mut out: Vec<String> = Vec::new();
        let mut i: usize = 0;
        let ghost want = id_texts(ids@.map_values(|x: i64| x as int));
        while i < texts.len()
            invariant
                i <= texts.len(),
                want == crate::chars::seqs_of(texts@),
                crate::providers::text::strings_view(out@) =~= want.take(i as int),
            decreases texts.len() - i,
        {
            let t = string_of(&texts[i]);
            let ghost before = crate::providers::text::strings_view(out@);
            out.push(t);
            assert(crate::providers::text::strings_view(out@) =~= before.push(t@));
            assert(want.take(i + 1) =~= want.take(i as int).push(want[i as int]));
            i = i + 1;
        }
        assert(want.take(texts.len() as int) =~= want);
        Some(out)
    }

    /// The condition on the filter's categories.
    pub fn make_categories_part(&self, filter: &EventFilter, category_map: &Vec<(i64, Category)>) -> (r: Option<String>)
        ensures
            opt_text_view(r) == categories_part_spec(filter@, map_view(category_map@)),
    {
        match filter.categories() {
            Some(cats) => {
                let ids = matching_ids(&cats, category_map);
                if ids.len() == 0 {
                    None
                } else {
                    Some(in_clause_text(&ids, false))
                }
            },
            None => Some(string_of(&Vec::new())),
        }
    }

    /// The condition on the filter's excluded categories.
    pub fn make_exclude_categories_part(&self, filter: &EventFilter, category_map: &Vec<(i64, Category)>) -> (r: Option<String>)
        ensures
            opt_text_view(r) == exclude_part_spec(filter@, map_view(category_map@)),
    {
        match filter.exclude_categories() {
            Some(cats) => {
                let ids = matching_ids(&cats, category_map);
                if ids.len() == 0 {
                    None
                } else {
                    Some(in_clause_text(&ids, true))
                }
            },
            None => None,
        }
    }

    /// The condition on the filter's month and day.
    pub fn make_date_part(&self, filter: &EventFilter) -> (r: Option<String>)
        ensures
            opt_text_view(r) == date_part_spec(filter@),
    {
        match filter.month_day() {
            Some(md) => {
                let mut v = chars_of("strftime('%m-%d', event_date) = '");
                let t = md.to_string();
                let tc = chars_of(t.as_str());
                push_all(&mut v, &tc);
                let q = chars_of("'");
                push_all(&mut v, &q);
                Some(string_of(&v))
            },
            None => None,
        }
    }

    /// The condition on the filter's text.
    pub fn make_text_part(&self, filter: &EventFilter) -> (r: Option<String>)
        ensures
            opt_text_view(r) == text_part_spec(filter@),
    {
        match filter.text() {
            Some(text) => {
                let mut v = chars_of("event_description LIKE '%");
                let tc = chars_of(text.as_str());
                push_all(&mut v, &tc);
                let q = chars_of("%'");
                push_all(&mut v, &q);
                Some(string_of(&v))
            },
            None => None,
        }
    }

    /// The `WHERE` clause of the query for the filter; see `where_clause_spec`.
    pub fn make_where_clause(&self, filter: &EventFilter, category_map: &Vec<(i64, Category)>) -> (r: Option<String>)
        ensures
            opt_text_view(r) == where_clause_spec(filter@, map_view(category_map@)),
    {
        let ghost m = map_view(category_map@);
        let ghost o = filter@;
        let mut parts: Vec<Vec<char>> = Vec::new();
        let has_cats = filter.contains_categories();
        if has_cats {
            match self.make_categories_part(filter, category_map) {
                Some(part) => {
                    parts.push(chars_of(part.as_str()));
                },
                None => return None,
            }
        }
        let ghost p1 = crate::chars::seqs_of(parts@);
        assert(p1 =~= (if has_cats { push_opt(seq![], categories_part_spec(o, m)) } else { seq![] }));
        if filter.contains_month_day() {
            match self.make_date_part(filter) {
                Some(part) => {
                    parts.push(chars_of(part.as_str()));
                },
                None => {},
            }
        }
        let ghost p2 = crate::chars::seqs_of(parts@);
        assert(p2 =~= push_opt(p1, date_part_spec(o)));
        if filter.contains_exclude_categories() {
            match self.make_exclude_categories_part(filter, category_map) {
                Some(part) => {
                    parts.push(chars_of(part.as_str()));
                },
                None => {},
            }
        }
        let ghost p3 = crate::chars::seqs_of(parts@);
        assert(p3 =~= push_opt(p2, exclude_part_spec(o, m)));
        if filter.contains_text() {
            match self.make_text_part(filter) {
                Some(part) => {
                    parts.push(chars_of(part.as_str()));
                },
                None => {},
            }
        }
        assert(crate::chars::seqs_of(parts@) =~= push_opt(p3, text_part_spec(o)));
        if parts.len() == 0 {
            Some(string_of(&Vec::new()))
        } else {
            let mut v = chars_of("WHERE ");
            let sep = chars_of(" AND ");
            let joined = join(&parts, &sep);
            push_all(&mut v, &joined);
            Some(string_of(&v))
        }
    }

    /// The query for the events that pass the filter; none where nothing is
    /// to be asked, as the filter's categories match no category.
    pub fn event_query(&self, filter: &EventFilter, category_map: &Vec<(i64, Category)>) -> (r: Option<String>)
        ensures
            opt_text_view(r) == event_query_spec(filter@, map_view(category_map@)),
    {
        match self.make_where_clause(filter, category_map) {
            Some(clause) => {
                let mut v = chars_of("SELECT event_date, event_description, category_id FROM\n event");
                v.push(' ');
                let cc = chars_of(clause.as_str());
                push_all(&mut v, &cc);
                proof { reveal_strlit(" "); }
                Some(string_of(&v))
            },
            None => None,
        }
    }

    /// Adding an event to a database always fails: the database takes no
    /// new events.
    pub fn add_event(&self, event: &Event) -> (r: Result<(), EventProviderError>)
        ensures
            r == Err::<(), EventProviderError>(EventProviderError::OperationFailed),
    {
        Err(EventProviderError::OperationFailed)
    }

    /// The id of the first category of the map equal to `category`.
    pub fn find_exact_category_id(category_map: &Vec<(i64, Category)>, category: &Category) -> (r: Option<i64>)
        ensures
            (match r { Some(id) => Some(id as int), None => None::<int> }) == exact_id_spec(map_view(category_map@), category@),
    {
        let ghost m = map_view(category_map@);
        let mut j: usize = 0;
        assert(m.skip(0) =~= m);
        while j < category_map.len()
            invariant
                j <= category_map.len(),
                m == map_view(category_map@),
                exact_id_spec(m, category@) == exact_id_spec(m.skip(j as int), category@),
            decreases category_map.len() - j,
        {
            proof { lemma_map_skip(m, j as int); }
            if category_map[j].1 == *category {
                return Some(category_map[j].0);
            }
            j = j + 1;
        }
        None
    }

    /// The event of a row `(event_date, event_description, category_id)`.
    pub fn event_from_row(date_string: &str, description: &str, category_id: i64, category_map: &Vec<(i64, Category)>) -> (r: Option<Event>)
        ensures
            event_opt_view(r) == row_event_spec(date_string@, description@, category_id as int, map_view(category_map@)),
    {
        let date = match parse_date(date_string) {
            Some(d) => d,
            None => return None,
        };
        match lookup(category_map, category_id) {
            Some(c) => Some(Event::new_singular(date, description.to_string(), c)),
            None => None,
        }
    }
}

} // verus!
