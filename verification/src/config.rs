//! The configuration: which sources of events there are, and the sources
//! made from it.

use crate::chars::{chars_of, seq_eq};
use crate::providers::{CSVFileProvider, SQLiteProvider, TextFileProvider, WebProvider};
use vstd::prelude::*;

verus! {

pub struct ProviderConfigView {
    pub name: Seq<char>,
    pub kind: Seq<char>,
    pub resource: Seq<char>,
}

/// One source of events as the configuration names it: its name, its kind
/// (`text`, `csv`, `sqlite` or `web`) and its resource (a file relative to
/// the configuration's folder, or the address of a web endpoint).
pub struct ProviderConfig {
    name: String,
    kind: String,
    resource: String,
}

impl View for ProviderConfig {
    type V = ProviderConfigView;

    closed spec fn view(&self) -> ProviderConfigView {
        ProviderConfigView { name: self.name@, kind: self.kind@, resource: self.resource@ }
    }
}

impl Clone for ProviderConfig {
    fn clone(&self) -> (r: Self)
        ensures
            r@ == self@,
    {
        ProviderConfig { name: self.name.clone(), kind: self.kind.clone(), resource: self.resource.clone() }
    }
}

impl ProviderConfig {
    pub fn new(name: &str, kind: &str, resource: &str) -> (r: ProviderConfig)
        ensures
            r@ == (ProviderConfigView { name: name@, kind: kind@, resource: resource@ }),
    {
        ProviderConfig { name: name.to_string(), kind: kind.to_string(), resource: resource.to_string() }
    }

    pub fn name(&self) -> (r: String)
        ensures
            r@ == self@.name,
    {
        self.name.clone()
    }

    pub fn kind(&self) -> (r: String)
        ensures
            r@ == self@.kind,
    {
        self.kind.clone()
    }

    pub fn resource(&self) -> (r: String)
        ensures
            r@ == self@.resource,
    {
        self.resource.clone()
    }
}

pub open spec fn configs_view(v: Seq<ProviderConfig>) -> Seq<ProviderConfigView> {
    v.map_values(|c: ProviderConfig| c@)
}

/// The configuration: its sources of events, in order.
pub struct Config {
    providers: Vec<ProviderConfig>,
}

impl View for Config {
    type V = Seq<ProviderConfigView>;

    closed spec fn view(&self) -> Seq<ProviderConfigView> {
        configs_view(self.providers@)
    }
}

fn copy_configs(v: &Vec<ProviderConfig>) -> (r: Vec<ProviderConfig>)
    ensures
        configs_view(r@) == configs_view(v@),
{
    let mut out: Vec<ProviderConfig> = Vec::new();
    let mut i: usize = 0;
    while i < v.len()
        invariant
            i <= v.len(),
            configs_view(out@) =~= configs_view(v@).take(i as int),
        decreases v.len() - i,
    {
        let c = v[i].clone();
        let ghost before = configs_view(out@);
        out.push(c);
        assert(configs_view(out@) =~= before.push(c@));
        i = i + 1;
    }
    assert(configs_view(v@).take(v.len() as int) =~= configs_view(v@));
    out
}

impl Config {
    pub fn new(providers: Vec<ProviderConfig>) -> (r: Config)
        ensures
            r@ == configs_view(providers@),
    {
        Config { providers }
    }

    pub fn providers(&self) -> (r: Vec<ProviderConfig>)
        ensures
            configs_view(r@) == self@,
    {
        copy_configs(&self.providers)
    }
}

/// The kinds of sources.
#[derive(Debug, Clone, Copy, PartialEq, Eq, Structural)]
pub enum ProviderKind {
    Text,
    Csv,
    Sqlite,
    Web,
}

/// The kind that a kind text names, where it names one.
pub open spec fn kind_of_spec(kind: Seq<char>) -> Option<ProviderKind> {
    if kind == "text"@ {
        Some(ProviderKind::Text)
    } else if kind == "csv"@ {
        Some(ProviderKind::Csv)
    } else if kind == "sqlite"@ {
        Some(ProviderKind::Sqlite)
    } else if kind == "web"@ {
        Some(ProviderKind::Web)
    } else {
        None
    }
}

/// The kind that a kind text names, where it names one.
pub fn kind_of(kind: &str) -> (r: Option<ProviderKind>)
    ensures
        r == kind_of_spec(kind@),
{
    let k = chars_of(kind);
    let t = chars_of("text");
    let c = chars_of("csv");
    let s = chars_of("sqlite");
    let w = chars_of("web");
    if seq_eq(&k, &t) {
        Some(ProviderKind::Text)
    } else if seq_eq(&k, &c) {
        Some(ProviderKind::Csv)
    } else if seq_eq(&k, &s) {
        Some(ProviderKind::Sqlite)
    } else if seq_eq(&k, &w) {
        Some(ProviderKind::Web)
    } else {
        None
    }
}

/// A source of events of one of the kinds.
pub enum Provider {
    Text(TextFileProvider),
    Csv(CSVFileProvider),
    Sqlite(SQLiteProvider),
    Web(WebProvider),
}

impl Provider {
    pub open spec fn kind_spec(&self) -> ProviderKind {
        match self {
            Provider::Text(_) => ProviderKind::Text,
            Provider::Csv(_) => ProviderKind::Csv,
            Provider::Sqlite(_) => ProviderKind::Sqlite,
            Provider::Web(_) => ProviderKind::Web,
        }
    }

    pub open spec fn name_spec(&self) -> Seq<char> {
        match self {
            Provider::Text(p) => p.name_spec(),
            Provider::Csv(p) => p.name_spec(),
            Provider::Sqlite(p) => p.name_spec(),
            Provider::Web(p) => p.name_spec(),
        }
    }

    /// Whether events can be added to sources of a kind: to text and CSV
    /// files and to databases, not to web endpoints.
    pub open spec fn adds_spec(k: ProviderKind) -> bool {
        k != ProviderKind::Web
    }

    pub fn kind(&self) -> (r: ProviderKind)
        ensures
            r == self.kind_spec(),
    {
        match self {
            Provider::Text(_) => ProviderKind::Text,
            Provider::Csv(_) => ProviderKind::Csv,
            Provider::Sqlite(_) => ProviderKind::Sqlite,
            Provider::Web(_) => ProviderKind::Web,
        }
    }

    pub fn name(&self) -> (r: String)
        ensures
            r@ == self.name_spec(),
    {
        match self {
            Provider::Text(p) => p.name(),
            Provider::Csv(p) => p.name(),
            Provider::Sqlite(p) => p.name(),
            Provider::Web(p) => p.name(),
        }
    }

    pub fn add_is_supported(&self) -> (r: bool)
        ensures
            r == Self::adds_spec(self.kind_spec()),
    {
        match self {
            Provider::Text(p) => p.add_is_supported(),
            Provider::Csv(p) => p.add_is_supported(),
            Provider::Sqlite(p) => p.add_is_supported(),
            Provider::Web(p) => p.add_is_supported(),
        }
    }
}

/// The source made from a configured source of a known kind: of that kind,
/// with its name; a file source has the resource joined to the folder
/// `base` as its path, a web endpoint has the resource as its address.
pub open spec fn made_from(p: Provider, c: ProviderConfigView, base: Seq<char>) -> bool {
    &&& kind_of_spec(c.kind) == Some(p.kind_spec())
    &&& p.name_spec() == c.name
    &&& (p matches Provider::Web(w) ==> w.url_spec() == c.resource)
    &&& (p matches Provider::Text(t) ==> t.path_spec() == joined_path(base, c.resource))
    &&& (p matches Provider::Csv(t) ==> t.path_spec() == joined_path(base, c.resource))
    &&& (p matches Provider::Sqlite(t) ==> t.path_spec() == joined_path(base, c.resource))
}

/// The configured sources of a known kind, in order.
pub open spec fn known_configs(cs: Seq<ProviderConfigView>) -> Seq<ProviderConfigView>
    decreases cs.len(),
{
    if cs.len() == 0 {
        seq![]
    } else {
        let rest = known_configs(cs.drop_last());
        if kind_of_spec(cs.last().kind) is Some { rest.push(cs.last()) } else { rest }
    }
}

/// The path that `Path::join` gives of a folder and a path in it, as text.
pub uninterp spec fn joined_path(base: Seq<char>, path: Seq<char>) -> Seq<char>;

/// Calls `Path::join` on `base` and `path`, and gives the joined path as
/// text. Claimed: the result is the name `joined_path` of the two texts (on
/// the platform the crate is built for). Nothing more is stated of how the
/// two are joined (an absolute `path` replaces `base`; otherwise a separator
/// goes between them).
#[verifier::external_body]
fn join_path(base: &str, path: &str) -> (r: String)
    ensures
        r@ == joined_path(base@, path@),
{
    std::path::Path::new(base).join(path).to_string_lossy().into_owned()
}

/// The sources of the configuration, in order: one for each configured
/// source of a known kind, its files taken relative to `config_path`;
/// configured sources of other kinds are left out.
pub fn create_providers(config: &Config, config_path: &str) -> (r: Vec<Provider>)
    ensures
        r@.len() == known_configs(config@).len(),
        forall|i: int| 0 <= i < r@.len() ==> made_from(#[trigger] r@[i], known_configs(config@)[i], config_path@),
{
    let mut providers: Vec<Provider> = Vec::new();
    let mut i: usize = 0;
    let ghost cs = config@;
    assert(cs.take(0) =~= Seq::<ProviderConfigView>::empty());
    while i < config.providers.len()
        invariant
            i <= config.providers.len(),
            cs == config@,
            cs == configs_view(config.providers@),
            providers@.len() == known_configs(cs.take(i as int)).len(),
            forall|k: int| 0 <= k < providers@.len() ==> made_from(#[trigger] providers@[k], known_configs(cs.take(i as int))[k], config_path@),
        decreases config.providers.len() - i,
    {
        let cfg = &config.providers[i];
        assert(cs.take(i + 1).drop_last() =~= cs.take(i as int));
        assert(cs.take(i + 1).last() == cfg@);
        let ghost known_before = known_configs(cs.take(i as int));
        let kind = kind_of(cfg.kind.as_str());
        match kind {
            Some(ProviderKind::Text) => {
                let path = join_path(config_path, cfg.resource.as_str());
                providers.push(Provider::Text(TextFileProvider::new(cfg.name.as_str(), path.as_str())));
            },
            Some(ProviderKind::Csv) => {
                let path = join_path(config_path, cfg.resource.as_str());
                providers.push(Provider::Csv(CSVFileProvider::new(cfg.name.as_str(), path.as_str())));
            },
            Some(ProviderKind::Sqlite) => {
                let path = join_path(config_path, cfg.resource.as_str());
                providers.push(Provider::Sqlite(SQLiteProvider::new(cfg.name.as_str(), path.as_str())));
            },
            Some(ProviderKind::Web) => {
                providers.push(Provider::Web(WebProvider::new(cfg.name.as_str(), cfg.resource.as_str())));
            },
            None => {},
        }
        assert forall|k: int| 0 <= k < providers@.len() implies made_from(#[trigger] providers@[k], known_configs(cs.take(i + 1))[k], config_path@) by {
            if k < known_before.len() {
                assert(known_configs(cs.take(i + 1))[k] == known_before[k]);
            }
        }
        i = i + 1;
    }
    assert(cs.take(config.providers.len() as int) =~= cs);
    providers
}

/// Why an event cannot be added to a named source.
#[derive(Debug, Clone, Copy, PartialEq, Eq, Structural)]
pub enum AddError {
    /// No source has the name.
    UnknownProvider,
    /// The source with the name takes no events.
    NotSupported,
}

/// The position of the first source with the name, where one has it.
pub open spec fn first_named(ps: Seq<Provider>, name: Seq<char>) -> Option<int>
    decreases ps.len(),
{
    if ps.len() == 0 {
        None
    } else if ps[0].name_spec() == name {
        Some(0)
    } else {
        match first_named(ps.drop_first(), name) {
            Some(i) => Some(i + 1),
            None => None,
        }
    }
}

/// The position of the first source with the name, where one has it.
pub fn find_provider(providers: &Vec<Provider>, provider_name: &str) -> (r: Option<usize>)
    ensures
        (match r { Some(i) => Some(i as int), None => None::<int> }) == first_named(providers@, provider_name@),
{
    let mut j: usize = 0;
    let ghost ps = providers@;
    assert(ps.skip(0) =~= ps);
    while j < providers.len()
        invariant
            j <= providers.len(),
            ps == providers@,
            first_named(ps, provider_name@) == (match first_named(ps.skip(j as int), provider_name@) {
                Some(k) => Some(k + j),
                None => None::<int>,
            }),
        decreases providers.len() - j,
    {
        assert(ps.skip(j as int)[0] == ps[j as int]);
        assert(ps.skip(j as int).drop_first() =~= ps.skip(j + 1));
        let n = providers[j].name();
        if n == provider_name.to_string() {
            return Some(j);
        }
        j = j + 1;
    }
    None
}

/// The source to add an event to: the first source with the name, where it
/// takes events; otherwise why no event can be added.
pub open spec fn add_target_spec(ps: Seq<Provider>, name: Seq<char>) -> Result<int, AddError> {
    match first_named(ps, name) {
        None => Err(AddError::UnknownProvider),
        Some(i) => if Provider::adds_spec(ps[i].kind_spec()) { Ok(i) } else { Err(AddError::NotSupported) },
    }
}

proof fn lemma_first_named_in_range(ps: Seq<Provider>, name: Seq<char>)
    ensures
        first_named(ps, name) matches Some(i) ==> 0 <= i < ps.len() && ps[i].name_spec() == name,
    decreases ps.len(),
{
    if ps.len() > 0 && ps[0].name_spec() != name {
        lemma_first_named_in_range(ps.drop_first(), name);
    }
}

/// The position of the source to add an event to, for the name that the
/// user gave; see `add_target_spec`.
pub fn add_target(providers: &Vec<Provider>, provider_name: &str) -> (r: Result<usize, AddError>)
    ensures
        (match r { Ok(i) => Ok(i as int), Err(e) => Err(e) }) == add_target_spec(providers@, provider_name@),
        r matches Ok(i) ==> i < providers@.len(),
{
    proof { lemma_first_named_in_range(providers@, provider_name@); }
    match find_provider(providers, provider_name) {
        None => Err(AddError::UnknownProvider),
        Some(i) => {
            if providers[i].add_is_supported() {
                Ok(i)
            } else {
                Err(AddError::NotSupported)
            }
        },
    }
}

} // verus!
