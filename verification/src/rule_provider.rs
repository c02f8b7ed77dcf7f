//! Rule providers: named lists of domains or networks that routing rules
//! refer to as `tag:list`. A server task owns the loaded lists; it answers
//! match queries at once and loads a list the first time it is asked for.
pub mod rule_set;

use vstd::prelude::*;
use crate::net::{DestAddr, DestView};
use crate::router::matching::MatchMode;
use crate::text::{chars_eq, chars_of};
use self::rule_set::{GeoIP, GeoSite, RuleSet, RuleSetError, geoip_outcome, geosite_outcome};
use crate::protos::{decode_geoip_list, decode_geosite_list, geoip_view, geosite_view, spec_geoip_list, spec_geosite_list};
use crate::text::{eq_ignore_ascii_case, eq_ignore_ascii_case_seq};

verus! {

/// The formats of rule list files.
#[derive(Debug, Clone, Copy, PartialEq, Eq, Structural)]
pub enum DataFormat {
    V2rayGeoIP,
    V2rayGeoSite,
}

/// How often a remote list is fetched again, in seconds: once a day.
pub fn default_interval() -> (r: u64)
    ensures
        r == 86400,
{
    60 * 60 * 24
}

/// The file, in the data directory, that keeps the data of a remote
/// provider `tag`.
pub fn data_file_name(tag: &str) -> (r: String)
    ensures
        r@ == tag@ + ".dat"@,
{
    let mut r = tag.to_owned();
    r.append(".dat");
    r
}

/// Where a provider's data comes from.
#[derive(Debug, Clone)]
pub enum ProviderSource {
    /// A file, relative to the data directory unless absolute.
    Local { path: String },
    /// A URL, fetched again after `interval` seconds.
    Remote { url: String, interval: u64 },
}

/// A provider's format and source.
#[derive(Debug, Clone)]
pub struct ProviderConfig {
    pub format: DataFormat,
    pub source: ProviderSource,
}

/// Why a list could not be taken from a provider's data.
#[derive(Debug, Clone, Copy, PartialEq, Eq, Structural)]
pub enum ParseError {
    /// The data is not a valid list file.
    Decode,
    /// No list has the asked code.
    KeyNotFound,
    /// The list was found but could not be built.
    RuleSet(RuleSetError),
}

/// The first index whose code equals `sub`, ignoring ASCII case.
pub open spec fn first_code(codes: Seq<Seq<char>>, sub: Seq<char>) -> Option<int>
    decreases codes.len(),
{
    if codes.len() == 0 {
        None
    } else if eq_ignore_ascii_case_seq(codes[0], sub) {
        Some(0)
    } else {
        match first_code(codes.drop_first(), sub) {
            Some(i) => Some(i + 1),
            None => None,
        }
    }
}

pub open spec fn geoip_codes(ls: Seq<(Seq<char>, Seq<(Seq<u8>, u32)>)>) -> Seq<Seq<char>> {
    ls.map_values(|g: (Seq<char>, Seq<(Seq<u8>, u32)>)| g.0)
}

pub open spec fn geosite_codes(ls: Seq<(Seq<char>, Seq<(crate::rule_provider::rule_set::DomainType, Seq<char>)>)>) -> Seq<Seq<char>> {
    ls.map_values(|g: (Seq<char>, Seq<(crate::rule_provider::rule_set::DomainType, Seq<char>)>)| g.0)
}

pub open spec fn code_views(cs: Seq<String>) -> Seq<Seq<char>> {
    cs.map_values(|c: String| c@)
}

/// The outcome of building, as `parse` reports it.
pub open spec fn build_result(r: Result<RuleSet, ParseError>) -> Result<RuleSet, RuleSetError> {
    match r {
        Ok(rs) => Ok(rs),
        Err(ParseError::RuleSet(e)) => Err(e),
        Err(_) => Err(RuleSetError::InvalidRegex),
    }
}

fn find_code(codes: &Vec<String>, sub: &str) -> (r: Option<usize>)
    ensures
        match first_code(code_views(codes@), sub@) {
            Some(i) => r matches Some(j) && j as int == i,
            None => r is None,
        },
        r matches Some(i) ==> i < codes@.len(),
{
    let ghost cs = code_views(codes@);
    let sc = chars_of(sub);
    let mut i: usize = 0;
    assert(cs.skip(0) == cs);
    while i < codes.len()
        invariant
            i <= codes@.len(),
            cs == code_views(codes@),
            sc@ == sub@,
            first_code(cs, sub@) == match first_code(cs.skip(i as int), sub@) {
                Some(k) => Some(k + i),
                None => None::<int>,
            },
        decreases codes.len() - i,
    {
        let ghost rest = cs.skip(i as int);
        assert(rest[0] == codes@[i as int]@);
        assert(rest.drop_first() == cs.skip(i + 1));
        let cc = chars_of(codes[i].as_str());
        if eq_ignore_ascii_case(cc.as_slice(), sc.as_slice()) {
            return Some(i);
        }
        i = i + 1;
    }
    assert(cs.skip(i as int).len() == 0);
    None
}

impl ProviderConfig {
    /// Takes list `sub` (by its code, ignoring ASCII case; the first that
    /// has it) from the provider's data, and builds it.
    pub fn parse(&self, data: &[u8], sub: &str) -> (r: Result<RuleSet, ParseError>)
        ensures
            match self.format {
                DataFormat::V2rayGeoIP => match spec_geoip_list(data@) {
                    None => r == Err::<RuleSet, ParseError>(ParseError::Decode),
                    Some(ls) => match first_code(geoip_codes(ls), sub@) {
                        None => r == Err::<RuleSet, ParseError>(ParseError::KeyNotFound),
                        Some(i) => (r is Ok || r matches Err(ParseError::RuleSet(_)))
                            && exists|geo: GeoIP| geoip_view(geo) == ls[i] && geoip_outcome(geo, build_result(r)),
                    },
                },
                DataFormat::V2rayGeoSite => match spec_geosite_list(data@) {
                    None => r == Err::<RuleSet, ParseError>(ParseError::Decode),
                    Some(ls) => match first_code(geosite_codes(ls), sub@) {
                        None => r == Err::<RuleSet, ParseError>(ParseError::KeyNotFound),
                        Some(i) => (r is Ok || r matches Err(ParseError::RuleSet(_)))
                            && exists|site: GeoSite| geosite_view(site) == ls[i] && geosite_outcome(site, build_result(r)),
                    },
                },
            },
    {
        match self.format {
            DataFormat::V2rayGeoIP => {
                let list = match decode_geoip_list(data) {
                    None => return Err(ParseError::Decode),
                    Some(l) => l,
                };
                let ghost ls = list@.map_values(|g: GeoIP| geoip_view(g));
                let mut codes: Vec<String> = Vec::new();
                let mut k: usize = 0;
                while k < list.len()
                    invariant
                        k <= list@.len(),
                        codes@.len() == k,
                        forall|j: int| 0 <= j < k ==> (#[trigger] codes@[j])@ == list@[j].country_code@,
                    decreases list.len() - k,
                {
                    codes.push(list[k].country_code.clone());
                    k = k + 1;
                }
                assert(code_views(codes@) =~= geoip_codes(ls));
                match find_code(&codes, sub) {
                    None => Err(ParseError::KeyNotFound),
                    Some(i) => {
                        let geo = &list[i];
                        assert(geoip_view(*geo) == ls[i as int]);
                        let built = RuleSet::from_geoip(geo);
                        let r = match built {
                            Ok(rs) => Ok(rs),
                            Err(e) => Err(ParseError::RuleSet(e)),
                        };
                        assert(build_result(r) == built);
                        assert(geoip_outcome(*geo, build_result(r)));
                        assert(spec_geoip_list(data@) == Some(ls));
                        assert(first_code(geoip_codes(ls), sub@) == Some(i as int));
                        assert(exists|g: GeoIP| geoip_view(g) == ls[i as int] && geoip_outcome(g, build_result(r)));
                        r
                    },
                }
            },
            DataFormat::V2rayGeoSite => {
                let list = match decode_geosite_list(data) {
                    None => return Err(ParseError::Decode),
                    Some(l) => l,
                };
                let ghost ls = list@.map_values(|g: GeoSite| geosite_view(g));
                let mut codes: Vec<String> = Vec::new();
                let mut k: usize = 0;
                while k < list.len()
                    invariant
                        k <= list@.len(),
                        codes@.len() == k,
                        forall|j: int| 0 <= j < k ==> (#[trigger] codes@[j])@ == list@[j].country_code@,
                    decreases list.len() - k,
                {
                    codes.push(list[k].country_code.clone());
                    k = k + 1;
                }
                assert(code_views(codes@) =~= geosite_codes(ls));
                match find_code(&codes, sub) {
                    None => Err(ParseError::KeyNotFound),
                    Some(i) => {
                        let site = &list[i];
                        assert(geosite_view(*site) == ls[i as int]);
                        let built = RuleSet::from_geosite(site);
                        let r = match built {
                            Ok(rs) => Ok(rs),
                            Err(e) => Err(ParseError::RuleSet(e)),
                        };
                        assert(build_result(r) == built);
                        assert(geosite_outcome(*site, build_result(r)));
                        assert(spec_geosite_list(data@) == Some(ls));
                        assert(first_code(geosite_codes(ls), sub@) == Some(i as int));
                        assert(exists|g: GeoSite| geosite_view(g) == ls[i as int] && geosite_outcome(g, build_result(r)));
                        r
                    },
                }
            },
        }
    }
}

/// The map that a list of keyed entries stands for: a later entry of a
/// key hides the earlier ones.
pub open spec fn keyed<T>(es: Seq<(Seq<char>, T)>) -> Map<Seq<char>, T>
    decreases es.len(),
{
    if es.len() == 0 {
        Map::empty()
    } else {
        keyed(es.drop_last()).insert(es.last().0, es.last().1)
    }
}

/// The index of the last entry with key `k`, or -1.
pub open spec fn last_index<T>(es: Seq<(Seq<char>, T)>, k: Seq<char>) -> int
    decreases es.len(),
{
    if es.len() == 0 {
        -1
    } else if es.last().0 == k {
        es.len() - 1
    } else {
        last_index(es.drop_last(), k)
    }
}

pub proof fn lemma_keyed_lookup<T>(es: Seq<(Seq<char>, T)>, k: Seq<char>)
    ensures
        -1 <= last_index(es, k) < es.len(),
        keyed(es).contains_key(k) <==> last_index(es, k) >= 0,
        last_index(es, k) >= 0 ==> keyed(es)[k] == es[last_index(es, k)].1 && es[last_index(es, k)].0 == k,
    decreases es.len(),
{
    if es.len() > 0 {
        lemma_keyed_lookup(es.drop_last(), k);
    }
}

pub proof fn lemma_keyed_update<T>(es: Seq<(Seq<char>, T)>, k: Seq<char>, v: T)
    requires
        last_index(es, k) >= 0,
    ensures
        keyed(es.update(last_index(es, k), (k, v))) == keyed(es).insert(k, v),
        forall|k2: Seq<char>| k2 != k ==> last_index(es.update(last_index(es, k), (k, v)), k2) == last_index(es, k2),
        last_index(es.update(last_index(es, k), (k, v)), k) == last_index(es, k),
    decreases es.len(),
{
    let i = last_index(es, k);
    lemma_keyed_lookup(es, k);
    let u = es.update(i, (k, v));
    assert(u.len() == es.len());
    if i == es.len() - 1 {
        assert(u.drop_last() =~= es.drop_last());
        assert(u.last() == (k, v));
        assert(keyed(u) =~= keyed(es).insert(k, v));
    } else {
        assert(es.last().0 != k);
        assert(last_index(es.drop_last(), k) == i);
        lemma_keyed_update(es.drop_last(), k, v);
        assert(u.drop_last() =~= es.drop_last().update(i, (k, v)));
        assert(u.last() == es.last());
        assert(keyed(u) =~= keyed(es).insert(k, v));
        assert forall|k2: Seq<char>| k2 != k implies last_index(u, k2) == last_index(es, k2) by {
            if es.last().0 != k2 {
                assert(last_index(u.drop_last(), k2) == last_index(es.drop_last(), k2));
            }
        }
    }
}

/// Finds the last entry with key `k`.
fn find_key<T>(es: &Vec<(String, T)>, k: &String) -> (r: Option<usize>)
    ensures
        match r {
            Some(i) => i as int == last_index(entries_view(es@), k@),
            None => last_index(entries_view(es@), k@) == -1,
        },
{
    let kc = chars_of(k.as_str());
    let mut i: usize = es.len();
    assert(entries_view(es@).take(i as int) =~= entries_view(es@));
    while i > 0
        invariant
            i <= es@.len(),
            kc@ == k@,
            last_index(entries_view(es@), k@) == last_index(entries_view(es@).take(i as int), k@),
        decreases i,
    {
        let ghost pre = entries_view(es@).take(i as int);
        assert(pre.drop_last() == entries_view(es@).take(i - 1));
        assert(pre.last().0 == es@[i - 1].0@);
        let ec = chars_of(es[i - 1].0.as_str());
        if chars_eq(ec.as_slice(), kc.as_slice()) {
            return Some(i - 1);
        }
        i = i - 1;
    }
    None
}

/// The keyed entries by the views of their keys.
pub open spec fn entries_view<T>(es: Seq<(String, T)>) -> Seq<(Seq<char>, T)> {
    es.map_values(|e: (String, T)| (e.0@, e.1))
}

/// Where a list stands.
pub enum RuleSetState {
    /// Being loaded, or its loading failed.
    Loading,
    Loaded(RuleSet),
}

/// The lists of one provider, by name.
pub struct LoadedItem {
    pub lists: Vec<(String, RuleSetState)>,
}

impl LoadedItem {
    pub open spec fn view_map(&self) -> Map<Seq<char>, RuleSetState> {
        keyed(entries_view(self.lists@))
    }

    pub open spec fn wf(&self) -> bool {
        forall|i: int| 0 <= i < self.lists@.len() ==> match #[trigger] self.lists@[i].1 {
            RuleSetState::Loaded(rs) => rs.wf(),
            RuleSetState::Loading => true,
        }
    }
}

/// Whether the state holds no list that is not well formed.
pub open spec fn state_wf(st: RuleSetState) -> bool {
    match st {
        RuleSetState::Loaded(rs) => rs.wf(),
        RuleSetState::Loading => true,
    }
}

impl LoadedItem {
    /// Sets the state of list `sub`.
    pub fn set(&mut self, sub: &String, st: RuleSetState)
        requires
            old(self).wf(),
            state_wf(st),
        ensures
            final(self).wf(),
            final(self).view_map() == old(self).view_map().insert(sub@, st),
    {
        let ghost es = entries_view(self.lists@);
        match find_key(&self.lists, sub) {
            Some(i) => {
                proof {
                    lemma_keyed_lookup(es, sub@);
                    lemma_keyed_update(es, sub@, st);
                }
                let _ = self.lists.remove(i);
                self.lists.insert(i, (sub.clone(), st));
                assert(entries_view(self.lists@) =~= es.update(i as int, (sub@, st)));
            },
            None => {
                self.lists.push((sub.clone(), st));
                assert(entries_view(self.lists@) =~= es.push((sub@, st)));
                assert(entries_view(self.lists@).drop_last() == es);
            },
        }
        assert forall|j: int| 0 <= j < self.lists@.len() implies match #[trigger] self.lists@[j].1 {
            RuleSetState::Loaded(rs) => rs.wf(),
            RuleSetState::Loading => true,
        } by {
            if self.lists@[j].1 != st {
                assert(exists|k: int| 0 <= k < old(self).lists@.len() && old(self).lists@[k].1 == self.lists@[j].1);
            }
        }
    }

    /// The state of list `sub`, where it has one.
    pub fn get(&self, sub: &String) -> (r: Option<&RuleSetState>)
        ensures
            match r {
                Some(st) => self.view_map().contains_key(sub@) && self.view_map()[sub@] == *st,
                None => !self.view_map().contains_key(sub@),
            },
    {
        proof {
            lemma_keyed_lookup(entries_view(self.lists@), sub@);
        }
        match find_key(&self.lists, sub) {
            Some(i) => Some(&self.lists[i].1),
            None => None,
        }
    }
}

/// A message to the server.
pub enum ManagerMessage {
    /// Does list `sub` of provider `tag` match the destination?
    Match { tag: String, sub: String, dest: DestAddr, mode: MatchMode },
    /// Load list `sub` of provider `tag`.
    Load { tag: String, sub: String },
    /// The outcome of loading list `sub` of provider `tag`.
    Insert { tag: String, sub: String, rule_set: Option<RuleSet> },
}

/// What the server does after a message.
pub enum ServerAction {
    /// Answer the query; where `load` names a list, send the server a
    /// `Load` for it.
    Reply { result: bool, load: Option<(String, String)> },
    /// Load this list in the background and send the outcome back as an
    /// `Insert`.
    StartLoad { tag: String, sub: String },
    /// Nothing more.
    Nothing,
}

/// The server's state: the lists of each provider.
pub struct RuleProviderServer {
    pub loaded: Vec<(String, LoadedItem)>,
}

impl RuleProviderServer {
    /// The lists of each provider, by tag and name.
    pub open spec fn state(&self) -> Map<Seq<char>, Map<Seq<char>, RuleSetState>> {
        keyed(entries_view(self.loaded@)).map_values(|item: LoadedItem| item.view_map())
    }

    pub open spec fn wf(&self) -> bool {
        forall|i: int| 0 <= i < self.loaded@.len() ==> (#[trigger] self.loaded@[i]).1.wf()
    }

    /// A server for the given providers, with nothing loaded.
    pub fn new(tags: &Vec<String>) -> (r: Self)
        ensures
            r.wf(),
            forall|t: Seq<char>| r.state().contains_key(t) <==> exists|i: int| 0 <= i < tags@.len() && (#[trigger] tags@[i])@ == t,
            forall|t: Seq<char>| r.state().contains_key(t) ==> r.state()[t] == Map::<Seq<char>, RuleSetState>::empty(),
    {
        let mut loaded: Vec<(String, LoadedItem)> = Vec::new();
        let mut i: usize = 0;
        while i < tags.len()
            invariant
                i <= tags@.len(),
                loaded@.len() == i,
                forall|j: int| 0 <= j < i ==> (#[trigger] loaded@[j]).0@ == tags@[j]@ && loaded@[j].1.lists@.len() == 0,
            decreases tags.len() - i,
        {
            loaded.push((tags[i].clone(), LoadedItem { lists: Vec::new() }));
            i = i + 1;
        }
        let r = RuleProviderServer { loaded };
        proof {
            let es = entries_view(r.loaded@);
            assert forall|t: Seq<char>| r.state().contains_key(t) <==> exists|i: int| 0 <= i < tags@.len() && (#[trigger] tags@[i])@ == t by {
                lemma_keyed_lookup(es, t);
                if keyed(es).contains_key(t) {
                    let j = last_index(es, t);
                    assert(tags@[j]@ == t);
                }
                if exists|i: int| 0 <= i < tags@.len() && (#[trigger] tags@[i])@ == t {
                    let i = choose|i: int| 0 <= i < tags@.len() && (#[trigger] tags@[i])@ == t;
                    lemma_last_index_ge(es, t, i);
                }
            }
            assert forall|t: Seq<char>| r.state().contains_key(t) implies r.state()[t] == Map::<Seq<char>, RuleSetState>::empty() by {
                lemma_keyed_lookup(es, t);
                let j = last_index(es, t);
                assert(r.loaded@[j].1.lists@.len() == 0);
                assert(entries_view(r.loaded@[j].1.lists@).len() == 0);
                assert(r.loaded@[j].1.view_map() =~= Map::<Seq<char>, RuleSetState>::empty());
            }
        }
        r
    }

    /// Whether `tag` is a provider.
    pub fn has_tag(&self, tag: &String) -> (r: bool)
        ensures
            r == self.state().contains_key(tag@),
    {
        proof {
            lemma_keyed_lookup(entries_view(self.loaded@), tag@);
        }
        find_key(&self.loaded, tag).is_some()
    }
}

/// The state a loading outcome leaves: the list, or `Loading` (which
/// also stands for a failed load).
pub open spec fn outcome_state(rule_set: Option<RuleSet>) -> RuleSetState {
    match rule_set {
        Some(rs) => RuleSetState::Loaded(rs),
        None => RuleSetState::Loading,
    }
}

impl RuleProviderServer {
    /// Updates the lists of provider `tag`, which must exist.
    fn set_state(&mut self, tag: &String, sub: &String, st: RuleSetState)
        requires
            old(self).wf(),
            old(self).state().contains_key(tag@),
            state_wf(st),
        ensures
            final(self).wf(),
            final(self).state() == old(self).state().insert(tag@, old(self).state()[tag@].insert(sub@, st)),
    {
        let ghost es = entries_view(self.loaded@);
        proof {
            lemma_keyed_lookup(es, tag@);
        }
        let i = match find_key(&self.loaded, tag) {
            Some(i) => i,
            None => {
                return;
            },
        };
        let (t, mut item) = self.loaded.remove(i);
        assert(t@ == tag@);
        assert(item == old(self).loaded@[i as int].1);
        assert(keyed(es)[tag@] == item);
        item.set(sub, st);
        let ghost new_item = item;
        self.loaded.insert(i, (t, item));
        proof {
            lemma_keyed_update(es, tag@, new_item);
            assert(entries_view(self.loaded@) =~= es.update(i as int, (tag@, new_item)));
            assert(self.state() =~= old(self).state().insert(tag@, old(self).state()[tag@].insert(sub@, st)));
            assert forall|j: int| 0 <= j < self.loaded@.len() implies (#[trigger] self.loaded@[j]).1.wf() by {
                if j != i {
                    assert(self.loaded@[j] == old(self).loaded@[j]);
                }
            }
        }
    }

    /// Handles one message:
    /// - a query is answered from the list where it is loaded; a list being
    ///   loaded, an unknown provider or an unknown list answer `false`, and
    ///   an unknown list of a known provider is then loaded;
    /// - a load marks the list as loading and starts loading it;
    /// - an outcome stores the list, or leaves it marked as loading where
    ///   the load failed.
    /// A load or an outcome names a provider that exists (the server only
    /// asks to load lists of known providers).
    pub fn handle_message(&mut self, msg: ManagerMessage) -> (r: ServerAction)
        requires
            old(self).wf(),
            msg matches ManagerMessage::Load { tag, .. } ==> old(self).state().contains_key(tag@),
            msg matches ManagerMessage::Insert { tag, rule_set, .. } ==> old(self).state().contains_key(tag@)
                && (rule_set matches Some(rs) ==> rs.wf()),
        ensures
            final(self).wf(),
            match msg {
                ManagerMessage::Match { tag, sub, dest, mode } => {
                    &&& final(self).state() == old(self).state()
                    &&& if !old(self).state().contains_key(tag@) {
                        r matches ServerAction::Reply { result: false, load: None }
                    } else if !old(self).state()[tag@].contains_key(sub@) {
                        r matches ServerAction::Reply { result: false, load: Some((t, s)) } && t@ == tag@ && s@ == sub@
                    } else {
                        match old(self).state()[tag@][sub@] {
                            RuleSetState::Loaded(rs) => r matches ServerAction::Reply { result, load: None }
                                && result == rs.spec_is_match(dest@, mode),
                            RuleSetState::Loading => r matches ServerAction::Reply { result: false, load: None },
                        }
                    }
                },
                ManagerMessage::Load { tag, sub } => {
                    &&& final(self).state() == old(self).state().insert(tag@, old(self).state()[tag@].insert(sub@, RuleSetState::Loading))
                    &&& r matches ServerAction::StartLoad { tag: t, sub: s } && t@ == tag@ && s@ == sub@
                },
                ManagerMessage::Insert { tag, sub, rule_set } => {
                    &&& final(self).state() == old(self).state().insert(tag@, old(self).state()[tag@].insert(sub@, outcome_state(rule_set)))
                    &&& r is Nothing
                },
            },
    {
        match msg {
            ManagerMessage::Match { tag, sub, dest, mode } => {
                let ghost es = entries_view(self.loaded@);
                proof {
                    lemma_keyed_lookup(es, tag@);
                }
                match find_key(&self.loaded, &tag) {
                    None => ServerAction::Reply { result: false, load: None },
                    Some(i) => {
                        let item = &self.loaded[i].1;
                        assert(keyed(es)[tag@] == *item);
                        assert(self.wf());
                        assert(item.wf());
                        match item.get(&sub) {
                            None => ServerAction::Reply { result: false, load: Some((tag, sub)) },
                            Some(RuleSetState::Loading) => ServerAction::Reply { result: false, load: None },
                            Some(RuleSetState::Loaded(rs)) => {
                                proof {
                                    lemma_keyed_lookup(entries_view(item.lists@), sub@);
                                }
                                ServerAction::Reply { result: rs.is_match(&dest, mode), load: None }
                            },
                        }
                    },
                }
            },
            ManagerMessage::Load { tag, sub } => {
                self.set_state(&tag, &sub, RuleSetState::Loading);
                ServerAction::StartLoad { tag, sub }
            },
            ManagerMessage::Insert { tag, sub, rule_set } => {
                let st = match rule_set {
                    Some(rs) => RuleSetState::Loaded(rs),
                    None => RuleSetState::Loading,
                };
                self.set_state(&tag, &sub, st);
                ServerAction::Nothing
            },
        }
    }
}

/// An entry with key `k` at index `i` makes the last index of `k` at
/// least `i`.
proof fn lemma_last_index_ge<T>(es: Seq<(Seq<char>, T)>, k: Seq<char>, i: int)
    requires
        0 <= i < es.len(),
        es[i].0 == k,
    ensures
        last_index(es, k) >= i,
    decreases es.len(),
{
    if es.last().0 != k {
        lemma_last_index_ge(es.drop_last(), k, i);
    }
}

/// A list stored by a successful load answers every later query by its
/// own match, until it is stored again; storing it changes no other list.
pub proof fn lemma_insert_then_query(
    state: Map<Seq<char>, Map<Seq<char>, RuleSetState>>,
    tag: Seq<char>,
    sub: Seq<char>,
    rs: RuleSet,
    other_tag: Seq<char>,
    other_sub: Seq<char>,
)
    requires
        state.contains_key(tag),
    ensures
        ({
            let after = state.insert(tag, state[tag].insert(sub, outcome_state(Some(rs))));
            &&& after.contains_key(tag) && after[tag].contains_key(sub)
            &&& after[tag][sub] == RuleSetState::Loaded(rs)
            &&& (other_tag, other_sub) != (tag, sub) && state.contains_key(other_tag) ==> {
                &&& after.contains_key(other_tag)
                &&& after[other_tag].contains_key(other_sub) == state[other_tag].contains_key(other_sub)
                &&& state[other_tag].contains_key(other_sub) ==> after[other_tag][other_sub] == state[other_tag][other_sub]
            }
        }),
{
}

} // verus!
