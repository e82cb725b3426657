//! The URL-scheme routing tables of the settings screen: one record per
//! scheme as shown, and beside them the candidate list and the rules of each
//! scheme, kept by name. Every edit of a scheme's lists refreshes its record.
use vstd::prelude::*;
use crate::config::{RouteTable, RouteTableView, copy_strings};
use crate::name_map::{NameMap, as_map, keys_of, keys_ascending, lemma_as_map_prefix};
use crate::settings::data::{RouteEntry, RouteEntryView, RuleEntry, RuleEntryView, build_route_entries, entry_to_table_spec, rule_entry_views, rule_to_entry_spec, rule_to_rule_entry, route_entry_to_table, table_to_entry_spec};
use crate::text::{owned, str_eq, views, lemma_views_push};

verus! {

/// Candidate lists by name, each by its view.
pub open spec fn cands_view(a: Map<Seq<char>, Vec<String>>) -> Map<Seq<char>, Seq<Seq<char>>> {
    Map::new(|k: Seq<char>| a.dom().contains(k), |k: Seq<char>| views(a[k]@))
}

/// Rule lists by name, each by its view.
pub open spec fn rules_view(a: Map<Seq<char>, Vec<RuleEntry>>) -> Map<Seq<char>, Seq<RuleEntryView>> {
    Map::new(|k: Seq<char>| a.dom().contains(k), |k: Seq<char>| rule_entry_views(a[k]@))
}

/// Routing tables by name, each by its view.
pub open spec fn tables_view(a: Map<Seq<char>, RouteTable>) -> Map<Seq<char>, RouteTableView> {
    Map::new(|k: Seq<char>| a.dom().contains(k), |k: Seq<char>| a[k]@)
}

/// The candidate list of a table as the screen edits it.
pub open spec fn table_candidates(t: RouteTableView) -> Seq<Seq<char>> {
    match t.candidates {
        Some(cs) => cs,
        None => Seq::empty(),
    }
}

/// The rules of a table as the screen edits them.
pub open spec fn table_rules(t: RouteTableView) -> Seq<RuleEntryView> {
    t.rules.map_values(|r: crate::config::RuleView| rule_to_entry_spec(r))
}

pub struct ProtocolState {
    pub route_model: Vec<RouteEntry>,
    pub candidates_models: NameMap<Vec<String>>,
    pub rules_models: NameMap<Vec<RuleEntry>>,
}

pub struct ProtocolStateView {
    pub routes: Seq<RouteEntryView>,
    pub candidates: Map<Seq<char>, Seq<Seq<char>>>,
    pub rules: Map<Seq<char>, Seq<RuleEntryView>>,
}

pub open spec fn route_entry_views(rows: Seq<RouteEntry>) -> Seq<RouteEntryView> {
    rows.map_values(|e: RouteEntry| e@)
}

impl View for ProtocolState {
    type V = ProtocolStateView;

    open spec fn view(&self) -> ProtocolStateView {
        ProtocolStateView {
            routes: route_entry_views(self.route_model@),
            candidates: cands_view(as_map(self.candidates_models@)),
            rules: rules_view(as_map(self.rules_models@)),
        }
    }
}

// ───────────────────────── what each edit does ─────────────────────────

/// The first record at or after `from` for `key`.
pub open spec fn route_index_from(routes: Seq<RouteEntryView>, key: Seq<char>, from: int) -> Option<int>
    decreases routes.len() - from,
{
    if from < 0 || from >= routes.len() {
        None
    } else if routes[from].key == key {
        Some(from)
    } else {
        route_index_from(routes, key, from + 1)
    }
}

/// The first record for `key`.
pub open spec fn first_route(routes: Seq<RouteEntryView>, key: Seq<char>) -> Option<int> {
    route_index_from(routes, key, 0)
}

/// The first record for `key` shows the scheme's current candidates and
/// rules (none where the scheme has no list); its default stays.
pub open spec fn synced(st: ProtocolStateView, key: Seq<char>) -> ProtocolStateView {
    match first_route(st.routes, key) {
        Some(i) => ProtocolStateView {
            routes: st.routes.update(
                i,
                RouteEntryView {
                    key,
                    default: st.routes[i].default,
                    candidates: if st.candidates.contains_key(key) {
                        st.candidates[key]
                    } else {
                        Seq::empty()
                    },
                    rules: if st.rules.contains_key(key) {
                        st.rules[key]
                    } else {
                        Seq::empty()
                    },
                },
            ),
            ..st
        },
        None => st,
    }
}

/// The record of a new scheme.
pub open spec fn empty_route(key: Seq<char>) -> RouteEntryView {
    RouteEntryView { key, default: Seq::empty(), candidates: Seq::empty(), rules: Seq::empty() }
}

/// A new rule.
pub open spec fn empty_rule() -> RuleEntryView {
    RuleEntryView {
        glob: Seq::empty(),
        host: Seq::empty(),
        url: Seq::empty(),
        modifier: Seq::empty(),
        app: Seq::empty(),
        pick: false,
    }
}

/// `add_route`: a new record at the end, and empty lists under its name.
pub open spec fn route_added(st: ProtocolStateView, key: Seq<char>) -> ProtocolStateView {
    ProtocolStateView {
        routes: st.routes.push(empty_route(key)),
        candidates: st.candidates.insert(key, Seq::empty()),
        rules: st.rules.insert(key, Seq::empty()),
    }
}

/// `remove_route`: the record at `idx` and the lists under its name go; the
/// name is handed back. Out of range, nothing changes.
pub open spec fn route_removed(st: ProtocolStateView, idx: int) -> (ProtocolStateView, Option<Seq<char>>) {
    if 0 <= idx < st.routes.len() {
        let key = st.routes[idx].key;
        (
            ProtocolStateView {
                routes: st.routes.remove(idx),
                candidates: st.candidates.remove(key),
                rules: st.rules.remove(key),
            },
            Some(key),
        )
    } else {
        (st, None)
    }
}

/// The scheme's rules replaced by `rules` where it has a rule list.
pub open spec fn with_rules(st: ProtocolStateView, key: Seq<char>, rules: Seq<RuleEntryView>) -> ProtocolStateView {
    if st.rules.contains_key(key) {
        ProtocolStateView { rules: st.rules.insert(key, rules), ..st }
    } else {
        st
    }
}

/// The scheme's candidates replaced by `cands` where it has a candidate list.
pub open spec fn with_candidates(st: ProtocolStateView, key: Seq<char>, cands: Seq<Seq<char>>) -> ProtocolStateView {
    if st.candidates.contains_key(key) {
        ProtocolStateView { candidates: st.candidates.insert(key, cands), ..st }
    } else {
        st
    }
}

/// The rules of `key`, none where it has no rule list.
pub open spec fn rules_of(st: ProtocolStateView, key: Seq<char>) -> Seq<RuleEntryView> {
    if st.rules.contains_key(key) {
        st.rules[key]
    } else {
        Seq::empty()
    }
}

/// The candidates of `key`, none where it has no candidate list.
pub open spec fn candidates_of(st: ProtocolStateView, key: Seq<char>) -> Seq<Seq<char>> {
    if st.candidates.contains_key(key) {
        st.candidates[key]
    } else {
        Seq::empty()
    }
}

/// `add_rule`: a new rule at the end of the scheme's rules.
pub open spec fn rule_added(st: ProtocolStateView, key: Seq<char>) -> ProtocolStateView {
    synced(with_rules(st, key, rules_of(st, key).push(empty_rule())), key)
}

/// `remove_rule`: the rule at `idx` goes, when there is one.
pub open spec fn rule_removed(st: ProtocolStateView, key: Seq<char>, idx: int) -> ProtocolStateView {
    let rules = rules_of(st, key);
    if 0 <= idx < rules.len() {
        synced(with_rules(st, key, rules.remove(idx)), key)
    } else {
        synced(st, key)
    }
}

/// Where `move_rule` puts the rule at `idx`: `idx + delta` computed in `i32`
/// and taken as an index, so that a negative result is out of range.
pub open spec fn move_target(idx: usize, delta: i32) -> usize {
    ((idx as i32) + delta) as usize
}

/// The rule at `from` taken out and put back at `to`.
pub open spec fn moved<A>(s: Seq<A>, from: int, to: int) -> Seq<A> {
    s.remove(from).insert(to, s[from])
}

/// `move_rule`: the rule at `idx` moved to `move_target(idx, delta)`, when
/// that is a position of the list.
pub open spec fn rule_moved(st: ProtocolStateView, key: Seq<char>, idx: usize, delta: i32) -> ProtocolStateView {
    let rules = rules_of(st, key);
    let to = move_target(idx, delta);
    if st.rules.contains_key(key) && to < rules.len() {
        synced(with_rules(st, key, moved(rules, idx as int, to as int)), key)
    } else {
        synced(st, key)
    }
}

/// `update_rule`: the rule at `idx` replaced, when there is one.
pub open spec fn rule_updated(st: ProtocolStateView, key: Seq<char>, idx: int, entry: RuleEntryView) -> ProtocolStateView {
    let rules = rules_of(st, key);
    if 0 <= idx < rules.len() {
        synced(with_rules(st, key, rules.update(idx, entry)), key)
    } else {
        synced(st, key)
    }
}

/// `add_candidate`: the name appended, unless it is already there.
pub open spec fn candidate_added(st: ProtocolStateView, key: Seq<char>, c: Seq<char>) -> ProtocolStateView {
    let cands = candidates_of(st, key);
    if cands.contains(c) {
        synced(st, key)
    } else {
        synced(with_candidates(st, key, cands.push(c)), key)
    }
}

/// The first position of `x` in `s` at or after `from`.
pub open spec fn position_from<A>(s: Seq<A>, x: A, from: int) -> Option<int>
    decreases s.len() - from,
{
    if from < 0 || from >= s.len() {
        None
    } else if s[from] == x {
        Some(from)
    } else {
        position_from(s, x, from + 1)
    }
}

/// `s` without the first occurrence of `x`.
pub open spec fn without_first<A>(s: Seq<A>, x: A) -> Seq<A> {
    match position_from(s, x, 0) {
        Some(i) => s.remove(i),
        None => s,
    }
}

/// `remove_candidate`: the first occurrence of the name goes.
pub open spec fn candidate_removed(st: ProtocolStateView, key: Seq<char>, c: Seq<char>) -> ProtocolStateView {
    synced(with_candidates(st, key, without_first(candidates_of(st, key), c)), key)
}

/// `update_default`: the first record for `key` gets the new default.
pub open spec fn default_updated(st: ProtocolStateView, key: Seq<char>, default: Seq<char>) -> ProtocolStateView {
    match first_route(st.routes, key) {
        Some(i) => ProtocolStateView {
            routes: st.routes.update(i, RouteEntryView { default, ..st.routes[i] }),
            ..st
        },
        None => st,
    }
}

/// The configuration the records stand for: each record's table under its
/// name, a later record winning over an earlier one of the same name.
pub open spec fn config_of(routes: Seq<RouteEntryView>) -> Map<Seq<char>, RouteTableView>
    decreases routes.len(),
{
    if routes.len() == 0 {
        Map::empty()
    } else {
        config_of(routes.drop_last()).insert(routes.last().key, entry_to_table_spec(routes.last()))
    }
}

// ───────────────────────── views of maps ─────────────────────────

proof fn lemma_cands_insert(a: Map<Seq<char>, Vec<String>>, k: Seq<char>, v: Vec<String>)
    ensures
        cands_view(a.insert(k, v)) == cands_view(a).insert(k, views(v@)),
{
    assert forall|q: Seq<char>| #[trigger] a.insert(k, v).dom().contains(q) && q != k implies a.insert(k, v)[q]
        == a[q] by {}
    assert(cands_view(a.insert(k, v)) =~= cands_view(a).insert(k, views(v@)));
}

proof fn lemma_cands_remove(a: Map<Seq<char>, Vec<String>>, k: Seq<char>)
    ensures
        cands_view(a.remove(k)) == cands_view(a).remove(k),
{
    assert forall|q: Seq<char>| #[trigger] a.remove(k).dom().contains(q) implies a.remove(k)[q] == a[q] by {}
    assert(cands_view(a.remove(k)) =~= cands_view(a).remove(k));
}

proof fn lemma_rules_insert(a: Map<Seq<char>, Vec<RuleEntry>>, k: Seq<char>, v: Vec<RuleEntry>)
    ensures
        rules_view(a.insert(k, v)) == rules_view(a).insert(k, rule_entry_views(v@)),
{
    assert forall|q: Seq<char>| #[trigger] a.insert(k, v).dom().contains(q) && q != k implies a.insert(k, v)[q]
        == a[q] by {}
    assert(rules_view(a.insert(k, v)) =~= rules_view(a).insert(k, rule_entry_views(v@)));
}

proof fn lemma_rules_remove(a: Map<Seq<char>, Vec<RuleEntry>>, k: Seq<char>)
    ensures
        rules_view(a.remove(k)) == rules_view(a).remove(k),
{
    assert forall|q: Seq<char>| #[trigger] a.remove(k).dom().contains(q) implies a.remove(k)[q] == a[q] by {}
    assert(rules_view(a.remove(k)) =~= rules_view(a).remove(k));
}

proof fn lemma_tables_insert(a: Map<Seq<char>, RouteTable>, k: Seq<char>, t: RouteTable)
    ensures
        tables_view(a.insert(k, t)) == tables_view(a).insert(k, t@),
{
    assert forall|q: Seq<char>| #[trigger] a.insert(k, t).dom().contains(q) && q != k implies a.insert(k, t)[q]
        == a[q] by {}
    assert(tables_view(a.insert(k, t)) =~= tables_view(a).insert(k, t@));
}

/// A copy of a rule record.
fn copy_rule_entry(e: &RuleEntry) -> (r: RuleEntry)
    ensures
        r@ == e@,
{
    RuleEntry {
        glob: owned(e.glob.as_str()),
        host: owned(e.host.as_str()),
        url: owned(e.url.as_str()),
        modifier: owned(e.modifier.as_str()),
        app: owned(e.app.as_str()),
        pick: e.pick,
    }
}

fn copy_rule_entries(v: &Vec<RuleEntry>) -> (r: Vec<RuleEntry>)
    ensures
        rule_entry_views(r@) == rule_entry_views(v@),
{
    let mut r: Vec<RuleEntry> = Vec::new();
    let mut i: usize = 0;
    while i < v.len()
        invariant
            i <= v@.len(),
            r@.len() == i,
            forall|j: int| 0 <= j < i ==> #[trigger] r@[j]@ == v@[j]@,
        decreases v@.len() - i,
    {
        r.push(copy_rule_entry(&v[i]));
        i = i + 1;
    }
    assert(rule_entry_views(r@) =~= rule_entry_views(v@));
    r
}

impl ProtocolState {
    /// The records and lists of a configuration's URL schemes.
    pub fn from_protocol(protocol: &NameMap<RouteTable>) -> (s: ProtocolState)
        ensures
            s@.routes.len() == protocol@.len(),
            forall|i: int|
                0 <= i < protocol@.len() ==> #[trigger] s@.routes[i] == table_to_entry_spec(
                    protocol@[i].0,
                    protocol@[i].1@,
                ),
            s@.candidates == tables_view(as_map(protocol@)).map_values(
                |t: RouteTableView| table_candidates(t),
            ),
            s@.rules == tables_view(as_map(protocol@)).map_values(|t: RouteTableView| table_rules(t)),
    {
        let route_model = build_route_entries(protocol);
        let mut candidates_models: NameMap<Vec<String>> = NameMap::new();
        let mut rules_models: NameMap<Vec<RuleEntry>> = NameMap::new();
        let n = protocol.len();
        let mut i: usize = 0;
        proof {
            assert(as_map(protocol@.subrange(0, 0)) =~= Map::<Seq<char>, RouteTable>::empty());
            assert(cands_view(as_map(candidates_models@)) =~= tables_view(
                as_map(protocol@.subrange(0, 0)),
            ).map_values(|t: RouteTableView| table_candidates(t)));
            assert(rules_view(as_map(rules_models@)) =~= tables_view(
                as_map(protocol@.subrange(0, 0)),
            ).map_values(|t: RouteTableView| table_rules(t)));
        }
        while i < n
            invariant
                n == protocol@.len(),
                i <= n,
                keys_ascending(keys_of(protocol@)),
                cands_view(as_map(candidates_models@)) == tables_view(
                    as_map(protocol@.subrange(0, i as int)),
                ).map_values(|t: RouteTableView| table_candidates(t)),
                rules_view(as_map(rules_models@)) == tables_view(
                    as_map(protocol@.subrange(0, i as int)),
                ).map_values(|t: RouteTableView| table_rules(t)),
            decreases n - i,
        {
            let key = protocol.key_at(i);
            let table = protocol.value_at(i);
            let cands = match &table.candidates {
                Some(cs) => copy_strings(cs),
                None => {
                    let v: Vec<String> = Vec::new();
                    assert(views(v@) =~= Seq::<Seq<char>>::empty());
                    v
                },
            };
            let mut rules: Vec<RuleEntry> = Vec::new();
            let mut j: usize = 0;
            while j < table.rules.len()
                invariant
                    j <= table.rules@.len(),
                    rules@.len() == j,
                    forall|x: int| 0 <= x < j ==> #[trigger] rules@[x]@ == rule_to_entry_spec(
                        table.rules@[x]@,
                    ),
                decreases table.rules@.len() - j,
            {
                rules.push(rule_to_rule_entry(&table.rules[j]));
                j = j + 1;
            }
            assert(rule_entry_views(rules@) =~= table_rules(table@));
            let ghost c_before = as_map(candidates_models@);
            let ghost r_before = as_map(rules_models@);
            let ghost cv = cands;
            let ghost rv = rules;
            candidates_models.insert(owned(key.as_str()), cands);
            rules_models.insert(owned(key.as_str()), rules);
            proof {
                lemma_as_map_prefix(protocol@, i as int);
                lemma_cands_insert(c_before, key@, cv);
                lemma_rules_insert(r_before, key@, rv);
                lemma_tables_insert(as_map(protocol@.subrange(0, i as int)), key@, *table);
                assert(cands_view(as_map(candidates_models@)) =~= tables_view(
                    as_map(protocol@.subrange(0, i + 1)),
                ).map_values(|t: RouteTableView| table_candidates(t)));
                assert(rules_view(as_map(rules_models@)) =~= tables_view(
                    as_map(protocol@.subrange(0, i + 1)),
                ).map_values(|t: RouteTableView| table_rules(t)));
            }
            i = i + 1;
        }
        assert(protocol@.subrange(0, n as int) =~= protocol@);
        let s = ProtocolState { route_model, candidates_models, rules_models };
        assert forall|i: int| 0 <= i < protocol@.len() implies #[trigger] s@.routes[i] == table_to_entry_spec(
            protocol@[i].0,
            protocol@[i].1@,
        ) by {
            assert(crate::config::table_entries(protocol@)[i] == (protocol@[i].0, protocol@[i].1@));
        }
        s
    }

    /// Appends a record for a new scheme, with empty lists under its name.
    pub fn add_route(&mut self, key: String)
        ensures
            final(self)@ == route_added(old(self)@, key@),
    {
        let ghost before = self@;
        let ghost c_before = as_map(self.candidates_models@);
        let ghost r_before = as_map(self.rules_models@);
        let row = RouteEntry {
            key: owned(key.as_str()),
            default: String::new(),
            candidates: Vec::new(),
            rules: Vec::new(),
        };
        assert(row@ == empty_route(key@)) by {
            assert(row@.candidates =~= Seq::<Seq<char>>::empty());
            assert(row@.rules =~= Seq::<RuleEntryView>::empty());
        }
        self.route_model.push(row);
        let cands: Vec<String> = Vec::new();
        let rules: Vec<RuleEntry> = Vec::new();
        proof {
            lemma_cands_insert(c_before, key@, cands);
            lemma_rules_insert(r_before, key@, rules);
            assert(views(cands@) =~= Seq::<Seq<char>>::empty());
            assert(rule_entry_views(rules@) =~= Seq::<RuleEntryView>::empty());
        }
        self.candidates_models.insert(owned(key.as_str()), cands);
        self.rules_models.insert(key, rules);
        assert(self@.routes =~= route_added(before, key@).routes);
    }

    /// Removes the record at `idx` and the lists under its name, and hands the
    /// name back; `None` when there is no such record.
    pub fn remove_route(&mut self, idx: usize) -> (r: Option<String>)
        ensures
            (final(self)@, crate::config::opt_view(r)) == route_removed(old(self)@, idx as int),
    {
        let ghost before = self@;
        let ghost c_before = as_map(self.candidates_models@);
        let ghost r_before = as_map(self.rules_models@);
        if idx >= self.route_model.len() {
            return None;
        }
        let row = self.route_model.remove(idx);
        let key = row.key;
        self.candidates_models.remove(key.as_str());
        self.rules_models.remove(key.as_str());
        proof {
            lemma_cands_remove(c_before, key@);
            lemma_rules_remove(r_before, key@);
        }
        assert(self@.routes =~= route_removed(before, idx as int).0.routes);
        Some(key)
    }

    /// Takes the rule list of `key` out, leaving an empty one in its place,
    /// with the position of the scheme; `None` when the scheme has no list.
    fn take_rules(&mut self, key: &str) -> (r: Option<(usize, Vec<RuleEntry>)>)
        ensures
            match r {
                Some((i, v)) => {
                    &&& old(self)@.rules.contains_key(key@)
                    &&& rule_entry_views(v@) == old(self)@.rules[key@]
                    &&& i < final(self).rules_models@.len()
                    &&& final(self).rules_models@[i as int].0 == key@
                    &&& final(self)@ == (ProtocolStateView {
                        rules: old(self)@.rules.insert(key@, Seq::empty()),
                        ..old(self)@
                    })
                },
                None => !old(self)@.rules.contains_key(key@) && final(self)@ == old(self)@,
            },
    {
        let _ = self.rules_models.len();
        proof {
            crate::name_map::lemma_lookup_ascending(self.rules_models@, key@);
        }
        match self.rules_models.find(key) {
            Some(i) => {
                let ghost m0 = as_map(self.rules_models@);
                let empty: Vec<RuleEntry> = Vec::new();
                proof {
                    lemma_rules_insert(m0, key@, empty);
                    assert(rule_entry_views(empty@) =~= Seq::<RuleEntryView>::empty());
                }
                let v = self.rules_models.replace_value(i, empty);
                Some((i, v))
            },
            None => None,
        }
    }

    /// Puts `v` back as the rule list of the `i`-th scheme.
    fn put_rules(&mut self, i: usize, v: Vec<RuleEntry>)
        requires
            i < old(self).rules_models@.len(),
        ensures
            final(self)@ == (ProtocolStateView {
                rules: old(self)@.rules.insert(old(self).rules_models@[i as int].0, rule_entry_views(v@)),
                ..old(self)@
            }),
    {
        let ghost m0 = as_map(self.rules_models@);
        let ghost k = self.rules_models@[i as int].0;
        proof {
            lemma_rules_insert(m0, k, v);
        }
        self.rules_models.replace_value(i, v);
    }

    /// Takes the candidate list of `key` out, leaving an empty one in its
    /// place, with the position of the scheme; `None` when the scheme has no
    /// list.
    fn take_candidates(&mut self, key: &str) -> (r: Option<(usize, Vec<String>)>)
        ensures
            match r {
                Some((i, v)) => {
                    &&& old(self)@.candidates.contains_key(key@)
                    &&& views(v@) == old(self)@.candidates[key@]
                    &&& i < final(self).candidates_models@.len()
                    &&& final(self).candidates_models@[i as int].0 == key@
                    &&& final(self)@ == (ProtocolStateView {
                        candidates: old(self)@.candidates.insert(key@, Seq::empty()),
                        ..old(self)@
                    })
                },
                None => !old(self)@.candidates.contains_key(key@) && final(self)@ == old(self)@,
            },
    {
        let _ = self.candidates_models.len();
        proof {
            crate::name_map::lemma_lookup_ascending(self.candidates_models@, key@);
        }
        match self.candidates_models.find(key) {
            Some(i) => {
                let ghost m0 = as_map(self.candidates_models@);
                let empty: Vec<String> = Vec::new();
                proof {
                    lemma_cands_insert(m0, key@, empty);
                    assert(views(empty@) =~= Seq::<Seq<char>>::empty());
                }
                let v = self.candidates_models.replace_value(i, empty);
                Some((i, v))
            },
            None => None,
        }
    }

    /// Puts `v` back as the candidate list of the `i`-th scheme.
    fn put_candidates(&mut self, i: usize, v: Vec<String>)
        requires
            i < old(self).candidates_models@.len(),
        ensures
            final(self)@ == (ProtocolStateView {
                candidates: old(self)@.candidates.insert(old(self).candidates_models@[i as int].0, views(v@)),
                ..old(self)@
            }),
    {
        let ghost m0 = as_map(self.candidates_models@);
        let ghost k = self.candidates_models@[i as int].0;
        proof {
            lemma_cands_insert(m0, k, v);
        }
        self.candidates_models.replace_value(i, v);
    }

    /// Appends an empty rule to the scheme's rules.
    pub fn add_rule(&mut self, key: &str)
        ensures
            final(self)@ == rule_added(old(self)@, key@),
    {
        let ghost before = self@;
        match self.take_rules(key) {
            Some((i, mut rules)) => {
                let ghost old_rules = rules@;
                let e = RuleEntry::default();
                rules.push(e);
                proof {
                    assert(rule_entry_views(rules@) =~= rule_entry_views(old_rules).push(empty_rule()));
                }
                self.put_rules(i, rules);
                assert(self@.rules =~= with_rules(before, key@, rules_of(before, key@).push(empty_rule())).rules);
            },
            None => {},
        }
        self.sync_route_entry(key);
    }

    /// Removes the scheme's rule at `idx`, when there is one.
    pub fn remove_rule(&mut self, key: &str, idx: usize)
        ensures
            final(self)@ == rule_removed(old(self)@, key@, idx as int),
    {
        let ghost before = self@;
        match self.take_rules(key) {
            Some((i, mut rules)) => {
                let ghost old_rules = rules@;
                if idx < rules.len() {
                    rules.remove(idx);
                    proof {
                        assert(rule_entry_views(rules@) =~= rule_entry_views(old_rules).remove(idx as int));
                    }
                    self.put_rules(i, rules);
                    assert(self@.rules =~= with_rules(before, key@, rules_of(before, key@).remove(idx as int)).rules);
                } else {
                    self.put_rules(i, rules);
                    assert(self@.rules =~= before.rules);
                    assert(self@ == before);
                }
            },
            None => {},
        }
        self.sync_route_entry(key);
    }

    /// Moves the scheme's rule at `idx` by `delta` places, when the place it
    /// goes to is in the list.
    pub fn move_rule(&mut self, key: &str, idx: usize, delta: i32)
        requires
            i32::MIN <= (idx as i32) + delta <= i32::MAX,
            old(self)@.rules.contains_key(key@) && move_target(idx, delta) < old(self)@.rules[key@].len()
                ==> idx < old(self)@.rules[key@].len(),
        ensures
            final(self)@ == rule_moved(old(self)@, key@, idx, delta),
    {
        let ghost before = self@;
        let base: i32 = idx as i32;
        let sum: i32 = base + delta;
        let new_idx: usize = sum as usize;
        assert(new_idx == move_target(idx, delta));
        match self.take_rules(key) {
            Some((i, mut rules)) => {
                let ghost old_rules = rules@;
                if new_idx < rules.len() {
                    let row = rules.remove(idx);
                    rules.insert(new_idx, row);
                    proof {
                        assert(rule_entry_views(rules@) =~= moved(
                            rule_entry_views(old_rules),
                            idx as int,
                            new_idx as int,
                        ));
                    }
                    self.put_rules(i, rules);
                    assert(self@.rules =~= with_rules(
                        before,
                        key@,
                        moved(rules_of(before, key@), idx as int, new_idx as int),
                    ).rules);
                } else {
                    self.put_rules(i, rules);
                    assert(self@.rules =~= before.rules);
                    assert(self@ == before);
                }
            },
            None => {},
        }
        self.sync_route_entry(key);
    }

    /// Replaces the scheme's rule at `idx`, when there is one.
    pub fn update_rule(&mut self, key: &str, idx: usize, entry: RuleEntry)
        ensures
            final(self)@ == rule_updated(old(self)@, key@, idx as int, entry@),
    {
        let ghost before = self@;
        let ghost ev = entry@;
        match self.take_rules(key) {
            Some((i, mut rules)) => {
                let ghost old_rules = rules@;
                if idx < rules.len() {
                    rules.set(idx, entry);
                    proof {
                        assert(rule_entry_views(rules@) =~= rule_entry_views(old_rules).update(idx as int, ev));
                    }
                    self.put_rules(i, rules);
                    assert(self@.rules =~= with_rules(before, key@, rules_of(before, key@).update(idx as int, ev)).rules);
                } else {
                    self.put_rules(i, rules);
                    assert(self@.rules =~= before.rules);
                    assert(self@ == before);
                }
            },
            None => {},
        }
        self.sync_route_entry(key);
    }

    /// Appends `candidate` to the scheme's candidates, unless it is there.
    pub fn add_candidate(&mut self, key: &str, candidate: String)
        ensures
            final(self)@ == candidate_added(old(self)@, key@, candidate@),
    {
        let ghost before = self@;
        match self.take_candidates(key) {
            Some((i, mut cands)) => {
                let ghost old_cands = cands@;
                let mut found = false;
                let mut j: usize = 0;
                while j < cands.len()
                    invariant
                        j <= cands@.len(),
                        cands@ == old_cands,
                        found == exists|x: int| 0 <= x < j && cands@[x]@ == candidate@,
                    decreases cands@.len() - j,
                {
                    if str_eq(cands[j].as_str(), candidate.as_str()) {
                        found = true;
                    }
                    j = j + 1;
                }
                proof {
                    if found {
                        let x = choose|x: int| 0 <= x < j && cands@[x]@ == candidate@;
                        assert(views(old_cands)[x] == candidate@);
                    }
                    if views(old_cands).contains(candidate@) {
                        let x = choose|x: int| 0 <= x < views(old_cands).len() && views(old_cands)[x] == candidate@;
                        assert(cands@[x]@ == candidate@);
                    }
                    assert(found == views(old_cands).contains(candidate@));
                }
                if !found {
                    let ghost cv = candidate;
                    cands.push(candidate);
                    proof {
                        lemma_views_push(old_cands, cv);
                    }
                    self.put_candidates(i, cands);
                    assert(self@.candidates =~= with_candidates(
                        before,
                        key@,
                        candidates_of(before, key@).push(cv@),
                    ).candidates);
                } else {
                    self.put_candidates(i, cands);
                    assert(self@.candidates =~= before.candidates);
                    assert(self@ == before);
                }
            },
            None => {
                assert(with_candidates(before, key@, candidates_of(before, key@).push(candidate@)) == before);
            },
        }
        self.sync_route_entry(key);
    }

    /// Removes the first occurrence of `candidate` from the scheme's
    /// candidates.
    pub fn remove_candidate(&mut self, key: &str, candidate: String)
        ensures
            final(self)@ == candidate_removed(old(self)@, key@, candidate@),
    {
        let ghost before = self@;
        match self.take_candidates(key) {
            Some((i, mut cands)) => {
                let ghost old_cands = cands@;
                let n = cands.len();
                let mut j: usize = 0;
                let mut at: Option<usize> = None;
                while j < n
                    invariant_except_break
                        at is None,
                    invariant
                        n == cands@.len(),
                        j <= n,
                        cands@ == old_cands,
                        position_from(views(old_cands), candidate@, 0) == position_from(
                            views(old_cands),
                            candidate@,
                            j as int,
                        ),
                    ensures
                        at matches Some(x) ==> x < n && position_from(views(old_cands), candidate@, 0)
                            == Some(x as int),
                        at is None ==> position_from(views(old_cands), candidate@, 0) is None,
                    decreases n - j,
                {
                    if str_eq(cands[j].as_str(), candidate.as_str()) {
                        at = Some(j);
                        break;
                    }
                    j = j + 1;
                }
                match at {
                    Some(x) => {
                        cands.remove(x);
                        assert(views(cands@) =~= views(old_cands).remove(x as int));
                    },
                    None => {},
                }
                self.put_candidates(i, cands);
                assert(self@.candidates =~= with_candidates(
                    before,
                    key@,
                    without_first(candidates_of(before, key@), candidate@),
                ).candidates);
            },
            None => {},
        }
        self.sync_route_entry(key);
    }

    /// Sets the default of the first record for `key`.
    pub fn update_default(&mut self, key: &str, default: String)
        ensures
            final(self)@ == default_updated(old(self)@, key@, default@),
    {
        let ghost before = self@;
        let n = self.route_model.len();
        let mut i: usize = 0;
        while i < n
            invariant
                n == self.route_model@.len(),
                i <= n,
                self@ == before,
                before == old(self)@,
                route_index_from(before.routes, key@, 0) == route_index_from(before.routes, key@, i as int),
            decreases n - i,
        {
            if str_eq(self.route_model[i].key.as_str(), key) {
                assert(route_index_from(before.routes, key@, i as int) == Some(i as int));
                let row = RouteEntry {
                    key: owned(self.route_model[i].key.as_str()),
                    default,
                    candidates: copy_strings(&self.route_model[i].candidates),
                    rules: copy_rule_entries(&self.route_model[i].rules),
                };
                self.route_model.set(i, row);
                assert(self@.routes =~= default_updated(before, key@, default@).routes);
                assert(self@.candidates == default_updated(before, key@, default@).candidates);
                assert(self@.rules == default_updated(before, key@, default@).rules);
                return;
            }
            i = i + 1;
        }
    }

    /// Refreshes the first record for `key` from the scheme's lists.
    fn sync_route_entry(&mut self, key: &str)
        ensures
            final(self)@ == synced(old(self)@, key@),
    {
        let ghost before = self@;
        let candidates = match self.candidates_models.get(key) {
            Some(v) => copy_strings(v),
            None => Vec::new(),
        };
        let rules = match self.rules_models.get(key) {
            Some(v) => copy_rule_entries(v),
            None => Vec::new(),
        };
        let _ = self.candidates_models.len();
        let _ = self.rules_models.len();
        proof {
            crate::name_map::lemma_lookup_ascending(self.candidates_models@, key@);
            crate::name_map::lemma_lookup_ascending(self.rules_models@, key@);
            assert(views(candidates@) == candidates_of(before, key@));
            assert(rule_entry_views(rules@) == rules_of(before, key@));
        }
        let n = self.route_model.len();
        let mut i: usize = 0;
        while i < n
            invariant
                n == self.route_model@.len(),
                i <= n,
                self@ == before,
                before == old(self)@,
                route_index_from(before.routes, key@, 0) == route_index_from(before.routes, key@, i as int),
                views(candidates@) == candidates_of(before, key@),
                rule_entry_views(rules@) == rules_of(before, key@),
            decreases n - i,
        {
            if str_eq(self.route_model[i].key.as_str(), key) {
                let default = owned(self.route_model[i].default.as_str());
                let row = RouteEntry { key: owned(key), default, candidates, rules };
                assert(route_index_from(before.routes, key@, i as int) == Some(i as int));
                self.route_model.set(i, row);
                assert(self@.routes =~= synced(before, key@).routes);
                assert(self@.candidates == synced(before, key@).candidates);
                assert(self@.rules == synced(before, key@).rules);
                return;
            }
            i = i + 1;
        }
    }

    /// The routing tables the records stand for, by name.
    pub fn to_config(&self) -> (r: NameMap<RouteTable>)
        ensures
            tables_view(as_map(r@)) == config_of(self@.routes),
    {
        let mut out: NameMap<RouteTable> = NameMap::new();
        let n = self.route_model.len();
        let mut i: usize = 0;
        assert(tables_view(as_map(out@)) =~= config_of(self@.routes.subrange(0, 0)));
        while i < n
            invariant
                n == self@.routes.len(),
                i <= n,
                tables_view(as_map(out@)) == config_of(self@.routes.subrange(0, i as int)),
            decreases n - i,
        {
            let entry = &self.route_model[i];
            let table = route_entry_to_table(entry);
            let ghost before = as_map(out@);
            let ghost tv = table;
            out.insert(owned(entry.key.as_str()), table);
            proof {
                lemma_tables_insert(before, entry.key@, tv);
                assert(self@.routes.subrange(0, i + 1).drop_last() =~= self@.routes.subrange(0, i as int));
            }
            i = i + 1;
        }
        assert(self@.routes.subrange(0, n as int) =~= self@.routes);
        out
    }
}

// ───────────────────────── laws ─────────────────────────

/// The records built from a sequence of named tables.
pub open spec fn records_of(p: Seq<(Seq<char>, RouteTable)>) -> Seq<RouteEntryView> {
    Seq::new(p.len(), |i: int| table_to_entry_spec(p[i].0, p[i].1@))
}

/// Records whose tables are plain stand for the tables they were built from:
/// `to_config` after `from_protocol` gives the configuration back.
pub proof fn law_protocol_round_trip(p: Seq<(Seq<char>, RouteTable)>)
    requires
        keys_ascending(keys_of(p)),
        forall|i: int| 0 <= i < p.len() ==> crate::settings::data::plain_table(#[trigger] p[i].1@),
    ensures
        config_of(records_of(p)) == tables_view(as_map(p)),
    decreases p.len(),
{
    if p.len() == 0 {
        assert(as_map(p) =~= Map::<Seq<char>, RouteTable>::empty());
        assert(tables_view(as_map(p)) =~= Map::<Seq<char>, RouteTableView>::empty());
    } else {
        let n = p.len() - 1;
        let q = p.drop_last();
        assert forall|x: int, y: int| 0 <= x < y < keys_of(q).len() implies crate::name_map::key_lt(
            keys_of(q)[x],
            keys_of(q)[y],
        ) by {
            assert(keys_of(q)[x] == keys_of(p)[x]);
            assert(keys_of(q)[y] == keys_of(p)[y]);
        }
        assert forall|i: int| 0 <= i < q.len() implies crate::settings::data::plain_table(#[trigger] q[i].1@) by {
            assert(q[i] == p[i]);
        }
        law_protocol_round_trip(q);
        assert(records_of(p).drop_last() =~= records_of(q));
        crate::settings::data::law_table_round_trip(p[n].0, p[n].1@);
        lemma_as_map_prefix(p, n);
        assert(p.subrange(0, n) =~= q);
        assert(p.subrange(0, n + 1) =~= p);
        lemma_tables_insert(as_map(q), p[n].0, p[n].1);
    }
}

proof fn lemma_route_index_same_keys(a: Seq<RouteEntryView>, b: Seq<RouteEntryView>, key: Seq<char>, from: int)
    requires
        a.len() == b.len(),
        forall|j: int| 0 <= j < a.len() ==> #[trigger] a[j].key == b[j].key,
    ensures
        route_index_from(a, key, from) == route_index_from(b, key, from),
    decreases a.len() - from,
{
    if 0 <= from < a.len() {
        lemma_route_index_same_keys(a, b, key, from + 1);
    }
}

proof fn lemma_synced_keys(st: ProtocolStateView, key: Seq<char>)
    ensures
        synced(st, key).routes.len() == st.routes.len(),
        forall|j: int| 0 <= j < st.routes.len() ==> #[trigger] synced(st, key).routes[j].key == st.routes[j].key,
        synced(st, key).candidates == st.candidates,
        synced(st, key).rules == st.rules,
{
    if let Some(i) = first_route(st.routes, key) {
        lemma_route_index_found(st.routes, key, 0);
    }
}

proof fn lemma_route_index_found(routes: Seq<RouteEntryView>, key: Seq<char>, from: int)
    requires
        0 <= from,
    ensures
        route_index_from(routes, key, from) matches Some(i) ==> from <= i < routes.len() && routes[i].key == key,
    decreases routes.len() - from,
{
    if from < routes.len() {
        lemma_route_index_found(routes, key, from + 1);
    }
}

/// Moving a rule down one place and then back up one place leaves the lists
/// as they were, and the scheme's record showing them.
pub proof fn law_move_rule_undo(st: ProtocolStateView, key: Seq<char>, idx: usize)
    requires
        st.rules.contains_key(key),
        idx + 1 < st.rules[key].len(),
        idx + 1 <= i32::MAX,
    ensures
        rule_moved(rule_moved(st, key, idx, 1), key, (idx + 1) as usize, -1i32) == synced(st, key),
{
    let r = st.rules[key];
    assert(move_target(idx, 1) == idx + 1);
    let m = moved(r, idx as int, idx + 1);
    let y = with_rules(st, key, m);
    let st1 = synced(y, key);
    assert(rule_moved(st, key, idx, 1) == st1);
    lemma_synced_keys(y, key);
    assert(st1.rules == st.rules.insert(key, m));
    assert(rules_of(st1, key) == m);
    assert(move_target((idx + 1) as usize, -1i32) == idx);
    assert(moved(m, idx + 1, idx as int) =~= r);
    let x = with_rules(st1, key, r);
    assert(x.rules =~= st.rules);
    lemma_route_index_same_keys(st1.routes, st.routes, key, 0);
    assert(y.routes == st.routes);
    let fin = synced(x, key);
    if let Some(i) = first_route(st.routes, key) {
        lemma_route_index_found(st.routes, key, 0);
        assert(x.routes[i].default == st.routes[i].default);
        assert(fin.routes =~= synced(st, key).routes);
    }
    assert(rule_moved(st1, key, (idx + 1) as usize, -1i32) == fin);
}

/// Adding a candidate never makes a name appear twice in the list.
pub proof fn law_add_candidate_keeps_distinct(st: ProtocolStateView, key: Seq<char>, c: Seq<char>)
    requires
        st.candidates.contains_key(key),
        st.candidates[key].no_duplicates(),
    ensures
        candidate_added(st, key, c).candidates[key].no_duplicates(),
        candidate_added(st, key, c).candidates[key].contains(c),
{
    let cands = st.candidates[key];
    let y = if cands.contains(c) { st } else { with_candidates(st, key, cands.push(c)) };
    lemma_synced_keys(y, key);
    if !cands.contains(c) {
        let n = cands.push(c);
        assert(n[cands.len() as int] == c);
        assert forall|i: int, j: int| 0 <= i < n.len() && 0 <= j < n.len() && i != j implies n[i] != n[j] by {
            if i < cands.len() && j < cands.len() {
            } else if i < cands.len() {
                assert(cands.contains(n[i]));
            } else {
                assert(cands.contains(n[j]));
            }
        }
    }
}

/// Removing the record that `add_route` appended undoes the `add_route`,
/// when the scheme had no lists.
pub proof fn law_remove_route_undoes_add_route(st: ProtocolStateView, key: Seq<char>)
    requires
        !st.candidates.contains_key(key),
        !st.rules.contains_key(key),
    ensures
        route_removed(route_added(st, key), st.routes.len() as int) == (st, Some(key)),
{
    let a = route_added(st, key);
    assert(a.routes.remove(st.routes.len() as int) =~= st.routes);
    assert(a.candidates.remove(key) =~= st.candidates);
    assert(a.rules.remove(key) =~= st.rules);
}

} // verus!
