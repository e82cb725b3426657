//! The settings screen edits flat records where an absent value is an empty
//! string; these functions convert between them and the configuration.
use vstd::prelude::*;
use crate::config::{AppDef, AppDefView, RouteTable, RouteTableView, Rule, RuleView, copy_strings, opt_view, rule_views, table_entries, app_entries};
use crate::name_map::NameMap;
use crate::text::{owned, views};

verus! {

/// An empty text stands for "not given".
pub open spec fn opt_of(s: Seq<char>) -> Option<Seq<char>> {
    if s.len() == 0 {
        None
    } else {
        Some(s)
    }
}

/// "Not given" shown as an empty text.
pub open spec fn text_of(o: Option<Seq<char>>) -> Seq<char> {
    match o {
        Some(s) => s,
        None => Seq::empty(),
    }
}

/// The text itself, or none when it is empty.
pub fn optional(s: String) -> (r: Option<String>)
    ensures
        opt_view(r) == opt_of(s@),
{
    if s.as_str().is_empty() {
        None
    } else {
        Some(s)
    }
}

fn text_or_empty(o: &Option<String>) -> (r: String)
    ensures
        r@ == text_of(opt_view(*o)),
{
    match o {
        Some(s) => owned(s.as_str()),
        None => String::new(),
    }
}

#[derive(Debug, Clone)]
pub struct RuleEntry {
    pub glob: String,
    pub host: String,
    pub url: String,
    pub modifier: String,
    pub app: String,
    pub pick: bool,
}

pub struct RuleEntryView {
    pub glob: Seq<char>,
    pub host: Seq<char>,
    pub url: Seq<char>,
    pub modifier: Seq<char>,
    pub app: Seq<char>,
    pub pick: bool,
}

impl View for RuleEntry {
    type V = RuleEntryView;

    open spec fn view(&self) -> RuleEntryView {
        RuleEntryView {
            glob: self.glob@,
            host: self.host@,
            url: self.url@,
            modifier: self.modifier@,
            app: self.app@,
            pick: self.pick,
        }
    }
}

impl Default for RuleEntry {
    fn default() -> (e: RuleEntry)
        ensures
            e@ == (RuleEntryView {
                glob: Seq::empty(),
                host: Seq::empty(),
                url: Seq::empty(),
                modifier: Seq::empty(),
                app: Seq::empty(),
                pick: false,
            }),
    {
        RuleEntry {
            glob: String::new(),
            host: String::new(),
            url: String::new(),
            modifier: String::new(),
            app: String::new(),
            pick: false,
        }
    }
}

#[derive(Debug, Clone)]
pub struct RouteEntry {
    pub key: String,
    pub default: String,
    pub candidates: Vec<String>,
    pub rules: Vec<RuleEntry>,
}

pub struct RouteEntryView {
    pub key: Seq<char>,
    pub default: Seq<char>,
    pub candidates: Seq<Seq<char>>,
    pub rules: Seq<RuleEntryView>,
}

pub open spec fn rule_entry_views(rules: Seq<RuleEntry>) -> Seq<RuleEntryView> {
    rules.map_values(|r: RuleEntry| r@)
}

impl View for RouteEntry {
    type V = RouteEntryView;

    open spec fn view(&self) -> RouteEntryView {
        RouteEntryView {
            key: self.key@,
            default: self.default@,
            candidates: views(self.candidates@),
            rules: rule_entry_views(self.rules@),
        }
    }
}

impl Default for RouteEntry {
    fn default() -> (e: RouteEntry)
        ensures
            e@.key.len() == 0,
            e@.default.len() == 0,
            e@.candidates.len() == 0,
            e@.rules.len() == 0,
    {
        let e = RouteEntry {
            key: String::new(),
            default: String::new(),
            candidates: Vec::new(),
            rules: Vec::new(),
        };
        assert(views(e.candidates@) =~= Seq::<Seq<char>>::empty());
        assert(rule_entry_views(e.rules@) =~= Seq::<RuleEntryView>::empty());
        e
    }
}

#[derive(Debug, Clone)]
pub struct AppEntry {
    pub name: String,
    pub cmd: String,
    pub args: Vec<String>,
    pub label: String,
}

pub struct AppEntryView {
    pub name: Seq<char>,
    pub cmd: Seq<char>,
    pub args: Seq<Seq<char>>,
    pub label: Seq<char>,
}

impl View for AppEntry {
    type V = AppEntryView;

    open spec fn view(&self) -> AppEntryView {
        AppEntryView {
            name: self.name@,
            cmd: self.cmd@,
            args: views(self.args@),
            label: self.label@,
        }
    }
}

impl Default for AppEntry {
    fn default() -> (e: AppEntry)
        ensures
            e@.name.len() == 0,
            e@.cmd.len() == 0,
            e@.args.len() == 0,
            e@.label.len() == 0,
    {
        let e = AppEntry {
            name: String::new(),
            cmd: String::new(),
            args: Vec::new(),
            label: String::new(),
        };
        assert(views(e.args@) =~= Seq::<Seq<char>>::empty());
        e
    }
}

// ───────────────────────── conversions ─────────────────────────

pub open spec fn entry_to_rule_spec(e: RuleEntryView) -> RuleView {
    RuleView {
        glob: opt_of(e.glob),
        host: opt_of(e.host),
        url: opt_of(e.url),
        modifier: opt_of(e.modifier),
        app: opt_of(e.app),
        pick: e.pick,
    }
}

pub open spec fn rule_to_entry_spec(r: RuleView) -> RuleEntryView {
    RuleEntryView {
        glob: text_of(r.glob),
        host: text_of(r.host),
        url: text_of(r.url),
        modifier: text_of(r.modifier),
        app: text_of(r.app),
        pick: r.pick,
    }
}

pub open spec fn entry_to_table_spec(e: RouteEntryView) -> RouteTableView {
    RouteTableView {
        default: opt_of(e.default),
        candidates: if e.candidates.len() == 0 {
            None
        } else {
            Some(e.candidates)
        },
        rules: e.rules.map_values(|r: RuleEntryView| entry_to_rule_spec(r)),
    }
}

pub open spec fn table_to_entry_spec(key: Seq<char>, t: RouteTableView) -> RouteEntryView {
    RouteEntryView {
        key,
        default: text_of(t.default),
        candidates: match t.candidates {
            Some(cs) => cs,
            None => Seq::empty(),
        },
        rules: t.rules.map_values(|r: RuleView| rule_to_entry_spec(r)),
    }
}

pub open spec fn entry_to_app_spec(e: AppEntryView) -> AppDefView {
    AppDefView { cmd: e.cmd, args: e.args, label: opt_of(e.label) }
}

pub open spec fn app_to_entry_spec(name: Seq<char>, a: AppDefView) -> AppEntryView {
    AppEntryView { name, cmd: a.cmd, args: a.args, label: text_of(a.label) }
}

pub fn rule_entry_to_rule(entry: &RuleEntry) -> (r: Rule)
    ensures
        r@ == entry_to_rule_spec(entry@),
{
    Rule {
        glob: optional(owned(entry.glob.as_str())),
        host: optional(owned(entry.host.as_str())),
        url: optional(owned(entry.url.as_str())),
        modifier: optional(owned(entry.modifier.as_str())),
        app: optional(owned(entry.app.as_str())),
        pick: entry.pick,
    }
}

pub fn rule_to_rule_entry(rule: &Rule) -> (e: RuleEntry)
    ensures
        e@ == rule_to_entry_spec(rule@),
{
    RuleEntry {
        glob: text_or_empty(&rule.glob),
        host: text_or_empty(&rule.host),
        url: text_or_empty(&rule.url),
        modifier: text_or_empty(&rule.modifier),
        app: text_or_empty(&rule.app),
        pick: rule.pick,
    }
}

pub fn route_entry_to_table(entry: &RouteEntry) -> (t: RouteTable)
    ensures
        t@ == entry_to_table_spec(entry@),
{
    let mut rules: Vec<Rule> = Vec::new();
    let mut i: usize = 0;
    while i < entry.rules.len()
        invariant
            i <= entry.rules@.len(),
            rules@.len() == i,
            forall|j: int| 0 <= j < i ==> #[trigger] rules@[j]@ == entry_to_rule_spec(entry.rules@[j]@),
        decreases entry.rules@.len() - i,
    {
        let r = rule_entry_to_rule(&entry.rules[i]);
        rules.push(r);
        i = i + 1;
    }
    assert(rule_views(rules@) =~= rule_entry_views(entry.rules@).map_values(
        |r: RuleEntryView| entry_to_rule_spec(r),
    ));
    let default = optional(owned(entry.default.as_str()));
    let candidates = if entry.candidates.len() == 0 {
        None
    } else {
        Some(copy_strings(&entry.candidates))
    };
    RouteTable { default, rules, candidates }
}

fn table_to_entry(key: &str, table: &RouteTable) -> (e: RouteEntry)
    ensures
        e@ == table_to_entry_spec(key@, table@),
{
    let mut rules: Vec<RuleEntry> = Vec::new();
    let mut i: usize = 0;
    while i < table.rules.len()
        invariant
            i <= table.rules@.len(),
            rules@.len() == i,
            forall|j: int| 0 <= j < i ==> #[trigger] rules@[j]@ == rule_to_entry_spec(table.rules@[j]@),
        decreases table.rules@.len() - i,
    {
        let e = rule_to_rule_entry(&table.rules[i]);
        rules.push(e);
        i = i + 1;
    }
    assert(rule_entry_views(rules@) =~= rule_views(table.rules@).map_values(
        |r: RuleView| rule_to_entry_spec(r),
    ));
    let candidates = match &table.candidates {
        Some(cs) => copy_strings(cs),
        None => {
            let v: Vec<String> = Vec::new();
            assert(views(v@) =~= Seq::<Seq<char>>::empty());
            v
        },
    };
    RouteEntry { key: owned(key), default: text_or_empty(&table.default), candidates, rules }
}

/// One record per routing table, in name order.
pub fn build_route_entries(routes: &NameMap<RouteTable>) -> (r: Vec<RouteEntry>)
    ensures
        r@.len() == routes@.len(),
        forall|i: int|
            0 <= i < r@.len() ==> #[trigger] r@[i]@ == table_to_entry_spec(
                table_entries(routes@)[i].0,
                table_entries(routes@)[i].1,
            ),
{
    let mut r: Vec<RouteEntry> = Vec::new();
    let mut i: usize = 0;
    while i < routes.len()
        invariant
            i <= routes@.len(),
            r@.len() == i,
            forall|j: int|
                0 <= j < i ==> #[trigger] r@[j]@ == table_to_entry_spec(
                    table_entries(routes@)[j].0,
                    table_entries(routes@)[j].1,
                ),
        decreases routes@.len() - i,
    {
        let e = table_to_entry(routes.key_at(i).as_str(), routes.value_at(i));
        r.push(e);
        i = i + 1;
    }
    r
}

/// One record per application, in name order.
pub fn build_app_entries(apps: &NameMap<AppDef>) -> (r: Vec<AppEntry>)
    ensures
        r@.len() == apps@.len(),
        forall|i: int|
            0 <= i < r@.len() ==> #[trigger] r@[i]@ == app_to_entry_spec(
                app_entries(apps@)[i].0,
                app_entries(apps@)[i].1,
            ),
{
    let mut r: Vec<AppEntry> = Vec::new();
    let mut i: usize = 0;
    while i < apps.len()
        invariant
            i <= apps@.len(),
            r@.len() == i,
            forall|j: int|
                0 <= j < i ==> #[trigger] r@[j]@ == app_to_entry_spec(
                    app_entries(apps@)[j].0,
                    app_entries(apps@)[j].1,
                ),
        decreases apps@.len() - i,
    {
        let def = apps.value_at(i);
        let e = AppEntry {
            name: owned(apps.key_at(i).as_str()),
            cmd: owned(def.cmd.as_str()),
            args: copy_strings(&def.args),
            label: text_or_empty(&def.label),
        };
        r.push(e);
        i = i + 1;
    }
    r
}

pub fn app_entry_to_def(entry: &AppEntry) -> (d: AppDef)
    ensures
        d@ == entry_to_app_spec(entry@),
{
    AppDef {
        cmd: owned(entry.cmd.as_str()),
        args: copy_strings(&entry.args),
        label: optional(owned(entry.label.as_str())),
    }
}

// ───────────────────────── laws ─────────────────────────

proof fn lemma_text_of_opt_of(s: Seq<char>)
    ensures
        text_of(opt_of(s)) == s,
{
    if s.len() == 0 {
        assert(s =~= Seq::<char>::empty());
    }
}

proof fn lemma_opt_of_text_of(o: Option<Seq<char>>)
    requires
        o != Some(Seq::<char>::empty()),
    ensures
        opt_of(text_of(o)) == o,
{
    if let Some(s) = o {
        if s.len() == 0 {
            assert(s =~= Seq::<char>::empty());
        }
    }
}

/// A record turned into a rule and back is the same record.
pub proof fn law_rule_entry_round_trip(e: RuleEntryView)
    ensures
        rule_to_entry_spec(entry_to_rule_spec(e)) == e,
{
    lemma_text_of_opt_of(e.glob);
    lemma_text_of_opt_of(e.host);
    lemma_text_of_opt_of(e.url);
    lemma_text_of_opt_of(e.modifier);
    lemma_text_of_opt_of(e.app);
}

/// A rule whose given texts are all non-empty survives the trip through a
/// record unchanged.
pub proof fn law_rule_round_trip(r: RuleView)
    requires
        r.glob != Some(Seq::<char>::empty()),
        r.host != Some(Seq::<char>::empty()),
        r.url != Some(Seq::<char>::empty()),
        r.modifier != Some(Seq::<char>::empty()),
        r.app != Some(Seq::<char>::empty()),
    ensures
        entry_to_rule_spec(rule_to_entry_spec(r)) == r,
{
    lemma_opt_of_text_of(r.glob);
    lemma_opt_of_text_of(r.host);
    lemma_opt_of_text_of(r.url);
    lemma_opt_of_text_of(r.modifier);
    lemma_opt_of_text_of(r.app);
}

/// A routing record turned into a table and back is the same record.
pub proof fn law_route_entry_round_trip(e: RouteEntryView)
    ensures
        table_to_entry_spec(e.key, entry_to_table_spec(e)) == e,
{
    lemma_text_of_opt_of(e.default);
    assert forall|i: int| 0 <= i < e.rules.len() implies rule_to_entry_spec(
        entry_to_rule_spec(e.rules[i]),
    ) == e.rules[i] by {
        law_rule_entry_round_trip(e.rules[i]);
    }
    assert(entry_to_table_spec(e).rules.map_values(|r: RuleView| rule_to_entry_spec(r)) =~= e.rules);
    if e.candidates.len() == 0 {
        assert(e.candidates =~= Seq::<Seq<char>>::empty());
    }
}

/// An application record turned into a definition and back is the same record.
pub proof fn law_app_entry_round_trip(e: AppEntryView)
    ensures
        app_to_entry_spec(e.name, entry_to_app_spec(e)) == e,
{
    lemma_text_of_opt_of(e.label);
}

/// A definition with no empty label survives the trip through a record.
pub proof fn law_app_def_round_trip(name: Seq<char>, a: AppDefView)
    requires
        a.label != Some(Seq::<char>::empty()),
    ensures
        entry_to_app_spec(app_to_entry_spec(name, a)) == a,
{
    lemma_opt_of_text_of(a.label);
}

/// A rule none of whose given texts is empty.
pub open spec fn plain_rule(r: RuleView) -> bool {
    &&& r.glob != Some(Seq::<char>::empty())
    &&& r.host != Some(Seq::<char>::empty())
    &&& r.url != Some(Seq::<char>::empty())
    &&& r.modifier != Some(Seq::<char>::empty())
    &&& r.app != Some(Seq::<char>::empty())
}

/// A table whose default is not empty, whose candidate list, when given, is
/// not empty, and whose rules are plain.
pub open spec fn plain_table(t: RouteTableView) -> bool {
    &&& t.default != Some(Seq::<char>::empty())
    &&& t.candidates != Some(Seq::<Seq<char>>::empty())
    &&& forall|i: int| 0 <= i < t.rules.len() ==> plain_rule(#[trigger] t.rules[i])
}

/// A plain table survives the trip through a record unchanged.
pub proof fn law_table_round_trip(key: Seq<char>, t: RouteTableView)
    requires
        plain_table(t),
    ensures
        entry_to_table_spec(table_to_entry_spec(key, t)) == t,
{
    lemma_opt_of_text_of(t.default);
    let e = table_to_entry_spec(key, t);
    assert forall|i: int| 0 <= i < t.rules.len() implies entry_to_rule_spec(
        rule_to_entry_spec(t.rules[i]),
    ) == t.rules[i] by {
        law_rule_round_trip(t.rules[i]);
    }
    assert(e.rules.map_values(|r: RuleEntryView| entry_to_rule_spec(r)) =~= t.rules);
    if t.candidates is None {
    } else {
        assert(t.candidates->0.len() > 0) by {
            if t.candidates->0.len() == 0 {
                assert(t.candidates->0 =~= Seq::<Seq<char>>::empty());
            }
        }
    }
}

} // verus!
