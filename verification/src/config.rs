//! The configuration: application definitions, the routing tables for file
//! extensions and URL schemes, their validation, and `%VAR%` expansion.
use vstd::prelude::*;
use crate::name_map::{NameMap, has_key};
use crate::text::{concat2, concat3, decimal, owned, str_eq, usize_to_string, views, lemma_views_push};

verus! {

// ───────────────────────── option helpers ─────────────────────────

/// The characters of an optional string.
pub open spec fn opt_view(o: Option<String>) -> Option<Seq<char>> {
    match o {
        Some(s) => Some(s@),
        None => None,
    }
}

/// An owned copy of an optional string.
pub fn copy_opt(o: &Option<String>) -> (r: Option<String>)
    ensures
        opt_view(r) == opt_view(*o),
{
    match o {
        Some(s) => Some(owned(s.as_str())),
        None => None,
    }
}

/// An owned copy of a list of strings.
pub fn copy_strings(v: &Vec<String>) -> (r: Vec<String>)
    ensures
        views(r@) == views(v@),
{
    let mut r: Vec<String> = Vec::new();
    let mut i: usize = 0;
    while i < v.len()
        invariant
            i <= v@.len(),
            views(r@) == views(v@).subrange(0, i as int),
        decreases v@.len() - i,
    {
        let ghost before = r@;
        let s = owned(v[i].as_str());
        r.push(s);
        proof {
            lemma_views_push(before, s);
            assert(views(v@).subrange(0, i + 1) =~= views(v@).subrange(0, i as int).push(v@[i as int]@));
        }
        i = i + 1;
    }
    assert(views(v@).subrange(0, i as int) =~= views(v@));
    r
}

// ───────────────────────── application definitions ─────────────────────────

/// How to start one application. In `args`, `{target}` stands for the file
/// path or URL being opened; empty `args` means just the target.
#[derive(Debug)]
pub struct AppDef {
    pub cmd: String,
    pub args: Vec<String>,
    /// An extra label shown in the picker (such as a browser profile).
    pub label: Option<String>,
}

pub struct AppDefView {
    pub cmd: Seq<char>,
    pub args: Seq<Seq<char>>,
    pub label: Option<Seq<char>>,
}

impl View for AppDef {
    type V = AppDefView;

    open spec fn view(&self) -> AppDefView {
        AppDefView { cmd: self.cmd@, args: views(self.args@), label: opt_view(self.label) }
    }
}

impl Default for AppDef {
    fn default() -> (d: AppDef)
        ensures
            d@.cmd.len() == 0,
            d@.args.len() == 0,
            d@.label is None,
    {
        let d = AppDef { cmd: String::new(), args: Vec::new(), label: None };
        assert(views(d.args@) =~= Seq::<Seq<char>>::empty());
        d
    }
}

impl AppDef {
    /// A copy with the same command, arguments and label.
    pub fn duplicate(&self) -> (r: AppDef)
        ensures
            r@ == self@,
    {
        AppDef {
            cmd: owned(self.cmd.as_str()),
            args: copy_strings(&self.args),
            label: copy_opt(&self.label),
        }
    }
}

// ───────────────────────── rules and routing tables ─────────────────────────

/// One routing rule. The conditions that are given must all hold; the action
/// is either `app` or `pick`.
#[derive(Debug)]
pub struct Rule {
    pub glob: Option<String>,
    pub host: Option<String>,
    pub url: Option<String>,
    pub modifier: Option<String>,
    pub app: Option<String>,
    pub pick: bool,
}

pub struct RuleView {
    pub glob: Option<Seq<char>>,
    pub host: Option<Seq<char>>,
    pub url: Option<Seq<char>>,
    pub modifier: Option<Seq<char>>,
    pub app: Option<Seq<char>>,
    pub pick: bool,
}

impl View for Rule {
    type V = RuleView;

    open spec fn view(&self) -> RuleView {
        RuleView {
            glob: opt_view(self.glob),
            host: opt_view(self.host),
            url: opt_view(self.url),
            modifier: opt_view(self.modifier),
            app: opt_view(self.app),
            pick: self.pick,
        }
    }
}

impl Default for Rule {
    fn default() -> (r: Rule)
        ensures
            r@ == (RuleView {
                glob: None,
                host: None,
                url: None,
                modifier: None,
                app: None,
                pick: false,
            }),
    {
        Rule { glob: None, host: None, url: None, modifier: None, app: None, pick: false }
    }
}

impl Rule {
    /// A copy with the same conditions and action.
    pub fn duplicate(&self) -> (r: Rule)
        ensures
            r@ == self@,
    {
        Rule {
            glob: copy_opt(&self.glob),
            host: copy_opt(&self.host),
            url: copy_opt(&self.url),
            modifier: copy_opt(&self.modifier),
            app: copy_opt(&self.app),
            pick: self.pick,
        }
    }
}

/// Whether a rule gives no condition at all (it matches everything).
pub open spec fn rule_has_no_condition(r: RuleView) -> bool {
    r.glob is None && r.host is None && r.url is None && r.modifier is None
}

/// The views of a sequence of rules.
pub open spec fn rule_views(rules: Seq<Rule>) -> Seq<RuleView> {
    rules.map_values(|r: Rule| r@)
}

/// The views of an optional list of names.
pub open spec fn opt_views(o: Option<Vec<String>>) -> Option<Seq<Seq<char>>> {
    match o {
        Some(v) => Some(views(v@)),
        None => None,
    }
}

/// The routing table of one extension or URL scheme: rules tried from the
/// first, then `default`; `candidates` narrows the picker's list.
#[derive(Debug)]
pub struct RouteTable {
    pub default: Option<String>,
    pub rules: Vec<Rule>,
    pub candidates: Option<Vec<String>>,
}

pub struct RouteTableView {
    pub default: Option<Seq<char>>,
    pub rules: Seq<RuleView>,
    pub candidates: Option<Seq<Seq<char>>>,
}

impl View for RouteTable {
    type V = RouteTableView;

    open spec fn view(&self) -> RouteTableView {
        RouteTableView {
            default: opt_view(self.default),
            rules: rule_views(self.rules@),
            candidates: opt_views(self.candidates),
        }
    }
}

impl Default for RouteTable {
    fn default() -> (t: RouteTable)
        ensures
            t@.default is None,
            t@.rules.len() == 0,
            t@.candidates is None,
    {
        let t = RouteTable { default: None, rules: Vec::new(), candidates: None };
        assert(rule_views(t.rules@) =~= Seq::<RuleView>::empty());
        t
    }
}

// ───────────────────────── settings and the whole configuration ─────────────────────────

/// The picker closes itself after this many milliseconds unless configured.
pub const DEFAULT_PICKER_TIMEOUT_MS: u64 = 5000;

pub fn default_picker_timeout_ms() -> (t: u64)
    ensures
        t == DEFAULT_PICKER_TIMEOUT_MS,
{
    DEFAULT_PICKER_TIMEOUT_MS
}

#[derive(Debug)]
pub struct Settings {
    /// Timeout of the picker when it starts without focus, in milliseconds.
    pub picker_timeout_ms: u64,
}

impl Default for Settings {
    fn default() -> (s: Settings)
        ensures
            s.picker_timeout_ms == DEFAULT_PICKER_TIMEOUT_MS,
    {
        Settings { picker_timeout_ms: default_picker_timeout_ms() }
    }
}

/// Application definitions and routing tables, each kept in name order.
pub struct Config {
    pub apps: NameMap<AppDef>,
    pub ext: NameMap<RouteTable>,
    pub protocol: NameMap<RouteTable>,
    pub settings: Settings,
}

pub struct ConfigView {
    pub apps: Seq<(Seq<char>, AppDefView)>,
    pub ext: Seq<(Seq<char>, RouteTableView)>,
    pub protocol: Seq<(Seq<char>, RouteTableView)>,
    pub picker_timeout_ms: u64,
}

pub open spec fn app_entries(m: Seq<(Seq<char>, AppDef)>) -> Seq<(Seq<char>, AppDefView)> {
    m.map_values(|e: (Seq<char>, AppDef)| (e.0, e.1@))
}

pub open spec fn table_entries(m: Seq<(Seq<char>, RouteTable)>) -> Seq<(Seq<char>, RouteTableView)> {
    m.map_values(|e: (Seq<char>, RouteTable)| (e.0, e.1@))
}

impl View for Config {
    type V = ConfigView;

    open spec fn view(&self) -> ConfigView {
        ConfigView {
            apps: app_entries(self.apps@),
            ext: table_entries(self.ext@),
            protocol: table_entries(self.protocol@),
            picker_timeout_ms: self.settings.picker_timeout_ms,
        }
    }
}

impl Config {
    /// A configuration with no applications and no routes.
    pub fn default_config() -> (c: Config)
        ensures
            c@.apps.len() == 0,
            c@.ext.len() == 0,
            c@.protocol.len() == 0,
            c@.picker_timeout_ms == DEFAULT_PICKER_TIMEOUT_MS,
    {
        Config {
            apps: NameMap::new(),
            ext: NameMap::new(),
            protocol: NameMap::new(),
            settings: Settings::default(),
        }
    }

    /// Checks the configuration; the first problem found is reported
    /// (see `validate_config`).
    pub fn validate(&self) -> (r: Result<(), ConfigError>)
        ensures
            match r {
                Ok(()) => config_error(self@) is None,
                Err(e) => config_error(self@) == Some(e@),
            },
    {
        validate_config(self)
    }
}

// ───────────────────────── validation ─────────────────────────

/// A problem found in a configuration, with where it was found. `table` is
/// `ext.<key>` or `protocol.<key>`; `index` counts rules from 0.
#[derive(Debug)]
pub enum ConfigError {
    UnknownDefaultApp { table: String, app: String },
    UnknownCandidate { table: String, app: String },
    UnknownRuleApp { table: String, index: usize, app: String },
    AppAndPick { table: String, index: usize },
    NoAction { table: String, index: usize },
    InvalidModifier { table: String, index: usize, modifier: String },
    CatchAllNotLast { table: String, index: usize },
}

pub enum ConfigErrorView {
    UnknownDefaultApp { table: Seq<char>, app: Seq<char> },
    UnknownCandidate { table: Seq<char>, app: Seq<char> },
    UnknownRuleApp { table: Seq<char>, index: int, app: Seq<char> },
    AppAndPick { table: Seq<char>, index: int },
    NoAction { table: Seq<char>, index: int },
    InvalidModifier { table: Seq<char>, index: int, modifier: Seq<char> },
    CatchAllNotLast { table: Seq<char>, index: int },
}

impl View for ConfigError {
    type V = ConfigErrorView;

    open spec fn view(&self) -> ConfigErrorView {
        match self {
            ConfigError::UnknownDefaultApp { table, app } => ConfigErrorView::UnknownDefaultApp {
                table: table@,
                app: app@,
            },
            ConfigError::UnknownCandidate { table, app } => ConfigErrorView::UnknownCandidate {
                table: table@,
                app: app@,
            },
            ConfigError::UnknownRuleApp { table, index, app } => ConfigErrorView::UnknownRuleApp {
                table: table@,
                index: *index as int,
                app: app@,
            },
            ConfigError::AppAndPick { table, index } => ConfigErrorView::AppAndPick {
                table: table@,
                index: *index as int,
            },
            ConfigError::NoAction { table, index } => ConfigErrorView::NoAction {
                table: table@,
                index: *index as int,
            },
            ConfigError::InvalidModifier { table, index, modifier } =>
                ConfigErrorView::InvalidModifier {
                table: table@,
                index: *index as int,
                modifier: modifier@,
            },
            ConfigError::CatchAllNotLast { table, index } => ConfigErrorView::CatchAllNotLast {
                table: table@,
                index: *index as int,
            },
        }
    }
}

/// The three modifier names a rule may name, written in lower case.
pub open spec fn is_modifier_name(m: Seq<char>) -> bool {
    m == "shift"@ || m == "ctrl"@ || m == "alt"@
}

/// `[<table>] rules[<i>]`, the place of a rule in messages.
pub open spec fn rule_place(table: Seq<char>, i: int) -> Seq<char> {
    "["@ + table + "] rules["@ + decimal(i as nat) + "]"@
}

impl ConfigError {
    /// The message shown to the user.
    pub fn message(&self) -> (m: String)
        ensures
            m@ == config_error_message(self@),
    {
        match self {
            ConfigError::UnknownDefaultApp { table, app } => {
                let a = concat3("[", table.as_str(), "] default の \"");
                let b = concat3(a.as_str(), app.as_str(), "\" が [apps] に定義されていません");
                b
            },
            ConfigError::UnknownCandidate { table, app } => {
                let a = concat3("[", table.as_str(), "] candidates の \"");
                let b = concat3(a.as_str(), app.as_str(), "\" が [apps] に定義されていません");
                b
            },
            ConfigError::UnknownRuleApp { table, index, app } => {
                let at = rule_place_string(table.as_str(), *index);
                let a = concat2(at.as_str(), ": app = \"");
                concat3(a.as_str(), app.as_str(), "\" が [apps] に定義されていません")
            },
            ConfigError::AppAndPick { table, index } => {
                let at = rule_place_string(table.as_str(), *index);
                concat2(at.as_str(), ": app と pick は同時指定できません")
            },
            ConfigError::NoAction { table, index } => {
                let at = rule_place_string(table.as_str(), *index);
                concat2(at.as_str(), ": app か pick = true のどちらかが必要です")
            },
            ConfigError::InvalidModifier { table, index, modifier } => {
                let at = rule_place_string(table.as_str(), *index);
                let a = concat2(at.as_str(), ": modifier は shift / ctrl / alt のいずれかです (指定値: ");
                concat3(a.as_str(), modifier.as_str(), ")")
            },
            ConfigError::CatchAllNotLast { table, index } => {
                let at = rule_place_string(table.as_str(), *index);
                concat2(at.as_str(), ": 条件なしルール (catch-all) は最後にのみ置けます")
            },
        }
    }
}

pub open spec fn config_error_message(e: ConfigErrorView) -> Seq<char> {
    match e {
        ConfigErrorView::UnknownDefaultApp { table, app } => "["@ + table + "] default の \""@ + app
            + "\" が [apps] に定義されていません"@,
        ConfigErrorView::UnknownCandidate { table, app } => "["@ + table + "] candidates の \""@ + app
            + "\" が [apps] に定義されていません"@,
        ConfigErrorView::UnknownRuleApp { table, index, app } => rule_place(table, index)
            + ": app = \""@ + app + "\" が [apps] に定義されていません"@,
        ConfigErrorView::AppAndPick { table, index } => rule_place(table, index)
            + ": app と pick は同時指定できません"@,
        ConfigErrorView::NoAction { table, index } => rule_place(table, index)
            + ": app か pick = true のどちらかが必要です"@,
        ConfigErrorView::InvalidModifier { table, index, modifier } => rule_place(table, index)
            + ": modifier は shift / ctrl / alt のいずれかです (指定値: "@ + modifier + ")"@,
        ConfigErrorView::CatchAllNotLast { table, index } => rule_place(table, index)
            + ": 条件なしルール (catch-all) は最後にのみ置けます"@,
    }
}

fn rule_place_string(table: &str, i: usize) -> (r: String)
    ensures
        r@ == rule_place(table@, i as int),
{
    let a = concat3("[", table, "] rules[");
    let n = usize_to_string(i);
    concat3(a.as_str(), n.as_str(), "]")
}

/// The problem, if any, with rule `i` of the table named `table`, checked in
/// this order: its action, its modifier, its place if it has no condition.
pub open spec fn rule_error(
    table: Seq<char>,
    rules: Seq<RuleView>,
    i: int,
    apps: Seq<(Seq<char>, AppDefView)>,
) -> Option<ConfigErrorView> {
    let r = rules[i];
    if r.app is Some && !r.pick && !has_key(apps, r.app->0) {
        Some(ConfigErrorView::UnknownRuleApp { table, index: i, app: r.app->0 })
    } else if r.app is Some && r.pick {
        Some(ConfigErrorView::AppAndPick { table, index: i })
    } else if r.app is None && !r.pick {
        Some(ConfigErrorView::NoAction { table, index: i })
    } else if r.modifier is Some && !is_modifier_name(r.modifier->0) {
        Some(ConfigErrorView::InvalidModifier { table, index: i, modifier: r.modifier->0 })
    } else if rule_has_no_condition(r) && i + 1 < rules.len() {
        Some(ConfigErrorView::CatchAllNotLast { table, index: i })
    } else {
        None
    }
}

/// The first problem among the rules from `i` on.
pub open spec fn rules_error_from(
    table: Seq<char>,
    rules: Seq<RuleView>,
    i: int,
    apps: Seq<(Seq<char>, AppDefView)>,
) -> Option<ConfigErrorView>
    decreases rules.len() - i,
{
    if i < 0 || i >= rules.len() {
        None
    } else if rule_error(table, rules, i, apps) is Some {
        rule_error(table, rules, i, apps)
    } else {
        rules_error_from(table, rules, i + 1, apps)
    }
}

/// The first candidate from position `i` on that names no application.
pub open spec fn candidates_error_from(
    table: Seq<char>,
    candidates: Seq<Seq<char>>,
    i: int,
    apps: Seq<(Seq<char>, AppDefView)>,
) -> Option<ConfigErrorView>
    decreases candidates.len() - i,
{
    if i < 0 || i >= candidates.len() {
        None
    } else if !has_key(apps, candidates[i]) {
        Some(ConfigErrorView::UnknownCandidate { table, app: candidates[i] })
    } else {
        candidates_error_from(table, candidates, i + 1, apps)
    }
}

/// The first problem of one routing table: its default, its candidates,
/// then its rules in order.
pub open spec fn table_error(
    table: Seq<char>,
    t: RouteTableView,
    apps: Seq<(Seq<char>, AppDefView)>,
) -> Option<ConfigErrorView> {
    if t.default is Some && !has_key(apps, t.default->0) {
        Some(ConfigErrorView::UnknownDefaultApp { table, app: t.default->0 })
    } else if t.candidates is Some && candidates_error_from(table, t.candidates->0, 0, apps) is Some {
        candidates_error_from(table, t.candidates->0, 0, apps)
    } else {
        rules_error_from(table, t.rules, 0, apps)
    }
}

/// The first problem among the tables from position `i` on; each table is
/// named by `prefix` and its key.
pub open spec fn tables_error_from(
    prefix: Seq<char>,
    tables: Seq<(Seq<char>, RouteTableView)>,
    i: int,
    apps: Seq<(Seq<char>, AppDefView)>,
) -> Option<ConfigErrorView>
    decreases tables.len() - i,
{
    if i < 0 || i >= tables.len() {
        None
    } else if table_error(prefix + tables[i].0, tables[i].1, apps) is Some {
        table_error(prefix + tables[i].0, tables[i].1, apps)
    } else {
        tables_error_from(prefix, tables, i + 1, apps)
    }
}

/// The first problem of a configuration: the extension tables are checked
/// before the URL scheme tables, each kind in name order.
pub open spec fn config_error(c: ConfigView) -> Option<ConfigErrorView> {
    if tables_error_from("ext."@, c.ext, 0, c.apps) is Some {
        tables_error_from("ext."@, c.ext, 0, c.apps)
    } else {
        tables_error_from("protocol."@, c.protocol, 0, c.apps)
    }
}

fn check_rule(
    table: &str,
    rules: &Vec<Rule>,
    i: usize,
    apps: &NameMap<AppDef>,
) -> (r: Result<(), ConfigError>)
    requires
        i < rules@.len(),
    ensures
        match r {
            Ok(()) => rule_error(table@, rule_views(rules@), i as int, app_entries(apps@)) is None,
            Err(e) => rule_error(table@, rule_views(rules@), i as int, app_entries(apps@)) == Some(
                e@,
            ),
        },
{
    let rule = &rules[i];
    let ghost rv = rule_views(rules@)[i as int];
    assert(rv == rule@);
    proof {
        lemma_app_keys(apps@);
    }
    match &rule.app {
        Some(app) => {
            if rule.pick {
                return Err(ConfigError::AppAndPick { table: owned(table), index: i });
            }
            if !apps.contains_key(app.as_str()) {
                return Err(
                    ConfigError::UnknownRuleApp { table: owned(table), index: i, app: owned(app.as_str()) },
                );
            }
        },
        None => {
            if !rule.pick {
                return Err(ConfigError::NoAction { table: owned(table), index: i });
            }
        },
    }
    if let Some(m) = &rule.modifier {
        let ms = m.as_str();
        if !(str_eq(ms, "shift") || str_eq(ms, "ctrl") || str_eq(ms, "alt")) {
            return Err(
                ConfigError::InvalidModifier { table: owned(table), index: i, modifier: owned(ms) },
            );
        }
    }
    if rule.glob.is_none() && rule.host.is_none() && rule.url.is_none() && rule.modifier.is_none()
        && i < rules.len() - 1 {
        return Err(ConfigError::CatchAllNotLast { table: owned(table), index: i });
    }
    Ok(())
}

/// Names are the same in a map of definitions and in its view.
pub proof fn lemma_app_keys(m: Seq<(Seq<char>, AppDef)>)
    ensures
        forall|k: Seq<char>| has_key(app_entries(m), k) == has_key(m, k),
{
    assert forall|k: Seq<char>| has_key(app_entries(m), k) == has_key(m, k) by {
        if has_key(m, k) {
            let i = choose|i: int| 0 <= i < m.len() && m[i].0 == k;
            assert(app_entries(m)[i].0 == k);
        }
        if has_key(app_entries(m), k) {
            let i = choose|i: int| 0 <= i < app_entries(m).len() && app_entries(m)[i].0 == k;
            assert(m[i].0 == k);
        }
    }
}

fn check_table(table: &str, t: &RouteTable, apps: &NameMap<AppDef>) -> (r: Result<(), ConfigError>)
    ensures
        match r {
            Ok(()) => table_error(table@, t@, app_entries(apps@)) is None,
            Err(e) => table_error(table@, t@, app_entries(apps@)) == Some(e@),
        },
{
    proof {
        lemma_app_keys(apps@);
    }
    if let Some(app) = &t.default {
        if !apps.contains_key(app.as_str()) {
            return Err(ConfigError::UnknownDefaultApp { table: owned(table), app: owned(app.as_str()) });
        }
    }
    if let Some(candidates) = &t.candidates {
        let ghost cs = views(candidates@);
        assert(t@.candidates == Some(cs));
        let mut i: usize = 0;
        while i < candidates.len()
            invariant
                cs == views(candidates@),
                t@.candidates == Some(cs),
                t@.default is Some ==> has_key(app_entries(apps@), t@.default->0),
                i <= cs.len(),
                candidates_error_from(table@, cs, 0, app_entries(apps@)) == candidates_error_from(
                    table@,
                    cs,
                    i as int,
                    app_entries(apps@),
                ),
                forall|k: Seq<char>| has_key(app_entries(apps@), k) == has_key(apps@, k),
            decreases cs.len() - i,
        {
            let app = &candidates[i];
            assert(cs[i as int] == app@);
            if !apps.contains_key(app.as_str()) {
                return Err(ConfigError::UnknownCandidate { table: owned(table), app: owned(app.as_str()) });
            }
            i = i + 1;
        }
    }
    let ghost rs = rule_views(t.rules@);
    assert(table_error(table@, t@, app_entries(apps@)) == rules_error_from(
        table@,
        rs,
        0,
        app_entries(apps@),
    ));
    let mut i: usize = 0;
    while i < t.rules.len()
        invariant
            rs == rule_views(t.rules@),
            table_error(table@, t@, app_entries(apps@)) == rules_error_from(
                table@,
                rs,
                0,
                app_entries(apps@),
            ),
            i <= rs.len(),
            rules_error_from(table@, rs, 0, app_entries(apps@)) == rules_error_from(
                table@,
                rs,
                i as int,
                app_entries(apps@),
            ),
        decreases rs.len() - i,
    {
        match check_rule(table, &t.rules, i, apps) {
            Err(e) => {
                return Err(e);
            },
            Ok(()) => {},
        }
        i = i + 1;
    }
    Ok(())
}

fn check_tables(prefix: &str, tables: &NameMap<RouteTable>, apps: &NameMap<AppDef>) -> (r: Result<
    (),
    ConfigError,
>)
    ensures
        match r {
            Ok(()) => tables_error_from(prefix@, table_entries(tables@), 0, app_entries(apps@)) is None,
            Err(e) => tables_error_from(prefix@, table_entries(tables@), 0, app_entries(apps@))
                == Some(e@),
        },
{
    let ghost ts = table_entries(tables@);
    let mut i: usize = 0;
    while i < tables.len()
        invariant
            ts == table_entries(tables@),
            i <= ts.len(),
            tables_error_from(prefix@, ts, 0, app_entries(apps@)) == tables_error_from(
                prefix@,
                ts,
                i as int,
                app_entries(apps@),
            ),
        decreases ts.len() - i,
    {
        let name = concat2(prefix, tables.key_at(i).as_str());
        let t = tables.value_at(i);
        assert(ts[i as int].0 == tables@[i as int].0);
        assert(ts[i as int].1 == t@);
        match check_table(name.as_str(), t, apps) {
            Err(e) => {
                return Err(e);
            },
            Ok(()) => {},
        }
        i = i + 1;
    }
    Ok(())
}

/// Checks that every default, candidate and rule action names a defined
/// application, that each rule has exactly one action, that modifiers are
/// `shift`, `ctrl` or `alt`, and that a rule without conditions comes last.
/// The first problem, in the order of `config_error`, is returned.
pub fn validate_config(config: &Config) -> (r: Result<(), ConfigError>)
    ensures
        match r {
            Ok(()) => config_error(config@) is None,
            Err(e) => config_error(config@) == Some(e@),
        },
{
    match check_tables("ext.", &config.ext, &config.apps) {
        Err(e) => {
            return Err(e);
        },
        Ok(()) => {},
    }
    check_tables("protocol.", &config.protocol, &config.apps)
}

} // verus!
