//! The routing decision: which routing table a target falls under, which
//! rule of it applies (the first that matches), and what to do then.
use vstd::prelude::*;
use crate::config::{AppDef, AppDefView, Config, ConfigView, RouteTable, RouteTableView, Rule, RuleView, app_entries, config_error, copy_strings, rule_views, table_entries, tables_error_from, table_error, rules_error_from, rule_error, candidates_error_from};
use crate::env::{EnvSnapshot, expand_env, expand_seq};
use crate::glob::{glob_match, glob_matches};
use crate::name_map::{has_key, index_from, index_of_key, keys_of, lookup, lemma_index_from_found};
use crate::target::{Modifiers, Target, TargetView, pressed_spec};
use crate::text::{concat2, concat3, contains_seq, decimal, occurs_at, owned, replace_all, starts_with, replace_char, replace_char_seq, replace_str, str_eq, usize_to_string, views, lemma_views_push};

verus! {

// ───────────────────────── finding the routing table ─────────────────────────

/// Entries with the same names in the same order are found at the same place.
pub proof fn lemma_same_keys_index<A, B>(
    m1: Seq<(Seq<char>, A)>,
    m2: Seq<(Seq<char>, B)>,
    k: Seq<char>,
    from: int,
)
    requires
        m1.len() == m2.len(),
        forall|i: int| 0 <= i < m1.len() ==> m1[i].0 == m2[i].0,
    ensures
        index_from(m1, k, from) == index_from(m2, k, from),
    decreases m1.len() - from,
{
    if 0 <= from < m1.len() {
        lemma_same_keys_index(m1, m2, k, from + 1);
    }
}

/// A table found in the view of a map is the view of the table found in it.
pub proof fn lemma_lookup_table(m: Seq<(Seq<char>, RouteTable)>, k: Seq<char>)
    ensures
        lookup(table_entries(m), k) == match lookup(m, k) {
            Some(t) => Some(t@),
            None => None::<RouteTableView>,
        },
        has_key(table_entries(m), k) == has_key(m, k),
{
    lemma_same_keys_index(m, table_entries(m), k, 0);
    lemma_index_from_found(m, k, 0);
    lemma_index_from_found(table_entries(m), k, 0);
    if has_key(m, k) {
        let i = choose|i: int| 0 <= i < m.len() && m[i].0 == k;
        assert(table_entries(m)[i].0 == k);
    }
    if has_key(table_entries(m), k) {
        let i = choose|i: int| 0 <= i < table_entries(m).len() && table_entries(m)[i].0 == k;
        assert(m[i].0 == k);
    }
}

/// The same for application definitions.
pub proof fn lemma_lookup_app(m: Seq<(Seq<char>, AppDef)>, k: Seq<char>)
    ensures
        lookup(app_entries(m), k) == match lookup(m, k) {
            Some(a) => Some(a@),
            None => None::<AppDefView>,
        },
{
    lemma_same_keys_index(m, app_entries(m), k, 0);
    lemma_index_from_found(m, k, 0);
}

/// The routing table for a target with its display name: `ext.<ext>` for a
/// file with an extension, `protocol.<scheme>` for a URL.
pub open spec fn route_table_spec(c: ConfigView, t: TargetView) -> Option<(Seq<char>, RouteTableView)> {
    match t {
        TargetView::File { ext, .. } => match ext {
            Some(e) => match lookup(c.ext, e) {
                Some(tb) => Some(("ext."@ + e, tb)),
                None => None,
            },
            None => None,
        },
        TargetView::Url { scheme, .. } => match lookup(c.protocol, scheme) {
            Some(tb) => Some(("protocol."@ + scheme, tb)),
            None => None,
        },
    }
}

impl Target {
    /// The routing table for this target (see `route_table_spec`).
    pub fn route_table<'c>(&self, config: &'c Config) -> (r: Option<(String, &'c RouteTable)>)
        ensures
            match r {
                Some((name, t)) => route_table_spec(config@, self@) == Some((name@, t@)),
                None => route_table_spec(config@, self@) is None,
            },
    {
        match self {
            Target::File { ext, .. } => match ext {
                Some(e) => {
                    proof {
                        lemma_lookup_table(config.ext@, e@);
                    }
                    match config.ext.get(e.as_str()) {
                        Some(t) => Some((concat2("ext.", e.as_str()), t)),
                        None => None,
                    }
                },
                None => None,
            },
            Target::Url { scheme, .. } => {
                proof {
                    lemma_lookup_table(config.protocol@, scheme@);
                }
                match config.protocol.get(scheme.as_str()) {
                    Some(t) => Some((concat2("protocol.", scheme.as_str()), t)),
                    None => None,
                }
            },
        }
    }
}

// ───────────────────────── rules ─────────────────────────

/// Whether a rule applies: every condition it gives holds. `glob` needs a
/// file whose path matches; `host` a URL with a host that matches; `url` a
/// URL that matches; `modifier` that key held. Backslashes in a file path
/// count as `/`; a host and a URL are matched as they are.
pub open spec fn rule_matches_spec(r: RuleView, t: TargetView, m: Modifiers) -> bool {
    &&& r.glob matches Some(p) ==> (t matches TargetView::File { path, .. } && glob_matches(
        p,
        replace_char_seq(path, '\\', '/'),
    ))
    &&& r.host matches Some(p) ==> (t matches TargetView::Url { host, .. } && host matches Some(h)
        && glob_matches(p, h))
    &&& r.url matches Some(p) ==> (t matches TargetView::Url { url, .. } && glob_matches(p, url))
    &&& r.modifier matches Some(n) ==> pressed_spec(m, n)
}

/// Whether a rule applies, given the outcome of each of its glob conditions
/// (`glob_ok` for `glob`, `host_ok` for `host`, `url_ok` for `url`; an
/// outcome stands only where the target has the text that it concerns).
pub open spec fn rule_conditions_spec(
    r: RuleView,
    t: TargetView,
    m: Modifiers,
    glob_ok: bool,
    host_ok: bool,
    url_ok: bool,
) -> bool {
    &&& r.glob is Some ==> (t is File && glob_ok)
    &&& r.host is Some ==> (t matches TargetView::Url { host, .. } && host is Some && host_ok)
    &&& r.url is Some ==> (t is Url && url_ok)
    &&& r.modifier matches Some(n) ==> pressed_spec(m, n)
}

/// Decides a rule from the outcomes of its glob conditions (see
/// `rule_conditions_spec`).
pub fn rule_conditions_hold(
    rule: &Rule,
    target: &Target,
    mods: &Modifiers,
    glob_ok: bool,
    host_ok: bool,
    url_ok: bool,
) -> (b: bool)
    ensures
        b == rule_conditions_spec(rule@, target@, *mods, glob_ok, host_ok, url_ok),
{
    if rule.glob.is_some() {
        match target {
            Target::File { .. } => {
                if !glob_ok {
                    return false;
                }
            },
            _ => {
                return false;
            },
        }
    }
    if rule.host.is_some() {
        match target {
            Target::Url { host: Some(_), .. } => {
                if !host_ok {
                    return false;
                }
            },
            _ => {
                return false;
            },
        }
    }
    if rule.url.is_some() {
        match target {
            Target::Url { .. } => {
                if !url_ok {
                    return false;
                }
            },
            _ => {
                return false;
            },
        }
    }
    if let Some(m) = &rule.modifier {
        if !mods.pressed(m.as_str()) {
            return false;
        }
    }
    true
}

/// Whether `rule` applies to `target` (see `rule_matches_spec`).
pub fn rule_matches(rule: &Rule, target: &Target, mods: &Modifiers) -> (b: bool)
    ensures
        b == rule_matches_spec(rule@, target@, *mods),
{
    let mut glob_ok = true;
    let mut host_ok = true;
    let mut url_ok = true;
    if let Some(p) = &rule.glob {
        if let Target::File { path, .. } = target {
            let text = replace_char(path.as_str(), '\\', '/');
            glob_ok = glob_match(p.as_str(), text.as_str());
        }
    }
    if let Some(p) = &rule.host {
        if let Target::Url { host: Some(h), .. } = target {
            host_ok = glob_match(p.as_str(), h.as_str());
        }
    }
    if let Some(p) = &rule.url {
        if let Target::Url { url, .. } = target {
            url_ok = glob_match(p.as_str(), url.as_str());
        }
    }
    rule_conditions_hold(rule, target, mods, glob_ok, host_ok, url_ok)
}

/// The first rule from position `i` on that applies.
pub open spec fn first_match_from(rules: Seq<RuleView>, t: TargetView, m: Modifiers, i: int) -> Option<
    int,
>
    decreases rules.len() - i,
{
    if i < 0 || i >= rules.len() {
        None
    } else if rule_matches_spec(rules[i], t, m) {
        Some(i)
    } else {
        first_match_from(rules, t, m, i + 1)
    }
}

pub proof fn lemma_first_match_from(rules: Seq<RuleView>, t: TargetView, m: Modifiers, i: int)
    requires
        0 <= i,
    ensures
        first_match_from(rules, t, m, i) matches Some(k) ==> i <= k < rules.len()
            && rule_matches_spec(rules[k], t, m) && forall|j: int|
            i <= j < k ==> !rule_matches_spec(rules[j], t, m),
        first_match_from(rules, t, m, i) is None ==> forall|j: int|
            i <= j < rules.len() ==> !rule_matches_spec(rules[j], t, m),
    decreases rules.len() - i,
{
    if i < rules.len() {
        lemma_first_match_from(rules, t, m, i + 1);
    }
}

// ───────────────────────── candidates for the picker ─────────────────────────

/// The applications that the rules of a table name, in rule order.
pub open spec fn rule_apps(rules: Seq<RuleView>) -> Seq<Seq<char>>
    decreases rules.len(),
{
    if rules.len() == 0 {
        Seq::empty()
    } else {
        let prev = rule_apps(rules.drop_last());
        match rules.last().app {
            Some(a) => prev.push(a),
            None => prev,
        }
    }
}

/// The applications a table names: its default first, then each rule's.
pub open spec fn table_app_refs(t: RouteTableView) -> Seq<Seq<char>> {
    match t.default {
        Some(d) => seq![d] + rule_apps(t.rules),
        None => rule_apps(t.rules),
    }
}

/// Each name once, where it first occurs.
pub open spec fn dedup(s: Seq<Seq<char>>) -> Seq<Seq<char>>
    decreases s.len(),
{
    if s.len() == 0 {
        Seq::empty()
    } else {
        let d = dedup(s.drop_last());
        if d.contains(s.last()) {
            d
        } else {
            d.push(s.last())
        }
    }
}

/// The picker's candidates taken from a table: the applications it names,
/// each once, in the order they first appear.
pub open spec fn pick_candidates_spec(t: RouteTableView) -> Seq<Seq<char>> {
    dedup(table_app_refs(t))
}

/// The picker's candidates: the table's own non-empty `candidates` list;
/// else the applications it names; else every application.
pub open spec fn candidates_or_all_spec(c: ConfigView, t: RouteTableView) -> Seq<Seq<char>> {
    if t.candidates matches Some(cs) && cs.len() > 0 {
        t.candidates->0
    } else if pick_candidates_spec(t).len() > 0 {
        pick_candidates_spec(t)
    } else {
        keys_of(c.apps)
    }
}

/// Every application name, in name order.
pub fn all_apps(config: &Config) -> (r: Vec<String>)
    ensures
        views(r@) == keys_of(config@.apps),
{
    let r = config.apps.keys();
    assert(keys_of(config@.apps) =~= keys_of(config.apps@));
    r
}

fn contains_name(v: &Vec<String>, name: &str) -> (b: bool)
    ensures
        b == views(v@).contains(name@),
{
    let mut i: usize = 0;
    while i < v.len()
        invariant
            i <= v@.len(),
            forall|j: int| 0 <= j < i ==> v@[j]@ != name@,
        decreases v@.len() - i,
    {
        if str_eq(v[i].as_str(), name) {
            assert(views(v@)[i as int] == name@);
            return true;
        }
        i = i + 1;
    }
    assert forall|j: int| 0 <= j < views(v@).len() implies views(v@)[j] != name@ by {
        assert(views(v@)[j] == v@[j]@);
    }
    false
}

fn table_refs(table: &RouteTable) -> (r: Vec<String>)
    ensures
        views(r@) == table_app_refs(table@),
{
    let mut r: Vec<String> = Vec::new();
    if let Some(d) = &table.default {
        let ghost before = r@;
        let s = owned(d.as_str());
        r.push(s);
        proof {
            lemma_views_push(before, s);
        }
    }
    let ghost start = views(r@);
    let ghost rv = rule_views(table.rules@);
    let mut i: usize = 0;
    assert(rv.subrange(0, 0) =~= Seq::<RuleView>::empty());
    assert(start + rule_apps(rv.subrange(0, 0)) =~= start);
    while i < table.rules.len()
        invariant
            rv == rule_views(table.rules@),
            i <= rv.len(),
            views(r@) == start + rule_apps(rv.subrange(0, i as int)),
        decreases rv.len() - i,
    {
        let ghost pre = rv.subrange(0, i as int);
        let ghost next = rv.subrange(0, i + 1);
        assert(next.drop_last() =~= pre);
        assert(next.last() == table.rules@[i as int]@);
        if let Some(a) = &table.rules[i].app {
            let ghost before = r@;
            let s = owned(a.as_str());
            r.push(s);
            proof {
                lemma_views_push(before, s);
            }
        }
        i = i + 1;
    }
    assert(rv.subrange(0, i as int) =~= rv);
    match table.default {
        Some(_) => {
            assert(views(r@) =~= table_app_refs(table@));
        },
        None => {
            assert(start =~= Seq::<Seq<char>>::empty());
            assert(views(r@) =~= table_app_refs(table@));
        },
    }
    r
}

/// The picker's candidates from a table (see `pick_candidates_spec`).
pub fn pick_candidates(table: &RouteTable) -> (r: Vec<String>)
    ensures
        views(r@) == pick_candidates_spec(table@),
{
    let refs = table_refs(table);
    let ghost rs = views(refs@);
    let mut out: Vec<String> = Vec::new();
    let mut i: usize = 0;
    assert(rs.subrange(0, 0) =~= Seq::<Seq<char>>::empty());
    assert(views(out@) =~= Seq::<Seq<char>>::empty());
    while i < refs.len()
        invariant
            rs == views(refs@),
            i <= rs.len(),
            views(out@) == dedup(rs.subrange(0, i as int)),
        decreases rs.len() - i,
    {
        let name = &refs[i];
        let ghost next = rs.subrange(0, i + 1);
        assert(next.drop_last() =~= rs.subrange(0, i as int));
        assert(next.last() == name@);
        if !contains_name(&out, name.as_str()) {
            let ghost before = out@;
            let s = owned(name.as_str());
            out.push(s);
            proof {
                lemma_views_push(before, s);
            }
        }
        i = i + 1;
    }
    assert(rs.subrange(0, i as int) =~= rs);
    out
}

/// The picker's candidates (see `candidates_or_all_spec`).
pub fn candidates_or_all(config: &Config, table: &RouteTable) -> (r: Vec<String>)
    ensures
        views(r@) == candidates_or_all_spec(config@, table@),
{
    if let Some(explicit) = &table.candidates {
        if explicit.len() > 0 {
            return copy_strings(explicit);
        }
    }
    let candidates = pick_candidates(table);
    if candidates.len() == 0 {
        all_apps(config)
    } else {
        candidates
    }
}

// ───────────────────────── the decision ─────────────────────────

/// What to do with a target.
#[derive(Debug)]
pub enum Decision {
    /// Start `app`; `rule_index` is the rule that chose it, or none for the
    /// table's default.
    Launch { app: String, rule_index: Option<usize> },
    /// Let the user choose among `candidates`; `rule_index` is the `pick`
    /// rule that asked for it, or none for a fallback.
    Pick { candidates: Vec<String>, rule_index: Option<usize>, reason: String },
    /// No application is defined at all.
    NoRoute { reason: String },
}

pub enum DecisionView {
    Launch { app: Seq<char>, rule_index: Option<int> },
    Pick { candidates: Seq<Seq<char>>, rule_index: Option<int>, reason: Seq<char> },
    NoRoute { reason: Seq<char> },
}

pub open spec fn opt_index(o: Option<usize>) -> Option<int> {
    match o {
        Some(i) => Some(i as int),
        None => None,
    }
}

impl View for Decision {
    type V = DecisionView;

    open spec fn view(&self) -> DecisionView {
        match self {
            Decision::Launch { app, rule_index } => DecisionView::Launch {
                app: app@,
                rule_index: opt_index(*rule_index),
            },
            Decision::Pick { candidates, rule_index, reason } => DecisionView::Pick {
                candidates: views(candidates@),
                rule_index: opt_index(*rule_index),
                reason: reason@,
            },
            Decision::NoRoute { reason } => DecisionView::NoRoute { reason: reason@ },
        }
    }
}

pub open spec fn no_apps_reason() -> Seq<char> {
    "[apps] が 1 つも定義されていません"@
}

/// Why a target without a routing table goes to the picker.
pub open spec fn missing_table_reason(t: TargetView) -> Seq<char> {
    match t {
        TargetView::File { ext, .. } => match ext {
            Some(e) => "[ext."@ + e + "] が未定義です"@,
            None => "拡張子のないファイルです"@,
        },
        TargetView::Url { scheme, .. } => "[protocol."@ + scheme + "] が未定義です"@,
    }
}

/// The reason given when rule `i` (counted from 0) asks for the picker.
pub open spec fn pick_rule_reason(table: Seq<char>, i: int) -> Seq<char> {
    "["@ + table + "] rules["@ + decimal((i + 1) as nat) + "] の pick 指定"@
}

pub open spec fn no_default_reason(table: Seq<char>) -> Seq<char> {
    "["@ + table + "] にルール一致がなく default も未指定です"@
}

/// The decision for a target: no application at all gives no route; no
/// routing table gives the picker over every application; otherwise the
/// first rule that applies decides (its app, or the picker), then the
/// table's default, then the picker.
pub open spec fn decide(c: ConfigView, t: TargetView, m: Modifiers) -> DecisionView {
    if c.apps.len() == 0 {
        DecisionView::NoRoute { reason: no_apps_reason() }
    } else {
        match route_table_spec(c, t) {
            None => DecisionView::Pick {
                candidates: keys_of(c.apps),
                rule_index: None,
                reason: missing_table_reason(t),
            },
            Some((name, tb)) => match first_match_from(tb.rules, t, m, 0) {
                Some(i) => match tb.rules[i].app {
                    Some(a) => DecisionView::Launch { app: a, rule_index: Some(i) },
                    None => DecisionView::Pick {
                        candidates: candidates_or_all_spec(c, tb),
                        rule_index: Some(i),
                        reason: pick_rule_reason(name, i),
                    },
                },
                None => match tb.default {
                    Some(a) => DecisionView::Launch { app: a, rule_index: None },
                    None => DecisionView::Pick {
                        candidates: candidates_or_all_spec(c, tb),
                        rule_index: None,
                        reason: no_default_reason(name),
                    },
                },
            },
        }
    }
}

fn missing_table_reason_string(target: &Target) -> (r: String)
    ensures
        r@ == missing_table_reason(target@),
{
    match target {
        Target::File { ext, .. } => match ext {
            Some(e) => concat3("[ext.", e.as_str(), "] が未定義です"),
            None => owned("拡張子のないファイルです"),
        },
        Target::Url { scheme, .. } => concat3("[protocol.", scheme.as_str(), "] が未定義です"),
    }
}

/// Decides what to do with `target` (see `decide`).
pub fn evaluate(config: &Config, target: &Target, mods: &Modifiers) -> (d: Decision)
    ensures
        d@ == decide(config@, target@, *mods),
{
    if config.apps.is_empty() {
        return Decision::NoRoute { reason: owned("[apps] が 1 つも定義されていません") };
    }
    let (table_name, table) = match target.route_table(config) {
        Some(found) => found,
        None => {
            let reason = missing_table_reason_string(target);
            return Decision::Pick { candidates: all_apps(config), rule_index: None, reason };
        },
    };
    let ghost rv = rule_views(table.rules@);
    let mut i: usize = 0;
    while i < table.rules.len()
        invariant
            rv == rule_views(table.rules@),
            config@.apps.len() > 0,
            route_table_spec(config@, target@) == Some((table_name@, table@)),
            i <= rv.len(),
            first_match_from(rv, target@, *mods, 0) == first_match_from(rv, target@, *mods, i as int),
        decreases rv.len() - i,
    {
        let rule = &table.rules[i];
        assert(rv[i as int] == rule@);
        if rule_matches(rule, target, mods) {
            return match &rule.app {
                Some(app) => Decision::Launch { app: owned(app.as_str()), rule_index: Some(i) },
                None => {
                    let n = usize_to_string(i + 1);
                    let a = concat3("[", table_name.as_str(), "] rules[");
                    let reason = concat3(a.as_str(), n.as_str(), "] の pick 指定");
                    Decision::Pick {
                        candidates: candidates_or_all(config, table),
                        rule_index: Some(i),
                        reason,
                    }
                },
            };
        }
        i = i + 1;
    }
    match &table.default {
        Some(app) => Decision::Launch { app: owned(app.as_str()), rule_index: None },
        None => Decision::Pick {
            candidates: candidates_or_all(config, table),
            rule_index: None,
            reason: concat3("[", table_name.as_str(), "] にルール一致がなく default も未指定です"),
        },
    }
}

// ───────────────────────── the command line ─────────────────────────

/// The program and arguments to start: both with `%VAR%` expanded, and
/// `{target}` in each argument replaced by the target; no arguments at all
/// means the target alone.
pub open spec fn command_line_spec(
    a: AppDefView,
    target: Seq<char>,
    env: Seq<(Seq<char>, Seq<char>)>,
) -> (Seq<char>, Seq<Seq<char>>) {
    (
        expand_seq(a.cmd, env),
        if a.args.len() == 0 {
            seq![target]
        } else {
            Seq::new(
                a.args.len(),
                |i: int| replace_all(expand_seq(a.args[i], env), "{target}"@, target),
            )
        },
    )
}

/// Builds the command line for `app` opening `target` (see
/// `command_line_spec`).
pub fn build_command_line(app: &AppDef, target: &str, env: &EnvSnapshot) -> (r: (String, Vec<String>))
    ensures
        (r.0@, views(r.1@)) == command_line_spec(app@, target@, env@),
{
    let program = expand_env(app.cmd.as_str(), env);
    let mut args: Vec<String> = Vec::new();
    if app.args.len() == 0 {
        let ghost before = args@;
        let t = owned(target);
        args.push(t);
        proof {
            lemma_views_push(before, t);
            assert(views(args@) =~= seq![target@]);
        }
        return (program, args);
    }
    let placeholder = "{target}";
    proof {
        reveal_strlit("{target}");
    }
    let ghost spec_args = command_line_spec(app@, target@, env@).1;
    let mut i: usize = 0;
    while i < app.args.len()
        invariant
            i <= app.args@.len(),
            app.args@.len() > 0,
            placeholder@ == "{target}"@,
            placeholder@.len() > 0,
            spec_args == command_line_spec(app@, target@, env@).1,
            spec_args.len() == app.args@.len(),
            views(args@) == spec_args.subrange(0, i as int),
        decreases app.args@.len() - i,
    {
        let expanded = expand_env(app.args[i].as_str(), env);
        let replaced = replace_str(expanded.as_str(), placeholder, target);
        let ghost before = args@;
        args.push(replaced);
        proof {
            lemma_views_push(before, replaced);
            assert(spec_args[i as int] == replace_all(
                expand_seq(app@.args[i as int], env@),
                "{target}"@,
                target@,
            ));
            assert(views(args@) =~= spec_args.subrange(0, i + 1));
        }
        i = i + 1;
    }
    assert(spec_args.subrange(0, i as int) =~= spec_args);
    (program, args)
}

// ───────────────────────── laws ─────────────────────────

/// Rules are tried from the first: a decision made by rule `i` comes from a
/// rule that applies, and no rule before it applies. A launch without a rule
/// index starts the table's default, and no rule applies then.
pub proof fn law_first_match_wins(c: ConfigView, t: TargetView, m: Modifiers)
    ensures
        match decide(c, t, m) {
            DecisionView::Launch { app, rule_index } => match rule_index {
                Some(i) => route_table_spec(c, t) matches Some((name, tb)) && 0 <= i < tb.rules.len()
                    && rule_matches_spec(tb.rules[i], t, m) && tb.rules[i].app == Some(app) && (forall|j: int|
                    0 <= j < i ==> !rule_matches_spec(tb.rules[j], t, m)),
                None => route_table_spec(c, t) matches Some((name, tb)) && tb.default == Some(app) && (
                forall|j: int| 0 <= j < tb.rules.len() ==> !rule_matches_spec(tb.rules[j], t, m)),
            },
            DecisionView::Pick { rule_index, .. } => match rule_index {
                Some(i) => route_table_spec(c, t) matches Some((name, tb)) && 0 <= i < tb.rules.len()
                    && rule_matches_spec(tb.rules[i], t, m) && tb.rules[i].app is None && (forall|j: int|
                    0 <= j < i ==> !rule_matches_spec(tb.rules[j], t, m)),
                None => true,
            },
            DecisionView::NoRoute { .. } => c.apps.len() == 0,
        },
{
    if let Some((name, tb)) = route_table_spec(c, t) {
        lemma_first_match_from(tb.rules, t, m, 0);
    }
}

/// `dedup` keeps exactly the names of its input, each once.
pub proof fn law_dedup_distinct_same_names(s: Seq<Seq<char>>)
    ensures
        forall|i: int, j: int| 0 <= i < j < dedup(s).len() ==> dedup(s)[i] != dedup(s)[j],
        forall|x: Seq<char>|
            #![trigger dedup(s).contains(x)]
            #![trigger s.contains(x)]
            dedup(s).contains(x) <==> s.contains(x),
    decreases s.len(),
{
    if s.len() > 0 {
        let d = dedup(s.drop_last());
        law_dedup_distinct_same_names(s.drop_last());
        assert forall|x: Seq<char>| dedup(s).contains(x) <==> s.contains(x) by {
            // every name kept in `d` stays kept
            if d.contains(x) {
                let i = choose|i: int| 0 <= i < d.len() && d[i] == x;
                if !d.contains(s.last()) {
                    assert(dedup(s)[i] == x);
                }
                assert(dedup(s).contains(x));
                assert(s.drop_last().contains(x));
                let k = choose|k: int| 0 <= k < s.drop_last().len() && s.drop_last()[k] == x;
                assert(s[k] == x);
            }
            if x == s.last() {
                assert(s[s.len() - 1] == x);
                if !d.contains(x) {
                    assert(dedup(s)[dedup(s).len() - 1] == x);
                }
            }
            if s.contains(x) && x != s.last() {
                let k = choose|k: int| 0 <= k < s.len() && s[k] == x;
                assert(k < s.len() - 1);
                assert(s.drop_last()[k] == x);
                assert(s.drop_last().contains(x));
                assert(d.contains(x));
            }
            if dedup(s).contains(x) && !d.contains(x) {
                let i = choose|i: int| 0 <= i < dedup(s).len() && dedup(s)[i] == x;
                if i < d.len() {
                    assert(d[i] == x);
                }
            }
        }
        if !d.contains(s.last()) {
            assert forall|i: int, j: int| 0 <= i < j < dedup(s).len() implies dedup(s)[i]
                != dedup(s)[j] by {
                if j == d.len() {
                    assert(d[i] == dedup(s)[i]);
                }
            }
        }
    }
}

/// The picker's candidates from a table name each application once, and
/// exactly the applications that the table names.
pub proof fn law_pick_candidates_distinct(t: RouteTableView)
    ensures
        forall|i: int, j: int|
            0 <= i < j < pick_candidates_spec(t).len() ==> pick_candidates_spec(t)[i]
                != pick_candidates_spec(t)[j],
        forall|x: Seq<char>|
            #![trigger pick_candidates_spec(t).contains(x)]
            #![trigger table_app_refs(t).contains(x)]
            pick_candidates_spec(t).contains(x) <==> table_app_refs(t).contains(x),
{
    law_dedup_distinct_same_names(table_app_refs(t));
}

proof fn lemma_rule_apps_member(rules: Seq<RuleView>, x: Seq<char>)
    requires
        rule_apps(rules).contains(x),
    ensures
        exists|i: int| 0 <= i < rules.len() && rules[i].app == Some(x),
    decreases rules.len(),
{
    if rules.len() > 0 {
        let prev = rule_apps(rules.drop_last());
        if prev.contains(x) {
            lemma_rule_apps_member(rules.drop_last(), x);
            let i = choose|i: int| 0 <= i < rules.drop_last().len() && rules.drop_last()[i].app == Some(x);
            assert(rules[i].app == Some(x));
        } else {
            assert(rules[rules.len() - 1].app == Some(x));
        }
    }
}

proof fn lemma_tables_ok(
    prefix: Seq<char>,
    tables: Seq<(Seq<char>, RouteTableView)>,
    apps: Seq<(Seq<char>, AppDefView)>,
    from: int,
    i: int,
)
    requires
        0 <= from <= i < tables.len(),
        tables_error_from(prefix, tables, from, apps) is None,
    ensures
        table_error(prefix + tables[i].0, tables[i].1, apps) is None,
    decreases i - from,
{
    if from < i {
        lemma_tables_ok(prefix, tables, apps, from + 1, i);
    }
}

proof fn lemma_rules_ok(
    table: Seq<char>,
    rules: Seq<RuleView>,
    apps: Seq<(Seq<char>, AppDefView)>,
    from: int,
    i: int,
)
    requires
        0 <= from <= i < rules.len(),
        rules_error_from(table, rules, from, apps) is None,
    ensures
        rule_error(table, rules, i, apps) is None,
    decreases i - from,
{
    if from < i {
        lemma_rules_ok(table, rules, apps, from + 1, i);
    }
}

proof fn lemma_candidates_ok(
    table: Seq<char>,
    cs: Seq<Seq<char>>,
    apps: Seq<(Seq<char>, AppDefView)>,
    from: int,
    i: int,
)
    requires
        0 <= from <= i < cs.len(),
        candidates_error_from(table, cs, from, apps) is None,
    ensures
        has_key(apps, cs[i]),
    decreases i - from,
{
    if from < i {
        lemma_candidates_ok(table, cs, apps, from + 1, i);
    }
}

/// Every name that a table without problems refers to is a defined application.
proof fn lemma_table_refs_defined(
    name: Seq<char>,
    tb: RouteTableView,
    apps: Seq<(Seq<char>, AppDefView)>,
)
    requires
        table_error(name, tb, apps) is None,
    ensures
        forall|x: Seq<char>| table_app_refs(tb).contains(x) ==> has_key(apps, x),
        forall|x: Seq<char>| pick_candidates_spec(tb).contains(x) ==> has_key(apps, x),
        tb.candidates matches Some(cs) ==> forall|i: int| 0 <= i < cs.len() ==> has_key(apps, cs[i]),
        forall|i: int| 0 <= i < tb.rules.len() && tb.rules[i].app is Some ==> has_key(
            apps,
            tb.rules[i].app->0,
        ),
{
    assert forall|i: int| 0 <= i < tb.rules.len() && tb.rules[i].app is Some implies has_key(
        apps,
        tb.rules[i].app->0,
    ) by {
        lemma_rules_ok(name, tb.rules, apps, 0, i);
    }
    if let Some(cs) = tb.candidates {
        assert forall|i: int| 0 <= i < cs.len() implies has_key(apps, cs[i]) by {
            lemma_candidates_ok(name, cs, apps, 0, i);
        }
    }
    assert forall|x: Seq<char>| table_app_refs(tb).contains(x) implies has_key(apps, x) by {
        match tb.default {
            Some(d) => {
                let k = choose|k: int| 0 <= k < table_app_refs(tb).len() && table_app_refs(tb)[k] == x;
                if k == 0 {
                } else {
                    assert(rule_apps(tb.rules)[k - 1] == x);
                    lemma_rule_apps_member(tb.rules, x);
                }
            },
            None => {
                lemma_rule_apps_member(tb.rules, x);
            },
        }
    }
    law_pick_candidates_distinct(tb);
}

proof fn lemma_keys_defined(apps: Seq<(Seq<char>, AppDefView)>)
    ensures
        forall|i: int| 0 <= i < keys_of(apps).len() ==> has_key(apps, keys_of(apps)[i]),
{
    assert forall|i: int| 0 <= i < keys_of(apps).len() implies has_key(apps, keys_of(apps)[i]) by {
        assert(apps[i].0 == keys_of(apps)[i]);
    }
}

/// The table that a target is routed by has no problems when the whole
/// configuration has none.
proof fn lemma_route_table_ok(c: ConfigView, t: TargetView)
    requires
        config_error(c) is None,
    ensures
        route_table_spec(c, t) matches Some((name, tb)) ==> table_error(name, tb, c.apps) is None,
{
    match t {
        TargetView::File { ext, .. } => {
            if let Some(e) = ext {
                lemma_index_from_found(c.ext, e, 0);
                if let Some(i) = index_of_key(c.ext, e) {
                    lemma_tables_ok("ext."@, c.ext, c.apps, 0, i);
                }
            }
        },
        TargetView::Url { scheme, .. } => {
            lemma_index_from_found(c.protocol, scheme, 0);
            if let Some(i) = index_of_key(c.protocol, scheme) {
                lemma_tables_ok("protocol."@, c.protocol, c.apps, 0, i);
            }
        },
    }
}

/// The application a decision launches, if any, is defined.
pub open spec fn launched_app_defined(c: ConfigView, d: DecisionView) -> bool {
    d matches DecisionView::Launch { app, .. } ==> has_key(c.apps, app)
}

/// Every application that a decision launches or offers is defined.
pub open spec fn decision_apps_defined(c: ConfigView, d: DecisionView) -> bool {
    match d {
        DecisionView::Launch { app, .. } => has_key(c.apps, app),
        DecisionView::Pick { candidates, .. } => forall|i: int|
            0 <= i < candidates.len() ==> has_key(c.apps, candidates[i]),
        DecisionView::NoRoute { .. } => true,
    }
}

/// With a configuration that passes validation, every application that a
/// decision launches or offers is defined.
pub proof fn law_validated_routes_name_defined_apps(c: ConfigView, t: TargetView, m: Modifiers)
    requires
        config_error(c) is None,
    ensures
        decision_apps_defined(c, decide(c, t, m)),
{
    lemma_keys_defined(c.apps);
    lemma_route_table_ok(c, t);
    if let Some((name, tb)) = route_table_spec(c, t) {
        lemma_table_refs_defined(name, tb, c.apps);
        lemma_first_match_from(tb.rules, t, m, 0);
        let cands = candidates_or_all_spec(c, tb);
        assert forall|i: int| 0 <= i < cands.len() implies has_key(c.apps, cands[i]) by {
            if tb.candidates matches Some(cs) && cs.len() > 0 {
            } else if pick_candidates_spec(tb).len() > 0 {
                assert(pick_candidates_spec(tb).contains(cands[i]));
            } else {
            }
        }
    }
}

// ───────────────────────── laws of the picker's candidates ─────────────────────────

proof fn lemma_rule_apps_complete(rules: Seq<RuleView>, i: int, x: Seq<char>)
    requires
        0 <= i < rules.len(),
        rules[i].app == Some(x),
    ensures
        rule_apps(rules).contains(x),
    decreases rules.len(),
{
    let prev = rule_apps(rules.drop_last());
    if i < rules.len() - 1 {
        assert(rules.drop_last()[i] == rules[i]);
        lemma_rule_apps_complete(rules.drop_last(), i, x);
        let k = choose|k: int| 0 <= k < prev.len() && prev[k] == x;
        match rules.last().app {
            Some(a) => {
                assert(prev.push(a)[k] == x);
            },
            None => {},
        }
    } else {
        assert(prev.push(x)[prev.len() as int] == x);
    }
}

/// A name occurs among the names a table refers to exactly when it is the
/// table's default or some rule's application.
proof fn lemma_table_refs_member(t: RouteTableView, x: Seq<char>)
    ensures
        table_app_refs(t).contains(x) <==> (t.default == Some(x) || exists|i: int|
            0 <= i < t.rules.len() && t.rules[i].app == Some(x)),
{
    let ra = rule_apps(t.rules);
    if ra.contains(x) {
        lemma_rule_apps_member(t.rules, x);
    }
    if exists|i: int| 0 <= i < t.rules.len() && t.rules[i].app == Some(x) {
        let i = choose|i: int| 0 <= i < t.rules.len() && t.rules[i].app == Some(x);
        lemma_rule_apps_complete(t.rules, i, x);
    }
    match t.default {
        Some(d) => {
            let all = seq![d] + ra;
            assert(all[0] == d);
            if ra.contains(x) {
                let k = choose|k: int| 0 <= k < ra.len() && ra[k] == x;
                assert(all[k + 1] == x);
            }
            if all.contains(x) && x != d {
                let k = choose|k: int| 0 <= k < all.len() && all[k] == x;
                assert(k > 0);
                assert(ra[k - 1] == x);
            }
        },
        None => {},
    }
}

proof fn lemma_dedup_first(s: Seq<Seq<char>>)
    requires
        s.len() > 0,
    ensures
        dedup(s).len() > 0,
        dedup(s)[0] == s[0],
    decreases s.len(),
{
    if s.len() == 1 {
        assert(s.drop_last() =~= Seq::<Seq<char>>::empty());
        assert(dedup(s.drop_last()) =~= Seq::<Seq<char>>::empty());
    } else {
        lemma_dedup_first(s.drop_last());
        assert(s.drop_last()[0] == s[0]);
    }
}

/// The picker's candidates. Without a routing table: every application.
/// With one, whether a rule asked for the picker or no rule applied and
/// there is no default: the table's own non-empty `candidates` list; else,
/// when the table names any application, exactly the applications it names
/// (its default and its rules' applications), each once, the default first;
/// only when it names none, every application.
pub proof fn law_pick_candidates_from_table(c: ConfigView, t: TargetView, m: Modifiers)
    ensures
        decide(c, t, m) matches DecisionView::Pick { candidates, .. } ==> match route_table_spec(c, t) {
            None => candidates == keys_of(c.apps),
            Some((_, tb)) => if tb.candidates is Some && tb.candidates->0.len() > 0 {
                candidates == tb.candidates->0
            } else if tb.default is Some || exists|i: int|
                0 <= i < tb.rules.len() && tb.rules[i].app is Some {
                &&& forall|x: Seq<char>|
                    #![trigger candidates.contains(x)]
                    candidates.contains(x) <==> (tb.default == Some(x) || exists|i: int|
                        0 <= i < tb.rules.len() && tb.rules[i].app == Some(x))
                &&& forall|i: int, j: int|
                    0 <= i < j < candidates.len() ==> candidates[i] != candidates[j]
                &&& tb.default matches Some(d) ==> candidates.len() > 0 && candidates[0] == d
            } else {
                candidates == keys_of(c.apps)
            },
        },
{
    if let DecisionView::Pick { candidates, .. } = decide(c, t, m) {
        if let Some((name, tb)) = route_table_spec(c, t) {
            if !(tb.candidates is Some && tb.candidates->0.len() > 0) {
                let refs = table_app_refs(tb);
                law_pick_candidates_distinct(tb);
                assert(candidates_or_all_spec(c, tb) == candidates);
                if tb.default is Some || exists|i: int|
                    0 <= i < tb.rules.len() && tb.rules[i].app is Some {
                    let x0 = if tb.default is Some {
                        tb.default->0
                    } else {
                        let i = choose|i: int| 0 <= i < tb.rules.len() && tb.rules[i].app is Some;
                        tb.rules[i].app->0
                    };
                    lemma_table_refs_member(tb, x0);
                    assert(pick_candidates_spec(tb).contains(x0));
                    assert(pick_candidates_spec(tb).len() > 0);
                    assert(candidates == pick_candidates_spec(tb));
                    assert forall|x: Seq<char>| #[trigger] candidates.contains(x) <==> (tb.default
                        == Some(x) || exists|i: int| 0 <= i < tb.rules.len() && tb.rules[i].app
                        == Some(x)) by {
                        lemma_table_refs_member(tb, x);
                    }
                    if let Some(d) = tb.default {
                        assert(refs == seq![d] + rule_apps(tb.rules));
                        lemma_dedup_first(refs);
                    }
                } else {
                    if pick_candidates_spec(tb).len() > 0 {
                        let x = pick_candidates_spec(tb)[0];
                        assert(pick_candidates_spec(tb).contains(x));
                        lemma_table_refs_member(tb, x);
                    }
                }
            }
        }
    }
}

// ───────────────────────── laws of validation ─────────────────────────

proof fn lemma_rules_error_found(
    table: Seq<char>,
    rules: Seq<RuleView>,
    apps: Seq<(Seq<char>, AppDefView)>,
    i: int,
)
    requires
        0 <= i < rules.len(),
        rule_error(table, rules, i, apps) is Some,
    ensures
        rules_error_from(table, rules, 0, apps) is Some,
{
    if rules_error_from(table, rules, 0, apps) is None {
        lemma_rules_ok(table, rules, apps, 0, i);
    }
}

proof fn lemma_tables_error_found(
    prefix: Seq<char>,
    tables: Seq<(Seq<char>, RouteTableView)>,
    apps: Seq<(Seq<char>, AppDefView)>,
    k: int,
)
    requires
        0 <= k < tables.len(),
        table_error(prefix + tables[k].0, tables[k].1, apps) is Some,
    ensures
        tables_error_from(prefix, tables, 0, apps) is Some,
{
    if tables_error_from(prefix, tables, 0, apps) is None {
        lemma_tables_ok(prefix, tables, apps, 0, k);
    }
}

/// A rule with no condition (no glob, host, url or modifier) matches every
/// target, so it may only be a table's last rule: a configuration with one
/// anywhere before the last rule of an extension or scheme table is refused.
pub proof fn law_catch_all_only_last(c: ConfigView, in_protocol: bool, k: int, i: int)
    requires
        0 <= k < (if in_protocol { c.protocol.len() } else { c.ext.len() }),
        ({
            let tb = if in_protocol { c.protocol[k].1 } else { c.ext[k].1 };
            &&& 0 <= i
            &&& i + 1 < tb.rules.len()
            &&& tb.rules[i].glob is None
            &&& tb.rules[i].host is None
            &&& tb.rules[i].url is None
            &&& tb.rules[i].modifier is None
        }),
    ensures
        config_error(c) is Some,
{
    let prefix = if in_protocol { "protocol."@ } else { "ext."@ };
    let tables = if in_protocol { c.protocol } else { c.ext };
    let tb = tables[k].1;
    let name = prefix + tables[k].0;
    assert(rule_error(name, tb.rules, i, c.apps) is Some);
    lemma_rules_error_found(name, tb.rules, c.apps, i);
    assert(table_error(name, tb, c.apps) is Some);
    lemma_tables_error_found(prefix, tables, c.apps, k);
}

// ───────────────────────── laws of the command line ─────────────────────────

proof fn lemma_replace_absent(s: Seq<char>, pat: Seq<char>, rep: Seq<char>)
    requires
        !contains_seq(s, pat),
    ensures
        replace_all(s, pat, rep) == s,
    decreases s.len(),
{
    if pat.len() > 0 && s.len() > 0 {
        if starts_with(s, pat) {
            assert(occurs_at(s, pat, 0));
        }
        if contains_seq(s.drop_first(), pat) {
            let k = choose|k: int| occurs_at(s.drop_first(), pat, k);
            assert(s.subrange(k + 1, k + 1 + pat.len()) =~= s.drop_first().subrange(k, k + pat.len()));
            assert(occurs_at(s, pat, k + 1));
        }
        lemma_replace_absent(s.drop_first(), pat, rep);
        assert(s =~= seq![s[0]] + s.drop_first());
    }
}

/// The program is the command with its variables expanded; with no
/// arguments configured the target is the one argument; otherwise there is
/// one argument per configured one, each with its variables expanded, so an
/// argument without `{target}` comes out as its expansion, and the argument
/// `{target}` alone comes out as the target.
pub proof fn law_command_line_expands_args(a: AppDefView, target: Seq<char>, env: Seq<(Seq<char>, Seq<char>)>)
    ensures
        command_line_spec(a, target, env).0 == expand_seq(a.cmd, env),
        a.args.len() == 0 ==> command_line_spec(a, target, env).1 == seq![target],
        a.args.len() > 0 ==> command_line_spec(a, target, env).1.len() == a.args.len(),
        forall|i: int|
            0 <= i < a.args.len() && !contains_seq(expand_seq(a.args[i], env), "{target}"@)
                ==> #[trigger] command_line_spec(a, target, env).1[i] == expand_seq(a.args[i], env),
        forall|i: int|
            0 <= i < a.args.len() && a.args[i] == "{target}"@ ==> #[trigger] command_line_spec(
                a,
                target,
                env,
            ).1[i] == target,
{
    assert forall|i: int|
        0 <= i < a.args.len() && !contains_seq(expand_seq(a.args[i], env), "{target}"@)
            implies #[trigger] command_line_spec(a, target, env).1[i] == expand_seq(a.args[i], env) by {
        lemma_replace_absent(expand_seq(a.args[i], env), "{target}"@, target);
    }
    assert forall|i: int| 0 <= i < a.args.len() && a.args[i] == "{target}"@ implies #[trigger] command_line_spec(
        a,
        target,
        env,
    ).1[i] == target by {
        lemma_target_arg(target, env);
    }
}

proof fn lemma_target_arg(target: Seq<char>, env: Seq<(Seq<char>, Seq<char>)>)
    ensures
        replace_all(expand_seq("{target}"@, env), "{target}"@, target) == target,
{
    reveal_strlit("{target}");
    let p = "{target}"@;
    assert(!p.contains('%')) by {
        if p.contains('%') {
            let k = choose|k: int| 0 <= k < p.len() && p[k] == '%';
            assert(p[k] != '%');
        }
    }
    crate::env::law_expand_without_percent(p, env);
    assert(starts_with(p, p)) by {
        assert(p.subrange(0, p.len() as int) =~= p);
    }
    assert(p.skip(p.len() as int) =~= Seq::<char>::empty());
    assert(replace_all(p, p, target) == target + replace_all(Seq::<char>::empty(), p, target));
    assert(target + Seq::<char>::empty() =~= target);
}

} // verus!
