//! Checks run before the settings screen saves a configuration. Unlike
//! `validate_config`, every problem is reported, in a fixed order.
use vstd::prelude::*;
use crate::config::{AppDef, AppDefView, Config, ConfigView, RouteTable, RouteTableView, Rule, RuleView, app_entries, is_modifier_name, lemma_app_keys, rule_views};
use crate::name_map::{NameMap, has_key};
use crate::text::{chars_of, is_alnum, is_ascii_alnum, lower_seq, lowercase, owned, str_eq, views};

verus! {

#[derive(Debug, Clone, PartialEq, Eq)]
pub enum ValidationError {
    DuplicateAppName(String),
    InvalidAppName(String),
    EmptyCmd(String),
    DuplicateExt(String),
    InvalidExtKey(String),
    DuplicateProtocol(String),
    InvalidProtocolScheme(String),
    InvalidModifier(String),
    UnknownDefaultApp { section: String, key: String, app: String },
    UnknownCandidate { section: String, key: String, app: String },
    UnknownRuleApp { section: String, key: String, rule_idx: usize, app: String },
    RuleHasNoAction { section: String, key: String, rule_idx: usize },
    EmptyRule { section: String, key: String, rule_idx: usize },
    EmptyCandidates(String),
}

pub enum ValidationErrorView {
    DuplicateAppName(Seq<char>),
    InvalidAppName(Seq<char>),
    EmptyCmd(Seq<char>),
    DuplicateExt(Seq<char>),
    InvalidExtKey(Seq<char>),
    DuplicateProtocol(Seq<char>),
    InvalidProtocolScheme(Seq<char>),
    InvalidModifier(Seq<char>),
    UnknownDefaultApp { section: Seq<char>, key: Seq<char>, app: Seq<char> },
    UnknownCandidate { section: Seq<char>, key: Seq<char>, app: Seq<char> },
    UnknownRuleApp { section: Seq<char>, key: Seq<char>, rule_idx: int, app: Seq<char> },
    RuleHasNoAction { section: Seq<char>, key: Seq<char>, rule_idx: int },
    EmptyRule { section: Seq<char>, key: Seq<char>, rule_idx: int },
    EmptyCandidates(Seq<char>),
}

impl View for ValidationError {
    type V = ValidationErrorView;

    open spec fn view(&self) -> ValidationErrorView {
        match self {
            ValidationError::DuplicateAppName(s) => ValidationErrorView::DuplicateAppName(s@),
            ValidationError::InvalidAppName(s) => ValidationErrorView::InvalidAppName(s@),
            ValidationError::EmptyCmd(s) => ValidationErrorView::EmptyCmd(s@),
            ValidationError::DuplicateExt(s) => ValidationErrorView::DuplicateExt(s@),
            ValidationError::InvalidExtKey(s) => ValidationErrorView::InvalidExtKey(s@),
            ValidationError::DuplicateProtocol(s) => ValidationErrorView::DuplicateProtocol(s@),
            ValidationError::InvalidProtocolScheme(s) => ValidationErrorView::InvalidProtocolScheme(
                s@,
            ),
            ValidationError::InvalidModifier(s) => ValidationErrorView::InvalidModifier(s@),
            ValidationError::UnknownDefaultApp { section, key, app } =>
                ValidationErrorView::UnknownDefaultApp { section: section@, key: key@, app: app@ },
            ValidationError::UnknownCandidate { section, key, app } =>
                ValidationErrorView::UnknownCandidate { section: section@, key: key@, app: app@ },
            ValidationError::UnknownRuleApp { section, key, rule_idx, app } =>
                ValidationErrorView::UnknownRuleApp {
                section: section@,
                key: key@,
                rule_idx: *rule_idx as int,
                app: app@,
            },
            ValidationError::RuleHasNoAction { section, key, rule_idx } =>
                ValidationErrorView::RuleHasNoAction {
                section: section@,
                key: key@,
                rule_idx: *rule_idx as int,
            },
            ValidationError::EmptyRule { section, key, rule_idx } => ValidationErrorView::EmptyRule {
                section: section@,
                key: key@,
                rule_idx: *rule_idx as int,
            },
            ValidationError::EmptyCandidates(s) => ValidationErrorView::EmptyCandidates(s@),
        }
    }
}

pub open spec fn error_views(v: Seq<ValidationError>) -> Seq<ValidationErrorView> {
    v.map_values(|e: ValidationError| e@)
}

// ───────────────────────── names and keys ─────────────────────────

/// Unicode white space, as `char::is_whitespace` has it.
pub open spec fn is_white(c: char) -> bool {
    ('\u{9}' <= c && c <= '\u{d}') || c == ' ' || c == '\u{85}' || c == '\u{a0}' || c == '\u{1680}'
        || ('\u{2000}' <= c && c <= '\u{200a}') || c == '\u{2028}' || c == '\u{2029}' || c
        == '\u{202f}' || c == '\u{205f}' || c == '\u{3000}'
}

/// Nothing but white space (or nothing at all).
pub open spec fn is_blank(s: Seq<char>) -> bool {
    forall|i: int| 0 <= i < s.len() ==> is_white(s[i])
}

/// An application name: not empty; letters, digits, `_` and `-`.
pub open spec fn app_name_ok(s: Seq<char>) -> bool {
    s.len() > 0 && forall|i: int| 0 <= i < s.len() ==> (is_ascii_alnum(s[i]) || s[i] == '_' || s[i]
        == '-')
}

/// An extension key, with or without a leading `.`: letters and digits, at
/// least one.
pub open spec fn ext_key_ok(s: Seq<char>) -> bool {
    ext_name(s).len() > 0 && forall|i: int| 0 <= i < ext_name(s).len() ==> is_ascii_alnum(ext_name(s)[i])
}

/// An extension key without its leading `.`.
pub open spec fn ext_name(s: Seq<char>) -> Seq<char> {
    if s.len() > 0 && s[0] == '.' {
        s.skip(1)
    } else {
        s
    }
}

/// A URL scheme key: not empty; letters, digits, `+`, `-` and `.`.
pub open spec fn scheme_key_ok(s: Seq<char>) -> bool {
    s.len() > 0 && forall|i: int| 0 <= i < s.len() ==> (is_ascii_alnum(s[i]) || s[i] == '+' || s[i]
        == '-' || s[i] == '.')
}

fn white(c: char) -> (b: bool)
    ensures
        b == is_white(c),
{
    ('\u{9}' <= c && c <= '\u{d}') || c == ' ' || c == '\u{85}' || c == '\u{a0}' || c == '\u{1680}'
        || ('\u{2000}' <= c && c <= '\u{200a}') || c == '\u{2028}' || c == '\u{2029}' || c
        == '\u{202f}' || c == '\u{205f}' || c == '\u{3000}'
}

fn blank(s: &str) -> (b: bool)
    ensures
        b == is_blank(s@),
{
    let cs = chars_of(s);
    let mut i: usize = 0;
    while i < cs.len()
        invariant
            cs@ == s@,
            i <= cs@.len(),
            forall|j: int| 0 <= j < i ==> is_white(cs@[j]),
        decreases cs@.len() - i,
    {
        if !white(cs[i]) {
            return false;
        }
        i = i + 1;
    }
    true
}

/// Whether every character of `cs[from..]` is a letter or a digit, or one of
/// `extra`.
fn all_chars_in(cs: &Vec<char>, from: usize, extra: &Vec<char>) -> (b: bool)
    requires
        from <= cs@.len(),
    ensures
        b == forall|i: int| from <= i < cs@.len() ==> (is_ascii_alnum(cs@[i]) || extra@.contains(cs@[i])),
{
    let mut i = from;
    while i < cs.len()
        invariant
            from <= i <= cs@.len(),
            forall|j: int| from <= j < i ==> (is_ascii_alnum(cs@[j]) || extra@.contains(cs@[j])),
        decreases cs@.len() - i,
    {
        let c = cs[i];
        let mut found = false;
        let mut k: usize = 0;
        while k < extra.len()
            invariant
                k <= extra@.len(),
                found == exists|j: int| 0 <= j < k && extra@[j] == c,
            decreases extra@.len() - k,
        {
            if extra[k] == c {
                found = true;
            }
            k = k + 1;
        }
        if !(is_alnum(c) || found) {
            return false;
        }
        i = i + 1;
    }
    true
}

fn is_valid_app_name(s: &str) -> (b: bool)
    ensures
        b == app_name_ok(s@),
{
    let cs = chars_of(s);
    let extra: Vec<char> = vec!['_', '-'];
    let r = cs.len() > 0 && all_chars_in(&cs, 0, &extra);
    proof {
        assert forall|c: char| extra@.contains(c) <==> (c == '_' || c == '-') by {
            if c == '_' {
                assert(extra@[0] == c);
            }
            if c == '-' {
                assert(extra@[1] == c);
            }
        }
    }
    r
}

fn is_valid_ext_key(s: &str) -> (b: bool)
    ensures
        b == ext_key_ok(s@),
{
    let cs = chars_of(s);
    let extra: Vec<char> = Vec::new();
    let from: usize = if cs.len() > 0 && cs[0] == '.' {
        1
    } else {
        0
    };
    let r = cs.len() > from && all_chars_in(&cs, from, &extra);
    proof {
        let name = ext_name(s@);
        assert forall|i: int| 0 <= i < name.len() implies name[i] == cs@[from + i] by {}
        if r {
            assert forall|i: int| 0 <= i < name.len() implies is_ascii_alnum(name[i]) by {
                assert(!extra@.contains(cs@[from + i]));
            }
        }
        if ext_key_ok(s@) {
            assert forall|i: int| from <= i < cs@.len() implies (is_ascii_alnum(cs@[i])
                || extra@.contains(cs@[i])) by {
                assert(name[i - from] == cs@[i]);
            }
        }
    }
    r
}

fn is_valid_protocol_scheme(s: &str) -> (b: bool)
    ensures
        b == scheme_key_ok(s@),
{
    let cs = chars_of(s);
    let extra: Vec<char> = vec!['+', '-', '.'];
    let r = cs.len() > 0 && all_chars_in(&cs, 0, &extra);
    proof {
        assert forall|c: char| extra@.contains(c) <==> (c == '+' || c == '-' || c == '.') by {
            if c == '+' {
                assert(extra@[0] == c);
            }
            if c == '-' {
                assert(extra@[1] == c);
            }
            if c == '.' {
                assert(extra@[2] == c);
            }
        }
    }
    r
}

// ───────────────────────── what is reported ─────────────────────────

pub open spec fn if_then(b: bool, e: ValidationErrorView) -> Seq<ValidationErrorView> {
    if b {
        seq![e]
    } else {
        Seq::empty()
    }
}

/// Problems of one application definition: its name, then its command.
pub open spec fn app_errors(name: Seq<char>, a: AppDefView) -> Seq<ValidationErrorView> {
    if_then(!app_name_ok(name), ValidationErrorView::InvalidAppName(name)) + if_then(
        is_blank(a.cmd),
        ValidationErrorView::EmptyCmd(name),
    )
}

/// Problems of rule `idx`: no action; neither condition nor action; a
/// modifier that is none of the three (in any case); an unknown application.
pub open spec fn rule_errors(
    section: Seq<char>,
    key: Seq<char>,
    r: RuleView,
    idx: int,
    apps: Seq<(Seq<char>, AppDefView)>,
) -> Seq<ValidationErrorView> {
    let has_condition = r.glob is Some || r.host is Some || r.url is Some || r.modifier is Some;
    let has_action = r.pick || r.app is Some;
    if_then(!has_action, ValidationErrorView::RuleHasNoAction { section, key, rule_idx: idx })
        + if_then(
        !has_condition && !has_action,
        ValidationErrorView::EmptyRule { section, key, rule_idx: idx },
    ) + if_then(
        r.modifier is Some && !is_modifier_name(lower_seq(r.modifier->0)),
        ValidationErrorView::InvalidModifier(r.modifier->0),
    ) + if_then(
        r.app is Some && !has_key(apps, r.app->0),
        ValidationErrorView::UnknownRuleApp { section, key, rule_idx: idx, app: r.app->0 },
    )
}

/// Problems of the first `n` rules, rule by rule.
pub open spec fn rules_errors(
    section: Seq<char>,
    key: Seq<char>,
    rules: Seq<RuleView>,
    n: int,
    apps: Seq<(Seq<char>, AppDefView)>,
) -> Seq<ValidationErrorView>
    decreases n,
{
    if n <= 0 {
        Seq::empty()
    } else {
        rules_errors(section, key, rules, n - 1, apps) + rule_errors(
            section,
            key,
            rules[n - 1],
            n - 1,
            apps,
        )
    }
}

/// Unknown applications among the first `n` candidates.
pub open spec fn candidates_errors(
    section: Seq<char>,
    key: Seq<char>,
    cs: Seq<Seq<char>>,
    n: int,
    apps: Seq<(Seq<char>, AppDefView)>,
) -> Seq<ValidationErrorView>
    decreases n,
{
    if n <= 0 {
        Seq::empty()
    } else {
        candidates_errors(section, key, cs, n - 1, apps) + if_then(
            !has_key(apps, cs[n - 1]),
            ValidationErrorView::UnknownCandidate { section, key, app: cs[n - 1] },
        )
    }
}

/// Problems of one routing table: its default, its candidates (an empty
/// list, then each unknown one), then its rules.
pub open spec fn table_errors(
    section: Seq<char>,
    key: Seq<char>,
    t: RouteTableView,
    apps: Seq<(Seq<char>, AppDefView)>,
) -> Seq<ValidationErrorView> {
    if_then(
        t.default is Some && !has_key(apps, t.default->0),
        ValidationErrorView::UnknownDefaultApp { section, key, app: t.default->0 },
    ) + match t.candidates {
        Some(cs) => if_then(cs.len() == 0, ValidationErrorView::EmptyCandidates(key))
            + candidates_errors(section, key, cs, cs.len() as int, apps),
        None => Seq::empty(),
    } + rules_errors(section, key, t.rules, t.rules.len() as int, apps)
}

/// Problems of the first `n` application definitions.
pub open spec fn apps_errors(apps: Seq<(Seq<char>, AppDefView)>, n: int) -> Seq<ValidationErrorView>
    decreases n,
{
    if n <= 0 {
        Seq::empty()
    } else {
        apps_errors(apps, n - 1) + app_errors(apps[n - 1].0, apps[n - 1].1)
    }
}

/// Problems of the first `n` extension tables: the key, then the table.
pub open spec fn ext_errors(
    tables: Seq<(Seq<char>, RouteTableView)>,
    n: int,
    apps: Seq<(Seq<char>, AppDefView)>,
) -> Seq<ValidationErrorView>
    decreases n,
{
    if n <= 0 {
        Seq::empty()
    } else {
        ext_errors(tables, n - 1, apps) + if_then(
            !ext_key_ok(tables[n - 1].0),
            ValidationErrorView::InvalidExtKey(tables[n - 1].0),
        ) + table_errors("ext"@, tables[n - 1].0, tables[n - 1].1, apps)
    }
}

/// Problems of the first `n` URL scheme tables: the key, then the table.
pub open spec fn protocol_errors(
    tables: Seq<(Seq<char>, RouteTableView)>,
    n: int,
    apps: Seq<(Seq<char>, AppDefView)>,
) -> Seq<ValidationErrorView>
    decreases n,
{
    if n <= 0 {
        Seq::empty()
    } else {
        protocol_errors(tables, n - 1, apps) + if_then(
            !scheme_key_ok(tables[n - 1].0),
            ValidationErrorView::InvalidProtocolScheme(tables[n - 1].0),
        ) + table_errors("protocol"@, tables[n - 1].0, tables[n - 1].1, apps)
    }
}

/// Every problem of a configuration: applications, then extension tables,
/// then URL scheme tables, each in name order.
pub open spec fn validation_errors(c: ConfigView) -> Seq<ValidationErrorView> {
    apps_errors(c.apps, c.apps.len() as int) + ext_errors(c.ext, c.ext.len() as int, c.apps)
        + protocol_errors(c.protocol, c.protocol.len() as int, c.apps)
}

// ───────────────────────── computing them ─────────────────────────

fn push_if(errors: &mut Vec<ValidationError>, b: bool, e: ValidationError)
    ensures
        error_views(final(errors)@) == error_views(old(errors)@) + if_then(b, e@),
{
    let ghost before = errors@;
    if b {
        errors.push(e);
        assert(error_views(errors@) =~= error_views(before) + if_then(b, e@));
    } else {
        assert(error_views(errors@) =~= error_views(before) + if_then(b, e@));
    }
}

fn check_app(errors: &mut Vec<ValidationError>, name: &String, def: &AppDef)
    ensures
        error_views(final(errors)@) == error_views(old(errors)@) + app_errors(name@, def@),
{
    let ghost before = error_views(errors@);
    push_if(errors, !is_valid_app_name(name.as_str()), ValidationError::InvalidAppName(owned(name.as_str())));
    push_if(errors, blank(def.cmd.as_str()), ValidationError::EmptyCmd(owned(name.as_str())));
    assert(error_views(errors@) =~= before + app_errors(name@, def@));
}

fn known_modifier_name(m: &str) -> (b: bool)
    ensures
        b == is_modifier_name(lower_seq(m@)),
{
    let l = lowercase(m);
    str_eq(l.as_str(), "shift") || str_eq(l.as_str(), "ctrl") || str_eq(l.as_str(), "alt")
}

fn check_rule(
    errors: &mut Vec<ValidationError>,
    section: &str,
    key: &str,
    rule: &Rule,
    idx: usize,
    apps: &NameMap<AppDef>,
)
    ensures
        error_views(final(errors)@) == error_views(old(errors)@) + rule_errors(
            section@,
            key@,
            rule@,
            idx as int,
            app_entries(apps@),
        ),
{
    proof {
        lemma_app_keys(apps@);
    }
    let ghost before = error_views(errors@);
    let has_condition = rule.glob.is_some() || rule.host.is_some() || rule.url.is_some()
        || rule.modifier.is_some();
    let has_action = rule.pick || rule.app.is_some();
    push_if(
        errors,
        !has_action,
        ValidationError::RuleHasNoAction { section: owned(section), key: owned(key), rule_idx: idx },
    );
    push_if(
        errors,
        !has_condition && !has_action,
        ValidationError::EmptyRule { section: owned(section), key: owned(key), rule_idx: idx },
    );
    let ghost mid = error_views(errors@);
    match &rule.modifier {
        Some(m) => {
            push_if(errors, !known_modifier_name(m.as_str()), ValidationError::InvalidModifier(owned(m.as_str())));
        },
        None => {
            assert(error_views(errors@) =~= mid + Seq::<ValidationErrorView>::empty());
        },
    }
    let ghost mid2 = error_views(errors@);
    match &rule.app {
        Some(a) => {
            push_if(
                errors,
                !apps.contains_key(a.as_str()),
                ValidationError::UnknownRuleApp {
                    section: owned(section),
                    key: owned(key),
                    rule_idx: idx,
                    app: owned(a.as_str()),
                },
            );
        },
        None => {
            assert(error_views(errors@) =~= mid2 + Seq::<ValidationErrorView>::empty());
        },
    }
    assert(error_views(errors@) =~= before + rule_errors(
        section@,
        key@,
        rule@,
        idx as int,
        app_entries(apps@),
    ));
}

fn check_table(
    errors: &mut Vec<ValidationError>,
    section: &str,
    key: &str,
    table: &RouteTable,
    apps: &NameMap<AppDef>,
)
    ensures
        error_views(final(errors)@) == error_views(old(errors)@) + table_errors(
            section@,
            key@,
            table@,
            app_entries(apps@),
        ),
{
    proof {
        lemma_app_keys(apps@);
    }
    let ghost before = error_views(errors@);
    match &table.default {
        Some(d) => {
            push_if(
                errors,
                !apps.contains_key(d.as_str()),
                ValidationError::UnknownDefaultApp {
                    section: owned(section),
                    key: owned(key),
                    app: owned(d.as_str()),
                },
            );
        },
        None => {
            assert(error_views(errors@) =~= before + Seq::<ValidationErrorView>::empty());
        },
    }
    let ghost after_default = error_views(errors@);
    match &table.candidates {
        Some(cs) => {
            push_if(errors, cs.len() == 0, ValidationError::EmptyCandidates(owned(key)));
            let ghost start = error_views(errors@);
            let ghost cv = views(cs@);
            let mut i: usize = 0;
            while i < cs.len()
                invariant
                    cv == views(cs@),
                    i <= cv.len(),
                    error_views(errors@) == start + candidates_errors(
                        section@,
                        key@,
                        cv,
                        i as int,
                        app_entries(apps@),
                    ),
                    forall|k: Seq<char>| has_key(app_entries(apps@), k) == has_key(apps@, k),
                decreases cv.len() - i,
            {
                let ghost pre = error_views(errors@);
                assert(cv[i as int] == cs@[i as int]@);
                push_if(
                    errors,
                    !apps.contains_key(cs[i].as_str()),
                    ValidationError::UnknownCandidate {
                        section: owned(section),
                        key: owned(key),
                        app: owned(cs[i].as_str()),
                    },
                );
                assert(error_views(errors@) =~= start + candidates_errors(
                    section@,
                    key@,
                    cv,
                    i + 1,
                    app_entries(apps@),
                ));
                i = i + 1;
            }
            assert(table@.candidates == Some(cv));
        },
        None => {},
    }
    let ghost after_candidates = error_views(errors@);
    let ghost rv = rule_views(table.rules@);
    let mut i: usize = 0;
    assert(after_candidates =~= after_candidates + rules_errors(
        section@,
        key@,
        rv,
        0,
        app_entries(apps@),
    ));
    while i < table.rules.len()
        invariant
            rv == rule_views(table.rules@),
            i <= rv.len(),
            error_views(errors@) == after_candidates + rules_errors(
                section@,
                key@,
                rv,
                i as int,
                app_entries(apps@),
            ),
        decreases rv.len() - i,
    {
        assert(rv[i as int] == table.rules@[i as int]@);
        check_rule(errors, section, key, &table.rules[i], i, apps);
        assert(error_views(errors@) =~= after_candidates + rules_errors(
            section@,
            key@,
            rv,
            i + 1,
            app_entries(apps@),
        ));
        i = i + 1;
    }
    assert(error_views(errors@) =~= before + table_errors(
        section@,
        key@,
        table@,
        app_entries(apps@),
    ));
}

/// Every problem of the configuration (see `validation_errors`).
pub fn validate(config: &Config) -> (errors: Vec<ValidationError>)
    ensures
        error_views(errors@) == validation_errors(config@),
{
    let mut errors: Vec<ValidationError> = Vec::new();
    let ghost apps = config@.apps;
    assert(error_views(errors@) =~= apps_errors(apps, 0));
    let mut i: usize = 0;
    while i < config.apps.len()
        invariant
            apps == config@.apps,
            i <= apps.len(),
            error_views(errors@) == apps_errors(apps, i as int),
        decreases apps.len() - i,
    {
        assert(apps[i as int].0 == config.apps@[i as int].0);
        assert(apps[i as int].1 == config.apps@[i as int].1@);
        check_app(&mut errors, config.apps.key_at(i), config.apps.value_at(i));
        i = i + 1;
    }
    let ghost after_apps = error_views(errors@);
    let ghost ext = config@.ext;
    let mut i: usize = 0;
    assert(after_apps =~= after_apps + ext_errors(ext, 0, apps));
    while i < config.ext.len()
        invariant
            apps == config@.apps,
            ext == config@.ext,
            i <= ext.len(),
            error_views(errors@) == after_apps + ext_errors(ext, i as int, apps),
        decreases ext.len() - i,
    {
        let key = config.ext.key_at(i);
        assert(ext[i as int].0 == key@);
        assert(ext[i as int].1 == config.ext@[i as int].1@);
        let ghost pre = error_views(errors@);
        push_if(&mut errors, !is_valid_ext_key(key.as_str()), ValidationError::InvalidExtKey(owned(key.as_str())));
        check_table(&mut errors, "ext", key.as_str(), config.ext.value_at(i), &config.apps);
        assert(error_views(errors@) =~= after_apps + ext_errors(ext, i + 1, apps));
        i = i + 1;
    }
    let ghost after_ext = error_views(errors@);
    let ghost proto = config@.protocol;
    let mut i: usize = 0;
    assert(after_ext =~= after_ext + protocol_errors(proto, 0, apps));
    while i < config.protocol.len()
        invariant
            apps == config@.apps,
            proto == config@.protocol,
            i <= proto.len(),
            error_views(errors@) == after_ext + protocol_errors(proto, i as int, apps),
        decreases proto.len() - i,
    {
        let key = config.protocol.key_at(i);
        assert(proto[i as int].0 == key@);
        assert(proto[i as int].1 == config.protocol@[i as int].1@);
        push_if(
            &mut errors,
            !is_valid_protocol_scheme(key.as_str()),
            ValidationError::InvalidProtocolScheme(owned(key.as_str())),
        );
        check_table(&mut errors, "protocol", key.as_str(), config.protocol.value_at(i), &config.apps);
        assert(error_views(errors@) =~= after_ext + protocol_errors(proto, i + 1, apps));
        i = i + 1;
    }
    assert(error_views(errors@) =~= validation_errors(config@));
    errors
}

// ───────────────────────── messages beside the fields ─────────────────────────

/// The message beside an application's name: that of the last error about
/// it, empty when there is none.
pub open spec fn app_name_error(errs: Seq<ValidationErrorView>, name: Seq<char>) -> Seq<char>
    decreases errs.len(),
{
    if errs.len() == 0 {
        Seq::empty()
    } else {
        match errs.last() {
            ValidationErrorView::InvalidAppName(n) if n == name => "英数字と_のみ使用できます"@,
            ValidationErrorView::DuplicateAppName(n) if n == name => "重複するアプリ名です"@,
            _ => app_name_error(errs.drop_last(), name),
        }
    }
}

/// The message beside an application's command.
pub open spec fn app_cmd_error(errs: Seq<ValidationErrorView>, name: Seq<char>) -> Seq<char>
    decreases errs.len(),
{
    if errs.len() == 0 {
        Seq::empty()
    } else {
        match errs.last() {
            ValidationErrorView::EmptyCmd(n) if n == name => "実行ファイルを入力してください"@,
            _ => app_cmd_error(errs.drop_last(), name),
        }
    }
}

/// The message beside a routing table's default.
pub open spec fn route_default_error(errs: Seq<ValidationErrorView>, section: Seq<char>, key: Seq<char>) -> Seq<char>
    decreases errs.len(),
{
    if errs.len() == 0 {
        Seq::empty()
    } else {
        match errs.last() {
            ValidationErrorView::UnknownDefaultApp { section: s, key: k, app } if s == section && k == key =>
                "未定義のアプリ: "@ + app,
            _ => route_default_error(errs.drop_last(), section, key),
        }
    }
}

/// The message beside a routing table's candidates. An empty candidate list
/// is matched by its key alone, whatever its section.
pub open spec fn route_candidates_error(errs: Seq<ValidationErrorView>, section: Seq<char>, key: Seq<char>) -> Seq<char>
    decreases errs.len(),
{
    if errs.len() == 0 {
        Seq::empty()
    } else {
        match errs.last() {
            ValidationErrorView::UnknownCandidate { section: s, key: k, app } if s == section && k == key =>
                "候補に未定義のアプリ: "@ + app,
            ValidationErrorView::EmptyCandidates(k) if k == key => "候補リストが空です"@,
            _ => route_candidates_error(errs.drop_last(), section, key),
        }
    }
}

/// The messages beside an application row: for its name and its command.
pub fn app_field_errors(errors: &Vec<ValidationError>, name: &str) -> (r: (String, String))
    ensures
        r.0@ == app_name_error(error_views(errors@), name@),
        r.1@ == app_cmd_error(error_views(errors@), name@),
{
    let mut name_err = String::new();
    let mut cmd_err = String::new();
    let mut i: usize = 0;
    while i < errors.len()
        invariant
            i <= errors@.len(),
            name_err@ == app_name_error(error_views(errors@.subrange(0, i as int)), name@),
            cmd_err@ == app_cmd_error(error_views(errors@.subrange(0, i as int)), name@),
        decreases errors@.len() - i,
    {
        proof {
            assert(error_views(errors@.subrange(0, i + 1)).drop_last() =~= error_views(
                errors@.subrange(0, i as int),
            ));
            assert(error_views(errors@.subrange(0, i + 1)).last() == errors@[i as int]@);
        }
        match &errors[i] {
            ValidationError::InvalidAppName(n) => {
                if str_eq(n.as_str(), name) {
                    name_err = owned("英数字と_のみ使用できます");
                }
            },
            ValidationError::DuplicateAppName(n) => {
                if str_eq(n.as_str(), name) {
                    name_err = owned("重複するアプリ名です");
                }
            },
            ValidationError::EmptyCmd(n) => {
                if str_eq(n.as_str(), name) {
                    cmd_err = owned("実行ファイルを入力してください");
                }
            },
            _ => {},
        }
        i = i + 1;
    }
    assert(errors@.subrange(0, i as int) =~= errors@);
    (name_err, cmd_err)
}

/// The messages beside a routing table: for its default and its candidates.
pub fn route_field_errors(errors: &Vec<ValidationError>, section: &str, key: &str) -> (r: (String, String))
    ensures
        r.0@ == route_default_error(error_views(errors@), section@, key@),
        r.1@ == route_candidates_error(error_views(errors@), section@, key@),
{
    let mut default_err = String::new();
    let mut candidates_err = String::new();
    let mut i: usize = 0;
    while i < errors.len()
        invariant
            i <= errors@.len(),
            default_err@ == route_default_error(error_views(errors@.subrange(0, i as int)), section@, key@),
            candidates_err@ == route_candidates_error(
                error_views(errors@.subrange(0, i as int)),
                section@,
                key@,
            ),
        decreases errors@.len() - i,
    {
        proof {
            assert(error_views(errors@.subrange(0, i + 1)).drop_last() =~= error_views(
                errors@.subrange(0, i as int),
            ));
            assert(error_views(errors@.subrange(0, i + 1)).last() == errors@[i as int]@);
        }
        match &errors[i] {
            ValidationError::UnknownDefaultApp { section: s, key: k, app } => {
                if str_eq(s.as_str(), section) && str_eq(k.as_str(), key) {
                    default_err = crate::text::concat2("未定義のアプリ: ", app.as_str());
                }
            },
            ValidationError::UnknownCandidate { section: s, key: k, app } => {
                if str_eq(s.as_str(), section) && str_eq(k.as_str(), key) {
                    candidates_err = crate::text::concat2("候補に未定義のアプリ: ", app.as_str());
                }
            },
            ValidationError::EmptyCandidates(k) => {
                if str_eq(k.as_str(), key) {
                    candidates_err = owned("候補リストが空です");
                }
            },
            _ => {},
        }
        i = i + 1;
    }
    assert(errors@.subrange(0, i as int) =~= errors@);
    (default_err, candidates_err)
}

} // verus!
