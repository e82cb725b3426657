//! What the commands decide and print: the steps of opening a target, the
//! dry run of `test`, the listing of `list`, and the launch log line.
use vstd::prelude::*;
use crate::config::{AppDefView, Config, ConfigView, RouteTableView, RuleView, copy_opt, rule_views, table_entries};
use crate::engine::{Decision, DecisionView, build_command_line, command_line_spec, decide, evaluate, lemma_lookup_app, route_table_spec};
use crate::env::{EnvSnapshot, expand_env, expand_seq};
use crate::name_map::{NameMap, has_key, lookup};
use crate::picker::{Candidate, CandidateView};
use crate::target::{Modifiers, Target, TargetView, UnknownModifier, file_name, file_name_of, first_unknown_from, parse_target, target_raw, without_drive};
use crate::text::{chars_of, concat2, concat3, decimal, has_char, join_seq, join_strings, owned, str_eq, string_of, successor_to_string, usize_to_string, views, lemma_views_push};

verus! {

// ───────────────────────── labels and small texts ─────────────────────────

/// The text the picker's title shows: the file name of a path (the path
/// itself when it has none) or the whole URL.
pub open spec fn label_text(t: TargetView) -> Seq<char> {
    match t {
        TargetView::File { path, .. } => match file_name_of(without_drive(path)) {
            Some(n) => n,
            None => path,
        },
        TargetView::Url { url, .. } => url,
    }
}

/// A label longer than 48 characters keeps its first 45 and gets `…`.
pub open spec fn shorten(label: Seq<char>) -> Seq<char> {
    if label.len() > 48 {
        label.subrange(0, 45) + "…"@
    } else {
        label
    }
}

/// The short name of a target shown as the picker's title.
pub fn target_label(target: &Target) -> (r: String)
    ensures
        r@ == shorten(label_text(target@)),
{
    let label = match target {
        Target::File { path, .. } => match file_name(path.as_str()) {
            Some(n) => n,
            None => owned(path.as_str()),
        },
        Target::Url { url, .. } => owned(url.as_str()),
    };
    let cs = chars_of(label.as_str());
    if cs.len() > 48 {
        let mut head: Vec<char> = Vec::new();
        let mut k: usize = 0;
        while k < 45
            invariant
                k <= 45,
                cs@.len() > 48,
                head@ == cs@.subrange(0, k as int),
            decreases 45 - k,
        {
            head.push(cs[k]);
            assert(head@ =~= cs@.subrange(0, k + 1));
            k = k + 1;
        }
        let h = string_of(&head);
        concat2(h.as_str(), "…")
    } else {
        label
    }
}

/// An argument shown in a command line: in double quotes when it holds a space.
pub open spec fn quoted(a: Seq<char>) -> Seq<char> {
    if has_char(a, ' ') {
        "\""@ + a + "\""@
    } else {
        a
    }
}

/// The arguments shown one after the other, separated by spaces.
pub open spec fn quoted_args(args: Seq<Seq<char>>) -> Seq<char> {
    join_seq(args.map_values(|a: Seq<char>| quoted(a)), " "@)
}

fn contains_space(s: &str) -> (b: bool)
    ensures
        b == has_char(s@, ' '),
{
    let cs = chars_of(s);
    let mut i: usize = 0;
    while i < cs.len()
        invariant
            cs@ == s@,
            i <= cs@.len(),
            forall|j: int| 0 <= j < i ==> cs@[j] != ' ',
        decreases cs@.len() - i,
    {
        if cs[i] == ' ' {
            return true;
        }
        i = i + 1;
    }
    false
}

/// The arguments as the dry run shows them (see `quoted_args`).
pub fn quote_args(args: &Vec<String>) -> (r: String)
    ensures
        r@ == quoted_args(views(args@)),
{
    let mut parts: Vec<String> = Vec::new();
    let mut i: usize = 0;
    while i < args.len()
        invariant
            i <= args@.len(),
            parts@.len() == i,
            forall|j: int| 0 <= j < i ==> #[trigger] parts@[j]@ == quoted(args@[j]@),
        decreases args@.len() - i,
    {
        let a = args[i].as_str();
        let q = if contains_space(a) {
            concat3("\"", a, "\"")
        } else {
            owned(a)
        };
        parts.push(q);
        i = i + 1;
    }
    let r = join_strings(&parts, " ");
    assert(views(parts@) =~= views(args@).map_values(|a: Seq<char>| quoted(a)));
    r
}

/// One line of the launch log: time, target, what matched, the application
/// and the outcome, separated by tabs.
pub open spec fn log_line_spec(
    now: Seq<char>,
    target: Seq<char>,
    matched: Seq<char>,
    app: Seq<char>,
    result: Seq<char>,
) -> Seq<char> {
    now + "\t"@ + target + "\t"@ + matched + "\t"@ + app + "\t"@ + result
}

pub fn log_line(now: &str, target: &str, matched: &str, app: &str, result: &str) -> (r: String)
    ensures
        r@ == log_line_spec(now@, target@, matched@, app@, result@),
{
    let a = concat3(now, "\t", target);
    let b = concat3(a.as_str(), "\t", matched);
    let c = concat3(b.as_str(), "\t", app);
    concat3(c.as_str(), "\t", result)
}

/// The error shown when starting the program failed.
pub fn launch_failure_message(program: &str, error: &str) -> (r: String)
    ensures
        r@ == "起動に失敗しました: "@ + program@ + ": "@ + error@,
{
    let a = concat3("起動に失敗しました: ", program, ": ");
    concat2(a.as_str(), error)
}

/// The error shown when nothing can be started.
pub fn no_route_message(reason: &str) -> (r: String)
    ensures
        r@ == "ルートがありません: "@ + reason@,
{
    concat2("ルートがありません: ", reason)
}

// ───────────────────────── opening a target ─────────────────────────

/// What to start: the application, its command line, and what chose it
/// (`rule#<n>`, `default` or `picker`) for the log.
#[derive(Debug)]
pub struct LaunchPlan {
    pub app: String,
    pub program: String,
    pub args: Vec<String>,
    pub matched: String,
}

pub struct LaunchPlanView {
    pub app: Seq<char>,
    pub program: Seq<char>,
    pub args: Seq<Seq<char>>,
    pub matched: Seq<char>,
}

impl View for LaunchPlan {
    type V = LaunchPlanView;

    open spec fn view(&self) -> LaunchPlanView {
        LaunchPlanView {
            app: self.app@,
            program: self.program@,
            args: views(self.args@),
            matched: self.matched@,
        }
    }
}

/// The next step of opening a target.
#[derive(Debug)]
pub enum OpenStep {
    Launch(LaunchPlan),
    Pick { title: String, candidates: Vec<Candidate>, timeout_ms: u64 },
    NoRoute { reason: String },
}

pub enum OpenStepView {
    Launch(LaunchPlanView),
    Pick { title: Seq<char>, candidates: Seq<CandidateView>, timeout_ms: u64 },
    NoRoute { reason: Seq<char> },
}

pub open spec fn candidate_views(v: Seq<Candidate>) -> Seq<CandidateView> {
    v.map_values(|c: Candidate| c@)
}

impl View for OpenStep {
    type V = OpenStepView;

    open spec fn view(&self) -> OpenStepView {
        match self {
            OpenStep::Launch(p) => OpenStepView::Launch(p@),
            OpenStep::Pick { title, candidates, timeout_ms } => OpenStepView::Pick {
                title: title@,
                candidates: candidate_views(candidates@),
                timeout_ms: *timeout_ms,
            },
            OpenStep::NoRoute { reason } => OpenStepView::NoRoute { reason: reason@ },
        }
    }
}

/// What chose a launch, as the log writes it.
pub open spec fn matched_spec(rule_index: Option<int>) -> Seq<char> {
    match rule_index {
        Some(i) => "rule#"@ + decimal((i + 1) as nat),
        None => "default"@,
    }
}

/// The plan to start the application `app` (which must be defined) on `target`.
pub open spec fn plan_spec(
    c: ConfigView,
    app: Seq<char>,
    target: Seq<char>,
    matched: Seq<char>,
    env: Seq<(Seq<char>, Seq<char>)>,
) -> LaunchPlanView {
    let line = command_line_spec(lookup(c.apps, app)->0, target, env);
    LaunchPlanView { app, program: line.0, args: line.1, matched }
}

/// A picker entry for the application `name`.
pub open spec fn candidate_spec(
    c: ConfigView,
    name: Seq<char>,
    env: Seq<(Seq<char>, Seq<char>)>,
) -> CandidateView {
    let def = lookup(c.apps, name)->0;
    CandidateView { name, label: def.label, program: expand_seq(def.cmd, env) }
}

/// The step for a target: start the application the decision names, show
/// the picker with the offered applications, or report that nothing can be
/// started.
pub open spec fn open_spec(
    c: ConfigView,
    raw: Seq<char>,
    m: Modifiers,
    env: Seq<(Seq<char>, Seq<char>)>,
) -> OpenStepView {
    let t = parse_target(raw);
    match decide(c, t, m) {
        DecisionView::Launch { app, rule_index } => OpenStepView::Launch(
            plan_spec(c, app, target_raw(t), matched_spec(rule_index), env),
        ),
        DecisionView::Pick { candidates, .. } => OpenStepView::Pick {
            title: shorten(label_text(t)),
            candidates: candidates.map_values(|n: Seq<char>| candidate_spec(c, n, env)),
            timeout_ms: c.picker_timeout_ms,
        },
        DecisionView::NoRoute { reason } => OpenStepView::NoRoute { reason },
    }
}

/// The plan to start `app` on `target`, or none when no application of
/// that name is defined.
pub fn plan_launch(
    config: &Config,
    app: &str,
    target: &str,
    matched: &str,
    env: &EnvSnapshot,
) -> (r: Option<LaunchPlan>)
    ensures
        r is Some <==> has_key(config@.apps, app@),
        r matches Some(p) ==> p@ == plan_spec(config@, app@, target@, matched@, env@),
{
    proof {
        lemma_lookup_app(config.apps@, app@);
        crate::config::lemma_app_keys(config.apps@);
        crate::name_map::lemma_index_from_found(config@.apps, app@, 0);
        crate::name_map::lemma_index_from_found(config.apps@, app@, 0);
        if has_key(config@.apps, app@) {
            let i = choose|i: int| 0 <= i < config@.apps.len() && config@.apps[i].0 == app@;
            assert(config.apps@[i].0 == app@);
        }
    }
    match config.apps.get(app) {
        None => None,
        Some(def) => {
            let (program, args) = build_command_line(def, target, env);
            Some(LaunchPlan { app: owned(app), program, args, matched: owned(matched) })
        },
    }
}

fn matched_text(rule_index: Option<usize>) -> (r: String)
    ensures
        r@ == matched_spec(crate::engine::opt_index(rule_index)),
{
    match rule_index {
        Some(i) => {
            let n = successor_to_string(i);
            concat2("rule#", n.as_str())
        },
        None => owned("default"),
    }
}

/// The first step of opening `raw_target` with `mods` held (see
/// `open_spec`). The configuration must pass `validate_config`.
pub fn open(config: &Config, raw_target: &str, mods: Modifiers, env: &EnvSnapshot) -> (r: OpenStep)
    requires
        crate::engine::decision_apps_defined(config@, decide(config@, parse_target(raw_target@), mods)),
    ensures
        r@ == open_spec(config@, raw_target@, mods, env@),
{
    let target = Target::parse(raw_target);
    match evaluate(config, &target, &mods) {
        Decision::Launch { app, rule_index } => {
            let matched = matched_text(rule_index);
            match plan_launch(config, app.as_str(), target.raw(), matched.as_str(), env) {
                Some(plan) => OpenStep::Launch(plan),
                None => OpenStep::NoRoute { reason: owned("") },
            }
        },
        Decision::Pick { candidates, .. } => {
            let ghost names = views(candidates@);
            let mut entries: Vec<Candidate> = Vec::new();
            let mut i: usize = 0;
            while i < candidates.len()
                invariant
                    names == views(candidates@),
                    i <= names.len(),
                    forall|j: int| 0 <= j < names.len() ==> has_key(config@.apps, names[j]),
                    entries@.len() == i,
                    forall|j: int|
                        0 <= j < i ==> #[trigger] entries@[j]@ == candidate_spec(
                            config@,
                            names[j],
                            env@,
                        ),
                decreases names.len() - i,
            {
                let name = &candidates[i];
                assert(names[i as int] == name@);
                proof {
                    lemma_lookup_app(config.apps@, name@);
                    crate::config::lemma_app_keys(config.apps@);
                    crate::name_map::lemma_index_from_found(config.apps@, name@, 0);
                    crate::name_map::lemma_index_from_found(config@.apps, name@, 0);
                    let k = choose|k: int| 0 <= k < config@.apps.len() && config@.apps[k].0 == name@;
                    assert(config.apps@[k].0 == name@);
                }
                match config.apps.get(name.as_str()) {
                    Some(def) => {
                        entries.push(
                            Candidate {
                                name: owned(name.as_str()),
                                label: copy_opt(&def.label),
                                program: expand_env(def.cmd.as_str(), env),
                            },
                        );
                    },
                    None => {
                        assert(false);
                    },
                }
                i = i + 1;
            }
            assert(candidate_views(entries@) =~= names.map_values(
                |n: Seq<char>| candidate_spec(config@, n, env@),
            ));
            OpenStep::Pick {
                title: target_label(&target),
                candidates: entries,
                timeout_ms: config.settings.picker_timeout_ms,
            }
        },
        Decision::NoRoute { reason } => OpenStep::NoRoute { reason },
    }
}

/// After `failed` could not be started for `raw_target`: the default
/// application of the target's routing table, when the table has one, it is
/// not the application that failed, and it is defined.
pub open spec fn fallback_spec(
    c: ConfigView,
    raw_target: Seq<char>,
    failed: Seq<char>,
    env: Seq<(Seq<char>, Seq<char>)>,
) -> Option<LaunchPlanView> {
    let t = parse_target(raw_target);
    match route_table_spec(c, t) {
        Some((_, table)) => match table.default {
            Some(d) => if d != failed && has_key(c.apps, d) {
                Some(plan_spec(c, d, target_raw(t), "fallback"@, env))
            } else {
                None
            },
            None => None,
        },
        None => None,
    }
}

/// The launch to try when starting `failed` on `raw_target` did not work
/// (see `fallback_spec`); none when there is no other default to fall back
/// to.
pub fn fallback_plan(config: &Config, raw_target: &str, failed: &str, env: &EnvSnapshot) -> (r: Option<
    LaunchPlan,
>)
    ensures
        match r {
            Some(p) => fallback_spec(config@, raw_target@, failed@, env@) == Some(p@),
            None => fallback_spec(config@, raw_target@, failed@, env@) is None,
        },
{
    let target = Target::parse(raw_target);
    match target.route_table(config) {
        Some((_, table)) => match &table.default {
            Some(d) => {
                if str_eq(d.as_str(), failed) {
                    None
                } else {
                    plan_launch(config, d.as_str(), target.raw(), "fallback", env)
                }
            },
            None => None,
        },
        None => None,
    }
}

// ───────────────────────── the dry run ─────────────────────────

/// The line describing the target.
pub open spec fn target_line(t: TargetView) -> Seq<char> {
    match t {
        TargetView::File { path, ext } => "対象: "@ + path + " (ファイル, 拡張子: "@ + match ext {
            Some(e) => "."@ + e,
            None => "なし"@,
        } + ")"@,
        TargetView::Url { url, scheme, host } => "対象: "@ + url + " (URL, プロトコル: "@ + scheme
            + ", ホスト: "@ + match host {
            Some(h) => h,
            None => "なし"@,
        } + ")"@,
    }
}

/// The lines describing the decision.
pub open spec fn decision_lines(
    c: ConfigView,
    t: TargetView,
    d: DecisionView,
    env: Seq<(Seq<char>, Seq<char>)>,
) -> Seq<Seq<char>> {
    match d {
        DecisionView::Launch { app, rule_index } => {
            let line = command_line_spec(lookup(c.apps, app)->0, target_raw(t), env);
            seq![
                match rule_index {
                    Some(i) => "判定: ルール #"@ + decimal((i + 1) as nat) + " に一致 → "@ + app,
                    None => "判定: ルール不一致 → default の "@ + app,
                },
                "起動: \""@ + line.0 + "\" "@ + quoted_args(line.1),
            ]
        },
        DecisionView::Pick { candidates, rule_index, reason } => seq![
            match rule_index {
                Some(i) => "判定: ルール #"@ + decimal((i + 1) as nat) + " に一致 → ピッカー表示"@,
                None => "判定: ピッカー表示 ("@ + reason + ")"@,
            },
            "候補: "@ + join_seq(candidates, ", "@),
        ],
        DecisionView::NoRoute { reason } => seq!["判定: ルートなし ("@ + reason + ")"@],
    }
}

/// What the dry run prints: the target, the modifiers if any were named,
/// then the decision; a modifier name that is none of the three is refused.
pub open spec fn test_lines(
    c: ConfigView,
    raw: Seq<char>,
    names: Seq<Seq<char>>,
    env: Seq<(Seq<char>, Seq<char>)>,
    m: Modifiers,
) -> Seq<Seq<char>> {
    let t = parse_target(raw);
    seq![target_line(t)] + if names.len() > 0 {
        seq!["修飾キー: "@ + join_seq(names, " + "@)]
    } else {
        Seq::empty()
    } + decision_lines(c, t, decide(c, t, m), env)
}

fn target_line_string(t: &Target) -> (r: String)
    ensures
        r@ == target_line(t@),
{
    match t {
        Target::File { path, ext } => {
            let a = concat3("対象: ", path.as_str(), " (ファイル, 拡張子: ");
            let e = match ext {
                Some(e) => concat2(".", e.as_str()),
                None => owned("なし"),
            };
            concat3(a.as_str(), e.as_str(), ")")
        },
        Target::Url { url, scheme, host } => {
            let a = concat3("対象: ", url.as_str(), " (URL, プロトコル: ");
            let b = concat3(a.as_str(), scheme.as_str(), ", ホスト: ");
            let h = match host {
                Some(h) => owned(h.as_str()),
                None => owned("なし"),
            };
            concat3(b.as_str(), h.as_str(), ")")
        },
    }
}

fn push_line(lines: &mut Vec<String>, s: String)
    ensures
        views(final(lines)@) == views(old(lines)@).push(s@),
{
    let ghost before = lines@;
    lines.push(s);
    proof {
        lemma_views_push(before, s);
    }
}

/// The dry run of `test` (see `test_lines`): what would be opened, and how,
/// without opening anything. The configuration must pass `validate_config`.
pub fn test_report(
    config: &Config,
    raw_target: &str,
    modifier_names: &Vec<String>,
    env: &EnvSnapshot,
) -> (r: Result<Vec<String>, UnknownModifier>)
    requires
        first_unknown_from(views(modifier_names@), 0) is None ==> crate::engine::launched_app_defined(
            config@,
            decide(
                config@,
                parse_target(raw_target@),
                crate::target::named_modifiers(views(modifier_names@)),
            ),
        ),
    ensures
        match r {
            Ok(lines) => first_unknown_from(views(modifier_names@), 0) is None && views(lines@)
                == test_lines(
                config@,
                raw_target@,
                views(modifier_names@),
                env@,
                crate::target::named_modifiers(views(modifier_names@)),
            ),
            Err(e) => exists|k: int|
                first_unknown_from(views(modifier_names@), 0) == Some(k) && e.name@
                    == crate::text::lower_seq(views(modifier_names@)[k]),
        },
{
    let target = Target::parse(raw_target);
    let mods = match Modifiers::from_names(modifier_names.as_slice()) {
        Ok(m) => m,
        Err(e) => {
            return Err(e);
        },
    };
    let mut lines: Vec<String> = Vec::new();
    push_line(&mut lines, target_line_string(&target));
    if modifier_names.len() > 0 {
        let joined = join_strings(modifier_names, " + ");
        push_line(&mut lines, concat2("修飾キー: ", joined.as_str()));
    }
    let ghost head = views(lines@);
    let decision = evaluate(config, &target, &mods);
    match &decision {
        Decision::Launch { app, rule_index } => {
            let first = match rule_index {
                Some(i) => {
                    let n = successor_to_string(*i);
                    let a = concat3("判定: ルール #", n.as_str(), " に一致 → ");
                    concat2(a.as_str(), app.as_str())
                },
                None => concat2("判定: ルール不一致 → default の ", app.as_str()),
            };
            push_line(&mut lines, first);
            proof {
                lemma_lookup_app(config.apps@, app@);
                crate::config::lemma_app_keys(config.apps@);
                crate::name_map::lemma_index_from_found(config.apps@, app@, 0);
                crate::name_map::lemma_index_from_found(config@.apps, app@, 0);
                let k = choose|k: int| 0 <= k < config@.apps.len() && config@.apps[k].0 == app@;
                assert(config.apps@[k].0 == app@);
            }
            match config.apps.get(app.as_str()) {
                Some(def) => {
                    let (program, args) = build_command_line(def, target.raw(), env);
                    let q = quote_args(&args);
                    let a = concat3("起動: \"", program.as_str(), "\" ");
                    push_line(&mut lines, concat2(a.as_str(), q.as_str()));
                },
                None => {
                    assert(false);
                },
            }
        },
        Decision::Pick { candidates, rule_index, reason } => {
            let first = match rule_index {
                Some(i) => {
                    let n = successor_to_string(*i);
                    concat3("判定: ルール #", n.as_str(), " に一致 → ピッカー表示")
                },
                None => concat3("判定: ピッカー表示 (", reason.as_str(), ")"),
            };
            push_line(&mut lines, first);
            let joined = join_strings(candidates, ", ");
            push_line(&mut lines, concat2("候補: ", joined.as_str()));
        },
        Decision::NoRoute { reason } => {
            push_line(&mut lines, concat3("判定: ルートなし (", reason.as_str(), ")"));
        },
    }
    assert(views(lines@) =~= test_lines(config@, raw_target@, views(modifier_names@), env@, mods));
    Ok(lines)
}

// ───────────────────────── the listing ─────────────────────────

/// One application: its name, its label in parentheses if it has one, its
/// command.
pub open spec fn app_line(name: Seq<char>, a: AppDefView) -> Seq<char> {
    "  "@ + name + match a.label {
        Some(l) => " ("@ + l + ")"@,
        None => Seq::empty(),
    } + " → "@ + a.cmd
}

/// The conditions a rule gives, as the listing names them.
pub open spec fn rule_conditions(r: RuleView) -> Seq<Seq<char>> {
    (match r.glob {
        Some(g) => seq!["glob = '"@ + g + "'"@],
        None => Seq::empty(),
    }) + (match r.host {
        Some(h) => seq!["host = '"@ + h + "'"@],
        None => Seq::empty(),
    }) + (match r.url {
        Some(u) => seq!["url = '"@ + u + "'"@],
        None => Seq::empty(),
    }) + (match r.modifier {
        Some(m) => seq!["modifier = "@ + m],
        None => Seq::empty(),
    })
}

/// One rule of the listing, numbered from 1.
pub open spec fn rule_line(i: int, r: RuleView) -> Seq<char> {
    let conds = rule_conditions(r);
    "    #"@ + decimal((i + 1) as nat) + " "@ + (if conds.len() == 0 {
        "(常に)"@
    } else {
        join_seq(conds, " AND "@)
    }) + " → "@ + match r.app {
        Some(a) => a,
        None => "ピッカー表示"@,
    }
}

/// The lines of the first `n` rules.
pub open spec fn rule_lines(rules: Seq<RuleView>, n: int) -> Seq<Seq<char>>
    decreases n,
{
    if n <= 0 {
        Seq::empty()
    } else {
        rule_lines(rules, n - 1).push(rule_line(n - 1, rules[n - 1]))
    }
}

/// One routing table: its key (with `.` before an extension), its rules,
/// its default.
pub open spec fn table_lines(dot: Seq<char>, key: Seq<char>, t: RouteTableView) -> Seq<Seq<char>> {
    seq!["  "@ + dot + key] + rule_lines(t.rules, t.rules.len() as int) + seq![
        match t.default {
            Some(a) => "    default → "@ + a,
            None => "    default → (なし → ピッカー)"@,
        },
    ]
}

/// The lines of the first `n` tables.
pub open spec fn tables_lines(dot: Seq<char>, tables: Seq<(Seq<char>, RouteTableView)>, n: int) -> Seq<
    Seq<char>,
>
    decreases n,
{
    if n <= 0 {
        Seq::empty()
    } else {
        tables_lines(dot, tables, n - 1) + table_lines(dot, tables[n - 1].0, tables[n - 1].1)
    }
}

/// One kind of routes: nothing when there are none, else an empty line, a
/// heading with their number, and each table.
pub open spec fn section_lines(kind: Seq<char>, dot: Seq<char>, tables: Seq<(Seq<char>, RouteTableView)>) -> Seq<
    Seq<char>,
> {
    if tables.len() == 0 {
        Seq::empty()
    } else {
        seq![Seq::empty(), kind + "ルート ("@ + decimal(tables.len()) + "):"@] + tables_lines(
            dot,
            tables,
            tables.len() as int,
        )
    }
}

/// The lines of the first `n` applications.
pub open spec fn apps_lines(apps: Seq<(Seq<char>, AppDefView)>, n: int) -> Seq<Seq<char>>
    decreases n,
{
    if n <= 0 {
        Seq::empty()
    } else {
        apps_lines(apps, n - 1).push(app_line(apps[n - 1].0, apps[n - 1].1))
    }
}

/// What `list` prints: the applications, then the extension routes, then
/// the URL scheme routes.
pub open spec fn list_spec(c: ConfigView) -> Seq<Seq<char>> {
    seq!["アプリ定義 ("@ + decimal(c.apps.len()) + "):"@] + apps_lines(c.apps, c.apps.len() as int)
        + section_lines("拡張子"@, "."@, c.ext) + section_lines("プロトコル"@, ""@, c.protocol)
}

fn rule_line_string(i: usize, r: &crate::config::Rule) -> (s: String)
    ensures
        s@ == rule_line(i as int, r@),
{
    let mut conds: Vec<String> = Vec::new();
    let ghost c0 = views(conds@);
    if let Some(g) = &r.glob {
        push_line(&mut conds, concat3("glob = '", g.as_str(), "'"));
    }
    let ghost c1 = views(conds@);
    if let Some(h) = &r.host {
        push_line(&mut conds, concat3("host = '", h.as_str(), "'"));
    }
    let ghost c2 = views(conds@);
    if let Some(u) = &r.url {
        push_line(&mut conds, concat3("url = '", u.as_str(), "'"));
    }
    let ghost c3 = views(conds@);
    if let Some(m) = &r.modifier {
        push_line(&mut conds, concat2("modifier = ", m.as_str()));
    }
    assert(views(conds@) =~= rule_conditions(r@));
    let cond = if conds.len() == 0 {
        owned("(常に)")
    } else {
        join_strings(&conds, " AND ")
    };
    let action = match &r.app {
        Some(a) => owned(a.as_str()),
        None => owned("ピッカー表示"),
    };
    let n = successor_to_string(i);
    let a = concat3("    #", n.as_str(), " ");
    let b = concat3(a.as_str(), cond.as_str(), " → ");
    concat2(b.as_str(), action.as_str())
}

fn push_table_lines(lines: &mut Vec<String>, dot: &str, key: &str, t: &crate::config::RouteTable)
    ensures
        views(final(lines)@) == views(old(lines)@) + table_lines(dot@, key@, t@),
{
    let ghost before = views(lines@);
    push_line(lines, concat3("  ", dot, key));
    let ghost start = views(lines@);
    let ghost rv = rule_views(t.rules@);
    let mut i: usize = 0;
    assert(start =~= start + rule_lines(rv, 0));
    while i < t.rules.len()
        invariant
            rv == rule_views(t.rules@),
            i <= rv.len(),
            views(lines@) == start + rule_lines(rv, i as int),
        decreases rv.len() - i,
    {
        assert(rv[i as int] == t.rules@[i as int]@);
        push_line(lines, rule_line_string(i, &t.rules[i]));
        assert(views(lines@) =~= start + rule_lines(rv, i + 1));
        i = i + 1;
    }
    match &t.default {
        Some(a) => push_line(lines, concat2("    default → ", a.as_str())),
        None => push_line(lines, owned("    default → (なし → ピッカー)")),
    }
    assert(views(lines@) =~= before + table_lines(dot@, key@, t@));
}

fn push_section(lines: &mut Vec<String>, kind: &str, dot: &str, tables: &NameMap<crate::config::RouteTable>)
    ensures
        views(final(lines)@) == views(old(lines)@) + section_lines(kind@, dot@, table_entries(tables@)),
{
    let ghost before = views(lines@);
    let ghost ts = table_entries(tables@);
    if tables.is_empty() {
        assert(views(lines@) =~= before + section_lines(kind@, dot@, ts));
        return;
    }
    push_line(lines, String::new());
    let n = usize_to_string(tables.len());
    let a = concat3(kind, "ルート (", n.as_str());
    push_line(lines, concat2(a.as_str(), "):"));
    let ghost start = views(lines@);
    let mut i: usize = 0;
    assert(start =~= start + tables_lines(dot@, ts, 0));
    while i < tables.len()
        invariant
            ts == table_entries(tables@),
            i <= ts.len(),
            views(lines@) == start + tables_lines(dot@, ts, i as int),
        decreases ts.len() - i,
    {
        assert(ts[i as int].0 == tables@[i as int].0);
        assert(ts[i as int].1 == tables@[i as int].1@);
        push_table_lines(lines, dot, tables.key_at(i).as_str(), tables.value_at(i));
        assert(views(lines@) =~= start + tables_lines(dot@, ts, i + 1));
        i = i + 1;
    }
    assert(views(lines@) =~= before + section_lines(kind@, dot@, ts));
}

/// The listing of `list` (see `list_spec`).
pub fn list_lines(config: &Config) -> (lines: Vec<String>)
    ensures
        views(lines@) == list_spec(config@),
{
    let mut lines: Vec<String> = Vec::new();
    let n = usize_to_string(config.apps.len());
    push_line(&mut lines, concat3("アプリ定義 (", n.as_str(), "):"));
    let ghost start = views(lines@);
    let ghost apps = config@.apps;
    let mut i: usize = 0;
    assert(start =~= start + apps_lines(apps, 0));
    while i < config.apps.len()
        invariant
            apps == config@.apps,
            i <= apps.len(),
            views(lines@) == start + apps_lines(apps, i as int),
        decreases apps.len() - i,
    {
        let name = config.apps.key_at(i);
        let def = config.apps.value_at(i);
        assert(apps[i as int].0 == name@);
        assert(apps[i as int].1 == def@);
        let label = match &def.label {
            Some(l) => concat3(" (", l.as_str(), ")"),
            None => String::new(),
        };
        let a = concat3("  ", name.as_str(), label.as_str());
        push_line(&mut lines, concat3(a.as_str(), " → ", def.cmd.as_str()));
        assert(views(lines@) =~= start + apps_lines(apps, i + 1));
        i = i + 1;
    }
    assert(apps.len() == config.apps@.len());
    let ghost after_apps = views(lines@);
    push_section(&mut lines, "拡張子", ".", &config.ext);
    push_section(&mut lines, "プロトコル", "", &config.protocol);
    assert(views(lines@) =~= list_spec(config@));
    lines
}

} // verus!
