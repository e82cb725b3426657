//! What `apply` writes under `HKEY_CURRENT_USER`, in order: the ProgID and
//! the class of each extension, then, when URL schemes are configured, the
//! URL ProgID, the browser registration with its capabilities, and the schemes
//! themselves. The caller performs the steps and reports the lines.
use vstd::prelude::*;
use crate::config::{Config, ConfigView, RouteTableView};
use crate::env::{EnvSnapshot, expand_env, expand_seq};
use crate::name_map::{has_key, lookup};
use crate::registry::{
    SchemeRegistration, default_icon_value, progid_for_ext, progid_spec, scheme_description,
    scheme_registration, scheme_registration_spec,
};
use crate::text::{concat2, concat3, owned};

verus! {

/// One step of `apply`.
#[derive(Debug)]
pub enum RegStep {
    /// Create the key (with its parents) if it does not exist.
    Key(String),
    /// Create the key if needed and set the string value `name` (empty for
    /// the key's default value).
    Value { key: String, name: String, value: String },
    /// Report a line.
    Say(String),
    /// Tell the shell that associations changed.
    Notify,
}

pub enum RegStepView {
    Key(Seq<char>),
    Value { key: Seq<char>, name: Seq<char>, value: Seq<char> },
    Say(Seq<char>),
    Notify,
}

impl View for RegStep {
    type V = RegStepView;

    open spec fn view(&self) -> RegStepView {
        match self {
            RegStep::Key(k) => RegStepView::Key(k@),
            RegStep::Value { key, name, value } => RegStepView::Value {
                key: key@,
                name: name@,
                value: value@,
            },
            RegStep::Say(s) => RegStepView::Say(s@),
            RegStep::Notify => RegStepView::Notify,
        }
    }
}

pub open spec fn step_views(s: Seq<RegStep>) -> Seq<RegStepView> {
    s.map_values(|x: RegStep| x@)
}

/// The sequences joined in order.
pub open spec fn concat_all<A>(s: Seq<Seq<A>>) -> Seq<A>
    decreases s.len(),
{
    if s.len() == 0 {
        Seq::empty()
    } else {
        concat_all(s.drop_last()) + s.last()
    }
}

// ───────────────────────── paths ─────────────────────────

pub open spec fn classes_key() -> Seq<char> {
    "Software\\Classes"@
}

pub open spec fn client_key() -> Seq<char> {
    "Software\\Clients\\StartMenuInternet\\WinAssoc"@
}

/// `child` under `parent`.
pub open spec fn under(parent: Seq<char>, child: Seq<char>) -> Seq<char> {
    parent + "\\"@ + child
}

pub open spec fn command_key(parent: Seq<char>) -> Seq<char> {
    under(parent, "shell\\open\\command"@)
}

pub open spec fn capabilities_key() -> Seq<char> {
    under(client_key(), "Capabilities"@)
}

pub open spec fn value_step(key: Seq<char>, name: Seq<char>, value: Seq<char>) -> RegStepView {
    RegStepView::Value { key, name, value }
}

// ───────────────────────── the steps ─────────────────────────

/// The icon of an extension's ProgID: that of its default application, when
/// it names a defined one.
pub open spec fn icon_steps(
    c: ConfigView,
    progid_key: Seq<char>,
    t: RouteTableView,
    env: Seq<(Seq<char>, Seq<char>)>,
) -> Seq<RegStepView> {
    match t.default {
        Some(n) => if has_key(c.apps, n) {
            seq![
                value_step(
                    under(progid_key, "DefaultIcon"@),
                    Seq::empty(),
                    expand_seq(lookup(c.apps, n)->0.cmd, env) + ",0"@,
                ),
            ]
        } else {
            Seq::empty()
        },
        None => Seq::empty(),
    }
}

/// The steps for one extension.
pub open spec fn ext_steps(
    c: ConfigView,
    ext: Seq<char>,
    t: RouteTableView,
    command: Seq<char>,
    env: Seq<(Seq<char>, Seq<char>)>,
) -> Seq<RegStepView> {
    let progid = progid_spec(ext);
    let pk = under(classes_key(), progid);
    let ek = under(classes_key(), "."@ + ext);
    seq![value_step(pk, Seq::empty(), "."@ + ext + " (winassoc ルーター)"@)] + icon_steps(c, pk, t, env)
        + seq![
        value_step(command_key(pk), Seq::empty(), command),
        value_step(ek, Seq::empty(), progid),
        value_step(under(ek, "OpenWithProgids"@), progid, Seq::empty()),
        RegStepView::Say("登録: ."@ + ext + " → "@ + progid),
    ]
}

/// The steps for one URL scheme; `existing` is the command of the scheme's
/// key in Classes if the key exists.
pub open spec fn scheme_steps(scheme: Seq<char>, existing: Option<Seq<char>>, command: Seq<char>) -> Seq<RegStepView> {
    let sk = under(classes_key(), scheme);
    seq![value_step(under(capabilities_key(), "URLAssociations"@), scheme, "WinAssoc.Url"@)]
        + match scheme_registration_spec(scheme, existing) {
        SchemeRegistration::Skip => Seq::empty(),
        SchemeRegistration::KeepForeign => seq![
            RegStepView::Say(
                "  注意: "@ + scheme + ": は既存ハンドラがあるため Classes は変更しません ("@
                    + existing->0 + ")"@,
            ),
        ],
        SchemeRegistration::Register => seq![
            value_step(sk, Seq::empty(), "URL:"@ + scheme + " (winassoc ルーター)"@),
            value_step(sk, "URL Protocol"@, Seq::empty()),
            value_step(command_key(sk), Seq::empty(), command),
        ],
    } + seq![RegStepView::Say("登録: "@ + scheme + ": → WinAssoc.Url"@)]
}

pub open spec fn ext_section(c: ConfigView, command: Seq<char>, env: Seq<(Seq<char>, Seq<char>)>) -> Seq<RegStepView> {
    concat_all(Seq::new(c.ext.len(), |i: int| ext_steps(c, c.ext[i].0, c.ext[i].1, command, env)))
}

pub open spec fn protocol_head(command: Seq<char>, blank_command: Seq<char>) -> Seq<RegStepView> {
    let uk = under(classes_key(), "WinAssoc.Url"@);
    seq![
        value_step(uk, Seq::empty(), "WinAssoc URL ルーター"@),
        value_step(command_key(uk), Seq::empty(), command),
        value_step(client_key(), Seq::empty(), "WinAssoc"@),
        value_step(command_key(client_key()), Seq::empty(), blank_command),
        value_step(capabilities_key(), "ApplicationName"@, "WinAssoc"@),
        value_step(
            capabilities_key(),
            "ApplicationDescription"@,
            "URL をルールベースで振り分けるルーター"@,
        ),
    ]
}

pub open spec fn file_assoc_steps(c: ConfigView) -> Seq<RegStepView> {
    seq![RegStepView::Key(under(capabilities_key(), "FileAssociations"@))] + Seq::new(
        c.ext.len(),
        |i: int|
            value_step(
                under(capabilities_key(), "FileAssociations"@),
                "."@ + c.ext[i].0,
                progid_spec(c.ext[i].0),
            ),
    )
}

/// The steps for the URL schemes, after the URL ProgID and the browser
/// registration: each scheme, then the file associations of the browser's
/// capabilities, then its entry among the registered applications.
pub open spec fn schemes_section(
    c: ConfigView,
    command: Seq<char>,
    existing: Seq<Option<Seq<char>>>,
) -> Seq<RegStepView> {
    concat_all(Seq::new(c.protocol.len(), |i: int| scheme_steps(c.protocol[i].0, existing[i], command)))
        + file_assoc_steps(c) + seq![
        value_step(
            "Software\\RegisteredApplications"@,
            "WinAssoc"@,
            under(client_key(), "Capabilities"@),
        ),
    ]
}

pub open spec fn closing_steps() -> Seq<RegStepView> {
    seq![
        RegStepView::Notify,
        RegStepView::Say(Seq::empty()),
        RegStepView::Say("登録完了。http/https など UserChoice 保護された既定の最終確定は"@),
        RegStepView::Say("  start ms-settings:defaultapps"@),
        RegStepView::Say("を開いて WinAssoc を選択してください (winassoc doctor で未確定項目を確認できます)"@),
    ]
}

/// What `apply` does first after the backup: Classes, the extensions, and,
/// when URL schemes are configured, the URL ProgID and the browser
/// registration.
pub open spec fn head_steps(
    c: ConfigView,
    command: Seq<char>,
    blank_command: Seq<char>,
    env: Seq<(Seq<char>, Seq<char>)>,
) -> Seq<RegStepView> {
    seq![RegStepView::Key(classes_key())] + ext_section(c, command, env) + if c.protocol.len() == 0 {
        Seq::empty()
    } else {
        protocol_head(command, blank_command)
    }
}

/// What `apply` does then, with `existing[i]` the command that the Classes
/// key of the `i`-th scheme holds at that point, if any.
pub open spec fn tail_steps(c: ConfigView, command: Seq<char>, existing: Seq<Option<Seq<char>>>) -> Seq<RegStepView> {
    if c.protocol.len() == 0 {
        closing_steps()
    } else {
        schemes_section(c, command, existing) + closing_steps()
    }
}

// ───────────────────────── building them ─────────────────────────

proof fn lemma_empty_literal()
    ensures
        ""@ == Seq::<char>::empty(),
{
    reveal_strlit("");
    assert(""@ =~= Seq::<char>::empty());
}

fn push_step(steps: &mut Vec<RegStep>, s: RegStep)
    ensures
        step_views(final(steps)@) == step_views(old(steps)@).push(s@),
{
    let ghost before = steps@;
    steps.push(s);
    assert(step_views(steps@) =~= step_views(before).push(s@));
}

fn value(key: &str, name: &str, v: &str) -> (r: RegStep)
    ensures
        r@ == value_step(key@, name@, v@),
{
    RegStep::Value { key: owned(key), name: owned(name), value: owned(v) }
}

fn say(s: String) -> (r: RegStep)
    ensures
        r@ == RegStepView::Say(s@),
{
    RegStep::Say(s)
}

proof fn lemma_concat_all_prefix<A>(f: spec_fn(int) -> Seq<A>, n: int, i: int)
    requires
        0 <= i < n,
    ensures
        concat_all(Seq::new((i + 1) as nat, f)) == concat_all(Seq::new(i as nat, f)) + f(i),
{
    assert(Seq::new((i + 1) as nat, f).drop_last() =~= Seq::new(i as nat, f));
}

fn push_ext_steps(
    steps: &mut Vec<RegStep>,
    config: &Config,
    ext: &str,
    table: &crate::config::RouteTable,
    command: &str,
    env: &EnvSnapshot,
)
    ensures
        step_views(final(steps)@) == step_views(old(steps)@) + ext_steps(
            config@,
            ext@,
            table@,
            command@,
            env@,
        ),
{
    let ghost before = step_views(steps@);
    proof {
        lemma_empty_literal();
    }
    let progid = progid_for_ext(ext);
    let pk = concat3("Software\\Classes", "\\", progid.as_str());
    let ek_name = concat2(".", ext);
    let ek = concat3("Software\\Classes", "\\", ek_name.as_str());
    push_step(steps, value(pk.as_str(), "", crate::registry::progid_description(ext).as_str()));
    let ghost mid = step_views(steps@);
    match &table.default {
        Some(n) => {
            proof {
                crate::engine::lemma_lookup_app(config.apps@, n@);
                crate::config::lemma_app_keys(config.apps@);
            }
            match config.apps.get(n.as_str()) {
                Some(def) => {
                    proof {
                        crate::name_map::lemma_index_from_found(config.apps@, n@, 0);
                        let at = crate::name_map::index_of_key(config.apps@, n@)->0;
                        assert(config.apps@[at].0 == n@);
                        assert(has_key(config.apps@, n@));
                        assert(has_key(config@.apps, n@));
                        assert(lookup(config@.apps, n@) == Some(def@));
                    }
                    let program = expand_env(def.cmd.as_str(), env);
                    let icon_key = concat3(pk.as_str(), "\\", "DefaultIcon");
                    push_step(steps, value(icon_key.as_str(), "", default_icon_value(program.as_str()).as_str()));
                },
                None => {},
            }
        },
        None => {},
    }
    assert(step_views(steps@) == mid + icon_steps(config@, pk@, table@, env@));
    let ck = concat3(pk.as_str(), "\\", "shell\\open\\command");
    push_step(steps, value(ck.as_str(), "", command));
    push_step(steps, value(ek.as_str(), "", progid.as_str()));
    let owp = concat3(ek.as_str(), "\\", "OpenWithProgids");
    push_step(steps, value(owp.as_str(), progid.as_str(), ""));
    let a = concat3("登録: .", ext, " → ");
    push_step(steps, say(concat2(a.as_str(), progid.as_str())));
    assert(step_views(steps@) =~= before + ext_steps(config@, ext@, table@, command@, env@));
}

fn push_scheme_steps(steps: &mut Vec<RegStep>, scheme: &str, existing: &Option<String>, command: &str)
    ensures
        step_views(final(steps)@) == step_views(old(steps)@) + scheme_steps(
            scheme@,
            crate::config::opt_view(*existing),
            command@,
        ),
{
    let ghost before = step_views(steps@);
    proof {
        lemma_empty_literal();
    }
    let caps = concat3("Software\\Clients\\StartMenuInternet\\WinAssoc", "\\", "Capabilities");
    let ua = concat3(caps.as_str(), "\\", "URLAssociations");
    push_step(steps, value(ua.as_str(), scheme, "WinAssoc.Url"));
    let ghost mid = step_views(steps@);
    let ex: Option<&str> = match existing {
        Some(s) => Some(s.as_str()),
        None => None,
    };
    match scheme_registration(scheme, ex) {
        SchemeRegistration::Skip => {},
        SchemeRegistration::KeepForeign => {
            let cur = match existing {
                Some(s) => s.as_str(),
                None => "",
            };
            let a = concat3("  注意: ", scheme, ": は既存ハンドラがあるため Classes は変更しません (");
            push_step(steps, say(concat3(a.as_str(), cur, ")")));
        },
        SchemeRegistration::Register => {
            let sk = concat3("Software\\Classes", "\\", scheme);
            push_step(steps, value(sk.as_str(), "", scheme_description(scheme).as_str()));
            push_step(steps, value(sk.as_str(), "URL Protocol", ""));
            let ck = concat3(sk.as_str(), "\\", "shell\\open\\command");
            push_step(steps, value(ck.as_str(), "", command));
        },
    }
    let a = concat3("登録: ", scheme, ": → WinAssoc.Url");
    push_step(steps, say(a));
    assert(step_views(steps@) =~= before + scheme_steps(
        scheme@,
        crate::config::opt_view(*existing),
        command@,
    ));
}

/// The first steps of `apply` (see `head_steps`). `command` is the shim's
/// command for `%1`, `blank_command` the one for `about:blank`.
pub fn apply_plan_head(config: &Config, command: &str, blank_command: &str, env: &EnvSnapshot) -> (steps: Vec<
    RegStep,
>)
    ensures
        step_views(steps@) == head_steps(config@, command@, blank_command@, env@),
{
    proof {
        lemma_empty_literal();
    }
    let mut steps: Vec<RegStep> = Vec::new();
    push_step(&mut steps, RegStep::Key(owned("Software\\Classes")));
    let ghost head = step_views(steps@);
    let n = config.ext.len();
    let mut i: usize = 0;
    let ghost fe = |j: int| ext_steps(config@, config@.ext[j].0, config@.ext[j].1, command@, env@);
    assert(Seq::new(0, fe) =~= Seq::<Seq<RegStepView>>::empty());
    while i < n
        invariant
            n == config@.ext.len(),
            n == config.ext@.len(),
            i <= n,
            fe == (|j: int| ext_steps(config@, config@.ext[j].0, config@.ext[j].1, command@, env@)),
            step_views(steps@) == head + concat_all(Seq::new(i as nat, fe)),
        decreases n - i,
    {
        let ext = config.ext.key_at(i);
        let table = config.ext.value_at(i);
        proof {
            assert(config@.ext[i as int] == (config.ext@[i as int].0, config.ext@[i as int].1@));
        }
        push_ext_steps(&mut steps, config, ext.as_str(), table, command, env);
        proof {
            lemma_concat_all_prefix(fe, n as int, i as int);
        }
        i = i + 1;
    }
    assert(step_views(steps@) == head + ext_section(config@, command@, env@));
    let ghost after_ext = step_views(steps@);
    if config.protocol.len() > 0 {
        let uk = concat3("Software\\Classes", "\\", "WinAssoc.Url");
        push_step(&mut steps, value(uk.as_str(), "", "WinAssoc URL ルーター"));
        let uck = concat3(uk.as_str(), "\\", "shell\\open\\command");
        push_step(&mut steps, value(uck.as_str(), "", command));
        let client = "Software\\Clients\\StartMenuInternet\\WinAssoc";
        push_step(&mut steps, value(client, "", "WinAssoc"));
        let cck = concat3(client, "\\", "shell\\open\\command");
        push_step(&mut steps, value(cck.as_str(), "", blank_command));
        let caps = concat3(client, "\\", "Capabilities");
        push_step(&mut steps, value(caps.as_str(), "ApplicationName", "WinAssoc"));
        push_step(
            &mut steps,
            value(caps.as_str(), "ApplicationDescription", "URL をルールベースで振り分けるルーター"),
        );
        assert(step_views(steps@) =~= after_ext + protocol_head(command@, blank_command@));
    } else {
        assert(step_views(steps@) =~= after_ext + Seq::<RegStepView>::empty());
    }
    steps
}

/// The remaining steps of `apply` (see `tail_steps`), with `existing[i]`
/// the command found in the Classes key of the `i`-th scheme after the first
/// steps, if that key exists.
pub fn apply_plan_tail(config: &Config, command: &str, existing: &Vec<Option<String>>) -> (steps: Vec<RegStep>)
    requires
        existing@.len() == config@.protocol.len(),
    ensures
        step_views(steps@) == tail_steps(
            config@,
            command@,
            existing@.map_values(|o: Option<String>| crate::config::opt_view(o)),
        ),
{
    proof {
        lemma_empty_literal();
    }
    let mut steps: Vec<RegStep> = Vec::new();
    let ghost ex = existing@.map_values(|o: Option<String>| crate::config::opt_view(o));
    let m = config.protocol.len();
    let n = config.ext.len();
    if m > 0 {
        let ghost fs = |j: int| scheme_steps(config@.protocol[j].0, ex[j], command@);
        assert(Seq::new(0, fs) =~= Seq::<Seq<RegStepView>>::empty());
        assert(step_views(steps@) =~= concat_all(Seq::new(0, fs)));
        let mut j: usize = 0;
        while j < m
            invariant
                m == config@.protocol.len(),
                m == config.protocol@.len(),
                m == existing@.len(),
                j <= m,
                ex == existing@.map_values(|o: Option<String>| crate::config::opt_view(o)),
                fs == (|k: int| scheme_steps(config@.protocol[k].0, ex[k], command@)),
                step_views(steps@) == concat_all(Seq::new(j as nat, fs)),
            decreases m - j,
        {
            let scheme = config.protocol.key_at(j);
            proof {
                assert(config@.protocol[j as int].0 == config.protocol@[j as int].0);
                assert(ex[j as int] == crate::config::opt_view(existing@[j as int]));
            }
            push_scheme_steps(&mut steps, scheme.as_str(), &existing[j], command);
            proof {
                lemma_concat_all_prefix(fs, m as int, j as int);
            }
            j = j + 1;
        }
        let ghost head3 = step_views(steps@);
        let client = "Software\\Clients\\StartMenuInternet\\WinAssoc";
        let caps = concat3(client, "\\", "Capabilities");
        let fk = concat3(caps.as_str(), "\\", "FileAssociations");
        push_step(&mut steps, RegStep::Key(owned(fk.as_str())));
        let ghost head4 = step_views(steps@);
        let mut k: usize = 0;
        while k < n
            invariant
                n == config@.ext.len(),
                n == config.ext@.len(),
                k <= n,
                fk@ == under(capabilities_key(), "FileAssociations"@),
                step_views(steps@) == head4 + Seq::new(
                    k as nat,
                    |x: int| value_step(fk@, "."@ + config@.ext[x].0, progid_spec(config@.ext[x].0)),
                ),
            decreases n - k,
        {
            let ext = config.ext.key_at(k);
            proof {
                assert(config@.ext[k as int].0 == config.ext@[k as int].0);
            }
            let name = concat2(".", ext.as_str());
            push_step(&mut steps, value(fk.as_str(), name.as_str(), progid_for_ext(ext.as_str()).as_str()));
            assert(step_views(steps@) =~= head4 + Seq::new(
                (k + 1) as nat,
                |x: int| value_step(fk@, "."@ + config@.ext[x].0, progid_spec(config@.ext[x].0)),
            ));
            k = k + 1;
        }
        let rk = concat3(client, "\\", "Capabilities");
        push_step(&mut steps, value("Software\\RegisteredApplications", "WinAssoc", rk.as_str()));
        assert(step_views(steps@) =~= schemes_section(config@, command@, ex));
    }
    let ghost before_close = step_views(steps@);
    push_step(&mut steps, RegStep::Notify);
    push_step(&mut steps, say(String::new()));
    push_step(&mut steps, say(owned("登録完了。http/https など UserChoice 保護された既定の最終確定は")));
    push_step(&mut steps, say(owned("  start ms-settings:defaultapps")));
    push_step(
        &mut steps,
        say(owned("を開いて WinAssoc を選択してください (winassoc doctor で未確定項目を確認できます)")),
    );
    assert(step_views(steps@) =~= before_close + closing_steps());
    if m == 0 {
        assert(before_close =~= Seq::<RegStepView>::empty());
    }
    steps
}

} // verus!
