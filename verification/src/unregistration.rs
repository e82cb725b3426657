//! What `unregister` removes under `HKEY_CURRENT_USER`, in order: this
//! tool's ProgIDs, then for each extension its default value (put back from
//! the backup, or removed) and its entry in `OpenWithProgids`, then the
//! schemes this tool handles, the browser registration and its entry among
//! the registered applications. The caller reads the registry first,
//! performs the steps and reports the lines.
use vstd::prelude::*;
use crate::config::{Config, ConfigView, opt_view};
use crate::name_map::lookup;
use crate::registration::{classes_key, client_key, concat_all, under};
use crate::registry::{
    Backup, DefaultRestore, DefaultRestoreView, apply_ext_times, default_restore, default_restore_spec,
    is_own_progid, is_web_scheme, law_backup_then_unregister_restores, owns_scheme, progid_for_ext, progid_spec,
    saved_default_spec, saved_of,
};
use crate::text::{concat2, concat3, contains_seq, owned, starts_with};

verus! {

/// One step of `unregister`; paths are below `HKEY_CURRENT_USER`.
#[derive(Debug)]
pub enum UnregStep {
    /// Delete the key with all its subkeys, if it exists.
    DeleteTree(String),
    /// Set the string value `name` (empty for the default value) of the key.
    SetValue { key: String, name: String, value: String },
    /// Delete the value `name` of the key, if both exist.
    DeleteValue { key: String, name: String },
    /// Delete the key if it is left empty (see `registry::ext_key_removable`).
    RemoveIfEmpty(String),
    /// Report a line.
    Say(String),
    /// Tell the shell that associations changed.
    Notify,
}

pub enum UnregStepView {
    DeleteTree(Seq<char>),
    SetValue { key: Seq<char>, name: Seq<char>, value: Seq<char> },
    DeleteValue { key: Seq<char>, name: Seq<char> },
    RemoveIfEmpty(Seq<char>),
    Say(Seq<char>),
    Notify,
}

impl View for UnregStep {
    type V = UnregStepView;

    open spec fn view(&self) -> UnregStepView {
        match self {
            UnregStep::DeleteTree(k) => UnregStepView::DeleteTree(k@),
            UnregStep::SetValue { key, name, value } => UnregStepView::SetValue {
                key: key@,
                name: name@,
                value: value@,
            },
            UnregStep::DeleteValue { key, name } => UnregStepView::DeleteValue { key: key@, name: name@ },
            UnregStep::RemoveIfEmpty(k) => UnregStepView::RemoveIfEmpty(k@),
            UnregStep::Say(s) => UnregStepView::Say(s@),
            UnregStep::Notify => UnregStepView::Notify,
        }
    }
}

pub open spec fn unreg_views(s: Seq<UnregStep>) -> Seq<UnregStepView> {
    s.map_values(|x: UnregStep| x@)
}

/// Deleting one key name of Classes when it is one of this tool's ProgIDs.
pub open spec fn progid_removal(name: Seq<char>) -> Seq<UnregStepView> {
    if starts_with(name, "WinAssoc."@) {
        seq![
            UnregStepView::DeleteTree(under(classes_key(), name)),
            UnregStepView::Say("削除: ProgID "@ + name),
        ]
    } else {
        Seq::empty()
    }
}

/// The default value of an extension that the backup holds, if any.
pub open spec fn saved_default_of(saved: Option<Backup>, ext: Seq<char>) -> Option<Seq<char>> {
    match saved {
        Some(b) => match lookup(b.ext@, ext) {
            Some(e) => opt_view(e.class_default),
            None => None,
        },
        None => None,
    }
}

/// The steps for one extension; `current` is the default value of `.<ext>`
/// if that key exists (empty when it has none).
pub open spec fn ext_removal(
    ext: Seq<char>,
    current: Option<Seq<char>>,
    saved: Option<Seq<char>>,
) -> Seq<UnregStepView> {
    let ek = under(classes_key(), "."@ + ext);
    let progid = progid_spec(ext);
    let said = UnregStepView::Say("復元: ."@ + ext + " の既定 ProgID"@);
    (match current {
        Some(cur) => (match default_restore_spec(cur, progid, saved) {
            DefaultRestoreView::Leave => Seq::empty(),
            DefaultRestoreView::Restore(v) => seq![
                UnregStepView::SetValue { key: ek, name: Seq::empty(), value: v },
                said,
            ],
            DefaultRestoreView::Delete => seq![
                UnregStepView::DeleteValue { key: ek, name: Seq::empty() },
                said,
            ],
        }) + seq![UnregStepView::DeleteValue { key: under(ek, "OpenWithProgids"@), name: progid }],
        None => Seq::empty(),
    }) + seq![UnregStepView::RemoveIfEmpty(ek)]
}

/// The steps for one scheme; `command` is the command of its Classes key if
/// that key exists.
pub open spec fn scheme_removal(scheme: Seq<char>, command: Option<Seq<char>>) -> Seq<UnregStepView> {
    match command {
        Some(cur) => if !is_web_scheme(scheme) && contains_seq(cur, "winassoc"@) {
            seq![
                UnregStepView::DeleteTree(under(classes_key(), scheme)),
                UnregStepView::Say("削除: "@ + scheme + ":"@),
            ]
        } else {
            Seq::empty()
        },
        None => Seq::empty(),
    }
}

pub open spec fn unreg_closing(client_exists: bool) -> Seq<UnregStepView> {
    (if client_exists {
        seq![
            UnregStepView::DeleteTree(client_key()),
            UnregStepView::Say("削除: ブラウザ登録 (StartMenuInternet)"@),
        ]
    } else {
        Seq::empty()
    }) + seq![
        UnregStepView::DeleteValue { key: "Software\\RegisteredApplications"@, name: "WinAssoc"@ },
        UnregStepView::Notify,
        UnregStepView::Say("登録解除が完了しました"@),
    ]
}

/// Everything `unregister` does, from what was read before it started: the
/// key names of Classes, the default value of each configured extension's
/// key (`None` where the key does not exist), the newest backup, the command
/// of each configured scheme's key (`None` where it does not exist), and
/// whether the browser registration exists.
pub open spec fn unregister_steps(
    c: ConfigView,
    class_keys: Seq<Seq<char>>,
    ext_defaults: Seq<Option<Seq<char>>>,
    saved: Option<Backup>,
    scheme_commands: Seq<Option<Seq<char>>>,
    client_exists: bool,
) -> Seq<UnregStepView> {
    concat_all(Seq::new(class_keys.len(), |i: int| progid_removal(class_keys[i])))
        + concat_all(
        Seq::new(
            c.ext.len(),
            |i: int| ext_removal(c.ext[i].0, ext_defaults[i], saved_default_of(saved, c.ext[i].0)),
        ),
    ) + concat_all(Seq::new(c.protocol.len(), |i: int| scheme_removal(c.protocol[i].0, scheme_commands[i])))
        + unreg_closing(client_exists)
}

/// After `apply` has run one or more times on an extension whose default
/// did not name one of this tool's ProgIDs before, `unregister`'s steps for
/// it set that default back (or remove the default when nothing was worth
/// saving), then drop this tool's `OpenWithProgids` entry and the key if it
/// is left empty.
pub proof fn law_unregister_after_applies_puts_default_back(
    ext: Seq<char>,
    start: (Option<Seq<char>>, Option<Option<Seq<char>>>),
    n: nat,
)
    requires
        n >= 1,
        !(start.0 matches Some(v) && starts_with(v, "WinAssoc."@)),
    ensures
        ext_removal(
            ext,
            apply_ext_times(ext, start, n).0,
            saved_of(apply_ext_times(ext, start, n)),
        ) == (match saved_default_spec(start.0) {
            Some(v) => seq![
                UnregStepView::SetValue {
                    key: under(classes_key(), "."@ + ext),
                    name: Seq::empty(),
                    value: v,
                },
            ],
            None => seq![UnregStepView::DeleteValue { key: under(classes_key(), "."@ + ext), name: Seq::empty() }],
        }) + seq![
            UnregStepView::Say("復元: ."@ + ext + " の既定 ProgID"@),
            UnregStepView::DeleteValue {
                key: under(under(classes_key(), "."@ + ext), "OpenWithProgids"@),
                name: progid_spec(ext),
            },
            UnregStepView::RemoveIfEmpty(under(classes_key(), "."@ + ext)),
        ],
{
    law_backup_then_unregister_restores(ext, start, n);
    let a = ext_removal(ext, apply_ext_times(ext, start, n).0, saved_of(apply_ext_times(ext, start, n)));
    match saved_default_spec(start.0) {
        Some(v) => {
            assert(a =~= seq![
                UnregStepView::SetValue { key: under(classes_key(), "."@ + ext), name: Seq::empty(), value: v },
                UnregStepView::Say("復元: ."@ + ext + " の既定 ProgID"@),
                UnregStepView::DeleteValue {
                    key: under(under(classes_key(), "."@ + ext), "OpenWithProgids"@),
                    name: progid_spec(ext),
                },
                UnregStepView::RemoveIfEmpty(under(classes_key(), "."@ + ext)),
            ]);
        },
        None => {
            assert(a =~= seq![
                UnregStepView::DeleteValue { key: under(classes_key(), "."@ + ext), name: Seq::empty() },
                UnregStepView::Say("復元: ."@ + ext + " の既定 ProgID"@),
                UnregStepView::DeleteValue {
                    key: under(under(classes_key(), "."@ + ext), "OpenWithProgids"@),
                    name: progid_spec(ext),
                },
                UnregStepView::RemoveIfEmpty(under(classes_key(), "."@ + ext)),
            ]);
        },
    }
}

// ───────────────────────── building them ─────────────────────────

proof fn lemma_empty_literal()
    ensures
        ""@ == Seq::<char>::empty(),
{
    reveal_strlit("");
    assert(""@ =~= Seq::<char>::empty());
}

proof fn lemma_concat_all_step<A>(f: spec_fn(int) -> Seq<A>, i: int)
    requires
        0 <= i,
    ensures
        concat_all(Seq::new((i + 1) as nat, f)) == concat_all(Seq::new(i as nat, f)) + f(i),
{
    assert(Seq::new((i + 1) as nat, f).drop_last() =~= Seq::new(i as nat, f));
}

fn push_step(steps: &mut Vec<UnregStep>, s: UnregStep)
    ensures
        unreg_views(final(steps)@) == unreg_views(old(steps)@).push(s@),
{
    let ghost before = steps@;
    steps.push(s);
    assert(unreg_views(steps@) =~= unreg_views(before).push(s@));
}

fn classes_path(name: &str) -> (r: String)
    ensures
        r@ == under(classes_key(), name@),
{
    concat3("Software\\Classes", "\\", name)
}

fn push_progid_removal(steps: &mut Vec<UnregStep>, name: &str)
    ensures
        unreg_views(final(steps)@) == unreg_views(old(steps)@) + progid_removal(name@),
{
    let ghost before = unreg_views(steps@);
    if is_own_progid(name) {
        push_step(steps, UnregStep::DeleteTree(classes_path(name)));
        push_step(steps, UnregStep::Say(concat2("削除: ProgID ", name)));
    }
    assert(unreg_views(steps@) =~= before + progid_removal(name@));
}

fn saved_default(saved: &Option<Backup>, ext: &str) -> (r: Option<String>)
    ensures
        opt_view(r) == saved_default_of(*saved, ext@),
{
    match saved {
        Some(b) => match b.ext.get(ext) {
            Some(e) => match &e.class_default {
                Some(v) => Some(owned(v.as_str())),
                None => None,
            },
            None => None,
        },
        None => None,
    }
}

fn push_ext_removal(steps: &mut Vec<UnregStep>, ext: &str, current: &Option<String>, saved: &Option<String>)
    ensures
        unreg_views(final(steps)@) == unreg_views(old(steps)@) + ext_removal(
            ext@,
            opt_view(*current),
            opt_view(*saved),
        ),
{
    let ghost before = unreg_views(steps@);
    proof {
        lemma_empty_literal();
    }
    let ek = classes_path(concat2(".", ext).as_str());
    let progid = progid_for_ext(ext);
    match current {
        Some(cur) => {
            let said = concat3("復元: .", ext, " の既定 ProgID");
            match default_restore(cur.as_str(), progid.as_str(), saved) {
                DefaultRestore::Leave => {},
                DefaultRestore::Restore(v) => {
                    push_step(steps, UnregStep::SetValue { key: owned(ek.as_str()), name: String::new(), value: v });
                    push_step(steps, UnregStep::Say(said));
                },
                DefaultRestore::Delete => {
                    push_step(steps, UnregStep::DeleteValue { key: owned(ek.as_str()), name: String::new() });
                    push_step(steps, UnregStep::Say(said));
                },
            }
            let owp = concat3(ek.as_str(), "\\", "OpenWithProgids");
            push_step(steps, UnregStep::DeleteValue { key: owp, name: progid });
        },
        None => {},
    }
    push_step(steps, UnregStep::RemoveIfEmpty(ek));
    assert(unreg_views(steps@) =~= before + ext_removal(ext@, opt_view(*current), opt_view(*saved)));
}

fn push_scheme_removal(steps: &mut Vec<UnregStep>, scheme: &str, command: &Option<String>)
    ensures
        unreg_views(final(steps)@) == unreg_views(old(steps)@) + scheme_removal(scheme@, opt_view(*command)),
{
    let ghost before = unreg_views(steps@);
    match command {
        Some(cur) => {
            if owns_scheme(scheme, cur.as_str()) {
                push_step(steps, UnregStep::DeleteTree(classes_path(scheme)));
                push_step(steps, UnregStep::Say(concat3("削除: ", scheme, ":")));
            }
        },
        None => {},
    }
    assert(unreg_views(steps@) =~= before + scheme_removal(scheme@, opt_view(*command)));
}

/// The steps of `unregister` (see `unregister_steps`). `ext_defaults[i]`
/// belongs to the `i`-th configured extension and `scheme_commands[i]` to the
/// `i`-th configured scheme.
pub fn unregister_plan(
    config: &Config,
    class_keys: &Vec<String>,
    ext_defaults: &Vec<Option<String>>,
    saved: &Option<Backup>,
    scheme_commands: &Vec<Option<String>>,
    client_exists: bool,
) -> (steps: Vec<UnregStep>)
    requires
        ext_defaults@.len() == config@.ext.len(),
        scheme_commands@.len() == config@.protocol.len(),
    ensures
        unreg_views(steps@) == unregister_steps(
            config@,
            class_keys@.map_values(|k: String| k@),
            ext_defaults@.map_values(|o: Option<String>| opt_view(o)),
            *saved,
            scheme_commands@.map_values(|o: Option<String>| opt_view(o)),
            client_exists,
        ),
{
    let ghost keys = class_keys@.map_values(|k: String| k@);
    let ghost defaults = ext_defaults@.map_values(|o: Option<String>| opt_view(o));
    let ghost commands = scheme_commands@.map_values(|o: Option<String>| opt_view(o));
    let mut steps: Vec<UnregStep> = Vec::new();

    let ghost fp = |i: int| progid_removal(keys[i]);
    assert(unreg_views(steps@) =~= concat_all(Seq::new(0, fp)));
    let mut i: usize = 0;
    while i < class_keys.len()
        invariant
            i <= class_keys@.len(),
            keys == class_keys@.map_values(|k: String| k@),
            fp == (|j: int| progid_removal(keys[j])),
            unreg_views(steps@) == concat_all(Seq::new(i as nat, fp)),
        decreases class_keys@.len() - i,
    {
        push_progid_removal(&mut steps, class_keys[i].as_str());
        proof {
            lemma_concat_all_step(fp, i as int);
        }
        i = i + 1;
    }
    let ghost part1 = unreg_views(steps@);

    let n = config.ext.len();
    let ghost fe = |j: int| ext_removal(config@.ext[j].0, defaults[j], saved_default_of(*saved, config@.ext[j].0));
    assert(part1 =~= part1 + concat_all(Seq::new(0, fe)));
    let mut k: usize = 0;
    while k < n
        invariant
            n == config@.ext.len(),
            n == config.ext@.len(),
            n == ext_defaults@.len(),
            k <= n,
            defaults == ext_defaults@.map_values(|o: Option<String>| opt_view(o)),
            fe == (|j: int| ext_removal(config@.ext[j].0, defaults[j], saved_default_of(*saved, config@.ext[j].0))),
            unreg_views(steps@) == part1 + concat_all(Seq::new(k as nat, fe)),
        decreases n - k,
    {
        let ext = config.ext.key_at(k);
        proof {
            assert(config@.ext[k as int].0 == config.ext@[k as int].0);
        }
        let s = saved_default(saved, ext.as_str());
        push_ext_removal(&mut steps, ext.as_str(), &ext_defaults[k], &s);
        proof {
            lemma_concat_all_step(fe, k as int);
        }
        k = k + 1;
    }
    let ghost part2 = unreg_views(steps@);

    let m = config.protocol.len();
    let ghost fs = |j: int| scheme_removal(config@.protocol[j].0, commands[j]);
    assert(part2 =~= part2 + concat_all(Seq::new(0, fs)));
    let mut j: usize = 0;
    while j < m
        invariant
            m == config@.protocol.len(),
            m == config.protocol@.len(),
            m == scheme_commands@.len(),
            j <= m,
            commands == scheme_commands@.map_values(|o: Option<String>| opt_view(o)),
            fs == (|x: int| scheme_removal(config@.protocol[x].0, commands[x])),
            unreg_views(steps@) == part2 + concat_all(Seq::new(j as nat, fs)),
        decreases m - j,
    {
        let scheme = config.protocol.key_at(j);
        proof {
            assert(config@.protocol[j as int].0 == config.protocol@[j as int].0);
        }
        push_scheme_removal(&mut steps, scheme.as_str(), &scheme_commands[j]);
        proof {
            lemma_concat_all_step(fs, j as int);
        }
        j = j + 1;
    }
    let ghost part3 = unreg_views(steps@);

    if client_exists {
        push_step(&mut steps, UnregStep::DeleteTree(owned("Software\\Clients\\StartMenuInternet\\WinAssoc")));
        push_step(&mut steps, UnregStep::Say(owned("削除: ブラウザ登録 (StartMenuInternet)")));
    }
    push_step(
        &mut steps,
        UnregStep::DeleteValue { key: owned("Software\\RegisteredApplications"), name: owned("WinAssoc") },
    );
    push_step(&mut steps, UnregStep::Notify);
    push_step(&mut steps, UnregStep::Say(owned("登録解除が完了しました")));
    assert(unreg_views(steps@) =~= part3 + unreg_closing(client_exists));
    steps
}

} // verus!
