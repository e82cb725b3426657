//! A model of the part of the registry that `apply` touches, and what its
//! steps do to it: registering again leaves the registry as registering once
//! did.
use vstd::prelude::*;
use crate::config::ConfigView;
use crate::name_map::{keys_ascending, keys_of};
use crate::registration::{
    RegStepView, classes_key, client_key, closing_steps, command_key, concat_all, ext_section, ext_steps,
    file_assoc_steps, head_steps, icon_steps, protocol_head, scheme_steps, schemes_section, tail_steps, under,
    value_step,
};
use crate::registry::{SchemeRegistration, ext_item, progid_spec, scheme_registration_spec};
use crate::text::contains_seq;

verus! {

/// The keys created and the string values set, by key and value name.
pub struct RegModel {
    pub keys: Set<Seq<char>>,
    pub values: Map<(Seq<char>, Seq<char>), Seq<char>>,
}

/// What one step does to the model.
pub open spec fn step_effect(s: RegModel, st: RegStepView) -> RegModel {
    match st {
        RegStepView::Key(k) => RegModel { keys: s.keys.insert(k), values: s.values },
        RegStepView::Value { key, name, value } => RegModel {
            keys: s.keys.insert(key),
            values: s.values.insert((key, name), value),
        },
        _ => s,
    }
}

/// What a sequence of steps does to the model, from the first.
pub open spec fn run_steps(s: RegModel, steps: Seq<RegStepView>) -> RegModel
    decreases steps.len(),
{
    if steps.len() == 0 {
        s
    } else {
        step_effect(run_steps(s, steps.drop_last()), steps.last())
    }
}

/// The value that the last step setting `p` sets, if any step does.
pub open spec fn last_write(steps: Seq<RegStepView>, p: (Seq<char>, Seq<char>)) -> Option<Seq<char>>
    decreases steps.len(),
{
    if steps.len() == 0 {
        None
    } else {
        match steps.last() {
            RegStepView::Value { key, name, value } => if (key, name) == p {
                Some(value)
            } else {
                last_write(steps.drop_last(), p)
            },
            _ => last_write(steps.drop_last(), p),
        }
    }
}

/// Whether some step creates the key `k`.
pub open spec fn creates(steps: Seq<RegStepView>, k: Seq<char>) -> bool
    decreases steps.len(),
{
    if steps.len() == 0 {
        false
    } else {
        match steps.last() {
            RegStepView::Key(k2) => k2 == k || creates(steps.drop_last(), k),
            RegStepView::Value { key, .. } => key == k || creates(steps.drop_last(), k),
            _ => creates(steps.drop_last(), k),
        }
    }
}

/// The pair holding the command of a scheme's Classes key.
pub open spec fn scheme_command_pair(scheme: Seq<char>) -> (Seq<char>, Seq<char>) {
    (command_key(under(classes_key(), scheme)), Seq::empty())
}

/// The command that the model holds for a scheme's Classes key, if any.
pub open spec fn scheme_command(s: RegModel, scheme: Seq<char>) -> Option<Seq<char>> {
    if s.values.contains_key(scheme_command_pair(scheme)) {
        Some(s.values[scheme_command_pair(scheme)])
    } else {
        None
    }
}

/// The commands of the configured schemes, in order.
pub open spec fn scheme_commands(s: RegModel, c: ConfigView) -> Seq<Option<Seq<char>>> {
    Seq::new(c.protocol.len(), |i: int| scheme_command(s, c.protocol[i].0))
}

/// `apply` on the model: the first steps, then the rest, decided on the
/// scheme commands found after the first steps.
pub open spec fn apply_model(
    c: ConfigView,
    command: Seq<char>,
    blank_command: Seq<char>,
    env: Seq<(Seq<char>, Seq<char>)>,
    s0: RegModel,
) -> RegModel {
    let s1 = run_steps(s0, head_steps(c, command, blank_command, env));
    run_steps(s1, tail_steps(c, command, scheme_commands(s1, c)))
}

// ───────────────────────── running steps ─────────────────────────

proof fn lemma_run_value(s: RegModel, steps: Seq<RegStepView>, p: (Seq<char>, Seq<char>))
    ensures
        run_steps(s, steps).values.contains_key(p) == (last_write(steps, p) is Some || s.values.contains_key(
            p,
        )),
        run_steps(s, steps).values.contains_key(p) ==> run_steps(s, steps).values[p] == match last_write(
            steps,
            p,
        ) {
            Some(v) => v,
            None => s.values[p],
        },
    decreases steps.len(),
{
    if steps.len() > 0 {
        lemma_run_value(s, steps.drop_last(), p);
    }
}

proof fn lemma_run_key(s: RegModel, steps: Seq<RegStepView>, k: Seq<char>)
    ensures
        run_steps(s, steps).keys.contains(k) == (creates(steps, k) || s.keys.contains(k)),
    decreases steps.len(),
{
    if steps.len() > 0 {
        lemma_run_key(s, steps.drop_last(), k);
    }
}

proof fn lemma_run_concat(s: RegModel, a: Seq<RegStepView>, b: Seq<RegStepView>)
    ensures
        run_steps(s, a + b) == run_steps(run_steps(s, a), b),
    decreases b.len(),
{
    if b.len() == 0 {
        assert(a + b =~= a);
    } else {
        lemma_run_concat(s, a, b.drop_last());
        assert((a + b).drop_last() =~= a + b.drop_last());
        assert((a + b).last() == b.last());
    }
}

/// Running the same steps a second time changes nothing.
proof fn lemma_run_twice(s: RegModel, steps: Seq<RegStepView>)
    ensures
        run_steps(run_steps(s, steps), steps) == run_steps(s, steps),
{
    let r1 = run_steps(s, steps);
    let r2 = run_steps(r1, steps);
    assert forall|p: (Seq<char>, Seq<char>)| #[trigger] r2.values.contains_key(p) == r1.values.contains_key(p)
        by {
        lemma_run_value(s, steps, p);
        lemma_run_value(r1, steps, p);
    }
    assert forall|p: (Seq<char>, Seq<char>)| #[trigger] r2.values.contains_key(p) implies r2.values[p]
        == r1.values[p] by {
        lemma_run_value(s, steps, p);
        lemma_run_value(r1, steps, p);
    }
    assert(r2.values =~= r1.values);
    assert forall|k: Seq<char>| #[trigger] r2.keys.contains(k) == r1.keys.contains(k) by {
        lemma_run_key(s, steps, k);
        lemma_run_key(r1, steps, k);
    }
    assert(r2.keys =~= r1.keys);
}

// ───────────────────────── which steps set a pair ─────────────────────────

/// Whether a step sets the value `p`.
pub open spec fn step_sets(st: RegStepView, p: (Seq<char>, Seq<char>)) -> bool {
    match st {
        RegStepView::Value { key, name, .. } => (key, name) == p,
        _ => false,
    }
}

/// The value a step sets (empty for a step that sets none).
pub open spec fn step_value(st: RegStepView) -> Seq<char> {
    match st {
        RegStepView::Value { value, .. } => value,
        _ => Seq::empty(),
    }
}

/// Every step of `steps` that sets `p` sets it to `v`, and only when `ok`.
pub open spec fn writes_only(steps: Seq<RegStepView>, p: (Seq<char>, Seq<char>), v: Seq<char>, ok: bool) -> bool {
    forall|x: int| 0 <= x < steps.len() && #[trigger] step_sets(steps[x], p) ==> step_value(steps[x]) == v && ok
}

/// Some step of `steps` sets `p`.
pub open spec fn writes(steps: Seq<RegStepView>, p: (Seq<char>, Seq<char>)) -> bool {
    exists|x: int| 0 <= x < steps.len() && #[trigger] step_sets(steps[x], p)
}

proof fn lemma_last_write_only(steps: Seq<RegStepView>, p: (Seq<char>, Seq<char>), v: Seq<char>, ok: bool)
    requires
        writes_only(steps, p, v, ok),
    ensures
        last_write(steps, p) is Some ==> last_write(steps, p) == Some(v) && ok,
        writes(steps, p) ==> last_write(steps, p) is Some,
        !writes(steps, p) ==> last_write(steps, p) is None,
    decreases steps.len(),
{
    if steps.len() > 0 {
        let rest = steps.drop_last();
        assert(writes_only(rest, p, v, ok)) by {
            assert forall|x: int| 0 <= x < rest.len() && #[trigger] step_sets(rest[x], p) implies step_value(rest[x]) == v && ok by {
                assert(rest[x] == steps[x]);
            }
        }
        lemma_last_write_only(rest, p, v, ok);
        let n = steps.len() - 1;
        let l = steps.last();
        assert(l == steps[n]);
        if step_sets(l, p) {
            assert(last_write(steps, p) == Some(step_value(l)));
            assert(step_value(l) == v && ok);
            assert(writes(steps, p));
        } else {
            assert(last_write(steps, p) == last_write(rest, p));
        }
        if writes(steps, p) {
            let x = choose|x: int| 0 <= x < steps.len() && #[trigger] step_sets(steps[x], p);
            if x < n {
                assert(rest[x] == steps[x]);
                assert(writes(rest, p));
            }
        }
        if writes(rest, p) {
            let x = choose|x: int| 0 <= x < rest.len() && #[trigger] step_sets(rest[x], p);
            assert(rest[x] == steps[x]);
        }
    }
}

proof fn lemma_writes_only_concat(
    a: Seq<RegStepView>,
    b: Seq<RegStepView>,
    p: (Seq<char>, Seq<char>),
    v: Seq<char>,
    ok: bool,
)
    requires
        writes_only(a, p, v, ok),
        writes_only(b, p, v, ok),
    ensures
        writes_only(a + b, p, v, ok),
        writes(a, p) ==> writes(a + b, p),
        writes(b, p) ==> writes(a + b, p),
{
    assert forall|x: int| 0 <= x < (a + b).len() && #[trigger] step_sets((a + b)[x], p) implies step_value(
        (a + b)[x],
    ) == v && ok by {
        if x < a.len() {
            assert((a + b)[x] == a[x]);
        } else {
            assert((a + b)[x] == b[x - a.len()]);
        }
    }
    if writes(a, p) {
        let x = choose|x: int| 0 <= x < a.len() && #[trigger] step_sets(a[x], p);
        assert((a + b)[x] == a[x]);
    }
    if writes(b, p) {
        let x = choose|x: int| 0 <= x < b.len() && #[trigger] step_sets(b[x], p);
        assert((a + b)[a.len() + x] == b[x]);
    }
}

proof fn lemma_writes_only_concat_all(
    s: Seq<Seq<RegStepView>>,
    p: (Seq<char>, Seq<char>),
    v: Seq<char>,
    ok: bool,
    i: int,
)
    requires
        forall|j: int| 0 <= j < s.len() ==> writes_only(#[trigger] s[j], p, v, ok),
    ensures
        writes_only(concat_all(s), p, v, ok),
        0 <= i < s.len() && writes(s[i], p) ==> writes(concat_all(s), p),
    decreases s.len(),
{
    if s.len() == 0 {
        assert(concat_all(s) =~= Seq::<RegStepView>::empty());
    } else {
        let rest = s.drop_last();
        assert forall|j: int| 0 <= j < rest.len() implies writes_only(#[trigger] rest[j], p, v, ok) by {
            assert(rest[j] == s[j]);
        }
        lemma_writes_only_concat_all(rest, p, v, ok, i);
        assert(s.last() == s[s.len() - 1]);
        lemma_writes_only_concat(concat_all(rest), s.last(), p, v, ok);
        if 0 <= i < rest.len() {
            assert(rest[i] == s[i]);
        }
    }
}

// ───────────────────────── names and paths ─────────────────────────

proof fn lemma_literals()
    ensures
        "URL Protocol"@.len() > 0,
        "WinAssoc"@.len() > 0,
        "."@.len() == 1,
        "winassoc"@.len() == 8,
        classes_key().len() == 16,
        classes_key()[11] == 'a',
        client_key().len() > 16,
        client_key()[11] == 'i',
{
    reveal_strlit("URL Protocol");
    reveal_strlit("WinAssoc");
    reveal_strlit(".");
    reveal_strlit("winassoc");
    reveal_strlit("Software\\Classes");
    reveal_strlit("Software\\Clients\\StartMenuInternet\\WinAssoc");
}

/// The command keys of two schemes are the same only for the same scheme.
proof fn lemma_command_key_injective(x: Seq<char>, y: Seq<char>)
    requires
        command_key(under(classes_key(), x)) == command_key(under(classes_key(), y)),
    ensures
        x == y,
{
    let a = command_key(under(classes_key(), x));
    let b = command_key(under(classes_key(), y));
    let pre = classes_key() + "\\"@;
    assert(a.len() == b.len());
    assert(x.len() == y.len());
    assert(a.subrange(pre.len() as int, (pre.len() + x.len()) as int) =~= x);
    assert(b.subrange(pre.len() as int, (pre.len() + y.len()) as int) =~= y);
}

/// A scheme's Classes key is another scheme's command key only when its
/// name is that command key's path below Classes.
proof fn lemma_scheme_key_is_command_key(x: Seq<char>, y: Seq<char>)
    requires
        under(classes_key(), y) == command_key(under(classes_key(), x)),
    ensures
        y == command_key(x),
{
    let pre = classes_key() + "\\"@;
    let a = under(classes_key(), y);
    let b = command_key(under(classes_key(), x));
    assert(a.len() == b.len());
    assert(a.subrange(pre.len() as int, a.len() as int) =~= y);
    assert(b.subrange(pre.len() as int, b.len() as int) =~= command_key(x));
}

/// Keys below the browser registration are never keys below Classes.
proof fn lemma_client_not_classes(rest: Seq<char>, x: Seq<char>)
    ensures
        client_key() + rest != command_key(under(classes_key(), x)),
{
    lemma_literals();
    let a = client_key() + rest;
    let b = command_key(under(classes_key(), x));
    assert(a[11] == 'i');
    assert(b[11] == 'a');
}

// ───────────────────────── the steps after the first ─────────────────────────

/// What the steps after the first do to the command of the `i`-th scheme:
/// they set it to the shim's command, and only when they register the
/// scheme.
proof fn lemma_tail_writes(c: ConfigView, command: Seq<char>, e: Seq<Option<Seq<char>>>, i: int)
    requires
        keys_ascending(keys_of(c.protocol)),
        forall|a: int, b: int|
            0 <= a < c.protocol.len() && 0 <= b < c.protocol.len() ==> c.protocol[b].0 != command_key(
                c.protocol[a].0,
            ),
        0 <= i < c.protocol.len(),
        e.len() == c.protocol.len(),
    ensures
        writes_only(
            tail_steps(c, command, e),
            scheme_command_pair(c.protocol[i].0),
            command,
            scheme_registration_spec(c.protocol[i].0, e[i]) == SchemeRegistration::Register,
        ),
        scheme_registration_spec(c.protocol[i].0, e[i]) == SchemeRegistration::Register ==> writes(
            tail_steps(c, command, e),
            scheme_command_pair(c.protocol[i].0),
        ),
{
    lemma_literals();
    let si = c.protocol[i].0;
    let p = scheme_command_pair(si);
    let ok = scheme_registration_spec(si, e[i]) == SchemeRegistration::Register;
    let parts = Seq::new(c.protocol.len(), |j: int| scheme_steps(c.protocol[j].0, e[j], command));
    assert forall|j: int| 0 <= j < parts.len() implies writes_only(#[trigger] parts[j], p, command, ok) by {
        let sj = c.protocol[j].0;
        let st = scheme_steps(sj, e[j], command);
        assert(parts[j] == st);
        assert forall|x: int| 0 <= x < st.len() && #[trigger] step_sets(st[x], p) implies step_value(st[x]) == command && ok by {
            if x == 0 {
                lemma_client_not_classes("\\"@ + "Capabilities"@ + "\\"@ + "URLAssociations"@, si);
                assert(under(under(client_key(), "Capabilities"@), "URLAssociations"@) =~= client_key() + (
                "\\"@ + "Capabilities"@ + "\\"@ + "URLAssociations"@));
            } else {
                let sk = under(classes_key(), sj);
                let r = scheme_registration_spec(sj, e[j]);
                if r == SchemeRegistration::Register {
                    if x == 1 {
                        assert(st[1] == value_step(sk, Seq::empty(), "URL:"@ + sj + " (winassoc ルーター)"@));
                        lemma_scheme_key_is_command_key(si, sj);
                    } else if x == 2 {
                        assert(st[2] == value_step(sk, "URL Protocol"@, Seq::empty()));
                    } else if x == 3 {
                        assert(st[3] == value_step(command_key(sk), Seq::empty(), command));
                        lemma_command_key_injective(si, sj);
                        if j != i {
                            assert(keys_of(c.protocol)[i] == si);
                            assert(keys_of(c.protocol)[j] == sj);
                            crate::name_map::lemma_key_lt_irreflexive(si);
                        }
                    } else {
                        assert(x == 4);
                    }
                } else if r == SchemeRegistration::KeepForeign {
                    assert(x == 1 || x == 2);
                } else {
                    assert(x == 1);
                }
            }
        }
    }
    let fa = file_assoc_steps(c);
    assert forall|x: int| 0 <= x < fa.len() && #[trigger] step_sets(fa[x], p) implies step_value(fa[x]) == command && ok by {
        if x > 0 {
            assert(fa[x] == value_step(
                under(under(client_key(), "Capabilities"@), "FileAssociations"@),
                "."@ + c.ext[x - 1].0,
                crate::registry::progid_spec(c.ext[x - 1].0),
            ));
            assert(("."@ + c.ext[x - 1].0).len() > 0);
        }
    }
    let reg = seq![
        value_step(
            "Software\\RegisteredApplications"@,
            "WinAssoc"@,
            under(client_key(), "Capabilities"@),
        ),
    ];
    assert forall|x: int| 0 <= x < reg.len() && #[trigger] step_sets(reg[x], p) implies step_value(reg[x]) == command && ok by {}
    let cl = closing_steps();
    assert forall|x: int| 0 <= x < cl.len() && #[trigger] step_sets(cl[x], p) implies step_value(cl[x]) == command && ok by {}
    lemma_writes_only_concat_all(parts, p, command, ok, i);
    if ok {
        let st = scheme_steps(si, e[i], command);
        assert(st[3] == value_step(command_key(under(classes_key(), si)), Seq::empty(), command));
        assert(step_sets(st[3], p));
        assert(writes(st, p));
        assert(parts[i] == st);
    }
    lemma_writes_only_concat(concat_all(parts), fa, p, command, ok);
    lemma_writes_only_concat(concat_all(parts) + fa, reg, p, command, ok);
    assert(schemes_section(c, command, e) == concat_all(parts) + fa + reg);
    if c.protocol.len() > 0 {
        lemma_writes_only_concat(schemes_section(c, command, e), cl, p, command, ok);
    }
}

// ───────────────────────── the law ─────────────────────────

/// Registering twice leaves the registry as registering once does: when the
/// shim's command names `winassoc`, as the shim's file names do, and no
/// scheme is named as the command key path of another.
pub proof fn law_apply_idempotent(
    c: ConfigView,
    command: Seq<char>,
    blank_command: Seq<char>,
    env: Seq<(Seq<char>, Seq<char>)>,
    s0: RegModel,
)
    requires
        keys_ascending(keys_of(c.protocol)),
        contains_seq(command, "winassoc"@),
        forall|a: int, b: int|
            0 <= a < c.protocol.len() && 0 <= b < c.protocol.len() ==> c.protocol[b].0 != command_key(
                c.protocol[a].0,
            ),
    ensures
        apply_model(c, command, blank_command, env, apply_model(c, command, blank_command, env, s0))
            == apply_model(c, command, blank_command, env, s0),
{
    lemma_literals();
    let a = head_steps(c, command, blank_command, env);
    let s1 = run_steps(s0, a);
    let e1 = scheme_commands(s1, c);
    let b1 = tail_steps(c, command, e1);
    let s2 = run_steps(s1, b1);
    let s3 = run_steps(s2, a);
    let e2 = scheme_commands(s3, c);
    assert(command.len() >= 8) by {
        let k = choose|k: int| crate::text::occurs_at(command, "winassoc"@, k);
    }
    assert forall|i: int| 0 <= i < c.protocol.len() implies scheme_steps(c.protocol[i].0, e2[i], command)
        == scheme_steps(c.protocol[i].0, e1[i], command) by {
        let si = c.protocol[i].0;
        let p = scheme_command_pair(si);
        lemma_run_value(s0, a, p);
        lemma_run_value(s2, a, p);
        lemma_run_value(s1, b1, p);
        lemma_tail_writes(c, command, e1, i);
        let reg1 = scheme_registration_spec(si, e1[i]) == SchemeRegistration::Register;
        lemma_last_write_only(b1, p, command, reg1);
        if last_write(a, p) is None {
            if reg1 {
                assert(e2[i] == Some(command));
                assert(scheme_registration_spec(si, e2[i]) == SchemeRegistration::Register);
            } else {
                assert(e2[i] == e1[i]);
            }
        } else {
            assert(e2[i] == e1[i]);
        }
    }
    assert(Seq::new(c.protocol.len(), |i: int| scheme_steps(c.protocol[i].0, e2[i], command)) =~= Seq::new(
        c.protocol.len(),
        |i: int| scheme_steps(c.protocol[i].0, e1[i], command),
    ));
    assert(tail_steps(c, command, e2) == b1);
    lemma_run_concat(s0, a, b1);
    lemma_run_concat(s2, a, b1);
    lemma_run_twice(s0, a + b1);
}

// ───────────────────────── what `doctor` reads back ─────────────────────────

/// The pair holding the command of an extension's ProgID.
pub open spec fn ext_command_pair(ext: Seq<char>) -> (Seq<char>, Seq<char>) {
    (command_key(under(classes_key(), progid_spec(ext))), Seq::empty())
}

proof fn lemma_path_literals()
    ensures
        "\\"@ == seq!['\\'],
        "."@ == seq!['.'],
        "WinAssoc."@.len() == 9,
        "WinAssoc."@[0] == 'W',
        "WinAssoc.Url"@.len() == 12,
        "shell\\open\\command"@.len() == 18,
        "shell\\open\\command"@.last() == 'd',
        "DefaultIcon"@.last() == 'n',
        classes_key().len() == 16,
{
    reveal_strlit("\\");
    reveal_strlit(".");
    reveal_strlit("WinAssoc.");
    reveal_strlit("WinAssoc.Url");
    reveal_strlit("shell\\open\\command");
    reveal_strlit("DefaultIcon");
    reveal_strlit("Software\\Classes");
    assert("\\"@ =~= seq!['\\']);
    assert("."@ =~= seq!['.']);
}

/// An extension's ProgID key is another extension's command key only when
/// its name is that command key's path below the ProgID.
proof fn lemma_progid_key_is_command_key(x: Seq<char>, y: Seq<char>)
    requires
        under(classes_key(), progid_spec(y)) == command_key(under(classes_key(), progid_spec(x))),
    ensures
        y == command_key(x),
{
    lemma_scheme_key_is_command_key(progid_spec(x), progid_spec(y));
    let w = "WinAssoc."@;
    assert(progid_spec(y) == command_key(progid_spec(x)));
    assert(progid_spec(y).skip(w.len() as int) =~= y);
    assert(command_key(progid_spec(x)).skip(w.len() as int) =~= command_key(x));
}

proof fn lemma_ext_steps_write(
    c: ConfigView,
    x: int,
    k: int,
    command: Seq<char>,
    env: Seq<(Seq<char>, Seq<char>)>,
)
    requires
        0 <= x < c.ext.len(),
        0 <= k < c.ext.len(),
        c.ext[x].0 != command_key(c.ext[k].0),
    ensures
        writes_only(
            ext_steps(c, c.ext[x].0, c.ext[x].1, command, env),
            ext_command_pair(c.ext[k].0),
            command,
            true,
        ),
        x == k ==> writes(ext_steps(c, c.ext[x].0, c.ext[x].1, command, env), ext_command_pair(c.ext[k].0)),
{
    lemma_path_literals();
    lemma_literals();
    let ex = c.ext[x].0;
    let ek_ = c.ext[k].0;
    let p = ext_command_pair(ek_);
    let target = p.0;
    let pk = under(classes_key(), progid_spec(ex));
    let ekey = under(classes_key(), "."@ + ex);
    let a = seq![value_step(pk, Seq::empty(), "."@ + ex + " (winassoc ルーター)"@)];
    let b = icon_steps(c, pk, c.ext[x].1, env);
    let d = seq![
        value_step(command_key(pk), Seq::empty(), command),
        value_step(ekey, Seq::empty(), progid_spec(ex)),
        value_step(under(ekey, "OpenWithProgids"@), progid_spec(ex), Seq::empty()),
        RegStepView::Say("登録: ."@ + ex + " → "@ + progid_spec(ex)),
    ];
    assert(ext_steps(c, ex, c.ext[x].1, command, env) == a + b + d);
    assert forall|i: int| 0 <= i < a.len() && #[trigger] step_sets(a[i], p) implies step_value(a[i])
        == command && true by {
        lemma_progid_key_is_command_key(ek_, ex);
    }
    assert forall|i: int| 0 <= i < b.len() && #[trigger] step_sets(b[i], p) implies step_value(b[i])
        == command && true by {
        let icon_key = under(pk, "DefaultIcon"@);
        assert(b[i] matches RegStepView::Value { key, .. } && key == icon_key);
        assert(icon_key.last() == 'n');
        assert(target.last() == 'd');
    }
    assert forall|i: int| 0 <= i < d.len() && #[trigger] step_sets(d[i], p) implies step_value(d[i])
        == command && true by {
        if i == 1 {
            assert(ekey[17] == '.');
            assert(target[17] == 'W');
        } else if i == 2 {
            assert(progid_spec(ex).len() >= 9);
        }
    }
    lemma_writes_only_concat(a, b, p, command, true);
    lemma_writes_only_concat(a + b, d, p, command, true);
    if x == k {
        assert(step_sets(d[0], p));
        assert(writes(d, p));
    }
}

proof fn lemma_head_writes(
    c: ConfigView,
    command: Seq<char>,
    blank_command: Seq<char>,
    env: Seq<(Seq<char>, Seq<char>)>,
    k: int,
)
    requires
        0 <= k < c.ext.len(),
        forall|x: int| 0 <= x < c.ext.len() ==> c.ext[x].0 != command_key(c.ext[k].0),
    ensures
        writes_only(head_steps(c, command, blank_command, env), ext_command_pair(c.ext[k].0), command, true),
        writes(head_steps(c, command, blank_command, env), ext_command_pair(c.ext[k].0)),
{
    lemma_path_literals();
    lemma_literals();
    let p = ext_command_pair(c.ext[k].0);
    let target = p.0;
    let parts = Seq::new(c.ext.len(), |x: int| ext_steps(c, c.ext[x].0, c.ext[x].1, command, env));
    assert forall|x: int| 0 <= x < parts.len() implies writes_only(#[trigger] parts[x], p, command, true) by {
        lemma_ext_steps_write(c, x, k, command, env);
    }
    lemma_ext_steps_write(c, k, k, command, env);
    lemma_writes_only_concat_all(parts, p, command, true, k);
    let first = seq![RegStepView::Key(classes_key())];
    assert forall|i: int| 0 <= i < first.len() && #[trigger] step_sets(first[i], p) implies step_value(
        first[i],
    ) == command && true by {}
    lemma_writes_only_concat(first, ext_section(c, command, env), p, command, true);
    let ph = if c.protocol.len() == 0 {
        Seq::<RegStepView>::empty()
    } else {
        protocol_head(command, blank_command)
    };
    assert forall|i: int| 0 <= i < ph.len() && #[trigger] step_sets(ph[i], p) implies step_value(ph[i])
        == command && true by {
        if i == 0 {
            assert(under(classes_key(), "WinAssoc.Url"@).len() == 29);
        } else if i == 2 {
            lemma_client_not_classes(Seq::empty(), progid_spec(c.ext[k].0));
            assert(client_key() + Seq::<char>::empty() =~= client_key());
        } else if i == 3 {
            lemma_client_not_classes("\\"@ + "shell\\open\\command"@, progid_spec(c.ext[k].0));
            assert(command_key(client_key()) =~= client_key() + ("\\"@ + "shell\\open\\command"@));
        } else if i >= 4 {
            lemma_client_not_classes("\\"@ + "Capabilities"@, progid_spec(c.ext[k].0));
            assert(under(client_key(), "Capabilities"@) =~= client_key() + ("\\"@ + "Capabilities"@));
        }
    }
    lemma_writes_only_concat(first + ext_section(c, command, env), ph, p, command, true);
}

proof fn lemma_tail_keeps_ext_command(c: ConfigView, command: Seq<char>, e: Seq<Option<Seq<char>>>, k: int)
    requires
        0 <= k < c.ext.len(),
        e.len() == c.protocol.len(),
        forall|j: int| 0 <= j < c.protocol.len() ==> c.protocol[j].0 != command_key(progid_spec(c.ext[k].0)),
    ensures
        writes_only(tail_steps(c, command, e), ext_command_pair(c.ext[k].0), command, true),
{
    lemma_literals();
    let p = ext_command_pair(c.ext[k].0);
    let pk = progid_spec(c.ext[k].0);
    let parts = Seq::new(c.protocol.len(), |j: int| scheme_steps(c.protocol[j].0, e[j], command));
    assert forall|j: int| 0 <= j < parts.len() implies writes_only(#[trigger] parts[j], p, command, true) by {
        let sj = c.protocol[j].0;
        let st = scheme_steps(sj, e[j], command);
        assert(parts[j] == st);
        assert forall|x: int| 0 <= x < st.len() && #[trigger] step_sets(st[x], p) implies step_value(st[x])
            == command && true by {
            if x == 0 {
                lemma_client_not_classes("\\"@ + "Capabilities"@ + "\\"@ + "URLAssociations"@, pk);
                assert(under(under(client_key(), "Capabilities"@), "URLAssociations"@) =~= client_key() + (
                "\\"@ + "Capabilities"@ + "\\"@ + "URLAssociations"@));
            } else {
                let sk = under(classes_key(), sj);
                let r = scheme_registration_spec(sj, e[j]);
                if r == SchemeRegistration::Register {
                    if x == 1 {
                        assert(st[1] == value_step(sk, Seq::empty(), "URL:"@ + sj + " (winassoc ルーター)"@));
                        lemma_scheme_key_is_command_key(pk, sj);
                    } else if x == 2 {
                        assert(st[2] == value_step(sk, "URL Protocol"@, Seq::empty()));
                    } else if x == 3 {
                        assert(st[3] == value_step(command_key(sk), Seq::empty(), command));
                    } else {
                        assert(x == 4);
                    }
                } else if r == SchemeRegistration::KeepForeign {
                    assert(x == 1 || x == 2);
                } else {
                    assert(x == 1);
                }
            }
        }
    }
    let fa = file_assoc_steps(c);
    assert forall|x: int| 0 <= x < fa.len() && #[trigger] step_sets(fa[x], p) implies step_value(fa[x])
        == command && true by {
        if x > 0 {
            assert(fa[x] == value_step(
                under(under(client_key(), "Capabilities"@), "FileAssociations"@),
                "."@ + c.ext[x - 1].0,
                progid_spec(c.ext[x - 1].0),
            ));
            assert(("."@ + c.ext[x - 1].0).len() > 0);
        }
    }
    let reg = seq![
        value_step(
            "Software\\RegisteredApplications"@,
            "WinAssoc"@,
            under(client_key(), "Capabilities"@),
        ),
    ];
    assert forall|x: int| 0 <= x < reg.len() && #[trigger] step_sets(reg[x], p) implies step_value(reg[x])
        == command && true by {}
    let cl = closing_steps();
    assert forall|x: int| 0 <= x < cl.len() && #[trigger] step_sets(cl[x], p) implies step_value(cl[x])
        == command && true by {}
    lemma_writes_only_concat_all(parts, p, command, true, 0);
    lemma_writes_only_concat(concat_all(parts), fa, p, command, true);
    lemma_writes_only_concat(concat_all(parts) + fa, reg, p, command, true);
    assert(schemes_section(c, command, e) == concat_all(parts) + fa + reg);
    lemma_writes_only_concat(schemes_section(c, command, e), cl, p, command, true);
}

/// After `apply`, `doctor` reads back the shim's command for each configured
/// extension and reports no problem for it when its `UserChoice` is unset or
/// names this tool's ProgID: unless another extension is named as that
/// ProgID's command key path below it, or a scheme as that command key's
/// path below Classes, which would overwrite it.
pub proof fn law_doctor_finds_applied_extensions(
    c: ConfigView,
    command: Seq<char>,
    blank_command: Seq<char>,
    env: Seq<(Seq<char>, Seq<char>)>,
    s0: RegModel,
    k: int,
    choice: Option<Seq<char>>,
)
    requires
        0 <= k < c.ext.len(),
        command.len() > 0,
        forall|x: int| 0 <= x < c.ext.len() ==> c.ext[x].0 != command_key(c.ext[k].0),
        forall|j: int| 0 <= j < c.protocol.len() ==> c.protocol[j].0 != command_key(progid_spec(c.ext[k].0)),
        choice is None || choice == Some(progid_spec(c.ext[k].0)),
    ensures
        apply_model(c, command, blank_command, env, s0).values.contains_key(ext_command_pair(c.ext[k].0)),
        apply_model(c, command, blank_command, env, s0).values[ext_command_pair(c.ext[k].0)] == command,
        !ext_item(
            c.ext[k].0,
            apply_model(c, command, blank_command, env, s0).values[ext_command_pair(c.ext[k].0)],
            choice,
            command,
        ).1,
{
    let a = head_steps(c, command, blank_command, env);
    let s1 = run_steps(s0, a);
    let e1 = scheme_commands(s1, c);
    let b = tail_steps(c, command, e1);
    let p = ext_command_pair(c.ext[k].0);
    lemma_head_writes(c, command, blank_command, env, k);
    lemma_last_write_only(a, p, command, true);
    lemma_tail_keeps_ext_command(c, command, e1, k);
    lemma_last_write_only(b, p, command, true);
    lemma_run_value(s0, a, p);
    lemma_run_value(s1, b, p);
}

} // verus!
