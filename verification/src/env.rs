//! `%VAR%` expansion. The values of environment variables are read by the
//! caller and handed over as an `EnvSnapshot`; `env_var_refs` says which
//! names a text refers to.
use vstd::prelude::*;
use crate::name_map::lookup;
use crate::text::{chars_of, first_index_of, str_eq, string_of, views, lemma_views_push};

verus! {

/// Values of environment variables, as `(name, value)` pairs. A name that is
/// not listed counts as unset; when a name is listed twice the first pair wins.
pub struct EnvSnapshot {
    pub vars: Vec<(String, String)>,
}

impl View for EnvSnapshot {
    type V = Seq<(Seq<char>, Seq<char>)>;

    open spec fn view(&self) -> Seq<(Seq<char>, Seq<char>)> {
        self.vars@.map_values(|p: (String, String)| (p.0@, p.1@))
    }
}

impl EnvSnapshot {
    /// A snapshot in which every variable is unset.
    pub fn empty() -> (e: EnvSnapshot)
        ensures
            e@.len() == 0,
    {
        let e = EnvSnapshot { vars: Vec::new() };
        assert(e@ =~= Seq::<(Seq<char>, Seq<char>)>::empty());
        e
    }

    /// The value of `name`, if it is set.
    pub fn get(&self, name: &str) -> (r: Option<&String>)
        ensures
            r matches Some(v) ==> lookup(self@, name@) == Some(v@),
            r is None ==> lookup(self@, name@) is None,
    {
        let mut i: usize = 0;
        while i < self.vars.len()
            invariant
                i <= self@.len(),
                self@.len() == self.vars@.len(),
                forall|j: int| 0 <= j < i ==> self@[j].0 != name@,
            decreases self@.len() - i,
        {
            if str_eq(self.vars[i].0.as_str(), name) {
                proof {
                    crate::name_map::lemma_index_of_key(self@, name@, i as int, 0);
                }
                return Some(&self.vars[i].1);
            }
            i = i + 1;
        }
        proof {
            crate::name_map::lemma_index_of_missing_key(self@, name@, 0);
        }
        None
    }
}

pub proof fn lemma_first_index_of_found(s: Seq<char>, c: char, k: int)
    requires
        0 <= k < s.len(),
        s[k] == c,
        forall|j: int| 0 <= j < k ==> s[j] != c,
    ensures
        first_index_of(s, c) == Some(k),
    decreases k,
{
    if k > 0 {
        lemma_first_index_of_found(s.drop_first(), c, k - 1);
    }
}

pub proof fn lemma_first_index_of_missing(s: Seq<char>, c: char)
    requires
        forall|j: int| 0 <= j < s.len() ==> s[j] != c,
    ensures
        first_index_of(s, c) is None,
    decreases s.len(),
{
    if s.len() > 0 {
        lemma_first_index_of_missing(s.drop_first(), c);
    }
}

pub proof fn lemma_first_index_of_bounds(s: Seq<char>, c: char)
    ensures
        first_index_of(s, c) matches Some(k) ==> 0 <= k < s.len() && s[k] == c,
    decreases s.len(),
{
    if s.len() > 0 {
        lemma_first_index_of_bounds(s.drop_first(), c);
    }
}

/// `s` with each `%NAME%` replaced by the value of `NAME`; a reference to an
/// unset variable is kept as written, and a lone `%` with no closing `%`
/// after it ends the expansion, the rest kept as written.
pub open spec fn expand_seq(s: Seq<char>, env: Seq<(Seq<char>, Seq<char>)>) -> Seq<char>
    decreases s.len(),
{
    if s.len() == 0 {
        s
    } else if s[0] != '%' {
        seq![s[0]] + expand_seq(s.drop_first(), env)
    } else {
        match first_index_of(s.drop_first(), '%') {
            None => s,
            Some(l) => {
                proof {
                    lemma_first_index_of_bounds(s.drop_first(), '%');
                }
                let value = match lookup(env, s.subrange(1, l + 1)) {
                    Some(v) => v,
                    None => s.subrange(0, l + 2),
                };
                value + expand_seq(s.skip(l + 2), env)
            },
        }
    }
}

/// The names of the `%NAME%` references that `expand_seq` looks up, in order.
pub open spec fn refs_seq(s: Seq<char>) -> Seq<Seq<char>>
    decreases s.len(),
{
    if s.len() == 0 {
        Seq::empty()
    } else if s[0] != '%' {
        refs_seq(s.drop_first())
    } else {
        match first_index_of(s.drop_first(), '%') {
            None => Seq::empty(),
            Some(l) => {
                proof {
                    lemma_first_index_of_bounds(s.drop_first(), '%');
                }
                seq![s.subrange(1, l + 1)] + refs_seq(s.skip(l + 2))
            },
        }
    }
}

/// Position of the next `%` at or after `from`, or `cs.len()`.
fn next_percent(cs: &Vec<char>, from: usize) -> (j: usize)
    requires
        from <= cs@.len(),
    ensures
        from <= j <= cs@.len(),
        j < cs@.len() ==> cs@[j as int] == '%',
        forall|k: int| from <= k < j ==> cs@[k] != '%',
{
    let mut j = from;
    while j < cs.len() && cs[j] != '%'
        invariant
            from <= j <= cs@.len(),
            forall|k: int| from <= k < j ==> cs@[k] != '%',
        decreases cs@.len() - j,
    {
        j = j + 1;
    }
    j
}

proof fn lemma_percent_step(s: Seq<char>, i: int, j: int)
    requires
        0 <= i < j <= s.len(),
        s[i] == '%',
        forall|k: int| i < k < j ==> s[k] != '%',
        j < s.len() ==> s[j] == '%',
    ensures
        j < s.len() ==> first_index_of(s.skip(i).drop_first(), '%') == Some(j - i - 1),
        j == s.len() ==> first_index_of(s.skip(i).drop_first(), '%') is None,
{
    let t = s.skip(i).drop_first();
    if j < s.len() {
        assert(t[j - i - 1] == s[j]);
        assert forall|k: int| 0 <= k < j - i - 1 implies t[k] != '%' by {
            assert(t[k] == s[i + 1 + k]);
        }
        lemma_first_index_of_found(t, '%', j - i - 1);
    } else {
        assert forall|k: int| 0 <= k < t.len() implies t[k] != '%' by {
            assert(t[k] == s[i + 1 + k]);
        }
        lemma_first_index_of_missing(t, '%');
    }
}

fn push_all(out: &mut Vec<char>, cs: &Vec<char>, from: usize, to: usize)
    requires
        from <= to <= cs@.len(),
    ensures
        final(out)@ == old(out)@ + cs@.subrange(from as int, to as int),
{
    let mut k = from;
    while k < to
        invariant
            from <= k <= to,
            to <= cs@.len(),
            out@ == old(out)@ + cs@.subrange(from as int, k as int),
        decreases to - k,
    {
        out.push(cs[k]);
        assert(out@ =~= old(out)@ + cs@.subrange(from as int, k + 1));
        k = k + 1;
    }
}

/// Expands `%NAME%` references in `input` with the values in `env`
/// (see `expand_seq`).
pub fn expand_env(input: &str, env: &EnvSnapshot) -> (r: String)
    ensures
        r@ == expand_seq(input@, env@),
{
    let cs = chars_of(input);
    let ghost s = input@;
    let mut out: Vec<char> = Vec::new();
    let mut i: usize = 0;
    assert(s.skip(0) =~= s);
    assert(out@ + expand_seq(s, env@) =~= expand_seq(s, env@));
    while i < cs.len()
        invariant
            cs@ == s,
            i <= s.len(),
            out@ + expand_seq(s.skip(i as int), env@) == expand_seq(s, env@),
        decreases s.len() - i,
    {
        let ghost rest = s.skip(i as int);
        let ghost before = out@;
        if cs[i] != '%' {
            out.push(cs[i]);
            assert(rest.drop_first() =~= s.skip(i + 1));
            assert(out@ + expand_seq(s.skip(i + 1), env@) =~= before + expand_seq(rest, env@));
            i = i + 1;
        } else {
            let j = next_percent(&cs, i + 1);
            proof {
                lemma_percent_step(s, i as int, j as int);
            }
            if j == cs.len() {
                push_all(&mut out, &cs, i, j);
                assert(rest =~= s.subrange(i as int, j as int));
                assert(s.skip(j as int) =~= Seq::<char>::empty());
                assert(out@ + expand_seq(s.skip(j as int), env@) =~= before + expand_seq(rest, env@));
                i = j;
            } else {
                let name_chars = slice_chars(&cs, i + 1, j);
                let name = string_of(&name_chars);
                assert(rest.subrange(1, (j - i) as int) =~= s.subrange(i + 1, j as int));
                match env.get(name.as_str()) {
                    Some(v) => {
                        let vc = chars_of(v.as_str());
                        let len = vc.len();
                        push_all(&mut out, &vc, 0, len);
                        assert(vc@.subrange(0, len as int) =~= vc@);
                    },
                    None => {
                        push_all(&mut out, &cs, i, j + 1);
                        assert(rest.subrange(0, (j - i + 1) as int) =~= s.subrange(
                            i as int,
                            j + 1,
                        ));
                    },
                }
                assert(rest.skip((j - i + 1) as int) =~= s.skip(j + 1));
                assert(out@ + expand_seq(s.skip(j + 1), env@) =~= before + expand_seq(rest, env@));
                i = j + 1;
            }
        }
    }
    assert(s.skip(i as int) =~= Seq::<char>::empty());
    assert(out@ =~= out@ + expand_seq(s.skip(i as int), env@));
    string_of(&out)
}

/// The characters of `cs` from `from` up to `to`.
fn slice_chars(cs: &Vec<char>, from: usize, to: usize) -> (r: Vec<char>)
    requires
        from <= to <= cs@.len(),
    ensures
        r@ == cs@.subrange(from as int, to as int),
{
    let mut r: Vec<char> = Vec::new();
    push_all(&mut r, cs, from, to);
    assert(r@ =~= cs@.subrange(from as int, to as int));
    r
}

/// The names of the environment variables that `expand_env` would look up
/// for `input`, in order.
pub fn env_var_refs(input: &str) -> (r: Vec<String>)
    ensures
        views(r@) == refs_seq(input@),
{
    let cs = chars_of(input);
    let ghost s = input@;
    let mut out: Vec<String> = Vec::new();
    let mut i: usize = 0;
    assert(s.skip(0) =~= s);
    assert(views(out@) + refs_seq(s) =~= refs_seq(s));
    while i < cs.len()
        invariant
            cs@ == s,
            i <= s.len(),
            views(out@) + refs_seq(s.skip(i as int)) == refs_seq(s),
        decreases s.len() - i,
    {
        let ghost rest = s.skip(i as int);
        let ghost before = views(out@);
        if cs[i] != '%' {
            assert(rest.drop_first() =~= s.skip(i + 1));
            i = i + 1;
        } else {
            let j = next_percent(&cs, i + 1);
            proof {
                lemma_percent_step(s, i as int, j as int);
            }
            if j == cs.len() {
                assert(s.skip(j as int) =~= Seq::<char>::empty());
                assert(views(out@) + refs_seq(s.skip(j as int)) =~= before + refs_seq(rest));
                i = j;
            } else {
                let name_chars = slice_chars(&cs, i + 1, j);
                let name = string_of(&name_chars);
                let ghost out_before = out@;
                out.push(name);
                proof {
                    lemma_views_push(out_before, name);
                    assert(rest.subrange(1, (j - i) as int) =~= s.subrange(i + 1, j as int));
                    assert(rest.skip((j - i + 1) as int) =~= s.skip(j + 1));
                    assert(views(out@) + refs_seq(s.skip(j + 1)) =~= before + refs_seq(rest));
                }
                i = j + 1;
            }
        }
    }
    assert(s.skip(i as int) =~= Seq::<char>::empty());
    assert(views(out@) =~= views(out@) + refs_seq(s.skip(i as int)));
    out
}

/// With every variable unset, expansion leaves the text as it is.
pub proof fn law_expand_without_variables(s: Seq<char>)
    ensures
        expand_seq(s, Seq::empty()) == s,
    decreases s.len(),
{
    if s.len() > 0 {
        if s[0] != '%' {
            law_expand_without_variables(s.drop_first());
            assert(s =~= seq![s[0]] + s.drop_first());
        } else {
            lemma_first_index_of_bounds(s.drop_first(), '%');
            match first_index_of(s.drop_first(), '%') {
                None => {},
                Some(l) => {
                    law_expand_without_variables(s.skip(l + 2));
                    assert(s =~= s.subrange(0, l + 2) + s.skip(l + 2));
                },
            }
        }
    }
}

/// A text without `%` comes back unchanged, whatever the variables hold.
pub proof fn law_expand_without_percent(s: Seq<char>, env: Seq<(Seq<char>, Seq<char>)>)
    requires
        !s.contains('%'),
    ensures
        expand_seq(s, env) == s,
    decreases s.len(),
{
    if s.len() > 0 {
        assert(s[0] != '%');
        assert(!s.drop_first().contains('%')) by {
            if s.drop_first().contains('%') {
                let k = choose|k: int| 0 <= k < s.drop_first().len() && s.drop_first()[k] == '%';
                assert(s[k + 1] == '%');
            }
        }
        law_expand_without_percent(s.drop_first(), env);
        assert(s =~= seq![s[0]] + s.drop_first());
    }
}

proof fn lemma_no_percent_tail(n: Seq<char>)
    requires
        n.len() > 0,
        !n.contains('%'),
    ensures
        n[0] != '%',
        !n.drop_first().contains('%'),
{
    assert(n.contains(n[0]) ==> n[0] != '%');
    assert(n.contains(n[0])) by {
        assert(n[0] == n[0]);
    }
    if n.drop_first().contains('%') {
        let k = choose|k: int| 0 <= k < n.drop_first().len() && n.drop_first()[k] == '%';
        assert(n[k + 1] == '%');
        assert(n.contains('%'));
    }
}

proof fn lemma_first_percent(n: Seq<char>, t: Seq<char>)
    requires
        !n.contains('%'),
    ensures
        first_index_of(n + seq!['%'] + t, '%') == Some(n.len() as int),
    decreases n.len(),
{
    let s = n + seq!['%'] + t;
    if n.len() == 0 {
        assert(s[0] == '%');
    } else {
        lemma_no_percent_tail(n);
        assert(s[0] == n[0]);
        lemma_first_percent(n.drop_first(), t);
        assert(s.drop_first() =~= n.drop_first() + seq!['%'] + t);
    }
}

/// Text without `%` before the rest is copied as it is, and the rest is
/// expanded on its own.
pub proof fn law_expand_plain_prefix(a: Seq<char>, b: Seq<char>, env: Seq<(Seq<char>, Seq<char>)>)
    requires
        !a.contains('%'),
    ensures
        expand_seq(a + b, env) == a + expand_seq(b, env),
    decreases a.len(),
{
    if a.len() > 0 {
        lemma_no_percent_tail(a);
        law_expand_plain_prefix(a.drop_first(), b, env);
        assert((a + b)[0] == a[0]);
        assert((a + b).drop_first() =~= a.drop_first() + b);
        assert(a =~= seq![a[0]] + a.drop_first());
    } else {
        assert(a + b =~= b);
    }
}

/// A reference `%NAME%` becomes the variable's value when it is set and
/// stays as written when it is not; either way the text after it is
/// expanded in turn, so every reference is expanded.
pub proof fn law_expand_reference(n: Seq<char>, t: Seq<char>, env: Seq<(Seq<char>, Seq<char>)>)
    requires
        !n.contains('%'),
    ensures
        expand_seq(seq!['%'] + n + seq!['%'] + t, env) == match lookup(env, n) {
            Some(v) => v + expand_seq(t, env),
            None => seq!['%'] + n + seq!['%'] + expand_seq(t, env),
        },
{
    let s = seq!['%'] + n + seq!['%'] + t;
    lemma_first_percent(n, t);
    assert(s.drop_first() =~= n + seq!['%'] + t);
    assert(s.subrange(1, n.len() as int + 1) =~= n);
    assert(s.skip(n.len() as int + 2) =~= t);
    assert(s.subrange(0, n.len() as int + 2) =~= seq!['%'] + n + seq!['%']);
}

/// A `%` with no closing `%` after it is kept, with everything after it.
pub proof fn law_expand_lone_percent(x: Seq<char>, env: Seq<(Seq<char>, Seq<char>)>)
    requires
        !x.contains('%'),
    ensures
        expand_seq(seq!['%'] + x, env) == seq!['%'] + x,
{
    let s = seq!['%'] + x;
    assert(s.drop_first() =~= x);
    lemma_first_none(x);
}

proof fn lemma_first_none(x: Seq<char>)
    requires
        !x.contains('%'),
    ensures
        first_index_of(x, '%') is None,
    decreases x.len(),
{
    if x.len() > 0 {
        lemma_no_percent_tail(x);
        lemma_first_none(x.drop_first());
    }
}

/// Expansion depends only on the variables that the text refers to: two
/// snapshots that agree on those names give the same result.
pub proof fn law_expand_reads_only_refs(
    s: Seq<char>,
    env1: Seq<(Seq<char>, Seq<char>)>,
    env2: Seq<(Seq<char>, Seq<char>)>,
)
    requires
        forall|i: int| 0 <= i < refs_seq(s).len() ==> lookup(env1, refs_seq(s)[i]) == lookup(
            env2,
            refs_seq(s)[i],
        ),
    ensures
        expand_seq(s, env1) == expand_seq(s, env2),
    decreases s.len(),
{
    if s.len() > 0 {
        if s[0] != '%' {
            assert(refs_seq(s) == refs_seq(s.drop_first()));
            law_expand_reads_only_refs(s.drop_first(), env1, env2);
        } else {
            lemma_first_index_of_bounds(s.drop_first(), '%');
            match first_index_of(s.drop_first(), '%') {
                None => {},
                Some(l) => {
                    let rest = s.skip(l + 2);
                    assert(refs_seq(s)[0] == s.subrange(1, l + 1));
                    assert forall|i: int| 0 <= i < refs_seq(rest).len() implies lookup(
                        env1,
                        refs_seq(rest)[i],
                    ) == lookup(env2, refs_seq(rest)[i]) by {
                        assert(refs_seq(s)[i + 1] == refs_seq(rest)[i]);
                    }
                    law_expand_reads_only_refs(rest, env1, env2);
                },
            }
        }
    }
}

} // verus!
