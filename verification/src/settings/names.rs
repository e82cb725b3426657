//! Turning the file name of a chosen executable into an application name.
use vstd::prelude::*;
use crate::text::{chars_of, is_alnum, is_ascii_alnum, lower_char, string_of, to_lower};

verus! {

/// What a character of the file name becomes: letters and digits in lower
/// case, `_`, `-` and space as `_`; other characters are dropped.
pub open spec fn kept_char(c: char) -> Option<char> {
    if is_ascii_alnum(c) {
        Some(lower_char(c))
    } else if c == '_' || c == '-' || c == ' ' {
        Some('_')
    } else {
        None
    }
}

/// The kept characters, with every run of `_` shortened to one.
pub open spec fn collapsed(s: Seq<char>) -> Seq<char>
    decreases s.len(),
{
    if s.len() == 0 {
        Seq::empty()
    } else {
        let p = collapsed(s.drop_last());
        match kept_char(s.last()) {
            None => p,
            Some(x) => if x == '_' && p.len() > 0 && p.last() == '_' {
                p
            } else {
                p.push(x)
            },
        }
    }
}

/// `s` without its leading `_`.
pub open spec fn strip_leading(s: Seq<char>) -> Seq<char>
    decreases s.len(),
{
    if s.len() > 0 && s[0] == '_' {
        strip_leading(s.drop_first())
    } else {
        s
    }
}

/// `s` without its trailing `_`.
pub open spec fn strip_trailing(s: Seq<char>) -> Seq<char>
    decreases s.len(),
{
    if s.len() > 0 && s.last() == '_' {
        strip_trailing(s.drop_last())
    } else {
        s
    }
}

/// The application name made from a file name.
pub open spec fn sanitized(s: Seq<char>) -> Seq<char> {
    strip_trailing(strip_leading(collapsed(s)))
}

fn strip_leading_exec(v: &Vec<char>, from: usize) -> (r: usize)
    requires
        from <= v@.len(),
    ensures
        from <= r <= v@.len(),
        strip_leading(v@.skip(from as int)) == v@.skip(r as int),
    decreases v@.len() - from,
{
    if from < v.len() && v[from] == '_' {
        assert(v@.skip(from as int).drop_first() =~= v@.skip(from + 1));
        strip_leading_exec(v, from + 1)
    } else {
        from
    }
}

fn strip_trailing_exec(v: &Vec<char>, from: usize, to: usize) -> (r: usize)
    requires
        from <= to <= v@.len(),
    ensures
        from <= r <= to,
        strip_trailing(v@.subrange(from as int, to as int)) == v@.subrange(from as int, r as int),
    decreases to - from,
{
    if to > from && v[to - 1] == '_' {
        assert(v@.subrange(from as int, to as int).drop_last() =~= v@.subrange(from as int, to - 1));
        strip_trailing_exec(v, from, to - 1)
    } else {
        to
    }
}

/// The application name made from `file_name` (see `sanitized`).
pub fn sanitize_app_name(file_name: &str) -> (r: String)
    ensures
        r@ == sanitized(file_name@),
{
    let cs = chars_of(file_name);
    let mut out: Vec<char> = Vec::new();
    let mut i: usize = 0;
    assert(cs@.subrange(0, 0) =~= Seq::<char>::empty());
    while i < cs.len()
        invariant
            cs@ == file_name@,
            i <= cs@.len(),
            out@ == collapsed(cs@.subrange(0, i as int)),
        decreases cs@.len() - i,
    {
        let c = cs[i];
        assert(cs@.subrange(0, i + 1).drop_last() =~= cs@.subrange(0, i as int));
        assert(cs@.subrange(0, i + 1).last() == c);
        if is_alnum(c) {
            out.push(to_lower(c));
        } else if c == '_' || c == '-' || c == ' ' {
            if !(out.len() > 0 && out[out.len() - 1] == '_') {
                out.push('_');
            }
        }
        i = i + 1;
    }
    assert(cs@.subrange(0, i as int) =~= cs@);
    let a = strip_leading_exec(&out, 0);
    assert(out@.skip(0) =~= out@);
    let b = strip_trailing_exec(&out, a, out.len());
    assert(out@.subrange(a as int, out@.len() as int) =~= out@.skip(a as int));
    let mut kept: Vec<char> = Vec::new();
    let mut k = a;
    while k < b
        invariant
            a <= k <= b,
            b <= out@.len(),
            kept@ == out@.subrange(a as int, k as int),
        decreases b - k,
    {
        kept.push(out[k]);
        assert(kept@ =~= out@.subrange(a as int, k + 1));
        k = k + 1;
    }
    string_of(&kept)
}

} // verus!
