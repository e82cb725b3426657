//! What the shim is asked to open: a file path or a URL, and the modifier
//! keys held while it was asked.
use vstd::prelude::*;
use crate::config::opt_view;
use crate::text::{
    chars_of, find_first, find_seq, is_alnum, is_alpha, is_ascii_alnum, is_ascii_alpha, is_ascii_upper, lower_char, lower_seq,
    lowercase, occurs_at, owned, string_of,
};

verus! {

// ───────────────────────── modifier keys ─────────────────────────

#[derive(Debug, Clone, Copy)]
pub struct Modifiers {
    pub shift: bool,
    pub ctrl: bool,
    pub alt: bool,
}

impl Default for Modifiers {
    fn default() -> (m: Modifiers)
        ensures
            !m.shift && !m.ctrl && !m.alt,
    {
        Modifiers { shift: false, ctrl: false, alt: false }
    }
}

/// Whether a key is held, by the state word the system reports for it: its
/// high bit is set.
pub fn key_is_down(state: i16) -> (b: bool)
    ensures
        b == (state < 0),
{
    let bits: u16 = #[verifier::truncate] (state as u16);
    assert(((state as u16) & 0x8000u16) != 0 <==> state < 0) by (bit_vector);
    (bits & 0x8000u16) != 0
}

/// The modifiers held, by the state words of Shift, Ctrl and Alt.
pub fn modifiers_from_key_states(shift: i16, ctrl: i16, alt: i16) -> (m: Modifiers)
    ensures
        m.shift == (shift < 0),
        m.ctrl == (ctrl < 0),
        m.alt == (alt < 0),
{
    Modifiers { shift: key_is_down(shift), ctrl: key_is_down(ctrl), alt: key_is_down(alt) }
}

/// A name not among `shift`, `ctrl` and `alt`, in lower case.
#[derive(Debug)]
pub struct UnknownModifier {
    pub name: String,
}

impl UnknownModifier {
    pub fn message(&self) -> (m: String)
        ensures
            m@ == "不明な修飾キー: "@ + self.name@ + " (shift / ctrl / alt)"@,
    {
        crate::text::concat3("不明な修飾キー: ", self.name.as_str(), " (shift / ctrl / alt)")
    }
}

/// Whether the key `name` (any ASCII case) is held in `m`; other names are
/// never held.
pub open spec fn pressed_spec(m: Modifiers, name: Seq<char>) -> bool {
    let l = lower_seq(name);
    if l == "shift"@ {
        m.shift
    } else if l == "ctrl"@ {
        m.ctrl
    } else if l == "alt"@ {
        m.alt
    } else {
        false
    }
}

/// Whether `name`, in lower case, is one of the three modifier names.
pub open spec fn known_modifier(name: Seq<char>) -> bool {
    crate::config::is_modifier_name(lower_seq(name))
}

/// The first position from `i` on of a name that is no modifier.
pub open spec fn first_unknown_from(names: Seq<Seq<char>>, i: int) -> Option<int>
    decreases names.len() - i,
{
    if i < 0 || i >= names.len() {
        None
    } else if !known_modifier(names[i]) {
        Some(i)
    } else {
        first_unknown_from(names, i + 1)
    }
}

/// Whether some name, in lower case, is `key`.
pub open spec fn names_include(names: Seq<Seq<char>>, key: Seq<char>) -> bool {
    exists|i: int| 0 <= i < names.len() && lower_seq(names[i]) == key
}

/// The modifiers that a list of names holds down.
pub open spec fn named_modifiers(names: Seq<Seq<char>>) -> Modifiers {
    Modifiers {
        shift: names_include(names, "shift"@),
        ctrl: names_include(names, "ctrl"@),
        alt: names_include(names, "alt"@),
    }
}

/// The three modifier names are different from each other.
pub proof fn lemma_modifier_names_differ()
    ensures
        "shift"@ != "ctrl"@,
        "shift"@ != "alt"@,
        "ctrl"@ != "alt"@,
        "shift"@ =~= seq!['s', 'h', 'i', 'f', 't'],
        "ctrl"@ =~= seq!['c', 't', 'r', 'l'],
        "alt"@ =~= seq!['a', 'l', 't'],
{
    reveal_strlit("shift");
    reveal_strlit("ctrl");
    reveal_strlit("alt");
    assert("shift"@.len() == 5);
    assert("ctrl"@.len() == 4);
    assert("alt"@.len() == 3);
}

proof fn lemma_names_include_step(ns: Seq<Seq<char>>, i: int, key: Seq<char>)
    requires
        0 <= i < ns.len(),
    ensures
        names_include(ns.subrange(0, i + 1), key) == (names_include(ns.subrange(0, i), key)
            || lower_seq(ns[i]) == key),
{
    let pre = ns.subrange(0, i);
    let next = ns.subrange(0, i + 1);
    if names_include(next, key) {
        let j = choose|j: int| 0 <= j < next.len() && lower_seq(next[j]) == key;
        if j < i {
            assert(pre[j] == next[j]);
        }
    }
    if names_include(pre, key) {
        let j = choose|j: int| 0 <= j < pre.len() && lower_seq(pre[j]) == key;
        assert(pre[j] == next[j]);
    }
    if lower_seq(ns[i]) == key {
        assert(next[i] == ns[i]);
    }
}

impl Modifiers {
    /// The modifiers named in `names` (any ASCII case). The first name that is
    /// not `shift`, `ctrl` or `alt` is refused.
    pub fn from_names(names: &[String]) -> (r: Result<Modifiers, UnknownModifier>)
        ensures
            match r {
                Ok(m) => first_unknown_from(crate::text::views(names@), 0) is None && m == named_modifiers(
                    crate::text::views(names@),
                ),
                Err(e) => exists|k: int|
                    first_unknown_from(crate::text::views(names@), 0) == Some(k) && e.name@
                        == lower_seq(crate::text::views(names@)[k]),
            },
    {
        let ghost ns = crate::text::views(names@);
        let mut m = Modifiers { shift: false, ctrl: false, alt: false };
        let mut i: usize = 0;
        while i < names.len()
            invariant
                ns == crate::text::views(names@),
                i <= ns.len(),
                first_unknown_from(ns, 0) == first_unknown_from(ns, i as int),
                m.shift == names_include(ns.subrange(0, i as int), "shift"@),
                m.ctrl == names_include(ns.subrange(0, i as int), "ctrl"@),
                m.alt == names_include(ns.subrange(0, i as int), "alt"@),
            decreases ns.len() - i,
        {
            let l = lowercase(names[i].as_str());
            proof {
                lemma_modifier_names_differ();
            }
            assert(ns[i as int] == names@[i as int]@);
            proof {
                lemma_names_include_step(ns, i as int, "shift"@);
                lemma_names_include_step(ns, i as int, "ctrl"@);
                lemma_names_include_step(ns, i as int, "alt"@);
            }
            if crate::text::str_eq(l.as_str(), "shift") {
                m.shift = true;
            } else if crate::text::str_eq(l.as_str(), "ctrl") {
                m.ctrl = true;
            } else if crate::text::str_eq(l.as_str(), "alt") {
                m.alt = true;
            } else {
                assert(first_unknown_from(ns, i as int) == Some(i as int));
                return Err(UnknownModifier { name: l });
            }
            i = i + 1;
        }
        assert(ns.subrange(0, i as int) =~= ns);
        Ok(m)
    }

    /// Whether the key named `name` (any ASCII case) is held.
    pub fn pressed(&self, name: &str) -> (b: bool)
        ensures
            b == pressed_spec(*self, name@),
    {
        let l = lowercase(name);
        if crate::text::str_eq(l.as_str(), "shift") {
            self.shift
        } else if crate::text::str_eq(l.as_str(), "ctrl") {
            self.ctrl
        } else if crate::text::str_eq(l.as_str(), "alt") {
            self.alt
        } else {
            false
        }
    }
}

// ───────────────────────── targets ─────────────────────────

/// A file path with its extension (lower case), or a URL with its scheme
/// (lower case) and host.
#[derive(Debug)]
pub enum Target {
    File { path: String, ext: Option<String> },
    Url { url: String, scheme: String, host: Option<String> },
}

pub enum TargetView {
    File { path: Seq<char>, ext: Option<Seq<char>> },
    Url { url: Seq<char>, scheme: Seq<char>, host: Option<Seq<char>> },
}

impl View for Target {
    type V = TargetView;

    open spec fn view(&self) -> TargetView {
        match self {
            Target::File { path, ext } => TargetView::File { path: path@, ext: opt_view(*ext) },
            Target::Url { url, scheme, host } => TargetView::Url {
                url: url@,
                scheme: scheme@,
                host: opt_view(*host),
            },
        }
    }
}

/// A drive letter and a colon, then nothing or a separator: `C:`, `C:\…`,
/// `C:/…`. Such input is a path even though it looks like `scheme:`.
pub open spec fn looks_like_drive(s: Seq<char>) -> bool {
    s.len() >= 2 && s[1] == ':' && is_ascii_alpha(s[0]) && (s.len() == 2 || s[2] == '\\' || s[2]
        == '/')
}

/// Characters allowed in a URL scheme.
pub open spec fn is_scheme_char(c: char) -> bool {
    is_ascii_alnum(c) || c == '+' || c == '-' || c == '.'
}

pub open spec fn is_host_end(c: char) -> bool {
    c == '/' || c == '?' || c == '#'
}

/// The text after `://` up to the first `/`, `?` or `#`.
pub open spec fn host_part(rest: Seq<char>) -> Seq<char>
    decreases rest.len(),
{
    if rest.len() == 0 || is_host_end(rest[0]) {
        Seq::empty()
    } else {
        seq![rest[0]] + host_part(rest.drop_first())
    }
}

pub open spec fn scheme_sep() -> Seq<char> {
    seq![':', '/', '/']
}

/// A scheme starts with a letter and has only letters, digits, `+`, `-`
/// and `.`.
pub open spec fn valid_scheme(scheme: Seq<char>) -> bool {
    scheme.len() > 0 && is_ascii_alpha(scheme[0]) && (forall|j: int|
        0 <= j < scheme.len() ==> is_scheme_char(scheme[j]))
}

/// A URI `scheme:…`, split at its first `:`. With `://` after the scheme
/// the host is the text up to the next `/`, `?` or `#` (if not empty); other
/// forms such as `mailto:…` have no host and need a scheme of two characters
/// or more, so that `C:file` stays a drive path. Gives the scheme in lower
/// case, the input, and the host.
pub open spec fn parse_url_spec(s: Seq<char>) -> Option<(Seq<char>, Seq<char>, Option<Seq<char>>)> {
    match find_first(s, seq![':']) {
        None => None,
        Some(e) => {
            let scheme = s.subrange(0, e);
            if !valid_scheme(scheme) {
                None
            } else if occurs_at(s, scheme_sep(), e) {
                let host = host_part(s.skip(e + 3));
                Some(
                    (
                        lower_seq(scheme),
                        s,
                        if host.len() == 0 {
                            None
                        } else {
                            Some(host)
                        },
                    ),
                )
            } else if scheme.len() >= 2 {
                Some((lower_seq(scheme), s, None))
            } else {
                None
            }
        },
    }
}

pub open spec fn is_sep(c: char) -> bool {
    c == '\\' || c == '/'
}

/// A leading drive prefix such as `C:` taken off.
pub open spec fn without_drive(s: Seq<char>) -> Seq<char> {
    if s.len() >= 2 && is_ascii_alpha(s[0]) && s[1] == ':' {
        s.skip(2)
    } else {
        s
    }
}

/// The position just after the last separator, or 0.
pub open spec fn after_last_sep(p: Seq<char>) -> int
    decreases p.len(),
{
    if p.len() == 0 {
        0
    } else if is_sep(p.last()) {
        p.len() as int
    } else {
        after_last_sep(p.drop_last())
    }
}

/// The last component of a path, with trailing separators and `.`
/// components ignored; none when the path ends in `..` or has no component.
pub open spec fn file_name_of(p: Seq<char>) -> Option<Seq<char>>
    decreases p.len(),
{
    if p.len() == 0 {
        None
    } else if is_sep(p.last()) {
        file_name_of(p.drop_last())
    } else {
        let start = after_last_sep(p);
        let comp = p.skip(start);
        if comp == seq!['.'] {
            if start <= 0 || start >= p.len() {
                None
            } else {
                file_name_of(p.subrange(0, start))
            }
        } else if comp == seq!['.', '.'] {
            None
        } else {
            Some(comp)
        }
    }
}

/// The position of the last `.` in `name`.
pub open spec fn last_dot(name: Seq<char>) -> Option<int>
    decreases name.len(),
{
    if name.len() == 0 {
        None
    } else if name.last() == '.' {
        Some(name.len() - 1)
    } else {
        last_dot(name.drop_last())
    }
}

/// What follows the last `.` of a file name; none when there is no `.`, or
/// when the only `.` is the first character.
pub open spec fn extension_of_name(name: Seq<char>) -> Option<Seq<char>> {
    match last_dot(name) {
        None => None,
        Some(d) => if d <= 0 {
            None
        } else {
            Some(name.skip(d + 1))
        },
    }
}

/// The extension of a path, in lower case.
pub open spec fn path_extension(s: Seq<char>) -> Option<Seq<char>> {
    match file_name_of(without_drive(s)) {
        None => None,
        Some(name) => match extension_of_name(name) {
            None => None,
            Some(e) => Some(lower_seq(e)),
        },
    }
}

/// How the shim reads its argument: a URI when it starts with a valid
/// `scheme:` (see `parse_url_spec`) and is not a drive path, otherwise a
/// file path.
pub open spec fn parse_target(s: Seq<char>) -> TargetView {
    if !looks_like_drive(s) && parse_url_spec(s) is Some {
        let (scheme, url, host) = parse_url_spec(s)->0;
        TargetView::Url { url, scheme, host }
    } else {
        TargetView::File { path: s, ext: path_extension(s) }
    }
}

proof fn lemma_last_dot(name: Seq<char>)
    ensures
        last_dot(name) matches Some(d) ==> 0 <= d < name.len() && name[d] == '.' && (forall|j: int|
            d < j < name.len() ==> name[j] != '.'),
        last_dot(name) is None ==> forall|j: int| 0 <= j < name.len() ==> name[j] != '.',
    decreases name.len(),
{
    if name.len() > 0 {
        let p = name.drop_last();
        lemma_last_dot(p);
        assert forall|j: int| 0 <= j < p.len() implies p[j] == name[j] by {}
        if name.last() != '.' {
            match last_dot(p) {
                Some(d) => {
                    assert forall|j: int| d < j < name.len() implies name[j] != '.' by {
                        if j < p.len() {
                            assert(p[j] == name[j]);
                        }
                    }
                },
                None => {
                    assert forall|j: int| 0 <= j < name.len() implies name[j] != '.' by {
                        if j < p.len() {
                            assert(p[j] == name[j]);
                        }
                    }
                },
            }
        }
    }
}

/// The extension of a file name is what follows its last `.`, so it holds
/// no `.` itself; a name has none exactly when it has no `.` after its first
/// character.
pub proof fn law_extension_after_last_dot(name: Seq<char>)
    ensures
        extension_of_name(name) matches Some(e) ==> !e.contains('.') && exists|d: int|
            0 < d < name.len() && name[d] == '.' && e == name.skip(d + 1),
        extension_of_name(name) is None ==> forall|d: int| 0 < d < name.len() ==> name[d] != '.',
{
    lemma_last_dot(name);
    if let Some(d) = last_dot(name) {
        if d > 0 {
            let e = name.skip(d + 1);
            assert(e == name.skip(d + 1));
            if e.contains('.') {
                let k = choose|k: int| 0 <= k < e.len() && e[k] == '.';
                assert(name[d + 1 + k] == '.');
            }
        }
    }
}

proof fn lemma_lower_keeps_no_dot(x: Seq<char>)
    requires
        !x.contains('.'),
    ensures
        !lower_seq(x).contains('.'),
{
    if lower_seq(x).contains('.') {
        let k = choose|k: int| 0 <= k < lower_seq(x).len() && lower_seq(x)[k] == '.';
        let c = x[k];
        assert(lower_seq(x)[k] == lower_char(c));
        if is_ascii_upper(c) {
            assert(65 <= (c as u32) <= 90);
            assert(((c as u32) + 32) as char != '.');
        } else {
            assert(x.contains(c));
        }
    }
}

/// The extension of a file target is the lower-cased text after the last
/// `.` of its file name: it holds no `.`, so `report.v2.pdf` has `pdf`. A
/// file target has no extension only when its file name has no `.` after
/// its first character (or it has no file name).
pub proof fn law_target_extension(s: Seq<char>)
    ensures
        parse_target(s) matches TargetView::File { ext: Some(e), .. } ==> !e.contains('.') && exists|
            name: Seq<char>,
            d: int,
        |
            file_name_of(without_drive(s)) == Some(name) && 0 < d < name.len() && name[d] == '.' && e
                == lower_seq(name.skip(d + 1)),
        parse_target(s) matches TargetView::File { ext: None, .. } ==> match file_name_of(
            without_drive(s),
        ) {
            Some(name) => forall|d: int| 0 < d < name.len() ==> name[d] != '.',
            None => true,
        },
{
    if let Some(name) = file_name_of(without_drive(s)) {
        law_extension_after_last_dot(name);
    }
    if let TargetView::File { ext: Some(e), .. } = parse_target(s) {
        let name = file_name_of(without_drive(s))->0;
        law_extension_after_last_dot(name);
        let raw = extension_of_name(name)->0;
        lemma_lower_keeps_no_dot(raw);
        let d = choose|d: int| 0 < d < name.len() && name[d] == '.' && raw == name.skip(d + 1);
        assert(file_name_of(without_drive(s)) == Some(name) && 0 < d < name.len() && name[d] == '.'
            && e == lower_seq(name.skip(d + 1)));
    }
}

fn drive_like(cs: &Vec<char>) -> (b: bool)
    ensures
        b == looks_like_drive(cs@),
{
    cs.len() >= 2 && cs[1] == ':' && is_alpha(cs[0]) && (cs.len() == 2 || cs[2] == '\\' || cs[2]
        == '/')
}

fn host_chars(cs: &Vec<char>, from: usize) -> (r: Vec<char>)
    requires
        from <= cs@.len(),
    ensures
        r@ == host_part(cs@.skip(from as int)),
{
    let mut r: Vec<char> = Vec::new();
    let mut i = from;
    assert(r@ + host_part(cs@.skip(from as int)) =~= host_part(cs@.skip(from as int)));
    while i < cs.len() && !(cs[i] == '/' || cs[i] == '?' || cs[i] == '#')
        invariant
            from <= i <= cs@.len(),
            r@ + host_part(cs@.skip(i as int)) == host_part(cs@.skip(from as int)),
        decreases cs@.len() - i,
    {
        let ghost before = r@;
        r.push(cs[i]);
        assert(cs@.skip(i as int).drop_first() =~= cs@.skip(i + 1));
        assert(r@ + host_part(cs@.skip(i + 1)) =~= before + host_part(cs@.skip(i as int)));
        i = i + 1;
    }
    assert(host_part(cs@.skip(i as int)) =~= Seq::<char>::empty());
    assert(r@ =~= r@ + host_part(cs@.skip(i as int)));
    r
}

/// Splits a URI at its scheme (see `parse_url_spec`).
#[verifier::loop_isolation(false)]
fn parse_url(input: &str) -> (r: Option<(String, String, Option<String>)>)
    ensures
        match r {
            Some((scheme, url, host)) => parse_url_spec(input@) == Some(
                (scheme@, url@, opt_view(host)),
            ),
            None => parse_url_spec(input@) is None,
        },
{
    let cs = chars_of(input);
    let colon: Vec<char> = vec![':'];
    assert(colon@ =~= seq![':']);
    let e = match find_seq(&cs, &colon) {
        Some(e) => e,
        None => {
            return None;
        },
    };
    proof {
        crate::text::lemma_find_from(cs@, colon@, 0);
        assert(cs@.subrange(e as int, e + 1)[0] == cs@[e as int]);
    }
    if e == 0 || !is_alpha(cs[0]) {
        return None;
    }
    let mut j: usize = 0;
    while j < e
        invariant
            e < cs@.len(),
            j <= e,
            forall|k: int| 0 <= k < j ==> is_scheme_char(cs@[k]),
        decreases e - j,
    {
        let c = cs[j];
        if !(is_alnum(c) || c == '+' || c == '-' || c == '.') {
            assert(cs@.subrange(0, e as int)[j as int] == c);
            assert(!is_scheme_char(cs@.subrange(0, e as int)[j as int]));
            return None;
        }
        j = j + 1;
    }
    let mut scheme_chars: Vec<char> = Vec::new();
    let mut k: usize = 0;
    while k < e
        invariant
            e < cs@.len(),
            k <= e,
            scheme_chars@ == cs@.subrange(0, k as int),
        decreases e - k,
    {
        scheme_chars.push(cs[k]);
        assert(scheme_chars@ =~= cs@.subrange(0, k + 1));
        k = k + 1;
    }
    let scheme = string_of(&scheme_chars);
    let lower = lowercase(scheme.as_str());
    let slashes = cs.len() - e > 2 && cs[e + 1] == '/' && cs[e + 2] == '/';
    proof {
        let sep = scheme_sep();
        if slashes {
            assert(cs@.subrange(e as int, e + 3) =~= sep);
        } else if e + 3 <= cs@.len() {
            assert(cs@.subrange(e as int, e + 3)[1] == cs@[e + 1]);
            assert(cs@.subrange(e as int, e + 3)[2] == cs@[e + 2]);
            assert(cs@.subrange(e as int, e + 3) != sep);
        }
    }
    if slashes {
        let host = host_chars(&cs, e + 3);
        let host_opt = if host.len() == 0 {
            None
        } else {
            Some(string_of(&host))
        };
        Some((lower, owned(input), host_opt))
    } else if e >= 2 {
        Some((lower, owned(input), None))
    } else {
        None
    }
}

fn after_last_sep_exec(cs: &Vec<char>, end: usize) -> (r: usize)
    requires
        end <= cs@.len(),
    ensures
        r as int == after_last_sep(cs@.subrange(0, end as int)),
        r <= end,
    decreases end,
{
    if end == 0 {
        0
    } else if cs[end - 1] == '\\' || cs[end - 1] == '/' {
        end
    } else {
        assert(cs@.subrange(0, end as int).drop_last() =~= cs@.subrange(0, end - 1));
        after_last_sep_exec(cs, end - 1)
    }
}

/// Start and end of the file name of `cs[base..end]` (see `file_name_of`).
fn file_name_range(cs: &Vec<char>, base: usize, end: usize) -> (r: Option<(usize, usize)>)
    requires
        base <= end <= cs@.len(),
    ensures
        match r {
            Some((a, b)) => base <= a <= b <= end && file_name_of(cs@.subrange(base as int, end as int))
                == Some(cs@.subrange(a as int, b as int)),
            None => file_name_of(cs@.subrange(base as int, end as int)) is None,
        },
    decreases end - base,
{
    let ghost p = cs@.subrange(base as int, end as int);
    if end == base {
        return None;
    }
    if cs[end - 1] == '\\' || cs[end - 1] == '/' {
        assert(p.drop_last() =~= cs@.subrange(base as int, end - 1));
        return file_name_range(cs, base, end - 1);
    }
    let start_abs = after_last_sep_in(cs, base, end);
    let ghost start = start_abs - base;
    assert(p.skip(start) =~= cs@.subrange(start_abs as int, end as int));
    let len = end - start_abs;
    if len == 1 && cs[start_abs] == '.' {
        assert(cs@.subrange(start_abs as int, end as int) =~= seq!['.']);
        if start_abs == base {
            return None;
        }
        assert(p.subrange(0, start) =~= cs@.subrange(base as int, start_abs as int));
        return file_name_range(cs, base, start_abs);
    }
    if len == 2 && cs[start_abs] == '.' && cs[start_abs + 1] == '.' {
        assert(cs@.subrange(start_abs as int, end as int) =~= seq!['.', '.']);
        return None;
    }
    assert(cs@.subrange(start_abs as int, end as int) != seq!['.']) by {
        if len == 1 {
            assert(cs@.subrange(start_abs as int, end as int)[0] == cs@[start_abs as int]);
        }
    }
    assert(cs@.subrange(start_abs as int, end as int) != seq!['.', '.']) by {
        if len == 2 {
            assert(cs@.subrange(start_abs as int, end as int)[0] == cs@[start_abs as int]);
            assert(cs@.subrange(start_abs as int, end as int)[1] == cs@[start_abs + 1]);
        }
    }
    Some((start_abs, end))
}

/// The position after the last separator in `cs[base..end]`, counted in `cs`.
fn after_last_sep_in(cs: &Vec<char>, base: usize, end: usize) -> (r: usize)
    requires
        base <= end <= cs@.len(),
    ensures
        base <= r <= end,
        r - base == after_last_sep(cs@.subrange(base as int, end as int)),
    decreases end - base,
{
    if end == base {
        base
    } else if cs[end - 1] == '\\' || cs[end - 1] == '/' {
        end
    } else {
        assert(cs@.subrange(base as int, end as int).drop_last() =~= cs@.subrange(
            base as int,
            end - 1,
        ));
        after_last_sep_in(cs, base, end - 1)
    }
}

/// The position of the last `.` in `cs[a..b]`, counted in `cs`.
fn last_dot_in(cs: &Vec<char>, a: usize, b: usize) -> (r: Option<usize>)
    requires
        a <= b <= cs@.len(),
    ensures
        match r {
            Some(d) => a <= d < b && last_dot(cs@.subrange(a as int, b as int)) == Some(d - a),
            None => last_dot(cs@.subrange(a as int, b as int)) is None,
        },
    decreases b - a,
{
    if b == a {
        None
    } else if cs[b - 1] == '.' {
        Some(b - 1)
    } else {
        assert(cs@.subrange(a as int, b as int).drop_last() =~= cs@.subrange(a as int, b - 1));
        last_dot_in(cs, a, b - 1)
    }
}

fn extension_exec(cs: &Vec<char>) -> (r: Option<String>)
    ensures
        opt_view(r) == path_extension(cs@),
{
    let base: usize = if cs.len() >= 2 && is_alpha(cs[0]) && cs[1] == ':' {
        2
    } else {
        0
    };
    assert(without_drive(cs@) =~= cs@.subrange(base as int, cs@.len() as int));
    match file_name_range(cs, base, cs.len()) {
        None => None,
        Some((a, b)) => {
            let ghost name = cs@.subrange(a as int, b as int);
            match last_dot_in(cs, a, b) {
                None => None,
                Some(d) => {
                    if d == a {
                        None
                    } else {
                        let mut e: Vec<char> = Vec::new();
                        let mut k = d + 1;
                        while k < b
                            invariant
                                d + 1 <= k <= b,
                                b <= cs@.len(),
                                e@ == cs@.subrange(d + 1, k as int),
                            decreases b - k,
                        {
                            e.push(cs[k]);
                            assert(e@ =~= cs@.subrange(d + 1, k + 1));
                            k = k + 1;
                        }
                        let raw = string_of(&e);
                        assert(name.skip(d - a + 1) =~= cs@.subrange(d + 1, b as int));
                        Some(lowercase(raw.as_str()))
                    }
                },
            }
        },
    }
}

/// The file name of a path (see `file_name_of`), drive prefix aside.
pub fn file_name(path: &str) -> (r: Option<String>)
    ensures
        opt_view(r) == file_name_of(without_drive(path@)),
{
    let cs = chars_of(path);
    let base: usize = if cs.len() >= 2 && is_alpha(cs[0]) && cs[1] == ':' {
        2
    } else {
        0
    };
    assert(without_drive(cs@) =~= cs@.subrange(base as int, cs@.len() as int));
    match file_name_range(&cs, base, cs.len()) {
        None => None,
        Some((a, b)) => {
            let mut name: Vec<char> = Vec::new();
            let mut k = a;
            while k < b
                invariant
                    a <= k <= b,
                    b <= cs@.len(),
                    name@ == cs@.subrange(a as int, k as int),
                decreases b - k,
            {
                name.push(cs[k]);
                assert(name@ =~= cs@.subrange(a as int, k + 1));
                k = k + 1;
            }
            Some(string_of(&name))
        },
    }
}

impl Target {
    /// Reads the shim's argument (see `parse_target`).
    pub fn parse(input: &str) -> (t: Target)
        ensures
            t@ == parse_target(input@),
    {
        let cs = chars_of(input);
        if !drive_like(&cs) {
            if let Some((scheme, url, host)) = parse_url(input) {
                return Target::Url { url, scheme, host };
            }
        }
        let ext = extension_exec(&cs);
        Target::File { path: owned(input), ext }
    }

    /// The path or URL as it was given.
    pub fn raw(&self) -> (s: &str)
        ensures
            s@ == target_raw(self@),
    {
        match self {
            Target::File { path, .. } => path.as_str(),
            Target::Url { url, .. } => url.as_str(),
        }
    }
}

pub open spec fn target_raw(t: TargetView) -> Seq<char> {
    match t {
        TargetView::File { path, .. } => path,
        TargetView::Url { url, .. } => url,
    }
}

} // verus!
