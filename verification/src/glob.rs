//! Glob matching of paths, hosts and URLs, done by the `globset` crate.
use vstd::prelude::*;

verus! {

/// What `globset` answers for `text` against `pattern` built with the given
/// options and globset's own default for `backslash_escape`: `None` when the
/// pattern does not parse or its regex does not compile, otherwise whether
/// the compiled set accepts `text`. The answer is that of the build the
/// library runs in: on Windows, the platform this tool is for, `\` is no
/// escape and globset reads it as `/` in the pattern and in the text;
/// elsewhere `\` escapes the next character of the pattern.
pub uninterp spec fn globset_verdict(
    pattern: Seq<char>,
    text: Seq<char>,
    case_insensitive: bool,
    literal_separator: bool,
) -> Option<bool>;

/// `globset::GlobBuilder::new(pattern)` with `case_insensitive` and
/// `literal_separator` set as given (`backslash_escape` left at globset's
/// default for the platform), then `build()`;
/// the glob is then put alone into a `globset::GlobSetBuilder`, whose
/// `build()` compiles its regex and reports a failure (nesting too deep, size
/// limit) as an error rather than panicking. On success the set's
/// `is_match(text)`, on either error `None`. The contract names the result
/// and adds one fact from globset's parser: the pattern `*` alone always
/// parses and compiles.
#[verifier::external_body]
fn glob_try_match(
    pattern: &str,
    text: &str,
    case_insensitive: bool,
    literal_separator: bool,
) -> (r: Option<bool>)
    ensures
        r == globset_verdict(pattern@, text@, case_insensitive, literal_separator),
        pattern@ == seq!['*'] ==> r is Some,
{
    let glob = match globset::GlobBuilder::new(pattern).case_insensitive(case_insensitive)
        .literal_separator(literal_separator).build() {
        Ok(glob) => glob,
        Err(_) => return None,
    };
    match globset::GlobSetBuilder::new().add(glob).build() {
        Ok(set) => Some(set.is_match(text)),
        Err(_) => None,
    }
}

/// Whether `text` matches `pattern` built case-insensitive, with `*` and `**`
/// both free to cross `/` (`\` as globset reads it on the platform, see
/// `globset_verdict`). A pattern that globset refuses falls back to `*`
/// built with globset's defaults.
pub open spec fn glob_matches(pattern: Seq<char>, text: Seq<char>) -> bool {
    glob_outcome(
        globset_verdict(pattern, text, true, false),
        globset_verdict(seq!['*'], text, false, false),
    )
}

/// The verdict of the pattern itself when it parses, else the verdict of `*`.
pub open spec fn glob_outcome(verdict: Option<bool>, star_verdict: Option<bool>) -> bool {
    match verdict {
        Some(b) => b,
        None => match star_verdict {
            Some(b) => b,
            None => true,
        },
    }
}

/// Combines the verdict of a pattern with the verdict of the fallback `*`
/// (see `glob_outcome`).
pub fn combine_glob_verdicts(verdict: Option<bool>, star_verdict: Option<bool>) -> (b: bool)
    ensures
        b == glob_outcome(verdict, star_verdict),
{
    match verdict {
        Some(b) => b,
        None => match star_verdict {
            Some(b) => b,
            None => true,
        },
    }
}

/// Matches `text` against `pattern` (see `glob_matches`).
pub fn glob_match(pattern: &str, text: &str) -> (matched: bool)
    ensures
        matched == glob_matches(pattern@, text@),
{
    let verdict = glob_try_match(pattern, text, true, false);
    if let Some(b) = verdict {
        assert(verdict == Some(b));
        b
    } else {
        let star = "*";
        proof {
            reveal_strlit("*");
            assert(star@ =~= seq!['*']);
        }
        let star_verdict = glob_try_match(star, text, false, false);
        combine_glob_verdicts(verdict, star_verdict)
    }
}

} // verus!
