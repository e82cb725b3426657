//! The launch log: when it is rotated, and how its last lines are read back.
//! Writing the file is left to the caller; a log line is built by
//! `commands::log_line`.
use vstd::prelude::*;
use crate::text::{chars_of, first_index_of, string_of, views, lemma_views_push};

verus! {

/// The size above which the log is moved aside before the next line (1 MiB).
pub const MAX_LOG_BYTES: u64 = 1_048_576;

/// Whether a log of `size` bytes is rotated before the next line is written.
pub fn needs_rotation(size: u64) -> (b: bool)
    ensures
        b == (size > MAX_LOG_BYTES),
{
    size > MAX_LOG_BYTES
}

/// A line without the carriage return of a `\r\n` ending.
pub open spec fn strip_cr(t: Seq<char>) -> Seq<char> {
    if t.len() > 0 && t.last() == '\r' {
        t.drop_last()
    } else {
        t
    }
}

/// The lines of `s` from position `start` on: each ended by `\n` (or
/// `\r\n`), the last one's ending optional.
pub open spec fn lines_from(s: Seq<char>, start: int) -> Seq<Seq<char>>
    decreases s.len() - start,
{
    if start < 0 || start >= s.len() {
        Seq::empty()
    } else {
        match first_index_of(s.skip(start), '\n') {
            Some(k) => if 0 <= k < s.len() - start {
                seq![strip_cr(s.subrange(start, start + k))] + lines_from(s, start + k + 1)
            } else {
                Seq::empty()
            },
            None => seq![s.skip(start)],
        }
    }
}

/// The lines of a text, as `str::lines` splits them.
pub open spec fn lines_spec(s: Seq<char>) -> Seq<Seq<char>> {
    lines_from(s, 0)
}

/// The lines of a text.
pub fn log_lines(text: &str) -> (r: Vec<String>)
    ensures
        views(r@) == lines_spec(text@),
{
    let cs = chars_of(text);
    let n = cs.len();
    let mut r: Vec<String> = Vec::new();
    let mut current: Vec<char> = Vec::new();
    let mut line_start: usize = 0;
    let mut i: usize = 0;
    while i < n
        invariant
            n == cs@.len(),
            cs@ == text@,
            line_start <= i <= n,
            current@ == cs@.subrange(line_start as int, i as int),
            forall|j: int| line_start <= j < i ==> cs@[j] != '\n',
            views(r@) + lines_from(cs@, line_start as int) == lines_spec(cs@),
        decreases n - i,
    {
        let c = cs[i];
        if c == '\n' {
            proof {
                crate::env::lemma_first_index_of_found(
                    cs@.skip(line_start as int),
                    '\n',
                    (i - line_start) as int,
                );
                assert(cs@.subrange(line_start as int, i as int) == cs@.subrange(
                    line_start as int,
                    line_start + (i - line_start),
                ));
            }
            let ghost line = strip_cr(current@);
            if current.len() > 0 && current[current.len() - 1] == '\r' {
                current.pop();
            }
            assert(current@ == line);
            let s = string_of(current.as_slice());
            let ghost before = r@;
            r.push(s);
            proof {
                lemma_views_push(before, s);
                assert(views(r@) + lines_from(cs@, i + 1) =~= views(before) + lines_from(
                    cs@,
                    line_start as int,
                ));
            }
            current = Vec::new();
            line_start = i + 1;
            assert(current@ =~= cs@.subrange(line_start as int, (i + 1) as int));
        } else {
            current.push(c);
            assert(current@ =~= cs@.subrange(line_start as int, (i + 1) as int));
        }
        i = i + 1;
    }
    if current.len() > 0 {
        proof {
            crate::env::lemma_first_index_of_missing(cs@.skip(line_start as int), '\n');
            assert(cs@.skip(line_start as int) =~= current@);
        }
        let s = string_of(current.as_slice());
        let ghost before = r@;
        r.push(s);
        proof {
            lemma_views_push(before, s);
            assert(views(r@) =~= views(before) + lines_from(cs@, line_start as int));
        }
    } else {
        assert(views(r@) =~= views(r@) + lines_from(cs@, line_start as int));
    }
    r
}

/// Where the last `n` of `count` lines begin.
pub open spec fn tail_start(count: nat, n: nat) -> int {
    if count > n {
        count - n
    } else {
        0
    }
}

/// The last `n` lines of a text (all of them when there are fewer).
pub fn tail_lines(text: &str, n: usize) -> (r: Vec<String>)
    ensures
        views(r@) == lines_spec(text@).skip(tail_start(lines_spec(text@).len(), n as nat)),
{
    let lines = log_lines(text);
    let start = lines.len().saturating_sub(n);
    let mut r: Vec<String> = Vec::new();
    let mut i: usize = start;
    while i < lines.len()
        invariant
            start <= i <= lines@.len(),
            views(lines@) == lines_spec(text@),
            start == tail_start(lines@.len(), n as nat),
            views(r@) == views(lines@).subrange(start as int, i as int),
        decreases lines@.len() - i,
    {
        let s = crate::text::owned(lines[i].as_str());
        let ghost before = r@;
        r.push(s);
        proof {
            lemma_views_push(before, s);
            assert(views(lines@).subrange(start as int, i + 1) =~= views(lines@).subrange(
                start as int,
                i as int,
            ).push(lines@[i as int]@));
        }
        i = i + 1;
    }
    assert(views(lines@).subrange(start as int, lines@.len() as int) =~= views(lines@).skip(
        start as int,
    ));
    r
}

} // verus!
