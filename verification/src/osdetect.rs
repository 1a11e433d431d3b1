//! Detection of a remote host's operating system from command output:
//! the `ID=` line of `/etc/os-release`, with `uname -s` as fallback.
//! Detection is advisory; it only enables server-side shortcuts.
use vstd::prelude::*;

verus! {

use crate::strutil::ascii_lower;
use crate::strutil::spec_ascii_lower;
use crate::strutil::spec_starts_with;
use crate::strutil::str_eq;
use crate::strutil::str_starts_with;
use vstd::string::StrSliceExecFns;
use vstd::string::StringExecFns;

/// The index of the first occurrence of `c` in `s`, or `-1`.
pub open spec fn spec_find_char(s: Seq<char>, c: char) -> int
    decreases s.len(),
{
    if s.len() == 0 {
        -1
    } else if s[0] == c {
        0
    } else {
        let r = spec_find_char(s.drop_first(), c);
        if r < 0 {
            -1
        } else {
            r + 1
        }
    }
}

/// A found index lies inside the string and is its first hit.
pub proof fn lemma_find_char(s: Seq<char>, c: char)
    ensures
        spec_find_char(s, c) >= 0 ==> {
            &&& spec_find_char(s, c) < s.len()
            &&& s[spec_find_char(s, c)] == c
            &&& forall|j: int| 0 <= j < spec_find_char(s, c) ==> s[j] != c
        },
        spec_find_char(s, c) < 0 ==> forall|j: int| 0 <= j < s.len() ==> s[j] != c,
    decreases s.len(),
{
    if s.len() > 0 && s[0] != c {
        lemma_find_char(s.drop_first(), c);
        let r = spec_find_char(s.drop_first(), c);
        if r >= 0 {
            assert(s.drop_first()[r] == c);
            assert forall|j: int| 0 <= j < r + 1 implies s[j] != c by {
                if j > 0 {
                    assert(s.drop_first()[j - 1] != c);
                }
            }
        } else {
            assert forall|j: int| 0 <= j < s.len() implies s[j] != c by {
                if j > 0 {
                    assert(s.drop_first()[j - 1] != c);
                }
            }
        }
    }
}

/// The lines of a text, split at `'\n'`; the final line needs no
/// terminator, and an empty text has no lines.
pub open spec fn spec_lines(s: Seq<char>) -> Seq<Seq<char>>
    decreases s.len(),
{
    let i = spec_find_char(s, '\n');
    if s.len() == 0 {
        Seq::empty()
    } else if i < 0 || i >= s.len() {
        seq![s]
    } else {
        seq![s.take(i)] + spec_lines(s.skip(i + 1))
    }
}

/// A line as `str::lines` yields it: one trailing carriage return is
/// dropped.
pub open spec fn spec_strip_cr(l: Seq<char>) -> Seq<char> {
    if l.len() > 0 && l.last() == '\r' {
        l.drop_last()
    } else {
        l
    }
}

/// Every leading `ID=` repetition removed, as `trim_start_matches`
/// strips a prefix as often as it occurs.
pub open spec fn spec_strip_id_prefix(l: Seq<char>) -> Seq<char>
    decreases l.len(),
{
    if spec_starts_with(l, seq!['I', 'D', '=']) && l.len() >= 3 {
        spec_strip_id_prefix(l.skip(3))
    } else {
        l
    }
}

/// Leading double quotes removed.
pub open spec fn spec_trim_leading_quotes(l: Seq<char>) -> Seq<char>
    decreases l.len(),
{
    if l.len() > 0 && l[0] == '"' {
        spec_trim_leading_quotes(l.drop_first())
    } else {
        l
    }
}

/// Trailing double quotes removed.
pub open spec fn spec_trim_trailing_quotes(l: Seq<char>) -> Seq<char>
    decreases l.len(),
{
    if l.len() > 0 && l.last() == '"' {
        spec_trim_trailing_quotes(l.drop_last())
    } else {
        l
    }
}

/// Double quotes removed from both ends, as `trim_matches('"')` does.
pub open spec fn spec_trim_quotes(l: Seq<char>) -> Seq<char> {
    spec_trim_trailing_quotes(spec_trim_leading_quotes(l))
}

/// The detected id of an os-release text: the value of its first
/// `ID=` line, unquoted; `None` when no line starts with `ID=`.
pub open spec fn spec_os_release_id(lines: Seq<Seq<char>>) -> Option<Seq<char>>
    decreases lines.len(),
{
    if lines.len() == 0 {
        None
    } else if spec_starts_with(spec_strip_cr(lines[0]), seq!['I', 'D', '=']) {
        Some(spec_trim_quotes(spec_strip_id_prefix(spec_strip_cr(lines[0]))))
    } else {
        spec_os_release_id(lines.drop_first())
    }
}

/// Splits a text into lines at `'\n'`.
pub fn split_lines(text: &str) -> (r: Vec<String>)
    ensures
        r@.map_values(|l: String| l@) == spec_lines(text@),
{
    let mut out: Vec<String> = Vec::new();
    let mut rest = text;
    proof {
        assert(out@.map_values(|l: String| l@) + spec_lines(rest@) =~= spec_lines(text@));
    }
    loop
        invariant
            out@.map_values(|l: String| l@) + spec_lines(rest@) == spec_lines(text@),
        ensures
            rest@.len() == 0,
            out@.map_values(|l: String| l@) + spec_lines(rest@) == spec_lines(text@),
        decreases rest@.len(),
    {
        let n = rest.unicode_len();
        if n == 0 {
            break;
        }
        let ghost prev = rest@;
        let ghost prev_out = out@;
        let mut i: usize = 0;
        let mut found = false;
        while i < n && !found
            invariant
                n == rest@.len(),
                0 <= i <= n,
                found ==> i < n && rest@[i as int] == '\n' && spec_find_char(rest@, '\n')
                    == i as int,
                !found ==> forall|j: int| 0 <= j < i ==> rest@[j] != '\n',
            decreases n - i, (if found { 0int } else { 1int }),
        {
            if rest.get_char(i) == '\n' {
                found = true;
                proof {
                    lemma_find_char(rest@, '\n');
                    let f = spec_find_char(rest@, '\n');
                    if f >= 0 {
                        if f < i {
                            assert(rest@[f] == '\n');
                        }
                        if f > i {
                            assert(rest@[i as int] != '\n');
                        }
                    } else {
                        assert(rest@[i as int] != '\n');
                    }
                }
            } else {
                i = i + 1;
            }
        }
        if found {
            let line = rest.substring_char(0, i);
            out.push(line.to_owned());
            rest = rest.substring_char(i + 1, n);
            proof {
                assert(spec_lines(prev) == seq![prev.take(i as int)] + spec_lines(
                    prev.skip(i as int + 1),
                ));
                assert(out@.map_values(|l: String| l@) =~= prev_out.map_values(|l: String| l@)
                    + seq![prev.take(i as int)]);
                assert(out@.map_values(|l: String| l@) + spec_lines(rest@) =~= prev_out.map_values(
                    |l: String| l@,
                ) + spec_lines(prev));
            }
        } else {
            proof {
                lemma_find_char(rest@, '\n');
                assert(spec_find_char(rest@, '\n') < 0) by {
                    let f = spec_find_char(rest@, '\n');
                    if f >= 0 {
                        assert(rest@[f] == '\n');
                    }
                }
                assert(spec_lines(rest@) == seq![rest@]);
            }
            out.push(rest.to_owned());
            rest = rest.substring_char(n, n);
            proof {
                assert(rest@.len() == 0);
                assert(spec_lines(rest@) =~= Seq::<Seq<char>>::empty());
                assert(out@.map_values(|l: String| l@) =~= prev_out.map_values(|l: String| l@)
                    + seq![prev]);
                assert(out@.map_values(|l: String| l@) + spec_lines(rest@) =~= prev_out.map_values(
                    |l: String| l@,
                ) + spec_lines(prev));
            }
        }
    }
    proof {
        assert(spec_lines(rest@) =~= Seq::<Seq<char>>::empty());
        assert(out@.map_values(|l: String| l@) + spec_lines(rest@) =~= out@.map_values(
            |l: String| l@,
        ));
    }
    out
}

/// Drops one trailing carriage return, as `str::lines` would.
fn strip_cr(line: &str) -> (r: String)
    ensures
        r@ == spec_strip_cr(line@),
{
    let n = line.unicode_len();
    if n > 0 && line.get_char(n - 1) == '\r' {
        let s = line.substring_char(0, n - 1);
        proof {
            assert(line@.take(n as int - 1) =~= line@.drop_last());
        }
        s.to_owned()
    } else {
        line.to_owned()
    }
}

/// Strips every leading `ID=` repetition from a line.
fn strip_id_prefix(line: &str) -> (r: String)
    ensures
        r@ == spec_strip_id_prefix(line@),
{
    proof {
        reveal_strlit("ID=");
        assert("ID="@ =~= seq!['I', 'D', '=']);
    }
    let mut rest = line;
    loop
        invariant
            spec_strip_id_prefix(rest@) == spec_strip_id_prefix(line@),
        ensures
            !(spec_starts_with(rest@, seq!['I', 'D', '=']) && rest@.len() >= 3),
            spec_strip_id_prefix(rest@) == spec_strip_id_prefix(line@),
        decreases rest@.len(),
    {
        proof {
            reveal_strlit("ID=");
            assert("ID="@ =~= seq!['I', 'D', '=']);
        }
        if !str_starts_with(rest, "ID=") {
            break;
        }
        let n = rest.unicode_len();
        let ghost prev = rest@;
        rest = rest.substring_char(3, n);
        proof {
            assert(rest@ =~= prev.skip(3));
            assert(spec_starts_with(prev, seq!['I', 'D', '=']));
            assert(spec_strip_id_prefix(prev) == spec_strip_id_prefix(prev.skip(3)));
        }
    }
    proof {
        assert(spec_strip_id_prefix(rest@) == rest@);
    }
    rest.to_owned()
}

/// Trims double quotes from both ends of a line.
fn trim_quotes(line: &str) -> (r: String)
    ensures
        r@ == spec_trim_quotes(line@),
{
    let mut lo: usize = 0;
    let mut hi = line.unicode_len();
    proof {
        assert(line@.subrange(0, line@.len() as int) =~= line@);
    }
    while lo < hi && line.get_char(lo) == '"'
        invariant
            0 <= lo <= hi <= line@.len(),
            spec_trim_leading_quotes(line@) == spec_trim_leading_quotes(
                line@.subrange(lo as int, hi as int),
            ),
            hi == line@.len(),
        decreases hi - lo,
    {
        proof {
            let cur = line@.subrange(lo as int, hi as int);
            assert(cur[0] == line@[lo as int]);
            assert(cur.drop_first() =~= line@.subrange(lo as int + 1, hi as int));
        }
        lo = lo + 1;
    }
    proof {
        let cur = line@.subrange(lo as int, hi as int);
        if lo < hi {
            assert(cur[0] == line@[lo as int]);
        }
        assert(spec_trim_leading_quotes(cur) == cur);
    }
    while hi > lo && line.get_char(hi - 1) == '"'
        invariant
            0 <= lo <= hi <= line@.len(),
            spec_trim_leading_quotes(line@) == line@.subrange(lo as int, line@.len() as int),
            spec_trim_trailing_quotes(line@.subrange(lo as int, line@.len() as int))
                == spec_trim_trailing_quotes(line@.subrange(lo as int, hi as int)),
        decreases hi - lo,
    {
        proof {
            let cur = line@.subrange(lo as int, hi as int);
            assert(cur.last() == line@[hi as int - 1]);
            assert(cur.drop_last() =~= line@.subrange(lo as int, hi as int - 1));
        }
        hi = hi - 1;
    }
    proof {
        let cur = line@.subrange(lo as int, hi as int);
        if hi > lo {
            assert(cur.last() == line@[hi as int - 1]);
        }
        assert(spec_trim_trailing_quotes(cur) == cur);
        assert(spec_trim_quotes(line@) == cur);
    }
    let s = line.substring_char(lo, hi);
    s.to_owned()
}

/// Parses the output of `cat /etc/os-release`: the value of the first
/// `ID=` line, with surrounding quotes removed; `None` when no such
/// line exists.
pub fn parse_os_release(text: &str) -> (r: Option<String>)
    ensures
        match r {
            Some(v) => spec_os_release_id(spec_lines(text@)) == Some(v@),
            None => spec_os_release_id(spec_lines(text@)) is None,
        },
{
    proof {
        reveal_strlit("ID=");
        assert("ID="@ =~= seq!['I', 'D', '=']);
    }
    let lines = split_lines(text);
    let n = lines.len();
    let mut i: usize = 0;
    proof {
        assert(spec_lines(text@).skip(0) =~= spec_lines(text@));
    }
    while i < n
        invariant
            n == lines@.len(),
            0 <= i <= n,
            lines@.map_values(|l: String| l@) == spec_lines(text@),
            spec_os_release_id(spec_lines(text@)) == spec_os_release_id(
                spec_lines(text@).skip(i as int),
            ),
        decreases n - i,
    {
        let ghost all = spec_lines(text@);
        let stripped = strip_cr(lines[i].as_str());
        proof {
            reveal_strlit("ID=");
            assert("ID="@ =~= seq!['I', 'D', '=']);
            assert(all.skip(i as int)[0] == all[i as int]);
            assert(all[i as int] == lines@.map_values(|l: String| l@)[i as int]);
            assert(all.skip(i as int).drop_first() =~= all.skip(i as int + 1));
        }
        if str_starts_with(stripped.as_str(), "ID=") {
            let unprefixed = strip_id_prefix(stripped.as_str());
            let value = trim_quotes(unprefixed.as_str());
            proof {
                assert(spec_os_release_id(all.skip(i as int)) == Some(
                    spec_trim_quotes(spec_strip_id_prefix(spec_strip_cr(all[i as int]))),
                ));
            }
            return Some(value);
        }
        i = i + 1;
    }
    proof {
        assert(spec_lines(text@).skip(n as int) =~= Seq::<Seq<char>>::empty());
    }
    None
}

/// The detected name for a trimmed, lower-cased `uname -s` output:
/// `darwin` maps to `macos`, anything else names itself, and an empty
/// output detects nothing.
pub open spec fn spec_uname_os(s: Seq<char>) -> Option<Seq<char>> {
    let name = spec_ascii_lower(spec_trim_ws(s));
    if name == seq!['d', 'a', 'r', 'w', 'i', 'n'] {
        Some(seq!['m', 'a', 'c', 'o', 's'])
    } else if name.len() == 0 {
        None
    } else {
        Some(name)
    }
}

/// ASCII whitespace, as it occurs around `uname` output.
pub open spec fn spec_is_ws(c: char) -> bool {
    c == ' ' || c == '\t' || c == '\n' || c == '\r'
}

/// Leading whitespace removed.
pub open spec fn spec_trim_leading_ws(l: Seq<char>) -> Seq<char>
    decreases l.len(),
{
    if l.len() > 0 && spec_is_ws(l[0]) {
        spec_trim_leading_ws(l.drop_first())
    } else {
        l
    }
}

/// Trailing whitespace removed.
pub open spec fn spec_trim_trailing_ws(l: Seq<char>) -> Seq<char>
    decreases l.len(),
{
    if l.len() > 0 && spec_is_ws(l.last()) {
        spec_trim_trailing_ws(l.drop_last())
    } else {
        l
    }
}

/// Whitespace removed from both ends.
pub open spec fn spec_trim_ws(l: Seq<char>) -> Seq<char> {
    spec_trim_trailing_ws(spec_trim_leading_ws(l))
}

/// Whether `c` is ASCII whitespace.
fn is_ws(c: char) -> (r: bool)
    ensures
        r == spec_is_ws(c),
{
    c == ' ' || c == '\t' || c == '\n' || c == '\r'
}

/// Trims ASCII whitespace from both ends.
fn trim_ws(line: &str) -> (r: String)
    ensures
        r@ == spec_trim_ws(line@),
{
    let mut lo: usize = 0;
    let mut hi = line.unicode_len();
    proof {
        assert(line@.subrange(0, line@.len() as int) =~= line@);
    }
    while lo < hi && is_ws(line.get_char(lo))
        invariant
            0 <= lo <= hi <= line@.len(),
            spec_trim_leading_ws(line@) == spec_trim_leading_ws(
                line@.subrange(lo as int, hi as int),
            ),
            hi == line@.len(),
        decreases hi - lo,
    {
        proof {
            let cur = line@.subrange(lo as int, hi as int);
            assert(cur[0] == line@[lo as int]);
            assert(cur.drop_first() =~= line@.subrange(lo as int + 1, hi as int));
        }
        lo = lo + 1;
    }
    proof {
        let cur = line@.subrange(lo as int, hi as int);
        if lo < hi {
            assert(cur[0] == line@[lo as int]);
        }
        assert(spec_trim_leading_ws(cur) == cur);
    }
    while hi > lo && is_ws(line.get_char(hi - 1))
        invariant
            0 <= lo <= hi <= line@.len(),
            spec_trim_leading_ws(line@) == line@.subrange(lo as int, line@.len() as int),
            spec_trim_trailing_ws(line@.subrange(lo as int, line@.len() as int))
                == spec_trim_trailing_ws(line@.subrange(lo as int, hi as int)),
        decreases hi - lo,
    {
        proof {
            let cur = line@.subrange(lo as int, hi as int);
            assert(cur.last() == line@[hi as int - 1]);
            assert(cur.drop_last() =~= line@.subrange(lo as int, hi as int - 1));
        }
        hi = hi - 1;
    }
    proof {
        let cur = line@.subrange(lo as int, hi as int);
        if hi > lo {
            assert(cur.last() == line@[hi as int - 1]);
        }
        assert(spec_trim_trailing_ws(cur) == cur);
        assert(spec_trim_ws(line@) == cur);
    }
    let s = line.substring_char(lo, hi);
    s.to_owned()
}

/// Maps `uname -s` output to a detected os name: trimmed and
/// lower-cased, with `darwin` reported as `macos`; an empty output
/// detects nothing. Only ASCII letters are folded, which covers every
/// name `uname` prints.
pub fn map_uname(output: &str) -> (r: Option<String>)
    ensures
        match r {
            Some(v) => spec_uname_os(output@) == Some(v@),
            None => spec_uname_os(output@) is None,
        },
{
    proof {
        reveal_strlit("darwin");
        reveal_strlit("macos");
        assert("darwin"@ =~= seq!['d', 'a', 'r', 'w', 'i', 'n']);
        assert("macos"@ =~= seq!['m', 'a', 'c', 'o', 's']);
    }
    let trimmed = trim_ws(output);
    let name = ascii_lower(trimmed.as_str());
    if str_eq(name.as_str(), "darwin") {
        Some("macos".to_owned())
    } else if name.unicode_len() == 0 {
        None
    } else {
        Some(name)
    }
}

} // verus!
