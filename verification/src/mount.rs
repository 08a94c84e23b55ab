//! Mounting helpers: how much to log, the arguments of `fusermount`, when
//! to fall back to the older tool, and reading the output of `mount` and
//! `df`.
use crate::fs::names::chars_of;
use crate::text::{concat2, is_whitespace, spec_is_whitespace};
use vstd::prelude::*;

verus! {

/// The most detailed kind of log message shown.
#[derive(Debug, Clone, Copy, PartialEq, Eq, Structural)]
pub enum LogLevel {
    Error,
    Info,
    Debug,
    Trace,
}

/// The log level for the command line's verbosity: errors only when
/// quiet; else information, debug output with one `-v`, and everything
/// with more.
pub fn log_level_for(verbose: u8, quiet: bool) -> (r: LogLevel)
    ensures
        quiet ==> r == LogLevel::Error,
        !quiet && verbose == 0 ==> r == LogLevel::Info,
        !quiet && verbose == 1 ==> r == LogLevel::Debug,
        !quiet && verbose > 1 ==> r == LogLevel::Trace,
{
    if quiet {
        LogLevel::Error
    } else if verbose == 0 {
        LogLevel::Info
    } else if verbose == 1 {
        LogLevel::Debug
    } else {
        LogLevel::Trace
    }
}

/// The arguments of `fusermount` to unmount `path`: `-zu` (lazy) when
/// forced, else `-u`.
pub fn unmount_args(path: &str, force: bool) -> (r: Vec<String>)
    ensures
        r@.len() == 2,
        r@[0]@ == (if force { "-zu"@ } else { "-u"@ }),
        r@[1]@ == path@,
{
    let mut v: Vec<String> = Vec::new();
    if force {
        v.push(String::from_str("-zu"));
    } else {
        v.push(String::from_str("-u"));
    }
    v.push(String::from_str(path));
    v
}

/// The text of a failed command: `<context> failed: <stderr>`.
pub fn command_failed_message(context: &str, stderr: &str) -> (r: String)
    ensures
        r@ == context@ + " failed: "@ + stderr@,
{
    let mut s = concat2(context, " failed: ");
    s.append(stderr);
    s
}

/// Whether `needle` occurs in `hay` at position `i`.
pub open spec fn occurs_at(hay: Seq<char>, needle: Seq<char>, i: int) -> bool {
    0 <= i && i + needle.len() <= hay.len() && hay.subrange(i, i + needle.len()) == needle
}

/// Whether `needle` occurs in `hay` (`str::contains`).
pub open spec fn spec_contains(hay: Seq<char>, needle: Seq<char>) -> bool {
    exists|i: int| #[trigger] occurs_at(hay, needle, i)
}

fn occurs_here(hay: &Vec<char>, needle: &Vec<char>, i: usize) -> (r: bool)
    requires
        i <= hay@.len(),
    ensures
        r == occurs_at(hay@, needle@, i as int),
{
    let hl = hay.len();
    if needle.len() > hl - i {
        return false;
    }
    let mut k: usize = 0;
    while k < needle.len()
        invariant
            k <= needle@.len(),
            hl == hay@.len(),
            i + needle@.len() <= hl,
            forall|q: int| 0 <= q < k ==> hay@[i + q] == needle@[q],
        decreases needle.len() - k,
    {
        if hay[i + k] != needle[k] {
            assert(hay@.subrange(i as int, i + needle@.len())[k as int] != needle@[k as int]);
            return false;
        }
        k = k + 1;
    }
    assert(hay@.subrange(i as int, i + needle@.len()) =~= needle@);
    true
}

/// Whether `hay` contains `needle` (`str::contains`).
pub fn str_contains(hay: &str, needle: &str) -> (r: bool)
    ensures
        r == spec_contains(hay@, needle@),
{
    let h = chars_of(hay);
    let n = chars_of(needle);
    let mut i: usize = 0;
    while i < h.len()
        invariant
            i <= h@.len(),
            h@ == hay@,
            n@ == needle@,
            forall|q: int| 0 <= q < i ==> !occurs_at(hay@, needle@, q),
        decreases h.len() - i,
    {
        if occurs_here(&h, &n, i) {
            return true;
        }
        i = i + 1;
    }
    if occurs_here(&h, &n, i) {
        return true;
    }
    assert forall|q: int| !#[trigger] occurs_at(hay@, needle@, q) by {
        if 0 <= q && q < i {
        } else if q == i {
        }
    }
    false
}

/// The position of the first `\n` of `s`, or its length when there is
/// none.
pub open spec fn newline_index(s: Seq<char>) -> nat
    decreases s.len(),
{
    if s.len() == 0 {
        0
    } else if s[0] == '\n' {
        0
    } else {
        1 + newline_index(s.drop_first())
    }
}

/// The lines of a text (`str::lines`): split at each `\n`, a `\r` before
/// it removed, no line after a final `\n`.
pub open spec fn spec_lines(s: Seq<char>) -> Seq<Seq<char>>
    decreases s.len(),
{
    if s.len() == 0 {
        Seq::empty()
    } else {
        let j = newline_index(s);
        if j >= s.len() {
            seq![s]
        } else {
            let line = s.subrange(0, j as int);
            let line = if j > 0 && line.last() == '\r' { line.drop_last() } else { line };
            seq![line] + spec_lines(s.subrange((j + 1) as int, s.len() as int))
        }
    }
}

proof fn lemma_newline_index(s: Seq<char>, j: int)
    requires
        0 <= j <= s.len(),
        forall|q: int| 0 <= q < j ==> s[q] != '\n',
        j == s.len() || s[j] == '\n',
    ensures
        newline_index(s) == j,
    decreases s.len(),
{
    if s.len() > 0 && s[0] != '\n' {
        lemma_newline_index(s.drop_first(), j - 1);
    }
}

/// The characters `v[from..to]` as a string.
fn string_from(v: &Vec<char>, from: usize, to: usize) -> (r: String)
    requires
        from <= to <= v@.len(),
    ensures
        r@ == v@.subrange(from as int, to as int),
{
    let mut r = String::new();
    let mut i = from;
    while i < to
        invariant
            from <= i <= to <= v@.len(),
            r@ == v@.subrange(from as int, i as int),
        decreases to - i,
    {
        crate::text::push_char(&mut r, v[i]);
        i = i + 1;
        assert(r@ =~= v@.subrange(from as int, i as int));
    }
    r
}

/// The lines of a text, as `str::lines` gives them.
pub fn lines_of(text: &str) -> (r: Vec<String>)
    ensures
        r@.map_values(|l: String| l@) == spec_lines(text@),
{
    let v = chars_of(text);
    let n = v.len();
    let mut r: Vec<String> = Vec::new();
    let mut i: usize = 0;
    assert(v@.subrange(0, n as int) =~= v@);
    assert(r@.map_values(|l: String| l@) =~= Seq::<Seq<char>>::empty());
    while i < n
        invariant
            i <= n,
            n == v@.len(),
            v@ == text@,
            r@.map_values(|l: String| l@) + spec_lines(v@.subrange(i as int, n as int)) == spec_lines(text@),
        decreases n - i,
    {
        let ghost rest = v@.subrange(i as int, n as int);
        let mut j = i;
        while j < n && v[j] != '\n'
            invariant
                i <= j <= n,
                n == v@.len(),
                forall|q: int| i <= q < j ==> v@[q] != '\n',
            decreases n - j,
        {
            j = j + 1;
        }
        proof {
            lemma_newline_index(rest, j - i);
        }
        let ghost before = r@.map_values(|l: String| l@);
        if j == n {
            let line = string_from(&v, i, n);
            r.push(line);
            assert(r@.map_values(|l: String| l@) =~= before.push(rest));
            assert(v@.subrange(n as int, n as int) =~= Seq::<char>::empty());
            assert(spec_lines(rest) =~= seq![rest]);
            i = n;
        } else {
            let end = if j > i && v[j - 1] == '\r' { j - 1 } else { j };
            let line = string_from(&v, i, end);
            r.push(line);
            proof {
                let l0 = rest.subrange(0, (j - i) as int);
                let l1 = if j - i > 0 && l0.last() == '\r' { l0.drop_last() } else { l0 };
                assert(l1 =~= v@.subrange(i as int, end as int));
                assert(rest.subrange(j - i + 1, rest.len() as int) =~= v@.subrange(j + 1, n as int));
                assert(r@.map_values(|l: String| l@) =~= before.push(l1));
            }
            i = j + 1;
        }
    }
    assert(v@.subrange(n as int, n as int) =~= Seq::<char>::empty());
    assert(r@.map_values(|l: String| l@) =~= spec_lines(text@));
    r
}

/// Whether one of the lines of the output of `mount` contains `path`.
pub open spec fn listed_as_mounted(output: Seq<char>, path: Seq<char>) -> bool {
    exists|i: int| 0 <= i < spec_lines(output).len() && spec_contains(#[trigger] spec_lines(output)[i], path)
}

/// Whether the output of `mount` lists `path`: some line contains it.
pub fn mount_output_lists(output: &str, path: &str) -> (r: bool)
    ensures
        r == listed_as_mounted(output@, path@),
{
    let lines = lines_of(output);
    let mut i: usize = 0;
    while i < lines.len()
        invariant
            i <= lines@.len(),
            lines@.map_values(|l: String| l@) == spec_lines(output@),
            forall|q: int| 0 <= q < i ==> !spec_contains(#[trigger] spec_lines(output@)[q], path@),
        decreases lines.len() - i,
    {
        assert(spec_lines(output@)[i as int] == lines@[i as int]@);
        if str_contains(lines[i].as_str(), path) {
            return true;
        }
        i = i + 1;
    }
    false
}

/// The number of leading characters of `s` that are not white space.
pub open spec fn word_len(s: Seq<char>) -> nat
    decreases s.len(),
{
    if s.len() == 0 || spec_is_whitespace(s[0]) {
        0
    } else {
        1 + word_len(s.drop_first())
    }
}

/// The words of a text (`str::split_whitespace`).
pub open spec fn spec_words(s: Seq<char>) -> Seq<Seq<char>>
    decreases s.len(),
{
    if s.len() == 0 {
        Seq::empty()
    } else if spec_is_whitespace(s[0]) {
        spec_words(s.drop_first())
    } else {
        let w = word_len(s);
        if w == 0 || w > s.len() {
            Seq::empty()
        } else {
            seq![s.subrange(0, w as int)] + spec_words(s.subrange(w as int, s.len() as int))
        }
    }
}

proof fn lemma_word_len(s: Seq<char>, j: int)
    requires
        0 <= j <= s.len(),
        forall|q: int| 0 <= q < j ==> !spec_is_whitespace(s[q]),
        j == s.len() || spec_is_whitespace(s[j]),
    ensures
        word_len(s) == j,
    decreases s.len(),
{
    if s.len() > 0 && !spec_is_whitespace(s[0]) {
        lemma_word_len(s.drop_first(), j - 1);
    }
}

/// The words of a text, as `str::split_whitespace` gives them.
pub fn words_of(text: &str) -> (r: Vec<String>)
    ensures
        r@.map_values(|w: String| w@) == spec_words(text@),
{
    let v = chars_of(text);
    let n = v.len();
    let mut r: Vec<String> = Vec::new();
    let mut i: usize = 0;
    assert(v@.subrange(0, n as int) =~= v@);
    assert(r@.map_values(|w: String| w@) =~= Seq::<Seq<char>>::empty());
    while i < n
        invariant
            i <= n,
            n == v@.len(),
            v@ == text@,
            r@.map_values(|w: String| w@) + spec_words(v@.subrange(i as int, n as int)) == spec_words(text@),
        decreases n - i,
    {
        let ghost rest = v@.subrange(i as int, n as int);
        if is_whitespace(v[i]) {
            assert(rest.drop_first() =~= v@.subrange(i + 1, n as int));
            i = i + 1;
        } else {
            let mut j = i;
            while j < n && !is_whitespace(v[j])
                invariant
                    i <= j <= n,
                    n == v@.len(),
                    forall|q: int| i <= q < j ==> !spec_is_whitespace(v@[q]),
                decreases n - j,
            {
                j = j + 1;
            }
            proof {
                lemma_word_len(rest, j - i);
                assert(rest.subrange(0, j - i) =~= v@.subrange(i as int, j as int));
                assert(rest.subrange(j - i, rest.len() as int) =~= v@.subrange(j as int, n as int));
            }
            let ghost before = r@.map_values(|w: String| w@);
            let word = string_from(&v, i, j);
            r.push(word);
            assert(r@.map_values(|w: String| w@) =~= before.push(v@.subrange(i as int, j as int)));
            i = j;
        }
    }
    assert(v@.subrange(n as int, n as int) =~= Seq::<char>::empty());
    r
}

/// What `df` reports of a mounted filesystem.
#[derive(Debug)]
pub struct MountInfo {
    pub filesystem: String,
    pub size: String,
    pub used: String,
    pub available: String,
}

/// The first line after the header of the output of `df` that has at
/// least six columns, if any, from line `k` on.
pub open spec fn df_row_from(lines: Seq<Seq<char>>, k: int) -> Option<Seq<Seq<char>>>
    decreases lines.len() - k,
{
    if k < 1 || k >= lines.len() {
        None
    } else if spec_words(lines[k]).len() >= 6 {
        Some(spec_words(lines[k]))
    } else {
        df_row_from(lines, k + 1)
    }
}

/// The mount information from the output of `df -h`: the first four
/// columns of the first row with at least six, when `df` succeeded;
/// else `fuse.torrent-fuse` and `unknown` sizes.
pub fn mount_info_from_df(success: bool, stdout: &str) -> (r: MountInfo)
    ensures
        match (if success { df_row_from(spec_lines(stdout@), 1) } else { None }) {
            Some(cols) => r.filesystem@ == cols[0] && r.size@ == cols[1] && r.used@ == cols[2] && r.available@ == cols[3],
            None => r.filesystem@ == "fuse.torrent-fuse"@ && r.size@ == "unknown"@ && r.used@ == "unknown"@
                && r.available@ == "unknown"@,
        },
{
    if success {
        let lines = lines_of(stdout);
        let ghost ls = spec_lines(stdout@);
        let mut k: usize = 1;
        while k < lines.len()
            invariant
                1 <= k,
                success,
                lines@.map_values(|l: String| l@) == ls,
                ls == spec_lines(stdout@),
                df_row_from(ls, 1) == df_row_from(ls, k as int),
            decreases lines.len() - k,
        {
            assert(ls[k as int] == lines@[k as int]@);
            let parts = words_of(lines[k].as_str());
            assert(parts@.map_values(|w: String| w@).len() == parts@.len());
            assert(ls.len() == lines@.len());
            if parts.len() >= 6 {
                let ghost cols = spec_words(ls[k as int]);
                assert(df_row_from(ls, k as int) == Some(cols));
                assert(parts@.map_values(|w: String| w@)[0] == parts@[0]@);
                assert(parts@.map_values(|w: String| w@)[1] == parts@[1]@);
                assert(parts@.map_values(|w: String| w@)[2] == parts@[2]@);
                assert(parts@.map_values(|w: String| w@)[3] == parts@[3]@);
                assert(parts@[0]@ == cols[0] && parts@[1]@ == cols[1] && parts@[2]@ == cols[2] && parts@[3]@ == cols[3]);
                return MountInfo {
                    filesystem: String::from_str(parts[0].as_str()),
                    size: String::from_str(parts[1].as_str()),
                    used: String::from_str(parts[2].as_str()),
                    available: String::from_str(parts[3].as_str()),
                };
            }
            assert(df_row_from(ls, k as int) == df_row_from(ls, k + 1));
            k = k + 1;
        }
    }
    MountInfo {
        filesystem: String::from_str("fuse.torrent-fuse"),
        size: String::from_str("unknown"),
        used: String::from_str("unknown"),
        available: String::from_str("unknown"),
    }
}

/// Whether an unmount that failed with this text should be retried with
/// the older `fusermount`: when the tool was not found.
pub fn unmount_falls_back(error_text: &str) -> (r: bool)
    ensures
        r == (spec_contains(error_text@, "command not found"@) || spec_contains(error_text@, "No such file"@)),
{
    str_contains(error_text, "command not found") || str_contains(error_text, "No such file")
}

} // verus!
