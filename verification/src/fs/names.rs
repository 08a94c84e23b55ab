//! Safe names: torrent and file names turned into names that cannot leave
//! their directory or hide.
use crate::text::{push_char, spec_is_control, spec_is_whitespace};
use vstd::prelude::*;

verus! {

/// Every `..` replaced by `_`, scanning left to right (`str::replace`).
pub open spec fn replace_dotdot(s: Seq<char>) -> Seq<char>
    decreases s.len(),
{
    if s.len() < 2 {
        s
    } else if s[0] == '.' && s[1] == '.' {
        seq!['_'] + replace_dotdot(s.subrange(2, s.len() as int))
    } else {
        seq![s[0]] + replace_dotdot(s.drop_first())
    }
}

/// `s` without leading characters that satisfy `f`.
pub open spec fn trim_start_by(s: Seq<char>, f: spec_fn(char) -> bool) -> Seq<char>
    decreases s.len(),
{
    if s.len() > 0 && f(s[0]) {
        trim_start_by(s.drop_first(), f)
    } else {
        s
    }
}

/// `s` without trailing characters that satisfy `f`.
pub open spec fn trim_end_by(s: Seq<char>, f: spec_fn(char) -> bool) -> Seq<char>
    decreases s.len(),
{
    if s.len() > 0 && f(s.last()) {
        trim_end_by(s.drop_last(), f)
    } else {
        s
    }
}

pub open spec fn is_ws(c: char) -> bool {
    spec_is_whitespace(c)
}

pub open spec fn is_dot(c: char) -> bool {
    c == '.'
}

/// A character that a sanitized name never holds: a path separator, NUL,
/// another control character, or one of `: * ? " < > |`.
pub open spec fn forbidden_char(c: char) -> bool {
    c == '\0' || c == '/' || c == '\\' || spec_is_control(c) || c == ':' || c == '*' || c == '?' || c == '"'
        || c == '<' || c == '>' || c == '|'
}

/// A character that may stand in a file name: forbidden characters become
/// `_`.
pub open spec fn safe_char(c: char) -> char {
    if forbidden_char(c) {
        '_'
    } else {
        c
    }
}

/// The trimmed core of a name: `..` replaced, white space trimmed at both
/// ends, then dots removed at the start and then at the end.
pub open spec fn name_core(name: Seq<char>) -> Seq<char> {
    let t = trim_end_by(trim_start_by(replace_dotdot(name), |c: char| is_ws(c)), |c: char| is_ws(c));
    trim_end_by(trim_start_by(t, |c: char| is_dot(c)), |c: char| is_dot(c))
}

/// The sanitized form of a name.
pub open spec fn sanitized(name: Seq<char>) -> Seq<char> {
    let core = name_core(name);
    if core.len() == 0 {
        "unnamed"@
    } else {
        core.map_values(|c: char| safe_char(c))
    }
}

/// A text without `..` is left as it is by replacing `..`.
pub proof fn lemma_replace_dotdot_keeps(s: Seq<char>)
    requires
        no_dotdot(s),
    ensures
        replace_dotdot(s) == s,
    decreases s.len(),
{
    if s.len() >= 2 {
        let rest = s.drop_first();
        assert forall|i: int| !#[trigger] dotdot_at(rest, i) by {
            if dotdot_at(rest, i) {
                assert(dotdot_at(s, i + 1));
            }
        }
        assert(!dotdot_at(s, 0));
        lemma_replace_dotdot_keeps(rest);
        assert(!(s[0] == '.' && s[1] == '.'));
        assert(seq![s[0]] + rest =~= s);
    }
}

/// The characters of a string in a vector.
pub fn chars_of(s: &str) -> (r: Vec<char>)
    ensures
        r@ == s@,
{
    let n = s.unicode_len();
    let mut r: Vec<char> = Vec::new();
    let mut i: usize = 0;
    while i < n
        invariant
            i <= n,
            n == s@.len(),
            r@ == s@.subrange(0, i as int),
        decreases n - i,
    {
        r.push(s.get_char(i));
        i = i + 1;
        assert(r@ =~= s@.subrange(0, i as int));
    }
    assert(s@.subrange(0, n as int) =~= s@);
    r
}

/// A string of the characters of `v[from..to]`, each mapped by `safe_char`
/// when `map` is set.
fn string_of(v: &Vec<char>, from: usize, to: usize, map: bool) -> (r: String)
    requires
        from <= to <= v@.len(),
    ensures
        map ==> r@ == v@.subrange(from as int, to as int).map_values(|c: char| safe_char(c)),
        !map ==> r@ == v@.subrange(from as int, to as int),
{
    let mut r = String::new();
    let mut i = from;
    while i < to
        invariant
            from <= i <= to,
            to <= v@.len(),
            map ==> r@ == v@.subrange(from as int, i as int).map_values(|c: char| safe_char(c)),
            !map ==> r@ == v@.subrange(from as int, i as int),
        decreases to - i,
    {
        let c = v[i];
        if map {
            let d = if c == '\0' || c == '/' || c == '\\' || crate::text::is_control(c) || c == ':'
                || c == '*' || c == '?' || c == '"' || c == '<' || c == '>' || c == '|' {
                '_'
            } else {
                c
            };
            push_char(&mut r, d);
        } else {
            push_char(&mut r, c);
        }
        i = i + 1;
        assert(v@.subrange(from as int, i as int) =~= v@.subrange(from as int, i - 1).push(c));
        assert(v@.subrange(from as int, i as int).map_values(|c: char| safe_char(c)) =~= v@.subrange(
            from as int,
            i - 1,
        ).map_values(|c: char| safe_char(c)).push(safe_char(c)));
    }
    r
}

/// Whether `c` is trimmed: a dot when `dots` is set, else white space.
fn trimmed_char(c: char, dots: bool) -> (r: bool)
    ensures
        dots ==> r == is_dot(c),
        !dots ==> r == is_ws(c),
{
    if dots {
        c == '.'
    } else {
        crate::text::is_whitespace(c)
    }
}

proof fn lemma_trim_start_skip(s: Seq<char>, f: spec_fn(char) -> bool, k: int)
    requires
        0 <= k <= s.len(),
        forall|j: int| 0 <= j < k ==> f(s[j]),
    ensures
        trim_start_by(s, f) == trim_start_by(s.subrange(k, s.len() as int), f),
    decreases k,
{
    if k > 0 {
        assert(s.drop_first().subrange(k - 1, s.drop_first().len() as int) =~= s.subrange(k, s.len() as int));
        lemma_trim_start_skip(s.drop_first(), f, k - 1);
    } else {
        assert(s.subrange(0, s.len() as int) =~= s);
    }
}

proof fn lemma_trim_end_skip(s: Seq<char>, f: spec_fn(char) -> bool, k: int)
    requires
        0 <= k <= s.len(),
        forall|j: int| k <= j < s.len() ==> f(s[j]),
    ensures
        trim_end_by(s, f) == trim_end_by(s.subrange(0, k), f),
    decreases s.len() - k,
{
    if k < s.len() {
        assert(s.drop_last().subrange(0, k) =~= s.subrange(0, k));
        lemma_trim_end_skip(s.drop_last(), f, k);
    } else {
        assert(s.subrange(0, k) =~= s);
    }
}

/// Finds the bounds `[a, b)` within `[from, to)` left after trimming
/// characters that satisfy `f` from both ends.
fn trim_bounds(v: &Vec<char>, from: usize, to: usize, dots: bool) -> (r: (usize, usize))
    requires
        from <= to <= v@.len(),
    ensures
        from <= r.0 <= r.1 <= to,
        dots ==> v@.subrange(r.0 as int, r.1 as int) == trim_end_by(
            trim_start_by(v@.subrange(from as int, to as int), |c: char| is_dot(c)),
            |c: char| is_dot(c),
        ),
        !dots ==> v@.subrange(r.0 as int, r.1 as int) == trim_end_by(
            trim_start_by(v@.subrange(from as int, to as int), |c: char| is_ws(c)),
            |c: char| is_ws(c),
        ),
{
    let ghost f: spec_fn(char) -> bool = if dots { |c: char| is_dot(c) } else { |c: char| is_ws(c) };
    let ghost s = v@.subrange(from as int, to as int);
    let mut a = from;
    while a < to && trimmed_char(v[a], dots)
        invariant
            from <= a <= to,
            to <= v@.len(),
            s == v@.subrange(from as int, to as int),
            forall|j: int| 0 <= j < a - from ==> f(s[j]),
            f == (if dots { |c: char| is_dot(c) } else { |c: char| is_ws(c) }),
        decreases to - a,
    {
        a = a + 1;
    }
    proof {
        lemma_trim_start_skip(s, f, a - from);
        assert(s.subrange(a - from, s.len() as int) =~= v@.subrange(a as int, to as int));
    }
    let ghost t = v@.subrange(a as int, to as int);
    assert(a == to || !f(t[0]));
    assert(trim_start_by(t, f) == t);
    let mut b = to;
    while b > a && trimmed_char(v[b - 1], dots)
        invariant
            a <= b <= to,
            to <= v@.len(),
            t == v@.subrange(a as int, to as int),
            forall|j: int| b - a <= j < t.len() ==> f(t[j]),
            f == (if dots { |c: char| is_dot(c) } else { |c: char| is_ws(c) }),
        decreases b - a,
    {
        b = b - 1;
    }
    proof {
        lemma_trim_end_skip(t, f, b - a);
        assert(t.subrange(0, b - a) =~= v@.subrange(a as int, b as int));
        let u = v@.subrange(a as int, b as int);
        assert(u.len() == 0 || !f(u.last()));
    }
    (a, b)
}

/// Sanitizes a name for use in the filesystem: every `..` becomes `_`, white
/// space is trimmed, leading and trailing dots are removed, an empty result
/// becomes `unnamed`, and path separators, NUL, control characters and
/// `: * ? " < > |` become `_`. The result is always a clean name.
pub fn sanitize_filename(name: &str) -> (r: String)
    ensures
        r@ == sanitized(name@),
        clean_name(r@),
{
    proof {
        law_sanitized_name_is_clean(name@);
    }
    let src = chars_of(name);
    // Replace path traversal sequences first
    let mut v: Vec<char> = Vec::new();
    let mut i: usize = 0;
    assert(src@.subrange(0, src@.len() as int) =~= src@);
    while i < src.len()
        invariant
            i <= src@.len(),
            v@ + replace_dotdot(src@.subrange(i as int, src@.len() as int)) == replace_dotdot(src@),
        decreases src.len() - i,
    {
        let ghost rest = src@.subrange(i as int, src@.len() as int);
        if i + 1 < src.len() && src[i] == '.' && src[i + 1] == '.' {
            assert(rest.subrange(2, rest.len() as int) =~= src@.subrange(i + 2, src@.len() as int));
            assert(v@.push('_') + replace_dotdot(src@.subrange(i + 2, src@.len() as int)) =~= v@
                + replace_dotdot(rest));
            v.push('_');
            i = i + 2;
        } else {
            assert(rest.drop_first() =~= src@.subrange(i + 1, src@.len() as int));
            assert(v@.push(src@[i as int]) + replace_dotdot(src@.subrange(i + 1, src@.len() as int))
                =~= v@ + replace_dotdot(rest));
            v.push(src[i]);
            i = i + 1;
        }
    }
    assert(src@.subrange(src@.len() as int, src@.len() as int) =~= Seq::<char>::empty());
    assert(v@ =~= replace_dotdot(name@));
    // Remove leading/trailing whitespace, then dots
    let (a, b) = trim_bounds(&v, 0, v.len(), false);
    assert(v@.subrange(0, v@.len() as int) =~= v@);
    let (c, d) = trim_bounds(&v, a, b, true);
    assert(v@.subrange(c as int, d as int) == name_core(name@));
    if c == d {
        proof {
            reveal_strlit("unnamed");
        }
        return String::from_str("unnamed");
    }
    string_of(&v, c, d, true)
}

/// Whether `..` starts at position `i` of `s`.
pub open spec fn dotdot_at(s: Seq<char>, i: int) -> bool {
    0 <= i < s.len() - 1 && s[i] == '.' && s[i + 1] == '.'
}

/// Whether a name is safe as one path component: not empty, not `.` or
/// `..`, without `..` anywhere, without path separators, and not starting
/// with NUL or another control character.
pub open spec fn safe_component(s: Seq<char>) -> bool {
    &&& s.len() > 0
    &&& !(exists|i: int| #[trigger] dotdot_at(s, i))
    &&& s != seq!['.']
    &&& !(exists|i: int| 0 <= i < s.len() && (s[i] == '/' || s[i] == '\\'))
    &&& !spec_is_control(s[0])
}

/// Validates that a path component doesn't contain path traversal
/// sequences. Returns true if the component is safe to use.
pub fn is_safe_path_component(component: &str) -> (r: bool)
    ensures
        r == safe_component(component@),
{
    let v = chars_of(component);
    let n = v.len();
    if n == 0 {
        return false;
    }
    if n == 1 && v[0] == '.' {
        assert(component@ =~= seq!['.']);
        return false;
    }
    let mut i: usize = 0;
    while i < n
        invariant
            i <= n,
            n == v@.len(),
            v@ == component@,
            forall|j: int| 0 <= j < i ==> !#[trigger] dotdot_at(v@, j),
            forall|j: int| 0 <= j < i ==> !(v@[j] == '/' || v@[j] == '\\'),
        decreases n - i,
    {
        if v[i] == '/' || v[i] == '\\' {
            return false;
        }
        if i + 1 < n && v[i] == '.' && v[i + 1] == '.' {
            assert(dotdot_at(component@, i as int));
            return false;
        }
        i = i + 1;
    }
    if n == 1 {
        assert(component@ != seq!['.']) by {
            if component@ == seq!['.'] {
                assert(v@[0] == '.');
            }
        }
    }
    !crate::text::is_control(v[0])
}

/// Whether `s` holds `..` nowhere.
pub open spec fn no_dotdot(s: Seq<char>) -> bool {
    forall|i: int| !#[trigger] dotdot_at(s, i)
}

/// The first character left by replacing `..` is `_` or the input's
/// first character.
proof fn lemma_replace_first(s: Seq<char>)
    ensures
        replace_dotdot(s).len() > 0 <==> s.len() > 0,
        replace_dotdot(s).len() > 0 && replace_dotdot(s)[0] == '.' ==> s[0] == '.' && (s.len() < 2 || s[1] != '.'),
    decreases s.len(),
{
    if s.len() >= 2 && !(s[0] == '.' && s[1] == '.') {
        lemma_replace_first(s.drop_first());
    } else if s.len() >= 2 {
        lemma_replace_first(s.subrange(2, s.len() as int));
    }
}

/// Replacing every `..` leaves none.
proof fn lemma_replace_no_dotdot(s: Seq<char>)
    ensures
        no_dotdot(replace_dotdot(s)),
    decreases s.len(),
{
    let r = replace_dotdot(s);
    if s.len() < 2 {
        assert forall|i: int| !#[trigger] dotdot_at(r, i) by {}
    } else if s[0] == '.' && s[1] == '.' {
        let rest = s.subrange(2, s.len() as int);
        lemma_replace_no_dotdot(rest);
        let t = replace_dotdot(rest);
        assert(r == seq!['_'] + t);
        assert forall|i: int| !#[trigger] dotdot_at(r, i) by {
            if i >= 1 && dotdot_at(r, i) {
                assert(dotdot_at(t, i - 1));
            }
        }
    } else {
        let rest = s.drop_first();
        lemma_replace_no_dotdot(rest);
        lemma_replace_first(rest);
        let t = replace_dotdot(rest);
        assert(r == seq![s[0]] + t);
        assert forall|i: int| !#[trigger] dotdot_at(r, i) by {
            if i >= 1 && dotdot_at(r, i) {
                assert(dotdot_at(t, i - 1));
            }
            if i == 0 && dotdot_at(r, i) {
                assert(t[0] == '.');
            }
        }
    }
}

/// Trimming the start leaves a suffix whose first character is kept.
proof fn lemma_trim_start_shape(s: Seq<char>, f: spec_fn(char) -> bool)
    ensures
        exists|k: int| 0 <= k <= s.len() && trim_start_by(s, f) == s.subrange(k, s.len() as int),
        trim_start_by(s, f).len() > 0 ==> !f(trim_start_by(s, f)[0]),
    decreases s.len(),
{
    if s.len() > 0 && f(s[0]) {
        lemma_trim_start_shape(s.drop_first(), f);
        let k = choose|k: int| 0 <= k <= s.drop_first().len() && trim_start_by(s.drop_first(), f) == s.drop_first().subrange(k, s.drop_first().len() as int);
        assert(s.drop_first().subrange(k, s.drop_first().len() as int) =~= s.subrange(k + 1, s.len() as int));
    } else {
        assert(s.subrange(0, s.len() as int) =~= s);
    }
}

/// Trimming the end leaves a prefix whose last character is kept.
proof fn lemma_trim_end_shape(s: Seq<char>, f: spec_fn(char) -> bool)
    ensures
        exists|k: int| 0 <= k <= s.len() && trim_end_by(s, f) == s.subrange(0, k),
        trim_end_by(s, f).len() > 0 ==> !f(trim_end_by(s, f).last()),
    decreases s.len(),
{
    if s.len() > 0 && f(s.last()) {
        lemma_trim_end_shape(s.drop_last(), f);
        let k = choose|k: int| 0 <= k <= s.drop_last().len() && trim_end_by(s.drop_last(), f) == s.drop_last().subrange(0, k);
        assert(s.drop_last().subrange(0, k) =~= s.subrange(0, k));
    } else {
        assert(s.subrange(0, s.len() as int) =~= s);
    }
}

/// A part of a text without `..` has none either.
proof fn lemma_subrange_no_dotdot(s: Seq<char>, a: int, b: int)
    requires
        0 <= a <= b <= s.len(),
        no_dotdot(s),
    ensures
        no_dotdot(s.subrange(a, b)),
{
    assert forall|i: int| !#[trigger] dotdot_at(s.subrange(a, b), i) by {
        if dotdot_at(s.subrange(a, b), i) {
            assert(dotdot_at(s, a + i));
        }
    }
}

/// A name fit for the filesystem: safe as one path component, neither
/// starting nor ending with a dot, and holding no forbidden character.
pub open spec fn clean_name(s: Seq<char>) -> bool {
    &&& safe_component(s)
    &&& s[0] != '.'
    &&& s.last() != '.'
    &&& forall|i: int| 0 <= i < s.len() ==> !forbidden_char(#[trigger] s[i])
}

/// Whatever the name, its sanitized form is clean: not empty, without
/// `..`, path separators, NUL, control characters or `: * ? " < > |`, and
/// with no dot at either end (`unnamed` when nothing is left).
pub proof fn law_sanitized_name_is_clean(name: Seq<char>)
    ensures
        clean_name(sanitized(name)),
{
    let r0 = replace_dotdot(name);
    lemma_replace_no_dotdot(name);
    let t1 = trim_start_by(r0, |c: char| is_ws(c));
    lemma_trim_start_shape(r0, |c: char| is_ws(c));
    let k1 = choose|k: int| 0 <= k <= r0.len() && t1 == r0.subrange(k, r0.len() as int);
    lemma_subrange_no_dotdot(r0, k1, r0.len() as int);
    let t2 = trim_end_by(t1, |c: char| is_ws(c));
    lemma_trim_end_shape(t1, |c: char| is_ws(c));
    let k2 = choose|k: int| 0 <= k <= t1.len() && t2 == t1.subrange(0, k);
    lemma_subrange_no_dotdot(t1, 0, k2);
    let t3 = trim_start_by(t2, |c: char| is_dot(c));
    lemma_trim_start_shape(t2, |c: char| is_dot(c));
    let k3 = choose|k: int| 0 <= k <= t2.len() && t3 == t2.subrange(k, t2.len() as int);
    lemma_subrange_no_dotdot(t2, k3, t2.len() as int);
    let core = trim_end_by(t3, |c: char| is_dot(c));
    lemma_trim_end_shape(t3, |c: char| is_dot(c));
    let k4 = choose|k: int| 0 <= k <= t3.len() && core == t3.subrange(0, k);
    lemma_subrange_no_dotdot(t3, 0, k4);
    assert(core == name_core(name));
    if core.len() == 0 {
        reveal_strlit("unnamed");
        let u = "unnamed"@;
        assert(u == sanitized(name));
        assert forall|i: int| !#[trigger] dotdot_at(u, i) by {}
        assert(u != seq!['.']) by {
            assert(u[0] != seq!['.'][0]);
        }
        assert(!(exists|i: int| 0 <= i < u.len() && (u[i] == '/' || u[i] == '\\')));
        assert(u.last() == 'd');
        assert forall|i: int| 0 <= i < u.len() implies !forbidden_char(#[trigger] u[i]) by {
            assert(u[i] == 'u' || u[i] == 'n' || u[i] == 'a' || u[i] == 'm' || u[i] == 'e' || u[i] == 'd');
        }
    } else {
        let m = core.map_values(|c: char| safe_char(c));
        assert(m == sanitized(name));
        assert(core[0] == t3[0]);
        assert(!is_dot(t3[0]));
        assert forall|i: int| !#[trigger] dotdot_at(m, i) by {
            if dotdot_at(m, i) {
                assert(dotdot_at(core, i));
            }
        }
        assert(m != seq!['.']) by {
            if m == seq!['.'] {
                assert(m[0] == '.');
            }
        }
        assert(!(exists|i: int| 0 <= i < m.len() && (m[i] == '/' || m[i] == '\\')));
        assert(!spec_is_control(m[0]));
        assert(m[0] == safe_char(core[0]));
        assert(core.last() == t3.subrange(0, k4).last());
        assert(!is_dot(core.last()));
        assert(m.last() == safe_char(core.last()));
        assert forall|i: int| 0 <= i < m.len() implies !forbidden_char(#[trigger] m[i]) by {
            assert(m[i] == safe_char(core[i]));
        }
    }
}

} // verus!
