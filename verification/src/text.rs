//! Character classes, decimal numbers and string building, with their
//! meaning stated over `Seq<char>`.
use vstd::prelude::*;

verus! {

/// `char::is_control`: the Unicode general category Cc.
pub open spec fn spec_is_control(c: char) -> bool {
    (c as u32) <= 0x1f || (0x7f <= (c as u32) && (c as u32) <= 0x9f)
}

/// `char::is_whitespace`: the Unicode `White_Space` property.
pub open spec fn spec_is_whitespace(c: char) -> bool {
    let u = c as u32;
    ||| (0x09 <= u && u <= 0x0d)
    ||| u == 0x20
    ||| u == 0x85
    ||| u == 0xa0
    ||| u == 0x1680
    ||| (0x2000 <= u && u <= 0x200a)
    ||| u == 0x2028
    ||| u == 0x2029
    ||| u == 0x202f
    ||| u == 0x205f
    ||| u == 0x3000
}

/// Whether `c` is a control character.
pub fn is_control(c: char) -> (r: bool)
    ensures
        r == spec_is_control(c),
{
    let u = c as u32;
    u <= 0x1f || (0x7f <= u && u <= 0x9f)
}

/// Whether `c` is white space.
pub fn is_whitespace(c: char) -> (r: bool)
    ensures
        r == spec_is_whitespace(c),
{
    let u = c as u32;
    (0x09 <= u && u <= 0x0d) || u == 0x20 || u == 0x85 || u == 0xa0 || u == 0x1680 || (0x2000
        <= u && u <= 0x200a) || u == 0x2028 || u == 0x2029 || u == 0x202f || u == 0x205f || u
        == 0x3000
}

/// Whether `c` is an ASCII decimal digit.
pub open spec fn spec_is_digit(c: char) -> bool {
    '0' <= c && c <= '9'
}

/// The value of a decimal digit.
pub open spec fn digit_value(c: char) -> nat {
    ((c as u32) - ('0' as u32)) as nat
}

/// Whether every character of `s` is an ASCII digit.
pub open spec fn all_digits(s: Seq<char>) -> bool {
    forall|i: int| 0 <= i < s.len() ==> spec_is_digit(#[trigger] s[i])
}

/// The number that a string of decimal digits writes.
pub open spec fn digits_value(s: Seq<char>) -> nat
    decreases s.len(),
{
    if s.len() == 0 {
        0
    } else {
        digits_value(s.drop_last()) * 10 + digit_value(s.last())
    }
}

/// The digits that `str::parse` reads for an unsigned integer: everything
/// after an optional leading `+`.
pub open spec fn unsigned_digits(s: Seq<char>) -> Seq<char> {
    if s.len() > 0 && s[0] == '+' {
        s.drop_first()
    } else {
        s
    }
}

/// What `str::parse::<T>` gives for an unsigned integer type whose largest
/// value is `max`: the number when the text is an optional `+` and at least
/// one digit and the number fits, else nothing.
pub open spec fn spec_parse_unsigned(s: Seq<char>, max: nat) -> Option<nat> {
    let d = unsigned_digits(s);
    if d.len() > 0 && all_digits(d) && digits_value(d) <= max {
        Some(digits_value(d))
    } else {
        None
    }
}

proof fn lemma_digits_value_push(s: Seq<char>, c: char)
    ensures
        digits_value(s.push(c)) == digits_value(s) * 10 + digit_value(c),
{
    assert(s.push(c).drop_last() =~= s);
}

/// Parses an unsigned decimal number the way `str::parse::<u64>` does.
pub fn parse_u64(s: &str) -> (r: Option<u64>)
    ensures
        r matches Some(v) ==> spec_parse_unsigned(s@, u64::MAX as nat) == Some(v as nat),
        r is None ==> spec_parse_unsigned(s@, u64::MAX as nat) is None,
{
    let n = s.unicode_len();
    let mut start: usize = 0;
    if n > 0 && s.get_char(0) == '+' {
        start = 1;
    }
    let ghost d = unsigned_digits(s@);
    assert(d =~= s@.subrange(start as int, n as int));
    if start >= n {
        return None;
    }
    let mut value: u64 = 0;
    let mut i: usize = start;
    while i < n
        invariant
            start <= i <= n,
            n == s@.len(),
            d =~= s@.subrange(start as int, n as int),
            d == unsigned_digits(s@),
            all_digits(s@.subrange(start as int, i as int)),
            value as nat == digits_value(s@.subrange(start as int, i as int)),
        decreases n - i,
    {
        let c = s.get_char(i);
        assert(s@.subrange(start as int, i + 1) =~= s@.subrange(start as int, i as int).push(c));
        proof {
            lemma_digits_value_push(s@.subrange(start as int, i as int), c);
        }
        if !('0' <= c && c <= '9') {
            assert(d[i - start] == s@[i as int]);
            assert(!spec_is_digit(d[i - start]));
            assert(!all_digits(d));
            return None;
        }
        let dv = (c as u32 - '0' as u32) as u64;
        if value > (u64::MAX - dv) / 10 {
            proof {
                assert(digits_value(s@.subrange(start as int, i + 1)) > u64::MAX) by (nonlinear_arith)
                    requires
                        value > (u64::MAX - dv) / 10,
                        digits_value(s@.subrange(start as int, i + 1)) == value * 10 + dv,
                        dv <= 9,
                ;
                if all_digits(d) {
                    lemma_prefix_bound(d, (i + 1 - start) as nat);
                    assert(d.subrange(0, (i + 1 - start) as int) =~= s@.subrange(
                        start as int,
                        i + 1,
                    ));
                }
            }
            return None;
        }
        assert(value * 10 + dv <= u64::MAX) by (nonlinear_arith)
            requires
                value <= (u64::MAX - dv) / 10,
                dv <= 9,
        ;
        value = value * 10 + dv;
        i = i + 1;
    }
    assert(s@.subrange(start as int, n as int) =~= d);
    Some(value)
}

/// A longer digit string never has a smaller value than its prefix.
proof fn lemma_prefix_bound(d: Seq<char>, k: nat)
    requires
        k <= d.len(),
        all_digits(d),
    ensures
        digits_value(d.subrange(0, k as int)) <= digits_value(d),
    decreases d.len() - k,
{
    if k < d.len() {
        lemma_prefix_bound(d, k + 1);
        let p = d.subrange(0, (k + 1) as int);
        assert(p.drop_last() =~= d.subrange(0, k as int));
        assert(digits_value(p) == digits_value(d.subrange(0, k as int)) * 10 + digit_value(p.last()));
    } else {
        assert(d.subrange(0, k as int) =~= d);
    }
}

/// Parses an unsigned decimal number the way `str::parse::<usize>` does.
pub fn parse_usize(s: &str) -> (r: Option<usize>)
    ensures
        r matches Some(v) ==> spec_parse_unsigned(s@, usize::MAX as nat) == Some(v as nat),
        r is None ==> spec_parse_unsigned(s@, usize::MAX as nat) is None,
{
    match parse_u64(s) {
        Some(v) => {
            if v <= usize::MAX as u64 {
                Some(v as usize)
            } else {
                None
            }
        },
        None => {
            proof {
                let d = unsigned_digits(s@);
                if d.len() > 0 && all_digits(d) && digits_value(d) <= usize::MAX as nat {
                    assert(digits_value(d) <= u64::MAX as nat);
                }
            }
            None
        },
    }
}

/// The character of a digit value.
pub open spec fn digit_char(v: nat) -> char {
    (('0' as u32) + v) as char
}

/// The decimal text of a number, without leading zeros.
pub open spec fn decimal(n: nat) -> Seq<char>
    decreases n,
{
    if n < 10 {
        seq![digit_char(n)]
    } else {
        decimal(n / 10).push(digit_char(n % 10))
    }
}

/// Appends a character (`String::push`).
#[verifier::external_body]
pub(crate) fn push_char(s: &mut String, c: char)
    ensures
        final(s)@ == old(s)@.push(c),
{
    s.push(c);
}

/// Writes `n` in decimal, as `format!("{}", n)` does.
pub fn u64_to_decimal(n: u64) -> (r: String)
    ensures
        r@ == decimal(n as nat),
    decreases n,
{
    if n < 10 {
        let mut s = String::new();
        let c = char_of_digit(n as u32);
        push_char(&mut s, c);
        assert(s@ =~= seq![digit_char(n as nat)]);
        s
    } else {
        let mut s = u64_to_decimal(n / 10);
        let c = char_of_digit((n % 10) as u32);
        push_char(&mut s, c);
        s
    }
}

fn char_of_digit(v: u32) -> (c: char)
    requires
        v < 10,
    ensures
        c == digit_char(v as nat),
{
    if v == 0 { '0' }
    else if v == 1 { '1' }
    else if v == 2 { '2' }
    else if v == 3 { '3' }
    else if v == 4 { '4' }
    else if v == 5 { '5' }
    else if v == 6 { '6' }
    else if v == 7 { '7' }
    else if v == 8 { '8' }
    else { '9' }
}

/// Whether two strings hold the same characters.
pub fn str_equal(a: &str, b: &str) -> (r: bool)
    ensures
        r == (a@ == b@),
{
    let n = a.unicode_len();
    if n != b.unicode_len() {
        return false;
    }
    let mut i: usize = 0;
    while i < n
        invariant
            i <= n,
            n == a@.len(),
            n == b@.len(),
            forall|j: int| 0 <= j < i ==> a@[j] == b@[j],
        decreases n - i,
    {
        if a.get_char(i) != b.get_char(i) {
            return false;
        }
        i = i + 1;
    }
    assert(a@ =~= b@);
    true
}

/// A new string holding `a` followed by `b`.
pub fn concat2(a: &str, b: &str) -> (r: String)
    ensures
        r@ == a@ + b@,
{
    let mut s = String::from_str(a);
    s.append(b);
    s
}

/// A new string holding `a`, `b` and `c` in that order.
pub fn concat3(a: &str, b: &str, c: &str) -> (r: String)
    ensures
        r@ == a@ + b@ + c@,
{
    let mut s = String::from_str(a);
    s.append(b);
    s.append(c);
    s
}

} // verus!
