//! The pieces of option text: prefixes, separators, white space and
//! decimal integers as `str::parse` reads them.
use crate::options::{comma_fields, comma_from};
use vstd::prelude::*;
use vstd::string::{StrSliceExecFns, StringExecFns};

verus! {

/// Whether `s` begins with `p`.
pub open spec fn has_prefix(s: Seq<char>, p: Seq<char>) -> bool {
    p.len() <= s.len() && s.subrange(0, p.len() as int) == p
}

/// What follows the prefix `p` in `s`.
pub open spec fn after(s: Seq<char>, p: Seq<char>) -> Seq<char> {
    s.subrange(p.len() as int, s.len() as int)
}

/// The index of the first `c` in `s` at or after `k`, or the length.
pub open spec fn char_from(s: Seq<char>, c: char, k: int) -> int
    decreases s.len() - k,
{
    if k < 0 || k >= s.len() {
        s.len() as int
    } else if s[k] == c {
        k
    } else {
        char_from(s, c, k + 1)
    }
}

/// Whether `c` separates the two numbers of a screen size.
pub open spec fn is_size_separator(c: char) -> bool {
    c == 'x' || c == 'X' || c == ','
}

/// The index of the first screen size separator in `s` at or after `k`,
/// or the length.
pub open spec fn size_separator_from(s: Seq<char>, k: int) -> int
    decreases s.len() - k,
{
    if k < 0 || k >= s.len() {
        s.len() as int
    } else if is_size_separator(s[k]) {
        k
    } else {
        size_separator_from(s, k + 1)
    }
}

/// Whether `c` is white space (Unicode's `White_Space`, as
/// `char::is_whitespace` says).
pub open spec fn is_white_space(c: char) -> bool {
    let u = c as int;
    (0x9 <= u && u <= 0xd) || u == 0x20 || u == 0x85 || u == 0xa0 || u == 0x1680 || (0x2000 <= u
        && u <= 0x200a) || u == 0x2028 || u == 0x2029 || u == 0x202f || u == 0x205f || u == 0x3000
}

/// The index of the first character at or after `i` that is not white
/// space, or the length.
pub open spec fn lead_end(s: Seq<char>, i: int) -> int
    decreases s.len() - i,
{
    if i < 0 || i >= s.len() {
        s.len() as int
    } else if is_white_space(s[i]) {
        lead_end(s, i + 1)
    } else {
        i
    }
}

/// The index after the last character before `j` and not below `lo`
/// that is not white space, or `lo`.
pub open spec fn trail_start(s: Seq<char>, j: int, lo: int) -> int
    decreases j - lo,
{
    if j <= lo || j > s.len() {
        lo
    } else if is_white_space(s[j - 1]) {
        trail_start(s, j - 1, lo)
    } else {
        j
    }
}

/// `s` without white space at either end (`str::trim`).
pub open spec fn trimmed(s: Seq<char>) -> Seq<char> {
    let a = lead_end(s, 0);
    s.subrange(a, trail_start(s, s.len() as int, a))
}

/// Whether `c` is a decimal digit.
pub open spec fn is_digit(c: char) -> bool {
    48 <= c as int && c as int <= 57
}

/// Whether every character of `s` is a decimal digit.
pub open spec fn all_digits(s: Seq<char>) -> bool {
    forall|i: int| 0 <= i < s.len() ==> is_digit(#[trigger] s[i])
}

/// The value of the decimal digits `s`.
pub open spec fn digits_value(s: Seq<char>) -> int
    decreases s.len(),
{
    if s.len() == 0 {
        0
    } else {
        digits_value(s.drop_last()) * 10 + (s.last() as int - 48)
    }
}

/// An integer as `str::parse` reads it for a type whose values run from
/// `min` to `max`: an optional `+` (or `-` for a signed type) and at least
/// one decimal digit, nothing else, and a value in range.
pub open spec fn parse_integer(s: Seq<char>, signed: bool, min: int, max: int) -> Option<int> {
    let neg = signed && s.len() > 0 && s[0] == '-';
    let body = if s.len() > 0 && (s[0] == '+' || neg) {
        s.drop_first()
    } else {
        s
    };
    if body.len() == 0 || !all_digits(body) {
        None
    } else {
        let v = if neg {
            -digits_value(body)
        } else {
            digits_value(body)
        };
        if min <= v && v <= max {
            Some(v)
        } else {
            None
        }
    }
}

proof fn lemma_digits_nonneg(s: Seq<char>)
    requires
        all_digits(s),
    ensures
        digits_value(s) >= 0,
    decreases s.len(),
{
    if s.len() > 0 {
        assert(is_digit(s[s.len() - 1]));
        assert(all_digits(s.drop_last())) by {
            assert forall|i: int| 0 <= i < s.drop_last().len() implies is_digit(
                #[trigger] s.drop_last()[i],
            ) by {
                assert(s.drop_last()[i] == s[i]);
            }
        }
        lemma_digits_nonneg(s.drop_last());
    }
}

/// Whether `s` begins with `p`.
pub fn starts_with(s: &str, p: &str) -> (r: bool)
    ensures
        r == has_prefix(s@, p@),
{
    let n = s.unicode_len();
    let m = p.unicode_len();
    if m > n {
        return false;
    }
    let mut k: usize = 0;
    while k < m
        invariant
            m <= n,
            n == s@.len(),
            m == p@.len(),
            k <= m,
            forall|j: int| 0 <= j < k ==> s@[j] == p@[j],
        decreases m - k,
    {
        if s.get_char(k) != p.get_char(k) {
            assert(s@.subrange(0, m as int)[k as int] != p@[k as int]);
            return false;
        }
        k = k + 1;
    }
    assert(s@.subrange(0, m as int) =~= p@);
    true
}

/// What follows `p` in `s`, if `s` begins with it.
pub fn strip_prefix<'a>(s: &'a str, p: &str) -> (r: Option<&'a str>)
    ensures
        has_prefix(s@, p@) ==> (r matches Some(v) && v@ == after(s@, p@)),
        !has_prefix(s@, p@) ==> r is None,
{
    if starts_with(s, p) {
        Some(s.substring_char(p.unicode_len(), s.unicode_len()))
    } else {
        None
    }
}

/// The index of the first `c` in `s` at or after `k`.
pub fn find_char(s: &str, c: char, k: usize) -> (r: usize)
    requires
        k <= s@.len(),
    ensures
        r == char_from(s@, c, k as int),
        k <= r <= s@.len(),
{
    let n = s.unicode_len();
    let mut i = k;
    while i < n && s.get_char(i) != c
        invariant
            n == s@.len(),
            k <= i <= n,
            char_from(s@, c, i as int) == char_from(s@, c, k as int),
        decreases n - i,
    {
        i = i + 1;
    }
    i
}

/// The index of the first screen size separator in `s`.
pub fn find_size_separator(s: &str) -> (r: usize)
    ensures
        r == size_separator_from(s@, 0),
        r <= s@.len(),
{
    let n = s.unicode_len();
    let mut i: usize = 0;
    while i < n && !(s.get_char(i) == 'x' || s.get_char(i) == 'X' || s.get_char(i) == ',')
        invariant
            n == s@.len(),
            i <= n,
            size_separator_from(s@, i as int) == size_separator_from(s@, 0),
        decreases n - i,
    {
        i = i + 1;
    }
    i
}

/// Whether `c` is white space.
fn white_space(c: char) -> (r: bool)
    ensures
        r == is_white_space(c),
{
    let u = c as u32;
    (0x9 <= u && u <= 0xd) || u == 0x20 || u == 0x85 || u == 0xa0 || u == 0x1680 || (0x2000 <= u
        && u <= 0x200a) || u == 0x2028 || u == 0x2029 || u == 0x202f || u == 0x205f || u == 0x3000
}

/// `s` without white space at either end.
pub fn trim(s: &str) -> (r: &str)
    ensures
        r@ == trimmed(s@),
{
    let n = s.unicode_len();
    let mut a: usize = 0;
    while a < n && white_space(s.get_char(a))
        invariant
            n == s@.len(),
            a <= n,
            lead_end(s@, a as int) == lead_end(s@, 0),
        decreases n - a,
    {
        a = a + 1;
    }
    let mut b: usize = n;
    while b > a && white_space(s.get_char(b - 1))
        invariant
            n == s@.len(),
            a <= b <= n,
            a == lead_end(s@, 0),
            trail_start(s@, b as int, a as int) == trail_start(s@, n as int, a as int),
        decreases b - a,
    {
        b = b - 1;
    }
    s.substring_char(a, b)
}

/// Reads an integer of `s` as [parse_integer] says.
pub fn parse_integer_str(s: &str, signed: bool, min: i64, max: i64) -> (r: Option<i64>)
    requires
        -0x1_0000_0000 <= min <= 0 <= max <= 0x1_0000_0000,
    ensures
        match parse_integer(s@, signed, min as int, max as int) {
            None => r is None,
            Some(v) => r == Some(v as i64),
        },
{
    let n = s.unicode_len();
    if n == 0 {
        return None;
    }
    let c0 = s.get_char(0);
    let neg = signed && c0 == '-';
    let start: usize = if c0 == '+' || neg {
        1
    } else {
        0
    };
    let ghost body = if s@.len() > 0 && (s@[0] == '+' || neg) {
        s@.drop_first()
    } else {
        s@
    };
    assert(body =~= s@.subrange(start as int, n as int));
    if start >= n {
        return None;
    }
    let bound: i64 = if neg {
        -min
    } else {
        max
    };
    let mut acc: i64 = 0;
    let mut over = false;
    let mut i = start;
    while i < n
        invariant
            n == s@.len(),
            start <= i <= n,
            body == s@.subrange(start as int, n as int),
            body == (if s@.len() > 0 && (s@[0] == '+' || neg) {
                s@.drop_first()
            } else {
                s@
            }),
            neg == (signed && s@.len() > 0 && s@[0] == '-'),
            0 <= bound <= 0x1_0000_0000,
            all_digits(s@.subrange(start as int, i as int)),
            !over ==> acc == digits_value(s@.subrange(start as int, i as int)) && 0 <= acc <= bound,
            over ==> digits_value(s@.subrange(start as int, i as int)) > bound,
        decreases n - i,
    {
        let c = s.get_char(i);
        let u = c as u32;
        if u < 48 || u > 57 {
            assert(s@.subrange(start as int, n as int)[i - start] == c);
            assert(!is_digit(c));
            assert(body[i - start] == c);
            assert(!all_digits(body));
            assert(parse_integer(s@, signed, min as int, max as int) is None);
            return None;
        }
        let ghost prev = s@.subrange(start as int, i as int);
        let ghost next = s@.subrange(start as int, i + 1);
        assert(next.drop_last() =~= prev);
        assert(next.last() == c);
        assert(all_digits(next)) by {
            assert forall|j: int| 0 <= j < next.len() implies is_digit(#[trigger] next[j]) by {
                if j < prev.len() {
                    assert(next[j] == prev[j]);
                }
            }
        }
        proof {
            lemma_digits_nonneg(prev);
        }
        if !over {
            acc = acc * 10 + (u - 48) as i64;
            if acc > bound {
                over = true;
            }
        }
        i = i + 1;
    }
    if over {
        return None;
    }
    if neg {
        Some(-acc)
    } else {
        Some(acc)
    }
}

/// The comma-separated fields of `s`, as strings.
pub fn split_commas(s: &str) -> (r: Vec<String>)
    ensures
        r@.map_values(|x: String| x@) == comma_fields(s@, 0),
{
    let n = s.unicode_len();
    let mut out: Vec<String> = Vec::new();
    let mut start: usize = 0;
    loop
        invariant
            n == s@.len(),
            start <= n,
            out@.map_values(|x: String| x@) + comma_fields(s@, start as int) == comma_fields(s@, 0),
        decreases n - start,
    {
        let i = find_char(s, ',', start);
        assert(i == comma_from(s@, start as int)) by {
            lemma_char_from_is_comma_from(s@, start as int);
        }
        let field = s.substring_char(start, i);
        let ghost before = out@.map_values(|x: String| x@);
        out.push(String::from_str(field));
        assert(out@.map_values(|x: String| x@) =~= before.push(field@));
        if i >= n {
            assert(comma_fields(s@, start as int) =~= seq![field@]);
            assert(out@.map_values(|x: String| x@) =~= before + comma_fields(s@, start as int));
            return out;
        }
        assert(comma_fields(s@, start as int) =~= seq![field@] + comma_fields(s@, i + 1));
        assert(before + comma_fields(s@, start as int) =~= before.push(field@) + comma_fields(
            s@,
            i + 1,
        ));
        start = i + 1;
    }
}

proof fn lemma_char_from_is_comma_from(s: Seq<char>, k: int)
    ensures
        char_from(s, ',', k) == comma_from(s, k),
    decreases s.len() - k,
{
    if 0 <= k < s.len() && s[k] != ',' {
        lemma_char_from_is_comma_from(s, k + 1);
    }
}

} // verus!
