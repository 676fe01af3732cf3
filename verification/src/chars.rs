//! Character classification and the numeric-literal grammar.
//!
//! The parser classifies characters three ways: whitespace (between
//! structural tokens), decimal digits, and the characters that may occur in a
//! numeric literal.  A numeric literal is kept as text in the tree; this
//! module defines exactly which literals are well-formed: an optional leading
//! sign, a mantissa of digits with at most one dot and at least one digit,
//! and an optional exponent marked by `e` or `E` with an optional sign and at
//! least one digit.

use vstd::prelude::*;

verus! {

/// The Unicode white-space code points.
pub open spec fn is_json_ws(c: char) -> bool {
    let u = c as u32;
    u == 0x09 || u == 0x0A || u == 0x0B || u == 0x0C || u == 0x0D || u == 0x20
        || u == 0x85 || u == 0xA0 || u == 0x1680
        || (0x2000 <= u && u <= 0x200A)
        || u == 0x2028 || u == 0x2029 || u == 0x202F || u == 0x205F || u == 0x3000
}

/// Whitespace test, the executable twin of `is_json_ws`.
pub fn is_ws_char(c: char) -> (b: bool)
    ensures
        b == is_json_ws(c),
{
    let u = c as u32;
    u == 0x09 || u == 0x0A || u == 0x0B || u == 0x0C || u == 0x0D || u == 0x20
        || u == 0x85 || u == 0xA0 || u == 0x1680
        || (0x2000 <= u && u <= 0x200A)
        || u == 0x2028 || u == 0x2029 || u == 0x202F || u == 0x205F || u == 0x3000
}

/// A decimal digit.
pub open spec fn is_digit_char(c: char) -> bool {
    48 <= c as u32 && c as u32 <= 57
}

/// A character that the number production accumulates: a digit, a dot, a
/// sign, or an exponent marker.
pub open spec fn is_number_char(c: char) -> bool {
    is_digit_char(c) || c == '.' || c == '-' || c == '+' || c == 'e' || c == 'E'
}

/// Number-character test, the executable twin of `is_number_char`.
pub fn is_num_char(c: char) -> (b: bool)
    ensures
        b == is_number_char(c),
{
    let u = c as u32;
    (48 <= u && u <= 57) || c == '.' || c == '-' || c == '+' || c == 'e' || c == 'E'
}

/// One of the eight recognized escape codes that may follow a backslash
/// inside a quoted string.
pub open spec fn is_escape_code(c: char) -> bool {
    c == '"' || c == '\\' || c == '/' || c == 'b' || c == 'f' || c == 'n' || c == 'r'
        || c == 't'
}

/// The character an escape code denotes.
pub open spec fn unescape(c: char) -> char {
    if c == 'b' {
        '\u{8}'
    } else if c == 'f' {
        '\u{c}'
    } else if c == 'n' {
        '\n'
    } else if c == 'r' {
        '\r'
    } else if c == 't' {
        '\t'
    } else {
        c
    }
}

/// Every character of `s` in `[a, b)` is a decimal digit.
pub open spec fn all_digits(s: Seq<char>, a: int, b: int) -> bool {
    forall|k: int| a <= k < b ==> is_digit_char(s[k])
}

/// The first position at or after `i` holding an exponent marker, or
/// `s.len()` if there is none.
pub open spec fn exp_idx(s: Seq<char>, i: int) -> int
    decreases s.len() - i,
        when 0 <= i <= s.len()
{
    if i < s.len() && !(s[i] == 'e' || s[i] == 'E') {
        exp_idx(s, i + 1)
    } else {
        i
    }
}

pub proof fn lemma_exp_idx(s: Seq<char>, i: int)
    requires
        0 <= i <= s.len(),
    ensures
        i <= exp_idx(s, i) <= s.len(),
        forall|k: int| i <= k < exp_idx(s, i) ==> !(s[k] == 'e' || s[k] == 'E'),
        exp_idx(s, i) < s.len() ==> (s[exp_idx(s, i)] == 'e' || s[exp_idx(s, i)] == 'E'),
    decreases s.len() - i,
{
    if i < s.len() && !(s[i] == 'e' || s[i] == 'E') {
        lemma_exp_idx(s, i + 1);
    }
}

/// A position with the properties of `exp_idx` is `exp_idx`.
pub proof fn lemma_exp_idx_is(s: Seq<char>, i: int, j: int)
    requires
        0 <= i <= j <= s.len(),
        forall|k: int| i <= k < j ==> !(s[k] == 'e' || s[k] == 'E'),
        j < s.len() ==> (s[j] == 'e' || s[j] == 'E'),
    ensures
        exp_idx(s, i) == j,
    decreases j - i,
{
    if i < j {
        lemma_exp_idx_is(s, i + 1, j);
    }
}

/// The first position in `[i, end)` holding a dot, or `end` if there is
/// none.
pub open spec fn dot_idx(s: Seq<char>, i: int, end: int) -> int
    decreases end - i,
        when 0 <= i <= end <= s.len()
{
    if i < end && s[i] != '.' {
        dot_idx(s, i + 1, end)
    } else {
        i
    }
}

pub proof fn lemma_dot_idx(s: Seq<char>, i: int, end: int)
    requires
        0 <= i <= end <= s.len(),
    ensures
        i <= dot_idx(s, i, end) <= end,
        forall|k: int| i <= k < dot_idx(s, i, end) ==> s[k] != '.',
        dot_idx(s, i, end) < end ==> s[dot_idx(s, i, end)] == '.',
    decreases end - i,
{
    if i < end && s[i] != '.' {
        lemma_dot_idx(s, i + 1, end);
    }
}

/// A position with the properties of `dot_idx` is `dot_idx`.
pub proof fn lemma_dot_idx_is(s: Seq<char>, i: int, end: int, j: int)
    requires
        0 <= i <= j <= end <= s.len(),
        forall|k: int| i <= k < j ==> s[k] != '.',
        j < end ==> s[j] == '.',
    ensures
        dot_idx(s, i, end) == j,
    decreases j - i,
{
    if i < j {
        lemma_dot_idx_is(s, i + 1, end, j);
    }
}

/// Whether a numeric literal is well-formed: optional sign, then a mantissa
/// of digits holding at most one dot and at least one digit, then an
/// optional exponent (`e` or `E`, optional sign, at least one digit).
pub open spec fn valid_number(s: Seq<char>) -> bool {
    let n = s.len() as int;
    let b = if n > 0 && (s[0] == '+' || s[0] == '-') {
        1int
    } else {
        0int
    };
    let ke = exp_idx(s, b);
    let kd = dot_idx(s, b, ke);
    all_digits(s, b, kd) && (kd == ke || all_digits(s, kd + 1, ke)) && (kd - b > 0 || ke - (kd
        + 1) > 0) && (ke == n || ({
        let be = if ke + 1 < n && (s[ke + 1] == '+' || s[ke + 1] == '-') {
            ke + 2
        } else {
            ke + 1
        };
        be < n && all_digits(s, be, n)
    }))
}

/// Well-formedness test for an accumulated numeric literal, the executable
/// twin of `valid_number`.
pub fn is_valid_number_chars(v: &Vec<char>) -> (b: bool)
    ensures
        b == valid_number(v@),
{
    let n = v.len();
    let b0: usize = if n > 0 && (v[0] == '+' || v[0] == '-') {
        1
    } else {
        0
    };
    let mut ke: usize = b0;
    while ke < n && !(v[ke] == 'e' || v[ke] == 'E')
        invariant
            b0 <= ke <= n,
            n == v@.len(),
            forall|k: int| b0 <= k < ke ==> !(v@[k] == 'e' || v@[k] == 'E'),
        decreases n - ke,
    {
        ke = ke + 1;
    }
    proof {
        lemma_exp_idx_is(v@, b0 as int, ke as int);
    }
    let mut kd: usize = b0;
    while kd < ke && v[kd] != '.'
        invariant
            b0 <= kd <= ke,
            ke <= n,
            n == v@.len(),
            forall|k: int| b0 <= k < kd ==> v@[k] != '.',
        decreases ke - kd,
    {
        kd = kd + 1;
    }
    proof {
        lemma_dot_idx_is(v@, b0 as int, ke as int, kd as int);
    }
    let mut ok: bool = kd > b0 || ke > kd + 1;
    let mut p: usize = b0;
    while p < kd
        invariant
            b0 <= p <= kd,
            kd <= n,
            n == v@.len(),
            ok == ((kd > b0 || ke > kd + 1) && all_digits(v@, b0 as int, p as int)),
            ke <= n,
        decreases kd - p,
    {
        if !(48 <= v[p] as u32 && v[p] as u32 <= 57) {
            ok = false;
        }
        p = p + 1;
    }
    if kd < ke {
        let mut q: usize = kd + 1;
        while q < ke
            invariant
                kd + 1 <= q <= ke,
                ke <= n,
                n == v@.len(),
                ok == ((kd > b0 || ke > kd + 1) && all_digits(v@, b0 as int, kd as int)
                    && all_digits(v@, kd + 1, q as int)),
            decreases ke - q,
        {
            if !(48 <= v[q] as u32 && v[q] as u32 <= 57) {
                ok = false;
            }
            q = q + 1;
        }
    }
    if ke == n {
        return ok;
    }
    let be: usize = if ke + 1 < n && (v[ke + 1] == '+' || v[ke + 1] == '-') {
        ke + 2
    } else {
        ke + 1
    };
    if !(be < n) {
        return false;
    }
    let mut r: usize = be;
    while r < n
        invariant
            be <= r <= n,
            n == v@.len(),
            be < n,
            ok == ((kd > b0 || ke > kd + 1) && all_digits(v@, b0 as int, kd as int) && (kd == ke
                || all_digits(v@, kd + 1, ke as int)) && all_digits(v@, be as int, r as int)),
        decreases n - r,
    {
        if !(48 <= v[r] as u32 && v[r] as u32 <= 57) {
            ok = false;
        }
        r = r + 1;
    }
    ok
}

} // verus!
