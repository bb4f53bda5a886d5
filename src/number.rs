//! Recognition of decimal float literals, as the standard library's float
//! parsing accepts them: an optional sign, then `inf`, `infinity`, `nan` or a
//! number with an optional exponent, letters in either case.
use vstd::prelude::*;
use crate::text::first_index;

verus! {

pub open spec fn is_digit(c: char) -> bool {
    '0' <= c && c <= '9'
}

pub open spec fn all_digits(s: Seq<char>) -> bool {
    forall|i: int| 0 <= i < s.len() ==> is_digit(#[trigger] s[i])
}

/// The ASCII lower-case form of a character.
pub open spec fn ascii_lower(c: char) -> char {
    if 'A' <= c && c <= 'Z' {
        ((c as u8) + 32) as char
    } else {
        c
    }
}

/// `s` equals the lower-case word `w`, ignoring ASCII case.
pub open spec fn eq_ignore_case(s: Seq<char>, w: Seq<char>) -> bool {
    s.len() == w.len() && forall|i: int| 0 <= i < s.len() ==> ascii_lower(#[trigger] s[i]) == w[i]
}

/// The text without one leading `+` or `-`.
pub open spec fn unsigned(s: Seq<char>) -> Seq<char> {
    if s.len() > 0 && (s[0] == '+' || s[0] == '-') {
        s.drop_first()
    } else {
        s
    }
}

/// Digits with at most one decimal point, and at least one digit.
pub open spec fn is_mantissa(m: Seq<char>) -> bool {
    match first_index(m, '.') {
        None => m.len() > 0 && all_digits(m),
        Some(d) => m.len() >= 2 && all_digits(m.subrange(0, d as int)) && all_digits(
            m.subrange((d + 1) as int, m.len() as int),
        ),
    }
}

/// An optional sign followed by at least one digit.
pub open spec fn is_exponent(x: Seq<char>) -> bool {
    unsigned(x).len() > 0 && all_digits(unsigned(x))
}

/// The index of the first `e` or `E`.
pub open spec fn first_exp(s: Seq<char>) -> Option<nat>
    decreases s.len(),
{
    if s.len() == 0 {
        None
    } else if s[0] == 'e' || s[0] == 'E' {
        Some(0)
    } else {
        match first_exp(s.drop_first()) {
            Some(k) => Some(k + 1),
            None => None,
        }
    }
}

pub open spec fn is_number(b: Seq<char>) -> bool {
    match first_exp(b) {
        None => is_mantissa(b),
        Some(k) => is_mantissa(b.subrange(0, k as int)) && is_exponent(b.subrange((k + 1) as int, b.len() as int)),
    }
}

/// Whether a text is a float literal.
pub open spec fn is_float_literal(s: Seq<char>) -> bool {
    let b = unsigned(s);
    ||| eq_ignore_case(b, seq!['i', 'n', 'f'])
    ||| eq_ignore_case(b, seq!['i', 'n', 'f', 'i', 'n', 'i', 't', 'y'])
    ||| eq_ignore_case(b, seq!['n', 'a', 'n'])
    ||| is_number(b)
}

fn lower_char(c: char) -> (r: char)
    ensures
        r == ascii_lower(c),
{
    if 'A' <= c && c <= 'Z' {
        ((c as u8) + 32) as char
    } else {
        c
    }
}

fn digits_in(s: &str, from: usize, to: usize) -> (r: bool)
    requires
        from <= to <= s@.len(),
    ensures
        r == all_digits(s@.subrange(from as int, to as int)),
{
    let mut i = from;
    while i < to
        invariant
            from <= i <= to <= s@.len(),
            forall|j: int| from <= j < i ==> is_digit(s@[j]),
        decreases to - i,
    {
        let c = s.get_char(i);
        if !('0' <= c && c <= '9') {
            assert(!is_digit(s@.subrange(from as int, to as int)[i - from]));
            return false;
        }
        i = i + 1;
    }
    assert forall|j: int| 0 <= j < to - from implies is_digit(#[trigger] s@.subrange(from as int, to as int)[j]) by {
        assert(s@.subrange(from as int, to as int)[j] == s@[from + j]);
    }
    true
}

fn word_ignore_case(s: &str, w: &[char]) -> (r: bool)
    ensures
        r == eq_ignore_case(s@, w@),
{
    let n = s.unicode_len();
    if n != w.len() {
        return false;
    }
    let mut i: usize = 0;
    while i < n
        invariant
            n == s@.len(),
            n == w@.len(),
            i <= n,
            forall|j: int| 0 <= j < i ==> ascii_lower(#[trigger] s@[j]) == w@[j],
        decreases n - i,
    {
        if lower_char(s.get_char(i)) != w[i] {
            return false;
        }
        i = i + 1;
    }
    true
}

proof fn lemma_first_exp(s: Seq<char>, i: int)
    requires
        0 <= i <= s.len(),
        forall|j: int| 0 <= j < i ==> s[j] != 'e' && s[j] != 'E',
    ensures
        i < s.len() && (s[i] == 'e' || s[i] == 'E') ==> first_exp(s) == Some(i as nat),
        i == s.len() ==> first_exp(s) is None,
    decreases i,
{
    if i > 0 {
        lemma_first_exp(s.drop_first(), i - 1);
    }
}

fn find_exp(s: &str) -> (r: Option<usize>)
    ensures
        match r {
            Some(k) => first_exp(s@) == Some(k as nat) && k < s@.len(),
            None => first_exp(s@) is None,
        },
{
    let n = s.unicode_len();
    let mut i: usize = 0;
    while i < n
        invariant
            n == s@.len(),
            i <= n,
            forall|j: int| 0 <= j < i ==> s@[j] != 'e' && s@[j] != 'E',
        decreases n - i,
    {
        let c = s.get_char(i);
        if c == 'e' || c == 'E' {
            proof {
                lemma_first_exp(s@, i as int);
            }
            return Some(i);
        }
        i = i + 1;
    }
    proof {
        lemma_first_exp(s@, n as int);
    }
    None
}

fn strip_sign(s: &str) -> (r: &str)
    ensures
        r@ == unsigned(s@),
{
    let n = s.unicode_len();
    if n > 0 && (s.get_char(0) == '+' || s.get_char(0) == '-') {
        let r = s.substring_char(1, n);
        assert(r@ =~= s@.drop_first());
        r
    } else {
        s
    }
}

fn mantissa(m: &str) -> (r: bool)
    ensures
        r == is_mantissa(m@),
{
    let n = m.unicode_len();
    assert(m@.subrange(0, n as int) =~= m@);
    match crate::text::find_char(m, '.') {
        None => n > 0 && digits_in(m, 0, n),
        Some(d) => {
            proof {
                assert(m@.subrange(0, n as int) =~= m@);
            }
            n >= 2 && digits_in(m, 0, d) && digits_in(m, d + 1, n)
        },
    }
}

fn number(b: &str) -> (r: bool)
    ensures
        r == is_number(b@),
{
    let n = b.unicode_len();
    match find_exp(b) {
        None => mantissa(b),
        Some(k) => {
            let e = b.substring_char(k + 1, n);
            let x = strip_sign(e);
            let xn = x.unicode_len();
            mantissa(b.substring_char(0, k)) && xn > 0 && digits_in(x, 0, xn) && {
                proof {
                    assert(x@.subrange(0, xn as int) =~= x@);
                }
                true
            }
        },
    }
}

/// Whether the text is a float literal.
pub fn float_literal(s: &str) -> (r: bool)
    ensures
        r == is_float_literal(s@),
{
    let b = strip_sign(s);
    let inf = ['i', 'n', 'f'];
    let infinity = ['i', 'n', 'f', 'i', 'n', 'i', 't', 'y'];
    let nan = ['n', 'a', 'n'];
    assert(inf@ =~= seq!['i', 'n', 'f']);
    assert(infinity@ =~= seq!['i', 'n', 'f', 'i', 'n', 'i', 't', 'y']);
    assert(nan@ =~= seq!['n', 'a', 'n']);
    word_ignore_case(b, inf.as_slice()) || word_ignore_case(b, infinity.as_slice())
        || word_ignore_case(b, nan.as_slice()) || number(b)
}

} // verus!
