//! Recognising the decimal floating-point literals that `f64`'s `FromStr` accepts.
use vstd::prelude::*;

use crate::kinds::is_digit;

verus! {

/// Every character of `s[lo..hi]` is a decimal digit.
pub open spec fn digits_in(s: Seq<char>, lo: int, hi: int) -> bool {
    forall|i: int| lo <= i < hi ==> is_digit(s[i])
}

/// The first position in `lo..hi` holding `a` or `b`, or `hi`.
pub open spec fn first_of(s: Seq<char>, lo: int, hi: int, a: char, b: char) -> int
    decreases hi - lo,
{
    if lo >= hi {
        hi
    } else if s[lo] == a || s[lo] == b {
        lo
    } else {
        first_of(s, lo + 1, hi, a, b)
    }
}

/// `c` is the lowercase letter `t` in either case.
pub open spec fn letter_ci(c: char, t: char) -> bool {
    ||| c == t
    ||| (t == 'i' && c == 'I')
    ||| (t == 'n' && c == 'N')
    ||| (t == 'f' && c == 'F')
    ||| (t == 't' && c == 'T')
    ||| (t == 'y' && c == 'Y')
    ||| (t == 'a' && c == 'A')
}

/// `s` spells the lowercase word `t`, ignoring case.
pub open spec fn word_ci(s: Seq<char>, t: Seq<char>) -> bool {
    s.len() == t.len() && forall|i: int| 0 <= i < s.len() ==> letter_ci(s[i], t[i])
}

/// An exponent `s[a..n]`: an optional sign, then at least one digit.
pub open spec fn exponent_ok(s: Seq<char>, a: int, n: int) -> bool {
    let a2 = if a < n && (s[a] == '+' || s[a] == '-') { a + 1 } else { a };
    a2 < n && digits_in(s, a2, n)
}

/// A decimal number: digits with at most one `.` and at least one digit, then an optional
/// exponent after `e` or `E`.
pub open spec fn number_ok(s: Seq<char>) -> bool {
    let n = s.len() as int;
    let e = first_of(s, 0, n, 'e', 'E');
    let d = first_of(s, 0, e, '.', '.');
    let mantissa = if d == e {
        e > 0 && digits_in(s, 0, e)
    } else {
        digits_in(s, 0, d) && digits_in(s, d + 1, e) && (d > 0 || e > d + 1)
    };
    mantissa && (e == n || exponent_ok(s, e + 1, n))
}

/// A text that `f64`'s `FromStr` accepts: an optional sign, then `inf`, `infinity` or
/// `nan` in any case, or a decimal number.
pub open spec fn is_float_text(s: Seq<char>) -> bool {
    let b = if s.len() > 0 && (s[0] == '+' || s[0] == '-') { s.drop_first() } else { s };
    word_ci(b, "inf"@) || word_ci(b, "infinity"@) || word_ci(b, "nan"@) || number_ok(b)
}

proof fn lemma_first_of_range(s: Seq<char>, lo: int, hi: int, a: char, b: char)
    requires
        lo <= hi,
    ensures
        lo <= first_of(s, lo, hi, a, b) <= hi,
        forall|i: int| lo <= i < first_of(s, lo, hi, a, b) ==> s[i] != a && s[i] != b,
        first_of(s, lo, hi, a, b) < hi ==> (s[first_of(s, lo, hi, a, b)] == a || s[first_of(s, lo, hi, a, b)] == b),
    decreases hi - lo,
{
    if lo < hi && !(s[lo] == a || s[lo] == b) {
        lemma_first_of_range(s, lo + 1, hi, a, b);
    }
}

fn find_either(v: &Vec<char>, lo: usize, hi: usize, a: char, b: char) -> (r: usize)
    requires
        lo <= hi <= v@.len(),
    ensures
        r == first_of(v@, lo as int, hi as int, a, b),
        lo <= r <= hi,
{
    proof {
        lemma_first_of_range(v@, lo as int, hi as int, a, b);
    }
    let mut i = lo;
    while i < hi && v[i] != a && v[i] != b
        invariant
            lo <= i <= hi <= v@.len(),
            first_of(v@, lo as int, hi as int, a, b) == first_of(v@, i as int, hi as int, a, b),
        decreases hi - i,
    {
        i = i + 1;
    }
    i
}

fn all_digits_between(v: &Vec<char>, lo: usize, hi: usize) -> (r: bool)
    requires
        lo <= hi <= v@.len(),
    ensures
        r == digits_in(v@, lo as int, hi as int),
{
    let mut i = lo;
    while i < hi
        invariant
            lo <= i <= hi <= v@.len(),
            digits_in(v@, lo as int, i as int),
        decreases hi - i,
    {
        if !('0' <= v[i] && v[i] <= '9') {
            return false;
        }
        i = i + 1;
    }
    true
}

fn matches_word(v: &Vec<char>, t: &Vec<char>) -> (r: bool)
    ensures
        r == word_ci(v@, t@),
{
    if v.len() != t.len() {
        return false;
    }
    let mut i: usize = 0;
    while i < v.len()
        invariant
            v@.len() == t@.len(),
            0 <= i <= v@.len(),
            forall|j: int| 0 <= j < i ==> letter_ci(v@[j], t@[j]),
        decreases v@.len() - i,
    {
        let c = v[i];
        let w = t[i];
        let ok = c == w || (w == 'i' && c == 'I') || (w == 'n' && c == 'N') || (w == 'f' && c == 'F')
            || (w == 't' && c == 'T') || (w == 'y' && c == 'Y') || (w == 'a' && c == 'A');
        if !ok {
            return false;
        }
        i = i + 1;
    }
    true
}

/// Whether `s` is a valid `f64` literal (`s.parse::<f64>().is_ok()`).
pub fn is_valid_number(s: &str) -> (r: bool)
    ensures
        r == is_float_text(s@),
{
    let all = crate::text::chars_of(s);
    let mut b: Vec<char> = Vec::new();
    let mut i: usize = 0;
    if all.len() > 0 && (all[0] == '+' || all[0] == '-') {
        i = 1;
    }
    let ghost bv = if s@.len() > 0 && (s@[0] == '+' || s@[0] == '-') { s@.drop_first() } else { s@ };
    let start = i;
    while i < all.len()
        invariant
            all@ == s@,
            start <= i <= all@.len(),
            start == all@.len() - bv.len(),
            bv == (if s@.len() > 0 && (s@[0] == '+' || s@[0] == '-') { s@.drop_first() } else { s@ }),
            b@ == all@.subrange(start as int, i as int),
        decreases all@.len() - i,
    {
        b.push(all[i]);
        assert(b@ =~= all@.subrange(start as int, i + 1));
        i = i + 1;
    }
    assert(b@ =~= bv);
    if matches_word(&b, &crate::scan::lit("inf")) || matches_word(&b, &crate::scan::lit("infinity"))
        || matches_word(&b, &crate::scan::lit("nan")) {
        return true;
    }
    let n = b.len();
    let e = find_either(&b, 0, n, 'e', 'E');
    let d = find_either(&b, 0, e, '.', '.');
    let mantissa = if d == e {
        e > 0 && all_digits_between(&b, 0, e)
    } else {
        all_digits_between(&b, 0, d) && all_digits_between(&b, d + 1, e) && (d > 0 || e > d + 1)
    };
    if !mantissa {
        return false;
    }
    if e == n {
        return true;
    }
    let mut a = e + 1;
    if a < n && (b[a] == '+' || b[a] == '-') {
        a = a + 1;
    }
    a < n && all_digits_between(&b, a, n)
}

} // verus!
