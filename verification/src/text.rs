use vstd::prelude::*;
use vstd::string::StrSliceExecFns;

verus! {

/// The keyword `pat` occurs in `text` as a contiguous run of characters
/// starting at position `i`.
pub open spec fn matches_at(text: Seq<char>, pat: Seq<char>, i: int) -> bool {
    &&& 0 <= i
    &&& i + pat.len() <= text.len()
    &&& text.subrange(i, i + pat.len()) == pat
}

/// The keyword `pat` occurs somewhere in `text`.
pub open spec fn contains_chars(text: Seq<char>, pat: Seq<char>) -> bool {
    exists|i: int| matches_at(text, pat, i)
}

/// Collects the characters of a string slice into a vector.
pub fn chars_of(s: &str) -> (v: Vec<char>)
    ensures
        v@ == s@,
{
    let n: usize = s.unicode_len();
    let mut v: Vec<char> = Vec::new();
    let mut i: usize = 0;
    while i < n
        invariant
            i <= n,
            n == s@.len(),
            v@ == s@.take(i as int),
        decreases n - i,
    {
        v.push(s.get_char(i));
        assert(s@.take(i as int).push(s@[i as int]) =~= s@.take(i + 1));
        i = i + 1;
    }
    assert(s@.take(n as int) =~= s@);
    v
}

/// Substring search: decides whether `pat` occurs contiguously in `text`.
pub fn contains_keyword(text: &str, pat: &str) -> (r: bool)
    ensures
        r == contains_chars(text@, pat@),
{
    let t: Vec<char> = chars_of(text);
    let p: Vec<char> = chars_of(pat);
    let tn: usize = t.len();
    let pn: usize = p.len();
    if pn > tn {
        assert(!contains_chars(text@, pat@)) by {
            assert(forall|k: int| !matches_at(text@, pat@, k));
        };
        return false;
    }
    let mut i: usize = 0;
    while i <= tn - pn
        invariant
            pn <= tn,
            tn == text@.len(),
            pn == pat@.len(),
            t@ == text@,
            p@ == pat@,
            i <= tn - pn + 1,
            forall|k: int| 0 <= k < i ==> !matches_at(text@, pat@, k),
        decreases tn - pn - i + 1,
    {
        let mut j: usize = 0;
        while j < pn && t[i + j] == p[j]
            invariant
                pn <= tn,
                i + pn <= tn,
                tn == text@.len(),
                pn == pat@.len(),
                t@ == text@,
                p@ == pat@,
                j <= pn,
                forall|l: int| 0 <= l < j ==> text@[i + l] == pat@[l],
            decreases pn - j,
        {
            j = j + 1;
        }
        if j == pn {
            assert(text@.subrange(i as int, i + pn) =~= pat@);
            assert(matches_at(text@, pat@, i as int));
            return true;
        }
        assert(!matches_at(text@, pat@, i as int)) by {
            if matches_at(text@, pat@, i as int) {
                assert(text@.subrange(i as int, i + pn)[j as int] == pat@[j as int]);
            }
        };
        i = i + 1;
    }
    assert(!contains_chars(text@, pat@)) by {
        assert forall|k: int| !matches_at(text@, pat@, k) by {
            if 0 <= k && k + pn <= tn {
                assert(k < i);
            }
        };
    };
    false
}

/// Character-for-character equality of two string slices.
pub fn str_eq(a: &str, b: &str) -> (r: bool)
    ensures
        r == (a@ == b@),
{
    let ca: Vec<char> = chars_of(a);
    let cb: Vec<char> = chars_of(b);
    if ca.len() != cb.len() {
        return false;
    }
    let n: usize = ca.len();
    let mut i: usize = 0;
    while i < n
        invariant
            ca@ == a@,
            cb@ == b@,
            n == a@.len(),
            n == b@.len(),
            i <= n,
            forall|k: int| 0 <= k < i ==> a@[k] == b@[k],
        decreases n - i,
    {
        if ca[i] != cb[i] {
            return false;
        }
        i = i + 1;
    }
    assert(a@ =~= b@);
    true
}

/// Relies on `String::push_str`: appends the characters of `t` to the end
/// of `s`, changing nothing else.
#[verifier::external_body]
pub fn push_str(s: &mut String, t: &str)
    ensures
        final(s)@ == old(s)@ + t@,
{
    s.push_str(t)
}

/// A decimal digit, by its scalar value.
pub open spec fn is_digit(c: char) -> bool {
    48 <= c as int && c as int <= 57
}

/// The numeric value of one decimal digit.
pub open spec fn digit_val(c: char) -> nat {
    (c as int - 48) as nat
}

/// The value of a sequence of decimal digits, most significant first.
pub open spec fn digits_val(s: Seq<char>) -> nat
    decreases s.len(),
{
    if s.len() == 0 {
        0
    } else {
        digits_val(s.drop_last()) * 10 + digit_val(s.last())
    }
}

/// A non-empty sequence made of decimal digits only.
pub open spec fn is_digits(s: Seq<char>) -> bool {
    s.len() > 0 && (forall|i: int| 0 <= i < s.len() ==> is_digit(#[trigger] s[i]))
}

/// The value of a digit sequence never shrinks as the sequence is extended
/// on the right.
proof fn lemma_digits_val_extend(s: Seq<char>, i: int, j: int)
    requires
        0 <= i <= j <= s.len(),
    ensures
        digits_val(s.take(i)) <= digits_val(s.take(j)),
    decreases j - i,
{
    if i < j {
        lemma_digits_val_extend(s, i, j - 1);
        let prefix = s.take(j);
        assert(prefix.drop_last() =~= s.take(j - 1));
        assert(digits_val(s.take(j - 1)) * 10 >= digits_val(s.take(j - 1))) by (nonlinear_arith);
    }
}

/// Parses a non-empty string of decimal digits as a 64-bit unsigned integer.
/// Returns `None` when the string is empty, holds a character that is not a
/// decimal digit, or denotes a value too large for 64 bits.
pub fn parse_u64(s: &str) -> (r: Option<u64>)
    ensures
        r is Some <==> is_digits(s@) && digits_val(s@) <= u64::MAX,
        r is Some ==> r->Some_0 == digits_val(s@),
{
    let cs: Vec<char> = chars_of(s);
    let n: usize = cs.len();
    if n == 0 {
        return None;
    }
    let mut acc: u64 = 0;
    let mut i: usize = 0;
    while i < n
        invariant
            0 < n == s@.len(),
            cs@ == s@,
            i <= n,
            forall|k: int| 0 <= k < i ==> is_digit(#[trigger] s@[k]),
            acc == digits_val(s@.take(i as int)),
        decreases n - i,
    {
        let c: char = cs[i];
        let d: u64 = match c {
            '0' => 0,
            '1' => 1,
            '2' => 2,
            '3' => 3,
            '4' => 4,
            '5' => 5,
            '6' => 6,
            '7' => 7,
            '8' => 8,
            '9' => 9,
            _ => {
                assert(!is_digit(s@[i as int]));
                return None;
            },
        };
        assert(is_digit(s@[i as int]));
        assert(d == digit_val(s@[i as int]));
        let next = match acc.checked_mul(10) {
            Some(m) => m.checked_add(d),
            None => None,
        };
        match next {
            Some(v) => {
                assert(s@.take(i + 1).drop_last() =~= s@.take(i as int));
                acc = v;
            },
            None => {
                proof {
                    assert(s@.take(i + 1).drop_last() =~= s@.take(i as int));
                    assert(digits_val(s@.take(i + 1)) > u64::MAX);
                    lemma_digits_val_extend(s@, i + 1, s@.len() as int);
                    assert(s@.take(s@.len() as int) =~= s@);
                }
                return None;
            },
        }
        i = i + 1;
    }
    assert(s@.take(n as int) =~= s@);
    Some(acc)
}

} // verus!
