//! Character-level helpers: turning strings into character vectors and back,
//! reading decimal index arguments, and rendering indices back to decimal
//! digits.
use vstd::prelude::*;

verus! {

use vstd::string::StrSliceExecFns;

/// The characters of `s`, in order, as a vector.
pub fn chars_of(s: &str) -> (r: Vec<char>)
    ensures
        r@ == s@,
{
    let n: usize = s.unicode_len();
    let mut r: Vec<char> = Vec::new();
    let mut i: usize = 0;
    while i < n
        invariant
            n == s@.len(),
            i <= n,
            r@ == s@.take(i as int),
        decreases n - i,
    {
        r.push(s.get_char(i));
        i = i + 1;
        proof {
            assert(r@ =~= s@.take(i as int));
        }
    }
    proof {
        assert(s@.take(n as int) =~= s@);
    }
    r
}

/// Relies on `String`'s `FromIterator<char>` implementation: collecting
/// characters yields a string holding exactly those characters in order.
#[verifier::external_body]
pub fn string_from_chars(v: &Vec<char>) -> (r: String)
    ensures
        r@ == v@,
{
    v.iter().collect()
}

/// Appends all of `src` to `dst`.
pub fn push_all(dst: &mut Vec<char>, src: &Vec<char>)
    ensures
        final(dst)@ == old(dst)@ + src@,
{
    let mut i: usize = 0;
    while i < src.len()
        invariant
            i <= src@.len(),
            dst@ == old(dst)@ + src@.take(i as int),
        decreases src@.len() - i,
    {
        dst.push(src[i]);
        i = i + 1;
        proof {
            assert(old(dst)@ + src@.take(i as int) =~= (old(dst)@ + src@.take(i - 1)).push(
                src@[i - 1],
            ));
        }
    }
    proof {
        assert(src@.take(src@.len() as int) =~= src@);
    }
}

/// Whether `p` occurs at position `i` of `v`.
pub fn matches_at(v: &Vec<char>, i: usize, p: &Vec<char>) -> (b: bool)
    requires
        i <= v@.len(),
    ensures
        b == p@.is_prefix_of(v@.skip(i as int)),
{
    let n: usize = v.len();
    let m: usize = p.len();
    if n - i < m {
        return false;
    }
    let mut k: usize = 0;
    while k < m
        invariant
            k <= m,
            n == v@.len(),
            m == p@.len(),
            i + m <= n,
            forall|t: int| 0 <= t < k ==> v@[i + t] == p@[t],
        decreases m - k,
    {
        if v[i + k] != p[k] {
            proof {
                assert(v@.skip(i as int)[k as int] != p@[k as int]);
                assert(!(p@ =~= v@.skip(i as int).subrange(0, p@.len() as int)));
            }
            return false;
        }
        k = k + 1;
    }
    proof {
        assert(p@ =~= v@.skip(i as int).subrange(0, p@.len() as int));
    }
    true
}

/// Whether the two vectors hold the same characters.
pub fn chars_eq(v: &Vec<char>, w: &Vec<char>) -> (b: bool)
    ensures
        b == (v@ == w@),
{
    if v.len() != w.len() {
        return false;
    }
    let mut k: usize = 0;
    while k < v.len()
        invariant
            k <= v@.len(),
            v@.len() == w@.len(),
            forall|t: int| 0 <= t < k ==> v@[t] == w@[t],
        decreases v@.len() - k,
    {
        if v[k] != w[k] {
            return false;
        }
        k = k + 1;
    }
    proof {
        assert(v@ =~= w@);
    }
    true
}

/// A decimal digit.
pub open spec fn is_digit(c: char) -> bool {
    '0' <= c && c <= '9'
}

/// The numeric value of a decimal digit.
pub open spec fn digit_val(c: char) -> int {
    c as u32 - 48
}

pub open spec fn all_digits(s: Seq<char>) -> bool {
    forall|i: int| 0 <= i < s.len() ==> is_digit(#[trigger] s[i])
}

/// The value of a sequence of decimal digits, most significant first.
pub open spec fn digits_val(s: Seq<char>) -> int
    decreases s.len(),
{
    if s.len() == 0 {
        0
    } else {
        digits_val(s.drop_last()) * 10 + digit_val(s.last())
    }
}

pub proof fn lemma_digits_val_nonneg(s: Seq<char>)
    requires
        all_digits(s),
    ensures
        digits_val(s) >= 0,
    decreases s.len(),
{
    if s.len() > 0 {
        assert(all_digits(s.drop_last()));
        lemma_digits_val_nonneg(s.drop_last());
    }
}

/// The digits of a numeral, with an optional leading `+` stripped.
pub open spec fn numeral_body(s: Seq<char>) -> Seq<char> {
    if s.len() > 0 && s[0] == '+' {
        s.drop_first()
    } else {
        s
    }
}

/// A well-formed index numeral -- an optional leading `+`, then one or more
/// decimal digits, as `str::parse` for unsigned integers accepts -- and its
/// unbounded numeric value. Anything else is not a number.
pub open spec fn index_val(s: Seq<char>) -> Option<int> {
    let body = numeral_body(s);
    if body.len() == 0 || !all_digits(body) {
        None
    } else {
        Some(digits_val(body))
    }
}

/// A numeral's value brought into the machine's index range. A value beyond
/// `usize::MAX` is clamped to it; since every store count fits in `usize`,
/// the clamped value classifies against a count exactly as the true value
/// does.
pub open spec fn clamp_index(k: int) -> usize {
    if k > usize::MAX as int {
        usize::MAX
    } else {
        k as usize
    }
}

/// Reads an index argument: `None` when the token is not a well-formed
/// numeral, and its (clamped) value otherwise.
pub fn parse_index(v: &Vec<char>) -> (r: Option<usize>)
    ensures
        match r {
            Some(n) => index_val(v@) matches Some(k) && 0 <= k && n == clamp_index(k),
            None => index_val(v@) is None,
        },
{
    let start: usize = if v.len() > 0 && v[0] == '+' {
        1
    } else {
        0
    };
    let ghost body = numeral_body(v@);
    proof {
        assert(body =~= v@.skip(start as int));
    }
    if start == v.len() {
        return None;
    }
    let mut acc: usize = 0;
    let mut over: bool = false;
    let mut j: usize = start;
    while j < v.len()
        invariant
            start <= j <= v@.len(),
            body == numeral_body(v@),
            body == v@.skip(start as int),
            all_digits(body.take(j - start)),
            !over ==> acc == digits_val(body.take(j - start)),
            over ==> digits_val(body.take(j - start)) > usize::MAX as int,
        decreases v@.len() - j,
    {
        let c = v[j];
        proof {
            assert(body[j - start] == v@[j as int]);
        }
        if !('0' <= c && c <= '9') {
            proof {
                assert(!is_digit(body[j - start]));
                assert(!all_digits(numeral_body(v@)));
                assert(numeral_body(v@).len() > 0);
                assert(index_val(v@) is None);
            }
            return None;
        }
        let d: usize = ((c as u32) - 48) as usize;
        proof {
            let pre = body.take(j - start);
            let cur = body.take(j + 1 - start);
            assert(cur.drop_last() =~= pre);
            assert(cur.last() == body[j - start]);
            lemma_digits_val_nonneg(pre);
            assert(usize::MAX as int == 10 * (usize::MAX as int / 10) + usize::MAX as int % 10);
        }
        if over {
        } else if acc > usize::MAX / 10 || (acc == usize::MAX / 10 && d > usize::MAX % 10) {
            over = true;
        } else {
            acc = acc * 10 + d;
        }
        j = j + 1;
    }
    proof {
        assert(body.take(j - start) =~= body);
        lemma_digits_val_nonneg(body);
    }
    if over {
        Some(usize::MAX)
    } else {
        Some(acc)
    }
}

/// The character for a decimal digit value.
pub open spec fn digit_char(d: int) -> char {
    ((48 + d) as u32) as char
}

/// The decimal digits of `n`, most significant first.
pub open spec fn dec_chars(n: int) -> Seq<char>
    decreases n,
{
    if n < 10 {
        seq![digit_char(n)]
    } else {
        dec_chars(n / 10).push(digit_char(n % 10))
    }
}

/// Renders `n` in decimal, as `Display` formatting of an integer does.
pub fn dec_usize(n: usize) -> (r: Vec<char>)
    ensures
        r@ == dec_chars(n as int),
    decreases n,
{
    if n < 10 {
        let c: char = ((48 + n) as u8) as char;
        let mut v: Vec<char> = Vec::new();
        v.push(c);
        proof {
            assert(c as u32 == 48 + n);
            assert(v@ =~= dec_chars(n as int));
        }
        v
    } else {
        let mut v = dec_usize(n / 10);
        let c: char = ((48 + n % 10) as u8) as char;
        v.push(c);
        proof {
            assert(c as u32 == 48 + n % 10);
            assert(v@ =~= dec_chars(n as int));
        }
        v
    }
}

} // verus!
