//! Small verified helpers on strings: substring search, decimal numerals.

use vstd::prelude::*;
use vstd::string::*;

verus! {

/// `p` occurs in `s` starting at position `i`.
pub open spec fn occurs_at(s: Seq<char>, p: Seq<char>, i: int) -> bool {
    0 <= i && i + p.len() <= s.len() && s.subrange(i, i + p.len()) == p
}

/// `p` occurs somewhere in `s`.
pub open spec fn has_substring(s: Seq<char>, p: Seq<char>) -> bool {
    exists|i: int| occurs_at(s, p, i)
}

fn matches_at(s: &str, p: &str, i: usize, slen: usize, plen: usize) -> (r: bool)
    requires
        slen == s@.len(),
        plen == p@.len(),
        i + plen <= slen,
    ensures
        r == occurs_at(s@, p@, i as int),
{
    let mut k: usize = 0;
    while k < plen
        invariant
            slen == s@.len(),
            plen == p@.len(),
            i + plen <= slen,
            k <= plen,
            forall|j: int| 0 <= j < k ==> s@[i + j] == p@[j],
        decreases plen - k,
    {
        if s.get_char(i + k) != p.get_char(k) {
            assert(s@.subrange(i as int, i + plen)[k as int] != p@[k as int]);
            return false;
        }
        k = k + 1;
    }
    assert(s@.subrange(i as int, i + plen) =~= p@);
    true
}

/// Whether `p` occurs in `s` as a contiguous run of characters.
pub fn contains_str(s: &str, p: &str) -> (r: bool)
    ensures
        r == has_substring(s@, p@),
{
    let slen = s.unicode_len();
    let plen = p.unicode_len();
    if plen > slen {
        return false;
    }
    if plen == 0 {
        assert(s@.subrange(0, 0) =~= p@);
        assert(occurs_at(s@, p@, 0));
        return true;
    }
    let mut i: usize = 0;
    while i <= slen - plen
        invariant
            slen == s@.len(),
            plen == p@.len(),
            0 < plen <= slen,
            i <= slen - plen + 1,
            forall|j: int| 0 <= j < i ==> !#[trigger] occurs_at(s@, p@, j),
        decreases slen - plen + 1 - i,
    {
        if matches_at(s, p, i, slen, plen) {
            return true;
        }
        i = i + 1;
    }
    false
}

/// The character of a decimal digit.
pub open spec fn digit_char(d: nat) -> char {
    if d == 0 { '0' }
    else if d == 1 { '1' }
    else if d == 2 { '2' }
    else if d == 3 { '3' }
    else if d == 4 { '4' }
    else if d == 5 { '5' }
    else if d == 6 { '6' }
    else if d == 7 { '7' }
    else if d == 8 { '8' }
    else { '9' }
}

/// The decimal numeral of `n`, without leading zeros.
pub open spec fn decimal(n: nat) -> Seq<char>
    decreases n,
{
    if n < 10 {
        seq![digit_char(n)]
    } else {
        decimal(n / 10).push(digit_char(n % 10))
    }
}

fn digit_str(d: usize) -> (r: &'static str)
    requires
        d < 10,
    ensures
        r@ == seq![digit_char(d as nat)],
{
    proof {
        reveal_strlit("0");
        reveal_strlit("1");
        reveal_strlit("2");
        reveal_strlit("3");
        reveal_strlit("4");
        reveal_strlit("5");
        reveal_strlit("6");
        reveal_strlit("7");
        reveal_strlit("8");
        reveal_strlit("9");
    }
    if d == 0 { "0" }
    else if d == 1 { "1" }
    else if d == 2 { "2" }
    else if d == 3 { "3" }
    else if d == 4 { "4" }
    else if d == 5 { "5" }
    else if d == 6 { "6" }
    else if d == 7 { "7" }
    else if d == 8 { "8" }
    else { "9" }
}

/// Appends the decimal numeral of `n` to `out`.
pub fn push_decimal(out: &mut String, n: usize)
    ensures
        final(out)@ == old(out)@ + decimal(n as nat),
    decreases n,
{
    if n >= 10 {
        push_decimal(out, n / 10);
        out.append(digit_str(n % 10));
        assert(out@ =~= old(out)@ + decimal(n as nat));
    } else {
        out.append(digit_str(n));
        assert(out@ =~= old(out)@ + decimal(n as nat));
    }
}

} // verus!
