//! Chapter numbers and the stable order they induce.

use vstd::prelude::*;
use vstd::string::*;

verus! {

/// A chapter's sort key: `Some((whole, fraction))` for the number
/// `whole + fraction / 10^18`, or `None` for a name with no usable number,
/// which sorts after every number.
pub type ChapterKey = Option<(u64, u64)>;

/// Number of fractional decimal digits a key keeps.
pub const FRACTION_DIGITS: usize = 18;

pub open spec fn is_digit(c: char) -> bool {
    '0' <= c && c <= '9'
}

pub open spec fn digit_value(c: char) -> nat {
    (c as int - '0' as int) as nat
}

/// The number that a run of decimal digits denotes.
pub open spec fn digits_value(s: Seq<char>) -> nat
    decreases s.len(),
{
    if s.len() == 0 {
        0
    } else {
        digits_value(s.drop_last()) * 10 + digit_value(s.last())
    }
}

pub open spec fn all_digits(s: Seq<char>) -> bool {
    forall|i: int| 0 <= i < s.len() ==> is_digit(#[trigger] s[i])
}

pub open spec fn pow10(n: nat) -> nat
    decreases n,
{
    if n == 0 {
        1
    } else {
        10 * pow10((n - 1) as nat)
    }
}

/// The end of the run of digits that starts at `i`.
pub open spec fn digit_run(s: Seq<char>, i: int) -> int
    decreases s.len() - i,
{
    if 0 <= i < s.len() && is_digit(s[i]) {
        digit_run(s, i + 1)
    } else {
        i
    }
}

/// The key of a numeral `digits[.digits]`: the whole part must fit in a
/// `u64` and the fraction may have at most `FRACTION_DIGITS` digits;
/// anything else has no key.
pub open spec fn decimal_key(s: Seq<char>) -> ChapterKey {
    let w = digit_run(s, 0);
    let whole = digits_value(s.subrange(0, w));
    let frac = s.subrange(w + 1, s.len() as int);
    if w == 0 || whole > u64::MAX {
        None
    } else if w == s.len() {
        Some((whole as u64, 0u64))
    } else if s[w] == '.' && frac.len() > 0 && all_digits(frac) && frac.len()
        <= FRACTION_DIGITS {
        Some((whole as u64, (digits_value(frac) * pow10((FRACTION_DIGITS - frac.len()) as nat)) as u64))
    } else {
        None
    }
}

/// Key `a` sorts strictly before key `b`.
pub open spec fn key_lt(a: ChapterKey, b: ChapterKey) -> bool {
    match (a, b) {
        (Some(x), Some(y)) => x.0 < y.0 || (x.0 == y.0 && x.1 < y.1),
        (Some(_), None) => true,
        _ => false,
    }
}

/// In a stable sort by `keys`, the entry at `i` comes before the one at `j`.
pub open spec fn stable_before(keys: Seq<ChapterKey>, i: int, j: int) -> bool {
    key_lt(keys[i], keys[j]) || (keys[i] == keys[j] && i < j)
}

/// `p` lists the positions of `keys` in the order of a stable sort:
/// a permutation of `0..keys.len()` along which the keys never decrease
/// and equal keys keep their original relative order.
pub open spec fn is_stable_order(keys: Seq<ChapterKey>, p: Seq<int>) -> bool {
    &&& p.len() == keys.len()
    &&& forall|k: int| 0 <= k < p.len() ==> 0 <= #[trigger] p[k] < keys.len()
    &&& forall|a: int, b: int|
        0 <= a < b < p.len() ==> stable_before(keys, #[trigger] p[a], #[trigger] p[b])
}

pub open spec fn positions(v: Seq<usize>) -> Seq<int> {
    v.map_values(|x: usize| x as int)
}

proof fn lemma_digits_step(s: Seq<char>, i: int)
    requires
        0 <= i < s.len(),
    ensures
        digits_value(s.subrange(0, i + 1)) == digits_value(s.subrange(0, i)) * 10 + digit_value(
            s[i],
        ),
{
    assert(s.subrange(0, i + 1).drop_last() =~= s.subrange(0, i));
}

proof fn lemma_digits_grow(s: Seq<char>, i: int, j: int)
    requires
        0 <= i <= j <= s.len(),
    ensures
        digits_value(s.subrange(0, i)) <= digits_value(s.subrange(0, j)),
    decreases j - i,
{
    if i < j {
        lemma_digits_grow(s, i, j - 1);
        lemma_digits_step(s, j - 1);
    }
}

proof fn lemma_digits_bound(s: Seq<char>)
    requires
        all_digits(s),
    ensures
        digits_value(s) < pow10(s.len()),
    decreases s.len(),
{
    if s.len() > 0 {
        let t = s.drop_last();
        assert(all_digits(t)) by {
            assert forall|i: int| 0 <= i < t.len() implies is_digit(#[trigger] t[i]) by {
                assert(t[i] == s[i]);
            }
        }
        lemma_digits_bound(t);
        assert(is_digit(s[s.len() - 1]));
        let v = digits_value(t);
        let p = pow10(t.len());
        assert(v * 10 + 9 < p * 10) by (nonlinear_arith)
            requires
                v < p,
        ;
    }
}

proof fn lemma_run_bounds(s: Seq<char>, i: int)
    requires
        0 <= i <= s.len(),
    ensures
        i <= digit_run(s, i) <= s.len(),
    decreases s.len() - i,
{
    if i < s.len() && is_digit(s[i]) {
        lemma_run_bounds(s, i + 1);
    }
}

proof fn lemma_pow10_mono(a: nat, b: nat)
    requires
        a <= b,
    ensures
        1 <= pow10(a) <= pow10(b),
    decreases b - a,
{
    if a < b {
        lemma_pow10_mono(a, (b - 1) as nat);
    } else {
        lemma_pow10_pos(a);
    }
}

proof fn lemma_pow10_pos(a: nat)
    ensures
        1 <= pow10(a),
    decreases a,
{
    if a > 0 {
        lemma_pow10_pos((a - 1) as nat);
    }
}

proof fn lemma_pow10_split(a: nat, b: nat)
    ensures
        pow10(a + b) == pow10(a) * pow10(b),
    decreases a,
{
    if a > 0 {
        lemma_pow10_split((a - 1) as nat, b);
        let x = pow10((a - 1) as nat);
        let y = pow10(b);
        assert(pow10(a + b) == 10 * pow10((a - 1 + b) as nat));
        assert(pow10(a) == 10 * x);
        assert(10 * (x * y) == (10 * x) * y) by (nonlinear_arith);
    } else {
        let y = pow10(b);
        assert(pow10(0) == 1);
        assert(a + b == b);
        assert(1 * y == y);
    }
}

/// Reads the key of a numeral, as `decimal_key` states it.
pub fn parse_chapter_number(s: &str) -> (r: ChapterKey)
    ensures
        r == decimal_key(s@),
{
    let n = s.unicode_len();
    assert(pow10(18) == 1000000000000000000) by {
        reveal_with_fuel(pow10, 19);
    }
    let mut i: usize = 0;
    let mut whole: u64 = 0;
    while i < n && ('0' <= s.get_char(i) && s.get_char(i) <= '9')
        invariant
            n == s@.len(),
            i <= n,
            digit_run(s@, 0) == digit_run(s@, i as int),
            whole == digits_value(s@.subrange(0, i as int)),
        decreases n - i,
    {
        let c = s.get_char(i);
        proof {
            lemma_digits_step(s@, i as int);
        }
        let d = (c as u32 - '0' as u32) as u64;
        assert(d == digit_value(c));
        if whole > (u64::MAX - d) / 10 {
            proof {
                let w = digit_run(s@, 0);
                lemma_run_bounds(s@, i as int + 1);
                lemma_digits_grow(s@, i as int + 1, w);
                let m = u64::MAX as int;
                assert(whole * 10 + d > m) by (nonlinear_arith)
                    requires
                        whole > (m - d) / 10,
                        0 <= d <= 9,
                ;
            }
            return None;
        }
        whole = whole * 10 + d;
        i = i + 1;
    }
    assert(digit_run(s@, i as int) == i);
    if i == 0 {
        return None;
    }
    if i == n {
        return Some((whole, 0));
    }
    if s.get_char(i) != '.' {
        return None;
    }
    let start = i + 1;
    let mut j: usize = start;
    let mut frac: u64 = 0;
    while j < n && j - start < FRACTION_DIGITS && ('0' <= s.get_char(j) && s.get_char(j) <= '9')
        invariant
            n == s@.len(),
            start <= j <= n,
            j - start <= FRACTION_DIGITS,
            all_digits(s@.subrange(start as int, j as int)),
            frac == digits_value(s@.subrange(start as int, j as int)),
            frac < pow10((j - start) as nat),
            pow10(18) == 1000000000000000000,
        decreases n - j,
    {
        let c = s.get_char(j);
        let d = (c as u32 - '0' as u32) as u64;
        proof {
            let f = s@.subrange(start as int, j as int + 1);
            assert(f.drop_last() =~= s@.subrange(start as int, j as int));
            assert(f.last() == c);
            assert(all_digits(f)) by {
                assert forall|q: int| 0 <= q < f.len() implies is_digit(#[trigger] f[q]) by {
                    if q < f.len() - 1 {
                        assert(f[q] == s@.subrange(start as int, j as int)[q]);
                    }
                }
            }
            lemma_digits_bound(f);
            lemma_pow10_mono((j + 1 - start) as nat, 18);
        }
        frac = frac * 10 + d;
        j = j + 1;
    }
    let len = j - start;
    if len == 0 || j < n {
        proof {
            let frac_s = s@.subrange(start as int, n as int);
            if len > 0 {
                if j - start == FRACTION_DIGITS {
                } else {
                    assert(frac_s[(j - start) as int] == s@[j as int]);
                }
            } else if start < n {
                assert(frac_s[0] == s@[start as int]);
            }
        }
        return None;
    }
    assert(pow10(0) == 1);
    assert(frac * pow10(0) == frac) by (nonlinear_arith)
        requires
            pow10(0) == 1,
    ;
    let mut k: usize = len;
    let mut scaled: u64 = frac;
    while k < FRACTION_DIGITS
        invariant
            len <= k <= FRACTION_DIGITS,
            scaled == frac * pow10((k - len) as nat),
            frac < pow10(len as nat),
            pow10(18) == 1000000000000000000,
        decreases FRACTION_DIGITS - k,
    {
        proof {
            let e = (k - len) as nat;
            assert(pow10(e + 1) == 10 * pow10(e));
            lemma_pow10_split(len as nat, e + 1);
            lemma_pow10_mono((k + 1) as nat, 18);
            lemma_pow10_pos(e + 1);
            let a = frac as nat;
            assert(a * pow10(e + 1) < pow10(len as nat) * pow10(e + 1)) by (nonlinear_arith)
                requires
                    a < pow10(len as nat),
                    pow10(e + 1) > 0,
            ;
            assert(a * pow10(e + 1) == (a * pow10(e)) * 10) by (nonlinear_arith)
                requires
                    pow10(e + 1) == 10 * pow10(e),
            ;
        }
        scaled = scaled * 10;
        k = k + 1;
    }
    assert(s@.subrange(start as int, n as int) =~= s@.subrange(start as int, j as int));
    Some((whole, scaled))
}

/// Whether key `a` sorts strictly before key `b`.
pub fn key_less(a: ChapterKey, b: ChapterKey) -> (r: bool)
    ensures
        r == key_lt(a, b),
{
    match (a, b) {
        (Some(x), Some(y)) => x.0 < y.0 || (x.0 == y.0 && x.1 < y.1),
        (Some(_), None) => true,
        _ => false,
    }
}

/// The positions of `keys` in the order of a stable sort by key.
pub fn stable_order(keys: &Vec<ChapterKey>) -> (idx: Vec<usize>)
    ensures
        is_stable_order(keys@, positions(idx@)),
{
    let n = keys.len();
    let mut idx: Vec<usize> = Vec::new();
    let mut i: usize = 0;
    while i < n
        invariant
            n == keys@.len(),
            i <= n,
            idx@.len() == i,
            forall|k: int| 0 <= k < idx@.len() ==> #[trigger] idx@[k] < i,
            forall|a: int, b: int|
                0 <= a < b < idx@.len() ==> stable_before(
                    keys@,
                    #[trigger] idx@[a] as int,
                    #[trigger] idx@[b] as int,
                ),
        decreases n - i,
    {
        let ki = keys[i];
        let mut pos: usize = 0;
        while pos < idx.len() && !key_less(ki, keys[idx[pos]])
            invariant
                n == keys@.len(),
                i < n,
                ki == keys@[i as int],
                pos <= idx@.len(),
                forall|k: int| 0 <= k < idx@.len() ==> #[trigger] idx@[k] < i,
                forall|q: int| 0 <= q < pos ==> !key_lt(ki, keys@[#[trigger] idx@[q] as int]),
            decreases idx@.len() - pos,
        {
            pos = pos + 1;
        }
        let ghost old_idx = idx@;
        idx.insert(pos, i);
        proof {
            assert forall|a: int, b: int| 0 <= a < b < idx@.len() implies stable_before(
                keys@,
                #[trigger] idx@[a] as int,
                #[trigger] idx@[b] as int,
            ) by {
                if b < pos {
                    assert(idx@[a] == old_idx[a] && idx@[b] == old_idx[b]);
                } else if b == pos {
                    assert(idx@[a] == old_idx[a]);
                    assert(!key_lt(ki, keys@[old_idx[a] as int]));
                } else if a == pos {
                    assert(idx@[b] == old_idx[b - 1]);
                    assert(key_lt(ki, keys@[old_idx[pos as int] as int]));
                    if b - 1 > pos {
                        assert(stable_before(keys@, old_idx[pos as int] as int, old_idx[b - 1] as int));
                    }
                } else if a < pos {
                    assert(idx@[a] == old_idx[a] && idx@[b] == old_idx[b - 1]);
                } else {
                    assert(idx@[a] == old_idx[a - 1] && idx@[b] == old_idx[b - 1]);
                }
            }
            assert forall|k: int| 0 <= k < idx@.len() implies #[trigger] idx@[k] < i + 1 by {
                if k < pos {
                    assert(idx@[k] == old_idx[k]);
                } else if k > pos {
                    assert(idx@[k] == old_idx[k - 1]);
                }
            }
        }
        i = i + 1;
    }
    proof {
        let p = positions(idx@);
        assert forall|a: int, b: int| 0 <= a < b < p.len() implies stable_before(
            keys@,
            #[trigger] p[a],
            #[trigger] p[b],
        ) by {
            assert(p[a] == idx@[a] as int && p[b] == idx@[b] as int);
        }
        assert forall|k: int| 0 <= k < p.len() implies 0 <= #[trigger] p[k] < keys@.len() by {
            assert(p[k] == idx@[k] as int);
        }
    }
    idx
}

} // verus!
