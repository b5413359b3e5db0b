//! Byte-sequence helpers shared by the parser and the generator: equality,
//! first-occurrence search, and decimal formatting and parsing of integers.

use vstd::prelude::*;

verus! {

/// Byte-wise equality of two vectors.
pub fn bytes_eq(a: &Vec<u8>, b: &Vec<u8>) -> (r: bool)
    ensures
        r == (a@ == b@),
{
    if a.len() != b.len() {
        assert(a@ != b@);
        return false;
    }
    let mut i: usize = 0;
    while i < a.len()
        invariant
            0 <= i <= a.len(),
            a.len() == b.len(),
            forall|j: int| 0 <= j < i ==> a@[j] == b@[j],
        decreases a.len() - i,
    {
        if a[i] != b[i] {
            return false;
        }
        i += 1;
    }
    assert(a@ =~= b@);
    true
}

/// The first index `j >= i` with `s[j] == b`, or `s.len()` if there is none.
pub open spec fn find_from(s: Seq<u8>, b: u8, i: int) -> int
    decreases s.len() - i,
{
    if i < 0 || i >= s.len() {
        s.len() as int
    } else if s[i] == b {
        i
    } else {
        find_from(s, b, i + 1)
    }
}

pub proof fn lemma_find_from_props(s: Seq<u8>, b: u8, i: int)
    requires
        0 <= i <= s.len(),
    ensures
        i <= find_from(s, b, i) <= s.len(),
        find_from(s, b, i) < s.len() ==> s[find_from(s, b, i)] == b,
        forall|j: int| i <= j < find_from(s, b, i) ==> s[j] != b,
    decreases s.len() - i,
{
    if i < s.len() && s[i] != b {
        lemma_find_from_props(s, b, i + 1);
    }
}

/// Whether `b` is an ASCII decimal digit.
pub open spec fn is_digit(b: u8) -> bool {
    48 <= b <= 57
}

/// Whether every byte of `s` is an ASCII decimal digit.
pub open spec fn all_digits(s: Seq<u8>) -> bool {
    forall|i: int| 0 <= i < s.len() ==> is_digit(s[i])
}

/// The value of a digit string, most significant digit first.
pub open spec fn dec_value(s: Seq<u8>) -> int
    decreases s.len(),
{
    if s.len() == 0 {
        0
    } else {
        dec_value(s.drop_last()) * 10 + (s.last() - 48)
    }
}

/// The decimal digits of a non-negative number, without a sign and without
/// leading zeros (except for the number zero itself).
pub open spec fn u64_dec(n: int) -> Seq<u8>
    decreases n,
{
    if n < 10 {
        seq![(48 + n) as u8]
    } else {
        u64_dec(n / 10).push((48 + n % 10) as u8)
    }
}

/// The decimal rendering of a signed number: a `-` sign when negative,
/// then the digits of its magnitude.
pub open spec fn i64_dec(n: int) -> Seq<u8> {
    if n < 0 {
        seq![45u8] + u64_dec(-n)
    } else {
        u64_dec(n)
    }
}

/// The meaning of parsing an optionally signed decimal integer that must fit
/// in an `i64`: `+` or `-` may lead, at least one digit must follow, and a
/// value outside the `i64` range is rejected.
pub open spec fn parse_i64_spec(s: Seq<u8>) -> Option<int> {
    let signed = s.len() > 0 && (s[0] == 43 || s[0] == 45);
    let neg = s.len() > 0 && s[0] == 45;
    let digits = if signed {
        s.drop_first()
    } else {
        s
    };
    if digits.len() == 0 || !all_digits(digits) {
        None
    } else {
        let v = if neg {
            -dec_value(digits)
        } else {
            dec_value(digits)
        };
        if i64::MIN <= v <= i64::MAX {
            Some(v)
        } else {
            None
        }
    }
}

pub proof fn lemma_dec_value_nonneg(s: Seq<u8>)
    requires
        all_digits(s),
    ensures
        dec_value(s) >= 0,
    decreases s.len(),
{
    if s.len() > 0 {
        lemma_dec_value_nonneg(s.drop_last());
    }
}

/// A digit-string prefix never exceeds the value of the whole string.
pub proof fn lemma_dec_value_take_le(s: Seq<u8>, k: int)
    requires
        all_digits(s),
        0 <= k <= s.len(),
    ensures
        dec_value(s.take(k)) <= dec_value(s),
    decreases s.len(),
{
    if k < s.len() {
        assert(s.drop_last().take(k) =~= s.take(k));
        lemma_dec_value_take_le(s.drop_last(), k);
        lemma_dec_value_nonneg(s.drop_last());
    } else {
        assert(s.take(k) =~= s);
    }
}

/// The digits of a non-negative number: all digits, at least one of them,
/// and their value is the number again.
pub proof fn lemma_u64_dec_props(n: int)
    requires
        n >= 0,
    ensures
        all_digits(u64_dec(n)),
        u64_dec(n).len() >= 1,
        dec_value(u64_dec(n)) == n,
    decreases n,
{
    if n < 10 {
        reveal_with_fuel(dec_value, 2);
        assert(u64_dec(n).drop_last() =~= Seq::<u8>::empty());
        assert(is_digit(u64_dec(n)[0]));
    } else {
        lemma_u64_dec_props(n / 10);
        vstd::arithmetic::div_mod::lemma_fundamental_div_mod(n, 10);
        assert(u64_dec(n).drop_last() =~= u64_dec(n / 10));
        assert(u64_dec(n).last() == (48 + n % 10) as u8);
        assert(is_digit((48 + n % 10) as u8));
        assert forall|i: int| 0 <= i < u64_dec(n).len() implies is_digit(u64_dec(n)[i]) by {
            if i < u64_dec(n).len() - 1 {
                assert(u64_dec(n)[i] == u64_dec(n / 10)[i]);
            }
        }
    }
}

/// Formatting a signed number and parsing the text back yields the number.
pub proof fn lemma_dec_round_trip(n: int)
    requires
        i64::MIN <= n <= i64::MAX,
    ensures
        parse_i64_spec(i64_dec(n)) == Some(n),
{
    if n >= 0 {
        lemma_u64_dec_props(n);
        assert(is_digit(u64_dec(n)[0]));
    } else {
        lemma_u64_dec_props(-n);
        let s = i64_dec(n);
        assert(s.drop_first() =~= u64_dec(-n));
    }
}

/// Render a non-negative number in decimal.
pub fn format_u64(n: u64) -> (r: Vec<u8>)
    ensures
        r@ == u64_dec(n as int),
    decreases n,
{
    if n < 10 {
        let mut v: Vec<u8> = Vec::new();
        v.push(48 + (n as u8));
        assert(v@ =~= u64_dec(n as int));
        v
    } else {
        let mut v = format_u64(n / 10);
        v.push(48 + ((n % 10) as u8));
        v
    }
}

/// Render a signed number in decimal.
pub fn format_i64(n: i64) -> (r: Vec<u8>)
    ensures
        r@ == i64_dec(n as int),
{
    if n >= 0 {
        format_u64(n as u64)
    } else {
        let m: u64 = if n == i64::MIN {
            9223372036854775808u64
        } else {
            (-n) as u64
        };
        let mut v: Vec<u8> = Vec::new();
        v.push(45);
        let mut d = format_u64(m);
        v.append(&mut d);
        assert(v@ =~= i64_dec(n as int));
        v
    }
}

/// Parse an optionally signed decimal integer; out-of-range values and any
/// non-digit text yield `None`.
pub fn parse_i64(s: &Vec<u8>) -> (r: Option<i64>)
    ensures
        match r {
            Some(v) => parse_i64_spec(s@) == Some(v as int),
            None => parse_i64_spec(s@) is None,
        },
{
    let ghost whole = s@;
    let mut i: usize = 0;
    let mut neg = false;
    if s.len() > 0 && (s[0] == 43 || s[0] == 45) {
        neg = s[0] == 45;
        i = 1;
    }
    let ghost start = i as int;
    let ghost digits = whole.subrange(start, whole.len() as int);
    proof {
        if start == 1 {
            assert(digits =~= whole.drop_first());
        } else {
            assert(digits =~= whole);
        }
    }
    if i == s.len() {
        return None;
    }
    let limit: u64 = if neg {
        9223372036854775808u64
    } else {
        9223372036854775807u64
    };
    let mut acc: u64 = 0;
    while i < s.len()
        invariant
            start <= i as int <= s@.len(),
            s@ == whole,
            start == 0 || start == 1,
            start < whole.len(),
            neg == (whole.len() > 0 && whole[0] == 45),
            (start == 1) == (whole.len() > 0 && (whole[0] == 43 || whole[0] == 45)),
            digits == whole.subrange(start, whole.len() as int),
            digits == (if start == 1 {
                whole.drop_first()
            } else {
                whole
            }),
            limit == (if neg {
                9223372036854775808u64
            } else {
                9223372036854775807u64
            }),
            all_digits(digits.take(i - start)),
            acc == dec_value(digits.take(i - start)),
            acc <= limit,
        decreases s.len() - i,
    {
        let b = s[i];
        if b < 48 || b > 57 {
            proof {
                assert(digits[i - start] == b);
                assert(!all_digits(digits)) by {
                    assert(!is_digit(digits[i - start]));
                }
            }
            return None;
        }
        let d = (b - 48) as u64;
        proof {
            assert(digits.take(i - start + 1).drop_last() =~= digits.take(i - start));
            assert(digits.take(i - start + 1).last() == b);
        }
        let next = match acc.checked_mul(10) {
            Some(t) => t.checked_add(d),
            None => None,
        };
        match next {
            Some(v) if v <= limit => {
                acc = v;
            },
            _ => {
                proof {
                    let k = i - start + 1;
                    assert(dec_value(digits.take(k)) == acc * 10 + (b - 48));
                    assert(dec_value(digits.take(k)) > limit);
                    if all_digits(digits) {
                        lemma_dec_value_take_le(digits, k);
                        assert(dec_value(digits) > limit);
                        if neg {
                            assert(-dec_value(digits) < i64::MIN);
                        } else {
                            assert(dec_value(digits) > i64::MAX);
                        }
                    }
                    assert(parse_i64_spec(whole) is None);
                }
                return None;
            },
        }
        i += 1;
    }
    proof {
        assert(digits.take(i - start) =~= digits);
    }
    if neg {
        if acc == 9223372036854775808u64 {
            Some(i64::MIN)
        } else {
            Some(-(acc as i64))
        }
    } else {
        Some(acc as i64)
    }
}

/// `find_from` returns the position of `b` when one position holds `b` and
/// none before it does.
pub proof fn lemma_find_from_unique(s: Seq<u8>, b: u8, i: int, k: int)
    requires
        0 <= i <= k < s.len(),
        s[k] == b,
        forall|j: int| i <= j < k ==> s[j] != b,
    ensures
        find_from(s, b, i) == k,
    decreases k - i,
{
    if i < k {
        lemma_find_from_unique(s, b, i + 1, k);
    }
}

/// `find_from` runs off the end when no position holds `b`.
pub proof fn lemma_find_from_none(s: Seq<u8>, b: u8, i: int)
    requires
        0 <= i <= s.len(),
        forall|j: int| i <= j < s.len() ==> s[j] != b,
    ensures
        find_from(s, b, i) == s.len(),
    decreases s.len() - i,
{
    if i < s.len() {
        lemma_find_from_none(s, b, i + 1);
    }
}

/// Searching within a suffix finds the same position, shifted.
pub proof fn lemma_find_from_subrange(s: Seq<u8>, b: u8, i: int)
    requires
        0 <= i <= s.len(),
    ensures
        find_from(s, b, i) == i + find_from(s.subrange(i, s.len() as int), b, 0),
{
    let sub = s.subrange(i, s.len() as int);
    let k = find_from(s, b, i);
    lemma_find_from_props(s, b, i);
    if k < s.len() {
        lemma_find_from_unique(sub, b, 0, k - i);
    } else {
        lemma_find_from_none(sub, b, 0);
    }
}

/// Copy the bytes at positions `a .. b`.
pub fn sub_bytes(s: &Vec<u8>, a: usize, b: usize) -> (r: Vec<u8>)
    requires
        a <= b <= s@.len(),
    ensures
        r@ == s@.subrange(a as int, b as int),
{
    let mut r: Vec<u8> = Vec::new();
    let mut i: usize = a;
    while i < b
        invariant
            a <= i <= b <= s@.len(),
            r@ == s@.subrange(a as int, i as int),
        decreases b - i,
    {
        r.push(s[i]);
        proof {
            assert(s@.subrange(a as int, i + 1) =~= s@.subrange(a as int, i as int).push(s@[i as int]));
        }
        i += 1;
    }
    r
}

/// Append a copy of `src` to `dst`.
pub fn push_bytes(dst: &mut Vec<u8>, src: &Vec<u8>)
    ensures
        final(dst)@ == old(dst)@ + src@,
{
    let mut i: usize = 0;
    while i < src.len()
        invariant
            0 <= i <= src@.len(),
            dst@ == old(dst)@ + src@.take(i as int),
        decreases src@.len() - i,
    {
        dst.push(src[i]);
        proof {
            assert(old(dst)@ + src@.take(i + 1) =~= (old(dst)@ + src@.take(i as int)).push(
                src@[i as int],
            ));
        }
        i += 1;
    }
    proof {
        assert(src@.take(src@.len() as int) =~= src@);
    }
}

/// Copy a byte vector.
pub fn clone_bytes(v: &Vec<u8>) -> (r: Vec<u8>)
    ensures
        r@ == v@,
{
    let r = v.clone();
    proof {
        assert(r@ =~= v@);
    }
    r
}

/// Search for the first occurrence of `b` in `s`, starting at `from`.
pub fn find_byte(s: &Vec<u8>, b: u8, from: usize) -> (r: usize)
    requires
        from <= s@.len(),
    ensures
        r == find_from(s@, b, from as int),
{
    let mut i: usize = from;
    while i < s.len()
        invariant
            from <= i <= s.len(),
            find_from(s@, b, from as int) == find_from(s@, b, i as int),
        decreases s.len() - i,
    {
        if s[i] == b {
            return i;
        }
        i += 1;
    }
    i
}

} // verus!
