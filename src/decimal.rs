//! Decimal text for the integer fields of the wire format: parsing with
//! range checks, and canonical formatting.

use vstd::prelude::*;

verus! {

pub open spec fn is_digit(c: char) -> bool {
    '0' <= c <= '9'
}

pub open spec fn digit_value(c: char) -> int {
    c as int - '0' as int
}

/// The character of the decimal digit `n`.
pub open spec fn digit_char(n: int) -> char {
    if n == 0 {
        '0'
    } else if n == 1 {
        '1'
    } else if n == 2 {
        '2'
    } else if n == 3 {
        '3'
    } else if n == 4 {
        '4'
    } else if n == 5 {
        '5'
    } else if n == 6 {
        '6'
    } else if n == 7 {
        '7'
    } else if n == 8 {
        '8'
    } else {
        '9'
    }
}

/// A non-empty run of decimal digits.
pub open spec fn all_digits(s: Seq<char>) -> bool {
    s.len() > 0 && forall|i: int| 0 <= i < s.len() ==> is_digit(#[trigger] s[i])
}

/// The value of a run of decimal digits, most significant first.
pub open spec fn digits_value(s: Seq<char>) -> int
    decreases s.len(),
{
    if s.len() == 0 {
        0
    } else {
        digits_value(s.drop_last()) * 10 + digit_value(s.last())
    }
}

/// The canonical decimal text of `n`: no sign, no leading zero.
pub open spec fn dec_of(n: nat) -> Seq<char>
    decreases n,
{
    if n < 10 {
        seq![digit_char(n as int)]
    } else {
        dec_of(n / 10).push(digit_char((n % 10) as int))
    }
}

/// The canonical decimal text of a signed integer: a minus sign before the
/// digits of a negative value.
pub open spec fn dec_of_signed(x: int) -> Seq<char> {
    if x < 0 {
        seq!['-'] + dec_of((-x) as nat)
    } else {
        dec_of(x as nat)
    }
}

/// What `s` denotes as an unsigned integer, if it is a run of digits whose
/// value fits in `u64`.
pub open spec fn unsigned_of(s: Seq<char>) -> Option<u64> {
    if all_digits(s) && digits_value(s) <= u64::MAX {
        Some(digits_value(s) as u64)
    } else {
        None
    }
}

/// What `s` denotes as a signed integer, if it is a run of digits, with an
/// optional leading minus sign, whose value fits in `i64`.
pub open spec fn signed_of(s: Seq<char>) -> Option<i64> {
    if s.len() > 0 && s[0] == '-' {
        let m = s.subrange(1, s.len() as int);
        if all_digits(m) && digits_value(m) <= 0x8000_0000_0000_0000 {
            Some((-digits_value(m)) as i64)
        } else {
            None
        }
    } else if all_digits(s) && digits_value(s) <= i64::MAX {
        Some(digits_value(s) as i64)
    } else {
        None
    }
}

proof fn lemma_digit_char(k: int)
    requires
        0 <= k < 10,
    ensures
        is_digit(digit_char(k)),
        digit_value(digit_char(k)) == k,
{
    assert('0' as int == 48);
    assert('9' as int == 57);
}

proof fn lemma_digits_value_nonneg(s: Seq<char>)
    ensures
        (forall|i: int| 0 <= i < s.len() ==> is_digit(#[trigger] s[i])) ==> digits_value(s) >= 0,
    decreases s.len(),
{
    if s.len() > 0 {
        assert(forall|i: int| 0 <= i < s.len() - 1 ==> s.drop_last()[i] == s[i]);
        lemma_digits_value_nonneg(s.drop_last());
    }
}

/// A longer prefix of a digit run is worth at least as much as a shorter one.
proof fn lemma_digits_value_prefix(s: Seq<char>, i: int, j: int)
    requires
        0 <= i <= j <= s.len(),
        forall|k: int| 0 <= k < s.len() ==> is_digit(#[trigger] s[k]),
    ensures
        digits_value(s.subrange(0, i)) <= digits_value(s.subrange(0, j)),
    decreases j - i,
{
    if i < j {
        lemma_digits_value_prefix(s, i, j - 1);
        let p = s.subrange(0, j);
        assert(p.drop_last() =~= s.subrange(0, j - 1));
        assert(is_digit(s[j - 1]));
        lemma_digits_value_nonneg(s.subrange(0, j - 1));
    }
}

/// The canonical text of `n` is a digit run that denotes `n`.
pub proof fn lemma_dec_of(n: nat)
    ensures
        all_digits(dec_of(n)),
        digits_value(dec_of(n)) == n,
    decreases n,
{
    reveal_with_fuel(dec_of, 1);
    lemma_digit_char((n % 10) as int);
    if n < 10 {
        let s = dec_of(n);
        assert(s.drop_last() =~= Seq::<char>::empty());
        assert(s.last() == digit_char(n as int));
        assert(digits_value(s.drop_last()) == 0);
        assert(digit_value(s.last()) == n);
    } else {
        lemma_dec_of(n / 10);
        let s = dec_of(n);
        assert(s.drop_last() =~= dec_of(n / 10));
        assert(forall|i: int| 0 <= i < s.len() ==> is_digit(#[trigger] s[i]));
    }
}

fn digit_of(c: char) -> (r: Option<u64>)
    ensures
        r == (if is_digit(c) {
            Some(digit_value(c) as u64)
        } else {
            None
        }),
{
    if '0' <= c && c <= '9' {
        Some((c as u32 - '0' as u32) as u64)
    } else {
        None
    }
}

/// The value of the digit run `s[from..]`, if it is one and fits in `bound`.
fn parse_digits(s: &Vec<char>, from: usize, bound: u64) -> (r: Option<u64>)
    requires
        from <= s.len(),
    ensures
        ({
            let m = s@.subrange(from as int, s.len() as int);
            r == (if all_digits(m) && digits_value(m) <= bound {
                Some(digits_value(m) as u64)
            } else {
                None
            })
        }),
{
    let ghost m = s@.subrange(from as int, s.len() as int);
    let n = s.len();
    if from == n {
        return None;
    }
    let mut i: usize = from;
    while i < n
        invariant
            n == s.len(),
            from <= i <= n,
            m == s@.subrange(from as int, n as int),
            forall|k: int| from <= k < i ==> is_digit(#[trigger] s@[k]),
        decreases n - i,
    {
        if digit_of(s[i]).is_none() {
            assert(m[i - from] == s@[i as int]);
            assert(!is_digit(m[i - from]));
            return None;
        }
        i = i + 1;
    }
    assert forall|k: int| 0 <= k < m.len() implies is_digit(#[trigger] m[k]) by {
        assert(m[k] == s@[from + k]);
    }
    let mut v: u64 = 0;
    let mut i: usize = from;
    while i < n
        invariant
            n == s.len(),
            from <= i <= n,
            m == s@.subrange(from as int, n as int),
            all_digits(m),
            v == digits_value(m.subrange(0, i - from)),
            v <= bound,
        decreases n - i,
    {
        assert(m[i - from] == s@[i as int]);
        assert(is_digit(m[i - from]));
        let d = digit_of(s[i]).unwrap();
        assert(m.subrange(0, i + 1 - from).drop_last() =~= m.subrange(0, i - from));
        assert(m.subrange(0, i + 1 - from).last() == m[i - from]);
        let next: u128 = v as u128 * 10 + d as u128;
        if next > bound as u128 {
            proof {
                lemma_digits_value_prefix(m, i + 1 - from, m.len() as int);
                assert(m.subrange(0, m.len() as int) =~= m);
            }
            return None;
        }
        v = next as u64;
        i = i + 1;
    }
    assert(m.subrange(0, n - from) =~= m);
    Some(v)
}

/// Parses a run of decimal digits as a `u64`.
pub fn parse_unsigned(s: &Vec<char>) -> (r: Option<u64>)
    ensures
        r == unsigned_of(s@),
{
    assert(s@.subrange(0, s@.len() as int) =~= s@);
    parse_digits(s, 0, u64::MAX)
}

/// Parses a run of decimal digits, with an optional leading minus sign, as
/// an `i64`.
pub fn parse_signed(s: &Vec<char>) -> (r: Option<i64>)
    ensures
        r == signed_of(s@),
{
    proof {
        lemma_digits_value_nonneg(s@);
        lemma_digits_value_nonneg(s@.subrange(1, s@.len() as int));
    }
    if s.len() > 0 && s[0] == '-' {
        match parse_digits(s, 1, 0x8000_0000_0000_0000) {
            Some(m) => Some((0 - (m as i128)) as i64),
            None => None,
        }
    } else {
        assert(s@.subrange(0, s@.len() as int) =~= s@);
        match parse_digits(s, 0, i64::MAX as u64) {
            Some(m) => Some(m as i64),
            None => None,
        }
    }
}

fn digit_char_exec(d: u64) -> (c: char)
    requires
        d < 10,
    ensures
        c == digit_char(d as int),
{
    match d {
        0 => '0',
        1 => '1',
        2 => '2',
        3 => '3',
        4 => '4',
        5 => '5',
        6 => '6',
        7 => '7',
        8 => '8',
        _ => '9',
    }
}

/// Appends the canonical decimal text of `n` to `out`.
pub fn push_unsigned(out: &mut Vec<char>, n: u64)
    ensures
        final(out)@ == old(out)@ + dec_of(n as nat),
    decreases n,
{
    if n >= 10 {
        push_unsigned(out, n / 10);
    }
    out.push(digit_char_exec(n % 10));
    proof {
        reveal_with_fuel(dec_of, 1);
        assert(final(out)@ =~= old(out)@ + dec_of(n as nat));
    }
}

/// Appends the canonical decimal text of `x` to `out`.
pub fn push_signed(out: &mut Vec<char>, x: i64)
    ensures
        final(out)@ == old(out)@ + dec_of_signed(x as int),
{
    if x < 0 {
        out.push('-');
        let m: u64 = (0 - (x as i128)) as u64;
        push_unsigned(out, m);
        assert(final(out)@ =~= old(out)@ + dec_of_signed(x as int));
    } else {
        push_unsigned(out, x as u64);
    }
}

/// Reading back the canonical text of an unsigned integer gives the integer.
pub proof fn lemma_unsigned_round_trip(n: u64)
    ensures
        unsigned_of(dec_of(n as nat)) == Some(n),
{
    lemma_dec_of(n as nat);
}

/// Reading back the canonical text of a signed integer gives the integer.
pub proof fn lemma_signed_round_trip(x: i64)
    ensures
        signed_of(dec_of_signed(x as int)) == Some(x),
{
    let s = dec_of_signed(x as int);
    if x < 0 {
        lemma_dec_of((-x) as nat);
        assert(s.subrange(1, s.len() as int) =~= dec_of((-x) as nat));
    } else {
        lemma_dec_of(x as nat);
        assert(is_digit(s[0]));
    }
}

} // verus!
