//! Decimal numbers in text: stack positions, written with a decimal point and
//! held as hundredths, and plain signed integers.

use vstd::prelude::*;

verus! {

/// Whether `c` is one of the ten decimal digits.
pub open spec fn is_digit(c: char) -> bool {
    '0' <= c && c <= '9'
}

/// The number that the digit `c` stands for.
pub open spec fn digit_value(c: char) -> nat {
    (c as u32 - '0' as u32) as nat
}

/// The digit that stands for `d`, for `d` below ten.
pub open spec fn digit_char(d: nat) -> char {
    (d + '0' as u32) as u8 as char
}

/// Whether `s` holds decimal digits only.
pub open spec fn all_digits(s: Seq<char>) -> bool {
    forall|i: int| 0 <= i < s.len() ==> is_digit(#[trigger] s[i])
}

/// The number that the digits of `s` write in base ten.
pub open spec fn decimal_value(s: Seq<char>) -> nat
    decreases s.len(),
{
    if s.len() == 0 {
        0
    } else {
        decimal_value(s.drop_last()) * 10 + digit_value(s.last())
    }
}

/// The digits that write `n` in base ten, without leading zeros.
pub open spec fn digits_of(n: nat) -> Seq<char>
    decreases n,
{
    if n < 10 {
        seq![digit_char(n)]
    } else {
        digits_of(n / 10).push(digit_char(n % 10))
    }
}

/// The index of the first `c` in `s`, or the length of `s` if there is none.
pub open spec fn first_index(s: Seq<char>, c: char) -> int
    decreases s.len(),
{
    if s.len() == 0 {
        0
    } else if s.first() == c {
        0
    } else {
        1 + first_index(s.drop_first(), c)
    }
}

/// The first two fractional digits of `frac`, as a number of hundredths.
pub open spec fn hundredths(frac: Seq<char>) -> nat {
    (if frac.len() > 0 {
        digit_value(frac[0]) * 10
    } else {
        0
    }) + (if frac.len() > 1 {
        digit_value(frac[1])
    } else {
        0
    })
}

/// The digits of `s` before its first point.
pub open spec fn whole_part(s: Seq<char>) -> Seq<char> {
    s.take(first_index(s, '.'))
}

/// What follows the first point of `s`; empty if `s` has no point.
pub open spec fn fraction_part(s: Seq<char>) -> Seq<char> {
    if first_index(s, '.') < s.len() {
        s.skip(first_index(s, '.') + 1)
    } else {
        Seq::<char>::empty()
    }
}

/// Whether `s` writes a position: decimal digits, optionally a point and more
/// digits, with at least one digit in all. No sign and no exponent.
pub open spec fn is_position_text(s: Seq<char>) -> bool {
    &&& all_digits(whole_part(s))
    &&& all_digits(fraction_part(s))
    &&& whole_part(s).len() + fraction_part(s).len() > 0
}

/// The position that `s` writes, in hundredths: digits after the second
/// fractional one are cut off, not rounded.
pub open spec fn position_hundredths(s: Seq<char>) -> nat {
    decimal_value(whole_part(s)) * 100 + hundredths(fraction_part(s))
}

/// The position that `s` writes, in hundredths and held to the range of
/// `u32`; nothing if `s` does not write a position.
pub open spec fn position_of_text(s: Seq<char>) -> Option<u32> {
    if is_position_text(s) {
        if position_hundredths(s) > u32::MAX {
            Some(u32::MAX)
        } else {
            Some(position_hundredths(s) as u32)
        }
    } else {
        None
    }
}

/// The number of tenths nearest to `p` hundredths; of two that are equally
/// near, the even one.
pub open spec fn nearest_tenths(p: nat) -> nat {
    if p % 10 > 5 || (p % 10 == 5 && (p / 10) % 2 == 1) {
        p / 10 + 1
    } else {
        p / 10
    }
}

/// How a position of `p` hundredths is written: the whole part, a point, and
/// one fractional digit.
pub open spec fn position_text(p: u32) -> Seq<char> {
    digits_of(nearest_tenths(p as nat) / 10).push('.').push(
        digit_char(nearest_tenths(p as nat) % 10),
    )
}

/// The integer that `s` writes: an optional sign and at least one decimal
/// digit, with a value in the range of `i64`.
pub open spec fn integer_of_text(s: Seq<char>) -> Option<i64> {
    let signed = s.len() > 0 && (s[0] == '-' || s[0] == '+');
    let digits = if signed {
        s.skip(1)
    } else {
        s
    };
    let magnitude = decimal_value(digits);
    let value = if s.len() > 0 && s[0] == '-' {
        -magnitude
    } else {
        magnitude as int
    };
    if digits.len() > 0 && all_digits(digits) && i64::MIN <= value <= i64::MAX {
        Some(value as i64)
    } else {
        None
    }
}

/// The first `c` of `s` stands where no `c` stands before and `c` or the end
/// of `s` is reached.
pub proof fn lemma_first_index(s: Seq<char>, c: char, i: int)
    requires
        0 <= i <= s.len(),
        forall|j: int| 0 <= j < i ==> s[j] != c,
    ensures
        i <= first_index(s, c) <= s.len(),
        i == s.len() || s[i] == c ==> first_index(s, c) == i,
    decreases i,
{
    if i > 0 {
        assert forall|j: int| 0 <= j < i - 1 implies s.drop_first()[j] != c by {
            assert(s.drop_first()[j] == s[j + 1]);
        }
        lemma_first_index(s.drop_first(), c, i - 1);
    } else {
        lemma_first_index_bound(s, c);
    }
}

proof fn lemma_first_index_bound(s: Seq<char>, c: char)
    ensures
        0 <= first_index(s, c) <= s.len(),
    decreases s.len(),
{
    if s.len() > 0 && s.first() != c {
        lemma_first_index_bound(s.drop_first(), c);
    }
}

/// The digit for a number below ten is a digit and stands for that number.
pub proof fn lemma_digit_char(d: nat)
    requires
        d < 10,
    ensures
        is_digit(digit_char(d)),
        digit_value(digit_char(d)) == d,
        digit_char(d) != '.',
{
}

/// `digits_of` writes digits only, at least one, and they write `n`.
pub proof fn lemma_digits_of(n: nat)
    ensures
        digits_of(n).len() > 0,
        all_digits(digits_of(n)),
        decimal_value(digits_of(n)) == n,
    decreases n,
{
    if n < 10 {
        lemma_digit_char(n);
        assert(digits_of(n).drop_last() =~= Seq::<char>::empty());
        assert(decimal_value(Seq::<char>::empty()) == 0);
    } else {
        lemma_digits_of(n / 10);
        lemma_digit_char(n % 10);
        assert(digits_of(n).drop_last() =~= digits_of(n / 10));
    }
}

/// Reading back a position as it is written gives the number of tenths it was
/// rounded to, in hundredths and held to the range of `u32`.
pub proof fn lemma_position_text_reads_back(p: u32)
    ensures
        is_position_text(position_text(p)),
        position_hundredths(position_text(p)) == 10 * nearest_tenths(p as nat),
        position_of_text(position_text(p)) == Some(p) <==> p % 10 == 0 || p == u32::MAX,
{
    let t = nearest_tenths(p as nat);
    let whole = digits_of(t / 10);
    let text = position_text(p);
    lemma_digits_of(t / 10);
    lemma_digit_char(t % 10);
    assert forall|j: int| 0 <= j < whole.len() implies text[j] != '.' by {
        assert(text[j] == whole[j]);
        assert(is_digit(whole[j]));
    }
    lemma_first_index(text, '.', whole.len() as int);
    assert(whole_part(text) =~= whole);
    assert(fraction_part(text) =~= seq![digit_char(t % 10)]);
}

/// A written position holds digits and one point, nothing else.
pub proof fn lemma_position_text_chars(p: u32)
    ensures
        forall|k: int|
            0 <= k < position_text(p).len() ==> is_digit(#[trigger] position_text(p)[k])
                || position_text(p)[k] == '.',
{
    let t = nearest_tenths(p as nat);
    let whole = digits_of(t / 10);
    lemma_digits_of(t / 10);
    lemma_digit_char(t % 10);
    assert forall|k: int| 0 <= k < position_text(p).len() implies is_digit(
        #[trigger] position_text(p)[k],
    ) || position_text(p)[k] == '.' by {
        if k < whole.len() {
            assert(position_text(p)[k] == whole[k]);
        }
    }
}

/// Reading cuts a position off after its second fractional digit: whatever
/// digits follow, the result is that of the first two.
pub proof fn lemma_position_cut_off(whole: Seq<char>, d1: char, d2: char, more: Seq<char>)
    requires
        all_digits(whole),
        is_digit(d1),
        is_digit(d2),
        all_digits(more),
    ensures
        is_position_text(whole + seq!['.', d1, d2] + more),
        position_hundredths(whole + seq!['.', d1, d2] + more) == decimal_value(whole) * 100
            + digit_value(d1) * 10 + digit_value(d2),
        position_of_text(whole + seq!['.', d1, d2] + more) == position_of_text(
            whole + seq!['.', d1, d2],
        ),
{
    let short = whole + seq!['.', d1, d2];
    let long = short + more;
    assert forall|j: int| 0 <= j < whole.len() implies long[j] != '.' && short[j] != '.' by {
        assert(long[j] == whole[j] && short[j] == whole[j]);
        assert(is_digit(whole[j]));
    }
    lemma_first_index(long, '.', whole.len() as int);
    lemma_first_index(short, '.', whole.len() as int);
    assert(whole_part(long) =~= whole);
    assert(whole_part(short) =~= whole);
    assert(fraction_part(long) =~= seq![d1, d2] + more);
    assert(fraction_part(short) =~= seq![d1, d2]);
    assert forall|k: int| 0 <= k < fraction_part(long).len() implies is_digit(
        #[trigger] fraction_part(long)[k],
    ) by {
        if k >= 2 {
            assert(fraction_part(long)[k] == more[k - 2]);
        }
    }
}

/// Tests whether `c` is a decimal digit.
pub fn digit(c: char) -> (b: bool)
    ensures
        b == is_digit(c),
{
    '0' <= c && c <= '9'
}

/// The number that the digit `c` stands for.
pub fn value_of_digit(c: char) -> (d: u8)
    requires
        is_digit(c),
    ensures
        d == digit_value(c),
        d < 10,
{
    (c as u32 - '0' as u32) as u8
}

/// The digit that stands for `d`.
pub fn digit_for(d: u8) -> (c: char)
    requires
        d < 10,
    ensures
        c == digit_char(d as nat),
{
    (d + 48u8) as char
}

/// Writes `n` in base ten.
pub fn write_decimal(n: u64) -> (v: Vec<char>)
    ensures
        v@ == digits_of(n as nat),
    decreases n,
{
    if n < 10 {
        let mut v: Vec<char> = Vec::new();
        v.push(digit_for(n as u8));
        assert(v@ =~= digits_of(n as nat));
        v
    } else {
        let mut v = write_decimal(n / 10);
        v.push(digit_for((n % 10) as u8));
        v
    }
}

/// Writes a position of `p` hundredths with one fractional digit.
pub fn write_position(p: u32) -> (v: Vec<char>)
    ensures
        v@ == position_text(p),
{
    let q: u64 = (p / 10) as u64;
    let r: u32 = p % 10;
    let t: u64 = if r > 5 || (r == 5 && q % 2 == 1) {
        q + 1
    } else {
        q
    };
    let mut v = write_decimal(t / 10);
    v.push('.');
    v.push(digit_for((t % 10) as u8));
    v
}

/// Reads a position: see `position_of_text`.
pub fn read_position(s: &Vec<char>) -> (r: Option<u32>)
    ensures
        r == position_of_text(s@),
{
    let n = s.len();
    let mut whole: u64 = 0;
    let mut i: usize = 0;
    while i < n && s[i] != '.'
        invariant
            n == s.len(),
            i <= n,
            forall|j: int| 0 <= j < i ==> s@[j] != '.' && is_digit(#[trigger] s@[j]),
            whole <= 100_000_000,
            whole == if decimal_value(s@.take(i as int)) > 100_000_000 {
                100_000_000
            } else {
                decimal_value(s@.take(i as int))
            },
        decreases n - i,
    {
        if !digit(s[i]) {
            proof {
                lemma_first_index(s@, '.', i as int + 1);
                assert(whole_part(s@)[i as int] == s@[i as int]);
            }
            return None;
        }
        assert(s@.take(i + 1).drop_last() =~= s@.take(i as int));
        let d = value_of_digit(s[i]);
        whole = whole * 10 + d as u64;
        if whole > 100_000_000 {
            whole = 100_000_000;
        }
        i += 1;
    }
    proof {
        lemma_first_index(s@, '.', i as int);
        assert(all_digits(whole_part(s@)));
    }
    let mut tail: u64 = 0;
    if i < n {
        let mut j: usize = i + 1;
        while j < n
            invariant
                n == s.len(),
                i < j <= n,
                first_index(s@, '.') == i,
                forall|k: int| i < k < j ==> is_digit(#[trigger] s@[k]),
            decreases n - j,
        {
            if !digit(s[j]) {
                assert(fraction_part(s@)[j - i - 1] == s@[j as int]);
                return None;
            }
            j += 1;
        }
        assert(all_digits(fraction_part(s@))) by {
            assert forall|k: int| 0 <= k < fraction_part(s@).len() implies is_digit(
                #[trigger] fraction_part(s@)[k],
            ) by {
                assert(fraction_part(s@)[k] == s@[i + 1 + k]);
            }
        }
        if i + 1 < n {
            tail = 10 * value_of_digit(s[i + 1]) as u64;
        }
        if n - i > 2 {
            tail = tail + value_of_digit(s[i + 2]) as u64;
        }
        if n == 1 {
            return None;
        }
    } else {
        if n == 0 {
            return None;
        }
    }
    assert(tail == hundredths(fraction_part(s@)));
    let total: u64 = whole * 100 + tail;
    if total > u32::MAX as u64 {
        Some(u32::MAX)
    } else {
        Some(total as u32)
    }
}

/// Reads a signed integer: see `integer_of_text`.
pub fn read_integer(s: &Vec<char>) -> (r: Option<i64>)
    ensures
        r == integer_of_text(s@),
{
    let n = s.len();
    if n == 0 {
        return None;
    }
    let negative = s[0] == '-';
    let start: usize = if s[0] == '-' || s[0] == '+' {
        1
    } else {
        0
    };
    if start == n {
        return None;
    }
    let ghost digits = if s@[0] == '-' || s@[0] == '+' {
        s@.skip(1)
    } else {
        s@
    };
    assert(digits =~= s@.skip(start as int));
    let mut magnitude: u128 = 0;
    let mut i: usize = start;
    while i < n
        invariant
            n == s.len(),
            start <= i <= n,
            n > 0,
            digits == s@.skip(start as int),
            digits == if s@[0] == '-' || s@[0] == '+' {
                s@.skip(1)
            } else {
                s@
            },
            forall|j: int| 0 <= j < i - start ==> is_digit(#[trigger] digits[j]),
            magnitude <= 10_000_000_000_000_000_000,
            magnitude == if decimal_value(digits.take(i - start)) > 10_000_000_000_000_000_000 {
                10_000_000_000_000_000_000
            } else {
                decimal_value(digits.take(i - start))
            },
        decreases n - i,
    {
        if !digit(s[i]) {
            assert(digits[i - start] == s@[i as int]);
            assert(!all_digits(digits));
            return None;
        }
        assert(digits.take(i - start + 1).drop_last() =~= digits.take(i - start));
        assert(digits.take(i - start + 1).last() == s@[i as int]);
        magnitude = magnitude * 10 + value_of_digit(s[i]) as u128;
        if magnitude > 10_000_000_000_000_000_000 {
            magnitude = 10_000_000_000_000_000_000;
        }
        i += 1;
    }
    assert(digits.take(n - start) =~= digits);
    if negative {
        if magnitude > 9_223_372_036_854_775_808 {
            None
        } else if magnitude == 9_223_372_036_854_775_808 {
            Some(i64::MIN)
        } else {
            Some(-(magnitude as i64))
        }
    } else {
        if magnitude > 9_223_372_036_854_775_807 {
            None
        } else {
            Some(magnitude as i64)
        }
    }
}

} // verus!
