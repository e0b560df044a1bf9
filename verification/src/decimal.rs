use vstd::prelude::*;
use vstd::string::is_ascii_spec_bytes;
use crate::fixed::{MAX_VALUE, SCALE};

verus! {

/// Whether `c` is one of the ten decimal digits.
pub open spec fn is_digit(c: char) -> bool {
    '0' <= c <= '9'
}

/// The number that a decimal digit stands for.
pub open spec fn digit_value(c: char) -> nat {
    (c as int - '0' as int) as nat
}

/// Whether every character of `s` is a decimal digit.
pub open spec fn all_digits(s: Seq<char>) -> bool {
    forall|i: int| 0 <= i < s.len() ==> is_digit(#[trigger] s[i])
}

/// The number that a run of decimal digits writes, most significant digit first.
pub open spec fn digits_value(s: Seq<char>) -> nat
    decreases s.len(),
{
    if s.len() == 0 {
        0
    } else {
        digits_value(s.drop_last()) * 10 + digit_value(s.last())
    }
}

/// Ten to the power of `n`.
pub open spec fn pow10(n: nat) -> nat
    decreases n,
{
    if n == 0 {
        1
    } else {
        10 * pow10((n - 1) as nat)
    }
}

/// Index of the first decimal point in `s`, or its length where it has none.
pub open spec fn point_index(s: Seq<char>) -> int
    decreases s.len(),
{
    if s.len() == 0 || s[0] == '.' {
        0
    } else {
        1 + point_index(s.drop_first())
    }
}

/// What an unsigned decimal stands for in fixed-point units: digits, then
/// optionally a point and at most eight more digits, with a digit on at least
/// one side of the point. `None` for any other text and for a value beyond
/// `MAX_VALUE`.
pub open spec fn magnitude(s: Seq<char>) -> Option<int> {
    let dot = point_index(s);
    let whole = s.subrange(0, dot);
    let frac = if dot < s.len() {
        s.subrange(dot + 1, s.len() as int)
    } else {
        Seq::<char>::empty()
    };
    let v = digits_value(whole) * SCALE + digits_value(frac) * pow10((8 - frac.len()) as nat);
    if all_digits(whole) && all_digits(frac) && whole.len() + frac.len() >= 1 && frac.len() <= 8
        && v <= MAX_VALUE {
        Some(v)
    } else {
        None
    }
}

/// What a decimal text stands for in fixed-point units: an optional sign in
/// front of an unsigned decimal.
pub open spec fn decimal_value(s: Seq<char>) -> Option<int> {
    if s.len() > 0 && s[0] == '-' {
        match magnitude(s.drop_first()) {
            Some(v) => Some(-v),
            None => None,
        }
    } else if s.len() > 0 && s[0] == '+' {
        magnitude(s.drop_first())
    } else {
        magnitude(s)
    }
}

/// The first point of a text lies where no point comes before and a point
/// or the end stands.
pub proof fn lemma_point_index(s: Seq<char>, i: int)
    requires
        0 <= i <= s.len(),
        forall|j: int| 0 <= j < i ==> s[j] != '.',
        i == s.len() || s[i] == '.',
    ensures
        point_index(s) == i,
    decreases i,
{
    if i > 0 {
        let t = s.drop_first();
        assert forall|j: int| 0 <= j < i - 1 implies t[j] != '.' by {
            assert(t[j] == s[j + 1]);
        }
        lemma_point_index(t, i - 1);
    }
}

/// A run of digits writes no smaller number than any of its beginnings.
pub proof fn lemma_digits_value_prefix(s: Seq<char>, a: int, b: int)
    requires
        0 <= a <= b <= s.len(),
    ensures
        digits_value(s.subrange(0, a)) <= digits_value(s.subrange(0, b)),
    decreases b - a,
{
    if a < b {
        lemma_digits_value_prefix(s, a, b - 1);
        assert(s.subrange(0, b).drop_last() =~= s.subrange(0, b - 1));
    }
}

proof fn lemma_point_index_range(s: Seq<char>, m: int)
    requires
        0 <= m <= s.len(),
        forall|j: int| 0 <= j < m ==> s[j] != '.',
    ensures
        m <= point_index(s) <= s.len(),
    decreases s.len(),
{
    if s.len() > 0 && s[0] != '.' {
        let t = s.drop_first();
        if m > 0 {
            assert forall|j: int| 0 <= j < m - 1 implies t[j] != '.' by {
                assert(t[j] == s[j + 1]);
            }
            lemma_point_index_range(t, m - 1);
        } else {
            lemma_point_index_range(t, 0);
        }
    }
}

/// The powers of ten up to the eighth.
pub proof fn lemma_pow10_values()
    ensures
        pow10(0) == 1,
        pow10(1) == 10,
        pow10(2) == 100,
        pow10(3) == 1_000,
        pow10(4) == 10_000,
        pow10(5) == 100_000,
        pow10(6) == 1_000_000,
        pow10(7) == 10_000_000,
        pow10(8) == 100_000_000,
{
    reveal_with_fuel(pow10, 10);
}

/// Reads an unsigned decimal from `bytes[start..]`, whose characters are `s`.
fn parse_magnitude(bytes: &[u8], start: usize, Ghost(s): Ghost<Seq<char>>) -> (r: Option<i64>)
    requires
        start <= bytes@.len(),
        s.len() + start == bytes@.len(),
        forall|i: int| 0 <= i < s.len() ==> s[i] as int == (#[trigger] bytes@[start + i]) as int,
    ensures
        match r {
            Some(v) => magnitude(s) == Some(v as int),
            None => magnitude(s) is None,
        },
{
    let n: usize = bytes.len();
    let limit: u64 = 10_000_000;
    let mut i: usize = start;
    let mut whole: u64 = 0;
    while i < n && bytes[i] != 46u8
        invariant
            start <= i <= n,
            n == bytes@.len(),
            s.len() + start == n,
            limit == 10_000_000,
            forall|k: int| 0 <= k < s.len() ==> s[k] as int == (#[trigger] bytes@[start + k]) as int,
            forall|j: int| 0 <= j < i - start ==> s[j] != '.',
            all_digits(s.subrange(0, i - start)),
            whole == digits_value(s.subrange(0, i - start)),
            whole <= limit,
        decreases n - i,
    {
        let b: u8 = bytes[i];
        let ghost k = i - start;
        proof {
            assert(s[k] as int == bytes@[start + k] as int);
            assert(s[k] != '.');
            assert(s.subrange(0, k + 1).drop_last() =~= s.subrange(0, k));
            lemma_point_index_range(s, k + 1);
        }
        if b < 48u8 || b > 57u8 {
            proof {
                assert(s.subrange(0, point_index(s))[k] == s[k]);
            }
            return None;
        }
        let d: u64 = (b - 48u8) as u64;
        let next: u64 = whole * 10 + d;
        proof {
            assert(is_digit(s[k]));
            assert(next == digits_value(s.subrange(0, k + 1)));
        }
        if next > limit {
            proof {
                let dot = point_index(s);
                let w = s.subrange(0, dot);
                lemma_digits_value_prefix(w, k + 1, dot);
                assert(w.subrange(0, k + 1) =~= s.subrange(0, k + 1));
                assert(w.subrange(0, dot) =~= w);
                assert(digits_value(w) * SCALE > MAX_VALUE) by (nonlinear_arith)
                    requires
                        digits_value(w) > 10_000_000,
                        SCALE == 100_000_000,
                        MAX_VALUE == 1_000_000_000_000_000,
                ;
            }
            return None;
        }
        whole = next;
        i = i + 1;
        proof {
            assert forall|j: int| 0 <= j < k + 1 implies is_digit(
                #[trigger] s.subrange(0, k + 1)[j],
            ) by {
                if j < k {
                    assert(s.subrange(0, k)[j] == s[j]);
                }
            }
        }
    }
    let whole_len: usize = i - start;
    let ghost dot: int = i - start;
    proof {
        if i < n {
            assert(s[dot] as int == bytes@[start + dot] as int);
        }
        lemma_point_index(s, dot);
        lemma_pow10_values();
    }
    let mut frac: u64 = 0;
    let mut count: usize = 0;
    if i < n {
        i = i + 1;
        while i < n
            invariant
                i == start + dot + 1 + count,
                0 <= dot,
                dot + 1 <= s.len(),
                point_index(s) == dot,
                i <= n,
                n == bytes@.len(),
                s.len() + start == n,
                forall|k: int| 0 <= k < s.len() ==> s[k] as int == (#[trigger] bytes@[start + k]) as int,
                count <= 8,
                all_digits(s.subrange(dot + 1, dot + 1 + count)),
                frac == digits_value(s.subrange(dot + 1, dot + 1 + count)),
                frac < pow10(count as nat),
                pow10(count as nat) <= 100_000_000,
            decreases n - i,
        {
            let b: u8 = bytes[i];
            let ghost k = i - start;
            let ghost tail = s.subrange(dot + 1, s.len() as int);
            proof {
                assert(s[k] as int == bytes@[start + k] as int);
                assert(tail[k - dot - 1] == s[k]);
            }
            if b < 48u8 || b > 57u8 || count == 8 {
                return None;
            }
            let d: u64 = (b - 48u8) as u64;
            proof {
                assert(s.subrange(dot + 1, k + 1).drop_last() =~= s.subrange(dot + 1, k));
                assert(is_digit(s[k]));
                assert forall|j: int| 0 <= j < k - dot implies is_digit(
                    #[trigger] s.subrange(dot + 1, k + 1)[j],
                ) by {
                    if j < k - dot - 1 {
                        assert(s.subrange(dot + 1, k)[j] == s[dot + 1 + j]);
                    }
                }
                lemma_pow10_values();
                assert(pow10((count + 1) as nat) == 10 * pow10(count as nat));
            }
            frac = frac * 10 + d;
            count = count + 1;
            i = i + 1;
        }
        proof {
            assert(s.subrange(dot + 1, dot + 1 + count) =~= s.subrange(dot + 1, s.len() as int));
        }
    }
    let ghost fr: Seq<char> = if dot < s.len() {
        s.subrange(dot + 1, s.len() as int)
    } else {
        Seq::<char>::empty()
    };
    proof {
        if dot < s.len() {
            assert(fr =~= s.subrange(dot + 1, dot + 1 + count));
        }
        assert(fr.len() == count);
        assert(frac == digits_value(fr));
        assert(all_digits(fr));
        assert(frac * pow10(0) == frac) by (nonlinear_arith)
            requires
                pow10(0) == 1,
        ;
    }
    if whole_len + count == 0 {
        return None;
    }
    let mut pad: usize = count;
    let mut scaled: u64 = frac;
    while pad < 8
        invariant
            count <= pad <= 8,
            scaled == frac * pow10((pad - count) as nat),
            scaled < pow10(pad as nat),
            pow10(pad as nat) <= 100_000_000,
        decreases 8 - pad,
    {
        proof {
            lemma_pow10_values();
            assert(pow10((pad + 1) as nat) == 10 * pow10(pad as nat));
            assert(pow10((pad + 1 - count) as nat) == 10 * pow10((pad - count) as nat));
            assert(frac * (10 * pow10((pad - count) as nat)) == 10 * (frac * pow10(
                (pad - count) as nat,
            ))) by (nonlinear_arith);
        }
        scaled = scaled * 10;
        pad = pad + 1;
    }
    let v: u64 = whole * 100_000_000 + scaled;
    if v > 1_000_000_000_000_000 {
        None
    } else {
        Some(v as i64)
    }
}

/// Reads a decimal text into fixed-point units.
pub fn parse_decimal(text: &str) -> (r: Option<i64>)
    ensures
        match r {
            Some(v) => decimal_value(text@) == Some(v as int),
            None => decimal_value(text@) is None,
        },
{
    if !text.is_ascii() {
        proof {
            lemma_not_ascii_not_decimal(text@);
        }
        return None;
    }
    let bytes = text.as_bytes();
    proof {
        is_ascii_spec_bytes(text);
    }
    let n: usize = bytes.len();
    if n > 0 && (bytes[0] == 45u8 || bytes[0] == 43u8) {
        let ghost rest = text@.drop_first();
        let m = parse_magnitude(bytes, 1, Ghost(rest));
        match m {
            Some(v) => if bytes[0] == 45u8 {
                Some(-v)
            } else {
                Some(v)
            },
            None => None,
        }
    } else {
        parse_magnitude(bytes, 0, Ghost(text@))
    }
}

/// A text with a character outside ASCII is no decimal.
pub proof fn lemma_not_ascii_not_decimal(s: Seq<char>)
    requires
        !vstd::utf8::is_ascii_chars(s),
    ensures
        decimal_value(s) is None,
{
    let i = choose|i: int| 0 <= i < s.len() && !('\0' <= #[trigger] s[i] <= '\u{7f}');
    assert(s[i] != '.' && s[i] != '-' && s[i] != '+' && !is_digit(s[i]));
    if decimal_value(s) is Some {
        if s[0] == '-' || s[0] == '+' {
            assert(s.drop_first()[i - 1] == s[i]);
            lemma_magnitude_chars(s.drop_first(), i - 1);
        } else {
            lemma_magnitude_chars(s, i);
        }
    }
}

/// Every character of an unsigned decimal is a digit or a point.
proof fn lemma_magnitude_chars(s: Seq<char>, i: int)
    requires
        0 <= i < s.len(),
        magnitude(s) is Some,
    ensures
        is_digit(s[i]) || s[i] == '.',
{
    let dot = point_index(s);
    lemma_point_index_range(s, 0);
    if i < dot {
        assert(s.subrange(0, dot)[i] == s[i]);
    } else if i == dot {
        lemma_point_index_is_point(s);
    } else {
        assert(s.subrange(dot + 1, s.len() as int)[i - dot - 1] == s[i]);
    }
}

proof fn lemma_point_index_is_point(s: Seq<char>)
    ensures
        0 <= point_index(s) <= s.len(),
        point_index(s) < s.len() ==> s[point_index(s)] == '.',
    decreases s.len(),
{
    if s.len() > 0 && s[0] != '.' {
        lemma_point_index_is_point(s.drop_first());
    }
}

/// A decimal's value lies within the range of fixed-point values.
pub proof fn lemma_decimal_range(s: Seq<char>)
    ensures
        decimal_value(s) matches Some(v) ==> -MAX_VALUE <= v <= MAX_VALUE,
{
}

} // verus!
