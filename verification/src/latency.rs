use std::time::{SystemTime, UNIX_EPOCH};
use vstd::prelude::*;
use vstd::string::is_ascii_spec_bytes;
use crate::decimal::{all_digits, digits_value, is_digit, lemma_digits_value_prefix};

verus! {

/// `std::time::SystemTime`, a point in time of the system clock. The library
/// carries it from the clock to the function that measures it, and claims
/// nothing of it.
#[verifier::external_type_specification]
#[verifier::external_body]
pub struct ExSystemTime(SystemTime);

/// Nanoseconds in a millisecond.
pub const NANOS_PER_MILLI: u128 = 1_000_000;

/// The number that a run of digits writes, if there is a digit and sixteen
/// bytes hold the number.
pub open spec fn digits_number(digits: Seq<char>) -> Option<u128> {
    if digits.len() > 0 && all_digits(digits) && digits_value(digits) <= u128::MAX {
        Some(digits_value(digits) as u128)
    } else {
        None
    }
}

/// The number that a text writes as an unsigned integer: digits after an
/// optional plus sign.
pub open spec fn unsigned_value(s: Seq<char>) -> Option<u128> {
    if s.len() > 0 && s[0] == '+' {
        digits_number(s.drop_first())
    } else {
        digits_number(s)
    }
}

/// The time that a push carries, in milliseconds since the epoch: the low
/// eight bytes of the number that its text writes.
pub open spec fn stamp_millis(s: Seq<char>) -> Option<u64> {
    match unsigned_value(s) {
        Some(v) => Some((v % 0x1_0000_0000_0000_0000) as u64),
        None => None,
    }
}

/// Nanoseconds from the time that `stamp` writes to `now`, itself in
/// nanoseconds since the epoch. None where the text writes no time, where
/// the clock gave none, or where the stamp lies after `now`.
pub open spec fn latency_of(stamp: Seq<char>, now: Option<u128>) -> Option<u128> {
    match (stamp_millis(stamp), now) {
        (Some(ms), Some(n)) => if ms * NANOS_PER_MILLI <= n {
            Some((n - ms * NANOS_PER_MILLI) as u128)
        } else {
            None
        },
        _ => None,
    }
}

/// Reads an unsigned integer.
pub fn parse_unsigned(text: &str) -> (r: Option<u128>)
    ensures
        r == unsigned_value(text@),
{
    if !text.is_ascii() {
        proof {
            let s = text@;
            let i = choose|i: int| 0 <= i < s.len() && !('\0' <= #[trigger] s[i] <= '\u{7f}');
            assert(!is_digit(s[i]) && s[i] != '+');
            if i > 0 {
                assert(s.drop_first()[i - 1] == s[i]);
            }
        }
        return None;
    }
    let bytes = text.as_bytes();
    proof {
        is_ascii_spec_bytes(text);
    }
    let n: usize = bytes.len();
    let start: usize = if n > 0 && bytes[0] == 43u8 {
        1
    } else {
        0
    };
    let ghost s: Seq<char> = if start == 1 {
        text@.drop_first()
    } else {
        text@
    };
    proof {
        if n > 0 {
            assert(bytes@[0] == text@[0] as u8);
            assert((bytes@[0] == 43u8) == (text@[0] == '+'));
        }
        assert forall|k: int| 0 <= k < s.len() implies s[k] as int == (#[trigger] bytes@[start
            + k]) as int by {
            assert(bytes@[start + k] == text@[start + k] as u8);
        }
    }
    if start == n {
        return None;
    }
    let mut value: u128 = 0;
    let mut i: usize = start;
    while i < n
        invariant
            start <= i <= n,
            n == bytes@.len(),
            s.len() + start == n,
            forall|k: int| 0 <= k < s.len() ==> s[k] as int == (#[trigger] bytes@[start + k]) as int,
            unsigned_value(text@) == digits_number(s),
            all_digits(s.subrange(0, i - start)),
            value == digits_value(s.subrange(0, i - start)),
        decreases n - i,
    {
        let b: u8 = bytes[i];
        let ghost k = i - start;
        proof {
            assert(s[k] as int == bytes@[start + k] as int);
            assert(s.subrange(0, k + 1).drop_last() =~= s.subrange(0, k));
        }
        if b < 48u8 || b > 57u8 {
            proof {
                assert(!is_digit(s[k]));
            }
            return None;
        }
        let next: Option<u128> = match value.checked_mul(10) {
            Some(v) => v.checked_add((b - 48u8) as u128),
            None => None,
        };
        proof {
            assert(is_digit(s[k]));
            assert(digits_value(s.subrange(0, k + 1)) == value * 10 + (b - 48));
        }
        match next {
            Some(v) => {
                value = v;
            },
            None => {
                proof {
                    lemma_digits_value_prefix(s, k + 1, s.len() as int);
                    assert(s.subrange(0, s.len() as int) =~= s);
                }
                return None;
            },
        }
        i = i + 1;
        proof {
            assert forall|j: int| 0 <= j < k + 1 implies is_digit(
                #[trigger] s.subrange(0, k + 1)[j],
            ) by {
                if j < k {
                    assert(s.subrange(0, k)[j] == s[j]);
                }
            }
        }
    }
    proof {
        assert(s.subrange(0, i - start) =~= s);
    }
    Some(value)
}

/// Nanoseconds from the time that `ts_str` writes to `now`.
pub fn latency_at(ts_str: &str, now: Option<u128>) -> (r: Option<u128>)
    ensures
        r == latency_of(ts_str@, now),
{
    match (parse_unsigned(ts_str), now) {
        (Some(v), Some(n)) => {
            let ms: u64 = (v % 0x1_0000_0000_0000_0000) as u64;
            let stamp: u128 = ms as u128 * NANOS_PER_MILLI;
            if stamp <= n {
                Some(n - stamp)
            } else {
                None
            }
        },
        _ => None,
    }
}

/// The present time, from `std::time::SystemTime::now`. Nothing is claimed
/// of the time that comes back.
#[verifier::external_body]
fn system_now() -> SystemTime {
    SystemTime::now()
}

/// Nanoseconds from the epoch to `t`, from
/// `std::time::SystemTime::duration_since` with `UNIX_EPOCH`, whose error,
/// for a time before the epoch, becomes none. Nothing is claimed of the
/// number.
#[verifier::external_body]
fn nanos_since_epoch(t: &SystemTime) -> Option<u128> {
    match t.duration_since(UNIX_EPOCH) {
        Ok(d) => Some(d.as_nanos()),
        Err(_) => None,
    }
}

/// Nanoseconds from the time that `ts_str` writes, in milliseconds since the
/// epoch, to the present time of the system clock.
pub fn calc_latency(ts_str: &str) -> (r: Option<u128>)
    ensures
        exists|now: Option<u128>| r == latency_of(ts_str@, now),
        stamp_millis(ts_str@) is None ==> r is None,
{
    let t = system_now();
    let now = nanos_since_epoch(&t);
    latency_at(ts_str, now)
}

} // verus!
