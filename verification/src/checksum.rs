use vstd::prelude::*;
use crate::decimal::{
    all_digits, decimal_value, digit_value, digits_value, is_digit, lemma_point_index,
    lemma_pow10_values, magnitude, point_index, pow10,
};
use crate::fixed::{MAX_VALUE, SCALE};
use crate::side::{level_ok, BookSide, PriceLevel};

verus! {

/// Number of ranks on each side that the checksum covers.
pub const CHECKSUM_DEPTH: usize = 25;

/// The CRC-32 polynomial, bits reflected.
pub const CRC_POLYNOMIAL: u32 = 0xEDB8_8320;

/// One step of the reflected CRC-32 division.
pub open spec fn crc_bit(c: u32) -> u32 {
    if c & 1 == 1 {
        (c >> 1) ^ CRC_POLYNOMIAL
    } else {
        c >> 1
    }
}

/// The register after one more byte.
pub open spec fn crc_byte(c: u32, b: u8) -> u32 {
    crc_bit(crc_bit(crc_bit(crc_bit(crc_bit(crc_bit(crc_bit(crc_bit(c ^ (b as u32)))))))))
}

/// The register after the bytes of `s`, starting from `c`.
pub open spec fn crc_bytes(c: u32, s: Seq<u8>) -> u32
    decreases s.len(),
{
    if s.len() == 0 {
        c
    } else {
        crc_byte(crc_bytes(c, s.drop_last()), s.last())
    }
}

/// CRC-32 of `s`: polynomial `0xEDB88320` reflected, register and result
/// inverted.
pub open spec fn crc32_of(s: Seq<u8>) -> u32 {
    crc_bytes(0xFFFF_FFFF, s) ^ 0xFFFF_FFFF
}

/// A 32-bit value read as a signed number.
pub open spec fn signed32(c: u32) -> int {
    if c >= 0x8000_0000 {
        c - 0x1_0000_0000
    } else {
        c as int
    }
}

/// The decimal digits of `n`, least significant first.
pub open spec fn low_digits(n: nat) -> Seq<u8>
    decreases n,
{
    if n < 10 {
        seq![(48 + n) as u8]
    } else {
        seq![(48 + n % 10) as u8] + low_digits(n / 10)
    }
}

/// The digits of a fraction `f` of `width` digits, without the zeros at its
/// end.
pub open spec fn frac_text(f: nat, width: nat) -> Seq<u8>
    decreases width,
{
    if f == 0 || width == 0 {
        Seq::<u8>::empty()
    } else {
        let p = pow10((width - 1) as nat);
        seq![(48 + f / p) as u8] + frac_text(f % p, (width - 1) as nat)
    }
}

/// A fixed-point value in its shortest decimal writing: a minus sign where
/// it is negative, the whole part, and where the fraction is not zero a
/// point and the fraction without the zeros at its end.
pub open spec fn decimal_text(v: int) -> Seq<u8> {
    let a = if v < 0 {
        -v
    } else {
        v
    };
    let sign = if v < 0 {
        seq![45u8]
    } else {
        Seq::<u8>::empty()
    };
    let frac = a % (SCALE as int);
    let tail = if frac == 0 {
        Seq::<u8>::empty()
    } else {
        seq![46u8] + frac_text(frac as nat, 8)
    };
    sign + low_digits((a / (SCALE as int)) as nat).reverse() + tail
}

/// Price and size of a level, with a colon between them.
pub open spec fn level_text(l: PriceLevel) -> Seq<u8> {
    decimal_text(l.price as int) + seq![58u8] + decimal_text(l.size as int)
}

/// `t` with the field `f` behind it, after a colon where `t` holds a field.
pub open spec fn append_field(t: Seq<u8>, f: Seq<u8>) -> Seq<u8> {
    if t.len() == 0 {
        f
    } else {
        t + seq![58u8] + f
    }
}

/// The text that the checksum is taken of, for the first `ranks` ranks: rank
/// by rank from the best, the bid of that rank and then the ask, each where
/// the side reaches so far, all fields joined with colons. Both sides are
/// given in rising order of price.
pub open spec fn ranked_text(bids: Seq<PriceLevel>, asks: Seq<PriceLevel>, ranks: nat) -> Seq<u8>
    decreases ranks,
{
    if ranks == 0 {
        Seq::<u8>::empty()
    } else {
        let r = (ranks - 1) as int;
        let t0 = ranked_text(bids, asks, (ranks - 1) as nat);
        let t1 = if r < bids.len() {
            append_field(t0, level_text(bids[bids.len() - 1 - r]))
        } else {
            t0
        };
        if r < asks.len() {
            append_field(t1, level_text(asks[r]))
        } else {
            t1
        }
    }
}

/// The checksum of a book with these sides: the CRC-32 of the text of its
/// best 25 ranks, read as a signed 32-bit number. A feed that writes its
/// numbers in their shortest form sends this number with each push.
pub open spec fn checksum_of(bids: Seq<PriceLevel>, asks: Seq<PriceLevel>) -> int {
    signed32(crc32_of(ranked_text(bids, asks, CHECKSUM_DEPTH as nat)))
}

fn crc_step(c: u32) -> (r: u32)
    ensures
        r == crc_bit(c),
{
    if c & 1 == 1 {
        (c >> 1) ^ CRC_POLYNOMIAL
    } else {
        c >> 1
    }
}

/// CRC-32 of `bytes`.
pub fn crc32(bytes: &[u8]) -> (r: u32)
    ensures
        r == crc32_of(bytes@),
{
    let mut c: u32 = 0xFFFF_FFFF;
    let mut i: usize = 0;
    while i < bytes.len()
        invariant
            i <= bytes@.len(),
            c == crc_bytes(0xFFFF_FFFF, bytes@.subrange(0, i as int)),
        decreases bytes@.len() - i,
    {
        proof {
            assert(bytes@.subrange(0, i + 1).drop_last() =~= bytes@.subrange(0, i as int));
        }
        let mut x: u32 = c ^ (bytes[i] as u32);
        x = crc_step(x);
        x = crc_step(x);
        x = crc_step(x);
        x = crc_step(x);
        x = crc_step(x);
        x = crc_step(x);
        x = crc_step(x);
        x = crc_step(x);
        c = x;
        i = i + 1;
    }
    proof {
        assert(bytes@.subrange(0, i as int) =~= bytes@);
    }
    c ^ 0xFFFF_FFFF
}

/// Writes the digits of `n`, most significant first, behind `out`.
fn push_whole(out: &mut Vec<u8>, n: u64)
    ensures
        final(out)@ == old(out)@ + low_digits(n as nat).reverse(),
{
    let ghost base = out@;
    let mut tmp: Vec<u8> = Vec::new();
    let mut m: u64 = n;
    while m >= 10
        invariant
            low_digits(n as nat) == tmp@ + low_digits(m as nat),
        decreases m,
    {
        let ghost before = tmp@;
        tmp.push(48u8 + (m % 10) as u8);
        proof {
            assert(low_digits(m as nat) == seq![(48 + m % 10) as u8] + low_digits((m / 10) as nat));
            assert(before + (seq![(48 + m % 10) as u8] + low_digits((m / 10) as nat)) =~= tmp@
                + low_digits((m / 10) as nat));
        }
        m = m / 10;
    }
    tmp.push(48u8 + m as u8);
    assert(tmp@ =~= low_digits(n as nat));
    let mut i: usize = tmp.len();
    while i > 0
        invariant
            i <= tmp@.len(),
            out@ == base + tmp@.reverse().subrange(0, tmp@.len() - i),
        decreases i,
    {
        i = i - 1;
        let ghost before = out@;
        out.push(tmp[i]);
        proof {
            let r = tmp@.reverse();
            let k = tmp@.len() - i - 1;
            assert(r[k] == tmp@[i as int]);
            assert(r.subrange(0, k + 1) =~= r.subrange(0, k).push(r[k]));
            assert(out@ =~= base + r.subrange(0, k + 1));
        }
    }
    proof {
        assert(tmp@.reverse().subrange(0, tmp@.len() as int) =~= tmp@.reverse());
    }
}

/// Writes the digits of the fraction `f`, which has eight of them, behind
/// `out`, up to its last digit that is not zero.
fn push_fraction(out: &mut Vec<u8>, f: u64)
    requires
        f < 100_000_000,
    ensures
        final(out)@ == old(out)@ + frac_text(f as nat, 8),
{
    let ghost base = out@;
    let mut rest: u64 = f;
    let mut width: u32 = 8;
    let mut p: u64 = 10_000_000;
    let ghost mut done: Seq<u8> = Seq::<u8>::empty();
    proof {
        crate::decimal::lemma_pow10_values();
    }
    while rest != 0 && width > 0
        invariant
            width <= 8,
            width > 0 ==> p == pow10((width - 1) as nat),
            rest < pow10(width as nat),
            out@ == base + done,
            frac_text(f as nat, 8) == done + frac_text(rest as nat, width as nat),
        decreases width,
    {
        proof {
            crate::decimal::lemma_pow10_values();
            assert(pow10(width as nat) == 10 * pow10((width - 1) as nat));
            assert(0 < p <= 10_000_000);
            assert(rest / p < 10) by (nonlinear_arith)
                requires
                    rest < 10 * p,
                    p > 0,
            ;
            assert(rest % p < p) by (nonlinear_arith)
                requires
                    p > 0,
            ;
        }
        let d: u64 = rest / p;
        let ghost tail = frac_text((rest % p) as nat, (width - 1) as nat);
        proof {
            assert(frac_text(rest as nat, width as nat) == seq![(48 + rest / p) as u8] + tail);
            assert(done + (seq![(48 + d) as u8] + tail) =~= done.push((48 + d) as u8) + tail);
        }
        out.push(48u8 + d as u8);
        proof {
            done = done.push((48 + d) as u8);
            assert(out@ =~= base + done);
        }
        rest = rest % p;
        width = width - 1;
        p = p / 10;
        proof {
            if width > 0 {
                assert(pow10(width as nat) == 10 * pow10((width - 1) as nat));
            }
        }
    }
    proof {
        assert(frac_text(rest as nat, width as nat) =~= Seq::<u8>::empty()) by {
            if width == 0 {
            }
        }
        assert(done + Seq::<u8>::empty() =~= done);
    }
}

/// Writes the shortest decimal writing of `v` behind `out`.
pub fn push_decimal(out: &mut Vec<u8>, v: i64)
    requires
        -MAX_VALUE <= v <= MAX_VALUE,
    ensures
        final(out)@ == old(out)@ + decimal_text(v as int),
{
    let ghost base = out@;
    let a: u64 = if v < 0 {
        (-v) as u64
    } else {
        v as u64
    };
    if v < 0 {
        out.push(45u8);
    }
    let ghost sign = if v < 0 {
        seq![45u8]
    } else {
        Seq::<u8>::empty()
    };
    assert(out@ =~= base + sign);
    let whole: u64 = a / 100_000_000;
    let frac: u64 = a % 100_000_000;
    push_whole(out, whole);
    let ghost digits = low_digits(whole as nat).reverse();
    if frac != 0 {
        out.push(46u8);
        push_fraction(out, frac);
        assert(out@ =~= base + (sign + digits + (seq![46u8] + frac_text(frac as nat, 8))));
    } else {
        assert(out@ =~= base + (sign + digits + Seq::<u8>::empty()));
    }
}

fn push_field(out: &mut Vec<u8>, l: PriceLevel)
    requires
        level_ok(l),
    ensures
        final(out)@ == append_field(old(out)@, level_text(l)),
        final(out)@.len() > 0,
{
    let ghost base = out@;
    if out.len() > 0 {
        out.push(58u8);
    }
    let ghost head = out@;
    push_decimal(out, l.price);
    out.push(58u8);
    let ghost mid = out@;
    push_decimal(out, l.size);
    proof {
        assert(out@ =~= head + (decimal_text(l.price as int) + seq![58u8] + decimal_text(
            l.size as int,
        )));
        if base.len() == 0 {
            assert(head =~= base);
            assert(base + level_text(l) =~= level_text(l));
        } else {
            assert(out@ =~= base + seq![58u8] + level_text(l));
        }
    }
}

/// The checksum of a book with these two sides.
pub fn book_checksum(bids: &BookSide, asks: &BookSide) -> (r: i64)
    requires
        bids.wf(),
        asks.wf(),
    ensures
        r == checksum_of(bids.levels(), asks.levels()),
{
    let mut text: Vec<u8> = Vec::new();
    let nb: usize = bids.len();
    let na: usize = asks.len();
    let mut rank: usize = 0;
    while rank < CHECKSUM_DEPTH
        invariant
            rank <= CHECKSUM_DEPTH,
            bids.wf(),
            asks.wf(),
            nb == bids.levels().len(),
            na == asks.levels().len(),
            text@ == ranked_text(bids.levels(), asks.levels(), rank as nat),
        decreases CHECKSUM_DEPTH - rank,
    {
        if rank < nb {
            push_field(&mut text, bids.level(nb - 1 - rank));
        }
        if rank < na {
            push_field(&mut text, asks.level(rank));
        }
        rank = rank + 1;
    }
    let c: u32 = crc32(text.as_slice());
    if c >= 0x8000_0000 {
        c as i64 - 0x1_0000_0000
    } else {
        c as i64
    }
}

/// The characters that bytes of ASCII write.
pub open spec fn ascii(b: Seq<u8>) -> Seq<char> {
    Seq::new(b.len(), |i: int| b[i] as char)
}

proof fn lemma_digit_char(d: nat)
    requires
        d < 10,
    ensures
        ({
            let c = ((48 + d) as u8) as char;
            is_digit(c) && digit_value(c) == d && c != '.' && c != '-' && c != '+'
        }),
{
}

proof fn lemma_digits_push(t: Seq<char>, c: char)
    ensures
        digits_value(t.push(c)) == digits_value(t) * 10 + digit_value(c),
{
    assert(t.push(c).drop_last() =~= t);
}

proof fn lemma_digits_prepend(c: char, t: Seq<char>)
    ensures
        digits_value(seq![c] + t) == digit_value(c) * pow10(t.len()) + digits_value(t),
    decreases t.len(),
{
    if t.len() == 0 {
        assert(seq![c] + t =~= Seq::<char>::empty().push(c));
        lemma_digits_push(Seq::<char>::empty(), c);
        assert(pow10(0) == 1);
    } else {
        let t1 = t.drop_last();
        lemma_digits_prepend(c, t1);
        assert(seq![c] + t =~= (seq![c] + t1).push(t.last()));
        lemma_digits_push(seq![c] + t1, t.last());
        assert(pow10(t.len()) == 10 * pow10(t1.len()));
        assert((digit_value(c) * pow10(t1.len()) + digits_value(t1)) * 10 + digit_value(t.last())
            == digit_value(c) * (10 * pow10(t1.len())) + (digits_value(t1) * 10 + digit_value(
            t.last(),
        ))) by (nonlinear_arith);
    }
}

proof fn lemma_pow10_add(a: nat, b: nat)
    ensures
        pow10(a) * pow10(b) == pow10(a + b),
    decreases a,
{
    if a > 0 {
        lemma_pow10_add((a - 1) as nat, b);
        assert(pow10(a) == 10 * pow10((a - 1) as nat));
        assert(pow10(a + b) == 10 * pow10((a - 1 + b) as nat));
        assert((10 * pow10((a - 1) as nat)) * pow10(b) == 10 * (pow10((a - 1) as nat) * pow10(b)))
            by (nonlinear_arith);
    } else {
        assert(pow10(0) == 1);
        assert(1 * pow10(b) == pow10(b)) by (nonlinear_arith);
    }
}

/// The digits of a whole number write that number.
proof fn lemma_whole_text(n: nat)
    ensures
        ({
            let t = ascii(low_digits(n).reverse());
            all_digits(t) && t.len() >= 1 && digits_value(t) == n
        }),
    decreases n,
{
    let l = low_digits(n);
    let t = ascii(l.reverse());
    if n < 10 {
        lemma_digit_char(n);
        let c = ((48 + n) as u8) as char;
        assert(l =~= seq![(48 + n) as u8]);
        assert(t =~= Seq::<char>::empty().push(c));
        lemma_digits_push(Seq::<char>::empty(), c);
    } else {
        let d = n % 10;
        lemma_digit_char(d);
        let c = ((48 + d) as u8) as char;
        let l1 = low_digits(n / 10);
        let t1 = ascii(l1.reverse());
        lemma_whole_text(n / 10);
        assert(l == seq![(48 + d) as u8] + l1);
        assert(t =~= t1.push(c)) by {
            assert(t.len() == t1.len() + 1);
            assert forall|i: int| 0 <= i < t.len() implies t[i] == t1.push(c)[i] by {
                assert(l.reverse()[i] == l[l.len() - 1 - i]);
                if i < t1.len() {
                    assert(l1.reverse()[i] == l1[l1.len() - 1 - i]);
                    assert(l[l.len() - 1 - i] == l1[l1.len() - 1 - i]);
                }
            }
        }
        lemma_digits_push(t1, c);
        assert forall|i: int| 0 <= i < t.len() implies is_digit(#[trigger] t[i]) by {
            if i < t1.len() {
                assert(t[i] == t1[i]);
            }
        }
    }
}

/// The digits of a fraction, with the zeros that were left off its end,
/// write that fraction.
proof fn lemma_frac_text(f: nat, w: nat)
    requires
        f < pow10(w),
    ensures
        ({
            let t = ascii(frac_text(f, w));
            &&& all_digits(t)
            &&& t.len() <= w
            &&& digits_value(t) * pow10((w - t.len()) as nat) == f
            &&& f > 0 ==> t.len() >= 1
        }),
    decreases w,
{
    let t = ascii(frac_text(f, w));
    if f == 0 || w == 0 {
        assert(pow10(0) == 1);
        assert(t =~= Seq::<char>::empty());
        assert(0 * pow10((w - 0) as nat) == 0) by (nonlinear_arith);
    } else {
        let p = pow10((w - 1) as nat);
        assert(pow10(w) == 10 * p);
        let d = f / p;
        let r = f % p;
        assert(d < 10 && r < p && f == d * p + r) by (nonlinear_arith)
            requires
                f < 10 * p,
                p > 0,
                d == f / p,
                r == f % p,
        ;
        lemma_digit_char(d);
        let c = ((48 + d) as u8) as char;
        lemma_frac_text(r, (w - 1) as nat);
        let t1 = ascii(frac_text(r, (w - 1) as nat));
        assert(frac_text(f, w) == seq![(48 + d) as u8] + frac_text(r, (w - 1) as nat));
        assert(t =~= seq![c] + t1);
        lemma_digits_prepend(c, t1);
        let rest = (w - 1 - t1.len()) as nat;
        lemma_pow10_add(t1.len(), rest);
        assert((d * pow10(t1.len()) + digits_value(t1)) * pow10(rest) == d * (pow10(t1.len())
            * pow10(rest)) + digits_value(t1) * pow10(rest)) by (nonlinear_arith);
        assert forall|i: int| 0 <= i < t.len() implies is_digit(#[trigger] t[i]) by {
            if i > 0 {
                assert(t[i] == t1[i - 1]);
            }
        }
    }
}

/// The shortest decimal writing of a value in range reads back as that
/// value.
pub proof fn lemma_decimal_text_reads_back(v: int)
    requires
        -MAX_VALUE <= v <= MAX_VALUE,
    ensures
        decimal_value(ascii(decimal_text(v))) == Some(v),
{
    let a = if v < 0 {
        -v
    } else {
        v
    };
    let whole = (a / (SCALE as int)) as nat;
    let frac = (a % (SCALE as int)) as nat;
    lemma_pow10_values();
    lemma_whole_text(whole);
    lemma_frac_text(frac, 8);
    let wt = ascii(low_digits(whole).reverse());
    let ft = ascii(frac_text(frac, 8));
    let body = if frac == 0 {
        wt
    } else {
        wt + seq!['.'] + ft
    };
    let s = ascii(decimal_text(v));
    let dot = wt.len() as int;
    assert forall|j: int| 0 <= j < dot implies body[j] != '.' by {
        assert(body[j] == wt[j]);
        assert(is_digit(wt[j]));
    }
    lemma_point_index(body, dot);
    assert(body.subrange(0, dot) =~= wt);
    if frac == 0 {
        assert(digits_value(Seq::<char>::empty()) == 0);
        assert(0 * pow10(8) == 0) by (nonlinear_arith);
    } else {
        assert(body.subrange(dot + 1, body.len() as int) =~= ft);
    }
    assert(magnitude(body) == Some(a));
    assert(is_digit(body[0])) by {
        assert(body[0] == wt[0]);
    }
    if v < 0 {
        assert(s =~= seq!['-'] + body);
        assert(s.drop_first() =~= body);
    } else {
        assert(s =~= body);
    }
}

} // verus!
