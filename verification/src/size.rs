//! Byte counts as the explorer shows them: in the largest unit up to TB that
//! the count reaches, with two decimals above plain bytes.
//!
//! The shown value is computed as the count's `f64` value divided by the
//! unit, printed with two decimals. Both steps are stated here exactly, on
//! integers: the conversion to `f64` rounds to the nearest value with 53
//! significant bits, ties to even, and dividing by a power of two is exact;
//! printing with two decimals rounds to the nearest hundredth, ties to even.

use vstd::prelude::*;
use crate::text::{decimal, digit, digit_char, decimal_chars, string_from_chars, numeral_value, law_decimal_reads_back};

verus! {

/// 2^53: below it every integer is an `f64` exactly.
pub const EXACT_DOUBLE_LIMIT: u64 = 9007199254740992;

/// The spacing of the `f64` values around `n`: 1 below 2^53, doubling with
/// each further bit of `n`.
pub open spec fn double_spacing(n: nat) -> nat
    decreases n,
{
    if n < EXACT_DOUBLE_LIMIT {
        1
    } else {
        2 * double_spacing(n / 2)
    }
}

/// `q + r / d` rounded to the nearest integer, ties to even (`r < d`).
pub open spec fn round_half_even(q: nat, r: nat, d: nat) -> nat {
    if 2 * r > d || (2 * r == d && q % 2 == 1) {
        q + 1
    } else {
        q
    }
}

/// The value of `n as f64`: `n` rounded to a multiple of the spacing, ties
/// to an even multiple.
pub open spec fn as_double(n: nat) -> nat {
    let p = double_spacing(n);
    round_half_even(n / p, n % p, p) * p
}

/// 1024 to the power `k`.
pub open spec fn unit_size(k: nat) -> nat
    decreases k,
{
    if k == 0 {
        1
    } else {
        1024 * unit_size((k - 1) as nat)
    }
}

/// The unit a byte count is shown in: the largest of B, KB, MB, GB and TB
/// that the count reaches.
pub open spec fn unit_index(bytes: nat) -> nat {
    if bytes >= unit_size(4) {
        4
    } else if bytes >= unit_size(3) {
        3
    } else if bytes >= unit_size(2) {
        2
    } else if bytes >= unit_size(1) {
        1
    } else {
        0
    }
}

/// The name of unit `k`.
pub open spec fn unit_name(k: nat) -> Seq<char> {
    if k == 0 {
        seq!['B']
    } else if k == 1 {
        seq!['K', 'B']
    } else if k == 2 {
        seq!['M', 'B']
    } else if k == 3 {
        seq!['G', 'B']
    } else {
        seq!['T', 'B']
    }
}

/// The shown value in hundredths of the unit.
pub open spec fn shown_hundredths(bytes: nat) -> nat {
    let unit = unit_size(unit_index(bytes));
    let scaled = as_double(bytes) * 100;
    round_half_even(scaled / unit, scaled % unit, unit)
}

/// The text of a byte count: `"<bytes> B"` below 1 KB, else the value in its
/// unit with two decimals, a space and the unit.
pub open spec fn size_text(bytes: nat) -> Seq<char> {
    let k = unit_index(bytes);
    if k == 0 {
        decimal(bytes) + seq![' ', 'B']
    } else {
        let h = shown_hundredths(bytes);
        decimal(h / 100) + seq!['.', digit_char(((h % 100) / 10) as int), digit_char((h % 10) as int), ' ']
            + unit_name(k)
    }
}

proof fn lemma_unit_sizes()
    ensures
        unit_size(0) == 1,
        unit_size(1) == 1024,
        unit_size(2) == 1048576,
        unit_size(3) == 1073741824,
        unit_size(4) == 1099511627776,
{
    reveal_with_fuel(unit_size, 5);
}

/// The `f64` value of a count, as an integer.
fn nearest_double(n: u64) -> (d: u128)
    ensures
        d == as_double(n as nat),
        d <= 0x1_0000_0000_0000_1000,
{
    let mut m: u64 = n;
    let mut p: u64 = 1;
    while m >= EXACT_DOUBLE_LIMIT
        invariant
            1 <= p <= 4096,
            m == n / p,
            (p as int) * (m as int) <= n,
            double_spacing(n as nat) == p * double_spacing(m as nat),
        decreases m,
    {
        let ghost m0 = m;
        let ghost p0 = p;
        assert(p0 < 2048) by (nonlinear_arith)
            requires
                p0 * m0 <= 0xffff_ffff_ffff_ffff,
                m0 >= 9007199254740992,
        ;
        m = m / 2;
        p = p * 2;
        proof {
            vstd::arithmetic::div_mod::lemma_div_denominator(n as int, p0 as int, 2);
            assert(double_spacing(m0 as nat) == 2 * double_spacing(m as nat));
            let ds = double_spacing(m as nat);
            assert(p0 * (2 * ds) == (p0 * 2) * ds) by (nonlinear_arith);
            assert((p0 * 2) * (m0 / 2) <= p0 * m0) by (nonlinear_arith)
                requires
                    p0 >= 1,
            ;
        }
    }
    let ghost ds = double_spacing(m as nat);
    assert(ds == 1);
    assert(p * ds == p) by (nonlinear_arith)
        requires
            ds == 1,
    ;
    assert(p as nat == double_spacing(n as nat));
    let q: u64 = n / p;
    let r: u64 = n % p;
    assert(q <= n) by (nonlinear_arith)
        requires
            q == n / p,
            p >= 1,
    ;
    proof {
        vstd::arithmetic::div_mod::lemma_fundamental_div_mod(n as int, p as int);
    }
    let up: bool = 2 * (r as u128) > p as u128 || (2 * (r as u128) == p as u128 && q % 2 == 1);
    let rounded: u128 = if up {
        q as u128 + 1
    } else {
        q as u128
    };
    assert(rounded * p <= 0x1_0000_0000_0000_1000) by (nonlinear_arith)
        requires
            rounded <= q + 1,
            1 <= p <= 4096,
            n == p * q + r,
            0 <= r,
            n <= 0xffff_ffff_ffff_ffff,
    {
    }
    rounded * p as u128
}

/// The index of the unit a count is shown in.
fn unit_of(bytes: u64) -> (k: usize)
    ensures
        k == unit_index(bytes as nat),
        k <= 4,
{
    proof {
        lemma_unit_sizes();
    }
    if bytes >= 1099511627776 {
        4
    } else if bytes >= 1073741824 {
        3
    } else if bytes >= 1048576 {
        2
    } else if bytes >= 1024 {
        1
    } else {
        0
    }
}

/// The text of a byte count as the explorer shows it, e.g. `"512 B"`,
/// `"1.50 KB"`, `"3.00 GB"`.
pub fn format_bytes(bytes: u64) -> (s: String)
    ensures
        s@ == size_text(bytes as nat),
{
    proof {
        lemma_unit_sizes();
    }
    let k = unit_of(bytes);
    let mut text: Vec<char>;
    if k == 0 {
        text = decimal_chars(bytes);
        text.push(' ');
        text.push('B');
        assert(text@ =~= decimal(bytes as nat) + seq![' ', 'B']);
    } else {
        let d = nearest_double(bytes);
        let unit: u128 = if k == 1 {
            1024
        } else if k == 2 {
            1048576
        } else if k == 3 {
            1073741824
        } else {
            1099511627776
        };
        let scaled: u128 = d * 100;
        let q: u128 = scaled / unit;
        let r: u128 = scaled % unit;
        let h: u128 = if 2 * r > unit || (2 * r == unit && q % 2 == 1) {
            q + 1
        } else {
            q
        };
        assert(q <= scaled / 1024) by (nonlinear_arith)
            requires
                q == scaled / unit,
                unit >= 1024,
        ;
        assert(h == shown_hundredths(bytes as nat));
        let whole: u64 = (h / 100) as u64;
        text = decimal_chars(whole);
        text.push('.');
        text.push(digit(((h % 100) / 10) as u64));
        text.push(digit((h % 10) as u64));
        text.push(' ');
        if k == 1 {
            text.push('K');
        } else if k == 2 {
            text.push('M');
        } else if k == 3 {
            text.push('G');
        } else {
            text.push('T');
        }
        text.push('B');
        let ghost h_n = h as nat;
        assert(text@ =~= decimal(h_n / 100) + seq![
            '.',
            digit_char(((h_n % 100) / 10) as int),
            digit_char((h_n % 10) as int),
            ' ',
        ] + unit_name(k as nat));
    }
    string_from_chars(&text)
}

/// Below 2^53 a byte count converts to `f64` exactly.
pub proof fn law_small_counts_are_exact(bytes: nat)
    requires
        bytes < EXACT_DOUBLE_LIMIT,
    ensures
        as_double(bytes) == bytes,
{
    assert(double_spacing(bytes) == 1);
}

/// A count is shown in the largest unit it reaches: in KB, MB and GB the
/// shown value lies between 1.00 and 1024.00.
pub proof fn law_shown_value_within_unit(bytes: nat)
    requires
        unit_size(1) <= bytes < unit_size(4),
    ensures
        100 <= shown_hundredths(bytes) <= 102400,
{
    lemma_unit_sizes();
    law_small_counts_are_exact(bytes);
    let u = unit_size(unit_index(bytes));
    assert(u <= bytes < 1024 * u);
    let scaled = bytes * 100;
    let q = scaled / u;
    assert(100 <= q <= 102399) by (nonlinear_arith)
        requires
            u > 0,
            u <= bytes,
            bytes < 1024 * u,
            scaled == bytes * 100,
            q == scaled / u,
    {
        vstd::arithmetic::div_mod::lemma_fundamental_div_mod(scaled as int, u as int);
    }
}

/// The unit a count is shown in, and its size, by the thresholds
/// themselves: TB from 2^40 bytes, GB from 2^30, MB from 2^20, KB from 2^10,
/// plain bytes below.
pub open spec fn unit_bytes(bytes: nat) -> nat {
    if bytes >= 1099511627776 {
        1099511627776
    } else if bytes >= 1073741824 {
        1073741824
    } else if bytes >= 1048576 {
        1048576
    } else if bytes >= 1024 {
        1024
    } else {
        1
    }
}

/// The shown value is the count in its unit rounded to the nearest
/// hundredth: it is off by at most half a hundredth, and where the count
/// lies exactly halfway the even hundredth is shown (counts below 2^53,
/// which `f64` holds exactly).
pub proof fn law_shown_value_rounds_to_nearest(bytes: nat)
    requires
        1024 <= bytes < EXACT_DOUBLE_LIMIT,
    ensures
        2 * (shown_hundredths(bytes) * unit_bytes(bytes) - 100 * bytes) <= unit_bytes(bytes),
        2 * (100 * bytes - shown_hundredths(bytes) * unit_bytes(bytes)) <= unit_bytes(bytes),
        2 * (shown_hundredths(bytes) * unit_bytes(bytes) - 100 * bytes) == unit_bytes(bytes) || 2 * (100 * bytes
            - shown_hundredths(bytes) * unit_bytes(bytes)) == unit_bytes(bytes) ==> shown_hundredths(bytes) % 2
            == 0,
{
    lemma_unit_sizes();
    law_small_counts_are_exact(bytes);
    let u = unit_bytes(bytes);
    assert(u == unit_size(unit_index(bytes)));
    let scaled = bytes * 100;
    let q = scaled / u;
    let r = scaled % u;
    let h = shown_hundredths(bytes);
    assert(h == round_half_even(q, r, u));
    vstd::arithmetic::div_mod::lemma_fundamental_div_mod(scaled as int, u as int);
    assert(scaled == u * q + r);
    assert(0 <= r < u);
    assert((q + 1) * u == q * u + u) by (nonlinear_arith);
    assert(u * q == q * u) by (nonlinear_arith);
}

proof fn lemma_two_digits(a: int, b: int)
    requires
        0 <= a < 10,
        0 <= b < 10,
    ensures
        numeral_value(seq![digit_char(a), digit_char(b)]) == a * 10 + b,
{
    let two = seq![digit_char(a), digit_char(b)];
    let one = two.drop_last();
    assert(one =~= seq![digit_char(a)]);
    assert(one.drop_last() =~= Seq::<char>::empty());
    assert(numeral_value(one.drop_last()) == 0);
    assert(((48 + a) as char) as int == 48 + a);
    assert(((48 + b) as char) as int == 48 + b);
    assert(one.last() as int == 48 + a);
    assert(numeral_value(one) == a);
    assert(two.last() as int == 48 + b);
}

proof fn lemma_size_text_with_unit(bytes: nat)
    requires
        bytes >= 1024,
    ensures
        ({
            let t = size_text(bytes);
            &&& t.len() >= 7
            &&& t[t.len() - 1] == 'B'
            &&& t[t.len() - 2] == (if bytes >= 1099511627776 {
                'T'
            } else if bytes >= 1073741824 {
                'G'
            } else if bytes >= 1048576 {
                'M'
            } else {
                'K'
            })
            &&& t[t.len() - 3] == ' '
            &&& t[t.len() - 6] == '.'
            &&& numeral_value(t.subrange(0, t.len() - 6)) * 100 + numeral_value(t.subrange(t.len() - 5, t.len() - 3))
                == shown_hundredths(bytes)
        }),
{
    lemma_unit_sizes();
    let t = size_text(bytes);
    let h = shown_hundredths(bytes);
    law_decimal_reads_back(h / 100);
    let a = ((h % 100) / 10) as int;
    let b = (h % 10) as int;
    let w = decimal(h / 100);
    let k = unit_index(bytes);
    assert(k >= 1);
    assert(t == w + seq!['.', digit_char(a), digit_char(b), ' '] + unit_name(k));
    assert(unit_name(k).len() == 2);
    assert(t.subrange(0, t.len() - 6) =~= w);
    let two = t.subrange(t.len() - 5, t.len() - 3);
    assert(two =~= seq![digit_char(a), digit_char(b)]);
    lemma_two_digits(a, b);
    assert(a * 10 + b == h % 100);
}

/// The text of a count reads back to the shown value: below 1 KB it is the
/// count's numeral and ` B`; above, the whole part, a point, two decimals, a
/// space and the unit's letter and `B`, the digits spelling the shown value
/// in hundredths.
pub proof fn law_size_text_reads_back(bytes: nat)
    ensures
        bytes < 1024 ==> {
            let t = size_text(bytes);
            &&& t.len() >= 3
            &&& t[t.len() - 1] == 'B'
            &&& t[t.len() - 2] == ' '
            &&& numeral_value(t.subrange(0, t.len() - 2)) == bytes
        },
        bytes >= 1024 ==> {
            let t = size_text(bytes);
            &&& t.len() >= 7
            &&& t[t.len() - 1] == 'B'
            &&& t[t.len() - 2] == (if bytes >= 1099511627776 {
                'T'
            } else if bytes >= 1073741824 {
                'G'
            } else if bytes >= 1048576 {
                'M'
            } else {
                'K'
            })
            &&& t[t.len() - 3] == ' '
            &&& t[t.len() - 6] == '.'
            &&& numeral_value(t.subrange(0, t.len() - 6)) * 100 + numeral_value(t.subrange(t.len() - 5, t.len() - 3))
                == shown_hundredths(bytes)
        },
{
    lemma_unit_sizes();
    if bytes < 1024 {
        let t = size_text(bytes);
        law_decimal_reads_back(bytes);
        assert(t.subrange(0, t.len() - 2) =~= decimal(bytes));
    } else {
        lemma_size_text_with_unit(bytes);
    }
}

} // verus!
