//! What the `status` output shows: byte counts in binary units, and colored
//! labels.

use vstd::prelude::*;

use crate::text::{decimal, digit, digit_char, push_char, push_decimal};

verus! {

pub open spec fn pow2(e: nat) -> nat
    decreases e,
{
    if e == 0 {
        1
    } else {
        2 * pow2((e - 1) as nat)
    }
}

/// 2^53: integers below it are exact as `f64`.
pub open spec fn exact_limit() -> nat {
    0x20_0000_0000_0000
}

/// The 53 leading bits of `n` and how many bits lie below them.
pub open spec fn top_bits(n: nat) -> (nat, nat)
    decreases n,
{
    if n < exact_limit() {
        (n, 0)
    } else {
        let (q, e) = top_bits(n / 2);
        (q, e + 1)
    }
}

/// The value of `n as f64`: `n` rounded to 53 significant bits, ties to even.
pub open spec fn f64_value(n: nat) -> nat {
    let (q, e) = top_bits(n);
    let s = pow2(e);
    let rem = n - q * s;
    if e == 0 {
        n
    } else if 2 * rem > s || (2 * rem == s && q % 2 == 1) {
        (q + 1) * s
    } else {
        q * s
    }
}

pub open spec fn pow1024(k: nat) -> nat
    decreases k,
{
    if k == 0 {
        1
    } else {
        1024 * pow1024((k - 1) as nat)
    }
}

/// The unit that a value is shown in: B, KiB, MiB, GiB or TiB, the largest
/// that keeps it at 1 or more.
pub open spec fn unit_index(v: nat) -> nat {
    if v < pow1024(1) {
        0
    } else if v < pow1024(2) {
        1
    } else if v < pow1024(3) {
        2
    } else if v < pow1024(4) {
        3
    } else {
        4
    }
}

pub open spec fn unit_name(k: nat) -> Seq<char> {
    if k == 0 {
        "B"@
    } else if k == 1 {
        "KiB"@
    } else if k == 2 {
        "MiB"@
    } else if k == 3 {
        "GiB"@
    } else {
        "TiB"@
    }
}

/// `v / 1024^k` in hundredths, rounded half to even, as `{:.2}` rounds.
pub open spec fn hundredths(v: nat, k: nat) -> nat {
    let d = pow1024(k);
    let q = (v * 100) / d;
    let rem = (v * 100) % d;
    if 2 * rem > d || (2 * rem == d && q % 2 == 1) {
        q + 1
    } else {
        q
    }
}

/// How `format_bytes` shows a byte count: below 1024 as whole bytes,
/// otherwise as the `f64` value of the count in the largest fitting binary
/// unit, with two decimals.
pub open spec fn bytes_text(bytes: u64) -> Seq<char> {
    let v = f64_value(bytes as nat);
    let k = unit_index(v);
    if k == 0 {
        decimal(bytes as nat) + " B"@
    } else {
        let c = hundredths(v, k);
        decimal(c / 100) + seq!['.', digit((c % 100) / 10), digit(c % 10), ' '] + unit_name(k)
    }
}

proof fn lemma_pow2_monotone(a: nat, b: nat)
    requires
        a <= b,
    ensures
        pow2(a) <= pow2(b),
    decreases b,
{
    if b > a {
        lemma_pow2_monotone(a, (b - 1) as nat);
    }
}

/// `bytes as f64`, as an integer (it is one for every `u64`).
fn f64_value_of(n: u64) -> (v: u128)
    ensures
        v == f64_value(n as nat),
        v <= 0x1_0000_0000_0000_0000,
{
    let mut q: u64 = n;
    let mut scale: u64 = 1;
    let mut shifts: u32 = 0;
    let ghost mut e: nat = 0;
    while q >= 0x20_0000_0000_0000
        invariant
            top_bits(n as nat) == (top_bits(q as nat).0, top_bits(q as nat).1 + e),
            scale == pow2(e),
            shifts == e,
            shifts <= 11,
            q * scale <= n < (q + 1) * scale,
            scale >= 1,
        decreases q,
    {
        assert(scale < 0x800) by (nonlinear_arith)
            requires
                q * scale <= n,
                q >= 0x20_0000_0000_0000,
                n < 0x1_0000_0000_0000_0000,
        ;
        proof {
            if e >= 11 {
                lemma_pow2_monotone(11, e);
                reveal_with_fuel(pow2, 12);
            }
        }
        let q2 = q / 2;
        assert(q2 * (2 * scale) <= n < (q2 + 1) * (2 * scale)) by (nonlinear_arith)
            requires
                q * scale <= n < (q + 1) * scale,
                q2 * 2 <= q < q2 * 2 + 2,
                scale >= 1,
        ;
        q = q2;
        scale = scale * 2;
        shifts = shifts + 1;
        proof {
            e = e + 1;
        }
    }
    proof {
        lemma_pow2_monotone(e, 11);
        reveal_with_fuel(pow2, 12);
    }
    let rem = n - q * scale;
    if shifts == 0 {
        return n as u128;
    }
    let half_up = 2 * (rem as u128) > scale as u128 || (2 * (rem as u128) == scale as u128 && q
        % 2 == 1);
    let top: u128 = if half_up {
        (q as u128) + 1
    } else {
        q as u128
    };
    assert(top * (scale as u128) <= 0x1_0000_0000_0000_0000) by (nonlinear_arith)
        requires
            top <= q + 1,
            q * scale <= n,
            n < 0x1_0000_0000_0000_0000,
            q < 0x20_0000_0000_0000,
            scale * 0x20_0000_0000_0000 <= 0x1_0000_0000_0000_0000,
    ;
    top * (scale as u128)
}

fn pow1024_of(k: u32) -> (d: u128)
    requires
        1 <= k <= 4,
    ensures
        d == pow1024(k as nat),
{
    proof {
        reveal_with_fuel(pow1024, 5);
    }
    if k == 1 {
        1024
    } else if k == 2 {
        1024 * 1024
    } else if k == 3 {
        1024 * 1024 * 1024
    } else {
        1024 * 1024 * 1024 * 1024
    }
}

fn unit_str(k: u32) -> (s: &'static str)
    ensures
        s@ == unit_name(k as nat),
{
    if k == 0 {
        "B"
    } else if k == 1 {
        "KiB"
    } else if k == 2 {
        "MiB"
    } else if k == 3 {
        "GiB"
    } else {
        "TiB"
    }
}

/// A byte count for people (`format_bytes`): `512 B`, `1.50 KiB`, `3.00 GiB`.
pub fn format_bytes(bytes: u64) -> (s: String)
    ensures
        s@ == bytes_text(bytes),
{
    let v = f64_value_of(bytes);
    let k: u32 = if v < 1024 {
        0
    } else if v < 1024 * 1024 {
        1
    } else if v < 1024 * 1024 * 1024 {
        2
    } else if v < 1024 * 1024 * 1024 * 1024 {
        3
    } else {
        4
    };
    proof {
        reveal_with_fuel(pow1024, 5);
    }
    let mut s = String::new();
    if k == 0 {
        push_decimal(&mut s, bytes);
        s.append(" B");
        return s;
    }
    let d = pow1024_of(k);
    let n = v * 100;
    let q = n / d;
    let rem = n % d;
    let c: u128 = if 2 * rem > d || (2 * rem == d && q % 2 == 1) {
        q + 1
    } else {
        q
    };
    assert(c / 100 < 0x1_0000_0000_0000_0000) by (nonlinear_arith)
        requires
            q == n / d,
            d >= 1024,
            n <= 100 * 0x1_0000_0000_0000_0000,
            c <= q + 1,
    ;
    push_decimal(&mut s, (c / 100) as u64);
    push_char(&mut s, '.');
    push_char(&mut s, digit_char(((c % 100) / 10) as u64));
    push_char(&mut s, digit_char((c % 10) as u64));
    push_char(&mut s, ' ');
    s.append(unit_str(k));
    s
}

/// `value` in the color of ANSI code `code`.
pub open spec fn colored(code: Seq<char>, value: Seq<char>) -> Seq<char> {
    seq!['\x1b', '['] + code + seq!['m'] + value + seq!['\x1b', '[', '0', 'm']
}

/// `value` wrapped in the ANSI escapes of color `code` (`color`).
pub fn color(code: &str, value: &str) -> (s: String)
    ensures
        s@ == colored(code@, value@),
{
    let mut s = String::new();
    push_char(&mut s, '\x1b');
    push_char(&mut s, '[');
    s.append(code);
    push_char(&mut s, 'm');
    s.append(value);
    push_char(&mut s, '\x1b');
    push_char(&mut s, '[');
    push_char(&mut s, '0');
    push_char(&mut s, 'm');
    proof {
        assert(s@ =~= colored(code@, value@));
    }
    s
}

pub fn green(value: &str) -> (s: String)
    ensures
        s@ == colored("32"@, value@),
{
    color("32", value)
}

pub fn yellow(value: &str) -> (s: String)
    ensures
        s@ == colored("33"@, value@),
{
    color("33", value)
}

pub fn red(value: &str) -> (s: String)
    ensures
        s@ == colored("31"@, value@),
{
    color("31", value)
}

pub fn cyan(value: &str) -> (s: String)
    ensures
        s@ == colored("36"@, value@),
{
    color("36", value)
}

} // verus!
