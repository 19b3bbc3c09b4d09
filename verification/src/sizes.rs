use vstd::prelude::*;
use crate::numfmt::{decimal, decimal_string, digit_char, digit_string};

verus! {

/// `2^e`.
pub open spec fn pow2(e: nat) -> nat
    decreases e,
{
    if e == 0 {
        1
    } else {
        2 * pow2((e - 1) as nat)
    }
}

/// `1024^i`: the number of bytes in the unit of index `i`.
pub open spec fn pow1024(i: nat) -> nat
    decreases i,
{
    if i == 0 {
        1
    } else {
        1024 * pow1024((i - 1) as nat)
    }
}

/// The number of binary digits of `n` (0 for 0).
pub open spec fn bit_length(n: nat) -> nat
    decreases n,
{
    if n == 0 {
        0
    } else {
        1 + bit_length(n / 2)
    }
}

/// `n / d` rounded to the nearest integer, ties to the even one.
pub open spec fn round_half_even(n: nat, d: nat) -> nat
    recommends
        d > 0,
{
    let q = n / d;
    let r = n % d;
    if 2 * r > d || (2 * r == d && q % 2 == 1) {
        q + 1
    } else {
        q
    }
}

/// The magnitude of the double-precision number nearest to the integer `a`
/// (53 significant bits, ties to even): what `size as f64` holds.
pub open spec fn nearest_double(a: nat) -> nat {
    if bit_length(a) <= 53 {
        a
    } else {
        let s = (bit_length(a) - 53) as nat;
        round_half_even(a, pow2(s)) * pow2(s)
    }
}

/// The smallest unit index `j >= i` (at most 5) in which `a` bytes make less than 1024 units.
pub open spec fn unit_from(a: nat, i: nat) -> nat
    decreases 5 - i,
{
    if i >= 5 || a < pow1024(i + 1) {
        i
    } else {
        unit_from(a, i + 1)
    }
}

/// The index of the unit that a size of `a` bytes is shown in: B, KB, MB, GB, TB or PB.
pub open spec fn unit_index(a: nat) -> nat {
    unit_from(a, 0)
}

/// The name of the unit of index `i`.
pub open spec fn unit_name(i: nat) -> Seq<char> {
    if i == 0 {
        "B"@
    } else if i == 1 {
        "KB"@
    } else if i == 2 {
        "MB"@
    } else if i == 3 {
        "GB"@
    } else if i == 4 {
        "TB"@
    } else {
        "PB"@
    }
}

/// A size of `a` bytes in hundredths of its unit, rounded half to even.
pub open spec fn size_hundredths(a: nat) -> nat {
    round_half_even(nearest_double(a) * 100, pow1024(unit_index(a)))
}

/// The magnitude of an integer.
pub open spec fn magnitude(v: int) -> nat {
    if v < 0 {
        (-v) as nat
    } else {
        v as nat
    }
}

/// A size in bytes as shown to the user: its value in the largest unit that keeps it
/// under 1024 (at most PB), with two decimals, followed by the unit's name.
pub open spec fn size_text(size: int) -> Seq<char> {
    let a = magnitude(size);
    let c = size_hundredths(a);
    (if size < 0 {
        seq!['-']
    } else {
        Seq::<char>::empty()
    }) + decimal(c / 100) + seq!['.', digit_char((c % 100) / 10), digit_char(c % 10)]
        + unit_name(unit_index(a))
}

proof fn lemma_pow2_mono(i: nat, j: nat)
    requires
        i <= j,
    ensures
        pow2(i) <= pow2(j),
    decreases j,
{
    if i < j {
        lemma_pow2_mono(i, (j - 1) as nat);
    }
}

proof fn lemma_pow1024_mono(i: nat, j: nat)
    requires
        i <= j,
    ensures
        pow1024(i) <= pow1024(j),
    decreases j,
{
    if i < j {
        lemma_pow1024_mono(i, (j - 1) as nat);
    }
}

proof fn lemma_pow2_values()
    ensures
        pow2(10) == 1024,
        pow2(11) == 2048,
        pow2(53) == 0x20_0000_0000_0000,
        pow2(63) == 0x8000_0000_0000_0000,
        pow2(64) == 0x1_0000_0000_0000_0000,
{
    reveal_with_fuel(pow2, 65);
}

/// A number below `2^k` has at most `k` binary digits.
proof fn lemma_bit_length_bound(n: nat, k: nat)
    requires
        n < pow2(k),
    ensures
        bit_length(n) <= k,
    decreases k,
{
    if n > 0 {
        assert(k > 0);
        lemma_bit_length_bound(n / 2, (k - 1) as nat);
    }
}

/// `nearest_double(a)`, computed.
fn nearest_double_exec(a: u64) -> (f: u128)
    ensures
        f == nearest_double(a as nat),
        f <= 0x800_0000_0000_0000_0000,
{
    proof {
        lemma_pow2_values();
        lemma_bit_length_bound(a as nat, 64);
    }
    let mut t: u64 = a;
    let mut bits: u64 = 0;
    while t > 0
        invariant
            bit_length(a as nat) == bits + bit_length(t as nat),
            bit_length(a as nat) <= 64,
        decreases t,
    {
        t = t / 2;
        bits = bits + 1;
    }
    if bits <= 53 {
        return a as u128;
    }
    let shift: u64 = bits - 53;
    let mut p: u64 = 1;
    let mut j: u64 = 0;
    while j < shift
        invariant
            j <= shift,
            shift <= 11,
            p == pow2(j as nat),
        decreases shift - j,
    {
        proof {
            lemma_pow2_mono(j as nat, 10);
            lemma_pow2_values();
            assert(pow2(10) == 1024) by {
                reveal_with_fuel(pow2, 2);
            }
        }
        p = p * 2;
        j = j + 1;
    }
    proof {
        lemma_pow2_mono(shift as nat, 11);
        lemma_pow2_mono(1, shift as nat);
        lemma_pow2_values();
        assert(pow2(1) == 2) by {
            reveal_with_fuel(pow2, 2);
        }
    }
    let q = a / p;
    let r = a % p;
    assert(q < 0x8000_0000_0000_0000) by (nonlinear_arith)
        requires
            q == a / p,
            p >= 2,
            a < 0x1_0000_0000_0000_0000,
    ;
    let rounded: u64 = if 2 * r > p || (2 * r == p && q % 2 == 1) {
        q + 1
    } else {
        q
    };
    assert(rounded <= 0x1_0000_0000_0000_0000) by (nonlinear_arith)
        requires
            rounded <= q + 1,
            q == a / p,
            p >= 1,
            a < 0x1_0000_0000_0000_0000,
    ;
    assert((rounded as int) * (p as int) <= 0x800_0000_0000_0000_0000) by (nonlinear_arith)
        requires
            rounded <= 0x1_0000_0000_0000_0000,
            p <= 2048,
    ;
    (rounded as u128) * (p as u128)
}

proof fn lemma_pow1024_values()
    ensures
        pow1024(5) == 0x4_0000_0000_0000,
{
    reveal_with_fuel(pow1024, 6);
}

/// The unit that a size of `a` bytes is shown in: its index and its number of bytes.
fn unit_of(a: u64) -> (res: (u64, u64))
    ensures
        res.0 == unit_index(a as nat),
        res.0 <= 5,
        res.1 == pow1024(res.0 as nat),
{
    proof {
        lemma_pow1024_values();
    }
    let mut i: u64 = 0;
    let mut unit: u64 = 1;
    let mut limit: u64 = 1024;
    assert(pow1024(1) == 1024) by {
        reveal_with_fuel(pow1024, 2);
    }
    while i < 5 && a >= limit
        invariant
            i <= 5,
            unit == pow1024(i as nat),
            limit == pow1024((i + 1) as nat),
            pow1024(5) == 0x4_0000_0000_0000,
            unit_index(a as nat) == unit_from(a as nat, i as nat),
        decreases 5 - i,
    {
        proof {
            lemma_pow1024_mono((i + 1) as nat, 5);
        }
        i = i + 1;
        unit = limit;
        limit = limit * 1024;
    }
    (i, unit)
}

/// `size_hundredths(a)`, computed from the unit that `a` bytes are shown in.
fn hundredths_of(a: u64, unit: u64) -> (c: u128)
    requires
        unit == pow1024(unit_index(a as nat)),
    ensures
        c == size_hundredths(a as nat),
{
    proof {
        lemma_pow1024_mono(0, unit_index(a as nat));
    }
    let f = nearest_double_exec(a);
    let n: u128 = f * 100;
    let d: u128 = unit as u128;
    let q = n / d;
    let r = n % d;
    assert(q <= n) by (nonlinear_arith)
        requires
            q == n / d,
            d >= 1,
    ;
    if 2 * r > d || (2 * r == d && q % 2 == 1) {
        q + 1
    } else {
        q
    }
}

/// The name of the unit of index `i`.
fn unit_name_string(i: u64) -> (s: String)
    requires
        i <= 5,
    ensures
        s@ == unit_name(i as nat),
{
    proof {
        reveal_strlit("B");
        reveal_strlit("KB");
        reveal_strlit("MB");
        reveal_strlit("GB");
        reveal_strlit("TB");
        reveal_strlit("PB");
    }
    if i == 0 {
        "B".to_owned()
    } else if i == 1 {
        "KB".to_owned()
    } else if i == 2 {
        "MB".to_owned()
    } else if i == 3 {
        "GB".to_owned()
    } else if i == 4 {
        "TB".to_owned()
    } else {
        "PB".to_owned()
    }
}

/// Writes a size in bytes in a human-readable unit, e.g. `1.53KB` for 1567 bytes.
pub fn bytes_to_string(size: i64) -> (res: String)
    ensures
        res@ == size_text(size as int),
{
    let neg = size < 0;
    let a: u64 = if neg {
        (0i128 - (size as i128)) as u64
    } else {
        size as u64
    };
    assert(a == magnitude(size as int));
    let (i, unit) = unit_of(a);
    let c = hundredths_of(a, unit);
    let mut s = if neg {
        "-".to_owned()
    } else {
        String::new()
    };
    let whole = decimal_string(c / 100);
    s.append(whole.as_str());
    s.append(".");
    let tenths = digit_string((c % 100) / 10);
    s.append(tenths.as_str());
    let hundredths = digit_string(c % 10);
    s.append(hundredths.as_str());
    let name = unit_name_string(i);
    s.append(name.as_str());
    proof {
        reveal_strlit("-");
        reveal_strlit(".");
    }
    assert(s@ =~= size_text(size as int));
    s
}

/// A size under 1024 bytes is shown exactly, in bytes: `966` reads `966.00B`.
pub proof fn lemma_small_sizes_in_bytes(size: int)
    requires
        0 <= size < 1024,
    ensures
        size_text(size) == decimal(size as nat) + ".00B"@,
{
    let a = size as nat;
    assert(pow1024(1) == 1024) by {
        reveal_with_fuel(pow1024, 2);
    }
    assert(unit_index(a) == 0);
    assert(pow2(10) == 1024) by {
        reveal_with_fuel(pow2, 11);
    }
    lemma_bit_length_bound(a, 10);
    assert(nearest_double(a) == a);
    assert(pow1024(0) == 1);
    assert(size_hundredths(a) == a * 100);
    assert((a * 100) / 100 == a) by (nonlinear_arith);
    assert((a * 100) % 100 == 0) by (nonlinear_arith);
    reveal_strlit(".00B");
    reveal_strlit("B");
    assert(size_text(size) =~= decimal(size as nat) + ".00B"@);
}

/// A negative size reads as its magnitude with a minus sign in front.
pub proof fn lemma_negative_sizes_mirror(size: int)
    requires
        size > 0,
    ensures
        size_text(-size) == seq!['-'] + size_text(size),
{
    assert(magnitude(-size) == magnitude(size));
    assert(size_text(-size) =~= seq!['-'] + size_text(size));
}

/// The unit found from index `i` on holds at least one unit's worth of bytes, and, short
/// of PB, less than 1024 units.
proof fn lemma_unit_from_bounds(a: nat, i: nat)
    requires
        i <= 5,
        a >= pow1024(i),
    ensures
        unit_from(a, i) <= 5,
        a >= pow1024(unit_from(a, i)),
        unit_from(a, i) < 5 ==> a < pow1024(unit_from(a, i) + 1),
        a < pow1024(5) ==> unit_from(a, i) < 5,
    decreases 5 - i,
{
    if i < 5 && a >= pow1024(i + 1) {
        lemma_unit_from_bounds(a, i + 1);
    }
}

/// The double nearest to a size of at least 1 byte and below `2^63` is still worth at least
/// one unit of the unit that the size is shown in.
proof fn lemma_nearest_double_at_least_unit(a: nat)
    requires
        1 <= a < 0x8000_0000_0000_0000,
    ensures
        nearest_double(a) >= pow1024(unit_index(a)),
        a < pow1024(5) ==> nearest_double(a) == a,
{
    lemma_pow1024_values();
    assert(pow1024(0) == 1);
    lemma_unit_from_bounds(a, 0);
    lemma_pow1024_mono(unit_index(a), 5);
    lemma_pow2_values();
    if a < pow1024(5) {
        lemma_bit_length_bound(a, 53);
    }
    if bit_length(a) > 53 {
        lemma_bit_length_bound(a, 63);
        let s = (bit_length(a) - 53) as nat;
        lemma_pow2_mono(s, 10);
        lemma_pow2_mono(1, s);
        assert(pow2(1) == 2) by {
            reveal_with_fuel(pow2, 2);
        }
        let p = pow2(s);
        // A number with more than 53 binary digits is at least 2^53.
        if a < pow2(53) {
            lemma_bit_length_bound(a, 53);
        }
        let q = round_half_even(a, p);
        assert(q * p >= a - p) by (nonlinear_arith)
            requires
                q >= a / p,
                p > 0,
        ;
        assert(nearest_double(a) == q * p);
    }
}

/// For a size of at least one byte, the number shown is at least 1 (100 hundredths) and,
/// below 1024 PB, at most 1024 (102400 hundredths): the unit is the largest, up to PB, in
/// which the size is at least one unit.
pub proof fn lemma_shown_number_in_range(size: int)
    requires
        1 <= size <= 0x7fff_ffff_ffff_ffff,
    ensures
        size_hundredths(size as nat) >= 100,
        size < pow1024(5) ==> size_hundredths(size as nat) <= 102400,
{
    let a = size as nat;
    lemma_nearest_double_at_least_unit(a);
    lemma_pow1024_values();
    assert(pow1024(0) == 1);
    lemma_unit_from_bounds(a, 0);
    let u = unit_index(a);
    let d = pow1024(u);
    lemma_pow1024_mono(0, u);
    let f = nearest_double(a);
    let q = (f * 100) / d;
    assert(q >= 100) by (nonlinear_arith)
        requires
            f >= d,
            d >= 1,
            q == (f * 100) / d,
    ;
    if size < pow1024(5) {
        assert(pow1024(u + 1) == 1024 * d);
        assert(q < 102400) by (nonlinear_arith)
            requires
                f < 1024 * d,
                d >= 1,
                q == (f * 100) / d,
        ;
    }
}

/// `round_half_even(n, d)` is an integer nearest to `n / d`, and the even one on a tie.
pub proof fn lemma_round_half_even_is_nearest(n: nat, d: nat)
    requires
        d > 0,
    ensures
        2 * round_half_even(n, d) * d <= 2 * n + d,
        2 * n <= 2 * round_half_even(n, d) * d + d,
        2 * n + d == 2 * round_half_even(n, d) * d || 2 * round_half_even(n, d) * d + d == 2 * n
            ==> round_half_even(n, d) % 2 == 0,
{
    let q = n / d;
    let r = n % d;
    let c = round_half_even(n, d);
    assert(n == q * d + r && 0 <= r < d) by (nonlinear_arith)
        requires
            d > 0,
            q == n / d,
            r == n % d,
    ;
    let x = q * d;
    if c == q + 1 {
        assert(2 * c * d == 2 * x + 2 * d) by (nonlinear_arith)
            requires
                c == q + 1,
                x == q * d,
        ;
        assert(2 * r > d || (2 * r == d && q % 2 == 1));
    } else {
        assert(2 * c * d == 2 * x) by (nonlinear_arith)
            requires
                c == q,
                x == q * d,
        ;
        assert(!(2 * r > d || (2 * r == d && q % 2 == 1)));
    }
}

/// The number shown is the size, as a double, in its unit, rounded to the nearest
/// hundredth, ties to even: `c` hundredths of a unit of `d` bytes lie within half a
/// hundredth of the double nearest to the size.
pub proof fn lemma_shown_number_is_nearest(size: int)
    ensures
        ({
            let a = magnitude(size);
            let c = size_hundredths(a);
            let d = pow1024(unit_index(a));
            let f = nearest_double(a);
            &&& 2 * c * d <= 200 * f + d
            &&& 200 * f <= 2 * c * d + d
            &&& (200 * f + d == 2 * c * d || 2 * c * d + d == 200 * f ==> c % 2 == 0)
        }),
{
    let a = magnitude(size);
    lemma_pow1024_mono(0, unit_index(a));
    assert(pow1024(0) == 1);
    lemma_round_half_even_is_nearest(nearest_double(a) * 100, pow1024(unit_index(a)));
}

} // verus!
