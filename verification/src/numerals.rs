//! Decimal and hexadecimal numerals as character sequences.
//!
//! The wire format writes ports, weights and address components as numerals;
//! this module defines what a numeral denotes, how one is emitted, and proves
//! that reading an emitted numeral gives back the number it came from.

use vstd::prelude::*;

verus! {

/// The digit character for a value below sixteen.
pub open spec fn digit_char(v: nat) -> char {
    if v == 0 {
        '0'
    } else if v == 1 {
        '1'
    } else if v == 2 {
        '2'
    } else if v == 3 {
        '3'
    } else if v == 4 {
        '4'
    } else if v == 5 {
        '5'
    } else if v == 6 {
        '6'
    } else if v == 7 {
        '7'
    } else if v == 8 {
        '8'
    } else if v == 9 {
        '9'
    } else if v == 10 {
        'a'
    } else if v == 11 {
        'b'
    } else if v == 12 {
        'c'
    } else if v == 13 {
        'd'
    } else if v == 14 {
        'e'
    } else if v == 15 {
        'f'
    } else {
        '?'
    }
}

/// The value of a digit character; sixteen marks a non-digit.
pub open spec fn digit_val(c: char) -> nat {
    if c == '0' {
        0
    } else if c == '1' {
        1
    } else if c == '2' {
        2
    } else if c == '3' {
        3
    } else if c == '4' {
        4
    } else if c == '5' {
        5
    } else if c == '6' {
        6
    } else if c == '7' {
        7
    } else if c == '8' {
        8
    } else if c == '9' {
        9
    } else if c == 'a' {
        10
    } else if c == 'b' {
        11
    } else if c == 'c' {
        12
    } else if c == 'd' {
        13
    } else if c == 'e' {
        14
    } else if c == 'f' {
        15
    } else {
        16
    }
}

/// Whether `c` is a digit of `base`.
pub open spec fn is_digit(c: char, base: nat) -> bool {
    digit_val(c) < base
}

/// The numeral of `n` in `base`, most significant digit first, without
/// leading zeros.
pub open spec fn numeral(n: nat, base: nat) -> Seq<char>
    decreases n,
    via numeral_decreases
{
    if base < 2 {
        Seq::empty()
    } else if n < base {
        seq![digit_char(n)]
    } else {
        numeral(n / base, base).push(digit_char(n % base))
    }
}

#[via_fn]
proof fn numeral_decreases(n: nat, base: nat) {
    if base >= 2 && n >= base {
        assert(n / base < n) by (nonlinear_arith)
            requires
                2 <= base <= n,
        ;
    }
}

/// The numeral of `n` in `base` written with exactly `width` digits,
/// zero-padded on the left.
pub open spec fn numeral_fixed(n: nat, width: nat, base: nat) -> Seq<char>
    decreases width,
{
    if width == 0 {
        Seq::empty()
    } else {
        numeral_fixed(n / base, (width - 1) as nat, base).push(digit_char(n % base))
    }
}

/// The number a digit sequence denotes in `base`.
pub open spec fn val_of(ds: Seq<char>, base: nat) -> nat
    decreases ds.len(),
{
    if ds.len() == 0 {
        0
    } else {
        val_of(ds.drop_last(), base) * base + digit_val(ds.last())
    }
}

/// The longest prefix of `s` made of digits of `base`.
pub open spec fn digits_prefix(s: Seq<char>, base: nat) -> Seq<char>
    decreases s.len(),
{
    if s.len() > 0 && is_digit(s[0], base) {
        seq![s[0]] + digits_prefix(s.skip(1), base)
    } else {
        Seq::empty()
    }
}

/// Reading a numeral from the front of `s`: the value of the longest digit
/// prefix and the remainder, or nothing when there is no digit or the value
/// exceeds `max`.
pub open spec fn parse_nat(s: Seq<char>, base: nat, max: nat) -> Option<(nat, Seq<char>)> {
    let ds = digits_prefix(s, base);
    if ds.len() == 0 {
        None
    } else if val_of(ds, base) > max {
        None
    } else {
        Some((val_of(ds, base), s.skip(ds.len() as int)))
    }
}

/// `base` raised to `w`.
pub open spec fn base_pow(base: nat, w: nat) -> nat
    decreases w,
{
    if w == 0 {
        1
    } else {
        base * base_pow(base, (w - 1) as nat)
    }
}

/// A digit character denotes the value it was made from.
pub proof fn lemma_digit_char_val(v: nat)
    requires
        v < 16,
    ensures
        digit_val(digit_char(v)) == v,
{
}

/// Every character of a numeral is a digit of its base, and a numeral is
/// never empty.
pub proof fn lemma_numeral_digits(n: nat, base: nat)
    requires
        2 <= base <= 16,
    ensures
        numeral(n, base).len() >= 1,
        forall|i: int|
            0 <= i < numeral(n, base).len() ==> is_digit(#[trigger] numeral(n, base)[i], base),
    decreases n,
{
    if n < base {
        lemma_digit_char_val(n);
    } else {
        assert(n / base < n) by (nonlinear_arith)
            requires
                2 <= base <= n,
        ;
        lemma_numeral_digits(n / base, base);
        lemma_digit_char_val(n % base);
    }
}

/// A numeral denotes the number it was made from.
pub proof fn lemma_val_of_numeral(n: nat, base: nat)
    requires
        2 <= base <= 16,
    ensures
        val_of(numeral(n, base), base) == n,
    decreases n,
{
    if n < base {
        let ds = numeral(n, base);
        assert(ds =~= seq![digit_char(n)]);
        assert(ds.len() == 1);
        assert(ds.last() == digit_char(n));
        assert(ds.drop_last() =~= Seq::<char>::empty());
        lemma_digit_char_val(n);
        assert(val_of(ds, base) == val_of(ds.drop_last(), base) * base + digit_val(ds.last()));
        assert(val_of(ds.drop_last(), base) == 0);
        assert(val_of(ds, base) == 0 * base + n);
        assert(0 * base == 0) by (nonlinear_arith);
    } else {
        assert(n / base < n) by (nonlinear_arith)
            requires
                2 <= base <= n,
        ;
        lemma_val_of_numeral(n / base, base);
        let rec = numeral(n / base, base);
        let ds = rec.push(digit_char(n % base));
        assert(numeral(n, base) == ds);
        assert(ds.drop_last() =~= rec);
        assert(ds.last() == digit_char(n % base));
        lemma_digit_char_val(n % base);
        assert(val_of(ds, base) == val_of(rec, base) * base + (n % base));
        vstd::arithmetic::div_mod::lemma_fundamental_div_mod(n as int, base as int);
        assert(val_of(ds, base) == n);
    }
}

/// A fixed-width numeral of a number below `base^width` has that width, is
/// all digits, and denotes the number it was made from.
pub proof fn lemma_numeral_fixed(n: nat, width: nat, base: nat)
    requires
        2 <= base <= 16,
        n < base_pow(base, width),
    ensures
        numeral_fixed(n, width, base).len() == width,
        forall|i: int|
            0 <= i < width ==> is_digit(#[trigger] numeral_fixed(n, width, base)[i], base),
        val_of(numeral_fixed(n, width, base), base) == n,
    decreases width,
{
    if width == 0 {
        assert(numeral_fixed(n, width, base) =~= Seq::<char>::empty());
    } else {
        let p = base_pow(base, (width - 1) as nat);
        assert(base_pow(base, width) == base * p);
        assert(n / base < p) by (nonlinear_arith)
            requires
                n < base * p,
                base >= 2,
        ;
        lemma_numeral_fixed(n / base, (width - 1) as nat, base);
        let rec = numeral_fixed(n / base, (width - 1) as nat, base);
        let ds = rec.push(digit_char(n % base));
        assert(numeral_fixed(n, width, base) == ds);
        assert(ds.drop_last() =~= rec);
        assert(ds.last() == digit_char(n % base));
        lemma_digit_char_val(n % base);
        assert(val_of(ds, base) == val_of(rec, base) * base + (n % base));
        vstd::arithmetic::div_mod::lemma_fundamental_div_mod(n as int, base as int);
        assert(val_of(ds, base) == n);
    }
}

/// The digit prefix of an all-digit sequence followed by a non-digit is that
/// sequence itself.
pub proof fn lemma_digits_prefix_of_concat(a: Seq<char>, b: Seq<char>, base: nat)
    requires
        forall|i: int| 0 <= i < a.len() ==> is_digit(#[trigger] a[i], base),
        b.len() == 0 || !is_digit(b[0], base),
    ensures
        digits_prefix(a + b, base) == a,
    decreases a.len(),
{
    if a.len() == 0 {
        assert(a + b =~= b);
        assert(digits_prefix(b, base) =~= Seq::<char>::empty());
        assert(a =~= Seq::<char>::empty());
    } else {
        let s = a + b;
        assert(s[0] == a[0]);
        assert(s.skip(1) =~= a.skip(1) + b);
        assert(forall|i: int| 0 <= i < a.skip(1).len() ==> is_digit(#[trigger] a.skip(1)[i], base));
        lemma_digits_prefix_of_concat(a.skip(1), b, base);
        assert(digits_prefix(s, base) == seq![a[0]] + a.skip(1));
        assert(seq![a[0]] + a.skip(1) =~= a);
    }
}

/// A digit sequence denotes at least what any of its prefixes denotes.
pub proof fn lemma_val_of_prefix_le(ds: Seq<char>, k: int, base: nat)
    requires
        base >= 2,
        0 <= k <= ds.len(),
    ensures
        val_of(ds.subrange(0, k), base) <= val_of(ds, base),
    decreases ds.len(),
{
    if k == ds.len() {
        assert(ds.subrange(0, k) =~= ds);
    } else {
        assert(ds.subrange(0, k) =~= ds.drop_last().subrange(0, k));
        lemma_val_of_prefix_le(ds.drop_last(), k, base);
        let v = val_of(ds.drop_last(), base);
        assert(v * base >= v) by (nonlinear_arith)
            requires
                base >= 2,
                v >= 0,
        ;
    }
}

/// Reading the front of an emitted numeral followed by anything that does not
/// begin with a digit gives back the number and the following text.
pub proof fn lemma_parse_nat_of_numeral(n: nat, base: nat, max: nat, rest: Seq<char>)
    requires
        2 <= base <= 16,
        n <= max,
        rest.len() == 0 || !is_digit(rest[0], base),
    ensures
        parse_nat(numeral(n, base) + rest, base, max) == Some((n, rest)),
{
    let a = numeral(n, base);
    lemma_numeral_digits(n, base);
    lemma_val_of_numeral(n, base);
    lemma_digits_prefix_of_concat(a, rest, base);
    assert((a + rest).skip(a.len() as int) =~= rest);
}

/// Exec mirror of [`digit_val`].
pub fn digit_val_x(c: char) -> (v: u64)
    ensures
        v as nat == digit_val(c),
{
    match c {
        '0' => 0,
        '1' => 1,
        '2' => 2,
        '3' => 3,
        '4' => 4,
        '5' => 5,
        '6' => 6,
        '7' => 7,
        '8' => 8,
        '9' => 9,
        'a' => 10,
        'b' => 11,
        'c' => 12,
        'd' => 13,
        'e' => 14,
        'f' => 15,
        _ => 16,
    }
}

/// Exec mirror of [`digit_char`].
pub fn digit_char_x(v: u64) -> (c: char)
    requires
        v < 16,
    ensures
        c == digit_char(v as nat),
{
    match v {
        0 => '0',
        1 => '1',
        2 => '2',
        3 => '3',
        4 => '4',
        5 => '5',
        6 => '6',
        7 => '7',
        8 => '8',
        9 => '9',
        10 => 'a',
        11 => 'b',
        12 => 'c',
        13 => 'd',
        14 => 'e',
        _ => 'f',
    }
}

/// Appends the numeral of `n` in `base` to `out`.
pub fn write_numeral(out: &mut Vec<char>, n: u64, base: u64)
    requires
        2 <= base <= 16,
    ensures
        final(out)@ == old(out)@ + numeral(n as nat, base as nat),
    decreases n,
{
    if n < base {
        out.push(digit_char_x(n));
        assert(out@ =~= old(out)@ + numeral(n as nat, base as nat));
    } else {
        proof {
            assert(n / base < n) by (nonlinear_arith)
            requires
                2 <= base <= n,
        ;
        }
        write_numeral(out, n / base, base);
        out.push(digit_char_x(n % base));
        assert(out@ =~= old(out)@ + numeral(n as nat, base as nat));
    }
}

/// Appends the `width`-digit numeral of `n` in `base` to `out`.
pub fn write_numeral_fixed(out: &mut Vec<char>, n: u64, width: u64, base: u64)
    requires
        2 <= base <= 16,
    ensures
        final(out)@ == old(out)@ + numeral_fixed(n as nat, width as nat, base as nat),
    decreases width,
{
    if width == 0 {
        assert(out@ =~= old(out)@ + numeral_fixed(n as nat, width as nat, base as nat));
    } else {
        write_numeral_fixed(out, n / base, width - 1, base);
        out.push(digit_char_x(n % base));
        assert(out@ =~= old(out)@ + numeral_fixed(n as nat, width as nat, base as nat));
    }
}

/// Reads a numeral from position `i` of `s`: the exec mirror of
/// [`parse_nat`], refusing values above `max`.
pub fn parse_nat_x(s: &Vec<char>, i: usize, base: u64, max: u64) -> (r: Option<(u64, usize)>)
    requires
        i <= s@.len(),
        2 <= base <= 16,
    ensures
        match r {
            Some(p) => i < p.1 <= s@.len() && p.0 <= max && parse_nat(
                s@.skip(i as int),
                base as nat,
                max as nat,
            ) == Some((p.0 as nat, s@.skip(p.1 as int))),
            None => parse_nat(s@.skip(i as int), base as nat, max as nat) is None,
        },
{
    let ghost s0 = s@.skip(i as int);
    let mut j: usize = i;
    loop
        invariant
            i <= j <= s@.len(),
            2 <= base <= 16,
            forall|k: int| i <= k < j ==> is_digit(#[trigger] s@[k], base as nat),
        ensures
            i <= j <= s@.len(),
            forall|k: int| i <= k < j ==> is_digit(#[trigger] s@[k], base as nat),
            j == s@.len() || !is_digit(s@[j as int], base as nat),
        decreases s@.len() - j,
    {
        if j >= s.len() {
            break ;
        }
        let c = s[j];
        if digit_val_x(c) >= base {
            break ;
        }
        j = j + 1;
    }
    let ghost ds = s@.subrange(i as int, j as int);
    proof {
        assert(s0 =~= ds + s@.skip(j as int));
        if j == s@.len() {
            assert(s@.skip(j as int).len() == 0);
        }
        lemma_digits_prefix_of_concat(ds, s@.skip(j as int), base as nat);
        assert(digits_prefix(s0, base as nat) == ds);
    }
    if j == i {
        assert(ds.len() == 0);
        return None;
    }
    let mut acc: u64 = 0;
    let mut k: usize = i;
    while k < j
        invariant
            i <= k <= j <= s@.len(),
            2 <= base <= 16,
            forall|m: int| i <= m < j ==> is_digit(#[trigger] s@[m], base as nat),
            acc <= max,
            acc as nat == val_of(s@.subrange(i as int, k as int), base as nat),
            ds == s@.subrange(i as int, j as int),
            digits_prefix(s@.skip(i as int), base as nat) == ds,
            ds.len() == j - i,
        decreases j - k,
    {
        let d = digit_val_x(s[k]);
        assert(d < base);
        if d > max || acc > (max - d) / base {
            proof {
                assert(acc * base + d > max) by (nonlinear_arith)
                    requires
                        d > max || acc > (max - d) / (base as int),
                        base >= 2,
                        acc >= 0,
                        max >= 0,
                        d >= 0,
                ;
                let part = s@.subrange(i as int, (k + 1) as int);
                assert(part.drop_last() =~= s@.subrange(i as int, k as int));
                assert(part.last() == s@[k as int]);
                assert(val_of(part, base as nat) == acc as nat * base + d);
                assert(part =~= ds.subrange(0, k + 1 - i));
                lemma_val_of_prefix_le(ds, k + 1 - i, base as nat);
                assert(val_of(ds, base as nat) > max as nat);
            }
            return None;
        }
        proof {
            assert(acc * base + d <= max) by (nonlinear_arith)
                requires
                    acc <= (max - d) / (base as int),
                    base >= 2,
                    d <= max,
                    acc >= 0,
                    max >= 0,
            ;
            let part = s@.subrange(i as int, (k + 1) as int);
            assert(part.drop_last() =~= s@.subrange(i as int, k as int));
            assert(part.last() == s@[k as int]);
        }
        acc = acc * base + d;
        k = k + 1;
    }
    proof {
        assert(s@.subrange(i as int, k as int) == ds);
        assert(s0.skip(ds.len() as int) =~= s@.skip(j as int));
    }
    Some((acc, j))
}

} // verus!
