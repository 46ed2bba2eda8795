//! Text rendering of numbers, byte sizes and durations.

use vstd::prelude::*;

verus! {

/// The character of a decimal digit.
pub open spec fn digit_char(d: nat) -> char {
    (d + 48) as char
}

/// The decimal digits of `n`, most significant first, without leading zeros.
pub open spec fn decimal(n: nat) -> Seq<char>
    decreases n,
{
    if n < 10 {
        seq![digit_char(n)]
    } else {
        decimal(n / 10).push(digit_char(n % 10))
    }
}

/// `s` preceded by as many copies of `c` as make it `width` characters long.
pub open spec fn pad_left(s: Seq<char>, width: nat, c: char) -> Seq<char> {
    if s.len() < width {
        Seq::new((width - s.len()) as nat, |i: int| c) + s
    } else {
        s
    }
}

/// `n` in decimal, zero-padded to two places.
pub open spec fn two_digits(n: nat) -> Seq<char> {
    pad_left(decimal(n), 2, '0')
}

/// `n` in decimal, right-aligned in two places.
pub open spec fn right2(n: nat) -> Seq<char> {
    pad_left(decimal(n), 2, ' ')
}

/// Appends one character, by `String::push`, which std documents as adding
/// the character to the end of the string: the contents grow by exactly that
/// character.
#[verifier::external_body]
pub(crate) fn push_char(s: &mut String, c: char)
    ensures
        final(s)@ == old(s)@.push(c),
{
    s.push(c);
}

fn digit(d: u128) -> (c: char)
    requires
        d < 10,
    ensures
        c == digit_char(d as nat),
{
    let b: u8 = 48u8 + d as u8;
    b as char
}

/// Appends `n` in decimal.
pub fn push_decimal(s: &mut String, n: u128)
    ensures
        final(s)@ == old(s)@ + decimal(n as nat),
    decreases n,
{
    if n >= 10 {
        push_decimal(s, n / 10);
    }
    push_char(s, digit(n % 10));
    assert(s@ =~= old(s)@ + decimal(n as nat));
}

/// The number that a string of decimal digits denotes.
pub open spec fn digits_value(s: Seq<char>) -> int
    decreases s.len(),
{
    if s.len() == 0 {
        0
    } else {
        10 * digits_value(s.drop_last()) + (s.last() as int - 48)
    }
}

/// The decimal rendering of `n` consists of digits, starts with a non-zero
/// digit unless `n` is zero, and denotes `n`.
pub proof fn lemma_decimal_denotes(n: nat)
    ensures
        digits_value(decimal(n)) == n,
        forall|i: int| 0 <= i < decimal(n).len() ==> '0' <= #[trigger] decimal(n)[i] <= '9',
        n > 0 ==> decimal(n)[0] != '0',
        decimal(n).len() >= 1,
    decreases n,
{
    assert((((n % 10) + 48) as char) as int == (n % 10) + 48);
    if n < 10 {
        assert(decimal(n).drop_last() =~= Seq::<char>::empty());
        assert(digits_value(Seq::<char>::empty()) == 0);
        assert(digits_value(decimal(n)) == 10 * digits_value(decimal(n).drop_last()) + (decimal(n).last() as int - 48));
    } else {
        lemma_decimal_denotes(n / 10);
        let d = decimal(n / 10);
        assert(decimal(n).drop_last() =~= d);
        assert(decimal(n).last() == digit_char(n % 10));
        assert(digits_value(decimal(n)) == 10 * digits_value(decimal(n).drop_last()) + (decimal(n).last() as int - 48));
        assert forall|i: int| 0 <= i < decimal(n).len() implies '0' <= #[trigger] decimal(n)[i] <= '9' by {
            if i < d.len() {
                assert(decimal(n)[i] == d[i]);
            }
        }
        assert(decimal(n)[0] == d[0]);
    }
}

/// Padding puts `width - len` copies of the fill in front and keeps the text
/// itself at the end; text as long as the width is left alone.
pub proof fn lemma_pad_left_shape(s: Seq<char>, width: nat, c: char)
    ensures
        pad_left(s, width, c).len() == if s.len() < width { width } else { s.len() },
        forall|i: int|
            0 <= i < s.len() ==> #[trigger] pad_left(s, width, c)[pad_left(s, width, c).len() - s.len() + i]
                == s[i],
        forall|i: int|
            0 <= i < pad_left(s, width, c).len() - s.len() ==> #[trigger] pad_left(s, width, c)[i] == c,
{
}

/// Ten to the power `k`.
pub open spec fn pow10(k: nat) -> nat
    decreases k,
{
    if k == 0 {
        1
    } else {
        10 * pow10((k - 1) as nat)
    }
}

/// `n` has at most `k` decimal digits exactly when it is below `10^k`.
pub proof fn lemma_decimal_len(n: nat, k: nat)
    requires
        k >= 1,
    ensures
        decimal(n).len() >= 1,
        decimal(n).len() <= k <==> n < pow10(k),
    decreases n,
{
    if n < 10 {
        lemma_pow10_ge(k);
    } else {
        if k >= 2 {
            lemma_decimal_len(n / 10, (k - 1) as nat);
            assert(n / 10 < pow10((k - 1) as nat) <==> n < 10 * pow10((k - 1) as nat));
        } else {
            lemma_decimal_len(n / 10, 1);
            assert(pow10(1) == 10) by {
                reveal_with_fuel(pow10, 2);
            }
        }
    }
}

proof fn lemma_pow10_ge(k: nat)
    requires
        k >= 1,
    ensures
        pow10(k) >= 10,
    decreases k,
{
    if k > 1 {
        lemma_pow10_ge((k - 1) as nat);
    } else {
        reveal_with_fuel(pow10, 2);
    }
}

/// The number of decimal digits of `n`.
fn decimal_len(n: u64) -> (r: u64)
    ensures
        r as nat == decimal(n as nat).len(),
        r <= 20,
    decreases n,
{
    proof {
        assert(pow10(20) == 100000000000000000000) by {
            reveal_with_fuel(pow10, 21);
        }
        lemma_decimal_len(n as nat, 20);
    }
    if n >= 10 {
        1 + decimal_len(n / 10)
    } else {
        1
    }
}

/// Appends `n` in decimal, preceded by `c` up to a width of `width`.
pub fn push_padded(s: &mut String, n: u64, width: u64, c: char)
    ensures
        final(s)@ == old(s)@ + pad_left(decimal(n as nat), width as nat, c),
{
    let len = decimal_len(n);
    let ghost start = s@;
    if len < width {
        let pad = width - len;
        let mut i: u64 = 0;
        while i < pad
            invariant
                i <= pad,
                s@ == start + Seq::new(i as nat, |j: int| c),
            decreases pad - i,
        {
            push_char(s, c);
            i = i + 1;
            assert(s@ =~= start + Seq::new(i as nat, |j: int| c));
        }
    }
    push_decimal(s, n as u128);
    assert(s@ =~= old(s)@ + pad_left(decimal(n as nat), width as nat, c));
}

/// The uptime as shown in the header: days, hours and minutes, the leading
/// zero units left out.
pub open spec fn uptime_text(secs: nat) -> Seq<char> {
    let days = secs / 86400;
    let hours = (secs % 86400) / 3600;
    let mins = (secs % 3600) / 60;
    if days > 0 {
        decimal(days) + seq!['d', ' '] + two_digits(hours) + seq!['h', ' '] + two_digits(mins)
            + seq!['m']
    } else if hours > 0 {
        decimal(hours) + seq!['h', ' '] + two_digits(mins) + seq!['m']
    } else {
        decimal(mins) + seq!['m']
    }
}

/// The running time of a process as shown in the table: hours and minutes,
/// minutes and seconds, or seconds alone.
pub open spec fn runtime_text(secs: nat) -> Seq<char> {
    let hours = secs / 3600;
    let mins = (secs % 3600) / 60;
    let s = secs % 60;
    if hours > 0 {
        right2(hours) + seq!['h'] + two_digits(mins) + seq!['m']
    } else if mins > 0 {
        right2(mins) + seq!['m'] + two_digits(s) + seq!['s']
    } else {
        right2(s) + seq!['s']
    }
}

/// Renders a system uptime given in seconds, such as `3d 04h 05m`.
pub fn format_uptime(secs: u64) -> (r: String)
    ensures
        r@ == uptime_text(secs as nat),
{
    let days = secs / 86400;
    let hours = (secs % 86400) / 3600;
    let mins = (secs % 3600) / 60;
    let mut s = String::new();
    if days > 0 {
        push_decimal(&mut s, days as u128);
        push_char(&mut s, 'd');
        push_char(&mut s, ' ');
        push_padded(&mut s, hours, 2, '0');
        push_char(&mut s, 'h');
        push_char(&mut s, ' ');
        push_padded(&mut s, mins, 2, '0');
        push_char(&mut s, 'm');
    } else if hours > 0 {
        push_decimal(&mut s, hours as u128);
        push_char(&mut s, 'h');
        push_char(&mut s, ' ');
        push_padded(&mut s, mins, 2, '0');
        push_char(&mut s, 'm');
    } else {
        push_decimal(&mut s, mins as u128);
        push_char(&mut s, 'm');
    }
    assert(s@ =~= uptime_text(secs as nat));
    s
}

/// Renders the running time of a process given in seconds, such as ` 1h05m`.
pub fn format_runtime(secs: u64) -> (r: String)
    ensures
        r@ == runtime_text(secs as nat),
{
    let hours = secs / 3600;
    let mins = (secs % 3600) / 60;
    let sec = secs % 60;
    let mut s = String::new();
    if hours > 0 {
        push_padded(&mut s, hours, 2, ' ');
        push_char(&mut s, 'h');
        push_padded(&mut s, mins, 2, '0');
        push_char(&mut s, 'm');
    } else if mins > 0 {
        push_padded(&mut s, mins, 2, ' ');
        push_char(&mut s, 'm');
        push_padded(&mut s, sec, 2, '0');
        push_char(&mut s, 's');
    } else {
        push_padded(&mut s, sec, 2, ' ');
        push_char(&mut s, 's');
    }
    assert(s@ =~= runtime_text(secs as nat));
    s
}

/// Two to the power `k`.
pub open spec fn pow2(k: nat) -> nat
    decreases k,
{
    if k == 0 {
        1
    } else {
        2 * pow2((k - 1) as nat)
    }
}

/// 1024 to the power `k`.
pub open spec fn pow1024(k: nat) -> nat
    decreases k,
{
    if k == 0 {
        1
    } else {
        1024 * pow1024((k - 1) as nat)
    }
}

/// `n / d` rounded to the nearest integer, a tie going to the even one.
pub open spec fn round_half_even(n: nat, d: nat) -> nat {
    let q = n / d;
    let r = n % d;
    if 2 * r > d || (2 * r == d && q % 2 == 1) {
        q + 1
    } else {
        q
    }
}

/// The spacing of the doubles around `b`: the least power of two, from `2^k`
/// on, by which `b` leaves a quotient below `2^53`.
pub open spec fn f64_spacing_from(b: nat, k: nat) -> nat
    decreases 64 - k,
{
    if k >= 64 || b / pow2(k) < pow2(53) {
        pow2(k)
    } else {
        f64_spacing_from(b, k + 1)
    }
}

/// The value of the double nearest to `b` (ties to even): what `b as f64`
/// holds.
pub open spec fn f64_of(b: nat) -> nat {
    let p = f64_spacing_from(b, 0);
    round_half_even(b, p) * p
}

/// How many times a size of `f` bytes is divided by 1024 before it is shown:
/// while it is at least 1024, up to four times.
pub open spec fn size_unit_from(f: nat, i: nat) -> nat
    decreases 4 - i,
{
    if i < 4 && f >= pow1024(i + 1) {
        size_unit_from(f, i + 1)
    } else {
        i
    }
}

/// The letter of the unit reached after `i` divisions.
pub open spec fn unit_letter(i: nat) -> char {
    if i == 0 {
        'B'
    } else if i == 1 {
        'K'
    } else if i == 2 {
        'M'
    } else if i == 3 {
        'G'
    } else {
        'T'
    }
}

/// A number of tenths shown with one decimal place.
pub open spec fn tenths_text(t: nat) -> Seq<char> {
    decimal(t / 10) + seq!['.', digit_char(t % 10)]
}

/// A byte count as shown in the panels: the count taken as a double, scaled
/// down by 1024 until it is below 1024 or reaches terabytes, with one decimal
/// place and the unit letter.
pub open spec fn bytes_text(bytes: nat) -> Seq<char> {
    let f = f64_of(bytes);
    let i = size_unit_from(f, 0);
    tenths_text(round_half_even(10 * f, pow1024(i))) + seq![unit_letter(i)]
}

fn round_half_even_u128(n: u128, d: u128) -> (r: u128)
    requires
        d > 0,
        n < 0x1_0000_0000_0000_0000_0000_0000,
    ensures
        r as nat == round_half_even(n as nat, d as nat),
        r as nat <= n as nat + 1,
{
    let q = n / d;
    let rem = n % d;
    assert(q <= n) by (nonlinear_arith)
        requires
            d > 0,
            q == n / d,
    ;
    if rem > d - rem || (rem == d - rem && q % 2 == 1) {
        q + 1
    } else {
        q
    }
}

/// `b as f64`, as an exact integer.
fn f64_of_u64(b: u64) -> (f: u128)
    ensures
        f as nat == f64_of(b as nat),
        f <= 0x1_0000_0000_0000_0000,
{
    proof {
        assert(pow2(53) == 0x20_0000_0000_0000) by {
            reveal_with_fuel(pow2, 54);
        }
        assert(pow2(11) == 2048) by {
            reveal_with_fuel(pow2, 12);
        }
    }
    let mut p: u64 = 1;
    let mut k: u64 = 0;
    while b / p >= 0x20_0000_0000_0000
        invariant
            p as nat == pow2(k as nat),
            k <= 11,
            1 <= p <= 2048,
            pow2(53) == 0x20_0000_0000_0000,
            pow2(11) == 2048,
            f64_spacing_from(b as nat, k as nat) == f64_spacing_from(b as nat, 0),
        decreases 64 - k,
    {
        if k == 11 {
            assert(b / 2048 < 0x20_0000_0000_0000);
        }
        assert(p <= 1024) by {
            lemma_pow2_mono(k as nat, 10);
            reveal_with_fuel(pow2, 11);
        }
        p = p * 2;
        k = k + 1;
    }
    let q = round_half_even_u128(b as u128, p as u128);
    assert(q <= 0x20_0000_0000_0000);
    assert(q * p <= 0x1_0000_0000_0000_0000) by (nonlinear_arith)
        requires
            q <= 0x20_0000_0000_0000,
            p <= 2048,
    ;
    q * (p as u128)
}

proof fn lemma_pow2_mono(a: nat, b: nat)
    requires
        a <= b,
    ensures
        pow2(a) <= pow2(b),
    decreases b,
{
    if a < b {
        lemma_pow2_mono(a, (b - 1) as nat);
    }
}

/// Counts below `2^53` are held exactly by a double.
pub proof fn lemma_f64_exact_below_2_53(b: nat)
    requires
        b < pow2(53),
    ensures
        f64_of(b) == b,
{
    assert(pow2(0) == 1);
    assert(f64_spacing_from(b, 0) == 1);
}

/// A count below 1024 bytes is shown as itself with `.0B`.
pub proof fn lemma_small_byte_counts(b: nat)
    requires
        b < 1024,
    ensures
        bytes_text(b) == decimal(b) + seq!['.', '0', 'B'],
{
    assert(pow2(53) == 0x20_0000_0000_0000) by {
        reveal_with_fuel(pow2, 54);
    }
    lemma_f64_exact_below_2_53(b);
    assert(pow1024(1) == 1024) by {
        reveal_with_fuel(pow1024, 2);
    }
    assert(size_unit_from(b, 0) == 0);
    assert(pow1024(0) == 1);
    assert(round_half_even(10 * b, 1) == 10 * b);
    assert((10 * b) / 10 == b);
    assert((10 * b) % 10 == 0);
    assert(digit_char(0) == '0');
    assert(bytes_text(b) =~= decimal(b) + seq!['.', '0', 'B']);
}

/// Renders a byte count with one decimal place and a unit letter, such as
/// `1.5K` or `512.0B`.
pub fn format_bytes(bytes: u64) -> (r: String)
    ensures
        r@ == bytes_text(bytes as nat),
{
    let f = f64_of_u64(bytes);
    let mut i: u64 = 0;
    let mut d: u128 = 1;
    while i < 4 && f >= d * 1024
        invariant
            i <= 4,
            d as nat == pow1024(i as nat),
            1 <= d <= 0x100_0000_0000,
            size_unit_from(f as nat, i as nat) == size_unit_from(f as nat, 0),
        decreases 4 - i,
    {
        assert(d * 1024 <= 0x100_0000_0000) by {
            reveal_with_fuel(pow1024, 5);
            if i == 0 {} else if i == 1 {} else if i == 2 {} else {}
        }
        d = d * 1024;
        i = i + 1;
    }
    let t = round_half_even_u128(10 * f, d);
    let mut s = String::new();
    push_decimal(&mut s, t / 10);
    push_char(&mut s, '.');
    push_char(&mut s, digit(t % 10));
    let unit = if i == 0 {
        'B'
    } else if i == 1 {
        'K'
    } else if i == 2 {
        'M'
    } else if i == 3 {
        'G'
    } else {
        'T'
    };
    push_char(&mut s, unit);
    assert(s@ =~= bytes_text(bytes as nat));
    s
}

} // verus!
