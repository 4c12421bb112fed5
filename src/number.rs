use vstd::prelude::*;

verus! {

/// Numbers are fixed-point decimals: an `i64` holding the value in
/// millionths, so that `1.5` is held as `1_500_000`.
pub const SCALE: i64 = 1000000;

pub open spec fn is_digit(c: char) -> bool {
    '0' <= c && c <= '9'
}

pub open spec fn digit_value(c: char) -> int {
    c as int - '0' as int
}

/// The value of a run of decimal digits.
pub open spec fn digits_value(s: Seq<char>) -> int
    decreases s.len(),
{
    if s.len() == 0 {
        0
    } else {
        digits_value(s.drop_last()) * 10 + digit_value(s.last())
    }
}

/// The first `places` fraction digits of `s`, padded with zeros, read as an
/// integer.
pub open spec fn fraction_places(s: Seq<char>, places: nat) -> int
    decreases places,
{
    if places == 0 {
        0
    } else {
        fraction_places(s, (places - 1) as nat) * 10 + if places - 1 < s.len() {
            digit_value(s[places - 1])
        } else {
            0
        }
    }
}

/// The value, in millionths, of the literal `whole.fraction`; digits past the
/// sixth after the point are dropped.
pub open spec fn literal_value(whole: Seq<char>, fraction: Seq<char>) -> int {
    digits_value(whole) * SCALE + fraction_places(fraction, 6)
}

pub open spec fn all_digits(s: Seq<char>) -> bool {
    forall|i: int| 0 <= i < s.len() ==> is_digit(#[trigger] s[i])
}

proof fn lemma_digits_value_grows(s: Seq<char>, i: int, j: int)
    requires
        0 <= i <= j <= s.len(),
        all_digits(s),
    ensures
        0 <= digits_value(s.subrange(0, i)) <= digits_value(s.subrange(0, j)),
    decreases j,
{
    if j > 0 {
        assert(s.subrange(0, j).drop_last() =~= s.subrange(0, j - 1));
        assert(is_digit(s[j - 1]));
        if i == j {
            lemma_digits_value_grows(s, j - 1, j - 1);
        } else {
            lemma_digits_value_grows(s, i, j - 1);
        }
    }
}

/// The value of the digits `src[a..d)` followed by the fraction digits
/// `src[f..e)`, or `None` where it does not fit in an `i64`.
pub fn literal_value_of(src: &Vec<char>, a: usize, d: usize, f: usize, e: usize) -> (r: Option<
    i64,
>)
    requires
        a <= d <= src@.len(),
        f <= e <= src@.len(),
        all_digits(src@.subrange(a as int, d as int)),
        all_digits(src@.subrange(f as int, e as int)),
    ensures
        ({
            let v = literal_value(
                src@.subrange(a as int, d as int),
                src@.subrange(f as int, e as int),
            );
            match r {
                Some(x) => x as int == v,
                None => v > i64::MAX,
            }
        }),
{
    let ghost whole = src@.subrange(a as int, d as int);
    let ghost fraction = src@.subrange(f as int, e as int);
    let mut frac: i64 = 0;
    let mut lim: i64 = 1;
    let mut k: usize = 0;
    while k < 6
        invariant
            k <= 6,
            f <= e <= src@.len(),
            fraction == src@.subrange(f as int, e as int),
            all_digits(fraction),
            0 <= frac < lim,
            frac as int == fraction_places(fraction, k as nat),
            k == 0 ==> lim == 1,
            k == 1 ==> lim == 10,
            k == 2 ==> lim == 100,
            k == 3 ==> lim == 1000,
            k == 4 ==> lim == 10000,
            k == 5 ==> lim == 100000,
            k == 6 ==> lim == 1000000,
        decreases 6 - k,
    {
        let dg: i64 = if k < e - f {
            assert(is_digit(fraction[k as int]));
            (src[f + k] as u32 - '0' as u32) as i64
        } else {
            0
        };
        frac = frac * 10 + dg;
        lim = lim * 10;
        k = k + 1;
    }
    let mut acc: i64 = 0;
    let mut i: usize = a;
    while i < d
        invariant
            a <= i <= d <= src@.len(),
            whole == src@.subrange(a as int, d as int),
            all_digits(whole),
            0 <= acc,
            acc as int == digits_value(whole.subrange(0, i - a)),
            fraction == src@.subrange(f as int, e as int),
            frac as int == fraction_places(fraction, 6),
            0 <= frac < 1000000,
        decreases d - i,
    {
        assert(is_digit(whole[i - a]));
        let dg: i64 = (src[i] as u32 - '0' as u32) as i64;
        assert(whole.subrange(0, i + 1 - a).drop_last() =~= whole.subrange(0, i - a));
        if acc > (i64::MAX - dg) / 10 {
            assert(acc * 10 + dg > i64::MAX) by (nonlinear_arith)
                requires
                    acc > (i64::MAX - dg) / 10,
                    0 <= dg <= 9,
            ;
            proof {
                lemma_digits_value_grows(whole, i + 1 - a, d - a);
                assert(whole.subrange(0, d - a) =~= whole);
                let x = digits_value(whole);
                assert(x * 1000000 + frac > i64::MAX) by (nonlinear_arith)
                    requires
                        x > i64::MAX,
                        frac >= 0,
                ;
            }
            return None;
        }
        acc = acc * 10 + dg;
        i = i + 1;
    }
    assert(whole.subrange(0, d - a) =~= whole);
    let room: i64 = (i64::MAX - frac) / SCALE;
    if acc > room {
        assert(acc * 1000000 + frac > i64::MAX) by (nonlinear_arith)
            requires
                acc > room,
                room == (i64::MAX - frac) / 1000000,
                0 <= frac < 1000000,
        ;
        return None;
    }
    assert(acc * 1000000 + frac <= i64::MAX) by (nonlinear_arith)
        requires
            0 <= acc <= room,
            room == (i64::MAX - frac) / 1000000,
            0 <= frac < 1000000,
    ;
    Some(acc * SCALE + frac)
}

pub open spec fn in_range(x: int) -> bool {
    i64::MIN <= x <= i64::MAX
}

pub open spec fn abs(x: int) -> int {
    if x < 0 {
        -x
    } else {
        x
    }
}

/// Division that rounds toward zero.
pub open spec fn trunc_div(x: int, y: int) -> int {
    let q = abs(x) / abs(y);
    if (x < 0) != (y < 0) {
        -q
    } else {
        q
    }
}

/// The product of two fixed-point numbers, rounded toward zero.
pub open spec fn product(a: int, b: int) -> int {
    trunc_div(a * b, SCALE as int)
}

/// The quotient of two fixed-point numbers, rounded toward zero.
pub open spec fn quotient(a: int, b: int) -> int {
    trunc_div(a * SCALE, b)
}

pub fn checked_add(a: i64, b: i64) -> (r: Option<i64>)
    ensures
        match r {
            Some(x) => x == a + b,
            None => !in_range(a + b),
        },
{
    if (b > 0 && a > i64::MAX - b) || (b < 0 && a < i64::MIN - b) {
        None
    } else {
        Some(a + b)
    }
}

pub fn checked_sub(a: i64, b: i64) -> (r: Option<i64>)
    ensures
        match r {
            Some(x) => x == a - b,
            None => !in_range(a - b),
        },
{
    if (b < 0 && a > i64::MAX + b) || (b > 0 && a < i64::MIN + b) {
        None
    } else {
        Some(a - b)
    }
}

pub fn checked_neg(a: i64) -> (r: Option<i64>)
    ensures
        match r {
            Some(x) => x == -a,
            None => !in_range(-a),
        },
{
    if a == i64::MIN {
        None
    } else {
        Some(-a)
    }
}

/// `sign * q` as an `i64`, where it fits.
fn signed(neg: bool, q: u128) -> (r: Option<i64>)
    ensures
        ({
            let v = if neg {
                -(q as int)
            } else {
                q as int
            };
            match r {
                Some(x) => x == v,
                None => !in_range(v),
            }
        }),
{
    if neg {
        if q > 9223372036854775808 {
            None
        } else {
            Some((-(q as i128)) as i64)
        }
    } else {
        if q > 9223372036854775807 {
            None
        } else {
            Some(q as i64)
        }
    }
}

/// The magnitude of `x` as a `u128`.
fn magnitude(x: i128) -> (r: u128)
    requires
        x > i128::MIN,
    ensures
        r as int == abs(x as int),
{
    if x < 0 {
        (-x) as u128
    } else {
        x as u128
    }
}

pub fn checked_mul(a: i64, b: i64) -> (r: Option<i64>)
    ensures
        match r {
            Some(x) => x == product(a as int, b as int),
            None => !in_range(product(a as int, b as int)),
        },
{
    assert(-0x4000_0000_0000_0000_0000_0000_0000_0000 <= (a as int) * (b as int)
        <= 0x4000_0000_0000_0000_0000_0000_0000_0000) by (nonlinear_arith)
        requires
            i64::MIN <= a <= i64::MAX,
            i64::MIN <= b <= i64::MAX,
    ;
    let x: i128 = (a as i128) * (b as i128);
    let m = magnitude(x);
    let q = m / 1000000;
    signed(x < 0, q)
}

pub fn checked_div(a: i64, b: i64) -> (r: Option<i64>)
    requires
        b != 0,
    ensures
        match r {
            Some(x) => x == quotient(a as int, b as int),
            None => !in_range(quotient(a as int, b as int)),
        },
{
    assert(-0x4000_0000_0000_0000_0000_0000_0000_0000 <= (a as int) * 1000000
        <= 0x4000_0000_0000_0000_0000_0000_0000_0000) by (nonlinear_arith)
        requires
            i64::MIN <= a <= i64::MAX,
    ;
    let x: i128 = (a as i128) * 1000000;
    let y: i128 = b as i128;
    let q = magnitude(x) / magnitude(y);
    signed((x < 0) != (y < 0), q)
}

pub open spec fn digit_char(d: int) -> char {
    if d == 0 {
        '0'
    } else if d == 1 {
        '1'
    } else if d == 2 {
        '2'
    } else if d == 3 {
        '3'
    } else if d == 4 {
        '4'
    } else if d == 5 {
        '5'
    } else if d == 6 {
        '6'
    } else if d == 7 {
        '7'
    } else if d == 8 {
        '8'
    } else {
        '9'
    }
}

/// The decimal digits of `n`.
pub open spec fn digits(n: nat) -> Seq<char>
    decreases n,
{
    if n < 10 {
        seq![digit_char(n as int)]
    } else {
        digits(n / 10).push(digit_char((n % 10) as int))
    }
}

/// The last `k` decimal digits of `n`, with leading zeros.
pub open spec fn fixed_digits(n: nat, k: nat) -> Seq<char>
    decreases k,
{
    if k == 0 {
        Seq::empty()
    } else {
        fixed_digits(n / 10, (k - 1) as nat).push(digit_char((n % 10) as int))
    }
}

/// `s` without its trailing zeros.
pub open spec fn trim_zeros(s: Seq<char>) -> Seq<char>
    decreases s.len(),
{
    if s.len() > 0 && s.last() == '0' {
        trim_zeros(s.drop_last())
    } else {
        s
    }
}

/// The text of a non-negative fixed-point number: its whole part, then its
/// fraction without trailing zeros, if it has one.
pub open spec fn show_magnitude(m: nat) -> Seq<char> {
    digits(m / 1000000) + if m % 1000000 == 0 {
        Seq::empty()
    } else {
        seq!['.'] + trim_zeros(fixed_digits(m % 1000000, 6))
    }
}

/// The text of a fixed-point number: `7`, `-2.5`, `0.333333`.
pub open spec fn show_number(n: int) -> Seq<char> {
    if n < 0 {
        seq!['-'] + show_magnitude((-n) as nat)
    } else {
        show_magnitude(n as nat)
    }
}

fn digit_char_of(d: u64) -> (r: char)
    requires
        d < 10,
    ensures
        r == digit_char(d as int),
{
    if d == 0 {
        '0'
    } else if d == 1 {
        '1'
    } else if d == 2 {
        '2'
    } else if d == 3 {
        '3'
    } else if d == 4 {
        '4'
    } else if d == 5 {
        '5'
    } else if d == 6 {
        '6'
    } else if d == 7 {
        '7'
    } else if d == 8 {
        '8'
    } else {
        '9'
    }
}

fn push_digits(n: u64, out: &mut Vec<char>)
    ensures
        final(out)@ == old(out)@ + digits(n as nat),
    decreases n,
{
    if n >= 10 {
        push_digits(n / 10, out);
    }
    out.push(digit_char_of(n % 10));
    assert(final(out)@ =~= old(out)@ + digits(n as nat)) by {
        if n >= 10 {
            assert(digits(n as nat) == digits((n / 10) as nat).push(digit_char((n % 10) as int)));
        }
    }
}

fn push_fixed_digits(n: u64, k: u64, out: &mut Vec<char>)
    ensures
        final(out)@ == old(out)@ + fixed_digits(n as nat, k as nat),
    decreases k,
{
    if k == 0 {
        assert(final(out)@ =~= old(out)@ + fixed_digits(n as nat, k as nat));
        return;
    }
    push_fixed_digits(n / 10, k - 1, out);
    out.push(digit_char_of(n % 10));
    assert(final(out)@ =~= old(out)@ + fixed_digits(n as nat, k as nat));
}

pub fn push_all(out: &mut Vec<char>, s: &Vec<char>)
    ensures
        final(out)@ == old(out)@ + s@,
{
    let mut i: usize = 0;
    while i < s.len()
        invariant
            i <= s@.len(),
            out@ == old(out)@ + s@.subrange(0, i as int),
        decreases s@.len() - i,
    {
        out.push(s[i]);
        i = i + 1;
        assert(out@ =~= old(out)@ + s@.subrange(0, i as int));
    }
    assert(s@.subrange(0, i as int) =~= s@);
}

/// Appends the text of the fixed-point number `n` (`show_number`).
pub fn push_number(n: i64, out: &mut Vec<char>)
    ensures
        final(out)@ == old(out)@ + show_number(n as int),
{
    let ghost start = out@;
    let m: u64 = if n < 0 {
        out.push('-');
        (-(n as i128)) as u64
    } else {
        n as u64
    };
    let ghost before = out@;
    push_digits(m / 1000000, out);
    let f = m % 1000000;
    if f != 0 {
        let mut frac: Vec<char> = Vec::new();
        push_fixed_digits(f, 6, &mut frac);
        let ghost full = frac@;
        assert(full =~= fixed_digits(f as nat, 6));
        while frac.len() > 0 && frac[frac.len() - 1] == '0'
            invariant
                trim_zeros(frac@) == trim_zeros(full),
            decreases frac@.len(),
        {
            frac.pop();
        }
        out.push('.');
        push_all(out, &frac);
        assert(out@ =~= before + show_magnitude(m as nat));
    } else {
        assert(out@ =~= before + show_magnitude(m as nat));
    }
    assert(out@ =~= start + show_number(n as int));
}

} // verus!
