use vstd::prelude::*;

use crate::text::is_digit;

verus! {

// ---------------------------------------------------------------------------
// Writing numbers
// ---------------------------------------------------------------------------

/// The ASCII character of the decimal digit `d` (`0 <= d < 10`).
pub open spec fn digit_char(d: int) -> char {
    (48 + d) as char
}

/// The decimal digits of `n`, most significant first, without leading zeros
/// (`"0"` for zero): `format!("{}", n)`.
pub open spec fn decimal(n: nat) -> Seq<char>
    decreases n,
{
    if n < 10 {
        seq![digit_char(n as int)]
    } else {
        decimal(n / 10).push(digit_char((n % 10) as int))
    }
}

/// `s` with `'0'`s put in front until it is `width` characters long.
pub open spec fn zero_padded(s: Seq<char>, width: nat) -> Seq<char> {
    if s.len() >= width {
        s
    } else {
        Seq::new((width - s.len()) as nat, |i: int| '0') + s
    }
}

/// `format!("{:0width$}", v)` for an integer `v`: the sign counts in the width
/// and the zeros go between the sign and the digits.
pub open spec fn fmt_int(v: int, width: nat) -> Seq<char> {
    if v < 0 {
        seq!['-'] + zero_padded(decimal((-v) as nat), if width == 0 { 0 } else { (width - 1) as nat })
    } else {
        zero_padded(decimal(v as nat), width)
    }
}

/// Appends `decimal(n)` to `out`.
pub fn push_decimal(out: &mut Vec<char>, n: u64)
    ensures
        final(out)@ == old(out)@ + decimal(n as nat),
    decreases n,
{
    let ghost start = out@;
    if n >= 10 {
        push_decimal(out, n / 10);
    }
    let d = (n % 10) as u32;
    out.push(char_of_digit(d));
    assert(out@ == start + decimal(n as nat));
}

/// The character of the decimal digit `d`.
pub fn char_of_digit(d: u32) -> (c: char)
    requires
        d < 10,
    ensures
        c == digit_char(d as int),
{
    let c = if d == 0 {
        '0'
    } else if d == 1 {
        '1'
    } else if d == 2 {
        '2'
    } else if d == 3 {
        '3'
    } else if d == 4 {
        '4'
    } else if d == 5 {
        '5'
    } else if d == 6 {
        '6'
    } else if d == 7 {
        '7'
    } else if d == 8 {
        '8'
    } else {
        '9'
    };
    c
}

/// The decimal digits of `n`.
pub fn decimal_chars(n: u64) -> (out: Vec<char>)
    ensures
        out@ == decimal(n as nat),
{
    let mut out: Vec<char> = Vec::new();
    push_decimal(&mut out, n);
    assert(out@ == decimal(n as nat));
    out
}

/// Appends `fmt_int(v, width)` to `out`, where `v` is `-mag` when `negative`
/// and `mag` otherwise.
pub fn push_fmt_int(out: &mut Vec<char>, negative: bool, mag: u64, width: usize)
    ensures
        final(out)@ == old(out)@ + fmt_int(if negative { -(mag as int) } else { mag as int }, width as nat),
{
    let ghost start = out@;
    let ghost v: int = if negative { -(mag as int) } else { mag as int };
    let digits = decimal_chars(mag);
    let mut w = width;
    if negative && mag > 0 {
        out.push('-');
        w = if width == 0 { 0 } else { width - 1 };
    }
    let ghost pad = zero_padded(digits@, w as nat);
    let ghost mid = out@;
    let mut k = digits.len();
    while k < w
        invariant
            digits.len() <= k <= w || (w <= digits.len() && k == digits.len()),
            out@ == mid + Seq::new((k - digits.len()) as nat, |i: int| '0'),
        decreases w - k,
    {
        out.push('0');
        k += 1;
        assert(out@ == mid + Seq::new((k - digits.len()) as nat, |i: int| '0'));
    }
    let ghost zeros = out@;
    crate::text::push_all(out, &digits);
    assert(out@ == mid + pad);
    assert(out@ == start + fmt_int(v, width as nat));
}

// ---------------------------------------------------------------------------
// Reading numbers
// ---------------------------------------------------------------------------

/// All characters of `s` are ASCII digits.
pub open spec fn all_digits(s: Seq<char>) -> bool {
    forall|i: int| 0 <= i < s.len() ==> is_digit(#[trigger] s[i])
}

/// The value of the ASCII digit `c`.
pub open spec fn digit_value(c: char) -> nat {
    (c as int - 48) as nat
}

/// The number written by the decimal digits `s` (`0` for no digits).
pub open spec fn digits_value(s: Seq<char>) -> nat
    decreases s.len(),
{
    if s.len() == 0 {
        0
    } else {
        digits_value(s.drop_last()) * 10 + digit_value(s.last())
    }
}

/// `s.parse::<u64>()`: an optional `+`, then one or more ASCII digits whose
/// value fits in `u64`; `None` for any other text.
pub open spec fn parse_u64(s: Seq<char>) -> Option<u64> {
    let d = if s.len() > 0 && s[0] == '+' {
        s.drop_first()
    } else {
        s
    };
    if d.len() > 0 && all_digits(d) && digits_value(d) <= u64::MAX {
        Some(digits_value(d) as u64)
    } else {
        None
    }
}

/// `s.parse::<u64>().unwrap_or(0)`.
pub open spec fn parse_u64_or_zero(s: Seq<char>) -> nat {
    match parse_u64(s) {
        Some(v) => v as nat,
        None => 0,
    }
}

proof fn lemma_digits_value_prefix(s: Seq<char>, k: int)
    requires
        0 <= k <= s.len(),
    ensures
        digits_value(s.take(k)) <= digits_value(s),
    decreases s.len(),
{
    if k < s.len() {
        lemma_digits_value_prefix(s.drop_last(), k);
        assert(s.drop_last().take(k) == s.take(k));
    } else {
        assert(s.take(k) == s);
    }
}

/// `cs[from..to].parse::<u64>()` restricted to plain digits: the value of
/// the digits when they are one or more ASCII digits and fit in `u64`.
fn digits_to_u64(cs: &[char], from: usize) -> (r: Option<u64>)
    requires
        from <= cs.len(),
    ensures
        ({
            let d = cs@.skip(from as int);
            r == if d.len() > 0 && all_digits(d) && digits_value(d) <= u64::MAX {
                Some(digits_value(d) as u64)
            } else {
                None
            }
        }),
{
    let ghost d = cs@.skip(from as int);
    if from == cs.len() {
        return None;
    }
    let mut acc: u64 = 0;
    let mut i = from;
    assert(d.take(0) == Seq::<char>::empty());
    while i < cs.len()
        invariant
            from <= i <= cs.len(),
            d == cs@.skip(from as int),
            all_digits(d.take(i - from)),
            acc as nat == digits_value(d.take(i - from)),
        decreases cs.len() - i,
    {
        let c = cs[i];
        assert(d[i - from] == c);
        if !('0' <= c && c <= '9') {
            assert(!all_digits(d));
            return None;
        }
        let v = (c as u32) - 48;
        assert(d.take(i - from + 1).drop_last() == d.take(i - from));
        assert(d.take(i - from + 1).last() == c);
        if acc > (u64::MAX - v as u64) / 10 {
            proof {
                lemma_digits_value_prefix(d, i - from + 1);
                assert(digits_value(d.take(i - from + 1)) > u64::MAX);
            }
            return None;
        }
        acc = acc * 10 + v as u64;
        i += 1;
        assert(all_digits(d.take(i - from))) by {
            assert forall|k: int| 0 <= k < i - from implies is_digit(#[trigger] d.take(i - from)[k]) by {
                if k < i - from - 1 {
                    assert(d.take(i - from)[k] == d.take(i - from - 1)[k]);
                }
            }
        }
    }
    assert(d.take(i - from) == d);
    Some(acc)
}

/// `s.parse::<u64>()` on characters.
pub fn parse_u64_chars(cs: &[char]) -> (r: Option<u64>)
    ensures
        r == parse_u64(cs@),
{
    if cs.len() > 0 && cs[0] == '+' {
        assert(cs@.skip(1) == cs@.drop_first());
        digits_to_u64(cs, 1)
    } else {
        assert(cs@.skip(0) == cs@);
        digits_to_u64(cs, 0)
    }
}

} // verus!
