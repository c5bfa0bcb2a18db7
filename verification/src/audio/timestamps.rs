//! The order of the SRT times that transcription writes.
use vstd::prelude::*;

use super::{tdiv, timestamp_text, trem};
use crate::decimal::{decimal, digit_char, fmt_int, zero_padded};
use crate::text::{lemma_text_le_concat, text_le};

verus! {

spec fn two_digits(n: int) -> Seq<char> {
    seq![digit_char(n / 10), digit_char(n % 10)]
}

spec fn three_digits(n: int) -> Seq<char> {
    seq![digit_char(n / 100), digit_char((n / 10) % 10), digit_char(n % 10)]
}

proof fn lemma_digit_order(a: int, b: int)
    requires
        0 <= a < b < 10,
    ensures
        digit_char(a) < digit_char(b),
        digit_char(a) != digit_char(b),
{
}

proof fn lemma_fmt_two(n: int)
    requires
        0 <= n < 100,
    ensures
        fmt_int(n, 2) == two_digits(n),
{
    if n < 10 {
        assert(decimal(n as nat) == seq![digit_char(n)]);
        assert(zero_padded(decimal(n as nat), 2) =~= seq!['0', digit_char(n)]);
    } else {
        assert(decimal((n / 10) as nat) == seq![digit_char(n / 10)]);
        assert(decimal(n as nat) =~= seq![digit_char(n / 10), digit_char(n % 10)]);
    }
}

proof fn lemma_fmt_three(n: int)
    requires
        0 <= n < 1000,
    ensures
        fmt_int(n, 3) == three_digits(n),
{
    if n < 10 {
        assert(decimal(n as nat) == seq![digit_char(n)]);
        assert(zero_padded(decimal(n as nat), 3) =~= seq!['0', '0', digit_char(n)]);
    } else if n < 100 {
        assert(decimal((n / 10) as nat) == seq![digit_char(n / 10)]);
        assert(decimal(n as nat) =~= seq![digit_char(n / 10), digit_char(n % 10)]);
        assert(zero_padded(decimal(n as nat), 3) =~= seq!['0', digit_char(n / 10), digit_char(n % 10)]);
        assert((n / 10) % 10 == n / 10);
    } else {
        assert(n / 10 / 10 == n / 100);
        assert(decimal((n / 100) as nat) == seq![digit_char(n / 100)]);
        assert(decimal((n / 10) as nat) =~= seq![digit_char(n / 100), digit_char((n / 10) % 10)]);
        assert(decimal(n as nat) =~= three_digits(n));
    }
}

proof fn lemma_two_digits_order(a: int, b: int)
    requires
        0 <= a <= b < 100,
    ensures
        a == b || (text_le(two_digits(a), two_digits(b)) && two_digits(a) != two_digits(b)),
{
    if a < b {
        let x = two_digits(a);
        let y = two_digits(b);
        if a / 10 < b / 10 {
            lemma_digit_order(a / 10, b / 10);
            assert(x[0] != y[0]);
        } else {
            assert(a % 10 < b % 10);
            lemma_digit_order(a % 10, b % 10);
            assert(x.drop_first() =~= seq![digit_char(a % 10)]);
            assert(y.drop_first() =~= seq![digit_char(b % 10)]);
            assert(x[1] != y[1]);
            assert(text_le(x.drop_first(), y.drop_first()));
            assert(text_le(x, y));
        }
    }
}

proof fn lemma_three_digits_order(a: int, b: int)
    requires
        0 <= a <= b < 1000,
    ensures
        a == b || (text_le(three_digits(a), three_digits(b)) && three_digits(a) != three_digits(b)),
{
    if a < b {
        let x = three_digits(a);
        let y = three_digits(b);
        assert(a == 100 * (a / 100) + 10 * ((a / 10) % 10) + a % 10);
        assert(b == 100 * (b / 100) + 10 * ((b / 10) % 10) + b % 10);
        if a / 100 < b / 100 {
            lemma_digit_order(a / 100, b / 100);
            assert(x[0] != y[0]);
        } else if (a / 10) % 10 < (b / 10) % 10 {
            lemma_digit_order((a / 10) % 10, (b / 10) % 10);
            assert(x.drop_first() =~= seq![digit_char((a / 10) % 10), digit_char(a % 10)]);
            assert(y.drop_first() =~= seq![digit_char((b / 10) % 10), digit_char(b % 10)]);
            assert(x[1] != y[1]);
            assert(text_le(x.drop_first(), y.drop_first()));
            assert(text_le(x, y));
        } else {
            assert(a % 10 < b % 10);
            lemma_digit_order(a % 10, b % 10);
            assert(x.drop_first().drop_first() =~= seq![digit_char(a % 10)]);
            assert(y.drop_first().drop_first() =~= seq![digit_char(b % 10)]);
            assert(x[2] != y[2]);
            assert(text_le(x.drop_first().drop_first(), y.drop_first().drop_first()));
            assert(text_le(x.drop_first(), y.drop_first()));
            assert(text_le(x, y));
        }
    }
}

proof fn lemma_timestamp_parts(t: int)
    requires
        0 <= t < 36_000_000,
    ensures
        timestamp_text(t) == two_digits(t * 10 / 3_600_000) + (seq![':'] + (two_digits(
            (t * 10 / 60_000) % 60,
        ) + (seq![':'] + (two_digits((t * 10 / 1_000) % 60) + (seq![','] + three_digits(
            (t * 10) % 1_000,
        )))))),
{
    let ms = t * 10;
    assert(tdiv(ms, 3_600_000) == ms / 3_600_000);
    assert(tdiv(ms, 60_000) == ms / 60_000);
    assert(tdiv(ms, 1_000) == ms / 1_000);
    assert(trem(ms / 60_000, 60) == (ms / 60_000) % 60);
    assert(trem(ms / 1_000, 60) == (ms / 1_000) % 60);
    assert(trem(ms, 1_000) == ms % 1_000);
    lemma_fmt_two(ms / 3_600_000);
    lemma_fmt_two((ms / 60_000) % 60);
    lemma_fmt_two((ms / 1_000) % 60);
    lemma_fmt_three(ms % 1_000);
    assert(timestamp_text(t) =~= two_digits(ms / 3_600_000) + (seq![':'] + (two_digits(
        (ms / 60_000) % 60,
    ) + (seq![':'] + (two_digits((ms / 1_000) % 60) + (seq![','] + three_digits(ms % 1_000)))))));
}

proof fn lemma_parts_order(a: int, b: int)
    requires
        0 <= a <= b,
    ensures
        a / 3_600_000 < b / 3_600_000 || (a / 3_600_000 == b / 3_600_000 && ((a / 60_000) % 60 < (b
            / 60_000) % 60 || ((a / 60_000) % 60 == (b / 60_000) % 60 && ((a / 1_000) % 60 < (b
            / 1_000) % 60 || ((a / 1_000) % 60 == (b / 1_000) % 60 && a % 1_000 <= b % 1_000))))),
{
    let qa = a / 1_000;
    let qb = b / 1_000;
    assert(qa <= qb) by (nonlinear_arith)
        requires
            0 <= a <= b,
            qa == a / 1_000,
            qb == b / 1_000,
    ;
    assert(a / 60_000 == qa / 60) by (nonlinear_arith)
        requires
            a >= 0,
            qa == a / 1_000,
    ;
    assert(b / 60_000 == qb / 60) by (nonlinear_arith)
        requires
            b >= 0,
            qb == b / 1_000,
    ;
    assert(a / 3_600_000 == (qa / 60) / 60) by (nonlinear_arith)
        requires
            a >= 0,
            qa == a / 1_000,
    ;
    assert(b / 3_600_000 == (qb / 60) / 60) by (nonlinear_arith)
        requires
            b >= 0,
            qb == b / 1_000,
    ;
    let ra = qa / 60;
    let rb = qb / 60;
    assert(ra <= rb);
    assert(ra == 60 * (ra / 60) + ra % 60);
    assert(rb == 60 * (rb / 60) + rb % 60);
    assert(qa == 60 * ra + qa % 60);
    assert(qb == 60 * rb + qb % 60);
    assert(a == 1_000 * qa + a % 1_000);
    assert(b == 1_000 * qb + b % 1_000);
}

/// The times that transcription writes sort as text in the order of time:
/// for `0 <= a <= b` ticks under 100 hours, both texts are twelve characters
/// long (`HH:MM:SS,mmm`) and `timestamp_text(a) <= timestamp_text(b)`.
pub proof fn law_timestamp_text_order(a: int, b: int)
    requires
        0 <= a <= b < 36_000_000,
    ensures
        timestamp_text(a).len() == 12,
        timestamp_text(b).len() == 12,
        text_le(timestamp_text(a), timestamp_text(b)),
{
    lemma_timestamp_parts(a);
    lemma_timestamp_parts(b);
    let ma = a * 10;
    let mb = b * 10;
    lemma_parts_order(ma, mb);
    assert(ma / 3_600_000 < 100);
    assert(mb / 3_600_000 < 100);
    let ha = two_digits(ma / 3_600_000);
    let hb = two_digits(mb / 3_600_000);
    let na = two_digits((ma / 60_000) % 60);
    let nb = two_digits((mb / 60_000) % 60);
    let sa = two_digits((ma / 1_000) % 60);
    let sb = two_digits((mb / 1_000) % 60);
    let xa = three_digits(ma % 1_000);
    let xb = three_digits(mb % 1_000);
    let colon = seq![':'];
    let comma = seq![','];
    lemma_two_digits_order(ma / 3_600_000, mb / 3_600_000);
    lemma_text_le_concat(ha, hb, colon + (na + (colon + (sa + (comma + xa)))), colon + (nb + (colon
        + (sb + (comma + xb)))));
    if ma / 3_600_000 == mb / 3_600_000 {
        lemma_text_le_concat(colon, colon, na + (colon + (sa + (comma + xa))), nb + (colon + (sb + (
        comma + xb))));
        if (ma / 60_000) % 60 < (mb / 60_000) % 60 {
            lemma_two_digits_order((ma / 60_000) % 60, (mb / 60_000) % 60);
        } else {
            lemma_two_digits_order((ma / 60_000) % 60, (mb / 60_000) % 60);
        }
        lemma_text_le_concat(na, nb, colon + (sa + (comma + xa)), colon + (sb + (comma + xb)));
        if (ma / 60_000) % 60 == (mb / 60_000) % 60 {
            lemma_text_le_concat(colon, colon, sa + (comma + xa), sb + (comma + xb));
            lemma_two_digits_order((ma / 1_000) % 60, (mb / 1_000) % 60);
            lemma_text_le_concat(sa, sb, comma + xa, comma + xb);
            if (ma / 1_000) % 60 == (mb / 1_000) % 60 {
                lemma_text_le_concat(comma, comma, xa, xb);
                lemma_three_digits_order(ma % 1_000, mb % 1_000);
                if ma % 1_000 == mb % 1_000 {
                    lemma_text_le_reflexive(xa);
                }
            }
        }
    }
}

proof fn lemma_text_le_reflexive(a: Seq<char>)
    ensures
        text_le(a, a),
    decreases a.len(),
{
    if a.len() > 0 {
        lemma_text_le_reflexive(a.drop_first());
    }
}

} // verus!
