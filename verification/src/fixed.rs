//! Fixed-point decimal numbers.
//!
//! Every quantity the machine deals with (millimetres, seconds, degrees,
//! millimetres per minute) is held as an `i64` count of thousandths. This
//! module gives the arithmetic on such counts, which saturates at the ends of
//! the `i64` range, and their decimal text: how a count is written into a
//! command and how a decimal field of a report is read back.

use vstd::prelude::*;
use vstd::slice::slice_subrange;
use vstd::utf8::{encode_utf8, is_ascii_chars, is_ascii_chars_encode_utf8};
use crate::scan::{find_byte, first_index, lemma_first_index};

verus! {

/// Thousandths in one whole: the scale of every count.
pub const SCALE: i64 = 1000;

/// Millionths in one whole: the scale of a ratio such as a cotangent.
pub const RATIO_SCALE: i64 = 1_000_000;

/// The byte `-`.
pub const MINUS: u8 = 45;

/// The byte `.`.
pub const DOT: u8 = 46;

/// The byte `0`.
pub const ZERO: u8 = 48;

/// The byte `9`.
pub const NINE: u8 = 57;

/// Beyond this many whole units a magnitude is past the `i64` range once it
/// is counted in thousandths, so the reader stops telling such values apart.
pub const WHOLE_CAP: u64 = 10_000_000_000_000_000;

/// The value of `v` brought into the `i64` range.
pub open spec fn clamp_i64(v: int) -> int {
    if v < i64::MIN as int {
        i64::MIN as int
    } else if v > i64::MAX as int {
        i64::MAX as int
    } else {
        v
    }
}

/// Division that rounds toward zero, for a positive divisor.
pub open spec fn trunc_div(a: int, b: int) -> int
    recommends
        b > 0,
{
    if a >= 0 {
        a / b
    } else {
        -((-a) / b)
    }
}

/// The sum of two counts, saturating.
pub open spec fn sat_add(a: int, b: int) -> int {
    clamp_i64(a + b)
}

/// The difference of two counts, saturating.
pub open spec fn sat_sub(a: int, b: int) -> int {
    clamp_i64(a - b)
}

/// The mean of two counts, rounded toward zero.
pub open spec fn mean(a: int, b: int) -> int {
    trunc_div(a + b, 2)
}

/// A count multiplied by a ratio held in millionths, rounded toward zero and
/// saturating.
pub open spec fn scale_by_ratio(v: int, ratio: int) -> int {
    clamp_i64(trunc_div(v * ratio, RATIO_SCALE as int))
}

/// A count multiplied by a factor held in thousandths, rounded toward zero
/// and saturating.
pub open spec fn scale_by_factor(v: int, factor: int) -> int {
    clamp_i64(trunc_div(v * factor, SCALE as int))
}

/// Half of a count, rounded toward zero.
pub open spec fn half(v: int) -> int {
    trunc_div(v, 2)
}

/// The sum of two counts, brought into the `i64` range.
pub fn saturating_sum(a: i64, b: i64) -> (r: i64)
    ensures
        r as int == sat_add(a as int, b as int),
{
    let s: i128 = a as i128 + b as i128;
    clamp(s)
}

/// The difference of two counts, brought into the `i64` range.
pub fn saturating_difference(a: i64, b: i64) -> (r: i64)
    ensures
        r as int == sat_sub(a as int, b as int),
{
    let s: i128 = a as i128 - b as i128;
    clamp(s)
}

/// The mean of two counts, rounded toward zero.
pub fn mean_of(a: i64, b: i64) -> (r: i64)
    ensures
        r as int == mean(a as int, b as int),
{
    let s: i128 = a as i128 + b as i128;
    let h: i128 = s / 2;
    h as i64
}

/// A count times a ratio in millionths, rounded toward zero and brought into
/// the `i64` range.
pub fn scaled_by_ratio(v: i64, ratio: i64) -> (r: i64)
    ensures
        r as int == scale_by_ratio(v as int, ratio as int),
{
    proof {
        lemma_product_bound(v as int, ratio as int);
    }
    let p: i128 = (v as i128) * (ratio as i128);
    let q: i128 = p / (RATIO_SCALE as i128);
    clamp(q)
}

/// A count times a factor in thousandths, rounded toward zero and brought
/// into the `i64` range.
pub fn scaled_by_factor(v: i64, factor: i64) -> (r: i64)
    ensures
        r as int == scale_by_factor(v as int, factor as int),
{
    proof {
        lemma_product_bound(v as int, factor as int);
    }
    let p: i128 = (v as i128) * (factor as i128);
    let q: i128 = p / (SCALE as i128);
    clamp(q)
}

/// Half of a count, rounded toward zero.
pub fn half_of(v: i64) -> (r: i64)
    ensures
        r as int == half(v as int),
{
    v / 2
}

fn clamp(v: i128) -> (r: i64)
    ensures
        r as int == clamp_i64(v as int),
{
    if v < i64::MIN as i128 {
        i64::MIN
    } else if v > i64::MAX as i128 {
        i64::MAX
    } else {
        v as i64
    }
}

proof fn lemma_product_bound(a: int, b: int)
    requires
        i64::MIN <= a <= i64::MAX,
        i64::MIN <= b <= i64::MAX,
    ensures
        i128::MIN < a * b < i128::MAX,
{
    let m: int = 0x8000_0000_0000_0000;
    assert(-m <= a <= m && -m <= b <= m);
    assert(-(m * m) <= a * b <= m * m) by (nonlinear_arith)
        requires
            -m <= a <= m,
            -m <= b <= m,
            m >= 0,
    ;
    assert(m * m == 0x4000_0000_0000_0000_0000_0000_0000_0000) by (nonlinear_arith)
        requires
            m == 0x8000_0000_0000_0000,
    ;
}

/// The character for one decimal digit.
pub open spec fn digit_char(d: int) -> char
    recommends
        0 <= d < 10,
{
    if d == 0 {
        '0'
    } else if d == 1 {
        '1'
    } else if d == 2 {
        '2'
    } else if d == 3 {
        '3'
    } else if d == 4 {
        '4'
    } else if d == 5 {
        '5'
    } else if d == 6 {
        '6'
    } else if d == 7 {
        '7'
    } else if d == 8 {
        '8'
    } else {
        '9'
    }
}

/// A natural number in decimal, without leading zeros.
pub open spec fn nat_text(n: nat) -> Seq<char>
    decreases n,
{
    if n < 10 {
        seq![digit_char(n as int)]
    } else {
        nat_text(n / 10).push(digit_char((n % 10) as int))
    }
}

/// The fraction digits of `f` thousandths: a point and up to three digits,
/// trailing zeros left out; nothing at all for a whole number.
pub open spec fn frac_text(f: nat) -> Seq<char>
    recommends
        f < 1000,
{
    if f == 0 {
        Seq::empty()
    } else if f % 100 == 0 {
        seq!['.', digit_char((f / 100) as int)]
    } else if f % 10 == 0 {
        seq!['.', digit_char((f / 100) as int), digit_char((f / 10 % 10) as int)]
    } else {
        seq![
            '.',
            digit_char((f / 100) as int),
            digit_char((f / 10 % 10) as int),
            digit_char((f % 10) as int),
        ]
    }
}

/// The magnitude of a count.
pub open spec fn magnitude(v: int) -> nat {
    if v < 0 {
        (-v) as nat
    } else {
        v as nat
    }
}

/// The sign that goes before a count: a minus for a negative one.
pub open spec fn sign_text(v: int) -> Seq<char> {
    if v < 0 {
        seq!['-']
    } else {
        Seq::empty()
    }
}

/// A count of thousandths as decimal text: `40000` is `40`, `52500` is
/// `52.5`, `-3250` is `-3.25`.
pub open spec fn milli_text(v: int) -> Seq<char> {
    sign_text(v) + nat_text(magnitude(v) / 1000) + frac_text(magnitude(v) % 1000)
}

fn digit_str(d: u64) -> (r: &'static str)
    requires
        d < 10,
    ensures
        r@ == seq![digit_char(d as int)],
{
    proof {
        reveal_strlit("0");
        reveal_strlit("1");
        reveal_strlit("2");
        reveal_strlit("3");
        reveal_strlit("4");
        reveal_strlit("5");
        reveal_strlit("6");
        reveal_strlit("7");
        reveal_strlit("8");
        reveal_strlit("9");
    }
    let r = if d == 0 {
        "0"
    } else if d == 1 {
        "1"
    } else if d == 2 {
        "2"
    } else if d == 3 {
        "3"
    } else if d == 4 {
        "4"
    } else if d == 5 {
        "5"
    } else if d == 6 {
        "6"
    } else if d == 7 {
        "7"
    } else if d == 8 {
        "8"
    } else {
        "9"
    };
    assert(r@ =~= seq![digit_char(d as int)]);
    r
}

fn push_nat(out: &mut String, n: u64)
    ensures
        final(out)@ == old(out)@ + nat_text(n as nat),
    decreases n,
{
    if n >= 10 {
        push_nat(out, n / 10);
    }
    out.append(digit_str(n % 10));
    assert(final(out)@ =~= old(out)@ + nat_text(n as nat));
}

fn push_frac(out: &mut String, f: u64)
    requires
        f < 1000,
    ensures
        final(out)@ == old(out)@ + frac_text(f as nat),
{
    proof {
        reveal_strlit(".");
    }
    if f != 0 {
        out.append(".");
        out.append(digit_str(f / 100));
        if f % 100 != 0 {
            out.append(digit_str(f / 10 % 10));
            if f % 10 != 0 {
                out.append(digit_str(f % 10));
            }
        }
    }
    assert(final(out)@ =~= old(out)@ + frac_text(f as nat));
}

/// Appends the decimal text of `v` thousandths to `out`.
pub fn push_milli(out: &mut String, v: i64)
    ensures
        final(out)@ == old(out)@ + milli_text(v as int),
{
    proof {
        reveal_strlit("-");
    }
    if v < 0 {
        out.append("-");
    }
    let wide: i128 = v as i128;
    let mag: u64 = if wide < 0 {
        (-wide) as u64
    } else {
        wide as u64
    };
    push_nat(out, mag / 1000);
    push_frac(out, mag % 1000);
    assert(final(out)@ =~= old(out)@ + milli_text(v as int));
}

/// The decimal text of `v` thousandths.
pub fn format_milli(v: i64) -> (r: String)
    ensures
        r@ == milli_text(v as int),
{
    let mut out = String::new();
    push_milli(&mut out, v);
    assert(out@ =~= milli_text(v as int));
    out
}

/// Whether a byte is a decimal digit.
pub open spec fn is_digit(b: u8) -> bool {
    ZERO <= b && b <= NINE
}

/// Whether a text is made of decimal digits alone.
pub open spec fn all_digits(s: Seq<u8>) -> bool {
    forall|i: int| 0 <= i < s.len() ==> is_digit(#[trigger] s[i])
}

/// The number that a run of decimal digits stands for.
pub open spec fn digits_value(s: Seq<u8>) -> nat
    decreases s.len(),
{
    if s.len() == 0 {
        0
    } else {
        digits_value(s.drop_last()) * 10 + (s.last() - ZERO) as nat
    }
}

/// The digits of a decimal before its point: all of it where it has no
/// point.
pub open spec fn whole_part(s: Seq<u8>) -> Seq<u8> {
    s.take(first_index(s, DOT))
}

/// Whether a decimal has a point.
pub open spec fn has_point(s: Seq<u8>) -> bool {
    first_index(s, DOT) < s.len()
}

/// The digits of a decimal behind its point.
pub open spec fn frac_part(s: Seq<u8>) -> Seq<u8> {
    if has_point(s) {
        s.skip(first_index(s, DOT) + 1)
    } else {
        Seq::empty()
    }
}

/// Whether a text is a decimal without a sign: one or more digits, and
/// after them, if anything, a point and one or more digits.
pub open spec fn is_unsigned_decimal(s: Seq<u8>) -> bool {
    &&& whole_part(s).len() > 0
    &&& all_digits(whole_part(s))
    &&& has_point(s) ==> frac_part(s).len() > 0
    &&& all_digits(frac_part(s))
}

/// Whether a text begins with a minus sign.
pub open spec fn has_minus(s: Seq<u8>) -> bool {
    s.len() > 0 && s[0] == MINUS
}

/// A decimal without its sign.
pub open spec fn unsigned_part(s: Seq<u8>) -> Seq<u8> {
    if has_minus(s) {
        s.skip(1)
    } else {
        s
    }
}

/// Whether a text is a decimal: an unsigned decimal, or a minus sign and an
/// unsigned decimal.
pub open spec fn is_decimal(s: Seq<u8>) -> bool {
    is_unsigned_decimal(unsigned_part(s))
}

/// The digit at place `i` behind the point, zero where the text ends
/// before it.
pub open spec fn frac_digit(frac: Seq<u8>, i: int) -> nat {
    if 0 <= i < frac.len() {
        (frac[i] - ZERO) as nat
    } else {
        0
    }
}

/// The thousandths that the digits behind a point stand for. Digits past
/// the third are dropped.
pub open spec fn frac_milli(frac: Seq<u8>) -> nat {
    frac_digit(frac, 0) * 100 + frac_digit(frac, 1) * 10 + frac_digit(frac, 2)
}

/// The thousandths that an unsigned decimal stands for.
pub open spec fn unsigned_milli(s: Seq<u8>) -> nat {
    digits_value(whole_part(s)) * 1000 + frac_milli(frac_part(s))
}

/// The thousandths that a decimal stands for, brought into the `i64`
/// range.
pub open spec fn decimal_milli(s: Seq<u8>) -> int {
    if has_minus(s) {
        clamp_i64(-(unsigned_milli(unsigned_part(s)) as int))
    } else {
        clamp_i64(unsigned_milli(unsigned_part(s)) as int)
    }
}

/// What reading a text as a decimal gives: its thousandths, or nothing
/// where the text is no decimal.
pub open spec fn parsed_decimal(s: Seq<u8>) -> Option<i64> {
    if is_decimal(s) {
        Some(decimal_milli(s) as i64)
    } else {
        None
    }
}

/// The smaller of a number and the cap on whole units.
pub open spec fn capped(n: nat) -> nat {
    if n > WHOLE_CAP as nat {
        WHOLE_CAP as nat
    } else {
        n
    }
}

fn is_digit_byte(b: u8) -> (r: bool)
    ensures
        r == is_digit(b),
{
    ZERO <= b && b <= NINE
}

/// Reads a run of digits. Gives nothing where a byte of the text is no
/// digit, else the number the digits stand for, or the cap where that is
/// smaller.
fn read_digits(s: &[u8]) -> (r: Option<u64>)
    ensures
        r is Some == all_digits(s@),
        r matches Some(v) ==> v as nat == capped(digits_value(s@)),
{
    let mut acc: u64 = 0;
    let mut i: usize = 0;
    assert(s@.take(0).len() == 0);
    while i < s.len()
        invariant
            i <= s@.len(),
            all_digits(s@.take(i as int)),
            acc as nat == capped(digits_value(s@.take(i as int))),
            acc <= WHOLE_CAP,
        decreases s@.len() - i,
    {
        let b = s[i];
        if !is_digit_byte(b) {
            assert(!is_digit(s@[i as int]));
            return None;
        }
        let ghost before = s@.take(i as int);
        let ghost next = s@.take(i as int + 1);
        proof {
            assert(next.drop_last() =~= before);
            assert(next.last() == b);
            assert forall|j: int| 0 <= j < next.len() implies is_digit(#[trigger] next[j]) by {
                if j < i {
                    assert(next[j] == before[j]);
                }
            }
        }
        let wide: u64 = acc * 10 + (b - ZERO) as u64;
        acc = if wide > WHOLE_CAP {
            WHOLE_CAP
        } else {
            wide
        };
        i += 1;
    }
    assert(s@.take(i as int) =~= s@);
    Some(acc)
}

/// The thousandths that the digits behind a point stand for.
fn read_frac(frac: &[u8]) -> (r: u64)
    requires
        all_digits(frac@),
    ensures
        r as nat == frac_milli(frac@),
        r < 1000,
{
    let d0: u64 = if frac.len() > 0 {
        (frac[0] - ZERO) as u64
    } else {
        0
    };
    let d1: u64 = if frac.len() > 1 {
        (frac[1] - ZERO) as u64
    } else {
        0
    };
    let d2: u64 = if frac.len() > 2 {
        (frac[2] - ZERO) as u64
    } else {
        0
    };
    d0 * 100 + d1 * 10 + d2
}

/// Reads a decimal such as `12.500` or `-3.25` as a count of thousandths.
/// Digits past the third behind the point are dropped, and a value beyond
/// the `i64` range is brought to its nearer end. A text that is no decimal
/// gives nothing.
pub fn parse_decimal(text: &[u8]) -> (r: Option<i64>)
    ensures
        r == parsed_decimal(text@),
{
    let negative = text.len() > 0 && text[0] == MINUS;
    let body = if negative {
        slice_subrange(text, 1, text.len())
    } else {
        text
    };
    assert(body@ =~= unsigned_part(text@));
    let dot = find_byte(body, DOT);
    let whole = slice_subrange(body, 0, dot);
    assert(whole@ =~= whole_part(body@));
    if dot == 0 {
        return None;
    }
    let units = match read_digits(whole) {
        Some(v) => v,
        None => {
            return None;
        },
    };
    let mut thousandths: u64 = 0;
    if dot < body.len() {
        let frac = slice_subrange(body, dot + 1, body.len());
        assert(frac@ =~= frac_part(body@));
        if frac.len() == 0 {
            return None;
        }
        match read_digits(frac) {
            Some(_) => {},
            None => {
                return None;
            },
        }
        thousandths = read_frac(frac);
    } else {
        assert(frac_part(body@).len() == 0);
    }
    assert(is_decimal(text@));
    let mag: i128 = (units as i128) * 1000 + thousandths as i128;
    let value: i128 = if negative {
        -mag
    } else {
        mag
    };
    Some(clamp(value))
}

/// Whether a character is one that the text of a count is made of: a minus
/// sign, a point or a digit.
pub open spec fn is_decimal_char(c: char) -> bool {
    c == '-' || c == '.' || ('0' <= c && c <= '9')
}

proof fn lemma_digit_char(d: int)
    requires
        0 <= d < 10,
    ensures
        digit_char(d) as u8 == ZERO + d,
        is_decimal_char(digit_char(d)),
{
}

proof fn lemma_nat_text_bytes(n: nat)
    ensures
        nat_text(n).len() >= 1,
        forall|i: int| 0 <= i < nat_text(n).len() ==> is_decimal_char(#[trigger] nat_text(n)[i]),
        forall|i: int| 0 <= i < nat_text(n).len() ==> is_digit(#[trigger] nat_text(n)[i] as u8),
        digits_value(nat_text(n).map_values(|c: char| c as u8)) == n,
    decreases n,
{
    let text = nat_text(n);
    let bytes = text.map_values(|c: char| c as u8);
    lemma_digit_char((n % 10) as int);
    if n < 10 {
        assert(bytes.drop_last().len() == 0);
        assert(digits_value(bytes.drop_last()) == 0);
        assert(bytes.last() == digit_char(n as int) as u8);
    } else {
        let rest = nat_text(n / 10);
        lemma_nat_text_bytes(n / 10);
        assert(text.drop_last() =~= rest);
        assert(bytes.drop_last() =~= rest.map_values(|c: char| c as u8));
        assert(bytes.last() == digit_char((n % 10) as int) as u8);
        assert forall|i: int| 0 <= i < text.len() implies is_decimal_char(#[trigger] text[i])
            && is_digit(text[i] as u8) by {
            if i < rest.len() {
                assert(text[i] == rest[i]);
            }
        }
    }
}

proof fn lemma_frac_text_bytes(f: nat)
    requires
        f < 1000,
    ensures
        forall|i: int| 0 <= i < frac_text(f).len() ==> is_decimal_char(#[trigger] frac_text(f)[i]),
        f == 0 ==> frac_text(f).len() == 0,
        f != 0 ==> {
            let bytes = frac_text(f).map_values(|c: char| c as u8);
            &&& bytes.len() >= 2
            &&& bytes[0] == DOT
            &&& all_digits(bytes.skip(1))
            &&& frac_milli(bytes.skip(1)) == f
        },
{
    lemma_digit_char((f / 100) as int);
    lemma_digit_char((f / 10 % 10) as int);
    lemma_digit_char((f % 10) as int);
    if f != 0 {
        let bytes = frac_text(f).map_values(|c: char| c as u8);
        let digits = bytes.skip(1);
        assert(bytes[0] == '.' as u8);
        assert(digits[0] == bytes[1]);
        if f % 100 == 0 {
            assert(digits.len() == 1);
        } else if f % 10 == 0 {
            assert(digits.len() == 2);
            assert(digits[1] == bytes[2]);
        } else {
            assert(digits.len() == 3);
            assert(digits[1] == bytes[2]);
            assert(digits[2] == bytes[3]);
        }
    }
}

/// The text of a count holds nothing but minus signs, points and digits.
pub proof fn lemma_milli_text_chars(v: int)
    ensures
        forall|i: int| 0 <= i < milli_text(v).len() ==> is_decimal_char(#[trigger] milli_text(v)[i]),
        is_ascii_chars(milli_text(v)),
{
    let m = magnitude(v);
    lemma_nat_text_bytes(m / 1000);
    lemma_frac_text_bytes(m % 1000);
    let s = sign_text(v);
    let w = nat_text(m / 1000);
    let f = frac_text(m % 1000);
    let text = milli_text(v);
    assert forall|i: int| 0 <= i < text.len() implies is_decimal_char(#[trigger] text[i]) by {
        if i < s.len() {
            assert(text[i] == s[i]);
        } else if i < s.len() + w.len() {
            assert(text[i] == w[i - s.len()]);
        } else {
            assert(text[i] == f[i - s.len() - w.len()]);
        }
    }
    assert forall|i: int| 0 <= i < text.len() implies '\0' <= #[trigger] text[i] <= '\u{7f}' by {
        assert(is_decimal_char(text[i]));
    }
}

/// Reading the text of a count gives the count back.
pub proof fn lemma_written_is_read_back(v: i64)
    ensures
        parsed_decimal(encode_utf8(milli_text(v as int))) == Some(v),
{
    let text = milli_text(v as int);
    let m = magnitude(v as int);
    let s = sign_text(v as int);
    let w = nat_text(m / 1000);
    let f = frac_text(m % 1000);
    lemma_milli_text_chars(v as int);
    is_ascii_chars_encode_utf8(text);
    lemma_nat_text_bytes(m / 1000);
    lemma_frac_text_bytes(m % 1000);
    let as_byte = |c: char| c as u8;
    let bytes = encode_utf8(text);
    assert(bytes =~= text.map_values(as_byte));
    let wb = w.map_values(as_byte);
    let fb = f.map_values(as_byte);
    let body = wb + fb;
    assert(all_digits(wb));
    if v < 0 {
        assert(bytes[0] == MINUS);
        assert(bytes.skip(1) =~= body);
    } else {
        assert(bytes =~= body);
        assert(is_digit(wb[0]));
        assert(body[0] == wb[0]);
    }
    assert(unsigned_part(bytes) == body);
    assert forall|j: int| 0 <= j < wb.len() implies body[j] != DOT by {
        assert(body[j] == wb[j]);
        assert(is_digit(wb[j]));
    }
    if m % 1000 != 0 {
        assert(body[wb.len() as int] == fb[0]);
    }
    lemma_first_index(body, DOT, wb.len() as int);
    assert(whole_part(body) =~= wb);
    if m % 1000 != 0 {
        assert(frac_part(body) =~= fb.skip(1));
    } else {
        assert(frac_part(body) =~= Seq::<u8>::empty());
        assert(frac_milli(frac_part(body)) == 0);
    }
    assert(is_unsigned_decimal(body));
    assert(unsigned_milli(body) == m);
}

} // verus!
