//! Decimal text to fixed-point integers.
//!
//! Venues quote prices and quantities as decimal text.  The book holds them
//! as integers that count units of `10^-8`: the text `"0.01"` is the integer
//! `1_000_000`.  The accepted form is an optional sign, digits, and
//! optionally a dot with more digits; at least one digit must be present.
//! Digits beyond the eighth place after the dot are cut off.

use vstd::prelude::*;
use vstd::string::*;

verus! {

/// The number of places after the dot that a fixed-point value keeps.
pub const FRACTION_DIGITS: usize = 8;

/// How many fixed-point units make one: `10^8`.
pub const UNIT: i64 = 100_000_000;

pub open spec fn is_digit(c: char) -> bool {
    '0' <= c && c <= '9'
}

pub open spec fn digit(c: char) -> int {
    c as int - '0' as int
}

pub open spec fn all_digits(s: Seq<char>) -> bool {
    forall|i: int| 0 <= i < s.len() ==> is_digit(#[trigger] s[i])
}

/// The number that a run of digits denotes in base ten.
pub open spec fn number(s: Seq<char>) -> int
    decreases s.len(),
{
    if s.len() == 0 {
        0
    } else {
        10 * number(s.drop_last()) + digit(s.last())
    }
}

pub open spec fn pow10(n: nat) -> int
    decreases n,
{
    if n == 0 {
        1
    } else {
        10 * pow10((n - 1) as nat)
    }
}

/// The digits after the dot as a count of units: the first eight of them,
/// filled up with zeros.
pub open spec fn fraction(f: Seq<char>) -> int {
    if f.len() >= FRACTION_DIGITS {
        number(f.take(FRACTION_DIGITS as int))
    } else {
        number(f) * pow10((FRACTION_DIGITS - f.len()) as nat)
    }
}

/// The place of the first dot in `s`, or the length of `s` without one.
pub open spec fn dot_at(s: Seq<char>) -> int
    decreases s.len(),
{
    if s.len() == 0 || s[0] == '.' {
        0
    } else {
        1 + dot_at(s.drop_first())
    }
}

/// The digits before the first dot.
pub open spec fn whole_part(s: Seq<char>) -> Seq<char> {
    s.take(dot_at(s))
}

/// The characters after the first dot; none where there is no dot.
pub open spec fn fraction_part(s: Seq<char>) -> Seq<char> {
    if dot_at(s) < s.len() {
        s.skip(dot_at(s) + 1)
    } else {
        Seq::empty()
    }
}

/// The units that unsigned decimal text denotes, where it is well formed.
pub open spec fn magnitude(s: Seq<char>) -> Option<int> {
    let whole = whole_part(s);
    let frac = fraction_part(s);
    if all_digits(whole) && all_digits(frac) && whole.len() + frac.len() > 0 {
        Some(number(whole) * UNIT + fraction(frac))
    } else {
        None
    }
}

/// The units that signed decimal text denotes, where it is well formed.
pub open spec fn decimal(s: Seq<char>) -> Option<int> {
    if s.len() > 0 && s[0] == '-' {
        match magnitude(s.skip(1)) {
            Some(m) => Some(-m),
            None => None,
        }
    } else if s.len() > 0 && s[0] == '+' {
        magnitude(s.skip(1))
    } else {
        magnitude(s)
    }
}

/// The fixed-point value of decimal text: its units, where the text is well
/// formed and they fit in 64 bits.
pub open spec fn fixed_point(s: Seq<char>) -> Option<i64> {
    match decimal(s) {
        Some(v) => if i64::MIN <= v <= i64::MAX {
            Some(v as i64)
        } else {
            None
        },
        None => None,
    }
}

/// `dot_at` is the first place that holds a dot.
pub proof fn dot_at_first(s: Seq<char>, i: int)
    requires
        0 <= i <= s.len(),
        forall|k: int| 0 <= k < i ==> #[trigger] s[k] != '.',
        i < s.len() ==> s[i] == '.',
    ensures
        dot_at(s) == i,
    decreases s.len(),
{
    if s.len() > 0 && i > 0 {
        assert(s[0] != '.');
        let t = s.drop_first();
        assert forall|k: int| 0 <= k < i - 1 implies #[trigger] t[k] != '.' by {
            assert(t[k] == s[k + 1]);
        }
        dot_at_first(t, i - 1);
    }
}

/// `dot_at` lies within the text; no dot comes before it, and a dot stands
/// at it unless it is the end.
pub proof fn dot_at_bounds(s: Seq<char>)
    ensures
        0 <= dot_at(s) <= s.len(),
        forall|k: int| 0 <= k < dot_at(s) ==> #[trigger] s[k] != '.',
        dot_at(s) < s.len() ==> s[dot_at(s)] == '.',
    decreases s.len(),
{
    if s.len() > 0 && s[0] != '.' {
        let t = s.drop_first();
        dot_at_bounds(t);
        assert forall|k: int| 0 <= k < dot_at(s) implies #[trigger] s[k] != '.' by {
            if k > 0 {
                assert(t[k - 1] == s[k]);
            }
        }
        assert(dot_at(s) < s.len() ==> s[dot_at(s)] == t[dot_at(t)]);
    }
}

/// One more digit at the end of a run.
pub proof fn number_step(s: Seq<char>, k: int)
    requires
        0 <= k < s.len(),
    ensures
        number(s.take(k + 1)) == 10 * number(s.take(k)) + digit(s[k]),
{
    assert(s.take(k + 1).drop_last() =~= s.take(k));
}

/// A run of digits denotes no negative number.
pub proof fn number_nonnegative(s: Seq<char>)
    requires
        all_digits(s),
    ensures
        number(s) >= 0,
    decreases s.len(),
{
    if s.len() > 0 {
        let t = s.drop_last();
        assert forall|i: int| 0 <= i < t.len() implies is_digit(#[trigger] t[i]) by {
            assert(t[i] == s[i]);
        }
        number_nonnegative(t);
        assert(is_digit(s.last()));
    }
}

/// Well-formed decimal text is made of ASCII characters.
pub proof fn decimal_is_ascii(s: Seq<char>)
    requires
        decimal(s) is Some,
    ensures
        vstd::utf8::is_ascii_chars(s),
{
    let signed = s.len() > 0 && (s[0] == '-' || s[0] == '+');
    let body = if signed {
        s.skip(1)
    } else {
        s
    };
    let shift: int = if signed {
        1
    } else {
        0
    };
    assert(magnitude(body) is Some);
    dot_at_bounds(body);
    let p = dot_at(body);
    assert forall|i: int| 0 <= i < s.len() implies '\0' <= #[trigger] s[i] <= '\u{7f}' by {
        if i >= shift {
            let j = i - shift;
            assert(body[j] == s[i]);
            if j < p {
                assert(whole_part(body)[j] == body[j]);
                assert(is_digit(whole_part(body)[j]));
            } else if j > p {
                assert(fraction_part(body)[j - p - 1] == body[j]);
                assert(is_digit(fraction_part(body)[j - p - 1]));
            }
        }
    }
}

/// The bound from which on a whole part is too large for 64 bits, whatever
/// follows it.
pub const WHOLE_CAP: u128 = 100_000_000_000;

/// Reads unsigned decimal text from place `start` of `b`, the bytes of the
/// ASCII text `text`.  The result is none where the text is not well formed.
/// Units below `WHOLE_CAP * UNIT` are returned exactly; larger ones as some
/// value that is at least that.
fn magnitude_of(b: &[u8], start: usize, Ghost(text): Ghost<Seq<char>>) -> (r: Option<u128>)
    requires
        start <= b.len(),
        text.len() == b.len(),
        forall|i: int| 0 <= i < b.len() ==> (#[trigger] text[i]) as int == b@[i] as int,
    ensures
        r is Some == magnitude(text.skip(start as int)) is Some,
        r matches Some(v) ==> {
            let m = magnitude(text.skip(start as int))->0;
            &&& m >= 0
            &&& m < WHOLE_CAP * UNIT ==> v == m
            &&& m >= WHOLE_CAP * UNIT ==> v >= WHOLE_CAP * UNIT
        },
{
    let ghost body = text.skip(start as int);
    let n = b.len();
    let mut i: usize = start;
    let mut acc: u128 = 0;
    proof {
        assert(body.take(0) =~= Seq::<char>::empty());
    }
    while i < n && 48 <= b[i] && b[i] <= 57
        invariant
            start <= i <= n,
            n == b.len(),
            text.len() == b.len(),
            body == text.skip(start as int),
            forall|k: int| 0 <= k < b.len() ==> (#[trigger] text[k]) as int == b@[k] as int,
            all_digits(body.take(i - start)),
            acc < WHOLE_CAP ==> acc == number(body.take(i - start)),
            acc >= WHOLE_CAP ==> number(body.take(i - start)) >= WHOLE_CAP,
            acc <= 10 * WHOLE_CAP + 9,
        decreases n - i,
    {
        let d: u128 = (b[i] - 48) as u128;
        proof {
            let k = i - start;
            assert(body[k] == text[i as int]);
            assert(is_digit(body[k]));
            assert(digit(body[k]) == d);
            number_step(body, k);
            assert forall|q: int| 0 <= q < k + 1 implies is_digit(
                #[trigger] body.take(k + 1)[q],
            ) by {
                if q < k {
                    assert(body.take(k)[q] == body[q]);
                }
            }
        }
        if acc < WHOLE_CAP {
            acc = acc * 10 + d;
        }
        i = i + 1;
    }
    let whole_len = i - start;
    let ghost p = whole_len as int;
    proof {
        assert forall|k: int| 0 <= k < p implies #[trigger] body[k] != '.' by {
            assert(body.take(p)[k] == body[k]);
            assert(is_digit(body.take(p)[k]));
        }
    }
    if i < n && b[i] != 46 {
        proof {
            // a character that is neither a digit nor a dot ends the text
            let stray = body[p];
            assert(stray == text[i as int]);
            assert(!is_digit(stray) && stray != '.');
            dot_at_bounds(body);
            let q = dot_at(body);
            if q <= p {
                if q < p {
                    assert(body[q] == '.');
                }
            } else {
                assert(whole_part(body)[p] == stray);
            }
            assert(q > p);
            assert(!all_digits(whole_part(body)));
        }
        return None;
    }
    proof {
        if i < n {
            assert(body[p] == text[i as int]);
            assert(body[p] == '.');
        }
        dot_at_first(body, p);
        assert(whole_part(body) == body.take(p));
    }
    let ghost frac = fraction_part(body);
    let from: usize = if i < n {
        i + 1
    } else {
        n
    };
    proof {
        assert(frac.len() == n - from);
        assert(frac.take(0) =~= Seq::<char>::empty());
        reveal_with_fuel(pow10, 9);
        assert(pow10(8) == 100_000_000);
    }
    let mut j: usize = from;
    let mut taken: usize = 0;
    let mut pos: u128 = 100_000_000;
    let mut fr: u128 = 0;
    while j < n
        invariant
            from <= j <= n,
            n == b.len(),
            text.len() == b.len(),
            body == text.skip(start as int),
            frac == fraction_part(body),
            frac.len() == n - from,
            forall|k: int| 0 <= k < frac.len() ==> #[trigger] frac[k] == text[from + k],
            forall|k: int| 0 <= k < b.len() ==> (#[trigger] text[k]) as int == b@[k] as int,
            all_digits(frac.take(j - from)),
            taken <= FRACTION_DIGITS,
            taken == if j - from < FRACTION_DIGITS {
                j - from
            } else {
                FRACTION_DIGITS as int
            },
            pos == pow10((FRACTION_DIGITS - taken) as nat),
            1 <= pos <= 100_000_000,
            fr == number(frac.take(taken as int)) * pos,
            fr + pos <= 100_000_000,
        decreases n - j,
    {
        let c = b[j];
        let ghost k = j - from;
        proof {
            assert(frac[k] == text[j as int]);
        }
        if !(48 <= c && c <= 57) {
            proof {
                assert(!is_digit(frac[k]));
                assert(!all_digits(frac));
            }
            return None;
        }
        proof {
            assert(is_digit(frac[k]));
            assert forall|q: int| 0 <= q < k + 1 implies is_digit(
                #[trigger] frac.take(k + 1)[q],
            ) by {
                if q < k {
                    assert(frac.take(k)[q] == frac[q]);
                }
            }
        }
        if taken < FRACTION_DIGITS {
            let d: u128 = (c - 48) as u128;
            let next_pos: u128 = pos / 10;
            proof {
                assert(taken == k);
                assert(digit(frac[k]) == d);
                number_step(frac, k);
                assert(pos == 10 * next_pos);
                let v = number(frac.take(k));
                assert((10 * v + d) * next_pos == v * (10 * next_pos) + d * next_pos)
                    by (nonlinear_arith);
                assert(d * next_pos <= 9 * next_pos) by (nonlinear_arith)
                    requires
                        d <= 9,
                        next_pos >= 0,
                ;
            }
            fr = fr + d * next_pos;
            pos = next_pos;
            taken = taken + 1;
        }
        j = j + 1;
    }
    if whole_len + (n - from) == 0 {
        return None;
    }
    proof {
        assert(frac.take(frac.len() as int) =~= frac);
        assert(all_digits(frac));
        assert(all_digits(whole_part(body)));
        if frac.len() >= FRACTION_DIGITS {
            assert(taken == FRACTION_DIGITS);
            assert(pos == pow10(0));
            assert(pos == 1);
            assert(fr == number(frac.take(FRACTION_DIGITS as int)) * 1);
        } else {
            assert(taken == frac.len());
            assert(frac.take(taken as int) == frac);
        }
        assert(fr == fraction(frac));
        number_nonnegative(whole_part(body));
        let w = number(whole_part(body));
        assert(w * UNIT >= WHOLE_CAP * UNIT <==> w >= WHOLE_CAP) by (nonlinear_arith)
            requires
                UNIT == 100_000_000,
        ;
        assert(w >= 0 ==> w * UNIT >= 0) by (nonlinear_arith)
            requires
                UNIT == 100_000_000,
        ;
    }
    let capped: u128 = if acc < WHOLE_CAP {
        acc
    } else {
        WHOLE_CAP
    };
    Some(capped * 100_000_000 + fr)
}

/// Reads a fixed-point value from decimal text: none where the text is not
/// well formed or its value does not fit in 64 bits.
pub fn parse_fixed(s: &str) -> (r: Option<i64>)
    ensures
        r == fixed_point(s@),
{
    if !s.is_ascii() {
        proof {
            if decimal(s@) is Some {
                decimal_is_ascii(s@);
            }
        }
        return None;
    }
    let b = s.as_bytes();
    proof {
        is_ascii_spec_bytes(s);
        vstd::utf8::is_ascii_chars_nat_bound(s@);
        assert(b@.len() == s@.len());
        assert forall|i: int| 0 <= i < b.len() implies (#[trigger] s@[i]) as int == b@[i] as int by {
            assert(b@[i] == s@[i] as u8);
        }
    }
    let negative = b.len() > 0 && b[0] == 45;
    let signed = b.len() > 0 && (b[0] == 45 || b[0] == 43);
    let start: usize = if signed {
        1
    } else {
        0
    };
    proof {
        if b.len() > 0 {
            assert(s@[0] as int == b@[0] as int);
        }
        assert(s@.skip(0) =~= s@);
    }
    match magnitude_of(b, start, Ghost(s@)) {
        None => None,
        Some(v) => {
            if negative {
                if v <= 9_223_372_036_854_775_808 {
                    let wide: i128 = -(v as i128);
                    Some(wide as i64)
                } else {
                    None
                }
            } else {
                if v <= 9_223_372_036_854_775_807 {
                    Some(v as i64)
                } else {
                    None
                }
            }
        },
    }
}

/// The character of the digit `d`.
pub open spec fn digit_char(d: int) -> char {
    if d == 0 {
        '0'
    } else if d == 1 {
        '1'
    } else if d == 2 {
        '2'
    } else if d == 3 {
        '3'
    } else if d == 4 {
        '4'
    } else if d == 5 {
        '5'
    } else if d == 6 {
        '6'
    } else if d == 7 {
        '7'
    } else if d == 8 {
        '8'
    } else {
        '9'
    }
}

/// The digits of `n` in base ten, without leading zeros; one zero for zero.
pub open spec fn numeral(n: nat) -> Seq<char>
    decreases n,
{
    if n < 10 {
        seq![digit_char(n as int)]
    } else {
        numeral(n / 10).push(digit_char((n % 10) as int))
    }
}

/// The last `width` digits of `n` in base ten, with leading zeros.
pub open spec fn padded(n: nat, width: nat) -> Seq<char>
    decreases width,
{
    if width == 0 {
        Seq::empty()
    } else {
        padded(n / 10, (width - 1) as nat).push(digit_char((n % 10) as int))
    }
}

/// The decimal text of a count of units: a minus sign for a negative count,
/// the whole part, a dot, and all eight places after it.
pub open spec fn text_of(v: int) -> Seq<char> {
    let m = if v < 0 {
        -v
    } else {
        v
    };
    let digits = numeral((m / UNIT as int) as nat) + seq!['.'] + padded(
        (m % UNIT as int) as nat,
        FRACTION_DIGITS as nat,
    );
    if v < 0 {
        seq!['-'] + digits
    } else {
        digits
    }
}

/// A numeral is a run of digits that denotes its number.
pub proof fn numeral_denotes(n: nat)
    ensures
        all_digits(numeral(n)),
        numeral(n).len() > 0,
        number(numeral(n)) == n,
    decreases n,
{
    if n < 10 {
        let s = numeral(n);
        assert(s.drop_last() =~= Seq::<char>::empty());
        assert(number(s.drop_last()) == 0);
    } else {
        numeral_denotes(n / 10);
        let s = numeral(n);
        assert(s.drop_last() =~= numeral(n / 10));
        assert(s.last() == digit_char((n % 10) as int));
    }
}

/// A padded numeral is a run of `width` digits that denotes the number below
/// `10^width`.
pub proof fn padded_denotes(n: nat, width: nat)
    ensures
        all_digits(padded(n, width)),
        padded(n, width).len() == width,
        number(padded(n, width)) == n % (pow10(width) as nat),
    decreases width,
{
    if width > 0 {
        let w = (width - 1) as nat;
        padded_denotes(n / 10, w);
        pow10_positive(w);
        let s = padded(n, width);
        assert(s.drop_last() =~= padded(n / 10, w));
        assert(s.last() == digit_char((n % 10) as int));
        let p = pow10(w);
        // n % (10 p) == 10 ((n / 10) % p) + n % 10
        assert(n % ((10 * p) as nat) == 10 * ((n / 10) % (p as nat)) + n % 10) by {
            vstd::arithmetic::div_mod::lemma_breakdown(n as int, 10, p);
            vstd::arithmetic::div_mod::lemma_mod_mod(n as int, 10, p);
            assert(10 * p == p * 10) by (nonlinear_arith);
        }
    } else {
        assert(number(padded(n, width)) == 0);
    }
}

/// Powers of ten are positive.
pub proof fn pow10_positive(n: nat)
    ensures
        pow10(n) > 0,
    decreases n,
{
    if n > 0 {
        pow10_positive((n - 1) as nat);
    }
}

/// Reading what was written gives the value back: the decimal text of every
/// 64-bit count of units denotes that count.
pub proof fn text_reads_back(v: i64)
    ensures
        fixed_point(text_of(v as int)) == Some(v),
{
    let m: int = if v < 0 {
        -(v as int)
    } else {
        v as int
    };
    let whole = numeral((m / UNIT as int) as nat);
    let frac = padded((m % UNIT as int) as nat, FRACTION_DIGITS as nat);
    let body = whole + seq!['.'] + frac;
    numeral_denotes((m / UNIT as int) as nat);
    padded_denotes((m % UNIT as int) as nat, FRACTION_DIGITS as nat);
    reveal_with_fuel(pow10, 9);
    assert(pow10(8) == 100_000_000);
    let p = whole.len() as int;
    assert forall|k: int| 0 <= k < p implies #[trigger] body[k] != '.' by {
        assert(body[k] == whole[k]);
        assert(is_digit(whole[k]));
    }
    assert(body[p] == '.');
    dot_at_first(body, p);
    assert(whole_part(body) =~= whole);
    assert(fraction_part(body) =~= frac);
    assert(frac.take(FRACTION_DIGITS as int) =~= frac);
    let low = m % UNIT as int;
    assert(number(whole) == m / UNIT as int);
    assert(number(frac) == low) by {
        vstd::arithmetic::div_mod::lemma_small_mod(low as nat, 100_000_000);
    }
    assert(fraction(fraction_part(body)) == low);
    assert(all_digits(whole_part(body)) && all_digits(fraction_part(body)));
    assert((m / UNIT as int) * UNIT + low == m) by {
        vstd::arithmetic::div_mod::lemma_fundamental_div_mod(m, UNIT as int);
        assert((m / UNIT as int) * UNIT == UNIT * (m / UNIT as int)) by (nonlinear_arith);
    }
    assert(magnitude(body) == Some(m));
    let t = text_of(v as int);
    if v < 0 {
        assert(t[0] == '-');
        assert(t.skip(1) =~= body);
    } else {
        assert(t == body);
        assert(is_digit(whole[0]));
        assert(body[0] == whole[0]);
    }
}

/// The text of one digit.
fn digit_text(d: u64) -> (r: &'static str)
    requires
        d < 10,
    ensures
        r@ == seq![digit_char(d as int)],
{
    proof {
        reveal_strlit("0");
        reveal_strlit("1");
        reveal_strlit("2");
        reveal_strlit("3");
        reveal_strlit("4");
        reveal_strlit("5");
        reveal_strlit("6");
        reveal_strlit("7");
        reveal_strlit("8");
        reveal_strlit("9");
    }
    let r = if d == 0 {
        "0"
    } else if d == 1 {
        "1"
    } else if d == 2 {
        "2"
    } else if d == 3 {
        "3"
    } else if d == 4 {
        "4"
    } else if d == 5 {
        "5"
    } else if d == 6 {
        "6"
    } else if d == 7 {
        "7"
    } else if d == 8 {
        "8"
    } else {
        "9"
    };
    proof {
        assert(r@ =~= seq![digit_char(d as int)]);
    }
    r
}

/// Appends the numeral of `n` to `out`.
fn push_numeral(out: &mut String, n: u64)
    ensures
        final(out)@ == old(out)@ + numeral(n as nat),
    decreases n,
{
    if n >= 10 {
        push_numeral(out, n / 10);
    }
    let ghost before = out@;
    out.append(digit_text(n % 10));
    proof {
        if n >= 10 {
            assert(out@ =~= old(out)@ + numeral(n as nat));
        } else {
            assert(out@ =~= old(out)@ + numeral(n as nat));
        }
    }
}

/// Appends the last `width` digits of `n` to `out`.
fn push_padded(out: &mut String, n: u64, width: usize)
    ensures
        final(out)@ == old(out)@ + padded(n as nat, width as nat),
    decreases width,
{
    if width > 0 {
        push_padded(out, n / 10, width - 1);
        out.append(digit_text(n % 10));
        proof {
            assert(out@ =~= old(out)@ + padded(n as nat, width as nat));
        }
    } else {
        proof {
            assert(out@ =~= old(out)@ + padded(n as nat, width as nat));
        }
    }
}

/// Appends the decimal text of `v` units to `out`.
pub fn push_fixed(out: &mut String, v: i64)
    ensures
        final(out)@ == old(out)@ + text_of(v as int),
{
    let m: u64 = if v < 0 {
        if v == i64::MIN {
            9_223_372_036_854_775_808
        } else {
            (-v) as u64
        }
    } else {
        v as u64
    };
    let ghost start = out@;
    if v < 0 {
        out.append("-");
        proof {
            reveal_strlit("-");
            assert("-"@ =~= seq!['-']);
        }
    }
    push_numeral(out, m / 100_000_000);
    out.append(".");
    proof {
        reveal_strlit(".");
        assert("."@ =~= seq!['.']);
    }
    push_padded(out, m % 100_000_000, FRACTION_DIGITS);
    proof {
        assert(out@ =~= start + text_of(v as int));
    }
}

/// The decimal text of `v` units.
pub fn render_fixed(v: i64) -> (r: String)
    ensures
        r@ == text_of(v as int),
        fixed_point(r@) == Some(v),
{
    let mut out = String::new();
    push_fixed(&mut out, v);
    proof {
        assert(out@ =~= text_of(v as int));
        text_reads_back(v);
    }
    out
}

} // verus!
