//! Verified numeric text handling: parsing integers and fixed-point decimal
//! values out of CSV cells, and rendering numbers for error messages.
//!
//! Chart values are exact decimals held as a signed count of millionths
//! (fixed point), so all layout arithmetic in the library is exact; the
//! accepted text grammar is spelled out at `is_decimal_literal`.
use vstd::prelude::*;

verus! {

/// One millionth: the fixed-point scale of chart values.
pub const MICRO: i64 = 1_000_000;

/// Largest magnitude (exclusive), in millionths, that a parsed value may have.
pub const MICRO_LIMIT: i64 = 1_000_000_000_000_000_000;

/// An ASCII decimal digit.
pub open spec fn is_digit(c: char) -> bool {
    '0' as u32 <= c as u32 && c as u32 <= '9' as u32
}

/// Numeric value of an ASCII digit.
pub open spec fn digit_of(c: char) -> int {
    c as u32 - '0' as u32
}

/// Every character of `s` is an ASCII digit.
pub open spec fn all_digits(s: Seq<char>) -> bool {
    forall|k: int| 0 <= k < s.len() ==> is_digit(s[k])
}

/// The number that the digit string `s` denotes, most significant first.
pub open spec fn digits_val(s: Seq<char>) -> int
    decreases s.len(),
{
    if s.len() == 0 {
        0
    } else {
        10 * digits_val(s.drop_last()) + digit_of(s.last())
    }
}

/// Ten to the power `n`.
pub open spec fn pow10(n: nat) -> int
    decreases n,
{
    if n == 0 {
        1
    } else {
        10 * pow10((n - 1) as nat)
    }
}

proof fn lemma_digits_val_nonneg(s: Seq<char>)
    requires
        all_digits(s),
    ensures
        digits_val(s) >= 0,
    decreases s.len(),
{
    if s.len() > 0 {
        lemma_digits_val_nonneg(s.drop_last());
    }
}

proof fn lemma_digits_val_upper(s: Seq<char>)
    requires
        all_digits(s),
    ensures
        digits_val(s) < pow10(s.len()),
    decreases s.len(),
{
    if s.len() > 0 {
        lemma_digits_val_upper(s.drop_last());
        lemma_pow10_pos(((s.len() - 1)) as nat);
    }
}

proof fn lemma_pow10_pos(n: nat)
    ensures
        pow10(n) >= 1,
    decreases n,
{
    if n > 0 {
        lemma_pow10_pos((n - 1) as nat);
    }
}

/// A digit string is worth at least as much as any of its prefixes.
proof fn lemma_digits_val_prefix(s: Seq<char>, i: int)
    requires
        all_digits(s),
        0 <= i <= s.len(),
    ensures
        digits_val(s.subrange(0, i)) <= digits_val(s),
    decreases s.len() - i,
{
    if i == s.len() {
        assert(s.subrange(0, i) =~= s);
    } else {
        let t = s.subrange(0, i + 1);
        assert(t.drop_last() =~= s.subrange(0, i));
        lemma_digits_val_nonneg(s.subrange(0, i));
        lemma_digits_val_prefix(s, i + 1);
    }
}

/// Parses `s[from..to)` as an unsigned digit string worth at most `cap`.
fn parse_digits(s: &str, from: usize, to: usize, cap: u64) -> (r: Option<u64>)
    requires
        from <= to <= s@.len(),
        cap <= 1_000_000_000_000_000_000,
    ensures
        r matches Some(v) ==> v as int == digits_val(s@.subrange(from as int, to as int)),
        (r is Some) <==> (from < to && all_digits(s@.subrange(from as int, to as int))
            && digits_val(s@.subrange(from as int, to as int)) <= cap),
{
    let ghost whole = s@.subrange(from as int, to as int);
    if from == to {
        return None;
    }
    let mut acc: u64 = 0;
    let mut i: usize = from;
    while i < to
        invariant
            from <= i <= to <= s@.len(),
            cap <= 1_000_000_000_000_000_000,
            whole == s@.subrange(from as int, to as int),
            all_digits(s@.subrange(from as int, i as int)),
            acc as int == digits_val(s@.subrange(from as int, i as int)),
            acc <= cap,
        decreases to - i,
    {
        let c = s.get_char(i);
        let u = c as u32;
        if !(48 <= u && u <= 57) {
            proof {
                assert(whole[i - from] == s@[i as int]);
                assert(!is_digit(whole[i - from]));
            }
            return None;
        }
        let d = (u - 48) as u64;
        let next = acc * 10 + d;
        proof {
            let p = s@.subrange(from as int, i as int);
            let q = s@.subrange(from as int, i + 1);
            assert(q.drop_last() =~= p);
            assert(q.last() == s@[i as int]);
        }
        if next > cap {
            proof {
                if all_digits(whole) && digits_val(whole) <= cap {
                    let q = s@.subrange(from as int, i + 1);
                    assert(q =~= whole.subrange(0, i + 1 - from));
                    lemma_digits_val_prefix(whole, i + 1 - from);
                }
            }
            return None;
        }
        acc = next;
        i = i + 1;
    }
    proof {
        assert(s@.subrange(from as int, to as int) =~= whole);
    }
    Some(acc)
}

/// `s` without one leading `+` or `-` sign, if present.
pub open spec fn sign_body(s: Seq<char>) -> Seq<char> {
    if s.len() > 0 && (s[0] == '+' || s[0] == '-') {
        s.drop_first()
    } else {
        s
    }
}

/// `s` carries a leading minus sign.
pub open spec fn is_negative(s: Seq<char>) -> bool {
    s.len() > 0 && s[0] == '-'
}

/// An optionally signed, non-empty ASCII digit string.
pub open spec fn is_int_literal(s: Seq<char>) -> bool {
    sign_body(s).len() > 0 && all_digits(sign_body(s))
}

/// The signed value of an integer literal.
pub open spec fn int_literal_val(s: Seq<char>) -> int {
    if is_negative(s) {
        -digits_val(sign_body(s))
    } else {
        digits_val(sign_body(s))
    }
}

/// Parses a 32-bit signed integer, as the scatter and line charts need.
pub fn parse_i32(s: &str) -> (r: Option<i32>)
    ensures
        r matches Some(v) ==> v as int == int_literal_val(s@),
        (r is Some) <==> (is_int_literal(s@) && -0x8000_0000 <= int_literal_val(s@)
            <= 0x7fff_ffff),
{
    let n: usize = s.unicode_len();
    if n == 0 {
        return None;
    }
    let c0 = s.get_char(0);
    let neg = c0 == '-';
    let start: usize = if c0 == '-' || c0 == '+' {
        1
    } else {
        0
    };
    proof {
        assert(sign_body(s@) =~= s@.subrange(start as int, n as int));
    }
    match parse_digits(s, start, n, 0x8000_0000) {
        None => {
            proof {
                if is_int_literal(s@) && -0x8000_0000 <= int_literal_val(s@) <= 0x7fff_ffff {
                    assert(digits_val(sign_body(s@)) <= 0x8000_0000);
                }
            }
            None
        },
        Some(v) => {
            if neg {
                let out: i64 = -(v as i64);
                Some(out as i32)
            } else {
                if v > 0x7fff_ffff {
                    None
                } else {
                    Some(v as i32)
                }
            }
        },
    }
}

/// `s` without one leading `+` sign, if present.
pub open spec fn plus_body(s: Seq<char>) -> Seq<char> {
    if s.len() > 0 && s[0] == '+' {
        s.drop_first()
    } else {
        s
    }
}

/// A non-empty digit string, optionally preceded by `+`.
pub open spec fn is_u8_literal(s: Seq<char>) -> bool {
    plus_body(s).len() > 0 && all_digits(plus_body(s))
}

/// The value of an unsigned literal.
pub open spec fn u8_literal_val(s: Seq<char>) -> int {
    digits_val(plus_body(s))
}

/// Parses one RGB color component, a number between 0 and 255.
pub fn parse_u8(s: &str) -> (r: Option<u8>)
    ensures
        r matches Some(v) ==> v as int == u8_literal_val(s@),
        (r is Some) <==> (is_u8_literal(s@) && u8_literal_val(s@) <= 255),
{
    let n: usize = s.unicode_len();
    if n == 0 {
        return None;
    }
    let start: usize = if s.get_char(0) == '+' {
        1
    } else {
        0
    };
    proof {
        assert(plus_body(s@) =~= s@.subrange(start as int, n as int));
    }
    match parse_digits(s, start, n, 255) {
        None => None,
        Some(v) => Some(v as u8),
    }
}

/// Index of the first `.` in `s`, or `s.len()` if there is none.
pub open spec fn first_dot(s: Seq<char>) -> int
    decreases s.len(),
{
    if s.len() == 0 {
        0
    } else if s[0] == '.' {
        0
    } else {
        1 + first_dot(s.drop_first())
    }
}

proof fn lemma_first_dot_at(s: Seq<char>, j: int)
    requires
        0 <= j <= s.len(),
        forall|k: int| 0 <= k < j ==> s[k] != '.',
        j == s.len() || s[j] == '.',
    ensures
        first_dot(s) == j,
    decreases j,
{
    if j == 0 {
        if s.len() > 0 && s[0] != '.' {
            assert(false);
        }
    } else {
        let t = s.drop_first();
        assert(forall|k: int| 0 <= k < j - 1 ==> t[k] != '.');
        lemma_first_dot_at(t, j - 1);
    }
}

/// Index of the first exponent marker (`e` or `E`) in `s`, or `s.len()`.
pub open spec fn first_exp(s: Seq<char>) -> int
    decreases s.len(),
{
    if s.len() == 0 {
        0
    } else if s[0] == 'e' || s[0] == 'E' {
        0
    } else {
        1 + first_exp(s.drop_first())
    }
}

proof fn lemma_first_exp_at(s: Seq<char>, j: int)
    requires
        0 <= j <= s.len(),
        forall|k: int| 0 <= k < j ==> !(s[k] == 'e' || s[k] == 'E'),
        j == s.len() || s[j] == 'e' || s[j] == 'E',
    ensures
        first_exp(s) == j,
    decreases j,
{
    if j == 0 {
        if s.len() > 0 && !(s[0] == 'e' || s[0] == 'E') {
            assert(false);
        }
    } else {
        let t = s.drop_first();
        assert(forall|k: int| 0 <= k < j - 1 ==> !(t[k] == 'e' || t[k] == 'E'));
        lemma_first_exp_at(t, j - 1);
    }
}

/// The mantissa text of an unsigned body: everything before the exponent
/// marker.
pub open spec fn mant_of(b: Seq<char>) -> Seq<char> {
    b.subrange(0, first_exp(b))
}

/// The integer digits of the mantissa.
pub open spec fn int_str(b: Seq<char>) -> Seq<char> {
    mant_of(b).subrange(0, first_dot(mant_of(b)))
}

/// The fraction digits of the mantissa, empty when there is no point.
pub open spec fn frac_str(b: Seq<char>) -> Seq<char> {
    let m = mant_of(b);
    if first_dot(m) == m.len() {
        Seq::empty()
    } else {
        m.subrange(first_dot(m) + 1, m.len() as int)
    }
}

/// The exponent text after the marker, sign included.
pub open spec fn exp_str(b: Seq<char>) -> Seq<char> {
    b.subrange(first_exp(b) + 1, b.len() as int)
}

/// The signed exponent, zero when there is no marker.
pub open spec fn exp_val(b: Seq<char>) -> int {
    if first_exp(b) == b.len() {
        0
    } else if is_negative(exp_str(b)) {
        -digits_val(sign_body(exp_str(b)))
    } else {
        digits_val(sign_body(exp_str(b)))
    }
}

/// The power of ten, in millionths, that one mantissa unit is worth once
/// point and exponent are accounted for.
pub open spec fn scale_of(b: Seq<char>) -> int {
    6 + exp_val(b) - frac_str(b).len()
}

/// The mantissa's digits read as one integer.
pub open spec fn mantissa_of(b: Seq<char>) -> int {
    digits_val(int_str(b)) * pow10(frac_str(b).len()) + digits_val(frac_str(b))
}

/// The value grammar of chart cells: an optionally signed digit string
/// with an optional decimal point (digits may stand on either side of it)
/// and an optional decimal exponent (`e` or `E`, itself signed, of
/// magnitude at most 18 — larger exponents cannot name a representable
/// value with a nonzero mantissa). A value must come to a whole count of
/// millionths as written: text whose fraction is finer than that — more
/// fraction digits than the exponent and the six millionth places absorb —
/// is rejected, not rounded. `inf` and `nan` are likewise rejected: they
/// give no pie or radar geometry, which the degenerate-data guard covers.
pub open spec fn is_decimal_literal(s: Seq<char>) -> bool {
    let b = sign_body(s);
    &&& int_str(b).len() + frac_str(b).len() > 0
    &&& all_digits(int_str(b))
    &&& all_digits(frac_str(b))
    &&& (first_exp(b) < b.len() ==> sign_body(exp_str(b)).len() > 0 && all_digits(
        sign_body(exp_str(b)),
    ) && digits_val(sign_body(exp_str(b))) <= 18)
    &&& scale_of(b) >= 0
}

/// The signed value of a decimal literal, in millionths.
pub open spec fn decimal_micro_val(s: Seq<char>) -> int {
    let b = sign_body(s);
    let mag = mantissa_of(b) * pow10(scale_of(b) as nat);
    if is_negative(s) {
        -mag
    } else {
        mag
    }
}

/// Under the grammar, the magnitude dominates the mantissa, which
/// dominates either digit block.
proof fn lemma_value_lower(b: Seq<char>)
    requires
        all_digits(int_str(b)),
        all_digits(frac_str(b)),
        scale_of(b) >= 0,
    ensures
        mantissa_of(b) >= 0,
        mantissa_of(b) >= digits_val(int_str(b)),
        mantissa_of(b) >= digits_val(frac_str(b)),
        digits_val(int_str(b)) >= 1 ==> mantissa_of(b) >= pow10(frac_str(b).len()),
        mantissa_of(b) * pow10(scale_of(b) as nat) >= mantissa_of(b),
        mantissa_of(b) >= 1 ==> mantissa_of(b) * pow10(scale_of(b) as nat) >= pow10(
            scale_of(b) as nat,
        ),
{
    let iv = digits_val(int_str(b));
    let fv = digits_val(frac_str(b));
    let p = pow10(frac_str(b).len());
    let m = mantissa_of(b);
    let ps = pow10(scale_of(b) as nat);
    lemma_digits_val_nonneg(int_str(b));
    lemma_digits_val_nonneg(frac_str(b));
    lemma_pow10_pos(frac_str(b).len());
    lemma_pow10_pos(scale_of(b) as nat);
    assert(iv * p >= iv && iv * p >= 0 && (iv >= 1 ==> iv * p >= p)) by (nonlinear_arith)
        requires
            iv >= 0,
            p >= 1,
    ;
    assert(m * ps >= m && (m >= 1 ==> m * ps >= ps)) by (nonlinear_arith)
        requires
            m >= 0,
            ps >= 1,
    ;
}

proof fn lemma_pow10_at_least_18(n: nat)
    requires
        n >= 18,
    ensures
        pow10(n) >= 1_000_000_000_000_000_000,
{
    lemma_pow10_mono(18, n);
    assert(pow10(18) == 1_000_000_000_000_000_000) by {
        reveal_with_fuel(pow10, 19);
    }
}

proof fn lemma_u64_mul_fits(a: int, c: int)
    requires
        0 <= a < 0x1_0000_0000_0000_0000,
        0 <= c < 0x1_0000_0000_0000_0000,
    ensures
        a * c + 0xFFFF_FFFF_FFFF_FFFF < 0x1_0000_0000_0000_0000_0000_0000_0000_0000,
{
    assert(a * c <= (0x1_0000_0000_0000_0000 - 1) * (0x1_0000_0000_0000_0000 - 1))
        by (nonlinear_arith)
        requires
            0 <= a < 0x1_0000_0000_0000_0000,
            0 <= c < 0x1_0000_0000_0000_0000,
    ;
}

fn exp_char(c: char) -> (r: bool)
    ensures
        r == (c == 'e' || c == 'E'),
{
    c == 'e' || c == 'E'
}

fn pow10_u64(e: u64) -> (r: u64)
    requires
        e <= 18,
    ensures
        r as int == pow10(e as nat),
{
    let mut k: u64 = 0;
    let mut p: u64 = 1;
    while k < e
        invariant
            0 <= k <= e <= 18,
            p as int == pow10(k as nat),
        decreases e - k,
    {
        proof {
            lemma_pow10_mono((k + 1) as nat, 18);
            assert(pow10(18) == 1_000_000_000_000_000_000) by {
                reveal_with_fuel(pow10, 19);
            }
        }
        p = p * 10;
        k = k + 1;
    }
    p
}

/// Parses a chart value into millionths. Accepts exactly the decimal
/// literals whose magnitude stays under `MICRO_LIMIT`.
#[verifier::rlimit(100)]
pub fn parse_decimal_micro(s: &str) -> (r: Option<i64>)
    ensures
        r matches Some(v) ==> v as int == decimal_micro_val(s@),
        (r is Some) <==> (is_decimal_literal(s@) && -1_000_000_000_000_000_000
            < decimal_micro_val(s@) < 1_000_000_000_000_000_000),
{
    let n: usize = s.unicode_len();
    if n == 0 {
        return None;
    }
    let c0 = s.get_char(0);
    let neg = c0 == '-';
    let start: usize = if c0 == '-' || c0 == '+' {
        1
    } else {
        0
    };
    let ghost b = sign_body(s@);
    proof {
        assert(b =~= s@.subrange(start as int, n as int));
    }
    let mut ei: usize = start;
    while ei < n && !exp_char(s.get_char(ei))
        invariant
            start <= ei <= n,
            n == s@.len(),
            forall|k: int| start <= k < ei ==> !(s@[k] == 'e' || s@[k] == 'E'),
        decreases n - ei,
    {
        ei = ei + 1;
    }
    proof {
        assert(forall|k: int| 0 <= k < ei - start ==> !(b[k] == 'e' || b[k] == 'E'));
        lemma_first_exp_at(b, ei - start);
        assert(mant_of(b) =~= s@.subrange(start as int, ei as int));
    }
    let ghost mant = mant_of(b);
    let mut di: usize = start;
    while di < ei && s.get_char(di) != '.'
        invariant
            start <= di <= ei <= n,
            n == s@.len(),
            forall|k: int| start <= k < di ==> s@[k] != '.',
        decreases ei - di,
    {
        di = di + 1;
    }
    proof {
        assert(forall|k: int| 0 <= k < di - start ==> mant[k] != '.');
        lemma_first_dot_at(mant, di - start);
    }
    let iplen: usize = di - start;
    let fplen: usize = if di == ei {
        0
    } else {
        ei - di - 1
    };
    let ghost ip = int_str(b);
    let ghost fp = frac_str(b);
    proof {
        assert(ip =~= s@.subrange(start as int, di as int));
        if di < ei {
            assert(fp =~= s@.subrange(di + 1, ei as int));
        } else {
            assert(fp =~= Seq::<char>::empty());
        }
    }
    if iplen + fplen == 0 {
        return None;
    }
    let (eneg, expv): (bool, u64) = if ei == n {
        (false, 0u64)
    } else {
        proof {
            assert(exp_str(b) =~= s@.subrange(ei + 1, n as int));
        }
        if ei + 1 == n {
            return None;
        }
        let ce = s.get_char(ei + 1);
        let en = ce == '-';
        let estart: usize = if ce == '-' || ce == '+' {
            ei + 2
        } else {
            ei + 1
        };
        proof {
            assert(sign_body(exp_str(b)) =~= s@.subrange(estart as int, n as int));
        }
        match parse_digits(s, estart, n, 18) {
            None => {
                return None;
            },
            Some(v) => (en, v),
        }
    };
    let fracv: u64 = if fplen == 0 {
        0u64
    } else {
        match parse_digits(s, di + 1, ei, 999_999_999_999_999_999) {
            None => {
                proof {
                    if is_decimal_literal(s@) {
                        lemma_value_lower(b);
                    }
                }
                return None;
            },
            Some(v) => v,
        }
    };
    let intv: u64 = if iplen == 0 {
        0u64
    } else {
        match parse_digits(s, start, di, 999_999_999_999_999_999) {
            None => {
                proof {
                    if is_decimal_literal(s@) {
                        lemma_value_lower(b);
                    }
                }
                return None;
            },
            Some(v) => v,
        }
    };
    if fplen > 24 {
        return None;
    }
    let e_i: i64 = if eneg {
        -(expv as i64)
    } else {
        expv as i64
    };
    let scale_i: i64 = 6 + e_i - (fplen as i64);
    if scale_i < 0 {
        return None;
    }
    let m: u64 = if intv == 0 {
        fracv
    } else if fplen == 0 {
        intv
    } else {
        if fplen > 18 {
            proof {
                if is_decimal_literal(s@) {
                    lemma_value_lower(b);
                    lemma_pow10_at_least_18(fp.len() as nat);
                }
            }
            return None;
        }
        let p = pow10_u64(fplen as u64);
        proof {
            lemma_digits_val_upper(fp);
            lemma_u64_mul_fits(intv as int, p as int);
        }
        let wide: u128 = (intv as u128) * (p as u128) + (fracv as u128);
        proof {
            lemma_pow10_pos(fp.len() as nat);
            assert((intv as int) * (p as int) >= 1) by (nonlinear_arith)
                requires
                    intv >= 1,
                    p >= 1,
            ;
        }
        if wide > 999_999_999_999_999_999u128 {
            proof {
                if is_decimal_literal(s@) {
                    lemma_value_lower(b);
                }
            }
            return None;
        }
        wide as u64
    };
    if m == 0 {
        proof {
            assert(digits_val(ip) * pow10(fp.len()) == 0) by (nonlinear_arith)
                requires
                    digits_val(ip) == 0,
            ;
            assert(mantissa_of(b) == 0);
            assert(mantissa_of(b) * pow10(scale_of(b) as nat) == 0) by (nonlinear_arith)
                requires
                    mantissa_of(b) == 0,
            ;
        }
        return Some(0);
    }
    if scale_i > 17 {
        proof {
            if is_decimal_literal(s@) {
                lemma_value_lower(b);
                lemma_pow10_at_least_18(scale_of(b) as nat);
            }
        }
        return None;
    }
    let ps = pow10_u64(scale_i as u64);
    proof {
        lemma_u64_mul_fits(m as int, ps as int);
        lemma_value_lower(b);
    }
    let wide2: u128 = (m as u128) * (ps as u128);
    if wide2 > 999_999_999_999_999_999u128 {
        return None;
    }
    let mag: u64 = wide2 as u64;
    if neg {
        Some(-(mag as i64))
    } else {
        Some(mag as i64)
    }
}

proof fn lemma_pow10_mono(a: nat, c: nat)
    requires
        a <= c,
    ensures
        pow10(a) <= pow10(c),
    decreases c,
{
    if a < c {
        lemma_pow10_mono(a, (c - 1) as nat);
        lemma_pow10_pos((c - 1) as nat);
    }
}

/// The decimal rendering of `n`, most significant digit first.
pub open spec fn dec_str(n: nat) -> Seq<char>
    decreases n,
{
    if n < 10 {
        seq![digit_char(n)]
    } else {
        dec_str(n / 10) + seq![digit_char(n % 10)]
    }
}

/// The character for one digit value.
pub open spec fn digit_char(d: nat) -> char {
    if d == 0 {
        '0'
    } else if d == 1 {
        '1'
    } else if d == 2 {
        '2'
    } else if d == 3 {
        '3'
    } else if d == 4 {
        '4'
    } else if d == 5 {
        '5'
    } else if d == 6 {
        '6'
    } else if d == 7 {
        '7'
    } else if d == 8 {
        '8'
    } else {
        '9'
    }
}

fn digit_str(d: u64) -> (r: &'static str)
    requires
        d < 10,
    ensures
        r@ =~= seq![digit_char(d as nat)],
{
    if d == 0 {
        proof {
            reveal_strlit("0");
        }
        "0"
    } else if d == 1 {
        proof {
            reveal_strlit("1");
        }
        "1"
    } else if d == 2 {
        proof {
            reveal_strlit("2");
        }
        "2"
    } else if d == 3 {
        proof {
            reveal_strlit("3");
        }
        "3"
    } else if d == 4 {
        proof {
            reveal_strlit("4");
        }
        "4"
    } else if d == 5 {
        proof {
            reveal_strlit("5");
        }
        "5"
    } else if d == 6 {
        proof {
            reveal_strlit("6");
        }
        "6"
    } else if d == 7 {
        proof {
            reveal_strlit("7");
        }
        "7"
    } else if d == 8 {
        proof {
            reveal_strlit("8");
        }
        "8"
    } else {
        proof {
            reveal_strlit("9");
        }
        "9"
    }
}

/// Renders `n` in decimal, as the error messages print line numbers.
pub fn u64_to_string(n: u64) -> (r: String)
    ensures
        r@ == dec_str(n as nat),
    decreases n,
{
    if n < 10 {
        digit_str(n).to_owned()
    } else {
        let mut s = u64_to_string(n / 10);
        s.append(digit_str(n % 10));
        s
    }
}

} // verus!
