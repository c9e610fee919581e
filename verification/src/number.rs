//! Conversion of a numeric literal span to its value.
//!
//! The lexer hands out permissive number spans; this module decides their
//! validity and value. A literal with a `0x`/`0X` prefix is read as
//! hexadecimal, one with a leading `0` as octal, anything else as a decimal
//! literal with an optional fraction and exponent.
//!
//! Verified code cannot hold a floating-point number, so a value is held
//! exactly, as its canonical decimal text: an integer without leading zeros
//! (`"240000000"`), or an integer part, a point, and a fraction without
//! trailing zeros (`"12.2"`). Decimal literals are evaluated exactly rather
//! than rounded, and exponents are supported up to [`EXP_LIMIT`].

use vstd::prelude::*;
use crate::chars::{
    digit_value, digit_char, digit_value_of, digit_char_of, push_char, is_dec_digit, dec_digit,
    str_to_chars,
};

verus! {

/// The largest exponent (in absolute value) a decimal literal may carry.
pub const EXP_LIMIT: u64 = 100000;

/// The bound on hexadecimal and octal literals, `i64::MAX`.
pub const INT_LIMIT: u64 = 0x7fff_ffff_ffff_ffff;

/// Why a numeric literal failed to convert.
#[derive(Debug, PartialEq, Eq, Structural, Clone, Copy)]
pub enum NumberError {
    /// A radix prefix with no digits after it.
    EmptyDigits,
    /// A character outside the radix.
    InvalidDigit,
    /// An integer literal above [`INT_LIMIT`].
    TooLarge,
    /// Text that does not match the decimal-literal grammar.
    InvalidFloat,
    /// An exponent above [`EXP_LIMIT`].
    HugeExponent,
}

impl NumberError {
    pub open spec fn spec_message(self) -> Seq<char> {
        match self {
            NumberError::EmptyDigits => "cannot parse integer from empty string"@,
            NumberError::InvalidDigit => "invalid digit found in string"@,
            NumberError::TooLarge => "number too large to fit in target type"@,
            NumberError::InvalidFloat => "invalid float literal"@,
            NumberError::HugeExponent => "exponent out of supported range"@,
        }
    }

    /// The underlying cause, as diagnostic text.
    pub fn message(&self) -> (m: &'static str)
        ensures
            m@ == self.spec_message(),
    {
        match self {
            NumberError::EmptyDigits => "cannot parse integer from empty string",
            NumberError::InvalidDigit => "invalid digit found in string",
            NumberError::TooLarge => "number too large to fit in target type",
            NumberError::InvalidFloat => "invalid float literal",
            NumberError::HugeExponent => "exponent out of supported range",
        }
    }
}

/// A left-to-right scan of digits in the given base, accumulating a value,
/// stopping at the first invalid digit or at the first step that would pass
/// [`INT_LIMIT`].
pub open spec fn radix_scan(s: Seq<char>, base: nat, acc: nat) -> Result<nat, NumberError>
    decreases s.len(),
{
    if s.len() == 0 {
        Ok(acc)
    } else if digit_value(s[0]) >= base {
        Err(NumberError::InvalidDigit)
    } else if acc * base + digit_value(s[0]) > INT_LIMIT {
        Err(NumberError::TooLarge)
    } else {
        radix_scan(s.subrange(1, s.len() as int), base, acc * base + digit_value(s[0]))
    }
}

/// The value of `s` as an unsigned integer in the given base, bounded by
/// [`INT_LIMIT`]; empty input, an invalid digit and overflow are told apart.
pub open spec fn spec_parse_radix(s: Seq<char>, base: nat) -> Result<nat, NumberError> {
    if s.len() == 0 {
        Err(NumberError::EmptyDigits)
    } else {
        radix_scan(s, base, 0)
    }
}

/// Whether an exec parse result agrees with a spec parse result.
pub open spec fn radix_result_matches(r: Result<u64, NumberError>, s: Result<nat, NumberError>) -> bool {
    match (r, s) {
        (Ok(v), Ok(n)) => v as nat == n,
        (Err(a), Err(b)) => a == b,
        _ => false,
    }
}

/// Reads `s[start..]` as an unsigned integer in the given base.
pub fn parse_radix(s: &Vec<char>, start: usize, base: u64) -> (r: Result<u64, NumberError>)
    requires
        2 <= base <= 36,
        start <= s@.len(),
    ensures
        radix_result_matches(r, spec_parse_radix(s@.skip(start as int), base as nat)),
        r is Ok ==> r->Ok_0 <= INT_LIMIT,
{
    let len = s.len();
    if start == len {
        return Err(NumberError::EmptyDigits);
    }
    let mut acc: u64 = 0;
    let mut i: usize = start;
    while i < len
        invariant
            start <= i <= len == s@.len(),
            2 <= base <= 36,
            acc <= INT_LIMIT,
            radix_scan(s@.skip(start as int), base as nat, 0) == radix_scan(
                s@.skip(i as int),
                base as nat,
                acc as nat,
            ),
        decreases len - i,
    {
        let c = s[i];
        let d = digit_value_of(c);
        proof {
            assert(s@.skip(i as int)[0] == s@[i as int]);
        }
        if d >= base {
            return Err(NumberError::InvalidDigit);
        }
        proof {
            assert((acc as u128) * (base as u128) <= (INT_LIMIT as u128) * 36) by (nonlinear_arith)
                requires
                    acc <= INT_LIMIT,
                    base <= 36,
            ;
        }
        let wide: u128 = (acc as u128) * (base as u128) + (d as u128);
        if wide > INT_LIMIT as u128 {
            return Err(NumberError::TooLarge);
        }
        acc = wide as u64;
        i = i + 1;
        proof {
            assert(s@.skip(i - 1).subrange(1, s@.skip(i - 1).len() as int) =~= s@.skip(i as int));
        }
    }
    proof {
        assert(s@.skip(i as int).len() == 0);
    }
    Ok(acc)
}

/// The decimal digits of `n`, most significant first.
pub open spec fn nat_to_digits(n: nat) -> Seq<char>
    decreases n,
{
    if n < 10 {
        seq![digit_char(n)]
    } else {
        proof {
            assert(n / 10 < n) by (nonlinear_arith)
                requires
                    n >= 10,
            ;
        }
        nat_to_digits(n / 10).push(digit_char(n % 10))
    }
}

/// Appends the decimal digits of `n` to `out`.
pub fn push_decimal(out: &mut String, n: u64)
    ensures
        final(out)@ == old(out)@ + nat_to_digits(n as nat),
    decreases n,
{
    if n < 10 {
        push_char(out, digit_char_of(n));
        proof {
            assert(final(out)@ =~= old(out)@ + nat_to_digits(n as nat));
        }
    } else {
        push_decimal(out, n / 10);
        push_char(out, digit_char_of(n % 10));
        proof {
            assert(final(out)@ =~= old(out)@ + nat_to_digits(n as nat));
        }
    }
}

/// The end of the run of decimal digits that starts at `i`.
pub open spec fn scan_digits(s: Seq<char>, i: nat) -> nat
    decreases s.len() - i
    when i <= s.len()
{
    if i < s.len() && is_dec_digit(s[i as int]) {
        scan_digits(s, i + 1)
    } else {
        i
    }
}

pub proof fn lemma_scan_digits(s: Seq<char>, i: nat)
    requires
        i <= s.len(),
    ensures
        i <= scan_digits(s, i) <= s.len(),
        forall|j: int| i <= j < scan_digits(s, i) ==> is_dec_digit(s[j]),
    decreases s.len() - i,
{
    if i < s.len() && is_dec_digit(s[i as int]) {
        lemma_scan_digits(s, i + 1);
    }
}

/// Reads to the end of the run of decimal digits that starts at `from`.
pub fn scan_digits_to(s: &Vec<char>, from: usize) -> (end: usize)
    requires
        from <= s@.len(),
    ensures
        end == scan_digits(s@, from as nat),
        from <= end <= s@.len(),
{
    proof {
        lemma_scan_digits(s@, from as nat);
    }
    let len = s.len();
    let mut i: usize = from;
    while i < len && dec_digit(s[i])
        invariant
            from <= i <= len == s@.len(),
            scan_digits(s@, from as nat) == scan_digits(s@, i as nat),
        decreases len - i,
    {
        i = i + 1;
    }
    i
}

/// The pieces of a decimal literal `D+ ('.' D*)? | D* '.' D+`, with an
/// optional exponent `('e'|'E') ('+'|'-')? D+`; `None` when the text does not
/// match that grammar.
pub struct FloatParts {
    pub int_digits: Seq<char>,
    pub frac_digits: Seq<char>,
    pub exp_negative: bool,
    pub exp_digits: Seq<char>,
}

pub open spec fn spec_float_parts(s: Seq<char>) -> Option<FloatParts> {
    let i1 = scan_digits(s, 0);
    let has_dot = i1 < s.len() && s[i1 as int] == '.';
    let fstart = if has_dot { i1 + 1 } else { i1 };
    let i2 = if has_dot { scan_digits(s, fstart) } else { i1 };
    let has_exp = i2 < s.len() && (s[i2 as int] == 'e' || s[i2 as int] == 'E');
    let signed = has_exp && i2 + 1 < s.len() && (s[i2 + 1 as int] == '-' || s[i2 + 1 as int] == '+');
    let neg = has_exp && i2 + 1 < s.len() && s[i2 + 1 as int] == '-';
    let estart = if signed { i2 + 2 } else { i2 + 1 };
    let i3 = if has_exp { scan_digits(s, estart) } else { i2 };
    if i1 == 0 && (!has_dot || i2 == fstart) {
        None
    } else if has_exp && i3 == estart {
        None
    } else if (if has_exp { i3 } else { i2 }) != s.len() {
        None
    } else {
        Some(
            (FloatParts {
                int_digits: s.subrange(0, i1 as int),
                frac_digits: if has_dot { s.subrange(fstart as int, i2 as int) } else { Seq::empty() },
                exp_negative: neg,
                exp_digits: if has_exp { s.subrange(estart as int, i3 as int) } else { Seq::empty() },
            }),
        )
    }
}

/// The value of a run of decimal digits, most significant first.
pub open spec fn digits_value(s: Seq<char>) -> nat
    decreases s.len(),
{
    if s.len() == 0 {
        0
    } else {
        digits_value(s.drop_last()) * 10 + digit_value(s.last())
    }
}

/// `n` zero characters.
pub open spec fn zeros(n: nat) -> Seq<char> {
    Seq::new(n, |i: int| '0')
}

/// `s` without its leading zero characters.
pub open spec fn trim_zeros(s: Seq<char>) -> Seq<char>
    decreases s.len(),
{
    if s.len() > 0 && s[0] == '0' {
        trim_zeros(s.subrange(1, s.len() as int))
    } else {
        s
    }
}

/// Removes up to `m` trailing zero characters from `d`, returning what is
/// left of each.
pub open spec fn strip_common_zeros(d: Seq<char>, m: nat) -> (Seq<char>, nat)
    decreases m,
{
    if m > 0 && d.len() > 0 && d.last() == '0' {
        strip_common_zeros(d.drop_last(), (m - 1) as nat)
    } else {
        (d, m)
    }
}

/// The canonical decimal text of `digits * 10^k`, where `d` is a run of
/// decimal digits: an integer without leading zeros, or `int.frac` with a
/// nonempty fraction carrying no trailing zero; `"0"` for zero.
pub open spec fn canonical_decimal(d: Seq<char>, k: int) -> Seq<char> {
    let t = trim_zeros(d);
    if t.len() == 0 {
        seq!['0']
    } else if k >= 0 {
        t + zeros(k as nat)
    } else {
        let um = strip_common_zeros(t, (-k) as nat);
        let u = um.0;
        let m = um.1;
        if m == 0 {
            u
        } else if u.len() > m {
            u.subrange(0, u.len() - m) + seq!['.'] + u.subrange(u.len() - m, u.len() as int)
        } else {
            seq!['0', '.'] + zeros((m - u.len()) as nat) + u
        }
    }
}

/// The value of a decimal literal, as canonical decimal text: the digit runs
/// are taken apart per the grammar, and the value is
/// `(int ++ frac) * 10^(exp - |frac|)`, evaluated exactly.
pub open spec fn spec_decimal_value(s: Seq<char>) -> Result<Seq<char>, NumberError> {
    match spec_float_parts(s) {
        Option::None => Err(NumberError::InvalidFloat),
        Option::Some(p) => {
            if digits_value(p.exp_digits) > EXP_LIMIT {
                Err(NumberError::HugeExponent)
            } else {
                let e: int = if p.exp_negative {
                    -(digits_value(p.exp_digits) as int)
                } else {
                    digits_value(p.exp_digits) as int
                };
                Ok(canonical_decimal(p.int_digits + p.frac_digits, e - p.frac_digits.len()))
            }
        },
    }
}

/// The value of the digit run `s[from..to]`, saturated just above
/// [`EXP_LIMIT`], so that the comparison against the limit stays exact.
fn exp_value(s: &Vec<char>, from: usize, to: usize) -> (ev: u64)
    requires
        from <= to <= s@.len(),
        forall|j: int| from <= j < to ==> is_dec_digit(s@[j]),
    ensures
        ev <= EXP_LIMIT ==> ev == digits_value(s@.subrange(from as int, to as int)),
        ev > EXP_LIMIT ==> digits_value(s@.subrange(from as int, to as int)) > EXP_LIMIT,
        ev <= EXP_LIMIT + 1,
{
    let mut acc: u64 = 0;
    let mut i: usize = from;
    while i < to
        invariant
            from <= i <= to <= s@.len(),
            forall|j: int| from <= j < to ==> is_dec_digit(s@[j]),
            acc <= EXP_LIMIT + 1,
            acc <= EXP_LIMIT ==> acc == digits_value(s@.subrange(from as int, i as int)),
            acc > EXP_LIMIT ==> digits_value(s@.subrange(from as int, i as int)) > EXP_LIMIT,
        decreases to - i,
    {
        let d = digit_value_of(s[i]);
        proof {
            assert(is_dec_digit(s@[i as int]));
            assert(s@.subrange(from as int, i + 1).drop_last() =~= s@.subrange(
                from as int,
                i as int,
            ));
            assert(s@.subrange(from as int, i + 1).last() == s@[i as int]);
        }
        let ghost prev = digits_value(s@.subrange(from as int, i as int));
        let ghost next = digits_value(s@.subrange(from as int, i + 1));
        proof {
            assert(next == prev * 10 + digit_value(s@[i as int]));
        }
        if acc > EXP_LIMIT {
            proof {
                assert(prev * 10 >= prev) by (nonlinear_arith);
            }
        } else {
            acc = acc * 10 + d;
            if acc > EXP_LIMIT {
                acc = EXP_LIMIT + 1;
            }
        }
        i = i + 1;
    }
    acc
}

/// Appends the characters `s[from..to]` to `out`.
fn push_range(out: &mut String, s: &Vec<char>, from: usize, to: usize)
    requires
        from <= to <= s@.len(),
    ensures
        final(out)@ == old(out)@ + s@.subrange(from as int, to as int),
{
    let mut i: usize = from;
    while i < to
        invariant
            from <= i <= to <= s@.len(),
            out@ == old(out)@ + s@.subrange(from as int, i as int),
        decreases to - i,
    {
        push_char(out, s[i]);
        i = i + 1;
        proof {
            assert(out@ =~= old(out)@ + s@.subrange(from as int, i as int));
        }
    }
    proof {
        assert(out@ =~= old(out)@ + s@.subrange(from as int, to as int));
    }
}

/// Appends `n` zero characters to `out`.
fn push_zeros(out: &mut String, n: u128)
    ensures
        final(out)@ == old(out)@ + zeros(n as nat),
{
    let mut j: u128 = 0;
    while j < n
        invariant
            j <= n,
            out@ == old(out)@ + zeros(j as nat),
        decreases n - j,
    {
        push_char(out, '0');
        j = j + 1;
        proof {
            assert(out@ =~= old(out)@ + zeros(j as nat));
        }
    }
    proof {
        assert(out@ =~= old(out)@ + zeros(n as nat));
    }
}

/// Renders `digits(d) * 10^k` canonically, per [`canonical_decimal`].
fn render_canonical(d: &Vec<char>, k: i128) -> (out: String)
    requires
        k <= EXP_LIMIT as i128,
        k > i128::MIN,
    ensures
        out@ == canonical_decimal(d@, k as int),
{
    let len = d.len();
    let mut lead: usize = 0;
    proof {
        assert(d@.subrange(0, len as int) =~= d@);
    }
    while lead < len && d[lead] == '0'
        invariant
            lead <= len == d@.len(),
            trim_zeros(d@) == trim_zeros(d@.subrange(lead as int, len as int)),
        decreases len - lead,
    {
        proof {
            assert(d@.subrange(lead as int, len as int).subrange(
                1,
                d@.subrange(lead as int, len as int).len() as int,
            ) =~= d@.subrange(lead + 1, len as int));
        }
        lead = lead + 1;
    }
    let ghost t = trim_zeros(d@);
    proof {
        assert(t == d@.subrange(lead as int, len as int));
    }
    let mut out = String::new();
    if lead == len {
        // only zeros (or nothing): the value is zero
        push_char(&mut out, '0');
        proof {
            assert(out@ =~= seq!['0']);
        }
        return out;
    }
    if k >= 0 {
        push_range(&mut out, d, lead, len);
        push_zeros(&mut out, k as u128);
        proof {
            assert(out@ =~= t + zeros(k as nat));
        }
        return out;
    }
    // k < 0: place a decimal point, stripping matched trailing zeros first
    let ghost m0 = (-k) as nat;
    let mut m: u128 = (-k) as u128;
    let mut end: usize = len;
    while m > 0 && end > lead && d[end - 1] == '0'
        invariant
            lead <= end <= len == d@.len(),
            m <= m0,
            strip_common_zeros(t, m0) == strip_common_zeros(
                d@.subrange(lead as int, end as int),
                m as nat,
            ),
        decreases end,
    {
        proof {
            assert(d@.subrange(lead as int, end as int).drop_last() =~= d@.subrange(
                lead as int,
                end - 1,
            ));
            assert(d@.subrange(lead as int, end as int).last() == d@[end - 1]);
        }
        end = end - 1;
        m = m - 1;
    }
    let ghost u = d@.subrange(lead as int, end as int);
    proof {
        assert(strip_common_zeros(t, m0) == (u, m as nat));
    }
    if m == 0 {
        push_range(&mut out, d, lead, end);
        proof {
            assert(out@ =~= u);
        }
        out
    } else if (end - lead) as u128 > m {
        let sp = end - (m as usize);
        push_range(&mut out, d, lead, sp);
        push_char(&mut out, '.');
        push_range(&mut out, d, sp, end);
        proof {
            assert(d@.subrange(lead as int, sp as int) =~= u.subrange(0, u.len() - m as nat));
            assert(d@.subrange(sp as int, end as int) =~= u.subrange(
                u.len() - m as nat,
                u.len() as int,
            ));
            assert(out@ =~= u.subrange(0, u.len() - m as nat) + seq!['.'] + u.subrange(
                u.len() - m as nat,
                u.len() as int,
            ));
        }
        out
    } else {
        push_char(&mut out, '0');
        push_char(&mut out, '.');
        push_zeros(&mut out, m - (end - lead) as u128);
        push_range(&mut out, d, lead, end);
        proof {
            assert(out@ =~= seq!['0', '.'] + zeros((m as nat - u.len()) as nat) + u);
        }
        out
    }
}

/// The value of a decimal literal, per [`spec_decimal_value`].
pub fn decimal_value(s: &Vec<char>) -> (r: Result<String, NumberError>)
    ensures
        match (r, spec_decimal_value(s@)) {
            (Ok(v), Ok(sv)) => v@ == sv,
            (Err(a), Err(b)) => a == b,
            _ => false,
        },
{
    let len = s.len();
    let i1 = scan_digits_to(s, 0);
    let has_dot = i1 < len && s[i1] == '.';
    let fstart = if has_dot { i1 + 1 } else { i1 };
    let i2 = if has_dot { scan_digits_to(s, fstart) } else { i1 };
    if i1 == 0 && (!has_dot || i2 == fstart) {
        return Err(NumberError::InvalidFloat);
    }
    let has_exp = i2 < len && (s[i2] == 'e' || s[i2] == 'E');
    let signed = has_exp && i2 + 1 < len && (s[i2 + 1] == '-' || s[i2 + 1] == '+');
    let neg = has_exp && i2 + 1 < len && s[i2 + 1] == '-';
    let estart = if signed { i2 + 2 } else if has_exp { i2 + 1 } else { 0 };
    let i3 = if has_exp { scan_digits_to(s, estart) } else { i2 };
    if has_exp && i3 == estart {
        return Err(NumberError::InvalidFloat);
    }
    if (if has_exp { i3 } else { i2 }) != len {
        return Err(NumberError::InvalidFloat);
    }
    let ghost parts = spec_float_parts(s@).unwrap();
    let ev = if has_exp {
        proof {
            lemma_scan_digits(s@, estart as nat);
            assert(parts.exp_digits =~= s@.subrange(estart as int, i3 as int));
        }
        exp_value(s, estart, i3)
    } else {
        proof {
            assert(parts.exp_digits =~= Seq::<char>::empty());
        }
        0
    };
    if ev > EXP_LIMIT {
        return Err(NumberError::HugeExponent);
    }
    let flen = if has_dot { i2 - fstart } else { 0 };
    proof {
        if has_dot {
            assert(parts.frac_digits =~= s@.subrange(fstart as int, i2 as int));
        } else {
            assert(parts.frac_digits =~= Seq::<char>::empty());
        }
        assert(parts.int_digits =~= s@.subrange(0, i1 as int));
    }
    let k: i128 = (if neg { -(ev as i128) } else { ev as i128 }) - (flen as i128);
    let mut digits: Vec<char> = Vec::new();
    let mut i: usize = 0;
    while i < i1
        invariant
            i <= i1 <= s@.len(),
            digits@ == s@.subrange(0, i as int),
        decreases i1 - i,
    {
        digits.push(s[i]);
        i = i + 1;
        proof {
            assert(digits@ =~= s@.subrange(0, i as int));
        }
    }
    if has_dot {
        let mut j: usize = fstart;
        while j < i2
            invariant
                fstart <= j <= i2 <= s@.len(),
                i1 < fstart,
                digits@ == s@.subrange(0, i1 as int) + s@.subrange(fstart as int, j as int),
            decreases i2 - j,
        {
            digits.push(s[j]);
            j = j + 1;
            proof {
                assert(digits@ =~= s@.subrange(0, i1 as int) + s@.subrange(
                    fstart as int,
                    j as int,
                ));
            }
        }
    }
    proof {
        assert(digits@ =~= parts.int_digits + parts.frac_digits);
    }
    Ok(render_canonical(&digits, k))
}

/// What became of a numeric literal: its value, when one was produced, and
/// every conversion error met along the way. A hex-prefixed literal that
/// fails the hex parse falls through to the octal and decimal attempts, as a
/// leading-zero literal that fails the octal parse falls through to the
/// decimal attempt, so more than one error may accumulate.
pub struct NumberOutcome {
    pub value: Option<String>,
    pub errors: Vec<NumberError>,
}

pub open spec fn starts_with_hex_prefix(s: Seq<char>) -> bool {
    s.len() >= 2 && s[0] == '0' && (s[1] == 'x' || s[1] == 'X')
}

/// The value and error trail of a numeric literal: hexadecimal for a
/// `0x`/`0X` prefix, else octal for a leading zero, else a decimal literal.
pub open spec fn spec_number_value(s: Seq<char>) -> (Option<Seq<char>>, Seq<NumberError>) {
    if starts_with_hex_prefix(s) && spec_parse_radix(s.skip(2), 16) is Ok {
        (Some(nat_to_digits(spec_parse_radix(s.skip(2), 16)->Ok_0)), Seq::empty())
    } else {
        let e1: Seq<NumberError> = if starts_with_hex_prefix(s) {
            seq![spec_parse_radix(s.skip(2), 16)->Err_0]
        } else {
            Seq::empty()
        };
        if s.len() >= 1 && s[0] == '0' && spec_parse_radix(s, 8) is Ok {
            (Some(nat_to_digits(spec_parse_radix(s, 8)->Ok_0)), e1)
        } else {
            let e2: Seq<NumberError> = if s.len() >= 1 && s[0] == '0' {
                e1.push(spec_parse_radix(s, 8)->Err_0)
            } else {
                e1
            };
            match spec_decimal_value(s) {
                Ok(v) => (Some(v), e2),
                Err(e) => (None, e2.push(e)),
            }
        }
    }
}

/// The value of the numeric literal `literal`, as canonical decimal text,
/// with the conversion errors met along the way.
pub fn number_value(literal: &str) -> (r: NumberOutcome)
    ensures
        r.errors@ == spec_number_value(literal@).1,
        match (r.value, spec_number_value(literal@).0) {
            (Some(a), Some(b)) => a@ == b,
            (None, None) => true,
            _ => false,
        },
{
    let s = str_to_chars(literal);
    let mut errors: Vec<NumberError> = Vec::new();
    let len = s.len();
    let hex = len >= 2 && s[0] == '0' && (s[1] == 'x' || s[1] == 'X');
    if hex {
        match parse_radix(&s, 2, 16) {
            Ok(v) => {
                let mut out = String::new();
                push_decimal(&mut out, v);
                proof {
                    assert(out@ =~= nat_to_digits(v as nat));
                }
                return NumberOutcome { value: Some(out), errors };
            },
            Err(e) => {
                errors.push(e);
            },
        }
    }
    let oct = len >= 1 && s[0] == '0';
    if oct {
        proof {
            assert(s@.skip(0) =~= s@);
        }
        match parse_radix(&s, 0, 8) {
            Ok(v) => {
                let mut out = String::new();
                push_decimal(&mut out, v);
                proof {
                    assert(out@ =~= nat_to_digits(v as nat));
                }
                return NumberOutcome { value: Some(out), errors };
            },
            Err(e) => {
                errors.push(e);
            },
        }
    }
    match decimal_value(&s) {
        Ok(v) => NumberOutcome { value: Some(v), errors },
        Err(e) => {
            errors.push(e);
            NumberOutcome { value: None, errors }
        },
    }
}

} // verus!
