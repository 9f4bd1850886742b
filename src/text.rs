//! Decimal numerals: reading integers, recognising floating-point numerals,
//! and writing integers back out as text.
use vstd::prelude::*;

verus! {

/// Relies on `str::chars` and `Iterator::collect`: the characters of the
/// string, in order.
#[verifier::external_body]
pub(crate) fn chars_of(s: &str) -> (r: Vec<char>)
    ensures
        r@ == s@,
{
    s.chars().collect()
}

/// Relies on `String`'s `FromIterator<&char>`: the string made of these
/// characters, in order.
#[verifier::external_body]
pub(crate) fn string_of(v: &Vec<char>) -> (r: String)
    ensures
        r@ == v@,
{
    v.iter().collect()
}

pub open spec fn is_digit(c: char) -> bool {
    '0' <= c && c <= '9'
}

pub open spec fn digit_value(c: char) -> nat {
    (c as int - '0' as int) as nat
}

pub open spec fn digit_char(d: nat) -> char {
    (d + '0' as int) as char
}

pub open spec fn all_digits(s: Seq<char>) -> bool {
    forall|i: int| 0 <= i < s.len() ==> is_digit(#[trigger] s[i])
}

/// The number that a sequence of decimal digits denotes.
pub open spec fn digits_value(s: Seq<char>) -> nat
    decreases s.len(),
{
    if s.len() == 0 {
        0
    } else {
        digits_value(s.drop_last()) * 10 + digit_value(s.last())
    }
}

/// The length of the run of digits that starts `s`.
pub open spec fn digit_run(s: Seq<char>) -> nat
    decreases s.len(),
{
    if s.len() > 0 && is_digit(s[0]) {
        1 + digit_run(s.drop_first())
    } else {
        0
    }
}

/// The decimal numeral of `n`, without leading zeros.
pub open spec fn dec(n: nat) -> Seq<char>
    decreases n,
{
    if n < 10 {
        seq![digit_char(n)]
    } else {
        dec(n / 10).push(digit_char(n % 10))
    }
}

/// The decimal numeral of a signed integer.
pub open spec fn dec_int(n: int) -> Seq<char> {
    if n < 0 {
        seq!['-'].add(dec((-n) as nat))
    } else {
        dec(n as nat)
    }
}

/// `s` without a leading sign character.
pub open spec fn unsigned_part(s: Seq<char>) -> Seq<char> {
    if s.len() > 0 && (s[0] == '+' || s[0] == '-') {
        s.drop_first()
    } else {
        s
    }
}

pub open spec fn starts_negative(s: Seq<char>) -> bool {
    s.len() > 0 && s[0] == '-'
}

/// Reading `s` as an unsigned 64-bit integer: an optional `+`, then one or
/// more digits whose value fits.
pub open spec fn parse_u64_spec(s: Seq<char>) -> Option<u64> {
    let body = unsigned_part(s);
    if !starts_negative(s) && body.len() > 0 && all_digits(body) && digits_value(body)
        <= u64::MAX {
        Some(digits_value(body) as u64)
    } else {
        None
    }
}

/// Reading `s` as a signed 64-bit integer: an optional `+` or `-`, then one or
/// more digits whose signed value fits.
pub open spec fn parse_i64_spec(s: Seq<char>) -> Option<i64> {
    let body = unsigned_part(s);
    let v = digits_value(body) as int;
    let signed = if starts_negative(s) {
        -v
    } else {
        v
    };
    if body.len() > 0 && all_digits(body) && i64::MIN <= signed && signed <= i64::MAX {
        Some(signed as i64)
    } else {
        None
    }
}

/// The length of the run of zeros that starts `d`.
pub open spec fn lead_zeros(d: Seq<char>) -> nat
    decreases d.len(),
{
    if d.len() > 0 && d[0] == '0' {
        1 + lead_zeros(d.drop_first())
    } else {
        0
    }
}

/// The length of the run of zeros that ends `d`.
pub open spec fn trail_zeros(d: Seq<char>) -> nat
    decreases d.len(),
{
    if d.len() > 0 && d.last() == '0' {
        1 + trail_zeros(d.drop_last())
    } else {
        0
    }
}

pub open spec fn zeros(n: nat) -> Seq<char> {
    Seq::new(n, |i: int| '0')
}

/// The length of the run of digits that starts at `i` in `s`.
pub open spec fn run_at(s: Seq<char>, i: int) -> int {
    digit_run(s.subrange(i, s.len() as int)) as int
}

/// The numeral of the number whose decimal digits are `d`, with the point
/// after the first `p0` of them (before the digits when `p0` is negative):
/// no leading zeros before the point, at least one digit after it, no
/// trailing zeros after it but one. A number below 10^-324, which a 64-bit
/// float reads as zero, is `0.0`. `None` when the number has more than 309
/// digits before the point: no finite 64-bit float is that large (between
/// the largest float, about 1.8e308, and 1e309 this reading accepts what a
/// float reading would round to infinity).
pub open spec fn numeral_spec(d: Seq<char>, p0: int) -> Option<Seq<char>> {
    let z = lead_zeros(d);
    if z == d.len() {
        Some(seq!['0', '.', '0'])
    } else {
        let d1 = d.subrange(z as int, d.len() as int);
        let p = p0 - z;
        let d2 = d1.subrange(0, d1.len() - trail_zeros(d1));
        if p > 309 {
            None
        } else if p <= -324 {
            Some(seq!['0', '.', '0'])
        } else if p <= 0 {
            Some(seq!['0', '.'] + zeros((-p) as nat) + d2)
        } else if p >= d2.len() {
            Some(d2 + zeros((p - d2.len()) as nat) + seq!['.', '0'])
        } else {
            Some(d2.subrange(0, p) + seq!['.'] + d2.subrange(p, d2.len() as int))
        }
    }
}

/// Reading `s` as a floating-point number, as a standard base-10 float
/// parser reads a finite number: an optional sign, digits with an optional
/// point (at least one digit on either side), then an optional `e` or `E`
/// with an optional sign and digits. The result is the numeral the value
/// holds (see `numeral_spec`), with a leading `-` for a negative sign.
/// `None` when the text is no such number, or when the number has more
/// than 309 digits before the point (see `numeral_spec`). Where the point
/// ends up decides, not the written exponent: `1e-1001` is `0.0`.
pub open spec fn float_text(s: Seq<char>) -> Option<Seq<char>> {
    if float_form(s) {
        match numeral_spec(float_digits(s), (int_end(s) - sign_end(s)) + exponent(s)) {
            Some(n) => Some(
                if starts_negative(s) {
                    seq!['-'] + n
                } else {
                    n
                },
            ),
            None => None,
        }
    } else {
        None
    }
}

/// Where the sign of `s`, if any, ends.
pub open spec fn sign_end(s: Seq<char>) -> int {
    if s.len() > 0 && (s[0] == '+' || s[0] == '-') {
        1
    } else {
        0
    }
}

/// Where the digits before the point end.
pub open spec fn int_end(s: Seq<char>) -> int {
    sign_end(s) + run_at(s, sign_end(s))
}

/// Where the digits after the point start.
pub open spec fn frac_start(s: Seq<char>) -> int {
    if int_end(s) < s.len() && s[int_end(s)] == '.' {
        int_end(s) + 1
    } else {
        int_end(s)
    }
}

/// Where the digits after the point end, and the exponent part starts.
pub open spec fn frac_end(s: Seq<char>) -> int {
    frac_start(s) + run_at(s, frac_start(s))
}

/// Where the digits of the exponent start.
pub open spec fn exp_digits_start(s: Seq<char>) -> int {
    let e0 = frac_end(s) + 1;
    if e0 < s.len() && (s[e0] == '+' || s[e0] == '-') {
        e0 + 1
    } else {
        e0
    }
}

pub open spec fn exp_digits(s: Seq<char>) -> Seq<char> {
    s.subrange(exp_digits_start(s), exp_digits_start(s) + run_at(s, exp_digits_start(s)))
}

/// The exponent of `s`, zero when it has none.
pub open spec fn exponent(s: Seq<char>) -> int {
    let e0 = frac_end(s) + 1;
    if frac_end(s) == s.len() {
        0
    } else if e0 < s.len() && s[e0] == '-' {
        -digits_value(exp_digits(s))
    } else {
        digits_value(exp_digits(s)) as int
    }
}

/// The mantissa digits of `s`, those before and after the point.
pub open spec fn float_digits(s: Seq<char>) -> Seq<char> {
    s.subrange(sign_end(s), int_end(s)) + s.subrange(frac_start(s), frac_end(s))
}

/// Whether `s` has the form of a float: a digit on some side of the point,
/// and nothing after the digits but an exponent.
pub open spec fn float_form(s: Seq<char>) -> bool {
    let x0 = exp_digits_start(s);
    let x1 = x0 + run_at(s, x0);
    &&& (int_end(s) > sign_end(s) || frac_end(s) > frac_start(s))
    &&& (frac_end(s) == s.len() || ((s[frac_end(s)] == 'e' || s[frac_end(s)] == 'E') && x1 > x0
        && x1 == s.len()))
}

/// Whether `t` is a numeral as a value holds one: an optional `-`, one or
/// more digits, a point, one or more digits.
pub open spec fn is_numeral(t: Seq<char>) -> bool {
    let a: int = if t.len() > 0 && t[0] == '-' {
        1
    } else {
        0
    };
    let b = a + run_at(t, a);
    &&& b > a
    &&& b < t.len()
    &&& t[b] == '.'
    &&& b + 1 < t.len()
    &&& b + 1 + run_at(t, b + 1) == t.len()
}

/// The integer part of a numeral: its leading digits after an optional sign.
pub open spec fn integer_part(t: Seq<char>) -> nat {
    let b = unsigned_part(t);
    digits_value(b.subrange(0, digit_run(b) as int))
}

/// A numeral truncated toward zero, saturated at the bounds of `i64`.
pub open spec fn truncate_i64_spec(t: Seq<char>) -> i64 {
    let v = integer_part(t) as int;
    if starts_negative(t) {
        if v > 0x8000_0000_0000_0000 {
            i64::MIN
        } else {
            (-v) as i64
        }
    } else if v > i64::MAX {
        i64::MAX
    } else {
        v as i64
    }
}

/// A numeral truncated toward zero, saturated at the bounds of `u64`.
pub open spec fn truncate_u64_spec(t: Seq<char>) -> u64 {
    let v = integer_part(t);
    if starts_negative(t) {
        0
    } else if v > u64::MAX {
        u64::MAX
    } else {
        v as u64
    }
}

/// The numeral that holds an integer as a floating-point value.
pub open spec fn int_float_text(n: int) -> Seq<char> {
    dec_int(n).add(seq!['.', '0'])
}

/// A run of digits ends at the first character that is no digit.
pub proof fn lemma_digit_run(b: Seq<char>, k: int)
    requires
        0 <= k <= b.len(),
        all_digits(b.subrange(0, k)),
        k == b.len() || !is_digit(b[k]),
    ensures
        digit_run(b) == k,
    decreases k,
{
    if k > 0 {
        assert(is_digit(b.subrange(0, k)[0]));
        let t = b.drop_first();
        assert forall|i: int| 0 <= i < k - 1 implies is_digit(#[trigger] t.subrange(0, k - 1)[i]) by {
            assert(b.subrange(0, k)[i + 1] == t.subrange(0, k - 1)[i]);
        }
        if k < b.len() {
            assert(t[k - 1] == b[k]);
        }
        lemma_digit_run(t, k - 1);
    }
}

/// The value of a digit run grows by one digit at a time.
pub proof fn lemma_digits_value_step(s: Seq<char>, a: int, i: int)
    requires
        0 <= a <= i < s.len(),
    ensures
        digits_value(s.subrange(a, i + 1)) == digits_value(s.subrange(a, i)) * 10
            + digit_value(s[i]),
{
    assert(s.subrange(a, i + 1).drop_last() =~= s.subrange(a, i));
}

fn digit(d: u64) -> (c: char)
    requires
        d < 10,
    ensures
        c == digit_char(d as nat),
{
    ((d as u8) + 48u8) as char
}

/// Appends the decimal numeral of `n`.
fn push_dec(n: u64, out: &mut Vec<char>)
    ensures
        final(out)@ == old(out)@ + dec(n as nat),
    decreases n,
{
    if n >= 10 {
        push_dec(n / 10, out);
    }
    let c = digit(n % 10);
    out.push(c);
    assert(final(out)@ =~= old(out)@ + dec(n as nat));
}

/// The decimal numeral of an unsigned integer.
pub fn u64_text(n: u64) -> (r: Vec<char>)
    ensures
        r@ == dec(n as nat),
{
    let mut out: Vec<char> = Vec::new();
    push_dec(n, &mut out);
    assert(out@ =~= dec(n as nat));
    out
}

/// The decimal numeral of a signed integer.
pub fn i64_text(n: i64) -> (r: Vec<char>)
    ensures
        r@ == dec_int(n as int),
{
    let mut out: Vec<char> = Vec::new();
    if n < 0 {
        out.push('-');
        let m: u64 = (-(n as i128)) as u64;
        push_dec(m, &mut out);
    } else {
        push_dec(n as u64, &mut out);
    }
    assert(out@ =~= dec_int(n as int));
    out
}

/// Scans the digits of `s` from `start`: where the run ends, and its value,
/// capped at 2^100.
fn scan_digits(s: &Vec<char>, start: usize) -> (r: (usize, u128))
    requires
        start <= s.len(),
    ensures
        r.0 == start + digit_run(s@.subrange(start as int, s.len() as int)),
        r.0 <= s.len(),
        all_digits(s@.subrange(start as int, r.0 as int)),
        r.1 == if digits_value(s@.subrange(start as int, r.0 as int)) < 0x10_0000_0000_0000_0000_0000_0000 {
            digits_value(s@.subrange(start as int, r.0 as int))
        } else {
            0x10_0000_0000_0000_0000_0000_0000
        },
{
    let mut i: usize = start;
    let mut acc: u128 = 0;
    assert(s@.subrange(start as int, start as int) =~= Seq::<char>::empty());
    while i < s.len() && '0' <= s[i] && s[i] <= '9'
        invariant
            start <= i <= s.len(),
            all_digits(s@.subrange(start as int, i as int)),
            acc == if digits_value(s@.subrange(start as int, i as int)) < 0x10_0000_0000_0000_0000_0000_0000 {
                digits_value(s@.subrange(start as int, i as int))
            } else {
                0x10_0000_0000_0000_0000_0000_0000
            },
        decreases s.len() - i,
    {
        let c = s[i];
        let d = (c as u32 - '0' as u32) as u128;
        proof {
            lemma_digits_value_step(s@, start as int, i as int);
            assert(d == digit_value(c));
        }
        if acc < 0x10_0000_0000_0000_0000_0000_0000 {
            let next = acc * 10 + d;
            acc = if next < 0x10_0000_0000_0000_0000_0000_0000 { next } else { 0x10_0000_0000_0000_0000_0000_0000 };
        }
        proof {
            assert forall|j: int| 0 <= j < i + 1 - start implies is_digit(
                #[trigger] s@.subrange(start as int, i + 1)[j],
            ) by {
                if j < i - start {
                    assert(s@.subrange(start as int, i + 1)[j] == s@.subrange(start as int, i as int)[j]);
                }
            }
        }
        i = i + 1;
    }
    proof {
        let b = s@.subrange(start as int, s.len() as int);
        assert(b.subrange(0, i - start) =~= s@.subrange(start as int, i as int));
        if i < s.len() {
            assert(b[i - start] == s@[i as int]);
        }
        lemma_digit_run(b, i - start);
    }
    (i, acc)
}

/// Where the unsigned part of `s` starts.
fn sign_len(s: &Vec<char>) -> (r: usize)
    ensures
        r <= s.len(),
        unsigned_part(s@) == s@.subrange(r as int, s.len() as int),
{
    if s.len() > 0 && (s[0] == '+' || s[0] == '-') {
        assert(s@.drop_first() =~= s@.subrange(1, s.len() as int));
        1
    } else {
        assert(s@ =~= s@.subrange(0, s.len() as int));
        0
    }
}

fn is_negative(s: &Vec<char>) -> (r: bool)
    ensures
        r == starts_negative(s@),
{
    s.len() > 0 && s[0] == '-'
}

proof fn lemma_lead_zeros(d: Seq<char>, k: int)
    requires
        0 <= k <= d.len(),
        forall|i: int| 0 <= i < k ==> d[i] == '0',
        k == d.len() || d[k] != '0',
    ensures
        lead_zeros(d) == k,
    decreases k,
{
    if k > 0 {
        let t = d.drop_first();
        assert forall|i: int| 0 <= i < k - 1 implies t[i] == '0' by {
            assert(t[i] == d[i + 1]);
        }
        if k < d.len() {
            assert(t[k - 1] == d[k]);
        }
        lemma_lead_zeros(t, k - 1);
    }
}

proof fn lemma_trail_zeros(d: Seq<char>, k: int)
    requires
        0 <= k <= d.len(),
        forall|i: int| d.len() - k <= i < d.len() ==> d[i] == '0',
        k == d.len() || d[d.len() - k - 1] != '0',
    ensures
        trail_zeros(d) == k,
    decreases k,
{
    if k > 0 {
        let t = d.drop_last();
        assert forall|i: int| t.len() - (k - 1) <= i < t.len() implies t[i] == '0' by {
            assert(t[i] == d[i]);
        }
        if k < d.len() {
            assert(t[t.len() - (k - 1) - 1] == d[d.len() - k - 1]);
        }
        lemma_trail_zeros(t, k - 1);
    }
}

/// A sequence of digits is one whole run.
proof fn lemma_all_digits_run(b: Seq<char>)
    requires
        all_digits(b),
    ensures
        digit_run(b) == b.len(),
{
    assert(b.subrange(0, b.len() as int) =~= b);
    lemma_digit_run(b, b.len() as int);
}

/// Reads a string as an unsigned 64-bit integer.
pub fn parse_u64(s: &Vec<char>) -> (r: Option<u64>)
    ensures
        r == parse_u64_spec(s@),
{
    let start = sign_len(s);
    let ghost body = s@.subrange(start as int, s.len() as int);
    let (end, v) = scan_digits(s, start);
    proof {
        if all_digits(body) {
            lemma_all_digits_run(body);
        }
    }
    if is_negative(s) || end == start || end < s.len() || v > 0xffff_ffff_ffff_ffff {
        None
    } else {
        assert(body =~= s@.subrange(start as int, end as int));
        Some(v as u64)
    }
}

/// Reads a string as a signed 64-bit integer.
pub fn parse_i64(s: &Vec<char>) -> (r: Option<i64>)
    ensures
        r == parse_i64_spec(s@),
{
    let start = sign_len(s);
    let neg = is_negative(s);
    let ghost body = s@.subrange(start as int, s.len() as int);
    let (end, v) = scan_digits(s, start);
    proof {
        if all_digits(body) {
            lemma_all_digits_run(body);
        }
    }
    if end == start || end < s.len() {
        return None;
    }
    assert(body =~= s@.subrange(start as int, end as int));
    if neg {
        if v > 0x8000_0000_0000_0000 {
            None
        } else {
            Some((-(v as i128)) as i64)
        }
    } else if v > 0x7fff_ffff_ffff_ffff {
        None
    } else {
        Some(v as i64)
    }
}

/// The numeral for the digits `d` with the point after `p0` of them,
/// built as `numeral_spec` states.
fn numeral(d: &Vec<char>, p0: i128) -> (r: Option<Vec<char>>)
    requires
        -0x40_0000_0000_0000_0000_0000_0000 < p0 < 0x40_0000_0000_0000_0000_0000_0000,
    ensures
        match numeral_spec(d@, p0 as int) {
            Some(t) => r is Some && r->0@ == t,
            None => r is None,
        },
{
    let mut z: usize = 0;
    while z < d.len() && d[z] == '0'
        invariant
            z <= d.len(),
            forall|i: int| 0 <= i < z ==> d@[i] == '0',
        decreases d.len() - z,
    {
        z = z + 1;
    }
    proof {
        lemma_lead_zeros(d@, z as int);
    }
    if z == d.len() {
        let out = vec!['0', '.', '0'];
        assert(out@ =~= seq!['0', '.', '0']);
        return Some(out);
    }
    let ghost d1 = d@.subrange(z as int, d.len() as int);
    let mut e: usize = d.len();
    while e > z && d[e - 1] == '0'
        invariant
            z < d.len(),
            z < e <= d.len(),
            d@[z as int] != '0',
            forall|i: int| e <= i < d.len() ==> d@[i] == '0',
        decreases e,
    {
        e = e - 1;
    }
    proof {
        assert(d@[z as int] != '0');
        assert(e > z);
        lemma_trail_zeros(d1, (d.len() - e) as int);
    }
    let ghost d2 = d1.subrange(0, (e - z) as int);
    assert(d2 =~= d@.subrange(z as int, e as int));
    let p: i128 = p0 - z as i128;
    if p > 309 {
        return None;
    }
    if p <= -324 {
        let out = vec!['0', '.', '0'];
        assert(out@ =~= seq!['0', '.', '0']);
        return Some(out);
    }
    let mut out: Vec<char> = Vec::new();
    if p <= 0 {
        out.push('0');
        out.push('.');
        let np: i128 = -p;
        let mut k: i128 = 0;
        while k < np
            invariant
                0 <= k <= np,
                out@ == seq!['0', '.'] + zeros(k as nat),
            decreases np - k,
        {
            out.push('0');
            assert(zeros((k + 1) as nat) =~= zeros(k as nat).push('0'));
            k = k + 1;
        }
        let ghost base = out@;
        let mut i: usize = z;
        while i < e
            invariant
                z <= i <= e,
                e <= d.len(),
                out@ == base + d@.subrange(z as int, i as int),
            decreases e - i,
        {
            out.push(d[i]);
            assert(d@.subrange(z as int, i + 1) =~= d@.subrange(z as int, i as int).push(d@[i as int]));
            i = i + 1;
        }
        assert(out@ =~= seq!['0', '.'] + zeros((-p) as nat) + d2);
    } else if p >= (e - z) as i128 {
        let mut i: usize = z;
        while i < e
            invariant
                z <= i <= e,
                e <= d.len(),
                out@ == d@.subrange(z as int, i as int),
            decreases e - i,
        {
            out.push(d[i]);
            assert(d@.subrange(z as int, i + 1) =~= d@.subrange(z as int, i as int).push(d@[i as int]));
            i = i + 1;
        }
        let ghost base = out@;
        let extra: i128 = p - (e - z) as i128;
        let mut k: i128 = 0;
        while k < extra
            invariant
                0 <= k <= extra,
                out@ == base + zeros(k as nat),
            decreases extra - k,
        {
            out.push('0');
            assert(zeros((k + 1) as nat) =~= zeros(k as nat).push('0'));
            k = k + 1;
        }
        out.push('.');
        out.push('0');
        assert(out@ =~= d2 + zeros((p - d2.len()) as nat) + seq!['.', '0']);
    } else {
        let cut: usize = z + p as usize;
        let mut i: usize = z;
        while i < e
            invariant
                z <= i <= e,
                z < cut < e,
                e <= d.len(),
                i <= cut ==> out@ == d@.subrange(z as int, i as int),
                i > cut ==> out@ == d@.subrange(z as int, cut as int) + seq!['.'] + d@.subrange(
                    cut as int,
                    i as int,
                ),
            decreases e - i,
        {
            if i == cut {
                out.push('.');
                assert(d@.subrange(cut as int, cut as int) =~= Seq::<char>::empty());
            }
            out.push(d[i]);
            proof {
                if i < cut {
                    assert(d@.subrange(z as int, i + 1) =~= d@.subrange(z as int, i as int).push(d@[i as int]));
                } else {
                    assert(d@.subrange(cut as int, i + 1) =~= d@.subrange(cut as int, i as int).push(d@[i as int]));
                }
            }
            i = i + 1;
        }
        assert(out@ =~= d2.subrange(0, p as int) + seq!['.'] + d2.subrange(p as int, d2.len() as int));
    }
    Some(out)
}

/// Where the point lies far enough out, the numeral does not depend on how
/// far.
proof fn lemma_numeral_far(d: Seq<char>, p: int, q: int)
    requires
        d.len() <= 0x1_0000_0000_0000_0000,
        p == q || (p >= 0x8_0000_0000_0000_0000_0000_0000 && q >= 0x8_0000_0000_0000_0000_0000_0000)
            || (p <= -0x8_0000_0000_0000_0000_0000_0000 && q <= -0x8_0000_0000_0000_0000_0000_0000),
    ensures
        numeral_spec(d, p) == numeral_spec(d, q),
{
    lemma_lead_zeros_len(d);
}

proof fn lemma_lead_zeros_len(d: Seq<char>)
    ensures
        lead_zeros(d) <= d.len(),
    decreases d.len(),
{
    if d.len() > 0 && d[0] == '0' {
        lemma_lead_zeros_len(d.drop_first());
    }
}

/// The positions and exponent of a float's parts, when `s` has its form.
fn float_parts(s: &Vec<char>) -> (r: Option<(usize, usize, usize, usize, i128)>)
    ensures
        r is Some <==> float_form(s@),
        r matches Some(t) ==> t.0 == sign_end(s@) && t.1 == int_end(s@) && t.2 == frac_start(s@)
            && t.3 == frac_end(s@) && t.3 <= s.len() && -0x10_0000_0000_0000_0000_0000_0000 <= t.4
            <= 0x10_0000_0000_0000_0000_0000_0000 && (t.4 == exponent(s@) || (exponent(s@)
            >= 0x10_0000_0000_0000_0000_0000_0000 && t.4 == 0x10_0000_0000_0000_0000_0000_0000) || (
        exponent(s@) <= -0x10_0000_0000_0000_0000_0000_0000 && t.4
            == -0x10_0000_0000_0000_0000_0000_0000)),
{
    let st: usize = if s.len() > 0 && (s[0] == '+' || s[0] == '-') { 1 } else { 0 };
    let (i1, _a) = scan_digits(s, st);
    let j: usize = if i1 < s.len() && s[i1] == '.' { i1 + 1 } else { i1 };
    let (i2, _b) = scan_digits(s, j);
    if i1 == st && i2 == j {
        return None;
    }
    if i2 == s.len() {
        return Some((st, i1, j, i2, 0));
    }
    let e0: usize = i2 + 1;
    let e1: usize = if e0 < s.len() && (s[e0] == '+' || s[e0] == '-') { e0 + 1 } else { e0 };
    if s[i2] != 'e' && s[i2] != 'E' {
        return None;
    }
    let (i3, v) = scan_digits(s, e1);
    if i3 == e1 || i3 < s.len() {
        return None;
    }
    let ev: i128 = if e0 < s.len() && s[e0] == '-' { -(v as i128) } else { v as i128 };
    Some((st, i1, j, i2, ev))
}

/// Reads a string as a floating-point number, and gives the numeral that a
/// value holds for it.
pub fn parse_float_text(s: &Vec<char>) -> (r: Option<Vec<char>>)
    ensures
        match float_text(s@) {
            Some(t) => r is Some && r->0@ == t,
            None => r is None,
        },
{
    let (st, i1, j, i2, ev) = match float_parts(s) {
        None => {
            return None;
        },
        Some(t) => t,
    };
    let mut d: Vec<char> = Vec::new();
    let mut i: usize = st;
    while i < i1
        invariant
            st <= i <= i1,
            i1 <= j <= i2 <= s.len(),
            d@ == s@.subrange(st as int, i as int),
        decreases i1 - i,
    {
        d.push(s[i]);
        assert(s@.subrange(st as int, i + 1) =~= s@.subrange(st as int, i as int).push(s@[i as int]));
        i = i + 1;
    }
    let mut i: usize = j;
    while i < i2
        invariant
            j <= i <= i2,
            i2 <= s.len(),
            d@ == s@.subrange(st as int, i1 as int) + s@.subrange(j as int, i as int),
        decreases i2 - i,
    {
        d.push(s[i]);
        assert(s@.subrange(j as int, i + 1) =~= s@.subrange(j as int, i as int).push(s@[i as int]));
        i = i + 1;
    }
    assert(d@ == float_digits(s@));
    let p0: i128 = (i1 - st) as i128 + ev;
    proof {
        lemma_numeral_far(d@, p0 as int, (int_end(s@) - sign_end(s@)) + exponent(s@));
    }
    match numeral(&d, p0) {
        None => None,
        Some(n) => {
            if is_negative(s) {
                let mut out = vec!['-'];
                let mut n = n;
                let ghost nv = n@;
                out.append(&mut n);
                assert(out@ =~= seq!['-'] + nv);
                Some(out)
            } else {
                Some(n)
            }
        },
    }
}

/// Whether `t` has the form of a numeral.
pub fn is_numeral_text(t: &Vec<char>) -> (r: bool)
    ensures
        r == is_numeral(t@),
{
    let a: usize = if t.len() > 0 && t[0] == '-' { 1 } else { 0 };
    let (b, _v) = scan_digits(t, a);
    if b == a || b >= t.len() || t[b] != '.' {
        return false;
    }
    let (c, _w) = scan_digits(t, b + 1);
    c == t.len() && c > b + 1
}

/// The integer part of a numeral, saturated at the bounds of `i64`.
pub fn truncate_i64(t: &Vec<char>) -> (r: i64)
    ensures
        r == truncate_i64_spec(t@),
{
    let start = sign_len(t);
    let (end, v) = scan_digits(t, start);
    assert(unsigned_part(t@).subrange(0, (end - start) as int) =~= t@.subrange(
        start as int,
        end as int,
    ));
    if is_negative(t) {
        if v > 0x8000_0000_0000_0000 {
            i64::MIN
        } else {
            (-(v as i128)) as i64
        }
    } else if v > 0x7fff_ffff_ffff_ffff {
        i64::MAX
    } else {
        v as i64
    }
}

/// The integer part of a numeral, saturated at the bounds of `u64`.
pub fn truncate_u64(t: &Vec<char>) -> (r: u64)
    ensures
        r == truncate_u64_spec(t@),
{
    let start = sign_len(t);
    let (end, v) = scan_digits(t, start);
    assert(unsigned_part(t@).subrange(0, (end - start) as int) =~= t@.subrange(
        start as int,
        end as int,
    ));
    if is_negative(t) {
        0
    } else if v > 0xffff_ffff_ffff_ffff {
        u64::MAX
    } else {
        v as u64
    }
}

} // verus!
