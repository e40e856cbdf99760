//! The integer builtins of the compiled runtime: `bin`, `oct` and `hex`,
//! integer powers and floor division, `divmod` on integers, `chr` and `ord`.
//! A runtime value is a 64-bit payload read according to its kind; the
//! failures are the runtime errors the builtins report.

use vstd::prelude::*;
use vstd::arithmetic::power::pow;
use vstd::wrapping::i64_specs::signed_crop;
use crate::error::{runtime, format_error_spec, ErrorKind};
use crate::text::{chars_of, append_str, string_from_chars};
use crate::json::{char_from_u32, is_scalar};

verus! {

/// How a runtime value's 64-bit payload is read.
#[derive(Clone, Copy, Debug, PartialEq, Eq, Structural)]
pub enum PayloadKind {
    I64,
    U64,
    F64,
    Str,
    Bool,
    NoneValue,
    List,
    Dict,
    Struct,
    File,
}

impl PayloadKind {
    /// Whether the payload is read as an integer (`bool` counts as one).
    pub open spec fn is_integer_spec(self) -> bool {
        self == PayloadKind::I64 || self == PayloadKind::U64 || self == PayloadKind::Bool
    }

    /// Whether the payload is a number (`bool` counts as one).
    pub fn is_numeric(self) -> (r: bool)
        ensures
            r == (self.is_integer_spec() || self == PayloadKind::F64),
    {
        match self {
            PayloadKind::I64 | PayloadKind::U64 | PayloadKind::F64 | PayloadKind::Bool => true,
            _ => false,
        }
    }
}

/// The indentation `json.dumps` uses for its `indent` argument: a positive
/// integer as given, anything else none.
pub fn indent_arg(payload: i64, kind: PayloadKind) -> (r: usize)
    ensures
        r as int == (if kind == PayloadKind::I64 && payload > 0 { payload as usize as int } else { 0 }),
{
    if kind == PayloadKind::I64 && payload > 0 {
        payload as usize
    } else {
        0
    }
}

// ---------------------------------------------------------------------------
// bin, oct, hex

/// The digit for `d` in bases up to sixteen, lower-case past nine.
pub open spec fn radix_digit(d: nat) -> char {
    if d == 0 { '0' }
    else if d == 1 { '1' }
    else if d == 2 { '2' }
    else if d == 3 { '3' }
    else if d == 4 { '4' }
    else if d == 5 { '5' }
    else if d == 6 { '6' }
    else if d == 7 { '7' }
    else if d == 8 { '8' }
    else if d == 9 { '9' }
    else if d == 10 { 'a' }
    else if d == 11 { 'b' }
    else if d == 12 { 'c' }
    else if d == 13 { 'd' }
    else if d == 14 { 'e' }
    else { 'f' }
}

/// The shortest rendering of `n` in base `radix` (at least two).
pub open spec fn radix_text(n: nat, radix: nat) -> Seq<char>
    decreases n,
{
    if radix < 2 || n < radix {
        seq![radix_digit(n)]
    } else {
        proof {
            vstd::arithmetic::div_mod::lemma_div_decreases(n as int, radix as int);
        }
        radix_text(n / radix, radix).push(radix_digit(n % radix))
    }
}

/// The two-character prefix that marks a base.
pub open spec fn radix_prefix(radix: nat) -> Seq<char> {
    if radix == 2 { "0b"@ } else if radix == 8 { "0o"@ } else { "0x"@ }
}

/// What `name(x)` gives for a payload of `kind` in base `radix`, written
/// after `prefix`: unsigned payloads by their 64 bits, negative ones as
/// `-`, the prefix and the digits of their magnitude.
pub open spec fn format_radix_spec(payload: i64, kind: PayloadKind, line: u32, name: Seq<char>, prefix: Seq<char>, radix: nat) -> Result<Seq<char>, Seq<char>> {
    if !kind.is_integer_spec() {
        Err(format_error_spec(ErrorKind::Runtime, line, name + "() expected an integer"@))
    } else if kind == PayloadKind::U64 {
        Ok(radix_prefix(radix) + radix_text(payload as u64 as nat, radix))
    } else if payload < 0 {
        Ok(seq!['-'] + prefix + radix_text((-payload) as nat, radix))
    } else {
        Ok(prefix + radix_text(payload as nat, radix))
    }
}

fn radix_digit_of(d: u64) -> (c: char)
    requires
        d < 16,
    ensures
        c == radix_digit(d as nat),
{
    if d == 0 { '0' }
    else if d == 1 { '1' }
    else if d == 2 { '2' }
    else if d == 3 { '3' }
    else if d == 4 { '4' }
    else if d == 5 { '5' }
    else if d == 6 { '6' }
    else if d == 7 { '7' }
    else if d == 8 { '8' }
    else if d == 9 { '9' }
    else if d == 10 { 'a' }
    else if d == 11 { 'b' }
    else if d == 12 { 'c' }
    else if d == 13 { 'd' }
    else if d == 14 { 'e' }
    else { 'f' }
}

/// The digits of `n` in base `radix`.
fn radix_chars(n: u64, radix: u64) -> (r: Vec<char>)
    requires
        2 <= radix <= 16,
    ensures
        r@ == radix_text(n as nat, radix as nat),
    decreases n,
{
    if n < radix {
        let mut v: Vec<char> = Vec::new();
        v.push(radix_digit_of(n));
        v
    } else {
        proof {
            vstd::arithmetic::div_mod::lemma_div_decreases(n as int, radix as int);
        }
        let mut v = radix_chars(n / radix, radix);
        v.push(radix_digit_of(n % radix));
        v
    }
}

/// Formats an integer payload in base 2, 8 or 16 as the builtin `name`
/// does, or reports that the value is not an integer.
pub fn format_radix(payload: i64, kind: PayloadKind, line: u32, name: &str, prefix: &str, radix: u32) -> (r: Result<String, String>)
    requires
        radix == 2 || radix == 8 || radix == 16,
    ensures
        match r {
            Ok(s) => format_radix_spec(payload, kind, line, name@, prefix@, radix as nat) == Ok::<Seq<char>, Seq<char>>(s@),
            Err(e) => format_radix_spec(payload, kind, line, name@, prefix@, radix as nat) == Err::<Seq<char>, Seq<char>>(e@),
        },
{
    if kind != PayloadKind::I64 && kind != PayloadKind::U64 && kind != PayloadKind::Bool {
        let mut msg = chars_of(name);
        append_str(&mut msg, "() expected an integer");
        let text = string_from_chars(msg);
        return Err(runtime(line, text.as_str()));
    }
    let mut out: Vec<char> = Vec::new();
    if kind == PayloadKind::U64 {
        out.push('0');
        if radix == 2 {
            out.push('b');
        } else if radix == 8 {
            out.push('o');
        } else {
            out.push('x');
        }
        proof {
            reveal_strlit("0b");
            reveal_strlit("0o");
            reveal_strlit("0x");
        }
        let digits = radix_chars(payload as u64, radix as u64);
        let ghost head = out@;
        crate::text::append_chars(&mut out, &digits);
        proof {
            assert(head =~= radix_prefix(radix as nat));
        }
        return Ok(string_from_chars(out));
    }
    if payload < 0 {
        let mag: u64 = if payload == i64::MIN {
            9223372036854775808u64
        } else {
            (-payload) as u64
        };
        out.push('-');
        append_str(&mut out, prefix);
        let digits = radix_chars(mag, radix as u64);
        crate::text::append_chars(&mut out, &digits);
        Ok(string_from_chars(out))
    } else {
        append_str(&mut out, prefix);
        let digits = radix_chars(payload as u64, radix as u64);
        crate::text::append_chars(&mut out, &digits);
        Ok(string_from_chars(out))
    }
}

/// `bin(x)`: the binary form of an integer, `0b` first.
pub fn hyper_rt_builtin_bin(payload: i64, kind: PayloadKind, line: u32) -> (r: Result<String, String>)
    ensures
        match r {
            Ok(s) => format_radix_spec(payload, kind, line, "bin"@, "0b"@, 2) == Ok::<Seq<char>, Seq<char>>(s@),
            Err(e) => format_radix_spec(payload, kind, line, "bin"@, "0b"@, 2) == Err::<Seq<char>, Seq<char>>(e@),
        },
{
    format_radix(payload, kind, line, "bin", "0b", 2)
}

/// `oct(x)`: the octal form of an integer, `0o` first.
pub fn hyper_rt_builtin_oct(payload: i64, kind: PayloadKind, line: u32) -> (r: Result<String, String>)
    ensures
        match r {
            Ok(s) => format_radix_spec(payload, kind, line, "oct"@, "0o"@, 8) == Ok::<Seq<char>, Seq<char>>(s@),
            Err(e) => format_radix_spec(payload, kind, line, "oct"@, "0o"@, 8) == Err::<Seq<char>, Seq<char>>(e@),
        },
{
    format_radix(payload, kind, line, "oct", "0o", 8)
}

/// `hex(x)`: the hexadecimal form of an integer, `0x` first, lower case.
pub fn hyper_rt_builtin_hex(payload: i64, kind: PayloadKind, line: u32) -> (r: Result<String, String>)
    ensures
        match r {
            Ok(s) => format_radix_spec(payload, kind, line, "hex"@, "0x"@, 16) == Ok::<Seq<char>, Seq<char>>(s@),
            Err(e) => format_radix_spec(payload, kind, line, "hex"@, "0x"@, 16) == Err::<Seq<char>, Seq<char>>(e@),
        },
{
    format_radix(payload, kind, line, "hex", "0x", 16)
}

// ---------------------------------------------------------------------------
// Integer powers and division

/// The number of 64-bit words: two's complement arithmetic works modulo it.
pub open spec fn word() -> int {
    0x1_0000_0000_0000_0000
}

/// `base` to the power `exp` in 64-bit two's complement arithmetic (wrapping
/// on overflow), and `0` for a negative exponent.
pub open spec fn pow_i64_spec(base: i64, exp: i64) -> i64 {
    if exp < 0 {
        0
    } else {
        signed_crop(pow(base as int, exp as nat))
    }
}

proof fn lemma_crop_mod(x: int)
    ensures
        signed_crop(x) as int % word() == x % word(),
{
    let r = x % word();
    assert(0 <= r < word());
    if r > i64::MAX {
        assert(signed_crop(x) as int == r - word());
        vstd::arithmetic::div_mod::lemma_mod_multiples_vanish(-1, r, word());
        vstd::arithmetic::div_mod::lemma_small_mod(r as nat, word() as nat);
    } else {
        assert(signed_crop(x) as int == r);
        vstd::arithmetic::div_mod::lemma_small_mod(r as nat, word() as nat);
    }
}

proof fn lemma_crop_i64(v: i64)
    ensures
        signed_crop(v as int) == v,
{
    let x = v as int;
    if x >= 0 {
        vstd::arithmetic::div_mod::lemma_small_mod(x as nat, word() as nat);
    } else {
        vstd::arithmetic::div_mod::lemma_mod_multiples_vanish(1, x, word());
        vstd::arithmetic::div_mod::lemma_small_mod((word() + x) as nat, word() as nat);
        assert(x % word() == word() + x);
    }
}

/// One step of exponentiation by squaring keeps the product of the
/// accumulator and the remaining power, modulo a word.
proof fn lemma_square_step(r: int, b: int, e: nat, r1: int, b1: int)
    requires
        e > 0,
        r1 % word() == (if e % 2 == 1 { (r * b) % word() } else { r % word() }),
        b1 % word() == (b * b) % word(),
    ensures
        (r1 * pow(b1, e / 2)) % word() == (r * pow(b, e)) % word(),
{
    let m = word();
    let h = e / 2;
    vstd::arithmetic::power::lemma_pow_mod_noop(b1, h, m);
    vstd::arithmetic::power::lemma_pow_mod_noop(b * b, h, m);
    vstd::arithmetic::power::lemma_square_is_pow2(b);
    vstd::arithmetic::power::lemma_pow_multiplies(b, 2, h);
    assert(pow(b1, h) % m == pow(b, 2 * h) % m);
    vstd::arithmetic::div_mod::lemma_mul_mod_noop(r1, pow(b1, h), m);
    if e % 2 == 1 {
        assert(e == 2 * h + 1);
        vstd::arithmetic::power::lemma_pow_adds(b, 2 * h, 1);
        vstd::arithmetic::power::lemma_pow1(b);
        vstd::arithmetic::div_mod::lemma_mul_mod_noop(r * b, pow(b, 2 * h), m);
        assert((r * b) * pow(b, 2 * h) == r * (pow(b, 2 * h) * b)) by (nonlinear_arith);
    } else {
        assert(e == 2 * h);
        vstd::arithmetic::div_mod::lemma_mul_mod_noop(r, pow(b, 2 * h), m);
    }
}

/// `base ** exp` on 64-bit integers by repeated squaring, wrapping on
/// overflow; a negative exponent gives `0`.
pub fn hyper_rt_pow_i64(base: i64, exp: i64) -> (r: i64)
    ensures
        r == pow_i64_spec(base, exp),
{
    if exp < 0 {
        return 0;
    }
    let mut result: i64 = 1;
    let mut b: i64 = base;
    let mut e: u64 = exp as u64;
    proof {
        vstd::arithmetic::power::lemma_pow1(1);
        assert(1 * pow(base as int, exp as nat) == pow(base as int, exp as nat));
    }
    while e > 0
        invariant
            0 <= exp,
            (result * pow(b as int, e as nat)) % word() == pow(base as int, exp as nat) % word(),
        decreases e,
    {
        let ghost (r0, b0, e0) = (result as int, b as int, e as nat);
        let odd = e & 1 == 1;
        assert(e & 1 == e % 2) by (bit_vector);
        if odd {
            result = result.wrapping_mul(b);
        }
        b = b.wrapping_mul(b);
        assert(e >> 1 == e / 2) by (bit_vector);
        e = e >> 1;
        proof {
            lemma_crop_mod(r0 * b0);
            lemma_crop_mod(b0 * b0);
            lemma_square_step(r0, b0, e0, result as int, b as int);
        }
    }
    proof {
        vstd::arithmetic::power::lemma_pow0(b as int);
        lemma_crop_i64(result);
        lemma_crop_mod(pow(base as int, exp as nat));
        assert(result as int % word() == pow(base as int, exp as nat) % word());
        assert(signed_crop(result as int) == signed_crop(pow(base as int, exp as nat)));
    }
    result
}

proof fn lemma_quotient_fits(a: i64, b: i64)
    requires
        b != 0,
        !(a == i64::MIN && b == -1),
    ensures
        i64::MIN <= a as int / b as int <= i64::MAX,
{
    let x = a as int;
    let d = b as int;
    let q = x / d;
    let r = x % d;
    vstd::arithmetic::div_mod::lemma_fundamental_div_mod(x, d);
    assert(0 <= r < (if d > 0 { d } else { -d })) by {
        if d > 0 {
            vstd::arithmetic::div_mod::lemma_mod_bound(x, d);
        }
    }
    if d > 0 {
        assert(i64::MIN <= q <= i64::MAX) by (nonlinear_arith)
            requires
                x == d * q + r,
                0 <= r < d,
                i64::MIN <= x <= i64::MAX,
                d >= 1;
    } else if d == -1 {
        assert(r == 0);
        assert(q == -x);
    } else {
        assert(i64::MIN <= q <= i64::MAX) by (nonlinear_arith)
            requires
                x == d * q + r,
                0 <= r < -d,
                i64::MIN <= x <= i64::MAX,
                d <= -2;
    }
}

/// The floor of `a / b` (Python's `a // b`), from the quotient that keeps
/// the remainder non-negative: one less when `b` is negative and does not
/// divide `a`.
pub open spec fn floor_div(a: int, b: int) -> int {
    if b < 0 && a % b != 0 { a / b - 1 } else { a / b }
}

/// What `a % b` leaves beside `a // b`: `a - (a // b) * b`, which has the
/// sign of `b`.
pub open spec fn floor_mod(a: int, b: int) -> int {
    if b < 0 && a % b != 0 { a % b + b } else { a % b }
}

proof fn lemma_floor_div(a: i64, b: i64)
    requires
        b != 0,
        !(a == i64::MIN && b == -1),
    ensures
        i64::MIN <= floor_div(a as int, b as int) <= i64::MAX,
        i64::MIN <= floor_mod(a as int, b as int) <= i64::MAX,
        floor_div(a as int, b as int) * b + floor_mod(a as int, b as int) == a,
        b > 0 ==> 0 <= floor_mod(a as int, b as int) < b,
        b < 0 ==> b < floor_mod(a as int, b as int) <= 0,
{
    let x = a as int;
    let d = b as int;
    let q = x / d;
    let r = x % d;
    lemma_quotient_fits(a, b);
    vstd::arithmetic::div_mod::lemma_fundamental_div_mod(x, d);
    assert(0 <= r < (if d > 0 { d } else { -d }));
    assert(q * d == d * q) by (nonlinear_arith);
    if d < 0 && r != 0 {
        assert(d <= -2);
        assert(i64::MIN < q) by (nonlinear_arith)
            requires
                x == d * q + r,
                0 < r < -d,
                i64::MIN <= x <= i64::MAX,
                d <= -2;
        assert((q - 1) * d == q * d - d) by (nonlinear_arith);
    }
}

/// `a // b` on 64-bit integers: the floor of the quotient.
pub fn hyper_rt_floor_div_i64(a: i64, b: i64) -> (q: i64)
    requires
        b != 0,
        !(a == i64::MIN && b == -1),
    ensures
        q == floor_div(a as int, b as int),
{
    proof {
        lemma_floor_div(a, b);
        lemma_quotient_fits(a, b);
        vstd::arithmetic::div_mod::lemma_fundamental_div_mod(a as int, b as int);
    }
    let e = match a.checked_div_euclid(b) {
        Some(q) => q,
        None => 0,
    };
    let r = match a.checked_rem_euclid(b) {
        Some(m) => m,
        None => 0,
    };
    if b < 0 && r != 0 {
        e - 1
    } else {
        e
    }
}

/// The pair `divmod(a, b)` gives on integers: `a // b` and `a - (a // b) * b`.
pub open spec fn divmod_spec(a: i64, b: i64, line: u32) -> Result<(int, int), Seq<char>> {
    if b == 0 {
        Err(format_error_spec(ErrorKind::Runtime, line, "division by zero"@))
    } else {
        Ok((floor_div(a as int, b as int), floor_mod(a as int, b as int)))
    }
}

/// `divmod(a, b)` on integers, or the division-by-zero error.
pub fn divmod_i64(a: i64, b: i64, line: u32) -> (r: Result<(i64, i64), String>)
    requires
        !(a == i64::MIN && b == -1),
    ensures
        match r {
            Ok((q, m)) => divmod_spec(a, b, line) == Ok::<(int, int), Seq<char>>((q as int, m as int)),
            Err(e) => divmod_spec(a, b, line) == Err::<(int, int), Seq<char>>(e@),
        },
        r matches Ok((q, m)) ==> q * b + m == a
            && (if b > 0 { 0 <= m < b } else { b < m <= 0 }),
{
    if b == 0 {
        return Err(runtime(line, "division by zero"));
    }
    proof {
        lemma_floor_div(a, b);
    }
    let q = hyper_rt_floor_div_i64(a, b);
    let r = match a.checked_rem_euclid(b) {
        Some(m) => m,
        None => 0,
    };
    let m = if b < 0 && r != 0 { r + b } else { r };
    Ok((q, m))
}

// ---------------------------------------------------------------------------
// chr and ord

/// What `chr(x)` gives: the character with code `x`, or why there is none.
pub open spec fn chr_spec(payload: i64, kind: PayloadKind, line: u32) -> Result<char, Seq<char>> {
    if kind != PayloadKind::I64 && kind != PayloadKind::U64 {
        Err(format_error_spec(ErrorKind::Runtime, line, "chr() expected an integer"@))
    } else if payload < 0 || payload > 0x10FFFF {
        Err(format_error_spec(ErrorKind::Runtime, line, "chr() arg not in range(0x110000)"@))
    } else if 0xD800 <= payload <= 0xDFFF {
        Err(format_error_spec(ErrorKind::Runtime, line, "chr() arg is a surrogate"@))
    } else {
        Ok(payload as char)
    }
}

/// `chr(x)`: the one-character string with code `x`.
pub fn hyper_rt_builtin_chr(payload: i64, kind: PayloadKind, line: u32) -> (r: Result<String, String>)
    ensures
        match r {
            Ok(s) => chr_spec(payload, kind, line) matches Ok(c) && s@ == seq![c],
            Err(e) => chr_spec(payload, kind, line) == Err::<char, Seq<char>>(e@),
        },
{
    if kind != PayloadKind::I64 && kind != PayloadKind::U64 {
        return Err(runtime(line, "chr() expected an integer"));
    }
    if payload < 0 || payload > 0x10FFFF {
        return Err(runtime(line, "chr() arg not in range(0x110000)"));
    }
    if 0xD800 <= payload && payload <= 0xDFFF {
        return Err(runtime(line, "chr() arg is a surrogate"));
    }
    let code: u32 = payload as u32;
    match char_from_u32(code) {
        Some(c) => {
            let mut v: Vec<char> = Vec::new();
            v.push(c);
            Ok(string_from_chars(v))
        },
        None => Err(runtime(line, "chr() arg not in range(0x110000)")),
    }
}

/// What `ord(s)` gives: the code of the single character of a string.
pub open spec fn ord_spec(kind: PayloadKind, text: Seq<char>, line: u32) -> Result<int, Seq<char>> {
    if kind != PayloadKind::Str {
        Err(format_error_spec(ErrorKind::Runtime, line, "ord() expected a string"@))
    } else if text.len() != 1 {
        Err(format_error_spec(ErrorKind::Runtime, line, "ord() expected a character string of length 1"@))
    } else {
        Ok(text[0] as int)
    }
}

/// `ord(s)`: the code of a one-character string (`text` is the string a
/// payload of kind `Str` holds).
pub fn hyper_rt_builtin_ord(kind: PayloadKind, text: &str, line: u32) -> (r: Result<i64, String>)
    ensures
        match r {
            Ok(n) => ord_spec(kind, text@, line) == Ok::<int, Seq<char>>(n as int),
            Err(e) => ord_spec(kind, text@, line) == Err::<int, Seq<char>>(e@),
        },
{
    if kind != PayloadKind::Str {
        return Err(runtime(line, "ord() expected a string"));
    }
    if text.unicode_len() != 1 {
        return Err(runtime(line, "ord() expected a character string of length 1"));
    }
    let c = text.get_char(0);
    Ok(c as u32 as i64)
}

/// `ord` undoes `chr`: for every code `chr` accepts, `ord` of the character
/// it gives is that code again.
pub proof fn lemma_ord_inverts_chr(payload: i64, kind: PayloadKind, line: u32)
    requires
        chr_spec(payload, kind, line) is Ok,
    ensures
        ord_spec(PayloadKind::Str, seq![chr_spec(payload, kind, line)->Ok_0], line)
            == Ok::<int, Seq<char>>(payload as int),
{
}

} // verus!
