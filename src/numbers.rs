use vstd::prelude::*;

verus! {

/// A cell of the interpreter: a signed 32-bit integer.
pub type Int = i32;

/// The canonical true flag (all bits set).
pub const TRUE: i32 = -1;

/// The canonical false flag.
pub const FALSE: i32 = 0;

/// The mathematical value `v` brought back into the range of `Int`.
pub open spec fn clamp(v: int) -> i32 {
    if v < i32::MIN {
        i32::MIN
    } else if v > i32::MAX {
        i32::MAX
    } else {
        v as i32
    }
}

/// Division rounding toward zero, as Rust's `/` on integers does.
pub open spec fn trunc_div(x: int, d: int) -> int {
    if x == 0 {
        0
    } else if x > 0 && d > 0 {
        x / d
    } else if x < 0 && d < 0 {
        (x * -1) / (d * -1)
    } else if x < 0 {
        ((x * -1) / d) * -1
    } else {
        (x / (d * -1)) * -1
    }
}

/// Remainder of [`trunc_div`]: it has the sign of the dividend.
pub open spec fn trunc_rem(x: int, d: int) -> int {
    x - d * trunc_div(x, d)
}

/// The flag that stands for a boolean.
pub open spec fn flag(b: bool) -> i32 {
    if b {
        -1i32
    } else {
        0i32
    }
}

/// Whether `u` is the scalar value of a `char`.
pub open spec fn is_scalar(u: int) -> bool {
    0 <= u <= 0x10FFFF && !(0xD800 <= u <= 0xDFFF)
}

/// The character that `emit` prints for a value: the one with that scalar value, or the
/// replacement character.
pub open spec fn char_of(v: i32) -> char {
    if is_scalar(v as int) {
        choose|c: char| #[trigger] (c as u32) == v as u32
    } else {
        '\u{FFFD}'
    }
}

/// Is the value true-ish.
pub fn is_true(value: Int) -> (r: bool)
    ensures
        r == (value != 0),
{
    value != FALSE
}

/// Transform `bool` to `Int`.
pub fn from_bool(value: bool) -> (r: Int)
    ensures
        r == flag(value),
{
    if value {
        TRUE
    } else {
        FALSE
    }
}

/// Relies on `char::from_u32`: it gives the character whose scalar value is `u`,
/// and `None` where `u` is above `0x10FFFF` or a surrogate.
#[verifier::external_body]
fn char_from_u32(u: u32) -> (r: Option<char>)
    ensures
        is_scalar(u as int) ==> r is Some && r->0 as u32 == u,
        !is_scalar(u as int) ==> r is None,
{
    char::from_u32(u)
}

/// Return character for the numerical code, if not possible the replacement character.
pub fn to_char(value: Int) -> (r: char)
    ensures
        r == char_of(value),
{
    if value < 0 {
        return '\u{FFFD}';
    }
    match char_from_u32(value as u32) {
        Some(c) => {
            proof {
                assert(c as u32 == value as u32);
                let d = char_of(value);
                assert(d as u32 == value as u32);
                lemma_char_code_injective(c, d);
            }
            c
        },
        None => '\u{FFFD}',
    }
}

/// Two characters with the same scalar value are the same character.
proof fn lemma_char_code_injective(a: char, b: char)
    requires
        a as u32 == b as u32,
    ensures
        a == b,
{
}

/// Transform i64 to i32 rounding the i64 values to the limits of i32.
pub fn saturating_i64_to_i32(value: i64) -> (r: i32)
    ensures
        r == clamp(value as int),
{
    if value < i32::MIN as i64 {
        i32::MIN
    } else if value > i32::MAX as i64 {
        i32::MAX
    } else {
        value as i32
    }
}

/// `a + b`, saturating at the limits of `Int`.
pub fn saturating_add(a: Int, b: Int) -> (r: Int)
    ensures
        r == clamp(a + b),
{
    match a.checked_add(b) {
        Some(v) => v,
        None => if b > 0 {
            i32::MAX
        } else {
            i32::MIN
        },
    }
}

/// `a - b`, saturating at the limits of `Int`.
pub fn saturating_sub(a: Int, b: Int) -> (r: Int)
    ensures
        r == clamp(a - b),
{
    match a.checked_sub(b) {
        Some(v) => v,
        None => if b < 0 {
            i32::MAX
        } else {
            i32::MIN
        },
    }
}

/// `a * b`, saturating at the limits of `Int`.
pub fn saturating_mul(a: Int, b: Int) -> (r: Int)
    ensures
        r == clamp(a * b),
{
    assert(-0x4000_0000_0000_0000 <= (a as int) * (b as int) <= 0x4000_0000_0000_0000)
        by (nonlinear_arith);
    let p = (a as i64) * (b as i64);
    saturating_i64_to_i32(p)
}

/// `a / b` rounded toward zero, saturating at the limits of `Int`.
pub fn saturating_div(a: Int, b: Int) -> (r: Int)
    requires
        b != 0,
    ensures
        r == clamp(trunc_div(a as int, b as int)),
{
    let q = (a as i64).checked_div(b as i64);
    proof {
        lemma_trunc_div_le(a as int, b as int);
    }
    match q {
        Some(v) => saturating_i64_to_i32(v),
        None => i32::MAX,
    }
}

/// The remainder of `a / b` rounded toward zero.
pub fn checked_rem(a: Int, b: Int) -> (r: Int)
    requires
        b != 0,
    ensures
        r == trunc_rem(a as int, b as int),
{
    let q = (a as i64).checked_rem(b as i64);
    proof {
        lemma_trunc_div_le(a as int, b as int);
        lemma_trunc_rem_bounded(a as int, b as int);
        lemma_trunc_rem_cases(a as int, b as int);
    }
    match q {
        Some(v) => v as i32,
        None => 0,
    }
}

/// A quotient rounded toward zero is no larger in size than the dividend.
pub(crate) proof fn lemma_trunc_div_le(x: int, d: int)
    requires
        d != 0,
    ensures
        -(if x < 0 { -x } else { x }) <= trunc_div(x, d) <= (if x < 0 { -x } else { x }),
{
    if x > 0 && d > 0 {
        lemma_div_le(x, d);
    } else if x < 0 && d < 0 {
        lemma_div_le(x * -1, d * -1);
    } else if x < 0 {
        lemma_div_le(x * -1, d);
    } else if x > 0 {
        lemma_div_le(x, d * -1);
    }
}

proof fn lemma_div_le(x: int, d: int)
    requires
        x > 0,
        d > 0,
    ensures
        0 <= x / d <= x,
{
    assert(0 <= x / d <= x) by (nonlinear_arith)
        requires
            x > 0,
            d > 0,
    ;
}

pub(crate) proof fn lemma_trunc_rem_cases(x: int, d: int)
    requires
        d != 0,
    ensures
        trunc_rem(x, d) == (if x == 0 {
            0
        } else if x > 0 && d > 0 {
            x % d
        } else if x < 0 && d < 0 {
            ((x * -1) % (d * -1)) * -1
        } else if x < 0 {
            ((x * -1) % d) * -1
        } else {
            x % (d * -1)
        }),
{
    if x > 0 && d > 0 {
        assert(x % d == x - d * (x / d)) by (nonlinear_arith)
            requires
                d > 0,
        ;
    } else if x < 0 && d < 0 {
        let (a, b) = (x * -1, d * -1);
        assert(a % b == a - b * (a / b)) by (nonlinear_arith)
            requires
                b > 0,
        ;
        assert(trunc_rem(x, d) == -(a - b * (a / b))) by (nonlinear_arith)
            requires
                a == x * -1,
                b == d * -1,
                trunc_div(x, d) == a / b,
        ;
    } else if x < 0 {
        let a = x * -1;
        assert(a % d == a - d * (a / d)) by (nonlinear_arith)
            requires
                d > 0,
        ;
        assert(trunc_rem(x, d) == -(a - d * (a / d))) by (nonlinear_arith)
            requires
                a == x * -1,
                trunc_div(x, d) == (a / d) * -1,
        ;
    } else if x > 0 {
        let b = d * -1;
        assert(x % b == x - b * (x / b)) by (nonlinear_arith)
            requires
                b > 0,
        ;
        assert(trunc_rem(x, d) == x - b * (x / b)) by (nonlinear_arith)
            requires
                b == d * -1,
                trunc_div(x, d) == (x / b) * -1,
        ;
    }
}

proof fn lemma_trunc_rem_bounded(x: int, d: int)
    requires
        d != 0,
        i32::MIN <= x <= i32::MAX,
        i32::MIN <= d <= i32::MAX,
    ensures
        i32::MIN <= trunc_rem(x, d) <= i32::MAX,
{
    if x > 0 && d > 0 {
        assert(0 <= x - d * (x / d) < d) by (nonlinear_arith)
            requires
                x > 0,
                d > 0,
        ;
    } else if x < 0 && d < 0 {
        let (a, b) = (x * -1, d * -1);
        assert(0 <= a - b * (a / b) < b) by (nonlinear_arith)
            requires
                a > 0,
                b > 0,
        ;
        assert(trunc_rem(x, d) == -(a - b * (a / b))) by (nonlinear_arith)
            requires
                a == x * -1,
                b == d * -1,
                trunc_div(x, d) == a / b,
        ;
    } else if x < 0 {
        let a = x * -1;
        assert(0 <= a - d * (a / d) < d) by (nonlinear_arith)
            requires
                a > 0,
                d > 0,
        ;
        assert(trunc_rem(x, d) == -(a - d * (a / d))) by (nonlinear_arith)
            requires
                a == x * -1,
                trunc_div(x, d) == (a / d) * -1,
        ;
    } else if x > 0 {
        let b = d * -1;
        assert(0 <= x - b * (x / b) < b) by (nonlinear_arith)
            requires
                x > 0,
                b > 0,
        ;
        assert(trunc_rem(x, d) == x - b * (x / b)) by (nonlinear_arith)
            requires
                b == d * -1,
                trunc_div(x, d) == (x / b) * -1,
        ;
    }
}

} // verus!
