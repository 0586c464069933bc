use vstd::prelude::*;

use crate::errors::{outcome, Error, ErrorModel, Outcome};
use crate::expressions::{Expr, ExprModel};
use crate::forth::{dict_model, with_data, Forth, State};
use crate::numbers::{
    lemma_trunc_div_le,
    char_of, checked_rem, clamp, flag, from_bool, is_true, saturating_add, saturating_div,
    saturating_i64_to_i32, saturating_mul, saturating_sub, to_char, trunc_div, trunc_rem, Int,
    FALSE, TRUE,
};
use crate::text::{
    decimal, insert_sorted_exec, joined, names_text, push_decimal, push_joined, push_spaces,
    push_text, sorted_texts, spaces, texts,
};

verus! {

/// The primitives of the interpreter.
#[derive(Debug, Clone, Copy, PartialEq, Eq, Structural)]
pub enum Builtin {
    Add,
    Sub,
    Mul,
    Div,
    Rem,
    DivRem,
    MulDiv,
    MulDivRem,
    Abs,
    Negate,
    Add1,
    Sub1,
    Mul2,
    Div2,
    Eq,
    Ne,
    Lt,
    Gt,
    IsZero,
    Invert,
    And,
    Or,
    Xor,
    Swap,
    Dup,
    Pick,
    Roll,
    Rot,
    Over,
    Drop,
    ClearStack,
    Cr,
    Dot,
    Emit,
    RightAlign,
    PrintStack,
    Words,
    SetCell,
    Fetch,
    Dump,
    Allot,
    Store,
    Here,
    WhileCond,
    Until,
    Depth,
    ToReturn,
    FromReturn,
    CopyFromReturn,
    LoopJ,
    Bye,
    Leave,
    Exit,
    Quit,
    Abort,
    Recurse,
}

/// A step that succeeds with state `s`.
pub open spec fn ok(s: State) -> (State, Outcome) {
    (s, Ok(()))
}

/// A step that fails with `e`, leaving state `s`.
pub open spec fn fail(s: State, e: ErrorModel) -> (State, Outcome) {
    (s, Err(e))
}

/// The top of the data stack.
pub open spec fn top(s: State) -> i32 {
    s.data[s.data.len() - 1]
}

/// The element under the top of the data stack.
pub open spec fn second(s: State) -> i32 {
    s.data[s.data.len() - 2]
}

/// The third element from the top of the data stack.
pub open spec fn third(s: State) -> i32 {
    s.data[s.data.len() - 3]
}

/// The data stack without its top `n` elements.
pub open spec fn below(s: State, n: int) -> Seq<i32> {
    s.data.subrange(0, s.data.len() - n)
}

/// Replace the top of the stack by `v`.
pub open spec fn unary(s: State, v: i32) -> (State, Outcome) {
    if s.data.len() < 1 {
        fail(s, ErrorModel::StackUnderflow)
    } else {
        ok(with_data(s, below(s, 1).push(v)))
    }
}

/// Replace the two top elements of the stack by `v`.
pub open spec fn binary(s: State, v: i32) -> (State, Outcome) {
    if s.data.len() < 2 {
        underflow(s)
    } else {
        ok(with_data(s, below(s, 2).push(v)))
    }
}

/// A word that pops its operands one at a time and finds too few has taken all there were:
/// it fails with the data stack empty.
pub open spec fn underflow(s: State) -> (State, Outcome) {
    fail(with_data(s, Seq::empty()), ErrorModel::StackUnderflow)
}

/// Replace the `n` top elements of the stack, the last of them a divisor, by `vs`. The
/// divisor is checked once `popped` elements are taken, the divisor among them.
pub open spec fn dividing(s: State, n: int, popped: int, vs: Seq<i32>) -> (State, Outcome) {
    if s.data.len() < popped {
        underflow(s)
    } else if top(s) == 0 {
        fail(with_data(s, below(s, popped)), ErrorModel::DivisionByZero)
    } else if s.data.len() < n {
        underflow(s)
    } else {
        ok(with_data(s, below(s, n) + vs))
    }
}

/// Pop the top of the stack, and fail with `Leave` where `leave` holds of it.
pub open spec fn leave_if(s: State, leave: bool) -> (State, Outcome) {
    if s.data.len() < 1 {
        fail(s, ErrorModel::StackUnderflow)
    } else if leave {
        fail(with_data(s, below(s, 1)), ErrorModel::Leave)
    } else {
        ok(with_data(s, below(s, 1)))
    }
}

/// The names of the dictionary, oldest first.
pub open spec fn keys(d: Seq<(Seq<char>, ExprModel)>) -> Seq<Seq<char>> {
    Seq::new(d.len(), |i: int| d[i].0)
}

/// How many elements `.s` shows.
pub const SHOW_MAX: usize = 10;

/// What `.s` prints for a stack.
pub open spec fn stack_text(d: Seq<i32>) -> Seq<char> {
    let shown = if d.len() > 10 {
        d.subrange(0, 10)
    } else {
        d
    };
    seq![' ', '<'] + decimal(d.len() as int) + seq!['>', ' '] + joined(shown) + if d.len() > 10 {
        seq!['.', '.', '.']
    } else {
        Seq::empty()
    }
}

/// What the primitive `b` does to the state, and whether it succeeds.
pub open spec fn step(b: Builtin, s: State) -> (State, Outcome) {
    let d = s.data;
    let n = d.len();
    match b {
        Builtin::Add => binary(s, clamp(second(s) + top(s))),
        Builtin::Sub => binary(s, clamp(second(s) - top(s))),
        Builtin::Mul => binary(s, clamp(second(s) * top(s))),
        Builtin::Div => dividing(s, 2, 1, seq![clamp(trunc_div(second(s) as int, top(s) as int))]),
        Builtin::Rem => dividing(s, 2, 1, seq![trunc_rem(second(s) as int, top(s) as int) as i32]),
        Builtin::DivRem => dividing(
            s,
            2,
            2,
            seq![
                clamp(trunc_div(second(s) as int, top(s) as int)),
                trunc_rem(second(s) as int, top(s) as int) as i32,
            ],
        ),
        Builtin::MulDiv => dividing(
            s,
            3,
            1,
            seq![clamp(trunc_div(third(s) * second(s), top(s) as int))],
        ),
        Builtin::MulDivRem => dividing(
            s,
            3,
            1,
            seq![
                clamp(trunc_rem(third(s) * second(s), top(s) as int)),
                clamp(trunc_div(third(s) * second(s), top(s) as int)),
            ],
        ),
        Builtin::Abs => unary(s, clamp(if top(s) < 0 { -top(s) } else { top(s) as int })),
        Builtin::Negate => unary(s, clamp(-top(s))),
        Builtin::Add1 => unary(s, clamp(top(s) + 1)),
        Builtin::Sub1 => unary(s, clamp(top(s) - 1)),
        Builtin::Mul2 => unary(s, clamp(top(s) * 2)),
        Builtin::Div2 => unary(s, (top(s) as int / 2) as i32),
        Builtin::Eq => binary(s, flag(second(s) == top(s))),
        Builtin::Ne => binary(s, flag(second(s) != top(s))),
        Builtin::Lt => binary(s, flag(second(s) < top(s))),
        Builtin::Gt => binary(s, flag(second(s) > top(s))),
        Builtin::IsZero => unary(s, flag(top(s) == 0)),
        Builtin::Invert => unary(s, (-1 - top(s)) as i32),
        Builtin::And => binary(s, second(s) & top(s)),
        Builtin::Or => binary(s, second(s) | top(s)),
        Builtin::Xor => binary(s, second(s) ^ top(s)),
        Builtin::Swap => if n < 2 {
            fail(s, ErrorModel::StackUnderflow)
        } else {
            ok(with_data(s, below(s, 2).push(top(s)).push(second(s))))
        },
        Builtin::Dup => if n < 1 {
            fail(s, ErrorModel::StackUnderflow)
        } else {
            ok(with_data(s, d.push(top(s))))
        },
        Builtin::Pick => {
            let rest = below(s, 1);
            let i = top(s) as int;
            if n < 1 {
                underflow(s)
            } else if i < 0 || i >= rest.len() {
                fail(with_data(s, rest), ErrorModel::StackUnderflow)
            } else {
                ok(with_data(s, rest.push(rest[rest.len() - 1 - i])))
            }
        },
        Builtin::Roll => {
            let rest = below(s, 1);
            let i = top(s) as int;
            let k = rest.len() - 1 - i;
            if n < 1 {
                underflow(s)
            } else if i < 0 || i >= rest.len() {
                fail(with_data(s, rest), ErrorModel::StackUnderflow)
            } else {
                ok(with_data(s, rest.remove(k).push(rest[k])))
            }
        },
        Builtin::Rot => if n < 3 {
            fail(s, ErrorModel::StackUnderflow)
        } else {
            ok(with_data(s, below(s, 3).push(second(s)).push(top(s)).push(third(s))))
        },
        Builtin::Over => if n < 2 {
            fail(s, ErrorModel::StackUnderflow)
        } else {
            ok(with_data(s, d.push(second(s))))
        },
        Builtin::Drop => if n < 1 {
            fail(s, ErrorModel::StackUnderflow)
        } else {
            ok(with_data(s, below(s, 1)))
        },
        Builtin::ClearStack => ok(with_data(s, Seq::empty())),
        Builtin::Cr => ok(State { out: s.out.push('\n'), ..s }),
        Builtin::Dot => if n < 1 {
            fail(s, ErrorModel::StackUnderflow)
        } else {
            ok(State { data: below(s, 1), out: s.out + decimal(top(s) as int) + seq![' '], ..s })
        },
        Builtin::Emit => if n < 1 {
            fail(s, ErrorModel::StackUnderflow)
        } else {
            ok(State { data: below(s, 1), out: s.out.push(char_of(top(s))), ..s })
        },
        Builtin::RightAlign => if n < 2 {
            underflow(s)
        } else {
            let text = decimal(second(s) as int);
            ok(State { data: below(s, 2), out: s.out + spaces(top(s) - text.len()) + text, ..s })
        },
        Builtin::PrintStack => ok(State { out: s.out + stack_text(d), ..s }),
        Builtin::Words => ok(State { out: s.out + names_text(sorted_texts(keys(s.dict))), ..s }),
        Builtin::SetCell => if n < 2 {
            underflow(s)
        } else if top(s) < 0 || top(s) > s.mem.len() {
            fail(with_data(s, below(s, 2)), ErrorModel::InvalidAddress)
        } else if top(s) == s.mem.len() {
            ok(State { data: below(s, 2), mem: s.mem.push(second(s)), ..s })
        } else {
            ok(State { data: below(s, 2), mem: s.mem.update(top(s) as int, second(s)), ..s })
        },
        Builtin::Fetch => if n < 1 {
            fail(s, ErrorModel::StackUnderflow)
        } else if top(s) < 0 || top(s) >= s.mem.len() {
            fail(with_data(s, below(s, 1)), ErrorModel::InvalidAddress)
        } else {
            ok(with_data(s, below(s, 1).push(s.mem[top(s) as int])))
        },
        Builtin::Dump => if n < 2 {
            underflow(s)
        } else if second(s) < 0 || top(s) < 0 || second(s) + top(s) > s.mem.len() {
            fail(with_data(s, below(s, 2)), ErrorModel::InvalidAddress)
        } else {
            ok(
                State {
                    data: below(s, 2),
                    out: s.out + joined(s.mem.subrange(second(s) as int, second(s) + top(s))),
                    ..s
                },
            )
        },
        Builtin::Allot => if n < 1 {
            fail(s, ErrorModel::StackUnderflow)
        } else {
            let k = if top(s) > 0 { top(s) as int } else { 0 };
            ok(State { data: below(s, 1), mem: s.mem + Seq::new(k as nat, |i: int| 0i32), ..s })
        },
        Builtin::Store => if n < 1 {
            fail(s, ErrorModel::StackUnderflow)
        } else {
            ok(State { data: below(s, 1), mem: s.mem.push(top(s)), ..s })
        },
        Builtin::Here => ok(with_data(s, d.push(s.mem.len() as i32))),
        Builtin::WhileCond => leave_if(s, top(s) == 0),
        Builtin::Until => leave_if(s, top(s) != 0),
        Builtin::Depth => ok(with_data(s, d.push(n as i32))),
        Builtin::ToReturn => if n < 1 {
            fail(s, ErrorModel::StackUnderflow)
        } else {
            ok(State { data: below(s, 1), ret: s.ret.push(top(s)), ..s })
        },
        Builtin::FromReturn => if s.ret.len() < 1 {
            fail(s, ErrorModel::StackUnderflow)
        } else {
            ok(State { data: d.push(s.ret.last()), ret: s.ret.drop_last(), ..s })
        },
        Builtin::CopyFromReturn => if s.ret.len() < 1 {
            fail(s, ErrorModel::StackUnderflow)
        } else {
            ok(with_data(s, d.push(s.ret.last())))
        },
        Builtin::LoopJ => if s.ret.len() < 2 {
            fail(s, ErrorModel::StackUnderflow)
        } else {
            ok(with_data(s, d.push(s.ret[s.ret.len() - 2])))
        },
        Builtin::Bye => fail(s, ErrorModel::Bye),
        Builtin::Leave => fail(s, ErrorModel::Leave),
        Builtin::Exit => fail(s, ErrorModel::Exit),
        Builtin::Recurse => fail(s, ErrorModel::Recurse),
        Builtin::Quit => fail(State { ret: Seq::empty(), ..s }, ErrorModel::Quit),
        Builtin::Abort => fail(State { ret: Seq::empty(), ..s }, ErrorModel::Abort),
    }
}

/// The primitive `b` took the interpreter from `before` to `after` with result `r`.
pub open spec fn effect(b: Builtin, before: State, after: State, r: Result<(), Error>) -> bool {
    (after, outcome(r)) == step(b, before)
}

/// `+ ( n1 n2 -- sum )`
pub fn add(forth: &mut Forth) -> (r: Result<(), Error>)
    ensures
        effect(Builtin::Add, old(forth)@, final(forth)@, r),
{
    let (a, b) = forth.stack_pop2()?;
    let v = saturating_add(a, b);
    forth.stack_push(v);
    assert(forth@.data =~= below(old(forth)@, 2).push(v));
    Ok(())
}


/// Pop the two top elements and push `f` of them; the pattern of the binary words.
fn binary_op(forth: &mut Forth, b: Builtin) -> (r: Result<(), Error>)
    requires
        b == Builtin::Sub || b == Builtin::Mul || b == Builtin::Eq || b == Builtin::Ne || b
            == Builtin::Lt || b == Builtin::Gt || b == Builtin::And || b == Builtin::Or || b
            == Builtin::Xor,
    ensures
        effect(b, old(forth)@, final(forth)@, r),
{
    let (x, y) = forth.stack_pop2()?;
    let v = match b {
        Builtin::Sub => saturating_sub(x, y),
        Builtin::Mul => saturating_mul(x, y),
        Builtin::Eq => from_bool(x == y),
        Builtin::Ne => from_bool(x != y),
        Builtin::Lt => from_bool(x < y),
        Builtin::Gt => from_bool(x > y),
        Builtin::And => x & y,
        Builtin::Or => x | y,
        _ => x ^ y,
    };
    forth.stack_push(v);
    assert(forth@.data =~= below(old(forth)@, 2).push(v));
    Ok(())
}

/// Replace the top element by a function of it; the pattern of the unary words.
fn unary_op(forth: &mut Forth, b: Builtin) -> (r: Result<(), Error>)
    requires
        b == Builtin::Abs || b == Builtin::Negate || b == Builtin::Add1 || b == Builtin::Sub1
            || b == Builtin::Mul2 || b == Builtin::Div2 || b == Builtin::IsZero || b
            == Builtin::Invert,
    ensures
        effect(b, old(forth)@, final(forth)@, r),
{
    let x = forth.stack_pop()?;
    let v = match b {
        Builtin::Abs => if x < 0 {
            saturating_sub(0, x)
        } else {
            x
        },
        Builtin::Negate => saturating_sub(0, x),
        Builtin::Add1 => saturating_add(x, 1),
        Builtin::Sub1 => saturating_sub(x, 1),
        Builtin::Mul2 => saturating_mul(x, 2),
        Builtin::Div2 => {
            let q = saturating_div(x, 2);
            if x < 0 && q * 2 != x {
                q - 1
            } else {
                q
            }
        },
        Builtin::IsZero => from_bool(x == 0),
        _ => -1 - x,
    };
    forth.stack_push(v);
    assert(forth@.data =~= below(old(forth)@, 1).push(v));
    Ok(())
}

/// `- ( n1 n2 -- diff )`
pub fn sub(forth: &mut Forth) -> (r: Result<(), Error>)
    ensures
        effect(Builtin::Sub, old(forth)@, final(forth)@, r),
{
    binary_op(forth, Builtin::Sub)
}

/// `* ( n1 n2 -- prod )`
pub fn mul(forth: &mut Forth) -> (r: Result<(), Error>)
    ensures
        effect(Builtin::Mul, old(forth)@, final(forth)@, r),
{
    binary_op(forth, Builtin::Mul)
}

/// `/ ( n1 n2 -- quot )`
pub fn div(forth: &mut Forth) -> (r: Result<(), Error>)
    ensures
        effect(Builtin::Div, old(forth)@, final(forth)@, r),
{
    let b = forth.stack_pop()?;
    if b == 0 {
        return Err(Error::DivisionByZero);
    }
    let a = forth.stack_pop()?;
    let q = saturating_div(a, b);
    forth.stack_push(q);
    assert(forth@.data =~= below(old(forth)@, 2) + seq![q]);
    Ok(())
}

/// `mod ( n1 n2 -- rem )`
pub fn rem(forth: &mut Forth) -> (r: Result<(), Error>)
    ensures
        effect(Builtin::Rem, old(forth)@, final(forth)@, r),
{
    let b = forth.stack_pop()?;
    if b == 0 {
        return Err(Error::DivisionByZero);
    }
    let a = forth.stack_pop()?;
    let m = checked_rem(a, b);
    forth.stack_push(m);
    assert(forth@.data =~= below(old(forth)@, 2) + seq![m]);
    Ok(())
}

/// `/mod ( n1 n2 -- quot rem )`, the remainder on top.
pub fn div_rem(forth: &mut Forth) -> (r: Result<(), Error>)
    ensures
        effect(Builtin::DivRem, old(forth)@, final(forth)@, r),
{
    let (a, b) = forth.stack_pop2()?;
    if b == 0 {
        assert(forth@.data =~= below(old(forth)@, 2));
        return Err(Error::DivisionByZero);
    }
    let q = saturating_div(a, b);
    let m = checked_rem(a, b);
    forth.stack_push(q);
    forth.stack_push(m);
    assert(forth@.data =~= below(old(forth)@, 2) + seq![q, m]);
    Ok(())
}

/// The product `a * b` in double precision.
fn wide_product(a: Int, b: Int) -> (r: i64)
    ensures
        r == a * b,
        -0x4000_0000_0000_0000 <= r <= 0x4000_0000_0000_0000,
{
    assert(-0x4000_0000_0000_0000 <= (a as int) * (b as int) <= 0x4000_0000_0000_0000)
        by (nonlinear_arith);
    (a as i64) * (b as i64)
}

/// `p / c` rounded toward zero, in double precision, then brought into range.
fn wide_quotient(p: i64, c: Int) -> (r: Int)
    requires
        c != 0,
        -0x4000_0000_0000_0000 <= p <= 0x4000_0000_0000_0000,
    ensures
        r == clamp(trunc_div(p as int, c as int)),
{
    proof {
        lemma_trunc_div_le(p as int, c as int);
    }
    match p.checked_div(c as i64) {
        Some(q) => saturating_i64_to_i32(q),
        None => 0,
    }
}

/// The remainder of `p / c` rounded toward zero, in double precision.
fn wide_remainder(p: i64, c: Int) -> (r: Int)
    requires
        c != 0,
        -0x4000_0000_0000_0000 <= p <= 0x4000_0000_0000_0000,
    ensures
        r == clamp(trunc_rem(p as int, c as int)),
{
    proof {
        lemma_trunc_div_le(p as int, c as int);
        crate::numbers::lemma_trunc_rem_cases(p as int, c as int);
    }
    match p.checked_rem(c as i64) {
        Some(m) => saturating_i64_to_i32(m),
        None => 0,
    }
}

/// `*/ ( n1 n2 n3 -- n4 )`
/// `n1 * n2 / n3`, with the product in double precision.
pub fn mul_div(forth: &mut Forth) -> (r: Result<(), Error>)
    ensures
        effect(Builtin::MulDiv, old(forth)@, final(forth)@, r),
{
    let c = forth.stack_pop()?;
    if c == 0 {
        return Err(Error::DivisionByZero);
    }
    let (a, b) = forth.stack_pop2()?;
    let q = wide_quotient(wide_product(a, b), c);
    forth.stack_push(q);
    assert(forth@.data =~= below(old(forth)@, 3) + seq![q]);
    Ok(())
}

/// `*/mod ( n1 n2 n3 -- n4 n5 )`
/// `n1 * n2 % n3` and `n1 * n2 / n3`, with the product in double precision.
pub fn mul_div_rem(forth: &mut Forth) -> (r: Result<(), Error>)
    ensures
        effect(Builtin::MulDivRem, old(forth)@, final(forth)@, r),
{
    let c = forth.stack_pop()?;
    if c == 0 {
        return Err(Error::DivisionByZero);
    }
    let (a, b) = forth.stack_pop2()?;
    let p = wide_product(a, b);
    let m = wide_remainder(p, c);
    let q = wide_quotient(p, c);
    forth.stack_push(m);
    forth.stack_push(q);
    assert(forth@.data =~= below(old(forth)@, 3) + seq![m, q]);
    Ok(())
}

/// `abs ( n -- u )`
pub fn abs(forth: &mut Forth) -> (r: Result<(), Error>)
    ensures
        effect(Builtin::Abs, old(forth)@, final(forth)@, r),
{
    unary_op(forth, Builtin::Abs)
}

/// `negate ( -n|+n -- +n|-n )`
pub fn negate(forth: &mut Forth) -> (r: Result<(), Error>)
    ensures
        effect(Builtin::Negate, old(forth)@, final(forth)@, r),
{
    unary_op(forth, Builtin::Negate)
}

/// `1+ ( n -- sum )`
pub fn add1(forth: &mut Forth) -> (r: Result<(), Error>)
    ensures
        effect(Builtin::Add1, old(forth)@, final(forth)@, r),
{
    unary_op(forth, Builtin::Add1)
}

/// `1- ( n -- diff )`
pub fn sub1(forth: &mut Forth) -> (r: Result<(), Error>)
    ensures
        effect(Builtin::Sub1, old(forth)@, final(forth)@, r),
{
    unary_op(forth, Builtin::Sub1)
}

/// `2* ( n -- prod )`
pub fn mul2(forth: &mut Forth) -> (r: Result<(), Error>)
    ensures
        effect(Builtin::Mul2, old(forth)@, final(forth)@, r),
{
    unary_op(forth, Builtin::Mul2)
}

/// `2/ ( n -- quot )`, rounding toward negative infinity as an arithmetic shift does.
pub fn div2(forth: &mut Forth) -> (r: Result<(), Error>)
    ensures
        effect(Builtin::Div2, old(forth)@, final(forth)@, r),
{
    unary_op(forth, Builtin::Div2)
}

/// `= ( n1 n2 -- flag )`
pub fn eq(forth: &mut Forth) -> (r: Result<(), Error>)
    ensures
        effect(Builtin::Eq, old(forth)@, final(forth)@, r),
{
    binary_op(forth, Builtin::Eq)
}

/// `<> ( n1 n2 -- flag )`
pub fn ne(forth: &mut Forth) -> (r: Result<(), Error>)
    ensures
        effect(Builtin::Ne, old(forth)@, final(forth)@, r),
{
    binary_op(forth, Builtin::Ne)
}

/// `< ( n1 n2 -- flag )`
pub fn lt(forth: &mut Forth) -> (r: Result<(), Error>)
    ensures
        effect(Builtin::Lt, old(forth)@, final(forth)@, r),
{
    binary_op(forth, Builtin::Lt)
}

/// `> ( n1 n2 -- flag )`
pub fn gt(forth: &mut Forth) -> (r: Result<(), Error>)
    ensures
        effect(Builtin::Gt, old(forth)@, final(forth)@, r),
{
    binary_op(forth, Builtin::Gt)
}

/// `0= ( n -- flag )`
pub fn is_zero(forth: &mut Forth) -> (r: Result<(), Error>)
    ensures
        effect(Builtin::IsZero, old(forth)@, final(forth)@, r),
{
    unary_op(forth, Builtin::IsZero)
}

/// `invert ( n1 -- n2 )`, the bitwise complement.
pub fn invert(forth: &mut Forth) -> (r: Result<(), Error>)
    ensures
        effect(Builtin::Invert, old(forth)@, final(forth)@, r),
{
    unary_op(forth, Builtin::Invert)
}

/// `and ( n1 n2 -- n3 )`
pub fn and(forth: &mut Forth) -> (r: Result<(), Error>)
    ensures
        effect(Builtin::And, old(forth)@, final(forth)@, r),
{
    binary_op(forth, Builtin::And)
}

/// `or ( n1 n2 -- n3 )`
pub fn or(forth: &mut Forth) -> (r: Result<(), Error>)
    ensures
        effect(Builtin::Or, old(forth)@, final(forth)@, r),
{
    binary_op(forth, Builtin::Or)
}

/// `xor ( n1 n2 -- n3 )`
pub fn xor(forth: &mut Forth) -> (r: Result<(), Error>)
    ensures
        effect(Builtin::Xor, old(forth)@, final(forth)@, r),
{
    binary_op(forth, Builtin::Xor)
}

/// `swap ( n1 n2 -- n2 n1 )`
/// Swap the two values on the top of the stack.
pub fn swap(forth: &mut Forth) -> (r: Result<(), Error>)
    ensures
        effect(Builtin::Swap, old(forth)@, final(forth)@, r),
{
    if forth.stack_len() < 2 {
        return Err(Error::StackUnderflow);
    }
    let (a, b) = forth.stack_pop2()?;
    forth.stack_push(b);
    forth.stack_push(a);
    assert(forth@.data =~= below(old(forth)@, 2).push(b).push(a));
    Ok(())
}

/// `dup ( n -- n n )`
/// Duplicate value from the top of the stack.
pub fn dup(forth: &mut Forth) -> (r: Result<(), Error>)
    ensures
        effect(Builtin::Dup, old(forth)@, final(forth)@, r),
{
    let v = forth.stack_last()?;
    forth.stack_push(v);
    Ok(())
}

/// `pick ( ni ... n0 i -- ni ... n0 ni )`
/// Copy the i-th value, counting from zero at the top, to the top of the stack.
pub fn pick(forth: &mut Forth) -> (r: Result<(), Error>)
    ensures
        effect(Builtin::Pick, old(forth)@, final(forth)@, r),
{
    let index = forth.stack_pop()?;
    let n = forth.stack_len();
    if index < 0 || index as usize >= n {
        return Err(Error::StackUnderflow);
    }
    let value = forth.data_stack[n - 1 - index as usize];
    forth.stack_push(value);
    assert(forth@.data =~= below(old(forth)@, 1).push(value));
    Ok(())
}

/// `roll ( ni ... n0 i -- ni-1 ... n0 ni )`
/// Move the i-th value, counting from zero at the top, to the top of the stack.
pub fn roll(forth: &mut Forth) -> (r: Result<(), Error>)
    ensures
        effect(Builtin::Roll, old(forth)@, final(forth)@, r),
{
    let index = forth.stack_pop()?;
    let n = forth.stack_len();
    if index < 0 || index as usize >= n {
        return Err(Error::StackUnderflow);
    }
    let value = forth.data_stack.remove(n - 1 - index as usize);
    forth.stack_push(value);
    assert(forth@.data =~= below(old(forth)@, 1).remove(n - 1 - index).push(value));
    Ok(())
}

/// `rot ( n1 n2 n3 -- n2 n3 n1 )`
pub fn rot(forth: &mut Forth) -> (r: Result<(), Error>)
    ensures
        effect(Builtin::Rot, old(forth)@, final(forth)@, r),
{
    if forth.stack_len() < 3 {
        return Err(Error::StackUnderflow);
    }
    let c = forth.stack_pop()?;
    let (a, b) = forth.stack_pop2()?;
    forth.stack_push(b);
    forth.stack_push(c);
    forth.stack_push(a);
    assert(forth@.data =~= below(old(forth)@, 3).push(b).push(c).push(a));
    Ok(())
}

/// `over ( n1 n2 -- n1 n2 n1 )`
pub fn over(forth: &mut Forth) -> (r: Result<(), Error>)
    ensures
        effect(Builtin::Over, old(forth)@, final(forth)@, r),
{
    let n = forth.stack_len();
    if n < 2 {
        return Err(Error::StackUnderflow);
    }
    let v = forth.data_stack[n - 2];
    forth.stack_push(v);
    Ok(())
}

/// `drop ( n -- )`
/// Drop the value from the top of the stack.
pub fn drop(forth: &mut Forth) -> (r: Result<(), Error>)
    ensures
        effect(Builtin::Drop, old(forth)@, final(forth)@, r),
{
    forth.stack_pop()?;
    assert(forth@.data =~= below(old(forth)@, 1));
    Ok(())
}

/// `clearstack ( -- )`
pub fn clearstack(forth: &mut Forth) -> (r: Result<(), Error>)
    ensures
        effect(Builtin::ClearStack, old(forth)@, final(forth)@, r),
{
    forth.data_stack.clear();
    Ok(())
}

/// `cr ( -- )`
/// Print newline.
pub fn cr(forth: &mut Forth) -> (r: Result<(), Error>)
    ensures
        effect(Builtin::Cr, old(forth)@, final(forth)@, r),
{
    forth.output.push('\n');
    Ok(())
}

/// `. ( n -- )`
/// Take the value from the top of the stack and print it followed by space.
pub fn dot(forth: &mut Forth) -> (r: Result<(), Error>)
    ensures
        effect(Builtin::Dot, old(forth)@, final(forth)@, r),
{
    let v = forth.stack_pop()?;
    push_decimal(&mut forth.output, v);
    forth.output.push(' ');
    assert(forth@.data =~= below(old(forth)@, 1));
    assert(forth@.out =~= old(forth)@.out + decimal(v as int) + seq![' ']);
    Ok(())
}

/// `emit ( n -- )`
/// Take the value from the top of the stack and print it as a character.
pub fn emit(forth: &mut Forth) -> (r: Result<(), Error>)
    ensures
        effect(Builtin::Emit, old(forth)@, final(forth)@, r),
{
    let v = forth.stack_pop()?;
    forth.output.push(to_char(v));
    assert(forth@.data =~= below(old(forth)@, 1));
    Ok(())
}

/// The number of characters in the decimal text of `n`.
fn decimal_len(n: Int) -> (r: usize)
    ensures
        r == decimal(n as int).len(),
{
    let mut text: Vec<char> = Vec::new();
    push_decimal(&mut text, n);
    assert(text@ =~= decimal(n as int));
    text.len()
}

/// `.r ( n u -- )`
/// Display integer n right-aligned in a field u characters wide.
pub fn right_align(forth: &mut Forth) -> (r: Result<(), Error>)
    ensures
        effect(Builtin::RightAlign, old(forth)@, final(forth)@, r),
{
    let (value, width) = forth.stack_pop2()?;
    let len = decimal_len(value);
    let pad = if width <= 0 || (width as usize) <= len {
        0
    } else {
        width - len as Int
    };
    proof {
        assert(spaces(pad as int) == spaces(width - decimal(value as int).len())) by {
            if width - decimal(value as int).len() <= 0 {
                assert(spaces(width - decimal(value as int).len()) == Seq::<char>::empty());
                assert(spaces(0) == Seq::<char>::empty());
            }
        }
    }
    push_spaces(&mut forth.output, pad);
    push_decimal(&mut forth.output, value);
    assert(forth@.data =~= below(old(forth)@, 2));
    assert(forth@.out =~= old(forth)@.out + spaces(width - decimal(value as int).len()) + decimal(
        value as int,
    ));
    Ok(())
}

/// `.s ( -- )`
/// Print the depth of the stack and its first values.
pub fn print_stack(forth: &mut Forth) -> (r: Result<(), Error>)
    ensures
        effect(Builtin::PrintStack, old(forth)@, final(forth)@, r),
{
    let n = forth.data_stack.len();
    forth.output.push(' ');
    forth.output.push('<');
    crate::text::push_digits(&mut forth.output, n as u64);
    forth.output.push('>');
    forth.output.push(' ');
    let shown = if n > SHOW_MAX {
        SHOW_MAX
    } else {
        n
    };
    push_joined(&mut forth.output, &forth.data_stack, 0, shown);
    if n > SHOW_MAX {
        forth.output.push('.');
        forth.output.push('.');
        forth.output.push('.');
    }
    let ghost d = old(forth)@.data;
    assert(d.subrange(0, n as int) =~= d);
    assert(forth@.out =~= old(forth)@.out + stack_text(d));
    Ok(())
}

/// Append the characters of `v`.
fn push_chars(out: &mut Vec<char>, v: &Vec<char>)
    ensures
        final(out)@ == old(out)@ + v@,
{
    let mut k: usize = 0;
    while k < v.len()
        invariant
            k <= v.len(),
            out@ == old(out)@ + v@.subrange(0, k as int),
        decreases v.len() - k,
    {
        out.push(v[k]);
        k += 1;
        assert(out@ =~= old(out)@ + v@.subrange(0, k as int));
    }
    assert(v@.subrange(0, v.len() as int) =~= v@);
}

/// Append the names of the dictionary in order, separated by single spaces.
fn push_names(out: &mut Vec<char>, dict: &Vec<(String, Expr)>)
    ensures
        final(out)@ == old(out)@ + names_text(sorted_texts(keys(crate::forth::dict_model(dict@)))),
{
    let ghost names = keys(crate::forth::dict_model(dict@));
    let mut sorted: Vec<Vec<char>> = Vec::new();
    let mut i: usize = 0;
    assert(texts(sorted@) =~= sorted_texts(names.subrange(0, 0)));
    while i < dict.len()
        invariant
            i <= dict.len(),
            names == keys(crate::forth::dict_model(dict@)),
            texts(sorted@) == sorted_texts(names.subrange(0, i as int)),
        decreases dict.len() - i,
    {
        let mut name: Vec<char> = Vec::new();
        push_text(&mut name, dict[i].0.as_str());
        assert(name@ =~= names[i as int]);
        insert_sorted_exec(&mut sorted, name);
        assert(names.subrange(0, i + 1).drop_last() =~= names.subrange(0, i as int));
        i += 1;
    }
    assert(names.subrange(0, dict.len() as int) =~= names);
    let ghost t = texts(sorted@);
    let mut j: usize = 0;
    assert(old(out)@ + names_text(t.subrange(0, 0)) =~= old(out)@);
    while j < sorted.len()
        invariant
            j <= sorted.len(),
            t == texts(sorted@),
            out@ == old(out)@ + names_text(t.subrange(0, j as int)),
        decreases sorted.len() - j,
    {
        let ghost u = t.subrange(0, j + 1);
        assert(u.drop_last() =~= t.subrange(0, j as int));
        if j > 0 {
            out.push(' ');
        }
        push_chars(out, &sorted[j]);
        j += 1;
        assert(out@ =~= old(out)@ + names_text(u));
    }
    assert(t.subrange(0, sorted.len() as int) =~= t);
}

/// `words ( -- )`
/// Print all the defined words, in order.
pub fn words(forth: &mut Forth) -> (r: Result<(), Error>)
    ensures
        effect(Builtin::Words, old(forth)@, final(forth)@, r),
{
    push_names(&mut forth.output, &forth.dictionary);
    Ok(())
}

/// `! ( n addr -- )`
/// Set the cell at addr to n; the address just past the end appends a cell.
pub fn set(forth: &mut Forth) -> (r: Result<(), Error>)
    ensures
        effect(Builtin::SetCell, old(forth)@, final(forth)@, r),
{
    let (val, addr) = forth.stack_pop2()?;
    assert(forth@.data =~= below(old(forth)@, 2));
    if addr < 0 || addr as usize > forth.memory.len() {
        return Err(Error::InvalidAddress);
    }
    if addr as usize == forth.memory.len() {
        forth.memory.push(val);
    } else {
        forth.memory.set(addr as usize, val);
    }
    Ok(())
}

/// `@ ( addr -- n )`
/// Get the value of the cell at addr.
pub fn fetch(forth: &mut Forth) -> (r: Result<(), Error>)
    ensures
        effect(Builtin::Fetch, old(forth)@, final(forth)@, r),
{
    let addr = forth.stack_pop()?;
    assert(forth@.data =~= below(old(forth)@, 1));
    if addr < 0 || addr as usize >= forth.memory.len() {
        return Err(Error::InvalidAddress);
    }
    let v = forth.memory[addr as usize];
    forth.stack_push(v);
    assert(forth@.data =~= below(old(forth)@, 1).push(v));
    Ok(())
}

/// `dump ( addr count -- )`
/// Print count cells from the memory address addr.
pub fn dump(forth: &mut Forth) -> (r: Result<(), Error>)
    ensures
        effect(Builtin::Dump, old(forth)@, final(forth)@, r),
{
    let (start, count) = forth.stack_pop2()?;
    assert(forth@.data =~= below(old(forth)@, 2));
    if start < 0 || count < 0 || (start as u64) + (count as u64) > forth.memory.len() as u64 {
        return Err(Error::InvalidAddress);
    }
    let end = (start as usize) + (count as usize);
    push_joined(&mut forth.output, &forth.memory, start as usize, end);
    Ok(())
}

/// `allot ( count -- )`
/// Append count cells holding zero to memory; a count below one appends none.
pub fn allot(forth: &mut Forth) -> (r: Result<(), Error>)
    ensures
        effect(Builtin::Allot, old(forth)@, final(forth)@, r),
{
    let count = forth.stack_pop()?;
    let mut i: Int = 0;
    let ghost mem0 = forth.memory@;
    assert(mem0 + Seq::new(0, |j: int| 0i32) =~= mem0);
    while i < count
        invariant
            0 <= i,
            count > 0 ==> i <= count,
            count <= 0 ==> i == 0,
            forth.memory@ == mem0 + Seq::new(i as nat, |j: int| 0i32),
            forth.data_stack@ == below(old(forth)@, 1),
            forth.return_stack@ == old(forth)@.ret,
            crate::forth::dict_model(forth.dictionary@) == old(forth)@.dict,
            forth.output@ == old(forth)@.out,
            crate::forth::sources_model(forth.sources@) == old(forth)@.src,
        decreases count - i,
    {
        forth.memory.push(0);
        i += 1;
        assert(forth.memory@ =~= mem0 + Seq::new(i as nat, |j: int| 0i32));
    }
    assert(forth@.data =~= below(old(forth)@, 1));
    assert(forth@.mem =~= old(forth)@.mem + Seq::new(
        (if count > 0 { count as int } else { 0 }) as nat,
        |j: int| 0i32,
    ));
    Ok(())
}

/// `, ( n -- )`
/// Append the value to memory.
pub fn store(forth: &mut Forth) -> (r: Result<(), Error>)
    ensures
        effect(Builtin::Store, old(forth)@, final(forth)@, r),
{
    let value = forth.stack_pop()?;
    forth.memory.push(value);
    assert(forth@.data =~= below(old(forth)@, 1));
    Ok(())
}

/// `here ( -- n )`
/// The address just past the end of memory.
pub fn here(forth: &mut Forth) -> (r: Result<(), Error>)
    ensures
        effect(Builtin::Here, old(forth)@, final(forth)@, r),
{
    let addr = #[verifier::truncate] (forth.memory.len() as Int);
    forth.stack_push(addr);
    Ok(())
}

/// `while ( flag -- )`
/// If the flag is false, leave the loop.
pub fn while_cond(forth: &mut Forth) -> (r: Result<(), Error>)
    ensures
        effect(Builtin::WhileCond, old(forth)@, final(forth)@, r),
{
    let flag = forth.stack_pop()?;
    assert(forth@.data =~= below(old(forth)@, 1));
    if !is_true(flag) {
        return Err(Error::Leave);
    }
    Ok(())
}

/// `until ( flag -- )`
/// If the flag is true, leave the loop.
pub fn until(forth: &mut Forth) -> (r: Result<(), Error>)
    ensures
        effect(Builtin::Until, old(forth)@, final(forth)@, r),
{
    let flag = forth.stack_pop()?;
    assert(forth@.data =~= below(old(forth)@, 1));
    if is_true(flag) {
        return Err(Error::Leave);
    }
    Ok(())
}

/// `depth ( -- n )`
/// The depth of the stack.
pub fn depth(forth: &mut Forth) -> (r: Result<(), Error>)
    ensures
        effect(Builtin::Depth, old(forth)@, final(forth)@, r),
{
    let n = #[verifier::truncate] (forth.stack_len() as Int);
    forth.stack_push(n);
    Ok(())
}

/// `>r ( n -- )`
/// Take a value off the data stack and push it onto the return stack.
pub fn to_return(forth: &mut Forth) -> (r: Result<(), Error>)
    ensures
        effect(Builtin::ToReturn, old(forth)@, final(forth)@, r),
{
    let value = forth.stack_pop()?;
    forth.return_stack.push(value);
    assert(forth@.data =~= below(old(forth)@, 1));
    Ok(())
}

/// `r> ( -- n )`
/// Take a value off the return stack and push it onto the data stack.
pub fn from_return(forth: &mut Forth) -> (r: Result<(), Error>)
    ensures
        effect(Builtin::FromReturn, old(forth)@, final(forth)@, r),
{
    match forth.return_stack.pop() {
        Some(value) => {
            forth.stack_push(value);
            Ok(())
        },
        None => Err(Error::StackUnderflow),
    }
}

/// `r@ ( -- n )`
/// Copy the last value from return stack and push it onto the data stack.
pub fn copy_from_return(forth: &mut Forth) -> (r: Result<(), Error>)
    ensures
        effect(Builtin::CopyFromReturn, old(forth)@, final(forth)@, r),
{
    let n = forth.return_stack.len();
    if n < 1 {
        return Err(Error::StackUnderflow);
    }
    let value = forth.return_stack[n - 1];
    forth.stack_push(value);
    Ok(())
}

/// `j ( -- n )`
/// Current index of the outer loop.
pub fn loop_j(forth: &mut Forth) -> (r: Result<(), Error>)
    ensures
        effect(Builtin::LoopJ, old(forth)@, final(forth)@, r),
{
    let n = forth.return_stack.len();
    if n < 2 {
        return Err(Error::StackUnderflow);
    }
    let value = forth.return_stack[n - 2];
    forth.stack_push(value);
    Ok(())
}

/// `bye ( -- )`
/// Ask the host to end the session.
pub fn bye(forth: &mut Forth) -> (r: Result<(), Error>)
    ensures
        effect(Builtin::Bye, old(forth)@, final(forth)@, r),
{
    Err(Error::Bye)
}

/// `leave ( -- )`
/// Break the loop.
pub fn leave(forth: &mut Forth) -> (r: Result<(), Error>)
    ensures
        effect(Builtin::Leave, old(forth)@, final(forth)@, r),
{
    Err(Error::Leave)
}

/// `exit ( -- )`
/// Early return from the function.
pub fn exit(forth: &mut Forth) -> (r: Result<(), Error>)
    ensures
        effect(Builtin::Exit, old(forth)@, final(forth)@, r),
{
    Err(Error::Exit)
}

/// `recurse ( -- )`
/// Outside any function; inside one, the evaluator calls the function instead.
pub fn recurse(forth: &mut Forth) -> (r: Result<(), Error>)
    ensures
        effect(Builtin::Recurse, old(forth)@, final(forth)@, r),
{
    Err(Error::Recurse)
}

/// `quit ( -- )`
/// Clear the return stack and return to the terminal.
pub fn quit(forth: &mut Forth) -> (r: Result<(), Error>)
    ensures
        effect(Builtin::Quit, old(forth)@, final(forth)@, r),
{
    forth.return_stack.clear();
    Err(Error::Quit)
}

/// `abort ( -- )`
/// Clear the return stack and fail.
pub fn abort(forth: &mut Forth) -> (r: Result<(), Error>)
    ensures
        effect(Builtin::Abort, old(forth)@, final(forth)@, r),
{
    forth.return_stack.clear();
    Err(Error::Abort)
}

/// Run the primitive `b`.
pub fn call(b: Builtin, forth: &mut Forth) -> (r: Result<(), Error>)
    ensures
        effect(b, old(forth)@, final(forth)@, r),
{
    match b {
        Builtin::Add => crate::builtins::add(forth),
        Builtin::Sub => crate::builtins::sub(forth),
        Builtin::Mul => crate::builtins::mul(forth),
        Builtin::Div => div(forth),
        Builtin::Rem => rem(forth),
        Builtin::DivRem => div_rem(forth),
        Builtin::MulDiv => mul_div(forth),
        Builtin::MulDivRem => mul_div_rem(forth),
        Builtin::Abs => abs(forth),
        Builtin::Negate => negate(forth),
        Builtin::Add1 => add1(forth),
        Builtin::Sub1 => sub1(forth),
        Builtin::Mul2 => mul2(forth),
        Builtin::Div2 => div2(forth),
        Builtin::Eq => eq(forth),
        Builtin::Ne => ne(forth),
        Builtin::Lt => lt(forth),
        Builtin::Gt => gt(forth),
        Builtin::IsZero => is_zero(forth),
        Builtin::Invert => invert(forth),
        Builtin::And => and(forth),
        Builtin::Or => or(forth),
        Builtin::Xor => xor(forth),
        Builtin::Swap => swap(forth),
        Builtin::Dup => dup(forth),
        Builtin::Pick => pick(forth),
        Builtin::Roll => roll(forth),
        Builtin::Rot => rot(forth),
        Builtin::Over => over(forth),
        Builtin::Drop => drop(forth),
        Builtin::ClearStack => clearstack(forth),
        Builtin::Cr => cr(forth),
        Builtin::Dot => dot(forth),
        Builtin::Emit => emit(forth),
        Builtin::RightAlign => right_align(forth),
        Builtin::PrintStack => print_stack(forth),
        Builtin::Words => words(forth),
        Builtin::SetCell => set(forth),
        Builtin::Fetch => fetch(forth),
        Builtin::Dump => dump(forth),
        Builtin::Allot => allot(forth),
        Builtin::Store => store(forth),
        Builtin::Here => here(forth),
        Builtin::WhileCond => while_cond(forth),
        Builtin::Until => until(forth),
        Builtin::Depth => depth(forth),
        Builtin::ToReturn => to_return(forth),
        Builtin::FromReturn => from_return(forth),
        Builtin::CopyFromReturn => copy_from_return(forth),
        Builtin::LoopJ => loop_j(forth),
        Builtin::Bye => bye(forth),
        Builtin::Leave => leave(forth),
        Builtin::Exit => exit(forth),
        Builtin::Quit => quit(forth),
        Builtin::Abort => abort(forth),
        Builtin::Recurse => recurse(forth),
    }
}


/// The words that every interpreter starts with, and what they are bound to.
pub open spec fn builtins() -> Seq<(Seq<char>, ExprModel)> {
    seq![
        ("true"@, ExprModel::Value(-1i32)),
        ("false"@, ExprModel::Value(0i32)),
        ("and"@, ExprModel::Callable(Builtin::And)),
        ("or"@, ExprModel::Callable(Builtin::Or)),
        ("xor"@, ExprModel::Callable(Builtin::Xor)),
        ("invert"@, ExprModel::Callable(Builtin::Invert)),
        ("="@, ExprModel::Callable(Builtin::Eq)),
        ("<>"@, ExprModel::Callable(Builtin::Ne)),
        ("<"@, ExprModel::Callable(Builtin::Lt)),
        (">"@, ExprModel::Callable(Builtin::Gt)),
        ("0="@, ExprModel::Callable(Builtin::IsZero)),
        ("+"@, ExprModel::Callable(Builtin::Add)),
        ("-"@, ExprModel::Callable(Builtin::Sub)),
        ("*"@, ExprModel::Callable(Builtin::Mul)),
        ("/"@, ExprModel::Callable(Builtin::Div)),
        ("*/"@, ExprModel::Callable(Builtin::MulDiv)),
        ("*/mod"@, ExprModel::Callable(Builtin::MulDivRem)),
        ("mod"@, ExprModel::Callable(Builtin::Rem)),
        ("/mod"@, ExprModel::Callable(Builtin::DivRem)),
        ("abs"@, ExprModel::Callable(Builtin::Abs)),
        ("negate"@, ExprModel::Callable(Builtin::Negate)),
        ("1+"@, ExprModel::Callable(Builtin::Add1)),
        ("1-"@, ExprModel::Callable(Builtin::Sub1)),
        ("2*"@, ExprModel::Callable(Builtin::Mul2)),
        ("2/"@, ExprModel::Callable(Builtin::Div2)),
        ("dup"@, ExprModel::Callable(Builtin::Dup)),
        ("drop"@, ExprModel::Callable(Builtin::Drop)),
        ("swap"@, ExprModel::Callable(Builtin::Swap)),
        ("pick"@, ExprModel::Callable(Builtin::Pick)),
        ("roll"@, ExprModel::Callable(Builtin::Roll)),
        ("rot"@, ExprModel::Callable(Builtin::Rot)),
        ("over"@, ExprModel::Callable(Builtin::Over)),
        ("depth"@, ExprModel::Callable(Builtin::Depth)),
        (".s"@, ExprModel::Callable(Builtin::PrintStack)),
        ("clearstack"@, ExprModel::Callable(Builtin::ClearStack)),
        (">r"@, ExprModel::Callable(Builtin::ToReturn)),
        ("r>"@, ExprModel::Callable(Builtin::FromReturn)),
        ("r@"@, ExprModel::Callable(Builtin::CopyFromReturn)),
        ("constant"@, ExprModel::Dummy),
        ("variable"@, ExprModel::Dummy),
        ("create"@, ExprModel::Dummy),
        ("value"@, ExprModel::Dummy),
        ("!"@, ExprModel::Callable(Builtin::SetCell)),
        ("@"@, ExprModel::Callable(Builtin::Fetch)),
        ("dump"@, ExprModel::Callable(Builtin::Dump)),
        ("allot"@, ExprModel::Callable(Builtin::Allot)),
        ("here"@, ExprModel::Callable(Builtin::Here)),
        (","@, ExprModel::Callable(Builtin::Store)),
        ("cr"@, ExprModel::Callable(Builtin::Cr)),
        ("."@, ExprModel::Callable(Builtin::Dot)),
        ("char"@, ExprModel::Dummy),
        ("emit"@, ExprModel::Callable(Builtin::Emit)),
        (".r"@, ExprModel::Callable(Builtin::RightAlign)),
        ("if"@, ExprModel::Dummy),
        ("then"@, ExprModel::Dummy),
        ("else"@, ExprModel::Dummy),
        (";"@, ExprModel::Dummy),
        (":"@, ExprModel::Dummy),
        (".("@, ExprModel::Dummy),
        (".\""@, ExprModel::Dummy),
        ("include"@, ExprModel::Dummy),
        ("to"@, ExprModel::Dummy),
        ("while"@, ExprModel::Callable(Builtin::WhileCond)),
        ("until"@, ExprModel::Callable(Builtin::Until)),
        ("begin"@, ExprModel::Dummy),
        ("again"@, ExprModel::Dummy),
        ("repeat"@, ExprModel::Dummy),
        ("do"@, ExprModel::Dummy),
        ("loop"@, ExprModel::Dummy),
        ("i"@, ExprModel::Callable(Builtin::CopyFromReturn)),
        ("j"@, ExprModel::Callable(Builtin::LoopJ)),
        ("words"@, ExprModel::Callable(Builtin::Words)),
        ("see"@, ExprModel::Dummy),
        ("bye"@, ExprModel::Callable(Builtin::Bye)),
        ("exit"@, ExprModel::Callable(Builtin::Exit)),
        ("quit"@, ExprModel::Callable(Builtin::Quit)),
        ("leave"@, ExprModel::Callable(Builtin::Leave)),
        ("abort"@, ExprModel::Callable(Builtin::Abort)),
        ("recurse"@, ExprModel::Callable(Builtin::Recurse)),
    ]
}

/// The dictionary of the predefined words.
#[verifier::spinoff_prover]
#[verifier::rlimit(80)]
fn builtin_dictionary() -> (d: Vec<(String, Expr)>)
    ensures
        dict_model(d@) == builtins(),
{
    let mut d: Vec<(String, Expr)> = Vec::new();
    d.push(("true".to_owned(), Expr::Value(TRUE)));
    d.push(("false".to_owned(), Expr::Value(FALSE)));
    d.push(("and".to_owned(), Expr::Callable(Builtin::And)));
    d.push(("or".to_owned(), Expr::Callable(Builtin::Or)));
    d.push(("xor".to_owned(), Expr::Callable(Builtin::Xor)));
    d.push(("invert".to_owned(), Expr::Callable(Builtin::Invert)));
    d.push(("=".to_owned(), Expr::Callable(Builtin::Eq)));
    d.push(("<>".to_owned(), Expr::Callable(Builtin::Ne)));
    d.push(("<".to_owned(), Expr::Callable(Builtin::Lt)));
    d.push((">".to_owned(), Expr::Callable(Builtin::Gt)));
    d.push(("0=".to_owned(), Expr::Callable(Builtin::IsZero)));
    d.push(("+".to_owned(), Expr::Callable(Builtin::Add)));
    d.push(("-".to_owned(), Expr::Callable(Builtin::Sub)));
    d.push(("*".to_owned(), Expr::Callable(Builtin::Mul)));
    d.push(("/".to_owned(), Expr::Callable(Builtin::Div)));
    d.push(("*/".to_owned(), Expr::Callable(Builtin::MulDiv)));
    d.push(("*/mod".to_owned(), Expr::Callable(Builtin::MulDivRem)));
    d.push(("mod".to_owned(), Expr::Callable(Builtin::Rem)));
    d.push(("/mod".to_owned(), Expr::Callable(Builtin::DivRem)));
    d.push(("abs".to_owned(), Expr::Callable(Builtin::Abs)));
    d.push(("negate".to_owned(), Expr::Callable(Builtin::Negate)));
    d.push(("1+".to_owned(), Expr::Callable(Builtin::Add1)));
    d.push(("1-".to_owned(), Expr::Callable(Builtin::Sub1)));
    d.push(("2*".to_owned(), Expr::Callable(Builtin::Mul2)));
    d.push(("2/".to_owned(), Expr::Callable(Builtin::Div2)));
    d.push(("dup".to_owned(), Expr::Callable(Builtin::Dup)));
    d.push(("drop".to_owned(), Expr::Callable(Builtin::Drop)));
    d.push(("swap".to_owned(), Expr::Callable(Builtin::Swap)));
    d.push(("pick".to_owned(), Expr::Callable(Builtin::Pick)));
    d.push(("roll".to_owned(), Expr::Callable(Builtin::Roll)));
    d.push(("rot".to_owned(), Expr::Callable(Builtin::Rot)));
    d.push(("over".to_owned(), Expr::Callable(Builtin::Over)));
    d.push(("depth".to_owned(), Expr::Callable(Builtin::Depth)));
    d.push((".s".to_owned(), Expr::Callable(Builtin::PrintStack)));
    d.push(("clearstack".to_owned(), Expr::Callable(Builtin::ClearStack)));
    d.push((">r".to_owned(), Expr::Callable(Builtin::ToReturn)));
    d.push(("r>".to_owned(), Expr::Callable(Builtin::FromReturn)));
    d.push(("r@".to_owned(), Expr::Callable(Builtin::CopyFromReturn)));
    d.push(("constant".to_owned(), Expr::Dummy));
    d.push(("variable".to_owned(), Expr::Dummy));
    d.push(("create".to_owned(), Expr::Dummy));
    d.push(("value".to_owned(), Expr::Dummy));
    d.push(("!".to_owned(), Expr::Callable(Builtin::SetCell)));
    d.push(("@".to_owned(), Expr::Callable(Builtin::Fetch)));
    d.push(("dump".to_owned(), Expr::Callable(Builtin::Dump)));
    d.push(("allot".to_owned(), Expr::Callable(Builtin::Allot)));
    d.push(("here".to_owned(), Expr::Callable(Builtin::Here)));
    d.push((",".to_owned(), Expr::Callable(Builtin::Store)));
    d.push(("cr".to_owned(), Expr::Callable(Builtin::Cr)));
    d.push((".".to_owned(), Expr::Callable(Builtin::Dot)));
    d.push(("char".to_owned(), Expr::Dummy));
    d.push(("emit".to_owned(), Expr::Callable(Builtin::Emit)));
    d.push((".r".to_owned(), Expr::Callable(Builtin::RightAlign)));
    d.push(("if".to_owned(), Expr::Dummy));
    d.push(("then".to_owned(), Expr::Dummy));
    d.push(("else".to_owned(), Expr::Dummy));
    d.push((";".to_owned(), Expr::Dummy));
    d.push((":".to_owned(), Expr::Dummy));
    d.push((".(".to_owned(), Expr::Dummy));
    d.push((".\"".to_owned(), Expr::Dummy));
    d.push(("include".to_owned(), Expr::Dummy));
    d.push(("to".to_owned(), Expr::Dummy));
    d.push(("while".to_owned(), Expr::Callable(Builtin::WhileCond)));
    d.push(("until".to_owned(), Expr::Callable(Builtin::Until)));
    d.push(("begin".to_owned(), Expr::Dummy));
    d.push(("again".to_owned(), Expr::Dummy));
    d.push(("repeat".to_owned(), Expr::Dummy));
    d.push(("do".to_owned(), Expr::Dummy));
    d.push(("loop".to_owned(), Expr::Dummy));
    d.push(("i".to_owned(), Expr::Callable(Builtin::CopyFromReturn)));
    d.push(("j".to_owned(), Expr::Callable(Builtin::LoopJ)));
    d.push(("words".to_owned(), Expr::Callable(Builtin::Words)));
    d.push(("see".to_owned(), Expr::Dummy));
    d.push(("bye".to_owned(), Expr::Callable(Builtin::Bye)));
    d.push(("exit".to_owned(), Expr::Callable(Builtin::Exit)));
    d.push(("quit".to_owned(), Expr::Callable(Builtin::Quit)));
    d.push(("leave".to_owned(), Expr::Callable(Builtin::Leave)));
    d.push(("abort".to_owned(), Expr::Callable(Builtin::Abort)));
    d.push(("recurse".to_owned(), Expr::Callable(Builtin::Recurse)));
    assert(dict_model(d@) =~= builtins());
    d
}

impl Forth {
    /// Constructs a new Forth interpreter whose stack has at least the specified capacity,
    /// with the predefined words in its dictionary.
    pub fn new(capacity: usize) -> (r: Self)
        ensures
            r@ == (State {
                data: Seq::empty(),
                ret: Seq::empty(),
                dict: builtins(),
                mem: Seq::empty(),
                out: Seq::empty(),
                src: Seq::empty(),
            }),
    {
        let mut forth = Forth::empty(capacity);
        forth.dictionary = builtin_dictionary();
        forth
    }
}

} // verus!
