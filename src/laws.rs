use vstd::prelude::*;

use crate::builtins::{builtins, second, step, top, Builtin};
use crate::errors::ErrorModel;
use crate::expressions::{
    drop_index, eval_item, eval_text, run, run_begin, run_function, run_loop, run_seq, settle,
    ExprModel,
};
use crate::forth::{define, latest, lemma_latest, lookup, source_of, with_data, State};
use crate::parser::{
    after_token, advances, ascii_lower, collect_function, function_from, past, Parsed, lemma_next_item_errors, lower_char, lower_seq, next_item, skip_space,
    takes_argument, token, word_end,
};
use crate::text::is_space;
use crate::numbers::{clamp, trunc_div, trunc_rem};
use crate::text::decimal_value;

verus! {

/// `n negate negate` leaves `n` on top, for every `n` but the least `Int`, whose negation
/// saturates.
pub proof fn law_negate_twice(s: State, n: i32, fuel: nat)
    requires
        n != i32::MIN,
        fuel >= 1,
    ensures
        run_seq(
            s,
            seq![ExprModel::Value(n), ExprModel::Callable(Builtin::Negate), ExprModel::Callable(Builtin::Negate)],
            fuel,
            None,
        ) == (with_data(s, s.data.push(n)), Ok::<(), ErrorModel>(())),
{
    reveal_with_fuel(run_seq, 4);
    let body = seq![ExprModel::Value(n), ExprModel::Callable(Builtin::Negate), ExprModel::Callable(Builtin::Negate)];
    let s1 = with_data(s, s.data.push(n));
    let s2 = with_data(s, s.data.push((-n) as i32));
    assert(s1.data.subrange(0, s1.data.len() - 1).push((-n) as i32) =~= s2.data);
    assert(s2.data.subrange(0, s2.data.len() - 1).push(n) =~= s1.data);
    assert(body.drop_first().drop_first().drop_first() =~= Seq::<ExprModel>::empty());
}

proof fn lemma_quotient_times_divisor(x: int, d: int)
    requires
        d != 0,
    ensures
        -(if x < 0 { -x } else { x }) <= trunc_div(x, d) * d <= (if x < 0 { -x } else { x }),
        trunc_div(x, d) * d + trunc_rem(x, d) == x,
{
    if x > 0 && d > 0 {
        assert(0 <= (x / d) * d <= x) by (nonlinear_arith)
            requires
                x > 0,
                d > 0,
        ;
    } else if x < 0 && d < 0 {
        let (a, b) = (x * -1, d * -1);
        assert(0 <= (a / b) * b <= a) by (nonlinear_arith)
            requires
                a > 0,
                b > 0,
        ;
        assert(trunc_div(x, d) * d == -((a / b) * b)) by (nonlinear_arith)
            requires
                b == d * -1,
                trunc_div(x, d) == a / b,
        ;
    } else if x < 0 {
        let a = x * -1;
        assert(0 <= (a / d) * d <= a) by (nonlinear_arith)
            requires
                a > 0,
                d > 0,
        ;
        assert(trunc_div(x, d) * d == -((a / d) * d)) by (nonlinear_arith)
            requires
                trunc_div(x, d) == (a / d) * -1,
        ;
    } else if x > 0 {
        let b = d * -1;
        assert(0 <= (x / b) * b <= x) by (nonlinear_arith)
            requires
                x > 0,
                b > 0,
        ;
        assert(trunc_div(x, d) * d == (x / b) * b) by (nonlinear_arith)
            requires
                b == d * -1,
                trunc_div(x, d) == (x / b) * -1,
        ;
    }
    assert(trunc_div(x, d) * d + trunc_rem(x, d) == x) by (nonlinear_arith);
}

/// `n d /mod swap d * +` gives back `n`, for every divisor `d` but zero, and every pair but
/// the least `Int` divided by -1, whose quotient saturates.
pub proof fn law_div_mod_reconstructs(s: State, n: i32, d: i32, fuel: nat)
    requires
        d != 0,
        !(n == i32::MIN && d == -1),
        fuel >= 1,
    ensures
        run_seq(
            s,
            seq![
                ExprModel::Value(n),
                ExprModel::Value(d),
                ExprModel::Callable(Builtin::DivRem),
                ExprModel::Callable(Builtin::Swap),
                ExprModel::Value(d),
                ExprModel::Callable(Builtin::Mul),
                ExprModel::Callable(Builtin::Add),
            ],
            fuel,
            None,
        ) == (with_data(s, s.data.push(n)), Ok::<(), ErrorModel>(())),
{
    reveal_with_fuel(run_seq, 8);
    lemma_quotient_times_divisor(n as int, d as int);
    crate::numbers::lemma_trunc_rem_cases(n as int, d as int);
    let q = trunc_div(n as int, d as int);
    let r = trunc_rem(n as int, d as int);
    assert(i32::MIN <= q <= i32::MAX) by {
        if d == 1 || d == -1 {
            assert(q == n * d) by (nonlinear_arith)
                requires
                    q * d + r == n,
                    d == 1 || d == -1,
                    -1 < r < 1,
            ;
        } else {
            assert(-0x8000_0000 <= q * d <= 0x8000_0000);
            assert(-0x8000_0000 <= q <= 0x7fff_ffff) by (nonlinear_arith)
                requires
                    -0x8000_0000 <= q * d <= 0x8000_0000,
                    d > 1 || d < -1,
            ;
        }
    }
    let d0 = s.data;
    let s1 = with_data(s, d0.push(n));
    let s2 = with_data(s, d0.push(n).push(d));
    let s3 = with_data(s, d0.push(q as i32).push(r as i32));
    let s4 = with_data(s, d0.push(r as i32).push(q as i32));
    let s5 = with_data(s, d0.push(r as i32).push(q as i32).push(d));
    let s6 = with_data(s, d0.push(r as i32).push((q * d) as i32));
    assert(s2.data.subrange(0, s2.data.len() - 2) + seq![clamp(q), r as i32] =~= s3.data);
    assert(s3.data.subrange(0, s3.data.len() - 2).push(r as i32).push(q as i32) =~= s4.data);
    assert(s5.data.subrange(0, s5.data.len() - 2).push(clamp(q * d)) =~= s6.data);
    assert(s6.data.subrange(0, s6.data.len() - 2).push(clamp(r + q * d)) =~= s1.data);
}

/// `+`, `-` and `*` give the exact result where it is an `Int`, and the nearest limit of
/// `Int` where it is not: never a value outside the range.
pub proof fn law_saturating_arithmetic(s: State, b: Builtin)
    requires
        b == Builtin::Add || b == Builtin::Sub || b == Builtin::Mul,
        s.data.len() >= 2,
    ensures
        ({
            let x = second(s) as int;
            let y = top(s) as int;
            let exact = if b == Builtin::Add {
                x + y
            } else if b == Builtin::Sub {
                x - y
            } else {
                x * y
            };
            let (after, r) = step(b, s);
            &&& r == Ok::<(), ErrorModel>(())
            &&& after.data.last() == clamp(exact)
            &&& i32::MIN <= after.data.last() <= i32::MAX
            &&& (i32::MIN <= exact <= i32::MAX ==> after.data.last() == exact)
            &&& (exact > i32::MAX ==> after.data.last() == i32::MAX)
            &&& (exact < i32::MIN ==> after.data.last() == i32::MIN)
        }),
{
}

/// No primitive fails with an unknown word, and none depends on the dictionary for its data
/// stack or its outcome.
proof fn lemma_step_frame(b: Builtin, s: State, d: Seq<(Seq<char>, ExprModel)>)
    ensures
        !(step(b, s).1 is Err && step(b, s).1->Err_0 is UnknownWord),
        b != Builtin::Exit ==> step(b, s).1 != Err::<(), ErrorModel>(ErrorModel::Exit),
        b != Builtin::Recurse ==> step(b, s).1 != Err::<(), ErrorModel>(ErrorModel::Recurse),
        step(b, State { dict: d, ..s }).0.data == step(b, s).0.data,
        step(b, State { dict: d, ..s }).1 == step(b, s).1,
{
}

/// Every predefined word is a primitive, a value or a compile-time marker.
proof fn lemma_builtin_entries(i: int)
    requires
        0 <= i < builtins().len(),
    ensures
        builtins()[i].1 is Callable || builtins()[i].1 is Value || builtins()[i].1 is Dummy,
{
}

/// A function whose body is one word `w` does to the data stack what `w` does, where `w` is
/// bound to a primitive other than `exit` and `recurse` (which act on the function itself)
/// or to a value.
pub proof fn law_function_of_one_word(s: State, f: Seq<char>, w: Seq<char>, fuel: nat)
    requires
        lookup(s.dict, f) is None,
        lookup(s.dict, w) matches Some(ExprModel::Callable(b)) ==> b != Builtin::Exit && b
            != Builtin::Recurse,
        lookup(s.dict, w) matches Some(x) && (x is Callable || x is Value),
        fuel >= 2,
    ensures
        ({
            let defined = define(s, f, ExprModel::Function(seq![ExprModel::Word(w)])).0;
            let (direct, r1) = run(s, ExprModel::Word(w), fuel, None);
            let (called, r2) = run(defined, ExprModel::Word(f), fuel + 2, None);
            &&& direct.data == called.data
            &&& r1 == r2
        }),
{
    let body = seq![ExprModel::Word(w)];
    let defined = define(s, f, ExprModel::Function(body)).0;
    lemma_latest(s.dict, w);
    assert(f != w);
    assert(defined.dict.drop_last() =~= s.dict);
    assert(latest(defined.dict, w) == latest(s.dict, w));
    assert(lookup(defined.dict, w) == lookup(s.dict, w));
    assert(lookup(defined.dict, f) == Some(ExprModel::Function(body)));
    let x = lookup(s.dict, w)->0;
    let g = (fuel - 1) as nat;
    assert(run(s, ExprModel::Word(w), fuel, None) == run(s, x, g, None));
    assert(run(defined, ExprModel::Word(w), fuel, Some(body)) == run(defined, x, g, Some(body)));
    assert(run(defined, ExprModel::Word(f), fuel + 2, None) == run(defined, ExprModel::Function(body), fuel + 1, None));
    assert(run(defined, ExprModel::Function(body), fuel + 1, None) == run_function(defined, body, fuel));
    reveal_with_fuel(run_seq, 2);
    assert(body.drop_first() =~= Seq::<ExprModel>::empty());
    assert(run_seq(defined, body, fuel, Some(body)) == run(defined, ExprModel::Word(w), fuel, Some(body)));
    if let ExprModel::Callable(b) = x {
        lemma_step_frame(b, s, defined.dict);
        assert(defined == State { dict: defined.dict, ..s });
        assert(run(defined, x, g, Some(body)) == step(b, defined));
        assert(run(s, x, g, None) == step(b, s));
    }
}

/// Before any definition, a word is unknown exactly when it is neither a decimal integer nor
/// a predefined word.
pub proof fn law_recognition(s: State, w: Seq<char>, fuel: nat)
    requires
        s.dict == builtins(),
        fuel >= 2,
    ensures
        (run(s, ExprModel::Word(w), fuel, None).1 == Err::<(), ErrorModel>(ErrorModel::UnknownWord(w)))
            <==> (decimal_value(w) is None && lookup(builtins(), w) is None),
{
    lemma_latest(s.dict, w);
    if lookup(s.dict, w) is Some {
        let i = latest(s.dict, w);
        lemma_builtin_entries(i);
        let x = s.dict[i].1;
        let g = (fuel - 1) as nat;
        assert(run(s, ExprModel::Word(w), fuel, None) == run(s, x, g, None));
        if let ExprModel::Callable(b) = x {
            lemma_step_frame(b, s, s.dict);
            assert(run(s, x, g, None) == step(b, s));
        }
    }
}

/// The change of depth made by a sequence of pushes and drops.
pub open spec fn net(ops: Seq<ExprModel>) -> int
    decreases ops.len(),
{
    if ops.len() == 0 {
        0
    } else {
        (if ops[0] is Value { 1int } else { -1int }) + net(ops.drop_first())
    }
}

/// Every operation pushes a value or drops one.
pub open spec fn pushes_and_drops(ops: Seq<ExprModel>) -> bool {
    forall|i: int| 0 <= i < ops.len() ==> (#[trigger] ops[i] is Value || ops[i] == ExprModel::Callable(Builtin::Drop))
}

/// From a stack of depth `k`, no drop finds the stack empty.
pub open spec fn matched(k: int, ops: Seq<ExprModel>) -> bool
    decreases ops.len(),
{
    if ops.len() == 0 {
        true
    } else {
        let k1 = k + if ops[0] is Value { 1int } else { -1int };
        k1 >= 0 && matched(k1, ops.drop_first())
    }
}

/// After pushes and matching drops, `depth` pushes the depth it started from plus the
/// pushes minus the drops.
pub proof fn law_depth_counts(s: State, ops: Seq<ExprModel>, fuel: nat)
    requires
        pushes_and_drops(ops),
        matched(s.data.len() as int, ops),
        s.data.len() + ops.len() < 0x7fff_ffff,
        fuel >= 1,
    ensures
        run_seq(s, ops.push(ExprModel::Callable(Builtin::Depth)), fuel, None).1 == Ok::<(), ErrorModel>(()),
        run_seq(s, ops.push(ExprModel::Callable(Builtin::Depth)), fuel, None).0.data.last() == s.data.len()
            + net(ops),
    decreases ops.len(),
{
    let all = ops.push(ExprModel::Callable(Builtin::Depth));
    if ops.len() == 0 {
        reveal_with_fuel(run_seq, 2);
        assert(all.drop_first() =~= Seq::<ExprModel>::empty());
    } else {
        let (s1, r) = run(s, ops[0], fuel, None);
        assert(ops[0] is Value || ops[0] == ExprModel::Callable(Builtin::Drop));
        assert(all.drop_first() =~= ops.drop_first().push(ExprModel::Callable(Builtin::Depth)));
        assert(r is Ok);
        assert(s1.data.len() == s.data.len() + if ops[0] is Value { 1int } else { -1int });
        assert forall|i: int| 0 <= i < ops.drop_first().len() implies (#[trigger] ops.drop_first()[i] is Value
            || ops.drop_first()[i] == ExprModel::Callable(Builtin::Drop)) by {
            assert(ops.drop_first()[i] == ops[i + 1]);
        }
        law_depth_counts(s1, ops.drop_first(), fuel);
    }
}

/// `: f ;` defines an empty function, and calling it leaves the state as it was, apart from
/// the new definition.
pub proof fn law_empty_function(s: State, f: Seq<char>, fuel: nat)
    requires
        lookup(s.dict, f) is None,
        fuel >= 3,
    ensures
        run_seq(
            s,
            seq![ExprModel::NewFunction(f, Seq::empty()), ExprModel::Word(f)],
            fuel,
            None,
        ) == (
            State { dict: s.dict.push((f, ExprModel::Function(Seq::empty()))), ..s },
            Ok::<(), ErrorModel>(()),
        ),
{
    reveal_with_fuel(run_seq, 3);
    let body = seq![ExprModel::NewFunction(f, Seq::empty()), ExprModel::Word(f)];
    let s1 = State { dict: s.dict.push((f, ExprModel::Function(Seq::empty()))), ..s };
    assert(s1.dict.drop_last() =~= s.dict);
    assert(lookup(s1.dict, f) == Some(ExprModel::Function(Seq::empty())));
    assert(body.drop_first().drop_first() =~= Seq::<ExprModel>::empty());
    assert(run(s1, ExprModel::Word(f), fuel, None) == run(s1, ExprModel::Function(Seq::empty()), (fuel - 1) as nat, None));
    assert(run_seq(s1, Seq::<ExprModel>::empty(), (fuel - 2) as nat, Some(Seq::<ExprModel>::empty())) == (s1, Ok::<(), ErrorModel>(())));
    assert(run(s1, ExprModel::Function(Seq::empty()), (fuel - 1) as nat, None) == run_function(s1, Seq::empty(), (fuel - 2) as nat));
    assert(run_function(s1, Seq::empty(), (fuel - 2) as nat) == (s1, Ok::<(), ErrorModel>(())));
    assert(run(s, body[0], fuel, None) == (s1, Ok::<(), ErrorModel>(())));
    assert(run_seq(s1, body.drop_first(), fuel, None) == run(s1, ExprModel::Word(f), fuel, None)) by {
        assert(body.drop_first()[0] == ExprModel::Word(f));
    }
}

/// An error that ends the evaluation of a text leaves the data stack empty, and is never
/// `leave`, `exit` or `quit`, which the top level swallows.
pub proof fn law_text_errors(s: State, cs: Seq<char>, p: int, fuel: nat)
    ensures
        eval_text(s, cs, p, fuel).1 matches Err(e) ==> eval_text(s, cs, p, fuel).0.data.len() == 0
            && !(e is Leave || e is Exit || e is Quit),
    decreases cs.len() - p,
{
    let sp = next_item(cs, p);
    lemma_next_item_errors(cs, p);
    let (s1, r) = eval_item(s, sp, fuel);
    if r == Some(Ok::<(), ErrorModel>(())) && advances(cs, p, sp.pos) {
        law_text_errors(s1, cs, sp.pos, fuel);
    }
}

/// No two definitions share a name.
pub open spec fn unique_names(d: Seq<(Seq<char>, ExprModel)>) -> bool {
    forall|i: int, j: int| 0 <= i < j < d.len() ==> #[trigger] d[i].0 != #[trigger] d[j].0
}

proof fn lemma_absent(d: Seq<(Seq<char>, ExprModel)>, name: Seq<char>, i: int)
    requires
        latest(d, name) == -1,
        0 <= i < d.len(),
    ensures
        d[i].0 != name,
    decreases d.len(),
{
    if i < d.len() - 1 {
        lemma_absent(d.drop_last(), name, i);
    }
}

/// Defining a word keeps the names of the dictionary unique.
pub proof fn law_define_keeps_names_unique(s: State, name: Seq<char>, e: ExprModel)
    requires
        unique_names(s.dict),
    ensures
        unique_names(define(s, name, e).0.dict),
{
    lemma_latest(s.dict, name);
    if lookup(s.dict, name) is None {
        let d = s.dict.push((name, e));
        assert forall|i: int, j: int| 0 <= i < j < d.len() implies #[trigger] d[i].0 != #[trigger] d[j].0 by {
            if j == d.len() - 1 {
                lemma_absent(s.dict, name, i);
            }
        }
    }
}

/// Whether the token is one that the parser reads as more than a word.
pub open spec fn is_keyword(w: Seq<char>) -> bool {
    w == "("@ || w == "\\"@ || w == "char"@ || w == ".("@ || w == ".\""@ || w == ":"@ || w
        == "if"@ || w == "begin"@ || w == "do"@ || takes_argument(w)
}

/// A lowercase ASCII token: no white space, no capital letter.
pub open spec fn plain_token(w: Seq<char>) -> bool {
    &&& w.len() > 0
    &&& forall|i: int|
        0 <= i < w.len() ==> !is_space(#[trigger] w[i]) && (w[i] as u32) < 128 && !('A' <= w[i]
            && w[i] <= 'Z')
}

proof fn lemma_word_end(cs: Seq<char>, p: int)
    requires
        0 <= p <= cs.len(),
        forall|i: int| 0 <= i < cs.len() ==> !is_space(#[trigger] cs[i]),
    ensures
        word_end(cs, p) == cs.len(),
    decreases cs.len() - p,
{
    if p < cs.len() {
        lemma_word_end(cs, p + 1);
    }
}

proof fn lemma_lower_plain(w: Seq<char>)
    requires
        forall|i: int| 0 <= i < w.len() ==> (#[trigger] w[i] as u32) < 128 && !('A' <= w[i] && w[i] <= 'Z'),
    ensures
        lower_seq(w) == w,
    decreases w.len(),
{
    if w.len() > 0 {
        let c = w.last();
        assert(c == w[w.len() - 1]);
        assert(ascii_lower(c) == c);
        assert(lower_char(c) == seq![c]);
        lemma_lower_plain(w.drop_last());
        assert(w.drop_last().push(c) =~= w);
    }
}

/// A plain token typed alone into a fresh interpreter fails as an unknown word exactly when it
/// is neither a decimal integer nor a predefined word.
pub proof fn law_recognition_text(s: State, w: Seq<char>, fuel: nat)
    requires
        s.dict == builtins(),
        plain_token(w),
        !is_keyword(w),
        fuel >= 2,
    ensures
        (eval_text(s, w, 0, fuel).1 == Err::<(), ErrorModel>(ErrorModel::UnknownWord(w))) <==> (
        decimal_value(w) is None && lookup(builtins(), w) is None),
        lookup(builtins(), w) is None && decimal_value(w) is Some ==> eval_text(s, w, 0, fuel) == (
            with_data(s, s.data.push(decimal_value(w)->0)),
            Ok::<(), ErrorModel>(()),
        ),
{
    let n = w.len() as int;
    lemma_word_end(w, 0);
    lemma_word_end(w, n);
    assert(w.subrange(0, n) =~= w);
    lemma_lower_plain(w);
    assert(skip_space(w, 0) == 0);
    assert(token(w, 0) == w);
    assert(skip_space(w, n) == n);
    assert(w.subrange(n, n) =~= Seq::<char>::empty());
    assert(token(w, n) == Seq::<char>::empty());
    let sp = next_item(w, 0);
    assert(sp.item == Some(Ok::<ExprModel, ErrorModel>(ExprModel::Word(w))));
    assert(sp.pos == n);
    assert(next_item(w, n).item is None);
    let s1 = State { out: s.out + sp.printed, ..s };
    assert(s1.out =~= s.out);
    assert(s1 == s);
    law_recognition(s, w, fuel);
    let (s2, r2) = run(s, ExprModel::Word(w), fuel, None);
    let (s3, r3) = settle(s2, r2);
    assert(eval_item(s, sp, fuel) == (s3, Some(r3)));
    if r3 is Ok {
        assert(advances(w, 0, n));
        assert(eval_text(s, w, 0, fuel) == eval_text(s3, w, n, fuel));
        let sp2 = next_item(w, n);
        assert(sp2.item is None);
        assert(sp2.printed == Seq::<char>::empty());
        assert(s3.out + sp2.printed =~= s3.out);
        assert(eval_item(s3, sp2, fuel) == (s3, None::<Result<(), ErrorModel>>));
        assert(eval_text(s3, w, n, fuel) == (s3, Ok::<(), ErrorModel>(())));
    } else {
        assert(eval_text(s, w, 0, fuel).1 == r3);
        assert(r3 == Err::<(), ErrorModel>(ErrorModel::UnknownWord(w)) <==> r2 == Err::<(), ErrorModel>(ErrorModel::UnknownWord(w)));
    }
}

proof fn lemma_step_keeps_dict(b: Builtin, s: State)
    ensures
        step(b, s).0.dict == s.dict,
{
}

proof fn lemma_define_names(s: State, name: Seq<char>, e: ExprModel)
    requires
        unique_names(s.dict),
    ensures
        unique_names(define(s, name, e).0.dict),
{
    law_define_keeps_names_unique(s, name, e);
}

/// Evaluating an expression keeps the names of the dictionary unique.
pub proof fn law_run_keeps_names_unique(s: State, e: ExprModel, fuel: nat, cur: Option<Seq<ExprModel>>)
    requires
        unique_names(s.dict),
    ensures
        unique_names(run(s, e, fuel, cur).0.dict),
    decreases fuel, 0int, 0int,
{
    if fuel > 0 {
        let f = (fuel - 1) as nat;
        match e {
            ExprModel::Word(w) => {
                if let Some(x) = lookup(s.dict, w) {
                    law_run_keeps_names_unique(s, x, f, cur);
                }
            },
            ExprModel::Callable(b) => {
                if b == Builtin::Recurse && cur is Some {
                    lemma_function_names(s, cur->0, f);
                } else {
                    lemma_step_keeps_dict(b, s);
                }
            },
            ExprModel::NewFunction(name, body) => lemma_define_names(s, name, ExprModel::Function(body)),
            ExprModel::Function(body) => lemma_function_names(s, body, f),
            ExprModel::IfElseThen(t, o) => {
                if s.data.len() >= 1 {
                    let s1 = with_data(s, s.data.subrange(0, s.data.len() - 1));
                    lemma_seq_names(s1, t, f, cur);
                    lemma_seq_names(s1, o, f, cur);
                }
            },
            ExprModel::Begin(body) => lemma_begin_names(s, body, f, cur),
            ExprModel::Loop(body) => {
                if s.data.len() >= 2 {
                    let s1 = with_data(s, s.data.subrange(0, s.data.len() - 2));
                    lemma_loop_names(s1, body, s.data.last() as int, s.data[s.data.len() - 2] as int, f, cur);
                }
            },
            ExprModel::NewConstant(name) => {
                if s.data.len() >= 1 {
                    lemma_define_names(with_data(s, s.data.subrange(0, s.data.len() - 1)), name, ExprModel::Value(s.data.last()));
                }
            },
            ExprModel::NewValue(name) => {
                if s.data.len() >= 1 {
                    lemma_define_names(with_data(s, s.data.subrange(0, s.data.len() - 1)), name, ExprModel::Value(s.data.last()));
                }
            },
            ExprModel::NewVariable(name) => lemma_define_names(
                State { mem: s.mem.push(0), ..s },
                name,
                ExprModel::Value(s.mem.len() as i32),
            ),
            ExprModel::NewCreate(name) => lemma_define_names(s, name, ExprModel::Value(s.mem.len() as i32)),
            ExprModel::ToValue(name) => {
                lemma_latest(s.dict, name);
                if s.data.len() >= 1 && lookup(s.dict, name) is Some {
                    let i = latest(s.dict, name);
                    let d = s.dict.update(i, (name, ExprModel::Value(s.data.last())));
                    assert forall|a: int, b: int| 0 <= a < b < d.len() implies #[trigger] d[a].0 != #[trigger] d[b].0 by {
                        assert(d[a].0 == s.dict[a].0);
                        assert(d[b].0 == s.dict[b].0);
                    }
                }
            },
            ExprModel::Include(path) => {
                if let Some(Ok(text)) = source_of(s.src, path) {
                    lemma_text_names(s, text, 0, f);
                }
            },
            _ => {},
        }
    }
}

proof fn lemma_seq_names(s: State, body: Seq<ExprModel>, fuel: nat, cur: Option<Seq<ExprModel>>)
    requires
        unique_names(s.dict),
    ensures
        unique_names(run_seq(s, body, fuel, cur).0.dict),
    decreases fuel, 1int, body.len(),
{
    if body.len() > 0 {
        law_run_keeps_names_unique(s, body[0], fuel, cur);
        let (s1, r) = run(s, body[0], fuel, cur);
        if r is Ok {
            lemma_seq_names(s1, body.drop_first(), fuel, cur);
        }
    }
}

proof fn lemma_function_names(s: State, body: Seq<ExprModel>, fuel: nat)
    requires
        unique_names(s.dict),
    ensures
        unique_names(run_function(s, body, fuel).0.dict),
    decreases fuel, 2int, 0int,
{
    lemma_seq_names(s, body, fuel, Some(body));
}

proof fn lemma_begin_names(s: State, body: Seq<ExprModel>, fuel: nat, cur: Option<Seq<ExprModel>>)
    requires
        unique_names(s.dict),
    ensures
        unique_names(run_begin(s, body, fuel, cur).0.dict),
    decreases fuel, 2int, 0int,
{
    lemma_seq_names(s, body, fuel, cur);
    let (s1, r) = run_seq(s, body, fuel, cur);
    if r is Ok && fuel > 0 {
        lemma_begin_names(s1, body, (fuel - 1) as nat, cur);
    }
}

proof fn lemma_loop_names(
    s: State,
    body: Seq<ExprModel>,
    i: int,
    limit: int,
    fuel: nat,
    cur: Option<Seq<ExprModel>>,
)
    requires
        unique_names(s.dict),
    ensures
        unique_names(run_loop(s, body, i, limit, fuel, cur).0.dict),
    decreases fuel, 2int, limit - i,
{
    if i < limit {
        let s0 = State { ret: s.ret.push(i as i32), ..s };
        lemma_seq_names(s0, body, fuel, cur);
        let (s1, r) = run_seq(s0, body, fuel, cur);
        if r is Ok {
            lemma_loop_names(drop_index(s1), body, i + 1, limit, fuel, cur);
        }
    }
}

proof fn lemma_item_names(s: State, cs: Seq<char>, p: int, fuel: nat)
    requires
        unique_names(s.dict),
    ensures
        unique_names(eval_item(s, next_item(cs, p), fuel).0.dict),
    decreases fuel, 3int, 0int,
{
    let sp = next_item(cs, p);
    let s1 = State { out: s.out + sp.printed, ..s };
    if let Some(Ok(x)) = sp.item {
        law_run_keeps_names_unique(s1, x, fuel, None);
    }
}

proof fn lemma_text_names(s: State, cs: Seq<char>, p: int, fuel: nat)
    requires
        unique_names(s.dict),
    ensures
        unique_names(eval_text(s, cs, p, fuel).0.dict),
    decreases fuel, 4int, cs.len() - p,
{
    lemma_item_names(s, cs, p, fuel);
    let sp = next_item(cs, p);
    let (s1, r) = eval_item(s, sp, fuel);
    if r == Some(Ok::<(), ErrorModel>(())) && advances(cs, p, sp.pos) {
        lemma_text_names(s1, cs, sp.pos, fuel);
    }
}

/// Evaluating a text, as `eval_string` does, keeps the names of the dictionary unique.
pub proof fn law_text_keeps_names_unique(s: State, cs: Seq<char>, fuel: nat)
    requires
        unique_names(s.dict),
    ensures
        unique_names(eval_text(s, cs, 0, fuel).0.dict),
{
    lemma_text_names(s, cs, 0, fuel);
}

proof fn lemma_word_end_at(cs: Seq<char>, p: int, q: int)
    requires
        0 <= p <= q <= cs.len(),
        forall|k: int| p <= k < q ==> !is_space(#[trigger] cs[k]),
        q == cs.len() || is_space(cs[q]),
    ensures
        word_end(cs, p) == q,
    decreases q - p,
{
    if p < q {
        lemma_word_end_at(cs, p + 1, q);
    }
}

proof fn lemma_keywords_revealed()
    ensures
        "("@ == seq!['('],
        "\\"@ == seq!['\\'],
        "char"@ == seq!['c', 'h', 'a', 'r'],
        ".("@ == seq!['.', '('],
        ".\""@ == seq!['.', '"'],
        ":"@ == seq![':'],
        ";"@ == seq![';'],
        "if"@ == seq!['i', 'f'],
        "begin"@ == seq!['b', 'e', 'g', 'i', 'n'],
        "do"@ == seq!['d', 'o'],
        "variable"@.len() == 8,
        "create"@.len() == 6,
        "constant"@.len() == 8,
        "value"@.len() == 5,
        "to"@ == seq!['t', 'o'],
        "include"@.len() == 7,
        "see"@.len() == 3,
{
    reveal_strlit("(");
    reveal_strlit("\\");
    reveal_strlit("char");
    reveal_strlit(".(");
    reveal_strlit(".\"");
    reveal_strlit(":");
    reveal_strlit(";");
    reveal_strlit("if");
    reveal_strlit("begin");
    reveal_strlit("do");
    reveal_strlit("variable");
    reveal_strlit("create");
    reveal_strlit("constant");
    reveal_strlit("value");
    reveal_strlit("to");
    reveal_strlit("include");
    reveal_strlit("see");
}

/// The text `: f ; f`, for a name `f`.
pub open spec fn empty_function_text(f: Seq<char>) -> Seq<char> {
    seq![':', ' '] + f + seq![' ', ';', ' '] + f
}

/// `: f ; f`, typed where `f` is not defined, defines `f` as an empty function and calls it:
/// the stacks, the memory and the output stay as they were.
pub proof fn law_empty_function_text(s: State, f: Seq<char>, fuel: nat)
    requires
        plain_token(f),
        !is_keyword(f),
        f != ";"@,
        lookup(s.dict, f) is None,
        fuel >= 3,
    ensures
        eval_text(s, empty_function_text(f), 0, fuel) == (
            State { dict: s.dict.push((f, ExprModel::Function(Seq::empty()))), ..s },
            Ok::<(), ErrorModel>(()),
        ),
{
    lemma_keywords_revealed();
    let cs = empty_function_text(f);
    let n = f.len() as int;
    let len = cs.len() as int;
    assert(len == 2 * n + 5);
    assert forall|k: int| 0 <= k < n implies cs[2 + k] == f[k] && cs[5 + n + k] == f[k] by {}
    assert(cs[0] == ':' && cs[1] == ' ' && cs[2 + n] == ' ' && cs[3 + n] == ';' && cs[4 + n] == ' ');
    // the first token, `:`
    lemma_word_end_at(cs, 0, 1);
    assert(cs.subrange(0, 1) =~= seq![':']);
    assert(lower_seq(seq![':']) == seq![':']) by {
        lemma_lower_plain(seq![':']);
    }
    assert(token(cs, 0) == ":"@);
    assert(after_token(cs, 0) == 2);
    // the name
    assert forall|k: int| 2 <= k < 2 + n implies !is_space(#[trigger] cs[k]) by {
        assert(cs[k] == f[k - 2]);
    }
    lemma_word_end_at(cs, 2, 2 + n);
    assert(cs.subrange(2, 2 + n) =~= f);
    lemma_lower_plain(f);
    assert(skip_space(cs, 2) == 2) by {
        assert(cs[2] == f[0]);
    }
    assert(token(cs, 2) == f);
    assert(after_token(cs, 2) == 3 + n);
    // the `;`
    lemma_word_end_at(cs, 3 + n, 4 + n);
    assert(cs.subrange(3 + n, 4 + n) =~= seq![';']);
    assert(lower_seq(seq![';']) == seq![';']) by {
        lemma_lower_plain(seq![';']);
    }
    assert(skip_space(cs, 3 + n) == 3 + n);
    assert(token(cs, 3 + n) == ";"@);
    assert(!takes_argument(";"@));
    let semi = next_item(cs, 3 + n);
    assert(semi == Parsed { item: Some(Ok(ExprModel::Word(";"@))), pos: 5 + n, printed: Seq::empty() });
    assert(collect_function(cs, 3 + n, f, Seq::empty()).item == Some(
        Ok::<ExprModel, ErrorModel>(ExprModel::NewFunction(f, Seq::empty())),
    ));
    let first = next_item(cs, 0);
    assert(first == function_from(cs, 2));
    assert(first.item == Some(Ok::<ExprModel, ErrorModel>(ExprModel::NewFunction(f, Seq::empty()))));
    assert(first.pos == 5 + n);
    assert(first.printed == Seq::<char>::empty());
    // the call
    assert forall|k: int| 5 + n <= k < len implies !is_space(#[trigger] cs[k]) by {
        assert(cs[k] == f[k - 5 - n]);
    }
    lemma_word_end_at(cs, 5 + n, len);
    assert(cs.subrange(5 + n, len) =~= f);
    assert(skip_space(cs, 5 + n) == 5 + n) by {
        assert(cs[5 + n] == f[0]);
    }
    assert(token(cs, 5 + n) == f);
    let second = next_item(cs, 5 + n);
    assert(second.item == Some(Ok::<ExprModel, ErrorModel>(ExprModel::Word(f))));
    assert(second.pos == len);
    // the end
    assert(skip_space(cs, len) == len);
    lemma_word_end_at(cs, len, len);
    assert(cs.subrange(len, len) =~= Seq::<char>::empty());
    assert(next_item(cs, len).item is None);
    // evaluation
    let s0 = State { out: s.out + Seq::<char>::empty(), ..s };
    assert(s0.out =~= s.out);
    let s1 = State { dict: s.dict.push((f, ExprModel::Function(Seq::empty()))), ..s };
    assert(s1.dict.drop_last() =~= s.dict);
    assert(lookup(s1.dict, f) == Some(ExprModel::Function(Seq::empty())));
    assert(run(s, ExprModel::NewFunction(f, Seq::empty()), fuel, None) == (s1, Ok::<(), ErrorModel>(())));
    assert(eval_item(s, first, fuel) == (s1, Some(Ok::<(), ErrorModel>(()))));
    assert(run(s1, ExprModel::Word(f), fuel, None) == run(s1, ExprModel::Function(Seq::empty()), (fuel - 1) as nat, None));
    assert(run_seq(s1, Seq::<ExprModel>::empty(), (fuel - 2) as nat, Some(Seq::<ExprModel>::empty())) == (s1, Ok::<(), ErrorModel>(())));
    assert(run_function(s1, Seq::empty(), (fuel - 2) as nat) == (s1, Ok::<(), ErrorModel>(())));
    let s2 = State { out: s1.out + second.printed, ..s1 };
    assert(s2.out =~= s1.out);
    assert(eval_item(s1, second, fuel) == (s1, Some(Ok::<(), ErrorModel>(()))));
    let fin = next_item(cs, len);
    assert(fin.printed == Seq::<char>::empty());
    assert(s1.out + fin.printed =~= s1.out);
    assert(eval_item(s1, fin, fuel) == (s1, None::<Result<(), ErrorModel>>));
    assert(eval_text(s1, cs, len, fuel) == (s1, Ok::<(), ErrorModel>(())));
    assert(eval_text(s1, cs, 5 + n, fuel) == eval_text(s1, cs, len, fuel));
}

} // verus!
