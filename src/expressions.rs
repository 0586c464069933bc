use vstd::prelude::*;

use crate::builtins::{below, call, fail, ok, second, step, top, Builtin};
use crate::errors::{outcome, Error, ErrorModel, Outcome};
use crate::forth::{
    define, dict_model, latest, lemma_latest, lookup, source_of, with_data, Forth, State,
};
use crate::parser::{advances, next_item, Parsed, Parser};
use crate::numbers::Int;
use crate::text::{decimal, decimal_value, parse_int, push_decimal, push_text};

verus! {

/// A node of a parsed program.
#[derive(Debug, PartialEq)]
pub enum Expr {
    /// Execute the entry of this word, or push it as a number.
    Word(String),
    /// The string that is printed.
    Print(String),
    /// Push the character code to the stack.
    Char(Int),
    /// A primitive of the interpreter.
    Callable(Builtin),
    /// Name a function with this body.
    NewFunction(String, Vec<Expr>),
    /// A function that can be executed.
    Function(Function),
    /// If-else-then block.
    IfElseThen(IfElseThen),
    /// Begin loop.
    Begin(Begin),
    /// Do loop.
    Loop(Loop),
    /// Create a new constant from the top of the stack.
    NewConstant(String),
    /// Push the value to the stack.
    Value(Int),
    /// Allocate a memory cell and name its address.
    NewVariable(String),
    /// Name the current end of memory.
    NewCreate(String),
    /// Create a new value from the top of the stack.
    NewValue(String),
    /// Update the value.
    ToValue(String),
    /// Read a script from the path.
    Include(String),
    /// Display the content of the word.
    See(String),
    /// Placeholder for a reserved word.
    Dummy,
}

/// The body of a named function.
#[derive(Debug, PartialEq)]
pub struct Function {
    pub body: Vec<Expr>,
}

/// A conditional: `then_body` runs on a true flag, `else_body` on a false one.
#[derive(Debug, PartialEq)]
pub struct IfElseThen {
    pub then_body: Vec<Expr>,
    pub else_body: Vec<Expr>,
}

/// A loop that runs until it is left.
#[derive(Debug, PartialEq)]
pub struct Begin {
    pub body: Vec<Expr>,
}

/// A counted loop over the index range taken from the stack.
#[derive(Debug, PartialEq)]
pub struct Loop {
    pub body: Vec<Expr>,
}

/// The mathematical form of an [`Expr`].
pub enum ExprModel {
    Word(Seq<char>),
    Print(Seq<char>),
    Char(i32),
    Callable(Builtin),
    NewFunction(Seq<char>, Seq<ExprModel>),
    Function(Seq<ExprModel>),
    IfElseThen(Seq<ExprModel>, Seq<ExprModel>),
    Begin(Seq<ExprModel>),
    Loop(Seq<ExprModel>),
    NewConstant(Seq<char>),
    Value(i32),
    NewVariable(Seq<char>),
    NewCreate(Seq<char>),
    NewValue(Seq<char>),
    ToValue(Seq<char>),
    Include(Seq<char>),
    See(Seq<char>),
    Dummy,
}

/// The model of an expression.
pub open spec fn model_of(e: Expr) -> ExprModel
    decreases e,
{
    match e {
        Expr::Word(s) => ExprModel::Word(s@),
        Expr::Print(s) => ExprModel::Print(s@),
        Expr::Char(c) => ExprModel::Char(c),
        Expr::Callable(b) => ExprModel::Callable(b),
        Expr::NewFunction(s, body) => ExprModel::NewFunction(s@, models_of(body@)),
        Expr::Function(f) => ExprModel::Function(models_of(f.body@)),
        Expr::IfElseThen(b) => ExprModel::IfElseThen(models_of(b.then_body@), models_of(b.else_body@)),
        Expr::Begin(b) => ExprModel::Begin(models_of(b.body@)),
        Expr::Loop(b) => ExprModel::Loop(models_of(b.body@)),
        Expr::NewConstant(s) => ExprModel::NewConstant(s@),
        Expr::Value(v) => ExprModel::Value(v),
        Expr::NewVariable(s) => ExprModel::NewVariable(s@),
        Expr::NewCreate(s) => ExprModel::NewCreate(s@),
        Expr::NewValue(s) => ExprModel::NewValue(s@),
        Expr::ToValue(s) => ExprModel::ToValue(s@),
        Expr::Include(s) => ExprModel::Include(s@),
        Expr::See(s) => ExprModel::See(s@),
        Expr::Dummy => ExprModel::Dummy,
    }
}

/// The models of a sequence of expressions.
pub open spec fn models_of(s: Seq<Expr>) -> Seq<ExprModel>
    decreases s,
{
    if s.len() == 0 {
        Seq::empty()
    } else {
        models_of(s.drop_last()).push(model_of(s.last()))
    }
}

/// The model of a sequence gains one entry per pushed expression.
pub proof fn lemma_models_push(s: Seq<Expr>, e: Expr)
    ensures
        models_of(s.push(e)) == models_of(s).push(model_of(e)),
{
    assert(s.push(e).drop_last() =~= s);
}

/// A copy of every expression in `v`, in order.
pub fn copy_all(v: &Vec<Expr>) -> (r: Vec<Expr>)
    ensures
        models_of(r@) == models_of(v@),
    decreases *v, 1int,
{
    let mut r: Vec<Expr> = Vec::new();
    let mut i: usize = 0;
    while i < v.len()
        invariant
            i <= v.len(),
            models_of(r@) == models_of(v@.subrange(0, i as int)),
        decreases v.len() - i,
    {
        assert(decreases_to!(*v => v@[i as int]));
        let e = v[i].deep_copy();
        proof {
            lemma_models_push(r@, e);
            lemma_models_push(v@.subrange(0, i as int), v@[i as int]);
            assert(v@.subrange(0, i as int).push(v@[i as int]) =~= v@.subrange(0, i + 1));
        }
        r.push(e);
        i += 1;
    }
    assert(v@.subrange(0, v.len() as int) =~= v@);
    r
}

impl Expr {
    /// A copy of the expression and all that it holds.
    pub fn deep_copy(&self) -> (r: Expr)
        ensures
            r@ == self@,
        decreases *self, 0int,
    {
        match self {
            Expr::Word(s) => Expr::Word(s.clone()),
            Expr::Print(s) => Expr::Print(s.clone()),
            Expr::Char(c) => Expr::Char(*c),
            Expr::Callable(b) => Expr::Callable(*b),
            Expr::NewFunction(s, body) => Expr::NewFunction(s.clone(), copy_all(body)),
            Expr::Function(f) => Expr::Function(Function { body: copy_all(&f.body) }),
            Expr::IfElseThen(b) => Expr::IfElseThen(
                IfElseThen { then_body: copy_all(&b.then_body), else_body: copy_all(&b.else_body) },
            ),
            Expr::Begin(b) => Expr::Begin(Begin { body: copy_all(&b.body) }),
            Expr::Loop(b) => Expr::Loop(Loop { body: copy_all(&b.body) }),
            Expr::NewConstant(s) => Expr::NewConstant(s.clone()),
            Expr::Value(v) => Expr::Value(*v),
            Expr::NewVariable(s) => Expr::NewVariable(s.clone()),
            Expr::NewCreate(s) => Expr::NewCreate(s.clone()),
            Expr::NewValue(s) => Expr::NewValue(s.clone()),
            Expr::ToValue(s) => Expr::ToValue(s.clone()),
            Expr::Include(s) => Expr::Include(s.clone()),
            Expr::See(s) => Expr::See(s.clone()),
            Expr::Dummy => Expr::Dummy,
        }
    }
}

impl View for Expr {
    type V = ExprModel;

    open spec fn view(&self) -> ExprModel {
        model_of(*self)
    }
}

/// The models of a sequence, entry by entry.
pub proof fn lemma_models_index(s: Seq<Expr>)
    ensures
        models_of(s).len() == s.len(),
        forall|i: int| 0 <= i < s.len() ==> #[trigger] models_of(s)[i] == model_of(s[i]),
    decreases s.len(),
{
    if s.len() > 0 {
        lemma_models_index(s.drop_last());
    }
}

/// The text that `see` shows for an expression.
pub open spec fn render(e: ExprModel) -> Seq<char>
    decreases e,
{
    match e {
        ExprModel::Word(w) => w,
        ExprModel::Print(t) => ".\" "@ + t + "\""@,
        ExprModel::Char(v) => "char "@ + decimal(v as int),
        ExprModel::Callable(_) => "<primitive>"@,
        ExprModel::NewFunction(n, b) => ": "@ + n + " "@ + render_all(b) + " ;"@,
        ExprModel::Function(b) => render_all(b),
        ExprModel::IfElseThen(t, o) => if o.len() == 0 {
            "if "@ + render_all(t) + " then"@
        } else {
            "if "@ + render_all(t) + " else "@ + render_all(o) + " then"@
        },
        ExprModel::Begin(b) => "begin "@ + render_all(b),
        ExprModel::Loop(b) => "do "@ + render_all(b) + " loop"@,
        ExprModel::NewConstant(n) => "constant "@ + n,
        ExprModel::Value(v) => decimal(v as int),
        ExprModel::NewVariable(n) => "variable "@ + n,
        ExprModel::NewCreate(n) => "create "@ + n,
        ExprModel::NewValue(n) => "value "@ + n,
        ExprModel::ToValue(n) => "to "@ + n,
        ExprModel::Include(p) => "include "@ + p,
        ExprModel::See(n) => "see "@ + n,
        ExprModel::Dummy => "<special word>"@,
    }
}

/// The texts of a sequence of expressions, separated by single spaces.
pub open spec fn render_all(s: Seq<ExprModel>) -> Seq<char>
    decreases s,
{
    if s.len() == 0 {
        Seq::empty()
    } else if s.len() == 1 {
        render(s[0])
    } else {
        render_all(s.drop_last()) + " "@ + render(s.last())
    }
}

/// What `see name` does.
pub open spec fn see(s: State, name: Seq<char>) -> (State, Outcome) {
    match lookup(s.dict, name) {
        None => fail(s, ErrorModel::UnknownWord(name)),
        Some(ExprModel::Dummy) => ok(
            State { out: s.out + "<special word: "@ + name + ">"@, ..s },
        ),
        Some(ExprModel::Function(b)) => ok(
            State { out: s.out + ": "@ + name + " "@ + render_all(b) + " ;"@, ..s },
        ),
        Some(x) => ok(State { out: s.out + render(x), ..s }),
    }
}

/// The state with the top of the return stack taken away, if there is one.
pub open spec fn drop_index(s: State) -> State {
    if s.ret.len() > 0 {
        State { ret: s.ret.drop_last(), ..s }
    } else {
        s
    }
}

/// The body that `recurse` calls: that of the innermost running function, if any.
pub open spec fn cur_model(current: Option<&Vec<Expr>>) -> Option<Seq<ExprModel>> {
    match current {
        Some(body) => Some(models_of(body@)),
        None => None,
    }
}

/// Evaluating `e` from state `s`, nesting at most `fuel` deep, within the function whose
/// body is `cur`, if any.
pub open spec fn run(s: State, e: ExprModel, fuel: nat, cur: Option<Seq<ExprModel>>) -> (
    State,
    Outcome,
)
    decreases fuel, 0int, 0int,
{
    if fuel == 0 {
        fail(s, ErrorModel::StepLimit)
    } else {
        let f = (fuel - 1) as nat;
        match e {
            ExprModel::Word(w) => match lookup(s.dict, w) {
                Some(x) => run(s, x, f, cur),
                None => match decimal_value(w) {
                    Some(v) => ok(with_data(s, s.data.push(v))),
                    None => fail(s, ErrorModel::UnknownWord(w)),
                },
            },
            ExprModel::Print(t) => ok(State { out: s.out + t, ..s }),
            ExprModel::Char(c) => ok(with_data(s, s.data.push(c))),
            ExprModel::Callable(b) => if b == Builtin::Recurse && cur is Some {
                run_function(s, cur->0, f)
            } else {
                step(b, s)
            },
            ExprModel::NewFunction(name, body) => define(s, name, ExprModel::Function(body)),
            ExprModel::Function(body) => run_function(s, body, f),
            ExprModel::IfElseThen(t, o) => if s.data.len() < 1 {
                fail(s, ErrorModel::StackUnderflow)
            } else if top(s) != 0 {
                run_seq(with_data(s, below(s, 1)), t, f, cur)
            } else {
                run_seq(with_data(s, below(s, 1)), o, f, cur)
            },
            ExprModel::Begin(body) => run_begin(s, body, f, cur),
            ExprModel::Loop(body) => if s.data.len() < 2 {
                fail(with_data(s, Seq::empty()), ErrorModel::StackUnderflow)
            } else {
                run_loop(with_data(s, below(s, 2)), body, top(s) as int, second(s) as int, f, cur)
            },
            ExprModel::NewConstant(name) => if s.data.len() < 1 {
                fail(s, ErrorModel::StackUnderflow)
            } else {
                define(with_data(s, below(s, 1)), name, ExprModel::Value(top(s)))
            },
            ExprModel::Value(v) => ok(with_data(s, s.data.push(v))),
            ExprModel::NewVariable(name) => define(
                State { mem: s.mem.push(0), ..s },
                name,
                ExprModel::Value(s.mem.len() as i32),
            ),
            ExprModel::NewCreate(name) => define(s, name, ExprModel::Value(s.mem.len() as i32)),
            ExprModel::NewValue(name) => if s.data.len() < 1 {
                fail(s, ErrorModel::StackUnderflow)
            } else {
                define(with_data(s, below(s, 1)), name, ExprModel::Value(top(s)))
            },
            ExprModel::ToValue(name) => if s.data.len() < 1 {
                fail(s, ErrorModel::StackUnderflow)
            } else {
                let s1 = with_data(s, below(s, 1));
                match lookup(s1.dict, name) {
                    Some(ExprModel::Value(_)) => ok(
                        State {
                            dict: s1.dict.update(
                                latest(s1.dict, name),
                                (name, ExprModel::Value(top(s))),
                            ),
                            ..s1
                        },
                    ),
                    Some(_) => fail(s1, ErrorModel::InvalidName(name)),
                    None => fail(s1, ErrorModel::UnknownWord(name)),
                }
            },
            ExprModel::Include(path) => match source_of(s.src, path) {
                None => fail(s, ErrorModel::Include(path)),
                Some(Err(msg)) => fail(s, ErrorModel::CustomError(msg)),
                Some(Ok(text)) => eval_text(s, text, 0, f),
            },
            ExprModel::See(name) => see(s, name),
            ExprModel::Dummy => fail(s, ErrorModel::CompileTimeWord),
        }
    }
}

/// Evaluating the expressions of `body` in order, up to the first failure.
pub open spec fn run_seq(
    s: State,
    body: Seq<ExprModel>,
    fuel: nat,
    cur: Option<Seq<ExprModel>>,
) -> (State, Outcome)
    decreases fuel, 1int, body.len(),
{
    if body.len() == 0 {
        ok(s)
    } else {
        let (s1, r) = run(s, body[0], fuel, cur);
        if r is Err {
            (s1, r)
        } else {
            run_seq(s1, body.drop_first(), fuel, cur)
        }
    }
}

/// A function call: `exit` returns early, and `recurse` in the body calls the body again.
pub open spec fn run_function(s: State, body: Seq<ExprModel>, fuel: nat) -> (State, Outcome)
    decreases fuel, 2int, 0int,
{
    let (s1, r) = run_seq(s, body, fuel, Some(body));
    match r {
        Err(ErrorModel::Exit) => ok(s1),
        _ => (s1, r),
    }
}

/// A `begin` loop: the body runs again and again until it is left.
pub open spec fn run_begin(
    s: State,
    body: Seq<ExprModel>,
    fuel: nat,
    cur: Option<Seq<ExprModel>>,
) -> (State, Outcome)
    decreases fuel, 2int, 0int,
{
    let (s1, r) = run_seq(s, body, fuel, cur);
    match r {
        Ok(()) => if fuel == 0 {
            fail(s1, ErrorModel::StepLimit)
        } else {
            run_begin(s1, body, (fuel - 1) as nat, cur)
        },
        Err(ErrorModel::Leave) => ok(s1),
        _ => (s1, r),
    }
}

/// A `do` loop from index `i` up to `limit`, each index on the return stack while the body
/// runs.
pub open spec fn run_loop(
    s: State,
    body: Seq<ExprModel>,
    i: int,
    limit: int,
    fuel: nat,
    cur: Option<Seq<ExprModel>>,
) -> (State, Outcome)
    decreases fuel, 2int, limit - i,
{
    if i >= limit {
        ok(s)
    } else {
        let (s1, r) = run_seq(State { ret: s.ret.push(i as i32), ..s }, body, fuel, cur);
        match r {
            Ok(()) => run_loop(drop_index(s1), body, i + 1, limit, fuel, cur),
            Err(ErrorModel::Leave) => ok(drop_index(s1)),
            _ => (s1, r),
        }
    }
}

/// Execute all the expressions in `body`, up to the first failure.
pub fn execute_many(
    forth: &mut Forth,
    body: &Vec<Expr>,
    fuel: u64,
    current: Option<&Vec<Expr>>,
) -> (r: Result<(), Error>)
    ensures
        (final(forth)@, outcome(r)) == run_seq(
            old(forth)@,
            models_of(body@),
            fuel as nat,
            cur_model(current),
        ),
    decreases fuel, 1int, body@.len(),
{
    let ghost m = models_of(body@);
    proof {
        lemma_models_index(body@);
        assert(m.subrange(0, m.len() as int) =~= m);
    }
    let mut i: usize = 0;
    while i < body.len()
        invariant
            i <= body.len(),
            m == models_of(body@),
            m.len() == body@.len(),
            forall|j: int| 0 <= j < body@.len() ==> #[trigger] m[j] == model_of(body@[j]),
            run_seq(old(forth)@, m, fuel as nat, cur_model(current)) == run_seq(
                forth@,
                m.subrange(i as int, m.len() as int),
                fuel as nat,
                cur_model(current),
            ),
        decreases body.len() - i,
    {
        proof {
            let rest = m.subrange(i as int, m.len() as int);
            assert(rest.drop_first() =~= m.subrange(i + 1, m.len() as int));
            assert(rest[0] == body@[i as int]@);
        }
        let r = body[i].execute(forth, fuel, current);
        if r.is_err() {
            return r;
        }
        i += 1;
    }
    Ok(())
}

impl Function {
    /// Create a function with this body.
    pub fn new(body: Vec<Expr>) -> (r: Self)
        ensures
            r.body == body,
    {
        Function { body }
    }

    /// Call the function: `exit` returns early, and `recurse` in the body calls it again.
    pub fn execute(&self, forth: &mut Forth, fuel: u64) -> (r: Result<(), Error>)
        ensures
            (final(forth)@, outcome(r)) == run_function(
                old(forth)@,
                models_of(self.body@),
                fuel as nat,
            ),
        decreases fuel, 3int, 0int,
    {
        call_body(forth, &self.body, fuel)
    }
}

/// Call a function with this body: `exit` returns early, and `recurse` in the body calls it
/// again.
pub fn call_body(forth: &mut Forth, body: &Vec<Expr>, fuel: u64) -> (r: Result<(), Error>)
    ensures
        (final(forth)@, outcome(r)) == run_function(old(forth)@, models_of(body@), fuel as nat),
    decreases fuel, 2int, 0int,
{
    let r = execute_many(forth, body, fuel, Some(body));
    match r {
        Err(Error::Exit) => Ok(()),
        _ => r,
    }
}

impl IfElseThen {
    /// Pop a flag and run the matching branch.
    pub fn execute(&self, forth: &mut Forth, fuel: u64, current: Option<&Vec<Expr>>) -> (r:
        Result<(), Error>)
        ensures
            ({
                let s = old(forth)@;
                (final(forth)@, outcome(r)) == if s.data.len() < 1 {
                    fail(s, ErrorModel::StackUnderflow)
                } else if top(s) != 0 {
                    run_seq(with_data(s, below(s, 1)), models_of(self.then_body@), fuel as nat, cur_model(current))
                } else {
                    run_seq(with_data(s, below(s, 1)), models_of(self.else_body@), fuel as nat, cur_model(current))
                }
            }),
        decreases fuel, 2int, 0int,
    {
        let flag = forth.stack_pop()?;
        assert(forth@.data =~= below(old(forth)@, 1));
        if flag != 0 {
            execute_many(forth, &self.then_body, fuel, current)
        } else {
            execute_many(forth, &self.else_body, fuel, current)
        }
    }
}

impl Begin {
    /// Run the body again and again until it is left.
    pub fn execute(&self, forth: &mut Forth, fuel: u64, current: Option<&Vec<Expr>>) -> (r:
        Result<(), Error>)
        ensures
            (final(forth)@, outcome(r)) == run_begin(
                old(forth)@,
                models_of(self.body@),
                fuel as nat,
                cur_model(current),
            ),
        decreases fuel, 2int, 0int,
    {
        let ghost m = models_of(self.body@);
        let mut g = fuel;
        loop
            invariant
                g <= fuel,
                m == models_of(self.body@),
                run_begin(old(forth)@, m, fuel as nat, cur_model(current)) == run_begin(
                    forth@,
                    m,
                    g as nat,
                    cur_model(current),
                ),
            decreases g,
        {
            let r = execute_many(forth, &self.body, g, current);
            match r {
                Ok(()) => {
                    if g == 0 {
                        return Err(Error::StepLimit);
                    }
                    g -= 1;
                },
                Err(Error::Leave) => {
                    return Ok(());
                },
                _ => {
                    return r;
                },
            }
        }
    }
}

impl Loop {
    /// Pop the first index (the top) and the limit (under it), and run the body once for
    /// each index below the limit, with the index on the return stack.
    pub fn execute(&self, forth: &mut Forth, fuel: u64, current: Option<&Vec<Expr>>) -> (r:
        Result<(), Error>)
        ensures
            ({
                let s = old(forth)@;
                (final(forth)@, outcome(r)) == if s.data.len() < 2 {
                    fail(with_data(s, Seq::empty()), ErrorModel::StackUnderflow)
                } else {
                    run_loop(
                        with_data(s, below(s, 2)),
                        models_of(self.body@),
                        top(s) as int,
                        second(s) as int,
                        fuel as nat,
                        cur_model(current),
                    )
                }
            }),
        decreases fuel, 2int, 0int,
    {
        let ghost m = models_of(self.body@);
        let (limit, start) = forth.stack_pop2()?;
        assert(forth@.data =~= below(old(forth)@, 2));
        let mut i: Int = start;
        while i < limit
            invariant
                m == models_of(self.body@),
                old(forth)@.data.len() >= 2,
                start == top(old(forth)@),
                limit == second(old(forth)@),
                run_loop(with_data(old(forth)@, below(old(forth)@, 2)), m, start as int, limit as int, fuel as nat, cur_model(current))
                    == run_loop(forth@, m, i as int, limit as int, fuel as nat, cur_model(current)),
            decreases limit - i,
        {
            let ghost s0 = forth@;
            forth.return_stack.push(i);
            assert(forth@ == State { ret: s0.ret.push(i), ..s0 });
            let r = execute_many(forth, &self.body, fuel, current);
            let ghost s1 = forth@;
            match r {
                Ok(()) => {
                    let _ = forth.return_stack.pop();
                    assert(forth@ == drop_index(s1));
                    i += 1;
                },
                Err(Error::Leave) => {
                    let _ = forth.return_stack.pop();
                    assert(forth@ == drop_index(s1));
                    return Ok(());
                },
                _ => {
                    return r;
                },
            }
        }
        Ok(())
    }
}

/// Append the characters of a string.
pub fn push_string(out: &mut Vec<char>, t: &String)
    ensures
        final(out)@ == old(out)@ + t@,
{
    push_text(out, t.as_str());
}

/// Append the text that `see` shows for `e`.
pub fn push_rendered(out: &mut Vec<char>, e: &Expr)
    ensures
        final(out)@ == old(out)@ + render(e@),
    decreases *e, 0int,
{
    let ghost o = old(out)@;
    match e {
        Expr::Word(w) => push_string(out, w),
        Expr::Print(t) => {
            push_text(out, ".\" ");
            push_string(out, t);
            push_text(out, "\"");
            assert(out@ =~= o + render(e@));
        },
        Expr::Char(v) => {
            push_text(out, "char ");
            push_decimal(out, *v);
            assert(out@ =~= o + render(e@));
        },
        Expr::Callable(_) => push_text(out, "<primitive>"),
        Expr::NewFunction(n, b) => {
            push_text(out, ": ");
            push_string(out, n);
            push_text(out, " ");
            push_rendered_all(out, b);
            push_text(out, " ;");
            assert(out@ =~= o + render(e@));
        },
        Expr::Function(f) => push_rendered_all(out, &f.body),
        Expr::IfElseThen(b) => {
            push_text(out, "if ");
            push_rendered_all(out, &b.then_body);
            if b.else_body.len() == 0 {
                proof {
                    lemma_models_index(b.else_body@);
                }
                push_text(out, " then");
            } else {
                proof {
                    lemma_models_index(b.else_body@);
                }
                push_text(out, " else ");
                push_rendered_all(out, &b.else_body);
                push_text(out, " then");
            }
            assert(out@ =~= o + render(e@));
        },
        Expr::Begin(b) => {
            push_text(out, "begin ");
            push_rendered_all(out, &b.body);
            assert(out@ =~= o + render(e@));
        },
        Expr::Loop(b) => {
            push_text(out, "do ");
            push_rendered_all(out, &b.body);
            push_text(out, " loop");
            assert(out@ =~= o + render(e@));
        },
        Expr::NewConstant(n) => {
            push_text(out, "constant ");
            push_string(out, n);
            assert(out@ =~= o + render(e@));
        },
        Expr::Value(v) => push_decimal(out, *v),
        Expr::NewVariable(n) => {
            push_text(out, "variable ");
            push_string(out, n);
            assert(out@ =~= o + render(e@));
        },
        Expr::NewCreate(n) => {
            push_text(out, "create ");
            push_string(out, n);
            assert(out@ =~= o + render(e@));
        },
        Expr::NewValue(n) => {
            push_text(out, "value ");
            push_string(out, n);
            assert(out@ =~= o + render(e@));
        },
        Expr::ToValue(n) => {
            push_text(out, "to ");
            push_string(out, n);
            assert(out@ =~= o + render(e@));
        },
        Expr::Include(p) => {
            push_text(out, "include ");
            push_string(out, p);
            assert(out@ =~= o + render(e@));
        },
        Expr::See(n) => {
            push_text(out, "see ");
            push_string(out, n);
            assert(out@ =~= o + render(e@));
        },
        Expr::Dummy => push_text(out, "<special word>"),
    }
}

/// Append the texts of the expressions of `v`, separated by single spaces.
pub fn push_rendered_all(out: &mut Vec<char>, v: &Vec<Expr>)
    ensures
        final(out)@ == old(out)@ + render_all(models_of(v@)),
    decreases *v, 1int,
{
    let ghost m = models_of(v@);
    proof {
        lemma_models_index(v@);
        assert(m.subrange(0, 0) =~= Seq::<ExprModel>::empty());
    }
    let mut i: usize = 0;
    while i < v.len()
        invariant
            i <= v.len(),
            m.len() == v@.len(),
            forall|j: int| 0 <= j < v@.len() ==> #[trigger] m[j] == model_of(v@[j]),
            out@ == old(out)@ + render_all(m.subrange(0, i as int)),
        decreases v.len() - i,
    {
        let ghost sub = m.subrange(0, i + 1);
        assert(sub.drop_last() =~= m.subrange(0, i as int));
        let ghost before = out@;
        if i > 0 {
            push_text(out, " ");
        }
        assert(decreases_to!(*v => v@[i as int]));
        push_rendered(out, &v[i]);
        i += 1;
        assert(out@ =~= old(out)@ + render_all(sub));
    }
    assert(m.subrange(0, v.len() as int) =~= m);
}

/// The paths that the `include`s of an expression name, in order.
pub open spec fn paths_of(e: ExprModel) -> Seq<Seq<char>>
    decreases e,
{
    match e {
        ExprModel::Include(p) => seq![p],
        ExprModel::NewFunction(_, b) => paths_all(b),
        ExprModel::Function(b) => paths_all(b),
        ExprModel::IfElseThen(t, o) => paths_all(t) + paths_all(o),
        ExprModel::Begin(b) => paths_all(b),
        ExprModel::Loop(b) => paths_all(b),
        _ => Seq::empty(),
    }
}

/// The paths that the `include`s of a sequence of expressions name, in order.
pub open spec fn paths_all(s: Seq<ExprModel>) -> Seq<Seq<char>>
    decreases s,
{
    if s.len() == 0 {
        Seq::empty()
    } else {
        paths_all(s.drop_last()) + paths_of(s.last())
    }
}

/// The texts of the strings.
pub open spec fn strings(v: Seq<String>) -> Seq<Seq<char>> {
    Seq::new(v.len(), |i: int| v[i]@)
}

/// Append the paths that the `include`s of `e` name: the files the host is to read before
/// `e` runs.
pub fn include_paths(out: &mut Vec<String>, e: &Expr)
    ensures
        strings(final(out)@) == strings(old(out)@) + paths_of(e@),
    decreases *e, 0int,
{
    let ghost o = strings(out@);
    match e {
        Expr::Include(p) => {
            out.push(p.clone());
            assert(strings(out@) =~= o + paths_of(e@));
        },
        Expr::NewFunction(_, b) => include_paths_all(out, b),
        Expr::Function(f) => include_paths_all(out, &f.body),
        Expr::IfElseThen(b) => {
            include_paths_all(out, &b.then_body);
            include_paths_all(out, &b.else_body);
            assert(strings(out@) =~= o + paths_of(e@));
        },
        Expr::Begin(b) => include_paths_all(out, &b.body),
        Expr::Loop(b) => include_paths_all(out, &b.body),
        _ => {
            assert(strings(out@) =~= o + paths_of(e@));
        },
    }
}

/// Append the paths that the `include`s of the expressions of `v` name.
pub fn include_paths_all(out: &mut Vec<String>, v: &Vec<Expr>)
    ensures
        strings(final(out)@) == strings(old(out)@) + paths_all(models_of(v@)),
    decreases *v, 1int,
{
    let ghost m = models_of(v@);
    proof {
        lemma_models_index(v@);
        assert(m.subrange(0, 0) =~= Seq::<ExprModel>::empty());
        assert(strings(out@) + paths_all(m.subrange(0, 0)) =~= strings(out@));
    }
    let mut i: usize = 0;
    while i < v.len()
        invariant
            i <= v.len(),
            m.len() == v@.len(),
            forall|j: int| 0 <= j < v@.len() ==> #[trigger] m[j] == model_of(v@[j]),
            strings(out@) == strings(old(out)@) + paths_all(m.subrange(0, i as int)),
        decreases v.len() - i,
    {
        let ghost sub = m.subrange(0, i + 1);
        assert(sub.drop_last() =~= m.subrange(0, i as int));
        assert(decreases_to!(*v => v@[i as int]));
        include_paths(out, &v[i]);
        i += 1;
        assert(strings(out@) =~= strings(old(out)@) + paths_all(sub));
    }
    assert(m.subrange(0, v.len() as int) =~= m);
}

impl Forth {
    /// `see name`: show the definition of `name`.
    pub fn see(&mut self, name: &String) -> (r: Result<(), Error>)
        ensures
            (final(self)@, outcome(r)) == see(old(self)@, name@),
    {
        proof {
            lemma_latest(self@.dict, name@);
        }
        let i = match self.find(name) {
            Some(i) => i,
            None => {
                return Err(Error::UnknownWord(name.clone()));
            },
        };
        let ghost o = self.output@;
        let entry = self.dictionary[i].1.deep_copy();
        match &entry {
            Expr::Dummy => {
                push_text(&mut self.output, "<special word: ");
                push_string(&mut self.output, name);
                push_text(&mut self.output, ">");
            },
            Expr::Function(f) => {
                push_text(&mut self.output, ": ");
                push_string(&mut self.output, name);
                push_text(&mut self.output, " ");
                push_rendered_all(&mut self.output, &f.body);
                push_text(&mut self.output, " ;");
            },
            _ => {
                push_rendered(&mut self.output, &entry);
            },
        }
        assert(self@.out =~= old(self)@.out + (see(old(self)@, name@).0.out.subrange(
            old(self)@.out.len() as int,
            see(old(self)@, name@).0.out.len() as int,
        )));
        Ok(())
    }
}

impl Expr {
    /// Execute the expression, nesting at most `fuel` deep, within the function whose body is
    /// `current`, if any.
    pub fn execute(&self, forth: &mut Forth, fuel: u64, current: Option<&Vec<Expr>>) -> (r:
        Result<(), Error>)
        ensures
            (final(forth)@, outcome(r)) == run(old(forth)@, self@, fuel as nat, cur_model(current)),
        decreases fuel, 0int, 0int,
    {
        if fuel == 0 {
            return Err(Error::StepLimit);
        }
        let f = fuel - 1;
        proof {
            lemma_latest(forth@.dict, self@->Word_0);
        }
        match self {
            Expr::Word(w) => match forth.find(w) {
                Some(i) => {
                    let e = forth.dictionary[i].1.deep_copy();
                    e.execute(forth, f, current)
                },
                None => match parse_int(w) {
                    Some(v) => {
                        forth.stack_push(v);
                        Ok(())
                    },
                    None => Err(Error::UnknownWord(w.clone())),
                },
            },
            Expr::Print(t) => {
                push_string(&mut forth.output, t);
                Ok(())
            },
            Expr::Char(c) => {
                forth.stack_push(*c);
                Ok(())
            },
            Expr::Callable(b) => match current {
                Some(body) => if *b == Builtin::Recurse {
                    call_body(forth, body, f)
                } else {
                    call(*b, forth)
                },
                None => call(*b, forth),
            },
            Expr::NewFunction(name, body) => {
                let body = copy_all(body);
                forth.define_word(name.clone(), Expr::Function(Function { body }))
            },
            Expr::Function(func) => call_body(forth, &func.body, f),
            Expr::IfElseThen(b) => b.execute(forth, f, current),
            Expr::Begin(b) => b.execute(forth, f, current),
            Expr::Loop(b) => b.execute(forth, f, current),
            Expr::NewConstant(name) => {
                let v = forth.stack_pop()?;
                assert(forth@.data =~= below(old(forth)@, 1));
                forth.define_word(name.clone(), Expr::Value(v))
            },
            Expr::Value(v) => {
                forth.stack_push(*v);
                Ok(())
            },
            Expr::NewVariable(name) => {
                let addr = #[verifier::truncate] (forth.memory.len() as Int);
                forth.memory.push(0);
                forth.define_word(name.clone(), Expr::Value(addr))
            },
            Expr::NewCreate(name) => {
                let addr = #[verifier::truncate] (forth.memory.len() as Int);
                forth.define_word(name.clone(), Expr::Value(addr))
            },
            Expr::NewValue(name) => {
                let v = forth.stack_pop()?;
                assert(forth@.data =~= below(old(forth)@, 1));
                forth.define_word(name.clone(), Expr::Value(v))
            },
            Expr::ToValue(name) => {
                let v = forth.stack_pop()?;
                assert(forth@.data =~= below(old(forth)@, 1));
                proof {
                    lemma_latest(forth@.dict, name@);
                }
                match forth.find(name) {
                    Some(i) => {
                        if let Expr::Value(_) = &forth.dictionary[i].1 {
                            let ghost d = forth.dictionary@;
                            forth.dictionary.set(i, (name.clone(), Expr::Value(v)));
                            assert(dict_model(forth.dictionary@) =~= dict_model(d).update(
                                i as int,
                                (name@, ExprModel::Value(v)),
                            ));
                            Ok(())
                        } else {
                            Err(Error::InvalidName(name.clone()))
                        }
                    },
                    None => Err(Error::UnknownWord(name.clone())),
                }
            },
            Expr::Include(path) => {
                let i = match forth.find_source(path) {
                    Some(i) => i,
                    None => {
                        return Err(Error::Include(path.clone()));
                    },
                };
                let text = match &forth.sources[i].1 {
                    Ok(text) => text.clone(),
                    Err(msg) => {
                        return Err(Error::CustomError(msg.clone()));
                    },
                };
                forth.eval_source(text.as_str(), f)
            },
            Expr::See(name) => forth.see(name),
            Expr::Dummy => Err(Error::CompileTimeWord),
        }
    }
}

/// What becomes of the result of a top-level expression: on an error the data stack is
/// cleared, and `leave`, `exit` and `quit` are swallowed. A request for a file whose text the
/// host has not supplied is handed on untouched.
pub open spec fn settle(s: State, r: Outcome) -> (State, Outcome) {
    match r {
        Ok(()) => (s, Ok(())),
        Err(ErrorModel::Include(path)) => (s, Err(ErrorModel::Include(path))),
        Err(e) => if e is Leave || e is Exit || e is Quit {
            (with_data(s, Seq::empty()), Ok(()))
        } else {
            (with_data(s, Seq::empty()), Err(e))
        },
    }
}

/// The model of an optional result.
pub open spec fn outcome_opt(r: Option<Result<(), Error>>) -> Option<Outcome> {
    match r {
        Some(x) => Some(outcome(x)),
        None => None,
    }
}

/// Evaluating one parsed item at the top level; `None` at the end of the input. What the
/// parser printed comes first.
pub open spec fn eval_item(s: State, sp: Parsed, fuel: nat) -> (State, Option<Outcome>)
    decreases fuel, 3int, 0int,
{
    let s1 = State { out: s.out + sp.printed, ..s };
    match sp.item {
        None => (s1, None),
        Some(Err(e)) => (with_data(s1, Seq::empty()), Some(Err(e))),
        Some(Ok(x)) => {
            let (s2, r) = run(s1, x, fuel, None);
            let (s3, r3) = settle(s2, r);
            (s3, Some(r3))
        },
    }
}

/// Evaluating the text `cs` from position `p`, up to its end or the first error, which
/// leaves the data stack empty.
pub open spec fn eval_text(s: State, cs: Seq<char>, p: int, fuel: nat) -> (State, Outcome)
    decreases fuel, 4int, cs.len() - p,
{
    let sp = next_item(cs, p);
    let (s1, r) = eval_item(s, sp, fuel);
    match r {
        None => (s1, Ok(())),
        Some(Err(e)) => (with_data(s1, Seq::empty()), Err(e)),
        Some(Ok(())) => if advances(cs, p, sp.pos) {
            eval_text(s1, cs, sp.pos, fuel)
        } else {
            (s1, Ok(()))
        },
    }
}

impl Forth {
    /// Apply the top-level rule to the result of an expression.
    fn settle(&mut self, r: Result<(), Error>) -> (r2: Result<(), Error>)
        ensures
            (final(self)@, outcome(r2)) == settle(old(self)@, outcome(r)),
    {
        match r {
            Ok(()) => Ok(()),
            Err(Error::Include(path)) => Err(Error::Include(path)),
            Err(e) => {
                self.data_stack.clear();
                match e {
                    Error::Leave | Error::Exit | Error::Quit => Ok(()),
                    _ => Err(e),
                }
            },
        }
    }

    /// Parse the next expression and evaluate it at the top level, nesting at most `fuel`
    /// deep; `None` at the end of the input.
    pub fn eval_next_with(&mut self, parser: &mut Parser, fuel: u64) -> (r: Option<
        Result<(), Error>,
    >)
        requires
            old(parser).wf(),
        ensures
            final(parser).wf(),
            final(parser).text() == old(parser).text(),
            final(parser).printed_text().len() == 0,
            ({
                let sp = next_item(old(parser).text(), old(parser).position());
                let s = State { out: old(self)@.out + old(parser).printed_text(), ..old(self)@ };
                &&& final(parser).position() == sp.pos
                &&& (final(self)@, outcome_opt(r)) == eval_item(s, sp, fuel as nat)
            }),
            r matches Some(Ok(_)) ==> final(parser).position() > old(parser).position(),
        decreases fuel, 3int, 0int,
    {
        let ghost cs = parser.text();
        let ghost p = parser.position();
        let ghost printed0 = parser.printed_text();
        let item = parser.next();
        let mut printed = parser.take_printed();
        self.output.append(&mut printed);
        proof {
            let sp = next_item(cs, p);
            assert(self@.out =~= old(self)@.out + printed0 + sp.printed);
            assert(self@.out =~= (old(self)@.out + printed0) + sp.printed);
        }
        match item {
            None => None,
            Some(Err(e)) => {
                self.data_stack.clear();
                Some(Err(e))
            },
            Some(Ok(e)) => {
                let r = e.execute(self, fuel, None);
                Some(self.settle(r))
            },
        }
    }

    /// Evaluate a text, up to its end or the first error, nesting at most `fuel` deep.
    pub fn eval_source(&mut self, string: &str, fuel: u64) -> (r: Result<(), Error>)
        ensures
            (final(self)@, outcome(r)) == eval_text(old(self)@, string@, 0, fuel as nat),
        decreases fuel, 4int, 0int,
    {
        let mut parser = Parser::from(string);
        let ghost cs = string@;
        proof {
            assert(State { out: self@.out + parser.printed_text(), ..self@ } == self@) by {
                assert(self@.out + parser.printed_text() =~= self@.out);
            }
        }
        loop
            invariant
                parser.wf(),
                cs == string@,
                parser.text() == cs,
                parser.printed_text().len() == 0,
                0 <= parser.position(),
                eval_text(old(self)@, cs, 0, fuel as nat) == eval_text(
                    self@,
                    cs,
                    parser.position(),
                    fuel as nat,
                ),
            decreases cs.len() - parser.position(),
        {
            let ghost s = self@;
            proof {
                assert(State { out: s.out + parser.printed_text(), ..s } == s) by {
                    assert(s.out + parser.printed_text() =~= s.out);
                }
            }
            match self.eval_next_with(&mut parser, fuel) {
                None => {
                    return Ok(());
                },
                Some(Err(e)) => {
                    self.data_stack.clear();
                    return Err(e);
                },
                Some(Ok(())) => {},
            }
        }
    }
}

} // verus!
