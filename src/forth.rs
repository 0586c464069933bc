use vstd::prelude::*;

use crate::errors::{outcome, Error, ErrorModel, Outcome};
use crate::expressions::{eval_item, eval_text, outcome_opt, Expr, ExprModel};
use crate::numbers::Int;
use crate::parser::{next_item, Parser};

verus! {

/// The mathematical state of an interpreter.
pub struct State {
    /// The data stack; its last element is the top.
    pub data: Seq<i32>,
    /// The return stack; its last element is the top.
    pub ret: Seq<i32>,
    /// The definitions, oldest first.
    pub dict: Seq<(Seq<char>, ExprModel)>,
    /// The memory cells, by address.
    pub mem: Seq<i32>,
    /// What has been printed and not yet taken by the host.
    pub out: Seq<char>,
    /// The texts of files that the host has read, or the messages of its failures to read
    /// them, by path.
    pub src: Seq<(Seq<char>, Result<Seq<char>, Seq<char>>)>,
}

/// The Forth interpreter that walks over the code and executes it.
pub struct Forth {
    /// Stack for storing the data.
    pub data_stack: Vec<Int>,
    /// The additional temporary memory, also holding the indices of running loops.
    pub return_stack: Vec<Int>,
    /// Names bound to functions, constants, etc.
    pub dictionary: Vec<(String, Expr)>,
    /// Memory for storing data related to named variables.
    pub memory: Vec<Int>,
    /// Printed text that the host has not taken yet.
    pub output: Vec<char>,
    /// Files as the host has read them, for `include`: their texts, or why reading failed.
    pub sources: Vec<(String, Result<String, String>)>,
}

/// The model of what reading a file gave.
pub open spec fn read_model(r: Result<String, String>) -> Result<Seq<char>, Seq<char>> {
    match r {
        Ok(t) => Ok(t@),
        Err(m) => Err(m@),
    }
}

/// The model of the files the host has read.
pub open spec fn sources_model(d: Seq<(String, Result<String, String>)>) -> Seq<
    (Seq<char>, Result<Seq<char>, Seq<char>>),
> {
    Seq::new(d.len(), |i: int| (d[i].0@, read_model(d[i].1)))
}

/// The index of the latest reading of the file at `path`, or -1 where there is none.
pub open spec fn latest_source(d: Seq<(Seq<char>, Result<Seq<char>, Seq<char>>)>, path: Seq<char>) -> int
    decreases d.len(),
{
    if d.len() == 0 {
        -1
    } else if d.last().0 == path {
        d.len() - 1
    } else {
        latest_source(d.drop_last(), path)
    }
}

/// What the latest reading of the file at `path` gave, if it was read.
pub open spec fn source_of(
    d: Seq<(Seq<char>, Result<Seq<char>, Seq<char>>)>,
    path: Seq<char>,
) -> Option<Result<Seq<char>, Seq<char>>> {
    if 0 <= latest_source(d, path) < d.len() {
        Some(d[latest_source(d, path)].1)
    } else {
        None
    }
}

/// The model of the dictionary.
pub open spec fn dict_model(d: Seq<(String, Expr)>) -> Seq<(Seq<char>, ExprModel)> {
    Seq::new(d.len(), |i: int| (d[i].0@, d[i].1@))
}

/// The index of the latest definition of `name`, or -1 where there is none.
pub open spec fn latest(d: Seq<(Seq<char>, ExprModel)>, name: Seq<char>) -> int
    decreases d.len(),
{
    if d.len() == 0 {
        -1
    } else if d.last().0 == name {
        d.len() - 1
    } else {
        latest(d.drop_last(), name)
    }
}

/// The entry bound to `name`, if any: the latest definition of it.
pub open spec fn lookup(d: Seq<(Seq<char>, ExprModel)>, name: Seq<char>) -> Option<ExprModel> {
    if latest(d, name) >= 0 {
        Some(d[latest(d, name)].1)
    } else {
        None
    }
}

/// The latest definition is an entry of the dictionary, under that name.
pub proof fn lemma_latest(d: Seq<(Seq<char>, ExprModel)>, name: Seq<char>)
    ensures
        -1 <= latest(d, name) < d.len(),
        latest(d, name) >= 0 ==> d[latest(d, name)].0 == name,
    decreases d.len(),
{
    if d.len() > 0 && d.last().0 != name {
        lemma_latest(d.drop_last(), name);
    }
}

/// Binding `name` to `e`: refused where the name is bound already.
pub open spec fn define(s: State, name: Seq<char>, e: ExprModel) -> (State, Outcome) {
    if lookup(s.dict, name) is Some {
        (s, Err(ErrorModel::Redefined(name)))
    } else {
        (State { dict: s.dict.push((name, e)), ..s }, Ok(()))
    }
}

/// The state with another data stack.
pub open spec fn with_data(s: State, data: Seq<i32>) -> State {
    State { data, ..s }
}

impl View for Forth {
    type V = State;

    open spec fn view(&self) -> State {
        State {
            data: self.data_stack@,
            ret: self.return_stack@,
            dict: dict_model(self.dictionary@),
            mem: self.memory@,
            out: self.output@,
            src: sources_model(self.sources@),
        }
    }
}

impl Forth {
    /// Constructs a new Forth interpreter with nothing defined, whose stack has at least the
    /// specified capacity.
    pub fn empty(capacity: usize) -> (r: Self)
        ensures
            r@ == (State {
                data: Seq::empty(),
                ret: Seq::empty(),
                dict: Seq::empty(),
                mem: Seq::empty(),
                out: Seq::empty(),
                src: Seq::empty(),
            }),
    {
        let ghost d: Seq<(String, Expr)> = Seq::empty();
        assert(dict_model(d) =~= Seq::empty());
        let ghost f: Seq<(String, Result<String, String>)> = Seq::empty();
        assert(sources_model(f) =~= Seq::empty());
        Forth {
            data_stack: Vec::with_capacity(capacity),
            return_stack: Vec::new(),
            dictionary: Vec::new(),
            memory: Vec::new(),
            output: Vec::new(),
            sources: Vec::new(),
        }
    }

    /// Push value to the stack.
    pub fn stack_push(&mut self, value: Int)
        ensures
            final(self)@ == with_data(old(self)@, old(self)@.data.push(value)),
    {
        self.data_stack.push(value);
    }

    /// Pop value from the stack.
    pub fn stack_pop(&mut self) -> (r: Result<Int, Error>)
        ensures
            old(self)@.data.len() > 0 ==> r == Ok::<Int, Error>(old(self)@.data.last())
                && final(self)@ == with_data(old(self)@, old(self)@.data.drop_last()),
            old(self)@.data.len() == 0 ==> r == Err::<Int, Error>(Error::StackUnderflow)
                && final(self)@ == old(self)@ && final(self)@ == with_data(old(self)@, Seq::empty()),
    {
        assert(self@.data.len() == 0 ==> self@.data =~= Seq::<Int>::empty());
        match self.data_stack.pop() {
            Some(v) => Ok(v),
            None => Err(Error::StackUnderflow),
        }
    }

    /// Pop two values from the stack, return them in the order they were entered into the stack.
    /// With fewer than two, the stack is left empty.
    pub fn stack_pop2(&mut self) -> (r: Result<(Int, Int), Error>)
        ensures
            ({
                let d = old(self)@.data;
                &&& d.len() >= 2 ==> r == Ok::<(Int, Int), Error>((d[d.len() - 2], d[d.len() - 1]))
                    && final(self)@ == with_data(old(self)@, d.drop_last().drop_last())
                &&& d.len() < 2 ==> r == Err::<(Int, Int), Error>(Error::StackUnderflow)
                    && final(self)@ == with_data(old(self)@, Seq::empty())
            }),
    {
        let b = match self.stack_pop() {
            Ok(b) => b,
            Err(e) => {
                assert(self@.data =~= Seq::<Int>::empty());
                return Err(e);
            },
        };
        match self.stack_pop() {
            Ok(a) => Ok((a, b)),
            Err(e) => {
                assert(self@.data =~= Seq::<Int>::empty());
                Err(e)
            },
        }
    }

    /// The last value on the stack. Errors on empty stack.
    pub fn stack_last(&self) -> (r: Result<Int, Error>)
        ensures
            self@.data.len() > 0 ==> r == Ok::<Int, Error>(self@.data.last()),
            self@.data.len() == 0 ==> r == Err::<Int, Error>(Error::StackUnderflow),
    {
        let n = self.data_stack.len();
        if n == 0 {
            Err(Error::StackUnderflow)
        } else {
            Ok(self.data_stack[n - 1])
        }
    }

    /// Number of elements in the stack.
    pub fn stack_len(&self) -> (r: usize)
        ensures
            r == self@.data.len(),
    {
        self.data_stack.len()
    }

    /// The index of the latest definition of `name`.
    pub fn find(&self, name: &String) -> (r: Option<usize>)
        ensures
            match r {
                Some(i) => i as int == latest(self@.dict, name@) && i < self@.dict.len(),
                None => latest(self@.dict, name@) == -1,
            },
    {
        let ghost d = self@.dict;
        let mut i: usize = self.dictionary.len();
        assert(d.subrange(0, i as int) =~= d);
        while i > 0
            invariant
                i <= self.dictionary.len(),
                d == self@.dict,
                latest(d, name@) == latest(d.subrange(0, i as int), name@),
            decreases i,
        {
            proof {
                assert(d.subrange(0, i as int).drop_last() =~= d.subrange(0, i - 1));
            }
            if self.dictionary[i - 1].0 == *name {
                return Some(i - 1);
            }
            i -= 1;
        }
        None
    }

    /// Define a new word, return an error on redefinition.
    pub fn define_word(&mut self, name: String, value: Expr) -> (r: Result<(), Error>)
        ensures
            (final(self)@, outcome(r)) == define(old(self)@, name@, value@),
    {
        match self.find(&name) {
            Some(_) => Err(Error::Redefined(name)),
            None => {
                let ghost d = self.dictionary@;
                self.dictionary.push((name, value));
                proof {
                    assert(dict_model(self.dictionary@) =~= dict_model(d).push((name@, value@)));
                }
                Ok(())
            },
        }
    }

    /// Record what reading the file at `path` gave, for `include`.
    pub fn add_source(&mut self, path: String, text: Result<String, String>)
        ensures
            final(self)@ == (State { src: old(self)@.src.push((path@, read_model(text))), ..old(self)@ }),
    {
        let ghost d = self.sources@;
        self.sources.push((path, text));
        assert(sources_model(self.sources@) =~= sources_model(d).push((path@, read_model(text))));
    }

    /// The index of the latest reading of the file at `path`.
    pub fn find_source(&self, path: &String) -> (r: Option<usize>)
        ensures
            match r {
                Some(i) => i as int == latest_source(self@.src, path@) && i < self@.src.len(),
                None => latest_source(self@.src, path@) == -1,
            },
    {
        let ghost d = self@.src;
        let mut i: usize = self.sources.len();
        assert(d.subrange(0, i as int) =~= d);
        while i > 0
            invariant
                i <= self.sources.len(),
                d == self@.src,
                latest_source(d, path@) == latest_source(d.subrange(0, i as int), path@),
            decreases i,
        {
            assert(d.subrange(0, i as int).drop_last() =~= d.subrange(0, i - 1));
            if self.sources[i - 1].0 == *path {
                return Some(i - 1);
            }
            i -= 1;
        }
        None
    }

    /// Get the compiled object associated to the word.
    pub fn get_word(&self, name: &str) -> (r: Option<Expr>)
        ensures
            match r {
                Some(e) => lookup(self@.dict, name@) == Some(e@),
                None => lookup(self@.dict, name@) is None,
            },
    {
        let key = name.to_owned();
        proof {
            lemma_latest(self@.dict, name@);
        }
        match self.find(&key) {
            Some(i) => Some(self.dictionary[i].1.deep_copy()),
            None => None,
        }
    }
}

/// How deep an evaluation may nest, counting calls and loop rounds.
pub const FUEL: u64 = 0xffff_ffff_ffff_ffff;

impl Forth {
    /// Parse the next expression and evaluate it at the top level; `None` at the end of the
    /// input.
    pub fn eval_next(&mut self, parser: &mut Parser) -> (r: Option<Result<(), Error>>)
        requires
            old(parser).wf(),
        ensures
            final(parser).wf(),
            final(parser).text() == old(parser).text(),
            final(parser).printed_text().len() == 0,
            ({
                let sp = next_item(old(parser).text(), old(parser).position());
                let s = State { out: old(self)@.out + old(parser).printed_text(), ..old(self)@ };
                &&& final(parser).position() == sp.pos
                &&& (final(self)@, outcome_opt(r)) == eval_item(s, sp, FUEL as nat)
            }),
            r matches Some(Ok(_)) ==> final(parser).position() > old(parser).position(),
    {
        self.eval_next_with(parser, FUEL)
    }

    /// Evaluate a string, up to its end or the first error.
    pub fn eval_string(&mut self, string: &str) -> (r: Result<(), Error>)
        ensures
            (final(self)@, outcome(r)) == eval_text(old(self)@, string@, 0, FUEL as nat),
    {
        self.eval_source(string, FUEL)
    }
}

} // verus!
