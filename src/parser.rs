use vstd::prelude::*;
use vstd::string::StrSliceExecFns;

use crate::errors::{Error, ErrorModel};
use crate::expressions::{models_of, Begin, Expr, ExprModel, IfElseThen, Loop};
use crate::reader::Reader;
use crate::text::{is_space, is_whitespace};

verus! {

/// What Unicode's lowercase mapping makes of a character.
pub uninterp spec fn lower_of(c: char) -> Seq<char>;

/// The lowercase form of an ASCII character: `A` to `Z` become `a` to `z`, all others stay.
pub open spec fn ascii_lower(c: char) -> char {
    if 'A' <= c && c <= 'Z' {
        (((c as u32) + 32) as u8) as char
    } else {
        c
    }
}

/// The lowercase mapping of a character; Unicode fixes it on ASCII.
pub open spec fn lower_char(c: char) -> Seq<char> {
    if (c as u32) < 128 {
        seq![ascii_lower(c)]
    } else {
        lower_of(c)
    }
}

/// Relies on `char::to_lowercase`: the lowercase mapping of `c`, one or more characters,
/// which for an ASCII character is its ASCII lowercase form.
#[verifier::external_body]
fn lowercase(c: char) -> (r: Vec<char>)
    ensures
        (c as u32) >= 128 ==> r@ == lower_of(c),
        (c as u32) < 128 ==> r@ == seq![ascii_lower(c)],
        r@.len() >= 1,
{
    c.to_lowercase().collect()
}

/// Relies on `String`'s `FromIterator<char>`: the string of these characters.
#[verifier::external_body]
pub(crate) fn string_of(v: &Vec<char>) -> (r: String)
    ensures
        r@ == v@,
{
    v.iter().collect()
}

/// The lowercase mapping of every character of `s`, in order.
pub open spec fn lower_seq(s: Seq<char>) -> Seq<char>
    decreases s.len(),
{
    if s.len() == 0 {
        Seq::empty()
    } else {
        lower_seq(s.drop_last()) + lower_char(s.last())
    }
}

/// The first position from `p` on that holds no white space.
pub open spec fn skip_space(cs: Seq<char>, p: int) -> int
    decreases cs.len() - p,
{
    if 0 <= p < cs.len() && is_space(cs[p]) {
        skip_space(cs, p + 1)
    } else {
        p
    }
}

/// The first position from `p` on that holds white space, or the end.
pub open spec fn word_end(cs: Seq<char>, p: int) -> int
    decreases cs.len() - p,
{
    if 0 <= p < cs.len() && !is_space(cs[p]) {
        word_end(cs, p + 1)
    } else {
        p
    }
}

/// The first position from `p` on that holds `c`, or the end.
pub open spec fn find_from(cs: Seq<char>, p: int, c: char) -> int
    decreases cs.len() - p,
{
    if p < 0 || p >= cs.len() {
        cs.len() as int
    } else if cs[p] == c {
        p
    } else {
        find_from(cs, p + 1, c)
    }
}

/// The position after the character at `q`, where there is one.
pub open spec fn past(cs: Seq<char>, q: int) -> int {
    if q < cs.len() {
        q + 1
    } else {
        q
    }
}

/// The token that starts at `p`, lowercased.
pub open spec fn token(cs: Seq<char>, p: int) -> Seq<char> {
    lower_seq(cs.subrange(p, word_end(cs, p)))
}

/// The position after the token that starts at `p` and the white space that ends it.
pub open spec fn after_token(cs: Seq<char>, p: int) -> int {
    past(cs, word_end(cs, p))
}

/// What one step of parsing gives: an item (none at the end of the input), the position
/// reached, and the text printed on the way by `.(`.
pub struct Parsed {
    pub item: Option<Result<ExprModel, ErrorModel>>,
    pub pos: int,
    pub printed: Seq<char>,
}

/// A parsed item at position `pos`.
pub open spec fn found(e: ExprModel, pos: int) -> Parsed {
    Parsed { item: Some(Ok(e)), pos, printed: Seq::empty() }
}

/// A parsing failure at position `pos`.
pub open spec fn failed(e: ErrorModel, pos: int) -> Parsed {
    Parsed { item: Some(Err(e)), pos, printed: Seq::empty() }
}

/// The end of the input at position `pos`.
pub open spec fn finished(pos: int) -> Parsed {
    Parsed { item: None, pos, printed: Seq::empty() }
}

/// `r` with `text` printed before it.
pub open spec fn after_printing(text: Seq<char>, r: Parsed) -> Parsed {
    Parsed { printed: text + r.printed, ..r }
}

/// The message of a missing delimiter.
pub open spec fn missing_msg(delimiter: char) -> Seq<char> {
    "missing '"@ + seq![delimiter] + "'"@
}

/// Whether moving from `p` to `np` makes progress within the input. The parser always
/// makes progress where the grammar below recurses; checking it there is what shows that
/// the grammar is well founded.
pub open spec fn advances(cs: Seq<char>, p: int, np: int) -> bool {
    p < np <= cs.len()
}

/// A word that takes the next token as its argument.
pub open spec fn single_arg(cs: Seq<char>, p: int, w: Seq<char>) -> Parsed {
    let q0 = skip_space(cs, p);
    let n = token(cs, q0);
    let q = after_token(cs, q0);
    if n.len() == 0 {
        failed(ErrorModel::MissingArgument, q)
    } else if w == "variable"@ {
        found(ExprModel::NewVariable(n), q)
    } else if w == "create"@ {
        found(ExprModel::NewCreate(n), q)
    } else if w == "constant"@ {
        found(ExprModel::NewConstant(n), q)
    } else if w == "value"@ {
        found(ExprModel::NewValue(n), q)
    } else if w == "to"@ {
        found(ExprModel::ToValue(n), q)
    } else if w == "include"@ {
        found(ExprModel::Include(n), q)
    } else {
        found(ExprModel::See(n), q)
    }
}

/// Whether the word takes the next token as its argument.
pub open spec fn takes_argument(w: Seq<char>) -> bool {
    w == "variable"@ || w == "create"@ || w == "constant"@ || w == "value"@ || w == "to"@ || w
        == "include"@ || w == "see"@
}

/// The next item of the input from position `p`.
pub open spec fn next_item(cs: Seq<char>, p: int) -> Parsed
    decreases cs.len() - p, 0int,
{
    let q = skip_space(cs, p);
    let w = token(cs, q);
    let q2 = after_token(cs, q);
    if w.len() == 0 {
        finished(q2)
    } else if !advances(cs, p, q2) {
        finished(q2)
    } else if w == "("@ {
        let e = find_from(cs, q2, ')');
        if e >= cs.len() {
            failed(ErrorModel::ParsingError("missing ')'"@), cs.len() as int)
        } else if e < q2 {
            finished(e)
        } else {
            next_item(cs, e + 1)
        }
    } else if w == "\\"@ {
        let e = find_from(cs, q2, '\n');
        if !advances(cs, p, past(cs, e)) {
            finished(e)
        } else {
            next_item(cs, past(cs, e))
        }
    } else if w == "char"@ {
        if q2 >= cs.len() {
            failed(ErrorModel::ParsingError("failed to read character"@), q2)
        } else {
            found(ExprModel::Char(cs[q2] as u32 as i32), after_token(cs, q2 + 1))
        }
    } else if w == ".("@ {
        let e = find_from(cs, q2, ')');
        if e >= cs.len() {
            failed(ErrorModel::ParsingError(missing_msg(')')), cs.len() as int)
        } else if e < q2 {
            finished(e)
        } else {
            after_printing(cs.subrange(q2, e), next_item(cs, e + 1))
        }
    } else if w == ".\""@ {
        let e = find_from(cs, q2, '"');
        if e >= cs.len() {
            failed(ErrorModel::ParsingError(missing_msg('"')), cs.len() as int)
        } else {
            found(ExprModel::Print(cs.subrange(q2, e)), e + 1)
        }
    } else if w == ":"@ {
        function_from(cs, q2)
    } else if w == "if"@ {
        collect_iet(cs, q2, Seq::empty(), Seq::empty(), false)
    } else if w == "begin"@ {
        collect_begin(cs, q2, Seq::empty())
    } else if w == "do"@ {
        collect_loop(cs, q2, Seq::empty())
    } else if takes_argument(w) {
        single_arg(cs, q2, w)
    } else {
        found(ExprModel::Word(w), q2)
    }
}

/// A function definition from position `p`: its name, then its body.
pub open spec fn function_from(cs: Seq<char>, p: int) -> Parsed
    decreases cs.len() - p, 1int,
{
    let q3 = skip_space(cs, p);
    let name = token(cs, q3);
    let q4 = after_token(cs, q3);
    if name.len() == 0 {
        failed(ErrorModel::ParsingError("function needs to be named"@), q4)
    } else if !advances(cs, p, q4) {
        finished(q4)
    } else {
        collect_function(cs, q4, name, Seq::empty())
    }
}

/// The body of a function from position `p`, up to `;`.
pub open spec fn collect_function(
    cs: Seq<char>,
    p: int,
    name: Seq<char>,
    body: Seq<ExprModel>,
) -> Parsed
    decreases cs.len() - p, 1int,
{
    let r = next_item(cs, p);
    match r.item {
        None => Parsed { item: Some(Err(ErrorModel::ParsingError("missing ';'"@))), ..r },
        Some(Err(_)) => r,
        Some(Ok(e)) => if e == ExprModel::Word(";"@) {
            Parsed { item: Some(Ok(ExprModel::NewFunction(name, body))), ..r }
        } else if !advances(cs, p, r.pos) {
            r
        } else {
            after_printing(r.printed, collect_function(cs, r.pos, name, body.push(e)))
        },
    }
}

/// The branches of a conditional from position `p`, up to `then`.
pub open spec fn collect_iet(
    cs: Seq<char>,
    p: int,
    t: Seq<ExprModel>,
    o: Seq<ExprModel>,
    in_else: bool,
) -> Parsed
    decreases cs.len() - p, 1int,
{
    let r = next_item(cs, p);
    match r.item {
        None => Parsed { item: Some(Err(ErrorModel::ParsingError("missing 'then'"@))), ..r },
        Some(Err(_)) => r,
        Some(Ok(e)) => if e == ExprModel::Word("then"@) {
            Parsed { item: Some(Ok(ExprModel::IfElseThen(t, o))), ..r }
        } else if !advances(cs, p, r.pos) {
            r
        } else if e == ExprModel::Word("else"@) {
            after_printing(r.printed, collect_iet(cs, r.pos, t, o, true))
        } else if in_else {
            after_printing(r.printed, collect_iet(cs, r.pos, t, o.push(e), true))
        } else {
            after_printing(r.printed, collect_iet(cs, r.pos, t.push(e), o, false))
        },
    }
}

/// The body of a `begin` loop from position `p`, up to `again`, `repeat` or `until`.
pub open spec fn collect_begin(cs: Seq<char>, p: int, body: Seq<ExprModel>) -> Parsed
    decreases cs.len() - p, 1int,
{
    let r = next_item(cs, p);
    match r.item {
        None => Parsed {
            item: Some(
                Err(
                    ErrorModel::ParsingError(
                        "begin blocks needs to end with 'repeat', 'again', or 'until'"@,
                    ),
                ),
            ),
            ..r
        },
        Some(Err(_)) => r,
        Some(Ok(e)) => if e == ExprModel::Word("repeat"@) || e == ExprModel::Word("again"@) {
            Parsed { item: Some(Ok(ExprModel::Begin(body))), ..r }
        } else if e == ExprModel::Word("until"@) {
            Parsed { item: Some(Ok(ExprModel::Begin(body.push(e)))), ..r }
        } else if !advances(cs, p, r.pos) {
            r
        } else {
            after_printing(r.printed, collect_begin(cs, r.pos, body.push(e)))
        },
    }
}

/// The body of a `do` loop from position `p`, up to `loop`.
pub open spec fn collect_loop(cs: Seq<char>, p: int, body: Seq<ExprModel>) -> Parsed
    decreases cs.len() - p, 1int,
{
    let r = next_item(cs, p);
    match r.item {
        None => Parsed {
            item: Some(Err(ErrorModel::ParsingError("do blocks needs to end with 'loop'"@))),
            ..r
        },
        Some(Err(_)) => r,
        Some(Ok(e)) => if e == ExprModel::Word("loop"@) {
            Parsed { item: Some(Ok(ExprModel::Loop(body))), ..r }
        } else if !advances(cs, p, r.pos) {
            r
        } else {
            after_printing(r.printed, collect_loop(cs, r.pos, body.push(e)))
        },
    }
}

/// The errors that parsing gives.
pub open spec fn parse_error(e: ErrorModel) -> bool {
    e is ParsingError || e is MissingArgument
}

/// A parsing step fails, if at all, with a parsing error.
pub open spec fn fails_to_parse_only(r: Parsed) -> bool {
    r.item matches Some(Err(e)) ==> parse_error(e)
}

/// Parsing fails only with parsing errors.
pub proof fn lemma_next_item_errors(cs: Seq<char>, p: int)
    ensures
        fails_to_parse_only(next_item(cs, p)),
    decreases cs.len() - p, 0int,
{
    let q = skip_space(cs, p);
    let w = token(cs, q);
    let q2 = after_token(cs, q);
    if w.len() == 0 || !advances(cs, p, q2) {
    } else if w == "("@ {
        let e = find_from(cs, q2, ')');
        if e < cs.len() && e >= q2 {
            lemma_next_item_errors(cs, e + 1);
        }
    } else if w == "\\"@ {
        let e = find_from(cs, q2, '\n');
        if advances(cs, p, past(cs, e)) {
            lemma_next_item_errors(cs, past(cs, e));
        }
    } else if w == "char"@ {
    } else if w == ".("@ {
        let e = find_from(cs, q2, ')');
        if e < cs.len() && e >= q2 {
            lemma_next_item_errors(cs, e + 1);
        }
    } else if w == ".\""@ {
    } else if w == ":"@ {
        lemma_function_errors(cs, q2);
    } else if w == "if"@ {
        lemma_iet_errors(cs, q2, Seq::empty(), Seq::empty(), false);
    } else if w == "begin"@ {
        lemma_begin_errors(cs, q2, Seq::empty());
    } else if w == "do"@ {
        lemma_loop_errors(cs, q2, Seq::empty());
    }
}

proof fn lemma_function_errors(cs: Seq<char>, p: int)
    ensures
        fails_to_parse_only(function_from(cs, p)),
    decreases cs.len() - p, 1int,
{
    let q3 = skip_space(cs, p);
    let name = token(cs, q3);
    let q4 = after_token(cs, q3);
    if name.len() != 0 && advances(cs, p, q4) {
        lemma_collect_function_errors(cs, q4, name, Seq::empty());
    }
}

proof fn lemma_collect_function_errors(cs: Seq<char>, p: int, name: Seq<char>, body: Seq<ExprModel>)
    ensures
        fails_to_parse_only(collect_function(cs, p, name, body)),
    decreases cs.len() - p, 1int,
{
    lemma_next_item_errors(cs, p);
    let r = next_item(cs, p);
    if let Some(Ok(e)) = r.item {
        if e != ExprModel::Word(";"@) && advances(cs, p, r.pos) {
            lemma_collect_function_errors(cs, r.pos, name, body.push(e));
        }
    }
}

proof fn lemma_iet_errors(
    cs: Seq<char>,
    p: int,
    t: Seq<ExprModel>,
    o: Seq<ExprModel>,
    in_else: bool,
)
    ensures
        fails_to_parse_only(collect_iet(cs, p, t, o, in_else)),
    decreases cs.len() - p, 1int,
{
    lemma_next_item_errors(cs, p);
    let r = next_item(cs, p);
    if let Some(Ok(e)) = r.item {
        if e != ExprModel::Word("then"@) && advances(cs, p, r.pos) {
            if e == ExprModel::Word("else"@) {
                lemma_iet_errors(cs, r.pos, t, o, true);
            } else if in_else {
                lemma_iet_errors(cs, r.pos, t, o.push(e), true);
            } else {
                lemma_iet_errors(cs, r.pos, t.push(e), o, false);
            }
        }
    }
}

proof fn lemma_begin_errors(cs: Seq<char>, p: int, body: Seq<ExprModel>)
    ensures
        fails_to_parse_only(collect_begin(cs, p, body)),
    decreases cs.len() - p, 1int,
{
    lemma_next_item_errors(cs, p);
    let r = next_item(cs, p);
    if let Some(Ok(e)) = r.item {
        if advances(cs, p, r.pos) {
            lemma_begin_errors(cs, r.pos, body.push(e));
        }
    }
}

proof fn lemma_loop_errors(cs: Seq<char>, p: int, body: Seq<ExprModel>)
    ensures
        fails_to_parse_only(collect_loop(cs, p, body)),
    decreases cs.len() - p, 1int,
{
    lemma_next_item_errors(cs, p);
    let r = next_item(cs, p);
    if let Some(Ok(e)) = r.item {
        if e != ExprModel::Word("loop"@) && advances(cs, p, r.pos) {
            lemma_loop_errors(cs, r.pos, body.push(e));
        }
    }
}

/// The model of a parsed item.
pub open spec fn result_model(r: Result<Expr, Error>) -> Result<ExprModel, ErrorModel> {
    match r {
        Ok(e) => Ok(e@),
        Err(e) => Err(e@),
    }
}

/// The model of what the parser hands out.
pub open spec fn item_model(r: Option<Result<Expr, Error>>) -> Option<Result<ExprModel, ErrorModel>> {
    match r {
        Some(x) => Some(result_model(x)),
        None => None,
    }
}

proof fn lemma_lower_push(s: Seq<char>, c: char)
    ensures
        lower_seq(s.push(c)) == lower_seq(s) + lower_char(c),
{
    assert(s.push(c).drop_last() =~= s);
}

/// Whether the characters of `v` are those of `t`.
pub fn same(v: &Vec<char>, t: &str) -> (r: bool)
    ensures
        r == (v@ == t@),
{
    let n = t.unicode_len();
    if v.len() != n {
        return false;
    }
    let mut i: usize = 0;
    while i < n
        invariant
            i <= n,
            n == t@.len(),
            v@.len() == n,
            v@.subrange(0, i as int) == t@.subrange(0, i as int),
        decreases n - i,
    {
        if v[i] != t.get_char(i) {
            assert(v@[i as int] != t@[i as int]);
            return false;
        }
        i += 1;
        assert(v@.subrange(0, i as int) =~= t@.subrange(0, i as int));
    }
    assert(v@ =~= v@.subrange(0, n as int));
    assert(t@ =~= t@.subrange(0, n as int));
    true
}

/// Whether `e` is the word `t`.
pub fn is_word(e: &Expr, t: &str) -> (r: bool)
    ensures
        r == (e@ == ExprModel::Word(t@)),
{
    match e {
        Expr::Word(w) => {
            let mut chars: Vec<char> = Vec::new();
            crate::text::push_text(&mut chars, w.as_str());
            assert(chars@ =~= w@);
            same(&chars, t)
        },
        _ => false,
    }
}

/// The parser went from `before` to `after`, handing out `item`, as `sp` says.
pub open spec fn parsed_as(
    before: Parser,
    after: Parser,
    item: Option<Result<ExprModel, ErrorModel>>,
    sp: Parsed,
) -> bool {
    &&& item == sp.item
    &&& after.position() == sp.pos
    &&& after.printed_text() == before.printed_text() + sp.printed
}

proof fn lemma_find_from(cs: Seq<char>, p: int, c: char)
    requires
        0 <= p <= cs.len(),
    ensures
        p <= find_from(cs, p, c) <= cs.len(),
    decreases cs.len() - p,
{
    if p < cs.len() && cs[p] != c {
        lemma_find_from(cs, p + 1, c);
    }
}

proof fn lemma_after_printing(a: Seq<char>, b: Seq<char>, x: Parsed)
    ensures
        after_printing(a, after_printing(b, x)) == after_printing(a + b, x),
        after_printing(Seq::empty(), x) == x,
{
    assert(a + (b + x.printed) =~= (a + b) + x.printed);
    assert(Seq::<char>::empty() + x.printed =~= x.printed);
}

/// The parser that turns a text into expressions.
pub struct Parser {
    pub reader: Reader,
    pub printed: Vec<char>,
}

impl Parser {
    /// The text being parsed.
    pub open spec fn text(&self) -> Seq<char> {
        self.reader.text()
    }

    /// How far the text has been read.
    pub open spec fn position(&self) -> int {
        self.reader.position()
    }

    /// What `.(` has printed and the host has not taken yet.
    pub open spec fn printed_text(&self) -> Seq<char> {
        self.printed@
    }

    /// The position stays within the text.
    pub open spec fn wf(&self) -> bool {
        self.reader.wf()
    }

    /// A parser at the start of a text.
    pub fn from(value: &str) -> (r: Self)
        ensures
            r.wf(),
            r.text() == value@,
            r.position() == 0,
            r.printed_text().len() == 0,
    {
        Parser { reader: Reader::from(value), printed: Vec::new() }
    }

    /// Hand out what `.(` has printed so far.
    pub fn take_printed(&mut self) -> (r: Vec<char>)
        ensures
            r@ == old(self).printed_text(),
            final(self).printed_text().len() == 0,
            final(self).text() == old(self).text(),
            final(self).position() == old(self).position(),
            final(self).wf() == old(self).wf(),
    {
        let mut r: Vec<char> = Vec::new();
        std::mem::swap(&mut r, &mut self.printed);
        r
    }

    /// Skip whitespaces until any non-whitespace character. Do not take that character.
    fn skip_whitespaces(&mut self)
        requires
            old(self).wf(),
        ensures
            final(self).position() >= old(self).position(),
            final(self).wf(),
            final(self).text() == old(self).text(),
            final(self).printed_text() == old(self).printed_text(),
            final(self).position() == skip_space(old(self).text(), old(self).position()),
    {
        loop
            invariant
                self.wf(),
                self.text() == old(self).text(),
                self.printed_text() == old(self).printed_text(),
                old(self).position() <= self.position(),
                skip_space(old(self).text(), old(self).position()) == skip_space(
                    self.text(),
                    self.position(),
                ),
            decreases self.text().len() - self.position(),
        {
            match self.reader.peek() {
                Some(c) => {
                    if !is_whitespace(c) {
                        return;
                    }
                    self.reader.next();
                },
                None => {
                    return;
                },
            }
        }
    }

    /// Read the characters up to a whitespace, lowercased; the whitespace is taken too.
    fn read_token(&mut self) -> (r: Vec<char>)
        requires
            old(self).wf(),
        ensures
            final(self).position() >= old(self).position(),
            final(self).wf(),
            final(self).text() == old(self).text(),
            final(self).printed_text() == old(self).printed_text(),
            r@ == token(old(self).text(), old(self).position()),
            final(self).position() == after_token(old(self).text(), old(self).position()),
            r@.len() > 0 ==> final(self).position() > old(self).position(),
    {
        let ghost cs = self.text();
        let ghost p0 = self.position();
        let mut r: Vec<char> = Vec::new();
        assert(cs.subrange(p0, p0) =~= Seq::<char>::empty());
        loop
            invariant
                self.wf(),
                self.text() == cs,
                cs == old(self).text(),
                self.printed_text() == old(self).printed_text(),
                p0 == old(self).position(),
                p0 <= self.position(),
                r@ == lower_seq(cs.subrange(p0, self.position())),
                word_end(cs, p0) == word_end(cs, self.position()),
                r@.len() > 0 ==> self.position() > p0,
            decreases cs.len() - self.position(),
        {
            let ghost p = self.position();
            match self.reader.next() {
                Some(c) => {
                    if is_whitespace(c) {
                        return r;
                    }
                    let low = lowercase(c);
                    let mut k: usize = 0;
                    let ghost before = r@;
                    while k < low.len()
                        invariant
                            k <= low.len(),
                            r@ == before + low@.subrange(0, k as int),
                        decreases low.len() - k,
                    {
                        r.push(low[k]);
                        k += 1;
                        assert(r@ =~= before + low@.subrange(0, k as int));
                    }
                    proof {
                        assert(low@.subrange(0, low.len() as int) =~= low@);
                        assert(cs.subrange(p0, p + 1) =~= cs.subrange(p0, p).push(c));
                        lemma_lower_push(cs.subrange(p0, p), c);
                    }
                },
                None => {
                    return r;
                },
            }
        }
    }

    /// Pass over the rest of a token and the whitespace that ends it.
    fn skip_token(&mut self)
        requires
            old(self).wf(),
        ensures
            final(self).position() >= old(self).position(),
            final(self).wf(),
            final(self).text() == old(self).text(),
            final(self).printed_text() == old(self).printed_text(),
            final(self).position() == after_token(old(self).text(), old(self).position()),
    {
        let ghost cs = self.text();
        let ghost p0 = self.position();
        loop
            invariant
                self.wf(),
                self.text() == cs,
                cs == old(self).text(),
                self.printed_text() == old(self).printed_text(),
                p0 <= self.position(),
                p0 == old(self).position(),
                word_end(cs, p0) == word_end(cs, self.position()),
            decreases cs.len() - self.position(),
        {
            match self.reader.next() {
                Some(c) => {
                    if is_whitespace(c) {
                        return;
                    }
                },
                None => {
                    return;
                },
            }
        }
    }

    /// Read all the characters up to a whitespace (exclusive), lowercased.
    pub fn read_word(&mut self) -> (r: String)
        requires
            old(self).wf(),
        ensures
            final(self).position() >= old(self).position(),
            final(self).wf(),
            final(self).text() == old(self).text(),
            final(self).printed_text() == old(self).printed_text(),
            r@ == token(old(self).text(), old(self).position()),
            final(self).position() == after_token(old(self).text(), old(self).position()),
    {
        let t = self.read_token();
        string_of(&t)
    }

    /// Pass over all the characters up to the `delimiter`, which is taken too; whether it
    /// was found.
    fn skip_until(&mut self, delimiter: char) -> (found: bool)
        requires
            old(self).wf(),
        ensures
            final(self).wf(),
            final(self).text() == old(self).text(),
            final(self).printed_text() == old(self).printed_text(),
            found == (find_from(old(self).text(), old(self).position(), delimiter) < old(
                self,
            ).text().len()),
            final(self).position() == past(
                old(self).text(),
                find_from(old(self).text(), old(self).position(), delimiter),
            ),
            final(self).position() >= old(self).position(),
    {
        let ghost cs = self.text();
        let ghost p0 = self.position();
        loop
            invariant
                self.wf(),
                self.text() == cs,
                cs == old(self).text(),
                self.printed_text() == old(self).printed_text(),
                0 <= p0 <= self.position(),
                p0 == old(self).position(),
                find_from(cs, p0, delimiter) == find_from(cs, self.position(), delimiter),
            decreases cs.len() - self.position(),
        {
            match self.reader.next() {
                Some(c) => {
                    if c == delimiter {
                        return true;
                    }
                },
                None => {
                    return false;
                },
            }
        }
    }

    /// Read all the characters until the `delimiter` (exclusive), which is taken too.
    pub fn read_until(&mut self, delimiter: char) -> (r: Result<String, Error>)
        requires
            old(self).wf(),
        ensures
            final(self).wf(),
            final(self).text() == old(self).text(),
            final(self).printed_text() == old(self).printed_text(),
            ({
                let cs = old(self).text();
                let p = old(self).position();
                let e = find_from(cs, p, delimiter);
                &&& e < cs.len() ==> r is Ok && r->Ok_0@ == cs.subrange(p, e)
                    && final(self).position() == e + 1
                &&& e >= cs.len() ==> r is Err && r->Err_0@ == ErrorModel::ParsingError(
                    missing_msg(delimiter),
                ) && final(self).position() == cs.len()
            }),
            final(self).position() >= old(self).position(),
    {
        let ghost cs = self.text();
        let ghost p0 = self.position();
        let mut acc: Vec<char> = Vec::new();
        assert(cs.subrange(p0, p0) =~= Seq::<char>::empty());
        loop
            invariant
                self.wf(),
                self.text() == cs,
                cs == old(self).text(),
                self.printed_text() == old(self).printed_text(),
                0 <= p0 <= self.position(),
                p0 == old(self).position(),
                find_from(cs, p0, delimiter) == find_from(cs, self.position(), delimiter),
                acc@ == cs.subrange(p0, self.position()),
            decreases cs.len() - self.position(),
        {
            let ghost p = self.position();
            match self.reader.next() {
                Some(c) => {
                    if c == delimiter {
                        return Ok(string_of(&acc));
                    }
                    acc.push(c);
                    assert(acc@ =~= cs.subrange(p0, self.position()));
                },
                None => {
                    let mut msg: Vec<char> = Vec::new();
                    crate::text::push_text(&mut msg, "missing '");
                    msg.push(delimiter);
                    crate::text::push_text(&mut msg, "'");
                    assert(msg@ =~= missing_msg(delimiter));
                    return Err(Error::ParsingError(string_of(&msg)));
                },
            }
        }
    }

    /// Whether the word takes the next token as its argument.
    fn takes_argument(w: &Vec<char>) -> (r: bool)
        ensures
            r == takes_argument(w@),
    {
        same(w, "variable") || same(w, "create") || same(w, "constant") || same(w, "value")
            || same(w, "to") || same(w, "include") || same(w, "see")
    }

    /// Read the argument of the word `w`.
    fn single_arg(&mut self, w: &Vec<char>) -> (r: Result<Expr, Error>)
        requires
            old(self).wf(),
            takes_argument(w@),
        ensures
            final(self).wf(),
            final(self).text() == old(self).text(),
            final(self).position() >= old(self).position(),
            parsed_as(
                *old(self),
                *final(self),
                Some(result_model(r)),
                single_arg(old(self).text(), old(self).position(), w@),
            ),
    {
        self.skip_whitespaces();
        let n = self.read_token();
        assert(self.printed_text() =~= old(self).printed_text() + Seq::<char>::empty());
        if n.len() == 0 {
            return Err(Error::MissingArgument);
        }
        let n = string_of(&n);
        if same(w, "variable") {
            Ok(Expr::NewVariable(n))
        } else if same(w, "create") {
            Ok(Expr::NewCreate(n))
        } else if same(w, "constant") {
            Ok(Expr::NewConstant(n))
        } else if same(w, "value") {
            Ok(Expr::NewValue(n))
        } else if same(w, "to") {
            Ok(Expr::ToValue(n))
        } else if same(w, "include") {
            Ok(Expr::Include(n))
        } else {
            Ok(Expr::See(n))
        }
    }

    /// Read the function delimited by `: ... ;`.
    fn read_function(&mut self) -> (r: Result<Expr, Error>)
        requires
            old(self).wf(),
        ensures
            final(self).wf(),
            final(self).text() == old(self).text(),
            final(self).position() >= old(self).position(),
            parsed_as(
                *old(self),
                *final(self),
                Some(result_model(r)),
                function_from(old(self).text(), old(self).position()),
            ),
        decreases old(self).text().len() - old(self).position(), 1int,
    {
        let ghost cs = self.text();
        let ghost p0 = self.position();
        let ghost printed0 = self.printed_text();
        self.skip_whitespaces();
        let name = self.read_token();
        if name.len() == 0 {
            assert(self.printed_text() =~= printed0 + Seq::<char>::empty());
            return Err(Error::ParsingError("function needs to be named".to_owned()));
        }
        let name = string_of(&name);
        let mut body: Vec<Expr> = Vec::new();
        let ghost mut acc: Seq<char> = Seq::empty();
        proof {
            lemma_after_printing(acc, acc, collect_function(cs, self.position(), name@, Seq::empty()));
            assert(self.printed_text() =~= printed0 + acc);
        }
        loop
            invariant
                self.wf(),
                self.text() == cs,
                cs == old(self).text(),
                p0 == old(self).position(),
                printed0 == old(self).printed_text(),
                p0 <= self.position(),
                self.printed_text() == printed0 + acc,
                function_from(cs, p0) == after_printing(
                    acc,
                    collect_function(cs, self.position(), name@, models_of(body@)),
                ),
            decreases cs.len() - self.position(),
        {
            let ghost p = self.position();
            let ghost sp = next_item(cs, p);
            let item = self.next();
            proof {
                lemma_after_printing(acc, sp.printed, Parsed { item: sp.item, pos: sp.pos, printed: Seq::empty() });
                assert(self.printed_text() =~= printed0 + (acc + sp.printed));
            }
            match item {
                None => {
                    return Err(Error::ParsingError("missing ';'".to_owned()));
                },
                Some(Err(e)) => {
                    return Err(e);
                },
                Some(Ok(e)) => {
                    if is_word(&e, ";") {
                        return Ok(Expr::NewFunction(name, body));
                    }
                    proof {
                        crate::expressions::lemma_models_push(body@, e);
                        lemma_after_printing(
                            acc,
                            sp.printed,
                            collect_function(cs, self.position(), name@, models_of(body@.push(e))),
                        );
                        acc = acc + sp.printed;
                    }
                    body.push(e);
                },
            }
        }
    }

    /// Read the `if ... [else ...] then` block.
    fn read_iet(&mut self) -> (r: Result<Expr, Error>)
        requires
            old(self).wf(),
        ensures
            final(self).wf(),
            final(self).text() == old(self).text(),
            final(self).position() >= old(self).position(),
            parsed_as(
                *old(self),
                *final(self),
                Some(result_model(r)),
                collect_iet(old(self).text(), old(self).position(), Seq::empty(), Seq::empty(), false),
            ),
        decreases old(self).text().len() - old(self).position(), 1int,
    {
        let ghost cs = self.text();
        let ghost p0 = self.position();
        let ghost printed0 = self.printed_text();
        let mut then_body: Vec<Expr> = Vec::new();
        let mut else_body: Vec<Expr> = Vec::new();
        let mut in_else = false;
        let ghost mut acc: Seq<char> = Seq::empty();
        proof {
            lemma_after_printing(acc, acc, collect_iet(cs, p0, Seq::empty(), Seq::empty(), false));
            assert(self.printed_text() =~= printed0 + acc);
        }
        loop
            invariant
                self.wf(),
                self.text() == cs,
                cs == old(self).text(),
                p0 == old(self).position(),
                printed0 == old(self).printed_text(),
                p0 <= self.position(),
                self.printed_text() == printed0 + acc,
                collect_iet(cs, p0, Seq::empty(), Seq::empty(), false) == after_printing(
                    acc,
                    collect_iet(cs, self.position(), models_of(then_body@), models_of(else_body@), in_else),
                ),
            decreases cs.len() - self.position(),
        {
            let ghost p = self.position();
            let ghost sp = next_item(cs, p);
            let item = self.next();
            proof {
                lemma_after_printing(acc, sp.printed, Parsed { item: sp.item, pos: sp.pos, printed: Seq::empty() });
                assert(self.printed_text() =~= printed0 + (acc + sp.printed));
            }
            match item {
                None => {
                    return Err(Error::ParsingError("missing 'then'".to_owned()));
                },
                Some(Err(e)) => {
                    return Err(e);
                },
                Some(Ok(e)) => {
                    if is_word(&e, "then") {
                        return Ok(Expr::IfElseThen(IfElseThen { then_body, else_body }));
                    }
                    if is_word(&e, "else") {
                        proof {
                            lemma_after_printing(
                                acc,
                                sp.printed,
                                collect_iet(cs, self.position(), models_of(then_body@), models_of(else_body@), true),
                            );
                            acc = acc + sp.printed;
                        }
                        in_else = true;
                    } else if in_else {
                        proof {
                            crate::expressions::lemma_models_push(else_body@, e);
                            lemma_after_printing(
                                acc,
                                sp.printed,
                                collect_iet(cs, self.position(), models_of(then_body@), models_of(else_body@.push(e)), true),
                            );
                            acc = acc + sp.printed;
                        }
                        else_body.push(e);
                    } else {
                        proof {
                            crate::expressions::lemma_models_push(then_body@, e);
                            lemma_after_printing(
                                acc,
                                sp.printed,
                                collect_iet(cs, self.position(), models_of(then_body@.push(e)), models_of(else_body@), false),
                            );
                            acc = acc + sp.printed;
                        }
                        then_body.push(e);
                    }
                },
            }
        }
    }

    /// Read the `begin ... again | until | repeat` block.
    fn read_begin(&mut self) -> (r: Result<Expr, Error>)
        requires
            old(self).wf(),
        ensures
            final(self).wf(),
            final(self).text() == old(self).text(),
            final(self).position() >= old(self).position(),
            parsed_as(
                *old(self),
                *final(self),
                Some(result_model(r)),
                collect_begin(old(self).text(), old(self).position(), Seq::empty()),
            ),
        decreases old(self).text().len() - old(self).position(), 1int,
    {
        let ghost cs = self.text();
        let ghost p0 = self.position();
        let ghost printed0 = self.printed_text();
        let mut body: Vec<Expr> = Vec::new();
        let ghost mut acc: Seq<char> = Seq::empty();
        proof {
            lemma_after_printing(acc, acc, collect_begin(cs, p0, Seq::empty()));
            assert(self.printed_text() =~= printed0 + acc);
        }
        loop
            invariant
                self.wf(),
                self.text() == cs,
                cs == old(self).text(),
                p0 == old(self).position(),
                printed0 == old(self).printed_text(),
                p0 <= self.position(),
                self.printed_text() == printed0 + acc,
                collect_begin(cs, p0, Seq::empty()) == after_printing(
                    acc,
                    collect_begin(cs, self.position(), models_of(body@)),
                ),
            decreases cs.len() - self.position(),
        {
            let ghost p = self.position();
            let ghost sp = next_item(cs, p);
            let item = self.next();
            proof {
                lemma_after_printing(acc, sp.printed, Parsed { item: sp.item, pos: sp.pos, printed: Seq::empty() });
                assert(self.printed_text() =~= printed0 + (acc + sp.printed));
            }
            match item {
                None => {
                    return Err(
                        Error::ParsingError(
                            "begin blocks needs to end with 'repeat', 'again', or 'until'".to_owned(),
                        ),
                    );
                },
                Some(Err(e)) => {
                    return Err(e);
                },
                Some(Ok(e)) => {
                    if is_word(&e, "repeat") || is_word(&e, "again") {
                        return Ok(Expr::Begin(Begin { body }));
                    }
                    let until = is_word(&e, "until");
                    proof {
                        crate::expressions::lemma_models_push(body@, e);
                        lemma_after_printing(
                            acc,
                            sp.printed,
                            collect_begin(cs, self.position(), models_of(body@.push(e))),
                        );
                        acc = acc + sp.printed;
                    }
                    body.push(e);
                    if until {
                        return Ok(Expr::Begin(Begin { body }));
                    }
                },
            }
        }
    }

    /// Read the `do ... loop` block.
    fn read_loop(&mut self) -> (r: Result<Expr, Error>)
        requires
            old(self).wf(),
        ensures
            final(self).wf(),
            final(self).text() == old(self).text(),
            final(self).position() >= old(self).position(),
            parsed_as(
                *old(self),
                *final(self),
                Some(result_model(r)),
                collect_loop(old(self).text(), old(self).position(), Seq::empty()),
            ),
        decreases old(self).text().len() - old(self).position(), 1int,
    {
        let ghost cs = self.text();
        let ghost p0 = self.position();
        let ghost printed0 = self.printed_text();
        let mut body: Vec<Expr> = Vec::new();
        let ghost mut acc: Seq<char> = Seq::empty();
        proof {
            lemma_after_printing(acc, acc, collect_loop(cs, p0, Seq::empty()));
            assert(self.printed_text() =~= printed0 + acc);
        }
        loop
            invariant
                self.wf(),
                self.text() == cs,
                cs == old(self).text(),
                p0 == old(self).position(),
                printed0 == old(self).printed_text(),
                p0 <= self.position(),
                self.printed_text() == printed0 + acc,
                collect_loop(cs, p0, Seq::empty()) == after_printing(
                    acc,
                    collect_loop(cs, self.position(), models_of(body@)),
                ),
            decreases cs.len() - self.position(),
        {
            let ghost p = self.position();
            let ghost sp = next_item(cs, p);
            let item = self.next();
            proof {
                lemma_after_printing(acc, sp.printed, Parsed { item: sp.item, pos: sp.pos, printed: Seq::empty() });
                assert(self.printed_text() =~= printed0 + (acc + sp.printed));
            }
            match item {
                None => {
                    return Err(Error::ParsingError("do blocks needs to end with 'loop'".to_owned()));
                },
                Some(Err(e)) => {
                    return Err(e);
                },
                Some(Ok(e)) => {
                    if is_word(&e, "loop") {
                        return Ok(Expr::Loop(Loop { body }));
                    }
                    proof {
                        crate::expressions::lemma_models_push(body@, e);
                        lemma_after_printing(
                            acc,
                            sp.printed,
                            collect_loop(cs, self.position(), models_of(body@.push(e))),
                        );
                        acc = acc + sp.printed;
                    }
                    body.push(e);
                },
            }
        }
    }

    /// The next expression of the text, `None` at its end.
    pub fn next(&mut self) -> (r: Option<Result<Expr, Error>>)
        requires
            old(self).wf(),
        ensures
            final(self).wf(),
            final(self).text() == old(self).text(),
            final(self).position() >= old(self).position(),
            parsed_as(
                *old(self),
                *final(self),
                item_model(r),
                next_item(old(self).text(), old(self).position()),
            ),
            r matches Some(Ok(_)) ==> final(self).position() > old(self).position(),
        decreases old(self).text().len() - old(self).position(), 0int,
    {
        let ghost cs = self.text();
        let ghost p = self.position();
        let ghost printed0 = self.printed_text();
        self.skip_whitespaces();
        let w = self.read_token();
        let ghost q2 = self.position();
        assert(self.printed_text() =~= printed0 + Seq::<char>::empty());
        if w.len() == 0 {
            return None;
        }
        if same(&w, "(") {
            proof {
                lemma_find_from(cs, q2, ')');
            }
            if self.skip_until(')') {
                return self.next();
            }
            return Some(Err(Error::ParsingError("missing ')'".to_owned())));
        }
        if same(&w, "\\") {
            proof {
                lemma_find_from(cs, q2, '\n');
            }
            self.skip_until('\n');
            return self.next();
        }
        if same(&w, "char") {
            return match self.reader.next() {
                None => Some(Err(Error::ParsingError("failed to read character".to_owned()))),
                Some(c) => {
                    self.skip_token();
                    Some(Ok(Expr::Char(#[verifier::truncate] (c as u32 as i32))))
                },
            };
        }
        if same(&w, ".(") {
            proof {
                lemma_find_from(cs, q2, ')');
            }
            return match self.read_until(')') {
                Ok(t) => {
                    let ghost rest = next_item(cs, self.position());
                    crate::expressions::push_string(&mut self.printed, &t);
                    let r = self.next();
                    assert(self.printed_text() =~= printed0 + (t@ + rest.printed));
                    r
                },
                Err(e) => Some(Err(e)),
            };
        }
        if same(&w, ".\"") {
            proof {
                lemma_find_from(cs, q2, '"');
            }
            return match self.read_until('"') {
                Ok(t) => Some(Ok(Expr::Print(t))),
                Err(e) => Some(Err(e)),
            };
        }
        if same(&w, ":") {
            return Some(self.read_function());
        }
        if same(&w, "if") {
            return Some(self.read_iet());
        }
        if same(&w, "begin") {
            return Some(self.read_begin());
        }
        if same(&w, "do") {
            return Some(self.read_loop());
        }
        if Parser::takes_argument(&w) {
            return Some(self.single_arg(&w));
        }
        Some(Ok(Expr::Word(string_of(&w))))
    }
}

} // verus!
