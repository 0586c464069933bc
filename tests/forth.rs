use forth_rs::builtins::Builtin;
use forth_rs::errors::Error;
use forth_rs::expressions::Expr;
use forth_rs::forth::Forth;
use forth_rs::numbers::{FALSE, TRUE};

fn run(code: &str) -> (Result<(), Error>, Vec<i32>) {
    let mut forth = Forth::new(10);
    let r = forth.eval_string(code);
    (r, forth.data_stack.clone())
}

fn stack_of(code: &str) -> Vec<i32> {
    let (r, stack) = run(code);
    assert_eq!(r, Ok(()), "evaluating {:?}", code);
    stack
}

fn printed(forth: &Forth) -> String {
    forth.output.iter().collect()
}

#[test]
fn constants() {
    let mut forth = Forth::new(10);

    assert!(forth.get_word("x").is_none());
    assert!(forth.eval_string("42 constant x").is_ok());
    assert_eq!(Some(Expr::Value(42)), forth.get_word("x"));

    assert!(forth.get_word("y").is_none());
    assert!(forth.eval_string("123 constant y").is_ok());
    assert_eq!(Some(Expr::Value(123)), forth.get_word("y"));

    assert_eq!(
        Err(Error::Redefined("x".into())),
        forth.eval_string("0 constant x"),
        "errors on redefinition"
    );
}

#[test]
fn variables() {
    let mut forth = Forth::new(10);

    assert!(forth.eval_string("variable x").is_ok());
    assert_eq!(forth.data_stack, vec![]);
    assert!(forth.eval_string("5 x !").is_ok());
    assert!(forth.eval_string("x @").is_ok());
    assert_eq!(forth.data_stack, vec![5]);

    assert!(forth.eval_string("7 x !").is_ok());
    assert!(forth.eval_string("x @").is_ok());
    assert_eq!(forth.data_stack, vec![5, 7]);

    assert!(forth.eval_string("17 y !").is_err());
}

#[test]
fn return_stack() {
    let mut forth = Forth::new(10);

    assert!(forth.eval_string("42 >r").is_ok());
    assert_eq!(forth.data_stack, &[]);
    assert_eq!(forth.return_stack, &[42]);

    assert!(forth.eval_string("r@").is_ok());
    assert_eq!(forth.data_stack, &[42]);
    assert_eq!(forth.return_stack, &[42]);

    assert!(forth.eval_string("r>").is_ok());
    assert_eq!(forth.data_stack, &[42, 42]);
    assert_eq!(forth.return_stack, &[]);
}

#[test]
fn simple_addition() {
    assert_eq!(stack_of("2 2 +"), vec![4]);
}

#[test]
fn square_function() {
    assert_eq!(stack_of(": square dup * ; 5 square"), vec![25]);
}

#[test]
fn do_loop_counts_up() {
    assert_eq!(stack_of("5 0 do i loop"), vec![0, 1, 2, 3, 4]);
    assert_eq!(stack_of("0 5 do i loop"), vec![]);
}

#[test]
fn nested_do_loops() {
    assert_eq!(
        stack_of("3 0 do 2 0 do j i loop loop"),
        vec![0, 0, 0, 1, 1, 0, 1, 1, 2, 0, 2, 1]
    );
}

fn primitive_on(b: Builtin, stack: Vec<i32>) -> (Result<(), Error>, Vec<i32>) {
    let mut forth = Forth::new(10);
    forth.data_stack = stack;
    let r = Expr::Callable(b).execute(&mut forth, u64::MAX, None);
    (r, forth.data_stack)
}

#[test]
fn failing_words_take_their_operands() {
    assert_eq!(primitive_on(Builtin::SetCell, vec![1, 2, 7, 100]), (Err(Error::InvalidAddress), vec![1, 2]));
    assert_eq!(primitive_on(Builtin::Fetch, vec![1, -3]), (Err(Error::InvalidAddress), vec![1]));
    assert_eq!(primitive_on(Builtin::Dump, vec![1, 0, 5]), (Err(Error::InvalidAddress), vec![1]));
    assert_eq!(primitive_on(Builtin::Pick, vec![1, 2, 5]), (Err(Error::StackUnderflow), vec![1, 2]));
    assert_eq!(primitive_on(Builtin::Roll, vec![1, -1]), (Err(Error::StackUnderflow), vec![1]));
    assert_eq!(primitive_on(Builtin::Div, vec![4, 0]), (Err(Error::DivisionByZero), vec![4]));
    assert_eq!(primitive_on(Builtin::Div, vec![0]), (Err(Error::DivisionByZero), vec![]));
    assert_eq!(primitive_on(Builtin::Rem, vec![3]), (Err(Error::StackUnderflow), vec![]));
    assert_eq!(primitive_on(Builtin::DivRem, vec![9, 4, 0]), (Err(Error::DivisionByZero), vec![9]));
    assert_eq!(primitive_on(Builtin::MulDiv, vec![1, 2, 0]), (Err(Error::DivisionByZero), vec![1, 2]));
    assert_eq!(primitive_on(Builtin::MulDivRem, vec![2, 3]), (Err(Error::StackUnderflow), vec![]));
    assert_eq!(primitive_on(Builtin::Add, vec![3]), (Err(Error::StackUnderflow), vec![]));
    assert_eq!(primitive_on(Builtin::Swap, vec![3]), (Err(Error::StackUnderflow), vec![3]));
}

#[test]
fn arguments_follow_any_white_space() {
    assert_eq!(stack_of("variable   x 5 x ! x @"), vec![5]);
    assert_eq!(stack_of("7 constant \t  seven seven"), vec![7]);
}

#[test]
fn text_errors_clear_the_stack() {
    let mut forth = Forth::new(10);
    assert_eq!(forth.eval_string("1 2 include lib.f 3"), Err(Error::Include("lib.f".into())));
    assert_eq!(forth.data_stack, vec![]);
    let mut forth = Forth::new(10);
    assert_eq!(forth.eval_string("1 2 foo 3"), Err(Error::UnknownWord("foo".into())));
    assert_eq!(forth.data_stack, vec![]);
}

#[test]
fn variable_store_and_fetch() {
    assert_eq!(stack_of("variable x 5 x ! x @"), vec![5]);
}

#[test]
fn recurse_calls_the_function() {
    assert_eq!(
        stack_of(": fact dup 1 > if dup 1 - recurse * then ; 5 fact"),
        vec![120]
    );
    assert_eq!(
        stack_of(": count dup 0 > if dup 1 - recurse then ; 3 count"),
        vec![3, 2, 1, 0]
    );
}

#[test]
fn include_evaluates_the_file_in_place() {
    let mut forth = Forth::new(10);
    forth.add_source("lib.f".into(), Ok(": double 2 * ; 10".into()));
    forth.add_source("bad.f".into(), Err("no such file".into()));
    assert_eq!(forth.eval_string("1 : f include lib.f 3 ; f double"), Ok(()));
    assert_eq!(forth.data_stack, vec![1, 10, 6]);
    assert_eq!(forth.eval_string("0 2 0 do include bad.f loop"), Err(Error::CustomError("no such file".into())));
    assert_eq!(forth.data_stack, vec![]);
}

#[test]
fn include_paths_are_collected() {
    let mut parser = forth_rs::parser::Parser::from(": f if include a.f else include b.f then ; include c.f");
    let mut paths = Vec::new();
    while let Some(Ok(e)) = parser.next() {
        forth_rs::expressions::include_paths(&mut paths, &e);
    }
    assert_eq!(paths, vec!["a.f".to_string(), "b.f".to_string(), "c.f".to_string()]);
}

#[test]
fn error_messages() {
    assert_eq!(Error::StackUnderflow.message(), "stack underflow");
    assert_eq!(Error::UnknownWord("foo".into()).message(), "foo is an unknown word");
    assert_eq!(Error::Redefined("x".into()).message(), "x was redefined");
    assert_eq!(Error::Include("a.f".into()).message(), "cannot include a.f");
}

#[test]
fn mul_div_uses_double_precision() {
    assert_eq!(stack_of("912345678 34 100 */"), vec![310197530]);
    assert_eq!(stack_of("912345678 34 100 */mod"), vec![52, 310197530]);
}

#[test]
fn equality_of_flags() {
    assert_eq!(stack_of("true false ="), vec![FALSE]);
    assert_eq!(stack_of("true true ="), vec![TRUE]);
}

#[test]
fn division_by_zero() {
    assert_eq!(run("0 0 /").0, Err(Error::DivisionByZero));
    assert_eq!(run("1 0 mod").0, Err(Error::DivisionByZero));
    assert_eq!(run("1 0 /mod").0, Err(Error::DivisionByZero));
    assert_eq!(run("1 2 0 */").0, Err(Error::DivisionByZero));
    assert_eq!(run("1 2 0 */mod").0, Err(Error::DivisionByZero));
    assert_eq!(run(": f 1 0 / . 2 2 + ; f").0, Err(Error::DivisionByZero));
    assert_eq!(run("begin 1 0 / again").0, Err(Error::DivisionByZero));
}

#[test]
fn empty_function_keeps_the_stack() {
    assert_eq!(stack_of("1 2 : f ; f"), vec![1, 2]);
}

#[test]
fn begin_leave_again_ends() {
    assert_eq!(stack_of("begin leave again"), vec![]);
    assert_eq!(stack_of("7 begin leave again"), vec![7]);
    assert_eq!(stack_of("0 begin 1 + dup 10 > until"), vec![11]);
    assert_eq!(stack_of("0 begin 1 + dup 10 < while repeat"), vec![10]);
}

#[test]
fn redefinition_fails() {
    let mut forth = Forth::new(10);
    assert!(forth.eval_string(": f 1 ;").is_ok());
    assert_eq!(forth.eval_string(": f 2 ;"), Err(Error::Redefined("f".into())));
    assert_eq!(forth.eval_string(": dup 2 ;"), Err(Error::Redefined("dup".into())));
}

#[test]
fn unclosed_constructs_fail_to_parse() {
    for code in [": foo bar", "if 2 +", "if 2 + else 3 -", "begin foo bar", "do i . 2 +", ".\" hello, world!", ".( hello, world!", "( foo bar baz"] {
        let (r, _) = run(code);
        assert!(matches!(r, Err(Error::ParsingError(_))), "parsing {:?}", code);
    }
    assert_eq!(run("variable").0, Err(Error::MissingArgument));
    assert_eq!(run("constant").0, Err(Error::MissingArgument));
}

#[test]
fn char_takes_the_first_character() {
    assert_eq!(stack_of("char hello"), vec!['h' as i32]);
    assert_eq!(stack_of("char x 1"), vec!['x' as i32, 1]);
}

#[test]
fn depth_counts_pushes_and_pops() {
    assert_eq!(stack_of("depth"), vec![0]);
    assert_eq!(stack_of("1 2 3 drop depth"), vec![1, 2, 2]);
}

#[test]
fn negate_twice() {
    assert_eq!(stack_of("-7 negate negate"), vec![-7]);
    assert_eq!(stack_of("2147483647 negate negate"), vec![2147483647]);
}

#[test]
fn div_mod_reconstructs() {
    assert_eq!(stack_of("17 5 /mod swap 5 * +"), vec![17]);
    assert_eq!(stack_of("-17 5 /mod swap 5 * +"), vec![-17]);
    assert_eq!(stack_of("17 -5 /mod"), vec![-3, 2]);
    assert_eq!(stack_of("-17 5 mod"), vec![-2]);
}

#[test]
fn arithmetic_saturates() {
    assert_eq!(stack_of("2147483647 1 +"), vec![i32::MAX]);
    assert_eq!(stack_of("-2147483648 1 -"), vec![i32::MIN]);
    assert_eq!(stack_of("65536 65536 *"), vec![i32::MAX]);
    assert_eq!(stack_of("-2147483648 -1 /"), vec![i32::MAX]);
    assert_eq!(stack_of("-2147483648 abs"), vec![i32::MAX]);
    assert_eq!(stack_of("2147483647 2*"), vec![i32::MAX]);
    assert_eq!(stack_of("-7 2/"), vec![-4]);
}

#[test]
fn unknown_words_and_numbers() {
    assert_eq!(run("foo").0, Err(Error::UnknownWord("foo".into())));
    assert_eq!(stack_of("123 -4 +5"), vec![123, -4, 5]);
    assert_eq!(run("2147483648").0, Err(Error::UnknownWord("2147483648".into())));
    assert_eq!(run("-").0, Err(Error::StackUnderflow));
}

#[test]
fn function_of_one_word_acts_as_the_word() {
    assert_eq!(stack_of("3 : f dup ; f"), stack_of("3 dup"));
    assert_eq!(stack_of("3 4 : g swap ; g"), stack_of("3 4 swap"));
}

#[test]
fn stack_words() {
    assert_eq!(stack_of("1 2 3 4 3 pick"), vec![1, 2, 3, 4, 1]);
    assert_eq!(stack_of("1 2 3 4 3 roll"), vec![2, 3, 4, 1]);
    assert_eq!(stack_of("1 2 3 4 rot"), vec![1, 3, 4, 2]);
    assert_eq!(stack_of("1 2 over"), vec![1, 2, 1]);
    assert_eq!(stack_of("1 2 swap"), vec![2, 1]);
    assert_eq!(stack_of("1 2 3 clearstack"), vec![]);
    assert_eq!(stack_of("5 invert"), vec![-6]);
    assert_eq!(stack_of("0 0= 5 0="), vec![TRUE, FALSE]);
    assert_eq!(stack_of("6 3 and 6 3 or 6 3 xor"), vec![2, 7, 5]);
    assert_eq!(run("1 2 pick").0, Err(Error::StackUnderflow));
}

#[test]
fn memory_words() {
    assert_eq!(stack_of("here 3 allot here"), vec![0, 3]);
    assert_eq!(stack_of("create a 1 , 2 , a 1 + @"), vec![2]);
    assert_eq!(run("5 100 !").0, Err(Error::InvalidAddress));
    assert_eq!(run("0 @").0, Err(Error::InvalidAddress));
}

#[test]
fn values_can_change() {
    assert_eq!(stack_of("5 value v v 7 to v v"), vec![5, 7]);
    assert_eq!(run("5 to dup").0, Err(Error::InvalidName("dup".into())));
    assert_eq!(run("5 to nothing").0, Err(Error::UnknownWord("nothing".into())));
}

#[test]
fn session_signals() {
    assert_eq!(run("then").0, Err(Error::CompileTimeWord));
    assert_eq!(run("1 2 abort").0, Err(Error::Abort));
    assert_eq!(stack_of("1 2 quit 3"), vec![3]);
    assert_eq!(stack_of("1 2 exit"), vec![]);
    assert_eq!(run("bye").0, Err(Error::Bye));
    assert_eq!(run("include lib.f").0, Err(Error::Include("lib.f".into())));
    assert_eq!(run("recurse").0, Err(Error::Recurse));
}

#[test]
fn words_are_case_insensitive() {
    assert_eq!(stack_of("2 DUP +"), vec![4]);
    assert_eq!(stack_of(": SQ DUP * ; 3 sq"), vec![9]);
}

#[test]
fn printing_words() {
    let mut forth = Forth::new(10);
    assert!(forth.eval_string("5 . -12 . cr 65 emit -1 emit").is_ok());
    assert_eq!(printed(&forth), "5 -12 \nA\u{FFFD}");

    let mut forth = Forth::new(10);
    assert!(forth.eval_string(".\" Hello\" .( now) 42 5 .r").is_ok());
    assert_eq!(printed(&forth), "Hellonow   42");

    let mut forth = Forth::new(10);
    assert!(forth.eval_string("1 2 3 .s").is_ok());
    assert_eq!(printed(&forth), " <3> 1 2 3");

    let mut forth = Forth::new(10);
    assert!(forth.eval_string("7 , 8 , 0 2 dump").is_ok());
    assert_eq!(printed(&forth), "7 8");
}

#[test]
fn see_shows_definitions() {
    let mut forth = Forth::new(10);
    assert!(forth.eval_string(": sq dup * ; see sq").is_ok());
    assert_eq!(printed(&forth), ": sq dup * ;");

    let mut forth = Forth::new(10);
    assert!(forth.eval_string("see if").is_ok());
    assert_eq!(printed(&forth), "<special word: if>");

    let mut forth = Forth::new(10);
    assert!(forth.eval_string(": f if 1 else 2 then ; see f").is_ok());
    assert_eq!(printed(&forth), ": f if 1 else 2 then ;");
}

#[test]
fn words_are_listed_in_order() {
    let mut forth = Forth::new(10);
    assert!(forth.eval_string(": zz ; : aa ; words").is_ok());
    let mut names: Vec<String> = forth.dictionary.iter().map(|(k, _)| k.clone()).collect();
    names.sort();
    assert_eq!(printed(&forth), names.join(" "));
    assert!(printed(&forth).starts_with("! "));
}
