use std::collections::HashMap;

use ironcamel::interpreter::{Action, EvalError, MainSession};
use ironcamel::parser::build_ast;
use ironcamel::tokenizer::convert_source_to_tokens;

const FUEL: u64 = 100_000;

/// Runs a program with the given standard input lines and files, and
/// returns what it wrote to standard output, or the error that stopped it.
fn run_with(src: &str, stdin: &[&str], files: &[(&str, &str)]) -> Result<String, EvalError> {
    let tokens = convert_source_to_tokens(src).expect("tokenizes");
    let program = build_ast(&tokens).expect("parses");
    let mut session = MainSession::new(program, FUEL)?;
    let mut out = String::new();
    let mut input = stdin.iter();
    let mut readers: HashMap<String, Vec<String>> = HashMap::new();
    loop {
        match session.step()? {
            Action::Continue => {}
            Action::Finished => return Ok(out),
            Action::Write { handle, text } => {
                if handle == "stdout" {
                    out.push_str(&text);
                }
            }
            Action::Read { handle } => {
                let line = if handle == "stdin" {
                    format!("{}\n", input.next().expect("a line of input"))
                } else {
                    readers.get_mut(&handle).expect("open").remove(0)
                };
                session.complete_read(line)?;
            }
            Action::Open { handle, path, .. } => {
                let content = files.iter().find(|(p, _)| *p == path).map(|(_, c)| *c).unwrap_or("");
                let lines = content.split_inclusive('\n').map(|l| l.to_string()).collect();
                readers.insert(handle, lines);
            }
        }
    }
}

fn run(src: &str) -> Result<String, EvalError> {
    run_with(src, &[], &[])
}

#[test]
fn writes_a_sum() {
    assert_eq!(run("fn main() { writeline@stdout << +(40, 2); 0 }").unwrap(), "42\n");
}

#[test]
fn writes_a_list() {
    let out = run("fn main() { let xs = list(1,2,3); writelist@stdout << xs; 0 }").unwrap();
    assert_eq!(out, "1 2 3 \n");
}

#[test]
fn recursive_sum() {
    let src = "fn sum(xs){ if is_empty(xs) then {0} else {+(hd(xs), sum(tl(xs)))} } \
               fn main(){ writeline@stdout << sum(list(1,2,3,4)); 0 }";
    assert_eq!(run(src).unwrap(), "10\n");
}

#[test]
fn closure_from_function() {
    let src = "fn make(n){ |x| { +(x, n) } } \
               fn main(){ let add3 = make(3); writeline@stdout << add3(4); 0 }";
    assert_eq!(run(src).unwrap(), "7\n");
}

#[test]
fn file_line_tokenized() {
    let src = "fn main() { fopen_read@f = \"input.txt\"; readstr@f >> line; \
               let parts = strtok(line, \" ,\"); writelist@stdout << parts; 0 }";
    let out = run_with(src, &[], &[("input.txt", "a,b c,,d\n")]).unwrap();
    // A line read from a file keeps its newline, and the delimiters are only
    // space and comma, so the last fragment is "d\n".
    assert_eq!(out, "a b c d\n \n");
    let out = run_with(src, &[], &[("input.txt", "a,b c,,d")]).unwrap();
    assert_eq!(out, "a b c d \n");
}

#[test]
fn rebinding_in_main_fails() {
    let r = run("fn main() { let x = 1; let x = 2; x }");
    assert!(matches!(r, Err(EvalError::Shadowing(ref n)) if n == "x"));
}

#[test]
fn rebinding_in_nested_block_fails() {
    let src = "fn main() { let x = 1; let y = if true then { let x = 2; x } else { 0 }; 0 }";
    assert!(matches!(run(src), Err(EvalError::Shadowing(ref n)) if n == "x"));
    let src = "fn f(a) { let b = 1; let b = 2; b } fn main() { let r = f(0); 0 }";
    assert!(matches!(run(src), Err(EvalError::Shadowing(ref n)) if n == "b"));
}

#[test]
fn function_name_as_let_target_fails() {
    let src = "fn f() { 0 } fn main() { let f = 1; 0 }";
    assert!(matches!(run(src), Err(EvalError::Shadowing(ref n)) if n == "f"));
}

#[test]
fn failing_argument_stops_before_the_call() {
    // `nowhere` is not defined, but the argument fails first.
    let src = "fn main() { writeline@stdout << nowhere(hd(list())); 0 }";
    assert!(matches!(run(src), Err(EvalError::EmptyList)));
    let src = "fn loud(a) { a } fn main() { writeline@stdout << loud(+(1, true)); 0 }";
    assert!(matches!(run(src), Err(EvalError::TypeMismatch)));
}

#[test]
fn closure_sees_its_captured_binding() {
    let src = "fn make() { let x = 1; |y| { x } } \
               fn main() { let x = 2; let g = make(); writeline@stdout << g(0); writeline@stdout << x; 0 }";
    assert_eq!(run(src).unwrap(), "1\n2\n");
    let src = "fn main() { let g = if true then { let x = 1; |y| { x } } else { |y| { y } }; \
               let x = 2; writeline@stdout << g(0); 0 }";
    assert_eq!(run(src).unwrap(), "1\n");
}

#[test]
fn if_branch_bindings_stay_inside() {
    let src = "fn main() { let y = if true then { let x = 1; x } else { 2 }; writeline@stdout << x; 0 }";
    assert!(matches!(run(src), Err(EvalError::UndefinedName(ref n)) if n == "x"));
    let src = "fn main() { let y = if false then { let z = 1; z } else { z }; 0 }";
    assert!(matches!(run(src), Err(EvalError::UndefinedName(ref n)) if n == "z"));
    let src = "fn main() { let y = if false then { let z = 1; z } else { let z = 5; z }; writeline@stdout << y; 0 }";
    assert_eq!(run(src).unwrap(), "5\n");
}

#[test]
fn standard_input_loses_its_newline() {
    let src = "fn main() { readstr@stdin >> name; writeline@stdout << name; writeline@stdout << atoi(name); 0 }";
    assert_eq!(run_with(src, &["17"], &[]).unwrap(), "17\n17\n");
}

#[test]
fn values_are_written_by_kind() {
    let src = "fn main() { writeline@stdout << true; writeline@stdout << \"a\\tb\"; \
               writeline@stdout << -(0, 5); writelist@stdout << cons(\"x\", list(false)); 0 }";
    assert_eq!(run(src).unwrap(), "true\na\tb\n-5\nx false \n");
}

#[test]
fn global_functions_and_builtins_are_values() {
    let src = "fn twice(f, x) { f(f(x)) } fn inc(n) { +(n, 1) } \
               fn main() { writeline@stdout << twice(inc, 5); let plus = +; writeline@stdout << plus(2, 3); 0 }";
    assert_eq!(run(src).unwrap(), "7\n5\n");
}

#[test]
fn missing_main_is_an_error() {
    let tokens = convert_source_to_tokens("fn f() { 0 }").unwrap();
    let program = build_ast(&tokens).unwrap();
    assert!(matches!(MainSession::new(program, FUEL), Err(EvalError::MainNotFound)));
}

#[test]
fn runtime_errors_by_kind() {
    assert!(matches!(run("fn main() { let a = b; 0 }"), Err(EvalError::UndefinedName(ref n)) if n == "b"));
    assert!(matches!(run("fn main() { let a = 1; let b = a(2); 0 }"), Err(EvalError::NotCallable(ref n)) if n == "a"));
    assert!(matches!(run("fn f(a) { a } fn main() { let b = f(1, 2); 0 }"), Err(EvalError::ArityMismatch)));
    assert!(matches!(run("fn main() { let b = if 1 then { 0 } else { 1 }; 0 }"), Err(EvalError::NotBoolean)));
    assert!(matches!(run("fn main() { let b = *(9223372036854775807, 2); 0 }"), Err(EvalError::Overflow)));
    assert!(matches!(run("fn main() { let b = tl(list()); 0 }"), Err(EvalError::EmptyList)));
    assert!(matches!(run("fn main() { let b = atoi(\"x1\"); 0 }"), Err(EvalError::BadNumber)));
    assert!(matches!(run("fn f() { writeline@stdout << 1; 0 } fn main() { let b = f(); 0 }"), Err(EvalError::IoOutsideMain)));
    assert!(matches!(run("fn main() { writeline@nowhere << 1; 0 }"), Err(EvalError::UnknownHandle(ref n)) if n == "nowhere"));
    assert!(matches!(run("fn main() { shout@stdout << 1; 0 }"), Err(EvalError::UnknownProcedure(ref n)) if n == "shout"));
    assert!(matches!(run("fn main() { readstr@stdout >> a; 0 }"), Err(EvalError::WrongMode(ref n)) if n == "stdout"));
    assert!(matches!(run("fn main() { writeline@stdout << list(1); 0 }"), Err(EvalError::TypeMismatch)));
}

#[test]
fn budget_runs_out_on_deep_recursion() {
    let tokens = convert_source_to_tokens("fn down(n) { down(n) } fn main() { let a = down(1); 0 }").unwrap();
    let program = build_ast(&tokens).unwrap();
    let mut session = MainSession::new(program, 50).unwrap();
    assert!(matches!(session.step(), Err(EvalError::OutOfFuel)));
}

#[test]
fn line_without_pending_read_is_refused() {
    let tokens = convert_source_to_tokens("fn main() { let a = 1; 0 }").unwrap();
    let program = build_ast(&tokens).unwrap();
    let mut session = MainSession::new(program, FUEL).unwrap();
    assert!(matches!(session.complete_read("x".to_string()), Err(EvalError::NoPendingRead)));
    assert!(matches!(session.step(), Ok(Action::Continue)));
    assert!(matches!(session.step(), Ok(Action::Finished)));
}

#[test]
fn open_registers_the_handle() {
    let tokens = convert_source_to_tokens("fn main() { fopen_write@out = \"o.txt\"; writeline@out << 3; 0 }").unwrap();
    let program = build_ast(&tokens).unwrap();
    let mut session = MainSession::new(program, FUEL).unwrap();
    match session.step() {
        Ok(Action::Open { handle, path, .. }) => {
            assert_eq!(handle, "out");
            assert_eq!(path, "o.txt");
        }
        _ => panic!("expected an open"),
    }
    match session.step() {
        Ok(Action::Write { handle, text }) => {
            assert_eq!(handle, "out");
            assert_eq!(text, "3\n");
        }
        _ => panic!("expected a write"),
    }
}
