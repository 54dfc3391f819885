use std::rc::Rc;

use ironcamel::builtin::{build_empty_list_expr, IroncamelLinkedList};
use ironcamel::expr::{try_read_expr, ExprAST, IntegerLiteral};
use ironcamel::interpreter::{eval, process_global_functions, CallableObject, Env, EvalError, GlobalState};
use ironcamel::parser::{build_ast, function2block};
use ironcamel::tokenizer::convert_source_to_tokens;

fn expr(src: &str) -> ExprAST {
    let tokens = convert_source_to_tokens(src).unwrap();
    let (e, n) = try_read_expr(&tokens, 0).unwrap();
    assert_eq!(n, tokens.len());
    e
}

fn globals(src: &str) -> GlobalState {
    let tokens = convert_source_to_tokens(src).unwrap();
    let (global_scope, _) = process_global_functions(build_ast(&tokens).unwrap().functions);
    GlobalState { global_scope }
}

fn bind(name: &str, value: ExprAST, rest: &Rc<Env>) -> Rc<Env> {
    Rc::new(Env::Bind { name: name.to_string(), value, rest: Rc::clone(rest) })
}

#[test]
fn evaluates_in_a_scope() {
    let g = globals("fn double(n) { +(n, n) }");
    let empty = Rc::new(Env::Empty);
    let env = bind("x", ExprAST::Int(20), &empty);
    assert!(matches!(eval(&g, &env, &expr("double(+(x, 1))"), 100), Ok(ExprAST::Int(42))));
    assert!(matches!(eval(&g, &env, &expr("y"), 100), Err(EvalError::UndefinedName(ref n)) if n == "y"));
    assert!(matches!(eval(&g, &env, &expr("double"), 100), Ok(ExprAST::Callable(CallableObject::GlobalFunction(ref n))) if n == "double"));
    assert!(matches!(eval(&g, &env, &expr("hd"), 100), Ok(ExprAST::Callable(CallableObject::BuiltinFunction(ref n))) if n == "hd"));
    assert!(matches!(eval(&g, &env, &expr("x"), 0), Err(EvalError::OutOfFuel)));
    assert!(matches!(eval(&g, &env, &ExprAST::Error, 5), Err(EvalError::ErrorExpression)));
}

#[test]
fn closure_captures_its_scope() {
    let g = globals("");
    let empty = Rc::new(Env::Empty);
    let creation = bind("x", ExprAST::Int(1), &empty);
    let closure = eval(&g, &creation, &expr("|y| { +(x, y) }"), 100).unwrap();
    match &closure {
        ExprAST::Callable(CallableObject::Closure(_, captured)) => assert!(Rc::ptr_eq(captured, &creation)),
        _ => panic!("expected a closure"),
    }
    let caller = bind("f", closure, &bind("x", ExprAST::Int(2), &empty));
    assert!(matches!(eval(&g, &caller, &expr("f(10)"), 100), Ok(ExprAST::Int(11))));
}

#[test]
fn global_table_leaves_out_main() {
    let g = globals("fn a() { 1 } fn main() { 0 } fn b() { 2 }");
    assert_eq!(g.global_scope.len(), 2);
    assert!(g.find_global_function(&"b".to_string()).is_some());
    assert!(g.find_global_function(&"main".to_string()).is_none());
    assert!(g.has_identifier(&"a".to_string()));
    let tokens = convert_source_to_tokens("fn main() { let a = 1; a }").unwrap();
    let (rest, main) = process_global_functions(build_ast(&tokens).unwrap().functions);
    assert!(rest.is_empty());
    let block = function2block(main.unwrap());
    assert_eq!(block.statements.len(), 1);
    assert!(matches!(*block.return_expr, ExprAST::Variable(ref v) if v == "a"));
}

#[test]
fn empty_list_value() {
    match build_empty_list_expr() {
        ExprAST::List(l) => {
            assert_eq!(l.len, 0);
            assert!(l.next.is_none());
        }
        _ => panic!("expected a list"),
    }
    let l = IroncamelLinkedList::build_empty_list();
    assert_eq!(l.as_vector().len(), 0);
    let literal = IntegerLiteral { value: 7 };
    assert_eq!(literal.value, 7);
}
