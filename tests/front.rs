use ironcamel::builtin::{call_builtin_function, perform_write};
use ironcamel::expr::{try_read_expr, ExprAST};
use ironcamel::interpreter::EvalError;
use ironcamel::parser::{build_ast, read_argument_list, ParseError};
use ironcamel::tokenizer::{convert_source_to_tokens, LexError, Token};

fn ident(s: &str) -> Token {
    Token::IdentifierToken(s.to_string())
}

#[test]
fn keyword_prefixed_names_are_one_token() {
    for name in ["iffy", "letter", "fnord", "thenceforth", "elsewhere", "trueish", "falsehood", "if_"] {
        assert_eq!(convert_source_to_tokens(name).unwrap(), vec![ident(name)]);
    }
    assert_eq!(convert_source_to_tokens("if").unwrap(), vec![Token::KeywordIf]);
    assert_eq!(
        convert_source_to_tokens("let letter = iffy;").unwrap(),
        vec![Token::KeywordLet, ident("letter"), Token::OperatorAssign, ident("iffy"), Token::Semicolon]
    );
}

#[test]
fn operators_take_the_longest_match() {
    assert_eq!(
        convert_source_to_tokens("== = << <= < >> >= > + - * | , ; @").unwrap(),
        vec![
            ident("=="),
            Token::OperatorAssign,
            Token::OperatorPutTo,
            ident("<="),
            ident("<"),
            Token::OperatorGetFrom,
            ident(">="),
            ident(">"),
            ident("+"),
            ident("-"),
            ident("*"),
            Token::VerticalBar,
            Token::Comma,
            Token::Semicolon,
            Token::AddressSign,
        ]
    );
}

#[test]
fn literals_brackets_and_comments() {
    assert_eq!(
        convert_source_to_tokens("( ) [ ] { } 0 42 true false \"a\\nb\" // note\nx").unwrap(),
        vec![
            Token::LeftParentheses,
            Token::RightParentheses,
            Token::LeftSquareBracket,
            Token::RightSquareBracket,
            Token::LeftCurlyBracket,
            Token::RightCurlyBracket,
            Token::Integer64(0),
            Token::Integer64(42),
            Token::LiteralTrue,
            Token::LiteralFalse,
            Token::LiteralString("a\nb".to_string()),
            ident("x"),
        ]
    );
    assert_eq!(convert_source_to_tokens("9223372036854775807").unwrap(), vec![Token::Integer64(i64::MAX)]);
    assert_eq!(convert_source_to_tokens("// only a comment").unwrap(), vec![]);
    assert_eq!(convert_source_to_tokens("").unwrap(), vec![]);
}

#[test]
fn lexical_errors() {
    assert_eq!(convert_source_to_tokens("a # b"), Err(LexError::UnrecognizedCharacter(2)));
    assert_eq!(convert_source_to_tokens("x \"open"), Err(LexError::UnterminatedString(2)));
    assert_eq!(convert_source_to_tokens("007"), Err(LexError::BadNumber(0)));
    assert_eq!(convert_source_to_tokens("9223372036854775808"), Err(LexError::BadNumber(0)));
}

#[test]
fn parser_reads_expressions() {
    let tokens = convert_source_to_tokens("f(1, g(x), |a, b| { a })").unwrap();
    let (e, n) = try_read_expr(&tokens, 0).unwrap();
    assert_eq!(n, tokens.len());
    match e {
        ExprAST::CallCallableObjectByname(name, args) => {
            assert_eq!(name, "f");
            assert_eq!(args.len(), 3);
            assert!(matches!(*args[0], ExprAST::Int(1)));
            assert!(matches!(&*args[1], ExprAST::CallCallableObjectByname(g, a) if g == "g" && a.len() == 1));
            assert!(matches!(&*args[2], ExprAST::Closure(c) if c.params.len() == 2));
        }
        _ => panic!("expected a call"),
    }
    let tokens = convert_source_to_tokens("x y").unwrap();
    assert!(matches!(try_read_expr(&tokens, 0), Ok((ExprAST::Variable(_), 1))));
    assert!(matches!(try_read_expr(&tokens, 2), Err(ParseError::UnexpectedEnd)));
    let tokens = convert_source_to_tokens("; x").unwrap();
    assert!(matches!(try_read_expr(&tokens, 0), Err(ParseError::UnexpectedToken(0))));
}

#[test]
fn parser_reads_argument_lists() {
    let tokens = convert_source_to_tokens("a, b, c)").unwrap();
    let (names, n) = read_argument_list(&tokens, 0).unwrap();
    assert_eq!(names, vec!["a".to_string(), "b".to_string(), "c".to_string()]);
    assert_eq!(n, 5);
    let tokens = convert_source_to_tokens("|").unwrap();
    assert_eq!(read_argument_list(&tokens, 0).unwrap().1, 0);
    let tokens = convert_source_to_tokens("a b)").unwrap();
    assert!(matches!(read_argument_list(&tokens, 0), Err(ParseError::UnexpectedToken(1))));
}

#[test]
fn parser_reads_programs() {
    let tokens = convert_source_to_tokens(
        "fn f(a) { let b = a; b } fn main() { readstr@stdin >> l; writeline@stdout << f(l); fopen_read@h = \"p\"; 0 }",
    )
    .unwrap();
    let program = build_ast(&tokens).unwrap();
    assert_eq!(program.functions.len(), 2);
    assert_eq!(program.functions[0].function_name, "f");
    assert_eq!(program.functions[0].arguments, vec!["a".to_string()]);
    assert_eq!(program.functions[0].statements.len(), 1);
    assert_eq!(program.functions[1].statements.len(), 3);
    let missing_return = convert_source_to_tokens("fn main() { let a = 1; }").unwrap();
    assert!(matches!(build_ast(&missing_return), Err(ParseError::UnexpectedToken(10))));
    let cut = convert_source_to_tokens("fn main() { 0").unwrap();
    assert!(matches!(build_ast(&cut), Err(ParseError::UnexpectedEnd)));
}

fn num(x: i64) -> ExprAST {
    ExprAST::Int(x)
}

fn text(s: &str) -> ExprAST {
    ExprAST::StringLiteral(s.to_string())
}

fn builtin(name: &str, args: Vec<ExprAST>) -> Result<ExprAST, EvalError> {
    call_builtin_function(&name.to_string(), args)
}

fn written(v: &ExprAST) -> String {
    perform_write(&"writelist".to_string(), v).unwrap()
}

#[test]
fn arithmetic_and_comparison() {
    assert!(matches!(builtin("+", vec![num(40), num(2)]), Ok(ExprAST::Int(42))));
    assert!(matches!(builtin("-", vec![num(2), num(40)]), Ok(ExprAST::Int(-38))));
    assert!(matches!(builtin("*", vec![num(-6), num(7)]), Ok(ExprAST::Int(-42))));
    assert!(matches!(builtin("+", vec![num(i64::MAX), num(1)]), Err(EvalError::Overflow)));
    assert!(matches!(builtin("-", vec![num(i64::MIN), num(1)]), Err(EvalError::Overflow)));
    assert!(matches!(builtin("==", vec![num(3), num(3)]), Ok(ExprAST::Bool(true))));
    assert!(matches!(builtin("<", vec![num(3), num(3)]), Ok(ExprAST::Bool(false))));
    assert!(matches!(builtin(">", vec![num(4), num(3)]), Ok(ExprAST::Bool(true))));
    assert!(matches!(builtin("<=", vec![num(3), num(3)]), Ok(ExprAST::Bool(true))));
    assert!(matches!(builtin(">=", vec![num(2), num(3)]), Ok(ExprAST::Bool(false))));
    assert!(matches!(builtin("+", vec![num(1)]), Err(EvalError::ArityMismatch)));
    assert!(matches!(builtin("+", vec![num(1), text("1")]), Err(EvalError::TypeMismatch)));
    assert!(matches!(builtin("nothing", vec![]), Err(EvalError::UndefinedName(ref n)) if n == "nothing"));
}

#[test]
fn list_builtins() {
    let l = builtin("list", vec![num(1), num(2), num(3)]).unwrap();
    assert_eq!(written(&l), "1 2 3 \n");
    let c = builtin("cons", vec![num(0), l]).unwrap();
    assert_eq!(written(&c), "0 1 2 3 \n");
    assert!(matches!(builtin("hd", vec![c]), Ok(ExprAST::Int(0))));
    let one = builtin("list", vec![num(5)]).unwrap();
    let rest = builtin("tl", vec![one]).unwrap();
    assert!(matches!(builtin("is_empty", vec![rest]), Ok(ExprAST::Bool(true))));
    let empty = builtin("list", vec![]).unwrap();
    assert!(matches!(builtin("hd", vec![empty]), Err(EvalError::EmptyList)));
    assert!(matches!(builtin("cons", vec![num(1), num(2)]), Err(EvalError::TypeMismatch)));
}

#[test]
fn atoi_builtin() {
    assert!(matches!(builtin("atoi", vec![text("123")]), Ok(ExprAST::Int(123))));
    assert!(matches!(builtin("atoi", vec![text("-17")]), Ok(ExprAST::Int(-17))));
    assert!(matches!(builtin("atoi", vec![text("-9223372036854775808")]), Ok(ExprAST::Int(i64::MIN))));
    assert!(matches!(builtin("atoi", vec![text("9223372036854775808")]), Err(EvalError::Overflow)));
    assert!(matches!(builtin("atoi", vec![text("12a")]), Err(EvalError::BadNumber)));
    assert!(matches!(builtin("atoi", vec![text("-")]), Err(EvalError::BadNumber)));
    assert!(matches!(builtin("atoi", vec![text("")]), Err(EvalError::BadNumber)));
}

#[test]
fn strtok_builtin() {
    let parts = builtin("strtok", vec![text("a,b c,,d"), text(" ,")]).unwrap();
    assert_eq!(written(&parts), "a b c d \n");
    let parts = builtin("strtok", vec![text(",,"), text(",")]).unwrap();
    assert_eq!(written(&parts), "\n");
    let parts = builtin("strtok", vec![text("abc"), text("")]).unwrap();
    assert_eq!(written(&parts), "abc \n");
}

#[test]
fn write_procedures() {
    let line = |v: &ExprAST| perform_write(&"writeline".to_string(), v).unwrap();
    assert_eq!(line(&num(-42)), "-42\n");
    assert_eq!(line(&num(i64::MIN)), "-9223372036854775808\n");
    assert_eq!(line(&num(0)), "0\n");
    assert_eq!(line(&ExprAST::Bool(false)), "false\n");
    assert_eq!(line(&text("hi")), "hi\n");
    assert!(matches!(perform_write(&"shout".to_string(), &num(1)), Err(EvalError::UnknownProcedure(_))));
    assert!(matches!(perform_write(&"writelist".to_string(), &num(1)), Err(EvalError::TypeMismatch)));
}
