//! Expressions of the language, and the part of the parser that reads them.

use std::rc::Rc;
use vstd::prelude::*;

use crate::builtin::IroncamelLinkedList;
use crate::interpreter::CallableObject;
use crate::parser::{
    args_end, args_tokens, call_end, closure_end, expr_end, expr_tokens, if_end, lemma_one,
    lemma_split, read_argument_list, read_block, BlockAST, ParseError,
};
use crate::tokenizer::Token;

verus! {

/// An expression. The parser produces the first group of variants; the
/// evaluator also uses `CallBuiltinFunction`, `Callable` and `List`, and
/// represents every runtime value as one of these.
#[derive(Debug)]
pub enum ExprAST {
    Int(i64),
    Bool(bool),
    StringLiteral(String),
    Variable(String),
    Block(BlockAST),
    If(IfElseExpr),
    Closure(Rc<ClosureAST>),
    CallCallableObjectByname(String, Vec<Box<ExprAST>>),
    Error,
    CallBuiltinFunction(String, Vec<Box<ExprAST>>),
    Callable(CallableObject),
    List(Rc<IroncamelLinkedList>),
}

pub struct IntegerLiteral {
    pub value: i64,
}

#[derive(Debug)]
pub struct IfElseExpr {
    pub condition: Box<ExprAST>,
    pub then_case: BlockAST,
    pub else_case: BlockAST,
}

/// A closure literal `|params| { ... }`; its environment is captured when it
/// is evaluated.
#[derive(Debug)]
pub struct ClosureAST {
    pub params: Vec<String>,
    pub block: BlockAST,
}

/// Reads one expression at `pos`: a literal, an `if`, a closure, a call
/// (a name followed by `(`) or a variable. What it returns is written with
/// exactly the tokens it consumed.
pub fn try_read_expr(tokens: &Vec<Token>, pos: usize) -> (r: Result<(ExprAST, usize), ParseError>)
    ensures
        match r {
            Ok((e, n)) => expr_end(tokens@, pos as int) == Ok::<int, ParseError>(pos + n) && 0 < n && pos + n <= tokens@.len() && tokens@.subrange(pos as int, pos + n)
                == expr_tokens(e),
            Err(x) => expr_end(tokens@, pos as int) == Err::<int, ParseError>(x),
        },
    decreases tokens@.len() - pos, 3int,
{
    let ghost t = tokens@;
    assert(t.len() == tokens.len());
    if pos >= tokens.len() {
        return Err(ParseError::UnexpectedEnd);
    }
    proof {
        lemma_one(t, pos as int);
    }
    match &tokens[pos] {
        Token::Integer64(x) => Ok((ExprAST::Int(*x), 1)),
        Token::LiteralString(s) => Ok((ExprAST::StringLiteral(s.clone()), 1)),
        Token::LiteralTrue => Ok((ExprAST::Bool(true), 1)),
        Token::LiteralFalse => Ok((ExprAST::Bool(false), 1)),
        Token::KeywordIf => match read_if_expr(tokens, pos) {
            Ok((ie, n)) => Ok((ExprAST::If(ie), n)),
            Err(x) => Err(x),
        },
        Token::IdentifierToken(name) => {
            if pos + 1 < tokens.len() {
                match &tokens[pos + 1] {
                    Token::LeftParentheses => {
                        return try_read_function_call(tokens, pos, name);
                    },
                    _ => {},
                }
            }
            Ok((ExprAST::Variable(name.clone()), 1))
        },
        Token::VerticalBar => match read_closure(tokens, pos) {
            Ok((c, n)) => Ok((ExprAST::Closure(Rc::new(c)), n)),
            Err(x) => Err(x),
        },
        _ => Err(ParseError::UnexpectedToken(pos)),
    }
}

/// Reads `name ( (expression (, expression)*)? )`.
fn try_read_function_call(tokens: &Vec<Token>, pos: usize, name: &String) -> (r: Result<
    (ExprAST, usize),
    ParseError,
>)
    requires
        pos + 1 < tokens@.len(),
        tokens@[pos as int] == Token::IdentifierToken(*name),
        tokens@[pos + 1] is LeftParentheses,
    ensures
        match r {
            Ok((e, n)) => call_end(tokens@, pos as int) == Ok::<int, ParseError>(pos + n) && 0 < n && pos + n <= tokens@.len() && tokens@.subrange(pos as int, pos + n)
                == expr_tokens(e),
            Err(x) => call_end(tokens@, pos as int) == Err::<int, ParseError>(x),
        },
    decreases tokens@.len() - pos, 2int,
{
    let ghost t = tokens@;
    assert(t.len() == tokens.len());
    let ghost head = seq![Token::IdentifierToken(*name), Token::LeftParentheses];
    let mut args: Vec<Box<ExprAST>> = Vec::new();
    let args_at = pos + 2;
    proof {
        assert(t.subrange(pos as int, args_at as int) =~= head);
    }
    if args_at >= tokens.len() {
        return Err(ParseError::UnexpectedEnd);
    }
    match &tokens[args_at] {
        Token::RightParentheses => {
            assert(args_tokens(args@) =~= Seq::<Token>::empty());
            let e = ExprAST::CallCallableObjectByname(name.clone(), args);
            proof {
                lemma_split(t, pos as int, args_at as int, args_at + 1);
                lemma_one(t, args_at as int);
                assert(t.subrange(pos as int, args_at + 1) =~= expr_tokens(e));
            }
            return Ok((e, 3));
        },
        _ => {},
    }
    let (first, n) = match try_read_expr(tokens, args_at) {
        Ok(x) => x,
        Err(x) => {
            return Err(x);
        },
    };
    args.push(Box::new(first));
    let mut p = args_at + n;
    proof {
        lemma_split(t, pos as int, args_at as int, p as int);
        assert(t.subrange(pos as int, p as int) =~= head + args_tokens(args@));
    }
    loop
        invariant
            t == tokens@,
            pos + 2 < p <= t.len(),
            call_end(t, pos as int) == args_end(t, p as int),
            args@.len() >= 1,
            head == seq![Token::IdentifierToken(*name), Token::LeftParentheses],
            t.subrange(pos as int, p as int) == head + args_tokens(args@),
        decreases t.len() - p,
    {
        if p >= tokens.len() {
            return Err(ParseError::UnexpectedEnd);
        }
        match &tokens[p] {
            Token::RightParentheses => {
                let e = ExprAST::CallCallableObjectByname(name.clone(), args);
                proof {
                    lemma_split(t, pos as int, p as int, p + 1);
                    lemma_one(t, p as int);
                    assert(t.subrange(pos as int, p + 1) =~= expr_tokens(e));
                }
                return Ok((e, p + 1 - pos));
            },
            Token::Comma => {
                let (arg, m) = match try_read_expr(tokens, p + 1) {
                    Ok(x) => x,
                    Err(x) => {
                        return Err(x);
                    },
                };
                let ghost before = args@;
                args.push(Box::new(arg));
                proof {
                    assert(args@.drop_last() =~= before);
                    lemma_split(t, pos as int, p as int, p + 1);
                    lemma_split(t, pos as int, p + 1, p + 1 + m);
                    lemma_one(t, p as int);
                    assert(t.subrange(pos as int, p + 1 + m) =~= head + args_tokens(args@));
                }
                p = p + 1 + m;
            },
            _ => {
                return Err(ParseError::UnexpectedToken(p));
            },
        }
    }
}

/// Reads `if expression then block else block`.
fn read_if_expr(tokens: &Vec<Token>, pos: usize) -> (r: Result<(IfElseExpr, usize), ParseError>)
    requires
        pos < tokens@.len(),
        tokens@[pos as int] is KeywordIf,
    ensures
        match r {
            Ok((ie, n)) => if_end(tokens@, pos as int) == Ok::<int, ParseError>(pos + n) && 0 < n && pos + n <= tokens@.len() && tokens@.subrange(pos as int, pos + n)
                == expr_tokens(ExprAST::If(ie)),
            Err(x) => if_end(tokens@, pos as int) == Err::<int, ParseError>(x),
        },
    decreases tokens@.len() - pos, 2int,
{
    let ghost t = tokens@;
    assert(t.len() == tokens.len());
    let (condition, cond_len) = match try_read_expr(tokens, pos + 1) {
        Ok(x) => x,
        Err(x) => {
            return Err(x);
        },
    };
    let then_at = pos + 1 + cond_len;
    if then_at >= tokens.len() {
        return Err(ParseError::UnexpectedEnd);
    }
    match &tokens[then_at] {
        Token::KeywordThen => {},
        _ => {
            return Err(ParseError::UnexpectedToken(then_at));
        },
    }
    let (then_case, then_len) = match read_block(tokens, then_at + 1) {
        Ok(x) => x,
        Err(x) => {
            return Err(x);
        },
    };
    let else_at = then_at + 1 + then_len;
    if else_at >= tokens.len() {
        return Err(ParseError::UnexpectedEnd);
    }
    match &tokens[else_at] {
        Token::KeywordElse => {},
        _ => {
            return Err(ParseError::UnexpectedToken(else_at));
        },
    }
    let (else_case, else_len) = match read_block(tokens, else_at + 1) {
        Ok(x) => x,
        Err(x) => {
            return Err(x);
        },
    };
    let end = else_at + 1 + else_len;
    let ie = IfElseExpr { condition: Box::new(condition), then_case, else_case };
    proof {
        lemma_one(t, pos as int);
        lemma_one(t, then_at as int);
        lemma_one(t, else_at as int);
        lemma_split(t, pos as int, pos + 1, then_at as int);
        lemma_split(t, pos as int, then_at as int, then_at + 1);
        lemma_split(t, pos as int, then_at + 1, else_at as int);
        lemma_split(t, pos as int, else_at as int, else_at + 1);
        lemma_split(t, pos as int, else_at + 1, end as int);
        assert(t.subrange(pos as int, end as int) =~= expr_tokens(ExprAST::If(ie)));
    }
    Ok((ie, end - pos))
}

/// Reads `| names | block`.
fn read_closure(tokens: &Vec<Token>, pos: usize) -> (r: Result<(ClosureAST, usize), ParseError>)
    requires
        pos < tokens@.len(),
        tokens@[pos as int] is VerticalBar,
    ensures
        match r {
            Ok((c, n)) => closure_end(tokens@, pos as int) == Ok::<int, ParseError>(pos + n) && 0 < n && pos + n <= tokens@.len() && tokens@.subrange(pos as int, pos + n)
                == expr_tokens(ExprAST::Closure(Rc::new(c))),
            Err(x) => closure_end(tokens@, pos as int) == Err::<int, ParseError>(x),
        },
    decreases tokens@.len() - pos, 2int,
{
    let ghost t = tokens@;
    assert(t.len() == tokens.len());
    let (params, names_len) = match read_argument_list(tokens, pos + 1) {
        Ok(x) => x,
        Err(x) => {
            return Err(x);
        },
    };
    let bar_at = pos + 1 + names_len;
    match &tokens[bar_at] {
        Token::VerticalBar => {},
        _ => {
            return Err(ParseError::UnexpectedToken(bar_at));
        },
    }
    let (block, block_len) = match read_block(tokens, bar_at + 1) {
        Ok(x) => x,
        Err(x) => {
            return Err(x);
        },
    };
    let end = bar_at + 1 + block_len;
    let c = ClosureAST { params, block };
    proof {
        lemma_one(t, pos as int);
        lemma_one(t, bar_at as int);
        lemma_split(t, pos as int, pos + 1, bar_at as int);
        lemma_split(t, pos as int, bar_at as int, bar_at + 1);
        lemma_split(t, pos as int, bar_at + 1, end as int);
        assert(t.subrange(pos as int, end as int) =~= expr_tokens(ExprAST::Closure(Rc::new(c))));
    }
    Ok((c, end - pos))
}

/// Whether an expression holds no block, branch or call at its top, so that
/// a copy of it can share all its parts. Every runtime value is flat.
pub open spec fn is_flat(e: ExprAST) -> bool {
    !(e is Block || e is If || e is CallCallableObjectByname || e is CallBuiltinFunction)
}

/// What `copy_flat` makes of an expression: the expression itself when it is
/// flat, `Error` otherwise.
pub open spec fn flat_copy(e: ExprAST) -> ExprAST {
    if is_flat(e) {
        e
    } else {
        ExprAST::Error
    }
}

impl ExprAST {
    /// A copy of a flat expression, sharing its lists, closures and scopes.
    pub fn copy_flat(&self) -> (r: ExprAST)
        ensures
            r == flat_copy(*self),
    {
        match self {
            ExprAST::Int(x) => ExprAST::Int(*x),
            ExprAST::Bool(b) => ExprAST::Bool(*b),
            ExprAST::StringLiteral(s) => ExprAST::StringLiteral(s.clone()),
            ExprAST::Variable(s) => ExprAST::Variable(s.clone()),
            ExprAST::Closure(c) => ExprAST::Closure(Rc::clone(c)),
            ExprAST::Error => ExprAST::Error,
            ExprAST::Callable(c) => ExprAST::Callable(c.duplicate()),
            ExprAST::List(l) => ExprAST::List(Rc::clone(l)),
            _ => ExprAST::Error,
        }
    }
}

} // verus!
