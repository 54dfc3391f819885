//! Programs, functions, blocks and statements, and the recursive-descent
//! parser that builds them from tokens.

use vstd::prelude::*;

use crate::expr::{try_read_expr, ExprAST};
use crate::tokenizer::Token;

verus! {

pub struct ProgramAST {
    pub functions: Vec<FunctionAST>,
}

#[derive(Debug)]
pub struct FunctionAST {
    pub function_name: String,
    pub arguments: Vec<String>,
    pub statements: Vec<StatementAST>,
    pub return_expr: Box<ExprAST>,
}

/// A block: statements followed by the expression whose value it has.
#[derive(Debug)]
pub struct BlockAST {
    pub statements: Vec<StatementAST>,
    pub return_expr: Box<ExprAST>,
}

#[derive(Debug)]
pub enum StatementAST {
    Bind(LetBindingAST),
    Read(ReadAst),
    Write(WriteAst),
    FileOpen(FileOpenAst),
    Error,
}

/// `let variable = expr;`
#[derive(Debug)]
pub struct LetBindingAST {
    pub variable: String,
    pub expr: Box<ExprAST>,
}

/// `procedure@handle >> variable;`
#[derive(Debug)]
pub struct ReadAst {
    pub impure_procedure_name: String,
    pub file_handler: String,
    pub write_to_variable: String,
}

/// `procedure@handle << expr;`
#[derive(Debug)]
pub struct WriteAst {
    pub impure_procedure_name: String,
    pub file_handler: String,
    pub expr: Box<ExprAST>,
}

/// `procedure@handle = "path";`
#[derive(Debug)]
pub struct FileOpenAst {
    pub impure_procedure_name: String,
    pub file_handler: String,
    pub file_path: String,
}

pub open spec fn function_block(f: FunctionAST) -> BlockAST {
    BlockAST { statements: f.statements, return_expr: f.return_expr }
}

/// The body of a function as a block.
pub fn function2block(ast: FunctionAST) -> (r: BlockAST)
    ensures
        r == function_block(ast),
{
    BlockAST { statements: ast.statements, return_expr: ast.return_expr }
}

/// Why parsing failed.
#[derive(Debug, PartialEq, Eq, Structural)]
pub enum ParseError {
    /// The token at this index does not fit the grammar there.
    UnexpectedToken(usize),
    /// The tokens ended inside a construct.
    UnexpectedEnd,
}

/// The tokens an expression is written with; the forms that only the
/// evaluator produces are written as a placeholder.
pub open spec fn expr_tokens(e: ExprAST) -> Seq<Token>
    decreases e, 0int,
{
    match e {
        ExprAST::Int(x) => seq![Token::Integer64(x)],
        ExprAST::Bool(b) => if b {
            seq![Token::LiteralTrue]
        } else {
            seq![Token::LiteralFalse]
        },
        ExprAST::StringLiteral(s) => seq![Token::LiteralString(s)],
        ExprAST::Variable(v) => seq![Token::IdentifierToken(v)],
        ExprAST::If(ie) => seq![Token::KeywordIf] + expr_tokens(*ie.condition) + seq![Token::KeywordThen]
            + block_tokens(ie.then_case) + seq![Token::KeywordElse] + block_tokens(ie.else_case),
        ExprAST::Closure(c) => seq![Token::VerticalBar] + names_tokens(c.params@) + seq![Token::VerticalBar]
            + block_tokens(c.block),
        ExprAST::CallCallableObjectByname(name, args) => seq![
            Token::IdentifierToken(name),
            Token::LeftParentheses,
        ] + args_tokens(args@) + seq![Token::RightParentheses],
        _ => seq![Token::PlaceholderToken],
    }
}

/// The tokens of a comma-separated list of expressions.
pub open spec fn args_tokens(args: Seq<Box<ExprAST>>) -> Seq<Token>
    decreases args, 1int,
{
    if args.len() == 0 {
        Seq::empty()
    } else if args.len() == 1 {
        expr_tokens(*args[0])
    } else {
        args_tokens(args.drop_last()) + seq![Token::Comma] + expr_tokens(*args.last())
    }
}

/// The tokens of a comma-separated list of names.
pub open spec fn names_tokens(names: Seq<String>) -> Seq<Token>
    decreases names.len(),
{
    if names.len() == 0 {
        Seq::empty()
    } else if names.len() == 1 {
        seq![Token::IdentifierToken(names[0])]
    } else {
        names_tokens(names.drop_last()) + seq![Token::Comma, Token::IdentifierToken(names.last())]
    }
}

/// The tokens of a block.
pub open spec fn block_tokens(b: BlockAST) -> Seq<Token>
    decreases b, 0int,
{
    seq![Token::LeftCurlyBracket] + statements_tokens(b.statements@) + expr_tokens(*b.return_expr)
        + seq![Token::RightCurlyBracket]
}

/// The tokens of a sequence of statements.
pub open spec fn statements_tokens(ss: Seq<StatementAST>) -> Seq<Token>
    decreases ss, 1int,
{
    if ss.len() == 0 {
        Seq::empty()
    } else {
        statements_tokens(ss.drop_last()) + statement_tokens(ss.last())
    }
}

/// The tokens of a statement.
pub open spec fn statement_tokens(st: StatementAST) -> Seq<Token>
    decreases st, 0int,
{
    match st {
        StatementAST::Bind(lb) => seq![
            Token::KeywordLet,
            Token::IdentifierToken(lb.variable),
            Token::OperatorAssign,
        ] + expr_tokens(*lb.expr) + seq![Token::Semicolon],
        StatementAST::Read(r) => seq![
            Token::IdentifierToken(r.impure_procedure_name),
            Token::AddressSign,
            Token::IdentifierToken(r.file_handler),
            Token::OperatorGetFrom,
            Token::IdentifierToken(r.write_to_variable),
            Token::Semicolon,
        ],
        StatementAST::Write(w) => seq![
            Token::IdentifierToken(w.impure_procedure_name),
            Token::AddressSign,
            Token::IdentifierToken(w.file_handler),
            Token::OperatorPutTo,
        ] + expr_tokens(*w.expr) + seq![Token::Semicolon],
        StatementAST::FileOpen(f) => seq![
            Token::IdentifierToken(f.impure_procedure_name),
            Token::AddressSign,
            Token::IdentifierToken(f.file_handler),
            Token::OperatorAssign,
            Token::LiteralString(f.file_path),
            Token::Semicolon,
        ],
        StatementAST::Error => seq![Token::PlaceholderToken],
    }
}

/// The tokens of a function definition.
pub open spec fn function_tokens(f: FunctionAST) -> Seq<Token> {
    seq![Token::KeywordFn, Token::IdentifierToken(f.function_name), Token::LeftParentheses]
        + names_tokens(f.arguments@) + seq![Token::RightParentheses] + block_tokens(
        function_block(f),
    )
}

/// The tokens of a sequence of function definitions.
pub open spec fn functions_tokens(fs: Seq<FunctionAST>) -> Seq<Token>
    decreases fs.len(),
{
    if fs.len() == 0 {
        Seq::empty()
    } else {
        functions_tokens(fs.drop_last()) + function_tokens(fs.last())
    }
}

/// The number of tokens from `pos` to the end, or 0 past the end.
pub open spec fn gap(t: Seq<Token>, pos: int) -> nat {
    if pos < t.len() {
        (t.len() - pos) as nat
    } else {
        0
    }
}

pub open spec fn unexpected<T>(p: int) -> Result<T, ParseError> {
    Err(ParseError::UnexpectedToken(p as usize))
}

pub open spec fn at_end<T>() -> Result<T, ParseError> {
    Err(ParseError::UnexpectedEnd)
}

/// The grammar, as a recognizer: where the construct that starts at `pos`
/// ends (the position after its last token), or why there is none. Each
/// alternative is chosen by the tokens at and after `pos`, and the first
/// token that fits no rule is the error.
///
/// An expression: a literal, `if`, a call (a name and `(`), a variable, or
/// a closure.
pub open spec fn expr_end(t: Seq<Token>, pos: int) -> Result<int, ParseError>
    decreases gap(t, pos), 3int,
{
    if pos < 0 || pos >= t.len() {
        at_end()
    } else {
        match t[pos] {
            Token::Integer64(_) | Token::LiteralString(_) | Token::LiteralTrue | Token::LiteralFalse => Ok(
                pos + 1,
            ),
            Token::KeywordIf => if_end(t, pos),
            Token::IdentifierToken(_) => if pos + 1 < t.len() && t[pos + 1] is LeftParentheses {
                call_end(t, pos)
            } else {
                Ok(pos + 1)
            },
            Token::VerticalBar => closure_end(t, pos),
            _ => unexpected(pos),
        }
    }
}

/// `name ( (expression (, expression)*)? )` at `pos`.
pub open spec fn call_end(t: Seq<Token>, pos: int) -> Result<int, ParseError>
    decreases gap(t, pos), 2int,
{
    let q = pos + 2;
    if pos < 0 || q >= t.len() {
        at_end()
    } else if t[q] is RightParentheses {
        Ok(q + 1)
    } else {
        match expr_end(t, q) {
            Ok(e) => if e <= q {
                unexpected(q)
            } else {
                args_end(t, e)
            },
            Err(x) => Err(x),
        }
    }
}

/// The rest of an argument list after an argument: `(, expression)* )`.
pub open spec fn args_end(t: Seq<Token>, p: int) -> Result<int, ParseError>
    decreases gap(t, p), 0int,
{
    if p < 0 || p >= t.len() {
        at_end()
    } else {
        match t[p] {
            Token::RightParentheses => Ok(p + 1),
            Token::Comma => match expr_end(t, p + 1) {
                Ok(e) => if e <= p + 1 {
                    unexpected(p + 1)
                } else {
                    args_end(t, e)
                },
                Err(x) => Err(x),
            },
            _ => unexpected(p),
        }
    }
}

/// `if expression then block else block` at `pos`.
pub open spec fn if_end(t: Seq<Token>, pos: int) -> Result<int, ParseError>
    decreases gap(t, pos), 2int,
{
    if pos < 0 || pos >= t.len() {
        at_end()
    } else {
        match expr_end(t, pos + 1) {
            Ok(c) => if c <= pos {
                unexpected(pos)
            } else if c >= t.len() {
                at_end()
            } else if !(t[c] is KeywordThen) {
                unexpected(c)
            } else {
                match block_end(t, c + 1) {
                    Ok(b) => if b <= c {
                        unexpected(c)
                    } else if b >= t.len() {
                        at_end()
                    } else if !(t[b] is KeywordElse) {
                        unexpected(b)
                    } else {
                        block_end(t, b + 1)
                    },
                    Err(x) => Err(x),
                }
            },
            Err(x) => Err(x),
        }
    }
}

/// `| names | block` at `pos`.
pub open spec fn closure_end(t: Seq<Token>, pos: int) -> Result<int, ParseError>
    decreases gap(t, pos), 2int,
{
    if pos < 0 || pos >= t.len() {
        at_end()
    } else {
        match names_from(t, pos + 1) {
            Ok(q) => if q <= pos || q >= t.len() {
                at_end()
            } else if !(t[q] is VerticalBar) {
                unexpected(q)
            } else {
                block_end(t, q + 1)
            },
            Err(x) => Err(x),
        }
    }
}

/// `( IDENT (, IDENT)* )?` at `pos`, ending before a `)` or `|`.
pub open spec fn names_from(t: Seq<Token>, pos: int) -> Result<int, ParseError> {
    if pos < 0 || pos >= t.len() {
        at_end()
    } else {
        match t[pos] {
            Token::RightParentheses | Token::VerticalBar => Ok(pos),
            Token::IdentifierToken(_) => names_end(t, pos + 1),
            _ => unexpected(pos),
        }
    }
}

/// The rest of a list of names after a name.
pub open spec fn names_end(t: Seq<Token>, p: int) -> Result<int, ParseError>
    decreases gap(t, p),
{
    if p < 0 || p >= t.len() {
        at_end()
    } else {
        match t[p] {
            Token::RightParentheses | Token::VerticalBar => Ok(p),
            Token::Comma => if p + 1 >= t.len() {
                at_end()
            } else if t[p + 1] is IdentifierToken {
                names_end(t, p + 2)
            } else {
                unexpected(p + 1)
            },
            _ => unexpected(p),
        }
    }
}

/// `{ statement* expression }` at `pos`.
pub open spec fn block_end(t: Seq<Token>, pos: int) -> Result<int, ParseError>
    decreases gap(t, pos), 0int,
{
    if pos < 0 || pos >= t.len() {
        at_end()
    } else if !(t[pos] is LeftCurlyBracket) {
        unexpected(pos)
    } else {
        block_rest(t, pos + 1)
    }
}

/// The rest of a block: statements while they start, then the expression
/// and `}`.
pub open spec fn block_rest(t: Seq<Token>, p: int) -> Result<int, ParseError>
    decreases gap(t, p), 4int,
{
    if p < 0 || p >= t.len() {
        at_end()
    } else {
        match statement_end(t, p) {
            Ok(Some(e)) => if e <= p {
                unexpected(p)
            } else {
                block_rest(t, e)
            },
            Ok(None) => match expr_end(t, p) {
                Ok(q) => if q >= t.len() {
                    at_end()
                } else if !(t[q] is RightCurlyBracket) {
                    unexpected(q)
                } else {
                    Ok(q + 1)
                },
                Err(x) => Err(x),
            },
            Err(x) => Err(x),
        }
    }
}

/// A statement at `p`, or `None` when no statement starts there: one
/// starts with `let`, or with a name followed by `@`.
pub open spec fn statement_end(t: Seq<Token>, p: int) -> Result<Option<int>, ParseError>
    decreases gap(t, p), 3int,
{
    if p < 0 || p >= t.len() {
        Ok(None)
    } else if t[p] is KeywordLet {
        match let_end(t, p) {
            Ok(e) => Ok(Some(e)),
            Err(x) => Err(x),
        }
    } else if t[p] is IdentifierToken && p + 1 < t.len() && t[p + 1] is AddressSign {
        match io_end(t, p) {
            Ok(e) => Ok(Some(e)),
            Err(x) => Err(x),
        }
    } else {
        Ok(None)
    }
}

/// `let IDENT = expression ;` at `pos`.
pub open spec fn let_end(t: Seq<Token>, pos: int) -> Result<int, ParseError>
    decreases gap(t, pos), 2int,
{
    if pos < 0 || t.len() - pos <= 2 {
        at_end()
    } else if !(t[pos + 1] is IdentifierToken) {
        unexpected(pos + 1)
    } else if !(t[pos + 2] is OperatorAssign) {
        unexpected(pos + 2)
    } else {
        match expr_end(t, pos + 3) {
            Ok(q) => if q >= t.len() {
                at_end()
            } else if !(t[q] is Semicolon) {
                unexpected(q)
            } else {
                Ok(q + 1)
            },
            Err(x) => Err(x),
        }
    }
}

/// `proc@handle >> IDENT ;`, `proc@handle << expression ;` or
/// `proc@handle = STRING ;` at `pos`.
pub open spec fn io_end(t: Seq<Token>, pos: int) -> Result<int, ParseError>
    decreases gap(t, pos), 2int,
{
    if pos < 0 || t.len() - pos <= 4 {
        at_end()
    } else if !(t[pos + 2] is IdentifierToken) {
        unexpected(pos + 2)
    } else {
        match t[pos + 3] {
            Token::OperatorGetFrom => if pos + 5 >= t.len() {
                at_end()
            } else if !(t[pos + 4] is IdentifierToken) {
                unexpected(pos + 4)
            } else if !(t[pos + 5] is Semicolon) {
                unexpected(pos + 5)
            } else {
                Ok(pos + 6)
            },
            Token::OperatorPutTo => match expr_end(t, pos + 4) {
                Ok(q) => if q >= t.len() {
                    at_end()
                } else if !(t[q] is Semicolon) {
                    unexpected(q)
                } else {
                    Ok(q + 1)
                },
                Err(x) => Err(x),
            },
            Token::OperatorAssign => if pos + 5 >= t.len() {
                at_end()
            } else if !(t[pos + 4] is LiteralString) {
                unexpected(pos + 4)
            } else if !(t[pos + 5] is Semicolon) {
                unexpected(pos + 5)
            } else {
                Ok(pos + 6)
            },
            _ => unexpected(pos + 3),
        }
    }
}

/// `fn IDENT ( names ) block` at `pos`.
pub open spec fn function_end(t: Seq<Token>, pos: int) -> Result<int, ParseError> {
    if pos < 0 || pos >= t.len() || t.len() - pos <= 2 {
        at_end()
    } else if !(t[pos] is KeywordFn) {
        unexpected(pos)
    } else if !(t[pos + 1] is IdentifierToken) {
        unexpected(pos + 1)
    } else if !(t[pos + 2] is LeftParentheses) {
        unexpected(pos + 2)
    } else {
        match names_from(t, pos + 3) {
            Ok(q) => if q < pos + 3 || q >= t.len() {
                at_end()
            } else if !(t[q] is RightParentheses) {
                unexpected(q)
            } else {
                block_end(t, q + 1)
            },
            Err(x) => Err(x),
        }
    }
}

/// Function definitions from `pos` to the end of the tokens.
pub open spec fn program_from(t: Seq<Token>, pos: int) -> Result<(), ParseError>
    decreases gap(t, pos),
{
    if pos < 0 || pos >= t.len() {
        Ok(())
    } else {
        match function_end(t, pos) {
            Ok(e) => if e <= pos {
                unexpected(pos)
            } else {
                program_from(t, e)
            },
            Err(x) => Err(x),
        }
    }
}

pub(crate) proof fn lemma_split(t: Seq<Token>, a: int, b: int, c: int)
    requires
        0 <= a <= b <= c <= t.len(),
    ensures
        t.subrange(a, c) == t.subrange(a, b) + t.subrange(b, c),
{
    assert(t.subrange(a, c) =~= t.subrange(a, b) + t.subrange(b, c));
}

pub(crate) proof fn lemma_one(t: Seq<Token>, a: int)
    requires
        0 <= a < t.len(),
    ensures
        t.subrange(a, a + 1) == seq![t[a]],
{
    assert(t.subrange(a, a + 1) =~= seq![t[a]]);
}

/// Reads `( IDENT (',' IDENT)* )?`, up to a closing `)` or `|`, which is
/// not consumed.
pub fn read_argument_list(tokens: &Vec<Token>, pos: usize) -> (r: Result<(Vec<String>, usize), ParseError>)
    ensures
        match r {
            Ok((names, n)) => names_from(tokens@, pos as int) == Ok::<int, ParseError>(pos + n) && pos + n < tokens@.len() && tokens@.subrange(pos as int, pos + n)
                == names_tokens(names@) && (tokens@[pos + n] is RightParentheses
                || tokens@[pos + n] is VerticalBar),
            Err(x) => names_from(tokens@, pos as int) == Err::<int, ParseError>(x),
        },
{
    let ghost t = tokens@;
    assert(t.len() == tokens.len());
    let mut names: Vec<String> = Vec::new();
    if pos >= tokens.len() {
        return Err(ParseError::UnexpectedEnd);
    }
    match &tokens[pos] {
        Token::RightParentheses | Token::VerticalBar => {
            proof {
                assert(t.subrange(pos as int, pos as int) =~= Seq::<Token>::empty());
            }
            return Ok((names, 0));
        },
        Token::IdentifierToken(id) => {
            names.push(id.clone());
        },
        _ => {
            return Err(ParseError::UnexpectedToken(pos));
        },
    }
    let mut p = pos + 1;
    proof {
        lemma_one(t, pos as int);
    }
    loop
        invariant
            t == tokens@,
            pos < p <= t.len(),
            names@.len() >= 1,
            names_from(t, pos as int) == names_end(t, p as int),
            t.subrange(pos as int, p as int) == names_tokens(names@),
        decreases t.len() - p,
    {
        if p >= tokens.len() {
            return Err(ParseError::UnexpectedEnd);
        }
        match &tokens[p] {
            Token::RightParentheses | Token::VerticalBar => {
                return Ok((names, p - pos));
            },
            Token::Comma => {
                if p + 1 >= tokens.len() {
                    return Err(ParseError::UnexpectedEnd);
                }
                match &tokens[p + 1] {
                    Token::IdentifierToken(id) => {
                        let ghost before = names@;
                        names.push(id.clone());
                        proof {
                            assert(names@.drop_last() =~= before);
                            lemma_split(t, pos as int, p as int, p + 2);
                            assert(t.subrange(p as int, p + 2) =~= seq![t[p as int], t[p + 1]]);
                        }
                        p = p + 2;
                    },
                    _ => {
                        return Err(ParseError::UnexpectedToken(p + 1));
                    },
                }
            },
            _ => {
                return Err(ParseError::UnexpectedToken(p));
            },
        }
    }
}

/// Reads `fn name ( names ) block`.
fn read_function(tokens: &Vec<Token>, pos: usize) -> (r: Result<(FunctionAST, usize), ParseError>)
    ensures
        match r {
            Ok((f, n)) => function_end(tokens@, pos as int) == Ok::<int, ParseError>(pos + n) && 0 < n && pos + n <= tokens@.len() && tokens@.subrange(pos as int, pos + n)
                == function_tokens(f),
            Err(x) => function_end(tokens@, pos as int) == Err::<int, ParseError>(x),
        },
{
    let ghost t = tokens@;
    assert(t.len() == tokens.len());
    if pos >= tokens.len() || tokens.len() - pos <= 2 {
        return Err(ParseError::UnexpectedEnd);
    }
    match &tokens[pos] {
        Token::KeywordFn => {},
        _ => {
            return Err(ParseError::UnexpectedToken(pos));
        },
    }
    let function_name = match &tokens[pos + 1] {
        Token::IdentifierToken(name) => name.clone(),
        _ => {
            return Err(ParseError::UnexpectedToken(pos + 1));
        },
    };
    match &tokens[pos + 2] {
        Token::LeftParentheses => {},
        _ => {
            return Err(ParseError::UnexpectedToken(pos + 2));
        },
    }
    let (arguments, names_len) = match read_argument_list(tokens, pos + 3) {
        Ok(x) => x,
        Err(x) => {
            return Err(x);
        },
    };
    let close_at = pos + 3 + names_len;
    match &tokens[close_at] {
        Token::RightParentheses => {},
        _ => {
            return Err(ParseError::UnexpectedToken(close_at));
        },
    }
    let (block, block_len) = match read_block(tokens, close_at + 1) {
        Ok(x) => x,
        Err(x) => {
            return Err(x);
        },
    };
    let end = close_at + 1 + block_len;
    let f = FunctionAST {
        function_name,
        arguments,
        statements: block.statements,
        return_expr: block.return_expr,
    };
    proof {
        assert(function_block(f) == block);
        assert(t.subrange(pos as int, pos + 3) =~= seq![t[pos as int], t[pos + 1], t[pos + 2]]);
        lemma_one(t, close_at as int);
        lemma_split(t, pos as int, pos + 3, close_at as int);
        lemma_split(t, pos as int, close_at as int, close_at + 1);
        lemma_split(t, pos as int, close_at + 1, end as int);
        assert(t.subrange(pos as int, end as int) =~= function_tokens(f));
    }
    Ok((f, end - pos))
}

/// Parses a whole program: a sequence of function definitions that uses up
/// every token. It succeeds exactly when the grammar accepts the tokens, and
/// the functions returned are written with exactly the tokens given.
pub fn build_ast(tokens: &Vec<Token>) -> (r: Result<ProgramAST, ParseError>)
    ensures
        match r {
            Ok(prog) => program_from(tokens@, 0) == Ok::<(), ParseError>(()) && tokens@
                == functions_tokens(prog.functions@),
            Err(x) => program_from(tokens@, 0) == Err::<(), ParseError>(x),
        },
{
    let ghost t = tokens@;
    assert(t.len() == tokens.len());
    let mut functions: Vec<FunctionAST> = Vec::new();
    let mut pos: usize = 0;
    proof {
        assert(t.subrange(0, 0) =~= functions_tokens(functions@));
    }
    while pos < tokens.len()
        invariant
            t == tokens@,
            t.len() <= usize::MAX,
            pos <= t.len(),
            program_from(t, 0) == program_from(t, pos as int),
            t.subrange(0, pos as int) == functions_tokens(functions@),
        decreases t.len() - pos,
    {
        let (f, n) = match read_function(tokens, pos) {
            Ok(x) => x,
            Err(x) => {
                return Err(x);
            },
        };
        let ghost before = functions@;
        functions.push(f);
        proof {
            assert(functions@.drop_last() =~= before);
            lemma_split(t, 0, pos as int, pos + n);
        }
        pos = pos + n;
    }
    proof {
        assert(t.subrange(0, pos as int) =~= t);
    }
    Ok(ProgramAST { functions })
}

/// Reads a block `{ statement* expression }`.
pub(crate) fn read_block(tokens: &Vec<Token>, pos: usize) -> (r: Result<(BlockAST, usize), ParseError>)
    ensures
        match r {
            Ok((b, n)) => block_end(tokens@, pos as int) == Ok::<int, ParseError>(pos + n) && 0 < n && pos + n <= tokens@.len() && tokens@.subrange(pos as int, pos + n)
                == block_tokens(b),
            Err(x) => block_end(tokens@, pos as int) == Err::<int, ParseError>(x),
        },
    decreases tokens@.len() - pos, 1int,
{
    let ghost t = tokens@;
    assert(t.len() == tokens.len());
    if pos >= tokens.len() {
        return Err(ParseError::UnexpectedEnd);
    }
    match &tokens[pos] {
        Token::LeftCurlyBracket => {},
        _ => {
            return Err(ParseError::UnexpectedToken(pos));
        },
    }
    let mut statements: Vec<StatementAST> = Vec::new();
    let mut p = pos + 1;
    proof {
        lemma_one(t, pos as int);
        assert(seq![t[pos as int]] =~= seq![Token::LeftCurlyBracket] + statements_tokens(statements@));
    }
    loop
        invariant
            t == tokens@,
            t.len() <= usize::MAX,
            pos < p <= t.len(),
            block_end(t, pos as int) == block_rest(t, p as int),
            t.subrange(pos as int, p as int) == seq![Token::LeftCurlyBracket] + statements_tokens(
                statements@,
            ),
        ensures
            statement_end(t, p as int) == Ok::<Option<int>, ParseError>(None),
        decreases t.len() - p,
    {
        match try_read_statement_ast(tokens, p) {
            Ok(Some((st, n))) => {
                let ghost before = statements@;
                statements.push(st);
                proof {
                    assert(statements@.drop_last() =~= before);
                    lemma_split(t, pos as int, p as int, p + n);
                    assert(t.subrange(pos as int, p + n) =~= seq![Token::LeftCurlyBracket]
                        + statements_tokens(statements@));
                }
                p = p + n;
            },
            Ok(None) => {
                break;
            },
            Err(x) => {
                return Err(x);
            },
        }
    }
    let (ret, n) = match try_read_expr(tokens, p) {
        Ok(x) => x,
        Err(x) => {
            return Err(x);
        },
    };
    let q = p + n;
    if q >= tokens.len() {
        return Err(ParseError::UnexpectedEnd);
    }
    match &tokens[q] {
        Token::RightCurlyBracket => {},
        _ => {
            return Err(ParseError::UnexpectedToken(q));
        },
    }
    let block = BlockAST { statements, return_expr: Box::new(ret) };
    proof {
        lemma_split(t, pos as int, p as int, q as int);
        lemma_split(t, pos as int, q as int, q + 1);
        lemma_one(t, q as int);
        assert(t.subrange(pos as int, q + 1) =~= block_tokens(block));
    }
    Ok((block, q + 1 - pos))
}

/// Reads one statement, or nothing when the tokens at `pos` do not start
/// one (`let`, or a name followed by `@`).
fn try_read_statement_ast(tokens: &Vec<Token>, pos: usize) -> (r: Result<Option<(StatementAST, usize)>, ParseError>)
    ensures
        match r {
            Ok(Some((st, n))) => statement_end(tokens@, pos as int) == Ok::<Option<int>, ParseError>(
                Some(pos + n),
            ) && 0 < n && pos + n <= tokens@.len() && tokens@.subrange(pos as int, pos + n)
                == statement_tokens(st),
            Ok(None) => statement_end(tokens@, pos as int) == Ok::<Option<int>, ParseError>(None),
            Err(x) => statement_end(tokens@, pos as int) == Err::<Option<int>, ParseError>(x),
        },
    decreases tokens@.len() - pos, 2int,
{
    if pos >= tokens.len() {
        return Ok(None);
    }
    match &tokens[pos] {
        Token::KeywordLet => match try_read_let_binding(tokens, pos) {
            Ok((lb, n)) => Ok(Some((StatementAST::Bind(lb), n))),
            Err(x) => Err(x),
        },
        Token::IdentifierToken(_) => {
            if pos + 1 < tokens.len() {
                match &tokens[pos + 1] {
                    Token::AddressSign => match try_read_io_operation(tokens, pos) {
                        Ok((st, n)) => Ok(Some((st, n))),
                        Err(x) => Err(x),
                    },
                    _ => Ok(None),
                }
            } else {
                Ok(None)
            }
        },
        _ => Ok(None),
    }
}

/// Reads `let IDENT = expression ;`.
fn try_read_let_binding(tokens: &Vec<Token>, pos: usize) -> (r: Result<(LetBindingAST, usize), ParseError>)
    requires
        pos < tokens@.len(),
        tokens@[pos as int] is KeywordLet,
    ensures
        match r {
            Ok((lb, n)) => let_end(tokens@, pos as int) == Ok::<int, ParseError>(pos + n) && 0 < n && pos + n <= tokens@.len() && tokens@.subrange(pos as int, pos + n)
                == statement_tokens(StatementAST::Bind(lb)),
            Err(x) => let_end(tokens@, pos as int) == Err::<int, ParseError>(x),
        },
    decreases tokens@.len() - pos, 1int,
{
    let ghost t = tokens@;
    assert(t.len() == tokens.len());
    if tokens.len() - pos <= 2 {
        return Err(ParseError::UnexpectedEnd);
    }
    let variable = match &tokens[pos + 1] {
        Token::IdentifierToken(v) => v.clone(),
        _ => {
            return Err(ParseError::UnexpectedToken(pos + 1));
        },
    };
    match &tokens[pos + 2] {
        Token::OperatorAssign => {},
        _ => {
            return Err(ParseError::UnexpectedToken(pos + 2));
        },
    }
    let (expr, n) = match try_read_expr(tokens, pos + 3) {
        Ok(x) => x,
        Err(x) => {
            return Err(x);
        },
    };
    let q = pos + 3 + n;
    if q >= tokens.len() {
        return Err(ParseError::UnexpectedEnd);
    }
    match &tokens[q] {
        Token::Semicolon => {},
        _ => {
            return Err(ParseError::UnexpectedToken(q));
        },
    }
    let lb = LetBindingAST { variable, expr: Box::new(expr) };
    proof {
        lemma_split(t, pos as int, pos + 3, q as int);
        lemma_split(t, pos as int, q as int, q + 1);
        lemma_one(t, q as int);
        assert(t.subrange(pos as int, pos + 3) =~= seq![t[pos as int], t[pos + 1], t[pos + 2]]);
        assert(t.subrange(pos as int, q + 1) =~= statement_tokens(StatementAST::Bind(lb)));
    }
    Ok((lb, q + 1 - pos))
}

/// Reads `proc@handle >> var;`, `proc@handle << expression;` or
/// `proc@handle = "path";`.
#[verifier::spinoff_prover]
#[verifier::rlimit(50)]
fn try_read_io_operation(tokens: &Vec<Token>, pos: usize) -> (r: Result<(StatementAST, usize), ParseError>)
    requires
        pos + 1 < tokens@.len(),
        tokens@[pos as int] is IdentifierToken,
        tokens@[pos + 1] is AddressSign,
    ensures
        match r {
            Ok((st, n)) => io_end(tokens@, pos as int) == Ok::<int, ParseError>(pos + n) && 0 < n && pos + n <= tokens@.len() && tokens@.subrange(pos as int, pos + n)
                == statement_tokens(st),
            Err(x) => io_end(tokens@, pos as int) == Err::<int, ParseError>(x),
        },
    decreases tokens@.len() - pos, 1int,
{
    let ghost t = tokens@;
    assert(t.len() == tokens.len());
    if tokens.len() - pos <= 4 {
        return Err(ParseError::UnexpectedEnd);
    }
    let procedure = match &tokens[pos] {
        Token::IdentifierToken(s) => s.clone(),
        _ => {
            return Err(ParseError::UnexpectedToken(pos));
        },
    };
    let handle = match &tokens[pos + 2] {
        Token::IdentifierToken(s) => s.clone(),
        _ => {
            return Err(ParseError::UnexpectedToken(pos + 2));
        },
    };
    proof {
        assert(t.subrange(pos as int, pos + 4) =~= seq![t[pos as int], t[pos + 1], t[pos + 2], t[pos + 3]]);
    }
    match &tokens[pos + 3] {
        Token::OperatorGetFrom => {
            if pos + 5 >= tokens.len() {
                return Err(ParseError::UnexpectedEnd);
            }
            let var = match &tokens[pos + 4] {
                Token::IdentifierToken(s) => s.clone(),
                _ => {
                    return Err(ParseError::UnexpectedToken(pos + 4));
                },
            };
            match &tokens[pos + 5] {
                Token::Semicolon => {},
                _ => {
                    return Err(ParseError::UnexpectedToken(pos + 5));
                },
            }
            let st = StatementAST::Read(
                ReadAst { impure_procedure_name: procedure, file_handler: handle, write_to_variable: var },
            );
            proof {
                assert(t.subrange(pos as int, pos + 6) =~= statement_tokens(st));
            }
            Ok((st, 6))
        },
        Token::OperatorPutTo => {
            let (expr, n) = match try_read_expr(tokens, pos + 4) {
                Ok(x) => x,
                Err(x) => {
                    return Err(x);
                },
            };
            let q = pos + 4 + n;
            if q >= tokens.len() {
                return Err(ParseError::UnexpectedEnd);
            }
            match &tokens[q] {
                Token::Semicolon => {},
                _ => {
                    return Err(ParseError::UnexpectedToken(q));
                },
            }
            let st = StatementAST::Write(
                WriteAst { impure_procedure_name: procedure, file_handler: handle, expr: Box::new(expr) },
            );
            proof {
                lemma_split(t, pos as int, pos + 4, q as int);
                lemma_split(t, pos as int, q as int, q + 1);
                lemma_one(t, q as int);
                assert(t.subrange(pos as int, q + 1) =~= statement_tokens(st));
            }
            Ok((st, q + 1 - pos))
        },
        Token::OperatorAssign => {
            if pos + 5 >= tokens.len() {
                return Err(ParseError::UnexpectedEnd);
            }
            let path = match &tokens[pos + 4] {
                Token::LiteralString(s) => s.clone(),
                _ => {
                    return Err(ParseError::UnexpectedToken(pos + 4));
                },
            };
            match &tokens[pos + 5] {
                Token::Semicolon => {},
                _ => {
                    return Err(ParseError::UnexpectedToken(pos + 5));
                },
            }
            let st = StatementAST::FileOpen(
                FileOpenAst { impure_procedure_name: procedure, file_handler: handle, file_path: path },
            );
            proof {
                assert(t.subrange(pos as int, pos + 6) =~= statement_tokens(st));
            }
            Ok((st, 6))
        },
        _ => Err(ParseError::UnexpectedToken(pos + 3)),
    }
}

} // verus!
