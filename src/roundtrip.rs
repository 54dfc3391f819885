//! Printing and parsing agree: the grammar accepts the tokens of every
//! expression the parser can produce, and spans exactly those tokens.

use vstd::prelude::*;

use crate::expr::ExprAST;
use crate::parser::{
    ParseError, call_end, function_block, function_end, function_tokens, functions_tokens,
    program_from, FunctionAST,
    args_end, args_tokens, block_end, block_rest, block_tokens, expr_end, expr_tokens, io_end,
    let_end, names_end, names_from, names_tokens, statement_end, statement_tokens,
    statements_tokens, BlockAST, StatementAST,
};
use crate::tokenizer::Token;

verus! {

/// Whether an expression has a form the parser produces.
pub open spec fn source_expr(e: ExprAST) -> bool
    decreases e, 0int,
{
    match e {
        ExprAST::Int(_) | ExprAST::Bool(_) | ExprAST::StringLiteral(_) | ExprAST::Variable(_) => true,
        ExprAST::If(ie) => source_expr(*ie.condition) && source_block(ie.then_case) && source_block(
            ie.else_case,
        ),
        ExprAST::Closure(c) => source_block(c.block),
        ExprAST::CallCallableObjectByname(_, args) => source_args(args@),
        _ => false,
    }
}

pub open spec fn source_args(args: Seq<Box<ExprAST>>) -> bool
    decreases args, 1int,
{
    if args.len() == 0 {
        true
    } else {
        source_expr(*args[0]) && source_args(args.drop_first())
    }
}

pub open spec fn source_block(b: BlockAST) -> bool
    decreases b, 0int,
{
    source_statements(b.statements@) && source_expr(*b.return_expr)
}

pub open spec fn source_statements(ss: Seq<StatementAST>) -> bool
    decreases ss, 1int,
{
    if ss.len() == 0 {
        true
    } else {
        source_statement(ss[0]) && source_statements(ss.drop_first())
    }
}

pub open spec fn source_statement(st: StatementAST) -> bool
    decreases st, 0int,
{
    match st {
        StatementAST::Bind(lb) => source_expr(*lb.expr),
        StatementAST::Write(w) => source_expr(*w.expr),
        StatementAST::Read(_) | StatementAST::FileOpen(_) => true,
        StatementAST::Error => false,
    }
}

pub open spec fn closure_block(c: std::rc::Rc<crate::expr::ClosureAST>) -> BlockAST {
    c.block
}

/// The tokens `, e` of each expression in `rest`.
pub open spec fn comma_args(rest: Seq<Box<ExprAST>>) -> Seq<Token>
    decreases rest.len(),
{
    if rest.len() == 0 {
        Seq::empty()
    } else {
        seq![Token::Comma] + expr_tokens(*rest[0]) + comma_args(rest.drop_first())
    }
}

/// The tokens `, name` of each name in `rest`.
pub open spec fn comma_names(rest: Seq<String>) -> Seq<Token>
    decreases rest.len(),
{
    if rest.len() == 0 {
        Seq::empty()
    } else {
        seq![Token::Comma, Token::IdentifierToken(rest[0])] + comma_names(rest.drop_first())
    }
}

/// The tokens of statements, first to last.
pub open spec fn statements_front(ss: Seq<StatementAST>) -> Seq<Token>
    decreases ss.len(),
{
    if ss.len() == 0 {
        Seq::empty()
    } else {
        statement_tokens(ss[0]) + statements_front(ss.drop_first())
    }
}

proof fn lemma_slice(t: Seq<Token>, pos: int, whole: Seq<Token>, off: int, part: Seq<Token>)
    requires
        0 <= pos,
        pos + whole.len() <= t.len(),
        t.subrange(pos, pos + whole.len()) == whole,
        0 <= off,
        off + part.len() <= whole.len(),
        whole.subrange(off, off + part.len()) == part,
    ensures
        t.subrange(pos + off, pos + off + part.len()) == part,
{
    assert forall|i: int| 0 <= i < part.len() implies t.subrange(pos + off, pos + off + part.len())[i]
        == part[i] by {
        assert(t.subrange(pos, pos + whole.len())[off + i] == whole[off + i]);
        assert(whole.subrange(off, off + part.len())[i] == whole[off + i]);
    }
    assert(t.subrange(pos + off, pos + off + part.len()) =~= part);
}

proof fn lemma_at(t: Seq<Token>, pos: int, whole: Seq<Token>, off: int)
    requires
        0 <= pos,
        pos + whole.len() <= t.len(),
        t.subrange(pos, pos + whole.len()) == whole,
        0 <= off < whole.len(),
    ensures
        t[pos + off] == whole[off],
{
    assert(t.subrange(pos, pos + whole.len())[off] == whole[off]);
}

proof fn lemma_comma_args_push(rest: Seq<Box<ExprAST>>, x: Box<ExprAST>)
    ensures
        comma_args(rest.push(x)) == comma_args(rest) + seq![Token::Comma] + expr_tokens(*x),
    decreases rest.len(),
{
    if rest.len() == 0 {
        assert(rest.push(x).drop_first() =~= Seq::<Box<ExprAST>>::empty());
        assert(rest.push(x)[0] == x);
        assert(comma_args(rest.push(x)) == seq![Token::Comma] + expr_tokens(*x) + comma_args(
            Seq::<Box<ExprAST>>::empty(),
        ));
        assert(comma_args(rest.push(x)) =~= comma_args(rest) + seq![Token::Comma] + expr_tokens(*x));
    } else {
        assert(rest.push(x).drop_first() =~= rest.drop_first().push(x));
        lemma_comma_args_push(rest.drop_first(), x);
        assert(rest.push(x)[0] == rest[0]);
        assert(comma_args(rest.push(x)) == seq![Token::Comma] + expr_tokens(*rest[0]) + comma_args(
            rest.drop_first().push(x),
        ));
        assert(comma_args(rest.push(x)) =~= comma_args(rest) + seq![Token::Comma] + expr_tokens(*x));
    }
}

proof fn lemma_args_front(args: Seq<Box<ExprAST>>)
    requires
        args.len() >= 1,
    ensures
        args_tokens(args) == expr_tokens(*args[0]) + comma_args(args.drop_first()),
    decreases args.len(),
{
    if args.len() == 1 {
        assert(args.drop_first() =~= Seq::<Box<ExprAST>>::empty());
        assert(args_tokens(args) =~= expr_tokens(*args[0]) + comma_args(args.drop_first()));
    } else {
        let dl = args.drop_last();
        lemma_args_front(dl);
        assert(dl[0] == args[0]);
        assert(args.drop_first() =~= dl.drop_first().push(args.last()));
        lemma_comma_args_push(dl.drop_first(), args.last());
        assert(args_tokens(args) =~= expr_tokens(*args[0]) + comma_args(args.drop_first()));
    }
}

proof fn lemma_comma_names_push(rest: Seq<String>, x: String)
    ensures
        comma_names(rest.push(x)) == comma_names(rest) + seq![Token::Comma, Token::IdentifierToken(x)],
    decreases rest.len(),
{
    if rest.len() == 0 {
        assert(rest.push(x).drop_first() =~= Seq::<String>::empty());
        assert(rest.push(x)[0] == x);
        assert(comma_names(rest.push(x)) == seq![Token::Comma, Token::IdentifierToken(x)] + comma_names(
            Seq::<String>::empty(),
        ));
        assert(comma_names(rest.push(x)) =~= comma_names(rest) + seq![
            Token::Comma,
            Token::IdentifierToken(x),
        ]);
    } else {
        assert(rest.push(x).drop_first() =~= rest.drop_first().push(x));
        lemma_comma_names_push(rest.drop_first(), x);
        assert(rest.push(x)[0] == rest[0]);
        assert(comma_names(rest.push(x)) == seq![Token::Comma, Token::IdentifierToken(rest[0])]
            + comma_names(rest.drop_first().push(x)));
        assert(comma_names(rest.push(x)) =~= comma_names(rest) + seq![
            Token::Comma,
            Token::IdentifierToken(x),
        ]);
    }
}

proof fn lemma_names_front(ns: Seq<String>)
    requires
        ns.len() >= 1,
    ensures
        names_tokens(ns) == seq![Token::IdentifierToken(ns[0])] + comma_names(ns.drop_first()),
    decreases ns.len(),
{
    if ns.len() == 1 {
        assert(ns.drop_first() =~= Seq::<String>::empty());
        assert(names_tokens(ns) =~= seq![Token::IdentifierToken(ns[0])] + comma_names(ns.drop_first()));
    } else {
        let dl = ns.drop_last();
        lemma_names_front(dl);
        assert(dl[0] == ns[0]);
        assert(ns.drop_first() =~= dl.drop_first().push(ns.last()));
        lemma_comma_names_push(dl.drop_first(), ns.last());
        assert(names_tokens(ns) =~= seq![Token::IdentifierToken(ns[0])] + comma_names(ns.drop_first()));
    }
}

proof fn lemma_statements_push(ss: Seq<StatementAST>, x: StatementAST)
    ensures
        statements_front(ss.push(x)) == statements_front(ss) + statement_tokens(x),
    decreases ss.len(),
{
    if ss.len() == 0 {
        assert(ss.push(x).drop_first() =~= Seq::<StatementAST>::empty());
        assert(ss.push(x)[0] == x);
        assert(statements_front(ss.push(x)) == statement_tokens(x) + statements_front(
            Seq::<StatementAST>::empty(),
        ));
        assert(statements_front(ss.push(x)) =~= statements_front(ss) + statement_tokens(x));
    } else {
        assert(ss.push(x).drop_first() =~= ss.drop_first().push(x));
        lemma_statements_push(ss.drop_first(), x);
        assert(ss.push(x)[0] == ss[0]);
        assert(statements_front(ss.push(x)) == statement_tokens(ss[0]) + statements_front(
            ss.drop_first().push(x),
        ));
        assert(statements_front(ss.push(x)) =~= statements_front(ss) + statement_tokens(x));
    }
}

proof fn lemma_statements_front(ss: Seq<StatementAST>)
    ensures
        statements_tokens(ss) == statements_front(ss),
    decreases ss.len(),
{
    if ss.len() > 0 {
        lemma_statements_front(ss.drop_last());
        assert(ss.drop_last().push(ss.last()) =~= ss);
        lemma_statements_push(ss.drop_last(), ss.last());
    }
}

proof fn lemma_source_suffix(ss: Seq<StatementAST>, i: int)
    requires
        source_statements(ss),
        0 <= i <= ss.len(),
    ensures
        source_statements(ss.subrange(i, ss.len() as int)),
    decreases i,
{
    if i > 0 {
        lemma_source_suffix(ss.drop_first(), i - 1);
        assert(ss.drop_first().subrange(i - 1, ss.drop_first().len() as int) =~= ss.subrange(
            i,
            ss.len() as int,
        ));
    } else {
        assert(ss.subrange(0, ss.len() as int) =~= ss);
    }
}

proof fn lemma_names_end_round_trip(rest: Seq<String>, t: Seq<Token>, p: int)
    requires
        0 <= p,
        p + comma_names(rest).len() < t.len(),
        t.subrange(p, p + comma_names(rest).len()) == comma_names(rest),
        t[p + comma_names(rest).len()] is VerticalBar || t[p + comma_names(rest).len()] is RightParentheses,
    ensures
        names_end(t, p) == Ok::<int, ParseError>(p + comma_names(rest).len()),
    decreases rest.len(),
{
    if rest.len() > 0 {
        let w = comma_names(rest);
        let tail = comma_names(rest.drop_first());
        lemma_at(t, p, w, 0);
        lemma_at(t, p, w, 1);
        assert(w.subrange(2, 2 + tail.len() as int) =~= tail);
        lemma_slice(t, p, w, 2, tail);
        lemma_names_end_round_trip(rest.drop_first(), t, p + 2);
    }
}

proof fn lemma_names_round_trip(ns: Seq<String>, t: Seq<Token>, p: int)
    requires
        0 <= p,
        p + names_tokens(ns).len() < t.len(),
        t.subrange(p, p + names_tokens(ns).len()) == names_tokens(ns),
        t[p + names_tokens(ns).len()] is VerticalBar || t[p + names_tokens(ns).len()] is RightParentheses,
    ensures
        names_from(t, p) == Ok::<int, ParseError>(p + names_tokens(ns).len()),
{
    if ns.len() > 0 {
        lemma_names_front(ns);
        let w = names_tokens(ns);
        let tail = comma_names(ns.drop_first());
        lemma_at(t, p, w, 0);
        assert(w.subrange(1, 1 + tail.len() as int) =~= tail);
        lemma_slice(t, p, w, 1, tail);
        lemma_names_end_round_trip(ns.drop_first(), t, p + 1);
    }
}

/// The first tokens of an expression the parser can produce.
proof fn lemma_expr_head(e: ExprAST)
    requires
        source_expr(e),
    ensures
        expr_tokens(e).len() >= 1,
        !(expr_tokens(e)[0] is RightParentheses),
        !(expr_tokens(e)[0] is KeywordLet),
        expr_tokens(e)[0] is IdentifierToken ==> (expr_tokens(e).len() == 1 || expr_tokens(e)[1] is LeftParentheses),
{
}

/// The tokens of a source expression, followed by anything but `(`, are
/// recognized as one expression spanning exactly them.
#[verifier::spinoff_prover]
#[verifier::rlimit(100)]
proof fn lemma_expr_round_trip(e: ExprAST, t: Seq<Token>, pos: int)
    requires
        source_expr(e),
        0 <= pos,
        pos + expr_tokens(e).len() <= t.len(),
        t.subrange(pos, pos + expr_tokens(e).len()) == expr_tokens(e),
        pos + expr_tokens(e).len() < t.len() ==> !(t[pos + expr_tokens(e).len()] is LeftParentheses),
    ensures
        expr_end(t, pos) == Ok::<int, ParseError>(pos + expr_tokens(e).len()),
    decreases e, 0int,
{
    let w = expr_tokens(e);
    lemma_expr_head(e);
    lemma_at(t, pos, w, 0);
    match e {
        ExprAST::If(ie) => {
            let ce = expr_tokens(*ie.condition);
            let b1 = block_tokens(ie.then_case);
            let b2 = block_tokens(ie.else_case);
            let c = pos + 1 + ce.len() as int;
            let b = c + 1 + b1.len() as int;
            assert(w.subrange(1, 1 + ce.len() as int) =~= ce);
            lemma_slice(t, pos, w, 1, ce);
            lemma_at(t, pos, w, 1 + ce.len() as int);
            lemma_expr_round_trip(*ie.condition, t, pos + 1);
            assert(w.subrange(2 + ce.len() as int, 2 + ce.len() as int + b1.len() as int) =~= b1);
            lemma_slice(t, pos, w, 2 + ce.len() as int, b1);
            lemma_block_round_trip(ie.then_case, t, c + 1);
            lemma_at(t, pos, w, 2 + ce.len() as int + b1.len() as int);
            assert(w.subrange(3 + ce.len() as int + b1.len() as int, 3 + ce.len() as int + b1.len() as int + b2.len() as int) =~= b2);
            lemma_slice(t, pos, w, 3 + ce.len() as int + b1.len() as int, b2);
            lemma_block_round_trip(ie.else_case, t, b + 1);
        },
        ExprAST::Closure(cl) => {
            let nt = names_tokens(cl.params@);
            let blk = closure_block(cl);
            let bt = block_tokens(blk);
            assert(w.subrange(1, 1 + nt.len() as int) =~= nt);
            lemma_slice(t, pos, w, 1, nt);
            lemma_at(t, pos, w, 1 + nt.len() as int);
            lemma_names_round_trip(cl.params@, t, pos + 1);
            assert(w.subrange(2 + nt.len() as int, 2 + nt.len() as int + bt.len() as int) =~= bt);
            lemma_slice(t, pos, w, 2 + nt.len() as int, bt);
            assert(decreases_to!(e => blk));
            lemma_block_round_trip(blk, t, pos + 2 + nt.len() as int);
        },
        ExprAST::CallCallableObjectByname(name, args) => {
            lemma_at(t, pos, w, 1);
            if args@.len() == 0 {
                assert(args_tokens(args@) == Seq::<Token>::empty());
                assert(w.len() == 3);
                lemma_at(t, pos, w, 2);
                assert(call_end(t, pos) == Ok::<int, ParseError>(pos + 3));
            } else {
                lemma_args_front(args@);
                assert(source_args(args@));
                assert(source_expr(*args@[0]) && source_args(args@.drop_first()));
                let e0 = expr_tokens(*args@[0]);
                let rest = comma_args(args@.drop_first());
                lemma_expr_head(*args@[0]);
                assert(w.subrange(2, 2 + e0.len() as int) =~= e0);
                lemma_slice(t, pos, w, 2, e0);
                lemma_at(t, pos, w, 2);
                lemma_at(t, pos, w, 2 + e0.len() as int);
                lemma_expr_round_trip(*args@[0], t, pos + 2);
                assert(w.subrange(2 + e0.len() as int, w.len() as int) =~= rest + seq![Token::RightParentheses]);
                lemma_slice(t, pos, w, 2 + e0.len() as int, rest + seq![Token::RightParentheses]);
                assert(decreases_to!(e => args@.drop_first()));
                lemma_args_round_trip(args@.drop_first(), t, pos + 2 + e0.len() as int);
            }
        },
        _ => {},
    }
}

proof fn lemma_args_round_trip(rest: Seq<Box<ExprAST>>, t: Seq<Token>, p: int)
    requires
        source_args(rest),
        0 <= p,
        p + comma_args(rest).len() + 1 <= t.len(),
        t.subrange(p, p + comma_args(rest).len() + 1) == comma_args(rest) + seq![Token::RightParentheses],
    ensures
        args_end(t, p) == Ok::<int, ParseError>(p + comma_args(rest).len() + 1),
    decreases rest, 0int,
{
    let w = comma_args(rest) + seq![Token::RightParentheses];
    lemma_at(t, p, w, 0);
    if rest.len() > 0 {
        let e0 = expr_tokens(*rest[0]);
        let tail = comma_args(rest.drop_first());
        lemma_expr_head(*rest[0]);
        assert(w.subrange(1, 1 + e0.len() as int) =~= e0);
        lemma_slice(t, p, w, 1, e0);
        lemma_at(t, p, w, 1 + e0.len() as int);
        lemma_expr_round_trip(*rest[0], t, p + 1);
        assert(w.subrange(1 + e0.len() as int, w.len() as int) =~= tail + seq![Token::RightParentheses]);
        lemma_slice(t, p, w, 1 + e0.len() as int, tail + seq![Token::RightParentheses]);
        lemma_args_round_trip(rest.drop_first(), t, p + 1 + e0.len() as int);
    }
}

/// The tokens of a source block are recognized as one block spanning
/// exactly them.
proof fn lemma_block_round_trip(b: BlockAST, t: Seq<Token>, pos: int)
    requires
        source_block(b),
        0 <= pos,
        pos + block_tokens(b).len() <= t.len(),
        t.subrange(pos, pos + block_tokens(b).len()) == block_tokens(b),
    ensures
        block_end(t, pos) == Ok::<int, ParseError>(pos + block_tokens(b).len()),
    decreases b, b.statements@.len() + 2,
{
    let w = block_tokens(b);
    let ss = b.statements@;
    lemma_statements_front(ss);
    assert(ss.subrange(0, ss.len() as int) =~= ss);
    let rest = statements_front(ss) + expr_tokens(*b.return_expr) + seq![Token::RightCurlyBracket];
    lemma_at(t, pos, w, 0);
    assert(w.subrange(1, 1 + rest.len() as int) =~= rest);
    lemma_slice(t, pos, w, 1, rest);
    lemma_rest_round_trip(b, 0, t, pos + 1);
}

proof fn lemma_rest_round_trip(b: BlockAST, i: int, t: Seq<Token>, p: int)
    requires
        source_block(b),
        0 <= i <= b.statements@.len(),
        0 <= p,
        p + (statements_front(b.statements@.subrange(i, b.statements@.len() as int)) + expr_tokens(
            *b.return_expr,
        ) + seq![Token::RightCurlyBracket]).len() <= t.len(),
        t.subrange(
            p,
            p + (statements_front(b.statements@.subrange(i, b.statements@.len() as int)) + expr_tokens(
                *b.return_expr,
            ) + seq![Token::RightCurlyBracket]).len(),
        ) == statements_front(b.statements@.subrange(i, b.statements@.len() as int)) + expr_tokens(
            *b.return_expr,
        ) + seq![Token::RightCurlyBracket],
    ensures
        block_rest(t, p) == Ok::<int, ParseError>(
            p + (statements_front(b.statements@.subrange(i, b.statements@.len() as int)) + expr_tokens(
                *b.return_expr,
            ) + seq![Token::RightCurlyBracket]).len(),
        ),
    decreases b, b.statements@.len() - i + 1,
{
    let ss = b.statements@;
    let n = ss.len() as int;
    let sub = ss.subrange(i, n);
    let ret = *b.return_expr;
    let w = statements_front(sub) + expr_tokens(ret) + seq![Token::RightCurlyBracket];
    lemma_source_suffix(ss, i);
    if i < n {
        let st = ss[i];
        assert(sub[0] == st);
        assert(sub.drop_first() =~= ss.subrange(i + 1, n));
        let stt = statement_tokens(st);
        let w2 = statements_front(ss.subrange(i + 1, n)) + expr_tokens(ret) + seq![Token::RightCurlyBracket];
        assert(w =~= stt + w2);
        assert(w.subrange(0, stt.len() as int) =~= stt);
        lemma_slice(t, p, w, 0, stt);
        lemma_statement_round_trip(st, t, p);
        assert(w.subrange(stt.len() as int, w.len() as int) =~= w2);
        lemma_slice(t, p, w, stt.len() as int, w2);
        lemma_rest_round_trip(b, i + 1, t, p + stt.len() as int);
    } else {
        assert(sub =~= Seq::<StatementAST>::empty());
        let et = expr_tokens(ret);
        assert(w =~= et + seq![Token::RightCurlyBracket]);
        lemma_expr_head(ret);
        lemma_at(t, p, w, 0);
        lemma_at(t, p, w, 1);
        assert(w.subrange(0, et.len() as int) =~= et);
        lemma_slice(t, p, w, 0, et);
        lemma_at(t, p, w, et.len() as int);
        lemma_expr_round_trip(ret, t, p);
    }
}

proof fn lemma_statement_round_trip(st: StatementAST, t: Seq<Token>, p: int)
    requires
        source_statement(st),
        0 <= p,
        p + statement_tokens(st).len() <= t.len(),
        t.subrange(p, p + statement_tokens(st).len()) == statement_tokens(st),
    ensures
        statement_tokens(st).len() > 0,
        statement_end(t, p) == Ok::<Option<int>, ParseError>(Some(p + statement_tokens(st).len())),
    decreases st, 0int,
{
    let w = statement_tokens(st);
    match st {
        StatementAST::Bind(lb) => {
            let et = expr_tokens(*lb.expr);
            lemma_at(t, p, w, 0);
            lemma_at(t, p, w, 1);
            lemma_at(t, p, w, 2);
            assert(w.subrange(3, 3 + et.len() as int) =~= et);
            lemma_slice(t, p, w, 3, et);
            lemma_at(t, p, w, 3 + et.len() as int);
            lemma_expr_round_trip(*lb.expr, t, p + 3);
        },
        StatementAST::Write(wr) => {
            let et = expr_tokens(*wr.expr);
            lemma_at(t, p, w, 0);
            lemma_at(t, p, w, 1);
            lemma_at(t, p, w, 2);
            lemma_at(t, p, w, 3);
            assert(w.subrange(4, 4 + et.len() as int) =~= et);
            lemma_slice(t, p, w, 4, et);
            lemma_at(t, p, w, 4 + et.len() as int);
            lemma_expr_round_trip(*wr.expr, t, p + 4);
        },
        StatementAST::Read(_) | StatementAST::FileOpen(_) => {
            lemma_at(t, p, w, 0);
            lemma_at(t, p, w, 1);
            lemma_at(t, p, w, 2);
            lemma_at(t, p, w, 3);
            lemma_at(t, p, w, 4);
            lemma_at(t, p, w, 5);
        },
        StatementAST::Error => {},
    }
}

/// Every function of a program has a body the parser can produce.
pub open spec fn source_program(fs: Seq<FunctionAST>) -> bool {
    forall|i: int| 0 <= i < fs.len() ==> source_block(function_block(#[trigger] fs[i]))
}

/// The tokens of function definitions, first to last.
pub open spec fn functions_front(fs: Seq<FunctionAST>) -> Seq<Token>
    decreases fs.len(),
{
    if fs.len() == 0 {
        Seq::empty()
    } else {
        function_tokens(fs[0]) + functions_front(fs.drop_first())
    }
}

proof fn lemma_functions_push(fs: Seq<FunctionAST>, x: FunctionAST)
    ensures
        functions_front(fs.push(x)) == functions_front(fs) + function_tokens(x),
    decreases fs.len(),
{
    if fs.len() == 0 {
        assert(fs.push(x).drop_first() =~= Seq::<FunctionAST>::empty());
        assert(fs.push(x)[0] == x);
        assert(functions_front(fs.push(x)) == function_tokens(x) + functions_front(
            Seq::<FunctionAST>::empty(),
        ));
        assert(functions_front(fs.push(x)) =~= functions_front(fs) + function_tokens(x));
    } else {
        assert(fs.push(x).drop_first() =~= fs.drop_first().push(x));
        lemma_functions_push(fs.drop_first(), x);
        assert(fs.push(x)[0] == fs[0]);
        assert(functions_front(fs.push(x)) == function_tokens(fs[0]) + functions_front(
            fs.drop_first().push(x),
        ));
        assert(functions_front(fs.push(x)) =~= functions_front(fs) + function_tokens(x));
    }
}

proof fn lemma_functions_front(fs: Seq<FunctionAST>)
    ensures
        functions_tokens(fs) == functions_front(fs),
    decreases fs.len(),
{
    if fs.len() > 0 {
        lemma_functions_front(fs.drop_last());
        assert(fs.drop_last().push(fs.last()) =~= fs);
        lemma_functions_push(fs.drop_last(), fs.last());
    }
}

proof fn lemma_function_round_trip(f: FunctionAST, t: Seq<Token>, pos: int)
    requires
        source_block(function_block(f)),
        0 <= pos,
        pos + function_tokens(f).len() <= t.len(),
        t.subrange(pos, pos + function_tokens(f).len()) == function_tokens(f),
    ensures
        function_tokens(f).len() > 0,
        function_end(t, pos) == Ok::<int, ParseError>(pos + function_tokens(f).len()),
{
    let w = function_tokens(f);
    let nt = names_tokens(f.arguments@);
    let bt = block_tokens(function_block(f));
    lemma_at(t, pos, w, 0);
    lemma_at(t, pos, w, 1);
    lemma_at(t, pos, w, 2);
    assert(w.subrange(3, 3 + nt.len() as int) =~= nt);
    lemma_slice(t, pos, w, 3, nt);
    lemma_at(t, pos, w, 3 + nt.len() as int);
    lemma_names_round_trip(f.arguments@, t, pos + 3);
    assert(w.subrange(4 + nt.len() as int, 4 + nt.len() as int + bt.len() as int) =~= bt);
    lemma_slice(t, pos, w, 4 + nt.len() as int, bt);
    lemma_block_round_trip(function_block(f), t, pos + 4 + nt.len() as int);
}

proof fn lemma_program_round_trip(fs: Seq<FunctionAST>, t: Seq<Token>, pos: int)
    requires
        source_program(fs),
        0 <= pos,
        pos + functions_front(fs).len() == t.len(),
        t.subrange(pos, t.len() as int) == functions_front(fs),
    ensures
        program_from(t, pos) == Ok::<(), ParseError>(()),
    decreases fs.len(),
{
    if fs.len() > 0 {
        let w = functions_front(fs);
        let ft = function_tokens(fs[0]);
        let rest = functions_front(fs.drop_first());
        assert(source_block(function_block(fs[0])));
        assert(w.subrange(0, ft.len() as int) =~= ft);
        lemma_slice(t, pos, w, 0, ft);
        lemma_function_round_trip(fs[0], t, pos);
        assert(w.subrange(ft.len() as int, w.len() as int) =~= rest);
        lemma_slice(t, pos, w, ft.len() as int, rest);
        assert forall|i: int| 0 <= i < fs.drop_first().len() implies source_block(
            function_block(#[trigger] fs.drop_first()[i]),
        ) by {
            assert(fs.drop_first()[i] == fs[i + 1]);
        }
        lemma_program_round_trip(fs.drop_first(), t, pos + ft.len() as int);
    }
}

/// Printing then parsing an expression: the tokens of an expression the
/// parser can produce, followed by any tokens that do not start with `(`,
/// are recognized as one expression spanning exactly the printed tokens.
pub proof fn law_expression_round_trip(e: ExprAST, rest: Seq<Token>)
    requires
        source_expr(e),
        rest.len() > 0 ==> !(rest[0] is LeftParentheses),
    ensures
        expr_end(expr_tokens(e) + rest, 0) == Ok::<int, ParseError>(expr_tokens(e).len() as int),
{
    let t = expr_tokens(e) + rest;
    assert(t.subrange(0, expr_tokens(e).len() as int) =~= expr_tokens(e));
    lemma_expr_round_trip(e, t, 0);
}

/// Printing then parsing a program: the tokens of function definitions
/// whose bodies the parser can produce are accepted as a whole program, so
/// `build_ast` succeeds on them.
pub proof fn law_program_round_trip(fs: Seq<FunctionAST>)
    requires
        source_program(fs),
    ensures
        program_from(functions_tokens(fs), 0) == Ok::<(), ParseError>(()),
{
    lemma_functions_front(fs);
    let t = functions_tokens(fs);
    assert(t.subrange(0, t.len() as int) =~= t);
    lemma_program_round_trip(fs, t, 0);
}

} // verus!
