//! The tokenizer: source text to a sequence of tokens.

use vstd::prelude::*;

use crate::text::{
    char_codes, chars_of, code_of, is_numeral, decimal_value, fits_i64, numeral_bytes, numeral_value,
    parse_numeral, string_from_chars, string_of,
};

verus! {

#[derive(Debug, PartialEq)]
pub enum Token {
    LeftParentheses,
    RightParentheses,
    LeftSquareBracket,
    RightSquareBracket,
    LeftCurlyBracket,
    RightCurlyBracket,
    KeywordFn,
    KeywordLet,
    KeywordIf,
    KeywordThen,
    KeywordElse,
    OperatorAssign,
    VerticalBar,
    Semicolon,
    Comma,
    /// `@`
    AddressSign,
    /// `<<`
    OperatorPutTo,
    /// `>>`
    OperatorGetFrom,
    /// A name; arithmetic operators are names too.
    IdentifierToken(String),
    Integer64(i64),
    LiteralString(String),
    LiteralTrue,
    LiteralFalse,
    /// Whitespace; never part of a token sequence.
    SpaceToken,
    PlaceholderToken,
}

/// Why tokenizing failed, with the position (in characters) where it did.
#[derive(Debug, PartialEq, Eq, Structural)]
pub enum LexError {
    UnrecognizedCharacter(usize),
    UnterminatedString(usize),
    BadNumber(usize),
}

pub open spec fn is_ident_first(c: char) -> bool {
    ('a' <= c && c <= 'z') || ('A' <= c && c <= 'Z') || c == '_'
}

pub open spec fn is_ident_rest(c: char) -> bool {
    is_ident_first(c) || ('0' <= c && c <= '9')
}

pub open spec fn is_digit_char(c: char) -> bool {
    '0' <= c && c <= '9'
}

pub open spec fn is_space(c: char) -> bool {
    c == ' ' || c == '\n' || c == '\t' || c == '\r'
}

pub open spec fn bracket_token(c: char) -> Option<Token> {
    match c {
        '{' => Some(Token::LeftCurlyBracket),
        '}' => Some(Token::RightCurlyBracket),
        '(' => Some(Token::LeftParentheses),
        ')' => Some(Token::RightParentheses),
        '[' => Some(Token::LeftSquareBracket),
        ']' => Some(Token::RightSquareBracket),
        _ => None,
    }
}

/// Whether `w` occurs in `s` at `pos`.
pub open spec fn text_at(s: Seq<char>, pos: int, w: Seq<char>) -> bool {
    0 <= pos && pos + w.len() <= s.len() && s.subrange(pos, pos + w.len()) == w
}

/// Whether the word `w` occurs in `s` at `pos` and is not the start of a
/// longer name.
pub open spec fn word_at(s: Seq<char>, pos: int, w: Seq<char>) -> bool {
    text_at(s, pos, w) && (pos + w.len() == s.len() || !is_ident_rest(s[pos + w.len()]))
}

/// The keyword at `pos`, with its length.
pub open spec fn keyword_at(s: Seq<char>, pos: int) -> Option<(int, Token)> {
    if word_at(s, pos, seq!['f', 'n']) {
        Some((2, Token::KeywordFn))
    } else if word_at(s, pos, seq!['l', 'e', 't']) {
        Some((3, Token::KeywordLet))
    } else if word_at(s, pos, seq!['i', 'f']) {
        Some((2, Token::KeywordIf))
    } else if word_at(s, pos, seq!['t', 'h', 'e', 'n']) {
        Some((4, Token::KeywordThen))
    } else if word_at(s, pos, seq!['e', 'l', 's', 'e']) {
        Some((4, Token::KeywordElse))
    } else if word_at(s, pos, seq!['t', 'r', 'u', 'e']) {
        Some((4, Token::LiteralTrue))
    } else if word_at(s, pos, seq!['f', 'a', 'l', 's', 'e']) {
        Some((5, Token::LiteralFalse))
    } else {
        None
    }
}

pub open spec fn is_keyword(w: Seq<char>) -> bool {
    w == seq!['f', 'n'] || w == seq!['l', 'e', 't'] || w == seq!['i', 'f'] || w == seq![
        't',
        'h',
        'e',
        'n',
    ] || w == seq!['e', 'l', 's', 'e'] || w == seq!['t', 'r', 'u', 'e'] || w == seq![
        'f',
        'a',
        'l',
        's',
        'e',
    ]
}

/// The arithmetic operator at `pos`: its text.
pub open spec fn arithmetic_at(s: Seq<char>, pos: int) -> Option<Seq<char>> {
    if text_at(s, pos, seq!['<', '=']) {
        Some(seq!['<', '='])
    } else if text_at(s, pos, seq!['>', '=']) {
        Some(seq!['>', '='])
    } else if text_at(s, pos, seq!['+']) {
        Some(seq!['+'])
    } else if text_at(s, pos, seq!['-']) {
        Some(seq!['-'])
    } else if text_at(s, pos, seq!['*']) {
        Some(seq!['*'])
    } else if text_at(s, pos, seq!['=', '=']) {
        Some(seq!['=', '='])
    } else if text_at(s, pos, seq!['>']) {
        Some(seq!['>'])
    } else if text_at(s, pos, seq!['<']) {
        Some(seq!['<'])
    } else {
        None
    }
}

/// The syntactic operator at `pos`, with its length.
pub open spec fn syntactic_at(s: Seq<char>, pos: int) -> Option<(int, Token)> {
    if text_at(s, pos, seq!['>', '>']) {
        Some((2, Token::OperatorGetFrom))
    } else if text_at(s, pos, seq!['<', '<']) {
        Some((2, Token::OperatorPutTo))
    } else if text_at(s, pos, seq!['=']) {
        Some((1, Token::OperatorAssign))
    } else if text_at(s, pos, seq!['|']) {
        Some((1, Token::VerticalBar))
    } else if text_at(s, pos, seq![';']) {
        Some((1, Token::Semicolon))
    } else if text_at(s, pos, seq![',']) {
        Some((1, Token::Comma))
    } else if text_at(s, pos, seq!['@']) {
        Some((1, Token::AddressSign))
    } else {
        None
    }
}

/// The operator at `pos`: the longer of the arithmetic and the syntactic
/// match, the syntactic one on a tie. An arithmetic operator is a name.
pub open spec fn operator_at(s: Seq<char>, pos: int) -> Option<(int, Token)> {
    match arithmetic_at(s, pos) {
        None => syntactic_at(s, pos),
        Some(w) => match syntactic_at(s, pos) {
            Some((m, t)) => if w.len() > m {
                Some((w.len() as int, Token::IdentifierToken(string_of(w))))
            } else {
                Some((m, t))
            },
            None => Some((w.len() as int, Token::IdentifierToken(string_of(w)))),
        },
    }
}

/// The first position at or after `pos` holding a newline, or the end.
pub open spec fn line_end(s: Seq<char>, pos: int) -> int
    decreases s.len() - pos,
{
    if pos >= s.len() || s[pos] == '\n' {
        pos
    } else {
        line_end(s, pos + 1)
    }
}

/// The first position at or after `pos` holding a double quote, or the end.
pub open spec fn quote_end(s: Seq<char>, pos: int) -> int
    decreases s.len() - pos,
{
    if pos >= s.len() || s[pos] == '"' {
        pos
    } else {
        quote_end(s, pos + 1)
    }
}

/// The end of the run of characters at or after `pos` that satisfy `p`.
pub open spec fn run_end(s: Seq<char>, pos: int, p: spec_fn(char) -> bool) -> int
    decreases s.len() - pos,
{
    if pos >= s.len() || !p(s[pos]) {
        pos
    } else {
        run_end(s, pos + 1, p)
    }
}

/// The text of a string literal with `\t` and `\n` replaced by a tab and
/// a newline.
pub open spec fn unescape(s: Seq<char>) -> Seq<char>
    decreases s.len(),
{
    if s.len() == 0 {
        s
    } else if s.len() >= 2 && s[0] == '\\' && s[1] == 't' {
        seq!['\t'] + unescape(s.subrange(2, s.len() as int))
    } else if s.len() >= 2 && s[0] == '\\' && s[1] == 'n' {
        seq!['\n'] + unescape(s.subrange(2, s.len() as int))
    } else {
        seq![s[0]] + unescape(s.drop_first())
    }
}

/// An integer literal at `pos`: the longest run of digits, which starts
/// with `0` only when it is that one digit, and whose value fits in an `i64`.
pub open spec fn lex_integer(s: Seq<char>, pos: int) -> Result<(int, Option<Token>), LexError> {
    let end = run_end(s, pos, |x: char| is_digit_char(x));
    let digits = char_codes(s.subrange(pos, end));
    if s[pos] == '0' && end > pos + 1 {
        Err(LexError::BadNumber(pos as usize))
    } else if !fits_i64(decimal_value(digits)) {
        Err(LexError::BadNumber(pos as usize))
    } else {
        Ok((end - pos, Some(Token::Integer64(decimal_value(digits) as i64))))
    }
}

/// A string literal at `pos`, up to the next double quote.
pub open spec fn lex_string(s: Seq<char>, pos: int) -> Result<(int, Option<Token>), LexError> {
    let close = quote_end(s, pos + 1);
    if close >= s.len() {
        Err(LexError::UnterminatedString(pos as usize))
    } else {
        Ok(
            (
                close + 1 - pos,
                Some(Token::LiteralString(string_of(unescape(s.subrange(pos + 1, close))))),
            ),
        )
    }
}

/// An identifier at `pos`: the longest run of name characters.
pub open spec fn lex_identifier(s: Seq<char>, pos: int) -> Result<(int, Option<Token>), LexError> {
    let end = run_end(s, pos + 1, |x: char| is_ident_rest(x));
    Ok((end - pos, Some(Token::IdentifierToken(string_of(s.subrange(pos, end))))))
}

/// One step of the tokenizer at `pos`: the number of characters consumed
/// and the token they make, if any. The rules are tried in order: line
/// comment, bracket, whitespace, keyword, operator, integer, string,
/// identifier.
pub open spec fn lex_step(s: Seq<char>, pos: int) -> Result<(int, Option<Token>), LexError> {
    let c = s[pos];
    if pos + 1 < s.len() && c == '/' && s[pos + 1] == '/' {
        Ok((line_end(s, pos + 2) - pos, None))
    } else if bracket_token(c) is Some {
        Ok((1, bracket_token(c)))
    } else if is_space(c) {
        Ok((1, None))
    } else if keyword_at(s, pos) is Some {
        let (n, t) = keyword_at(s, pos)->0;
        Ok((n, Some(t)))
    } else if operator_at(s, pos) is Some {
        let (n, t) = operator_at(s, pos)->0;
        Ok((n, Some(t)))
    } else if is_digit_char(c) {
        lex_integer(s, pos)
    } else if c == '"' {
        lex_string(s, pos)
    } else if is_ident_first(c) {
        lex_identifier(s, pos)
    } else {
        Err(LexError::UnrecognizedCharacter(pos as usize))
    }
}

/// The tokens of `s` from `pos` on, appended to `acc`; whitespace and
/// comments make none.
pub open spec fn lex_from(s: Seq<char>, pos: int, acc: Seq<Token>) -> Result<Seq<Token>, LexError>
    decreases s.len() - pos,
{
    if pos < 0 || pos >= s.len() {
        Ok(acc)
    } else {
        match lex_step(s, pos) {
            Ok((n, t)) => if n <= 0 || pos + n > s.len() {
                Err(LexError::UnrecognizedCharacter(pos as usize))
            } else {
                lex_from(
                    s,
                    pos + n,
                    match t {
                        Some(t) => acc.push(t),
                        None => acc,
                    },
                )
            },
            Err(e) => Err(e),
        }
    }
}

/// The tokens of a source text.
pub open spec fn tokenize(s: Seq<char>) -> Result<Seq<Token>, LexError> {
    lex_from(s, 0, Seq::empty())
}

proof fn lemma_run_end_bounds(s: Seq<char>, pos: int, p: spec_fn(char) -> bool)
    requires
        0 <= pos <= s.len(),
    ensures
        pos <= run_end(s, pos, p) <= s.len(),
        pos < s.len() && p(s[pos]) ==> run_end(s, pos, p) > pos,
        forall|k: int| pos <= k < run_end(s, pos, p) ==> p(s[k]),
    decreases s.len() - pos,
{
    if pos < s.len() && p(s[pos]) {
        lemma_run_end_bounds(s, pos + 1, p);
    }
}

proof fn lemma_line_end_bounds(s: Seq<char>, pos: int)
    requires
        0 <= pos <= s.len(),
    ensures
        pos <= line_end(s, pos) <= s.len(),
    decreases s.len() - pos,
{
    if pos < s.len() && s[pos] != '\n' {
        lemma_line_end_bounds(s, pos + 1);
    }
}

proof fn lemma_quote_end_bounds(s: Seq<char>, pos: int)
    requires
        0 <= pos <= s.len(),
    ensures
        pos <= quote_end(s, pos) <= s.len(),
    decreases s.len() - pos,
{
    if pos < s.len() && s[pos] != '"' {
        lemma_quote_end_bounds(s, pos + 1);
    }
}

proof fn lemma_digit_code(c: char)
    requires
        is_digit_char(c),
    ensures
        48 <= code_of(c) <= 57,
{
}

/// Whether `x` is an identifier: a letter or underscore, then letters,
/// digits and underscores.
pub open spec fn is_identifier(x: Seq<char>) -> bool {
    &&& x.len() > 0
    &&& is_ident_first(x[0])
    &&& forall|i: int| 1 <= i < x.len() ==> is_ident_rest(#[trigger] x[i])
}

proof fn lemma_run_end_all(s: Seq<char>, pos: int, p: spec_fn(char) -> bool)
    requires
        0 <= pos <= s.len(),
        forall|k: int| pos <= k < s.len() ==> p(#[trigger] s[k]),
    ensures
        run_end(s, pos, p) == s.len(),
    decreases s.len() - pos,
{
    if pos < s.len() {
        lemma_run_end_all(s, pos + 1, p);
    }
}

proof fn lemma_no_word_in_identifier(x: Seq<char>, w: Seq<char>)
    requires
        is_identifier(x),
        x != w,
    ensures
        !word_at(x, 0, w),
{
    if text_at(x, 0, w) {
        if w.len() == x.len() {
            assert(x.subrange(0, x.len() as int) =~= x);
        } else {
            assert(w.len() > 0 ==> x.subrange(0, w.len() as int)[0] == x[0]);
            if w.len() == 0 {
                assert(is_ident_rest(x[0]));
            } else {
                assert(is_ident_rest(x[w.len() as int]));
            }
        }
    }
}

proof fn lemma_no_symbol_at_name(x: Seq<char>, w: Seq<char>)
    requires
        x.len() > 0,
        is_ident_first(x[0]),
        w.len() > 0,
        !is_ident_first(w[0]),
    ensures
        !text_at(x, 0, w),
{
    if text_at(x, 0, w) {
        assert(x.subrange(0, w.len() as int)[0] == x[0]);
    }
}

/// Keyword disambiguation: an identifier that is not itself a keyword is a
/// single identifier token carrying the whole name, even when it begins
/// with a keyword (`iffy`, `letter`).
pub proof fn law_identifier_is_one_token(x: Seq<char>)
    requires
        is_identifier(x),
        !is_keyword(x),
    ensures
        tokenize(x) == Ok::<Seq<Token>, LexError>(seq![Token::IdentifierToken(string_of(x))]),
{
    lemma_no_word_in_identifier(x, seq!['f', 'n']);
    lemma_no_word_in_identifier(x, seq!['l', 'e', 't']);
    lemma_no_word_in_identifier(x, seq!['i', 'f']);
    lemma_no_word_in_identifier(x, seq!['t', 'h', 'e', 'n']);
    lemma_no_word_in_identifier(x, seq!['e', 'l', 's', 'e']);
    lemma_no_word_in_identifier(x, seq!['t', 'r', 'u', 'e']);
    lemma_no_word_in_identifier(x, seq!['f', 'a', 'l', 's', 'e']);
    lemma_no_symbol_at_name(x, seq!['<', '=']);
    lemma_no_symbol_at_name(x, seq!['>', '=']);
    lemma_no_symbol_at_name(x, seq!['+']);
    lemma_no_symbol_at_name(x, seq!['-']);
    lemma_no_symbol_at_name(x, seq!['*']);
    lemma_no_symbol_at_name(x, seq!['=', '=']);
    lemma_no_symbol_at_name(x, seq!['>']);
    lemma_no_symbol_at_name(x, seq!['<']);
    lemma_no_symbol_at_name(x, seq!['>', '>']);
    lemma_no_symbol_at_name(x, seq!['<', '<']);
    lemma_no_symbol_at_name(x, seq!['=']);
    lemma_no_symbol_at_name(x, seq!['|']);
    lemma_no_symbol_at_name(x, seq![';']);
    lemma_no_symbol_at_name(x, seq![',']);
    lemma_no_symbol_at_name(x, seq!['@']);
    assert(keyword_at(x, 0) is None);
    assert(operator_at(x, 0) is None);
    lemma_run_end_all(x, 1, |c: char| is_ident_rest(c));
    assert(x.subrange(0, x.len() as int) =~= x);
    let tok = Token::IdentifierToken(string_of(x));
    assert(lex_step(x, 0) == Ok::<(int, Option<Token>), LexError>((x.len() as int, Some(tok))));
    assert(Seq::<Token>::empty().push(tok) =~= seq![tok]);
    assert(lex_from(x, x.len() as int, seq![tok]) == Ok::<Seq<Token>, LexError>(seq![tok]));
}

/// The number of characters from `pos` to the end.
fn remained_chars(code: &Vec<char>, pos: usize) -> (r: usize)
    requires
        pos <= code.len(),
    ensures
        r == code.len() - pos,
{
    code.len() - pos
}

/// Whether `w` occurs in `code` at `pos`.
fn has_text_at(code: &Vec<char>, pos: usize, w: &Vec<char>) -> (r: bool)
    requires
        pos <= code.len(),
    ensures
        r == text_at(code@, pos as int, w@),
{
    if remained_chars(code, pos) < w.len() {
        return false;
    }
    let mut i: usize = 0;
    while i < w.len()
        invariant
            pos + w.len() <= code.len(),
            i <= w.len(),
            forall|k: int| 0 <= k < i ==> code@[pos + k] == w@[k],
        decreases w.len() - i,
    {
        if code[pos + i] != w[i] {
            assert(code@.subrange(pos as int, pos + w.len())[i as int] != w@[i as int]);
            return false;
        }
        i += 1;
    }
    assert(code@.subrange(pos as int, pos + w.len()) =~= w@);
    true
}

fn is_valid_identifier_first_letter(c: char) -> (r: bool)
    ensures
        r == is_ident_first(c),
{
    ('a' <= c && c <= 'z') || ('A' <= c && c <= 'Z') || c == '_'
}

fn is_valid_identifier_second_letter(c: char) -> (r: bool)
    ensures
        r == is_ident_rest(c),
{
    is_valid_identifier_first_letter(c) || ('0' <= c && c <= '9')
}

/// Whether the word `w` occurs at `pos` and does not run on into a name.
fn has_word_at(code: &Vec<char>, pos: usize, w: &Vec<char>) -> (r: bool)
    requires
        pos <= code.len(),
    ensures
        r == word_at(code@, pos as int, w@),
{
    if !has_text_at(code, pos, w) {
        return false;
    }
    let end = pos + w.len();
    end == code.len() || !is_valid_identifier_second_letter(code[end])
}

fn read_next_keyword(code: &Vec<char>, pos: usize) -> (r: Option<(usize, Token)>)
    requires
        pos <= code.len(),
    ensures
        match r {
            Some((n, t)) => keyword_at(code@, pos as int) == Some((n as int, t)),
            None => keyword_at(code@, pos as int) is None,
        },
{
    if has_word_at(code, pos, &vec!['f', 'n']) {
        Some((2, Token::KeywordFn))
    } else if has_word_at(code, pos, &vec!['l', 'e', 't']) {
        Some((3, Token::KeywordLet))
    } else if has_word_at(code, pos, &vec!['i', 'f']) {
        Some((2, Token::KeywordIf))
    } else if has_word_at(code, pos, &vec!['t', 'h', 'e', 'n']) {
        Some((4, Token::KeywordThen))
    } else if has_word_at(code, pos, &vec!['e', 'l', 's', 'e']) {
        Some((4, Token::KeywordElse))
    } else if has_word_at(code, pos, &vec!['t', 'r', 'u', 'e']) {
        Some((4, Token::LiteralTrue))
    } else if has_word_at(code, pos, &vec!['f', 'a', 'l', 's', 'e']) {
        Some((5, Token::LiteralFalse))
    } else {
        None
    }
}

fn read_next_arithmetic_operator(code: &Vec<char>, pos: usize) -> (r: Option<Vec<char>>)
    requires
        pos <= code.len(),
    ensures
        match r {
            Some(w) => arithmetic_at(code@, pos as int) == Some(w@),
            None => arithmetic_at(code@, pos as int) is None,
        },
{
    let w = vec!['<', '='];
    assert(w@ =~= seq!['<', '=']);
    if has_text_at(code, pos, &w) {
        return Some(w);
    }
    let w = vec!['>', '='];
    assert(w@ =~= seq!['>', '=']);
    if has_text_at(code, pos, &w) {
        return Some(w);
    }
    let w = vec!['+'];
    assert(w@ =~= seq!['+']);
    if has_text_at(code, pos, &w) {
        return Some(w);
    }
    let w = vec!['-'];
    assert(w@ =~= seq!['-']);
    if has_text_at(code, pos, &w) {
        return Some(w);
    }
    let w = vec!['*'];
    assert(w@ =~= seq!['*']);
    if has_text_at(code, pos, &w) {
        return Some(w);
    }
    let w = vec!['=', '='];
    assert(w@ =~= seq!['=', '=']);
    if has_text_at(code, pos, &w) {
        return Some(w);
    }
    let w = vec!['>'];
    assert(w@ =~= seq!['>']);
    if has_text_at(code, pos, &w) {
        return Some(w);
    }
    let w = vec!['<'];
    assert(w@ =~= seq!['<']);
    if has_text_at(code, pos, &w) {
        return Some(w);
    }
    None
}

fn read_next_operator(code: &Vec<char>, pos: usize) -> (r: Option<(usize, Token)>)
    requires
        pos <= code.len(),
    ensures
        match r {
            Some((n, t)) => syntactic_at(code@, pos as int) == Some((n as int, t)),
            None => syntactic_at(code@, pos as int) is None,
        },
{
    let w = vec!['>', '>'];
    assert(w@ =~= seq!['>', '>']);
    if has_text_at(code, pos, &w) {
        return Some((2, Token::OperatorGetFrom));
    }
    let w = vec!['<', '<'];
    assert(w@ =~= seq!['<', '<']);
    if has_text_at(code, pos, &w) {
        return Some((2, Token::OperatorPutTo));
    }
    let w = vec!['='];
    assert(w@ =~= seq!['=']);
    if has_text_at(code, pos, &w) {
        return Some((1, Token::OperatorAssign));
    }
    let w = vec!['|'];
    assert(w@ =~= seq!['|']);
    if has_text_at(code, pos, &w) {
        return Some((1, Token::VerticalBar));
    }
    let w = vec![';'];
    assert(w@ =~= seq![';']);
    if has_text_at(code, pos, &w) {
        return Some((1, Token::Semicolon));
    }
    let w = vec![','];
    assert(w@ =~= seq![',']);
    if has_text_at(code, pos, &w) {
        return Some((1, Token::Comma));
    }
    let w = vec!['@'];
    assert(w@ =~= seq!['@']);
    if has_text_at(code, pos, &w) {
        return Some((1, Token::AddressSign));
    }
    None
}

/// The operator at `pos`: the longer match wins, a syntactic one on a tie.
fn read_next_operator_or_arithmetic_operator(code: &Vec<char>, pos: usize) -> (r: Option<(usize, Token)>)
    requires
        pos <= code.len(),
    ensures
        match r {
            Some((n, t)) => operator_at(code@, pos as int) == Some((n as int, t)),
            None => operator_at(code@, pos as int) is None,
        },
{
    let arith = read_next_arithmetic_operator(code, pos);
    let op = read_next_operator(code, pos);
    match arith {
        None => op,
        Some(w) => {
            let n = w.len();
            match op {
                Some((m, t)) => if n > m {
                    Some((n, Token::IdentifierToken(string_from_chars(&w))))
                } else {
                    Some((m, t))
                },
                None => Some((n, Token::IdentifierToken(string_from_chars(&w)))),
            }
        },
    }
}

fn read_next_bracket(c: char) -> (r: Option<Token>)
    ensures
        r == bracket_token(c),
{
    match c {
        '{' => Some(Token::LeftCurlyBracket),
        '}' => Some(Token::RightCurlyBracket),
        '(' => Some(Token::LeftParentheses),
        ')' => Some(Token::RightParentheses),
        '[' => Some(Token::LeftSquareBracket),
        ']' => Some(Token::RightSquareBracket),
        _ => None,
    }
}

fn read_next_space(c: char) -> (r: bool)
    ensures
        r == is_space(c),
{
    c == ' ' || c == '\n' || c == '\t' || c == '\r'
}

/// The length of the line comment at `pos` up to its newline, or 0 when no
/// comment starts there.
fn skip_line_comment(code: &Vec<char>, pos: usize) -> (r: usize)
    requires
        pos < code.len(),
    ensures
        r == (if pos + 1 < code.len() && code@[pos as int] == '/' && code@[pos + 1] == '/' {
            line_end(code@, pos + 2) - pos
        } else {
            0
        }),
{
    if pos + 1 >= code.len() {
        return 0;
    }
    if code[pos] == '/' && code[pos + 1] == '/' {
        let mut len: usize = 2;
        while pos + len < code.len() && code[pos + len] != '\n'
            invariant
                2 <= len,
                pos + len <= code.len(),
                line_end(code@, pos + 2) == line_end(code@, (pos + len) as int),
            decreases code.len() - (pos + len),
        {
            len += 1;
        }
        len
    } else {
        0
    }
}

/// The end of the run of digits at `pos`.
fn digit_run_end(code: &Vec<char>, pos: usize) -> (r: usize)
    requires
        pos <= code.len(),
    ensures
        r == run_end(code@, pos as int, |x: char| is_digit_char(x)),
        pos <= r <= code.len(),
{
    let mut i = pos;
    while i < code.len() && '0' <= code[i] && code[i] <= '9'
        invariant
            pos <= i <= code.len(),
            run_end(code@, pos as int, |x: char| is_digit_char(x)) == run_end(
                code@,
                i as int,
                |x: char| is_digit_char(x),
            ),
        decreases code.len() - i,
    {
        i += 1;
    }
    i
}

/// The end of the run of name characters at `pos`.
fn name_run_end(code: &Vec<char>, pos: usize) -> (r: usize)
    requires
        pos <= code.len(),
    ensures
        r == run_end(code@, pos as int, |x: char| is_ident_rest(x)),
        pos <= r <= code.len(),
{
    let mut i = pos;
    while i < code.len() && is_valid_identifier_second_letter(code[i])
        invariant
            pos <= i <= code.len(),
            run_end(code@, pos as int, |x: char| is_ident_rest(x)) == run_end(
                code@,
                i as int,
                |x: char| is_ident_rest(x),
            ),
        decreases code.len() - i,
    {
        i += 1;
    }
    i
}

/// The characters of `code` from `from` to `to`.
fn chars_between(code: &Vec<char>, from: usize, to: usize) -> (r: Vec<char>)
    requires
        from <= to <= code.len(),
    ensures
        r@ == code@.subrange(from as int, to as int),
{
    let mut r: Vec<char> = Vec::new();
    let mut i = from;
    while i < to
        invariant
            from <= i <= to <= code.len(),
            r@ == code@.subrange(from as int, i as int),
        decreases to - i,
    {
        r.push(code[i]);
        i += 1;
        assert(r@ =~= code@.subrange(from as int, i as int));
    }
    r
}

fn read_next_integer(code: &Vec<char>, pos: usize) -> (r: Result<(usize, Option<Token>), LexError>)
    requires
        pos < code.len(),
        is_digit_char(code@[pos as int]),
    ensures
        match r {
            Ok((n, t)) => lex_integer(code@, pos as int) == Ok::<(int, Option<Token>), LexError>((n as int, t)) && n > 0 && pos + n <= code.len(),
            Err(e) => lex_integer(code@, pos as int) == Err::<(int, Option<Token>), LexError>(e),
        },
{
    let end = digit_run_end(code, pos);
    proof {
        lemma_run_end_bounds(code@, pos as int, |x: char| is_digit_char(x));
    }
    if code[pos] == '0' && end > pos + 1 {
        return Err(LexError::BadNumber(pos));
    }
    let digits = chars_between(code, pos, end);
    proof {
        assert forall|i: int| 0 <= i < digits@.len() implies code_of(#[trigger] digits@[i]) >= 0 by {
            assert(digits@[i] == code@[pos + i]);
        }
        let d = char_codes(digits@);
        assert forall|i: int| 0 <= i < d.len() implies crate::text::is_digit_code(d[i]) by {
            assert(digits@[i] == code@[pos + i]);
            lemma_digit_code(digits@[i]);
        }
        assert(d[0] != 45);
        assert(is_numeral(d));
        assert(numeral_value(d) == decimal_value(d));
    }
    let bytes = numeral_bytes(&digits);
    match parse_numeral(&bytes) {
        Some(v) => Ok((end - pos, Some(Token::Integer64(v)))),
        None => Err(LexError::BadNumber(pos)),
    }
}

/// The text between `from` and `to` with `\t` and `\n` replaced by a tab
/// and a newline.
fn process_backslach_in_string_literal(code: &Vec<char>, from: usize, to: usize) -> (r: Vec<char>)
    requires
        from <= to <= code.len(),
    ensures
        r@ == unescape(code@.subrange(from as int, to as int)),
{
    let ghost t = code@.subrange(from as int, to as int);
    let mut r: Vec<char> = Vec::new();
    let mut i = from;
    while i < to
        invariant
            from <= i <= to <= code.len(),
            t == code@.subrange(from as int, to as int),
            unescape(t) == r@ + unescape(code@.subrange(i as int, to as int)),
        decreases to - i,
    {
        let ghost rest = code@.subrange(i as int, to as int);
        if i + 1 < to && code[i] == '\\' && code[i + 1] == 't' {
            r.push('\t');
            proof {
                assert(rest.subrange(2, rest.len() as int) =~= code@.subrange(i + 2, to as int));
            }
            i += 2;
        } else if i + 1 < to && code[i] == '\\' && code[i + 1] == 'n' {
            r.push('\n');
            proof {
                assert(rest.subrange(2, rest.len() as int) =~= code@.subrange(i + 2, to as int));
            }
            i += 2;
        } else {
            r.push(code[i]);
            proof {
                assert(rest.drop_first() =~= code@.subrange(i + 1, to as int));
            }
            i += 1;
        }
        proof {
            assert(unescape(t) =~= r@ + unescape(code@.subrange(i as int, to as int)));
        }
    }
    proof {
        assert(code@.subrange(i as int, to as int) =~= Seq::<char>::empty());
        assert(r@ + Seq::<char>::empty() =~= r@);
    }
    r
}

fn read_next_string(code: &Vec<char>, pos: usize) -> (r: Result<(usize, Option<Token>), LexError>)
    requires
        pos < code.len(),
        code@[pos as int] == '"',
    ensures
        match r {
            Ok((n, t)) => lex_string(code@, pos as int) == Ok::<(int, Option<Token>), LexError>((n as int, t)) && n > 0 && pos + n <= code.len(),
            Err(e) => lex_string(code@, pos as int) == Err::<(int, Option<Token>), LexError>(e),
        },
{
    let mut close = pos + 1;
    while close < code.len() && code[close] != '"'
        invariant
            pos + 1 <= close <= code.len(),
            quote_end(code@, pos + 1) == quote_end(code@, close as int),
        decreases code.len() - close,
    {
        close += 1;
    }
    if close >= code.len() {
        return Err(LexError::UnterminatedString(pos));
    }
    let text = process_backslach_in_string_literal(code, pos + 1, close);
    Ok((close + 1 - pos, Some(Token::LiteralString(string_from_chars(&text)))))
}

fn read_next_identifier(code: &Vec<char>, pos: usize) -> (r: (usize, Option<Token>))
    requires
        pos < code.len(),
    ensures
        lex_identifier(code@, pos as int) == Ok::<(int, Option<Token>), LexError>((r.0 as int, r.1)),
        r.0 > 0,
        pos + r.0 <= code.len(),
{
    let end = name_run_end(code, pos + 1);
    let name = chars_between(code, pos, end);
    (end - pos, Some(Token::IdentifierToken(string_from_chars(&name))))
}

/// One step of the tokenizer at `pos`: the characters consumed and the
/// token they make, if any.
fn read_next_token(code: &Vec<char>, pos: usize) -> (r: Result<(usize, Option<Token>), LexError>)
    requires
        pos < code.len(),
    ensures
        match r {
            Ok((n, t)) => lex_step(code@, pos as int) == Ok::<(int, Option<Token>), LexError>((n as int, t)) && n > 0 && pos + n <= code.len(),
            Err(e) => lex_step(code@, pos as int) == Err::<(int, Option<Token>), LexError>(e),
        },
{
    let comment = skip_line_comment(code, pos);
    proof {
        if pos + 2 <= code.len() {
            lemma_line_end_bounds(code@, pos + 2);
        }
    }
    if comment > 0 {
        return Ok((comment, None));
    }
    let c = code[pos];
    match read_next_bracket(c) {
        Some(b) => {
            return Ok((1, Some(b)));
        },
        None => {},
    }
    if read_next_space(c) {
        return Ok((1, None));
    }
    match read_next_keyword(code, pos) {
        Some((n, t)) => {
            return Ok((n, Some(t)));
        },
        None => {},
    }
    match read_next_operator_or_arithmetic_operator(code, pos) {
        Some((n, t)) => {
            return Ok((n, Some(t)));
        },
        None => {},
    }
    if '0' <= c && c <= '9' {
        return read_next_integer(code, pos);
    }
    if c == '"' {
        return read_next_string(code, pos);
    }
    if is_valid_identifier_first_letter(c) {
        let (n, t) = read_next_identifier(code, pos);
        return Ok((n, t));
    }
    Err(LexError::UnrecognizedCharacter(pos))
}

/// The tokens of a source text: comments and whitespace are dropped; the
/// first character that starts no token, an unterminated string or a bad
/// integer literal is an error.
pub fn convert_source_to_tokens(code: &str) -> (r: Result<Vec<Token>, LexError>)
    ensures
        match r {
            Ok(v) => tokenize(code@) == Ok::<Seq<Token>, LexError>(v@),
            Err(e) => tokenize(code@) == Err::<Seq<Token>, LexError>(e),
        },
{
    let chars = chars_of(code);
    let mut result: Vec<Token> = Vec::new();
    let mut pos: usize = 0;
    while pos < chars.len()
        invariant
            chars@ == code@,
            pos <= chars@.len(),
            tokenize(code@) == lex_from(chars@, pos as int, result@),
        decreases chars.len() - pos,
    {
        match read_next_token(&chars, pos) {
            Ok((n, t)) => {
                match t {
                    Some(tok) => {
                        result.push(tok);
                    },
                    None => {},
                }
                pos += n;
            },
            Err(e) => {
                return Err(e);
            },
        }
    }
    Ok(result)
}

} // verus!
