//! The parser: a recursive-descent parser from tokens to the syntax tree.
//!
//! Grammar:
//! ```text
//! program   = function
//! function  = "int" identifier "(" "void" ")" "{" statement "}"
//! statement = "return" exp ";"
//! exp       = constant | unop exp | "(" exp ")"
//! unop      = "~" | "-"
//! ```

use vstd::prelude::*;
use crate::ast::{Exp, Function, FunctionModel, Program, ProgramModel, Statement, UnaryOperator};
use crate::lexer::{
    is_identifier_text, law_lex_spelling, law_lexed_tokens_are_spellable, lex_spec, spellable, spelling, tokens_view, LexErrorModel,
    token_debug_text, Token, TokenModel,
};

verus! {

/// Why parsing failed.
#[derive(Debug)]
pub enum ParseFailure {
    /// A token was needed but the input had ended.
    UnexpectedEnd,
    /// The first token was expected, the second was found.
    Expected(Token, Token),
    /// A function name was expected, this token was found.
    ExpectedIdentifier(Token),
    /// An expression was needed but the input had ended.
    EndInExpression,
    /// No expression starts with this token.
    MalformedExpression(Token),
    /// A unary operator was expected, this token was found.
    ExpectedUnaryOperator(Token),
    /// This token follows the complete function definition.
    TrailingToken(Token),
}

/// A parse error.
#[derive(Debug)]
pub struct ParseError(pub ParseFailure);

pub enum ParseErrorModel {
    UnexpectedEnd,
    Expected(TokenModel, TokenModel),
    ExpectedIdentifier(TokenModel),
    EndInExpression,
    MalformedExpression(TokenModel),
    ExpectedUnaryOperator(TokenModel),
    TrailingToken(TokenModel),
}

impl View for ParseError {
    type V = ParseErrorModel;

    open spec fn view(&self) -> ParseErrorModel {
        match &self.0 {
            ParseFailure::UnexpectedEnd => ParseErrorModel::UnexpectedEnd,
            ParseFailure::Expected(a, b) => ParseErrorModel::Expected(a@, b@),
            ParseFailure::ExpectedIdentifier(t) => ParseErrorModel::ExpectedIdentifier(t@),
            ParseFailure::EndInExpression => ParseErrorModel::EndInExpression,
            ParseFailure::MalformedExpression(t) => ParseErrorModel::MalformedExpression(t@),
            ParseFailure::ExpectedUnaryOperator(t) => ParseErrorModel::ExpectedUnaryOperator(t@),
            ParseFailure::TrailingToken(t) => ParseErrorModel::TrailingToken(t@),
        }
    }
}

/// The message of a parse error, such as
/// `parse error: unexpected token Semicolon after function definition`.
pub open spec fn parse_error_text(e: ParseErrorModel) -> Seq<char> {
    "parse error: "@ + match e {
        ParseErrorModel::UnexpectedEnd => "unexpected end of input"@,
        ParseErrorModel::Expected(a, b) => "expected "@ + token_debug_text(a) + ", got "@
            + token_debug_text(b),
        ParseErrorModel::ExpectedIdentifier(t) => "expected identifier, got "@ + token_debug_text(t),
        ParseErrorModel::EndInExpression => "unexpected end of input in expression"@,
        ParseErrorModel::MalformedExpression(t) => "malformed expression: unexpected token "@
            + token_debug_text(t),
        ParseErrorModel::ExpectedUnaryOperator(t) => "expected unary operator, got "@
            + token_debug_text(t),
        ParseErrorModel::TrailingToken(t) => "unexpected token "@ + token_debug_text(t)
            + " after function definition"@,
    }
}

impl ParseError {
    /// The error's message.
    pub fn to_text(&self) -> (s: String)
        ensures
            s@ == parse_error_text(self@),
    {
        let mut s = String::new();
        s.append("parse error: ");
        match &self.0 {
            ParseFailure::UnexpectedEnd => s.append("unexpected end of input"),
            ParseFailure::Expected(a, b) => {
                s.append("expected ");
                s.append(a.debug_text().as_str());
                s.append(", got ");
                s.append(b.debug_text().as_str());
            },
            ParseFailure::ExpectedIdentifier(t) => {
                s.append("expected identifier, got ");
                s.append(t.debug_text().as_str());
            },
            ParseFailure::EndInExpression => s.append("unexpected end of input in expression"),
            ParseFailure::MalformedExpression(t) => {
                s.append("malformed expression: unexpected token ");
                s.append(t.debug_text().as_str());
            },
            ParseFailure::ExpectedUnaryOperator(t) => {
                s.append("expected unary operator, got ");
                s.append(t.debug_text().as_str());
            },
            ParseFailure::TrailingToken(t) => {
                s.append("unexpected token ");
                s.append(t.debug_text().as_str());
                s.append(" after function definition");
            },
        }
        assert(s@ =~= parse_error_text(self@));
        s
    }
}

// ---------------------------------------------------------------------------
// Specification: each function gives the outcome of parsing from position
// `pos` of the token sequence `ts`, with the position after what it read.

pub open spec fn take_at(ts: Seq<TokenModel>, pos: int) -> Result<(TokenModel, int), (ParseErrorModel, int)> {
    if 0 <= pos < ts.len() {
        Ok((ts[pos], pos + 1))
    } else {
        Err((ParseErrorModel::UnexpectedEnd, pos))
    }
}

pub open spec fn expect_at(ts: Seq<TokenModel>, pos: int, expected: TokenModel) -> Result<int, (ParseErrorModel, int)> {
    match take_at(ts, pos) {
        Ok((t, p)) => if t == expected {
            Ok(p)
        } else {
            Err((ParseErrorModel::Expected(expected, t), p))
        },
        Err(e) => Err(e),
    }
}

pub open spec fn unop_at(ts: Seq<TokenModel>, pos: int) -> Result<(UnaryOperator, int), (ParseErrorModel, int)> {
    match take_at(ts, pos) {
        Ok((TokenModel::Tilde, p)) => Ok((UnaryOperator::Complement, p)),
        Ok((TokenModel::Hyphen, p)) => Ok((UnaryOperator::Negate, p)),
        Ok((t, p)) => Err((ParseErrorModel::ExpectedUnaryOperator(t), p)),
        Err(e) => Err(e),
    }
}

pub open spec fn exp_at(ts: Seq<TokenModel>, pos: int) -> Result<(Exp, int), (ParseErrorModel, int)>
    decreases ts.len() - pos,
{
    if pos < 0 || pos >= ts.len() {
        Err((ParseErrorModel::EndInExpression, pos))
    } else {
        match ts[pos] {
            TokenModel::Constant(n) => Ok((Exp::Constant(n), pos + 1)),
            TokenModel::Tilde => match exp_at(ts, pos + 1) {
                Ok((e, p)) => Ok((Exp::Unary(UnaryOperator::Complement, Box::new(e)), p)),
                Err(x) => Err(x),
            },
            TokenModel::Hyphen => match exp_at(ts, pos + 1) {
                Ok((e, p)) => Ok((Exp::Unary(UnaryOperator::Negate, Box::new(e)), p)),
                Err(x) => Err(x),
            },
            TokenModel::OpenParen => match exp_at(ts, pos + 1) {
                Ok((e, p)) => match expect_at(ts, p, TokenModel::CloseParen) {
                    Ok(q) => Ok((e, q)),
                    Err(x) => Err(x),
                },
                Err(x) => Err(x),
            },
            t => Err((ParseErrorModel::MalformedExpression(t), pos)),
        }
    }
}

pub open spec fn statement_at(ts: Seq<TokenModel>, pos: int) -> Result<(Statement, int), (ParseErrorModel, int)> {
    match expect_at(ts, pos, TokenModel::Return) {
        Ok(p1) => match exp_at(ts, p1) {
            Ok((e, p2)) => match expect_at(ts, p2, TokenModel::Semicolon) {
                Ok(p3) => Ok((Statement::Return(e), p3)),
                Err(x) => Err(x),
            },
            Err(x) => Err(x),
        },
        Err(x) => Err(x),
    }
}

pub open spec fn name_at(ts: Seq<TokenModel>, pos: int) -> Result<(Seq<char>, int), (ParseErrorModel, int)> {
    match take_at(ts, pos) {
        Ok((TokenModel::Identifier(name), p)) => Ok((name, p)),
        Ok((t, p)) => Err((ParseErrorModel::ExpectedIdentifier(t), p)),
        Err(e) => Err(e),
    }
}

/// `"(" "void" ")" "{"` from `pos`.
pub open spec fn header_tail_at(ts: Seq<TokenModel>, pos: int) -> Result<int, (ParseErrorModel, int)> {
    match expect_at(ts, pos, TokenModel::OpenParen) {
        Ok(p1) => match expect_at(ts, p1, TokenModel::Void) {
            Ok(p2) => match expect_at(ts, p2, TokenModel::CloseParen) {
                Ok(p3) => expect_at(ts, p3, TokenModel::OpenBrace),
                Err(x) => Err(x),
            },
            Err(x) => Err(x),
        },
        Err(x) => Err(x),
    }
}

pub open spec fn function_at(ts: Seq<TokenModel>, pos: int) -> Result<(FunctionModel, int), (ParseErrorModel, int)> {
    match expect_at(ts, pos, TokenModel::Int) {
        Ok(p1) => match name_at(ts, p1) {
            Ok((name, p2)) => match header_tail_at(ts, p2) {
                Ok(p3) => match statement_at(ts, p3) {
                    Ok((body, p4)) => match expect_at(ts, p4, TokenModel::CloseBrace) {
                        Ok(p5) => Ok((FunctionModel { name, body }, p5)),
                        Err(x) => Err(x),
                    },
                    Err(x) => Err(x),
                },
                Err(x) => Err(x),
            },
            Err(x) => Err(x),
        },
        Err(x) => Err(x),
    }
}

/// The outcome of parsing the whole token sequence `ts`.
pub open spec fn parse_spec(ts: Seq<TokenModel>) -> Result<ProgramModel, ParseErrorModel> {
    match function_at(ts, 0) {
        Ok((f, p)) => if p < ts.len() {
            Err(ParseErrorModel::TrailingToken(ts[p]))
        } else {
            Ok(ProgramModel::Program(f))
        },
        Err((x, _)) => Err(x),
    }
}

/// The position a parse of the whole token sequence stops at: after the
/// function on success or before a trailing token, else where the error
/// arose.
pub open spec fn parse_end_pos(ts: Seq<TokenModel>) -> int {
    match function_at(ts, 0) {
        Ok((_, p)) => p,
        Err((_, p)) => p,
    }
}

pub open spec fn parse_outcome(r: Result<Program, ParseError>) -> Result<ProgramModel, ParseErrorModel> {
    match r {
        Ok(p) => Ok(p@),
        Err(e) => Err(e@),
    }
}

// ---------------------------------------------------------------------------
// Implementation

/// A copy of a token.
fn copy_token(t: &Token) -> (r: Token)
    ensures
        r@ == t@,
{
    match t {
        Token::Identifier(s) => Token::Identifier(s.clone()),
        Token::Constant(n) => Token::Constant(*n),
        Token::Int => Token::Int,
        Token::Void => Token::Void,
        Token::Return => Token::Return,
        Token::OpenParen => Token::OpenParen,
        Token::CloseParen => Token::CloseParen,
        Token::OpenBrace => Token::OpenBrace,
        Token::CloseBrace => Token::CloseBrace,
        Token::Semicolon => Token::Semicolon,
        Token::Tilde => Token::Tilde,
        Token::Hyphen => Token::Hyphen,
        Token::DoubleHyphen => Token::DoubleHyphen,
    }
}

/// Whether two tokens are the same.
fn same_token(a: &Token, b: &Token) -> (r: bool)
    ensures
        r == (a@ == b@),
{
    match (a, b) {
        (Token::Identifier(x), Token::Identifier(y)) => *x == *y,
        (Token::Constant(x), Token::Constant(y)) => *x == *y,
        (Token::Int, Token::Int) => true,
        (Token::Void, Token::Void) => true,
        (Token::Return, Token::Return) => true,
        (Token::OpenParen, Token::OpenParen) => true,
        (Token::CloseParen, Token::CloseParen) => true,
        (Token::OpenBrace, Token::OpenBrace) => true,
        (Token::CloseBrace, Token::CloseBrace) => true,
        (Token::Semicolon, Token::Semicolon) => true,
        (Token::Tilde, Token::Tilde) => true,
        (Token::Hyphen, Token::Hyphen) => true,
        (Token::DoubleHyphen, Token::DoubleHyphen) => true,
        _ => false,
    }
}

/// A parser over a token slice, reading from position `pos`.
struct Parser<'a> {
    tokens: &'a [Token],
    pos: usize,
}

impl<'a> Parser<'a> {
    spec fn ts(&self) -> Seq<TokenModel> {
        tokens_view(self.tokens@)
    }

    fn new(tokens: &'a [Token]) -> (p: Self)
        ensures
            p.tokens == tokens,
            p.pos == 0,
    {
        Parser { tokens, pos: 0 }
    }

    /// Reads the next token.
    fn take_token(&mut self) -> (r: Result<&'a Token, ParseError>)
        ensures
            final(self).tokens == old(self).tokens,
            match take_at(old(self).ts(), old(self).pos as int) {
                Ok((t, p)) => r matches Ok(tok) && tok@ == t && final(self).pos == p,
                Err((e, p)) => r matches Err(x) && x@ == e && final(self).pos == p,
            },
    {
        if self.pos < self.tokens.len() {
            let tok = &self.tokens[self.pos];
            self.pos += 1;
            Ok(tok)
        } else {
            Err(ParseError(ParseFailure::UnexpectedEnd))
        }
    }

    /// The next token, without reading it.
    fn peek(&self) -> (r: Option<&'a Token>)
        ensures
            match r {
                Some(t) => self.pos < self.tokens.len() && t@ == self.ts()[self.pos as int],
                None => self.pos >= self.tokens.len(),
            },
    {
        if self.pos < self.tokens.len() {
            Some(&self.tokens[self.pos])
        } else {
            None
        }
    }

    /// Reads the next token, which must be `expected`.
    fn expect(&mut self, expected: &Token) -> (r: Result<(), ParseError>)
        ensures
            final(self).tokens == old(self).tokens,
            match expect_at(old(self).ts(), old(self).pos as int, expected@) {
                Ok(p) => r is Ok && final(self).pos == p,
                Err((e, p)) => r matches Err(x) && x@ == e && final(self).pos == p,
            },
    {
        match self.take_token() {
            Ok(actual) => {
                if same_token(actual, expected) {
                    Ok(())
                } else {
                    Err(ParseError(ParseFailure::Expected(copy_token(expected), copy_token(actual))))
                }
            },
            Err(e) => Err(e),
        }
    }

    fn parse_unop(&mut self) -> (r: Result<UnaryOperator, ParseError>)
        ensures
            final(self).tokens == old(self).tokens,
            match unop_at(old(self).ts(), old(self).pos as int) {
                Ok((op, p)) => r matches Ok(o) && o == op && final(self).pos == p,
                Err((e, p)) => r matches Err(x) && x@ == e && final(self).pos == p,
            },
    {
        match self.take_token() {
            Ok(Token::Tilde) => Ok(UnaryOperator::Complement),
            Ok(Token::Hyphen) => Ok(UnaryOperator::Negate),
            Ok(tok) => Err(ParseError(ParseFailure::ExpectedUnaryOperator(copy_token(tok)))),
            Err(e) => Err(e),
        }
    }

    fn parse_exp(&mut self) -> (r: Result<Exp, ParseError>)
        ensures
            final(self).tokens == old(self).tokens,
            match exp_at(old(self).ts(), old(self).pos as int) {
                Ok((e, p)) => r matches Ok(x) && x == e && final(self).pos == p,
                Err((e, p)) => r matches Err(x) && x@ == e && final(self).pos == p,
            },
        decreases old(self).tokens@.len() - old(self).pos,
    {
        let next = match self.peek() {
            Some(t) => t,
            None => {
                return Err(ParseError(ParseFailure::EndInExpression));
            },
        };
        match next {
            Token::Constant(n) => {
                let n = *n;
                self.pos += 1;
                Ok(Exp::Constant(n))
            },
            Token::Tilde | Token::Hyphen => {
                let op = match self.parse_unop() {
                    Ok(op) => op,
                    Err(e) => {
                        return Err(e);
                    },
                };
                match self.parse_exp() {
                    Ok(inner) => Ok(Exp::Unary(op, Box::new(inner))),
                    Err(e) => Err(e),
                }
            },
            Token::OpenParen => {
                self.pos += 1;
                let inner = match self.parse_exp() {
                    Ok(inner) => inner,
                    Err(e) => {
                        return Err(e);
                    },
                };
                match self.expect(&Token::CloseParen) {
                    Ok(()) => Ok(inner),
                    Err(e) => Err(e),
                }
            },
            tok => Err(ParseError(ParseFailure::MalformedExpression(copy_token(tok)))),
        }
    }

    fn parse_statement(&mut self) -> (r: Result<Statement, ParseError>)
        ensures
            final(self).tokens == old(self).tokens,
            match statement_at(old(self).ts(), old(self).pos as int) {
                Ok((st, p)) => r matches Ok(x) && x == st && final(self).pos == p,
                Err((e, p)) => r matches Err(x) && x@ == e && final(self).pos == p,
            },
    {
        match self.expect(&Token::Return) {
            Ok(()) => {},
            Err(e) => {
                return Err(e);
            },
        }
        let exp = match self.parse_exp() {
            Ok(exp) => exp,
            Err(e) => {
                return Err(e);
            },
        };
        match self.expect(&Token::Semicolon) {
            Ok(()) => Ok(Statement::Return(exp)),
            Err(e) => Err(e),
        }
    }

    fn parse_function(&mut self) -> (r: Result<Function, ParseError>)
        ensures
            final(self).tokens == old(self).tokens,
            match function_at(old(self).ts(), old(self).pos as int) {
                Ok((f, p)) => r matches Ok(x) && x@ == f && final(self).pos == p,
                Err((e, p)) => r matches Err(x) && x@ == e && final(self).pos == p,
            },
    {
        match self.expect(&Token::Int) {
            Ok(()) => {},
            Err(e) => {
                return Err(e);
            },
        }
        let name = match self.take_token() {
            Ok(Token::Identifier(name)) => name.clone(),
            Ok(tok) => {
                return Err(ParseError(ParseFailure::ExpectedIdentifier(copy_token(tok))));
            },
            Err(e) => {
                return Err(e);
            },
        };
        let ghost p2 = self.pos;
        match self.expect(&Token::OpenParen) {
            Ok(()) => {},
            Err(e) => {
                return Err(e);
            },
        }
        match self.expect(&Token::Void) {
            Ok(()) => {},
            Err(e) => {
                return Err(e);
            },
        }
        match self.expect(&Token::CloseParen) {
            Ok(()) => {},
            Err(e) => {
                return Err(e);
            },
        }
        match self.expect(&Token::OpenBrace) {
            Ok(()) => {},
            Err(e) => {
                return Err(e);
            },
        }
        let body = match self.parse_statement() {
            Ok(body) => body,
            Err(e) => {
                return Err(e);
            },
        };
        match self.expect(&Token::CloseBrace) {
            Ok(()) => Ok(Function { name, body }),
            Err(e) => Err(e),
        }
    }

    fn parse_program(&mut self) -> (r: Result<Program, ParseError>)
        requires
            old(self).pos == 0,
        ensures
            final(self).tokens == old(self).tokens,
            parse_outcome(r) == parse_spec(old(self).ts()),
            final(self).pos == parse_end_pos(old(self).ts()),
            r is Ok ==> final(self).pos == final(self).tokens.len(),
    {
        let func = match self.parse_function() {
            Ok(func) => func,
            Err(e) => {
                return Err(e);
            },
        };
        if self.pos < self.tokens.len() {
            return Err(ParseError(ParseFailure::TrailingToken(copy_token(&self.tokens[self.pos]))));
        }
        Ok(Program::Program(func))
    }
}

/// Parses a token sequence into a program.
///
/// The result is the outcome of [`parse_spec`] on the tokens: the program,
/// or the first error met.
pub fn parse(tokens: &[Token]) -> (r: Result<Program, ParseError>)
    ensures
        parse_outcome(r) == parse_spec(tokens_view(tokens@)),
{
    Parser::new(tokens).parse_program()
}

// ---------------------------------------------------------------------------
// Laws

/// The tokens that spell an expression, without parentheses.
pub open spec fn exp_tokens(e: Exp) -> Seq<TokenModel>
    decreases e,
{
    match e {
        Exp::Constant(n) => seq![TokenModel::Constant(n)],
        Exp::Unary(UnaryOperator::Complement, inner) => seq![TokenModel::Tilde] + exp_tokens(*inner),
        Exp::Unary(UnaryOperator::Negate, inner) => seq![TokenModel::Hyphen] + exp_tokens(*inner),
    }
}

/// The tokens that spell a program.
pub open spec fn program_tokens(p: ProgramModel) -> Seq<TokenModel> {
    match p {
        ProgramModel::Program(f) => match f.body {
            Statement::Return(e) => seq![
                TokenModel::Int,
                TokenModel::Identifier(f.name),
                TokenModel::OpenParen,
                TokenModel::Void,
                TokenModel::CloseParen,
                TokenModel::OpenBrace,
                TokenModel::Return,
            ] + exp_tokens(e) + seq![TokenModel::Semicolon, TokenModel::CloseBrace],
        },
    }
}

proof fn lemma_exp_tokens_nonempty(e: Exp)
    ensures
        exp_tokens(e).len() >= 1,
    decreases e,
{
    match e {
        Exp::Constant(_) => {},
        Exp::Unary(_, inner) => {
            lemma_exp_tokens_nonempty(*inner);
        },
    }
}

/// An expression's tokens, found at `pos`, parse back to the expression.
proof fn lemma_exp_tokens_parse(ts: Seq<TokenModel>, pos: int, e: Exp)
    requires
        0 <= pos,
        pos + exp_tokens(e).len() <= ts.len(),
        forall|k: int| 0 <= k < exp_tokens(e).len() ==> ts[pos + k] == #[trigger] exp_tokens(e)[k],
    ensures
        exp_at(ts, pos) == Ok::<(Exp, int), (ParseErrorModel, int)>((e, pos + exp_tokens(e).len())),
    decreases e,
{
    lemma_exp_tokens_nonempty(e);
    assert(ts[pos] == exp_tokens(e)[0]);
    match e {
        Exp::Constant(_) => {},
        Exp::Unary(op, inner) => {
            let it = exp_tokens(*inner);
            assert forall|k: int| 0 <= k < it.len() implies ts[pos + 1 + k] == #[trigger] it[k] by {
                assert(exp_tokens(e)[k + 1] == it[k]);
            }
            lemma_exp_tokens_parse(ts, pos + 1, *inner);
            assert(Box::new(*inner) == inner);
        },
    }
}

/// Parsing inverts spelling: the tokens of any program parse back to it.
pub proof fn law_parse_program_tokens(p: ProgramModel)
    ensures
        parse_spec(program_tokens(p)) == Ok::<ProgramModel, ParseErrorModel>(p),
{
    let ProgramModel::Program(f) = p;
    let Statement::Return(e) = f.body;
    let ts = program_tokens(p);
    let et = exp_tokens(e);
    let m = et.len() as int;
    assert(ts.len() == 9 + m);
    assert forall|k: int| 0 <= k < m implies ts[7 + k] == #[trigger] et[k] by {}
    lemma_exp_tokens_parse(ts, 7, e);
    assert(ts[7 + m] == TokenModel::Semicolon);
    assert(ts[8 + m] == TokenModel::CloseBrace);
}

/// Every constant of the expression is non-negative, as the lexer makes them.
pub open spec fn exp_spellable(e: Exp) -> bool
    decreases e,
{
    match e {
        Exp::Constant(n) => n >= 0,
        Exp::Unary(_, inner) => exp_spellable(*inner),
    }
}

/// A program that source text can express: its name is a valid identifier
/// and its constants are non-negative.
pub open spec fn program_spellable(p: ProgramModel) -> bool {
    match p {
        ProgramModel::Program(f) => is_identifier_text(f.name) && match f.body {
            Statement::Return(e) => exp_spellable(e),
        },
    }
}

/// The source text of a program: its tokens, each followed by a space.
pub open spec fn source_text(p: ProgramModel) -> Seq<char> {
    spelling(program_tokens(p))
}

proof fn lemma_exp_tokens_spellable(e: Exp)
    requires
        exp_spellable(e),
    ensures
        forall|k: int| 0 <= k < exp_tokens(e).len() ==> spellable(#[trigger] exp_tokens(e)[k]),
    decreases e,
{
    if let Exp::Unary(op, inner) = e {
        lemma_exp_tokens_spellable(*inner);
        assert forall|k: int| 0 <= k < exp_tokens(e).len() implies spellable(#[trigger] exp_tokens(e)[k]) by {
            if k > 0 {
                assert(exp_tokens(e)[k] == exp_tokens(*inner)[k - 1]);
            }
        }
    }
}

/// Lexing and parsing invert writing out: the source text of any program
/// that source text can express lexes to the program's tokens, which parse
/// back to the program.
pub proof fn law_front_end_round_trip(p: ProgramModel)
    requires
        program_spellable(p),
    ensures
        lex_spec(source_text(p)) == Ok::<Seq<TokenModel>, LexErrorModel>(program_tokens(p)),
        parse_spec(program_tokens(p)) == Ok::<ProgramModel, ParseErrorModel>(p),
{
    let ProgramModel::Program(f) = p;
    let Statement::Return(e) = f.body;
    let ts = program_tokens(p);
    let et = exp_tokens(e);
    lemma_exp_tokens_spellable(e);
    assert forall|k: int| 0 <= k < ts.len() implies spellable(#[trigger] ts[k]) by {
        if 7 <= k < 7 + et.len() {
            assert(ts[k] == et[k - 7]);
        }
    }
    law_lex_spelling(ts);
    law_parse_program_tokens(p);
}

/// The tokens without parentheses.
pub open spec fn strip_parens(ts: Seq<TokenModel>) -> Seq<TokenModel>
    decreases ts.len(),
{
    if ts.len() == 0 {
        seq![]
    } else if ts[0] is OpenParen || ts[0] is CloseParen {
        strip_parens(ts.drop_first())
    } else {
        seq![ts[0]] + strip_parens(ts.drop_first())
    }
}

proof fn lemma_strip_parens_add(a: Seq<TokenModel>, b: Seq<TokenModel>)
    ensures
        strip_parens(a + b) == strip_parens(a) + strip_parens(b),
    decreases a.len(),
{
    if a.len() == 0 {
        assert(a + b =~= b);
    } else {
        lemma_strip_parens_add(a.drop_first(), b);
        assert((a + b).drop_first() =~= a.drop_first() + b);
        assert((a + b)[0] == a[0]);
    }
}

proof fn lemma_strip_parens_one(t: TokenModel)
    ensures
        strip_parens(seq![t]) == if t is OpenParen || t is CloseParen {
            Seq::<TokenModel>::empty()
        } else {
            seq![t]
        },
{
    assert(seq![t].drop_first() =~= Seq::<TokenModel>::empty());
    assert(strip_parens(Seq::<TokenModel>::empty()) == Seq::<TokenModel>::empty());
    assert(seq![t] + Seq::<TokenModel>::empty() =~= seq![t]);
}

proof fn lemma_strip_exp_tokens(e: Exp)
    ensures
        strip_parens(exp_tokens(e)) == exp_tokens(e),
    decreases e,
{
    match e {
        Exp::Constant(_) => {
            lemma_strip_parens_one(exp_tokens(e)[0]);
            assert(exp_tokens(e) =~= seq![exp_tokens(e)[0]]);
        },
        Exp::Unary(_, inner) => {
            lemma_strip_exp_tokens(*inner);
            let t = exp_tokens(e)[0];
            assert(exp_tokens(e) =~= seq![t] + exp_tokens(*inner));
            lemma_strip_parens_add(seq![t], exp_tokens(*inner));
            lemma_strip_parens_one(t);
        },
    }
}

/// What an expression parse reads is the expression's tokens, up to
/// parentheses.
proof fn lemma_exp_at_sound(ts: Seq<TokenModel>, pos: int)
    ensures
        exp_at(ts, pos) matches Ok((e, q)) ==> pos < q <= ts.len() && strip_parens(ts.subrange(pos, q))
            == exp_tokens(e),
    decreases ts.len() - pos,
{
    if 0 <= pos < ts.len() {
        let t = ts[pos];
        match t {
            TokenModel::Constant(n) => {
                assert(ts.subrange(pos, pos + 1) =~= seq![t]);
                lemma_strip_parens_one(t);
            },
            TokenModel::Tilde | TokenModel::Hyphen => {
                lemma_exp_at_sound(ts, pos + 1);
                if let Ok((e1, q)) = exp_at(ts, pos + 1) {
                    assert(ts.subrange(pos, q) =~= seq![t] + ts.subrange(pos + 1, q));
                    lemma_strip_parens_add(seq![t], ts.subrange(pos + 1, q));
                    lemma_strip_parens_one(t);
                }
            },
            TokenModel::OpenParen => {
                lemma_exp_at_sound(ts, pos + 1);
                if let Ok((e1, p)) = exp_at(ts, pos + 1) {
                    if let Ok(q) = expect_at(ts, p, TokenModel::CloseParen) {
                        let mid = ts.subrange(pos + 1, p);
                        assert(ts.subrange(pos, q) =~= seq![t] + mid + seq![ts[p]]);
                        lemma_strip_parens_add(seq![t] + mid, seq![ts[p]]);
                        lemma_strip_parens_add(seq![t], mid);
                        lemma_strip_parens_one(t);
                        lemma_strip_parens_one(ts[p]);
                        assert(strip_parens(seq![t]) + strip_parens(mid) =~= strip_parens(mid));
                        assert(strip_parens(seq![t] + mid) + strip_parens(seq![ts[p]]) =~= strip_parens(
                            seq![t] + mid,
                        ));
                    }
                }
            },
            _ => {},
        }
    }
}

/// The parser accepts nothing but spellings of programs: whatever parses to
/// a program is that program's tokens, up to parentheses around
/// expressions.
pub proof fn law_parse_accepts_spellings(ts: Seq<TokenModel>)
    ensures
        parse_spec(ts) matches Ok(p) ==> strip_parens(ts) == strip_parens(program_tokens(p)),
{
    if let Ok(p) = parse_spec(ts) {
        let ProgramModel::Program(f) = p;
        let Statement::Return(e) = f.body;
        let p5 = function_at(ts, 0)->Ok_0.1;
        let p2 = exp_at(ts, 7)->Ok_0.1;
        lemma_exp_at_sound(ts, 7);
        assert(p5 == p2 + 2);
        assert(p5 == ts.len());
        let head = ts.subrange(0, 7);
        let mid = ts.subrange(7, p2);
        let tail = ts.subrange(p2, p5);
        assert(ts =~= head + mid + tail);
        let canon = program_tokens(p);
        assert(head =~= canon.subrange(0, 7));
        assert(tail =~= seq![TokenModel::Semicolon, TokenModel::CloseBrace]);
        assert(canon =~= head + exp_tokens(e) + tail);
        lemma_strip_parens_add(head + mid, tail);
        lemma_strip_parens_add(head, mid);
        lemma_strip_parens_add(head + exp_tokens(e), tail);
        lemma_strip_parens_add(head, exp_tokens(e));
        assert(strip_parens(mid) == exp_tokens(e));
        lemma_strip_exp_tokens(e);
    }
}

proof fn lemma_exp_at_spellable(ts: Seq<TokenModel>, pos: int)
    requires
        forall|k: int| 0 <= k < ts.len() ==> spellable(#[trigger] ts[k]),
    ensures
        exp_at(ts, pos) matches Ok((e, _)) ==> exp_spellable(e),
    decreases ts.len() - pos,
{
    if 0 <= pos < ts.len() {
        assert(spellable(ts[pos]));
        lemma_exp_at_spellable(ts, pos + 1);
    }
}

/// Whatever the lexer and parser accept can be written back out: the
/// program has a valid name and non-negative constants, and its source text
/// lexes and parses back to it.
pub proof fn law_front_end_output_is_spellable(s: Seq<char>)
    ensures
        lex_spec(s) matches Ok(ts) ==> (parse_spec(ts) matches Ok(p) ==> {
            &&& program_spellable(p)
            &&& lex_spec(source_text(p)) == Ok::<Seq<TokenModel>, LexErrorModel>(program_tokens(p))
            &&& parse_spec(program_tokens(p)) == Ok::<ProgramModel, ParseErrorModel>(p)
        }),
{
    law_lexed_tokens_are_spellable(s);
    if let Ok(ts) = lex_spec(s) {
        if let Ok(p) = parse_spec(ts) {
            lemma_exp_at_spellable(ts, 7);
            assert(spellable(ts[1]));
            law_front_end_round_trip(p);
        }
    }
}

/// `us` holds the same tokens as `ts` before position `q`.
spec fn agree_before(ts: Seq<TokenModel>, us: Seq<TokenModel>, q: int) -> bool {
    &&& 0 <= q <= ts.len()
    &&& q <= us.len()
    &&& forall|k: int| #![trigger ts[k]] #![trigger us[k]] 0 <= k < q ==> ts[k] == us[k]
}

/// An expression parse depends only on the tokens it read.
proof fn lemma_exp_agree(ts: Seq<TokenModel>, us: Seq<TokenModel>, pos: int)
    ensures
        exp_at(ts, pos) matches Ok((_, q)) ==> (agree_before(ts, us, q) ==> exp_at(us, pos) == exp_at(
            ts,
            pos,
        )),
    decreases ts.len() - pos,
{
    lemma_exp_at_sound(ts, pos);
    if 0 <= pos < ts.len() {
        lemma_exp_agree(ts, us, pos + 1);
        lemma_exp_at_sound(ts, pos + 1);
    }
}

/// An expression parse fails on the tokens cut before its end.
proof fn lemma_exp_cut(ts: Seq<TokenModel>, pos: int, k: int)
    requires
        0 <= pos <= k,
    ensures
        exp_at(ts, pos) matches Ok((_, q)) ==> (k < q ==> exp_at(ts.take(k), pos) is Err),
    decreases ts.len() - pos,
{
    lemma_exp_at_sound(ts, pos);
    let us = ts.take(k);
    if 0 <= pos < ts.len() && pos < k {
        lemma_exp_at_sound(ts, pos + 1);
        lemma_exp_cut(ts, pos + 1, k);
        lemma_exp_agree(ts, us, pos + 1);
    }
}

/// A function parse depends only on the tokens it read.
proof fn lemma_function_agree(ts: Seq<TokenModel>, us: Seq<TokenModel>)
    ensures
        function_at(ts, 0) matches Ok((_, q)) ==> (agree_before(ts, us, q) ==> function_at(us, 0)
            == function_at(ts, 0)),
{
    if let Ok((_, q)) = function_at(ts, 0) {
        if agree_before(ts, us, q) {
            lemma_exp_at_sound(ts, 7);
            lemma_exp_agree(ts, us, 7);
            let p2 = exp_at(ts, 7)->Ok_0.1;
            assert(ts[0] == us[0] && ts[1] == us[1] && ts[2] == us[2] && ts[3] == us[3]);
            assert(ts[4] == us[4] && ts[5] == us[5] && ts[6] == us[6]);
            assert(ts[p2] == us[p2] && ts[p2 + 1] == us[p2 + 1]);
        }
    }
}

/// A function parse fails on the tokens cut before its end.
proof fn lemma_function_cut(ts: Seq<TokenModel>, k: int)
    requires
        0 <= k,
    ensures
        function_at(ts, 0) matches Ok((_, q)) ==> (k < q ==> function_at(ts.take(k), 0) is Err),
{
    if let Ok((_, q)) = function_at(ts, 0) {
        if k < q {
            let us = ts.take(k);
            lemma_exp_at_sound(ts, 7);
            let p2 = exp_at(ts, 7)->Ok_0.1;
            if 7 <= k {
                lemma_exp_cut(ts, 7, k);
                lemma_exp_agree(ts, us, 7);
            }
        }
    }
}

/// No proper prefix of a token sequence that parses is a program.
pub proof fn law_parse_rejects_proper_prefixes(ts: Seq<TokenModel>, k: int)
    requires
        parse_spec(ts) is Ok,
        0 <= k < ts.len(),
    ensures
        parse_spec(ts.take(k)) is Err,
{
    lemma_function_cut(ts, k);
}

/// One more token after a token sequence that parses is refused as a
/// trailing token.
pub proof fn law_parse_rejects_extensions(ts: Seq<TokenModel>, t: TokenModel)
    requires
        parse_spec(ts) is Ok,
    ensures
        parse_spec(ts.push(t)) == Err::<ProgramModel, ParseErrorModel>(ParseErrorModel::TrailingToken(t)),
{
    lemma_function_agree(ts, ts.push(t));
    assert(ts.push(t)[ts.len() as int] == t);
}

} // verus!
