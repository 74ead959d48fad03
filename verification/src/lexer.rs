//! The lexer: turns source text into tokens.
//!
//! Tokens are recognised at the current position in a fixed order, the
//! first that matches wins: the keywords `int`, `void` and `return` (each
//! followed by a word boundary), identifiers (`[a-zA-Z_]` then the longest
//! run of word characters), decimal constants (ASCII digits followed by a
//! word boundary), and the punctuation `( ) { } ; ~ -- -`. Whitespace
//! between tokens is skipped.

use vstd::prelude::*;
use crate::chars::{
    chars_of, debug_str, debug_string, decimal, digit_char, is_ascii_digit, is_white_space,
    is_word_char, push_char, push_signed_decimal, signed_decimal, white_space, word_char,
};

verus! {

/// A token of the source language.
#[derive(Debug, PartialEq)]
pub enum Token {
    Identifier(String),
    Constant(i64),
    Int,
    Void,
    Return,
    OpenParen,
    CloseParen,
    OpenBrace,
    CloseBrace,
    Semicolon,
    Tilde,
    Hyphen,
    DoubleHyphen,
}

/// The mathematical value of a token: identifiers hold their characters.
pub enum TokenModel {
    Identifier(Seq<char>),
    Constant(i64),
    Int,
    Void,
    Return,
    OpenParen,
    CloseParen,
    OpenBrace,
    CloseBrace,
    Semicolon,
    Tilde,
    Hyphen,
    DoubleHyphen,
}

impl View for Token {
    type V = TokenModel;

    open spec fn view(&self) -> TokenModel {
        match self {
            Token::Identifier(s) => TokenModel::Identifier(s@),
            Token::Constant(n) => TokenModel::Constant(*n),
            Token::Int => TokenModel::Int,
            Token::Void => TokenModel::Void,
            Token::Return => TokenModel::Return,
            Token::OpenParen => TokenModel::OpenParen,
            Token::CloseParen => TokenModel::CloseParen,
            Token::OpenBrace => TokenModel::OpenBrace,
            Token::CloseBrace => TokenModel::CloseBrace,
            Token::Semicolon => TokenModel::Semicolon,
            Token::Tilde => TokenModel::Tilde,
            Token::Hyphen => TokenModel::Hyphen,
            Token::DoubleHyphen => TokenModel::DoubleHyphen,
        }
    }
}

/// Why lexing failed.
#[derive(Debug)]
pub enum LexFailure {
    /// No token starts with this character.
    UnexpectedCharacter(char),
    /// A decimal constant does not fit in `i64`; the digits are kept.
    InvalidConstant(String),
}

/// A lexing error.
#[derive(Debug)]
pub struct LexError(pub LexFailure);

pub enum LexErrorModel {
    UnexpectedCharacter(char),
    InvalidConstant(Seq<char>),
}

impl View for LexError {
    type V = LexErrorModel;

    open spec fn view(&self) -> LexErrorModel {
        match &self.0 {
            LexFailure::UnexpectedCharacter(c) => LexErrorModel::UnexpectedCharacter(*c),
            LexFailure::InvalidConstant(s) => LexErrorModel::InvalidConstant(s@),
        }
    }
}

pub open spec fn tokens_view(ts: Seq<Token>) -> Seq<TokenModel> {
    ts.map_values(|t: Token| t@)
}

// ---------------------------------------------------------------------------
// Text

/// A token as `Debug` writes it, for example `Identifier("main")`,
/// `Constant(2)` or `Semicolon`.
pub open spec fn token_debug_text(t: TokenModel) -> Seq<char> {
    match t {
        TokenModel::Identifier(w) => "Identifier("@ + debug_str(w) + ")"@,
        TokenModel::Constant(n) => "Constant("@ + signed_decimal(n as int) + ")"@,
        TokenModel::Int => "Int"@,
        TokenModel::Void => "Void"@,
        TokenModel::Return => "Return"@,
        TokenModel::OpenParen => "OpenParen"@,
        TokenModel::CloseParen => "CloseParen"@,
        TokenModel::OpenBrace => "OpenBrace"@,
        TokenModel::CloseBrace => "CloseBrace"@,
        TokenModel::Semicolon => "Semicolon"@,
        TokenModel::Tilde => "Tilde"@,
        TokenModel::Hyphen => "Hyphen"@,
        TokenModel::DoubleHyphen => "DoubleHyphen"@,
    }
}

/// The message of a lexing error.
pub open spec fn lex_error_text(e: LexErrorModel) -> Seq<char> {
    match e {
        LexErrorModel::UnexpectedCharacter(c) => "lexer error: unexpected character '"@ + seq![c] + "'"@,
        LexErrorModel::InvalidConstant(ds) => "lexer error: invalid integer constant '"@ + ds
            + "': number too large to fit in target type"@,
    }
}

impl Token {
    /// The token as `Debug` writes it.
    pub fn debug_text(&self) -> (s: String)
        ensures
            s@ == token_debug_text(self@),
    {
        let mut s = String::new();
        match self {
            Token::Identifier(w) => {
                s.append("Identifier(");
                s.append(debug_string(w.as_str()).as_str());
                s.append(")");
            },
            Token::Constant(n) => {
                s.append("Constant(");
                push_signed_decimal(&mut s, *n);
                s.append(")");
            },
            Token::Int => s.append("Int"),
            Token::Void => s.append("Void"),
            Token::Return => s.append("Return"),
            Token::OpenParen => s.append("OpenParen"),
            Token::CloseParen => s.append("CloseParen"),
            Token::OpenBrace => s.append("OpenBrace"),
            Token::CloseBrace => s.append("CloseBrace"),
            Token::Semicolon => s.append("Semicolon"),
            Token::Tilde => s.append("Tilde"),
            Token::Hyphen => s.append("Hyphen"),
            Token::DoubleHyphen => s.append("DoubleHyphen"),
        }
        assert(s@ =~= token_debug_text(self@));
        s
    }
}

impl LexError {
    /// The error's message, such as `lexer error: unexpected character '@'`.
    pub fn to_text(&self) -> (s: String)
        ensures
            s@ == lex_error_text(self@),
    {
        let mut s = String::new();
        match &self.0 {
            LexFailure::UnexpectedCharacter(c) => {
                s.append("lexer error: unexpected character '");
                push_char(&mut s, *c);
                s.append("'");
            },
            LexFailure::InvalidConstant(ds) => {
                s.append("lexer error: invalid integer constant '");
                s.append(ds.as_str());
                s.append("': number too large to fit in target type");
            },
        }
        assert(s@ =~= lex_error_text(self@));
        s
    }
}

// ---------------------------------------------------------------------------
// Specification

/// Length of the longest run of characters satisfying `p` starting at `j`.
pub open spec fn span(s: Seq<char>, j: int, p: spec_fn(char) -> bool) -> nat
    decreases s.len() - j,
{
    if 0 <= j < s.len() && p(s[j]) {
        1 + span(s, j + 1, p)
    } else {
        0
    }
}

/// The `\b` assertion of the `regex` crate at position `j` of `s`.
pub open spec fn boundary_at(s: Seq<char>, j: int) -> bool {
    (0 < j && j <= s.len() && is_word_char(s[j - 1])) != (0 <= j < s.len() && is_word_char(s[j]))
}

/// `s` holds `w` at position `i`.
pub open spec fn has_at(s: Seq<char>, i: int, w: Seq<char>) -> bool {
    0 <= i && i + w.len() <= s.len() && s.subrange(i, i + w.len()) == w
}

/// The keyword `w` stands at `i`, followed by a word boundary.
pub open spec fn keyword_at(s: Seq<char>, i: int, w: Seq<char>) -> bool {
    has_at(s, i, w) && boundary_at(s, i + w.len())
}

pub open spec fn kw_int() -> Seq<char> {
    seq!['i', 'n', 't']
}

pub open spec fn kw_void() -> Seq<char> {
    seq!['v', 'o', 'i', 'd']
}

pub open spec fn kw_return() -> Seq<char> {
    seq!['r', 'e', 't', 'u', 'r', 'n']
}

pub open spec fn is_ident_start(c: char) -> bool {
    ('a' <= c && c <= 'z') || ('A' <= c && c <= 'Z') || c == '_'
}

pub open spec fn word_pred() -> spec_fn(char) -> bool {
    |c: char| is_word_char(c)
}

pub open spec fn digit_pred() -> spec_fn(char) -> bool {
    |c: char| is_ascii_digit(c)
}

/// The value of a string of decimal digits.
pub open spec fn digits_value(ds: Seq<char>) -> int
    decreases ds.len(),
{
    if ds.len() == 0 {
        0
    } else {
        digits_value(ds.drop_last()) * 10 + (ds.last() as int - '0' as int)
    }
}

/// What the lexer finds at one position.
pub enum Scan {
    /// A token and the number of characters it takes.
    Found(TokenModel, nat),
    /// Decimal digits that do not fit in `i64`.
    Overflow(Seq<char>),
    /// No token starts here.
    NoMatch,
}

/// The token that starts at position `i` of `s` (which is not whitespace).
pub open spec fn scan_at(s: Seq<char>, i: int) -> Scan {
    let c = s[i];
    let d = span(s, i, digit_pred());
    if keyword_at(s, i, kw_int()) {
        Scan::Found(TokenModel::Int, 3)
    } else if keyword_at(s, i, kw_void()) {
        Scan::Found(TokenModel::Void, 4)
    } else if keyword_at(s, i, kw_return()) {
        Scan::Found(TokenModel::Return, 6)
    } else if is_ident_start(c) {
        let n = 1 + span(s, i + 1, word_pred());
        Scan::Found(TokenModel::Identifier(s.subrange(i, i + n)), n)
    } else if d > 0 && boundary_at(s, i + d) {
        let ds = s.subrange(i, i + d);
        if digits_value(ds) <= i64::MAX {
            Scan::Found(TokenModel::Constant(digits_value(ds) as i64), d)
        } else {
            Scan::Overflow(ds)
        }
    } else if c == '(' {
        Scan::Found(TokenModel::OpenParen, 1)
    } else if c == ')' {
        Scan::Found(TokenModel::CloseParen, 1)
    } else if c == '{' {
        Scan::Found(TokenModel::OpenBrace, 1)
    } else if c == '}' {
        Scan::Found(TokenModel::CloseBrace, 1)
    } else if c == ';' {
        Scan::Found(TokenModel::Semicolon, 1)
    } else if c == '~' {
        Scan::Found(TokenModel::Tilde, 1)
    } else if c == '-' && i + 1 < s.len() && s[i + 1] == '-' {
        Scan::Found(TokenModel::DoubleHyphen, 2)
    } else if c == '-' {
        Scan::Found(TokenModel::Hyphen, 1)
    } else {
        Scan::NoMatch
    }
}

/// Prepends tokens to the outcome of lexing the rest of the input.
pub open spec fn prepend(
    ts: Seq<TokenModel>,
    r: Result<Seq<TokenModel>, LexErrorModel>,
) -> Result<Seq<TokenModel>, LexErrorModel> {
    match r {
        Ok(rest) => Ok(ts + rest),
        Err(e) => Err(e),
    }
}

/// The outcome of lexing `s` from position `i` on.
pub open spec fn lex_from(s: Seq<char>, i: int) -> Result<Seq<TokenModel>, LexErrorModel>
    decreases s.len() - i,
{
    if i < 0 || i >= s.len() {
        Ok(seq![])
    } else if is_white_space(s[i]) {
        lex_from(s, i + 1)
    } else {
        match scan_at(s, i) {
            Scan::Found(t, n) => if 0 < n && i + n <= s.len() {
                prepend(seq![t], lex_from(s, i + n))
            } else {
                Ok(seq![])
            },
            Scan::Overflow(ds) => Err(LexErrorModel::InvalidConstant(ds)),
            Scan::NoMatch => Err(LexErrorModel::UnexpectedCharacter(s[i])),
        }
    }
}

/// The outcome of lexing the whole of `s`.
pub open spec fn lex_spec(s: Seq<char>) -> Result<Seq<TokenModel>, LexErrorModel> {
    lex_from(s, 0)
}

pub open spec fn lex_outcome(r: Result<Vec<Token>, LexError>) -> Result<Seq<TokenModel>, LexErrorModel> {
    match r {
        Ok(v) => Ok(tokens_view(v@)),
        Err(e) => Err(e@),
    }
}


// ---------------------------------------------------------------------------
// Lemmas

proof fn lemma_digits_value_nonneg(ds: Seq<char>)
    requires
        forall|m: int| 0 <= m < ds.len() ==> is_ascii_digit(#[trigger] ds[m]),
    ensures
        digits_value(ds) >= 0,
    decreases ds.len(),
{
    if ds.len() > 0 {
        lemma_digits_value_nonneg(ds.drop_last());
    }
}

/// Appending digits never makes the value smaller.
proof fn lemma_digits_value_mono(s: Seq<char>, i: int, k: int, m: int)
    requires
        0 <= i <= k <= m <= s.len(),
        forall|x: int| i <= x < m ==> is_ascii_digit(#[trigger] s[x]),
    ensures
        digits_value(s.subrange(i, k)) <= digits_value(s.subrange(i, m)),
    decreases m - k,
{
    if k < m {
        lemma_digits_value_mono(s, i, k, m - 1);
        assert(s.subrange(i, m).drop_last() =~= s.subrange(i, m - 1));
        assert forall|x: int| 0 <= x < s.subrange(i, m - 1).len() implies is_ascii_digit(
            #[trigger] s.subrange(i, m - 1)[x],
        ) by {
            assert(s.subrange(i, m - 1)[x] == s[i + x]);
        }
        lemma_digits_value_nonneg(s.subrange(i, m - 1));
    }
}

// ---------------------------------------------------------------------------
// Implementation

/// Length of the run of word characters starting at `j`.
fn word_span(cs: &Vec<char>, j: usize) -> (n: usize)
    requires
        j <= cs.len(),
    ensures
        n == span(cs@, j as int, word_pred()),
        j + n <= cs.len(),
{
    let mut k = j;
    while k < cs.len() && word_char(cs[k])
        invariant
            j <= k <= cs.len(),
            span(cs@, j as int, word_pred()) == (k - j) + span(cs@, k as int, word_pred()),
        decreases cs.len() - k,
    {
        k += 1;
    }
    k - j
}

/// Length of the run of ASCII digits starting at `j`.
fn digit_span(cs: &Vec<char>, j: usize) -> (n: usize)
    requires
        j <= cs.len(),
    ensures
        n == span(cs@, j as int, digit_pred()),
        j + n <= cs.len(),
        forall|m: int| j <= m < j + n ==> is_ascii_digit(#[trigger] cs@[m]),
{
    let mut k = j;
    while k < cs.len() && '0' <= cs[k] && cs[k] <= '9'
        invariant
            j <= k <= cs.len(),
            span(cs@, j as int, digit_pred()) == (k - j) + span(cs@, k as int, digit_pred()),
            forall|m: int| j <= m < k ==> is_ascii_digit(#[trigger] cs@[m]),
        decreases cs.len() - k,
    {
        k += 1;
    }
    k - j
}

/// The `\b` assertion at position `j`.
fn boundary(cs: &Vec<char>, j: usize) -> (b: bool)
    requires
        j <= cs.len(),
    ensures
        b == boundary_at(cs@, j as int),
{
    let before = j > 0 && word_char(cs[j - 1]);
    let after = j < cs.len() && word_char(cs[j]);
    before != after
}

/// The keyword `kw` stands at `i`, followed by a word boundary.
fn keyword(cs: &Vec<char>, i: usize, kw: &[char]) -> (b: bool)
    requires
        i <= cs.len(),
    ensures
        b == keyword_at(cs@, i as int, kw@),
{
    if kw.len() > cs.len() - i {
        return false;
    }
    let mut k: usize = 0;
    while k < kw.len()
        invariant
            k <= kw.len(),
            i + kw.len() <= cs.len(),
            forall|m: int| 0 <= m < k ==> cs@[i + m] == kw@[m],
        decreases kw.len() - k,
    {
        if cs[i + k] != kw[k] {
            assert(cs@.subrange(i as int, i + kw.len())[k as int] != kw@[k as int]);
            return false;
        }
        k += 1;
    }
    assert(cs@.subrange(i as int, i + kw.len()) =~= kw@);
    boundary(cs, i + kw.len())
}

/// The value of the digits `cs[i..i + d]`, or `None` when it exceeds `i64::MAX`.
fn digits_to_i64(cs: &Vec<char>, i: usize, d: usize) -> (r: Option<i64>)
    requires
        i + d <= cs.len(),
        forall|m: int| i <= m < i + d ==> is_ascii_digit(#[trigger] cs@[m]),
    ensures
        match r {
            Some(v) => v == digits_value(cs@.subrange(i as int, i + d)),
            None => digits_value(cs@.subrange(i as int, i + d)) > i64::MAX,
        },
{
    let mut v: i64 = 0;
    let mut k = i;
    assert(cs@.subrange(i as int, i as int) =~= Seq::<char>::empty());
    while k < i + d
        invariant
            i <= k <= i + d,
            i + d <= cs.len(),
            forall|m: int| i <= m < i + d ==> is_ascii_digit(#[trigger] cs@[m]),
            v == digits_value(cs@.subrange(i as int, k as int)),
        decreases i + d - k,
    {
        let c = cs[k];
        assert(is_ascii_digit(cs@[k as int]));
        let digit: i64 = (c as u32 - '0' as u32) as i64;
        assert(cs@.subrange(i as int, k + 1).drop_last() =~= cs@.subrange(i as int, k as int));
        match v.checked_mul(10) {
            Some(t) => match t.checked_add(digit) {
                Some(u) => {
                    v = u;
                },
                None => {
                    proof {
                        lemma_digits_value_mono(cs@, i as int, k + 1, i + d);
                    }
                    return None;
                },
            },
            None => {
                proof {
                    assert forall|m: int| 0 <= m < cs@.subrange(i as int, k as int).len() implies is_ascii_digit(
                        #[trigger] cs@.subrange(i as int, k as int)[m],
                    ) by {
                        assert(cs@.subrange(i as int, k as int)[m] == cs@[i + m]);
                    }
                    lemma_digits_value_nonneg(cs@.subrange(i as int, k as int));
                    lemma_digits_value_mono(cs@, i as int, k + 1, i + d);
                }
                return None;
            },
        }
        k += 1;
    }
    Some(v)
}

/// The characters `cs[from..to]` as a string.
fn string_of(cs: &Vec<char>, from: usize, to: usize) -> (s: String)
    requires
        from <= to <= cs.len(),
    ensures
        s@ == cs@.subrange(from as int, to as int),
{
    let mut s = String::new();
    let mut k = from;
    while k < to
        invariant
            from <= k <= to <= cs.len(),
            s@ == cs@.subrange(from as int, k as int),
        decreases to - k,
    {
        push_char(&mut s, cs[k]);
        assert(cs@.subrange(from as int, k + 1) =~= cs@.subrange(from as int, k as int).push(
            cs@[k as int],
        ));
        k += 1;
    }
    s
}

/// What the lexer finds at one position, as executable values.
enum Scanned {
    Found(Token, usize),
    Overflow(String),
    NoMatch,
}

spec fn scanned_view(r: Scanned) -> Scan {
    match r {
        Scanned::Found(t, n) => Scan::Found(t@, n as nat),
        Scanned::Overflow(ds) => Scan::Overflow(ds@),
        Scanned::NoMatch => Scan::NoMatch,
    }
}

/// The token that starts at position `i`.
fn scan(cs: &Vec<char>, i: usize) -> (r: Scanned)
    requires
        i < cs.len(),
    ensures
        scanned_view(r) == scan_at(cs@, i as int),
        r matches Scanned::Found(_, n) ==> 0 < n && i + n <= cs.len(),
{
    let c = cs[i];
    let kw_i = ['i', 'n', 't'];
    let kw_v = ['v', 'o', 'i', 'd'];
    let kw_r = ['r', 'e', 't', 'u', 'r', 'n'];
    assert(kw_i@ =~= kw_int());
    assert(kw_v@ =~= kw_void());
    assert(kw_r@ =~= kw_return());
    if keyword(cs, i, &kw_i) {
        return Scanned::Found(Token::Int, 3);
    }
    if keyword(cs, i, &kw_v) {
        return Scanned::Found(Token::Void, 4);
    }
    if keyword(cs, i, &kw_r) {
        return Scanned::Found(Token::Return, 6);
    }
    if ('a' <= c && c <= 'z') || ('A' <= c && c <= 'Z') || c == '_' {
        let n = 1 + word_span(cs, i + 1);
        return Scanned::Found(Token::Identifier(string_of(cs, i, i + n)), n);
    }
    let d = digit_span(cs, i);
    if d > 0 && boundary(cs, i + d) {
        return match digits_to_i64(cs, i, d) {
            Some(v) => Scanned::Found(Token::Constant(v), d),
            None => Scanned::Overflow(string_of(cs, i, i + d)),
        };
    }
    if c == '(' {
        Scanned::Found(Token::OpenParen, 1)
    } else if c == ')' {
        Scanned::Found(Token::CloseParen, 1)
    } else if c == '{' {
        Scanned::Found(Token::OpenBrace, 1)
    } else if c == '}' {
        Scanned::Found(Token::CloseBrace, 1)
    } else if c == ';' {
        Scanned::Found(Token::Semicolon, 1)
    } else if c == '~' {
        Scanned::Found(Token::Tilde, 1)
    } else if c == '-' && i + 1 < cs.len() && cs[i + 1] == '-' {
        Scanned::Found(Token::DoubleHyphen, 2)
    } else if c == '-' {
        Scanned::Found(Token::Hyphen, 1)
    } else {
        Scanned::NoMatch
    }
}

/// Splits the source text into tokens.
///
/// The result is the outcome of [`lex_spec`] on the characters of `input`:
/// the tokens found, in order, or the first error met.
pub fn lex(input: &str) -> (r: Result<Vec<Token>, LexError>)
    ensures
        lex_outcome(r) == lex_spec(input@),
{
    let cs = chars_of(input);
    let mut tokens: Vec<Token> = Vec::new();
    let mut i: usize = 0;
    while i < cs.len()
        invariant
            i <= cs.len(),
            cs@ == input@,
            lex_spec(cs@) == prepend(tokens_view(tokens@), lex_from(cs@, i as int)),
        decreases cs.len() - i,
    {
        if white_space(cs[i]) {
            i += 1;
        } else {
            match scan(&cs, i) {
                Scanned::Found(t, n) => {
                    let ghost before = tokens_view(tokens@);
                    let ghost tv = t@;
                    tokens.push(t);
                    assert(tokens_view(tokens@) =~= before + seq![tv]);
                    proof {
                        let rest = lex_from(cs@, i + n);
                        match rest {
                            Ok(r2) => {
                                assert(before + (seq![tv] + r2) =~= (before + seq![tv]) + r2);
                            },
                            Err(_) => {},
                        }
                    }
                    i += n;
                },
                Scanned::Overflow(ds) => {
                    return Err(LexError(LexFailure::InvalidConstant(ds)));
                },
                Scanned::NoMatch => {
                    return Err(LexError(LexFailure::UnexpectedCharacter(cs[i])));
                },
            }
        }
    }
    assert(tokens_view(tokens@) + seq![] =~= tokens_view(tokens@));
    Ok(tokens)
}

// ---------------------------------------------------------------------------
// Laws

pub open spec fn is_keyword_text(w: Seq<char>) -> bool {
    w == kw_int() || w == kw_void() || w == kw_return()
}

proof fn lemma_span_stop(s: Seq<char>, j: int, p: spec_fn(char) -> bool)
    requires
        0 <= j <= s.len(),
    ensures
        j + span(s, j, p) <= s.len(),
        j + span(s, j, p) < s.len() ==> !p(s[j + span(s, j, p)]),
        forall|k: int| j <= k < j + span(s, j, p) ==> p(#[trigger] s[k]),
    decreases s.len() - j,
{
    if j < s.len() && p(s[j]) {
        lemma_span_stop(s, j + 1, p);
    }
}

/// An identifier that spells a keyword would have matched the keyword.
proof fn lemma_identifier_not_keyword(s: Seq<char>, i: int, w: Seq<char>)
    requires
        0 <= i < s.len(),
        is_ident_start(s[i]),
        w == kw_int() || w == kw_void() || w == kw_return(),
        !keyword_at(s, i, w),
    ensures
        s.subrange(i, i + 1 + span(s, i + 1, word_pred())) != w,
{
    lemma_span_stop(s, i + 1, word_pred());
    let n = 1 + span(s, i + 1, word_pred());
    if s.subrange(i, i + n) == w {
        assert(has_at(s, i, w));
        let e = i + w.len();
        assert(s[e - 1] == w[w.len() - 1]) by {
            assert(s.subrange(i, i + n)[w.len() - 1] == s[e - 1]);
        }
        assert(is_word_char(s[e - 1]));
        assert(boundary_at(s, e));
    }
}

proof fn lemma_found_spellable(s: Seq<char>, i: int)
    requires
        0 <= i < s.len(),
    ensures
        scan_at(s, i) matches Scan::Found(t, n) ==> spellable(t),
{
    if let Scan::Found(t, n) = scan_at(s, i) {
        match t {
            TokenModel::Identifier(w) => {
                lemma_identifier_not_keyword(s, i, kw_int());
                lemma_identifier_not_keyword(s, i, kw_void());
                lemma_identifier_not_keyword(s, i, kw_return());
                lemma_span_stop(s, i + 1, word_pred());
                assert forall|k: int| 0 <= k < w.len() implies is_word_char(#[trigger] w[k]) by {
                    assert(w[k] == s[i + k]);
                    if k == 0 {
                        assert((s[i] as u32) < 128);
                    } else {
                        assert(word_pred()(s[i + k]));
                    }
                }
            },
            TokenModel::Constant(v) => {
                let d = span(s, i, digit_pred());
                lemma_span_stop(s, i, digit_pred());
                let ds = s.subrange(i, i + d);
                assert forall|m: int| 0 <= m < ds.len() implies is_ascii_digit(#[trigger] ds[m]) by {
                    assert(ds[m] == s[i + m]);
                    assert(digit_pred()(s[i + m]));
                }
                lemma_digits_value_nonneg(ds);
            },
            _ => {},
        }
    }
}

proof fn lemma_lex_from_spellable(s: Seq<char>, i: int)
    ensures
        lex_from(s, i) matches Ok(ts) ==> forall|k: int| 0 <= k < ts.len() ==> spellable(#[trigger] ts[k]),
    decreases s.len() - i,
{
    if 0 <= i < s.len() {
        if is_white_space(s[i]) {
            lemma_lex_from_spellable(s, i + 1);
        } else {
            match scan_at(s, i) {
                Scan::Found(t, n) => {
                    if 0 < n && i + n <= s.len() {
                        lemma_lex_from_spellable(s, i + n);
                        lemma_found_spellable(s, i);
                        if let Ok(rest) = lex_from(s, i + n) {
                            let ts = seq![t] + rest;
                            assert forall|k: int| 0 <= k < ts.len() implies spellable(#[trigger] ts[k]) by {
                                if k > 0 {
                                    assert(ts[k] == rest[k - 1]);
                                }
                            }
                        }
                    }
                },
                _ => {},
            }
        }
    }
}

/// Every token the lexer produces can be written back out: identifiers are
/// valid and never spell a keyword (keywords are recognised first), and
/// constants are not negative.
pub proof fn law_lexed_tokens_are_spellable(s: Seq<char>)
    ensures
        lex_spec(s) matches Ok(ts) ==> forall|k: int| 0 <= k < ts.len() ==> spellable(#[trigger] ts[k]),
{
    lemma_lex_from_spellable(s, 0);
}

// ---------------------------------------------------------------------------
// Spelling tokens back as text

/// The text of a token. Constants are spelled in decimal.
pub open spec fn token_text(t: TokenModel) -> Seq<char> {
    match t {
        TokenModel::Identifier(w) => w,
        TokenModel::Constant(n) => decimal(n as nat),
        TokenModel::Int => kw_int(),
        TokenModel::Void => kw_void(),
        TokenModel::Return => kw_return(),
        TokenModel::OpenParen => seq!['('],
        TokenModel::CloseParen => seq![')'],
        TokenModel::OpenBrace => seq!['{'],
        TokenModel::CloseBrace => seq!['}'],
        TokenModel::Semicolon => seq![';'],
        TokenModel::Tilde => seq!['~'],
        TokenModel::Hyphen => seq!['-'],
        TokenModel::DoubleHyphen => seq!['-', '-'],
    }
}

/// Each token's text followed by a space.
pub open spec fn spelling(ts: Seq<TokenModel>) -> Seq<char>
    decreases ts.len(),
{
    if ts.len() == 0 {
        Seq::empty()
    } else {
        token_text(ts[0]) + seq![' '] + spelling(ts.drop_first())
    }
}

/// A valid identifier: `[a-zA-Z_]` then word characters, not a keyword.
pub open spec fn is_identifier_text(w: Seq<char>) -> bool {
    &&& w.len() >= 1
    &&& is_ident_start(w[0])
    &&& forall|k: int| 0 <= k < w.len() ==> is_word_char(#[trigger] w[k])
    &&& !is_keyword_text(w)
}

/// A token the lexer can produce: identifiers are valid and constants are
/// not negative.
pub open spec fn spellable(t: TokenModel) -> bool {
    match t {
        TokenModel::Identifier(w) => is_identifier_text(w),
        TokenModel::Constant(n) => n >= 0,
        _ => true,
    }
}

proof fn lemma_decimal_digits(n: nat)
    ensures
        forall|k: int| 0 <= k < decimal(n).len() ==> is_ascii_digit(#[trigger] decimal(n)[k]),
        digits_value(decimal(n)) == n,
        decimal(n).len() >= 1,
    decreases n,
{
    let d = decimal(n);
    assert(digit_char(n % 10) as int - '0' as int == n % 10);
    assert(digits_value(d) == digits_value(d.drop_last()) * 10 + (d.last() as int - '0' as int));
    if n < 10 {
        assert(d.drop_last() =~= Seq::<char>::empty());
        assert(d.last() == digit_char(n));
        assert(n % 10 == n);
    } else {
        lemma_decimal_digits(n / 10);
        assert(d.drop_last() =~= decimal(n / 10));
        assert(d.last() == digit_char(n % 10));
        assert((n / 10) * 10 + n % 10 == n);
        assert forall|k: int| 0 <= k < d.len() implies is_ascii_digit(#[trigger] d[k]) by {
            if k < d.len() - 1 {
                assert(d[k] == decimal(n / 10)[k]);
            }
        }
    }
}

/// A keyword that starts with a different character is not at `i`.
proof fn lemma_not_keyword_first(s: Seq<char>, i: int, w: Seq<char>)
    requires
        0 <= i < s.len(),
        w.len() >= 1,
        s[i] != w[0],
    ensures
        !keyword_at(s, i, w),
{
    if has_at(s, i, w) {
        assert(s.subrange(i, i + w.len())[0] == s[i]);
    }
}

/// The text `t` stands at `i`, followed by a space.
pub open spec fn spelled_at(s: Seq<char>, i: int, t: Seq<char>) -> bool {
    &&& 0 <= i
    &&& i + t.len() < s.len()
    &&& s.subrange(i, i + t.len()) == t
    &&& s[i + t.len()] == ' '
}

proof fn lemma_spelled_char(s: Seq<char>, i: int, t: Seq<char>, k: int)
    requires
        spelled_at(s, i, t),
        0 <= k < t.len(),
    ensures
        s[i + k] == t[k],
{
    assert(s.subrange(i, i + t.len())[k] == s[i + k]);
}

proof fn lemma_identifier_no_keyword_at(s: Seq<char>, i: int, w: Seq<char>, kw: Seq<char>)
    requires
        spelled_at(s, i, w),
        is_identifier_text(w),
        kw == kw_int() || kw == kw_void() || kw == kw_return(),
    ensures
        !keyword_at(s, i, kw),
{
    if has_at(s, i, kw) {
        if kw.len() > w.len() {
            assert(s.subrange(i, i + kw.len())[w.len() as int] == s[i + w.len()]);
        } else if kw.len() == w.len() {
            assert(w =~= kw);
        } else {
            let e = i + kw.len();
            lemma_spelled_char(s, i, w, kw.len() as int);
            lemma_spelled_char(s, i, w, kw.len() - 1);
            assert(is_word_char(w[kw.len() as int]));
            assert(is_word_char(w[kw.len() - 1]));
        }
    }
}

proof fn lemma_identifier_span(s: Seq<char>, i: int, w: Seq<char>, j: int)
    requires
        spelled_at(s, i, w),
        is_identifier_text(w),
        i + 1 <= j <= i + w.len(),
    ensures
        span(s, j, word_pred()) == i + w.len() - j,
    decreases i + w.len() - j,
{
    if j < i + w.len() {
        lemma_spelled_char(s, i, w, j - i);
        lemma_identifier_span(s, i, w, j + 1);
    }
}

proof fn lemma_digit_span(s: Seq<char>, i: int, t: Seq<char>, j: int)
    requires
        spelled_at(s, i, t),
        forall|k: int| 0 <= k < t.len() ==> is_ascii_digit(#[trigger] t[k]),
        i <= j <= i + t.len(),
    ensures
        span(s, j, digit_pred()) == i + t.len() - j,
    decreases i + t.len() - j,
{
    if j < i + t.len() {
        lemma_spelled_char(s, i, t, j - i);
        lemma_digit_span(s, i, t, j + 1);
    }
}

/// A spellable token's text, followed by a space, scans as that token.
proof fn lemma_scan_spelled(s: Seq<char>, i: int, t: TokenModel)
    requires
        spellable(t),
        spelled_at(s, i, token_text(t)),
    ensures
        token_text(t).len() >= 1,
        !is_white_space(s[i]),
        scan_at(s, i) == Scan::Found(t, token_text(t).len()),
{
    let text = token_text(t);
    let c = s[i];
    match t {
        TokenModel::Constant(n) => {
            lemma_decimal_digits(n as nat);
        },
        _ => {},
    }
    assert(text.len() >= 1);
    lemma_spelled_char(s, i, text, 0);
    assert(c == text[0]);
    assert(s[i + text.len()] == ' ');
    match t {
        TokenModel::Int => {
            lemma_spelled_char(s, i, text, 2);
            assert(has_at(s, i, kw_int()));
        },
        TokenModel::Void => {
            lemma_not_keyword_first(s, i, kw_int());
            lemma_spelled_char(s, i, text, 3);
            assert(has_at(s, i, kw_void()));
        },
        TokenModel::Return => {
            lemma_not_keyword_first(s, i, kw_int());
            lemma_not_keyword_first(s, i, kw_void());
            lemma_spelled_char(s, i, text, 5);
            assert(has_at(s, i, kw_return()));
        },
        TokenModel::Identifier(w) => {
            lemma_identifier_no_keyword_at(s, i, w, kw_int());
            lemma_identifier_no_keyword_at(s, i, w, kw_void());
            lemma_identifier_no_keyword_at(s, i, w, kw_return());
            lemma_identifier_span(s, i, w, i + 1);
            assert(s.subrange(i, i + w.len()) == w);
        },
        TokenModel::Constant(n) => {
            lemma_not_keyword_first(s, i, kw_int());
            lemma_not_keyword_first(s, i, kw_void());
            lemma_not_keyword_first(s, i, kw_return());
            lemma_digit_span(s, i, text, i);
            lemma_spelled_char(s, i, text, text.len() - 1);
        },
        _ => {
            lemma_not_keyword_first(s, i, kw_int());
            lemma_not_keyword_first(s, i, kw_void());
            lemma_not_keyword_first(s, i, kw_return());
            if t is DoubleHyphen {
                lemma_spelled_char(s, i, text, 1);
            }
        },
    }
}

proof fn lemma_lex_spelling(s: Seq<char>, i: int, ts: Seq<TokenModel>)
    requires
        0 <= i,
        i + spelling(ts).len() == s.len(),
        s.subrange(i, s.len() as int) == spelling(ts),
        forall|k: int| 0 <= k < ts.len() ==> spellable(#[trigger] ts[k]),
    ensures
        lex_from(s, i) == Ok::<Seq<TokenModel>, LexErrorModel>(ts),
    decreases ts.len(),
{
    if ts.len() == 0 {
        assert(ts =~= Seq::<TokenModel>::empty());
    } else {
        let t = ts[0];
        let text = token_text(t);
        let rest = ts.drop_first();
        let sp = spelling(ts);
        assert(sp == text + seq![' '] + spelling(rest));
        assert(s.subrange(i, i + text.len()) =~= text) by {
            assert forall|k: int| 0 <= k < text.len() implies s.subrange(i, i + text.len())[k] == text[k] by {
                assert(s.subrange(i, s.len() as int)[k] == s[i + k]);
                assert(sp[k] == text[k]);
            }
        }
        assert(s[i + text.len()] == ' ') by {
            assert(s.subrange(i, s.len() as int)[text.len() as int] == s[i + text.len()]);
            assert(sp[text.len() as int] == ' ');
        }
        assert(spellable(ts[0]));
        lemma_scan_spelled(s, i, t);
        let j = i + text.len() + 1;
        assert(s.subrange(j, s.len() as int) =~= spelling(rest)) by {
            assert forall|k: int| 0 <= k < spelling(rest).len() implies s.subrange(j, s.len() as int)[k]
                == spelling(rest)[k] by {
                assert(s.subrange(i, s.len() as int)[text.len() + 1 + k] == s[j + k]);
                assert(sp[text.len() + 1 + k] == spelling(rest)[k]);
            }
        }
        assert forall|k: int| 0 <= k < rest.len() implies spellable(#[trigger] rest[k]) by {
            assert(rest[k] == ts[k + 1]);
        }
        lemma_lex_spelling(s, j, rest);
        assert(is_white_space(s[i + text.len()]));
        assert(lex_from(s, i + text.len()) == lex_from(s, j));
        assert(seq![t] + rest =~= ts);
    }
}

/// Lexing inverts spelling: tokens the lexer can produce, each written out
/// followed by a space, lex back to the same tokens.
pub proof fn law_lex_spelling(ts: Seq<TokenModel>)
    requires
        forall|k: int| 0 <= k < ts.len() ==> spellable(#[trigger] ts[k]),
    ensures
        lex_spec(spelling(ts)) == Ok::<Seq<TokenModel>, LexErrorModel>(ts),
{
    let s = spelling(ts);
    assert(s.subrange(0, s.len() as int) =~= s);
    lemma_lex_spelling(s, 0, ts);
}

// ---------------------------------------------------------------------------
// Lexing pieces of text

/// The outcome of lexing one text and then another: the first error, or
/// both token sequences in order.
pub open spec fn combine(
    a: Result<Seq<TokenModel>, LexErrorModel>,
    b: Result<Seq<TokenModel>, LexErrorModel>,
) -> Result<Seq<TokenModel>, LexErrorModel> {
    match a {
        Ok(x) => prepend(x, b),
        Err(e) => Err(e),
    }
}

/// Every character of `w` is whitespace.
pub open spec fn all_white_space(w: Seq<char>) -> bool {
    forall|k: int| 0 <= k < w.len() ==> is_white_space(#[trigger] w[k])
}

/// `r` is empty or starts with whitespace.
pub open spec fn starts_apart(r: Seq<char>) -> bool {
    r.len() == 0 || is_white_space(r[0])
}

proof fn lemma_scan_len(s: Seq<char>, i: int)
    requires
        0 <= i < s.len(),
    ensures
        scan_at(s, i) matches Scan::Found(_, n) ==> 0 < n && i + n <= s.len(),
{
    lemma_span_stop(s, i + 1, word_pred());
    lemma_span_stop(s, i, digit_pred());
}

proof fn lemma_span_suffix(a: Seq<char>, r: Seq<char>, j: int, p: spec_fn(char) -> bool)
    requires
        0 <= j <= a.len(),
        r.len() == 0 || !p(r[0]),
    ensures
        span(a + r, j, p) == span(a, j, p),
    decreases a.len() - j,
{
    if j < a.len() {
        assert((a + r)[j] == a[j]);
        lemma_span_suffix(a, r, j + 1, p);
    } else if r.len() > 0 {
        assert((a + r)[j] == r[0]);
    }
}

proof fn lemma_has_at_suffix(a: Seq<char>, r: Seq<char>, i: int, w: Seq<char>)
    requires
        0 <= i < a.len(),
        starts_apart(r),
        w == kw_int() || w == kw_void() || w == kw_return(),
    ensures
        has_at(a + r, i, w) == has_at(a, i, w),
{
    let s = a + r;
    if i + w.len() <= a.len() {
        assert(s.subrange(i, i + w.len()) =~= a.subrange(i, i + w.len()));
    } else if has_at(s, i, w) {
        let k = a.len() - i;
        assert(s.subrange(i, i + w.len())[k] == s[a.len() as int]);
        assert(s[a.len() as int] == r[0]);
    }
}

proof fn lemma_boundary_suffix(a: Seq<char>, r: Seq<char>, j: int)
    requires
        0 < j <= a.len(),
        starts_apart(r),
    ensures
        boundary_at(a + r, j) == boundary_at(a, j),
{
    assert((a + r)[j - 1] == a[j - 1]);
    if j < a.len() {
        assert((a + r)[j] == a[j]);
    } else if r.len() > 0 {
        assert((a + r)[j] == r[0]);
    }
}

proof fn lemma_keyword_suffix(a: Seq<char>, r: Seq<char>, i: int, w: Seq<char>)
    requires
        0 <= i < a.len(),
        starts_apart(r),
        w == kw_int() || w == kw_void() || w == kw_return(),
    ensures
        keyword_at(a + r, i, w) == keyword_at(a, i, w),
{
    lemma_has_at_suffix(a, r, i, w);
    if has_at(a, i, w) {
        lemma_boundary_suffix(a, r, i + w.len());
    }
}

/// Text after a whitespace character does not change what is found
/// before it.
proof fn lemma_scan_suffix(a: Seq<char>, r: Seq<char>, i: int)
    requires
        0 <= i < a.len(),
        starts_apart(r),
    ensures
        scan_at(a + r, i) == scan_at(a, i),
{
    let s = a + r;
    assert(s[i] == a[i]);
    lemma_keyword_suffix(a, r, i, kw_int());
    lemma_keyword_suffix(a, r, i, kw_void());
    lemma_keyword_suffix(a, r, i, kw_return());
    lemma_span_suffix(a, r, i + 1, word_pred());
    lemma_span_suffix(a, r, i, digit_pred());
    lemma_span_stop(a, i + 1, word_pred());
    lemma_span_stop(a, i, digit_pred());
    let n = 1 + span(a, i + 1, word_pred());
    assert(s.subrange(i, i + n) =~= a.subrange(i, i + n));
    let d = span(a, i, digit_pred());
    assert(s.subrange(i, i + d) =~= a.subrange(i, i + d));
    if d > 0 {
        lemma_boundary_suffix(a, r, i + d);
    }
    if i + 1 < a.len() {
        assert(s[i + 1] == a[i + 1]);
    } else if r.len() > 0 {
        assert(s[i + 1] == r[0]);
    }
}

proof fn lemma_prepend_empty(r: Result<Seq<TokenModel>, LexErrorModel>)
    ensures
        prepend(seq![], r) == r,
{
    if let Ok(x) = r {
        assert(Seq::<TokenModel>::empty() + x =~= x);
    }
}

/// Lexing `a + r`, where `r` starts with whitespace, lexes `a` and then
/// goes on from where `a` ends.
proof fn lemma_lex_suffix(a: Seq<char>, r: Seq<char>, i: int)
    requires
        0 <= i <= a.len(),
        starts_apart(r),
    ensures
        lex_from(a + r, i) == combine(lex_from(a, i), lex_from(a + r, a.len() as int)),
    decreases a.len() - i,
{
    let s = a + r;
    if i == a.len() {
        lemma_prepend_empty(lex_from(s, i));
    } else {
        assert(s[i] == a[i]);
        if is_white_space(a[i]) {
            lemma_lex_suffix(a, r, i + 1);
        } else {
            lemma_scan_suffix(a, r, i);
            lemma_scan_len(a, i);
            if let Scan::Found(t, n) = scan_at(a, i) {
                lemma_lex_suffix(a, r, i + n);
                let rest = lex_from(s, a.len() as int);
                if let Ok(x) = lex_from(a, i + n) {
                    if let Ok(y) = rest {
                        assert(seq![t] + (x + y) =~= (seq![t] + x) + y);
                    }
                }
            }
        }
    }
}

proof fn lemma_span_shift(p: Seq<char>, s: Seq<char>, j: int, f: spec_fn(char) -> bool)
    requires
        0 <= j <= s.len(),
    ensures
        span(p + s, p.len() + j, f) == span(s, j, f),
    decreases s.len() - j,
{
    if j < s.len() {
        assert((p + s)[p.len() + j] == s[j]);
        lemma_span_shift(p, s, j + 1, f);
    }
}

/// Text before a position does not change what is found there.
proof fn lemma_scan_shift(p: Seq<char>, s: Seq<char>, i: int)
    requires
        0 <= i < s.len(),
    ensures
        scan_at(p + s, p.len() + i) == scan_at(s, i),
{
    let t = p + s;
    let o = p.len() as int;
    assert forall|k: int| 0 <= k < s.len() implies t[o + k] == s[k] by {}
    assert forall|w: Seq<char>| #![trigger has_at(s, i, w)] w == kw_int() || w == kw_void() || w == kw_return()
        implies has_at(t, o + i, w) == has_at(s, i, w) && (has_at(s, i, w) ==> boundary_at(t, o + i + w.len())
        == boundary_at(s, i + w.len())) by {
        if i + w.len() <= s.len() {
            assert(t.subrange(o + i, o + i + w.len()) =~= s.subrange(i, i + w.len()));
            let j = i + w.len();
            assert(t[o + j - 1] == s[j - 1]);
            if j < s.len() {
                assert(t[o + j] == s[j]);
            }
        }
    }
    assert(has_at(s, i, kw_int()) == has_at(s, i, kw_int()));
    assert(has_at(s, i, kw_void()) == has_at(s, i, kw_void()));
    assert(has_at(s, i, kw_return()) == has_at(s, i, kw_return()));
    lemma_span_shift(p, s, i + 1, word_pred());
    lemma_span_shift(p, s, i, digit_pred());
    lemma_span_stop(s, i + 1, word_pred());
    lemma_span_stop(s, i, digit_pred());
    let n = 1 + span(s, i + 1, word_pred());
    assert(t.subrange(o + i, o + i + n) =~= s.subrange(i, i + n));
    let d = span(s, i, digit_pred());
    assert(t.subrange(o + i, o + i + d) =~= s.subrange(i, i + d));
    if d > 0 {
        let j = i + d;
        assert(t[o + j - 1] == s[j - 1]);
        if j < s.len() {
            assert(t[o + j] == s[j]);
        }
    }
    if i + 1 < s.len() {
        assert(t[o + i + 1] == s[i + 1]);
    }
}

/// Lexing `p + s` from where `s` starts is lexing `s`.
proof fn lemma_lex_shift(p: Seq<char>, s: Seq<char>, i: int)
    requires
        0 <= i <= s.len(),
    ensures
        lex_from(p + s, p.len() + i) == lex_from(s, i),
    decreases s.len() - i,
{
    if i < s.len() {
        assert((p + s)[p.len() + i] == s[i]);
        if is_white_space(s[i]) {
            lemma_lex_shift(p, s, i + 1);
        } else {
            lemma_scan_shift(p, s, i);
            lemma_scan_len(s, i);
            if let Scan::Found(t, n) = scan_at(s, i) {
                lemma_lex_shift(p, s, i + n);
            }
        }
    }
}

proof fn lemma_skip_white_space(s: Seq<char>, i: int, j: int)
    requires
        0 <= i <= j <= s.len(),
        forall|k: int| i <= k < j ==> is_white_space(#[trigger] s[k]),
    ensures
        lex_from(s, i) == lex_from(s, j),
    decreases j - i,
{
    if i < j {
        lemma_skip_white_space(s, i + 1, j);
    }
}

/// Whitespace before or after a text does not change how it lexes.
pub proof fn law_lex_ignores_surrounding_white_space(s: Seq<char>, w: Seq<char>)
    requires
        all_white_space(w),
    ensures
        lex_spec(w + s) == lex_spec(s),
        lex_spec(s + w) == lex_spec(s),
{
    assert forall|k: int| 0 <= k < w.len() implies is_white_space(#[trigger] (w + s)[k]) by {
        assert((w + s)[k] == w[k]);
    }
    lemma_skip_white_space(w + s, 0, w.len() as int);
    lemma_lex_shift(w, s, 0);
    lemma_lex_suffix(s, w, 0);
    assert forall|k: int| s.len() <= k < (s + w).len() implies is_white_space(#[trigger] (s + w)[k]) by {
        assert((s + w)[k] == w[k - s.len()]);
    }
    lemma_skip_white_space(s + w, s.len() as int, (s + w).len() as int);
    if let Ok(x) = lex_from(s, 0) {
        assert(x + Seq::<TokenModel>::empty() =~= x);
    }
}

/// Two texts joined by a space lex to the tokens of the first, then those
/// of the second; an error in either is the first error met.
pub proof fn law_lex_joined_by_space(a: Seq<char>, b: Seq<char>)
    ensures
        lex_spec(a + seq![' '] + b) == combine(lex_spec(a), lex_spec(b)),
{
    let r = seq![' '] + b;
    assert(a + seq![' '] + b =~= a + r);
    lemma_lex_suffix(a, r, 0);
    let s = a + r;
    assert(s[a.len() as int] == ' ');
    assert(lex_from(s, a.len() as int) == lex_from(s, (a.len() + 1) as int));
    assert(s =~= (a + seq![' ']) + b);
    lemma_lex_shift(a + seq![' '], b, 0);
}

/// The texts of tokens joined by single spaces.
pub open spec fn joined_spelling(ts: Seq<TokenModel>) -> Seq<char> {
    crate::chars::join(ts.map_values(|t: TokenModel| token_text(t)), seq![' '])
}

proof fn lemma_spelling_push(ts: Seq<TokenModel>, t: TokenModel)
    ensures
        spelling(ts.push(t)) == spelling(ts) + token_text(t) + seq![' '],
    decreases ts.len(),
{
    if ts.len() == 0 {
        assert(ts.push(t).drop_first() =~= Seq::<TokenModel>::empty());
        assert(spelling(ts.push(t).drop_first()) == Seq::<char>::empty());
        assert(ts.push(t)[0] == t);
        assert(spelling(ts) == Seq::<char>::empty());
        assert(spelling(ts.push(t)) =~= spelling(ts) + token_text(t) + seq![' ']);
    } else {
        let rest = ts.drop_first();
        lemma_spelling_push(rest, t);
        assert(ts.push(t).drop_first() =~= rest.push(t));
        assert(ts.push(t)[0] == ts[0]);
        let head = token_text(ts[0]) + seq![' '];
        assert(spelling(ts.push(t)) == head + spelling(rest.push(t)));
        assert(spelling(ts) == head + spelling(rest));
        assert(head + (spelling(rest) + token_text(t) + seq![' ']) =~= (head + spelling(rest))
            + token_text(t) + seq![' ']);
    }
}

proof fn lemma_joined_spelling(ts: Seq<TokenModel>)
    requires
        ts.len() > 0,
    ensures
        joined_spelling(ts) + seq![' '] == spelling(ts),
    decreases ts.len(),
{
    let f = |t: TokenModel| token_text(t);
    let init = ts.drop_last();
    assert(ts =~= init.push(ts.last()));
    lemma_spelling_push(init, ts.last());
    assert(ts.map_values(f) =~= init.map_values(f).push(token_text(ts.last())));
    assert(ts.map_values(f).drop_last() =~= init.map_values(f));
    if init.len() == 0 {
        assert(spelling(init) =~= Seq::<char>::empty());
        assert(joined_spelling(ts) =~= token_text(ts.last()));
        assert(joined_spelling(ts) + seq![' '] =~= spelling(ts));
    } else {
        lemma_joined_spelling(init);
        assert(joined_spelling(ts) =~= joined_spelling(init) + seq![' '] + token_text(ts.last()));
        assert(joined_spelling(ts) + seq![' '] =~= spelling(ts));
    }
}

/// Tokens the lexer can produce, written out joined by single spaces, lex
/// back to the same tokens.
pub proof fn law_lex_joined_spelling(ts: Seq<TokenModel>)
    requires
        forall|k: int| 0 <= k < ts.len() ==> spellable(#[trigger] ts[k]),
    ensures
        lex_spec(joined_spelling(ts)) == Ok::<Seq<TokenModel>, LexErrorModel>(ts),
{
    if ts.len() == 0 {
        assert(ts =~= Seq::<TokenModel>::empty());
    } else {
        lemma_joined_spelling(ts);
        law_lex_spelling(ts);
        assert(all_white_space(seq![' ']));
        law_lex_ignores_surrounding_white_space(joined_spelling(ts), seq![' ']);
    }
}

} // verus!
