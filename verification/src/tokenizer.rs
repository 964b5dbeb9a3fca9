//! Lexing: program text to a flat sequence of typed tokens.
//!
//! The scanner walks the characters once. Digits open a number literal
//! (underscores and commas are dropped, a decimal point makes it a float),
//! letters open an identifier or keyword, quotes open a string, `#` opens a
//! comment closed by the next `#`, and the punctuation characters open an
//! operator read greedily with any following `=` signs.
use crate::float_bits::f64_of_decimal;
use crate::number::Number;
use vstd::prelude::*;

verus! {

#[derive(Debug)]
pub enum TokenizerError {
    /// Operator text that names no operator of the language.
    UnknownOperator(String),
    /// A character that no token may start with.
    UnexpectedCharacter(char),
    /// A number literal that does not denote a number (stray dots, or an
    /// integer that exceeds the 64-bit signed range).
    InvalidNumber(String),
}

#[derive(Debug, Clone)]
pub enum Token {
    EndStatement,
    Identifier(String),
    Number(Number),
    String(String),
    Operator(Operator),
    Keyword(Keyword),
    Comment(String),
    ScopeOpen,
    ScopeClose,
    BracketOpen,
    BracketClose,
    Boolean(bool),
}

#[derive(Debug, Clone, Copy, PartialEq, Eq, Structural)]
pub enum Keyword {
    If,
    Else,
    While,
    Print,
    Input,
    Break,
}

#[derive(Debug, Clone, Copy, PartialEq, Eq, Structural)]
pub enum Operator {
    Add,
    Subtract,
    Multiply,
    Divide,
    Modulo,
    Exponent,
    Equal,
    NotEqual,
    LessThan,
    GreaterThan,
    LessThanOrEqual,
    GreaterThanOrEqual,
    And,
    Or,
    Not,
    Brackets,
    Assign,
    AddAssign,
    SubtractAssign,
    MultiplyAssign,
    DivideAssign,
    ModuloAssign,
}

/// The mathematical shape of a token: text is a sequence of characters.
pub enum TokenModel {
    EndStatement,
    Identifier(Seq<char>),
    Number(Number),
    StrLit(Seq<char>),
    Operator(Operator),
    Keyword(Keyword),
    Comment(Seq<char>),
    ScopeOpen,
    ScopeClose,
    BracketOpen,
    BracketClose,
    Boolean(bool),
}

impl DeepView for Token {
    type V = TokenModel;

    open spec fn deep_view(&self) -> TokenModel {
        match self {
            Token::EndStatement => TokenModel::EndStatement,
            Token::Identifier(s) => TokenModel::Identifier(s@),
            Token::Number(n) => TokenModel::Number(*n),
            Token::String(s) => TokenModel::StrLit(s@),
            Token::Operator(o) => TokenModel::Operator(*o),
            Token::Keyword(k) => TokenModel::Keyword(*k),
            Token::Comment(s) => TokenModel::Comment(s@),
            Token::ScopeOpen => TokenModel::ScopeOpen,
            Token::ScopeClose => TokenModel::ScopeClose,
            Token::BracketOpen => TokenModel::BracketOpen,
            Token::BracketClose => TokenModel::BracketClose,
            Token::Boolean(b) => TokenModel::Boolean(*b),
        }
    }
}

pub enum TokenizerErrorModel {
    UnknownOperator(Seq<char>),
    UnexpectedCharacter(char),
    InvalidNumber(Seq<char>),
}

impl DeepView for TokenizerError {
    type V = TokenizerErrorModel;

    open spec fn deep_view(&self) -> TokenizerErrorModel {
        match self {
            TokenizerError::UnknownOperator(s) => TokenizerErrorModel::UnknownOperator(s@),
            TokenizerError::UnexpectedCharacter(c) => TokenizerErrorModel::UnexpectedCharacter(*c),
            TokenizerError::InvalidNumber(s) => TokenizerErrorModel::InvalidNumber(s@),
        }
    }
}

impl Token {
    /// A structural copy of this token.
    pub fn duplicate(&self) -> (r: Token)
        ensures
            r.deep_view() == self.deep_view(),
    {
        match self {
            Token::EndStatement => Token::EndStatement,
            Token::Identifier(s) => Token::Identifier(s.clone()),
            Token::Number(n) => Token::Number(*n),
            Token::String(s) => Token::String(s.clone()),
            Token::Operator(o) => Token::Operator(*o),
            Token::Keyword(k) => Token::Keyword(*k),
            Token::Comment(s) => Token::Comment(s.clone()),
            Token::ScopeOpen => Token::ScopeOpen,
            Token::ScopeClose => Token::ScopeClose,
            Token::BracketOpen => Token::BracketOpen,
            Token::BracketClose => Token::BracketClose,
            Token::Boolean(b) => Token::Boolean(*b),
        }
    }
}

pub open spec fn is_digit_char(c: char) -> bool {
    48 <= c as u32 <= 57
}

pub open spec fn is_num_char(c: char) -> bool {
    is_digit_char(c) || c == '.' || c == ',' || c == '_'
}

pub open spec fn is_alpha_char(c: char) -> bool {
    (97 <= c as u32 <= 122) || (65 <= c as u32 <= 90)
}

pub open spec fn is_ident_char(c: char) -> bool {
    is_alpha_char(c) || is_digit_char(c) || c == '_'
}

pub open spec fn is_op_start_char(c: char) -> bool {
    c == '+' || c == '-' || c == '*' || c == '/' || c == '%' || c == '=' || c == '!' || c == '<'
        || c == '>' || c == '^'
}

/// How many leading characters of `s` may continue a number literal.
pub open spec fn num_span(s: Seq<char>) -> int
    decreases s.len(),
{
    if s.len() > 0 && is_num_char(s[0]) {
        1 + num_span(s.skip(1))
    } else {
        0
    }
}

/// How many leading characters of `s` may continue an identifier.
pub open spec fn ident_span(s: Seq<char>) -> int
    decreases s.len(),
{
    if s.len() > 0 && is_ident_char(s[0]) {
        1 + ident_span(s.skip(1))
    } else {
        0
    }
}

/// How many leading `=` characters `s` has.
pub open spec fn eq_span(s: Seq<char>) -> int
    decreases s.len(),
{
    if s.len() > 0 && s[0] == '=' {
        1 + eq_span(s.skip(1))
    } else {
        0
    }
}




/// The index of the first occurrence of `d`, if any.
pub open spec fn delim_idx(s: Seq<char>, d: char) -> Option<int>
    decreases s.len(),
{
    if s.len() == 0 {
        None
    } else if s[0] == d {
        Some(0)
    } else {
        match delim_idx(s.skip(1), d) {
            Some(i) => Some(i + 1),
            None => None,
        }
    }
}


/// A number literal with its `,` and `_` separators removed.
pub open spec fn strip_separators(s: Seq<char>) -> Seq<char>
    decreases s.len(),
{
    if s.len() == 0 {
        s
    } else if s[0] == ',' || s[0] == '_' {
        strip_separators(s.skip(1))
    } else {
        seq![s[0]] + strip_separators(s.skip(1))
    }
}

pub open spec fn seq_contains_char(s: Seq<char>, c: char) -> bool {
    exists|i: int| 0 <= i < s.len() && s[i] == c
}

pub open spec fn digit_val(c: char) -> nat {
    (c as u32 - 48) as nat
}

/// The value of a decimal digit string, most significant digit first.
pub open spec fn digits_val(s: Seq<char>) -> nat
    decreases s.len(),
{
    if s.len() == 0 {
        0
    } else {
        digits_val(s.drop_last()) * 10 + digit_val(s.last())
    }
}

/// A longer digit string never denotes a smaller value.
pub proof fn lemma_digits_val_prefix(s: Seq<char>, p: int)
    requires
        0 <= p <= s.len(),
    ensures
        digits_val(s) >= digits_val(s.take(p)),
    decreases s.len() - p,
{
    if p < s.len() {
        lemma_digits_val_prefix(s, p + 1);
        assert(s.take(p + 1).drop_last() =~= s.take(p));
        assert(digits_val(s.take(p + 1)) == digits_val(s.take(p)) * 10 + digit_val(
            s.take(p + 1).last(),
        ));
    } else {
        assert(s.take(p) =~= s);
    }
}

/// The token an identifier-shaped word denotes: a keyword, a boolean
/// literal, or a plain identifier.
pub open spec fn word_token(w: Seq<char>) -> TokenModel {
    if w == "if"@ {
        TokenModel::Keyword(Keyword::If)
    } else if w == "else"@ {
        TokenModel::Keyword(Keyword::Else)
    } else if w == "while"@ {
        TokenModel::Keyword(Keyword::While)
    } else if w == "print"@ {
        TokenModel::Keyword(Keyword::Print)
    } else if w == "input"@ {
        TokenModel::Keyword(Keyword::Input)
    } else if w == "break"@ {
        TokenModel::Keyword(Keyword::Break)
    } else if w == "true"@ {
        TokenModel::Boolean(true)
    } else if w == "false"@ {
        TokenModel::Boolean(false)
    } else {
        TokenModel::Identifier(w)
    }
}

/// The operator written as the character `c` followed by `eqs` equals signs.
pub open spec fn op_of(c: char, eqs: int) -> Option<Operator> {
    if eqs == 0 {
        if c == '+' {
            Some(Operator::Add)
        } else if c == '-' {
            Some(Operator::Subtract)
        } else if c == '*' {
            Some(Operator::Multiply)
        } else if c == '/' {
            Some(Operator::Divide)
        } else if c == '%' {
            Some(Operator::Modulo)
        } else if c == '^' {
            Some(Operator::Exponent)
        } else if c == '=' {
            Some(Operator::Assign)
        } else if c == '!' {
            Some(Operator::Not)
        } else if c == '<' {
            Some(Operator::LessThan)
        } else if c == '>' {
            Some(Operator::GreaterThan)
        } else {
            None
        }
    } else if eqs == 1 {
        if c == '=' {
            Some(Operator::Equal)
        } else if c == '!' {
            Some(Operator::NotEqual)
        } else if c == '<' {
            Some(Operator::LessThanOrEqual)
        } else if c == '>' {
            Some(Operator::GreaterThanOrEqual)
        } else if c == '+' {
            Some(Operator::AddAssign)
        } else if c == '-' {
            Some(Operator::SubtractAssign)
        } else if c == '*' {
            Some(Operator::MultiplyAssign)
        } else if c == '/' {
            Some(Operator::DivideAssign)
        } else if c == '%' {
            Some(Operator::ModuloAssign)
        } else {
            None
        }
    } else {
        None
    }
}

pub open spec fn cons_tok(
    t: TokenModel,
    rest: Result<Seq<TokenModel>, TokenizerErrorModel>,
) -> Result<Seq<TokenModel>, TokenizerErrorModel> {
    match rest {
        Ok(s) => Ok(seq![t] + s),
        Err(e) => Err(e),
    }
}

/// The scanner: program text to tokens, or the first lexical error. The
/// biggest integer literal is `i64::MAX`; a literal over it, or a float
/// literal with stray dots, is an invalid number.
pub open spec fn spec_tokenize(s: Seq<char>) -> Result<Seq<TokenModel>, TokenizerErrorModel>
    decreases s.len(),
{
    if s.len() == 0 {
        Ok(Seq::empty())
    } else {
        let c = s[0];
        if c == ' ' || c == '\t' || c == '\r' || c == '\n' {
            spec_tokenize(s.skip(1))
        } else if c == ';' {
            cons_tok(TokenModel::EndStatement, spec_tokenize(s.skip(1)))
        } else if is_digit_char(c) {
            let j = 1 + num_span(s.skip(1));
            if 1 <= j <= s.len() {
                let text = s.take(j);
                let cleaned = strip_separators(text);
                if seq_contains_char(cleaned, '.') {
                    match crate::float_bits::f64_of_decimal(cleaned) {
                        Some(bits) => cons_tok(
                            TokenModel::Number(Number::Float(bits)),
                            spec_tokenize(s.skip(j)),
                        ),
                        None => Err(TokenizerErrorModel::InvalidNumber(text)),
                    }
                } else {
                    if digits_val(cleaned) <= 0x7fff_ffff_ffff_ffff {
                        cons_tok(
                            TokenModel::Number(Number::Integer(digits_val(cleaned) as i64)),
                            spec_tokenize(s.skip(j)),
                        )
                    } else {
                        Err(TokenizerErrorModel::InvalidNumber(text))
                    }
                }
            } else {
                Err(TokenizerErrorModel::UnexpectedCharacter(c))
            }
        } else if is_alpha_char(c) || c == '_' {
            let j = 1 + ident_span(s.skip(1));
            if 1 <= j <= s.len() {
                cons_tok(word_token(s.take(j)), spec_tokenize(s.skip(j)))
            } else {
                Err(TokenizerErrorModel::UnexpectedCharacter(c))
            }
        } else if is_op_start_char(c) {
            let k = eq_span(s.skip(1));
            let j = 1 + k;
            if 1 <= j <= s.len() {
                match op_of(c, k) {
                    Some(op) => cons_tok(TokenModel::Operator(op), spec_tokenize(s.skip(j))),
                    None => Err(TokenizerErrorModel::UnknownOperator(s.take(j))),
                }
            } else {
                Err(TokenizerErrorModel::UnexpectedCharacter(c))
            }
        } else if c == '&' || c == '|' {
            if s.len() >= 2 && s[1] == c {
                cons_tok(
                    TokenModel::Operator(
                        if c == '&' {
                            Operator::And
                        } else {
                            Operator::Or
                        },
                    ),
                    spec_tokenize(s.skip(2)),
                )
            } else {
                Err(TokenizerErrorModel::UnknownOperator(s.take(1)))
            }
        } else if c == '{' {
            cons_tok(TokenModel::ScopeOpen, spec_tokenize(s.skip(1)))
        } else if c == '}' {
            cons_tok(TokenModel::ScopeClose, spec_tokenize(s.skip(1)))
        } else if c == '(' {
            cons_tok(TokenModel::BracketOpen, spec_tokenize(s.skip(1)))
        } else if c == ')' {
            cons_tok(TokenModel::BracketClose, spec_tokenize(s.skip(1)))
        } else if c == '"' {
            match delim_idx(s.skip(1), '"') {
                Some(k) => if 0 <= k && k + 2 <= s.len() {
                    cons_tok(TokenModel::StrLit(s.skip(1).take(k)), spec_tokenize(s.skip(k + 2)))
                } else {
                    Err(TokenizerErrorModel::UnexpectedCharacter(c))
                },
                None => cons_tok(
                    TokenModel::StrLit(s.skip(1)),
                    Ok(Seq::empty()),
                ),
            }
        } else if c == '#' {
            match delim_idx(s.skip(1), '#') {
                Some(k) => if 0 <= k && k + 2 <= s.len() {
                    cons_tok(TokenModel::Comment(s.skip(1).take(k)), spec_tokenize(s.skip(k + 2)))
                } else {
                    Err(TokenizerErrorModel::UnexpectedCharacter(c))
                },
                None => cons_tok(
                    TokenModel::Comment(s.skip(1)),
                    Ok(Seq::empty()),
                ),
            }
        } else {
            Err(TokenizerErrorModel::UnexpectedCharacter(c))
        }
    }
}

pub open spec fn tokenize_result_view(r: Result<Vec<Token>, TokenizerError>) -> Result<
    Seq<TokenModel>,
    TokenizerErrorModel,
> {
    match r {
        Ok(v) => Ok(v.deep_view()),
        Err(e) => Err(e.deep_view()),
    }
}

pub open spec fn with_prefix_tok(
    pre: Seq<TokenModel>,
    rest: Result<Seq<TokenModel>, TokenizerErrorModel>,
) -> Result<Seq<TokenModel>, TokenizerErrorModel> {
    match rest {
        Ok(s) => Ok(pre + s),
        Err(e) => Err(e),
    }
}

proof fn lemma_with_prefix_tok_cons(
    pre: Seq<TokenModel>,
    t: TokenModel,
    rest: Result<Seq<TokenModel>, TokenizerErrorModel>,
)
    ensures
        with_prefix_tok(pre, cons_tok(t, rest)) == with_prefix_tok(pre.push(t), rest),
{
    match rest {
        Ok(s) => {
            assert(pre + (seq![t] + s) =~= pre.push(t) + s);
        },
        Err(_) => {},
    }
}

fn is_digit_c(c: char) -> (r: bool)
    ensures
        r == is_digit_char(c),
{
    let u = c as u32;
    48 <= u && u <= 57
}

fn is_num_c(c: char) -> (r: bool)
    ensures
        r == is_num_char(c),
{
    is_digit_c(c) || c == '.' || c == ',' || c == '_'
}

fn is_alpha_c(c: char) -> (r: bool)
    ensures
        r == is_alpha_char(c),
{
    let u = c as u32;
    (97 <= u && u <= 122) || (65 <= u && u <= 90)
}

fn is_ident_c(c: char) -> (r: bool)
    ensures
        r == is_ident_char(c),
{
    is_alpha_c(c) || is_digit_c(c) || c == '_'
}

fn is_op_start_c(c: char) -> (r: bool)
    ensures
        r == is_op_start_char(c),
{
    c == '+' || c == '-' || c == '*' || c == '/' || c == '%' || c == '=' || c == '!' || c == '<'
        || c == '>' || c == '^'
}

fn string_is(w: &String, lit: &str) -> (r: bool)
    ensures
        r == (w@ == lit@),
{
    *w == lit.to_owned()
}

/// The token an identifier-shaped word denotes.
fn keyword_token(word: String) -> (t: Token)
    ensures
        t.deep_view() == word_token(word@),
{
    if string_is(&word, "if") {
        Token::Keyword(Keyword::If)
    } else if string_is(&word, "else") {
        Token::Keyword(Keyword::Else)
    } else if string_is(&word, "while") {
        Token::Keyword(Keyword::While)
    } else if string_is(&word, "print") {
        Token::Keyword(Keyword::Print)
    } else if string_is(&word, "input") {
        Token::Keyword(Keyword::Input)
    } else if string_is(&word, "break") {
        Token::Keyword(Keyword::Break)
    } else if string_is(&word, "true") {
        Token::Boolean(true)
    } else if string_is(&word, "false") {
        Token::Boolean(false)
    } else {
        Token::Identifier(word)
    }
}

fn op_of_exec(c: char, k: usize) -> (r: Option<Operator>)
    ensures
        r == op_of(c, k as int),
{
    if k == 0 {
        if c == '+' {
            Some(Operator::Add)
        } else if c == '-' {
            Some(Operator::Subtract)
        } else if c == '*' {
            Some(Operator::Multiply)
        } else if c == '/' {
            Some(Operator::Divide)
        } else if c == '%' {
            Some(Operator::Modulo)
        } else if c == '^' {
            Some(Operator::Exponent)
        } else if c == '=' {
            Some(Operator::Assign)
        } else if c == '!' {
            Some(Operator::Not)
        } else if c == '<' {
            Some(Operator::LessThan)
        } else if c == '>' {
            Some(Operator::GreaterThan)
        } else {
            None
        }
    } else if k == 1 {
        if c == '=' {
            Some(Operator::Equal)
        } else if c == '!' {
            Some(Operator::NotEqual)
        } else if c == '<' {
            Some(Operator::LessThanOrEqual)
        } else if c == '>' {
            Some(Operator::GreaterThanOrEqual)
        } else if c == '+' {
            Some(Operator::AddAssign)
        } else if c == '-' {
            Some(Operator::SubtractAssign)
        } else if c == '*' {
            Some(Operator::MultiplyAssign)
        } else if c == '/' {
            Some(Operator::DivideAssign)
        } else if c == '%' {
            Some(Operator::ModuloAssign)
        } else {
            None
        }
    } else {
        None
    }
}

proof fn lemma_contains_push(s: Seq<char>, c: char, d: char)
    ensures
        seq_contains_char(s.push(c), d) == (seq_contains_char(s, d) || c == d),
{
    if c == d {
        assert(s.push(c)[s.len() as int] == d);
    }
    if seq_contains_char(s, d) {
        let i = choose|i: int| 0 <= i < s.len() && s[i] == d;
        assert(s.push(c)[i] == d);
    }
    if seq_contains_char(s.push(c), d) && c != d {
        let i = choose|i: int| 0 <= i < s.push(c).len() && s.push(c)[i] == d;
        if i < s.len() {
            assert(s[i] == d);
        }
    }
}

/// Scans one number literal: digits, separators and dots, greedily.
#[verifier::loop_isolation(false)]
fn scan_number(s: &str, i: usize, n: usize) -> (r: Result<(Token, usize), TokenizerError>)
    requires
        i < n,
        n == s@.len(),
        is_digit_char(s@[i as int]),
    ensures
        match r {
            Ok((tok, ni)) => i < ni <= n && spec_tokenize(s@.subrange(i as int, n as int))
                == cons_tok(
                tok.deep_view(),
                spec_tokenize(s@.subrange(ni as int, n as int)),
            ),
            Err(e) => spec_tokenize(s@.subrange(i as int, n as int)) == Err::<
                Seq<TokenModel>,
                TokenizerErrorModel,
            >(e.deep_view()),
        },
{
    let ghost ts = s@.subrange(i as int, n as int);
    proof {
        assert(ts[0] == s@[i as int]);
        assert(ts.skip(1) =~= s@.subrange(i as int + 1, n as int));
    }
    let mut p: usize = i + 1;
    while p < n && is_num_c(s.get_char(p))
        invariant
            i + 1 <= p <= n == s@.len(),
            num_span(s@.subrange(i as int + 1, n as int)) == (p - i - 1) + num_span(
                s@.subrange(p as int, n as int),
            ),
            forall|x: int| i + 1 <= x < p ==> is_num_char(#[trigger] s@[x]),
        decreases n - p,
    {
        proof {
            assert(s@.subrange(p as int, n as int)[0] == s@[p as int]);
            assert(s@.subrange(p as int, n as int).skip(1) =~= s@.subrange(
                p as int + 1,
                n as int,
            ));
        }
        p = p + 1;
    }
    proof {
        if p < n {
            assert(s@.subrange(p as int, n as int)[0] == s@[p as int]);
        } else {
            assert(s@.subrange(p as int, n as int).len() == 0);
        }
        assert(num_span(s@.subrange(i as int + 1, n as int)) == p - i - 1);
        assert(ts.take(p as int - i) =~= s@.subrange(i as int, p as int));
        assert(ts.skip(p as int - i) =~= s@.subrange(p as int, n as int));
    }
    let ghost text = s@.subrange(i as int, p as int);
    let mut cleaned: Vec<char> = Vec::new();
    let mut has_dot = false;
    let mut q: usize = i;
    proof {
        assert(cleaned@ + strip_separators(s@.subrange(i as int, p as int)) =~= strip_separators(
            s@.subrange(i as int, p as int),
        ));
    }
    while q < p
        invariant
            i <= q <= p <= n == s@.len(),
            text == s@.subrange(i as int, p as int),
            is_digit_char(s@[i as int]),
            forall|x: int| i + 1 <= x < p ==> is_num_char(#[trigger] s@[x]),
            strip_separators(text) == cleaned@ + strip_separators(s@.subrange(q as int, p as int)),
            has_dot == seq_contains_char(cleaned@, '.'),
            forall|x: int|
                0 <= x < cleaned@.len() ==> is_digit_char(#[trigger] cleaned@[x]) || cleaned@[x]
                    == '.',
        decreases p - q,
    {
        let c = s.get_char(q);
        let ghost part = s@.subrange(q as int, p as int);
        let ghost cleaned0 = cleaned@;
        proof {
            assert(part[0] == s@[q as int]);
            assert(part.skip(1) =~= s@.subrange(q as int + 1, p as int));
        }
        if c == ',' || c == '_' {
            proof {
                assert(strip_separators(part) == strip_separators(part.skip(1)));
            }
        } else {
            cleaned.push(c);
            if c == '.' {
                has_dot = true;
            }
            proof {
                assert(strip_separators(part) == seq![c] + strip_separators(part.skip(1)));
                assert(cleaned0 + (seq![c] + strip_separators(part.skip(1))) =~= cleaned0.push(c)
                    + strip_separators(part.skip(1)));
                lemma_contains_push(cleaned0, c, '.');
            }
        }
        q = q + 1;
    }
    proof {
        assert(s@.subrange(p as int, p as int).len() == 0);
        assert(cleaned@ + strip_separators(s@.subrange(p as int, p as int)) =~= cleaned@);
        assert(strip_separators(text) == cleaned@);
    }
    if has_dot {
        match crate::float_bits::parse_f64_bits(&cleaned) {
            Some(bits) => Ok((Token::Number(Number::Float(bits)), p)),
            None => Err(TokenizerError::InvalidNumber(s.substring_char(i, p).to_owned())),
        }
    } else {
        let m = cleaned.len();
        let mut acc: u128 = 0;
        let mut v: usize = 0;
        while v < m
            invariant
                v <= m == cleaned@.len(),
                acc == digits_val(cleaned@.take(v as int)),
                acc <= 0x7fff_ffff_ffff_ffff,
                !seq_contains_char(cleaned@, '.'),
                forall|x: int|
                    0 <= x < cleaned@.len() ==> is_digit_char(#[trigger] cleaned@[x])
                        || cleaned@[x] == '.',
                n == s@.len(),
                i < p <= n,
            decreases m - v,
        {
            let c = cleaned[v];
            proof {
                if cleaned@[v as int] == '.' {
                    assert(seq_contains_char(cleaned@, '.'));
                }
                assert(is_digit_char(cleaned@[v as int]));
                assert(cleaned@.take(v as int + 1).drop_last() =~= cleaned@.take(v as int));
                assert(cleaned@.take(v as int + 1).last() == cleaned@[v as int]);
            }
            let d = (c as u32 - 48) as u128;
            let cand: u128 = acc * 10 + d;
            if cand > 0x7fff_ffff_ffff_ffffu128 {
                proof {
                    lemma_digits_val_prefix(cleaned@, v as int + 1);
                }
                return Err(TokenizerError::InvalidNumber(s.substring_char(i, p).to_owned()));
            }
            acc = cand;
            v = v + 1;
        }
        proof {
            assert(cleaned@.take(m as int) =~= cleaned@);
        }
        Ok((Token::Number(Number::Integer(acc as i64)), p))
    }
}

/// Scans one identifier or keyword.
fn scan_word(s: &str, i: usize, n: usize) -> (r: Result<(Token, usize), TokenizerError>)
    requires
        i < n,
        n == s@.len(),
        is_alpha_char(s@[i as int]) || s@[i as int] == '_',
    ensures
        match r {
            Ok((tok, ni)) => i < ni <= n && spec_tokenize(s@.subrange(i as int, n as int))
                == cons_tok(
                tok.deep_view(),
                spec_tokenize(s@.subrange(ni as int, n as int)),
            ),
            Err(e) => spec_tokenize(s@.subrange(i as int, n as int)) == Err::<
                Seq<TokenModel>,
                TokenizerErrorModel,
            >(e.deep_view()),
        },
{
    let ghost ts = s@.subrange(i as int, n as int);
    proof {
        assert(ts[0] == s@[i as int]);
        assert(ts.skip(1) =~= s@.subrange(i as int + 1, n as int));
    }
    let mut p: usize = i + 1;
    while p < n && is_ident_c(s.get_char(p))
        invariant
            i + 1 <= p <= n == s@.len(),
            ident_span(s@.subrange(i as int + 1, n as int)) == (p - i - 1) + ident_span(
                s@.subrange(p as int, n as int),
            ),
        decreases n - p,
    {
        proof {
            assert(s@.subrange(p as int, n as int)[0] == s@[p as int]);
            assert(s@.subrange(p as int, n as int).skip(1) =~= s@.subrange(
                p as int + 1,
                n as int,
            ));
        }
        p = p + 1;
    }
    proof {
        if p < n {
            assert(s@.subrange(p as int, n as int)[0] == s@[p as int]);
        } else {
            assert(s@.subrange(p as int, n as int).len() == 0);
        }
        assert(ident_span(s@.subrange(i as int + 1, n as int)) == p - i - 1);
        assert(ts.take(p as int - i) =~= s@.subrange(i as int, p as int));
        assert(ts.skip(p as int - i) =~= s@.subrange(p as int, n as int));
    }
    let word = s.substring_char(i, p).to_owned();
    Ok((keyword_token(word), p))
}

/// Scans one operator: a punctuation character with any following `=` signs.
fn scan_operator(s: &str, i: usize, n: usize) -> (r: Result<(Token, usize), TokenizerError>)
    requires
        i < n,
        n == s@.len(),
        is_op_start_char(s@[i as int]),
    ensures
        match r {
            Ok((tok, ni)) => i < ni <= n && spec_tokenize(s@.subrange(i as int, n as int))
                == cons_tok(
                tok.deep_view(),
                spec_tokenize(s@.subrange(ni as int, n as int)),
            ),
            Err(e) => spec_tokenize(s@.subrange(i as int, n as int)) == Err::<
                Seq<TokenModel>,
                TokenizerErrorModel,
            >(e.deep_view()),
        },
{
    let ghost ts = s@.subrange(i as int, n as int);
    proof {
        assert(ts[0] == s@[i as int]);
        assert(ts.skip(1) =~= s@.subrange(i as int + 1, n as int));
    }
    let mut p: usize = i + 1;
    while p < n && s.get_char(p) == '='
        invariant
            i + 1 <= p <= n == s@.len(),
            eq_span(s@.subrange(i as int + 1, n as int)) == (p - i - 1) + eq_span(
                s@.subrange(p as int, n as int),
            ),
        decreases n - p,
    {
        proof {
            assert(s@.subrange(p as int, n as int)[0] == s@[p as int]);
            assert(s@.subrange(p as int, n as int).skip(1) =~= s@.subrange(
                p as int + 1,
                n as int,
            ));
        }
        p = p + 1;
    }
    proof {
        if p < n {
            assert(s@.subrange(p as int, n as int)[0] == s@[p as int]);
        } else {
            assert(s@.subrange(p as int, n as int).len() == 0);
        }
        assert(eq_span(s@.subrange(i as int + 1, n as int)) == p - i - 1);
        assert(ts.take(p as int - i) =~= s@.subrange(i as int, p as int));
        assert(ts.skip(p as int - i) =~= s@.subrange(p as int, n as int));
    }
    let c = s.get_char(i);
    match op_of_exec(c, p - (i + 1)) {
        Some(op) => Ok((Token::Operator(op), p)),
        None => Err(TokenizerError::UnknownOperator(s.substring_char(i, p).to_owned())),
    }
}

/// Scans one string literal or comment: everything up to the closing
/// delimiter, or to the end of the text where none follows.
fn scan_quoted(s: &str, i: usize, n: usize, comment: bool) -> (r: Result<
    (Token, usize),
    TokenizerError,
>)
    requires
        i < n,
        n == s@.len(),
        s@[i as int] == (if comment {
            '#'
        } else {
            '"'
        }),
    ensures
        match r {
            Ok((tok, ni)) => i < ni <= n && spec_tokenize(s@.subrange(i as int, n as int))
                == cons_tok(
                tok.deep_view(),
                spec_tokenize(s@.subrange(ni as int, n as int)),
            ),
            Err(e) => spec_tokenize(s@.subrange(i as int, n as int)) == Err::<
                Seq<TokenModel>,
                TokenizerErrorModel,
            >(e.deep_view()),
        },
{
    let ghost ts = s@.subrange(i as int, n as int);
    let d = if comment {
        '#'
    } else {
        '"'
    };
    proof {
        assert(ts[0] == s@[i as int]);
        assert(ts.skip(1) =~= s@.subrange(i as int + 1, n as int));
    }
    let mut p: usize = i + 1;
    while p < n && s.get_char(p) != d
        invariant
            i + 1 <= p <= n == s@.len(),
            d == (if comment {
                '#'
            } else {
                '"'
            }),
            match delim_idx(s@.subrange(p as int, n as int), d) {
                Some(k) => delim_idx(s@.subrange(i as int + 1, n as int), d) == Some(
                    k + p - i - 1,
                ),
                None => delim_idx(s@.subrange(i as int + 1, n as int), d) is None,
            },
        decreases n - p,
    {
        proof {
            assert(s@.subrange(p as int, n as int)[0] == s@[p as int]);
            assert(s@.subrange(p as int, n as int).skip(1) =~= s@.subrange(
                p as int + 1,
                n as int,
            ));
        }
        p = p + 1;
    }
    if p < n {
        proof {
            assert(s@.subrange(p as int, n as int)[0] == s@[p as int]);
            assert(delim_idx(s@.subrange(i as int + 1, n as int), d) == Some(p - i - 1int));
            assert(ts.skip(1).take(p as int - i - 1) =~= s@.subrange(i as int + 1, p as int));
            assert(ts.skip(p as int + 1 - i) =~= s@.subrange(p as int + 1, n as int));
        }
        let text = s.substring_char(i + 1, p).to_owned();
        let tok = if comment {
            Token::Comment(text)
        } else {
            Token::String(text)
        };
        Ok((tok, p + 1))
    } else {
        proof {
            assert(s@.subrange(p as int, n as int).len() == 0);
            assert(delim_idx(s@.subrange(i as int + 1, n as int), d) is None);
            assert(ts.skip(1) =~= s@.subrange(i as int + 1, n as int));
            assert(s@.subrange(n as int, n as int).len() == 0);
        }
        let text = s.substring_char(i + 1, n).to_owned();
        let tok = if comment {
            Token::Comment(text)
        } else {
            Token::String(text)
        };
        Ok((tok, n))
    }
}

/// Turns program text into tokens, or reports the first lexical error: an
/// operator the language lacks, a character no token may start with, or a
/// number literal that denotes no number.
pub fn tokenize(input: &str) -> (r: Result<Vec<Token>, TokenizerError>)
    ensures
        tokenize_result_view(r) == spec_tokenize(input@),
{
    let ghost full = input@;
    let n = input.unicode_len();
    let mut acc: Vec<Token> = Vec::new();
    let mut i: usize = 0;
    proof {
        assert(full.subrange(0, n as int) =~= full);
        assert(acc.deep_view() =~= Seq::<TokenModel>::empty());
    }
    while i < n
        invariant
            i <= n == input@.len(),
            full == input@,
            with_prefix_tok(acc.deep_view(), spec_tokenize(full.subrange(i as int, n as int)))
                == spec_tokenize(full),
        decreases n - i,
    {
        let ghost ts = full.subrange(i as int, n as int);
        let ghost acc0 = acc.deep_view();
        proof {
            assert(ts[0] == full[i as int]);
            assert(ts.skip(1) =~= full.subrange(i as int + 1, n as int));
        }
        let c = input.get_char(i);
        let step: Option<(Token, usize)> = if c == ' ' || c == '\t' || c == '\r' || c == '\n' {
            i = i + 1;
            None
        } else if c == ';' {
            Some((Token::EndStatement, i + 1))
        } else if is_digit_c(c) {
            match scan_number(input, i, n) {
                Err(e) => {
                    return Err(e);
                },
                Ok(pair) => Some(pair),
            }
        } else if is_alpha_c(c) || c == '_' {
            match scan_word(input, i, n) {
                Err(e) => {
                    return Err(e);
                },
                Ok(pair) => Some(pair),
            }
        } else if is_op_start_c(c) {
            match scan_operator(input, i, n) {
                Err(e) => {
                    return Err(e);
                },
                Ok(pair) => Some(pair),
            }
        } else if c == '&' || c == '|' {
            if i + 1 < n && input.get_char(i + 1) == c {
                proof {
                    assert(ts[1] == full[i as int + 1]);
                    assert(ts.skip(2) =~= full.subrange(i as int + 2, n as int));
                }
                let op = if c == '&' {
                    Operator::And
                } else {
                    Operator::Or
                };
                Some((Token::Operator(op), i + 2))
            } else {
                proof {
                    if i + 1 < n {
                        assert(ts[1] == full[i as int + 1]);
                    }
                    assert(ts.take(1) =~= full.subrange(i as int, i as int + 1));
                }
                return Err(
                    TokenizerError::UnknownOperator(input.substring_char(i, i + 1).to_owned()),
                );
            }
        } else if c == '{' {
            Some((Token::ScopeOpen, i + 1))
        } else if c == '}' {
            Some((Token::ScopeClose, i + 1))
        } else if c == '(' {
            Some((Token::BracketOpen, i + 1))
        } else if c == ')' {
            Some((Token::BracketClose, i + 1))
        } else if c == '"' {
            match scan_quoted(input, i, n, false) {
                Err(e) => {
                    return Err(e);
                },
                Ok(pair) => Some(pair),
            }
        } else if c == '#' {
            match scan_quoted(input, i, n, true) {
                Err(e) => {
                    return Err(e);
                },
                Ok(pair) => Some(pair),
            }
        } else {
            return Err(TokenizerError::UnexpectedCharacter(c));
        };
        if let Some((tok, ni)) = step {
            proof {
                lemma_with_prefix_tok_cons(
                    acc0,
                    tok.deep_view(),
                    spec_tokenize(full.subrange(ni as int, n as int)),
                );
            }
            acc.push(tok);
            proof {
                assert(acc.deep_view() =~= acc0.push(acc@[acc@.len() - 1].deep_view()));
            }
            i = ni;
        }
    }
    proof {
        assert(full.subrange(n as int, n as int).len() == 0);
        assert(acc.deep_view() + Seq::<TokenModel>::empty() =~= acc.deep_view());
    }
    Ok(acc)
}

} // verus!
