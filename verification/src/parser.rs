//! Parsing: a flat token sequence to expression trees and an instruction
//! sequence.
//!
//! Expressions are built with no precedence or associativity table: the first
//! token (or a fully parsed parenthesized group) becomes the left operand,
//! and on meeting a binary operator the entire remaining span is parsed as
//! one expression and becomes the right operand. Chains therefore nest to
//! the right: `a - b - c` parses as `a - (b - c)`.
//!
//! Statements are dispatched on their leading token: a keyword selects
//! If/Else/While/Print/Input/Break, an opening brace starts a bare scope
//! block, and anything else is collected up to the statement terminator as a
//! bare expression statement.
use crate::number::Number;
use crate::tokenizer::{Keyword, Operator, Token, TokenModel};
use vstd::prelude::*;

verus! {

broadcast use vstd::seq::axiom_seq_index_decreases, vstd::seq::axiom_seq_subrange_decreases, vstd::std_specs::vec::axiom_vec_decreases_to_view;

#[derive(Debug)]
pub enum ParserError {
    ExpectedToken(Token),
    UnexpectedToken(Token),
    UnknownOperator(String),
    InvalidOperator(Operator),
    UnexpectedEnd,
}

pub enum ParserErrorModel {
    ExpectedToken(TokenModel),
    UnexpectedToken(TokenModel),
    UnknownOperator(Seq<char>),
    InvalidOperator(Operator),
    UnexpectedEnd,
}

impl DeepView for ParserError {
    type V = ParserErrorModel;

    open spec fn deep_view(&self) -> ParserErrorModel {
        match self {
            ParserError::ExpectedToken(t) => ParserErrorModel::ExpectedToken(t.deep_view()),
            ParserError::UnexpectedToken(t) => ParserErrorModel::UnexpectedToken(t.deep_view()),
            ParserError::UnknownOperator(s) => ParserErrorModel::UnknownOperator(s@),
            ParserError::InvalidOperator(o) => ParserErrorModel::InvalidOperator(*o),
            ParserError::UnexpectedEnd => ParserErrorModel::UnexpectedEnd,
        }
    }
}

#[derive(Debug)]
pub enum Value {
    Number(Number),
    String(String),
    Boolean(bool),
    Identifier(String),
    Expression(Box<Expression>),
}

#[derive(Debug)]
pub struct Expression {
    pub operator: Operator,
    pub left: Box<Value>,
    pub right: Option<Box<Value>>,
}

/// The mathematical shape of an expression tree. A unary node (logical
/// negation or parenthesis-grouping) has no right operand; a binary node
/// always has one.
pub enum ValueModel {
    Number(Number),
    StrLit(Seq<char>),
    Boolean(bool),
    Identifier(Seq<char>),
    Unary(Operator, Box<ValueModel>),
    Binary(Operator, Box<ValueModel>, Box<ValueModel>),
}

pub open spec fn value_view(v: Value) -> ValueModel
    decreases v,
{
    match v {
        Value::Number(n) => ValueModel::Number(n),
        Value::String(s) => ValueModel::StrLit(s@),
        Value::Boolean(b) => ValueModel::Boolean(b),
        Value::Identifier(s) => ValueModel::Identifier(s@),
        Value::Expression(e) => match e.right {
            Some(r) => ValueModel::Binary(
                e.operator,
                Box::new(value_view(*e.left)),
                Box::new(value_view(*r)),
            ),
            None => ValueModel::Unary(e.operator, Box::new(value_view(*e.left))),
        },
    }
}

impl DeepView for Value {
    type V = ValueModel;

    open spec fn deep_view(&self) -> ValueModel {
        value_view(*self)
    }
}

#[derive(Debug)]
pub enum Instruction {
    If { condition: Value, instructions: Vec<Instruction> },
    Else { instructions: Vec<Instruction> },
    While { condition: Value, instructions: Vec<Instruction> },
    Scope { instructions: Vec<Instruction> },
    Value { value: Value },
    Break,
    Print { message: Value },
    Input { variable: String },
}

pub enum InstrModel {
    If { condition: ValueModel, body: Seq<InstrModel> },
    Else { body: Seq<InstrModel> },
    While { condition: ValueModel, body: Seq<InstrModel> },
    Scope { body: Seq<InstrModel> },
    Value { value: ValueModel },
    Break,
    Print { message: ValueModel },
    Input { variable: Seq<char> },
}

pub open spec fn instr_view(i: Instruction) -> InstrModel
    decreases i,
{
    match i {
        Instruction::If { condition, instructions } => InstrModel::If {
            condition: value_view(condition),
            body: instrs_view(instructions@),
        },
        Instruction::Else { instructions } => InstrModel::Else {
            body: instrs_view(instructions@),
        },
        Instruction::While { condition, instructions } => InstrModel::While {
            condition: value_view(condition),
            body: instrs_view(instructions@),
        },
        Instruction::Scope { instructions } => InstrModel::Scope {
            body: instrs_view(instructions@),
        },
        Instruction::Value { value } => InstrModel::Value { value: value_view(value) },
        Instruction::Break => InstrModel::Break,
        Instruction::Print { message } => InstrModel::Print { message: value_view(message) },
        Instruction::Input { variable } => InstrModel::Input { variable: variable@ },
    }
}

pub open spec fn instrs_view(s: Seq<Instruction>) -> Seq<InstrModel>
    decreases s,
{
    if s.len() == 0 {
        Seq::empty()
    } else {
        instrs_view(s.drop_last()).push(instr_view(s.last()))
    }
}

/// `instrs_view` maps `instr_view` over the sequence, element by element.
pub proof fn lemma_instrs_view_points(s: Seq<Instruction>)
    ensures
        instrs_view(s).len() == s.len(),
        forall|i: int| 0 <= i < s.len() ==> instrs_view(s)[i] == instr_view(s[i]),
    decreases s.len(),
{
    if s.len() > 0 {
        lemma_instrs_view_points(s.drop_last());
    }
}

impl DeepView for Instruction {
    type V = InstrModel;

    open spec fn deep_view(&self) -> InstrModel {
        instr_view(*self)
    }
}

/// The two operators that form unary expression nodes.
pub open spec fn spec_is_operator_single(operator: Operator) -> bool {
    operator is Not || operator is Brackets
}

pub fn is_operator_single(operator: &Operator) -> (r: bool)
    ensures
        r == spec_is_operator_single(*operator),
{
    match operator {
        Operator::Not | Operator::Brackets => true,
        _ => false,
    }
}

impl Expression {
    /// Builds a binary node. Unary operators (negation, grouping) are left
    /// out: they take `new_not_or_bracket`.
    pub fn new(operator: Operator, left: Value, right: Value) -> (r: Self)
        requires
            !spec_is_operator_single(operator),
        ensures
            value_view(Value::Expression(Box::new(r))) == ValueModel::Binary(
                operator,
                Box::new(value_view(left)),
                Box::new(value_view(right)),
            ),
    {
        Self { operator, left: Box::new(left), right: Some(Box::new(right)) }
    }

    /// Builds a unary node for negation or grouping; binary operators are
    /// left out and take `new`.
    pub fn new_not_or_bracket(operator: Operator, value: Value) -> (r: Self)
        requires
            spec_is_operator_single(operator),
        ensures
            value_view(Value::Expression(Box::new(r))) == ValueModel::Unary(
                operator,
                Box::new(value_view(value)),
            ),
    {
        Self { operator, left: Box::new(value), right: None }
    }

    pub fn get_operator(&self) -> (r: &Operator)
        ensures
            *r == self.operator,
    {
        &self.operator
    }

    pub fn get_left(&self) -> (r: &Value)
        ensures
            value_view(*r) == value_view(*self.left),
    {
        &self.left
    }

    pub fn get_right(&self) -> (r: Option<&Value>)
        ensures
            match r {
                Some(v) => self.right is Some && value_view(*v) == value_view(*self.right->0),
                None => self.right is None,
            },
    {
        match &self.right {
            Some(v) => Some(&**v),
            None => None,
        }
    }
}

/// Tokens that may continue a bare expression statement.
pub open spec fn is_value_token(t: TokenModel) -> bool {
    t is Number || t is StrLit || t is Boolean || t is Identifier || t is Operator
        || t is BracketOpen || t is BracketClose
}

/// Tokens that may open a bare expression statement (a closing bracket may
/// continue one but not open it).
pub open spec fn opens_value_statement(t: TokenModel) -> bool {
    t is Number || t is StrLit || t is Boolean || t is Identifier || t is Operator
        || t is BracketOpen
}

/// Relative index at which a running bracket depth of `depth` falls to zero,
/// counting `(` up and `)` down; `None` where the span is unterminated.
pub open spec fn bracket_close_idx(ts: Seq<TokenModel>, depth: int) -> Option<int>
    recommends
        depth >= 1,
    decreases ts.len(),
{
    if ts.len() == 0 {
        None
    } else {
        let d = if ts[0] is BracketOpen {
            depth + 1
        } else if ts[0] is BracketClose {
            depth - 1
        } else {
            depth
        };
        if d == 0 {
            Some(0)
        } else {
            match bracket_close_idx(ts.skip(1), d) {
                Some(i) => Some(i + 1),
                None => None,
            }
        }
    }
}

/// Relative index at which a running scope depth of `depth` falls to zero,
/// counting `{` up and `}` down; `None` where the span is unterminated.
pub open spec fn scope_close_idx(ts: Seq<TokenModel>, depth: int) -> Option<int>
    recommends
        depth >= 1,
    decreases ts.len(),
{
    if ts.len() == 0 {
        None
    } else {
        let d = if ts[0] is ScopeOpen {
            depth + 1
        } else if ts[0] is ScopeClose {
            depth - 1
        } else {
            depth
        };
        if d == 0 {
            Some(0)
        } else {
            match scope_close_idx(ts.skip(1), d) {
                Some(i) => Some(i + 1),
                None => None,
            }
        }
    }
}



/// Parsing a value span with no left operand gathered yet: the first token
/// (or a parenthesized group) becomes the left operand.
pub open spec fn spec_parse_value(ts: Seq<TokenModel>) -> Result<ValueModel, ParserErrorModel>
    decreases ts.len(), 1int,
{
    if ts.len() == 0 {
        Err(ParserErrorModel::UnexpectedEnd)
    } else {
        match ts[0] {
            TokenModel::Identifier(s) => spec_pv_more(ValueModel::Identifier(s), ts.skip(1)),
            TokenModel::Number(n) => spec_pv_more(ValueModel::Number(n), ts.skip(1)),
            TokenModel::StrLit(s) => spec_pv_more(ValueModel::StrLit(s), ts.skip(1)),
            TokenModel::Boolean(b) => spec_pv_more(ValueModel::Boolean(b), ts.skip(1)),
            TokenModel::BracketOpen => match bracket_close_idx(ts.skip(1), 1) {
                None => Err(ParserErrorModel::UnexpectedEnd),
                Some(j0) => {
                    let j = if 0 <= j0 && j0 <= ts.len() - 2 {
                        j0
                    } else {
                        0
                    };
                    match spec_parse_value(ts.skip(1).take(j)) {
                        Err(e) => Err(e),
                        Ok(v) => spec_pv_more(v, ts.skip(2 + j)),
                    }
                },
            },
            TokenModel::BracketClose => Err(
                ParserErrorModel::UnexpectedToken(TokenModel::BracketClose),
            ),
            TokenModel::EndStatement => Err(ParserErrorModel::UnexpectedEnd),
            _ => Err(ParserErrorModel::UnexpectedToken(ts[0])),
        }
    }
}

/// Parsing the rest of a value span once a left operand `v` stands: a unary
/// operator wraps it, a binary operator takes the whole remaining span as its
/// right operand.
pub open spec fn spec_pv_more(v: ValueModel, ts: Seq<TokenModel>) -> Result<
    ValueModel,
    ParserErrorModel,
>
    decreases ts.len(), 0int,
{
    if ts.len() == 0 {
        Ok(v)
    } else {
        match ts[0] {
            TokenModel::Operator(op) => if spec_is_operator_single(op) {
                spec_pv_more(ValueModel::Unary(op, Box::new(v)), ts.skip(1))
            } else {
                match spec_parse_value(ts.skip(1)) {
                    Err(e) => Err(e),
                    Ok(r) => Ok(ValueModel::Binary(op, Box::new(v), Box::new(r))),
                }
            },
            _ => Err(ParserErrorModel::ExpectedToken(ts[0])),
        }
    }
}

/// The number of tokens a bare expression statement still spans, stopping
/// before its terminator or the end of the stream.
pub open spec fn expr_extent(ts: Seq<TokenModel>) -> Result<int, ParserErrorModel>
    decreases ts.len(),
{
    if ts.len() == 0 {
        Ok(0)
    } else if ts[0] is EndStatement {
        Ok(0)
    } else if is_value_token(ts[0]) {
        match expr_extent(ts.skip(1)) {
            Ok(n) => Ok(n + 1),
            Err(e) => Err(e),
        }
    } else {
        Err(ParserErrorModel::UnexpectedToken(ts[0]))
    }
}


/// The condition span of an `if`/`while`/`print`: an opening bracket, the
/// tokens up to its matching closer, and how many tokens that consumed.
pub open spec fn spec_take_brackets(rest: Seq<TokenModel>) -> Result<
    (Seq<TokenModel>, int),
    ParserErrorModel,
> {
    if rest.len() == 0 || !(rest[0] is BracketOpen) {
        Err(ParserErrorModel::ExpectedToken(TokenModel::BracketOpen))
    } else {
        match bracket_close_idx(rest.skip(1), 1) {
            None => Err(ParserErrorModel::UnexpectedEnd),
            Some(j0) => {
                let j = if 0 <= j0 && j0 <= rest.len() - 2 {
                    j0
                } else {
                    0
                };
                Ok((rest.skip(1).take(j), 2 + j))
            },
        }
    }
}

/// The block span of a statement: an opening brace, the tokens up to its
/// matching closer, and how many tokens that consumed.
pub open spec fn spec_take_scope(rest: Seq<TokenModel>) -> Result<
    (Seq<TokenModel>, int),
    ParserErrorModel,
> {
    if rest.len() == 0 || !(rest[0] is ScopeOpen) {
        Err(ParserErrorModel::ExpectedToken(TokenModel::ScopeOpen))
    } else {
        match scope_close_idx(rest.skip(1), 1) {
            None => Err(ParserErrorModel::UnexpectedEnd),
            Some(j0) => {
                let j = if 0 <= j0 && j0 <= rest.len() - 2 {
                    j0
                } else {
                    0
                };
                Ok((rest.skip(1).take(j), 2 + j))
            },
        }
    }
}

pub open spec fn cons_instr(
    i: InstrModel,
    rest: Result<Seq<InstrModel>, ParserErrorModel>,
) -> Result<Seq<InstrModel>, ParserErrorModel> {
    match rest {
        Ok(s) => Ok(seq![i] + s),
        Err(e) => Err(e),
    }
}

/// The statement parser over a token span: an ordered instruction sequence,
/// or the first error met.
pub open spec fn spec_parse(ts: Seq<TokenModel>) -> Result<Seq<InstrModel>, ParserErrorModel>
    decreases ts.len(),
{
    if ts.len() == 0 {
        Ok(Seq::empty())
    } else {
        match ts[0] {
            TokenModel::Comment(_) => spec_parse(ts.skip(1)),
            TokenModel::EndStatement => spec_parse(ts.skip(1)),
            TokenModel::Keyword(k) => match k {
                Keyword::If => match spec_take_brackets(ts.skip(1)) {
                    Err(e) => Err(e),
                    Ok((cspan, c1)) => match spec_parse_value(cspan) {
                        Err(e) => Err(e),
                        Ok(cond) => match spec_take_scope(ts.skip(1 + c1)) {
                            Err(e) => Err(e),
                            Ok((bspan, c2)) => match spec_parse(bspan) {
                                Err(e) => Err(e),
                                Ok(body) => cons_instr(
                                    InstrModel::If { condition: cond, body },
                                    spec_parse(ts.skip(1 + c1 + c2)),
                                ),
                            },
                        },
                    },
                },
                Keyword::While => match spec_take_brackets(ts.skip(1)) {
                    Err(e) => Err(e),
                    Ok((cspan, c1)) => match spec_parse_value(cspan) {
                        Err(e) => Err(e),
                        Ok(cond) => match spec_take_scope(ts.skip(1 + c1)) {
                            Err(e) => Err(e),
                            Ok((bspan, c2)) => match spec_parse(bspan) {
                                Err(e) => Err(e),
                                Ok(body) => cons_instr(
                                    InstrModel::While { condition: cond, body },
                                    spec_parse(ts.skip(1 + c1 + c2)),
                                ),
                            },
                        },
                    },
                },
                Keyword::Else => match spec_take_scope(ts.skip(1)) {
                    Err(e) => Err(e),
                    Ok((bspan, c)) => match spec_parse(bspan) {
                        Err(e) => Err(e),
                        Ok(body) => cons_instr(
                            InstrModel::Else { body },
                            spec_parse(ts.skip(1 + c)),
                        ),
                    },
                },
                Keyword::Print => match spec_take_brackets(ts.skip(1)) {
                    Err(e) => Err(e),
                    Ok((mspan, c1)) => match spec_parse_value(mspan) {
                        Err(e) => Err(e),
                        Ok(message) => cons_instr(
                            InstrModel::Print { message },
                            spec_parse(ts.skip(1 + c1)),
                        ),
                    },
                },
                Keyword::Input => if ts.len() >= 2 && ts[1] is Identifier {
                    cons_instr(
                        InstrModel::Input { variable: ts[1]->Identifier_0 },
                        spec_parse(ts.skip(2)),
                    )
                } else {
                    Err(ParserErrorModel::ExpectedToken(TokenModel::Identifier(Seq::empty())))
                },
                Keyword::Break => cons_instr(InstrModel::Break, spec_parse(ts.skip(1))),
            },
            TokenModel::ScopeOpen => match spec_take_scope(ts) {
                Err(e) => Err(e),
                Ok((bspan, c)) => match spec_parse(bspan) {
                    Err(e) => Err(e),
                    Ok(body) => cons_instr(InstrModel::Scope { body }, spec_parse(ts.skip(c))),
                },
            },
            _ => if opens_value_statement(ts[0]) {
                match expr_extent(ts.skip(1)) {
                    Err(e) => Err(e),
                    // The extent never exceeds the span; the test keeps the
                    // recursion well-founded.
                    Ok(n) => if 0 <= n && n + 1 <= ts.len() {
                        match spec_parse_value(ts.take(n + 1)) {
                            Err(e) => Err(e),
                            Ok(v) => cons_instr(
                                InstrModel::Value { value: v },
                                spec_parse(ts.skip(n + 1)),
                            ),
                        }
                    } else {
                        Err(ParserErrorModel::UnexpectedEnd)
                    },
                }
            } else {
                Err(ParserErrorModel::UnexpectedToken(ts[0]))
            },
        }
    }
}

pub open spec fn value_result_view(r: Result<Value, ParserError>) -> Result<
    ValueModel,
    ParserErrorModel,
> {
    match r {
        Ok(v) => Ok(value_view(v)),
        Err(e) => Err(e.deep_view()),
    }
}

pub open spec fn parse_result_view(r: Result<Vec<Instruction>, ParserError>) -> Result<
    Seq<InstrModel>,
    ParserErrorModel,
> {
    match r {
        Ok(v) => Ok(instrs_view(v@)),
        Err(e) => Err(e.deep_view()),
    }
}

/// Prepending already-parsed instructions to the outcome of parsing the rest.
pub open spec fn with_prefix(
    pre: Seq<InstrModel>,
    rest: Result<Seq<InstrModel>, ParserErrorModel>,
) -> Result<Seq<InstrModel>, ParserErrorModel> {
    match rest {
        Ok(s) => Ok(pre + s),
        Err(e) => Err(e),
    }
}

proof fn lemma_with_prefix_cons(
    pre: Seq<InstrModel>,
    i: InstrModel,
    rest: Result<Seq<InstrModel>, ParserErrorModel>,
)
    ensures
        with_prefix(pre, cons_instr(i, rest)) == with_prefix(pre.push(i), rest),
{
    match rest {
        Ok(s) => {
            assert(pre + (seq![i] + s) =~= pre.push(i) + s);
        },
        Err(_) => {},
    }
}

fn find_bracket_close(t: &Vec<Token>, lo: usize, hi: usize) -> (r: Option<usize>)
    requires
        lo <= hi <= t@.len(),
    ensures
        match r {
            Some(k) => lo <= k < hi && bracket_close_idx(
                t.deep_view().subrange(lo as int, hi as int),
                1,
            ) == Some(k - lo),
            None => bracket_close_idx(t.deep_view().subrange(lo as int, hi as int), 1) is None,
        },
{
    let ghost tv = t.deep_view();
    let mut i: usize = lo;
    let mut depth: u128 = 1;
    while i < hi
        invariant
            lo <= i <= hi <= t@.len(),
            tv == t.deep_view(),
            1 <= depth <= 1 + (i - lo),
            match bracket_close_idx(tv.subrange(i as int, hi as int), depth as int) {
                Some(j) => bracket_close_idx(tv.subrange(lo as int, hi as int), 1) == Some(
                    j + i - lo,
                ),
                None => bracket_close_idx(tv.subrange(lo as int, hi as int), 1) is None,
            },
        decreases hi - i,
    {
        let ghost pre = tv.subrange(i as int, hi as int);
        proof {
            assert(pre[0] == tv[i as int]);
            assert(tv[i as int] == t@[i as int].deep_view());
            assert(pre.skip(1) =~= tv.subrange(i as int + 1, hi as int));
        }
        let d = match &t[i] {
            Token::BracketOpen => depth + 1,
            Token::BracketClose => depth - 1,
            _ => depth,
        };
        if d == 0 {
            return Some(i);
        }
        depth = d;
        i = i + 1;
    }
    proof {
        assert(tv.subrange(i as int, hi as int).len() == 0);
    }
    None
}

fn find_scope_close(t: &Vec<Token>, lo: usize, hi: usize) -> (r: Option<usize>)
    requires
        lo <= hi <= t@.len(),
    ensures
        match r {
            Some(k) => lo <= k < hi && scope_close_idx(
                t.deep_view().subrange(lo as int, hi as int),
                1,
            ) == Some(k - lo),
            None => scope_close_idx(t.deep_view().subrange(lo as int, hi as int), 1) is None,
        },
{
    let ghost tv = t.deep_view();
    let mut i: usize = lo;
    let mut depth: u128 = 1;
    while i < hi
        invariant
            lo <= i <= hi <= t@.len(),
            tv == t.deep_view(),
            1 <= depth <= 1 + (i - lo),
            match scope_close_idx(tv.subrange(i as int, hi as int), depth as int) {
                Some(j) => scope_close_idx(tv.subrange(lo as int, hi as int), 1) == Some(
                    j + i - lo,
                ),
                None => scope_close_idx(tv.subrange(lo as int, hi as int), 1) is None,
            },
        decreases hi - i,
    {
        let ghost pre = tv.subrange(i as int, hi as int);
        proof {
            assert(pre[0] == tv[i as int]);
            assert(tv[i as int] == t@[i as int].deep_view());
            assert(pre.skip(1) =~= tv.subrange(i as int + 1, hi as int));
        }
        let d = match &t[i] {
            Token::ScopeOpen => depth + 1,
            Token::ScopeClose => depth - 1,
            _ => depth,
        };
        if d == 0 {
            return Some(i);
        }
        depth = d;
        i = i + 1;
    }
    proof {
        assert(tv.subrange(i as int, hi as int).len() == 0);
    }
    None
}

fn parse_value_at(t: &Vec<Token>, lo: usize, hi: usize) -> (r: Result<Value, ParserError>)
    requires
        lo <= hi <= t@.len(),
    ensures
        value_result_view(r) == spec_parse_value(t.deep_view().subrange(lo as int, hi as int)),
    decreases hi - lo, 1int,
{
    let ghost tv = t.deep_view();
    let ghost ts = tv.subrange(lo as int, hi as int);
    if lo == hi {
        return Err(ParserError::UnexpectedEnd);
    }
    proof {
        assert(ts[0] == tv[lo as int]);
        assert(tv[lo as int] == t@[lo as int].deep_view());
        assert(ts.skip(1) =~= tv.subrange(lo as int + 1, hi as int));
    }
    match &t[lo] {
        Token::Identifier(s) => pv_more_at(Value::Identifier(s.clone()), t, lo + 1, hi),
        Token::Number(n) => pv_more_at(Value::Number(*n), t, lo + 1, hi),
        Token::String(s) => pv_more_at(Value::String(s.clone()), t, lo + 1, hi),
        Token::Boolean(b) => pv_more_at(Value::Boolean(*b), t, lo + 1, hi),
        Token::BracketOpen => {
            match find_bracket_close(t, lo + 1, hi) {
                None => Err(ParserError::UnexpectedEnd),
                Some(k) => {
                    proof {
                        assert(ts.skip(1).take(k - lo - 1) =~= tv.subrange(lo as int + 1, k as int));
                        assert(ts.skip(2 + (k - lo - 1)) =~= tv.subrange(k as int + 1, hi as int));
                    }
                    match parse_value_at(t, lo + 1, k) {
                        Err(e) => Err(e),
                        Ok(v) => pv_more_at(v, t, k + 1, hi),
                    }
                },
            }
        },
        Token::BracketClose => Err(ParserError::UnexpectedToken(Token::BracketClose)),
        Token::EndStatement => Err(ParserError::UnexpectedEnd),
        _ => Err(ParserError::UnexpectedToken(t[lo].duplicate())),
    }
}

fn pv_more_at(v: Value, t: &Vec<Token>, lo: usize, hi: usize) -> (r: Result<Value, ParserError>)
    requires
        lo <= hi <= t@.len(),
    ensures
        value_result_view(r) == spec_pv_more(
            value_view(v),
            t.deep_view().subrange(lo as int, hi as int),
        ),
    decreases hi - lo, 0int,
{
    let ghost tv = t.deep_view();
    let ghost ts = tv.subrange(lo as int, hi as int);
    if lo == hi {
        return Ok(v);
    }
    proof {
        assert(ts[0] == tv[lo as int]);
        assert(tv[lo as int] == t@[lo as int].deep_view());
        assert(ts.skip(1) =~= tv.subrange(lo as int + 1, hi as int));
    }
    match &t[lo] {
        Token::Operator(op) => {
            if is_operator_single(op) {
                let wrapped = Value::Expression(Box::new(Expression::new_not_or_bracket(*op, v)));
                pv_more_at(wrapped, t, lo + 1, hi)
            } else {
                match parse_value_at(t, lo + 1, hi) {
                    Err(e) => Err(e),
                    Ok(rv) => Ok(Value::Expression(Box::new(Expression::new(*op, v, rv)))),
                }
            }
        },
        _ => Err(ParserError::ExpectedToken(t[lo].duplicate())),
    }
}

fn scan_expr_extent(t: &Vec<Token>, lo: usize, hi: usize) -> (r: Result<usize, ParserError>)
    requires
        lo <= hi <= t@.len(),
    ensures
        match r {
            Ok(n) => lo + n <= hi && expr_extent(t.deep_view().subrange(lo as int, hi as int))
                == Ok::<int, ParserErrorModel>(n as int),
            Err(e) => expr_extent(t.deep_view().subrange(lo as int, hi as int))
                == Err::<int, ParserErrorModel>(e.deep_view()),
        },
    decreases hi - lo,
{
    let ghost tv = t.deep_view();
    let ghost ts = tv.subrange(lo as int, hi as int);
    if lo == hi {
        return Ok(0);
    }
    proof {
        assert(ts[0] == tv[lo as int]);
        assert(tv[lo as int] == t@[lo as int].deep_view());
        assert(ts.skip(1) =~= tv.subrange(lo as int + 1, hi as int));
    }
    match &t[lo] {
        Token::EndStatement => Ok(0),
        Token::Number(_) | Token::String(_) | Token::Boolean(_) | Token::Identifier(_)
            | Token::Operator(_) | Token::BracketOpen | Token::BracketClose => {
            match scan_expr_extent(t, lo + 1, hi) {
                Ok(n) => Ok(n + 1),
                Err(e) => Err(e),
            }
        },
        _ => Err(ParserError::UnexpectedToken(t[lo].duplicate())),
    }
}

/// What one successfully parsed statement hands back: the instruction and
/// the index just past the tokens it consumed.
fn parse_if_while_at(t: &Vec<Token>, i: usize, hi: usize, is_if: bool) -> (r: Result<
    (Instruction, usize),
    ParserError,
>)
    requires
        i < hi <= t@.len(),
        t@[i as int].deep_view() == TokenModel::Keyword(
            if is_if {
                Keyword::If
            } else {
                Keyword::While
            },
        ),
    ensures
        match r {
            Ok((instr, ni)) => i < ni <= hi && spec_parse(
                t.deep_view().subrange(i as int, hi as int),
            ) == cons_instr(
                instr_view(instr),
                spec_parse(t.deep_view().subrange(ni as int, hi as int)),
            ),
            Err(e) => spec_parse(t.deep_view().subrange(i as int, hi as int))
                == Err::<Seq<InstrModel>, ParserErrorModel>(e.deep_view()),
        },
    decreases hi - i, 0int,
{
    let ghost tv = t.deep_view();
    let ghost ts = tv.subrange(i as int, hi as int);
    proof {
        assert(ts[0] == tv[i as int]);
        assert(tv[i as int] == t@[i as int].deep_view());
        assert(ts.skip(1) =~= tv.subrange(i as int + 1, hi as int));
    }
    if i + 1 == hi || !matches!(&t[i + 1], Token::BracketOpen) {
        proof {
            if i + 1 < hi {
                assert(ts.skip(1)[0] == tv[i as int + 1]);
                assert(tv[i as int + 1] == t@[i as int + 1].deep_view());
            }
        }
        return Err(ParserError::ExpectedToken(Token::BracketOpen));
    }
    proof {
        assert(ts.skip(1)[0] == tv[i as int + 1]);
        assert(tv[i as int + 1] == t@[i as int + 1].deep_view());
        assert(ts.skip(1).skip(1) =~= tv.subrange(i as int + 2, hi as int));
    }
    match find_bracket_close(t, i + 2, hi) {
        None => Err(ParserError::UnexpectedEnd),
        Some(k2) => {
            let ghost j = k2 - (i + 2);
            let ghost c1 = 2 + j;
            proof {
                assert(ts.skip(1).skip(1).take(j as int) =~= tv.subrange(i as int + 2, k2 as int));
            }
            let cond = match parse_value_at(t, i + 2, k2) {
                Err(e) => {
                    return Err(e);
                },
                Ok(c) => c,
            };
            proof {
                assert(ts.skip(1 + c1) =~= tv.subrange(k2 as int + 1, hi as int));
            }
            if k2 + 1 == hi || !matches!(&t[k2 + 1], Token::ScopeOpen) {
                proof {
                    if k2 + 1 < hi {
                        assert(ts.skip(1 + c1)[0] == tv[k2 as int + 1]);
                        assert(tv[k2 as int + 1] == t@[k2 as int + 1].deep_view());
                    }
                }
                return Err(ParserError::ExpectedToken(Token::ScopeOpen));
            }
            proof {
                assert(ts.skip(1 + c1)[0] == tv[k2 as int + 1]);
                assert(tv[k2 as int + 1] == t@[k2 as int + 1].deep_view());
                assert(ts.skip(1 + c1).skip(1) =~= tv.subrange(k2 as int + 2, hi as int));
            }
            match find_scope_close(t, k2 + 2, hi) {
                None => Err(ParserError::UnexpectedEnd),
                Some(m) => {
                    let ghost j2 = m - (k2 + 2);
                    let ghost c2 = 2 + j2;
                    proof {
                        assert(ts.skip(1 + c1).skip(1).take(j2 as int) =~= tv.subrange(
                            k2 as int + 2,
                            m as int,
                        ));
                    }
                    let body = match parse_stmts(t, k2 + 2, m) {
                        Err(e) => {
                            return Err(e);
                        },
                        Ok(b) => b,
                    };
                    let instr = if is_if {
                        Instruction::If { condition: cond, instructions: body }
                    } else {
                        Instruction::While { condition: cond, instructions: body }
                    };
                    proof {
                        assert(ts.skip(1 + c1 + c2) =~= tv.subrange(m as int + 1, hi as int));
                    }
                    Ok((instr, m + 1))
                },
            }
        },
    }
}

fn parse_else_at(t: &Vec<Token>, i: usize, hi: usize) -> (r: Result<(Instruction, usize), ParserError>)
    requires
        i < hi <= t@.len(),
        t@[i as int].deep_view() == TokenModel::Keyword(Keyword::Else),
    ensures
        match r {
            Ok((instr, ni)) => i < ni <= hi && spec_parse(
                t.deep_view().subrange(i as int, hi as int),
            ) == cons_instr(
                instr_view(instr),
                spec_parse(t.deep_view().subrange(ni as int, hi as int)),
            ),
            Err(e) => spec_parse(t.deep_view().subrange(i as int, hi as int))
                == Err::<Seq<InstrModel>, ParserErrorModel>(e.deep_view()),
        },
    decreases hi - i, 0int,
{
    let ghost tv = t.deep_view();
    let ghost ts = tv.subrange(i as int, hi as int);
    proof {
        assert(ts[0] == tv[i as int]);
        assert(tv[i as int] == t@[i as int].deep_view());
        assert(ts.skip(1) =~= tv.subrange(i as int + 1, hi as int));
    }
    if i + 1 == hi || !matches!(&t[i + 1], Token::ScopeOpen) {
        proof {
            if i + 1 < hi {
                assert(ts.skip(1)[0] == tv[i as int + 1]);
                assert(tv[i as int + 1] == t@[i as int + 1].deep_view());
            }
        }
        return Err(ParserError::ExpectedToken(Token::ScopeOpen));
    }
    proof {
        assert(ts.skip(1)[0] == tv[i as int + 1]);
        assert(tv[i as int + 1] == t@[i as int + 1].deep_view());
        assert(ts.skip(1).skip(1) =~= tv.subrange(i as int + 2, hi as int));
    }
    match find_scope_close(t, i + 2, hi) {
        None => Err(ParserError::UnexpectedEnd),
        Some(m) => {
            let ghost j2 = m - (i + 2);
            let ghost c = 2 + j2;
            proof {
                assert(ts.skip(1).skip(1).take(j2 as int) =~= tv.subrange(i as int + 2, m as int));
            }
            let body = match parse_stmts(t, i + 2, m) {
                Err(e) => {
                    return Err(e);
                },
                Ok(b) => b,
            };
            let instr = Instruction::Else { instructions: body };
            proof {
                assert(ts.skip(1 + c) =~= tv.subrange(m as int + 1, hi as int));
            }
            Ok((instr, m + 1))
        },
    }
}

fn parse_print_at(t: &Vec<Token>, i: usize, hi: usize) -> (r: Result<(Instruction, usize), ParserError>)
    requires
        i < hi <= t@.len(),
        t@[i as int].deep_view() == TokenModel::Keyword(Keyword::Print),
    ensures
        match r {
            Ok((instr, ni)) => i < ni <= hi && spec_parse(
                t.deep_view().subrange(i as int, hi as int),
            ) == cons_instr(
                instr_view(instr),
                spec_parse(t.deep_view().subrange(ni as int, hi as int)),
            ),
            Err(e) => spec_parse(t.deep_view().subrange(i as int, hi as int))
                == Err::<Seq<InstrModel>, ParserErrorModel>(e.deep_view()),
        },
{
    let ghost tv = t.deep_view();
    let ghost ts = tv.subrange(i as int, hi as int);
    proof {
        assert(ts[0] == tv[i as int]);
        assert(tv[i as int] == t@[i as int].deep_view());
        assert(ts.skip(1) =~= tv.subrange(i as int + 1, hi as int));
    }
    if i + 1 == hi || !matches!(&t[i + 1], Token::BracketOpen) {
        proof {
            if i + 1 < hi {
                assert(ts.skip(1)[0] == tv[i as int + 1]);
                assert(tv[i as int + 1] == t@[i as int + 1].deep_view());
            }
        }
        return Err(ParserError::ExpectedToken(Token::BracketOpen));
    }
    proof {
        assert(ts.skip(1)[0] == tv[i as int + 1]);
        assert(tv[i as int + 1] == t@[i as int + 1].deep_view());
        assert(ts.skip(1).skip(1) =~= tv.subrange(i as int + 2, hi as int));
    }
    match find_bracket_close(t, i + 2, hi) {
        None => Err(ParserError::UnexpectedEnd),
        Some(k2) => {
            let ghost j = k2 - (i + 2);
            let ghost c1 = 2 + j;
            proof {
                assert(ts.skip(1).skip(1).take(j as int) =~= tv.subrange(i as int + 2, k2 as int));
            }
            let message = match parse_value_at(t, i + 2, k2) {
                Err(e) => {
                    return Err(e);
                },
                Ok(c) => c,
            };
            let instr = Instruction::Print { message };
            proof {
                assert(ts.skip(1 + c1) =~= tv.subrange(k2 as int + 1, hi as int));
            }
            Ok((instr, k2 + 1))
        },
    }
}

fn parse_scope_stmt_at(t: &Vec<Token>, i: usize, hi: usize) -> (r: Result<
    (Instruction, usize),
    ParserError,
>)
    requires
        i < hi <= t@.len(),
        t@[i as int].deep_view() == TokenModel::ScopeOpen,
    ensures
        match r {
            Ok((instr, ni)) => i < ni <= hi && spec_parse(
                t.deep_view().subrange(i as int, hi as int),
            ) == cons_instr(
                instr_view(instr),
                spec_parse(t.deep_view().subrange(ni as int, hi as int)),
            ),
            Err(e) => spec_parse(t.deep_view().subrange(i as int, hi as int))
                == Err::<Seq<InstrModel>, ParserErrorModel>(e.deep_view()),
        },
    decreases hi - i, 0int,
{
    let ghost tv = t.deep_view();
    let ghost ts = tv.subrange(i as int, hi as int);
    proof {
        assert(ts[0] == tv[i as int]);
        assert(tv[i as int] == t@[i as int].deep_view());
        assert(ts.skip(1) =~= tv.subrange(i as int + 1, hi as int));
    }
    match find_scope_close(t, i + 1, hi) {
        None => Err(ParserError::UnexpectedEnd),
        Some(m) => {
            let ghost j2 = m - (i + 1);
            let ghost c = 2 + j2;
            proof {
                assert(ts.skip(1).take(j2 as int) =~= tv.subrange(i as int + 1, m as int));
            }
            let body = match parse_stmts(t, i + 1, m) {
                Err(e) => {
                    return Err(e);
                },
                Ok(b) => b,
            };
            let instr = Instruction::Scope { instructions: body };
            proof {
                assert(ts.skip(c) =~= tv.subrange(m as int + 1, hi as int));
            }
            Ok((instr, m + 1))
        },
    }
}

fn parse_value_stmt_at(t: &Vec<Token>, i: usize, hi: usize) -> (r: Result<
    (Instruction, usize),
    ParserError,
>)
    requires
        i < hi <= t@.len(),
        opens_value_statement(t@[i as int].deep_view()),
    ensures
        match r {
            Ok((instr, ni)) => i < ni <= hi && spec_parse(
                t.deep_view().subrange(i as int, hi as int),
            ) == cons_instr(
                instr_view(instr),
                spec_parse(t.deep_view().subrange(ni as int, hi as int)),
            ),
            Err(e) => spec_parse(t.deep_view().subrange(i as int, hi as int))
                == Err::<Seq<InstrModel>, ParserErrorModel>(e.deep_view()),
        },
{
    let ghost tv = t.deep_view();
    let ghost ts = tv.subrange(i as int, hi as int);
    proof {
        assert(ts[0] == tv[i as int]);
        assert(tv[i as int] == t@[i as int].deep_view());
        assert(ts.skip(1) =~= tv.subrange(i as int + 1, hi as int));
    }
    let n = match scan_expr_extent(t, i + 1, hi) {
        Err(e) => {
            return Err(e);
        },
        Ok(n) => n,
    };
    let j = i + 1 + n;
    proof {
        assert(ts.take(n as int + 1) =~= tv.subrange(i as int, j as int));
    }
    let v = match parse_value_at(t, i, j) {
        Err(e) => {
            return Err(e);
        },
        Ok(v) => v,
    };
    let instr = Instruction::Value { value: v };
    proof {
        assert(ts.skip(n as int + 1) =~= tv.subrange(j as int, hi as int));
    }
    Ok((instr, j))
}

#[verifier::rlimit(50)]
fn parse_stmts(t: &Vec<Token>, lo: usize, hi: usize) -> (r: Result<Vec<Instruction>, ParserError>)
    requires
        lo <= hi <= t@.len(),
    ensures
        parse_result_view(r) == spec_parse(t.deep_view().subrange(lo as int, hi as int)),
    decreases hi - lo, 1int,
{
    let ghost tv = t.deep_view();
    let mut acc: Vec<Instruction> = Vec::new();
    let mut i: usize = lo;
    proof {
        assert(instrs_view(acc@) =~= Seq::<InstrModel>::empty());
    }
    while i < hi
        invariant
            lo <= i <= hi <= t@.len(),
            tv == t.deep_view(),
            with_prefix(instrs_view(acc@), spec_parse(tv.subrange(i as int, hi as int)))
                == spec_parse(tv.subrange(lo as int, hi as int)),
        decreases hi - i,
    {
        let ghost ts = tv.subrange(i as int, hi as int);
        proof {
            assert(ts[0] == tv[i as int]);
            assert(tv[i as int] == t@[i as int].deep_view());
            assert(ts.skip(1) =~= tv.subrange(i as int + 1, hi as int));
        }
        let ghost acc0 = acc@;
        let ghost pre = instrs_view(acc@);
        let step: Option<(Instruction, usize)> = match &t[i] {
            Token::Comment(_) => {
                i = i + 1;
                None
            },
            Token::EndStatement => {
                i = i + 1;
                None
            },
            Token::Keyword(k) => {
                let one = match k {
                    Keyword::If => parse_if_while_at(t, i, hi, true),
                    Keyword::While => parse_if_while_at(t, i, hi, false),
                    Keyword::Else => parse_else_at(t, i, hi),
                    Keyword::Print => parse_print_at(t, i, hi),
                    Keyword::Input => {
                        if i + 1 < hi {
                            proof {
                                assert(ts[1] == tv[i as int + 1]);
                                assert(tv[i as int + 1] == t@[i as int + 1].deep_view());
                            }
                            match &t[i + 1] {
                                Token::Identifier(name) => {
                                    proof {
                                        assert(ts.skip(2) =~= tv.subrange(
                                            i as int + 2,
                                            hi as int,
                                        ));
                                    }
                                    Ok((Instruction::Input { variable: name.clone() }, i + 2))
                                },
                                _ => Err(ParserError::ExpectedToken(
                                    Token::Identifier(String::new()),
                                )),
                            }
                        } else {
                            Err(ParserError::ExpectedToken(Token::Identifier(String::new())))
                        }
                    },
                    Keyword::Break => Ok((Instruction::Break, i + 1)),
                };
                match one {
                    Err(e) => {
                        return Err(e);
                    },
                    Ok(p) => Some(p),
                }
            },
            Token::ScopeOpen => {
                match parse_scope_stmt_at(t, i, hi) {
                    Err(e) => {
                        return Err(e);
                    },
                    Ok(p) => Some(p),
                }
            },
            Token::ScopeClose | Token::BracketClose => {
                return Err(ParserError::UnexpectedToken(t[i].duplicate()));
            },
            _ => {
                match parse_value_stmt_at(t, i, hi) {
                    Err(e) => {
                        return Err(e);
                    },
                    Ok(p) => Some(p),
                }
            },
        };
        if let Some((instr, ni)) = step {
            proof {
                lemma_with_prefix_cons(
                    pre,
                    instr_view(instr),
                    spec_parse(tv.subrange(ni as int, hi as int)),
                );
            }
            acc.push(instr);
            proof {
                assert(acc@.drop_last() =~= acc0);
                assert(instrs_view(acc@) == pre.push(instr_view(instr)));
            }
            i = ni;
        }
    }
    proof {
        assert(tv.subrange(i as int, hi as int).len() == 0);
        assert(instrs_view(acc@) + Seq::<InstrModel>::empty() =~= instrs_view(acc@));
    }
    Ok(acc)
}

/// Parses a full token stream into an instruction sequence, or reports the
/// first syntactic error: a missing expected token, a token no statement may
/// hold, or an unterminated bracket or scope span.
pub fn parse(tokens: Vec<Token>) -> (r: Result<Vec<Instruction>, ParserError>)
    ensures
        parse_result_view(r) == spec_parse(tokens.deep_view()),
{
    proof {
        assert(tokens.deep_view().subrange(0, tokens@.len() as int) =~= tokens.deep_view());
    }
    parse_stmts(&tokens, 0, tokens.len())
}

/// The expression a single value token denotes.
pub open spec fn leaf_of(t: TokenModel) -> ValueModel {
    match t {
        TokenModel::Number(n) => ValueModel::Number(n),
        TokenModel::StrLit(s) => ValueModel::StrLit(s),
        TokenModel::Boolean(b) => ValueModel::Boolean(b),
        TokenModel::Identifier(s) => ValueModel::Identifier(s),
        _ => ValueModel::Identifier(Seq::empty()),
    }
}

pub open spec fn is_leaf_token(t: TokenModel) -> bool {
    t is Number || t is StrLit || t is Boolean || t is Identifier
}

/// Right-associativity: with no precedence or associativity table, a chain
/// `a ⊕ b ⊗ c` of binary operators parses with the entire tail as the right
/// operand, so it nests to the right: `a ⊕ (b ⊗ c)`.
pub proof fn lemma_right_associative(
    a: TokenModel,
    o1: Operator,
    b: TokenModel,
    o2: Operator,
    c: TokenModel,
)
    requires
        !spec_is_operator_single(o1),
        !spec_is_operator_single(o2),
        is_leaf_token(a),
        is_leaf_token(b),
        is_leaf_token(c),
    ensures
        spec_parse_value(
            seq![a, TokenModel::Operator(o1), b, TokenModel::Operator(o2), c],
        ) == Ok::<ValueModel, ParserErrorModel>(
            ValueModel::Binary(
                o1,
                Box::new(leaf_of(a)),
                Box::new(
                    ValueModel::Binary(o2, Box::new(leaf_of(b)), Box::new(leaf_of(c))),
                ),
            ),
        ),
{
    let ts = seq![a, TokenModel::Operator(o1), b, TokenModel::Operator(o2), c];
    let s4 = seq![TokenModel::Operator(o1), b, TokenModel::Operator(o2), c];
    let s3 = seq![b, TokenModel::Operator(o2), c];
    let s2 = seq![TokenModel::Operator(o2), c];
    let s1 = seq![c];
    assert(ts.skip(1) =~= s4);
    assert(s4.skip(1) =~= s3);
    assert(s3.skip(1) =~= s2);
    assert(s2.skip(1) =~= s1);
    assert(s1.skip(1) =~= Seq::<TokenModel>::empty());
    let vc = leaf_of(c);
    let vb = leaf_of(b);
    let va = leaf_of(a);
    assert(spec_pv_more(vc, s1.skip(1)) == Ok::<ValueModel, ParserErrorModel>(vc));
    assert(spec_parse_value(s1) == Ok::<ValueModel, ParserErrorModel>(vc));
    let inner = ValueModel::Binary(o2, Box::new(vb), Box::new(vc));
    assert(spec_pv_more(vb, s2) == Ok::<ValueModel, ParserErrorModel>(inner));
    assert(spec_parse_value(s3) == Ok::<ValueModel, ParserErrorModel>(inner));
    let outer = ValueModel::Binary(o1, Box::new(va), Box::new(inner));
    assert(spec_pv_more(va, s4) == Ok::<ValueModel, ParserErrorModel>(outer));
    assert(spec_parse_value(ts) == Ok::<ValueModel, ParserErrorModel>(outer));
}

} // verus!
