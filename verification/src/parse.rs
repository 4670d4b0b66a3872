//! Recursive-descent parsing with explicit precedence levels.
//!
//! The expression grammar, lowest to highest precedence, left-associative
//! at every binary level:
//!
//! ```text
//! expression  := equality
//! equality    := comparison (("==" | "!=") comparison)*
//! comparison  := term (("<" | "<=" | ">" | ">=") term)*
//! term        := factor (("+" | "-") factor)*
//! factor      := unary (("*" | "/") unary)*
//! unary       := ("-" | "!") unary | primary
//! primary     := NUMBER | STRING | "true" | "false" | "nil"
//!              | IDENTIFIER | "(" expression ")"
//! ```
//!
//! Each binary level parses one operand at the next-higher level, then
//! folds further operands in from the left.  Statements are dispatched on
//! the next token; an `if` requires both branches.  The cursor only ever
//! moves forward.  A failure is a `SyntaxError` carrying a message and
//! the offending token's line.

use vstd::prelude::*;

use crate::ErrorModel;
use crate::LoxError;
use crate::Token;
use crate::TokenModel;
use crate::TokenType;
use crate::Tokens;
use crate::ast::ExprModel;
use crate::ast::Expression;
use crate::ast::Op;
use crate::ast::Statement;
use crate::ast::Statements;
use crate::ast::StmtModel;
use crate::ast::stmts_view;
use crate::tokenize::spec_tokenize;
use crate::tokenize::tokenize;
use crate::tokenize::tokens_view;

verus! {

/// How many tokens remain at position `p`.
pub open spec fn rem_toks(ts: Seq<TokenModel>, p: int) -> nat {
    if p < 0 {
        ts.len() + 1
    } else if p <= ts.len() {
        (ts.len() - p) as nat
    } else {
        0
    }
}

/// Whether the token at `p` has kind `ty`; past the end of the tokens,
/// only `EOF` matches.
pub open spec fn spec_check(ts: Seq<TokenModel>, p: int, ty: TokenType) -> bool {
    (0 <= p < ts.len() && ts[p].toktype == ty) || (p >= ts.len() && ty == TokenType::EOF)
}

/// Whether a real token of kind `ty` stands at `p` (and can be consumed).
pub open spec fn spec_at(ts: Seq<TokenModel>, p: int, ty: TokenType) -> bool {
    0 <= p < ts.len() && ts[p].toktype == ty
}

/// The line a syntax error at position `p` is charged to: the token
/// there, or the last token when the input is exhausted.
pub open spec fn err_line(ts: Seq<TokenModel>, p: int) -> int {
    if 0 <= p < ts.len() {
        ts[p].line
    } else if ts.len() > 0 {
        ts[ts.len() - 1].line
    } else {
        0
    }
}

/// Requiring the token at `p` to be of kind `ty`: the next position, or a
/// syntax error carrying `msg` and the offending line.
pub open spec fn spec_consume(ts: Seq<TokenModel>, p: int, ty: TokenType, msg: Seq<char>) -> Result<
    int,
    ErrorModel,
> {
    if spec_at(ts, p, ty) {
        Ok(p + 1)
    } else {
        Err(ErrorModel::SynE { message: msg, line: err_line(ts, p) })
    }
}

/// The next position after a successful sub-parse; a parse always moves
/// forward, so the fallback arm is never taken on real results.
pub open spec fn bump(p: int, q: int) -> int {
    if q > p {
        q
    } else {
        p + 1
    }
}

// ---------------------------------------------------------------------
// Expressions, in specification form
// ---------------------------------------------------------------------

pub open spec fn spec_parse_primary(ts: Seq<TokenModel>, p: int) -> Result<
    (ExprModel, int),
    ErrorModel,
>
    decreases rem_toks(ts, p), 1nat,
{
    if spec_at(ts, p, TokenType::FALSE) {
        Ok((ExprModel::EBoolean(false), p + 1))
    } else if spec_at(ts, p, TokenType::TRUE) {
        Ok((ExprModel::EBoolean(true), p + 1))
    } else if spec_at(ts, p, TokenType::NIL) {
        Ok((ExprModel::ENil, p + 1))
    } else if spec_at(ts, p, TokenType::NUMBER) {
        Ok((ExprModel::ENumber(ts[p].lexeme), p + 1))
    } else if spec_at(ts, p, TokenType::STRING) {
        Ok((ExprModel::EString(ts[p].lexeme), p + 1))
    } else if spec_at(ts, p, TokenType::LPAREN) {
        match spec_parse_expression(ts, p + 1) {
            Ok((e, p1)) => match spec_consume(
                ts,
                p1,
                TokenType::RPAREN,
                "Expect ')' after expression."@,
            ) {
                Ok(p2) => Ok((ExprModel::EGroup(Box::new(e)), p2)),
                Err(er) => Err(er),
            },
            Err(er) => Err(er),
        }
    } else if spec_at(ts, p, TokenType::IDENTIFIER) {
        Ok((ExprModel::EName(ts[p].lexeme), p + 1))
    } else {
        Err(ErrorModel::SynE { message: "Expected a primary"@, line: err_line(ts, p) })
    }
}

pub open spec fn spec_parse_unary(ts: Seq<TokenModel>, p: int) -> Result<
    (ExprModel, int),
    ErrorModel,
>
    decreases rem_toks(ts, p), 2nat,
{
    if spec_at(ts, p, TokenType::MINUS) {
        match spec_parse_unary(ts, p + 1) {
            Ok((e, p1)) => Ok((ExprModel::EUnary(Op::OpMinus, Box::new(e)), p1)),
            Err(er) => Err(er),
        }
    } else if spec_at(ts, p, TokenType::BANG) {
        match spec_parse_unary(ts, p + 1) {
            Ok((e, p1)) => Ok((ExprModel::EUnary(Op::OpNot, Box::new(e)), p1)),
            Err(er) => Err(er),
        }
    } else {
        spec_parse_primary(ts, p)
    }
}

/// The operator a binary-level token stands for, at the factor level.
pub open spec fn factor_op(ty: TokenType) -> Option<Op> {
    if ty == TokenType::SLASH {
        Some(Op::OpDiv)
    } else if ty == TokenType::STAR {
        Some(Op::OpMult)
    } else {
        None
    }
}

pub open spec fn term_op(ty: TokenType) -> Option<Op> {
    if ty == TokenType::PLUS {
        Some(Op::OpPlus)
    } else if ty == TokenType::MINUS {
        Some(Op::OpMinus)
    } else {
        None
    }
}

pub open spec fn comparison_op(ty: TokenType) -> Option<Op> {
    if ty == TokenType::LT {
        Some(Op::OpLt)
    } else if ty == TokenType::LE {
        Some(Op::OpLe)
    } else if ty == TokenType::GT {
        Some(Op::OpGt)
    } else if ty == TokenType::GE {
        Some(Op::OpGe)
    } else {
        None
    }
}

pub open spec fn equality_op(ty: TokenType) -> Option<Op> {
    if ty == TokenType::EQ {
        Some(Op::OpEq)
    } else if ty == TokenType::NE {
        Some(Op::OpNe)
    } else {
        None
    }
}

pub open spec fn spec_factor_rest(ts: Seq<TokenModel>, p: int, acc: ExprModel) -> Result<
    (ExprModel, int),
    ErrorModel,
>
    decreases rem_toks(ts, p), 3nat,
{
    if 0 <= p < ts.len() && factor_op(ts[p].toktype) is Some {
        let op = factor_op(ts[p].toktype)->Some_0;
        match spec_parse_unary(ts, p + 1) {
            Ok((e2, p2)) => spec_factor_rest(
                ts,
                bump(p, p2),
                ExprModel::EBinary(op, Box::new(acc), Box::new(e2)),
            ),
            Err(er) => Err(er),
        }
    } else {
        Ok((acc, p))
    }
}

pub open spec fn spec_parse_factor(ts: Seq<TokenModel>, p: int) -> Result<
    (ExprModel, int),
    ErrorModel,
>
    decreases rem_toks(ts, p), 4nat,
{
    match spec_parse_unary(ts, p) {
        Ok((e, p1)) => spec_factor_rest(ts, bump(p - 1, p1), e),
        Err(er) => Err(er),
    }
}

pub open spec fn spec_term_rest(ts: Seq<TokenModel>, p: int, acc: ExprModel) -> Result<
    (ExprModel, int),
    ErrorModel,
>
    decreases rem_toks(ts, p), 5nat,
{
    if 0 <= p < ts.len() && term_op(ts[p].toktype) is Some {
        let op = term_op(ts[p].toktype)->Some_0;
        match spec_parse_factor(ts, p + 1) {
            Ok((e2, p2)) => spec_term_rest(
                ts,
                bump(p, p2),
                ExprModel::EBinary(op, Box::new(acc), Box::new(e2)),
            ),
            Err(er) => Err(er),
        }
    } else {
        Ok((acc, p))
    }
}

pub open spec fn spec_parse_term(ts: Seq<TokenModel>, p: int) -> Result<
    (ExprModel, int),
    ErrorModel,
>
    decreases rem_toks(ts, p), 6nat,
{
    match spec_parse_factor(ts, p) {
        Ok((e, p1)) => spec_term_rest(ts, bump(p - 1, p1), e),
        Err(er) => Err(er),
    }
}

pub open spec fn spec_comparison_rest(ts: Seq<TokenModel>, p: int, acc: ExprModel) -> Result<
    (ExprModel, int),
    ErrorModel,
>
    decreases rem_toks(ts, p), 7nat,
{
    if 0 <= p < ts.len() && comparison_op(ts[p].toktype) is Some {
        let op = comparison_op(ts[p].toktype)->Some_0;
        match spec_parse_term(ts, p + 1) {
            Ok((e2, p2)) => spec_comparison_rest(
                ts,
                bump(p, p2),
                ExprModel::EBinary(op, Box::new(acc), Box::new(e2)),
            ),
            Err(er) => Err(er),
        }
    } else {
        Ok((acc, p))
    }
}

pub open spec fn spec_parse_comparison(ts: Seq<TokenModel>, p: int) -> Result<
    (ExprModel, int),
    ErrorModel,
>
    decreases rem_toks(ts, p), 8nat,
{
    match spec_parse_term(ts, p) {
        Ok((e, p1)) => spec_comparison_rest(ts, bump(p - 1, p1), e),
        Err(er) => Err(er),
    }
}

pub open spec fn spec_equality_rest(ts: Seq<TokenModel>, p: int, acc: ExprModel) -> Result<
    (ExprModel, int),
    ErrorModel,
>
    decreases rem_toks(ts, p), 9nat,
{
    if 0 <= p < ts.len() && equality_op(ts[p].toktype) is Some {
        let op = equality_op(ts[p].toktype)->Some_0;
        match spec_parse_comparison(ts, p + 1) {
            Ok((e2, p2)) => spec_equality_rest(
                ts,
                bump(p, p2),
                ExprModel::EBinary(op, Box::new(acc), Box::new(e2)),
            ),
            Err(er) => Err(er),
        }
    } else {
        Ok((acc, p))
    }
}

pub open spec fn spec_parse_equality(ts: Seq<TokenModel>, p: int) -> Result<
    (ExprModel, int),
    ErrorModel,
>
    decreases rem_toks(ts, p), 10nat,
{
    match spec_parse_comparison(ts, p) {
        Ok((e, p1)) => spec_equality_rest(ts, bump(p - 1, p1), e),
        Err(er) => Err(er),
    }
}

pub open spec fn spec_parse_expression(ts: Seq<TokenModel>, p: int) -> Result<
    (ExprModel, int),
    ErrorModel,
>
    decreases rem_toks(ts, p), 11nat,
{
    spec_parse_equality(ts, p)
}

// ---------------------------------------------------------------------
// Statements, in specification form
// ---------------------------------------------------------------------

pub open spec fn spec_parse_print(ts: Seq<TokenModel>, p: int) -> Result<
    (StmtModel, int),
    ErrorModel,
>
    decreases rem_toks(ts, p), 13nat,
{
    match spec_consume(ts, p, TokenType::PRINT, "Expected 'print'"@) {
        Ok(p1) => match spec_parse_expression(ts, p1) {
            Ok((e, p2)) => match spec_consume(
                ts,
                p2,
                TokenType::SEMICOLON,
                "Expect ';' after expression."@,
            ) {
                Ok(p3) => Ok((StmtModel::SPrint(e), p3)),
                Err(er) => Err(er),
            },
            Err(er) => Err(er),
        },
        Err(er) => Err(er),
    }
}

pub open spec fn spec_parse_var(ts: Seq<TokenModel>, p: int) -> Result<
    (StmtModel, int),
    ErrorModel,
>
    decreases rem_toks(ts, p), 13nat,
{
    match spec_consume(ts, p, TokenType::VAR, "Expected 'var'"@) {
        Ok(p1) => match spec_consume(ts, p1, TokenType::IDENTIFIER, "Expected identifier"@) {
            Ok(p2) => {
                let name = ts[p1].lexeme;
                if spec_at(ts, p2, TokenType::ASSIGN) {
                    match spec_parse_expression(ts, p2 + 1) {
                        Ok((e, p3)) => match spec_consume(
                            ts,
                            p3,
                            TokenType::SEMICOLON,
                            "Expected ';'"@,
                        ) {
                            Ok(p4) => Ok((StmtModel::SVar(name, e), p4)),
                            Err(er) => Err(er),
                        },
                        Err(er) => Err(er),
                    }
                } else {
                    match spec_consume(ts, p2, TokenType::SEMICOLON, "Expected ';'"@) {
                        Ok(p3) => Ok((StmtModel::SVar(name, ExprModel::ENil), p3)),
                        Err(er) => Err(er),
                    }
                }
            },
            Err(er) => Err(er),
        },
        Err(er) => Err(er),
    }
}

pub open spec fn spec_parse_if(ts: Seq<TokenModel>, p: int) -> Result<(StmtModel, int), ErrorModel>
    decreases rem_toks(ts, p), 13nat,
{
    match spec_consume(ts, p, TokenType::IF, "Expected 'if'"@) {
        Ok(p1) => match spec_parse_expression(ts, p1) {
            Ok((t, p2)) => match spec_parse_statement(ts, bump(p, p2)) {
                Ok((c, p3)) => match spec_consume(ts, p3, TokenType::ELSE, "Expected 'else'"@) {
                    Ok(p4) => match spec_parse_statement(ts, bump(p, p4)) {
                        Ok((a, p5)) => Ok(
                            (StmtModel::SIf(t, Box::new(c), Box::new(a)), p5),
                        ),
                        Err(er) => Err(er),
                    },
                    Err(er) => Err(er),
                },
                Err(er) => Err(er),
            },
            Err(er) => Err(er),
        },
        Err(er) => Err(er),
    }
}

pub open spec fn spec_parse_while(ts: Seq<TokenModel>, p: int) -> Result<
    (StmtModel, int),
    ErrorModel,
>
    decreases rem_toks(ts, p), 13nat,
{
    match spec_consume(ts, p, TokenType::WHILE, "Expected 'while'"@) {
        Ok(p1) => match spec_parse_expression(ts, p1) {
            Ok((t, p2)) => match spec_parse_statement(ts, bump(p, p2)) {
                Ok((b, p3)) => Ok((StmtModel::SWhile(t, Box::new(b)), p3)),
                Err(er) => Err(er),
            },
            Err(er) => Err(er),
        },
        Err(er) => Err(er),
    }
}

pub open spec fn spec_parse_block(ts: Seq<TokenModel>, p: int) -> Result<
    (StmtModel, int),
    ErrorModel,
>
    decreases rem_toks(ts, p), 13nat,
{
    match spec_consume(ts, p, TokenType::LBRACE, "Expected '{'"@) {
        Ok(p1) => match spec_parse_statements(ts, p1) {
            Ok((ss, p2)) => match spec_consume(ts, p2, TokenType::RBRACE, "Expected '}'"@) {
                Ok(p3) => Ok((StmtModel::SBlock(ss), p3)),
                Err(er) => Err(er),
            },
            Err(er) => Err(er),
        },
        Err(er) => Err(er),
    }
}

pub open spec fn spec_parse_statement_expr(ts: Seq<TokenModel>, p: int) -> Result<
    (StmtModel, int),
    ErrorModel,
>
    decreases rem_toks(ts, p), 13nat,
{
    match spec_parse_expression(ts, p) {
        Ok((lv, p1)) => if spec_at(ts, p1, TokenType::ASSIGN) {
            match spec_parse_expression(ts, p1 + 1) {
                Ok((rv, p2)) => match spec_consume(
                    ts,
                    p2,
                    TokenType::SEMICOLON,
                    "Expect ';' after assignment."@,
                ) {
                    Ok(p3) => Ok((StmtModel::SAssignment(lv, rv), p3)),
                    Err(er) => Err(er),
                },
                Err(er) => Err(er),
            }
        } else {
            match spec_consume(ts, p1, TokenType::SEMICOLON, "Expect ';' after expression."@) {
                Ok(p2) => Ok((StmtModel::SExpr(lv), p2)),
                Err(er) => Err(er),
            }
        },
        Err(er) => Err(er),
    }
}

/// A statement is dispatched on the next token, without consuming it.
pub open spec fn spec_parse_statement(ts: Seq<TokenModel>, p: int) -> Result<
    (StmtModel, int),
    ErrorModel,
>
    decreases rem_toks(ts, p), 14nat,
{
    if spec_check(ts, p, TokenType::PRINT) {
        spec_parse_print(ts, p)
    } else if spec_check(ts, p, TokenType::IF) {
        spec_parse_if(ts, p)
    } else if spec_check(ts, p, TokenType::WHILE) {
        spec_parse_while(ts, p)
    } else if spec_check(ts, p, TokenType::VAR) {
        spec_parse_var(ts, p)
    } else if spec_check(ts, p, TokenType::LBRACE) {
        spec_parse_block(ts, p)
    } else {
        spec_parse_statement_expr(ts, p)
    }
}

/// Statements are parsed until end-of-input or a closing brace.
pub open spec fn spec_parse_statements(ts: Seq<TokenModel>, p: int) -> Result<
    (Seq<StmtModel>, int),
    ErrorModel,
>
    decreases rem_toks(ts, p), 15nat,
{
    if p < 0 || spec_check(ts, p, TokenType::EOF) || spec_check(ts, p, TokenType::RBRACE) {
        Ok((Seq::empty(), p))
    } else {
        match spec_parse_statement(ts, p) {
            Ok((s, p1)) => match spec_parse_statements(ts, bump(p, p1)) {
                Ok((rest, p2)) => Ok((seq![s] + rest, p2)),
                Err(er) => Err(er),
            },
            Err(er) => Err(er),
        }
    }
}

// ---------------------------------------------------------------------
// The parser
// ---------------------------------------------------------------------

/// Parsing state: the scanned tokens and the cursor, which only ever
/// moves forward.
pub struct Parser {
    pub tokens: Tokens,
    pub current: usize,
}

impl Parser {
    /// The cursor never passes the end of the tokens.
    pub open spec fn wf(&self) -> bool {
        self.current <= self.tokens@.len()
    }

    /// The models of the tokens.
    pub open spec fn toks(&self) -> Seq<TokenModel> {
        tokens_view(self.tokens@)
    }

    pub fn new(tokens: Tokens) -> (p: Parser)
        ensures
            p.wf(),
            p.tokens == tokens,
            p.current == 0,
    {
        Parser { tokens, current: 0 }
    }

    /// The most recently consumed token.
    pub fn previous(&self) -> (t: &Token)
        requires
            self.wf(),
            1 <= self.current,
        ensures
            t@ == self.toks()[self.current - 1],
    {
        &self.tokens[self.current - 1]
    }

    /// Whether the next token has kind `tty`, without consuming it; past
    /// the end of the tokens only `EOF` matches.
    pub fn check(&self, tty: TokenType) -> (r: bool)
        requires
            self.wf(),
        ensures
            r == spec_check(self.toks(), self.current as int, tty),
    {
        if self.current < self.tokens.len() {
            self.tokens[self.current].toktype == tty
        } else {
            tty == TokenType::EOF
        }
    }

    /// Consume the next token and return true when it has kind `tty`.
    pub fn accept(&mut self, tty: TokenType) -> (r: bool)
        requires
            old(self).wf(),
        ensures
            final(self).wf(),
            final(self).tokens == old(self).tokens,
            r == spec_at(old(self).toks(), old(self).current as int, tty),
            r ==> final(self).current == old(self).current + 1,
            !r ==> final(self).current == old(self).current,
    {
        if self.current < self.tokens.len() && self.tokens[self.current].toktype == tty {
            self.current = self.current + 1;
            true
        } else {
            false
        }
    }

    /// Require the next token to have kind `tty`, or fail with `message`
    /// and the offending line, as `spec_consume` states.
    pub fn consume(&mut self, tty: TokenType, message: &str) -> (r: Result<(), LoxError>)
        requires
            old(self).wf(),
        ensures
            final(self).wf(),
            final(self).tokens == old(self).tokens,
            (match r {
                Ok(()) => spec_consume(old(self).toks(), old(self).current as int, tty, message@)
                    == Ok::<int, ErrorModel>(final(self).current as int) && final(self).current
                    == old(self).current + 1,
                Err(e) => spec_consume(old(self).toks(), old(self).current as int, tty, message@)
                    == Err::<int, ErrorModel>(e@) && final(self).current == old(self).current,
            }),
    {
        if self.current < self.tokens.len() && self.tokens[self.current].toktype == tty {
            self.current = self.current + 1;
            Ok(())
        } else {
            let line: i32 = if self.current < self.tokens.len() {
                self.tokens[self.current].line
            } else if self.tokens.len() > 0 {
                self.tokens[self.tokens.len() - 1].line
            } else {
                0
            };
            Err(LoxError::SyntaxError { message: message.to_owned(), line })
        }
    }

    /// Parse one expression, as `spec_parse_expression` states.
    pub fn parse_expression(&mut self) -> (r: Result<Expression, LoxError>)
        requires
            old(self).wf(),
        ensures
            final(self).wf(),
            final(self).tokens == old(self).tokens,
            old(self).current <= final(self).current,
            (match r {
                Ok(e) => spec_parse_expression(old(self).toks(), old(self).current as int) == Ok::<
                    (ExprModel, int),
                    ErrorModel,
                >((e@, final(self).current as int)) && old(self).current < final(self).current,
                Err(er) => spec_parse_expression(old(self).toks(), old(self).current as int)
                    == Err::<(ExprModel, int), ErrorModel>(er@),
            }),
        decreases rem_toks(self.toks(), self.current as int), 11nat,
    {
        self.parse_equality()
    }

    /// Parse one equality, as `spec_parse_equality` states.
    pub fn parse_equality(&mut self) -> (r: Result<Expression, LoxError>)
        requires
            old(self).wf(),
        ensures
            final(self).wf(),
            final(self).tokens == old(self).tokens,
            old(self).current <= final(self).current,
            (match r {
                Ok(e) => spec_parse_equality(old(self).toks(), old(self).current as int) == Ok::<
                    (ExprModel, int),
                    ErrorModel,
                >((e@, final(self).current as int)) && old(self).current < final(self).current,
                Err(er) => spec_parse_equality(old(self).toks(), old(self).current as int) == Err::<
                    (ExprModel, int),
                    ErrorModel,
                >(er@),
            }),
        decreases rem_toks(self.toks(), self.current as int), 10nat,
    {
        let ghost ts = self.toks();
        let ghost p0 = self.current as int;
        let mut expr = match self.parse_comparison() {
            Ok(e) => e,
            Err(er) => {
                return Err(er);
            },
        };
        loop
            invariant
                self.wf(),
                self.tokens == old(self).tokens,
                ts == self.toks(),
                p0 == old(self).current as int,
                p0 < self.current as int,
                spec_parse_equality(ts, p0) == spec_equality_rest(ts, self.current as int, expr@),
            ensures
                self.wf(),
                self.tokens == old(self).tokens,
                p0 < self.current as int,
                spec_parse_equality(ts, p0) == Ok::<(ExprModel, int), ErrorModel>(
                    (expr@, self.current as int),
                ),
            decreases ts.len() - self.current,
        {
            let op: Op;
            if self.accept(TokenType::EQ) {
                op = Op::OpEq;
            } else if self.accept(TokenType::NE) {
                op = Op::OpNe;
            } else {
                break ;
            }
            match self.parse_comparison() {
                Ok(right) => {
                    expr = Expression::EBinary(op, Box::new(expr), Box::new(right));
                },
                Err(er) => {
                    return Err(er);
                },
            }
        }
        Ok(expr)
    }

    /// Parse one comparison, as `spec_parse_comparison` states.
    pub fn parse_comparison(&mut self) -> (r: Result<Expression, LoxError>)
        requires
            old(self).wf(),
        ensures
            final(self).wf(),
            final(self).tokens == old(self).tokens,
            old(self).current <= final(self).current,
            (match r {
                Ok(e) => spec_parse_comparison(old(self).toks(), old(self).current as int) == Ok::<
                    (ExprModel, int),
                    ErrorModel,
                >((e@, final(self).current as int)) && old(self).current < final(self).current,
                Err(er) => spec_parse_comparison(old(self).toks(), old(self).current as int)
                    == Err::<(ExprModel, int), ErrorModel>(er@),
            }),
        decreases rem_toks(self.toks(), self.current as int), 8nat,
    {
        let ghost ts = self.toks();
        let ghost p0 = self.current as int;
        let mut expr = match self.parse_term() {
            Ok(e) => e,
            Err(er) => {
                return Err(er);
            },
        };
        loop
            invariant
                self.wf(),
                self.tokens == old(self).tokens,
                ts == self.toks(),
                p0 == old(self).current as int,
                p0 < self.current as int,
                spec_parse_comparison(ts, p0) == spec_comparison_rest(
                    ts,
                    self.current as int,
                    expr@,
                ),
            ensures
                self.wf(),
                self.tokens == old(self).tokens,
                p0 < self.current as int,
                spec_parse_comparison(ts, p0) == Ok::<(ExprModel, int), ErrorModel>(
                    (expr@, self.current as int),
                ),
            decreases ts.len() - self.current,
        {
            let op: Op;
            if self.accept(TokenType::LT) {
                op = Op::OpLt;
            } else if self.accept(TokenType::LE) {
                op = Op::OpLe;
            } else if self.accept(TokenType::GT) {
                op = Op::OpGt;
            } else if self.accept(TokenType::GE) {
                op = Op::OpGe;
            } else {
                break ;
            }
            match self.parse_term() {
                Ok(right) => {
                    expr = Expression::EBinary(op, Box::new(expr), Box::new(right));
                },
                Err(er) => {
                    return Err(er);
                },
            }
        }
        Ok(expr)
    }

    /// Parse one term, as `spec_parse_term` states.
    pub fn parse_term(&mut self) -> (r: Result<Expression, LoxError>)
        requires
            old(self).wf(),
        ensures
            final(self).wf(),
            final(self).tokens == old(self).tokens,
            old(self).current <= final(self).current,
            (match r {
                Ok(e) => spec_parse_term(old(self).toks(), old(self).current as int) == Ok::<
                    (ExprModel, int),
                    ErrorModel,
                >((e@, final(self).current as int)) && old(self).current < final(self).current,
                Err(er) => spec_parse_term(old(self).toks(), old(self).current as int) == Err::<
                    (ExprModel, int),
                    ErrorModel,
                >(er@),
            }),
        decreases rem_toks(self.toks(), self.current as int), 6nat,
    {
        let ghost ts = self.toks();
        let ghost p0 = self.current as int;
        let mut expr = match self.parse_factor() {
            Ok(e) => e,
            Err(er) => {
                return Err(er);
            },
        };
        loop
            invariant
                self.wf(),
                self.tokens == old(self).tokens,
                ts == self.toks(),
                p0 == old(self).current as int,
                p0 < self.current as int,
                spec_parse_term(ts, p0) == spec_term_rest(ts, self.current as int, expr@),
            ensures
                self.wf(),
                self.tokens == old(self).tokens,
                p0 < self.current as int,
                spec_parse_term(ts, p0) == Ok::<(ExprModel, int), ErrorModel>(
                    (expr@, self.current as int),
                ),
            decreases ts.len() - self.current,
        {
            let op: Op;
            if self.accept(TokenType::PLUS) {
                op = Op::OpPlus;
            } else if self.accept(TokenType::MINUS) {
                op = Op::OpMinus;
            } else {
                break ;
            }
            match self.parse_factor() {
                Ok(right) => {
                    expr = Expression::EBinary(op, Box::new(expr), Box::new(right));
                },
                Err(er) => {
                    return Err(er);
                },
            }
        }
        Ok(expr)
    }

    /// Parse one factor, as `spec_parse_factor` states.
    pub fn parse_factor(&mut self) -> (r: Result<Expression, LoxError>)
        requires
            old(self).wf(),
        ensures
            final(self).wf(),
            final(self).tokens == old(self).tokens,
            old(self).current <= final(self).current,
            (match r {
                Ok(e) => spec_parse_factor(old(self).toks(), old(self).current as int) == Ok::<
                    (ExprModel, int),
                    ErrorModel,
                >((e@, final(self).current as int)) && old(self).current < final(self).current,
                Err(er) => spec_parse_factor(old(self).toks(), old(self).current as int) == Err::<
                    (ExprModel, int),
                    ErrorModel,
                >(er@),
            }),
        decreases rem_toks(self.toks(), self.current as int), 4nat,
    {
        let ghost ts = self.toks();
        let ghost p0 = self.current as int;
        let mut expr = match self.parse_unary() {
            Ok(e) => e,
            Err(er) => {
                return Err(er);
            },
        };
        loop
            invariant
                self.wf(),
                self.tokens == old(self).tokens,
                ts == self.toks(),
                p0 == old(self).current as int,
                p0 < self.current as int,
                spec_parse_factor(ts, p0) == spec_factor_rest(ts, self.current as int, expr@),
            ensures
                self.wf(),
                self.tokens == old(self).tokens,
                p0 < self.current as int,
                spec_parse_factor(ts, p0) == Ok::<(ExprModel, int), ErrorModel>(
                    (expr@, self.current as int),
                ),
            decreases ts.len() - self.current,
        {
            let op: Op;
            if self.accept(TokenType::SLASH) {
                op = Op::OpDiv;
            } else if self.accept(TokenType::STAR) {
                op = Op::OpMult;
            } else {
                break ;
            }
            match self.parse_unary() {
                Ok(right) => {
                    expr = Expression::EBinary(op, Box::new(expr), Box::new(right));
                },
                Err(er) => {
                    return Err(er);
                },
            }
        }
        Ok(expr)
    }

    /// Parse one unary expression, as `spec_parse_unary` states.
    pub fn parse_unary(&mut self) -> (r: Result<Expression, LoxError>)
        requires
            old(self).wf(),
        ensures
            final(self).wf(),
            final(self).tokens == old(self).tokens,
            old(self).current <= final(self).current,
            (match r {
                Ok(e) => spec_parse_unary(old(self).toks(), old(self).current as int) == Ok::<
                    (ExprModel, int),
                    ErrorModel,
                >((e@, final(self).current as int)) && old(self).current < final(self).current,
                Err(er) => spec_parse_unary(old(self).toks(), old(self).current as int) == Err::<
                    (ExprModel, int),
                    ErrorModel,
                >(er@),
            }),
        decreases rem_toks(self.toks(), self.current as int), 2nat,
    {
        if self.accept(TokenType::MINUS) {
            match self.parse_unary() {
                Ok(right) => Ok(Expression::EUnary(Op::OpMinus, Box::new(right))),
                Err(er) => Err(er),
            }
        } else if self.accept(TokenType::BANG) {
            match self.parse_unary() {
                Ok(right) => Ok(Expression::EUnary(Op::OpNot, Box::new(right))),
                Err(er) => Err(er),
            }
        } else {
            self.parse_primary()
        }
    }

    /// Parse one primary expression, as `spec_parse_primary` states.
    pub fn parse_primary(&mut self) -> (r: Result<Expression, LoxError>)
        requires
            old(self).wf(),
        ensures
            final(self).wf(),
            final(self).tokens == old(self).tokens,
            old(self).current <= final(self).current,
            (match r {
                Ok(e) => spec_parse_primary(old(self).toks(), old(self).current as int) == Ok::<
                    (ExprModel, int),
                    ErrorModel,
                >((e@, final(self).current as int)) && old(self).current < final(self).current,
                Err(er) => spec_parse_primary(old(self).toks(), old(self).current as int) == Err::<
                    (ExprModel, int),
                    ErrorModel,
                >(er@),
            }),
        decreases rem_toks(self.toks(), self.current as int), 1nat,
    {
        if self.accept(TokenType::FALSE) {
            Ok(Expression::EBoolean(false))
        } else if self.accept(TokenType::TRUE) {
            Ok(Expression::EBoolean(true))
        } else if self.accept(TokenType::NIL) {
            Ok(Expression::ENil)
        } else if self.accept(TokenType::NUMBER) {
            let lex = self.previous().lexeme.clone();
            Ok(Expression::ENumber(lex))
        } else if self.accept(TokenType::STRING) {
            let lex = self.previous().lexeme.clone();
            Ok(Expression::EString(lex))
        } else if self.accept(TokenType::LPAREN) {
            match self.parse_expression() {
                Ok(e) => {
                    match self.consume(TokenType::RPAREN, "Expect ')' after expression.") {
                        Ok(()) => Ok(Expression::EGroup(Box::new(e))),
                        Err(er) => Err(er),
                    }
                },
                Err(er) => Err(er),
            }
        } else if self.accept(TokenType::IDENTIFIER) {
            let lex = self.previous().lexeme.clone();
            Ok(Expression::EName(lex))
        } else {
            let line: i32 = if self.current < self.tokens.len() {
                self.tokens[self.current].line
            } else if self.tokens.len() > 0 {
                self.tokens[self.tokens.len() - 1].line
            } else {
                0
            };
            Err(LoxError::SyntaxError { message: String::from_str("Expected a primary"), line })
        }
    }

    /// Parse one statement, dispatched on the next token without
    /// consuming it, as `spec_parse_statement` states.
    pub fn parse_statement(&mut self) -> (r: Result<Statement, LoxError>)
        requires
            old(self).wf(),
        ensures
            final(self).wf(),
            final(self).tokens == old(self).tokens,
            old(self).current <= final(self).current,
            (match r {
                Ok(s) => spec_parse_statement(old(self).toks(), old(self).current as int) == Ok::<
                    (StmtModel, int),
                    ErrorModel,
                >((s@, final(self).current as int)) && old(self).current < final(self).current,
                Err(er) => spec_parse_statement(old(self).toks(), old(self).current as int)
                    == Err::<(StmtModel, int), ErrorModel>(er@),
            }),
        decreases rem_toks(self.toks(), self.current as int), 14nat,
    {
        if self.check(TokenType::PRINT) {
            self.parse_print()
        } else if self.check(TokenType::IF) {
            self.parse_if()
        } else if self.check(TokenType::WHILE) {
            self.parse_while()
        } else if self.check(TokenType::VAR) {
            self.parse_var()
        } else if self.check(TokenType::LBRACE) {
            self.parse_block()
        } else {
            self.parse_statement_expr()
        }
    }

    /// Parse a print statement, as `spec_parse_print` states.
    pub fn parse_print(&mut self) -> (r: Result<Statement, LoxError>)
        requires
            old(self).wf(),
        ensures
            final(self).wf(),
            final(self).tokens == old(self).tokens,
            old(self).current <= final(self).current,
            (match r {
                Ok(s) => spec_parse_print(old(self).toks(), old(self).current as int) == Ok::<
                    (StmtModel, int),
                    ErrorModel,
                >((s@, final(self).current as int)) && old(self).current < final(self).current,
                Err(er) => spec_parse_print(old(self).toks(), old(self).current as int) == Err::<
                    (StmtModel, int),
                    ErrorModel,
                >(er@),
            }),
        decreases rem_toks(self.toks(), self.current as int), 13nat,
    {
        match self.consume(TokenType::PRINT, "Expected 'print'") {
            Ok(()) => {},
            Err(er) => {
                return Err(er);
            },
        }
        let value = match self.parse_expression() {
            Ok(e) => e,
            Err(er) => {
                return Err(er);
            },
        };
        match self.consume(TokenType::SEMICOLON, "Expect ';' after expression.") {
            Ok(()) => Ok(Statement::SPrint(value)),
            Err(er) => Err(er),
        }
    }

    /// Parse a variable declaration, as `spec_parse_var` states: the
    /// initializer defaults to `nil` when absent.
    pub fn parse_var(&mut self) -> (r: Result<Statement, LoxError>)
        requires
            old(self).wf(),
        ensures
            final(self).wf(),
            final(self).tokens == old(self).tokens,
            old(self).current <= final(self).current,
            (match r {
                Ok(s) => spec_parse_var(old(self).toks(), old(self).current as int) == Ok::<
                    (StmtModel, int),
                    ErrorModel,
                >((s@, final(self).current as int)) && old(self).current < final(self).current,
                Err(er) => spec_parse_var(old(self).toks(), old(self).current as int) == Err::<
                    (StmtModel, int),
                    ErrorModel,
                >(er@),
            }),
        decreases rem_toks(self.toks(), self.current as int), 13nat,
    {
        match self.consume(TokenType::VAR, "Expected 'var'") {
            Ok(()) => {},
            Err(er) => {
                return Err(er);
            },
        }
        match self.consume(TokenType::IDENTIFIER, "Expected identifier") {
            Ok(()) => {},
            Err(er) => {
                return Err(er);
            },
        }
        let name = self.previous().lexeme.clone();
        let value = if self.accept(TokenType::ASSIGN) {
            match self.parse_expression() {
                Ok(e) => e,
                Err(er) => {
                    return Err(er);
                },
            }
        } else {
            Expression::ENil
        };
        match self.consume(TokenType::SEMICOLON, "Expected ';'") {
            Ok(()) => Ok(Statement::SVar(name, value)),
            Err(er) => Err(er),
        }
    }

    /// Parse a conditional, as `spec_parse_if` states: the grammar
    /// requires both branches, so a missing `else` is a syntax error.
    pub fn parse_if(&mut self) -> (r: Result<Statement, LoxError>)
        requires
            old(self).wf(),
        ensures
            final(self).wf(),
            final(self).tokens == old(self).tokens,
            old(self).current <= final(self).current,
            (match r {
                Ok(s) => spec_parse_if(old(self).toks(), old(self).current as int) == Ok::<
                    (StmtModel, int),
                    ErrorModel,
                >((s@, final(self).current as int)) && old(self).current < final(self).current,
                Err(er) => spec_parse_if(old(self).toks(), old(self).current as int) == Err::<
                    (StmtModel, int),
                    ErrorModel,
                >(er@),
            }),
        decreases rem_toks(self.toks(), self.current as int), 13nat,
    {
        match self.consume(TokenType::IF, "Expected 'if'") {
            Ok(()) => {},
            Err(er) => {
                return Err(er);
            },
        }
        let test = match self.parse_expression() {
            Ok(e) => e,
            Err(er) => {
                return Err(er);
            },
        };
        let consequence = match self.parse_statement() {
            Ok(s) => s,
            Err(er) => {
                return Err(er);
            },
        };
        match self.consume(TokenType::ELSE, "Expected 'else'") {
            Ok(()) => {},
            Err(er) => {
                return Err(er);
            },
        }
        let alternative = match self.parse_statement() {
            Ok(s) => s,
            Err(er) => {
                return Err(er);
            },
        };
        Ok(Statement::SIf(test, Box::new(consequence), Box::new(alternative)))
    }

    /// Parse a while loop, as `spec_parse_while` states.
    pub fn parse_while(&mut self) -> (r: Result<Statement, LoxError>)
        requires
            old(self).wf(),
        ensures
            final(self).wf(),
            final(self).tokens == old(self).tokens,
            old(self).current <= final(self).current,
            (match r {
                Ok(s) => spec_parse_while(old(self).toks(), old(self).current as int) == Ok::<
                    (StmtModel, int),
                    ErrorModel,
                >((s@, final(self).current as int)) && old(self).current < final(self).current,
                Err(er) => spec_parse_while(old(self).toks(), old(self).current as int) == Err::<
                    (StmtModel, int),
                    ErrorModel,
                >(er@),
            }),
        decreases rem_toks(self.toks(), self.current as int), 13nat,
    {
        match self.consume(TokenType::WHILE, "Expected 'while'") {
            Ok(()) => {},
            Err(er) => {
                return Err(er);
            },
        }
        let test = match self.parse_expression() {
            Ok(e) => e,
            Err(er) => {
                return Err(er);
            },
        };
        let body = match self.parse_statement() {
            Ok(s) => s,
            Err(er) => {
                return Err(er);
            },
        };
        Ok(Statement::SWhile(test, Box::new(body)))
    }

    /// Parse a block, as `spec_parse_block` states: statements up to the
    /// closing brace, which is required.
    pub fn parse_block(&mut self) -> (r: Result<Statement, LoxError>)
        requires
            old(self).wf(),
        ensures
            final(self).wf(),
            final(self).tokens == old(self).tokens,
            old(self).current <= final(self).current,
            (match r {
                Ok(s) => spec_parse_block(old(self).toks(), old(self).current as int) == Ok::<
                    (StmtModel, int),
                    ErrorModel,
                >((s@, final(self).current as int)) && old(self).current < final(self).current,
                Err(er) => spec_parse_block(old(self).toks(), old(self).current as int) == Err::<
                    (StmtModel, int),
                    ErrorModel,
                >(er@),
            }),
        decreases rem_toks(self.toks(), self.current as int), 13nat,
    {
        match self.consume(TokenType::LBRACE, "Expected '{'") {
            Ok(()) => {},
            Err(er) => {
                return Err(er);
            },
        }
        let body = match self.parse_statements() {
            Ok(ss) => ss,
            Err(er) => {
                return Err(er);
            },
        };
        match self.consume(TokenType::RBRACE, "Expected '}'") {
            Ok(()) => Ok(Statement::SBlock(body)),
            Err(er) => Err(er),
        }
    }

    /// Parse a bare expression statement, or an assignment when the
    /// parsed expression is followed by `=`, as `spec_parse_statement_expr`
    /// states.
    pub fn parse_statement_expr(&mut self) -> (r: Result<Statement, LoxError>)
        requires
            old(self).wf(),
        ensures
            final(self).wf(),
            final(self).tokens == old(self).tokens,
            old(self).current <= final(self).current,
            (match r {
                Ok(s) => spec_parse_statement_expr(old(self).toks(), old(self).current as int)
                    == Ok::<(StmtModel, int), ErrorModel>((s@, final(self).current as int)) && old(
                    self,
                ).current < final(self).current,
                Err(er) => spec_parse_statement_expr(old(self).toks(), old(self).current as int)
                    == Err::<(StmtModel, int), ErrorModel>(er@),
            }),
        decreases rem_toks(self.toks(), self.current as int), 13nat,
    {
        let lvalue = match self.parse_expression() {
            Ok(e) => e,
            Err(er) => {
                return Err(er);
            },
        };
        if self.accept(TokenType::ASSIGN) {
            let rvalue = match self.parse_expression() {
                Ok(e) => e,
                Err(er) => {
                    return Err(er);
                },
            };
            match self.consume(TokenType::SEMICOLON, "Expect ';' after assignment.") {
                Ok(()) => Ok(Statement::SAssignment(lvalue, rvalue)),
                Err(er) => Err(er),
            }
        } else {
            match self.consume(TokenType::SEMICOLON, "Expect ';' after expression.") {
                Ok(()) => Ok(Statement::SExpr(lvalue)),
                Err(er) => Err(er),
            }
        }
    }

    /// Parse statements until end-of-input or a closing brace, as
    /// `spec_parse_statements` states.
    pub fn parse_statements(&mut self) -> (r: Result<Statements, LoxError>)
        requires
            old(self).wf(),
        ensures
            final(self).wf(),
            final(self).tokens == old(self).tokens,
            old(self).current <= final(self).current,
            (match r {
                Ok(ss) => spec_parse_statements(old(self).toks(), old(self).current as int)
                    == Ok::<(Seq<StmtModel>, int), ErrorModel>(
                    (stmts_view(ss@), final(self).current as int),
                ),
                Err(er) => spec_parse_statements(old(self).toks(), old(self).current as int)
                    == Err::<(Seq<StmtModel>, int), ErrorModel>(er@),
            }),
        decreases rem_toks(self.toks(), self.current as int), 15nat,
    {
        let ghost ts = self.toks();
        let ghost p0 = self.current as int;
        let mut out: Vec<Statement> = Vec::new();
        proof {
            assert(stmts_view(out@) =~= Seq::<StmtModel>::empty());
        }
        loop
            invariant
                self.wf(),
                self.tokens == old(self).tokens,
                ts == self.toks(),
                p0 == old(self).current as int,
                p0 <= self.current as int,
                (match spec_parse_statements(ts, self.current as int) {
                    Ok(pr) => spec_parse_statements(ts, p0) == Ok::<
                        (Seq<StmtModel>, int),
                        ErrorModel,
                    >((stmts_view(out@) + pr.0, pr.1)),
                    Err(er) => spec_parse_statements(ts, p0) == Err::<
                        (Seq<StmtModel>, int),
                        ErrorModel,
                    >(er),
                }),
            ensures
                self.wf(),
                self.tokens == old(self).tokens,
                p0 <= self.current as int,
                spec_parse_statements(ts, p0) == Ok::<(Seq<StmtModel>, int), ErrorModel>(
                    (stmts_view(out@), self.current as int),
                ),
            decreases ts.len() - self.current,
        {
            if self.check(TokenType::EOF) {
                proof {
                    assert(stmts_view(out@) + Seq::<StmtModel>::empty() =~= stmts_view(out@));
                }
                break ;
            }
            if self.check(TokenType::RBRACE) {
                proof {
                    assert(stmts_view(out@) + Seq::<StmtModel>::empty() =~= stmts_view(out@));
                }
                break ;
            }
            match self.parse_statement() {
                Ok(s) => {
                    let ghost before = out@;
                    let ghost sv = s@;
                    out.push(s);
                    proof {
                        crate::ast::lemma_stmts_view_push(before, out@[before.len() as int]);
                        match spec_parse_statements(ts, self.current as int) {
                            Ok(pr) => {
                                assert(stmts_view(before) + (seq![sv] + pr.0) =~= stmts_view(out@)
                                    + pr.0);
                            },
                            Err(_) => {},
                        }
                    }
                },
                Err(er) => {
                    return Err(er);
                },
            }
        }
        Ok(out)
    }
}

/// Parse a scanned token sequence into a program: the ordered statements
/// up to end-of-input, as `spec_parse_statements` states.
pub fn parse(tokens: Tokens) -> (r: Result<Statements, LoxError>)
    ensures
        (match r {
            Ok(ss) => spec_parse_statements(tokens_view(tokens@), 0) matches Ok(pr) && stmts_view(
                ss@,
            ) == pr.0,
            Err(er) => spec_parse_statements(tokens_view(tokens@), 0) == Err::<
                (Seq<StmtModel>, int),
                ErrorModel,
            >(er@),
        }),
{
    let mut parser = Parser::new(tokens);
    parser.parse_statements()
}

/// Scan and parse one expression from source text.
pub fn parse_expression_string(src: &str) -> (r: Result<Expression, LoxError>)
    ensures
        (match spec_tokenize(src@) {
            Err(p) => r matches Err(e) && e@ == (ErrorModel::LexE { ch: p.0, line: p.1 }),
            Ok(ms) => match spec_parse_expression(ms, 0) {
                Ok(pr) => r matches Ok(e) && e@ == pr.0,
                Err(er) => r matches Err(e) && e@ == er,
            },
        }),
{
    let s = src.to_owned();
    match tokenize(&s) {
        Err(e) => Err(e),
        Ok(toks) => {
            let mut parser = Parser::new(toks);
            match parser.parse_expression() {
                Ok(e) => Ok(e),
                Err(er) => Err(er),
            }
        },
    }
}

/// Scan and parse one statement from source text.
pub fn parse_statement_string(src: &str) -> (r: Result<Statement, LoxError>)
    ensures
        (match spec_tokenize(src@) {
            Err(p) => r matches Err(e) && e@ == (ErrorModel::LexE { ch: p.0, line: p.1 }),
            Ok(ms) => match spec_parse_statement(ms, 0) {
                Ok(pr) => r matches Ok(s) && s@ == pr.0,
                Err(er) => r matches Err(e) && e@ == er,
            },
        }),
{
    let s = src.to_owned();
    match tokenize(&s) {
        Err(e) => Err(e),
        Ok(toks) => {
            let mut parser = Parser::new(toks);
            match parser.parse_statement() {
                Ok(st) => Ok(st),
                Err(er) => Err(er),
            }
        },
    }
}

} // verus!
