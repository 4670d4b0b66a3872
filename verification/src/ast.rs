//! The abstract syntax tree: operators, expressions and statements, the
//! mathematical models the contracts speak of, and rendering back to
//! source text.

use vstd::prelude::*;

verus! {

/// The binary and unary operators of the language.
#[derive(PartialEq, Eq, Structural, Debug, Clone, Copy)]
pub enum Op {
    OpPlus,
    OpMinus,
    OpMult,
    OpDiv,
    OpLt,
    OpLe,
    OpGt,
    OpGe,
    OpEq,
    OpNe,
    OpNot,
}

/// An expression: a strict tree, each composite node owning its children.
/// A numeric literal carries its lexeme; the runtime turns it into a
/// number value when it is evaluated.
#[derive(PartialEq, Debug)]
pub enum Expression {
    ENumber(String),
    EString(String),
    EBoolean(bool),
    ENil,
    EName(String),
    EBinary(Op, Box<Expression>, Box<Expression>),
    EUnary(Op, Box<Expression>),
    EGroup(Box<Expression>),
}

/// A statement.  A parsed program is an ordered sequence of statements.
#[derive(PartialEq, Debug)]
pub enum Statement {
    SPrint(Expression),
    SExpr(Expression),
    SVar(String, Expression),
    SAssignment(Expression, Expression),
    SIf(Expression, Box<Statement>, Box<Statement>),
    SWhile(Expression, Box<Statement>),
    SBlock(Statements),
}

pub type Statements = Vec<Statement>;

/// The mathematical model of an expression.
#[verifier::ext_equal]
pub enum ExprModel {
    ENumber(Seq<char>),
    EString(Seq<char>),
    EBoolean(bool),
    ENil,
    EName(Seq<char>),
    EBinary(Op, Box<ExprModel>, Box<ExprModel>),
    EUnary(Op, Box<ExprModel>),
    EGroup(Box<ExprModel>),
}

/// The mathematical model of a statement.
#[verifier::ext_equal]
pub enum StmtModel {
    SPrint(ExprModel),
    SExpr(ExprModel),
    SVar(Seq<char>, ExprModel),
    SAssignment(ExprModel, ExprModel),
    SIf(ExprModel, Box<StmtModel>, Box<StmtModel>),
    SWhile(ExprModel, Box<StmtModel>),
    SBlock(Seq<StmtModel>),
}

pub open spec fn expr_view(e: Expression) -> ExprModel
    decreases e,
{
    match e {
        Expression::ENumber(lex) => ExprModel::ENumber(lex@),
        Expression::EString(v) => ExprModel::EString(v@),
        Expression::EBoolean(b) => ExprModel::EBoolean(b),
        Expression::ENil => ExprModel::ENil,
        Expression::EName(n) => ExprModel::EName(n@),
        Expression::EBinary(op, l, r) => ExprModel::EBinary(
            op,
            Box::new(expr_view(*l)),
            Box::new(expr_view(*r)),
        ),
        Expression::EUnary(op, v) => ExprModel::EUnary(op, Box::new(expr_view(*v))),
        Expression::EGroup(v) => ExprModel::EGroup(Box::new(expr_view(*v))),
    }
}

impl View for Expression {
    type V = ExprModel;

    open spec fn view(&self) -> ExprModel {
        expr_view(*self)
    }
}

pub open spec fn stmt_view(s: Statement) -> StmtModel
    decreases s,
{
    match s {
        Statement::SPrint(e) => StmtModel::SPrint(expr_view(e)),
        Statement::SExpr(e) => StmtModel::SExpr(expr_view(e)),
        Statement::SVar(n, e) => StmtModel::SVar(n@, expr_view(e)),
        Statement::SAssignment(t, e) => StmtModel::SAssignment(expr_view(t), expr_view(e)),
        Statement::SIf(t, c, a) => StmtModel::SIf(
            expr_view(t),
            Box::new(stmt_view(*c)),
            Box::new(stmt_view(*a)),
        ),
        Statement::SWhile(t, b) => StmtModel::SWhile(expr_view(t), Box::new(stmt_view(*b))),
        Statement::SBlock(ss) => StmtModel::SBlock(stmts_view(ss@)),
    }
}

pub open spec fn stmts_view(ss: Seq<Statement>) -> Seq<StmtModel>
    decreases ss,
{
    if ss.len() == 0 {
        Seq::empty()
    } else {
        seq![stmt_view(ss[0])] + stmts_view(ss.skip(1))
    }
}

impl View for Statement {
    type V = StmtModel;

    open spec fn view(&self) -> StmtModel {
        stmt_view(*self)
    }
}

/// Appending one statement appends its model.
pub proof fn lemma_stmts_view_push(ss: Seq<Statement>, s: Statement)
    ensures
        stmts_view(ss.push(s)) == stmts_view(ss).push(stmt_view(s)),
    decreases ss,
{
    if ss.len() == 0 {
        assert(ss.push(s)[0] == s);
        assert(ss.push(s).skip(1) =~= Seq::<Statement>::empty());
        assert(stmts_view(Seq::<Statement>::empty()) =~= Seq::<StmtModel>::empty());
        assert(stmts_view(ss) =~= Seq::<StmtModel>::empty());
        assert(stmts_view(ss.push(s)) =~= seq![stmt_view(s)]);
        assert(stmts_view(ss).push(stmt_view(s)) =~= seq![stmt_view(s)]);
    } else {
        assert(ss.push(s)[0] == ss[0]);
        assert(ss.push(s).skip(1) =~= ss.skip(1).push(s));
        lemma_stmts_view_push(ss.skip(1), s);
        assert(stmts_view(ss.push(s)) =~= stmts_view(ss).push(stmt_view(s)));
    }
}

pub proof fn lemma_stmts_view_len(ss: Seq<Statement>)
    ensures
        stmts_view(ss).len() == ss.len(),
        forall|i: int| 0 <= i < ss.len() ==> stmts_view(ss)[i] == stmt_view(ss[i]),
    decreases ss,
{
    if ss.len() > 0 {
        lemma_stmts_view_len(ss.skip(1));
        assert forall|i: int| 0 <= i < ss.len() implies stmts_view(ss)[i] == stmt_view(
            ss[i],
        ) by {
            if i > 0 {
                assert(ss.skip(1)[i - 1] == ss[i]);
            }
        }
    }
}

// ---------------------------------------------------------------------
// Rendering back to source text
// ---------------------------------------------------------------------

/// The source text of an operator.
pub open spec fn op_lexeme(op: Op) -> Seq<char> {
    match op {
        Op::OpPlus => "+"@,
        Op::OpMinus => "-"@,
        Op::OpMult => "*"@,
        Op::OpDiv => "/"@,
        Op::OpLt => "<"@,
        Op::OpLe => "<="@,
        Op::OpGt => ">"@,
        Op::OpGe => ">="@,
        Op::OpEq => "=="@,
        Op::OpNe => "!="@,
        Op::OpNot => "!"@,
    }
}

impl Op {
    /// The source text of this operator.
    pub fn text(&self) -> (r: &'static str)
        ensures
            r@ == op_lexeme(*self),
    {
        match self {
            Op::OpPlus => "+",
            Op::OpMinus => "-",
            Op::OpMult => "*",
            Op::OpDiv => "/",
            Op::OpLt => "<",
            Op::OpLe => "<=",
            Op::OpGt => ">",
            Op::OpGe => ">=",
            Op::OpEq => "==",
            Op::OpNe => "!=",
            Op::OpNot => "!",
        }
    }
}

/// What rendering an expression produces: literals and names print their
/// own text, a string literal regains its quotes, binary operators are
/// spaced, unary operators are not, and a group regains its parentheses.
pub open spec fn spec_format_expr(e: ExprModel) -> Seq<char>
    decreases e,
{
    match e {
        ExprModel::ENumber(lex) => lex,
        ExprModel::EString(v) => seq!['"'] + v + seq!['"'],
        ExprModel::EBoolean(b) => if b {
            "true"@
        } else {
            "false"@
        },
        ExprModel::ENil => "nil"@,
        ExprModel::EName(n) => n,
        ExprModel::EBinary(op, l, r) => spec_format_expr(*l) + seq![' '] + op_lexeme(op)
            + seq![' '] + spec_format_expr(*r),
        ExprModel::EUnary(op, v) => op_lexeme(op) + spec_format_expr(*v),
        ExprModel::EGroup(v) => seq!['('] + spec_format_expr(*v) + seq![')'],
    }
}

/// Turn an expression back into source text, as `spec_format_expr` states.
pub fn format_expression(expr: &Expression) -> (r: String)
    ensures
        r@ == spec_format_expr(expr@),
    decreases *expr,
{
    match expr {
        Expression::ENumber(lex) => lex.clone(),
        Expression::EString(v) => {
            let mut s = String::new();
            s.append("\"");
            s.append(v.as_str());
            s.append("\"");
            proof {
                reveal_strlit("\"");
                assert(s@ =~= seq!['"'] + v@ + seq!['"']);
            }
            s
        },
        Expression::EBoolean(b) => {
            if *b {
                let s = String::from_str("true");
                s
            } else {
                let s = String::from_str("false");
                s
            }
        },
        Expression::ENil => String::from_str("nil"),
        Expression::EName(n) => n.clone(),
        Expression::EBinary(op, l, r) => {
            let mut s = format_expression(l);
            s.append(" ");
            s.append(op.text());
            s.append(" ");
            let right = format_expression(r);
            s.append(right.as_str());
            proof {
                reveal_strlit(" ");
                assert(s@ =~= spec_format_expr(expr_view(**l)) + seq![' '] + op_lexeme(*op)
                    + seq![' '] + spec_format_expr(expr_view(**r)));
            }
            s
        },
        Expression::EUnary(op, v) => {
            let mut s = String::from_str(op.text());
            let inner = format_expression(v);
            s.append(inner.as_str());
            s
        },
        Expression::EGroup(v) => {
            let mut s = String::new();
            s.append("(");
            let inner = format_expression(v);
            s.append(inner.as_str());
            s.append(")");
            proof {
                reveal_strlit("(");
                reveal_strlit(")");
                assert(s@ =~= seq!['('] + spec_format_expr(expr_view(**v)) + seq![')']);
            }
            s
        },
    }
}

/// What rendering a statement produces: one statement per line, blocks
/// with their braces on lines of their own.
pub open spec fn spec_format_stmt(s: StmtModel) -> Seq<char>
    decreases s,
{
    match s {
        StmtModel::SPrint(e) => "print "@ + spec_format_expr(e) + ";\n"@,
        StmtModel::SExpr(e) => spec_format_expr(e) + ";\n"@,
        StmtModel::SVar(n, e) => "var "@ + n + " = "@ + spec_format_expr(e) + ";\n"@,
        StmtModel::SAssignment(t, e) => spec_format_expr(t) + " = "@ + spec_format_expr(e)
            + ";\n"@,
        StmtModel::SIf(t, c, a) => "if "@ + spec_format_expr(t) + " "@ + spec_format_stmt(*c)
            + "else "@ + spec_format_stmt(*a),
        StmtModel::SWhile(t, b) => "while "@ + spec_format_expr(t) + " "@ + spec_format_stmt(*b),
        StmtModel::SBlock(ss) => "{\n"@ + spec_format_stmts(ss) + "}\n"@,
    }
}

pub open spec fn spec_format_stmts(ss: Seq<StmtModel>) -> Seq<char>
    decreases ss,
{
    if ss.len() == 0 {
        Seq::empty()
    } else {
        spec_format_stmt(ss[0]) + spec_format_stmts(ss.skip(1))
    }
}

/// Turn a statement back into source text, as `spec_format_stmt` states.
pub fn format_statement(stmt: &Statement) -> (r: String)
    ensures
        r@ == spec_format_stmt(stmt@),
    decreases *stmt,
{
    match stmt {
        Statement::SPrint(e) => {
            let mut s = String::from_str("print ");
            let inner = format_expression(e);
            s.append(inner.as_str());
            s.append(";\n");
            s
        },
        Statement::SExpr(e) => {
            let mut s = format_expression(e);
            s.append(";\n");
            s
        },
        Statement::SVar(n, e) => {
            let mut s = String::from_str("var ");
            s.append(n.as_str());
            s.append(" = ");
            let inner = format_expression(e);
            s.append(inner.as_str());
            s.append(";\n");
            s
        },
        Statement::SAssignment(t, e) => {
            let mut s = format_expression(t);
            s.append(" = ");
            let inner = format_expression(e);
            s.append(inner.as_str());
            s.append(";\n");
            s
        },
        Statement::SIf(t, c, a) => {
            let mut s = String::from_str("if ");
            let test = format_expression(t);
            s.append(test.as_str());
            s.append(" ");
            let cons = format_statement(c);
            s.append(cons.as_str());
            s.append("else ");
            let alt = format_statement(a);
            s.append(alt.as_str());
            s
        },
        Statement::SWhile(t, b) => {
            let mut s = String::from_str("while ");
            let test = format_expression(t);
            s.append(test.as_str());
            s.append(" ");
            let body = format_statement(b);
            s.append(body.as_str());
            s
        },
        Statement::SBlock(ss) => {
            let mut s = String::from_str("{\n");
            let mut i: usize = 0;
            proof {
                assert(stmts_view(ss@).skip(0) =~= stmts_view(ss@));
                lemma_stmts_view_len(ss@);
            }
            while i < ss.len()
                invariant
                    *stmt == Statement::SBlock(*ss),
                    i <= ss.len(),
                    stmts_view(ss@).len() == ss@.len(),
                    forall|k: int|
                        0 <= k < ss@.len() ==> stmts_view(ss@)[k] == stmt_view(ss@[k]),
                    s@ == "{\n"@ + spec_format_stmts(stmts_view(ss@).take(i as int)),
                decreases ss.len() - i,
            {
                proof {
                    assert(*ss == stmt->SBlock_0);
                    assert(decreases_to!(*stmt => stmt->SBlock_0));
                    assert(decreases_to!(*ss => ss@));
                    assert(decreases_to!(ss@ => ss@[i as int]));
                    assert(decreases_to!(*stmt => ss@[i as int]));
                }
                let line = format_statement(&ss[i]);
                s.append(line.as_str());
                proof {
                    lemma_format_stmts_snoc(stmts_view(ss@), i as int);
                }
                i += 1;
            }
            proof {
                assert(stmts_view(ss@).take(ss@.len() as int) =~= stmts_view(ss@));
            }
            s.append("}\n");
            s
        },
    }
}

/// Appending one more statement to a rendered prefix.
pub proof fn lemma_format_stmts_snoc(ss: Seq<StmtModel>, i: int)
    requires
        0 <= i < ss.len(),
    ensures
        spec_format_stmts(ss.take(i + 1)) == spec_format_stmts(ss.take(i)) + spec_format_stmt(
            ss[i],
        ),
    decreases i,
{
    if i == 0 {
        assert(ss.take(1) =~= seq![ss[0]]);
        assert(seq![ss[0]].skip(1) =~= Seq::<StmtModel>::empty());
        assert(spec_format_stmts(Seq::<StmtModel>::empty()) == Seq::<char>::empty());
        assert(spec_format_stmts(ss.take(0)).len() == 0) by {
            assert(ss.take(0) =~= Seq::<StmtModel>::empty());
        }
        assert(spec_format_stmts(ss.take(1)) =~= spec_format_stmts(ss.take(0)) + spec_format_stmt(
            ss[0],
        ));
    } else {
        lemma_format_stmts_snoc(ss.skip(1), i - 1);
        assert(ss.take(i + 1).skip(1) =~= ss.skip(1).take(i));
        assert(ss.take(i).skip(1) =~= ss.skip(1).take(i - 1));
        assert(ss.take(i + 1)[0] == ss[0]);
        assert(ss.take(i)[0] == ss[0]);
        assert(ss.skip(1)[i - 1] == ss[i]);
        assert(spec_format_stmt(ss.take(i + 1)[0]) + spec_format_stmts(ss.take(i + 1).skip(1))
            =~= (spec_format_stmt(ss.take(i)[0]) + spec_format_stmts(ss.take(i).skip(1)))
            + spec_format_stmt(ss[i]));
    }
}

} // verus!
