//! The evaluator: a direct recursive walk of the syntax tree against an
//! environment chain.

use vstd::prelude::*;

use crate::ErrorModel;
use crate::LoxError;
use crate::ast::ExprModel;
use crate::ast::Expression;
use crate::ast::Op;
use crate::ast::Statement;
use crate::ast::Statements;
use crate::ast::StmtModel;
use crate::ast::stmts_view;
use crate::environ::EnvModel;
use crate::environ::Environment;
use crate::environ::env_lookup;
use crate::environ::env_wf;
use crate::numeric::add_bits;
use crate::numeric::add_number;
use crate::numeric::div_bits;
use crate::numeric::div_number;
use crate::numeric::eq_number;
use crate::numeric::is_number_lexeme;
use crate::numeric::le_number;
use crate::numeric::lit_bits;
use crate::numeric::lt_number;
use crate::numeric::mul_bits;
use crate::numeric::mul_number;
use crate::numeric::negate_number;
use crate::numeric::num_eq;
use crate::numeric::num_le;
use crate::numeric::num_lt;
use crate::numeric::num_neg;
use crate::numeric::number_of_lexeme;
use crate::numeric::check_number_lexeme;
use crate::numeric::sub_bits;
use crate::numeric::sub_number;
use crate::tokenize::str_eq;

verus! {

/// A runtime value.  A number carries the 64-bit pattern of an IEEE-754
/// binary64 value (see `numeric`).
#[derive(PartialEq, Debug)]
pub enum LoxValue {
    LNumber(u64),
    LString(String),
    LBoolean(bool),
    LNil,
}

/// The mathematical model of a runtime value.
#[verifier::ext_equal]
pub enum ValueModel {
    VNumber(u64),
    VString(Seq<char>),
    VBoolean(bool),
    VNil,
}

impl View for LoxValue {
    type V = ValueModel;

    open spec fn view(&self) -> ValueModel {
        match self {
            LoxValue::LNumber(n) => ValueModel::VNumber(*n),
            LoxValue::LString(s) => ValueModel::VString(s@),
            LoxValue::LBoolean(b) => ValueModel::VBoolean(*b),
            LoxValue::LNil => ValueModel::VNil,
        }
    }
}

impl LoxValue {
    /// An equal value: values are cloned by value, never by reference.
    pub fn duplicate(&self) -> (r: LoxValue)
        ensures
            r@ == self@,
    {
        match self {
            LoxValue::LNumber(n) => LoxValue::LNumber(*n),
            LoxValue::LString(s) => LoxValue::LString(s.clone()),
            LoxValue::LBoolean(b) => LoxValue::LBoolean(*b),
            LoxValue::LNil => LoxValue::LNil,
        }
    }
}

/// Exactly `false` and `nil` are falsy; every other value is truthy,
/// including the number zero and the empty string.
pub open spec fn spec_truthy(v: ValueModel) -> bool {
    !(v == ValueModel::VBoolean(false) || v == ValueModel::VNil)
}

/// Law: exactly `nil` and `false` are falsy; every other value — the
/// number zero and the empty string included — is truthy.
pub proof fn lemma_truthiness()
    ensures
        !spec_truthy(ValueModel::VNil),
        !spec_truthy(ValueModel::VBoolean(false)),
        spec_truthy(ValueModel::VBoolean(true)),
        forall|n: u64| #[trigger] spec_truthy(ValueModel::VNumber(n)),
        forall|s: Seq<char>| #[trigger] spec_truthy(ValueModel::VString(s)),
{
}

/// Whether a value counts as true in a condition, as `spec_truthy` states.
pub fn is_truthy(v: &LoxValue) -> (r: bool)
    ensures
        r == spec_truthy(v@),
{
    match v {
        LoxValue::LBoolean(b) => *b,
        LoxValue::LNil => false,
        _ => true,
    }
}

// ---------------------------------------------------------------------
// Expressions
// ---------------------------------------------------------------------

/// What a unary operator yields: `-` requires a number and flips its sign,
/// `!` requires a boolean and negates it; anything else is a type error.
pub open spec fn spec_apply_unary(op: Op, v: ValueModel) -> Result<ValueModel, ErrorModel> {
    match (op, v) {
        (Op::OpMinus, ValueModel::VNumber(a)) => Ok(ValueModel::VNumber(num_neg(a))),
        (Op::OpNot, ValueModel::VBoolean(b)) => Ok(ValueModel::VBoolean(!b)),
        _ => Err(ErrorModel::TypeE),
    }
}

/// What a binary operator yields, dispatching on the operand shapes:
/// numbers have arithmetic, ordering and equality; strings have
/// concatenation and equality by content; booleans have equality; every
/// other combination is a type error — there is no implicit coercion.
pub open spec fn spec_apply_binary(op: Op, l: ValueModel, r: ValueModel) -> Result<
    ValueModel,
    ErrorModel,
> {
    match (l, op, r) {
        (ValueModel::VNumber(a), Op::OpPlus, ValueModel::VNumber(b)) => Ok(
            ValueModel::VNumber(add_bits(a, b)),
        ),
        (ValueModel::VNumber(a), Op::OpMinus, ValueModel::VNumber(b)) => Ok(
            ValueModel::VNumber(sub_bits(a, b)),
        ),
        (ValueModel::VNumber(a), Op::OpMult, ValueModel::VNumber(b)) => Ok(
            ValueModel::VNumber(mul_bits(a, b)),
        ),
        (ValueModel::VNumber(a), Op::OpDiv, ValueModel::VNumber(b)) => Ok(
            ValueModel::VNumber(div_bits(a, b)),
        ),
        (ValueModel::VNumber(a), Op::OpLt, ValueModel::VNumber(b)) => Ok(
            ValueModel::VBoolean(num_lt(a, b)),
        ),
        (ValueModel::VNumber(a), Op::OpLe, ValueModel::VNumber(b)) => Ok(
            ValueModel::VBoolean(num_le(a, b)),
        ),
        (ValueModel::VNumber(a), Op::OpGt, ValueModel::VNumber(b)) => Ok(
            ValueModel::VBoolean(num_lt(b, a)),
        ),
        (ValueModel::VNumber(a), Op::OpGe, ValueModel::VNumber(b)) => Ok(
            ValueModel::VBoolean(num_le(b, a)),
        ),
        (ValueModel::VNumber(a), Op::OpEq, ValueModel::VNumber(b)) => Ok(
            ValueModel::VBoolean(num_eq(a, b)),
        ),
        (ValueModel::VNumber(a), Op::OpNe, ValueModel::VNumber(b)) => Ok(
            ValueModel::VBoolean(!num_eq(a, b)),
        ),
        (ValueModel::VString(a), Op::OpPlus, ValueModel::VString(b)) => Ok(
            ValueModel::VString(a + b),
        ),
        (ValueModel::VString(a), Op::OpEq, ValueModel::VString(b)) => Ok(
            ValueModel::VBoolean(a == b),
        ),
        (ValueModel::VString(a), Op::OpNe, ValueModel::VString(b)) => Ok(
            ValueModel::VBoolean(a != b),
        ),
        (ValueModel::VBoolean(a), Op::OpEq, ValueModel::VBoolean(b)) => Ok(
            ValueModel::VBoolean(a == b),
        ),
        (ValueModel::VBoolean(a), Op::OpNe, ValueModel::VBoolean(b)) => Ok(
            ValueModel::VBoolean(a != b),
        ),
        _ => Err(ErrorModel::TypeE),
    }
}

/// What evaluating an expression at a handle yields.  Literals evaluate to
/// their values (a numeric literal to the IEEE-754 value its lexeme
/// names; one whose lexeme is not numeric, which no parser output ever
/// holds, is a type error).  A name reads the environment chain; a group
/// evaluates its inner expression; operators dispatch on operand shapes.
/// Expression evaluation never changes the environment.
pub open spec fn spec_eval_expr(e: ExprModel, env: EnvModel, h: int) -> Result<
    ValueModel,
    ErrorModel,
>
    decreases e,
{
    match e {
        ExprModel::ENumber(lex) => if is_number_lexeme(lex) {
            Ok(ValueModel::VNumber(lit_bits(lex)))
        } else {
            Err(ErrorModel::TypeE)
        },
        ExprModel::EString(v) => Ok(ValueModel::VString(v)),
        ExprModel::EBoolean(b) => Ok(ValueModel::VBoolean(b)),
        ExprModel::ENil => Ok(ValueModel::VNil),
        ExprModel::EName(n) => match env_lookup(env, h, n) {
            Some(v) => Ok(v),
            None => Err(ErrorModel::UndefE { name: n }),
        },
        ExprModel::EGroup(v) => spec_eval_expr(*v, env, h),
        ExprModel::EUnary(op, v) => match spec_eval_expr(*v, env, h) {
            Ok(val) => spec_apply_unary(op, val),
            Err(e) => Err(e),
        },
        ExprModel::EBinary(op, l, r) => match spec_eval_expr(*l, env, h) {
            Ok(lv) => match spec_eval_expr(*r, env, h) {
                Ok(rv) => spec_apply_binary(op, lv, rv),
                Err(e) => Err(e),
            },
            Err(e) => Err(e),
        },
    }
}

/// Apply a unary operator, as `spec_apply_unary` states.
pub fn apply_unary(op: Op, v: LoxValue) -> (r: Result<LoxValue, LoxError>)
    ensures
        (match r {
            Ok(val) => spec_apply_unary(op, v@) == Ok::<ValueModel, ErrorModel>(val@),
            Err(e) => spec_apply_unary(op, v@) == Err::<ValueModel, ErrorModel>(e@),
        }),
{
    match (op, v) {
        (Op::OpMinus, LoxValue::LNumber(a)) => Ok(LoxValue::LNumber(negate_number(a))),
        (Op::OpNot, LoxValue::LBoolean(b)) => Ok(LoxValue::LBoolean(!b)),
        _ => Err(LoxError::TypeMismatch),
    }
}

/// Apply a binary operator, as `spec_apply_binary` states.
pub fn apply_binary(op: Op, l: LoxValue, r: LoxValue) -> (res: Result<LoxValue, LoxError>)
    ensures
        (match res {
            Ok(val) => spec_apply_binary(op, l@, r@) == Ok::<ValueModel, ErrorModel>(val@),
            Err(e) => spec_apply_binary(op, l@, r@) == Err::<ValueModel, ErrorModel>(e@),
        }),
{
    match (l, op, r) {
        (LoxValue::LNumber(a), Op::OpPlus, LoxValue::LNumber(b)) => Ok(
            LoxValue::LNumber(add_number(a, b)),
        ),
        (LoxValue::LNumber(a), Op::OpMinus, LoxValue::LNumber(b)) => Ok(
            LoxValue::LNumber(sub_number(a, b)),
        ),
        (LoxValue::LNumber(a), Op::OpMult, LoxValue::LNumber(b)) => Ok(
            LoxValue::LNumber(mul_number(a, b)),
        ),
        (LoxValue::LNumber(a), Op::OpDiv, LoxValue::LNumber(b)) => Ok(
            LoxValue::LNumber(div_number(a, b)),
        ),
        (LoxValue::LNumber(a), Op::OpLt, LoxValue::LNumber(b)) => Ok(
            LoxValue::LBoolean(lt_number(a, b)),
        ),
        (LoxValue::LNumber(a), Op::OpLe, LoxValue::LNumber(b)) => Ok(
            LoxValue::LBoolean(le_number(a, b)),
        ),
        (LoxValue::LNumber(a), Op::OpGt, LoxValue::LNumber(b)) => Ok(
            LoxValue::LBoolean(lt_number(b, a)),
        ),
        (LoxValue::LNumber(a), Op::OpGe, LoxValue::LNumber(b)) => Ok(
            LoxValue::LBoolean(le_number(b, a)),
        ),
        (LoxValue::LNumber(a), Op::OpEq, LoxValue::LNumber(b)) => Ok(
            LoxValue::LBoolean(eq_number(a, b)),
        ),
        (LoxValue::LNumber(a), Op::OpNe, LoxValue::LNumber(b)) => Ok(
            LoxValue::LBoolean(!eq_number(a, b)),
        ),
        (LoxValue::LString(a), Op::OpPlus, LoxValue::LString(b)) => {
            let mut s = a;
            s.append(b.as_str());
            Ok(LoxValue::LString(s))
        },
        (LoxValue::LString(a), Op::OpEq, LoxValue::LString(b)) => Ok(
            LoxValue::LBoolean(str_eq(a.as_str(), b.as_str())),
        ),
        (LoxValue::LString(a), Op::OpNe, LoxValue::LString(b)) => Ok(
            LoxValue::LBoolean(!str_eq(a.as_str(), b.as_str())),
        ),
        (LoxValue::LBoolean(a), Op::OpEq, LoxValue::LBoolean(b)) => Ok(
            LoxValue::LBoolean(a == b),
        ),
        (LoxValue::LBoolean(a), Op::OpNe, LoxValue::LBoolean(b)) => Ok(
            LoxValue::LBoolean(a != b),
        ),
        _ => Err(LoxError::TypeMismatch),
    }
}

// ---------------------------------------------------------------------
// Statements
// ---------------------------------------------------------------------

/// How a run of statements ended.
#[verifier::ext_equal]
pub enum RunStatus {
    /// Every statement ran to completion.
    Done,
    /// The fuel bound on loop iterations was exhausted first.
    Stuck,
    /// A runtime error aborted the run at the point it occurred.
    Failed(ErrorModel),
}

/// The state a run of statements ends in: the environment arena, the
/// values printed so far (printed values persist even when a later error
/// aborts the run), and how the run ended.
#[verifier::ext_equal]
pub struct Outcome {
    pub env: EnvModel,
    pub out: Seq<ValueModel>,
    pub status: RunStatus,
}

/// What executing one statement at handle `h` yields, with at most `fuel`
/// iterations of each `while` loop (the interpreter is a terminating
/// function, so the unbounded tree walk is bounded by an explicit fuel;
/// a caller picks it as large as it likes).
///
/// `print` evaluates and appends the value to the output; an expression
/// statement evaluates and discards; `var` evaluates the initializer and
/// defines the name in the current scope; assignment evaluates the
/// right-hand side and assigns through the chain, and rejects any target
/// that is not a bare name; `if` runs one branch by truthiness; `while`
/// re-evaluates its test before each iteration; a block runs its
/// statements in one fresh child scope.
pub open spec fn spec_exec_stmt(
    s: StmtModel,
    env: EnvModel,
    h: int,
    out: Seq<ValueModel>,
    fuel: nat,
) -> Outcome
    decreases fuel, s, 0nat,
{
    match s {
        StmtModel::SPrint(e) => match spec_eval_expr(e, env, h) {
            Ok(v) => Outcome { env, out: out.push(v), status: RunStatus::Done },
            Err(er) => Outcome { env, out, status: RunStatus::Failed(er) },
        },
        StmtModel::SExpr(e) => match spec_eval_expr(e, env, h) {
            Ok(_) => Outcome { env, out, status: RunStatus::Done },
            Err(er) => Outcome { env, out, status: RunStatus::Failed(er) },
        },
        StmtModel::SVar(n, e) => match spec_eval_expr(e, env, h) {
            Ok(v) => Outcome {
                env: crate::environ::env_define(env, h, n, v),
                out,
                status: RunStatus::Done,
            },
            Err(er) => Outcome { env, out, status: RunStatus::Failed(er) },
        },
        StmtModel::SAssignment(t, e) => match t {
            ExprModel::EName(n) => match spec_eval_expr(e, env, h) {
                Ok(v) => match crate::environ::env_set(env, h, n, v) {
                    Some(env2) => Outcome { env: env2, out, status: RunStatus::Done },
                    None => Outcome {
                        env,
                        out,
                        status: RunStatus::Failed(ErrorModel::UndefE { name: n }),
                    },
                },
                Err(er) => Outcome { env, out, status: RunStatus::Failed(er) },
            },
            _ => Outcome { env, out, status: RunStatus::Failed(ErrorModel::TargetE) },
        },
        StmtModel::SIf(t, c, a) => match spec_eval_expr(t, env, h) {
            Ok(v) => if spec_truthy(v) {
                spec_exec_stmt(*c, env, h, out, fuel)
            } else {
                spec_exec_stmt(*a, env, h, out, fuel)
            },
            Err(er) => Outcome { env, out, status: RunStatus::Failed(er) },
        },
        StmtModel::SWhile(t, b) => {
            if fuel == 0 {
                Outcome { env, out, status: RunStatus::Stuck }
            } else {
                match spec_eval_expr(t, env, h) {
                    Ok(v) => if !spec_truthy(v) {
                        Outcome { env, out, status: RunStatus::Done }
                    } else {
                        let o = spec_exec_stmt(*b, env, h, out, fuel);
                        if o.status == RunStatus::Done {
                            spec_exec_stmt(s, o.env, h, o.out, (fuel - 1) as nat)
                        } else {
                            o
                        }
                    },
                    Err(er) => Outcome { env, out, status: RunStatus::Failed(er) },
                }
            }
        },
        StmtModel::SBlock(ss) => spec_exec_stmts_from(
            ss,
            0,
            env.push(crate::environ::ScopeModel { parent: Some(h), bindings: Seq::empty() }),
            env.len() as int,
            out,
            fuel,
        ),
    }
}

/// What executing the statements of `ss` from index `i` on yields, in
/// order, stopping at the first one that does not finish.
pub open spec fn spec_exec_stmts_from(
    ss: Seq<StmtModel>,
    i: int,
    env: EnvModel,
    h: int,
    out: Seq<ValueModel>,
    fuel: nat,
) -> Outcome
    decreases fuel, ss, (if i <= ss.len() {
        ss.len() - i
    } else {
        0
    }),
{
    if i < 0 || i >= ss.len() {
        Outcome { env, out, status: RunStatus::Done }
    } else {
        let o = spec_exec_stmt(ss[i], env, h, out, fuel);
        if o.status == RunStatus::Done {
            spec_exec_stmts_from(ss, i + 1, o.env, h, o.out, fuel)
        } else {
            o
        }
    }
}

/// What executing a whole sequence of statements yields.
pub open spec fn spec_exec_stmts(
    ss: Seq<StmtModel>,
    env: EnvModel,
    h: int,
    out: Seq<ValueModel>,
    fuel: nat,
) -> Outcome {
    spec_exec_stmts_from(ss, 0, env, h, out, fuel)
}

/// The models of the values printed so far.
pub open spec fn out_view(vs: Seq<LoxValue>) -> Seq<ValueModel> {
    vs.map_values(|v: LoxValue| v@)
}

/// Law: there is no implicit coercion between types: a binary operator
/// succeeds only on two numbers, on two strings under `+`, `==` or `!=`,
/// or on two booleans under `==` or `!=`.
pub proof fn lemma_no_coercion(op: Op, l: ValueModel, r: ValueModel)
    ensures
        spec_apply_binary(op, l, r) is Ok ==> ((l is VNumber && r is VNumber) || (l is VString
            && r is VString && (op == Op::OpPlus || op == Op::OpEq || op == Op::OpNe)) || (
        l is VBoolean && r is VBoolean && (op == Op::OpEq || op == Op::OpNe))),
        !(l is VNumber && r is VNumber) && !(l is VString && r is VString) && !(l is VBoolean
            && r is VBoolean) ==> spec_apply_binary(op, l, r) == Err::<ValueModel, ErrorModel>(
            ErrorModel::TypeE,
        ),
{
}

/// Law: executing one statement never removes a scope, never changes the
/// parent link of an existing scope, and changes which names are bound
/// only in the scope it runs in, where bindings can only be added.
pub proof fn lemma_stmt_preserves_outer(
    s: StmtModel,
    env: EnvModel,
    h: int,
    out: Seq<ValueModel>,
    fuel: nat,
)
    requires
        0 <= h < env.len(),
    ensures
        spec_exec_stmt(s, env, h, out, fuel).env.len() >= env.len(),
        forall|j: int|
            0 <= j < env.len() ==> (#[trigger] spec_exec_stmt(s, env, h, out, fuel).env[j]).parent
                == env[j].parent,
        forall|j: int, m: Seq<char>|
            0 <= j < env.len() && j != h ==> #[trigger] crate::environ::binds(
                spec_exec_stmt(s, env, h, out, fuel).env[j],
                m,
            ) == crate::environ::binds(env[j], m),
        forall|m: Seq<char>|
            crate::environ::binds(env[h], m) ==> #[trigger] crate::environ::binds(
                spec_exec_stmt(s, env, h, out, fuel).env[h],
                m,
            ),
    decreases fuel, s, 0nat,
{
    let o = spec_exec_stmt(s, env, h, out, fuel);
    match s {
        StmtModel::SPrint(_) => {},
        StmtModel::SExpr(_) => {},
        StmtModel::SVar(n, e) => {
            match spec_eval_expr(e, env, h) {
                Ok(v) => {
                    crate::environ::lemma_define_effect(env, h, n, v);
                },
                Err(_) => {},
            }
        },
        StmtModel::SAssignment(t, e) => {
            match t {
                ExprModel::EName(n) => {
                    match spec_eval_expr(e, env, h) {
                        Ok(v) => {
                            if crate::environ::env_set(env, h, n, v) is Some {
                                crate::environ::lemma_set_preserves_domains(env, h, n, v);
                            }
                        },
                        Err(_) => {},
                    }
                },
                _ => {},
            }
        },
        StmtModel::SIf(t, c, a) => {
            match spec_eval_expr(t, env, h) {
                Ok(v) => {
                    if spec_truthy(v) {
                        lemma_stmt_preserves_outer(*c, env, h, out, fuel);
                    } else {
                        lemma_stmt_preserves_outer(*a, env, h, out, fuel);
                    }
                },
                Err(_) => {},
            }
        },
        StmtModel::SWhile(t, b) => {
            if fuel == 0 {
            } else {
                match spec_eval_expr(t, env, h) {
                    Ok(v) => {
                        if spec_truthy(v) {
                            let o1 = spec_exec_stmt(*b, env, h, out, fuel);
                            lemma_stmt_preserves_outer(*b, env, h, out, fuel);
                            if o1.status == RunStatus::Done {
                                lemma_stmt_preserves_outer(s, o1.env, h, o1.out, (fuel - 1) as nat);
                            }
                        }
                    },
                    Err(_) => {},
                }
            }
        },
        StmtModel::SBlock(ss) => {
            let env1 = env.push(
                crate::environ::ScopeModel { parent: Some(h), bindings: Seq::empty() },
            );
            lemma_stmts_preserves_outer(ss, 0, env1, env.len() as int, out, fuel);
        },
    }
}

/// Law: executing a statement sequence preserves outer scopes the same
/// way each of its statements does.
pub proof fn lemma_stmts_preserves_outer(
    ss: Seq<StmtModel>,
    i: int,
    env: EnvModel,
    h: int,
    out: Seq<ValueModel>,
    fuel: nat,
)
    requires
        0 <= h < env.len(),
    ensures
        spec_exec_stmts_from(ss, i, env, h, out, fuel).env.len() >= env.len(),
        forall|j: int|
            0 <= j < env.len() ==> (#[trigger] spec_exec_stmts_from(
                ss,
                i,
                env,
                h,
                out,
                fuel,
            ).env[j]).parent == env[j].parent,
        forall|j: int, m: Seq<char>|
            0 <= j < env.len() && j != h ==> #[trigger] crate::environ::binds(
                spec_exec_stmts_from(ss, i, env, h, out, fuel).env[j],
                m,
            ) == crate::environ::binds(env[j], m),
        forall|m: Seq<char>|
            crate::environ::binds(env[h], m) ==> #[trigger] crate::environ::binds(
                spec_exec_stmts_from(ss, i, env, h, out, fuel).env[h],
                m,
            ),
    decreases fuel, ss, (if i <= ss.len() {
        ss.len() - i
    } else {
        0
    }),
{
    if i < 0 || i >= ss.len() {
    } else {
        let o1 = spec_exec_stmt(ss[i], env, h, out, fuel);
        lemma_stmt_preserves_outer(ss[i], env, h, out, fuel);
        if o1.status == RunStatus::Done {
            lemma_stmts_preserves_outer(ss, i + 1, o1.env, h, o1.out, fuel);
        }
    }
}

/// Law: shadowing does not leak.  A block runs in one fresh child scope:
/// executing it never adds a name to, nor removes a name from, any scope
/// that existed before the block, and never changes a parent link — a
/// `var` inside the block is invisible outside it.  (Assignment inside
/// the block can still change what an outer binding holds, never whether
/// it exists.)
pub proof fn lemma_block_scopes_do_not_leak(
    ss: Seq<StmtModel>,
    env: EnvModel,
    h: int,
    out: Seq<ValueModel>,
    fuel: nat,
)
    requires
        0 <= h < env.len(),
    ensures
        spec_exec_stmt(StmtModel::SBlock(ss), env, h, out, fuel).env.len() >= env.len(),
        forall|j: int|
            0 <= j < env.len() ==> (#[trigger] spec_exec_stmt(
                StmtModel::SBlock(ss),
                env,
                h,
                out,
                fuel,
            ).env[j]).parent == env[j].parent,
        forall|j: int, m: Seq<char>|
            0 <= j < env.len() ==> #[trigger] crate::environ::binds(
                spec_exec_stmt(StmtModel::SBlock(ss), env, h, out, fuel).env[j],
                m,
            ) == crate::environ::binds(env[j], m),
{
    let env1 = env.push(crate::environ::ScopeModel { parent: Some(h), bindings: Seq::empty() });
    lemma_stmts_preserves_outer(ss, 0, env1, env.len() as int, out, fuel);
    assert forall|j: int, m: Seq<char>| 0 <= j < env.len() implies #[trigger] crate::environ::binds(
        spec_exec_stmt(StmtModel::SBlock(ss), env, h, out, fuel).env[j],
        m,
    ) == crate::environ::binds(env[j], m) by {
        assert(env1[j] == env[j]);
    }
}

/// Law: a reference to a name fails with `UndefinedVariable` exactly when
/// no enclosing scope declares the name, and otherwise yields what the
/// innermost declaring scope holds.
pub proof fn lemma_name_reference(env: EnvModel, h: int, n: Seq<char>)
    requires
        crate::environ::env_wf(env),
    ensures
        spec_eval_expr(ExprModel::EName(n), env, h) == (match crate::environ::env_lookup(
            env,
            h,
            n,
        ) {
            Some(v) => Ok::<ValueModel, ErrorModel>(v),
            None => Err::<ValueModel, ErrorModel>(ErrorModel::UndefE { name: n }),
        }),
        (spec_eval_expr(ExprModel::EName(n), env, h) == Err::<ValueModel, ErrorModel>(
            ErrorModel::UndefE { name: n },
        )) <==> !crate::environ::bound_in_chain(env, h, n),
{
    crate::environ::lemma_lookup_none_iff_unbound(env, h, n);
}

/// Law: an assignment into a name fails with `UndefinedVariable` exactly
/// when no enclosing scope declares the name (the right-hand side having
/// evaluated), and a `var` declaration of the name first makes the same
/// assignment succeed.
pub proof fn lemma_assignment_undefined(
    env: EnvModel,
    h: int,
    n: Seq<char>,
    e: ExprModel,
    out: Seq<ValueModel>,
    fuel: nat,
)
    requires
        crate::environ::env_wf(env),
        0 <= h < env.len(),
        spec_eval_expr(e, env, h) is Ok,
    ensures
        spec_exec_stmt(StmtModel::SAssignment(ExprModel::EName(n), e), env, h, out, fuel).status
            == (if crate::environ::bound_in_chain(env, h, n) {
            RunStatus::Done
        } else {
            RunStatus::Failed(ErrorModel::UndefE { name: n })
        }),
        spec_exec_stmt(
            StmtModel::SVar(n, e),
            env,
            h,
            out,
            fuel,
        ).status == RunStatus::Done && crate::environ::bound_in_chain(
            spec_exec_stmt(StmtModel::SVar(n, e), env, h, out, fuel).env,
            h,
            n,
        ),
{
    let v = spec_eval_expr(e, env, h)->Ok_0;
    crate::environ::lemma_set_none_iff_unbound(env, h, n, v);
    crate::environ::lemma_define_effect(env, h, n, v);
    let env2 = crate::environ::env_define(env, h, n, v);
    assert(crate::environ::binds(env2[h], n));
}

/// How a run of statements ended, as the executable evaluator reports it.
#[derive(PartialEq, Debug)]
pub enum RunResult {
    Finished,
    OutOfFuel,
    Aborted(LoxError),
}

impl View for RunResult {
    type V = RunStatus;

    open spec fn view(&self) -> RunStatus {
        match self {
            RunResult::Finished => RunStatus::Done,
            RunResult::OutOfFuel => RunStatus::Stuck,
            RunResult::Aborted(e) => RunStatus::Failed(e@),
        }
    }
}

/// Evaluate an expression at handle `scope`, as `spec_eval_expr` states.
pub fn interpret_expression(expr: &Expression, env: &Environment, scope: usize) -> (r: Result<
    LoxValue,
    LoxError,
>)
    requires
        env_wf(env@),
        scope < env@.len(),
    ensures
        (match r {
            Ok(v) => spec_eval_expr(expr@, env@, scope as int) == Ok::<ValueModel, ErrorModel>(v@),
            Err(e) => spec_eval_expr(expr@, env@, scope as int) == Err::<ValueModel, ErrorModel>(
                e@,
            ),
        }),
    decreases *expr,
{
    match expr {
        Expression::ENumber(lex) => {
            if check_number_lexeme(lex.as_str()) {
                Ok(LoxValue::LNumber(number_of_lexeme(lex.as_str())))
            } else {
                Err(LoxError::TypeMismatch)
            }
        },
        Expression::EString(v) => Ok(LoxValue::LString(v.clone())),
        Expression::EBoolean(b) => Ok(LoxValue::LBoolean(*b)),
        Expression::ENil => Ok(LoxValue::LNil),
        Expression::EName(n) => {
            match env.lookup(scope, n.as_str()) {
                Some(v) => Ok(v),
                None => Err(LoxError::UndefinedVariable { name: n.clone() }),
            }
        },
        Expression::EGroup(v) => interpret_expression(v, env, scope),
        Expression::EUnary(op, v) => {
            match interpret_expression(v, env, scope) {
                Ok(val) => apply_unary(*op, val),
                Err(e) => Err(e),
            }
        },
        Expression::EBinary(op, l, r) => {
            match interpret_expression(l, env, scope) {
                Ok(lv) => {
                    match interpret_expression(r, env, scope) {
                        Ok(rv) => apply_binary(*op, lv, rv),
                        Err(e) => Err(e),
                    }
                },
                Err(e) => Err(e),
            }
        },
    }
}

/// Execute one statement at handle `scope`, as `spec_exec_stmt` states:
/// the environment and the printed output advance together, and the
/// result reports how the run ended.
pub fn interpret_statement(
    stmt: &Statement,
    env: &mut Environment,
    scope: usize,
    out: &mut Vec<LoxValue>,
    fuel: u64,
) -> (r: RunResult)
    requires
        env_wf(old(env)@),
        scope < old(env)@.len(),
    ensures
        env_wf(final(env)@),
        old(env)@.len() <= final(env)@.len(),
        spec_exec_stmt(stmt@, old(env)@, scope as int, out_view(old(out)@), fuel as nat)
            == (Outcome { env: final(env)@, out: out_view(final(out)@), status: r@ }),
    decreases fuel, *stmt,
{
    match stmt {
        Statement::SPrint(e) => {
            match interpret_expression(e, env, scope) {
                Ok(v) => {
                    let ghost before = out@;
                    out.push(v);
                    proof {
                        assert(out_view(out@) =~= out_view(before).push(v@));
                    }
                    RunResult::Finished
                },
                Err(er) => RunResult::Aborted(er),
            }
        },
        Statement::SExpr(e) => {
            match interpret_expression(e, env, scope) {
                Ok(_) => RunResult::Finished,
                Err(er) => RunResult::Aborted(er),
            }
        },
        Statement::SVar(n, e) => {
            match interpret_expression(e, env, scope) {
                Ok(v) => {
                    env.define(scope, n.as_str(), v);
                    RunResult::Finished
                },
                Err(er) => RunResult::Aborted(er),
            }
        },
        Statement::SAssignment(t, e) => {
            match t {
                Expression::EName(n) => {
                    match interpret_expression(e, env, scope) {
                        Ok(v) => {
                            match env.set(scope, n.as_str(), v) {
                                Ok(()) => RunResult::Finished,
                                Err(er) => RunResult::Aborted(er),
                            }
                        },
                        Err(er) => RunResult::Aborted(er),
                    }
                },
                _ => RunResult::Aborted(LoxError::InvalidAssignmentTarget),
            }
        },
        Statement::SIf(t, c, a) => {
            match interpret_expression(t, env, scope) {
                Ok(v) => {
                    if is_truthy(&v) {
                        interpret_statement(c, env, scope, out, fuel)
                    } else {
                        interpret_statement(a, env, scope, out, fuel)
                    }
                },
                Err(er) => RunResult::Aborted(er),
            }
        },
        Statement::SWhile(t, b) => {
            let mut gas = fuel;
            loop
                invariant
                    env_wf(env@),
                    scope < env@.len(),
                    old(env)@.len() <= env@.len(),
                    *stmt == Statement::SWhile(*t, *b),
                    gas <= fuel,
                    spec_exec_stmt(stmt@, old(env)@, scope as int, out_view(old(out)@), fuel as nat)
                        == spec_exec_stmt(stmt@, env@, scope as int, out_view(out@), gas as nat),
                decreases gas,
            {
                if gas == 0 {
                    return RunResult::OutOfFuel;
                }
                match interpret_expression(t, env, scope) {
                    Err(er) => {
                        return RunResult::Aborted(er);
                    },
                    Ok(v) => {
                        if !is_truthy(&v) {
                            return RunResult::Finished;
                        }
                        match interpret_statement(b, env, scope, out, gas) {
                            RunResult::Finished => {
                                gas = gas - 1;
                            },
                            RunResult::OutOfFuel => {
                                return RunResult::OutOfFuel;
                            },
                            RunResult::Aborted(er) => {
                                return RunResult::Aborted(er);
                            },
                        }
                    },
                }
            }
        },
        Statement::SBlock(ss) => {
            proof {
                assert(*ss == stmt->SBlock_0);
                assert(decreases_to!(*stmt => stmt->SBlock_0));
            }
            let child = env.new_scope(scope);
            interpret_statements(ss, env, child, out, fuel)
        },
    }
}

/// Execute a sequence of statements in order at handle `scope`, as
/// `spec_exec_stmts` states, stopping at the first that does not finish.
pub fn interpret_statements(
    stmts: &Statements,
    env: &mut Environment,
    scope: usize,
    out: &mut Vec<LoxValue>,
    fuel: u64,
) -> (r: RunResult)
    requires
        env_wf(old(env)@),
        scope < old(env)@.len(),
    ensures
        env_wf(final(env)@),
        old(env)@.len() <= final(env)@.len(),
        spec_exec_stmts(stmts_view(stmts@), old(env)@, scope as int, out_view(old(out)@),
            fuel as nat) == (Outcome {
            env: final(env)@,
            out: out_view(final(out)@),
            status: r@,
        }),
    decreases fuel, *stmts,
{
    let ghost ssv = stmts_view(stmts@);
    proof {
        crate::ast::lemma_stmts_view_len(stmts@);
    }
    let mut i: usize = 0;
    loop
        invariant
            env_wf(env@),
            scope < env@.len(),
            old(env)@.len() <= env@.len(),
            i <= stmts@.len(),
            ssv == stmts_view(stmts@),
            ssv.len() == stmts@.len(),
            forall|k: int| 0 <= k < stmts@.len() ==> ssv[k] == crate::ast::stmt_view(stmts@[k]),
            spec_exec_stmts_from(ssv, 0, old(env)@, scope as int, out_view(old(out)@), fuel as nat)
                == spec_exec_stmts_from(ssv, i as int, env@, scope as int, out_view(out@),
                fuel as nat),
        ensures
            env_wf(env@),
            old(env)@.len() <= env@.len(),
            i == stmts@.len(),
            spec_exec_stmts_from(ssv, 0, old(env)@, scope as int, out_view(old(out)@), fuel as nat)
                == spec_exec_stmts_from(ssv, i as int, env@, scope as int, out_view(out@),
                fuel as nat),
        decreases stmts@.len() - i,
    {
        if i >= stmts.len() {
            break ;
        }
        proof {
            assert(decreases_to!(*stmts => stmts@));
            assert(decreases_to!(stmts@ => stmts@[i as int]));
        }
        match interpret_statement(&stmts[i], env, scope, out, fuel) {
            RunResult::Finished => {
                i += 1;
            },
            RunResult::OutOfFuel => {
                return RunResult::OutOfFuel;
            },
            RunResult::Aborted(er) => {
                return RunResult::Aborted(er);
            },
        }
    }
    RunResult::Finished
}

/// Run a whole program against a fresh root environment: the values its
/// `print` statements produced, in execution order (kept even when an
/// error aborts the run), and how the run ended.
pub fn interpret(program: &Statements, fuel: u64) -> (r: (Vec<LoxValue>, RunResult))
    ensures
        ({
            let o = spec_exec_stmts(
                stmts_view(program@),
                seq![
                    (crate::environ::ScopeModel { parent: None, bindings: Seq::empty() }),
                ],
                0,
                Seq::empty(),
                fuel as nat,
            );
            out_view(r.0@) == o.out && r.1@ == o.status
        }),
{
    let mut env = Environment::new();
    let mut out: Vec<LoxValue> = Vec::new();
    proof {
        assert(env@ =~~= seq![
            (crate::environ::ScopeModel { parent: None, bindings: Seq::empty() }),
        ]);
        assert(out_view(out@) =~= Seq::<ValueModel>::empty());
    }
    let r = interpret_statements(program, &mut env, 0, &mut out, fuel);
    (out, r)
}

} // verus!
