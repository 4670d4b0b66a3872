//! Round-trip formatting: rendering an expression tree to source text and
//! re-parsing it reproduces an equal tree.
//!
//! The law holds of well-formed trees: lexemes must be what the scanner
//! could have produced (a numeric lexeme for a number, no stray quote in a
//! string, an identifier that is not a reserved word for a name), operator
//! positions must carry operators of their kind, and the tree's shape must
//! agree with the precedence and left-associativity that `format` renders
//! silently — `format` inserts no parentheses of its own, so a tree that
//! puts an addition under a multiplication without an explicit group, or
//! nests a subtraction to the right, renders to text that re-parses
//! differently.  `wf_expr` states exactly the trees the grammar can
//! produce, level by level.

use vstd::prelude::*;

use crate::TokenModel;
use crate::TokenType;
use crate::ast::ExprModel;
use crate::ast::Op;
use crate::ast::op_lexeme;
use crate::ast::spec_format_expr;
use crate::numeric::is_number_lexeme;
use crate::tokenize::count_nl;
use crate::tokenize::is_digit_c;
use crate::tokenize::is_ident_c;
use crate::tokenize::is_ident_start_c;
use crate::tokenize::keyword_type;
use crate::tokenize::lemma_run_len_is;
use crate::tokenize::num_run;
use crate::tokenize::one_char_type;
use crate::tokenize::run_len;
use crate::tokenize::spec_match_comment;
use crate::tokenize::spec_match_identifier;
use crate::tokenize::spec_match_number;
use crate::tokenize::spec_match_string;
use crate::tokenize::spec_match_two;
use crate::tokenize::spec_match_whitespace;
use crate::tokenize::spec_next_token;
use crate::tokenize::spec_tokenize_at;
use crate::tokenize::two_char_type;

verus! {

/// A lexeme the scanner could produce as an identifier.
pub open spec fn is_ident_lexeme(s: Seq<char>) -> bool {
    s.len() >= 1 && is_ident_start_c(s[0]) && (forall|k: int|
        0 <= k < s.len() ==> is_ident_c(#[trigger] s[k]))
}

/// A string literal body the scanner could produce: no quote inside.
pub open spec fn is_string_lexeme(s: Seq<char>) -> bool {
    forall|k: int| 0 <= k < s.len() ==> #[trigger] s[k] != '"'
}

/// A well-formed primary: a literal with a scannable lexeme, a name that
/// is not a reserved word, or a parenthesized group around any
/// well-formed expression.
pub open spec fn wf_primary(e: ExprModel) -> bool
    decreases e, 0nat,
{
    match e {
        ExprModel::ENumber(lex) => is_number_lexeme(lex),
        ExprModel::EString(v) => is_string_lexeme(v),
        ExprModel::EBoolean(_) => true,
        ExprModel::ENil => true,
        ExprModel::EName(n) => is_ident_lexeme(n) && keyword_type(n) == TokenType::IDENTIFIER,
        ExprModel::EGroup(v) => wf_expr(*v),
        _ => false,
    }
}

pub open spec fn wf_unary(e: ExprModel) -> bool
    decreases e, 1nat,
{
    wf_primary(e) || (match e {
        ExprModel::EUnary(op, v) => (op == Op::OpMinus || op == Op::OpNot) && wf_unary(*v),
        _ => false,
    })
}

pub open spec fn wf_factor(e: ExprModel) -> bool
    decreases e, 2nat,
{
    wf_unary(e) || (match e {
        ExprModel::EBinary(op, l, r) => (op == Op::OpMult || op == Op::OpDiv) && wf_factor(*l)
            && wf_unary(*r),
        _ => false,
    })
}

pub open spec fn wf_term(e: ExprModel) -> bool
    decreases e, 3nat,
{
    wf_factor(e) || (match e {
        ExprModel::EBinary(op, l, r) => (op == Op::OpPlus || op == Op::OpMinus) && wf_term(*l)
            && wf_factor(*r),
        _ => false,
    })
}

pub open spec fn wf_comparison(e: ExprModel) -> bool
    decreases e, 4nat,
{
    wf_term(e) || (match e {
        ExprModel::EBinary(op, l, r) => (op == Op::OpLt || op == Op::OpLe || op == Op::OpGt || op
            == Op::OpGe) && wf_comparison(*l) && wf_term(*r),
        _ => false,
    })
}

pub open spec fn wf_equality(e: ExprModel) -> bool
    decreases e, 5nat,
{
    wf_comparison(e) || (match e {
        ExprModel::EBinary(op, l, r) => (op == Op::OpEq || op == Op::OpNe) && wf_equality(*l)
            && wf_comparison(*r),
        _ => false,
    })
}

/// A tree the parser could have produced.
pub open spec fn wf_expr(e: ExprModel) -> bool
    decreases e, 6nat,
{
    wf_equality(e)
}

/// The token kind an operator's lexeme scans to.
pub open spec fn op_token_type(op: Op) -> TokenType {
    match op {
        Op::OpPlus => TokenType::PLUS,
        Op::OpMinus => TokenType::MINUS,
        Op::OpMult => TokenType::STAR,
        Op::OpDiv => TokenType::SLASH,
        Op::OpLt => TokenType::LT,
        Op::OpLe => TokenType::LE,
        Op::OpGt => TokenType::GT,
        Op::OpGe => TokenType::GE,
        Op::OpEq => TokenType::EQ,
        Op::OpNe => TokenType::NE,
        Op::OpNot => TokenType::BANG,
    }
}

/// The tokens scanning a rendered expression yields (without the final
/// `EOF`), all on one line: rendering emits no newline.
pub open spec fn expr_tokens(e: ExprModel, line: int) -> Seq<TokenModel>
    decreases e,
{
    match e {
        ExprModel::ENumber(lex) => seq![
            (TokenModel { toktype: TokenType::NUMBER, lexeme: lex, line }),
        ],
        ExprModel::EString(v) => seq![
            (TokenModel { toktype: TokenType::STRING, lexeme: v, line }),
        ],
        ExprModel::EBoolean(b) => if b {
            seq![(TokenModel { toktype: TokenType::TRUE, lexeme: "true"@, line })]
        } else {
            seq![(TokenModel { toktype: TokenType::FALSE, lexeme: "false"@, line })]
        },
        ExprModel::ENil => seq![(TokenModel { toktype: TokenType::NIL, lexeme: "nil"@, line })],
        ExprModel::EName(n) => seq![
            (TokenModel { toktype: TokenType::IDENTIFIER, lexeme: n, line }),
        ],
        ExprModel::EBinary(op, l, r) => expr_tokens(*l, line) + seq![
            (TokenModel { toktype: op_token_type(op), lexeme: op_lexeme(op), line }),
        ] + expr_tokens(*r, line),
        ExprModel::EUnary(op, v) => seq![
            (TokenModel { toktype: op_token_type(op), lexeme: op_lexeme(op), line }),
        ] + expr_tokens(*v, line),
        ExprModel::EGroup(v) => seq![
            (TokenModel { toktype: TokenType::LPAREN, lexeme: "("@, line }),
        ] + expr_tokens(*v, line) + seq![
            (TokenModel { toktype: TokenType::RPAREN, lexeme: ")"@, line }),
        ],
    }
}

/// A scan outcome with more tokens in front.
pub open spec fn prepend_tokens(ts: Seq<TokenModel>, r: Result<Seq<TokenModel>, (char, int)>)
    -> Result<Seq<TokenModel>, (char, int)> {
    match r {
        Ok(us) => Ok(ts + us),
        Err(x) => Err(x),
    }
}

pub proof fn lemma_prepend_assoc(
    a: Seq<TokenModel>,
    b: Seq<TokenModel>,
    r: Result<Seq<TokenModel>, (char, int)>,
)
    ensures
        prepend_tokens(a, prepend_tokens(b, r)) == prepend_tokens(a + b, r),
{
    match r {
        Ok(us) => {
            assert(a + (b + us) =~= (a + b) + us);
        },
        Err(_) => {},
    }
}

/// A run over a qualifying prefix stops exactly where the suffix starts.
pub proof fn lemma_run_len_append(u: Seq<char>, s: Seq<char>, p: spec_fn(char) -> bool)
    requires
        forall|k: int| 0 <= k < u.len() ==> p(#[trigger] u[k]),
        s.len() > 0 ==> !p(s[0]),
    ensures
        run_len(u + s, p) == u.len(),
{
    let t = u + s;
    assert forall|k: int| 0 <= k < u.len() implies p(#[trigger] t[k]) by {
        assert(t[k] == u[k]);
    }
    if (u.len() as int) < t.len() {
        assert(t[u.len() as int] == s[0]);
    }
    lemma_run_len_is(t, p, u.len() as int);
}

/// A full numeric lexeme followed by anything that cannot extend it scans
/// to exactly the lexeme.
pub proof fn lemma_num_run_append(u: Seq<char>, s: Seq<char>, seen: bool)
    requires
        num_run(u, seen) == u.len(),
        s.len() > 0 ==> !is_digit_c(s[0]) && s[0] != '.',
    ensures
        num_run(u + s, seen) == u.len(),
    decreases u.len(),
{
    let t = u + s;
    if u.len() == 0 {
        assert(t =~= s);
        if s.len() > 0 {
            assert(num_run(s, seen) == 0);
        }
    } else {
        assert(t[0] == u[0]);
        assert(t.skip(1) =~= u.skip(1) + s);
        if is_digit_c(u[0]) {
            lemma_num_run_append(u.skip(1), s, seen);
        } else {
            assert(u[0] == '.' && !seen);
            lemma_num_run_append(u.skip(1), s, true);
        }
    }
}

/// Scanning a numeric lexeme at the head of the input takes exactly the
/// lexeme as one `NUMBER` token.
pub proof fn lemma_scan_number(lex: Seq<char>, s: Seq<char>, line: int)
    requires
        is_number_lexeme(lex),
        s.len() > 0 ==> !is_digit_c(s[0]) && s[0] != '.',
    ensures
        spec_tokenize_at(lex + s, line) == prepend_tokens(
            seq![(TokenModel { toktype: TokenType::NUMBER, lexeme: lex, line })],
            spec_tokenize_at(s, line),
        ),
{
    let t = lex + s;
    assert(t[0] == lex[0]);
    assert(spec_match_whitespace(t) is None);
    assert(spec_match_comment(t) is None);
    assert(spec_match_identifier(t) is None);
    lemma_num_run_append(lex, s, false);
    assert(spec_match_number(t) == Some(t.take(lex.len() as int)));
    assert(t.take(lex.len() as int) =~= lex);
    assert(spec_next_token(t) == Some((TokenType::NUMBER, lex, lex.len())));
    assert(t.skip(lex.len() as int) =~= s);
}

/// Scanning an identifier lexeme at the head of the input takes exactly
/// the lexeme as one token, classified by the keyword table.
pub proof fn lemma_scan_ident(n: Seq<char>, s: Seq<char>, line: int)
    requires
        is_ident_lexeme(n),
        s.len() > 0 ==> !is_ident_c(s[0]),
    ensures
        spec_tokenize_at(n + s, line) == prepend_tokens(
            seq![(TokenModel { toktype: keyword_type(n), lexeme: n, line })],
            spec_tokenize_at(s, line),
        ),
{
    let t = n + s;
    assert(t[0] == n[0]);
    assert(spec_match_whitespace(t) is None);
    assert(spec_match_comment(t) is None);
    lemma_run_len_append(n, s, |c: char| is_ident_c(c));
    assert(spec_match_identifier(t) == Some(t.take(n.len() as int)));
    assert(t.take(n.len() as int) =~= n);
    assert(spec_next_token(t) == Some((keyword_type(n), n, n.len())));
    assert(t.skip(n.len() as int) =~= s);
}

/// Scanning a quoted string at the head of the input takes the quotes and
/// yields their contents as one `STRING` token.
pub proof fn lemma_scan_string(v: Seq<char>, s: Seq<char>, line: int)
    requires
        is_string_lexeme(v),
    ensures
        spec_tokenize_at(seq!['"'] + v + seq!['"'] + s, line) == prepend_tokens(
            seq![(TokenModel { toktype: TokenType::STRING, lexeme: v, line })],
            spec_tokenize_at(s, line),
        ),
{
    let t = seq!['"'] + v + seq!['"'] + s;
    assert(t[0] == '"');
    assert(spec_match_whitespace(t) is None);
    assert(spec_match_comment(t) is None);
    assert(spec_match_identifier(t) is None);
    assert(spec_match_number(t) is None);
    assert(t.skip(1) =~= v + (seq!['"'] + s));
    assert((seq!['"'] + s)[0] == '"');
    lemma_run_len_append(v, seq!['"'] + s, |c: char| c != '"');
    assert(run_len(t.skip(1), |c: char| c != '"') == v.len());
    assert(1 + v.len() < t.len());
    assert(spec_match_string(t) == Some(t.subrange(1, 1 + v.len() as int)));
    assert(t.subrange(1, 1 + v.len() as int) =~= v);
    assert(spec_next_token(t) == Some((TokenType::STRING, v, v.len() + 2)));
    assert(t.skip(v.len() as int + 2) =~= s);
}

/// Scanning a one-character symbol that nothing after it can extend.
pub proof fn lemma_scan_one_symbol(c: char, s: Seq<char>, line: int)
    requires
        one_char_type(c) is Some,
        (c == '<' || c == '>' || c == '=' || c == '!') ==> (s.len() == 0 || s[0] != '='),
        c == '/' ==> (s.len() == 0 || s[0] != '/'),
    ensures
        spec_tokenize_at(seq![c] + s, line) == prepend_tokens(
            seq![(TokenModel { toktype: one_char_type(c)->Some_0, lexeme: seq![c], line })],
            spec_tokenize_at(s, line),
        ),
{
    let t = seq![c] + s;
    assert(t[0] == c);
    assert(spec_match_whitespace(t) is None);
    assert(spec_match_comment(t) is None);
    assert(spec_match_identifier(t) is None);
    assert(spec_match_number(t) is None);
    assert(spec_match_string(t) is None);
    if t.len() >= 2 {
        assert(t[1] == s[0]);
        assert(spec_match_two(t) is None);
    }
    assert(spec_next_token(t) == Some((one_char_type(c)->Some_0, t.take(1), 1nat)));
    assert(t.take(1) =~= seq![c]);
    assert(t.skip(1) =~= s);
}

/// Scanning a two-character symbol: both characters go into one token.
pub proof fn lemma_scan_two_symbol(c0: char, c1: char, s: Seq<char>, line: int)
    requires
        two_char_type(c0, c1) is Some,
    ensures
        spec_tokenize_at(seq![c0, c1] + s, line) == prepend_tokens(
            seq![
                (TokenModel {
                    toktype: two_char_type(c0, c1)->Some_0,
                    lexeme: seq![c0, c1],
                    line,
                }),
            ],
            spec_tokenize_at(s, line),
        ),
{
    let t = seq![c0, c1] + s;
    assert(t[0] == c0 && t[1] == c1);
    assert(spec_match_whitespace(t) is None);
    assert(spec_match_comment(t) is None);
    assert(spec_match_identifier(t) is None);
    assert(spec_match_number(t) is None);
    assert(spec_match_string(t) is None);
    assert(spec_match_two(t) == Some(two_char_type(c0, c1)->Some_0));
    assert(spec_next_token(t) == Some((two_char_type(c0, c1)->Some_0, t.take(2), 2nat)));
    assert(t.take(2) =~= seq![c0, c1]);
    assert(t.skip(2) =~= s);
}

/// Scanning one separating space: it is dropped and the line stands.
pub proof fn lemma_scan_space(s: Seq<char>, line: int)
    requires
        1 <= line <= i32::MAX,
        s.len() > 0 ==> !crate::tokenize::is_space_c(s[0]),
    ensures
        spec_tokenize_at(seq![' '] + s, line) == spec_tokenize_at(s, line),
{
    let t = seq![' '] + s;
    assert(t[0] == ' ');
    lemma_run_len_append(seq![' '], s, |c: char| crate::tokenize::is_space_c(c));
    assert(spec_match_whitespace(t) == Some(t.take(1)));
    assert(t.take(1) =~= seq![' ']);
    assert(spec_next_token(t) == Some((TokenType::WHITESPACE, seq![' '], 1nat)));
    assert(count_nl(seq![' ']) == 0) by {
        assert(seq![' '].skip(1) =~= Seq::<char>::empty());
        assert(count_nl(Seq::<char>::empty()) == 0);
    }
    assert(crate::tokenize::line_add(line, 0) == line);
    assert(t.skip(1) =~= s);
}

pub proof fn lemma_expr_tokens_len(e: ExprModel, line: int)
    ensures
        expr_tokens(e, line).len() >= 1,
    decreases e,
{
    match e {
        ExprModel::EBinary(op, l, r) => {
            lemma_expr_tokens_len(*l, line);
            lemma_expr_tokens_len(*r, line);
        },
        ExprModel::EUnary(op, v) => {
            lemma_expr_tokens_len(*v, line);
        },
        ExprModel::EGroup(v) => {
            lemma_expr_tokens_len(*v, line);
        },
        _ => {},
    }
}

/// The reserved words classify as themselves and are identifier-shaped.
pub proof fn lemma_keyword_lexemes()
    ensures
        keyword_type("true"@) == TokenType::TRUE,
        keyword_type("false"@) == TokenType::FALSE,
        keyword_type("nil"@) == TokenType::NIL,
        is_ident_lexeme("true"@),
        is_ident_lexeme("false"@),
        is_ident_lexeme("nil"@),
{
    reveal_strlit("and");
    reveal_strlit("class");
    reveal_strlit("else");
    reveal_strlit("false");
    reveal_strlit("for");
    reveal_strlit("fun");
    reveal_strlit("if");
    reveal_strlit("nil");
    reveal_strlit("or");
    reveal_strlit("print");
    reveal_strlit("return");
    reveal_strlit("super");
    reveal_strlit("this");
    reveal_strlit("true");
    reveal_strlit("var");
    reveal_strlit("while");
    // "true" differs from every reserved word checked before it
    seq_neq_by_len("true"@, "and"@);
    seq_neq_by_len("true"@, "class"@);
    seq_neq_by_index("true"@, "else"@, 0);
    seq_neq_by_len("true"@, "false"@);
    seq_neq_by_len("true"@, "for"@);
    seq_neq_by_len("true"@, "fun"@);
    seq_neq_by_len("true"@, "if"@);
    seq_neq_by_len("true"@, "nil"@);
    seq_neq_by_len("true"@, "or"@);
    seq_neq_by_len("true"@, "print"@);
    seq_neq_by_len("true"@, "return"@);
    seq_neq_by_len("true"@, "super"@);
    seq_neq_by_index("true"@, "this"@, 1);
    // "false" differs from every reserved word checked before it
    seq_neq_by_len("false"@, "and"@);
    seq_neq_by_index("false"@, "class"@, 0);
    seq_neq_by_len("false"@, "else"@);
    // "nil" differs from every reserved word checked before it
    seq_neq_by_index("nil"@, "and"@, 0);
    seq_neq_by_len("nil"@, "class"@);
    seq_neq_by_len("nil"@, "else"@);
    seq_neq_by_len("nil"@, "false"@);
    seq_neq_by_index("nil"@, "for"@, 0);
    seq_neq_by_index("nil"@, "fun"@, 0);
    seq_neq_by_len("nil"@, "if"@);
}

/// Sequences of different lengths differ.
pub proof fn seq_neq_by_len(a: Seq<char>, b: Seq<char>)
    requires
        a.len() != b.len(),
    ensures
        a != b,
{
}

/// Sequences differing at one index differ.
pub proof fn seq_neq_by_index(a: Seq<char>, b: Seq<char>, i: int)
    requires
        0 <= i < a.len(),
        0 <= i < b.len(),
        a[i] != b[i],
    ensures
        a != b,
{
}

/// The parts of a well-formed binary node are well formed, and its
/// operator is a binary operator.
pub proof fn lemma_wf_binary_parts(op: Op, l: Box<ExprModel>, r: Box<ExprModel>)
    requires
        wf_expr(ExprModel::EBinary(op, l, r)),
    ensures
        wf_expr(*l),
        wf_expr(*r),
        op != Op::OpNot,
{
}

/// The operand of a well-formed unary node is well formed.
pub proof fn lemma_wf_unary_parts(op: Op, v: Box<ExprModel>)
    requires
        wf_expr(ExprModel::EUnary(op, v)),
    ensures
        wf_expr(*v),
        op == Op::OpMinus || op == Op::OpNot,
{
}

/// The inside of a well-formed group is well formed.
pub proof fn lemma_wf_group_parts(v: Box<ExprModel>)
    requires
        wf_expr(ExprModel::EGroup(v)),
    ensures
        wf_expr(*v),
{
}

/// A rendered well-formed expression is nonempty and starts with a
/// character that neither ends a preceding space run nor extends a
/// preceding `!` into `!=`.
pub proof fn lemma_format_first(e: ExprModel)
    requires
        wf_expr(e),
    ensures
        spec_format_expr(e).len() > 0,
        !crate::tokenize::is_space_c(spec_format_expr(e)[0]),
        spec_format_expr(e)[0] != '=',
    decreases e,
{
    match e {
        ExprModel::ENumber(lex) => {},
        ExprModel::EString(v) => {
            assert(spec_format_expr(e)[0] == '"');
        },
        ExprModel::EBoolean(b) => {
            reveal_strlit("true");
            reveal_strlit("false");
        },
        ExprModel::ENil => {
            reveal_strlit("nil");
        },
        ExprModel::EName(n) => {},
        ExprModel::EBinary(op, l, r) => {
            lemma_wf_binary_parts(op, l, r);
            lemma_format_first(*l);
            assert(spec_format_expr(e)[0] == spec_format_expr(*l)[0]);
        },
        ExprModel::EUnary(op, v) => {
            lemma_wf_unary_parts(op, v);
            reveal_strlit("-");
            reveal_strlit("!");
            assert(spec_format_expr(e)[0] == op_lexeme(op)[0]);
        },
        ExprModel::EGroup(v) => {
            reveal_strlit("(");
            assert(spec_format_expr(e)[0] == '(');
        },
    }
}

/// Scanning a binary operator's lexeme takes it whole as one token.
pub proof fn lemma_scan_binary_op(op: Op, tail: Seq<char>, line: int)
    requires
        op != Op::OpNot,
        tail.len() > 0 && tail[0] == ' ',
    ensures
        spec_tokenize_at(op_lexeme(op) + tail, line) == prepend_tokens(
            seq![(TokenModel { toktype: op_token_type(op), lexeme: op_lexeme(op), line })],
            spec_tokenize_at(tail, line),
        ),
{
    match op {
        Op::OpPlus => {
            reveal_strlit("+");
            assert(op_lexeme(op) =~= seq!['+']);
            lemma_scan_one_symbol('+', tail, line);
            assert(seq![(TokenModel { toktype: TokenType::PLUS, lexeme: seq!['+'], line })] =~~= seq![
                (TokenModel { toktype: op_token_type(op), lexeme: op_lexeme(op), line }),
            ]);
        },
        Op::OpMinus => {
            reveal_strlit("-");
            assert(op_lexeme(op) =~= seq!['-']);
            lemma_scan_one_symbol('-', tail, line);
            assert(seq![(TokenModel { toktype: TokenType::MINUS, lexeme: seq!['-'], line })] =~~= seq![
                (TokenModel { toktype: op_token_type(op), lexeme: op_lexeme(op), line }),
            ]);
        },
        Op::OpMult => {
            reveal_strlit("*");
            assert(op_lexeme(op) =~= seq!['*']);
            lemma_scan_one_symbol('*', tail, line);
            assert(seq![(TokenModel { toktype: TokenType::STAR, lexeme: seq!['*'], line })] =~~= seq![
                (TokenModel { toktype: op_token_type(op), lexeme: op_lexeme(op), line }),
            ]);
        },
        Op::OpDiv => {
            reveal_strlit("/");
            assert(op_lexeme(op) =~= seq!['/']);
            lemma_scan_one_symbol('/', tail, line);
            assert(seq![(TokenModel { toktype: TokenType::SLASH, lexeme: seq!['/'], line })] =~~= seq![
                (TokenModel { toktype: op_token_type(op), lexeme: op_lexeme(op), line }),
            ]);
        },
        Op::OpLt => {
            reveal_strlit("<");
            assert(op_lexeme(op) =~= seq!['<']);
            lemma_scan_one_symbol('<', tail, line);
            assert(seq![(TokenModel { toktype: TokenType::LT, lexeme: seq!['<'], line })] =~~= seq![
                (TokenModel { toktype: op_token_type(op), lexeme: op_lexeme(op), line }),
            ]);
        },
        Op::OpLe => {
            reveal_strlit("<=");
            assert(op_lexeme(op) =~= seq!['<', '=']);
            lemma_scan_two_symbol('<', '=', tail, line);
            assert(seq![(TokenModel { toktype: TokenType::LE, lexeme: seq!['<', '='], line })]
                =~~= seq![
                (TokenModel { toktype: op_token_type(op), lexeme: op_lexeme(op), line }),
            ]);
        },
        Op::OpGt => {
            reveal_strlit(">");
            assert(op_lexeme(op) =~= seq!['>']);
            lemma_scan_one_symbol('>', tail, line);
            assert(seq![(TokenModel { toktype: TokenType::GT, lexeme: seq!['>'], line })] =~~= seq![
                (TokenModel { toktype: op_token_type(op), lexeme: op_lexeme(op), line }),
            ]);
        },
        Op::OpGe => {
            reveal_strlit(">=");
            assert(op_lexeme(op) =~= seq!['>', '=']);
            lemma_scan_two_symbol('>', '=', tail, line);
            assert(seq![(TokenModel { toktype: TokenType::GE, lexeme: seq!['>', '='], line })]
                =~~= seq![
                (TokenModel { toktype: op_token_type(op), lexeme: op_lexeme(op), line }),
            ]);
        },
        Op::OpEq => {
            reveal_strlit("==");
            assert(op_lexeme(op) =~= seq!['=', '=']);
            lemma_scan_two_symbol('=', '=', tail, line);
            assert(seq![(TokenModel { toktype: TokenType::EQ, lexeme: seq!['=', '='], line })]
                =~~= seq![
                (TokenModel { toktype: op_token_type(op), lexeme: op_lexeme(op), line }),
            ]);
        },
        Op::OpNe => {
            reveal_strlit("!=");
            assert(op_lexeme(op) =~= seq!['!', '=']);
            lemma_scan_two_symbol('!', '=', tail, line);
            assert(seq![(TokenModel { toktype: TokenType::NE, lexeme: seq!['!', '='], line })]
                =~~= seq![
                (TokenModel { toktype: op_token_type(op), lexeme: op_lexeme(op), line }),
            ]);
        },
        Op::OpNot => {},
    }
}

/// Scanning a rendered well-formed expression yields exactly its tokens,
/// all on the current line, and goes on with whatever follows it.
#[verifier::rlimit(100)]
pub proof fn lemma_scan_format(e: ExprModel, rest: Seq<char>, line: int)
    requires
        wf_expr(e),
        1 <= line <= i32::MAX,
        rest.len() == 0 || rest[0] == ' ' || rest[0] == ')',
    ensures
        spec_tokenize_at(spec_format_expr(e) + rest, line) == prepend_tokens(
            expr_tokens(e, line),
            spec_tokenize_at(rest, line),
        ),
    decreases e,
{
    let f = spec_format_expr(e);
    match e {
        ExprModel::ENumber(lex) => {
            lemma_scan_number(lex, rest, line);
        },
        ExprModel::EString(v) => {
            assert(f + rest =~= seq!['"'] + v + seq!['"'] + rest);
            lemma_scan_string(v, rest, line);
        },
        ExprModel::EBoolean(b) => {
            lemma_keyword_lexemes();
            if b {
                lemma_scan_ident("true"@, rest, line);
            } else {
                lemma_scan_ident("false"@, rest, line);
            }
        },
        ExprModel::ENil => {
            lemma_keyword_lexemes();
            lemma_scan_ident("nil"@, rest, line);
        },
        ExprModel::EName(n) => {
            lemma_scan_ident(n, rest, line);
        },
        ExprModel::EUnary(op, v) => {
            lemma_wf_unary_parts(op, v);
            lemma_format_first(*v);
            let fv = spec_format_expr(*v);
            reveal_strlit("-");
            reveal_strlit("!");
            let c: char = if op == Op::OpMinus {
                '-'
            } else {
                '!'
            };
            assert(op_lexeme(op) =~= seq![c]);
            assert(f + rest =~= seq![c] + (fv + rest));
            assert((fv + rest)[0] == fv[0]);
            lemma_scan_one_symbol(c, fv + rest, line);
            lemma_scan_format(*v, rest, line);
            lemma_prepend_assoc(
                seq![(TokenModel { toktype: one_char_type(c)->Some_0, lexeme: seq![c], line })],
                expr_tokens(*v, line),
                spec_tokenize_at(rest, line),
            );
            assert(seq![(TokenModel { toktype: one_char_type(c)->Some_0, lexeme: seq![c], line })]
                + expr_tokens(*v, line) =~~= expr_tokens(e, line));
        },
        ExprModel::EBinary(op, l, r) => {
            lemma_wf_binary_parts(op, l, r);
            lemma_format_first(*r);
            let fl = spec_format_expr(*l);
            let fr = spec_format_expr(*r);
            let oplex = op_lexeme(op);
            let rest_l = seq![' '] + (oplex + (seq![' '] + (fr + rest)));
            assert(f + rest =~= fl + rest_l);
            assert(rest_l[0] == ' ');
            lemma_scan_format(*l, rest_l, line);
            // the space before the operator
            let after_space1 = oplex + (seq![' '] + (fr + rest));
            assert(after_space1.len() > 0);
            proof_op_first_not_space(op);
            assert(after_space1[0] == oplex[0]);
            lemma_scan_space(after_space1, line);
            // the operator itself
            let tail = seq![' '] + (fr + rest);
            assert(tail[0] == ' ');
            lemma_scan_binary_op(op, tail, line);
            // the space after the operator
            assert((fr + rest)[0] == fr[0]);
            lemma_scan_space(fr + rest, line);
            // the right operand
            lemma_scan_format(*r, rest, line);
            let opt = seq![(TokenModel { toktype: op_token_type(op), lexeme: oplex, line })];
            lemma_prepend_assoc(opt, expr_tokens(*r, line), spec_tokenize_at(rest, line));
            lemma_prepend_assoc(
                expr_tokens(*l, line),
                opt + expr_tokens(*r, line),
                spec_tokenize_at(rest, line),
            );
            assert(expr_tokens(*l, line) + (opt + expr_tokens(*r, line)) =~~= expr_tokens(
                e,
                line,
            ));
        },
        ExprModel::EGroup(v) => {
            lemma_wf_group_parts(v);
            reveal_strlit("(");
            reveal_strlit(")");
            let fv = spec_format_expr(*v);
            let rest_v = seq![')'] + rest;
            assert(f + rest =~= seq!['('] + (fv + rest_v));
            lemma_scan_one_symbol('(', fv + rest_v, line);
            lemma_scan_format(*v, rest_v, line);
            assert(rest_v[0] == ')');
            lemma_scan_one_symbol(')', rest, line);
            let lp = seq![(TokenModel { toktype: TokenType::LPAREN, lexeme: seq!['('], line })];
            let rp = seq![(TokenModel { toktype: TokenType::RPAREN, lexeme: seq![')'], line })];
            lemma_prepend_assoc(expr_tokens(*v, line), rp, spec_tokenize_at(rest, line));
            lemma_prepend_assoc(
                lp,
                expr_tokens(*v, line) + rp,
                spec_tokenize_at(rest, line),
            );
            assert(lp + (expr_tokens(*v, line) + rp) =~~= expr_tokens(e, line));
        },
    }
}

// ---------------------------------------------------------------------
// Re-parsing the tokens of a rendered expression
// ---------------------------------------------------------------------

/// The tokens of `e` stand in `ts` at position `p`.
pub open spec fn placed(ts: Seq<TokenModel>, p: int, e: ExprModel, line: int) -> bool {
    &&& 0 <= p
    &&& p + expr_tokens(e, line).len() <= ts.len()
    &&& ts.subrange(p, p + expr_tokens(e, line).len() as int) == expr_tokens(e, line)
}

/// No factor-level operator stands at `q`, so a factor chain ends there.
pub open spec fn stop_factor(ts: Seq<TokenModel>, q: int) -> bool {
    q >= ts.len() || crate::parse::factor_op(ts[q].toktype) is None
}

pub open spec fn stop_term(ts: Seq<TokenModel>, q: int) -> bool {
    stop_factor(ts, q) && (q >= ts.len() || crate::parse::term_op(ts[q].toktype) is None)
}

pub open spec fn stop_comparison(ts: Seq<TokenModel>, q: int) -> bool {
    stop_term(ts, q) && (q >= ts.len() || crate::parse::comparison_op(ts[q].toktype) is None)
}

pub open spec fn stop_equality(ts: Seq<TokenModel>, q: int) -> bool {
    stop_comparison(ts, q) && (q >= ts.len() || crate::parse::equality_op(ts[q].toktype) is None)
}

/// Splitting the placement of a binary node into its parts.
pub proof fn lemma_placed_binary(
    ts: Seq<TokenModel>,
    p: int,
    op: Op,
    l: Box<ExprModel>,
    r: Box<ExprModel>,
    line: int,
)
    requires
        placed(ts, p, ExprModel::EBinary(op, l, r), line),
    ensures
        placed(ts, p, *l, line),
        placed(ts, p + expr_tokens(*l, line).len() + 1, *r, line),
        ts[p + expr_tokens(*l, line).len() as int] == (TokenModel {
            toktype: op_token_type(op),
            lexeme: op_lexeme(op),
            line,
        }),
        expr_tokens(ExprModel::EBinary(op, l, r), line).len() == expr_tokens(*l, line).len() + 1
            + expr_tokens(*r, line).len(),
{
    let e = ExprModel::EBinary(op, l, r);
    let tl = expr_tokens(*l, line);
    let tr = expr_tokens(*r, line);
    let n = expr_tokens(e, line).len() as int;
    assert(ts.subrange(p, p + tl.len()) =~= tl) by {
        assert forall|k: int| 0 <= k < tl.len() implies ts.subrange(p, p + tl.len() as int)[k]
            == tl[k] by {
            assert(ts.subrange(p, p + n)[k] == expr_tokens(e, line)[k]);
        }
    }
    assert(ts[p + tl.len() as int] == expr_tokens(e, line)[tl.len() as int]);
    assert(ts.subrange(p + tl.len() + 1, p + n) =~= tr) by {
        assert forall|k: int| 0 <= k < tr.len() implies ts.subrange(p + tl.len() + 1, p + n)[k]
            == tr[k] by {
            assert(ts.subrange(p, p + n)[tl.len() + 1 + k] == expr_tokens(e, line)[tl.len() + 1
                + k]);
        }
    }
}

/// Splitting the placement of a unary node into its parts.
pub proof fn lemma_placed_unary(
    ts: Seq<TokenModel>,
    p: int,
    op: Op,
    v: Box<ExprModel>,
    line: int,
)
    requires
        placed(ts, p, ExprModel::EUnary(op, v), line),
    ensures
        placed(ts, p + 1, *v, line),
        ts[p] == (TokenModel { toktype: op_token_type(op), lexeme: op_lexeme(op), line }),
        expr_tokens(ExprModel::EUnary(op, v), line).len() == 1 + expr_tokens(*v, line).len(),
{
    let e = ExprModel::EUnary(op, v);
    let tv = expr_tokens(*v, line);
    let n = expr_tokens(e, line).len() as int;
    assert(ts[p] == expr_tokens(e, line)[0]);
    assert(ts.subrange(p + 1, p + n) =~= tv) by {
        assert forall|k: int| 0 <= k < tv.len() implies ts.subrange(p + 1, p + n)[k] == tv[k] by {
            assert(ts.subrange(p, p + n)[1 + k] == expr_tokens(e, line)[1 + k]);
        }
    }
}

/// Splitting the placement of a group into its parts.
pub proof fn lemma_placed_group(ts: Seq<TokenModel>, p: int, v: Box<ExprModel>, line: int)
    requires
        placed(ts, p, ExprModel::EGroup(v), line),
    ensures
        placed(ts, p + 1, *v, line),
        ts[p] == (TokenModel { toktype: TokenType::LPAREN, lexeme: "("@, line }),
        ts[p + 1 + expr_tokens(*v, line).len() as int] == (TokenModel {
            toktype: TokenType::RPAREN,
            lexeme: ")"@,
            line,
        }),
        expr_tokens(ExprModel::EGroup(v), line).len() == 2 + expr_tokens(*v, line).len(),
{
    let e = ExprModel::EGroup(v);
    let tv = expr_tokens(*v, line);
    let n = expr_tokens(e, line).len() as int;
    assert(ts[p] == expr_tokens(e, line)[0]);
    assert(ts[p + 1 + tv.len() as int] == expr_tokens(e, line)[1 + tv.len() as int]);
    assert(ts.subrange(p + 1, p + 1 + tv.len() as int) =~= tv) by {
        assert forall|k: int| 0 <= k < tv.len() implies ts.subrange(
            p + 1,
            p + 1 + tv.len() as int,
        )[k] == tv[k] by {
            assert(ts.subrange(p, p + n)[1 + k] == expr_tokens(e, line)[1 + k]);
        }
    }
}

/// Re-parsing a rendered primary yields it back.
pub proof fn lemma_parse_primary(e: ExprModel, ts: Seq<TokenModel>, p: int, line: int)
    requires
        wf_primary(e),
        placed(ts, p, e, line),
    ensures
        crate::parse::spec_parse_primary(ts, p) == Ok::<(ExprModel, int), crate::ErrorModel>(
            (e, p + expr_tokens(e, line).len()),
        ),
    decreases e, 0nat,
{
    let n = expr_tokens(e, line).len() as int;
    match e {
        ExprModel::ENumber(lex) => {
            assert(ts[p] == expr_tokens(e, line)[0]);
        },
        ExprModel::EString(v) => {
            assert(ts[p] == expr_tokens(e, line)[0]);
        },
        ExprModel::EBoolean(b) => {
            assert(ts[p] == expr_tokens(e, line)[0]);
        },
        ExprModel::ENil => {
            assert(ts[p] == expr_tokens(e, line)[0]);
        },
        ExprModel::EName(nm) => {
            assert(ts[p] == expr_tokens(e, line)[0]);
        },
        ExprModel::EGroup(v) => {
            lemma_placed_group(ts, p, v, line);
            lemma_wf_group_parts(v);
            let q = p + 1 + expr_tokens(*v, line).len() as int;
            assert(stop_equality(ts, q));
            lemma_parse_expression(*v, ts, p + 1, line);
        },
        _ => {},
    }
}

/// Re-parsing a rendered unary expression yields it back.
pub proof fn lemma_parse_unary(e: ExprModel, ts: Seq<TokenModel>, p: int, line: int)
    requires
        wf_unary(e),
        placed(ts, p, e, line),
    ensures
        crate::parse::spec_parse_unary(ts, p) == Ok::<(ExprModel, int), crate::ErrorModel>(
            (e, p + expr_tokens(e, line).len()),
        ),
    decreases e, 1nat,
{
    match e {
        ExprModel::EUnary(op, v) => {
            assert(!wf_primary(e));
            assert((op == Op::OpMinus || op == Op::OpNot) && wf_unary(*v));
            lemma_placed_unary(ts, p, op, v, line);
            lemma_parse_unary(*v, ts, p + 1, line);
        },
        _ => {
            assert(wf_primary(e));
            assert(ts[p] == expr_tokens(e, line)[0]);
            assert(!crate::parse::spec_at(ts, p, TokenType::MINUS));
            assert(!crate::parse::spec_at(ts, p, TokenType::BANG));
            lemma_parse_primary(e, ts, p, line);
        },
    }
}

/// Re-parsing a rendered factor reaches the factor loop's state at the
/// end of its tokens, with the factor itself accumulated.
pub proof fn lemma_parse_factor(e: ExprModel, ts: Seq<TokenModel>, p: int, line: int)
    requires
        wf_factor(e),
        placed(ts, p, e, line),
    ensures
        crate::parse::spec_parse_factor(ts, p) == crate::parse::spec_factor_rest(
            ts,
            p + expr_tokens(e, line).len(),
            e,
        ),
    decreases e, 2nat,
{
    if wf_unary(e) {
        lemma_parse_unary(e, ts, p, line);
    } else {
        match e {
            ExprModel::EBinary(op, l, r) => {
                lemma_placed_binary(ts, p, op, l, r, line);
                let nl = expr_tokens(*l, line).len() as int;
                let n = expr_tokens(e, line).len() as int;
                lemma_parse_factor(*l, ts, p, line);
                lemma_parse_unary(*r, ts, p + nl + 1, line);
                assert(crate::parse::factor_op(ts[p + nl].toktype) == Some(op));
                lemma_expr_tokens_len(*r, line);
            },
            _ => {},
        }
    }
}

/// Re-parsing a rendered term reaches the term loop's state at the end of
/// its tokens, with the term itself accumulated.
pub proof fn lemma_parse_term(e: ExprModel, ts: Seq<TokenModel>, p: int, line: int)
    requires
        wf_term(e),
        placed(ts, p, e, line),
        stop_factor(ts, p + expr_tokens(e, line).len()),
    ensures
        crate::parse::spec_parse_term(ts, p) == crate::parse::spec_term_rest(
            ts,
            p + expr_tokens(e, line).len(),
            e,
        ),
    decreases e, 3nat,
{
    if wf_factor(e) {
        lemma_parse_factor(e, ts, p, line);
    } else {
        match e {
            ExprModel::EBinary(op, l, r) => {
                lemma_placed_binary(ts, p, op, l, r, line);
                let nl = expr_tokens(*l, line).len() as int;
                let n = expr_tokens(e, line).len() as int;
                assert(crate::parse::term_op(ts[p + nl].toktype) == Some(op));
                assert(stop_factor(ts, p + nl));
                lemma_parse_term(*l, ts, p, line);
                lemma_parse_factor(*r, ts, p + nl + 1, line);
                lemma_expr_tokens_len(*r, line);
            },
            _ => {},
        }
    }
}

/// Re-parsing a rendered comparison reaches the comparison loop's state at
/// the end of its tokens, with the comparison itself accumulated.
pub proof fn lemma_parse_comparison(e: ExprModel, ts: Seq<TokenModel>, p: int, line: int)
    requires
        wf_comparison(e),
        placed(ts, p, e, line),
        stop_term(ts, p + expr_tokens(e, line).len()),
    ensures
        crate::parse::spec_parse_comparison(ts, p) == crate::parse::spec_comparison_rest(
            ts,
            p + expr_tokens(e, line).len(),
            e,
        ),
    decreases e, 4nat,
{
    if wf_term(e) {
        lemma_parse_term(e, ts, p, line);
    } else {
        match e {
            ExprModel::EBinary(op, l, r) => {
                lemma_placed_binary(ts, p, op, l, r, line);
                let nl = expr_tokens(*l, line).len() as int;
                let n = expr_tokens(e, line).len() as int;
                assert(crate::parse::comparison_op(ts[p + nl].toktype) == Some(op));
                assert(stop_term(ts, p + nl));
                lemma_parse_comparison(*l, ts, p, line);
                lemma_parse_term(*r, ts, p + nl + 1, line);
                lemma_expr_tokens_len(*r, line);
            },
            _ => {},
        }
    }
}

/// Re-parsing a rendered equality reaches the equality loop's state at the
/// end of its tokens, with the equality itself accumulated.
pub proof fn lemma_parse_equality(e: ExprModel, ts: Seq<TokenModel>, p: int, line: int)
    requires
        wf_equality(e),
        placed(ts, p, e, line),
        stop_comparison(ts, p + expr_tokens(e, line).len()),
    ensures
        crate::parse::spec_parse_equality(ts, p) == crate::parse::spec_equality_rest(
            ts,
            p + expr_tokens(e, line).len(),
            e,
        ),
    decreases e, 5nat,
{
    if wf_comparison(e) {
        lemma_parse_comparison(e, ts, p, line);
    } else {
        match e {
            ExprModel::EBinary(op, l, r) => {
                lemma_placed_binary(ts, p, op, l, r, line);
                let nl = expr_tokens(*l, line).len() as int;
                let n = expr_tokens(e, line).len() as int;
                assert(crate::parse::equality_op(ts[p + nl].toktype) == Some(op));
                assert(stop_comparison(ts, p + nl));
                lemma_parse_equality(*l, ts, p, line);
                lemma_parse_comparison(*r, ts, p + nl + 1, line);
                lemma_expr_tokens_len(*r, line);
            },
            _ => {},
        }
    }
}

/// Re-parsing a rendered well-formed expression, placed before tokens no
/// expression rule takes, yields it back, all its tokens consumed.
pub proof fn lemma_parse_expression(e: ExprModel, ts: Seq<TokenModel>, p: int, line: int)
    requires
        wf_expr(e),
        placed(ts, p, e, line),
        stop_equality(ts, p + expr_tokens(e, line).len()),
    ensures
        crate::parse::spec_parse_expression(ts, p) == Ok::<(ExprModel, int), crate::ErrorModel>(
            (e, p + expr_tokens(e, line).len()),
        ),
    decreases e, 6nat,
{
    lemma_parse_equality(e, ts, p, line);
}

/// Law: round-trip formatting.  Rendering a well-formed expression tree
/// to source text, scanning that text and re-parsing the tokens
/// reproduces an equal tree: the scan yields exactly the tree's tokens
/// and the final `EOF`, and the parse consumes them back into the tree.
/// `format_expression`, `tokenize` and the parser promise exactly the
/// spec functions this law is stated over.
pub proof fn lemma_round_trip_formatting(e: ExprModel)
    requires
        wf_expr(e),
    ensures
        ({
            let eof = TokenModel { toktype: TokenType::EOF, lexeme: Seq::empty(), line: 1 };
            let ts = expr_tokens(e, 1) + seq![eof];
            crate::tokenize::spec_tokenize(spec_format_expr(e)) == Ok::<
                Seq<TokenModel>,
                (char, int),
            >(ts) && crate::parse::spec_parse_expression(ts, 0) == Ok::<
                (ExprModel, int),
                crate::ErrorModel,
            >((e, expr_tokens(e, 1).len() as int))
        }),
{
    let eof = TokenModel { toktype: TokenType::EOF, lexeme: Seq::empty(), line: 1 };
    let f = spec_format_expr(e);
    let n = expr_tokens(e, 1).len() as int;
    let ts = expr_tokens(e, 1) + seq![eof];
    assert(f + Seq::<char>::empty() =~= f);
    lemma_scan_format(e, Seq::empty(), 1);
    assert(spec_tokenize_at(Seq::<char>::empty(), 1) == Ok::<Seq<TokenModel>, (char, int)>(
        seq![eof],
    ));
    assert(crate::tokenize::spec_tokenize(f) == Ok::<Seq<TokenModel>, (char, int)>(ts));
    assert(ts.subrange(0, n) =~= expr_tokens(e, 1));
    assert(placed(ts, 0, e, 1));
    assert(ts[n] == eof);
    assert(stop_equality(ts, n));
    lemma_parse_expression(e, ts, 0, 1);
}

// ---------------------------------------------------------------------
// The pipeline only produces well-formed trees
// ---------------------------------------------------------------------

/// A token the scanner could have produced: its lexeme fits its kind.
pub open spec fn wf_token(t: TokenModel) -> bool {
    &&& t.toktype == TokenType::NUMBER ==> is_number_lexeme(t.lexeme)
    &&& t.toktype == TokenType::STRING ==> is_string_lexeme(t.lexeme)
    &&& t.toktype == TokenType::IDENTIFIER ==> is_ident_lexeme(t.lexeme) && keyword_type(t.lexeme)
        == TokenType::IDENTIFIER
}

pub open spec fn wf_tokens(ts: Seq<TokenModel>) -> bool {
    forall|i: int| 0 <= i < ts.len() ==> wf_token(#[trigger] ts[i])
}

/// The scanned prefix of a numeric run is itself a full numeric run.
pub proof fn lemma_num_run_take(t: Seq<char>, seen: bool)
    ensures
        num_run(t.take(num_run(t, seen) as int), seen) == num_run(t, seen),
    decreases t.len(),
{
    crate::tokenize::lemma_num_run_le(t, seen);
    let n = num_run(t, seen) as int;
    if t.len() == 0 || n == 0 {
        assert(t.take(0) =~= Seq::<char>::empty());
    } else {
        assert(t.take(n)[0] == t[0]);
        assert(t.take(n).skip(1) =~= t.skip(1).take(n - 1));
        if is_digit_c(t[0]) {
            lemma_num_run_take(t.skip(1), seen);
        } else {
            lemma_num_run_take(t.skip(1), true);
        }
    }
}

/// Law: every token the scanner yields is well formed: a `NUMBER` carries
/// a numeric lexeme, a `STRING` carries no stray quote, an `IDENTIFIER`
/// is identifier-shaped and is no reserved word.
pub proof fn lemma_scanner_tokens_wf(t: Seq<char>, line: int)
    ensures
        spec_tokenize_at(t, line) matches Ok(ts) ==> wf_tokens(ts),
    decreases t.len(),
{
    if t.len() == 0 {
    } else {
        crate::tokenize::lemma_next_token_consumes(t);
        match spec_next_token(t) {
            None => {},
            Some((ty, lex, n)) => {
                let line2 = if ty == TokenType::WHITESPACE {
                    crate::tokenize::line_add(line, crate::tokenize::count_nl(lex))
                } else {
                    line
                };
                lemma_scanner_tokens_wf(t.skip(n as int), line2);
                assert(wf_token(TokenModel { toktype: ty, lexeme: lex, line })) by {
                    if spec_match_whitespace(t) is Some {
                    } else if spec_match_comment(t) is Some {
                    } else if spec_match_identifier(t) is Some {
                        crate::tokenize::lemma_run_len(t, |c: char| is_ident_c(c));
                        assert(is_ident_c(t[0]));
                        crate::tokenize::lemma_run_len_is_positive(t, |c: char| is_ident_c(c));
                        assert(lex[0] == t[0]);
                        assert forall|k: int| 0 <= k < lex.len() implies is_ident_c(
                            #[trigger] lex[k],
                        ) by {
                            assert(lex[k] == t[k]);
                        }
                    } else if spec_match_number(t) is Some {
                        lemma_num_run_take(t, false);
                        crate::tokenize::lemma_num_run_le(t, false);
                        assert(lex[0] == t[0]);
                        assert(lex =~= t.take(num_run(t, false) as int));
                    } else if spec_match_string(t) is Some {
                        let k = run_len(t.skip(1), |c: char| c != '"');
                        crate::tokenize::lemma_run_len(t.skip(1), |c: char| c != '"');
                        assert forall|j: int| 0 <= j < lex.len() implies #[trigger] lex[j]
                            != '"' by {
                            assert(lex[j] == t.skip(1)[j]);
                        }
                    } else {
                    }
                }
            },
        }
    }
}

/// Parsing with well-formed tokens builds only well-formed primaries.
pub proof fn lemma_parsed_primary_wf(ts: Seq<TokenModel>, p: int)
    requires
        wf_tokens(ts),
    ensures
        crate::parse::spec_parse_primary(ts, p) matches Ok(pr) ==> wf_primary(pr.0),
    decreases crate::parse::rem_toks(ts, p), 1nat,
{
    if crate::parse::spec_at(ts, p, TokenType::LPAREN) {
        lemma_parsed_expression_wf(ts, p + 1);
    }
}

pub proof fn lemma_parsed_unary_wf(ts: Seq<TokenModel>, p: int)
    requires
        wf_tokens(ts),
    ensures
        crate::parse::spec_parse_unary(ts, p) matches Ok(pr) ==> wf_unary(pr.0),
    decreases crate::parse::rem_toks(ts, p), 2nat,
{
    if crate::parse::spec_at(ts, p, TokenType::MINUS) || crate::parse::spec_at(
        ts,
        p,
        TokenType::BANG,
    ) {
        lemma_parsed_unary_wf(ts, p + 1);
    } else {
        lemma_parsed_primary_wf(ts, p);
    }
}

pub proof fn lemma_factor_rest_wf(ts: Seq<TokenModel>, p: int, acc: ExprModel)
    requires
        wf_tokens(ts),
        wf_factor(acc),
    ensures
        crate::parse::spec_factor_rest(ts, p, acc) matches Ok(pr) ==> wf_factor(pr.0),
    decreases crate::parse::rem_toks(ts, p), 3nat,
{
    if 0 <= p < ts.len() && crate::parse::factor_op(ts[p].toktype) is Some {
        let op = crate::parse::factor_op(ts[p].toktype)->Some_0;
        lemma_parsed_unary_wf(ts, p + 1);
        match crate::parse::spec_parse_unary(ts, p + 1) {
            Ok((e2, p2)) => {
                lemma_factor_rest_wf(
                    ts,
                    crate::parse::bump(p, p2),
                    ExprModel::EBinary(op, Box::new(acc), Box::new(e2)),
                );
            },
            Err(_) => {},
        }
    }
}

pub proof fn lemma_parsed_factor_wf(ts: Seq<TokenModel>, p: int)
    requires
        wf_tokens(ts),
    ensures
        crate::parse::spec_parse_factor(ts, p) matches Ok(pr) ==> wf_factor(pr.0),
    decreases crate::parse::rem_toks(ts, p), 4nat,
{
    lemma_parsed_unary_wf(ts, p);
    match crate::parse::spec_parse_unary(ts, p) {
        Ok((e, p1)) => {
            lemma_factor_rest_wf(ts, crate::parse::bump(p - 1, p1), e);
        },
        Err(_) => {},
    }
}

pub proof fn lemma_term_rest_wf(ts: Seq<TokenModel>, p: int, acc: ExprModel)
    requires
        wf_tokens(ts),
        wf_term(acc),
    ensures
        crate::parse::spec_term_rest(ts, p, acc) matches Ok(pr) ==> wf_term(pr.0),
    decreases crate::parse::rem_toks(ts, p), 5nat,
{
    if 0 <= p < ts.len() && crate::parse::term_op(ts[p].toktype) is Some {
        let op = crate::parse::term_op(ts[p].toktype)->Some_0;
        lemma_parsed_factor_wf(ts, p + 1);
        match crate::parse::spec_parse_factor(ts, p + 1) {
            Ok((e2, p2)) => {
                lemma_term_rest_wf(
                    ts,
                    crate::parse::bump(p, p2),
                    ExprModel::EBinary(op, Box::new(acc), Box::new(e2)),
                );
            },
            Err(_) => {},
        }
    }
}

pub proof fn lemma_parsed_term_wf(ts: Seq<TokenModel>, p: int)
    requires
        wf_tokens(ts),
    ensures
        crate::parse::spec_parse_term(ts, p) matches Ok(pr) ==> wf_term(pr.0),
    decreases crate::parse::rem_toks(ts, p), 6nat,
{
    lemma_parsed_factor_wf(ts, p);
    match crate::parse::spec_parse_factor(ts, p) {
        Ok((e, p1)) => {
            lemma_term_rest_wf(ts, crate::parse::bump(p - 1, p1), e);
        },
        Err(_) => {},
    }
}

pub proof fn lemma_comparison_rest_wf(ts: Seq<TokenModel>, p: int, acc: ExprModel)
    requires
        wf_tokens(ts),
        wf_comparison(acc),
    ensures
        crate::parse::spec_comparison_rest(ts, p, acc) matches Ok(pr) ==> wf_comparison(pr.0),
    decreases crate::parse::rem_toks(ts, p), 7nat,
{
    if 0 <= p < ts.len() && crate::parse::comparison_op(ts[p].toktype) is Some {
        let op = crate::parse::comparison_op(ts[p].toktype)->Some_0;
        lemma_parsed_term_wf(ts, p + 1);
        match crate::parse::spec_parse_term(ts, p + 1) {
            Ok((e2, p2)) => {
                lemma_comparison_rest_wf(
                    ts,
                    crate::parse::bump(p, p2),
                    ExprModel::EBinary(op, Box::new(acc), Box::new(e2)),
                );
            },
            Err(_) => {},
        }
    }
}

pub proof fn lemma_parsed_comparison_wf(ts: Seq<TokenModel>, p: int)
    requires
        wf_tokens(ts),
    ensures
        crate::parse::spec_parse_comparison(ts, p) matches Ok(pr) ==> wf_comparison(pr.0),
    decreases crate::parse::rem_toks(ts, p), 8nat,
{
    lemma_parsed_term_wf(ts, p);
    match crate::parse::spec_parse_term(ts, p) {
        Ok((e, p1)) => {
            lemma_comparison_rest_wf(ts, crate::parse::bump(p - 1, p1), e);
        },
        Err(_) => {},
    }
}

pub proof fn lemma_equality_rest_wf(ts: Seq<TokenModel>, p: int, acc: ExprModel)
    requires
        wf_tokens(ts),
        wf_equality(acc),
    ensures
        crate::parse::spec_equality_rest(ts, p, acc) matches Ok(pr) ==> wf_equality(pr.0),
    decreases crate::parse::rem_toks(ts, p), 9nat,
{
    if 0 <= p < ts.len() && crate::parse::equality_op(ts[p].toktype) is Some {
        let op = crate::parse::equality_op(ts[p].toktype)->Some_0;
        lemma_parsed_comparison_wf(ts, p + 1);
        match crate::parse::spec_parse_comparison(ts, p + 1) {
            Ok((e2, p2)) => {
                lemma_equality_rest_wf(
                    ts,
                    crate::parse::bump(p, p2),
                    ExprModel::EBinary(op, Box::new(acc), Box::new(e2)),
                );
            },
            Err(_) => {},
        }
    }
}

/// Law: with well-formed tokens, the grammar builds only well-formed
/// trees — every successful parse satisfies the round-trip law's
/// hypothesis.
pub proof fn lemma_parsed_expression_wf(ts: Seq<TokenModel>, p: int)
    requires
        wf_tokens(ts),
    ensures
        crate::parse::spec_parse_expression(ts, p) matches Ok(pr) ==> wf_expr(pr.0),
    decreases crate::parse::rem_toks(ts, p), 10nat,
{
    lemma_parsed_comparison_wf(ts, p);
    match crate::parse::spec_parse_comparison(ts, p) {
        Ok((e, p1)) => {
            lemma_equality_rest_wf(ts, crate::parse::bump(p - 1, p1), e);
        },
        Err(_) => {},
    }
}

/// Law: round-trip formatting for every tree the pipeline itself builds:
/// scan any source text, parse any expression out of it, render that
/// expression — scanning and re-parsing the rendering reproduces it.
pub proof fn lemma_pipeline_round_trip(src: Seq<char>)
    ensures
        (match crate::tokenize::spec_tokenize(src) {
            Ok(ts) => match crate::parse::spec_parse_expression(ts, 0) {
                Ok(pr) => ({
                    let eof = TokenModel {
                        toktype: TokenType::EOF,
                        lexeme: Seq::empty(),
                        line: 1,
                    };
                    let ts2 = expr_tokens(pr.0, 1) + seq![eof];
                    &&& crate::tokenize::spec_tokenize(spec_format_expr(pr.0)) == Ok::<
                        Seq<TokenModel>,
                        (char, int),
                    >(ts2)
                    &&& crate::parse::spec_parse_expression(ts2, 0) == Ok::<
                        (ExprModel, int),
                        crate::ErrorModel,
                    >((pr.0, expr_tokens(pr.0, 1).len() as int))
                }),
                Err(_) => true,
            },
            Err(_) => true,
        }),
{
    lemma_scanner_tokens_wf(src, 1);
    match crate::tokenize::spec_tokenize(src) {
        Ok(ts) => {
            lemma_parsed_expression_wf(ts, 0);
            match crate::parse::spec_parse_expression(ts, 0) {
                Ok(pr) => {
                    lemma_round_trip_formatting(pr.0);
                },
                Err(_) => {},
            }
        },
        Err(_) => {},
    }
}

/// No binary operator's lexeme starts with a space (or is empty).
pub proof fn proof_op_first_not_space(op: Op)
    requires
        op != Op::OpNot,
    ensures
        op_lexeme(op).len() > 0,
        !crate::tokenize::is_space_c(op_lexeme(op)[0]),
{
    reveal_strlit("+");
    reveal_strlit("-");
    reveal_strlit("*");
    reveal_strlit("/");
    reveal_strlit("<");
    reveal_strlit("<=");
    reveal_strlit(">");
    reveal_strlit(">=");
    reveal_strlit("==");
    reveal_strlit("!=");
}

} // verus!
