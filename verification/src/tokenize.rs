//! Maximal-munch lexical scanning: source text in, tokens out.
//!
//! At each position the scanner tries, in a fixed priority order:
//! whitespace, comment, identifier/keyword, number, string, two-character
//! symbol, one-character symbol.  Two-character symbols are tried before
//! their one-character prefixes, so the longest token always wins.
//! Whitespace and comments are consumed but dropped from the output; the
//! newlines inside whitespace drive the line counter.  The output ends
//! with an `EOF` token carrying the final line count.  An unrecognized
//! character (or an unterminated string literal) aborts the scan with a
//! `LexError` carrying that character and its line.

use vstd::prelude::*;

use crate::LoxError;
use crate::ErrorModel;
use crate::Source;
use crate::Token;
use crate::TokenModel;
use crate::TokenType;
use crate::Tokens;

verus! {

// ---------------------------------------------------------------------
// Character classes (ASCII)
// ---------------------------------------------------------------------

pub open spec fn is_space_c(c: char) -> bool {
    c == ' ' || c == '\t' || c == '\r' || c == '\n'
}

pub open spec fn is_digit_c(c: char) -> bool {
    '0' <= c && c <= '9'
}

pub open spec fn is_letter_c(c: char) -> bool {
    ('a' <= c && c <= 'z') || ('A' <= c && c <= 'Z')
}

/// A character that may start an identifier: a letter or an underscore.
pub open spec fn is_ident_start_c(c: char) -> bool {
    is_letter_c(c) || c == '_'
}

/// A character that may continue an identifier.
pub open spec fn is_ident_c(c: char) -> bool {
    is_letter_c(c) || is_digit_c(c) || c == '_'
}

// ---------------------------------------------------------------------
// Runs of characters
// ---------------------------------------------------------------------

/// Length of the longest prefix of `t` whose characters all satisfy `p`.
pub open spec fn run_len(t: Seq<char>, p: spec_fn(char) -> bool) -> nat
    decreases t.len(),
{
    if t.len() == 0 || !p(t[0]) {
        0
    } else {
        1 + run_len(t.skip(1), p)
    }
}

pub proof fn lemma_run_len(t: Seq<char>, p: spec_fn(char) -> bool)
    ensures
        run_len(t, p) <= t.len(),
        forall|k: int| 0 <= k < run_len(t, p) ==> p(#[trigger] t[k]),
        run_len(t, p) < t.len() ==> !p(t[run_len(t, p) as int]),
    decreases t.len(),
{
    if t.len() > 0 && p(t[0]) {
        lemma_run_len(t.skip(1), p);
        assert forall|k: int| 0 <= k < run_len(t, p) implies p(#[trigger] t[k]) by {
            if k > 0 {
                assert(t.skip(1)[k - 1] == t[k]);
            }
        }
        if run_len(t, p) < t.len() {
            assert(t.skip(1)[run_len(t, p) as int - 1] == t[run_len(t, p) as int]);
        }
    }
}

/// `run_len` is pinned down by its characterization: if the first `j`
/// characters satisfy `p` and the run stops at `j`, the run length is `j`.
pub proof fn lemma_run_len_is(t: Seq<char>, p: spec_fn(char) -> bool, j: int)
    requires
        0 <= j <= t.len(),
        forall|k: int| 0 <= k < j ==> p(#[trigger] t[k]),
        j < t.len() ==> !p(t[j]),
    ensures
        run_len(t, p) == j,
    decreases t.len(),
{
    if j == 0 {
    } else {
        assert(p(t[0]));
        assert forall|k: int| 0 <= k < j - 1 implies p(#[trigger] t.skip(1)[k]) by {
            assert(t.skip(1)[k] == t[k + 1]);
        }
        if j - 1 < t.skip(1).len() {
            assert(t.skip(1)[j - 1] == t[j]);
        }
        lemma_run_len_is(t.skip(1), p, j - 1);
    }
}

/// Length of the longest numeric-lexeme prefix of `t`: digits, with at
/// most one decimal point (`seen` records whether one was already taken).
/// A second decimal point ends the number rather than erroring.
pub open spec fn num_run(t: Seq<char>, seen: bool) -> nat
    decreases t.len(),
{
    if t.len() == 0 {
        0
    } else if is_digit_c(t[0]) {
        1 + num_run(t.skip(1), seen)
    } else if t[0] == '.' && !seen {
        1 + num_run(t.skip(1), true)
    } else {
        0
    }
}

pub proof fn lemma_num_run_le(t: Seq<char>, seen: bool)
    ensures
        num_run(t, seen) <= t.len(),
    decreases t.len(),
{
    if t.len() > 0 {
        lemma_num_run_le(t.skip(1), seen);
        lemma_num_run_le(t.skip(1), true);
    }
}

/// Number of newline characters in `t`.
pub open spec fn count_nl(t: Seq<char>) -> nat
    decreases t.len(),
{
    if t.len() == 0 {
        0
    } else {
        (if t[0] == '\n' {
            1nat
        } else {
            0nat
        }) + count_nl(t.skip(1))
    }
}

/// Advancing the line counter saturates at the largest representable line.
pub open spec fn line_add(line: int, k: nat) -> int {
    if line + k > i32::MAX {
        i32::MAX as int
    } else {
        line + k
    }
}

// ---------------------------------------------------------------------
// Keywords
// ---------------------------------------------------------------------

/// The token kind of an identifier lexeme: the matching reserved word's
/// kind, or `IDENTIFIER`.
pub open spec fn keyword_type(lex: Seq<char>) -> TokenType {
    if lex == "and"@ {
        TokenType::AND
    } else if lex == "class"@ {
        TokenType::CLASS
    } else if lex == "else"@ {
        TokenType::ELSE
    } else if lex == "false"@ {
        TokenType::FALSE
    } else if lex == "for"@ {
        TokenType::FOR
    } else if lex == "fun"@ {
        TokenType::FUN
    } else if lex == "if"@ {
        TokenType::IF
    } else if lex == "nil"@ {
        TokenType::NIL
    } else if lex == "or"@ {
        TokenType::OR
    } else if lex == "print"@ {
        TokenType::PRINT
    } else if lex == "return"@ {
        TokenType::RETURN
    } else if lex == "super"@ {
        TokenType::SUPER
    } else if lex == "this"@ {
        TokenType::THIS
    } else if lex == "true"@ {
        TokenType::TRUE
    } else if lex == "var"@ {
        TokenType::VAR
    } else if lex == "while"@ {
        TokenType::WHILE
    } else {
        TokenType::IDENTIFIER
    }
}

// ---------------------------------------------------------------------
// One token, in specification form
// ---------------------------------------------------------------------

pub open spec fn spec_match_whitespace(t: Seq<char>) -> Option<Seq<char>> {
    if t.len() > 0 && is_space_c(t[0]) {
        Some(t.take(run_len(t, |c: char| is_space_c(c)) as int))
    } else {
        None
    }
}

pub open spec fn spec_match_comment(t: Seq<char>) -> Option<Seq<char>> {
    if t.len() >= 2 && t[0] == '/' && t[1] == '/' {
        Some(t.take(run_len(t, |c: char| c != '\n') as int))
    } else {
        None
    }
}

pub open spec fn spec_match_identifier(t: Seq<char>) -> Option<Seq<char>> {
    if t.len() > 0 && is_ident_start_c(t[0]) {
        Some(t.take(run_len(t, |c: char| is_ident_c(c)) as int))
    } else {
        None
    }
}

pub open spec fn spec_match_number(t: Seq<char>) -> Option<Seq<char>> {
    if t.len() > 0 && is_digit_c(t[0]) {
        Some(t.take(num_run(t, false) as int))
    } else {
        None
    }
}

/// A string literal: an opening quote through the matching closing quote.
/// The lexeme excludes the quotes.  `None` either when `t` does not start
/// with a quote or when no closing quote follows (an unterminated string,
/// which the scan reports as a lexical error).
pub open spec fn spec_match_string(t: Seq<char>) -> Option<Seq<char>> {
    if t.len() > 0 && t[0] == '"' {
        let k = run_len(t.skip(1), |c: char| c != '"');
        if 1 + k < t.len() {
            Some(t.subrange(1, 1 + k as int))
        } else {
            None
        }
    } else {
        None
    }
}

pub open spec fn two_char_type(c0: char, c1: char) -> Option<TokenType> {
    if c0 == '<' && c1 == '=' {
        Some(TokenType::LE)
    } else if c0 == '>' && c1 == '=' {
        Some(TokenType::GE)
    } else if c0 == '!' && c1 == '=' {
        Some(TokenType::NE)
    } else if c0 == '=' && c1 == '=' {
        Some(TokenType::EQ)
    } else {
        None
    }
}

pub open spec fn one_char_type(c: char) -> Option<TokenType> {
    match c {
        '+' => Some(TokenType::PLUS),
        '-' => Some(TokenType::MINUS),
        '*' => Some(TokenType::STAR),
        '(' => Some(TokenType::LPAREN),
        ')' => Some(TokenType::RPAREN),
        '{' => Some(TokenType::LBRACE),
        '}' => Some(TokenType::RBRACE),
        ';' => Some(TokenType::SEMICOLON),
        ',' => Some(TokenType::COMMA),
        '.' => Some(TokenType::DOT),
        '=' => Some(TokenType::ASSIGN),
        '>' => Some(TokenType::GT),
        '<' => Some(TokenType::LT),
        '!' => Some(TokenType::BANG),
        '/' => Some(TokenType::SLASH),
        _ => None,
    }
}

pub open spec fn spec_match_two(t: Seq<char>) -> Option<TokenType> {
    if t.len() >= 2 {
        two_char_type(t[0], t[1])
    } else {
        None
    }
}

pub open spec fn spec_match_one(t: Seq<char>) -> Option<TokenType> {
    if t.len() >= 1 {
        one_char_type(t[0])
    } else {
        None
    }
}

/// The next raw token at the head of `t`, by maximal munch: its kind, its
/// lexeme, and how many characters it consumes (the lexeme length, plus
/// the two quotes for a string literal).  `None` when `t` is empty or
/// starts with something no rule accepts.
pub open spec fn spec_next_token(t: Seq<char>) -> Option<(TokenType, Seq<char>, nat)> {
    if spec_match_whitespace(t) is Some {
        let l = spec_match_whitespace(t)->Some_0;
        Some((TokenType::WHITESPACE, l, l.len()))
    } else if spec_match_comment(t) is Some {
        let l = spec_match_comment(t)->Some_0;
        Some((TokenType::COMMENT, l, l.len()))
    } else if spec_match_identifier(t) is Some {
        let l = spec_match_identifier(t)->Some_0;
        Some((keyword_type(l), l, l.len()))
    } else if spec_match_number(t) is Some {
        let l = spec_match_number(t)->Some_0;
        Some((TokenType::NUMBER, l, l.len()))
    } else if spec_match_string(t) is Some {
        let l = spec_match_string(t)->Some_0;
        Some((TokenType::STRING, l, l.len() + 2))
    } else if spec_match_two(t) is Some {
        Some((spec_match_two(t)->Some_0, t.take(2), 2))
    } else if spec_match_one(t) is Some {
        Some((spec_match_one(t)->Some_0, t.take(1), 1))
    } else {
        None
    }
}

/// Every successful match consumes at least one character and no more
/// than the whole of `t`.
pub proof fn lemma_next_token_consumes(t: Seq<char>)
    ensures
        spec_next_token(t) matches Some(m) ==> 1 <= m.2 <= t.len() && m.1.len() <= m.2,
{
    if t.len() > 0 && is_space_c(t[0]) {
        lemma_run_len(t, |c: char| is_space_c(c));
        assert(run_len(t, |c: char| is_space_c(c)) >= 1) by {
            assert((|c: char| is_space_c(c))(t[0]));
            lemma_run_len_is_positive(t, |c: char| is_space_c(c));
        }
    } else if t.len() >= 2 && t[0] == '/' && t[1] == '/' {
        lemma_run_len(t, |c: char| c != '\n');
        lemma_run_len_is_positive(t, |c: char| c != '\n');
    } else if t.len() > 0 && is_ident_start_c(t[0]) {
        lemma_run_len(t, |c: char| is_ident_c(c));
        lemma_run_len_is_positive(t, |c: char| is_ident_c(c));
    } else if t.len() > 0 && is_digit_c(t[0]) {
        lemma_num_run_le(t, false);
    } else if spec_match_string(t) is Some {
        lemma_run_len(t.skip(1), |c: char| c != '"');
    }
}

/// A run whose first character qualifies has positive length.
pub proof fn lemma_run_len_is_positive(t: Seq<char>, p: spec_fn(char) -> bool)
    requires
        t.len() > 0,
        p(t[0]),
    ensures
        run_len(t, p) >= 1,
{
}

// ---------------------------------------------------------------------
// The whole scan, in specification form
// ---------------------------------------------------------------------

/// Scan all of `t`, starting at line number `line`: the sequence of
/// surviving tokens (whitespace and comments dropped, `EOF` appended at
/// the final line), or the first unrecognized character with its line.
pub open spec fn spec_tokenize_at(t: Seq<char>, line: int) -> Result<Seq<TokenModel>, (char, int)>
    decreases t.len(),
{
    if t.len() == 0 {
        Ok(seq![TokenModel { toktype: TokenType::EOF, lexeme: Seq::empty(), line }])
    } else {
        match spec_next_token(t) {
            None => Err((t[0], line)),
            Some((ty, lex, n)) => {
                if n < 1 || n > t.len() {
                    // never reached: a match always consumes 1..=t.len()
                    Err((t[0], line))
                } else {
                    let line2 = if ty == TokenType::WHITESPACE {
                        line_add(line, count_nl(lex))
                    } else {
                        line
                    };
                    let rest = spec_tokenize_at(t.skip(n as int), line2);
                    if ty == TokenType::WHITESPACE || ty == TokenType::COMMENT {
                        rest
                    } else {
                        match rest {
                            Ok(ts) => Ok(
                                seq![TokenModel { toktype: ty, lexeme: lex, line }] + ts,
                            ),
                            Err(e) => Err(e),
                        }
                    }
                }
            },
        }
    }
}

/// The scan of a whole source text, from line 1.
pub open spec fn spec_tokenize(t: Seq<char>) -> Result<Seq<TokenModel>, (char, int)> {
    spec_tokenize_at(t, 1)
}

/// The models of a sequence of tokens.
pub open spec fn tokens_view(ts: Seq<Token>) -> Seq<TokenModel> {
    ts.map_values(|t: Token| t@)
}

/// Law: the scanner prefers the longest token.  Wherever one of the
/// two-character symbols `<= >= == !=` starts, the scan takes both of its
/// characters as one token, never the one-character prefix alone.
pub proof fn lemma_two_char_symbol_priority(t: Seq<char>)
    requires
        t.len() >= 2,
        two_char_type(t[0], t[1]) is Some,
    ensures
        spec_next_token(t) == Some(
            (two_char_type(t[0], t[1])->Some_0, t.take(2), 2nat),
        ),
{
    assert(spec_match_whitespace(t) is None);
    assert(spec_match_comment(t) is None);
    assert(spec_match_identifier(t) is None);
    assert(spec_match_number(t) is None);
    assert(spec_match_string(t) is None);
}

/// Law: the source `<=` scans to exactly one `LE` token (then the final
/// `EOF`), never an `LT` followed by an `ASSIGN`-like leftover.
pub proof fn lemma_le_scans_to_one_token()
    ensures
        spec_tokenize("<="@) == Ok::<Seq<TokenModel>, (char, int)>(
            seq![
                (TokenModel { toktype: TokenType::LE, lexeme: "<="@, line: 1 }),
                (TokenModel { toktype: TokenType::EOF, lexeme: Seq::empty(), line: 1 }),
            ],
        ),
{
    reveal_strlit("<=");
    let t = "<="@;
    assert(t.len() == 2 && t[0] == '<' && t[1] == '=');
    lemma_two_char_symbol_priority(t);
    assert(t.take(2) =~= t);
    assert(t.skip(2).len() == 0);
    assert(spec_tokenize_at(t.skip(2), 1) == Ok::<Seq<TokenModel>, (char, int)>(
        seq![(TokenModel { toktype: TokenType::EOF, lexeme: Seq::empty(), line: 1 })],
    ));
    assert(seq![(TokenModel { toktype: TokenType::LE, lexeme: t, line: 1 })] + seq![
        (TokenModel { toktype: TokenType::EOF, lexeme: Seq::empty(), line: 1 }),
    ] =~= seq![
        (TokenModel { toktype: TokenType::LE, lexeme: "<="@, line: 1 }),
        (TokenModel { toktype: TokenType::EOF, lexeme: Seq::empty(), line: 1 }),
    ]);
}

pub proof fn lemma_count_nl_append(a: Seq<char>, b: Seq<char>)
    ensures
        count_nl(a + b) == count_nl(a) + count_nl(b),
    decreases a.len(),
{
    if a.len() == 0 {
        assert(a + b =~= b);
    } else {
        assert((a + b).skip(1) =~= a.skip(1) + b);
        lemma_count_nl_append(a.skip(1), b);
    }
}

// ---------------------------------------------------------------------
// Executable character classes and small helpers
// ---------------------------------------------------------------------

pub fn is_space(c: char) -> (r: bool)
    ensures
        r == is_space_c(c),
{
    c == ' ' || c == '\t' || c == '\r' || c == '\n'
}

pub fn is_digit(c: char) -> (r: bool)
    ensures
        r == is_digit_c(c),
{
    '0' <= c && c <= '9'
}

pub fn is_ident_start(c: char) -> (r: bool)
    ensures
        r == is_ident_start_c(c),
{
    ('a' <= c && c <= 'z') || ('A' <= c && c <= 'Z') || c == '_'
}

pub fn is_ident_char(c: char) -> (r: bool)
    ensures
        r == is_ident_c(c),
{
    ('a' <= c && c <= 'z') || ('A' <= c && c <= 'Z') || ('0' <= c && c <= '9') || c == '_'
}

/// Character-by-character string equality, proved against the views.
pub fn str_eq(a: &str, b: &str) -> (r: bool)
    ensures
        r == (a@ == b@),
{
    let la = a.unicode_len();
    let lb = b.unicode_len();
    if la != lb {
        return false;
    }
    let mut i: usize = 0;
    loop
        invariant
            i <= la,
            la == a@.len(),
            la == b@.len(),
            forall|k: int| 0 <= k < i ==> a@[k] == b@[k],
        ensures
            i == la,
            forall|k: int| 0 <= k < la ==> a@[k] == b@[k],
        decreases la - i,
    {
        if i >= la {
            break ;
        }
        if a.get_char(i) != b.get_char(i) {
            return false;
        }
        i += 1;
    }
    proof {
        assert(a@ =~= b@);
    }
    true
}

/// The token kind of an identifier lexeme, as `keyword_type` states it.
pub fn keyword_or_identifier(lex: &str) -> (t: TokenType)
    ensures
        t == keyword_type(lex@),
{
    if str_eq(lex, "and") {
        TokenType::AND
    } else if str_eq(lex, "class") {
        TokenType::CLASS
    } else if str_eq(lex, "else") {
        TokenType::ELSE
    } else if str_eq(lex, "false") {
        TokenType::FALSE
    } else if str_eq(lex, "for") {
        TokenType::FOR
    } else if str_eq(lex, "fun") {
        TokenType::FUN
    } else if str_eq(lex, "if") {
        TokenType::IF
    } else if str_eq(lex, "nil") {
        TokenType::NIL
    } else if str_eq(lex, "or") {
        TokenType::OR
    } else if str_eq(lex, "print") {
        TokenType::PRINT
    } else if str_eq(lex, "return") {
        TokenType::RETURN
    } else if str_eq(lex, "super") {
        TokenType::SUPER
    } else if str_eq(lex, "this") {
        TokenType::THIS
    } else if str_eq(lex, "true") {
        TokenType::TRUE
    } else if str_eq(lex, "var") {
        TokenType::VAR
    } else if str_eq(lex, "while") {
        TokenType::WHILE
    } else {
        TokenType::IDENTIFIER
    }
}

pub fn one_char_symbol_type(c: char) -> (r: Option<TokenType>)
    ensures
        r == one_char_type(c),
{
    match c {
        '+' => Some(TokenType::PLUS),
        '-' => Some(TokenType::MINUS),
        '*' => Some(TokenType::STAR),
        '(' => Some(TokenType::LPAREN),
        ')' => Some(TokenType::RPAREN),
        '{' => Some(TokenType::LBRACE),
        '}' => Some(TokenType::RBRACE),
        ';' => Some(TokenType::SEMICOLON),
        ',' => Some(TokenType::COMMA),
        '.' => Some(TokenType::DOT),
        '=' => Some(TokenType::ASSIGN),
        '>' => Some(TokenType::GT),
        '<' => Some(TokenType::LT),
        '!' => Some(TokenType::BANG),
        '/' => Some(TokenType::SLASH),
        _ => None,
    }
}

pub fn two_char_symbol_type(c0: char, c1: char) -> (r: Option<TokenType>)
    ensures
        r == two_char_type(c0, c1),
{
    if c0 == '<' && c1 == '=' {
        Some(TokenType::LE)
    } else if c0 == '>' && c1 == '=' {
        Some(TokenType::GE)
    } else if c0 == '!' && c1 == '=' {
        Some(TokenType::NE)
    } else if c0 == '=' && c1 == '=' {
        Some(TokenType::EQ)
    } else {
        None
    }
}

/// Number of newline characters in `s`.
pub fn count_newlines(s: &str) -> (r: usize)
    ensures
        r == count_nl(s@),
{
    let len = s.unicode_len();
    let mut i: usize = 0;
    let mut n: usize = 0;
    loop
        invariant
            i <= len,
            n <= i,
            len == s@.len(),
            n == count_nl(s@.take(i as int)),
        ensures
            i == len,
            n == count_nl(s@.take(len as int)),
        decreases len - i,
    {
        if i >= len {
            break ;
        }
        let c = s.get_char(i);
        proof {
            assert(s@.take(i + 1) =~= s@.take(i as int) + seq![s@[i as int]]);
            lemma_count_nl_append(s@.take(i as int), seq![s@[i as int]]);
            assert(seq![s@[i as int]].skip(1) =~= Seq::<char>::empty());
            assert(count_nl(Seq::<char>::empty()) == 0);
            assert(count_nl(seq![s@[i as int]]) == (if s@[i as int] == '\n' {
                1nat
            } else {
                0nat
            }));
        }
        if c == '\n' {
            n += 1;
        }
        i += 1;
    }
    proof {
        assert(s@.take(len as int) =~= s@);
    }
    n
}

/// Advance a line counter by `k` newlines, saturating as `line_add` states.
pub fn advance_line(line: i32, k: usize) -> (r: i32)
    requires
        1 <= line,
    ensures
        r as int == line_add(line as int, k as nat),
        1 <= r,
{
    let room = (i32::MAX - line) as usize;
    if k > room {
        i32::MAX
    } else {
        line + (k as i32)
    }
}

// ---------------------------------------------------------------------
// The scanner
// ---------------------------------------------------------------------

/// Scanning state: the source text and the current scan position,
/// counted in characters.
pub struct Scanner {
    pub source: String,
    pub index: usize,
}

impl Scanner {
    /// The scan position never passes the end of the source.
    pub open spec fn wf(&self) -> bool {
        self.index <= self.source@.len()
    }

    /// The characters not yet consumed.
    pub open spec fn rem(&self) -> Seq<char> {
        self.source@.skip(self.index as int)
    }

    pub fn new(source: String) -> (s: Scanner)
        ensures
            s.wf(),
            s.source == source,
            s.index == 0,
    {
        Scanner { source, index: 0 }
    }

    /// The next character, or `'\x00'` past the end of the input.
    pub fn peekch(&self) -> (c: char)
        requires
            self.wf(),
        ensures
            c == (if self.rem().len() > 0 {
                self.rem()[0]
            } else {
                '\x00'
            }),
    {
        let len = self.source.as_str().unicode_len();
        if self.index >= len {
            '\x00'
        } else {
            self.source.as_str().get_char(self.index)
        }
    }

    /// The next `n` characters, or the empty string when fewer remain.
    pub fn peek(&self, n: usize) -> (r: &str)
        requires
            self.wf(),
        ensures
            r@ == (if n <= self.rem().len() {
                self.rem().take(n as int)
            } else {
                Seq::<char>::empty()
            }),
    {
        let len = self.source.as_str().unicode_len();
        if n > len - self.index {
            proof {
                reveal_strlit("");
                assert(""@ =~= Seq::<char>::empty());
            }
            ""
        } else {
            let s = self.source.as_str().substring_char(self.index, self.index + n);
            proof {
                assert(s@ =~= self.rem().take(n as int));
            }
            s
        }
    }

    /// All characters not yet consumed, as a string slice.
    pub fn remaining(&self) -> (r: &str)
        requires
            self.wf(),
        ensures
            r@ == self.rem(),
    {
        let len = self.source.as_str().unicode_len();
        let s = self.source.as_str().substring_char(self.index, len);
        proof {
            assert(s@ =~= self.rem());
        }
        s
    }

    /// A maximal run of whitespace characters.
    pub fn match_whitespace(&self) -> (r: Option<Token>)
        requires
            self.wf(),
        ensures
            (match r {
                Some(t) => spec_match_whitespace(self.rem()) matches Some(l)
                    && t@ == (TokenModel { toktype: TokenType::WHITESPACE, lexeme: l, line: 0 }),
                None => spec_match_whitespace(self.rem()) is None,
            }),
    {
        let len = self.source.as_str().unicode_len();
        if self.index >= len {
            return None;
        }
        if !is_space(self.source.as_str().get_char(self.index)) {
            return None;
        }
        let mut j = self.index + 1;
        loop
            invariant
                self.wf(),
                self.index < j <= len,
                len == self.source@.len(),
                forall|k: int| self.index <= k < j ==> is_space_c(#[trigger] self.source@[k]),
            ensures
                self.index < j <= len,
                forall|k: int| self.index <= k < j ==> is_space_c(#[trigger] self.source@[k]),
                j == len || !is_space_c(self.source@[j as int]),
            decreases len - j,
        {
            if j >= len {
                break ;
            }
            if !is_space(self.source.as_str().get_char(j)) {
                break ;
            }
            j += 1;
        }
        proof {
            let t = self.rem();
            let p = |c: char| is_space_c(c);
            assert forall|k: int| 0 <= k < j - self.index implies p(#[trigger] t[k]) by {
                assert(t[k] == self.source@[self.index + k]);
            }
            if j - self.index < t.len() {
                assert(t[j - self.index] == self.source@[j as int]);
            }
            lemma_run_len_is(t, p, j - self.index);
        }
        let lex = self.source.as_str().substring_char(self.index, j);
        proof {
            assert(lex@ =~= self.rem().take(j - self.index));
        }
        Some(Token::new(TokenType::WHITESPACE, lex, 0))
    }

    /// A `//` comment running to the end of the line.
    pub fn match_comment(&self) -> (r: Option<Token>)
        requires
            self.wf(),
        ensures
            (match r {
                Some(t) => spec_match_comment(self.rem()) matches Some(l)
                    && t@ == (TokenModel { toktype: TokenType::COMMENT, lexeme: l, line: 0 }),
                None => spec_match_comment(self.rem()) is None,
            }),
    {
        let len = self.source.as_str().unicode_len();
        if len - self.index < 2 {
            return None;
        }
        if self.source.as_str().get_char(self.index) != '/' || self.source.as_str().get_char(
            self.index + 1,
        ) != '/' {
            return None;
        }
        let mut j = self.index + 2;
        loop
            invariant
                self.wf(),
                self.index + 2 <= j <= len,
                len == self.source@.len(),
                self.source@[self.index as int] == '/',
                self.source@[self.index + 1] == '/',
                forall|k: int| self.index <= k < j ==> #[trigger] self.source@[k] != '\n',
            ensures
                self.index + 2 <= j <= len,
                forall|k: int| self.index <= k < j ==> #[trigger] self.source@[k] != '\n',
                j == len || self.source@[j as int] == '\n',
            decreases len - j,
        {
            if j >= len {
                break ;
            }
            if self.source.as_str().get_char(j) == '\n' {
                break ;
            }
            j += 1;
        }
        proof {
            let t = self.rem();
            let p = |c: char| c != '\n';
            assert forall|k: int| 0 <= k < j - self.index implies p(#[trigger] t[k]) by {
                assert(t[k] == self.source@[self.index + k]);
            }
            if j - self.index < t.len() {
                assert(t[j - self.index] == self.source@[j as int]);
            }
            lemma_run_len_is(t, p, j - self.index);
        }
        let lex = self.source.as_str().substring_char(self.index, j);
        proof {
            assert(lex@ =~= self.rem().take(j - self.index));
        }
        Some(Token::new(TokenType::COMMENT, lex, 0))
    }

    /// An identifier or keyword: a letter or underscore, then letters,
    /// digits and underscores.
    pub fn match_identifier(&self) -> (r: Option<Token>)
        requires
            self.wf(),
        ensures
            (match r {
                Some(t) => spec_match_identifier(self.rem()) matches Some(l)
                    && t@ == (TokenModel { toktype: keyword_type(l), lexeme: l, line: 0 }),
                None => spec_match_identifier(self.rem()) is None,
            }),
    {
        let len = self.source.as_str().unicode_len();
        if self.index >= len {
            return None;
        }
        if !is_ident_start(self.source.as_str().get_char(self.index)) {
            return None;
        }
        let mut j = self.index + 1;
        loop
            invariant
                self.wf(),
                self.index < j <= len,
                len == self.source@.len(),
                forall|k: int| self.index <= k < j ==> is_ident_c(#[trigger] self.source@[k]),
            ensures
                self.index < j <= len,
                forall|k: int| self.index <= k < j ==> is_ident_c(#[trigger] self.source@[k]),
                j == len || !is_ident_c(self.source@[j as int]),
            decreases len - j,
        {
            if j >= len {
                break ;
            }
            if !is_ident_char(self.source.as_str().get_char(j)) {
                break ;
            }
            j += 1;
        }
        proof {
            let t = self.rem();
            let p = |c: char| is_ident_c(c);
            assert forall|k: int| 0 <= k < j - self.index implies p(#[trigger] t[k]) by {
                assert(t[k] == self.source@[self.index + k]);
            }
            if j - self.index < t.len() {
                assert(t[j - self.index] == self.source@[j as int]);
            }
            lemma_run_len_is(t, p, j - self.index);
        }
        let lex = self.source.as_str().substring_char(self.index, j);
        proof {
            assert(lex@ =~= self.rem().take(j - self.index));
        }
        let ty = keyword_or_identifier(lex);
        Some(Token::new(ty, lex, 0))
    }

    /// A numeric literal: digits with at most one decimal point; a second
    /// decimal point ends the number.
    pub fn match_number(&self) -> (r: Option<Token>)
        requires
            self.wf(),
        ensures
            (match r {
                Some(t) => spec_match_number(self.rem()) matches Some(l)
                    && t@ == (TokenModel { toktype: TokenType::NUMBER, lexeme: l, line: 0 }),
                None => spec_match_number(self.rem()) is None,
            }),
    {
        let len = self.source.as_str().unicode_len();
        if self.index >= len {
            return None;
        }
        if !is_digit(self.source.as_str().get_char(self.index)) {
            return None;
        }
        let mut j = self.index;
        let mut seen = false;
        proof {
            assert(self.rem().skip(0) =~= self.rem());
        }
        loop
            invariant
                self.wf(),
                self.index <= j <= len,
                len == self.source@.len(),
                num_run(self.rem(), false) == (j - self.index) + num_run(
                    self.rem().skip(j - self.index),
                    seen,
                ),
            ensures
                self.index <= j <= len,
                num_run(self.rem(), false) == j - self.index,
            decreases len - j,
        {
            proof {
                if j < len {
                    assert(self.rem().skip(j - self.index)[0] == self.source@[j as int]);
                    assert(self.rem().skip(j - self.index).skip(1) =~= self.rem().skip(
                        j + 1 - self.index,
                    ));
                } else {
                    assert(self.rem().skip(j - self.index).len() == 0);
                }
            }
            if j >= len {
                break ;
            }
            let c = self.source.as_str().get_char(j);
            if is_digit(c) {
                j += 1;
            } else if c == '.' && !seen {
                seen = true;
                j += 1;
            } else {
                break ;
            }
        }
        proof {
            lemma_num_run_le(self.rem(), false);
        }
        let lex = self.source.as_str().substring_char(self.index, j);
        proof {
            assert(lex@ =~= self.rem().take(j - self.index));
        }
        Some(Token::new(TokenType::NUMBER, lex, 0))
    }

    /// A string literal; the lexeme excludes the quotes.  `None` both when
    /// no quote opens here and when the opened string never closes.
    pub fn match_string(&self) -> (r: Option<Token>)
        requires
            self.wf(),
        ensures
            (match r {
                Some(t) => spec_match_string(self.rem()) matches Some(l)
                    && t@ == (TokenModel { toktype: TokenType::STRING, lexeme: l, line: 0 }),
                None => spec_match_string(self.rem()) is None,
            }),
    {
        let len = self.source.as_str().unicode_len();
        if self.index >= len {
            return None;
        }
        if self.source.as_str().get_char(self.index) != '"' {
            return None;
        }
        let mut j = self.index + 1;
        loop
            invariant
                self.wf(),
                self.index + 1 <= j <= len,
                len == self.source@.len(),
                forall|k: int| self.index + 1 <= k < j ==> #[trigger] self.source@[k] != '"',
            ensures
                self.index + 1 <= j <= len,
                forall|k: int| self.index + 1 <= k < j ==> #[trigger] self.source@[k] != '"',
                j == len || self.source@[j as int] == '"',
            decreases len - j,
        {
            if j >= len {
                break ;
            }
            if self.source.as_str().get_char(j) == '"' {
                break ;
            }
            j += 1;
        }
        proof {
            let t1 = self.rem().skip(1);
            let p = |c: char| c != '"';
            assert forall|k: int| 0 <= k < j - self.index - 1 implies p(#[trigger] t1[k]) by {
                assert(t1[k] == self.source@[self.index + 1 + k]);
            }
            if j - self.index - 1 < t1.len() {
                assert(t1[j - self.index - 1] == self.source@[j as int]);
            }
            lemma_run_len_is(t1, p, j - self.index - 1);
        }
        if j >= len {
            // the string never closes
            return None;
        }
        let lex = self.source.as_str().substring_char(self.index + 1, j);
        proof {
            assert(lex@ =~= self.rem().subrange(1, j - self.index));
        }
        Some(Token::new(TokenType::STRING, lex, 0))
    }

    /// One of the two-character symbols `<= >= == !=`.
    pub fn match_two_character_symbol(&self) -> (r: Option<Token>)
        requires
            self.wf(),
        ensures
            (match r {
                Some(t) => spec_match_two(self.rem()) matches Some(ty)
                    && t@ == (TokenModel { toktype: ty, lexeme: self.rem().take(2), line: 0 }),
                None => spec_match_two(self.rem()) is None,
            }),
    {
        let len = self.source.as_str().unicode_len();
        if len - self.index < 2 {
            return None;
        }
        let c0 = self.source.as_str().get_char(self.index);
        let c1 = self.source.as_str().get_char(self.index + 1);
        match two_char_symbol_type(c0, c1) {
            None => None,
            Some(ty) => {
                let lex = self.source.as_str().substring_char(self.index, self.index + 2);
                proof {
                    assert(lex@ =~= self.rem().take(2));
                }
                Some(Token::new(ty, lex, 0))
            },
        }
    }

    /// One of the one-character symbols.
    pub fn match_one_character_symbol(&self) -> (r: Option<Token>)
        requires
            self.wf(),
        ensures
            (match r {
                Some(t) => spec_match_one(self.rem()) matches Some(ty)
                    && t@ == (TokenModel { toktype: ty, lexeme: self.rem().take(1), line: 0 }),
                None => spec_match_one(self.rem()) is None,
            }),
    {
        let len = self.source.as_str().unicode_len();
        if self.index >= len {
            return None;
        }
        let c = self.source.as_str().get_char(self.index);
        match one_char_symbol_type(c) {
            None => None,
            Some(ty) => {
                let lex = self.source.as_str().substring_char(self.index, self.index + 1);
                proof {
                    assert(lex@ =~= self.rem().take(1));
                }
                Some(Token::new(ty, lex, 0))
            },
        }
    }

    /// The matchers in their fixed priority order: the first that accepts
    /// the head of the input wins.
    pub fn match_any(&self) -> (r: Option<Token>)
        requires
            self.wf(),
        ensures
            (match r {
                Some(t) => spec_next_token(self.rem()) matches Some(m) && t@ == (TokenModel {
                    toktype: m.0,
                    lexeme: m.1,
                    line: 0,
                }),
                None => spec_next_token(self.rem()) is None,
            }),
    {
        if let Some(tok) = self.match_whitespace() {
            return Some(tok);
        }
        if let Some(tok) = self.match_comment() {
            return Some(tok);
        }
        if let Some(tok) = self.match_identifier() {
            return Some(tok);
        }
        if let Some(tok) = self.match_number() {
            return Some(tok);
        }
        if let Some(tok) = self.match_string() {
            return Some(tok);
        }
        if let Some(tok) = self.match_two_character_symbol() {
            return Some(tok);
        }
        if let Some(tok) = self.match_one_character_symbol() {
            return Some(tok);
        }
        None
    }

    /// The next raw token, consuming its characters: the lexeme length,
    /// plus the two quotes of a string literal.
    pub fn next_token(&mut self) -> (r: Option<Token>)
        requires
            old(self).wf(),
        ensures
            final(self).wf(),
            final(self).source == old(self).source,
            (match r {
                Some(t) => spec_next_token(old(self).rem()) matches Some(m) && t@ == (TokenModel {
                    toktype: m.0,
                    lexeme: m.1,
                    line: 0,
                }) && final(self).index == old(self).index + m.2 && final(self).index > old(
                    self,
                ).index,
                None => spec_next_token(old(self).rem()) is None && final(self).index == old(
                    self,
                ).index,
            }),
    {
        proof {
            lemma_next_token_consumes(self.rem());
        }
        match self.match_any() {
            Some(tok) => {
                let len = self.source.as_str().unicode_len();
                let l = tok.lexeme.as_str().unicode_len();
                proof {
                    let m = spec_next_token(self.rem())->Some_0;
                    assert(1 <= m.2 <= self.rem().len());
                    assert(self.rem().len() <= len);
                    if tok.toktype == TokenType::STRING {
                        assert(m.2 == m.1.len() + 2);
                    } else {
                        assert(m.2 == m.1.len());
                    }
                }
                let consumed: usize = if tok.toktype == TokenType::STRING {
                    l + 2
                } else {
                    l
                };
                self.index += consumed;
                Some(tok)
            },
            None => None,
        }
    }

    /// Scan the rest of the input: the surviving tokens with their line
    /// numbers and a final `EOF`, or the first unrecognized character.
    pub fn tokenize(&mut self) -> (r: Result<Tokens, LoxError>)
        requires
            old(self).wf(),
        ensures
            (match r {
                Ok(ts) => spec_tokenize(old(self).rem()) matches Ok(ms) && tokens_view(ts@) == ms,
                Err(e) => spec_tokenize(old(self).rem()) matches Err(p) && e@ == (ErrorModel::LexE {
                    ch: p.0,
                    line: p.1,
                }),
            }),
    {
        let mut out: Vec<Token> = Vec::new();
        let mut line: i32 = 1;
        let ghost t0 = self.rem();
        loop
            invariant
                self.wf(),
                self.source == old(self).source,
                old(self).index <= self.index,
                1 <= line,
                t0 == old(self).rem(),
                (match spec_tokenize_at(self.rem(), line as int) {
                    Ok(ts) => spec_tokenize_at(t0, 1) matches Ok(all) && all == tokens_view(out@)
                        + ts,
                    Err(e) => spec_tokenize_at(t0, 1) == Err::<Seq<TokenModel>, (char, int)>(e),
                }),
            decreases self.source@.len() - self.index,
        {
            proof {
                lemma_next_token_consumes(self.rem());
            }
            let ghost pre = *self;
            match self.next_token() {
                None => {
                    let len = self.source.as_str().unicode_len();
                    if self.index < len {
                        // an unrecognized character: report it and abort
                        let c = self.peekch();
                        return Err(LoxError::LexError { ch: c, line });
                    } else {
                        proof {
                            reveal_strlit("");
                            assert(""@ =~= Seq::<char>::empty());
                            assert(self.rem().len() == 0);
                        }
                        let eof = Token::new(TokenType::EOF, "", line);
                        let ghost before = out@;
                        out.push(eof);
                        proof {
                            assert(tokens_view(out@) =~= tokens_view(before).push(eof@));
                            assert(spec_tokenize_at(self.rem(), line as int) matches Ok(ts)
                                && tokens_view(before) + ts =~= tokens_view(out@));
                        }
                        return Ok(out);
                    }
                },
                Some(tok) => {
                    proof {
                        assert(self.rem() =~= pre.rem().skip(self.index - pre.index));
                    }
                    if tok.toktype == TokenType::WHITESPACE {
                        let nl = count_newlines(tok.lexeme.as_str());
                        line = advance_line(line, nl);
                    } else if tok.toktype == TokenType::COMMENT {
                        // dropped
                    } else {
                        let kept = Token::new(tok.toktype, tok.lexeme.as_str(), line);
                        let ghost before = out@;
                        let ghost rest0 = spec_tokenize_at(pre.rem(), line as int);
                        out.push(kept);
                        proof {
                            assert(tokens_view(out@) =~= tokens_view(before).push(kept@));
                            match spec_tokenize_at(self.rem(), line as int) {
                                Ok(ts) => {
                                    assert(rest0 matches Ok(rs) && rs == seq![kept@] + ts);
                                    assert(tokens_view(before) + (seq![kept@] + ts)
                                        =~= tokens_view(out@) + ts);
                                },
                                Err(_) => {},
                            }
                        }
                    }
                },
            }
        }
    }
}

/// Scan a whole source text into tokens.
pub fn tokenize(src: &Source) -> (r: Result<Tokens, LoxError>)
    ensures
        (match r {
            Ok(ts) => spec_tokenize(src@) matches Ok(ms) && tokens_view(ts@) == ms,
            Err(e) => spec_tokenize(src@) matches Err(p) && e@ == (ErrorModel::LexE {
                ch: p.0,
                line: p.1,
            }),
        }),
{
    let mut scanner = Scanner::new(src.clone());
    proof {
        assert(scanner.rem() =~= src@);
    }
    scanner.tokenize()
}

} // verus!
