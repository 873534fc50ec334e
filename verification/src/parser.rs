//! The precedence-climbing parser: a statement driver over a two-token
//! lookahead window, an expression engine that resolves operator binding
//! strength through a minimum-precedence threshold, and an append-only
//! diagnostics list that records malformed input instead of aborting.
//!
//! The parser's behaviour is pinned down by a mathematical model: a family
//! of spec functions over the token sequence that mirror each parsing
//! routine. Every executable routine's contract states that it returns
//! exactly what the model says, leaves the token sequence unchanged, and
//! appends exactly the diagnostics the model lists.

use vstd::prelude::*;
use vstd::string::StringExecFns;
use vstd::string::StrSliceExecFns;
use vstd::pervasive::unreached;
use crate::token::Token;
use crate::token::TokenV;
use crate::token::tok_name;
use crate::token::tok_desc;
use crate::ast::Expression;
use crate::ast::ExprV;
use crate::ast::Statement;
use crate::ast::StmtV;
use crate::ast::Program;
use crate::ast::Identifier;
use crate::ast::IntegerLiteral;
use crate::ast::BooleanLiteral;
use crate::ast::PrefixExpression;
use crate::ast::InfixExpression;
use crate::ast::PrefixOperator;
use crate::ast::InfixOperator;
use crate::ast::LetStatement;
use crate::ast::ReturnStatement;
use crate::ast::ExpressionStatement;
use crate::lexer::Lexer;

verus! {

/// The minimum precedence that accepts every operator.
pub const LOWEST: u8 = 0;

/// The precedence of `==` and `!=`.
pub const EQUALS: u8 = 1;

/// The precedence of `<` and `>`.
pub const LESS_GREATER: u8 = 2;

/// The precedence of `+` and binary `-`.
pub const SUM: u8 = 3;

/// The precedence of `*` and `/`.
pub const PRODUCT: u8 = 4;

/// The precedence of a prefix operator: above every infix operator.
pub const PREFIX: u8 = 5;

/// The binding strength of a token in infix position. Only the eight
/// binary operators bind at all.
pub open spec fn prec_of(t: TokenV) -> int {
    match t {
        TokenV::Eq => EQUALS as int,
        TokenV::NotEq => EQUALS as int,
        TokenV::Lt => LESS_GREATER as int,
        TokenV::Gt => LESS_GREATER as int,
        TokenV::Plus => SUM as int,
        TokenV::Minus => SUM as int,
        TokenV::Asterisk => PRODUCT as int,
        TokenV::Slash => PRODUCT as int,
        _ => LOWEST as int,
    }
}

/// The binary operator a token stands for in infix position.
pub open spec fn infix_op_of(t: TokenV) -> Option<InfixOperator> {
    match t {
        TokenV::Plus => Some(InfixOperator::Plus),
        TokenV::Minus => Some(InfixOperator::Minus),
        TokenV::Asterisk => Some(InfixOperator::Asterisk),
        TokenV::Slash => Some(InfixOperator::Slash),
        TokenV::Eq => Some(InfixOperator::Eq),
        TokenV::NotEq => Some(InfixOperator::NotEq),
        TokenV::Lt => Some(InfixOperator::Lt),
        TokenV::Gt => Some(InfixOperator::Gt),
        _ => None,
    }
}

/// The token at a position, with the end-of-input token standing in for
/// every position outside the sequence.
pub open spec fn tok_at(toks: Seq<TokenV>, i: int) -> TokenV {
    if 0 <= i < toks.len() {
        toks[i]
    } else {
        TokenV::Eof
    }
}

/// One step of the lookahead window: the position after, never moving
/// past the end of the sequence.
pub open spec fn advance(toks: Seq<TokenV>, p: int) -> int {
    if p < toks.len() {
        p + 1
    } else {
        toks.len() as int
    }
}

/// How many positions are left before the end of the sequence; the
/// termination measure of the model.
pub open spec fn rem(toks: Seq<TokenV>, p: int) -> nat {
    if p < 0 {
        toks.len() + 1
    } else if p <= toks.len() {
        (toks.len() - p) as nat
    } else {
        0
    }
}

/// A position forced into a range; on the positions the model actually
/// produces this is the identity (`lemma_expression_range`), and it makes
/// the model's termination measure self-evident.
pub open spec fn chain(toks: Seq<TokenV>, lo: int, p: int) -> int {
    if lo <= p <= toks.len() {
        p
    } else {
        lo
    }
}

/// The diagnostic for a structural mismatch at a checkpoint.
pub open spec fn msg_expected(name: Seq<char>, got: TokenV) -> Seq<char> {
    "expected next token to be "@ + name + ", got "@ + tok_desc(got) + " instead"@
}

/// The diagnostic for a token with no construction rule in prefix
/// position.
pub open spec fn msg_no_prefix(t: TokenV) -> Seq<char> {
    "no prefix parse fn for "@ + tok_desc(t)
}

/// What an expression-parsing routine leaves behind: the expression if one
/// was built, the position of the last token consumed, and the diagnostics
/// appended along the way.
pub struct ExprOut {
    pub exp: Option<ExprV>,
    pub pos: int,
    pub errs: Seq<Seq<char>>,
}

/// What a statement-parsing routine leaves behind.
pub struct StmtOut {
    pub stmt: Option<StmtV>,
    pub pos: int,
    pub errs: Seq<Seq<char>>,
}

/// What a whole parse run leaves behind: the statements in source order
/// and the diagnostics in the order they were recorded.
pub struct ProgOut {
    pub stmts: Seq<StmtV>,
    pub errs: Seq<Seq<char>>,
}

/// The text parsed as a non-negative signed 64-bit integer: defined when
/// the text is non-empty, all digits, and the value fits.
pub open spec fn digit_val(c: char) -> int {
    c as u32 - '0' as u32
}

/// Whether every character of the text is a decimal digit.
pub open spec fn all_digits(s: Seq<char>) -> bool {
    forall|i: int| 0 <= i < s.len() ==> crate::lexer::is_digit(#[trigger] s[i])
}

/// The numeric value of a digit string, most significant digit first.
pub open spec fn digits_val(s: Seq<char>) -> int
    decreases s.len(),
{
    if s.len() == 0 {
        0
    } else {
        digits_val(s.drop_last()) * 10 + digit_val(s.last())
    }
}

/// The integer a literal's text denotes, if it is well-formed digit text
/// whose value fits in a signed 64-bit integer.
pub open spec fn spec_parse_i64(s: Seq<char>) -> Option<i64> {
    if s.len() > 0 && all_digits(s) && digits_val(s) <= i64::MAX as int {
        Some(digits_val(s) as i64)
    } else {
        None
    }
}

/// The model of the null/prefix dispatch: the construction rule selected
/// by the token at `pos`.
pub open spec fn spec_parse_prefix(toks: Seq<TokenV>, pos: int) -> ExprOut
    decreases rem(toks, pos), 1int,
{
    match tok_at(toks, pos) {
        TokenV::Ident(name) => ExprOut {
            exp: Some(ExprV::Ident { name }),
            pos,
            errs: Seq::empty(),
        },
        TokenV::Int(text) => ExprOut {
            exp: match spec_parse_i64(text) {
                Some(v) => Some(ExprV::Int { value: v as int }),
                None => None,
            },
            pos,
            errs: Seq::empty(),
        },
        TokenV::True => ExprOut { exp: Some(ExprV::Bool { value: true }), pos, errs: Seq::empty() },
        TokenV::False => ExprOut {
            exp: Some(ExprV::Bool { value: false }),
            pos,
            errs: Seq::empty(),
        },
        TokenV::Bang => {
            let r = spec_parse_expression(toks, advance(toks, pos), PREFIX as int);
            match r.exp {
                Some(e) => ExprOut {
                    exp: Some(ExprV::Prefix { op: PrefixOperator::Bang, right: Box::new(e) }),
                    pos: r.pos,
                    errs: r.errs,
                },
                None => ExprOut { exp: None, pos: r.pos, errs: r.errs },
            }
        },
        TokenV::Minus => {
            let r = spec_parse_expression(toks, advance(toks, pos), PREFIX as int);
            match r.exp {
                Some(e) => ExprOut {
                    exp: Some(ExprV::Prefix { op: PrefixOperator::Minus, right: Box::new(e) }),
                    pos: r.pos,
                    errs: r.errs,
                },
                None => ExprOut { exp: None, pos: r.pos, errs: r.errs },
            }
        },
        TokenV::LParen => {
            let r = spec_parse_expression(toks, advance(toks, pos), LOWEST as int);
            if tok_at(toks, r.pos + 1) == TokenV::RParen {
                ExprOut { exp: r.exp, pos: advance(toks, r.pos), errs: r.errs }
            } else {
                ExprOut {
                    exp: None,
                    pos: r.pos,
                    errs: r.errs + seq![
                        msg_expected(tok_name(TokenV::RParen), tok_at(toks, r.pos + 1)),
                    ],
                }
            }
        },
        t => ExprOut { exp: None, pos, errs: seq![msg_no_prefix(t)] },
    }
}

/// The model of one infix step: resolve the operator under the cursor,
/// parse the right operand at that operator's precedence, and fold the two
/// operands into an infix node.
pub open spec fn spec_parse_infix(toks: Seq<TokenV>, pos: int, left: ExprV) -> ExprOut
    decreases rem(toks, pos), 2int,
{
    match infix_op_of(tok_at(toks, pos)) {
        None => ExprOut { exp: None, pos, errs: Seq::empty() },
        Some(op) => {
            let r = spec_parse_expression(toks, advance(toks, pos), prec_of(tok_at(toks, pos)));
            match r.exp {
                Some(right) => ExprOut {
                    exp: Some(
                        ExprV::Infix { op, left: Box::new(left), right: Box::new(right) },
                    ),
                    pos: r.pos,
                    errs: r.errs,
                },
                None => ExprOut { exp: None, pos: r.pos, errs: r.errs },
            }
        },
    }
}

/// The model of the infix loop: while the peek token is not a statement
/// terminator and binds more tightly than the minimum precedence, consume
/// it and fold. A missing left operand still consumes the operator before
/// giving up, exactly as the engine does.
pub open spec fn spec_infix_loop(
    toks: Seq<TokenV>,
    pos: int,
    minp: int,
    left: Option<ExprV>,
) -> ExprOut
    decreases rem(toks, pos), 1int,
{
    let pk = tok_at(toks, pos + 1);
    if pk != TokenV::Semicolon && 0 <= minp && minp < prec_of(pk) {
        let opos = advance(toks, pos);
        match left {
            None => ExprOut { exp: None, pos: opos, errs: Seq::empty() },
            Some(l) => {
                let r = spec_parse_infix(toks, opos, l);
                let p2 = chain(toks, opos + 1, r.pos);
                let rest = spec_infix_loop(toks, p2, minp, r.exp);
                ExprOut { exp: rest.exp, pos: rest.pos, errs: r.errs + rest.errs }
            },
        }
    } else {
        ExprOut { exp: left, pos, errs: Seq::empty() }
    }
}

/// The model of the expression engine at a minimum precedence: the
/// null/prefix dispatch followed by the infix loop.
pub open spec fn spec_parse_expression(toks: Seq<TokenV>, pos: int, minp: int) -> ExprOut
    decreases rem(toks, pos), 3int,
{
    let pre = spec_parse_prefix(toks, pos);
    let p1 = chain(toks, pos, pre.pos);
    let rest = spec_infix_loop(toks, p1, minp, pre.exp);
    ExprOut { exp: rest.exp, pos: rest.pos, errs: pre.errs + rest.errs }
}

/// The first statement terminator or end-of-input at or after a position:
/// where the scan-and-discard of `let` and `return` statements stops.
pub open spec fn spec_scan(toks: Seq<TokenV>, pos: int) -> int
    decreases rem(toks, pos),
{
    let t = tok_at(toks, pos);
    if t == TokenV::Semicolon || t == TokenV::Eof {
        pos
    } else {
        spec_scan(toks, advance(toks, pos))
    }
}

/// The model of a `let` statement: an identifier must follow the keyword
/// and an `=` must follow the identifier; the bound value is scanned past
/// without being built. Either structural mismatch records a diagnostic
/// and produces no statement.
pub open spec fn spec_parse_let(toks: Seq<TokenV>, pos: int) -> StmtOut {
    match tok_at(toks, pos + 1) {
        TokenV::Ident(name) => {
            let p1 = advance(toks, pos);
            if tok_at(toks, p1 + 1) == TokenV::Assign {
                StmtOut {
                    stmt: Some(StmtV::Let { name }),
                    pos: spec_scan(toks, advance(toks, p1)),
                    errs: Seq::empty(),
                }
            } else {
                StmtOut {
                    stmt: None,
                    pos: p1,
                    errs: seq![
                        msg_expected(tok_name(TokenV::Assign), tok_at(toks, p1 + 1)),
                    ],
                }
            }
        },
        t => StmtOut { stmt: None, pos, errs: seq![msg_expected("Ident"@, t)] },
    }
}

/// The model of a `return` statement: consume the keyword and scan to the
/// terminator; always produces a statement.
pub open spec fn spec_parse_return(toks: Seq<TokenV>, pos: int) -> StmtOut {
    StmtOut {
        stmt: Some(StmtV::Return),
        pos: spec_scan(toks, advance(toks, pos)),
        errs: Seq::empty(),
    }
}

/// The model of an expression statement: one expression at the lowest
/// precedence, with one optional trailing semicolon consumed.
pub open spec fn spec_parse_expression_statement(toks: Seq<TokenV>, pos: int) -> StmtOut {
    let r = spec_parse_expression(toks, pos, LOWEST as int);
    match r.exp {
        Some(e) => StmtOut {
            stmt: Some(StmtV::Expr { expression: e }),
            pos: if tok_at(toks, r.pos + 1) == TokenV::Semicolon {
                advance(toks, r.pos)
            } else {
                r.pos
            },
            errs: r.errs,
        },
        None => StmtOut { stmt: None, pos: r.pos, errs: r.errs },
    }
}

/// The model of the statement driver's dispatch on the current token.
pub open spec fn spec_parse_statement(toks: Seq<TokenV>, pos: int) -> StmtOut {
    match tok_at(toks, pos) {
        TokenV::Let => spec_parse_let(toks, pos),
        TokenV::Return => spec_parse_return(toks, pos),
        _ => spec_parse_expression_statement(toks, pos),
    }
}

/// The model of a whole parse run: one statement attempt per iteration,
/// one window step between iterations, until end-of-input. Failed attempts
/// leave no placeholder in the output; their only record is the
/// diagnostics.
pub open spec fn spec_parse_program(toks: Seq<TokenV>, pos: int) -> ProgOut
    decreases rem(toks, pos),
{
    if tok_at(toks, pos) == TokenV::Eof {
        ProgOut { stmts: Seq::empty(), errs: Seq::empty() }
    } else {
        let s = spec_parse_statement(toks, pos);
        let p1 = chain(toks, pos, s.pos);
        let rest = spec_parse_program(toks, advance(toks, p1));
        ProgOut {
            stmts: match s.stmt {
                Some(st) => seq![st] + rest.stmts,
                None => rest.stmts,
            },
            errs: s.errs + rest.errs,
        }
    }
}

/// The mathematical value of an optional expression.
pub open spec fn opt_expr_view(o: Option<Expression>) -> Option<ExprV> {
    match o {
        Some(e) => Some(crate::ast::expr_view(e)),
        None => None,
    }
}

/// The mathematical value of an optional statement.
pub open spec fn opt_stmt_view(o: Option<Statement>) -> Option<StmtV> {
    match o {
        Some(s) => Some(crate::ast::stmt_view(s)),
        None => None,
    }
}

/// The name an identifier token carries.
pub open spec fn ident_name(t: TokenV) -> Seq<char> {
    match t {
        TokenV::Ident(s) => s,
        _ => Seq::empty(),
    }
}

/// The text an integer token carries.
pub open spec fn int_text(t: TokenV) -> Seq<char> {
    match t {
        TokenV::Int(s) => s,
        _ => Seq::empty(),
    }
}

/// The model never moves the cursor backwards or past the end: the
/// null/prefix dispatch case.
pub proof fn lemma_prefix_range(toks: Seq<TokenV>, pos: int)
    requires
        0 <= pos <= toks.len(),
    ensures
        pos <= spec_parse_prefix(toks, pos).pos <= toks.len(),
    decreases rem(toks, pos), 1int,
{
    match tok_at(toks, pos) {
        TokenV::Bang => {
            lemma_expression_range(toks, advance(toks, pos), PREFIX as int);
        },
        TokenV::Minus => {
            lemma_expression_range(toks, advance(toks, pos), PREFIX as int);
        },
        TokenV::LParen => {
            lemma_expression_range(toks, advance(toks, pos), LOWEST as int);
        },
        _ => {},
    }
}

/// The model never moves the cursor backwards or past the end: the infix
/// step, which consumes at least the operator itself.
pub proof fn lemma_infix_range(toks: Seq<TokenV>, pos: int, left: ExprV)
    requires
        0 <= pos <= toks.len(),
    ensures
        pos <= spec_parse_infix(toks, pos, left).pos <= toks.len(),
        infix_op_of(tok_at(toks, pos)) is Some ==> pos + 1 <= spec_parse_infix(
            toks,
            pos,
            left,
        ).pos,
    decreases rem(toks, pos), 2int,
{
    if infix_op_of(tok_at(toks, pos)) is Some {
        lemma_expression_range(toks, advance(toks, pos), prec_of(tok_at(toks, pos)));
    }
}

/// The model never moves the cursor backwards or past the end: the infix
/// loop.
pub proof fn lemma_infix_loop_range(toks: Seq<TokenV>, pos: int, minp: int, left: Option<ExprV>)
    requires
        0 <= pos <= toks.len(),
    ensures
        pos <= spec_infix_loop(toks, pos, minp, left).pos <= toks.len(),
    decreases rem(toks, pos), 1int,
{
    let pk = tok_at(toks, pos + 1);
    if pk != TokenV::Semicolon && 0 <= minp && minp < prec_of(pk) {
        match left {
            None => {},
            Some(l) => {
                lemma_infix_range(toks, pos + 1, l);
                let r = spec_parse_infix(toks, pos + 1, l);
                lemma_infix_loop_range(toks, r.pos, minp, r.exp);
            },
        }
    }
}

/// The model never moves the cursor backwards or past the end: the whole
/// expression engine.
pub proof fn lemma_expression_range(toks: Seq<TokenV>, pos: int, minp: int)
    requires
        0 <= pos <= toks.len(),
    ensures
        pos <= spec_parse_expression(toks, pos, minp).pos <= toks.len(),
    decreases rem(toks, pos), 3int,
{
    lemma_prefix_range(toks, pos);
    let pre = spec_parse_prefix(toks, pos);
    lemma_infix_loop_range(toks, pre.pos, minp, pre.exp);
}

/// The scan to a statement terminator never moves backwards or past the
/// end.
pub proof fn lemma_scan_range(toks: Seq<TokenV>, pos: int)
    requires
        0 <= pos <= toks.len(),
    ensures
        pos <= spec_scan(toks, pos) <= toks.len(),
    decreases rem(toks, pos),
{
    let t = tok_at(toks, pos);
    if t != TokenV::Semicolon && t != TokenV::Eof {
        lemma_scan_range(toks, advance(toks, pos));
    }
}

/// A statement attempt never moves the cursor backwards or past the end.
pub proof fn lemma_statement_range(toks: Seq<TokenV>, pos: int)
    requires
        0 <= pos <= toks.len(),
    ensures
        pos <= spec_parse_statement(toks, pos).pos <= toks.len(),
{
    match tok_at(toks, pos) {
        TokenV::Let => {
            match tok_at(toks, pos + 1) {
                TokenV::Ident(_) => {
                    let p1 = advance(toks, pos);
                    if tok_at(toks, p1 + 1) == TokenV::Assign {
                        lemma_scan_range(toks, advance(toks, p1));
                    }
                },
                _ => {},
            }
        },
        TokenV::Return => {
            lemma_scan_range(toks, advance(toks, pos));
        },
        _ => {
            lemma_expression_range(toks, pos, LOWEST as int);
        },
    }
}

/// A digit string stays a digit string under truncation.
proof fn lemma_all_digits_prefix(s: Seq<char>, j: int)
    requires
        all_digits(s),
        0 <= j <= s.len(),
    ensures
        all_digits(s.subrange(0, j)),
{
}

/// The value of a digit string is non-negative.
proof fn lemma_digits_val_nonneg(s: Seq<char>)
    requires
        all_digits(s),
    ensures
        digits_val(s) >= 0,
    decreases s.len(),
{
    if s.len() > 0 {
        lemma_all_digits_prefix(s, s.len() - 1);
        assert(s.drop_last() == s.subrange(0, s.len() - 1));
        lemma_digits_val_nonneg(s.drop_last());
    }
}

/// Extending a digit string never lowers its value.
proof fn lemma_digits_val_prefix(s: Seq<char>, j: int)
    requires
        all_digits(s),
        0 <= j <= s.len(),
    ensures
        digits_val(s.subrange(0, j)) <= digits_val(s),
    decreases s.len(),
{
    if j < s.len() {
        lemma_all_digits_prefix(s, s.len() - 1);
        assert(s.drop_last() == s.subrange(0, s.len() - 1));
        lemma_digits_val_prefix(s.drop_last(), j);
        assert(s.drop_last().subrange(0, j) == s.subrange(0, j));
        lemma_digits_val_nonneg(s.drop_last());
    } else {
        assert(s.subrange(0, j) == s);
    }
}

/// Parses an integer literal's text as a non-negative signed 64-bit
/// integer: defined exactly when the text is non-empty, all digits, and
/// the value fits.
pub fn parse_i64(s: &str) -> (r: Option<i64>)
    ensures
        r == spec_parse_i64(s@),
{
    let n = s.unicode_len();
    if n == 0 {
        return None;
    }
    let mut i: usize = 0;
    let mut acc: i64 = 0;
    while i < n
        invariant
            0 <= i <= n,
            n == s@.len(),
            all_digits(s@.subrange(0, i as int)),
            acc == digits_val(s@.subrange(0, i as int)),
            0 <= acc <= i64::MAX,
        decreases n - i,
    {
        let c = s.get_char(i);
        if !(c >= '0' && c <= '9') {
            proof {
                assert(!crate::lexer::is_digit(s@[i as int]));
            }
            return None;
        }
        let d: u32 = (c as u32) - ('0' as u32);
        proof {
            vstd::arithmetic::div_mod::lemma_fundamental_div_mod(i64::MAX as int - d, 10);
            vstd::arithmetic::div_mod::lemma_mod_bound(i64::MAX as int - d, 10);
        }
        if acc > (i64::MAX - d as i64) / 10 {
            proof {
                let full = s@;
                if all_digits(full) {
                    lemma_digits_val_prefix(full, i + 1 as int);
                    assert(full.subrange(0, i + 1 as int).drop_last() == full.subrange(
                        0,
                        i as int,
                    ));
                    assert(full.subrange(0, i + 1 as int).last() == full[i as int]);
                    assert(digits_val(full.subrange(0, i + 1 as int)) == acc * 10 + d);
                    assert(digits_val(full) > i64::MAX as int);
                }
            }
            return None;
        }
        acc = acc * 10 + d as i64;
        proof {
            assert(s@.subrange(0, i + 1 as int).drop_last() == s@.subrange(0, i as int));
            assert(s@.subrange(0, i + 1 as int).last() == s@[i as int]);
        }
        i = i + 1;
    }
    proof {
        assert(s@.subrange(0, n as int) == s@);
    }
    Some(acc)
}

/// The token that stands for a binary operator in infix position.
pub open spec fn infix_token_of(op: InfixOperator) -> TokenV {
    match op {
        InfixOperator::Plus => TokenV::Plus,
        InfixOperator::Minus => TokenV::Minus,
        InfixOperator::Asterisk => TokenV::Asterisk,
        InfixOperator::Slash => TokenV::Slash,
        InfixOperator::Eq => TokenV::Eq,
        InfixOperator::NotEq => TokenV::NotEq,
        InfixOperator::Lt => TokenV::Lt,
        InfixOperator::Gt => TokenV::Gt,
    }
}

/// The token that stands for a prefix operator.
pub open spec fn prefix_token_of(op: PrefixOperator) -> TokenV {
    match op {
        PrefixOperator::Minus => TokenV::Minus,
        PrefixOperator::Bang => TokenV::Bang,
    }
}

/// Precedence and associativity law, two-operator case: on the token
/// stream `a op1 b op2 c`, for every pair of the eight binary operators
/// and all operand names, the operator of higher binding strength takes
/// the middle operand, and at equal strength the left operator binds
/// first — operators of equal precedence associate left-to-right. The
/// parse consumes the whole stream and records no diagnostic.
#[verifier::rlimit(80)]
pub proof fn lemma_precedence_two_operators(
    a: Seq<char>,
    op1: InfixOperator,
    b: Seq<char>,
    op2: InfixOperator,
    c: Seq<char>,
)
    ensures
        ({
            let toks = seq![
                TokenV::Ident(a),
                infix_token_of(op1),
                TokenV::Ident(b),
                infix_token_of(op2),
                TokenV::Ident(c),
                TokenV::Eof,
            ];
            let r = spec_parse_expression(toks, 0, LOWEST as int);
            let ea = ExprV::Ident { name: a };
            let eb = ExprV::Ident { name: b };
            let ec = ExprV::Ident { name: c };
            &&& r.exp == Some(
                if prec_of(infix_token_of(op1)) < prec_of(infix_token_of(op2)) {
                    ExprV::Infix {
                        op: op1,
                        left: Box::new(ea),
                        right: Box::new(
                            ExprV::Infix { op: op2, left: Box::new(eb), right: Box::new(ec) },
                        ),
                    }
                } else {
                    ExprV::Infix {
                        op: op2,
                        left: Box::new(
                            ExprV::Infix { op: op1, left: Box::new(ea), right: Box::new(eb) },
                        ),
                        right: Box::new(ec),
                    }
                },
            )
            &&& r.errs == Seq::<Seq<char>>::empty()
            &&& r.pos == 4
        }),
{
    reveal_with_fuel(spec_parse_expression, 6);
    reveal_with_fuel(spec_parse_prefix, 6);
    reveal_with_fuel(spec_parse_infix, 6);
    reveal_with_fuel(spec_infix_loop, 8);
    let toks = seq![
        TokenV::Ident(a),
        infix_token_of(op1),
        TokenV::Ident(b),
        infix_token_of(op2),
        TokenV::Ident(c),
        TokenV::Eof,
    ];
    let p1 = prec_of(infix_token_of(op1));
    let p2 = prec_of(infix_token_of(op2));
    assert(1 <= p1 <= 4 && 1 <= p2 <= 4);
    let ea = ExprV::Ident { name: a };
    let eb = ExprV::Ident { name: b };
    let ec = ExprV::Ident { name: c };
    if p1 < p2 {
        // the right operand of op1 is parsed at p1, which op2 exceeds,
        // so op2 folds b and c first
        let inner = spec_parse_expression(toks, 4, p2);
        assert(inner.exp == Some(ec) && inner.pos == 4);
        let right = spec_parse_expression(toks, 2, p1);
        assert(right.exp == Some(
            ExprV::Infix { op: op2, left: Box::new(eb), right: Box::new(ec) },
        ) && right.pos == 4);
        assert(spec_parse_expression(toks, 0, LOWEST as int).errs
            =~= Seq::<Seq<char>>::empty());
    } else {
        // op2 does not exceed op1's precedence, so op1 folds a and b
        // first and the fold becomes op2's left operand
        let right1 = spec_parse_expression(toks, 2, p1);
        assert(right1.exp == Some(eb) && right1.pos == 2);
        let right2 = spec_parse_expression(toks, 4, p2);
        assert(right2.exp == Some(ec) && right2.pos == 4);
        assert(spec_parse_expression(toks, 0, LOWEST as int).errs
            =~= Seq::<Seq<char>>::empty());
    }
}

/// Precedence law, prefix case: on the token stream `p a op b`, for every
/// prefix operator, every binary operator and all operand names, the
/// prefix operator binds its operand before any infix operator takes
/// part. The parse consumes the whole stream and records no diagnostic.
#[verifier::rlimit(80)]
pub proof fn lemma_prefix_binds_tighter(
    p: PrefixOperator,
    a: Seq<char>,
    op: InfixOperator,
    b: Seq<char>,
)
    ensures
        ({
            let toks = seq![
                prefix_token_of(p),
                TokenV::Ident(a),
                infix_token_of(op),
                TokenV::Ident(b),
                TokenV::Eof,
            ];
            let r = spec_parse_expression(toks, 0, LOWEST as int);
            &&& r.exp == Some(
                ExprV::Infix {
                    op,
                    left: Box::new(
                        ExprV::Prefix { op: p, right: Box::new(ExprV::Ident { name: a }) },
                    ),
                    right: Box::new(ExprV::Ident { name: b }),
                },
            )
            &&& r.errs == Seq::<Seq<char>>::empty()
            &&& r.pos == 3
        }),
{
    reveal_with_fuel(spec_parse_expression, 6);
    reveal_with_fuel(spec_parse_prefix, 6);
    reveal_with_fuel(spec_parse_infix, 6);
    reveal_with_fuel(spec_infix_loop, 8);
    let toks = seq![
        prefix_token_of(p),
        TokenV::Ident(a),
        infix_token_of(op),
        TokenV::Ident(b),
        TokenV::Eof,
    ];
    // the operand of the prefix operator is parsed at prefix precedence,
    // which every infix operator falls short of
    assert(1 <= prec_of(infix_token_of(op)) <= 4);
    let operand = spec_parse_expression(toks, 1, PREFIX as int);
    assert(operand.exp == Some(ExprV::Ident { name: a }) && operand.pos == 1);
    let rhs = spec_parse_expression(toks, 3, prec_of(infix_token_of(op)));
    assert(rhs.exp == Some(ExprV::Ident { name: b }) && rhs.pos == 3);
    assert(spec_parse_expression(toks, 0, LOWEST as int).errs =~= Seq::<Seq<char>>::empty());
}

/// Re-serialization law, two-operator case: rendering the tree parsed
/// from `a op1 b op2 c` reproduces the fully-parenthesized canonical form
/// that the precedence table and left-to-right associativity imply.
#[verifier::rlimit(80)]
pub proof fn lemma_two_operator_rendering(
    a: Seq<char>,
    op1: InfixOperator,
    b: Seq<char>,
    op2: InfixOperator,
    c: Seq<char>,
)
    ensures
        ({
            let toks = seq![
                TokenV::Ident(a),
                infix_token_of(op1),
                TokenV::Ident(b),
                infix_token_of(op2),
                TokenV::Ident(c),
                TokenV::Eof,
            ];
            let r = spec_parse_expression(toks, 0, LOWEST as int);
            let s1 = crate::ast::infix_op_str(op1);
            let s2 = crate::ast::infix_op_str(op2);
            &&& r.exp is Some
            &&& crate::ast::expr_str(r.exp.unwrap()) == (
            if prec_of(infix_token_of(op1)) < prec_of(infix_token_of(op2)) {
                "("@ + a + " "@ + s1 + " "@ + ("("@ + b + " "@ + s2 + " "@ + c + ")"@) + ")"@
            } else {
                "("@ + ("("@ + a + " "@ + s1 + " "@ + b + ")"@) + " "@ + s2 + " "@ + c + ")"@
            })
        }),
{
    reveal_with_fuel(crate::ast::expr_str, 4);
    lemma_precedence_two_operators(a, op1, b, op2, c);
}

/// Re-serialization law, prefix case: rendering the tree parsed from
/// `p a op b` reproduces the canonical form in which the prefix operator
/// binds its operand before the infix operator takes part.
#[verifier::rlimit(80)]
pub proof fn lemma_prefix_rendering(
    p: PrefixOperator,
    a: Seq<char>,
    op: InfixOperator,
    b: Seq<char>,
)
    ensures
        ({
            let toks = seq![
                prefix_token_of(p),
                TokenV::Ident(a),
                infix_token_of(op),
                TokenV::Ident(b),
                TokenV::Eof,
            ];
            let r = spec_parse_expression(toks, 0, LOWEST as int);
            let sp = crate::ast::prefix_op_str(p);
            let so = crate::ast::infix_op_str(op);
            &&& r.exp is Some
            &&& crate::ast::expr_str(r.exp.unwrap()) == "("@ + ("("@ + sp + a + ")"@) + " "@ + so
                + " "@ + b + ")"@
        }),
{
    reveal_with_fuel(crate::ast::expr_str, 4);
    lemma_prefix_binds_tighter(p, a, op, b);
}

/// Mapping a sequence commutes with appending one element.
proof fn lemma_map_values_push<A, B>(s: Seq<A>, f: spec_fn(A) -> B, a: A)
    ensures
        s.push(a).map_values(f) == s.map_values(f).push(f(a)),
{
    assert(s.push(a).map_values(f) =~= s.map_values(f).push(f(a)));
}

/// The mathematical value of a parser: the token sequence it reads, the
/// cursor into it, and the diagnostics recorded so far.
pub struct ParserV {
    pub toks: Seq<TokenV>,
    pub pos: int,
    pub errors: Seq<Seq<char>>,
}

/// The parser: reads the whole token stream up front, and keeps a cursor
/// into it; the lookahead window is the pair of tokens at the cursor and
/// one past it, with end-of-input standing in beyond the end.
pub struct Parser {
    toks: Vec<Token>,
    pos: usize,
    errors: Vec<String>,
}

impl View for Parser {
    type V = ParserV;

    closed spec fn view(&self) -> ParserV {
        ParserV {
            toks: self.toks@.map_values(|t: Token| t@),
            pos: self.pos as int,
            errors: self.errors@.map_values(|s: String| s@),
        }
    }
}

impl Parser {
    /// The token sequence is never empty, ends with end-of-input, and the
    /// cursor never points past its end.
    pub open spec fn wf(&self) -> bool {
        &&& self@.toks.len() >= 1
        &&& self@.toks.last() == TokenV::Eof
        &&& 0 <= self@.pos <= self@.toks.len()
    }

    /// A parser over the given lexer's whole token stream, with the
    /// cursor at the first token and no diagnostics.
    #[verifier::loop_isolation(false)]
    pub fn new(l: Lexer) -> (p: Parser)
        requires
            l.wf(),
        ensures
            p.wf(),
            p@.toks == crate::lexer::spec_tokens(l.text(), l.cursor()),
            p@.pos == 0,
            p@.errors == Seq::<Seq<char>>::empty(),
    {
        let ghost text = l.text();
        let ghost c0 = l.cursor();
        let mut lx = l;
        let mut toks: Vec<Token> = Vec::new();
        proof {
            assert(toks@.map_values(|t: Token| t@) =~= Seq::<TokenV>::empty());
            assert(Seq::<TokenV>::empty() + crate::lexer::spec_tokens(text, c0)
                =~= crate::lexer::spec_tokens(text, c0));
        }
        loop
            invariant
                lx.wf(),
                lx.text() == text,
                crate::lexer::spec_tokens(text, c0) == toks@.map_values(|t: Token| t@)
                    + crate::lexer::spec_tokens(text, lx.cursor()),
            decreases lx.remaining(),
        {
            let ghost cc = lx.cursor();
            let t = lx.next_token();
            let eof = t.same_as(&Token::Eof);
            proof {
                lemma_map_values_push(toks@, |t: Token| t@, t);
                let tail = crate::lexer::spec_tokens(text, cc);
                if t@ is Eof {
                    assert(tail =~= seq![TokenV::Eof]);
                    assert(toks@.map_values(|t: Token| t@) + tail =~= toks@.push(t).map_values(
                        |t: Token| t@,
                    ));
                } else {
                    assert(tail =~= seq![t@] + crate::lexer::spec_tokens(text, lx.cursor()));
                    assert(toks@.map_values(|t: Token| t@) + tail =~= toks@.push(t).map_values(
                        |t: Token| t@,
                    ) + crate::lexer::spec_tokens(text, lx.cursor()));
                }
            }
            toks.push(t);
            if eof {
                break ;
            }
        }
        proof {
            assert(toks@.map_values(|t: Token| t@) == crate::lexer::spec_tokens(text, c0));
        }
        let p = Parser { toks, pos: 0, errors: Vec::new() };
        proof {
            assert(p@.toks.last() == p.toks@.last()@);
            assert(p@.errors =~= Seq::<Seq<char>>::empty());
        }
        p
    }

    /// The token under the cursor; end-of-input once the cursor has moved
    /// past the end.
    fn cur(&self) -> (t: &Token)
        requires
            self.wf(),
        ensures
            t@ == tok_at(self@.toks, self@.pos),
    {
        if self.pos < self.toks.len() {
            &self.toks[self.pos]
        } else {
            &self.toks[self.toks.len() - 1]
        }
    }

    /// The token one past the cursor; end-of-input beyond the end.
    fn peek(&self) -> (t: &Token)
        requires
            self.wf(),
        ensures
            t@ == tok_at(self@.toks, self@.pos + 1),
    {
        if self.pos < self.toks.len() - 1 {
            &self.toks[self.pos + 1]
        } else {
            &self.toks[self.toks.len() - 1]
        }
    }

    /// Slides the lookahead window one token forward.
    fn next_token(&mut self)
        requires
            old(self).wf(),
        ensures
            final(self).wf(),
            final(self)@.toks == old(self)@.toks,
            final(self)@.errors == old(self)@.errors,
            final(self)@.pos == advance(old(self)@.toks, old(self)@.pos),
    {
        if self.pos < self.toks.len() {
            self.pos = self.pos + 1;
        }
    }

    /// Whether the token under the cursor equals the candidate.
    fn cur_token_is(&self, tok: Token) -> (r: bool)
        requires
            self.wf(),
        ensures
            r == (tok_at(self@.toks, self@.pos) == tok@),
    {
        self.cur().same_as(&tok)
    }

    /// Whether the token one past the cursor equals the candidate.
    fn peek_token_is(&self, tok: &Token) -> (r: bool)
        requires
            self.wf(),
        ensures
            r == (tok_at(self@.toks, self@.pos + 1) == tok@),
    {
        self.peek().same_as(tok)
    }

    /// The binding strength of a token in infix position.
    fn precedence_of(t: &Token) -> (r: u8)
        ensures
            r as int == prec_of(t@),
    {
        match t {
            Token::Eq => EQUALS,
            Token::NotEq => EQUALS,
            Token::Lt => LESS_GREATER,
            Token::Gt => LESS_GREATER,
            Token::Plus => SUM,
            Token::Minus => SUM,
            Token::Asterisk => PRODUCT,
            Token::Slash => PRODUCT,
            _ => LOWEST,
        }
    }

    /// The binding strength of the token one past the cursor.
    fn peek_precedence(&self) -> (r: u8)
        requires
            self.wf(),
        ensures
            r as int == prec_of(tok_at(self@.toks, self@.pos + 1)),
    {
        Parser::precedence_of(self.peek())
    }

    /// The binding strength of the token under the cursor.
    fn cur_precedence(&self) -> (r: u8)
        requires
            self.wf(),
        ensures
            r as int == prec_of(tok_at(self@.toks, self@.pos)),
    {
        Parser::precedence_of(self.cur())
    }

    /// Records a structural-mismatch diagnostic naming the expected token
    /// and the token one past the cursor.
    fn push_expected(&mut self, name: &str)
        requires
            old(self).wf(),
        ensures
            final(self).wf(),
            final(self)@.toks == old(self)@.toks,
            final(self)@.pos == old(self)@.pos,
            final(self)@.errors == old(self)@.errors + seq![
                msg_expected(name@, tok_at(old(self)@.toks, old(self)@.pos + 1)),
            ],
    {
        let mut m = "expected next token to be ".to_owned();
        m.append(name);
        m.append(", got ");
        let d = self.peek().describe();
        m.append(d.as_str());
        m.append(" instead");
        proof {
            lemma_map_values_push(self.errors@, |s: String| s@, m);
            assert(self@.errors.push(m@) =~= self@.errors + seq![m@]);
        }
        self.errors.push(m);
    }

    /// Records the diagnostic for a failed checkpoint on the token one
    /// past the cursor.
    fn peek_error(&mut self, tok: &Token)
        requires
            old(self).wf(),
        ensures
            final(self).wf(),
            final(self)@.toks == old(self)@.toks,
            final(self)@.pos == old(self)@.pos,
            final(self)@.errors == old(self)@.errors + seq![
                msg_expected(tok_name(tok@), tok_at(old(self)@.toks, old(self)@.pos + 1)),
            ],
    {
        let n = tok.name();
        self.push_expected(n);
    }

    /// Records the diagnostic for a token with no construction rule in
    /// prefix position.
    fn push_no_prefix(&mut self)
        requires
            old(self).wf(),
        ensures
            final(self).wf(),
            final(self)@.toks == old(self)@.toks,
            final(self)@.pos == old(self)@.pos,
            final(self)@.errors == old(self)@.errors + seq![
                msg_no_prefix(tok_at(old(self)@.toks, old(self)@.pos)),
            ],
    {
        let mut m = "no prefix parse fn for ".to_owned();
        let d = self.cur().describe();
        m.append(d.as_str());
        proof {
            lemma_map_values_push(self.errors@, |s: String| s@, m);
            assert(self@.errors.push(m@) =~= self@.errors + seq![m@]);
        }
        self.errors.push(m);
    }

    /// The sole checkpoint at which a structural mismatch becomes a
    /// recorded, non-fatal diagnostic: advances past a matching peek
    /// token; otherwise records the mismatch and stays put.
    fn expect_peek(&mut self, tok: Token) -> (r: bool)
        requires
            old(self).wf(),
        ensures
            final(self).wf(),
            final(self)@.toks == old(self)@.toks,
            r == (tok_at(old(self)@.toks, old(self)@.pos + 1) == tok@),
            r ==> final(self)@.pos == advance(old(self)@.toks, old(self)@.pos)
                && final(self)@.errors == old(self)@.errors,
            !r ==> final(self)@.pos == old(self)@.pos && final(self)@.errors == old(self)@.errors
                + seq![
                msg_expected(tok_name(tok@), tok_at(old(self)@.toks, old(self)@.pos + 1)),
            ],
    {
        if !self.peek_token_is(&tok) {
            self.peek_error(&tok);
            false
        } else {
            self.next_token();
            true
        }
    }

    /// Builds an identifier node from the token under the cursor.
    fn parse_identifier(&mut self) -> (r: Expression)
        requires
            old(self).wf(),
            tok_at(old(self)@.toks, old(self)@.pos) is Ident,
        ensures
            final(self)@ == old(self)@,
            r@ == (ExprV::Ident { name: ident_name(tok_at(old(self)@.toks, old(self)@.pos)) }),
    {
        let t = self.cur();
        match t {
            Token::Ident(v) => Expression::Identifier(Identifier { value: v.clone() }),
            _ => unreached(),
        }
    }

    /// Builds an integer node from the token under the cursor; malformed
    /// digit text yields no expression and, unlike every other failure
    /// path, no diagnostic.
    fn parse_integer_literal(&mut self) -> (r: Option<Expression>)
        requires
            old(self).wf(),
        ensures
            final(self)@ == old(self)@,
            opt_expr_view(r) == ({
                let t = tok_at(old(self)@.toks, old(self)@.pos);
                if t is Int {
                    match spec_parse_i64(int_text(t)) {
                        Some(v) => Some(ExprV::Int { value: v as int }),
                        None => None,
                    }
                } else {
                    None
                }
            }),
    {
        let t = self.cur();
        match t {
            Token::Int(v) => match parse_i64(v.as_str()) {
                Some(i) => Some(Expression::Integer(IntegerLiteral { value: i })),
                None => None,
            },
            _ => None,
        }
    }

    /// Builds a boolean node from the token under the cursor.
    fn parse_boolean_literal(&mut self) -> (r: Expression)
        requires
            old(self).wf(),
        ensures
            final(self)@ == old(self)@,
            r@ == (ExprV::Bool {
                value: tok_at(old(self)@.toks, old(self)@.pos) == TokenV::True,
            }),
    {
        let value = self.cur_token_is(Token::True);
        Expression::Boolean(BooleanLiteral { value })
    }

    /// Builds a prefix node: consumes the operator under the cursor and
    /// parses the operand at prefix precedence, which binds tighter than
    /// any infix operator.
    fn parse_prefix_expression(&mut self) -> (r: Option<Expression>)
        requires
            old(self).wf(),
            tok_at(old(self)@.toks, old(self)@.pos) == TokenV::Bang || tok_at(
                old(self)@.toks,
                old(self)@.pos,
            ) == TokenV::Minus,
        ensures
            final(self).wf(),
            final(self)@.toks == old(self)@.toks,
            ({
                let m = spec_parse_prefix(old(self)@.toks, old(self)@.pos);
                &&& final(self)@.pos == m.pos
                &&& final(self)@.errors == old(self)@.errors + m.errs
                &&& opt_expr_view(r) == m.exp
            }),
        decreases rem(self@.toks, self@.pos as int), 2int,
    {
        let operator = match self.cur() {
            Token::Minus => PrefixOperator::Minus,
            Token::Bang => PrefixOperator::Bang,
            _ => unreached(),
        };
        self.next_token();
        let right = self.parse_expression(PREFIX);
        match right {
            Some(exp) => Some(
                Expression::PrefixExpression(
                    PrefixExpression { operator, right: Box::new(exp) },
                ),
            ),
            None => None,
        }
    }

    /// Parses a parenthesized group: the minimum precedence resets to
    /// lowest inside, and a matching closing parenthesis is required.
    fn parse_grouped_expression(&mut self) -> (r: Option<Expression>)
        requires
            old(self).wf(),
            tok_at(old(self)@.toks, old(self)@.pos) == TokenV::LParen,
        ensures
            final(self).wf(),
            final(self)@.toks == old(self)@.toks,
            ({
                let m = spec_parse_prefix(old(self)@.toks, old(self)@.pos);
                &&& final(self)@.pos == m.pos
                &&& final(self)@.errors == old(self)@.errors + m.errs
                &&& opt_expr_view(r) == m.exp
            }),
        decreases rem(self@.toks, self@.pos as int), 2int,
    {
        let ghost s0 = self@;
        self.next_token();
        let exp = self.parse_expression(LOWEST);
        proof {
            let rr = spec_parse_expression(s0.toks, advance(s0.toks, s0.pos), LOWEST as int);
            assert(self@.errors == s0.errors + rr.errs);
        }
        if !self.expect_peek(Token::RParen) {
            proof {
                let rr = spec_parse_expression(s0.toks, advance(s0.toks, s0.pos), LOWEST as int);
                let m = spec_parse_prefix(s0.toks, s0.pos);
                assert(self@.errors =~= s0.errors + m.errs);
            }
            return None;
        }
        exp
    }

    /// Builds an infix node: resolves the operator under the cursor,
    /// records its own precedence, and parses the right operand at that
    /// precedence, so that operators of equal precedence associate
    /// left-to-right.
    fn parse_infix_expression(&mut self, left: Expression) -> (r: Option<Expression>)
        requires
            old(self).wf(),
        ensures
            final(self).wf(),
            final(self)@.toks == old(self)@.toks,
            ({
                let m = spec_parse_infix(old(self)@.toks, old(self)@.pos, left@);
                &&& final(self)@.pos == m.pos
                &&& final(self)@.errors == old(self)@.errors + m.errs
                &&& opt_expr_view(r) == m.exp
            }),
        decreases rem(self@.toks, self@.pos as int), 3int,
    {
        let operator = match self.cur() {
            Token::Plus => InfixOperator::Plus,
            Token::Minus => InfixOperator::Minus,
            Token::Asterisk => InfixOperator::Asterisk,
            Token::Slash => InfixOperator::Slash,
            Token::Eq => InfixOperator::Eq,
            Token::NotEq => InfixOperator::NotEq,
            Token::Lt => InfixOperator::Lt,
            Token::Gt => InfixOperator::Gt,
            _ => {
                proof {
                    assert(self@.errors + Seq::<Seq<char>>::empty() =~= self@.errors);
                }
                return None;
            },
        };
        let precedence = self.cur_precedence();
        self.next_token();
        let right = self.parse_expression(precedence);
        match right {
            Some(exp) => Some(
                Expression::InfixExpression(
                    InfixExpression { left: Box::new(left), operator, right: Box::new(exp) },
                ),
            ),
            None => None,
        }
    }

    /// The expression engine: selects a construction rule for the token
    /// under the cursor, then, while the peek token is not a statement
    /// terminator and binds more tightly than the given minimum
    /// precedence, folds the expression built so far with the next infix
    /// operator's right operand.
    #[verifier::loop_isolation(false)]
    #[verifier::rlimit(60)]
    fn parse_expression(&mut self, precedence: u8) -> (r: Option<Expression>)
        requires
            old(self).wf(),
        ensures
            final(self).wf(),
            final(self)@.toks == old(self)@.toks,
            ({
                let m = spec_parse_expression(old(self)@.toks, old(self)@.pos, precedence as int);
                &&& final(self)@.pos == m.pos
                &&& final(self)@.errors == old(self)@.errors + m.errs
                &&& opt_expr_view(r) == m.exp
            }),
        decreases rem(self@.toks, self@.pos as int), 4int,
    {
        let ghost s0 = self@;
        let mut left: Option<Expression>;
        let c = self.cur().duplicate();
        match c {
            Token::Ident(_) => {
                let e = self.parse_identifier();
                left = Some(e);
            },
            Token::Int(_) => {
                left = self.parse_integer_literal();
            },
            Token::Bang => {
                left = self.parse_prefix_expression();
            },
            Token::Minus => {
                left = self.parse_prefix_expression();
            },
            Token::True => {
                let e = self.parse_boolean_literal();
                left = Some(e);
            },
            Token::False => {
                let e = self.parse_boolean_literal();
                left = Some(e);
            },
            Token::LParen => {
                left = self.parse_grouped_expression();
            },
            _ => {
                self.push_no_prefix();
                left = None;
            },
        }
        let ghost pre = spec_parse_prefix(s0.toks, s0.pos);
        proof {
            lemma_prefix_range(s0.toks, s0.pos);
            assert(self@.pos == pre.pos);
            assert(self@.errors =~= s0.errors + pre.errs);
            assert(opt_expr_view(left) == pre.exp);
        }
        let ghost pos1 = self@.pos;
        let ghost left1 = opt_expr_view(left);
        let ghost e1 = self@.errors;
        while !self.peek_token_is(&Token::Semicolon) && precedence < self.peek_precedence()
            invariant
                self.wf(),
                self@.toks == s0.toks,
                s0.pos <= self@.pos,
                ({
                    let m1 = spec_infix_loop(s0.toks, pos1, precedence as int, left1);
                    let mc = spec_infix_loop(
                        s0.toks,
                        self@.pos,
                        precedence as int,
                        opt_expr_view(left),
                    );
                    &&& m1.exp == mc.exp
                    &&& m1.pos == mc.pos
                    &&& e1 + m1.errs == self@.errors + mc.errs
                }),
            decreases rem(s0.toks, self@.pos),
        {
            let ghost pa = self@.pos;
            let ghost lefta = opt_expr_view(left);
            let ghost ea = self@.errors;
            self.next_token();
            let l: Expression = match left {
                Some(exp) => exp,
                None => {
                    proof {
                        let mc = spec_infix_loop(s0.toks, pa, precedence as int, lefta);
                        assert(mc.exp is None && mc.pos == self@.pos && mc.errs
                            =~= Seq::<Seq<char>>::empty());
                        let m = spec_parse_expression(s0.toks, s0.pos, precedence as int);
                        assert(ea + Seq::<Seq<char>>::empty() =~= ea);
                        assert(self@.errors =~= s0.errors + m.errs);
                    }
                    return None;
                },
            };
            let ghost lv = l@;
            let lr = self.parse_infix_expression(l);
            left = lr;
            proof {
                let rr = spec_parse_infix(s0.toks, pa + 1, lv);
                lemma_infix_range(s0.toks, pa + 1, lv);
                assert(chain(s0.toks, pa + 2, rr.pos) == rr.pos);
                let mc_old = spec_infix_loop(s0.toks, pa, precedence as int, lefta);
                let mc_new = spec_infix_loop(
                    s0.toks,
                    self@.pos,
                    precedence as int,
                    opt_expr_view(left),
                );
                assert(mc_old.errs =~= rr.errs + mc_new.errs);
                assert(e1 + spec_infix_loop(s0.toks, pos1, precedence as int, left1).errs
                    =~= self@.errors + mc_new.errs);
            }
        }
        proof {
            let mc = spec_infix_loop(s0.toks, self@.pos, precedence as int, opt_expr_view(left));
            assert(mc.exp == opt_expr_view(left) && mc.pos == self@.pos && mc.errs
                =~= Seq::<Seq<char>>::empty());
            let m = spec_parse_expression(s0.toks, s0.pos, precedence as int);
            assert(m.errs =~= pre.errs + spec_infix_loop(
                s0.toks,
                pos1,
                precedence as int,
                left1,
            ).errs);
            assert(self@.errors =~= s0.errors + m.errs);
        }
        left
    }

    /// Parses a `let` statement: requires an identifier after the keyword
    /// and an `=` after the identifier, then scans token by token to the
    /// semicolon, or to the end of the input, without building the bound
    /// value. On either structural mismatch it records a diagnostic and
    /// produces no statement.
    #[verifier::loop_isolation(false)]
    fn parse_let_statement(&mut self) -> (r: Option<Statement>)
        requires
            old(self).wf(),
        ensures
            final(self).wf(),
            final(self)@.toks == old(self)@.toks,
            ({
                let m = spec_parse_let(old(self)@.toks, old(self)@.pos);
                &&& final(self)@.pos == m.pos
                &&& final(self)@.errors == old(self)@.errors + m.errs
                &&& opt_stmt_view(r) == m.stmt
            }),
    {
        let ghost s0 = self@;
        let name_val: Option<String> = match self.peek() {
            Token::Ident(v) => Some(v.clone()),
            _ => None,
        };
        match name_val {
            Some(value) => {
                self.next_token();
                if !self.expect_peek(Token::Assign) {
                    return None;
                }
                let ghost p2 = self@.pos;
                while !(self.cur_token_is(Token::Semicolon) || self.cur_token_is(Token::Eof))
                    invariant
                        self.wf(),
                        self@.toks == s0.toks,
                        self@.errors == s0.errors,
                        spec_scan(s0.toks, p2) == spec_scan(s0.toks, self@.pos),
                    decreases rem(s0.toks, self@.pos),
                {
                    self.next_token();
                }
                proof {
                    assert(s0.errors + Seq::<Seq<char>>::empty() =~= s0.errors);
                }
                Some(Statement::LetStatement(LetStatement { name: Identifier { value } }))
            },
            None => {
                self.push_expected("Ident");
                None
            },
        }
    }

    /// Parses a `return` statement: consumes the keyword and scans token
    /// by token to the semicolon, or to the end of the input, discarding
    /// the returned value's structure; always produces a statement.
    #[verifier::loop_isolation(false)]
    fn parse_return_statement(&mut self) -> (r: Option<Statement>)
        requires
            old(self).wf(),
        ensures
            final(self).wf(),
            final(self)@.toks == old(self)@.toks,
            ({
                let m = spec_parse_return(old(self)@.toks, old(self)@.pos);
                &&& final(self)@.pos == m.pos
                &&& final(self)@.errors == old(self)@.errors + m.errs
                &&& opt_stmt_view(r) == m.stmt
            }),
    {
        let ghost s0 = self@;
        self.next_token();
        let ghost p1 = self@.pos;
        while !(self.cur_token_is(Token::Semicolon) || self.cur_token_is(Token::Eof))
            invariant
                self.wf(),
                self@.toks == s0.toks,
                self@.errors == s0.errors,
                spec_scan(s0.toks, p1) == spec_scan(s0.toks, self@.pos),
            decreases rem(s0.toks, self@.pos),
        {
            self.next_token();
        }
        proof {
            assert(s0.errors + Seq::<Seq<char>>::empty() =~= s0.errors);
        }
        Some(Statement::ReturnStatement(ReturnStatement {}))
    }

    /// Parses one expression at the lowest precedence and wraps it; as a
    /// convenience one trailing semicolon is consumed if present, though
    /// semicolons are never required after a bare expression.
    fn parse_expression_statement(&mut self) -> (r: Option<Statement>)
        requires
            old(self).wf(),
        ensures
            final(self).wf(),
            final(self)@.toks == old(self)@.toks,
            ({
                let m = spec_parse_expression_statement(old(self)@.toks, old(self)@.pos);
                &&& final(self)@.pos == m.pos
                &&& final(self)@.errors == old(self)@.errors + m.errs
                &&& opt_stmt_view(r) == m.stmt
            }),
    {
        match self.parse_expression(LOWEST) {
            Some(e) => {
                if self.peek_token_is(&Token::Semicolon) {
                    self.next_token();
                }
                Some(Statement::ExpressionStatement(ExpressionStatement { expression: e }))
            },
            None => None,
        }
    }

    /// Classifies the token under the cursor and dispatches to one of the
    /// three statement forms. An absent result means no statement was
    /// produced this iteration.
    fn parse_statement(&mut self) -> (r: Option<Statement>)
        requires
            old(self).wf(),
        ensures
            final(self).wf(),
            final(self)@.toks == old(self)@.toks,
            ({
                let m = spec_parse_statement(old(self)@.toks, old(self)@.pos);
                &&& final(self)@.pos == m.pos
                &&& final(self)@.errors == old(self)@.errors + m.errs
                &&& opt_stmt_view(r) == m.stmt
            }),
    {
        if self.cur_token_is(Token::Let) {
            self.parse_let_statement()
        } else if self.cur_token_is(Token::Return) {
            self.parse_return_statement()
        } else {
            self.parse_expression_statement()
        }
    }

    /// Drives the statement parser over the whole token stream: one
    /// statement attempt per iteration, one window step between
    /// iterations, until end-of-input. Statements that failed to parse are
    /// omitted from the program; their only record is the diagnostics
    /// list, which this run appends to and never rewrites.
    #[verifier::loop_isolation(false)]
    pub fn parse(&mut self) -> (prog: Program)
        requires
            old(self).wf(),
        ensures
            final(self).wf(),
            final(self)@.toks == old(self)@.toks,
            ({
                let m = spec_parse_program(old(self)@.toks, old(self)@.pos);
                &&& prog@ == m.stmts
                &&& final(self)@.errors == old(self)@.errors + m.errs
            }),
    {
        let ghost s0 = self@;
        let mut res: Vec<Statement> = Vec::new();
        while !self.cur_token_is(Token::Eof)
            invariant
                self.wf(),
                self@.toks == s0.toks,
                ({
                    let m0 = spec_parse_program(s0.toks, s0.pos);
                    let mc = spec_parse_program(s0.toks, self@.pos);
                    &&& m0.stmts == res@.map_values(|s: Statement| crate::ast::stmt_view(s))
                        + mc.stmts
                    &&& s0.errors + m0.errs == self@.errors + mc.errs
                }),
            decreases rem(s0.toks, self@.pos),
        {
            let ghost pa = self@.pos;
            let ghost ea = self@.errors;
            let stmt = self.parse_statement();
            proof {
                lemma_statement_range(s0.toks, pa);
            }
            let ghost ms = spec_parse_statement(s0.toks, pa);
            match stmt {
                Some(s) => {
                    proof {
                        lemma_map_values_push(res@, |s: Statement| crate::ast::stmt_view(s), s);
                    }
                    res.push(s);
                },
                None => {},
            }
            self.next_token();
            proof {
                let mc_old = spec_parse_program(s0.toks, pa);
                let mc_new = spec_parse_program(s0.toks, self@.pos);
                assert(chain(s0.toks, pa, ms.pos) == ms.pos);
                assert(mc_old.errs =~= ms.errs + mc_new.errs);
                match ms.stmt {
                    Some(st) => {
                        assert(mc_old.stmts =~= seq![st] + mc_new.stmts);
                        assert(res@.map_values(|s: Statement| crate::ast::stmt_view(s))
                            + mc_new.stmts =~= res@.map_values(
                            |s: Statement| crate::ast::stmt_view(s),
                        ).drop_last() + mc_old.stmts);
                    },
                    None => {},
                }
                let m0 = spec_parse_program(s0.toks, s0.pos);
                assert(m0.stmts =~= res@.map_values(|s: Statement| crate::ast::stmt_view(s))
                    + mc_new.stmts);
                assert(s0.errors + m0.errs =~= self@.errors + mc_new.errs);
            }
        }
        proof {
            let m0 = spec_parse_program(s0.toks, s0.pos);
            let mc = spec_parse_program(s0.toks, self@.pos);
            assert(mc.stmts =~= Seq::<StmtV>::empty());
            assert(mc.errs =~= Seq::<Seq<char>>::empty());
            assert(m0.stmts =~= res@.map_values(|s: Statement| crate::ast::stmt_view(s)));
            assert(s0.errors + m0.errs =~= self@.errors);
        }
        Program { statements: res }
    }

    /// How many diagnostics this parse run has recorded.
    pub fn errors_len(&self) -> (n: usize)
        ensures
            n == self@.errors.len(),
    {
        self.errors.len()
    }

    /// A copy of all diagnostics, in the order they were recorded.
    pub fn get_errors(&self) -> (r: Vec<String>)
        ensures
            r@.map_values(|s: String| s@) == self@.errors,
    {
        let mut r: Vec<String> = Vec::new();
        let mut i: usize = 0;
        while i < self.errors.len()
            invariant
                i <= self.errors.len(),
                r@.map_values(|s: String| s@) == self@.errors.subrange(0, i as int),
            decreases self.errors.len() - i,
        {
            let e = self.errors[i].clone();
            proof {
                lemma_map_values_push(r@, |s: String| s@, e);
                assert(r@.map_values(|s: String| s@).push(e@) =~= self@.errors.subrange(
                    0,
                    i + 1 as int,
                ));
            }
            r.push(e);
            i = i + 1;
        }
        proof {
            assert(self@.errors.subrange(0, self.errors.len() as int) =~= self@.errors);
        }
        r
    }
}

} // verus!
