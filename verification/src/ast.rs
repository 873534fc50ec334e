//! The abstract syntax tree the parser produces, its mathematical values,
//! and its canonical fully-parenthesized rendering.

use vstd::prelude::*;
use vstd::string::StringExecFns;

verus! {

/// Operators that begin an expression.
#[derive(Debug, Clone, Copy, PartialEq, Eq, Structural)]
pub enum PrefixOperator {
    Minus,
    Bang,
}

/// Operators that combine two already-parsed operands.
#[derive(Debug, Clone, Copy, PartialEq, Eq, Structural)]
pub enum InfixOperator {
    Plus,
    Minus,
    Asterisk,
    Slash,
    Eq,
    NotEq,
    Lt,
    Gt,
}

/// A name standing for itself.
#[derive(Debug)]
pub struct Identifier {
    pub value: String,
}

/// A signed 64-bit integer literal.
#[derive(Debug)]
pub struct IntegerLiteral {
    pub value: i64,
}

/// A boolean literal.
#[derive(Debug)]
pub struct BooleanLiteral {
    pub value: bool,
}

/// A prefix operator applied to an owned operand.
#[derive(Debug)]
pub struct PrefixExpression {
    pub operator: PrefixOperator,
    pub right: Box<Expression>,
}

/// A binary operator applied to two owned operands.
#[derive(Debug)]
pub struct InfixExpression {
    pub left: Box<Expression>,
    pub operator: InfixOperator,
    pub right: Box<Expression>,
}

/// An expression: a finite, acyclic tree with exclusively owned children.
#[derive(Debug)]
pub enum Expression {
    Identifier(Identifier),
    Integer(IntegerLiteral),
    Boolean(BooleanLiteral),
    PrefixExpression(PrefixExpression),
    InfixExpression(InfixExpression),
}

/// A `let` statement. Only the bound name is retained: the parser scans
/// past the bound value without building it, a known incompleteness that
/// is kept deliberately.
#[derive(Debug)]
pub struct LetStatement {
    pub name: Identifier,
}

/// A `return` statement. The returned value is likewise not retained.
#[derive(Debug)]
pub struct ReturnStatement {}

/// A bare expression in statement position.
#[derive(Debug)]
pub struct ExpressionStatement {
    pub expression: Expression,
}

/// A statement of one of the three supported forms.
#[derive(Debug)]
pub enum Statement {
    LetStatement(LetStatement),
    ReturnStatement(ReturnStatement),
    ExpressionStatement(ExpressionStatement),
}

/// The parser's output: statements in source order.
#[derive(Debug)]
pub struct Program {
    pub statements: Vec<Statement>,
}

/// The mathematical value of an expression tree.
pub enum ExprV {
    Ident { name: Seq<char> },
    Int { value: int },
    Bool { value: bool },
    Prefix { op: PrefixOperator, right: Box<ExprV> },
    Infix { op: InfixOperator, left: Box<ExprV>, right: Box<ExprV> },
}

/// The mathematical value of a statement.
pub enum StmtV {
    Let { name: Seq<char> },
    Return,
    Expr { expression: ExprV },
}

/// The mathematical value of an expression tree.
pub open spec fn expr_view(e: Expression) -> ExprV
    decreases e,
{
    match e {
        Expression::Identifier(i) => ExprV::Ident { name: i.value@ },
        Expression::Integer(il) => ExprV::Int { value: il.value as int },
        Expression::Boolean(b) => ExprV::Bool { value: b.value },
        Expression::PrefixExpression(pe) => ExprV::Prefix {
            op: pe.operator,
            right: Box::new(expr_view(*pe.right)),
        },
        Expression::InfixExpression(ie) => ExprV::Infix {
            op: ie.operator,
            left: Box::new(expr_view(*ie.left)),
            right: Box::new(expr_view(*ie.right)),
        },
    }
}

/// The mathematical value of a statement.
pub open spec fn stmt_view(s: Statement) -> StmtV {
    match s {
        Statement::LetStatement(ls) => StmtV::Let { name: ls.name.value@ },
        Statement::ReturnStatement(_) => StmtV::Return,
        Statement::ExpressionStatement(es) => StmtV::Expr { expression: expr_view(es.expression) },
    }
}

impl View for Expression {
    type V = ExprV;

    open spec fn view(&self) -> ExprV {
        expr_view(*self)
    }
}

impl View for Statement {
    type V = StmtV;

    open spec fn view(&self) -> StmtV {
        stmt_view(*self)
    }
}

impl View for Program {
    type V = Seq<StmtV>;

    open spec fn view(&self) -> Seq<StmtV> {
        self.statements@.map_values(|s: Statement| stmt_view(s))
    }
}

/// The decimal character for one digit value.
pub open spec fn digit_lit(d: int) -> Seq<char> {
    if d == 0 {
        "0"@
    } else if d == 1 {
        "1"@
    } else if d == 2 {
        "2"@
    } else if d == 3 {
        "3"@
    } else if d == 4 {
        "4"@
    } else if d == 5 {
        "5"@
    } else if d == 6 {
        "6"@
    } else if d == 7 {
        "7"@
    } else if d == 8 {
        "8"@
    } else {
        "9"@
    }
}

/// The decimal digits of a non-negative integer, most significant first.
pub open spec fn dec_digits(n: int) -> Seq<char>
    decreases n,
{
    if n < 10 {
        digit_lit(n)
    } else {
        dec_digits(n / 10) + digit_lit(n % 10)
    }
}

/// The decimal rendering of an integer, with a leading minus sign when
/// negative.
pub open spec fn int_str(v: int) -> Seq<char> {
    if v < 0 {
        "-"@ + dec_digits(-v)
    } else {
        dec_digits(v)
    }
}

/// The text of a prefix operator.
pub open spec fn prefix_op_str(op: PrefixOperator) -> Seq<char> {
    match op {
        PrefixOperator::Minus => "-"@,
        PrefixOperator::Bang => "!"@,
    }
}

/// The text of an infix operator.
pub open spec fn infix_op_str(op: InfixOperator) -> Seq<char> {
    match op {
        InfixOperator::Plus => "+"@,
        InfixOperator::Minus => "-"@,
        InfixOperator::Asterisk => "*"@,
        InfixOperator::Slash => "/"@,
        InfixOperator::Eq => "=="@,
        InfixOperator::NotEq => "!="@,
        InfixOperator::Lt => "<"@,
        InfixOperator::Gt => ">"@,
    }
}

/// The fully-parenthesized rendering of an expression: every infix node as
/// `(left op right)` and every prefix node as `(op operand)`.
pub open spec fn expr_str(e: ExprV) -> Seq<char>
    decreases e,
{
    match e {
        ExprV::Ident { name } => name,
        ExprV::Int { value } => int_str(value),
        ExprV::Bool { value } => if value {
            "true"@
        } else {
            "false"@
        },
        ExprV::Prefix { op, right } => "("@ + prefix_op_str(op) + expr_str(*right) + ")"@,
        ExprV::Infix { op, left, right } => "("@ + expr_str(*left) + " "@ + infix_op_str(op) + " "@
            + expr_str(*right) + ")"@,
    }
}

/// The rendering of a statement.
pub open spec fn stmt_str(s: StmtV) -> Seq<char> {
    match s {
        StmtV::Let { name } => "let "@ + name + ";"@,
        StmtV::Return => "return;"@,
        StmtV::Expr { expression } => expr_str(expression),
    }
}

/// The rendering of a program: its statements' renderings, concatenated.
pub open spec fn program_str(stmts: Seq<StmtV>) -> Seq<char>
    decreases stmts.len(),
{
    if stmts.len() == 0 {
        Seq::empty()
    } else {
        program_str(stmts.drop_last()) + stmt_str(stmts.last())
    }
}

/// The decimal digit character for a digit value.
fn digit_text(d: u64) -> (r: &'static str)
    requires
        d < 10,
    ensures
        r@ == digit_lit(d as int),
{
    if d == 0 {
        "0"
    } else if d == 1 {
        "1"
    } else if d == 2 {
        "2"
    } else if d == 3 {
        "3"
    } else if d == 4 {
        "4"
    } else if d == 5 {
        "5"
    } else if d == 6 {
        "6"
    } else if d == 7 {
        "7"
    } else if d == 8 {
        "8"
    } else {
        "9"
    }
}

/// Appends the decimal digits of `n` to `out`.
fn push_dec(n: u64, out: &mut String)
    ensures
        final(out)@ == old(out)@ + dec_digits(n as int),
    decreases n,
{
    if n < 10 {
        out.append(digit_text(n));
    } else {
        push_dec(n / 10, out);
        out.append(digit_text(n % 10));
    }
}

/// The decimal rendering of a signed 64-bit integer.
pub fn int_to_string(v: i64) -> (r: String)
    ensures
        r@ == int_str(v as int),
{
    if v < 0 {
        let mut r = "-".to_owned();
        let m: u64 = (-(v as i128)) as u64;
        proof {
            assert(m as int == -(v as int));
        }
        push_dec(m, &mut r);
        r
    } else {
        let mut r = String::new();
        push_dec(v as u64, &mut r);
        proof {
            assert(Seq::<char>::empty() + dec_digits(v as int) == dec_digits(v as int));
        }
        r
    }
}

impl PrefixOperator {
    /// The operator's text.
    pub fn text(&self) -> (r: &'static str)
        ensures
            r@ == prefix_op_str(*self),
    {
        match self {
            PrefixOperator::Minus => "-",
            PrefixOperator::Bang => "!",
        }
    }
}

impl InfixOperator {
    /// The operator's text.
    pub fn text(&self) -> (r: &'static str)
        ensures
            r@ == infix_op_str(*self),
    {
        match self {
            InfixOperator::Plus => "+",
            InfixOperator::Minus => "-",
            InfixOperator::Asterisk => "*",
            InfixOperator::Slash => "/",
            InfixOperator::Eq => "==",
            InfixOperator::NotEq => "!=",
            InfixOperator::Lt => "<",
            InfixOperator::Gt => ">",
        }
    }
}

impl Identifier {
    /// The literal text of the token this node was built from.
    pub fn token_literal(&self) -> (r: String)
        ensures
            r@ == self.value@,
    {
        self.value.clone()
    }

    /// The node's rendering: the name itself.
    pub fn string(&self) -> (r: String)
        ensures
            r@ == self.value@,
    {
        self.value.clone()
    }
}

impl Expression {
    /// The node's fully-parenthesized rendering.
    pub fn string(&self) -> (r: String)
        ensures
            r@ == expr_str(self@),
        decreases *self,
    {
        match self {
            Expression::Identifier(i) => i.value.clone(),
            Expression::Integer(il) => int_to_string(il.value),
            Expression::Boolean(b) => if b.value {
                "true".to_owned()
            } else {
                "false".to_owned()
            },
            Expression::PrefixExpression(pe) => {
                let mut r = "(".to_owned();
                r.append(pe.operator.text());
                let inner = pe.right.string();
                r.append(inner.as_str());
                r.append(")");
                r
            },
            Expression::InfixExpression(ie) => {
                let mut r = "(".to_owned();
                let left = ie.left.string();
                r.append(left.as_str());
                r.append(" ");
                r.append(ie.operator.text());
                r.append(" ");
                let right = ie.right.string();
                r.append(right.as_str());
                r.append(")");
                r
            },
        }
    }
}

impl LetStatement {
    /// The literal text of the keyword this statement begins with.
    pub fn token_literal(&self) -> (r: String)
        ensures
            r@ == "let"@,
    {
        "let".to_owned()
    }
}

impl ReturnStatement {
    /// The literal text of the keyword this statement begins with.
    pub fn token_literal(&self) -> (r: String)
        ensures
            r@ == "return"@,
    {
        "return".to_owned()
    }
}

impl Statement {
    /// The statement's rendering.
    pub fn string(&self) -> (r: String)
        ensures
            r@ == stmt_str(self@),
    {
        match self {
            Statement::LetStatement(ls) => {
                let mut r = "let ".to_owned();
                r.append(ls.name.value.as_str());
                r.append(";");
                r
            },
            Statement::ReturnStatement(_) => "return;".to_owned(),
            Statement::ExpressionStatement(es) => es.expression.string(),
        }
    }
}

impl Program {
    /// The program's rendering: its statements' renderings, concatenated.
    pub fn string(&self) -> (r: String)
        ensures
            r@ == program_str(self@),
    {
        let mut r = String::new();
        let mut i: usize = 0;
        while i < self.statements.len()
            invariant
                i <= self.statements.len(),
                r@ == program_str(self@.subrange(0, i as int)),
            decreases self.statements.len() - i,
        {
            let s = self.statements[i].string();
            r.append(s.as_str());
            proof {
                let pv = self@;
                assert(pv.subrange(0, i + 1 as int).drop_last() == pv.subrange(0, i as int));
                assert(pv.subrange(0, i + 1 as int).last() == pv[i as int]);
            }
            i = i + 1;
        }
        proof {
            assert(self@.subrange(0, self.statements.len() as int) == self@);
        }
        r
    }
}

} // verus!
