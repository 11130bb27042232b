//! The syntax tree of a script, and its mathematical model.
use vstd::prelude::*;

use crate::span::Span;

verus! {

/// An identifier and where it stands.
#[derive(Debug)]
pub struct Ident {
    pub span: Span,
    pub ident: String,
}

/// A string literal (escapes kept as written) and where it stands.
#[derive(Debug)]
pub struct StringLiteral {
    pub string: String,
    pub span: Span,
}

#[derive(Debug)]
pub struct Expression {
    pub kind: ExpressionKind,
    pub span: Span,
}

#[derive(Debug)]
pub enum ExpressionKind {
    Block(Box<Block>),
    MethodCall(Box<MethodCall>),
    Ident(Ident),
    StringLiteral(StringLiteral),
}

/// `{ statement* expression? }`
#[derive(Debug)]
pub struct Block {
    pub body: Vec<Statement>,
    pub tail: Option<Expression>,
    pub span: Span,
}

/// `receiver method argument`
#[derive(Debug)]
pub struct MethodCall {
    pub receiver: Expression,
    pub method: Ident,
    pub argument: Expression,
    pub span: Span,
}

#[derive(Debug)]
pub struct Statement {
    pub kind: StatementKind,
    pub span: Span,
}

#[derive(Debug)]
pub enum StatementKind {
    Test(Test),
    Expression(Expression),
}

/// `test name(command) body`
#[derive(Debug)]
pub struct Test {
    pub name: Ident,
    pub command: Expression,
    pub body: Box<Statement>,
    pub span: Span,
}

/// A whole script: its statements in order.
#[derive(Debug)]
pub struct Module {
    pub ast: Vec<Statement>,
    pub span: Span,
}

// ---------------------------------------------------------------- the model

pub struct SpecIdent {
    pub span: Span,
    pub ident: Seq<char>,
}

pub struct SpecStringLiteral {
    pub string: Seq<char>,
    pub span: Span,
}

pub struct SpecExpression {
    pub kind: SpecExpressionKind,
    pub span: Span,
}

pub enum SpecExpressionKind {
    Block(Box<SpecBlock>),
    MethodCall(Box<SpecMethodCall>),
    Ident(SpecIdent),
    StringLiteral(SpecStringLiteral),
}

pub struct SpecBlock {
    pub body: Seq<SpecStatement>,
    pub tail: Option<SpecExpression>,
    pub span: Span,
}

pub struct SpecMethodCall {
    pub receiver: SpecExpression,
    pub method: SpecIdent,
    pub argument: SpecExpression,
    pub span: Span,
}

pub struct SpecStatement {
    pub kind: SpecStatementKind,
    pub span: Span,
}

pub enum SpecStatementKind {
    Test(SpecTest),
    Expression(SpecExpression),
}

pub struct SpecTest {
    pub name: SpecIdent,
    pub command: SpecExpression,
    pub body: Box<SpecStatement>,
    pub span: Span,
}

pub struct SpecModule {
    pub ast: Seq<SpecStatement>,
    pub span: Span,
}

impl View for Ident {
    type V = SpecIdent;

    open spec fn view(&self) -> SpecIdent {
        SpecIdent { span: self.span, ident: self.ident@ }
    }
}

impl View for StringLiteral {
    type V = SpecStringLiteral;

    open spec fn view(&self) -> SpecStringLiteral {
        SpecStringLiteral { string: self.string@, span: self.span }
    }
}

/// The tree of an expression, over mathematical values.
pub open spec fn expression_view(e: Expression) -> SpecExpression
    decreases e,
{
    SpecExpression {
        kind: match e.kind {
            ExpressionKind::Block(b) => SpecExpressionKind::Block(Box::new(block_view(*b))),
            ExpressionKind::MethodCall(m) => SpecExpressionKind::MethodCall(
                Box::new(method_call_view(*m)),
            ),
            ExpressionKind::Ident(i) => SpecExpressionKind::Ident(i@),
            ExpressionKind::StringLiteral(s) => SpecExpressionKind::StringLiteral(s@),
        },
        span: e.span,
    }
}

/// The tree of a block, over mathematical values.
pub open spec fn block_view(b: Block) -> SpecBlock
    decreases b,
{
    SpecBlock {
        body: statements_view(b.body@),
        tail: match b.tail {
            Some(e) => Some(expression_view(e)),
            None => None,
        },
        span: b.span,
    }
}

/// The tree of a method call, over mathematical values.
pub open spec fn method_call_view(m: MethodCall) -> SpecMethodCall
    decreases m,
{
    SpecMethodCall {
        receiver: expression_view(m.receiver),
        method: m.method@,
        argument: expression_view(m.argument),
        span: m.span,
    }
}

/// The trees of statements, in order.
pub open spec fn statements_view(v: Seq<Statement>) -> Seq<SpecStatement>
    decreases v,
{
    if v.len() == 0 {
        Seq::empty()
    } else {
        statements_view(v.drop_last()).push(statement_view(v.last()))
    }
}

/// The tree of a statement, over mathematical values.
pub open spec fn statement_view(s: Statement) -> SpecStatement
    decreases s,
{
    SpecStatement {
        kind: match s.kind {
            StatementKind::Test(t) => SpecStatementKind::Test(test_view(t)),
            StatementKind::Expression(e) => SpecStatementKind::Expression(expression_view(e)),
        },
        span: s.span,
    }
}

/// The tree of a test, over mathematical values.
pub open spec fn test_view(t: Test) -> SpecTest
    decreases t,
{
    SpecTest {
        name: t.name@,
        command: expression_view(t.command),
        body: Box::new(statement_view(*t.body)),
        span: t.span,
    }
}

impl View for Expression {
    type V = SpecExpression;

    open spec fn view(&self) -> SpecExpression {
        expression_view(*self)
    }
}

impl View for Block {
    type V = SpecBlock;

    open spec fn view(&self) -> SpecBlock {
        block_view(*self)
    }
}

impl View for MethodCall {
    type V = SpecMethodCall;

    open spec fn view(&self) -> SpecMethodCall {
        method_call_view(*self)
    }
}

impl View for Statement {
    type V = SpecStatement;

    open spec fn view(&self) -> SpecStatement {
        statement_view(*self)
    }
}

impl View for Test {
    type V = SpecTest;

    open spec fn view(&self) -> SpecTest {
        test_view(*self)
    }
}

impl View for Module {
    type V = SpecModule;

    open spec fn view(&self) -> SpecModule {
        SpecModule { ast: statements_view(self.ast@), span: self.span }
    }
}

/// The view of a sequence of statements is taken element by element.
pub proof fn lemma_statements_view(v: Seq<Statement>)
    ensures
        statements_view(v).len() == v.len(),
        forall|k: int| 0 <= k < v.len() ==> statements_view(v)[k] == statement_view(#[trigger] v[k]),
    decreases v.len(),
{
    if v.len() > 0 {
        lemma_statements_view(v.drop_last());
        assert forall|k: int| 0 <= k < v.len() implies statements_view(v)[k] == statement_view(
            #[trigger] v[k],
        ) by {
            if k < v.len() - 1 {
                assert(v.drop_last()[k] == v[k]);
            }
        }
    }
}

} // verus!
