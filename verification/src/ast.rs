//! The syntax tree: operators, literals, expressions and statements.

use crate::callable::LoxCallable;
use crate::number::{Arithmetic, Number};
use crate::token::{Token, TokenKind};
use std::rc::Rc;
use vstd::prelude::*;
use vstd::string::StringExecFns;

verus! {

#[derive(Clone, Copy, Debug)]
pub enum BinOp {
    Plus,
    Minus,
    Multiply,
    Divide,
    Eq,
    Gt,
    Lt,
    Ge,
    Le,
    EqEq,
    Ne,
}

impl BinOp {
    /// The operator a token kind stands for, if any.
    pub open spec fn of_kind(kind: TokenKind) -> Option<BinOp> {
        match kind {
            TokenKind::Le => Some(BinOp::Le),
            TokenKind::Lt => Some(BinOp::Lt),
            TokenKind::Ge => Some(BinOp::Ge),
            TokenKind::Gt => Some(BinOp::Gt),
            TokenKind::Eq => Some(BinOp::Eq),
            TokenKind::EqEq => Some(BinOp::EqEq),
            TokenKind::Ne => Some(BinOp::Ne),
            TokenKind::Plus => Some(BinOp::Plus),
            TokenKind::Minus => Some(BinOp::Minus),
            TokenKind::Star => Some(BinOp::Multiply),
            TokenKind::Slash => Some(BinOp::Divide),
            _ => None,
        }
    }

    pub fn from_kind(kind: &TokenKind) -> (op: Option<BinOp>)
        ensures
            op == BinOp::of_kind(*kind),
    {
        match kind {
            TokenKind::Le => Some(BinOp::Le),
            TokenKind::Lt => Some(BinOp::Lt),
            TokenKind::Ge => Some(BinOp::Ge),
            TokenKind::Gt => Some(BinOp::Gt),
            TokenKind::Eq => Some(BinOp::Eq),
            TokenKind::EqEq => Some(BinOp::EqEq),
            TokenKind::Ne => Some(BinOp::Ne),
            TokenKind::Plus => Some(BinOp::Plus),
            TokenKind::Minus => Some(BinOp::Minus),
            TokenKind::Star => Some(BinOp::Multiply),
            TokenKind::Slash => Some(BinOp::Divide),
            _ => None,
        }
    }

    /// The operator as it is written.
    pub open spec fn spelling(self) -> Seq<char> {
        match self {
            BinOp::Plus => "+"@,
            BinOp::Minus => "-"@,
            BinOp::Multiply => "*"@,
            BinOp::Divide => "/"@,
            BinOp::Eq => "="@,
            BinOp::Gt => ">"@,
            BinOp::Lt => "<"@,
            BinOp::Ge => ">="@,
            BinOp::Le => "<="@,
            BinOp::EqEq => "=="@,
            BinOp::Ne => "!="@,
        }
    }

    pub fn symbol(&self) -> (text: &'static str)
        ensures
            text@ == self.spelling(),
    {
        match self {
            BinOp::Plus => "+",
            BinOp::Minus => "-",
            BinOp::Multiply => "*",
            BinOp::Divide => "/",
            BinOp::Eq => "=",
            BinOp::Gt => ">",
            BinOp::Lt => "<",
            BinOp::Ge => ">=",
            BinOp::Le => "<=",
            BinOp::EqEq => "==",
            BinOp::Ne => "!=",
        }
    }
}

#[derive(Clone, Copy, Debug)]
pub enum UnOp {
    BinNeg,
    LogNeg,
}

impl UnOp {
    /// The operator a token kind stands for, if any.
    pub open spec fn of_kind(kind: TokenKind) -> Option<UnOp> {
        match kind {
            TokenKind::Bang => Some(UnOp::LogNeg),
            TokenKind::Minus => Some(UnOp::BinNeg),
            _ => None,
        }
    }

    pub fn from_kind(kind: &TokenKind) -> (op: Option<UnOp>)
        ensures
            op == UnOp::of_kind(*kind),
    {
        match kind {
            TokenKind::Bang => Some(UnOp::LogNeg),
            TokenKind::Minus => Some(UnOp::BinNeg),
            _ => None,
        }
    }

    /// The operator as it is written.
    pub open spec fn spelling(self) -> Seq<char> {
        match self {
            UnOp::BinNeg => "-"@,
            UnOp::LogNeg => "!"@,
        }
    }

    pub fn symbol(&self) -> (text: &'static str)
        ensures
            text@ == self.spelling(),
    {
        match self {
            UnOp::BinNeg => "-",
            UnOp::LogNeg => "!",
        }
    }
}

#[derive(Clone, Copy, Debug)]
pub enum LogOp {
    And,
    Or,
}

impl LogOp {
    /// The operator a token kind stands for, if any.
    pub open spec fn of_kind(kind: TokenKind) -> Option<LogOp> {
        match kind {
            TokenKind::And => Some(LogOp::And),
            TokenKind::Or => Some(LogOp::Or),
            _ => None,
        }
    }

    pub fn from_kind(kind: &TokenKind) -> (op: Option<LogOp>)
        ensures
            op == LogOp::of_kind(*kind),
    {
        match kind {
            TokenKind::And => Some(LogOp::And),
            TokenKind::Or => Some(LogOp::Or),
            _ => None,
        }
    }

    /// The operator as it is written.
    pub open spec fn spelling(self) -> Seq<char> {
        match self {
            LogOp::And => "and"@,
            LogOp::Or => "or"@,
        }
    }

    pub fn symbol(&self) -> (text: &'static str)
        ensures
            text@ == self.spelling(),
    {
        match self {
            LogOp::And => "and",
            LogOp::Or => "or",
        }
    }
}

/// A literal of the syntax tree and, at run time, a value of the language.
#[derive(Debug)]
pub enum Literal {
    String(String),
    Number(Number),
    Bool(bool),
    Callable(LoxCallable),
    Nil,
}

impl Clone for Literal {
    fn clone(&self) -> (r: Self)
        ensures
            r == *self,
    {
        match self {
            Literal::String(s) => Literal::String(s.clone()),
            Literal::Number(n) => Literal::Number(*n),
            Literal::Bool(b) => Literal::Bool(*b),
            Literal::Callable(c) => Literal::Callable(c.clone()),
            Literal::Nil => Literal::Nil,
        }
    }
}

#[derive(Debug)]
pub enum ExprKind {
    Binary(BinOp, Box<Expr>, Box<Expr>),
    Call(Box<Expr>, Vec<Expr>),
    Grouping(Box<Expr>),
    Literal(Literal),
    Logical(LogOp, Box<Expr>, Box<Expr>),
    Unary(UnOp, Box<Expr>),
    Variable(Token),
    Assign(Token, Box<Expr>),
}

#[derive(Debug)]
pub struct Expr {
    pub kind: ExprKind,
}

/// A statement. The parameters and the body of a function declaration are
/// shared, so that every function value made from the declaration holds the
/// same two lists.
#[derive(Debug)]
pub enum Stmt {
    Expression(Expr),
    Print(Expr),
    Var(Token, Option<Expr>),
    Block(Vec<Stmt>),
    If(Expr, Box<Stmt>, Box<Option<Stmt>>),
    While(Expr, Box<Stmt>),
    Function(Token, Rc<Vec<Token>>, Rc<Vec<Stmt>>),
    Return(Token, Option<Expr>),
}

/// The mathematical value of an expression: the same tree with sequences
/// in place of vectors.
pub ghost enum ExprView {
    Binary(BinOp, Box<ExprView>, Box<ExprView>),
    Call(Box<ExprView>, Seq<ExprView>),
    Grouping(Box<ExprView>),
    Literal(Literal),
    Logical(LogOp, Box<ExprView>, Box<ExprView>),
    Unary(UnOp, Box<ExprView>),
    Variable(Token),
    Assign(Token, Box<ExprView>),
}

/// The mathematical value of a statement: the same tree with sequences in
/// place of vectors.
pub ghost enum StmtView {
    Expression(ExprView),
    Print(ExprView),
    Var(Token, Option<ExprView>),
    Block(Seq<StmtView>),
    If(ExprView, Box<StmtView>, Option<Box<StmtView>>),
    While(ExprView, Box<StmtView>),
    Function(Token, Seq<Token>, Seq<StmtView>),
    Return(Token, Option<ExprView>),
}

impl Expr {
    /// The expression as a tree of sequences.
    pub open spec fn tree(&self) -> ExprView
        decreases self,
    {
        match self.kind {
            ExprKind::Binary(op, l, r) => ExprView::Binary(op, Box::new(l.tree()), Box::new(r.tree())),
            ExprKind::Call(callee, args) => ExprView::Call(
                Box::new(callee.tree()),
                Seq::new(
                    args@.len(),
                    |i: int|
                        if 0 <= i < args@.len() {
                            args@[i].tree()
                        } else {
                            ExprView::Literal(Literal::Nil)
                        },
                ),
            ),
            ExprKind::Grouping(inner) => ExprView::Grouping(Box::new(inner.tree())),
            ExprKind::Literal(l) => ExprView::Literal(l),
            ExprKind::Logical(op, l, r) => ExprView::Logical(
                op,
                Box::new(l.tree()),
                Box::new(r.tree()),
            ),
            ExprKind::Unary(op, inner) => ExprView::Unary(op, Box::new(inner.tree())),
            ExprKind::Variable(name) => ExprView::Variable(name),
            ExprKind::Assign(name, value) => ExprView::Assign(name, Box::new(value.tree())),
        }
    }
}

impl View for Expr {
    type V = ExprView;

    open spec fn view(&self) -> ExprView {
        self.tree()
    }
}

/// The view of an expression that may be absent.
pub open spec fn opt_expr_view(e: Option<Expr>) -> Option<ExprView> {
    match e {
        Some(e) => Some(e@),
        None => None,
    }
}

/// The views of a list of expressions.
pub open spec fn expr_views(exprs: Seq<Expr>) -> Seq<ExprView> {
    Seq::new(exprs.len(), |i: int| exprs[i]@)
}

impl Stmt {
    /// The statement as a tree of sequences.
    pub open spec fn tree(&self) -> StmtView
        decreases self,
    {
        match *self {
            Stmt::Expression(e) => StmtView::Expression(e@),
            Stmt::Print(e) => StmtView::Print(e@),
            Stmt::Var(name, init) => StmtView::Var(name, opt_expr_view(init)),
            Stmt::Block(stmts) => StmtView::Block(Seq::new(
                    stmts@.len(),
                    |i: int|
                        if 0 <= i < stmts@.len() {
                            stmts@[i].tree()
                        } else {
                            StmtView::Block(Seq::empty())
                        },
                )),
            Stmt::If(c, t, e) => StmtView::If(
                c@,
                Box::new(t.tree()),
                match *e {
                    Some(e) => Some(Box::new(e.tree())),
                    None => None,
                },
            ),
            Stmt::While(c, body) => StmtView::While(c@, Box::new(body.tree())),
            Stmt::Function(name, params, body) => StmtView::Function(
                name,
                params@,
                Seq::new(
                    body@.len(),
                    |i: int|
                        if 0 <= i < body@.len() {
                            body@[i].tree()
                        } else {
                            StmtView::Block(Seq::empty())
                        },
                ),
            ),
            Stmt::Return(keyword, value) => StmtView::Return(keyword, opt_expr_view(value)),
        }
    }
}

impl View for Stmt {
    type V = StmtView;

    open spec fn view(&self) -> StmtView {
        self.tree()
    }
}

/// The views of a list of statements.
pub open spec fn stmt_views(stmts: Seq<Stmt>) -> Seq<StmtView> {
    Seq::new(stmts.len(), |i: int| stmts[i]@)
}

/// The view of a statement that may be absent.
pub open spec fn opt_stmt_view(s: Option<Stmt>) -> Option<StmtView> {
    match s {
        Some(s) => Some(s@),
        None => None,
    }
}

/// The view of a call is the call of the views.
pub proof fn lemma_call_view(callee: Expr, args: Vec<Expr>)
    ensures
        (Expr { kind: ExprKind::Call(Box::new(callee), args) })@ == ExprView::Call(
            Box::new(callee@),
            expr_views(args@),
        ),
{
    let e = Expr { kind: ExprKind::Call(Box::new(callee), args) };
    assert(e.tree()->Call_1 =~= expr_views(args@));
}

/// The view of a block is the block of the views.
pub proof fn lemma_block_view(stmts: Vec<Stmt>)
    ensures
        Stmt::Block(stmts)@ == StmtView::Block(stmt_views(stmts@)),
{
    assert(Stmt::Block(stmts).tree()->Block_0 =~= stmt_views(stmts@));
}

/// The view of a function declaration is the declaration of the views.
pub proof fn lemma_function_view(name: Token, params: Rc<Vec<Token>>, body: Rc<Vec<Stmt>>)
    ensures
        Stmt::Function(name, params, body)@ == StmtView::Function(name, params@, stmt_views(body@)),
{
    assert(Stmt::Function(name, params, body).tree()->Function_2 =~= stmt_views(body@));
}

/// The views of a list with one more expression.
pub proof fn lemma_expr_views_push(exprs: Seq<Expr>, e: Expr)
    ensures
        expr_views(exprs.push(e)) == expr_views(exprs).push(e@),
{
    assert(expr_views(exprs.push(e)) =~= expr_views(exprs).push(e@));
}

/// The views of a list with one more statement.
pub proof fn lemma_stmt_views_push(stmts: Seq<Stmt>, s: Stmt)
    ensures
        stmt_views(stmts.push(s)) == stmt_views(stmts).push(s@),
{
    assert(stmt_views(stmts.push(s)) =~= stmt_views(stmts).push(s@));
}

/// A literal as the tree printer writes it: a string in double quotes, a
/// callable as the word `callable`. The text of a number is the host's.
pub open spec fn literal_text(l: Literal) -> Seq<char> {
    match l {
        Literal::String(s) => "\""@ + s@ + "\""@,
        Literal::Bool(b) => if b {
            "true"@
        } else {
            "false"@
        },
        Literal::Callable(_) => "callable"@,
        Literal::Nil => "nil"@,
        Literal::Number(_) => Seq::empty(),
    }
}

/// Two items in parentheses, each after a space.
pub open spec fn pair_text(first: Seq<char>, second: Seq<char>) -> Seq<char> {
    "("@ + " "@ + first + " "@ + second + ")"@
}

/// Three items in parentheses, each after a space.
pub open spec fn triple_text(first: Seq<char>, second: Seq<char>, third: Seq<char>) -> Seq<char> {
    "("@ + " "@ + first + " "@ + second + " "@ + third + ")"@
}

/// An expression in prefix form: the operator or the kind of node first,
/// then the parts. The arguments of a call are left out.
pub open spec fn rendering(e: Expr) -> Seq<char>
    decreases e,
{
    match e.kind {
        ExprKind::Binary(op, l, r) => triple_text(op.spelling(), rendering(*l), rendering(*r)),
        ExprKind::Grouping(inner) => pair_text("group"@, rendering(*inner)),
        ExprKind::Literal(l) => literal_text(l),
        ExprKind::Unary(op, inner) => pair_text(op.spelling(), rendering(*inner)),
        ExprKind::Variable(name) => pair_text("var"@, name.lexeme@),
        ExprKind::Assign(name, value) => triple_text("="@, name.lexeme@, rendering(*value)),
        ExprKind::Logical(op, l, r) => triple_text(op.spelling(), rendering(*l), rendering(*r)),
        ExprKind::Call(callee, _) => pair_text("call"@, rendering(*callee)),
    }
}

/// No number literal is printed when the expression is.
pub open spec fn number_free(e: Expr) -> bool
    decreases e,
{
    match e.kind {
        ExprKind::Binary(_, l, r) => number_free(*l) && number_free(*r),
        ExprKind::Grouping(inner) => number_free(*inner),
        ExprKind::Literal(l) => !(l is Number),
        ExprKind::Unary(_, inner) => number_free(*inner),
        ExprKind::Variable(_) => true,
        ExprKind::Assign(_, value) => number_free(*value),
        ExprKind::Logical(_, l, r) => number_free(*l) && number_free(*r),
        ExprKind::Call(callee, _) => number_free(*callee),
    }
}

fn pair(first: &str, second: &str) -> (text: String)
    ensures
        text@ == pair_text(first@, second@),
{
    let mut text = String::from_str("(");
    text.append(" ");
    text.append(first);
    text.append(" ");
    text.append(second);
    text.append(")");
    text
}

fn triple(first: &str, second: &str, third: &str) -> (text: String)
    ensures
        text@ == triple_text(first@, second@, third@),
{
    let mut text = String::from_str("(");
    text.append(" ");
    text.append(first);
    text.append(" ");
    text.append(second);
    text.append(" ");
    text.append(third);
    text.append(")");
    text
}

/// Writes an expression in prefix form. Where it holds number literals,
/// their texts are the host's.
pub fn pretty_print<A: Arithmetic>(expr: &Expr, numbers: &A) -> (text: String)
    ensures
        number_free(*expr) ==> text@ == rendering(*expr),
    decreases expr,
{
    match &expr.kind {
        ExprKind::Binary(op, l, r) => {
            let left = pretty_print(l, numbers);
            let right = pretty_print(r, numbers);
            triple(op.symbol(), left.as_str(), right.as_str())
        },
        ExprKind::Grouping(inner) => {
            let inside = pretty_print(inner, numbers);
            pair("group", inside.as_str())
        },
        ExprKind::Literal(l) => match l {
            Literal::String(s) => {
                let mut text = String::from_str("\"");
                text.append(s.as_str());
                text.append("\"");
                text
            },
            Literal::Number(n) => numbers.format(*n),
            Literal::Bool(b) => if *b {
                String::from_str("true")
            } else {
                String::from_str("false")
            },
            Literal::Callable(_) => String::from_str("callable"),
            Literal::Nil => String::from_str("nil"),
        },
        ExprKind::Unary(op, inner) => {
            let inside = pretty_print(inner, numbers);
            pair(op.symbol(), inside.as_str())
        },
        ExprKind::Variable(name) => pair("var", name.lexeme.as_str()),
        ExprKind::Assign(name, value) => {
            let inside = pretty_print(value, numbers);
            triple("=", name.lexeme.as_str(), inside.as_str())
        },
        ExprKind::Logical(op, l, r) => {
            let left = pretty_print(l, numbers);
            let right = pretty_print(r, numbers);
            triple(op.symbol(), left.as_str(), right.as_str())
        },
        ExprKind::Call(callee, _) => {
            let inside = pretty_print(callee, numbers);
            pair("call", inside.as_str())
        },
    }
}

} // verus!
