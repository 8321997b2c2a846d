//! The expression tree: a closed set of node variants, each owning its
//! children outright, plus the visitor protocol through which independent
//! algorithms traverse a tree without touching the node definitions.

use vstd::prelude::*;

use crate::token::{LiteralModel, LiteralType, Token, TokenModel};

verus! {

/// The mathematical value of an expression tree.
pub enum ExprModel {
    Assignment { uuid: int, name: TokenModel, value: Box<ExprModel> },
    Binary { left: Box<ExprModel>, operator: TokenModel, right: Box<ExprModel> },
    Grouping { expr: Box<ExprModel> },
    Literal { value: LiteralModel },
    Logical { uuid: int, left: Box<ExprModel>, operator: TokenModel, right: Box<ExprModel> },
    Unary { operator: TokenModel, right: Box<ExprModel> },
    Variable { name: TokenModel },
}

/// An assignment of a value to a named variable.
#[derive(Debug, PartialEq)]
pub struct Assignment {
    pub uuid: usize,
    pub name: Token,
    pub value: Box<Expr>,
}

/// A binary operation: left operand, operator token, right operand.
#[derive(Debug, PartialEq)]
pub struct Binary {
    pub left: Box<Expr>,
    pub operator: Token,
    pub right: Box<Expr>,
}

/// A parenthesized expression; semantically transparent, but kept as a node
/// so that source-level parenthesization is preserved.
#[derive(Debug, PartialEq)]
pub struct Grouping {
    pub expr: Box<Expr>,
}

/// A literal value.
#[derive(Debug, PartialEq)]
pub struct Literal {
    pub value: LiteralType,
}

/// A short-circuiting logical operation (`and` / `or`).
#[derive(Debug, PartialEq)]
pub struct Logical {
    pub uuid: usize,
    pub left: Box<Expr>,
    pub operator: Token,
    pub right: Box<Expr>,
}

/// A unary operation: operator token and operand.
#[derive(Debug, PartialEq)]
pub struct Unary {
    pub operator: Token,
    pub right: Box<Expr>,
}

/// A reference to a named variable.
#[derive(Debug, PartialEq)]
pub struct Variable {
    pub name: Token,
}

/// An expression: a finite tree over the closed variant set above.
#[derive(Debug, PartialEq)]
pub enum Expr {
    Assignment(Assignment),
    Binary(Binary),
    Grouping(Grouping),
    Literal(Literal),
    Logical(Logical),
    Unary(Unary),
    Variable(Variable),
}

/// The mathematical value of an expression tree.
pub open spec fn expr_model(e: Expr) -> ExprModel
    decreases e,
{
    match e {
        Expr::Assignment(a) => ExprModel::Assignment {
            uuid: a.uuid as int,
            name: a.name.deep_view(),
            value: Box::new(expr_model(*a.value)),
        },
        Expr::Binary(b) => ExprModel::Binary {
            left: Box::new(expr_model(*b.left)),
            operator: b.operator.deep_view(),
            right: Box::new(expr_model(*b.right)),
        },
        Expr::Grouping(g) => ExprModel::Grouping { expr: Box::new(expr_model(*g.expr)) },
        Expr::Literal(l) => ExprModel::Literal { value: l.value.deep_view() },
        Expr::Logical(l) => ExprModel::Logical {
            uuid: l.uuid as int,
            left: Box::new(expr_model(*l.left)),
            operator: l.operator.deep_view(),
            right: Box::new(expr_model(*l.right)),
        },
        Expr::Unary(u) => ExprModel::Unary {
            operator: u.operator.deep_view(),
            right: Box::new(expr_model(*u.right)),
        },
        Expr::Variable(v) => ExprModel::Variable { name: v.name.deep_view() },
    }
}

impl DeepView for Expr {
    type V = ExprModel;

    open spec fn deep_view(&self) -> ExprModel {
        expr_model(*self)
    }
}

/// The visitor capability: one handler per node variant. An algorithm over
/// trees implements this once; dispatching through `Expr::accept` then picks
/// the handler that matches the node's variant.
///
/// Each handler's result is specified by a spec function of the visitor's
/// own choosing (`assignment_result` and friends, over the visitor's state
/// before the call and the node), so that `accept` can promise exactly
/// which handler decided its result. Child traversal is the handler's
/// obligation, not `accept`'s.
pub trait Visitor<T: View> {
    /// What `visit_assignment` returns, given the visitor's state and the node.
    spec fn assignment_result(&self, expr: &Assignment) -> T::V;

    /// What `visit_binary` returns, given the visitor's state and the node.
    spec fn binary_result(&self, expr: &Binary) -> T::V;

    /// What `visit_grouping` returns, given the visitor's state and the node.
    spec fn grouping_result(&self, expr: &Grouping) -> T::V;

    /// What `visit_literal` returns, given the visitor's state and the node.
    spec fn literal_result(&self, expr: &Literal) -> T::V;

    /// What `visit_logical` returns, given the visitor's state and the node.
    spec fn logical_result(&self, expr: &Logical) -> T::V;

    /// What `visit_unary` returns, given the visitor's state and the node.
    spec fn unary_result(&self, expr: &Unary) -> T::V;

    /// What `visit_variable` returns, given the visitor's state and the node.
    spec fn variable_result(&self, expr: &Variable) -> T::V;

    fn visit_assignment(&mut self, expr: &Assignment) -> (r: T)
        ensures
            r@ == old(self).assignment_result(expr),
    ;

    fn visit_binary(&mut self, expr: &Binary) -> (r: T)
        ensures
            r@ == old(self).binary_result(expr),
    ;

    fn visit_grouping(&mut self, expr: &Grouping) -> (r: T)
        ensures
            r@ == old(self).grouping_result(expr),
    ;

    fn visit_literal(&mut self, expr: &Literal) -> (r: T)
        ensures
            r@ == old(self).literal_result(expr),
    ;

    fn visit_logical(&mut self, expr: &Logical) -> (r: T)
        ensures
            r@ == old(self).logical_result(expr),
    ;

    fn visit_unary(&mut self, expr: &Unary) -> (r: T)
        ensures
            r@ == old(self).unary_result(expr),
    ;

    fn visit_variable(&mut self, expr: &Variable) -> (r: T)
        ensures
            r@ == old(self).variable_result(expr),
    ;
}

impl Expr {
    /// The visitor entry point: dispatches to the handler matching this
    /// node's variant and returns that handler's result, as the handler's
    /// own result function describes it.
    pub fn accept<T: View, V: Visitor<T>>(&self, visitor: &mut V) -> (r: T)
        ensures
            match self {
                Expr::Assignment(assignment) => r@ == old(visitor).assignment_result(assignment),
                Expr::Binary(binary) => r@ == old(visitor).binary_result(binary),
                Expr::Grouping(grouping) => r@ == old(visitor).grouping_result(grouping),
                Expr::Literal(literal) => r@ == old(visitor).literal_result(literal),
                Expr::Logical(logical) => r@ == old(visitor).logical_result(logical),
                Expr::Unary(unary) => r@ == old(visitor).unary_result(unary),
                Expr::Variable(variable) => r@ == old(visitor).variable_result(variable),
            },
    {
        match self {
            Expr::Assignment(assignment) => visitor.visit_assignment(assignment),
            Expr::Binary(binary) => visitor.visit_binary(binary),
            Expr::Grouping(grouping) => visitor.visit_grouping(grouping),
            Expr::Literal(literal) => visitor.visit_literal(literal),
            Expr::Logical(logical) => visitor.visit_logical(logical),
            Expr::Unary(unary) => visitor.visit_unary(unary),
            Expr::Variable(variable) => visitor.visit_variable(variable),
        }
    }
}

/// The source text that `print_expr` writes for a tree: a form that scans
/// and parses back to a structurally identical tree. Binary and logical
/// operands are separated by single spaces; grouping nodes print their own
/// parentheses; string literals print their quotes.
pub open spec fn print_model(e: ExprModel) -> Seq<char>
    decreases e,
{
    match e {
        ExprModel::Assignment { uuid, name, value } => name.lexeme + " = "@ + print_model(*value),
        ExprModel::Binary { left, operator, right } => print_model(*left) + " "@ + operator.lexeme
            + " "@ + print_model(*right),
        ExprModel::Grouping { expr } => "("@ + print_model(*expr) + ")"@,
        ExprModel::Literal { value } => print_literal_model(value),
        ExprModel::Logical { uuid, left, operator, right } => print_model(*left) + " "@
            + operator.lexeme + " "@ + print_model(*right),
        ExprModel::Unary { operator, right } => operator.lexeme + print_model(*right),
        ExprModel::Variable { name } => name.lexeme,
    }
}

/// The source text of a literal value.
pub open spec fn print_literal_model(l: LiteralModel) -> Seq<char> {
    match l {
        LiteralModel::Str(s) => "\""@ + s + "\""@,
        LiteralModel::Number(s) => s,
        LiteralModel::Bool(b) => if b { "true"@ } else { "false"@ },
        LiteralModel::Nil => "nil"@,
    }
}

/// Writes a tree back as source text, as `print_model` describes.
pub fn print_expr(e: &Expr) -> (r: String)
    ensures
        r@ == print_model(e.deep_view()),
    decreases *e,
{
    match e {
        Expr::Assignment(a) => {
            let mut s = String::from_str(a.name.lexeme.as_str());
            s.append(" = ");
            let v = print_expr(&a.value);
            s.append(v.as_str());
            proof {
                assert(s@ =~= print_model(e.deep_view()));
            }
            s
        },
        Expr::Binary(b) => {
            let mut s = print_expr(&b.left);
            s.append(" ");
            s.append(b.operator.lexeme.as_str());
            s.append(" ");
            let r = print_expr(&b.right);
            s.append(r.as_str());
            proof {
                assert(s@ =~= print_model(e.deep_view()));
            }
            s
        },
        Expr::Grouping(g) => {
            let mut s = String::from_str("(");
            let inner = print_expr(&g.expr);
            s.append(inner.as_str());
            s.append(")");
            proof {
                assert(s@ =~= print_model(e.deep_view()));
            }
            s
        },
        Expr::Literal(l) => {
            let s = print_literal(&l.value);
            proof {
                assert(s@ =~= print_model(e.deep_view()));
            }
            s
        },
        Expr::Logical(l) => {
            let mut s = print_expr(&l.left);
            s.append(" ");
            s.append(l.operator.lexeme.as_str());
            s.append(" ");
            let r = print_expr(&l.right);
            s.append(r.as_str());
            proof {
                assert(s@ =~= print_model(e.deep_view()));
            }
            s
        },
        Expr::Unary(u) => {
            let mut s = String::from_str(u.operator.lexeme.as_str());
            let r = print_expr(&u.right);
            s.append(r.as_str());
            proof {
                assert(s@ =~= print_model(e.deep_view()));
            }
            s
        },
        Expr::Variable(v) => {
            let s = String::from_str(v.name.lexeme.as_str());
            proof {
                assert(s@ =~= print_model(e.deep_view()));
            }
            s
        },
    }
}

/// Writes a literal value back as source text.
pub fn print_literal(l: &LiteralType) -> (r: String)
    ensures
        r@ == print_literal_model(l.deep_view()),
{
    match l {
        LiteralType::Str(v) => {
            let mut s = String::from_str("\"");
            s.append(v.as_str());
            s.append("\"");
            proof {
                assert(s@ =~= print_literal_model(l.deep_view()));
            }
            s
        },
        LiteralType::Number(v) => {
            let s = String::from_str(v.as_str());
            s
        },
        LiteralType::Bool(b) => {
            if *b {
                String::from_str("true")
            } else {
                String::from_str("false")
            }
        },
        LiteralType::Nil => String::from_str("nil"),
    }
}

/// A visitor that pretty-prints a tree as source text. Each handler writes
/// the same text that `print_expr` writes for that node.
pub struct AstPrinter {}

impl AstPrinter {
    /// Pretty-prints a tree through the visitor protocol. By `accept`'s
    /// dispatch contract and this visitor's result functions, the text is
    /// exactly what `print_expr` writes.
    pub fn print(&mut self, e: &Expr) -> (r: String)
        ensures
            r@ == print_model(e.deep_view()),
    {
        e.accept(self)
    }
}

impl Visitor<String> for AstPrinter {
    open spec fn assignment_result(&self, expr: &Assignment) -> Seq<char> {
        print_model(ExprModel::Assignment {
            uuid: expr.uuid as int,
            name: expr.name.deep_view(),
            value: Box::new(expr.value.deep_view()),
        })
    }

    open spec fn binary_result(&self, expr: &Binary) -> Seq<char> {
        print_model(ExprModel::Binary {
            left: Box::new(expr.left.deep_view()),
            operator: expr.operator.deep_view(),
            right: Box::new(expr.right.deep_view()),
        })
    }

    open spec fn grouping_result(&self, expr: &Grouping) -> Seq<char> {
        print_model(ExprModel::Grouping { expr: Box::new(expr.expr.deep_view()) })
    }

    open spec fn literal_result(&self, expr: &Literal) -> Seq<char> {
        print_model(ExprModel::Literal { value: expr.value.deep_view() })
    }

    open spec fn logical_result(&self, expr: &Logical) -> Seq<char> {
        print_model(ExprModel::Logical {
            uuid: expr.uuid as int,
            left: Box::new(expr.left.deep_view()),
            operator: expr.operator.deep_view(),
            right: Box::new(expr.right.deep_view()),
        })
    }

    open spec fn unary_result(&self, expr: &Unary) -> Seq<char> {
        print_model(ExprModel::Unary {
            operator: expr.operator.deep_view(),
            right: Box::new(expr.right.deep_view()),
        })
    }

    open spec fn variable_result(&self, expr: &Variable) -> Seq<char> {
        print_model(ExprModel::Variable { name: expr.name.deep_view() })
    }

    fn visit_assignment(&mut self, expr: &Assignment) -> (r: String)
    {
        let mut s = String::from_str(expr.name.lexeme.as_str());
        s.append(" = ");
        let v = print_expr(&expr.value);
        s.append(v.as_str());
        proof {
            assert(s@ =~= expr.name.deep_view().lexeme + " = "@ + print_model(expr.value.deep_view()));
        }
        s
    }

    fn visit_binary(&mut self, expr: &Binary) -> (r: String)
    {
        let mut s = print_expr(&expr.left);
        s.append(" ");
        s.append(expr.operator.lexeme.as_str());
        s.append(" ");
        let r = print_expr(&expr.right);
        s.append(r.as_str());
        proof {
            assert(s@ =~= print_model(expr.left.deep_view()) + " "@
                + expr.operator.deep_view().lexeme + " "@ + print_model(expr.right.deep_view()));
        }
        s
    }

    fn visit_grouping(&mut self, expr: &Grouping) -> (r: String)
    {
        let mut s = String::from_str("(");
        let inner = print_expr(&expr.expr);
        s.append(inner.as_str());
        s.append(")");
        proof {
            assert(s@ =~= "("@ + print_model(expr.expr.deep_view()) + ")"@);
        }
        s
    }

    fn visit_literal(&mut self, expr: &Literal) -> (r: String)
    {
        print_literal(&expr.value)
    }

    fn visit_logical(&mut self, expr: &Logical) -> (r: String)
    {
        let mut s = print_expr(&expr.left);
        s.append(" ");
        s.append(expr.operator.lexeme.as_str());
        s.append(" ");
        let r = print_expr(&expr.right);
        s.append(r.as_str());
        proof {
            assert(s@ =~= print_model(expr.left.deep_view()) + " "@
                + expr.operator.deep_view().lexeme + " "@ + print_model(expr.right.deep_view()));
        }
        s
    }

    fn visit_unary(&mut self, expr: &Unary) -> (r: String)
    {
        let mut s = String::from_str(expr.operator.lexeme.as_str());
        let r = print_expr(&expr.right);
        s.append(r.as_str());
        proof {
            assert(s@ =~= expr.operator.deep_view().lexeme + print_model(expr.right.deep_view()));
        }
        s
    }

    fn visit_variable(&mut self, expr: &Variable) -> (r: String)
    {
        String::from_str(expr.name.lexeme.as_str())
    }
}

} // verus!
