//! The syntax tree that the parser builds, the static types it checks, and the
//! scopes it resolves variables in.

use vstd::prelude::*;
use vstd::string::StringSliceAdditionalSpecFns;
use crate::loc::{Span, joined};
use crate::decimal::{Decimal, DecimalV};

verus! {

/// Whether two strings hold the same characters.
pub fn str_eq(a: &str, b: &str) -> (r: bool)
    ensures
        r == (a@ == b@),
{
    let x = a.as_bytes();
    let y = b.as_bytes();
    proof {
        vstd::utf8::encode_utf8_decode_utf8(a@);
        vstd::utf8::encode_utf8_decode_utf8(b@);
    }
    if x.len() != y.len() {
        return false;
    }
    let mut i: usize = 0;
    while i < x.len()
        invariant
            x@ == a.spec_bytes(),
            y@ == b.spec_bytes(),
            x@.len() == y@.len(),
            i <= x@.len(),
            forall|j: int| 0 <= j < i ==> x@[j] == y@[j],
        decreases x@.len() - i,
    {
        if x[i] != y[i] {
            return false;
        }
        i = i + 1;
    }
    assert(x@ =~= y@);
    true
}

/// A value written literally in a program.
#[derive(Debug, Clone, PartialEq)]
pub enum Literal {
    Number(Decimal),
    String(String),
    Boolean(bool),
    Null,
}

/// A literal as a value.
pub enum LiteralV {
    Number(DecimalV),
    String(Seq<char>),
    Boolean(bool),
    Null,
}

impl View for Literal {
    type V = LiteralV;

    open spec fn view(&self) -> LiteralV {
        match self {
            Literal::Number(d) => LiteralV::Number(d@),
            Literal::String(s) => LiteralV::String(s@),
            Literal::Boolean(b) => LiteralV::Boolean(*b),
            Literal::Null => LiteralV::Null,
        }
    }
}

impl Literal {
    /// A copy of this literal.
    pub fn duplicate(&self) -> (r: Literal)
        ensures
            r@ == self@,
    {
        match self {
            Literal::Number(d) => Literal::Number(d.duplicate()),
            Literal::String(s) => Literal::String(s.clone()),
            Literal::Boolean(b) => Literal::Boolean(*b),
            Literal::Null => Literal::Null,
        }
    }
}

/// An operator between two operands.
#[derive(Debug, Clone, Copy, PartialEq, Eq, Structural)]
pub enum BinaryOp {
    Add,
    Subtract,
    Multiply,
    Divide,
    Modulo,
    Equal,
    NotEqual,
    GreaterThan,
    LessThan,
    GreaterEq,
    LessEq,
}

/// An operator before one operand.
#[derive(Debug, Clone, Copy, PartialEq, Eq, Structural)]
pub enum UnaryOp {
    Negate,
    BitNot,
    BoolNot,
}

/// How a binary operator is written in a program.
pub open spec fn binary_op_symbol(op: BinaryOp) -> Seq<char> {
    match op {
        BinaryOp::Add => "+"@,
        BinaryOp::Subtract => "-"@,
        BinaryOp::Multiply => "*"@,
        BinaryOp::Divide => "/"@,
        BinaryOp::Modulo => "%"@,
        BinaryOp::Equal => "=="@,
        BinaryOp::NotEqual => "!="@,
        BinaryOp::GreaterThan => ">"@,
        BinaryOp::LessThan => "<"@,
        BinaryOp::GreaterEq => ">="@,
        BinaryOp::LessEq => "<="@,
    }
}

/// How tightly a binary operator binds: comparisons 0, addition and subtraction 1,
/// multiplication, division and remainder 2.
pub open spec fn binary_precedence(op: BinaryOp) -> nat {
    match op {
        BinaryOp::Add | BinaryOp::Subtract => 1,
        BinaryOp::Multiply | BinaryOp::Divide | BinaryOp::Modulo => 2,
        _ => 0,
    }
}

/// How a unary operator is written in a program.
pub open spec fn unary_op_symbol(op: UnaryOp) -> Seq<char> {
    match op {
        UnaryOp::Negate => "-"@,
        UnaryOp::BitNot => "~"@,
        UnaryOp::BoolNot => "!"@,
    }
}

/// How an error message names what a binary operator does.
pub open spec fn binary_op_text(op: BinaryOp) -> Seq<char> {
    match op {
        BinaryOp::Add => "add"@,
        BinaryOp::Subtract => "subtract"@,
        BinaryOp::Multiply => "multiply"@,
        BinaryOp::Divide => "divide"@,
        BinaryOp::Modulo => "calculate modulo between"@,
        _ => "compare"@,
    }
}

/// How an error message names what a unary operator does.
pub open spec fn unary_op_text(op: UnaryOp) -> Seq<char> {
    match op {
        UnaryOp::Negate => "negate"@,
        UnaryOp::BitNot => "bitwise not"@,
        UnaryOp::BoolNot => "boolean negate"@,
    }
}

impl BinaryOp {
    /// What this operator does, as error messages name it; see [`binary_op_text`].
    pub fn text(&self) -> (r: &'static str)
        ensures
            r@ == binary_op_text(*self),
    {
        match self {
            BinaryOp::Add => "add",
            BinaryOp::Subtract => "subtract",
            BinaryOp::Multiply => "multiply",
            BinaryOp::Divide => "divide",
            BinaryOp::Modulo => "calculate modulo between",
            _ => "compare",
        }
    }
}

impl UnaryOp {
    /// What this operator does, as error messages name it; see [`unary_op_text`].
    pub fn text(&self) -> (r: &'static str)
        ensures
            r@ == unary_op_text(*self),
    {
        match self {
            UnaryOp::Negate => "negate",
            UnaryOp::BitNot => "bitwise not",
            UnaryOp::BoolNot => "boolean negate",
        }
    }
}

/// What an expression is.
#[derive(Debug, PartialEq)]
pub enum ExprKind {
    Literal(Literal),
    Ident(String),
    Binary { left: Box<Expr>, op: BinaryOp, right: Box<Expr> },
    Unary { op: UnaryOp, right: Box<Expr> },
    Call { callee: Box<Expr>, args: Vec<Expr> },
    Decl { value: Box<Expr> },
    VarGet { depth: usize, slot: usize },
    VarSet { value: Box<Expr>, depth: usize, slot: usize },
    Block(Vec<Expr>),
    If { cond: Box<Expr>, then: Vec<Expr>, otherwise: Option<Box<Expr>> },
    While { cond: Box<Expr>, body: Vec<Expr> },
    Func { param_count: usize, body: Vec<Expr> },
}

/// An expression and the span of source it was read from.
#[derive(Debug, PartialEq)]
pub struct Expr {
    pub span: Span,
    pub kind: ExprKind,
}

/// An expression kind as a value.
pub enum ExprKindV {
    Literal(LiteralV),
    Ident(Seq<char>),
    Binary { left: Box<ExprV>, op: BinaryOp, right: Box<ExprV> },
    Unary { op: UnaryOp, right: Box<ExprV> },
    Call { callee: Box<ExprV>, args: Seq<ExprV> },
    Decl { value: Box<ExprV> },
    VarGet { depth: nat, slot: nat },
    VarSet { value: Box<ExprV>, depth: nat, slot: nat },
    Block(Seq<ExprV>),
    If { cond: Box<ExprV>, then: Seq<ExprV>, otherwise: Option<Box<ExprV>> },
    While { cond: Box<ExprV>, body: Seq<ExprV> },
    Func { param_count: nat, body: Seq<ExprV> },
}

/// An expression as a value.
pub struct ExprV {
    pub span: Span,
    pub kind: ExprKindV,
}

/// The value of an expression.
pub open spec fn expr_view(e: Expr) -> ExprV
    decreases e, 0nat,
{
    ExprV {
        span: e.span,
        kind: match e.kind {
            ExprKind::Literal(l) => ExprKindV::Literal(l@),
            ExprKind::Ident(s) => ExprKindV::Ident(s@),
            ExprKind::Binary { left, op, right } => ExprKindV::Binary {
                left: Box::new(expr_view(*left)),
                op,
                right: Box::new(expr_view(*right)),
            },
            ExprKind::Unary { op, right } => ExprKindV::Unary { op, right: Box::new(expr_view(*right)) },
            ExprKind::Call { callee, args } => ExprKindV::Call {
                callee: Box::new(expr_view(*callee)),
                args: exprs_view(args@),
            },
            ExprKind::Decl { value } => ExprKindV::Decl { value: Box::new(expr_view(*value)) },
            ExprKind::VarGet { depth, slot } => ExprKindV::VarGet { depth: depth as nat, slot: slot as nat },
            ExprKind::VarSet { value, depth, slot } => ExprKindV::VarSet {
                value: Box::new(expr_view(*value)),
                depth: depth as nat,
                slot: slot as nat,
            },
            ExprKind::Block(v) => ExprKindV::Block(exprs_view(v@)),
            ExprKind::If { cond, then, otherwise } => ExprKindV::If {
                cond: Box::new(expr_view(*cond)),
                then: exprs_view(then@),
                otherwise: match otherwise {
                    Some(o) => Some(Box::new(expr_view(*o))),
                    None => None,
                },
            },
            ExprKind::While { cond, body } => ExprKindV::While {
                cond: Box::new(expr_view(*cond)),
                body: exprs_view(body@),
            },
            ExprKind::Func { param_count, body } => ExprKindV::Func {
                param_count: param_count as nat,
                body: exprs_view(body@),
            },
        },
    }
}

/// The values of a sequence of expressions.
pub open spec fn exprs_view(s: Seq<Expr>) -> Seq<ExprV>
    decreases s, 1nat,
{
    if s.len() == 0 {
        seq![]
    } else {
        exprs_view(s.drop_last()).push(expr_view(s.last()))
    }
}

impl View for Expr {
    type V = ExprV;

    open spec fn view(&self) -> ExprV {
        expr_view(*self)
    }
}

pub proof fn lemma_exprs_view(s: Seq<Expr>)
    ensures
        exprs_view(s).len() == s.len(),
        forall|i: int| 0 <= i < s.len() ==> #[trigger] exprs_view(s)[i] == expr_view(s[i]),
    decreases s.len(),
{
    if s.len() > 0 {
        lemma_exprs_view(s.drop_last());
    }
}

/// `exprs_view` of a sequence extended by one expression.
pub proof fn lemma_exprs_view_push(s: Seq<Expr>, e: Expr)
    ensures
        exprs_view(s.push(e)) == exprs_view(s).push(expr_view(e)),
{
    assert(s.push(e).drop_last() =~= s);
}

/// A binary expression as a value, spanning both operands.
pub open spec fn binary_v(left: ExprV, op: BinaryOp, right: ExprV) -> ExprV {
    ExprV {
        span: joined(left.span, right.span),
        kind: ExprKindV::Binary { left: Box::new(left), op, right: Box::new(right) },
    }
}

/// A unary expression as a value, spanning the operator and the operand.
pub open spec fn unary_v(op: UnaryOp, op_span: Span, right: ExprV) -> ExprV {
    ExprV { span: joined(op_span, right.span), kind: ExprKindV::Unary { op, right: Box::new(right) } }
}

impl Expr {
    /// The binary expression `left op right`, spanning both operands.
    pub fn binary(left: Expr, operation: BinaryOp, right: Expr) -> (r: Self)
        ensures
            r@ == binary_v(left@, operation, right@),
    {
        Expr {
            span: left.span.join(right.span),
            kind: ExprKind::Binary { left: Box::new(left), op: operation, right: Box::new(right) },
        }
    }

    /// The unary expression `op right`, spanning the operator and the operand.
    pub fn unary(operation: UnaryOp, op_span: Span, right: Expr) -> (r: Self)
        ensures
            r@ == unary_v(operation, op_span, right@),
    {
        Expr { span: op_span.join(right.span), kind: ExprKind::Unary { op: operation, right: Box::new(right) } }
    }
}

/// A `for` loop as the expressions it stands for: the block
/// `{ init; while cond { { body }; update } }`, where the inner block spans
/// `body_span` and the rest spans `span`.
pub open spec fn for_v(init: ExprV, cond: ExprV, update: ExprV, body: Seq<ExprV>, body_span: Span, span: Span) -> ExprV {
    let inner = ExprV {
        kind: ExprKindV::While {
            cond: Box::new(cond),
            body: seq![ExprV { kind: ExprKindV::Block(body), span: body_span }, update],
        },
        span,
    };
    ExprV { kind: ExprKindV::Block(seq![init, inner]), span }
}

impl Expr {
    /// A literal at `span`.
    pub fn literal(val: Literal, span: Span) -> (r: Self)
        ensures
            r@ == (ExprV { span, kind: ExprKindV::Literal(val@) }),
    {
        Expr { span, kind: ExprKind::Literal(val) }
    }

    /// A name at `span` that no scope declares.
    pub fn ident(name: String, span: Span) -> (r: Self)
        ensures
            r@ == (ExprV { span, kind: ExprKindV::Ident(name@) }),
    {
        Expr { span, kind: ExprKind::Ident(name) }
    }

    /// A read of the variable in slot `slot` of the scope `depth` scopes out.
    pub fn var_get(depth: usize, slot: usize, span: Span) -> (r: Self)
        ensures
            r@ == (ExprV { span, kind: ExprKindV::VarGet { depth: depth as nat, slot: slot as nat } }),
    {
        Expr { span, kind: ExprKind::VarGet { depth, slot } }
    }

    /// An assignment of `value` to the variable in slot `slot` of the scope at `depth`.
    pub fn var_set(value: Expr, depth: usize, slot: usize, span: Span) -> (r: Self)
        ensures
            r@ == (ExprV {
                span,
                kind: ExprKindV::VarSet { value: Box::new(value@), depth: depth as nat, slot: slot as nat },
            }),
    {
        Expr { span, kind: ExprKind::VarSet { value: Box::new(value), depth, slot } }
    }

    /// A declaration with initial value `value`.
    pub fn decl(value: Expr, span: Span) -> (r: Self)
        ensures
            r@ == (ExprV { span, kind: ExprKindV::Decl { value: Box::new(value@) } }),
    {
        Expr { span, kind: ExprKind::Decl { value: Box::new(value) } }
    }

    /// A call of `callee` with `args`.
    pub fn call(callee: Expr, args: Vec<Expr>, span: Span) -> (r: Self)
        ensures
            r@ == (ExprV { span, kind: ExprKindV::Call { callee: Box::new(callee@), args: exprs_view(args@) } }),
    {
        Expr { span, kind: ExprKind::Call { callee: Box::new(callee), args } }
    }

    /// A block of `body`.
    pub fn block(body: Vec<Expr>, span: Span) -> (r: Self)
        ensures
            r@ == (ExprV { span, kind: ExprKindV::Block(exprs_view(body@)) }),
    {
        Expr { span, kind: ExprKind::Block(body) }
    }

    /// An `if` without `otherwise`.
    pub fn if_then(cond: Expr, then: Vec<Expr>, span: Span) -> (r: Self)
        ensures
            r@ == (ExprV {
                span,
                kind: ExprKindV::If { cond: Box::new(cond@), then: exprs_view(then@), otherwise: None },
            }),
    {
        Expr { span, kind: ExprKind::If { cond: Box::new(cond), then, otherwise: None } }
    }

    /// An `if` with `otherwise`.
    pub fn if_then_otherwise(cond: Expr, then: Vec<Expr>, otherwise: Expr, span: Span) -> (r: Self)
        ensures
            r@ == (ExprV {
                span,
                kind: ExprKindV::If {
                    cond: Box::new(cond@),
                    then: exprs_view(then@),
                    otherwise: Some(Box::new(otherwise@)),
                },
            }),
    {
        Expr { span, kind: ExprKind::If { cond: Box::new(cond), then, otherwise: Some(Box::new(otherwise)) } }
    }

    /// A `while` loop.
    pub fn while_loop(cond: Expr, body: Vec<Expr>, span: Span) -> (r: Self)
        ensures
            r@ == (ExprV { span, kind: ExprKindV::While { cond: Box::new(cond@), body: exprs_view(body@) } }),
    {
        Expr { span, kind: ExprKind::While { cond: Box::new(cond), body } }
    }

    /// A function with `param_count` parameters and `body`.
    pub fn func(param_count: usize, body: Vec<Expr>, span: Span) -> (r: Self)
        ensures
            r@ == (ExprV {
                span,
                kind: ExprKindV::Func { param_count: param_count as nat, body: exprs_view(body@) },
            }),
    {
        Expr { span, kind: ExprKind::Func { param_count, body } }
    }

    /// A `for` loop; see [`for_v`].
    pub fn for_loop(init: Expr, cond: Expr, update: Expr, body: Vec<Expr>, body_span: Span, span: Span) -> (r: Self)
        ensures
            r@ == for_v(init@, cond@, update@, exprs_view(body@), body_span, span),
    {
        let body_block = Expr::block(body, body_span);
        let mut while_body: Vec<Expr> = Vec::new();
        proof {
            lemma_exprs_view_empty(while_body@);
            lemma_exprs_view_push(while_body@, body_block);
        }
        while_body.push(body_block);
        proof {
            lemma_exprs_view_push(while_body@, update);
        }
        while_body.push(update);
        assert(exprs_view(while_body@) =~= seq![body_block@, update@]);
        let inner = Expr::while_loop(cond, while_body, span);
        let mut outer: Vec<Expr> = Vec::new();
        proof {
            lemma_exprs_view_empty(outer@);
            lemma_exprs_view_push(outer@, init);
        }
        outer.push(init);
        proof {
            lemma_exprs_view_push(outer@, inner);
        }
        outer.push(inner);
        assert(exprs_view(outer@) =~= seq![init@, inner@]);
        Expr::block(outer, span)
    }

    /// A copy of this expression.
    pub fn duplicate(&self) -> (r: Expr)
        ensures
            r@ == self@,
        decreases self,
    {
        let kind = match &self.kind {
            ExprKind::Literal(l) => ExprKind::Literal(l.duplicate()),
            ExprKind::Ident(s) => ExprKind::Ident(s.clone()),
            ExprKind::Binary { left, op, right } => ExprKind::Binary {
                left: Box::new(left.duplicate()),
                op: *op,
                right: Box::new(right.duplicate()),
            },
            ExprKind::Unary { op, right } => ExprKind::Unary { op: *op, right: Box::new(right.duplicate()) },
            ExprKind::Call { callee, args } => {
                proof {
                    assert forall|i: int| 0 <= i < args@.len() implies decreases_to!(*self => args@[i]) by {}
                }
                ExprKind::Call { callee: Box::new(callee.duplicate()), args: Expr::duplicate_all(args, Ghost(*self)) }
            },
            ExprKind::Decl { value } => ExprKind::Decl { value: Box::new(value.duplicate()) },
            ExprKind::VarGet { depth, slot } => ExprKind::VarGet { depth: *depth, slot: *slot },
            ExprKind::VarSet { value, depth, slot } => ExprKind::VarSet {
                value: Box::new(value.duplicate()),
                depth: *depth,
                slot: *slot,
            },
            ExprKind::Block(v) => {
                proof {
                    assert forall|i: int| 0 <= i < v@.len() implies decreases_to!(*self => v@[i]) by {}
                }
                ExprKind::Block(Expr::duplicate_all(v, Ghost(*self)))
            },
            ExprKind::If { cond, then, otherwise } => {
                proof {
                    assert forall|i: int| 0 <= i < then@.len() implies decreases_to!(*self => then@[i]) by {}
                }
                let t = Expr::duplicate_all(then, Ghost(*self));
                let o = match otherwise {
                    Some(o) => Some(Box::new(o.duplicate())),
                    None => None,
                };
                ExprKind::If { cond: Box::new(cond.duplicate()), then: t, otherwise: o }
            },
            ExprKind::While { cond, body } => {
                proof {
                    assert forall|i: int| 0 <= i < body@.len() implies decreases_to!(*self => body@[i]) by {}
                }
                ExprKind::While { cond: Box::new(cond.duplicate()), body: Expr::duplicate_all(body, Ghost(*self)) }
            },
            ExprKind::Func { param_count, body } => {
                proof {
                    assert forall|i: int| 0 <= i < body@.len() implies decreases_to!(*self => body@[i]) by {}
                }
                ExprKind::Func { param_count: *param_count, body: Expr::duplicate_all(body, Ghost(*self)) }
            },
        };
        let r = Expr { span: self.span, kind };
        r
    }

    /// Copies of the expressions in `v`, each smaller than `whole`.
    fn duplicate_all(v: &Vec<Expr>, Ghost(whole): Ghost<Expr>) -> (r: Vec<Expr>)
        requires
            forall|i: int| 0 <= i < v@.len() ==> decreases_to!(whole => #[trigger] v@[i]),
        ensures
            exprs_view(r@) == exprs_view(v@),
        decreases whole, 0nat,
    {
        let mut out: Vec<Expr> = Vec::new();
        let mut i: usize = 0;
        proof {
            lemma_exprs_view_empty(out@);
        }
        assert(v@.take(0) =~= Seq::<Expr>::empty());
        while i < v.len()
            invariant
                i <= v@.len(),
                exprs_view(out@) == exprs_view(v@.take(i as int)),
                forall|j: int| 0 <= j < v@.len() ==> decreases_to!(whole => #[trigger] v@[j]),
            decreases v@.len() - i,
        {
            let e = v[i].duplicate();
            proof {
                lemma_exprs_view_push(out@, e);
                lemma_exprs_view_push(v@.take(i as int), v@[i as int]);
                assert(v@.take(i + 1) =~= v@.take(i as int).push(v@[i as int]));
            }
            out.push(e);
            i = i + 1;
        }
        assert(v@.take(v@.len() as int) =~= v@);
        out
    }

    /// `e` with its span replaced by `span`.
    pub fn with_span(e: Expr, span: Span) -> (r: Self)
        ensures
            r@ == (ExprV { span, kind: e@.kind }),
    {
        Expr { span, kind: e.kind }
    }
}

/// The values of no expressions.
pub proof fn lemma_exprs_view_empty(s: Seq<Expr>)
    requires
        s.len() == 0,
    ensures
        exprs_view(s) == Seq::<ExprV>::empty(),
{
}

/// A static type.
#[derive(Debug, PartialEq, Eq)]
pub enum Typ {
    Any,
    Number,
    String,
    Null,
    Function { params: Vec<Typ>, ret: Box<Typ> },
    Bool,
}

/// A static type as a value.
pub enum TypV {
    Any,
    Number,
    String,
    Null,
    Function { params: Seq<TypV>, ret: Box<TypV> },
    Bool,
}

/// The value of a type.
pub open spec fn typ_view(t: Typ) -> TypV
    decreases t, 0nat,
{
    match t {
        Typ::Any => TypV::Any,
        Typ::Number => TypV::Number,
        Typ::String => TypV::String,
        Typ::Null => TypV::Null,
        Typ::Function { params, ret } => TypV::Function { params: typs_view(params@), ret: Box::new(typ_view(*ret)) },
        Typ::Bool => TypV::Bool,
    }
}

/// The values of a sequence of types.
pub open spec fn typs_view(s: Seq<Typ>) -> Seq<TypV>
    decreases s, 1nat,
{
    if s.len() == 0 {
        seq![]
    } else {
        typs_view(s.drop_last()).push(typ_view(s.last()))
    }
}

impl View for Typ {
    type V = TypV;

    open spec fn view(&self) -> TypV {
        typ_view(*self)
    }
}

/// The value of a function type.
pub proof fn lemma_typ_view_function(t: Typ)
    ensures
        t matches Typ::Function { params, ret } ==> typ_view(t) == (TypV::Function {
            params: typs_view(params@),
            ret: Box::new(typ_view(*ret)),
        }),
{
}

pub proof fn lemma_typs_view(s: Seq<Typ>)
    ensures
        typs_view(s).len() == s.len(),
        forall|i: int| 0 <= i < s.len() ==> #[trigger] typs_view(s)[i] == typ_view(s[i]),
    decreases s.len(),
{
    if s.len() > 0 {
        lemma_typs_view(s.drop_last());
    }
}

/// `typs_view` of a sequence extended by one type.
pub proof fn lemma_typs_view_push(s: Seq<Typ>, t: Typ)
    ensures
        typs_view(s.push(t)) == typs_view(s).push(typ_view(t)),
{
    assert(s.push(t).drop_last() =~= s);
}

/// A value of type `from` may stand where a value of type `into` is expected:
/// either is `any`, or they are the same type.
pub open spec fn can_coerce(from: TypV, into: TypV) -> bool {
    from == TypV::Any || into == TypV::Any || from == into
}

impl Typ {
    /// Whether `self` and `other` are the same type.
    pub fn same(&self, other: &Typ) -> (r: bool)
        ensures
            r == (self@ == other@),
        decreases self,
    {
        match self {
            Typ::Function { params: p1, ret: r1 } => {
                match other {
                    Typ::Function { params: p2, ret: r2 } => {
                        proof {
                            lemma_typs_view(p1@);
                            lemma_typs_view(p2@);
                        }
                        if p1.len() != p2.len() {
                            return false;
                        }
                        let mut i: usize = 0;
                        #[verifier::loop_isolation(false)]
                        while i < p1.len()
                            invariant
                                p1@.len() == p2@.len(),
                                i <= p1@.len(),
                                typs_view(p1@).len() == p1@.len(),
                                typs_view(p2@).len() == p2@.len(),
                                forall|j: int| 0 <= j < p1@.len() ==> #[trigger] typs_view(p1@)[j] == typ_view(p1@[j]),
                                forall|j: int| 0 <= j < p2@.len() ==> #[trigger] typs_view(p2@)[j] == typ_view(p2@[j]),
                                forall|j: int| 0 <= j < i ==> typ_view(#[trigger] p1@[j]) == typ_view(p2@[j]),
                            decreases p1@.len() - i,
                        {
                            proof {
                                assert(decreases_to!(*self => p1@[i as int]));
                            }
                            if !p1[i].same(&p2[i]) {
                                assert(typs_view(p1@)[i as int] != typs_view(p2@)[i as int]);
                                return false;
                            }
                            i = i + 1;
                        }
                        assert(typs_view(p1@) =~= typs_view(p2@));
                        r1.same(r2)
                    },
                    _ => false,
                }
            },
            Typ::Any => matches!(other, Typ::Any),
            Typ::Number => matches!(other, Typ::Number),
            Typ::String => matches!(other, Typ::String),
            Typ::Null => matches!(other, Typ::Null),
            Typ::Bool => matches!(other, Typ::Bool),
        }
    }

    /// A copy of `self`.
    pub fn duplicate(&self) -> (r: Typ)
        ensures
            r@ == self@,
        decreases self,
    {
        match self {
            Typ::Any => Typ::Any,
            Typ::Number => Typ::Number,
            Typ::String => Typ::String,
            Typ::Null => Typ::Null,
            Typ::Bool => Typ::Bool,
            Typ::Function { params, ret } => {
                let mut ps: Vec<Typ> = Vec::new();
                let mut i: usize = 0;
                #[verifier::loop_isolation(false)]
                while i < params.len()
                    invariant
                        i <= params@.len(),
                        typs_view(ps@) == typs_view(params@.take(i as int)),
                    decreases params@.len() - i,
                {
                    proof {
                        assert(decreases_to!(*self => params@[i as int]));
                    }
                    let t = params[i].duplicate();
                    let ghost before = ps@;
                    ps.push(t);
                    assert(ps@.drop_last() =~= before);
                    assert(params@.take(i + 1).drop_last() =~= params@.take(i as int));
                    i = i + 1;
                }
                assert(params@.take(params@.len() as int) =~= params@);
                Typ::Function { params: ps, ret: Box::new(ret.duplicate()) }
            },
        }
    }

    /// Whether a value of this type may stand where `into` is expected; see [`can_coerce`].
    pub fn can_coerce(&self, into: &Self) -> (r: bool)
        ensures
            r == can_coerce(self@, into@),
    {
        matches!(self, Typ::Any) || matches!(into, Typ::Any) || self.same(into)
    }
}

/// The name of a type as messages write it; every function type is `fn`.
pub open spec fn typ_text(t: TypV) -> Seq<char> {
    match t {
        TypV::String => "string"@,
        TypV::Number => "number"@,
        TypV::Any => "any"@,
        TypV::Null => "null"@,
        TypV::Function { .. } => "fn"@,
        TypV::Bool => "bool"@,
    }
}

impl Typ {
    /// The name of this type; see [`typ_text`].
    pub fn text(&self) -> (r: &'static str)
        ensures
            r@ == typ_text(self@),
    {
        match self {
            Typ::String => "string",
            Typ::Number => "number",
            Typ::Any => "any",
            Typ::Null => "null",
            Typ::Function { .. } => {
                proof {
                    lemma_typ_view_function(*self);
                }
                "fn"
            },
            Typ::Bool => "bool",
        }
    }
}

/// A scope as a value: the names declared in it, in order, and their types.
pub struct FrameV {
    pub names: Seq<Seq<char>>,
    pub typs: Seq<TypV>,
}

/// The slot of the latest declaration of `key` among `names`.
pub open spec fn last_index(names: Seq<Seq<char>>, key: Seq<char>) -> Option<nat>
    decreases names.len(),
{
    if names.len() == 0 {
        None
    } else if names.last() == key {
        Some((names.len() - 1) as nat)
    } else {
        last_index(names.drop_last(), key)
    }
}

/// The slot that [`last_index`] finds holds `key`, and no later slot does; when it
/// finds none, no slot holds `key`.
pub proof fn lemma_last_index(names: Seq<Seq<char>>, key: Seq<char>)
    ensures
        last_index(names, key) matches Some(i) ==> i < names.len() && names[i as int] == key
            && forall|k: int| i < k < names.len() ==> #[trigger] names[k] != key,
        last_index(names, key) is None ==> forall|k: int| 0 <= k < names.len() ==> #[trigger] names[k] != key,
    decreases names.len(),
{
    if names.len() > 0 {
        lemma_last_index(names.drop_last(), key);
        assert forall|k: int| 0 <= k < names.len() - 1 implies names.drop_last()[k] == #[trigger] names[k] by {}
    }
}

/// The scope `f` with `name` declared in it at type `t`, in the next slot.
pub open spec fn frame_insert(f: FrameV, name: Seq<char>, t: TypV) -> FrameV {
    FrameV { names: f.names.push(name), typs: f.typs.push(t) }
}

/// An empty scope.
pub open spec fn empty_frame() -> FrameV {
    FrameV { names: seq![], typs: seq![] }
}

/// One scope of the parser's environment: the variables declared in it, each in
/// its own slot, numbered from zero in order of declaration.
#[derive(Debug)]
pub struct EnvStackFrame {
    entries: Vec<(String, Typ)>,
}

impl View for EnvStackFrame {
    type V = FrameV;

    closed spec fn view(&self) -> FrameV {
        FrameV {
            names: self.entries@.map_values(|e: (String, Typ)| e.0@),
            typs: self.entries@.map_values(|e: (String, Typ)| e.1@),
        }
    }
}

impl EnvStackFrame {
    /// An empty scope.
    pub fn new() -> (r: Self)
        ensures
            r@ == empty_frame(),
    {
        let r = EnvStackFrame { entries: Vec::new() };
        assert(r@.names =~= Seq::<Seq<char>>::empty());
        assert(r@.typs =~= Seq::<TypV>::empty());
        r
    }

    /// Every scope has as many types as names.
    pub fn slots(&self) -> (r: usize)
        ensures
            r == self@.names.len(),
            r == self@.typs.len(),
    {
        self.entries.len()
    }

    /// Declares `name` at type `typ` in the next slot.
    pub fn insert(&mut self, name: String, typ: Typ)
        ensures
            final(self)@ == frame_insert(old(self)@, name@, typ@),
    {
        self.entries.push((name, typ));
        assert(final(self)@.names =~= old(self)@.names.push(name@));
        assert(final(self)@.typs =~= old(self)@.typs.push(typ@));
    }

    /// The slot of the latest declaration of `key`, if any.
    pub fn get(&self, key: &str) -> (r: Option<usize>)
        ensures
            match r {
                None => last_index(self@.names, key@) is None,
                Some(i) => last_index(self@.names, key@) == Some(i as nat) && i < self@.typs.len(),
            },
    {
        let ghost names = self@.names;
        let mut i = self.entries.len();
        assert(names.take(names.len() as int) =~= names);
        while i > 0
            invariant
                i <= self.entries@.len(),
                names == self@.names,
                last_index(names, key@) == last_index(names.take(i as int), key@),
            decreases i,
        {
            let ghost pre = names.take(i as int);
            assert(pre.drop_last() =~= names.take(i - 1));
            if str_eq(self.entries[i - 1].0.as_str(), key) {
                return Some(i - 1);
            }
            i = i - 1;
        }
        None
    }

    /// The type declared in slot `slot`.
    pub fn typ_at(&self, slot: usize) -> (r: &Typ)
        requires
            slot < self@.typs.len(),
        ensures
            r@ == self@.typs[slot as int],
    {
        &self.entries[slot].1
    }
}


/// A value of any type may stand where a value of the same type is expected;
/// coercion holds both ways or neither; and `any` coerces to and from every type.
pub proof fn law_coercion(a: TypV, b: TypV)
    ensures
        can_coerce(a, a),
        can_coerce(a, b) == can_coerce(b, a),
        can_coerce(a, TypV::Any),
        can_coerce(TypV::Any, a),
{
}

/// After `name` is declared in a scope, looking it up finds the new slot, which
/// holds the declared type; every other name is found where it was before.
pub proof fn law_frame_get_after_insert(f: FrameV, name: Seq<char>, t: TypV, other: Seq<char>)
    requires
        f.names.len() == f.typs.len(),
    ensures
        last_index(frame_insert(f, name, t).names, name) == Some(f.names.len()),
        frame_insert(f, name, t).typs[f.names.len() as int] == t,
        other != name ==> last_index(frame_insert(f, name, t).names, other) == last_index(f.names, other),
{
    assert(frame_insert(f, name, t).names.drop_last() =~= f.names);
}

} // verus!
