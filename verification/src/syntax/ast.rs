//! The abstract syntax tree, and its mathematical view.
//!
//! Each tree type that holds text or lists has a view in which `String`
//! becomes `Seq<char>` and `Vec<T>` becomes a `Seq` of the views of its items.

use vstd::prelude::*;
use crate::syntax::token::Span;
use crate::text::{push_char, push_str, string_of};

verus! {

/// Value types of the language.
#[derive(Debug)]
pub enum Type {
    I32,
    I64,
    U32,
    U64,
    F32,
    F64,
    Bool,
    String,
    Void,
    Option(Box<Type>),
    Result(Box<Type>, Box<Type>),
    Custom(String),
}

/// The view of a type: a custom type's name as its text.
pub enum TypeV {
    I32,
    I64,
    U32,
    U64,
    F32,
    F64,
    Bool,
    String,
    Void,
    Option(Box<TypeV>),
    Result(Box<TypeV>, Box<TypeV>),
    Custom(Seq<char>),
}

/// The view of a type.
pub open spec fn type_view(t: Type) -> TypeV
    decreases t,
{
    match t {
        Type::I32 => TypeV::I32,
        Type::I64 => TypeV::I64,
        Type::U32 => TypeV::U32,
        Type::U64 => TypeV::U64,
        Type::F32 => TypeV::F32,
        Type::F64 => TypeV::F64,
        Type::Bool => TypeV::Bool,
        Type::String => TypeV::String,
        Type::Void => TypeV::Void,
        Type::Option(inner) => TypeV::Option(Box::new(type_view(*inner))),
        Type::Result(ok, err) => TypeV::Result(Box::new(type_view(*ok)), Box::new(type_view(*err))),
        Type::Custom(name) => TypeV::Custom(name@),
    }
}

impl View for Type {
    type V = TypeV;

    open spec fn view(&self) -> TypeV {
        type_view(*self)
    }
}

/// The view of an optional type.
pub open spec fn opt_type_view(t: Option<Type>) -> Option<TypeV> {
    match t {
        Some(x) => Some(x@),
        None => None,
    }
}

/// Two types are the same type (custom names compared by their text).
pub open spec fn type_eq(a: Type, b: Type) -> bool
    decreases a,
{
    match a {
        Type::Option(x) => match b {
            Type::Option(y) => type_eq(*x, *y),
            _ => false,
        },
        Type::Result(x1, x2) => match b {
            Type::Result(y1, y2) => type_eq(*x1, *y1) && type_eq(*x2, *y2),
            _ => false,
        },
        Type::Custom(x) => match b {
            Type::Custom(y) => x@ == y@,
            _ => false,
        },
        Type::I32 => b is I32,
        Type::I64 => b is I64,
        Type::U32 => b is U32,
        Type::U64 => b is U64,
        Type::F32 => b is F32,
        Type::F64 => b is F64,
        Type::Bool => b is Bool,
        Type::String => b is String,
        Type::Void => b is Void,
    }
}

/// The text by which a type is written in source.
pub open spec fn type_text(t: Type) -> Seq<char>
    decreases t,
{
    match t {
        Type::I32 => "i32"@,
        Type::I64 => "i64"@,
        Type::U32 => "u32"@,
        Type::U64 => "u64"@,
        Type::F32 => "f32"@,
        Type::F64 => "f64"@,
        Type::Bool => "bool"@,
        Type::String => "string"@,
        Type::Void => "void"@,
        Type::Option(inner) => "Option<"@ + type_text(*inner) + seq!['>'],
        Type::Result(ok, err) => "Result<"@ + type_text(*ok) + ", "@ + type_text(*err) + seq!['>'],
        Type::Custom(name) => name@,
    }
}

impl Clone for Type {
    fn clone(&self) -> (r: Self)
        ensures
            r == *self,
        decreases self,
    {
        match self {
            Type::I32 => Type::I32,
            Type::I64 => Type::I64,
            Type::U32 => Type::U32,
            Type::U64 => Type::U64,
            Type::F32 => Type::F32,
            Type::F64 => Type::F64,
            Type::Bool => Type::Bool,
            Type::String => Type::String,
            Type::Void => Type::Void,
            Type::Option(inner) => Type::Option(Box::new((**inner).clone())),
            Type::Result(ok, err) => Type::Result(Box::new((**ok).clone()), Box::new((**err).clone())),
            Type::Custom(name) => Type::Custom(name.clone()),
        }
    }
}

impl PartialEq for Type {
    fn eq(&self, other: &Self) -> (r: bool)
        decreases self,
    {
        match (self, other) {
            (Type::Option(x), Type::Option(y)) => (**x).eq(&**y),
            (Type::Result(x1, x2), Type::Result(y1, y2)) => (**x1).eq(&**y1) && (**x2).eq(&**y2),
            (Type::Custom(x), Type::Custom(y)) => *x == *y,
            (Type::I32, Type::I32) => true,
            (Type::I64, Type::I64) => true,
            (Type::U32, Type::U32) => true,
            (Type::U64, Type::U64) => true,
            (Type::F32, Type::F32) => true,
            (Type::F64, Type::F64) => true,
            (Type::Bool, Type::Bool) => true,
            (Type::String, Type::String) => true,
            (Type::Void, Type::Void) => true,
            _ => false,
        }
    }
}

impl vstd::std_specs::cmp::PartialEqSpecImpl for Type {
    open spec fn obeys_eq_spec() -> bool {
        true
    }

    open spec fn eq_spec(&self, other: &Type) -> bool {
        type_eq(*self, *other)
    }
}

impl Type {
    /// The text by which this type is written in source.
    pub fn to_text(&self) -> (r: String)
        ensures
            r@ == type_text(*self),
        decreases self,
    {
        match self {
            Type::I32 => string_of("i32"),
            Type::I64 => string_of("i64"),
            Type::U32 => string_of("u32"),
            Type::U64 => string_of("u64"),
            Type::F32 => string_of("f32"),
            Type::F64 => string_of("f64"),
            Type::Bool => string_of("bool"),
            Type::String => string_of("string"),
            Type::Void => string_of("void"),
            Type::Option(inner) => {
                let mut r = string_of("Option<");
                let t = (**inner).to_text();
                push_str(&mut r, t.as_str());
                push_char(&mut r, '>');
                r
            },
            Type::Result(ok, err) => {
                let mut r = string_of("Result<");
                let t1 = (**ok).to_text();
                push_str(&mut r, t1.as_str());
                push_str(&mut r, ", ");
                let t2 = (**err).to_text();
                push_str(&mut r, t2.as_str());
                push_char(&mut r, '>');
                r
            },
            Type::Custom(name) => name.clone(),
        }
    }
}

/// Binary operators.
#[derive(Debug, Clone, Copy, PartialEq, Eq, Structural)]
pub enum BinaryOp {
    Add,
    Sub,
    Mul,
    Div,
    Mod,
    Eq,
    NotEq,
    Lt,
    LtEq,
    Gt,
    GtEq,
    And,
    Or,
}

/// Unary operators.
#[derive(Debug, Clone, Copy, PartialEq, Eq, Structural)]
pub enum UnaryOp {
    Neg,
    Not,
}

/// Compound assignment operators.
#[derive(Debug, Clone, Copy, PartialEq, Eq, Structural)]
pub enum AssignOperator {
    AddEq,
    SubEq,
    MulEq,
    DivEq,
}

/// Expressions. A float literal keeps its decimal text.
#[derive(Debug)]
pub enum Expr {
    IntLit(i64, Span),
    FloatLit(String, Span),
    StringLit(String, Span),
    BoolLit(bool, Span),
    Ident(String, Span),
    Binary { op: BinaryOp, left: Box<Expr>, right: Box<Expr>, span: Span },
    Unary { op: UnaryOp, expr: Box<Expr>, span: Span },
    Call { callee: String, args: Vec<Expr>, span: Span },
    MemberAccess { object: Box<Expr>, member: String, span: Span },
}

/// The view of an expression.
pub enum ExprV {
    IntLit(i64, Span),
    FloatLit(Seq<char>, Span),
    StringLit(Seq<char>, Span),
    BoolLit(bool, Span),
    Ident(Seq<char>, Span),
    Binary { op: BinaryOp, left: Box<ExprV>, right: Box<ExprV>, span: Span },
    Unary { op: UnaryOp, expr: Box<ExprV>, span: Span },
    Call { callee: Seq<char>, args: Seq<ExprV>, span: Span },
    MemberAccess { object: Box<ExprV>, member: Seq<char>, span: Span },
}

pub open spec fn expr_view(e: Expr) -> ExprV
    decreases e,
{
    match e {
        Expr::IntLit(n, s) => ExprV::IntLit(n, s),
        Expr::FloatLit(t, s) => ExprV::FloatLit(t@, s),
        Expr::StringLit(t, s) => ExprV::StringLit(t@, s),
        Expr::BoolLit(b, s) => ExprV::BoolLit(b, s),
        Expr::Ident(t, s) => ExprV::Ident(t@, s),
        Expr::Binary { op, left, right, span } => ExprV::Binary {
            op,
            left: Box::new(expr_view(*left)),
            right: Box::new(expr_view(*right)),
            span,
        },
        Expr::Unary { op, expr, span } => ExprV::Unary { op, expr: Box::new(expr_view(*expr)), span },
        Expr::Call { callee, args, span } => ExprV::Call {
            callee: callee@,
            args: Seq::new(
                args@.len(),
                |i: int|
                    if 0 <= i < args@.len() {
                        expr_view(args@[i])
                    } else {
                        ExprV::BoolLit(false, span)
                    },
            ),
            span,
        },
        Expr::MemberAccess { object, member, span } => ExprV::MemberAccess {
            object: Box::new(expr_view(*object)),
            member: member@,
            span,
        },
    }
}

impl View for Expr {
    type V = ExprV;

    open spec fn view(&self) -> ExprV {
        expr_view(*self)
    }
}

/// The views of a list of expressions.
pub open spec fn exprs_view(v: Seq<Expr>) -> Seq<ExprV> {
    Seq::new(v.len(), |i: int| v[i]@)
}

/// The span of an expression.
pub open spec fn span_of(e: ExprV) -> Span {
    match e {
        ExprV::IntLit(_, s) => s,
        ExprV::FloatLit(_, s) => s,
        ExprV::StringLit(_, s) => s,
        ExprV::BoolLit(_, s) => s,
        ExprV::Ident(_, s) => s,
        ExprV::Binary { span, .. } => span,
        ExprV::Unary { span, .. } => span,
        ExprV::Call { span, .. } => span,
        ExprV::MemberAccess { span, .. } => span,
    }
}

/// Copies a list of expressions.
pub fn clone_exprs(v: &Vec<Expr>) -> (r: Vec<Expr>)
    ensures
        r@.len() == v@.len(),
        forall|j: int| 0 <= j < v@.len() ==> (#[trigger] r@[j])@ == v@[j]@,
        exprs_view(r@) == exprs_view(v@),
    decreases v,
{
    let mut r: Vec<Expr> = Vec::new();
    let mut i: usize = 0;
    while i < v.len()
        invariant
            i <= v@.len(),
            r@.len() == i,
            forall|j: int| 0 <= j < i ==> (#[trigger] r@[j])@ == v@[j]@,
        decreases v@.len() - i,
    {
        proof {
            assert(decreases_to!(v => v@[i as int]));
        }
        r.push(v[i].clone());
        i += 1;
    }
    assert(exprs_view(r@) =~= exprs_view(v@));
    r
}

impl Clone for Expr {
    fn clone(&self) -> (r: Self)
        ensures
            r@ == self@,
        decreases self,
    {
        match self {
            Expr::IntLit(n, s) => Expr::IntLit(*n, *s),
            Expr::FloatLit(t, s) => Expr::FloatLit(t.clone(), *s),
            Expr::StringLit(t, s) => Expr::StringLit(t.clone(), *s),
            Expr::BoolLit(b, s) => Expr::BoolLit(*b, *s),
            Expr::Ident(t, s) => Expr::Ident(t.clone(), *s),
            Expr::Binary { op, left, right, span } => Expr::Binary {
                op: *op,
                left: Box::new((**left).clone()),
                right: Box::new((**right).clone()),
                span: *span,
            },
            Expr::Unary { op, expr, span } => Expr::Unary {
                op: *op,
                expr: Box::new((**expr).clone()),
                span: *span,
            },
            Expr::Call { callee, args, span } => {
                let a = clone_exprs(args);
                let r = Expr::Call { callee: callee.clone(), args: a, span: *span };
                proof {
                    assert(r@->args =~= self@->args) by {
                        assert forall|j: int| 0 <= j < a@.len() implies r@->args[j] == self@->args[j] by {
                            assert(a@[j]@ == args@[j]@);
                        }
                    }
                }
                r
            },
            Expr::MemberAccess { object, member, span } => Expr::MemberAccess {
                object: Box::new((**object).clone()),
                member: member.clone(),
                span: *span,
            },
        }
    }
}

impl Expr {
    /// The span of this expression.
    pub fn span(&self) -> (s: Span)
        ensures
            s == span_of(self@),
    {
        match self {
            Expr::IntLit(_, s) => *s,
            Expr::FloatLit(_, s) => *s,
            Expr::StringLit(_, s) => *s,
            Expr::BoolLit(_, s) => *s,
            Expr::Ident(_, s) => *s,
            Expr::Binary { span, .. } => *span,
            Expr::Unary { span, .. } => *span,
            Expr::Call { span, .. } => *span,
            Expr::MemberAccess { span, .. } => *span,
        }
    }
}

/// Copies an optional type.
pub fn clone_opt_type(t: &Option<Type>) -> (r: Option<Type>)
    ensures
        r == *t,
{
    match t {
        Some(x) => Some(x.clone()),
        None => None,
    }
}

/// Copies an optional expression.
pub fn clone_opt_expr(e: &Option<Expr>) -> (r: Option<Expr>)
    ensures
        opt_expr_view(r) == opt_expr_view(*e),
{
    match e {
        Some(x) => Some(x.clone()),
        None => None,
    }
}

/// The view of an optional expression.
pub open spec fn opt_expr_view(e: Option<Expr>) -> Option<ExprV> {
    match e {
        Some(x) => Some(x@),
        None => None,
    }
}

/// Statements of a method body.
#[derive(Debug)]
pub enum Stmt {
    Let { name: String, type_ann: Option<Type>, is_mut: bool, init: Expr, span: Span },
    Assign { target: String, value: Expr, span: Span },
    AssignOp { target: String, op: AssignOperator, value: Expr, span: Span },
    Expr(Expr),
    If { cond: Expr, then_branch: Vec<Stmt>, else_branch: Option<Vec<Stmt>>, span: Span },
    Return(Option<Expr>, Span),
}

/// The view of a statement.
pub enum StmtV {
    Let { name: Seq<char>, type_ann: Option<TypeV>, is_mut: bool, init: ExprV, span: Span },
    Assign { target: Seq<char>, value: ExprV, span: Span },
    AssignOp { target: Seq<char>, op: AssignOperator, value: ExprV, span: Span },
    Expr(ExprV),
    If { cond: ExprV, then_branch: Seq<StmtV>, else_branch: Option<Seq<StmtV>>, span: Span },
    Return(Option<ExprV>, Span),
}

pub open spec fn stmt_view(st: Stmt) -> StmtV
    decreases st,
{
    match st {
        Stmt::Let { name, type_ann, is_mut, init, span } => StmtV::Let {
            name: name@,
            type_ann: opt_type_view(type_ann),
            is_mut,
            init: init@,
            span,
        },
        Stmt::Assign { target, value, span } => StmtV::Assign { target: target@, value: value@, span },
        Stmt::AssignOp { target, op, value, span } => StmtV::AssignOp {
            target: target@,
            op,
            value: value@,
            span,
        },
        Stmt::Expr(e) => StmtV::Expr(e@),
        Stmt::If { cond, then_branch, else_branch, span } => StmtV::If {
            cond: cond@,
            then_branch: Seq::new(
                then_branch@.len(),
                |i: int|
                    if 0 <= i < then_branch@.len() {
                        stmt_view(then_branch@[i])
                    } else {
                        StmtV::Return(None, span)
                    },
            ),
            else_branch: match else_branch {
                Some(b) => Some(
                    Seq::new(
                        b@.len(),
                        |i: int|
                            if 0 <= i < b@.len() {
                                stmt_view(b@[i])
                            } else {
                                StmtV::Return(None, span)
                            },
                    ),
                ),
                None => None,
            },
            span,
        },
        Stmt::Return(e, span) => StmtV::Return(opt_expr_view(e), span),
    }
}

impl View for Stmt {
    type V = StmtV;

    open spec fn view(&self) -> StmtV {
        stmt_view(*self)
    }
}

/// The views of a list of statements.
pub open spec fn stmts_view(v: Seq<Stmt>) -> Seq<StmtV> {
    Seq::new(v.len(), |i: int| v[i]@)
}

/// Copies a list of statements.
pub fn clone_stmts(v: &Vec<Stmt>) -> (r: Vec<Stmt>)
    ensures
        r@.len() == v@.len(),
        forall|j: int| 0 <= j < v@.len() ==> (#[trigger] r@[j])@ == v@[j]@,
        stmts_view(r@) == stmts_view(v@),
    decreases v,
{
    let mut r: Vec<Stmt> = Vec::new();
    let mut i: usize = 0;
    while i < v.len()
        invariant
            i <= v@.len(),
            r@.len() == i,
            forall|j: int| 0 <= j < i ==> (#[trigger] r@[j])@ == v@[j]@,
        decreases v@.len() - i,
    {
        proof {
            assert(decreases_to!(v => v@[i as int]));
        }
        r.push(v[i].clone());
        i += 1;
    }
    assert(stmts_view(r@) =~= stmts_view(v@));
    r
}

impl Clone for Stmt {
    fn clone(&self) -> (r: Self)
        ensures
            r@ == self@,
        decreases self,
    {
        match self {
            Stmt::Let { name, type_ann, is_mut, init, span } => Stmt::Let {
                name: name.clone(),
                type_ann: clone_opt_type(type_ann),
                is_mut: *is_mut,
                init: init.clone(),
                span: *span,
            },
            Stmt::Assign { target, value, span } => Stmt::Assign {
                target: target.clone(),
                value: value.clone(),
                span: *span,
            },
            Stmt::AssignOp { target, op, value, span } => Stmt::AssignOp {
                target: target.clone(),
                op: *op,
                value: value.clone(),
                span: *span,
            },
            Stmt::Expr(e) => Stmt::Expr(e.clone()),
            Stmt::If { cond, then_branch, else_branch, span } => {
                let t = clone_stmts(then_branch);
                let e = match else_branch {
                    Some(b) => Some(clone_stmts(b)),
                    None => None,
                };
                let r = Stmt::If { cond: cond.clone(), then_branch: t, else_branch: e, span: *span };
                proof {
                    assert(r@->then_branch =~= self@->then_branch) by {
                        assert forall|j: int| 0 <= j < t@.len() implies r@->then_branch[j]
                            == self@->then_branch[j] by {
                            assert(t@[j]@ == then_branch@[j]@);
                        }
                    }
                    if let Some(b) = else_branch {
                        let eb = e.unwrap();
                        assert(r@->else_branch.unwrap() =~= self@->else_branch.unwrap()) by {
                            assert forall|j: int| 0 <= j < eb@.len() implies r@->else_branch.unwrap()[j]
                                == self@->else_branch.unwrap()[j] by {
                                assert(eb@[j]@ == b@[j]@);
                            }
                        }
                    }
                }
                r
            },
            Stmt::Return(e, span) => Stmt::Return(clone_opt_expr(e), *span),
        }
    }
}

/// The value of an element attribute.
#[derive(Debug)]
pub enum AttributeValue {
    Static(String),
    Dynamic(Expr),
}

/// The view of an attribute value.
pub enum AttributeValueV {
    Static(Seq<char>),
    Dynamic(ExprV),
}

impl View for AttributeValue {
    type V = AttributeValueV;

    open spec fn view(&self) -> AttributeValueV {
        match self {
            AttributeValue::Static(s) => AttributeValueV::Static(s@),
            AttributeValue::Dynamic(e) => AttributeValueV::Dynamic(e@),
        }
    }
}

impl Clone for AttributeValue {
    fn clone(&self) -> (r: Self)
        ensures
            r@ == self@,
    {
        match self {
            AttributeValue::Static(s) => AttributeValue::Static(s.clone()),
            AttributeValue::Dynamic(e) => AttributeValue::Dynamic(e.clone()),
        }
    }
}

/// An element attribute `name=value`.
#[derive(Debug)]
pub struct Attribute {
    pub name: String,
    pub value: AttributeValue,
    pub span: Span,
}

/// The view of an attribute.
pub struct AttributeV {
    pub name: Seq<char>,
    pub value: AttributeValueV,
    pub span: Span,
}

impl View for Attribute {
    type V = AttributeV;

    open spec fn view(&self) -> AttributeV {
        AttributeV { name: self.name@, value: self.value@, span: self.span }
    }
}

impl Clone for Attribute {
    fn clone(&self) -> (r: Self)
        ensures
            r@ == self@,
    {
        Attribute { name: self.name.clone(), value: self.value.clone(), span: self.span }
    }
}

/// An event binding `@event=handler`.
#[derive(Debug)]
pub struct EventBinding {
    pub event_name: String,
    pub handler: String,
    pub span: Span,
}

/// The view of an event binding.
pub struct EventBindingV {
    pub event_name: Seq<char>,
    pub handler: Seq<char>,
    pub span: Span,
}

impl View for EventBinding {
    type V = EventBindingV;

    open spec fn view(&self) -> EventBindingV {
        EventBindingV { event_name: self.event_name@, handler: self.handler@, span: self.span }
    }
}

impl Clone for EventBinding {
    fn clone(&self) -> (r: Self)
        ensures
            r@ == self@,
    {
        EventBinding { event_name: self.event_name.clone(), handler: self.handler.clone(), span: self.span }
    }
}

/// A template element with its attributes, events and children.
#[derive(Debug)]
pub struct ElementNode {
    pub tag: String,
    pub attributes: Vec<Attribute>,
    pub events: Vec<EventBinding>,
    pub children: Vec<TemplateNode>,
    pub span: Span,
}

/// A node of a render template.
#[derive(Debug)]
pub enum TemplateNode {
    Element(ElementNode),
    Text(String, Span),
    DynamicExpr(Expr, Span),
}

/// The view of a template element.
pub struct ElementNodeV {
    pub tag: Seq<char>,
    pub attributes: Seq<AttributeV>,
    pub events: Seq<EventBindingV>,
    pub children: Seq<TemplateNodeV>,
    pub span: Span,
}

/// The view of a template node.
pub enum TemplateNodeV {
    Element(ElementNodeV),
    Text(Seq<char>, Span),
    DynamicExpr(ExprV, Span),
}

pub open spec fn element_view(el: ElementNode) -> ElementNodeV
    decreases el,
{
    ElementNodeV {
        tag: el.tag@,
        attributes: Seq::new(el.attributes@.len(), |i: int| el.attributes@[i]@),
        events: Seq::new(el.events@.len(), |i: int| el.events@[i]@),
        children: Seq::new(
            el.children@.len(),
            |i: int|
                if 0 <= i < el.children@.len() {
                    node_view(el.children@[i])
                } else {
                    TemplateNodeV::Text(Seq::empty(), el.span)
                },
        ),
        span: el.span,
    }
}

pub open spec fn node_view(n: TemplateNode) -> TemplateNodeV
    decreases n,
{
    match n {
        TemplateNode::Element(el) => TemplateNodeV::Element(element_view(el)),
        TemplateNode::Text(t, s) => TemplateNodeV::Text(t@, s),
        TemplateNode::DynamicExpr(e, s) => TemplateNodeV::DynamicExpr(e@, s),
    }
}

impl View for ElementNode {
    type V = ElementNodeV;

    open spec fn view(&self) -> ElementNodeV {
        element_view(*self)
    }
}

impl View for TemplateNode {
    type V = TemplateNodeV;

    open spec fn view(&self) -> TemplateNodeV {
        node_view(*self)
    }
}

/// Copies a list of attributes.
pub fn clone_attributes(v: &Vec<Attribute>) -> (r: Vec<Attribute>)
    ensures
        r@.len() == v@.len(),
        forall|j: int| 0 <= j < v@.len() ==> (#[trigger] r@[j])@ == v@[j]@,
{
    let mut r: Vec<Attribute> = Vec::new();
    let mut i: usize = 0;
    while i < v.len()
        invariant
            i <= v@.len(),
            r@.len() == i,
            forall|j: int| 0 <= j < i ==> (#[trigger] r@[j])@ == v@[j]@,
        decreases v@.len() - i,
    {
        r.push(v[i].clone());
        i += 1;
    }
    r
}

/// Copies a list of event bindings.
pub fn clone_events(v: &Vec<EventBinding>) -> (r: Vec<EventBinding>)
    ensures
        r@.len() == v@.len(),
        forall|j: int| 0 <= j < v@.len() ==> (#[trigger] r@[j])@ == v@[j]@,
{
    let mut r: Vec<EventBinding> = Vec::new();
    let mut i: usize = 0;
    while i < v.len()
        invariant
            i <= v@.len(),
            r@.len() == i,
            forall|j: int| 0 <= j < i ==> (#[trigger] r@[j])@ == v@[j]@,
        decreases v@.len() - i,
    {
        r.push(v[i].clone());
        i += 1;
    }
    r
}

/// Copies a list of template nodes.
pub fn clone_nodes(v: &Vec<TemplateNode>) -> (r: Vec<TemplateNode>)
    ensures
        r@.len() == v@.len(),
        forall|j: int| 0 <= j < v@.len() ==> (#[trigger] r@[j])@ == v@[j]@,
    decreases v,
{
    let mut r: Vec<TemplateNode> = Vec::new();
    let mut i: usize = 0;
    while i < v.len()
        invariant
            i <= v@.len(),
            r@.len() == i,
            forall|j: int| 0 <= j < i ==> (#[trigger] r@[j])@ == v@[j]@,
        decreases v@.len() - i,
    {
        proof {
            assert(decreases_to!(v => v@[i as int]));
        }
        r.push(v[i].clone());
        i += 1;
    }
    r
}

impl Clone for ElementNode {
    fn clone(&self) -> (r: Self)
        ensures
            r@ == self@,
        decreases self,
    {
        let a = clone_attributes(&self.attributes);
        let e = clone_events(&self.events);
        let c = clone_nodes(&self.children);
        let r = ElementNode { tag: self.tag.clone(), attributes: a, events: e, children: c, span: self.span };
        proof {
            assert(r@.attributes =~= self@.attributes);
            assert(r@.events =~= self@.events);
            assert(r@.children =~= self@.children) by {
                assert forall|j: int| 0 <= j < c@.len() implies r@.children[j] == self@.children[j] by {
                    assert(c@[j]@ == self.children@[j]@);
                }
            }
        }
        r
    }
}

impl Clone for TemplateNode {
    fn clone(&self) -> (r: Self)
        ensures
            r@ == self@,
        decreases self,
    {
        match self {
            TemplateNode::Element(el) => TemplateNode::Element(el.clone()),
            TemplateNode::Text(t, s) => TemplateNode::Text(t.clone(), *s),
            TemplateNode::DynamicExpr(e, s) => TemplateNode::DynamicExpr(e.clone(), *s),
        }
    }
}

/// The views of a parameter list.
pub open spec fn params_view(v: Seq<(String, Type)>) -> Seq<(Seq<char>, TypeV)> {
    Seq::new(v.len(), |i: int| (v[i].0@, v[i].1@))
}

/// Copies a parameter list.
pub fn clone_params(v: &Vec<(String, Type)>) -> (r: Vec<(String, Type)>)
    ensures
        params_view(r@) == params_view(v@),
{
    let mut r: Vec<(String, Type)> = Vec::new();
    let mut i: usize = 0;
    while i < v.len()
        invariant
            i <= v@.len(),
            r@.len() == i,
            forall|j: int| 0 <= j < i ==> (#[trigger] r@[j]).0@ == v@[j].0@ && r@[j].1 == v@[j].1,
        decreases v@.len() - i,
    {
        r.push((v[i].0.clone(), v[i].1.clone()));
        i += 1;
    }
    assert(params_view(r@) =~= params_view(v@));
    r
}

/// A method of a component.
#[derive(Debug)]
pub struct FnDecl {
    pub name: String,
    pub params: Vec<(String, Type)>,
    pub return_type: Option<Type>,
    pub body: Vec<Stmt>,
    pub span: Span,
}

/// The view of a method.
pub struct FnDeclV {
    pub name: Seq<char>,
    pub params: Seq<(Seq<char>, TypeV)>,
    pub return_type: Option<TypeV>,
    pub body: Seq<StmtV>,
    pub span: Span,
}

impl View for FnDecl {
    type V = FnDeclV;

    open spec fn view(&self) -> FnDeclV {
        FnDeclV {
            name: self.name@,
            params: params_view(self.params@),
            return_type: opt_type_view(self.return_type),
            body: stmts_view(self.body@),
            span: self.span,
        }
    }
}

impl Clone for FnDecl {
    fn clone(&self) -> (r: Self)
        ensures
            r@ == self@,
    {
        FnDecl {
            name: self.name.clone(),
            params: clone_params(&self.params),
            return_type: clone_opt_type(&self.return_type),
            body: clone_stmts(&self.body),
            span: self.span,
        }
    }
}

/// The views of a list of methods.
pub open spec fn fns_view(v: Seq<FnDecl>) -> Seq<FnDeclV> {
    Seq::new(v.len(), |i: int| v[i]@)
}

/// Copies a list of methods.
pub fn clone_fns(v: &Vec<FnDecl>) -> (r: Vec<FnDecl>)
    ensures
        fns_view(r@) == fns_view(v@),
{
    let mut r: Vec<FnDecl> = Vec::new();
    let mut i: usize = 0;
    while i < v.len()
        invariant
            i <= v@.len(),
            r@.len() == i,
            forall|j: int| 0 <= j < i ==> (#[trigger] r@[j])@ == v@[j]@,
        decreases v@.len() - i,
    {
        r.push(v[i].clone());
        i += 1;
    }
    assert(fns_view(r@) =~= fns_view(v@));
    r
}

/// A signal declaration `signal name: type = init;`.
#[derive(Debug)]
pub struct SignalDecl {
    pub name: String,
    pub type_ann: Type,
    pub init_expr: Expr,
    pub span: Span,
}

/// The view of a signal declaration.
pub struct SignalDeclV {
    pub name: Seq<char>,
    pub type_ann: TypeV,
    pub init_expr: ExprV,
    pub span: Span,
}

impl View for SignalDecl {
    type V = SignalDeclV;

    open spec fn view(&self) -> SignalDeclV {
        SignalDeclV { name: self.name@, type_ann: self.type_ann@, init_expr: self.init_expr@, span: self.span }
    }
}

impl Clone for SignalDecl {
    fn clone(&self) -> (r: Self)
        ensures
            r@ == self@,
    {
        SignalDecl {
            name: self.name.clone(),
            type_ann: self.type_ann.clone(),
            init_expr: self.init_expr.clone(),
            span: self.span,
        }
    }
}

/// A computed declaration `computed name: type = expr;`.
#[derive(Debug)]
pub struct ComputedDecl {
    pub name: String,
    pub type_ann: Type,
    pub expr: Expr,
    pub span: Span,
}

/// The view of a computed declaration.
pub struct ComputedDeclV {
    pub name: Seq<char>,
    pub type_ann: TypeV,
    pub expr: ExprV,
    pub span: Span,
}

impl View for ComputedDecl {
    type V = ComputedDeclV;

    open spec fn view(&self) -> ComputedDeclV {
        ComputedDeclV { name: self.name@, type_ann: self.type_ann@, expr: self.expr@, span: self.span }
    }
}

impl Clone for ComputedDecl {
    fn clone(&self) -> (r: Self)
        ensures
            r@ == self@,
    {
        ComputedDecl {
            name: self.name.clone(),
            type_ann: self.type_ann.clone(),
            expr: self.expr.clone(),
            span: self.span,
        }
    }
}

/// A render block and its root template node.
#[derive(Debug)]
pub struct RenderBlock {
    pub root: TemplateNode,
    pub span: Span,
}

/// The view of a render block.
pub struct RenderBlockV {
    pub root: TemplateNodeV,
    pub span: Span,
}

impl View for RenderBlock {
    type V = RenderBlockV;

    open spec fn view(&self) -> RenderBlockV {
        RenderBlockV { root: self.root@, span: self.span }
    }
}

impl Clone for RenderBlock {
    fn clone(&self) -> (r: Self)
        ensures
            r@ == self@,
    {
        RenderBlock { root: self.root.clone(), span: self.span }
    }
}

/// A component declaration.
#[derive(Debug)]
pub struct ComponentDecl {
    pub name: String,
    pub is_exported: bool,
    pub signals: Vec<SignalDecl>,
    pub computeds: Vec<ComputedDecl>,
    pub methods: Vec<FnDecl>,
    pub render: Option<RenderBlock>,
    pub span: Span,
}

/// The view of a component declaration.
pub struct ComponentDeclV {
    pub name: Seq<char>,
    pub is_exported: bool,
    pub signals: Seq<SignalDeclV>,
    pub computeds: Seq<ComputedDeclV>,
    pub methods: Seq<FnDeclV>,
    pub render: Option<RenderBlockV>,
    pub span: Span,
}

impl View for ComponentDecl {
    type V = ComponentDeclV;

    open spec fn view(&self) -> ComponentDeclV {
        ComponentDeclV {
            name: self.name@,
            is_exported: self.is_exported,
            signals: Seq::new(self.signals@.len(), |i: int| self.signals@[i]@),
            computeds: Seq::new(self.computeds@.len(), |i: int| self.computeds@[i]@),
            methods: fns_view(self.methods@),
            render: match self.render {
                Some(r) => Some(r@),
                None => None,
            },
            span: self.span,
        }
    }
}

impl Clone for ComponentDecl {
    fn clone(&self) -> (r: Self)
        ensures
            r@ == self@,
    {
        let mut signals: Vec<SignalDecl> = Vec::new();
        let mut i: usize = 0;
        while i < self.signals.len()
            invariant
                i <= self.signals@.len(),
                signals@.len() == i,
                forall|j: int| 0 <= j < i ==> (#[trigger] signals@[j])@ == self.signals@[j]@,
            decreases self.signals@.len() - i,
        {
            signals.push(self.signals[i].clone());
            i += 1;
        }
        let mut computeds: Vec<ComputedDecl> = Vec::new();
        let mut i: usize = 0;
        while i < self.computeds.len()
            invariant
                i <= self.computeds@.len(),
                computeds@.len() == i,
                forall|j: int| 0 <= j < i ==> (#[trigger] computeds@[j])@ == self.computeds@[j]@,
            decreases self.computeds@.len() - i,
        {
            computeds.push(self.computeds[i].clone());
            i += 1;
        }
        let render = match &self.render {
            Some(rb) => Some(rb.clone()),
            None => None,
        };
        let r = ComponentDecl {
            name: self.name.clone(),
            is_exported: self.is_exported,
            signals,
            computeds,
            methods: clone_fns(&self.methods),
            render,
            span: self.span,
        };
        assert(r@.signals =~= self@.signals);
        assert(r@.computeds =~= self@.computeds);
        r
    }
}

/// A foreign function declared in an `extern` block.
#[derive(Debug)]
pub struct ExternFnDecl {
    pub name: String,
    pub params: Vec<(String, Type)>,
    pub return_type: Option<Type>,
    pub span: Span,
}

/// The view of a foreign function declaration.
pub struct ExternFnDeclV {
    pub name: Seq<char>,
    pub params: Seq<(Seq<char>, TypeV)>,
    pub return_type: Option<TypeV>,
    pub span: Span,
}

impl View for ExternFnDecl {
    type V = ExternFnDeclV;

    open spec fn view(&self) -> ExternFnDeclV {
        ExternFnDeclV {
            name: self.name@,
            params: params_view(self.params@),
            return_type: opt_type_view(self.return_type),
            span: self.span,
        }
    }
}

impl Clone for ExternFnDecl {
    fn clone(&self) -> (r: Self)
        ensures
            r@ == self@,
    {
        ExternFnDecl {
            name: self.name.clone(),
            params: clone_params(&self.params),
            return_type: clone_opt_type(&self.return_type),
            span: self.span,
        }
    }
}

/// An `extern "abi" { ... }` block.
#[derive(Debug)]
pub struct ExternBlock {
    pub abi: String,
    pub functions: Vec<ExternFnDecl>,
    pub span: Span,
}

/// The view of an extern block.
pub struct ExternBlockV {
    pub abi: Seq<char>,
    pub functions: Seq<ExternFnDeclV>,
    pub span: Span,
}

impl View for ExternBlock {
    type V = ExternBlockV;

    open spec fn view(&self) -> ExternBlockV {
        ExternBlockV {
            abi: self.abi@,
            functions: Seq::new(self.functions@.len(), |i: int| self.functions@[i]@),
            span: self.span,
        }
    }
}

impl Clone for ExternBlock {
    fn clone(&self) -> (r: Self)
        ensures
            r@ == self@,
    {
        let mut functions: Vec<ExternFnDecl> = Vec::new();
        let mut i: usize = 0;
        while i < self.functions.len()
            invariant
                i <= self.functions@.len(),
                functions@.len() == i,
                forall|j: int| 0 <= j < i ==> (#[trigger] functions@[j])@ == self.functions@[j]@,
            decreases self.functions@.len() - i,
        {
            functions.push(self.functions[i].clone());
            i += 1;
        }
        let r = ExternBlock { abi: self.abi.clone(), functions, span: self.span };
        assert(r@.functions =~= self@.functions);
        r
    }
}

/// The views of a list of extern blocks.
pub open spec fn blocks_view(v: Seq<ExternBlock>) -> Seq<ExternBlockV> {
    Seq::new(v.len(), |i: int| v[i]@)
}

/// A top-level item of a program.
#[derive(Debug)]
pub enum TopLevelItem {
    Component(ComponentDecl),
    ExternBlock(ExternBlock),
}

/// The view of a top-level item.
pub enum TopLevelItemV {
    Component(ComponentDeclV),
    ExternBlock(ExternBlockV),
}

impl View for TopLevelItem {
    type V = TopLevelItemV;

    open spec fn view(&self) -> TopLevelItemV {
        match self {
            TopLevelItem::Component(c) => TopLevelItemV::Component(c@),
            TopLevelItem::ExternBlock(b) => TopLevelItemV::ExternBlock(b@),
        }
    }
}

/// A whole program: its top-level items in source order.
#[derive(Debug)]
pub struct Program {
    pub items: Vec<TopLevelItem>,
}

/// The view of a program.
pub struct ProgramV {
    pub items: Seq<TopLevelItemV>,
}

impl View for Program {
    type V = ProgramV;

    open spec fn view(&self) -> ProgramV {
        ProgramV { items: Seq::new(self.items@.len(), |i: int| self.items@[i]@) }
    }
}

} // verus!
