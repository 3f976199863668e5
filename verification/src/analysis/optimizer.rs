//! Ahead-of-time constant folding and algebraic simplification of the tree.

use vstd::prelude::*;
use crate::syntax::ast::{
    clone_opt_type, clone_params,
    ElementNodeV, SignalDeclV, ComputedDeclV, FnDeclV, RenderBlockV,
    BinaryOp, ComponentDecl, ComponentDeclV, ElementNode, Expr, ExprV, RenderBlock, SignalDecl, Stmt, StmtV,
    TemplateNode, TemplateNodeV, UnaryOp, ComputedDecl, FnDecl,
};
use crate::syntax::token::Span;
use crate::analysis::semantics::{apply_binary, apply_unary, eval, eval_args, Env, Value};

verus! {

/// Ahead-of-time AST optimizer performing constant folding and algebraic simplification.
pub struct AstOptimizer;

/// `i64::wrapping_div` for a non-zero divisor: truncating division, where
/// `i64::MIN / -1` wraps to `i64::MIN`.
pub open spec fn wrapping_div(a: i64, b: i64) -> i64 {
    match a.checked_div(b) {
        Some(q) => q,
        None => a,
    }
}

/// `i64::wrapping_rem` for a non-zero divisor: the remainder of truncating
/// division, where `i64::MIN % -1` wraps to `0`.
pub open spec fn wrapping_rem(a: i64, b: i64) -> i64 {
    match a.checked_rem(b) {
        Some(r) => r,
        None => 0,
    }
}

fn i64_wrapping_div(a: i64, b: i64) -> (r: i64)
    requires
        b != 0,
    ensures
        r == wrapping_div(a, b),
{
    match a.checked_div(b) {
        Some(q) => q,
        None => a,
    }
}

fn i64_wrapping_rem(a: i64, b: i64) -> (r: i64)
    requires
        b != 0,
    ensures
        r == wrapping_rem(a, b),
{
    match a.checked_rem(b) {
        Some(q) => q,
        None => 0,
    }
}

/// Folding of a binary operator over two integer literals.
pub open spec fn fold_int_consts(op: BinaryOp, l: ExprV, r: ExprV, span: Span) -> Option<ExprV> {
    match (l, r) {
        (ExprV::IntLit(a, _), ExprV::IntLit(b, _)) => match op {
            BinaryOp::Add => Some(ExprV::IntLit(a.wrapping_add(b), span)),
            BinaryOp::Sub => Some(ExprV::IntLit(a.wrapping_sub(b), span)),
            BinaryOp::Mul => Some(ExprV::IntLit(a.wrapping_mul(b), span)),
            BinaryOp::Div => if b != 0 { Some(ExprV::IntLit(wrapping_div(a, b), span)) } else { None },
            BinaryOp::Mod => if b != 0 { Some(ExprV::IntLit(wrapping_rem(a, b), span)) } else { None },
            BinaryOp::Eq => Some(ExprV::BoolLit(a == b, span)),
            BinaryOp::NotEq => Some(ExprV::BoolLit(a != b, span)),
            BinaryOp::Lt => Some(ExprV::BoolLit(a < b, span)),
            BinaryOp::LtEq => Some(ExprV::BoolLit(a <= b, span)),
            BinaryOp::Gt => Some(ExprV::BoolLit(a > b, span)),
            BinaryOp::GtEq => Some(ExprV::BoolLit(a >= b, span)),
            BinaryOp::And | BinaryOp::Or => None,
        },
        _ => None,
    }
}

/// Folding of a binary operator over two boolean literals.
pub open spec fn fold_bool_consts(op: BinaryOp, l: ExprV, r: ExprV, span: Span) -> Option<ExprV> {
    match (l, r) {
        (ExprV::BoolLit(a, _), ExprV::BoolLit(b, _)) => match op {
            BinaryOp::And => Some(ExprV::BoolLit(a && b, span)),
            BinaryOp::Or => Some(ExprV::BoolLit(a || b, span)),
            BinaryOp::Eq => Some(ExprV::BoolLit(a == b, span)),
            BinaryOp::NotEq => Some(ExprV::BoolLit(a != b, span)),
            _ => None,
        },
        _ => None,
    }
}

/// `e` is the integer literal `n`.
pub open spec fn is_int(e: ExprV, n: i64) -> bool {
    e matches ExprV::IntLit(v, _) && v == n
}

/// `e` is the boolean literal `b`.
pub open spec fn is_bool(e: ExprV, b: bool) -> bool {
    e matches ExprV::BoolLit(v, _) && v == b
}

/// The algebraic identities: `x+0`, `0+x`, `x-0`, `x*1`, `1*x`, `x*0`, `0*x`,
/// `x/1`, `x&&true`, `true&&x`, `x&&false`, `false&&x`, `x||false`,
/// `false||x`, `x||true`, `true||x`. The absorbing literal keeps its own span.
pub open spec fn simplify_identity(op: BinaryOp, l: ExprV, r: ExprV) -> Option<ExprV> {
    match op {
        BinaryOp::Add => if is_int(r, 0) { Some(l) } else if is_int(l, 0) { Some(r) } else { None },
        BinaryOp::Sub => if is_int(r, 0) { Some(l) } else { None },
        BinaryOp::Mul => if is_int(r, 1) {
            Some(l)
        } else if is_int(l, 1) {
            Some(r)
        } else if is_int(r, 0) {
            Some(r)
        } else if is_int(l, 0) {
            Some(l)
        } else {
            None
        },
        BinaryOp::Div => if is_int(r, 1) { Some(l) } else { None },
        BinaryOp::And => if is_bool(r, true) {
            Some(l)
        } else if is_bool(l, true) {
            Some(r)
        } else if is_bool(r, false) {
            Some(r)
        } else if is_bool(l, false) {
            Some(l)
        } else {
            None
        },
        BinaryOp::Or => if is_bool(r, false) {
            Some(l)
        } else if is_bool(l, false) {
            Some(r)
        } else if is_bool(r, true) {
            Some(r)
        } else if is_bool(l, true) {
            Some(l)
        } else {
            None
        },
        _ => None,
    }
}

/// A binary node over already folded operands: integer folding, then boolean
/// folding, then the identities, else the node itself.
pub open spec fn fold_binary(op: BinaryOp, l: ExprV, r: ExprV, span: Span) -> ExprV {
    match fold_int_consts(op, l, r, span) {
        Some(x) => x,
        None => match fold_bool_consts(op, l, r, span) {
            Some(x) => x,
            None => match simplify_identity(op, l, r) {
                Some(x) => x,
                None => ExprV::Binary { op, left: Box::new(l), right: Box::new(r), span },
            },
        },
    }
}

/// A unary node over an already folded operand: negation of an integer
/// literal and negation of a boolean literal fold (keeping the literal's span).
pub open spec fn fold_unary(op: UnaryOp, x: ExprV, span: Span) -> ExprV {
    match (op, x) {
        (UnaryOp::Neg, ExprV::IntLit(v, s)) => ExprV::IntLit((-v) as i64, s),
        (UnaryOp::Not, ExprV::BoolLit(v, s)) => ExprV::BoolLit(!v, s),
        _ => ExprV::Unary { op, expr: Box::new(x), span },
    }
}

/// The folded form of an expression, bottom-up.
pub open spec fn folded_expr(e: ExprV) -> ExprV
    decreases e,
{
    match e {
        ExprV::Binary { op, left, right, span } => fold_binary(
            op,
            folded_expr(*left),
            folded_expr(*right),
            span,
        ),
        ExprV::Unary { op, expr, span } => fold_unary(op, folded_expr(*expr), span),
        ExprV::Call { callee, args, span } => ExprV::Call {
            callee,
            args: Seq::new(
                args.len(),
                |i: int|
                    if 0 <= i < args.len() {
                        folded_expr(args[i])
                    } else {
                        ExprV::BoolLit(false, span)
                    },
            ),
            span,
        },
        ExprV::MemberAccess { object, member, span } => ExprV::MemberAccess {
            object: Box::new(folded_expr(*object)),
            member,
            span,
        },
        _ => e,
    }
}

/// Folding `e` never negates `i64::MIN` (which would overflow).
pub open spec fn folds_safely(e: ExprV) -> bool
    decreases e,
{
    match e {
        ExprV::Binary { left, right, .. } => folds_safely(*left) && folds_safely(*right),
        ExprV::Unary { op, expr, .. } => folds_safely(*expr) && !(op is Neg && is_int(
            folded_expr(*expr),
            i64::MIN,
        )),
        ExprV::Call { args, .. } => forall|i: int| 0 <= i < args.len() ==> folds_safely(#[trigger] args[i]),
        ExprV::MemberAccess { object, .. } => folds_safely(*object),
        _ => true,
    }
}

/// The folded form of a statement: every expression in it is folded.
pub open spec fn folded_stmt(st: StmtV) -> StmtV
    decreases st,
{
    match st {
        StmtV::Let { name, type_ann, is_mut, init, span } => StmtV::Let {
            name,
            type_ann,
            is_mut,
            init: folded_expr(init),
            span,
        },
        StmtV::Assign { target, value, span } => StmtV::Assign { target, value: folded_expr(value), span },
        StmtV::AssignOp { target, op, value, span } => StmtV::AssignOp {
            target,
            op,
            value: folded_expr(value),
            span,
        },
        StmtV::Expr(e) => StmtV::Expr(folded_expr(e)),
        StmtV::If { cond, then_branch, else_branch, span } => StmtV::If {
            cond: folded_expr(cond),
            then_branch: Seq::new(
                then_branch.len(),
                |i: int|
                    if 0 <= i < then_branch.len() {
                        folded_stmt(then_branch[i])
                    } else {
                        StmtV::Return(None, span)
                    },
            ),
            else_branch: match else_branch {
                Some(b) => Some(
                    Seq::new(
                        b.len(),
                        |i: int|
                            if 0 <= i < b.len() {
                                folded_stmt(b[i])
                            } else {
                                StmtV::Return(None, span)
                            },
                    ),
                ),
                None => None,
            },
            span,
        },
        StmtV::Return(e, span) => StmtV::Return(
            match e {
                Some(x) => Some(folded_expr(x)),
                None => None,
            },
            span,
        ),
    }
}

/// Folding every expression of a statement is safe.
pub open spec fn stmt_folds_safely(st: StmtV) -> bool
    decreases st,
{
    match st {
        StmtV::Let { init, .. } => folds_safely(init),
        StmtV::Assign { value, .. } => folds_safely(value),
        StmtV::AssignOp { value, .. } => folds_safely(value),
        StmtV::Expr(e) => folds_safely(e),
        StmtV::If { cond, then_branch, else_branch, .. } => folds_safely(cond) && (forall|i: int|
            0 <= i < then_branch.len() ==> stmt_folds_safely(#[trigger] then_branch[i])) && match else_branch {
            Some(b) => forall|i: int| 0 <= i < b.len() ==> stmt_folds_safely(#[trigger] b[i]),
            None => true,
        },
        StmtV::Return(e, _) => match e {
            Some(x) => folds_safely(x),
            None => true,
        },
    }
}

/// The folded form of a template node: dynamic expressions are folded, the
/// rest (tags, attributes, events, texts) is kept.
pub open spec fn folded_node(n: TemplateNodeV) -> TemplateNodeV
    decreases n,
{
    match n {
        TemplateNodeV::Element(el) => TemplateNodeV::Element(
            ElementNodeV {
                children: Seq::new(
                    el.children.len(),
                    |i: int|
                        if 0 <= i < el.children.len() {
                            folded_node(el.children[i])
                        } else {
                            TemplateNodeV::Text(Seq::empty(), el.span)
                        },
                ),
                ..el
            },
        ),
        TemplateNodeV::Text(t, s) => TemplateNodeV::Text(t, s),
        TemplateNodeV::DynamicExpr(e, s) => TemplateNodeV::DynamicExpr(folded_expr(e), s),
    }
}

/// Folding the dynamic expressions of a template node is safe.
pub open spec fn node_folds_safely(n: TemplateNodeV) -> bool
    decreases n,
{
    match n {
        TemplateNodeV::Element(el) => forall|i: int|
            0 <= i < el.children.len() ==> node_folds_safely(#[trigger] el.children[i]),
        TemplateNodeV::Text(_, _) => true,
        TemplateNodeV::DynamicExpr(e, _) => folds_safely(e),
    }
}

/// The folded form of a list of statements.
pub open spec fn folded_stmts(b: Seq<StmtV>) -> Seq<StmtV> {
    Seq::new(b.len(), |i: int| folded_stmt(b[i]))
}

/// The folded form of a component: signal initializers, computed
/// expressions, method bodies and the render template are folded.
pub open spec fn folded_component(c: ComponentDeclV) -> ComponentDeclV {
    ComponentDeclV {
        signals: Seq::new(
            c.signals.len(),
            |i: int| SignalDeclV { init_expr: folded_expr(c.signals[i].init_expr), ..c.signals[i] },
        ),
        computeds: Seq::new(
            c.computeds.len(),
            |i: int| ComputedDeclV { expr: folded_expr(c.computeds[i].expr), ..c.computeds[i] },
        ),
        methods: Seq::new(
            c.methods.len(),
            |i: int| FnDeclV { body: folded_stmts(c.methods[i].body), ..c.methods[i] },
        ),
        render: match c.render {
            Some(r) => Some(RenderBlockV { root: folded_node(r.root), ..r }),
            None => None,
        },
        ..c
    }
}

/// Folding every expression of a component is safe.
pub open spec fn component_folds_safely(c: ComponentDeclV) -> bool {
    &&& forall|i: int| 0 <= i < c.signals.len() ==> folds_safely(#[trigger] c.signals[i].init_expr)
    &&& forall|i: int| 0 <= i < c.computeds.len() ==> folds_safely(#[trigger] c.computeds[i].expr)
    &&& forall|i: int, j: int|
        0 <= i < c.methods.len() && 0 <= j < c.methods[i].body.len() ==> stmt_folds_safely(
            #[trigger] c.methods[i].body[j],
        )
    &&& match c.render {
        Some(r) => node_folds_safely(r.root),
        None => true,
    }
}

fn is_int_lit(e: &Expr, n: i64) -> (b: bool)
    ensures
        b == is_int(e@, n),
{
    match e {
        Expr::IntLit(v, _) => *v == n,
        _ => false,
    }
}

fn is_bool_lit(e: &Expr, x: bool) -> (b: bool)
    ensures
        b == is_bool(e@, x),
{
    match e {
        Expr::BoolLit(v, _) => *v == x,
        _ => false,
    }
}

impl AstOptimizer {
    fn fold_binary_node(op: BinaryOp, opt_left: Expr, opt_right: Expr, span: Span) -> (r: Expr)
        ensures
            r@ == fold_binary(op, opt_left@, opt_right@, span),
    {
        // Constant folding for integers
        match (&opt_left, &opt_right) {
            (Expr::IntLit(a, _), Expr::IntLit(b, _)) => {
                let a = *a;
                let b = *b;
                match op {
                    BinaryOp::Add => return Expr::IntLit(a.wrapping_add(b), span),
                    BinaryOp::Sub => return Expr::IntLit(a.wrapping_sub(b), span),
                    BinaryOp::Mul => return Expr::IntLit(a.wrapping_mul(b), span),
                    BinaryOp::Div => if b != 0 {
                        return Expr::IntLit(i64_wrapping_div(a, b), span);
                    },
                    BinaryOp::Mod => if b != 0 {
                        return Expr::IntLit(i64_wrapping_rem(a, b), span);
                    },
                    BinaryOp::Eq => return Expr::BoolLit(a == b, span),
                    BinaryOp::NotEq => return Expr::BoolLit(a != b, span),
                    BinaryOp::Lt => return Expr::BoolLit(a < b, span),
                    BinaryOp::LtEq => return Expr::BoolLit(a <= b, span),
                    BinaryOp::Gt => return Expr::BoolLit(a > b, span),
                    BinaryOp::GtEq => return Expr::BoolLit(a >= b, span),
                    _ => {},
                }
            },
            _ => {},
        }
        // Constant folding for booleans
        match (&opt_left, &opt_right) {
            (Expr::BoolLit(a, _), Expr::BoolLit(b, _)) => {
                let a = *a;
                let b = *b;
                match op {
                    BinaryOp::And => return Expr::BoolLit(a && b, span),
                    BinaryOp::Or => return Expr::BoolLit(a || b, span),
                    BinaryOp::Eq => return Expr::BoolLit(a == b, span),
                    BinaryOp::NotEq => return Expr::BoolLit(a != b, span),
                    _ => {},
                }
            },
            _ => {},
        }
        // Algebraic identities
        match op {
            BinaryOp::Add => {
                if is_int_lit(&opt_right, 0) {
                    return opt_left;
                }
                if is_int_lit(&opt_left, 0) {
                    return opt_right;
                }
            },
            BinaryOp::Sub => {
                if is_int_lit(&opt_right, 0) {
                    return opt_left;
                }
            },
            BinaryOp::Mul => {
                if is_int_lit(&opt_right, 1) {
                    return opt_left;
                }
                if is_int_lit(&opt_left, 1) {
                    return opt_right;
                }
                if is_int_lit(&opt_right, 0) {
                    return opt_right;
                }
                if is_int_lit(&opt_left, 0) {
                    return opt_left;
                }
            },
            BinaryOp::Div => {
                if is_int_lit(&opt_right, 1) {
                    return opt_left;
                }
            },
            BinaryOp::And => {
                if is_bool_lit(&opt_right, true) {
                    return opt_left;
                }
                if is_bool_lit(&opt_left, true) {
                    return opt_right;
                }
                if is_bool_lit(&opt_right, false) {
                    return opt_right;
                }
                if is_bool_lit(&opt_left, false) {
                    return opt_left;
                }
            },
            BinaryOp::Or => {
                if is_bool_lit(&opt_right, false) {
                    return opt_left;
                }
                if is_bool_lit(&opt_left, false) {
                    return opt_right;
                }
                if is_bool_lit(&opt_right, true) {
                    return opt_right;
                }
                if is_bool_lit(&opt_left, true) {
                    return opt_left;
                }
            },
            _ => {},
        }
        Expr::Binary { op, left: Box::new(opt_left), right: Box::new(opt_right), span }
    }

    /// Folds constants and applies the algebraic identities, bottom-up.
    pub fn optimize_expr(expr: &Expr) -> (r: Expr)
        requires
            folds_safely(expr@),
        ensures
            r@ == folded_expr(expr@),
        decreases expr,
    {
        match expr {
            Expr::Binary { op, left, right, span } => {
                let opt_left = Self::optimize_expr(left);
                let opt_right = Self::optimize_expr(right);
                Self::fold_binary_node(*op, opt_left, opt_right, *span)
            },
            Expr::Unary { op, expr: inner, span } => {
                let opt_expr = Self::optimize_expr(inner);
                match (op, &opt_expr) {
                    (UnaryOp::Neg, Expr::IntLit(val, s)) => Expr::IntLit(-*val, *s),
                    (UnaryOp::Not, Expr::BoolLit(val, s)) => Expr::BoolLit(!*val, *s),
                    _ => Expr::Unary { op: *op, expr: Box::new(opt_expr), span: *span },
                }
            },
            Expr::Call { callee, args, span } => {
                let mut new_args: Vec<Expr> = Vec::new();
                let mut i: usize = 0;
                while i < args.len()
                    invariant
                        i <= args@.len(),
                        new_args@.len() == i,
                        folds_safely(expr@),
                        *expr == (Expr::Call { callee: *callee, args: *args, span: *span }),
                        forall|j: int| 0 <= j < i ==> (#[trigger] new_args@[j])@ == folded_expr(args@[j]@),
                    decreases args@.len() - i,
                {
                    proof {
                        assert(expr@->args[i as int] == args@[i as int]@);
                        assert(decreases_to!(expr => args@[i as int]));
                    }
                    new_args.push(Self::optimize_expr(&args[i]));
                    i += 1;
                }
                let r = Expr::Call { callee: callee.clone(), args: new_args, span: *span };
                proof {
                    assert(r@->args =~= folded_expr(expr@)->args) by {
                        assert forall|j: int| 0 <= j < new_args@.len() implies r@->args[j]
                            == folded_expr(expr@)->args[j] by {
                            assert(expr@->args[j] == args@[j]@);
                        }
                    }
                }
                r
            },
            Expr::MemberAccess { object, member, span } => Expr::MemberAccess {
                object: Box::new(Self::optimize_expr(object)),
                member: member.clone(),
                span: *span,
            },
            other => other.clone(),
        }
    }

    fn optimize_stmts(b: &Vec<Stmt>) -> (r: Vec<Stmt>)
        requires
            forall|i: int| 0 <= i < b@.len() ==> stmt_folds_safely(#[trigger] b@[i]@),
        ensures
            r@.len() == b@.len(),
            forall|j: int| 0 <= j < b@.len() ==> (#[trigger] r@[j])@ == folded_stmt(b@[j]@),
        decreases b,
    {
        let mut r: Vec<Stmt> = Vec::new();
        let mut i: usize = 0;
        while i < b.len()
            invariant
                i <= b@.len(),
                r@.len() == i,
                forall|i: int| 0 <= i < b@.len() ==> stmt_folds_safely(#[trigger] b@[i]@),
                forall|j: int| 0 <= j < i ==> (#[trigger] r@[j])@ == folded_stmt(b@[j]@),
            decreases b@.len() - i,
        {
            proof {
                assert(decreases_to!(b => b@[i as int]));
            }
            r.push(Self::optimize_stmt(&b[i]));
            i += 1;
        }
        r
    }

    /// Folds every expression of a statement.
    pub fn optimize_stmt(stmt: &Stmt) -> (r: Stmt)
        requires
            stmt_folds_safely(stmt@),
        ensures
            r@ == folded_stmt(stmt@),
        decreases stmt,
    {
        match stmt {
            Stmt::Let { name, type_ann, is_mut, init, span } => Stmt::Let {
                name: name.clone(),
                type_ann: clone_opt_type(type_ann),
                is_mut: *is_mut,
                init: Self::optimize_expr(init),
                span: *span,
            },
            Stmt::Assign { target, value, span } => Stmt::Assign {
                target: target.clone(),
                value: Self::optimize_expr(value),
                span: *span,
            },
            Stmt::AssignOp { target, op, value, span } => Stmt::AssignOp {
                target: target.clone(),
                op: *op,
                value: Self::optimize_expr(value),
                span: *span,
            },
            Stmt::Expr(expr) => Stmt::Expr(Self::optimize_expr(expr)),
            Stmt::If { cond, then_branch, else_branch, span } => {
                proof {
                    assert forall|i: int| 0 <= i < then_branch@.len() implies stmt_folds_safely(
                        #[trigger] then_branch@[i]@,
                    ) by {
                        assert(stmt@->then_branch[i] == then_branch@[i]@);
                    }
                }
                let t = Self::optimize_stmts(then_branch);
                let e = match else_branch {
                    Some(b) => {
                        proof {
                            assert forall|i: int| 0 <= i < b@.len() implies stmt_folds_safely(
                                #[trigger] b@[i]@,
                            ) by {
                                assert(stmt@->else_branch.unwrap()[i] == b@[i]@);
                            }
                        }
                        Some(Self::optimize_stmts(b))
                    },
                    None => None,
                };
                let r = Stmt::If { cond: Self::optimize_expr(cond), then_branch: t, else_branch: e, span: *span };
                proof {
                    let f = folded_stmt(stmt@);
                    assert(r@->then_branch =~= f->then_branch) by {
                        assert forall|j: int| 0 <= j < t@.len() implies r@->then_branch[j] == f->then_branch[j] by {
                            assert(stmt@->then_branch[j] == then_branch@[j]@);
                        }
                    }
                    if let Some(b) = else_branch {
                        let eb = e.unwrap();
                        assert(r@->else_branch.unwrap() =~= f->else_branch.unwrap()) by {
                            assert forall|j: int| 0 <= j < eb@.len() implies r@->else_branch.unwrap()[j]
                                == f->else_branch.unwrap()[j] by {
                                assert(stmt@->else_branch.unwrap()[j] == b@[j]@);
                            }
                        }
                    }
                }
                r
            },
            Stmt::Return(expr, span) => {
                let e = match expr {
                    Some(x) => Some(Self::optimize_expr(x)),
                    None => None,
                };
                Stmt::Return(e, *span)
            },
        }
    }

    /// Folds the dynamic expressions of a template node; elements keep their
    /// tag, attributes and events.
    pub fn optimize_template_node(node: &TemplateNode) -> (r: TemplateNode)
        requires
            node_folds_safely(node@),
        ensures
            r@ == folded_node(node@),
        decreases node,
    {
        match node {
            TemplateNode::Element(elem) => {
                let mut optimized_elem = elem.clone();
                let mut children: Vec<TemplateNode> = Vec::new();
                let mut i: usize = 0;
                while i < elem.children.len()
                    invariant
                        i <= elem.children@.len(),
                        children@.len() == i,
                        node_folds_safely(node@),
                        *node == TemplateNode::Element(*elem),
                        forall|j: int| 0 <= j < i ==> (#[trigger] children@[j])@ == folded_node(elem.children@[j]@),
                    decreases elem.children@.len() - i,
                {
                    proof {
                        assert(node@->Element_0.children[i as int] == elem.children@[i as int]@);
                        assert(decreases_to!(node => elem.children@[i as int]));
                    }
                    children.push(Self::optimize_template_node(&elem.children[i]));
                    i += 1;
                }
                optimized_elem.children = children;
                let r = TemplateNode::Element(optimized_elem);
                proof {
                    let f = folded_node(node@);
                    assert(r@->Element_0.children =~= f->Element_0.children) by {
                        assert forall|j: int| 0 <= j < children@.len() implies r@->Element_0.children[j]
                            == f->Element_0.children[j] by {
                            assert(node@->Element_0.children[j] == elem.children@[j]@);
                        }
                    }
                    assert(r@->Element_0.attributes =~= f->Element_0.attributes);
                    assert(r@->Element_0.events =~= f->Element_0.events);
                }
                r
            },
            TemplateNode::Text(t, span) => TemplateNode::Text(t.clone(), *span),
            TemplateNode::DynamicExpr(expr, span) => TemplateNode::DynamicExpr(
                Self::optimize_expr(expr),
                *span,
            ),
        }
    }

    /// Folds signal initializers, computed expressions, method bodies and the
    /// render template of a component.
    pub fn optimize_component(comp: ComponentDecl) -> (r: ComponentDecl)
        requires
            component_folds_safely(comp@),
        ensures
            r@ == folded_component(comp@),
    {
        let mut comp = comp;
        let ghost c0 = comp@;
        // Optimize signal initializers
        let mut signals: Vec<SignalDecl> = Vec::new();
        let mut i: usize = 0;
        while i < comp.signals.len()
            invariant
                comp@ == c0,
                component_folds_safely(c0),
                i <= comp.signals@.len(),
                signals@.len() == i,
                forall|j: int| 0 <= j < i ==> (#[trigger] signals@[j])@ == folded_component(c0).signals[j],
            decreases comp.signals@.len() - i,
        {
            let sig = &comp.signals[i];
            assert(c0.signals[i as int] == sig@);
            assert(folds_safely(c0.signals[i as int].init_expr));
            let init = Self::optimize_expr(&sig.init_expr);
            signals.push(SignalDecl { name: sig.name.clone(), type_ann: sig.type_ann.clone(), init_expr: init, span: sig.span });
            i += 1;
        }
        // Optimize computed expressions
        let mut computeds: Vec<ComputedDecl> = Vec::new();
        let mut i: usize = 0;
        while i < comp.computeds.len()
            invariant
                comp@ == c0,
                component_folds_safely(c0),
                i <= comp.computeds@.len(),
                computeds@.len() == i,
                forall|j: int| 0 <= j < i ==> (#[trigger] computeds@[j])@ == folded_component(c0).computeds[j],
            decreases comp.computeds@.len() - i,
        {
            let cd = &comp.computeds[i];
            assert(c0.computeds[i as int] == cd@);
            assert(folds_safely(c0.computeds[i as int].expr));
            let e = Self::optimize_expr(&cd.expr);
            computeds.push(ComputedDecl { name: cd.name.clone(), type_ann: cd.type_ann.clone(), expr: e, span: cd.span });
            i += 1;
        }
        // Optimize method bodies
        let mut methods: Vec<FnDecl> = Vec::new();
        let mut i: usize = 0;
        while i < comp.methods.len()
            invariant
                comp@ == c0,
                component_folds_safely(c0),
                i <= comp.methods@.len(),
                methods@.len() == i,
                forall|j: int| 0 <= j < i ==> (#[trigger] methods@[j])@ == folded_component(c0).methods[j],
            decreases comp.methods@.len() - i,
        {
            let m = &comp.methods[i];
            assert(c0.methods[i as int] == m@);
            proof {
                assert forall|k: int| 0 <= k < m.body@.len() implies stmt_folds_safely(#[trigger] m.body@[k]@) by {
                    assert(c0.methods[i as int].body[k] == m.body@[k]@);
                }
            }
            let body = Self::optimize_stmts(&m.body);
            let nm = FnDecl {
                name: m.name.clone(),
                params: clone_params(&m.params),
                return_type: clone_opt_type(&m.return_type),
                body,
                span: m.span,
            };
            assert(nm@.body =~= folded_stmts(m@.body));
            methods.push(nm);
            i += 1;
        }
        // Optimize render template
        let render = match &comp.render {
            Some(rb) => Some(RenderBlock { root: Self::optimize_template_node(&rb.root), span: rb.span }),
            None => None,
        };
        let r = ComponentDecl {
            name: comp.name,
            is_exported: comp.is_exported,
            signals,
            computeds,
            methods,
            render,
            span: comp.span,
        };
        proof {
            let f = folded_component(c0);
            assert(r@.signals =~= f.signals);
            assert(r@.computeds =~= f.computeds);
            assert(r@.methods =~= f.methods);
        }
        r
    }


    /// Whether folding a statement is safe.
    pub fn can_fold_stmt(st: &Stmt) -> (b: bool)
        ensures
            b == stmt_folds_safely(st@),
        decreases st,
    {
        match st {
            Stmt::Let { init, .. } => Self::can_fold_expr(init),
            Stmt::Assign { value, .. } => Self::can_fold_expr(value),
            Stmt::AssignOp { value, .. } => Self::can_fold_expr(value),
            Stmt::Expr(e) => Self::can_fold_expr(e),
            Stmt::If { cond, then_branch, else_branch, span } => {
                if !Self::can_fold_expr(cond) {
                    return false;
                }
                let mut i: usize = 0;
                while i < then_branch.len()
                    invariant
                        i <= then_branch@.len(),
                        *st == (Stmt::If {
                            cond: *cond,
                            then_branch: *then_branch,
                            else_branch: *else_branch,
                            span: *span,
                        }),
                        forall|j: int| 0 <= j < i ==> stmt_folds_safely(#[trigger] st@->then_branch[j]),
                    decreases then_branch@.len() - i,
                {
                    proof {
                        assert(decreases_to!(st => then_branch@[i as int]));
                    }
                    assert(st@->then_branch[i as int] == then_branch@[i as int]@);
                    if !Self::can_fold_stmt(&then_branch[i]) {
                        return false;
                    }
                    i += 1;
                }
                match else_branch {
                    Some(b) => {
                        let mut k: usize = 0;
                        while k < b.len()
                            invariant
                                k <= b@.len(),
                                *st == (Stmt::If {
                                    cond: *cond,
                                    then_branch: *then_branch,
                                    else_branch: *else_branch,
                                    span: *span,
                                }),
                                *else_branch == Some(*b),
                                forall|j: int| 0 <= j < k ==> stmt_folds_safely(#[trigger] st@->else_branch.unwrap()[j]),
                            decreases b@.len() - k,
                        {
                            proof {
                                assert(decreases_to!(st => b@[k as int]));
                            }
                            assert(st@->else_branch.unwrap()[k as int] == b@[k as int]@);
                            if !Self::can_fold_stmt(&b[k]) {
                                return false;
                            }
                            k += 1;
                        }
                        true
                    },
                    None => true,
                }
            },
            Stmt::Return(e, _) => match e {
                Some(x) => Self::can_fold_expr(x),
                None => true,
            },
        }
    }

    /// Whether folding a template node is safe.
    pub fn can_fold_node(n: &TemplateNode) -> (b: bool)
        ensures
            b == node_folds_safely(n@),
        decreases n,
    {
        match n {
            TemplateNode::Element(el) => {
                let mut i: usize = 0;
                while i < el.children.len()
                    invariant
                        i <= el.children@.len(),
                        *n == TemplateNode::Element(*el),
                        forall|j: int| 0 <= j < i ==> node_folds_safely(#[trigger] n@->Element_0.children[j]),
                    decreases el.children@.len() - i,
                {
                    proof {
                        assert(decreases_to!(n => el.children@[i as int]));
                    }
                    assert(n@->Element_0.children[i as int] == el.children@[i as int]@);
                    if !Self::can_fold_node(&el.children[i]) {
                        return false;
                    }
                    i += 1;
                }
                true
            },
            TemplateNode::Text(_, _) => true,
            TemplateNode::DynamicExpr(e, _) => Self::can_fold_expr(e),
        }
    }

    /// Whether folding every expression of a component is safe (see `component_folds_safely`).
    pub fn can_fold_component(c: &ComponentDecl) -> (b: bool)
        ensures
            b == component_folds_safely(c@),
    {
        let mut i: usize = 0;
        while i < c.signals.len()
            invariant
                i <= c.signals@.len(),
                forall|j: int| 0 <= j < i ==> folds_safely(#[trigger] c@.signals[j].init_expr),
            decreases c.signals@.len() - i,
        {
            assert(c@.signals[i as int].init_expr == c.signals@[i as int].init_expr@);
            if !Self::can_fold_expr(&c.signals[i].init_expr) {
                return false;
            }
            i += 1;
        }
        let mut k: usize = 0;
        while k < c.computeds.len()
            invariant
                k <= c.computeds@.len(),
                forall|j: int| 0 <= j < c.signals@.len() ==> folds_safely(#[trigger] c@.signals[j].init_expr),
                forall|j: int| 0 <= j < k ==> folds_safely(#[trigger] c@.computeds[j].expr),
            decreases c.computeds@.len() - k,
        {
            assert(c@.computeds[k as int].expr == c.computeds@[k as int].expr@);
            if !Self::can_fold_expr(&c.computeds[k].expr) {
                return false;
            }
            k += 1;
        }
        let mut m: usize = 0;
        while m < c.methods.len()
            invariant
                m <= c.methods@.len(),
                forall|j: int| 0 <= j < c.signals@.len() ==> folds_safely(#[trigger] c@.signals[j].init_expr),
                forall|j: int| 0 <= j < c.computeds@.len() ==> folds_safely(#[trigger] c@.computeds[j].expr),
                forall|x: int, y: int|
                    0 <= x < m && 0 <= y < c@.methods[x].body.len() ==> stmt_folds_safely(#[trigger] c@.methods[x].body[y]),
            decreases c.methods@.len() - m,
        {
            let body = &c.methods[m].body;
            let mut q: usize = 0;
            while q < body.len()
                invariant
                    q <= body@.len(),
                    m < c.methods@.len(),
                    *body == c.methods@[m as int].body,
                    forall|y: int| 0 <= y < q ==> stmt_folds_safely(#[trigger] c@.methods[m as int].body[y]),
                decreases body@.len() - q,
            {
                assert(c@.methods[m as int].body[q as int] == body@[q as int]@);
                if !Self::can_fold_stmt(&body[q]) {
                    return false;
                }
                q += 1;
            }
            assert forall|x: int, y: int|
                0 <= x < m + 1 && 0 <= y < c@.methods[x].body.len() implies stmt_folds_safely(#[trigger] c@.methods[x].body[y]) by {
                if x == m {
                    assert(c@.methods[x].body.len() == body@.len());
                }
            }
            m += 1;
        }
        match &c.render {
            Some(r) => Self::can_fold_node(&r.root),
            None => true,
        }
    }

    /// Whether folding an expression is safe (never negates `i64::MIN`).
    pub fn can_fold_expr(e: &Expr) -> (b: bool)
        ensures
            b == folds_safely(e@),
        decreases e,
    {
        match e {
            Expr::Binary { left, right, .. } => Self::can_fold_expr(left) && Self::can_fold_expr(right),
            Expr::Unary { op, expr: inner, .. } => {
                if !Self::can_fold_expr(inner) {
                    return false;
                }
                match op {
                    UnaryOp::Neg => {
                        let o = Self::optimize_expr(inner);
                        !is_int_lit(&o, i64::MIN)
                    },
                    UnaryOp::Not => true,
                }
            },
            Expr::Call { callee, args, span } => {
                let mut i: usize = 0;
                while i < args.len()
                    invariant
                        i <= args@.len(),
                        *e == (Expr::Call { callee: *callee, args: *args, span: *span }),
                        forall|j: int| 0 <= j < i ==> folds_safely(#[trigger] args@[j]@),
                    decreases args@.len() - i,
                {
                    proof {
                        assert(decreases_to!(e => args@[i as int]));
                    }
                    if !Self::can_fold_expr(&args[i]) {
                        assert(e@->args[i as int] == args@[i as int]@);
                        return false;
                    }
                    i += 1;
                }
                proof {
                    assert forall|j: int| 0 <= j < e@->args.len() implies folds_safely(#[trigger] e@->args[j]) by {
                        assert(e@->args[j] == args@[j]@);
                    }
                }
                true
            },
            Expr::MemberAccess { object, .. } => Self::can_fold_expr(object),
            _ => true,
        }
    }
}

proof fn lemma_wrapping_identities(a: i64)
    ensures
        a.wrapping_add(0) == a,
        (0i64).wrapping_add(a) == a,
        a.wrapping_sub(0) == a,
        a.wrapping_mul(1) == a,
        (1i64).wrapping_mul(a) == a,
        a.wrapping_mul(0) == 0,
        (0i64).wrapping_mul(a) == 0,
        wrapping_div(a, 1) == a,
{
    assert(a * 1 == a) by (nonlinear_arith);
    assert(1 * a == a) by (nonlinear_arith);
    assert(a * 0 == 0) by (nonlinear_arith);
    assert(0 * a == 0) by (nonlinear_arith);
}

/// The node built over two folded operands has the value of the operator
/// applied to their values, wherever that is defined.
proof fn lemma_fold_binary_value(op: BinaryOp, l: ExprV, r: ExprV, span: Span, env: Env)
    requires
        eval(l, env) is Some,
        eval(r, env) is Some,
        apply_binary(op, eval(l, env).unwrap(), eval(r, env).unwrap()) is Some,
    ensures
        eval(fold_binary(op, l, r, span), env) == apply_binary(
            op,
            eval(l, env).unwrap(),
            eval(r, env).unwrap(),
        ),
{
    let a = eval(l, env).unwrap();
    let b = eval(r, env).unwrap();
    if let Value::Int(x) = a {
        lemma_wrapping_identities(x);
    }
    if let Value::Int(y) = b {
        lemma_wrapping_identities(y);
    }
}

proof fn lemma_eval_args_same(args: Seq<ExprV>, fargs: Seq<ExprV>, env: Env)
    requires
        fargs.len() == args.len(),
        forall|i: int|
            0 <= i < args.len() && eval(args[i], env) is Some ==> eval(#[trigger] fargs[i], env) == eval(
                args[i],
                env,
            ),
    ensures
        eval_args(args, env) is Some ==> eval_args(fargs, env) == eval_args(args, env),
    decreases args.len(),
{
    if args.len() > 0 {
        let n = args.len() - 1;
        lemma_eval_args_same(args.subrange(0, n), fargs.subrange(0, n), env);
        if eval_args(args, env) is Some {
            assert(eval(args[n], env) is Some);
            assert(eval(fargs[n], env) == eval(args[n], env));
        }
    }
}

/// Law: folding never changes the value of an expression that has one, in
/// any environment, where folding is safe (it never negates the literal
/// `i64::MIN`, on which folding overflows).
pub proof fn law_folding_preserves_value(e: ExprV, env: Env)
    requires
        folds_safely(e),
    ensures
        eval(e, env) is Some ==> eval(folded_expr(e), env) == eval(e, env),
    decreases e,
{
    match e {
        ExprV::Binary { op, left, right, span } => {
            law_folding_preserves_value(*left, env);
            law_folding_preserves_value(*right, env);
            if eval(e, env) is Some {
                assert(eval(*left, env) is Some);
                assert(eval(*right, env) is Some);
                assert(eval(e, env) == apply_binary(op, eval(*left, env).unwrap(), eval(*right, env).unwrap()));
                lemma_fold_binary_value(op, folded_expr(*left), folded_expr(*right), span, env);
                assert(folded_expr(e) == fold_binary(op, folded_expr(*left), folded_expr(*right), span));
                assert(eval(folded_expr(*left), env) == eval(*left, env));
                assert(eval(folded_expr(*right), env) == eval(*right, env));
            }
        },
        ExprV::Unary { op, expr, span } => {
            law_folding_preserves_value(*expr, env);
        },
        ExprV::Call { callee, args, span } => {
            let fargs = folded_expr(e)->args;
            assert forall|i: int| 0 <= i < args.len() && eval(args[i], env) is Some implies eval(
                #[trigger] fargs[i],
                env,
            ) == eval(args[i], env) by {
                assert(decreases_to!(e => args[i]));
                law_folding_preserves_value(args[i], env);
            }
            lemma_eval_args_same(args, fargs, env);
        },
        ExprV::MemberAccess { object, member, span } => {
            law_folding_preserves_value(*object, env);
        },
        _ => {},
    }
}


/// The binary node `op` over `l` and `r` with span `t`.
pub open spec fn bin(op: BinaryOp, l: ExprV, r: ExprV, t: Span) -> ExprV {
    ExprV::Binary { op, left: Box::new(l), right: Box::new(r), span: t }
}

/// Law: the algebraic identities: where `l` folds to something other than
/// a literal, `l+0`, `0+l`, `l-0`, `l*1` and `l/1` fold to the folded `l`;
/// `l*0` folds to the `0`; `l&&true` and `l||false` fold to the folded `l`;
/// `l&&false` and `l||true` fold to the absorbing literal.
pub proof fn law_fold_identities(l: ExprV, s: Span, t: Span)
    requires
        !(folded_expr(l) is IntLit),
        !(folded_expr(l) is BoolLit),
    ensures
        ({
            let f = folded_expr(l);
            let zero = ExprV::IntLit(0, s);
            let one = ExprV::IntLit(1, s);
            let yes = ExprV::BoolLit(true, s);
            let no = ExprV::BoolLit(false, s);
            &&& folded_expr(bin(BinaryOp::Add, l, zero, t)) == f
            &&& folded_expr(bin(BinaryOp::Add, zero, l, t)) == f
            &&& folded_expr(bin(BinaryOp::Sub, l, zero, t)) == f
            &&& folded_expr(bin(BinaryOp::Mul, l, one, t)) == f
            &&& folded_expr(bin(BinaryOp::Mul, l, zero, t)) == zero
            &&& folded_expr(bin(BinaryOp::Div, l, one, t)) == f
            &&& folded_expr(bin(BinaryOp::And, l, yes, t)) == f
            &&& folded_expr(bin(BinaryOp::And, l, no, t)) == no
            &&& folded_expr(bin(BinaryOp::Or, l, no, t)) == f
            &&& folded_expr(bin(BinaryOp::Or, l, yes, t)) == yes
        }),
{
    let zero = ExprV::IntLit(0, s);
    let one = ExprV::IntLit(1, s);
    let yes = ExprV::BoolLit(true, s);
    let no = ExprV::BoolLit(false, s);
    assert(folded_expr(zero) == zero);
    assert(folded_expr(one) == one);
    assert(folded_expr(yes) == yes);
    assert(folded_expr(no) == no);
}

/// Law: folding a statement keeps its kind, names, types, operator and span,
/// folds each expression it holds directly, and folds the statements of its
/// branches one by one, keeping their number and order.
pub proof fn law_fold_stmt_shape(st: StmtV)
    ensures
        match (st, folded_stmt(st)) {
            (StmtV::Let { name, type_ann, is_mut, init, span }, StmtV::Let { name: n2, type_ann: t2, is_mut: m2, init: i2, span: s2 }) =>
                n2 == name && t2 == type_ann && m2 == is_mut && s2 == span && i2 == folded_expr(init),
            (StmtV::Assign { target, value, span }, StmtV::Assign { target: t2, value: v2, span: s2 }) =>
                t2 == target && s2 == span && v2 == folded_expr(value),
            (StmtV::AssignOp { target, op, value, span }, StmtV::AssignOp { target: t2, op: o2, value: v2, span: s2 }) =>
                t2 == target && o2 == op && s2 == span && v2 == folded_expr(value),
            (StmtV::Expr(e), StmtV::Expr(e2)) => e2 == folded_expr(e),
            (StmtV::If { cond, then_branch, else_branch, span }, StmtV::If { cond: c2, then_branch: t2, else_branch: e2, span: s2 }) => {
                &&& c2 == folded_expr(cond)
                &&& s2 == span
                &&& t2.len() == then_branch.len()
                &&& forall|i: int| 0 <= i < t2.len() ==> t2[i] == folded_stmt(#[trigger] then_branch[i])
                &&& (e2 is None <==> else_branch is None)
                &&& (else_branch matches Some(b) ==> e2 matches Some(b2) && b2.len() == b.len() && forall|i: int|
                    0 <= i < b.len() ==> b2[i] == folded_stmt(#[trigger] b[i]))
            },
            (StmtV::Return(e, span), StmtV::Return(e2, s2)) => s2 == span && match e {
                Some(x) => e2 == Some(folded_expr(x)),
                None => e2 is None,
            },
            _ => false,
        },
{
}

/// Law: folding a template node keeps a text as it is, folds a dynamic
/// expression, and keeps an element's tag, attributes, events and span while
/// folding its children one by one, keeping their number and order.
pub proof fn law_fold_node_shape(n: TemplateNodeV)
    ensures
        match (n, folded_node(n)) {
            (TemplateNodeV::Text(t, s), TemplateNodeV::Text(t2, s2)) => t2 == t && s2 == s,
            (TemplateNodeV::DynamicExpr(e, s), TemplateNodeV::DynamicExpr(e2, s2)) => e2 == folded_expr(e) && s2 == s,
            (TemplateNodeV::Element(el), TemplateNodeV::Element(el2)) => {
                &&& el2.tag == el.tag
                &&& el2.attributes == el.attributes
                &&& el2.events == el.events
                &&& el2.span == el.span
                &&& el2.children.len() == el.children.len()
                &&& forall|i: int| 0 <= i < el.children.len() ==> el2.children[i] == folded_node(#[trigger] el.children[i])
            },
            _ => false,
        },
{
}

/// Law: folding a component keeps its name, export flag and span, and the
/// number, order, names and types of its signals, computeds and methods; it
/// folds each initializer and computed expression, each method body
/// statement by statement, and the render root.
pub proof fn law_fold_component_shape(c: ComponentDeclV)
    ensures
        ({
            let f = folded_component(c);
            &&& f.name == c.name && f.is_exported == c.is_exported && f.span == c.span
            &&& f.signals.len() == c.signals.len()
            &&& forall|i: int| 0 <= i < c.signals.len() ==> {
                &&& (#[trigger] f.signals[i]).name == c.signals[i].name
                &&& f.signals[i].type_ann == c.signals[i].type_ann
                &&& f.signals[i].span == c.signals[i].span
                &&& f.signals[i].init_expr == folded_expr(c.signals[i].init_expr)
            }
            &&& f.computeds.len() == c.computeds.len()
            &&& forall|i: int| 0 <= i < c.computeds.len() ==> {
                &&& (#[trigger] f.computeds[i]).name == c.computeds[i].name
                &&& f.computeds[i].type_ann == c.computeds[i].type_ann
                &&& f.computeds[i].span == c.computeds[i].span
                &&& f.computeds[i].expr == folded_expr(c.computeds[i].expr)
            }
            &&& f.methods.len() == c.methods.len()
            &&& forall|i: int| 0 <= i < c.methods.len() ==> {
                &&& (#[trigger] f.methods[i]).name == c.methods[i].name
                &&& f.methods[i].params == c.methods[i].params
                &&& f.methods[i].return_type == c.methods[i].return_type
                &&& f.methods[i].span == c.methods[i].span
                &&& f.methods[i].body.len() == c.methods[i].body.len()
                &&& forall|k: int| 0 <= k < c.methods[i].body.len() ==> f.methods[i].body[k] == folded_stmt(
                    #[trigger] c.methods[i].body[k],
                )
            }
            &&& (f.render is None <==> c.render is None)
            &&& (c.render matches Some(r) ==> f.render matches Some(r2) && r2.root == folded_node(r.root)
                && r2.span == r.span)
        }),
{
}

/// A binary node over operands that folding leaves as they are folds to
/// something that folding leaves as it is, and folds safely when they do.
proof fn lemma_fold_binary_fixed(op: BinaryOp, l: ExprV, r: ExprV, span: Span)
    requires
        folded_expr(l) == l,
        folded_expr(r) == r,
    ensures
        folded_expr(fold_binary(op, l, r, span)) == fold_binary(op, l, r, span),
        folds_safely(l) && folds_safely(r) ==> folds_safely(fold_binary(op, l, r, span)),
{
    let x = fold_binary(op, l, r, span);
    if x == (ExprV::Binary { op, left: Box::new(l), right: Box::new(r), span }) {
        assert(folded_expr(x) == fold_binary(op, folded_expr(l), folded_expr(r), span));
    }
}

/// Law: folding is idempotent: the folded form of an expression folds to
/// itself; and an expression that folds safely has a folded form that does too.
pub proof fn law_folding_idempotent(e: ExprV)
    ensures
        folded_expr(folded_expr(e)) == folded_expr(e),
        folds_safely(e) ==> folds_safely(folded_expr(e)),
    decreases e,
{
    match e {
        ExprV::Binary { op, left, right, span } => {
            law_folding_idempotent(*left);
            law_folding_idempotent(*right);
            lemma_fold_binary_fixed(op, folded_expr(*left), folded_expr(*right), span);
        },
        ExprV::Unary { op, expr, span } => {
            law_folding_idempotent(*expr);
            let x = folded_expr(*expr);
            let u = fold_unary(op, x, span);
            if u == (ExprV::Unary { op, expr: Box::new(x), span }) {
                assert(folded_expr(u) == fold_unary(op, folded_expr(x), span));
            }
        },
        ExprV::Call { callee, args, span } => {
            let f = folded_expr(e);
            let fargs = f->args;
            assert forall|i: int| 0 <= i < args.len() implies folded_expr(#[trigger] fargs[i]) == fargs[i]
                && (folds_safely(args[i]) ==> folds_safely(fargs[i])) by {
                assert(decreases_to!(e => args[i]));
                law_folding_idempotent(args[i]);
            }
            assert(folded_expr(f)->args =~= fargs);
        },
        ExprV::MemberAccess { object, member, span } => {
            law_folding_idempotent(*object);
        },
        _ => {},
    }
}

} // verus!
