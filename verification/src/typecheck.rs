//! The typecheck engine: a single walk over one module's statements and
//! expressions, producing a type for every expression, a diagnostic list,
//! and the module's published [`Interface`].  The walk never stops at a
//! failure: every local failure is recorded and downgraded to `Any` (or
//! `Never` for unreachable code) so that the enclosing expressions can still
//! be typed.

use vstd::prelude::*;

use crate::bindings::Bindings;
use crate::bindings::Interface;
use crate::bindings::interface_of;
use crate::bindings::ty_or_never;
use crate::error::BinOp;
use crate::error::Span;
use crate::error::SpecErr;
use crate::error::SpecErrKind;
use crate::error::TypingError;
use crate::error::TypingErrorKind;
use crate::error::errs_view;
use crate::function::Arg;
use crate::function::SpecArg;
use crate::function::arg_view;
use crate::function::find_named;
use crate::function::spec_match_call;
use crate::oracle::TypingOracle;
use crate::ty::SpecBasic;
use crate::ty::SpecField;
use crate::ty::Ty;
use crate::ty::spec_union;
use crate::views::fields_view;
use crate::views::ty_view;

verus! {

broadcast use {
    vstd::seq::axiom_seq_index_decreases,
    vstd::seq::axiom_seq_subrange_decreases,
    vstd::std_specs::vec::axiom_vec_index_decreases,
    vstd::std_specs::vec::axiom_vec_decreases_to_view,
};

/// One expression of the checked language, with its source span.
pub struct Expr {
    pub span: Span,
    pub kind: ExprKind,
}

/// The shapes of expressions the checker understands.
pub enum ExprKind {
    /// The literal `None`.
    NoneLit,
    BoolLit(bool),
    IntLit(i64),
    StrLit(String),
    /// A floating-point literal; its value plays no role in typing.
    FloatLit,
    /// A reference to a name in scope.
    Name(String),
    /// A list display.
    ListExpr(Vec<Expr>),
    /// A tuple display.
    TupleExpr(Vec<Expr>),
    /// A dictionary display.
    DictExpr(Vec<DictEntry>),
    /// A struct literal: a fresh closed record.
    StructLit(Vec<FieldInit>),
    /// Attribute access, `base.name`.
    Attr(Box<Expr>, String),
    /// A call, `callee(args...)`.
    Call(Box<Expr>, Vec<CallArg>),
    /// A binary operation.
    Binary(BinOp, Box<Expr>, Box<Expr>),
}

/// One `key: value` entry of a dictionary display.
pub struct DictEntry {
    pub key: Expr,
    pub value: Expr,
}

/// One `name: value` field of a struct literal.
pub struct FieldInit {
    pub name: String,
    pub value: Expr,
}

/// One argument expression at a call site.
pub enum CallArg {
    Pos(Expr),
    Named(String, Expr),
    Args(Expr),
    Kwargs(Expr),
}

/// One statement of the checked language, with its source span.
pub struct Stmt {
    pub span: Span,
    pub kind: StmtKind,
}

/// The statements the checker understands.
pub enum StmtKind {
    /// `name = value`.
    Assign(String, Expr),
    /// `name: ty = value`: an annotated assignment, checked against the
    /// annotation, which then wins.
    AnnAssign(String, Ty, Expr),
    /// An expression evaluated for effect.
    ExprStmt(Expr),
    /// `if cond: ... else: ...`; each branch walks a copy of the scope and
    /// the results are merged by union.
    If(Expr, Vec<Stmt>, Vec<Stmt>),
    /// `for name in iterable: ...`; the body is walked once and merged with
    /// the pre-loop scope (one pass, no fixed point).
    For(String, Expr, Vec<Stmt>),
    /// `return value`; makes the rest of the block unreachable.
    Return(Option<Expr>),
    /// A function definition; the body is walked in a nested scope seeded
    /// with the parameters, and the name is bound to the callable type.
    Def(DefFunction),
}

/// A function definition: its name, its declared signature, and its body.
/// An unannotated return is declared as `Any` by the parser.
pub struct DefFunction {
    pub name: String,
    pub sig: crate::ty::TyFunction,
    pub body: Vec<Stmt>,
}

/// A type result of the walk: the fallback type the walk goes on with, and
/// whether it is fully precise.  Any expression built from an imprecise
/// operand is itself imprecise, unless the operation provably discards the
/// operand.
pub struct Approximation {
    pub fallback: Ty,
    pub precise: bool,
}

/// Ghost result of inferring one expression.
#[verifier::ext_equal]
pub struct SpecInfer {
    pub ty: Seq<SpecBasic>,
    pub precise: bool,
    pub errs: Seq<SpecErr>,
}

/// Ghost result of inferring a list of expressions.
#[verifier::ext_equal]
pub struct SpecInferMany {
    pub tys: Seq<Seq<SpecBasic>>,
    pub precise: bool,
    pub errs: Seq<SpecErr>,
}

/// Ghost result of inferring the fields of a struct literal.
#[verifier::ext_equal]
pub struct SpecInferFields {
    pub fields: Seq<SpecField>,
    pub precise: bool,
    pub errs: Seq<SpecErr>,
}

/// Ghost result of inferring the arguments of a call.
#[verifier::ext_equal]
pub struct SpecInferArgs {
    pub args: Seq<SpecArg>,
    pub precise: bool,
    pub errs: Seq<SpecErr>,
}

/// Ghost result of walking statements: the scope afterwards, the
/// diagnostics, and whether the walk provably cannot fall through (an
/// unconditional return was seen).
#[verifier::ext_equal]
pub struct SpecWalk {
    pub env: Map<Seq<char>, Seq<SpecBasic>>,
    pub errs: Seq<SpecErr>,
    pub terminated: bool,
}

/// The union of a sequence of types; the empty sequence gives `Never`.
pub open spec fn union_all(ts: Seq<Seq<SpecBasic>>) -> Seq<SpecBasic>
    decreases ts.len(),
{
    if ts.len() == 0 {
        Seq::empty()
    } else {
        spec_union(union_all(ts.drop_last()), ts.last())
    }
}

/// The element type a `for` loop draws from an iterable of this union type:
/// what each alternative yields, unioned; an alternative that cannot be
/// iterated yields nothing.
pub open spec fn iter_elem(t: Seq<SpecBasic>) -> Seq<SpecBasic>
    decreases t.len(),
{
    if t.len() == 0 {
        Seq::empty()
    } else {
        spec_union(iter_elem(t.drop_last()), iter_elem_basic(t.last()))
    }
}

/// The element type one alternative yields when iterated.
pub open spec fn iter_elem_basic(b: SpecBasic) -> Seq<SpecBasic> {
    match b {
        SpecBasic::List(t) => t,
        SpecBasic::Iter(t) => t,
        SpecBasic::Dict(k, v) => k,
        SpecBasic::Tuple(ts) => union_all(ts),
        SpecBasic::Str => seq![SpecBasic::Str],
        SpecBasic::Any => seq![SpecBasic::Any],
        _ => Seq::empty(),
    }
}

/// What attribute access means on one alternative: structural on records,
/// `Any` on `Any`, and the oracle's answer on everything else, falling back
/// to an imprecise `Any` where the oracle does not know.
pub open spec fn spec_attr_basic<O: TypingOracle>(
    o: &O,
    b: SpecBasic,
    name: Seq<char>,
    span: Span,
) -> SpecInfer {
    match b {
        SpecBasic::Any => SpecInfer { ty: seq![SpecBasic::Any], precise: true, errs: Seq::empty() },
        SpecBasic::Struct(s) => match find_named(s.fields, name) {
            Option::Some(t) => SpecInfer { ty: t, precise: true, errs: Seq::empty() },
            Option::None => if s.extra {
                SpecInfer { ty: seq![SpecBasic::Any], precise: false, errs: Seq::empty() }
            } else {
                SpecInfer {
                    ty: seq![SpecBasic::Any],
                    precise: true,
                    errs: seq![
                        SpecErr {
                            kind: SpecErrKind::NotSupportedAttribute { attr: name },
                            span,
                        },
                    ],
                }
            },
        },
        _ => match o.attr_spec(b, name) {
            Option::Some(t) => SpecInfer { ty: t, precise: true, errs: Seq::empty() },
            Option::None => SpecInfer {
                ty: seq![SpecBasic::Any],
                precise: false,
                errs: Seq::empty(),
            },
        },
    }
}

/// Attribute access on a union: each alternative resolved on its own, the
/// results unioned, the diagnostics concatenated.  On `Never` the access is
/// `Never` with no diagnostics.
pub open spec fn spec_attr_ty<O: TypingOracle>(
    o: &O,
    recv: Seq<SpecBasic>,
    name: Seq<char>,
    span: Span,
) -> SpecInfer
    decreases recv.len(),
{
    if recv.len() == 0 {
        SpecInfer { ty: Seq::empty(), precise: true, errs: Seq::empty() }
    } else {
        let pre = spec_attr_ty(o, recv.drop_last(), name, span);
        let one = spec_attr_basic(o, recv.last(), name, span);
        SpecInfer {
            ty: spec_union(pre.ty, one.ty),
            precise: pre.precise && one.precise,
            errs: pre.errs + one.errs,
        }
    }
}

/// What one pair of operand alternatives gives under an operator: the
/// oracle's answer, or an incompatible-operator diagnostic where it has
/// none.
pub open spec fn spec_binop_pair<O: TypingOracle>(
    o: &O,
    op: BinOp,
    l: SpecBasic,
    r: SpecBasic,
    span: Span,
) -> SpecInfer {
    if l == SpecBasic::Any || r == SpecBasic::Any {
        SpecInfer { ty: seq![SpecBasic::Any], precise: true, errs: Seq::empty() }
    } else {
        match o.binop_spec(op, l, r) {
            Option::Some(t) => SpecInfer { ty: t, precise: true, errs: Seq::empty() },
            Option::None => SpecInfer {
                ty: seq![SpecBasic::Any],
                precise: true,
                errs: seq![
                    SpecErr {
                        kind: SpecErrKind::IncompatibleBinOp { op, left: seq![l], right: seq![r] },
                        span,
                    },
                ],
            },
        }
    }
}

/// One left alternative against every right alternative.
pub open spec fn spec_binop_one<O: TypingOracle>(
    o: &O,
    op: BinOp,
    l: SpecBasic,
    rt: Seq<SpecBasic>,
    span: Span,
) -> SpecInfer
    decreases rt.len(),
{
    if rt.len() == 0 {
        SpecInfer { ty: Seq::empty(), precise: true, errs: Seq::empty() }
    } else {
        let pre = spec_binop_one(o, op, l, rt.drop_last(), span);
        let one = spec_binop_pair(o, op, l, rt.last(), span);
        SpecInfer {
            ty: spec_union(pre.ty, one.ty),
            precise: pre.precise && one.precise,
            errs: pre.errs + one.errs,
        }
    }
}

/// A binary operator on two unions: every pair of alternatives resolved on
/// its own, the results unioned, the diagnostics concatenated.
pub open spec fn spec_binop_ty<O: TypingOracle>(
    o: &O,
    op: BinOp,
    lt: Seq<SpecBasic>,
    rt: Seq<SpecBasic>,
    span: Span,
) -> SpecInfer
    decreases lt.len(),
{
    if lt.len() == 0 {
        SpecInfer { ty: Seq::empty(), precise: true, errs: Seq::empty() }
    } else {
        let pre = spec_binop_ty(o, op, lt.drop_last(), rt, span);
        let one = spec_binop_one(o, op, lt.last(), rt, span);
        SpecInfer {
            ty: spec_union(pre.ty, one.ty),
            precise: pre.precise && one.precise,
            errs: pre.errs + one.errs,
        }
    }
}

/// The call-matching diagnostics with the call's span attached.
pub open spec fn with_span(kinds: Seq<SpecErrKind>, span: Span) -> Seq<SpecErr>
    decreases kinds.len(),
{
    if kinds.len() == 0 {
        Seq::empty()
    } else {
        with_span(kinds.drop_last(), span).push(SpecErr { kind: kinds.last(), span })
    }
}

/// What calling one callee alternative gives: matching against a callable's
/// signature, the oracle's signature for a named callable identity (an
/// imprecise `Any` where it has none), `Any` on `Any`, and a not-callable
/// diagnostic on everything else.
pub open spec fn spec_call_basic<O: TypingOracle>(
    o: &O,
    b: SpecBasic,
    args: Seq<SpecArg>,
    span: Span,
) -> SpecInfer {
    match b {
        SpecBasic::Any => SpecInfer { ty: seq![SpecBasic::Any], precise: false, errs: Seq::empty() },
        SpecBasic::Callable(f) => SpecInfer {
            ty: f.result,
            precise: true,
            errs: with_span(spec_match_call(f, args), span),
        },
        SpecBasic::Name(n) => match o.callable_spec(SpecBasic::Name(n)) {
            Option::Some(f) => SpecInfer {
                ty: f.result,
                precise: true,
                errs: with_span(spec_match_call(f, args), span),
            },
            Option::None => SpecInfer {
                ty: seq![SpecBasic::Any],
                precise: false,
                errs: Seq::empty(),
            },
        },
        _ => SpecInfer {
            ty: seq![SpecBasic::Any],
            precise: true,
            errs: seq![SpecErr { kind: SpecErrKind::NotCallable, span }],
        },
    }
}

/// A call on a union of callees: each branch resolved on its own, the
/// results unioned, the diagnostics concatenated.
pub open spec fn spec_call_ty<O: TypingOracle>(
    o: &O,
    callee: Seq<SpecBasic>,
    args: Seq<SpecArg>,
    span: Span,
) -> SpecInfer
    decreases callee.len(),
{
    if callee.len() == 0 {
        SpecInfer { ty: Seq::empty(), precise: true, errs: Seq::empty() }
    } else {
        let pre = spec_call_ty(o, callee.drop_last(), args, span);
        let one = spec_call_basic(o, callee.last(), args, span);
        SpecInfer {
            ty: spec_union(pre.ty, one.ty),
            precise: pre.precise && one.precise,
            errs: pre.errs + one.errs,
        }
    }
}

/// What the walk infers for one expression, in the given scope, consulting
/// the given oracle.
pub open spec fn infer_expr<O: TypingOracle>(
    o: &O,
    env: Map<Seq<char>, Seq<SpecBasic>>,
    e: Expr,
) -> SpecInfer
    decreases e,
{
    match e.kind {
        ExprKind::NoneLit => SpecInfer {
            ty: seq![SpecBasic::NoneType],
            precise: true,
            errs: Seq::empty(),
        },
        ExprKind::BoolLit(_) => SpecInfer {
            ty: seq![SpecBasic::Bool],
            precise: true,
            errs: Seq::empty(),
        },
        ExprKind::IntLit(_) => SpecInfer {
            ty: seq![SpecBasic::Int],
            precise: true,
            errs: Seq::empty(),
        },
        ExprKind::StrLit(_) => SpecInfer {
            ty: seq![SpecBasic::Str],
            precise: true,
            errs: Seq::empty(),
        },
        ExprKind::FloatLit => SpecInfer {
            ty: seq![SpecBasic::Float],
            precise: true,
            errs: Seq::empty(),
        },
        ExprKind::Name(n) => if env.contains_key(n@) {
            SpecInfer { ty: env[n@], precise: true, errs: Seq::empty() }
        } else {
            SpecInfer {
                ty: seq![SpecBasic::Any],
                precise: true,
                errs: seq![
                    SpecErr { kind: SpecErrKind::NotInScope { name: n@ }, span: e.span },
                ],
            }
        },
        ExprKind::ListExpr(es) => {
            let inner = infer_exprs(o, env, es@);
            SpecInfer {
                ty: seq![SpecBasic::List(union_all(inner.tys))],
                precise: inner.precise,
                errs: inner.errs,
            }
        },
        ExprKind::TupleExpr(es) => {
            let inner = infer_exprs(o, env, es@);
            SpecInfer {
                ty: seq![SpecBasic::Tuple(inner.tys)],
                precise: inner.precise,
                errs: inner.errs,
            }
        },
        ExprKind::DictExpr(entries) => {
            let keys = infer_keys(o, env, entries@);
            let vals = infer_vals(o, env, entries@);
            SpecInfer {
                ty: seq![SpecBasic::Dict(union_all(keys.tys), union_all(vals.tys))],
                precise: keys.precise && vals.precise,
                errs: keys.errs + vals.errs,
            }
        },
        ExprKind::StructLit(fields) => {
            let inner = infer_fields(o, env, fields@);
            SpecInfer {
                ty: seq![
                    SpecBasic::Struct(
                        crate::ty::SpecStruct { fields: inner.fields, extra: false },
                    ),
                ],
                precise: inner.precise,
                errs: inner.errs,
            }
        },
        ExprKind::Attr(base, name) => {
            let b = infer_expr(o, env, *base);
            let a = spec_attr_ty(o, b.ty, name@, e.span);
            SpecInfer {
                ty: a.ty,
                precise: b.precise && a.precise,
                errs: b.errs + a.errs,
            }
        },
        ExprKind::Call(callee, args) => {
            let cl = infer_expr(o, env, *callee);
            let ar = infer_args(o, env, args@);
            let out = spec_call_ty(o, cl.ty, ar.args, e.span);
            SpecInfer {
                ty: out.ty,
                precise: cl.precise && ar.precise && out.precise,
                errs: cl.errs + ar.errs + out.errs,
            }
        },
        ExprKind::Binary(op, l, r) => {
            let lo = infer_expr(o, env, *l);
            let ro = infer_expr(o, env, *r);
            let out = spec_binop_ty(o, op, lo.ty, ro.ty, e.span);
            SpecInfer {
                ty: out.ty,
                precise: lo.precise && ro.precise && out.precise,
                errs: lo.errs + ro.errs + out.errs,
            }
        },
    }
}

/// Infer a list of expressions, in order.
pub open spec fn infer_exprs<O: TypingOracle>(
    o: &O,
    env: Map<Seq<char>, Seq<SpecBasic>>,
    es: Seq<Expr>,
) -> SpecInferMany
    decreases es,
{
    if es.len() == 0 {
        SpecInferMany { tys: Seq::empty(), precise: true, errs: Seq::empty() }
    } else {
        let pre = infer_exprs(o, env, es.drop_last());
        let one = infer_expr(o, env, es.last());
        SpecInferMany {
            tys: pre.tys.push(one.ty),
            precise: pre.precise && one.precise,
            errs: pre.errs + one.errs,
        }
    }
}

/// Infer the key expressions of a dictionary display, in order.
pub open spec fn infer_keys<O: TypingOracle>(
    o: &O,
    env: Map<Seq<char>, Seq<SpecBasic>>,
    es: Seq<DictEntry>,
) -> SpecInferMany
    decreases es,
{
    if es.len() == 0 {
        SpecInferMany { tys: Seq::empty(), precise: true, errs: Seq::empty() }
    } else {
        let pre = infer_keys(o, env, es.drop_last());
        let one = infer_expr(o, env, es.last().key);
        SpecInferMany {
            tys: pre.tys.push(one.ty),
            precise: pre.precise && one.precise,
            errs: pre.errs + one.errs,
        }
    }
}

/// Infer the value expressions of a dictionary display, in order.
pub open spec fn infer_vals<O: TypingOracle>(
    o: &O,
    env: Map<Seq<char>, Seq<SpecBasic>>,
    es: Seq<DictEntry>,
) -> SpecInferMany
    decreases es,
{
    if es.len() == 0 {
        SpecInferMany { tys: Seq::empty(), precise: true, errs: Seq::empty() }
    } else {
        let pre = infer_vals(o, env, es.drop_last());
        let one = infer_expr(o, env, es.last().value);
        SpecInferMany {
            tys: pre.tys.push(one.ty),
            precise: pre.precise && one.precise,
            errs: pre.errs + one.errs,
        }
    }
}

/// Infer the fields of a struct literal, in order: the literal becomes a
/// fresh closed record of its fields' inferred types.
pub open spec fn infer_fields<O: TypingOracle>(
    o: &O,
    env: Map<Seq<char>, Seq<SpecBasic>>,
    fs: Seq<FieldInit>,
) -> SpecInferFields
    decreases fs,
{
    if fs.len() == 0 {
        SpecInferFields { fields: Seq::empty(), precise: true, errs: Seq::empty() }
    } else {
        let pre = infer_fields(o, env, fs.drop_last());
        let one = infer_expr(o, env, fs.last().value);
        SpecInferFields {
            fields: pre.fields.push(SpecField { name: fs.last().name@, ty: one.ty }),
            precise: pre.precise && one.precise,
            errs: pre.errs + one.errs,
        }
    }
}

/// Infer the arguments of a call, in order, keeping how each is passed.
pub open spec fn infer_args<O: TypingOracle>(
    o: &O,
    env: Map<Seq<char>, Seq<SpecBasic>>,
    args: Seq<CallArg>,
) -> SpecInferArgs
    decreases args,
{
    if args.len() == 0 {
        SpecInferArgs { args: Seq::empty(), precise: true, errs: Seq::empty() }
    } else {
        let pre = infer_args(o, env, args.drop_last());
        let one = match args.last() {
            CallArg::Pos(e) => {
                let i = infer_expr(o, env, e);
                SpecInferArgs {
                    args: pre.args.push(SpecArg::Pos(i.ty)),
                    precise: pre.precise && i.precise,
                    errs: pre.errs + i.errs,
                }
            },
            CallArg::Named(n, e) => {
                let i = infer_expr(o, env, e);
                SpecInferArgs {
                    args: pre.args.push(SpecArg::Named(n@, i.ty)),
                    precise: pre.precise && i.precise,
                    errs: pre.errs + i.errs,
                }
            },
            CallArg::Args(e) => {
                let i = infer_expr(o, env, e);
                SpecInferArgs {
                    args: pre.args.push(SpecArg::Args(i.ty)),
                    precise: pre.precise && i.precise,
                    errs: pre.errs + i.errs,
                }
            },
            CallArg::Kwargs(e) => {
                let i = infer_expr(o, env, e);
                SpecInferArgs {
                    args: pre.args.push(SpecArg::Kwargs(i.ty)),
                    precise: pre.precise && i.precise,
                    errs: pre.errs + i.errs,
                }
            },
        };
        one
    }
}

/// The merge of two branch scopes: every name bound in either, at the union
/// of its types, an unbound branch contributing `Never`.
pub open spec fn merge_envs(
    a: Map<Seq<char>, Seq<SpecBasic>>,
    b: Map<Seq<char>, Seq<SpecBasic>>,
) -> Map<Seq<char>, Seq<SpecBasic>> {
    Map::new(
        |k: Seq<char>| a.contains_key(k) || b.contains_key(k),
        |k: Seq<char>| spec_union(ty_or_never(a, k), ty_or_never(b, k)),
    )
}

/// A scope seeded with a signature's parameters, each at its declared type;
/// a later parameter of the same name wins.
pub open spec fn seed_params(
    env: Map<Seq<char>, Seq<SpecBasic>>,
    params: Seq<crate::ty::SpecParam>,
) -> Map<Seq<char>, Seq<SpecBasic>>
    decreases params.len(),
{
    if params.len() == 0 {
        env
    } else {
        seed_params(env, params.drop_last()).insert(params.last().name, params.last().ty)
    }
}

/// What the walk does with one statement: the scope afterwards, the
/// diagnostics, and whether the statement cannot fall through.
pub open spec fn walk_stmt<O: TypingOracle>(
    o: &O,
    env: Map<Seq<char>, Seq<SpecBasic>>,
    s: Stmt,
) -> SpecWalk
    decreases s,
{
    match s.kind {
        StmtKind::Assign(n, e) => {
            let i = infer_expr(o, env, e);
            SpecWalk { env: env.insert(n@, i.ty), errs: i.errs, terminated: false }
        },
        StmtKind::AnnAssign(n, ann, e) => {
            let i = infer_expr(o, env, e);
            let check = if crate::ty::sub_ty(i.ty, ty_view(ann)) {
                Seq::empty()
            } else {
                seq![
                    SpecErr {
                        kind: SpecErrKind::IncompatibleAssignment {
                            expected: ty_view(ann),
                            found: i.ty,
                        },
                        span: s.span,
                    },
                ]
            };
            SpecWalk { env: env.insert(n@, ty_view(ann)), errs: i.errs + check, terminated: false }
        },
        StmtKind::ExprStmt(e) => {
            let i = infer_expr(o, env, e);
            SpecWalk { env, errs: i.errs, terminated: false }
        },
        StmtKind::If(c, then, els) => {
            let ci = infer_expr(o, env, c);
            let tw = walk_stmts(o, env, then@);
            let ew = walk_stmts(o, env, els@);
            let merged = if tw.terminated && !ew.terminated {
                ew.env
            } else if ew.terminated && !tw.terminated {
                tw.env
            } else {
                merge_envs(tw.env, ew.env)
            };
            SpecWalk {
                env: merged,
                errs: ci.errs + tw.errs + ew.errs,
                terminated: tw.terminated && ew.terminated,
            }
        },
        StmtKind::For(n, it, body) => {
            let ci = infer_expr(o, env, it);
            let env1 = env.insert(n@, iter_elem(ci.ty));
            let bw = walk_stmts(o, env1, body@);
            SpecWalk {
                env: merge_envs(env1, bw.env),
                errs: ci.errs + bw.errs,
                terminated: false,
            }
        },
        StmtKind::Return(opt) => {
            let errs = match opt {
                Option::Some(e) => infer_expr(o, env, e).errs,
                Option::None => Seq::empty(),
            };
            SpecWalk { env, errs, terminated: true }
        },
        StmtKind::Def(d) => {
            let f = crate::views::fun_view(d.sig);
            let fnty = seq![SpecBasic::Callable(f)];
            let inner = seed_params(env.insert(d.name@, fnty), f.params);
            let bw = walk_stmts(o, inner, d.body@);
            SpecWalk { env: env.insert(d.name@, fnty), errs: bw.errs, terminated: false }
        },
    }
}

/// What the walk does with a block of statements, front to back, threading
/// the scope through.  A statement after an unconditional return is still
/// walked (its diagnostics still surface), but the block is marked as not
/// falling through.
pub open spec fn walk_stmts<O: TypingOracle>(
    o: &O,
    env: Map<Seq<char>, Seq<SpecBasic>>,
    stmts: Seq<Stmt>,
) -> SpecWalk
    decreases stmts,
{
    if stmts.len() == 0 {
        SpecWalk { env, errs: Seq::empty(), terminated: false }
    } else {
        let first = walk_stmt(o, env, stmts[0]);
        let rest = walk_stmts(o, first.env, stmts.drop_first());
        SpecWalk {
            env: rest.env,
            errs: first.errs + rest.errs,
            terminated: first.terminated || rest.terminated,
        }
    }
}

/// The walking context: the oracle in use and the diagnostic sink, so that
/// the components that need a fact lookup and uniform error collection do
/// not thread the two separately.
pub struct TypingOracleCtx<O> {
    pub oracle: O,
    pub errors: Vec<TypingError>,
}

impl<O: TypingOracle> TypingOracleCtx<O> {
    /// A fresh context over an oracle, with no diagnostics yet.
    pub fn new(oracle: O) -> (r: TypingOracleCtx<O>)
        ensures
            r.oracle == oracle,
            r.errors@.len() == 0,
    {
        TypingOracleCtx { oracle, errors: Vec::new() }
    }

    /// Record one diagnostic.
    fn push_err(&mut self, kind: TypingErrorKind, span: Span)
        ensures
            final(self).oracle == old(self).oracle,
            errs_view(final(self).errors@) == errs_view(old(self).errors@).push(
                SpecErr { kind: crate::error::kind_view(kind), span },
            ),
    {
        let ghost before = self.errors@;
        let ghost kv = crate::error::kind_view(kind);
        self.errors.push(TypingError { kind, span });
        proof {
            assert(self.errors@.drop_last() =~= before);
            crate::error::errs_view_len(before);
        }
    }

    /// Record a batch of call-matching diagnostics under the call's span.
    fn push_kind_errs(&mut self, kinds: Vec<TypingErrorKind>, span: Span)
        ensures
            final(self).oracle == old(self).oracle,
            errs_view(final(self).errors@) == errs_view(old(self).errors@) + with_span(
                crate::error::kinds_view(kinds@),
                span,
            ),
    {
        let ghost kv = crate::error::kinds_view(kinds@);
        proof {
            crate::error::kinds_view_len(kinds@);
        }
        let n = kinds.len();
        let mut rest = kinds;
        let mut i: usize = 0;
        proof {
            assert(with_span(kv.take(0), span) =~= Seq::<SpecErr>::empty());
            assert(errs_view(self.errors@) =~= errs_view(self.errors@) + with_span(
                kv.take(0),
                span,
            ));
        }
        while i < n
            invariant
                0 <= i <= n,
                n == kv.len(),
                rest@.len() == n - i,
                self.oracle == old(self).oracle,
                crate::error::kinds_view(rest@) == kv.skip(i as int),
                errs_view(self.errors@) == errs_view(old(self).errors@) + with_span(
                    kv.take(i as int),
                    span,
                ),
            decreases n - i,
        {
            let ghost rv = rest@;
            let k = rest.remove(0);
            proof {
                crate::error::kinds_view_len(rv);
                crate::error::kinds_view_index(rv, 0);
                assert(rest@ =~= rv.drop_first());
                assert(crate::error::kinds_view(rest@) =~= crate::error::kinds_view(rv).drop_first()) by {
                    crate::error::kinds_view_len(rest@);
                    assert forall|l: int| 0 <= l < rest@.len() implies crate::error::kinds_view(
                        rest@,
                    )[l] == crate::error::kinds_view(rv).drop_first()[l] by {
                        crate::error::kinds_view_index(rest@, l);
                        crate::error::kinds_view_index(rv, l + 1);
                    }
                }
                assert(crate::error::kinds_view(rest@) =~= kv.skip(i + 1));
                assert(crate::error::kind_view(k) == kv[i as int]);
            }
            let ghost before = self.errors@;
            self.errors.push(TypingError { kind: k, span });
            proof {
                assert(self.errors@.drop_last() =~= before);
                crate::error::errs_view_len(before);
                assert(kv.take(i + 1).drop_last() =~= kv.take(i as int));
                assert(kv.take(i + 1).last() == kv[i as int]);
                assert(errs_view(self.errors@) =~= errs_view(old(self).errors@) + with_span(
                    kv.take(i + 1),
                    span,
                ));
            }
            i += 1;
        }
        proof {
            assert(kv.take(n as int) =~= kv);
        }
    }

    /// Resolve an attribute on one alternative.
    fn attr_basic(&mut self, b: &crate::ty::TyBasic, name: &str, span: Span) -> (r: Approximation)
        ensures
            final(self).oracle == old(self).oracle,
            ({
                let s = spec_attr_basic(&old(self).oracle, b@, name@, span);
                ty_view(r.fallback) == s.ty && r.precise == s.precise && errs_view(
                    final(self).errors@,
                ) == errs_view(old(self).errors@) + s.errs
            }),
    {
        match b {
            crate::ty::TyBasic::Any => Approximation { fallback: Ty::any(), precise: true },
            crate::ty::TyBasic::Struct(s) => {
                let found = crate::function::find_named_exec(&s.fields, name);
                match found {
                    Option::Some(t) => Approximation { fallback: t, precise: true },
                    Option::None => {
                        if s.extra {
                            Approximation { fallback: Ty::any(), precise: false }
                        } else {
                            self.push_err(
                                TypingErrorKind::NotSupportedAttribute { attr: name.to_owned() },
                                span,
                            );
                            proof {
                                assert(errs_view(self.errors@) =~= errs_view(old(self).errors@)
                                    + seq![
                                    SpecErr {
                                        kind: SpecErrKind::NotSupportedAttribute { attr: name@ },
                                        span,
                                    },
                                ]);
                            }
                            Approximation { fallback: Ty::any(), precise: true }
                        }
                    },
                }
            },
            _ => {
                let found = self.oracle.attr(b, name);
                match found {
                    Option::Some(t) => Approximation { fallback: t, precise: true },
                    Option::None => Approximation { fallback: Ty::any(), precise: false },
                }
            },
        }
    }

    /// Resolve an attribute on a union: each alternative on its own, the
    /// results unioned, missing attributes on closed records reported.
    pub fn attr_ty(&mut self, recv: &Ty, name: &str, span: Span) -> (r: Approximation)
        ensures
            final(self).oracle == old(self).oracle,
            ({
                let s = spec_attr_ty(&old(self).oracle, ty_view(*recv), name@, span);
                ty_view(r.fallback) == s.ty && r.precise == s.precise && errs_view(
                    final(self).errors@,
                ) == errs_view(old(self).errors@) + s.errs
            }),
    {
        let ghost rv = ty_view(*recv);
        let n = recv.alts.len();
        proof {
            crate::views::alts_view_len(recv.alts@);
            assert(rv.take(0) =~= Seq::<SpecBasic>::empty());
        }
        let mut acc = Approximation { fallback: Ty::never(), precise: true };
        let mut i: usize = 0;
        proof {
            assert(errs_view(self.errors@) =~= errs_view(self.errors@) + Seq::<SpecErr>::empty());
        }
        while i < n
            invariant
                0 <= i <= n,
                n == recv.alts@.len(),
                n == rv.len(),
                rv == ty_view(*recv),
                self.oracle == old(self).oracle,
                ({
                    let s = spec_attr_ty(&old(self).oracle, rv.take(i as int), name@, span);
                    ty_view(acc.fallback) == s.ty && acc.precise == s.precise && errs_view(
                        self.errors@,
                    ) == errs_view(old(self).errors@) + s.errs
                }),
            decreases n - i,
        {
            proof {
                crate::views::alts_view_index(recv.alts@, i as int);
            }
            let one = self.attr_basic(&recv.alts[i], name, span);
            let merged = acc.fallback.union(&one.fallback);
            proof {
                assert(rv.take(i + 1).drop_last() =~= rv.take(i as int));
                assert(rv.take(i + 1).last() == rv[i as int]);
            }
            acc = Approximation { fallback: merged, precise: acc.precise && one.precise };
            i += 1;
        }
        proof {
            assert(rv.take(n as int) =~= rv);
        }
        acc
    }

    /// Resolve a binary operator on two unions, pair of alternatives by pair
    /// of alternatives.
    pub fn binop_ty(&mut self, op: BinOp, left: &Ty, right: &Ty, span: Span) -> (r: Approximation)
        ensures
            final(self).oracle == old(self).oracle,
            ({
                let s = spec_binop_ty(&old(self).oracle, op, ty_view(*left), ty_view(*right), span);
                ty_view(r.fallback) == s.ty && r.precise == s.precise && errs_view(
                    final(self).errors@,
                ) == errs_view(old(self).errors@) + s.errs
            }),
    {
        let ghost lv = ty_view(*left);
        let ghost rvv = ty_view(*right);
        let n = left.alts.len();
        let m = right.alts.len();
        proof {
            crate::views::alts_view_len(left.alts@);
            crate::views::alts_view_len(right.alts@);
            assert(lv.take(0) =~= Seq::<SpecBasic>::empty());
        }
        let mut acc = Approximation { fallback: Ty::never(), precise: true };
        let mut i: usize = 0;
        proof {
            assert(errs_view(self.errors@) =~= errs_view(self.errors@) + Seq::<SpecErr>::empty());
        }
        while i < n
            invariant
                0 <= i <= n,
                n == left.alts@.len(),
                n == lv.len(),
                m == right.alts@.len(),
                m == rvv.len(),
                lv == ty_view(*left),
                rvv == ty_view(*right),
                self.oracle == old(self).oracle,
                ({
                    let s = spec_binop_ty(&old(self).oracle, op, lv.take(i as int), rvv, span);
                    ty_view(acc.fallback) == s.ty && acc.precise == s.precise && errs_view(
                        self.errors@,
                    ) == errs_view(old(self).errors@) + s.errs
                }),
            decreases n - i,
        {
            proof {
                crate::views::alts_view_index(left.alts@, i as int);
                assert(rvv.take(0) =~= Seq::<SpecBasic>::empty());
            }
            let ghost errs_outer = errs_view(self.errors@);
            let ghost pre = spec_binop_ty(&old(self).oracle, op, lv.take(i as int), rvv, span);
            let mut inner = Approximation { fallback: Ty::never(), precise: true };
            let mut j: usize = 0;
            proof {
                assert(errs_view(self.errors@) =~= errs_outer + Seq::<SpecErr>::empty());
            }
            while j < m
                invariant
                    0 <= j <= m,
                    m == right.alts@.len(),
                    m == rvv.len(),
                    i < n,
                    n == left.alts@.len(),
                    n == lv.len(),
                    lv == ty_view(*left),
                    rvv == ty_view(*right),
                    lv[i as int] == crate::views::basic_view(left.alts@[i as int]),
                    self.oracle == old(self).oracle,
                    errs_outer == errs_view(old(self).errors@) + pre.errs,
                    pre == spec_binop_ty(&old(self).oracle, op, lv.take(i as int), rvv, span),
                    ({
                        let s = spec_binop_one(
                            &old(self).oracle,
                            op,
                            lv[i as int],
                            rvv.take(j as int),
                            span,
                        );
                        ty_view(inner.fallback) == s.ty && inner.precise == s.precise && errs_view(
                            self.errors@,
                        ) == errs_outer + s.errs
                    }),
                decreases m - j,
            {
                proof {
                    crate::views::alts_view_index(right.alts@, j as int);
                }
                let lb = &left.alts[i];
                let rb = &right.alts[j];
                let la = crate::ty::basic_is_any(lb);
                let ra = crate::ty::basic_is_any(rb);
                let one: Approximation;
                if la || ra {
                    one = Approximation { fallback: Ty::any(), precise: true };
                } else {
                    let found = self.oracle.binop(op, lb, rb);
                    match found {
                        Option::Some(t) => {
                            one = Approximation { fallback: t, precise: true };
                        },
                        Option::None => {
                            let el = Ty::basic(crate::ty::copy_basic(lb));
                            let er = Ty::basic(crate::ty::copy_basic(rb));
                            self.push_err(
                                TypingErrorKind::IncompatibleBinOp { op, left: el, right: er },
                                span,
                            );
                            one = Approximation { fallback: Ty::any(), precise: true };
                        },
                    }
                }
                let merged = inner.fallback.union(&one.fallback);
                proof {
                    assert(rvv.take(j + 1).drop_last() =~= rvv.take(j as int));
                    assert(rvv.take(j + 1).last() == rvv[j as int]);
                }
                inner = Approximation { fallback: merged, precise: inner.precise && one.precise };
                proof {
                    let s = spec_binop_one(
                        &old(self).oracle,
                        op,
                        lv[i as int],
                        rvv.take(j + 1),
                        span,
                    );
                    assert(errs_view(self.errors@) =~= errs_outer + s.errs);
                }
                j += 1;
            }
            proof {
                assert(rvv.take(m as int) =~= rvv);
                assert(lv.take(i + 1).drop_last() =~= lv.take(i as int));
                assert(lv.take(i + 1).last() == lv[i as int]);
            }
            let merged = acc.fallback.union(&inner.fallback);
            acc = Approximation { fallback: merged, precise: acc.precise && inner.precise };
            proof {
                let s = spec_binop_ty(&old(self).oracle, op, lv.take(i + 1), rvv, span);
                assert(errs_view(self.errors@) =~= errs_view(old(self).errors@) + s.errs);
            }
            i += 1;
        }
        proof {
            assert(lv.take(n as int) =~= lv);
        }
        acc
    }
}

/// The union of a vector of types (the executable form of [`union_all`]).
pub fn union_all_exec(ts: &Vec<Ty>) -> (r: Ty)
    ensures
        ty_view(r) == union_all(crate::views::tys_view(ts@)),
{
    let ghost tv = crate::views::tys_view(ts@);
    let n = ts.len();
    proof {
        crate::views::tys_view_len(ts@);
        assert(tv.take(0) =~= Seq::<Seq<SpecBasic>>::empty());
    }
    let mut acc = Ty::never();
    let mut i: usize = 0;
    while i < n
        invariant
            0 <= i <= n,
            n == ts@.len(),
            n == tv.len(),
            tv == crate::views::tys_view(ts@),
            ty_view(acc) == union_all(tv.take(i as int)),
        decreases n - i,
    {
        proof {
            crate::views::tys_view_index(ts@, i as int);
        }
        let merged = acc.union(&ts[i]);
        proof {
            assert(tv.take(i + 1).drop_last() =~= tv.take(i as int));
            assert(tv.take(i + 1).last() == tv[i as int]);
        }
        acc = merged;
        i += 1;
    }
    proof {
        assert(tv.take(n as int) =~= tv);
    }
    acc
}

impl<O: TypingOracle> TypingOracleCtx<O> {
    /// Resolve a call on one callee alternative.
    fn call_basic(&mut self, b: &crate::ty::TyBasic, args: &Vec<Arg>, span: Span) -> (r:
        Approximation)
        ensures
            final(self).oracle == old(self).oracle,
            ({
                let s = spec_call_basic(&old(self).oracle, b@, crate::function::args_view(args@), span);
                ty_view(r.fallback) == s.ty && r.precise == s.precise && errs_view(
                    final(self).errors@,
                ) == errs_view(old(self).errors@) + s.errs
            }),
    {
        match b {
            crate::ty::TyBasic::Any => Approximation { fallback: Ty::any(), precise: false },
            crate::ty::TyBasic::Callable(f) => {
                let out = crate::function::match_call(f, args);
                self.push_kind_errs(out.1, span);
                Approximation { fallback: out.0, precise: true }
            },
            crate::ty::TyBasic::Name(_) => {
                let found = self.oracle.callable(b);
                match found {
                    Option::Some(f) => {
                        let out = crate::function::match_call(&f, args);
                        self.push_kind_errs(out.1, span);
                        Approximation { fallback: out.0, precise: true }
                    },
                    Option::None => Approximation { fallback: Ty::any(), precise: false },
                }
            },
            _ => {
                self.push_err(TypingErrorKind::NotCallable, span);
                proof {
                    assert(errs_view(self.errors@) =~= errs_view(old(self).errors@) + seq![
                        SpecErr { kind: SpecErrKind::NotCallable, span },
                    ]);
                }
                Approximation { fallback: Ty::any(), precise: true }
            },
        }
    }

    /// Resolve a call on a union of callees: each branch on its own, the
    /// results unioned, the diagnostics concatenated.
    pub fn call_ty(&mut self, callee: &Ty, args: &Vec<Arg>, span: Span) -> (r: Approximation)
        ensures
            final(self).oracle == old(self).oracle,
            ({
                let s = spec_call_ty(
                    &old(self).oracle,
                    ty_view(*callee),
                    crate::function::args_view(args@),
                    span,
                );
                ty_view(r.fallback) == s.ty && r.precise == s.precise && errs_view(
                    final(self).errors@,
                ) == errs_view(old(self).errors@) + s.errs
            }),
    {
        let ghost cv = ty_view(*callee);
        let ghost av = crate::function::args_view(args@);
        let n = callee.alts.len();
        proof {
            crate::views::alts_view_len(callee.alts@);
            assert(cv.take(0) =~= Seq::<SpecBasic>::empty());
        }
        let mut acc = Approximation { fallback: Ty::never(), precise: true };
        let mut i: usize = 0;
        proof {
            assert(errs_view(self.errors@) =~= errs_view(self.errors@) + Seq::<SpecErr>::empty());
        }
        while i < n
            invariant
                0 <= i <= n,
                n == callee.alts@.len(),
                n == cv.len(),
                cv == ty_view(*callee),
                av == crate::function::args_view(args@),
                self.oracle == old(self).oracle,
                ({
                    let s = spec_call_ty(&old(self).oracle, cv.take(i as int), av, span);
                    ty_view(acc.fallback) == s.ty && acc.precise == s.precise && errs_view(
                        self.errors@,
                    ) == errs_view(old(self).errors@) + s.errs
                }),
            decreases n - i,
        {
            proof {
                crate::views::alts_view_index(callee.alts@, i as int);
            }
            let one = self.call_basic(&callee.alts[i], args, span);
            let merged = acc.fallback.union(&one.fallback);
            proof {
                assert(cv.take(i + 1).drop_last() =~= cv.take(i as int));
                assert(cv.take(i + 1).last() == cv[i as int]);
            }
            acc = Approximation { fallback: merged, precise: acc.precise && one.precise };
            i += 1;
        }
        proof {
            assert(cv.take(n as int) =~= cv);
        }
        acc
    }

    /// Infer one expression: its best-effort type, whether the type is
    /// precise, and (into the context) its diagnostics.
    pub fn infer(&mut self, env: &Bindings, e: &Expr) -> (r: Approximation)
        ensures
            final(self).oracle == old(self).oracle,
            ({
                let s = infer_expr(&old(self).oracle, env@, *e);
                ty_view(r.fallback) == s.ty && r.precise == s.precise && errs_view(
                    final(self).errors@,
                ) == errs_view(old(self).errors@) + s.errs
            }),
        decreases *e,
    {
        match &e.kind {
            ExprKind::NoneLit => Approximation { fallback: Ty::none_ty(), precise: true },
            ExprKind::BoolLit(_) => Approximation { fallback: Ty::bool_ty(), precise: true },
            ExprKind::IntLit(_) => Approximation { fallback: Ty::int_ty(), precise: true },
            ExprKind::StrLit(_) => Approximation { fallback: Ty::str_ty(), precise: true },
            ExprKind::FloatLit => Approximation { fallback: Ty::float_ty(), precise: true },
            ExprKind::Name(n) => {
                let found = env.lookup(n.as_str());
                match found {
                    Option::Some(t) => Approximation { fallback: t, precise: true },
                    Option::None => {
                        self.push_err(TypingErrorKind::NotInScope { name: n.clone() }, e.span);
                        proof {
                            assert(errs_view(self.errors@) =~= errs_view(old(self).errors@)
                                + seq![
                                SpecErr {
                                    kind: SpecErrKind::NotInScope { name: n@ },
                                    span: e.span,
                                },
                            ]);
                        }
                        Approximation { fallback: Ty::any(), precise: true }
                    },
                }
            },
            ExprKind::ListExpr(es) => {
                let inner = self.infer_list(env, es);
                Approximation {
                    fallback: Ty::list(union_all_exec(&inner.0)),
                    precise: inner.1,
                }
            },
            ExprKind::TupleExpr(es) => {
                let inner = self.infer_list(env, es);
                Approximation { fallback: Ty::tuple(inner.0), precise: inner.1 }
            },
            ExprKind::DictExpr(entries) => {
                let keys = self.infer_dict_keys(env, entries);
                let vals = self.infer_dict_vals(env, entries);
                proof {
                    let sk = infer_keys(&old(self).oracle, env@, entries@);
                    let sv = infer_vals(&old(self).oracle, env@, entries@);
                    assert(errs_view(self.errors@) =~= errs_view(old(self).errors@) + (sk.errs
                        + sv.errs));
                }
                Approximation {
                    fallback: Ty::dict(union_all_exec(&keys.0), union_all_exec(&vals.0)),
                    precise: keys.1 && vals.1,
                }
            },
            ExprKind::StructLit(fields) => {
                let inner = self.infer_struct_fields(env, fields);
                Approximation {
                    fallback: Ty::struct_ty(
                        crate::ty::TyStruct { fields: inner.0, extra: false },
                    ),
                    precise: inner.1,
                }
            },
            ExprKind::Attr(base, name) => {
                let b = self.infer(env, base);
                let a = self.attr_ty(&b.fallback, name.as_str(), e.span);
                proof {
                    let sb = infer_expr(&old(self).oracle, env@, *e.kind->Attr_0);
                    let sa = spec_attr_ty(&old(self).oracle, sb.ty, name@, e.span);
                    assert(errs_view(self.errors@) =~= errs_view(old(self).errors@) + (sb.errs
                        + sa.errs));
                }
                Approximation { fallback: a.fallback, precise: b.precise && a.precise }
            },
            ExprKind::Call(callee, args) => {
                let cl = self.infer(env, callee);
                let ar = self.infer_call_args(env, args);
                let out = self.call_ty(&cl.fallback, &ar.0, e.span);
                proof {
                    let sc = infer_expr(&old(self).oracle, env@, *e.kind->Call_0);
                    let sa = infer_args(&old(self).oracle, env@, e.kind->Call_1@);
                    let so = spec_call_ty(&old(self).oracle, sc.ty, sa.args, e.span);
                    assert(errs_view(self.errors@) =~= errs_view(old(self).errors@) + (sc.errs
                        + sa.errs + so.errs));
                }
                Approximation {
                    fallback: out.fallback,
                    precise: cl.precise && ar.1 && out.precise,
                }
            },
            ExprKind::Binary(op, l, rr) => {
                let lo = self.infer(env, l);
                let ro = self.infer(env, rr);
                let out = self.binop_ty(*op, &lo.fallback, &ro.fallback, e.span);
                proof {
                    let sl = infer_expr(&old(self).oracle, env@, *e.kind->Binary_1);
                    let sr = infer_expr(&old(self).oracle, env@, *e.kind->Binary_2);
                    let so = spec_binop_ty(&old(self).oracle, *op, sl.ty, sr.ty, e.span);
                    assert(errs_view(self.errors@) =~= errs_view(old(self).errors@) + (sl.errs
                        + sr.errs + so.errs));
                }
                Approximation {
                    fallback: out.fallback,
                    precise: lo.precise && ro.precise && out.precise,
                }
            },
        }
    }

    /// Infer a vector of expressions, in order.
    fn infer_list(&mut self, env: &Bindings, es: &Vec<Expr>) -> (r: (Vec<Ty>, bool))
        ensures
            final(self).oracle == old(self).oracle,
            ({
                let s = infer_exprs(&old(self).oracle, env@, es@);
                crate::views::tys_view(r.0@) == s.tys && r.1 == s.precise && errs_view(
                    final(self).errors@,
                ) == errs_view(old(self).errors@) + s.errs
            }),
        decreases *es,
    {
        let n = es.len();
        let mut tys: Vec<Ty> = Vec::new();
        let mut precise = true;
        let mut i: usize = 0;
        proof {
            assert(es@.take(0) =~= Seq::<Expr>::empty());
            assert(crate::views::tys_view(tys@) =~= Seq::<Seq<SpecBasic>>::empty());
            assert(errs_view(self.errors@) =~= errs_view(self.errors@) + Seq::<SpecErr>::empty());
        }
        while i < n
            invariant
                0 <= i <= n,
                n == es@.len(),
                self.oracle == old(self).oracle,
                ({
                    let s = infer_exprs(&old(self).oracle, env@, es@.take(i as int));
                    crate::views::tys_view(tys@) == s.tys && precise == s.precise && errs_view(
                        self.errors@,
                    ) == errs_view(old(self).errors@) + s.errs
                }),
            decreases n - i,
        {
            let one = self.infer(env, &es[i]);
            proof {
                assert(es@.take(i + 1).drop_last() =~= es@.take(i as int));
                assert(es@.take(i + 1).last() == es@[i as int]);
            }
            let ghost before = tys@;
            tys.push(one.fallback);
            precise = precise && one.precise;
            proof {
                assert(tys@.drop_last() =~= before);
                crate::views::tys_view_len(before);
                assert(crate::views::tys_view(tys@) == crate::views::tys_view(before).push(
                    ty_view(tys@.last()),
                ));
            }
            i += 1;
        }
        proof {
            assert(es@.take(n as int) =~= es@);
        }
        (tys, precise)
    }

    /// Infer the key expressions of a dictionary display.
    fn infer_dict_keys(&mut self, env: &Bindings, es: &Vec<DictEntry>) -> (r: (Vec<Ty>, bool))
        ensures
            final(self).oracle == old(self).oracle,
            ({
                let s = infer_keys(&old(self).oracle, env@, es@);
                crate::views::tys_view(r.0@) == s.tys && r.1 == s.precise && errs_view(
                    final(self).errors@,
                ) == errs_view(old(self).errors@) + s.errs
            }),
        decreases *es,
    {
        let n = es.len();
        let mut tys: Vec<Ty> = Vec::new();
        let mut precise = true;
        let mut i: usize = 0;
        proof {
            assert(es@.take(0) =~= Seq::<DictEntry>::empty());
            assert(crate::views::tys_view(tys@) =~= Seq::<Seq<SpecBasic>>::empty());
            assert(errs_view(self.errors@) =~= errs_view(self.errors@) + Seq::<SpecErr>::empty());
        }
        while i < n
            invariant
                0 <= i <= n,
                n == es@.len(),
                self.oracle == old(self).oracle,
                ({
                    let s = infer_keys(&old(self).oracle, env@, es@.take(i as int));
                    crate::views::tys_view(tys@) == s.tys && precise == s.precise && errs_view(
                        self.errors@,
                    ) == errs_view(old(self).errors@) + s.errs
                }),
            decreases n - i,
        {
            let one = self.infer(env, &es[i].key);
            proof {
                assert(es@.take(i + 1).drop_last() =~= es@.take(i as int));
                assert(es@.take(i + 1).last() == es@[i as int]);
            }
            let ghost before = tys@;
            tys.push(one.fallback);
            precise = precise && one.precise;
            proof {
                assert(tys@.drop_last() =~= before);
                crate::views::tys_view_len(before);
                assert(crate::views::tys_view(tys@) == crate::views::tys_view(before).push(
                    ty_view(tys@.last()),
                ));
            }
            i += 1;
        }
        proof {
            assert(es@.take(n as int) =~= es@);
        }
        (tys, precise)
    }

    /// Infer the value expressions of a dictionary display.
    fn infer_dict_vals(&mut self, env: &Bindings, es: &Vec<DictEntry>) -> (r: (Vec<Ty>, bool))
        ensures
            final(self).oracle == old(self).oracle,
            ({
                let s = infer_vals(&old(self).oracle, env@, es@);
                crate::views::tys_view(r.0@) == s.tys && r.1 == s.precise && errs_view(
                    final(self).errors@,
                ) == errs_view(old(self).errors@) + s.errs
            }),
        decreases *es,
    {
        let n = es.len();
        let mut tys: Vec<Ty> = Vec::new();
        let mut precise = true;
        let mut i: usize = 0;
        proof {
            assert(es@.take(0) =~= Seq::<DictEntry>::empty());
            assert(crate::views::tys_view(tys@) =~= Seq::<Seq<SpecBasic>>::empty());
            assert(errs_view(self.errors@) =~= errs_view(self.errors@) + Seq::<SpecErr>::empty());
        }
        while i < n
            invariant
                0 <= i <= n,
                n == es@.len(),
                self.oracle == old(self).oracle,
                ({
                    let s = infer_vals(&old(self).oracle, env@, es@.take(i as int));
                    crate::views::tys_view(tys@) == s.tys && precise == s.precise && errs_view(
                        self.errors@,
                    ) == errs_view(old(self).errors@) + s.errs
                }),
            decreases n - i,
        {
            let one = self.infer(env, &es[i].value);
            proof {
                assert(es@.take(i + 1).drop_last() =~= es@.take(i as int));
                assert(es@.take(i + 1).last() == es@[i as int]);
            }
            let ghost before = tys@;
            tys.push(one.fallback);
            precise = precise && one.precise;
            proof {
                assert(tys@.drop_last() =~= before);
                crate::views::tys_view_len(before);
                assert(crate::views::tys_view(tys@) == crate::views::tys_view(before).push(
                    ty_view(tys@.last()),
                ));
            }
            i += 1;
        }
        proof {
            assert(es@.take(n as int) =~= es@);
        }
        (tys, precise)
    }

    /// Infer the fields of a struct literal.
    fn infer_struct_fields(&mut self, env: &Bindings, fs: &Vec<FieldInit>) -> (r: (
        Vec<crate::ty::Field>,
        bool,
    ))
        ensures
            final(self).oracle == old(self).oracle,
            ({
                let s = infer_fields(&old(self).oracle, env@, fs@);
                fields_view(r.0@) == s.fields && r.1 == s.precise && errs_view(
                    final(self).errors@,
                ) == errs_view(old(self).errors@) + s.errs
            }),
        decreases *fs,
    {
        let n = fs.len();
        let mut fields: Vec<crate::ty::Field> = Vec::new();
        let mut precise = true;
        let mut i: usize = 0;
        proof {
            assert(fs@.take(0) =~= Seq::<FieldInit>::empty());
            assert(fields_view(fields@) =~= Seq::<SpecField>::empty());
            assert(errs_view(self.errors@) =~= errs_view(self.errors@) + Seq::<SpecErr>::empty());
        }
        while i < n
            invariant
                0 <= i <= n,
                n == fs@.len(),
                self.oracle == old(self).oracle,
                ({
                    let s = infer_fields(&old(self).oracle, env@, fs@.take(i as int));
                    fields_view(fields@) == s.fields && precise == s.precise && errs_view(
                        self.errors@,
                    ) == errs_view(old(self).errors@) + s.errs
                }),
            decreases n - i,
        {
            let one = self.infer(env, &fs[i].value);
            proof {
                assert(fs@.take(i + 1).drop_last() =~= fs@.take(i as int));
                assert(fs@.take(i + 1).last() == fs@[i as int]);
            }
            let ghost before = fields@;
            fields.push(crate::ty::Field { name: fs[i].name.clone(), ty: one.fallback });
            precise = precise && one.precise;
            proof {
                assert(fields@.drop_last() =~= before);
                crate::views::fields_view_len(before);
                assert(fields_view(fields@) == fields_view(before).push(
                    SpecField {
                        name: fields@.last().name@,
                        ty: ty_view(fields@.last().ty),
                    },
                ));
            }
            i += 1;
        }
        proof {
            assert(fs@.take(n as int) =~= fs@);
        }
        (fields, precise)
    }

    /// Infer the arguments of a call, keeping how each is passed.
    fn infer_call_args(&mut self, env: &Bindings, args: &Vec<CallArg>) -> (r: (Vec<Arg>, bool))
        ensures
            final(self).oracle == old(self).oracle,
            ({
                let s = infer_args(&old(self).oracle, env@, args@);
                crate::function::args_view(r.0@) == s.args && r.1 == s.precise && errs_view(
                    final(self).errors@,
                ) == errs_view(old(self).errors@) + s.errs
            }),
        decreases *args,
    {
        let n = args.len();
        let mut out: Vec<Arg> = Vec::new();
        let mut precise = true;
        let mut i: usize = 0;
        proof {
            assert(args@.take(0) =~= Seq::<CallArg>::empty());
            assert(crate::function::args_view(out@) =~= Seq::<SpecArg>::empty());
            assert(errs_view(self.errors@) =~= errs_view(self.errors@) + Seq::<SpecErr>::empty());
        }
        while i < n
            invariant
                0 <= i <= n,
                n == args@.len(),
                self.oracle == old(self).oracle,
                ({
                    let s = infer_args(&old(self).oracle, env@, args@.take(i as int));
                    crate::function::args_view(out@) == s.args && precise == s.precise
                        && errs_view(self.errors@) == errs_view(old(self).errors@) + s.errs
                }),
            decreases n - i,
        {
            proof {
                assert(args@.take(i + 1).drop_last() =~= args@.take(i as int));
                assert(args@.take(i + 1).last() == args@[i as int]);
            }
            let built: Arg;
            let ok: bool;
            match &args[i] {
                CallArg::Pos(ex) => {
                    let one = self.infer(env, ex);
                    built = Arg::Pos(one.fallback);
                    ok = one.precise;
                },
                CallArg::Named(nm, ex) => {
                    let one = self.infer(env, ex);
                    built = Arg::Named(nm.clone(), one.fallback);
                    ok = one.precise;
                },
                CallArg::Args(ex) => {
                    let one = self.infer(env, ex);
                    built = Arg::Args(one.fallback);
                    ok = one.precise;
                },
                CallArg::Kwargs(ex) => {
                    let one = self.infer(env, ex);
                    built = Arg::Kwargs(one.fallback);
                    ok = one.precise;
                },
            }
            let ghost before = out@;
            out.push(built);
            precise = precise && ok;
            proof {
                assert(out@.drop_last() =~= before);
                crate::function::args_view_len(before);
                assert(crate::function::args_view(out@) == crate::function::args_view(
                    before,
                ).push(arg_view(out@.last())));
            }
            i += 1;
        }
        proof {
            assert(args@.take(n as int) =~= args@);
        }
        (out, precise)
    }
}

/// The element type one alternative yields when iterated (the executable
/// form of [`iter_elem_basic`]).
fn iter_elem_basic_exec(b: &crate::ty::TyBasic) -> (r: Ty)
    ensures
        ty_view(r) == iter_elem_basic(b@),
{
    match b {
        crate::ty::TyBasic::List(t) => crate::ty::copy_ty(t),
        crate::ty::TyBasic::Iter(t) => crate::ty::copy_ty(t),
        crate::ty::TyBasic::Dict(k, v) => crate::ty::copy_ty(k),
        crate::ty::TyBasic::Tuple(ts) => union_all_exec(ts),
        crate::ty::TyBasic::Str => Ty::str_ty(),
        crate::ty::TyBasic::Any => Ty::any(),
        _ => Ty::never(),
    }
}

/// The element type a `for` loop draws from an iterable (the executable form
/// of [`iter_elem`]).
pub fn iter_elem_exec(t: &Ty) -> (r: Ty)
    ensures
        ty_view(r) == iter_elem(ty_view(*t)),
{
    let ghost tv = ty_view(*t);
    let n = t.alts.len();
    proof {
        crate::views::alts_view_len(t.alts@);
        assert(tv.take(0) =~= Seq::<SpecBasic>::empty());
    }
    let mut acc = Ty::never();
    let mut i: usize = 0;
    while i < n
        invariant
            0 <= i <= n,
            n == t.alts@.len(),
            n == tv.len(),
            tv == ty_view(*t),
            ty_view(acc) == iter_elem(tv.take(i as int)),
        decreases n - i,
    {
        proof {
            crate::views::alts_view_index(t.alts@, i as int);
        }
        let one = iter_elem_basic_exec(&t.alts[i]);
        let merged = acc.union(&one);
        proof {
            assert(tv.take(i + 1).drop_last() =~= tv.take(i as int));
            assert(tv.take(i + 1).last() == tv[i as int]);
        }
        acc = merged;
        i += 1;
    }
    proof {
        assert(tv.take(n as int) =~= tv);
    }
    acc
}

impl<O: TypingOracle> TypingOracleCtx<O> {
    /// Walk one statement: update the scope, collect the diagnostics, and
    /// say whether the statement cannot fall through.
    pub fn walk_one(&mut self, env: &mut Bindings, s: &Stmt) -> (terminated: bool)
        ensures
            final(self).oracle == old(self).oracle,
            ({
                let w = walk_stmt(&old(self).oracle, old(env)@, *s);
                final(env)@ == w.env && terminated == w.terminated && errs_view(
                    final(self).errors@,
                ) == errs_view(old(self).errors@) + w.errs
            }),
        decreases *s,
    {
        match &s.kind {
            StmtKind::Assign(n, ex) => {
                let i = self.infer(env, ex);
                env.declare(n.clone(), i.fallback);
                false
            },
            StmtKind::AnnAssign(n, ann, ex) => {
                let i = self.infer(env, ex);
                let ghost emitted = errs_view(self.errors@);
                let ok = i.fallback.is_subtype(ann);
                if !ok {
                    self.push_err(
                        TypingErrorKind::IncompatibleAssignment {
                            expected: crate::ty::copy_ty(ann),
                            found: crate::ty::copy_ty(&i.fallback),
                        },
                        s.span,
                    );
                }
                env.declare(n.clone(), crate::ty::copy_ty(ann));
                proof {
                    let w = walk_stmt(&old(self).oracle, old(env)@, *s);
                    assert(errs_view(self.errors@) =~= errs_view(old(self).errors@) + w.errs);
                }
                false
            },
            StmtKind::ExprStmt(ex) => {
                let i = self.infer(env, ex);
                false
            },
            StmtKind::If(c, then, els) => {
                let ci = self.infer(env, c);
                let mut env_t = env.duplicate();
                let t1 = self.walk_block(&mut env_t, then);
                let mut env_e = env.duplicate();
                let t2 = self.walk_block(&mut env_e, els);
                proof {
                    let w = walk_stmt(&old(self).oracle, old(env)@, *s);
                    assert(errs_view(self.errors@) =~= errs_view(old(self).errors@) + w.errs);
                }
                if t1 && !t2 {
                    *env = env_e;
                } else if t2 && !t1 {
                    *env = env_t;
                } else {
                    let merged = Bindings::merge_branches(&env_t, &env_e);
                    proof {
                        assert(merged@ =~= merge_envs(env_t@, env_e@));
                    }
                    *env = merged;
                }
                t1 && t2
            },
            StmtKind::For(n, it, body) => {
                let ci = self.infer(env, it);
                let elem = iter_elem_exec(&ci.fallback);
                env.declare(n.clone(), elem);
                let mut benv = env.duplicate();
                let bt = self.walk_block(&mut benv, body);
                let merged = Bindings::merge_branches(env, &benv);
                proof {
                    assert(merged@ =~= merge_envs(env@, benv@));
                    let w = walk_stmt(&old(self).oracle, old(env)@, *s);
                    assert(errs_view(self.errors@) =~= errs_view(old(self).errors@) + w.errs);
                }
                *env = merged;
                false
            },
            StmtKind::Return(opt) => {
                match opt {
                    Option::Some(ex) => {
                        let i = self.infer(env, ex);
                    },
                    Option::None => {},
                }
                true
            },
            StmtKind::Def(d) => {
                let fnty = Ty::callable(crate::ty::copy_fun(&d.sig));
                let fnty2 = crate::ty::copy_ty(&fnty);
                let mut inner = env.duplicate();
                inner.declare(d.name.clone(), fnty2);
                let ghost base = inner@;
                let ghost pv = crate::views::fun_view(d.sig).params;
                let np = d.sig.params.len();
                let mut i: usize = 0;
                proof {
                    crate::views::params_view_len(d.sig.params@);
                    assert(seed_params(base, pv.take(0)) =~= base);
                }
                while i < np
                    invariant
                        0 <= i <= np,
                        np == d.sig.params@.len(),
                        np == pv.len(),
                        pv == crate::views::fun_view(d.sig).params,
                        inner@ == seed_params(base, pv.take(i as int)),
                    decreases np - i,
                {
                    proof {
                        crate::views::params_view_index(d.sig.params@, i as int);
                    }
                    let p = &d.sig.params[i];
                    inner.declare(p.name.clone(), crate::ty::copy_ty(&p.ty));
                    proof {
                        assert(pv.take(i + 1).drop_last() =~= pv.take(i as int));
                        assert(pv.take(i + 1).last() == pv[i as int]);
                    }
                    i += 1;
                }
                proof {
                    assert(pv.take(np as int) =~= pv);
                }
                let bt = self.walk_block(&mut inner, &d.body);
                env.declare(d.name.clone(), fnty);
                false
            },
        }
    }

    /// Walk a block of statements front to back, threading the scope.
    pub fn walk_block(&mut self, env: &mut Bindings, stmts: &Vec<Stmt>) -> (terminated: bool)
        ensures
            final(self).oracle == old(self).oracle,
            ({
                let w = walk_stmts(&old(self).oracle, old(env)@, stmts@);
                final(env)@ == w.env && terminated == w.terminated && errs_view(
                    final(self).errors@,
                ) == errs_view(old(self).errors@) + w.errs
            }),
        decreases *stmts,
    {
        let ghost full = walk_stmts(&old(self).oracle, old(env)@, stmts@);
        let n = stmts.len();
        let mut term = false;
        let mut i: usize = 0;
        proof {
            assert(stmts@.skip(0) =~= stmts@);
        }
        while i < n
            invariant
                0 <= i <= n,
                n == stmts@.len(),
                self.oracle == old(self).oracle,
                full == walk_stmts(&old(self).oracle, old(env)@, stmts@),
                ({
                    let rest = walk_stmts(&old(self).oracle, env@, stmts@.skip(i as int));
                    full.env == rest.env && errs_view(old(self).errors@) + full.errs == errs_view(
                        self.errors@,
                    ) + rest.errs && full.terminated == (term || rest.terminated)
                }),
            decreases n - i,
        {
            proof {
                assert(stmts@.skip(i as int)[0] == stmts@[i as int]);
                assert(stmts@.skip(i as int).drop_first() =~= stmts@.skip(i + 1));
            }
            let t1 = self.walk_one(env, &stmts[i]);
            term = term || t1;
            i += 1;
        }
        proof {
            assert(stmts@.skip(n as int) =~= Seq::<Stmt>::empty());
            let rest = walk_stmts(&old(self).oracle, env@, stmts@.skip(n as int));
            assert(rest.errs =~= Seq::<SpecErr>::empty());
            assert(errs_view(old(self).errors@) + full.errs =~= errs_view(self.errors@));
            assert(errs_view(self.errors@) =~= errs_view(old(self).errors@) + full.errs);
        }
        term
    }
}

/// Check one module: walk its statements once against the given scope of
/// already-known names (the loader seeds it from the loaded modules'
/// published interfaces), and produce the module's own interface for its
/// exported names together with every diagnostic of the walk, in source
/// order.
pub fn typecheck_module<O: TypingOracle>(
    oracle: O,
    globals: &Bindings,
    module: &Vec<Stmt>,
    exports: &Vec<String>,
) -> (out: (Interface, Vec<TypingError>))
    ensures
        ({
            let w = walk_stmts(&oracle, globals@, module@);
            &&& errs_view(out.1@) == w.errs
            &&& forall|k: Seq<char>|
                #[trigger] out.0@.contains_key(k) <==> (w.env.contains_key(k) && exists|l: int|
                    0 <= l < exports@.len() && (#[trigger] exports@[l])@ == k)
            &&& forall|k: Seq<char>| #[trigger] out.0@.contains_key(k) ==> out.0@[k] == w.env[k]
        }),
{
    let mut ctx = TypingOracleCtx::new(oracle);
    let mut env = globals.duplicate();
    let t = ctx.walk_block(&mut env, module);
    let iface = interface_of(&env, exports);
    proof {
        let w = walk_stmts(&oracle, globals@, module@);
        assert(errs_view(ctx.errors@) =~= w.errs);
    }
    (iface, ctx.errors)
}

} // verus!
