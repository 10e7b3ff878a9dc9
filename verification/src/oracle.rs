//! Outside knowledge of the builtins: the [`TypingOracle`] interface, a
//! chaining combinator, the standard baseline facts, and an oracle built
//! from structured function documentation.
//!
//! An oracle answers three queries — the type of an attribute on a receiver,
//! the result of a binary operator, and the signature behind a callable
//! identity — and every answer is optional: "unknown" is never a failure, it
//! only sends the caller to the next oracle or to the permissive `Any`.

use vstd::prelude::*;

use crate::error::BinOp;
use crate::function::opt_ty_view;
use crate::text::str_eq;
use crate::ty::Param;
use crate::ty::ParamMode;
use crate::ty::SpecBasic;
use crate::ty::SpecFun;
use crate::ty::SpecParam;
use crate::ty::Ty;
use crate::ty::TyBasic;
use crate::ty::TyFunction;
use crate::ty::copy_fun;
use crate::ty::copy_ty;
use crate::ty::spec_union;
use crate::views::fun_view;
use crate::views::params_view;
use crate::views::ty_view;

verus! {

/// The model of an optional signature.
pub open spec fn opt_fun_view(o: Option<TyFunction>) -> Option<SpecFun> {
    match o {
        Option::Some(f) => Option::Some(fun_view(f)),
        Option::None => Option::None,
    }
}

/// Shorthand for one model parameter.
pub open spec fn spec_param_of(
    mode: ParamMode,
    name: Seq<char>,
    ty: Seq<SpecBasic>,
    optional: bool,
) -> SpecParam {
    SpecParam { mode, name, ty, optional }
}

/// A source of typing facts the algebra cannot derive by itself.  Each query
/// may answer "unknown" (`None`); the spec functions state what a given
/// oracle value answers, and every executable query is bound to them.  The
/// checker is generic over this interface so that a project can layer its
/// own builtin knowledge over the baseline.
pub trait TypingOracle: Sized {
    /// What this oracle claims the attribute `name` of a `recv` value is.
    spec fn attr_spec(&self, recv: SpecBasic, name: Seq<char>) -> Option<Seq<SpecBasic>>;

    /// What this oracle claims `left op right` evaluates to.
    spec fn binop_spec(&self, op: BinOp, left: SpecBasic, right: SpecBasic) -> Option<
        Seq<SpecBasic>,
    >;

    /// What signature this oracle claims a callable identity has.
    spec fn callable_spec(&self, recv: SpecBasic) -> Option<SpecFun>;

    /// The type of attribute `name` on a value of basic type `recv`, or
    /// nothing where this oracle does not know.
    fn attr(&self, recv: &TyBasic, name: &str) -> (r: Option<Ty>)
        ensures
            opt_ty_view(r) == self.attr_spec(recv@, name@),
    ;

    /// The result type of `left op right`, or nothing where this oracle does
    /// not know.
    fn binop(&self, op: BinOp, left: &TyBasic, right: &TyBasic) -> (r: Option<Ty>)
        ensures
            opt_ty_view(r) == self.binop_spec(op, left@, right@),
    ;

    /// The signature behind a callable identity, or nothing where this
    /// oracle does not know.
    fn callable(&self, recv: &TyBasic) -> (r: Option<TyFunction>)
        ensures
            opt_fun_view(r) == self.callable_spec(recv@),
    ;
}

/// Two oracles chained: every query goes to the first, and falls through to
/// the second when the first answers "unknown".  Nesting `OracleSeq` chains
/// any number of oracles.
pub struct OracleSeq<A, B> {
    pub first: A,
    pub second: B,
}

impl<A: TypingOracle, B: TypingOracle> TypingOracle for OracleSeq<A, B> {
    open spec fn attr_spec(&self, recv: SpecBasic, name: Seq<char>) -> Option<Seq<SpecBasic>> {
        match self.first.attr_spec(recv, name) {
            Option::Some(t) => Option::Some(t),
            Option::None => self.second.attr_spec(recv, name),
        }
    }

    open spec fn binop_spec(&self, op: BinOp, left: SpecBasic, right: SpecBasic) -> Option<
        Seq<SpecBasic>,
    > {
        match self.first.binop_spec(op, left, right) {
            Option::Some(t) => Option::Some(t),
            Option::None => self.second.binop_spec(op, left, right),
        }
    }

    open spec fn callable_spec(&self, recv: SpecBasic) -> Option<SpecFun> {
        match self.first.callable_spec(recv) {
            Option::Some(f) => Option::Some(f),
            Option::None => self.second.callable_spec(recv),
        }
    }

    fn attr(&self, recv: &TyBasic, name: &str) -> (r: Option<Ty>) {
        let r1 = self.first.attr(recv, name);
        match r1 {
            Option::Some(t) => Option::Some(t),
            Option::None => self.second.attr(recv, name),
        }
    }

    fn binop(&self, op: BinOp, left: &TyBasic, right: &TyBasic) -> (r: Option<Ty>) {
        let r1 = self.first.binop(op, left, right);
        match r1 {
            Option::Some(t) => Option::Some(t),
            Option::None => self.second.binop(op, left, right),
        }
    }

    fn callable(&self, recv: &TyBasic) -> (r: Option<TyFunction>) {
        let r1 = self.first.callable(recv);
        match r1 {
            Option::Some(f) => Option::Some(f),
            Option::None => self.second.callable(recv),
        }
    }
}

/// A signature from already-built parts.
fn simple_sig(params: Vec<Param>, result: Ty) -> (f: TyFunction)
    ensures
        fun_view(f) == (SpecFun { params: params_view(params@), result: ty_view(result) }),
{
    let f = TyFunction { params, result };
    proof {
        assert(fun_view(f) =~= SpecFun {
            params: params_view(f.params@),
            result: ty_view(f.result),
        });
    }
    f
}

/// One required positional-or-named parameter.
fn req_param(name: &str, ty: Ty) -> (p: Param)
    ensures
        p.mode == ParamMode::PosOrName,
        p.name@ == name@,
        ty_view(p.ty) == ty_view(ty),
        !p.optional,
{
    Param { mode: ParamMode::PosOrName, name: name.to_owned(), ty, optional: false }
}

/// A one-parameter vector, with its model pinned down.
fn one_param(p: Param) -> (ps: Vec<Param>)
    ensures
        params_view(ps@) == seq![spec_param_of(p.mode, p.name@, ty_view(p.ty), p.optional)],
{
    let ghost pm = spec_param_of(p.mode, p.name@, ty_view(p.ty), p.optional);
    let mut ps: Vec<Param> = Vec::new();
    ps.push(p);
    proof {
        assert(ps@.drop_last() =~= Seq::<Param>::empty());
        assert(params_view(Seq::<Param>::empty()) =~= Seq::<SpecParam>::empty());
        assert(params_view(ps@) =~= seq![pm]);
    }
    ps
}

/// An empty parameter vector, with its model pinned down.
fn no_params() -> (ps: Vec<Param>)
    ensures
        params_view(ps@) == Seq::<SpecParam>::empty(),
{
    let ps: Vec<Param> = Vec::new();
    proof {
        assert(params_view(ps@) =~= Seq::<SpecParam>::empty());
    }
    ps
}

/// What the standard oracle knows about attributes: the common methods of
/// strings, lists and dictionaries.
pub open spec fn std_attr(recv: SpecBasic, name: Seq<char>) -> Option<Seq<SpecBasic>> {
    match recv {
        SpecBasic::Str => if name == "upper"@ || name == "lower"@ || name == "strip"@ {
            Option::Some(
                seq![
                    SpecBasic::Callable(
                        SpecFun { params: Seq::empty(), result: seq![SpecBasic::Str] },
                    ),
                ],
            )
        } else if name == "startswith"@ || name == "endswith"@ {
            Option::Some(
                seq![
                    SpecBasic::Callable(
                        SpecFun {
                            params: seq![
                                spec_param_of(
                                    ParamMode::PosOrName,
                                    "prefix"@,
                                    seq![SpecBasic::Str],
                                    false,
                                ),
                            ],
                            result: seq![SpecBasic::Bool],
                        },
                    ),
                ],
            )
        } else if name == "split"@ {
            Option::Some(
                seq![
                    SpecBasic::Callable(
                        SpecFun {
                            params: seq![
                                spec_param_of(
                                    ParamMode::PosOrName,
                                    "sep"@,
                                    seq![SpecBasic::Str],
                                    true,
                                ),
                            ],
                            result: seq![SpecBasic::List(seq![SpecBasic::Str])],
                        },
                    ),
                ],
            )
        } else {
            Option::None
        },
        SpecBasic::List(elem) => if name == "append"@ {
            Option::Some(
                seq![
                    SpecBasic::Callable(
                        SpecFun {
                            params: seq![
                                spec_param_of(
                                    ParamMode::PosOrName,
                                    "x"@,
                                    seq![SpecBasic::Any],
                                    false,
                                ),
                            ],
                            result: seq![SpecBasic::NoneType],
                        },
                    ),
                ],
            )
        } else if name == "pop"@ {
            Option::Some(
                seq![SpecBasic::Callable(SpecFun { params: Seq::empty(), result: elem })],
            )
        } else if name == "index"@ {
            Option::Some(
                seq![
                    SpecBasic::Callable(
                        SpecFun {
                            params: seq![spec_param_of(ParamMode::PosOrName, "x"@, elem, false)],
                            result: seq![SpecBasic::Int],
                        },
                    ),
                ],
            )
        } else {
            Option::None
        },
        SpecBasic::Dict(k, v) => if name == "get"@ {
            Option::Some(
                seq![
                    SpecBasic::Callable(
                        SpecFun {
                            params: seq![spec_param_of(ParamMode::PosOrName, "key"@, k, false)],
                            result: spec_union(v, seq![SpecBasic::NoneType]),
                        },
                    ),
                ],
            )
        } else if name == "keys"@ {
            Option::Some(
                seq![
                    SpecBasic::Callable(
                        SpecFun { params: Seq::empty(), result: seq![SpecBasic::List(k)] },
                    ),
                ],
            )
        } else if name == "values"@ {
            Option::Some(
                seq![
                    SpecBasic::Callable(
                        SpecFun { params: Seq::empty(), result: seq![SpecBasic::List(v)] },
                    ),
                ],
            )
        } else {
            Option::None
        },
        _ => Option::None,
    }
}

/// What the standard oracle knows about binary operators on builtin types.
pub open spec fn std_binop(op: BinOp, left: SpecBasic, right: SpecBasic) -> Option<
    Seq<SpecBasic>,
> {
    match op {
        BinOp::Add => match (left, right) {
            (SpecBasic::Int, SpecBasic::Int) => Option::Some(seq![SpecBasic::Int]),
            (SpecBasic::Int, SpecBasic::Float) => Option::Some(seq![SpecBasic::Float]),
            (SpecBasic::Float, SpecBasic::Int) => Option::Some(seq![SpecBasic::Float]),
            (SpecBasic::Float, SpecBasic::Float) => Option::Some(seq![SpecBasic::Float]),
            (SpecBasic::Str, SpecBasic::Str) => Option::Some(seq![SpecBasic::Str]),
            (SpecBasic::List(a), SpecBasic::List(b)) => Option::Some(
                seq![SpecBasic::List(spec_union(a, b))],
            ),
            _ => Option::None,
        },
        BinOp::Sub | BinOp::Mul | BinOp::Div | BinOp::Percent => match (left, right) {
            (SpecBasic::Int, SpecBasic::Int) => Option::Some(
                if op == BinOp::Div {
                    seq![SpecBasic::Float]
                } else {
                    seq![SpecBasic::Int]
                },
            ),
            (SpecBasic::Int, SpecBasic::Float) => Option::Some(seq![SpecBasic::Float]),
            (SpecBasic::Float, SpecBasic::Int) => Option::Some(seq![SpecBasic::Float]),
            (SpecBasic::Float, SpecBasic::Float) => Option::Some(seq![SpecBasic::Float]),
            (SpecBasic::Str, SpecBasic::Int) => if op == BinOp::Mul {
                Option::Some(seq![SpecBasic::Str])
            } else {
                Option::None
            },
            (SpecBasic::List(a), SpecBasic::Int) => if op == BinOp::Mul {
                Option::Some(seq![SpecBasic::List(a)])
            } else {
                Option::None
            },
            _ => Option::None,
        },
        BinOp::Less => match (left, right) {
            (SpecBasic::Int, SpecBasic::Int) => Option::Some(seq![SpecBasic::Bool]),
            (SpecBasic::Int, SpecBasic::Float) => Option::Some(seq![SpecBasic::Bool]),
            (SpecBasic::Float, SpecBasic::Int) => Option::Some(seq![SpecBasic::Bool]),
            (SpecBasic::Float, SpecBasic::Float) => Option::Some(seq![SpecBasic::Bool]),
            (SpecBasic::Str, SpecBasic::Str) => Option::Some(seq![SpecBasic::Bool]),
            _ => Option::None,
        },
        BinOp::Equal => Option::Some(seq![SpecBasic::Bool]),
        BinOp::In => match right {
            SpecBasic::List(_) => Option::Some(seq![SpecBasic::Bool]),
            SpecBasic::Dict(_, _) => Option::Some(seq![SpecBasic::Bool]),
            SpecBasic::Str => if left == SpecBasic::Str {
                Option::Some(seq![SpecBasic::Bool])
            } else {
                Option::None
            },
            _ => Option::None,
        },
    }
}

/// The baseline oracle: a fixed table of the builtin types' methods and
/// operators; the struct itself carries no state.
pub struct OracleStandard {}

impl OracleStandard {
    pub fn new() -> (r: OracleStandard) {
        OracleStandard {  }
    }
}

impl TypingOracle for OracleStandard {
    open spec fn attr_spec(&self, recv: SpecBasic, name: Seq<char>) -> Option<Seq<SpecBasic>> {
        std_attr(recv, name)
    }

    open spec fn binop_spec(&self, op: BinOp, left: SpecBasic, right: SpecBasic) -> Option<
        Seq<SpecBasic>,
    > {
        std_binop(op, left, right)
    }

    open spec fn callable_spec(&self, recv: SpecBasic) -> Option<SpecFun> {
        Option::None
    }

    fn attr(&self, recv: &TyBasic, name: &str) -> (r: Option<Ty>) {
        match recv {
            TyBasic::Str => {
                if str_eq(name, "upper") || str_eq(name, "lower") || str_eq(name, "strip") {
                    Option::Some(Ty::callable(simple_sig(no_params(), Ty::str_ty())))
                } else if str_eq(name, "startswith") || str_eq(name, "endswith") {
                    let ps = one_param(req_param("prefix", Ty::str_ty()));
                    Option::Some(Ty::callable(simple_sig(ps, Ty::bool_ty())))
                } else if str_eq(name, "split") {
                    let ps = one_param(
                        Param {
                            mode: ParamMode::PosOrName,
                            name: "sep".to_owned(),
                            ty: Ty::str_ty(),
                            optional: true,
                        },
                    );
                    Option::Some(Ty::callable(simple_sig(ps, Ty::list(Ty::str_ty()))))
                } else {
                    Option::None
                }
            },
            TyBasic::List(elem) => {
                if str_eq(name, "append") {
                    let ps = one_param(req_param("x", Ty::any()));
                    Option::Some(Ty::callable(simple_sig(ps, Ty::none_ty())))
                } else if str_eq(name, "pop") {
                    Option::Some(Ty::callable(simple_sig(no_params(), copy_ty(elem))))
                } else if str_eq(name, "index") {
                    let ps = one_param(req_param("x", copy_ty(elem)));
                    Option::Some(Ty::callable(simple_sig(ps, Ty::int_ty())))
                } else {
                    Option::None
                }
            },
            TyBasic::Dict(k, v) => {
                if str_eq(name, "get") {
                    let ps = one_param(req_param("key", copy_ty(k)));
                    Option::Some(Ty::callable(simple_sig(ps, copy_ty(v).union(&Ty::none_ty()))))
                } else if str_eq(name, "keys") {
                    Option::Some(Ty::callable(simple_sig(no_params(), Ty::list(copy_ty(k)))))
                } else if str_eq(name, "values") {
                    Option::Some(Ty::callable(simple_sig(no_params(), Ty::list(copy_ty(v)))))
                } else {
                    Option::None
                }
            },
            _ => Option::None,
        }
    }

    fn binop(&self, op: BinOp, left: &TyBasic, right: &TyBasic) -> (r: Option<Ty>) {
        match op {
            BinOp::Add => match (left, right) {
                (TyBasic::Int, TyBasic::Int) => Option::Some(Ty::int_ty()),
                (TyBasic::Int, TyBasic::Float) => Option::Some(Ty::float_ty()),
                (TyBasic::Float, TyBasic::Int) => Option::Some(Ty::float_ty()),
                (TyBasic::Float, TyBasic::Float) => Option::Some(Ty::float_ty()),
                (TyBasic::Str, TyBasic::Str) => Option::Some(Ty::str_ty()),
                (TyBasic::List(a), TyBasic::List(b)) => Option::Some(Ty::list(a.union(b))),
                _ => Option::None,
            },
            BinOp::Sub | BinOp::Mul | BinOp::Div | BinOp::Percent => match (left, right) {
                (TyBasic::Int, TyBasic::Int) => Option::Some(
                    if op == BinOp::Div {
                        Ty::float_ty()
                    } else {
                        Ty::int_ty()
                    },
                ),
                (TyBasic::Int, TyBasic::Float) => Option::Some(Ty::float_ty()),
                (TyBasic::Float, TyBasic::Int) => Option::Some(Ty::float_ty()),
                (TyBasic::Float, TyBasic::Float) => Option::Some(Ty::float_ty()),
                (TyBasic::Str, TyBasic::Int) => if op == BinOp::Mul {
                    Option::Some(Ty::str_ty())
                } else {
                    Option::None
                },
                (TyBasic::List(a), TyBasic::Int) => if op == BinOp::Mul {
                    Option::Some(Ty::list(copy_ty(a)))
                } else {
                    Option::None
                },
                _ => Option::None,
            },
            BinOp::Less => match (left, right) {
                (TyBasic::Int, TyBasic::Int) => Option::Some(Ty::bool_ty()),
                (TyBasic::Int, TyBasic::Float) => Option::Some(Ty::bool_ty()),
                (TyBasic::Float, TyBasic::Int) => Option::Some(Ty::bool_ty()),
                (TyBasic::Float, TyBasic::Float) => Option::Some(Ty::bool_ty()),
                (TyBasic::Str, TyBasic::Str) => Option::Some(Ty::bool_ty()),
                _ => Option::None,
            },
            BinOp::Equal => Option::Some(Ty::bool_ty()),
            BinOp::In => match right {
                TyBasic::List(_) => Option::Some(Ty::bool_ty()),
                TyBasic::Dict(_, _) => Option::Some(Ty::bool_ty()),
                TyBasic::Str => match left {
                    TyBasic::Str => Option::Some(Ty::bool_ty()),
                    _ => Option::None,
                },
                _ => Option::None,
            },
        }
    }

    fn callable(&self, recv: &TyBasic) -> (r: Option<TyFunction>) {
        Option::None
    }
}

/// One entry of structured function documentation: a named builtin together
/// with its declared signature.
pub struct DocFunction {
    pub name: String,
    pub sig: TyFunction,
}

/// The model of a sequence of documentation entries, element by element.
pub open spec fn docs_view(s: Seq<DocFunction>) -> Seq<(Seq<char>, SpecFun)>
    decreases s,
{
    if s.len() == 0 {
        Seq::empty()
    } else {
        docs_view(s.drop_last()).push((s.last().name@, fun_view(s.last().sig)))
    }
}

/// The first documented signature under a name, if any.
pub open spec fn find_doc(docs: Seq<(Seq<char>, SpecFun)>, name: Seq<char>) -> Option<SpecFun>
    decreases docs.len(),
{
    if docs.len() == 0 {
        Option::None
    } else if docs[0].0 == name {
        Option::Some(docs[0].1)
    } else {
        find_doc(docs.drop_first(), name)
    }
}

/// An oracle whose signature table is built from structured function
/// documentation rather than from a hand-written table: each documented name
/// becomes a callable identity with the documented signature.
pub struct OracleDocs {
    pub entries: Vec<DocFunction>,
}

impl OracleDocs {
    /// Build the oracle from a list of documented functions.
    pub fn new(entries: Vec<DocFunction>) -> (r: OracleDocs)
        ensures
            docs_view(r.entries@) == docs_view(entries@),
    {
        OracleDocs { entries }
    }
}

impl TypingOracle for OracleDocs {
    open spec fn attr_spec(&self, recv: SpecBasic, name: Seq<char>) -> Option<Seq<SpecBasic>> {
        Option::None
    }

    open spec fn binop_spec(&self, op: BinOp, left: SpecBasic, right: SpecBasic) -> Option<
        Seq<SpecBasic>,
    > {
        Option::None
    }

    open spec fn callable_spec(&self, recv: SpecBasic) -> Option<SpecFun> {
        match recv {
            SpecBasic::Name(n) => find_doc(docs_view(self.entries@), n),
            _ => Option::None,
        }
    }

    fn attr(&self, recv: &TyBasic, name: &str) -> (r: Option<Ty>) {
        Option::None
    }

    fn binop(&self, op: BinOp, left: &TyBasic, right: &TyBasic) -> (r: Option<Ty>) {
        Option::None
    }

    fn callable(&self, recv: &TyBasic) -> (r: Option<TyFunction>) {
        match recv {
            TyBasic::Name(n) => {
                let ghost dv = docs_view(self.entries@);
                proof {
                    lemma_docs_view_len(self.entries@);
                    assert(dv.skip(0) =~= dv);
                }
                let m = self.entries.len();
                let mut j: usize = 0;
                while j < m
                    invariant
                        0 <= j <= m,
                        m == self.entries@.len(),
                        m == dv.len(),
                        dv == docs_view(self.entries@),
                        recv@ == SpecBasic::Name(n.0@),
                        find_doc(dv, n.0@) == find_doc(dv.skip(j as int), n.0@),
                    decreases m - j,
                {
                    proof {
                        lemma_docs_view_index(self.entries@, j as int);
                        assert(dv.skip(j as int)[0] == dv[j as int]);
                        assert(dv.skip(j as int).drop_first() =~= dv.skip(j + 1));
                    }
                    if str_eq(self.entries[j].name.as_str(), n.0.as_str()) {
                        proof {
                            assert(dv[j as int].0 == n.0@);
                            assert(find_doc(dv.skip(j as int), n.0@) == Option::Some(
                                dv[j as int].1,
                            ));
                            assert(find_doc(dv, n.0@) == Option::Some(
                                fun_view(self.entries@[j as int].sig),
                            ));
                        }
                        return Option::Some(copy_fun(&self.entries[j].sig));
                    }
                    j += 1;
                }
                proof {
                    assert(dv.skip(m as int) =~= Seq::<(Seq<char>, SpecFun)>::empty());
                }
                Option::None
            },
            _ => Option::None,
        }
    }
}

proof fn lemma_docs_view_len(s: Seq<DocFunction>)
    ensures
        docs_view(s).len() == s.len(),
    decreases s.len(),
{
    if s.len() > 0 {
        lemma_docs_view_len(s.drop_last());
    }
}

proof fn lemma_docs_view_index(s: Seq<DocFunction>, i: int)
    requires
        0 <= i < s.len(),
    ensures
        docs_view(s)[i] == (s[i].name@, fun_view(s[i].sig)),
    decreases s.len(),
{
    lemma_docs_view_len(s);
    if i < s.len() - 1 {
        lemma_docs_view_index(s.drop_last(), i);
    }
}

} // verus!
