//! The type algebra: unions of basic types, with `union`, `intersect` and
//! `is_subtype`.
//!
//! A [`Ty`] is a finite set of [`TyBasic`] alternatives read as a logical OR.
//! The executable types carry `Vec`, `Box` and `String`; every one of them is
//! viewed onto a ghost model (`SpecBasic` and friends) built from `Seq`, and
//! all contracts are stated over that model.

use vstd::prelude::*;

use crate::text::str_eq;

use crate::views::alts_view;
use crate::views::basic_view;
use crate::views::fields_view;
use crate::views::fun_view;
use crate::views::params_view;
use crate::views::struct_view;
use crate::views::ty_view;
use crate::views::tys_view;

verus! {

broadcast use {
    vstd::seq::axiom_seq_index_decreases,
    vstd::seq::axiom_seq_subrange_decreases,
    vstd::std_specs::vec::axiom_vec_index_decreases,
    vstd::std_specs::vec::axiom_vec_decreases_to_view,
    crate::views::alts_view_len,
    crate::views::alts_view_index,
    crate::views::tys_view_len,
    crate::views::tys_view_index,
    crate::views::fields_view_len,
    crate::views::fields_view_index,
    crate::views::params_view_len,
    crate::views::params_view_index,
};

/// Ghost model of one alternative of a union type.  A union itself is a
/// `Seq<SpecBasic>`; the empty sequence is the bottom type `Never`.
#[verifier::ext_equal]
pub enum SpecBasic {
    /// The type of `None`.
    NoneType,
    Bool,
    Int,
    Float,
    Str,
    /// A mutable list with the given element type.
    List(Seq<SpecBasic>),
    /// A fixed-arity tuple with one element type per position.
    Tuple(Seq<Seq<SpecBasic>>),
    /// A dictionary from key type to value type.
    Dict(Seq<SpecBasic>, Seq<SpecBasic>),
    /// Something that can be iterated, yielding the given element type.
    Iter(Seq<SpecBasic>),
    /// A callable value with the given signature.
    Callable(SpecFun),
    /// A structural record: named fields, open or closed.
    Struct(SpecStruct),
    /// A named runtime type, identified by its runtime type name.
    Name(Seq<char>),
    /// The unknown type: permissive on both sides of every check.
    Any,
}

/// Ghost model of one struct field.
#[verifier::ext_equal]
pub struct SpecField {
    pub name: Seq<char>,
    pub ty: Seq<SpecBasic>,
}

/// Ghost model of a structural record type.
#[verifier::ext_equal]
pub struct SpecStruct {
    pub fields: Seq<SpecField>,
    /// Whether fields beyond the listed ones are permitted (open record).
    pub extra: bool,
}

/// The calling-convention role of one function parameter.
#[derive(Clone, Copy, Debug, PartialEq, Eq, Structural)]
pub enum ParamMode {
    /// Filled by position only.
    PosOnly,
    /// Filled by position or by name.
    PosOrName,
    /// Filled by name only.
    NameOnly,
    /// Collects all surplus positional arguments (`*args`).
    Args,
    /// Collects all surplus named arguments (`**kwargs`).
    Kwargs,
}

/// Ghost model of one function parameter.
#[verifier::ext_equal]
pub struct SpecParam {
    pub mode: ParamMode,
    pub name: Seq<char>,
    pub ty: Seq<SpecBasic>,
    /// Whether the parameter has a default and may be left unfilled.
    pub optional: bool,
}

/// Ghost model of a function signature.
#[verifier::ext_equal]
pub struct SpecFun {
    pub params: Seq<SpecParam>,
    pub result: Seq<SpecBasic>,
}

/// A named runtime type, identified by the name the runtime reports for its
/// values.
pub struct TyName(pub String);

/// One basic (non-union) type.  Unions of these live one level up, in [`Ty`].
pub enum TyBasic {
    /// The type of `None`.
    NoneType,
    Bool,
    Int,
    Float,
    Str,
    /// A mutable list with the given element type.
    List(Box<Ty>),
    /// A fixed-arity tuple with one element type per position.
    Tuple(Vec<Ty>),
    /// A dictionary from key type to value type.
    Dict(Box<Ty>, Box<Ty>),
    /// Something that can be iterated, yielding the given element type.
    Iter(Box<Ty>),
    /// A callable value with the given signature.
    Callable(Box<TyFunction>),
    /// A structural record: named fields, open or closed.
    Struct(TyStruct),
    /// A named runtime type.
    Name(TyName),
    /// The unknown type: permissive on both sides of every check.
    Any,
}

/// A structural record type: an ordered list of named fields, plus a flag
/// saying whether extra fields are permitted.
pub struct TyStruct {
    pub fields: Vec<Field>,
    pub extra: bool,
}

/// One field of a [`TyStruct`].
pub struct Field {
    pub name: String,
    pub ty: Ty,
}

/// One parameter of a function signature.
pub struct Param {
    pub mode: ParamMode,
    pub name: String,
    pub ty: Ty,
    /// Whether the parameter has a default and may be left unfilled.
    pub optional: bool,
}

/// A function signature: its parameters and its result type.
pub struct TyFunction {
    pub params: Vec<Param>,
    pub result: Ty,
}

/// A type: a set of basic alternatives read as a logical OR.  The empty set
/// is the bottom type `Never`; the union containing [`TyBasic::Any`] is kept
/// collapsed to exactly that one alternative.
pub struct Ty {
    pub alts: Vec<TyBasic>,
}

impl Ty {
    /// The bottom type: no value has it; the type of unreachable code.
    pub fn never() -> (r: Ty)
        ensures
            r@ == Seq::<SpecBasic>::empty(),
            r.wf(),
    {
        let r = Ty { alts: Vec::new() };
        proof {
            assert(r@ =~= Seq::<SpecBasic>::empty());
        }
        r
    }

    /// The unknown type, permissive in every check.
    pub fn any() -> (r: Ty)
        ensures
            r@ == seq![SpecBasic::Any],
            r.wf(),
    {
        Ty::basic(TyBasic::Any)
    }

    pub fn int_ty() -> (r: Ty)
        ensures
            r@ == seq![SpecBasic::Int],
            r.wf(),
    {
        Ty::basic(TyBasic::Int)
    }

    /// The union of exactly one alternative.
    pub fn basic(b: TyBasic) -> (r: Ty)
        ensures
            r@ == seq![b@],
            wf_basic(b@) ==> r.wf(),
    {
        let ghost bv = b@;
        let mut alts: Vec<TyBasic> = Vec::new();
        alts.push(b);
        let r = Ty { alts };
        proof {
            assert(r@ =~= seq![bv]);
        }
        r
    }

    /// Validity of a type value: deduplicated alternatives, `Any` kept
    /// collapsed, and every alternative itself well formed.
    pub open spec fn wf(&self) -> bool {
        wf_ty(self@)
    }

    /// The type of `None`.
    pub fn none_ty() -> (r: Ty)
        ensures
            r@ == seq![SpecBasic::NoneType],
            r.wf(),
    {
        Ty::basic(TyBasic::NoneType)
    }

    pub fn bool_ty() -> (r: Ty)
        ensures
            r@ == seq![SpecBasic::Bool],
            r.wf(),
    {
        Ty::basic(TyBasic::Bool)
    }

    pub fn float_ty() -> (r: Ty)
        ensures
            r@ == seq![SpecBasic::Float],
            r.wf(),
    {
        Ty::basic(TyBasic::Float)
    }

    pub fn str_ty() -> (r: Ty)
        ensures
            r@ == seq![SpecBasic::Str],
            r.wf(),
    {
        Ty::basic(TyBasic::Str)
    }

    /// A list whose elements have the given type.
    pub fn list(elem: Ty) -> (r: Ty)
        ensures
            r@ == seq![SpecBasic::List(elem@)],
            elem.wf() ==> r.wf(),
    {
        Ty::basic(TyBasic::List(Box::new(elem)))
    }

    /// A tuple with the given element type at each position.
    pub fn tuple(elems: Vec<Ty>) -> (r: Ty)
        ensures
            r@ == seq![SpecBasic::Tuple(tys_view(elems@))],
            (forall|i: int| 0 <= i < elems@.len() ==> (#[trigger] elems@[i]).wf()) ==> r.wf(),
    {
        proof {
            crate::views::tys_view_len(elems@);
            if forall|i: int| 0 <= i < elems@.len() ==> (#[trigger] elems@[i]).wf() {
                assert forall|i: int| 0 <= i < tys_view(elems@).len() implies wf_ty(
                    #[trigger] tys_view(elems@)[i],
                ) by {
                    crate::views::tys_view_index(elems@, i);
                }
            }
        }
        Ty::basic(TyBasic::Tuple(elems))
    }

    /// A dictionary from keys of type `k` to values of type `v`.
    pub fn dict(k: Ty, v: Ty) -> (r: Ty)
        ensures
            r@ == seq![SpecBasic::Dict(k@, v@)],
            k.wf() && v.wf() ==> r.wf(),
    {
        Ty::basic(TyBasic::Dict(Box::new(k), Box::new(v)))
    }

    /// Something iterable yielding elements of the given type.
    pub fn iter(elem: Ty) -> (r: Ty)
        ensures
            r@ == seq![SpecBasic::Iter(elem@)],
            elem.wf() ==> r.wf(),
    {
        Ty::basic(TyBasic::Iter(Box::new(elem)))
    }

    /// A callable with the given signature.
    pub fn callable(f: TyFunction) -> (r: Ty)
        ensures
            r@ == seq![SpecBasic::Callable(fun_view(f))],
            wf_fun(fun_view(f)) ==> r.wf(),
    {
        Ty::basic(TyBasic::Callable(Box::new(f)))
    }

    /// A structural record type.
    pub fn struct_ty(s: TyStruct) -> (r: Ty)
        ensures
            r@ == seq![SpecBasic::Struct(struct_view(s))],
            wf_struct(struct_view(s)) ==> r.wf(),
    {
        Ty::basic(TyBasic::Struct(s))
    }

    /// A named runtime type.
    pub fn name(n: String) -> (r: Ty)
        ensures
            r@ == seq![SpecBasic::Name(n@)],
            r.wf(),
    {
        Ty::basic(TyBasic::Name(TyName(n)))
    }
}

/// Validity of a model union: no repeated alternative, `Any` only ever alone,
/// every alternative well formed.
pub open spec fn wf_ty(t: Seq<SpecBasic>) -> bool
    decreases t,
{
    &&& forall|i: int, j: int| 0 <= i < j < t.len() ==> t[i] != t[j]
    &&& (t.contains(SpecBasic::Any) ==> t =~= seq![SpecBasic::Any])
    &&& forall|i: int| 0 <= i < t.len() ==> wf_basic(#[trigger] t[i])
}

/// Validity of one model alternative.
pub open spec fn wf_basic(b: SpecBasic) -> bool
    decreases b,
{
    match b {
        SpecBasic::List(t) => wf_ty(t),
        SpecBasic::Tuple(ts) => forall|i: int| 0 <= i < ts.len() ==> wf_ty(#[trigger] ts[i]),
        SpecBasic::Dict(k, v) => wf_ty(k) && wf_ty(v),
        SpecBasic::Iter(t) => wf_ty(t),
        SpecBasic::Callable(f) => wf_fun(f),
        SpecBasic::Struct(s) => wf_struct(s),
        _ => true,
    }
}

/// Validity of a model struct: field names unique, field types well formed.
pub open spec fn wf_struct(s: SpecStruct) -> bool
    decreases s,
{
    &&& forall|i: int, j: int|
        0 <= i < j < s.fields.len() ==> s.fields[i].name != s.fields[j].name
    &&& forall|i: int| 0 <= i < s.fields.len() ==> wf_ty(#[trigger] s.fields[i].ty)
}

/// Validity of a model signature: at most one `*args` and one `**kwargs`,
/// both last (`**kwargs` after `*args`), positional-only parameters before
/// positional-or-named ones, named-only ones after any `*args`, parameter
/// names unique, and every declared type well formed.
pub open spec fn wf_fun(f: SpecFun) -> bool
    decreases f,
{
    &&& wf_params(f.params)
    &&& wf_ty(f.result)
    &&& forall|i: int| 0 <= i < f.params.len() ==> wf_ty(#[trigger] f.params[i].ty)
}

/// The ordering and uniqueness part of signature validity.
pub open spec fn wf_params(params: Seq<SpecParam>) -> bool {
    &&& forall|i: int, j: int|
        0 <= i < j < params.len() ==> mode_rank(params[i].mode) <= mode_rank(params[j].mode)
    &&& forall|i: int, j: int|
        0 <= i < j < params.len() && params[i].mode == ParamMode::Args ==> params[j].mode
            != ParamMode::Args
    &&& forall|i: int, j: int|
        0 <= i < j < params.len() && params[i].mode == ParamMode::Kwargs ==> params[j].mode
            != ParamMode::Kwargs
    &&& forall|i: int, j: int|
        0 <= i < j < params.len() && named_param(params[i].mode) && named_param(params[j].mode)
            ==> params[i].name != params[j].name
}

/// Structural equality of two alternatives, at the level of the model views.
pub fn basic_eq(a: &TyBasic, b: &TyBasic) -> (r: bool)
    ensures
        r == (a@ == b@),
    decreases *a,
{
    match (a, b) {
        (TyBasic::NoneType, TyBasic::NoneType) => true,
        (TyBasic::Bool, TyBasic::Bool) => true,
        (TyBasic::Int, TyBasic::Int) => true,
        (TyBasic::Float, TyBasic::Float) => true,
        (TyBasic::Str, TyBasic::Str) => true,
        (TyBasic::List(x), TyBasic::List(y)) => ty_eq(x, y),
        (TyBasic::Tuple(xs), TyBasic::Tuple(ys)) => tuple_eq(xs, ys),
        (TyBasic::Dict(xk, xv), TyBasic::Dict(yk, yv)) => ty_eq(xk, yk) && ty_eq(xv, yv),
        (TyBasic::Iter(x), TyBasic::Iter(y)) => ty_eq(x, y),
        (TyBasic::Callable(f), TyBasic::Callable(g)) => fun_eq(f, g),
        (TyBasic::Struct(x), TyBasic::Struct(y)) => struct_eq(x, y),
        (TyBasic::Name(n), TyBasic::Name(m)) => str_eq(n.0.as_str(), m.0.as_str()),
        (TyBasic::Any, TyBasic::Any) => true,
        _ => false,
    }
}

/// Structural equality of two types: same alternatives in the same order.
pub fn ty_eq(a: &Ty, b: &Ty) -> (r: bool)
    ensures
        r == (a@ == b@),
    decreases *a,
{
    if a.alts.len() != b.alts.len() {
        proof {
            crate::views::alts_view_len(a.alts@);
            crate::views::alts_view_len(b.alts@);
        }
        return false;
    }
    let n = a.alts.len();
    let mut i: usize = 0;
    while i < n
        invariant
            0 <= i <= n,
            n == a.alts.len() == b.alts.len(),
            forall|k: int| 0 <= k < i ==> a@[k] == b@[k],
        decreases n - i,
    {
        let same = basic_eq(&a.alts[i], &b.alts[i]);
        proof {
            crate::views::alts_view_len(a.alts@);
            crate::views::alts_view_len(b.alts@);
            crate::views::alts_view_index(a.alts@, i as int);
            crate::views::alts_view_index(b.alts@, i as int);
        }
        if !same {
            return false;
        }
        i += 1;
    }
    proof {
        crate::views::alts_view_len(a.alts@);
        crate::views::alts_view_len(b.alts@);
        assert(a@ =~= b@);
    }
    true
}

/// Structural equality of two tuple shapes, position by position.
fn tuple_eq(a: &Vec<Ty>, b: &Vec<Ty>) -> (r: bool)
    ensures
        r == (tys_view(a@) == tys_view(b@)),
    decreases *a,
{
    if a.len() != b.len() {
        proof {
            crate::views::tys_view_len(a@);
            crate::views::tys_view_len(b@);
        }
        return false;
    }
    let n = a.len();
    let mut i: usize = 0;
    while i < n
        invariant
            0 <= i <= n,
            n == a.len() == b.len(),
            forall|k: int| 0 <= k < i ==> tys_view(a@)[k] == tys_view(b@)[k],
        decreases n - i,
    {
        let same = ty_eq(&a[i], &b[i]);
        proof {
            crate::views::tys_view_len(a@);
            crate::views::tys_view_len(b@);
            crate::views::tys_view_index(a@, i as int);
            crate::views::tys_view_index(b@, i as int);
        }
        if !same {
            return false;
        }
        i += 1;
    }
    proof {
        crate::views::tys_view_len(a@);
        crate::views::tys_view_len(b@);
        assert(tys_view(a@) =~= tys_view(b@));
    }
    true
}

/// Structural equality of two struct types: same fields, in order, and the
/// same openness.
fn struct_eq(a: &TyStruct, b: &TyStruct) -> (r: bool)
    ensures
        r == (struct_view(*a) == struct_view(*b)),
    decreases *a,
{
    if a.extra != b.extra || a.fields.len() != b.fields.len() {
        proof {
            crate::views::fields_view_len(a.fields@);
            crate::views::fields_view_len(b.fields@);
        }
        return false;
    }
    let n = a.fields.len();
    let mut i: usize = 0;
    while i < n
        invariant
            0 <= i <= n,
            n == a.fields.len() == b.fields.len(),
            forall|k: int| 0 <= k < i ==> fields_view(a.fields@)[k] == fields_view(b.fields@)[k],
        decreases n - i,
    {
        let fa = &a.fields[i];
        let fb = &b.fields[i];
        let same = str_eq(fa.name.as_str(), fb.name.as_str()) && ty_eq(&fa.ty, &fb.ty);
        proof {
            crate::views::fields_view_len(a.fields@);
            crate::views::fields_view_len(b.fields@);
            crate::views::fields_view_index(a.fields@, i as int);
            crate::views::fields_view_index(b.fields@, i as int);
        }
        if !same {
            return false;
        }
        i += 1;
    }
    proof {
        crate::views::fields_view_len(a.fields@);
        crate::views::fields_view_len(b.fields@);
        assert(fields_view(a.fields@) =~= fields_view(b.fields@));
        assert(struct_view(*a) =~= struct_view(*b));
    }
    true
}

/// Structural equality of two signatures: same parameters, in order, and the
/// same result type.
fn fun_eq(a: &TyFunction, b: &TyFunction) -> (r: bool)
    ensures
        r == (fun_view(*a) == fun_view(*b)),
    decreases *a,
{
    if a.params.len() != b.params.len() {
        proof {
            crate::views::params_view_len(a.params@);
            crate::views::params_view_len(b.params@);
        }
        return false;
    }
    let n = a.params.len();
    let mut i: usize = 0;
    while i < n
        invariant
            0 <= i <= n,
            n == a.params.len() == b.params.len(),
            forall|k: int| 0 <= k < i ==> params_view(a.params@)[k] == params_view(b.params@)[k],
        decreases n - i,
    {
        let pa = &a.params[i];
        let pb = &b.params[i];
        let same = pa.mode == pb.mode && pa.optional == pb.optional
            && str_eq(pa.name.as_str(), pb.name.as_str()) && ty_eq(&pa.ty, &pb.ty);
        proof {
            crate::views::params_view_len(a.params@);
            crate::views::params_view_len(b.params@);
            crate::views::params_view_index(a.params@, i as int);
            crate::views::params_view_index(b.params@, i as int);
        }
        if !same {
            return false;
        }
        i += 1;
    }
    let same_result = ty_eq(&a.result, &b.result);
    proof {
        crate::views::params_view_len(a.params@);
        crate::views::params_view_len(b.params@);
        assert(params_view(a.params@) =~= params_view(b.params@));
    }
    if !same_result {
        return false;
    }
    proof {
        assert(fun_view(*a) =~= fun_view(*b));
    }
    true
}

/// Whether a parameter in this mode can be filled by name.
pub open spec fn named_param(m: ParamMode) -> bool {
    m == ParamMode::PosOrName || m == ParamMode::NameOnly
}

/// The order the parameter modes must appear in inside a signature.
pub open spec fn mode_rank(m: ParamMode) -> int {
    match m {
        ParamMode::PosOnly => 0,
        ParamMode::PosOrName => 1,
        ParamMode::Args => 2,
        ParamMode::NameOnly => 3,
        ParamMode::Kwargs => 4,
    }
}

/// Deep copy of a type, preserving its model exactly.
pub fn copy_ty(t: &Ty) -> (r: Ty)
    ensures
        r@ == t@,
    decreases *t,
{
    let n = t.alts.len();
    let mut alts: Vec<TyBasic> = Vec::new();
    let mut i: usize = 0;
    while i < n
        invariant
            0 <= i <= n,
            n == t.alts.len(),
            alts@.len() == i,
            forall|k: int| 0 <= k < i ==> alts_view(alts@)[k] == t@[k],
        decreases n - i,
    {
        let c = copy_basic(&t.alts[i]);
        proof {
            crate::views::alts_view_len(t.alts@);
            crate::views::alts_view_len(alts@);
            crate::views::alts_view_index(t.alts@, i as int);
        }
        let ghost before = alts@;
        alts.push(c);
        proof {
            assert(alts@.drop_last() =~= before);
            crate::views::alts_view_len(before);
            assert forall|k: int| 0 <= k < i + 1 implies alts_view(alts@)[k] == t@[k] by {
                crate::views::alts_view_len(alts@);
                crate::views::alts_view_index(alts@, k);
                if k < i {
                    crate::views::alts_view_index(before, k);
                    assert(alts@[k] == before[k]);
                }
            }
        }
        i += 1;
    }
    let r = Ty { alts };
    proof {
        crate::views::alts_view_len(r.alts@);
        crate::views::alts_view_len(t.alts@);
        assert(r@ =~= t@);
    }
    r
}

/// Deep copy of one alternative, preserving its model exactly.
pub fn copy_basic(b: &TyBasic) -> (r: TyBasic)
    ensures
        r@ == b@,
    decreases *b,
{
    match b {
        TyBasic::NoneType => TyBasic::NoneType,
        TyBasic::Bool => TyBasic::Bool,
        TyBasic::Int => TyBasic::Int,
        TyBasic::Float => TyBasic::Float,
        TyBasic::Str => TyBasic::Str,
        TyBasic::List(t) => TyBasic::List(Box::new(copy_ty(t))),
        TyBasic::Tuple(ts) => TyBasic::Tuple(copy_tys(ts)),
        TyBasic::Dict(k, v) => TyBasic::Dict(Box::new(copy_ty(k)), Box::new(copy_ty(v))),
        TyBasic::Iter(t) => TyBasic::Iter(Box::new(copy_ty(t))),
        TyBasic::Callable(f) => TyBasic::Callable(Box::new(copy_fun(f))),
        TyBasic::Struct(s) => TyBasic::Struct(copy_struct(s)),
        TyBasic::Name(n) => TyBasic::Name(TyName(n.0.clone())),
        TyBasic::Any => TyBasic::Any,
    }
}

fn copy_tys(ts: &Vec<Ty>) -> (r: Vec<Ty>)
    ensures
        tys_view(r@) == tys_view(ts@),
    decreases *ts,
{
    let n = ts.len();
    let mut out: Vec<Ty> = Vec::new();
    let mut i: usize = 0;
    while i < n
        invariant
            0 <= i <= n,
            n == ts.len(),
            out@.len() == i,
            forall|k: int| 0 <= k < i ==> tys_view(out@)[k] == tys_view(ts@)[k],
        decreases n - i,
    {
        let c = copy_ty(&ts[i]);
        proof {
            crate::views::tys_view_len(ts@);
            crate::views::tys_view_index(ts@, i as int);
        }
        let ghost before = out@;
        out.push(c);
        proof {
            assert(out@.drop_last() =~= before);
            assert forall|k: int| 0 <= k < i + 1 implies tys_view(out@)[k] == tys_view(ts@)[k] by {
                crate::views::tys_view_len(out@);
                crate::views::tys_view_index(out@, k);
                if k < i {
                    crate::views::tys_view_index(before, k);
                    assert(out@[k] == before[k]);
                }
            }
        }
        i += 1;
    }
    proof {
        crate::views::tys_view_len(out@);
        crate::views::tys_view_len(ts@);
        assert(tys_view(out@) =~= tys_view(ts@));
    }
    out
}

fn copy_struct(s: &TyStruct) -> (r: TyStruct)
    ensures
        struct_view(r) == struct_view(*s),
    decreases *s,
{
    let n = s.fields.len();
    let mut fields: Vec<Field> = Vec::new();
    let mut i: usize = 0;
    while i < n
        invariant
            0 <= i <= n,
            n == s.fields.len(),
            fields@.len() == i,
            forall|k: int| 0 <= k < i ==> fields_view(fields@)[k] == fields_view(s.fields@)[k],
        decreases n - i,
    {
        let f = &s.fields[i];
        let c = Field { name: f.name.clone(), ty: copy_ty(&f.ty) };
        proof {
            crate::views::fields_view_len(s.fields@);
            crate::views::fields_view_index(s.fields@, i as int);
        }
        let ghost before = fields@;
        fields.push(c);
        proof {
            assert(fields@.drop_last() =~= before);
            assert forall|k: int| 0 <= k < i + 1 implies fields_view(fields@)[k] == fields_view(
                s.fields@,
            )[k] by {
                crate::views::fields_view_len(fields@);
                crate::views::fields_view_index(fields@, k);
                if k < i {
                    crate::views::fields_view_index(before, k);
                    assert(fields@[k] == before[k]);
                }
            }
        }
        i += 1;
    }
    let r = TyStruct { fields, extra: s.extra };
    proof {
        crate::views::fields_view_len(r.fields@);
        crate::views::fields_view_len(s.fields@);
        assert(fields_view(r.fields@) =~= fields_view(s.fields@));
        assert(struct_view(r) =~= struct_view(*s));
    }
    r
}

/// Deep copy of a signature, preserving its model exactly.
pub fn copy_fun(f: &TyFunction) -> (r: TyFunction)
    ensures
        fun_view(r) == fun_view(*f),
    decreases *f,
{
    let n = f.params.len();
    let mut params: Vec<Param> = Vec::new();
    let mut i: usize = 0;
    while i < n
        invariant
            0 <= i <= n,
            n == f.params.len(),
            params@.len() == i,
            forall|k: int| 0 <= k < i ==> params_view(params@)[k] == params_view(f.params@)[k],
        decreases n - i,
    {
        let p = &f.params[i];
        let c = Param { mode: p.mode, name: p.name.clone(), ty: copy_ty(&p.ty), optional: p.optional };
        proof {
            crate::views::params_view_len(f.params@);
            crate::views::params_view_index(f.params@, i as int);
        }
        let ghost before = params@;
        params.push(c);
        proof {
            assert(params@.drop_last() =~= before);
            assert forall|k: int| 0 <= k < i + 1 implies params_view(params@)[k] == params_view(
                f.params@,
            )[k] by {
                crate::views::params_view_len(params@);
                crate::views::params_view_index(params@, k);
                if k < i {
                    crate::views::params_view_index(before, k);
                    assert(params@[k] == before[k]);
                }
            }
        }
        i += 1;
    }
    let r = TyFunction { params, result: copy_ty(&f.result) };
    proof {
        crate::views::params_view_len(r.params@);
        crate::views::params_view_len(f.params@);
        assert(params_view(r.params@) =~= params_view(f.params@));
        assert(fun_view(r) =~= fun_view(*f));
    }
    r
}

impl Clone for Ty {
    /// Deep copy; the copy has the same model as the original.
    fn clone(&self) -> (r: Self)
        ensures
            r@ == self@,
    {
        copy_ty(self)
    }
}

impl Clone for TyBasic {
    /// Deep copy; the copy has the same model as the original.
    fn clone(&self) -> (r: Self)
        ensures
            r@ == self@,
    {
        copy_basic(self)
    }
}

/// Whether one alternative is exactly `Any`.
pub fn basic_is_any(b: &TyBasic) -> (r: bool)
    ensures
        r == (b@ == SpecBasic::Any),
{
    match b {
        TyBasic::Any => true,
        _ => false,
    }
}

/// Whether a vector of alternatives holds one whose model is `x`.
fn contains_basic(v: &Vec<TyBasic>, x: &TyBasic) -> (r: bool)
    ensures
        r == alts_view(v@).contains(x@),
{
    let n = v.len();
    let mut i: usize = 0;
    proof {
        crate::views::alts_view_len(v@);
    }
    while i < n
        invariant
            0 <= i <= n,
            n == v.len(),
            alts_view(v@).len() == n,
            forall|k: int| 0 <= k < i ==> alts_view(v@)[k] != x@,
        decreases n - i,
    {
        let same = basic_eq(&v[i], x);
        proof {
            crate::views::alts_view_index(v@, i as int);
        }
        if same {
            return true;
        }
        i += 1;
    }
    proof {
        if alts_view(v@).contains(x@) {
            let k = choose|k: int| 0 <= k < alts_view(v@).len() && alts_view(v@)[k] == x@;
            assert(alts_view(v@)[k] == x@);
        }
    }
    false
}

impl Ty {
    /// Whether `Any` is among the alternatives.  On a valid type this means
    /// the type is exactly `Any`.
    pub fn is_any(&self) -> (r: bool)
        ensures
            r == self@.contains(SpecBasic::Any),
    {
        let r = contains_any_vec(&self.alts);
        proof {
            crate::views::alts_view_len(self.alts@);
        }
        r
    }

    /// Whether this is the bottom type, the empty union.
    pub fn is_never(&self) -> (r: bool)
        ensures
            r == (self@.len() == 0),
    {
        proof {
            crate::views::alts_view_len(self.alts@);
        }
        self.alts.len() == 0
    }
}

fn contains_any_vec(v: &Vec<TyBasic>) -> (r: bool)
    ensures
        r == alts_view(v@).contains(SpecBasic::Any),
{
    let n = v.len();
    let mut i: usize = 0;
    proof {
        crate::views::alts_view_len(v@);
    }
    while i < n
        invariant
            0 <= i <= n,
            n == v.len(),
            alts_view(v@).len() == n,
            forall|k: int| 0 <= k < i ==> alts_view(v@)[k] != SpecBasic::Any,
        decreases n - i,
    {
        let any_here = basic_is_any(&v[i]);
        proof {
            crate::views::alts_view_index(v@, i as int);
        }
        if any_here {
            return true;
        }
        i += 1;
    }
    proof {
        if alts_view(v@).contains(SpecBasic::Any) {
            let k = choose|k: int|
                0 <= k < alts_view(v@).len() && alts_view(v@)[k] == SpecBasic::Any;
            assert(alts_view(v@)[k] == SpecBasic::Any);
        }
    }
    false
}

/// `acc` with `x` appended, unless `x` is already present.
pub open spec fn push_new(acc: Seq<SpecBasic>, x: SpecBasic) -> Seq<SpecBasic> {
    if acc.contains(x) {
        acc
    } else {
        acc.push(x)
    }
}

/// `acc` extended with every alternative of `s` not yet present, keeping the
/// first occurrence of each and the order of first occurrences.
pub open spec fn dedup_into(acc: Seq<SpecBasic>, s: Seq<SpecBasic>) -> Seq<SpecBasic>
    decreases s.len(),
{
    if s.len() == 0 {
        acc
    } else {
        dedup_into(push_new(acc, s[0]), s.drop_first())
    }
}

/// No alternative appears twice.
pub open spec fn distinct(s: Seq<SpecBasic>) -> bool {
    forall|i: int, j: int| 0 <= i < j < s.len() ==> s[i] != s[j]
}

/// The model of [`Ty::union`]: the alternatives of `a` followed by the new
/// alternatives of `b`, deduplicated, with a union that mentions `Any`
/// collapsing to exactly `Any`.
pub open spec fn spec_union(a: Seq<SpecBasic>, b: Seq<SpecBasic>) -> Seq<SpecBasic> {
    if a.contains(SpecBasic::Any) || b.contains(SpecBasic::Any) {
        seq![SpecBasic::Any]
    } else {
        dedup_into(dedup_into(Seq::empty(), a), b)
    }
}

proof fn lemma_push_new_set(acc: Seq<SpecBasic>, x: SpecBasic)
    ensures
        push_new(acc, x).to_set() == acc.to_set().insert(x),
        acc.to_set().contains(x) ==> push_new(acc, x) == acc,
{
    if acc.contains(x) {
        assert(push_new(acc, x).to_set() =~= acc.to_set().insert(x));
    } else {
        assert forall|y: SpecBasic| #[trigger] push_new(acc, x).to_set().contains(y) implies acc.to_set().insert(x).contains(y) by {
            let s = acc.push(x);
            let k = choose|k: int| 0 <= k < s.len() && s[k] == y;
            if k < acc.len() {
                assert(acc[k] == y);
            }
        }
        assert forall|y: SpecBasic| #[trigger] acc.to_set().insert(x).contains(y) implies push_new(acc, x).to_set().contains(y) by {
            if y == x {
                assert(acc.push(x)[acc.len() as int] == x);
            } else {
                let k = choose|k: int| 0 <= k < acc.len() && acc[k] == y;
                assert(acc.push(x)[k] == y);
            }
        }
        assert(push_new(acc, x).to_set() =~= acc.to_set().insert(x));
    }
}

proof fn lemma_first_rest_set(s: Seq<SpecBasic>)
    requires
        s.len() > 0,
    ensures
        s.to_set() == s.drop_first().to_set().insert(s[0]),
{
    let rest = s.drop_first();
    assert forall|y: SpecBasic| #[trigger] s.to_set().contains(y) implies rest.to_set().insert(s[0]).contains(y) by {
        let k = choose|k: int| 0 <= k < s.len() && s[k] == y;
        if k > 0 {
            assert(rest[k - 1] == y);
        }
    }
    assert forall|y: SpecBasic| #[trigger] rest.to_set().insert(s[0]).contains(y) implies s.to_set().contains(y) by {
        if y == s[0] {
            assert(s[0] == y);
        } else {
            let k = choose|k: int| 0 <= k < rest.len() && rest[k] == y;
            assert(s[k + 1] == y);
        }
    }
    assert(s.to_set() =~= rest.to_set().insert(s[0]));
}

proof fn lemma_dedup_set(acc: Seq<SpecBasic>, s: Seq<SpecBasic>)
    ensures
        dedup_into(acc, s).to_set() == acc.to_set().union(s.to_set()),
    decreases s.len(),
{
    if s.len() == 0 {
        assert(s.to_set() =~= Set::<SpecBasic>::empty());
        assert(dedup_into(acc, s).to_set() =~= acc.to_set().union(s.to_set()));
    } else {
        lemma_push_new_set(acc, s[0]);
        lemma_dedup_set(push_new(acc, s[0]), s.drop_first());
        lemma_first_rest_set(s);
        assert(dedup_into(acc, s).to_set() =~= acc.to_set().union(s.to_set()));
    }
}

proof fn lemma_dedup_distinct(acc: Seq<SpecBasic>, s: Seq<SpecBasic>)
    requires
        distinct(acc),
    ensures
        distinct(dedup_into(acc, s)),
    decreases s.len(),
{
    if s.len() > 0 {
        let stepped = push_new(acc, s[0]);
        if !acc.contains(s[0]) {
            assert forall|i: int, j: int| 0 <= i < j < stepped.len() implies stepped[i] != stepped[j] by {
                if j == stepped.len() - 1 {
                    assert(stepped[j] == s[0]);
                    if acc.contains(stepped[i]) {
                    } else {
                        assert(acc[i] == stepped[i]);
                        assert(acc.contains(stepped[i]));
                    }
                }
            }
        }
        lemma_dedup_distinct(stepped, s.drop_first());
    }
}

proof fn lemma_dedup_fresh(acc: Seq<SpecBasic>, s: Seq<SpecBasic>)
    requires
        distinct(s),
        forall|x: SpecBasic| s.contains(x) ==> !acc.contains(x),
    ensures
        dedup_into(acc, s) == acc + s,
    decreases s.len(),
{
    if s.len() == 0 {
        assert(dedup_into(acc, s) =~= acc + s);
    } else {
        let rest = s.drop_first();
        assert(s.contains(s[0]));
        assert(!acc.contains(s[0]));
        let stepped = acc.push(s[0]);
        assert(push_new(acc, s[0]) == stepped);
        assert forall|x: SpecBasic| rest.contains(x) implies !stepped.contains(x) by {
            let k = choose|k: int| 0 <= k < rest.len() && rest[k] == x;
            assert(s[k + 1] == x);
            assert(s.contains(x));
            if stepped.contains(x) {
                let m = choose|m: int| 0 <= m < stepped.len() && stepped[m] == x;
                if m < acc.len() {
                    assert(acc[m] == x);
                    assert(acc.contains(x));
                } else {
                    assert(x == s[0]);
                    assert(s[k + 1] == s[0]);
                }
            }
        }
        assert forall|i: int, j: int| 0 <= i < j < rest.len() implies rest[i] != rest[j] by {
            assert(s[i + 1] == rest[i]);
            assert(s[j + 1] == rest[j]);
        }
        lemma_dedup_fresh(stepped, rest);
        assert(dedup_into(acc, s) =~= acc + s);
    }
}

proof fn lemma_dedup_absorbed(acc: Seq<SpecBasic>, s: Seq<SpecBasic>)
    requires
        forall|x: SpecBasic| s.contains(x) ==> acc.contains(x),
    ensures
        dedup_into(acc, s) == acc,
    decreases s.len(),
{
    if s.len() > 0 {
        assert(s.contains(s[0]));
        assert(push_new(acc, s[0]) == acc);
        let rest = s.drop_first();
        assert forall|x: SpecBasic| rest.contains(x) implies acc.contains(x) by {
            let k = choose|k: int| 0 <= k < rest.len() && rest[k] == x;
            assert(s[k + 1] == x);
            assert(s.contains(x));
        }
        lemma_dedup_absorbed(acc, rest);
    }
}

proof fn lemma_dedup_snoc(acc: Seq<SpecBasic>, s: Seq<SpecBasic>, x: SpecBasic)
    ensures
        dedup_into(acc, s.push(x)) == push_new(dedup_into(acc, s), x),
    decreases s.len(),
{
    if s.len() == 0 {
        assert(s.push(x)[0] == x);
        assert(s.push(x).drop_first() =~= Seq::<SpecBasic>::empty());
        assert(dedup_into(acc, s.push(x)) == dedup_into(push_new(acc, x), s.push(x).drop_first()));
    } else {
        assert(s.push(x)[0] == s[0]);
        assert(s.push(x).drop_first() =~= s.drop_first().push(x));
        lemma_dedup_snoc(push_new(acc, s[0]), s.drop_first(), x);
    }
}

impl Ty {
    /// The union of two types: set union of the alternatives, where `Never`
    /// (the empty union) is the identity and a union mentioning `Any`
    /// collapses to exactly `Any`.
    pub fn union(&self, other: &Ty) -> (r: Ty)
        ensures
            r@ == spec_union(self@, other@),
    {
        if self.is_any() || other.is_any() {
            return Ty::any();
        }
        let mut alts: Vec<TyBasic> = Vec::new();
        let n = self.alts.len();
        let mut i: usize = 0;
        proof {
            crate::views::alts_view_len(self.alts@);
            assert(self@.take(0) =~= Seq::<SpecBasic>::empty());
        }
        while i < n
            invariant
                0 <= i <= n,
                n == self.alts.len(),
                n == self@.len(),
                alts_view(alts@) == dedup_into(Seq::<SpecBasic>::empty(), self@.take(i as int)),
            decreases n - i,
        {
            let present = contains_basic(&alts, &self.alts[i]);
            proof {
                crate::views::alts_view_index(self.alts@, i as int);
                assert(self@.take(i + 1) =~= self@.take(i as int).push(self@[i as int]));
                lemma_dedup_snoc(Seq::<SpecBasic>::empty(), self@.take(i as int), self@[i as int]);
            }
            if !present {
                let c = copy_basic(&self.alts[i]);
                let ghost before = alts@;
                alts.push(c);
                proof {
                    assert(alts@.drop_last() =~= before);
                    crate::views::alts_view_len(before);
                    assert(alts_view(alts@) == alts_view(before).push(self@[i as int]));
                }
            }
            i += 1;
        }
        proof {
            assert(self@.take(n as int) =~= self@);
        }
        let ghost first = dedup_into(Seq::<SpecBasic>::empty(), self@);
        let m = other.alts.len();
        let mut j: usize = 0;
        proof {
            crate::views::alts_view_len(other.alts@);
            assert(other@.take(0) =~= Seq::<SpecBasic>::empty());
        }
        while j < m
            invariant
                0 <= j <= m,
                m == other.alts.len(),
                m == other@.len(),
                alts_view(alts@) == dedup_into(first, other@.take(j as int)),
            decreases m - j,
        {
            let present = contains_basic(&alts, &other.alts[j]);
            proof {
                crate::views::alts_view_index(other.alts@, j as int);
                assert(other@.take(j + 1) =~= other@.take(j as int).push(other@[j as int]));
                lemma_dedup_snoc(first, other@.take(j as int), other@[j as int]);
            }
            if !present {
                let c = copy_basic(&other.alts[j]);
                let ghost before = alts@;
                alts.push(c);
                proof {
                    assert(alts@.drop_last() =~= before);
                    crate::views::alts_view_len(before);
                    assert(alts_view(alts@) == alts_view(before).push(other@[j as int]));
                }
            }
            j += 1;
        }
        proof {
            assert(other@.take(m as int) =~= other@);
        }
        Ty { alts }
    }
}

/// Union absorbs `Any`: for any type `t`, `union(t, Any)` is exactly `Any`.
pub proof fn lemma_union_absorbs_any(t: Seq<SpecBasic>)
    ensures
        spec_union(t, seq![SpecBasic::Any]) == seq![SpecBasic::Any],
        spec_union(seq![SpecBasic::Any], t) == seq![SpecBasic::Any],
{
    assert(seq![SpecBasic::Any][0] == SpecBasic::Any);
    assert(seq![SpecBasic::Any].contains(SpecBasic::Any));
}

/// Union is idempotent: on any valid type, `union(t, t) == t`.
pub proof fn lemma_union_idempotent(t: Seq<SpecBasic>)
    requires
        wf_ty(t),
    ensures
        spec_union(t, t) == t,
{
    if t.contains(SpecBasic::Any) {
        assert(t =~= seq![SpecBasic::Any]);
    } else {
        assert(distinct(t));
        lemma_dedup_fresh(Seq::<SpecBasic>::empty(), t);
        assert(dedup_into(Seq::<SpecBasic>::empty(), t) =~= t);
        lemma_dedup_absorbed(t, t);
    }
}

/// Union is commutative up to the set of alternatives, which is the equality
/// the algebra works with.
pub proof fn lemma_union_commutative(a: Seq<SpecBasic>, b: Seq<SpecBasic>)
    ensures
        spec_union(a, b).to_set() == spec_union(b, a).to_set(),
{
    if a.contains(SpecBasic::Any) || b.contains(SpecBasic::Any) {
    } else {
        lemma_dedup_set(Seq::<SpecBasic>::empty(), a);
        lemma_dedup_set(dedup_into(Seq::<SpecBasic>::empty(), a), b);
        lemma_dedup_set(Seq::<SpecBasic>::empty(), b);
        lemma_dedup_set(dedup_into(Seq::<SpecBasic>::empty(), b), a);
        assert(spec_union(a, b).to_set() =~= spec_union(b, a).to_set());
    }
}

/// Union is associative up to the set of alternatives.
pub proof fn lemma_union_associative(a: Seq<SpecBasic>, b: Seq<SpecBasic>, c: Seq<SpecBasic>)
    ensures
        spec_union(spec_union(a, b), c).to_set() == spec_union(a, spec_union(b, c)).to_set(),
{
    lemma_union_contains_any(a, b);
    lemma_union_contains_any(b, c);
    lemma_union_contains_any(spec_union(a, b), c);
    lemma_union_contains_any(a, spec_union(b, c));
    if a.contains(SpecBasic::Any) || b.contains(SpecBasic::Any) || c.contains(SpecBasic::Any) {
        assert(spec_union(spec_union(a, b), c) =~= seq![SpecBasic::Any]);
        assert(spec_union(a, spec_union(b, c)) =~= seq![SpecBasic::Any]);
    } else {
        lemma_union_set(a, b);
        lemma_union_set(b, c);
        lemma_union_set(spec_union(a, b), c);
        lemma_union_set(a, spec_union(b, c));
        assert(spec_union(spec_union(a, b), c).to_set() =~= spec_union(a, spec_union(b, c)).to_set());
    }
}

/// The union mentions `Any` exactly when one of its operands does.
pub proof fn lemma_union_contains_any(a: Seq<SpecBasic>, b: Seq<SpecBasic>)
    ensures
        spec_union(a, b).contains(SpecBasic::Any) <==> (a.contains(SpecBasic::Any) || b.contains(
            SpecBasic::Any,
        )),
{
    if a.contains(SpecBasic::Any) || b.contains(SpecBasic::Any) {
        assert(seq![SpecBasic::Any][0] == SpecBasic::Any);
        assert(spec_union(a, b).contains(SpecBasic::Any));
    } else {
        lemma_union_set(a, b);
        if spec_union(a, b).contains(SpecBasic::Any) {
            assert(spec_union(a, b).to_set().contains(SpecBasic::Any));
        }
    }
}

/// As a set, the union holds exactly the alternatives of both operands
/// (before the `Any` collapse, which does not apply here).
pub proof fn lemma_union_set(a: Seq<SpecBasic>, b: Seq<SpecBasic>)
    requires
        !a.contains(SpecBasic::Any),
        !b.contains(SpecBasic::Any),
    ensures
        spec_union(a, b).to_set() == a.to_set().union(b.to_set()),
{
    lemma_dedup_set(Seq::<SpecBasic>::empty(), a);
    lemma_dedup_set(dedup_into(Seq::<SpecBasic>::empty(), a), b);
    assert(spec_union(a, b).to_set() =~= a.to_set().union(b.to_set()));
}

/// `Never`, the empty union, is the identity of union.
pub proof fn lemma_union_never_identity(t: Seq<SpecBasic>)
    requires
        wf_ty(t),
    ensures
        spec_union(t, Seq::<SpecBasic>::empty()) == t,
        spec_union(Seq::<SpecBasic>::empty(), t) == t,
{
    if t.contains(SpecBasic::Any) {
        assert(t =~= seq![SpecBasic::Any]);
    } else {
        assert(distinct(t));
        lemma_dedup_fresh(Seq::<SpecBasic>::empty(), t);
        assert(dedup_into(Seq::<SpecBasic>::empty(), t) =~= t);
    }
}

/// Union preserves validity.
pub proof fn lemma_union_wf(a: Seq<SpecBasic>, b: Seq<SpecBasic>)
    requires
        wf_ty(a),
        wf_ty(b),
    ensures
        wf_ty(spec_union(a, b)),
{
    if a.contains(SpecBasic::Any) || b.contains(SpecBasic::Any) {
        let r = seq![SpecBasic::Any];
        assert(r[0] == SpecBasic::Any);
        assert(r.contains(SpecBasic::Any) ==> r =~= seq![SpecBasic::Any]);
        assert(forall|i: int| 0 <= i < r.len() ==> wf_basic(#[trigger] r[i]));
    } else {
        let r = spec_union(a, b);
        lemma_dedup_distinct(Seq::<SpecBasic>::empty(), a);
        lemma_dedup_distinct(dedup_into(Seq::<SpecBasic>::empty(), a), b);
        lemma_union_set(a, b);
        assert forall|i: int| 0 <= i < r.len() implies wf_basic(#[trigger] r[i]) by {
            assert(r.contains(r[i]));
            assert(r.to_set().contains(r[i]));
            if a.to_set().contains(r[i]) {
                let k = choose|k: int| 0 <= k < a.len() && a[k] == r[i];
                assert(wf_basic(a[k]));
            } else {
                assert(b.to_set().contains(r[i]));
                let k = choose|k: int| 0 <= k < b.len() && b[k] == r[i];
                assert(wf_basic(b[k]));
            }
        }
        if r.contains(SpecBasic::Any) {
            assert(r.to_set().contains(SpecBasic::Any));
            assert(false);
        }
    }
}

/// The subtype relation between unions: every alternative of `a` has a
/// compatible counterpart among the alternatives of `b`.  The empty union
/// (`Never`) is a subtype of everything.
pub open spec fn sub_ty(a: Seq<SpecBasic>, b: Seq<SpecBasic>) -> bool
    decreases a, b,
{
    forall|i: int| 0 <= i < a.len() ==> has_super(#[trigger] a[i], b)
}

/// Whether the union `b` offers an alternative compatible with `x` from
/// above.
pub open spec fn has_super(x: SpecBasic, b: Seq<SpecBasic>) -> bool
    decreases x, b,
{
    exists|j: int| 0 <= j < b.len() && sub_basic(x, #[trigger] b[j])
}

/// Compatibility of two basic types.  `Any` is compatible on both sides (the
/// gradual part); containers are covariant; a list, tuple or dictionary is
/// also an iterable of its elements (of its keys, for a dictionary); a
/// callable is compatible with a callable whose result is wider; structs use
/// width subtyping: the subtype must offer every field the supertype names.
pub open spec fn sub_basic(x: SpecBasic, y: SpecBasic) -> bool
    decreases x, y,
{
    match (x, y) {
        (SpecBasic::Any, _) => true,
        (_, SpecBasic::Any) => true,
        (SpecBasic::NoneType, SpecBasic::NoneType) => true,
        (SpecBasic::Bool, SpecBasic::Bool) => true,
        (SpecBasic::Int, SpecBasic::Int) => true,
        (SpecBasic::Float, SpecBasic::Float) => true,
        (SpecBasic::Str, SpecBasic::Str) => true,
        (SpecBasic::List(s), SpecBasic::List(t)) => sub_ty(s, t),
        (SpecBasic::List(s), SpecBasic::Iter(t)) => sub_ty(s, t),
        (SpecBasic::Tuple(xs), SpecBasic::Tuple(ys)) => xs.len() == ys.len() && pairwise_sub(
            xs,
            ys,
        ),
        (SpecBasic::Tuple(xs), SpecBasic::Iter(t)) => all_elems_sub(xs, t),
        (SpecBasic::Dict(k1, v1), SpecBasic::Dict(k2, v2)) => sub_ty(k1, k2) && sub_ty(v1, v2),
        (SpecBasic::Dict(k1, v1), SpecBasic::Iter(t)) => sub_ty(k1, t),
        (SpecBasic::Iter(s), SpecBasic::Iter(t)) => sub_ty(s, t),
        (SpecBasic::Callable(f), SpecBasic::Callable(g)) => sub_ty(f.result, g.result),
        (SpecBasic::Struct(a), SpecBasic::Struct(b)) => sub_struct(a, b),
        (SpecBasic::Name(n), SpecBasic::Name(m)) => n == m,
        _ => false,
    }
}

/// Position-by-position subtyping of tuple element types.
pub open spec fn pairwise_sub(xs: Seq<Seq<SpecBasic>>, ys: Seq<Seq<SpecBasic>>) -> bool
    decreases xs, ys,
{
    forall|k: int| 0 <= k < xs.len() ==> sub_ty(#[trigger] xs[k], ys[k])
}

/// Every element type of a tuple below one common element type.
pub open spec fn all_elems_sub(xs: Seq<Seq<SpecBasic>>, t: Seq<SpecBasic>) -> bool
    decreases xs, t,
{
    forall|k: int| 0 <= k < xs.len() ==> sub_ty(#[trigger] xs[k], t)
}

/// Struct subtyping: every field the supertype names must be offered by the
/// subtype at a compatible type, and an open record is never below a closed
/// one (it may carry fields the closed record forbids).
pub open spec fn sub_struct(a: SpecStruct, b: SpecStruct) -> bool
    decreases a, b,
{
    &&& (b.extra || !a.extra)
    &&& forall|i: int| 0 <= i < b.fields.len() ==> offers_field(a.fields, #[trigger] b.fields[i])
}

/// Whether some field in `fields` has the name of `f` and a type below the
/// type of `f`.
pub open spec fn offers_field(fields: Seq<SpecField>, f: SpecField) -> bool
    decreases fields, f,
{
    exists|k: int|
        0 <= k < fields.len() && (#[trigger] fields[k]).name == f.name && sub_ty(
            fields[k].ty,
            f.ty,
        )
}

/// Whether a union mentions `Any` anywhere, at any depth.
pub open spec fn any_free(t: Seq<SpecBasic>) -> bool
    decreases t,
{
    forall|i: int| 0 <= i < t.len() ==> any_free_basic(#[trigger] t[i])
}

/// Whether one alternative mentions `Any` anywhere, at any depth.
pub open spec fn any_free_basic(b: SpecBasic) -> bool
    decreases b,
{
    match b {
        SpecBasic::Any => false,
        SpecBasic::List(t) => any_free(t),
        SpecBasic::Tuple(ts) => forall|i: int| 0 <= i < ts.len() ==> any_free(#[trigger] ts[i]),
        SpecBasic::Dict(k, v) => any_free(k) && any_free(v),
        SpecBasic::Iter(t) => any_free(t),
        SpecBasic::Callable(f) => any_free(f.result) && (forall|i: int|
            0 <= i < f.params.len() ==> any_free(#[trigger] f.params[i].ty)),
        SpecBasic::Struct(s) => forall|i: int|
            0 <= i < s.fields.len() ==> any_free(#[trigger] s.fields[i].ty),
        _ => true,
    }
}

/// Subtyping is reflexive: every type is a subtype of itself.
pub proof fn lemma_subtype_reflexive(t: Seq<SpecBasic>)
    ensures
        sub_ty(t, t),
    decreases t,
{
    assert forall|i: int| 0 <= i < t.len() implies has_super(#[trigger] t[i], t) by {
        lemma_sub_basic_reflexive(t[i]);
        assert(sub_basic(t[i], t[i]));
    }
}

/// Compatibility of basic types is reflexive.
pub proof fn lemma_sub_basic_reflexive(x: SpecBasic)
    ensures
        sub_basic(x, x),
    decreases x,
{
    match x {
        SpecBasic::List(s) => lemma_subtype_reflexive(s),
        SpecBasic::Tuple(xs) => {
            assert forall|k: int| 0 <= k < xs.len() implies sub_ty(#[trigger] xs[k], xs[k]) by {
                lemma_subtype_reflexive(xs[k]);
            }
            assert(pairwise_sub(xs, xs));
        },
        SpecBasic::Dict(k, v) => {
            lemma_subtype_reflexive(k);
            lemma_subtype_reflexive(v);
        },
        SpecBasic::Iter(s) => lemma_subtype_reflexive(s),
        SpecBasic::Callable(f) => lemma_subtype_reflexive(f.result),
        SpecBasic::Struct(s) => {
            assert forall|i: int| 0 <= i < s.fields.len() implies offers_field(
                s.fields,
                #[trigger] s.fields[i],
            ) by {
                lemma_subtype_reflexive(s.fields[i].ty);
                assert((s.fields[i]).name == (s.fields[i]).name && sub_ty(
                    s.fields[i].ty,
                    s.fields[i].ty,
                ));
            }
        },
        _ => {},
    }
}

/// Subtyping is transitive along any chain whose middle type does not
/// mention `Any`.  (With an `Any` in the middle it cannot be: every type is
/// below `Any` and `Any` is below every non-empty type.)
pub proof fn lemma_subtype_transitive(a: Seq<SpecBasic>, b: Seq<SpecBasic>, c: Seq<SpecBasic>)
    requires
        sub_ty(a, b),
        sub_ty(b, c),
        any_free(b),
    ensures
        sub_ty(a, c),
    decreases b,
{
    assert forall|i: int| 0 <= i < a.len() implies has_super(#[trigger] a[i], c) by {
        assert(has_super(a[i], b));
        let j = choose|j: int| 0 <= j < b.len() && sub_basic(a[i], #[trigger] b[j]);
        assert(has_super(b[j], c));
        let k = choose|k: int| 0 <= k < c.len() && sub_basic(b[j], #[trigger] c[k]);
        lemma_sub_basic_transitive(a[i], b[j], c[k]);
        assert(sub_basic(a[i], c[k]));
    }
}

/// Compatibility of basic types is transitive when the middle one does not
/// mention `Any`.
pub proof fn lemma_sub_basic_transitive(x: SpecBasic, y: SpecBasic, z: SpecBasic)
    requires
        sub_basic(x, y),
        sub_basic(y, z),
        any_free_basic(y),
    ensures
        sub_basic(x, z),
    decreases y,
{
    if x == SpecBasic::Any || z == SpecBasic::Any {
    } else {
        match y {
            SpecBasic::List(bt) => {
                match (x, z) {
                    (SpecBasic::List(at), SpecBasic::List(ct)) => {
                        lemma_subtype_transitive(at, bt, ct);
                    },
                    (SpecBasic::List(at), SpecBasic::Iter(ct)) => {
                        lemma_subtype_transitive(at, bt, ct);
                    },
                    _ => {},
                }
            },
            SpecBasic::Tuple(bts) => {
                match (x, z) {
                    (SpecBasic::Tuple(ats), SpecBasic::Tuple(cts)) => {
                        assert forall|k: int| 0 <= k < ats.len() implies sub_ty(
                            #[trigger] ats[k],
                            cts[k],
                        ) by {
                            assert(sub_ty(ats[k], bts[k]));
                            assert(sub_ty(bts[k], cts[k]));
                            assert(any_free(bts[k]));
                            lemma_subtype_transitive(ats[k], bts[k], cts[k]);
                        }
                        assert(pairwise_sub(ats, cts));
                    },
                    (SpecBasic::Tuple(ats), SpecBasic::Iter(ct)) => {
                        assert forall|k: int| 0 <= k < ats.len() implies sub_ty(
                            #[trigger] ats[k],
                            ct,
                        ) by {
                            assert(sub_ty(ats[k], bts[k]));
                            assert(sub_ty(bts[k], ct));
                            assert(any_free(bts[k]));
                            lemma_subtype_transitive(ats[k], bts[k], ct);
                        }
                        assert(all_elems_sub(ats, ct));
                    },
                    _ => {},
                }
            },
            SpecBasic::Dict(bk, bv) => {
                match (x, z) {
                    (SpecBasic::Dict(ak, av), SpecBasic::Dict(ck, cv)) => {
                        lemma_subtype_transitive(ak, bk, ck);
                        lemma_subtype_transitive(av, bv, cv);
                    },
                    (SpecBasic::Dict(ak, av), SpecBasic::Iter(ct)) => {
                        lemma_subtype_transitive(ak, bk, ct);
                    },
                    _ => {},
                }
            },
            SpecBasic::Iter(bt) => {
                match (x, z) {
                    (SpecBasic::List(at), SpecBasic::Iter(ct)) => {
                        lemma_subtype_transitive(at, bt, ct);
                    },
                    (SpecBasic::Tuple(ats), SpecBasic::Iter(ct)) => {
                        assert forall|k: int| 0 <= k < ats.len() implies sub_ty(
                            #[trigger] ats[k],
                            ct,
                        ) by {
                            assert(sub_ty(ats[k], bt));
                            lemma_subtype_transitive(ats[k], bt, ct);
                        }
                        assert(all_elems_sub(ats, ct));
                    },
                    (SpecBasic::Dict(ak, av), SpecBasic::Iter(ct)) => {
                        lemma_subtype_transitive(ak, bt, ct);
                    },
                    (SpecBasic::Iter(at), SpecBasic::Iter(ct)) => {
                        lemma_subtype_transitive(at, bt, ct);
                    },
                    _ => {},
                }
            },
            SpecBasic::Callable(bf) => {
                match (x, z) {
                    (SpecBasic::Callable(af), SpecBasic::Callable(cf)) => {
                        lemma_subtype_transitive(af.result, bf.result, cf.result);
                    },
                    _ => {},
                }
            },
            SpecBasic::Struct(sb) => {
                match (x, z) {
                    (SpecBasic::Struct(sa), SpecBasic::Struct(sc)) => {
                        assert forall|i: int| 0 <= i < sc.fields.len() implies offers_field(
                            sa.fields,
                            #[trigger] sc.fields[i],
                        ) by {
                            assert(offers_field(sb.fields, sc.fields[i]));
                            let k = choose|k: int|
                                0 <= k < sb.fields.len() && (#[trigger] sb.fields[k]).name == sc.fields[i].name
                                    && sub_ty(sb.fields[k].ty, sc.fields[i].ty);
                            assert(offers_field(sa.fields, sb.fields[k]));
                            let m = choose|m: int|
                                0 <= m < sa.fields.len() && (#[trigger] sa.fields[m]).name == sb.fields[k].name
                                    && sub_ty(sa.fields[m].ty, sb.fields[k].ty);
                            assert(any_free(sb.fields[k].ty));
                            lemma_subtype_transitive(
                                sa.fields[m].ty,
                                sb.fields[k].ty,
                                sc.fields[i].ty,
                            );
                            assert((sa.fields[m]).name == (sc.fields[i]).name && sub_ty(
                                sa.fields[m].ty,
                                sc.fields[i].ty,
                            ));
                        }
                    },
                    _ => {},
                }
            },
            _ => {},
        }
    }
}

impl Ty {
    /// Whether `self` is a subtype of `other`: every alternative of `self`
    /// has a compatible counterpart among the alternatives of `other`.
    pub fn is_subtype(&self, other: &Ty) -> (r: bool)
        ensures
            r == sub_ty(self@, other@),
        decreases *self, *other,
    {
        let n = self.alts.len();
        proof {
            crate::views::alts_view_len(self.alts@);
            crate::views::alts_view_len(other.alts@);
        }
        let mut i: usize = 0;
        while i < n
            invariant
                0 <= i <= n,
                n == self.alts.len(),
                n == self@.len(),
                other@.len() == other.alts.len(),
                forall|k: int| 0 <= k < i ==> has_super(#[trigger] self@[k], other@),
            decreases n - i,
        {
            proof {
                crate::views::alts_view_index(self.alts@, i as int);
            }
            let m = other.alts.len();
            let mut j: usize = 0;
            let mut found = false;
            while j < m && !found
                invariant
                    0 <= j <= m,
                    m == other.alts.len(),
                    m == other@.len(),
                    i < self.alts.len(),
                    i < self@.len(),
                    self@[i as int] == basic_view(self.alts@[i as int]),
                    !found ==> forall|l: int|
                        0 <= l < j ==> !sub_basic(self@[i as int], #[trigger] other@[l]),
                    found ==> has_super(self@[i as int], other@),
                decreases m - j, (if found { 0int } else { 1int }),
            {
                let ok = basic_is_subtype(&self.alts[i], &other.alts[j]);
                proof {
                    crate::views::alts_view_index(self.alts@, i as int);
                    crate::views::alts_view_index(other.alts@, j as int);
                }
                if ok {
                    found = true;
                    proof {
                        assert(sub_basic(self@[i as int], other@[j as int]));
                    }
                } else {
                    j += 1;
                }
            }
            if !found {
                proof {
                    if has_super(self@[i as int], other@) {
                        let l = choose|l: int|
                            0 <= l < other@.len() && sub_basic(self@[i as int], #[trigger] other@[l]);
                        assert(false);
                    }
                    assert(!sub_ty(self@, other@));
                }
                return false;
            }
            i += 1;
        }
        true
    }
}

/// Compatibility check of two alternatives (the executable form of
/// [`sub_basic`]).
pub fn basic_is_subtype(x: &TyBasic, y: &TyBasic) -> (r: bool)
    ensures
        r == sub_basic(x@, y@),
    decreases *x, *y,
{
    match (x, y) {
        (TyBasic::Any, _) => true,
        (_, TyBasic::Any) => true,
        (TyBasic::NoneType, TyBasic::NoneType) => true,
        (TyBasic::Bool, TyBasic::Bool) => true,
        (TyBasic::Int, TyBasic::Int) => true,
        (TyBasic::Float, TyBasic::Float) => true,
        (TyBasic::Str, TyBasic::Str) => true,
        (TyBasic::List(s), TyBasic::List(t)) => s.is_subtype(t),
        (TyBasic::List(s), TyBasic::Iter(t)) => s.is_subtype(t),
        (TyBasic::Tuple(xs), TyBasic::Tuple(ys)) => tuple_sub_tuple(xs, ys),
        (TyBasic::Tuple(xs), TyBasic::Iter(t)) => tuple_sub_iter(xs, t),
        (TyBasic::Dict(k1, v1), TyBasic::Dict(k2, v2)) => k1.is_subtype(k2) && v1.is_subtype(v2),
        (TyBasic::Dict(k1, v1), TyBasic::Iter(t)) => k1.is_subtype(t),
        (TyBasic::Iter(s), TyBasic::Iter(t)) => s.is_subtype(t),
        (TyBasic::Callable(f), TyBasic::Callable(g)) => f.result.is_subtype(&g.result),
        (TyBasic::Struct(a), TyBasic::Struct(b)) => struct_sub(a, b),
        (TyBasic::Name(n), TyBasic::Name(m)) => str_eq(n.0.as_str(), m.0.as_str()),
        _ => false,
    }
}

fn tuple_sub_tuple(xs: &Vec<Ty>, ys: &Vec<Ty>) -> (r: bool)
    ensures
        r == sub_basic(SpecBasic::Tuple(tys_view(xs@)), SpecBasic::Tuple(tys_view(ys@))),
    decreases *xs, *ys,
{
    proof {
        crate::views::tys_view_len(xs@);
        crate::views::tys_view_len(ys@);
    }
    if xs.len() != ys.len() {
        return false;
    }
    let n = xs.len();
    let mut i: usize = 0;
    while i < n
        invariant
            0 <= i <= n,
            n == xs.len() == ys.len(),
            n == tys_view(xs@).len() == tys_view(ys@).len(),
            forall|k: int| 0 <= k < i ==> sub_ty(#[trigger] tys_view(xs@)[k], tys_view(ys@)[k]),
        decreases n - i,
    {
        let ok = xs[i].is_subtype(&ys[i]);
        proof {
            crate::views::tys_view_index(xs@, i as int);
            crate::views::tys_view_index(ys@, i as int);
        }
        if !ok {
            proof {
                if pairwise_sub(tys_view(xs@), tys_view(ys@)) {
                    assert(sub_ty(tys_view(xs@)[i as int], tys_view(ys@)[i as int]));
                    assert(false);
                }
            }
            return false;
        }
        i += 1;
    }
    true
}

fn tuple_sub_iter(xs: &Vec<Ty>, t: &Ty) -> (r: bool)
    ensures
        r == sub_basic(SpecBasic::Tuple(tys_view(xs@)), SpecBasic::Iter(ty_view(*t))),
    decreases *xs, *t,
{
    proof {
        crate::views::tys_view_len(xs@);
    }
    let n = xs.len();
    let mut i: usize = 0;
    while i < n
        invariant
            0 <= i <= n,
            n == xs.len(),
            n == tys_view(xs@).len(),
            forall|k: int| 0 <= k < i ==> sub_ty(#[trigger] tys_view(xs@)[k], ty_view(*t)),
        decreases n - i,
    {
        let ok = xs[i].is_subtype(t);
        proof {
            crate::views::tys_view_index(xs@, i as int);
        }
        if !ok {
            proof {
                let xv = tys_view(xs@);
                let tv = ty_view(*t);
                if all_elems_sub(xv, tv) {
                    assert(sub_ty(xv[i as int], tv));
                    assert(false);
                }
            }
            return false;
        }
        i += 1;
    }
    true
}

fn struct_sub(a: &TyStruct, b: &TyStruct) -> (r: bool)
    ensures
        r == sub_struct(struct_view(*a), struct_view(*b)),
    decreases *a, *b,
{
    proof {
        crate::views::fields_view_len(a.fields@);
        crate::views::fields_view_len(b.fields@);
    }
    if a.extra && !b.extra {
        return false;
    }
    let n = b.fields.len();
    let mut i: usize = 0;
    while i < n
        invariant
            0 <= i <= n,
            n == b.fields.len(),
            n == fields_view(b.fields@).len(),
            fields_view(a.fields@).len() == a.fields.len(),
            forall|k: int|
                0 <= k < i ==> offers_field(
                    fields_view(a.fields@),
                    #[trigger] fields_view(b.fields@)[k],
                ),
        decreases n - i,
    {
        let m = a.fields.len();
        let mut j: usize = 0;
        let mut found = false;
        while j < m && !found
            invariant
                0 <= j <= m,
                m == a.fields.len(),
                m == fields_view(a.fields@).len(),
                i < b.fields.len(),
                i < fields_view(b.fields@).len(),
                fields_view(b.fields@)[i as int] == (SpecField {
                    name: b.fields@[i as int].name@,
                    ty: ty_view(b.fields@[i as int].ty),
                }),
                !found ==> forall|l: int|
                    0 <= l < j ==> !((#[trigger] fields_view(a.fields@)[l]).name == fields_view(
                        b.fields@,
                    )[i as int].name && sub_ty(
                        fields_view(a.fields@)[l].ty,
                        fields_view(b.fields@)[i as int].ty,
                    )),
                found ==> offers_field(fields_view(a.fields@), fields_view(b.fields@)[i as int]),
            decreases m - j, (if found { 0int } else { 1int }),
        {
            let fa = &a.fields[j];
            let fb = &b.fields[i];
            let name_same = str_eq(fa.name.as_str(), fb.name.as_str());
            let ok = name_same && fa.ty.is_subtype(&fb.ty);
            proof {
                crate::views::fields_view_index(a.fields@, j as int);
                crate::views::fields_view_index(b.fields@, i as int);
            }
            if ok {
                found = true;
            } else {
                j += 1;
            }
        }
        proof {
            crate::views::fields_view_index(b.fields@, i as int);
        }
        if !found {
            proof {
                let va = struct_view(*a);
                let vb = struct_view(*b);
                let fb = fields_view(b.fields@)[i as int];
                if offers_field(fields_view(a.fields@), fb) {
                    let l = choose|l: int|
                        0 <= l < fields_view(a.fields@).len() && (#[trigger] fields_view(
                            a.fields@,
                        )[l]).name == fb.name && sub_ty(fields_view(a.fields@)[l].ty, fb.ty);
                    assert(false);
                }
                if sub_struct(va, vb) {
                    assert(offers_field(va.fields, vb.fields[i as int]));
                    assert(false);
                }
            }
            return false;
        }
        i += 1;
    }
    true
}

/// The structural intersection of two alternatives, if any: `Any` yields the
/// other side, matching containers intersect their components, and other
/// alternatives survive only when equal; disjoint shapes vanish.
pub open spec fn inter_basic(x: SpecBasic, y: SpecBasic) -> Option<SpecBasic>
    decreases x, y, 0int,
{
    match (x, y) {
        (SpecBasic::Any, _) => Option::Some(y),
        (_, SpecBasic::Any) => Option::Some(x),
        (SpecBasic::NoneType, SpecBasic::NoneType) => Option::Some(x),
        (SpecBasic::Bool, SpecBasic::Bool) => Option::Some(x),
        (SpecBasic::Int, SpecBasic::Int) => Option::Some(x),
        (SpecBasic::Float, SpecBasic::Float) => Option::Some(x),
        (SpecBasic::Str, SpecBasic::Str) => Option::Some(x),
        (SpecBasic::List(s), SpecBasic::List(t)) => Option::Some(
            SpecBasic::List(spec_intersect(s, t)),
        ),
        (SpecBasic::Tuple(xs), SpecBasic::Tuple(ys)) => if xs.len() == ys.len() {
            Option::Some(SpecBasic::Tuple(inter_tys(xs, ys)))
        } else {
            Option::None
        },
        (SpecBasic::Dict(k1, v1), SpecBasic::Dict(k2, v2)) => Option::Some(
            SpecBasic::Dict(spec_intersect(k1, k2), spec_intersect(v1, v2)),
        ),
        (SpecBasic::Iter(s), SpecBasic::Iter(t)) => Option::Some(
            SpecBasic::Iter(spec_intersect(s, t)),
        ),
        (SpecBasic::Callable(f), SpecBasic::Callable(g)) => if f == g {
            Option::Some(x)
        } else {
            Option::None
        },
        (SpecBasic::Struct(a), SpecBasic::Struct(b)) => if a == b {
            Option::Some(x)
        } else {
            Option::None
        },
        (SpecBasic::Name(n), SpecBasic::Name(m)) => if n == m {
            Option::Some(x)
        } else {
            Option::None
        },
        _ => Option::None,
    }
}

/// Position-by-position intersection of tuple element types.
pub open spec fn inter_tys(xs: Seq<Seq<SpecBasic>>, ys: Seq<Seq<SpecBasic>>) -> Seq<
    Seq<SpecBasic>,
>
    decreases xs, ys, 0int,
{
    if xs.len() == 0 {
        Seq::empty()
    } else {
        inter_tys(xs.drop_last(), ys.drop_last()).push(spec_intersect(xs.last(), ys.last()))
    }
}

/// The intersections of one alternative with every alternative of `b`, in
/// order, dropping the disjoint ones.
pub open spec fn inter_one(x: SpecBasic, b: Seq<SpecBasic>) -> Seq<SpecBasic>
    decreases x, b, 1int,
{
    if b.len() == 0 {
        Seq::empty()
    } else {
        inter_one(x, b.drop_last()) + (match inter_basic(x, b.last()) {
            Option::Some(z) => seq![z],
            Option::None => Seq::empty(),
        })
    }
}

/// All pairwise intersections of the alternatives of `a` and `b`, in order.
pub open spec fn inter_all(a: Seq<SpecBasic>, b: Seq<SpecBasic>) -> Seq<SpecBasic>
    decreases a, b, 1int,
{
    if a.len() == 0 {
        Seq::empty()
    } else {
        inter_all(a.drop_last(), b) + inter_one(a.last(), b)
    }
}

/// The model of [`Ty::intersect`]: every pairwise structural intersection of
/// the two unions' alternatives, deduplicated.  The result may be empty:
/// disjoint types intersect to `Never`.
pub open spec fn spec_intersect(a: Seq<SpecBasic>, b: Seq<SpecBasic>) -> Seq<SpecBasic>
    decreases a, b, 2int,
{
    dedup_into(Seq::empty(), inter_all(a, b))
}

/// `Never` absorbs intersection: `intersect(t, Never)` is `Never`.
pub proof fn lemma_intersect_never(t: Seq<SpecBasic>)
    ensures
        spec_intersect(t, Seq::<SpecBasic>::empty()) == Seq::<SpecBasic>::empty(),
        spec_intersect(Seq::<SpecBasic>::empty(), t) == Seq::<SpecBasic>::empty(),
{
    lemma_inter_all_empty(t);
}

proof fn lemma_inter_all_empty(t: Seq<SpecBasic>)
    ensures
        inter_all(t, Seq::<SpecBasic>::empty()) == Seq::<SpecBasic>::empty(),
    decreases t,
{
    if t.len() > 0 {
        lemma_inter_all_empty(t.drop_last());
        assert(inter_one(t.last(), Seq::<SpecBasic>::empty()) == Seq::<SpecBasic>::empty());
        assert(inter_all(t, Seq::<SpecBasic>::empty()) =~= Seq::<SpecBasic>::empty());
    }
}

/// `Any` is the identity of intersection: `intersect(Any, t) == t` for any
/// valid `t`.
pub proof fn lemma_intersect_any_identity(t: Seq<SpecBasic>)
    requires
        wf_ty(t),
    ensures
        spec_intersect(seq![SpecBasic::Any], t) == t,
{
    let a = seq![SpecBasic::Any];
    assert(a.drop_last() =~= Seq::<SpecBasic>::empty());
    assert(a.last() == SpecBasic::Any);
    assert(inter_all(Seq::<SpecBasic>::empty(), t) == Seq::<SpecBasic>::empty());
    assert(inter_all(a, t) =~= inter_one(SpecBasic::Any, t));
    lemma_inter_one_any(t);
    assert(distinct(t));
    lemma_dedup_fresh(Seq::<SpecBasic>::empty(), t);
    assert(dedup_into(Seq::<SpecBasic>::empty(), t) =~= t);
}

proof fn lemma_inter_one_any(t: Seq<SpecBasic>)
    ensures
        inter_one(SpecBasic::Any, t) == t,
    decreases t,
{
    if t.len() == 0 {
        assert(inter_one(SpecBasic::Any, t) =~= t);
    } else {
        lemma_inter_one_any(t.drop_last());
        assert(inter_basic(SpecBasic::Any, t.last()) == Option::Some(t.last()));
        assert(inter_one(SpecBasic::Any, t) =~= t.drop_last().push(t.last()));
        assert(t.drop_last().push(t.last()) =~= t);
    }
}

/// The model of an optional alternative.
pub open spec fn opt_basic_view(o: Option<TyBasic>) -> Option<SpecBasic> {
    match o {
        Option::Some(b) => Option::Some(basic_view(b)),
        Option::None => Option::None,
    }
}

/// Structural intersection of two alternatives (the executable form of
/// [`inter_basic`]).
pub fn basic_intersect(x: &TyBasic, y: &TyBasic) -> (r: Option<TyBasic>)
    ensures
        opt_basic_view(r) == inter_basic(x@, y@),
    decreases *x, *y, 0int,
{
    match (x, y) {
        (TyBasic::Any, _) => Option::Some(copy_basic(y)),
        (_, TyBasic::Any) => Option::Some(copy_basic(x)),
        (TyBasic::NoneType, TyBasic::NoneType) => Option::Some(TyBasic::NoneType),
        (TyBasic::Bool, TyBasic::Bool) => Option::Some(TyBasic::Bool),
        (TyBasic::Int, TyBasic::Int) => Option::Some(TyBasic::Int),
        (TyBasic::Float, TyBasic::Float) => Option::Some(TyBasic::Float),
        (TyBasic::Str, TyBasic::Str) => Option::Some(TyBasic::Str),
        (TyBasic::List(s), TyBasic::List(t)) => Option::Some(
            TyBasic::List(Box::new(s.intersect(t))),
        ),
        (TyBasic::Tuple(xs), TyBasic::Tuple(ys)) => {
            proof {
                crate::views::tys_view_len(xs@);
                crate::views::tys_view_len(ys@);
            }
            if xs.len() != ys.len() {
                Option::None
            } else {
                Option::Some(TyBasic::Tuple(intersect_tys(xs, ys)))
            }
        },
        (TyBasic::Dict(k1, v1), TyBasic::Dict(k2, v2)) => Option::Some(
            TyBasic::Dict(Box::new(k1.intersect(k2)), Box::new(v1.intersect(v2))),
        ),
        (TyBasic::Iter(s), TyBasic::Iter(t)) => Option::Some(
            TyBasic::Iter(Box::new(s.intersect(t))),
        ),
        (TyBasic::Callable(f), TyBasic::Callable(g)) => {
            if fun_eq(f, g) {
                Option::Some(TyBasic::Callable(Box::new(copy_fun(f))))
            } else {
                Option::None
            }
        },
        (TyBasic::Struct(a), TyBasic::Struct(b)) => {
            if struct_eq(a, b) {
                Option::Some(TyBasic::Struct(copy_struct(a)))
            } else {
                Option::None
            }
        },
        (TyBasic::Name(n), TyBasic::Name(m)) => {
            if str_eq(n.0.as_str(), m.0.as_str()) {
                Option::Some(TyBasic::Name(TyName(n.0.clone())))
            } else {
                Option::None
            }
        },
        _ => Option::None,
    }
}

fn intersect_tys(xs: &Vec<Ty>, ys: &Vec<Ty>) -> (r: Vec<Ty>)
    requires
        xs@.len() == ys@.len(),
    ensures
        tys_view(r@) == inter_tys(tys_view(xs@), tys_view(ys@)),
    decreases *xs, *ys, 0int,
{
    proof {
        crate::views::tys_view_len(xs@);
        crate::views::tys_view_len(ys@);
    }
    let n = xs.len();
    let mut out: Vec<Ty> = Vec::new();
    let mut i: usize = 0;
    proof {
        assert(tys_view(xs@).take(0) =~= Seq::<Seq<SpecBasic>>::empty());
        assert(tys_view(ys@).take(0) =~= Seq::<Seq<SpecBasic>>::empty());
    }
    while i < n
        invariant
            0 <= i <= n,
            n == xs.len() == ys.len(),
            n == tys_view(xs@).len() == tys_view(ys@).len(),
            out@.len() == i,
            tys_view(out@) == inter_tys(
                tys_view(xs@).take(i as int),
                tys_view(ys@).take(i as int),
            ),
        decreases n - i,
    {
        let z = xs[i].intersect(&ys[i]);
        proof {
            crate::views::tys_view_index(xs@, i as int);
            crate::views::tys_view_index(ys@, i as int);
        }
        let ghost before = out@;
        out.push(z);
        proof {
            assert(out@.drop_last() =~= before);
            crate::views::tys_view_len(before);
            let xv = tys_view(xs@);
            let yv = tys_view(ys@);
            assert(xv.take(i + 1).drop_last() =~= xv.take(i as int));
            assert(yv.take(i + 1).drop_last() =~= yv.take(i as int));
            assert(xv.take(i + 1).last() == xv[i as int]);
            assert(yv.take(i + 1).last() == yv[i as int]);
            assert(tys_view(out@) == tys_view(before).push(ty_view(out@.last())));
        }
        i += 1;
    }
    proof {
        assert(tys_view(xs@).take(n as int) =~= tys_view(xs@));
        assert(tys_view(ys@).take(n as int) =~= tys_view(ys@));
    }
    out
}

impl Ty {
    /// The structural intersection of two types: every pairwise intersection
    /// of their alternatives, deduplicated.  `Any` is the identity; disjoint
    /// types intersect to `Never`, the empty union.
    pub fn intersect(&self, other: &Ty) -> (r: Ty)
        ensures
            r@ == spec_intersect(self@, other@),
        decreases *self, *other, 2int,
    {
        let n = self.alts.len();
        let m = other.alts.len();
        proof {
            crate::views::alts_view_len(self.alts@);
            crate::views::alts_view_len(other.alts@);
        }
        let mut raw: Vec<TyBasic> = Vec::new();
        let mut i: usize = 0;
        proof {
            assert(self@.take(0) =~= Seq::<SpecBasic>::empty());
            assert(inter_all(self@.take(0), other@) == Seq::<SpecBasic>::empty());
            assert(alts_view(raw@) =~= Seq::<SpecBasic>::empty());
        }
        while i < n
            invariant
                0 <= i <= n,
                n == self.alts.len(),
                n == self@.len(),
                m == other.alts.len(),
                m == other@.len(),
                alts_view(raw@) == inter_all(self@.take(i as int), other@),
            decreases n - i,
        {
            proof {
                crate::views::alts_view_index(self.alts@, i as int);
            }
            let mut j: usize = 0;
            proof {
                assert(other@.take(0) =~= Seq::<SpecBasic>::empty());
                assert(inter_one(self@[i as int], other@.take(0)) == Seq::<SpecBasic>::empty());
                assert(alts_view(raw@) =~= inter_all(self@.take(i as int), other@) + inter_one(
                    self@[i as int],
                    other@.take(0),
                ));
            }
            while j < m
                invariant
                    0 <= j <= m,
                    m == other.alts.len(),
                    m == other@.len(),
                    i < self.alts.len(),
                    i < self@.len(),
                    self@[i as int] == basic_view(self.alts@[i as int]),
                    alts_view(raw@) == inter_all(self@.take(i as int), other@) + inter_one(
                        self@[i as int],
                        other@.take(j as int),
                    ),
                decreases m - j,
            {
                let z = basic_intersect(&self.alts[i], &other.alts[j]);
                proof {
                    crate::views::alts_view_index(other.alts@, j as int);
                    assert(other@.take(j + 1).drop_last() =~= other@.take(j as int));
                    assert(other@.take(j + 1).last() == other@[j as int]);
                }
                match z {
                    Option::Some(zb) => {
                        let ghost before = raw@;
                        raw.push(zb);
                        proof {
                            assert(raw@.drop_last() =~= before);
                            crate::views::alts_view_len(before);
                            assert(alts_view(raw@) == alts_view(before).push(
                                basic_view(raw@.last()),
                            ));
                            assert(alts_view(raw@) =~= inter_all(self@.take(i as int), other@)
                                + inter_one(self@[i as int], other@.take(j + 1)));
                        }
                    },
                    Option::None => {
                        proof {
                            assert(alts_view(raw@) =~= inter_all(self@.take(i as int), other@)
                                + inter_one(self@[i as int], other@.take(j + 1)));
                        }
                    },
                }
                j += 1;
            }
            proof {
                assert(other@.take(m as int) =~= other@);
                assert(self@.take(i + 1).drop_last() =~= self@.take(i as int));
                assert(self@.take(i + 1).last() == self@[i as int]);
                assert(alts_view(raw@) =~= inter_all(self@.take(i + 1), other@));
            }
            i += 1;
        }
        proof {
            assert(self@.take(n as int) =~= self@);
        }
        let ghost rawv = alts_view(raw@);
        let k_end = raw.len();
        proof {
            crate::views::alts_view_len(raw@);
        }
        let mut alts: Vec<TyBasic> = Vec::new();
        let mut k: usize = 0;
        proof {
            assert(rawv.take(0) =~= Seq::<SpecBasic>::empty());
        }
        while k < k_end
            invariant
                0 <= k <= k_end,
                k_end == raw.len(),
                k_end == rawv.len(),
                rawv == alts_view(raw@),
                alts_view(alts@) == dedup_into(Seq::<SpecBasic>::empty(), rawv.take(k as int)),
            decreases k_end - k,
        {
            let present = contains_basic(&alts, &raw[k]);
            proof {
                crate::views::alts_view_index(raw@, k as int);
                assert(rawv.take(k + 1) =~= rawv.take(k as int).push(rawv[k as int]));
                lemma_dedup_snoc(Seq::<SpecBasic>::empty(), rawv.take(k as int), rawv[k as int]);
            }
            if !present {
                let c = copy_basic(&raw[k]);
                let ghost before = alts@;
                alts.push(c);
                proof {
                    assert(alts@.drop_last() =~= before);
                    crate::views::alts_view_len(before);
                    assert(alts_view(alts@) == alts_view(before).push(basic_view(alts@.last())));
                }
            }
            k += 1;
        }
        proof {
            assert(rawv.take(k_end as int) =~= rawv);
        }
        Ty { alts }
    }
}

} // verus!
