//! The models of the executable types of [`crate::ty`]: recursive view
//! functions from the `Vec`/`Box`/`String` representation onto the ghost
//! `Seq`-based model, with broadcast lemmas giving each sequence view its
//! element-by-element reading.

use vstd::prelude::*;

use crate::ty::Field;
use crate::ty::Param;
use crate::ty::SpecField;
use crate::ty::SpecParam;
use crate::ty::SpecBasic;
use crate::ty::SpecFun;
use crate::ty::SpecStruct;
use crate::ty::Ty;
use crate::ty::TyBasic;
use crate::ty::TyFunction;
use crate::ty::TyStruct;

verus! {

pub open spec fn ty_view(t: Ty) -> Seq<SpecBasic>
    decreases t,
{
    alts_view(t.alts@)
}

/// The model of a sequence of alternatives, element by element.
pub open spec fn alts_view(s: Seq<TyBasic>) -> Seq<SpecBasic>
    decreases s,
{
    if s.len() == 0 {
        Seq::empty()
    } else {
        alts_view(s.drop_last()).push(basic_view(s.last()))
    }
}

/// The model of a sequence of types, element by element.
pub open spec fn tys_view(s: Seq<Ty>) -> Seq<Seq<SpecBasic>>
    decreases s,
{
    if s.len() == 0 {
        Seq::empty()
    } else {
        tys_view(s.drop_last()).push(ty_view(s.last()))
    }
}

/// The model of a sequence of struct fields, element by element.
pub open spec fn fields_view(s: Seq<Field>) -> Seq<SpecField>
    decreases s,
{
    if s.len() == 0 {
        Seq::empty()
    } else {
        fields_view(s.drop_last()).push(
            SpecField { name: s.last().name@, ty: ty_view(s.last().ty) },
        )
    }
}

/// The model of a sequence of parameters, element by element.
pub open spec fn params_view(s: Seq<Param>) -> Seq<SpecParam>
    decreases s,
{
    if s.len() == 0 {
        Seq::empty()
    } else {
        params_view(s.drop_last()).push(
            SpecParam {
                mode: s.last().mode,
                name: s.last().name@,
                ty: ty_view(s.last().ty),
                optional: s.last().optional,
            },
        )
    }
}

pub open spec fn basic_view(b: TyBasic) -> SpecBasic
    decreases b,
{
    match b {
        TyBasic::NoneType => SpecBasic::NoneType,
        TyBasic::Bool => SpecBasic::Bool,
        TyBasic::Int => SpecBasic::Int,
        TyBasic::Float => SpecBasic::Float,
        TyBasic::Str => SpecBasic::Str,
        TyBasic::List(t) => SpecBasic::List(ty_view(*t)),
        TyBasic::Tuple(ts) => SpecBasic::Tuple(tys_view(ts@)),
        TyBasic::Dict(k, v) => SpecBasic::Dict(ty_view(*k), ty_view(*v)),
        TyBasic::Iter(t) => SpecBasic::Iter(ty_view(*t)),
        TyBasic::Callable(f) => SpecBasic::Callable(fun_view(*f)),
        TyBasic::Struct(s) => SpecBasic::Struct(struct_view(s)),
        TyBasic::Name(n) => SpecBasic::Name(n.0@),
        TyBasic::Any => SpecBasic::Any,
    }
}

pub open spec fn struct_view(s: TyStruct) -> SpecStruct
    decreases s,
{
    SpecStruct { fields: fields_view(s.fields@), extra: s.extra }
}

pub open spec fn fun_view(f: TyFunction) -> SpecFun
    decreases f,
{
    SpecFun { params: params_view(f.params@), result: ty_view(f.result) }
}

impl View for Ty {
    type V = Seq<SpecBasic>;

    open spec fn view(&self) -> Seq<SpecBasic> {
        ty_view(*self)
    }
}

impl View for TyBasic {
    type V = SpecBasic;

    open spec fn view(&self) -> SpecBasic {
        basic_view(*self)
    }
}

pub broadcast proof fn alts_view_len(s: Seq<TyBasic>)
    ensures
        (#[trigger] alts_view(s)).len() == s.len(),
    decreases s.len(),
{
    if s.len() > 0 {
        alts_view_len(s.drop_last());
    }
}

pub broadcast proof fn alts_view_index(s: Seq<TyBasic>, i: int)
    requires
        0 <= i < s.len(),
    ensures
        #[trigger] alts_view(s)[i] == basic_view(s[i]),
    decreases s.len(),
{
    alts_view_len(s);
    if i < s.len() - 1 {
        alts_view_index(s.drop_last(), i);
    }
}

pub broadcast proof fn tys_view_len(s: Seq<Ty>)
    ensures
        (#[trigger] tys_view(s)).len() == s.len(),
    decreases s.len(),
{
    if s.len() > 0 {
        tys_view_len(s.drop_last());
    }
}

pub broadcast proof fn tys_view_index(s: Seq<Ty>, i: int)
    requires
        0 <= i < s.len(),
    ensures
        #[trigger] tys_view(s)[i] == ty_view(s[i]),
    decreases s.len(),
{
    tys_view_len(s);
    if i < s.len() - 1 {
        tys_view_index(s.drop_last(), i);
    }
}

pub broadcast proof fn fields_view_len(s: Seq<Field>)
    ensures
        (#[trigger] fields_view(s)).len() == s.len(),
    decreases s.len(),
{
    if s.len() > 0 {
        fields_view_len(s.drop_last());
    }
}

pub broadcast proof fn fields_view_index(s: Seq<Field>, i: int)
    requires
        0 <= i < s.len(),
    ensures
        #[trigger] fields_view(s)[i] == (SpecField {
            name: s[i].name@,
            ty: ty_view(s[i].ty),
        }),
    decreases s.len(),
{
    fields_view_len(s);
    if i < s.len() - 1 {
        fields_view_index(s.drop_last(), i);
    }
}

pub broadcast proof fn params_view_len(s: Seq<Param>)
    ensures
        (#[trigger] params_view(s)).len() == s.len(),
    decreases s.len(),
{
    if s.len() > 0 {
        params_view_len(s.drop_last());
    }
}

pub broadcast proof fn params_view_index(s: Seq<Param>, i: int)
    requires
        0 <= i < s.len(),
    ensures
        #[trigger] params_view(s)[i] == (SpecParam {
            mode: s[i].mode,
            name: s[i].name@,
            ty: ty_view(s[i].ty),
            optional: s[i].optional,
        }),
    decreases s.len(),
{
    params_view_len(s);
    if i < s.len() - 1 {
        params_view_index(s.drop_last(), i);
    }
}

} // verus!
