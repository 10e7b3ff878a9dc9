//! Function signatures and call-site matching: given a signature and the
//! arguments of one call, decide what the call returns and which of the
//! call-matching diagnostics it raises.
//!
//! The algorithm: splat-positional arguments whose static type is a
//! known-length tuple are expanded in place, and an unknown-length one makes
//! the positional arity unknown; a named argument fills the parameter of its
//! name; the positional arguments fill the remaining positionally fillable
//! parameters left to right, the overflow going to `*args` when the
//! signature has it; a splat-named argument satisfies any remaining nameable
//! parameter permissively; every required parameter still unfilled is
//! reported missing; and every filled parameter's argument type must be
//! below the declared parameter type.  Matching never stops at the first
//! finding: all diagnostics of one call are collected, and their set does
//! not depend on the order of the named arguments.

use vstd::prelude::*;

use crate::error::SpecErrKind;
use crate::error::TypingErrorKind;
use crate::ty::ParamMode;
use crate::ty::SpecBasic;
use crate::ty::SpecField;
use crate::ty::SpecParam;
use crate::ty::Ty;
use crate::ty::TyBasic;
use crate::ty::TyFunction;
use crate::views::basic_view;
use crate::ty::Field;
use crate::ty::copy_ty;
use crate::ty::sub_ty;
use crate::text::str_eq;
use crate::views::fields_view;
use crate::views::params_view;
use crate::views::ty_view;
use crate::views::tys_view;

verus! {

/// One argument at a call site, tagged with how it is passed.
pub enum Arg {
    /// A plain positional argument.
    Pos(Ty),
    /// An argument passed by name.
    Named(String, Ty),
    /// A splat-positional argument (`*expr`).
    Args(Ty),
    /// A splat-named argument (`**expr`).
    Kwargs(Ty),
}

/// Ghost model of one call-site argument.
#[verifier::ext_equal]
pub enum SpecArg {
    Pos(Seq<SpecBasic>),
    Named(Seq<char>, Seq<SpecBasic>),
    Args(Seq<SpecBasic>),
    Kwargs(Seq<SpecBasic>),
}

pub open spec fn arg_view(a: Arg) -> SpecArg {
    match a {
        Arg::Pos(t) => SpecArg::Pos(ty_view(t)),
        Arg::Named(n, t) => SpecArg::Named(n@, ty_view(t)),
        Arg::Args(t) => SpecArg::Args(ty_view(t)),
        Arg::Kwargs(t) => SpecArg::Kwargs(ty_view(t)),
    }
}

impl View for Arg {
    type V = SpecArg;

    open spec fn view(&self) -> SpecArg {
        arg_view(*self)
    }
}

/// The model of a sequence of arguments, element by element.
pub open spec fn args_view(s: Seq<Arg>) -> Seq<SpecArg>
    decreases s,
{
    if s.len() == 0 {
        Seq::empty()
    } else {
        args_view(s.drop_last()).push(arg_view(s.last()))
    }
}

pub proof fn args_view_len(s: Seq<Arg>)
    ensures
        args_view(s).len() == s.len(),
    decreases s.len(),
{
    if s.len() > 0 {
        args_view_len(s.drop_last());
    }
}

pub proof fn args_view_index(s: Seq<Arg>, i: int)
    requires
        0 <= i < s.len(),
    ensures
        args_view(s)[i] == arg_view(s[i]),
    decreases s.len(),
{
    args_view_len(s);
    if i < s.len() - 1 {
        args_view_index(s.drop_last(), i);
    }
}

/// The canonical form of a call site: the known positional argument types in
/// order, whether an unknown number of further positionals may follow, the
/// named arguments in order, and whether a splat-named argument is present.
#[verifier::ext_equal]
pub struct SpecCallForm {
    pub pos: Seq<Seq<SpecBasic>>,
    pub unknown_pos: bool,
    pub named: Seq<SpecField>,
    pub splat_named: bool,
}

/// The element types of a splat-positional argument whose static type is a
/// single known-length tuple; `None` for anything else.
pub open spec fn known_tuple(t: Seq<SpecBasic>) -> Option<Seq<Seq<SpecBasic>>> {
    if t.len() == 1 {
        match t[0] {
            SpecBasic::Tuple(ts) => Option::Some(ts),
            _ => Option::None,
        }
    } else {
        Option::None
    }
}

/// Canonicalize an argument list (step 1 of the algorithm).
pub open spec fn call_form(args: Seq<SpecArg>) -> SpecCallForm
    decreases args.len(),
{
    if args.len() == 0 {
        SpecCallForm {
            pos: Seq::empty(),
            unknown_pos: false,
            named: Seq::empty(),
            splat_named: false,
        }
    } else {
        let c = call_form(args.drop_last());
        match args.last() {
            SpecArg::Pos(t) => SpecCallForm {
                pos: c.pos.push(t),
                unknown_pos: c.unknown_pos,
                named: c.named,
                splat_named: c.splat_named,
            },
            SpecArg::Named(n, t) => SpecCallForm {
                pos: c.pos,
                unknown_pos: c.unknown_pos,
                named: c.named.push(SpecField { name: n, ty: t }),
                splat_named: c.splat_named,
            },
            SpecArg::Args(t) => match known_tuple(t) {
                Option::Some(ts) => SpecCallForm {
                    pos: c.pos + ts,
                    unknown_pos: c.unknown_pos,
                    named: c.named,
                    splat_named: c.splat_named,
                },
                Option::None => SpecCallForm {
                    pos: c.pos,
                    unknown_pos: true,
                    named: c.named,
                    splat_named: c.splat_named,
                },
            },
            SpecArg::Kwargs(_) => SpecCallForm {
                pos: c.pos,
                unknown_pos: c.unknown_pos,
                named: c.named,
                splat_named: true,
            },
        }
    }
}

/// Whether a parameter in this mode takes a positional argument.
pub open spec fn is_pos_mode(m: ParamMode) -> bool {
    m == ParamMode::PosOnly || m == ParamMode::PosOrName
}

/// Whether parameter `i` takes one of the call's positional arguments: it
/// must be positionally fillable and not already spoken for by a named
/// argument (a named argument wins over the left-to-right positional fill,
/// so positionals pass over it, towards `*args`).
pub open spec fn takes_positional(params: Seq<SpecParam>, c: SpecCallForm, i: int) -> bool {
    &&& is_pos_mode(params[i].mode)
    &&& (params[i].mode == ParamMode::PosOnly || find_named(c.named, params[i].name) is None)
}

/// How many positional slots the first `i` parameters consume.
pub open spec fn n_pos_before(params: Seq<SpecParam>, c: SpecCallForm, i: int) -> int
    decreases i,
{
    if i <= 0 {
        0
    } else {
        n_pos_before(params, c, i - 1) + (if takes_positional(params, c, i - 1) {
            1int
        } else {
            0int
        })
    }
}

/// The type of the first named argument called `name`, if any.
pub open spec fn find_named(named: Seq<SpecField>, name: Seq<char>) -> Option<Seq<SpecBasic>>
    decreases named.len(),
{
    if named.len() == 0 {
        Option::None
    } else if named[0].name == name {
        Option::Some(named[0].ty)
    } else {
        find_named(named.drop_first(), name)
    }
}

/// The first parameter of mode `m`, if any.
pub open spec fn find_mode_param(params: Seq<SpecParam>, m: ParamMode) -> Option<SpecParam>
    decreases params.len(),
{
    if params.len() == 0 {
        Option::None
    } else if params[0].mode == m {
        Option::Some(params[0])
    } else {
        find_mode_param(params.drop_first(), m)
    }
}

/// How one parameter ends up filled.
#[verifier::ext_equal]
pub enum SpecFill {
    /// Filled by an argument of this type.
    ByArg(Seq<SpecBasic>),
    /// Satisfied without a checkable argument: by an unknown-length splat,
    /// or permissively by a splat-named argument.
    Elsewhere,
    /// Left to its default.
    Dflt,
    /// Required and unfilled.
    Missing,
}

/// Steps 2 to 5 of the algorithm for one parameter: what fills it.  A named
/// argument fills the parameter of its name; positionals fill the remaining
/// positionally fillable parameters left to right.
pub open spec fn param_fill(params: Seq<SpecParam>, i: int, c: SpecCallForm) -> SpecFill {
    let p = params[i];
    match p.mode {
        ParamMode::PosOnly => {
            let k = n_pos_before(params, c, i);
            if k < c.pos.len() {
                SpecFill::ByArg(c.pos[k])
            } else if c.unknown_pos {
                SpecFill::Elsewhere
            } else if p.optional {
                SpecFill::Dflt
            } else {
                SpecFill::Missing
            }
        },
        ParamMode::PosOrName => {
            match find_named(c.named, p.name) {
                Option::Some(t) => SpecFill::ByArg(t),
                Option::None => {
                    let k = n_pos_before(params, c, i);
                    if k < c.pos.len() {
                        SpecFill::ByArg(c.pos[k])
                    } else if c.unknown_pos || c.splat_named {
                        SpecFill::Elsewhere
                    } else if p.optional {
                        SpecFill::Dflt
                    } else {
                        SpecFill::Missing
                    }
                },
            }
        },
        ParamMode::NameOnly => match find_named(c.named, p.name) {
            Option::Some(t) => SpecFill::ByArg(t),
            Option::None => if c.splat_named {
                SpecFill::Elsewhere
            } else if p.optional {
                SpecFill::Dflt
            } else {
                SpecFill::Missing
            },
        },
        ParamMode::Args => SpecFill::Elsewhere,
        ParamMode::Kwargs => SpecFill::Elsewhere,
    }
}

/// The diagnostics one parameter contributes (steps 5 and 6): a type
/// mismatch when it is filled by an argument not below its declared type, or
/// a missing-argument report when it is required and unfilled.
pub open spec fn param_err(params: Seq<SpecParam>, i: int, c: SpecCallForm) -> Seq<SpecErrKind> {
    let p = params[i];
    match param_fill(params, i, c) {
        SpecFill::ByArg(t) => if sub_ty(t, p.ty) {
            Seq::empty()
        } else {
            seq![SpecErrKind::ArgumentTypeMismatch { param: p.name, expected: p.ty, found: t }]
        },
        SpecFill::Missing => seq![SpecErrKind::MissingRequiredArgument { param: p.name }],
        _ => Seq::empty(),
    }
}

/// The diagnostics of the first `i` parameters, in parameter order.
pub open spec fn param_errs_upto(params: Seq<SpecParam>, c: SpecCallForm, i: int) -> Seq<
    SpecErrKind,
>
    decreases i,
{
    if i <= 0 {
        Seq::empty()
    } else {
        param_errs_upto(params, c, i - 1) + param_err(params, i - 1, c)
    }
}

/// The checks of the overflow positional arguments against `*args`: the
/// contributions of slots `cap` (the signature's positional capacity) up to
/// `j`, in order.
pub open spec fn extra_pos_errs(pos: Seq<Seq<SpecBasic>>, cap: int, j: int, ap: SpecParam) -> Seq<
    SpecErrKind,
>
    decreases j,
{
    if j <= cap || j <= 0 {
        Seq::empty()
    } else {
        extra_pos_errs(pos, cap, j - 1, ap) + (if sub_ty(pos[j - 1], ap.ty) {
            Seq::empty()
        } else {
            seq![SpecErrKind::ArgumentTypeMismatch {
                param: ap.name,
                expected: ap.ty,
                found: pos[j - 1],
            }]
        })
    }
}

/// Step 2's overflow handling: surplus positionals go to `*args` and are
/// checked against its type; without `*args` they are one
/// too-many-positional-arguments report.
pub open spec fn overflow_errs(params: Seq<SpecParam>, c: SpecCallForm) -> Seq<SpecErrKind> {
    let cap = n_pos_before(params, c, params.len() as int);
    match find_mode_param(params, ParamMode::Args) {
        Option::Some(ap) => extra_pos_errs(c.pos, cap, c.pos.len() as int, ap),
        Option::None => if c.pos.len() > cap {
            seq![SpecErrKind::TooManyPositionalArguments]
        } else {
            Seq::empty()
        },
    }
}

/// Whether parameter `i` would take a named argument called `name`: it has
/// that name and can be filled by name.
pub open spec fn takes_by_name(params: Seq<SpecParam>, i: int, name: Seq<char>) -> bool {
    let p = params[i];
    p.name == name && (p.mode == ParamMode::NameOnly || p.mode == ParamMode::PosOrName)
}

/// Whether named argument `j` is consumed by a parameter: it is the first
/// argument of its name, and some parameter takes that name.
pub open spec fn named_consumed(params: Seq<SpecParam>, c: SpecCallForm, j: int) -> bool {
    &&& forall|l: int| 0 <= l < j ==> (#[trigger] c.named[l]).name != c.named[j].name
    &&& exists|i: int| 0 <= i < params.len() && takes_by_name(params, i, c.named[j].name)
}

/// Step 3's leftover handling for one named argument: if no parameter
/// consumes it, it goes to `**kwargs` and is checked against its type;
/// without `**kwargs` it is an unexpected-keyword report.
pub open spec fn named_err(params: Seq<SpecParam>, c: SpecCallForm, j: int) -> Seq<SpecErrKind> {
    if named_consumed(params, c, j) {
        Seq::empty()
    } else {
        match find_mode_param(params, ParamMode::Kwargs) {
            Option::Some(kp) => if sub_ty(c.named[j].ty, kp.ty) {
                Seq::empty()
            } else {
                seq![SpecErrKind::ArgumentTypeMismatch {
                    param: kp.name,
                    expected: kp.ty,
                    found: c.named[j].ty,
                }]
            },
            Option::None => seq![SpecErrKind::UnexpectedKeywordArgument { name: c.named[j].name }],
        }
    }
}

/// The leftover diagnostics of the first `j` named arguments.
pub open spec fn named_errs_upto(params: Seq<SpecParam>, c: SpecCallForm, j: int) -> Seq<
    SpecErrKind,
>
    decreases j,
{
    if j <= 0 {
        Seq::empty()
    } else {
        named_errs_upto(params, c, j - 1) + named_err(params, c, j - 1)
    }
}

/// All diagnostics of matching a canonicalized call against a parameter
/// list: the per-parameter reports in parameter order, then the positional
/// overflow, then the leftover named arguments in argument order.
pub open spec fn form_errs(params: Seq<SpecParam>, c: SpecCallForm) -> Seq<SpecErrKind> {
    param_errs_upto(params, c, params.len() as int) + overflow_errs(params, c) + named_errs_upto(
        params,
        c,
        c.named.len() as int,
    )
}

/// The model of [`match_call`]'s diagnostics.
pub open spec fn spec_match_call(f: crate::ty::SpecFun, args: Seq<SpecArg>) -> Seq<SpecErrKind> {
    form_errs(f.params, call_form(args))
}

/// The model of an optional type.
pub open spec fn opt_ty_view(o: Option<Ty>) -> Option<Seq<SpecBasic>> {
    match o {
        Option::Some(t) => Option::Some(ty_view(t)),
        Option::None => Option::None,
    }
}

/// The first named argument called `name`, if any (the executable form of
/// [`find_named`]).
pub(crate) fn find_named_exec(named: &Vec<Field>, name: &str) -> (r: Option<Ty>)
    ensures
        opt_ty_view(r) == find_named(fields_view(named@), name@),
{
    let n = named.len();
    proof {
        crate::views::fields_view_len(named@);
    }
    let mut j: usize = 0;
    proof {
        assert(fields_view(named@).skip(0) =~= fields_view(named@));
    }
    while j < n
        invariant
            0 <= j <= n,
            n == named@.len(),
            n == fields_view(named@).len(),
            find_named(fields_view(named@), name@) == find_named(
                fields_view(named@).skip(j as int),
                name@,
            ),
        decreases n - j,
    {
        let ghost fv = fields_view(named@);
        proof {
            crate::views::fields_view_index(named@, j as int);
            assert(fv.skip(j as int)[0] == fv[j as int]);
            assert(fv.skip(j as int).drop_first() =~= fv.skip(j + 1));
        }
        if str_eq(named[j].name.as_str(), name) {
            let t = copy_ty(&named[j].ty);
            return Option::Some(t);
        }
        j += 1;
    }
    proof {
        assert(fields_view(named@).skip(n as int) =~= Seq::<SpecField>::empty());
    }
    Option::None
}

/// The index of the first parameter of mode `m`, if any.
fn find_mode_idx(params: &Vec<crate::ty::Param>, m: ParamMode) -> (r: Option<usize>)
    ensures
        match r {
            Option::Some(i) => i < params@.len() && find_mode_param(params_view(params@), m)
                == Option::Some(params_view(params@)[i as int]) && params_view(
                params@,
            )[i as int].mode == m,
            Option::None => find_mode_param(params_view(params@), m) == Option::None::<SpecParam>,
        },
{
    let n = params.len();
    proof {
        crate::views::params_view_len(params@);
    }
    let mut j: usize = 0;
    proof {
        assert(params_view(params@).skip(0) =~= params_view(params@));
    }
    while j < n
        invariant
            0 <= j <= n,
            n == params@.len(),
            n == params_view(params@).len(),
            find_mode_param(params_view(params@), m) == find_mode_param(
                params_view(params@).skip(j as int),
                m,
            ),
        decreases n - j,
    {
        let ghost pv = params_view(params@);
        proof {
            crate::views::params_view_index(params@, j as int);
            assert(pv.skip(j as int)[0] == pv[j as int]);
            assert(pv.skip(j as int).drop_first() =~= pv.skip(j + 1));
        }
        if params[j].mode == m {
            return Option::Some(j);
        }
        j += 1;
    }
    proof {
        assert(params_view(params@).skip(n as int) =~= Seq::<SpecParam>::empty());
    }
    Option::None
}

/// Match one call site against a signature: the result is the signature's
/// declared return type (used even when arguments mismatch), together with
/// every call-matching diagnostic of the call, in a fixed order that does not
/// depend on the order of the named arguments.
pub fn match_call(f: &TyFunction, args: &Vec<Arg>) -> (out: (Ty, Vec<TypingErrorKind>))
    ensures
        ty_view(out.0) == fun_view_of(f).result,
        crate::error::kinds_view(out.1@) == spec_match_call(fun_view_of(f), args_view(args@)),
{
    let ghost pv = params_view(f.params@);
    proof {
        crate::views::params_view_len(f.params@);
        args_view_len(args@);
    }
    // Step 1: canonicalize the argument list.
    let mut pos: Vec<Ty> = Vec::new();
    let mut unknown_pos = false;
    let mut named: Vec<Field> = Vec::new();
    let mut splat_named = false;
    let n_args = args.len();
    let mut i: usize = 0;
    proof {
        assert(args_view(args@.take(0)) =~= Seq::<SpecArg>::empty());
        assert(tys_view(pos@) =~= Seq::<Seq<SpecBasic>>::empty());
        assert(fields_view(named@) =~= Seq::<SpecField>::empty());
    }
    while i < n_args
        invariant
            0 <= i <= n_args,
            n_args == args@.len(),
            tys_view(pos@) == call_form(args_view(args@.take(i as int))).pos,
            unknown_pos == call_form(args_view(args@.take(i as int))).unknown_pos,
            fields_view(named@) == call_form(args_view(args@.take(i as int))).named,
            splat_named == call_form(args_view(args@.take(i as int))).splat_named,
        decreases n_args - i,
    {
        let ghost pre = args_view(args@.take(i as int));
        proof {
            args_view_index(args@, i as int);
            assert(args@.take(i + 1).drop_last() =~= args@.take(i as int));
            assert(args@.take(i + 1).last() == args@[i as int]);
            assert(args_view(args@.take(i + 1)).drop_last() =~= pre);
            assert(args_view(args@.take(i + 1)) == pre.push(arg_view(args@[i as int])));
        }
        match &args[i] {
            Arg::Pos(t) => {
                let c = copy_ty(t);
                let ghost before = pos@;
                pos.push(c);
                proof {
                    assert(pos@.drop_last() =~= before);
                    crate::views::tys_view_len(before);
                    assert(tys_view(pos@) == tys_view(before).push(ty_view(pos@.last())));
                }
            },
            Arg::Named(nm, t) => {
                let fld = Field { name: nm.clone(), ty: copy_ty(t) };
                let ghost before = named@;
                named.push(fld);
                proof {
                    assert(named@.drop_last() =~= before);
                    crate::views::fields_view_len(before);
                    assert(fields_view(named@) == fields_view(before).push(
                        SpecField {
                            name: named@.last().name@,
                            ty: ty_view(named@.last().ty),
                        },
                    ));
                }
            },
            Arg::Args(t) => {
                proof {
                    crate::views::alts_view_len(t.alts@);
                }
                let mut expanded = false;
                if t.alts.len() == 1 {
                    match &t.alts[0] {
                        TyBasic::Tuple(ts) => {
                            proof {
                                crate::views::alts_view_index(t.alts@, 0);
                                crate::views::tys_view_len(ts@);
                                assert(ty_view(*t)[0] == basic_view(t.alts@[0]));
                                assert(known_tuple(ty_view(*t)) == Option::Some(tys_view(ts@)));
                            }
                            let ghost target = call_form(args_view(args@.take(i + 1))).pos;
                            let m_el = ts.len();
                            let mut l: usize = 0;
                            proof {
                                assert(tys_view(pos@) + tys_view(ts@).take(0) =~= tys_view(pos@));
                            }
                            let ghost base = tys_view(pos@);
                            while l < m_el
                                invariant
                                    0 <= l <= m_el,
                                    m_el == ts@.len(),
                                    m_el == tys_view(ts@).len(),
                                    tys_view(pos@) == base + tys_view(ts@).take(l as int),
                                decreases m_el - l,
                            {
                                let c = copy_ty(&ts[l]);
                                proof {
                                    crate::views::tys_view_index(ts@, l as int);
                                }
                                let ghost before = pos@;
                                pos.push(c);
                                proof {
                                    assert(pos@.drop_last() =~= before);
                                    crate::views::tys_view_len(before);
                                    assert(tys_view(pos@) == tys_view(before).push(
                                        ty_view(pos@.last()),
                                    ));
                                    assert(tys_view(ts@).take(l + 1) =~= tys_view(ts@).take(
                                        l as int,
                                    ).push(tys_view(ts@)[l as int]));
                                    assert(tys_view(pos@) =~= base + tys_view(ts@).take(l + 1));
                                }
                                l += 1;
                            }
                            proof {
                                assert(tys_view(ts@).take(m_el as int) =~= tys_view(ts@));
                                assert(tys_view(pos@) =~= base + tys_view(ts@));
                            }
                            expanded = true;
                        },
                        _ => {},
                    }
                }
                if !expanded {
                    unknown_pos = true;
                    proof {
                        assert(known_tuple(ty_view(*t)) is None) by {
                            crate::views::alts_view_len(t.alts@);
                            if ty_view(*t).len() == 1 {
                                crate::views::alts_view_index(t.alts@, 0);
                            }
                        }
                    }
                }
            },
            Arg::Kwargs(_) => {
                splat_named = true;
            },
        }
        i += 1;
    }
    proof {
        assert(args@.take(n_args as int) =~= args@);
    }
    let ghost c = call_form(args_view(args@));
    // Steps 2 to 6: walk the parameters.
    let mut errs: Vec<TypingErrorKind> = Vec::new();
    let n_params = f.params.len();
    let mut pi: usize = 0;
    let mut cursor: usize = 0;
    proof {
        crate::views::tys_view_len(pos@);
        crate::views::fields_view_len(named@);
        crate::error::kinds_view_len(errs@);
        assert(crate::error::kinds_view(errs@) =~= param_errs_upto(pv, c, 0));
    }
    while pi < n_params
        invariant
            0 <= pi <= n_params,
            n_params == f.params@.len(),
            n_params == pv.len(),
            pv == params_view(f.params@),
            cursor == n_pos_before(pv, c, pi as int),
            cursor <= pi,
            tys_view(pos@) == c.pos,
            unknown_pos == c.unknown_pos,
            fields_view(named@) == c.named,
            splat_named == c.splat_named,
            pos@.len() == c.pos.len(),
            crate::error::kinds_view(errs@) == param_errs_upto(pv, c, pi as int),
        decreases n_params - pi,
    {
        let p = &f.params[pi];
        proof {
            crate::views::params_view_index(f.params@, pi as int);
        }
        let mut fill_ty: Option<Ty> = Option::None;
        let mut missing = false;
        let mut took_positional = false;
        match p.mode {
            ParamMode::PosOnly => {
                took_positional = true;
                if cursor < pos.len() {
                    fill_ty = Option::Some(copy_ty(&pos[cursor]));
                    proof {
                        crate::views::tys_view_index(pos@, cursor as int);
                    }
                } else if unknown_pos {
                } else if p.optional {
                } else {
                    missing = true;
                }
            },
            ParamMode::PosOrName => {
                let found = find_named_exec(&named, p.name.as_str());
                match found {
                    Option::Some(t) => {
                        fill_ty = Option::Some(t);
                    },
                    Option::None => {
                        took_positional = true;
                        if cursor < pos.len() {
                            fill_ty = Option::Some(copy_ty(&pos[cursor]));
                            proof {
                                crate::views::tys_view_index(pos@, cursor as int);
                            }
                        } else if unknown_pos || splat_named {
                        } else if p.optional {
                        } else {
                            missing = true;
                        }
                    },
                }
            },
            ParamMode::NameOnly => {
                let found = find_named_exec(&named, p.name.as_str());
                match found {
                    Option::Some(t) => {
                        fill_ty = Option::Some(t);
                    },
                    Option::None => {
                        if splat_named {
                        } else if p.optional {
                        } else {
                            missing = true;
                        }
                    },
                }
            },
            ParamMode::Args => {},
            ParamMode::Kwargs => {},
        }
        let ghost pre_errs = crate::error::kinds_view(errs@);
        match &fill_ty {
            Option::Some(t) => {
                proof {
                    assert(param_fill(pv, pi as int, c) == SpecFill::ByArg(ty_view(*t)));
                }
                if !t.is_subtype(&p.ty) {
                    let e = TypingErrorKind::ArgumentTypeMismatch {
                        param: p.name.clone(),
                        expected: copy_ty(&p.ty),
                        found: copy_ty(t),
                    };
                    let ghost before = errs@;
                    errs.push(e);
                    proof {
                        assert(errs@.drop_last() =~= before);
                        crate::error::kinds_view_len(before);
                        assert(crate::error::kinds_view(errs@) == crate::error::kinds_view(
                            before,
                        ).push(crate::error::kind_view(errs@.last())));
                    }
                }
            },
            Option::None => {
                if missing {
                    proof {
                        assert(param_fill(pv, pi as int, c) == SpecFill::Missing);
                    }
                    let e = TypingErrorKind::MissingRequiredArgument { param: p.name.clone() };
                    let ghost before = errs@;
                    errs.push(e);
                    proof {
                        assert(errs@.drop_last() =~= before);
                        crate::error::kinds_view_len(before);
                        assert(crate::error::kinds_view(errs@) == crate::error::kinds_view(
                            before,
                        ).push(crate::error::kind_view(errs@.last())));
                    }
                }
            },
        }
        proof {
            assert(crate::error::kinds_view(errs@) =~= pre_errs + param_err(pv, pi as int, c));
            assert(param_errs_upto(pv, c, pi + 1) == param_errs_upto(pv, c, pi as int) + param_err(
                pv,
                pi as int,
                c,
            ));
        }
        if took_positional {
            cursor = cursor + 1;
        }
        pi += 1;
    }
    let ghost base1 = param_errs_upto(pv, c, pv.len() as int);
    let ghost cap = n_pos_before(pv, c, pv.len() as int);
    proof {
        assert(cursor == cap);
    }
    // Positional overflow.
    let args_idx = find_mode_idx(&f.params, ParamMode::Args);
    match args_idx {
        Option::Some(ai) => {
            let ghost ap = pv[ai as int];
            proof {
                crate::views::params_view_index(f.params@, ai as int);
                assert(extra_pos_errs(c.pos, cap as int, cursor as int, ap) =~= Seq::<
                    SpecErrKind,
                >::empty());
            }
            let mut kk: usize = cursor;
            let n_pos_total = pos.len();
            while kk < n_pos_total
                invariant
                    cursor <= kk <= n_pos_total || (kk == cursor && n_pos_total < cursor),
                    n_pos_total == pos@.len(),
                    tys_view(pos@) == c.pos,
                    pos@.len() == c.pos.len(),
                    cursor == cap,
                    ai < f.params@.len(),
                    pv == params_view(f.params@),
                    ap == pv[ai as int],
                    ap.mode == ParamMode::Args,
                    ap == params_view(f.params@)[ai as int],
                    crate::error::kinds_view(errs@) == base1 + extra_pos_errs(
                        c.pos,
                        cap as int,
                        kk as int,
                        ap,
                    ),
                decreases n_pos_total - kk,
            {
                proof {
                    crate::views::tys_view_index(pos@, kk as int);
                    crate::views::params_view_index(f.params@, ai as int);
                }
                let ghost pre_errs = crate::error::kinds_view(errs@);
                if !pos[kk].is_subtype(&f.params[ai].ty) {
                    let e = TypingErrorKind::ArgumentTypeMismatch {
                        param: f.params[ai].name.clone(),
                        expected: copy_ty(&f.params[ai].ty),
                        found: copy_ty(&pos[kk]),
                    };
                    let ghost before = errs@;
                    errs.push(e);
                    proof {
                        assert(errs@.drop_last() =~= before);
                        crate::error::kinds_view_len(before);
                        assert(crate::error::kinds_view(errs@) == crate::error::kinds_view(
                            before,
                        ).push(crate::error::kind_view(errs@.last())));
                    }
                }
                proof {
                    assert(crate::error::kinds_view(errs@) =~= base1 + extra_pos_errs(
                        c.pos,
                        cap as int,
                        kk + 1,
                        ap,
                    ));
                }
                kk += 1;
            }
            proof {
                assert(find_mode_param(pv, ParamMode::Args) == Option::Some(ap));
                if c.pos.len() > cap {
                    assert(kk == c.pos.len());
                } else {
                    assert(extra_pos_errs(c.pos, cap as int, c.pos.len() as int, ap) =~= Seq::<
                        SpecErrKind,
                    >::empty());
                    assert(extra_pos_errs(c.pos, cap as int, kk as int, ap) =~= Seq::<
                        SpecErrKind,
                    >::empty());
                }
                assert(crate::error::kinds_view(errs@) =~= base1 + overflow_errs(pv, c));
            }
        },
        Option::None => {
            if pos.len() > cursor {
                let e = TypingErrorKind::TooManyPositionalArguments;
                let ghost before = errs@;
                errs.push(e);
                proof {
                    assert(errs@.drop_last() =~= before);
                    crate::error::kinds_view_len(before);
                    assert(crate::error::kinds_view(errs@) == crate::error::kinds_view(
                        before,
                    ).push(crate::error::kind_view(errs@.last())));
                    assert(crate::error::kinds_view(errs@) =~= base1 + overflow_errs(pv, c));
                }
            } else {
                proof {
                    assert(crate::error::kinds_view(errs@) =~= base1 + overflow_errs(pv, c));
                }
            }
        },
    }
    let ghost base2 = base1 + overflow_errs(pv, c);
    // Leftover named arguments.
    let kwargs_idx = find_mode_idx(&f.params, ParamMode::Kwargs);
    let n_named = named.len();
    let mut j: usize = 0;
    proof {
        assert(crate::error::kinds_view(errs@) =~= base2 + named_errs_upto(pv, c, 0));
    }
    while j < n_named
        invariant
            0 <= j <= n_named,
            n_named == named@.len(),
            n_named == c.named.len(),
            fields_view(named@) == c.named,
            tys_view(pos@) == c.pos,
            pos@.len() == c.pos.len(),
            pv == params_view(f.params@),
            match kwargs_idx {
                Option::Some(ki) => ki < f.params@.len() && find_mode_param(pv, ParamMode::Kwargs)
                    == Option::Some(pv[ki as int]),
                Option::None => find_mode_param(pv, ParamMode::Kwargs) == Option::None::<SpecParam>,
            },
            crate::error::kinds_view(errs@) == base2 + named_errs_upto(pv, c, j as int),
        decreases n_named - j,
    {
        proof {
            crate::views::fields_view_index(named@, j as int);
        }
        // Is this the first argument of its name?
        let mut first = true;
        let mut l: usize = 0;
        while l < j && first
            invariant
                0 <= l <= j,
                j < n_named,
                n_named == named@.len(),
                fields_view(named@) == c.named,
                c.named[j as int].name == named@[j as int].name@,
                first ==> forall|l2: int|
                    0 <= l2 < l ==> (#[trigger] c.named[l2]).name != c.named[j as int].name,
                !first ==> exists|l2: int|
                    0 <= l2 < j && (#[trigger] c.named[l2]).name == c.named[j as int].name,
            decreases j - l, (if first { 1int } else { 0int }),
        {
            proof {
                crate::views::fields_view_index(named@, l as int);
            }
            if str_eq(named[l].name.as_str(), named[j].name.as_str()) {
                first = false;
                proof {
                    assert((c.named[l as int]).name == c.named[j as int].name);
                }
            } else {
                l += 1;
            }
        }
        // Does some parameter take this name?
        let mut taken = false;
        if first {
            proof {
                crate::views::params_view_len(f.params@);
            }
            let n_params2 = f.params.len();
            let mut pi2: usize = 0;
            while pi2 < n_params2 && !taken
                invariant
                    0 <= pi2 <= n_params2,
                    n_params2 == f.params@.len(),
                    n_params2 == pv.len(),
                    pv == params_view(f.params@),
                    j < n_named,
                    n_named == named@.len(),
                    fields_view(named@) == c.named,
                    c.named[j as int].name == named@[j as int].name@,
                    tys_view(pos@) == c.pos,
                    pos@.len() == c.pos.len(),
                    !taken ==> forall|i2: int|
                        0 <= i2 < pi2 ==> !takes_by_name(pv, i2, c.named[j as int].name),
                    taken ==> exists|i2: int|
                        0 <= i2 < pv.len() && takes_by_name(pv, i2, c.named[j as int].name),
                decreases n_params2 - pi2, (if taken { 0int } else { 1int }),
            {
                let p2 = &f.params[pi2];
                proof {
                    crate::views::params_view_index(f.params@, pi2 as int);
                }
                let nameable = match p2.mode {
                    ParamMode::NameOnly => true,
                    ParamMode::PosOrName => true,
                    _ => false,
                };
                if nameable && str_eq(p2.name.as_str(), named[j].name.as_str()) {
                    taken = true;
                    proof {
                        assert(takes_by_name(pv, pi2 as int, c.named[j as int].name));
                    }
                } else {
                    proof {
                        assert(!takes_by_name(pv, pi2 as int, c.named[j as int].name));
                    }
                    pi2 += 1;
                }
            }
        }
        let consumed = first && taken;
        proof {
            if consumed {
                assert(named_consumed(pv, c, j as int));
            } else {
                if named_consumed(pv, c, j as int) {
                    if !first {
                        let l2 = choose|l2: int|
                            0 <= l2 < j && (#[trigger] c.named[l2]).name == c.named[j as int].name;
                        assert(false);
                    } else {
                        let i2 = choose|i2: int|
                            0 <= i2 < pv.len() && takes_by_name(pv, i2, c.named[j as int].name);
                        assert(false);
                    }
                }
            }
        }
        let ghost pre_errs = crate::error::kinds_view(errs@);
        if !consumed {
            match kwargs_idx {
                Option::Some(ki) => {
                    proof {
                        crate::views::params_view_index(f.params@, ki as int);
                    }
                    if !named[j].ty.is_subtype(&f.params[ki].ty) {
                        let e = TypingErrorKind::ArgumentTypeMismatch {
                            param: f.params[ki].name.clone(),
                            expected: copy_ty(&f.params[ki].ty),
                            found: copy_ty(&named[j].ty),
                        };
                        let ghost before = errs@;
                        errs.push(e);
                        proof {
                            assert(errs@.drop_last() =~= before);
                            crate::error::kinds_view_len(before);
                            assert(crate::error::kinds_view(errs@) == crate::error::kinds_view(
                                before,
                            ).push(crate::error::kind_view(errs@.last())));
                        }
                    } else {
                        proof {
                            crate::views::params_view_index(f.params@, ki as int);
                        }
                    }
                },
                Option::None => {
                    let e = TypingErrorKind::UnexpectedKeywordArgument {
                        name: named[j].name.clone(),
                    };
                    let ghost before = errs@;
                    errs.push(e);
                    proof {
                        assert(errs@.drop_last() =~= before);
                        crate::error::kinds_view_len(before);
                        assert(crate::error::kinds_view(errs@) == crate::error::kinds_view(
                            before,
                        ).push(crate::error::kind_view(errs@.last())));
                    }
                },
            }
        }
        proof {
            assert(crate::error::kinds_view(errs@) =~= pre_errs + named_err(pv, c, j as int));
            assert(named_errs_upto(pv, c, j + 1) == named_errs_upto(pv, c, j as int) + named_err(
                pv,
                c,
                j as int,
            ));
        }
        j += 1;
    }
    let result = copy_ty(&f.result);
    proof {
        assert(crate::error::kinds_view(errs@) =~= spec_match_call(
            fun_view_of(f),
            args_view(args@),
        ));
    }
    (result, errs)
}

/// The model of a signature, through a reference.
pub open spec fn fun_view_of(f: &TyFunction) -> crate::ty::SpecFun {
    crate::views::fun_view(*f)
}

/// No two named arguments share a name.
pub open spec fn distinct_names(named: Seq<SpecField>) -> bool {
    forall|i: int, j: int| 0 <= i < j < named.len() ==> named[i].name != named[j].name
}

proof fn lemma_find_named_some(named: Seq<SpecField>, name: Seq<char>)
    ensures
        match find_named(named, name) {
            Option::Some(t) => named.contains(SpecField { name: name, ty: t }),
            Option::None => forall|l: int|
                0 <= l < named.len() ==> (#[trigger] named[l]).name != name,
        },
    decreases named.len(),
{
    if named.len() > 0 {
        if named[0].name == name {
            assert(named[0] == SpecField { name: name, ty: named[0].ty });
            assert(named.contains(SpecField { name: name, ty: named[0].ty }));
        } else {
            let rest = named.drop_first();
            lemma_find_named_some(rest, name);
            match find_named(rest, name) {
                Option::Some(t) => {
                    let l = choose|l: int|
                        0 <= l < rest.len() && rest[l] == SpecField { name: name, ty: t };
                    assert(named[l + 1] == SpecField { name: name, ty: t });
                    assert(named.contains(SpecField { name: name, ty: t }));
                },
                Option::None => {
                    assert forall|l: int| 0 <= l < named.len() implies (#[trigger] named[l]).name
                        != name by {
                        if l > 0 {
                            assert(rest[l - 1] == named[l]);
                        }
                    }
                },
            }
        }
    }
}

proof fn lemma_contains_find(named: Seq<SpecField>, fld: SpecField)
    requires
        distinct_names(named),
        named.contains(fld),
    ensures
        find_named(named, fld.name) == Option::Some(fld.ty),
    decreases named.len(),
{
    let l = choose|l: int| 0 <= l < named.len() && named[l] == fld;
    if named[0].name == fld.name {
        if l != 0 {
            assert(named[0].name != named[l].name);
            assert(false);
        }
        assert(named[0] == fld);
    } else {
        let rest = named.drop_first();
        assert(l > 0);
        assert(rest[l - 1] == fld);
        assert(rest.contains(fld));
        assert forall|i: int, j: int| 0 <= i < j < rest.len() implies rest[i].name
            != rest[j].name by {
            assert(rest[i] == named[i + 1]);
            assert(rest[j] == named[j + 1]);
        }
        lemma_contains_find(rest, fld);
    }
}

proof fn lemma_find_agree(n1: Seq<SpecField>, n2: Seq<SpecField>, name: Seq<char>)
    requires
        distinct_names(n1),
        distinct_names(n2),
        n1.to_set() == n2.to_set(),
    ensures
        find_named(n1, name) == find_named(n2, name),
{
    lemma_find_named_some(n1, name);
    lemma_find_named_some(n2, name);
    match find_named(n1, name) {
        Option::Some(t) => {
            let fld = SpecField { name: name, ty: t };
            assert(n1.to_set().contains(fld));
            assert(n2.contains(fld));
            lemma_contains_find(n2, fld);
        },
        Option::None => {
            match find_named(n2, name) {
                Option::Some(t2) => {
                    let fld = SpecField { name: name, ty: t2 };
                    assert(n2.to_set().contains(fld));
                    assert(n1.contains(fld));
                    let l = choose|l: int| 0 <= l < n1.len() && n1[l] == fld;
                    assert(n1[l].name == name);
                    assert(false);
                },
                Option::None => {},
            }
        },
    }
}

proof fn lemma_n_pos_agree(params: Seq<SpecParam>, c1: SpecCallForm, c2: SpecCallForm, i: int)
    requires
        distinct_names(c1.named),
        distinct_names(c2.named),
        c1.named.to_set() == c2.named.to_set(),
    ensures
        n_pos_before(params, c1, i) == n_pos_before(params, c2, i),
    decreases i,
{
    if i > 0 {
        lemma_n_pos_agree(params, c1, c2, i - 1);
        lemma_find_agree(c1.named, c2.named, params[i - 1].name);
    }
}

proof fn lemma_param_errs_agree(
    params: Seq<SpecParam>,
    c1: SpecCallForm,
    c2: SpecCallForm,
    i: int,
)
    requires
        c1.pos == c2.pos,
        c1.unknown_pos == c2.unknown_pos,
        c1.splat_named == c2.splat_named,
        distinct_names(c1.named),
        distinct_names(c2.named),
        c1.named.to_set() == c2.named.to_set(),
        i <= params.len(),
    ensures
        param_errs_upto(params, c1, i) == param_errs_upto(params, c2, i),
    decreases i,
{
    if i > 0 {
        lemma_param_errs_agree(params, c1, c2, i - 1);
        lemma_find_agree(c1.named, c2.named, params[i - 1].name);
        lemma_n_pos_agree(params, c1, c2, i - 1);
        assert(param_fill(params, i - 1, c1) == param_fill(params, i - 1, c2));
        assert(param_errs_upto(params, c1, i) =~= param_errs_upto(params, c2, i));
    }
}

/// What one named argument contributes once duplicates are out of the
/// picture: nothing if some parameter takes its name, else the `**kwargs`
/// check or an unexpected-keyword report.
spec fn field_err(params: Seq<SpecParam>, c: SpecCallForm, fld: SpecField) -> Seq<SpecErrKind> {
    if exists|i: int| 0 <= i < params.len() && takes_by_name(params, i, fld.name) {
        Seq::empty()
    } else {
        match find_mode_param(params, ParamMode::Kwargs) {
            Option::Some(kp) => if sub_ty(fld.ty, kp.ty) {
                Seq::empty()
            } else {
                seq![SpecErrKind::ArgumentTypeMismatch {
                    param: kp.name,
                    expected: kp.ty,
                    found: fld.ty,
                }]
            },
            Option::None => seq![SpecErrKind::UnexpectedKeywordArgument { name: fld.name }],
        }
    }
}

proof fn lemma_named_err_field(params: Seq<SpecParam>, c: SpecCallForm, l: int)
    requires
        distinct_names(c.named),
        0 <= l < c.named.len(),
    ensures
        named_err(params, c, l) == field_err(params, c, c.named[l]),
{
    assert forall|l2: int| 0 <= l2 < l implies (#[trigger] c.named[l2]).name
        != c.named[l].name by {}
}

proof fn lemma_named_errs_mem(params: Seq<SpecParam>, c: SpecCallForm, j: int, x: SpecErrKind)
    requires
        0 <= j <= c.named.len(),
    ensures
        named_errs_upto(params, c, j).contains(x) <==> exists|l: int|
            0 <= l < j && (#[trigger] named_err(params, c, l)).contains(x),
    decreases j,
{
    if j > 0 {
        lemma_named_errs_mem(params, c, j - 1, x);
        let pre = named_errs_upto(params, c, j - 1);
        let last = named_err(params, c, j - 1);
        assert(named_errs_upto(params, c, j) == pre + last);
        if (pre + last).contains(x) {
            let k = choose|k: int| 0 <= k < (pre + last).len() && (pre + last)[k] == x;
            if k < pre.len() {
                assert(pre[k] == x);
                assert(pre.contains(x));
            } else {
                assert(last[k - pre.len()] == x);
                assert(last.contains(x));
                assert(named_err(params, c, j - 1).contains(x));
            }
        }
        if pre.contains(x) {
            let k = choose|k: int| 0 <= k < pre.len() && pre[k] == x;
            assert((pre + last)[k] == x);
            assert((pre + last).contains(x));
        }
        if last.contains(x) {
            let k = choose|k: int| 0 <= k < last.len() && last[k] == x;
            assert((pre + last)[pre.len() + k] == x);
            assert((pre + last).contains(x));
        }
    }
}

proof fn lemma_field_err_agree(
    params: Seq<SpecParam>,
    c1: SpecCallForm,
    c2: SpecCallForm,
    fld: SpecField,
)
    requires
        c1.pos == c2.pos,
    ensures
        field_err(params, c1, fld) == field_err(params, c2, fld),
{
    assert(field_err(params, c1, fld) =~= field_err(params, c2, fld));
}

/// Call matching is independent of the order of the named arguments: against
/// one signature, two argument lists with the same positional arguments in
/// the same order, the same splat flags, and the same set of named arguments
/// -- no name passed twice -- produce the same result type (the signature's
/// declared return type, always) and the same set of diagnostics.
pub proof fn lemma_match_named_order_independent(
    f: crate::ty::SpecFun,
    args1: Seq<SpecArg>,
    args2: Seq<SpecArg>,
)
    requires
        call_form(args1).pos == call_form(args2).pos,
        call_form(args1).unknown_pos == call_form(args2).unknown_pos,
        call_form(args1).splat_named == call_form(args2).splat_named,
        call_form(args1).named.to_set() == call_form(args2).named.to_set(),
        distinct_names(call_form(args1).named),
        distinct_names(call_form(args2).named),
    ensures
        spec_match_call(f, args1).to_set() == spec_match_call(f, args2).to_set(),
{
    let params = f.params;
    let c1 = call_form(args1);
    let c2 = call_form(args2);
    lemma_param_errs_agree(params, c1, c2, params.len() as int);
    lemma_n_pos_agree(params, c1, c2, params.len() as int);
    assert(overflow_errs(params, c1) == overflow_errs(params, c2));
    let base = param_errs_upto(params, c1, params.len() as int) + overflow_errs(params, c1);
    let n1 = named_errs_upto(params, c1, c1.named.len() as int);
    let n2 = named_errs_upto(params, c2, c2.named.len() as int);
    assert forall|x: SpecErrKind| #[trigger] n1.contains(x) implies n2.contains(x) by {
        lemma_named_errs_mem(params, c1, c1.named.len() as int, x);
        lemma_named_errs_mem(params, c2, c2.named.len() as int, x);
        let l = choose|l: int|
            0 <= l < c1.named.len() && (#[trigger] named_err(params, c1, l)).contains(x);
        lemma_named_err_field(params, c1, l);
        let fld = c1.named[l];
        assert(c1.named.contains(fld));
        assert(c1.named.to_set().contains(fld));
        assert(c2.named.to_set().contains(fld));
        assert(c2.named.contains(fld));
        let m = choose|m: int| 0 <= m < c2.named.len() && c2.named[m] == fld;
        lemma_named_err_field(params, c2, m);
        lemma_field_err_agree(params, c1, c2, fld);
        assert(named_err(params, c2, m).contains(x));
    }
    assert forall|x: SpecErrKind| #[trigger] n2.contains(x) implies n1.contains(x) by {
        lemma_named_errs_mem(params, c1, c1.named.len() as int, x);
        lemma_named_errs_mem(params, c2, c2.named.len() as int, x);
        let l = choose|l: int|
            0 <= l < c2.named.len() && (#[trigger] named_err(params, c2, l)).contains(x);
        lemma_named_err_field(params, c2, l);
        let fld = c2.named[l];
        assert(c2.named.contains(fld));
        assert(c2.named.to_set().contains(fld));
        assert(c1.named.to_set().contains(fld));
        assert(c1.named.contains(fld));
        let m = choose|m: int| 0 <= m < c1.named.len() && c1.named[m] == fld;
        lemma_named_err_field(params, c1, m);
        lemma_field_err_agree(params, c1, c2, fld);
        assert(named_err(params, c1, m).contains(x));
    }
    let e1 = spec_match_call(f, args1);
    let e2 = spec_match_call(f, args2);
    assert(e1 == base + n1);
    assert(e2 == base + n2);
    assert forall|x: SpecErrKind| #[trigger] e1.to_set().contains(x) implies e2.to_set().contains(
        x,
    ) by {
        lemma_concat_mem(base, n1, x);
        lemma_concat_mem(base, n2, x);
    }
    assert forall|x: SpecErrKind| #[trigger] e2.to_set().contains(x) implies e1.to_set().contains(
        x,
    ) by {
        lemma_concat_mem(base, n1, x);
        lemma_concat_mem(base, n2, x);
    }
    assert(e1.to_set() =~= e2.to_set());
}

proof fn lemma_concat_mem(a: Seq<SpecErrKind>, b: Seq<SpecErrKind>, x: SpecErrKind)
    ensures
        (a + b).contains(x) <==> a.contains(x) || b.contains(x),
{
    if (a + b).contains(x) {
        let k = choose|k: int| 0 <= k < (a + b).len() && (a + b)[k] == x;
        if k < a.len() {
            assert(a[k] == x);
        } else {
            assert(b[k - a.len()] == x);
        }
    }
    if a.contains(x) {
        let k = choose|k: int| 0 <= k < a.len() && a[k] == x;
        assert((a + b)[k] == x);
    }
    if b.contains(x) {
        let k = choose|k: int| 0 <= k < b.len() && b[k] == x;
        assert((a + b)[a.len() + k] == x);
    }
}

} // verus!
