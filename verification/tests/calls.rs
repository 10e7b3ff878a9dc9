use starlark_typing::function::match_call;
use starlark_typing::function::Arg;
use starlark_typing::ty::ty_eq;
use starlark_typing::ty::Param;
use starlark_typing::ty::ParamMode;
use starlark_typing::ty::Ty;
use starlark_typing::ty::TyFunction;
use starlark_typing::TypingErrorKind;

fn p(mode: ParamMode, name: &str, ty: Ty, optional: bool) -> Param {
    Param { mode, name: name.to_owned(), ty, optional }
}

/// The signature `(x: Int, y: String = "a", *rest: Any) -> Bool`.
fn sig_with_rest() -> TyFunction {
    TyFunction {
        params: vec![
            p(ParamMode::PosOrName, "x", Ty::int_ty(), false),
            p(ParamMode::PosOrName, "y", Ty::str_ty(), true),
            p(ParamMode::Args, "rest", Ty::any(), false),
        ],
        result: Ty::bool_ty(),
    }
}

#[test]
fn call_with_named_and_rest() {
    // (1, y="b", 2, 3): 1 fills x, "b" fills y by name, 2 and 3 go to *rest
    let args = vec![
        Arg::Pos(Ty::int_ty()),
        Arg::Named("y".to_owned(), Ty::str_ty()),
        Arg::Pos(Ty::int_ty()),
        Arg::Pos(Ty::int_ty()),
    ];
    let (result, errs) = match_call(&sig_with_rest(), &args);
    assert!(ty_eq(&result, &Ty::bool_ty()));
    assert!(errs.is_empty());
}

#[test]
fn call_with_one_mismatch() {
    // signature (x: Int) -> Int, call ("s"): exactly one mismatch naming x,
    // and the declared return type is still used
    let sig = TyFunction {
        params: vec![p(ParamMode::PosOrName, "x", Ty::int_ty(), false)],
        result: Ty::int_ty(),
    };
    let args = vec![Arg::Pos(Ty::str_ty())];
    let (result, errs) = match_call(&sig, &args);
    assert!(ty_eq(&result, &Ty::int_ty()));
    assert_eq!(errs.len(), 1);
    match &errs[0] {
        TypingErrorKind::ArgumentTypeMismatch { param, expected, found } => {
            assert_eq!(param, "x");
            assert!(ty_eq(expected, &Ty::int_ty()));
            assert!(ty_eq(found, &Ty::str_ty()));
        },
        _ => panic!("expected an argument type mismatch"),
    }
}

fn err_key(e: &TypingErrorKind) -> String {
    match e {
        TypingErrorKind::NotSupportedAttribute { attr } => format!("attr:{attr}"),
        TypingErrorKind::NotCallable => "not_callable".to_owned(),
        TypingErrorKind::TooManyPositionalArguments => "too_many".to_owned(),
        TypingErrorKind::MissingRequiredArgument { param } => format!("missing:{param}"),
        TypingErrorKind::UnexpectedKeywordArgument { name } => format!("unexpected:{name}"),
        TypingErrorKind::ArgumentTypeMismatch { param, .. } => format!("mismatch:{param}"),
        TypingErrorKind::IncompatibleBinOp { .. } => "binop".to_owned(),
        TypingErrorKind::IncompatibleAssignment { .. } => "assign".to_owned(),
        TypingErrorKind::NotInScope { name } => format!("scope:{name}"),
    }
}

#[test]
fn named_argument_order_does_not_matter() {
    // permuting the named arguments yields the same result type and error set
    let sig = TyFunction {
        params: vec![
            p(ParamMode::PosOrName, "a", Ty::int_ty(), false),
            p(ParamMode::NameOnly, "b", Ty::str_ty(), false),
            p(ParamMode::NameOnly, "c", Ty::bool_ty(), false),
        ],
        result: Ty::none_ty(),
    };
    let args1 = vec![
        Arg::Pos(Ty::int_ty()),
        Arg::Named("b".to_owned(), Ty::str_ty()),
        Arg::Named("c".to_owned(), Ty::int_ty()),
        Arg::Named("d".to_owned(), Ty::int_ty()),
    ];
    let args2 = vec![
        Arg::Pos(Ty::int_ty()),
        Arg::Named("d".to_owned(), Ty::int_ty()),
        Arg::Named("c".to_owned(), Ty::int_ty()),
        Arg::Named("b".to_owned(), Ty::str_ty()),
    ];
    let (r1, e1) = match_call(&sig, &args1);
    let (r2, e2) = match_call(&sig, &args2);
    assert!(ty_eq(&r1, &r2));
    let mut k1: Vec<String> = e1.iter().map(err_key).collect();
    let mut k2: Vec<String> = e2.iter().map(err_key).collect();
    k1.sort();
    k2.sort();
    assert_eq!(k1, k2);
    // the two findings: c mismatches, d is unexpected
    assert_eq!(k1, vec!["mismatch:c".to_owned(), "unexpected:d".to_owned()]);
}

#[test]
fn missing_and_too_many() {
    let sig = TyFunction {
        params: vec![p(ParamMode::PosOrName, "x", Ty::int_ty(), false)],
        result: Ty::none_ty(),
    };
    let (_, errs) = match_call(&sig, &Vec::new());
    assert_eq!(errs.len(), 1);
    assert!(matches!(&errs[0], TypingErrorKind::MissingRequiredArgument { param } if param == "x"));

    let args = vec![Arg::Pos(Ty::int_ty()), Arg::Pos(Ty::int_ty())];
    let (_, errs) = match_call(&sig, &args);
    assert_eq!(errs.len(), 1);
    assert!(matches!(&errs[0], TypingErrorKind::TooManyPositionalArguments));
}

#[test]
fn splats_are_permissive() {
    let sig = TyFunction {
        params: vec![
            p(ParamMode::PosOrName, "x", Ty::int_ty(), false),
            p(ParamMode::NameOnly, "k", Ty::str_ty(), false),
        ],
        result: Ty::none_ty(),
    };
    // an unknown-length *args splat suppresses the missing-positional report,
    // a **kwargs splat satisfies the named-only parameter
    let args = vec![Arg::Args(Ty::list(Ty::int_ty())), Arg::Kwargs(Ty::dict(Ty::str_ty(), Ty::any()))];
    let (_, errs) = match_call(&sig, &args);
    assert!(errs.is_empty());
}

#[test]
fn known_tuple_splat_expands() {
    let sig = TyFunction {
        params: vec![
            p(ParamMode::PosOrName, "x", Ty::int_ty(), false),
            p(ParamMode::PosOrName, "y", Ty::str_ty(), false),
        ],
        result: Ty::none_ty(),
    };
    // *(1, "a") expands into the two positional slots
    let args = vec![Arg::Args(Ty::tuple(vec![Ty::int_ty(), Ty::str_ty()]))];
    let (_, errs) = match_call(&sig, &args);
    assert!(errs.is_empty());
}

#[test]
fn unexpected_keyword_without_kwargs() {
    let sig = TyFunction {
        params: vec![p(ParamMode::PosOnly, "x", Ty::int_ty(), false)],
        result: Ty::none_ty(),
    };
    // a positional-only parameter cannot be filled by name
    let args = vec![Arg::Pos(Ty::int_ty()), Arg::Named("x".to_owned(), Ty::int_ty())];
    let (_, errs) = match_call(&sig, &args);
    assert_eq!(errs.len(), 1);
    assert!(matches!(&errs[0], TypingErrorKind::UnexpectedKeywordArgument { name } if name == "x"));
}

#[test]
fn kwargs_catches_leftover_names_and_checks_them() {
    let sig = TyFunction {
        params: vec![p(ParamMode::Kwargs, "kwargs", Ty::str_ty(), false)],
        result: Ty::none_ty(),
    };
    let args = vec![
        Arg::Named("good".to_owned(), Ty::str_ty()),
        Arg::Named("bad".to_owned(), Ty::int_ty()),
    ];
    let (_, errs) = match_call(&sig, &args);
    assert_eq!(errs.len(), 1);
    assert!(matches!(&errs[0], TypingErrorKind::ArgumentTypeMismatch { param, .. } if param == "kwargs"));
}
