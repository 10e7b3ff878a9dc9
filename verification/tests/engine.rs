use starlark_typing::bindings::Bindings;
use starlark_typing::error::BinOp;
use starlark_typing::error::Span;
use starlark_typing::oracle::OracleStandard;
use starlark_typing::ty::ty_eq;
use starlark_typing::ty::Ty;
use starlark_typing::typecheck::typecheck_module;
use starlark_typing::typecheck::CallArg;
use starlark_typing::typecheck::Expr;
use starlark_typing::typecheck::ExprKind;
use starlark_typing::typecheck::FieldInit;
use starlark_typing::typecheck::Stmt;
use starlark_typing::typecheck::StmtKind;
use starlark_typing::TypingErrorKind;
use starlark_typing::ty::Param;
use starlark_typing::ty::ParamMode;
use starlark_typing::ty::TyFunction;
use starlark_typing::typecheck::DefFunction;
use starlark_typing::typecheck::DictEntry;

fn sp() -> Span {
    Span { begin: 0, end: 0 }
}

fn e(kind: ExprKind) -> Expr {
    Expr { span: sp(), kind }
}

fn s(kind: StmtKind) -> Stmt {
    Stmt { span: sp(), kind }
}

fn assign(name: &str, value: Expr) -> Stmt {
    s(StmtKind::Assign(name.to_owned(), value))
}

fn exports(names: &[&str]) -> Vec<String> {
    names.iter().map(|n| (*n).to_owned()).collect()
}

fn check(module: Vec<Stmt>, exported: &[&str]) -> (starlark_typing::Interface, Vec<starlark_typing::TypingError>) {
    typecheck_module(OracleStandard::new(), &Bindings::new(), &module, &exports(exported))
}

#[test]
fn branches_merge_by_union() {
    // if cond: x = 1 else: x = "a"  -- afterwards x: Int | String
    let module = vec![s(StmtKind::If(
        e(ExprKind::BoolLit(true)),
        vec![assign("x", e(ExprKind::IntLit(1)))],
        vec![assign("x", e(ExprKind::StrLit("a".to_owned())))],
    ))];
    let (iface, errs) = check(module, &["x"]);
    assert!(errs.is_empty());
    let x = iface.lookup("x").unwrap();
    assert!(ty_eq(&x, &Ty::int_ty().union(&Ty::str_ty())));
}

#[test]
fn missing_struct_field_is_one_error_and_any() {
    // y = {a: 1, b: "x"}.c  -- exactly one not-supported-attribute, type Any
    let lit = e(ExprKind::StructLit(vec![
        FieldInit { name: "a".to_owned(), value: e(ExprKind::IntLit(1)) },
        FieldInit { name: "b".to_owned(), value: e(ExprKind::StrLit("x".to_owned())) },
    ]));
    let module = vec![assign("y", e(ExprKind::Attr(Box::new(lit), "c".to_owned())))];
    let (iface, errs) = check(module, &["y"]);
    assert_eq!(errs.len(), 1);
    assert!(matches!(&errs[0].kind, TypingErrorKind::NotSupportedAttribute { attr } if attr == "c"));
    let y = iface.lookup("y").unwrap();
    assert!(y.is_any());
}

#[test]
fn present_struct_field_resolves() {
    let lit = e(ExprKind::StructLit(vec![FieldInit {
        name: "a".to_owned(),
        value: e(ExprKind::IntLit(1)),
    }]));
    let module = vec![assign("y", e(ExprKind::Attr(Box::new(lit), "a".to_owned())))];
    let (iface, errs) = check(module, &["y"]);
    assert!(errs.is_empty());
    assert!(ty_eq(&iface.lookup("y").unwrap(), &Ty::int_ty()));
}

#[test]
fn unknown_name_is_reported_and_walk_goes_on() {
    let module = vec![
        assign("y", e(ExprKind::Name("nowhere".to_owned()))),
        assign("z", e(ExprKind::IntLit(3))),
    ];
    let (iface, errs) = check(module, &["y", "z"]);
    assert_eq!(errs.len(), 1);
    assert!(matches!(&errs[0].kind, TypingErrorKind::NotInScope { name } if name == "nowhere"));
    assert!(iface.lookup("y").unwrap().is_any());
    assert!(ty_eq(&iface.lookup("z").unwrap(), &Ty::int_ty()));
}

#[test]
fn binop_types_through_the_oracle() {
    let module = vec![assign(
        "n",
        e(ExprKind::Binary(
            BinOp::Add,
            Box::new(e(ExprKind::IntLit(1))),
            Box::new(e(ExprKind::IntLit(2))),
        )),
    )];
    let (iface, errs) = check(module, &["n"]);
    assert!(errs.is_empty());
    assert!(ty_eq(&iface.lookup("n").unwrap(), &Ty::int_ty()));
}

#[test]
fn incompatible_binop_is_reported() {
    let module = vec![assign(
        "n",
        e(ExprKind::Binary(
            BinOp::Add,
            Box::new(e(ExprKind::IntLit(1))),
            Box::new(e(ExprKind::StrLit("x".to_owned()))),
        )),
    )];
    let (iface, errs) = check(module, &["n"]);
    assert_eq!(errs.len(), 1);
    assert!(matches!(&errs[0].kind, TypingErrorKind::IncompatibleBinOp { .. }));
    assert!(iface.lookup("n").unwrap().is_any());
}

#[test]
fn string_method_call_types() {
    // t = "abc".upper()
    let callee = e(ExprKind::Attr(
        Box::new(e(ExprKind::StrLit("abc".to_owned()))),
        "upper".to_owned(),
    ));
    let module = vec![assign("t", e(ExprKind::Call(Box::new(callee), Vec::new())))];
    let (iface, errs) = check(module, &["t"]);
    assert!(errs.is_empty());
    assert!(ty_eq(&iface.lookup("t").unwrap(), &Ty::str_ty()));
}

#[test]
fn calling_a_non_callable_is_reported() {
    let module = vec![assign(
        "t",
        e(ExprKind::Call(Box::new(e(ExprKind::IntLit(1))), Vec::new())),
    )];
    let (_, errs) = check(module, &["t"]);
    assert_eq!(errs.len(), 1);
    assert!(matches!(&errs[0].kind, TypingErrorKind::NotCallable));
}

#[test]
fn annotated_assignment_is_checked_and_wins() {
    let module = vec![s(StmtKind::AnnAssign(
        "v".to_owned(),
        Ty::int_ty(),
        e(ExprKind::StrLit("oops".to_owned())),
    ))];
    let (iface, errs) = check(module, &["v"]);
    assert_eq!(errs.len(), 1);
    assert!(matches!(&errs[0].kind, TypingErrorKind::IncompatibleAssignment { .. }));
    assert!(ty_eq(&iface.lookup("v").unwrap(), &Ty::int_ty()));
}

#[test]
fn for_loop_binds_the_element_type() {
    // xs = [1, 2]; for v in xs: pass-ish (v = v)
    let module = vec![
        assign(
            "xs",
            e(ExprKind::ListExpr(vec![e(ExprKind::IntLit(1)), e(ExprKind::IntLit(2))])),
        ),
        s(StmtKind::For(
            "v".to_owned(),
            e(ExprKind::Name("xs".to_owned())),
            vec![assign("v", e(ExprKind::Name("v".to_owned())))],
        )),
    ];
    let (iface, errs) = check(module, &["v", "xs"]);
    assert!(errs.is_empty());
    assert!(ty_eq(&iface.lookup("v").unwrap(), &Ty::int_ty()));
    assert!(ty_eq(&iface.lookup("xs").unwrap(), &Ty::list(Ty::int_ty())));
}

#[test]
fn early_return_branch_contributes_nothing() {
    // if cond: return None else: x = 1  -- afterwards x: Int, not a union
    let module = vec![s(StmtKind::If(
        e(ExprKind::BoolLit(true)),
        vec![s(StmtKind::Return(Some(e(ExprKind::NoneLit))))],
        vec![assign("x", e(ExprKind::IntLit(1)))],
    ))];
    let (iface, errs) = check(module, &["x"]);
    assert!(errs.is_empty());
    assert!(ty_eq(&iface.lookup("x").unwrap(), &Ty::int_ty()));
}

#[test]
fn def_binds_a_callable_and_checks_its_body() {
    let d = DefFunction {
        name: "f".to_owned(),
        sig: TyFunction {
            params: vec![Param {
                mode: ParamMode::PosOrName,
                name: "x".to_owned(),
                ty: Ty::int_ty(),
                optional: false,
            }],
            result: Ty::int_ty(),
        },
        body: vec![s(StmtKind::Return(Some(e(ExprKind::Name("x".to_owned())))))],
    };
    let module = vec![
        s(StmtKind::Def(d)),
        // call f with a good argument
        assign(
            "r",
            e(ExprKind::Call(
                Box::new(e(ExprKind::Name("f".to_owned()))),
                vec![CallArg::Pos(e(ExprKind::IntLit(7)))],
            )),
        ),
    ];
    let (iface, errs) = check(module, &["r"]);
    assert!(errs.is_empty());
    assert!(ty_eq(&iface.lookup("r").unwrap(), &Ty::int_ty()));
}

#[test]
fn interface_holds_only_exports() {
    let module = vec![
        assign("public_name", e(ExprKind::IntLit(1))),
        assign("private_name", e(ExprKind::IntLit(2))),
    ];
    let (iface, _) = check(module, &["public_name"]);
    assert!(iface.lookup("public_name").is_some());
    assert!(iface.lookup("private_name").is_none());
}

#[test]
fn imported_interface_seeds_the_scope() {
    // publish one module, seed another scope from its interface, check a use
    let lib = vec![assign("answer", e(ExprKind::IntLit(42)))];
    let (lib_iface, lib_errs) = check(lib, &["answer"]);
    assert!(lib_errs.is_empty());

    let mut globals = Bindings::new();
    let loaded = lib_iface.lookup("answer").unwrap();
    globals.declare("answer".to_owned(), loaded);
    let module = vec![assign("twice", e(ExprKind::Binary(
        BinOp::Add,
        Box::new(e(ExprKind::Name("answer".to_owned()))),
        Box::new(e(ExprKind::Name("answer".to_owned()))),
    )))];
    let (iface, errs) =
        typecheck_module(OracleStandard::new(), &globals, &module, &exports(&["twice"]));
    assert!(errs.is_empty());
    assert!(ty_eq(&iface.lookup("twice").unwrap(), &Ty::int_ty()));
}

#[test]
fn displays_type_their_elements() {
    // d = {1: "a", 2: None}; t = (1, "s")
    let module = vec![
        assign(
            "d",
            e(ExprKind::DictExpr(vec![
                DictEntry { key: e(ExprKind::IntLit(1)), value: e(ExprKind::StrLit("a".to_owned())) },
                DictEntry { key: e(ExprKind::IntLit(2)), value: e(ExprKind::NoneLit) },
            ])),
        ),
        assign(
            "t",
            e(ExprKind::TupleExpr(vec![
                e(ExprKind::IntLit(1)),
                e(ExprKind::StrLit("s".to_owned())),
            ])),
        ),
        assign("empty", e(ExprKind::ListExpr(Vec::new()))),
    ];
    let (iface, errs) = check(module, &["d", "t", "empty"]);
    assert!(errs.is_empty());
    let d = iface.lookup("d").unwrap();
    assert!(ty_eq(&d, &Ty::dict(Ty::int_ty(), Ty::str_ty().union(&Ty::none_ty()))));
    let t = iface.lookup("t").unwrap();
    assert!(ty_eq(&t, &Ty::tuple(vec![Ty::int_ty(), Ty::str_ty()])));
    // an empty list has the element type Never
    let empty = iface.lookup("empty").unwrap();
    assert!(ty_eq(&empty, &Ty::list(Ty::never())));
}

#[test]
fn duplicate_dict_keys_union_without_repeats() {
    // d = {1: "a", 2: "b"}: both keys Int -- the key union holds Int once
    let module = vec![assign(
        "d",
        e(ExprKind::DictExpr(vec![
            DictEntry { key: e(ExprKind::IntLit(1)), value: e(ExprKind::StrLit("a".to_owned())) },
            DictEntry { key: e(ExprKind::IntLit(2)), value: e(ExprKind::StrLit("b".to_owned())) },
        ])),
    )];
    let (iface, errs) = check(module, &["d"]);
    assert!(errs.is_empty());
    assert!(ty_eq(&iface.lookup("d").unwrap(), &Ty::dict(Ty::int_ty(), Ty::str_ty())));
}

#[test]
fn duplicate_struct_fields_resolve_to_the_first() {
    // a record literal carrying one name twice: access resolves to the first
    let lit = e(ExprKind::StructLit(vec![
        FieldInit { name: "a".to_owned(), value: e(ExprKind::IntLit(1)) },
        FieldInit { name: "a".to_owned(), value: e(ExprKind::StrLit("x".to_owned())) },
    ]));
    let module = vec![assign("y", e(ExprKind::Attr(Box::new(lit), "a".to_owned())))];
    let (iface, errs) = check(module, &["y"]);
    assert!(errs.is_empty());
    assert!(ty_eq(&iface.lookup("y").unwrap(), &Ty::int_ty()));
}
