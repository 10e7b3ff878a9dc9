use starlark_typing::error::BinOp;
use starlark_typing::oracle::DocFunction;
use starlark_typing::oracle::OracleDocs;
use starlark_typing::oracle::OracleSeq;
use starlark_typing::oracle::OracleStandard;
use starlark_typing::oracle::TypingOracle;
use starlark_typing::ty::ty_eq;
use starlark_typing::ty::Param;
use starlark_typing::ty::ParamMode;
use starlark_typing::ty::Ty;
use starlark_typing::ty::TyBasic;
use starlark_typing::ty::TyFunction;
use starlark_typing::ty::TyName;

#[test]
fn standard_oracle_knows_string_methods() {
    let o = OracleStandard::new();
    let upper = o.attr(&TyBasic::Str, "upper").unwrap();
    match &upper.alts[0] {
        TyBasic::Callable(f) => {
            assert!(f.params.is_empty());
            assert!(ty_eq(&f.result, &Ty::str_ty()));
        },
        _ => panic!("expected a callable"),
    }
    assert!(o.attr(&TyBasic::Str, "no_such_method").is_none());
}

#[test]
fn standard_oracle_list_pop_returns_the_element_type() {
    let o = OracleStandard::new();
    let list_int = Ty::list(Ty::int_ty());
    let pop = o.attr(&list_int.alts[0], "pop").unwrap();
    match &pop.alts[0] {
        TyBasic::Callable(f) => assert!(ty_eq(&f.result, &Ty::int_ty())),
        _ => panic!("expected a callable"),
    }
}

#[test]
fn standard_oracle_binops() {
    let o = OracleStandard::new();
    let r = o.binop(BinOp::Add, &TyBasic::Int, &TyBasic::Int).unwrap();
    assert!(ty_eq(&r, &Ty::int_ty()));
    let r = o.binop(BinOp::Div, &TyBasic::Int, &TyBasic::Int).unwrap();
    assert!(ty_eq(&r, &Ty::float_ty()));
    let r = o.binop(BinOp::Add, &TyBasic::Str, &TyBasic::Str).unwrap();
    assert!(ty_eq(&r, &Ty::str_ty()));
    assert!(o.binop(BinOp::Add, &TyBasic::Int, &TyBasic::Str).is_none());
    let r = o.binop(BinOp::Equal, &TyBasic::Int, &TyBasic::Str).unwrap();
    assert!(ty_eq(&r, &Ty::bool_ty()));
}

#[test]
fn docs_oracle_serves_documented_signatures() {
    let docs = vec![DocFunction {
        name: "glob".to_owned(),
        sig: TyFunction {
            params: vec![Param {
                mode: ParamMode::PosOrName,
                name: "include".to_owned(),
                ty: Ty::list(Ty::str_ty()),
                optional: false,
            }],
            result: Ty::list(Ty::str_ty()),
        },
    }];
    let o = OracleDocs::new(docs);
    let f = o.callable(&TyBasic::Name(TyName("glob".to_owned()))).unwrap();
    assert_eq!(f.params.len(), 1);
    assert!(ty_eq(&f.result, &Ty::list(Ty::str_ty())));
    assert!(o.callable(&TyBasic::Name(TyName("nope".to_owned()))).is_none());
    assert!(o.callable(&TyBasic::Str).is_none());
}

#[test]
fn sequential_oracle_falls_through() {
    let docs = vec![DocFunction {
        name: "glob".to_owned(),
        sig: TyFunction { params: Vec::new(), result: Ty::list(Ty::str_ty()) },
    }];
    let o = OracleSeq { first: OracleDocs::new(docs), second: OracleStandard::new() };
    // the first oracle answers the callable query
    assert!(o.callable(&TyBasic::Name(TyName("glob".to_owned()))).is_some());
    // the second answers the attribute query the first cannot
    assert!(o.attr(&TyBasic::Str, "upper").is_some());
    // unknown everywhere stays unknown
    assert!(o.attr(&TyBasic::Int, "upper").is_none());
}
