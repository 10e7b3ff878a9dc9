use starlark_typing::ty::basic_eq;
use starlark_typing::ty::ty_eq;
use starlark_typing::ty::Field;
use starlark_typing::ty::Ty;
use starlark_typing::ty::TyStruct;

#[test]
fn union_absorbs_any() {
    let t = Ty::int_ty().union(&Ty::str_ty());
    let u = t.union(&Ty::any());
    assert!(ty_eq(&u, &Ty::any()));
    let u = Ty::any().union(&t);
    assert!(ty_eq(&u, &Ty::any()));
}

#[test]
fn union_is_idempotent() {
    let t = Ty::int_ty().union(&Ty::str_ty());
    assert!(ty_eq(&t.union(&t), &t));
    assert!(ty_eq(&Ty::never().union(&Ty::never()), &Ty::never()));
}

#[test]
fn union_is_commutative_as_a_set() {
    let a = Ty::int_ty().union(&Ty::str_ty());
    let b = Ty::str_ty().union(&Ty::int_ty());
    // same set of alternatives, so each is a subtype of the other
    assert!(a.is_subtype(&b));
    assert!(b.is_subtype(&a));
}

#[test]
fn never_is_identity_for_union_and_absorbs_intersect() {
    let t = Ty::int_ty().union(&Ty::bool_ty());
    assert!(ty_eq(&t.union(&Ty::never()), &t));
    assert!(ty_eq(&Ty::never().union(&t), &t));
    assert!(t.intersect(&Ty::never()).is_never());
    assert!(Ty::never().intersect(&t).is_never());
}

#[test]
fn any_is_identity_for_intersect() {
    let t = Ty::int_ty().union(&Ty::str_ty());
    assert!(ty_eq(&Ty::any().intersect(&t), &t));
}

#[test]
fn intersect_narrows_containers() {
    let li = Ty::list(Ty::int_ty());
    let la = Ty::list(Ty::any());
    // List(Int) ∩ List(Any) == List(Int)
    assert!(ty_eq(&li.intersect(&la), &li));
    // disjoint atoms vanish
    assert!(Ty::int_ty().intersect(&Ty::str_ty()).is_never());
}

#[test]
fn subtyping_is_reflexive_on_assorted_types() {
    let cases = vec![
        Ty::never(),
        Ty::any(),
        Ty::int_ty(),
        Ty::int_ty().union(&Ty::str_ty()),
        Ty::list(Ty::int_ty().union(&Ty::none_ty())),
        Ty::dict(Ty::str_ty(), Ty::list(Ty::int_ty())),
        Ty::tuple(vec![Ty::int_ty(), Ty::str_ty()]),
    ];
    for t in &cases {
        assert!(t.is_subtype(t));
    }
}

#[test]
fn subtyping_examples() {
    // Never below everything, everything below Any, Any below non-empty types
    assert!(Ty::never().is_subtype(&Ty::int_ty()));
    assert!(Ty::int_ty().is_subtype(&Ty::any()));
    assert!(Ty::any().is_subtype(&Ty::int_ty()));
    // a basic is below a union holding it
    let t = Ty::int_ty().union(&Ty::str_ty());
    assert!(Ty::int_ty().is_subtype(&t));
    assert!(!t.is_subtype(&Ty::int_ty()));
    // containers are covariant
    assert!(Ty::list(Ty::int_ty()).is_subtype(&Ty::list(Ty::any())));
    assert!(!Ty::list(Ty::str_ty()).is_subtype(&Ty::list(Ty::int_ty())));
    // lists and tuples are iterable
    assert!(Ty::list(Ty::int_ty()).is_subtype(&Ty::iter(Ty::int_ty())));
    assert!(Ty::tuple(vec![Ty::int_ty(), Ty::int_ty()]).is_subtype(&Ty::iter(Ty::int_ty())));
}

#[test]
fn transitivity_holds_through_an_any_free_middle() {
    let a = Ty::list(Ty::never());
    let b = Ty::list(Ty::int_ty());
    let c = Ty::list(Ty::int_ty().union(&Ty::str_ty()));
    assert!(a.is_subtype(&b));
    assert!(b.is_subtype(&c));
    assert!(a.is_subtype(&c));
}

#[test]
fn transitivity_can_fail_through_any() {
    // Any is both top and bottom (the gradual part), so chains through it
    // prove nothing: Int ⊑ Any and Any ⊑ Str, yet Int ⋢ Str.
    assert!(Ty::int_ty().is_subtype(&Ty::any()));
    assert!(Ty::any().is_subtype(&Ty::str_ty()));
    assert!(!Ty::int_ty().is_subtype(&Ty::str_ty()));
}

fn record(fields: Vec<(&str, Ty)>, extra: bool) -> Ty {
    Ty::struct_ty(TyStruct {
        fields: fields
            .into_iter()
            .map(|(n, t)| Field { name: n.to_owned(), ty: t })
            .collect(),
        extra,
    })
}

#[test]
fn struct_subtyping_is_width_subtyping() {
    let wide = record(vec![("a", Ty::int_ty()), ("b", Ty::str_ty())], false);
    let narrow = record(vec![("a", Ty::int_ty())], false);
    assert!(wide.is_subtype(&narrow));
    assert!(!narrow.is_subtype(&wide));
    // field types must be compatible
    let wrong = record(vec![("a", Ty::str_ty()), ("b", Ty::str_ty())], false);
    assert!(!wrong.is_subtype(&narrow));
    // an open record is never below a closed one
    let open_rec = record(vec![("a", Ty::int_ty())], true);
    assert!(!open_rec.is_subtype(&narrow));
    assert!(narrow.is_subtype(&record(vec![("a", Ty::int_ty())], true)));
}

#[test]
fn structural_equality_distinguishes_shapes() {
    let a = Ty::list(Ty::int_ty());
    let b = Ty::list(Ty::int_ty());
    let c = Ty::list(Ty::str_ty());
    assert!(ty_eq(&a, &b));
    assert!(!ty_eq(&a, &c));
    assert!(basic_eq(&a.alts[0], &b.alts[0]));
    assert!(!basic_eq(&a.alts[0], &c.alts[0]));
}
