use kernel::check::infer_term;
use kernel::env::{Binder, Entry, EntryKind, Env};
use kernel::error::Error;
use kernel::reduce::{convertible_terms, equal_terms, normalize_term, whnf_term};
use kernel::subst::{copy_term, mentions_term, shift_term, subst_term};
use kernel::term::{Branch, Term};

const FUEL: u64 = 1000;

fn nm(s: &str) -> Vec<u8> {
    s.as_bytes().to_vec()
}

fn r(s: &str) -> Term {
    Term::Ref { name: nm(s) }
}

fn v(i: u64) -> Term {
    Term::Var { index: i }
}

fn app(f: Term, args: Vec<Term>) -> Term {
    let mut acc = f;
    for a in args {
        acc = Term::Apply { function: Box::new(acc), argument: Box::new(a) };
    }
    acc
}

fn pi(n: &str, d: Term, c: Term) -> Term {
    Term::Pi { name: nm(n), domain: Box::new(d), codomain: Box::new(c) }
}

fn lam(n: &str, b: Term) -> Term {
    Term::Lambda { name: nm(n), body: Box::new(b) }
}

fn ann(t: Term, ty: Term) -> Term {
    Term::Ann { term: Box::new(t), typ: Box::new(ty) }
}

fn case(s: Term, m: Option<Term>, bs: Vec<Branch>) -> Term {
    Term::Case { scrutinee: Box::new(s), motive: m.map(Box::new), branches: bs }
}

fn br(c: &str, fields: &[&str], body: Term) -> Branch {
    Branch { ctor: nm(c), fields: fields.iter().map(|f| nm(f)).collect(), body }
}

fn binder(n: &str, t: Term) -> Binder {
    Binder { name: nm(n), typ: t }
}

fn data(n: &str, params: Vec<Binder>, ctors: &[&str]) -> Entry {
    Entry {
        name: nm(n),
        kind: EntryKind::Datatype { params, ctors: ctors.iter().map(|c| nm(c)).collect() },
    }
}

fn ctor(n: &str, d: &str, fields: Vec<Binder>, indices: Vec<Term>) -> Entry {
    Entry { name: nm(n), kind: EntryKind::Constructor { datatype: nm(d), fields, indices } }
}

fn def(n: &str, body: Term) -> Entry {
    Entry { name: nm(n), kind: EntryKind::Definition { body } }
}

fn succ(t: Term) -> Term {
    app(r("Nat.succ"), vec![t])
}

fn num(k: usize) -> Term {
    let mut t = r("Nat.zero");
    for _ in 0..k {
        t = succ(t);
    }
    t
}

/// The motive `\self. body` for a datatype without parameters.
fn konst(body: Term) -> Option<Term> {
    Some(lam("self", body))
}

fn not_def() -> Term {
    ann(
        lam(
            "b",
            case(
                v(0),
                konst(r("Bool")),
                vec![br("Bool.true", &[], r("Bool.false")), br("Bool.false", &[], r("Bool.true"))],
            ),
        ),
        pi("b", r("Bool"), r("Bool")),
    )
}

fn add_def() -> Term {
    ann(
        lam(
            "a",
            lam(
                "b",
                case(
                    v(1),
                    konst(r("Nat")),
                    vec![
                        br("Nat.succ", &["pred"], succ(app(r("add"), vec![v(0), v(1)]))),
                        br("Nat.zero", &[], v(0)),
                    ],
                ),
            ),
        ),
        pi("a", r("Nat"), pi("b", r("Nat"), r("Nat"))),
    )
}

fn induction_def() -> Term {
    let p_ty = pi("n", r("Nat"), Term::Universe);
    let s_ty = pi(
        "n",
        r("Nat"),
        pi("p", app(v(1), vec![v(0)]), app(v(2), vec![succ(v(1))])),
    );
    let z_ty = app(v(1), vec![r("Nat.zero")]);
    let ty = pi("P", p_ty, pi("s", s_ty, pi("z", z_ty, pi("n", r("Nat"), app(v(3), vec![v(0)])))));
    let body = case(
        v(0),
        konst(app(v(4), vec![v(0)])),
        vec![
            br(
                "Nat.succ",
                &["pred"],
                app(v(3), vec![v(0), app(r("induction"), vec![v(4), v(3), v(2), v(0)])]),
            ),
            br("Nat.zero", &[], v(1)),
        ],
    );
    ann(lam("P", lam("s", lam("z", lam("n", body)))), ty)
}

fn head_motive() -> Term {
    lam(
        "A",
        lam(
            "n",
            lam(
                "self",
                case(
                    v(1),
                    konst(Term::Universe),
                    vec![br("Nat.succ", &["m"], v(3)), br("Nat.zero", &[], r("Unit"))],
                ),
            ),
        ),
    )
}

fn head_with(nil_body: Term) -> Term {
    head_with_bodies(v(1), nil_body)
}

fn head_with_bodies(cons_body: Term, nil_body: Term) -> Term {
    let vect_ty = app(r("Vect"), vec![v(1), succ(v(0))]);
    let ty = pi("A", Term::Universe, pi("n", r("Nat"), pi("vect", vect_ty, v(2))));
    let body = case(
        v(0),
        Some(head_motive()),
        vec![br("Vect.cons", &["A", "n", "x", "xs"], cons_body), br("Vect.nil", &["A"], nil_body)],
    );
    ann(lam("A", lam("n", lam("vect", body))), ty)
}

fn pred_def() -> Term {
    ann(
        lam(
            "a",
            case(
                v(0),
                konst(r("Nat")),
                vec![br("Nat.succ", &["pred"], v(0)), br("Nat.zero", &[], r("Nat.zero"))],
            ),
        ),
        pi("a", r("Nat"), r("Nat")),
    )
}

fn efq_def() -> Term {
    ann(
        lam("P", lam("f", case(v(0), Some(lam("self", v(2))), vec![]))),
        pi("P", Term::Universe, pi("f", r("Empty"), v(1))),
    )
}

fn tail_with(cons_body: Term) -> Term {
    let vect_ty = app(r("Vect"), vec![v(1), succ(v(0))]);
    let ty = pi(
        "A",
        Term::Universe,
        pi("n", r("Nat"), pi("vect", vect_ty, app(r("Vect"), vec![v(2), v(1)]))),
    );
    let motive = lam("A", lam("n", lam("self", app(r("Vect"), vec![v(2), app(r("pred"), vec![v(1)])]))));
    let body = case(
        v(0),
        Some(motive),
        vec![
            br("Vect.cons", &["A", "n", "x", "xs"], cons_body),
            br("Vect.nil", &["A"], app(r("Vect.nil"), vec![v(0)])),
        ],
    );
    ann(lam("A", lam("n", lam("vect", body))), ty)
}

fn the_def() -> Term {
    ann(lam("P", lam("x", v(0))), pi("P", Term::Universe, pi("x", v(0), v(1))))
}

fn prelude() -> Env {
    let entries = vec![
        data("Empty", vec![], &[]),
        data("Unit", vec![], &["Unit.void"]),
        ctor("Unit.void", "Unit", vec![], vec![]),
        data("Bool", vec![], &["Bool.true", "Bool.false"]),
        ctor("Bool.true", "Bool", vec![], vec![]),
        ctor("Bool.false", "Bool", vec![], vec![]),
        data("Nat", vec![], &["Nat.succ", "Nat.zero"]),
        ctor("Nat.succ", "Nat", vec![binder("n", r("Nat"))], vec![]),
        ctor("Nat.zero", "Nat", vec![], vec![]),
        data(
            "Eq",
            vec![binder("A", Term::Universe), binder("x", v(0)), binder("y", v(1))],
            &["Eq.refl"],
        ),
        ctor(
            "Eq.refl",
            "Eq",
            vec![binder("A", Term::Universe), binder("x", v(0))],
            vec![v(1), v(0), v(0)],
        ),
        data("Vect", vec![binder("A", Term::Universe), binder("n", r("Nat"))], &["Vect.cons", "Vect.nil"]),
        ctor(
            "Vect.cons",
            "Vect",
            vec![
                binder("A", Term::Universe),
                binder("n", r("Nat")),
                binder("x", v(1)),
                binder("xs", app(r("Vect"), vec![v(2), v(1)])),
            ],
            vec![v(3), succ(v(2))],
        ),
        ctor("Vect.nil", "Vect", vec![binder("A", Term::Universe)], vec![v(0), r("Nat.zero")]),
        def("the", the_def()),
        def("not", not_def()),
        def("add", add_def()),
        def("induction", induction_def()),
        def("pred", pred_def()),
        def("EFQ", efq_def()),
        def("head", head_with(r("Unit.void"))),
        def("tail", tail_with(v(0))),
        def("two", ann(num(2), r("Nat"))),
        def("four", ann(num(4), r("Nat"))),
    ];
    Env { entries }
}

fn same(a: &Term, b: &Term) -> bool {
    equal_terms(a, b)
}

fn norm(t: &Term, env: &Env) -> Term {
    match normalize_term(t, env, FUEL) {
        Ok(x) => x,
        Err(_) => panic!("normalization failed"),
    }
}

fn infer(t: &Term, env: &Env) -> Result<Term, Error> {
    infer_term(t, env, &Vec::new(), FUEL)
}

#[test]
fn every_definition_checks() {
    let env = prelude();
    for e in &env.entries {
        if let EntryKind::Definition { body } = &e.kind {
            let name = String::from_utf8(e.name.clone()).unwrap();
            assert!(infer(body, &env).is_ok(), "definition {} failed", name);
        }
    }
}

#[test]
fn booleans_not_true() {
    let env = prelude();
    let t = app(r("not"), vec![r("Bool.true")]);
    let ty = infer(&t, &env).ok().unwrap();
    assert!(same(&norm(&ty, &env), &r("Bool")));
    assert!(same(&norm(&t, &env), &r("Bool.false")));
    let t2 = app(r("not"), vec![r("Bool.false")]);
    assert!(same(&norm(&t2, &env), &r("Bool.true")));
}

#[test]
fn arithmetic_two_plus_two() {
    let env = prelude();
    let t = app(r("add"), vec![num(2), num(2)]);
    assert!(same(&norm(&t, &env), &num(4)));
    let ty = infer(&t, &env).ok().unwrap();
    assert!(same(&norm(&ty, &env), &r("Nat")));
    let z = app(r("add"), vec![num(0), num(3)]);
    assert!(same(&norm(&z, &env), &num(3)));
}

fn eq_proof(rhs: Term) -> Term {
    let claim = app(r("Eq"), vec![r("Nat"), app(r("add"), vec![r("two"), r("two")]), rhs]);
    app(r("the"), vec![claim, app(r("Eq.refl"), vec![r("Nat"), r("four")])])
}

#[test]
fn equality_two_plus_two_is_four() {
    let env = prelude();
    let ty = infer(&eq_proof(r("four")), &env).ok().unwrap();
    let want = app(r("Eq"), vec![r("Nat"), num(4), num(4)]);
    assert!(convertible_terms(&ty, &want, &env, FUEL));
}

#[test]
fn equality_mismatch_fails() {
    let env = prelude();
    match infer(&eq_proof(r("two")), &env) {
        Err(Error::TypeMismatch { .. }) => {},
        _ => panic!("expected a type mismatch"),
    }
}

#[test]
fn induction_matches_unfolding() {
    let env = prelude();
    let p = lam("n", r("Nat"));
    let s = lam("n", lam("p", app(r("add"), vec![v(0), r("two")])));
    let z = num(1);
    for k in 0..4 {
        let t = app(r("induction"), vec![copy_term(&p), copy_term(&s), copy_term(&z), num(k)]);
        let mut direct = copy_term(&z);
        for j in 0..k {
            direct = app(copy_term(&s), vec![num(j), direct]);
        }
        assert!(same(&norm(&t, &env), &norm(&direct, &env)));
        assert!(same(&norm(&t, &env), &num(1 + 2 * k)));
    }
}

#[test]
fn induction_type_follows_motive() {
    let env = prelude();
    let p = lam("n", r("Nat"));
    let s = lam("n", lam("p", succ(v(0))));
    let t = app(r("induction"), vec![p, s, r("Nat.zero"), r("two")]);
    let ty = infer(&t, &env).ok().unwrap();
    assert!(same(&norm(&ty, &env), &r("Nat")));
    assert!(same(&norm(&t, &env), &num(2)));
}

#[test]
fn indexed_motive_varies_per_branch() {
    let env = prelude();
    let vec1 = app(
        r("Vect.cons"),
        vec![r("Bool"), r("Nat.zero"), r("Bool.true"), app(r("Vect.nil"), vec![r("Bool")])],
    );
    let t = app(r("head"), vec![r("Bool"), r("Nat.zero"), vec1]);
    let ty = infer(&t, &env).ok().unwrap();
    assert!(same(&norm(&ty, &env), &r("Bool")));
    assert!(same(&norm(&t, &env), &r("Bool.true")));
}

#[test]
fn indexed_motive_wrong_branch_fails() {
    let env = prelude();
    match infer(&head_with(r("Bool.true")), &env) {
        Err(Error::TypeMismatch { expected, .. }) => {
            assert!(same(&norm(&expected, &env), &r("Unit")));
        },
        _ => panic!("expected a type mismatch in the nil branch"),
    }
}

fn not_with(bs: Vec<Branch>) -> Term {
    ann(lam("b", case(v(0), konst(r("Bool")), bs)), pi("b", r("Bool"), r("Bool")))
}

#[test]
fn missing_branch_fails() {
    let env = prelude();
    match infer(&not_with(vec![br("Bool.true", &[], r("Bool.false"))]), &env) {
        Err(Error::MissingBranch(n)) => assert_eq!(n, nm("Bool.false")),
        _ => panic!("expected a missing branch"),
    }
}

#[test]
fn unknown_branch_fails() {
    let env = prelude();
    let bs = vec![
        br("Bool.true", &[], r("Bool.false")),
        br("Bool.false", &[], r("Bool.true")),
        br("Nat.zero", &[], r("Bool.true")),
    ];
    match infer(&not_with(bs), &env) {
        Err(Error::UnknownBranch(n)) => assert_eq!(n, nm("Nat.zero")),
        _ => panic!("expected an unknown branch"),
    }
}

#[test]
fn duplicate_branch_fails() {
    let env = prelude();
    let bs = vec![
        br("Bool.true", &[], r("Bool.false")),
        br("Bool.true", &[], r("Bool.true")),
        br("Bool.false", &[], r("Bool.true")),
    ];
    match infer(&not_with(bs), &env) {
        Err(Error::DuplicateBranch(n)) => assert_eq!(n, nm("Bool.true")),
        _ => panic!("expected a duplicate branch"),
    }
}

#[test]
fn unknown_reference_fails() {
    let env = prelude();
    match infer(&r("nothing"), &env) {
        Err(Error::UnknownReference(n)) => assert_eq!(n, nm("nothing")),
        _ => panic!("expected an unknown reference"),
    }
}

#[test]
fn lambda_needs_annotation() {
    let env = prelude();
    assert!(matches!(infer(&lam("x", v(0)), &env), Err(Error::NeedsAnnotation)));
}

#[test]
fn universe_has_type_universe() {
    let env = prelude();
    let ty = infer(&Term::Universe, &env).ok().unwrap();
    assert!(same(&ty, &Term::Universe));
}

#[test]
fn applying_a_non_function_fails() {
    let env = prelude();
    let t = app(r("Bool.true"), vec![r("Bool.false")]);
    assert!(matches!(infer(&t, &env), Err(Error::NonFunctionApplied(_))));
}

#[test]
fn case_on_a_type_fails() {
    let env = prelude();
    let t = case(Term::Universe, None, vec![]);
    assert!(matches!(infer(&t, &env), Err(Error::NonDatatypeScrutinee(_))));
}

#[test]
fn branch_arity_mismatch_fails() {
    let env = prelude();
    let t = ann(
        lam(
            "a",
            case(
                v(0),
                konst(r("Nat")),
                vec![br("Nat.succ", &[], r("Nat.zero")), br("Nat.zero", &[], r("Nat.zero"))],
            ),
        ),
        pi("a", r("Nat"), r("Nat")),
    );
    assert!(matches!(infer(&t, &env), Err(Error::MotiveArityMismatch)));
}

#[test]
fn motive_free_case_takes_common_type() {
    let env = prelude();
    let t = ann(
        lam(
            "b",
            case(v(0), None, vec![br("Bool.true", &[], r("Nat.zero")), br("Bool.false", &[], num(1))]),
        ),
        pi("b", r("Bool"), r("Nat")),
    );
    assert!(infer(&t, &env).is_ok());
    let bad = ann(
        lam(
            "b",
            case(v(0), None, vec![br("Bool.true", &[], r("Nat.zero")), br("Bool.false", &[], r("Bool.true"))]),
        ),
        pi("b", r("Bool"), r("Nat")),
    );
    assert!(matches!(infer(&bad, &env), Err(Error::TypeMismatch { .. })));
}

#[test]
fn stuck_case_on_variable() {
    let env = prelude();
    let t = lam("b", app(r("not"), vec![v(0)]));
    let n = norm(&t, &env);
    match n {
        Term::Lambda { body, .. } => assert!(matches!(*body, Term::Case { .. })),
        _ => panic!("expected a lambda"),
    }
}

#[test]
fn non_terminating_runs_out_of_fuel() {
    let mut env = prelude();
    env.entries.push(def("loop", ann(r("loop"), r("Nat"))));
    assert!(matches!(whnf_term(&r("loop"), &env, 50), Err(Error::OutOfFuel)));
}

#[test]
fn normalize_is_deterministic_and_idempotent() {
    let env = prelude();
    let t = app(r("add"), vec![r("two"), app(r("add"), vec![num(1), r("two")])]);
    let a = norm(&t, &env);
    let b = norm(&t, &env);
    assert!(same(&a, &b));
    assert!(same(&norm(&a, &env), &a));
    assert!(same(&a, &num(5)));
}

#[test]
fn convertible_is_an_equivalence_on_examples() {
    let env = prelude();
    let a = app(r("add"), vec![r("two"), r("two")]);
    let b = r("four");
    let c = num(4);
    assert!(convertible_terms(&a, &a, &env, FUEL));
    assert!(convertible_terms(&a, &b, &env, FUEL));
    assert!(convertible_terms(&b, &a, &env, FUEL));
    assert!(convertible_terms(&b, &c, &env, FUEL));
    assert!(convertible_terms(&a, &c, &env, FUEL));
    assert!(!convertible_terms(&a, &r("two"), &env, FUEL));
}

#[test]
fn substitution_does_not_capture() {
    // Pi(x: Var(0), x) with the free variable 0 replaced by a term that is free Var(0) itself.
    let t = pi("x", v(0), v(0));
    let s = subst_term(&t, 0, &v(0)).unwrap();
    match s {
        Term::Pi { domain, codomain, .. } => {
            assert!(matches!(*domain, Term::Var { index: 0 }));
            assert!(matches!(*codomain, Term::Var { index: 0 }));
        },
        _ => panic!("expected a Pi"),
    }
    let u = subst_term(&lam("y", v(1)), 0, &v(5)).unwrap();
    assert!(same(&u, &lam("y", v(6))));
}

#[test]
fn substitution_lowers_outer_variables() {
    let t = app(v(0), vec![v(1), v(2)]);
    let s = subst_term(&t, 0, &r("Bool.true")).unwrap();
    assert!(same(&s, &app(r("Bool.true"), vec![v(0), v(1)])));
}

#[test]
fn shift_moves_only_free_variables() {
    let t = lam("x", app(v(0), vec![v(1)]));
    let s = shift_term(&t, 0, 3).unwrap();
    assert!(same(&s, &lam("x", app(v(0), vec![v(4)]))));
    assert!(shift_term(&v(u64::MAX), 0, 1).is_none());
}

#[test]
fn equality_ignores_binder_names() {
    assert!(same(&lam("x", v(0)), &lam("y", v(0))));
    assert!(!same(&lam("x", v(0)), &lam("x", v(1))));
}

#[test]
fn motive_free_case_rejects_field_dependent_type() {
    let env = prelude();
    // `case a | succ(p) => refl(Nat, p) | zero => refl(Nat, zero)` has branch types that
    // mention the field `p`, so it needs a motive.
    let t = ann(
        lam(
            "a",
            case(
                v(0),
                None,
                vec![
                    br("Nat.succ", &["p"], app(r("Eq.refl"), vec![r("Nat"), v(0)])),
                    br("Nat.zero", &[], app(r("Eq.refl"), vec![r("Nat"), r("Nat.zero")])),
                ],
            ),
        ),
        pi("a", r("Nat"), Term::Universe),
    );
    assert!(matches!(infer(&t, &env), Err(Error::NeedsAnnotation)));
}

#[test]
fn mentions_finds_only_free_variables() {
    assert!(mentions_term(&v(0), 0, 1));
    assert!(!mentions_term(&lam("x", v(0)), 0, 1));
    assert!(mentions_term(&lam("x", v(1)), 0, 1));
    assert!(!mentions_term(&v(2), 0, 2));
}

#[test]
fn case_without_matching_branch_is_internal_error() {
    let env = prelude();
    let t = case(r("Bool.true"), None, vec![br("Bool.false", &[], r("Bool.true"))]);
    assert!(matches!(whnf_term(&t, &env, FUEL), Err(Error::InternalReductionError)));
}

#[test]
fn index_overflow_is_reported() {
    let env = prelude();
    let t = app(lam("x", lam("y", v(1))), vec![v(u64::MAX)]);
    assert!(matches!(whnf_term(&t, &env, FUEL), Err(Error::IndexOverflow)));
}

#[test]
fn whnf_stops_at_the_head() {
    let env = prelude();
    // succ(add(1, 1)) is already in weak-head normal form: its argument stays unreduced.
    let t = succ(app(r("add"), vec![num(1), num(1)]));
    let w = whnf_term(&t, &env, FUEL).ok().unwrap();
    assert!(same(&w, &t));
    let n = norm(&t, &env);
    assert!(same(&n, &num(3)));
}

#[test]
fn tail_checks_each_branch_against_its_motive() {
    let env = prelude();
    let vec1 = app(
        r("Vect.cons"),
        vec![r("Bool"), r("Nat.zero"), r("Bool.true"), app(r("Vect.nil"), vec![r("Bool")])],
    );
    let t = app(r("tail"), vec![r("Bool"), r("Nat.zero"), vec1]);
    let ty = infer(&t, &env).ok().unwrap();
    assert!(same(&norm(&ty, &env), &app(r("Vect"), vec![r("Bool"), r("Nat.zero")])));
    assert!(same(&norm(&t, &env), &app(r("Vect.nil"), vec![r("Bool")])));
}

#[test]
fn tail_with_wrong_cons_body_fails() {
    let env = prelude();
    assert!(matches!(infer(&tail_with(v(1)), &env), Err(Error::TypeMismatch { .. })));
}

#[test]
fn head_with_wrong_cons_body_fails() {
    let env = prelude();
    match infer(&head_with_bodies(r("Unit.void"), r("Unit.void")), &env) {
        Err(Error::TypeMismatch { found, .. }) => assert!(same(&norm(&found, &env), &r("Unit"))),
        _ => panic!("expected a type mismatch in the cons branch"),
    }
}

#[test]
fn ex_falso_checks_without_branches() {
    let env = prelude();
    let ty = infer(&r("EFQ"), &env).ok().unwrap();
    assert!(same(&ty, &pi("P", Term::Universe, pi("f", r("Empty"), v(1)))));
}
