use vstd::prelude::*;
use crate::term::{Arm, Expr};
use crate::env::{Entry, def_body, is_ctor};
use crate::reduce::{whnf, normalize, normalize_arms, normalize_motive, spine_head};

verus! {

/// The larger of two naturals.
pub open spec fn max_nat(a: nat, b: nat) -> nat {
    if a >= b { a } else { b }
}

/// The height of the part of a term that normalization walks.
pub open spec fn visit_height(e: Expr) -> nat
    decreases e,
{
    match e {
        Expr::Pi(a, b) => 1 + max_nat(visit_height(*a), visit_height(*b)),
        Expr::Lambda(b) => 1 + visit_height(*b),
        Expr::Apply(f, a) => 1 + max_nat(visit_height(*f), visit_height(*a)),
        Expr::Ann(x, t) => 1 + max_nat(visit_height(*x), visit_height(*t)),
        Expr::Case(s, m, arms) => 1 + max_nat(
            max_nat(
                visit_height(*s),
                match m {
                    Some(x) => visit_height(*x),
                    None => 0,
                },
            ),
            arms_height(arms),
        ),
        _ => 1,
    }
}

/// The largest `visit_height` of the branch bodies.
pub open spec fn arms_height(arms: Seq<Arm>) -> nat
    decreases arms,
{
    if arms.len() == 0 {
        0
    } else {
        max_nat(visit_height(arms[0].body), arms_height(arms.drop_first()))
    }
}

/// Whether every branch body is a normal form.
pub open spec fn arms_normal(arms: Seq<Arm>, es: Seq<Entry>) -> bool
    decreases arms,
{
    if arms.len() == 0 {
        true
    } else {
        normal(arms[0].body, es) && arms_normal(arms.drop_first(), es)
    }
}

/// Whether the spine of `s` is headed by a constructor.
pub open spec fn ctor_headed(s: Expr, es: Seq<Entry>) -> bool {
    match spine_head(s) {
        Expr::Ref(c) => is_ctor(es, c),
        _ => false,
    }
}

/// Whether `e` is its own weak-head normal form: no definition to unfold, no
/// beta redex or case on a constructor at the head.
pub open spec fn whnf_stable(e: Expr, es: Seq<Entry>) -> bool
    decreases e,
{
    match e {
        Expr::Ref(n) => def_body(es, n) is None,
        Expr::Ann(_, _) => false,
        Expr::Apply(f, _) => whnf_stable(*f, es) && !(*f is Lambda),
        Expr::Case(s, _, _) => whnf_stable(*s, es) && !ctor_headed(*s, es),
        _ => true,
    }
}

/// Whether `e` is a normal form: stable at the head and in every walked child.
pub open spec fn normal(e: Expr, es: Seq<Entry>) -> bool
    decreases e,
{
    match e {
        Expr::Ref(n) => def_body(es, n) is None,
        Expr::Ann(_, _) => false,
        Expr::Pi(a, b) => normal(*a, es) && normal(*b, es),
        Expr::Lambda(b) => normal(*b, es),
        Expr::Apply(f, a) => normal(*f, es) && normal(*a, es) && !(*f is Lambda),
        Expr::Case(s, m, arms) => normal(*s, es) && !ctor_headed(*s, es) && arms_normal(arms, es)
            && match m {
            Some(x) => normal(*x, es),
            None => true,
        },
        _ => true,
    }
}

/// A normal form is stable at the head.
pub proof fn lemma_normal_stable(e: Expr, es: Seq<Entry>)
    requires
        normal(e, es),
    ensures
        whnf_stable(e, es),
    decreases e,
{
    match e {
        Expr::Apply(f, _) => lemma_normal_stable(*f, es),
        Expr::Case(s, _, _) => lemma_normal_stable(*s, es),
        _ => {},
    }
}

/// `whnf` leaves a stable term alone, given fuel for its spine.
pub proof fn lemma_whnf_stable_fixed(e: Expr, es: Seq<Entry>, fuel: nat)
    requires
        whnf_stable(e, es),
        fuel >= visit_height(e),
    ensures
        whnf(e, es, fuel) == Ok::<Expr, crate::error::Error>(e),
    decreases e,
{
    match e {
        Expr::Apply(f, _) => lemma_whnf_stable_fixed(*f, es, (fuel - 1) as nat),
        Expr::Case(s, _, _) => lemma_whnf_stable_fixed(*s, es, (fuel - 1) as nat),
        _ => {},
    }
}

/// On a stable term `whnf` either runs out of fuel or returns the term.
pub proof fn lemma_whnf_stable_result(e: Expr, es: Seq<Entry>, fuel: nat)
    requires
        whnf_stable(e, es),
        whnf(e, es, fuel) is Ok,
    ensures
        whnf(e, es, fuel) == Ok::<Expr, crate::error::Error>(e),
    decreases e,
{
    match e {
        Expr::Apply(f, _) => lemma_whnf_stable_result(*f, es, (fuel - 1) as nat),
        Expr::Case(s, _, _) => lemma_whnf_stable_result(*s, es, (fuel - 1) as nat),
        _ => {},
    }
}

/// What `whnf` returns is stable.
pub proof fn lemma_whnf_result_stable(e: Expr, es: Seq<Entry>, fuel: nat)
    requires
        whnf(e, es, fuel) is Ok,
    ensures
        whnf_stable(whnf(e, es, fuel)->Ok_0, es),
    decreases fuel,
{
    if fuel > 0 {
        let f = (fuel - 1) as nat;
        match e {
            Expr::Ref(n) => {
                if def_body(es, n) is Some {
                    lemma_whnf_result_stable(def_body(es, n)->0, es, f);
                }
            },
            Expr::Ann(x, _) => lemma_whnf_result_stable(*x, es, f),
            Expr::Apply(g, a) => {
                lemma_whnf_result_stable(*g, es, f);
                let h = whnf(*g, es, f)->Ok_0;
                if let Expr::Lambda(b) = h {
                    lemma_whnf_result_stable(crate::subst::subst(*b, 0, *a)->0, es, f);
                }
            },
            Expr::Case(s, m, arms) => {
                lemma_whnf_result_stable(*s, es, f);
                let h = whnf(*s, es, f)->Ok_0;
                if ctor_headed(h, es) {
                    let c = spine_head(h)->Ref_0;
                    let k = crate::reduce::find_arm(arms, c, 0)->0;
                    lemma_whnf_result_stable(
                        crate::reduce::instantiate(arms[k].body, crate::reduce::spine_args(h))->0,
                        es,
                        f,
                    );
                }
            },
            _ => {},
        }
    }
}


/// `normalize` leaves a normal form alone, given fuel for its height.
pub proof fn lemma_normalize_normal_fixed(e: Expr, es: Seq<Entry>, fuel: nat)
    requires
        normal(e, es),
        fuel >= visit_height(e),
    ensures
        normalize(e, es, fuel) == Ok::<Expr, crate::error::Error>(e),
    decreases e,
{
    lemma_normal_stable(e, es);
    lemma_whnf_stable_fixed(e, es, fuel);
    let f = (fuel - 1) as nat;
    match e {
        Expr::Pi(a, b) => {
            lemma_normalize_normal_fixed(*a, es, f);
            lemma_normalize_normal_fixed(*b, es, f);
        },
        Expr::Lambda(b) => lemma_normalize_normal_fixed(*b, es, f),
        Expr::Apply(g, a) => {
            lemma_normalize_normal_fixed(*g, es, f);
            lemma_normalize_normal_fixed(*a, es, f);
        },
        Expr::Case(s, m, arms) => {
            lemma_normalize_normal_fixed(*s, es, f);
            if let Some(x) = m {
                lemma_normalize_normal_fixed(*x, es, f);
            }
            assert(normalize_motive(m, es, f) == Ok::<Option<Box<Expr>>, crate::error::Error>(m));
            lemma_normalize_arms_fixed(arms, es, f);
            assert(normalize_arms(arms, es, f) == Ok::<Seq<Arm>, crate::error::Error>(arms));
        },
        _ => {},
    }
}

/// `normalize_arms` leaves normal branch bodies alone.
pub proof fn lemma_normalize_arms_fixed(arms: Seq<Arm>, es: Seq<Entry>, fuel: nat)
    requires
        arms_normal(arms, es),
        fuel >= arms_height(arms),
    ensures
        normalize_arms(arms, es, fuel) == Ok::<Seq<Arm>, crate::error::Error>(arms),
    decreases arms,
{
    if arms.len() > 0 {
        lemma_normalize_normal_fixed(arms[0].body, es, fuel);
        lemma_normalize_arms_fixed(arms.drop_first(), es, fuel);
        let a = Arm { ctor: arms[0].ctor, arity: arms[0].arity, body: arms[0].body };
        assert(a == arms[0]);
        assert(seq![a] + arms.drop_first() =~= arms);
        assert(normalize(arms[0].body, es, fuel) == Ok::<Expr, crate::error::Error>(arms[0].body));
        assert(normalize_arms(arms.drop_first(), es, fuel) == Ok::<Seq<Arm>, crate::error::Error>(
            arms.drop_first(),
        ));
    } else {
        assert(arms =~= Seq::<Arm>::empty());
    }
}

/// What `normalize_arms` returns is normal, no higher than the fuel spent.
pub proof fn lemma_normalize_arms_result(arms: Seq<Arm>, es: Seq<Entry>, fuel: nat)
    requires
        normalize_arms(arms, es, fuel) is Ok,
    ensures
        arms_normal(normalize_arms(arms, es, fuel)->Ok_0, es),
        arms_height(normalize_arms(arms, es, fuel)->Ok_0) <= fuel,
    decreases fuel, arms.len() + 1,
{
    if arms.len() > 0 {
        lemma_normalize_result_normal(arms[0].body, es, fuel);
        lemma_normalize_arms_result(arms.drop_first(), es, fuel);
        let r = normalize_arms(arms, es, fuel)->Ok_0;
        let rest = normalize_arms(arms.drop_first(), es, fuel)->Ok_0;
        assert(r.drop_first() =~= rest);
    }
}

/// Normalizing a stable term keeps its outermost form, and a constructor at
/// the head of its spine stays (or stays absent).
pub proof fn lemma_normalize_keeps_head(s: Expr, es: Seq<Entry>, fuel: nat)
    requires
        whnf_stable(s, es),
        normalize(s, es, fuel) is Ok,
    ensures
        (normalize(s, es, fuel)->Ok_0 is Lambda) == (s is Lambda),
        ctor_headed(normalize(s, es, fuel)->Ok_0, es) == ctor_headed(s, es),
    decreases s,
{
    lemma_whnf_stable_result(s, es, fuel);
    let f = (fuel - 1) as nat;
    match s {
        Expr::Apply(g, a) => {
            lemma_normalize_keeps_head(*g, es, f);
        },
        _ => {},
    }
}

/// What `normalize` returns is a normal form no higher than the fuel spent.
pub proof fn lemma_normalize_result_normal(e: Expr, es: Seq<Entry>, fuel: nat)
    requires
        normalize(e, es, fuel) is Ok,
    ensures
        normal(normalize(e, es, fuel)->Ok_0, es),
        visit_height(normalize(e, es, fuel)->Ok_0) <= fuel,
    decreases fuel, 0nat,
{
    let f = (fuel - 1) as nat;
    lemma_whnf_result_stable(e, es, fuel);
    let h = whnf(e, es, fuel)->Ok_0;
    match h {
        Expr::Pi(a, b) => {
            lemma_normalize_result_normal(*a, es, f);
            lemma_normalize_result_normal(*b, es, f);
        },
        Expr::Lambda(b) => lemma_normalize_result_normal(*b, es, f),
        Expr::Apply(g, a) => {
            lemma_normalize_result_normal(*g, es, f);
            lemma_normalize_result_normal(*a, es, f);
            lemma_normalize_keeps_head(*g, es, f);
        },
        Expr::Case(s, m, arms) => {
            lemma_normalize_result_normal(*s, es, f);
            lemma_normalize_keeps_head(*s, es, f);
            assert(normalize_motive(m, es, f) is Ok);
            if let Some(x) = m {
                assert(normalize(*x, es, f) is Ok);
                lemma_normalize_result_normal(*x, es, f);
            }
            assert(normalize_arms(arms, es, f) is Ok);
            lemma_normalize_arms_result(arms, es, f);
        },
        _ => {},
    }
}

/// Normalization is idempotent: normalizing a normal form, with the same fuel,
/// returns it unchanged.
pub proof fn lemma_normalize_idempotent(t: Expr, es: Seq<Entry>, fuel: nat)
    requires
        normalize(t, es, fuel) is Ok,
    ensures
        normalize(normalize(t, es, fuel)->Ok_0, es, fuel) == normalize(t, es, fuel),
{
    lemma_normalize_result_normal(t, es, fuel);
    lemma_normalize_normal_fixed(normalize(t, es, fuel)->Ok_0, es, fuel);
}

} // verus!
