use vstd::prelude::*;
use crate::term::{Expr, Term};
use crate::subst::subst;
use crate::env::Entry;
use crate::reduce::{normalize, convertible};

verus! {

/// Normalization is a function of the term's model: two terms that differ only
/// in binder names (or are the same term, normalized twice) normalize alike.
pub proof fn lemma_normalize_deterministic(t1: Term, t2: Term, es: Seq<Entry>, fuel: nat)
    requires
        t1@ == t2@,
    ensures
        normalize(t1@, es, fuel) == normalize(t2@, es, fuel),
{
}

/// Convertibility is reflexive on every term that normalizes.
pub proof fn lemma_convertible_reflexive(a: Expr, es: Seq<Entry>, fuel: nat)
    requires
        normalize(a, es, fuel) is Ok,
    ensures
        convertible(a, a, es, fuel),
{
}

/// Convertibility is symmetric.
pub proof fn lemma_convertible_symmetric(a: Expr, b: Expr, es: Seq<Entry>, fuel: nat)
    requires
        convertible(a, b, es, fuel),
    ensures
        convertible(b, a, es, fuel),
{
}

/// Convertibility is transitive.
pub proof fn lemma_convertible_transitive(a: Expr, b: Expr, c: Expr, es: Seq<Entry>, fuel: nat)
    requires
        convertible(a, b, es, fuel),
        convertible(b, c, es, fuel),
    ensures
        convertible(a, c, es, fuel),
{
}

/// Substituting into `Pi(x: d, x)` never captures: whatever the value `v` and
/// whatever its free variables, the codomain still refers to the `Pi`'s own
/// binder and not to `v`.
pub proof fn lemma_subst_pi_no_capture(d: Expr, j: nat, v: Expr)
    requires
        subst(Expr::Pi(Box::new(d), Box::new(Expr::Var(0))), j, v) is Some,
    ensures
        subst(Expr::Pi(Box::new(d), Box::new(Expr::Var(0))), j, v) matches Some(Expr::Pi(d2, c2))
            && *c2 == Expr::Var(0) && Some(*d2) == subst(d, j, v),
{
    assert(subst(Expr::Var(0), j + 1, v) == Some(Expr::Var(0)));
}

/// Substituting into `Pi(x: d, c)`, for any codomain `c`, substitutes into the
/// domain at the same variable and into `c` one binder deeper, so no variable
/// of `v` can be captured by `x`: an occurrence of `x` seen under `t` further
/// binders of `c` is `Var(t)`, below the substituted index, and it stays as it
/// is, while the free variables of `v` are shifted past `x` and every binder
/// crossed.
pub proof fn lemma_subst_pi_keeps_binder(d: Expr, c: Expr, j: nat, v: Expr, t: nat)
    requires
        j + 1 <= crate::subst::index_limit(),
    ensures
        subst(Expr::Pi(Box::new(d), Box::new(c)), j, v) == match (
            subst(d, j, v),
            subst(c, j + 1, v),
        ) {
            (Some(d2), Some(c2)) => Some(Expr::Pi(Box::new(d2), Box::new(c2))),
            _ => None,
        },
        subst(Expr::Var(t), j + 1 + t, v) == Some(Expr::Var(t)),
{
}

} // verus!
