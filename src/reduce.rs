use vstd::prelude::*;
use crate::term::{Expr, Arm, Term, Branch, arms_view, arm_of, lemma_arms_view_index, lemma_arms_view_push};
use crate::subst::{subst, subst_term, copy_term, copy_branches};
use crate::env::{Entry, Env, EntryKind, def_body, is_ctor, same_name};
use crate::error::Error;

verus! {

broadcast use {
    vstd::std_specs::vec::axiom_vec_decreases_to_view,
    vstd::std_specs::vec::axiom_vec_index_decreases,
    vstd::seq::axiom_seq_index_decreases,
};

/// The head of an application spine.
pub open spec fn spine_head(e: Expr) -> Expr
    decreases e,
{
    match e {
        Expr::Apply(f, _) => spine_head(*f),
        _ => e,
    }
}

/// The arguments of an application spine, first argument first.
pub open spec fn spine_args(e: Expr) -> Seq<Expr>
    decreases e,
{
    match e {
        Expr::Apply(f, a) => spine_args(*f).push(*a),
        _ => Seq::empty(),
    }
}

/// The position of the first arm, from `i` on, that names `c`.
pub open spec fn find_arm(arms: Seq<Arm>, c: Seq<u8>, i: int) -> Option<int>
    decreases arms.len() - i,
{
    if i < 0 || i >= arms.len() {
        None
    } else if arms[i].ctor == c {
        Some(i)
    } else {
        find_arm(arms, c, i + 1)
    }
}

/// Replaces the innermost `args.len()` variables of `body` (its fields, first
/// field outermost) by `args`.
pub open spec fn instantiate(body: Expr, args: Seq<Expr>) -> Option<Expr>
    decreases args.len(),
{
    if args.len() == 0 {
        Some(body)
    } else {
        match subst(body, (args.len() - 1) as nat, args[0]) {
            Some(b) => instantiate(b, args.drop_first()),
            None => None,
        }
    }
}

/// Weak-head normal form within `fuel` steps: unfolds definitions, contracts
/// beta redexes and cases on constructor-headed scrutinees.
pub open spec fn whnf(e: Expr, es: Seq<Entry>, fuel: nat) -> Result<Expr, Error>
    decreases fuel,
{
    if fuel == 0 {
        Err(Error::OutOfFuel)
    } else {
        match e {
            Expr::Ref(n) => match def_body(es, n) {
                Some(b) => whnf(b, es, (fuel - 1) as nat),
                None => Ok(e),
            },
            Expr::Ann(x, _) => whnf(*x, es, (fuel - 1) as nat),
            Expr::Apply(f, a) => match whnf(*f, es, (fuel - 1) as nat) {
                Ok(h) => match h {
                    Expr::Lambda(b) => match subst(*b, 0, *a) {
                        Some(r) => whnf(r, es, (fuel - 1) as nat),
                        None => Err(Error::IndexOverflow),
                    },
                    _ => Ok(Expr::Apply(Box::new(h), a)),
                },
                Err(x) => Err(x),
            },
            Expr::Case(s, m, arms) => match whnf(*s, es, (fuel - 1) as nat) {
                Ok(h) => match spine_head(h) {
                    Expr::Ref(c) => if is_ctor(es, c) {
                        match find_arm(arms, c, 0) {
                            Some(k) => if arms[k].arity != spine_args(h).len() {
                                Err(Error::InternalReductionError)
                            } else {
                                match instantiate(arms[k].body, spine_args(h)) {
                                    Some(r) => whnf(r, es, (fuel - 1) as nat),
                                    None => Err(Error::IndexOverflow),
                                }
                            },
                            None => Err(Error::InternalReductionError),
                        }
                    } else {
                        Ok(Expr::Case(Box::new(h), m, arms))
                    },
                    _ => Ok(Expr::Case(Box::new(h), m, arms)),
                },
                Err(x) => Err(x),
            },
            _ => Ok(e),
        }
    }
}

/// The model of a reduction result.
pub open spec fn res_view(r: Result<Term, Error>) -> Result<Expr, Error> {
    match r {
        Ok(t) => Ok(t@),
        Err(x) => Err(x),
    }
}

/// The models of a sequence of terms.
pub open spec fn terms_view(ts: Seq<Term>) -> Seq<Expr> {
    Seq::new(ts.len(), |i: int| ts[i]@)
}

/// The head of `t`'s application spine.
pub fn head_of(t: &Term) -> (r: &Term)
    ensures
        r@ == spine_head(t@),
    decreases t,
{
    match t {
        Term::Apply { function, .. } => head_of(function),
        _ => t,
    }
}

/// Copies of the arguments of `t`'s application spine.
pub fn args_of(t: &Term) -> (r: Vec<Term>)
    ensures
        terms_view(r@) == spine_args(t@),
    decreases t,
{
    match t {
        Term::Apply { function, argument } => {
            let mut r = args_of(function);
            let ghost old_r = r@;
            r.push(copy_term(argument));
            assert(terms_view(r@) =~= terms_view(old_r).push(argument@));
            r
        },
        _ => {
            let r: Vec<Term> = Vec::new();
            assert(terms_view(r@) =~= Seq::<Expr>::empty());
            r
        },
    }
}

/// The position of the first branch naming `c`.
pub fn find_branch(branches: &Vec<Branch>, c: &Vec<u8>) -> (r: Option<usize>)
    ensures
        match r {
            Some(k) => k < branches.len() && find_arm(arms_view(branches@), c@, 0) == Some(k as int),
            None => find_arm(arms_view(branches@), c@, 0) is None,
        },
{
    proof {
        lemma_arms_view_index(branches@);
    }
    let mut i: usize = 0;
    while i < branches.len()
        invariant
            i <= branches.len(),
            arms_view(branches@).len() == branches.len(),
            forall|k: int| 0 <= k < branches.len() ==> #[trigger] arms_view(branches@)[k] == arm_of(branches@[k]),
            find_arm(arms_view(branches@), c@, 0) == find_arm(arms_view(branches@), c@, i as int),
        decreases branches.len() - i,
    {
        if same_name(&branches[i].ctor, c) {
            return Some(i);
        }
        i = i + 1;
    }
    None
}

/// Replaces the innermost `args.len()` variables of `body` by `args`.
pub fn instantiate_term(body: &Term, args: &Vec<Term>) -> (r: Option<Term>)
    ensures
        crate::subst::opt_view(r) == instantiate(body@, terms_view(args@)),
{
    let n = args.len();
    let mut cur = copy_term(body);
    let mut i: usize = 0;
    assert(terms_view(args@).subrange(0, n as int) =~= terms_view(args@));
    while i < n
        invariant
            i <= n,
            n == args.len(),
            instantiate(body@, terms_view(args@)) == instantiate(
                cur@,
                terms_view(args@).subrange(i as int, n as int),
            ),
        decreases n - i,
    {
        let ghost rest = terms_view(args@).subrange(i as int, n as int);
        assert(rest[0] == args@[i as int]@);
        assert(rest.drop_first() =~= terms_view(args@).subrange(i + 1, n as int));
        let next = subst_term(&cur, (n - 1 - i) as u64, &args[i]);
        match next {
            Some(x) => {
                cur = x;
            },
            None => {
                return None;
            },
        }
        i = i + 1;
    }
    assert(terms_view(args@).subrange(n as int, n as int) =~= Seq::<Expr>::empty());
    Some(cur)
}


/// Copies an optional motive.
pub fn copy_motive(m: &Option<Box<Term>>) -> (r: Option<Box<Term>>)
    ensures
        match (r, *m) {
            (Some(x), Some(y)) => x@ == y@,
            (None, None) => true,
            _ => false,
        },
{
    match m {
        Some(x) => Some(Box::new(copy_term(x))),
        None => None,
    }
}

/// Reduces `t` to weak-head normal form within `fuel` steps.
pub fn whnf_term(t: &Term, env: &Env, fuel: u64) -> (r: Result<Term, Error>)
    ensures
        res_view(r) == whnf(t@, env.entries@, fuel as nat),
    decreases fuel,
{
    if fuel == 0 {
        return Err(Error::OutOfFuel);
    }
    match t {
        Term::Ref { name } => {
            match env.lookup(name) {
                Some(i) => match &env.entries[i].kind {
                    EntryKind::Definition { body } => whnf_term(body, env, fuel - 1),
                    _ => Ok(Term::Ref { name: crate::subst::copy_name(name) }),
                },
                None => Ok(Term::Ref { name: crate::subst::copy_name(name) }),
            }
        },
        Term::Ann { term, .. } => whnf_term(term, env, fuel - 1),
        Term::Apply { function, argument } => {
            let h = match whnf_term(function, env, fuel - 1) {
                Ok(h) => h,
                Err(x) => return Err(x),
            };
            match h {
                Term::Lambda { name, body } => match subst_term(&body, 0, argument) {
                    Some(r) => whnf_term(&r, env, fuel - 1),
                    None => Err(Error::IndexOverflow),
                },
                other => Ok(
                    Term::Apply { function: Box::new(other), argument: Box::new(copy_term(argument)) },
                ),
            }
        },
        Term::Case { scrutinee, motive, branches } => {
            let h = match whnf_term(scrutinee, env, fuel - 1) {
                Ok(h) => h,
                Err(x) => return Err(x),
            };
            let ctor: Option<Vec<u8>> = match head_of(&h) {
                Term::Ref { name } => if env.is_ctor_name(name) {
                    Some(crate::subst::copy_name(name))
                } else {
                    None
                },
                _ => None,
            };
            match ctor {
                None => Ok(
                    Term::Case {
                        scrutinee: Box::new(h),
                        motive: copy_motive(motive),
                        branches: copy_branches(branches),
                    },
                ),
                Some(c) => {
                    proof {
                        lemma_arms_view_index(branches@);
                    }
                    match find_branch(branches, &c) {
                        None => Err(Error::InternalReductionError),
                        Some(k) => {
                            let args = args_of(&h);
                            if branches[k].fields.len() != args.len() {
                                Err(Error::InternalReductionError)
                            } else {
                                match instantiate_term(&branches[k].body, &args) {
                                    Some(r) => whnf_term(&r, env, fuel - 1),
                                    None => Err(Error::IndexOverflow),
                                }
                            }
                        },
                    }
                },
            }
        },
        Term::Universe => Ok(Term::Universe),
        Term::Var { index } => Ok(Term::Var { index: *index }),
        _ => Ok(copy_term(t)),
    }
}


/// Full normal form within `fuel` steps: the weak-head normal form with every
/// structural child normalized, the branch bodies of a stuck case included.
pub open spec fn normalize(e: Expr, es: Seq<Entry>, fuel: nat) -> Result<Expr, Error>
    decreases fuel, 0nat,
{
    if fuel == 0 {
        Err(Error::OutOfFuel)
    } else {
        let f = (fuel - 1) as nat;
        match whnf(e, es, fuel) {
            Err(x) => Err(x),
            Ok(h) => match h {
                Expr::Pi(a, b) => match normalize(*a, es, f) {
                    Err(x) => Err(x),
                    Ok(a2) => match normalize(*b, es, f) {
                        Err(x) => Err(x),
                        Ok(b2) => Ok(Expr::Pi(Box::new(a2), Box::new(b2))),
                    },
                },
                Expr::Lambda(b) => match normalize(*b, es, f) {
                    Err(x) => Err(x),
                    Ok(b2) => Ok(Expr::Lambda(Box::new(b2))),
                },
                Expr::Apply(g, a) => match normalize(*g, es, f) {
                    Err(x) => Err(x),
                    Ok(g2) => match normalize(*a, es, f) {
                        Err(x) => Err(x),
                        Ok(a2) => Ok(Expr::Apply(Box::new(g2), Box::new(a2))),
                    },
                },
                Expr::Case(s, m, arms) => match normalize(*s, es, f) {
                    Err(x) => Err(x),
                    Ok(s2) => match normalize_motive(m, es, f) {
                        Err(x) => Err(x),
                        Ok(m2) => match normalize_arms(arms, es, f) {
                            Err(x) => Err(x),
                            Ok(arms2) => Ok(Expr::Case(Box::new(s2), m2, arms2)),
                        },
                    },
                },
                _ => Ok(h),
            },
        }
    }
}

/// `normalize` on an optional motive.
pub open spec fn normalize_motive(m: Option<Box<Expr>>, es: Seq<Entry>, fuel: nat) -> Result<
    Option<Box<Expr>>,
    Error,
>
    decreases fuel, 1nat,
{
    match m {
        None => Ok(None),
        Some(x) => match normalize(*x, es, fuel) {
            Err(e) => Err(e),
            Ok(x2) => Ok(Some(Box::new(x2))),
        },
    }
}

/// `normalize` on each branch body, in order; the first failure is reported.
pub open spec fn normalize_arms(arms: Seq<Arm>, es: Seq<Entry>, fuel: nat) -> Result<Seq<Arm>, Error>
    decreases fuel, arms.len() + 1,
{
    if arms.len() == 0 {
        Ok(Seq::empty())
    } else {
        match normalize(arms[0].body, es, fuel) {
            Err(x) => Err(x),
            Ok(b) => match normalize_arms(arms.drop_first(), es, fuel) {
                Err(x) => Err(x),
                Ok(rest) => Ok(
                    seq![Arm { ctor: arms[0].ctor, arity: arms[0].arity, body: b }] + rest,
                ),
            },
        }
    }
}

/// Definitional equality: both sides normalize within `fuel` steps, to the
/// same term up to the names of bound variables.
pub open spec fn convertible(a: Expr, b: Expr, es: Seq<Entry>, fuel: nat) -> bool {
    match (normalize(a, es, fuel), normalize(b, es, fuel)) {
        (Ok(x), Ok(y)) => x == y,
        _ => false,
    }
}

/// Normalizes `t` within `fuel` steps.
pub fn normalize_term(t: &Term, env: &Env, fuel: u64) -> (r: Result<Term, Error>)
    ensures
        res_view(r) == normalize(t@, env.entries@, fuel as nat),
    decreases fuel, 0nat,
{
    if fuel == 0 {
        return Err(Error::OutOfFuel);
    }
    let f = fuel - 1;
    let h = match whnf_term(t, env, fuel) {
        Ok(h) => h,
        Err(x) => return Err(x),
    };
    match h {
        Term::Pi { name, domain, codomain } => {
            let a = match normalize_term(&domain, env, f) {
                Ok(a) => a,
                Err(x) => return Err(x),
            };
            let b = match normalize_term(&codomain, env, f) {
                Ok(b) => b,
                Err(x) => return Err(x),
            };
            Ok(Term::Pi { name, domain: Box::new(a), codomain: Box::new(b) })
        },
        Term::Lambda { name, body } => {
            let b = match normalize_term(&body, env, f) {
                Ok(b) => b,
                Err(x) => return Err(x),
            };
            Ok(Term::Lambda { name, body: Box::new(b) })
        },
        Term::Apply { function, argument } => {
            let g = match normalize_term(&function, env, f) {
                Ok(g) => g,
                Err(x) => return Err(x),
            };
            let a = match normalize_term(&argument, env, f) {
                Ok(a) => a,
                Err(x) => return Err(x),
            };
            Ok(Term::Apply { function: Box::new(g), argument: Box::new(a) })
        },
        Term::Case { scrutinee, motive, branches } => {
            let s = match normalize_term(&scrutinee, env, f) {
                Ok(s) => s,
                Err(x) => return Err(x),
            };
            let ghost mv = match &motive {
                Some(x) => Some(Box::new(x@)),
                None => None,
            };
            let m2: Option<Box<Term>> = match motive {
                None => None,
                Some(mm) => match normalize_term(&mm, env, f) {
                    Ok(x) => Some(Box::new(x)),
                    Err(x) => {
                        assert(normalize_motive(mv, env.entries@, f as nat) == Err::<Option<Box<Expr>>, Error>(x));
                        return Err(x);
                    },
                },
            };
            assert(normalize_motive(mv, env.entries@, f as nat) == Ok::<Option<Box<Expr>>, Error>(
                match m2 {
                    Some(x) => Some(Box::new(x@)),
                    None => None,
                },
            ));
            let bs = match normalize_branches(&branches, env, f) {
                Ok(bs) => bs,
                Err(x) => return Err(x),
            };
            Ok(Term::Case { scrutinee: Box::new(s), motive: m2, branches: bs })
        },
        other => Ok(other),
    }
}

/// Normalizes the body of each branch, in order.
pub fn normalize_branches(branches: &Vec<Branch>, env: &Env, fuel: u64) -> (r: Result<Vec<Branch>, Error>)
    ensures
        match r {
            Ok(bs) => normalize_arms(arms_view(branches@), env.entries@, fuel as nat) == Ok::<Seq<Arm>, Error>(arms_view(bs@)),
            Err(x) => normalize_arms(arms_view(branches@), env.entries@, fuel as nat) == Err::<Seq<Arm>, Error>(x),
        },
    decreases fuel, 1nat,
{
    let ghost all = arms_view(branches@);
    let n = branches.len();
    let mut out: Vec<Branch> = Vec::new();
    let mut i: usize = 0;
    proof {
        lemma_arms_view_index(branches@);
        assert(all.subrange(0, n as int) =~= all);
        assert(arms_view(out@) =~= Seq::<Arm>::empty());
    }
    while i < n
        invariant
            i <= n,
            n == branches.len(),
            all == arms_view(branches@),
            all.len() == n,
            forall|k: int| 0 <= k < n ==> #[trigger] all[k] == arm_of(branches@[k]),
            normalize_arms(all, env.entries@, fuel as nat) == match normalize_arms(
                all.subrange(i as int, n as int),
                env.entries@,
                fuel as nat,
            ) {
                Ok(rest) => Ok(arms_view(out@) + rest),
                Err(x) => Err::<Seq<Arm>, Error>(x),
            },
        decreases n - i,
    {
        let b = &branches[i];
        let ghost sfx = all.subrange(i as int, n as int);
        assert(sfx[0] == arm_of(branches@[i as int]));
        assert(sfx.drop_first() =~= all.subrange(i + 1, n as int));
        let body = match normalize_term(&b.body, env, fuel) {
            Ok(x) => x,
            Err(x) => return Err(x),
        };
        let nb = Branch { ctor: crate::subst::copy_name(&b.ctor), fields: crate::subst::copy_names(&b.fields), body };
        let ghost old_out = out@;
        out.push(nb);
        proof {
            lemma_arms_view_push(old_out, nb);
            assert(arm_of(nb) == Arm { ctor: sfx[0].ctor, arity: sfx[0].arity, body: nb.body@ });
            let a = Arm { ctor: sfx[0].ctor, arity: sfx[0].arity, body: nb.body@ };
            match normalize_arms(all.subrange(i + 1, n as int), env.entries@, fuel as nat) {
                Ok(rest) => {
                    assert(arms_view(old_out) + (seq![a] + rest) =~= arms_view(out@) + rest);
                },
                Err(_) => {},
            }
        }
        i = i + 1;
    }
    proof {
        assert(all.subrange(n as int, n as int) =~= Seq::<Arm>::empty());
        assert(arms_view(out@) + Seq::<Arm>::empty() =~= arms_view(out@));
    }
    Ok(out)
}

/// Whether two terms are equal up to the names of bound variables.
pub fn equal_terms(a: &Term, b: &Term) -> (r: bool)
    ensures
        r == (a@ == b@),
    decreases a,
{
    match (a, b) {
        (Term::Universe, Term::Universe) => true,
        (Term::Var { index: i }, Term::Var { index: j }) => *i == *j,
        (Term::Ref { name: x }, Term::Ref { name: y }) => same_name(x, y),
        (Term::Pi { domain: d1, codomain: c1, .. }, Term::Pi { domain: d2, codomain: c2, .. }) => {
            equal_terms(d1, d2) && equal_terms(c1, c2)
        },
        (Term::Lambda { body: b1, .. }, Term::Lambda { body: b2, .. }) => equal_terms(b1, b2),
        (Term::Apply { function: f1, argument: a1 }, Term::Apply { function: f2, argument: a2 }) => {
            equal_terms(f1, f2) && equal_terms(a1, a2)
        },
        (Term::Ann { term: x1, typ: t1 }, Term::Ann { term: x2, typ: t2 }) => {
            equal_terms(x1, x2) && equal_terms(t1, t2)
        },
        (
            Term::Case { scrutinee: s1, motive: m1, branches: bs1 },
            Term::Case { scrutinee: s2, motive: m2, branches: bs2 },
        ) => {
            if !equal_terms(s1, s2) {
                return false;
            }
            let same_motive = match (m1, m2) {
                (Some(x), Some(y)) => equal_terms(x, y),
                (None, None) => true,
                _ => false,
            };
            same_motive && equal_branches(bs1, bs2)
        },
        _ => false,
    }
}

/// Whether two branch lists are equal up to the names of bound variables.
pub fn equal_branches(x: &Vec<Branch>, y: &Vec<Branch>) -> (r: bool)
    ensures
        r == (arms_view(x@) == arms_view(y@)),
    decreases x,
{
    proof {
        lemma_arms_view_index(x@);
        lemma_arms_view_index(y@);
    }
    if x.len() != y.len() {
        return false;
    }
    let mut i: usize = 0;
    while i < x.len()
        invariant
            i <= x.len(),
            x.len() == y.len(),
            arms_view(x@).len() == x.len(),
            arms_view(y@).len() == y.len(),
            forall|k: int| 0 <= k < x.len() ==> #[trigger] arms_view(x@)[k] == arm_of(x@[k]),
            forall|k: int| 0 <= k < y.len() ==> #[trigger] arms_view(y@)[k] == arm_of(y@[k]),
            forall|k: int| 0 <= k < i ==> arms_view(x@)[k] == #[trigger] arms_view(y@)[k],
        decreases x.len() - i,
    {
        proof {
            assert(decreases_to!(x => x[i as int]));
            assert(decreases_to!(x[i as int] => x[i as int].body));
        }
        let same = same_name(&x[i].ctor, &y[i].ctor) && x[i].fields.len() == y[i].fields.len()
            && equal_terms(&x[i].body, &y[i].body);
        if !same {
            assert(arms_view(x@)[i as int] != arms_view(y@)[i as int]);
            return false;
        }
        i = i + 1;
    }
    assert(arms_view(x@) =~= arms_view(y@));
    true
}

/// Whether `a` and `b` are definitionally equal within `fuel` steps.
pub fn convertible_terms(a: &Term, b: &Term, env: &Env, fuel: u64) -> (r: bool)
    ensures
        r == convertible(a@, b@, env.entries@, fuel as nat),
{
    match (normalize_term(a, env, fuel), normalize_term(b, env, fuel)) {
        (Ok(x), Ok(y)) => equal_terms(&x, &y),
        _ => false,
    }
}

} // verus!
