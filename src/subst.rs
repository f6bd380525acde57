use vstd::prelude::*;
use crate::term::{Expr, Arm, Term, Branch, arms_view, arm_of, lemma_arms_view_suffix, lemma_arms_view_index,
    lemma_arms_view_subrange};

verus! {

broadcast use {
    vstd::std_specs::vec::axiom_vec_decreases_to_view,
    vstd::std_specs::vec::axiom_vec_index_decreases,
    vstd::seq::axiom_seq_index_decreases,
};

/// Largest representable de Bruijn index (and binder depth).
pub open spec fn index_limit() -> nat {
    u64::MAX as nat
}

/// Adds `d` to every variable of `e` whose index is at least `c` (the variables
/// free at depth `c`). `None` when an index or a binder depth would pass
/// `index_limit()`.
pub open spec fn shift(e: Expr, c: nat, d: nat) -> Option<Expr>
    decreases e,
{
    match e {
        Expr::Var(i) => if i < c {
            Some(e)
        } else if i + d <= index_limit() {
            Some(Expr::Var(i + d))
        } else {
            None
        },
        Expr::Pi(a, b) => if c + 1 > index_limit() {
            None
        } else {
            match (shift(*a, c, d), shift(*b, c + 1, d)) {
                (Some(a2), Some(b2)) => Some(Expr::Pi(Box::new(a2), Box::new(b2))),
                _ => None,
            }
        },
        Expr::Lambda(b) => if c + 1 > index_limit() {
            None
        } else {
            match shift(*b, c + 1, d) {
                Some(b2) => Some(Expr::Lambda(Box::new(b2))),
                None => None,
            }
        },
        Expr::Apply(f, a) => match (shift(*f, c, d), shift(*a, c, d)) {
            (Some(f2), Some(a2)) => Some(Expr::Apply(Box::new(f2), Box::new(a2))),
            _ => None,
        },
        Expr::Ann(x, t) => match (shift(*x, c, d), shift(*t, c, d)) {
            (Some(x2), Some(t2)) => Some(Expr::Ann(Box::new(x2), Box::new(t2))),
            _ => None,
        },
        Expr::Case(s, m, arms) => match (shift(*s, c, d), shift_motive(m, c, d), shift_arms(arms, c, d)) {
            (Some(s2), Some(m2), Some(arms2)) => Some(Expr::Case(Box::new(s2), m2, arms2)),
            _ => None,
        },
        _ => Some(e),
    }
}

/// `shift` on an optional motive (`Some(None)` when there is none).
pub open spec fn shift_motive(m: Option<Box<Expr>>, c: nat, d: nat) -> Option<Option<Box<Expr>>>
    decreases m,
{
    match m {
        Some(x) => match shift(*x, c, d) {
            Some(x2) => Some(Some(Box::new(x2))),
            None => None,
        },
        None => Some(None),
    }
}

/// `shift` on each branch body, under the branch's own fields.
pub open spec fn shift_arms(arms: Seq<Arm>, c: nat, d: nat) -> Option<Seq<Arm>>
    decreases arms,
{
    if arms.len() == 0 {
        Some(Seq::empty())
    } else if c + arms[0].arity > index_limit() {
        None
    } else {
        match (shift(arms[0].body, c + arms[0].arity, d), shift_arms(arms.drop_first(), c, d)) {
            (Some(b), Some(rest)) => Some(
                seq![Arm { ctor: arms[0].ctor, arity: arms[0].arity, body: b }] + rest,
            ),
            _ => None,
        }
    }
}

/// Once a suffix of the branches fails to shift, the whole sequence does.
pub proof fn lemma_shift_arms_none(arms: Seq<Arm>, i: int, c: nat, d: nat)
    requires
        0 <= i <= arms.len(),
        shift_arms(arms.subrange(i, arms.len() as int), c, d) is None,
    ensures
        shift_arms(arms, c, d) is None,
    decreases i,
{
    if i > 0 {
        assert(arms.drop_first().subrange(i - 1, arms.len() - 1) =~= arms.subrange(
            i,
            arms.len() as int,
        ));
        lemma_shift_arms_none(arms.drop_first(), i - 1, c, d);
    } else {
        assert(arms.subrange(0, arms.len() as int) =~= arms);
    }
}

/// The model of an optional term.
pub open spec fn opt_view(r: Option<Term>) -> Option<Expr> {
    match r {
        Some(t) => Some(t.view()),
        None => None,
    }
}

/// Copies a name.
pub fn copy_name(n: &Vec<u8>) -> (r: Vec<u8>)
    ensures
        r@ == n@,
{
    let mut r: Vec<u8> = Vec::new();
    let mut i: usize = 0;
    while i < n.len()
        invariant
            i <= n.len(),
            r@ == n@.subrange(0, i as int),
        decreases n.len() - i,
    {
        r.push(n[i]);
        i = i + 1;
        assert(r@ =~= n@.subrange(0, i as int));
    }
    assert(r@ =~= n@);
    r
}

/// Copies a list of names.
pub fn copy_names(ns: &Vec<Vec<u8>>) -> (r: Vec<Vec<u8>>)
    ensures
        r.len() == ns.len(),
        forall|k: int| 0 <= k < ns.len() ==> #[trigger] r@[k]@ == ns@[k]@,
{
    let mut r: Vec<Vec<u8>> = Vec::new();
    let mut i: usize = 0;
    while i < ns.len()
        invariant
            i <= ns.len(),
            r.len() == i,
            forall|k: int| 0 <= k < i ==> #[trigger] r@[k]@ == ns@[k]@,
        decreases ns.len() - i,
    {
        r.push(copy_name(&ns[i]));
        i = i + 1;
    }
    r
}

/// Shifts the free variables of `t` at or above `c` by `d`.
pub fn shift_term(t: &Term, c: u64, d: u64) -> (r: Option<Term>)
    ensures
        opt_view(r) == shift(t@, c as nat, d as nat),
    decreases t,
{
    match t {
        Term::Universe => Some(Term::Universe),
        Term::Ref { name } => Some(Term::Ref { name: copy_name(name) }),
        Term::Var { index } => {
            if *index < c {
                Some(Term::Var { index: *index })
            } else if *index <= u64::MAX - d {
                Some(Term::Var { index: *index + d })
            } else {
                None
            }
        },
        Term::Pi { name, domain, codomain } => {
            if c == u64::MAX {
                return None;
            }
            match (shift_term(domain, c, d), shift_term(codomain, c + 1, d)) {
                (Some(a), Some(b)) => Some(
                    Term::Pi { name: copy_name(name), domain: Box::new(a), codomain: Box::new(b) },
                ),
                _ => None,
            }
        },
        Term::Lambda { name, body } => {
            if c == u64::MAX {
                return None;
            }
            match shift_term(body, c + 1, d) {
                Some(b) => Some(Term::Lambda { name: copy_name(name), body: Box::new(b) }),
                None => None,
            }
        },
        Term::Apply { function, argument } => {
            match (shift_term(function, c, d), shift_term(argument, c, d)) {
                (Some(f), Some(a)) => Some(
                    Term::Apply { function: Box::new(f), argument: Box::new(a) },
                ),
                _ => None,
            }
        },
        Term::Ann { term, typ } => {
            match (shift_term(term, c, d), shift_term(typ, c, d)) {
                (Some(x), Some(y)) => Some(Term::Ann { term: Box::new(x), typ: Box::new(y) }),
                _ => None,
            }
        },
        Term::Case { scrutinee, motive, branches } => {
            let s = match shift_term(scrutinee, c, d) {
                Some(s) => s,
                None => return None,
            };
            let m: Option<Box<Term>> = match motive {
                Some(m) => match shift_term(m, c, d) {
                    Some(m2) => Some(Box::new(m2)),
                    None => return None,
                },
                None => None,
            };
            let n = branches.len();
            let ghost sm = shift_motive(match motive {
                Some(m) => Some(Box::new(m@)),
                None => None,
            }, c as nat, d as nat);
            assert(sm == match m {
                Some(x) => Some(Some(Box::new(x@))),
                None => Some(None::<Box<Expr>>),
            });
            let mut out: Vec<Branch> = Vec::new();
            let mut i: usize = n;
            proof {
                lemma_arms_view_suffix(branches@, n as int);
            }
            #[verifier::loop_isolation(false)]
            while i > 0
                invariant
                    i <= n,
                    n == branches.len(),
                    shift_arms(arms_view(branches@.subrange(i as int, n as int)), c as nat, d as nat)
                        == Some(arms_view(out@)),
                decreases i,
            {
                i = i - 1;
                let b = &branches[i];
                proof {
                    lemma_arms_view_suffix(branches@, i as int);
                    let sfx = arms_view(branches@.subrange(i as int, n as int));
                    assert(sfx[0] == arm_of(branches@[i as int]));
                    assert(sfx.drop_first() =~= arms_view(branches@.subrange(i + 1, n as int)));
                }
                let k = b.fields.len() as u64;
                if k > u64::MAX - c {
                    proof {
                        let sfx = arms_view(branches@.subrange(i as int, n as int));
                        assert(sfx[0].arity == k);
                        assert(shift_arms(sfx, c as nat, d as nat) is None);
                        lemma_arms_view_index(branches@);
                        lemma_arms_view_subrange(branches@, i as int);
                        lemma_shift_arms_none(
                            arms_view(branches@),
                            i as int,
                            c as nat,
                            d as nat,
                        );
                        assert(shift_arms(arms_view(branches@), c as nat, d as nat) is None);
                        assert(shift(t@, c as nat, d as nat) is None);
                    }
                    return None;
                }
                proof {
                    assert(decreases_to!(branches => branches[i as int]));
                    assert(decreases_to!(branches[i as int] => branches[i as int].body));
                    assert(decreases_to!(*t => branches));
                    assert(decreases_to!(*t => branches[i as int].body));
                }
                let body = match shift_term(&b.body, c + k, d) {
                    Some(x) => x,
                    None => {
                        proof {
                            lemma_arms_view_index(branches@);
                            lemma_arms_view_subrange(branches@, i as int);
                            lemma_shift_arms_none(
                                arms_view(branches@),
                                i as int,
                                c as nat,
                                d as nat,
                            );
                        }
                        return None;
                    },
                };
                let nb = Branch { ctor: copy_name(&b.ctor), fields: copy_names(&b.fields), body };
                let ghost old_out = out@;
                out.insert(0, nb);
                proof {
                    let sfx = arms_view(branches@.subrange(i as int, n as int));
                    assert(out@ =~= seq![nb] + old_out);
                    assert(out@.drop_first() =~= old_out);
                    assert(arms_view(out@) == seq![arm_of(nb)] + arms_view(old_out));
                    assert(arm_of(nb) == Arm { ctor: sfx[0].ctor, arity: sfx[0].arity, body: nb.body@ });
                }
            }
            assert(branches@.subrange(0, n as int) =~= branches@);
            Some(Term::Case { scrutinee: Box::new(s), motive: m, branches: out })
        },
    }
}


/// Replaces variable `j` of `e` by `v` (shifted by the binders crossed) and
/// lowers the variables above `j` by one: the binder of `j` is consumed.
/// Bound variables of `e` are indices below the current depth, so they are never
/// confused with the free variables of `v`.
pub open spec fn subst(e: Expr, j: nat, v: Expr) -> Option<Expr>
    decreases e,
{
    match e {
        Expr::Var(i) => if i == j {
            shift(v, 0, j)
        } else if i > j {
            Some(Expr::Var((i - 1) as nat))
        } else {
            Some(e)
        },
        Expr::Pi(a, b) => if j + 1 > index_limit() {
            None
        } else {
            match (subst(*a, j, v), subst(*b, j + 1, v)) {
                (Some(a2), Some(b2)) => Some(Expr::Pi(Box::new(a2), Box::new(b2))),
                _ => None,
            }
        },
        Expr::Lambda(b) => if j + 1 > index_limit() {
            None
        } else {
            match subst(*b, j + 1, v) {
                Some(b2) => Some(Expr::Lambda(Box::new(b2))),
                None => None,
            }
        },
        Expr::Apply(f, a) => match (subst(*f, j, v), subst(*a, j, v)) {
            (Some(f2), Some(a2)) => Some(Expr::Apply(Box::new(f2), Box::new(a2))),
            _ => None,
        },
        Expr::Ann(x, t) => match (subst(*x, j, v), subst(*t, j, v)) {
            (Some(x2), Some(t2)) => Some(Expr::Ann(Box::new(x2), Box::new(t2))),
            _ => None,
        },
        Expr::Case(s, m, arms) => match (subst(*s, j, v), subst_motive(m, j, v), subst_arms(arms, j, v)) {
            (Some(s2), Some(m2), Some(arms2)) => Some(Expr::Case(Box::new(s2), m2, arms2)),
            _ => None,
        },
        _ => Some(e),
    }
}

/// `subst` on an optional motive.
pub open spec fn subst_motive(m: Option<Box<Expr>>, j: nat, v: Expr) -> Option<Option<Box<Expr>>>
    decreases m,
{
    match m {
        Some(x) => match subst(*x, j, v) {
            Some(x2) => Some(Some(Box::new(x2))),
            None => None,
        },
        None => Some(None),
    }
}

/// `subst` on each branch body, under the branch's own fields.
pub open spec fn subst_arms(arms: Seq<Arm>, j: nat, v: Expr) -> Option<Seq<Arm>>
    decreases arms,
{
    if arms.len() == 0 {
        Some(Seq::empty())
    } else if j + arms[0].arity > index_limit() {
        None
    } else {
        match (subst(arms[0].body, j + arms[0].arity, v), subst_arms(arms.drop_first(), j, v)) {
            (Some(b), Some(rest)) => Some(
                seq![Arm { ctor: arms[0].ctor, arity: arms[0].arity, body: b }] + rest,
            ),
            _ => None,
        }
    }
}

/// Once a suffix of the branches fails to substitute, the whole sequence does.
pub proof fn lemma_subst_arms_none(arms: Seq<Arm>, i: int, j: nat, v: Expr)
    requires
        0 <= i <= arms.len(),
        subst_arms(arms.subrange(i, arms.len() as int), j, v) is None,
    ensures
        subst_arms(arms, j, v) is None,
    decreases i,
{
    if i > 0 {
        assert(arms.drop_first().subrange(i - 1, arms.len() - 1) =~= arms.subrange(
            i,
            arms.len() as int,
        ));
        lemma_subst_arms_none(arms.drop_first(), i - 1, j, v);
    } else {
        assert(arms.subrange(0, arms.len() as int) =~= arms);
    }
}

/// Substitutes `v` for variable `j` in `t`.
pub fn subst_term(t: &Term, j: u64, v: &Term) -> (r: Option<Term>)
    ensures
        opt_view(r) == subst(t@, j as nat, v@),
    decreases t,
{
    match t {
        Term::Universe => Some(Term::Universe),
        Term::Ref { name } => Some(Term::Ref { name: copy_name(name) }),
        Term::Var { index } => {
            if *index == j {
                shift_term(v, 0, j)
            } else if *index > j {
                Some(Term::Var { index: *index - 1 })
            } else {
                Some(Term::Var { index: *index })
            }
        },
        Term::Pi { name, domain, codomain } => {
            if j == u64::MAX {
                return None;
            }
            match (subst_term(domain, j, v), subst_term(codomain, j + 1, v)) {
                (Some(a), Some(b)) => Some(
                    Term::Pi { name: copy_name(name), domain: Box::new(a), codomain: Box::new(b) },
                ),
                _ => None,
            }
        },
        Term::Lambda { name, body } => {
            if j == u64::MAX {
                return None;
            }
            match subst_term(body, j + 1, v) {
                Some(b) => Some(Term::Lambda { name: copy_name(name), body: Box::new(b) }),
                None => None,
            }
        },
        Term::Apply { function, argument } => {
            match (subst_term(function, j, v), subst_term(argument, j, v)) {
                (Some(f), Some(a)) => Some(
                    Term::Apply { function: Box::new(f), argument: Box::new(a) },
                ),
                _ => None,
            }
        },
        Term::Ann { term, typ } => {
            match (subst_term(term, j, v), subst_term(typ, j, v)) {
                (Some(x), Some(y)) => Some(Term::Ann { term: Box::new(x), typ: Box::new(y) }),
                _ => None,
            }
        },
        Term::Case { scrutinee, motive, branches } => {
            let s = match subst_term(scrutinee, j, v) {
                Some(s) => s,
                None => return None,
            };
            let m: Option<Box<Term>> = match motive {
                Some(m) => match subst_term(m, j, v) {
                    Some(m2) => Some(Box::new(m2)),
                    None => return None,
                },
                None => None,
            };
            let n = branches.len();
            let ghost sm = subst_motive(match motive {
                Some(m) => Some(Box::new(m@)),
                None => None,
            }, j as nat, v@);
            assert(sm == match m {
                Some(x) => Some(Some(Box::new(x@))),
                None => Some(None::<Box<Expr>>),
            });
            let mut out: Vec<Branch> = Vec::new();
            let mut i: usize = n;
            proof {
                lemma_arms_view_suffix(branches@, n as int);
            }
            #[verifier::loop_isolation(false)]
            while i > 0
                invariant
                    i <= n,
                    n == branches.len(),
                    subst_arms(arms_view(branches@.subrange(i as int, n as int)), j as nat, v@)
                        == Some(arms_view(out@)),
                decreases i,
            {
                i = i - 1;
                let b = &branches[i];
                proof {
                    lemma_arms_view_suffix(branches@, i as int);
                    let sfx = arms_view(branches@.subrange(i as int, n as int));
                    assert(sfx[0] == arm_of(branches@[i as int]));
                    assert(sfx.drop_first() =~= arms_view(branches@.subrange(i + 1, n as int)));
                }
                let k = b.fields.len() as u64;
                if k > u64::MAX - j {
                    proof {
                        let sfx = arms_view(branches@.subrange(i as int, n as int));
                        assert(sfx[0].arity == k);
                        assert(subst_arms(sfx, j as nat, v@) is None);
                        lemma_arms_view_index(branches@);
                        lemma_arms_view_subrange(branches@, i as int);
                        lemma_subst_arms_none(arms_view(branches@), i as int, j as nat, v@);
                    }
                    return None;
                }
                proof {
                    assert(decreases_to!(branches => branches[i as int]));
                    assert(decreases_to!(branches[i as int] => branches[i as int].body));
                }
                let body = match subst_term(&b.body, j + k, v) {
                    Some(x) => x,
                    None => {
                        proof {
                            lemma_arms_view_index(branches@);
                            lemma_arms_view_subrange(branches@, i as int);
                            lemma_subst_arms_none(arms_view(branches@), i as int, j as nat, v@);
                        }
                        return None;
                    },
                };
                let nb = Branch { ctor: copy_name(&b.ctor), fields: copy_names(&b.fields), body };
                let ghost old_out = out@;
                out.insert(0, nb);
                proof {
                    let sfx = arms_view(branches@.subrange(i as int, n as int));
                    assert(out@ =~= seq![nb] + old_out);
                    assert(out@.drop_first() =~= old_out);
                    assert(arms_view(out@) == seq![arm_of(nb)] + arms_view(old_out));
                    assert(arm_of(nb) == Arm { ctor: sfx[0].ctor, arity: sfx[0].arity, body: nb.body@ });
                }
            }
            assert(branches@.subrange(0, n as int) =~= branches@);
            Some(Term::Case { scrutinee: Box::new(s), motive: m, branches: out })
        },
    }
}


/// Makes an independent copy of a term.
pub fn copy_term(t: &Term) -> (r: Term)
    ensures
        r@ == t@,
    decreases t,
{
    match t {
        Term::Universe => Term::Universe,
        Term::Ref { name } => Term::Ref { name: copy_name(name) },
        Term::Var { index } => Term::Var { index: *index },
        Term::Pi { name, domain, codomain } => Term::Pi {
            name: copy_name(name),
            domain: Box::new(copy_term(domain)),
            codomain: Box::new(copy_term(codomain)),
        },
        Term::Lambda { name, body } => Term::Lambda {
            name: copy_name(name),
            body: Box::new(copy_term(body)),
        },
        Term::Apply { function, argument } => Term::Apply {
            function: Box::new(copy_term(function)),
            argument: Box::new(copy_term(argument)),
        },
        Term::Ann { term, typ } => Term::Ann {
            term: Box::new(copy_term(term)),
            typ: Box::new(copy_term(typ)),
        },
        Term::Case { scrutinee, motive, branches } => {
            let m: Option<Box<Term>> = match motive {
                Some(m) => Some(Box::new(copy_term(m))),
                None => None,
            };
            let out = copy_branches(branches);
            Term::Case { scrutinee: Box::new(copy_term(scrutinee)), motive: m, branches: out }
        },
    }
}

/// Makes an independent copy of a list of branches.
pub fn copy_branches(branches: &Vec<Branch>) -> (out: Vec<Branch>)
    ensures
        arms_view(out@) == arms_view(branches@),
    decreases branches,
{
    let n = branches.len();
    let mut out: Vec<Branch> = Vec::new();
    let mut i: usize = n;
    proof {
        lemma_arms_view_suffix(branches@, n as int);
    }
    #[verifier::loop_isolation(false)]
    while i > 0
        invariant
            i <= n,
            n == branches.len(),
            arms_view(branches@.subrange(i as int, n as int)) == arms_view(out@),
        decreases i,
    {
        i = i - 1;
        let b = &branches[i];
        proof {
            lemma_arms_view_suffix(branches@, i as int);
            assert(decreases_to!(branches => branches[i as int]));
            assert(decreases_to!(branches[i as int] => branches[i as int].body));
        }
        let nb = Branch { ctor: copy_name(&b.ctor), fields: copy_names(&b.fields), body: copy_term(&b.body) };
        let ghost old_out = out@;
        out.insert(0, nb);
        proof {
            assert(out@ =~= seq![nb] + old_out);
            assert(out@.drop_first() =~= old_out);
            assert(arms_view(out@) == seq![arm_of(nb)] + arms_view(old_out));
        }
    }
    assert(branches@.subrange(0, n as int) =~= branches@);
    out
}


/// Whether `e` mentions a variable free at depth `c` among the `n` innermost
/// ones (`c <= i < c + n` after the binders crossed). Binder depths past
/// `index_limit()` are not searched: no index lies there.
pub open spec fn mentions(e: Expr, c: nat, n: nat) -> bool
    decreases e,
{
    match e {
        Expr::Var(i) => c <= i && i < c + n,
        Expr::Pi(a, b) => mentions(*a, c, n) || (c + 1 <= index_limit() && mentions(*b, c + 1, n)),
        Expr::Lambda(b) => c + 1 <= index_limit() && mentions(*b, c + 1, n),
        Expr::Apply(f, a) => mentions(*f, c, n) || mentions(*a, c, n),
        Expr::Ann(x, t) => mentions(*x, c, n) || mentions(*t, c, n),
        Expr::Case(s, m, arms) => mentions(*s, c, n) || match m {
            Some(x) => mentions(*x, c, n),
            None => false,
        } || arms_mention(arms, c, n),
        _ => false,
    }
}

/// Whether some branch body mentions such a variable, under its own fields.
pub open spec fn arms_mention(arms: Seq<Arm>, c: nat, n: nat) -> bool
    decreases arms,
{
    if arms.len() == 0 {
        false
    } else {
        (c + arms[0].arity <= index_limit() && mentions(arms[0].body, c + arms[0].arity, n))
            || arms_mention(arms.drop_first(), c, n)
    }
}

/// Whether `t` mentions one of the variables `c .. c + n` free at depth `c`.
pub fn mentions_term(t: &Term, c: u64, n: u64) -> (r: bool)
    ensures
        r == mentions(t@, c as nat, n as nat),
    decreases t,
{
    match t {
        Term::Var { index } => c <= *index && (*index - c) < n,
        Term::Pi { domain, codomain, .. } => {
            mentions_term(domain, c, n) || (c < u64::MAX && mentions_term(codomain, c + 1, n))
        },
        Term::Lambda { body, .. } => c < u64::MAX && mentions_term(body, c + 1, n),
        Term::Apply { function, argument } => {
            mentions_term(function, c, n) || mentions_term(argument, c, n)
        },
        Term::Ann { term, typ } => mentions_term(term, c, n) || mentions_term(typ, c, n),
        Term::Case { scrutinee, motive, branches } => {
            if mentions_term(scrutinee, c, n) {
                return true;
            }
            let in_motive = match motive {
                Some(m) => mentions_term(m, c, n),
                None => false,
            };
            if in_motive {
                return true;
            }
            let len = branches.len();
            let mut i: usize = 0;
            proof {
                lemma_arms_view_index(branches@);
                assert(arms_view(branches@).subrange(0, len as int) =~= arms_view(branches@));
            }
            #[verifier::loop_isolation(false)]
            while i < len
                invariant
                    i <= len,
                    len == branches.len(),
                    arms_mention(arms_view(branches@), c as nat, n as nat) == arms_mention(
                        arms_view(branches@).subrange(i as int, len as int),
                        c as nat,
                        n as nat,
                    ),
                decreases len - i,
            {
                let ghost sfx = arms_view(branches@).subrange(i as int, len as int);
                proof {
                    assert(sfx[0] == arm_of(branches@[i as int]));
                    assert(sfx.drop_first() =~= arms_view(branches@).subrange(i + 1, len as int));
                    assert(decreases_to!(branches => branches[i as int]));
                    assert(decreases_to!(branches[i as int] => branches[i as int].body));
                }
                let k = branches[i].fields.len() as u64;
                if k <= u64::MAX - c && mentions_term(&branches[i].body, c + k, n) {
                    return true;
                }
                i = i + 1;
            }
            proof {
                assert(arms_view(branches@).subrange(len as int, len as int) =~= Seq::<Arm>::empty());
            }
            false
        },
        _ => false,
    }
}

} // verus!
