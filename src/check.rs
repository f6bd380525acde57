use vstd::prelude::*;
use crate::term::{Arm, Expr, Term, Branch, arms_view, arm_of, lemma_arms_view_index};
use crate::subst::{shift, subst, mentions, mentions_term, shift_term, subst_term, copy_term, copy_name, opt_view};
use crate::env::{Entry, Env, EntryKind, Binder, find, same_name};
use crate::error::{Error, Fault, typed_view, unit_view};
use crate::reduce::{terms_view, convertible, whnf, whnf_term, spine_head, spine_args, find_arm, instantiate, convertible_terms, head_of, args_of};

verus! {

/// Whether `n` occurs in `names`.
pub open spec fn named(names: Seq<Seq<u8>>, n: Seq<u8>) -> bool {
    exists|k: int| 0 <= k < names.len() && names[k] == n
}

/// Whether some name occurs twice in `names`.
pub open spec fn has_repeat(names: Seq<Seq<u8>>) -> bool {
    exists|i: int, j: int| 0 <= i < j < names.len() && names[i] == names[j]
}

/// The names of a list of branches.
pub open spec fn branch_names(bs: Seq<Branch>) -> Seq<Seq<u8>> {
    Seq::new(bs.len(), |i: int| bs[i].ctor@)
}

/// The models of a list of names.
pub open spec fn names_view(ns: Seq<Vec<u8>>) -> Seq<Seq<u8>> {
    Seq::new(ns.len(), |i: int| ns[i]@)
}

/// The first position, from `i` on, of a name in `names` that is not in `ctors`.
pub open spec fn first_unknown(ctors: Seq<Seq<u8>>, names: Seq<Seq<u8>>, i: int) -> Option<int>
    decreases names.len() - i,
{
    if i < 0 || i >= names.len() {
        None
    } else if !named(ctors, names[i]) {
        Some(i)
    } else {
        first_unknown(ctors, names, i + 1)
    }
}

/// The first position, from `j` on, of a name that already occurs before it.
pub open spec fn first_repeat(names: Seq<Seq<u8>>, j: int) -> Option<int>
    decreases names.len() - j,
{
    if j < 0 || j >= names.len() {
        None
    } else if exists|k: int| 0 <= k < j && names[k] == names[j] {
        Some(j)
    } else {
        first_repeat(names, j + 1)
    }
}

/// The first position, from `c` on, of a constructor that no name names.
pub open spec fn first_missing(ctors: Seq<Seq<u8>>, names: Seq<Seq<u8>>, c: int) -> Option<int>
    decreases ctors.len() - c,
{
    if c < 0 || c >= ctors.len() {
        None
    } else if !named(names, ctors[c]) {
        Some(c)
    } else {
        first_missing(ctors, names, c + 1)
    }
}

/// The outcome of matching branch names against a datatype's constructors:
/// the first unknown name, else the first repeated one, else the first
/// constructor left out.
pub open spec fn coverage(ctors: Seq<Seq<u8>>, names: Seq<Seq<u8>>) -> Result<(), Fault> {
    match first_unknown(ctors, names, 0) {
        Some(k) => Err(Fault::UnknownBranch(names[k])),
        None => match first_repeat(names, 0) {
            Some(j) => Err(Fault::DuplicateBranch(names[j])),
            None => match first_missing(ctors, names, 0) {
                Some(c) => Err(Fault::MissingBranch(ctors[c])),
                None => Ok(()),
            },
        },
    }
}

/// The constructor names of a sequence of arms.
pub open spec fn arm_names(arms: Seq<Arm>) -> Seq<Seq<u8>> {
    Seq::new(arms.len(), |i: int| arms[i].ctor)
}

/// Whether `n` is among `ns`.
fn contains_name(ns: &Vec<Vec<u8>>, n: &Vec<u8>) -> (r: bool)
    ensures
        r == named(names_view(ns@), n@),
{
    let mut i: usize = 0;
    while i < ns.len()
        invariant
            i <= ns.len(),
            forall|k: int| 0 <= k < i ==> ns@[k]@ != n@,
        decreases ns.len() - i,
    {
        if same_name(&ns[i], n) {
            assert(names_view(ns@)[i as int] == n@);
            return true;
        }
        i = i + 1;
    }
    assert(!named(names_view(ns@), n@)) by {
        assert forall|k: int| 0 <= k < names_view(ns@).len() implies names_view(ns@)[k] != n@ by {
            assert(ns@[k]@ != n@);
        }
    }
    false
}

/// Whether some branch before position `j` names `n`.
fn named_before(bs: &Vec<Branch>, j: usize, n: &Vec<u8>) -> (r: bool)
    requires
        j <= bs.len(),
    ensures
        r == exists|k: int| 0 <= k < j && bs@[k].ctor@ == n@,
{
    let mut i: usize = 0;
    while i < j
        invariant
            i <= j <= bs.len(),
            forall|k: int| 0 <= k < i ==> bs@[k].ctor@ != n@,
        decreases j - i,
    {
        if same_name(&bs[i].ctor, n) {
            return true;
        }
        i = i + 1;
    }
    false
}

/// Checks that the branches name exactly the constructors `ctors`, once each.
/// An unknown name is reported first, then a repeated one, then a missing one.
pub fn check_coverage(ctors: &Vec<Vec<u8>>, bs: &Vec<Branch>) -> (r: Result<(), Error>)
    ensures
        (exists|k: int| 0 <= k < bs.len() && !named(names_view(ctors@), bs@[k].ctor@))
            <==> r is Err && r->Err_0 is UnknownBranch,
        r matches Err(Error::UnknownBranch(n)) ==> named(branch_names(bs@), n@) && !named(
            names_view(ctors@),
            n@,
        ),
        (forall|k: int| 0 <= k < bs.len() ==> named(names_view(ctors@), #[trigger] bs@[k].ctor@))
            && has_repeat(branch_names(bs@)) <==> r is Err && r->Err_0 is DuplicateBranch,
        r matches Err(Error::DuplicateBranch(n)) ==> exists|i: int, j: int|
            0 <= i < j < bs.len() && bs@[i].ctor@ == n@ && bs@[j].ctor@ == n@,
        (forall|k: int| 0 <= k < bs.len() ==> named(names_view(ctors@), #[trigger] bs@[k].ctor@))
            && !has_repeat(branch_names(bs@)) && (exists|k: int|
            0 <= k < ctors.len() && !named(branch_names(bs@), ctors@[k]@))
            <==> r is Err && r->Err_0 is MissingBranch,
        r matches Err(Error::MissingBranch(n)) ==> named(names_view(ctors@), n@) && !named(
            branch_names(bs@),
            n@,
        ),
        r is Err ==> (r->Err_0 is UnknownBranch || r->Err_0 is DuplicateBranch
            || r->Err_0 is MissingBranch),
        unit_view(r) == coverage(names_view(ctors@), branch_names(bs@)),
{
    let ghost cv = names_view(ctors@);
    let ghost nv = branch_names(bs@);
    let mut i: usize = 0;
    while i < bs.len()
        invariant
            i <= bs.len(),
            forall|k: int| 0 <= k < i ==> named(names_view(ctors@), #[trigger] bs@[k].ctor@),
            first_unknown(cv, nv, 0) == first_unknown(cv, nv, i as int),
            cv == names_view(ctors@),
            nv == branch_names(bs@),
        decreases bs.len() - i,
    {
        assert(nv[i as int] == bs@[i as int].ctor@);
        if !contains_name(ctors, &bs[i].ctor) {
            assert(branch_names(bs@)[i as int] == bs@[i as int].ctor@);
            return Err(Error::UnknownBranch(copy_name(&bs[i].ctor)));
        }
        i = i + 1;
    }
    let mut j: usize = 0;
    while j < bs.len()
        invariant
            j <= bs.len(),
            forall|k: int| 0 <= k < bs.len() ==> named(names_view(ctors@), #[trigger] bs@[k].ctor@),
            forall|a: int, b: int| 0 <= a < b < j ==> bs@[a].ctor@ != bs@[b].ctor@,
            first_unknown(cv, nv, 0) is None,
            first_repeat(nv, 0) == first_repeat(nv, j as int),
            cv == names_view(ctors@),
            nv == branch_names(bs@),
        decreases bs.len() - j,
    {
        assert(nv[j as int] == bs@[j as int].ctor@);
        assert((exists|k: int| 0 <= k < j && nv[k] == nv[j as int]) == (exists|k: int|
            0 <= k < j && bs@[k].ctor@ == bs@[j as int].ctor@)) by {
            if exists|k: int| 0 <= k < j && nv[k] == nv[j as int] {
                let k = choose|k: int| 0 <= k < j && nv[k] == nv[j as int];
                assert(bs@[k].ctor@ == nv[k]);
            }
            if exists|k: int| 0 <= k < j && bs@[k].ctor@ == bs@[j as int].ctor@ {
                let k = choose|k: int| 0 <= k < j && bs@[k].ctor@ == bs@[j as int].ctor@;
                assert(nv[k] == bs@[k].ctor@);
            }
        }
        if named_before(bs, j, &bs[j].ctor) {
            let ghost k = choose|k: int| 0 <= k < j && bs@[k].ctor@ == bs@[j as int].ctor@;
            assert(branch_names(bs@)[k] == branch_names(bs@)[j as int]);
            return Err(Error::DuplicateBranch(copy_name(&bs[j].ctor)));
        }
        j = j + 1;
    }
    assert(!has_repeat(branch_names(bs@))) by {
        assert forall|a: int, b: int| 0 <= a < b < branch_names(bs@).len() implies branch_names(
            bs@,
        )[a] != branch_names(bs@)[b] by {
            assert(bs@[a].ctor@ != bs@[b].ctor@);
        }
    }
    let mut c: usize = 0;
    while c < ctors.len()
        invariant
            c <= ctors.len(),
            forall|k: int| 0 <= k < bs.len() ==> named(names_view(ctors@), #[trigger] bs@[k].ctor@),
            !has_repeat(branch_names(bs@)),
            forall|k: int| 0 <= k < c ==> named(branch_names(bs@), #[trigger] ctors@[k]@),
            first_unknown(cv, nv, 0) is None,
            first_repeat(nv, 0) is None,
            first_missing(cv, nv, 0) == first_missing(cv, nv, c as int),
            cv == names_view(ctors@),
            nv == branch_names(bs@),
        decreases ctors.len() - c,
    {
        assert(cv[c as int] == ctors@[c as int]@);
        let mut found = false;
        let mut i: usize = 0;
        while i < bs.len()
            invariant
                i <= bs.len(),
                c < ctors.len(),
                found ==> named(branch_names(bs@), ctors@[c as int]@),
                !found ==> forall|k: int| 0 <= k < i ==> bs@[k].ctor@ != ctors@[c as int]@,
            decreases bs.len() - i,
        {
            if same_name(&bs[i].ctor, &ctors[c]) {
                assert(branch_names(bs@)[i as int] == ctors@[c as int]@);
                found = true;
            }
            i = i + 1;
        }
        if !found {
            assert(!named(branch_names(bs@), ctors@[c as int]@)) by {
                assert forall|k: int| 0 <= k < branch_names(bs@).len() implies branch_names(bs@)[k]
                    != ctors@[c as int]@ by {
                    assert(bs@[k].ctor@ != ctors@[c as int]@);
                }
            }
            assert(names_view(ctors@)[c as int] == ctors@[c as int]@);
            return Err(Error::MissingBranch(copy_name(&ctors[c])));
        }
        c = c + 1;
    }
    Ok(())
}


/// Copies a list of terms.
pub fn copy_terms(ts: &Vec<Term>) -> (r: Vec<Term>)
    ensures
        r.len() == ts.len(),
        forall|k: int| 0 <= k < ts.len() ==> #[trigger] r@[k]@ == ts@[k]@,
{
    let mut r: Vec<Term> = Vec::new();
    let mut i: usize = 0;
    while i < ts.len()
        invariant
            i <= ts.len(),
            r.len() == i,
            forall|k: int| 0 <= k < i ==> #[trigger] r@[k]@ == ts@[k]@,
        decreases ts.len() - i,
    {
        r.push(copy_term(&ts[i]));
        i = i + 1;
    }
    r
}

/// `head` applied to `args`, first argument innermost.
pub open spec fn apply_all(head: Expr, args: Seq<Expr>) -> Expr
    decreases args.len(),
{
    if args.len() == 0 {
        head
    } else {
        Expr::Apply(Box::new(apply_all(head, args.drop_last())), Box::new(args.last()))
    }
}

/// Applies `head` to `args`, in order.
pub fn apply_spine(head: Term, args: Vec<Term>) -> (r: Term)
    ensures
        r@ == apply_all(head@, crate::reduce::terms_view(args@)),
{
    let ghost hv = head@;
    let rest = args;
    let ghost all = crate::reduce::terms_view(rest@);
    let n = rest.len();
    let mut out = head;
    let mut k: usize = 0;
    assert(all.subrange(0, 0) =~= Seq::<Expr>::empty());
    while k < n
        invariant
            k <= n,
            n == rest.len(),
            all == crate::reduce::terms_view(rest@),
            out@ == apply_all(hv, all.subrange(0, k as int)),
        decreases n - k,
    {
        let a = copy_term(&rest[k]);
        out = Term::Apply { function: Box::new(out), argument: Box::new(a) };
        k = k + 1;
        assert(all.subrange(0, k as int).drop_last() =~= all.subrange(0, k - 1));
    }
    assert(all.subrange(0, n as int) =~= all);
    out
}

/// The variables `Var(n-1), ..., Var(0)`: the innermost `n` binders, outermost first.
pub fn bound_vars(n: u64) -> (r: Vec<Term>)
    ensures
        r.len() == n,
        forall|k: int| 0 <= k < n ==> #[trigger] r@[k]@ == Expr::Var((n - 1 - k) as nat),
{
    let mut r: Vec<Term> = Vec::new();
    let mut i: u64 = 0;
    while i < n
        invariant
            i <= n,
            r.len() == i,
            forall|k: int| 0 <= k < i ==> #[trigger] r@[k]@ == Expr::Var((n - 1 - k) as nat),
        decreases n - i,
    {
        r.push(Term::Var { index: n - 1 - i });
        i = i + 1;
    }
    r
}

/// The types of a telescope's binders.
pub open spec fn binder_types(bs: Seq<Binder>) -> Seq<Expr> {
    Seq::new(bs.len(), |i: int| bs[i].typ@)
}

/// `Pi` over each type of `tys`, outermost first, ending in `target`.
pub open spec fn pis(tys: Seq<Expr>, target: Expr) -> Expr
    decreases tys.len(),
{
    if tys.len() == 0 {
        target
    } else {
        Expr::Pi(Box::new(tys[0]), Box::new(pis(tys.drop_first(), target)))
    }
}

/// `Pi` over each binder of a telescope, ending in `target`.
pub fn telescope_type(bs: &Vec<Binder>, target: Term) -> (r: Term)
    ensures
        r@ == pis(binder_types(bs@), target@),
{
    let ghost tys = binder_types(bs@);
    let ghost tv = target@;
    let n = bs.len();
    let mut acc = target;
    let mut i: usize = n;
    assert(tys.subrange(n as int, n as int) =~= Seq::<Expr>::empty());
    while i > 0
        invariant
            i <= n,
            n == bs.len(),
            tys == binder_types(bs@),
            acc@ == pis(tys.subrange(i as int, n as int), tv),
        decreases i,
    {
        i = i - 1;
        acc = Term::Pi {
            name: copy_name(&bs[i].name),
            domain: Box::new(copy_term(&bs[i].typ)),
            codomain: Box::new(acc),
        };
        assert(tys.subrange(i as int, n as int).drop_first() =~= tys.subrange(i + 1, n as int));
    }
    assert(tys.subrange(0, n as int) =~= tys);
    acc
}

/// The context extended by the types of a telescope.
pub fn extend_context(ctx: &Vec<Term>, bs: &Vec<Binder>) -> (r: Vec<Term>)
    ensures
        terms_view(r@) == terms_view(ctx@) + binder_types(bs@),
{
    let mut r = copy_terms(ctx);
    assert(terms_view(r@) =~= terms_view(ctx@) + binder_types(bs@).subrange(0, 0));
    let mut i: usize = 0;
    while i < bs.len()
        invariant
            i <= bs.len(),
            terms_view(r@) == terms_view(ctx@) + binder_types(bs@).subrange(0, i as int),
        decreases bs.len() - i,
    {
        let ghost old_r = r@;
        r.push(copy_term(&bs[i].typ));
        i = i + 1;
        assert(terms_view(r@) =~= terms_view(old_r).push(bs@[i - 1].typ@));
        assert(terms_view(r@) =~= terms_view(ctx@) + binder_types(bs@).subrange(0, i as int));
    }
    assert(binder_types(bs@).subrange(0, bs.len() as int) =~= binder_types(bs@));
    r
}

/// The name given to the motive's trailing parameter.
pub fn self_name() -> (r: Vec<u8>)
    ensures
        r@ == seq![115u8, 101u8, 108u8, 102u8],
{
    let mut r: Vec<u8> = Vec::new();
    r.push(115u8);
    r.push(101u8);
    r.push(108u8);
    r.push(102u8);
    assert(r@ =~= seq![115u8, 101u8, 108u8, 102u8]);
    r
}


/// The variables `Var(n-1), ..., Var(0)`, outermost first.
pub open spec fn vars(n: nat) -> Seq<Expr> {
    Seq::new(n, |k: int| Expr::Var((n - 1 - k) as nat))
}

/// `n` copies of `Universe`.
pub open spec fn universes(n: nat) -> Seq<Expr> {
    Seq::new(n, |k: int| Expr::Universe)
}

/// The type of local variable `i` in `ctx` (its last entry is variable 0).
pub open spec fn var_type_of(ctx: Seq<Expr>, i: nat) -> Result<Expr, Fault> {
    if i >= ctx.len() {
        Err(Fault::UnknownReference(Seq::empty()))
    } else {
        match shift(ctx[ctx.len() - 1 - i], 0, i + 1) {
            Some(t) => Ok(t),
            None => Err(Fault::IndexOverflow),
        }
    }
}

/// The type of a global name: a datatype former is a function from its
/// parameters to `Universe`, a constructor one from its fields to its datatype
/// applied to the indices it produces, and a definition has the type of its
/// outer ascription (or, lacking one, the type inferred for its body).
pub open spec fn global_type_of(es: Seq<Entry>, name: Seq<u8>, fuel: nat) -> Result<Expr, Fault>
    decreases fuel, 1nat, 0nat,
{
    match find(es, name) {
        None => Err(Fault::UnknownReference(name)),
        Some(i) => match es[i].kind {
            EntryKind::Datatype { params, .. } => Ok(pis(binder_types(params@), Expr::Universe)),
            EntryKind::Constructor { datatype, fields, indices } => Ok(
                pis(
                    binder_types(fields@),
                    apply_all(Expr::Ref(datatype@), crate::reduce::terms_view(indices@)),
                ),
            ),
            EntryKind::Definition { body } => match body {
                Term::Ann { typ, .. } => Ok(typ@),
                _ => if fuel == 0 {
                    Err(Fault::OutOfFuel)
                } else {
                    infer(body@, Seq::empty(), es, (fuel - 1) as nat)
                },
            },
        },
    }
}

/// Type inference (the synthesis half of the bidirectional rules), with `fuel`
/// bounding the depth of checking and each reduction.
pub open spec fn infer(e: Expr, ctx: Seq<Expr>, es: Seq<Entry>, fuel: nat) -> Result<Expr, Fault>
    decreases fuel, 2nat, 0nat,
{
    if fuel == 0 {
        Err(Fault::OutOfFuel)
    } else {
        let f = (fuel - 1) as nat;
        match e {
            Expr::Universe => Ok(Expr::Universe),
            Expr::Var(i) => var_type_of(ctx, i),
            Expr::Ref(n) => global_type_of(es, n, fuel),
            Expr::Lambda(_) => Err(Fault::NeedsAnnotation),
            Expr::Pi(d, c) => match check(*d, Expr::Universe, ctx, es, f) {
                Err(x) => Err(x),
                Ok(_) => match check(*c, Expr::Universe, ctx.push(*d), es, f) {
                    Err(x) => Err(x),
                    Ok(_) => Ok(Expr::Universe),
                },
            },
            Expr::Apply(g, a) => match infer(*g, ctx, es, f) {
                Err(x) => Err(x),
                Ok(ft) => match whnf(ft, es, fuel) {
                    Err(x) => Err(x@),
                    Ok(w) => match w {
                        Expr::Pi(d, c) => match check(*a, *d, ctx, es, f) {
                            Err(x) => Err(x),
                            Ok(_) => match subst(*c, 0, *a) {
                                Some(r) => Ok(r),
                                None => Err(Fault::IndexOverflow),
                            },
                        },
                        _ => Err(Fault::NonFunctionApplied(*g)),
                    },
                },
            },
            Expr::Ann(x, t) => match check(*t, Expr::Universe, ctx, es, f) {
                Err(y) => Err(y),
                Ok(_) => match check(*x, *t, ctx, es, f) {
                    Err(y) => Err(y),
                    Ok(_) => Ok(*t),
                },
            },
            Expr::Case(s, m, arms) => infer_case_of(*s, m, arms, ctx, es, fuel),
        }
    }
}

/// Type checking: a `Lambda` against a type whose weak-head form is a `Pi`
/// checks its body against the codomain; anything else has its type inferred,
/// which must be convertible to the expected one.
pub open spec fn check(e: Expr, ty: Expr, ctx: Seq<Expr>, es: Seq<Entry>, fuel: nat) -> Result<(), Fault>
    decreases fuel, 2nat, 0nat,
{
    if fuel == 0 {
        Err(Fault::OutOfFuel)
    } else {
        let f = (fuel - 1) as nat;
        match e {
            Expr::Lambda(b) => match whnf(ty, es, fuel) {
                Err(x) => Err(x@),
                Ok(w) => match w {
                    Expr::Pi(d, c) => check(*b, *c, ctx.push(*d), es, f),
                    _ => Err(Fault::NeedsAnnotation),
                },
            },
            _ => match infer(e, ctx, es, f) {
                Err(x) => Err(x),
                Ok(found) => if convertible(found, ty, es, fuel) {
                    Ok(())
                } else {
                    Err(Fault::TypeMismatch(ty, found))
                },
            },
        }
    }
}

/// The type of `case s` over the arms `arms`. The scrutinee's type must reduce
/// to a datatype former applied to its indices; the arms must name exactly its
/// constructors (`coverage`). With a motive `m`, the motive must check as a
/// function of the indices and the scrutinee itself into `Universe`, each arm
/// must check against `m` applied to its constructor's indices and to the
/// constructor applied to the arm's fields, and the type is `m` applied to
/// the scrutinee's indices and the scrutinee. Without a motive there must be
/// at least one arm, and the arms' types, which may not mention their fields,
/// must all be convertible to the first one, which is the type.
pub open spec fn infer_case_of(
    s: Expr,
    m: Option<Box<Expr>>,
    arms: Seq<Arm>,
    ctx: Seq<Expr>,
    es: Seq<Entry>,
    fuel: nat,
) -> Result<Expr, Fault>
    decreases fuel, 1nat, 0nat,
{
    if fuel == 0 {
        Err(Fault::OutOfFuel)
    } else {
        let f = (fuel - 1) as nat;
        match infer(s, ctx, es, f) {
            Err(x) => Err(x),
            Ok(st) => match whnf(st, es, fuel) {
                Err(x) => Err(x@),
                Ok(w) => match spine_head(w) {
                    Expr::Ref(d) => match find(es, d) {
                        Some(i) => match es[i].kind {
                            EntryKind::Datatype { params, ctors } => if spine_args(w).len()
                                != params.len() {
                                Err(Fault::NonDatatypeScrutinee(s))
                            } else {
                                match coverage(names_view(ctors@), arm_names(arms)) {
                                    Err(x) => Err(x),
                                    Ok(_) => match m {
                                        Some(mm) => if params.len() >= u64::MAX {
                                            Err(Fault::IndexOverflow)
                                        } else {
                                            let mty = pis(
                                                binder_types(params@),
                                                Expr::Pi(
                                                    Box::new(apply_all(Expr::Ref(d), vars(params.len() as nat))),
                                                    Box::new(Expr::Universe),
                                                ),
                                            );
                                            match check(*mm, mty, ctx, es, f) {
                                                Err(x) => Err(x),
                                                Ok(_) => match motive_arms(*mm, ctors@, 0, arms, ctx, es, fuel) {
                                                    Err(x) => Err(x),
                                                    Ok(_) => Ok(apply_all(*mm, spine_args(w).push(s))),
                                                },
                                            }
                                        },
                                        None => if arms.len() == 0 {
                                            Err(Fault::NeedsAnnotation)
                                        } else {
                                            free_arms(arms, 0, None, ctx, es, fuel)
                                        },
                                    },
                                }
                            },
                            _ => Err(Fault::NonDatatypeScrutinee(s)),
                        },
                        None => Err(Fault::NonDatatypeScrutinee(s)),
                    },
                    _ => Err(Fault::NonDatatypeScrutinee(s)),
                },
            },
        }
    }
}

/// Checks the arm of each constructor from position `c` on against the motive
/// `m` applied to that constructor's indices and to the constructor applied to
/// the arm's fields (the self-substitution).
pub open spec fn motive_arms(
    m: Expr,
    ctors: Seq<Vec<u8>>,
    c: int,
    arms: Seq<Arm>,
    ctx: Seq<Expr>,
    es: Seq<Entry>,
    fuel: nat,
) -> Result<(), Fault>
    decreases fuel, 0nat, ctors.len() - c,
{
    if c < 0 || c >= ctors.len() {
        Ok(())
    } else if fuel == 0 {
        Err(Fault::OutOfFuel)
    } else {
        let cn = ctors[c]@;
        match find_arm(arms, cn, 0) {
            None => Err(Fault::MissingBranch(cn)),
            Some(k) => match find(es, cn) {
                None => Err(Fault::UnknownReference(cn)),
                Some(ci) => match es[ci].kind {
                    EntryKind::Constructor { fields, indices, .. } => if arms[k].arity != fields.len() {
                        Err(Fault::MotiveArityMismatch)
                    } else {
                        match shift(m, 0, fields.len() as nat) {
                            None => Err(Fault::IndexOverflow),
                            Some(ms) => {
                                let expected = apply_all(
                                    ms,
                                    crate::reduce::terms_view(indices@).push(
                                        apply_all(Expr::Ref(cn), vars(fields.len() as nat)),
                                    ),
                                );
                                match check(
                                    arms[k].body,
                                    expected,
                                    ctx + binder_types(fields@),
                                    es,
                                    (fuel - 1) as nat,
                                ) {
                                    Err(x) => Err(x),
                                    Ok(_) => motive_arms(m, ctors, c + 1, arms, ctx, es, fuel),
                                }
                            },
                        }
                    },
                    _ => Err(Fault::UnknownBranch(cn)),
                },
            },
        }
    }
}

/// Infers the arms from position `k` on without a motive; `first` is the type
/// of the first arm, once known.
pub open spec fn free_arms(
    arms: Seq<Arm>,
    k: int,
    first: Option<Expr>,
    ctx: Seq<Expr>,
    es: Seq<Entry>,
    fuel: nat,
) -> Result<Expr, Fault>
    decreases fuel, 0nat, arms.len() - k,
{
    if k < 0 || k >= arms.len() {
        match first {
            Some(t) => Ok(t),
            None => Err(Fault::NeedsAnnotation),
        }
    } else if fuel == 0 {
        Err(Fault::OutOfFuel)
    } else {
        let cn = arms[k].ctor;
        match find(es, cn) {
            None => Err(Fault::UnknownReference(cn)),
            Some(ci) => match es[ci].kind {
                EntryKind::Constructor { fields, .. } => if arms[k].arity != fields.len() {
                    Err(Fault::MotiveArityMismatch)
                } else {
                    match infer(arms[k].body, ctx + binder_types(fields@), es, (fuel - 1) as nat) {
                        Err(x) => Err(x),
                        Ok(ty) => if mentions(ty, 0, fields.len() as nat) {
                            Err(Fault::NeedsAnnotation)
                        } else {
                            match instantiate(ty, universes(fields.len() as nat)) {
                                None => Err(Fault::IndexOverflow),
                                Some(low) => match first {
                                    None => free_arms(arms, k + 1, Some(low), ctx, es, fuel),
                                    Some(t0) => if !convertible(low, t0, es, fuel) {
                                        Err(Fault::TypeMismatch(t0, low))
                                    } else {
                                        free_arms(arms, k + 1, Some(t0), ctx, es, fuel)
                                    },
                                },
                            }
                        },
                    }
                },
                _ => Err(Fault::UnknownBranch(cn)),
            },
        }
    }
}

/// The model of an optional motive.
pub open spec fn motive_view(m: Option<Box<Term>>) -> Option<Box<Expr>> {
    match m {
        Some(x) => Some(Box::new(x@)),
        None => None,
    }
}

/// The type of the local variable `i` in `ctx` (the last entry is variable 0).
pub fn var_type(ctx: &Vec<Term>, i: u64) -> (r: Result<Term, Error>)
    ensures
        typed_view(r) == var_type_of(terms_view(ctx@), i as nat),
{
    if i >= ctx.len() as u64 || i == u64::MAX {
        return Err(Error::UnknownReference(Vec::new()));
    }
    let k = ctx.len() - 1 - i as usize;
    assert(terms_view(ctx@)[k as int] == ctx@[k as int]@);
    match shift_term(&ctx[k], 0, i + 1) {
        Some(t) => Ok(t),
        None => Err(Error::IndexOverflow),
    }
}

/// The type of a global name.
pub fn global_type(env: &Env, name: &Vec<u8>, fuel: u64) -> (r: Result<Term, Error>)
    requires
        fuel > 0,
    ensures
        typed_view(r) == global_type_of(env.entries@, name@, fuel as nat),
    decreases fuel, 1nat,
{
    let i = match env.lookup(name) {
        Some(i) => i,
        None => return Err(Error::UnknownReference(copy_name(name))),
    };
    match &env.entries[i].kind {
        EntryKind::Datatype { params, .. } => Ok(telescope_type(params, Term::Universe)),
        EntryKind::Constructor { datatype, fields, indices } => {
            let args = copy_terms(indices);
            assert(terms_view(args@) =~= terms_view(indices@));
            let target = apply_spine(Term::Ref { name: copy_name(datatype) }, args);
            Ok(telescope_type(fields, target))
        },
        EntryKind::Definition { body } => match body {
            Term::Ann { typ, .. } => Ok(copy_term(typ)),
            _ => {
                let empty: Vec<Term> = Vec::new();
                assert(terms_view(empty@) =~= Seq::<Expr>::empty());
                infer_term(body, env, &empty, fuel - 1)
            },
        },
    }
}

/// The context extended by one type.
pub fn push_context(ctx: &Vec<Term>, t: &Term) -> (r: Vec<Term>)
    ensures
        terms_view(r@) == terms_view(ctx@).push(t@),
{
    let mut r = copy_terms(ctx);
    r.push(copy_term(t));
    assert(terms_view(r@) =~= terms_view(ctx@).push(t@));
    r
}

/// Infers the type of `t` in the local context `ctx`, with `fuel` bounding the
/// depth of checking and each reduction.
pub fn infer_term(t: &Term, env: &Env, ctx: &Vec<Term>, fuel: u64) -> (r: Result<Term, Error>)
    ensures
        typed_view(r) == infer(t@, terms_view(ctx@), env.entries@, fuel as nat),
    decreases fuel, 2nat,
{
    if fuel == 0 {
        return Err(Error::OutOfFuel);
    }
    let f = fuel - 1;
    match t {
        Term::Universe => Ok(Term::Universe),
        Term::Var { index } => var_type(ctx, *index),
        Term::Ref { name } => global_type(env, name, fuel),
        Term::Lambda { .. } => Err(Error::NeedsAnnotation),
        Term::Pi { domain, codomain, .. } => {
            match check_term(domain, &Term::Universe, env, ctx, f) {
                Ok(()) => {},
                Err(x) => return Err(x),
            }
            let ctx2 = push_context(ctx, domain);
            match check_term(codomain, &Term::Universe, env, &ctx2, f) {
                Ok(()) => Ok(Term::Universe),
                Err(x) => Err(x),
            }
        },
        Term::Apply { function, argument } => {
            let ft = match infer_term(function, env, ctx, f) {
                Ok(x) => x,
                Err(x) => return Err(x),
            };
            let w = match whnf_term(&ft, env, fuel) {
                Ok(x) => x,
                Err(x) => return Err(x),
            };
            match w {
                Term::Pi { domain, codomain, .. } => {
                    match check_term(argument, &domain, env, ctx, f) {
                        Ok(()) => {},
                        Err(x) => return Err(x),
                    }
                    match subst_term(&codomain, 0, argument) {
                        Some(r) => Ok(r),
                        None => Err(Error::IndexOverflow),
                    }
                },
                _ => Err(Error::NonFunctionApplied(copy_term(function))),
            }
        },
        Term::Ann { term, typ } => {
            match check_term(typ, &Term::Universe, env, ctx, f) {
                Ok(()) => {},
                Err(x) => return Err(x),
            }
            match check_term(term, typ, env, ctx, f) {
                Ok(()) => Ok(copy_term(typ)),
                Err(x) => Err(x),
            }
        },
        Term::Case { scrutinee, motive, branches } => infer_case(
            scrutinee,
            motive,
            branches,
            env,
            ctx,
            fuel,
        ),
    }
}

/// Checks that `t` has type `expected` in `ctx`.
pub fn check_term(t: &Term, expected: &Term, env: &Env, ctx: &Vec<Term>, fuel: u64) -> (r: Result<(), Error>)
    ensures
        unit_view(r) == check(t@, expected@, terms_view(ctx@), env.entries@, fuel as nat),
    decreases fuel, 2nat,
{
    if fuel == 0 {
        return Err(Error::OutOfFuel);
    }
    let f = fuel - 1;
    if let Term::Lambda { body, .. } = t {
        let w = match whnf_term(expected, env, fuel) {
            Ok(x) => x,
            Err(x) => return Err(x),
        };
        if let Term::Pi { domain, codomain, .. } = w {
            let ctx2 = push_context(ctx, &domain);
            return check_term(body, &codomain, env, &ctx2, f);
        }
        return Err(Error::NeedsAnnotation);
    }
    let found = match infer_term(t, env, ctx, f) {
        Ok(x) => x,
        Err(x) => return Err(x),
    };
    check_inferred(found, expected, env, fuel)
}

/// Accepts an inferred type `found` where `expected` is wanted: they must be
/// convertible, else the mismatch is reported.
pub fn check_inferred(found: Term, expected: &Term, env: &Env, fuel: u64) -> (r: Result<(), Error>)
    ensures
        r is Ok <==> convertible(found@, expected@, env.entries@, fuel as nat),
        r matches Err(Error::TypeMismatch { expected: e, found: g }) ==> e@ == expected@ && g@ == found@,
        r is Err ==> r->Err_0 is TypeMismatch,
{
    if convertible_terms(&found, expected, env, fuel) {
        Ok(())
    } else {
        Err(Error::TypeMismatch { expected: copy_term(expected), found })
    }
}


/// Infers the type of a case expression, by the rule that `infer_case_of`
/// states. A case without a motive is rejected with `NeedsAnnotation` when it
/// has no arms, or when an arm's type mentions that arm's fields.
pub fn infer_case(
    scrutinee: &Term,
    motive: &Option<Box<Term>>,
    branches: &Vec<Branch>,
    env: &Env,
    ctx: &Vec<Term>,
    fuel: u64,
) -> (r: Result<Term, Error>)
    requires
        fuel > 0,
    ensures
        typed_view(r) == infer_case_of(
            scrutinee@,
            motive_view(*motive),
            arms_view(branches@),
            terms_view(ctx@),
            env.entries@,
            fuel as nat,
        ),
    decreases fuel, 1nat,
{
    let f = fuel - 1;
    let ghost es = env.entries@;
    let ghost cv = terms_view(ctx@);
    let ghost av = arms_view(branches@);
    proof {
        lemma_arms_view_index(branches@);
        assert(arm_names(av) =~= branch_names(branches@));
    }
    let st = match infer_term(scrutinee, env, ctx, f) {
        Ok(x) => x,
        Err(x) => return Err(x),
    };
    let w = match whnf_term(&st, env, fuel) {
        Ok(x) => x,
        Err(x) => return Err(x),
    };
    let dname = match head_of(&w) {
        Term::Ref { name } => copy_name(name),
        _ => return Err(Error::NonDatatypeScrutinee(copy_term(scrutinee))),
    };
    let di = match env.lookup(&dname) {
        Some(i) => i,
        None => return Err(Error::NonDatatypeScrutinee(copy_term(scrutinee))),
    };
    let (params, ctors) = match &env.entries[di].kind {
        EntryKind::Datatype { params, ctors } => (params, ctors),
        _ => return Err(Error::NonDatatypeScrutinee(copy_term(scrutinee))),
    };
    let idx = args_of(&w);
    if idx.len() != params.len() {
        return Err(Error::NonDatatypeScrutinee(copy_term(scrutinee)));
    }
    match check_coverage(ctors, branches) {
        Ok(()) => {},
        Err(x) => return Err(x),
    }
    match motive {
        Some(m) => {
            if params.len() as u64 >= u64::MAX {
                return Err(Error::IndexOverflow);
            }
            let vs = bound_vars(params.len() as u64);
            assert(terms_view(vs@) =~= vars(params.len() as nat));
            let self_ty = apply_spine(Term::Ref { name: copy_name(&dname) }, vs);
            let mty = telescope_type(
                params,
                Term::Pi { name: self_name(), domain: Box::new(self_ty), codomain: Box::new(Term::Universe) },
            );
            match check_term(m, &mty, env, ctx, f) {
                Ok(()) => {},
                Err(x) => return Err(x),
            }
            match check_motive_arms(m, ctors, branches, env, ctx, fuel) {
                Ok(()) => {},
                Err(x) => return Err(x),
            }
            let ghost iv = terms_view(idx@);
            let mut args = idx;
            args.push(copy_term(scrutinee));
            assert(terms_view(args@) =~= iv.push(scrutinee@));
            Ok(apply_spine(copy_term(m), args))
        },
        None => {
            if branches.len() == 0 {
                return Err(Error::NeedsAnnotation);
            }
            infer_free_arms(branches, env, ctx, fuel)
        },
    }
}

/// Checks each constructor's arm against its instance of the motive `m`.
pub fn check_motive_arms(
    m: &Term,
    ctors: &Vec<Vec<u8>>,
    branches: &Vec<Branch>,
    env: &Env,
    ctx: &Vec<Term>,
    fuel: u64,
) -> (r: Result<(), Error>)
    requires
        fuel > 0,
    ensures
        unit_view(r) == motive_arms(
            m@,
            ctors@,
            0,
            arms_view(branches@),
            terms_view(ctx@),
            env.entries@,
            fuel as nat,
        ),
    decreases fuel, 0nat,
{
    let f = fuel - 1;
    let ghost es = env.entries@;
    let ghost cv = terms_view(ctx@);
    let ghost av = arms_view(branches@);
    proof {
        lemma_arms_view_index(branches@);
    }
    let mut c: usize = 0;
    #[verifier::loop_isolation(false)]
    while c < ctors.len()
        invariant
            c <= ctors.len(),
            f < fuel,
            f == fuel - 1,
            es == env.entries@,
            cv == terms_view(ctx@),
            av == arms_view(branches@),
            av.len() == branches.len(),
            forall|k: int| 0 <= k < branches.len() ==> #[trigger] av[k] == arm_of(branches@[k]),
            motive_arms(m@, ctors@, 0, av, cv, es, fuel as nat) == motive_arms(
                m@,
                ctors@,
                c as int,
                av,
                cv,
                es,
                fuel as nat,
            ),
        decreases ctors.len() - c,
    {
        let k = match crate::reduce::find_branch(branches, &ctors[c]) {
            Some(k) => k,
            None => return Err(Error::MissingBranch(copy_name(&ctors[c]))),
        };
        let ci = match env.lookup(&ctors[c]) {
            Some(i) => i,
            None => return Err(Error::UnknownReference(copy_name(&ctors[c]))),
        };
        let (fields, indices) = match &env.entries[ci].kind {
            EntryKind::Constructor { fields, indices, .. } => (fields, indices),
            _ => return Err(Error::UnknownBranch(copy_name(&ctors[c]))),
        };
        let n = fields.len();
        if branches[k].fields.len() != n {
            return Err(Error::MotiveArityMismatch);
        }
        let ms = match shift_term(m, 0, n as u64) {
            Some(x) => x,
            None => return Err(Error::IndexOverflow),
        };
        let mut args = copy_terms(indices);
        let cvs = bound_vars(n as u64);
        assert(terms_view(cvs@) =~= vars(n as nat));
        let capp = apply_spine(Term::Ref { name: copy_name(&ctors[c]) }, cvs);
        let ghost old_args = args@;
        args.push(capp);
        assert(terms_view(args@) =~= terms_view(indices@).push(capp@)) by {
            assert(terms_view(old_args) =~= terms_view(indices@));
        }
        let expected = apply_spine(ms, args);
        let ctx2 = extend_context(ctx, fields);
        assert(terms_view(ctx2@) =~= cv + binder_types(fields@));
        match check_term(&branches[k].body, &expected, env, &ctx2, f) {
            Ok(()) => {},
            Err(x) => return Err(x),
        }
        c = c + 1;
    }
    Ok(())
}

/// Infers the arms of a case without a motive: their types must agree.
pub fn infer_free_arms(branches: &Vec<Branch>, env: &Env, ctx: &Vec<Term>, fuel: u64) -> (r: Result<Term, Error>)
    requires
        fuel > 0,
    ensures
        typed_view(r) == free_arms(
            arms_view(branches@),
            0,
            None,
            terms_view(ctx@),
            env.entries@,
            fuel as nat,
        ),
    decreases fuel, 0nat,
{
    let f = fuel - 1;
    let ghost es = env.entries@;
    let ghost cv = terms_view(ctx@);
    let ghost av = arms_view(branches@);
    proof {
        lemma_arms_view_index(branches@);
    }
    let mut first: Option<Term> = None;
    let mut k: usize = 0;
    #[verifier::loop_isolation(false)]
    while k < branches.len()
        invariant
            k <= branches.len(),
            f < fuel,
            f == fuel - 1,
            es == env.entries@,
            cv == terms_view(ctx@),
            av == arms_view(branches@),
            av.len() == branches.len(),
            forall|j: int| 0 <= j < branches.len() ==> #[trigger] av[j] == arm_of(branches@[j]),
            free_arms(av, 0, None, cv, es, fuel as nat) == free_arms(
                av,
                k as int,
                opt_view(first),
                cv,
                es,
                fuel as nat,
            ),
        decreases branches.len() - k,
    {
        let ci = match env.lookup(&branches[k].ctor) {
            Some(i) => i,
            None => return Err(Error::UnknownReference(copy_name(&branches[k].ctor))),
        };
        let fields = match &env.entries[ci].kind {
            EntryKind::Constructor { fields, .. } => fields,
            _ => return Err(Error::UnknownBranch(copy_name(&branches[k].ctor))),
        };
        if branches[k].fields.len() != fields.len() {
            return Err(Error::MotiveArityMismatch);
        }
        let ctx2 = extend_context(ctx, fields);
        assert(terms_view(ctx2@) =~= cv + binder_types(fields@));
        let ty = match infer_term(&branches[k].body, env, &ctx2, f) {
            Ok(x) => x,
            Err(x) => return Err(x),
        };
        if mentions_term(&ty, 0, fields.len() as u64) {
            return Err(Error::NeedsAnnotation);
        }
        let mut holes: Vec<Term> = Vec::new();
        let mut h: usize = 0;
        while h < fields.len()
            invariant
                h <= fields.len(),
                holes.len() == h,
                forall|j: int| 0 <= j < h ==> #[trigger] holes@[j]@ == Expr::Universe,
            decreases fields.len() - h,
        {
            holes.push(Term::Universe);
            h = h + 1;
        }
        assert(terms_view(holes@) =~= universes(fields.len() as nat));
        let lowered = match crate::reduce::instantiate_term(&ty, &holes) {
            Some(x) => x,
            None => return Err(Error::IndexOverflow),
        };
        match first {
            None => {
                first = Some(lowered);
            },
            Some(t0) => {
                if !convertible_terms(&lowered, &t0, env, fuel) {
                    return Err(Error::TypeMismatch { expected: t0, found: lowered });
                }
                first = Some(t0);
            },
        }
        k = k + 1;
    }
    match first {
        Some(t0) => Ok(t0),
        None => Err(Error::NeedsAnnotation),
    }
}

} // verus!
