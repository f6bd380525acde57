use vstd::prelude::*;

verus! {

broadcast use {
    vstd::std_specs::vec::axiom_vec_decreases_to_view,
    vstd::seq::axiom_seq_index_decreases,
    vstd::seq::axiom_seq_subrange_decreases,
};

/// The mathematical model of a term: bound variables are de Bruijn indices and
/// binder display names are dropped, so equality of models is alpha-equivalence.
pub enum Expr {
    Universe,
    Var(nat),
    Ref(Seq<u8>),
    Pi(Box<Expr>, Box<Expr>),
    Lambda(Box<Expr>),
    Apply(Box<Expr>, Box<Expr>),
    Ann(Box<Expr>, Box<Expr>),
    Case(Box<Expr>, Option<Box<Expr>>, Seq<Arm>),
}

/// Model of a case branch: the constructor it names, how many fields it binds,
/// and its body (which sees the fields as its innermost variables).
pub struct Arm {
    pub ctor: Seq<u8>,
    pub arity: nat,
    pub body: Expr,
}

/// A term of the language. `Var` holds a de Bruijn index (0 is the innermost
/// binder); binder names are kept for display only.
pub enum Term {
    Universe,
    Var { index: u64 },
    Ref { name: Vec<u8> },
    Pi { name: Vec<u8>, domain: Box<Term>, codomain: Box<Term> },
    Lambda { name: Vec<u8>, body: Box<Term> },
    Apply { function: Box<Term>, argument: Box<Term> },
    Ann { term: Box<Term>, typ: Box<Term> },
    Case { scrutinee: Box<Term>, motive: Option<Box<Term>>, branches: Vec<Branch> },
}

/// One branch of a case: `ctor(fields...) => body`.
pub struct Branch {
    pub ctor: Vec<u8>,
    pub fields: Vec<Vec<u8>>,
    pub body: Term,
}

/// The models of a sequence of branches, in order.
pub open spec fn arms_view(bs: Seq<Branch>) -> Seq<Arm>
    decreases bs,
{
    if bs.len() == 0 {
        Seq::empty()
    } else {
        seq![arm_of(bs[0])]
            + arms_view(bs.drop_first())
    }
}

impl Term {
    pub open spec fn view(&self) -> Expr
        decreases self,
    {
        match self {
            Term::Universe => Expr::Universe,
            Term::Var { index } => Expr::Var(*index as nat),
            Term::Ref { name } => Expr::Ref(name@),
            Term::Pi { domain, codomain, .. } => Expr::Pi(
                Box::new(domain.view()),
                Box::new(codomain.view()),
            ),
            Term::Lambda { body, .. } => Expr::Lambda(Box::new(body.view())),
            Term::Apply { function, argument } => Expr::Apply(
                Box::new(function.view()),
                Box::new(argument.view()),
            ),
            Term::Ann { term, typ } => Expr::Ann(Box::new(term.view()), Box::new(typ.view())),
            Term::Case { scrutinee, motive, branches } => Expr::Case(
                Box::new(scrutinee.view()),
                match motive {
                    Some(m) => Some(Box::new(m.view())),
                    None => None,
                },
                arms_view(branches@),
            ),
        }
    }
}


/// The model of one branch.
pub open spec fn arm_of(b: Branch) -> Arm
    decreases b,
{
    Arm { ctor: b.ctor@, arity: b.fields.len() as nat, body: b.body.view() }
}

/// Unfolds `arms_view` on a suffix of a sequence of branches.
pub proof fn lemma_arms_view_suffix(bs: Seq<Branch>, i: int)
    requires
        0 <= i <= bs.len(),
    ensures
        i == bs.len() ==> arms_view(bs.subrange(i, bs.len() as int)) == Seq::<Arm>::empty(),
        i < bs.len() ==> arms_view(bs.subrange(i, bs.len() as int)) == seq![arm_of(bs[i])]
            + arms_view(bs.subrange(i + 1, bs.len() as int)),
{
    let s = bs.subrange(i, bs.len() as int);
    if i < bs.len() {
        assert(s.drop_first() =~= bs.subrange(i + 1, bs.len() as int));
    }
}

/// `arms_view` keeps the length and maps each branch to its model.
pub proof fn lemma_arms_view_index(bs: Seq<Branch>)
    ensures
        arms_view(bs).len() == bs.len(),
        forall|k: int| 0 <= k < bs.len() ==> #[trigger] arms_view(bs)[k] == arm_of(bs[k]),
    decreases bs.len(),
{
    if bs.len() > 0 {
        lemma_arms_view_index(bs.drop_first());
        assert forall|k: int| 0 <= k < bs.len() implies #[trigger] arms_view(bs)[k] == arm_of(
            bs[k],
        ) by {
            if k > 0 {
                assert(bs.drop_first()[k - 1] == bs[k]);
            }
        }
    }
}


/// `arms_view` commutes with taking a suffix.
pub proof fn lemma_arms_view_subrange(bs: Seq<Branch>, i: int)
    requires
        0 <= i <= bs.len(),
    ensures
        arms_view(bs.subrange(i, bs.len() as int)) == arms_view(bs).subrange(i, bs.len() as int),
{
    let s = bs.subrange(i, bs.len() as int);
    lemma_arms_view_index(bs);
    lemma_arms_view_index(s);
    assert(arms_view(s) =~= arms_view(bs).subrange(i, bs.len() as int));
}


/// `arms_view` of a sequence with one more branch at the end.
pub proof fn lemma_arms_view_push(bs: Seq<Branch>, b: Branch)
    ensures
        arms_view(bs.push(b)) == arms_view(bs).push(arm_of(b)),
{
    lemma_arms_view_index(bs);
    lemma_arms_view_index(bs.push(b));
    assert(arms_view(bs.push(b)) =~= arms_view(bs).push(arm_of(b)));
}

} // verus!
