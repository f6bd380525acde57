use vstd::prelude::*;
use crate::term::Term;

verus! {

/// A named, typed parameter of a telescope.
pub struct Binder {
    pub name: Vec<u8>,
    pub typ: Term,
}

/// What a global name stands for.
pub enum EntryKind {
    /// A datatype former: its parameter/index telescope and its constructors,
    /// in the canonical branch order.
    Datatype { params: Vec<Binder>, ctors: Vec<Vec<u8>> },
    /// A constructor: its owning datatype, its field telescope (which includes
    /// the datatype's parameters), and the index values it produces.
    Constructor { datatype: Vec<u8>, fields: Vec<Binder>, indices: Vec<Term> },
    /// A top-level definition; its body carries its type as an outer `Ann`.
    Definition { body: Term },
}

/// One global declaration.
pub struct Entry {
    pub name: Vec<u8>,
    pub kind: EntryKind,
}

/// The global environment: read-only once built.
pub struct Env {
    pub entries: Vec<Entry>,
}

/// The position of the first entry of `es`, from `i` on, named `name`.
pub open spec fn find_from(es: Seq<Entry>, name: Seq<u8>, i: int) -> Option<int>
    decreases es.len() - i,
{
    if i < 0 || i >= es.len() {
        None
    } else if es[i].name@ == name {
        Some(i)
    } else {
        find_from(es, name, i + 1)
    }
}

/// The position of the entry that `name` resolves to.
pub open spec fn find(es: Seq<Entry>, name: Seq<u8>) -> Option<int> {
    find_from(es, name, 0)
}

/// The body of the definition named `name`, if `name` names a definition.
pub open spec fn def_body(es: Seq<Entry>, name: Seq<u8>) -> Option<crate::term::Expr> {
    match find(es, name) {
        Some(i) => match es[i].kind {
            EntryKind::Definition { body } => Some(body@),
            _ => None,
        },
        None => None,
    }
}

/// Whether `name` names a constructor.
pub open spec fn is_ctor(es: Seq<Entry>, name: Seq<u8>) -> bool {
    match find(es, name) {
        Some(i) => es[i].kind is Constructor,
        None => false,
    }
}

/// Whether two names are equal.
pub fn same_name(a: &Vec<u8>, b: &Vec<u8>) -> (r: bool)
    ensures
        r == (a@ == b@),
{
    if a.len() != b.len() {
        return false;
    }
    let mut i: usize = 0;
    while i < a.len()
        invariant
            i <= a.len(),
            a.len() == b.len(),
            a@.subrange(0, i as int) == b@.subrange(0, i as int),
        decreases a.len() - i,
    {
        if a[i] != b[i] {
            assert(a@[i as int] != b@[i as int]);
            return false;
        }
        i = i + 1;
        assert(a@.subrange(0, i as int) =~= a@.subrange(0, i - 1).push(a@[i - 1]));
        assert(b@.subrange(0, i as int) =~= b@.subrange(0, i - 1).push(b@[i - 1]));
    }
    assert(a@ =~= a@.subrange(0, a.len() as int));
    assert(b@ =~= b@.subrange(0, b.len() as int));
    true
}

impl Env {
    /// Resolves a global name to the position of its entry.
    pub fn lookup(&self, name: &Vec<u8>) -> (r: Option<usize>)
        ensures
            match r {
                Some(i) => i < self.entries.len() && find(self.entries@, name@) == Some(i as int),
                None => find(self.entries@, name@) is None,
            },
    {
        let mut i: usize = 0;
        while i < self.entries.len()
            invariant
                i <= self.entries.len(),
                find(self.entries@, name@) == find_from(self.entries@, name@, i as int),
            decreases self.entries.len() - i,
        {
            if same_name(&self.entries[i].name, name) {
                return Some(i);
            }
            i = i + 1;
        }
        None
    }

    /// Whether `name` names a constructor.
    pub fn is_ctor_name(&self, name: &Vec<u8>) -> (r: bool)
        ensures
            r == is_ctor(self.entries@, name@),
    {
        match self.lookup(name) {
            Some(i) => match &self.entries[i].kind {
                EntryKind::Constructor { .. } => true,
                _ => false,
            },
            None => false,
        }
    }
}

} // verus!
