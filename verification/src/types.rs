//! Logic terms: the tagged value type that the binary storage format
//! serializes, with its basic structural operations.

use vstd::prelude::*;

verus! {

/// A symbol identifier.
pub type Sym = u32;

/// A float carried by its bit pattern, so that terms hash and compare
/// exactly.
#[derive(Debug, Clone, Copy, PartialEq, Eq, Hash)]
pub struct OrderedFloat(pub u64);

/// Errors of the term machinery.
#[derive(Debug)]
pub enum KolossError {
    UnificationFail(String),
    Unsatisfiable,
    NoRuleMatch(String),
    CyclicDependency,
    DepthExceeded(usize),
    SynthesisFail(String),
    MemoryFull,
    InvalidTerm(String),
}

/// A logic term: variables, atoms, scalars, and nested compounds and
/// lists.
#[derive(Debug, PartialEq, Eq, Hash)]
pub enum Term {
    Var(Sym),
    Atom(Sym),
    Int(i64),
    Float(OrderedFloat),
    Str(String),
    Bool(bool),
    Compound(Sym, Vec<Term>),
    List(Vec<Term>),
    Nil,
}

impl Clone for Term {
    /// A structural copy of the term tree.
    fn clone(&self) -> (r: Self)
        decreases *self,
    {
        match self {
            Term::Var(v) => Term::Var(*v),
            Term::Atom(a) => Term::Atom(*a),
            Term::Int(n) => Term::Int(*n),
            Term::Float(f) => Term::Float(*f),
            Term::Str(s) => Term::Str(s.clone()),
            Term::Bool(b) => Term::Bool(*b),
            Term::Compound(f, args) => Term::Compound(*f, clone_terms(args)),
            Term::List(items) => Term::List(clone_terms(items)),
            Term::Nil => Term::Nil,
        }
    }
}

/// A structural copy of a term list.
fn clone_terms(ts: &Vec<Term>) -> (r: Vec<Term>)
    decreases ts,
{
    let mut out: Vec<Term> = Vec::new();
    let mut i: usize = 0;
    while i < ts.len()
        invariant
            0 <= i <= ts@.len(),
        decreases ts@.len() - i,
    {
        let t = ts[i].clone();
        out.push(t);
        i += 1;
    }
    out
}

impl Term {
    /// A variable.
    pub fn var(id: Sym) -> (r: Term)
        ensures
            r == Term::Var(id),
    {
        Term::Var(id)
    }

    /// An atom.
    pub fn atom(id: Sym) -> (r: Term)
        ensures
            r == Term::Atom(id),
    {
        Term::Atom(id)
    }

    /// An integer.
    pub fn integer(n: i64) -> (r: Term)
        ensures
            r == Term::Int(n),
    {
        Term::Int(n)
    }

    /// A compound of a functor and arguments.
    pub fn compound(functor: Sym, args: Vec<Term>) -> (r: Term)
        ensures
            r == Term::Compound(functor, args),
    {
        Term::Compound(functor, args)
    }

    /// A list term.
    pub fn list(items: Vec<Term>) -> (r: Term)
        ensures
            r == Term::List(items),
    {
        Term::List(items)
    }

    /// A term with no variables anywhere.
    pub open spec fn ground_s(self) -> bool
        decreases self,
    {
        match self {
            Term::Var(_) => false,
            Term::Compound(_, args) => terms_ground_s(args),
            Term::List(args) => terms_ground_s(args),
            _ => true,
        }
    }

    /// Whether no variable occurs in the term.
    pub fn is_ground(&self) -> (r: bool)
        ensures
            r == self.ground_s(),
        decreases *self,
    {
        match self {
            Term::Var(_) => false,
            Term::Compound(_, args) => terms_ground(args),
            Term::List(args) => terms_ground(args),
            _ => true,
        }
    }

    /// The distinct variables of the term, in first-seen order.
    pub fn vars(&self) -> (r: Vec<Sym>) {
        let mut out: Vec<Sym> = Vec::new();
        self.collect_vars(&mut out);
        out
    }

    fn collect_vars(&self, out: &mut Vec<Sym>)
        decreases *self,
    {
        match self {
            Term::Var(v) => {
                let mut seen = false;
                let mut i: usize = 0;
                while i < out.len()
                    invariant
                        0 <= i <= out@.len(),
                    decreases out@.len() - i,
                {
                    if out[i] == *v {
                        seen = true;
                        break;
                    }
                    i += 1;
                }
                if !seen {
                    out.push(*v);
                }
            },
            Term::Compound(_, args) => {
                collect_vars_list(args, out);
            },
            Term::List(args) => {
                collect_vars_list(args, out);
            },
            _ => {},
        }
    }

    /// The term with every occurrence of one variable replaced.
    pub fn substitute(&self, var: Sym, replacement: &Term) -> (r: Term)
        decreases *self,
    {
        match self {
            Term::Var(v) => {
                if *v == var {
                    replacement.clone()
                } else {
                    Term::Var(*v)
                }
            },
            Term::Compound(f, args) => Term::Compound(*f, substitute_list(args, var, replacement)),
            Term::List(items) => Term::List(substitute_list(items, var, replacement)),
            other => other.clone(),
        }
    }

    /// Node count, saturating at the machine bound.
    pub fn size(&self) -> (n: usize)
        ensures
            n >= 1,
        decreases *self,
    {
        match self {
            Term::Compound(_, args) => sat_add_1(terms_size(args)),
            Term::List(args) => sat_add_1(terms_size(args)),
            _ => 1,
        }
    }
}

/// Whether no variable occurs in any of the terms.
pub open spec fn terms_ground_s(ts: Vec<Term>) -> bool
    decreases ts,
{
    forall|i: int| 0 <= i < ts@.len() ==> (#[trigger] ts@[i]).ground_s()
}

fn terms_ground(ts: &Vec<Term>) -> (r: bool)
    ensures
        r == terms_ground_s(*ts),
    decreases ts,
{
    let mut i: usize = 0;
    while i < ts.len()
        invariant
            0 <= i <= ts@.len(),
            forall|k: int| 0 <= k < i ==> (#[trigger] ts@[k]).ground_s(),
        decreases ts@.len() - i,
    {
        if !ts[i].is_ground() {
            assert(!ts@[i as int].ground_s());
            return false;
        }
        i += 1;
    }
    true
}

fn collect_vars_list(ts: &Vec<Term>, out: &mut Vec<Sym>)
    decreases ts,
{
    let mut i: usize = 0;
    while i < ts.len()
        invariant
            0 <= i <= ts@.len(),
        decreases ts@.len() - i,
    {
        ts[i].collect_vars(out);
        i += 1;
    }
}

fn substitute_list(ts: &Vec<Term>, var: Sym, replacement: &Term) -> (r: Vec<Term>)
    decreases ts,
{
    let mut out: Vec<Term> = Vec::new();
    let mut i: usize = 0;
    while i < ts.len()
        invariant
            0 <= i <= ts@.len(),
        decreases ts@.len() - i,
    {
        let t = ts[i].substitute(var, replacement);
        out.push(t);
        i += 1;
    }
    out
}

fn sat_add_1(n: usize) -> (r: usize)
    ensures
        r == if n + 1 <= usize::MAX {
            n + 1
        } else {
            usize::MAX as int
        },
{
    if n < usize::MAX {
        n + 1
    } else {
        usize::MAX
    }
}

/// Total size of a term list, saturating at the machine bound.
fn terms_size(ts: &Vec<Term>) -> (n: usize)
    decreases ts,
{
    let mut total: usize = 0;
    let mut i: usize = 0;
    while i < ts.len()
        invariant
            0 <= i <= ts@.len(),
        decreases ts@.len() - i,
    {
        let s = ts[i].size();
        total = if total <= usize::MAX - s {
            total + s
        } else {
            usize::MAX
        };
        i += 1;
    }
    total
}

} // verus!
