//! The term grammar and single-variable substitution.

use vstd::prelude::*;
use crate::ident::{DefId, Name};

verus! {

/// A binary arithmetic, bitwise or comparison operator.
#[derive(Debug, Clone, Copy, PartialEq, Eq, Structural)]
pub enum Op {
    ADD,
    SUB,
    MUL,
    DIV,
    MOD,
    EQ,
    NE,
    LT,
    GT,
    AND,
    OR,
    XOR,
    NOT,
    LSH,
    RSH,
}

/// The binder of a `let`: one slot, or a pair of optional slots.
#[derive(Debug)]
pub enum LetPat {
    Var(Name),
    Tup(Option<Name>, Option<Name>),
}

#[derive(Debug)]
#[allow(inconsistent_fields)]
pub enum Term {
    Lam { nam: Option<Name>, bod: Box<Term> },
    Var { nam: Name },
    /// Like a scopeless lambda, where the variable can occur outside the body.
    Chn { nam: Name, bod: Box<Term> },
    /// The use of a channel variable.
    Lnk { nam: Name },
    Let { pat: LetPat, val: Box<Term>, nxt: Box<Term> },
    App { fun: Box<Term>, arg: Box<Term> },
    Tup { fst: Box<Term>, snd: Box<Term> },
    Dup { fst: Option<Name>, snd: Option<Name>, val: Box<Term>, nxt: Box<Term> },
    Sup { fst: Box<Term>, snd: Box<Term> },
    Num { val: u32 },
    /// A numeric operation between built-in numbers.
    Opx { op: Op, fst: Box<Term>, snd: Box<Term> },
    Match { cond: Box<Term>, zero: Box<Term>, succ: Box<Term> },
    Ref { def_id: DefId },
    Era,
}

/// Whether an optional binder binds the name `x`.
pub open spec fn binds(nam: Option<Name>, x: Seq<char>) -> bool {
    match nam {
        Some(n) => n@ == x,
        None => false,
    }
}

/// Whether a `let` pattern binds the name `x`.
pub open spec fn pat_binds(pat: LetPat, x: Seq<char>) -> bool {
    match pat {
        LetPat::Var(n) => n@ == x,
        LetPat::Tup(fst, snd) => binds(fst, x) || binds(snd, x),
    }
}

/// The term `t` with each occurrence of the variable `from` that is in scope
/// replaced by `to`; no binder is renamed.
pub open spec fn subst_of(t: Term, from: Seq<char>, to: Term) -> Term
    decreases t,
{
    match t {
        Term::Lam { nam, bod } => {
            if binds(nam, from) {
                t
            } else {
                Term::Lam { nam, bod: Box::new(subst_of(*bod, from, to)) }
            }
        },
        Term::Var { nam } => {
            if nam@ == from {
                to
            } else {
                t
            }
        },
        Term::Chn { nam, bod } => Term::Chn { nam, bod: Box::new(subst_of(*bod, from, to)) },
        Term::Lnk { .. } => t,
        Term::Let { pat, val, nxt } => Term::Let {
            pat,
            val: Box::new(subst_of(*val, from, to)),
            nxt: if pat_binds(pat, from) {
                nxt
            } else {
                Box::new(subst_of(*nxt, from, to))
            },
        },
        Term::App { fun, arg } => Term::App {
            fun: Box::new(subst_of(*fun, from, to)),
            arg: Box::new(subst_of(*arg, from, to)),
        },
        Term::Tup { fst, snd } => Term::Tup {
            fst: Box::new(subst_of(*fst, from, to)),
            snd: Box::new(subst_of(*snd, from, to)),
        },
        Term::Dup { fst, snd, val, nxt } => Term::Dup {
            fst,
            snd,
            val: Box::new(subst_of(*val, from, to)),
            nxt: if binds(fst, from) || binds(snd, from) {
                nxt
            } else {
                Box::new(subst_of(*nxt, from, to))
            },
        },
        Term::Sup { fst, snd } => Term::Sup {
            fst: Box::new(subst_of(*fst, from, to)),
            snd: Box::new(subst_of(*snd, from, to)),
        },
        Term::Num { .. } => t,
        Term::Opx { op, fst, snd } => Term::Opx {
            op,
            fst: Box::new(subst_of(*fst, from, to)),
            snd: Box::new(subst_of(*snd, from, to)),
        },
        Term::Match { cond, zero, succ } => Term::Match {
            cond: Box::new(subst_of(*cond, from, to)),
            zero: Box::new(subst_of(*zero, from, to)),
            succ: Box::new(subst_of(*succ, from, to)),
        },
        Term::Ref { .. } => t,
        Term::Era => t,
    }
}

fn binds_name(nam: &Option<Name>, from: &Name) -> (r: bool)
    ensures
        r == binds(*nam, from@),
{
    match nam {
        Some(n) => n.same(from),
        None => false,
    }
}

impl Term {
    /// Substitutes the occurrences of a variable in a term with the given term.
    pub fn subst(&mut self, from: &Name, to: &Term)
        ensures
            *final(self) == subst_of(*old(self), from@, *to),
        decreases *old(self),
    {
        match self {
            Term::Lam { nam, bod } => {
                if !binds_name(nam, from) {
                    bod.subst(from, to);
                }
            },
            Term::Var { nam } => {
                if nam.same(from) {
                    *self = to.clone();
                }
            },
            Term::Chn { bod, .. } => bod.subst(from, to),
            Term::Lnk { .. } => {},
            Term::Let { pat, val, nxt } => {
                val.subst(from, to);
                let shadowed = match pat {
                    LetPat::Var(nam) => nam.same(from),
                    LetPat::Tup(fst, snd) => binds_name(fst, from) || binds_name(snd, from),
                };
                if !shadowed {
                    nxt.subst(from, to);
                }
            },
            Term::App { fun, arg } => {
                fun.subst(from, to);
                arg.subst(from, to);
            },
            Term::Tup { fst, snd } => {
                fst.subst(from, to);
                snd.subst(from, to);
            },
            Term::Dup { fst, snd, val, nxt } => {
                val.subst(from, to);
                if !binds_name(fst, from) && !binds_name(snd, from) {
                    nxt.subst(from, to);
                }
            },
            Term::Sup { fst, snd } => {
                fst.subst(from, to);
                snd.subst(from, to);
            },
            Term::Num { .. } => {},
            Term::Opx { fst, snd, .. } => {
                fst.subst(from, to);
                snd.subst(from, to);
            },
            Term::Match { cond, zero, succ } => {
                cond.subst(from, to);
                zero.subst(from, to);
                succ.subst(from, to);
            },
            Term::Ref { .. } => {},
            Term::Era => {},
        }
    }
}

impl Clone for Term {
    fn clone(&self) -> (r: Term)
        ensures
            r == *self,
        decreases *self,
    {
        match self {
            Term::Lam { nam, bod } => Term::Lam { nam: nam.clone(), bod: Box::new((**bod).clone()) },
            Term::Var { nam } => Term::Var { nam: nam.clone() },
            Term::Chn { nam, bod } => Term::Chn { nam: nam.clone(), bod: Box::new((**bod).clone()) },
            Term::Lnk { nam } => Term::Lnk { nam: nam.clone() },
            Term::Let { pat, val, nxt } => Term::Let {
                pat: pat.clone(),
                val: Box::new((**val).clone()),
                nxt: Box::new((**nxt).clone()),
            },
            Term::App { fun, arg } => Term::App {
                fun: Box::new((**fun).clone()),
                arg: Box::new((**arg).clone()),
            },
            Term::Tup { fst, snd } => Term::Tup {
                fst: Box::new((**fst).clone()),
                snd: Box::new((**snd).clone()),
            },
            Term::Dup { fst, snd, val, nxt } => Term::Dup {
                fst: fst.clone(),
                snd: snd.clone(),
                val: Box::new((**val).clone()),
                nxt: Box::new((**nxt).clone()),
            },
            Term::Sup { fst, snd } => Term::Sup {
                fst: Box::new((**fst).clone()),
                snd: Box::new((**snd).clone()),
            },
            Term::Num { val } => Term::Num { val: *val },
            Term::Opx { op, fst, snd } => Term::Opx {
                op: *op,
                fst: Box::new((**fst).clone()),
                snd: Box::new((**snd).clone()),
            },
            Term::Match { cond, zero, succ } => Term::Match {
                cond: Box::new((**cond).clone()),
                zero: Box::new((**zero).clone()),
                succ: Box::new((**succ).clone()),
            },
            Term::Ref { def_id } => Term::Ref { def_id: *def_id },
            Term::Era => Term::Era,
        }
    }
}

impl Clone for LetPat {
    fn clone(&self) -> (r: LetPat)
        ensures
            r == *self,
    {
        match self {
            LetPat::Var(n) => LetPat::Var(n.clone()),
            LetPat::Tup(fst, snd) => LetPat::Tup(fst.clone(), snd.clone()),
        }
    }
}

/// A scopeless binder never shadows: substitution always goes into its body,
/// whatever its name is.
pub proof fn lemma_subst_scopeless(nam: Name, bod: Term, from: Seq<char>, to: Term)
    ensures
        ({
            let t = Term::Chn { nam, bod: Box::new(bod) };
            subst_of(t, from, to) == Term::Chn { nam, bod: Box::new(subst_of(bod, from, to)) }
        }),
{
}

/// A lambda that binds the substituted name shadows it: the lambda is left as
/// it is.
pub proof fn lemma_subst_shadowed(nam: Name, bod: Term, to: Term)
    ensures
        ({
            let t = Term::Lam { nam: Some(nam), bod: Box::new(bod) };
            subst_of(t, nam@, to) == t
        }),
{
}

/// A variable with the substituted name becomes the substituted term, and
/// both sides of an application are substituted.
pub proof fn lemma_subst_var_app(nam: Name, fun: Term, arg: Term, to: Term)
    ensures
        ({
            let v = Term::Var { nam };
            let app = Term::App { fun: Box::new(fun), arg: Box::new(arg) };
            &&& subst_of(v, nam@, to) == to
            &&& subst_of(app, nam@, to) == Term::App {
                fun: Box::new(subst_of(fun, nam@, to)),
                arg: Box::new(subst_of(arg, nam@, to)),
            }
        }),
{
}

} // verus!
