//! The canonical textual form of terms, for debugging and snapshots.

use vstd::prelude::*;
use crate::ident::{decimal_text, push_decimal, Name};
use crate::registry::DefNames;
use crate::term::{LetPat, Op, Term};

verus! {

/// The text of an optional binder: its name, or `*` when it is unbound.
pub open spec fn name_or_star(nam: Option<Name>) -> Seq<char> {
    match nam {
        Some(n) => n@,
        None => "*"@,
    }
}

/// The symbol of an operator.
pub open spec fn op_text(op: Op) -> Seq<char> {
    match op {
        Op::ADD => "+"@,
        Op::SUB => "-"@,
        Op::MUL => "*"@,
        Op::DIV => "/"@,
        Op::MOD => "%"@,
        Op::EQ => "=="@,
        Op::NE => "!="@,
        Op::LT => "<"@,
        Op::GT => ">"@,
        Op::AND => "&"@,
        Op::OR => "|"@,
        Op::XOR => "^"@,
        Op::NOT => "~"@,
        Op::LSH => "<<"@,
        Op::RSH => ">>"@,
    }
}

/// The text of a `let` pattern.
pub open spec fn let_pat_text(pat: LetPat) -> Seq<char> {
    match pat {
        LetPat::Var(n) => n@,
        LetPat::Tup(fst, snd) => "("@ + name_or_star(fst) + ", "@ + name_or_star(snd) + ")"@,
    }
}

/// Every definition reference in `t` is a live handle of `names`.
pub open spec fn refs_resolve(t: Term, names: Map<u32, Seq<char>>) -> bool
    decreases t,
{
    match t {
        Term::Lam { bod, .. } => refs_resolve(*bod, names),
        Term::Chn { bod, .. } => refs_resolve(*bod, names),
        Term::Let { val, nxt, .. } => refs_resolve(*val, names) && refs_resolve(*nxt, names),
        Term::App { fun, arg } => refs_resolve(*fun, names) && refs_resolve(*arg, names),
        Term::Tup { fst, snd } => refs_resolve(*fst, names) && refs_resolve(*snd, names),
        Term::Dup { val, nxt, .. } => refs_resolve(*val, names) && refs_resolve(*nxt, names),
        Term::Sup { fst, snd } => refs_resolve(*fst, names) && refs_resolve(*snd, names),
        Term::Opx { fst, snd, .. } => refs_resolve(*fst, names) && refs_resolve(*snd, names),
        Term::Match { cond, zero, succ } => refs_resolve(*cond, names) && refs_resolve(*zero, names)
            && refs_resolve(*succ, names),
        Term::Ref { def_id } => names.contains_key(def_id.0),
        _ => true,
    }
}

/// The text of a term; a reference shows the name of its definition.
pub open spec fn term_text(t: Term, names: Map<u32, Seq<char>>) -> Seq<char>
    decreases t,
{
    match t {
        Term::Lam { nam, bod } => "λ"@ + name_or_star(nam) + " "@ + term_text(*bod, names),
        Term::Var { nam } => nam@,
        Term::Chn { nam, bod } => "λ$"@ + nam@ + " "@ + term_text(*bod, names),
        Term::Lnk { nam } => "$"@ + nam@,
        Term::Let { pat, val, nxt } => "let "@ + let_pat_text(pat) + " = "@ + term_text(*val, names)
            + "; "@ + term_text(*nxt, names),
        Term::Ref { def_id } => names[def_id.0],
        Term::App { fun, arg } => "("@ + term_text(*fun, names) + " "@ + term_text(*arg, names) + ")"@,
        Term::Match { cond, zero, succ } => {
            let head = "match "@ + term_text(*cond, names) + " { 0: "@ + term_text(*zero, names)
                + "; 1+"@;
            match *succ {
                Term::Lam { nam, bod } => head + name_or_star(nam) + ": "@ + term_text(*bod, names)
                    + " }"@,
                _ => head + "*"@ + ": "@ + term_text(*succ, names) + " }"@,
            }
        },
        Term::Dup { fst, snd, val, nxt } => "dup "@ + name_or_star(fst) + " "@ + name_or_star(snd)
            + " = "@ + term_text(*val, names) + "; "@ + term_text(*nxt, names),
        Term::Sup { fst, snd } => "{"@ + term_text(*fst, names) + " "@ + term_text(*snd, names) + "}"@,
        Term::Era => "*"@,
        Term::Num { val } => decimal_text(val as nat),
        Term::Opx { op, fst, snd } => "("@ + op_text(op) + " "@ + term_text(*fst, names) + " "@
            + term_text(*snd, names) + ")"@,
        Term::Tup { fst, snd } => "("@ + term_text(*fst, names) + ", "@ + term_text(*snd, names) + ")"@,
    }
}

fn push_name_or_star(out: &mut String, nam: &Option<Name>)
    ensures
        final(out)@ == old(out)@ + name_or_star(*nam),
{
    match nam {
        Some(n) => out.append(n.as_str()),
        None => out.append("*"),
    }
}

impl Op {
    pub fn to_string(&self) -> (r: String)
        ensures
            r@ == op_text(*self),
    {
        let s = match self {
            Op::ADD => "+",
            Op::SUB => "-",
            Op::MUL => "*",
            Op::DIV => "/",
            Op::MOD => "%",
            Op::EQ => "==",
            Op::NE => "!=",
            Op::LT => "<",
            Op::GT => ">",
            Op::AND => "&",
            Op::OR => "|",
            Op::XOR => "^",
            Op::NOT => "~",
            Op::LSH => "<<",
            Op::RSH => ">>",
        };
        String::from_str(s)
    }
}

impl LetPat {
    pub fn to_string(&self) -> (r: String)
        ensures
            r@ == let_pat_text(*self),
    {
        let mut out = String::new();
        match self {
            LetPat::Var(n) => out.append(n.as_str()),
            LetPat::Tup(fst, snd) => {
                out.append("(");
                push_name_or_star(&mut out, fst);
                out.append(", ");
                push_name_or_star(&mut out, snd);
                out.append(")");
            },
        }
        assert(out@ =~= let_pat_text(*self));
        out
    }
}

impl Term {
    /// Appends the text of this term to `out`.
    #[verifier::rlimit(50)]
    pub fn write_text(&self, out: &mut String, def_names: &DefNames)
        requires
            refs_resolve(*self, def_names@.names),
        ensures
            final(out)@ == old(out)@ + term_text(*self, def_names@.names),
        decreases *self, 1nat,
    {
        let ghost names = def_names@.names;
        let ghost before = out@;
        match self {
            Term::Lam { nam, bod } => {
                out.append("λ");
                push_name_or_star(out, nam);
                out.append(" ");
                bod.write_text(out, def_names);
                assert(out@ =~= before + term_text(*self, names));
            },
            Term::Var { nam } => {
                out.append(nam.as_str());
                assert(out@ =~= before + term_text(*self, names));
            },
            Term::Chn { nam, bod } => {
                out.append("λ$");
                out.append(nam.as_str());
                out.append(" ");
                bod.write_text(out, def_names);
                assert(out@ =~= before + term_text(*self, names));
            },
            Term::Lnk { nam } => {
                out.append("$");
                out.append(nam.as_str());
                assert(out@ =~= before + term_text(*self, names));
            },
            Term::Let { pat, val, nxt } => {
                out.append("let ");
                let p = pat.to_string();
                out.append(p.as_str());
                out.append(" = ");
                val.write_text(out, def_names);
                out.append("; ");
                nxt.write_text(out, def_names);
                assert(out@ =~= before + term_text(*self, names));
            },
            Term::Ref { def_id } => {
                let n = def_names.name(def_id);
                out.append(n.unwrap().as_str());
                assert(out@ =~= before + term_text(*self, names));
            },
            Term::App { fun, arg } => {
                out.append("(");
                fun.write_text(out, def_names);
                out.append(" ");
                arg.write_text(out, def_names);
                out.append(")");
                assert(out@ =~= before + term_text(*self, names));
            },
            Term::Match { .. } => self.write_match(out, def_names),
            Term::Dup { fst, snd, val, nxt } => {
                out.append("dup ");
                push_name_or_star(out, fst);
                out.append(" ");
                push_name_or_star(out, snd);
                out.append(" = ");
                val.write_text(out, def_names);
                out.append("; ");
                nxt.write_text(out, def_names);
                assert(out@ =~= before + term_text(*self, names));
            },
            Term::Sup { fst, snd } => {
                out.append("{");
                fst.write_text(out, def_names);
                out.append(" ");
                snd.write_text(out, def_names);
                out.append("}");
                assert(out@ =~= before + term_text(*self, names));
            },
            Term::Era => {
                out.append("*");
                assert(out@ =~= before + term_text(*self, names));
            },
            Term::Num { val } => push_decimal(out, *val),
            Term::Opx { op, fst, snd } => {
                out.append("(");
                let o = op.to_string();
                out.append(o.as_str());
                out.append(" ");
                fst.write_text(out, def_names);
                out.append(" ");
                snd.write_text(out, def_names);
                out.append(")");
                assert(out@ =~= before + term_text(*self, names));
            },
            Term::Tup { fst, snd } => {
                out.append("(");
                fst.write_text(out, def_names);
                out.append(", ");
                snd.write_text(out, def_names);
                out.append(")");
                assert(out@ =~= before + term_text(*self, names));
            },
        }
    }

    fn write_match(&self, out: &mut String, def_names: &DefNames)
        requires
            self is Match,
            refs_resolve(*self, def_names@.names),
        ensures
            final(out)@ == old(out)@ + term_text(*self, def_names@.names),
        decreases *self, 0nat,
    {
        let ghost names = def_names@.names;
        let ghost before = out@;
        let (cond, zero, succ) = match self {
            Term::Match { cond, zero, succ } => (cond, zero, succ),
            _ => {
                return;
            },
        };
        out.append("match ");
        cond.write_text(out, def_names);
        out.append(" { 0: ");
        zero.write_text(out, def_names);
        out.append("; 1+");
        // Only the lambda case is a valid match, but invalid ones are shown too.
        match &**succ {
            Term::Lam { nam, bod } => {
                proof {
                    reveal_with_fuel(refs_resolve, 2);
                }
                push_name_or_star(out, nam);
                out.append(": ");
                bod.write_text(out, def_names);
            },
            _ => {
                out.append("*");
                out.append(": ");
                succ.write_text(out, def_names);
            },
        }
        out.append(" }");
        assert(out@ =~= before + term_text(*self, names));
    }

    /// The text of this term.
    pub fn to_string(&self, def_names: &DefNames) -> (r: String)
        requires
            refs_resolve(*self, def_names@.names),
        ensures
            r@ == term_text(*self, def_names@.names),
    {
        let mut out = String::new();
        self.write_text(&mut out, def_names);
        assert(out@ =~= term_text(*self, def_names@.names));
        out
    }
}

/// Rendering is deterministic: a term and the names of a registry give one
/// text, so two renderings of an unchanged term are identical.
pub proof fn lemma_render_deterministic(t: Term, names: Map<u32, Seq<char>>, first: Seq<char>, second: Seq<char>)
    requires
        first == term_text(t, names),
        second == term_text(t, names),
    ensures
        first == second,
{
}

} // verus!
