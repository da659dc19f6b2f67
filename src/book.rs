//! Rules, definitions and the program container.

use vstd::prelude::*;
use std::collections::{BTreeMap, HashMap};
use crate::ident::{DefId, Name};
use crate::registry::{lemma_inserted_wf, lemma_removed_wf, DefNames, RegistryView};
use crate::render::{refs_resolve, term_text};
use crate::term::Term;

verus! {

/// `indexmap::IndexMap`, declared so that a datatype can carry its ordered
/// constructor table; nothing is assumed of its contents.
#[verifier::external_type_specification]
#[verifier::external_body]
#[verifier::reject_recursive_types(K)]
#[verifier::reject_recursive_types(V)]
#[verifier::reject_recursive_types(S)]
pub struct ExIndexMap<K, V, S>(indexmap::IndexMap<K, V, S>);

/// Relies on `IndexMap`'s `Clone` impl, so that datatypes can be cloned;
/// nothing is assumed of the copy.
pub assume_specification<K, V, S>[ <indexmap::IndexMap<K, V, S> as Clone>::clone ](
    m: &indexmap::IndexMap<K, V, S>,
) -> indexmap::IndexMap<K, V, S>
    where
        K: Clone,
        V: Clone,
        S: Clone,
;

/// A pattern of a rule: a variable, or a constructor with sub-patterns.
#[derive(Debug)]
pub enum RulePat {
    Var(Name),
    Ctr(Name, Vec<RulePat>),
}

/// A pattern matching rule of a definition.
#[derive(Debug, Clone)]
pub struct Rule {
    pub pats: Vec<RulePat>,
    pub body: Term,
}

/// A pattern matching function definition.
#[derive(Debug, Clone)]
pub struct Definition {
    pub def_id: DefId,
    pub rules: Vec<Rule>,
}

/// A user defined datatype: the arity of each constructor, in declaration order.
#[derive(Debug, Clone, Default)]
pub struct Adt {
    pub ctrs: indexmap::IndexMap<Name, usize>,
}

/// `head` applied, one application at a time, to each of `args` in order.
pub open spec fn call_of(head: Term, args: Seq<Term>) -> Term
    decreases args.len(),
{
    if args.len() == 0 {
        head
    } else {
        Term::App { fun: Box::new(call_of(head, args.drop_last())), arg: Box::new(args.last()) }
    }
}

/// The term of a pattern: a variable stays a variable; a constructor becomes
/// its name applied to the terms of its sub-patterns.
pub open spec fn pat_term(p: RulePat) -> Term
    decreases p, 0nat,
{
    match p {
        RulePat::Var(n) => Term::Var { nam: n },
        RulePat::Ctr(n, ps) => applied_pats(Term::Var { nam: n }, ps, ps@.len()),
    }
}

/// `head` applied to the terms of the first `k` patterns of `ps`.
pub open spec fn applied_pats(head: Term, ps: Vec<RulePat>, k: nat) -> Term
    decreases ps, k + 1,
{
    if k == 0 || k > ps@.len() {
        head
    } else {
        Term::App {
            fun: Box::new(applied_pats(head, ps, (k - 1) as nat)),
            arg: Box::new(pat_term(ps@[k - 1])),
        }
    }
}

proof fn lemma_call_of_pats(head: Term, args: Seq<Term>, ps: Vec<RulePat>, k: nat)
    requires
        k <= ps@.len(),
        args.len() == k,
        forall|j: int| 0 <= j < k ==> args[j] == pat_term(#[trigger] ps@[j]),
    ensures
        call_of(head, args) == applied_pats(head, ps, k),
    decreases k,
{
    if k > 0 {
        lemma_call_of_pats(head, args.drop_last(), ps, (k - 1) as nat);
    }
}

impl Term {
    /// Makes a call term by folding the arguments around the called term with
    /// applications.
    pub fn call(called: Term, args: Vec<Term>) -> (r: Term)
        ensures
            r == call_of(called, args@),
    {
        let mut acc = called;
        let mut args = args;
        let ghost all = args@;
        let ghost mut i: int = 0;
        while args.len() > 0
            invariant
                0 <= i <= all.len(),
                args@ == all.subrange(i, all.len() as int),
                acc == call_of(called, all.subrange(0, i)),
            decreases args@.len(),
        {
            let arg = args.remove(0);
            proof {
                assert(arg == all[i]);
                assert(all.subrange(0, i + 1).drop_last() =~= all.subrange(0, i));
                assert(args@ =~= all.subrange(i + 1, all.len() as int));
                i = i + 1;
            }
            acc = Term::App { fun: Box::new(acc), arg: Box::new(arg) };
        }
        assert(all.subrange(0, i) =~= all);
        acc
    }
}

impl RulePat {
    /// The term that this pattern stands for.
    pub fn to_term(&self) -> (r: Term)
        ensures
            r == pat_term(*self),
        decreases *self,
    {
        match self {
            RulePat::Var(nam) => Term::Var { nam: nam.clone() },
            RulePat::Ctr(nam, pats) => {
                let mut args: Vec<Term> = Vec::new();
                let mut i: usize = 0;
                while i < pats.len()
                    invariant
                        *self == RulePat::Ctr(*nam, *pats),
                        i <= pats@.len(),
                        args@.len() == i,
                        forall|j: int| 0 <= j < i ==> args@[j] == pat_term(#[trigger] pats@[j]),
                    decreases pats@.len() - i,
                {
                    proof {
                        vstd::std_specs::vec::axiom_vec_index_decreases(*pats, i as int);
                        assert(decreases_to!(*self => (*self)->1));
                        assert(decreases_to!(*pats => pats[i as int]));
                        assert(decreases_to!(*self => pats@[i as int]));
                    }
                    let t = pats[i].to_term();
                    args.push(t);
                    i = i + 1;
                }
                let head = Term::Var { nam: nam.clone() };
                proof {
                    lemma_call_of_pats(head, args@, *pats, pats@.len());
                }
                Term::call(head, args)
            },
        }
    }
}

impl Clone for RulePat {
    fn clone(&self) -> (r: RulePat)
        decreases *self,
    {
        match self {
            RulePat::Var(nam) => RulePat::Var(nam.clone()),
            RulePat::Ctr(nam, pats) => {
                let mut copies: Vec<RulePat> = Vec::new();
                let mut i: usize = 0;
                while i < pats.len()
                    invariant
                        *self == RulePat::Ctr(*nam, *pats),
                        i <= pats@.len(),
                    decreases pats@.len() - i,
                {
                    proof {
                        vstd::std_specs::vec::axiom_vec_index_decreases(*pats, i as int);
                        assert(decreases_to!(*self => (*self)->1));
                    }
                    copies.push(pats[i].clone());
                    i = i + 1;
                }
                RulePat::Ctr(nam.clone(), copies)
            },
        }
    }
}

impl<'a> From<&'a RulePat> for Term {
    fn from(value: &'a RulePat) -> (r: Term) {
        value.to_term()
    }
}

impl<'a> vstd::std_specs::convert::FromSpecImpl<&'a RulePat> for Term {
    open spec fn obeys_from_spec() -> bool {
        true
    }

    open spec fn from_spec(v: &'a RulePat) -> Term {
        pat_term(*v)
    }
}

/// The text of a pattern.
pub open spec fn rule_pat_text(p: RulePat) -> Seq<char>
    decreases p, 0nat,
{
    match p {
        RulePat::Var(n) => n@,
        RulePat::Ctr(n, ps) => "("@ + n@ + spaced_pats(ps, ps@.len()) + ")"@,
    }
}

/// The texts of the first `k` patterns of `ps`, each after a space.
pub open spec fn spaced_pats(ps: Vec<RulePat>, k: nat) -> Seq<char>
    decreases ps, k + 1,
{
    if k == 0 || k > ps@.len() {
        Seq::empty()
    } else {
        spaced_pats(ps, (k - 1) as nat) + " "@ + rule_pat_text(ps@[k - 1])
    }
}

/// The text of a rule of the definition called `name`.
pub open spec fn rule_text(r: Rule, name: Seq<char>, names: Map<u32, Seq<char>>) -> Seq<char> {
    "("@ + name + spaced_pats(r.pats, r.pats@.len()) + ") = "@ + term_text(r.body, names)
}

/// Appends the texts of the patterns, each after a space.
fn write_spaced_pats(out: &mut String, pats: &Vec<RulePat>)
    ensures
        final(out)@ == old(out)@ + spaced_pats(*pats, pats@.len()),
    decreases *pats, 0nat,
{
    let ghost before = out@;
    let mut i: usize = 0;
    while i < pats.len()
        invariant
            i <= pats@.len(),
            out@ == before + spaced_pats(*pats, i as nat),
        decreases pats@.len() - i,
    {
        proof {
            vstd::std_specs::vec::axiom_vec_index_decreases(*pats, i as int);
        }
        out.append(" ");
        let t = pats[i].to_string();
        out.append(t.as_str());
        proof {
            assert(out@ =~= before + spaced_pats(*pats, (i + 1) as nat));
        }
        i = i + 1;
    }
}

impl RulePat {
    pub fn to_string(&self) -> (r: String)
        ensures
            r@ == rule_pat_text(*self),
        decreases *self, 1nat,
    {
        match self {
            RulePat::Var(nam) => String::from_str(nam.as_str()),
            RulePat::Ctr(nam, pats) => {
                let mut out = String::new();
                out.append("(");
                out.append(nam.as_str());
                proof {
                    assert(decreases_to!(*self => (*self)->1));
                }
                write_spaced_pats(&mut out, pats);
                out.append(")");
                assert(out@ =~= rule_pat_text(*self));
                out
            },
        }
    }
}

impl Rule {
    /// The text of this rule as a rule of the definition `def_id`.
    pub fn to_string(&self, def_id: &DefId, def_names: &DefNames) -> (r: String)
        requires
            def_names@.names.contains_key(def_id.0),
            refs_resolve(self.body, def_names@.names),
        ensures
            r@ == rule_text(*self, def_names@.names[def_id.0], def_names@.names),
    {
        let mut out = String::new();
        out.append("(");
        let name = def_names.name(def_id).unwrap();
        out.append(name.as_str());
        write_spaced_pats(&mut out, &self.pats);
        out.append(") = ");
        self.body.write_text(&mut out, def_names);
        assert(out@ =~= rule_text(*self, def_names@.names[def_id.0], def_names@.names));
        out
    }

    /// The number of parameter patterns.
    pub fn arity(&self) -> (r: usize)
        ensures
            r == self.pats@.len(),
    {
        self.pats.len()
    }
}

/// `parts` in order, with `sep` between each two of them.
pub open spec fn joined(parts: Seq<Seq<char>>, sep: Seq<char>) -> Seq<char>
    decreases parts.len(),
{
    if parts.len() == 0 {
        Seq::empty()
    } else if parts.len() == 1 {
        parts[0]
    } else {
        joined(parts.drop_last(), sep) + sep + parts.last()
    }
}

/// Relies on `itertools::Itertools::join`: the texts of the items in order,
/// with `sep` written between each two of them.
#[verifier::external_body]
fn join_texts(parts: &Vec<String>, sep: &str) -> (r: String)
    ensures
        r@ == joined(parts@.map_values(|p: String| p@), sep@),
{
    itertools::Itertools::join(&mut parts.iter(), sep)
}

/// Every reference in the rules' bodies is a live handle of `names`, and so is
/// the definition's own handle.
pub open spec fn definition_renders(d: Definition, names: Map<u32, Seq<char>>) -> bool {
    &&& names.contains_key(d.def_id.0)
    &&& forall|i: int| 0 <= i < d.rules@.len() ==> refs_resolve(#[trigger] d.rules@[i].body, names)
}

/// The text of a definition: its rules, one per line.
pub open spec fn definition_text(d: Definition, names: Map<u32, Seq<char>>) -> Seq<char> {
    joined(
        Seq::new(d.rules@.len(), |i: int| rule_text(d.rules@[i], names[d.def_id.0], names)),
        "\n"@,
    )
}

impl Definition {
    /// All rules have the same number of parameter patterns.
    pub open spec fn uniform_arity(&self) -> bool {
        forall|i: int| 0 <= i < self.rules@.len() ==> (#[trigger] self.rules@[i]).pats@.len()
            == self.rules@[0].pats@.len()
    }

    pub fn to_string(&self, def_names: &DefNames) -> (r: String)
        requires
            definition_renders(*self, def_names@.names),
        ensures
            r@ == definition_text(*self, def_names@.names),
    {
        let ghost names = def_names@.names;
        let ghost texts = Seq::new(self.rules@.len(), |i: int| rule_text(self.rules@[i], names[self.def_id.0], names));
        let mut parts: Vec<String> = Vec::new();
        let mut i: usize = 0;
        while i < self.rules.len()
            invariant
                definition_renders(*self, names),
                names == def_names@.names,
                texts == Seq::new(self.rules@.len(), |i: int| rule_text(self.rules@[i], names[self.def_id.0], names)),
                i <= self.rules@.len(),
                parts@.len() == i,
                forall|j: int| 0 <= j < i ==> (#[trigger] parts@[j])@ == texts[j],
            decreases self.rules@.len() - i,
        {
            let t = self.rules[i].to_string(&self.def_id, def_names);
            parts.push(t);
            i = i + 1;
        }
        let r = join_texts(&parts, "\n");
        assert(parts@.map_values(|p: String| p@) =~= texts);
        r
    }

    /// The number of parameter patterns of the first rule.
    pub fn arity(&self) -> (r: usize)
        requires
            self.rules@.len() > 0,
        ensures
            r == self.rules@[0].pats@.len(),
            self.uniform_arity() ==> forall|i: int| 0 <= i < self.rules@.len() ==> (#[trigger] self.rules@[i]).pats@.len() == r,
    {
        self.rules[0].arity()
    }

    /// Marks the point after which a definition has exactly one rule; a
    /// definition with more has no business there.
    pub fn assert_no_pattern_matching_rules(&self)
        requires
            self.rules@.len() == 1,
    {
    }
}

/// What a program container holds: its registry, its definitions in order
/// of their handles, its datatypes and its constructor index.
pub struct BookView {
    pub names: RegistryView,
    pub defs: Seq<Definition>,
    pub adts: Map<Name, Adt>,
    pub ctrs: Map<Name, Name>,
}

/// Whether some definition of `defs` has the handle `id`.
pub open spec fn has_def(defs: Seq<Definition>, id: u32) -> bool {
    exists|i: int| 0 <= i < defs.len() && (#[trigger] defs[i]).def_id.0 == id
}

impl BookView {
    /// The definitions are in strictly increasing order of handle, and their
    /// handles are exactly the live handles of the registry.
    pub open spec fn wf(self) -> bool {
        &&& self.names.wf()
        &&& forall|i: int, j: int| 0 <= i < j < self.defs.len() ==>
            (#[trigger] self.defs[i]).def_id.0 < (#[trigger] self.defs[j]).def_id.0
        &&& forall|i: int| 0 <= i < self.defs.len() ==> self.names.names.contains_key(
            (#[trigger] self.defs[i]).def_id.0)
        &&& forall|k: u32| #[trigger] self.names.names.contains_key(k) ==> has_def(self.defs, k)
    }

    /// The container after `name` gets the next handle and `rules` are
    /// stored under it.
    pub open spec fn inserted(self, name: Seq<char>, rules: Vec<Rule>) -> BookView {
        BookView {
            names: self.names.inserted(name),
            defs: self.defs.push(Definition { def_id: DefId(self.names.next), rules }),
            adts: self.adts,
            ctrs: self.ctrs,
        }
    }

    /// The container after the definition at position `i` and its name are
    /// removed.
    pub open spec fn removed_at(self, i: int) -> BookView {
        BookView {
            names: self.names.removed(self.defs[i].def_id.0),
            defs: self.defs.remove(i),
            adts: self.adts,
            ctrs: self.ctrs,
        }
    }
}

/// In a consistent container a handle has at most one definition.
pub proof fn lemma_one_def_per_handle(v: BookView, i: int, j: int)
    requires
        v.wf(),
        0 <= i < v.defs.len(),
        0 <= j < v.defs.len(),
        v.defs[i].def_id == v.defs[j].def_id,
    ensures
        i == j,
{
    if i < j {
        assert(v.defs[i].def_id.0 < v.defs[j].def_id.0);
    } else if j < i {
        assert(v.defs[j].def_id.0 < v.defs[i].def_id.0);
    }
}

/// Inserting a definition keeps the container consistent: afterwards both the
/// registry and the definitions know its handle, under the given name.
pub proof fn lemma_book_inserted(v: BookView, name: Seq<char>, rules: Vec<Rule>)
    requires
        v.wf(),
        v.names.next < u32::MAX,
    ensures
        v.inserted(name, rules).wf(),
        v.inserted(name, rules).names.names.contains_key(v.names.next),
        v.inserted(name, rules).names.names[v.names.next] == name,
        v.inserted(name, rules).names.ids[name] == v.names.next,
        has_def(v.inserted(name, rules).defs, v.names.next),
{
    let w = v.inserted(name, rules);
    let n = v.defs.len() as int;
    lemma_inserted_wf(v.names, name);
    assert forall|i: int| 0 <= i < n implies (#[trigger] v.defs[i]).def_id.0 < v.names.next by {
        assert(v.names.names.contains_key(v.defs[i].def_id.0));
    }
    assert(w.defs[n].def_id.0 == v.names.next);
    assert forall|i: int| 0 <= i < n implies #[trigger] w.defs[i] == v.defs[i] by {}
    assert forall|k: u32| #[trigger] w.names.names.contains_key(k) implies has_def(w.defs, k) by {
        if k != v.names.next {
            assert(has_def(v.defs, k));
            let i = choose|i: int| 0 <= i < n && (#[trigger] v.defs[i]).def_id.0 == k;
            assert(w.defs[i].def_id.0 == k);
        }
    }
}

/// Removing a definition keeps the container consistent: afterwards neither
/// the registry nor the definitions know its handle.
pub proof fn lemma_book_removed(v: BookView, i: int)
    requires
        v.wf(),
        0 <= i < v.defs.len(),
    ensures
        v.removed_at(i).wf(),
        !v.removed_at(i).names.names.contains_key(v.defs[i].def_id.0),
        !has_def(v.removed_at(i).defs, v.defs[i].def_id.0),
{
    let w = v.removed_at(i);
    let id = v.defs[i].def_id.0;
    let old_defs = v.defs;
    assert(v.names.names.contains_key(id));
    assert(w.names.names == v.names.names.remove(id));
    lemma_removed_wf(v.names, id);
    assert(forall|j: int| 0 <= j < i ==> (#[trigger] w.defs[j]) == old_defs[j]);
    assert(forall|j: int| i <= j < w.defs.len() ==> (#[trigger] w.defs[j]) == old_defs[j + 1]);
    assert forall|a: int, b: int| 0 <= a < b < w.defs.len() implies
        (#[trigger] w.defs[a]).def_id.0 < (#[trigger] w.defs[b]).def_id.0 by {
        let a2 = if a < i { a } else { a + 1 };
        let b2 = if b < i { b } else { b + 1 };
        assert(w.defs[a] == old_defs[a2] && w.defs[b] == old_defs[b2]);
    }
    assert forall|j: int| 0 <= j < w.defs.len() implies (#[trigger] w.defs[j]).def_id.0 != id
        && w.names.names.contains_key(w.defs[j].def_id.0) by {
        let j2 = if j < i { j } else { j + 1 };
        assert(w.defs[j] == old_defs[j2]);
        assert(v.names.names.contains_key(old_defs[j2].def_id.0));
        if j2 < i {
            assert(old_defs[j2].def_id.0 < id);
        } else {
            assert(id < old_defs[j2].def_id.0);
        }
    }
    assert forall|k: u32| #[trigger] w.names.names.contains_key(k) implies has_def(w.defs, k) by {
        assert(v.names.names.contains_key(k));
        let j = choose|j: int| 0 <= j < old_defs.len() && (#[trigger] old_defs[j]).def_id.0 == k;
        assert(j != i);
        if j < i {
            assert(w.defs[j].def_id.0 == k);
        } else {
            assert(w.defs[j - 1].def_id.0 == k);
        }
    }
}

/// A handle that no definition has is not live in the registry either, and
/// removing it changes nothing.
pub proof fn lemma_book_absent(v: BookView, id: u32)
    requires
        v.wf(),
        !has_def(v.defs, id),
    ensures
        !v.names.names.contains_key(id),
        v.names.removed(id) == v.names,
{
}

/// The representation of a program.
#[derive(Debug, Clone)]
pub struct Book {
    /// Mapping of definition names to ids.
    def_names: DefNames,
    /// The function definitions, in order of their ids.
    defs: Vec<Definition>,
    /// The algebraic datatypes defined by the program.
    pub adts: BTreeMap<Name, Adt>,
    /// To which type each constructor belongs.
    pub ctrs: HashMap<Name, Name>,
}

impl View for Book {
    type V = BookView;

    closed spec fn view(&self) -> BookView {
        BookView { names: self.def_names@, defs: self.defs@, adts: self.adts@, ctrs: self.ctrs@ }
    }
}

/// The text of a program: its definitions, separated by blank lines.
pub open spec fn book_text(b: BookView) -> Seq<char> {
    joined(Seq::new(b.defs.len(), |i: int| definition_text(b.defs[i], b.names.names)), "\n\n"@)
}

impl Book {
    pub closed spec fn wf(&self) -> bool {
        &&& self.def_names.wf()
        &&& self@.wf()
    }

    /// A consistent container has a well-formed view: one definition per
    /// live handle, in increasing order of handle.
    pub proof fn lemma_wf_view(&self)
        requires
            self.wf(),
        ensures
            self@.wf(),
    {
    }

    pub fn new() -> (r: Book)
        ensures
            r.wf(),
            r@.wf(),
            r@.names == RegistryView::empty(),
            r@.defs == Seq::<Definition>::empty(),
            r@.adts == Map::<Name, Adt>::empty(),
            r@.ctrs == Map::<Name, Name>::empty(),
    {
        Book { def_names: DefNames::new(), defs: Vec::new(), adts: BTreeMap::new(), ctrs: HashMap::new() }
    }

    /// The registry of definition names.
    pub fn def_names(&self) -> (r: &DefNames)
        requires
            self.wf(),
        ensures
            r.wf(),
            r@ == self@.names,
    {
        &self.def_names
    }

    /// The definitions, in order of their ids.
    pub fn defs(&self) -> (r: &Vec<Definition>)
        ensures
            r@ == self@.defs,
    {
        &self.defs
    }

    /// Allocates a handle for `name` and stores its rules under it.
    pub fn insert_def(&mut self, name: Name, rules: Vec<Rule>) -> (r: DefId)
        requires
            old(self).wf(),
            old(self)@.names.next < u32::MAX,
        ensures
            final(self).wf(),
            final(self)@.wf(),
            final(self)@.adts == old(self)@.adts,
            final(self)@.ctrs == old(self)@.ctrs,
            r.0 == old(self)@.names.next,
            !has_def(old(self)@.defs, r.0),
            has_def(final(self)@.defs, r.0),
            final(self)@ == old(self)@.inserted(name@, rules),
    {
        let ghost v = self@;
        let def_id = self.def_names.insert(name);
        self.defs.push(Definition { def_id, rules });
        proof {
            lemma_book_inserted(v, name@, rules);
            assert(self@ == v.inserted(name@, rules));
        }
        def_id
    }

    /// Removes a definition and its name; an absent handle is left as it is.
    pub fn remove_def(&mut self, def_id: DefId) -> (r: Option<(Name, Definition)>)
        requires
            old(self).wf(),
        ensures
            final(self).wf(),
            final(self)@.wf(),
            !has_def(final(self)@.defs, def_id.0),
            !final(self)@.names.names.contains_key(def_id.0),
            final(self)@.adts == old(self)@.adts,
            final(self)@.ctrs == old(self)@.ctrs,
            match r {
                Some((n, d)) => {
                    &&& old(self)@.names.names.contains_key(def_id.0)
                    &&& n@ == old(self)@.names.names[def_id.0]
                    &&& d.def_id == def_id
                    &&& exists|i: int| 0 <= i < old(self)@.defs.len() && old(self)@.defs[i] == d
                        && final(self)@ == old(self)@.removed_at(i)
                },
                None => {
                    &&& !old(self)@.names.names.contains_key(def_id.0)
                    &&& !has_def(old(self)@.defs, def_id.0)
                    &&& final(self)@ == old(self)@
                },
            },
    {
        proof {
            assert(old(self)@.wf());
        }
        let ghost old_defs = self.defs@;
        assert(old_defs == old(self)@.defs);
        let mut i: usize = 0;
        while i < self.defs.len()
            invariant
                self.defs@ == old_defs,
                i <= old_defs.len(),
                forall|j: int| 0 <= j < i ==> (#[trigger] old_defs[j]).def_id.0 != def_id.0,
            ensures
                i <= old_defs.len(),
                i < old_defs.len() ==> old_defs[i as int].def_id.0 == def_id.0,
                forall|j: int| 0 <= j < i ==> (#[trigger] old_defs[j]).def_id.0 != def_id.0,
            decreases old_defs.len() - i,
        {
            if self.defs[i].def_id.0 == def_id.0 {
                break;
            }
            i = i + 1;
        }
        if i < self.defs.len() {
            let def = self.defs.remove(i);
            let name = self.def_names.remove(def_id);
            proof {
                lemma_book_removed(old(self)@, i as int);
                assert(self@ == old(self)@.removed_at(i as int));
            }
            match name {
                Some(n) => Some((n, def)),
                None => None,
            }
        } else {
            proof {
                lemma_book_absent(old(self)@, def_id.0);
            }
            None
        }
    }

    /// The text of the program.
    pub fn to_string(&self) -> (r: String)
        requires
            self.wf(),
            forall|i: int| 0 <= i < self@.defs.len() ==> definition_renders(#[trigger] self@.defs[i], self@.names.names),
        ensures
            r@ == book_text(self@),
    {
        let ghost texts = Seq::new(self@.defs.len(), |i: int| definition_text(self@.defs[i], self@.names.names));
        let mut parts: Vec<String> = Vec::new();
        let mut i: usize = 0;
        while i < self.defs.len()
            invariant
                forall|j: int| 0 <= j < self@.defs.len() ==> definition_renders(#[trigger] self@.defs[j], self@.names.names),
                texts == Seq::new(self@.defs.len(), |i: int| definition_text(self@.defs[i], self@.names.names)),
                i <= self.defs@.len(),
                parts@.len() == i,
                forall|j: int| 0 <= j < i ==> (#[trigger] parts@[j])@ == texts[j],
            decreases self.defs@.len() - i,
        {
            let t = self.defs[i].to_string(&self.def_names);
            parts.push(t);
            i = i + 1;
        }
        let r = join_texts(&parts, "\n\n");
        assert(parts@.map_values(|p: String| p@) =~= texts);
        r
    }
}

} // verus!
