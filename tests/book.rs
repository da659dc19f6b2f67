use hvm_lang::{Book, DefId, Definition, Name, Op, Rule, RulePat, Term};

fn var(n: &str) -> Term {
    Term::Var { nam: Name::new(n) }
}

fn double_rule() -> Rule {
    Rule {
        pats: vec![RulePat::Var(Name::new("x"))],
        body: Term::Opx { op: Op::ADD, fst: Box::new(var("x")), snd: Box::new(var("x")) },
    }
}

#[test]
fn double_renders_as_rule() {
    let mut book = Book::new();
    let id = book.insert_def(Name::new("double"), vec![double_rule()]);
    let def = &book.defs()[0];
    assert_eq!(def.def_id, id);
    assert_eq!(def.to_string(book.def_names()), "(double x) = (+ x x)");
    assert_eq!(def.rules[0].to_string(&id, book.def_names()), "(double x) = (+ x x)");
    assert_eq!(book.to_string(), "(double x) = (+ x x)");
}

#[test]
fn definition_rules_are_joined_by_lines() {
    let mut book = Book::new();
    let rules = vec![
        Rule {
            pats: vec![RulePat::Ctr(Name::new("Nil"), vec![])],
            body: Term::Num { val: 0 },
        },
        Rule {
            pats: vec![RulePat::Ctr(Name::new("Cons"), vec![RulePat::Var(Name::new("h")), RulePat::Var(Name::new("t"))])],
            body: Term::Num { val: 1 },
        },
    ];
    let id = book.insert_def(Name::new("len"), rules);
    let other = book.insert_def(Name::new("main"), vec![Rule { pats: vec![], body: Term::Ref { def_id: id } }]);
    assert_eq!(other, DefId(1));
    assert_eq!(book.defs()[0].to_string(book.def_names()), "(len (Nil)) = 0\n(len (Cons h t)) = 1");
    assert_eq!(book.to_string(), "(len (Nil)) = 0\n(len (Cons h t)) = 1\n\n(main) = len");
    assert_eq!(book.defs()[0].arity(), 1);
    assert_eq!(book.defs()[1].arity(), 0);
}

#[test]
fn container_inserts_and_removes_in_step() {
    let mut book = Book::new();
    let a = book.insert_def(Name::new("a"), vec![double_rule()]);
    let b = book.insert_def(Name::new("b"), vec![double_rule()]);
    assert_eq!(book.def_names().def_id(&Name::new("a")), Some(a));
    assert!(book.defs().iter().any(|d| d.def_id == a));

    let (name, def) = book.remove_def(a).unwrap();
    assert_eq!(name, Name::new("a"));
    assert_eq!(def.def_id, a);
    assert!(!book.def_names().contains_def_id(&a));
    assert!(!book.defs().iter().any(|d| d.def_id == a));
    assert!(book.remove_def(a).is_none());
    assert_eq!(book.defs().len(), 1);
    assert_eq!(book.defs()[0].def_id, b);
    assert_eq!(book.def_names().def_ids(), vec![b]);
}

#[test]
fn pattern_text_and_term() {
    let p = RulePat::Ctr(
        Name::new("Cons"),
        vec![RulePat::Var(Name::new("h")), RulePat::Ctr(Name::new("Nil"), vec![])],
    );
    assert_eq!(p.to_string(), "(Cons h (Nil))");
    let t = Term::from(&p);
    let book = Book::new();
    assert_eq!(t.to_string(book.def_names()), "((Cons h) Nil)");
    assert_eq!(p.to_term().to_string(book.def_names()), "((Cons h) Nil)");
    assert_eq!(RulePat::Var(Name::new("v")).to_term().to_string(book.def_names()), "v");
}

#[test]
fn single_rule_definition_passes_check() {
    let def = Definition { def_id: DefId(0), rules: vec![double_rule()] };
    def.assert_no_pattern_matching_rules();
    assert_eq!(def.arity(), 1);
    assert_eq!(double_rule().arity(), 1);
}

#[test]
fn datatype_tables_keep_constructor_order() {
    let mut book = Book::new();
    let mut ctrs = indexmap::IndexMap::new();
    ctrs.insert(Name::new("Nil"), 0usize);
    ctrs.insert(Name::new("Cons"), 2usize);
    book.adts.insert(Name::new("List"), hvm_lang::Adt { ctrs });
    book.ctrs.insert(Name::new("Nil"), Name::new("List"));
    book.ctrs.insert(Name::new("Cons"), Name::new("List"));
    let adt = &book.adts[&Name::new("List")];
    let order: Vec<&str> = adt.ctrs.keys().map(|n| n.as_str()).collect();
    assert_eq!(order, vec!["Nil", "Cons"]);
    assert_eq!(adt.ctrs[&Name::new("Cons")], 2);
    assert_eq!(book.ctrs[&Name::new("Cons")], Name::new("List"));
}

#[test]
fn new_book_is_empty_and_clones() {
    let mut book = Book::new();
    assert!(book.adts.is_empty());
    assert!(book.ctrs.is_empty());
    assert!(book.defs().is_empty());
    let first = book.insert_def(Name::new("double"), vec![double_rule()]);
    assert_eq!(first, DefId(0));
    let copy = book.clone();
    assert_eq!(copy.to_string(), book.to_string());
    let p = RulePat::Ctr(Name::new("Cons"), vec![RulePat::Var(Name::new("h")), RulePat::Var(Name::new("t"))]);
    assert_eq!(p.clone().to_string(), "(Cons h t)");
    let def = copy.defs()[0].clone();
    assert_eq!(def.to_string(copy.def_names()), "(double x) = (+ x x)");
}
