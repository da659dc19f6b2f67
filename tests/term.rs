use hvm_lang::{DefNames, LetPat, Name, Op, Term};

fn var(n: &str) -> Term {
    Term::Var { nam: Name::new(n) }
}

fn num(v: u32) -> Term {
    Term::Num { val: v }
}

fn lam(n: &str, bod: Term) -> Term {
    Term::Lam { nam: Some(Name::new(n)), bod: Box::new(bod) }
}

fn app(fun: Term, arg: Term) -> Term {
    Term::App { fun: Box::new(fun), arg: Box::new(arg) }
}

fn show(t: &Term) -> String {
    t.to_string(&DefNames::new())
}

#[test]
fn subst_shadowed_lambda_is_unchanged() {
    let mut t = lam("x", var("x"));
    t.subst(&Name::new("x"), &num(5));
    assert_eq!(show(&t), "λx x");
    assert!(matches!(&t, Term::Lam { bod, .. } if matches!(**bod, Term::Var { .. })));
}

#[test]
fn subst_replaces_both_sides_of_application() {
    let mut t = app(var("x"), var("x"));
    t.subst(&Name::new("x"), &num(5));
    assert!(matches!(&t, Term::App { fun, arg }
        if matches!(**fun, Term::Num { val: 5 }) && matches!(**arg, Term::Num { val: 5 })));
    assert_eq!(show(&t), "(5 5)");
}

#[test]
fn subst_goes_through_scopeless_binder() {
    let mut t = Term::Chn { nam: Name::new("y"), bod: Box::new(var("z")) };
    t.subst(&Name::new("z"), &num(5));
    assert_eq!(show(&t), "λ$y 5");

    let mut same = Term::Chn { nam: Name::new("x"), bod: Box::new(var("x")) };
    same.subst(&Name::new("x"), &num(1));
    assert_eq!(show(&same), "λ$x 1");
}

#[test]
fn subst_leaves_leaves_alone() {
    let mut t = Term::Sup {
        fst: Box::new(Term::Lnk { nam: Name::new("x") }),
        snd: Box::new(Term::Tup { fst: Box::new(Term::Era), snd: Box::new(var("y")) }),
    };
    t.subst(&Name::new("x"), &num(3));
    assert_eq!(show(&t), "{$x (*, y)}");
}

#[test]
fn subst_let_shadows_continuation_only() {
    let mut t = Term::Let {
        pat: LetPat::Var(Name::new("x")),
        val: Box::new(var("x")),
        nxt: Box::new(var("x")),
    };
    t.subst(&Name::new("x"), &num(2));
    assert_eq!(show(&t), "let x = 2; x");

    let mut pair = Term::Let {
        pat: LetPat::Tup(None, Some(Name::new("x"))),
        val: Box::new(var("x")),
        nxt: Box::new(app(var("x"), var("y"))),
    };
    pair.subst(&Name::new("y"), &num(4));
    assert_eq!(show(&pair), "let (*, x) = x; (x 4)");
    pair.subst(&Name::new("x"), &num(9));
    assert_eq!(show(&pair), "let (*, x) = 9; (x 4)");
}

#[test]
fn subst_dup_shadows_continuation_only() {
    let mut t = Term::Dup {
        fst: Some(Name::new("a")),
        snd: None,
        val: Box::new(var("a")),
        nxt: Box::new(var("a")),
    };
    t.subst(&Name::new("a"), &num(1));
    assert_eq!(show(&t), "dup a * = 1; a");

    let mut open = Term::Dup { fst: None, snd: None, val: Box::new(var("b")), nxt: Box::new(var("b")) };
    open.subst(&Name::new("b"), &num(8));
    assert_eq!(show(&open), "dup * * = 8; 8");
}

#[test]
fn subst_match_goes_into_all_branches() {
    let mut t = Term::Match {
        cond: Box::new(var("n")),
        zero: Box::new(var("n")),
        succ: Box::new(lam("p", app(var("n"), var("p")))),
    };
    t.subst(&Name::new("n"), &num(7));
    assert_eq!(show(&t), "match 7 { 0: 7; 1+p: (7 p) }");
    t.subst(&Name::new("p"), &num(0));
    assert_eq!(show(&t), "match 7 { 0: 7; 1+p: (7 p) }");
}

#[test]
fn subst_opx_and_unbound_lambda() {
    let mut t = Term::Lam {
        nam: None,
        bod: Box::new(Term::Opx { op: Op::MUL, fst: Box::new(var("k")), snd: Box::new(var("k")) }),
    };
    t.subst(&Name::new("k"), &num(12));
    assert_eq!(show(&t), "λ* (* 12 12)");
}

#[test]
fn render_match_without_lambda_falls_back() {
    let t = Term::Match { cond: Box::new(var("x")), zero: Box::new(num(1)), succ: Box::new(num(2)) };
    assert_eq!(show(&t), "match x { 0: 1; 1+*: 2 }");
}

#[test]
fn render_references_by_name() {
    let mut names = DefNames::new();
    let id = names.insert(Name::new("main"));
    let t = app(Term::Ref { def_id: id }, num(1234567));
    assert_eq!(t.to_string(&names), "(main 1234567)");
}

#[test]
fn render_numbers() {
    assert_eq!(show(&num(0)), "0");
    assert_eq!(show(&num(10)), "10");
    assert_eq!(show(&num(u32::MAX)), "4294967295");
}

#[test]
fn render_operators() {
    let ops = [
        (Op::ADD, "+"), (Op::SUB, "-"), (Op::MUL, "*"), (Op::DIV, "/"), (Op::MOD, "%"),
        (Op::EQ, "=="), (Op::NE, "!="), (Op::LT, "<"), (Op::GT, ">"), (Op::AND, "&"),
        (Op::OR, "|"), (Op::XOR, "^"), (Op::NOT, "~"), (Op::LSH, "<<"), (Op::RSH, ">>"),
    ];
    for (op, text) in ops {
        assert_eq!(op.to_string(), text);
        let t = Term::Opx { op, fst: Box::new(num(1)), snd: Box::new(num(2)) };
        assert_eq!(show(&t), format!("({} 1 2)", text));
    }
}

#[test]
fn render_let_patterns() {
    assert_eq!(LetPat::Var(Name::new("v")).to_string(), "v");
    assert_eq!(LetPat::Tup(Some(Name::new("a")), None).to_string(), "(a, *)");
}

#[test]
fn render_is_deterministic() {
    let t = Term::Dup {
        fst: Some(Name::new("a")),
        snd: Some(Name::new("b")),
        val: Box::new(Term::Chn { nam: Name::new("c"), bod: Box::new(Term::Lnk { nam: Name::new("c") }) }),
        nxt: Box::new(app(var("a"), var("b"))),
    };
    let first = show(&t);
    let second = show(&t);
    assert_eq!(first, second);
    assert_eq!(first, "dup a b = λ$c $c; (a b)");
}

#[test]
fn call_folds_arguments_left_to_right() {
    let t = Term::call(var("f"), vec![var("a"), var("b"), var("c")]);
    assert_eq!(show(&t), "(((f a) b) c)");
    assert_eq!(show(&Term::call(var("g"), vec![])), "g");
}

#[test]
fn clone_keeps_the_term() {
    let t = lam("x", Term::Sup { fst: Box::new(var("x")), snd: Box::new(num(3)) });
    let c = t.clone();
    assert_eq!(show(&c), show(&t));
}
