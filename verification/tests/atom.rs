use hyperon::atom::{Atom, ExpressionAtom, atoms_equal, clone_atom, split_expr};

fn abc() -> Atom {
    Atom::expr(vec![Atom::sym("a"), Atom::var("b"), Atom::expr(vec![Atom::sym("c")])])
}

#[test]
fn split_expr_of_expression() {
    let e = abc();
    let (op, args) = split_expr(&e).unwrap();
    assert_eq!(*op, Atom::sym("a"));
    let rest: Vec<&Atom> = args.collect();
    assert_eq!(rest.len(), 2);
    assert_eq!(*rest[0], Atom::var("b"));
    assert_eq!(*rest[1], Atom::expr(vec![Atom::sym("c")]));
}

#[test]
fn split_expr_of_other_atoms() {
    assert!(split_expr(&Atom::sym("a")).is_none());
    assert!(split_expr(&Atom::var("a")).is_none());
    assert!(split_expr(&Atom::expr(vec![])).is_none());
    let single = Atom::expr(vec![Atom::sym("op")]);
    let (op, mut args) = split_expr(&single).unwrap();
    assert_eq!(*op, Atom::sym("op"));
    assert!(args.next().is_none());
}

#[test]
fn equality_and_clone() {
    let e = abc();
    let c = clone_atom(&e);
    assert!(atoms_equal(&e, &c));
    assert_eq!(e.clone(), e);
    assert!(!atoms_equal(&Atom::sym("a"), &Atom::var("a")));
    assert!(!atoms_equal(&Atom::sym("a"), &Atom::sym("b")));
    assert!(!atoms_equal(&Atom::expr(vec![Atom::sym("a")]), &Atom::expr(vec![Atom::sym("a"), Atom::sym("a")])));
    assert!(!atoms_equal(&Atom::expr(vec![Atom::sym("a")]), &Atom::expr(vec![Atom::sym("b")])));
    assert_eq!(ExpressionAtom::new(vec![Atom::sym("x")]).children().len(), 1);
}
