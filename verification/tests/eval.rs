use hyperon::atom::{Atom, AtomView};
use hyperon::eval::{GroundedAtomType, ModuleId, ModuleIndex};

struct IntType {
    atom: Atom,
}

impl GroundedAtomType for IntType {
    fn atom_view(&self) -> AtomView {
        panic!("a value for proofs only")
    }

    fn as_atom(&self) -> &Atom {
        &self.atom
    }

    fn equal<T>(_a: &T, _b: &T) -> bool {
        true
    }

    fn new_item(&mut self, text: &str) -> Atom {
        Atom::sym(text)
    }
}

#[test]
fn function_read_after_write() {
    let mut index = ModuleIndex::new();
    let f = Atom::sym("fac");
    let g = Atom::expr(vec![Atom::sym("g"), Atom::var("x")]);
    index.add_function(&f, ModuleId(3));
    index.add_function(&g, ModuleId(5));
    assert_eq!(index.mod_by_func(&f).0, 3);
    assert_eq!(index.mod_by_func(&Atom::expr(vec![Atom::sym("g"), Atom::var("x")])).0, 5);
    index.add_function(&f, ModuleId(7));
    assert_eq!(index.mod_by_func(&f).0, 7);
    assert_eq!(index.mod_by_func(&g).0, 5);
    index.remove_function(&f);
    assert_eq!(index.mod_by_func(&g).0, 5);
    index.remove_function(&f);
    index.add_function(&f, ModuleId(1));
    assert_eq!(index.mod_by_func(&f).0, 1);
}

#[test]
fn types_are_recorded_and_forgotten() {
    let mut index = ModuleIndex::new();
    let mut t = IntType { atom: Atom::sym("Int") };
    assert_eq!(t.new_item("x"), Atom::sym("x"));
    assert!(IntType::equal(&1, &1));
    index.add_type(t, ModuleId(2));
    index.remove_type(&Atom::sym("Int"));
    index.remove_type(&Atom::sym("Int"));
    index.add_function(&Atom::sym("Int"), ModuleId(4));
    assert_eq!(index.mod_by_func(&Atom::sym("Int")).0, 4);
}
