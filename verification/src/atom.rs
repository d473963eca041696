//! Atoms of MeTTa and the walk over the sub-expressions of an expression.
use vstd::prelude::*;

verus! {

broadcast use vstd::std_specs::vec::group_vec_axioms, vstd::seq::group_seq_axioms;

/// The mathematical value of an atom: names as character sequences and
/// expressions as sequences of atom values.
pub enum AtomView {
    Symbol(Seq<char>),
    Variable(Seq<char>),
    Expression(Seq<AtomView>),
}

/// An expression atom: an ordered list of child atoms.
#[derive(Debug)]
pub struct ExpressionAtom {
    pub children: Vec<Atom>,
}

/// A MeTTa atom.
#[derive(Debug)]
pub enum Atom {
    Symbol(String),
    Variable(String),
    Expression(ExpressionAtom),
}

impl Atom {
    /// The value of an atom.
    pub open spec fn value(self) -> AtomView
        decreases self,
    {
        match self {
            Atom::Symbol(s) => AtomView::Symbol(s@),
            Atom::Variable(s) => AtomView::Variable(s@),
            Atom::Expression(e) => {
                proof {
                    assert(decreases_to!(e.children => e.children@));
                }
                AtomView::Expression(Atom::values(e.children@))
            },
        }
    }

    /// The values of a sequence of atoms.
    pub open spec fn values(s: Seq<Atom>) -> Seq<AtomView>
        decreases s,
    {
        Seq::new(s.len(), |i: int| if 0 <= i < s.len() { s[i].value() } else { AtomView::Symbol(Seq::empty()) })
    }
}


impl View for Atom {
    type V = AtomView;

    open spec fn view(&self) -> AtomView {
        self.value()
    }
}

/// The values of a sequence of atom references.
pub open spec fn ref_values(s: Seq<&Atom>) -> Seq<AtomView> {
    Seq::new(s.len(), |i: int| s[i].value())
}

/// Splits an expression into its first child (the operation) and an iterator
/// over the remaining children (the arguments). Gives `None` for an atom that
/// is not an expression and for the empty expression.
pub fn split_expr(expr: &Atom) -> (r: Option<(&Atom, std::slice::Iter<'_, Atom>)>)
    ensures
        r is Some <==> (expr@ matches AtomView::Expression(ch) && ch.len() > 0),
        r matches Some((op, args)) ==> ({
            &&& expr@ matches AtomView::Expression(ch)
            &&& op@ == ch[0]
            &&& ref_values(vstd::std_specs::iter::IteratorSpec::remaining(&args)) == ch.drop_first()
        }),
{
    match expr {
        Atom::Expression(expr) => {
            let children = expr.children.as_slice();
            if children.len() == 0 {
                None
            } else {
                let args = children.split_at(1).1.iter();
                Some((&children[0], args))
            }
        },
        _ => None,
    }
}


/// The values of two atom sequences are equal exactly when they have the same
/// length and equal values index by index.
pub proof fn lemma_values_equal(s: Seq<Atom>, t: Seq<Atom>)
    ensures
        (Atom::values(s) == Atom::values(t)) <==> (s.len() == t.len() && forall|i: int|
            0 <= i < s.len() ==> #[trigger] s[i].value() == t[i].value()),
{
    if s.len() == t.len() && forall|i: int| 0 <= i < s.len() ==> #[trigger] s[i].value() == t[i].value() {
        assert forall|i: int| 0 <= i < s.len() implies Atom::values(s)[i] == Atom::values(t)[i] by {
            assert(s[i].value() == t[i].value());
        }
        assert(Atom::values(s) =~= Atom::values(t));
    }
    if Atom::values(s) == Atom::values(t) {
        assert(s.len() == Atom::values(s).len() && t.len() == Atom::values(t).len());
        assert forall|i: int| 0 <= i < s.len() implies #[trigger] s[i].value() == t[i].value() by {
            assert(Atom::values(s)[i] == Atom::values(t)[i]);
        }
    }
}

impl ExpressionAtom {
    /// Creates an expression of the given children.
    pub fn new(children: Vec<Atom>) -> (r: ExpressionAtom)
        ensures
            r.children@ == children@,
    {
        ExpressionAtom { children }
    }

    /// The children of the expression, in order.
    pub fn children(&self) -> (r: &Vec<Atom>)
        ensures
            r@ == self.children@,
    {
        &self.children
    }
}

impl Atom {
    /// A symbol atom with the given name.
    pub fn sym(name: &str) -> (r: Atom)
        ensures
            r@ == AtomView::Symbol(name@),
    {
        Atom::Symbol(String::from_str(name))
    }

    /// A variable atom with the given name.
    pub fn var(name: &str) -> (r: Atom)
        ensures
            r@ == AtomView::Variable(name@),
    {
        Atom::Variable(String::from_str(name))
    }

    /// An expression atom with the given children.
    pub fn expr(children: Vec<Atom>) -> (r: Atom)
        ensures
            r@ == AtomView::Expression(Atom::values(children@)),
    {
        Atom::Expression(ExpressionAtom::new(children))
    }
}

/// Compares two atoms structurally: names by their characters and expressions
/// child by child.
pub fn atoms_equal(a: &Atom, b: &Atom) -> (r: bool)
    ensures
        r == (a@ == b@),
    decreases a,
{
    match (a, b) {
        (Atom::Symbol(x), Atom::Symbol(y)) => {
            let r = x.eq(y);
            r
        },
        (Atom::Variable(x), Atom::Variable(y)) => {
            let r = x.eq(y);
            r
        },
        (Atom::Expression(x), Atom::Expression(y)) => {
            let n = x.children.len();
            if n != y.children.len() {
                proof {
                    lemma_values_equal(x.children@, y.children@);
                }
                return false;
            }
            let mut i: usize = 0;
            while i < n
                invariant
                    n == x.children@.len(),
                    n == y.children@.len(),
                    i <= n,
                    *a == Atom::Expression(*x),
                    *b == Atom::Expression(*y),
                    forall|j: int| 0 <= j < i ==> #[trigger] x.children@[j].value() == y.children@[j].value(),
                decreases n - i,
            {
                proof {
                    assert(decreases_to!(*a => (*a)->Expression_0));
                    assert(decreases_to!(*x => x.children));
                    assert(decreases_to!(x.children => x.children[i as int]));
                }
                if !atoms_equal(&x.children[i], &y.children[i]) {
                    proof {
                        lemma_values_equal(x.children@, y.children@);
                    }
                    return false;
                }
                i = i + 1;
            }
            proof {
                lemma_values_equal(x.children@, y.children@);
            }
            true
        },
        _ => false,
    }
}

/// Copies an atom, child by child.
pub fn clone_atom(a: &Atom) -> (r: Atom)
    ensures
        r@ == a@,
    decreases a,
{
    match a {
        Atom::Symbol(x) => Atom::Symbol(x.clone()),
        Atom::Variable(x) => Atom::Variable(x.clone()),
        Atom::Expression(x) => {
            let n = x.children.len();
            let mut children: Vec<Atom> = Vec::new();
            let mut i: usize = 0;
            while i < n
                invariant
                    n == x.children@.len(),
                    i <= n,
                    *a == Atom::Expression(*x),
                    children@.len() == i,
                    forall|j: int| 0 <= j < i ==> #[trigger] children@[j].value() == x.children@[j].value(),
                decreases n - i,
            {
                proof {
                    assert(decreases_to!(*a => (*a)->Expression_0));
                    assert(decreases_to!(*x => x.children));
                    assert(decreases_to!(x.children => x.children[i as int]));
                }
                let c = clone_atom(&x.children[i]);
                children.push(c);
                i = i + 1;
            }
            proof {
                lemma_values_equal(children@, x.children@);
            }
            Atom::Expression(ExpressionAtom { children })
        },
    }
}

impl Clone for Atom {
    fn clone(&self) -> (r: Atom)
        ensures
            r@ == self@,
    {
        clone_atom(self)
    }
}

impl PartialEq for Atom {
    fn eq(&self, other: &Atom) -> (r: bool) {
        atoms_equal(self, other)
    }
}

impl vstd::std_specs::cmp::PartialEqSpecImpl for Atom {
    open spec fn obeys_eq_spec() -> bool {
        true
    }

    open spec fn eq_spec(&self, other: &Atom) -> bool {
        self@ == other@
    }
}

} // verus!
