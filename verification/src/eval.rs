//! The index of modules: a registry that records, for each function atom and
//! each grounded type atom, the number of the module that defines it. Adding
//! an atom that is recorded already moves it to the new module; removing one
//! that is not recorded changes nothing; a function is looked up only once it
//! is recorded.
use vstd::prelude::*;
use crate::atom::{Atom, AtomView, atoms_equal, clone_atom};

verus! {

/// A trait for the grounded types that a module brings: each one is shown to
/// the index as an atom.
pub trait GroundedAtomType {
    /// The value of the atom that stands for this type.
    spec fn atom_view(&self) -> AtomView;

    /// The atom that stands for this type.
    fn as_atom(&self) -> (r: &Atom)
        ensures
            r@ == self.atom_view(),
    ;

    /// Whether two values of a grounded type are equal.
    fn equal<T>(a: &T, b: &T) -> bool where Self: Sized;

    /// Makes a new item of this type from its text.
    fn new_item(&mut self, text: &str) -> Atom;
}

/// Bindings of variables to atoms.
pub struct Bindings {
    entries: Vec<(String, Atom)>,
}

/// A state of evaluation: an atom with the bindings of its variables.
pub struct State {
    atom: Atom,
    bindings: Bindings,
}

/// Where an evaluator sends the states it produces.
pub trait Channel {
    fn send(&mut self, state: State);
}

/// Evaluates a state, sending its results to a channel.
pub trait Evaluator {
    fn eval(&mut self, input: State, output: &mut dyn Channel);
}

/// Declares std's `RefCell` to the verifier as an opaque type.
#[verifier::external_type_specification]
#[verifier::external_body]
#[verifier::reject_recursive_types(T)]
pub struct ExRefCell<T: ?Sized>(std::cell::RefCell<T>);

/// The shared handle of a module index that a module keeps.
pub struct ModuleIndexRef(std::rc::Rc<std::cell::RefCell<ModuleIndex>>);

/// The identifier of a module in the index.
pub struct ModuleId(pub usize);

/// Keys that are atoms, each bound to a module number.
struct Registry {
    keys: Vec<Atom>,
    ids: Vec<usize>,
}

/// Whether `k` is the value of some key.
pub open spec fn has_key(keys: Seq<Atom>, k: AtomView) -> bool {
    exists|i: int| 0 <= i < keys.len() && #[trigger] keys[i]@ == k
}

/// The map that a list of keys and a list of module numbers, taken pairwise, define.
pub open spec fn bindings(keys: Seq<Atom>, ids: Seq<usize>) -> Map<AtomView, nat> {
    Map::new(
        |k: AtomView| has_key(keys, k),
        |k: AtomView| ids[choose|i: int| 0 <= i < keys.len() && #[trigger] keys[i]@ == k] as nat,
    )
}

/// No two keys have the same value.
pub open spec fn distinct_keys(keys: Seq<Atom>) -> bool {
    forall|i: int, j: int| 0 <= i < keys.len() && 0 <= j < keys.len() && i != j ==> #[trigger] keys[i]@ != #[trigger] keys[j]@
}

/// With distinct keys, the binding of the key at index `i` is the module number at `i`.
proof fn lemma_binding_at(keys: Seq<Atom>, ids: Seq<usize>, i: int)
    requires
        distinct_keys(keys),
        keys.len() == ids.len(),
        0 <= i < keys.len(),
    ensures
        bindings(keys, ids).contains_key(keys[i]@),
        bindings(keys, ids)[keys[i]@] == ids[i] as nat,
{
    let k = keys[i]@;
    assert(has_key(keys, k));
    let j = choose|j: int| 0 <= j < keys.len() && #[trigger] keys[j]@ == k;
    assert(keys[j]@ == k);
}

impl Registry {
    spec fn well_formed(self) -> bool {
        &&& self.keys@.len() == self.ids@.len()
        &&& distinct_keys(self.keys@)
    }

    spec fn map(self) -> Map<AtomView, nat> {
        bindings(self.keys@, self.ids@)
    }

    fn new() -> (r: Registry)
        ensures
            r.well_formed(),
            r.map() == Map::<AtomView, nat>::empty(),
    {
        let r = Registry { keys: Vec::new(), ids: Vec::new() };
        assert(r.map() =~= Map::<AtomView, nat>::empty());
        r
    }

    /// The index of the key whose value is that of `key`.
    fn find(&self, key: &Atom) -> (r: Option<usize>)
        ensures
            r matches Some(i) ==> i < self.keys@.len() && self.keys@[i as int]@ == key@,
            r is None ==> !has_key(self.keys@, key@),
    {
        let n = self.keys.len();
        let mut i: usize = 0;
        while i < n
            invariant
                n == self.keys@.len(),
                i <= n,
                forall|j: int| 0 <= j < i ==> #[trigger] self.keys@[j]@ != key@,
            decreases n - i,
        {
            if atoms_equal(&self.keys[i], key) {
                return Some(i);
            }
            i = i + 1;
        }
        None
    }

    fn get(&self, key: &Atom) -> (r: Option<usize>)
        requires
            self.well_formed(),
        ensures
            r matches Some(id) ==> self.map().contains_key(key@) && self.map()[key@] == id as nat,
            r is None ==> !self.map().contains_key(key@),
    {
        match self.find(key) {
            Some(i) => {
                proof { lemma_binding_at(self.keys@, self.ids@, i as int); }
                Some(self.ids[i])
            },
            None => None,
        }
    }

    fn insert(&mut self, key: &Atom, id: usize)
        requires
            old(self).well_formed(),
        ensures
            final(self).well_formed(),
            final(self).map() == old(self).map().insert(key@, id as nat),
    {
        let ghost old_keys = self.keys@;
        let ghost old_ids = self.ids@;
        match self.find(key) {
            Some(i) => {
                self.ids.set(i, id);
                proof {
                    let m = bindings(self.keys@, self.ids@);
                    let m0 = bindings(old_keys, old_ids).insert(key@, id as nat);
                    assert forall|k: AtomView| m.contains_key(k) == m0.contains_key(k) by {
                        if k == key@ { assert(self.keys@[i as int]@ == k); }
                    }
                    assert forall|k: AtomView| m.contains_key(k) implies m[k] == m0[k] by {
                        let j = choose|j: int| 0 <= j < self.keys@.len() && #[trigger] self.keys@[j]@ == k;
                        lemma_binding_at(self.keys@, self.ids@, j);
                        if k != key@ {
                            lemma_binding_at(old_keys, old_ids, j);
                        }
                    }
                    assert(m =~= m0);
                }
            },
            None => {
                let k = clone_atom(key);
                self.keys.push(k);
                self.ids.push(id);
                proof {
                    let m = bindings(self.keys@, self.ids@);
                    let m0 = bindings(old_keys, old_ids).insert(key@, id as nat);
                    let n = old_keys.len() as int;
                    assert(self.keys@[n]@ == key@);
                    assert forall|k: AtomView| m.contains_key(k) == m0.contains_key(k) by {
                        if has_key(old_keys, k) {
                            let j = choose|j: int| 0 <= j < old_keys.len() && #[trigger] old_keys[j]@ == k;
                            assert(self.keys@[j]@ == k);
                        }
                        if has_key(self.keys@, k) && k != key@ {
                            let j = choose|j: int| 0 <= j < self.keys@.len() && #[trigger] self.keys@[j]@ == k;
                            assert(old_keys[j]@ == k);
                        }
                    }
                    assert forall|k: AtomView| m.contains_key(k) implies m[k] == m0[k] by {
                        let j = choose|j: int| 0 <= j < self.keys@.len() && #[trigger] self.keys@[j]@ == k;
                        lemma_binding_at(self.keys@, self.ids@, j);
                        if k != key@ {
                            assert(j < n);
                            assert(old_keys[j]@ == k);
                            lemma_binding_at(old_keys, old_ids, j);
                        }
                    }
                    assert(m =~= m0);
                }
            },
        }
    }

    fn remove(&mut self, key: &Atom)
        requires
            old(self).well_formed(),
        ensures
            final(self).well_formed(),
            final(self).map() == old(self).map().remove(key@),
    {
        let ghost old_keys = self.keys@;
        let ghost old_ids = self.ids@;
        match self.find(key) {
            Some(i) => {
                let _k = self.keys.remove(i);
                let _id = self.ids.remove(i);
                proof {
                    let m = bindings(self.keys@, self.ids@);
                    let m0 = bindings(old_keys, old_ids).remove(key@);
                    assert forall|k: AtomView| m.contains_key(k) == m0.contains_key(k) by {
                        if has_key(old_keys, k) && k != key@ {
                            let j = choose|j: int| 0 <= j < old_keys.len() && #[trigger] old_keys[j]@ == k;
                            if j < i { assert(self.keys@[j]@ == k); } else { assert(self.keys@[j - 1]@ == k); }
                        }
                        if has_key(self.keys@, k) {
                            let j = choose|j: int| 0 <= j < self.keys@.len() && #[trigger] self.keys@[j]@ == k;
                            if j < i { assert(old_keys[j]@ == k); } else { assert(old_keys[j + 1]@ == k); }
                        }
                    }
                    assert forall|k: AtomView| m.contains_key(k) implies m[k] == m0[k] by {
                        let j = choose|j: int| 0 <= j < self.keys@.len() && #[trigger] self.keys@[j]@ == k;
                        lemma_binding_at(self.keys@, self.ids@, j);
                        if j < i {
                            lemma_binding_at(old_keys, old_ids, j);
                        } else {
                            lemma_binding_at(old_keys, old_ids, j + 1);
                        }
                    }
                    assert(m =~= m0);
                }
            },
            None => {
                proof {
                    assert(bindings(old_keys, old_ids) =~= bindings(old_keys, old_ids).remove(key@));
                }
            },
        }
    }
}

/// The index of modules: for each function atom and each grounded type atom,
/// the module that defines it.
pub struct ModuleIndex {
    functions: Registry,
    types: Registry,
}

impl ModuleIndex {
    /// The module number of each function atom.
    pub closed spec fn functions(self) -> Map<AtomView, nat> {
        self.functions.map()
    }

    /// The module number of each grounded type atom.
    pub closed spec fn types(self) -> Map<AtomView, nat> {
        self.types.map()
    }

    /// The invariant of the index: no atom is recorded twice.
    pub closed spec fn inv(self) -> bool {
        self.functions.well_formed() && self.types.well_formed()
    }

    /// An index with no functions and no types.
    pub fn new() -> (r: ModuleIndex)
        ensures
            r.inv(),
            r.functions() == Map::<AtomView, nat>::empty(),
            r.types() == Map::<AtomView, nat>::empty(),
    {
        ModuleIndex { functions: Registry::new(), types: Registry::new() }
    }

    /// The module that defines the function `func`.
    pub fn mod_by_func(&self, func: &Atom) -> (r: ModuleId)
        requires
            self.inv(),
            self.functions().contains_key(func@),
        ensures
            r.0 as nat == self.functions()[func@],
    {
        match self.functions.get(func) {
            Some(id) => ModuleId(id),
            None => ModuleId(0),
        }
    }

    /// Records that the module `mod_id` defines the function `func`; a
    /// function recorded before is moved to `mod_id`.
    pub fn add_function(&mut self, func: &Atom, mod_id: ModuleId)
        requires
            old(self).inv(),
        ensures
            final(self).inv(),
            final(self).functions() == old(self).functions().insert(func@, mod_id.0 as nat),
            final(self).types() == old(self).types(),
    {
        self.functions.insert(func, mod_id.0);
    }

    /// Forgets which module defines the function `func`.
    pub fn remove_function(&mut self, func: &Atom)
        requires
            old(self).inv(),
        ensures
            final(self).inv(),
            final(self).functions() == old(self).functions().remove(func@),
            final(self).types() == old(self).types(),
    {
        self.functions.remove(func);
    }

    /// Records that the module `mod_id` defines the grounded type `typ`,
    /// which the index knows by the atom that `typ.as_atom()` gives.
    pub fn add_type<T>(&mut self, typ: T, mod_id: ModuleId) where T: GroundedAtomType
        requires
            old(self).inv(),
        ensures
            final(self).inv(),
            final(self).types() == old(self).types().insert(typ.atom_view(), mod_id.0 as nat),
            final(self).functions() == old(self).functions(),
    {
        let atom = typ.as_atom();
        self.add_type_atom(atom, mod_id);
    }

    /// Records that the module `mod_id` defines the grounded type whose atom
    /// is `typ`.
    pub fn add_type_atom(&mut self, typ: &Atom, mod_id: ModuleId)
        requires
            old(self).inv(),
        ensures
            final(self).inv(),
            final(self).types() == old(self).types().insert(typ@, mod_id.0 as nat),
            final(self).functions() == old(self).functions(),
    {
        self.types.insert(typ, mod_id.0);
    }

    /// Forgets which module defines the grounded type with atom `typ`.
    pub fn remove_type(&mut self, typ: &Atom)
        requires
            old(self).inv(),
        ensures
            final(self).inv(),
            final(self).types() == old(self).types().remove(typ@),
            final(self).functions() == old(self).functions(),
    {
        self.types.remove(typ);
    }
}

/// What the index gives back of a write: after a function is recorded for a
/// module, that module is the one found for it, and no other function moves.
pub proof fn law_function_read_after_write(before: ModuleIndex, after: ModuleIndex, func: AtomView, id: nat)
    requires
        after.functions() == before.functions().insert(func, id),
    ensures
        after.functions().contains_key(func),
        after.functions()[func] == id,
        forall|g: AtomView| g != func ==> (#[trigger] after.functions().contains_key(g) == before.functions().contains_key(g)
            && (before.functions().contains_key(g) ==> after.functions()[g] == before.functions()[g])),
{
}

/// A change to the functions of the index: what `add_function` and
/// `remove_function` each do to `functions()`.
pub enum FunctionChange {
    Add(AtomView, nat),
    Remove(AtomView),
}

/// The bindings after one change.
pub open spec fn apply_change(m: Map<AtomView, nat>, c: FunctionChange) -> Map<AtomView, nat> {
    match c {
        FunctionChange::Add(f, k) => m.insert(f, k),
        FunctionChange::Remove(f) => m.remove(f),
    }
}

/// The bindings after a sequence of changes, first to last.
pub open spec fn apply_changes(m: Map<AtomView, nat>, cs: Seq<FunctionChange>) -> Map<AtomView, nat>
    decreases cs.len(),
{
    if cs.len() == 0 {
        m
    } else {
        apply_change(apply_changes(m, cs.drop_last()), cs.last())
    }
}

/// Whether a change concerns the function `f`.
pub open spec fn changes_function(c: FunctionChange, f: AtomView) -> bool {
    match c {
        FunctionChange::Add(g, _) => g == f,
        FunctionChange::Remove(g) => g == f,
    }
}

/// Whatever the history of changes, the module found for a function is the
/// one that the last change concerning it recorded.
pub proof fn law_lookup_after_history(m: Map<AtomView, nat>, cs: Seq<FunctionChange>, f: AtomView, k: nat, i: int)
    requires
        0 <= i < cs.len(),
        cs[i] == FunctionChange::Add(f, k),
        forall|j: int| i < j < cs.len() ==> !changes_function(#[trigger] cs[j], f),
    ensures
        apply_changes(m, cs).contains_key(f),
        apply_changes(m, cs)[f] == k,
    decreases cs.len(),
{
    if i < cs.len() - 1 {
        let last = cs.last();
        assert(!changes_function(cs[cs.len() - 1], f));
        assert forall|j: int| i < j < cs.drop_last().len() implies !changes_function(#[trigger] cs.drop_last()[j], f) by {
            assert(cs.drop_last()[j] == cs[j]);
        }
        law_lookup_after_history(m, cs.drop_last(), f, k, i);
        match last {
            FunctionChange::Add(g, _) => {},
            FunctionChange::Remove(g) => {},
        }
    }
}

/// Recording a function that was not recorded and then forgetting it gives
/// back the functions recorded before.
pub proof fn law_function_add_then_remove(
    before: ModuleIndex,
    added: ModuleIndex,
    after: ModuleIndex,
    func: AtomView,
    id: nat,
)
    requires
        !before.functions().contains_key(func),
        added.functions() == before.functions().insert(func, id),
        after.functions() == added.functions().remove(func),
    ensures
        after.functions() == before.functions(),
{
    assert(after.functions() =~= before.functions());
}

/// Forgetting a type that was not recorded, after recording it, gives back
/// the types recorded before.
pub proof fn law_type_add_then_remove(
    before: ModuleIndex,
    added: ModuleIndex,
    after: ModuleIndex,
    typ: AtomView,
    id: nat,
)
    requires
        !before.types().contains_key(typ),
        added.types() == before.types().insert(typ, id),
        after.types() == added.types().remove(typ),
        added.functions() == before.functions(),
        after.functions() == added.functions(),
    ensures
        after.types() == before.types(),
        after.functions() == before.functions(),
{
    assert(after.types() =~= before.types());
}

/// What the index gives back of a type: after a type is recorded for a
/// module, that module is the one recorded for it; after it is forgotten, no
/// module is.
pub proof fn law_type_read_after_write(before: ModuleIndex, after: ModuleIndex, typ: AtomView, id: nat)
    requires
        after.types() == before.types().insert(typ, id),
    ensures
        after.types().contains_key(typ),
        after.types()[typ] == id,
        !after.types().remove(typ).contains_key(typ),
{
}

} // verus!
