use vstd::prelude::*;
use bimap::BiHashMap;
use crate::error::{ErrorKind, ErrorModel, LanguageError, LanguageErrorType, Location};
use crate::value::{Value, ValueModel};

verus! {

/// A variable's name and the scope it belongs to: empty for the top level,
/// else the name of the enclosing function.
#[derive(Clone, Debug, PartialEq, Eq, Hash)]
pub struct VariableKey {
    pub name: String,
    pub scope: String,
}

/// The model of a [`VariableKey`]: its name and its scope.
pub type KeyModel = (Seq<char>, Seq<char>);

impl VariableKey {
    pub open spec fn view(&self) -> KeyModel {
        (self.name@, self.scope@)
    }
}

#[verifier::external_type_specification]
#[verifier::external_body]
#[verifier::reject_recursive_types(L)]
#[verifier::reject_recursive_types(R)]
#[verifier::reject_recursive_types(LS)]
#[verifier::reject_recursive_types(RS)]
pub struct ExBiHashMap<L, R, LS, RS>(BiHashMap<L, R, LS, RS>);

/// The pairs that a symbol map holds, keyed by the variable.
pub uninterp spec fn pairs_of(m: BiHashMap<VariableKey, usize>) -> Map<KeyModel, usize>;

/// Relies on bimap's `BiHashMap::new`: the map starts empty.
#[verifier::external_body]
fn bimap_new() -> (r: BiHashMap<VariableKey, usize>)
    ensures
        pairs_of(r).dom() == Set::<KeyModel>::empty(),
{
    BiHashMap::new()
}

/// Relies on bimap's `BiHashMap::len`: the number of pairs.
#[verifier::external_body]
fn bimap_len(m: &BiHashMap<VariableKey, usize>) -> (r: usize)
    ensures
        r == pairs_of(*m).len(),
{
    m.len()
}

/// Relies on bimap's `BiHashMap::get_by_left`: the number paired with a key.
#[verifier::external_body]
fn bimap_get_by_left(m: &BiHashMap<VariableKey, usize>, key: &VariableKey) -> (r: Option<usize>)
    ensures
        pairs_of(*m).dom().contains(key@) ==> r == Some(pairs_of(*m)[key@]),
        !pairs_of(*m).dom().contains(key@) ==> r is None,
{
    m.get_by_left(key).copied()
}

/// Relies on bimap's `BiHashMap::get_by_right`: the key paired with a number.
#[verifier::external_body]
fn bimap_get_by_right(m: &BiHashMap<VariableKey, usize>, index: usize) -> (r: Option<VariableKey>)
    ensures
        r matches Some(k) ==> pairs_of(*m).dom().contains(k@) && pairs_of(*m)[k@] == index,
        r is None ==> forall|k: KeyModel| #[trigger] pairs_of(*m).dom().contains(k) ==> pairs_of(*m)[k] != index,
{
    m.get_by_right(&index).cloned()
}

/// Relies on bimap's `BiHashMap::insert`: where neither the key nor the number
/// is present yet, the pair is added and nothing else changes.
#[verifier::external_body]
fn bimap_insert(m: &mut BiHashMap<VariableKey, usize>, key: VariableKey, index: usize)
    requires
        !pairs_of(*old(m)).dom().contains(key@),
        forall|k: KeyModel| #[trigger] pairs_of(*old(m)).dom().contains(k) ==> pairs_of(*old(m))[k] != index,
    ensures
        pairs_of(*final(m)) == pairs_of(*old(m)).insert(key@, index),
{
    m.insert(key, index);
}

/// Relies on bimap's `Clone` for `BiHashMap`: the copy holds the same pairs.
#[verifier::external_body]
fn bimap_clone(m: &BiHashMap<VariableKey, usize>) -> (r: BiHashMap<VariableKey, usize>)
    ensures
        pairs_of(r) == pairs_of(*m),
{
    m.clone()
}

/// The layout of a context: which slot each variable lives in. Slots are
/// numbered densely from zero, one per variable.
#[derive(Debug)]
pub struct ExecutionContextLUT {
    scope_locations: BiHashMap<VariableKey, usize>,
}

/// Whether `m` pairs its keys one to one with the numbers `0 .. n`.
pub open spec fn dense_bijection(m: Map<KeyModel, usize>, n: nat) -> bool {
    &&& m.dom().finite()
    &&& m.len() == n
    &&& forall|k: KeyModel| #[trigger] m.dom().contains(k) ==> m[k] < n
    &&& forall|k1: KeyModel, k2: KeyModel|
        #[trigger] m.dom().contains(k1) && #[trigger] m.dom().contains(k2) && m[k1] == m[k2] ==> k1 == k2
    &&& forall|i: usize| i < n ==> #[trigger] names_slot(m, i)
}

/// Whether some variable of `m` lives in slot `i`.
pub open spec fn names_slot(m: Map<KeyModel, usize>, i: usize) -> bool {
    exists|k: KeyModel| #[trigger] m.dom().contains(k) && m[k] == i
}

impl ExecutionContextLUT {
    /// The variables and their slots.
    pub closed spec fn names(&self) -> Map<KeyModel, usize> {
        pairs_of(self.scope_locations)
    }

    pub closed spec fn wf(&self) -> bool {
        dense_bijection(self.names(), self.names().len())
    }

    /// An empty layout.
    pub fn new() -> (r: Self)
        ensures
            r.wf(),
            r.names() == Map::<KeyModel, usize>::empty(),
    {
        let m = bimap_new();
        proof {
            assert(pairs_of(m) =~= Map::<KeyModel, usize>::empty());
        }
        ExecutionContextLUT { scope_locations: m }
    }

    /// The number of variables.
    pub fn len(&self) -> (r: usize)
        ensures
            r == self.names().len(),
    {
        bimap_len(&self.scope_locations)
    }

    /// A copy of this layout.
    pub fn duplicate(&self) -> (r: Self)
        ensures
            r.names() == self.names(),
            self.wf() ==> r.wf(),
    {
        ExecutionContextLUT { scope_locations: bimap_clone(&self.scope_locations) }
    }
}

} // verus!

verus! {

/// The model of an optional slot value.
pub open spec fn slot_view(o: Option<Value>) -> Option<ValueModel> {
    match o {
        Some(v) => Some(v@),
        None => None,
    }
}

/// The name of the variable that lives in slot `i` of `m`.
pub open spec fn name_in_slot(m: Map<KeyModel, usize>, i: usize) -> Seq<char> {
    (choose|k: KeyModel| #[trigger] m.dom().contains(k) && m[k] == i).0
}

/// The error for a read of slot `slot` while it is unset.
pub open spec fn unset_error(m: Map<KeyModel, usize>, slot: usize, location: Option<Location>) -> ErrorModel {
    ErrorModel { location, kind: ErrorKind::Reference(name_in_slot(m, slot)) }
}

/// The variables of a program run and their current values, one slot each.
#[derive(Debug)]
pub struct ExecutionContext {
    scope_locations: ExecutionContextLUT,
    scope: Vec<Option<Value>>,
}

impl ExecutionContext {
    /// The variables and their slot numbers.
    pub closed spec fn names(&self) -> Map<KeyModel, usize> {
        self.scope_locations.names()
    }

    /// The slots' contents; `None` is unset.
    pub closed spec fn slots(&self) -> Seq<Option<ValueModel>> {
        self.scope@.map_values(|o: Option<Value>| slot_view(o))
    }

    /// Every slot belongs to exactly one variable and every variable to one
    /// slot.
    pub closed spec fn wf(&self) -> bool {
        &&& self.scope_locations.wf()
        &&& self.scope_locations.names().len() == self.scope@.len()
    }

    /// A context with no variables.
    pub fn new() -> (r: Self)
        ensures
            r.wf(),
            r.names() == Map::<KeyModel, usize>::empty(),
            r.slots() == Seq::<Option<ValueModel>>::empty(),
    {
        let r = ExecutionContext { scope_locations: ExecutionContextLUT::new(), scope: Vec::new() };
        proof {
            assert(r.slots() =~= Seq::<Option<ValueModel>>::empty());
        }
        r
    }

    /// A context with the given layout and every slot unset.
    pub fn new_with_scope_locations(scope_locations: ExecutionContextLUT) -> (r: Self)
        requires
            scope_locations.wf(),
        ensures
            r.wf(),
            r.names() == scope_locations.names(),
            r.slots() == Seq::new(scope_locations.names().len(), |i: int| None::<ValueModel>),
    {
        let length = scope_locations.len();
        let mut scope: Vec<Option<Value>> = Vec::with_capacity(length);
        let mut i: usize = 0;
        while i < length
            invariant
                i <= length,
                scope@.len() == i,
                forall|j: int| 0 <= j < i ==> scope@[j] is None,
            decreases length - i,
        {
            scope.push(None);
            i += 1;
        }
        let r = ExecutionContext { scope_locations, scope };
        proof {
            assert(r.slots() =~= Seq::new(scope_locations.names().len(), |i: int| None::<ValueModel>));
        }
        r
    }

    /// The layout of this context, from which more contexts with the same
    /// slot numbers can be made.
    pub fn export_scope_locations(&self) -> (r: ExecutionContextLUT)
        requires
            self.wf(),
        ensures
            r.wf(),
            r.names() == self.names(),
    {
        self.scope_locations.duplicate()
    }

    /// The number of slots.
    pub fn len(&self) -> (r: usize)
        requires
            self.wf(),
        ensures
            r == self.slots().len(),
    {
        self.scope.len()
    }

    /// The slot of `key`: its existing slot, or else a new unset slot after
    /// the last one.
    pub fn register(&mut self, key: VariableKey) -> (r: usize)
        requires
            old(self).wf(),
        ensures
            final(self).wf(),
            r < final(self).slots().len(),
            r == slot_for(old(self).names(), old(self).slots().len(), key@),
            final(self).names() == names_after(old(self).names(), old(self).slots().len(), key@),
            old(self).names().dom().contains(key@) ==> {
                &&& r == old(self).names()[key@]
                &&& final(self).names() == old(self).names()
                &&& final(self).slots() == old(self).slots()
            },
            !old(self).names().dom().contains(key@) ==> {
                &&& r == old(self).slots().len()
                &&& final(self).names() == old(self).names().insert(key@, r)
                &&& final(self).slots() == old(self).slots().push(None)
            },
    {
        match bimap_get_by_left(&self.scope_locations.scope_locations, &key) {
            Some(index) => {
                proof {
                    assert(self.names()[key@] < self.names().len());
                    assert(self.names().insert(key@, index) =~= self.names());
                }
                index
            },
            None => {
                let index = self.scope.len();
                proof {
                    let m = self.names();
                    assert forall|k: KeyModel| #[trigger] m.dom().contains(k) implies m[k] != index by {
                        assert(m[k] < m.len());
                    }
                }
                let ghost old_names = self.names();
                let ghost old_slots = self.slots();
                self.scope.push(None);
                bimap_insert(&mut self.scope_locations.scope_locations, key, index);
                proof {
                    let m = self.names();
                    assert(m.len() == old_names.len() + 1);
                    assert forall|i: usize| i < m.len() implies #[trigger] names_slot(m, i) by {
                        if i < index {
                            assert(names_slot(old_names, i));
                            let k = choose|k: KeyModel| #[trigger] old_names.dom().contains(k) && old_names[k] == i;
                            assert(m.dom().contains(k) && m[k] == i);
                        } else {
                            assert(m.dom().contains(key@) && m[key@] == i);
                        }
                    }
                    assert forall|k1: KeyModel, k2: KeyModel|
                        #[trigger] m.dom().contains(k1) && #[trigger] m.dom().contains(k2) && m[k1] == m[k2] implies k1 == k2 by {
                        if k1 != key@ && k2 != key@ {
                            assert(old_names.dom().contains(k1) && old_names.dom().contains(k2));
                        } else if k1 != key@ {
                            assert(old_names[k1] < old_names.len());
                        } else if k2 != key@ {
                            assert(old_names[k2] < old_names.len());
                        }
                    }
                    assert(self.slots() =~= old_slots.push(None));
                }
                index
            }
        }
    }

    /// The variable that lives in slot `identifier`.
    pub fn name_of(&self, identifier: usize) -> (r: Option<VariableKey>)
        requires
            self.wf(),
        ensures
            identifier < self.slots().len() <==> r is Some,
            r matches Some(k) ==> self.names().dom().contains(k@) && self.names()[k@] == identifier,
    {
        let r = bimap_get_by_right(&self.scope_locations.scope_locations, identifier);
        proof {
            let m = self.names();
            if identifier < self.slots().len() {
                assert(names_slot(m, identifier));
            }
            if r is Some {
                assert(m[r->Some_0@] < m.len());
            }
        }
        r
    }

    fn inner_get(&self, identifier: usize, location: Option<Location>) -> (r: Result<Value, LanguageError>)
        requires
            self.wf(),
            identifier < self.slots().len(),
        ensures
            self.slots()[identifier as int] matches Some(v) ==> (r matches Ok(x) && x@ == v),
            self.slots()[identifier as int] is None ==> (r matches Err(e)
                && e@ == unset_error(self.names(), identifier, location)),
    {
        match &self.scope[identifier] {
            Some(v) => Ok(v.duplicate()),
            None => {
                let ghost m = self.names();
                proof {
                    assert(names_slot(m, identifier));
                }
                match bimap_get_by_right(&self.scope_locations.scope_locations, identifier) {
                    Some(key) => {
                        proof {
                            let k = choose|k: KeyModel| #[trigger] m.dom().contains(k) && m[k] == identifier;
                            assert(k == key@);
                        }
                        Err(LanguageError { location, error: LanguageErrorType::Reference(key.name) })
                    },
                    None => {
                        proof {
                            let k = choose|k: KeyModel| #[trigger] m.dom().contains(k) && m[k] == identifier;
                            assert(m.dom().contains(k));
                        }
                        Err(LanguageError { location, error: LanguageErrorType::Reference(String::new()) })
                    },
                }
            },
        }
    }

    /// The value in slot `identifier`, for an error about the source at
    /// `location` if the slot is unset.
    pub fn get(&self, identifier: usize, location: Location) -> (r: Result<Value, LanguageError>)
        requires
            self.wf(),
            identifier < self.slots().len(),
        ensures
            self.slots()[identifier as int] matches Some(v) ==> (r matches Ok(x) && x@ == v),
            self.slots()[identifier as int] is None ==> (r matches Err(e)
                && e@ == unset_error(self.names(), identifier, Some(location))),
    {
        self.inner_get(identifier, Some(location))
    }

    /// The value in slot `identifier`; an unset slot gives an error without
    /// a location.
    pub fn unattributed_get(&self, identifier: usize) -> (r: Result<Value, LanguageError>)
        requires
            self.wf(),
            identifier < self.slots().len(),
        ensures
            self.slots()[identifier as int] matches Some(v) ==> (r matches Ok(x) && x@ == v),
            self.slots()[identifier as int] is None ==> (r matches Err(e)
                && e@ == unset_error(self.names(), identifier, None)),
    {
        self.inner_get(identifier, None)
    }

    /// Stores `value` in slot `identifier`.
    pub fn set(&mut self, identifier: usize, value: Value)
        requires
            old(self).wf(),
            identifier < old(self).slots().len(),
        ensures
            final(self).wf(),
            final(self).names() == old(self).names(),
            final(self).slots() == old(self).slots().update(identifier as int, Some(value@)),
    {
        self.scope.set(identifier, Some(value));
        proof {
            assert(self.slots() =~= old(self).slots().update(identifier as int, Some(value@)));
        }
    }

    /// Stores `value` in the top-level variable `identifier`, registering it
    /// first where needed.
    pub fn set_runtime(&mut self, identifier: &str, value: Value)
        requires
            old(self).wf(),
        ensures
            final(self).wf(),
            ({
                let key = (identifier@, Seq::<char>::empty());
                let slot = if old(self).names().dom().contains(key) {
                    old(self).names()[key]
                } else {
                    old(self).slots().len() as usize
                };
                let before = if old(self).names().dom().contains(key) {
                    old(self).slots()
                } else {
                    old(self).slots().push(None)
                };
                &&& final(self).names() == old(self).names().insert(key, slot)
                &&& final(self).slots() == before.update(slot as int, Some(value@))
            }),
    {
        let key = VariableKey { name: identifier.to_string(), scope: String::new() };
        proof {
            assert(key@ == (identifier@, Seq::<char>::empty()));
        }
        let index = self.register(key);
        proof {
            if old(self).names().dom().contains(key@) {
                assert(old(self).names().insert(key@, index) =~= old(self).names());
                assert(old(self).names()[key@] < old(self).names().len());
            }
        }
        self.set(index, value);
    }

    /// Unsets every slot; the variables keep their slots.
    pub fn reset(&mut self)
        requires
            old(self).wf(),
        ensures
            final(self).wf(),
            final(self).names() == old(self).names(),
            final(self).slots() == Seq::new(old(self).slots().len(), |i: int| None::<ValueModel>),
    {
        let mut i: usize = 0;
        while i < self.scope.len()
            invariant
                i <= self.scope@.len(),
                self.wf(),
                self.names() == old(self).names(),
                self.scope@.len() == old(self).scope@.len(),
                forall|j: int| 0 <= j < i ==> self.scope@[j] is None,
            decreases self.scope@.len() - i,
        {
            self.scope.set(i, None);
            i += 1;
        }
        proof {
            assert(self.slots() =~= Seq::new(old(self).slots().len(), |i: int| None::<ValueModel>));
        }
    }
}

impl ExecutionContext {
    /// Whether this context holds every variable of `earlier` in the same
    /// slot with the same value, and only unset slots besides.
    pub open spec fn extends(&self, earlier: &ExecutionContext) -> bool {
        &&& self.wf()
        &&& earlier.slots().len() <= self.slots().len()
        &&& forall|k: KeyModel| #[trigger] earlier.names().dom().contains(k)
            ==> self.names().dom().contains(k) && self.names()[k] == earlier.names()[k]
        &&& forall|i: int| 0 <= i < earlier.slots().len() ==> #[trigger] self.slots()[i] == earlier.slots()[i]
        &&& forall|i: int| earlier.slots().len() <= i < self.slots().len() ==> #[trigger] self.slots()[i] is None
    }
}

/// Distinct variables (differing in name or in scope) live in distinct
/// slots.
pub proof fn law_distinct_keys_distinct_slots(ctx: &ExecutionContext, k1: KeyModel, k2: KeyModel)
    requires
        ctx.wf(),
        ctx.names().dom().contains(k1),
        ctx.names().dom().contains(k2),
        k1 != k2,
    ensures
        ctx.names()[k1] != ctx.names()[k2],
{
}

/// The slot that `register` gives `key` in a context with these names and
/// this many slots.
pub open spec fn slot_for(names: Map<KeyModel, usize>, nslots: nat, key: KeyModel) -> usize {
    if names.dom().contains(key) {
        names[key]
    } else {
        nslots as usize
    }
}

/// The names after `register` of `key`.
pub open spec fn names_after(names: Map<KeyModel, usize>, nslots: nat, key: KeyModel) -> Map<KeyModel, usize> {
    names.insert(key, slot_for(names, nslots, key))
}

/// Registering a key a second time gives the slot the first call gave and
/// changes nothing.
pub proof fn law_register_idempotent(names: Map<KeyModel, usize>, nslots: nat, key: KeyModel)
    ensures
        ({
            let once = names_after(names, nslots, key);
            let grown = if names.dom().contains(key) { nslots } else { nslots + 1 };
            &&& slot_for(once, grown, key) == slot_for(names, nslots, key)
            &&& names_after(once, grown, key) == once
        }),
{
    let once = names_after(names, nslots, key);
    assert(once.insert(key, slot_for(once, nslots, key)) =~= once);
}

pub proof fn lemma_extends_trans(a: &ExecutionContext, b: &ExecutionContext, c: &ExecutionContext)
    requires
        b.extends(a),
        c.extends(b),
    ensures
        c.extends(a),
{
    assert forall|i: int| a.slots().len() <= i < c.slots().len() implies #[trigger] c.slots()[i] is None by {
        if i < b.slots().len() {
            assert(c.slots()[i] == b.slots()[i]);
        }
    }
    assert forall|i: int| 0 <= i < a.slots().len() implies #[trigger] c.slots()[i] == a.slots()[i] by {
        assert(c.slots()[i] == b.slots()[i]);
    }
}

pub proof fn lemma_extends_refl(a: &ExecutionContext)
    requires
        a.wf(),
    ensures
        a.extends(a),
{
}

impl Default for ExecutionContext {
    fn default() -> (r: Self)
        ensures
            r.wf(),
            r.names() == Map::<KeyModel, usize>::empty(),
            r.slots() == Seq::<Option<ValueModel>>::empty(),
    {
        ExecutionContext::new()
    }
}

impl Default for ExecutionContextLUT {
    fn default() -> (r: Self)
        ensures
            r.wf(),
            r.names() == Map::<KeyModel, usize>::empty(),
    {
        ExecutionContextLUT::new()
    }
}

} // verus!
