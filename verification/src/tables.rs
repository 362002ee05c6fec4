//! The compiler's symbol tables: local variable slots, functions,
//! objects and enums, each looked up by name.

use std::collections::HashMap;
use vstd::prelude::*;

use crate::text::{push_str, str_eq};
use crate::types::{
    EnumDefInfo, EnumVariantInfo, FunctionSignature, MethodSignature, ObjDefInfo, ResolvedType,
    TypeView,
};

verus! {

// ---------------------------------------------------------------------------
// Names
// ---------------------------------------------------------------------------

/// A table keyed by name in which a later entry for a name replaces the
/// earlier one.
pub struct NameMap<V> {
    entries: Vec<(String, V)>,
}

impl<V> NameMap<V> {
    /// No name occurs twice.
    pub closed spec fn wf(&self) -> bool {
        forall|i: int, j: int|
            0 <= i < j < self.entries@.len() ==> (#[trigger] self.entries@[i]).0@ != (
            #[trigger] self.entries@[j]).0@
    }

    pub closed spec fn index_of(&self, k: Seq<char>) -> int {
        choose|i: int| 0 <= i < self.entries@.len() && self.entries@[i].0@ == k
    }

    /// The entries by name.
    pub closed spec fn spec_map(&self) -> Map<Seq<char>, V> {
        Map::new(
            |k: Seq<char>| exists|i: int| 0 <= i < self.entries@.len() && self.entries@[i].0@ == k,
            |k: Seq<char>| self.entries@[self.index_of(k)].1,
        )
    }

    pub fn new() -> (r: NameMap<V>)
        ensures
            r.wf(),
            r.spec_map() == Map::<Seq<char>, V>::empty(),
    {
        let r = NameMap { entries: Vec::new() };
        assert(r.spec_map() =~= Map::<Seq<char>, V>::empty());
        r
    }

    fn position(&self, name: &str) -> (r: Option<usize>)
        requires
            self.wf(),
        ensures
            match r {
                Some(i) => i < self.entries@.len() && self.entries@[i as int].0@ == name@,
                None => forall|i: int|
                    0 <= i < self.entries@.len() ==> (#[trigger] self.entries@[i]).0@ != name@,
            },
    {
        let mut i: usize = 0;
        while i < self.entries.len()
            invariant
                i <= self.entries@.len(),
                forall|m: int| 0 <= m < i ==> (#[trigger] self.entries@[m]).0@ != name@,
            decreases self.entries@.len() - i,
        {
            if str_eq(self.entries[i].0.as_str(), name) {
                return Some(i);
            }
            i += 1;
        }
        None
    }

    /// The entry for `name`.
    pub fn get(&self, name: &str) -> (r: Option<&V>)
        requires
            self.wf(),
        ensures
            match r {
                Some(v) => self.spec_map().contains_key(name@) && self.spec_map()[name@] == *v,
                None => !self.spec_map().contains_key(name@),
            },
    {
        match self.position(name) {
            Some(i) => {
                proof {
                    assert(self.spec_map().contains_key(name@));
                    let c = self.index_of(name@);
                    assert(c == i);
                }
                Some(&self.entries[i].1)
            },
            None => None,
        }
    }

    /// Sets the entry for `name`, replacing any earlier one.
    pub fn insert(&mut self, name: String, value: V)
        requires
            old(self).wf(),
        ensures
            final(self).wf(),
            final(self).spec_map() == old(self).spec_map().insert(name@, value),
    {
        let ghost k = name@;
        let ghost before = old(self).spec_map();
        let ghost v = value;
        match self.position(name.as_str()) {
            Some(i) => {
                self.entries.set(i, (name, value));
                proof {
                    assert forall|a: int, b: int|
                        0 <= a < b < self.entries@.len() implies (#[trigger] self.entries@[a]).0@
                        != (#[trigger] self.entries@[b]).0@ by {
                        assert(old(self).entries@[a].0@ != old(self).entries@[b].0@);
                    }
                    assert forall|q: Seq<char>|
                        #![auto]
                        self.spec_map().contains_key(q) == before.insert(k, v).contains_key(q) by {
                        if q != k {
                            if before.contains_key(q) {
                                let j = old(self).index_of(q);
                                assert(self.entries@[j] == old(self).entries@[j]);
                            }
                            if self.spec_map().contains_key(q) {
                                let j = self.index_of(q);
                                assert(self.entries@[j] == old(self).entries@[j]);
                            }
                        } else {
                            assert(self.entries@[i as int].0@ == k);
                        }
                    }
                    assert forall|q: Seq<char>|
                        #![auto]
                        self.spec_map().contains_key(q) implies self.spec_map()[q] == before.insert(
                            k,
                            v,
                        )[q] by {
                        let j = self.index_of(q);
                        if q != k {
                            assert(self.entries@[j] == old(self).entries@[j]);
                            assert(old(self).index_of(q) == j);
                        } else {
                            assert(j == i);
                        }
                    }
                    assert(self.spec_map() =~= before.insert(k, v));
                }
            },
            None => {
                self.entries.push((name, value));
                proof {
                    let n = old(self).entries@.len() as int;
                    assert forall|a: int, b: int|
                        0 <= a < b < self.entries@.len() implies (#[trigger] self.entries@[a]).0@
                        != (#[trigger] self.entries@[b]).0@ by {
                        if b < n {
                            assert(old(self).entries@[a].0@ != old(self).entries@[b].0@);
                        } else {
                            assert(old(self).entries@[a] == self.entries@[a]);
                        }
                    }
                    assert forall|q: Seq<char>|
                        #![auto]
                        self.spec_map().contains_key(q) == before.insert(k, v).contains_key(q) by {
                        if q != k {
                            if before.contains_key(q) {
                                let j = old(self).index_of(q);
                                assert(self.entries@[j] == old(self).entries@[j]);
                            }
                            if self.spec_map().contains_key(q) {
                                let j = self.index_of(q);
                                assert(j < n);
                                assert(self.entries@[j] == old(self).entries@[j]);
                            }
                        } else {
                            assert(self.entries@[n].0@ == k);
                        }
                    }
                    assert forall|q: Seq<char>|
                        #![auto]
                        self.spec_map().contains_key(q) implies self.spec_map()[q] == before.insert(
                            k,
                            v,
                        )[q] by {
                        let j = self.index_of(q);
                        if q != k {
                            assert(j < n);
                            assert(self.entries@[j] == old(self).entries@[j]);
                            assert(old(self).index_of(q) == j);
                        } else {
                            assert(j == n);
                        }
                    }
                    assert(self.spec_map() =~= before.insert(k, v));
                }
            },
        }
    }
}

} // verus!

verus! {

// ---------------------------------------------------------------------------
// Locals
// ---------------------------------------------------------------------------

/// What kind of binding a local came from; decides whether it may be
/// reassigned or mutated, and how an immutability error is phrased.
#[derive(Clone, Copy, Debug, PartialEq, Eq, Structural)]
pub enum BindingKind {
    /// `let x = ...`: rebindable, mutable.
    Let,
    /// `val x = ...`: transitively immutable.
    Val,
    /// A parameter without `mut`: immutable.
    Param,
    /// A parameter declared `mut`.
    MutParam,
    /// `self` inside a `mut fn` method.
    SelfRef,
    /// A `for x in ...` loop variable.
    ForIndex,
    /// A compiler-generated local.
    Internal,
}

impl BindingKind {
    pub open spec fn spec_is_mutable(self) -> bool {
        self is Let || self is MutParam || self is SelfRef
    }

    /// Whether the binding may be reassigned or have its data mutated.
    pub fn is_mutable(&self) -> (r: bool)
        ensures
            r == self.spec_is_mutable(),
    {
        matches!(self, BindingKind::Let | BindingKind::MutParam | BindingKind::SelfRef)
    }
}

/// One slot in the locals table.
#[derive(Debug)]
pub struct LocalEntry {
    pub slot: usize,
    pub kind: BindingKind,
    pub obj_type: ResolvedType,
}

impl LocalEntry {
    /// Mutability follows the binding kind.
    pub fn is_mutable(&self) -> (r: bool)
        ensures
            r == self.kind.spec_is_mutable(),
    {
        self.kind.is_mutable()
    }

    /// A copy of the entry.
    pub fn duplicate(&self) -> (r: LocalEntry)
        ensures
            r.slot == self.slot,
            r.kind == self.kind,
            r.obj_type@ == self.obj_type@,
    {
        LocalEntry { slot: self.slot, kind: self.kind, obj_type: self.obj_type.duplicate() }
    }
}

/// Source-accurate phrasing of an immutability error for `name` bound as
/// `kind`, where `op` names the attempted operation (`assign to`, ...).
pub open spec fn immutability_message(name: Seq<char>, kind: BindingKind, op: Seq<char>) -> Seq<char> {
    if name == "self"@ {
        "cannot "@ + op
            + " `self` in a non-mutating method; declare the method's receiver as `mut self` to allow mutation"@
    } else {
        match kind {
            BindingKind::Val => "cannot "@ + op + " val binding `"@ + name + "`"@,
            BindingKind::Param => "cannot "@ + op + " parameter `"@ + name
                + "`; parameters are immutable (mark with `mut` to allow mutation)"@,
            BindingKind::ForIndex => "cannot "@ + op + " for-loop variable `"@ + name + "`"@,
            BindingKind::SelfRef => "cannot "@ + op + " `"@ + name + "`"@,
            _ => "cannot "@ + op + " `"@ + name
                + "` (compiler bug: mutable kind reached immutability_error)"@,
        }
    }
}

/// The message for a rejected mutation of an immutable binding.
pub fn immutability_error(name: &str, kind: &BindingKind, op: &str) -> (r: String)
    ensures
        r@ == immutability_message(name@, *kind, op@),
{
    let mut s = String::new();
    push_str(&mut s, "cannot ");
    push_str(&mut s, op);
    if str_eq(name, "self") {
        push_str(
            &mut s,
            " `self` in a non-mutating method; declare the method's receiver as `mut self` to allow mutation",
        );
        return s;
    }
    match kind {
        BindingKind::Val => {
            push_str(&mut s, " val binding `");
            push_str(&mut s, name);
            push_str(&mut s, "`");
        },
        BindingKind::Param => {
            push_str(&mut s, " parameter `");
            push_str(&mut s, name);
            push_str(&mut s, "`; parameters are immutable (mark with `mut` to allow mutation)");
        },
        BindingKind::ForIndex => {
            push_str(&mut s, " for-loop variable `");
            push_str(&mut s, name);
            push_str(&mut s, "`");
        },
        BindingKind::SelfRef => {
            push_str(&mut s, " `");
            push_str(&mut s, name);
            push_str(&mut s, "`");
        },
        _ => {
            push_str(&mut s, " `");
            push_str(&mut s, name);
            push_str(&mut s, "` (compiler bug: mutable kind reached immutability_error)");
        },
    }
    s
}

/// Maps variable names to numeric slots during compilation.
pub struct Locals {
    pub slots: NameMap<LocalEntry>,
    pub count: usize,
    pub max_count: usize,
    pub return_type: Option<ResolvedType>,
}

/// The slots and slot count of a [`Locals`] at some point, to return to
/// when a scope ends.
pub struct LocalsSnapshot {
    pub slots: NameMap<LocalEntry>,
    pub count: usize,
}

impl LocalsSnapshot {
    pub closed spec fn spec_slots(&self) -> Map<Seq<char>, LocalEntry> {
        self.slots.spec_map()
    }

    pub closed spec fn spec_count(&self) -> usize {
        self.count
    }
}

fn copy_slots(m: &NameMap<LocalEntry>) -> (r: NameMap<LocalEntry>)
    requires
        m.wf(),
    ensures
        r.wf(),
        r.spec_map().dom() == m.spec_map().dom(),
        forall|k: Seq<char>|
            #![trigger r.spec_map()[k]]
            r.spec_map().contains_key(k) ==> r.spec_map()[k].slot == m.spec_map()[k].slot
                && r.spec_map()[k].kind == m.spec_map()[k].kind && r.spec_map()[k].obj_type@
                == m.spec_map()[k].obj_type@,
{
    let mut out: Vec<(String, LocalEntry)> = Vec::new();
    let mut i: usize = 0;
    while i < m.entries.len()
        invariant
            i <= m.entries@.len(),
            out@.len() == i,
            forall|j: int|
                0 <= j < i ==> {
                    &&& (#[trigger] out@[j]).0@ == m.entries@[j].0@
                    &&& out@[j].1.slot == m.entries@[j].1.slot
                    &&& out@[j].1.kind == m.entries@[j].1.kind
                    &&& out@[j].1.obj_type@ == m.entries@[j].1.obj_type@
                },
        decreases m.entries@.len() - i,
    {
        out.push((m.entries[i].0.clone(), m.entries[i].1.duplicate()));
        i += 1;
    }
    let r = NameMap { entries: out };
    proof {
        assert forall|a: int, b: int|
            0 <= a < b < r.entries@.len() implies (#[trigger] r.entries@[a]).0@ != (
            #[trigger] r.entries@[b]).0@ by {
            assert(m.entries@[a].0@ != m.entries@[b].0@);
        }
        assert forall|k: Seq<char>| #![auto] r.spec_map().contains_key(k) == m.spec_map().contains_key(k) by {
            if m.spec_map().contains_key(k) {
                let j = m.index_of(k);
                assert(r.entries@[j].0@ == k);
            }
            if r.spec_map().contains_key(k) {
                let j = r.index_of(k);
                assert(m.entries@[j].0@ == k);
            }
        }
        assert(r.spec_map().dom() =~= m.spec_map().dom());
        assert forall|k: Seq<char>|
            #![trigger r.spec_map()[k]]
            r.spec_map().contains_key(k) implies r.spec_map()[k].slot == m.spec_map()[k].slot
                && r.spec_map()[k].kind == m.spec_map()[k].kind && r.spec_map()[k].obj_type@
                == m.spec_map()[k].obj_type@ by {
            let j = r.index_of(k);
            let j2 = m.index_of(k);
            assert(m.entries@[j].0@ == k);
            if j != j2 {
                if j < j2 {
                    assert(m.entries@[j].0@ != m.entries@[j2].0@);
                } else {
                    assert(m.entries@[j2].0@ != m.entries@[j].0@);
                }
            }
        }
    }
    r
}

impl Locals {
    pub closed spec fn wf(&self) -> bool {
        self.slots.wf()
    }

    /// The entries by name.
    pub closed spec fn spec_slots(&self) -> Map<Seq<char>, LocalEntry> {
        self.slots.spec_map()
    }

    /// An empty table.
    pub fn new() -> (r: Locals)
        ensures
            r.wf(),
            r.spec_slots() == Map::<Seq<char>, LocalEntry>::empty(),
            r.count == 0,
            r.max_count == 0,
            r.return_type is None,
    {
        Locals { slots: NameMap::new(), count: 0, max_count: 0, return_type: None }
    }

    /// Binds `name` to the next free slot and returns that slot.
    pub fn define(&mut self, name: String, kind: BindingKind, obj_type: ResolvedType) -> (r: usize)
        requires
            old(self).wf(),
            old(self).count < usize::MAX,
        ensures
            final(self).wf(),
            r == old(self).count,
            final(self).count == old(self).count + 1,
            final(self).max_count == if old(self).max_count > old(self).count + 1 {
                old(self).max_count as int
            } else {
                old(self).count + 1
            },
            final(self).return_type == old(self).return_type,
            final(self).spec_slots() == old(self).spec_slots().insert(
                name@,
                LocalEntry { slot: r, kind, obj_type },
            ),
    {
        let slot = self.count;
        self.slots.insert(name, LocalEntry { slot, kind, obj_type });
        self.count = self.count + 1;
        if self.count > self.max_count {
            self.max_count = self.count;
        }
        slot
    }

    /// The entry bound to `name`, if any.
    pub fn resolve(&self, name: &str) -> (r: Option<LocalEntry>)
        requires
            self.wf(),
        ensures
            match r {
                Some(e) => self.spec_slots().contains_key(name@) && e.slot == self.spec_slots()[name@].slot
                    && e.kind == self.spec_slots()[name@].kind && e.obj_type@ == self.spec_slots()[name@].obj_type@,
                None => !self.spec_slots().contains_key(name@),
            },
    {
        match self.slots.get(name) {
            Some(e) => Some(e.duplicate()),
            None => None,
        }
    }

    /// Saves the bindings and slot count.
    pub fn snapshot(&self) -> (r: LocalsSnapshot)
        requires
            self.wf(),
        ensures
            r.slots.wf(),
            r.spec_count() == self.count,
            r.spec_slots().dom() == self.spec_slots().dom(),
            forall|k: Seq<char>|
                #![trigger r.spec_slots()[k]]
                r.spec_slots().contains_key(k) ==> r.spec_slots()[k].slot == self.spec_slots()[k].slot
                    && r.spec_slots()[k].kind == self.spec_slots()[k].kind
                    && r.spec_slots()[k].obj_type@ == self.spec_slots()[k].obj_type@,
    {
        LocalsSnapshot { slots: copy_slots(&self.slots), count: self.count }
    }

    /// Returns to the bindings and slot count of a snapshot; the highest
    /// slot count seen is kept.
    pub fn restore(&mut self, snapshot: LocalsSnapshot)
        requires
            snapshot.slots.wf(),
        ensures
            final(self).wf(),
            final(self).spec_slots() == snapshot.spec_slots(),
            final(self).count == snapshot.spec_count(),
            final(self).max_count == old(self).max_count,
            final(self).return_type == old(self).return_type,
    {
        self.slots = snapshot.slots;
        self.count = snapshot.count;
    }
}

/// Restoring a snapshot undoes every binding made since it was taken:
/// the same names map to the same slots, and the slot count is back.
pub proof fn restore_undoes_definitions(before: Locals, snap: LocalsSnapshot, after: Locals)
    requires
        snap.spec_count() == before.count,
        snap.spec_slots().dom() == before.spec_slots().dom(),
        forall|k: Seq<char>|
            #![trigger snap.spec_slots()[k]]
            snap.spec_slots().contains_key(k) ==> snap.spec_slots()[k].slot == before.spec_slots()[k].slot
                && snap.spec_slots()[k].kind == before.spec_slots()[k].kind,
        after.spec_slots() == snap.spec_slots(),
        after.count == snap.spec_count(),
    ensures
        after.count == before.count,
        after.spec_slots().dom() == before.spec_slots().dom(),
        forall|k: Seq<char>|
            #![trigger after.spec_slots()[k]]
            after.spec_slots().contains_key(k) ==> after.spec_slots()[k].slot == before.spec_slots()[k].slot
                && after.spec_slots()[k].kind == before.spec_slots()[k].kind,
{
}

// ---------------------------------------------------------------------------
// Functions
// ---------------------------------------------------------------------------

/// Function names to their absolute index in the merged function table:
/// a local index is shifted by `base_offset` when registered.
pub struct FunctionTable {
    pub names: NameMap<usize>,
    pub signatures: NameMap<FunctionSignature>,
    pub base_offset: usize,
}

impl FunctionTable {
    pub closed spec fn wf(&self) -> bool {
        self.names.wf() && self.signatures.wf()
    }

    /// Registered names and their absolute indices.
    pub closed spec fn spec_names(&self) -> Map<Seq<char>, usize> {
        self.names.spec_map()
    }

    /// Recorded signatures by name.
    pub closed spec fn spec_signatures(&self) -> Map<Seq<char>, FunctionSignature> {
        self.signatures.spec_map()
    }

    pub fn new(base_offset: usize) -> (r: FunctionTable)
        ensures
            r.wf(),
            r.base_offset == base_offset,
            r.spec_names() == Map::<Seq<char>, usize>::empty(),
            r.spec_signatures() == Map::<Seq<char>, FunctionSignature>::empty(),
    {
        FunctionTable { names: NameMap::new(), signatures: NameMap::new(), base_offset }
    }

    /// Registers `name` at local index `local_idx`; returns and stores the
    /// absolute index `base_offset + local_idx`.
    pub fn register(&mut self, name: String, local_idx: usize) -> (r: usize)
        requires
            old(self).wf(),
            old(self).base_offset + local_idx <= usize::MAX,
        ensures
            final(self).wf(),
            r == old(self).base_offset + local_idx,
            final(self).base_offset == old(self).base_offset,
            final(self).spec_names() == old(self).spec_names().insert(name@, r),
    {
        let absolute = self.base_offset + local_idx;
        self.names.insert(name, absolute);
        absolute
    }

    /// The absolute index of `name`.
    pub fn resolve(&self, name: &str) -> (r: Option<usize>)
        requires
            self.wf(),
        ensures
            match r {
                Some(i) => self.spec_names().contains_key(name@) && self.spec_names()[name@] == i,
                None => !self.spec_names().contains_key(name@),
            },
    {
        match self.names.get(name) {
            Some(i) => Some(*i),
            None => None,
        }
    }
}

// ---------------------------------------------------------------------------
// Objects
// ---------------------------------------------------------------------------

/// Compile-time registry of object definitions: names map to absolute
/// indices (shifted by `base_offset`); `defs` is indexed locally.
pub struct ObjTable {
    pub names: NameMap<usize>,
    pub defs: Vec<ObjDefInfo>,
    pub base_offset: usize,
}

impl ObjTable {
    /// Every registered name maps to the latest definition of that name.
    pub closed spec fn wf(&self) -> bool {
        &&& self.names.wf()
        &&& forall|k: Seq<char>|
            #![trigger self.names.spec_map()[k]]
            self.names.spec_map().contains_key(k) ==> {
                &&& self.base_offset <= self.names.spec_map()[k]
                &&& self.names.spec_map()[k] - self.base_offset < self.defs@.len()
                &&& self.defs@[self.names.spec_map()[k] - self.base_offset].name@ == k
            }
    }

    pub closed spec fn spec_names(&self) -> Map<Seq<char>, usize> {
        self.names.spec_map()
    }

    /// The definitions, by local index.
    pub closed spec fn spec_defs(&self) -> Seq<ObjDefInfo> {
        self.defs@
    }

    pub fn new(base_offset: usize) -> (r: ObjTable)
        ensures
            r.wf(),
            r.base_offset == base_offset,
            r.spec_names() == Map::<Seq<char>, usize>::empty(),
            r.spec_defs().len() == 0,
    {
        ObjTable { names: NameMap::new(), defs: Vec::new(), base_offset }
    }

    /// Appends a definition and registers its name at the new absolute
    /// index, which it returns.
    #[allow(clippy::too_many_arguments)]
    pub fn register(
        &mut self,
        name: String,
        fields: Vec<String>,
        field_types: Vec<ResolvedType>,
        field_is_pub: Vec<bool>,
        methods: HashMap<String, usize>,
        static_methods: HashMap<String, usize>,
        method_is_pub: HashMap<String, bool>,
        static_method_is_pub: HashMap<String, bool>,
        method_signatures: HashMap<String, FunctionSignature>,
        static_method_signatures: HashMap<String, FunctionSignature>,
        signatures: Vec<MethodSignature>,
        is_pub: bool,
    ) -> (r: usize)
        requires
            old(self).wf(),
            old(self).base_offset + old(self).spec_defs().len() <= usize::MAX,
        ensures
            final(self).wf(),
            r == old(self).base_offset + old(self).spec_defs().len(),
            final(self).base_offset == old(self).base_offset,
            final(self).spec_names() == old(self).spec_names().insert(name@, r),
            final(self).spec_defs().len() == old(self).spec_defs().len() + 1,
            forall|i: int| 0 <= i < old(self).spec_defs().len() ==> #[trigger] final(self).spec_defs()[i]
                == old(self).spec_defs()[i],
            final(self).spec_defs().last().name@ == name@,
            final(self).spec_defs().last().fields == fields,
            final(self).spec_defs().last().field_types == field_types,
            final(self).spec_defs().last().field_is_pub == field_is_pub,
            final(self).spec_defs().last().methods == methods,
            final(self).spec_defs().last().static_methods == static_methods,
            final(self).spec_defs().last().method_is_pub == method_is_pub,
            final(self).spec_defs().last().static_method_is_pub == static_method_is_pub,
            final(self).spec_defs().last().method_signatures == method_signatures,
            final(self).spec_defs().last().static_method_signatures == static_method_signatures,
            final(self).spec_defs().last().signatures == signatures,
            final(self).spec_defs().last().is_pub == is_pub,
    {
        let local = self.defs.len();
        let absolute = self.base_offset + local;
        let key = name.clone();
        let ghost before_names = self.names.spec_map();
        self.names.insert(key, absolute);
        self.defs.push(
            ObjDefInfo {
                name,
                fields,
                field_types,
                field_is_pub,
                methods,
                static_methods,
                method_is_pub,
                static_method_is_pub,
                method_signatures,
                static_method_signatures,
                signatures,
                is_pub,
            },
        );
        proof {
            assert forall|k: Seq<char>|
                #![trigger self.names.spec_map()[k]]
                self.names.spec_map().contains_key(k) implies {
                    &&& self.base_offset <= self.names.spec_map()[k]
                    &&& self.names.spec_map()[k] - self.base_offset < self.defs@.len()
                    &&& self.defs@[self.names.spec_map()[k] - self.base_offset].name@ == k
                } by {
                if k != name@ {
                    assert(before_names.contains_key(k));
                    assert(self.names.spec_map()[k] == before_names[k]);
                    assert(old(self).names.spec_map()[k] == before_names[k]);
                }
            }
        }
        absolute
    }

    /// The absolute index and definition registered under `name`.
    pub fn resolve(&self, name: &str) -> (r: Option<(usize, &ObjDefInfo)>)
        requires
            self.wf(),
        ensures
            match r {
                Some((i, d)) => {
                    &&& self.spec_names().contains_key(name@)
                    &&& i == self.spec_names()[name@]
                    &&& *d == self.spec_defs()[i - self.base_offset]
                    &&& d.name@ == name@
                },
                None => !self.spec_names().contains_key(name@),
            },
    {
        match self.names.get(name) {
            Some(a) => {
                let absolute = *a;
                let local = absolute - self.base_offset;
                Some((absolute, &self.defs[local]))
            },
            None => None,
        }
    }
}

// ---------------------------------------------------------------------------
// Enums
// ---------------------------------------------------------------------------

/// Compile-time registry of enum definitions, parallel to [`ObjTable`].
pub struct EnumTable {
    pub names: NameMap<usize>,
    pub defs: Vec<EnumDefInfo>,
    pub base_offset: usize,
}

impl EnumTable {
    /// Every registered name maps to the latest definition of that name.
    pub closed spec fn wf(&self) -> bool {
        &&& self.names.wf()
        &&& forall|k: Seq<char>|
            #![trigger self.names.spec_map()[k]]
            self.names.spec_map().contains_key(k) ==> {
                &&& self.base_offset <= self.names.spec_map()[k]
                &&& self.names.spec_map()[k] - self.base_offset < self.defs@.len()
                &&& self.defs@[self.names.spec_map()[k] - self.base_offset].name@ == k
            }
    }

    pub closed spec fn spec_names(&self) -> Map<Seq<char>, usize> {
        self.names.spec_map()
    }

    pub closed spec fn spec_defs(&self) -> Seq<EnumDefInfo> {
        self.defs@
    }

    pub fn new(base_offset: usize) -> (r: EnumTable)
        ensures
            r.wf(),
            r.base_offset == base_offset,
            r.spec_names() == Map::<Seq<char>, usize>::empty(),
            r.spec_defs().len() == 0,
    {
        EnumTable { names: NameMap::new(), defs: Vec::new(), base_offset }
    }

    /// Appends a definition and registers its name at the new absolute
    /// index, which it returns.
    pub fn register(
        &mut self,
        name: String,
        variants: Vec<EnumVariantInfo>,
        is_pub: bool,
        is_error: bool,
    ) -> (r: usize)
        requires
            old(self).wf(),
            old(self).base_offset + old(self).spec_defs().len() <= usize::MAX,
        ensures
            final(self).wf(),
            r == old(self).base_offset + old(self).spec_defs().len(),
            final(self).base_offset == old(self).base_offset,
            final(self).spec_names() == old(self).spec_names().insert(name@, r),
            final(self).spec_defs().len() == old(self).spec_defs().len() + 1,
            forall|i: int| 0 <= i < old(self).spec_defs().len() ==> #[trigger] final(self).spec_defs()[i]
                == old(self).spec_defs()[i],
            final(self).spec_defs().last().name@ == name@,
            final(self).spec_defs().last().variants == variants,
            final(self).spec_defs().last().is_pub == is_pub,
            final(self).spec_defs().last().is_error == is_error,
    {
        let local = self.defs.len();
        let absolute = self.base_offset + local;
        let key = name.clone();
        let ghost before_names = self.names.spec_map();
        self.names.insert(key, absolute);
        self.defs.push(EnumDefInfo { name, variants, is_pub, is_error });
        proof {
            assert forall|k: Seq<char>|
                #![trigger self.names.spec_map()[k]]
                self.names.spec_map().contains_key(k) implies {
                    &&& self.base_offset <= self.names.spec_map()[k]
                    &&& self.names.spec_map()[k] - self.base_offset < self.defs@.len()
                    &&& self.defs@[self.names.spec_map()[k] - self.base_offset].name@ == k
                } by {
                if k != name@ {
                    assert(before_names.contains_key(k));
                    assert(self.names.spec_map()[k] == before_names[k]);
                    assert(old(self).names.spec_map()[k] == before_names[k]);
                }
            }
        }
        absolute
    }

    /// The absolute index and definition registered under `name`.
    pub fn resolve(&self, name: &str) -> (r: Option<(usize, &EnumDefInfo)>)
        requires
            self.wf(),
        ensures
            match r {
                Some((i, d)) => {
                    &&& self.spec_names().contains_key(name@)
                    &&& i == self.spec_names()[name@]
                    &&& *d == self.spec_defs()[i - self.base_offset]
                    &&& d.name@ == name@
                },
                None => !self.spec_names().contains_key(name@),
            },
    {
        match self.names.get(name) {
            Some(a) => {
                let absolute = *a;
                let local = absolute - self.base_offset;
                Some((absolute, &self.defs[local]))
            },
            None => None,
        }
    }

    /// Resolves `EnumName.VariantName` to the enum's absolute index, the
    /// index of the first variant of that name, and the variant.
    pub fn resolve_variant(&self, enum_name: &str, variant_name: &str) -> (r: Option<
        (usize, usize, &EnumVariantInfo),
    >)
        requires
            self.wf(),
        ensures
            match r {
                Some((e, v, info)) => {
                    let d = self.spec_defs()[e - self.base_offset];
                    &&& self.spec_names().contains_key(enum_name@)
                    &&& e == self.spec_names()[enum_name@]
                    &&& v < d.variants@.len()
                    &&& *info == d.variants@[v as int]
                    &&& info.name@ == variant_name@
                    &&& forall|j: int| 0 <= j < v ==> (#[trigger] d.variants@[j]).name@ != variant_name@
                },
                None => !self.spec_names().contains_key(enum_name@) || forall|j: int|
                    0 <= j < self.spec_defs()[self.spec_names()[enum_name@] - self.base_offset].variants@.len()
                        ==> (#[trigger] self.spec_defs()[self.spec_names()[enum_name@] - self.base_offset].variants@[j]).name@
                        != variant_name@,
            },
    {
        let (enum_idx, def) = match self.resolve(enum_name) {
            Some(x) => x,
            None => return None,
        };
        proof {
            let k = enum_name@;
            assert(self.names.spec_map().contains_key(k));
            assert(self.base_offset <= self.names.spec_map()[k]);
        }
        let mut j: usize = 0;
        while j < def.variants.len()
            invariant
                j <= def.variants@.len(),
                self.spec_names().contains_key(enum_name@),
                enum_idx == self.spec_names()[enum_name@],
                self.base_offset <= enum_idx,
                *def == self.spec_defs()[enum_idx - self.base_offset],
                forall|m: int| 0 <= m < j ==> (#[trigger] def.variants@[m]).name@ != variant_name@,
            decreases def.variants@.len() - j,
        {
            if str_eq(def.variants[j].name.as_str(), variant_name) {
                return Some((enum_idx, j, &def.variants[j]));
            }
            j += 1;
        }
        None
    }
}


/// A name registered in a [`FunctionTable`] resolves to the absolute index
/// [`FunctionTable::register`] returned; every other name resolves as
/// before.
pub proof fn registered_functions_resolve(
    before: FunctionTable,
    after: FunctionTable,
    name: Seq<char>,
    local_idx: usize,
    other: Seq<char>,
)
    requires
        after.spec_names() == before.spec_names().insert(name, (before.base_offset + local_idx) as usize),
        before.base_offset + local_idx <= usize::MAX,
        other != name,
    ensures
        after.spec_names().contains_key(name),
        after.spec_names()[name] == before.base_offset + local_idx,
        after.spec_names().contains_key(other) == before.spec_names().contains_key(other),
        before.spec_names().contains_key(other) ==> after.spec_names()[other] == before.spec_names()[other],
{
}

/// After [`ObjTable::register`], the name resolves to the returned index and
/// to the definition just appended; every other registered name resolves to
/// the same index and definition as before.
pub proof fn registered_objects_resolve(
    before: ObjTable,
    after: ObjTable,
    name: Seq<char>,
    other: Seq<char>,
)
    requires
        before.wf(),
        after.wf(),
        before.base_offset + before.spec_defs().len() <= usize::MAX,
        after.base_offset == before.base_offset,
        after.spec_names() == before.spec_names().insert(
            name,
            (before.base_offset + before.spec_defs().len()) as usize,
        ),
        after.spec_defs().len() == before.spec_defs().len() + 1,
        forall|i: int| 0 <= i < before.spec_defs().len() ==> #[trigger] after.spec_defs()[i]
            == before.spec_defs()[i],
        after.spec_defs().last().name@ == name,
        other != name,
    ensures
        after.spec_names().contains_key(name),
        after.spec_names()[name] == before.base_offset + before.spec_defs().len(),
        after.spec_defs()[after.spec_names()[name] - after.base_offset] == after.spec_defs().last(),
        after.spec_names().contains_key(other) == before.spec_names().contains_key(other),
        before.spec_names().contains_key(other) ==> {
            &&& after.spec_names()[other] == before.spec_names()[other]
            &&& after.spec_defs()[after.spec_names()[other] - after.base_offset]
                == before.spec_defs()[before.spec_names()[other] - before.base_offset]
        },
{
    if before.spec_names().contains_key(other) {
        assert(before.names.spec_map()[other] - before.base_offset < before.defs@.len());
    }
}

/// After [`EnumTable::register`], the name resolves to the returned index and
/// to the definition just appended; every other registered name resolves to
/// the same index and definition as before.
pub proof fn registered_enums_resolve(
    before: EnumTable,
    after: EnumTable,
    name: Seq<char>,
    other: Seq<char>,
)
    requires
        before.wf(),
        after.wf(),
        before.base_offset + before.spec_defs().len() <= usize::MAX,
        after.base_offset == before.base_offset,
        after.spec_names() == before.spec_names().insert(
            name,
            (before.base_offset + before.spec_defs().len()) as usize,
        ),
        after.spec_defs().len() == before.spec_defs().len() + 1,
        forall|i: int| 0 <= i < before.spec_defs().len() ==> #[trigger] after.spec_defs()[i]
            == before.spec_defs()[i],
        after.spec_defs().last().name@ == name,
        other != name,
    ensures
        after.spec_names().contains_key(name),
        after.spec_names()[name] == before.base_offset + before.spec_defs().len(),
        after.spec_defs()[after.spec_names()[name] - after.base_offset] == after.spec_defs().last(),
        after.spec_names().contains_key(other) == before.spec_names().contains_key(other),
        before.spec_names().contains_key(other) ==> {
            &&& after.spec_names()[other] == before.spec_names()[other]
            &&& after.spec_defs()[after.spec_names()[other] - after.base_offset]
                == before.spec_defs()[before.spec_names()[other] - before.base_offset]
        },
{
    if before.spec_names().contains_key(other) {
        assert(before.names.spec_map()[other] - before.base_offset < before.defs@.len());
    }
}

} // verus!
