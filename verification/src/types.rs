//! Compile-time types and the tables of facts that the compiler keeps
//! about functions, objects, tests and enums.

use std::collections::HashMap;
use std::ops::Range;
use vstd::prelude::*;

use crate::text::{push_str, str_eq};

verus! {

// ---------------------------------------------------------------------------
// Builtins and list methods
// ---------------------------------------------------------------------------

/// A builtin function identified at compile time.
#[derive(Debug, Clone, Copy, PartialEq, Eq, Structural)]
pub enum BuiltinFunction {
    Print,
}

impl BuiltinFunction {
    /// The source-level name of the builtin.
    pub fn name(self) -> (r: &'static str)
        ensures
            r@ == "print"@,
    {
        match self {
            BuiltinFunction::Print => "print",
        }
    }
}

/// The builtin methods that dispatch on a list receiver. Each has a
/// stable numeric id (its position: `len` 0, `push` 1, `pop` 2) used as
/// the wire-format byte of a list-method call.
#[derive(Debug, Clone, Copy, PartialEq, Eq, Structural)]
pub enum ListMethod {
    Len,
    Push,
    Pop,
}

impl ListMethod {
    pub open spec fn spec_name(self) -> Seq<char> {
        match self {
            ListMethod::Len => "len"@,
            ListMethod::Push => "push"@,
            ListMethod::Pop => "pop"@,
        }
    }

    pub open spec fn spec_id(self) -> u8 {
        match self {
            ListMethod::Len => 0,
            ListMethod::Push => 1,
            ListMethod::Pop => 2,
        }
    }

    pub open spec fn spec_from_name(name: Seq<char>) -> Option<ListMethod> {
        if name == "len"@ {
            Some(ListMethod::Len)
        } else if name == "push"@ {
            Some(ListMethod::Push)
        } else if name == "pop"@ {
            Some(ListMethod::Pop)
        } else {
            None
        }
    }

    pub open spec fn spec_from_id(id: u8) -> Option<ListMethod> {
        if id == 0 {
            Some(ListMethod::Len)
        } else if id == 1 {
            Some(ListMethod::Push)
        } else if id == 2 {
            Some(ListMethod::Pop)
        } else {
            None
        }
    }

    /// The source-level method name (`xs.len()`, etc.).
    pub fn name(self) -> (r: &'static str)
        ensures
            r@ == self.spec_name(),
    {
        match self {
            ListMethod::Len => "len",
            ListMethod::Push => "push",
            ListMethod::Pop => "pop",
        }
    }

    /// The stable numeric id of the method.
    pub fn id(self) -> (r: u8)
        ensures
            r == self.spec_id(),
    {
        match self {
            ListMethod::Len => 0,
            ListMethod::Push => 1,
            ListMethod::Pop => 2,
        }
    }

    /// Looks up a list method by its source-level name; `None` for an
    /// unknown method.
    pub fn from_name(name: &str) -> (r: Option<ListMethod>)
        ensures
            r == Self::spec_from_name(name@),
    {
        if str_eq(name, "len") {
            Some(ListMethod::Len)
        } else if str_eq(name, "push") {
            Some(ListMethod::Push)
        } else if str_eq(name, "pop") {
            Some(ListMethod::Pop)
        } else {
            None
        }
    }

    /// Looks up a list method by its numeric id.
    pub fn from_id(id: u8) -> (r: Option<ListMethod>)
        ensures
            r == Self::spec_from_id(id),
    {
        match id {
            0 => Some(ListMethod::Len),
            1 => Some(ListMethod::Push),
            2 => Some(ListMethod::Pop),
            _ => None,
        }
    }

    /// Parameter types of the method against the list's element type.
    pub fn param_types(self, elem_ty: &ResolvedType) -> (r: Vec<ResolvedType>)
        ensures
            match self {
                ListMethod::Push => r@.len() == 1 && r@[0]@ == elem_ty@,
                _ => r@.len() == 0,
            },
    {
        match self {
            ListMethod::Len => Vec::new(),
            ListMethod::Push => {
                let mut v = Vec::new();
                v.push(elem_ty.duplicate());
                v
            },
            ListMethod::Pop => Vec::new(),
        }
    }

    /// Return type of the method against the list's element type: `int`
    /// for `len` and `push` (a sentinel), `T?` for `pop`.
    pub fn return_type(self, elem_ty: &ResolvedType) -> (r: ResolvedType)
        ensures
            r@ == match self {
                ListMethod::Pop => TypeView::Nillable(Box::new(elem_ty@)),
                _ => TypeView::Int,
            },
    {
        match self {
            ListMethod::Len => ResolvedType::Int,
            ListMethod::Push => ResolvedType::Int,
            ListMethod::Pop => ResolvedType::Nillable(Box::new(elem_ty.duplicate())),
        }
    }
}

/// Each list method is found again by its name and by its id.
pub proof fn list_method_lookup_round_trips(m: ListMethod)
    ensures
        ListMethod::spec_from_name(m.spec_name()) == Some(m),
        ListMethod::spec_from_id(m.spec_id()) == Some(m),
{
    reveal_strlit("len");
    reveal_strlit("push");
    reveal_strlit("pop");
    assert("push"@.len() != "len"@.len());
    assert("pop"@[0] != "len"@[0]);
    assert("pop"@[1] != "push"@[1]);
}

// ---------------------------------------------------------------------------
// Resolved types
// ---------------------------------------------------------------------------

/// A type as the compiler resolves it.
#[derive(Debug, PartialEq)]
pub enum ResolvedType {
    Int,
    Float,
    Bool,
    Str,
    Range,
    /// An object type: its local name and the dotted path of the module
    /// that defined it (empty for the current compilation unit).
    Object { name: String, module: Vec<String> },
    /// `T?`
    Nillable(Box<ResolvedType>),
    /// `!T`
    ErrorUnion(Box<ResolvedType>),
    /// `[T]`
    List(Box<ResolvedType>),
    /// The type of the `nil` literal.
    Nil,
    /// The type of an error value.
    Error,
    Unknown,
}

/// The mathematical value of a [`ResolvedType`].
pub enum TypeView {
    Int,
    Float,
    Bool,
    Str,
    Range,
    Object { name: Seq<char>, module: Seq<Seq<char>> },
    Nillable(Box<TypeView>),
    ErrorUnion(Box<TypeView>),
    List(Box<TypeView>),
    Nil,
    Error,
    Unknown,
}

pub open spec fn type_view(t: ResolvedType) -> TypeView
    decreases t,
{
    match t {
        ResolvedType::Int => TypeView::Int,
        ResolvedType::Float => TypeView::Float,
        ResolvedType::Bool => TypeView::Bool,
        ResolvedType::Str => TypeView::Str,
        ResolvedType::Range => TypeView::Range,
        ResolvedType::Object { name, module } => TypeView::Object {
            name: name@,
            module: module@.map_values(|s: String| s@),
        },
        ResolvedType::Nillable(inner) => TypeView::Nillable(Box::new(type_view(*inner))),
        ResolvedType::ErrorUnion(inner) => TypeView::ErrorUnion(Box::new(type_view(*inner))),
        ResolvedType::List(inner) => TypeView::List(Box::new(type_view(*inner))),
        ResolvedType::Nil => TypeView::Nil,
        ResolvedType::Error => TypeView::Error,
        ResolvedType::Unknown => TypeView::Unknown,
    }
}

impl View for ResolvedType {
    type V = TypeView;

    open spec fn view(&self) -> TypeView {
        type_view(*self)
    }
}

/// Dotted module path segments joined with `.`.
pub open spec fn join_dots(ms: Seq<Seq<char>>) -> Seq<char>
    decreases ms.len(),
{
    if ms.len() == 0 {
        seq![]
    } else if ms.len() == 1 {
        ms[0]
    } else {
        join_dots(ms.drop_last()) + "."@ + ms.last()
    }
}

/// The user-facing name of a type: `int`, `String`, `math.Vec2`, `int?`,
/// `!int`, `[int]`, ...
pub open spec fn display(t: TypeView) -> Seq<char>
    decreases t,
{
    match t {
        TypeView::Int => "int"@,
        TypeView::Float => "float"@,
        TypeView::Bool => "bool"@,
        TypeView::Str => "String"@,
        TypeView::Range => "Range"@,
        TypeView::Object { name, module } => if module.len() == 0 {
            name
        } else {
            join_dots(module) + "."@ + name
        },
        TypeView::Nillable(inner) => display(*inner) + "?"@,
        TypeView::ErrorUnion(inner) => "!"@ + display(*inner),
        TypeView::List(inner) => "["@ + display(*inner) + "]"@,
        TypeView::Nil => "nil"@,
        TypeView::Error => "error"@,
        TypeView::Unknown => "unknown"@,
    }
}

/// Whether a value of type `actual` may be stored where `expected` is
/// declared: `Unknown` is a wildcard either way; `nil` and `T` promote to
/// `T?`; error values and `T` promote to `!T`; lists are invariant in
/// their element type except for an `Unknown` element; otherwise the
/// types must be equal.
pub open spec fn compatible(expected: TypeView, actual: TypeView) -> bool {
    ||| expected is Unknown
    ||| actual is Unknown
    ||| expected == actual
    ||| (actual is Nil && expected is Nillable)
    ||| (expected matches TypeView::Nillable(inner) && *inner == actual)
    ||| (actual is Error && expected is ErrorUnion)
    ||| (expected matches TypeView::ErrorUnion(inner) && *inner == actual)
    ||| (expected matches TypeView::List(e) && actual matches TypeView::List(a) && (*e == *a
        || *e is Unknown || *a is Unknown))
}

fn strings_eq(a: &Vec<String>, b: &Vec<String>) -> (r: bool)
    ensures
        r == (a@.map_values(|s: String| s@) == b@.map_values(|s: String| s@)),
{
    let ghost va = a@.map_values(|s: String| s@);
    let ghost vb = b@.map_values(|s: String| s@);
    if a.len() != b.len() {
        assert(va.len() != vb.len());
        return false;
    }
    let mut k: usize = 0;
    while k < a.len()
        invariant
            a@.len() == b@.len(),
            va == a@.map_values(|s: String| s@),
            vb == b@.map_values(|s: String| s@),
            k <= a@.len(),
            forall|m: int| 0 <= m < k ==> va[m] == vb[m],
        decreases a@.len() - k,
    {
        if !str_eq(a[k].as_str(), b[k].as_str()) {
            assert(va[k as int] != vb[k as int]);
            return false;
        }
        k += 1;
    }
    assert(va =~= vb);
    true
}

pub(crate) fn copy_strings(v: &Vec<String>) -> (r: Vec<String>)
    ensures
        r@.map_values(|s: String| s@) == v@.map_values(|s: String| s@),
{
    let mut out: Vec<String> = Vec::new();
    let mut k: usize = 0;
    while k < v.len()
        invariant
            k <= v@.len(),
            out@.len() == k,
            forall|m: int| 0 <= m < k ==> (#[trigger] out@[m])@ == v@[m]@,
        decreases v@.len() - k,
    {
        out.push(v[k].clone());
        k += 1;
    }
    assert(out@.map_values(|s: String| s@) =~= v@.map_values(|s: String| s@));
    out
}

impl ResolvedType {
    /// A copy with the same value.
    pub fn duplicate(&self) -> (r: ResolvedType)
        ensures
            r@ == self@,
        decreases self,
    {
        match self {
            ResolvedType::Int => ResolvedType::Int,
            ResolvedType::Float => ResolvedType::Float,
            ResolvedType::Bool => ResolvedType::Bool,
            ResolvedType::Str => ResolvedType::Str,
            ResolvedType::Range => ResolvedType::Range,
            ResolvedType::Object { name, module } => ResolvedType::Object {
                name: name.clone(),
                module: copy_strings(module),
            },
            ResolvedType::Nillable(inner) => ResolvedType::Nillable(Box::new(inner.duplicate())),
            ResolvedType::ErrorUnion(inner) => ResolvedType::ErrorUnion(
                Box::new(inner.duplicate()),
            ),
            ResolvedType::List(inner) => ResolvedType::List(Box::new(inner.duplicate())),
            ResolvedType::Nil => ResolvedType::Nil,
            ResolvedType::Error => ResolvedType::Error,
            ResolvedType::Unknown => ResolvedType::Unknown,
        }
    }

    /// Structural equality of two types.
    pub fn same_as(&self, other: &ResolvedType) -> (r: bool)
        ensures
            r == (self@ == other@),
        decreases self,
    {
        match (self, other) {
            (ResolvedType::Int, ResolvedType::Int) => true,
            (ResolvedType::Float, ResolvedType::Float) => true,
            (ResolvedType::Bool, ResolvedType::Bool) => true,
            (ResolvedType::Str, ResolvedType::Str) => true,
            (ResolvedType::Range, ResolvedType::Range) => true,
            (
                ResolvedType::Object { name: n1, module: m1 },
                ResolvedType::Object { name: n2, module: m2 },
            ) => str_eq(n1.as_str(), n2.as_str()) && strings_eq(m1, m2),
            (ResolvedType::Nillable(a), ResolvedType::Nillable(b)) => a.same_as(b),
            (ResolvedType::ErrorUnion(a), ResolvedType::ErrorUnion(b)) => a.same_as(b),
            (ResolvedType::List(a), ResolvedType::List(b)) => a.same_as(b),
            (ResolvedType::Nil, ResolvedType::Nil) => true,
            (ResolvedType::Error, ResolvedType::Error) => true,
            (ResolvedType::Unknown, ResolvedType::Unknown) => true,
            _ => false,
        }
    }

    /// The user-facing name of the type.
    pub fn display_name(&self) -> (r: String)
        ensures
            r@ == display(self@),
        decreases self,
    {
        match self {
            ResolvedType::Int => String::from_str("int"),
            ResolvedType::Float => String::from_str("float"),
            ResolvedType::Bool => String::from_str("bool"),
            ResolvedType::Str => String::from_str("String"),
            ResolvedType::Range => String::from_str("Range"),
            ResolvedType::Object { name, module } => {
                if module.len() == 0 {
                    name.clone()
                } else {
                    let mut s = String::new();
                    let ghost ms = module@.map_values(|x: String| x@);
                    let mut k: usize = 0;
                    while k < module.len()
                        invariant
                            k <= module@.len(),
                            module@.len() > 0,
                            ms == module@.map_values(|x: String| x@),
                            s@ == join_dots(ms.take(k as int)),
                        decreases module@.len() - k,
                    {
                        let ghost before = s@;
                        assert(ms.take(k + 1).drop_last() =~= ms.take(k as int));
                        assert(ms.take(k + 1).last() == ms[k as int]);
                        if k > 0 {
                            push_str(&mut s, ".");
                        } else {
                            assert(ms.take(1) =~= seq![ms[0]]);
                            assert(before =~= Seq::<char>::empty());
                        }
                        push_str(&mut s, module[k].as_str());
                        proof {
                            if k == 0 {
                                assert(s@ =~= join_dots(ms.take(1)));
                            }
                        }
                        k += 1;
                    }
                    assert(ms.take(module@.len() as int) =~= ms);
                    push_str(&mut s, ".");
                    push_str(&mut s, name.as_str());
                    s
                }
            },
            ResolvedType::Nillable(inner) => {
                let mut s = inner.display_name();
                push_str(&mut s, "?");
                s
            },
            ResolvedType::ErrorUnion(inner) => {
                let mut s = String::from_str("!");
                let d = inner.display_name();
                push_str(&mut s, d.as_str());
                s
            },
            ResolvedType::List(inner) => {
                let mut s = String::from_str("[");
                let d = inner.display_name();
                push_str(&mut s, d.as_str());
                push_str(&mut s, "]");
                s
            },
            ResolvedType::Nil => String::from_str("nil"),
            ResolvedType::Error => String::from_str("error"),
            ResolvedType::Unknown => String::from_str("unknown"),
        }
    }

    /// True for `T?`.
    pub fn is_nillable(&self) -> (r: bool)
        ensures
            r == (self@ is Nillable),
    {
        match self {
            ResolvedType::Nillable(_) => true,
            _ => false,
        }
    }

    /// The `T` of `T?`.
    pub fn unwrap_nillable(&self) -> (r: Option<&ResolvedType>)
        ensures
            match self@ {
                TypeView::Nillable(inner) => r matches Some(t) && t@ == *inner,
                _ => r is None,
            },
    {
        match self {
            ResolvedType::Nillable(inner) => Some(&**inner),
            _ => None,
        }
    }

    /// True for `!T`.
    pub fn is_error_union(&self) -> (r: bool)
        ensures
            r == (self@ is ErrorUnion),
    {
        match self {
            ResolvedType::ErrorUnion(_) => true,
            _ => false,
        }
    }

    /// The `T` of `!T`.
    pub fn unwrap_error_union(&self) -> (r: Option<&ResolvedType>)
        ensures
            match self@ {
                TypeView::ErrorUnion(inner) => r matches Some(t) && t@ == *inner,
                _ => r is None,
            },
    {
        match self {
            ResolvedType::ErrorUnion(inner) => Some(&**inner),
            _ => None,
        }
    }

    /// Whether `actual` is assignment-compatible with `self` as the
    /// expected type (see [`compatible`]).
    pub fn is_compatible_with(&self, actual: &ResolvedType) -> (r: bool)
        ensures
            r == compatible(self@, actual@),
    {
        if matches!(self, ResolvedType::Unknown) || matches!(actual, ResolvedType::Unknown) {
            return true;
        }
        if self.same_as(actual) {
            return true;
        }
        if matches!(actual, ResolvedType::Nil) && self.is_nillable() {
            return true;
        }
        if let ResolvedType::Nillable(inner) = self {
            if inner.same_as(actual) {
                return true;
            }
        }
        if matches!(actual, ResolvedType::Error) && self.is_error_union() {
            return true;
        }
        if let ResolvedType::ErrorUnion(inner) = self {
            if inner.same_as(actual) {
                return true;
            }
        }
        if let (ResolvedType::List(e), ResolvedType::List(a)) = (self, actual) {
            return e.same_as(a) || matches!(**e, ResolvedType::Unknown) || matches!(
                **a,
                ResolvedType::Unknown
            );
        }
        false
    }
}

impl Clone for ResolvedType {
    fn clone(&self) -> (r: ResolvedType)
        ensures
            r@ == self@,
    {
        self.duplicate()
    }
}

/// Every type accepts values of its own type, and `Unknown` on either
/// side is accepted.
pub proof fn compatibility_is_reflexive_and_unknown_is_a_wildcard(t: TypeView, u: TypeView)
    ensures
        compatible(t, t),
        compatible(TypeView::Unknown, u),
        compatible(u, TypeView::Unknown),
{
}

/// A value of type `T` and `nil` may both be stored in a `T?`; a value of
/// type `T` and an error value may both be stored in a `!T`.
pub proof fn promotion_into_nillable_and_error_union(t: TypeView)
    ensures
        compatible(TypeView::Nillable(Box::new(t)), t),
        compatible(TypeView::Nillable(Box::new(t)), TypeView::Nil),
        compatible(TypeView::ErrorUnion(Box::new(t)), t),
        compatible(TypeView::ErrorUnion(Box::new(t)), TypeView::Error),
{
}

/// Lists are invariant in their element type: a list is accepted where a
/// list is expected only when the element types are the same, or one of
/// them is not known. So `[bool]` is not accepted where `[int]` is.
pub proof fn lists_are_invariant(e: TypeView, a: TypeView)
    ensures
        compatible(TypeView::List(Box::new(e)), TypeView::List(Box::new(a))) <==> (e == a
            || e is Unknown || a is Unknown),
        !compatible(
            TypeView::List(Box::new(TypeView::Int)),
            TypeView::List(Box::new(TypeView::Bool)),
        ),
        !compatible(
            TypeView::List(Box::new(TypeView::Bool)),
            TypeView::List(Box::new(TypeView::Int)),
        ),
{
}

// ---------------------------------------------------------------------------
// Type map
// ---------------------------------------------------------------------------

/// Span -> type-name lookup filled while compiling a source file; keys
/// are declaration spans, values pretty-printed type names.
#[derive(Debug)]
pub struct TypeMap {
    entries: Vec<((usize, usize), String)>,
}

impl TypeMap {
    /// No span is recorded twice.
    pub closed spec fn wf(&self) -> bool {
        forall|i: int, j: int|
            0 <= i < j < self.entries@.len() ==> (#[trigger] self.entries@[i]).0 != (
            #[trigger] self.entries@[j]).0
    }

    /// The recorded names by span.
    pub closed spec fn spec_map(&self) -> Map<(int, int), Seq<char>> {
        Map::new(
            |k: (int, int)|
                exists|i: int|
                    0 <= i < self.entries@.len() && self.entries@[i].0.0 == k.0
                        && self.entries@[i].0.1 == k.1,
            |k: (int, int)|
                self.entries@[choose|i: int|
                    0 <= i < self.entries@.len() && self.entries@[i].0.0 == k.0
                        && self.entries@[i].0.1 == k.1].1@,
        )
    }

    /// An empty map.
    pub fn new() -> (r: TypeMap)
        ensures
            r.wf(),
            r.spec_map() == Map::<(int, int), Seq<char>>::empty(),
    {
        let r = TypeMap { entries: Vec::new() };
        assert(r.spec_map() =~= Map::<(int, int), Seq<char>>::empty());
        r
    }

    fn find(&self, start: usize, end: usize) -> (r: Option<usize>)
        requires
            self.wf(),
        ensures
            match r {
                Some(i) => i < self.entries@.len() && self.entries@[i as int].0 == (start, end),
                None => forall|i: int|
                    0 <= i < self.entries@.len() ==> (#[trigger] self.entries@[i]).0 != (
                    start,
                    end,
                ),
            },
    {
        let mut i: usize = 0;
        while i < self.entries.len()
            invariant
                i <= self.entries@.len(),
                forall|m: int| 0 <= m < i ==> (#[trigger] self.entries@[m]).0 != (start, end),
            decreases self.entries@.len() - i,
        {
            if self.entries[i].0.0 == start && self.entries[i].0.1 == end {
                return Some(i);
            }
            i += 1;
        }
        None
    }

    /// The type name recorded at `span`, if any.
    pub fn get(&self, span: &Range<usize>) -> (r: Option<&str>)
        requires
            self.wf(),
        ensures
            match r {
                Some(s) => self.spec_map().contains_key((span.start as int, span.end as int))
                    && self.spec_map()[(span.start as int, span.end as int)] == s@,
                None => !self.spec_map().contains_key((span.start as int, span.end as int)),
            },
    {
        match self.find(span.start, span.end) {
            Some(i) => {
                let ghost k = (span.start as int, span.end as int);
                assert(self.spec_map().contains_key(k));
                let ghost c = choose|j: int|
                    0 <= j < self.entries@.len() && self.entries@[j].0.0 == k.0
                        && self.entries@[j].0.1 == k.1;
                assert(c == i);
                Some(self.entries[i].1.as_str())
            },
            None => None,
        }
    }

    /// True when no types were recorded.
    pub fn is_empty(&self) -> (r: bool)
        requires
            self.wf(),
        ensures
            r == (self.spec_map() == Map::<(int, int), Seq<char>>::empty()),
    {
        if self.entries.len() == 0 {
            assert(self.spec_map() =~= Map::<(int, int), Seq<char>>::empty());
            true
        } else {
            let ghost e = self.entries@[0].0;
            assert(self.spec_map().contains_key((e.0 as int, e.1 as int)));
            false
        }
    }

    /// Records the display name of `ty` at `span`; an `Unknown` type is
    /// not recorded, so consumers can tell "no information" apart.
    pub fn insert(&mut self, span: Range<usize>, ty: &ResolvedType)
        requires
            old(self).wf(),
        ensures
            final(self).wf(),
            ty@ is Unknown ==> final(self).spec_map() == old(self).spec_map(),
            !(ty@ is Unknown) ==> final(self).spec_map() == old(self).spec_map().insert(
                (span.start as int, span.end as int),
                display(ty@),
            ),
    {
        if matches!(ty, ResolvedType::Unknown) {
            return;
        }
        let name = ty.display_name();
        let ghost k = (span.start as int, span.end as int);
        let ghost before = self.spec_map();
        match self.find(span.start, span.end) {
            Some(i) => {
                self.entries.set(i, ((span.start, span.end), name));
                proof {
                    assert forall|a: int, b: int|
                        0 <= a < b < self.entries@.len() implies (#[trigger] self.entries@[a]).0
                        != (#[trigger] self.entries@[b]).0 by {
                        assert(old(self).entries@[a].0 != old(self).entries@[b].0);
                    }
                    assert forall|q: (int, int)|
                        #![auto]
                        self.spec_map().contains_key(q) == before.insert(k, display(ty@)).contains_key(q) by {
                        if q != k {
                            if before.contains_key(q) {
                                let j = choose|j: int|
                                    0 <= j < old(self).entries@.len() && old(self).entries@[j].0.0
                                        == q.0 && old(self).entries@[j].0.1 == q.1;
                                assert(self.entries@[j] == old(self).entries@[j]);
                            }
                            if self.spec_map().contains_key(q) {
                                let j = choose|j: int|
                                    0 <= j < self.entries@.len() && self.entries@[j].0.0 == q.0
                                        && self.entries@[j].0.1 == q.1;
                                assert(self.entries@[j] == old(self).entries@[j]);
                            }
                        } else {
                            assert(self.entries@[i as int].0 == (span.start, span.end));
                        }
                    }
                    assert forall|q: (int, int)|
                        #![auto]
                        self.spec_map().contains_key(q) implies self.spec_map()[q] == before.insert(
                            k,
                            display(ty@),
                        )[q] by {
                        let j = choose|j: int|
                            0 <= j < self.entries@.len() && self.entries@[j].0.0 == q.0
                                && self.entries@[j].0.1 == q.1;
                        if q != k {
                            assert(j != i);
                            assert(self.entries@[j] == old(self).entries@[j]);
                            let j2 = choose|j2: int|
                                0 <= j2 < old(self).entries@.len() && old(self).entries@[j2].0.0
                                    == q.0 && old(self).entries@[j2].0.1 == q.1;
                            assert(j2 == j);
                        } else {
                            assert(j == i);
                        }
                    }
                    assert(self.spec_map() =~= before.insert(k, display(ty@)));
                }
            },
            None => {
                self.entries.push(((span.start, span.end), name));
                proof {
                    let n = old(self).entries@.len() as int;
                    assert forall|a: int, b: int|
                        0 <= a < b < self.entries@.len() implies (#[trigger] self.entries@[a]).0
                        != (#[trigger] self.entries@[b]).0 by {
                        if b < n {
                            assert(old(self).entries@[a].0 != old(self).entries@[b].0);
                        } else {
                            assert(old(self).entries@[a] == self.entries@[a]);
                        }
                    }
                    assert forall|q: (int, int)|
                        #![auto]
                        self.spec_map().contains_key(q) == before.insert(k, display(ty@)).contains_key(q) by {
                        if q != k {
                            if before.contains_key(q) {
                                let j = choose|j: int|
                                    0 <= j < old(self).entries@.len() && old(self).entries@[j].0.0
                                        == q.0 && old(self).entries@[j].0.1 == q.1;
                                assert(self.entries@[j] == old(self).entries@[j]);
                            }
                            if self.spec_map().contains_key(q) {
                                let j = choose|j: int|
                                    0 <= j < self.entries@.len() && self.entries@[j].0.0 == q.0
                                        && self.entries@[j].0.1 == q.1;
                                assert(j < n);
                                assert(self.entries@[j] == old(self).entries@[j]);
                            }
                        } else {
                            assert(self.entries@[n].0 == (span.start, span.end));
                        }
                    }
                    assert forall|q: (int, int)|
                        #![auto]
                        self.spec_map().contains_key(q) implies self.spec_map()[q] == before.insert(
                            k,
                            display(ty@),
                        )[q] by {
                        let j = choose|j: int|
                            0 <= j < self.entries@.len() && self.entries@[j].0.0 == q.0
                                && self.entries@[j].0.1 == q.1;
                        if q != k {
                            assert(j < n);
                            assert(self.entries@[j] == old(self).entries@[j]);
                            let j2 = choose|j2: int|
                                0 <= j2 < old(self).entries@.len() && old(self).entries@[j2].0.0
                                    == q.0 && old(self).entries@[j2].0.1 == q.1;
                            assert(j2 == j);
                        } else {
                            assert(j == n);
                        }
                    }
                    assert(self.spec_map() =~= before.insert(k, display(ty@)));
                }
            },
        }
    }
}

// ---------------------------------------------------------------------------
// Compiled program metadata
// ---------------------------------------------------------------------------

/// Parameter types and return type of a compiled function.
#[derive(Debug, Clone)]
pub struct FunctionSignature {
    pub param_types: Vec<ResolvedType>,
    pub return_type: ResolvedType,
    /// Whether each parameter is declared `mut` (parallel to `param_types`).
    pub param_is_mut: Vec<bool>,
    /// Whether the function is a `mut fn` method.
    pub is_mut: bool,
}

/// A compiled function.
#[derive(Debug)]
pub struct CompiledFunction {
    pub name: String,
    pub arity: usize,
    pub params: Vec<String>,
    pub param_types: Vec<ResolvedType>,
    pub return_type: Option<ResolvedType>,
    pub num_locals: usize,
    pub instructions: Vec<crate::vm::Instruction>,
    pub spans: Vec<Range<usize>>,
    pub is_pub: bool,
}

/// `Range::clone`, used by the derived `Clone` of the span-carrying
/// records; nothing is claimed of the copy.
pub assume_specification<Idx: Clone>[ <std::ops::Range<Idx> as Clone>::clone ](
    r: &std::ops::Range<Idx>,
) -> std::ops::Range<Idx>;

/// A `test "name" { ... }` block found while compiling.
#[derive(Debug, Clone)]
pub struct TestInfo {
    /// The name from the source: `test "addition works"` stores
    /// `addition works`.
    pub display_name: String,
    /// Index into the chunk's function table of the compiled body.
    pub function_idx: usize,
    /// Byte-offset span of the whole test statement.
    pub span: Range<usize>,
}

/// Compile-time information about an object type.
#[derive(Debug, Clone)]
pub struct ObjDefInfo {
    pub name: String,
    /// Field names in order; the index is the field's offset.
    pub fields: Vec<String>,
    pub field_types: Vec<ResolvedType>,
    /// Parallel to `fields`: whether each field is `pub`.
    pub field_is_pub: Vec<bool>,
    /// Method name -> function table index.
    pub methods: HashMap<String, usize>,
    /// Static method name -> function table index.
    pub static_methods: HashMap<String, usize>,
    pub method_is_pub: HashMap<String, bool>,
    pub static_method_is_pub: HashMap<String, bool>,
    pub method_signatures: HashMap<String, FunctionSignature>,
    pub static_method_signatures: HashMap<String, FunctionSignature>,
    /// Method signatures declared without a body, which types that `use`
    /// this one must implement.
    pub signatures: Vec<MethodSignature>,
    pub is_pub: bool,
}

/// A required method signature: name, parameter types (without `self`)
/// and return type.
#[derive(Debug, Clone)]
pub struct MethodSignature {
    pub name: String,
    pub is_static: bool,
    pub param_types: Vec<ResolvedType>,
    pub return_type: ResolvedType,
}

/// One variant of an enum definition.
#[derive(Debug, Clone)]
pub struct EnumVariantInfo {
    pub name: String,
    pub field_names: Vec<String>,
    pub field_types: Vec<ResolvedType>,
}

/// Compile-time information about an enum type.
#[derive(Debug, Clone)]
pub struct EnumDefInfo {
    pub name: String,
    pub variants: Vec<EnumVariantInfo>,
    pub is_pub: bool,
    pub is_error: bool,
}


impl Default for TypeMap {
    fn default() -> (r: TypeMap)
        ensures
            r.wf(),
            r.spec_map() == Map::<(int, int), Seq<char>>::empty(),
    {
        TypeMap::new()
    }
}

impl Clone for TypeMap {
    fn clone(&self) -> (r: TypeMap)
        ensures
            self.wf() ==> r.wf(),
            self.wf() ==> r.spec_map() == self.spec_map(),
    {
        let mut entries: Vec<((usize, usize), String)> = Vec::new();
        let mut i: usize = 0;
        while i < self.entries.len()
            invariant
                i <= self.entries@.len(),
                entries@.len() == i,
                forall|j: int|
                    0 <= j < i ==> (#[trigger] entries@[j]).0 == self.entries@[j].0
                        && entries@[j].1@ == self.entries@[j].1@,
            decreases self.entries@.len() - i,
        {
            entries.push((self.entries[i].0, self.entries[i].1.clone()));
            i += 1;
        }
        let r = TypeMap { entries };
        proof {
        if self.wf() {
            assert forall|a: int, b: int|
                0 <= a < b < r.entries@.len() implies (#[trigger] r.entries@[a]).0 != (
                #[trigger] r.entries@[b]).0 by {
                assert(self.entries@[a].0 != self.entries@[b].0);
            }
            assert forall|k: (int, int)| #![auto] r.spec_map().contains_key(k) == self.spec_map().contains_key(k) by {
                if r.spec_map().contains_key(k) {
                    let j = choose|j: int|
                        0 <= j < r.entries@.len() && r.entries@[j].0.0 == k.0 && r.entries@[j].0.1 == k.1;
                    assert(self.entries@[j].0 == r.entries@[j].0);
                }
                if self.spec_map().contains_key(k) {
                    let j = choose|j: int|
                        0 <= j < self.entries@.len() && self.entries@[j].0.0 == k.0 && self.entries@[j].0.1 == k.1;
                    assert(r.entries@[j].0 == self.entries@[j].0);
                }
            }
            assert forall|k: (int, int)| #![auto] r.spec_map().contains_key(k) implies r.spec_map()[k] == self.spec_map()[k] by {
                let j = choose|j: int|
                    0 <= j < r.entries@.len() && r.entries@[j].0.0 == k.0 && r.entries@[j].0.1 == k.1;
                let j2 = choose|j: int|
                    0 <= j < self.entries@.len() && self.entries@[j].0.0 == k.0 && self.entries@[j].0.1 == k.1;
                assert(self.entries@[j].0 == r.entries@[j].0);
                assert(r.entries@[j2].0 == self.entries@[j2].0);
                if j != j2 {
                    if j < j2 {
                        assert(self.entries@[j].0 != self.entries@[j2].0);
                    } else {
                        assert(self.entries@[j2].0 != self.entries@[j].0);
                    }
                }
            }
            assert(r.spec_map() =~= self.spec_map());
        }
        }
        r
    }
}

/// Every span a type map records is a pair of `usize` offsets, so a map
/// that is not empty has a span that [`TypeMap::get`] reads back.
pub proof fn type_map_keys_are_spans(m: TypeMap, k: (int, int))
    requires
        m.spec_map().contains_key(k),
    ensures
        0 <= k.0 <= usize::MAX,
        0 <= k.1 <= usize::MAX,
{
}

/// What [`TypeMap::insert`] records at a span, [`TypeMap::get`] reads
/// back there, and every other span keeps what it had; an `Unknown` type
/// records nothing.
pub proof fn type_map_reads_back_what_was_written(
    before: TypeMap,
    after: TypeMap,
    span: (int, int),
    ty: ResolvedType,
    other: (int, int),
)
    requires
        !(ty@ is Unknown) ==> after.spec_map() == before.spec_map().insert(span, display(ty@)),
        ty@ is Unknown ==> after.spec_map() == before.spec_map(),
        other != span,
    ensures
        !(ty@ is Unknown) ==> after.spec_map().contains_key(span) && after.spec_map()[span] == display(
            ty@,
        ),
        ty@ is Unknown ==> after.spec_map().contains_key(span) == before.spec_map().contains_key(span),
        after.spec_map().contains_key(other) == before.spec_map().contains_key(other),
        before.spec_map().contains_key(other) ==> after.spec_map()[other] == before.spec_map()[other],
{
}

} // verus!
