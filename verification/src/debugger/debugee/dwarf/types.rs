//! Types of the debugged program as its debug information describes them: a
//! graph of type declarations linked by their identifiers, and what the
//! debugger reads of it (names, sizes, the types a type depends on).

use crate::debugger::debugee::dwarf::NamespaceHierarchy;
use crate::text::copy_string;
use std::collections::HashMap;
use std::collections::HashSet;
use std::collections::VecDeque;
use vstd::prelude::*;

verus! {

broadcast use vstd::std_specs::hash::group_hash_axioms;

/// Type identifier: offset of the type's entry in the debug information.
pub type TypeId = u64;

/// List of type modifiers
#[derive(Clone, Copy, PartialEq, Eq, Debug, Structural)]
pub enum CModifier {
    TypeDef,
    Const,
    Volatile,
    Atomic,
    Restrict,
}

/// Name of a modifier, in snake case, as it is shown.
pub open spec fn modifier_name(m: CModifier) -> Seq<char> {
    match m {
        CModifier::TypeDef => "type_def"@,
        CModifier::Const => "const"@,
        CModifier::Volatile => "volatile"@,
        CModifier::Atomic => "atomic"@,
        CModifier::Restrict => "restrict"@,
    }
}

impl CModifier {
    /// Name of the modifier, in snake case, as it is shown.
    pub fn name(&self) -> (r: &'static str)
        ensures
            r@ == modifier_name(*self),
    {
        match self {
            CModifier::TypeDef => "type_def",
            CModifier::Const => "const",
            CModifier::Volatile => "volatile",
            CModifier::Atomic => "atomic",
            CModifier::Restrict => "restrict",
        }
    }
}

/// View of an optional string.
pub open spec fn opt_str_view(s: Option<String>) -> Option<Seq<char>> {
    match s {
        Some(x) => Some(x@),
        None => None,
    }
}

/// Name shown for a type without a name.
pub open spec fn unknown_name() -> Seq<char> {
    seq!['u', 'n', 'k', 'n', 'o', 'w', 'n']
}

/// Name shown for a type: its name, or `unknown`.
pub open spec fn name_fmt_of(name: Option<Seq<char>>) -> Seq<char> {
    match name {
        Some(n) => n,
        None => unknown_name(),
    }
}

/// Copy of an optional string.
fn copy_opt(s: &Option<String>) -> (r: Option<String>)
    ensures
        opt_str_view(r) == opt_str_view(*s),
{
    match s {
        Some(x) => Some(copy_string(x)),
        None => None,
    }
}

/// Type name with namespace.
pub struct TypeIdentity {
    namespace: NamespaceHierarchy,
    name: Option<String>,
}

impl View for TypeIdentity {
    type V = (Seq<Seq<char>>, Option<Seq<char>>);

    closed spec fn view(&self) -> (Seq<Seq<char>>, Option<Seq<char>>) {
        (self.namespace@, opt_str_view(self.name))
    }
}

impl TypeIdentity {
    /// Identity made of a namespace and an optional name.
    fn from_parts(namespace: NamespaceHierarchy, name: Option<String>) -> (r: Self)
        ensures
            r@ == (namespace@, opt_str_view(name)),
    {
        TypeIdentity { namespace, name }
    }

    /// Create type identity with empty namespace.
    pub fn no_namespace(name: &str) -> (r: Self)
        ensures
            r@ == (Seq::<Seq<char>>::empty(), Some(name@)),
    {
        let mut s = String::new();
        s.append(name);
        TypeIdentity::from_parts(NamespaceHierarchy::empty(), Some(s))
    }

    /// Create type identity for an unknown type.
    pub fn unknown() -> (r: Self)
        ensures
            r@ == (Seq::<Seq<char>>::empty(), None::<Seq<char>>),
    {
        TypeIdentity::from_parts(NamespaceHierarchy::empty(), None)
    }

    /// True whether a type is unknown.
    pub fn is_unknown(&self) -> (r: bool)
        ensures
            r == (self@.1 is None),
    {
        self.name.is_none()
    }

    /// Name of the type, if it has one.
    pub fn name(&self) -> (r: Option<&str>)
        ensures
            r is Some == self@.1 is Some,
            r matches Some(n) ==> n@ == self@.1->Some_0,
    {
        match &self.name {
            Some(n) => Some(n.as_str()),
            None => None,
        }
    }

    /// Return formatted type name: the name, or `unknown`.
    pub fn name_fmt(&self) -> (r: &str)
        ensures
            r@ == name_fmt_of(self@.1),
    {
        match &self.name {
            Some(n) => n.as_str(),
            None => {
                proof {
                    reveal_strlit("unknown");
                }
                "unknown"
            },
        }
    }

    /// Name formatted with a prefix.
    fn prefixed(&self, prefix: &str) -> (r: String)
        ensures
            r@ == prefix@ + name_fmt_of(self@.1),
    {
        let mut s = String::new();
        s.append(prefix);
        s.append(self.name_fmt());
        s
    }

    /// Create address type name: `&` before the name.
    pub fn as_address_type(&self) -> (r: TypeIdentity)
        ensures
            r@ == (self@.0, Some(seq!['&'] + name_fmt_of(self@.1))),
    {
        proof {
            reveal_strlit("&");
        }
        let name = self.prefixed("&");
        TypeIdentity::from_parts(self.namespace.clone_hierarchy(), Some(name))
    }

    /// Create dereferenced type name: `*` before the name.
    pub fn as_deref_type(&self) -> (r: TypeIdentity)
        ensures
            r@ == (self@.0, Some(seq!['*'] + name_fmt_of(self@.1))),
    {
        proof {
            reveal_strlit("*");
        }
        let name = self.prefixed("*");
        TypeIdentity::from_parts(self.namespace.clone_hierarchy(), Some(name))
    }

    /// Create array type name from element type name: the name in square
    /// brackets, without a namespace.
    pub fn as_array_type(&self) -> (r: TypeIdentity)
        ensures
            r@ == (Seq::<Seq<char>>::empty(), Some(seq!['['] + name_fmt_of(self@.1) + seq![']'])),
    {
        proof {
            reveal_strlit("[");
            reveal_strlit("]");
        }
        let mut name = self.prefixed("[");
        name.append("]");
        TypeIdentity::from_parts(NamespaceHierarchy::empty(), Some(name))
    }
}

/// A member of a structure, a union or an enumeration.
pub struct StructureMember {
    pub name: Option<String>,
    pub type_ref: Option<TypeId>,
}

/// A bound of an array: a constant, or the value that its location
/// expression gave in the frame where the type is read (`None` when the
/// expression could not be evaluated there).
pub enum ArrayBoundValue {
    Const(i64),
    Expr(Option<i64>),
}

/// Value of an array bound, if it has one.
pub open spec fn bound_value(b: ArrayBoundValue) -> Option<i64> {
    match b {
        ArrayBoundValue::Const(v) => Some(v),
        ArrayBoundValue::Expr(v) => v,
    }
}

impl ArrayBoundValue {
    /// Value of the bound, if it has one.
    pub fn value(&self) -> (r: Option<i64>)
        ensures
            r == bound_value(*self),
    {
        match self {
            ArrayBoundValue::Const(v) => Some(*v),
            ArrayBoundValue::Expr(v) => *v,
        }
    }
}

/// Upper end of an array: its last index, or its number of elements.
pub enum UpperBound {
    UpperBound(ArrayBoundValue),
    Count(ArrayBoundValue),
}

/// An array type.
pub struct ArrayType {
    pub namespaces: NamespaceHierarchy,
    pub byte_size: Option<u64>,
    pub element_type: Option<TypeId>,
    pub lower_bound: ArrayBoundValue,
    pub upper_bound: Option<UpperBound>,
}

/// Bounds of an array: its lower bound (zero when it has none) and, by an
/// upper bound, that bound less the lower one, or, by a count, the count.
pub open spec fn array_bounds(arr: ArrayType) -> Option<(i64, i64)> {
    let lb = match bound_value(arr.lower_bound) {
        Some(v) => v,
        None => 0i64,
    };
    match arr.upper_bound {
        None => None,
        Some(UpperBound::UpperBound(ub)) => match bound_value(ub) {
            Some(u) => Some((lb, u.wrapping_sub(lb))),
            None => None,
        },
        Some(UpperBound::Count(c)) => match bound_value(c) {
            Some(n) => Some((lb, n)),
            None => None,
        },
    }
}

/// Size of an array from the size of its element and its bounds; the
/// arithmetic wraps around as two's complement words do.
pub open spec fn array_size(inner: u64, bounds: (i64, i64)) -> u64 {
    inner.wrapping_mul(bounds.1.wrapping_sub(bounds.0) as u64)
}

impl ArrayType {
    /// Array type of the given parts.
    pub fn new(
        namespaces: NamespaceHierarchy,
        byte_size: Option<u64>,
        element_type: Option<TypeId>,
        lower_bound: ArrayBoundValue,
        upper_bound: Option<UpperBound>,
    ) -> (r: Self)
        ensures
            r.namespaces@ == namespaces@,
            r.byte_size == byte_size,
            r.element_type == element_type,
            r.lower_bound == lower_bound,
            r.upper_bound == upper_bound,
    {
        ArrayType { namespaces, byte_size, element_type, lower_bound, upper_bound }
    }

    /// Lower bound of the array, zero when it has none.
    fn lower_bound(&self) -> (r: i64)
        ensures
            r == match bound_value(self.lower_bound) {
                Some(v) => v,
                None => 0i64,
            },
    {
        match self.lower_bound.value() {
            Some(v) => v,
            None => 0,
        }
    }

    /// Bounds of the array (see [`array_bounds`]).
    pub fn bounds(&self) -> (r: Option<(i64, i64)>)
        ensures
            r == array_bounds(*self),
    {
        let lb = self.lower_bound();
        match &self.upper_bound {
            None => None,
            Some(UpperBound::UpperBound(ub)) => match ub.value() {
                Some(u) => Some((lb, u.wrapping_sub(lb))),
                None => None,
            },
            Some(UpperBound::Count(c)) => match c.value() {
                Some(n) => Some((lb, n)),
                None => None,
            },
        }
    }
}

/// A type without parts.
pub struct ScalarType {
    pub namespaces: NamespaceHierarchy,
    pub name: Option<String>,
    pub byte_size: Option<u64>,
    pub encoding: Option<u8>,
}

impl ScalarType {
    /// Name of the type with its namespace.
    pub fn identity(&self) -> (r: TypeIdentity)
        ensures
            r@ == (self.namespaces@, opt_str_view(self.name)),
    {
        TypeIdentity::from_parts(self.namespaces.clone_hierarchy(), copy_opt(&self.name))
    }
}

/// A declaration of a type.
pub enum TypeDeclaration {
    Scalar(ScalarType),
    Array(ArrayType),
    CStyleEnum {
        namespaces: NamespaceHierarchy,
        name: Option<String>,
        byte_size: Option<u64>,
        discr_type: Option<TypeId>,
        enumerators: Vec<(i64, String)>,
    },
    Pointer { namespaces: NamespaceHierarchy, name: Option<String>, target_type: Option<TypeId> },
    Structure {
        namespaces: NamespaceHierarchy,
        name: Option<String>,
        byte_size: Option<u64>,
        members: Vec<StructureMember>,
        type_params: Vec<(String, Option<TypeId>)>,
    },
    Union {
        namespaces: NamespaceHierarchy,
        name: Option<String>,
        byte_size: Option<u64>,
        members: Vec<StructureMember>,
    },
    RustEnum {
        namespaces: NamespaceHierarchy,
        name: Option<String>,
        byte_size: Option<u64>,
        discr_type: Option<Box<StructureMember>>,
        /// key `None` is default enumerator
        enumerators: Vec<(Option<i64>, StructureMember)>,
    },
    Subroutine { namespaces: NamespaceHierarchy, name: Option<String>, return_type: Option<TypeId> },
    ModifiedType {
        modifier: CModifier,
        namespaces: NamespaceHierarchy,
        name: Option<String>,
        inner: Option<TypeId>,
    },
}

/// Type representation. This is a graph of types where vertexes is a type declaration and edges
/// is a dependencies between types. Type linking implemented by `TypeId` references.
/// Root is id of a main type.
pub struct ComplexType {
    pub types: HashMap<TypeId, TypeDeclaration>,
    root: TypeId,
}

/// The type whose name the name of `t` is made of: the element of an array,
/// or what a modifier without a name of its own modifies.
pub open spec fn name_source(types: Map<u64, TypeDeclaration>, t: u64) -> Option<u64> {
    if types.contains_key(t) {
        match types[t] {
            TypeDeclaration::Array(arr) => arr.element_type,
            TypeDeclaration::ModifiedType { name: None, inner, .. } => inner,
            _ => None,
        }
    } else {
        None
    }
}

/// True when following [`name_source`] from `t` ends within `n` steps.
pub open spec fn name_chain_ends(types: Map<u64, TypeDeclaration>, t: u64, n: nat) -> bool
    decreases n,
{
    match name_source(types, t) {
        None => true,
        Some(u) => n > 0 && name_chain_ends(types, u, (n - 1) as nat),
    }
}

/// Name and namespace of type `t`, following at most `n` name sources: a
/// declared type has its own; an array is named `[element]`; a modifier
/// without a name of its own is named `modifier inner` (and has no name
/// when it modifies nothing); an unknown identifier has none.
pub open spec fn identity_at(types: Map<u64, TypeDeclaration>, t: u64, n: nat) -> (
    Seq<Seq<char>>,
    Option<Seq<char>>,
)
    decreases n,
{
    if !types.contains_key(t) {
        (Seq::empty(), None)
    } else {
        match types[t] {
            TypeDeclaration::Scalar(s) => (s.namespaces@, opt_str_view(s.name)),
            TypeDeclaration::Array(arr) => {
                let el = match arr.element_type {
                    Some(e) => if n > 0 {
                        name_fmt_of(identity_at(types, e, (n - 1) as nat).1)
                    } else {
                        unknown_name()
                    },
                    None => unknown_name(),
                };
                (arr.namespaces@, Some(seq!['['] + el + seq![']']))
            },
            TypeDeclaration::CStyleEnum { namespaces, name, .. } => (namespaces@, opt_str_view(name)),
            TypeDeclaration::Pointer { namespaces, name, .. } => (namespaces@, opt_str_view(name)),
            TypeDeclaration::Structure { namespaces, name, .. } => (namespaces@, opt_str_view(name)),
            TypeDeclaration::Union { namespaces, name, .. } => (namespaces@, opt_str_view(name)),
            TypeDeclaration::RustEnum { namespaces, name, .. } => (namespaces@, opt_str_view(name)),
            TypeDeclaration::Subroutine { namespaces, name, .. } => (namespaces@, opt_str_view(name)),
            TypeDeclaration::ModifiedType { modifier, namespaces, name, inner } => match name {
                Some(nm) => (namespaces@, Some(nm@)),
                None => match inner {
                    Some(i) => if n > 0 {
                        (
                            namespaces@,
                            Some(
                                modifier_name(modifier) + seq![' '] + name_fmt_of(
                                    identity_at(types, i, (n - 1) as nat).1,
                                ),
                            ),
                        )
                    } else {
                        (namespaces@, None)
                    },
                    None => (namespaces@, None),
                },
            },
        }
    }
}

/// Name and namespace of type `t` (see [`identity_at`]), for a type whose
/// chain of name sources ends.
pub open spec fn identity_of(types: Map<u64, TypeDeclaration>, t: u64) -> (Seq<Seq<char>>, Option<Seq<char>>) {
    identity_at(types, t, choose|n: nat| name_chain_ends(types, t, n))
}

/// The type whose size the size of `t` is taken from: the element of an
/// array without a size of its own and with bounds, or what a modifier
/// modifies.
pub open spec fn size_source(types: Map<u64, TypeDeclaration>, t: u64) -> Option<u64> {
    if types.contains_key(t) {
        match types[t] {
            TypeDeclaration::Array(arr) => if arr.byte_size is None && array_bounds(arr) is Some {
                arr.element_type
            } else {
                None
            },
            TypeDeclaration::ModifiedType { inner, .. } => inner,
            _ => None,
        }
    } else {
        None
    }
}

/// True when following [`size_source`] from `t` ends within `n` steps.
pub open spec fn size_chain_ends(types: Map<u64, TypeDeclaration>, t: u64, n: nat) -> bool
    decreases n,
{
    match size_source(types, t) {
        None => true,
        Some(u) => n > 0 && size_chain_ends(types, u, (n - 1) as nat),
    }
}

/// Number of bytes of an address.
pub open spec fn address_size() -> u64 {
    (usize::BITS / 8) as u64
}

/// Size in bytes of type `t`, following at most `n` size sources: the
/// declared size; for an array without one, the size of its element times
/// its extent; for a pointer or a subroutine, the size of an address; for a
/// modifier, the size of what it modifies.
pub open spec fn size_at(types: Map<u64, TypeDeclaration>, t: u64, n: nat) -> Option<u64>
    decreases n,
{
    if !types.contains_key(t) {
        None
    } else {
        match types[t] {
            TypeDeclaration::Scalar(s) => s.byte_size,
            TypeDeclaration::Array(arr) => if arr.byte_size is Some {
                arr.byte_size
            } else {
                match array_bounds(arr) {
                    None => None,
                    Some(b) => match arr.element_type {
                        None => None,
                        Some(e) => if n > 0 {
                            match size_at(types, e, (n - 1) as nat) {
                                Some(inner) => Some(array_size(inner, b)),
                                None => None,
                            }
                        } else {
                            None
                        },
                    },
                }
            },
            TypeDeclaration::CStyleEnum { byte_size, .. } => byte_size,
            TypeDeclaration::Pointer { .. } => Some(address_size()),
            TypeDeclaration::Structure { byte_size, .. } => byte_size,
            TypeDeclaration::Union { byte_size, .. } => byte_size,
            TypeDeclaration::RustEnum { byte_size, .. } => byte_size,
            TypeDeclaration::Subroutine { .. } => Some(address_size()),
            TypeDeclaration::ModifiedType { inner, .. } => match inner {
                Some(i) => if n > 0 {
                    size_at(types, i, (n - 1) as nat)
                } else {
                    None
                },
                None => None,
            },
        }
    }
}

/// Size in bytes of type `t` (see [`size_at`]), for a type whose chain of
/// size sources ends.
pub open spec fn size_of_type(types: Map<u64, TypeDeclaration>, t: u64) -> Option<u64> {
    size_at(types, t, choose|n: nat| size_chain_ends(types, t, n))
}


/// The identifier in an optional type reference, as a sequence of zero or one.
pub open spec fn opt_ref(t: Option<u64>) -> Seq<u64> {
    match t {
        Some(id) => seq![id],
        None => Seq::empty(),
    }
}

/// Types of the given members, in order, for the members that have one.
pub open spec fn member_refs(ms: Seq<StructureMember>) -> Seq<u64>
    decreases ms.len(),
{
    if ms.len() == 0 {
        Seq::empty()
    } else {
        member_refs(ms.drop_last()) + opt_ref(ms.last().type_ref)
    }
}

/// Types of the given type parameters, in order, for the parameters that have one.
pub open spec fn param_refs(ps: Seq<(String, Option<u64>)>) -> Seq<u64>
    decreases ps.len(),
{
    if ps.len() == 0 {
        Seq::empty()
    } else {
        param_refs(ps.drop_last()) + opt_ref(ps.last().1)
    }
}

/// Types of the given enumerators, in order, for the enumerators that have one.
pub open spec fn enumerator_refs(es: Seq<(Option<i64>, StructureMember)>) -> Seq<u64>
    decreases es.len(),
{
    if es.len() == 0 {
        Seq::empty()
    } else {
        enumerator_refs(es.drop_last()) + opt_ref(es.last().1.type_ref)
    }
}

/// Queue `q` (front first) after each of `ids` is put at its front, one
/// after the other: the last one put comes first.
pub open spec fn push_fronts(q: Seq<u64>, ids: Seq<u64>) -> Seq<u64>
    decreases ids.len(),
{
    if ids.len() == 0 {
        q
    } else {
        seq![ids.last()] + push_fronts(q, ids.drop_last())
    }
}

/// Queue `q` after the types that declaration `d` depends on are put at its
/// front: the element of an array, the discriminant of an enumeration, the
/// target of a pointer, the types of members (then of type parameters, or of
/// enumerators), and what a modifier modifies.
pub open spec fn queue_dependencies(q: Seq<u64>, d: TypeDeclaration) -> Seq<u64> {
    match d {
        TypeDeclaration::Scalar(_) => q,
        TypeDeclaration::Array(arr) => push_fronts(q, opt_ref(arr.element_type)),
        TypeDeclaration::CStyleEnum { discr_type, .. } => push_fronts(q, opt_ref(discr_type)),
        TypeDeclaration::Pointer { target_type, .. } => push_fronts(q, opt_ref(target_type)),
        TypeDeclaration::Structure { members, type_params, .. } => push_fronts(
            push_fronts(q, member_refs(members@)),
            param_refs(type_params@),
        ),
        TypeDeclaration::Union { members, .. } => push_fronts(q, member_refs(members@)),
        TypeDeclaration::RustEnum { discr_type, enumerators, .. } => push_fronts(
            push_fronts(
                q,
                opt_ref(
                    match discr_type {
                        Some(m) => m.type_ref,
                        None => None,
                    },
                ),
            ),
            enumerator_refs(enumerators@),
        ),
        TypeDeclaration::Subroutine { .. } => q,
        TypeDeclaration::ModifiedType { inner, .. } => push_fronts(q, opt_ref(inner)),
    }
}

/// Types that a breadth-first walk visits from queue `q`, at most `k` of
/// them: each step takes the type at the back of the queue and puts the
/// types it depends on at its front.
pub open spec fn bfs_walk(types: Map<u64, TypeDeclaration>, q: Seq<u64>, k: nat) -> Seq<u64>
    decreases k,
{
    if k == 0 || q.len() == 0 {
        Seq::empty()
    } else {
        seq![q.last()] + bfs_walk(types, queue_dependencies(q.drop_last(), types[q.last()]), (k - 1) as nat)
    }
}

/// True when each of the first `k` steps of the walk from `q` takes a type
/// that the graph declares.
pub open spec fn bfs_declared(types: Map<u64, TypeDeclaration>, q: Seq<u64>, k: nat) -> bool
    decreases k,
{
    k == 0 || q.len() == 0 || (types.contains_key(q.last()) && bfs_declared(
        types,
        queue_dependencies(q.drop_last(), types[q.last()]),
        (k - 1) as nat,
    ))
}

/// Putting `a` then `b` at the front of a queue is putting `a + b` there.
proof fn lemma_push_fronts_append(q: Seq<u64>, a: Seq<u64>, b: Seq<u64>)
    ensures
        push_fronts(push_fronts(q, a), b) == push_fronts(q, a + b),
    decreases b.len(),
{
    if b.len() == 0 {
        assert(a + b =~= a);
    } else {
        lemma_push_fronts_append(q, a, b.drop_last());
        assert((a + b).drop_last() =~= a + b.drop_last());
        assert((a + b).last() == b.last());
    }
}

/// Put a type reference, if there is one, at the front of the queue.
fn push_opt(t: Option<TypeId>, queue: &mut VecDeque<TypeId>)
    ensures
        final(queue)@ == push_fronts(old(queue)@, opt_ref(t)),
{
    let ghost q0 = queue@;
    if let Some(id) = t {
        queue.push_front(id);
        proof {
            assert(opt_ref(t).drop_last() =~= Seq::<u64>::empty());
            assert(push_fronts(q0, Seq::<u64>::empty()) == q0);
        }
    }
}

/// Put the types of members at the front of the queue, in order.
fn push_members(members: &Vec<StructureMember>, queue: &mut VecDeque<TypeId>)
    ensures
        final(queue)@ == push_fronts(old(queue)@, member_refs(members@)),
{
    let ghost q0 = queue@;
    let mut i: usize = 0;
    while i < members.len()
        invariant
            i <= members.len(),
            queue@ == push_fronts(q0, member_refs(members@.subrange(0, i as int))),
        decreases members.len() - i,
    {
        proof {
            let sub = members@.subrange(0, i + 1);
            assert(sub.drop_last() =~= members@.subrange(0, i as int));
            assert(sub.last() == members@[i as int]);
            let a = member_refs(members@.subrange(0, i as int));
            lemma_push_fronts_append(q0, a, opt_ref(members@[i as int].type_ref));
        }
        push_opt(members[i].type_ref, queue);
        i = i + 1;
    }
    proof {
        assert(members@.subrange(0, i as int) =~= members@);
    }
}

/// Put the types of type parameters at the front of the queue, in order.
fn push_params(params: &Vec<(String, Option<TypeId>)>, queue: &mut VecDeque<TypeId>)
    ensures
        final(queue)@ == push_fronts(old(queue)@, param_refs(params@)),
{
    let ghost q0 = queue@;
    let mut i: usize = 0;
    while i < params.len()
        invariant
            i <= params.len(),
            queue@ == push_fronts(q0, param_refs(params@.subrange(0, i as int))),
        decreases params.len() - i,
    {
        proof {
            let sub = params@.subrange(0, i + 1);
            assert(sub.drop_last() =~= params@.subrange(0, i as int));
            assert(sub.last() == params@[i as int]);
            let a = param_refs(params@.subrange(0, i as int));
            lemma_push_fronts_append(q0, a, opt_ref(params@[i as int].1));
        }
        push_opt(params[i].1, queue);
        i = i + 1;
    }
    proof {
        assert(params@.subrange(0, i as int) =~= params@);
    }
}

/// Put the types of enumerators at the front of the queue, in order.
fn push_enumerators(enumerators: &Vec<(Option<i64>, StructureMember)>, queue: &mut VecDeque<TypeId>)
    ensures
        final(queue)@ == push_fronts(old(queue)@, enumerator_refs(enumerators@)),
{
    let ghost q0 = queue@;
    let mut i: usize = 0;
    while i < enumerators.len()
        invariant
            i <= enumerators.len(),
            queue@ == push_fronts(q0, enumerator_refs(enumerators@.subrange(0, i as int))),
        decreases enumerators.len() - i,
    {
        proof {
            let sub = enumerators@.subrange(0, i + 1);
            assert(sub.drop_last() =~= enumerators@.subrange(0, i as int));
            assert(sub.last() == enumerators@[i as int]);
            let a = enumerator_refs(enumerators@.subrange(0, i as int));
            lemma_push_fronts_append(q0, a, opt_ref(enumerators@[i as int].1.type_ref));
        }
        push_opt(enumerators[i].1.type_ref, queue);
        i = i + 1;
    }
    proof {
        assert(enumerators@.subrange(0, i as int) =~= enumerators@);
    }
}

/// Put the types that a declaration depends on at the front of the queue.
fn push_dependencies(decl: &TypeDeclaration, queue: &mut VecDeque<TypeId>)
    ensures
        final(queue)@ == queue_dependencies(old(queue)@, *decl),
{
    match decl {
        TypeDeclaration::Scalar(_) => {},
        TypeDeclaration::Array(arr) => push_opt(arr.element_type, queue),
        TypeDeclaration::CStyleEnum { discr_type, .. } => push_opt(*discr_type, queue),
        TypeDeclaration::Pointer { target_type, .. } => push_opt(*target_type, queue),
        TypeDeclaration::Structure { members, type_params, .. } => {
            push_members(members, queue);
            push_params(type_params, queue);
        },
        TypeDeclaration::Union { members, .. } => push_members(members, queue),
        TypeDeclaration::RustEnum { discr_type, enumerators, .. } => {
            let d = match discr_type {
                Some(m) => m.type_ref,
                None => None,
            };
            push_opt(d, queue);
            push_enumerators(enumerators, queue);
        },
        TypeDeclaration::Subroutine { .. } => {},
        TypeDeclaration::ModifiedType { inner, .. } => push_opt(*inner, queue),
    }
}

/// Types that declaration `d` depends on (see [`queue_dependencies`]).
pub open spec fn dependencies(d: TypeDeclaration) -> Seq<u64> {
    queue_dependencies(Seq::empty(), d)
}

/// Types reached from `root` within `n` steps, `root` included: each step
/// adds the dependencies of the declared types reached so far.
pub open spec fn reach_within(types: Map<u64, TypeDeclaration>, root: u64, n: nat) -> Set<u64>
    decreases n,
{
    if n == 0 {
        set![root]
    } else {
        let prev = reach_within(types, root, (n - 1) as nat);
        prev.union(
            Set::new(
                |c: u64|
                    exists|p: u64|
                        prev.contains(p) && types.contains_key(p) && #[trigger] dependencies(types[p]).contains(c),
            ),
        )
    }
}

/// True when type `id` is `root` or a type that `root` depends on, directly
/// or not.
pub open spec fn reachable(types: Map<u64, TypeDeclaration>, root: u64, id: u64) -> bool {
    exists|n: nat| #[trigger] reach_within(types, root, n).contains(id)
}

/// Declarations of `root` and of the types it depends on, directly or not.
pub open spec fn parsed_types(types: Map<u64, TypeDeclaration>, root: u64) -> Map<u64, TypeDeclaration> {
    types.restrict(Set::new(|id: u64| reachable(types, root, id)))
}

/// A type that a reached declared type depends on is reached one step later.
proof fn lemma_reach_step(types: Map<u64, TypeDeclaration>, root: u64, n: nat, p: u64, c: u64)
    requires
        reach_within(types, root, n).contains(p),
        types.contains_key(p),
        dependencies(types[p]).contains(c),
    ensures
        reach_within(types, root, n + 1).contains(c),
{
    assert(reach_within(types, root, (n + 1) as nat) == reach_within(types, root, n).union(
        Set::new(
            |c: u64|
                exists|p: u64|
                    reach_within(types, root, n).contains(p) && types.contains_key(p) && #[trigger] dependencies(
                        types[p],
                    ).contains(c),
        ),
    ));
}

/// A set that holds `root` and the dependencies of each declared type in it
/// holds every type reached from `root`.
proof fn lemma_closed_holds_reach(types: Map<u64, TypeDeclaration>, root: u64, s: Set<u64>, n: nat)
    requires
        s.contains(root),
        forall|p: u64, c: u64|
            s.contains(p) && types.contains_key(p) && #[trigger] dependencies(types[p]).contains(c) ==> s.contains(c),
    ensures
        reach_within(types, root, n).subset_of(s),
    decreases n,
{
    if n > 0 {
        lemma_closed_holds_reach(types, root, s, (n - 1) as nat);
    }
}

/// A parsed type graph holds the declared types that its types depend on,
/// and the declared root.
pub proof fn lemma_parsed_types_closed(types: Map<u64, TypeDeclaration>, root: u64, p: u64, c: u64)
    ensures
        types.contains_key(root) ==> parsed_types(types, root).contains_key(root),
        parsed_types(types, root).contains_key(p) && dependencies(types[p]).contains(c) && types.contains_key(c)
            ==> parsed_types(types, root).contains_key(c),
{
    assert(reach_within(types, root, 0).contains(root));
    if parsed_types(types, root).contains_key(p) && dependencies(types[p]).contains(c) {
        let n = choose|n: nat| #[trigger] reach_within(types, root, n).contains(p);
        lemma_reach_step(types, root, n, p, c);
    }
}

/// The types that a declaration depends on, in the order
/// [`queue_dependencies`] puts them at the front of an empty queue.
fn dependencies_of(decl: &TypeDeclaration) -> (r: Vec<TypeId>)
    ensures
        r@ == dependencies(*decl),
{
    let mut queue: VecDeque<TypeId> = VecDeque::new();
    push_dependencies(decl, &mut queue);
    let ghost all = queue@;
    let mut r: Vec<TypeId> = Vec::new();
    loop
        invariant
            r@ + queue@ == all,
            all == dependencies(*decl),
        ensures
            r@ == all,
        decreases queue@.len(),
    {
        match queue.pop_front() {
            Some(x) => {
                let ghost q = queue@;
                r.push(x);
                proof {
                    assert(r@ + q =~= all);
                }
            },
            None => {
                proof {
                    assert(r@ =~= all);
                }
                break;
            },
        }
    }
    r
}

/// Dwarf DIE parser: builds the type graph of a type from the declarations
/// of the debug information.
pub struct TypeParser {
    known_type_ids: HashSet<TypeId>,
    processed_types: HashMap<TypeId, TypeDeclaration>,
}

impl TypeParser {
    /// True for a parser that has seen no type yet.
    pub closed spec fn fresh(&self) -> bool {
        self.known_type_ids@ == Set::<u64>::empty() && self.processed_types@ == Map::<u64, TypeDeclaration>::empty()
    }

    /// Creates new type parser.
    pub fn new() -> (r: Self)
        ensures
            r.fresh(),
    {
        TypeParser { known_type_ids: HashSet::new(), processed_types: HashMap::new() }
    }

    /// Parse a `ComplexType` of the type `root_id`: the declarations of that
    /// type and of the types it depends on, directly or not, taken from
    /// `declarations` (a type without a declaration there is left out).
    pub fn parse(self, declarations: HashMap<TypeId, TypeDeclaration>, root_id: TypeId) -> (r: ComplexType)
        requires
            self.fresh(),
        ensures
            r.graph() == parsed_types(declarations@, root_id),
            r.root_spec() == root_id,
    {
        let ghost all = declarations@;
        let mut known = self.known_type_ids;
        let mut processed = self.processed_types;
        let mut avail = declarations;
        let mut stack: Vec<TypeId> = Vec::new();
        let ghost mut done: Set<u64> = Set::empty();
        known.insert(root_id);
        stack.push(root_id);
        proof {
            assert(stack@ =~= seq![root_id]);
            assert(stack@[0] == root_id);
            assert(reach_within(all, root_id, 0).contains(root_id));
            assert(known@ =~= done.union(Set::new(|x: u64| stack@.contains(x))));
            assert(avail@ =~= all.remove_keys(done));
            assert(processed@ =~= all.restrict(done));
        }
        while stack.len() > 0
            invariant
                known@ == done.union(Set::new(|x: u64| stack@.contains(x))),
                stack@.no_duplicates(),
                forall|i: int| 0 <= i < stack@.len() ==> !done.contains(#[trigger] stack@[i]),
                known@.contains(root_id),
                forall|id: u64| #[trigger] known@.contains(id) ==> reachable(all, root_id, id),
                avail@ == all.remove_keys(done),
                processed@ == all.restrict(done),
                forall|p: u64, c: u64|
                    done.contains(p) && all.contains_key(p) && #[trigger] dependencies(all[p]).contains(c)
                        ==> known@.contains(c),
            decreases avail@.dom().len(), stack@.len(),
        {
            let ghost before = stack@;
            let p = stack.pop().unwrap();
            proof {
                assert(before == stack@.push(p));
                assert(before[before.len() - 1] == p);
                assert(!done.contains(p));
                assert(!stack@.contains(p)) by {
                    if stack@.contains(p) {
                        let i = choose|i: int| 0 <= i < stack@.len() && stack@[i] == p;
                        assert(before[i] == p);
                    }
                }
                assert(known@.contains(p)) by {
                    assert(before.contains(p));
                }
                assert forall|i: int| 0 <= i < stack@.len() implies !done.contains(#[trigger] stack@[i]) by {
                    assert(before[i] == stack@[i]);
                }
            }
            match avail.remove(&p) {
                None => {
                    proof {
                        assert(!all.contains_key(p));
                        done = done.insert(p);
                        assert(known@ =~= done.union(Set::new(|x: u64| stack@.contains(x))));
                        assert(avail@ =~= all.remove_keys(done));
                        assert(processed@ =~= all.restrict(done));
                    }
                },
                Some(decl) => {
                    proof {
                        assert(all.contains_key(p) && all[p] == decl);
                    }
                    let deps = dependencies_of(&decl);
                    let ghost stack0 = stack@;
                    let mut j: usize = 0;
                    while j < deps.len()
                        invariant
                            j <= deps.len(),
                            deps@ == dependencies(all[p]),
                            all.contains_key(p),
                            !done.contains(p),
                            known@.contains(p),
                            !stack@.contains(p),
                            known@ == done.insert(p).union(Set::new(|x: u64| stack@.contains(x))),
                            stack@.no_duplicates(),
                            forall|i: int| 0 <= i < stack@.len() ==> !done.contains(#[trigger] stack@[i]),
                            known@.contains(root_id),
                            forall|id: u64| #[trigger] known@.contains(id) ==> reachable(all, root_id, id),
                            forall|k: int| 0 <= k < j ==> known@.contains(#[trigger] deps@[k]),
                            forall|q: u64, c: u64|
                                done.contains(q) && all.contains_key(q) && #[trigger] dependencies(all[q]).contains(c)
                                    ==> known@.contains(c),
                        decreases deps.len() - j,
                    {
                        let c = deps[j];
                        if !known.contains(&c) {
                            proof {
                                let n = choose|n: nat| #[trigger] reach_within(all, root_id, n).contains(p);
                                assert(dependencies(all[p])[j as int] == c);
                                lemma_reach_step(all, root_id, n, p, c);
                                assert(!stack@.contains(c)) by {
                                    if stack@.contains(c) {
                                        assert(Set::new(|x: u64| stack@.contains(x)).contains(c));
                                    }
                                }
                            }
                            let ghost s0 = stack@;
                            known.insert(c);
                            stack.push(c);
                            proof {
                                assert(stack@ == s0.push(c));
                                assert forall|x: u64| stack@.contains(x) <==> (s0.contains(x) || x == c) by {
                                    if stack@.contains(x) {
                                        let i = choose|i: int| 0 <= i < stack@.len() && stack@[i] == x;
                                        if i < s0.len() {
                                            assert(s0[i] == x);
                                        }
                                    }
                                    if s0.contains(x) {
                                        let i = choose|i: int| 0 <= i < s0.len() && s0[i] == x;
                                        assert(stack@[i] == x);
                                    }
                                    if x == c {
                                        assert(stack@[stack@.len() - 1] == c);
                                    }
                                }
                                assert(known@ =~= done.insert(p).union(Set::new(|x: u64| stack@.contains(x))));
                                assert forall|a: int, b: int| 0 <= a < b < stack@.len() implies stack@[a] != stack@[b] by {
                                    if b == stack@.len() - 1 {
                                        assert(s0[a] == stack@[a]);
                                                assert(s0.contains(stack@[a]));
                                    } else {
                                        assert(s0[a] == stack@[a] && s0[b] == stack@[b]);
                                    }
                                }
                                assert forall|i: int| 0 <= i < stack@.len() implies !done.contains(#[trigger] stack@[i]) by {
                                    if i < s0.len() {
                                        assert(s0[i] == stack@[i]);
                                    }
                                }
                                assert(!stack@.contains(p)) by {
                                    if stack@.contains(p) {
                                        let i = choose|i: int| 0 <= i < stack@.len() && stack@[i] == p;
                                        if i < s0.len() {
                                            assert(s0[i] == p);
                                        }
                                    }
                                }
                            }
                        }
                        j = j + 1;
                    }
                    processed.insert(p, decl);
                    proof {
                        done = done.insert(p);
                        assert(known@ =~= done.union(Set::new(|x: u64| stack@.contains(x))));
                        assert(avail@ =~= all.remove_keys(done));
                        assert(processed@ =~= all.restrict(done));
                        assert forall|q: u64, c: u64|
                            done.contains(q) && all.contains_key(q) && #[trigger] dependencies(all[q]).contains(c)
                                implies known@.contains(c) by {
                            if q == p {
                                let k = choose|k: int| 0 <= k < deps@.len() && deps@[k] == c;
                            }
                        }
                    }
                },
            }
        }
        proof {
            assert(Set::new(|x: u64| stack@.contains(x)) =~= Set::<u64>::empty());
            assert(known@ =~= done);
            assert forall|id: u64| reachable(all, root_id, id) implies done.contains(id) by {
                let n = choose|n: nat| #[trigger] reach_within(all, root_id, n).contains(id);
                lemma_closed_holds_reach(all, root_id, done, n);
            }
            assert(processed@ =~= parsed_types(all, root_id));
        }
        ComplexType::new(processed, root_id)
    }
}

impl ComplexType {
    /// Type graph with the given declarations and root type.
    pub fn new(types: HashMap<TypeId, TypeDeclaration>, root: TypeId) -> (r: Self)
        ensures
            r.graph() == types@,
            r.root_spec() == root,
    {
        ComplexType { types, root }
    }

    /// Declarations of the graph by identifier.
    pub closed spec fn graph(&self) -> Map<u64, TypeDeclaration> {
        self.types@
    }

    /// Root type id.
    pub closed spec fn root_spec(&self) -> TypeId {
        self.root
    }

    /// Return root type id.
    pub fn root(&self) -> (r: TypeId)
        ensures
            r == self.root_spec(),
    {
        self.root
    }

    /// Return name of some of a type existed in a complex type
    /// (see [`identity_at`]).
    pub fn identity(&self, typ: TypeId) -> (r: TypeIdentity)
        requires
            exists|n: nat| name_chain_ends(self.graph(), typ, n),
        ensures
            r@ == identity_of(self.graph(), typ),
    {
        let ghost n = choose|n: nat| name_chain_ends(self.graph(), typ, n);
        self.identity_within(typ, Ghost(n))
    }

    /// Name of type `typ` following at most `n` name sources.
    fn identity_within(&self, typ: TypeId, Ghost(n): Ghost<nat>) -> (r: TypeIdentity)
        requires
            name_chain_ends(self.graph(), typ, n),
        ensures
            r@ == identity_at(self.graph(), typ, n),
        decreases n,
    {
        let decl = match self.types.get(&typ) {
            None => {
                return TypeIdentity::unknown();
            },
            Some(d) => d,
        };
        match decl {
            TypeDeclaration::Scalar(s) => s.identity(),
            TypeDeclaration::Array(arr) => {
                let mut name = String::new();
                name.append("[");
                match arr.element_type {
                    Some(e) => {
                        let el = self.identity_within(e, Ghost((n - 1) as nat));
                        name.append(el.name_fmt());
                    },
                    None => {
                        name.append("unknown");
                    },
                }
                name.append("]");
                proof {
                    reveal_strlit("[");
                    reveal_strlit("]");
                    reveal_strlit("unknown");
                }
                TypeIdentity::from_parts(arr.namespaces.clone_hierarchy(), Some(name))
            },
            TypeDeclaration::CStyleEnum { namespaces, name, .. } => TypeIdentity::from_parts(
                namespaces.clone_hierarchy(),
                copy_opt(name),
            ),
            TypeDeclaration::Pointer { namespaces, name, .. } => TypeIdentity::from_parts(
                namespaces.clone_hierarchy(),
                copy_opt(name),
            ),
            TypeDeclaration::Structure { namespaces, name, .. } => TypeIdentity::from_parts(
                namespaces.clone_hierarchy(),
                copy_opt(name),
            ),
            TypeDeclaration::Union { namespaces, name, .. } => TypeIdentity::from_parts(
                namespaces.clone_hierarchy(),
                copy_opt(name),
            ),
            TypeDeclaration::RustEnum { namespaces, name, .. } => TypeIdentity::from_parts(
                namespaces.clone_hierarchy(),
                copy_opt(name),
            ),
            TypeDeclaration::Subroutine { namespaces, name, .. } => TypeIdentity::from_parts(
                namespaces.clone_hierarchy(),
                copy_opt(name),
            ),
            TypeDeclaration::ModifiedType { modifier, namespaces, name, inner } => match name {
                Some(nm) => TypeIdentity::from_parts(namespaces.clone_hierarchy(), Some(copy_string(nm))),
                None => {
                    let full = match inner {
                        Some(i) => {
                            let ident = self.identity_within(*i, Ghost((n - 1) as nat));
                            let mut s = String::new();
                            s.append(modifier.name());
                            s.append(" ");
                            s.append(ident.name_fmt());
                            proof {
                                reveal_strlit(" ");
                            }
                            Some(s)
                        },
                        None => None,
                    };
                    TypeIdentity::from_parts(namespaces.clone_hierarchy(), full)
                },
            },
        }
    }

    /// Visit type children in bfs order, `start_at` - identity of root type:
    /// the first `count` types of the walk (fewer when the walk ends sooner).
    /// The walk may be endless, as types can refer to each other.
    pub fn bfs_order(&self, start_at: TypeId, count: usize) -> (r: Vec<TypeId>)
        requires
            bfs_declared(self.graph(), seq![start_at], count as nat),
        ensures
            r@ == bfs_walk(self.graph(), seq![start_at], count as nat),
    {
        let mut queue: VecDeque<TypeId> = VecDeque::new();
        queue.push_front(start_at);
        let mut result: Vec<TypeId> = Vec::new();
        let mut i: usize = 0;
        while i < count
            invariant
                i <= count,
                bfs_declared(self.graph(), queue@, (count - i) as nat),
                bfs_walk(self.graph(), seq![start_at], count as nat) == result@ + bfs_walk(
                    self.graph(),
                    queue@,
                    (count - i) as nat,
                ),
            decreases count - i,
        {
            let ghost q = queue@;
            match queue.pop_back() {
                None => {
                    proof {
                        assert(result@ + Seq::<u64>::empty() =~= result@);
                    }
                    i = count;
                },
                Some(id) => {
                    let decl = match self.types.get(&id) {
                        Some(d) => d,
                        None => {
                            proof {
                                assert(false);
                            }
                            return result;
                        },
                    };
                    push_dependencies(decl, &mut queue);
                    proof {
                        assert(result@.push(id) + bfs_walk(self.graph(), queue@, (count - i - 1) as nat) =~= result@
                            + bfs_walk(self.graph(), q, (count - i) as nat));
                    }
                    result.push(id);
                    i = i + 1;
                },
            }
        }
        proof {
            assert(result@ + Seq::<u64>::empty() =~= result@);
        }
        result
    }

    /// Return size of a type existed from a complex type (see [`size_at`]).
    pub fn type_size_in_bytes(&self, typ: TypeId) -> (r: Option<u64>)
        requires
            exists|n: nat| size_chain_ends(self.graph(), typ, n),
        ensures
            r == size_of_type(self.graph(), typ),
    {
        let ghost n = choose|n: nat| size_chain_ends(self.graph(), typ, n);
        self.size_within(typ, Ghost(n))
    }

    /// Size of type `typ` following at most `n` size sources.
    fn size_within(&self, typ: TypeId, Ghost(n): Ghost<nat>) -> (r: Option<u64>)
        requires
            size_chain_ends(self.graph(), typ, n),
        ensures
            r == size_at(self.graph(), typ, n),
        decreases n,
    {
        let decl = match self.types.get(&typ) {
            None => {
                return None;
            },
            Some(d) => d,
        };
        match decl {
            TypeDeclaration::Scalar(s) => s.byte_size,
            TypeDeclaration::Array(arr) => {
                if arr.byte_size.is_some() {
                    return arr.byte_size;
                }
                let bounds = match arr.bounds() {
                    None => {
                        return None;
                    },
                    Some(b) => b,
                };
                let el = match arr.element_type {
                    None => {
                        return None;
                    },
                    Some(e) => e,
                };
                match self.size_within(el, Ghost((n - 1) as nat)) {
                    None => None,
                    Some(inner) => Some(inner.wrapping_mul(bounds.1.wrapping_sub(bounds.0) as u64)),
                }
            },
            TypeDeclaration::CStyleEnum { byte_size, .. } => *byte_size,
            TypeDeclaration::Pointer { .. } => Some((usize::BITS / 8) as u64),
            TypeDeclaration::Structure { byte_size, .. } => *byte_size,
            TypeDeclaration::Union { byte_size, .. } => *byte_size,
            TypeDeclaration::RustEnum { byte_size, .. } => *byte_size,
            TypeDeclaration::Subroutine { .. } => Some((usize::BITS / 8) as u64),
            TypeDeclaration::ModifiedType { inner, .. } => match inner {
                Some(i) => self.size_within(*i, Ghost((n - 1) as nat)),
                None => None,
            },
        }
    }
}

} // verus!
