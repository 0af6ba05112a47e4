//! The WebIDL type model: primitives, nullable and sequence wrappers, unions,
//! callbacks and interface references, together with the runtime-tag rules
//! that make union alternatives distinguishable at a call site.
use vstd::prelude::*;

verus! {

/// Primitive types exchanged across the boundary.
#[derive(Clone, Copy, PartialEq, Eq, Structural, Debug)]
pub enum Prim {
    PBool,
    PNum,
    PBigInt,
    PStr,
}

/// The runtime tag a host value carries. Union alternatives must be pairwise
/// distinguishable by this tag alone; everything that is not a primitive is
/// tagged as an object.
#[derive(Clone, Copy, PartialEq, Eq, Structural, Debug)]
pub enum TypeTag {
    TagString,
    TagBoolean,
    TagNumber,
    TagBigInt,
    TagObject,
}

/// One alternative of a union type: a primitive, or an object-tagged value
/// (interface reference, sequence, callback), which the runtime tag cannot
/// tell apart any further.
#[derive(Clone, Copy, PartialEq, Eq, Structural, Debug)]
pub enum UnionAlt {
    APrim(Prim),
    AObject,
}

/// A WebIDL type. Callbacks carry their parameter primitives and return
/// primitive; interface references carry the referenced interface name.
pub enum IdlType {
    TPrim(Prim),
    TNullable(Box<IdlType>),
    TSequence(Box<IdlType>),
    TUnion(Vec<UnionAlt>),
    TCallback(Vec<Prim>, Prim),
    TInterface(String),
}

/// The mathematical model of an `IdlType`.
pub enum IdlTypeV {
    VPrim(Prim),
    VNullable(Box<IdlTypeV>),
    VSequence(Box<IdlTypeV>),
    VUnion(Seq<UnionAlt>),
    VCallback(Seq<Prim>, Prim),
    VInterface(Seq<char>),
}

impl View for IdlType {
    type V = IdlTypeV;

    open spec fn view(&self) -> IdlTypeV
        decreases self,
    {
        match self {
            IdlType::TPrim(p) => IdlTypeV::VPrim(*p),
            IdlType::TNullable(t) => IdlTypeV::VNullable(Box::new((**t)@)),
            IdlType::TSequence(t) => IdlTypeV::VSequence(Box::new((**t)@)),
            IdlType::TUnion(alts) => IdlTypeV::VUnion(alts@),
            IdlType::TCallback(ps, r) => IdlTypeV::VCallback(ps@, *r),
            IdlType::TInterface(n) => IdlTypeV::VInterface(n@),
        }
    }
}

pub open spec fn spec_tag_of_prim(p: Prim) -> TypeTag {
    match p {
        Prim::PStr => TypeTag::TagString,
        Prim::PBool => TypeTag::TagBoolean,
        Prim::PNum => TypeTag::TagNumber,
        Prim::PBigInt => TypeTag::TagBigInt,
    }
}

pub open spec fn spec_tag_of_alt(a: UnionAlt) -> TypeTag {
    match a {
        UnionAlt::APrim(p) => spec_tag_of_prim(p),
        UnionAlt::AObject => TypeTag::TagObject,
    }
}

/// The runtime tag of a union alternative.
pub fn tag_of_alt(a: UnionAlt) -> (t: TypeTag)
    ensures
        t == spec_tag_of_alt(a),
{
    match a {
        UnionAlt::APrim(Prim::PStr) => TypeTag::TagString,
        UnionAlt::APrim(Prim::PBool) => TypeTag::TagBoolean,
        UnionAlt::APrim(Prim::PNum) => TypeTag::TagNumber,
        UnionAlt::APrim(Prim::PBigInt) => TypeTag::TagBigInt,
        UnionAlt::AObject => TypeTag::TagObject,
    }
}

/// A union is distinguishable when no two alternatives carry the same
/// runtime tag.
pub open spec fn union_distinguishable(alts: Seq<UnionAlt>) -> bool {
    forall|i: int, j: int|
        0 <= i < j < alts.len() ==> spec_tag_of_alt(alts[i]) != spec_tag_of_alt(alts[j])
}

/// Decides whether the alternatives of a union are pairwise distinguishable
/// by their runtime tag; an ambiguous union is a compile-time error.
pub fn check_union(alts: &Vec<UnionAlt>) -> (r: bool)
    ensures
        r == union_distinguishable(alts@),
{
    let n = alts.len();
    for j in 0..n
        invariant
            n == alts@.len(),
            forall|a: int, b: int| 0 <= a < b < j ==> spec_tag_of_alt(alts@[a]) != spec_tag_of_alt(alts@[b]),
    {
        for i in 0..j
            invariant
                j < n == alts@.len(),
                forall|a: int| 0 <= a < i ==> spec_tag_of_alt(alts@[a]) != spec_tag_of_alt(alts@[j as int]),
        {
            if tag_of_alt(alts[i]) == tag_of_alt(alts[j]) {
                return false;
            }
        }
    }
    true
}

/// Every union reachable inside the type is distinguishable.
pub open spec fn spec_type_ok(t: IdlTypeV) -> bool
    decreases t,
{
    match t {
        IdlTypeV::VPrim(_) => true,
        IdlTypeV::VNullable(b) => spec_type_ok(*b),
        IdlTypeV::VSequence(b) => spec_type_ok(*b),
        IdlTypeV::VUnion(alts) => union_distinguishable(alts),
        IdlTypeV::VCallback(_, _) => true,
        IdlTypeV::VInterface(_) => true,
    }
}

/// Checks that every union reachable inside the type is distinguishable.
pub fn type_ok(t: &IdlType) -> (r: bool)
    ensures
        r == spec_type_ok(t@),
    decreases *t,
{
    match t {
        IdlType::TPrim(_) => true,
        IdlType::TNullable(b) => type_ok(b),
        IdlType::TSequence(b) => type_ok(b),
        IdlType::TUnion(alts) => check_union(alts),
        IdlType::TCallback(_, _) => true,
        IdlType::TInterface(_) => true,
    }
}

/// A nullable type asks the emitter for an absent-vs-present wrapper.
pub open spec fn spec_is_nullable(t: IdlTypeV) -> bool {
    t is VNullable
}

/// Whether the emitter must wrap this type in an absent-vs-present result.
pub fn is_nullable(t: &IdlType) -> (r: bool)
    ensures
        r == spec_is_nullable(t@),
{
    match t {
        IdlType::TNullable(_) => true,
        _ => false,
    }
}

/// The static type family used for overload disambiguation: the runtime tag
/// a value of the type would carry, or `None` for a union, whose tag is only
/// known dynamically.
pub open spec fn spec_family_of(t: IdlTypeV) -> Option<TypeTag>
    decreases t,
{
    match t {
        IdlTypeV::VPrim(p) => Some(spec_tag_of_prim(p)),
        IdlTypeV::VNullable(b) => spec_family_of(*b),
        IdlTypeV::VSequence(_) => Some(TypeTag::TagObject),
        IdlTypeV::VUnion(_) => None,
        IdlTypeV::VCallback(_, _) => Some(TypeTag::TagObject),
        IdlTypeV::VInterface(_) => Some(TypeTag::TagObject),
    }
}

/// The static type family of a type, used to tell overloads apart.
pub fn family_of(t: &IdlType) -> (r: Option<TypeTag>)
    ensures
        r == spec_family_of(t@),
    decreases *t,
{
    match t {
        IdlType::TPrim(p) => Some(tag_of_alt(UnionAlt::APrim(*p))),
        IdlType::TNullable(b) => family_of(b),
        IdlType::TSequence(_) => Some(TypeTag::TagObject),
        IdlType::TUnion(_) => None,
        IdlType::TCallback(_, _) => Some(TypeTag::TagObject),
        IdlType::TInterface(_) => Some(TypeTag::TagObject),
    }
}

/// Copies a vector of union alternatives.
fn copy_alts(v: &Vec<UnionAlt>) -> (r: Vec<UnionAlt>)
    ensures
        r@ == v@,
{
    let mut r: Vec<UnionAlt> = Vec::new();
    let n = v.len();
    for i in 0..n
        invariant
            n == v@.len(),
            r@ == v@.take(i as int),
    {
        r.push(v[i]);
        proof {
            assert(v@.take(i + 1) =~= v@.take(i as int).push(v@[i as int]));
        }
    }
    proof {
        assert(v@.take(n as int) =~= v@);
    }
    r
}

/// Copies a vector of primitives.
fn copy_prims(v: &Vec<Prim>) -> (r: Vec<Prim>)
    ensures
        r@ == v@,
{
    let mut r: Vec<Prim> = Vec::new();
    let n = v.len();
    for i in 0..n
        invariant
            n == v@.len(),
            r@ == v@.take(i as int),
    {
        r.push(v[i]);
        proof {
            assert(v@.take(i + 1) =~= v@.take(i as int).push(v@[i as int]));
        }
    }
    proof {
        assert(v@.take(n as int) =~= v@);
    }
    r
}

impl Clone for IdlType {
    /// A clone denotes the same type.
    fn clone(&self) -> (r: Self)
        ensures
            r@ == self@,
        decreases *self,
    {
        match self {
            IdlType::TPrim(p) => IdlType::TPrim(*p),
            IdlType::TNullable(b) => IdlType::TNullable(Box::new((**b).clone())),
            IdlType::TSequence(b) => IdlType::TSequence(Box::new((**b).clone())),
            IdlType::TUnion(alts) => IdlType::TUnion(copy_alts(alts)),
            IdlType::TCallback(ps, r) => IdlType::TCallback(copy_prims(ps), *r),
            IdlType::TInterface(n) => IdlType::TInterface(n.clone()),
        }
    }
}

} // verus!
