//! Raw WebIDL declarations as the external parser hands them over:
//! interfaces, mixins and partial interfaces, their members and parameters.
use vstd::prelude::*;

use crate::types::IdlType;
use crate::types::IdlTypeV;
use crate::types::spec_type_ok;
use crate::types::type_ok;

verus! {

/// The kind a member is declared with. Static members carry their own kinds;
/// indexed accessors are the three keyed operations of an indexed interface.
#[derive(Clone, Copy, PartialEq, Eq, Structural, Debug)]
pub enum MemberKind {
    KConstructor,
    KMethod,
    KStaticMethod,
    KProperty,
    KStaticProperty,
    KIndexedGetter,
    KIndexedSetter,
    KIndexedDeleter,
}

/// Whether a parameter must be supplied at the call site.
#[derive(Clone, Copy, PartialEq, Eq, Structural, Debug)]
pub enum Optionality {
    Required,
    Optional,
    OptionalWithDefault,
}

/// A declared parameter of a callable member.
pub struct Param {
    pub name: String,
    pub ty: IdlType,
    pub opt: Optionality,
    pub variadic: bool,
}

/// The mathematical model of a `Param`.
pub struct ParamV {
    pub name: Seq<char>,
    pub ty: IdlTypeV,
    pub opt: Optionality,
    pub variadic: bool,
}

impl View for Param {
    type V = ParamV;

    open spec fn view(&self) -> ParamV {
        ParamV { name: self.name@, ty: self.ty@, opt: self.opt, variadic: self.variadic }
    }
}

impl Clone for Param {
    /// A clone denotes the same parameter.
    fn clone(&self) -> (r: Self)
        ensures
            r@ == self@,
    {
        Param {
            name: self.name.clone(),
            ty: self.ty.clone(),
            opt: self.opt,
            variadic: self.variadic,
        }
    }
}

/// A declared member: its name, kind, parameters (for callable kinds), return
/// type and the unforgeable and read-only flags.
pub struct Member {
    pub name: String,
    pub kind: MemberKind,
    pub params: Vec<Param>,
    pub ret: IdlType,
    pub unforgeable: bool,
    pub readonly: bool,
}

/// The mathematical model of a `Member`.
pub struct MemberV {
    pub name: Seq<char>,
    pub kind: MemberKind,
    pub params: Seq<ParamV>,
    pub ret: IdlTypeV,
    pub unforgeable: bool,
    pub readonly: bool,
}

pub open spec fn param_views(ps: Seq<Param>) -> Seq<ParamV> {
    ps.map_values(|p: Param| p@)
}

impl View for Member {
    type V = MemberV;

    open spec fn view(&self) -> MemberV {
        MemberV {
            name: self.name@,
            kind: self.kind,
            params: param_views(self.params@),
            ret: self.ret@,
            unforgeable: self.unforgeable,
            readonly: self.readonly,
        }
    }
}

/// Clones a parameter list.
fn clone_params(v: &Vec<Param>) -> (r: Vec<Param>)
    ensures
        param_views(r@) == param_views(v@),
{
    let mut r: Vec<Param> = Vec::new();
    let n = v.len();
    for i in 0..n
        invariant
            n == v@.len(),
            r@.len() == i,
            forall|k: int| 0 <= k < i ==> #[trigger] r@[k]@ == v@[k]@,
    {
        r.push(v[i].clone());
    }
    proof {
        assert(param_views(r@) =~= param_views(v@));
    }
    r
}

impl Clone for Member {
    /// A clone denotes the same member.
    fn clone(&self) -> (r: Self)
        ensures
            r@ == self@,
    {
        Member {
            name: self.name.clone(),
            kind: self.kind,
            params: clone_params(&self.params),
            ret: self.ret.clone(),
            unforgeable: self.unforgeable,
            readonly: self.readonly,
        }
    }
}

/// The standard trailing-optional rule: once a parameter is optional, every
/// later parameter is optional or variadic.
pub open spec fn params_wf(ps: Seq<ParamV>) -> bool {
    forall|i: int, j: int|
        0 <= i < j < ps.len() && ps[i].opt != Optionality::Required ==> (ps[j].opt
            != Optionality::Required || ps[j].variadic)
}

/// A member is well formed when its parameters follow the trailing-optional
/// rule and every union inside its types is distinguishable.
pub open spec fn member_wf(m: MemberV) -> bool {
    &&& params_wf(m.params)
    &&& spec_type_ok(m.ret)
    &&& forall|i: int| 0 <= i < m.params.len() ==> spec_type_ok(#[trigger] m.params[i].ty)
}

/// Checks the trailing-optional rule and the distinguishability of every
/// union in the member's types.
pub fn check_member(m: &Member) -> (r: bool)
    ensures
        r == member_wf(m@),
{
    let n = m.params.len();
    let mut seen_optional = false;
    for i in 0..n
        invariant
            n == m.params@.len(),
            seen_optional == exists|k: int|
                0 <= k < i && m@.params[k].opt != Optionality::Required,
            forall|a: int, b: int|
                0 <= a < b < i && m@.params[a].opt != Optionality::Required ==> (m@.params[b].opt
                    != Optionality::Required || m@.params[b].variadic),
            forall|k: int| 0 <= k < i ==> spec_type_ok(#[trigger] m@.params[k].ty),
    {
        let p = &m.params[i];
        let p_optional = match p.opt {
            Optionality::Required => false,
            Optionality::Optional => true,
            Optionality::OptionalWithDefault => true,
        };
        if seen_optional && !p_optional && !p.variadic {
            proof {
                let k = choose|k: int| 0 <= k < i && m@.params[k].opt != Optionality::Required;
                assert(m@.params[k].opt != Optionality::Required);
                assert(m@.params[i as int].opt == Optionality::Required);
                assert(!params_wf(m@.params));
            }
            return false;
        }
        if !type_ok(&p.ty) {
            proof {
                assert(!spec_type_ok(m@.params[i as int].ty));
            }
            return false;
        }
        seen_optional = seen_optional || p_optional;
        proof {
            if p_optional {
                assert(m@.params[i as int].opt != Optionality::Required);
            }
        }
    }
    type_ok(&m.ret)
}

/// A declared interface: its own members and the names of the mixins it
/// declares as implemented. Partial fragments of it are registered
/// separately as `PartialDecl`s.
pub struct InterfaceDecl {
    pub name: String,
    pub mixins: Vec<String>,
    pub members: Vec<Member>,
}

/// The mathematical model of an `InterfaceDecl`.
pub struct InterfaceDeclV {
    pub name: Seq<char>,
    pub mixins: Seq<Seq<char>>,
    pub members: Seq<MemberV>,
}

pub open spec fn member_views(ms: Seq<Member>) -> Seq<MemberV> {
    ms.map_values(|m: Member| m@)
}

pub open spec fn name_views(ns: Seq<String>) -> Seq<Seq<char>> {
    ns.map_values(|n: String| n@)
}

impl View for InterfaceDecl {
    type V = InterfaceDeclV;

    open spec fn view(&self) -> InterfaceDeclV {
        InterfaceDeclV {
            name: self.name@,
            mixins: name_views(self.mixins@),
            members: member_views(self.members@),
        }
    }
}

/// A mixin: a named bundle of members merged into every interface that
/// declares it as implemented. It lives only until composition has run.
pub struct MixinDecl {
    pub name: String,
    pub members: Vec<Member>,
}

/// The mathematical model of a `MixinDecl`.
pub struct MixinDeclV {
    pub name: Seq<char>,
    pub members: Seq<MemberV>,
}

impl View for MixinDecl {
    type V = MixinDeclV;

    open spec fn view(&self) -> MixinDeclV {
        MixinDeclV { name: self.name@, members: member_views(self.members@) }
    }
}

/// A partial interface: a fragment of members merged into the base interface
/// named as its target. It lives only until composition has run.
pub struct PartialDecl {
    pub target: String,
    pub members: Vec<Member>,
}

/// The mathematical model of a `PartialDecl`.
pub struct PartialDeclV {
    pub target: Seq<char>,
    pub members: Seq<MemberV>,
}

impl View for PartialDecl {
    type V = PartialDeclV;

    open spec fn view(&self) -> PartialDeclV {
        PartialDeclV { target: self.target@, members: member_views(self.members@) }
    }
}

/// Clones a member list.
pub fn clone_members(v: &Vec<Member>) -> (r: Vec<Member>)
    ensures
        member_views(r@) == member_views(v@),
{
    let mut r: Vec<Member> = Vec::new();
    let n = v.len();
    for i in 0..n
        invariant
            n == v@.len(),
            r@.len() == i,
            forall|k: int| 0 <= k < i ==> #[trigger] r@[k]@ == v@[k]@,
    {
        r.push(v[i].clone());
    }
    proof {
        assert(member_views(r@) =~= member_views(v@));
    }
    r
}

} // verus!
