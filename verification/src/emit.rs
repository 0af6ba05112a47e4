//! The binding emitter: consumes the fully resolved, classified interface
//! model and produces the callable surface description — one emitted entry
//! per callable path of every binding, one emitted unit per interface. A
//! setter path is reachable under `set_` before its accessor's name; actual
//! value marshalling is left to the boundary runtime.
use vstd::prelude::*;
use vstd::string::StringExecFns;

use crate::CompileError;
use crate::CompileErrorV;
use crate::classify::Role;
use crate::classify::member_is_static;
use crate::classify::member_returns_nullable;
use crate::classify::roles_of;
use crate::classify::spec_is_static;
use crate::classify::spec_roles_of;
use crate::compose::incoming_conflict;
use crate::compose::mixin_found;
use crate::compose::resolve_interface;
use crate::compose::resolved_from;
use crate::overload::Binding;
use crate::overload::BindingV;
use crate::overload::all_members_wf;
use crate::overload::binding_views;
use crate::overload::has_ambiguity;
use crate::overload::overloads_resolved;
use crate::overload::resolve_overloads;
use crate::registry::Registry;
use crate::types::spec_is_nullable;

verus! {

/// One callable path of the emitted surface.
pub struct EmittedMember {
    pub emitted: String,
    pub role: Role,
    pub unforgeable: bool,
    pub nullable_ret: bool,
    pub is_static: bool,
}

/// The mathematical model of an `EmittedMember`.
pub struct EmittedMemberV {
    pub emitted: Seq<char>,
    pub role: Role,
    pub unforgeable: bool,
    pub nullable_ret: bool,
    pub is_static: bool,
}

impl View for EmittedMember {
    type V = EmittedMemberV;

    open spec fn view(&self) -> EmittedMemberV {
        EmittedMemberV {
            emitted: self.emitted@,
            role: self.role,
            unforgeable: self.unforgeable,
            nullable_ret: self.nullable_ret,
            is_static: self.is_static,
        }
    }
}

/// The name a role is reachable under: a setter path gets `set_` before its
/// accessor's resolved name.
pub open spec fn emitted_for_role(e: Seq<char>, role: Role) -> Seq<char> {
    if role == Role::RoleSetter || role == Role::RoleStaticSetter {
        "set_"@ + e
    } else {
        e
    }
}

/// The emitted entry for one callable path of a binding.
pub open spec fn emitted_member_of(b: BindingV, role: Role) -> EmittedMemberV {
    EmittedMemberV {
        emitted: emitted_for_role(b.emitted, role),
        role,
        unforgeable: b.member.unforgeable,
        nullable_ret: spec_is_nullable(b.member.ret),
        is_static: spec_is_static(b.member.kind),
    }
}

/// All emitted entries of one binding, in emission order.
pub open spec fn per_binding(b: BindingV) -> Seq<EmittedMemberV> {
    Seq::new(spec_roles_of(b.member).len(), |i: int| emitted_member_of(b, spec_roles_of(b.member)[i]))
}

/// All emitted entries of a binding list, in order.
pub open spec fn emitted_members_of(bs: Seq<BindingV>) -> Seq<EmittedMemberV>
    decreases bs.len(),
{
    if bs.len() == 0 {
        Seq::empty()
    } else {
        emitted_members_of(bs.drop_last()) + per_binding(bs.last())
    }
}

/// One emitted callable unit per interface.
pub struct EmittedInterface {
    pub name: String,
    pub members: Vec<EmittedMember>,
}

/// The mathematical model of an `EmittedInterface`.
pub struct EmittedInterfaceV {
    pub name: Seq<char>,
    pub members: Seq<EmittedMemberV>,
}

impl View for EmittedInterface {
    type V = EmittedInterfaceV;

    open spec fn view(&self) -> EmittedInterfaceV {
        EmittedInterfaceV {
            name: self.name@,
            members: self.members@.map_values(|m: EmittedMember| m@),
        }
    }
}

/// Emits the callable paths of one binding: the member's roles in order,
/// each reachable under the role's name, carrying the unforgeable mark and
/// the absent-vs-present mark for a nullable return.
pub fn emit_binding(b: &Binding) -> (r: Vec<EmittedMember>)
    ensures
        r@.map_values(|m: EmittedMember| m@) == per_binding(b@),
{
    let roles = roles_of(&b.member);
    let unforgeable = b.member.unforgeable;
    let nullable_ret = member_returns_nullable(&b.member);
    let is_static = member_is_static(&b.member);
    let mut r: Vec<EmittedMember> = Vec::new();
    let n = roles.len();
    for i in 0..n
        invariant
            n == roles@.len(),
            roles@ == spec_roles_of(b@.member),
            unforgeable == b@.member.unforgeable,
            nullable_ret == spec_is_nullable(b@.member.ret),
            is_static == spec_is_static(b@.member.kind),
            r@.len() == i,
            forall|k: int| 0 <= k < i ==> #[trigger] r@[k]@ == per_binding(b@)[k],
    {
        let role = roles[i];
        let is_setter = match role {
            Role::RoleSetter => true,
            Role::RoleStaticSetter => true,
            _ => false,
        };
        let emitted = if is_setter {
            let mut s = String::from_str("set_");
            s.append(b.emitted.as_str());
            s
        } else {
            b.emitted.clone()
        };
        r.push(EmittedMember { emitted, role, unforgeable, nullable_ret, is_static });
        proof {
            assert(r@[i as int]@ == per_binding(b@)[i as int]);
        }
    }
    proof {
        assert(r@.map_values(|m: EmittedMember| m@) =~= per_binding(b@));
    }
    r
}

/// Emits the callable unit of one interface from its resolved bindings.
pub fn emit_interface(name: &String, bindings: &Vec<Binding>) -> (r: EmittedInterface)
    ensures
        r@.name == name@,
        r@.members == emitted_members_of(binding_views(bindings@)),
{
    let mut ems: Vec<EmittedMember> = Vec::new();
    let n = bindings.len();
    for k in 0..n
        invariant
            n == bindings@.len(),
            ems@.map_values(|m: EmittedMember| m@) == emitted_members_of(
                binding_views(bindings@).take(k as int),
            ),
    {
        let mut add = emit_binding(&bindings[k]);
        let ghost before = ems@;
        let ghost addv = add@;
        ems.append(&mut add);
        proof {
            let bvs = binding_views(bindings@);
            assert(bvs.take(k + 1).drop_last() =~= bvs.take(k as int));
            assert(bvs.take(k + 1).last() == bvs[k as int]);
            assert(bvs[k as int] == bindings@[k as int]@);
            assert(ems@.map_values(|m: EmittedMember| m@) =~= before.map_values(
                |m: EmittedMember| m@,
            ) + addv.map_values(|m: EmittedMember| m@));
            assert(ems@.map_values(|m: EmittedMember| m@) =~= emitted_members_of(bvs.take(k + 1)));
        }
    }
    proof {
        assert(binding_views(bindings@).take(n as int) =~= binding_views(bindings@));
    }
    EmittedInterface { name: name.clone(), members: ems }
}

/// What the full pipeline guarantees of one interface's emitted unit.
pub open spec fn compiled_from(reg: Registry, idx: int, ei: EmittedInterfaceV) -> bool {
    exists|riv: crate::compose::ResolvedInterfaceV, bsv: Seq<BindingV>|
        {
            &&& resolved_from(reg@, reg@.interfaces[idx], riv)
            &&& #[trigger] overloads_resolved(riv.members, bsv)
            &&& ei.name == reg@.interfaces[idx].name
            &&& ei.members == #[trigger] emitted_members_of(bsv)
        }
}

/// What a failing slot reports: a conflict or an unknown mixin names the
/// interface or mixin it arose from, and an ambiguity names the interface
/// whose resolved members it was found among.
pub open spec fn compile_error_from(reg: Registry, idx: int, e: CompileErrorV) -> bool {
    match e {
        CompileErrorV::VMemberConflict(iname, _) => iname == reg@.interfaces[idx].name
            && incoming_conflict(reg@, reg@.interfaces[idx]),
        CompileErrorV::VUnknownInterface(nm) => reg@.interfaces[idx].mixins.contains(nm)
            && !mixin_found(reg@, nm),
        CompileErrorV::VAmbiguousOverload(iname, _) => iname == reg@.interfaces[idx].name
            && exists|riv: crate::compose::ResolvedInterfaceV|
            #[trigger] resolved_from(reg@, reg@.interfaces[idx], riv) && (has_ambiguity(
                riv.members,
            ) || !all_members_wf(riv.members)),
        CompileErrorV::VDuplicateInterface(_) => false,
    }
}

/// Compiles every registered interface: composition, overload resolution and
/// emission per interface. A compile-time failure is fatal to the affected
/// interface only — its slot carries the error, naming the offending
/// interface or member, and every other interface is still resolved.
pub fn compile_all(reg: &Registry) -> (r: Vec<Result<EmittedInterface, CompileError>>)
    requires
        reg.wf(),
    ensures
        r@.len() == reg@.interfaces.len(),
        forall|i: int|
            0 <= i < r@.len() ==> match #[trigger] r@[i] {
                Ok(ei) => compiled_from(*reg, i, ei@),
                Err(e) => compile_error_from(*reg, i, e@),
            },
{
    let n = reg.interfaces.len();
    let mut r: Vec<Result<EmittedInterface, CompileError>> = Vec::new();
    for i in 0..n
        invariant
            reg.wf(),
            n == reg@.interfaces.len(),
            r@.len() == i,
            forall|k: int|
                0 <= k < i ==> match #[trigger] r@[k] {
                    Ok(ei) => compiled_from(*reg, k, ei@),
                    Err(e) => compile_error_from(*reg, k, e@),
                },
    {
        let out: Result<EmittedInterface, CompileError> = match resolve_interface(reg, i) {
            Ok(ri) => {
                match resolve_overloads(&ri.name, &ri.members) {
                    Ok(bs) => {
                        let ei = emit_interface(&ri.name, &bs);
                        proof {
                            assert(overloads_resolved(ri@.members, binding_views(bs@)));
                            assert(emitted_members_of(binding_views(bs@)) == ei@.members);
                            assert(compiled_from(*reg, i as int, ei@));
                        }
                        Ok(ei)
                    },
                    Err(e) => {
                        proof {
                            assert(resolved_from(reg@, reg@.interfaces[i as int], ri@));
                            assert(has_ambiguity(ri@.members) || !all_members_wf(ri@.members));
                            assert(ri@.name == reg@.interfaces[i as int].name);
                            assert(compile_error_from(*reg, i as int, e@));
                        }
                        Err(e)
                    },
                }
            },
            Err(e) => Err(e),
        };
        r.push(out);
    }
    r
}

} // verus!
