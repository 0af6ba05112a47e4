//! The member classifier: tags each resolved member with the role metadata
//! the emitter needs — constructor, instance or static method, accessor pair,
//! or one of the three indexed operations — and marks unforgeable members and
//! nullable return types.
use vstd::prelude::*;

use crate::decl::Member;
use crate::decl::MemberKind;
use crate::decl::MemberV;
use crate::types::spec_is_nullable;
use crate::types::is_nullable;

verus! {

/// The final role of one callable path. A property yields an accessor pair:
/// a getter role and, unless it is read-only, a setter role.
#[derive(Clone, Copy, PartialEq, Eq, Structural, Debug)]
pub enum Role {
    RoleConstructor,
    RoleMethod,
    RoleStaticMethod,
    RoleGetter,
    RoleSetter,
    RoleStaticGetter,
    RoleStaticSetter,
    RoleIndexedGetter,
    RoleIndexedSetter,
    RoleIndexedDeleter,
}

/// The roles a member resolves to: one per callable path, in emission order.
pub open spec fn spec_roles_of(m: MemberV) -> Seq<Role> {
    match m.kind {
        MemberKind::KConstructor => seq![Role::RoleConstructor],
        MemberKind::KMethod => seq![Role::RoleMethod],
        MemberKind::KStaticMethod => seq![Role::RoleStaticMethod],
        MemberKind::KProperty => if m.readonly {
            seq![Role::RoleGetter]
        } else {
            seq![Role::RoleGetter, Role::RoleSetter]
        },
        MemberKind::KStaticProperty => if m.readonly {
            seq![Role::RoleStaticGetter]
        } else {
            seq![Role::RoleStaticGetter, Role::RoleStaticSetter]
        },
        MemberKind::KIndexedGetter => seq![Role::RoleIndexedGetter],
        MemberKind::KIndexedSetter => seq![Role::RoleIndexedSetter],
        MemberKind::KIndexedDeleter => seq![Role::RoleIndexedDeleter],
    }
}

/// Whether the member is reachable without an instance.
pub open spec fn spec_is_static(k: MemberKind) -> bool {
    k == MemberKind::KStaticMethod || k == MemberKind::KStaticProperty
}

/// The roles of a member, in emission order.
pub fn roles_of(m: &Member) -> (r: Vec<Role>)
    ensures
        r@ == spec_roles_of(m@),
{
    let mut r: Vec<Role> = Vec::new();
    match m.kind {
        MemberKind::KConstructor => r.push(Role::RoleConstructor),
        MemberKind::KMethod => r.push(Role::RoleMethod),
        MemberKind::KStaticMethod => r.push(Role::RoleStaticMethod),
        MemberKind::KProperty => {
            r.push(Role::RoleGetter);
            if !m.readonly {
                r.push(Role::RoleSetter);
            }
        },
        MemberKind::KStaticProperty => {
            r.push(Role::RoleStaticGetter);
            if !m.readonly {
                r.push(Role::RoleStaticSetter);
            }
        },
        MemberKind::KIndexedGetter => r.push(Role::RoleIndexedGetter),
        MemberKind::KIndexedSetter => r.push(Role::RoleIndexedSetter),
        MemberKind::KIndexedDeleter => r.push(Role::RoleIndexedDeleter),
    }
    proof {
        assert(r@ =~= spec_roles_of(m@));
    }
    r
}

/// Whether the member is reachable without an instance.
pub fn member_is_static(m: &Member) -> (r: bool)
    ensures
        r == spec_is_static(m@.kind),
{
    match m.kind {
        MemberKind::KStaticMethod => true,
        MemberKind::KStaticProperty => true,
        _ => false,
    }
}

/// Whether the emitter must give the member's result an absent-vs-present
/// wrapper rather than a boundary-specific null sentinel.
pub fn member_returns_nullable(m: &Member) -> (r: bool)
    ensures
        r == spec_is_nullable(m@.ret),
{
    is_nullable(&m.ret)
}

} // verus!
