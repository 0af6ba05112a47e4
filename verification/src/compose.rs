//! The composition resolver: produces one canonical member list per declared
//! interface by splicing in every partial interface targeting it and every
//! mixin it declares as implemented, in declaration order.
//!
//! Policy: a name collision between a base member and an incoming partial or
//! mixin member of a different kind fails with `MemberConflict`. Collisions
//! among partial members targeting the same interface are resolved by
//! last-registration-wins: the later partial member replaces the earlier one.
//! Mixin members are appended after all partials and are never replaced.
//! Unforgeable members keep their flag through the merge, since members are
//! spliced whole. Mixins are resolved by lookup at merge time, never by
//! eager structural embedding, so mutually referential interface graphs
//! cannot recurse. The registry is read-only input here: members are copied,
//! not moved, into the canonical list, and once every interface is resolved
//! the mixin and partial declarations play no further part.
use vstd::prelude::*;

use crate::CompileError;
use crate::CompileErrorV;
use crate::decl::InterfaceDeclV;
use crate::decl::Member;
use crate::decl::MemberV;
use crate::decl::PartialDeclV;
use crate::decl::clone_members;
use crate::decl::member_views;
use crate::registry::Registry;
use crate::registry::RegistryV;

verus! {

/// One interface after composition: its canonical member list. The base
/// members come first, then the spliced partial members, then the mixin
/// members.
pub struct ResolvedInterface {
    pub name: String,
    pub base_len: usize,
    pub members: Vec<Member>,
}

/// The mathematical model of a `ResolvedInterface`.
pub struct ResolvedInterfaceV {
    pub name: Seq<char>,
    pub base_len: int,
    pub members: Seq<MemberV>,
}

impl View for ResolvedInterface {
    type V = ResolvedInterfaceV;

    open spec fn view(&self) -> ResolvedInterfaceV {
        ResolvedInterfaceV {
            name: self.name@,
            base_len: self.base_len as int,
            members: member_views(self.members@),
        }
    }
}

/// The member collides with a base member of a different kind.
pub open spec fn base_conflict(base: Seq<MemberV>, m: MemberV) -> bool {
    exists|i: int|
        0 <= i < base.len() && (#[trigger] base[i]).name == m.name && base[i].kind != m.kind
}

/// The member is declared by some partial interface targeting `target`.
pub open spec fn from_partial(reg: RegistryV, target: Seq<char>, m: MemberV) -> bool {
    exists|p: int, i: int|
        0 <= p < reg.partials.len() && reg.partials[p].target == target && 0 <= i
            < reg.partials[p].members.len() && (#[trigger] reg.partials[p].members[i]) == m
}

/// The member is declared by some registered mixin whose name is listed.
pub open spec fn from_mixin(reg: RegistryV, mixin_names: Seq<Seq<char>>, m: MemberV) -> bool {
    exists|k: int, i: int|
        0 <= k < reg.mixins.len() && mixin_names.contains(reg.mixins[k].name) && 0 <= i
            < reg.mixins[k].members.len() && (#[trigger] reg.mixins[k].members[i]) == m
}

/// Some mixin is registered under the name.
pub open spec fn mixin_found(reg: RegistryV, n: Seq<char>) -> bool {
    exists|k: int| 0 <= k < reg.mixins.len() && (#[trigger] reg.mixins[k]).name == n
}

/// Every mixin the interface lists is registered.
pub open spec fn mixins_all_found(reg: RegistryV, d: InterfaceDeclV) -> bool {
    forall|x: int| 0 <= x < d.mixins.len() ==> mixin_found(reg, #[trigger] d.mixins[x])
}

/// Some incoming partial or mixin member collides with a base member of a
/// different kind.
pub open spec fn incoming_conflict(reg: RegistryV, d: InterfaceDeclV) -> bool {
    ||| exists|p: int, i: int|
        0 <= p < reg.partials.len() && reg.partials[p].target == d.name && 0 <= i
            < reg.partials[p].members.len() && base_conflict(
            d.members,
            #[trigger] reg.partials[p].members[i],
        )
    ||| exists|k: int, i: int|
        0 <= k < reg.mixins.len() && d.mixins.contains(reg.mixins[k].name) && 0 <= i
            < reg.mixins[k].members.len() && base_conflict(
            d.members,
            #[trigger] reg.mixins[k].members[i],
        )
}

/// The partial zone of a member list under construction: everything past the
/// base came from an applicable partial, collides with no base member of
/// another kind, and carries pairwise-distinct names (last registration
/// wins).
pub open spec fn partial_zone_inv(
    reg: RegistryV,
    dv: InterfaceDeclV,
    ms: Seq<MemberV>,
    base_len: int,
) -> bool {
    &&& base_len == dv.members.len()
    &&& ms.len() >= base_len
    &&& ms.take(base_len) == dv.members
    &&& forall|j: int| base_len <= j < ms.len() ==> from_partial(reg, dv.name, #[trigger] ms[j])
    &&& forall|j: int| base_len <= j < ms.len() ==> !base_conflict(dv.members, #[trigger] ms[j])
    &&& forall|j: int, k: int|
        base_len <= j < k < ms.len() ==> (#[trigger] ms[j]).name != (#[trigger] ms[k]).name
}

/// What composition guarantees of a resolved interface: the member list is
/// exactly the base members, then the partial zone (every applicable
/// partial's members in registration order, the last same-named one winning,
/// so its names are pairwise distinct), then the mixin zone (every listed
/// mixin's members, whole and in listing order); nothing spliced collides
/// with a base member of another kind.
pub open spec fn resolved_from(reg: RegistryV, dv: InterfaceDeclV, r: ResolvedInterfaceV) -> bool {
    &&& r.members == dv.members + partial_zone_of(reg, dv) + mixin_zone_of(reg, dv.mixins)
    &&& r.name == dv.name
    &&& r.base_len == dv.members.len()
    &&& r.members.len() >= dv.members.len()
    &&& r.members.take(dv.members.len() as int) == dv.members
    &&& forall|j: int|
        dv.members.len() <= j < r.members.len() ==> !base_conflict(
            dv.members,
            #[trigger] r.members[j],
        )
    &&& exists|pe: int|
        {
            &&& dv.members.len() <= pe <= r.members.len()
            &&& partial_zone_inv(reg, dv, r.members.take(pe), dv.members.len() as int)
            &&& forall|j: int|
                pe <= j < r.members.len() ==> from_mixin(reg, dv.mixins, #[trigger] r.members[j])
        }
    &&& forall|k: int, i: int|
        0 <= k < reg.mixins.len() && d_lists_mixin(dv, reg.mixins[k].name) && 0 <= i
            < reg.mixins[k].members.len() ==> r.members.contains(
            #[trigger] reg.mixins[k].members[i],
        )
}

/// The interface lists the mixin name as implemented.
pub open spec fn d_lists_mixin(dv: InterfaceDeclV, n: Seq<char>) -> bool {
    dv.mixins.contains(n)
}

/// One partial member spliced into the zone: a same-named earlier zone
/// member is replaced in place (last registration wins); a new name is
/// appended.
pub open spec fn splice_one(zone: Seq<MemberV>, m: MemberV) -> Seq<MemberV> {
    if exists|j: int| 0 <= j < zone.len() && (#[trigger] zone[j]).name == m.name {
        zone.update(
            choose|j: int| 0 <= j < zone.len() && (#[trigger] zone[j]).name == m.name,
            m,
        )
    } else {
        zone.push(m)
    }
}

/// A member list spliced into the zone, in declaration order.
pub open spec fn splice_list(zone: Seq<MemberV>, ms: Seq<MemberV>) -> Seq<MemberV>
    decreases ms.len(),
{
    if ms.len() == 0 {
        zone
    } else {
        splice_list(splice_one(zone, ms[0]), ms.drop_first())
    }
}

/// Every partial targeting the interface spliced into the zone, in
/// registration order.
pub open spec fn splice_partials(
    zone: Seq<MemberV>,
    partials: Seq<PartialDeclV>,
    target: Seq<char>,
) -> Seq<MemberV>
    decreases partials.len(),
{
    if partials.len() == 0 {
        zone
    } else {
        let z = if partials[0].target == target {
            splice_list(zone, partials[0].members)
        } else {
            zone
        };
        splice_partials(z, partials.drop_first(), target)
    }
}

/// The partial zone the interface resolves to: the members of every partial
/// targeting it, in registration order, the last same-named member winning.
pub open spec fn partial_zone_of(reg: RegistryV, dv: InterfaceDeclV) -> Seq<MemberV> {
    splice_partials(Seq::<MemberV>::empty(), reg.partials, dv.name)
}

/// The index of the mixin registered under the name.
pub open spec fn mixin_idx(reg: RegistryV, n: Seq<char>) -> int {
    choose|k: int| 0 <= k < reg.mixins.len() && (#[trigger] reg.mixins[k]).name == n
}

/// The mixin zone the interface resolves to: the members of each listed
/// mixin, whole and in declaration order of the listing.
pub open spec fn mixin_zone_of(reg: RegistryV, names: Seq<Seq<char>>) -> Seq<MemberV>
    decreases names.len(),
{
    if names.len() == 0 {
        Seq::<MemberV>::empty()
    } else {
        reg.mixins[mixin_idx(reg, names[0])].members + mixin_zone_of(reg, names.drop_first())
    }
}

proof fn lemma_splice_list_push(zone: Seq<MemberV>, ms: Seq<MemberV>, m: MemberV)
    ensures
        splice_list(zone, ms.push(m)) == splice_one(splice_list(zone, ms), m),
    decreases ms.len(),
{
    if ms.len() == 0 {
        assert(ms.push(m)[0] == m);
        assert(ms.push(m).drop_first() =~= ms);
        assert(splice_list(zone, ms.push(m)) == splice_list(splice_one(zone, m), ms));
        assert(splice_list(splice_one(zone, m), ms) == splice_one(zone, m));
        assert(splice_list(zone, ms) == zone);
    } else {
        assert(ms.push(m)[0] == ms[0]);
        assert(ms.push(m).drop_first() =~= ms.drop_first().push(m));
        assert(splice_list(zone, ms.push(m)) == splice_list(
            splice_one(zone, ms[0]),
            ms.drop_first().push(m),
        ));
        lemma_splice_list_push(splice_one(zone, ms[0]), ms.drop_first(), m);
        assert(splice_list(zone, ms) == splice_list(splice_one(zone, ms[0]), ms.drop_first()));
    }
}

proof fn lemma_splice_partials_push(
    zone: Seq<MemberV>,
    partials: Seq<PartialDeclV>,
    p: PartialDeclV,
    target: Seq<char>,
)
    ensures
        splice_partials(zone, partials.push(p), target) == if p.target == target {
            splice_list(splice_partials(zone, partials, target), p.members)
        } else {
            splice_partials(zone, partials, target)
        },
    decreases partials.len(),
{
    if partials.len() == 0 {
        assert(partials.push(p)[0] == p);
        assert(partials.push(p).drop_first() =~= partials);
        let z = if p.target == target {
            splice_list(zone, p.members)
        } else {
            zone
        };
        assert(splice_partials(zone, partials.push(p), target) == splice_partials(
            z,
            partials,
            target,
        ));
        assert(splice_partials(z, partials, target) == z);
        assert(splice_partials(zone, partials, target) == zone);
    } else {
        assert(partials.push(p)[0] == partials[0]);
        assert(partials.push(p).drop_first() =~= partials.drop_first().push(p));
        let z = if partials[0].target == target {
            splice_list(zone, partials[0].members)
        } else {
            zone
        };
        assert(splice_partials(zone, partials.push(p), target) == splice_partials(
            z,
            partials.drop_first().push(p),
            target,
        ));
        lemma_splice_partials_push(z, partials.drop_first(), p, target);
        assert(splice_partials(zone, partials, target) == splice_partials(
            z,
            partials.drop_first(),
            target,
        ));
    }
}

proof fn lemma_mixin_zone_push(reg: RegistryV, names: Seq<Seq<char>>, n: Seq<char>)
    ensures
        mixin_zone_of(reg, names.push(n)) == mixin_zone_of(reg, names) + reg.mixins[mixin_idx(
            reg,
            n,
        )].members,
    decreases names.len(),
{
    if names.len() == 0 {
        assert(names.push(n)[0] == n);
        assert(names.push(n).drop_first() =~= names);
        assert(mixin_zone_of(reg, names.push(n)) == reg.mixins[mixin_idx(reg, n)].members
            + mixin_zone_of(reg, names));
        assert(mixin_zone_of(reg, names) =~= Seq::<MemberV>::empty());
        assert(reg.mixins[mixin_idx(reg, n)].members + mixin_zone_of(reg, names) =~= reg.mixins[
            mixin_idx(reg, n)
        ].members);
        assert(mixin_zone_of(reg, names) + reg.mixins[mixin_idx(reg, n)].members =~= reg.mixins[
            mixin_idx(reg, n)
        ].members);
    } else {
        assert(names.push(n)[0] == names[0]);
        assert(names.push(n).drop_first() =~= names.drop_first().push(n));
        assert(mixin_zone_of(reg, names.push(n)) == reg.mixins[mixin_idx(reg, names[0])].members
            + mixin_zone_of(reg, names.drop_first().push(n)));
        lemma_mixin_zone_push(reg, names.drop_first(), n);
        assert(mixin_zone_of(reg, names) == reg.mixins[mixin_idx(reg, names[0])].members
            + mixin_zone_of(reg, names.drop_first()));
        assert(reg.mixins[mixin_idx(reg, names[0])].members + (mixin_zone_of(
            reg,
            names.drop_first(),
        ) + reg.mixins[mixin_idx(reg, n)].members) =~= (reg.mixins[mixin_idx(
            reg,
            names[0],
        )].members + mixin_zone_of(reg, names.drop_first())) + reg.mixins[mixin_idx(
            reg,
            n,
        )].members);
    }
}

proof fn lemma_splice_one_found(zone: Seq<MemberV>, m: MemberV, jz: int)
    requires
        0 <= jz < zone.len(),
        zone[jz].name == m.name,
        forall|a: int, b: int|
            0 <= a < b < zone.len() ==> (#[trigger] zone[a]).name != (#[trigger] zone[b]).name,
    ensures
        splice_one(zone, m) == zone.update(jz, m),
{
    let j = choose|j: int| 0 <= j < zone.len() && (#[trigger] zone[j]).name == m.name;
    assert(zone[j].name == m.name);
    assert(j == jz);
}

/// Whether the member collides with a different-kind member among the first
/// `base_len` entries.
fn conflicts_with_base(out: &Vec<Member>, base_len: usize, m: &Member) -> (r: bool)
    requires
        base_len <= out@.len(),
    ensures
        r == base_conflict(member_views(out@).take(base_len as int), m@),
{
    for i in 0..base_len
        invariant
            base_len <= out@.len(),
            forall|k: int|
                0 <= k < i ==> !((#[trigger] member_views(out@).take(base_len as int)[k]).name
                    == m@.name && member_views(out@).take(base_len as int)[k].kind != m@.kind),
    {
        let name_eq = out[i].name == m.name;
        let kind_eq = out[i].kind == m.kind;
        proof {
            assert(member_views(out@).take(base_len as int)[i as int] == out@[i as int]@);
        }
        if name_eq && !kind_eq {
            return true;
        }
    }
    false
}

/// The index in `[base_len, out.len())` of a member with the name, if any.
fn find_same_name(out: &Vec<Member>, base_len: usize, name: &String) -> (r: Option<usize>)
    requires
        base_len <= out@.len(),
    ensures
        match r {
            Some(j) => base_len <= j < out@.len() && member_views(out@)[j as int].name == name@,
            None => forall|j: int|
                base_len <= j < out@.len() ==> (#[trigger] member_views(out@)[j]).name != name@,
        },
{
    let n = out.len();
    let mut j = base_len;
    while j < n
        invariant
            base_len <= j <= n == out@.len(),
            forall|k: int| base_len <= k < j ==> (#[trigger] member_views(out@)[k]).name != name@,
        decreases n - j,
    {
        if out[j].name == *name {
            return Some(j);
        }
        j = j + 1;
    }
    None
}

/// Splices every partial targeting the interface and every mixin it lists
/// into one canonical member list. Fails with `MemberConflict` when an
/// incoming member collides with a base member of a different kind, and with
/// `UnknownInterface` when a listed mixin was never registered; it succeeds
/// exactly when neither holds.
pub fn resolve_interface(reg: &Registry, idx: usize) -> (r: Result<
    ResolvedInterface,
    CompileError,
>)
    requires
        reg.wf(),
        idx < reg@.interfaces.len(),
    ensures
        match r {
            Ok(ri) => {
                &&& resolved_from(reg@, reg@.interfaces[idx as int], ri@)
                &&& mixins_all_found(reg@, reg@.interfaces[idx as int])
                &&& !incoming_conflict(reg@, reg@.interfaces[idx as int])
            },
            Err(e) => {
                &&& !(mixins_all_found(reg@, reg@.interfaces[idx as int]) && !incoming_conflict(
                    reg@,
                    reg@.interfaces[idx as int],
                ))
                &&& match e@ {
                    CompileErrorV::VMemberConflict(iname, _) => iname == reg@.interfaces[
                        idx as int
                    ].name && incoming_conflict(reg@, reg@.interfaces[idx as int]),
                    CompileErrorV::VUnknownInterface(n) => reg@.interfaces[
                        idx as int
                    ].mixins.contains(n) && !mixin_found(reg@, n),
                    _ => false,
                }
            },
        },
{
    let d = &reg.interfaces[idx];
    let ghost dv: InterfaceDeclV = reg@.interfaces[idx as int];
    proof {
        assert(d@ == dv);
    }
    let mut out = clone_members(&d.members);
    let base_len = out.len();
    proof {
        assert(member_views(out@) == dv.members);
        assert(member_views(out@).take(base_len as int) =~= dv.members);
        assert(member_views(out@).skip(base_len as int) =~= Seq::<MemberV>::empty());
        assert(reg@.partials.take(0) =~= Seq::<PartialDeclV>::empty());
    }
    // Splice partials, in registration order; a later partial member with the
    // name of an earlier one replaces it.
    let np = reg.partials.len();
    for p in 0..np
        invariant
            reg.wf(),
            idx < reg@.interfaces.len(),
            dv == reg@.interfaces[idx as int],
            d@ == dv,
            np == reg@.partials.len(),
            base_len <= out@.len(),
            partial_zone_inv(reg@, dv, member_views(out@), base_len as int),
            member_views(out@).skip(base_len as int) == splice_partials(
                Seq::<MemberV>::empty(),
                reg@.partials.take(p as int),
                dv.name,
            ),
            forall|q: int, ii: int|
                0 <= q < p && reg@.partials[q].target == dv.name && 0 <= ii < reg@.partials[
                    q
                ].members.len() ==> !base_conflict(
                    dv.members,
                    #[trigger] reg@.partials[q].members[ii],
                ),
    {
        let pd = &reg.partials[p];
        proof {
            assert(pd@ == reg@.partials[p as int]);
        }
        if pd.target == d.name {
            let ghost zone_p: Seq<MemberV> = member_views(out@).skip(base_len as int);
            let nm = pd.members.len();
            for i in 0..nm
                invariant
                    reg.wf(),
                    idx < reg@.interfaces.len(),
                    dv == reg@.interfaces[idx as int],
                    d@ == dv,
                    p < np == reg@.partials.len(),
                    nm == reg@.partials[p as int].members.len(),
                    reg@.partials[p as int].target == dv.name,
                    base_len <= out@.len(),
                    partial_zone_inv(reg@, dv, member_views(out@), base_len as int),
                    zone_p == splice_partials(
                        Seq::<MemberV>::empty(),
                        reg@.partials.take(p as int),
                        dv.name,
                    ),
                    member_views(out@).skip(base_len as int) == splice_list(
                        zone_p,
                        reg@.partials[p as int].members.take(i as int),
                    ),
                    forall|q: int, ii: int|
                        0 <= q < p && reg@.partials[q].target == dv.name && 0 <= ii < reg@.partials[
                            q
                        ].members.len() ==> !base_conflict(
                            dv.members,
                            #[trigger] reg@.partials[q].members[ii],
                        ),
                    forall|ii: int|
                        0 <= ii < i ==> !base_conflict(
                            dv.members,
                            #[trigger] reg@.partials[p as int].members[ii],
                        ),
            {
                let m = reg.partials[p].members[i].clone();
                proof {
                    assert(m@ == reg@.partials[p as int].members[i as int]);
                }
                if conflicts_with_base(&out, base_len, &m) {
                    proof {
                        assert(member_views(out@).take(base_len as int) == dv.members);
                        assert(incoming_conflict(reg@, dv));
                    }
                    return Err(CompileError::MemberConflict(d.name.clone(), m.name));
                }
                let ghost before: Seq<MemberV> = member_views(out@);
                match find_same_name(&out, base_len, &m.name) {
                    Some(j) => {
                        let _replaced = out.remove(j);
                        out.insert(j, m);
                        proof {
                            assert(member_views(out@) =~= before.update(j as int, m@));
                            assert(before[j as int].name == m@.name);
                            assert forall|jj: int|
                                base_len <= jj < out@.len() implies from_partial(
                                reg@,
                                dv.name,
                                #[trigger] member_views(out@)[jj],
                            ) && !base_conflict(dv.members, member_views(out@)[jj]) by {
                                if jj != j {
                                    assert(member_views(out@)[jj] == before[jj]);
                                }
                            }
                            assert(member_views(out@).take(base_len as int) =~= before.take(
                                base_len as int,
                            ));
                            let bz = before.skip(base_len as int);
                            assert(member_views(out@).skip(base_len as int) =~= bz.update(
                                j as int - base_len as int,
                                m@,
                            ));
                            assert(bz[j as int - base_len as int].name == m@.name);
                            assert forall|a: int, b: int| 0 <= a < b < bz.len() implies (
                            #[trigger] bz[a]).name != (#[trigger] bz[b]).name by {
                                assert(bz[a] == before[base_len + a]);
                                assert(bz[b] == before[base_len + b]);
                            }
                            lemma_splice_one_found(bz, m@, j as int - base_len as int);
                            assert(reg@.partials[p as int].members.take(i as int).push(m@)
                                =~= reg@.partials[p as int].members.take(i + 1));
                            lemma_splice_list_push(
                                zone_p,
                                reg@.partials[p as int].members.take(i as int),
                                m@,
                            );
                            assert(member_views(out@).skip(base_len as int) == splice_list(
                                zone_p,
                                reg@.partials[p as int].members.take(i + 1),
                            ));
                        }
                    },
                    None => {
                        out.push(m);
                        proof {
                            assert(member_views(out@) =~= before.push(m@));
                            assert(member_views(out@).take(base_len as int) =~= before.take(
                                base_len as int,
                            ));
                            let bz = before.skip(base_len as int);
                            assert(member_views(out@).skip(base_len as int) =~= bz.push(m@));
                            assert forall|jz: int| 0 <= jz < bz.len() implies (
                            #[trigger] bz[jz]).name != m@.name by {
                                assert(bz[jz] == before[base_len + jz]);
                            }
                            assert(!(exists|jz: int|
                                0 <= jz < bz.len() && (#[trigger] bz[jz]).name == m@.name));
                            assert(splice_one(bz, m@) == bz.push(m@));
                            assert(reg@.partials[p as int].members.take(i as int).push(m@)
                                =~= reg@.partials[p as int].members.take(i + 1));
                            lemma_splice_list_push(
                                zone_p,
                                reg@.partials[p as int].members.take(i as int),
                                m@,
                            );
                            assert(member_views(out@).skip(base_len as int) == splice_list(
                                zone_p,
                                reg@.partials[p as int].members.take(i + 1),
                            ));
                        }
                    },
                }
            }
            proof {
                assert(reg@.partials[p as int].members.take(nm as int) =~= reg@.partials[
                    p as int
                ].members);
            }
        }
        proof {
            assert(reg@.partials.take(p as int).push(reg@.partials[p as int]) =~= reg@.partials.take(
                p + 1,
            ));
            lemma_splice_partials_push(
                Seq::<MemberV>::empty(),
                reg@.partials.take(p as int),
                reg@.partials[p as int],
                dv.name,
            );
        }
    }
    let ghost pe: int = member_views(out@).len() as int;
    let ghost after_partials: Seq<MemberV> = member_views(out@);
    proof {
        assert(reg@.partials.take(np as int) =~= reg@.partials);
        assert(after_partials.skip(base_len as int) == partial_zone_of(reg@, dv));
        assert(after_partials =~= dv.members + partial_zone_of(reg@, dv));
        assert(member_views(out@).skip(pe) =~= Seq::<MemberV>::empty());
        assert(dv.mixins.take(0) =~= Seq::<Seq<char>>::empty());
    }
    // Splice mixins, after all partials.
    let nx = d.mixins.len();
    for x in 0..nx
        invariant
            reg.wf(),
            idx < reg@.interfaces.len(),
            dv == reg@.interfaces[idx as int],
            d@ == dv,
            nx == dv.mixins.len(),
            base_len <= pe <= out@.len(),
            partial_zone_inv(reg@, dv, after_partials, base_len as int),
            after_partials.len() == pe,
            member_views(out@).take(pe) == after_partials,
            forall|j: int|
                pe <= j < out@.len() ==> from_mixin(
                    reg@,
                    dv.mixins,
                    #[trigger] member_views(out@)[j],
                ),
            forall|j: int|
                base_len <= j < out@.len() ==> !base_conflict(
                    dv.members,
                    #[trigger] member_views(out@)[j],
                ),
            forall|q: int, ii: int|
                0 <= q < reg@.partials.len() && reg@.partials[q].target == dv.name && 0 <= ii
                    < reg@.partials[q].members.len() ==> !base_conflict(
                    dv.members,
                    #[trigger] reg@.partials[q].members[ii],
                ),
            after_partials == dv.members + partial_zone_of(reg@, dv),
            member_views(out@).skip(pe) == mixin_zone_of(reg@, dv.mixins.take(x as int)),
            forall|y: int| 0 <= y < x ==> mixin_found(reg@, #[trigger] dv.mixins[y]),
            forall|k: int, ii: int|
                0 <= k < reg@.mixins.len() && dv.mixins.take(x as int).contains(reg@.mixins[k].name)
                    && 0 <= ii < reg@.mixins[k].members.len() ==> member_views(out@).contains(
                    #[trigger] reg@.mixins[k].members[ii],
                ),
            forall|k: int, ii: int|
                0 <= k < reg@.mixins.len() && dv.mixins.take(x as int).contains(reg@.mixins[k].name)
                    && 0 <= ii < reg@.mixins[k].members.len() ==> !base_conflict(
                    dv.members,
                    #[trigger] reg@.mixins[k].members[ii],
                ),
    {
        let mi = match reg.lookup_mixin(&d.mixins[x]) {
            Ok(mi) => mi,
            Err(e) => {
                proof {
                    assert(dv.mixins[x as int] == d.mixins@[x as int]@);
                    assert(dv.mixins.contains(dv.mixins[x as int]));
                }
                return Err(e);
            },
        };
        let mx = &reg.mixins[mi];
        proof {
            assert(mx@ == reg@.mixins[mi as int]);
            assert(mx@.name == dv.mixins[x as int]);
            assert(dv.mixins.contains(reg@.mixins[mi as int].name));
        }
        let nm = mx.members.len();
        for i in 0..nm
            invariant
                reg.wf(),
                idx < reg@.interfaces.len(),
                dv == reg@.interfaces[idx as int],
                d@ == dv,
                x < nx == dv.mixins.len(),
                mi < reg@.mixins.len(),
                nm == reg@.mixins[mi as int].members.len(),
                reg@.mixins[mi as int].name == dv.mixins[x as int],
                base_len <= pe <= out@.len(),
                partial_zone_inv(reg@, dv, after_partials, base_len as int),
                after_partials.len() == pe,
                member_views(out@).take(pe) == after_partials,
                forall|j: int|
                    pe <= j < out@.len() ==> from_mixin(
                        reg@,
                        dv.mixins,
                        #[trigger] member_views(out@)[j],
                    ),
                forall|j: int|
                    base_len <= j < out@.len() ==> !base_conflict(
                        dv.members,
                        #[trigger] member_views(out@)[j],
                    ),
                forall|q: int, ii: int|
                    0 <= q < reg@.partials.len() && reg@.partials[q].target == dv.name && 0 <= ii
                        < reg@.partials[q].members.len() ==> !base_conflict(
                        dv.members,
                        #[trigger] reg@.partials[q].members[ii],
                    ),
                after_partials == dv.members + partial_zone_of(reg@, dv),
                member_views(out@).skip(pe) == mixin_zone_of(reg@, dv.mixins.take(x as int))
                    + reg@.mixins[mi as int].members.take(i as int),
                forall|y: int| 0 <= y < x ==> mixin_found(reg@, #[trigger] dv.mixins[y]),
                forall|k: int, ii: int|
                    0 <= k < reg@.mixins.len() && dv.mixins.take(x as int).contains(
                        reg@.mixins[k].name,
                    ) && 0 <= ii < reg@.mixins[k].members.len() ==> member_views(out@).contains(
                        #[trigger] reg@.mixins[k].members[ii],
                    ),
                forall|k: int, ii: int|
                    0 <= k < reg@.mixins.len() && dv.mixins.take(x as int).contains(
                        reg@.mixins[k].name,
                    ) && 0 <= ii < reg@.mixins[k].members.len() ==> !base_conflict(
                        dv.members,
                        #[trigger] reg@.mixins[k].members[ii],
                    ),
                forall|ii: int|
                    0 <= ii < i ==> member_views(out@).contains(
                        #[trigger] reg@.mixins[mi as int].members[ii],
                    ),
                forall|ii: int|
                    0 <= ii < i ==> !base_conflict(
                        dv.members,
                        #[trigger] reg@.mixins[mi as int].members[ii],
                    ),
        {
            let m = reg.mixins[mi].members[i].clone();
            proof {
                assert(m@ == reg@.mixins[mi as int].members[i as int]);
            }
            if conflicts_with_base(&out, base_len, &m) {
                proof {
                    assert(member_views(out@).take(base_len as int) =~= after_partials.take(
                        base_len as int,
                    ));
                    assert(member_views(out@).take(base_len as int) == dv.members);
                    assert(incoming_conflict(reg@, dv));
                }
                return Err(CompileError::MemberConflict(d.name.clone(), m.name));
            }
            let ghost before: Seq<MemberV> = member_views(out@);
            out.push(m);
            proof {
                assert(member_views(out@) =~= before.push(m@));
                assert(member_views(out@).take(pe) =~= before.take(pe));
                assert(member_views(out@).take(base_len as int) =~= before.take(base_len as int));
                assert(member_views(out@).skip(pe) =~= before.skip(pe).push(m@));
                assert(reg@.mixins[mi as int].members.take(i as int).push(m@) =~= reg@.mixins[
                    mi as int
                ].members.take(i + 1));
                assert((mixin_zone_of(reg@, dv.mixins.take(x as int)) + reg@.mixins[
                    mi as int
                ].members.take(i as int)).push(m@) =~= mixin_zone_of(reg@, dv.mixins.take(x as int))
                    + reg@.mixins[mi as int].members.take(i + 1));
                assert(member_views(out@)[out@.len() - 1] == m@);
                assert forall|ii: int| 0 <= ii < i + 1 implies member_views(out@).contains(
                    #[trigger] reg@.mixins[mi as int].members[ii],
                ) by {
                    if ii < i {
                        let w = choose|w: int|
                            0 <= w < before.len() && before[w] == reg@.mixins[mi as int].members[ii];
                        assert(member_views(out@)[w] == reg@.mixins[mi as int].members[ii]);
                    } else {
                        assert(member_views(out@)[out@.len() - 1] == reg@.mixins[
                            mi as int
                        ].members[ii]);
                    }
                }
                assert forall|k: int, ii: int|
                    0 <= k < reg@.mixins.len() && dv.mixins.take(x as int).contains(
                        reg@.mixins[k].name,
                    ) && 0 <= ii < reg@.mixins[k].members.len() implies member_views(
                    out@,
                ).contains(#[trigger] reg@.mixins[k].members[ii]) by {
                    let w = choose|w: int|
                        0 <= w < before.len() && before[w] == reg@.mixins[k].members[ii];
                    assert(member_views(out@)[w] == reg@.mixins[k].members[ii]);
                }
            }
        }
        proof {
            assert(dv.mixins.take(x as int).push(dv.mixins[x as int]) =~= dv.mixins.take(x + 1));
            assert(reg@.mixins[mi as int].members.take(nm as int) =~= reg@.mixins[
                mi as int
            ].members);
            lemma_mixin_zone_push(reg@, dv.mixins.take(x as int), dv.mixins[x as int]);
            assert(reg@.mixins[mi as int].name == dv.mixins[x as int]);
            let kk = mixin_idx(reg@, dv.mixins[x as int]);
            assert(reg@.mixins[kk].name == dv.mixins[x as int]);
            assert(kk == mi as int);
            assert(member_views(out@).skip(pe) == mixin_zone_of(reg@, dv.mixins.take(x + 1)));
            assert forall|k: int, ii: int|
                0 <= k < reg@.mixins.len() && dv.mixins.take(x + 1).contains(reg@.mixins[k].name)
                    && 0 <= ii < reg@.mixins[k].members.len() implies member_views(out@).contains(
                #[trigger] reg@.mixins[k].members[ii],
            ) && !base_conflict(dv.members, reg@.mixins[k].members[ii]) by {
                if !dv.mixins.take(x as int).contains(reg@.mixins[k].name) {
                    assert(reg@.mixins[k].name == dv.mixins[x as int]);
                    assert(k == mi as int);
                }
            }
        }
    }
    proof {
        assert(dv.mixins.take(nx as int) =~= dv.mixins);
        assert(member_views(out@).skip(pe) == mixin_zone_of(reg@, dv.mixins));
        assert(member_views(out@) =~= after_partials + mixin_zone_of(reg@, dv.mixins));
        assert(member_views(out@) =~= dv.members + partial_zone_of(reg@, dv) + mixin_zone_of(
            reg@,
            dv.mixins,
        ));
    }
    let name = d.name.clone();
    let r = ResolvedInterface { name, base_len, members: out };
    proof {
        assert(r@.members == member_views(r.members@));
        assert(r@.members.take(pe) == after_partials);
        assert(r@.members.take(base_len as int) =~= after_partials.take(base_len as int));
        assert(resolved_from(reg@, dv, r@));
    }
    Ok(r)
}

} // verus!
