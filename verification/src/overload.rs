//! The overload resolver: groups the same-named members of a merged
//! interface into overload sets, checks that every pair in a set can be told
//! apart by the declared disambiguation policy, and assigns each member a
//! unique emitted call name.
//!
//! Disambiguation policy, in order of preference: a distinct count of leading
//! required parameters; a distinct type family at some shared required
//! position; presence or absence of an optional tail. Two signatures still
//! indistinguishable fail with `AmbiguousOverload`, as does a member that is
//! not well formed: one with an ambiguous union, whose dispatch no runtime
//! tag can decide, or one breaking the trailing-optional rule, whose call
//! shapes overlap. A singleton set keeps the bare declared name; a member of
//! a larger set is suffixed with its parameter names; a constructor path is
//! named `new`-based, never by its declared member name. Constructors form
//! their own overload set, never merged with method names; dynamic type
//! switching is left to distinguishable union-typed parameters alone, whose
//! runtime tag the emitted binding checks.
use vstd::prelude::*;
use vstd::assert_by_contradiction;
use vstd::string::StringExecFns;

use crate::CompileError;
use crate::CompileErrorV;
use crate::decl::Member;
use crate::decl::MemberKind;
use crate::decl::MemberV;
use crate::decl::Optionality;
use crate::decl::ParamV;
use crate::decl::check_member;
use crate::decl::member_views;
use crate::decl::member_wf;
use crate::types::IdlTypeV;
use crate::types::family_of;
use crate::types::spec_family_of;

verus! {

/// `n` is the length of the leading run of required parameters.
pub open spec fn is_req_prefix(ps: Seq<ParamV>, n: int) -> bool {
    &&& 0 <= n <= ps.len()
    &&& forall|i: int| 0 <= i < n ==> (#[trigger] ps[i]).opt == Optionality::Required
    &&& n < ps.len() ==> ps[n].opt != Optionality::Required
}

proof fn lemma_req_prefix_unique(ps: Seq<ParamV>, n1: int, n2: int)
    requires
        is_req_prefix(ps, n1),
        is_req_prefix(ps, n2),
    ensures
        n1 == n2,
{
    if n1 < n2 {
        assert(ps[n1].opt == Optionality::Required);
    }
    if n2 < n1 {
        assert(ps[n2].opt == Optionality::Required);
    }
}

/// The two types carry distinct static type families (a union separates
/// nothing statically: its tag is only known at the call).
pub open spec fn family_separates(t1: IdlTypeV, t2: IdlTypeV) -> bool {
    match (spec_family_of(t1), spec_family_of(t2)) {
        (Some(x), Some(y)) => x != y,
        _ => false,
    }
}

/// Two signatures can be told apart: distinct required-parameter counts, or
/// a separating type family at a shared required position, or one has an
/// optional tail and the other has none.
pub open spec fn spec_distinguishable(a: MemberV, b: MemberV) -> bool {
    exists|na: int, nb: int|
        #![trigger is_req_prefix(a.params, na), is_req_prefix(b.params, nb)]
        is_req_prefix(a.params, na) && is_req_prefix(b.params, nb) && ({
            ||| na != nb
            ||| exists|t: int|
                0 <= t < na && t < nb && family_separates(
                    (#[trigger] a.params[t]).ty,
                    b.params[t].ty,
                )
            ||| (na < a.params.len()) != (nb < b.params.len())
        })
}

/// Members land in the same overload set: same name, and constructors are
/// never merged with non-constructors.
pub open spec fn same_group(a: MemberV, b: MemberV) -> bool {
    &&& a.name == b.name
    &&& (a.kind == MemberKind::KConstructor) == (b.kind == MemberKind::KConstructor)
}

/// The member at `k` is alone in its overload set.
pub open spec fn spec_lone(ms: Seq<MemberV>, k: int) -> bool {
    forall|k2: int| 0 <= k2 < ms.len() && k2 != k ==> !same_group(ms[k], #[trigger] ms[k2])
}

/// The suffix built from the parameter names, joined by `_and_`.
pub open spec fn suffix_of(ps: Seq<ParamV>) -> Seq<char>
    decreases ps.len(),
{
    if ps.len() == 0 {
        Seq::empty()
    } else if ps.len() == 1 {
        ps[0].name
    } else {
        suffix_of(ps.drop_last()) + "_and_"@ + ps.last().name
    }
}

/// The base of a member's emitted name: constructors surface as `new`,
/// every other member under its declared name.
pub open spec fn base_name_of(m: MemberV) -> Seq<char> {
    if m.kind == MemberKind::KConstructor {
        "new"@
    } else {
        m.name
    }
}

/// The emitted call name: the bare base name for a singleton set or a
/// parameterless member, else the base name suffixed with the parameter
/// names.
pub open spec fn spec_emitted_name(m: MemberV, lone: bool) -> Seq<char> {
    if lone || m.params.len() == 0 {
        base_name_of(m)
    } else {
        base_name_of(m) + "_with_"@ + suffix_of(m.params)
    }
}

/// Every member of the list is well formed: its unions are distinguishable
/// and its parameters follow the trailing-optional rule.
pub open spec fn all_members_wf(ms: Seq<MemberV>) -> bool {
    forall|k: int| 0 <= k < ms.len() ==> member_wf(#[trigger] ms[k])
}

/// The length of the leading run of required parameters.
pub fn req_count(m: &Member) -> (r: usize)
    ensures
        is_req_prefix(m@.params, r as int),
{
    let n = m.params.len();
    let mut i: usize = 0;
    while i < n
        invariant
            0 <= i <= n == m.params@.len(),
            forall|k: int| 0 <= k < i ==> (#[trigger] m@.params[k]).opt == Optionality::Required,
        decreases n - i,
    {
        let required = match m.params[i].opt {
            Optionality::Required => true,
            Optionality::Optional => false,
            Optionality::OptionalWithDefault => false,
        };
        if !required {
            return i;
        }
        i = i + 1;
    }
    i
}

/// Decides whether two signatures can be told apart by the disambiguation
/// policy.
pub fn distinguishable(a: &Member, b: &Member) -> (r: bool)
    ensures
        r == spec_distinguishable(a@, b@),
{
    let na = req_count(a);
    let nb = req_count(b);
    if na != nb {
        return true;
    }
    for t in 0..na
        invariant
            na == nb,
            is_req_prefix(a@.params, na as int),
            is_req_prefix(b@.params, nb as int),
            na <= a.params@.len(),
            nb <= b.params@.len(),
            forall|k: int|
                0 <= k < t ==> !family_separates((#[trigger] a@.params[k]).ty, b@.params[k].ty),
    {
        let fa = family_of(&a.params[t].ty);
        let fb = family_of(&b.params[t].ty);
        let separates = match (fa, fb) {
            (Some(x), Some(y)) => x != y,
            _ => false,
        };
        if separates {
            proof {
                assert(family_separates(a@.params[t as int].ty, b@.params[t as int].ty));
                assert(spec_distinguishable(a@, b@));
            }
            return true;
        }
    }
    let a_tail = na < a.params.len();
    let b_tail = nb < b.params.len();
    if a_tail != b_tail {
        return true;
    }
    proof {
        assert_by_contradiction!(!spec_distinguishable(a@, b@), {
            let (na2, nb2): (int, int) = choose|na2: int, nb2: int|
                #![trigger is_req_prefix(a@.params, na2), is_req_prefix(b@.params, nb2)]
                is_req_prefix(a@.params, na2) && is_req_prefix(b@.params, nb2) && ({
                    ||| na2 != nb2
                    ||| exists|tt: int|
                        0 <= tt < na2 && tt < nb2 && family_separates(
                            (#[trigger] a@.params[tt]).ty,
                            b@.params[tt].ty,
                        )
                    ||| (na2 < a@.params.len()) != (nb2 < b@.params.len())
                });
            lemma_req_prefix_unique(a@.params, na2, na as int);
            lemma_req_prefix_unique(b@.params, nb2, nb as int);
        });
    }
    false
}

/// One callable binding: a resolved member, its unique emitted name, its
/// leading required-parameter count, and whether it was alone in its set.
pub struct Binding {
    pub member: Member,
    pub emitted: String,
    pub req_count: usize,
    pub lone: bool,
}

/// The mathematical model of a `Binding`.
pub struct BindingV {
    pub member: MemberV,
    pub emitted: Seq<char>,
    pub req_count: int,
    pub lone: bool,
}

impl View for Binding {
    type V = BindingV;

    open spec fn view(&self) -> BindingV {
        BindingV {
            member: self.member@,
            emitted: self.emitted@,
            req_count: self.req_count as int,
            lone: self.lone,
        }
    }
}

pub open spec fn binding_views(bs: Seq<Binding>) -> Seq<BindingV> {
    bs.map_values(|b: Binding| b@)
}

/// Builds the emitted call name of a member.
fn emitted_name(m: &Member, lone: bool) -> (r: String)
    ensures
        r@ == spec_emitted_name(m@, lone),
{
    let mut s = if m.kind == MemberKind::KConstructor {
        String::from_str("new")
    } else {
        m.name.clone()
    };
    if lone || m.params.is_empty() {
        return s;
    }
    s.append("_with_");
    s.append(m.params[0].name.as_str());
    proof {
        assert(m@.params.take(1) =~= seq![m@.params[0]]);
        assert(suffix_of(m@.params.take(1)) == m@.params[0].name);
        assert(s@ =~= base_name_of(m@) + "_with_"@ + suffix_of(m@.params.take(1)));
    }
    let n = m.params.len();
    for i in 1..n
        invariant
            1 <= i <= n == m.params@.len(),
            s@ == base_name_of(m@) + "_with_"@ + suffix_of(m@.params.take(i as int)),
    {
        s.append("_and_");
        s.append(m.params[i].name.as_str());
        proof {
            assert(m@.params.take(i + 1).drop_last() =~= m@.params.take(i as int));
            assert(m@.params.take(i + 1).last() == m@.params[i as int]);
            assert(suffix_of(m@.params.take(i + 1)) == suffix_of(m@.params.take(i as int))
                + "_and_"@ + m@.params[i as int].name);
            assert(s@ =~= base_name_of(m@) + "_with_"@ + suffix_of(m@.params.take(i + 1)));
        }
    }
    proof {
        assert(m@.params.take(n as int) =~= m@.params);
    }
    s
}

/// What overload resolution guarantees of its bindings: one binding per
/// member, in order; singleton sets keep the bare name; every same-set pair
/// is distinguishable; and all emitted names are pairwise distinct.
pub open spec fn overloads_resolved(ms: Seq<MemberV>, bs: Seq<BindingV>) -> bool {
    &&& bs.len() == ms.len()
    &&& forall|k: int| 0 <= k < ms.len() ==> (#[trigger] bs[k]).member == ms[k]
    &&& forall|k: int| 0 <= k < ms.len() ==> (#[trigger] bs[k]).lone == spec_lone(ms, k)
    &&& forall|k: int|
        0 <= k < ms.len() ==> (#[trigger] bs[k]).emitted == spec_emitted_name(ms[k], spec_lone(ms, k))
    &&& forall|k: int| 0 <= k < ms.len() ==> is_req_prefix(ms[k].params, (#[trigger] bs[k]).req_count)
    &&& forall|k1: int, k2: int|
        0 <= k1 < k2 < ms.len() && same_group(ms[k1], ms[k2]) ==> spec_distinguishable(
            #[trigger] ms[k1],
            #[trigger] ms[k2],
        )
    &&& forall|k1: int, k2: int|
        0 <= k1 < k2 < ms.len() ==> (#[trigger] bs[k1]).emitted != (#[trigger] bs[k2]).emitted
}

/// Two members make the member list ambiguous: they share an overload set
/// and cannot be told apart, or their emitted names collide.
pub open spec fn has_ambiguity(ms: Seq<MemberV>) -> bool {
    exists|k1: int, k2: int|
        0 <= k1 < k2 < ms.len() && ({
            ||| same_group(#[trigger] ms[k1], #[trigger] ms[k2]) && !spec_distinguishable(
                ms[k1],
                ms[k2],
            )
            ||| spec_emitted_name(ms[k1], spec_lone(ms, k1)) == spec_emitted_name(
                ms[k2],
                spec_lone(ms, k2),
            )
        })
}

/// Resolved overloads are independently callable: every member keeps its own
/// signature behind its own binding, and no two bindings share an emitted
/// name, so a call site picks exactly one signature by name.
pub proof fn lemma_overloads_independently_callable(
    ms: Seq<MemberV>,
    bs: Seq<BindingV>,
    k1: int,
    k2: int,
)
    requires
        overloads_resolved(ms, bs),
        0 <= k1 < k2 < ms.len(),
    ensures
        bs[k1].emitted != bs[k2].emitted,
        bs[k1].member == ms[k1],
        bs[k2].member == ms[k2],
{
}

/// Whether the member belongs to the same overload set as the other.
fn in_same_group(a: &Member, b: &Member) -> (r: bool)
    ensures
        r == same_group(a@, b@),
{
    let a_ctor = a.kind == MemberKind::KConstructor;
    let b_ctor = b.kind == MemberKind::KConstructor;
    a.name == b.name && a_ctor == b_ctor
}

/// Groups the members of a merged interface into overload sets, validates
/// every member and each set, and assigns every member a unique emitted
/// name; one binding per member, in member order. Fails with
/// `AmbiguousOverload` exactly when a member is not well formed (an
/// ambiguous union, or a broken trailing-optional rule), two members share a
/// set and cannot be told apart, or two emitted names collide.
pub fn resolve_overloads(iface: &String, members: &Vec<Member>) -> (r: Result<
    Vec<Binding>,
    CompileError,
>)
    ensures
        match r {
            Ok(bs) => {
                &&& overloads_resolved(member_views(members@), binding_views(bs@))
                &&& !has_ambiguity(member_views(members@))
                &&& all_members_wf(member_views(members@))
            },
            Err(e) => {
                &&& has_ambiguity(member_views(members@)) || !all_members_wf(
                    member_views(members@),
                )
                &&& e@ matches CompileErrorV::VAmbiguousOverload(n, _) && n == iface@
            },
        },
{
    let ghost ms: Seq<MemberV> = member_views(members@);
    let n = members.len();
    // Validate each member: an ambiguous union or a broken trailing-optional
    // rule leaves no unambiguous dispatch for its calls.
    for k in 0..n
        invariant
            ms == member_views(members@),
            n == members@.len(),
            forall|kk: int| 0 <= kk < k ==> member_wf(#[trigger] ms[kk]),
    {
        proof {
            assert(ms[k as int] == members@[k as int]@);
        }
        if !check_member(&members[k]) {
            proof {
                assert(!member_wf(ms[k as int]));
            }
            return Err(CompileError::AmbiguousOverload(iface.clone(), members[k].name.clone()));
        }
    }
    // Validate pairwise distinguishability within each overload set.
    for k1 in 0..n
        invariant
            ms == member_views(members@),
            all_members_wf(ms),
            n == members@.len(),
            forall|a: int, b: int|
                0 <= a < b < n && a < k1 && same_group(ms[a], ms[b]) ==> spec_distinguishable(
                    #[trigger] ms[a],
                    #[trigger] ms[b],
                ),
    {
        for k2 in (k1 + 1)..n
            invariant
                ms == member_views(members@),
                all_members_wf(ms),
                k1 < n == members@.len(),
                k1 + 1 <= k2 <= n,
                forall|a: int, b: int|
                    0 <= a < b < n && a < k1 && same_group(ms[a], ms[b]) ==> spec_distinguishable(
                        #[trigger] ms[a],
                        #[trigger] ms[b],
                    ),
                forall|b: int|
                    k1 < b < k2 && same_group(ms[k1 as int], ms[b]) ==> spec_distinguishable(
                        ms[k1 as int],
                        #[trigger] ms[b],
                    ),
        {
            proof {
                assert(ms[k1 as int] == members@[k1 as int]@);
                assert(ms[k2 as int] == members@[k2 as int]@);
            }
            if in_same_group(&members[k1], &members[k2]) {
                if !distinguishable(&members[k1], &members[k2]) {
                    proof {
                        assert(same_group(ms[k1 as int], ms[k2 as int]));
                        assert(!spec_distinguishable(ms[k1 as int], ms[k2 as int]));
                        assert(has_ambiguity(ms));
                    }
                    return Err(
                        CompileError::AmbiguousOverload(iface.clone(), members[k1].name.clone()),
                    );
                }
            }
        }
    }
    // Build one binding per member.
    let mut bs: Vec<Binding> = Vec::new();
    for k in 0..n
        invariant
            ms == member_views(members@),
            all_members_wf(ms),
            n == members@.len(),
            bs@.len() == k,
            forall|kk: int| 0 <= kk < k ==> (#[trigger] bs@[kk]@).member == ms[kk],
            forall|kk: int| 0 <= kk < k ==> (#[trigger] bs@[kk]@).lone == spec_lone(ms, kk),
            forall|kk: int|
                0 <= kk < k ==> (#[trigger] bs@[kk]@).emitted == spec_emitted_name(
                    ms[kk],
                    spec_lone(ms, kk),
                ),
            forall|kk: int|
                0 <= kk < k ==> is_req_prefix(ms[kk].params, (#[trigger] bs@[kk]@).req_count),
            forall|a: int, b: int|
                0 <= a < b < n && same_group(ms[a], ms[b]) ==> spec_distinguishable(
                    #[trigger] ms[a],
                    #[trigger] ms[b],
                ),
    {
        let mut lone = true;
        for k2 in 0..n
            invariant
                ms == member_views(members@),
                all_members_wf(ms),
                k < n == members@.len(),
                lone == forall|kk: int|
                    0 <= kk < k2 && kk != k ==> !same_group(ms[k as int], #[trigger] ms[kk]),
        {
            proof {
                assert(ms[k as int] == members@[k as int]@);
                assert(ms[k2 as int] == members@[k2 as int]@);
            }
            if k2 != k {
                if in_same_group(&members[k], &members[k2]) {
                    lone = false;
                }
            }
        }
        let m = members[k].clone();
        proof {
            assert(m@ == ms[k as int]);
        }
        let rc = req_count(&m);
        let em = emitted_name(&m, lone);
        bs.push(Binding { member: m, emitted: em, req_count: rc, lone });
        proof {
            assert(bs@[k as int]@.member == ms[k as int]);
            assert(bs@[k as int]@.lone == spec_lone(ms, k as int));
            assert(bs@[k as int]@.emitted == spec_emitted_name(ms[k as int], spec_lone(ms, k as int)));
        }
    }
    // Validate that the emitted names are pairwise distinct.
    for k1 in 0..n
        invariant
            ms == member_views(members@),
            all_members_wf(ms),
            n == members@.len(),
            bs@.len() == n,
            forall|kk: int| 0 <= kk < n ==> (#[trigger] bs@[kk]@).member == ms[kk],
            forall|kk: int| 0 <= kk < n ==> (#[trigger] bs@[kk]@).lone == spec_lone(ms, kk),
            forall|kk: int|
                0 <= kk < n ==> (#[trigger] bs@[kk]@).emitted == spec_emitted_name(
                    ms[kk],
                    spec_lone(ms, kk),
                ),
            forall|kk: int|
                0 <= kk < n ==> is_req_prefix(ms[kk].params, (#[trigger] bs@[kk]@).req_count),
            forall|a: int, b: int|
                0 <= a < b < n && same_group(ms[a], ms[b]) ==> spec_distinguishable(
                    #[trigger] ms[a],
                    #[trigger] ms[b],
                ),
            forall|a: int, b: int|
                0 <= a < b < n && a < k1 ==> (#[trigger] bs@[a]@).emitted != (
                #[trigger] bs@[b]@).emitted,
    {
        for k2 in (k1 + 1)..n
            invariant
                ms == member_views(members@),
                all_members_wf(ms),
                k1 < n == members@.len(),
                k1 + 1 <= k2 <= n,
                bs@.len() == n,
                forall|kk: int| 0 <= kk < n ==> (#[trigger] bs@[kk]@).member == ms[kk],
                forall|kk: int| 0 <= kk < n ==> (#[trigger] bs@[kk]@).lone == spec_lone(ms, kk),
                forall|kk: int|
                    0 <= kk < n ==> (#[trigger] bs@[kk]@).emitted == spec_emitted_name(
                        ms[kk],
                        spec_lone(ms, kk),
                    ),
                forall|kk: int|
                    0 <= kk < n ==> is_req_prefix(ms[kk].params, (#[trigger] bs@[kk]@).req_count),
                forall|a: int, b: int|
                    0 <= a < b < n && same_group(ms[a], ms[b]) ==> spec_distinguishable(
                        #[trigger] ms[a],
                        #[trigger] ms[b],
                    ),
                forall|a: int, b: int|
                    0 <= a < b < n && a < k1 ==> (#[trigger] bs@[a]@).emitted != (
                    #[trigger] bs@[b]@).emitted,
                forall|b: int|
                    k1 < b < k2 ==> (#[trigger] bs@[b]@).emitted != bs@[k1 as int]@.emitted,
        {
            if bs[k1].emitted == bs[k2].emitted {
                proof {
                    assert(bs@[k1 as int]@.emitted == bs@[k2 as int]@.emitted);
                    assert(spec_emitted_name(ms[k1 as int], spec_lone(ms, k1 as int))
                        == spec_emitted_name(ms[k2 as int], spec_lone(ms, k2 as int)));
                    assert(has_ambiguity(ms));
                }
                return Err(
                    CompileError::AmbiguousOverload(iface.clone(), members[k1].name.clone()),
                );
            }
        }
    }
    proof {
        assert forall|k: int| 0 <= k < n implies #[trigger] binding_views(bs@)[k] == bs@[k]@ by {}
        assert(overloads_resolved(ms, binding_views(bs@)));
        assert_by_contradiction!(!has_ambiguity(ms), {
            let (k1, k2): (int, int) = choose|k1: int, k2: int|
                0 <= k1 < k2 < ms.len() && ({
                    ||| same_group(#[trigger] ms[k1], #[trigger] ms[k2]) && !spec_distinguishable(
                        ms[k1],
                        ms[k2],
                    )
                    ||| spec_emitted_name(ms[k1], spec_lone(ms, k1)) == spec_emitted_name(
                        ms[k2],
                        spec_lone(ms, k2),
                    )
                });
            assert((bs@[k1]@).emitted != (bs@[k2]@).emitted);
        });
    }
    Ok(bs)
}

} // verus!
