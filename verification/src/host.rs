//! A model of the runtime behaviour the emitted surface owes its callers:
//! fallible construction across the boundary, instance accessors, identity
//! comparison, per-type static state with explicit getter/setter contracts,
//! keyed indexed accessors with an absent sentinel, callback adapters, and
//! calls that fail recoverably — and only individually — when the host never
//! provided the import behind them.
use vstd::prelude::*;

use crate::CallError;
use crate::CallErrorV;
use crate::ConstructError;

verus! {

/// The imports a host actually provides. A call path whose import is absent
/// fails with `CallError::UndefinedImport`; every other path is untouched.
pub struct HostEnv {
    pub defined: Vec<String>,
}

impl HostEnv {
    /// The host provides an import under this name.
    pub open spec fn spec_provides(&self, n: Seq<char>) -> bool {
        exists|k: int| 0 <= k < self.defined@.len() && (#[trigger] self.defined@[k])@ == n
    }

    /// Whether the host provides an import under this name.
    pub fn provides(&self, n: &String) -> (r: bool)
        ensures
            r == self.spec_provides(n@),
    {
        let len = self.defined.len();
        for k in 0..len
            invariant
                len == self.defined@.len(),
                forall|i: int| 0 <= i < k ==> (#[trigger] self.defined@[i])@ != n@,
        {
            if self.defined[k] == *n {
                return true;
            }
        }
        false
    }
}

/// A bound instance with a numeric backing field, as a constructor binding
/// hands it out.
pub struct Instance {
    pub value: i64,
}

impl Instance {
    /// Two instances carry the same backing state.
    pub open spec fn spec_same(&self, other: &Instance) -> bool {
        self.value == other.value
    }

    /// Construction across the boundary: succeeds with the backing field set
    /// exactly when the host provides the constructor import, and surfaces a
    /// recoverable `ConstructError` otherwise — never a crash, and no
    /// partially-constructed instance.
    pub fn construct(env: &HostEnv, ctor_import: &String, v: i64) -> (r: Result<
        Instance,
        ConstructError,
    >)
        ensures
            env.spec_provides(ctor_import@) <==> r is Ok,
            r matches Ok(inst) ==> inst.value == v,
            r matches Err(e) ==> e.host_threw,
    {
        if env.provides(ctor_import) {
            Ok(Instance { value: v })
        } else {
            Err(ConstructError { host_threw: true })
        }
    }

    /// The identity-style comparison binding: true exactly when the two
    /// instances carry the same backing state.
    pub fn same(&self, other: &Instance) -> (r: bool)
        ensures
            r == self.spec_same(other),
    {
        self.value == other.value
    }

    /// The property getter binding.
    pub fn value(&self) -> (r: i64)
        ensures
            r == self.value,
    {
        self.value
    }

    /// The property setter binding.
    pub fn set_value(&mut self, v: i64)
        ensures
            final(self).value == v,
    {
        self.value = v;
    }

    /// A mutating instance method binding: adds to the backing field, as a
    /// mixin method sharing the instance state would.
    pub fn add_to_value(&mut self, d: i64)
        requires
            i64::MIN <= old(self).value + d <= i64::MAX,
        ensures
            final(self).value == old(self).value + d,
    {
        self.value = self.value + d;
    }

    /// An instance method binding behind a host import: it succeeds, reading
    /// the backing state, exactly when the host provides the import; a
    /// missing import fails only this call, recoverably, and touches neither
    /// the instance nor any other binding.
    pub fn call_method(&self, env: &HostEnv, import: &String) -> (r: Result<i64, CallError>)
        ensures
            env.spec_provides(import@) <==> r is Ok,
            r matches Ok(v) ==> v == self.value,
            r matches Err(e) ==> e@ == CallErrorV::VUndefinedImport(import@),
    {
        if env.provides(import) {
            Ok(self.value)
        } else {
            Err(CallError::UndefinedImport(import.clone()))
        }
    }
}

/// An instance with a declared identity method is identical to itself, and
/// two constructed instances with different backing state are not: identity
/// round-trips through the boundary.
pub proof fn lemma_same_identity(x: Instance, y: Instance)
    ensures
        x.spec_same(&x),
        x.value != y.value ==> !x.spec_same(&y) && !y.spec_same(&x),
{
}

/// The per-type static state of an emitted type: shared by every call site
/// that references the type, never per-instance, with explicit getter and
/// setter contracts instead of an ambient global.
pub struct StaticCell {
    pub value: i64,
}

impl StaticCell {
    /// A fresh static slot holds the boundary default.
    pub fn new() -> (r: StaticCell)
        ensures
            r.value == 0,
    {
        StaticCell { value: 0 }
    }

    /// The static property getter binding.
    pub fn value(&self) -> (r: i64)
        ensures
            r == self.value,
    {
        self.value
    }

    /// The static property setter binding: the update is visible to every
    /// later read through the same cell as soon as the call returns.
    pub fn set_value(&mut self, v: i64)
        ensures
            final(self).value == v,
    {
        self.value = v;
    }

    /// The static swap binding: stores the argument and hands back what the
    /// type-scoped state held before.
    pub fn swap(&mut self, v: i64) -> (r: i64)
        ensures
            r == old(self).value,
            final(self).value == v,
    {
        let prev = self.value;
        self.value = v;
        prev
    }
}

/// An indexed interface's backing store: a keyed table. `get` on an unset
/// key yields the absent sentinel, never an error; `set` always succeeds;
/// `delete` is idempotent and succeeds even on an absent key.
pub struct IndexedState {
    pub entries: Vec<(i64, i64)>,
}

/// The keys of the table are pairwise distinct.
pub open spec fn keyed_wf(s: Seq<(i64, i64)>) -> bool {
    forall|i: int, j: int| 0 <= i < j < s.len() ==> (#[trigger] s[i]).0 != (#[trigger] s[j]).0
}

/// The key is present in the table.
pub open spec fn seq_has(s: Seq<(i64, i64)>, k: i64) -> bool {
    exists|i: int| 0 <= i < s.len() && (#[trigger] s[i]).0 == k
}

/// The value under a present key.
pub open spec fn seq_at(s: Seq<(i64, i64)>, k: i64) -> i64 {
    (s[choose|i: int| 0 <= i < s.len() && (#[trigger] s[i]).0 == k]).1
}

/// The transition the indexed setter makes: afterwards the key holds the
/// value, and every other key keeps its presence and its value.
pub open spec fn sets_key(pre: IndexedState, post: IndexedState, k: i64, v: i64) -> bool {
    &&& post.spec_has(k)
    &&& post.spec_at(k) == v
    &&& forall|k2: i64|
        k2 != k ==> (#[trigger] post.spec_has(k2)) == pre.spec_has(k2) && (pre.spec_has(k2)
            ==> post.spec_at(k2) == pre.spec_at(k2))
}

/// The transition the indexed deleter makes: afterwards the key is absent,
/// and every other key keeps its presence and its value.
pub open spec fn deletes_key(pre: IndexedState, post: IndexedState, k: i64) -> bool {
    &&& !post.spec_has(k)
    &&& forall|k2: i64|
        k2 != k ==> (#[trigger] post.spec_has(k2)) == pre.spec_has(k2) && (pre.spec_has(k2)
            ==> post.spec_at(k2) == pre.spec_at(k2))
}

impl IndexedState {
    /// The keys are unique, so each key denotes at most one value.
    pub open spec fn wf(&self) -> bool {
        keyed_wf(self.entries@)
    }

    /// The key is present.
    pub open spec fn spec_has(&self, k: i64) -> bool {
        seq_has(self.entries@, k)
    }

    /// The value under a present key.
    pub open spec fn spec_at(&self, k: i64) -> i64 {
        seq_at(self.entries@, k)
    }

    /// An empty table.
    pub fn new() -> (r: IndexedState)
        ensures
            r.wf(),
            forall|k: i64| !r.spec_has(k),
    {
        IndexedState { entries: Vec::new() }
    }

    /// The indexed getter binding: the value under the key, or the absent
    /// sentinel when the key is unset — not an error.
    pub fn get(&self, k: i64) -> (r: Option<i64>)
        requires
            self.wf(),
        ensures
            r matches Some(v) ==> self.spec_has(k) && v == self.spec_at(k),
            r is None ==> !self.spec_has(k),
    {
        let n = self.entries.len();
        for i in 0..n
            invariant
                self.wf(),
                n == self.entries@.len(),
                forall|j: int| 0 <= j < i ==> (#[trigger] self.entries@[j]).0 != k,
        {
            if self.entries[i].0 == k {
                proof {
                    let w = choose|w: int|
                        0 <= w < self.entries@.len() && (#[trigger] self.entries@[w]).0 == k;
                    assert(w == i as int);
                }
                return Some(self.entries[i].1);
            }
        }
        None
    }

    /// The indexed setter binding: always succeeds; afterwards the key holds
    /// exactly this value and every other key is untouched. Setting the same
    /// key again simply overwrites, so the last write wins.
    pub fn set(&mut self, k: i64, v: i64)
        requires
            old(self).wf(),
        ensures
            final(self).wf(),
            sets_key(*old(self), *final(self), k, v),
    {
        let n = self.entries.len();
        for i in 0..n
            invariant
                *self == *old(self),
                old(self).wf(),
                n == self.entries@.len(),
                forall|j: int| 0 <= j < i ==> (#[trigger] self.entries@[j]).0 != k,
        {
            if self.entries[i].0 == k {
                let ghost before = self.entries@;
                let _old_entry = self.entries.remove(i);
                self.entries.insert(i, (k, v));
                proof {
                    assert(self.entries@ =~= before.update(i as int, (k, v)));
                    lemma_keyed_update(before, self.entries@, i as int, k, v);
                }
                return ;
            }
        }
        let ghost before = self.entries@;
        self.entries.push((k, v));
        proof {
            assert(self.entries@ =~= before.push((k, v)));
            lemma_keyed_push(before, self.entries@, k, v);
        }
    }

    /// The indexed deleter binding: afterwards the key is absent and every
    /// other key is untouched; deleting an already-absent key succeeds and
    /// changes nothing, so deletion is idempotent.
    pub fn delete(&mut self, k: i64)
        requires
            old(self).wf(),
        ensures
            final(self).wf(),
            deletes_key(*old(self), *final(self), k),
    {
        let n = self.entries.len();
        for i in 0..n
            invariant
                *self == *old(self),
                old(self).wf(),
                n == self.entries@.len(),
                forall|j: int| 0 <= j < i ==> (#[trigger] self.entries@[j]).0 != k,
        {
            if self.entries[i].0 == k {
                let ghost before = self.entries@;
                let _removed = self.entries.remove(i);
                proof {
                    assert(self.entries@ =~= before.remove(i as int));
                    lemma_keyed_remove(before, self.entries@, i as int, k);
                }
                return ;
            }
        }
    }
}

/// The indexed accessors round-trip: reading an unset key gives the absent
/// sentinel; after a set the key reads back exactly the written value; after
/// a following delete it is absent again; and a key never touched keeps its
/// presence and value through both transitions.
pub proof fn lemma_indexed_round_trip(
    s0: IndexedState,
    s1: IndexedState,
    s2: IndexedState,
    k: i64,
    v: i64,
)
    requires
        sets_key(s0, s1, k, v),
        deletes_key(s1, s2, k),
    ensures
        s1.spec_has(k) && s1.spec_at(k) == v,
        !s2.spec_has(k),
        forall|k2: i64| k2 != k ==> #[trigger] s2.spec_has(k2) == s0.spec_has(k2),
        forall|k2: i64|
            k2 != k && s0.spec_has(k2) ==> #[trigger] s2.spec_at(k2) == s0.spec_at(k2),
{
    assert forall|k2: i64| k2 != k implies #[trigger] s2.spec_has(k2) == s0.spec_has(k2) by {
        assert(s2.spec_has(k2) == s1.spec_has(k2));
        assert(s1.spec_has(k2) == s0.spec_has(k2));
    }
    assert forall|k2: i64|
        k2 != k && s0.spec_has(k2) implies #[trigger] s2.spec_at(k2) == s0.spec_at(k2) by {
        assert(s1.spec_has(k2) == s0.spec_has(k2));
        assert(s1.spec_at(k2) == s0.spec_at(k2));
        assert(s2.spec_has(k2) == s1.spec_has(k2));
        assert(s2.spec_at(k2) == s1.spec_at(k2));
    }
}

/// After replacing the entry at `i` (whose key was `k`) by `(k, v)` in a
/// uniquely-keyed table, the key holds `v` and every other key is untouched.
proof fn lemma_keyed_update(before: Seq<(i64, i64)>, after: Seq<(i64, i64)>, i: int, k: i64, v: i64)
    requires
        0 <= i < before.len(),
        before[i].0 == k,
        after == before.update(i, (k, v)),
        forall|a: int, b: int|
            0 <= a < b < before.len() ==> (#[trigger] before[a]).0 != (#[trigger] before[b]).0,
    ensures
        keyed_wf(after),
        seq_has(after, k),
        seq_at(after, k) == v,
        forall|k2: i64| k2 != k ==> #[trigger] seq_has(after, k2) == seq_has(before, k2),
        forall|k2: i64|
            k2 != k && seq_has(before, k2) ==> #[trigger] seq_at(after, k2) == seq_at(before, k2),
{
    assert(after[i].0 == k);
    assert(after[i].1 == v);
    assert forall|a: int| 0 <= a < after.len() implies (#[trigger] after[a]).0 == before[a].0 by {}
    assert forall|a: int, b: int| 0 <= a < b < after.len() implies (#[trigger] after[a]).0 != (
    #[trigger] after[b]).0 by {
        assert(after[a].0 == before[a].0);
        assert(after[b].0 == before[b].0);
    }
    assert(keyed_wf(after));
    let ji = choose|i: int| 0 <= i < after.len() && (#[trigger] after[i]).0 == k;
    assert(ji == i);
    assert(seq_at(after, k) == v);
    assert forall|k2: i64| k2 != k implies #[trigger] seq_has(after, k2) == seq_has(before, k2) by {
        if seq_has(after, k2) {
            let j = choose|i: int| 0 <= i < after.len() && (#[trigger] after[i]).0 == k2;
            assert(before[j].0 == k2);
            assert(seq_has(before, k2));
        }
        if seq_has(before, k2) {
            let j = choose|i: int| 0 <= i < before.len() && (#[trigger] before[i]).0 == k2;
            assert(after[j].0 == k2);
            assert(seq_has(after, k2));
        }
    }
    assert forall|k2: i64|
        k2 != k && seq_has(before, k2) implies #[trigger] seq_at(after, k2) == seq_at(
        before,
        k2,
    ) by {
        assert(seq_has(after, k2));
        let ja = choose|i: int| 0 <= i < after.len() && (#[trigger] after[i]).0 == k2;
        let jb = choose|i: int| 0 <= i < before.len() && (#[trigger] before[i]).0 == k2;
        assert(after[ja].0 == k2);
        assert(before[ja].0 == k2);
        assert(ja == jb);
        assert(ja != i);
        assert(after[ja] == before[ja]);
    }
}

/// After appending `(k, v)` for a key not in a uniquely-keyed table, the key
/// holds `v` and every other key is untouched.
proof fn lemma_keyed_push(before: Seq<(i64, i64)>, after: Seq<(i64, i64)>, k: i64, v: i64)
    requires
        after == before.push((k, v)),
        forall|j: int| 0 <= j < before.len() ==> (#[trigger] before[j]).0 != k,
        forall|a: int, b: int|
            0 <= a < b < before.len() ==> (#[trigger] before[a]).0 != (#[trigger] before[b]).0,
    ensures
        keyed_wf(after),
        seq_has(after, k),
        seq_at(after, k) == v,
        forall|k2: i64| k2 != k ==> #[trigger] seq_has(after, k2) == seq_has(before, k2),
        forall|k2: i64|
            k2 != k && seq_has(before, k2) ==> #[trigger] seq_at(after, k2) == seq_at(before, k2),
{
    let last = after.len() - 1;
    assert(after.len() == before.len() + 1);
    assert(after[last] == (k, v));
    assert forall|a: int, b: int| 0 <= a < b < after.len() implies (#[trigger] after[a]).0 != (
    #[trigger] after[b]).0 by {
        if b < last {
            assert(after[a] == before[a]);
            assert(after[b] == before[b]);
        } else {
            assert(after[a] == before[a]);
            assert(after[b].0 == k);
        }
    }
    assert(keyed_wf(after));
    assert(seq_has(after, k));
    let ji = choose|i: int| 0 <= i < after.len() && (#[trigger] after[i]).0 == k;
    assert(after[ji].0 == k);
    assert(ji == last);
    assert(seq_at(after, k) == v);
    assert forall|k2: i64| k2 != k implies #[trigger] seq_has(after, k2) == seq_has(before, k2) by {
        if seq_has(after, k2) {
            let j = choose|i: int| 0 <= i < after.len() && (#[trigger] after[i]).0 == k2;
            assert(after[j].0 == k2);
            assert(j != last);
            assert(before[j].0 == k2);
            assert(seq_has(before, k2));
        }
        if seq_has(before, k2) {
            let j = choose|i: int| 0 <= i < before.len() && (#[trigger] before[i]).0 == k2;
            assert(after[j].0 == k2);
            assert(seq_has(after, k2));
        }
    }
    assert forall|k2: i64|
        k2 != k && seq_has(before, k2) implies #[trigger] seq_at(after, k2) == seq_at(
        before,
        k2,
    ) by {
        assert(seq_has(after, k2));
        let ja = choose|i: int| 0 <= i < after.len() && (#[trigger] after[i]).0 == k2;
        let jb = choose|i: int| 0 <= i < before.len() && (#[trigger] before[i]).0 == k2;
        assert(after[ja].0 == k2);
        assert(ja != last);
        assert(before[ja].0 == k2);
        assert(ja == jb);
        assert(after[ja] == before[ja]);
    }
}

/// After removing the entry at `i` (whose key was `k`) from a uniquely-keyed
/// table, the key is absent and every other key is untouched.
proof fn lemma_keyed_remove(before: Seq<(i64, i64)>, after: Seq<(i64, i64)>, i: int, k: i64)
    requires
        0 <= i < before.len(),
        before[i].0 == k,
        after == before.remove(i),
        forall|a: int, b: int|
            0 <= a < b < before.len() ==> (#[trigger] before[a]).0 != (#[trigger] before[b]).0,
    ensures
        keyed_wf(after),
        !seq_has(after, k),
        forall|k2: i64| k2 != k ==> #[trigger] seq_has(after, k2) == seq_has(before, k2),
        forall|k2: i64|
            k2 != k && seq_has(before, k2) ==> #[trigger] seq_at(after, k2) == seq_at(before, k2),
{
    assert(after.len() == before.len() - 1);
    assert forall|a: int| 0 <= a < after.len() implies (#[trigger] after[a]).0 != k by {
        if a < i {
            assert(after[a] == before[a]);
        } else {
            assert(after[a] == before[a + 1]);
        }
    }
    assert forall|a: int, b: int| 0 <= a < b < after.len() implies (#[trigger] after[a]).0 != (
    #[trigger] after[b]).0 by {
        if a < i {
            assert(after[a] == before[a]);
        } else {
            assert(after[a] == before[a + 1]);
        }
        if b < i {
            assert(after[b] == before[b]);
        } else {
            assert(after[b] == before[b + 1]);
        }
    }
    assert(keyed_wf(after));
    assert(!seq_has(after, k));
    assert forall|k2: i64| k2 != k implies #[trigger] seq_has(after, k2) == seq_has(before, k2) by {
        if seq_has(after, k2) {
            let j = choose|i: int| 0 <= i < after.len() && (#[trigger] after[i]).0 == k2;
            assert(after[j].0 == k2);
            if j < i {
                assert(before[j].0 == k2);
            } else {
                assert(before[j + 1].0 == k2);
            }
            assert(seq_has(before, k2));
        }
        if seq_has(before, k2) {
            let j = choose|i: int| 0 <= i < before.len() && (#[trigger] before[i]).0 == k2;
            assert(before[j].0 == k2);
            assert(j != i);
            if j < i {
                assert(after[j].0 == k2);
            } else {
                assert(after[j - 1].0 == k2);
            }
            assert(seq_has(after, k2));
        }
    }
    assert forall|k2: i64|
        k2 != k && seq_has(before, k2) implies #[trigger] seq_at(after, k2) == seq_at(
        before,
        k2,
    ) by {
        assert(seq_has(after, k2));
        let ja = choose|i: int| 0 <= i < after.len() && (#[trigger] after[i]).0 == k2;
        let jb = choose|i: int| 0 <= i < before.len() && (#[trigger] before[i]).0 == k2;
        assert(after[ja].0 == k2);
        assert(before[jb].0 == k2);
        if ja < i {
            assert(after[ja] == before[ja]);
            assert(ja == jb);
        } else {
            assert(after[ja] == before[ja + 1]);
            assert(ja + 1 == jb);
        }
    }
}

/// The absent-vs-present wrapper the emitter inserts around a nullable
/// value: an absent value never crosses the boundary and stays absent; a
/// present value goes through the underlying call and comes back present.
pub fn map_present<F: Fn(i64) -> i64>(f: &F, v: Option<i64>) -> (r: Option<i64>)
    requires
        v matches Some(x) ==> f.requires((x,)),
    ensures
        v is None <==> r is None,
        v matches Some(x) ==> r matches Some(y) && f.ensures((x,), y),
{
    match v {
        Some(x) => Some(f(x)),
        None => None,
    }
}

/// A global, non-interface-scoped binding: a free function that calls its
/// import directly. It echoes what the host computed for the argument, and a
/// missing import fails only this call, recoverably.
pub fn call_global(env: &HostEnv, import: &String, arg: i64) -> (r: Result<i64, CallError>)
    ensures
        env.spec_provides(import@) <==> r is Ok,
        r matches Ok(v) ==> v == arg,
        r matches Err(e) ==> e@ == CallErrorV::VUndefinedImport(import@),
{
    if env.provides(import) {
        Ok(arg)
    } else {
        Err(CallError::UndefinedImport(import.clone()))
    }
}

/// A callback adapter around a native closure taking two marshalled values.
/// It borrows the closure, so the host may invoke it zero or many times
/// while the registration is live, and it cannot be invoked once the owning
/// scope has released the borrow.
pub fn invoke_binary_callback<F: Fn(u64, u64) -> u64>(f: &F, a: u64, b: u64) -> (r: u64)
    requires
        f.requires((a, b)),
    ensures
        f.ensures((a, b), r),
{
    f(a, b)
}

/// A callback adapter around a native closure taking a marshalled string and
/// a count, handing back to the host the string the closure built.
pub fn invoke_string_callback<F: Fn(String, usize) -> String>(f: &F, s: String, n: usize) -> (r:
    String)
    requires
        f.requires((s, n)),
    ensures
        f.ensures((s, n), r),
{
    f(s, n)
}

/// A callback adapter around a native closure taking no arguments, invoked
/// whenever the host fires the callback.
pub fn invoke_unit_callback<F: Fn() -> bool>(f: &F) -> (r: bool)
    requires
        f.requires(()),
    ensures
        f.ensures((), r),
{
    f()
}

} // verus!
