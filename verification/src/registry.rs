//! The interface registry: collects raw interface, mixin and partial
//! declarations keyed by name. It is the only mutation point of a
//! compilation; once populated it is read-only input to the resolver.
use vstd::prelude::*;

use crate::CompileError;
use crate::CompileErrorV;
use crate::decl::InterfaceDecl;
use crate::decl::InterfaceDeclV;
use crate::decl::MixinDecl;
use crate::decl::MixinDeclV;
use crate::decl::PartialDecl;
use crate::decl::PartialDeclV;

verus! {

/// All declarations of one compilation, keyed by name.
pub struct Registry {
    pub interfaces: Vec<InterfaceDecl>,
    pub mixins: Vec<MixinDecl>,
    pub partials: Vec<PartialDecl>,
}

/// The mathematical model of a `Registry`.
pub struct RegistryV {
    pub interfaces: Seq<InterfaceDeclV>,
    pub mixins: Seq<MixinDeclV>,
    pub partials: Seq<PartialDeclV>,
}

impl View for Registry {
    type V = RegistryV;

    open spec fn view(&self) -> RegistryV {
        RegistryV {
            interfaces: self.interfaces@.map_values(|d: InterfaceDecl| d@),
            mixins: self.mixins@.map_values(|d: MixinDecl| d@),
            partials: self.partials@.map_values(|d: PartialDecl| d@),
        }
    }
}

impl Registry {
    /// No two non-partial, non-mixin interfaces share a name, and mixins are
    /// likewise keyed by a unique name.
    pub open spec fn wf(&self) -> bool {
        &&& forall|i: int, j: int|
            0 <= i < j < self@.interfaces.len() ==> self@.interfaces[i].name
                != self@.interfaces[j].name
        &&& forall|i: int, j: int|
            0 <= i < j < self@.mixins.len() ==> self@.mixins[i].name != self@.mixins[j].name
    }

    /// An empty registry.
    pub fn new() -> (r: Registry)
        ensures
            r@.interfaces =~= Seq::<InterfaceDeclV>::empty(),
            r@.mixins =~= Seq::<MixinDeclV>::empty(),
            r@.partials =~= Seq::<PartialDeclV>::empty(),
            r.wf(),
    {
        Registry { interfaces: Vec::new(), mixins: Vec::new(), partials: Vec::new() }
    }

    /// Registers an interface. A second non-partial, non-mixin interface with
    /// an already-registered name is refused with `DuplicateInterface`.
    pub fn register_interface(&mut self, d: InterfaceDecl) -> (r: Result<(), CompileError>)
        requires
            old(self).wf(),
        ensures
            final(self).wf(),
            final(self)@.mixins == old(self)@.mixins,
            final(self)@.partials == old(self)@.partials,
            match r {
                Ok(()) => {
                    &&& final(self)@.interfaces =~= old(self)@.interfaces.push(d@)
                    &&& forall|k: int|
                        0 <= k < old(self)@.interfaces.len()
                            ==> #[trigger] old(self)@.interfaces[k].name != d@.name
                },
                Err(e) => {
                    &&& final(self)@.interfaces == old(self)@.interfaces
                    &&& e@ == CompileErrorV::VDuplicateInterface(d@.name)
                    &&& exists|k: int|
                        0 <= k < old(self)@.interfaces.len()
                            && #[trigger] old(self)@.interfaces[k].name == d@.name
                },
            },
    {
        let n = self.interfaces.len();
        for i in 0..n
            invariant
                *self == *old(self),
                old(self).wf(),
                n == self.interfaces@.len(),
                forall|k: int| 0 <= k < i ==> #[trigger] self@.interfaces[k].name != d@.name,
        {
            if self.interfaces[i].name == d.name {
                proof {
                    assert(self@.interfaces[i as int].name == d@.name);
                }
                return Err(CompileError::DuplicateInterface(d.name));
            }
        }
        self.interfaces.push(d);
        proof {
            assert(self@.interfaces =~= old(self)@.interfaces.push(d@));
            assert(self@.mixins =~= old(self)@.mixins);
            assert(self@.partials =~= old(self)@.partials);
        }
        Ok(())
    }

    /// Registers a mixin. A second mixin with an already-registered mixin
    /// name is refused with `DuplicateInterface`.
    pub fn register_mixin(&mut self, d: MixinDecl) -> (r: Result<(), CompileError>)
        requires
            old(self).wf(),
        ensures
            final(self).wf(),
            final(self)@.interfaces == old(self)@.interfaces,
            final(self)@.partials == old(self)@.partials,
            match r {
                Ok(()) => {
                    &&& final(self)@.mixins =~= old(self)@.mixins.push(d@)
                    &&& forall|k: int|
                        0 <= k < old(self)@.mixins.len()
                            ==> #[trigger] old(self)@.mixins[k].name != d@.name
                },
                Err(e) => {
                    &&& final(self)@.mixins == old(self)@.mixins
                    &&& e@ == CompileErrorV::VDuplicateInterface(d@.name)
                    &&& exists|k: int|
                        0 <= k < old(self)@.mixins.len()
                            && #[trigger] old(self)@.mixins[k].name == d@.name
                },
            },
    {
        let n = self.mixins.len();
        for i in 0..n
            invariant
                *self == *old(self),
                old(self).wf(),
                n == self.mixins@.len(),
                forall|k: int| 0 <= k < i ==> #[trigger] self@.mixins[k].name != d@.name,
        {
            if self.mixins[i].name == d.name {
                proof {
                    assert(self@.mixins[i as int].name == d@.name);
                }
                return Err(CompileError::DuplicateInterface(d.name));
            }
        }
        self.mixins.push(d);
        proof {
            assert(self@.mixins =~= old(self)@.mixins.push(d@));
            assert(self@.interfaces =~= old(self)@.interfaces);
            assert(self@.partials =~= old(self)@.partials);
        }
        Ok(())
    }

    /// Registers a partial interface fragment.
    pub fn register_partial(&mut self, d: PartialDecl)
        requires
            old(self).wf(),
        ensures
            final(self).wf(),
            final(self)@.interfaces == old(self)@.interfaces,
            final(self)@.mixins == old(self)@.mixins,
            final(self)@.partials =~= old(self)@.partials.push(d@),
    {
        self.partials.push(d);
        proof {
            assert(self@.partials =~= old(self)@.partials.push(d@));
            assert(self@.interfaces =~= old(self)@.interfaces);
            assert(self@.mixins =~= old(self)@.mixins);
        }
    }

    /// Looks an interface up by name; the index of its (unique) entry, or
    /// `UnknownInterface` exactly when no interface carries the name.
    pub fn lookup(&self, name: &String) -> (r: Result<usize, CompileError>)
        ensures
            match r {
                Ok(i) => i < self@.interfaces.len() && self@.interfaces[i as int].name == name@,
                Err(e) => {
                    &&& e@ == CompileErrorV::VUnknownInterface(name@)
                    &&& forall|k: int|
                        0 <= k < self@.interfaces.len()
                            ==> #[trigger] self@.interfaces[k].name != name@
                },
            },
    {
        let n = self.interfaces.len();
        for i in 0..n
            invariant
                n == self.interfaces@.len(),
                forall|k: int| 0 <= k < i ==> #[trigger] self@.interfaces[k].name != name@,
        {
            if self.interfaces[i].name == *name {
                return Ok(i);
            }
        }
        Err(CompileError::UnknownInterface(name.clone()))
    }

    /// Looks a mixin up by name; the index of its first entry, or
    /// `UnknownInterface` exactly when no mixin carries the name.
    pub fn lookup_mixin(&self, name: &String) -> (r: Result<usize, CompileError>)
        ensures
            match r {
                Ok(i) => i < self@.mixins.len() && self@.mixins[i as int].name == name@,
                Err(e) => {
                    &&& e@ == CompileErrorV::VUnknownInterface(name@)
                    &&& forall|k: int|
                        0 <= k < self@.mixins.len() ==> #[trigger] self@.mixins[k].name != name@
                },
            },
    {
        let n = self.mixins.len();
        for i in 0..n
            invariant
                n == self.mixins@.len(),
                forall|k: int| 0 <= k < i ==> #[trigger] self@.mixins[k].name != name@,
        {
            if self.mixins[i].name == *name {
                return Ok(i);
            }
        }
        Err(CompileError::UnknownInterface(name.clone()))
    }
}

} // verus!
