//! A compiler core that turns WebIDL-style interface declarations into a
//! merged, unambiguous interface model and a description of the callable
//! bindings to emit for it: mixins and partial interfaces are spliced into
//! their targets, same-named members are resolved into overload sets with
//! unique emitted names, members are classified into the roles the emitter
//! needs, and the runtime behaviour owed by the emitted surface (properties,
//! statics, indexed accessors, callbacks, failing imports) is modelled and
//! proved.
use vstd::prelude::*;

pub mod decl;
pub mod emit;
pub mod host;
pub mod registry;
pub mod classify;
pub mod compose;
pub mod overload;
pub mod types;

verus! {

/// A compile-time failure. Each failure is fatal to the affected interface
/// only and names the offending interface or member.
#[derive(Debug)]
pub enum CompileError {
    /// Two non-partial, non-mixin interfaces share a name.
    DuplicateInterface(String),
    /// A looked-up interface or mixin name was never registered.
    UnknownInterface(String),
    /// An incoming mixin or partial member collides with a base member of a
    /// different kind (interface name, member name).
    MemberConflict(String, String),
    /// Two same-named signatures cannot be told apart, or their emitted
    /// names collide (interface name, member name).
    AmbiguousOverload(String, String),
}

/// The mathematical model of a `CompileError`.
pub enum CompileErrorV {
    VDuplicateInterface(Seq<char>),
    VUnknownInterface(Seq<char>),
    VMemberConflict(Seq<char>, Seq<char>),
    VAmbiguousOverload(Seq<char>, Seq<char>),
}

impl View for CompileError {
    type V = CompileErrorV;

    open spec fn view(&self) -> CompileErrorV {
        match self {
            CompileError::DuplicateInterface(n) => CompileErrorV::VDuplicateInterface(n@),
            CompileError::UnknownInterface(n) => CompileErrorV::VUnknownInterface(n@),
            CompileError::MemberConflict(i, m) => CompileErrorV::VMemberConflict(i@, m@),
            CompileError::AmbiguousOverload(i, m) => CompileErrorV::VAmbiguousOverload(i@, m@),
        }
    }
}

/// A host-side construction failure: the host constructor threw.
#[derive(Clone, Copy, PartialEq, Eq, Structural, Debug)]
pub struct ConstructError {
    pub host_threw: bool,
}

/// A host-side invocation failure. It is recoverable: the caller receives a
/// result to branch on, and no other binding is disturbed.
#[derive(Debug)]
pub enum CallError {
    /// The call resolved to an import the host never provided.
    UndefinedImport(String),
    /// The host function threw.
    HostException,
}

/// The mathematical model of a `CallError`.
pub enum CallErrorV {
    VUndefinedImport(Seq<char>),
    VHostException,
}

impl View for CallError {
    type V = CallErrorV;

    open spec fn view(&self) -> CallErrorV {
        match self {
            CallError::UndefinedImport(n) => CallErrorV::VUndefinedImport(n@),
            CallError::HostException => CallErrorV::VHostException,
        }
    }
}

} // verus!
