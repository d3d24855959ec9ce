//! Core of a task-dispatch engine: a registry of task templates, the three
//! task collections and their lifecycle, an event bus, the module table and
//! the dispatch service, with the snapshot format that binds the collections
//! to a durable key-value store.

use vstd::prelude::*;
use std::sync::Arc;

pub mod api;
mod clock;
pub mod codec;
pub mod config;
pub mod engine_core;
mod entropy;
pub mod event;
pub mod events;
pub mod id_map;
pub mod identifier;
pub mod invariants;
pub mod packer;
pub mod paging;
pub mod plugin;
pub mod proto;
pub mod reclaim;
pub mod service;
pub mod snapshot;
pub mod store;
pub mod task;
pub mod text;

verus! {

/// The version of the engine's interface. A module must have been built
/// against this very version.
pub const GIT_VERSION: &'static str = "0.1.0";

/// The version of the compiler that the engine was built with. A module must
/// have been built with the same.
pub const RUSTC_VERSION: &'static str = "1.95.0";

/// Names a task type or an event: a namespace and a name.
pub type Identifier = (String, String);

/// The wire form of an identifier, `"namespace:name"`.
pub type RawIdentier = String;

/// What an identifier is to a contract: its two parts as character sequences.
pub type IdView = (Seq<char>, Seq<char>);

/// The mathematical value of an identifier.
pub open spec fn id_view(id: Identifier) -> IdView {
    (id.0@, id.1@)
}

/// Whether two identifiers name the same thing.
pub fn same_id(a: &Identifier, b: &Identifier) -> (r: bool)
    ensures
        r == (id_view(*a) == id_view(*b)),
{
    a.0 == b.0 && a.1 == b.1
}

/// An equal identifier with storage of its own.
pub fn clone_id(id: &Identifier) -> (r: Identifier)
    ensures
        id_view(r) == id_view(*id),
{
    (id.0.clone(), id.1.clone())
}

/// A registry of shared values by identifier.
pub trait Registry<T> {
    /// What is registered, by identifier.
    spec fn entries(&self) -> Map<IdView, Arc<T>>;

    /// Whether two values are the same to a contract.
    spec fn same(a: T, b: T) -> bool;

    /// Registers `registree` under `identifier`. What was registered there
    /// before is replaced.
    fn register(&mut self, registree: Arc<T>, identifier: Identifier)
        ensures
            final(self).entries() == old(self).entries().insert(id_view(identifier), registree),
    ;

    /// A fresh instance of what is registered under `identifier`.
    fn get(&self, identifier: &Identifier) -> (r: Option<Box<T>>)
        ensures
            match r {
                Some(b) => self.entries().contains_key(id_view(*identifier)) && Self::same(
                    *b,
                    *self.entries()[id_view(*identifier)],
                ),
                None => !self.entries().contains_key(id_view(*identifier)),
            },
    ;
}

} // verus!
