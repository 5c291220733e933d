//! The handlers that implement the symbols of a strategy, and how they are held against the
//! symbol table.
use crate::handlers::HandlerTable;
use crate::symbols::{type_text, TypeSpec};
use std::sync::Arc;
use vstd::prelude::*;

verus! {

/// A data item: it reads a value of the chain or of the environment.
pub trait DataItemHandler: Send + Sync {
    /// Whether the handler may declare the type `declared`: any type, unless the handler says less.
    open spec fn may_declare(&self, declared: Seq<char>) -> bool {
        true
    }

    /// The type of the value that the handler reads.
    fn declared_return_type(&self) -> (declared: TypeSpec)
        ensures
            self.may_declare(declared@),
    ;
}

/// An executor: it carries out an operation and may return a value.
pub trait ExecutorHandler: Send + Sync {
    /// Whether the handler may declare the type `declared`, or that it returns nothing: anything,
    /// unless the handler says less.
    open spec fn may_declare(&self, declared: Option<Seq<char>>) -> bool {
        true
    }

    /// The type of the value that the handler returns, for one that returns a value.
    fn declared_return_type(&self) -> (declared: Option<TypeSpec>)
        ensures
            self.may_declare(type_text(declared)),
    ;
}

impl<T: DataItemHandler + ?Sized> DataItemHandler for Arc<T> {
    open spec fn may_declare(&self, declared: Seq<char>) -> bool {
        (**self).may_declare(declared)
    }

    fn declared_return_type(&self) -> (declared: TypeSpec) {
        (**self).declared_return_type()
    }
}

impl<T: ExecutorHandler + ?Sized> ExecutorHandler for Arc<T> {
    open spec fn may_declare(&self, declared: Option<Seq<char>>) -> bool {
        (**self).may_declare(declared)
    }

    fn declared_return_type(&self) -> (declared: Option<TypeSpec>) {
        (**self).declared_return_type()
    }
}

/// The handlers of a runtime, by the names of the symbols that they implement.
#[verifier::reject_recursive_types(D)]
#[verifier::reject_recursive_types(E)]
#[verifier::reject_recursive_types(C)]
#[verifier::reject_recursive_types(M)]
pub struct RuntimeRegistry<D, E, C, M> {
    pub data_items: HandlerTable<D>,
    pub executors: HandlerTable<E>,
    pub conditions: HandlerTable<C>,
    pub monitors: HandlerTable<M>,
}

/// The handlers of a runtime, as contracts speak of them.
#[verifier::ext_equal]
pub struct RegistryView<D, E, C, M> {
    pub data_items: Map<Seq<char>, D>,
    pub executors: Map<Seq<char>, E>,
    pub conditions: Map<Seq<char>, C>,
    pub monitors: Map<Seq<char>, M>,
}

impl<D, E, C, M> View for RuntimeRegistry<D, E, C, M> {
    type V = RegistryView<D, E, C, M>;

    open spec fn view(&self) -> RegistryView<D, E, C, M> {
        RegistryView {
            data_items: self.data_items@,
            executors: self.executors@,
            conditions: self.conditions@,
            monitors: self.monitors@,
        }
    }
}

impl<D, E, C, M> RegistryView<D, E, C, M> {
    /// No handler at all.
    pub open spec fn empty() -> Self {
        RegistryView {
            data_items: Map::empty(),
            executors: Map::empty(),
            conditions: Map::empty(),
            monitors: Map::empty(),
        }
    }
}

impl<D, E, C, M> RuntimeRegistry<D, E, C, M> {
    pub open spec fn wf(self) -> bool {
        &&& self.data_items.wf()
        &&& self.executors.wf()
        &&& self.conditions.wf()
        &&& self.monitors.wf()
    }

    /// A registry with no handler.
    pub fn new() -> (registry: Self)
        ensures
            registry.wf(),
            registry@ == RegistryView::<D, E, C, M>::empty(),
    {
        Self::default()
    }

    /// Puts a data item under a name, in place of the one that may be there.
    pub fn register_data_item(&mut self, name: &str, handler: D)
        requires
            old(self).wf(),
        ensures
            final(self).wf(),
            final(self)@ == (RegistryView {
                data_items: old(self)@.data_items.insert(name@, handler),
                ..old(self)@
            }),
    {
        self.data_items.register(name, handler);
    }

    /// Puts an executor under a name, in place of the one that may be there.
    pub fn register_executor(&mut self, name: &str, handler: E)
        requires
            old(self).wf(),
        ensures
            final(self).wf(),
            final(self)@ == (RegistryView {
                executors: old(self)@.executors.insert(name@, handler),
                ..old(self)@
            }),
    {
        self.executors.register(name, handler);
    }

    /// Puts a condition under a name, in place of the one that may be there.
    pub fn register_condition(&mut self, name: &str, handler: C)
        requires
            old(self).wf(),
        ensures
            final(self).wf(),
            final(self)@ == (RegistryView {
                conditions: old(self)@.conditions.insert(name@, handler),
                ..old(self)@
            }),
    {
        self.conditions.register(name, handler);
    }

    /// Puts a monitor under a name, in place of the one that may be there.
    pub fn register_monitor(&mut self, name: &str, handler: M)
        requires
            old(self).wf(),
        ensures
            final(self).wf(),
            final(self)@ == (RegistryView {
                monitors: old(self)@.monitors.insert(name@, handler),
                ..old(self)@
            }),
    {
        self.monitors.register(name, handler);
    }
}

impl<D, E, C, M> Default for RuntimeRegistry<D, E, C, M> {
    fn default() -> (registry: Self)
        ensures
            registry.wf(),
            registry@ == RegistryView::<D, E, C, M>::empty(),
    {
        RuntimeRegistry {
            data_items: HandlerTable::new(),
            executors: HandlerTable::new(),
            conditions: HandlerTable::new(),
            monitors: HandlerTable::new(),
        }
    }
}

} // verus!
