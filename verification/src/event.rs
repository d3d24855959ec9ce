//! The event bus: events, handlers, and their registries.
//!
//! A bus serves one family of events, `E`, with handlers of one type, `H`;
//! a family of several kinds of event is an enum, and so is a set of several
//! kinds of handler. Dispatch runs the handlers that are registered under an
//! identifier, in the order of their registration, each on what the one
//! before it left.

use vstd::prelude::*;
use std::sync::Arc;
use crate::{id_view, Identifier, IdView, Registry};
use crate::id_map::{IdMap, list_of, touched};

verus! {

/// An event: something that handlers observe and may change.
pub trait Event: Sized {
    /// What the event is to a contract.
    type V;

    /// The mathematical value of the event.
    open spec fn view(&self) -> Self::V {
        arbitrary()
    }

    /// Whether a handler has asked to cancel what the event announces.
    open spec fn cancelled(&self) -> bool {
        arbitrary()
    }

    /// The identifier of the event's kind.
    open spec fn ident(&self) -> IdView {
        arbitrary()
    }

    /// An equal event with storage of its own.
    fn clone_box(&self) -> (r: Box<Self>)
        ensures
            r.view() == self.view(),
            r.cancelled() == self.cancelled(),
            r.ident() == self.ident(),
    ;

    /// Asks to cancel what the event announces.
    fn cancel(&mut self)
        ensures
            final(self).cancelled(),
            final(self).ident() == old(self).ident(),
    ;

    /// Whether a handler has asked to cancel what the event announces.
    fn is_cancelled(&self) -> (r: bool)
        ensures
            r == self.cancelled(),
    ;

    /// The identifier of the event's kind.
    fn get_id(&self) -> (r: Identifier)
        ensures
            id_view(r) == self.ident(),
    ;
}

/// A handler of the events of family `E`.
pub trait EventHandler<E: Event> {
    /// What the handler makes of an event.
    open spec fn outcome(&self, before: E::V) -> E::V {
        arbitrary()
    }

    /// Observes the event, and changes it where the handler sees fit.
    fn handle(&self, event: &mut E)
        ensures
            final(event).view() == self.outcome(old(event).view()),
    ;
}

/// The handler that leaves every event as it is. It serves as the type of
/// the modules' handlers where no module brings one.
impl<E: Event> EventHandler<E> for () {
    open spec fn outcome(&self, before: E::V) -> E::V {
        before
    }

    fn handle(&self, event: &mut E) {
    }
}

/// A handler of one kind of event, `C`, seen as that kind.
pub trait EventCTX<C: Event> {
    /// What the handler makes of an event of its kind.
    open spec fn outcome_ctx(&self, before: C::V) -> C::V {
        arbitrary()
    }

    /// Observes the event, and changes it where the handler sees fit.
    #[allow(non_snake_case)]
    fn handleCTX(&self, event: &mut C)
        ensures
            final(event).view() == self.outcome_ctx(old(event).view()),
    ;
}

/// What an event has become after the handlers of `chain` have run on it, the
/// first of them first.
pub open spec fn dispatched<E: Event, H: EventHandler<E>>(chain: Seq<H>, event: E::V) -> E::V
    decreases chain.len(),
{
    if chain.len() == 0 {
        event
    } else {
        chain.last().outcome(dispatched(chain.drop_last(), event))
    }
}

/// Running a chain that got one more handler is running the old chain and
/// then that handler.
pub proof fn lemma_dispatched_push<E: Event, H: EventHandler<E>>(chain: Seq<H>, h: H, event: E::V)
    ensures
        dispatched(chain.push(h), event) == h.outcome(dispatched(chain, event)),
{
    assert(chain.push(h).drop_last() =~= chain);
}

/// The default instances of the known kinds of event.
#[derive(Debug)]
pub struct EngineEventRegistry<E> {
    pub events: IdMap<Arc<E>>,
}

/// The handler chains, by the identifier that they are registered under.
#[derive(Debug)]
pub struct EngineEventHandlerRegistry<H> {
    pub event_handlers: IdMap<Vec<H>>,
}

/// The event bus: the known events and the handlers that wait for them.
#[derive(Debug)]
pub struct EventBus<E, H> {
    pub event_registry: EngineEventRegistry<E>,
    pub event_handler_registry: EngineEventHandlerRegistry<H>,
}

impl<E> EngineEventRegistry<E> {
    /// A registry that knows no event.
    pub fn new() -> (r: Self)
        ensures
            r.events@ == Map::<IdView, Arc<E>>::empty(),
    {
        EngineEventRegistry { events: IdMap::new() }
    }
}

impl<E: Event> Registry<E> for EngineEventRegistry<E> {
    open spec fn entries(&self) -> Map<IdView, Arc<E>> {
        self.events@
    }

    open spec fn same(a: E, b: E) -> bool {
        a.view() == b.view() && a.ident() == b.ident() && a.cancelled() == b.cancelled()
    }

    fn register(&mut self, registree: Arc<E>, identifier: Identifier)
        ensures
            final(self).events.keys() == touched(old(self).events.keys(), id_view(identifier)),
    {
        self.events.insert(identifier, registree);
    }

    fn get(&self, identifier: &Identifier) -> (r: Option<Box<E>>) {
        match self.events.get(identifier) {
            Some(event) => Some(event.clone_box()),
            None => None,
        }
    }
}

impl<H> EngineEventHandlerRegistry<H> {
    /// A registry without handlers.
    pub fn new() -> (r: Self)
        ensures
            r.chains() == Map::<IdView, Seq<H>>::empty(),
            r.event_handlers.keys() == Seq::<IdView>::empty(),
    {
        let r = EngineEventHandlerRegistry { event_handlers: IdMap::new() };
        assert(r.chains() =~= Map::<IdView, Seq<H>>::empty());
        r
    }

    /// The handler chains by identifier.
    pub open spec fn chains(&self) -> Map<IdView, Seq<H>> {
        self.event_handlers.lists()
    }

    /// The handlers registered under `id`, in the order of their
    /// registration.
    pub open spec fn chain(&self, id: IdView) -> Seq<H> {
        list_of(self.chains(), id)
    }

    /// Appends `handler` to the chain of `identifier`.
    pub fn register_handler(&mut self, handler: H, identifier: Identifier)
        ensures
            final(self).chains() == old(self).chains().insert(
                id_view(identifier),
                old(self).chain(id_view(identifier)).push(handler),
            ),
            final(self).chain(id_view(identifier)) == old(self).chain(id_view(identifier)).push(
                handler,
            ),
            forall|other: IdView|
                other != id_view(identifier) ==> final(self).chain(other) == old(self).chain(other),
            final(self).event_handlers.keys() == touched(
                old(self).event_handlers.keys(),
                id_view(identifier),
            ),
    {
        self.event_handlers.push_item(&identifier, handler);
    }
}

impl<E: Event, H: EventHandler<E>> EventBus<E, H> {
    /// A bus that knows no event and has no handler.
    pub fn new() -> (r: Self)
        ensures
            r.event_registry.events@ == Map::<IdView, Arc<E>>::empty(),
            r.event_handler_registry.chains() == Map::<IdView, Seq<H>>::empty(),
            forall|id: IdView| r.event_handler_registry.chain(id) == Seq::<H>::empty(),
    {
        EventBus {
            event_registry: EngineEventRegistry::new(),
            event_handler_registry: EngineEventHandlerRegistry::new(),
        }
    }

    /// What dispatching `event` under `id` makes of it.
    pub open spec fn result(&self, id: IdView, event: E::V) -> E::V {
        dispatched(self.event_handler_registry.chain(id), event)
    }

    /// Runs the handlers registered under `id` on `event`, in the order of
    /// their registration. Without handlers the event stays as it is.
    pub fn handle(&self, id: Identifier, event: &mut E)
        ensures
            final(event).view() == self.result(id_view(id), old(event).view()),
    {
        match self.event_handler_registry.event_handlers.get(&id) {
            Some(handlers) => {
                let mut i: usize = 0;
                while i < handlers.len()
                    invariant
                        i <= handlers.len(),
                        event.view() == dispatched(handlers@.take(i as int), old(event).view()),
                    decreases handlers.len() - i,
                {
                    assert(handlers@.take(i + 1).drop_last() =~= handlers@.take(i as int));
                    handlers[i].handle(event);
                    i += 1;
                }
                assert(handlers@.take(i as int) =~= handlers@);
            },
            None => {},
        }
    }
}

} // verus!
