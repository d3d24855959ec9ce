//! The custom-call event: carries an opaque request to a handler that a
//! module installed, and the handler's reply back.

use vstd::prelude::*;
use crate::{clone_id, id_view, Identifier, IdView};
use crate::api::EngineAPI;
use crate::event::{Event, EventHandler};
use crate::events::{CoreEvent, CoreEventView, Events, ID};

verus! {

/// A custom call: the handler it is meant for, the request bytes, and the
/// reply, which starts empty.
#[derive(Debug)]
pub struct CgrpcEvent {
    pub cancelled: bool,
    pub id: Identifier,
    pub handler_id: Identifier,
    pub payload: Vec<u8>,
    pub output: Vec<u8>,
}

/// The mathematical value of a [`CgrpcEvent`].
pub struct CgrpcEventView {
    pub cancelled: bool,
    pub id: IdView,
    pub handler_id: IdView,
    pub payload: Seq<u8>,
    pub output: Seq<u8>,
}

impl Clone for CgrpcEvent {
    fn clone(&self) -> (r: Self)
        ensures
            r.view() == self.view(),
    {
        CgrpcEvent {
            cancelled: self.cancelled,
            id: clone_id(&self.id),
            handler_id: clone_id(&self.handler_id),
            payload: self.payload.clone(),
            output: self.output.clone(),
        }
    }
}

impl Event for CgrpcEvent {
    type V = CgrpcEventView;

    open spec fn view(&self) -> CgrpcEventView {
        CgrpcEventView {
            cancelled: self.cancelled,
            id: id_view(self.id),
            handler_id: id_view(self.handler_id),
            payload: self.payload@,
            output: self.output@,
        }
    }

    open spec fn cancelled(&self) -> bool {
        self.cancelled
    }

    open spec fn ident(&self) -> IdView {
        id_view(self.id)
    }

    fn clone_box(&self) -> (r: Box<Self>) {
        Box::new(self.clone())
    }

    fn cancel(&mut self)
        ensures
            *final(self) == (CgrpcEvent { cancelled: true, ..*old(self) }),
    {
        self.cancelled = true;
    }

    fn is_cancelled(&self) -> (r: bool) {
        self.cancelled
    }

    fn get_id(&self) -> (r: Identifier) {
        clone_id(&self.id)
    }
}

impl Events {
    /// The identifier of custom-call events, `core:cgrpc_event`.
    pub open spec fn cgrpc_id() -> IdView {
        ("core"@, "cgrpc_event"@)
    }

    /// The event that carries `payload` to the handler `handler_id`.
    pub open spec fn cgrpc_request(handler_id: IdView, payload: Seq<u8>) -> CoreEventView {
        CoreEventView::Cgrpc(
            CgrpcEventView {
                cancelled: false,
                id: Self::cgrpc_id(),
                handler_id,
                payload,
                output: Seq::empty(),
            },
        )
    }

    /// The reply that the handlers of `api` give to a custom call: empty
    /// where no handler gives one.
    pub open spec fn cgrpc_reply<T, X: EventHandler<CoreEvent>>(
        api: EngineAPI<T, X>,
        handler_id: IdView,
        payload: Seq<u8>,
    ) -> Seq<u8> {
        match api.event_bus.result(Self::cgrpc_id(), Self::cgrpc_request(handler_id, payload)) {
            CoreEventView::Cgrpc(c) => c.output,
            _ => Seq::empty(),
        }
    }

    /// Dispatches a custom call and hands back the reply.
    #[allow(non_snake_case)]
    pub fn CgrpcEvent<T, X: EventHandler<CoreEvent>>(
        api: &EngineAPI<T, X>,
        handler_id: Identifier,
        payload: Vec<u8>,
    ) -> (r: Vec<u8>)
        ensures
            r@ == Self::cgrpc_reply(*api, id_view(handler_id), payload@),
    {
        let mut event = CoreEvent::Cgrpc(
            CgrpcEvent {
                cancelled: false,
                id: ID("core", "cgrpc_event"),
                handler_id,
                payload,
                output: Vec::new(),
            },
        );
        api.event_bus.handle(ID("core", "cgrpc_event"), &mut event);
        match event {
            CoreEvent::Cgrpc(c) => c.output,
            _ => Vec::new(),
        }
    }
}

} // verus!
