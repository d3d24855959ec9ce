//! The administrative authentication event: asks the handlers whether a
//! caller may use an administrative operation.

use vstd::prelude::*;
use crate::{clone_id, id_view, Identifier, IdView};
use crate::api::EngineAPI;
use crate::config::opt_view;
use crate::event::{Event, EventCTX, EventHandler};
use crate::events::{CoreEvent, CoreEventView, Events, ID};

verus! {

/// Asks whether a caller with the credential `payload` may use an
/// administrative operation; `target` names the handler that a custom call
/// is meant for. The answer, `output`, starts as a refusal.
#[derive(Debug)]
pub struct AdminAuthEvent {
    pub cancelled: bool,
    pub id: Identifier,
    pub payload: String,
    pub target: Identifier,
    pub output: bool,
}

/// The mathematical value of an [`AdminAuthEvent`].
pub struct AdminAuthEventView {
    pub cancelled: bool,
    pub id: IdView,
    pub payload: Seq<char>,
    pub target: IdView,
    pub output: bool,
}

impl Clone for AdminAuthEvent {
    fn clone(&self) -> (r: Self)
        ensures
            r.view() == self.view(),
    {
        AdminAuthEvent {
            cancelled: self.cancelled,
            id: clone_id(&self.id),
            payload: self.payload.clone(),
            target: clone_id(&self.target),
            output: self.output,
        }
    }
}

impl Event for AdminAuthEvent {
    type V = AdminAuthEventView;

    open spec fn view(&self) -> AdminAuthEventView {
        AdminAuthEventView {
            cancelled: self.cancelled,
            id: id_view(self.id),
            payload: self.payload@,
            target: id_view(self.target),
            output: self.output,
        }
    }

    open spec fn cancelled(&self) -> bool {
        self.cancelled
    }

    open spec fn ident(&self) -> IdView {
        id_view(self.id)
    }

    fn clone_box(&self) -> (r: Box<Self>) {
        Box::new(self.clone())
    }

    fn cancel(&mut self)
        ensures
            *final(self) == (AdminAuthEvent { cancelled: true, ..*old(self) }),
    {
        self.cancelled = true;
    }

    fn is_cancelled(&self) -> (r: bool) {
        self.cancelled
    }

    fn get_id(&self) -> (r: Identifier) {
        clone_id(&self.id)
    }
}

/// The handler that the engine installs for administrative authentication.
/// With a token it lets through whoever presents that token, and leaves the
/// answer as it found it for anyone else; without a token it lets everyone
/// through.
#[derive(Debug)]
pub struct AdminAuthHandler {
    pub token: Option<String>,
}

impl EventCTX<AdminAuthEvent> for AdminAuthHandler {
    open spec fn outcome_ctx(&self, before: AdminAuthEventView) -> AdminAuthEventView {
        match opt_view(self.token) {
            Some(token) => if token == before.payload {
                AdminAuthEventView { output: true, ..before }
            } else {
                before
            },
            None => AdminAuthEventView { output: true, ..before },
        }
    }

    #[allow(non_snake_case)]
    fn handleCTX(&self, event: &mut AdminAuthEvent) {
        match &self.token {
            Some(token) => {
                if *token == event.payload {
                    event.output = true;
                }
            },
            None => {
                event.output = true;
            },
        }
    }
}

impl Events {
    /// The identifier of administrative authentication events,
    /// `core:admin_auth_event`.
    pub open spec fn admin_auth_id() -> IdView {
        ("core"@, "admin_auth_event"@)
    }

    /// The event that asks for the credential `payload` and the handler
    /// `target`.
    pub open spec fn admin_auth_request(payload: Seq<char>, target: IdView) -> CoreEventView {
        CoreEventView::AdminAuth(
            AdminAuthEventView {
                cancelled: false,
                id: Self::admin_auth_id(),
                payload,
                target,
                output: false,
            },
        )
    }

    /// Whether the handlers of `api` let the administrator through.
    pub open spec fn admin_granted<T, X: EventHandler<CoreEvent>>(
        api: EngineAPI<T, X>,
        payload: Seq<char>,
        target: IdView,
    ) -> bool {
        match api.event_bus.result(
            Self::admin_auth_id(),
            Self::admin_auth_request(payload, target),
        ) {
            CoreEventView::AdminAuth(a) => a.output,
            _ => false,
        }
    }

    /// Asks the handlers whether a caller with the credential `payload` may
    /// use an administrative operation.
    #[allow(non_snake_case)]
    pub fn CheckAdminAuth<T, X: EventHandler<CoreEvent>>(
        api: &EngineAPI<T, X>,
        payload: String,
        target: Identifier,
    ) -> (r: bool)
        ensures
            r == Self::admin_granted(*api, payload@, id_view(target)),
    {
        match Self::AdminAuthEvent(api, payload, target) {
            CoreEvent::AdminAuth(a) => a.output,
            _ => false,
        }
    }

    /// Dispatches an administrative authentication event and hands back what
    /// the handlers made of it.
    #[allow(non_snake_case)]
    pub fn AdminAuthEvent<T, X: EventHandler<CoreEvent>>(
        api: &EngineAPI<T, X>,
        payload: String,
        target: Identifier,
    ) -> (r: CoreEvent)
        ensures
            r.view() == api.event_bus.result(
                Self::admin_auth_id(),
                Self::admin_auth_request(payload@, id_view(target)),
            ),
    {
        let mut event = CoreEvent::AdminAuth(
            AdminAuthEvent {
                cancelled: false,
                id: ID("core", "admin_auth_event"),
                payload,
                target,
                output: false,
            },
        );
        api.event_bus.handle(ID("core", "admin_auth_event"), &mut event);
        event
    }
}

} // verus!
