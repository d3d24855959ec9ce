//! The authentication event: asks the handlers whether a caller may use the
//! service.

use vstd::prelude::*;
use crate::{clone_id, id_view, Identifier, IdView};
use crate::api::EngineAPI;
use crate::event::{Event, EventCTX, EventHandler};
use crate::events::{CoreEvent, CoreEventView, Events, ID};

verus! {

/// Asks whether the caller `uid` with the credential `payload` may use the
/// service. The answer, `output`, starts as a refusal.
#[derive(Debug)]
pub struct AuthEvent {
    pub cancelled: bool,
    pub id: Identifier,
    pub uid: String,
    pub payload: String,
    pub output: bool,
}

/// The mathematical value of an [`AuthEvent`].
pub struct AuthEventView {
    pub cancelled: bool,
    pub id: IdView,
    pub uid: Seq<char>,
    pub payload: Seq<char>,
    pub output: bool,
}

impl Clone for AuthEvent {
    fn clone(&self) -> (r: Self)
        ensures
            r.view() == self.view(),
    {
        AuthEvent {
            cancelled: self.cancelled,
            id: clone_id(&self.id),
            uid: self.uid.clone(),
            payload: self.payload.clone(),
            output: self.output,
        }
    }
}

impl Event for AuthEvent {
    type V = AuthEventView;

    open spec fn view(&self) -> AuthEventView {
        AuthEventView {
            cancelled: self.cancelled,
            id: id_view(self.id),
            uid: self.uid@,
            payload: self.payload@,
            output: self.output,
        }
    }

    open spec fn cancelled(&self) -> bool {
        self.cancelled
    }

    open spec fn ident(&self) -> IdView {
        id_view(self.id)
    }

    fn clone_box(&self) -> (r: Box<Self>) {
        Box::new(self.clone())
    }

    fn cancel(&mut self)
        ensures
            *final(self) == (AuthEvent { cancelled: true, ..*old(self) }),
    {
        self.cancelled = true;
    }

    fn is_cancelled(&self) -> (r: bool) {
        self.cancelled
    }

    fn get_id(&self) -> (r: Identifier) {
        clone_id(&self.id)
    }
}

/// The handler that the engine installs for authentication: it lets every
/// caller through. Modules add stricter ones.
#[derive(Debug)]
pub struct AuthHandler;

impl EventCTX<AuthEvent> for AuthHandler {
    open spec fn outcome_ctx(&self, before: AuthEventView) -> AuthEventView {
        AuthEventView { output: true, ..before }
    }

    #[allow(non_snake_case)]
    fn handleCTX(&self, event: &mut AuthEvent) {
        event.output = true;
    }
}

impl Events {
    /// The identifier of authentication events, `core:auth_event`.
    pub open spec fn auth_id() -> IdView {
        ("core"@, "auth_event"@)
    }

    /// The event that asks for `uid` with the credential `payload`.
    pub open spec fn auth_request(uid: Seq<char>, payload: Seq<char>) -> CoreEventView {
        CoreEventView::Auth(
            AuthEventView { cancelled: false, id: Self::auth_id(), uid, payload, output: false },
        )
    }

    /// Whether the handlers of `api` let the caller through.
    pub open spec fn auth_granted<T, X: EventHandler<CoreEvent>>(
        api: EngineAPI<T, X>,
        uid: Seq<char>,
        payload: Seq<char>,
    ) -> bool {
        match api.event_bus.result(Self::auth_id(), Self::auth_request(uid, payload)) {
            CoreEventView::Auth(a) => a.output,
            _ => false,
        }
    }

    /// Asks the handlers whether the caller `uid` with the credential
    /// `payload` may use the service.
    #[allow(non_snake_case)]
    pub fn CheckAuth<T, X: EventHandler<CoreEvent>>(
        api: &EngineAPI<T, X>,
        uid: String,
        payload: String,
    ) -> (r: bool)
        ensures
            r == Self::auth_granted(*api, uid@, payload@),
    {
        match Self::AuthEvent(api, uid, payload) {
            CoreEvent::Auth(a) => a.output,
            _ => false,
        }
    }

    /// Dispatches an authentication event and hands back what the handlers
    /// made of it.
    #[allow(non_snake_case)]
    pub fn AuthEvent<T, X: EventHandler<CoreEvent>>(
        api: &EngineAPI<T, X>,
        uid: String,
        payload: String,
    ) -> (r: CoreEvent)
        ensures
            r.view() == api.event_bus.result(Self::auth_id(), Self::auth_request(uid@, payload@)),
    {
        let mut event = CoreEvent::Auth(
            AuthEvent {
                cancelled: false,
                id: ID("core", "auth_event"),
                uid,
                payload,
                output: false,
            },
        );
        api.event_bus.handle(ID("core", "auth_event"), &mut event);
        event
    }
}

} // verus!
