//! The start event: tells the handlers, once, which modules are loaded.

use vstd::prelude::*;
use std::sync::Arc;
use crate::{clone_id, id_view, Identifier, IdView};
use crate::api::EngineAPI;
use crate::event::{Event, EventCTX, EventHandler};
use crate::events::{CoreEvent, CoreEventView, Events, ID};
use crate::plugin::{LibraryMetadata, LibraryMetadataView};

verus! {

/// Announces the start of the service with the metadata of the loaded
/// modules. A handler that cancels it asks for the service not to start.
#[derive(Debug)]
pub struct StartEvent {
    pub modules: Vec<Arc<LibraryMetadata>>,
    pub cancelled: bool,
    pub id: Identifier,
}

/// The mathematical value of a [`StartEvent`].
pub struct StartEventView {
    pub modules: Seq<LibraryMetadataView>,
    pub cancelled: bool,
    pub id: IdView,
}

/// The values of a list of shared metadata.
pub open spec fn metadata_views(modules: Seq<Arc<LibraryMetadata>>) -> Seq<LibraryMetadataView> {
    modules.map_values(|m: Arc<LibraryMetadata>| m@)
}

impl Clone for StartEvent {
    fn clone(&self) -> (r: Self)
        ensures
            r.view() == self.view(),
    {
        let mut modules: Vec<Arc<LibraryMetadata>> = Vec::new();
        let mut i: usize = 0;
        while i < self.modules.len()
            invariant
                i <= self.modules.len(),
                modules.len() == i,
                forall|j: int| 0 <= j < i ==> modules[j] == self.modules[j],
            decreases self.modules.len() - i,
        {
            modules.push(self.modules[i].clone());
            i += 1;
        }
        assert(metadata_views(modules@) =~= metadata_views(self.modules@));
        StartEvent { modules, cancelled: self.cancelled, id: clone_id(&self.id) }
    }
}

impl Event for StartEvent {
    type V = StartEventView;

    open spec fn view(&self) -> StartEventView {
        StartEventView {
            modules: metadata_views(self.modules@),
            cancelled: self.cancelled,
            id: id_view(self.id),
        }
    }

    open spec fn cancelled(&self) -> bool {
        self.cancelled
    }

    open spec fn ident(&self) -> IdView {
        id_view(self.id)
    }

    fn clone_box(&self) -> (r: Box<Self>) {
        Box::new(self.clone())
    }

    fn cancel(&mut self)
        ensures
            *final(self) == (StartEvent { cancelled: true, ..*old(self) }),
    {
        self.cancelled = true;
    }

    fn is_cancelled(&self) -> (r: bool) {
        self.cancelled
    }

    fn get_id(&self) -> (r: Identifier) {
        clone_id(&self.id)
    }
}

/// A handler of the start event that a module installs to take note of the
/// start. It leaves the event as it is.
#[derive(Debug)]
pub struct OnStartEventHandler {
    pub mod_ctx: Arc<LibraryMetadata>,
}

impl EventCTX<StartEvent> for OnStartEventHandler {
    open spec fn outcome_ctx(&self, before: StartEventView) -> StartEventView {
        before
    }

    #[allow(non_snake_case)]
    fn handleCTX(&self, event: &mut StartEvent) {
    }
}

impl Events {
    /// The identifier of start events, `core:start_event`.
    pub open spec fn start_id() -> IdView {
        ("core"@, "start_event"@)
    }

    /// The event that announces the start with the loaded `modules`.
    pub open spec fn start_request(modules: Seq<LibraryMetadataView>) -> CoreEventView {
        CoreEventView::Start(StartEventView { modules, cancelled: false, id: Self::start_id() })
    }

    /// Whether the handlers of `api` cancel the start.
    pub open spec fn start_cancelled<T, X: EventHandler<CoreEvent>>(api: EngineAPI<T, X>) -> bool {
        match api.event_bus.result(Self::start_id(), Self::start_request(api.lib_manager@)) {
            CoreEventView::Start(s) => s.cancelled,
            CoreEventView::Auth(a) => a.cancelled,
            CoreEventView::AdminAuth(a) => a.cancelled,
            CoreEventView::Cgrpc(c) => c.cancelled,
        }
    }

    /// Announces the start to the handlers, with the metadata of the
    /// loaded modules. Tells whether a handler cancelled the start; the
    /// service must then not begin to serve.
    #[allow(non_snake_case)]
    pub fn StartEvent<T, X: EventHandler<CoreEvent>>(api: &EngineAPI<T, X>) -> (cancelled: bool)
        ensures
            cancelled == Self::start_cancelled(*api),
    {
        let mut modules: Vec<Arc<LibraryMetadata>> = Vec::new();
        let mut i: usize = 0;
        while i < api.lib_manager.libraries.len()
            invariant
                i <= api.lib_manager.libraries.len(),
                modules.len() == i,
                forall|j: int| 0 <= j < i ==> modules[j] == api.lib_manager.libraries[j].metadata,
            decreases api.lib_manager.libraries.len() - i,
        {
            modules.push(api.lib_manager.libraries[i].metadata.clone());
            i += 1;
        }
        assert(metadata_views(modules@) =~= api.lib_manager@);
        let mut event = CoreEvent::Start(
            StartEvent { modules, cancelled: false, id: ID("core", "start_event") },
        );
        api.event_bus.handle(ID("core", "start_event"), &mut event);
        event.is_cancelled()
    }
}

} // verus!
