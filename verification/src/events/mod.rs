//! The events that the engine itself raises, and the handlers that it
//! installs for them.

use vstd::prelude::*;
use std::sync::Arc;
use crate::{id_view, Identifier, IdView, Registry};
use crate::api::EngineAPI;
use crate::event::{Event, EventCTX, EventHandler, lemma_dispatched_push};
use crate::id_map::{Listing, touched};
use crate::task::Task;

pub mod admin_auth_event;
pub mod auth_event;
pub mod cgrpc_event;
pub mod start_event;

use self::admin_auth_event::{AdminAuthEvent, AdminAuthEventView, AdminAuthHandler};
use self::auth_event::{AuthEvent, AuthEventView, AuthHandler};
use self::cgrpc_event::{CgrpcEvent, CgrpcEventView};
use self::start_event::{OnStartEventHandler, StartEvent, StartEventView};

verus! {

/// The engine's own events are raised through the functions of this type.
pub struct Events {}

/// The identifier `(namespace, id)`.
#[allow(non_snake_case)]
pub fn ID(namespace: &str, id: &str) -> (r: Identifier)
    ensures
        id_view(r) == (namespace@, id@),
{
    (namespace.to_owned(), id.to_owned())
}

/// The family of the engine's events.
#[derive(Debug)]
pub enum CoreEvent {
    Start(StartEvent),
    Auth(AuthEvent),
    AdminAuth(AdminAuthEvent),
    Cgrpc(CgrpcEvent),
}

/// The mathematical value of a [`CoreEvent`].
pub enum CoreEventView {
    Start(StartEventView),
    Auth(AuthEventView),
    AdminAuth(AdminAuthEventView),
    Cgrpc(CgrpcEventView),
}

impl Event for CoreEvent {
    type V = CoreEventView;

    open spec fn view(&self) -> CoreEventView {
        match *self {
            CoreEvent::Start(e) => CoreEventView::Start(e.view()),
            CoreEvent::Auth(e) => CoreEventView::Auth(e.view()),
            CoreEvent::AdminAuth(e) => CoreEventView::AdminAuth(e.view()),
            CoreEvent::Cgrpc(e) => CoreEventView::Cgrpc(e.view()),
        }
    }

    open spec fn cancelled(&self) -> bool {
        match *self {
            CoreEvent::Start(e) => e.cancelled,
            CoreEvent::Auth(e) => e.cancelled,
            CoreEvent::AdminAuth(e) => e.cancelled,
            CoreEvent::Cgrpc(e) => e.cancelled,
        }
    }

    open spec fn ident(&self) -> IdView {
        match *self {
            CoreEvent::Start(e) => id_view(e.id),
            CoreEvent::Auth(e) => id_view(e.id),
            CoreEvent::AdminAuth(e) => id_view(e.id),
            CoreEvent::Cgrpc(e) => id_view(e.id),
        }
    }

    fn clone_box(&self) -> (r: Box<Self>) {
        Box::new(
            match self {
                CoreEvent::Start(e) => CoreEvent::Start(e.clone()),
                CoreEvent::Auth(e) => CoreEvent::Auth(e.clone()),
                CoreEvent::AdminAuth(e) => CoreEvent::AdminAuth(e.clone()),
                CoreEvent::Cgrpc(e) => CoreEvent::Cgrpc(e.clone()),
            },
        )
    }

    fn cancel(&mut self) {
        match self {
            CoreEvent::Start(e) => e.cancel(),
            CoreEvent::Auth(e) => e.cancel(),
            CoreEvent::AdminAuth(e) => e.cancel(),
            CoreEvent::Cgrpc(e) => e.cancel(),
        }
    }

    fn is_cancelled(&self) -> (r: bool) {
        match self {
            CoreEvent::Start(e) => e.is_cancelled(),
            CoreEvent::Auth(e) => e.is_cancelled(),
            CoreEvent::AdminAuth(e) => e.is_cancelled(),
            CoreEvent::Cgrpc(e) => e.is_cancelled(),
        }
    }

    fn get_id(&self) -> (r: Identifier) {
        match self {
            CoreEvent::Start(e) => e.get_id(),
            CoreEvent::Auth(e) => e.get_id(),
            CoreEvent::AdminAuth(e) => e.get_id(),
            CoreEvent::Cgrpc(e) => e.get_id(),
        }
    }
}

/// The handlers of the engine's events: the ones that the engine installs,
/// and the ones of type `X` that modules bring.
#[derive(Debug)]
pub enum CoreHandler<X> {
    Auth(AuthHandler),
    AdminAuth(AdminAuthHandler),
    Start(OnStartEventHandler),
    Module(X),
}

impl<X: EventHandler<CoreEvent>> EventHandler<CoreEvent> for CoreHandler<X> {
    /// A handler of one kind of event leaves the events of other kinds as
    /// they are.
    open spec fn outcome(&self, before: CoreEventView) -> CoreEventView {
        match *self {
            CoreHandler::Auth(h) => match before {
                CoreEventView::Auth(e) => CoreEventView::Auth(h.outcome_ctx(e)),
                _ => before,
            },
            CoreHandler::AdminAuth(h) => match before {
                CoreEventView::AdminAuth(e) => CoreEventView::AdminAuth(h.outcome_ctx(e)),
                _ => before,
            },
            CoreHandler::Start(h) => match before {
                CoreEventView::Start(e) => CoreEventView::Start(h.outcome_ctx(e)),
                _ => before,
            },
            CoreHandler::Module(x) => x.outcome(before),
        }
    }

    fn handle(&self, event: &mut CoreEvent) {
        match self {
            CoreHandler::Auth(h) => match event {
                CoreEvent::Auth(e) => h.handleCTX(e),
                _ => {},
            },
            CoreHandler::AdminAuth(h) => match event {
                CoreEvent::AdminAuth(e) => h.handleCTX(e),
                _ => {},
            },
            CoreHandler::Start(h) => match event {
                CoreEvent::Start(e) => h.handleCTX(e),
                _ => {},
            },
            CoreHandler::Module(x) => x.handle(event),
        }
    }
}

/// A collection in which each of the first `n` of `keys` has a list: the
/// one it had, or an empty one.
pub open spec fn ensured<V>(c: Listing<V>, keys: Seq<IdView>, n: nat) -> Listing<V>
    decreases n,
{
    if n == 0 {
        c
    } else {
        let before = ensured(c, keys, (n - 1) as nat);
        before.with(keys[n - 1], before.at(keys[n - 1]))
    }
}

/// Making sure that task types have lists changes no list.
pub proof fn lemma_ensured_at<V>(c: Listing<V>, keys: Seq<IdView>, n: nat, id: IdView)
    requires
        n <= keys.len(),
    ensures
        ensured(c, keys, n).at(id) == c.at(id),
        ensured(c, keys, n).lists.contains_key(id) <==> c.lists.contains_key(id) || exists|j: int|
            0 <= j < n && keys[j] == id,
    decreases n,
{
    if n > 0 {
        lemma_ensured_at(c, keys, (n - 1) as nat, id);
        lemma_ensured_at(c, keys, (n - 1) as nat, keys[n - 1]);
    }
}

impl Events {
    /// Installs the engine's own handlers of the two authentication events:
    /// the one that lets every caller use the service, and the one that
    /// guards the administrative operations with the configured token.
    pub fn init_auth<T, X: EventHandler<CoreEvent>>(api: &mut EngineAPI<T, X>)
        ensures
            final(api).cfg == old(api).cfg,
            final(api).task_queue == old(api).task_queue,
            final(api).executing_tasks == old(api).executing_tasks,
            final(api).solved_tasks == old(api).solved_tasks,
            final(api).task_registry == old(api).task_registry,
            final(api).lib_manager == old(api).lib_manager,
            final(api).event_bus.event_registry == old(api).event_bus.event_registry,
            final(api).event_bus.event_handler_registry.chain(Self::auth_id())
                == old(api).event_bus.event_handler_registry.chain(Self::auth_id()).push(
                CoreHandler::Auth(AuthHandler),
            ),
            final(api).event_bus.event_handler_registry.chain(Self::admin_auth_id())
                == old(api).event_bus.event_handler_registry.chain(Self::admin_auth_id()).push(
                CoreHandler::AdminAuth(AdminAuthHandler { token: old(api).cfg.config_toml.cgrpc_token }),
            ),
            forall|id: IdView|
                id != Self::auth_id() && id != Self::admin_auth_id()
                    ==> final(api).event_bus.event_handler_registry.chain(id)
                    == old(api).event_bus.event_handler_registry.chain(id),
    {
        proof {
            reveal_strlit("auth_event");
            reveal_strlit("admin_auth_event");
        }
        assert(Self::auth_id() != Self::admin_auth_id()) by {
            assert("auth_event"@.len() != "admin_auth_event"@.len());
        }
        api.event_bus.event_handler_registry.register_handler(
            CoreHandler::Auth(AuthHandler),
            ID("core", "auth_event"),
        );
        let token = match &api.cfg.config_toml.cgrpc_token {
            Some(t) => Some(t.clone()),
            None => None,
        };
        api.event_bus.event_handler_registry.register_handler(
            CoreHandler::AdminAuth(AdminAuthHandler { token }),
            ID("core", "admin_auth_event"),
        );
    }

    /// Sets up what the engine needs before it serves: every registered task
    /// type gets a list in each of the three collections, and the default
    /// instances of the custom-call event and of the start event enter the
    /// registry of events.
    pub fn init<T: Task, X: EventHandler<CoreEvent>>(api: &mut EngineAPI<T, X>)
        ensures
            final(api).cfg == old(api).cfg,
            final(api).task_registry == old(api).task_registry,
            final(api).lib_manager == old(api).lib_manager,
            final(api).event_bus.event_handler_registry
                == old(api).event_bus.event_handler_registry,
            final(api).task_queue@ == ensured(
                old(api).task_queue@,
                old(api).task_registry.tasks.keys(),
                old(api).task_registry.tasks.keys().len(),
            ),
            final(api).executing_tasks@ == ensured(
                old(api).executing_tasks@,
                old(api).task_registry.tasks.keys(),
                old(api).task_registry.tasks.keys().len(),
            ),
            final(api).solved_tasks@ == ensured(
                old(api).solved_tasks@,
                old(api).task_registry.tasks.keys(),
                old(api).task_registry.tasks.keys().len(),
            ),
            final(api).event_bus.event_registry.events@.dom()
                == old(api).event_bus.event_registry.events@.dom().insert(Self::cgrpc_id()).insert(
                Self::start_id(),
            ),
            final(api).event_bus.event_registry.events.keys() == touched(
                touched(old(api).event_bus.event_registry.events.keys(), Self::cgrpc_id()),
                Self::start_id(),
            ),
            final(api).event_bus.event_registry.events@[Self::cgrpc_id()].view()
                == Self::cgrpc_request((Seq::empty(), Seq::empty()), Seq::empty()),
            final(api).event_bus.event_registry.events@[Self::start_id()].view()
                == Self::start_request(Seq::empty()),
            forall|id: IdView|
                id != Self::cgrpc_id() && id != Self::start_id()
                    && old(api).event_bus.event_registry.events@.contains_key(id)
                    ==> final(api).event_bus.event_registry.events@[id]
                    == old(api).event_bus.event_registry.events@[id],
    {
        let n = api.task_registry.tasks.len();
        let ghost keys = api.task_registry.tasks.keys();
        let mut i: usize = 0;
        while i < n
            invariant
                i <= n,
                n == keys.len(),
                keys == api.task_registry.tasks.keys(),
                api.cfg == old(api).cfg,
                api.task_registry == old(api).task_registry,
                api.lib_manager == old(api).lib_manager,
                api.event_bus == old(api).event_bus,
                api.task_queue@ == ensured(old(api).task_queue@, keys, i as nat),
                api.executing_tasks@ == ensured(old(api).executing_tasks@, keys, i as nat),
                api.solved_tasks@ == ensured(old(api).solved_tasks@, keys, i as nat),
            decreases n - i,
        {
            api.task_queue.tasks.ensure_key(api.task_registry.tasks.key_at(i));
            api.executing_tasks.tasks.ensure_key(api.task_registry.tasks.key_at(i));
            api.solved_tasks.tasks.ensure_key(api.task_registry.tasks.key_at(i));
            i += 1;
        }
        proof {
            reveal_strlit("cgrpc_event");
            reveal_strlit("start_event");
        }
        assert(Self::cgrpc_id() != Self::start_id()) by {
            assert("cgrpc_event"@[0] != "start_event"@[0]);
        }
        let call = CoreEvent::Cgrpc(
            CgrpcEvent {
                cancelled: false,
                handler_id: (String::new(), String::new()),
                id: ID("core", "cgrpc_event"),
                payload: Vec::new(),
                output: Vec::new(),
            },
        );
        api.event_bus.event_registry.register(Arc::new(call), ID("core", "cgrpc_event"));
        let start = CoreEvent::Start(
            StartEvent { modules: Vec::new(), cancelled: false, id: ID("core", "start_event") },
        );
        assert(start.view() == Self::start_request(Seq::empty())) by {
            assert(crate::events::start_event::metadata_views(Seq::empty()) =~= Seq::empty());
        }
        api.event_bus.event_registry.register(Arc::new(start), ID("core", "start_event"));
        assert(api.event_bus.event_registry.events@.dom() =~= old(
            api,
        ).event_bus.event_registry.events@.dom().insert(Self::cgrpc_id()).insert(Self::start_id()));
    }

    /// With the engine's own handlers and no others, every caller may use
    /// the service, and an administrative operation is open to whoever
    /// presents the configured token, or to everyone where none is
    /// configured.
    pub proof fn lemma_own_handlers<T, X: EventHandler<CoreEvent>>(
        api: EngineAPI<T, X>,
        uid: Seq<char>,
        payload: Seq<char>,
        target: IdView,
    )
        requires
            api.event_bus.event_handler_registry.chain(Self::auth_id()) == seq![
                CoreHandler::<X>::Auth(AuthHandler),
            ],
            api.event_bus.event_handler_registry.chain(Self::admin_auth_id()) == seq![
                CoreHandler::<X>::AdminAuth(AdminAuthHandler { token: api.cfg.config_toml.cgrpc_token }),
            ],
        ensures
            Self::auth_granted(api, uid, payload),
            Self::admin_granted(api, payload, target) == (match api.cfg@.cgrpc_token {
                Some(token) => token == payload,
                None => true,
            }),
    {
        let none = Seq::<CoreHandler<X>>::empty();
        let a = CoreHandler::<X>::Auth(AuthHandler);
        let b = CoreHandler::<X>::AdminAuth(
            AdminAuthHandler { token: api.cfg.config_toml.cgrpc_token },
        );
        lemma_dispatched_push::<CoreEvent, CoreHandler<X>>(
            none,
            a,
            Self::auth_request(uid, payload),
        );
        lemma_dispatched_push::<CoreEvent, CoreHandler<X>>(
            none,
            b,
            Self::admin_auth_request(payload, target),
        );
        assert(none.push(a) =~= seq![a]);
        assert(none.push(b) =~= seq![b]);
    }
}

} // verus!
