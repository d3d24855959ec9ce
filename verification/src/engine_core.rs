//! The module that comes with the engine: the Fibonacci task and a handler
//! that takes note of the start.

use vstd::prelude::*;
use vstd::arithmetic::div_mod::lemma_add_mod_noop;
use vstd::bytes::{
    lemma_auto_spec_u64_to_from_le_bytes, spec_u64_to_le_bytes, u64_from_le_bytes, u64_to_le_bytes,
};
use vstd::slice::slice_subrange;
use std::sync::Arc;
use crate::{Identifier, IdView, Registry};
use crate::api::EngineAPI;
use crate::codec::append_bytes;
use crate::event::EventHandler;
use crate::events::{CoreEvent, CoreHandler, Events, ID};
use crate::events::start_event::OnStartEventHandler;
use crate::id_map::touched;
use crate::plugin::{blank_metadata, LibraryMetadata, LibraryMetadataView};
use crate::task::{Task, Verifiable};
use crate::text::{
    chars_of, config_line, lemma_line_value, line_value, read_line, same_text, write_line,
};

verus! {

/// The task that computes a Fibonacci number: `iter` says which, `result`
/// holds it once the task has run.
#[derive(Debug, Default)]
pub struct FibTask {
    pub iter: u64,
    pub result: u64,
}

impl Clone for FibTask {
    fn clone(&self) -> (r: Self)
        ensures
            r == *self,
    {
        FibTask { iter: self.iter, result: self.result }
    }
}

/// The Fibonacci numbers.
pub open spec fn fib(n: nat) -> nat
    decreases n,
{
    if n == 0 {
        0
    } else if n == 1 {
        1
    } else {
        fib((n - 1) as nat) + fib((n - 2) as nat)
    }
}

/// The payload of a Fibonacci task: the two numbers, each in eight
/// little-endian bytes.
pub open spec fn fib_payload(iter: u64, result: u64) -> Seq<u8> {
    spec_u64_to_le_bytes(iter) + spec_u64_to_le_bytes(result)
}

/// The configuration text of a Fibonacci task: a line for each of the two
/// numbers.
pub open spec fn fib_config(iter: u64, result: u64) -> Seq<char> {
    config_line("iter"@, iter) + config_line("result"@, result)
}

/// The two numbers that a configuration text names in its two lines, where
/// it is made of these two lines.
pub open spec fn fib_fields(text: Seq<char>) -> Option<(u64, u64)> {
    match line_value(text, "iter"@) {
        Some((iter, rest)) => match line_value(rest, "result"@) {
            Some((result, end)) => if end.len() == 0 {
                Some((iter, result))
            } else {
                None
            },
            None => None,
        },
        None => None,
    }
}

/// The Fibonacci task that a configuration text describes: the text must be
/// the configuration text of that task, character by character.
pub open spec fn fib_described(text: Seq<char>) -> Option<(u64, u64)> {
    match fib_fields(text) {
        Some((iter, result)) => if text == fib_config(iter, result) {
            Some((iter, result))
        } else {
            None
        },
        None => None,
    }
}

/// The configuration text of a Fibonacci task describes that task.
pub proof fn lemma_fib_config(iter: u64, result: u64)
    ensures
        fib_described(fib_config(iter, result)) == Some((iter, result)),
{
    let second = config_line("result"@, result);
    lemma_line_value("iter"@, iter, second);
    lemma_line_value("result"@, result, Seq::empty());
    assert(second + Seq::<char>::empty() =~= second);
}

impl FibTask {
    /// The configuration text of the task.
    fn render(&self) -> (r: String)
        ensures
            r@ == fib_config(self.iter, self.result),
    {
        let mut out = String::new();
        write_line(&mut out, "iter", self.iter);
        write_line(&mut out, "result", self.result);
        assert(out@ =~= fib_config(self.iter, self.result));
        out
    }

    /// The task that a configuration text describes.
    pub fn parse(text: &str) -> (r: Option<FibTask>)
        ensures
            match r {
                Some(task) => fib_described(text@) == Some((task.iter, task.result)),
                None => fib_described(text@) is None,
            },
    {
        let chars = chars_of(text);
        assert(chars@.skip(0) =~= chars@);
        let (iter, mid) = match read_line(&chars, 0, "iter") {
            Some(x) => x,
            None => {
                return None;
            },
        };
        let (result, end) = match read_line(&chars, mid, "result") {
            Some(x) => x,
            None => {
                return None;
            },
        };
        if end != chars.len() {
            return None;
        }
        let task = FibTask { iter, result };
        if same_text(task.render().as_str(), text) {
            Some(task)
        } else {
            None
        }
    }
}

impl Verifiable for FibTask {
    /// A payload of the Fibonacci task is sixteen bytes long.
    open spec fn accepts(&self, b: Seq<u8>) -> bool {
        b.len() == 16
    }

    fn verify(&self, b: Vec<u8>) -> (r: bool) {
        b.len() == 16
    }
}

impl Task for FibTask {
    open spec fn ident(&self) -> IdView {
        ("engine_core"@, "fib"@)
    }

    open spec fn encoding(&self) -> Seq<u8> {
        fib_payload(self.iter, self.result)
    }

    /// Running the task puts the Fibonacci number of `iter` into `result`,
    /// as far as sixty-four bits hold it.
    open spec fn executed(&self) -> Seq<u8> {
        fib_payload(self.iter, (fib(self.iter as nat) % 0x1_0000_0000_0000_0000) as u64)
    }

    fn get_id(&self) -> (r: Identifier) {
        ID("engine_core", "fib")
    }

    fn clone_box(&self) -> (r: Box<Self>) {
        Box::new(self.clone())
    }

    fn run_cpu(&mut self) {
        let mut a: u64 = 0;
        let mut b: u64 = 1;
        let mut i: u64 = 0;
        while i < self.iter
            invariant
                i <= self.iter,
                *self == *old(self),
                a == fib(i as nat) % 0x1_0000_0000_0000_0000,
                b == fib((i + 1) as nat) % 0x1_0000_0000_0000_0000,
            decreases self.iter - i,
        {
            let tmp = a;
            a = b;
            proof {
                lemma_add_mod_noop(
                    fib((i + 1) as nat) as int,
                    fib(i as nat) as int,
                    0x1_0000_0000_0000_0000,
                );
            }
            b = ((b as u128 + tmp as u128) % 0x1_0000_0000_0000_0000u128) as u64;
            i += 1;
        }
        self.result = a;
    }

    fn to_bytes(&self) -> (r: Vec<u8>) {
        proof {
            lemma_auto_spec_u64_to_from_le_bytes();
        }
        let mut bytes: Vec<u8> = Vec::with_capacity(16);
        append_bytes(&mut bytes, u64_to_le_bytes(self.iter).as_slice());
        append_bytes(&mut bytes, u64_to_le_bytes(self.result).as_slice());
        bytes
    }

    open spec fn config(&self) -> Seq<char> {
        fib_config(self.iter, self.result)
    }

    open spec fn described(&self, text: Seq<char>) -> Option<Seq<u8>> {
        match fib_described(text) {
            Some((iter, result)) => Some(fib_payload(iter, result)),
            None => None,
        }
    }

    fn from_toml(&self, d: String) -> (r: Box<Self>) {
        match FibTask::parse(d.as_str()) {
            Some(task) => Box::new(task),
            None => Box::new(self.clone()),
        }
    }

    fn to_toml(&self) -> (r: String) {
        proof {
            lemma_fib_config(self.iter, self.result);
        }
        self.render()
    }

    fn from_bytes(&self, bytes: &[u8]) -> (r: Box<Self>) {
        proof {
            lemma_auto_spec_u64_to_from_le_bytes();
        }
        let iter = u64_from_le_bytes(slice_subrange(bytes, 0, 8));
        let result = u64_from_le_bytes(slice_subrange(bytes, 8, 16));
        assert(fib_payload(iter, result) =~= bytes@) by {
            assert(bytes@ =~= bytes@.subrange(0, 8) + bytes@.subrange(8, 16));
        }
        Box::new(FibTask { iter, result })
    }
}

/// What the module says of itself.
pub open spec fn core_metadata() -> LibraryMetadataView {
    LibraryMetadataView {
        mod_id: "engine_core"@,
        mod_author: "@ign-styly"@,
        mod_name: "Engine Core"@,
        mod_version: "0.0.1"@,
        ..blank_metadata()
    }
}

/// What the module says of itself.
pub fn metadata() -> (meta: LibraryMetadata)
    ensures
        meta@ == core_metadata(),
{
    let mut meta = LibraryMetadata::default();
    meta.mod_id = "engine_core".to_owned();
    meta.mod_author = "@ign-styly".to_owned();
    meta.mod_name = "Engine Core".to_owned();
    meta.mod_version = "0.0.1".to_owned();
    meta
}

/// What the module's handler of the start event knows of the module.
pub open spec fn handler_metadata() -> LibraryMetadataView {
    LibraryMetadataView {
        mod_id: "engine_core"@,
        mod_author: "@ign-styly"@,
        mod_name: "Example Mod"@,
        mod_version: "0.0.1"@,
        ..blank_metadata()
    }
}

/// The identifier of the Fibonacci task, `engine_core:fib`.
pub open spec fn fib_id() -> IdView {
    ("engine_core"@, "fib"@)
}

/// Registers what the module brings: the template of the Fibonacci task
/// under `engine_core:fib`, and a handler of the start event.
pub fn run<X: EventHandler<CoreEvent>>(api: &mut EngineAPI<FibTask, X>)
    ensures
        final(api).cfg == old(api).cfg,
        final(api).task_queue == old(api).task_queue,
        final(api).executing_tasks == old(api).executing_tasks,
        final(api).solved_tasks == old(api).solved_tasks,
        final(api).lib_manager == old(api).lib_manager,
        final(api).event_bus.event_registry == old(api).event_bus.event_registry,
        final(api).task_registry.tasks@.dom() == old(api).task_registry.tasks@.dom().insert(
            fib_id(),
        ),
        *final(api).task_registry.tasks@[fib_id()] == (FibTask { iter: 0, result: 0 }),
        final(api).task_registry.tasks.keys() == touched(
            old(api).task_registry.tasks.keys(),
            fib_id(),
        ),
        forall|id: IdView|
            id != fib_id() && old(api).task_registry.tasks@.contains_key(id)
                ==> final(api).task_registry.tasks@[id] == old(api).task_registry.tasks@[id],
        final(api).event_bus.event_handler_registry.chain(Events::start_id()).len() == old(
            api,
        ).event_bus.event_handler_registry.chain(Events::start_id()).len() + 1,
        final(api).event_bus.event_handler_registry.chain(Events::start_id()).drop_last() == old(
            api,
        ).event_bus.event_handler_registry.chain(Events::start_id()),
        final(api).event_bus.event_handler_registry.chain(Events::start_id()).last() matches CoreHandler::Start(
            h,
        ) && h.mod_ctx@ == handler_metadata(),
        forall|id: IdView|
            id != Events::start_id() ==> final(api).event_bus.event_handler_registry.chain(id)
                == old(api).event_bus.event_handler_registry.chain(id),
{
    let mut meta = LibraryMetadata::default();
    meta.mod_id = "engine_core".to_owned();
    meta.mod_author = "@ign-styly".to_owned();
    meta.mod_name = "Example Mod".to_owned();
    meta.mod_version = "0.0.1".to_owned();
    let mod_ctx = Arc::new(meta);
    let template = Arc::new(FibTask { iter: 0, result: 0 });
    api.task_registry.register(template, ID("engine_core", "fib"));
    let ghost chain = api.event_bus.event_handler_registry.chain(Events::start_id());
    api.event_bus.event_handler_registry.register_handler(
        CoreHandler::Start(OnStartEventHandler { mod_ctx }),
        ID("core", "start_event"),
    );
    assert(api.event_bus.event_handler_registry.chain(Events::start_id()).drop_last() =~= chain);
    assert(api.task_registry.tasks@.dom() =~= old(api).task_registry.tasks@.dom().insert(fib_id()));
}

} // verus!
