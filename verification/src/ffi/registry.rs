//! The registry of engines.

use std::collections::HashMap;

use vstd::prelude::*;

use crate::client_runtime;
use crate::client_runtime::{ClientRuntime, ClientView};
use crate::ffi::engine;
use crate::ffi::engine::{ClientTurn, ServerTurn};
use crate::ffi::events::{BufferView, OutputBuffer};
use crate::ffi::tls::{TlsMode, TlsView};
use crate::server_runtime::model::ServerView;
use crate::server_runtime::runtime::ServerRuntime;
use crate::server_runtime::types::ServerRuntimeMetrics;
use crate::session::model;
use crate::session::types::{CoreConfig, Role};
use crate::store::memory::InMemorySessionStore;
use crate::store::types::EntryView;
use crate::text;
use crate::traversal::RelayPolicy;

verus! {

broadcast use vstd::std_specs::hash::group_hash_axioms;

pub const V3_FFI_ABI_VERSION: u32 = 1;

pub enum EngineKind {
    Client(ClientRuntime),
    Server(ServerRuntime<InMemorySessionStore>),
}

/// What an [`EngineKind`] holds; a server with the records of its store.
#[verifier::ext_equal]
pub enum EngineView {
    Client(ClientView),
    Server(ServerView, Map<u64, EntryView>),
}

impl View for EngineKind {
    type V = EngineView;

    open spec fn view(&self) -> EngineView {
        match *self {
            EngineKind::Client(client) => EngineView::Client(client@),
            EngineKind::Server(server) => EngineView::Server(server@, server.store.records()),
        }
    }
}

/// An engine with its handshakes, what waits to be fetched from it and why the
/// last call failed that did.
pub struct EngineHandle {
    pub kind: EngineKind,
    pub tls: TlsMode,
    pub output: OutputBuffer,
    pub last_error: Option<String>,
}

/// What an [`EngineHandle`] holds.
#[verifier::ext_equal]
pub struct HandleView {
    pub kind: EngineView,
    pub tls: TlsView,
    pub output: BufferView,
    pub last_error: Option<Seq<char>>,
}

impl View for EngineHandle {
    type V = HandleView;

    open spec fn view(&self) -> HandleView {
        HandleView {
            kind: self.kind@,
            tls: self.tls@,
            output: self.output@,
            last_error: match self.last_error {
                Some(e) => Some(e@),
                None => None,
            },
        }
    }
}

impl EngineHandle {
    /// The engine can work, and shakes hands only in its own role.
    pub open spec fn wf(&self) -> bool {
        match self.kind {
            EngineKind::Client(client) => {
                &&& client.wf()
                &&& !(self.tls is Server)
                &&& engine::mode_wf(self.tls)
            },
            EngineKind::Server(server) => {
                &&& server.wf()
                &&& !(self.tls is Client)
                &&& engine::server_mode_wf(self.tls)
            },
        }
    }

    /// Notes why a call failed.
    pub(crate) fn conclude(&mut self, outcome: Result<(), String>) -> (code: i32)
        ensures
            match outcome {
                Ok(_) => code == 0 && *final(self) == *old(self),
                Err(e) => {
                    &&& code == -1
                    &&& final(self).kind == old(self).kind
                    &&& final(self).tls == old(self).tls
                    &&& final(self).output == old(self).output
                    &&& final(self)@ == (HandleView { last_error: Some(e@), ..old(self)@ })
                },
            },
    {
        match outcome {
            Ok(_) => 0,
            Err(e) => {
                self.last_error = Some(e);
                -1
            },
        }
    }
}

/// The engines by their numbers.
pub struct Registry {
    pub handles: HashMap<u64, EngineHandle>,
    pub next_handle: u64,
}

/// What a [`Registry`] holds.
#[verifier::ext_equal]
pub struct RegistryView {
    pub handles: Map<u64, HandleView>,
    pub next_handle: u64,
}

impl View for Registry {
    type V = RegistryView;

    open spec fn view(&self) -> RegistryView {
        RegistryView {
            handles: self.handles@.map_values(|h: EngineHandle| h@),
            next_handle: self.next_handle,
        }
    }
}

impl RegistryView {
    /// The registry with an engine in place of the one under its number.
    pub open spec fn with(self, handle_id: u64, handle: HandleView) -> RegistryView {
        RegistryView { handles: self.handles.insert(handle_id, handle), ..self }
    }

    /// What waits to be fetched from an engine; nothing where there is none.
    pub open spec fn output(self, handle_id: u64) -> BufferView {
        if self.handles.contains_key(handle_id) {
            self.handles[handle_id].output
        } else {
            BufferView::empty()
        }
    }

    /// Why the last call on an engine failed that did, in bytes.
    pub open spec fn last_error(self, handle_id: u64) -> Seq<u8> {
        if self.handles.contains_key(handle_id) && self.handles[handle_id].last_error is Some {
            text::utf8(self.handles[handle_id].last_error->0)
        } else {
            Seq::empty()
        }
    }
}

/// The number after a number; the largest is followed by zero.
pub open spec fn following(n: u64) -> u64 {
    if n == u64::MAX {
        0
    } else {
        (n + 1) as u64
    }
}

/// An engine that has done nothing yet.
pub open spec fn idle(kind: EngineView) -> HandleView {
    HandleView { kind, tls: TlsView::Disabled, output: BufferView::empty(), last_error: None }
}

/// The registry with one more engine.
pub open spec fn engine_added(r: RegistryView, kind: EngineView) -> RegistryView {
    RegistryView {
        handles: r.handles.insert(r.next_handle, idle(kind)),
        next_handle: following(r.next_handle),
    }
}

/// The code for an outcome.
pub open spec fn code_for(error: Option<Seq<char>>) -> int {
    if error is None {
        0
    } else {
        -1
    }
}

/// The last error after an outcome: a success does not clear it.
pub open spec fn error_after(last: Option<Seq<char>>, error: Option<Seq<char>>) -> Option<
    Seq<char>,
> {
    if error is None {
        last
    } else {
        error
    }
}

/// An engine after a client's turn.
pub open spec fn client_settled(h: HandleView, turn: ClientTurn) -> HandleView {
    HandleView {
        kind: EngineView::Client(turn.client),
        tls: turn.tls,
        output: turn.output,
        last_error: error_after(h.last_error, turn.error),
    }
}

/// An engine after a server's turn.
pub open spec fn server_settled(h: HandleView, turn: ServerTurn) -> HandleView {
    HandleView {
        kind: EngineView::Server(turn.server, turn.records),
        tls: turn.tls,
        output: turn.output,
        last_error: error_after(h.last_error, turn.error),
    }
}

impl Registry {
    pub open spec fn wf(&self) -> bool {
        forall|id: u64| #[trigger] self.handles@.contains_key(id) ==> self.handles@[id].wf()
    }

    pub fn new() -> (reg: Registry)
        ensures
            reg.wf(),
            reg@ == (RegistryView { handles: Map::empty(), next_handle: 1 }),
    {
        let reg = Registry { handles: HashMap::new(), next_handle: 1 };
        assert(reg@.handles =~= Map::empty());
        reg
    }

    pub(crate) fn take(&mut self, handle_id: u64) -> (handle: Option<EngineHandle>)
        requires
            old(self).wf(),
        ensures
            final(self).wf(),
            match handle {
                Some(handle) => {
                    &&& handle.wf()
                    &&& old(self)@.handles.contains_key(handle_id)
                    &&& handle@ == old(self)@.handles[handle_id]
                    &&& final(self)@ == (RegistryView {
                        handles: old(self)@.handles.remove(handle_id),
                        ..old(self)@
                    })
                },
                None => !old(self)@.handles.contains_key(handle_id) && final(self)@ == old(self)@,
            },
    {
        let handle = self.handles.remove(&handle_id);
        assert(self@.handles =~= old(self)@.handles.remove(handle_id));
        handle
    }

    pub(crate) fn put(&mut self, handle_id: u64, handle: EngineHandle)
        requires
            old(self).wf(),
            handle.wf(),
        ensures
            final(self).wf(),
            final(self)@ == old(self)@.with(handle_id, handle@),
    {
        self.handles.insert(handle_id, handle);
        assert(self@.handles =~= old(self)@.handles.insert(handle_id, handle@));
    }

    fn add_engine(&mut self, kind: EngineKind) -> (handle_id: u64)
        requires
            old(self).wf(),
            kind matches EngineKind::Client(client) ==> client.wf(),
            kind matches EngineKind::Server(server) ==> server.wf(),
        ensures
            final(self).wf(),
            handle_id == old(self)@.next_handle,
            final(self)@ == engine_added(old(self)@, kind@),
    {
        let handle_id: u64 = self.next_handle;
        self.next_handle = handle_id.wrapping_add(1);
        let handle = EngineHandle {
            kind,
            tls: TlsMode::Disabled,
            output: OutputBuffer::default(),
            last_error: None,
        };
        assert(handle@ =~= idle(kind@));
        self.put(handle_id, handle);
        handle_id
    }
}

impl Default for Registry {
    fn default() -> (reg: Registry)
        ensures
            reg.wf(),
            reg@ == (RegistryView { handles: Map::empty(), next_handle: 1 }),
    {
        Registry::new()
    }
}

pub fn v3_ffi_abi_version() -> (version: u32)
    ensures
        version == 1,
{
    V3_FFI_ABI_VERSION
}

pub fn v3_ffi_new_client(
    reg: &mut Registry,
    cid: u64,
    msr_interval_ms: u64,
    miss_window_count: u64,
    disconnect_window_ms: u64,
) -> (handle_id: u64)
    requires
        old(reg).wf(),
    ensures
        final(reg).wf(),
        handle_id == old(reg)@.next_handle,
        ({
            let cfg = CoreConfig { msr_interval_ms, miss_window_count, disconnect_window_ms };
            final(reg)@ == engine_added(
                old(reg)@,
                EngineView::Client(
                    ClientView {
                        core: model::fresh(Role::Client, cid, cfg),
                        timers: Map::empty(),
                        local_candidates: Seq::empty(),
                        remote_candidates: Seq::empty(),
                        metrics: client_runtime::ClientRuntimeMetrics::zero(),
                    },
                ),
            )
        }),
{
    let cfg = CoreConfig { msr_interval_ms, miss_window_count, disconnect_window_ms };
    reg.add_engine(EngineKind::Client(ClientRuntime::new(cid, cfg)))
}

pub fn v3_ffi_new_server(
    reg: &mut Registry,
    msr_interval_ms: u64,
    miss_window_count: u64,
    disconnect_window_ms: u64,
) -> (handle_id: u64)
    requires
        old(reg).wf(),
    ensures
        final(reg).wf(),
        handle_id == old(reg)@.next_handle,
        ({
            let cfg = CoreConfig { msr_interval_ms, miss_window_count, disconnect_window_ms };
            final(reg)@ == engine_added(
                old(reg)@,
                EngineView::Server(
                    ServerView {
                        cfg,
                        sessions: Map::empty(),
                        timers: Map::empty(),
                        relay_policy: RelayPolicy::PreferDirect,
                        metrics: ServerRuntimeMetrics::zero(),
                    },
                    Map::empty(),
                ),
            )
        }),
{
    let cfg = CoreConfig { msr_interval_ms, miss_window_count, disconnect_window_ms };
    let store = InMemorySessionStore::with_default_shards();
    reg.add_engine(EngineKind::Server(ServerRuntime::new(cfg, store)))
}

pub fn v3_ffi_free(reg: &mut Registry, handle_id: u64)
    requires
        old(reg).wf(),
    ensures
        final(reg).wf(),
        final(reg)@ == (RegistryView {
            handles: old(reg)@.handles.remove(handle_id),
            ..old(reg)@
        }),
{
    let taken = reg.take(handle_id);
    proof {
        if taken is None {
            assert(reg@.handles =~= old(reg)@.handles.remove(handle_id));
        }
    }
}

} // verus!
