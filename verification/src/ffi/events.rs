//! What an engine puts out: datagrams with their paths, and events as JSON texts.

use vstd::prelude::*;

use crate::base64_text;
use crate::base64_text::base64_text as base64_of_bytes;
use crate::client_runtime::{
    ClientEventView, ClientOutputView, ClientRuntimeEvent, ClientRuntimeOutput,
};
use crate::ffi::json_text;
use crate::ffi::json_text::{object_new, object_put_number, object_put_text, object_text, FieldView};
use crate::ffi::shown;
use crate::ffi::shown::{client_event_text, consent_text, event_text, turn_text};
use crate::server_runtime::types::{
    RuntimeEvent, RuntimeEventView, ServerOutputView, ServerRuntimeOutput,
};
use crate::session::types::{DatagramView, Event, EventView, OutboundDatagram};

verus! {

/// What waits to be fetched from an engine.
#[derive(Debug)]
pub struct OutputBuffer {
    pub datagrams: Vec<(u32, Vec<u8>)>,
    pub events: Vec<String>,
}

/// What an [`OutputBuffer`] holds.
#[verifier::ext_equal]
pub struct BufferView {
    pub datagrams: Seq<(u32, Seq<u8>)>,
    pub events: Seq<Seq<char>>,
}

pub open spec fn pair_views(datagrams: Seq<(u32, Vec<u8>)>) -> Seq<(u32, Seq<u8>)> {
    datagrams.map_values(|d: (u32, Vec<u8>)| (d.0, d.1@))
}

pub open spec fn line_views(events: Seq<String>) -> Seq<Seq<char>> {
    events.map_values(|e: String| e@)
}

impl View for OutputBuffer {
    type V = BufferView;

    open spec fn view(&self) -> BufferView {
        BufferView { datagrams: pair_views(self.datagrams@), events: line_views(self.events@) }
    }
}

impl BufferView {
    pub open spec fn empty() -> BufferView {
        BufferView { datagrams: Seq::empty(), events: Seq::empty() }
    }
}

impl Default for OutputBuffer {
    fn default() -> (buffer: OutputBuffer)
        ensures
            buffer@ == BufferView::empty(),
    {
        let buffer = OutputBuffer { datagrams: Vec::new(), events: Vec::new() };
        assert(buffer@ =~= BufferView::empty());
        buffer
    }
}

/// Datagrams with their paths.
pub open spec fn pairs(datagrams: Seq<DatagramView>) -> Seq<(u32, Seq<u8>)> {
    datagrams.map_values(|d: DatagramView| (d.path_id, d.bytes))
}

/// An object with a kind and a text.
pub open spec fn kind_and_text(kind: Seq<char>, name: Seq<char>, value: Seq<char>) -> Seq<char> {
    json_text::json_text(
        json_text::no_fields().insert("kind"@, FieldView::Text(kind)).insert(name, FieldView::Text(value)),
    )
}

/// An object with a kind, a session and a text.
pub open spec fn kind_cid_and_text(
    kind: Seq<char>,
    cid: u64,
    name: Seq<char>,
    value: Seq<char>,
) -> Seq<char> {
    json_text::json_text(
        json_text::no_fields().insert("kind"@, FieldView::Text(kind)).insert(
            "cid"@,
            FieldView::Number(cid),
        ).insert(name, FieldView::Text(value)),
    )
}

/// A client's event as a line.
pub open spec fn client_line(event: ClientEventView) -> Seq<char> {
    match event {
        ClientEventView::Core(EventView::MessageReceived { msg_id, payload }) =>
            json_text::json_text(
                json_text::no_fields().insert("kind"@, FieldView::Text("client_deliver"@)).insert(
                    "msg_id"@,
                    FieldView::Number(msg_id),
                ).insert("payload_b64"@, FieldView::Text(base64_text::base64_of(payload))),
            ),
        ClientEventView::Core(inner) => kind_and_text(
            "client_core"@,
            "event"@,
            shown::shown_event(inner),
        ),
        ClientEventView::NatPairNominated { local_index, remote_index, path_id } =>
            json_text::json_text(
                json_text::no_fields().insert("kind"@, FieldView::Text("client_nat_nomination"@)).insert(
                    "local_index"@,
                    FieldView::Number(local_index as u64),
                ).insert("remote_index"@, FieldView::Number(remote_index as u64)).insert(
                    "path_id"@,
                    FieldView::Number(path_id as u64),
                ),
            ),
        ClientEventView::TurnAction(action) => kind_and_text(
            "client_turn"@,
            "action"@,
            shown::shown_turn(action),
        ),
        ClientEventView::ConsentAction(action) => kind_and_text(
            "client_consent"@,
            "action"@,
            shown::shown_consent(action),
        ),
    }
}

/// A server's event as a line.
pub open spec fn server_line(event: RuntimeEventView) -> Seq<char> {
    match event {
        RuntimeEventView::ParseError => json_text::json_text(
            json_text::no_fields().insert("kind"@, FieldView::Text("server_parse_error"@)),
        ),
        RuntimeEventView::CoreEvent { cid, event } => kind_cid_and_text(
            "server_core"@,
            cid,
            "event"@,
            shown::shown_event(event),
        ),
        RuntimeEventView::NatPairNominated { cid, local_index, remote_index } =>
            json_text::json_text(
                json_text::no_fields().insert("kind"@, FieldView::Text("server_nat_nomination"@)).insert(
                    "cid"@,
                    FieldView::Number(cid),
                ).insert("local_index"@, FieldView::Number(local_index as u64)).insert(
                    "remote_index"@,
                    FieldView::Number(remote_index as u64),
                ),
            ),
        RuntimeEventView::TurnAction { cid, action } => kind_cid_and_text(
            "server_turn"@,
            cid,
            "action"@,
            shown::shown_turn(action),
        ),
        RuntimeEventView::VhostPathBound { cid, vhost, path_id } => json_text::json_text(
            json_text::no_fields().insert("kind"@, FieldView::Text("server_vhost_path"@)).insert(
                "cid"@,
                FieldView::Number(cid),
            ).insert("vhost"@, FieldView::Text(vhost)).insert(
                "path_id"@,
                FieldView::Number(path_id as u64),
            ),
        ),
        RuntimeEventView::MessageReceived { cid, msg_id, payload_b64 } => json_text::json_text(
            json_text::no_fields().insert("kind"@, FieldView::Text("server_deliver"@)).insert(
                "cid"@,
                FieldView::Number(cid),
            ).insert("msg_id"@, FieldView::Number(msg_id)).insert(
                "payload_b64"@,
                FieldView::Text(payload_b64),
            ),
        ),
    }
}

pub open spec fn client_lines(events: Seq<ClientEventView>) -> Seq<Seq<char>> {
    events.map_values(|e: ClientEventView| client_line(e))
}

pub open spec fn server_lines(events: Seq<RuntimeEventView>) -> Seq<Seq<char>> {
    events.map_values(|e: RuntimeEventView| server_line(e))
}

/// What waits after a client put something out.
pub open spec fn client_buffer(out: ClientOutputView) -> BufferView {
    BufferView { datagrams: pairs(out.outbound_datagrams), events: client_lines(out.events) }
}

/// What waits after a server put something out.
pub open spec fn server_buffer(out: ServerOutputView) -> BufferView {
    BufferView { datagrams: pairs(out.outbound_datagrams), events: server_lines(out.events) }
}

/// The line with which an event of the machine is told when a handshake sets the
/// machine going.
pub open spec fn started_line(event: ClientEventView) -> Seq<char> {
    kind_and_text("client_core"@, "event"@, shown::shown_client_event(event))
}

pub open spec fn started_lines(events: Seq<ClientEventView>) -> Seq<Seq<char>> {
    events.map_values(|e: ClientEventView| started_line(e))
}

pub(crate) fn kind_and_text_line(kind: &str, name: &str, value: &str) -> (line: String)
    ensures
        line@ == kind_and_text(kind@, name@, value@),
{
    let mut object = object_new();
    object_put_text(&mut object, "kind", kind);
    object_put_text(&mut object, name, value);
    object_text(object)
}

fn kind_cid_and_text_line(kind: &str, cid: u64, name: &str, value: &str) -> (line: String)
    ensures
        line@ == kind_cid_and_text(kind@, cid, name@, value@),
{
    let mut object = object_new();
    object_put_text(&mut object, "kind", kind);
    object_put_number(&mut object, "cid", cid);
    object_put_text(&mut object, name, value);
    object_text(object)
}

pub fn client_event_line(event: &ClientRuntimeEvent) -> (line: String)
    ensures
        line@ == client_line(event@),
{
    match event {
        ClientRuntimeEvent::Core(inner) => match inner {
            Event::MessageReceived { msg_id, payload } => {
                let mut object = object_new();
                object_put_text(&mut object, "kind", "client_deliver");
                object_put_number(&mut object, "msg_id", *msg_id);
                let payload_b64 = base64_of_bytes(payload.as_slice());
                object_put_text(&mut object, "payload_b64", payload_b64.as_str());
                object_text(object)
            },
            _ => kind_and_text_line("client_core", "event", event_text(inner).as_str()),
        },
        ClientRuntimeEvent::NatPairNominated { local_index, remote_index, path_id } => {
            let mut object = object_new();
            object_put_text(&mut object, "kind", "client_nat_nomination");
            object_put_number(&mut object, "local_index", *local_index as u64);
            object_put_number(&mut object, "remote_index", *remote_index as u64);
            object_put_number(&mut object, "path_id", *path_id as u64);
            object_text(object)
        },
        ClientRuntimeEvent::TurnAction(action) => kind_and_text_line(
            "client_turn",
            "action",
            turn_text(action).as_str(),
        ),
        ClientRuntimeEvent::ConsentAction(action) => kind_and_text_line(
            "client_consent",
            "action",
            consent_text(action).as_str(),
        ),
    }
}

pub fn server_event_line(event: &RuntimeEvent) -> (line: String)
    ensures
        line@ == server_line(event@),
{
    match event {
        RuntimeEvent::ParseError => {
            let mut object = object_new();
            object_put_text(&mut object, "kind", "server_parse_error");
            object_text(object)
        },
        RuntimeEvent::CoreEvent { cid, event } => kind_cid_and_text_line(
            "server_core",
            *cid,
            "event",
            event_text(event).as_str(),
        ),
        RuntimeEvent::NatPairNominated { cid, local_index, remote_index } => {
            let mut object = object_new();
            object_put_text(&mut object, "kind", "server_nat_nomination");
            object_put_number(&mut object, "cid", *cid);
            object_put_number(&mut object, "local_index", *local_index as u64);
            object_put_number(&mut object, "remote_index", *remote_index as u64);
            object_text(object)
        },
        RuntimeEvent::TurnAction { cid, action } => kind_cid_and_text_line(
            "server_turn",
            *cid,
            "action",
            turn_text(action).as_str(),
        ),
        RuntimeEvent::VhostPathBound { cid, vhost, path_id } => {
            let mut object = object_new();
            object_put_text(&mut object, "kind", "server_vhost_path");
            object_put_number(&mut object, "cid", *cid);
            object_put_text(&mut object, "vhost", vhost.as_str());
            object_put_number(&mut object, "path_id", *path_id as u64);
            object_text(object)
        },
        RuntimeEvent::MessageReceived { cid, msg_id, payload_b64 } => {
            let mut object = object_new();
            object_put_text(&mut object, "kind", "server_deliver");
            object_put_number(&mut object, "cid", *cid);
            object_put_number(&mut object, "msg_id", *msg_id);
            object_put_text(&mut object, "payload_b64", payload_b64.as_str());
            object_text(object)
        },
    }
}

/// Datagrams with their paths.
pub(crate) fn pair_datagrams(datagrams: Vec<OutboundDatagram>) -> (paired: Vec<(u32, Vec<u8>)>)
    ensures
        pair_views(paired@) == pairs(crate::session::types::datagram_views(datagrams@)),
{
    let mut paired: Vec<(u32, Vec<u8>)> = Vec::new();
    for d in it: datagrams.into_iter()
        invariant
            it.seq() == datagrams@,
            paired@.len() == it.index(),
            forall|k: int|
                0 <= k < it.index() ==> (#[trigger] paired@[k]).0 == datagrams@[k].path_id
                    && paired@[k].1@ == datagrams@[k].bytes@,
    {
        paired.push((d.path_id, d.bytes));
    }
    assert(pair_views(paired@) =~= pairs(crate::session::types::datagram_views(datagrams@)));
    paired
}

/// Puts a client's output where it waits to be fetched, in place of what waited.
pub fn normalize_client_output(out: ClientRuntimeOutput, buffer: &mut OutputBuffer)
    ensures
        final(buffer)@ == client_buffer(out@),
{
    let mut lines: Vec<String> = Vec::new();
    let mut i: usize = 0;
    while i < out.events.len()
        invariant
            i <= out.events@.len(),
            lines@.len() == i,
            forall|k: int|
                0 <= k < i ==> (#[trigger] lines@[k])@ == client_line(out.events@[k]@),
        decreases out.events@.len() - i,
    {
        lines.push(client_event_line(&out.events[i]));
        i = i + 1;
    }
    assert(line_views(lines@) =~= client_lines(out@.events));
    buffer.datagrams = pair_datagrams(out.outbound_datagrams);
    buffer.events = lines;
}

/// Puts a server's output where it waits to be fetched, in place of what waited.
pub fn normalize_server_output(out: ServerRuntimeOutput, buffer: &mut OutputBuffer)
    ensures
        final(buffer)@ == server_buffer(out@),
{
    let mut lines: Vec<String> = Vec::new();
    let mut i: usize = 0;
    while i < out.events.len()
        invariant
            i <= out.events@.len(),
            lines@.len() == i,
            forall|k: int|
                0 <= k < i ==> (#[trigger] lines@[k])@ == server_line(out.events@[k]@),
        decreases out.events@.len() - i,
    {
        lines.push(server_event_line(&out.events[i]));
        i = i + 1;
    }
    assert(line_views(lines@) =~= server_lines(out@.events));
    buffer.datagrams = pair_datagrams(out.outbound_datagrams);
    buffer.events = lines;
}

/// Puts the output of a client that a handshake set going behind what waits.
pub fn append_started_output(out: ClientRuntimeOutput, buffer: &mut OutputBuffer)
    ensures
        final(buffer)@ == (BufferView {
            datagrams: old(buffer)@.datagrams + pairs(out@.outbound_datagrams),
            events: old(buffer)@.events + started_lines(out@.events),
        }),
{
    let mut lines: Vec<String> = Vec::new();
    let mut i: usize = 0;
    while i < out.events.len()
        invariant
            i <= out.events@.len(),
            lines@.len() == i,
            forall|k: int|
                0 <= k < i ==> (#[trigger] lines@[k])@ == started_line(out.events@[k]@),
        decreases out.events@.len() - i,
    {
        let shown = client_event_text(&out.events[i]);
        lines.push(kind_and_text_line("client_core", "event", shown.as_str()));
        i = i + 1;
    }
    assert(line_views(lines@) =~= started_lines(out@.events));
    let mut paired = pair_datagrams(out.outbound_datagrams);
    let ghost more = pair_views(paired@);
    let ghost texts = line_views(lines@);
    buffer.datagrams.append(&mut paired);
    buffer.events.append(&mut lines);
    assert(pair_views(buffer.datagrams@) =~= old(buffer)@.datagrams + more);
    assert(line_views(buffer.events@) =~= old(buffer)@.events + texts);
}

} // verus!
