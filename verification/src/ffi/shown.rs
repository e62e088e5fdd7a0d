//! Events as texts for a reader.

use vstd::prelude::*;
use vstd::string::StringExecFns;

use crate::client_runtime::{ClientEventView, ClientRuntimeEvent};
use crate::session::types::{Event, EventView};
use crate::text;
use crate::text::{joined_text, push_digits};
use crate::traversal::{ConsentAction, TurnAction};

verus! {

/// Numbers with commas between them.
pub open spec fn listed(bytes: Seq<u8>) -> Seq<char>
    decreases bytes.len(),
{
    if bytes.len() == 0 {
        Seq::empty()
    } else if bytes.len() == 1 {
        text::decimal(bytes[0] as nat)
    } else {
        listed(bytes.drop_last()) + ", "@ + text::decimal(bytes.last() as nat)
    }
}

/// A name with one number.
pub open spec fn with_number(name: Seq<char>, field: Seq<char>, n: nat) -> Seq<char> {
    name + " { "@ + field + ": "@ + text::decimal(n) + " }"@
}

/// A name with two numbers.
pub open spec fn with_numbers(
    name: Seq<char>,
    first: Seq<char>,
    n: nat,
    second: Seq<char>,
    k: nat,
) -> Seq<char> {
    name + " { "@ + first + ": "@ + text::decimal(n) + ", "@ + second + ": "@ + text::decimal(k)
        + " }"@
}

/// An event of a session.
pub open spec fn shown_event(event: EventView) -> Seq<char> {
    match event {
        EventView::HandshakeStarted => "HandshakeStarted"@,
        EventView::HandshakeEstablished => "HandshakeEstablished"@,
        EventView::ReactivationProbeSent => "ReactivationProbeSent"@,
        EventView::Reactivated => "Reactivated"@,
        EventView::Disconnected => "Disconnected"@,
        EventView::QueueAdvertised { next_pending_id } => with_number(
            "QueueAdvertised"@,
            "next_pending_id"@,
            next_pending_id as nat,
        ),
        EventView::RequestRangeSent { start, end } => with_numbers(
            "RequestRangeSent"@,
            "start"@,
            start as nat,
            "end"@,
            end as nat,
        ),
        EventView::MessageDelivered { msg_id } => with_number(
            "MessageDelivered"@,
            "msg_id"@,
            msg_id as nat,
        ),
        EventView::MessageReceived { msg_id, payload } => "MessageReceived { msg_id: "@
            + text::decimal(msg_id as nat) + ", payload: ["@ + listed(payload) + "] }"@,
        EventView::TimerRenegotiationProposed { proposal_id } => with_number(
            "TimerRenegotiationProposed"@,
            "proposal_id"@,
            proposal_id as nat,
        ),
        EventView::TimerRenegotiationCommitted { proposal_id } => with_number(
            "TimerRenegotiationCommitted"@,
            "proposal_id"@,
            proposal_id as nat,
        ),
        EventView::TimerRenegotiationRejected { proposal_id } => with_number(
            "TimerRenegotiationRejected"@,
            "proposal_id"@,
            proposal_id as nat,
        ),
        EventView::TimerRenegotiationRolledBack { proposal_id } => with_number(
            "TimerRenegotiationRolledBack"@,
            "proposal_id"@,
            proposal_id as nat,
        ),
        EventView::ParseError => "ParseError"@,
    }
}

/// What is to be done about a relay.
pub open spec fn shown_turn(action: TurnAction) -> Seq<char> {
    match action {
        TurnAction::SendAllocate => "SendAllocate"@,
        TurnAction::SendAllocateWithAuth => "SendAllocateWithAuth"@,
        TurnAction::SendRefresh => "SendRefresh"@,
        TurnAction::SendCreatePermission => "SendCreatePermission"@,
        TurnAction::SendChannelBind => "SendChannelBind"@,
        TurnAction::RetryAfter { delay_ms } => with_number(
            "RetryAfter"@,
            "delay_ms"@,
            delay_ms as nat,
        ),
        TurnAction::MarkFailed => "MarkFailed"@,
        TurnAction::Noop => "Noop"@,
    }
}

/// What is to be done about consent.
pub open spec fn shown_consent(action: ConsentAction) -> Seq<char> {
    match action {
        ConsentAction::SendKeepalive => "SendKeepalive"@,
        ConsentAction::PathLost => "PathLost"@,
        ConsentAction::Noop => "Noop"@,
    }
}

/// An event of a client.
pub open spec fn shown_client_event(event: ClientEventView) -> Seq<char> {
    match event {
        ClientEventView::Core(event) => "Core("@ + shown_event(event) + ")"@,
        ClientEventView::NatPairNominated { local_index, remote_index, path_id } =>
            "NatPairNominated { local_index: "@ + text::decimal(local_index as nat)
                + ", remote_index: "@ + text::decimal(remote_index as nat) + ", path_id: "@
                + text::decimal(path_id as nat) + " }"@,
        ClientEventView::TurnAction(action) => "TurnAction("@ + shown_turn(action) + ")"@,
        ClientEventView::ConsentAction(action) => "ConsentAction("@ + shown_consent(action) + ")"@,
    }
}

fn push_list(out: &mut String, bytes: &Vec<u8>)
    ensures
        final(out)@ == old(out)@ + listed(bytes@),
{
    let ghost start = out@;
    let mut i: usize = 0;
    assert(out@ =~= start + listed(bytes@.take(0)));
    while i < bytes.len()
        invariant
            i <= bytes@.len(),
            out@ == start + listed(bytes@.take(i as int)),
        decreases bytes@.len() - i,
    {
        let ghost before = bytes@.take(i as int);
        let ghost after = bytes@.take(i + 1);
        assert(after.drop_last() =~= before);
        if i > 0 {
            out.append(", ");
        }
        push_digits(out, bytes[i] as u64, 10);
        proof {
            if i == 0 {
                assert(after.len() == 1);
                assert(listed(before) =~= Seq::empty());
                assert(out@ =~= start + listed(after));
            } else {
                assert(out@ =~= start + listed(after));
            }
        }
        i = i + 1;
    }
    assert(bytes@.take(i as int) =~= bytes@);
}

fn text_with_field(name: &str, field: &str, n: u64) -> (out: String)
    ensures
        out@ == with_number(name@, field@, n as nat),
{
    let mut out = joined_text(name, " { ");
    out.append(field);
    out.append(": ");
    push_digits(&mut out, n, 10);
    out.append(" }");
    out
}

pub fn event_text(event: &Event) -> (out: String)
    ensures
        out@ == shown_event(event@),
{
    match event {
        Event::HandshakeStarted => "HandshakeStarted".to_string(),
        Event::HandshakeEstablished => "HandshakeEstablished".to_string(),
        Event::ReactivationProbeSent => "ReactivationProbeSent".to_string(),
        Event::Reactivated => "Reactivated".to_string(),
        Event::Disconnected => "Disconnected".to_string(),
        Event::QueueAdvertised { next_pending_id } => text_with_field(
            "QueueAdvertised",
            "next_pending_id",
            *next_pending_id,
        ),
        Event::RequestRangeSent { start, end } => {
            let mut out = joined_text("RequestRangeSent", " { ");
            out.append("start");
            out.append(": ");
            push_digits(&mut out, *start, 10);
            out.append(", ");
            out.append("end");
            out.append(": ");
            push_digits(&mut out, *end, 10);
            out.append(" }");
            out
        },
        Event::MessageDelivered { msg_id } => text_with_field(
            "MessageDelivered",
            "msg_id",
            *msg_id,
        ),
        Event::MessageReceived { msg_id, payload } => {
            let mut out = "MessageReceived { msg_id: ".to_string();
            push_digits(&mut out, *msg_id, 10);
            out.append(", payload: [");
            push_list(&mut out, payload);
            out.append("] }");
            out
        },
        Event::TimerRenegotiationProposed { proposal_id } => text_with_field(
            "TimerRenegotiationProposed",
            "proposal_id",
            *proposal_id as u64,
        ),
        Event::TimerRenegotiationCommitted { proposal_id } => text_with_field(
            "TimerRenegotiationCommitted",
            "proposal_id",
            *proposal_id as u64,
        ),
        Event::TimerRenegotiationRejected { proposal_id } => text_with_field(
            "TimerRenegotiationRejected",
            "proposal_id",
            *proposal_id as u64,
        ),
        Event::TimerRenegotiationRolledBack { proposal_id } => text_with_field(
            "TimerRenegotiationRolledBack",
            "proposal_id",
            *proposal_id as u64,
        ),
        Event::ParseError => "ParseError".to_string(),
    }
}

pub fn turn_text(action: &TurnAction) -> (out: String)
    ensures
        out@ == shown_turn(*action),
{
    match action {
        TurnAction::SendAllocate => "SendAllocate".to_string(),
        TurnAction::SendAllocateWithAuth => "SendAllocateWithAuth".to_string(),
        TurnAction::SendRefresh => "SendRefresh".to_string(),
        TurnAction::SendCreatePermission => "SendCreatePermission".to_string(),
        TurnAction::SendChannelBind => "SendChannelBind".to_string(),
        TurnAction::RetryAfter { delay_ms } => text_with_field("RetryAfter", "delay_ms", *delay_ms),
        TurnAction::MarkFailed => "MarkFailed".to_string(),
        TurnAction::Noop => "Noop".to_string(),
    }
}

pub fn consent_text(action: &ConsentAction) -> (out: String)
    ensures
        out@ == shown_consent(*action),
{
    match action {
        ConsentAction::SendKeepalive => "SendKeepalive".to_string(),
        ConsentAction::PathLost => "PathLost".to_string(),
        ConsentAction::Noop => "Noop".to_string(),
    }
}

fn in_brackets(name: &str, inner: &String) -> (out: String)
    ensures
        out@ == name@ + inner@ + ")"@,
{
    let mut out = joined_text(name, inner.as_str());
    out.append(")");
    out
}

pub fn client_event_text(event: &ClientRuntimeEvent) -> (out: String)
    ensures
        out@ == shown_client_event(event@),
{
    match event {
        ClientRuntimeEvent::Core(event) => in_brackets("Core(", &event_text(event)),
        ClientRuntimeEvent::NatPairNominated { local_index, remote_index, path_id } => {
            let mut out = "NatPairNominated { local_index: ".to_string();
            push_digits(&mut out, *local_index as u64, 10);
            out.append(", remote_index: ");
            push_digits(&mut out, *remote_index as u64, 10);
            out.append(", path_id: ");
            push_digits(&mut out, *path_id as u64, 10);
            out.append(" }");
            out
        },
        ClientRuntimeEvent::TurnAction(action) => in_brackets("TurnAction(", &turn_text(action)),
        ClientRuntimeEvent::ConsentAction(action) => in_brackets(
            "ConsentAction(",
            &consent_text(action),
        ),
    }
}

} // verus!
