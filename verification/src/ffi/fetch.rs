//! Fetching what waits in an engine.

use vstd::prelude::*;
use vstd::slice::{slice_subrange, slice_to_vec};
use vstd::string::StrSliceExecFns;

use crate::ffi::events;
use crate::ffi::registry::{EngineHandle, Registry};
use crate::text;

verus! {

broadcast use vstd::std_specs::hash::group_hash_axioms;

/// As much of some bytes as fits.
pub open spec fn fitting(bytes: Seq<u8>, room: nat) -> Seq<u8> {
    if bytes.len() <= room {
        bytes
    } else {
        bytes.take(room as int)
    }
}

fn first_bytes(bytes: &[u8], room: usize) -> (copy: Vec<u8>)
    ensures
        copy@ == fitting(bytes@, room as nat),
{
    if bytes.len() <= room {
        slice_to_vec(bytes)
    } else {
        let copy = slice_to_vec(slice_subrange(bytes, 0, room));
        assert(copy@ =~= bytes@.take(room as int));
        copy
    }
}

fn find(reg: &Registry, handle_id: u64) -> (handle: Option<&EngineHandle>)
    ensures
        match handle {
            Some(handle) => reg@.handles.contains_key(handle_id) && reg@.handles[handle_id]
                == handle@,
            None => !reg@.handles.contains_key(handle_id),
        },
{
    reg.handles.get(&handle_id)
}

/// The datagram at a place of what waits; none past the end.
pub open spec fn datagram_at(datagrams: Seq<(u32, Seq<u8>)>, index: int) -> (u32, Seq<u8>) {
    if 0 <= index < datagrams.len() {
        datagrams[index]
    } else {
        (0, Seq::empty())
    }
}

/// The event at a place of what waits, in bytes; none past the end.
pub open spec fn event_at(events: Seq<Seq<char>>, index: int) -> Seq<u8> {
    if 0 <= index < events.len() {
        text::utf8(events[index])
    } else {
        Seq::empty()
    }
}

pub fn v3_ffi_out_datagram_count(reg: &Registry, handle_id: u64) -> (count: usize)
    ensures
        count == reg@.output(handle_id).datagrams.len(),
{
    match find(reg, handle_id) {
        Some(handle) => handle.output.datagrams.len(),
        None => 0,
    }
}

pub fn v3_ffi_out_datagram_len(reg: &Registry, handle_id: u64, index: usize) -> (len: usize)
    ensures
        len == datagram_at(reg@.output(handle_id).datagrams, index as int).1.len(),
{
    match find(reg, handle_id) {
        Some(handle) => {
            if index < handle.output.datagrams.len() {
                assert(handle@.output.datagrams[index as int].1
                    == handle.output.datagrams@[index as int].1@);
                handle.output.datagrams[index].1.len()
            } else {
                0
            }
        },
        None => 0,
    }
}

pub fn v3_ffi_out_datagram_path_id(reg: &Registry, handle_id: u64, index: usize) -> (path_id: u32)
    ensures
        path_id == datagram_at(reg@.output(handle_id).datagrams, index as int).0,
{
    match find(reg, handle_id) {
        Some(handle) => {
            if index < handle.output.datagrams.len() {
                handle.output.datagrams[index].0
            } else {
                0
            }
        },
        None => 0,
    }
}

/// The first bytes of a datagram, as many as there is room for.
pub fn v3_ffi_out_datagram_copy(reg: &Registry, handle_id: u64, index: usize, out_len: usize) -> (copy:
    Vec<u8>)
    ensures
        copy@ == fitting(
            datagram_at(reg@.output(handle_id).datagrams, index as int).1,
            out_len as nat,
        ),
{
    match find(reg, handle_id) {
        Some(handle) => {
            if index < handle.output.datagrams.len() {
                assert(handle@.output.datagrams[index as int].1
                    == handle.output.datagrams@[index as int].1@);
                return first_bytes(handle.output.datagrams[index].1.as_slice(), out_len);
            }
        },
        None => {},
    }
    Vec::new()
}

pub fn v3_ffi_out_event_count(reg: &Registry, handle_id: u64) -> (count: usize)
    ensures
        count == reg@.output(handle_id).events.len(),
{
    match find(reg, handle_id) {
        Some(handle) => handle.output.events.len(),
        None => 0,
    }
}

/// An event in bytes.
fn event_bytes(reg: &Registry, handle_id: u64, index: usize) -> (bytes: Vec<u8>)
    ensures
        bytes@ == event_at(reg@.output(handle_id).events, index as int),
{
    match find(reg, handle_id) {
        Some(handle) => {
            if index < handle.output.events.len() {
                assert(handle@.output.events[index as int]
                    == handle.output.events@[index as int]@);
                return handle.output.events[index].as_str().as_bytes_vec();
            }
        },
        None => {},
    }
    Vec::new()
}

pub fn v3_ffi_out_event_len(reg: &Registry, handle_id: u64, index: usize) -> (len: usize)
    ensures
        len == event_at(reg@.output(handle_id).events, index as int).len(),
{
    event_bytes(reg, handle_id, index).len()
}

/// The first bytes of an event, as many as there is room for.
pub fn v3_ffi_out_event_copy(reg: &Registry, handle_id: u64, index: usize, out_len: usize) -> (copy:
    Vec<u8>)
    ensures
        copy@ == fitting(
            event_at(reg@.output(handle_id).events, index as int),
            out_len as nat,
        ),
{
    let bytes = event_bytes(reg, handle_id, index);
    first_bytes(bytes.as_slice(), out_len)
}

fn error_bytes(reg: &Registry, handle_id: u64) -> (bytes: Vec<u8>)
    ensures
        bytes@ == reg@.last_error(handle_id),
{
    match find(reg, handle_id) {
        Some(handle) => match &handle.last_error {
            Some(e) => e.as_str().as_bytes_vec(),
            None => Vec::new(),
        },
        None => Vec::new(),
    }
}

pub fn v3_ffi_last_error_len(reg: &Registry, handle_id: u64) -> (len: usize)
    ensures
        len == reg@.last_error(handle_id).len(),
{
    error_bytes(reg, handle_id).len()
}

/// The first bytes of the last error, as many as there is room for.
pub fn v3_ffi_last_error_copy(reg: &Registry, handle_id: u64, out_len: usize) -> (copy: Vec<u8>)
    ensures
        copy@ == fitting(reg@.last_error(handle_id), out_len as nat),
{
    let bytes = error_bytes(reg, handle_id);
    first_bytes(bytes.as_slice(), out_len)
}

/// With room for as many bytes as there are, a copy is the whole.
pub proof fn law_copy_is_whole(bytes: Seq<u8>, room: nat)
    requires
        bytes.len() <= room,
    ensures
        fitting(bytes, room) == bytes,
{
}

} // verus!
