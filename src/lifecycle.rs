//! Lifecycle transitions of a room and one cycle of interaction.

use vstd::prelude::*;

use crate::entity::{
    classify, is_record, is_size_record, next_counters, next_kv, reply, text_of, Entity,
};
use crate::memory::{
    byte_len, evict_spec, lemma_total_len_push, sat_add, total_len, EntryType, MemoryEntry,
};
use crate::room::{percent, Room, RoomState};

verus! {

/// Why a room refused an input.
#[derive(Debug, Clone, Copy, PartialEq, Eq, Structural)]
pub enum RoomError {
    Suspended,
    Corrupted,
}

impl RoomError {
    /// The message shown to the user.
    pub fn message(&self) -> (r: &'static str)
        ensures
            r@ == error_message(*self),
    {
        match self {
            RoomError::Suspended => "ERROR: ROOM_SUSPENDED",
            RoomError::Corrupted => "ERROR: ROOM_CORRUPTED",
        }
    }
}

pub open spec fn error_message(e: RoomError) -> Seq<char> {
    match e {
        RoomError::Suspended => "ERROR: ROOM_SUSPENDED"@,
        RoomError::Corrupted => "ERROR: ROOM_CORRUPTED"@,
    }
}

/// Interaction is allowed unless the room is suspended or corrupted.
pub open spec fn accepts_input(s: RoomState) -> bool {
    s != RoomState::SUSPENDED && s != RoomState::CORRUPTED
}

pub open spec fn bump_count(v: u64) -> u64 {
    if v == u64::MAX {
        v
    } else {
        (v + 1) as u64
    }
}

/// `room` moved to `state`, with one more explicit transition counted.
pub open spec fn transitioned(old_room: Room, new_room: Room, state: RoomState) -> bool {
    &&& new_room.state == state
    &&& new_room.metadata.state_version == bump_count(old_room.metadata.state_version)
    &&& new_room.id == old_room.id
    &&& new_room.created_at == old_room.created_at
    &&& new_room.last_active == old_room.last_active
    &&& new_room.config == old_room.config
    &&& new_room.memory == old_room.memory
    &&& new_room.entity_state == old_room.entity_state
    &&& new_room.metadata.total_inputs == old_room.metadata.total_inputs
    &&& new_room.metadata.total_outputs == old_room.metadata.total_outputs
    &&& new_room.metadata.total_errors == old_room.metadata.total_errors
    &&& new_room.metadata.last_error == old_room.metadata.last_error
    &&& new_room.metadata.creation_timestamp == old_room.metadata.creation_timestamp
    &&& new_room.metadata.creator_pid == old_room.metadata.creator_pid
    &&& new_room.metadata.creator_user == old_room.metadata.creator_user
    &&& new_room.metadata.creator_host == old_room.metadata.creator_host
}

fn next_version(room: &mut Room)
    ensures
        final(room).metadata.state_version == bump_count(old(room).metadata.state_version),
        final(room).state == old(room).state,
        final(room).id == old(room).id,
        final(room).created_at == old(room).created_at,
        final(room).last_active == old(room).last_active,
        final(room).config == old(room).config,
        final(room).memory == old(room).memory,
        final(room).entity_state == old(room).entity_state,
        final(room).metadata.total_inputs == old(room).metadata.total_inputs,
        final(room).metadata.total_outputs == old(room).metadata.total_outputs,
        final(room).metadata.total_errors == old(room).metadata.total_errors,
        final(room).metadata.last_error == old(room).metadata.last_error,
        final(room).metadata.creation_timestamp == old(room).metadata.creation_timestamp,
        final(room).metadata.creator_pid == old(room).metadata.creator_pid,
        final(room).metadata.creator_user == old(room).metadata.creator_user,
        final(room).metadata.creator_host == old(room).metadata.creator_host,
{
    room.metadata.state_version = room.metadata.state_version.saturating_add(1);
}

/// Moves the room to SUSPENDED from any state.
pub fn suspend(room: &mut Room)
    ensures
        transitioned(*old(room), *final(room), RoomState::SUSPENDED),
{
    room.state = RoomState::SUSPENDED;
    next_version(room);
}

/// Moves the room to ACTIVE from any state.
pub fn resume(room: &mut Room)
    ensures
        transitioned(*old(room), *final(room), RoomState::ACTIVE),
{
    room.state = RoomState::ACTIVE;
    next_version(room);
}

/// `pre` is `entries` followed by what one input logs: the input itself, the
/// refusal of an oversized input, and the reply, if any.
pub open spec fn logged(
    entries: Seq<MemoryEntry>,
    pre: Seq<MemoryEntry>,
    raw: Seq<char>,
    now: i64,
    max_input_size: u64,
    response: Option<Seq<char>>,
) -> bool {
    let n = entries.len() as int;
    let oversized = classify(raw, max_input_size) is Oversized;
    let m = if oversized {
        n + 2
    } else {
        n + 1
    };
    &&& pre.subrange(0, n) == entries
    &&& n < pre.len()
    &&& is_record(pre[n], now, EntryType::INPUT, raw)
    &&& pre[n].metadata@.len() == 0
    &&& oversized ==> m <= pre.len() && is_size_record(pre[n + 1], now, max_input_size)
    &&& match response {
        Some(text) => pre.len() == m + 1 && is_record(pre[m], now, EntryType::OUTPUT, text)
            && pre[m].metadata@.len() == 0,
        None => pre.len() == m,
    }
}

/// One cycle of interaction: refuses the input when the room is suspended or
/// corrupted, leaving it untouched; otherwise records activity, runs the
/// interpreter, logs its reply and evicts the log down to capacity.
pub fn process_input(room: &mut Room, raw: &str, now: i64) -> (r: Result<
    Option<String>,
    RoomError,
>)
    requires
        old(room).entity_state.wf(),
    ensures
        old(room).state == RoomState::SUSPENDED ==> r == Err::<Option<String>, RoomError>(
            RoomError::Suspended,
        ) && *final(room) == *old(room),
        old(room).state == RoomState::CORRUPTED ==> r == Err::<Option<String>, RoomError>(
            RoomError::Corrupted,
        ) && *final(room) == *old(room),
        accepts_input(old(room).state) ==> r is Ok && ({
            let cmd = classify(raw@, old(room).config.max_input_size);
            let used = sat_add(old(room).memory.usage, byte_len(raw@));
            let response = reply(
                old(room).entity_state.kv_map(),
                old(room).entity_state.counter_map(),
                cmd,
                percent(used, old(room).memory.capacity),
                old(room).state,
            );
            &&& text_of(r->Ok_0) == response
            &&& final(room).entity_state.wf()
            &&& final(room).entity_state.kv_map() == next_kv(
                old(room).entity_state.kv_map(),
                cmd,
            )
            &&& final(room).entity_state.counter_map() == next_counters(
                old(room).entity_state.counter_map(),
                cmd,
            )
            &&& final(room).last_active == now
            &&& final(room).metadata.total_inputs == bump_count(old(room).metadata.total_inputs)
            &&& final(room).metadata.total_outputs == if response is Some {
                bump_count(old(room).metadata.total_outputs)
            } else {
                old(room).metadata.total_outputs
            }
            &&& final(room).memory.usage <= final(room).memory.capacity
                || final(room).memory.entries@.len() == 0
            &&& exists|pre: Seq<MemoryEntry>|
                {
                    &&& #[trigger] logged(
                        old(room).memory.entries@,
                        pre,
                        raw@,
                        now,
                        old(room).config.max_input_size,
                        response,
                    )
                    &&& exists|k: int|
                        0 <= k <= pre.len() && final(room).memory.entries@ == pre.subrange(
                            k,
                            pre.len() as int,
                        )
                    &&& old(room).memory.wf() && total_len(pre) <= u64::MAX
                        ==> final(room).memory.wf() && final(room).memory.entries@
                        == evict_spec(pre, final(room).memory.capacity)
                }
        }),
        final(room).id == old(room).id,
        final(room).created_at == old(room).created_at,
        final(room).state == old(room).state,
        final(room).config == old(room).config,
        final(room).memory.capacity == old(room).memory.capacity,
        final(room).metadata.state_version == old(room).metadata.state_version,
{
    if room.state == RoomState::SUSPENDED {
        return Err(RoomError::Suspended);
    }
    if room.state == RoomState::CORRUPTED {
        return Err(RoomError::Corrupted);
    }
    room.last_active = now;
    room.metadata.total_inputs = room.metadata.total_inputs.saturating_add(1);
    let ghost n = room.memory.entries@.len() as int;
    let ghost old_entries = room.memory.entries@;
    let ghost was_wf = room.memory.wf();
    let resp = Entity::handle_input(room, raw, now);
    let ghost mid = room.memory.entries@;
    match &resp {
        Some(line) => {
            room.metadata.total_outputs = room.metadata.total_outputs.saturating_add(1);
            room.memory.append(
                MemoryEntry {
                    timestamp: now,
                    kind: EntryType::OUTPUT,
                    content: line.clone(),
                    metadata: Vec::new(),
                },
            );
            proof {
                let e = room.memory.entries@.last();
                assert(room.memory.entries@ =~= mid.push(e));
                lemma_total_len_push(mid, e);
                assert(room.memory.entries@.subrange(0, n) =~= mid.subrange(0, n));
            }
        },
        None => {},
    }
    let ghost pre = room.memory.entries@;
    let ghost pre_wf = room.memory.wf();
    proof {
        assert(pre.subrange(0, n) =~= old_entries);
        if was_wf && total_len(pre) <= u64::MAX {
            if resp is Some {
                lemma_total_len_push(mid, pre.last());
                assert(pre =~= mid.push(pre.last()));
            }
            assert(total_len(mid) <= total_len(pre));
            assert(pre_wf);
        }
    }
    room.memory.truncate_to_fit();
    proof {
        assert(logged(old_entries, pre, raw@, now, room.config.max_input_size, text_of(resp)));
        assert(exists|k: int|
            0 <= k <= pre.len() && room.memory.entries@ == pre.subrange(k, pre.len() as int));
        if was_wf && total_len(pre) <= u64::MAX {
            assert(pre_wf);
            assert(room.memory.wf());
            assert(room.memory.entries@ == evict_spec(pre, room.memory.capacity));
        }
        let fin = room.memory.entries@;
        let cap = room.memory.capacity;
        let max = room.config.max_input_size;
        assert(exists|p: Seq<MemoryEntry>|
            {
                &&& #[trigger] logged(old_entries, p, raw@, now, max, text_of(resp))
                &&& exists|k: int| 0 <= k <= p.len() && fin == p.subrange(k, p.len() as int)
                &&& was_wf && total_len(p) <= u64::MAX ==> room.memory.wf() && fin == evict_spec(
                    p,
                    cap,
                )
            });
    }
    Ok(resp)
}

} // verus!
