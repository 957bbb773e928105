//! The room aggregate and its configuration.

use vstd::prelude::*;

use crate::entity::{EntityState, ENTITY_VERSION};
use crate::memory::MemoryStore;

verus! {

/// Settings fixed when a room is created.
#[derive(Debug)]
pub struct RoomConfig {
    /// Capacity of the log, in bytes.
    pub memory_limit: u64,
    pub timeout_seconds: u64,
    /// A label only; the log does not compress.
    pub compression: String,
    /// Largest accepted input, in bytes.
    pub max_input_size: u64,
}

pub const DEFAULT_MEMORY_LIMIT: u64 = 536870912;

pub const DEFAULT_TIMEOUT_SECONDS: u64 = 30;

pub const DEFAULT_MAX_INPUT_SIZE: u64 = 65536;

impl Default for RoomConfig {
    fn default() -> (r: Self)
        ensures
            r.memory_limit == DEFAULT_MEMORY_LIMIT,
            r.timeout_seconds == DEFAULT_TIMEOUT_SECONDS,
            r.compression@ == "zstd"@,
            r.max_input_size == DEFAULT_MAX_INPUT_SIZE,
    {
        RoomConfig {
            memory_limit: DEFAULT_MEMORY_LIMIT,
            timeout_seconds: DEFAULT_TIMEOUT_SECONDS,
            compression: String::from_str("zstd"),
            max_input_size: DEFAULT_MAX_INPUT_SIZE,
        }
    }
}

/// Lifecycle state of a room.
#[allow(non_camel_case_types)]
#[derive(Debug, Clone, Copy, PartialEq, Eq, Structural)]
pub enum RoomState {
    ACTIVE,
    IDLE,
    SUSPENDED,
    CORRUPTED,
    TERMINATED,
}

/// The upper-case name of a state.
pub open spec fn state_name(s: RoomState) -> Seq<char> {
    match s {
        RoomState::ACTIVE => "ACTIVE"@,
        RoomState::IDLE => "IDLE"@,
        RoomState::SUSPENDED => "SUSPENDED"@,
        RoomState::CORRUPTED => "CORRUPTED"@,
        RoomState::TERMINATED => "TERMINATED"@,
    }
}

impl RoomState {
    /// The upper-case name of the state.
    pub fn name(&self) -> (r: &'static str)
        ensures
            r@ == state_name(*self),
    {
        match self {
            RoomState::ACTIVE => "ACTIVE",
            RoomState::IDLE => "IDLE",
            RoomState::SUSPENDED => "SUSPENDED",
            RoomState::CORRUPTED => "CORRUPTED",
            RoomState::TERMINATED => "TERMINATED",
        }
    }
}

/// Provenance and counters of a room.
#[derive(Debug)]
pub struct RoomMetadata {
    pub creation_timestamp: i64,
    pub creator_pid: u32,
    pub creator_user: String,
    pub creator_host: String,
    pub total_inputs: u64,
    pub total_outputs: u64,
    pub total_errors: u64,
    pub last_error: Option<String>,
    /// Raised by each explicit lifecycle transition; never lowered.
    pub state_version: u64,
}

/// The persisted aggregate: identity, lifecycle state, log and entity state.
#[derive(Debug)]
pub struct Room {
    pub id: String,
    pub created_at: i64,
    pub last_active: i64,
    pub state: RoomState,
    pub config: RoomConfig,
    pub memory: MemoryStore,
    pub entity_state: EntityState,
    pub metadata: RoomMetadata,
}

/// `usage / capacity * 100`, rounded half up; 0 when `capacity` is 0.
pub open spec fn percent(usage: u64, capacity: u64) -> nat {
    if capacity == 0 {
        0
    } else {
        let p = (200 * usage + capacity) / (2 * capacity as int);
        if p > u64::MAX {
            u64::MAX as nat
        } else {
            p as nat
        }
    }
}

impl Room {
    /// Share of the log's capacity in use, in whole percent.
    pub fn memory_utilization_percent(&self) -> (r: u64)
        ensures
            r == percent(self.memory.usage, self.memory.capacity),
    {
        let cap = self.memory.capacity;
        if cap == 0 {
            return 0;
        }
        let p: u128 = (200 * (self.memory.usage as u128) + cap as u128) / (2 * (cap as u128));
        if p > u64::MAX as u128 {
            u64::MAX
        } else {
            p as u64
        }
    }
}

impl Room {
    /// A new room: ACTIVE, with an empty log as large as the configured
    /// memory limit, a default entity state and zeroed counters.
    pub fn new(
        id: String,
        now: i64,
        config: RoomConfig,
        creator_pid: u32,
        creator_user: String,
        creator_host: String,
    ) -> (r: Room)
        ensures
            r.id == id,
            r.created_at == now,
            r.last_active == now,
            r.state == RoomState::ACTIVE,
            r.config == config,
            r.memory.entries@.len() == 0,
            r.memory.capacity == config.memory_limit,
            r.memory.wf(),
            r.entity_state.wf(),
            r.entity_state.kv@.len() == 0,
            r.entity_state.counters@.len() == 0,
            r.entity_state.version@ == ENTITY_VERSION@,
            r.metadata.creation_timestamp == now,
            r.metadata.creator_pid == creator_pid,
            r.metadata.creator_user == creator_user,
            r.metadata.creator_host == creator_host,
            r.metadata.total_inputs == 0,
            r.metadata.total_outputs == 0,
            r.metadata.total_errors == 0,
            r.metadata.last_error is None,
            r.metadata.state_version == 1,
    {
        let capacity = config.memory_limit;
        Room {
            id,
            created_at: now,
            last_active: now,
            state: RoomState::ACTIVE,
            config,
            memory: MemoryStore::new(capacity),
            entity_state: EntityState::default(),
            metadata: RoomMetadata {
                creation_timestamp: now,
                creator_pid,
                creator_user,
                creator_host,
                total_inputs: 0,
                total_outputs: 0,
                total_errors: 0,
                last_error: None,
                state_version: 1,
            },
        }
    }
}

} // verus!
