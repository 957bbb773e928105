//! What the stores decide: listing, load outcomes, locations, selection.

use vstd::prelude::*;

use crate::config::{Backend, PersistenceConfig};
use crate::room::{Room, RoomState};

verus! {

/// A read-only projection of a room, recomputed for each listing.
#[derive(Debug)]
pub struct RoomSummary {
    pub id: String,
    pub state: RoomState,
    pub created_at: i64,
    pub last_active: i64,
    pub memory_usage: u64,
    pub memory_capacity: u64,
    pub total_inputs: u64,
    pub total_outputs: u64,
}

/// `s` projects `room`.
pub open spec fn summarizes(s: RoomSummary, room: Room) -> bool {
    &&& s.id@ == room.id@
    &&& s.state == room.state
    &&& s.created_at == room.created_at
    &&& s.last_active == room.last_active
    &&& s.memory_usage == room.memory.usage
    &&& s.memory_capacity == room.memory.capacity
    &&& s.total_inputs == room.metadata.total_inputs
    &&& s.total_outputs == room.metadata.total_outputs
}

impl Room {
    /// The listing projection of this room.
    pub fn summary(&self) -> (r: RoomSummary)
        ensures
            summarizes(r, *self),
    {
        RoomSummary {
            id: self.id.clone(),
            state: self.state,
            created_at: self.created_at,
            last_active: self.last_active,
            memory_usage: self.memory.usage,
            memory_capacity: self.memory.capacity,
            total_inputs: self.metadata.total_inputs,
            total_outputs: self.metadata.total_outputs,
        }
    }
}

/// Failures of the storage layer.
#[derive(Debug)]
pub enum PersistError {
    /// No record for the room id.
    NotFound(String),
    /// The stored document of the room id does not decode into a room.
    Corrupted(String),
    /// The configured variant has no implementation.
    BackendUnsupported(Backend),
    /// Reading or writing failed; the text says what and where.
    StorageIO(String),
}

/// The rooms that decoded, in the order given.
pub open spec fn decoded_rooms(stored: Seq<Option<Room>>) -> Seq<Room>
    decreases stored.len(),
{
    if stored.len() == 0 {
        Seq::empty()
    } else {
        let init = decoded_rooms(stored.drop_last());
        match stored.last() {
            Some(room) => init.push(room),
            None => init,
        }
    }
}

/// Summaries of the stored rooms that decoded, in storage order. A document
/// that does not decode (`None`) is skipped rather than failing the whole
/// listing; both stores list this way.
pub fn summaries(stored: &Vec<Option<Room>>) -> (r: Vec<RoomSummary>)
    ensures
        r@.len() == decoded_rooms(stored@).len(),
        forall|i: int|
            0 <= i < r@.len() ==> summarizes(#[trigger] r@[i], decoded_rooms(stored@)[i]),
{
    let mut out: Vec<RoomSummary> = Vec::new();
    let mut i: usize = 0;
    while i < stored.len()
        invariant
            0 <= i <= stored@.len(),
            out@.len() == decoded_rooms(stored@.subrange(0, i as int)).len(),
            forall|j: int|
                0 <= j < out@.len() ==> summarizes(
                    #[trigger] out@[j],
                    decoded_rooms(stored@.subrange(0, i as int))[j],
                ),
        decreases stored@.len() - i,
    {
        let ghost prev = stored@.subrange(0, i as int);
        let ghost next = stored@.subrange(0, i as int + 1);
        assert(next.drop_last() =~= prev);
        match &stored[i] {
            Some(room) => {
                out.push(room.summary());
            },
            None => {},
        }
        i = i + 1;
    }
    assert(stored@.subrange(0, stored@.len() as int) =~= stored@);
    out
}

/// The result of a load, from what the store found under `id`: nothing, a
/// document that does not decode, or a room.
pub fn load_outcome(id: &str, stored: Option<Option<Room>>) -> (r: Result<Room, PersistError>)
    ensures
        stored is None ==> (r matches Err(PersistError::NotFound(m)) && m@ == id@),
        stored matches Some(None) ==> (r matches Err(PersistError::Corrupted(m)) && m@ == id@),
        stored matches Some(Some(room)) ==> r == Ok::<Room, PersistError>(room),
{
    match stored {
        None => Err(PersistError::NotFound(id.to_owned())),
        Some(None) => Err(PersistError::Corrupted(id.to_owned())),
        Some(Some(room)) => Ok(room),
    }
}

/// `name` placed under the directory `base`, as `Path::join` places it: an
/// absolute `name` stands alone, and no separator is doubled.
pub open spec fn join_path(base: Seq<char>, name: Seq<char>) -> Seq<char> {
    if name.len() > 0 && name[0] == '/' {
        name
    } else if base.len() == 0 {
        name
    } else if base.last() == '/' {
        base + name
    } else {
        base + seq!['/'] + name
    }
}

/// `name` placed under the directory `base`.
pub fn join(base: &str, name: &str) -> (r: String)
    ensures
        r@ == join_path(base@, name@),
{
    let nb = base.unicode_len();
    if name.unicode_len() > 0 && name.get_char(0) == '/' {
        return name.to_owned();
    }
    if nb == 0 {
        return name.to_owned();
    }
    let mut s = base.to_owned();
    if base.get_char(nb - 1) != '/' {
        crate::text::push_char(&mut s, '/');
    }
    s.append(name);
    s
}

/// Name of the document file inside a room's directory.
pub const ROOM_FILE: &'static str = "room.json";

/// A store that keeps one directory per room, named by the room id, holding
/// one document.
#[derive(Debug)]
pub struct FilesystemPersistence {
    root: String,
}

impl FilesystemPersistence {
    pub closed spec fn root_view(&self) -> Seq<char> {
        self.root@
    }

    pub fn new(root: &str) -> (r: Self)
        ensures
            r.root_view() == root@,
    {
        FilesystemPersistence { root: root.to_owned() }
    }

    /// Directory under which all rooms lie.
    pub fn root(&self) -> (r: &str)
        ensures
            r@ == self.root_view(),
    {
        self.root.as_str()
    }

    /// Directory of room `id`.
    pub fn room_dir(&self, id: &str) -> (r: String)
        ensures
            r@ == join_path(self.root_view(), id@),
    {
        join(self.root.as_str(), id)
    }

    /// Document file of room `id`.
    pub fn room_file(&self, id: &str) -> (r: String)
        ensures
            r@ == join_path(join_path(self.root_view(), id@), ROOM_FILE@),
    {
        let dir = self.room_dir(id);
        join(dir.as_str(), ROOM_FILE)
    }
}

/// A store that keeps one table row per room, keyed by id, with the
/// document as an opaque text column.
#[derive(Debug)]
pub struct SqlitePersistence {
    db_path: String,
}

impl SqlitePersistence {
    pub closed spec fn path_view(&self) -> Seq<char> {
        self.db_path@
    }

    pub fn new(path: &str) -> (r: Self)
        ensures
            r.path_view() == path@,
    {
        SqlitePersistence { db_path: path.to_owned() }
    }

    /// The database file.
    pub fn db_path(&self) -> (r: &str)
        ensures
            r@ == self.path_view(),
    {
        self.db_path.as_str()
    }
}

/// A store chosen by configuration.
#[derive(Debug)]
pub enum Storage {
    Filesystem(FilesystemPersistence),
    Sqlite(SqlitePersistence),
}

/// The store that a configuration names, located at its path. Variants
/// without an implementation are refused here, before any operation.
pub fn storage_from_config(cfg: &PersistenceConfig) -> (r: Result<Storage, PersistError>)
    ensures
        cfg.backend == Backend::FILESYSTEM ==> (r matches Ok(Storage::Filesystem(p))
            && p.root_view() == cfg.path@),
        cfg.backend == Backend::SQLITE ==> (r matches Ok(Storage::Sqlite(p)) && p.path_view()
            == cfg.path@),
        cfg.backend == Backend::LEVELDB || cfg.backend == Backend::REDIS ==> r == Err::<
            Storage,
            PersistError,
        >(PersistError::BackendUnsupported(cfg.backend)),
{
    match cfg.backend {
        Backend::FILESYSTEM => Ok(Storage::Filesystem(FilesystemPersistence::new(cfg.path.as_str()))),
        Backend::SQLITE => Ok(Storage::Sqlite(SqlitePersistence::new(cfg.path.as_str()))),
        Backend::LEVELDB => Err(PersistError::BackendUnsupported(Backend::LEVELDB)),
        Backend::REDIS => Err(PersistError::BackendUnsupported(Backend::REDIS)),
    }
}

} // verus!
