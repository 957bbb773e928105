use backrooms_terminal::config::{
    parse_size, parse_size_upper, Backend, BackupConfig, PersistenceConfig, SizeError,
};
use backrooms_terminal::entity::{Command, Entity, EntityState};
use backrooms_terminal::entity::parse_command;
use backrooms_terminal::identity::{make_room_id, room_id_from};
use backrooms_terminal::lifecycle::{process_input, resume, suspend, RoomError};
use backrooms_terminal::memory::{EntryType, MemoryEntry, MemoryStore, MetaValue};
use backrooms_terminal::persistence::{
    join, load_outcome, storage_from_config, summaries, FilesystemPersistence, PersistError,
    SqlitePersistence, Storage,
};
use backrooms_terminal::room::{Room, RoomConfig, RoomState};

fn entry(content: &str) -> MemoryEntry {
    MemoryEntry {
        timestamp: 0,
        kind: EntryType::OBSERVATION,
        content: content.to_string(),
        metadata: Vec::new(),
    }
}

fn room_with(capacity: u64, max_input_size: u64) -> Room {
    let mut config = RoomConfig::default();
    config.memory_limit = capacity;
    config.max_input_size = max_input_size;
    Room::new("test".to_string(), 1_700_000_000, config, 1, "u".to_string(), "h".to_string())
}

fn say(room: &mut Room, input: &str) -> Option<String> {
    process_input(room, input, 1_700_000_001).unwrap()
}

#[test]
fn eviction_keeps_newest_within_capacity() {
    let mut m = MemoryStore::new(10);
    m.append(entry("aaaa"));
    m.append(entry("bbbb"));
    m.append(entry("cccc"));
    assert_eq!(m.usage, 12);
    m.truncate_to_fit();
    assert_eq!(m.usage, 8);
    assert_eq!(m.entries.len(), 2);
    assert_eq!(m.entries[0].content, "bbbb");
    assert_eq!(m.entries[1].content, "cccc");
    let total: usize = m.entries.iter().map(|e| e.content.len()).sum();
    assert_eq!(total, 8);
}

#[test]
fn oversized_single_entry_is_evicted() {
    let mut m = MemoryStore::new(3);
    m.append(entry("abcdef"));
    m.truncate_to_fit();
    assert_eq!(m.usage, 0);
    assert!(m.entries.is_empty());
}

#[test]
fn eviction_bound_holds_for_many_lengths() {
    for capacity in 0u64..12 {
        let mut m = MemoryStore::new(capacity);
        let lengths = [3usize, 0, 7, 1, 5, 2, 9, 4];
        for (i, n) in lengths.iter().enumerate() {
            m.append(entry(&"x".repeat(*n)));
            m.truncate_to_fit();
            assert!(m.usage <= capacity || m.entries.is_empty(), "capacity {} step {}", capacity, i);
            let total: u64 = m.entries.iter().map(|e| e.content.len() as u64).sum();
            assert_eq!(total, m.usage);
        }
    }
}

#[test]
fn eviction_removes_in_append_order() {
    let mut m = MemoryStore::new(6);
    for s in ["a1", "b2", "c3", "d4", "e5"] {
        m.append(entry(s));
    }
    m.truncate_to_fit();
    let kept: Vec<&str> = m.entries.iter().map(|e| e.content.as_str()).collect();
    assert_eq!(kept, vec!["c3", "d4", "e5"]);
}

#[test]
fn usage_counts_utf8_bytes() {
    let mut m = MemoryStore::new(100);
    m.append(entry("é"));
    assert_eq!(m.usage, 2);
}

#[test]
fn remember_then_recall() {
    let mut room = room_with(1024, 1024);
    assert_eq!(say(&mut room, "remember color: blue"), Some("ENTITY: Stored.".to_string()));
    assert_eq!(say(&mut room, "recall color"), Some("ENTITY: blue".to_string()));
}

#[test]
fn remember_overwrites_and_trims() {
    let mut room = room_with(1024, 1024);
    say(&mut room, "remember  pet :  cat  ");
    say(&mut room, "remember pet: dog");
    assert_eq!(say(&mut room, "  recall pet  "), Some("ENTITY: dog".to_string()));
    assert_eq!(room.entity_state.kv.len(), 1);
}

#[test]
fn recall_unset_key() {
    let mut room = room_with(1024, 1024);
    assert_eq!(say(&mut room, "recall nothing"), Some("ENTITY: No such entry.".to_string()));
}

#[test]
fn increment_counts_from_zero() {
    let mut room = room_with(1024, 1024);
    let mut last = None;
    for _ in 0..5 {
        last = say(&mut room, "increment counter c");
    }
    assert_eq!(last, Some("ENTITY: Counter: 5".to_string()));
    assert_eq!(room.entity_state.counter(&"c".to_string()), Some(5));
}

#[test]
fn counter_initialize_and_reset() {
    let mut room = room_with(1024, 1024);
    assert_eq!(
        say(&mut room, "initialize counter n"),
        Some("ENTITY: Counter initialized.".to_string())
    );
    say(&mut room, "increment counter n");
    say(&mut room, "increment counter n");
    assert_eq!(say(&mut room, "reset counter n"), Some("ENTITY: Counter reset to 0.".to_string()));
    assert_eq!(say(&mut room, "increment counter n"), Some("ENTITY: Counter: 1".to_string()));
}

#[test]
fn negative_counter_prints_sign() {
    let mut room = room_with(1024, 1024);
    room.entity_state.set_counter("n".to_string(), -3);
    assert_eq!(say(&mut room, "increment counter n"), Some("ENTITY: Counter: -2".to_string()));
}

#[test]
fn oversized_input_is_refused() {
    let mut room = room_with(1024, 8);
    let n = room.memory.entries.len();
    let r = say(&mut room, "remember a: bcdefgh");
    assert_eq!(r, Some("ERROR: INPUT_SIZE_EXCEEDED".to_string()));
    assert!(room.entity_state.kv.is_empty());
    let logged = &room.memory.entries[n..];
    assert_eq!(logged.len(), 3);
    assert_eq!(logged[0].kind, EntryType::INPUT);
    assert_eq!(logged[0].content, "remember a: bcdefgh");
    assert_eq!(logged[1].kind, EntryType::ERROR);
    assert_eq!(logged[1].content, "ERROR: INPUT_SIZE_EXCEEDED");
    assert_eq!(logged[1].metadata.len(), 1);
    assert_eq!(logged[1].metadata[0].0, "max");
    assert!(matches!(logged[1].metadata[0].1, MetaValue::UInt(8)));
    assert_eq!(logged[2].kind, EntryType::OUTPUT);
}

#[test]
fn suspended_room_refuses_input() {
    let mut room = room_with(1024, 1024);
    suspend(&mut room);
    assert_eq!(room.state, RoomState::SUSPENDED);
    assert_eq!(room.metadata.state_version, 2);
    let r = process_input(&mut room, "remember a: b", 5);
    assert_eq!(r, Err(RoomError::Suspended));
    assert!(room.memory.entries.is_empty());
    assert_eq!(room.memory.usage, 0);
    assert!(room.entity_state.kv.is_empty());
    assert_eq!(room.metadata.total_inputs, 0);
    assert_eq!(room.last_active, 1_700_000_000);
    assert_eq!(RoomError::Suspended.message(), "ERROR: ROOM_SUSPENDED");
}

#[test]
fn corrupted_room_refuses_input() {
    let mut room = room_with(1024, 1024);
    room.state = RoomState::CORRUPTED;
    assert_eq!(process_input(&mut room, "status", 5), Err(RoomError::Corrupted));
    assert!(room.memory.entries.is_empty());
}

#[test]
fn resume_reactivates() {
    let mut room = room_with(1024, 1024);
    suspend(&mut room);
    resume(&mut room);
    assert_eq!(room.state, RoomState::ACTIVE);
    assert_eq!(room.metadata.state_version, 3);
    assert_eq!(say(&mut room, "hello there"), Some("ENTITY: Acknowledged.".to_string()));
}

#[test]
fn process_input_updates_counters_and_log() {
    let mut room = room_with(1024, 1024);
    say(&mut room, "hello there");
    say(&mut room, "   ");
    assert_eq!(room.metadata.total_inputs, 2);
    assert_eq!(room.metadata.total_outputs, 1);
    assert_eq!(room.last_active, 1_700_000_001);
    let kinds: Vec<EntryType> = room.memory.entries.iter().map(|e| e.kind).collect();
    assert_eq!(kinds, vec![EntryType::INPUT, EntryType::OUTPUT, EntryType::INPUT]);
    assert_eq!(room.memory.usage, (11 + 21 + 3) as u64);
}

#[test]
fn status_reports_usage_and_state() {
    let mut room = room_with(200, 1024);
    let r = say(&mut room, "System Status");
    assert_eq!(r, Some("ENTITY: Operational. Memory usage 7%. State: ACTIVE.".to_string()));
    let mut room = room_with(0, 1024);
    let r = say(&mut room, "status");
    assert_eq!(r, Some("ENTITY: Operational. Memory usage 0%. State: ACTIVE.".to_string()));
}

#[test]
fn utilization_rounds_half_up() {
    let mut room = room_with(3, 1024);
    room.memory.usage = 1;
    assert_eq!(room.memory_utilization_percent(), 33);
    room.memory.usage = 2;
    assert_eq!(room.memory_utilization_percent(), 67);
    room.memory.capacity = 200;
    room.memory.usage = 1;
    assert_eq!(room.memory_utilization_percent(), 1);
}

#[test]
fn noise_is_ignored() {
    let mut room = room_with(1024, 1024);
    assert_eq!(say(&mut room, "!?"), None);
    assert_eq!(say(&mut room, "12345"), None);
    assert_eq!(say(&mut room, "123456"), Some("ENTITY: Acknowledged.".to_string()));
    assert_eq!(say(&mut room, ""), None);
}

#[test]
fn command_parsing() {
    assert!(matches!(parse_command("  ", 10), Command::Blank));
    assert!(matches!(parse_command("remember no colon", 100), Command::Other));
    assert!(matches!(parse_command("recall", 100), Command::Other));
    match parse_command("remember a:b:c", 100) {
        Command::Remember { key, value } => {
            assert_eq!(key, "a");
            assert_eq!(value, "b:c");
        }
        other => panic!("unexpected {:?}", other),
    }
    assert!(matches!(parse_command("SYSTEM CHECK", 100), Command::Status));
}

#[test]
fn entity_state_default_and_lookup() {
    let mut st = EntityState::default();
    assert_eq!(st.version, "2.1.0");
    assert!(st.is_well_formed());
    st.set("k".to_string(), "v".to_string());
    assert_eq!(st.get(&"k".to_string()), Some(&"v".to_string()));
    assert_eq!(st.get(&"x".to_string()), None);
    st.kv.push(("k".to_string(), "w".to_string()));
    assert!(!st.is_well_formed());
}

#[test]
fn handle_input_logs_input_only() {
    let mut room = room_with(1024, 1024);
    let r = Entity::handle_input(&mut room, "remember x: 1", 9);
    assert_eq!(r, Some("ENTITY: Stored.".to_string()));
    assert_eq!(room.memory.entries.len(), 1);
    assert_eq!(room.memory.entries[0].timestamp, 9);
}

#[test]
fn sizes_parse_with_units() {
    assert_eq!(parse_size("512M"), Ok(536_870_912));
    assert_eq!(parse_size(" 64kb "), Ok(65_536));
    assert_eq!(parse_size("2g"), Ok(2_147_483_648));
    assert_eq!(parse_size("10"), Ok(10));
    assert_eq!(parse_size("1GB"), Ok(1_073_741_824));
}

#[test]
fn sizes_reject_bad_text() {
    assert_eq!(parse_size(""), Err(SizeError::InvalidNumber));
    assert_eq!(parse_size("K"), Err(SizeError::InvalidNumber));
    assert_eq!(parse_size("5X"), Err(SizeError::InvalidUnit));
    assert_eq!(parse_size("5 K"), Err(SizeError::InvalidUnit));
    assert_eq!(parse_size("99999999999999999999"), Err(SizeError::InvalidNumber));
    assert_eq!(parse_size("18446744073709551615K"), Err(SizeError::TooLarge));
    assert_eq!(parse_size_upper("3kb"), Err(SizeError::InvalidUnit));
    assert_eq!(parse_size_upper("3KB"), Ok(3072));
}

#[test]
fn room_ids_are_hex_digests() {
    assert_eq!(
        room_id_from(1_700_000_000, "seed", "origin"),
        "36cb49abc93a27eb4228ae080d365a5bb09c4516b2cffe4fa2849aa28ba41966"
    );
    assert_eq!(
        room_id_from(-5, "a", "b"),
        "2239a51d38a1cf07f8db988cb205ce1e857fe01414652c9004cde0d3ebdb8219"
    );
    let a = make_room_id("pid:1");
    let b = make_room_id("pid:1");
    assert_eq!(a.len(), 64);
    assert_ne!(a, b);
}

#[test]
fn paths_of_rooms() {
    let p = FilesystemPersistence::new("/var/rooms");
    assert_eq!(p.root(), "/var/rooms");
    assert_eq!(p.room_dir("abc"), "/var/rooms/abc");
    assert_eq!(p.room_file("abc"), "/var/rooms/abc/room.json");
    assert_eq!(join("dir/", "x"), "dir/x");
    assert_eq!(join("", "x"), "x");
    assert_eq!(join("dir", "/abs"), "/abs");
    let s = SqlitePersistence::new("rooms.db");
    assert_eq!(s.db_path(), "rooms.db");
}

fn persistence_config(backend: Backend) -> PersistenceConfig {
    PersistenceConfig {
        backend,
        path: "data".to_string(),
        flush_interval: 5,
        compression: "zstd".to_string(),
        backup: BackupConfig {
            enabled: false,
            interval: 0,
            retention: 0,
            path: "backups".to_string(),
            compression: "gzip".to_string(),
        },
    }
}

#[test]
fn backends_are_selected_by_configuration() {
    match storage_from_config(&persistence_config(Backend::FILESYSTEM)) {
        Ok(Storage::Filesystem(p)) => assert_eq!(p.root(), "data"),
        other => panic!("unexpected {:?}", other),
    }
    match storage_from_config(&persistence_config(Backend::SQLITE)) {
        Ok(Storage::Sqlite(p)) => assert_eq!(p.db_path(), "data"),
        other => panic!("unexpected {:?}", other),
    }
    assert!(matches!(
        storage_from_config(&persistence_config(Backend::REDIS)),
        Err(PersistError::BackendUnsupported(Backend::REDIS))
    ));
    assert!(matches!(
        storage_from_config(&persistence_config(Backend::LEVELDB)),
        Err(PersistError::BackendUnsupported(Backend::LEVELDB))
    ));
}

#[test]
fn loads_classify_missing_and_undecodable() {
    match load_outcome("gone", None) {
        Err(PersistError::NotFound(id)) => assert_eq!(id, "gone"),
        other => panic!("unexpected {:?}", other),
    }
    match load_outcome("bad", Some(None)) {
        Err(PersistError::Corrupted(id)) => assert_eq!(id, "bad"),
        other => panic!("unexpected {:?}", other),
    }
    let room = room_with(10, 10);
    assert_eq!(load_outcome("test", Some(Some(room))).unwrap().id, "test");
}

#[test]
fn listing_skips_undecodable_rooms() {
    let mut a = room_with(50, 100);
    say(&mut a, "hello there");
    let stored = vec![Some(a), None, Some(room_with(7, 7))];
    let list = summaries(&stored);
    assert_eq!(list.len(), 2);
    assert_eq!(list[0].id, "test");
    assert_eq!(list[0].memory_usage, 32);
    assert_eq!(list[0].memory_capacity, 50);
    assert_eq!(list[0].total_inputs, 1);
    assert_eq!(list[0].total_outputs, 1);
    assert_eq!(list[1].memory_capacity, 7);
    assert_eq!(list[1].state, RoomState::ACTIVE);
}

#[test]
fn eviction_leaves_store_within_capacity_untouched() {
    let mut m = MemoryStore::new(10);
    m.append(entry("aaaa"));
    m.append(entry("bbbbbbbb"));
    m.usage = 5;
    m.truncate_to_fit();
    assert_eq!(m.usage, 5);
    assert_eq!(m.capacity, 10);
    assert_eq!(m.entries.len(), 2);
    assert_eq!(m.entries[0].content, "aaaa");
}

#[test]
fn room_ids_are_lower_case_hex() {
    let id = make_room_id("pid:7 user:u host:h");
    assert_eq!(id.len(), 64);
    assert!(id.chars().all(|c| c.is_ascii_digit() || ('a'..='f').contains(&c)));
}

#[test]
fn new_rooms_start_active_with_default_entity() {
    let room = room_with(64, 16);
    assert_eq!(room.state, RoomState::ACTIVE);
    assert_eq!(room.entity_state.version, "2.1.0");
    assert_eq!(room.metadata.state_version, 1);
    assert_eq!(room.memory.capacity, 64);
}
