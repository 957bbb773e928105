//! The entity state and the deterministic interpreter that changes it.

use vstd::prelude::*;

use crate::memory::{byte_len, lemma_total_len_push, sat_add, total_len, EntryType, MemoryEntry, MetaValue};
use crate::room::{percent, state_name, Room, RoomState};
use crate::text::{
    after, chars_of, dec_int, dec_nat, eq_ignore_ascii_case, equals_ignore_ascii_case, find_char,
    has_prefix, index_of, is_punct_or_digit, is_ws, lemma_index_of_at_most, trim_end, trim_start, push_decimal, push_signed_decimal,
    slice_chars, starts_with, string_of, trim, trim_chars,
};

verus! {

/// The map that a list of (key, value) pairs stands for; a later pair wins.
pub open spec fn assoc<V: View>(s: Seq<(String, V)>) -> Map<Seq<char>, V::V>
    decreases s.len(),
{
    if s.len() == 0 {
        Map::empty()
    } else {
        assoc(s.drop_last()).insert(s.last().0@, s.last().1@)
    }
}

/// No key occurs twice.
pub open spec fn keys_unique<V>(s: Seq<(String, V)>) -> bool {
    forall|i: int, j: int| 0 <= i < j < s.len() ==> s[i].0@ != s[j].0@
}

proof fn lemma_assoc_found<V: View>(s: Seq<(String, V)>, i: int)
    requires
        0 <= i < s.len(),
        forall|j: int| i < j < s.len() ==> s[j].0@ != s[i].0@,
    ensures
        assoc(s).contains_key(s[i].0@),
        assoc(s)[s[i].0@] == s[i].1@,
    decreases s.len(),
{
    if i < s.len() - 1 {
        lemma_assoc_found(s.drop_last(), i);
    }
}

proof fn lemma_assoc_absent<V: View>(s: Seq<(String, V)>, k: Seq<char>)
    requires
        forall|j: int| 0 <= j < s.len() ==> s[j].0@ != k,
    ensures
        !assoc(s).contains_key(k),
    decreases s.len(),
{
    if s.len() > 0 {
        lemma_assoc_absent(s.drop_last(), k);
    }
}

proof fn lemma_assoc_update<V: View>(s: Seq<(String, V)>, i: int, p: (String, V))
    requires
        0 <= i < s.len(),
        p.0@ == s[i].0@,
        forall|j: int| i < j < s.len() ==> s[j].0@ != s[i].0@,
    ensures
        assoc(s.update(i, p)) == assoc(s).insert(p.0@, p.1@),
    decreases s.len(),
{
    let t = s.update(i, p);
    if i == s.len() - 1 {
        assert(t.drop_last() =~= s.drop_last());
        assert(assoc(t) =~= assoc(s).insert(p.0@, p.1@));
    } else {
        assert(t.drop_last() =~= s.drop_last().update(i, p));
        lemma_assoc_update(s.drop_last(), i, p);
        assert(assoc(t) =~= assoc(s).insert(p.0@, p.1@));
    }
}

proof fn lemma_assoc_push<V: View>(s: Seq<(String, V)>, p: (String, V))
    ensures
        assoc(s.push(p)) == assoc(s).insert(p.0@, p.1@),
{
    assert(s.push(p).drop_last() =~= s);
}

/// Position of `k` among the keys of `s`, if present.
fn find_key<V>(s: &Vec<(String, V)>, k: &String) -> (r: Option<usize>)
    ensures
        r is Some ==> r->0 < s@.len() && s@[r->0 as int].0@ == k@,
        r is None ==> forall|j: int| 0 <= j < s@.len() ==> s@[j].0@ != k@,
{
    let mut i: usize = 0;
    while i < s.len()
        invariant
            0 <= i <= s@.len(),
            forall|j: int| 0 <= j < i ==> s@[j].0@ != k@,
        decreases s@.len() - i,
    {
        if s[i].0 == *k {
            return Some(i);
        }
        i = i + 1;
    }
    None
}

/// Sets `k` to `v`, replacing the pair that holds `k` or adding one.
fn upsert<V: View>(s: &mut Vec<(String, V)>, k: String, v: V)
    requires
        keys_unique(old(s)@),
    ensures
        keys_unique(final(s)@),
        assoc(final(s)@) == assoc(old(s)@).insert(k@, v@),
{
    let ghost kv = k@;
    let ghost vv = v@;
    match find_key(s, &k) {
        Some(i) => {
            proof {
                lemma_assoc_update(s@, i as int, (k, v));
            }
            s.set(i, (k, v));
        },
        None => {
            proof {
                lemma_assoc_push(s@, (k, v));
            }
            s.push((k, v));
        },
    }
    assert(keys_unique(s@));
}

/// Whether no key occurs twice in `s`.
fn unique_keys<V>(s: &Vec<(String, V)>) -> (r: bool)
    ensures
        r == keys_unique(s@),
{
    let mut i: usize = 0;
    while i < s.len()
        invariant
            0 <= i <= s@.len(),
            forall|a: int, b: int| 0 <= a < b < s@.len() && a < i ==> s@[a].0@ != s@[b].0@,
        decreases s@.len() - i,
    {
        let mut j: usize = i + 1;
        while j < s.len()
            invariant
                i < s@.len(),
                i + 1 <= j <= s@.len(),
                forall|a: int, b: int| 0 <= a < b < s@.len() && a < i ==> s@[a].0@ != s@[b].0@,
                forall|b: int| i < b < j ==> s@[i as int].0@ != s@[b].0@,
            decreases s@.len() - j,
        {
            if s[i].0 == s[j].0 {
                return false;
            }
            j = j + 1;
        }
        i = i + 1;
    }
    true
}

/// Per-room key/value store and named counters.
#[derive(Debug)]
pub struct EntityState {
    pub kv: Vec<(String, String)>,
    pub counters: Vec<(String, i64)>,
    /// Informational only.
    pub version: String,
}

pub const ENTITY_VERSION: &'static str = "2.1.0";

impl EntityState {
    /// Keys are unique in both tables.
    pub open spec fn wf(&self) -> bool {
        keys_unique(self.kv@) && keys_unique(self.counters@)
    }

    /// Checks `wf`, for states that come from outside, such as a decoded
    /// document.
    pub fn is_well_formed(&self) -> (r: bool)
        ensures
            r == self.wf(),
    {
        unique_keys(&self.kv) && unique_keys(&self.counters)
    }

    pub open spec fn kv_map(&self) -> Map<Seq<char>, Seq<char>> {
        assoc(self.kv@)
    }

    pub open spec fn counter_map(&self) -> Map<Seq<char>, i64> {
        assoc(self.counters@)
    }

    /// The value stored under `key`, if any.
    pub fn get(&self, key: &String) -> (r: Option<&String>)
        requires
            self.wf(),
        ensures
            r is Some <==> self.kv_map().contains_key(key@),
            r is Some ==> r->0@ == self.kv_map()[key@],
    {
        match find_key(&self.kv, key) {
            Some(i) => {
                proof {
                    lemma_assoc_found(self.kv@, i as int);
                }
                Some(&self.kv[i].1)
            },
            None => {
                proof {
                    lemma_assoc_absent(self.kv@, key@);
                }
                None
            },
        }
    }

    /// The value of counter `name`, if it was ever set.
    pub fn counter(&self, name: &String) -> (r: Option<i64>)
        requires
            self.wf(),
        ensures
            r is Some <==> self.counter_map().contains_key(name@),
            r is Some ==> r->0 == self.counter_map()[name@],
    {
        match find_key(&self.counters, name) {
            Some(i) => {
                proof {
                    lemma_assoc_found(self.counters@, i as int);
                }
                Some(self.counters[i].1)
            },
            None => {
                proof {
                    lemma_assoc_absent(self.counters@, name@);
                }
                None
            },
        }
    }

    /// Stores `value` under `key`.
    pub fn set(&mut self, key: String, value: String)
        requires
            old(self).wf(),
        ensures
            final(self).wf(),
            final(self).kv_map() == old(self).kv_map().insert(key@, value@),
            final(self).counter_map() == old(self).counter_map(),
            final(self).version == old(self).version,
    {
        upsert(&mut self.kv, key, value);
    }

    /// Sets counter `name` to `value`.
    pub fn set_counter(&mut self, name: String, value: i64)
        requires
            old(self).wf(),
        ensures
            final(self).wf(),
            final(self).counter_map() == old(self).counter_map().insert(name@, value),
            final(self).kv_map() == old(self).kv_map(),
            final(self).version == old(self).version,
    {
        upsert(&mut self.counters, name, value);
    }
}

impl Default for EntityState {
    fn default() -> (r: Self)
        ensures
            r.wf(),
            r.kv@.len() == 0,
            r.counters@.len() == 0,
            r.version@ == ENTITY_VERSION@,
    {
        EntityState { kv: Vec::new(), counters: Vec::new(), version: String::from_str(ENTITY_VERSION) }
    }
}

pub const REMEMBER: &'static str = "remember ";

pub const RECALL: &'static str = "recall ";

pub const INIT_COUNTER: &'static str = "initialize counter ";

pub const INCREMENT_COUNTER: &'static str = "increment counter ";

pub const RESET_COUNTER: &'static str = "reset counter ";

pub const SIZE_EXCEEDED: &'static str = "ERROR: INPUT_SIZE_EXCEEDED";

pub const STORED: &'static str = "ENTITY: Stored.";

pub const RECALLED: &'static str = "ENTITY: ";

pub const NO_SUCH_ENTRY: &'static str = "ENTITY: No such entry.";

pub const COUNTER_INITIALIZED: &'static str = "ENTITY: Counter initialized.";

pub const COUNTER_VALUE: &'static str = "ENTITY: Counter: ";

pub const COUNTER_RESET: &'static str = "ENTITY: Counter reset to 0.";

pub const STATUS_HEAD: &'static str = "ENTITY: Operational. Memory usage ";

pub const STATUS_MIDDLE: &'static str = "%. State: ";

pub const STATUS_TAIL: &'static str = ".";

pub const ACKNOWLEDGED: &'static str = "ENTITY: Acknowledged.";

/// What an input asks for, in the order in which the rules are tried.
pub enum CommandView {
    Blank,
    Oversized,
    Remember { key: Seq<char>, value: Seq<char> },
    Recall { key: Seq<char> },
    InitCounter { name: Seq<char> },
    IncrementCounter { name: Seq<char> },
    ResetCounter { name: Seq<char> },
    Status,
    Noise,
    Other,
}

/// A recognised input, holding the texts that it names.
#[derive(Debug)]
pub enum Command {
    Blank,
    Oversized,
    Remember { key: String, value: String },
    Recall { key: String },
    InitCounter { name: String },
    IncrementCounter { name: String },
    ResetCounter { name: String },
    Status,
    Noise,
    Other,
}

impl View for Command {
    type V = CommandView;

    open spec fn view(&self) -> CommandView {
        match self {
            Command::Blank => CommandView::Blank,
            Command::Oversized => CommandView::Oversized,
            Command::Remember { key, value } => CommandView::Remember { key: key@, value: value@ },
            Command::Recall { key } => CommandView::Recall { key: key@ },
            Command::InitCounter { name } => CommandView::InitCounter { name: name@ },
            Command::IncrementCounter { name } => CommandView::IncrementCounter { name: name@ },
            Command::ResetCounter { name } => CommandView::ResetCounter { name: name@ },
            Command::Status => CommandView::Status,
            Command::Noise => CommandView::Noise,
            Command::Other => CommandView::Other,
        }
    }
}

pub open spec fn is_status_query(t: Seq<char>) -> bool {
    eq_ignore_ascii_case(t, "system status"@) || eq_ignore_ascii_case(t, "status"@)
        || eq_ignore_ascii_case(t, "system check"@)
}

pub open spec fn is_noise(t: Seq<char>) -> bool {
    t.len() < 6 && forall|i: int| 0 <= i < t.len() ==> is_punct_or_digit(#[trigger] t[i])
}

/// The rule that the input `raw` falls under; the first that matches wins.
pub open spec fn classify(raw: Seq<char>, max_input_size: u64) -> CommandView {
    let t = trim(raw);
    let rest = after(t, REMEMBER@.len());
    let colon = index_of(rest, ':');
    if t.len() == 0 {
        CommandView::Blank
    } else if byte_len(raw) > max_input_size {
        CommandView::Oversized
    } else if has_prefix(t, REMEMBER@) && colon >= 0 {
        CommandView::Remember {
            key: trim(rest.subrange(0, colon)),
            value: trim(rest.subrange(colon + 1, rest.len() as int)),
        }
    } else if has_prefix(t, RECALL@) {
        CommandView::Recall { key: trim(after(t, RECALL@.len())) }
    } else if has_prefix(t, INIT_COUNTER@) {
        CommandView::InitCounter { name: trim(after(t, INIT_COUNTER@.len())) }
    } else if has_prefix(t, INCREMENT_COUNTER@) {
        CommandView::IncrementCounter { name: trim(after(t, INCREMENT_COUNTER@.len())) }
    } else if has_prefix(t, RESET_COUNTER@) {
        CommandView::ResetCounter { name: trim(after(t, RESET_COUNTER@.len())) }
    } else if is_status_query(t) {
        CommandView::Status
    } else if is_noise(t) {
        CommandView::Noise
    } else {
        CommandView::Other
    }
}

/// One more than `v`, held at the largest `i64`.
pub open spec fn bump(v: i64) -> i64 {
    if v == i64::MAX {
        v
    } else {
        (v + 1) as i64
    }
}

/// The key/value map after `cmd`.
pub open spec fn next_kv(kv: Map<Seq<char>, Seq<char>>, cmd: CommandView) -> Map<
    Seq<char>,
    Seq<char>,
> {
    match cmd {
        CommandView::Remember { key, value } => kv.insert(key, value),
        _ => kv,
    }
}

/// The counter value that `increment counter name` leaves.
pub open spec fn incremented(counters: Map<Seq<char>, i64>, name: Seq<char>) -> i64 {
    if counters.contains_key(name) {
        bump(counters[name])
    } else {
        1
    }
}

/// The counters after `cmd`.
pub open spec fn next_counters(counters: Map<Seq<char>, i64>, cmd: CommandView) -> Map<
    Seq<char>,
    i64,
> {
    match cmd {
        CommandView::InitCounter { name } => counters.insert(name, 0),
        CommandView::IncrementCounter { name } => counters.insert(
            name,
            incremented(counters, name),
        ),
        CommandView::ResetCounter { name } => counters.insert(name, 0),
        _ => counters,
    }
}

/// The reply to `cmd`, given the state before it, the log's use in percent
/// and the room's state.
pub open spec fn reply(
    kv: Map<Seq<char>, Seq<char>>,
    counters: Map<Seq<char>, i64>,
    cmd: CommandView,
    pct: nat,
    state: RoomState,
) -> Option<Seq<char>> {
    match cmd {
        CommandView::Blank => None,
        CommandView::Oversized => Some(SIZE_EXCEEDED@),
        CommandView::Remember { .. } => Some(STORED@),
        CommandView::Recall { key } => if kv.contains_key(key) {
            Some(RECALLED@ + kv[key])
        } else {
            Some(NO_SUCH_ENTRY@)
        },
        CommandView::InitCounter { .. } => Some(COUNTER_INITIALIZED@),
        CommandView::IncrementCounter { name } => Some(
            COUNTER_VALUE@ + dec_int(incremented(counters, name) as int),
        ),
        CommandView::ResetCounter { .. } => Some(COUNTER_RESET@),
        CommandView::Status => Some(
            STATUS_HEAD@ + dec_nat(pct) + STATUS_MIDDLE@ + state_name(state) + STATUS_TAIL@,
        ),
        CommandView::Noise => None,
        CommandView::Other => Some(ACKNOWLEDGED@),
    }
}

fn owned(v: &Vec<char>) -> (r: String)
    ensures
        r@ == v@,
{
    string_of(v.as_slice())
}

fn all_punct_or_digit(t: &Vec<char>) -> (r: bool)
    ensures
        r == forall|i: int| 0 <= i < t@.len() ==> is_punct_or_digit(#[trigger] t@[i]),
{
    let mut i: usize = 0;
    while i < t.len()
        invariant
            0 <= i <= t@.len(),
            forall|j: int| 0 <= j < i ==> is_punct_or_digit(#[trigger] t@[j]),
        decreases t@.len() - i,
    {
        let c = t[i];
        if !(('!' <= c && c <= '/') || (':' <= c && c <= '@') || ('[' <= c && c <= '`') || ('{'
            <= c && c <= '~') || ('0' <= c && c <= '9')) {
            return false;
        }
        i = i + 1;
    }
    true
}

/// The trimmed text after a prefix of `n` characters.
fn trimmed_after(t: &Vec<char>, n: usize) -> (r: String)
    requires
        n <= t@.len(),
    ensures
        r@ == trim(after(t@, n as nat)),
{
    let rest = slice_chars(t.as_slice(), n, t.len());
    let k = trim_chars(rest.as_slice());
    owned(&k)
}

/// Sorts the input `raw` under the first rule that matches it.
pub fn parse_command(raw: &str, max_input_size: u64) -> (r: Command)
    ensures
        r@ == classify(raw@, max_input_size),
{
    let chars = chars_of(raw);
    let t = trim_chars(chars.as_slice());
    if t.len() == 0 {
        return Command::Blank;
    }
    if raw.len() as u64 > max_input_size {
        return Command::Oversized;
    }
    let ghost rest_spec = after(t@, REMEMBER@.len());
    if starts_with(t.as_slice(), REMEMBER) {
        let n = REMEMBER.unicode_len();
        let rest = slice_chars(t.as_slice(), n, t.len());
        assert(rest@ == rest_spec);
        match find_char(rest.as_slice(), ':') {
            Some(j) => {
                let k = slice_chars(rest.as_slice(), 0, j);
                let v = slice_chars(rest.as_slice(), j + 1, rest.len());
                let key = owned(&trim_chars(k.as_slice()));
                let value = owned(&trim_chars(v.as_slice()));
                return Command::Remember { key, value };
            },
            None => {},
        }
    }
    if starts_with(t.as_slice(), RECALL) {
        return Command::Recall { key: trimmed_after(&t, RECALL.unicode_len()) };
    }
    if starts_with(t.as_slice(), INIT_COUNTER) {
        return Command::InitCounter { name: trimmed_after(&t, INIT_COUNTER.unicode_len()) };
    }
    if starts_with(t.as_slice(), INCREMENT_COUNTER) {
        return Command::IncrementCounter {
            name: trimmed_after(&t, INCREMENT_COUNTER.unicode_len()),
        };
    }
    if starts_with(t.as_slice(), RESET_COUNTER) {
        return Command::ResetCounter { name: trimmed_after(&t, RESET_COUNTER.unicode_len()) };
    }
    if equals_ignore_ascii_case(t.as_slice(), "system status") || equals_ignore_ascii_case(
        t.as_slice(),
        "status",
    ) || equals_ignore_ascii_case(t.as_slice(), "system check") {
        return Command::Status;
    }
    if t.len() < 6 && all_punct_or_digit(&t) {
        return Command::Noise;
    }
    Command::Other
}

/// `r` as text, if present.
pub open spec fn text_of(r: Option<String>) -> Option<Seq<char>> {
    match r {
        Some(s) => Some(s@),
        None => None,
    }
}

/// `e` was logged at `ts`, of kind `kind`, holding `content`.
pub open spec fn is_record(e: MemoryEntry, ts: i64, kind: EntryType, content: Seq<char>) -> bool {
    e.timestamp == ts && e.kind == kind && e.content@ == content
}

/// The refusal record of an oversized input, noting the limit.
pub open spec fn is_size_record(e: MemoryEntry, ts: i64, max_input_size: u64) -> bool {
    is_record(e, ts, EntryType::ERROR, SIZE_EXCEEDED@) && e.metadata@.len() == 1
        && e.metadata@[0].0@ == "max"@ && e.metadata@[0].1 == MetaValue::UInt(max_input_size)
}

/// The deterministic rule engine of a room.
pub struct Entity;

impl Entity {
    /// Logs `raw` as an input, applies the first rule that matches it to the
    /// entity state, and returns the reply, if any. An oversized input is
    /// also logged as an error.
    pub fn handle_input(room: &mut Room, raw: &str, now: i64) -> (r: Option<String>)
        requires
            old(room).entity_state.wf(),
        ensures
            ({
                let cmd = classify(raw@, old(room).config.max_input_size);
                let used = sat_add(old(room).memory.usage, byte_len(raw@));
                let n = old(room).memory.entries@.len() as int;
                let entries = final(room).memory.entries@;
                &&& final(room).entity_state.wf()
                &&& final(room).entity_state.kv_map() == next_kv(
                    old(room).entity_state.kv_map(),
                    cmd,
                )
                &&& final(room).entity_state.counter_map() == next_counters(
                    old(room).entity_state.counter_map(),
                    cmd,
                )
                &&& final(room).entity_state.version == old(room).entity_state.version
                &&& text_of(r) == reply(
                    old(room).entity_state.kv_map(),
                    old(room).entity_state.counter_map(),
                    cmd,
                    percent(used, old(room).memory.capacity),
                    old(room).state,
                )
                &&& entries.subrange(0, n) == old(room).memory.entries@
                &&& is_record(entries[n], now, EntryType::INPUT, raw@)
                &&& entries[n].metadata@.len() == 0
                &&& if cmd is Oversized {
                    &&& entries.len() == n + 2
                    &&& is_size_record(entries[n + 1], now, old(room).config.max_input_size)
                    &&& final(room).memory.usage == sat_add(used, byte_len(SIZE_EXCEEDED@))
                } else {
                    &&& entries.len() == n + 1
                    &&& final(room).memory.usage == used
                }
            }),
            final(room).memory.capacity == old(room).memory.capacity,
            old(room).memory.wf() && total_len(final(room).memory.entries@) <= u64::MAX
                ==> final(room).memory.wf(),
            final(room).id == old(room).id,
            final(room).created_at == old(room).created_at,
            final(room).last_active == old(room).last_active,
            final(room).state == old(room).state,
            final(room).config == old(room).config,
            final(room).metadata == old(room).metadata,
    {
        let ghost n = room.memory.entries@.len() as int;
        let ghost before = room.memory.entries@;
        room.memory.append(
            MemoryEntry {
                timestamp: now,
                kind: EntryType::INPUT,
                content: raw.to_owned(),
                metadata: Vec::new(),
            },
        );
        let ghost after_input = room.memory.entries@;
        proof {
            lemma_total_len_push(before, after_input.last());
            assert(after_input =~= before.push(after_input.last()));
        }
        let max = room.config.max_input_size;
        let cmd = parse_command(raw, max);
        let r = match cmd {
            Command::Blank => None,
            Command::Oversized => {
                room.memory.append(
                    MemoryEntry {
                        timestamp: now,
                        kind: EntryType::ERROR,
                        content: String::from_str(SIZE_EXCEEDED),
                        metadata: vec![(String::from_str("max"), MetaValue::UInt(max))],
                    },
                );
                proof {
                    assert(room.memory.entries@.subrange(0, n) =~= after_input.subrange(0, n));
                    lemma_total_len_push(after_input, room.memory.entries@.last());
                    assert(room.memory.entries@ =~= after_input.push(room.memory.entries@.last()));
                }
                Some(String::from_str(SIZE_EXCEEDED))
            },
            Command::Remember { key, value } => {
                room.entity_state.set(key, value);
                Some(String::from_str(STORED))
            },
            Command::Recall { key } => match room.entity_state.get(&key) {
                Some(v) => {
                    let mut s = String::from_str(RECALLED);
                    s.append(v.as_str());
                    Some(s)
                },
                None => Some(String::from_str(NO_SUCH_ENTRY)),
            },
            Command::InitCounter { name } => {
                room.entity_state.set_counter(name, 0);
                Some(String::from_str(COUNTER_INITIALIZED))
            },
            Command::IncrementCounter { name } => {
                let v = match room.entity_state.counter(&name) {
                    Some(c) => if c == i64::MAX {
                        c
                    } else {
                        c + 1
                    },
                    None => 1,
                };
                room.entity_state.set_counter(name, v);
                let mut s = String::from_str(COUNTER_VALUE);
                push_signed_decimal(&mut s, v);
                Some(s)
            },
            Command::ResetCounter { name } => {
                room.entity_state.set_counter(name, 0);
                Some(String::from_str(COUNTER_RESET))
            },
            Command::Status => {
                let pct = room.memory_utilization_percent();
                let mut s = String::from_str(STATUS_HEAD);
                push_decimal(&mut s, pct);
                s.append(STATUS_MIDDLE);
                s.append(room.state.name());
                s.append(STATUS_TAIL);
                Some(s)
            },
            Command::Noise => None,
            Command::Other => Some(String::from_str(ACKNOWLEDGED)),
        };
        r
    }
}

/// `s` has no whitespace at either end.
pub open spec fn is_trimmed(s: Seq<char>) -> bool {
    s.len() == 0 || (!is_ws(s[0]) && !is_ws(s.last()))
}

proof fn lemma_trim_trimmed(s: Seq<char>)
    requires
        is_trimmed(s),
    ensures
        trim(s) == s,
{
}

proof fn lemma_trim_leading_space(s: Seq<char>)
    requires
        is_trimmed(s),
    ensures
        trim(seq![' '] + s) == s,
{
    let p = seq![' '] + s;
    assert(p.drop_first() =~= s);
    assert(is_ws(p[0]));
    assert(trim_start(p) == trim_start(s));
    assert(trim_start(s) == s);
    assert(trim_end(s) == s);
}

/// The input that stores `value` under `key`.
pub open spec fn remember_input(key: Seq<char>, value: Seq<char>) -> Seq<char> {
    REMEMBER@ + key + ": "@ + value
}

/// The input that asks for the value under `key`.
pub open spec fn recall_input(key: Seq<char>) -> Seq<char> {
    RECALL@ + key
}

/// The input that raises counter `name` by one.
pub open spec fn increment_input(name: Seq<char>) -> Seq<char> {
    INCREMENT_COUNTER@ + name
}

proof fn lemma_classify_remember(key: Seq<char>, value: Seq<char>, max: u64)
    requires
        key.len() > 0,
        is_trimmed(key),
        is_trimmed(value),
        index_of(key, ':') == -1,
        byte_len(remember_input(key, value)) <= max,
    ensures
        classify(remember_input(key, value), max) == (CommandView::Remember { key, value }),
{
    reveal_strlit("remember ");
    reveal_strlit(": ");
    let raw = remember_input(key, value);
    let head = REMEMBER@ + key + seq![':'];
    assert(raw[0] == 'r');
    assert(trim_start(raw) == raw);
    if value.len() == 0 {
        assert(raw =~= head.push(' '));
        assert(raw.drop_last() =~= head);
        assert(head.last() == ':');
        assert(trim_end(head) == head);
        assert(trim(raw) == head);
    } else {
        assert(raw.last() == value.last());
        lemma_trim_trimmed(raw);
        assert(trim(raw) =~= head + seq![' '] + value);
    }
    let t = trim(raw);
    assert(t.subrange(0, REMEMBER@.len() as int) =~= REMEMBER@);
    let rest = after(t, REMEMBER@.len());
    let k = key.len() as int;
    assert(rest[k] == ':');
    assert forall|j: int| 0 <= j < k implies rest[j] != ':' by {
        assert(rest[j] == key[j]);
        if key[j] == ':' {
            lemma_index_of_at_most(key, ':', j);
        }
    }
    crate::text::lemma_index_of_found(rest, ':', k);
    assert(rest.subrange(0, k) =~= key);
    lemma_trim_trimmed(key);
    assert(trim(rest.subrange(0, k)) == key);
    if value.len() == 0 {
        assert(rest.subrange(k + 1, rest.len() as int) =~= Seq::<char>::empty());
        assert(trim(Seq::<char>::empty()) == Seq::<char>::empty());
    } else {
        assert(rest.subrange(k + 1, rest.len() as int) =~= seq![' '] + value);
        lemma_trim_leading_space(value);
    }
    assert(trim(rest.subrange(k + 1, rest.len() as int)) == value);
    assert(has_prefix(t, REMEMBER@));
    assert(index_of(rest, ':') == k);
}

proof fn lemma_not_prefix(t: Seq<char>, p: Seq<char>, i: int)
    requires
        0 <= i < p.len(),
        i < t.len(),
        t[i] != p[i],
    ensures
        !has_prefix(t, p),
{
    if has_prefix(t, p) {
        assert(t.subrange(0, p.len() as int)[i] == t[i]);
    }
}

proof fn lemma_classify_recall(key: Seq<char>, max: u64)
    requires
        key.len() > 0,
        is_trimmed(key),
        byte_len(recall_input(key)) <= max,
    ensures
        classify(recall_input(key), max) == (CommandView::Recall { key }),
{
    reveal_strlit("remember ");
    reveal_strlit("recall ");
    let raw = recall_input(key);
    assert(raw[0] == 'r');
    assert(raw.last() == key.last());
    lemma_trim_trimmed(raw);
    let t = trim(raw);
    assert(t[2] == 'c');
    lemma_not_prefix(t, REMEMBER@, 2);
    assert(t.subrange(0, RECALL@.len() as int) =~= RECALL@);
    assert(after(t, RECALL@.len()) =~= key);
    lemma_trim_trimmed(key);
}

proof fn lemma_classify_increment(name: Seq<char>, max: u64)
    requires
        name.len() > 0,
        is_trimmed(name),
        byte_len(increment_input(name)) <= max,
    ensures
        classify(increment_input(name), max) == (CommandView::IncrementCounter { name }),
{
    reveal_strlit("remember ");
    reveal_strlit("recall ");
    reveal_strlit("initialize counter ");
    reveal_strlit("increment counter ");
    let raw = increment_input(name);
    assert(raw[0] == 'i');
    assert(raw.last() == name.last());
    lemma_trim_trimmed(raw);
    let t = trim(raw);
    lemma_not_prefix(t, REMEMBER@, 0);
    lemma_not_prefix(t, RECALL@, 0);
    assert(t[2] == 'c');
    lemma_not_prefix(t, INIT_COUNTER@, 2);
    assert(t.subrange(0, INCREMENT_COUNTER@.len() as int) =~= INCREMENT_COUNTER@);
    assert(after(t, INCREMENT_COUNTER@.len()) =~= name);
    lemma_trim_trimmed(name);
}

/// Storing `value` under `key` and then asking for `key` replies with
/// exactly `value`, whatever the state before. Keys and values are taken as
/// the interpreter reads them: without surrounding whitespace, and a key
/// non-empty and free of `:`; both inputs within the size limit.
pub proof fn lemma_recall_after_remember(
    kv: Map<Seq<char>, Seq<char>>,
    counters: Map<Seq<char>, i64>,
    key: Seq<char>,
    value: Seq<char>,
    max_input_size: u64,
    pct: nat,
    state: RoomState,
)
    requires
        key.len() > 0,
        is_trimmed(key),
        is_trimmed(value),
        index_of(key, ':') == -1,
        byte_len(remember_input(key, value)) <= max_input_size,
        byte_len(recall_input(key)) <= max_input_size,
    ensures
        ({
            let stored = classify(remember_input(key, value), max_input_size);
            let asked = classify(recall_input(key), max_input_size);
            &&& reply(kv, counters, stored, pct, state) == Some(STORED@)
            &&& reply(next_kv(kv, stored), next_counters(counters, stored), asked, pct, state)
                == Some(RECALLED@ + value)
        }),
{
    lemma_classify_remember(key, value, max_input_size);
    lemma_classify_recall(key, max_input_size);
}

/// Asking for a key that was never stored replies with the fixed
/// "no such entry" text.
pub proof fn lemma_recall_unset(
    kv: Map<Seq<char>, Seq<char>>,
    counters: Map<Seq<char>, i64>,
    key: Seq<char>,
    max_input_size: u64,
    pct: nat,
    state: RoomState,
)
    requires
        key.len() > 0,
        is_trimmed(key),
        !kv.contains_key(key),
        byte_len(recall_input(key)) <= max_input_size,
    ensures
        reply(kv, counters, classify(recall_input(key), max_input_size), pct, state) == Some(
            NO_SUCH_ENTRY@,
        ),
{
    lemma_classify_recall(key, max_input_size);
}

/// The counters after `n` inputs of `increment counter name`.
pub open spec fn after_increments(
    counters: Map<Seq<char>, i64>,
    name: Seq<char>,
    max_input_size: u64,
    n: nat,
) -> Map<Seq<char>, i64>
    decreases n,
{
    if n == 0 {
        counters
    } else {
        next_counters(
            after_increments(counters, name, max_input_size, (n - 1) as nat),
            classify(increment_input(name), max_input_size),
        )
    }
}

/// Incrementing a counter that was never set, `n` times, leaves it at `n`:
/// a missing counter counts as zero.
pub proof fn lemma_increment_counts(
    counters: Map<Seq<char>, i64>,
    name: Seq<char>,
    max_input_size: u64,
    n: nat,
)
    requires
        !counters.contains_key(name),
        name.len() > 0,
        is_trimmed(name),
        byte_len(increment_input(name)) <= max_input_size,
        n <= i64::MAX,
    ensures
        n == 0 ==> !after_increments(counters, name, max_input_size, n).contains_key(name),
        n > 0 ==> after_increments(counters, name, max_input_size, n).contains_key(name)
            && after_increments(counters, name, max_input_size, n)[name] == n,
    decreases n,
{
    if n > 0 {
        lemma_classify_increment(name, max_input_size);
        lemma_increment_counts(counters, name, max_input_size, (n - 1) as nat);
    }
}

} // verus!
