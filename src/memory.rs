//! The bounded interaction log: append at the end, evict from the front.

use vstd::prelude::*;

verus! {

/// Number of UTF-8 bytes that a text occupies, as `str::len` reports it.
pub open spec fn byte_len(s: Seq<char>) -> nat {
    (vstd::utf8::encode_utf8(s).len() as usize) as nat
}

/// Kind of a log record.
#[allow(non_camel_case_types)]
#[derive(Debug, Clone, Copy, PartialEq, Eq, Structural)]
pub enum EntryType {
    INPUT,
    OUTPUT,
    OBSERVATION,
    STATE_CHANGE,
    ERROR,
}

/// A value carried in an entry's metadata.
#[derive(Debug)]
pub enum MetaValue {
    Null,
    Bool(bool),
    Int(i64),
    UInt(u64),
    Text(String),
    List(Vec<MetaValue>),
    Object(Vec<(String, MetaValue)>),
}

/// One record of the log. `content` never changes once appended.
#[derive(Debug)]
pub struct MemoryEntry {
    pub timestamp: i64,
    pub kind: EntryType,
    pub content: String,
    /// Structured payload, not interpreted by the log: pairs of name and value.
    pub metadata: Vec<(String, MetaValue)>,
}

/// Sum of the byte lengths of the contents of `entries`.
pub open spec fn total_len(entries: Seq<MemoryEntry>) -> nat
    decreases entries.len(),
{
    if entries.len() == 0 {
        0
    } else {
        total_len(entries.drop_last()) + byte_len(entries.last().content@)
    }
}

pub open spec fn sat_add(a: u64, b: nat) -> u64 {
    if a + b <= u64::MAX {
        (a + b) as u64
    } else {
        u64::MAX
    }
}

/// Bounded append-only log, evicted oldest first by total content size.
#[derive(Debug)]
pub struct MemoryStore {
    pub entries: Vec<MemoryEntry>,
    pub capacity: u64,
    pub usage: u64,
}

/// Removing the first entry lowers the total by that entry's length.
pub proof fn lemma_total_len_drop_first(entries: Seq<MemoryEntry>)
    requires
        entries.len() > 0,
    ensures
        total_len(entries) == byte_len(entries[0].content@) + total_len(entries.drop_first()),
    decreases entries.len(),
{
    if entries.len() > 1 {
        let rest = entries.drop_last();
        lemma_total_len_drop_first(rest);
        assert(rest.drop_first() =~= entries.drop_first().drop_last());
        assert(rest[0] == entries[0]);
        assert(entries.drop_first().last() == entries.last());
        assert(total_len(entries.drop_first()) == total_len(entries.drop_first().drop_last())
            + byte_len(entries.last().content@));
    } else {
        assert(entries.drop_first().len() == 0);
        assert(entries.drop_last().len() == 0);
        assert(total_len(entries.drop_first()) == 0);
        assert(total_len(entries.drop_last()) == 0);
    }
}

/// Appending an entry adds its length to the total.
pub proof fn lemma_total_len_push(entries: Seq<MemoryEntry>, e: MemoryEntry)
    ensures
        total_len(entries.push(e)) == total_len(entries) + byte_len(e.content@),
{
    assert(entries.push(e).drop_last() =~= entries);
}

impl MemoryStore {
    /// `usage` is exactly the total content size of the retained entries.
    pub open spec fn wf(&self) -> bool {
        self.usage as nat == total_len(self.entries@)
    }

    pub fn new(capacity: u64) -> (r: Self)
        ensures
            r.entries@.len() == 0,
            r.capacity == capacity,
            r.usage == 0,
            r.wf(),
    {
        MemoryStore { entries: Vec::new(), capacity, usage: 0 }
    }

    /// Places `entry` at the end and adds its content length to `usage`,
    /// saturating at the largest `u64`.
    pub fn append(&mut self, entry: MemoryEntry)
        ensures
            final(self).entries@ == old(self).entries@.push(entry),
            final(self).capacity == old(self).capacity,
            final(self).usage == sat_add(old(self).usage, byte_len(entry.content@)),
            old(self).wf() && old(self).usage + byte_len(entry.content@) <= u64::MAX
                ==> final(self).wf(),
    {
        let n = entry.content.as_str().len();
        self.usage = self.usage.saturating_add(n as u64);
        let ghost before = self.entries@;
        self.entries.push(entry);
        proof {
            assert(self.entries@.drop_last() =~= before);
        }
    }

    /// Removes entries from the front while `usage` exceeds `capacity`.
    pub fn truncate_to_fit(&mut self)
        ensures
            final(self).usage <= final(self).capacity || final(self).entries@.len() == 0,
            final(self).capacity == old(self).capacity,
            exists|k: int|
                0 <= k <= old(self).entries@.len() && final(self).entries@
                    == old(self).entries@.subrange(k, old(self).entries@.len() as int),
            old(self).wf() ==> final(self).wf(),
            old(self).wf() ==> final(self).entries@ == evict_spec(
                old(self).entries@,
                old(self).capacity,
            ),
            old(self).usage <= old(self).capacity ==> *final(self) == *old(self),
    {
        let ghost orig = self.entries@;
        let ghost k: int = 0;
        while self.usage > self.capacity && self.entries.len() > 0
            invariant
                0 <= k <= orig.len(),
                self.entries@ == orig.subrange(k, orig.len() as int),
                self.capacity == old(self).capacity,
                old(self).usage <= old(self).capacity ==> *self == *old(self),
                old(self).wf() ==> self.wf(),
                old(self).wf() ==> evict_spec(self.entries@, self.capacity) == evict_spec(
                    orig,
                    self.capacity,
                ),
            decreases self.entries.len(),
        {
            let ghost cur = self.entries@;
            let removed = self.entries.remove(0);
            let n = removed.content.as_str().len();
            self.usage = self.usage.saturating_sub(n as u64);
            proof {
                lemma_total_len_drop_first(cur);
                assert(self.entries@ =~= cur.drop_first());
                assert(self.entries@ =~= orig.subrange(k + 1, orig.len() as int));
                k = k + 1;
            }
        }
    }
}

/// What eviction leaves of `entries`: the oldest are dropped while the total
/// exceeds `capacity`.
pub open spec fn evict_spec(entries: Seq<MemoryEntry>, capacity: u64) -> Seq<MemoryEntry>
    decreases entries.len(),
{
    if total_len(entries) > capacity && entries.len() > 0 {
        evict_spec(entries.drop_first(), capacity)
    } else {
        entries
    }
}

} // verus!
