//! The durable storage contract a host must satisfy before a node may
//! release messages that depend on persisted state, together with an
//! in-memory reference implementation used for testing.

use vstd::prelude::*;
use crate::log::{LogEntry, copy_entry, entries_like};

verus! {

/// An error reported by a storage backend.
#[derive(Debug, Clone)]
pub struct StorageError {
    /// What went wrong, as the backend reported it.
    pub detail: String,
}

/// What a store holds: the persisted term, vote, and log.
pub ghost struct StorageModel {
    /// The persisted current term.
    pub term: u64,
    /// The persisted vote, if any.
    pub voted_for: Option<u64>,
    /// The persisted log entries, in the order they were appended.
    pub log: Seq<LogEntry>,
}

/// Durable storage for a node's persistent state.
///
/// `save_term_and_vote` must persist the pair atomically: after a
/// crash the store is either fully updated or unchanged. The same
/// holds of `append_entries` and `truncate_log_from`. A fresh store
/// loads as term 0, no vote, and an empty log.
pub trait Storage {
    /// Persist the current term and vote atomically.
    fn save_term_and_vote(&mut self, term: u64, voted_for: Option<u64>) -> Result<
        (),
        StorageError,
    >;

    /// Load the persisted term and vote.
    fn load_term_and_vote(&self) -> Result<(u64, Option<u64>), StorageError>;

    /// Durably append entries to the log.
    fn append_entries(&mut self, entries: &[LogEntry]) -> Result<(), StorageError>;

    /// Load all log entries, in the order they were appended.
    fn load_log(&self) -> Result<Vec<LogEntry>, StorageError>;

    /// Remove every entry whose index is at least `from_index`.
    fn truncate_log_from(&mut self, from_index: u64) -> Result<(), StorageError>;

    /// Wipe all persisted state.
    fn clear(&mut self) -> Result<(), StorageError>;
}

/// The entries of `log` whose index lies below `from_index`, in their
/// original order: what a truncation keeps.
pub open spec fn kept_entries(log: Seq<LogEntry>, from_index: u64) -> Seq<LogEntry>
    decreases log.len(),
{
    if log.len() == 0 {
        log
    } else {
        let rest = kept_entries(log.drop_last(), from_index);
        if log.last().index < from_index {
            rest.push(log.last())
        } else {
            rest
        }
    }
}

/// In-memory storage: keeps everything in the process, with no
/// persistence across restarts. It never fails, which makes every
/// clause of the storage contract provable.
pub struct InMemoryStorage {
    term: u64,
    voted_for: Option<u64>,
    log: Vec<LogEntry>,
}

impl View for InMemoryStorage {
    type V = StorageModel;

    closed spec fn view(&self) -> StorageModel {
        StorageModel { term: self.term, voted_for: self.voted_for, log: self.log@ }
    }
}

impl Default for InMemoryStorage {
    fn default() -> (r: Self)
        ensures
            r@ == (StorageModel { term: 0, voted_for: None, log: Seq::<LogEntry>::empty() }),
    {
        InMemoryStorage { term: 0, voted_for: None, log: Vec::new() }
    }
}

impl InMemoryStorage {
    /// Create a fresh, empty in-memory store.
    pub fn new() -> (r: Self)
        ensures
            r@ == (StorageModel { term: 0, voted_for: None, log: Seq::<LogEntry>::empty() }),
    {
        InMemoryStorage::default()
    }

    /// Persist the pair; the previous pair is overwritten as a whole.
    pub fn save_term_and_vote(&mut self, term: u64, voted_for: Option<u64>) -> (r: Result<
        (),
        StorageError,
    >)
        ensures
            r is Ok,
            final(self)@ == (StorageModel { term, voted_for, log: old(self)@.log }),
    {
        self.term = term;
        self.voted_for = voted_for;
        Ok(())
    }

    /// Load exactly the pair last saved, or (0, no vote) for a fresh
    /// store.
    pub fn load_term_and_vote(&self) -> (r: Result<(u64, Option<u64>), StorageError>)
        ensures
            r == Ok::<(u64, Option<u64>), StorageError>((self@.term, self@.voted_for)),
    {
        Ok((self.term, self.voted_for))
    }

    /// Append the entries at the end of the stored log, keeping what
    /// was there before untouched.
    pub fn append_entries(&mut self, entries: &[LogEntry]) -> (r: Result<(), StorageError>)
        ensures
            r is Ok,
            final(self)@.term == old(self)@.term,
            final(self)@.voted_for == old(self)@.voted_for,
            final(self)@.log.len() == old(self)@.log.len() + entries@.len(),
            final(self)@.log.take(old(self)@.log.len() as int) == old(self)@.log,
            entries_like(final(self)@.log.skip(old(self)@.log.len() as int), entries@),
    {
        let ghost pre = self.log@;
        let mut i: usize = 0;
        while i < entries.len()
            invariant
                self.term == old(self).term,
                self.voted_for == old(self).voted_for,
                i <= entries@.len(),
                self.log@.len() == pre.len() + i,
                self.log@.take(pre.len() as int) == pre,
                entries_like(self.log@.skip(pre.len() as int), entries@.take(i as int)),
            decreases entries@.len() - i,
        {
            let c = copy_entry(&entries[i]);
            proof {
                crate::log::lemma_entries_like_push(
                    self.log@.skip(pre.len() as int),
                    entries@.take(i as int),
                    c,
                    entries@[i as int],
                );
                assert(entries@.take(i as int).push(entries@[i as int]) =~= entries@.take(
                    i + 1,
                ));
                assert(self.log@.push(c).skip(pre.len() as int) =~= self.log@.skip(
                    pre.len() as int,
                ).push(c));
                assert(self.log@.push(c).take(pre.len() as int) =~= self.log@.take(
                    pre.len() as int,
                ));
            }
            self.log.push(c);
            i = i + 1;
        }
        proof {
            assert(entries@.take(entries@.len() as int) =~= entries@);
        }
        Ok(())
    }

    /// Hand back a copy of the stored log, in order.
    pub fn load_log(&self) -> (r: Result<Vec<LogEntry>, StorageError>)
        ensures
            r matches Ok(v) && entries_like(v@, self@.log),
    {
        let mut out: Vec<LogEntry> = Vec::new();
        let mut i: usize = 0;
        while i < self.log.len()
            invariant
                i <= self.log@.len(),
                entries_like(out@, self.log@.take(i as int)),
            decreases self.log@.len() - i,
        {
            let c = copy_entry(&self.log[i]);
            proof {
                crate::log::lemma_entries_like_push(
                    out@,
                    self.log@.take(i as int),
                    c,
                    self.log@[i as int],
                );
                assert(self.log@.take(i as int).push(self.log@[i as int]) =~= self.log@.take(
                    i + 1,
                ));
            }
            out.push(c);
            i = i + 1;
        }
        proof {
            assert(self.log@.take(self.log@.len() as int) =~= self.log@);
        }
        Ok(out)
    }

    /// Keep exactly the entries whose index is below `from_index`, in
    /// their original order.
    pub fn truncate_log_from(&mut self, from_index: u64) -> (r: Result<(), StorageError>)
        ensures
            r is Ok,
            final(self)@.term == old(self)@.term,
            final(self)@.voted_for == old(self)@.voted_for,
            final(self)@.log == kept_entries(old(self)@.log, from_index),
    {
        let mut rest: Vec<LogEntry> = Vec::new();
        std::mem::swap(&mut self.log, &mut rest);
        let ghost orig = rest@;
        proof {
            assert(orig.skip(0) =~= orig);
            assert(orig.take(0) =~= Seq::<LogEntry>::empty());
        }
        while rest.len() > 0
            invariant
                self.term == old(self).term,
                self.voted_for == old(self).voted_for,
                rest@.len() <= orig.len(),
                ({
                    let done = orig.len() - rest@.len();
                    &&& rest@ == orig.skip(done)
                    &&& self.log@ == kept_entries(orig.take(done), from_index)
                }),
            decreases rest@.len(),
        {
            let ghost done = orig.len() - rest@.len();
            let ghost rest_pre = rest@;
            let e = rest.remove(0);
            proof {
                assert(e == rest_pre[0]);
                assert(e == orig[done]);
                assert(rest@ =~= orig.skip(done + 1));
            }
            if e.index < from_index {
                self.log.push(e);
            }
            proof {
                let t1 = orig.take(done + 1);
                assert(t1.drop_last() =~= orig.take(done));
                assert(t1.last() == orig[done]);
                assert(self.log@ == kept_entries(t1, from_index));
            }
        }
        proof {
            assert(orig.take(orig.len() as int) =~= orig);
        }
        Ok(())
    }

    /// Wipe everything: the store loads as fresh afterwards.
    pub fn clear(&mut self) -> (r: Result<(), StorageError>)
        ensures
            r is Ok,
            final(self)@ == (StorageModel { term: 0, voted_for: None, log: Seq::<LogEntry>::empty() }),
    {
        self.term = 0;
        self.voted_for = None;
        self.log = Vec::new();
        Ok(())
    }
}

impl Storage for InMemoryStorage {
    fn save_term_and_vote(&mut self, term: u64, voted_for: Option<u64>) -> Result<
        (),
        StorageError,
    > {
        InMemoryStorage::save_term_and_vote(self, term, voted_for)
    }

    fn load_term_and_vote(&self) -> Result<(u64, Option<u64>), StorageError> {
        InMemoryStorage::load_term_and_vote(self)
    }

    fn append_entries(&mut self, entries: &[LogEntry]) -> Result<(), StorageError> {
        InMemoryStorage::append_entries(self, entries)
    }

    fn load_log(&self) -> Result<Vec<LogEntry>, StorageError> {
        InMemoryStorage::load_log(self)
    }

    fn truncate_log_from(&mut self, from_index: u64) -> Result<(), StorageError> {
        InMemoryStorage::truncate_log_from(self, from_index)
    }

    fn clear(&mut self) -> Result<(), StorageError> {
        InMemoryStorage::clear(self)
    }
}

/// Round trip through the store: saving a term and vote and loading
/// them back yields exactly the saved pair, and after an append the
/// stored log is the old log with the new entries as its tail.
pub proof fn lemma_storage_round_trip(
    pre: StorageModel,
    t: u64,
    v: Option<u64>,
    entries: Seq<LogEntry>,
)
    ensures
        ({
            let saved = StorageModel { term: t, voted_for: v, log: pre.log };
            saved.term == t && saved.voted_for == v
        }),
        (pre.log + entries).take(pre.log.len() as int) == pre.log,
        (pre.log + entries).skip(pre.log.len() as int) == entries,
{
    assert((pre.log + entries).take(pre.log.len() as int) =~= pre.log);
    assert((pre.log + entries).skip(pre.log.len() as int) =~= entries);
}

} // verus!
