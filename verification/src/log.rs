//! The replicated log: entries, well-formedness, and the merge that a
//! follower applies when it accepts an AppendEntries message.

use vstd::prelude::*;

verus! {

/// A single entry in the replicated log.
///
/// Entries are created exclusively by a leader and never mutated
/// afterwards; a follower may truncate them away during conflict
/// resolution.
#[derive(Debug, Clone)]
pub struct LogEntry {
    /// Election term in which the entry was created.
    pub term: u64,
    /// 1-based position of the entry in the log.
    pub index: u64,
    /// Opaque command bytes, interpreted only by the upstream state machine.
    pub command: Vec<u8>,
}

impl LogEntry {
    /// Create a new log entry.
    pub fn new(term: u64, index: u64, command: Vec<u8>) -> (r: LogEntry)
        ensures
            r.term == term,
            r.index == index,
            r.command == command,
    {
        LogEntry { term, index, command }
    }
}

/// Byte-for-byte copy of a command payload.
pub fn clone_command(v: &Vec<u8>) -> (r: Vec<u8>)
    ensures
        r@ == v@,
{
    let mut r: Vec<u8> = Vec::new();
    let mut i: usize = 0;
    while i < v.len()
        invariant
            i <= v.len(),
            r@ == v@.take(i as int),
        decreases v.len() - i,
    {
        let b = v[i];
        r.push(b);
        assert(v@.take(i + 1) =~= v@.take(i as int).push(v@[i as int]));
        i = i + 1;
    }
    assert(v@.take(v.len() as int) =~= v@);
    r
}

/// Field-for-field copy of an entry; the copy carries the same term,
/// index, and command bytes.
pub fn copy_entry(e: &LogEntry) -> (r: LogEntry)
    ensures
        entry_like(r, *e),
{
    LogEntry { term: e.term, index: e.index, command: clone_command(&e.command) }
}

/// Field-wise agreement of two entries, comparing command contents.
pub open spec fn entry_like(a: LogEntry, b: LogEntry) -> bool {
    a.term == b.term && a.index == b.index && a.command@ == b.command@
}

/// Element-wise agreement of two entry sequences.
pub open spec fn entries_like(a: Seq<LogEntry>, b: Seq<LogEntry>) -> bool {
    a.len() == b.len() && forall|i: int| 0 <= i < a.len() ==> entry_like(#[trigger] a[i], b[i])
}

/// Pushing like entries onto like sequences keeps them like.
pub proof fn lemma_entries_like_push(a: Seq<LogEntry>, b: Seq<LogEntry>, x: LogEntry, y: LogEntry)
    requires
        entries_like(a, b),
        entry_like(x, y),
    ensures
        entries_like(a.push(x), b.push(y)),
{
    assert forall|i: int|
        0 <= i < a.push(x).len() implies entry_like(#[trigger] a.push(x)[i], b.push(y)[i]) by {
        if i < a.len() {
            assert(a.push(x)[i] == a[i]);
            assert(b.push(y)[i] == b[i]);
            assert(entry_like(a[i], b[i]));
        } else {
            assert(a.push(x)[i] == x);
            assert(b.push(y)[i] == y);
        }
    }
}

/// A well-formed log numbers its entries 1, 2, 3, ... from the front.
pub open spec fn log_wf(log: Seq<LogEntry>) -> bool {
    forall|i: int| 0 <= i < log.len() ==> (#[trigger] log[i].index) as int == i + 1
}

/// Index of the last entry, or 0 for an empty log.
pub open spec fn last_index_of(log: Seq<LogEntry>) -> u64 {
    if log.len() == 0 {
        0
    } else {
        log[log.len() - 1].index
    }
}

/// Term of the last entry, or 0 for an empty log.
pub open spec fn last_term_of(log: Seq<LogEntry>) -> u64 {
    if log.len() == 0 {
        0
    } else {
        log[log.len() - 1].term
    }
}

/// Term of the entry at a 1-based index, or 0 when no entry is there.
pub open spec fn term_at(log: Seq<LogEntry>, index: u64) -> u64 {
    if 1 <= index as int && index as int <= log.len() {
        log[index as int - 1].term
    } else {
        0
    }
}

pub proof fn lemma_last_index_is_len(log: Seq<LogEntry>)
    requires
        log_wf(log),
    ensures
        last_index_of(log) as int == log.len(),
{
}

/// The receiver holds the entry that the leader names as the
/// predecessor of what it sends: either there is no predecessor, or an
/// entry is present at that index with the announced term.
pub open spec fn append_consistent(log: Seq<LogEntry>, prev_index: u64, prev_term: u64) -> bool {
    prev_index == 0 || (prev_index as int <= log.len() && term_at(log, prev_index) == prev_term)
}

/// Incoming entries continue immediately after `prev_index`, without
/// gaps or duplicates, and their indices stay below `u64::MAX`.
pub open spec fn entries_well_formed(prev_index: u64, entries: Seq<LogEntry>) -> bool {
    &&& prev_index + entries.len() < u64::MAX
    &&& forall|i: int|
        0 <= i < entries.len() ==> (#[trigger] entries[i].index) as int == prev_index + 1 + i
}

/// The entry at offset `j` of the incoming batch is already present in
/// the log, with the same term, at the position the batch targets.
pub open spec fn agrees_at(log: Seq<LogEntry>, prev: int, entries: Seq<LogEntry>, j: int) -> bool {
    prev + j < log.len() && log[prev + j].term == entries[j].term
}

/// First offset at or after `k` at which the incoming entries stop
/// agreeing with the log: either the entries are exhausted, the log
/// ends, or the terms differ.
pub open spec fn divergence_from(
    log: Seq<LogEntry>,
    prev: int,
    entries: Seq<LogEntry>,
    k: int,
) -> int
    decreases entries.len() - k,
{
    if k < 0 || k >= entries.len() {
        k
    } else if !agrees_at(log, prev, entries, k) {
        k
    } else {
        divergence_from(log, prev, entries, k + 1)
    }
}

/// The log that results from accepting `entries` after position `prev`:
/// entries already present with the same term are kept; at the first
/// conflict or extension point the rest of the log is replaced by the
/// incoming tail. When nothing diverges the log is unchanged.
pub open spec fn merge_log(log: Seq<LogEntry>, prev: int, entries: Seq<LogEntry>) -> Seq<LogEntry> {
    let d = divergence_from(log, prev, entries, 0);
    if d >= entries.len() {
        log
    } else {
        log.take(prev + d) + entries.skip(d)
    }
}

/// Basic facts about the divergence offset: it lies between `k` and the
/// number of entries, everything strictly before it agrees with the
/// log, and at the offset itself the agreement stops.
pub proof fn lemma_divergence_bounds(log: Seq<LogEntry>, prev: int, entries: Seq<LogEntry>, k: int)
    requires
        0 <= k <= entries.len(),
    ensures
        k <= divergence_from(log, prev, entries, k) <= entries.len(),
        forall|j: int|
            k <= j < divergence_from(log, prev, entries, k) ==> #[trigger] agrees_at(
                log,
                prev,
                entries,
                j,
            ),
        divergence_from(log, prev, entries, k) < entries.len() ==> !agrees_at(
            log,
            prev,
            entries,
            divergence_from(log, prev, entries, k),
        ),
        divergence_from(log, prev, entries, k) > k ==> prev + divergence_from(log, prev, entries, k)
            <= log.len(),
    decreases entries.len() - k,
{
    if k < entries.len() && agrees_at(log, prev, entries, k) {
        lemma_divergence_bounds(log, prev, entries, k + 1);
        assert forall|j: int|
            k <= j < divergence_from(log, prev, entries, k) implies #[trigger] agrees_at(
            log,
            prev,
            entries,
            j,
        ) by {
            if j == k {
                assert(agrees_at(log, prev, entries, k));
            }
        }
    }
}

/// The divergence offset is exactly `k` when everything before `k`
/// agrees and the agreement stops at `k`.
pub proof fn lemma_divergence_value(log: Seq<LogEntry>, prev: int, entries: Seq<LogEntry>, k: int)
    requires
        0 <= k <= entries.len(),
        forall|j: int| 0 <= j < k ==> #[trigger] agrees_at(log, prev, entries, j),
        k < entries.len() ==> !agrees_at(log, prev, entries, k),
    ensures
        divergence_from(log, prev, entries, 0) == k,
{
    lemma_divergence_from_step(log, prev, entries, 0, k);
}

/// Helper: the divergence computation starting at `j` passes through
/// every offset whose terms agree.
proof fn lemma_divergence_from_step(
    log: Seq<LogEntry>,
    prev: int,
    entries: Seq<LogEntry>,
    j: int,
    k: int,
)
    requires
        0 <= j <= k <= entries.len(),
        forall|m: int| 0 <= m < k ==> #[trigger] agrees_at(log, prev, entries, m),
        k < entries.len() ==> !agrees_at(log, prev, entries, k),
    ensures
        divergence_from(log, prev, entries, j) == k,
    decreases k - j,
{
    if j < k {
        assert(agrees_at(log, prev, entries, j));
        lemma_divergence_from_step(log, prev, entries, j + 1, k);
    }
}

/// Merging well-shaped entries into a well-formed log yields a
/// well-formed log again, with a known length.
pub proof fn lemma_merge_wf(log: Seq<LogEntry>, prev: int, entries: Seq<LogEntry>)
    requires
        log_wf(log),
        0 <= prev <= log.len(),
        entries_well_formed(prev as u64, entries),
        prev == prev as u64 as int,
    ensures
        log_wf(merge_log(log, prev, entries)),
        merge_log(log, prev, entries).len() == if divergence_from(log, prev, entries, 0)
            >= entries.len() {
            log.len() as int
        } else {
            prev + entries.len()
        },
{
    lemma_divergence_bounds(log, prev, entries, 0);
    let d = divergence_from(log, prev, entries, 0);
    let m = merge_log(log, prev, entries);
    assert(prev + d <= log.len());
    if d < entries.len() {
        assert(m.len() == prev + entries.len());
        assert forall|i: int| 0 <= i < m.len() implies (#[trigger] m[i].index) as int == i + 1 by {
            if i < prev + d {
                assert(m[i] == log.take(prev + d)[i]);
                assert(m[i] == log[i]);
            } else {
                assert(m[i] == entries.skip(d)[i - (prev + d)]);
                assert(m[i] == entries[i - prev]);
                assert((entries[i - prev].index) as int == prev + 1 + (i - prev));
            }
        }
    }
}

/// The merge never touches what stands before the divergence point, and
/// from there on the log holds exactly the incoming entries: this is
/// the mechanism behind the Log Matching property.
pub proof fn lemma_merge_preserves_prefix(log: Seq<LogEntry>, prev: int, entries: Seq<LogEntry>)
    requires
        0 <= prev <= log.len(),
    ensures
        ({
            let d = divergence_from(log, prev, entries, 0);
            let m = merge_log(log, prev, entries);
            &&& forall|i: int| 0 <= i < prev + d && i < log.len() ==> #[trigger] m[i] == log[i]
            &&& forall|i: int|
                prev + d <= i < m.len() && d < entries.len() ==> #[trigger] m[i] == entries[i
                    - prev]
        }),
{
    lemma_divergence_bounds(log, prev, entries, 0);
    let d = divergence_from(log, prev, entries, 0);
    let m = merge_log(log, prev, entries);
    assert(prev + d <= log.len());
    if d < entries.len() {
        assert forall|i: int| 0 <= i < prev + d && i < log.len() implies #[trigger] m[i] == log[i]
            by {
            assert(m[i] == log.take(prev + d)[i]);
        }
        assert forall|i: int| prev + d <= i < m.len() && d < entries.len() implies #[trigger] m[i]
            == entries[i - prev] by {
            assert(m[i] == entries.skip(d)[i - (prev + d)]);
        }
    }
}

/// Delivering the same entries twice changes nothing the second time:
/// after one merge, a second merge with the same predecessor and the
/// same entries returns the log unchanged.
pub proof fn lemma_merge_idempotent(log: Seq<LogEntry>, prev: int, entries: Seq<LogEntry>)
    requires
        log_wf(log),
        0 <= prev <= log.len(),
        entries_well_formed(prev as u64, entries),
        prev == prev as u64 as int,
    ensures
        merge_log(merge_log(log, prev, entries), prev, entries) == merge_log(log, prev, entries),
{
    let d = divergence_from(log, prev, entries, 0);
    let m = merge_log(log, prev, entries);
    lemma_divergence_bounds(log, prev, entries, 0);
    assert(prev + d <= log.len());
    if d >= entries.len() {
        lemma_divergence_value(log, prev, entries, entries.len() as int);
    } else {
        assert(m.len() == prev + entries.len());
        assert forall|j: int| 0 <= j < entries.len() implies #[trigger] agrees_at(
            m,
            prev,
            entries,
            j,
        ) by {
            if j < d {
                assert(agrees_at(log, prev, entries, j));
                assert(m[prev + j] == log.take(prev + d)[prev + j]);
                assert(m[prev + j] == log[prev + j]);
            } else {
                assert(m[prev + j] == entries.skip(d)[prev + j - (prev + d)]);
                assert(m[prev + j] == entries[j]);
            }
        }
        lemma_divergence_value(m, prev, entries, entries.len() as int);
    }
}

/// A merge whose predecessor index is at or past the commit point never
/// shortens the log below that point.
pub proof fn lemma_merge_commit_bound(
    log: Seq<LogEntry>,
    prev: int,
    entries: Seq<LogEntry>,
    commit: u64,
)
    requires
        log_wf(log),
        0 <= prev <= log.len(),
        entries_well_formed(prev as u64, entries),
        prev == prev as u64 as int,
        commit as int <= log.len(),
        commit as int <= prev,
    ensures
        commit as int <= merge_log(log, prev, entries).len(),
        commit <= last_index_of(merge_log(log, prev, entries)),
{
    lemma_merge_wf(log, prev, entries);
    lemma_last_index_is_len(merge_log(log, prev, entries));
}

} // verus!
