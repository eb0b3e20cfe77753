//! What the event log promises across power losses and reboots.
use crate::bytes;
use crate::crash_log;
use crate::crash_log::{EntryView, RingState, WriteView};
use crate::text;
use vstd::prelude::*;
use vstd::utf8::*;

verus! {

/// What storage holds: values under keys.
pub type Disk = Map<Seq<char>, Seq<u8>>;

/// The value under a key, if there is one.
pub open spec fn value_at(disk: Disk, key: Seq<char>) -> Option<Seq<u8>> {
    if disk.contains_key(key) {
        Some(disk[key])
    } else {
        None
    }
}

/// The key of a slot.
pub open spec fn numbered_key(n: nat) -> Seq<char> {
    seq!['l'] + text::decimal(n)
}

/// What the 64 slots hold.
pub open spec fn slots_of(disk: Disk) -> Seq<Option<Seq<u8>>> {
    Seq::new(64, |n: int| value_at(disk, numbered_key(n as nat)))
}

/// The stored number of the next entry.
pub open spec fn head_of(disk: Disk) -> nat {
    crash_log::stored_number(value_at(disk, crash_log::head_key()), 8)
}

/// Storage after some writes.
pub open spec fn written(disk: Disk, writes: Seq<WriteView>) -> Disk
    decreases writes.len(),
{
    if writes.len() == 0 {
        disk
    } else {
        written(disk, writes.drop_last()).insert(writes.last().key, writes.last().blob)
    }
}

/// Whether every stored entry is numbered below the stored next number.
pub open spec fn consistent(disk: Disk) -> bool {
    forall|n: int|
        #![trigger slots_of(disk)[n]]
        0 <= n < 64 ==> match crash_log::entry_in(slots_of(disk)[n]) {
            Some(entry) => entry.seq < head_of(disk),
            None => true,
        }
}

proof fn lemma_decimal_is_digits(n: nat)
    ensures
        text::decimal(n).len() > 0,
        '0' <= text::decimal(n)[0] <= '9',
    decreases n,
{
    if n >= 10 {
        lemma_decimal_is_digits(n / 10);
    }
}

proof fn lemma_decimal_is_injective(a: nat, b: nat)
    requires
        text::decimal(a) == text::decimal(b),
    ensures
        a == b,
    decreases a,
{
    let x = text::decimal(a);
    let y = text::decimal(b);
    assert(x.last() == y.last());
    if a >= 10 {
        lemma_decimal_is_digits(a / 10);
    }
    if b >= 10 {
        lemma_decimal_is_digits(b / 10);
    }
    if a >= 10 && b >= 10 {
        assert(x.drop_last() =~= text::decimal(a / 10));
        assert(y.drop_last() =~= text::decimal(b / 10));
        lemma_decimal_is_injective(a / 10, b / 10);
        assert(text::digit(a % 10) == text::digit(b % 10));
    }
}

proof fn lemma_keys_differ(n: nat, m: nat)
    ensures
        numbered_key(n) != crash_log::head_key(),
        n != m ==> numbered_key(n) != numbered_key(m),
{
    reveal_strlit("lseq");
    lemma_decimal_is_digits(n);
    assert(numbered_key(n)[1] == text::decimal(n)[0]);
    assert(crash_log::head_key()[1] == 's');
    if numbered_key(n) == numbered_key(m) {
        assert(numbered_key(n).skip(1) =~= text::decimal(n));
        assert(numbered_key(m).skip(1) =~= text::decimal(m));
        lemma_decimal_is_injective(n, m);
    }
}

/// A stored entry is read back as it was written.
pub proof fn lemma_entry_round_trip(entry: EntryView)
    ensures
        crash_log::entry_in(Some(crash_log::entry_blob(entry))) == Some(entry),
{
    let blob = crash_log::entry_blob(entry);
    reveal_with_fuel(bytes::byte_range, 9);
    bytes::lemma_bytes_round_trip(entry.seq as nat, 8);
    assert(blob.subrange(0, 8) =~= bytes::le_bytes(entry.seq as nat, 8));
    assert(blob.subrange(8, blob.len() as int) =~= encode_utf8(entry.line));
    encode_utf8_valid_utf8(entry.line);
    encode_utf8_decode_utf8(entry.line);
}

proof fn lemma_head_written(disk: Disk, next_seq: u64)
    ensures
        ({
            let w = crash_log::head_write(next_seq);
            let after = disk.insert(w.key, w.blob);
            head_of(after) == next_seq && slots_of(after) == slots_of(disk)
        }),
{
    let w = crash_log::head_write(next_seq);
    let after = disk.insert(w.key, w.blob);
    reveal_with_fuel(bytes::byte_range, 9);
    bytes::lemma_bytes_round_trip(next_seq as nat, 8);
    assert forall|n: int| 0 <= n < 64 implies slots_of(after)[n] == slots_of(disk)[n] by {
        lemma_keys_differ(n as nat, 0);
    }
    assert(slots_of(after) =~= slots_of(disk));
}

proof fn lemma_entry_written(disk: Disk, entry: EntryView)
    ensures
        ({
            let w = crash_log::entry_write(entry);
            let after = disk.insert(w.key, w.blob);
            &&& head_of(after) == head_of(disk)
            &&& crash_log::entry_in(slots_of(after)[(entry.seq % 64) as int]) == Some(entry)
            &&& forall|n: int|
                0 <= n < 64 && n != entry.seq % 64 ==> #[trigger] slots_of(after)[n] == slots_of(
                    disk,
                )[n]
        }),
{
    let w = crash_log::entry_write(entry);
    let after = disk.insert(w.key, w.blob);
    let at = (entry.seq % 64) as int;
    assert(w.key =~= numbered_key(at as nat));
    lemma_keys_differ(at as nat, 0);
    lemma_entry_round_trip(entry);
    assert forall|n: int| 0 <= n < 64 && n != at implies #[trigger] slots_of(after)[n] == slots_of(
        disk,
    )[n] by {
        lemma_keys_differ(n as nat, at as nat);
    }
}

proof fn lemma_pending_is_a_suffix(entries: Seq<EntryView>, next_seq: u64, flushed_seq: u64) -> (j:
    int)
    requires
        entries.len() <= next_seq,
        forall|i: int|
            0 <= i < entries.len() ==> (#[trigger] entries[i]).seq == next_seq - entries.len() + i,
    ensures
        0 <= j <= entries.len(),
        crash_log::pending(entries, flushed_seq) == entries.skip(j),
        forall|i: int| 0 <= i < j ==> (#[trigger] entries[i]).seq < flushed_seq,
        forall|i: int| j <= i < entries.len() ==> (#[trigger] entries[i]).seq >= flushed_seq,
    decreases entries.len(),
{
    if entries.len() == 0 {
        assert(entries.skip(0) =~= crash_log::pending(entries, flushed_seq));
        0
    } else {
        let shorter = entries.drop_last();
        assert forall|i: int| 0 <= i < shorter.len() implies (#[trigger] shorter[i]).seq == (
        next_seq - 1) - shorter.len() + i by {
            assert(shorter[i] == entries[i]);
        }
        assert(entries[entries.len() - 1].seq == next_seq - 1);
        let j = lemma_pending_is_a_suffix(shorter, (next_seq - 1) as u64, flushed_seq);
        assert(forall|i: int| 0 <= i < shorter.len() ==> #[trigger] entries[i] == shorter[i]);
        if entries.last().seq >= flushed_seq {
            assert(shorter.skip(j).push(entries.last()) =~= entries.skip(j));
            j
        } else {
            if j < shorter.len() {
                assert(shorter[shorter.len() - 1].seq >= flushed_seq);
            }
            assert(shorter.skip(j) =~= entries.skip(entries.len() as int));
            entries.len() as int
        }
    }
}

/// Wherever a flush is cut off, by a power loss or a failed write, the stored next number stays
/// above every stored entry. So the next boot reuses no number that is in storage.
pub proof fn lemma_power_loss_is_harmless(disk: Disk, ring: RingState, k: int)
    requires
        ring.wf(),
        consistent(disk),
        head_of(disk) <= ring.next_seq,
        0 <= k <= crash_log::flush_writes(ring.list(), ring.flushed_seq, ring.next_seq).len(),
    ensures
        ({
            let writes = crash_log::flush_writes(ring.list(), ring.flushed_seq, ring.next_seq);
            let after = written(disk, writes.take(k));
            consistent(after) && head_of(after) <= ring.next_seq
        }),
    decreases k,
{
    let writes = crash_log::flush_writes(ring.list(), ring.flushed_seq, ring.next_seq);
    let before = written(disk, writes.take(k - 1));
    let after = written(disk, writes.take(k));
    if k == 0 {
        assert(writes.take(0) =~= seq![]);
    } else {
        lemma_power_loss_is_harmless(disk, ring, k - 1);
        assert(writes.take(k).drop_last() =~= writes.take(k - 1));
        assert(writes.take(k).last() == writes[k - 1]);
        lemma_head_after_prefix(disk, ring, k);
        if k == 1 {
            lemma_head_written(before, ring.next_seq);
        } else {
            let j = lemma_pending_is_a_suffix(ring.list(), ring.next_seq, ring.flushed_seq);
            let entry = crash_log::pending(ring.list(), ring.flushed_seq)[k - 2];
            assert(entry == ring.list()[j + k - 2]);
            assert(writes[k - 1] == crash_log::entry_write(entry));
            lemma_entry_written(before, entry);
            assert forall|n: int|
                #![trigger slots_of(after)[n]]
                0 <= n < 64 implies match crash_log::entry_in(slots_of(after)[n]) {
                Some(e) => e.seq < head_of(after),
                None => true,
            } by {
                if n != entry.seq % 64 {
                    assert(slots_of(after)[n] == slots_of(before)[n]);
                }
            }
        }
    }
}

/// From its first write on, a flush has stored the next number.
proof fn lemma_head_after_prefix(disk: Disk, ring: RingState, k: int)
    requires
        1 <= k <= crash_log::flush_writes(ring.list(), ring.flushed_seq, ring.next_seq).len(),
    ensures
        head_of(
            written(
                disk,
                crash_log::flush_writes(ring.list(), ring.flushed_seq, ring.next_seq).take(k),
            ),
        ) == ring.next_seq,
    decreases k,
{
    let writes = crash_log::flush_writes(ring.list(), ring.flushed_seq, ring.next_seq);
    let before = written(disk, writes.take(k - 1));
    assert(writes.take(k).drop_last() =~= writes.take(k - 1));
    assert(writes.take(k).last() == writes[k - 1]);
    if k == 1 {
        lemma_head_written(before, ring.next_seq);
    } else {
        lemma_head_after_prefix(disk, ring, k - 1);
        let entry = crash_log::pending(ring.list(), ring.flushed_seq)[k - 2];
        assert(writes[k - 1] == crash_log::entry_write(entry));
        lemma_entry_written(before, entry);
    }
}

/// Whether storage and memory fit together: the entries in memory below `mark` are stored, and
/// everything stored is below `mark`.
pub open spec fn in_step(disk: Disk, ring: RingState, mark: int) -> bool {
    &&& ring.flushed_seq <= mark <= ring.next_seq
    &&& forall|i: int|
        0 <= i < ring.list().len() && (#[trigger] ring.list()[i]).seq < mark
            ==> crash_log::entry_in(slots_of(disk)[(ring.list()[i].seq % 64) as int]) == Some(
            ring.list()[i],
        )
    &&& forall|n: int|
        #![trigger slots_of(disk)[n]]
        0 <= n < 64 ==> match crash_log::entry_in(slots_of(disk)[n]) {
            Some(entry) => entry.seq < mark,
            None => true,
        }
}

/// After a boot, storage and memory fit together.
pub proof fn lemma_boot_is_in_step(disk: Disk, ring: RingState)
    requires
        consistent(disk),
        ring.list() == Seq::<EntryView>::empty(),
        ring.next_seq == head_of(disk),
        ring.flushed_seq == head_of(disk),
    ensures
        in_step(disk, ring, head_of(disk) as int),
{
}

/// A new entry leaves storage and memory fitting together.
pub proof fn lemma_record_keeps_step(disk: Disk, before: RingState, after: RingState, mark: int)
    requires
        before.wf(),
        in_step(disk, before, mark),
        after.next_seq == before.next_seq + 1,
        after.flushed_seq == before.flushed_seq,
        exists|line: Seq<char>|
            after.list() == #[trigger] crash_log::kept_entries(
                before.list(),
                (EntryView { seq: before.next_seq, line }),
            ),
    ensures
        in_step(disk, after, mark),
{
    let line = choose|line: Seq<char>|
        after.list() == #[trigger] crash_log::kept_entries(
            before.list(),
            (EntryView { seq: before.next_seq, line }),
        );
    let all = before.list().push(EntryView { seq: before.next_seq, line });
    let dropped = if all.len() > 64 {
        all.len() - 64
    } else {
        0
    };
    assert forall|i: int|
        0 <= i < after.list().len() && (#[trigger] after.list()[i]).seq
            < mark implies crash_log::entry_in(
        slots_of(disk)[(after.list()[i].seq % 64) as int],
    ) == Some(after.list()[i]) by {
        assert(after.list()[i] == all[i + dropped]);
        assert(all[i + dropped] == before.list()[i + dropped]);
    }
}

/// How far storage has got after `k` writes of a flush.
pub open spec fn mark_after(ring: RingState, mark: int, k: int) -> int {
    let waiting = crash_log::pending(ring.list(), ring.flushed_seq);
    if k >= 2 && waiting[k - 2].seq + 1 > mark {
        waiting[k - 2].seq + 1
    } else {
        mark
    }
}

/// Every write of a flush leaves storage and memory fitting together.
pub proof fn lemma_flush_keeps_step(disk: Disk, ring: RingState, mark: int, k: int)
    requires
        ring.wf(),
        in_step(disk, ring, mark),
        0 <= k <= crash_log::flush_writes(ring.list(), ring.flushed_seq, ring.next_seq).len(),
    ensures
        in_step(
            written(
                disk,
                crash_log::flush_writes(ring.list(), ring.flushed_seq, ring.next_seq).take(k),
            ),
            ring,
            mark_after(ring, mark, k),
        ),
    decreases k,
{
    let writes = crash_log::flush_writes(ring.list(), ring.flushed_seq, ring.next_seq);
    let before = written(disk, writes.take(k - 1));
    let after = written(disk, writes.take(k));
    if k == 0 {
        assert(writes.take(0) =~= seq![]);
    } else {
        lemma_flush_keeps_step(disk, ring, mark, k - 1);
        assert(writes.take(k).drop_last() =~= writes.take(k - 1));
        assert(writes.take(k).last() == writes[k - 1]);
        if k == 1 {
            lemma_head_written(before, ring.next_seq);
        } else {
            let list = ring.list();
            let waiting = crash_log::pending(list, ring.flushed_seq);
            let j = lemma_pending_is_a_suffix(list, ring.next_seq, ring.flushed_seq);
            let at = j + k - 2;
            let entry = waiting[k - 2];
            assert(entry == list[at]);
            assert(k >= 3 ==> waiting[k - 3] == list[at - 1]);
            assert(writes[k - 1] == crash_log::entry_write(entry));
            let old_mark = mark_after(ring, mark, k - 1);
            assert forall|i: int| 0 <= i < at implies (#[trigger] list[i]).seq < old_mark by {
                if i < j {
                    assert(list[i].seq < ring.flushed_seq);
                } else {
                    assert(k >= 3);
                    assert(list[i].seq <= list[at - 1].seq);
                }
            }
            lemma_entry_keeps_step(before, ring, old_mark, at);
        }
    }
}

proof fn lemma_entry_keeps_step(disk: Disk, ring: RingState, mark: int, at: int)
    requires
        ring.wf(),
        in_step(disk, ring, mark),
        0 <= at < ring.list().len(),
        forall|i: int| 0 <= i < at ==> (#[trigger] ring.list()[i]).seq < mark,
    ensures
        ({
            let entry = ring.list()[at];
            let w = crash_log::entry_write(entry);
            in_step(
                disk.insert(w.key, w.blob),
                ring,
                if entry.seq + 1 > mark {
                    entry.seq + 1
                } else {
                    mark
                },
            )
        }),
{
    let list = ring.list();
    let entry = list[at];
    let w = crash_log::entry_write(entry);
    let after = disk.insert(w.key, w.blob);
    let new_mark = if entry.seq + 1 > mark {
        entry.seq + 1
    } else {
        mark
    };
    lemma_entry_written(disk, entry);
    assert forall|i: int|
        0 <= i < list.len() && (#[trigger] list[i]).seq < new_mark implies crash_log::entry_in(
        slots_of(after)[(list[i].seq % 64) as int],
    ) == Some(list[i]) by {
        if i != at {
            assert(list[i].seq % 64 != entry.seq % 64);
            if i > at {
                assert(list[i].seq > entry.seq);
            }
            assert(list[i].seq < mark);
        }
    }
    assert forall|n: int|
        #![trigger slots_of(after)[n]]
        0 <= n < 64 implies match crash_log::entry_in(slots_of(after)[n]) {
        Some(e) => e.seq < new_mark,
        None => true,
    } by {
        if n != entry.seq % 64 {
            assert(slots_of(after)[n] == slots_of(disk)[n]);
        }
    }
}

/// After a complete flush everything in memory is stored, as the log then notes.
pub proof fn lemma_complete_flush(disk: Disk, ring: RingState, mark: int, after: RingState)
    requires
        ring.wf(),
        in_step(disk, ring, mark),
        crash_log::pending(ring.list(), ring.flushed_seq).len() > 0,
        after.list() == ring.list(),
        after.next_seq == ring.next_seq,
        after.flushed_seq == ring.next_seq,
    ensures
        in_step(
            written(
                disk,
                crash_log::flush_writes(ring.list(), ring.flushed_seq, ring.next_seq),
            ),
            after,
            ring.next_seq as int,
        ),
{
    let writes = crash_log::flush_writes(ring.list(), ring.flushed_seq, ring.next_seq);
    let n = writes.len() as int;
    lemma_flush_keeps_step(disk, ring, mark, n);
    assert(writes.take(n) =~= writes);
    let j = lemma_pending_is_a_suffix(ring.list(), ring.next_seq, ring.flushed_seq);
    let waiting = crash_log::pending(ring.list(), ring.flushed_seq);
    assert(waiting[n - 2] == ring.list()[ring.list().len() - 1]);
}

/// What can be seen of the log: the stored entries and the newer ones in memory.
pub open spec fn visible(disk: Disk, ring: RingState) -> Seq<EntryView> {
    let stored = crash_log::sorted(crash_log::entries_in(slots_of(disk)));
    crash_log::sorted(stored + crash_log::newer_than_stored(ring.list(), stored))
}

/// As long as storage and memory fit together, every entry in memory can be seen.
pub proof fn lemma_nothing_is_hidden(disk: Disk, ring: RingState, mark: int, i: int)
    requires
        in_step(disk, ring, mark),
        0 <= i < ring.list().len(),
    ensures
        visible(disk, ring).contains(ring.list()[i]),
{
    let found = crash_log::entries_in(slots_of(disk));
    let stored = crash_log::sorted(found);
    let entry = ring.list()[i];
    let newer = crash_log::newer_than_stored(ring.list(), stored);
    lemma_sorted_has_the_same(stored + newer, entry);
    lemma_sorted_has_the_same(found, entry);
    if entry.seq < mark {
        lemma_found_in_slot(slots_of(disk), (entry.seq % 64) as int);
        assert(stored.contains(entry));
        let at = choose|at: int| 0 <= at < stored.len() && stored[at] == entry;
        assert((stored + newer)[at] == entry);
    } else {
        if stored.len() > 0 {
            let last = stored.last();
            assert(stored[stored.len() - 1] == last);
            lemma_sorted_has_the_same(found, last);
            lemma_found_comes_from_slot(slots_of(disk), last);
            let n = choose|n: int|
                0 <= n < slots_of(disk).len() && crash_log::entry_in(
                    #[trigger] slots_of(disk)[n],
                ) == Some(last);
            assert(last.seq < mark);
        }
        lemma_newer_are_kept(ring.list(), stored, i);
        let at = choose|at: int| 0 <= at < newer.len() && newer[at] == entry;
        assert((stored + newer)[stored.len() + at] == entry);
    }
}

proof fn lemma_newer_are_kept(ram: Seq<EntryView>, stored: Seq<EntryView>, i: int)
    requires
        0 <= i < ram.len(),
        stored.len() == 0 || ram[i].seq > stored.last().seq,
    ensures
        crash_log::newer_than_stored(ram, stored).contains(ram[i]),
    decreases ram.len(),
{
    let front = crash_log::newer_than_stored(ram.drop_last(), stored);
    let all = crash_log::newer_than_stored(ram, stored);
    if i == ram.len() - 1 {
        assert(all[all.len() - 1] == ram[i]);
    } else {
        assert(ram.drop_last()[i] == ram[i]);
        lemma_newer_are_kept(ram.drop_last(), stored, i);
        let at = choose|at: int| 0 <= at < front.len() && front[at] == ram[i];
        assert(all[at] == ram[i]);
    }
}

proof fn lemma_found_in_slot(slots: Seq<Option<Seq<u8>>>, n: int)
    requires
        0 <= n < slots.len(),
        crash_log::entry_in(slots[n]) is Some,
    ensures
        crash_log::entries_in(slots).contains(crash_log::entry_in(slots[n])->0),
    decreases slots.len(),
{
    let front = crash_log::entries_in(slots.drop_last());
    let all = crash_log::entries_in(slots);
    let entry = crash_log::entry_in(slots[n])->0;
    if n == slots.len() - 1 {
        assert(all[all.len() - 1] == entry);
    } else {
        assert(slots.drop_last()[n] == slots[n]);
        lemma_found_in_slot(slots.drop_last(), n);
        let at = choose|at: int| 0 <= at < front.len() && front[at] == entry;
        assert(all[at] == entry);
    }
}

proof fn lemma_found_comes_from_slot(slots: Seq<Option<Seq<u8>>>, entry: EntryView)
    requires
        crash_log::entries_in(slots).contains(entry),
    ensures
        exists|n: int|
            0 <= n < slots.len() && crash_log::entry_in(#[trigger] slots[n]) == Some(entry),
    decreases slots.len(),
{
    let all = crash_log::entries_in(slots);
    let at = choose|at: int| 0 <= at < all.len() && all[at] == entry;
    if slots.len() > 0 {
        let shorter = slots.drop_last();
        let front = crash_log::entries_in(shorter);
        if at < front.len() {
            assert(front[at] == entry);
            lemma_found_comes_from_slot(shorter, entry);
            let n = choose|n: int|
                0 <= n < shorter.len() && crash_log::entry_in(#[trigger] shorter[n]) == Some(entry);
            assert(slots[n] == shorter[n]);
        } else {
            assert(crash_log::entry_in(slots[slots.len() - 1]) == Some(entry));
        }
    }
}

proof fn lemma_inserted_has_the_same(list: Seq<EntryView>, entry: EntryView, x: EntryView)
    ensures
        crash_log::inserted(list, entry).contains(x) <==> (list.contains(x) || x == entry),
    decreases list.len(),
{
    let result = crash_log::inserted(list, entry);
    if list.len() == 0 || list.last().seq <= entry.seq {
        assert(result[list.len() as int] == entry);
        if list.contains(x) {
            let at = choose|at: int| 0 <= at < list.len() && list[at] == x;
            assert(result[at] == x);
        }
        if result.contains(x) {
            let at = choose|at: int| 0 <= at < result.len() && result[at] == x;
            if at < list.len() {
                assert(list[at] == x);
            }
        }
    } else {
        let shorter = list.drop_last();
        let front = crash_log::inserted(shorter, entry);
        lemma_inserted_has_the_same(shorter, entry, x);
        assert(result == front.push(list.last()));
        assert(result[front.len() as int] == list.last());
        if front.contains(x) {
            let at = choose|at: int| 0 <= at < front.len() && front[at] == x;
            assert(result[at] == x);
        }
        if shorter.contains(x) {
            let at = choose|at: int| 0 <= at < shorter.len() && shorter[at] == x;
            assert(list[at] == x);
        }
        if list.contains(x) {
            let at = choose|at: int| 0 <= at < list.len() && list[at] == x;
            if at < shorter.len() {
                assert(shorter[at] == x);
            }
        }
        if result.contains(x) {
            let at = choose|at: int| 0 <= at < result.len() && result[at] == x;
            if at < front.len() {
                assert(front[at] == x);
            } else {
                assert(list[list.len() - 1] == x);
            }
        }
    }
}

/// Sorting keeps every entry and adds none.
pub proof fn lemma_sorted_has_the_same(list: Seq<EntryView>, x: EntryView)
    ensures
        crash_log::sorted(list).contains(x) <==> list.contains(x),
    decreases list.len(),
{
    if list.len() > 0 {
        let shorter = list.drop_last();
        lemma_sorted_has_the_same(shorter, x);
        lemma_inserted_has_the_same(crash_log::sorted(shorter), list.last(), x);
        if shorter.contains(x) {
            let at = choose|at: int| 0 <= at < shorter.len() && shorter[at] == x;
            assert(list[at] == x);
        }
        if list.contains(x) {
            let at = choose|at: int| 0 <= at < list.len() && list[at] == x;
            if at < shorter.len() {
                assert(shorter[at] == x);
            }
        }
        assert(list[list.len() - 1] == list.last());
    }
}

/// The sorted view lists its entries by number.
pub proof fn lemma_sorted_is_ordered(list: Seq<EntryView>)
    ensures
        crash_log::sorted(list).len() == list.len(),
        forall|i: int, j: int|
            0 <= i <= j < list.len() ==> (#[trigger] crash_log::sorted(list)[i]).seq <= (
            #[trigger] crash_log::sorted(list)[j]).seq,
    decreases list.len(),
{
    if list.len() > 0 {
        lemma_sorted_is_ordered(list.drop_last());
        lemma_inserted_is_ordered(crash_log::sorted(list.drop_last()), list.last());
    }
}

proof fn lemma_inserted_is_ordered(list: Seq<EntryView>, entry: EntryView)
    requires
        forall|i: int, j: int|
            0 <= i <= j < list.len() ==> (#[trigger] list[i]).seq <= (#[trigger] list[j]).seq,
    ensures
        crash_log::inserted(list, entry).len() == list.len() + 1,
        forall|i: int, j: int|
            0 <= i <= j < crash_log::inserted(list, entry).len() ==> (
            #[trigger] crash_log::inserted(list, entry)[i]).seq <= (#[trigger] crash_log::inserted(
                list,
                entry,
            )[j]).seq,
    decreases list.len(),
{
    if list.len() > 0 && list.last().seq > entry.seq {
        let shorter = list.drop_last();
        assert forall|i: int, j: int| 0 <= i <= j < shorter.len() implies (
        #[trigger] shorter[i]).seq <= (#[trigger] shorter[j]).seq by {
            assert(shorter[i] == list[i] && shorter[j] == list[j]);
        }
        lemma_inserted_is_ordered(shorter, entry);
        let front = crash_log::inserted(shorter, entry);
        let result = crash_log::inserted(list, entry);
        assert forall|i: int, j: int| 0 <= i <= j < result.len() implies (#[trigger] result[i]).seq
            <= (#[trigger] result[j]).seq by {
            if j == front.len() && i < front.len() {
                lemma_inserted_has_the_same(shorter, entry, front[i]);
                assert(front.contains(front[i]));
                if shorter.contains(front[i]) {
                    let at = choose|at: int| 0 <= at < shorter.len() && shorter[at] == front[i];
                    assert(list[at].seq <= list[list.len() - 1].seq);
                }
            } else if j < front.len() {
                assert(front[i].seq <= front[j].seq);
            }
        }
    }
}

} // verus!
