//! What holds of the stored shots through saves and deletions.
use crate::shot_recorder::{ShotRecordView, ShotSummary};
use crate::shot_store;
use crate::shot_store::{NvsShotStore, Slots, MAX_STORED_SHOTS};
use vstd::prelude::*;

verus! {

/// Whether the numbers of the stored shots rise from the oldest to the newest, and are all below
/// the next number: no two are the same, and none is given again.
pub open spec fn numbers_rise(store: NvsShotStore, slots: Slots) -> bool {
    let shots = store.shots(slots);
    &&& shot_store::ascending(shots)
    &&& forall|i: int| 0 <= i < shots.len() ==> (#[trigger] shots[i]).id < store.next_id
}

/// Whether no two of some shots have the same number.
pub open spec fn differing(shots: Seq<ShotRecordView>) -> bool {
    forall|i: int, j: int| 0 <= i < j < shots.len() ==> (#[trigger] shots[i]).id != (
    #[trigger] shots[j]).id
}

/// Whether no two stored shots have the same number.
pub open spec fn numbers_differ(store: NvsShotStore, slots: Slots) -> bool {
    differing(store.shots(slots))
}

/// The number that is given `n` shots after `first`. Behind the largest number they start over
/// at 1.
#[verifier::opaque]
pub open spec fn id_at(first: u32, n: int) -> u32 {
    ((first - 1 + n) % 0xffff_ffff + 1) as u32
}

/// The ring after a shot was given its number, whether it was written or not.
pub open spec fn numbered_ring(store: NvsShotStore) -> NvsShotStore {
    NvsShotStore { next_id: shot_store::id_after(store.next_id), ..store }
}

/// The ring after a shot was saved.
pub open spec fn ring_after_save(store: NvsShotStore) -> NvsShotStore {
    numbered_ring(store).advanced()
}

/// The slots after a shot was saved.
pub open spec fn slots_after_save(
    store: NvsShotStore,
    slots: Slots,
    shot: ShotRecordView,
) -> Slots {
    slots.update(
        store.head as int,
        Some(shot_store::encoded((ShotRecordView { id: store.next_id, ..shot }))),
    )
}

/// The ring and the slots after some shots were saved, one after the other.
pub open spec fn after_saves(
    store: NvsShotStore,
    slots: Slots,
    given: Seq<ShotRecordView>,
) -> (NvsShotStore, Slots)
    decreases given.len(),
{
    if given.len() == 0 {
        (store, slots)
    } else {
        let (ring, held) = after_saves(store, slots, given.drop_last());
        (ring_after_save(ring), slots_after_save(ring, held, given.last()))
    }
}

/// The slots after one was erased.
pub open spec fn slots_after_erasing(slots: Slots, slot: int) -> Slots {
    slots.update(slot, Some(shot_store::erased_slot()))
}

/// How many of some shots are kept: at most ten.
pub open spec fn kept_count(n: nat) -> nat {
    if n < MAX_STORED_SHOTS {
        n
    } else {
        MAX_STORED_SHOTS as nat
    }
}

/// The newest of some shots, as storing keeps them. The first shot of all has the number `first`,
/// and each other one the number that is given next.
pub open spec fn newest_kept(first: u32, given: Seq<ShotRecordView>) -> Seq<ShotRecordView> {
    let gone = given.len() - kept_count(given.len());
    Seq::new(
        kept_count(given.len()),
        |i: int|
            shot_store::kept_shot(
                (ShotRecordView { id: id_at(first, gone + i), ..given[gone + i] }),
            ),
    )
}

proof fn lemma_at_most_one_shot_each(slots: Slots, order: Seq<int>)
    ensures
        shot_store::shots_in(slots, order).len() <= order.len(),
    decreases order.len(),
{
    if order.len() > 0 {
        lemma_at_most_one_shot_each(slots, order.drop_last());
    }
}

/// The stored shots are those that stay at the next save, behind at most one that goes.
proof fn lemma_staying_shots(store: NvsShotStore, slots: Slots) -> (gone: nat)
    requires
        store.wf(),
    ensures
        gone <= store.shots(slots).len(),
        gone <= 1,
        shot_store::shots_in(slots, store.staying_order()) == store.shots(slots).skip(gone as int),
        store.count < MAX_STORED_SHOTS ==> gone == 0,
        store.count == MAX_STORED_SHOTS && store.shots(slots).len() == MAX_STORED_SHOTS ==> gone == 1,
{
    let order = store.order();
    let all = store.shots(slots);
    if store.count < MAX_STORED_SHOTS {
        assert(all.skip(0) =~= all);
        0
    } else {
        let first = order.take(1);
        let rest = order.skip(1);
        assert(first + rest =~= order);
        shot_store::lemma_shots_of_joined_orders(slots, first, rest);
        lemma_at_most_one_shot_each(slots, first);
        lemma_at_most_one_shot_each(slots, rest);
        let gone = shot_store::shots_in(slots, first).len();
        assert(all.skip(gone as int) =~= shot_store::shots_in(slots, rest));
        gone
    }
}

/// A ring without shots has no numbers to keep apart.
pub proof fn lemma_empty_ring_rises(store: NvsShotStore, slots: Slots)
    requires
        store.wf(),
        store.count == 0,
    ensures
        store.shots(slots) == Seq::<ShotRecordView>::empty(),
        numbers_rise(store, slots),
{
    assert(store.order() =~= seq![]);
}

/// Saving a shot keeps the numbers rising, and so does a save whose write failed, as long as
/// there is a next number.
pub proof fn lemma_save_keeps_numbers_rising(
    store: NvsShotStore,
    slots: Slots,
    shot: ShotRecordView,
)
    requires
        store.wf(),
        slots.len() == MAX_STORED_SHOTS,
        store.next_id < u32::MAX,
        numbers_rise(store, slots),
    ensures
        numbers_rise(numbered_ring(store), slots),
        ring_after_save(store).wf(),
        numbers_rise(ring_after_save(store), slots_after_save(store, slots, shot)),
{
    let all = store.shots(slots);
    let gone = lemma_staying_shots(store, slots);
    shot_store::lemma_save_adds_shot(store, slots, shot);
    let staying = all.skip(gone as int);
    let after = slots_after_save(store, slots, shot);
    let more = ring_after_save(store).shots(after);
    assert(ring_after_save(store).order() == store.advanced().order());
    assert(more.len() == staying.len() + 1);
    assert(more[staying.len() as int].id == store.next_id);
    assert forall|i: int| 0 <= i < staying.len() implies (#[trigger] more[i]) == all[i + gone] by {
        assert(more[i] == staying[i]);
    }
    assert forall|i: int, j: int| 0 <= i < j < more.len() implies (#[trigger] more[i]).id < (
    #[trigger] more[j]).id by {
        assert(more[i] == all[i + gone]);
        if j < staying.len() {
            assert(more[j] == all[j + gone]);
        }
    }
    assert(numbered_ring(store).shots(slots) == all);
}

/// The next number is not in use: no stored shot has it.
pub proof fn lemma_next_number_is_free(store: NvsShotStore, slots: Slots)
    requires
        store.wf(),
        numbers_rise(store, slots),
    ensures
        shot_store::first_with_id(store.shots(slots), store.next_id) is None,
{
    lemma_absent(store.shots(slots), store.next_id);
}

/// A shot that was saved while the numbers rise is read back under the number that it was given,
/// as storing keeps it.
pub proof fn lemma_save_is_read_back(store: NvsShotStore, slots: Slots, shot: ShotRecordView)
    requires
        store.wf(),
        slots.len() == MAX_STORED_SHOTS,
        numbers_rise(store, slots),
    ensures
        shot_store::first_with_id(
            ring_after_save(store).shots(slots_after_save(store, slots, shot)),
            store.next_id,
        ) == Some(shot_store::kept_shot((ShotRecordView { id: store.next_id, ..shot }))),
{
    lemma_next_number_is_free(store, slots);
    shot_store::lemma_saved_shot_is_found(store, slots, shot);
    assert(ring_after_save(store).order() == store.advanced().order());
}

/// Rising numbers differ.
pub proof fn lemma_rising_numbers_differ(store: NvsShotStore, slots: Slots)
    requires
        numbers_rise(store, slots),
    ensures
        numbers_differ(store, slots),
{
}

/// Saving a shot under a number that is not in use keeps the numbers different, wherever they
/// started over, and the shot is read back under that number.
pub proof fn lemma_save_keeps_numbers_different(
    store: NvsShotStore,
    slots: Slots,
    shot: ShotRecordView,
)
    requires
        store.wf(),
        slots.len() == MAX_STORED_SHOTS,
        numbers_differ(store, slots),
        shot_store::first_with_id(store.shots(slots), store.next_id) is None,
    ensures
        numbers_differ(ring_after_save(store), slots_after_save(store, slots, shot)),
        shot_store::first_with_id(
            ring_after_save(store).shots(slots_after_save(store, slots, shot)),
            store.next_id,
        ) == Some(shot_store::kept_shot((ShotRecordView { id: store.next_id, ..shot }))),
{
    let all = store.shots(slots);
    let gone = lemma_staying_shots(store, slots);
    let staying = all.skip(gone as int);
    shot_store::lemma_save_adds_shot(store, slots, shot);
    shot_store::lemma_saved_shot_is_found(store, slots, shot);
    assert(ring_after_save(store).order() == store.advanced().order());
    let more = ring_after_save(store).shots(slots_after_save(store, slots, shot));
    lemma_number_is_not_among(all, store.next_id);
    assert forall|i: int, j: int| 0 <= i < j < more.len() implies (#[trigger] more[i]).id != (
    #[trigger] more[j]).id by {
        assert(more[i] == staying[i] && staying[i] == all[i + gone]);
        if j < staying.len() {
            assert(more[j] == staying[j] && staying[j] == all[j + gone]);
        }
    }
}

/// Where no shot with a number is found, none has it.
proof fn lemma_number_is_not_among(shots: Seq<ShotRecordView>, id: u32)
    requires
        shot_store::first_with_id(shots, id) is None,
    ensures
        forall|i: int| 0 <= i < shots.len() ==> (#[trigger] shots[i]).id != id,
    decreases shots.len(),
{
    if shots.len() > 0 {
        let front = shots.drop_last();
        lemma_number_is_not_among(front, id);
        assert forall|i: int| 0 <= i < shots.len() implies (#[trigger] shots[i]).id != id by {
            if i < front.len() {
                assert(shots[i] == front[i]);
            }
        }
    }
}

/// After a row of saves on an empty ring, the newest ten shots are stored (all of them where
/// there are fewer), oldest first, with the numbers that the ring gave them one after the other.
/// No two of these are the same, even where the numbers started over. Empty storage opens as an
/// empty ring whose next number is 1.
pub proof fn lemma_newest_shots_are_stored(
    empty: NvsShotStore,
    slots: Slots,
    given: Seq<ShotRecordView>,
)
    requires
        empty.wf(),
        empty.count == 0,
        slots.len() == MAX_STORED_SHOTS,
    ensures
        ({
            let (store, held) = after_saves(empty, slots, given);
            &&& store.wf()
            &&& held.len() == MAX_STORED_SHOTS
            &&& store.count == kept_count(given.len())
            &&& store.next_id == id_at(empty.next_id, given.len() as int)
            &&& store.shots(held) == newest_kept(empty.next_id, given)
            &&& numbers_differ(store, held)
        }),
        ({
            let opened = shot_store::stored_ring(None, None, None);
            opened.wf() && opened.count == 0 && opened.next_id == 1
        }),
    decreases given.len(),
{
    let first = empty.next_id;
    if given.len() == 0 {
        lemma_empty_ring_rises(empty, slots);
        assert(newest_kept(first, given) =~= seq![]);
    } else {
        let before = given.drop_last();
        lemma_newest_shots_are_stored(empty, slots, before);
        let (ring, held) = after_saves(empty, slots, before);
        let shot = given.last();
        shot_store::lemma_save_adds_shot(ring, held, shot);
        let gone = lemma_staying_shots(ring, held);
        let store = ring_after_save(ring);
        let after = slots_after_save(ring, held, shot);
        assert(store.order() == ring.advanced().order());
        let numbered = ShotRecordView { id: ring.next_id, ..shot };
        assert(store.shots(after) == newest_kept(first, before).skip(gone as int).push(
            shot_store::kept_shot(numbered),
        ));
        lemma_one_more_kept(first, before, shot, gone as int);
        assert(before.push(shot) =~= given);
        lemma_numbers_follow(first, before.len() as int);
    }
    lemma_numbers_follow(first, 0);
    lemma_kept_numbers_differ(first, given);
}

/// The numbers start with the first one, and each is followed by the next.
proof fn lemma_numbers_follow(first: u32, n: int)
    requires
        first >= 1,
        n >= 0,
    ensures
        id_at(first, 0) == first,
        id_at(first, n) >= 1,
        shot_store::id_after(id_at(first, n)) == id_at(first, n + 1),
        first + n <= u32::MAX ==> id_at(first, n) == first + n,
{
    reveal(id_at);
}

/// With one shot more, the oldest of ten goes and the new one comes.
proof fn lemma_one_more_kept(
    first: u32,
    before: Seq<ShotRecordView>,
    shot: ShotRecordView,
    gone: int,
)
    requires
        gone == if before.len() < MAX_STORED_SHOTS {
            0int
        } else {
            1int
        },
    ensures
        newest_kept(first, before).skip(gone).push(
            shot_store::kept_shot(
                (ShotRecordView { id: id_at(first, before.len() as int), ..shot }),
            ),
        ) == newest_kept(first, before.push(shot)),
{
    let numbered = ShotRecordView { id: id_at(first, before.len() as int), ..shot };
    let old = newest_kept(first, before).skip(gone).push(shot_store::kept_shot(numbered));
    let new = newest_kept(first, before.push(shot));
    assert(old.len() == new.len());
    assert forall|i: int| 0 <= i < old.len() implies old[i] == new[i] by {}
    assert(old =~= new);
}

/// Ten numbers that are given one after the other differ.
proof fn lemma_kept_numbers_differ(first: u32, given: Seq<ShotRecordView>)
    requires
        first >= 1,
    ensures
        differing(newest_kept(first, given)),
{
    reveal(id_at);
    let shots = newest_kept(first, given);
    let gone = given.len() - kept_count(given.len());
    assert forall|i: int, j: int| 0 <= i < j < shots.len() implies (#[trigger] shots[i]).id != (
    #[trigger] shots[j]).id by {
        assert(shots[i].id == id_at(first, gone + i));
        assert(shots[j].id == id_at(first, gone + j));
    }
}

/// Until the numbers start over, a row of saves on an empty ring gives rising numbers. The list
/// of summaries then has the newest shot first, and each number is one lower than the one before.
pub proof fn lemma_newest_shots_are_listed_first(
    empty: NvsShotStore,
    slots: Slots,
    given: Seq<ShotRecordView>,
)
    requires
        empty.wf(),
        empty.count == 0,
        slots.len() == MAX_STORED_SHOTS,
        empty.next_id + given.len() <= u32::MAX,
    ensures
        ({
            let (store, held) = after_saves(empty, slots, given);
            let list = shot_store::summaries(store.shots(held)).reverse();
            &&& numbers_rise(store, held)
            &&& store.next_id == empty.next_id + given.len()
            &&& list.len() == kept_count(given.len())
            &&& forall|j: int|
                0 <= j < list.len() ==> (#[trigger] list[j]).id == store.next_id - 1 - j
        }),
{
    lemma_newest_shots_are_stored(empty, slots, given);
    let (store, held) = after_saves(empty, slots, given);
    let shots = newest_kept(empty.next_id, given);
    let gone = given.len() - kept_count(given.len());
    assert forall|i: int| 0 <= i < shots.len() implies (#[trigger] shots[i]).id == empty.next_id
        + gone + i by {
        assert(shots[i].id == id_at(empty.next_id, gone + i));
        lemma_numbers_follow(empty.next_id, gone + i);
    }
    lemma_numbers_follow(empty.next_id, given.len() as int);
}

/// No shot with a number is found where none has it.
proof fn lemma_absent(shots: Seq<ShotRecordView>, id: u32)
    requires
        forall|i: int| 0 <= i < shots.len() ==> (#[trigger] shots[i]).id != id,
    ensures
        shot_store::first_with_id(shots, id) is None,
    decreases shots.len(),
{
    if shots.len() > 0 {
        let front = shots.drop_last();
        assert forall|i: int| 0 <= i < front.len() implies (#[trigger] front[i]).id != id by {
            assert(shots[i].id != id);
        }
        lemma_absent(front, id);
    }
}

/// A shot with another number can be left out of the search.
proof fn lemma_search_passes_over(
    older: Seq<ShotRecordView>,
    shot: ShotRecordView,
    newer: Seq<ShotRecordView>,
    id: u32,
)
    requires
        shot.id != id,
    ensures
        shot_store::first_with_id(older.push(shot) + newer, id) == shot_store::first_with_id(
            older + newer,
            id,
        ),
    decreases newer.len(),
{
    if newer.len() == 0 {
        assert(older.push(shot) + newer =~= older.push(shot));
        assert(older.push(shot).drop_last() =~= older);
        assert(older + newer =~= older);
    } else {
        let front = newer.drop_last();
        lemma_search_passes_over(older, shot, front, id);
        assert((older.push(shot) + newer).drop_last() =~= older.push(shot) + front);
        assert((older + newer).drop_last() =~= older + front);
    }
}

/// What is left where everything is kept.
proof fn lemma_nothing_is_left_out<A>(s: Seq<A>, pred: spec_fn(A) -> bool)
    requires
        forall|i: int| 0 <= i < s.len() ==> pred(#[trigger] s[i]),
    ensures
        s.filter(pred) == s,
    decreases s.len(),
{
    reveal(Seq::filter);
    if s.len() > 0 {
        let front = s.drop_last();
        assert forall|i: int| 0 <= i < front.len() implies pred(#[trigger] front[i]) by {
            assert(pred(s[i]));
        }
        lemma_nothing_is_left_out(front, pred);
        assert(pred(s[s.len() - 1]));
        assert(front.push(s.last()) =~= s);
    }
}

/// What is left where one thing in the middle is left out.
proof fn lemma_one_is_left_out<A>(a: Seq<A>, x: A, b: Seq<A>, pred: spec_fn(A) -> bool)
    requires
        forall|i: int| 0 <= i < a.len() ==> pred(#[trigger] a[i]),
        forall|i: int| 0 <= i < b.len() ==> pred(#[trigger] b[i]),
        !pred(x),
    ensures
        (a.push(x) + b).filter(pred) == a + b,
{
    reveal(Seq::filter);
    Seq::filter_distributes_over_add(a.push(x), b, pred);
    lemma_nothing_is_left_out(a, pred);
    lemma_nothing_is_left_out(b, pred);
    assert(a.push(x).drop_last() =~= a);
}

/// Some shots without those that have a number.
pub open spec fn without(shots: Seq<ShotRecordView>, id: u32) -> Seq<ShotRecordView> {
    shots.filter(|s: ShotRecordView| s.id != id)
}

/// A list of summaries without those that have a number.
pub open spec fn list_without(list: Seq<ShotSummary>, id: u32) -> Seq<ShotSummary> {
    list.filter(|s: ShotSummary| s.id != id)
}

/// What holds of the others where one shot is left out.
proof fn lemma_numbers_of_the_others(
    older: Seq<ShotRecordView>,
    shot: ShotRecordView,
    newer: Seq<ShotRecordView>,
)
    requires
        differing(older.push(shot) + newer),
    ensures
        forall|j: int| 0 <= j < older.len() ==> (#[trigger] older[j]).id != shot.id,
        forall|j: int| 0 <= j < newer.len() ==> (#[trigger] newer[j]).id != shot.id,
        differing(older + newer),
        shot_store::ascending(older.push(shot) + newer) ==> shot_store::ascending(older + newer),
{
    let before = older.push(shot) + newer;
    let after = older + newer;
    let at = older.len() as int;
    assert(before[at] == shot);
    assert forall|j: int| 0 <= j < older.len() implies (#[trigger] older[j]).id != shot.id by {
        assert(before[j] == older[j]);
        assert(before[j].id != before[at].id);
    }
    assert forall|j: int| 0 <= j < newer.len() implies (#[trigger] newer[j]).id != shot.id by {
        assert(before[at + 1 + j] == newer[j]);
        assert(before[at].id != before[at + 1 + j].id);
    }
    assert forall|a: int, b: int| 0 <= a < b < after.len() implies {
        &&& (#[trigger] after[a]).id != (#[trigger] after[b]).id
        &&& shot_store::ascending(before) ==> after[a].id < after[b].id
    } by {
        let x = if a < at {
            a
        } else {
            a + 1
        };
        let y = if b < at {
            b
        } else {
            b + 1
        };
        assert(after[a] == before[x] && after[b] == before[y]);
        assert(before[x].id != before[y].id);
    }
}

/// What is found where one shot is left out.
proof fn lemma_found_among_the_others(
    older: Seq<ShotRecordView>,
    shot: ShotRecordView,
    newer: Seq<ShotRecordView>,
)
    requires
        differing(older.push(shot) + newer),
    ensures
        shot_store::first_with_id(older + newer, shot.id) is None,
        forall|other: u32|
            other != shot.id ==> #[trigger] shot_store::first_with_id(older + newer, other)
                == shot_store::first_with_id(older.push(shot) + newer, other),
        older + newer == without(older.push(shot) + newer, shot.id),
{
    let after = older + newer;
    lemma_numbers_of_the_others(older, shot, newer);
    assert forall|j: int| 0 <= j < after.len() implies (#[trigger] after[j]).id != shot.id by {
        if j < older.len() {
            assert(after[j] == older[j]);
        } else {
            assert(after[j] == newer[j - older.len()]);
        }
    }
    lemma_absent(after, shot.id);
    assert forall|other: u32| other != shot.id implies #[trigger] shot_store::first_with_id(
        after,
        other,
    ) == shot_store::first_with_id(older.push(shot) + newer, other) by {
        lemma_search_passes_over(older, shot, newer, other);
    }
    lemma_one_is_left_out(older, shot, newer, |s: ShotRecordView| s.id != shot.id);
}

/// Whether no two summaries have the same number.
spec fn differing_list(list: Seq<ShotSummary>) -> bool {
    forall|i: int, j: int| 0 <= i < j < list.len() ==> (#[trigger] list[i]).id != (
    #[trigger] list[j]).id
}

/// A list lists some shots: it holds their summaries, the highest number first.
pub open spec fn lists(list: Seq<ShotSummary>, shots: Seq<ShotRecordView>) -> bool {
    &&& shot_store::newest_first(list)
    &&& list.to_multiset() == shot_store::summaries(shots).to_multiset()
}

/// A list holds what another one with the same contents holds.
proof fn lemma_same_contents(a: Seq<ShotSummary>, b: Seq<ShotSummary>, i: int) -> (j: int)
    requires
        a.to_multiset() == b.to_multiset(),
        0 <= i < a.len(),
    ensures
        0 <= j < b.len(),
        b[j] == a[i],
{
    a.to_multiset_ensures();
    b.to_multiset_ensures();
    assert(a.contains(a[i]));
    assert(a.to_multiset().count(a[i]) > 0);
    assert(b.contains(a[i]));
    choose|j: int| 0 <= j < b.len() && b[j] == a[i]
}

/// A list of different numbers keeps them different, however it is ordered.
proof fn lemma_order_keeps_numbers_different(a: Seq<ShotSummary>, b: Seq<ShotSummary>)
    requires
        a.to_multiset() == b.to_multiset(),
        differing_list(a),
    ensures
        differing_list(b),
{
    assert(a.no_duplicates());
    a.lemma_multiset_has_no_duplicates();
    b.lemma_multiset_has_no_duplicates_conv();
    assert forall|i: int, j: int| 0 <= i < j < b.len() implies (#[trigger] b[i]).id != (
    #[trigger] b[j]).id by {
        let x = lemma_same_contents(b, a, i);
        let y = lemma_same_contents(b, a, j);
        assert(b[i] != b[j]);
        assert(x != y);
        if x < y {
            assert(a[x].id != a[y].id);
        } else {
            assert(a[y].id != a[x].id);
        }
    }
}

/// There is one order, highest number first, of summaries whose numbers differ.
proof fn lemma_one_order(a: Seq<ShotSummary>, b: Seq<ShotSummary>)
    requires
        shot_store::newest_first(a),
        shot_store::newest_first(b),
        a.to_multiset() == b.to_multiset(),
        differing_list(a),
    ensures
        a == b,
    decreases a.len(),
{
    a.to_multiset_ensures();
    b.to_multiset_ensures();
    assert(a.len() == b.len());
    if a.len() == 0 {
        assert(a =~= b);
    } else {
        let n = a.len() - 1;
        let x = lemma_same_contents(b, a, n);
        let y = lemma_same_contents(a, b, n);
        assert(a[x].id >= a[n].id);
        assert(b[y].id >= b[n].id);
        assert(x == n) by {
            if x < n {
                assert(a[x].id != a[n].id);
            }
        }
        assert(a.remove(n) =~= a.drop_last());
        assert(b.remove(n) =~= b.drop_last());
        assert(shot_store::newest_first(a.drop_last())) by {
            assert forall|i: int, j: int| 0 <= i <= j < n implies (
            #[trigger] a.drop_last()[i]).id >= (#[trigger] a.drop_last()[j]).id by {
                assert(a[i].id >= a[j].id);
            }
        }
        assert(shot_store::newest_first(b.drop_last())) by {
            assert forall|i: int, j: int| 0 <= i <= j < n implies (
            #[trigger] b.drop_last()[i]).id >= (#[trigger] b.drop_last()[j]).id by {
                assert(b[i].id >= b[j].id);
            }
        }
        assert(differing_list(a.drop_last())) by {
            assert forall|i: int, j: int| 0 <= i < j < n implies (
            #[trigger] a.drop_last()[i]).id != (#[trigger] a.drop_last()[j]).id by {
                assert(a[i].id != a[j].id);
            }
        }
        lemma_one_order(a.drop_last(), b.drop_last());
        assert(a =~= a.drop_last().push(a[n]));
        assert(b =~= b.drop_last().push(b[n]));
    }
}

/// The list without a shot is the list of the others.
proof fn lemma_list_of_the_others(
    older: Seq<ShotRecordView>,
    shot: ShotRecordView,
    newer: Seq<ShotRecordView>,
    list: Seq<ShotSummary>,
    shorter: Seq<ShotSummary>,
)
    requires
        differing(older.push(shot) + newer),
        lists(list, older.push(shot) + newer),
        lists(shorter, older + newer),
    ensures
        shorter == list_without(list, shot.id),
{
    let before = older.push(shot) + newer;
    let all = shot_store::summaries(before);
    let at = older.len() as int;
    let item = all[at];
    assert(item.id == shot.id) by {
        assert(before[at] == shot);
    }
    assert forall|i: int, j: int| 0 <= i < j < all.len() implies (#[trigger] all[i]).id != (
    #[trigger] all[j]).id by {
        assert(before[i].id != before[j].id);
    }
    lemma_order_keeps_numbers_different(all, list);
    let k = lemma_same_contents(all, list, at);
    let front = list.take(k);
    let back = list.skip(k + 1);
    let rest = front + back;
    assert(list =~= front.push(item) + back);
    let pred = |s: ShotSummary| s.id != shot.id;
    assert forall|j: int| 0 <= j < front.len() implies pred(#[trigger] front[j]) by {
        assert(list[j].id != list[k].id);
    }
    assert forall|j: int| 0 <= j < back.len() implies pred(#[trigger] back[j]) by {
        assert(list[k].id != list[k + 1 + j].id);
    }
    lemma_one_is_left_out(front, item, back, pred);
    assert(list.remove(k) =~= rest);
    assert(all.remove(at) =~= shot_store::summaries(older + newer));
    list.to_multiset_ensures();
    all.to_multiset_ensures();
    assert(rest.to_multiset() == shorter.to_multiset());
    assert forall|i: int, j: int| 0 <= i <= j < rest.len() implies (#[trigger] rest[i]).id >= (
    #[trigger] rest[j]).id by {
        let x = if i < k {
            i
        } else {
            i + 1
        };
        let y = if j < k {
            j
        } else {
            j + 1
        };
        assert(rest[i] == list[x] && rest[j] == list[y]);
    }
    assert forall|i: int, j: int| 0 <= i < j < rest.len() implies (#[trigger] rest[i]).id != (
    #[trigger] rest[j]).id by {
        let x = if i < k {
            i
        } else {
            i + 1
        };
        let y = if j < k {
            j
        } else {
            j + 1
        };
        assert(rest[i] == list[x] && rest[j] == list[y]);
        assert(list[x].id != list[y].id);
    }
    lemma_one_order(rest, shorter);
}

/// Deleting takes away one shot alone. Where no two stored shots share a number, erasing the slot
/// that a deletion names leaves no shot with that number, finds every other shot as before, takes
/// the shot out of the list and nothing else, and keeps the numbers different. Numbers that rise
/// still do.
pub proof fn lemma_deleted_shot_is_gone(store: NvsShotStore, slots: Slots, slot: int, id: u32)
    requires
        store.wf(),
        slots.len() == MAX_STORED_SHOTS,
        numbers_differ(store, slots),
        store.holds(slots, slot, id),
    ensures
        ({
            let before = store.shots(slots);
            let after = store.shots(slots_after_erasing(slots, slot));
            &&& shot_store::first_with_id(after, id) is None
            &&& forall|other: u32|
                other != id ==> #[trigger] shot_store::first_with_id(after, other)
                    == shot_store::first_with_id(before, other)
            &&& after == without(before, id)
            &&& forall|list: Seq<ShotSummary>, shorter: Seq<ShotSummary>| #[trigger]
                lists(list, before) && #[trigger] lists(shorter, after) ==> shorter
                    == list_without(list, id)
            &&& numbers_differ(store, slots_after_erasing(slots, slot))
            &&& numbers_rise(store, slots) ==> numbers_rise(store, slots_after_erasing(slots, slot))
        }),
{
    let i = choose|i: int|
        {
            &&& 0 <= i < store.count
            &&& #[trigger] store.order()[i] == slot
            &&& shot_store::shot_in(slots, slot) matches Some(shot) && shot.id == id
            &&& shot_store::first_with_id(
                shot_store::shots_in(slots, store.order().take(i)),
                id,
            ) is None
        };
    shot_store::lemma_delete_removes_shot(store, slots, i);
    let older = shot_store::shots_in(slots, store.order().take(i));
    let newer = shot_store::shots_in(slots, store.order().skip(i + 1));
    let shot = shot_store::shot_in(slots, slot)->0;
    let before = store.shots(slots);
    let after = store.shots(slots_after_erasing(slots, slot));
    assert(before == older.push(shot) + newer && after == older + newer && shot.id == id);
    lemma_numbers_of_the_others(older, shot, newer);
    lemma_found_among_the_others(older, shot, newer);
    assert forall|list: Seq<ShotSummary>, shorter: Seq<ShotSummary>| #[trigger]
        lists(list, before) && #[trigger] lists(shorter, after) implies shorter == list_without(
        list,
        id,
    ) by {
        lemma_list_of_the_others(older, shot, newer, list, shorter);
    }
    assert forall|j: int| numbers_rise(store, slots) && 0 <= j < after.len() implies (
    #[trigger] after[j]).id < store.next_id by {
        let k = if j < older.len() {
            j
        } else {
            j + 1
        };
        assert(after[j] == before[k]);
    }
}

} // verus!
