//! The guarantees the scheduler gives across calls, stated and proved over
//! the models that the operation contracts use: `append_step` for one append
//! and `forms_batch_with` for one batch-formation attempt.

use vstd::prelude::*;

use crate::queue::{
    append_step, forms_batch_with, select_from, Entry, State,
};
use crate::request::Batch;
use std::collections::HashMap;

verus! {

/// Selection only ever takes entries off the front: whatever the liveness
/// bits, the remaining backlog is the untouched suffix past the popped
/// prefix, and no more than `target` entries are retained.
pub proof fn lemma_select_bounds<T>(b: Seq<(u64, Entry<T>)>, alive: Seq<bool>, target: int)
    ensures
        ({
            let sel = select_from(b, alive, target);
            &&& 0 <= sel.2 <= b.len()
            &&& sel.1 == b.skip(sel.2)
            &&& sel.0.len() <= if target >= 0 { target } else { 0 }
        }),
    decreases b.len(),
{
    if target <= 0 || b.len() == 0 {
        assert(b.skip(0) =~= b);
    } else {
        lemma_select_bounds(b.skip(1), alive.skip(1), if alive[0] {
            target - 1
        } else {
            target
        });
        let sub = select_from(b.skip(1), alive.skip(1), if alive[0] {
            target - 1
        } else {
            target
        });
        assert(b.skip(1).skip(sub.2) =~= b.skip(sub.2 + 1));
    }
}

/// FIFO preservation and size capping in one statement: when every popped
/// entry is still live, selection retains exactly the first `target` entries
/// of the backlog, in their backlog order and with their original ids, and
/// leaves exactly the rest.
pub proof fn lemma_select_all_alive<T>(b: Seq<(u64, Entry<T>)>, alive: Seq<bool>, target: int)
    requires
        0 <= target <= b.len(),
        alive.len() >= b.len(),
        forall|i: int| 0 <= i < b.len() ==> alive[i],
    ensures
        select_from(b, alive, target) == (b.take(target), b.skip(target), target),
    decreases target,
{
    if target == 0 {
        assert(b.take(0) =~= Seq::empty());
        assert(b.skip(0) =~= b);
    } else {
        assert(alive[0]);
        assert(forall|i: int| 0 <= i < b.skip(1).len() ==> alive.skip(1)[i]);
        lemma_select_all_alive(b.skip(1), alive.skip(1), target - 1);
        assert(seq![b[0]] + b.skip(1).take(target - 1) =~= b.take(target));
        assert(b.skip(1).skip(target - 1) =~= b.skip(target));
    }
}

/// The entries of a backlog prefix whose liveness bit is set, in order.
pub open spec fn live_entries<T>(b: Seq<(u64, Entry<T>)>, alive: Seq<bool>) -> Seq<
    (u64, Entry<T>),
>
    decreases b.len(),
{
    if b.len() == 0 {
        Seq::empty()
    } else if alive[0] {
        seq![b[0]] + live_entries(b.skip(1), alive.skip(1))
    } else {
        live_entries(b.skip(1), alive.skip(1))
    }
}

/// Discard correctness: whatever is retained is exactly the live part of the
/// popped prefix, in backlog order — dead entries are skipped without
/// counting toward the cap, and they take nothing else with them.
pub proof fn lemma_select_filters<T>(b: Seq<(u64, Entry<T>)>, alive: Seq<bool>, target: int)
    requires
        alive.len() >= b.len(),
    ensures
        ({
            let sel = select_from(b, alive, target);
            sel.0 == live_entries(b.take(sel.2), alive.take(sel.2))
        }),
    decreases b.len(),
{
    let sel = select_from(b, alive, target);
    if target <= 0 || b.len() == 0 {
        assert(b.take(0) =~= Seq::empty());
        assert(live_entries(b.take(0), alive.take(0)) =~= Seq::empty());
    } else {
        let t1 = if alive[0] {
            target - 1
        } else {
            target
        };
        assert(alive.skip(1).len() >= b.skip(1).len());
        lemma_select_filters(b.skip(1), alive.skip(1), t1);
        let sub = select_from(b.skip(1), alive.skip(1), t1);
        let k = sub.2;
        lemma_select_bounds(b.skip(1), alive.skip(1), t1);
        assert(b.take(k + 1).skip(1) =~= b.skip(1).take(k));
        assert(alive.take(k + 1).skip(1) =~= alive.skip(1).take(k));
        assert(b.take(k + 1)[0] == b[0]);
        assert(alive.take(k + 1)[0] == alive[0]);
    }
}

/// Zero-retained drain: if a cap is actually requested and every popped
/// entry is dead, the whole backlog is popped, nothing is retained, and the
/// backlog ends empty.
pub proof fn lemma_select_none_alive<T>(b: Seq<(u64, Entry<T>)>, alive: Seq<bool>, target: int)
    requires
        target > 0,
        alive.len() >= b.len(),
        forall|i: int| 0 <= i < b.len() ==> !alive[i],
    ensures
        select_from(b, alive, target) == (
            Seq::<(u64, Entry<T>)>::empty(),
            Seq::<(u64, Entry<T>)>::empty(),
            b.len() as int,
        ),
    decreases b.len(),
{
    if b.len() == 0 {
        assert(b =~= Seq::<(u64, Entry<T>)>::empty());
    } else {
        assert(!alive[0]);
        assert(forall|i: int| 0 <= i < b.skip(1).len() ==> !alive.skip(1)[i]);
        lemma_select_none_alive(b.skip(1), alive.skip(1), target);
    }
}

/// Monotonic ids: along any run of consecutive appends starting from a fresh
/// state, the backlog ends up holding exactly the appended entries, in append
/// order, under the ids `0, 1, …, N-1`.
pub proof fn lemma_monotonic_ids<T>(states: Seq<State<T>>, appended: Seq<Entry<T>>)
    requires
        states.len() == appended.len() + 1,
        states[0].entries@.len() == 0,
        states[0].next_id == 0,
        forall|i: int|
            0 <= i < appended.len() ==> append_step(
                #[trigger] states[i],
                appended[i],
                states[i + 1],
            ),
    ensures
        states.last().entries@.len() == appended.len(),
        states.last().next_id == appended.len(),
        forall|i: int|
            0 <= i < appended.len() ==> #[trigger] states.last().entries@[i] == (
                i as u64,
                appended[i],
            ),
    decreases appended.len(),
{
    if appended.len() > 0 {
        let n = appended.len() as int;
        lemma_monotonic_ids(states.take(n), appended.take(n - 1));
        assert(append_step(states[n - 1], appended[n - 1], states[n]));
        assert(states.take(n).last() == states[n - 1]);
        assert forall|i: int| 0 <= i < n implies #[trigger] states.last().entries@[i] == (
            i as u64,
            appended[i],
        ) by {
            if i < n - 1 {
                assert(states[n - 1].entries@[i] == (i as u64, appended.take(n - 1)[i]));
            }
        }
    }
}

/// Appends never move the batch-id counter.
pub proof fn lemma_appends_preserve_batch_id<T>(states: Seq<State<T>>, appended: Seq<Entry<T>>)
    requires
        states.len() == appended.len() + 1,
        forall|i: int|
            0 <= i < appended.len() ==> append_step(
                #[trigger] states[i],
                appended[i],
                states[i + 1],
            ),
    ensures
        states.last().next_batch_id == states[0].next_batch_id,
    decreases appended.len(),
{
    if appended.len() > 0 {
        let n = appended.len() as int;
        lemma_appends_preserve_batch_id(states.take(n), appended.take(n - 1));
        assert(append_step(states[n - 1], appended[n - 1], states[n]));
        assert(states.take(n).last() == states[n - 1]);
        assert(states.take(n)[0] == states[0]);
    }
}

/// A successful formation hands out the batch id the state held and advances
/// the counter past it.
pub proof fn lemma_batch_id_advances<T>(
    pre: State<T>,
    min_size: Option<usize>,
    max_size: usize,
    alive: Seq<bool>,
    post: State<T>,
    map: HashMap<u64, Entry<T>>,
    batch: Batch,
)
    requires
        forms_batch_with(pre, min_size, max_size, alive, post, Some((map, batch))),
    ensures
        batch.id == pre.next_batch_id,
        post.next_batch_id == pre.next_batch_id + 1,
{
}

/// Batch id sequencing: two successful batch formations, with any appends in
/// between, hand out consecutive batch ids.
pub proof fn lemma_batch_id_sequencing<T>(
    s0: State<T>,
    min1: Option<usize>,
    max1: usize,
    alive1: Seq<bool>,
    map1: HashMap<u64, Entry<T>>,
    batch1: Batch,
    states: Seq<State<T>>,
    appended: Seq<Entry<T>>,
    min2: Option<usize>,
    max2: usize,
    alive2: Seq<bool>,
    s3: State<T>,
    map2: HashMap<u64, Entry<T>>,
    batch2: Batch,
)
    requires
        states.len() == appended.len() + 1,
        forms_batch_with(s0, min1, max1, alive1, states[0], Some((map1, batch1))),
        forall|i: int|
            0 <= i < appended.len() ==> append_step(
                #[trigger] states[i],
                appended[i],
                states[i + 1],
            ),
        forms_batch_with(states.last(), min2, max2, alive2, s3, Some((map2, batch2))),
    ensures
        batch2.id == batch1.id + 1,
{
    lemma_appends_preserve_batch_id(states, appended);
}

/// Empty-queue stability: on an empty backlog any run of batch-formation
/// attempts, whatever their arguments, returns nothing and leaves the state
/// — both counters included — exactly as it was.
pub proof fn lemma_empty_queue_stable<T>(
    states: Seq<State<T>>,
    mins: Seq<Option<usize>>,
    maxes: Seq<usize>,
    alives: Seq<Seq<bool>>,
    results: Seq<Option<(HashMap<u64, Entry<T>>, Batch)>>,
)
    requires
        states.len() == results.len() + 1,
        mins.len() == results.len(),
        maxes.len() == results.len(),
        alives.len() == results.len(),
        states[0].entries@.len() == 0,
        forall|i: int|
            0 <= i < results.len() ==> forms_batch_with(
                #[trigger] states[i],
                mins[i],
                maxes[i],
                alives[i],
                states[i + 1],
                results[i],
            ),
    ensures
        forall|i: int| 0 <= i < results.len() ==> #[trigger] results[i] is None,
        forall|i: int| 0 <= i < states.len() ==> #[trigger] states[i] == states[0],
    decreases results.len(),
{
    if results.len() > 0 {
        let n = results.len() as int;
        assert forall|i: int|
            0 <= i < n - 1 implies forms_batch_with(
            #[trigger] states.take(n)[i],
            mins.take(n - 1)[i],
            maxes.take(n - 1)[i],
            alives.take(n - 1)[i],
            states.take(n)[i + 1],
            results.take(n - 1)[i],
        ) by {
            assert(states.take(n)[i] == states[i]);
            assert(states.take(n)[i + 1] == states[i + 1]);
        }
        lemma_empty_queue_stable(
            states.take(n),
            mins.take(n - 1),
            maxes.take(n - 1),
            alives.take(n - 1),
            results.take(n - 1),
        );
        assert(states.take(n)[n - 1] == states[n - 1]);
        assert(states.take(n)[0] == states[0]);
        assert(states[n - 1] == states[0]);
        assert(forms_batch_with(
            states[n - 1],
            mins[n - 1],
            maxes[n - 1],
            alives[n - 1],
            states[n],
            results[n - 1],
        ));
        assert(states[n] == states[n - 1]);
        assert forall|i: int| 0 <= i < results.len() implies #[trigger] results[i] is None by {
            if i < n - 1 {
                assert(results.take(n - 1)[i] == results[i]);
                assert(results.take(n - 1)[i] is None);
            }
        }
        assert forall|i: int| 0 <= i < states.len() implies #[trigger] states[i] == states[0] by {
            if i < n {
                assert(states.take(n)[i] == states[i]);
            }
        }
    }
}

} // verus!
