//! The backlog of pending requests and the batch-formation rules.
//!
//! `State` owns the ordered backlog of `(entry id, Entry)` pairs together
//! with the two monotonic counters: the next entry id and the next batch id.
//! Exactly one logical owner is meant to drive a `State`; concurrent callers
//! reach it through message passing outside this crate.

use vstd::prelude::*;

use crate::request::{
    request_matches, Batch, Request, ValidGenerateRequest,
};
use std::collections::HashMap;
use std::collections::VecDeque;

verus! {

/// One pending request: the validated request itself, the conduit used to
/// stream results back to the caller, and the two timestamps of its life in
/// the scheduler. `batch_time` is `None` while the entry is backlogged and is
/// set exactly once, when the entry leaves the backlog into a batch.
#[verifier::reject_recursive_types(T)]
pub struct Entry<T> {
    pub request: ValidGenerateRequest,
    pub response_tx: flume::Sender<T>,
    pub queue_time: tokio::time::Instant,
    pub batch_time: Option<tokio::time::Instant>,
}

/// The queue state: the FIFO backlog plus the two monotonic id counters.
#[verifier::reject_recursive_types(T)]
pub struct State<T> {
    pub entries: VecDeque<(u64, Entry<T>)>,
    pub next_id: u64,
    pub next_batch_id: u64,
}

/// Ids strictly increase from front to back of a backlog.
pub open spec fn ids_increasing<T>(b: Seq<(u64, Entry<T>)>) -> bool {
    forall|i: int, j: int| 0 <= i < j < b.len() ==> (#[trigger] b[i]).0 < (#[trigger] b[j]).0
}

impl<T> State<T> {
    /// The backlog invariant: ids strictly increase along the backlog and are
    /// all below the next id to be assigned, so an id, once assigned, is
    /// never reused.
    pub open spec fn wf(self) -> bool {
        &&& ids_increasing(self.entries@)
        &&& forall|i: int|
            0 <= i < self.entries@.len() ==> (#[trigger] self.entries@[i]).0 < self.next_id
    }

    /// A fresh state: empty backlog, both counters at zero.
    pub fn new() -> (s: State<T>)
        ensures
            s.entries@.len() == 0,
            s.next_id == 0,
            s.next_batch_id == 0,
            s.wf(),
    {
        State { entries: VecDeque::with_capacity(128), next_id: 0, next_batch_id: 0 }
    }

    /// Append an entry at the back of the backlog under the current next
    /// entry id, and advance that counter. No rejection path exists here:
    /// admission control is the caller's responsibility.
    pub fn append(&mut self, entry: Entry<T>)
        requires
            old(self).next_id < u64::MAX,
        ensures
            append_step(*old(self), entry, *final(self)),
            old(self).wf() ==> final(self).wf(),
    {
        self.entries.push_back((self.next_id, entry));
        self.next_id = self.next_id + 1;
    }
}

/// Exactly what one append does: the entry is placed at the back under the
/// old next entry id, the next entry id advances by one, and the next batch
/// id is untouched.
pub open spec fn append_step<T>(pre: State<T>, entry: Entry<T>, post: State<T>) -> bool {
    &&& pre.next_id < u64::MAX
    &&& post.entries@ == pre.entries@.push((pre.next_id, entry))
    &&& post.next_id == pre.next_id + 1
    &&& post.next_batch_id == pre.next_batch_id
}

/// What batch formation does to a backlog, given the liveness bit observed
/// for each popped entry: `alive[i]` says whether the conduit of the i-th
/// entry of the backlog still had a receiver when it was popped.
///
/// Entries are popped from the front. A dead entry is discarded and does not
/// count toward `target`; a live one is retained. Popping stops once `target`
/// entries are retained or the backlog is exhausted. The result is the
/// retained entries in pop order, the untouched remainder of the backlog, and
/// how many entries were popped.
pub open spec fn select_from<T>(
    backlog: Seq<(u64, Entry<T>)>,
    alive: Seq<bool>,
    target: int,
) -> (Seq<(u64, Entry<T>)>, Seq<(u64, Entry<T>)>, int)
    decreases backlog.len(),
{
    if target <= 0 || backlog.len() == 0 {
        (Seq::empty(), backlog, 0)
    } else if alive[0] {
        let sub = select_from(backlog.skip(1), alive.skip(1), target - 1);
        (seq![backlog[0]] + sub.0, sub.1, sub.2 + 1)
    } else {
        let sub = select_from(backlog.skip(1), alive.skip(1), target);
        (sub.0, sub.1, sub.2 + 1)
    }
}

/// `post` holds the entry `pre` held, moved out of the backlog: same request,
/// same conduit, same queue time, and its batch time now stamped.
pub open spec fn entry_batched<T>(pre: Entry<T>, post: Entry<T>) -> bool {
    &&& post.request == pre.request
    &&& post.response_tx == pre.response_tx
    &&& post.queue_time == pre.queue_time
    &&& post.batch_time is Some
}

/// The mapping and batch returned by a successful formation agree with the
/// retained entries `ret`: the batch takes the old next batch id, its size
/// and requests mirror `ret` in order, and the mapping holds exactly the
/// retained entries, each stamped, under their ids.
pub open spec fn batch_result_matches<T>(
    pre: State<T>,
    ret: Seq<(u64, Entry<T>)>,
    map: HashMap<u64, Entry<T>>,
    batch: Batch,
) -> bool {
    &&& batch.id == pre.next_batch_id
    &&& batch.size as int == ret.len()
    &&& batch.requests@.len() == ret.len()
    &&& forall|i: int|
        0 <= i < ret.len() ==> request_matches(
            #[trigger] batch.requests@[i],
            ret[i].0,
            ret[i].1.request,
        )
    &&& forall|i: int|
        0 <= i < ret.len() ==> map@.contains_key((#[trigger] ret[i]).0) && entry_batched(
            ret[i].1,
            map@[ret[i].0],
        )
    &&& forall|k: u64|
        #[trigger] map@.contains_key(k) ==> exists|i: int| 0 <= i < ret.len() && ret[i].0 == k
}

/// The full contract of one batch-formation attempt, given the observed
/// liveness bits. An empty backlog, or one shorter than the requested
/// minimum, leaves the state completely untouched and yields nothing; the
/// minimum is checked against the raw backlog length, before any discarding.
/// Otherwise up to `min(backlog length, max_size)` live entries are taken
/// from the front, dead ones being discarded along the way; if none was live
/// nothing is returned (though the backlog has still lost its dead front),
/// and otherwise the mapping and batch are as `batch_result_matches` says and
/// the next batch id advances by one.
pub open spec fn forms_batch_with<T>(
    pre: State<T>,
    min_size: Option<usize>,
    max_size: usize,
    alive: Seq<bool>,
    post: State<T>,
    r: Option<(HashMap<u64, Entry<T>>, Batch)>,
) -> bool {
    let n = pre.entries@.len() as int;
    if n == 0 {
        r is None && post == pre
    } else if min_size matches Some(m) && n < m as int {
        r is None && post == pre
    } else {
        let target: int = if (max_size as int) < n { max_size as int } else { n };
        let sel = select_from(pre.entries@, alive, target);
        &&& post.entries@ == sel.1
        &&& post.next_id == pre.next_id
        &&& if sel.0.len() == 0 {
            r is None && post.next_batch_id == pre.next_batch_id
        } else {
            &&& r matches Some(nb) && batch_result_matches(pre, sel.0, nb.0, nb.1)
            &&& post.next_batch_id == pre.next_batch_id + 1
        }
    }
}

/// The loop invariant behind `next_batch`: after observing the bits `obs`
/// for the popped prefix, the outcome of `select_from` on the whole original
/// backlog decomposes into what has been retained so far plus whatever
/// selection does to the current backlog under the bits still to come.
spec fn select_decomposes<T>(
    b0: Seq<(u64, Entry<T>)>,
    target: int,
    obs: Seq<bool>,
    ret: Seq<(u64, Entry<T>)>,
    cur: Seq<(u64, Entry<T>)>,
) -> bool {
    forall|rest: Seq<bool>|
        #[trigger] select_from(b0, obs + rest, target) == ({
            let sub = select_from(cur, rest, target - ret.len());
            (ret + sub.0, sub.1, obs.len() + sub.2)
        })
}

proof fn lemma_select_decomposes_init<T>(b0: Seq<(u64, Entry<T>)>, target: int)
    ensures
        select_decomposes(b0, target, Seq::empty(), Seq::empty(), b0),
{
    assert forall|rest: Seq<bool>|
        #[trigger] select_from(b0, Seq::<bool>::empty() + rest, target) == ({
            let sub = select_from(b0, rest, target - Seq::<(u64, Entry<T>)>::empty().len());
            (Seq::<(u64, Entry<T>)>::empty() + sub.0, sub.1, Seq::<bool>::empty().len() + sub.2)
        }) by {
        assert(Seq::<bool>::empty() + rest =~= rest);
        let sub = select_from(b0, rest, target);
        assert(Seq::<(u64, Entry<T>)>::empty() + sub.0 =~= sub.0);
    }
}

proof fn lemma_select_decomposes_step<T>(
    b0: Seq<(u64, Entry<T>)>,
    target: int,
    obs: Seq<bool>,
    ret: Seq<(u64, Entry<T>)>,
    cur: Seq<(u64, Entry<T>)>,
    bit: bool,
)
    requires
        select_decomposes(b0, target, obs, ret, cur),
        cur.len() > 0,
        ret.len() < target,
    ensures
        bit ==> select_decomposes(
            b0,
            target,
            obs + seq![bit],
            ret + seq![cur[0]],
            cur.skip(1),
        ),
        !bit ==> select_decomposes(b0, target, obs + seq![bit], ret, cur.skip(1)),
{
    let obs1 = obs + seq![bit];
    let ret1 = if bit {
        ret + seq![cur[0]]
    } else {
        ret
    };
    assert forall|rest: Seq<bool>|
        #[trigger] select_from(b0, obs1 + rest, target) == ({
            let sub = select_from(cur.skip(1), rest, target - ret1.len());
            (ret1 + sub.0, sub.1, obs1.len() + sub.2)
        }) by {
        let rest1 = seq![bit] + rest;
        assert(obs1 + rest =~= obs + rest1);
        assert(select_from(b0, obs + rest1, target) == ({
            let sub = select_from(cur, rest1, target - ret.len());
            (ret + sub.0, sub.1, obs.len() + sub.2)
        }));
        assert(rest1.skip(1) =~= rest);
        assert(rest1[0] == bit);
        let sub1 = select_from(cur, rest1, target - ret.len());
        if bit {
            let sub = select_from(cur.skip(1), rest, target - ret.len() - 1);
            assert(sub1 == (seq![cur[0]] + sub.0, sub.1, sub.2 + 1));
            assert(ret + (seq![cur[0]] + sub.0) =~= (ret + seq![cur[0]]) + sub.0);
        } else {
            let sub = select_from(cur.skip(1), rest, target - ret.len());
            assert(sub1 == (sub.0, sub.1, sub.2 + 1));
        }
    }
}

impl<T> State<T> {
    /// Form the next batch.
    ///
    /// Returns `None`, leaving the state untouched, when the backlog is empty
    /// or shorter than `min_size`; the minimum is judged against the raw
    /// backlog length, so a returned batch may still end up smaller than
    /// `min_size` when dead entries sat among the live ones. Otherwise pops
    /// entries from the front, silently discarding those whose response
    /// conduit has lost its receiver, until `min(backlog length, max_size)`
    /// entries are retained or the backlog runs out. If any entry was
    /// retained, returns the mapping from entry id to its (now stamped)
    /// entry together with the batch of request snapshots, and advances the
    /// next batch id; if every popped entry was dead, returns `None` with the
    /// dead entries nevertheless gone for good.
    pub fn next_batch(&mut self, min_size: Option<usize>, max_size: usize) -> (r: Option<
        (HashMap<u64, Entry<T>>, Batch),
    >)
        requires
            old(self).wf(),
            max_size <= u32::MAX,
            old(self).next_batch_id < u64::MAX,
        ensures
            final(self).next_id == old(self).next_id,
            final(self).wf(),
            old(self).entries@.len() == 0 ==> r is None && *final(self) == *old(self),
            (min_size matches Some(m) && old(self).entries@.len() < m) ==> r is None
                && *final(self) == *old(self),
            final(self).entries@.len() <= old(self).entries@.len(),
            r is None ==> final(self).next_batch_id == old(self).next_batch_id,
            r matches Some(nb) ==> nb.1.id == old(self).next_batch_id && final(self).next_batch_id
                == old(self).next_batch_id + 1,
            r matches Some(nb) ==> 1 <= nb.1.requests@.len() <= max_size && nb.1.size as int
                == nb.1.requests@.len(),
            exists|alive: Seq<bool>|
                alive.len() == old(self).entries@.len() && #[trigger] forms_batch_with(
                    *old(self),
                    min_size,
                    max_size,
                    alive,
                    *final(self),
                    r,
                ),
    {
        let ghost pre = *self;
        let n = self.entries.len();
        if n == 0 {
            proof {
                let alive = Seq::<bool>::new(0, |i: int| false);
                assert(forms_batch_with(pre, min_size, max_size, alive, *self, None::<
                    (HashMap<u64, Entry<T>>, Batch),
                >));
            }
            return None;
        }
        if let Some(m) = min_size {
            if n < m {
                proof {
                    let alive = Seq::<bool>::new(n as nat, |i: int| false);
                    assert(forms_batch_with(pre, min_size, max_size, alive, *self, None::<
                        (HashMap<u64, Entry<T>>, Batch),
                    >));
                }
                return None;
            }
        }
        let target: usize = if max_size < n {
            max_size
        } else {
            n
        };
        let ghost b0 = self.entries@;
        let ghost mut obs: Seq<bool> = Seq::empty();
        let ghost mut ret_g: Seq<(u64, Entry<T>)> = Seq::empty();
        let mut batch_requests: Vec<Request> = Vec::new();
        let mut batch_entries: HashMap<u64, Entry<T>> = HashMap::new();
        proof {
            lemma_select_decomposes_init(b0, target as int);
        }
        while batch_requests.len() < target && self.entries.len() > 0
            invariant
                b0 == pre.entries@,
                pre.wf(),
                target <= max_size,
                max_size <= u32::MAX,
                obs.len() <= b0.len(),
                self.entries@ == b0.skip(obs.len() as int),
                self.next_id == pre.next_id,
                self.next_batch_id == pre.next_batch_id,
                select_decomposes(b0, target as int, obs, ret_g, self.entries@),
                batch_requests@.len() == ret_g.len(),
                ret_g.len() <= target,
                forall|i: int|
                    0 <= i < ret_g.len() ==> request_matches(
                        #[trigger] batch_requests@[i],
                        ret_g[i].0,
                        ret_g[i].1.request,
                    ),
                forall|i: int|
                    0 <= i < ret_g.len() ==> batch_entries@.contains_key((#[trigger] ret_g[i]).0)
                        && entry_batched(ret_g[i].1, batch_entries@[ret_g[i].0]),
                forall|k: u64|
                    #[trigger] batch_entries@.contains_key(k) ==> exists|i: int|
                        0 <= i < ret_g.len() && ret_g[i].0 == k,
                forall|i: int, j: int|
                    0 <= i < ret_g.len() && obs.len() <= j < b0.len() ==> (#[trigger] ret_g[i]).0
                        < (#[trigger] b0[j]).0,
            decreases self.entries@.len(),
        {
            let ghost cur0 = self.entries@;
            let popped = self.entries.pop_front();
            let (id, mut entry) = popped.unwrap();
            let ghost pre_entry = entry;
            let alive_bit = !entry.response_tx.is_disconnected();
            proof {
                lemma_select_decomposes_step(b0, target as int, obs, ret_g, cur0, alive_bit);
                obs = obs + seq![alive_bit];
                assert(self.entries@ =~= b0.skip(obs.len() as int));
            }
            if !alive_bit {
                continue;
            }
            let request = Request {
                id,
                inputs: entry.request.inputs.clone(),
                truncate: entry.request.truncate,
                parameters: Some(entry.request.parameters),
                stopping_parameters: Some(entry.request.stopping_parameters.clone()),
            };
            batch_requests.push(request);
            entry.batch_time = Some(tokio::time::Instant::now());
            let ghost ret0 = ret_g;
            let ghost map0 = batch_entries@;
            proof {
                ret_g = ret_g + seq![(id, pre_entry)];
            }
            batch_entries.insert(id, entry);
            proof {
                assert forall|k: u64| #[trigger] batch_entries@.contains_key(k) implies exists|
                    i: int,
                |
                    0 <= i < ret_g.len() && ret_g[i].0 == k by {
                    if k == id {
                        assert(ret_g[ret_g.len() - 1].0 == k);
                    } else {
                        assert(map0.contains_key(k));
                        let i = choose|i: int| 0 <= i < ret0.len() && ret0[i].0 == k;
                        assert(ret_g[i].0 == k);
                    }
                }
            }
        }
        proof {
            let pad = Seq::<bool>::new((b0.len() - obs.len()) as nat, |i: int| false);
            let alive = obs + pad;
            assert(select_from(b0, obs + pad, target as int) == ({
                let sub = select_from(self.entries@, pad, target - ret_g.len());
                (ret_g + sub.0, sub.1, obs.len() + sub.2)
            }));
            let sub = select_from(self.entries@, pad, target - ret_g.len());
            assert(sub == (Seq::<(u64, Entry<T>)>::empty(), self.entries@, 0int));
            assert(ret_g + sub.0 =~= ret_g);
            assert(select_from(b0, alive, target as int) == (ret_g, self.entries@, obs.len() as int));
            assert forall|i: int, j: int| 0 <= i < j < self.entries@.len() implies (
            #[trigger] self.entries@[i]).0 < (#[trigger] self.entries@[j]).0 by {
                assert(self.entries@[i] == b0[obs.len() + i]);
                assert(self.entries@[j] == b0[obs.len() + j]);
            }
            assert forall|i: int| 0 <= i < self.entries@.len() implies (
            #[trigger] self.entries@[i]).0 < self.next_id by {
                assert(self.entries@[i] == b0[obs.len() + i]);
            }
        }
        if batch_requests.len() == 0 {
            proof {
                let pad = Seq::<bool>::new((b0.len() - obs.len()) as nat, |i: int| false);
                let alive = obs + pad;
                assert(forms_batch_with(pre, min_size, max_size, alive, *self, None::<
                    (HashMap<u64, Entry<T>>, Batch),
                >));
            }
            return None;
        }
        let size = batch_requests.len() as u32;
        let batch = Batch { id: self.next_batch_id, requests: batch_requests, size };
        self.next_batch_id = self.next_batch_id + 1;
        proof {
            let pad = Seq::<bool>::new((b0.len() - obs.len()) as nat, |i: int| false);
            let alive = obs + pad;
            assert(batch_result_matches(pre, ret_g, batch_entries, batch));
            assert(forms_batch_with(
                pre,
                min_size,
                max_size,
                alive,
                *self,
                Some((batch_entries, batch)),
            ));
        }
        Some((batch_entries, batch))
    }
}

} // verus!
