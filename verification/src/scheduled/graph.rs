//! The dataflow graph: subgraphs, the handoffs between them, and the scheduler that decides
//! which subgraph runs next.
//!
//! Running a subgraph's own code is the caller's part: it takes the next subgraph from
//! [`Hydroflow::take_next_subgraph`], runs it against the handoff states, then reports back with
//! [`Hydroflow::schedule_successors`] and any external events with
//! [`Hydroflow::try_recv_events`].
use std::collections::VecDeque;
use std::marker::PhantomData;
use vstd::prelude::*;

use crate::scheduled::handoff::Handoff;

verus! {

/// Index of a subgraph in its graph.
#[derive(Clone, Copy, Debug, PartialEq, Eq, Structural)]
pub struct SubgraphId(pub usize);

/// Index of a handoff in its graph.
#[derive(Clone, Copy, Debug, PartialEq, Eq, Structural)]
pub struct HandoffId(pub usize);

/// A handoff and its input and output subgraphs.
pub struct HandoffData<H: Handoff> {
    /// A friendly name for diagnostics.
    pub name: String,
    /// The buffered state.
    pub state: H::State,
    /// Subgraphs that send into this handoff.
    pub preds: Vec<SubgraphId>,
    /// Subgraphs that receive from this handoff.
    pub succs: Vec<SubgraphId>,
}

impl<H: Handoff> HandoffData<H> {
    /// A handoff with no predecessors or successors yet.
    pub fn new(name: String, state: H::State) -> (r: Self)
        ensures
            r.name == name,
            r.state == state,
            r.preds@.len() == 0,
            r.succs@.len() == 0,
    {
        HandoffData { name, state, preds: Vec::new(), succs: Vec::new() }
    }
}

/// A subgraph's place in the graph: its stratum, its handoffs and whether it is scheduled.
pub struct SubgraphData {
    /// A friendly name for diagnostics.
    pub name: String,
    /// This subgraph's stratum number.
    pub stratum: usize,
    /// Handoffs this subgraph receives from.
    pub preds: Vec<HandoffId>,
    /// Handoffs this subgraph sends into.
    pub succs: Vec<HandoffId>,
    /// Whether this subgraph is scheduled.
    pub is_scheduled: bool,
}

impl SubgraphData {
    /// Subgraph data with the given fields.
    pub fn new(
        name: String,
        stratum: usize,
        preds: Vec<HandoffId>,
        succs: Vec<HandoffId>,
        is_scheduled: bool,
    ) -> (r: Self)
        ensures
            r.name == name,
            r.stratum == stratum,
            r.preds == preds,
            r.succs == succs,
            r.is_scheduled == is_scheduled,
    {
        SubgraphData { name, stratum, preds, succs, is_scheduled }
    }
}

/// `d` with its scheduled flag set to `b`.
pub open spec fn flagged(d: SubgraphData, b: bool) -> SubgraphData {
    SubgraphData { is_scheduled: b, ..d }
}

/// The queues, extended with empty queues so that stratum `s` exists.
pub open spec fn with_stratum(queues: Seq<Seq<SubgraphId>>, s: int) -> Seq<Seq<SubgraphId>> {
    if s < queues.len() {
        queues
    } else {
        queues + Seq::new((s + 1 - queues.len()) as nat, |i: int| Seq::<SubgraphId>::empty())
    }
}

/// Scheduling `id`: if it is not yet scheduled, flag it and append it to its stratum's queue.
/// The boolean says whether it was newly scheduled.
pub open spec fn schedule_step(
    sgs: Seq<SubgraphData>,
    queues: Seq<Seq<SubgraphId>>,
    id: SubgraphId,
) -> (Seq<SubgraphData>, Seq<Seq<SubgraphId>>, bool) {
    let d = sgs[id.0 as int];
    if d.is_scheduled {
        (sgs, queues, false)
    } else {
        let q = with_stratum(queues, d.stratum as int);
        (
            sgs.update(id.0 as int, flagged(d, true)),
            q.update(d.stratum as int, q[d.stratum as int].push(id)),
            true,
        )
    }
}

/// Scheduling each of `events` in turn; the number says how many were newly scheduled.
pub open spec fn schedule_all(
    sgs: Seq<SubgraphData>,
    queues: Seq<Seq<SubgraphId>>,
    events: Seq<SubgraphId>,
) -> (Seq<SubgraphData>, Seq<Seq<SubgraphId>>, nat)
    decreases events.len(),
{
    if events.len() == 0 {
        (sgs, queues, 0)
    } else {
        let prev = schedule_all(sgs, queues, events.drop_last());
        let step = schedule_step(prev.0, prev.1, events.last());
        (step.0, step.1, if step.2 { prev.2 + 1 } else { prev.2 })
    }
}

/// Every id names a subgraph.
pub open spec fn ids_in_range(ids: Seq<SubgraphId>, n: int) -> bool {
    forall|i: int| 0 <= i < ids.len() ==> (#[trigger] ids[i]).0 < n
}

/// Every stratum is below `usize::MAX`, so its queue can be created.
pub open spec fn strata_bounded(sgs: Seq<SubgraphData>) -> bool {
    forall|i: int| 0 <= i < sgs.len() ==> (#[trigger] sgs[i]).stratum < usize::MAX
}

/// The queues agree with the subgraphs: a subgraph is flagged as scheduled exactly when it is
/// queued; it then sits in the queue of its own stratum, only once.
pub open spec fn queues_wf(sgs: Seq<SubgraphData>, queues: Seq<Seq<SubgraphId>>) -> bool {
    &&& forall|i: usize|
        i < sgs.len() && (#[trigger] sgs[i as int]).is_scheduled ==> {
            &&& sgs[i as int].stratum < queues.len()
            &&& queues[sgs[i as int].stratum as int].contains(SubgraphId(i))
        }
    &&& forall|s: int, i: int|
        0 <= s < queues.len() && 0 <= i < queues[s].len() ==> {
            let id = #[trigger] queues[s][i];
            &&& id.0 < sgs.len()
            &&& sgs[id.0 as int].stratum == s
            &&& sgs[id.0 as int].is_scheduled
        }
    &&& forall|s: int, i: int, j: int|
        0 <= s < queues.len() && 0 <= i < queues[s].len() && 0 <= j < queues[s].len() && i != j
            ==> #[trigger] queues[s][i] != #[trigger] queues[s][j]
}

/// The stratum reached `k` steps after `s0`, going round `len` strata.
pub open spec fn rotate(s0: int, k: int, len: int) -> int {
    if s0 + k < len {
        s0 + k
    } else {
        s0 + k - len
    }
}

/// Whether the queue `k` strata after `s0` has work.
pub open spec fn ready_at(queues: Seq<Seq<SubgraphId>>, s0: int, k: int) -> bool {
    queues[rotate(s0, k, queues.len() as int)].len() > 0
}

/// Scheduling keeps the subgraphs' number, names, strata and handoffs.
pub open spec fn same_shape(a: Seq<SubgraphData>, b: Seq<SubgraphData>) -> bool {
    &&& a.len() == b.len()
    &&& forall|i: int| 0 <= i < a.len() ==> (#[trigger] b[i]) == flagged(a[i], b[i].is_scheduled)
}

/// Scheduling a subgraph keeps the queues well formed, and scheduling it a second time
/// changes nothing.
pub proof fn lemma_schedule_step(sgs: Seq<SubgraphData>, queues: Seq<Seq<SubgraphId>>, id: SubgraphId)
    requires
        queues_wf(sgs, queues),
        id.0 < sgs.len(),
    ensures
        queues_wf(schedule_step(sgs, queues, id).0, schedule_step(sgs, queues, id).1),
        same_shape(sgs, schedule_step(sgs, queues, id).0),
        schedule_step(sgs, queues, id).0[id.0 as int].is_scheduled,
        schedule_step(sgs, queues, id).1.len() >= queues.len(),
        schedule_step(sgs, queues, id).2 == !sgs[id.0 as int].is_scheduled,
        ({
            let (s1, q1, _) = schedule_step(sgs, queues, id);
            schedule_step(s1, q1, id) == (s1, q1, false)
        }),
{
    let d = sgs[id.0 as int];
    if !d.is_scheduled {
        let st = d.stratum as int;
        let q = with_stratum(queues, st);
        let s1 = sgs.update(id.0 as int, flagged(d, true));
        let q1 = q.update(st, q[st].push(id));
        assert forall|s: int, i: int| 0 <= s < q1.len() && 0 <= i < q1[s].len() implies {
            let x = #[trigger] q1[s][i];
            &&& x.0 < s1.len()
            &&& s1[x.0 as int].stratum == s
            &&& s1[x.0 as int].is_scheduled
        } by {
            if s < queues.len() && !(s == st && i == q[st].len()) {
                assert(q1[s][i] == queues[s][i]);
            }
        }
        assert forall|s: int, i: int, j: int|
            0 <= s < q1.len() && 0 <= i < q1[s].len() && 0 <= j < q1[s].len() && i != j
                implies #[trigger] q1[s][i] != #[trigger] q1[s][j] by {
            if s == st {
                if i == q[st].len() && s < queues.len() {
                    assert(q1[s][j] == queues[s][j]);
                } else if j == q[st].len() && s < queues.len() {
                    assert(q1[s][i] == queues[s][i]);
                } else if s < queues.len() {
                    assert(q1[s][i] == queues[s][i]);
                    assert(q1[s][j] == queues[s][j]);
                }
            } else if s < queues.len() {
                assert(q1[s][i] == queues[s][i]);
                assert(q1[s][j] == queues[s][j]);
            }
        }
        assert forall|i: usize| i < s1.len() && (#[trigger] s1[i as int]).is_scheduled implies {
            &&& s1[i as int].stratum < q1.len()
            &&& q1[s1[i as int].stratum as int].contains(SubgraphId(i))
        } by {
            if i == id.0 {
                assert(q1[st][q[st].len() as int] == id);
            } else {
                assert(s1[i as int] == sgs[i as int]);
                let t = sgs[i as int].stratum as int;
                let k = choose|k: int| 0 <= k < queues[t].len() && queues[t][k] == SubgraphId(i);
                assert(q[t] == queues[t]);
                assert(q1[t][k] == SubgraphId(i));
            }
        }
    }
}

/// Scheduling a run of events keeps the queues well formed and the subgraphs' shape.
pub proof fn lemma_schedule_all(sgs: Seq<SubgraphData>, queues: Seq<Seq<SubgraphId>>, events: Seq<SubgraphId>)
    requires
        queues_wf(sgs, queues),
        ids_in_range(events, sgs.len() as int),
    ensures
        queues_wf(schedule_all(sgs, queues, events).0, schedule_all(sgs, queues, events).1),
        same_shape(sgs, schedule_all(sgs, queues, events).0),
        schedule_all(sgs, queues, events).1.len() >= queues.len(),
    decreases events.len(),
{
    if events.len() > 0 {
        let rest = events.drop_last();
        assert(ids_in_range(rest, sgs.len() as int)) by {
            assert forall|i: int| 0 <= i < rest.len() implies (#[trigger] rest[i]).0 < sgs.len() by {
                assert(rest[i] == events[i]);
            }
        }
        lemma_schedule_all(sgs, queues, rest);
        let prev = schedule_all(sgs, queues, rest);
        assert(events.last() == events[events.len() - 1]);
        lemma_schedule_step(prev.0, prev.1, events.last());
    }
}

proof fn lemma_schedule_all_len(sgs: Seq<SubgraphData>, queues: Seq<Seq<SubgraphId>>, events: Seq<SubgraphId>)
    ensures
        schedule_all(sgs, queues, events).1.len() >= queues.len(),
    decreases events.len(),
{
    if events.len() > 0 {
        lemma_schedule_all_len(sgs, queues, events.drop_last());
    }
}

/// Index of stratum queues and the current position in them.
pub struct Scheduler {
    /// Index is stratum, value is FIFO queue for that stratum.
    stratum_queues: Vec<VecDeque<SubgraphId>>,
    current_epoch: usize,
    current_stratum: usize,
}

impl Scheduler {
    /// The queue of each stratum.
    pub closed spec fn queues(&self) -> Seq<Seq<SubgraphId>> {
        self.stratum_queues@.map_values(|q: VecDeque<SubgraphId>| q@)
    }

    /// The scheduler's epoch count.
    pub closed spec fn epoch(&self) -> usize {
        self.current_epoch
    }

    /// The stratum being run.
    pub closed spec fn stratum(&self) -> usize {
        self.current_stratum
    }

    /// A scheduler with stratum 0 initialized and empty.
    pub fn new() -> (r: Self)
        ensures
            r.queues() == seq![Seq::<SubgraphId>::empty()],
            r.epoch() == 0,
            r.stratum() == 0,
    {
        let mut stratum_queues: Vec<VecDeque<SubgraphId>> = Vec::new();
        stratum_queues.push(VecDeque::new());
        let r = Scheduler { stratum_queues, current_epoch: 0, current_stratum: 0 };
        assert(r.queues() =~= seq![Seq::<SubgraphId>::empty()]);
        r
    }

    /// Makes sure the queue of `stratum` exists.
    fn init_stratum(&mut self, stratum: usize)
        requires
            stratum < usize::MAX,
        ensures
            final(self).queues() == with_stratum(old(self).queues(), stratum as int),
            final(self).epoch() == old(self).epoch(),
            final(self).stratum() == old(self).stratum(),
    {
        let ghost q0 = self.queues();
        while self.stratum_queues.len() <= stratum
            invariant
                stratum < usize::MAX,
                q0.len() <= self.queues().len() <= stratum + 1 || (q0.len() > stratum && self.queues() == q0),
                self.queues().len() <= q0.len() ==> self.queues() == q0,
                self.queues().len() > q0.len() ==> self.queues() == q0 + Seq::new(
                    (self.queues().len() - q0.len()) as nat,
                    |i: int| Seq::<SubgraphId>::empty(),
                ),
                self.current_epoch == old(self).current_epoch,
                self.current_stratum == old(self).current_stratum,
            decreases stratum + 1 - self.stratum_queues@.len(),
        {
            let ghost before = self.queues();
            self.stratum_queues.push(VecDeque::new());
            proof {
                assert(self.queues() =~= before.push(Seq::<SubgraphId>::empty()));
                assert(self.queues() =~= q0 + Seq::new(
                    (self.queues().len() - q0.len()) as nat,
                    |i: int| Seq::<SubgraphId>::empty(),
                ));
            }
        }
        proof {
            if q0.len() <= stratum {
                assert(self.queues() =~= with_stratum(q0, stratum as int));
            }
        }
    }

    /// Schedules `sg_id`. Returns `true` if the subgraph is newly scheduled, `false` if it
    /// was already scheduled and nothing changed.
    pub fn schedule(&mut self, sg_id: SubgraphId, subgraphs: &mut Vec<SubgraphData>) -> (r: bool)
        requires
            sg_id.0 < old(subgraphs)@.len(),
            strata_bounded(old(subgraphs)@),
        ensures
            (final(subgraphs)@, final(self).queues(), r) == schedule_step(
                old(subgraphs)@,
                old(self).queues(),
                sg_id,
            ),
            final(self).epoch() == old(self).epoch(),
            final(self).stratum() == old(self).stratum(),
    {
        let stratum = subgraphs[sg_id.0].stratum;
        if subgraphs[sg_id.0].is_scheduled {
            false
        } else {
            subgraphs[sg_id.0].is_scheduled = true;
            assert(subgraphs@ =~= old(subgraphs)@.update(
                sg_id.0 as int,
                flagged(old(subgraphs)@[sg_id.0 as int], true),
            ));
            self.init_stratum(stratum);
            let ghost q = self.queues();
            assert(q.len() == self.stratum_queues@.len());
            self.stratum_queues[stratum].push_back(sg_id);
            assert(self.queues() =~= q.update(stratum as int, q[stratum as int].push(sg_id)));
            true
        }
    }

    /// Enqueues the subgraphs of `events`, in order, skipping those already scheduled.
    /// Returns the number of subgraphs enqueued.
    pub fn try_recv_events(&mut self, events: Vec<SubgraphId>, subgraphs: &mut Vec<SubgraphData>) -> (r: usize)
        requires
            ids_in_range(events@, old(subgraphs)@.len() as int),
            strata_bounded(old(subgraphs)@),
        ensures
            (final(subgraphs)@, final(self).queues(), r as nat) == schedule_all(
                old(subgraphs)@,
                old(self).queues(),
                events@,
            ),
            final(self).epoch() == old(self).epoch(),
            final(self).stratum() == old(self).stratum(),
    {
        let mut enqueued_count: usize = 0;
        let mut i: usize = 0;
        while i < events.len()
            invariant
                i <= events@.len(),
                ids_in_range(events@, old(subgraphs)@.len() as int),
                strata_bounded(old(subgraphs)@),
                enqueued_count <= i,
                (subgraphs@, self.queues(), enqueued_count as nat) == schedule_all(
                    old(subgraphs)@,
                    old(self).queues(),
                    events@.take(i as int),
                ),
                subgraphs@.len() == old(subgraphs)@.len(),
                forall|j: int| 0 <= j < subgraphs@.len() ==> (#[trigger] subgraphs@[j]).stratum == old(subgraphs)@[j].stratum,
                self.current_epoch == old(self).current_epoch,
                self.current_stratum == old(self).current_stratum,
            decreases events@.len() - i,
        {
            let sg_id = events[i];
            assert(sg_id.0 < subgraphs@.len());
            assert(strata_bounded(subgraphs@)) by {
                assert forall|j: int| 0 <= j < subgraphs@.len() implies (#[trigger] subgraphs@[j]).stratum < usize::MAX by {
                    assert(old(subgraphs)@[j].stratum < usize::MAX);
                }
            }
            let ghost before = subgraphs@;
            let newly = self.schedule(sg_id, subgraphs);
            proof {
                let prefix = events@.take(i + 1);
                assert(prefix.drop_last() == events@.take(i as int));
                assert(prefix.last() == sg_id);
                assert forall|j: int| 0 <= j < subgraphs@.len() implies (#[trigger] subgraphs@[j]).stratum == old(subgraphs)@[j].stratum by {
                    assert(subgraphs@[j].stratum == before[j].stratum);
                }
            }
            if newly {
                enqueued_count = enqueued_count + 1;
            }
            i = i + 1;
        }
        assert(events@.take(events@.len() as int) == events@);
        enqueued_count
    }

    /// Goes to the next stratum that has work, possibly the current one, counting an epoch
    /// each time it wraps past the last stratum. Returns `false`, after one full round, if no
    /// stratum has work.
    fn advance_to_ready(&mut self) -> (r: bool)
        requires
            old(self).stratum() < old(self).queues().len(),
            old(self).epoch() < usize::MAX,
        ensures
            ({
                let q = old(self).queues();
                let s0 = old(self).stratum() as int;
                let len = q.len() as int;
                &&& final(self).queues() == q
                &&& r == exists|k: int| 0 <= k < len && #[trigger] ready_at(q, s0, k)
                &&& r ==> exists|k: int|
                    0 <= k < len && #[trigger] ready_at(q, s0, k) && (forall|j: int|
                        0 <= j < k ==> !#[trigger] ready_at(q, s0, j)) && final(self).stratum()
                        == rotate(s0, k, len) && final(self).epoch() == old(self).epoch() + (if s0
                        + k < len {
                        0int
                    } else {
                        1int
                    })
                &&& !r ==> final(self).stratum() == s0 && final(self).epoch() == old(self).epoch()
                    + 1
            }),
    {
        let ghost q = self.queues();
        let ghost len = q.len() as int;
        let ghost s0 = self.current_stratum as int;
        let ghost e0 = self.current_epoch as int;
        assert(len == self.stratum_queues@.len());
        let n = self.stratum_queues.len();
        let old_stratum = self.current_stratum;
        let mut cur = self.current_stratum;
        let mut epoch = self.current_epoch;
        let mut found = false;
        let ghost mut k: int = 0;
        loop
            invariant_except_break
                !found,
                0 <= k < len,
                cur == rotate(s0, k, len),
                epoch == e0 + (if s0 + k < len { 0int } else { 1int }),
                forall|j: int| 0 <= j < k ==> !#[trigger] ready_at(q, s0, j),
            invariant
                self.queues() == q,
                len == n,
                n == self.stratum_queues@.len(),
                s0 < len,
                old_stratum == s0,
                e0 < usize::MAX,
            ensures
                0 <= k <= len,
                found ==> k < len && ready_at(q, s0, k) && cur == rotate(s0, k, len) && epoch == e0
                    + (if s0 + k < len { 0int } else { 1int }),
                !found ==> k == len && cur == s0 && epoch == e0 + 1,
                forall|j: int| 0 <= j < k ==> !#[trigger] ready_at(q, s0, j),
            decreases len - k,
        {
            if self.stratum_queues[cur].len() > 0 {
                assert(ready_at(q, s0, k));
                found = true;
                break;
            }
            assert(!ready_at(q, s0, k));
            cur = cur + 1;
            if cur >= n {
                cur = 0;
                epoch = epoch + 1;
            }
            proof {
                k = k + 1;
            }
            if old_stratum == cur {
                assert(k == len);
                break;
            }
        }
        self.current_stratum = cur;
        self.current_epoch = epoch;
        found
    }

    /// Handles `events`, then goes to the next stratum that has work, possibly the current
    /// one, counting an epoch each time it wraps past the last stratum. Returns `false` if no
    /// stratum has work, after one full round.
    pub fn next_stratum(&mut self, events: Vec<SubgraphId>, subgraphs: &mut Vec<SubgraphData>) -> (r: bool)
        requires
            ids_in_range(events@, old(subgraphs)@.len() as int),
            strata_bounded(old(subgraphs)@),
            old(self).stratum() < old(self).queues().len(),
            old(self).epoch() < usize::MAX,
        ensures
            ({
                let (sgs, q, _) = schedule_all(old(subgraphs)@, old(self).queues(), events@);
                let s0 = old(self).stratum() as int;
                let len = q.len() as int;
                &&& final(subgraphs)@ == sgs
                &&& final(self).queues() == q
                &&& r == exists|k: int| 0 <= k < len && #[trigger] ready_at(q, s0, k)
                &&& r ==> exists|k: int|
                    0 <= k < len && #[trigger] ready_at(q, s0, k) && (forall|j: int|
                        0 <= j < k ==> !#[trigger] ready_at(q, s0, j)) && final(self).stratum()
                        == rotate(s0, k, len) && final(self).epoch() == old(self).epoch() + (if s0
                        + k < len {
                        0int
                    } else {
                        1int
                    })
                &&& !r ==> final(self).stratum() == s0 && final(self).epoch() == old(self).epoch()
                    + 1
            }),
    {
        self.try_recv_events(events, subgraphs);
        proof {
            lemma_schedule_all_len(old(subgraphs)@, old(self).queues(), events@);
        }
        self.advance_to_ready()
    }

    /// Pops the front of the current stratum's queue, or `None` if it is empty.
    pub fn pop_current_stratum(&mut self) -> (r: Option<SubgraphId>)
        requires
            old(self).stratum() < old(self).queues().len(),
        ensures
            ({
                let q = old(self).queues()[old(self).stratum() as int];
                if q.len() > 0 {
                    &&& r == Some(q[0])
                    &&& final(self).queues() == old(self).queues().update(
                        old(self).stratum() as int,
                        q.drop_first(),
                    )
                } else {
                    &&& r is None
                    &&& final(self).queues() == old(self).queues()
                }
            }),
            final(self).epoch() == old(self).epoch(),
            final(self).stratum() == old(self).stratum(),
    {
        let s = self.current_stratum;
        let ghost q = self.queues();
        let r = self.stratum_queues[s].pop_front();
        proof {
            if q[s as int].len() > 0 {
                assert(self.queues() =~= q.update(s as int, q[s as int].drop_first()));
            } else {
                assert(self.queues() =~= q);
            }
        }
        r
    }
}

/// With well-formed queues, a subgraph is flagged as scheduled exactly when some stratum
/// queue holds it.
pub proof fn lemma_scheduled_iff_queued(sgs: Seq<SubgraphData>, queues: Seq<Seq<SubgraphId>>, i: usize)
    requires
        queues_wf(sgs, queues),
        i < sgs.len(),
    ensures
        sgs[i as int].is_scheduled <==> exists|s: int| 0 <= s < queues.len() && #[trigger] queues[s].contains(SubgraphId(i)),
{
    if exists|s: int| 0 <= s < queues.len() && #[trigger] queues[s].contains(SubgraphId(i)) {
        let s = choose|s: int| 0 <= s < queues.len() && #[trigger] queues[s].contains(SubgraphId(i));
        let k = choose|k: int| 0 <= k < queues[s].len() && queues[s][k] == SubgraphId(i);
        assert(queues[s][k] == SubgraphId(i));
    }
    if sgs[i as int].is_scheduled {
        assert(queues[sgs[i as int].stratum as int].contains(SubgraphId(i)));
    }
}

/// When no stratum has work, counted from any starting stratum, every queue is empty.
pub proof fn lemma_none_ready_means_idle(q: Seq<Seq<SubgraphId>>, s0: int)
    requires
        0 <= s0 < q.len(),
        forall|k: int| 0 <= k < q.len() ==> !#[trigger] ready_at(q, s0, k),
    ensures
        forall|s: int| 0 <= s < q.len() ==> (#[trigger] q[s]).len() == 0,
{
    assert forall|s: int| 0 <= s < q.len() implies (#[trigger] q[s]).len() == 0 by {
        let k = if s >= s0 { s - s0 } else { s + q.len() - s0 };
        assert(rotate(s0, k, q.len() as int) == s);
        assert(!ready_at(q, s0, k));
    }
}

/// How many of `ports` name handoff `h`.
pub open spec fn port_count(ports: Seq<HandoffId>, h: int) -> nat
    decreases ports.len(),
{
    if ports.len() == 0 {
        0
    } else {
        port_count(ports.drop_last(), h) + (if ports.last().0 == h { 1nat } else { 0nat })
    }
}

/// The successors of the non-bottom handoffs among `hids`, in order.
pub open spec fn ready_targets<H: Handoff>(hs: Seq<HandoffData<H>>, hids: Seq<HandoffId>) -> Seq<SubgraphId>
    decreases hids.len(),
{
    if hids.len() == 0 {
        Seq::empty()
    } else {
        let rest = ready_targets(hs, hids.drop_last());
        let h = hs[hids.last().0 as int];
        if H::state_is_bottom(h.state) {
            rest
        } else {
            rest + h.succs@
        }
    }
}

/// The graph's wiring is consistent: every id names an existing subgraph or handoff, and a
/// handoff lists a subgraph as successor (predecessor) exactly when the subgraph lists the
/// handoff as input (output).
pub open spec fn structure_wf<H: Handoff>(sgs: Seq<SubgraphData>, hs: Seq<HandoffData<H>>) -> bool {
    &&& forall|i: int, k: int|
        0 <= i < sgs.len() && 0 <= k < sgs[i].preds@.len() ==> (#[trigger] sgs[i].preds@[k]).0 < hs.len()
    &&& forall|i: int, k: int|
        0 <= i < sgs.len() && 0 <= k < sgs[i].succs@.len() ==> (#[trigger] sgs[i].succs@[k]).0 < hs.len()
    &&& forall|h: int, k: int|
        0 <= h < hs.len() && 0 <= k < hs[h].preds@.len() ==> (#[trigger] hs[h].preds@[k]).0 < sgs.len()
    &&& forall|h: int, k: int|
        0 <= h < hs.len() && 0 <= k < hs[h].succs@.len() ==> (#[trigger] hs[h].succs@[k]).0 < sgs.len()
    &&& forall|h: usize, i: usize|
        h < hs.len() && i < sgs.len() ==> (#[trigger] hs[h as int].succs@.contains(SubgraphId(i))
            <==> #[trigger] sgs[i as int].preds@.contains(HandoffId(h)))
    &&& forall|h: usize, i: usize|
        h < hs.len() && i < sgs.len() ==> (#[trigger] hs[h as int].preds@.contains(SubgraphId(i))
            <==> #[trigger] sgs[i as int].succs@.contains(HandoffId(h)))
}

/// Changing only scheduled flags keeps the wiring consistent and the strata bounded.
pub proof fn lemma_same_shape_keeps_structure<H: Handoff>(
    a: Seq<SubgraphData>,
    b: Seq<SubgraphData>,
    hs: Seq<HandoffData<H>>,
)
    requires
        same_shape(a, b),
        structure_wf(a, hs),
        strata_bounded(a),
    ensures
        structure_wf(b, hs),
        strata_bounded(b),
{
    assert forall|i: int| 0 <= i < b.len() implies (#[trigger] b[i]).preds == a[i].preds && b[i].succs
        == a[i].succs && b[i].stratum == a[i].stratum && b[i].name == a[i].name by {
        assert(b[i] == flagged(a[i], b[i].is_scheduled));
    }
}

/// A port list names handoff `id` exactly when it counts it at least once.
pub proof fn lemma_port_count_contains(ports: Seq<HandoffId>, id: HandoffId)
    ensures
        (port_count(ports, id.0 as int) > 0) == ports.contains(id),
    decreases ports.len(),
{
    if ports.len() > 0 {
        let rest = ports.drop_last();
        lemma_port_count_contains(rest, id);
        if rest.contains(id) {
            let k = choose|k: int| 0 <= k < rest.len() && rest[k] == id;
            assert(ports[k] == id);
        }
        if ports.contains(id) && ports.last() != id {
            let k = choose|k: int| 0 <= k < ports.len() && ports[k] == id;
            assert(k < ports.len() - 1);
            assert(rest[k] == id);
        }
        if ports.last() == id {
            assert(ports[ports.len() - 1] == id);
        }
    }
}

/// The handoff ids of receive ports.
pub open spec fn recv_ids<H: Handoff>(ports: Seq<RecvPort<H>>) -> Seq<HandoffId> {
    ports.map_values(|p: RecvPort<H>| p.handoff_id)
}

/// The handoff ids of send ports.
pub open spec fn send_ids<H: Handoff>(ports: Seq<SendPort<H>>) -> Seq<HandoffId> {
    ports.map_values(|p: SendPort<H>| p.handoff_id)
}

/// Every handoff id is below `n`.
pub open spec fn hids_in_range(ids: Seq<HandoffId>, n: int) -> bool {
    forall|i: int| 0 <= i < ids.len() ==> (#[trigger] ids[i]).0 < n
}

/// `n` copies of `id`.
pub open spec fn copies(n: nat, id: SubgraphId) -> Seq<SubgraphId> {
    Seq::new(n, |_j: int| id)
}

/// Handoff `h` of `after` is handoff `h` of `before` with `sg` added to its successors once
/// for each receive port naming it, and to its predecessors once for each send port naming it.
pub open spec fn attached<H: Handoff>(
    before: HandoffData<H>,
    after: HandoffData<H>,
    h: int,
    recv: Seq<HandoffId>,
    send: Seq<HandoffId>,
    sg: SubgraphId,
) -> bool {
    &&& after.name == before.name
    &&& after.state == before.state
    &&& after.succs@ == before.succs@ + copies(port_count(recv, h), sg)
    &&& after.preds@ == before.preds@ + copies(port_count(send, h), sg)
}

proof fn lemma_copies_push(n: nat, id: SubgraphId, s: Seq<SubgraphId>)
    ensures
        (s + copies(n, id)).push(id) == s + copies(n + 1, id),
{
    assert((s + copies(n, id)).push(id) =~= s + copies(n + 1, id));
}

proof fn lemma_copies_contains(n: nat, id: SubgraphId, s: Seq<SubgraphId>, x: SubgraphId)
    ensures
        (s + copies(n, id)).contains(x) == (s.contains(x) || (n > 0 && x == id)),
{
    let t = s + copies(n, id);
    if t.contains(x) {
        let k = choose|k: int| 0 <= k < t.len() && t[k] == x;
        if k < s.len() {
            assert(s[k] == x);
        }
    }
    if s.contains(x) {
        let k = choose|k: int| 0 <= k < s.len() && s[k] == x;
        assert(t[k] == x);
    }
    if n > 0 && x == id {
        assert(t[s.len() as int] == x);
    }
}

/// The sending end of an edge.
pub struct SendPort<H: Handoff> {
    /// The handoff written to.
    pub handoff_id: HandoffId,
    /// Ties the port to its handoff type.
    pub _marker: PhantomData<H>,
}

/// The receiving end of an edge.
pub struct RecvPort<H: Handoff> {
    /// The handoff read from.
    pub handoff_id: HandoffId,
    /// Ties the port to its handoff type.
    pub _marker: PhantomData<H>,
}

/// A dataflow graph: its subgraphs, handoffs and scheduler.
pub struct Hydroflow<H: Handoff> {
    subgraphs: Vec<SubgraphData>,
    handoffs: Vec<HandoffData<H>>,
    scheduler: Scheduler,
    subgraph_id: SubgraphId,
}

impl<H: Handoff> Hydroflow<H> {
    /// The subgraphs, by id.
    pub closed spec fn subgraphs_view(&self) -> Seq<SubgraphData> {
        self.subgraphs@
    }

    /// The handoffs, by id.
    pub closed spec fn handoffs_view(&self) -> Seq<HandoffData<H>> {
        self.handoffs@
    }

    /// The scheduler's queue of each stratum.
    pub closed spec fn queues(&self) -> Seq<Seq<SubgraphId>> {
        self.scheduler.queues()
    }

    /// The scheduler's epoch count.
    pub closed spec fn scheduler_epoch(&self) -> usize {
        self.scheduler.epoch()
    }

    /// The stratum the scheduler is on.
    pub closed spec fn scheduler_stratum(&self) -> usize {
        self.scheduler.stratum()
    }

    /// The subgraph last taken to run.
    pub closed spec fn context_subgraph(&self) -> SubgraphId {
        self.subgraph_id
    }

    /// The graph's invariant: consistent wiring, bounded strata, a current stratum that
    /// exists, and queues that agree with the scheduled flags.
    pub open spec fn wf(&self) -> bool {
        &&& structure_wf(self.subgraphs_view(), self.handoffs_view())
        &&& strata_bounded(self.subgraphs_view())
        &&& self.scheduler_stratum() < self.queues().len()
        &&& queues_wf(self.subgraphs_view(), self.queues())
    }

    /// A new empty graph.
    pub fn new() -> (r: Self)
        ensures
            r.wf(),
            r.subgraphs_view().len() == 0,
            r.handoffs_view().len() == 0,
            r.queues() == seq![Seq::<SubgraphId>::empty()],
            r.scheduler_epoch() == 0,
            r.scheduler_stratum() == 0,
            r.context_subgraph() == SubgraphId(0),
    {
        Hydroflow {
            subgraphs: Vec::new(),
            handoffs: Vec::new(),
            scheduler: Scheduler::new(),
            subgraph_id: SubgraphId(0),
        }
    }

    /// The current epoch (local time) count.
    pub fn current_epoch(&self) -> (r: usize)
        ensures
            r == self.scheduler_epoch(),
    {
        self.scheduler.current_epoch
    }

    /// The current stratum number.
    pub fn current_stratum(&self) -> (r: usize)
        ensures
            r == self.scheduler_stratum(),
    {
        self.scheduler.current_stratum
    }

    /// The subgraphs, by id.
    pub fn subgraphs(&self) -> (r: &Vec<SubgraphData>)
        ensures
            r@ == self.subgraphs_view(),
    {
        &self.subgraphs
    }

    /// The handoffs, by id.
    pub fn handoffs(&self) -> (r: &Vec<HandoffData<H>>)
        ensures
            r@ == self.handoffs_view(),
    {
        &self.handoffs
    }

    /// Creates a handoff edge with an empty state and returns its send and receive ports.
    pub fn make_edge(&mut self, name: String) -> (r: (SendPort<H>, RecvPort<H>))
        requires
            old(self).wf(),
        ensures
            final(self).wf(),
            r.0.handoff_id == HandoffId(old(self).handoffs_view().len() as usize),
            r.1.handoff_id == HandoffId(old(self).handoffs_view().len() as usize),
            final(self).handoffs_view().len() == old(self).handoffs_view().len() + 1,
            final(self).handoffs_view().drop_last() == old(self).handoffs_view(),
            final(self).handoffs_view().last().name == name,
            H::state_is_bottom(final(self).handoffs_view().last().state),
            final(self).handoffs_view().last().preds@.len() == 0,
            final(self).handoffs_view().last().succs@.len() == 0,
            final(self).subgraphs_view() == old(self).subgraphs_view(),
            final(self).queues() == old(self).queues(),
            final(self).scheduler_epoch() == old(self).scheduler_epoch(),
            final(self).scheduler_stratum() == old(self).scheduler_stratum(),
            final(self).context_subgraph() == old(self).context_subgraph(),
    {
        let handoff_id = HandoffId(self.handoffs.len());
        let ghost hs = self.handoffs@;
        let ghost sgs = self.subgraphs@;
        self.handoffs.push(HandoffData::new(name, H::default_state()));
        proof {
            let n = hs.len() as int;
            let hs2 = self.handoffs@;
            assert(hs2.drop_last() =~= hs);
            assert forall|h: usize, i: usize| h < hs2.len() && i < sgs.len() implies (
                #[trigger] hs2[h as int].succs@.contains(SubgraphId(i))
                    <==> #[trigger] sgs[i as int].preds@.contains(HandoffId(h))) by {
                if h == n {
                    if sgs[i as int].preds@.contains(HandoffId(h)) {
                        let k = choose|k: int| 0 <= k < sgs[i as int].preds@.len() && sgs[i as int].preds@[k] == HandoffId(h);
                        assert(sgs[i as int].preds@[k].0 < n);
                    }
                } else {
                    assert(hs2[h as int] == hs[h as int]);
                }
            }
            assert forall|h: usize, i: usize| h < hs2.len() && i < sgs.len() implies (
                #[trigger] hs2[h as int].preds@.contains(SubgraphId(i))
                    <==> #[trigger] sgs[i as int].succs@.contains(HandoffId(h))) by {
                if h == n {
                    if sgs[i as int].succs@.contains(HandoffId(h)) {
                        let k = choose|k: int| 0 <= k < sgs[i as int].succs@.len() && sgs[i as int].succs@[k] == HandoffId(h);
                        assert(sgs[i as int].succs@[k].0 < n);
                    }
                } else {
                    assert(hs2[h as int] == hs[h as int]);
                }
            }
            assert forall|h: int, k: int| 0 <= h < hs2.len() && 0 <= k < hs2[h].preds@.len() implies
                (#[trigger] hs2[h].preds@[k]).0 < sgs.len() by {
                assert(h < n);
                assert(hs2[h] == hs[h]);
            }
            assert forall|h: int, k: int| 0 <= h < hs2.len() && 0 <= k < hs2[h].succs@.len() implies
                (#[trigger] hs2[h].succs@[k]).0 < sgs.len() by {
                assert(h < n);
                assert(hs2[h] == hs[h]);
            }
        }
        (
            SendPort { handoff_id, _marker: PhantomData },
            RecvPort { handoff_id, _marker: PhantomData },
        )
    }

    /// Adds a subgraph in stratum `stratum` that receives from `recv_ports` and sends into
    /// `send_ports`, and schedules it: it is appended to its stratum's queue, which is created
    /// if needed.
    pub fn add_subgraph_stratified_n_m(
        &mut self,
        name: String,
        stratum: usize,
        recv_ports: Vec<RecvPort<H>>,
        send_ports: Vec<SendPort<H>>,
    ) -> (r: SubgraphId)
        requires
            old(self).wf(),
            stratum < usize::MAX,
            hids_in_range(recv_ids(recv_ports@), old(self).handoffs_view().len() as int),
            hids_in_range(send_ids(send_ports@), old(self).handoffs_view().len() as int),
        ensures
            final(self).wf(),
            r == SubgraphId(old(self).subgraphs_view().len() as usize),
            final(self).subgraphs_view().len() == old(self).subgraphs_view().len() + 1,
            final(self).subgraphs_view().drop_last() == old(self).subgraphs_view(),
            final(self).subgraphs_view().last().name == name,
            final(self).subgraphs_view().last().stratum == stratum,
            final(self).subgraphs_view().last().preds@ == recv_ids(recv_ports@),
            final(self).subgraphs_view().last().succs@ == send_ids(send_ports@),
            final(self).subgraphs_view().last().is_scheduled,
            final(self).handoffs_view().len() == old(self).handoffs_view().len(),
            forall|h: int|
                0 <= h < old(self).handoffs_view().len() ==> #[trigger] attached(
                    old(self).handoffs_view()[h],
                    final(self).handoffs_view()[h],
                    h,
                    recv_ids(recv_ports@),
                    send_ids(send_ports@),
                    r,
                ),
            final(self).queues() == with_stratum(old(self).queues(), stratum as int).update(
                stratum as int,
                with_stratum(old(self).queues(), stratum as int)[stratum as int].push(r),
            ),
            final(self).scheduler_epoch() == old(self).scheduler_epoch(),
            final(self).scheduler_stratum() == old(self).scheduler_stratum(),
            final(self).context_subgraph() == old(self).context_subgraph(),
    {
        let sg_id = SubgraphId(self.subgraphs.len());
        let ghost hs0 = self.handoffs@;
        let ghost sgs0 = self.subgraphs@;
        let ghost rids = recv_ids(recv_ports@);
        let ghost sids = send_ids(send_ports@);
        let mut preds: Vec<HandoffId> = Vec::new();
        let mut i: usize = 0;
        while i < recv_ports.len()
            invariant
                i <= recv_ports@.len(),
                rids == recv_ids(recv_ports@),
                hids_in_range(rids, hs0.len() as int),
                preds@ == rids.take(i as int),
                self.handoffs@.len() == hs0.len(),
                self.subgraphs@ == sgs0,
                sg_id.0 == sgs0.len(),
                self.scheduler == old(self).scheduler,
                self.subgraph_id == old(self).subgraph_id,
                forall|h: int|
                    0 <= h < hs0.len() ==> #[trigger] attached(
                        hs0[h],
                        self.handoffs@[h],
                        h,
                        rids.take(i as int),
                        Seq::<HandoffId>::empty(),
                        sg_id,
                    ),
            decreases recv_ports@.len() - i,
        {
            let hid = recv_ports[i].handoff_id;
            assert(rids[i as int] == hid);
            assert(hid.0 < hs0.len());
            let ghost before = self.handoffs@;
            self.handoffs[hid.0].succs.push(sg_id);
            preds.push(hid);
            proof {
                assert(rids.take(i + 1).drop_last() == rids.take(i as int));
                assert(rids.take(i + 1).last() == hid);
                assert(preds@ =~= rids.take(i + 1));
                assert forall|h: int| 0 <= h < hs0.len() implies #[trigger] attached(
                    hs0[h],
                    self.handoffs@[h],
                    h,
                    rids.take(i + 1),
                    Seq::<HandoffId>::empty(),
                    sg_id,
                ) by {
                    assert(attached(hs0[h], before[h], h, rids.take(i as int), Seq::<HandoffId>::empty(), sg_id));
                    if h == hid.0 {
                        lemma_copies_push(port_count(rids.take(i as int), h), sg_id, hs0[h].succs@);
                    }
                }
            }
            i = i + 1;
        }
        assert(rids.take(rids.len() as int) == rids);
        assert(sids.take(0) =~= Seq::<HandoffId>::empty());
        assert forall|h: int| 0 <= h < hs0.len() implies #[trigger] attached(
            hs0[h],
            self.handoffs@[h],
            h,
            rids,
            sids.take(0),
            sg_id,
        ) by {
            assert(attached(hs0[h], self.handoffs@[h], h, rids.take(rids.len() as int), Seq::<HandoffId>::empty(), sg_id));
        }
        let mut succs: Vec<HandoffId> = Vec::new();
        let mut i: usize = 0;
        while i < send_ports.len()
            invariant
                i <= send_ports@.len(),
                sids == send_ids(send_ports@),
                hids_in_range(sids, hs0.len() as int),
                succs@ == sids.take(i as int),
                self.handoffs@.len() == hs0.len(),
                self.subgraphs@ == sgs0,
                sg_id.0 == sgs0.len(),
                self.scheduler == old(self).scheduler,
                self.subgraph_id == old(self).subgraph_id,
                forall|h: int|
                    0 <= h < hs0.len() ==> #[trigger] attached(
                        hs0[h],
                        self.handoffs@[h],
                        h,
                        rids,
                        sids.take(i as int),
                        sg_id,
                    ),
            decreases send_ports@.len() - i,
        {
            let hid = send_ports[i].handoff_id;
            assert(sids[i as int] == hid);
            assert(hid.0 < hs0.len());
            let ghost before = self.handoffs@;
            self.handoffs[hid.0].preds.push(sg_id);
            succs.push(hid);
            proof {
                assert(sids.take(i + 1).drop_last() == sids.take(i as int));
                assert(sids.take(i + 1).last() == hid);
                assert(succs@ =~= sids.take(i + 1));
                assert forall|h: int| 0 <= h < hs0.len() implies #[trigger] attached(
                    hs0[h],
                    self.handoffs@[h],
                    h,
                    rids,
                    sids.take(i + 1),
                    sg_id,
                ) by {
                    assert(attached(hs0[h], before[h], h, rids, sids.take(i as int), sg_id));
                    if h == hid.0 {
                        lemma_copies_push(port_count(sids.take(i as int), h), sg_id, hs0[h].preds@);
                    }
                }
            }
            i = i + 1;
        }
        assert(sids.take(sids.len() as int) == sids);
        self.subgraphs.push(SubgraphData::new(name, stratum, preds, succs, false));
        proof {
            assert(self.subgraphs@.drop_last() =~= sgs0);
            self.lemma_added_subgraph_wf(sgs0, hs0, sg_id, rids, sids);
            lemma_schedule_step(self.subgraphs@, self.scheduler.queues(), sg_id);
            lemma_same_shape_keeps_structure(
                self.subgraphs@,
                schedule_step(self.subgraphs@, self.scheduler.queues(), sg_id).0,
                self.handoffs@,
            );
        }
        let ghost before = self.subgraphs@;
        self.scheduler.schedule(sg_id, &mut self.subgraphs);
        proof {
            assert(self.subgraphs@ == before.update(sg_id.0 as int, flagged(before[sg_id.0 as int], true)));
            assert(self.subgraphs@.drop_last() =~= sgs0);
        }
        sg_id
    }

    proof fn lemma_added_subgraph_wf(
        &self,
        sgs0: Seq<SubgraphData>,
        hs0: Seq<HandoffData<H>>,
        sg_id: SubgraphId,
        rids: Seq<HandoffId>,
        sids: Seq<HandoffId>,
    )
        requires
            structure_wf(sgs0, hs0),
            strata_bounded(sgs0),
            queues_wf(sgs0, self.queues()),
            sg_id.0 == sgs0.len(),
            hids_in_range(rids, hs0.len() as int),
            hids_in_range(sids, hs0.len() as int),
            self.subgraphs@.len() == sgs0.len() + 1,
            self.subgraphs@.drop_last() == sgs0,
            self.subgraphs@.last().preds@ == rids,
            self.subgraphs@.last().succs@ == sids,
            !self.subgraphs@.last().is_scheduled,
            self.subgraphs@.last().stratum < usize::MAX,
            self.handoffs@.len() == hs0.len(),
            forall|h: int| 0 <= h < hs0.len() ==> #[trigger] attached(hs0[h], self.handoffs@[h], h, rids, sids, sg_id),
        ensures
            structure_wf(self.subgraphs@, self.handoffs@),
            strata_bounded(self.subgraphs@),
            queues_wf(self.subgraphs@, self.queues()),
    {
        let sgs = self.subgraphs@;
        let hs = self.handoffs@;
        let n = sgs0.len() as int;
        assert forall|i: int| 0 <= i < n implies #[trigger] sgs[i] == sgs0[i] by {
            assert(sgs.drop_last()[i] == sgs[i]);
        }
        assert forall|h: int, k: int| 0 <= h < hs.len() && 0 <= k < hs[h].succs@.len() implies
            (#[trigger] hs[h].succs@[k]).0 < sgs.len() by {
            assert(attached(hs0[h], hs[h], h, rids, sids, sg_id));
            if k < hs0[h].succs@.len() {
                assert(hs[h].succs@[k] == hs0[h].succs@[k]);
            }
        }
        assert forall|h: int, k: int| 0 <= h < hs.len() && 0 <= k < hs[h].preds@.len() implies
            (#[trigger] hs[h].preds@[k]).0 < sgs.len() by {
            assert(attached(hs0[h as int], hs[h as int], h as int, rids, sids, sg_id));
            if k < hs0[h as int].preds@.len() {
                assert(hs[h].preds@[k] == hs0[h as int].preds@[k]);
            }
        }
        assert forall|h: usize, i: usize| h < hs.len() && i < sgs.len() implies (
            #[trigger] hs[h as int].succs@.contains(SubgraphId(i))
                <==> #[trigger] sgs[i as int].preds@.contains(HandoffId(h))) by {
            assert(attached(hs0[h as int], hs[h as int], h as int, rids, sids, sg_id));
            lemma_copies_contains(port_count(rids, h as int), sg_id, hs0[h as int].succs@, SubgraphId(i));
            if i == n {
                lemma_port_count_contains(rids, HandoffId(h));
                if hs0[h as int].succs@.contains(SubgraphId(i)) {
                    let k = choose|k: int| 0 <= k < hs0[h as int].succs@.len() && hs0[h as int].succs@[k] == SubgraphId(i);
                    assert(hs0[h as int].succs@[k].0 < n);
                }
            }
        }
        assert forall|h: usize, i: usize| h < hs.len() && i < sgs.len() implies (
            #[trigger] hs[h as int].preds@.contains(SubgraphId(i))
                <==> #[trigger] sgs[i as int].succs@.contains(HandoffId(h))) by {
            assert(attached(hs0[h as int], hs[h as int], h as int, rids, sids, sg_id));
            lemma_copies_contains(port_count(sids, h as int), sg_id, hs0[h as int].preds@, SubgraphId(i));
            if i == n {
                lemma_port_count_contains(sids, HandoffId(h));
                if hs0[h as int].preds@.contains(SubgraphId(i)) {
                    let k = choose|k: int| 0 <= k < hs0[h as int].preds@.len() && hs0[h as int].preds@[k] == SubgraphId(i);
                    assert(hs0[h as int].preds@[k].0 < n);
                }
            }
        }
        assert forall|i: int, k: int| 0 <= i < sgs.len() && 0 <= k < sgs[i].preds@.len() implies
            (#[trigger] sgs[i].preds@[k]).0 < hs.len() by {
            if i == n {
                assert(rids[k].0 < hs0.len());
            }
        }
        assert forall|i: int, k: int| 0 <= i < sgs.len() && 0 <= k < sgs[i].succs@.len() implies
            (#[trigger] sgs[i].succs@[k]).0 < hs.len() by {
            if i == n {
                assert(sids[k].0 < hs0.len());
            }
        }
        let q = self.queues();
        assert forall|i: usize| i < sgs.len() && (#[trigger] sgs[i as int]).is_scheduled implies {
            &&& sgs[i as int].stratum < q.len()
            &&& q[sgs[i as int].stratum as int].contains(SubgraphId(i))
        } by {
            assert(i < n);
            assert(sgs[i as int] == sgs0[i as int]);
        }
    }

    /// Adds a subgraph in stratum 0; see [`Self::add_subgraph_stratified_n_m`].
    pub fn add_subgraph_n_m(
        &mut self,
        name: String,
        recv_ports: Vec<RecvPort<H>>,
        send_ports: Vec<SendPort<H>>,
    ) -> (r: SubgraphId)
        requires
            old(self).wf(),
            hids_in_range(recv_ids(recv_ports@), old(self).handoffs_view().len() as int),
            hids_in_range(send_ids(send_ports@), old(self).handoffs_view().len() as int),
        ensures
            final(self).wf(),
            r == SubgraphId(old(self).subgraphs_view().len() as usize),
            final(self).subgraphs_view().len() == old(self).subgraphs_view().len() + 1,
            final(self).subgraphs_view().drop_last() == old(self).subgraphs_view(),
            final(self).subgraphs_view().last().name == name,
            final(self).subgraphs_view().last().stratum == 0,
            final(self).subgraphs_view().last().preds@ == recv_ids(recv_ports@),
            final(self).subgraphs_view().last().succs@ == send_ids(send_ports@),
            final(self).subgraphs_view().last().is_scheduled,
            final(self).handoffs_view().len() == old(self).handoffs_view().len(),
            forall|h: int|
                0 <= h < old(self).handoffs_view().len() ==> #[trigger] attached(
                    old(self).handoffs_view()[h],
                    final(self).handoffs_view()[h],
                    h,
                    recv_ids(recv_ports@),
                    send_ids(send_ports@),
                    r,
                ),
            final(self).queues() == old(self).queues().update(0, old(self).queues()[0].push(r)),
            final(self).scheduler_epoch() == old(self).scheduler_epoch(),
            final(self).scheduler_stratum() == old(self).scheduler_stratum(),
            final(self).context_subgraph() == old(self).context_subgraph(),
    {
        let r = self.add_subgraph_stratified_n_m(name, 0, recv_ports, send_ports);
        assert(with_stratum(old(self).queues(), 0) == old(self).queues());
        r
    }

    /// Schedules `sg_id` unless it is already scheduled; returns whether it was newly
    /// scheduled.
    pub fn schedule(&mut self, sg_id: SubgraphId) -> (r: bool)
        requires
            old(self).wf(),
            sg_id.0 < old(self).subgraphs_view().len(),
        ensures
            final(self).wf(),
            (final(self).subgraphs_view(), final(self).queues(), r) == schedule_step(
                old(self).subgraphs_view(),
                old(self).queues(),
                sg_id,
            ),
            final(self).handoffs_view() == old(self).handoffs_view(),
            final(self).scheduler_epoch() == old(self).scheduler_epoch(),
            final(self).scheduler_stratum() == old(self).scheduler_stratum(),
            final(self).context_subgraph() == old(self).context_subgraph(),
    {
        proof {
            lemma_schedule_step(self.subgraphs@, self.scheduler.queues(), sg_id);
            lemma_same_shape_keeps_structure(
                self.subgraphs@,
                schedule_step(self.subgraphs@, self.scheduler.queues(), sg_id).0,
                self.handoffs@,
            );
        }
        self.scheduler.schedule(sg_id, &mut self.subgraphs)
    }

    /// Schedules the subgraphs of external `events`, in order; returns how many were newly
    /// scheduled.
    pub fn try_recv_events(&mut self, events: Vec<SubgraphId>) -> (r: usize)
        requires
            old(self).wf(),
            ids_in_range(events@, old(self).subgraphs_view().len() as int),
        ensures
            final(self).wf(),
            (final(self).subgraphs_view(), final(self).queues(), r as nat) == schedule_all(
                old(self).subgraphs_view(),
                old(self).queues(),
                events@,
            ),
            final(self).handoffs_view() == old(self).handoffs_view(),
            final(self).scheduler_epoch() == old(self).scheduler_epoch(),
            final(self).scheduler_stratum() == old(self).scheduler_stratum(),
            final(self).context_subgraph() == old(self).context_subgraph(),
    {
        proof {
            lemma_schedule_all(self.subgraphs@, self.scheduler.queues(), events@);
            lemma_same_shape_keeps_structure(
                self.subgraphs@,
                schedule_all(self.subgraphs@, self.scheduler.queues(), events@).0,
                self.handoffs@,
            );
        }
        self.scheduler.try_recv_events(events, &mut self.subgraphs)
    }

    /// Schedules the subgraphs of external `events`, then moves the scheduler to the next
    /// stratum that has work (see [`Scheduler::next_stratum`]). Returns whether any stratum
    /// has work.
    pub fn next_stratum(&mut self, events: Vec<SubgraphId>) -> (r: bool)
        requires
            old(self).wf(),
            ids_in_range(events@, old(self).subgraphs_view().len() as int),
            old(self).scheduler_epoch() < usize::MAX,
        ensures
            final(self).wf(),
            ({
                let (sgs, q, _) = schedule_all(old(self).subgraphs_view(), old(self).queues(), events@);
                let s0 = old(self).scheduler_stratum() as int;
                let len = q.len() as int;
                &&& final(self).subgraphs_view() == sgs
                &&& final(self).queues() == q
                &&& r == exists|k: int| 0 <= k < len && #[trigger] ready_at(q, s0, k)
                &&& r ==> exists|k: int|
                    0 <= k < len && #[trigger] ready_at(q, s0, k) && (forall|j: int|
                        0 <= j < k ==> !#[trigger] ready_at(q, s0, j)) && final(self).scheduler_stratum()
                        == rotate(s0, k, len) && final(self).scheduler_epoch() == old(self).scheduler_epoch()
                        + (if s0 + k < len {
                        0int
                    } else {
                        1int
                    })
                &&& !r ==> final(self).scheduler_stratum() == s0 && final(self).scheduler_epoch()
                    == old(self).scheduler_epoch() + 1
            }),
            final(self).handoffs_view() == old(self).handoffs_view(),
            final(self).context_subgraph() == old(self).context_subgraph(),
    {
        proof {
            lemma_schedule_all(self.subgraphs@, self.scheduler.queues(), events@);
            lemma_same_shape_keeps_structure(
                self.subgraphs@,
                schedule_all(self.subgraphs@, self.scheduler.queues(), events@).0,
                self.handoffs@,
            );
        }
        self.scheduler.next_stratum(events, &mut self.subgraphs)
    }

    /// Takes the next subgraph of the current stratum to run, if any: removes it from its
    /// queue, clears its scheduled flag, and records it as the running subgraph.
    pub fn take_next_subgraph(&mut self) -> (r: Option<SubgraphId>)
        requires
            old(self).wf(),
        ensures
            final(self).wf(),
            final(self).handoffs_view() == old(self).handoffs_view(),
            final(self).scheduler_epoch() == old(self).scheduler_epoch(),
            final(self).scheduler_stratum() == old(self).scheduler_stratum(),
            ({
                let s = old(self).scheduler_stratum() as int;
                let q = old(self).queues()[s];
                if q.len() > 0 {
                    &&& r == Some(q[0])
                    &&& old(self).subgraphs_view()[q[0].0 as int].is_scheduled
                    &&& final(self).queues() == old(self).queues().update(s, q.drop_first())
                    &&& final(self).subgraphs_view() == old(self).subgraphs_view().update(
                        q[0].0 as int,
                        flagged(old(self).subgraphs_view()[q[0].0 as int], false),
                    )
                    &&& final(self).context_subgraph() == q[0]
                } else {
                    &&& r is None
                    &&& final(self).queues() == old(self).queues()
                    &&& final(self).subgraphs_view() == old(self).subgraphs_view()
                    &&& final(self).context_subgraph() == old(self).context_subgraph()
                }
            }),
    {
        let ghost q0 = self.scheduler.queues();
        let ghost sgs0 = self.subgraphs@;
        let r = self.scheduler.pop_current_stratum();
        match r {
            Some(sg_id) => {
                let ghost s = self.scheduler.stratum() as int;
                assert(q0[s][0] == sg_id);
                assert(sg_id.0 < sgs0.len());
                assert(self.subgraphs[sg_id.0 as int].is_scheduled);
                self.subgraphs[sg_id.0].is_scheduled = false;
                self.subgraph_id = sg_id;
                proof {
                    let sgs = self.subgraphs@;
                    let q = self.scheduler.queues();
                    assert(sgs =~= sgs0.update(sg_id.0 as int, flagged(sgs0[sg_id.0 as int], false)));
                    assert(same_shape(sgs0, sgs));
                    lemma_same_shape_keeps_structure(sgs0, sgs, self.handoffs@);
                    assert forall|t: int, i: int| 0 <= t < q.len() && 0 <= i < q[t].len() implies {
                        let id = #[trigger] q[t][i];
                        &&& id.0 < sgs.len()
                        &&& sgs[id.0 as int].stratum == t
                        &&& sgs[id.0 as int].is_scheduled
                    } by {
                        if t == s {
                            assert(q[t][i] == q0[t][i + 1]);
                            assert(q0[t][i + 1] != q0[t][0]);
                        } else {
                            assert(q[t][i] == q0[t][i]);
                            if q0[t][i] == sg_id {
                                assert(sgs0[sg_id.0 as int].stratum == s);
                            }
                        }
                    }
                    assert forall|t: int, i: int, j: int|
                        0 <= t < q.len() && 0 <= i < q[t].len() && 0 <= j < q[t].len() && i != j
                            implies #[trigger] q[t][i] != #[trigger] q[t][j] by {
                        if t == s {
                            assert(q[t][i] == q0[t][i + 1]);
                            assert(q[t][j] == q0[t][j + 1]);
                        } else {
                            assert(q[t][i] == q0[t][i]);
                            assert(q[t][j] == q0[t][j]);
                        }
                    }
                    assert forall|i: usize| i < sgs.len() && (#[trigger] sgs[i as int]).is_scheduled implies {
                        &&& sgs[i as int].stratum < q.len()
                        &&& q[sgs[i as int].stratum as int].contains(SubgraphId(i))
                    } by {
                        assert(i != sg_id.0);
                        assert(sgs[i as int] == sgs0[i as int]);
                        let t = sgs0[i as int].stratum as int;
                        let k = choose|k: int| 0 <= k < q0[t].len() && q0[t][k] == SubgraphId(i);
                        if t == s {
                            assert(k != 0);
                            assert(q[t][k - 1] == SubgraphId(i));
                        } else {
                            assert(q[t][k] == SubgraphId(i));
                        }
                    }
                }
            },
            None => {},
        }
        r
    }

    /// After subgraph `sg_id` has run, schedules the successors of each of its output
    /// handoffs that now holds data, in order.
    pub fn schedule_successors(&mut self, sg_id: SubgraphId)
        requires
            old(self).wf(),
            sg_id.0 < old(self).subgraphs_view().len(),
        ensures
            final(self).wf(),
            ({
                let targets = ready_targets(
                    old(self).handoffs_view(),
                    old(self).subgraphs_view()[sg_id.0 as int].succs@,
                );
                let (sgs, q, _) = schedule_all(old(self).subgraphs_view(), old(self).queues(), targets);
                &&& final(self).subgraphs_view() == sgs
                &&& final(self).queues() == q
            }),
            final(self).handoffs_view() == old(self).handoffs_view(),
            final(self).scheduler_epoch() == old(self).scheduler_epoch(),
            final(self).scheduler_stratum() == old(self).scheduler_stratum(),
            final(self).context_subgraph() == old(self).context_subgraph(),
    {
        let ghost sgs0 = self.subgraphs@;
        let ghost q0 = self.scheduler.queues();
        let ghost hs = self.handoffs@;
        let ghost outs = sgs0[sg_id.0 as int].succs@;
        let n = self.subgraphs[sg_id.0].succs.len();
        let mut i: usize = 0;
        while i < n
            invariant
                self.wf(),
                i <= n,
                n == outs.len(),
                sg_id.0 < sgs0.len(),
                self.handoffs@ == hs,
                same_shape(sgs0, self.subgraphs@),
                outs == sgs0[sg_id.0 as int].succs@,
                structure_wf(sgs0, hs),
                (self.subgraphs@, self.scheduler.queues()) == ({
                    let t = schedule_all(sgs0, q0, ready_targets(hs, outs.take(i as int)));
                    (t.0, t.1)
                }),
                self.scheduler.epoch() == old(self).scheduler.epoch(),
                self.scheduler.stratum() == old(self).scheduler.stratum(),
                self.subgraph_id == old(self).subgraph_id,
            decreases n - i,
        {
            assert(self.subgraphs@[sg_id.0 as int] == flagged(sgs0[sg_id.0 as int], self.subgraphs@[sg_id.0 as int].is_scheduled));
            let hid = self.subgraphs[sg_id.0].succs[i];
            assert(hid == outs[i as int]);
            assert(hid.0 < hs.len());
            let ghost pre = ready_targets(hs, outs.take(i as int));
            proof {
                assert(outs.take(i + 1).drop_last() == outs.take(i as int));
                assert(outs.take(i + 1).last() == hid);
            }
            if !H::is_bottom(&self.handoffs[hid.0].state) {
                let m = self.handoffs[hid.0].succs.len();
                let ghost succs = hs[hid.0 as int].succs@;
                let mut j: usize = 0;
                while j < m
                    invariant
                        self.wf(),
                        j <= m,
                        m == succs.len(),
                        hid.0 < hs.len(),
                        succs == hs[hid.0 as int].succs@,
                        self.handoffs@ == hs,
                        same_shape(sgs0, self.subgraphs@),
                        (self.subgraphs@, self.scheduler.queues()) == ({
                            let t = schedule_all(sgs0, q0, pre + succs.take(j as int));
                            (t.0, t.1)
                        }),
                        self.scheduler.epoch() == old(self).scheduler.epoch(),
                        self.scheduler.stratum() == old(self).scheduler.stratum(),
                        self.subgraph_id == old(self).subgraph_id,
                    decreases m - j,
                {
                    let target = self.handoffs[hid.0].succs[j];
                    assert(target == succs[j as int]);
                    assert(target.0 < self.subgraphs@.len());
                    proof {
                        let ev = pre + succs.take(j + 1);
                        assert(ev.drop_last() =~= pre + succs.take(j as int));
                        assert(ev.last() == target);
                        lemma_schedule_step(self.subgraphs@, self.scheduler.queues(), target);
                        lemma_same_shape_keeps_structure(
                            self.subgraphs@,
                            schedule_step(self.subgraphs@, self.scheduler.queues(), target).0,
                            self.handoffs@,
                        );
                        let s1 = schedule_step(self.subgraphs@, self.scheduler.queues(), target).0;
                        assert(same_shape(sgs0, s1)) by {
                            assert forall|k: int| 0 <= k < sgs0.len() implies (#[trigger] s1[k]) == flagged(sgs0[k], s1[k].is_scheduled) by {
                                assert(s1[k] == flagged(self.subgraphs@[k], s1[k].is_scheduled));
                                assert(self.subgraphs@[k] == flagged(sgs0[k], self.subgraphs@[k].is_scheduled));
                            }
                        }
                    }
                    self.scheduler.schedule(target, &mut self.subgraphs);
                    j = j + 1;
                }
                proof {
                    assert(succs.take(m as int) == succs);
                    assert(ready_targets(hs, outs.take(i + 1)) == pre + succs);
                }
            } else {
                assert(ready_targets(hs, outs.take(i + 1)) == pre);
            }
            i = i + 1;
        }
        assert(outs.take(n as int) == outs);
    }

    /// The state of handoff `hid`, for a running subgraph to read and write.
    pub fn handoff_state_mut(&mut self, hid: HandoffId) -> (r: &mut H::State)
        requires
            old(self).wf(),
            hid.0 < old(self).handoffs_view().len(),
        ensures
            *r == old(self).handoffs_view()[hid.0 as int].state,
            final(self).handoffs_view().len() == old(self).handoffs_view().len(),
            forall|h: int| 0 <= h < old(self).handoffs_view().len() && h != hid.0 ==> #[trigger] final(self).handoffs_view()[h] == old(self).handoffs_view()[h],
            final(self).handoffs_view()[hid.0 as int].state == *final(r),
            final(self).handoffs_view()[hid.0 as int].name == old(self).handoffs_view()[hid.0 as int].name,
            final(self).handoffs_view()[hid.0 as int].preds == old(self).handoffs_view()[hid.0 as int].preds,
            final(self).handoffs_view()[hid.0 as int].succs == old(self).handoffs_view()[hid.0 as int].succs,
            final(self).subgraphs_view() == old(self).subgraphs_view(),
            final(self).queues() == old(self).queues(),
            final(self).scheduler_epoch() == old(self).scheduler_epoch(),
            final(self).scheduler_stratum() == old(self).scheduler_stratum(),
            final(self).context_subgraph() == old(self).context_subgraph(),
    {
        &mut self.handoffs[hid.0].state
    }
}

} // verus!
