//! The dispatch queue: priority order with first-come tie-break, one running
//! request per tab, and a global bound on running requests.
use vstd::prelude::*;
use crate::types::{PromptId, PromptPriority, PromptStatus, QueuedPrompt, QueueStats, rank};

verus! {

/// Number of finished requests kept in the history.
pub const HISTORY_CAPACITY: usize = 100;

/// `a` is dispatched before `b`: higher priority first, then earlier creation,
/// then the order in which they were enqueued.
pub open spec fn ahead(a: QueuedPrompt, b: QueuedPrompt) -> bool {
    rank(a.priority) > rank(b.priority)
    || (rank(a.priority) == rank(b.priority) && a.created_at < b.created_at)
    || (rank(a.priority) == rank(b.priority) && a.created_at == b.created_at && a.id < b.id)
}

/// Some request of `running` belongs to `tab`.
pub open spec fn busy_in(running: Seq<QueuedPrompt>, tab: Seq<char>) -> bool {
    exists|k: int| 0 <= k < running.len() && running[k].tab_id@ == tab
}

/// Some request of `s` has id `id`.
pub open spec fn has_id(s: Seq<QueuedPrompt>, id: PromptId) -> bool {
    exists|k: int| 0 <= k < s.len() && s[k].id == id
}

/// `a` ranks strictly ahead of `b`: higher priority, or equal priority and
/// earlier creation.
pub open spec fn ranks_ahead(a: QueuedPrompt, b: QueuedPrompt) -> bool {
    rank(a.priority) > rank(b.priority) || (rank(a.priority) == rank(b.priority) && a.created_at < b.created_at)
}

/// How many requests of `s` rank strictly ahead of `t`.
pub open spec fn count_ahead(s: Seq<QueuedPrompt>, t: QueuedPrompt) -> nat
    decreases s.len(),
{
    if s.len() == 0 {
        0
    } else {
        count_ahead(s.drop_last(), t) + if ranks_ahead(s.last(), t) { 1nat } else { 0nat }
    }
}

/// Ids of `s` are pairwise distinct.
pub open spec fn ids_distinct(s: Seq<QueuedPrompt>) -> bool {
    forall|i: int, j: int| 0 <= i < s.len() && 0 <= j < s.len() && i != j ==> s[i].id != s[j].id
}

/// Tabs of `s` are pairwise distinct.
pub open spec fn tabs_distinct(s: Seq<QueuedPrompt>) -> bool {
    forall|i: int, j: int| 0 <= i < s.len() && 0 <= j < s.len() && i != j ==> s[i].tab_id@ != s[j].tab_id@
}

/// Request `i` of `queued` is the one to dispatch next, given the running requests:
/// its tab is idle, and no other request of an idle tab is ahead of it.
pub open spec fn is_next(queued: Seq<QueuedPrompt>, running: Seq<QueuedPrompt>, i: int) -> bool {
    &&& 0 <= i < queued.len()
    &&& !busy_in(running, queued[i].tab_id@)
    &&& forall|j: int| 0 <= j < queued.len() && !busy_in(running, queued[j].tab_id@)
            ==> !ahead(queued[j], queued[i])
}

/// Some queued request belongs to an idle tab.
pub open spec fn any_ready(queued: Seq<QueuedPrompt>, running: Seq<QueuedPrompt>) -> bool {
    exists|j: int| 0 <= j < queued.len() && !busy_in(running, queued[j].tab_id@)
}

/// The request `p` once dispatched at `now`.
pub open spec fn started(p: QueuedPrompt, now: u64) -> QueuedPrompt {
    QueuedPrompt { status: PromptStatus::Processing, started_at: Some(now), ..p }
}

/// `a - b`, or 0 when `b > a`.
pub open spec fn gap(a: u64, b: u64) -> u64 {
    if a >= b { (a - b) as u64 } else { 0 }
}

/// `a + b`, held at `u64::MAX`.
pub open spec fn sat_add(a: u64, b: u64) -> u64 {
    if a + b <= u64::MAX { (a + b) as u64 } else { u64::MAX }
}

/// `a + 1`, held at `usize::MAX`.
pub open spec fn sat_inc(a: usize) -> usize {
    if a < usize::MAX { (a + 1) as usize } else { usize::MAX }
}

/// `history` after `p` is recorded: the oldest entry leaves once it is full.
pub open spec fn recorded(history: Seq<QueuedPrompt>, p: QueuedPrompt) -> Seq<QueuedPrompt> {
    if history.len() >= HISTORY_CAPACITY { history.subrange(1, history.len() as int).push(p) } else { history.push(p) }
}

/// `total / count`, or 0 when nothing was counted.
pub open spec fn average(total: u64, count: nat) -> u64 {
    if count == 0 { 0 } else { (total as nat / count) as u64 }
}

/// The request `p` finished at `now` with `status`, `response` and `error`.
pub open spec fn finished(
    p: QueuedPrompt,
    status: PromptStatus,
    now: u64,
    response: Option<String>,
    error: Option<String>,
) -> QueuedPrompt {
    QueuedPrompt { status, completed_at: Some(now), response, error, ..p }
}

/// The requests of `s` that belong to `tab`, in order.
pub open spec fn of_tab(s: Seq<QueuedPrompt>, tab: Seq<char>) -> Seq<QueuedPrompt>
    decreases s.len(),
{
    if s.len() == 0 {
        s
    } else if s.last().tab_id@ == tab {
        of_tab(s.drop_last(), tab).push(s.last())
    } else {
        of_tab(s.drop_last(), tab)
    }
}

/// Selecting a tab's requests keeps ids increasing and picks only requests of `s`.
pub proof fn lemma_of_tab_sorted(s: Seq<QueuedPrompt>, tab: Seq<char>)
    requires
        forall|i: int, j: int| 0 <= i < j < s.len() ==> s[i].id < s[j].id,
    ensures
        forall|i: int, j: int| 0 <= i < j < of_tab(s, tab).len() ==> of_tab(s, tab)[i].id < of_tab(s, tab)[j].id,
        forall|x: QueuedPrompt| #[trigger] of_tab(s, tab).contains(x) ==> s.contains(x) && x.tab_id@ == tab,
    decreases s.len(),
{
    if s.len() > 0 {
        let s0 = s.drop_last();
        assert forall|i: int, j: int| 0 <= i < j < s0.len() implies s0[i].id < s0[j].id by {
            assert(s0[i] == s[i] && s0[j] == s[j]);
        }
        lemma_of_tab_sorted(s0, tab);
        let o0 = of_tab(s0, tab);
        let o = of_tab(s, tab);
        assert forall|x: QueuedPrompt| o0.contains(x) implies s.contains(x) by {
            assert(of_tab(s0, tab).contains(x));
            assert(s0.contains(x));
            let y = choose|y: int| 0 <= y < s0.len() && s0[y] == x;
            assert(s[y] == x);
        }
        if s.last().tab_id@ == tab {
            assert(o == o0.push(s.last()));
            assert forall|x: QueuedPrompt| o0.contains(x) implies x.id < s.last().id by {
                assert(of_tab(s0, tab).contains(x));
                assert(s0.contains(x));
                let y = choose|y: int| 0 <= y < s0.len() && s0[y] == x;
                assert(s[y] == x);
            }
            assert forall|i: int, j: int| 0 <= i < j < o.len() implies o[i].id < o[j].id by {
                assert(o[i] == o0[i]);
                assert(o0.contains(o0[i]));
                if j < o0.len() {
                    assert(o[j] == o0[j]);
                }
            }
            assert forall|x: QueuedPrompt| o.contains(x) implies s.contains(x) && x.tab_id@ == tab by {
                let y = choose|y: int| 0 <= y < o.len() && o[y] == x;
                if y < o0.len() {
                    assert(o0[y] == x);
                    assert(o0.contains(x));
                } else {
                    assert(s[s.len() - 1] == x);
                }
            }
        }
    }
}

/// Appends to `out` copies of the requests of `src` that belong to `tab`.
fn append_of_tab(out: &mut Vec<QueuedPrompt>, src: &Vec<QueuedPrompt>, tab: &String)
    ensures
        final(out)@.len() == old(out)@.len() + of_tab(src@, tab@).len(),
        forall|i: int| 0 <= i < old(out)@.len() ==> #[trigger] final(out)@[i] == old(out)@[i],
        forall|i: int| 0 <= i < of_tab(src@, tab@).len() ==> #[trigger] final(out)@[old(out)@.len() + i].same_as(
            of_tab(src@, tab@)[i]),
{
    let ghost base = old(out)@;
    let mut k: usize = 0;
    while k < src.len()
        invariant
            k <= src@.len(),
            base == old(out)@,
            out@.len() == base.len() + of_tab(src@.subrange(0, k as int), tab@).len(),
            forall|i: int| 0 <= i < base.len() ==> #[trigger] out@[i] == base[i],
            forall|i: int| 0 <= i < of_tab(src@.subrange(0, k as int), tab@).len() ==> #[trigger] out@[base.len() + i].same_as(
                of_tab(src@.subrange(0, k as int), tab@)[i]),
        decreases src.len() - k,
    {
        assert(src@.subrange(0, k + 1).drop_last() =~= src@.subrange(0, k as int));
        if src[k].tab_id == *tab {
            let ghost prev = out@;
            out.push(src[k].clone_exact());
            assert forall|i: int| 0 <= i < of_tab(src@.subrange(0, k + 1), tab@).len() implies #[trigger] out@[base.len() + i].same_as(
                of_tab(src@.subrange(0, k + 1), tab@)[i]) by {
                if i < of_tab(src@.subrange(0, k as int), tab@).len() {
                    assert(out@[base.len() + i] == prev[base.len() + i]);
                }
            }
        }
        k = k + 1;
    }
    assert(src@.subrange(0, src@.len() as int) =~= src@);
}

/// Holds every not-yet-finished request and a bounded history of finished ones.
pub struct PromptQueue {
    queued: Vec<QueuedPrompt>,
    running: Vec<QueuedPrompt>,
    completed: Vec<QueuedPrompt>,
    max_concurrent: usize,
    floor: u64,
    issued: u64,
    total_completed: usize,
    total_failed: usize,
    total_wait_ms: u64,
    total_process_ms: u64,
}

impl PromptQueue {
    /// Requests waiting to run, in arrival order.
    pub closed spec fn queued_seq(&self) -> Seq<QueuedPrompt> {
        self.queued@
    }

    /// Requests running now, one per tab at most.
    pub closed spec fn running_seq(&self) -> Seq<QueuedPrompt> {
        self.running@
    }

    /// Finished requests, oldest first.
    pub closed spec fn history_seq(&self) -> Seq<QueuedPrompt> {
        self.completed@
    }

    /// Bound on the number of running requests.
    pub closed spec fn cap(&self) -> nat {
        self.max_concurrent as nat
    }

    /// Every id enqueued so far is below this; a request may be enqueued only
    /// with an id at least this.
    pub closed spec fn floor(&self) -> u64 {
        self.floor
    }

    /// The id `allocate_id` hands out next.
    pub closed spec fn issued(&self) -> u64 {
        self.issued
    }

    /// Number of requests completed since creation.
    pub closed spec fn completed_count(&self) -> usize {
        self.total_completed
    }

    /// Number of requests failed since creation.
    pub closed spec fn failed_count(&self) -> usize {
        self.total_failed
    }

    /// Sum of waiting times (dispatch minus creation) of finished requests.
    pub closed spec fn wait_total(&self) -> u64 {
        self.total_wait_ms
    }

    /// Sum of running times (finish minus dispatch) of finished requests.
    pub closed spec fn process_total(&self) -> u64 {
        self.total_process_ms
    }

    /// Some tab's request with `tab` runs now.
    pub open spec fn busy(&self, tab: Seq<char>) -> bool {
        busy_in(self.running_seq(), tab)
    }

    /// Request `id` is waiting.
    pub open spec fn is_queued(&self, id: PromptId) -> bool {
        has_id(self.queued_seq(), id)
    }

    /// Request `id` runs now.
    pub open spec fn is_running(&self, id: PromptId) -> bool {
        has_id(self.running_seq(), id)
    }

    /// The queue's invariant.
    pub closed spec fn wf(&self) -> bool {
        &&& forall|i: int| 0 <= i < self.queued@.len() ==> {
                &&& #[trigger] self.queued@[i].status == PromptStatus::Queued
                &&& self.queued@[i].id < self.floor
            }
        &&& forall|i: int| 0 <= i < self.running@.len() ==> {
                &&& #[trigger] self.running@[i].status == PromptStatus::Processing
                &&& self.running@[i].id < self.floor
                &&& self.running@[i].started_at.is_some()
            }
        &&& ids_distinct(self.queued@)
        &&& forall|i: int, j: int| 0 <= i < j < self.queued@.len() ==> self.queued@[i].id < self.queued@[j].id
        &&& self.floor <= self.issued
        &&& ids_distinct(self.running@)
        &&& forall|i: int, j: int| 0 <= i < self.queued@.len() && 0 <= j < self.running@.len()
                ==> #[trigger] self.queued@[i].id != #[trigger] self.running@[j].id
        &&& tabs_distinct(self.running@)
        &&& self.running@.len() <= self.max_concurrent
        &&& self.completed@.len() <= HISTORY_CAPACITY
        &&& forall|i: int| 0 <= i < self.completed@.len() ==> {
                &&& (#[trigger] self.completed@[i].status == PromptStatus::Completed
                    || self.completed@[i].status == PromptStatus::Failed)
                &&& self.completed@[i].id < self.floor
            }
    }

    /// An empty queue that runs at most `max_concurrent` requests at once.
    pub fn new(max_concurrent: usize) -> (r: PromptQueue)
        ensures
            r.wf(),
            r.cap() == max_concurrent,
            r.queued_seq().len() == 0,
            r.running_seq().len() == 0,
            r.history_seq().len() == 0,
            r.floor() == 0,
            r.issued() == 0,
            r.completed_count() == 0,
            r.failed_count() == 0,
            r.wait_total() == 0,
            r.process_total() == 0,
    {
        PromptQueue {
            queued: Vec::new(),
            running: Vec::new(),
            completed: Vec::new(),
            max_concurrent,
            floor: 0,
            issued: 0,
            total_completed: 0,
            total_failed: 0,
            total_wait_ms: 0,
            total_process_ms: 0,
        }
    }

    /// Counters and bound of `self` and `other` agree.
    pub open spec fn same_totals(&self, other: PromptQueue) -> bool {
        &&& self.cap() == other.cap()
        &&& self.floor() == other.floor()
        &&& self.issued() == other.issued()
        &&& self.completed_count() == other.completed_count()
        &&& self.failed_count() == other.failed_count()
        &&& self.wait_total() == other.wait_total()
        &&& self.process_total() == other.process_total()
    }

    /// Hands out a fresh request id: never handed out before by this queue.
    pub fn allocate_id(&mut self) -> (r: PromptId)
        requires
            old(self).wf(),
            old(self).issued() < u64::MAX,
        ensures
            final(self).wf(),
            r == old(self).issued(),
            old(self).floor() <= r,
            final(self).issued() == old(self).issued() + 1,
            final(self).floor() == old(self).floor(),
            final(self).queued_seq() == old(self).queued_seq(),
            final(self).running_seq() == old(self).running_seq(),
            final(self).history_seq() == old(self).history_seq(),
            final(self).cap() == old(self).cap(),
            final(self).completed_count() == old(self).completed_count(),
            final(self).failed_count() == old(self).failed_count(),
            final(self).wait_total() == old(self).wait_total(),
            final(self).process_total() == old(self).process_total(),
    {
        let id = self.issued;
        self.issued = id + 1;
        proof {
            assert forall|i: int| 0 <= i < self.queued@.len() implies #[trigger] self.queued@[i].status
                == PromptStatus::Queued && self.queued@[i].id < self.floor by {
                assert(old(self).queued@[i].status == PromptStatus::Queued);
            }
            assert forall|i: int| 0 <= i < self.running@.len() implies #[trigger] self.running@[i].status
                == PromptStatus::Processing && self.running@[i].id < self.floor
                && self.running@[i].started_at.is_some() by {
                assert(old(self).running@[i].status == PromptStatus::Processing);
            }
            assert forall|i: int| 0 <= i < self.completed@.len() implies (#[trigger] self.completed@[i].status
                == PromptStatus::Completed || self.completed@[i].status == PromptStatus::Failed)
                && self.completed@[i].id < self.floor by {
                assert(old(self).completed@[i].status == PromptStatus::Completed
                    || old(self).completed@[i].status == PromptStatus::Failed);
            }
        }
        id
    }

    /// Adds `prompt` as a waiting request and returns its id. The id must come
    /// from `allocate_id` and be later than every id enqueued before; the
    /// request starts afresh: Queued, with no times, response or error.
    pub fn enqueue(&mut self, prompt: QueuedPrompt) -> (r: PromptId)
        requires
            old(self).wf(),
            old(self).floor() <= prompt.id < old(self).issued(),
        ensures
            final(self).wf(),
            r == prompt.id,
            final(self).floor() == prompt.id + 1,
            final(self).issued() == old(self).issued(),
            final(self).queued_seq() == old(self).queued_seq().push(
                QueuedPrompt {
                    status: PromptStatus::Queued,
                    started_at: None,
                    completed_at: None,
                    response: None,
                    error: None,
                    ..prompt
                },
            ),
            final(self).running_seq() == old(self).running_seq(),
            final(self).history_seq() == old(self).history_seq(),
            final(self).cap() == old(self).cap(),
            final(self).completed_count() == old(self).completed_count(),
            final(self).failed_count() == old(self).failed_count(),
            final(self).wait_total() == old(self).wait_total(),
            final(self).process_total() == old(self).process_total(),
    {
        let id = prompt.id;
        let mut p = prompt;
        p.status = PromptStatus::Queued;
        p.started_at = None;
        p.completed_at = None;
        p.response = None;
        p.error = None;
        self.queued.push(p);
        self.floor = id + 1;
        proof {
            let q = self.queued@;
            assert forall|i: int, j: int| 0 <= i < j < q.len() implies q[i].id < q[j].id by {
                assert(q[i] == old(self).queued@[i]);
                assert(old(self).queued@[i].status == PromptStatus::Queued);
                if j < q.len() - 1 {
                    assert(q[j] == old(self).queued@[j]);
                }
            }
            assert forall|i: int| 0 <= i < q.len() - 1 implies q[i] == old(self).queued@[i] by {}
            assert forall|i: int| 0 <= i < q.len() implies #[trigger] q[i].status == PromptStatus::Queued
                && q[i].id < self.floor by {
                if i < q.len() - 1 {
                    assert(q[i] == old(self).queued@[i]);
                }
            }
            assert forall|i: int, j: int| 0 <= i < q.len() && 0 <= j < self.running@.len()
                implies q[i].id != self.running@[j].id by {
                assert(old(self).running@[j].status == PromptStatus::Processing);
                if i < q.len() - 1 {
                    assert(q[i] == old(self).queued@[i]);
                }
            }
            assert forall|i: int, j: int| 0 <= i < q.len() && 0 <= j < q.len() && i != j
                implies q[i].id != q[j].id by {
                if i < q.len() - 1 {
                    assert(q[i] == old(self).queued@[i]);
                    assert(old(self).queued@[i].status == PromptStatus::Queued);
                }
                if j < q.len() - 1 {
                    assert(q[j] == old(self).queued@[j]);
                    assert(old(self).queued@[j].status == PromptStatus::Queued);
                }
            }
            assert forall|i: int| 0 <= i < self.running@.len() implies #[trigger] self.running@[i].status
                == PromptStatus::Processing && self.running@[i].id < self.floor
                && self.running@[i].started_at.is_some() by {
                assert(old(self).running@[i].status == PromptStatus::Processing);
            }
        }
        id
    }

    /// Whether a request of `tab` runs now.
    pub fn is_tab_busy(&self, tab: &String) -> (r: bool)
        ensures
            r == self.busy(tab@),
    {
        let mut k: usize = 0;
        while k < self.running.len()
            invariant
                k <= self.running@.len(),
                forall|j: int| 0 <= j < k ==> self.running@[j].tab_id@ != tab@,
            decreases self.running.len() - k,
        {
            if self.running[k].tab_id == *tab {
                return true;
            }
            k = k + 1;
        }
        false
    }

    /// Index of the next request to dispatch, if any waiting request has an idle tab.
    fn next_index(&self) -> (r: Option<usize>)
        requires
            self.wf(),
        ensures
            r.is_some() ==> is_next(self.queued@, self.running@, r.unwrap() as int),
            r.is_none() ==> !any_ready(self.queued@, self.running@),
    {
        let mut best: Option<usize> = None;
        let mut i: usize = 0;
        while i < self.queued.len()
            invariant
                self.wf(),
                i <= self.queued@.len(),
                best.is_some() ==> {
                    let b = best.unwrap() as int;
                    &&& 0 <= b < i
                    &&& !busy_in(self.running@, self.queued@[b].tab_id@)
                    &&& forall|j: int| 0 <= j < i && !busy_in(self.running@, self.queued@[j].tab_id@)
                            ==> !ahead(self.queued@[j], self.queued@[b])
                },
                best.is_none() ==> forall|j: int| 0 <= j < i ==> busy_in(self.running@, self.queued@[j].tab_id@),
            decreases self.queued.len() - i,
        {
            if !self.is_tab_busy(&self.queued[i].tab_id) {
                match best {
                    None => {
                        best = Some(i);
                    },
                    Some(b) => {
                        if Self::is_ahead(&self.queued[i], &self.queued[b]) {
                            best = Some(i);
                        }
                    },
                }
            }
            i = i + 1;
        }
        best
    }

    /// Whether `a` is dispatched before `b`.
    fn is_ahead(a: &QueuedPrompt, b: &QueuedPrompt) -> (r: bool)
        ensures
            r == ahead(*a, *b),
    {
        let ra = a.priority.rank();
        let rb = b.priority.rank();
        ra > rb || (ra == rb && a.created_at < b.created_at) || (ra == rb && a.created_at == b.created_at
            && a.id < b.id)
    }

    /// What `dequeue` does: when fewer than `cap` requests run and some waiting
    /// request has an idle tab, the one of those that is ahead of all the others
    /// starts at `now` and is returned; otherwise nothing changes.
    pub open spec fn dequeue_post(self, after: PromptQueue, now: u64, r: Option<QueuedPrompt>) -> bool {
        &&& after.same_totals(self)
        &&& after.history_seq() == self.history_seq()
        &&& r.is_some() == (self.running_seq().len() < self.cap() && any_ready(self.queued_seq(), self.running_seq()))
        &&& r.is_none() ==> after.queued_seq() == self.queued_seq() && after.running_seq() == self.running_seq()
        &&& r.is_some() ==> exists|i: int| {
                &&& is_next(self.queued_seq(), self.running_seq(), i)
                &&& r.unwrap().same_as(started(self.queued_seq()[i], now))
                &&& after.queued_seq() == self.queued_seq().remove(i)
                &&& after.running_seq() == self.running_seq().push(started(self.queued_seq()[i], now))
            }
    }

    /// Starts the next request, if the bound and the idle tabs allow one.
    pub fn dequeue(&mut self, now: u64) -> (r: Option<QueuedPrompt>)
        requires
            old(self).wf(),
        ensures
            final(self).wf(),
            old(self).dequeue_post(*final(self), now, r),
    {
        if self.running.len() >= self.max_concurrent {
            return None;
        }
        match self.next_index() {
            None => None,
            Some(i) => {
                let ghost q0 = self.queued@;
                let ghost r0 = self.running@;
                let mut p = self.queued.remove(i);
                p.status = PromptStatus::Processing;
                p.started_at = Some(now);
                let out = p.clone_exact();
                self.running.push(p);
                proof {
                    let q = self.queued@;
                    let rn = self.running@;
                    assert(q =~= q0.remove(i as int));
                    assert forall|a: int| 0 <= a < q.len() implies #[trigger] q[a].status == PromptStatus::Queued
                        && q[a].id < self.floor by {
                        if a < i {
                            assert(q[a] == q0[a]);
                            assert(q0[a].status == PromptStatus::Queued);
                        } else {
                            assert(q[a] == q0[a + 1]);
                            assert(q0[a + 1].status == PromptStatus::Queued);
                        }
                    }
                    assert forall|a: int, b: int| 0 <= a < q.len() && 0 <= b < q.len() && a != b
                        implies q[a].id != q[b].id by {
                        let a0 = if a < i { a } else { a + 1 };
                        let b0 = if b < i { b } else { b + 1 };
                        assert(q[a] == q0[a0]);
                        assert(q[b] == q0[b0]);
                        assert(q0[a0].status == PromptStatus::Queued);
                        assert(q0[b0].status == PromptStatus::Queued);
                    }
                    assert forall|a: int| 0 <= a < rn.len() implies #[trigger] rn[a].status
                        == PromptStatus::Processing && rn[a].id < self.floor && rn[a].started_at.is_some() by {
                        if a < r0.len() {
                            assert(rn[a] == r0[a]);
                            assert(r0[a].status == PromptStatus::Processing);
                        } else {
                            assert(q0[i as int].status == PromptStatus::Queued);
                        }
                    }
                    assert forall|a: int, b: int| 0 <= a < rn.len() && 0 <= b < rn.len() && a != b
                        implies rn[a].id != rn[b].id && rn[a].tab_id@ != rn[b].tab_id@ by {
                        if a < r0.len() {
                            assert(r0[a].status == PromptStatus::Processing);
                            assert(q0[i as int].status == PromptStatus::Queued);
                        }
                        if b < r0.len() {
                            assert(r0[b].status == PromptStatus::Processing);
                            assert(q0[i as int].status == PromptStatus::Queued);
                        }
                        if a == r0.len() {
                            assert(q0[i as int].id != r0[b].id);
                            assert(!busy_in(r0, q0[i as int].tab_id@));
                        }
                        if b == r0.len() {
                            assert(q0[i as int].id != r0[a].id);
                            assert(!busy_in(r0, q0[i as int].tab_id@));
                        }
                    }
                    assert forall|a: int, b: int| 0 <= a < q.len() && 0 <= b < rn.len()
                        implies #[trigger] q[a].id != #[trigger] rn[b].id by {
                        let a0 = if a < i { a } else { a + 1 };
                        assert(q[a] == q0[a0]);
                        assert(q0[a0].status == PromptStatus::Queued);
                        if b < r0.len() {
                            assert(rn[b] == r0[b]);
                            assert(q0[a0].id != r0[b].id);
                        } else {
                            assert(q0[i as int].status == PromptStatus::Queued);
                        }
                    }
                    assert(rn =~= r0.push(started(q0[i as int], now)));
                }
                Some(out)
            },
        }
    }

    /// What finishing running request `id` at `now` does: it leaves the running
    /// requests, its waiting and running times join the totals, and
    /// `done(request)` is recorded in the history; `r` says whether `id` ran.
    /// When it did not, nothing changes.
    pub open spec fn finish_post(
        self,
        after: PromptQueue,
        id: PromptId,
        now: u64,
        r: bool,
        done: spec_fn(QueuedPrompt) -> QueuedPrompt,
        success: bool,
    ) -> bool {
        &&& r == self.is_running(id)
        &&& after.queued_seq() == self.queued_seq()
        &&& after.cap() == self.cap()
        &&& after.floor() == self.floor()
        &&& after.issued() == self.issued()
        &&& !r ==> after.same_totals(self) && after.running_seq() == self.running_seq()
                && after.history_seq() == self.history_seq()
        &&& r ==> exists|k: int| #![trigger self.running_seq()[k]] {
                let p = self.running_seq()[k];
                let start = p.started_at.unwrap();
                &&& 0 <= k < self.running_seq().len()
                &&& p.id == id
                &&& after.running_seq() == self.running_seq().remove(k)
                &&& after.history_seq() == recorded(self.history_seq(), done(p))
                &&& after.wait_total() == sat_add(self.wait_total(), gap(start, p.created_at))
                &&& after.process_total() == sat_add(self.process_total(), gap(now, start))
                &&& after.completed_count() == if success { sat_inc(self.completed_count()) } else { self.completed_count() }
                &&& after.failed_count() == if success { self.failed_count() } else { sat_inc(self.failed_count()) }
            }
    }

    /// Index of running request `id`, if it runs.
    fn running_index(&self, id: PromptId) -> (r: Option<usize>)
        ensures
            r.is_some() ==> r.unwrap() < self.running@.len() && self.running@[r.unwrap() as int].id == id,
            r.is_none() ==> !has_id(self.running@, id),
    {
        let mut k: usize = 0;
        while k < self.running.len()
            invariant
                k <= self.running@.len(),
                forall|j: int| 0 <= j < k ==> self.running@[j].id != id,
            decreases self.running.len() - k,
        {
            if self.running[k].id == id {
                return Some(k);
            }
            k = k + 1;
        }
        None
    }

    /// Takes running request `k` out and adds its times to the totals.
    fn take_running(&mut self, k: usize, now: u64) -> (p: QueuedPrompt)
        requires
            old(self).wf(),
            k < old(self).running@.len(),
        ensures
            p == old(self).running@[k as int],
            final(self).running@ == old(self).running@.remove(k as int),
            final(self).queued@ == old(self).queued@,
            final(self).completed@ == old(self).completed@,
            final(self).max_concurrent == old(self).max_concurrent,
            final(self).floor == old(self).floor,
            final(self).issued == old(self).issued,
            final(self).total_completed == old(self).total_completed,
            final(self).total_failed == old(self).total_failed,
            final(self).total_wait_ms == sat_add(old(self).total_wait_ms, gap(p.started_at.unwrap(), p.created_at)),
            final(self).total_process_ms == sat_add(old(self).total_process_ms, gap(now, p.started_at.unwrap())),
            p.started_at.is_some(),
    {
        proof {
            assert(self.running@[k as int].status == PromptStatus::Processing);
        }
        let p = self.running.remove(k);
        let start = match p.started_at {
            Some(t) => t,
            None => now,
        };
        let wait = if start >= p.created_at { start - p.created_at } else { 0 };
        let busy = if now >= start { now - start } else { 0 };
        self.total_wait_ms = if self.total_wait_ms <= u64::MAX - wait { self.total_wait_ms + wait } else { u64::MAX };
        self.total_process_ms = if self.total_process_ms <= u64::MAX - busy { self.total_process_ms + busy } else { u64::MAX };
        p
    }

    /// Appends `p` to the history, evicting the oldest entry when full.
    fn record(&mut self, p: QueuedPrompt)
        requires
            old(self).completed@.len() <= HISTORY_CAPACITY,
        ensures
            final(self).completed@ == recorded(old(self).completed@, p),
            final(self).completed@.len() <= HISTORY_CAPACITY,
            final(self).completed@.len() > 0,
            final(self).completed@.last() == p,
            final(self).completed@.drop_last() == old(self).completed@
                || (old(self).completed@.len() > 0
                    && final(self).completed@.drop_last() == old(self).completed@.subrange(1, old(self).completed@.len() as int)),
            final(self).queued@ == old(self).queued@,
            final(self).running@ == old(self).running@,
            final(self).max_concurrent == old(self).max_concurrent,
            final(self).floor == old(self).floor,
            final(self).issued == old(self).issued,
            final(self).total_completed == old(self).total_completed,
            final(self).total_failed == old(self).total_failed,
            final(self).total_wait_ms == old(self).total_wait_ms,
            final(self).total_process_ms == old(self).total_process_ms,
    {
        if self.completed.len() >= HISTORY_CAPACITY {
            self.completed.remove(0);
            assert(self.completed@ =~= old(self).completed@.subrange(1, old(self).completed@.len() as int));
        }
        let ghost mid = self.completed@;
        self.completed.push(p);
        assert(self.completed@.drop_last() =~= mid);
    }

    /// Proves the invariant after running request `k` left and a finished request was recorded.
    proof fn lemma_finish_wf(before: PromptQueue, after: PromptQueue, k: int)
        requires
            before.wf(),
            0 <= k < before.running@.len(),
            after.running@ == before.running@.remove(k),
            after.queued@ == before.queued@,
            after.max_concurrent == before.max_concurrent,
            after.floor == before.floor,
            after.issued == before.issued,
            after.completed@.len() <= HISTORY_CAPACITY,
            after.completed@.len() > 0,
            after.completed@.drop_last() == before.completed@ || (before.completed@.len() > 0
                && after.completed@.drop_last() == before.completed@.subrange(1, before.completed@.len() as int)),
            after.completed@.last().status == PromptStatus::Completed || after.completed@.last().status == PromptStatus::Failed,
            after.completed@.last().id < after.floor,
        ensures
            after.wf(),
    {
        let r0 = before.running@;
        let rn = after.running@;
        assert forall|a: int| 0 <= a < rn.len() implies #[trigger] rn[a].status == PromptStatus::Processing
            && rn[a].id < after.floor && rn[a].started_at.is_some() by {
            let a0 = if a < k { a } else { a + 1 };
            assert(rn[a] == r0[a0]);
            assert(r0[a0].status == PromptStatus::Processing);
        }
        assert forall|a: int, b: int| 0 <= a < rn.len() && 0 <= b < rn.len() && a != b
            implies rn[a].id != rn[b].id && rn[a].tab_id@ != rn[b].tab_id@ by {
            let a0 = if a < k { a } else { a + 1 };
            let b0 = if b < k { b } else { b + 1 };
            assert(rn[a] == r0[a0]);
            assert(rn[b] == r0[b0]);
        }
        assert forall|a: int, b: int| 0 <= a < after.queued@.len() && 0 <= b < rn.len()
            implies #[trigger] after.queued@[a].id != #[trigger] rn[b].id by {
            let b0 = if b < k { b } else { b + 1 };
            assert(rn[b] == r0[b0]);
            assert(before.queued@[a].id != r0[b0].id);
        }
        let h = after.completed@;
        assert forall|a: int| 0 <= a < h.len() implies (#[trigger] h[a].status == PromptStatus::Completed
            || h[a].status == PromptStatus::Failed) && h[a].id < after.floor by {
            if a < h.len() - 1 {
                assert(h[a] == h.drop_last()[a]);
                if h.drop_last() == before.completed@ {
                    assert(before.completed@[a].status == PromptStatus::Completed || before.completed@[a].status == PromptStatus::Failed);
                    assert(before.completed@[a].id < before.floor);
                } else {
                    let t = before.completed@.subrange(1, before.completed@.len() as int);
                    assert(h.drop_last() == t);
                    assert(t.len() == before.completed@.len() - 1);
                    assert(h.drop_last()[a] == t[a]);
                    assert(t[a] == before.completed@[a + 1]);
                    assert(before.completed@[a + 1].status == PromptStatus::Completed || before.completed@[a + 1].status == PromptStatus::Failed);
                    assert(before.completed@[a + 1].id < before.floor);
                }
            }
        }
        assert(after.queued@ == before.queued@);
        assert forall|i: int| 0 <= i < after.queued@.len() implies #[trigger] after.queued@[i].status == PromptStatus::Queued
            && after.queued@[i].id < after.floor by {
            assert(before.queued@[i].status == PromptStatus::Queued);
        }
    }

    /// Finishes running request `id` at `now` as Completed with `response`.
    /// Returns whether `id` was running; when it was not, nothing changes.
    pub fn complete(&mut self, id: PromptId, response: String, now: u64) -> (r: bool)
        requires
            old(self).wf(),
        ensures
            final(self).wf(),
            old(self).finish_post(*final(self), id, now, r,
                |p: QueuedPrompt| finished(p, PromptStatus::Completed, now, Some(response), None), true),
    {
        match self.running_index(id) {
            None => false,
            Some(k) => {
                let ghost before = *self;
                let mut p = self.take_running(k, now);
                p.status = PromptStatus::Completed;
                p.completed_at = Some(now);
                p.response = Some(response);
                p.error = None;
                self.record(p);
                self.total_completed = if self.total_completed < usize::MAX { self.total_completed + 1 } else { usize::MAX };
                proof {
                    assert(before.running@[k as int].status == PromptStatus::Processing);
                    Self::lemma_finish_wf(before, *self, k as int);
                    assert(has_id(before.running@, id));
                }
                true
            },
        }
    }

    /// Finishes running request `id` at `now` as Failed with `error`.
    /// Returns whether `id` was running; when it was not, nothing changes.
    pub fn fail(&mut self, id: PromptId, error: String, now: u64) -> (r: bool)
        requires
            old(self).wf(),
        ensures
            final(self).wf(),
            old(self).finish_post(*final(self), id, now, r,
                |p: QueuedPrompt| finished(p, PromptStatus::Failed, now, None, Some(error)), false),
    {
        match self.running_index(id) {
            None => false,
            Some(k) => {
                let ghost before = *self;
                let mut p = self.take_running(k, now);
                p.status = PromptStatus::Failed;
                p.completed_at = Some(now);
                p.error = Some(error);
                p.response = None;
                self.record(p);
                self.total_failed = if self.total_failed < usize::MAX { self.total_failed + 1 } else { usize::MAX };
                proof {
                    assert(before.running@[k as int].status == PromptStatus::Processing);
                    Self::lemma_finish_wf(before, *self, k as int);
                    assert(has_id(before.running@, id));
                }
                true
            },
        }
    }

    /// What `cancel` does: `r` says whether `id` was waiting; if it was, it
    /// leaves the queue and no waiting request has `id` any more; otherwise
    /// nothing changes.
    pub open spec fn cancel_post(self, after: PromptQueue, id: PromptId, r: bool) -> bool {
        &&& r == self.is_queued(id)
        &&& after.same_totals(self)
        &&& after.running_seq() == self.running_seq()
        &&& after.history_seq() == self.history_seq()
        &&& !after.is_queued(id)
        &&& !r ==> after.queued_seq() == self.queued_seq()
        &&& r ==> exists|k: int| 0 <= k < self.queued_seq().len() && #[trigger] self.queued_seq()[k].id == id
                && after.queued_seq() == self.queued_seq().remove(k)
    }

    /// Proves the invariant after waiting request `k` left.
    proof fn lemma_unqueue_wf(before: PromptQueue, after: PromptQueue, k: int)
        requires
            before.wf(),
            0 <= k < before.queued@.len(),
            after.queued@ == before.queued@.remove(k),
            after.running@ == before.running@,
            after.completed@ == before.completed@,
            after.max_concurrent == before.max_concurrent,
            after.floor == before.floor,
            after.issued == before.issued,
        ensures
            after.wf(),
            !has_id(after.queued@, before.queued@[k].id),
    {
        let q0 = before.queued@;
        let q = after.queued@;
        assert forall|a: int| 0 <= a < q.len() implies #[trigger] q[a].status == PromptStatus::Queued
            && q[a].id < after.floor && q[a].id != q0[k].id by {
            let a0 = if a < k { a } else { a + 1 };
            assert(q[a] == q0[a0]);
            assert(q0[a0].status == PromptStatus::Queued);
        }
        assert forall|a: int, b: int| 0 <= a < q.len() && 0 <= b < q.len() && a != b
            implies q[a].id != q[b].id by {
            let a0 = if a < k { a } else { a + 1 };
            let b0 = if b < k { b } else { b + 1 };
            assert(q[a] == q0[a0]);
            assert(q[b] == q0[b0]);
        }
        assert forall|a: int, b: int| 0 <= a < b < q.len() implies q[a].id < q[b].id by {
            let a0 = if a < k { a } else { a + 1 };
            let b0 = if b < k { b } else { b + 1 };
            assert(q[a] == q0[a0]);
            assert(q[b] == q0[b0]);
        }
        assert forall|a: int, b: int| 0 <= a < q.len() && 0 <= b < after.running@.len()
            implies #[trigger] q[a].id != #[trigger] after.running@[b].id by {
            let a0 = if a < k { a } else { a + 1 };
            assert(q[a] == q0[a0]);
            assert(q0[a0].id != before.running@[b].id);
        }
        assert forall|a: int| 0 <= a < after.running@.len() implies #[trigger] after.running@[a].status
            == PromptStatus::Processing && after.running@[a].id < after.floor
            && after.running@[a].started_at.is_some() by {
            assert(before.running@[a].status == PromptStatus::Processing);
        }
        assert forall|a: int| 0 <= a < after.completed@.len() implies (#[trigger] after.completed@[a].status
            == PromptStatus::Completed || after.completed@[a].status == PromptStatus::Failed)
            && after.completed@[a].id < after.floor by {
            assert(before.completed@[a].status == PromptStatus::Completed || before.completed@[a].status == PromptStatus::Failed);
        }
        if has_id(q, q0[k].id) {
            let a = choose|a: int| 0 <= a < q.len() && q[a].id == q0[k].id;
            assert(q[a].status == PromptStatus::Queued);
        }
    }

    /// Cancels waiting request `id`. Returns whether it was waiting; a running
    /// or finished request is never cancelled.
    pub fn cancel(&mut self, id: PromptId) -> (r: bool)
        requires
            old(self).wf(),
        ensures
            final(self).wf(),
            old(self).cancel_post(*final(self), id, r),
    {
        match self.queued_index(id) {
            None => false,
            Some(k) => {
                let ghost before = *self;
                self.queued.remove(k);
                proof {
                    Self::lemma_unqueue_wf(before, *self, k as int);
                    assert(before.queued_seq()[k as int].id == id);
                }
                true
            },
        }
    }

    /// Index of waiting request `id`, if it waits.
    fn queued_index(&self, id: PromptId) -> (r: Option<usize>)
        ensures
            r.is_some() ==> r.unwrap() < self.queued@.len() && self.queued@[r.unwrap() as int].id == id,
            r.is_none() ==> !has_id(self.queued@, id),
    {
        let mut k: usize = 0;
        while k < self.queued.len()
            invariant
                k <= self.queued@.len(),
                forall|j: int| 0 <= j < k ==> self.queued@[j].id != id,
            decreases self.queued.len() - k,
        {
            if self.queued[k].id == id {
                return Some(k);
            }
            k = k + 1;
        }
        None
    }

    /// Cancels every waiting request of `tab`; running ones go on.
    pub fn cancel_tab(&mut self, tab: &String)
        requires
            old(self).wf(),
        ensures
            final(self).wf(),
            final(self).same_totals(*old(self)),
            final(self).running_seq() == old(self).running_seq(),
            final(self).history_seq() == old(self).history_seq(),
            forall|p: QueuedPrompt| final(self).queued_seq().contains(p)
                <==> old(self).queued_seq().contains(p) && p.tab_id@ != tab@,
    {
        let ghost q0 = self.queued@;
        let mut k: usize = 0;
        while k < self.queued.len()
            invariant
                self.wf(),
                k <= self.queued@.len(),
                self.running@ == old(self).running@,
                self.completed@ == old(self).completed@,
                self.max_concurrent == old(self).max_concurrent,
                self.floor == old(self).floor,
                self.issued == old(self).issued,
                self.total_completed == old(self).total_completed,
                self.total_failed == old(self).total_failed,
                self.total_wait_ms == old(self).total_wait_ms,
                self.total_process_ms == old(self).total_process_ms,
                forall|j: int| 0 <= j < k ==> self.queued@[j].tab_id@ != tab@,
                forall|p: QueuedPrompt| self.queued@.contains(p) ==> q0.contains(p),
                forall|p: QueuedPrompt| q0.contains(p) && p.tab_id@ != tab@ ==> self.queued@.contains(p),
            decreases self.queued.len() - k,
        {
            if self.queued[k].tab_id == *tab {
                let ghost before = *self;
                self.queued.remove(k);
                proof {
                    Self::lemma_unqueue_wf(before, *self, k as int);
                    let q = self.queued@;
                    let qb = before.queued@;
                    assert forall|p: QueuedPrompt| q.contains(p) implies q0.contains(p) by {
                        let a = choose|a: int| 0 <= a < q.len() && q[a] == p;
                        let a0 = if a < k { a } else { a + 1 };
                        assert(q[a] == qb[a0]);
                        assert(qb.contains(p));
                    }
                    assert forall|p: QueuedPrompt| q0.contains(p) && p.tab_id@ != tab@ implies q.contains(p) by {
                        assert(qb.contains(p));
                        let a = choose|a: int| 0 <= a < qb.len() && qb[a] == p;
                        assert(a != k);
                        let a1 = if a < k { a } else { a - 1 };
                        assert(q[a1] == p);
                    }
                }
            } else {
                k = k + 1;
            }
        }
    }

    /// How many waiting requests rank strictly ahead of waiting request `id`
    /// (higher priority, or equal priority and earlier creation); `None` when
    /// `id` is not waiting.
    pub fn get_position(&self, id: PromptId) -> (r: Option<usize>)
        requires
            self.wf(),
        ensures
            r.is_none() == !self.is_queued(id),
            r.is_some() ==> exists|k: int| 0 <= k < self.queued_seq().len()
                && #[trigger] self.queued_seq()[k].id == id
                && r.unwrap() as nat == count_ahead(self.queued_seq(), self.queued_seq()[k]),
    {
        let t = match self.queued_index(id) {
            None => {
                return None;
            },
            Some(t) => t,
        };
        let ghost target = self.queued@[t as int];
        let mut count: usize = 0;
        let mut i: usize = 0;
        while i < self.queued.len()
            invariant
                t < self.queued@.len(),
                target == self.queued@[t as int],
                i <= self.queued@.len(),
                count <= i,
                count as nat == count_ahead(self.queued@.subrange(0, i as int), target),
            decreases self.queued.len() - i,
        {
            let ghost before = self.queued@.subrange(0, i as int);
            let a = &self.queued[i];
            let b = &self.queued[t];
            let ra = a.priority.rank();
            let rb = b.priority.rank();
            if ra > rb || (ra == rb && a.created_at < b.created_at) {
                count = count + 1;
            }
            assert(self.queued@.subrange(0, i + 1).drop_last() =~= before);
            i = i + 1;
        }
        assert(self.queued@.subrange(0, self.queued@.len() as int) =~= self.queued@);
        assert(self.queued_seq()[t as int].id == id);
        Some(count)
    }

    /// Copies of the waiting and running requests of `tab`, in enqueue order
    /// (increasing id): the waiting ones in order, with the running one, if
    /// any, at its place among them.
    pub fn get_tab_prompts(&self, tab: &String) -> (r: Vec<QueuedPrompt>)
        requires
            self.wf(),
        ensures
            forall|i: int, j: int| 0 <= i < j < r@.len() ==> r@[i].id < r@[j].id,
            ({
                let qs = of_tab(self.queued_seq(), tab@);
                &&& !self.busy(tab@) ==> r@.len() == qs.len() && forall|i: int| 0 <= i < r@.len()
                        ==> #[trigger] r@[i].same_as(qs[i])
                &&& self.busy(tab@) ==> exists|k: int, pos: int| #![trigger self.running_seq()[k], r@[pos]] {
                        &&& 0 <= k < self.running_seq().len()
                        &&& self.running_seq()[k].tab_id@ == tab@
                        &&& 0 <= pos <= qs.len()
                        &&& r@.len() == qs.len() + 1
                        &&& r@[pos].same_as(self.running_seq()[k])
                        &&& forall|i: int| 0 <= i < pos ==> #[trigger] r@[i].same_as(qs[i])
                        &&& forall|i: int| pos < i < r@.len() ==> #[trigger] r@[i].same_as(qs[i - 1])
                    }
            }),
    {
        let mut out: Vec<QueuedPrompt> = Vec::new();
        append_of_tab(&mut out, &self.queued, tab);
        let ghost qs = of_tab(self.queued@, tab@);
        proof {
            lemma_of_tab_sorted(self.queued@, tab@);
            assert forall|i: int| 0 <= i < out@.len() implies #[trigger] out@[i].same_as(qs[i]) by {
                assert(out@[0 + i].same_as(qs[i]));
            }
            assert forall|i: int, j: int| 0 <= i < j < out@.len() implies out@[i].id < out@[j].id by {
                assert(out@[i].same_as(qs[i]));
                assert(out@[j].same_as(qs[j]));
            }
        }
        match self.get_processing(tab) {
            None => out,
            Some(run) => {
                let ghost k = choose|k: int| 0 <= k < self.running_seq().len()
                    && #[trigger] self.running_seq()[k].tab_id@ == tab@ && run.same_as(self.running_seq()[k]);
                proof {
                    assert forall|i: int| 0 <= i < qs.len() implies #[trigger] qs[i].id != run.id by {
                        assert(qs.contains(qs[i]));
                        assert(of_tab(self.queued@, tab@).contains(qs[i]));
                        assert(self.queued@.contains(qs[i]));
                        let x = choose|x: int| 0 <= x < self.queued@.len() && self.queued@[x] == qs[i];
                        assert(self.queued@[x].id != self.running@[k].id);
                    }
                }
                let mut pos: usize = 0;
                while pos < out.len() && out[pos].id < run.id
                    invariant
                        pos <= out@.len(),
                        out@.len() == qs.len(),
                        forall|i: int| 0 <= i < out@.len() ==> #[trigger] out@[i].same_as(qs[i]),
                        forall|i: int| 0 <= i < pos ==> #[trigger] out@[i].id < run.id,
                    decreases out.len() - pos,
                {
                    pos = pos + 1;
                }
                let ghost before = out@;
                proof {
                    assert forall|i: int| pos <= i < before.len() implies #[trigger] before[i].id > run.id by {
                        assert(before[pos as int].same_as(qs[pos as int]));
                        assert(qs[pos as int].id != run.id);
                        assert(before[pos as int].id != run.id);
                        if i > pos {
                            assert(qs[pos as int].id < qs[i].id);
                        }
                    }
                }
                out.insert(pos, run);
                proof {
                    assert(out@ == before.insert(pos as int, run));
                    assert forall|i: int, j: int| 0 <= i < j < out@.len() implies out@[i].id < out@[j].id by {
                        if i < pos && j < pos {
                            assert(out@[i] == before[i] && out@[j] == before[j]);
                            assert(qs[i].id < qs[j].id);
                        } else if i < pos && j > pos {
                            assert(out@[j] == before[j - 1]);
                            assert(qs[i].id < qs[j - 1].id || i == j - 1);
                        } else if i > pos {
                            assert(out@[i] == before[i - 1]);
                            assert(out@[j] == before[j - 1]);
                            assert(qs[i - 1].id < qs[j - 1].id);
                        } else if i == pos {
                            assert(out@[j] == before[j - 1]);
                        }
                    }
                    assert forall|i: int| pos < i < out@.len() implies #[trigger] out@[i].same_as(qs[i - 1]) by {
                        assert(out@[i] == before[i - 1]);
                    }
                    assert forall|i: int| 0 <= i < pos implies #[trigger] out@[i].same_as(qs[i]) by {
                        assert(out@[i] == before[i]);
                    }
                    assert(out@[pos as int] == run);
                    assert(self.running_seq()[k] == self.running@[k]);
                }
                out
            },
        }
    }

    /// Statistics over the queue: waiting and running counts, cumulative
    /// finished counts, and mean waiting and running times of finished requests.
    pub fn get_stats(&self) -> (r: QueueStats)
        ensures
            r.total_queued as nat == self.queued_seq().len(),
            r.processing as nat == self.running_seq().len(),
            r.completed_today == self.completed_count(),
            r.failed_today == self.failed_count(),
            r.average_wait_ms == average(self.wait_total(), self.completed_count() as nat + self.failed_count() as nat),
            r.average_process_ms == average(self.process_total(), self.completed_count() as nat + self.failed_count() as nat),
    {
        let finished: u128 = self.total_completed as u128 + self.total_failed as u128;
        let wait: u64 = if finished == 0 { 0 } else { (self.total_wait_ms as u128 / finished) as u64 };
        let busy: u64 = if finished == 0 { 0 } else { (self.total_process_ms as u128 / finished) as u64 };
        QueueStats {
            total_queued: self.queued.len(),
            processing: self.running.len(),
            completed_today: self.total_completed,
            failed_today: self.total_failed,
            average_wait_ms: wait,
            average_process_ms: busy,
        }
    }

    /// A copy of the request of `tab` that runs now, if any.
    pub fn get_processing(&self, tab: &String) -> (r: Option<QueuedPrompt>)
        ensures
            r.is_none() == !self.busy(tab@),
            r.is_some() ==> exists|k: int| 0 <= k < self.running_seq().len()
                && #[trigger] self.running_seq()[k].tab_id@ == tab@ && r.unwrap().same_as(self.running_seq()[k]),
    {
        let mut k: usize = 0;
        while k < self.running.len()
            invariant
                k <= self.running@.len(),
                forall|j: int| 0 <= j < k ==> self.running@[j].tab_id@ != tab@,
            decreases self.running.len() - k,
        {
            if self.running[k].tab_id == *tab {
                return Some(self.running[k].clone_exact());
            }
            k = k + 1;
        }
        None
    }

    /// In every reachable state at most one request per tab is running.
    pub proof fn lemma_one_running_per_tab(&self)
        requires
            self.wf(),
        ensures
            tabs_distinct(self.running_seq()),
    {
    }

    /// In every reachable state the number of running requests is within the bound.
    pub proof fn lemma_running_within_cap(&self)
        requires
            self.wf(),
        ensures
            self.running_seq().len() <= self.cap(),
    {
    }

    /// A dispatched request has the highest priority among the waiting requests of
    /// idle tabs, and among those of equal priority it was created first.
    pub proof fn lemma_dequeue_order(self, after: PromptQueue, now: u64, p: QueuedPrompt)
        requires
            self.wf(),
            self.dequeue_post(after, now, Some(p)),
        ensures
            !self.busy(p.tab_id@),
            forall|j: int| 0 <= j < self.queued_seq().len() && !self.busy(#[trigger] self.queued_seq()[j].tab_id@)
                ==> rank(self.queued_seq()[j].priority) <= rank(p.priority)
                && (rank(self.queued_seq()[j].priority) == rank(p.priority) ==> p.created_at <= self.queued_seq()[j].created_at),
    {
        let i = choose|i: int| {
            &&& is_next(self.queued_seq(), self.running_seq(), i)
            &&& Some(p).unwrap().same_as(started(self.queued_seq()[i], now))
            &&& after.queued_seq() == self.queued_seq().remove(i)
            &&& after.running_seq() == self.running_seq().push(started(self.queued_seq()[i], now))
        };
        assert forall|j: int| 0 <= j < self.queued_seq().len() && !self.busy(#[trigger] self.queued_seq()[j].tab_id@)
            implies rank(self.queued_seq()[j].priority) <= rank(p.priority)
            && (rank(self.queued_seq()[j].priority) == rank(p.priority) ==> p.created_at <= self.queued_seq()[j].created_at) by {
            assert(!ahead(self.queued_seq()[j], self.queued_seq()[i]));
        }
    }

    /// Cancelling succeeds only on a waiting request, never on a running one, and
    /// a second cancel of the same id fails.
    pub proof fn lemma_cancel_once(self, mid: PromptQueue, after: PromptQueue, id: PromptId, r1: bool, r2: bool)
        requires
            self.wf(),
            self.cancel_post(mid, id, r1),
            mid.cancel_post(after, id, r2),
        ensures
            r1 == self.is_queued(id),
            self.is_running(id) ==> !r1,
            !r2,
    {
        if self.is_running(id) && self.is_queued(id) {
            let a = choose|a: int| 0 <= a < self.queued@.len() && self.queued@[a].id == id;
            let b = choose|b: int| 0 <= b < self.running@.len() && self.running@[b].id == id;
            assert(self.queued@[a].id != self.running@[b].id);
        }
    }

    /// Whether a fresh id is left for another request.
    pub fn can_allocate(&self) -> (r: bool)
        ensures
            r == (self.issued() < u64::MAX),
    {
        self.issued < u64::MAX
    }

    /// No waiting, running or finished request holds an id at or above the
    /// floor; so an id from `allocate_id` is fresh, and `enqueue`, which asks
    /// for such an id, never brings back an id held or cancelled before.
    pub proof fn lemma_unheld_above_floor(self, id: PromptId)
        requires
            self.wf(),
            self.floor() <= id,
        ensures
            !has_id(self.queued_seq(), id),
            !has_id(self.running_seq(), id),
            !has_id(self.history_seq(), id),
    {
        if has_id(self.queued_seq(), id) {
            let k = choose|k: int| 0 <= k < self.queued@.len() && self.queued@[k].id == id;
            assert(self.queued@[k].status == PromptStatus::Queued);
        }
        if has_id(self.running_seq(), id) {
            let k = choose|k: int| 0 <= k < self.running@.len() && self.running@[k].id == id;
            assert(self.running@[k].status == PromptStatus::Processing);
        }
        if has_id(self.history_seq(), id) {
            let k = choose|k: int| 0 <= k < self.completed@.len() && self.completed@[k].id == id;
            assert(self.completed@[k].status == PromptStatus::Completed || self.completed@[k].status == PromptStatus::Failed);
        }
    }

    /// A cancelled id lies below the floor, which no operation lowers; as
    /// `enqueue` takes only ids at or above the floor and every other operation
    /// only removes waiting requests, the id never waits again and every later
    /// `cancel` of it returns false.
    pub proof fn lemma_cancelled_below_floor(self, after: PromptQueue, id: PromptId)
        requires
            self.wf(),
            self.cancel_post(after, id, true),
        ensures
            id < after.floor(),
            !after.is_queued(id),
    {
        let k = choose|k: int| 0 <= k < self.queued_seq().len() && #[trigger] self.queued_seq()[k].id == id
            && after.queued_seq() == self.queued_seq().remove(k);
        assert(self.queued@[k].status == PromptStatus::Queued);
    }

    /// Facts of the invariant that callers use: waiting and running ids are
    /// distinct, waiting ids grow in arrival order, and the history is bounded.
    pub proof fn lemma_wf_facts(self)
        requires
            self.wf(),
        ensures
            ids_distinct(self.queued_seq()),
            ids_distinct(self.running_seq()),
            forall|i: int, j: int| 0 <= i < self.queued_seq().len() && 0 <= j < self.running_seq().len()
                ==> #[trigger] self.queued_seq()[i].id != #[trigger] self.running_seq()[j].id,
            forall|i: int, j: int| 0 <= i < j < self.queued_seq().len()
                ==> self.queued_seq()[i].id < self.queued_seq()[j].id,
            self.history_seq().len() <= HISTORY_CAPACITY,
            self.floor() <= self.issued(),
    {
    }
}

} // verus!
