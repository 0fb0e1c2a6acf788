//! The coordinator: owns the tabs, the dispatch queue, the conflict tracker
//! and the router, and moves requests through their lifecycle. Running a
//! request against its provider happens outside, between `next_dispatch` and
//! `record_outcome`.
use vstd::prelude::*;
use crate::conflict::{concurrent, ConflictDetector, add_files, drop_tab, not_listing, normalized_all, others, strs};
use crate::queue::{PromptQueue, finished};
use crate::router::{chosen, classify, sign_in, TaskType, WitcherRouter};
use crate::text::{decimal_of, lower_of, with_number};
use crate::types::{CLIProvider, FileConflict, PromptId, PromptPriority, PromptStatus, QueuedPrompt, QueueStats, TabInfo, TabSession, clone_strings};

verus! {

/// A line of output from a provider's long-lived process.
#[derive(Debug, Clone)]
pub enum ProcessMessage {
    Output(String),
    Error(String),
    Exited(i32),
}

/// Index of the last tab of `tabs` with id `id`, or -1.
pub open spec fn tab_index(tabs: Seq<TabSession>, id: Seq<char>) -> int
    decreases tabs.len(),
{
    if tabs.len() == 0 {
        -1
    } else if tabs.last().tab_id@ == id {
        tabs.len() - 1
    } else {
        tab_index(tabs.drop_last(), id)
    }
}

/// `tab_index` finds a tab with that id when there is one.
pub proof fn lemma_tab_index(tabs: Seq<TabSession>, id: Seq<char>)
    ensures
        -1 <= tab_index(tabs, id) < tabs.len(),
        tab_index(tabs, id) >= 0 ==> tabs[tab_index(tabs, id)].tab_id@ == id,
        tab_index(tabs, id) < 0 ==> forall|i: int| 0 <= i < tabs.len() ==> (#[trigger] tabs[i]).tab_id@ != id,
    decreases tabs.len(),
{
    if tabs.len() > 0 {
        lemma_tab_index(tabs.drop_last(), id);
        assert forall|i: int| 0 <= i < tabs.len() - 1 implies tabs.drop_last()[i] == tabs[i] by {}
    }
}

/// Tab ids are pairwise distinct, and each is "tab_" followed by a number
/// below `next` in decimal.
pub open spec fn tab_ids_ok(tabs: Seq<TabSession>, next: u64) -> bool {
    &&& forall|i: int, j: int| 0 <= i < tabs.len() && 0 <= j < tabs.len() && i != j
            ==> tabs[i].tab_id@ != tabs[j].tab_id@
    &&& forall|i: int| 0 <= i < tabs.len() ==> is_tab_id_below((#[trigger] tabs[i]).tab_id@, next)
}

/// `id` is "tab_" followed by a number below `next` in decimal.
pub open spec fn is_tab_id_below(id: Seq<char>, next: u64) -> bool {
    exists|n: nat| #![trigger decimal_of(n)] n < next && id == "tab_"@ + decimal_of(n)
}

/// Changing tabs in place without touching their ids keeps the ids valid.
pub proof fn lemma_same_ids(before: Seq<TabSession>, after: Seq<TabSession>, next: u64)
    requires
        tab_ids_ok(before, next),
        after.len() == before.len(),
        forall|i: int| 0 <= i < before.len() ==> #[trigger] after[i].tab_id == before[i].tab_id,
    ensures
        tab_ids_ok(after, next),
{
    assert forall|i: int| 0 <= i < after.len() implies is_tab_id_below((#[trigger] after[i]).tab_id@, next) by {
        assert(after[i].tab_id == before[i].tab_id);
        assert(is_tab_id_below(before[i].tab_id@, next));
    }
    assert forall|i: int, j: int| 0 <= i < after.len() && 0 <= j < after.len() && i != j
        implies after[i].tab_id@ != after[j].tab_id@ by {
        assert(after[i].tab_id == before[i].tab_id);
        assert(after[j].tab_id == before[j].tab_id);
    }
}

/// The error text of a failed request, as the caller sees it.
pub open spec fn error_text(e: Seq<char>) -> Seq<char> {
    "Error: "@ + e
}

/// Whether the provider keeps a long-lived process per tab.
pub open spec fn keeps_process(p: CLIProvider) -> bool {
    p == CLIProvider::Hydra
}

/// Whether the library knows how to run requests on the provider.
pub open spec fn has_executor(p: CLIProvider) -> bool {
    !(p == CLIProvider::Codex || p == CLIProvider::Grok)
}

/// Creates tabs, accepts requests, hands them out one at a time and records
/// their outcomes.
pub struct SessionManager {
    tabs: Vec<TabSession>,
    queue: PromptQueue,
    conflicts: ConflictDetector,
    router: WitcherRouter,
    next_tab: u64,
    hydra_path: String,
}

impl SessionManager {
    /// The open tabs, in creation order.
    pub closed spec fn tabs(&self) -> Seq<TabSession> {
        self.tabs@
    }

    /// The dispatch queue.
    pub closed spec fn queue(&self) -> PromptQueue {
        self.queue
    }

    /// The conflict tracker.
    pub closed spec fn detector(&self) -> ConflictDetector {
        self.conflicts
    }

    /// The router.
    pub closed spec fn router(&self) -> WitcherRouter {
        self.router
    }

    /// The number in the id of the next tab.
    pub closed spec fn next_tab(&self) -> u64 {
        self.next_tab
    }

    /// The project directory providers run in and relative paths are joined to.
    pub closed spec fn project_dir(&self) -> Seq<char> {
        self.hydra_path@
    }

    /// The coordinator's invariant.
    pub open spec fn wf(&self) -> bool {
        &&& self.queue().wf()
        &&& self.detector().wf()
        &&& tab_ids_ok(self.tabs(), self.next_tab())
    }

    /// A coordinator with no tab, running at most `max_concurrent` requests at
    /// once in `hydra_path`.
    pub fn new(hydra_path: String, max_concurrent: usize) -> (r: SessionManager)
        ensures
            r.wf(),
            r.tabs().len() == 0,
            r.queue().cap() == max_concurrent,
            r.queue().queued_seq().len() == 0,
            r.queue().running_seq().len() == 0,
            r.queue().history_seq().len() == 0,
            r.queue().floor() == 0,
            r.queue().issued() == 0,
            r.queue().completed_count() == 0,
            r.queue().failed_count() == 0,
            r.queue().wait_total() == 0,
            r.queue().process_total() == 0,
            r.detector().entries().len() == 0,
            r.detector().conflicts().len() == 0,
            r.detector().base() == hydra_path@,
            r.router().history().len() == 0,
            r.next_tab() == 0,
            r.project_dir() == hydra_path@,
    {
        let base = hydra_path.clone();
        SessionManager {
            tabs: Vec::new(),
            queue: PromptQueue::new(max_concurrent),
            conflicts: ConflictDetector::with_base_dir(base),
            router: WitcherRouter::new(),
            next_tab: 0,
            hydra_path,
        }
    }

    /// The project directory.
    pub fn project_path(&self) -> (r: &String)
        ensures
            r@ == self.project_dir(),
    {
        &self.hydra_path
    }

    /// Index of tab `id`, as `tab_index` gives it.
    fn find_tab(&self, id: &String) -> (r: Option<usize>)
        ensures
            r.is_some() == (tab_index(self.tabs(), id@) >= 0),
            r.is_some() ==> r.unwrap() as int == tab_index(self.tabs(), id@) && r.unwrap() < self.tabs@.len(),
    {
        proof {
            lemma_tab_index(self.tabs@, id@);
        }
        let mut i: usize = self.tabs.len();
        assert(self.tabs@.subrange(0, i as int) =~= self.tabs@);
        while i > 0
            invariant
                i <= self.tabs@.len(),
                tab_index(self.tabs@, id@) == tab_index(self.tabs@.subrange(0, i as int), id@),
            decreases i,
        {
            assert(self.tabs@.subrange(0, i as int).drop_last() =~= self.tabs@.subrange(0, i - 1));
            if self.tabs[i - 1].tab_id == *id {
                return Some(i - 1);
            }
            i = i - 1;
        }
        None
    }

    /// Opens a tab named `name` on `provider` at `now`, with id "tab_" followed
    /// by a running number, and returns a copy of it. Whether the provider also
    /// needs a long-lived process is told by `needs_process`.
    pub fn create_tab(&mut self, name: String, provider: CLIProvider, now: u64) -> (r: TabSession)
        requires
            old(self).wf(),
            old(self).next_tab() < u64::MAX,
        ensures
            final(self).wf(),
            r.tab_id@ == "tab_"@ + decimal_of(old(self).next_tab() as nat),
            r.session_id@ == "session_"@ + r.tab_id@ + "_"@ + decimal_of(now as nat),
            r.name == name,
            r.provider == provider,
            r.is_active,
            r.created_at == now,
            r.conversation@.len() == 0,
            final(self).tabs().len() == old(self).tabs().len() + 1,
            final(self).tabs().drop_last() == old(self).tabs(),
            final(self).tabs().last().same_as(r),
            final(self).next_tab() == old(self).next_tab() + 1,
            final(self).queue() == old(self).queue(),
            final(self).detector() == old(self).detector(),
            final(self).router() == old(self).router(),
            final(self).project_dir() == old(self).project_dir(),
    {
        proof {
            reveal_strlit("tab_");
        }
        let id = with_number("tab_", self.next_tab);
        let tab = TabSession::new(id, name, provider, now);
        let copy = tab.clone_exact();
        self.tabs.push(tab);
        self.next_tab = self.next_tab + 1;
        assert(self.tabs@.drop_last() =~= old(self).tabs@);
        proof {
            let t0 = old(self).tabs@;
            let t1 = self.tabs@;
            let m = old(self).next_tab as nat;
            assert(t1[t0.len() as int].tab_id@ == "tab_"@ + decimal_of(m));
            assert forall|i: int| 0 <= i < t1.len() implies is_tab_id_below((#[trigger] t1[i]).tab_id@, self.next_tab) by {
                if i < t0.len() {
                    assert(t1[i] == t0[i]);
                    assert(is_tab_id_below(t0[i].tab_id@, old(self).next_tab));
                    let n = choose|n: nat| #![trigger decimal_of(n)] n < old(self).next_tab && t0[i].tab_id@ == "tab_"@ + decimal_of(n);
                    assert(n < self.next_tab && t1[i].tab_id@ == "tab_"@ + decimal_of(n));
                } else {
                    assert(m < self.next_tab && t1[i].tab_id@ == "tab_"@ + decimal_of(m));
                }
            }
            assert forall|i: int| 0 <= i < t0.len() implies (#[trigger] t0[i]).tab_id@ != "tab_"@ + decimal_of(m) by {
                assert(is_tab_id_below(t0[i].tab_id@, old(self).next_tab));
                let n = choose|n: nat| #![trigger decimal_of(n)] n < old(self).next_tab && t0[i].tab_id@ == "tab_"@ + decimal_of(n);
                if t0[i].tab_id@ == "tab_"@ + decimal_of(m) {
                    crate::text::lemma_prefix_cancel("tab_"@, decimal_of(n), decimal_of(m));
                    crate::text::lemma_decimal_injective(n, m);
                }
            }
            assert forall|i: int, j: int| 0 <= i < t1.len() && 0 <= j < t1.len() && i != j
                implies t1[i].tab_id@ != t1[j].tab_id@ by {
                if i < t0.len() && j < t0.len() {
                    assert(t1[i] == t0[i] && t1[j] == t0[j]);
                } else if i < t0.len() {
                    assert(t1[i] == t0[i]);
                    assert(t0[i].tab_id@ != "tab_"@ + decimal_of(m));
                } else {
                    assert(t1[j] == t0[j]);
                    assert(t0[j].tab_id@ != "tab_"@ + decimal_of(m));
                }
            }
        }
        copy
    }

    /// Whether another tab can be opened: a fresh tab number is left.
    pub fn can_create_tab(&self) -> (r: bool)
        ensures
            r == (self.next_tab() < u64::MAX),
    {
        self.next_tab < u64::MAX
    }

    /// Whether a tab on `provider` keeps a long-lived process.
    pub fn needs_process(provider: CLIProvider) -> (r: bool)
        ensures
            r == keeps_process(provider),
    {
        match provider {
            CLIProvider::Hydra => true,
            _ => false,
        }
    }

    /// Closes tab `id`: it is removed, its waiting requests are cancelled and
    /// its file registrations and the conflicts that list it are dropped;
    /// running requests go on. Closing a tab that is not open changes nothing,
    /// so the call is safe to repeat; it always succeeds.
    pub fn close_tab(&mut self, id: &String) -> (r: Result<(), String>)
        requires
            old(self).wf(),
        ensures
            final(self).wf(),
            r == Ok::<(), String>(()),
            tab_index(old(self).tabs(), id@) < 0 ==> final(self).tabs() == old(self).tabs() && final(self).queue() == old(self).queue()
                && final(self).detector() == old(self).detector(),
            tab_index(old(self).tabs(), id@) >= 0 ==> final(self).tabs() == old(self).tabs().remove(
                tab_index(old(self).tabs(), id@)),
            tab_index(final(self).tabs(), id@) < 0,
            tab_index(old(self).tabs(), id@) >= 0 ==> final(self).detector().entries() == drop_tab(
                old(self).detector().entries(), id@),
            tab_index(old(self).tabs(), id@) >= 0 ==> final(self).detector().conflicts() == not_listing(
                old(self).detector().conflicts(), id@),
            tab_index(old(self).tabs(), id@) >= 0 ==> final(self).queue().running_seq() == old(self).queue().running_seq(),
            tab_index(old(self).tabs(), id@) >= 0 ==> forall|p: QueuedPrompt| final(self).queue().queued_seq().contains(p)
                <==> old(self).queue().queued_seq().contains(p) && p.tab_id@ != id@,
            final(self).router() == old(self).router(),
            final(self).next_tab() == old(self).next_tab(),
            final(self).project_dir() == old(self).project_dir(),
    {
        match self.find_tab(id) {
            None => {
                proof {
                    lemma_tab_index(self.tabs@, id@);
                }
                Ok(())
            },
            Some(i) => {
                let ghost t0 = self.tabs@;
                self.tabs.remove(i);
                proof {
                    let t1 = self.tabs@;
                    lemma_tab_index(t0, id@);
                    assert forall|a: int| 0 <= a < t1.len() implies is_tab_id_below((#[trigger] t1[a]).tab_id@, self.next_tab) by {
                        let a0 = if a < i { a } else { a + 1 };
                        assert(t1[a] == t0[a0]);
                        assert(is_tab_id_below(t0[a0].tab_id@, self.next_tab));
                    }
                    assert forall|a: int, b: int| 0 <= a < t1.len() && 0 <= b < t1.len() && a != b
                        implies t1[a].tab_id@ != t1[b].tab_id@ by {
                        let a0 = if a < i { a } else { a + 1 };
                        let b0 = if b < i { b } else { b + 1 };
                        assert(t1[a] == t0[a0] && t1[b] == t0[b0]);
                    }
                    lemma_tab_index(t1, id@);
                    if tab_index(t1, id@) >= 0 {
                        let a = tab_index(t1, id@);
                        let a0 = if a < i { a } else { a + 1 };
                        assert(t1[a] == t0[a0]);
                        assert(t0[i as int].tab_id@ == id@);
                    }
                }
                self.queue.cancel_tab(id);
                self.conflicts.unregister_tab(id);
                Ok(())
            },
        }
    }

    /// A summary of every open tab, in creation order.
    pub fn get_tabs(&self) -> (r: Vec<TabInfo>)
        ensures
            r@.len() == self.tabs().len(),
            forall|i: int| 0 <= i < r@.len() ==> {
                let t = #[trigger] self.tabs()[i];
                &&& r@[i].tab_id == t.tab_id
                &&& r@[i].name == t.name
                &&& r@[i].provider == t.provider
                &&& r@[i].is_active == t.is_active
                &&& !r@[i].has_unread
                &&& r@[i].message_count as nat == t.conversation@.len()
                &&& r@[i].last_activity == t.last_activity
                &&& r@[i].has_conflict == (crate::conflict::listing(self.detector().conflicts(), t.tab_id@).len() > 0)
            },
    {
        let mut out: Vec<TabInfo> = Vec::new();
        let mut k: usize = 0;
        while k < self.tabs.len()
            invariant
                k <= self.tabs@.len(),
                out@.len() == k,
                forall|i: int| 0 <= i < k ==> {
                    let t = #[trigger] self.tabs@[i];
                    &&& out@[i].tab_id == t.tab_id
                    &&& out@[i].name == t.name
                    &&& out@[i].provider == t.provider
                    &&& out@[i].is_active == t.is_active
                    &&& !out@[i].has_unread
                    &&& out@[i].message_count as nat == t.conversation@.len()
                    &&& out@[i].last_activity == t.last_activity
                    &&& out@[i].has_conflict == (crate::conflict::listing(self.conflicts.conflicts(), t.tab_id@).len() > 0)
                },
            decreases self.tabs.len() - k,
        {
            let t = &self.tabs[k];
            out.push(TabInfo {
                tab_id: t.tab_id.clone(),
                name: t.name.clone(),
                provider: t.provider,
                is_active: t.is_active,
                has_unread: false,
                message_count: t.conversation.len(),
                last_activity: t.last_activity,
                has_conflict: self.conflicts.has_conflicts(&t.tab_id),
            });
            k = k + 1;
        }
        out
    }

    /// A copy of tab `id`, if it is open.
    pub fn get_tab(&self, id: &String) -> (r: Option<TabSession>)
        ensures
            r.is_some() == (tab_index(self.tabs(), id@) >= 0),
            r.is_some() ==> r.unwrap().same_as(self.tabs()[tab_index(self.tabs(), id@)]),
    {
        match self.find_tab(id) {
            None => None,
            Some(i) => Some(self.tabs[i].clone_exact()),
        }
    }

    /// Renames tab `id`; an error when no such tab is open.
    pub fn rename_tab(&mut self, id: &String, new_name: String) -> (r: Result<(), String>)
        requires
            old(self).wf(),
        ensures
            final(self).wf(),
            r.is_ok() == (tab_index(old(self).tabs(), id@) >= 0),
            r.is_err() ==> final(self).tabs() == old(self).tabs() && r.unwrap_err()@ == "Tab not found"@,
            r.is_ok() ==> {
                let i = tab_index(old(self).tabs(), id@);
                final(self).tabs() == old(self).tabs().update(i, TabSession { name: new_name, ..old(self).tabs()[i] })
            },
            final(self).queue() == old(self).queue(),
            final(self).detector() == old(self).detector(),
            final(self).router() == old(self).router(),
            final(self).next_tab() == old(self).next_tab(),
            final(self).project_dir() == old(self).project_dir(),
    {
        match self.find_tab(id) {
            None => {
                proof {
                    reveal_strlit("Tab not found");
                }
                Err(String::from_str("Tab not found"))
            },
            Some(i) => {
                let ghost v0 = self.tabs@;
                let mut t = self.tabs.remove(i);
                t.name = new_name;
                self.tabs.insert(i, t);
                assert(self.tabs@ =~= v0.update(i as int, t));
                proof {
                    lemma_same_ids(v0, self.tabs@, self.next_tab);
                }
                Ok(())
            },
        }
    }

    /// Accepts a request with `content` and `priority` for tab `id` at `now`:
    /// the router classifies the text, records its decision and picks the
    /// provider, and the request is queued on that provider under a fresh id,
    /// which is returned. An error, with nothing changed, when no such tab is
    /// open or no id is left.
    pub fn send_prompt(&mut self, id: &String, content: String, priority: PromptPriority, now: u64) -> (r: Result<PromptId, String>)
        requires
            old(self).wf(),
        ensures
            final(self).wf(),
            tab_index(old(self).tabs(), id@) < 0 ==> r.is_err() && r.unwrap_err()@ == "Tab not found"@,
            tab_index(old(self).tabs(), id@) >= 0 && old(self).queue().issued() == u64::MAX ==> r.is_err()
                && r.unwrap_err()@ == "Request ids exhausted"@,
            r.is_err() ==> final(self).queue() == old(self).queue() && final(self).router() == old(self).router(),
            r.is_ok() == (tab_index(old(self).tabs(), id@) >= 0 && old(self).queue().issued() < u64::MAX),
            r.is_ok() ==> {
                let tab = old(self).tabs()[tab_index(old(self).tabs(), id@)];
                let q = final(self).queue().queued_seq();
                let p = q.last();
                let h = final(self).router().history();
                let kind = classify(lower_of(content@));
                let provider = chosen(kind, sign_in(lower_of(content@)));
                &&& r.unwrap() == old(self).queue().issued()
                &&& q.len() == old(self).queue().queued_seq().len() + 1
                &&& q.drop_last() == old(self).queue().queued_seq()
                &&& p.id == r.unwrap()
                &&& p.tab_id@ == id@
                &&& p.session_id == tab.session_id
                &&& p.content == content
                &&& p.provider == provider
                &&& p.priority == priority
                &&& p.status == PromptStatus::Queued
                &&& p.created_at == now
                &&& p.started_at.is_none()
                &&& p.completed_at.is_none()
                &&& p.response.is_none()
                &&& p.error.is_none()
                &&& p.affected_files@.len() == 0
                &&& final(self).queue().running_seq() == old(self).queue().running_seq()
                &&& final(self).queue().history_seq() == old(self).queue().history_seq()
                &&& final(self).queue().cap() == old(self).queue().cap()
                &&& final(self).queue().issued() == old(self).queue().issued() + 1
                &&& final(self).queue().floor() == r.unwrap() + 1
                &&& final(self).queue().completed_count() == old(self).queue().completed_count()
                &&& final(self).queue().failed_count() == old(self).queue().failed_count()
                &&& final(self).queue().wait_total() == old(self).queue().wait_total()
                &&& final(self).queue().process_total() == old(self).queue().process_total()
                &&& h.len() == old(self).router().history().len() + 1
                &&& h.drop_last() == old(self).router().history()
                &&& h.last().detected_type == kind
                &&& h.last().routed_to == provider
            },
            final(self).tabs() == old(self).tabs(),
            final(self).detector() == old(self).detector(),
            final(self).next_tab() == old(self).next_tab(),
            final(self).project_dir() == old(self).project_dir(),
    {
        match self.find_tab(id) {
            None => {
                proof {
                    reveal_strlit("Tab not found");
                }
                Err(String::from_str("Tab not found"))
            },
            Some(i) => {
                if !self.queue.can_allocate() {
                    proof {
                        reveal_strlit("Request ids exhausted");
                    }
                    return Err(String::from_str("Request ids exhausted"));
                }
                let (provider, _, _) = self.router.route(content.as_str(), now);
                let pid = self.queue.allocate_id();
                let tab = &self.tabs[i];
                let prompt = QueuedPrompt::new(pid, id.clone(), tab.session_id.clone(), content, provider, now)
                    .with_priority(priority);
                let r = self.queue.enqueue(prompt);
                Ok(r)
            },
        }
    }

    /// Starts the next request, as the queue's `dequeue` picks it. The caller
    /// runs it on its provider and hands the outcome to `record_outcome`.
    pub fn next_dispatch(&mut self, now: u64) -> (r: Option<QueuedPrompt>)
        requires
            old(self).wf(),
        ensures
            final(self).wf(),
            old(self).queue().dequeue_post(final(self).queue(), now, r),
            final(self).tabs() == old(self).tabs(),
            final(self).detector() == old(self).detector(),
            final(self).router() == old(self).router(),
            final(self).next_tab() == old(self).next_tab(),
            final(self).project_dir() == old(self).project_dir(),
    {
        self.queue.dequeue(now)
    }

    /// Records at `now` the outcome of running request `prompt`. On success the
    /// request's text and the reply are appended to its tab's conversation and
    /// the request is Completed; the reply is returned. On failure the request
    /// is Failed and "Error: " followed by the error text is returned.
    pub fn record_outcome(&mut self, prompt: &QueuedPrompt, outcome: Result<String, String>, now: u64) -> (r: (PromptId, String))
        requires
            old(self).wf(),
        ensures
            final(self).wf(),
            r.0 == prompt.id,
            outcome.is_ok() ==> r.1 == outcome.unwrap(),
            outcome.is_ok() ==> old(self).queue().finish_post(final(self).queue(), prompt.id, now,
                old(self).queue().is_running(prompt.id),
                |p: QueuedPrompt| finished(p, PromptStatus::Completed, now, Some(outcome.unwrap()), None), true),
            outcome.is_ok() && tab_index(old(self).tabs(), prompt.tab_id@) >= 0 ==> {
                let i = tab_index(old(self).tabs(), prompt.tab_id@);
                let before = old(self).tabs()[i].conversation@;
                let after = final(self).tabs()[i].conversation@;
                &&& final(self).tabs().len() == old(self).tabs().len()
                &&& forall|j: int| 0 <= j < old(self).tabs().len() && j != i ==> final(self).tabs()[j] == old(self).tabs()[j]
                &&& final(self).tabs()[i].tab_id == old(self).tabs()[i].tab_id
                &&& final(self).tabs()[i].name == old(self).tabs()[i].name
                &&& after.len() == before.len() + 2
                &&& after.subrange(0, before.len() as int) == before
                &&& after[before.len() as int].role@ == "user"@
                &&& after[before.len() as int].content@ == prompt.content@
                &&& after[before.len() as int + 1].role@ == "assistant"@
                &&& after[before.len() as int + 1].content@ == outcome.unwrap()@
                &&& final(self).tabs()[i].last_activity == now
            },
            outcome.is_ok() && tab_index(old(self).tabs(), prompt.tab_id@) < 0 ==> final(self).tabs() == old(self).tabs(),
            outcome.is_err() ==> r.1@ == error_text(outcome.unwrap_err()@),
            outcome.is_err() ==> old(self).queue().finish_post(final(self).queue(), prompt.id, now,
                old(self).queue().is_running(prompt.id),
                |p: QueuedPrompt| finished(p, PromptStatus::Failed, now, None, Some(outcome.unwrap_err())), false),
            outcome.is_err() ==> final(self).tabs() == old(self).tabs(),
            final(self).detector() == old(self).detector(),
            final(self).router() == old(self).router(),
            final(self).next_tab() == old(self).next_tab(),
            final(self).project_dir() == old(self).project_dir(),
    {
        match outcome {
            Ok(response) => {
                match self.find_tab(&prompt.tab_id) {
                    None => {},
                    Some(i) => {
                        proof {
                            reveal_strlit("user");
                            reveal_strlit("assistant");
                        }
                        let ghost v0 = self.tabs@;
                        let mut t = self.tabs.remove(i);
                        let ghost c0 = t.conversation@;
                        t.add_message("user", prompt.content.as_str(), prompt.provider, now);
                        let ghost c1 = t.conversation@;
                        t.add_message("assistant", response.as_str(), prompt.provider, now);
                        proof {
                            let c2 = t.conversation@;
                            assert(c2.drop_last() == c1);
                            assert(c1.drop_last() == c0);
                            assert(c2[c0.len() as int] == c1[c0.len() as int]);
                            assert(c2.subrange(0, c0.len() as int) =~= c0) by {
                                assert forall|j: int| 0 <= j < c0.len() implies c2[j] == c0[j] by {
                                    assert(c2[j] == c1[j]);
                                    assert(c1[j] == c0[j]);
                                }
                            }
                        }
                        self.tabs.insert(i, t);
                        assert(self.tabs@ =~= v0.update(i as int, t));
                        proof {
                            lemma_same_ids(v0, self.tabs@, self.next_tab);
                        }
                    },
                }
                let reply = response.clone();
                self.queue.complete(prompt.id, response, now);
                (prompt.id, reply)
            },
            Err(error) => {
                proof {
                    reveal_strlit("Error: ");
                }
                let text = String::from_str("Error: ").concat(error.as_str());
                self.queue.fail(prompt.id, error, now);
                (prompt.id, text)
            },
        }
    }

    /// The error that running a request on `provider` gives when the library
    /// has no way to run it; `None` for the providers it can run.
    pub fn unsupported_provider_error(provider: CLIProvider) -> (r: Option<String>)
        ensures
            r.is_some() == !has_executor(provider),
            r.is_some() ==> r.unwrap()@ == "Provider "@ + crate::types::provider_name(provider) + " not implemented yet"@,
    {
        match provider {
            CLIProvider::Codex | CLIProvider::Grok => {
                proof {
                    reveal_strlit("Provider ");
                    reveal_strlit(" not implemented yet");
                }
                let msg = String::from_str("Provider ").concat(provider.name()).concat(" not implemented yet");
                Some(msg)
            },
            _ => None,
        }
    }

    /// Makes `files` the files tab `id` works on, at `now`: the tab's active
    /// files, if the tab is open, and the conflict tracker's registrations.
    pub fn register_tab_files(&mut self, id: &String, files: Vec<String>, now: u64)
        requires
            old(self).wf(),
        ensures
            final(self).wf(),
            final(self).detector().entries() == add_files(drop_tab(old(self).detector().entries(), id@), id@,
                normalized_all(old(self).detector().base(), strs(files@))),
            final(self).detector().conflicts() == others(old(self).detector().conflicts())
                + concurrent(final(self).detector().entries(), now),
            final(self).detector().base() == old(self).detector().base(),
            final(self).tabs().len() == old(self).tabs().len(),
            tab_index(old(self).tabs(), id@) >= 0 ==> {
                let i = tab_index(old(self).tabs(), id@);
                &&& final(self).tabs()[i].active_files@ == files@
                &&& final(self).tabs()[i].last_activity == now
                &&& final(self).tabs()[i].conversation == old(self).tabs()[i].conversation
                &&& forall|j: int| 0 <= j < old(self).tabs().len() && j != i ==> final(self).tabs()[j] == old(self).tabs()[j]
            },
            tab_index(old(self).tabs(), id@) < 0 ==> final(self).tabs() == old(self).tabs(),
            final(self).queue() == old(self).queue(),
            final(self).router() == old(self).router(),
            final(self).next_tab() == old(self).next_tab(),
            final(self).project_dir() == old(self).project_dir(),
    {
        match self.find_tab(id) {
            None => {},
            Some(i) => {
                let ghost v0 = self.tabs@;
                let mut t = self.tabs.remove(i);
                t.update_active_files(clone_strings(&files), now);
                self.tabs.insert(i, t);
                assert(self.tabs@ =~= v0.update(i as int, t));
                proof {
                    lemma_same_ids(v0, self.tabs@, self.next_tab);
                }
            },
        }
        self.conflicts.register_files(id, files, now);
    }

    /// All current conflicts.
    pub fn get_conflicts(&self) -> (r: &Vec<FileConflict>)
        ensures
            crate::conflict::conflicts_of(r@) == self.detector().conflicts(),
    {
        self.conflicts.get_conflicts()
    }

    /// Copies of the conflicts that list tab `id`.
    pub fn get_tab_conflicts(&self, id: &String) -> (r: Vec<FileConflict>)
        ensures
            crate::conflict::conflicts_of(r@) == crate::conflict::listing(self.detector().conflicts(), id@),
    {
        self.conflicts.get_tab_conflicts(id)
    }

    /// The queue's statistics.
    pub fn get_queue_stats(&self) -> (r: QueueStats)
        ensures
            r.total_queued as nat == self.queue().queued_seq().len(),
            r.processing as nat == self.queue().running_seq().len(),
            r.completed_today == self.queue().completed_count(),
            r.failed_today == self.queue().failed_count(),
            r.average_wait_ms == crate::queue::average(self.queue().wait_total(),
                self.queue().completed_count() as nat + self.queue().failed_count() as nat),
            r.average_process_ms == crate::queue::average(self.queue().process_total(),
                self.queue().completed_count() as nat + self.queue().failed_count() as nat),
    {
        self.queue.get_stats()
    }

    /// Whether a request of tab `id` runs now.
    pub fn is_tab_busy(&self, id: &String) -> (r: bool)
        ensures
            r == self.queue().busy(id@),
    {
        self.queue.is_tab_busy(id)
    }

    /// Cancels waiting request `id`; false for a running, finished or unknown one.
    pub fn cancel_prompt(&mut self, id: PromptId) -> (r: bool)
        requires
            old(self).wf(),
        ensures
            final(self).wf(),
            old(self).queue().cancel_post(final(self).queue(), id, r),
            final(self).tabs() == old(self).tabs(),
            final(self).detector() == old(self).detector(),
            final(self).router() == old(self).router(),
            final(self).next_tab() == old(self).next_tab(),
            final(self).project_dir() == old(self).project_dir(),
    {
        self.queue.cancel(id)
    }

    /// Category and provider of the most recent routing decision, if any.
    pub fn last_route(&self) -> (r: Option<(TaskType, CLIProvider)>)
        ensures
            r.is_none() == (self.router().history().len() == 0),
            r.is_some() ==> r.unwrap() == (self.router().history().last().detected_type,
                self.router().history().last().routed_to),
    {
        self.router.last_decision()
    }

    /// Records `mtime` as the baseline modification time of `path` unless one
    /// is recorded already.
    pub fn record_file_baseline(&mut self, path: &str, mtime: u64)
        requires
            old(self).wf(),
        ensures
            final(self).wf(),
            final(self).detector().entries() == old(self).detector().entries(),
            final(self).detector().conflicts() == old(self).detector().conflicts(),
            final(self).detector().base() == old(self).detector().base(),
            crate::conflict::baseline(old(self).detector().stamps(), crate::conflict::normalized(
                old(self).detector().base(), path@)).is_some() ==> final(self).detector().stamps()
                == old(self).detector().stamps(),
            crate::conflict::baseline(old(self).detector().stamps(), crate::conflict::normalized(
                old(self).detector().base(), path@)).is_none() ==> final(self).detector().stamps()
                == old(self).detector().stamps().push((crate::conflict::normalized(old(self).detector().base(), path@), mtime)),
            final(self).tabs() == old(self).tabs(),
            final(self).queue() == old(self).queue(),
            final(self).router() == old(self).router(),
            final(self).next_tab() == old(self).next_tab(),
            final(self).project_dir() == old(self).project_dir(),
    {
        self.conflicts.record_baseline(path, mtime);
    }

    /// Checks `path` against `current`, its modification time on disk, as the
    /// tracker's `check_external_change` does at `now`.
    pub fn check_file_change(&mut self, path: &str, current: Option<u64>, now: u64) -> (r: bool)
        requires
            old(self).wf(),
        ensures
            final(self).wf(),
            ({
                let d0 = old(self).detector();
                let d1 = final(self).detector();
                let key = crate::conflict::normalized(d0.base(), path@);
                let b = crate::conflict::baseline(d0.stamps(), key);
                let i = crate::conflict::find(d0.entries(), key);
                &&& r == (b.is_some() && current.is_some() && current.unwrap() > b.unwrap())
                &&& !r ==> d1.stamps() == d0.stamps() && d1.conflicts() == d0.conflicts()
                &&& r ==> d1.stamps() == d0.stamps().push((key, current.unwrap()))
                &&& r && i >= 0 ==> d1.conflicts() == d0.conflicts().push(crate::conflict::ConflictModel {
                        path: key, tabs: d0.entries()[i].1, kind: crate::types::ConflictType::ExternalChange, at: now })
                &&& r && i < 0 ==> d1.conflicts() == d0.conflicts()
                &&& d1.entries() == d0.entries()
                &&& d1.base() == d0.base()
            }),
            final(self).tabs() == old(self).tabs(),
            final(self).queue() == old(self).queue(),
            final(self).router() == old(self).router(),
            final(self).next_tab() == old(self).next_tab(),
            final(self).project_dir() == old(self).project_dir(),
    {
        self.conflicts.check_external_change(path, current, now)
    }
}

} // verus!
