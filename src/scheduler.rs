//! Admission of fetches under a global limit and a per-host limit. The
//! caller performs the fetches; the scheduler decides which may start.
use vstd::prelude::*;

verus! {

/// Where a fetch task stands.
#[derive(Clone, Copy, Debug, PartialEq, Eq, Structural)]
pub enum TaskState {
    Pending,
    Running,
    Done,
}

pub ghost struct SchedulerView {
    /// The host of each task.
    pub hosts: Seq<Seq<char>>,
    pub states: Seq<TaskState>,
    pub global_limit: nat,
    pub per_host_limit: nat,
}

/// The tasks running among the first `n`.
pub open spec fn running_count(states: Seq<TaskState>, n: nat) -> nat
    decreases n,
{
    if n == 0 {
        0
    } else {
        running_count(states, (n - 1) as nat) + if states[n - 1] == TaskState::Running {
            1nat
        } else {
            0nat
        }
    }
}

/// The tasks done among the first `n`.
pub open spec fn done_count(states: Seq<TaskState>, n: nat) -> nat
    decreases n,
{
    if n == 0 {
        0
    } else {
        done_count(states, (n - 1) as nat) + if states[n - 1] == TaskState::Done {
            1nat
        } else {
            0nat
        }
    }
}

pub(crate) proof fn lemma_done_update(states: Seq<TaskState>, i: int, s: TaskState, n: nat)
    requires
        0 <= i < states.len(),
        n <= states.len(),
    ensures
        done_count(states.update(i, s), n) + (if i < n && states[i] == TaskState::Done {
            1nat
        } else {
            0nat
        }) == done_count(states, n) + (if i < n && s == TaskState::Done {
            1nat
        } else {
            0nat
        }),
        done_count(states, n) <= n,
    decreases n,
{
    if n > 0 {
        lemma_done_update(states, i, s, (n - 1) as nat);
    }
}

pub(crate) proof fn lemma_done_zero(states: Seq<TaskState>, n: nat)
    requires
        n <= states.len(),
        forall|k: int| 0 <= k < states.len() ==> states[k] == TaskState::Pending,
    ensures
        done_count(states, n) == 0,
    decreases n,
{
    if n > 0 {
        lemma_done_zero(states, (n - 1) as nat);
    }
}

/// The tasks running against host `h` among the first `n`.
pub open spec fn host_running(hosts: Seq<Seq<char>>, states: Seq<TaskState>, h: Seq<char>, n: nat) -> nat
    decreases n,
{
    if n == 0 {
        0
    } else {
        host_running(hosts, states, h, (n - 1) as nat) + if states[n - 1] == TaskState::Running
            && hosts[n - 1] == h {
            1nat
        } else {
            0nat
        }
    }
}

/// The fetches in flight.
pub open spec fn in_flight(v: SchedulerView) -> nat {
    running_count(v.states, v.states.len())
}

/// The fetches in flight against one host.
pub open spec fn host_in_flight(v: SchedulerView, h: Seq<char>) -> nat {
    host_running(v.hosts, v.states, h, v.states.len())
}

/// The limits hold: no more fetches in flight than the global limit, and
/// none more against one host than the per-host limit.
pub open spec fn within_limits(v: SchedulerView) -> bool {
    &&& v.hosts.len() == v.states.len()
    &&& in_flight(v) <= v.global_limit
    &&& forall|h: Seq<char>| #[trigger] host_in_flight(v, h) <= v.per_host_limit
}

/// Schedules fetch tasks so that at no time more than `global_limit` run,
/// nor more than `per_host_limit` against one host.
pub struct FetchScheduler {
    hosts: Vec<String>,
    states: Vec<TaskState>,
    global_limit: usize,
    per_host_limit: usize,
    running: usize,
}

impl View for FetchScheduler {
    type V = SchedulerView;

    closed spec fn view(&self) -> SchedulerView {
        SchedulerView {
            hosts: self.hosts@.map_values(|s: String| s@),
            states: self.states@,
            global_limit: self.global_limit as nat,
            per_host_limit: self.per_host_limit as nat,
        }
    }
}

proof fn lemma_counts_update(
    hosts: Seq<Seq<char>>,
    states: Seq<TaskState>,
    i: int,
    s: TaskState,
    h: Seq<char>,
    n: nat,
)
    requires
        0 <= i < states.len(),
        n <= states.len(),
    ensures
        running_count(states.update(i, s), n) + (if i < n && states[i] == TaskState::Running {
            1nat
        } else {
            0nat
        }) == running_count(states, n) + (if i < n && s == TaskState::Running {
            1nat
        } else {
            0nat
        }),
        host_running(hosts, states.update(i, s), h, n) + (if i < n && states[i]
            == TaskState::Running && hosts[i] == h {
            1nat
        } else {
            0nat
        }) == host_running(hosts, states, h, n) + (if i < n && s == TaskState::Running
            && hosts[i] == h {
            1nat
        } else {
            0nat
        }),
    decreases n,
{
    if n > 0 {
        lemma_counts_update(hosts, states, i, s, h, (n - 1) as nat);
    }
}

proof fn lemma_counts_zero(hosts: Seq<Seq<char>>, states: Seq<TaskState>, h: Seq<char>, n: nat)
    requires
        n <= states.len(),
        forall|k: int| 0 <= k < states.len() ==> states[k] == TaskState::Pending,
    ensures
        running_count(states, n) == 0,
        host_running(hosts, states, h, n) == 0,
    decreases n,
{
    if n > 0 {
        lemma_counts_zero(hosts, states, h, (n - 1) as nat);
    }
}

impl FetchScheduler {
    /// The running count kept in step with the task states.
    pub closed spec fn wf(&self) -> bool {
        &&& within_limits(self@)
        &&& self.running == in_flight(self@)
        &&& self.hosts@.len() == self.states@.len()
    }

    /// A scheduler for one task per host given, all pending.
    pub fn new(hosts: Vec<String>, global_limit: usize, per_host_limit: usize) -> (r: FetchScheduler)
        ensures
            r.wf(),
            r@.hosts == hosts@.map_values(|s: String| s@),
            r@.states.len() == hosts@.len(),
            forall|k: int| 0 <= k < hosts@.len() ==> r@.states[k] == TaskState::Pending,
            r@.global_limit == global_limit,
            r@.per_host_limit == per_host_limit,
    {
        let n = hosts.len();
        let mut states: Vec<TaskState> = Vec::new();
        let mut i: usize = 0;
        while i < n
            invariant
                i <= n,
                states@.len() == i,
                forall|k: int| 0 <= k < i ==> states@[k] == TaskState::Pending,
            decreases n - i,
        {
            states.push(TaskState::Pending);
            i += 1;
        }
        let r = FetchScheduler { hosts, states, global_limit, per_host_limit, running: 0 };
        proof {
            assert forall|h: Seq<char>| #[trigger] host_in_flight(r@, h) <= r@.per_host_limit by {
                lemma_counts_zero(r@.hosts, r@.states, h, r@.states.len());
            }
            lemma_counts_zero(r@.hosts, r@.states, Seq::empty(), r@.states.len());
        }
        r
    }

    /// The fetches in flight.
    pub fn in_flight(&self) -> (r: usize)
        requires
            self.wf(),
        ensures
            r == in_flight(self@),
    {
        self.running
    }

    /// The number of tasks.
    pub fn len(&self) -> (r: usize)
        requires
            self.wf(),
        ensures
            r == self@.states.len(),
    {
        self.states.len()
    }

    /// The state of task `i`.
    pub fn state(&self, i: usize) -> (r: TaskState)
        requires
            self.wf(),
            i < self@.states.len(),
        ensures
            r == self@.states[i as int],
    {
        self.states[i]
    }

    /// The fetches in flight against one host.
    pub fn host_in_flight(&self, h: &String) -> (r: usize)
        requires
            self.wf(),
        ensures
            r == host_in_flight(self@, h@),
    {
        let n = self.states.len();
        let mut c: usize = 0;
        let mut k: usize = 0;
        while k < n
            invariant
                self.wf(),
                n == self@.states.len(),
                k <= n,
                c == host_running(self@.hosts, self@.states, h@, k as nat),
                c <= k,
            decreases n - k,
        {
            assert(self@.hosts[k as int] == self.hosts@[k as int]@);
            if self.states[k] == TaskState::Running && self.hosts[k] == *h {
                c += 1;
            }
            k += 1;
        }
        c
    }

    /// Starts the first pending task whose host is below the per-host
    /// limit, if the global limit allows one more; `None` where none may
    /// start now.
    pub fn start_next(&mut self) -> (r: Option<usize>)
        requires
            old(self).wf(),
        ensures
            final(self).wf(),
            final(self)@.hosts == old(self)@.hosts,
            final(self)@.global_limit == old(self)@.global_limit,
            final(self)@.per_host_limit == old(self)@.per_host_limit,
            r is None ==> final(self)@ == old(self)@ && (in_flight(old(self)@) >= old(self)@.global_limit
                || forall|k: int|
                0 <= k < old(self)@.states.len() && old(self)@.states[k] == TaskState::Pending
                    ==> host_in_flight(old(self)@, #[trigger] old(self)@.hosts[k])
                    >= old(self)@.per_host_limit),
            r matches Some(i) ==> ({
                &&& i < old(self)@.states.len()
                &&& old(self)@.states[i as int] == TaskState::Pending
                &&& in_flight(old(self)@) < old(self)@.global_limit
                &&& host_in_flight(old(self)@, old(self)@.hosts[i as int]) < old(self)@.per_host_limit
                &&& forall|k: int|
                    0 <= k < i && old(self)@.states[k] == TaskState::Pending ==> host_in_flight(
                        old(self)@,
                        #[trigger] old(self)@.hosts[k],
                    ) >= old(self)@.per_host_limit
                &&& final(self)@.states == old(self)@.states.update(i as int, TaskState::Running)
            }),
    {
        if self.running >= self.global_limit {
            return None;
        }
        let n = self.states.len();
        let mut i: usize = 0;
        while i < n
            invariant
                self.wf(),
                self@ == old(self)@,
                n == self@.states.len(),
                i <= n,
                self.running < self.global_limit,
                forall|k: int|
                    0 <= k < i && self@.states[k] == TaskState::Pending ==> host_in_flight(
                        self@,
                        #[trigger] self@.hosts[k],
                    ) >= self@.per_host_limit,
            decreases n - i,
        {
            if self.states[i] == TaskState::Pending {
                let load = self.host_in_flight(&self.hosts[i]);
                assert(self@.hosts[i as int] == self.hosts@[i as int]@);
                if load < self.per_host_limit {
                    let ghost v0 = self@;
                    self.states.set(i, TaskState::Running);
                    self.running = self.running + 1;
                    proof {
                        let v1 = self@;
                        assert(v1.hosts == v0.hosts);
                        assert(v1.states == v0.states.update(i as int, TaskState::Running));
                        lemma_counts_update(v0.hosts, v0.states, i as int, TaskState::Running, Seq::empty(), v0.states.len());
                        assert forall|h: Seq<char>| #[trigger] host_in_flight(v1, h) <= v1.per_host_limit by {
                            lemma_counts_update(v0.hosts, v0.states, i as int, TaskState::Running, h, v0.states.len());
                            assert(host_in_flight(v0, h) <= v0.per_host_limit);
                        }
                    }
                    return Some(i);
                }
            }
            i += 1;
        }
        None
    }

    /// Marks a running task as done, which frees its place.
    pub fn complete(&mut self, i: usize)
        requires
            old(self).wf(),
            i < old(self)@.states.len(),
            old(self)@.states[i as int] == TaskState::Running,
        ensures
            final(self).wf(),
            final(self)@.hosts == old(self)@.hosts,
            final(self)@.global_limit == old(self)@.global_limit,
            final(self)@.per_host_limit == old(self)@.per_host_limit,
            final(self)@.states == old(self)@.states.update(i as int, TaskState::Done),
    {
        let ghost v0 = self@;
        proof {
            lemma_counts_update(v0.hosts, v0.states, i as int, TaskState::Done, Seq::empty(), v0.states.len());
        }
        self.states.set(i, TaskState::Done);
        self.running = self.running - 1;
        proof {
            let v1 = self@;
            assert(v1.hosts == v0.hosts);
            assert forall|h: Seq<char>| #[trigger] host_in_flight(v1, h) <= v1.per_host_limit by {
                lemma_counts_update(v0.hosts, v0.states, i as int, TaskState::Done, h, v0.states.len());
                assert(host_in_flight(v0, h) <= v0.per_host_limit);
            }
        }
    }
}

/// At every moment of a scheduler's life the limits hold: fetches in
/// flight never exceed the global limit, nor those against one host the
/// per-host limit.
pub proof fn lemma_concurrency_bound(s: FetchScheduler, h: Seq<char>)
    requires
        s.wf(),
    ensures
        within_limits(s@),
        in_flight(s@) <= s@.global_limit,
        host_in_flight(s@, h) <= s@.per_host_limit,
{
}

} // verus!
