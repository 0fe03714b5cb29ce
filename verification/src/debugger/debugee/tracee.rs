//! Threads of the debugee attached with ptrace (tracees) and the bookkeeping
//! of their states. Thread ids and signals are plain numbers (`pid_t`, signal
//! numbers of Linux).

use vstd::prelude::*;

verus! {

#[derive(Clone, Copy, PartialEq, Eq, Debug, Structural)]
pub enum StopType {
    Interrupt,
    /// Stopped by a signal (its number).
    SignalStop(i32),
}

#[derive(Clone, Copy, PartialEq, Eq, Debug, Structural)]
pub enum TraceeStatus {
    Stopped(StopType),
    Running,
}

/// Tracee is a thread attached to debugger with ptrace.
#[derive(Clone, Copy, Debug, PartialEq, Eq, Structural)]
pub struct Tracee {
    /// Thread number, used for user interaction with tracee
    pub number: u32,
    /// Tracee thread id.
    pub pid: i32,
    /// Tracee current status.
    pub status: TraceeStatus,
}

impl Tracee {
    fn new_stopped(pid: i32, number: u32) -> (r: Tracee)
        ensures
            r == (Tracee { number, pid, status: TraceeStatus::Stopped(StopType::Interrupt) }),
    {
        Tracee { number, pid, status: TraceeStatus::Stopped(StopType::Interrupt) }
    }

    fn update_status(&mut self, status: TraceeStatus)
        ensures
            *final(self) == (Tracee { status, ..*old(self) }),
    {
        self.status = status
    }

    /// Record that the tracee was resumed.
    pub fn set_running(&mut self)
        ensures
            *final(self) == (Tracee { status: TraceeStatus::Running, ..*old(self) }),
    {
        self.update_status(TraceeStatus::Running);
    }

    /// Set tracee status into stop.
    ///
    /// Note: this function does not actually stop the tracee.
    pub fn set_stop(&mut self, stop_type: StopType)
        ensures
            *final(self) == (Tracee { status: TraceeStatus::Stopped(stop_type), ..*old(self) }),
    {
        self.update_status(TraceeStatus::Stopped(stop_type));
    }

    /// Returns true if tracee in one of stopping statuses.
    pub fn is_stopped(&self) -> (r: bool)
        ensures
            r == (self.status is Stopped),
    {
        match self.status {
            TraceeStatus::Stopped(_) => true,
            TraceeStatus::Running => false,
        }
    }
}

/// The tracee of a thread, if it is controlled.
pub open spec fn find_tracee(tracees: Seq<Tracee>, pid: i32) -> Option<Tracee>
    decreases tracees.len(),
{
    if tracees.len() == 0 {
        None
    } else if tracees.last().pid == pid {
        Some(tracees.last())
    } else {
        find_tracee(tracees.drop_last(), pid)
    }
}

/// Control of the debugee threads.
pub struct TraceeCtl {
    process_pid: i32,
    threads_state: Vec<Tracee>,
    next_number: u32,
}

impl TraceeCtl {
    pub closed spec fn tracees(&self) -> Seq<Tracee> {
        self.threads_state@
    }

    pub closed spec fn proc_pid_view(&self) -> i32 {
        self.process_pid
    }

    pub closed spec fn next_number_view(&self) -> u32 {
        self.next_number
    }

    /// A thread is controlled at most once.
    pub open spec fn wf(&self) -> bool {
        forall|i: int, j: int|
            0 <= i < j < self.tracees().len() ==> (#[trigger] self.tracees()[i]).pid != (
            #[trigger] self.tracees()[j]).pid
    }

    /// The tracee of a thread, if it is controlled.
    pub open spec fn tracee_of(&self, pid: i32) -> Option<Tracee> {
        find_tracee(self.tracees(), pid)
    }

    /// Controller of a new process whose main thread is stopped.
    pub fn new(proc_pid: i32) -> (r: TraceeCtl)
        ensures
            r.wf(),
            r.proc_pid_view() == proc_pid,
            r.tracees() == seq![Tracee { number: 0, pid: proc_pid, status: TraceeStatus::Stopped(StopType::Interrupt) }],
            r.next_number_view() == 1,
    {
        let mut threads_state = Vec::new();
        threads_state.push(Tracee::new_stopped(proc_pid, 0));
        let r = TraceeCtl { process_pid: proc_pid, threads_state, next_number: 1 };
        assert(r.tracees() =~= seq![Tracee { number: 0, pid: proc_pid, status: TraceeStatus::Stopped(StopType::Interrupt) }]);
        r
    }

    /// Create [`TraceeCtl`] for external process attached by pid.
    ///
    /// # Arguments
    ///
    /// * `proc_pid`: process id
    /// * `threads`: id's of process threads
    pub fn new_external(proc_pid: i32, threads: &[i32]) -> (r: TraceeCtl)
        ensures
            r.wf(),
            r.proc_pid_view() == proc_pid,
            forall|pid: i32|
                (r.tracee_of(pid) is Some) <==> (exists|k: int| 0 <= k < threads@.len() && threads@[k] == pid),
            forall|pid: i32|
                #![trigger r.tracee_of(pid)]
                r.tracee_of(pid) matches Some(t) ==> t.pid == pid && t.status == TraceeStatus::Stopped(
                    StopType::Interrupt,
                ),
    {
        let mut r = TraceeCtl { process_pid: proc_pid, threads_state: Vec::new(), next_number: 0 };
        let mut i: usize = 0;
        while i < threads.len()
            invariant
                i <= threads@.len(),
                r.wf(),
                r.proc_pid_view() == proc_pid,
                forall|pid: i32|
                    (r.tracee_of(pid) is Some) <==> (exists|k: int| 0 <= k < i && threads@[k] == pid),
                forall|pid: i32|
                    #![trigger r.tracee_of(pid)]
                    r.tracee_of(pid) matches Some(t) ==> t.pid == pid && t.status == TraceeStatus::Stopped(
                        StopType::Interrupt,
                    ),
            decreases threads@.len() - i,
        {
            r.add(threads[i]);
            proof {
                assert forall|pid: i32|
                    (r.tracee_of(pid) is Some) <==> (exists|k: int| 0 <= k < i + 1 && threads@[k] == pid) by {
                    if pid != threads@[i as int] {
                        if exists|k: int| 0 <= k < i + 1 && threads@[k] == pid {
                            let k = choose|k: int| 0 <= k < i + 1 && threads@[k] == pid;
                            assert(k < i);
                        }
                    }
                }
            }
            i = i + 1;
        }
        r
    }

    /// Position of a thread in the list of tracees.
    fn position(&self, pid: i32) -> (r: Option<usize>)
        requires
            self.wf(),
        ensures
            match r {
                Some(i) => i < self.tracees().len() && self.tracees()[i as int].pid == pid,
                None => self.tracee_of(pid) is None,
            },
            r is None <==> self.tracee_of(pid) is None,
            r matches Some(i) ==> self.tracee_of(pid) == Some(self.tracees()[i as int]),
    {
        let mut i: usize = 0;
        while i < self.threads_state.len()
            invariant
                i <= self.tracees().len(),
                self.wf(),
                forall|k: int| 0 <= k < i ==> self.tracees()[k].pid != pid,
            decreases self.tracees().len() - i,
        {
            if self.threads_state[i].pid == pid {
                proof {
                    lemma_find_unique(self.tracees(), pid, i as int);
                }
                return Some(i);
            }
            i = i + 1;
        }
        proof {
            lemma_find_absent(self.tracees(), pid);
        }
        None
    }

    /// The tracee of a thread, if it is controlled.
    pub fn tracee(&self, pid: i32) -> (r: Option<Tracee>)
        requires
            self.wf(),
        ensures
            r == self.tracee_of(pid),
    {
        match self.position(pid) {
            Some(i) => Some(self.threads_state[i]),
            None => None,
        }
    }

    /// The tracee of a thread that must be controlled.
    pub fn tracee_ensure(&self, pid: i32) -> (r: Tracee)
        requires
            self.wf(),
            self.tracee_of(pid) is Some,
        ensures
            Some(r) == self.tracee_of(pid),
    {
        match self.position(pid) {
            Some(i) => self.threads_state[i],
            None => vstd::pervasive::unreached(),
        }
    }

    /// Return pid of debugee process main thread.
    pub fn proc_pid(&self) -> (r: i32)
        ensures
            r == self.proc_pid_view(),
    {
        self.process_pid
    }

    /// Adds thread to control, stopped, with the next thread number. A thread
    /// already controlled is replaced.
    pub fn add(&mut self, pid: i32) -> (r: Tracee)
        requires
            old(self).wf(),
        ensures
            final(self).wf(),
            r == (Tracee { number: old(self).next_number_view(), pid, status: TraceeStatus::Stopped(StopType::Interrupt) }),
            final(self).tracee_of(pid) == Some(r),
            forall|other: i32| other != pid ==> #[trigger] final(self).tracee_of(other) == old(self).tracee_of(other),
            final(self).proc_pid_view() == old(self).proc_pid_view(),
            final(self).next_number_view() == old(self).next_number_view().wrapping_add(1),
    {
        let new = Tracee::new_stopped(pid, self.next_number);
        self.next_number = self.next_number.wrapping_add(1);
        match self.position(pid) {
            Some(i) => {
                let ghost before = self.threads_state@;
                self.threads_state.set(i, new);
                proof {
                    lemma_find_after_set(before, i as int, new, pid);
                }
            },
            None => {
                let ghost before = self.threads_state@;
                self.threads_state.push(new);
                proof {
                    assert(self.tracees().drop_last() =~= before);
                    assert forall|other: i32| other != pid implies #[trigger] find_tracee(self.tracees(), other)
                        == find_tracee(before, other) by {}
                    assert forall|a: int, b: int|
                        0 <= a < b < self.tracees().len() implies (#[trigger] self.tracees()[a]).pid != (
                        #[trigger] self.tracees()[b]).pid by {
                        if b == before.len() {
                            if self.tracees()[a].pid == pid {
                                lemma_find_present(before, a);
                            }
                        }
                    }
                }
            },
        }
        new
    }

    /// Remove thread from control.
    pub fn remove(&mut self, pid: i32) -> (r: Option<Tracee>)
        requires
            old(self).wf(),
        ensures
            final(self).wf(),
            r == old(self).tracee_of(pid),
            final(self).tracee_of(pid) is None,
            forall|other: i32| other != pid ==> #[trigger] final(self).tracee_of(other) == old(self).tracee_of(other),
            final(self).proc_pid_view() == old(self).proc_pid_view(),
            final(self).next_number_view() == old(self).next_number_view(),
    {
        match self.position(pid) {
            Some(i) => {
                let ghost before = self.threads_state@;
                let t = self.threads_state.remove(i);
                proof {
                    lemma_find_after_remove(before, i as int, pid);
                }
                Some(t)
            },
            None => None,
        }
    }

    /// Set the stop status of a controlled thread.
    pub fn set_stop(&mut self, pid: i32, stop_type: StopType)
        requires
            old(self).wf(),
        ensures
            final(self).wf(),
            old(self).tracee_of(pid) matches Some(t) ==> final(self).tracee_of(pid) == Some(
                Tracee { status: TraceeStatus::Stopped(stop_type), ..t },
            ),
            old(self).tracee_of(pid) is None ==> final(self).tracee_of(pid) is None,
            forall|other: i32| other != pid ==> #[trigger] final(self).tracee_of(other) == old(self).tracee_of(other),
            final(self).proc_pid_view() == old(self).proc_pid_view(),
            final(self).next_number_view() == old(self).next_number_view(),
    {
        match self.position(pid) {
            Some(i) => {
                let ghost before = self.threads_state@;
                let mut t = self.threads_state[i];
                t.set_stop(stop_type);
                self.threads_state.set(i, t);
                proof {
                    lemma_find_after_set(before, i as int, t, pid);
                }
            },
            None => {},
        }
    }

    /// Record that a controlled thread was resumed.
    pub fn set_running(&mut self, pid: i32)
        requires
            old(self).wf(),
        ensures
            final(self).wf(),
            old(self).tracee_of(pid) matches Some(t) ==> final(self).tracee_of(pid) == Some(
                Tracee { status: TraceeStatus::Running, ..t },
            ),
            old(self).tracee_of(pid) is None ==> final(self).tracee_of(pid) is None,
            forall|other: i32| other != pid ==> #[trigger] final(self).tracee_of(other) == old(self).tracee_of(other),
            final(self).proc_pid_view() == old(self).proc_pid_view(),
            final(self).next_number_view() == old(self).next_number_view(),
    {
        match self.position(pid) {
            Some(i) => {
                let ghost before = self.threads_state@;
                let mut t = self.threads_state[i];
                t.set_running();
                self.threads_state.set(i, t);
                proof {
                    lemma_find_after_set(before, i as int, t, pid);
                }
            },
            None => {},
        }
    }

    /// Copies of the controlled tracees.
    pub fn snapshot(&self) -> (r: Vec<Tracee>)
        ensures
            r@ == self.tracees(),
    {
        self.threads_state.clone()
    }

    /// Threads to resume to continue all currently stopped tracees.
    pub fn cont_stopped_plan(&self) -> (r: Vec<i32>)
        ensures
            r@ == self.tracees().filter(|t: Tracee| t.status is Stopped).map_values(|t: Tracee| t.pid),
    {
        let mut r: Vec<i32> = Vec::new();
        let mut i: usize = 0;
        while i < self.threads_state.len()
            invariant
                i <= self.tracees().len(),
                r@ == self.tracees().subrange(0, i as int).filter(|t: Tracee| t.status is Stopped).map_values(
                    |t: Tracee| t.pid,
                ),
            decreases self.tracees().len() - i,
        {
            let t = self.threads_state[i];
            proof {
                assert(self.tracees().subrange(0, i + 1).drop_last() =~= self.tracees().subrange(0, i as int));
                reveal_with_fuel(Seq::<Tracee>::filter, 1);
            }
            let ghost before = r@;
            if t.is_stopped() {
                r.push(t.pid);
                proof {
                    assert(r@ =~= before.push(t.pid));
                    assert(self.tracees().subrange(0, i + 1).filter(|t: Tracee| t.status is Stopped) =~= self.tracees().subrange(
                        0,
                        i as int,
                    ).filter(|t: Tracee| t.status is Stopped).push(t));
                }
            }
            i = i + 1;
        }
        proof {
            assert(self.tracees().subrange(0, i as int) =~= self.tracees());
        }
        r
    }

    /// Threads to interrupt to stop all currently running tracees, in order.
    pub fn running_pids(&self) -> (r: Vec<i32>)
        ensures
            r@ == self.tracees().filter(|t: Tracee| t.status is Running).map_values(|t: Tracee| t.pid),
    {
        let mut r: Vec<i32> = Vec::new();
        let mut i: usize = 0;
        while i < self.threads_state.len()
            invariant
                i <= self.tracees().len(),
                r@ == self.tracees().subrange(0, i as int).filter(|t: Tracee| t.status is Running).map_values(
                    |t: Tracee| t.pid,
                ),
            decreases self.tracees().len() - i,
        {
            let t = self.threads_state[i];
            proof {
                assert(self.tracees().subrange(0, i + 1).drop_last() =~= self.tracees().subrange(0, i as int));
                reveal_with_fuel(Seq::<Tracee>::filter, 1);
            }
            let ghost before = r@;
            if !t.is_stopped() {
                r.push(t.pid);
                proof {
                    assert(r@ =~= before.push(t.pid));
                    assert(self.tracees().subrange(0, i + 1).filter(|t: Tracee| t.status is Running) =~= self.tracees().subrange(
                        0,
                        i as int,
                    ).filter(|t: Tracee| t.status is Running).push(t));
                }
            }
            i = i + 1;
        }
        proof {
            assert(self.tracees().subrange(0, i as int) =~= self.tracees());
        }
        r
    }

    /// Whether a thread other than the given one is controlled.
    pub fn has_other_than(&self, pid: i32) -> (r: bool)
        ensures
            r == exists|k: int| 0 <= k < self.tracees().len() && self.tracees()[k].pid != pid,
    {
        let mut i: usize = 0;
        while i < self.threads_state.len()
            invariant
                i <= self.tracees().len(),
                forall|k: int| 0 <= k < i ==> self.tracees()[k].pid == pid,
            decreases self.tracees().len() - i,
        {
            if self.threads_state[i].pid != pid {
                return true;
            }
            i = i + 1;
        }
        false
    }

    /// Threads to resume, with the signal to inject into each, to continue all
    /// currently stopped tracees except the excluded ones: the signal of the
    /// injection request goes to its thread, no signal to the others.
    ///
    /// # Arguments
    ///
    /// * `inject_request`: send signal to one of threads.
    /// * `exclude`: set of threads that must be not continued.
    pub fn cont_stopped_ex_plan(&self, inject_request: Option<(i32, i32)>, exclude: &[i32]) -> (r: Vec<(i32, Option<i32>)>)
        ensures
            r@ == cont_ex_plan(self.tracees(), inject_request, exclude@),
            forall|k: int|
                0 <= k < r@.len() ==> (!(inject_request matches Some(req) && req.0 == (#[trigger] r@[k]).0) ==> r@[k].1
                    is None),
            forall|k: int|
                0 <= k < r@.len() ==> ((inject_request matches Some(req) && req.0 == (#[trigger] r@[k]).0) ==> r@[k].1
                    == Some(inject_request->Some_0.1)),
    {
        proof {
            lemma_cont_ex_plan(self.tracees(), inject_request, exclude@);
        }
        let mut r: Vec<(i32, Option<i32>)> = Vec::new();
        let mut i: usize = 0;
        while i < self.threads_state.len()
            invariant
                i <= self.tracees().len(),
                r@ == cont_ex_plan(self.tracees().subrange(0, i as int), inject_request, exclude@),
            decreases self.tracees().len() - i,
        {
            let t = self.threads_state[i];
            proof {
                assert(self.tracees().subrange(0, i + 1).drop_last() =~= self.tracees().subrange(0, i as int));
            }
            let mut excluded = false;
            let mut k: usize = 0;
            while k < exclude.len()
                invariant
                    k <= exclude@.len(),
                    excluded <==> exists|j: int| 0 <= j < k && exclude@[j] == t.pid,
                decreases exclude@.len() - k,
            {
                if exclude[k] == t.pid {
                    excluded = true;
                }
                k = k + 1;
            }
            if !excluded && t.is_stopped() {
                let sig = match inject_request {
                    Some((pid, signal)) => {
                        if pid == t.pid {
                            Some(signal)
                        } else {
                            None
                        }
                    },
                    None => None,
                };
                r.push((t.pid, sig));
            }
            i = i + 1;
        }
        proof {
            assert(self.tracees().subrange(0, i as int) =~= self.tracees());
        }
        r
    }
}

/// Resume plan for a list of tracees: stopped and not excluded tracees, each
/// with the injected signal when it is the thread of the injection request.
pub open spec fn cont_ex_plan(tracees: Seq<Tracee>, inject_request: Option<(i32, i32)>, exclude: Seq<i32>) -> Seq<(i32, Option<i32>)>
    decreases tracees.len(),
{
    if tracees.len() == 0 {
        Seq::empty()
    } else {
        let rest = cont_ex_plan(tracees.drop_last(), inject_request, exclude);
        let t = tracees.last();
        if !exclude.contains(t.pid) && t.status is Stopped {
            let sig = match inject_request {
                Some(req) => if req.0 == t.pid {
                    Some(req.1)
                } else {
                    None
                },
                None => None,
            };
            rest.push((t.pid, sig))
        } else {
            rest
        }
    }
}

proof fn lemma_find_present(tracees: Seq<Tracee>, i: int)
    requires
        0 <= i < tracees.len(),
    ensures
        find_tracee(tracees, tracees[i].pid) is Some,
    decreases tracees.len(),
{
    if tracees.last().pid != tracees[i].pid {
        lemma_find_present(tracees.drop_last(), i);
    }
}

proof fn lemma_find_absent(tracees: Seq<Tracee>, pid: i32)
    requires
        forall|k: int| 0 <= k < tracees.len() ==> tracees[k].pid != pid,
    ensures
        find_tracee(tracees, pid) is None,
    decreases tracees.len(),
{
    if tracees.len() > 0 {
        lemma_find_absent(tracees.drop_last(), pid);
    }
}

proof fn lemma_find_unique(tracees: Seq<Tracee>, pid: i32, i: int)
    requires
        0 <= i < tracees.len(),
        tracees[i].pid == pid,
        forall|a: int, b: int| 0 <= a < b < tracees.len() ==> (#[trigger] tracees[a]).pid != (#[trigger] tracees[b]).pid,
    ensures
        find_tracee(tracees, pid) == Some(tracees[i]),
    decreases tracees.len(),
{
    if i < tracees.len() - 1 {
        assert(tracees.last().pid != pid);
        lemma_find_unique(tracees.drop_last(), pid, i);
    }
}

proof fn lemma_find_after_set(tracees: Seq<Tracee>, i: int, t: Tracee, pid: i32)
    requires
        0 <= i < tracees.len(),
        tracees[i].pid == pid,
        t.pid == pid,
        forall|a: int, b: int| 0 <= a < b < tracees.len() ==> (#[trigger] tracees[a]).pid != (#[trigger] tracees[b]).pid,
    ensures
        find_tracee(tracees.update(i, t), pid) == Some(t),
        forall|other: i32| other != pid ==> #[trigger] find_tracee(tracees.update(i, t), other) == find_tracee(tracees, other),
        forall|a: int, b: int|
            0 <= a < b < tracees.len() ==> (#[trigger] tracees.update(i, t)[a]).pid != (#[trigger] tracees.update(
                i,
                t,
            )[b]).pid,
    decreases tracees.len(),
{
    let u = tracees.update(i, t);
    assert forall|a: int, b: int| 0 <= a < b < u.len() implies (#[trigger] u[a]).pid != (#[trigger] u[b]).pid by {
        assert(u[a].pid == tracees[a].pid && u[b].pid == tracees[b].pid);
    }
    lemma_find_unique(u, pid, i);
    assert forall|other: i32| other != pid implies #[trigger] find_tracee(u, other) == find_tracee(tracees, other) by {
        lemma_find_other_update(tracees, i, t, other);
    }
}

proof fn lemma_find_other_update(tracees: Seq<Tracee>, i: int, t: Tracee, other: i32)
    requires
        0 <= i < tracees.len(),
        tracees[i].pid != other,
        t.pid != other,
    ensures
        find_tracee(tracees.update(i, t), other) == find_tracee(tracees, other),
    decreases tracees.len(),
{
    let u = tracees.update(i, t);
    if i < tracees.len() - 1 {
        assert(u.drop_last() =~= tracees.drop_last().update(i, t));
        lemma_find_other_update(tracees.drop_last(), i, t, other);
    } else {
        assert(u.drop_last() =~= tracees.drop_last());
    }
}

proof fn lemma_find_after_remove(tracees: Seq<Tracee>, i: int, pid: i32)
    requires
        0 <= i < tracees.len(),
        tracees[i].pid == pid,
        forall|a: int, b: int| 0 <= a < b < tracees.len() ==> (#[trigger] tracees[a]).pid != (#[trigger] tracees[b]).pid,
    ensures
        find_tracee(tracees.remove(i), pid) is None,
        find_tracee(tracees, pid) == Some(tracees[i]),
        forall|other: i32| other != pid ==> #[trigger] find_tracee(tracees.remove(i), other) == find_tracee(tracees, other),
        forall|a: int, b: int|
            0 <= a < b < tracees.len() - 1 ==> (#[trigger] tracees.remove(i)[a]).pid != (#[trigger] tracees.remove(
                i,
            )[b]).pid,
{
    let u = tracees.remove(i);
    lemma_find_unique(tracees, pid, i);
    assert forall|k: int| 0 <= k < u.len() implies u[k].pid != pid by {
        if k < i {
            assert(u[k] == tracees[k]);
        } else {
            assert(u[k] == tracees[k + 1]);
        }
    }
    lemma_find_absent(u, pid);
    assert forall|a: int, b: int| 0 <= a < b < u.len() implies (#[trigger] u[a]).pid != (#[trigger] u[b]).pid by {
        let a2 = if a < i { a } else { a + 1 };
        let b2 = if b < i { b } else { b + 1 };
        assert(u[a] == tracees[a2] && u[b] == tracees[b2]);
    }
    assert forall|other: i32| other != pid implies #[trigger] find_tracee(u, other) == find_tracee(tracees, other) by {
        lemma_find_other_remove(tracees, i, other);
    }
}

proof fn lemma_find_other_remove(tracees: Seq<Tracee>, i: int, other: i32)
    requires
        0 <= i < tracees.len(),
        tracees[i].pid != other,
    ensures
        find_tracee(tracees.remove(i), other) == find_tracee(tracees, other),
    decreases tracees.len(),
{
    let u = tracees.remove(i);
    if i < tracees.len() - 1 {
        assert(u.drop_last() =~= tracees.drop_last().remove(i));
        assert(u.last() == tracees.last());
        lemma_find_other_remove(tracees.drop_last(), i, other);
    } else {
        assert(u =~= tracees.drop_last());
    }
}

/// A resume plan resumes exactly the stopped threads that are not excluded,
/// in order, and injects the signal of the request only into the thread of
/// the request: every other thread is resumed without a signal.
pub proof fn lemma_cont_ex_plan(tracees: Seq<Tracee>, inject_request: Option<(i32, i32)>, exclude: Seq<i32>)
    ensures
        forall|k: int|
            0 <= k < cont_ex_plan(tracees, inject_request, exclude).len() ==> {
                let e = #[trigger] cont_ex_plan(tracees, inject_request, exclude)[k];
                &&& exists|i: int|
                    0 <= i < tracees.len() && tracees[i].pid == e.0 && tracees[i].status is Stopped
                        && !exclude.contains(e.0)
                &&& (inject_request matches Some(req) && req.0 == e.0) ==> e.1 == Some(inject_request->Some_0.1)
                &&& !(inject_request matches Some(req) && req.0 == e.0) ==> e.1 is None
            },
        forall|i: int|
            0 <= i < tracees.len() && (#[trigger] tracees[i]).status is Stopped && !exclude.contains(tracees[i].pid)
                ==> exists|k: int|
                0 <= k < cont_ex_plan(tracees, inject_request, exclude).len() && cont_ex_plan(
                    tracees,
                    inject_request,
                    exclude,
                )[k].0 == tracees[i].pid,
    decreases tracees.len(),
{
    if tracees.len() > 0 {
        let init = tracees.drop_last();
        lemma_cont_ex_plan(init, inject_request, exclude);
        let rest = cont_ex_plan(init, inject_request, exclude);
        let r = cont_ex_plan(tracees, inject_request, exclude);
        let t = tracees.last();
        assert forall|k: int| 0 <= k < r.len() implies {
            let e = #[trigger] r[k];
            &&& exists|i: int|
                0 <= i < tracees.len() && tracees[i].pid == e.0 && tracees[i].status is Stopped && !exclude.contains(e.0)
            &&& (inject_request matches Some(req) && req.0 == e.0) ==> e.1 == Some(inject_request->Some_0.1)
            &&& !(inject_request matches Some(req) && req.0 == e.0) ==> e.1 is None
        } by {
            if k < rest.len() {
                assert(r[k] == rest[k]);
                let e = rest[k];
                assert(exists|i: int|
                    0 <= i < init.len() && init[i].pid == e.0 && init[i].status is Stopped && !exclude.contains(e.0));
                let i = choose|i: int|
                    0 <= i < init.len() && init[i].pid == e.0 && init[i].status is Stopped && !exclude.contains(e.0);
                assert(tracees[i] == init[i]);
            } else {
                assert(tracees[tracees.len() - 1] == t);
            }
        }
        assert forall|i: int|
            0 <= i < tracees.len() && (#[trigger] tracees[i]).status is Stopped && !exclude.contains(tracees[i].pid)
                implies exists|k: int| 0 <= k < r.len() && r[k].0 == tracees[i].pid by {
            if i < init.len() {
                assert(init[i] == tracees[i]);
                let k = choose|k: int| 0 <= k < rest.len() && rest[k].0 == init[i].pid;
                assert(r[k] == rest[k]);
            } else {
                assert(r[rest.len() as int].0 == t.pid);
            }
        }
    }
}

} // verus!
