//! The queue of processes ready to run and the process each hart runs, by
//! process number, and the numbers handed to new processes.
use vstd::prelude::*;
use std::collections::VecDeque;
use crate::error::ErrorNum;
use crate::config::MAX_CPUS;

verus! {

/// The processes ready to run, and the process each hart runs.
pub struct ProcessManagerInner {
    pub process_list: VecDeque<usize>,
    pub running_list: Vec<Option<usize>>,
}

impl ProcessManagerInner {
    /// One running slot per hart.
    pub open spec fn wf(&self) -> bool {
        self.running_list@.len() == MAX_CPUS
    }

    /// Nothing ready and nothing running.
    pub fn new() -> (r: Self)
        ensures
            r.wf(),
            r.process_list@.len() == 0,
            forall|h: int| 0 <= h < MAX_CPUS ==> r.running_list@[h] is None,
    {
        let mut running: Vec<Option<usize>> = Vec::new();
        let mut h: usize = 0;
        while h < MAX_CPUS
            invariant
                h <= MAX_CPUS,
                running@.len() == h,
                forall|k: int| 0 <= k < h ==> running@[k] is None,
            decreases MAX_CPUS - h,
        {
            running.push(None);
            h = h + 1;
        }
        ProcessManagerInner { process_list: VecDeque::new(), running_list: running }
    }

    /// Hart `hart` gives up the process it runs, which joins the end of the
    /// ready queue.
    pub fn enqueue(&mut self, hart: usize, process: usize)
        requires
            old(self).wf(),
            hart < MAX_CPUS,
        ensures
            final(self).wf(),
            final(self).process_list@ == old(self).process_list@.push(process),
            final(self).running_list@ == old(self).running_list@.update(hart as int, None),
    {
        self.running_list.set(hart, None);
        self.process_list.push_back(process);
    }

    /// Hart `hart` takes the process at the end of the ready queue (the one
    /// queued last) and runs it; `None`, with nothing changed, when none is ready.
    pub fn dequeue(&mut self, hart: usize) -> (r: Option<usize>)
        requires
            old(self).wf(),
            hart < MAX_CPUS,
        ensures
            final(self).wf(),
            old(self).process_list@.len() == 0 ==> r is None && final(self).process_list@ == old(self).process_list@
                && final(self).running_list@ == old(self).running_list@,
            old(self).process_list@.len() > 0 ==> r == Some(old(self).process_list@.last())
                && final(self).process_list@ == old(self).process_list@.drop_last()
                && final(self).running_list@ == old(self).running_list@.update(hart as int, r),
    {
        match self.process_list.pop_back() {
            Some(p) => {
                self.running_list.set(hart, Some(p));
                Some(p)
            },
            None => None,
        }
    }

    /// Hart `hart`, which runs a process, stops running it.
    pub fn free_current(&mut self, hart: usize)
        requires
            old(self).wf(),
            hart < MAX_CPUS,
            old(self).running_list@[hart as int] is Some,
        ensures
            final(self).wf(),
            final(self).process_list@ == old(self).process_list@,
            final(self).running_list@ == old(self).running_list@.update(hart as int, None),
    {
        self.running_list.set(hart, None);
    }

    /// The process numbered `pid`, ready or running: `ESRCH` when there is none.
    pub fn get_process(&self, pid: usize) -> (r: Result<usize, ErrorNum>)
        ensures
            (self.process_list@.contains(pid) || self.running_list@.contains(Some(pid))) ==> r == Ok::<usize, ErrorNum>(
                pid,
            ),
            !(self.process_list@.contains(pid) || self.running_list@.contains(Some(pid))) ==> r == Err::<
                usize,
                ErrorNum,
            >(ErrorNum::ESRCH),
    {
        let mut i: usize = 0;
        while i < self.process_list.len()
            invariant
                i <= self.process_list@.len(),
                forall|k: int| 0 <= k < i ==> self.process_list@[k] != pid,
            decreases self.process_list@.len() - i,
        {
            if self.process_list[i] == pid {
                proof {
                    assert(self.process_list@[i as int] == pid);
                }
                return Ok(pid);
            }
            i = i + 1;
        }
        let mut h: usize = 0;
        while h < self.running_list.len()
            invariant
                h <= self.running_list@.len(),
                !self.process_list@.contains(pid),
                forall|k: int| 0 <= k < h ==> self.running_list@[k] != Some(pid),
            decreases self.running_list@.len() - h,
        {
            if let Some(p) = self.running_list[h] {
                if p == pid {
                    proof {
                        assert(self.running_list@[h as int] == Some(pid));
                    }
                    return Ok(pid);
                }
            }
            h = h + 1;
        }
        Err(ErrorNum::ESRCH)
    }
}

/// Hands out process numbers, from 1 on, never one twice (0 is the
/// scheduler's own).
pub struct PIDAllocator {
    pub next_pid: usize,
}

impl PIDAllocator {
    /// The first number handed out is 1.
    pub fn new() -> (r: Self)
        ensures
            r.next_pid == 1,
    {
        PIDAllocator { next_pid: 1 }
    }

    /// The next number: one more than the last one handed out.
    pub fn next(&mut self) -> (r: usize)
        requires
            old(self).next_pid < usize::MAX,
        ensures
            r == old(self).next_pid,
            final(self).next_pid == old(self).next_pid + 1,
    {
        let r = self.next_pid;
        self.next_pid = self.next_pid + 1;
        r
    }
}

} // verus!
