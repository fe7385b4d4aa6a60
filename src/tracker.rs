//! The process tree tracker: the last-known cumulative on-CPU time of every
//! child of the monitored process that was ever observed.

use vstd::prelude::*;

verus! {

/// One child found at a tick, with its cumulative on-CPU time in nanoseconds
/// where reading it succeeded.
#[derive(Clone, Copy, Debug, PartialEq, Eq, Structural)]
pub struct ChildReading {
    pub pid: u32,
    pub cpu_time: Option<u64>,
}

/// The entries `(pid, time)` hold each pid at most once.
pub open spec fn keys_unique(s: Seq<(u32, u64)>) -> bool {
    forall|i: int, j: int| 0 <= i < s.len() && 0 <= j < s.len() && i != j ==> s[i].0 != s[j].0
}

/// The entries record a time for `pid`.
pub open spec fn has_pid(s: Seq<(u32, u64)>, pid: u32) -> bool {
    exists|j: int| 0 <= j < s.len() && s[j].0 == pid
}

/// The position of `pid` in the entries, or `-1`.
pub open spec fn index_of(s: Seq<(u32, u64)>, pid: u32) -> int {
    if has_pid(s, pid) {
        choose|j: int| 0 <= j < s.len() && s[j].0 == pid
    } else {
        -1
    }
}

/// The entries after recording `time` for `pid`: an existing entry is
/// overwritten in place, a new pid is appended.
pub open spec fn upsert(s: Seq<(u32, u64)>, pid: u32, time: u64) -> Seq<(u32, u64)> {
    if has_pid(s, pid) {
        s.update(index_of(s, pid), (pid, time))
    } else {
        s.push((pid, time))
    }
}

/// The entries after one tick's child readings, taken in order; a failed
/// read leaves the entries as they were.
pub open spec fn apply_readings(s: Seq<(u32, u64)>, r: Seq<ChildReading>) -> Seq<(u32, u64)>
    decreases r.len(),
{
    if r.len() == 0 {
        s
    } else {
        let t = apply_readings(s, r.drop_last());
        match r.last().cpu_time {
            Some(v) => upsert(t, r.last().pid, v),
            None => t,
        }
    }
}

/// Sum of the times of the first `n` entries.
pub open spec fn time_sum(s: Seq<(u32, u64)>, n: int) -> int
    decreases n,
{
    if n <= 0 {
        0
    } else {
        time_sum(s, n - 1) + s[n - 1].1
    }
}

/// The combined cumulative time: the monitored process's own time plus the
/// retained time of every child ever observed.
pub open spec fn combined_time(own: u64, s: Seq<(u32, u64)>) -> int {
    own + time_sum(s, s.len() as int)
}

/// Last-known cumulative on-CPU time of each child observed so far. Entries
/// are never removed: an exited child keeps its last value.
#[derive(Debug)]
pub struct ProcessCpuTime {
    pub entries: Vec<(u32, u64)>,
}

proof fn lemma_time_sum_bound(s: Seq<(u32, u64)>, n: int)
    requires
        0 <= n <= s.len(),
    ensures
        0 <= time_sum(s, n) <= n * 0x1_0000_0000_0000_0000,
    decreases n,
{
    if n > 0 {
        lemma_time_sum_bound(s, n - 1);
    }
}

proof fn lemma_upsert_unique(s: Seq<(u32, u64)>, pid: u32, time: u64)
    requires
        keys_unique(s),
    ensures
        keys_unique(upsert(s, pid, time)),
        forall|q: u32| q != pid ==> (#[trigger] has_pid(upsert(s, pid, time), q) <==> has_pid(s, q)),
        forall|q: u32| q != pid && has_pid(s, q) ==> #[trigger] index_of(upsert(s, pid, time), q) == index_of(s, q),
        has_pid(upsert(s, pid, time), pid),
        upsert(s, pid, time)[index_of(upsert(s, pid, time), pid)].1 == time,
{
    let t = upsert(s, pid, time);
    if has_pid(s, pid) {
        let j = index_of(s, pid);
        assert forall|q: u32| q != pid implies (#[trigger] has_pid(t, q) <==> has_pid(s, q)) by {
            if has_pid(s, q) {
                let k = choose|k: int| 0 <= k < s.len() && s[k].0 == q;
                assert(t[k].0 == q);
            }
            if has_pid(t, q) {
                let k = choose|k: int| 0 <= k < t.len() && t[k].0 == q;
                assert(s[k].0 == q);
            }
        }
        assert forall|q: u32| q != pid && has_pid(s, q) implies #[trigger] index_of(t, q) == index_of(s, q) by {
            let k = index_of(s, q);
            assert(t[k].0 == q);
        }
        assert(t[j].0 == pid);
    } else {
        assert forall|q: u32| q != pid implies (#[trigger] has_pid(t, q) <==> has_pid(s, q)) by {
            if has_pid(s, q) {
                let k = choose|k: int| 0 <= k < s.len() && s[k].0 == q;
                assert(t[k].0 == q);
            }
            if has_pid(t, q) {
                let k = choose|k: int| 0 <= k < t.len() && t[k].0 == q;
                assert(k < s.len());
                assert(s[k].0 == q);
            }
        }
        assert forall|q: u32| q != pid && has_pid(s, q) implies #[trigger] index_of(t, q) == index_of(s, q) by {
            let k = index_of(s, q);
            assert(t[k].0 == q);
        }
        assert(t[s.len() as int].0 == pid);
    }
}

/// `t` keeps the pids of `s` in place and no time of `s` went down.
pub open spec fn dominates(t: Seq<(u32, u64)>, s: Seq<(u32, u64)>) -> bool {
    &&& s.len() <= t.len()
    &&& forall|j: int| 0 <= j < s.len() ==> #[trigger] t[j].0 == s[j].0 && t[j].1 >= s[j].1
}

proof fn lemma_dominates_sum(t: Seq<(u32, u64)>, s: Seq<(u32, u64)>, n: int)
    requires
        dominates(t, s),
        0 <= n <= t.len(),
    ensures
        n <= s.len() ==> time_sum(t, n) >= time_sum(s, n),
        n >= s.len() ==> time_sum(t, n) >= time_sum(s, s.len() as int),
    decreases n,
{
    if n > 0 {
        lemma_dominates_sum(t, s, n - 1);
        if n - 1 < s.len() {
            assert(t[n - 1].0 == s[n - 1].0);
        }
    }
}

/// Everything that `s` records for pids other than the readings' is kept,
/// position and time.
proof fn lemma_apply_keeps_others(s: Seq<(u32, u64)>, r: Seq<ChildReading>)
    requires
        keys_unique(s),
    ensures
        keys_unique(apply_readings(s, r)),
        dominates_positions(apply_readings(s, r), s),
        forall|q: u32|
            (forall|k: int| 0 <= k < r.len() ==> (#[trigger] r[k]).pid != q) ==> (#[trigger] has_pid(
                apply_readings(s, r),
                q,
            ) <==> has_pid(s, q)) && (has_pid(s, q) ==> index_of(apply_readings(s, r), q) == index_of(s, q)
                && apply_readings(s, r)[index_of(s, q)] == s[index_of(s, q)]),
    decreases r.len(),
{
    if r.len() > 0 {
        let r0 = r.drop_last();
        lemma_apply_keeps_others(s, r0);
        let t = apply_readings(s, r0);
        let last = r.last();
        assert forall|q: u32|
            (forall|k: int| 0 <= k < r.len() ==> (#[trigger] r[k]).pid != q) implies (#[trigger] has_pid(
                apply_readings(s, r),
                q,
            ) <==> has_pid(s, q)) && (has_pid(s, q) ==> index_of(apply_readings(s, r), q) == index_of(s, q)
                && apply_readings(s, r)[index_of(s, q)] == s[index_of(s, q)]) by {
            assert forall|k: int| 0 <= k < r0.len() implies (#[trigger] r0[k]).pid != q by {
                assert(r0[k] == r[k]);
            }
            assert(r[r.len() - 1].pid != q);
            match last.cpu_time {
                Some(v) => {
                    lemma_upsert_unique(t, last.pid, v);
                    if has_pid(s, q) {
                        let j = index_of(s, q);
                        let u = upsert(t, last.pid, v);
                        if has_pid(t, last.pid) {
                            assert(t[index_of(t, last.pid)].0 == last.pid);
                            assert(index_of(t, last.pid) != j);
                        }
                        assert(u[j] == t[j]);
                    }
                },
                None => {},
            }
        }
        match last.cpu_time {
            Some(v) => {
                lemma_upsert_unique(t, last.pid, v);
            },
            None => {},
        }
    }
}

/// `t` keeps the pids of `s` in place.
pub open spec fn dominates_positions(t: Seq<(u32, u64)>, s: Seq<(u32, u64)>) -> bool {
    &&& s.len() <= t.len()
    &&& forall|j: int| 0 <= j < s.len() ==> #[trigger] t[j].0 == s[j].0
}

/// No two readings of one tick name the same pid.
pub open spec fn pids_distinct(r: Seq<ChildReading>) -> bool {
    forall|i: int, j: int| 0 <= i < r.len() && 0 <= j < r.len() && i != j ==> r[i].pid != r[j].pid
}

/// Every successful reading is at least the time already recorded for its pid.
pub open spec fn readings_not_below(s: Seq<(u32, u64)>, r: Seq<ChildReading>) -> bool {
    forall|k: int|
        0 <= k < r.len() && (#[trigger] r[k]).cpu_time is Some && has_pid(s, r[k].pid) ==> r[k].cpu_time->0
            >= s[index_of(s, r[k].pid)].1
}

proof fn lemma_apply_dominates(s: Seq<(u32, u64)>, r: Seq<ChildReading>)
    requires
        keys_unique(s),
        pids_distinct(r),
        readings_not_below(s, r),
    ensures
        dominates(apply_readings(s, r), s),
    decreases r.len(),
{
    if r.len() > 0 {
        let r0 = r.drop_last();
        assert(pids_distinct(r0)) by {
            assert forall|i: int, j: int| 0 <= i < r0.len() && 0 <= j < r0.len() && i != j implies r0[i].pid
                != r0[j].pid by {
                assert(r0[i] == r[i] && r0[j] == r[j]);
            }
        }
        assert(readings_not_below(s, r0)) by {
            assert forall|k: int|
                0 <= k < r0.len() && (#[trigger] r0[k]).cpu_time is Some && has_pid(s, r0[k].pid) implies r0[k].cpu_time->0
                >= s[index_of(s, r0[k].pid)].1 by {
                assert(r0[k] == r[k]);
            }
        }
        lemma_apply_dominates(s, r0);
        lemma_apply_keeps_others(s, r0);
        let t = apply_readings(s, r0);
        let last = r.last();
        let p = last.pid;
        match last.cpu_time {
            Some(v) => {
                assert forall|k: int| 0 <= k < r0.len() implies (#[trigger] r0[k]).pid != p by {
                    assert(r0[k] == r[k]);
                    assert(r[k].pid != r[r.len() - 1].pid);
                }
                let u = upsert(t, p, v);
                if has_pid(t, p) {
                    let j = index_of(t, p);
                    assert(has_pid(s, p));
                    assert(index_of(s, p) == j);
                    assert(r[r.len() - 1] == last);
                    assert forall|i: int| 0 <= i < s.len() implies #[trigger] u[i].0 == s[i].0 && u[i].1 >= s[i].1 by {
                        if i != j {
                            assert(u[i] == t[i]);
                        }
                    }
                } else {
                    assert forall|i: int| 0 <= i < s.len() implies #[trigger] u[i].0 == s[i].0 && u[i].1 >= s[i].1 by {
                        assert(u[i] == t[i]);
                    }
                }
            },
            None => {},
        }
    }
}

/// Tick over tick the combined time does not go down, where the monitored
/// process's own time does not go down, one tick names each child once, and
/// no child's time is read below the time already recorded for it.
pub proof fn lemma_combined_time_monotone(
    s: Seq<(u32, u64)>,
    own_before: u64,
    own_after: u64,
    r: Seq<ChildReading>,
)
    requires
        keys_unique(s),
        own_before <= own_after,
        pids_distinct(r),
        readings_not_below(s, r),
    ensures
        combined_time(own_after, apply_readings(s, r)) >= combined_time(own_before, s),
{
    lemma_apply_dominates(s, r);
    let t = apply_readings(s, r);
    lemma_dominates_sum(t, s, t.len() as int);
}

impl ProcessCpuTime {
    pub open spec fn wf(&self) -> bool {
        keys_unique(self.entries@)
    }

    /// A tracker that has observed no child yet.
    pub fn new() -> (r: ProcessCpuTime)
        ensures
            r.entries@ == Seq::<(u32, u64)>::empty(),
            r.wf(),
    {
        ProcessCpuTime { entries: Vec::new() }
    }

    /// Records `time` as the last-known time of `pid`.
    pub fn record(&mut self, pid: u32, time: u64)
        requires
            old(self).wf(),
        ensures
            final(self).wf(),
            final(self).entries@ == upsert(old(self).entries@, pid, time),
    {
        proof {
            lemma_upsert_unique(self.entries@, pid, time);
        }
        let mut i: usize = 0;
        while i < self.entries.len()
            invariant
                self.wf(),
                self.entries@ == old(self).entries@,
                i <= self.entries@.len(),
                forall|k: int| 0 <= k < i ==> (#[trigger] self.entries@[k]).0 != pid,
            decreases self.entries@.len() - i,
        {
            if self.entries[i].0 == pid {
                proof {
                    assert(has_pid(self.entries@, pid));
                    let j = index_of(self.entries@, pid);
                    assert(j == i as int);
                }
                self.entries.set(i, (pid, time));
                return;
            }
            i = i + 1;
        }
        assert(!has_pid(self.entries@, pid));
        self.entries.push((pid, time));
    }

    /// Applies one tick's child readings: each successful reading overwrites or
    /// adds its pid's entry, each failed one leaves the last-known time.
    pub fn apply(&mut self, readings: &Vec<ChildReading>)
        requires
            old(self).wf(),
        ensures
            final(self).wf(),
            final(self).entries@ == apply_readings(old(self).entries@, readings@),
    {
        let ghost start = self.entries@;
        let mut i: usize = 0;
        while i < readings.len()
            invariant
                self.wf(),
                i <= readings@.len(),
                self.entries@ == apply_readings(start, readings@.subrange(0, i as int)),
            decreases readings@.len() - i,
        {
            let ghost before = readings@.subrange(0, i as int);
            let reading = readings[i];
            proof {
                let next = readings@.subrange(0, i + 1);
                assert(next.drop_last() =~= before);
                assert(next.last() == reading);
            }
            match reading.cpu_time {
                Some(v) => self.record(reading.pid, v),
                None => {},
            }
            i = i + 1;
        }
        assert(readings@.subrange(0, readings@.len() as int) =~= readings@);
    }

    /// The sum of the last-known times of all children ever observed.
    pub fn children_total(&self) -> (r: u128)
        ensures
            r == time_sum(self.entries@, self.entries@.len() as int),
    {
        let mut sum: u128 = 0;
        let mut i: usize = 0;
        while i < self.entries.len()
            invariant
                i <= self.entries@.len(),
                sum == time_sum(self.entries@, i as int),
            decreases self.entries@.len() - i,
        {
            proof {
                lemma_time_sum_bound(self.entries@, i as int);
                assert(i * 0x1_0000_0000_0000_0000 + 0x1_0000_0000_0000_0000 <= 0x1_0000_0000_0000_0000 * 0x1_0000_0000_0000_0000) by (nonlinear_arith)
                    requires i < 0x1_0000_0000_0000_0000;
            }
            sum = sum + self.entries[i].1 as u128;
            i = i + 1;
        }
        sum
    }

    /// One tick: records the children's readings and returns the combined
    /// time, the monitored process's own time counting as `0` where it could
    /// not be read.
    pub fn tick(&mut self, own: Option<u64>, readings: &Vec<ChildReading>) -> (r: u128)
        requires
            old(self).wf(),
        ensures
            final(self).wf(),
            final(self).entries@ == apply_readings(old(self).entries@, readings@),
            r == combined_time(
                match own {
                    Some(t) => t,
                    None => 0,
                },
                final(self).entries@,
            ),
    {
        self.apply(readings);
        let own_time: u64 = match own {
            Some(t) => t,
            None => 0,
        };
        let children = self.children_total();
        let count = self.entries.len();
        proof {
            lemma_time_sum_bound(self.entries@, count as int);
            assert(count * 0x1_0000_0000_0000_0000 <= 0xffff_ffff_ffff_ffff * 0x1_0000_0000_0000_0000) by (nonlinear_arith)
                requires count <= 0xffff_ffff_ffff_ffff;
        }
        own_time as u128 + children
    }
}

} // verus!
