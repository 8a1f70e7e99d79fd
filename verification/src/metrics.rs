//! CPU and memory usage bookkeeping. The host reads the cumulative system
//! times and the memory status (the cheapest system calls: no WMI, no
//! performance counters) and hands the raw numbers to [`Metrics`].

use vstd::prelude::*;

verus! {

/// A load as the exact fraction `num / den` of capacity in use
/// (`den == 0` stands for no measurement yet, read as 0 %).
#[derive(Clone, Copy, Debug, PartialEq, Eq, Structural)]
pub struct Load {
    pub num: u64,
    pub den: u64,
}

} // verus!

verus! {

/// `a - b`, or 0 when `b > a`.
pub open spec fn sat_sub(a: u64, b: u64) -> int {
    if a >= b {
        a - b
    } else {
        0
    }
}

/// The 64-bit tick count of a `FILETIME` given as its two 32-bit halves.
pub open spec fn filetime_spec(high: u32, low: u32) -> int {
    (high as int) * 0x1_0000_0000 + (low as int)
}

/// Combine the two halves of a `FILETIME` into one 64-bit tick count.
pub fn filetime_ticks(high: u32, low: u32) -> (t: u64)
    ensures
        t == filetime_spec(high, low),
{
    let t: u64 = ((high as u64) << 32) | low as u64;
    assert(t == (high as u64) * 0x1_0000_0000 + (low as u64)) by (bit_vector)
        requires
            t == ((high as u64) << 32) | low as u64,
    ;
    t
}

/// Busy and total time of the interval between two readings of the
/// cumulative (idle, kernel, user) times. Kernel time includes idle time.
pub open spec fn interval_total(prev: (u64, u64, u64), kernel: u64, user: u64) -> int {
    sat_sub(kernel, prev.1) + sat_sub(user, prev.2)
}

/// The CPU load after a reading of the cumulative times: the busy share of
/// the interval since the previous reading, or the old load when there is
/// no previous reading or the interval is empty.
pub open spec fn cpu_after(prev: Option<(u64, u64, u64)>, idle: u64, kernel: u64, user: u64, old_cpu: Load) -> Load {
    match prev {
        Some(p) => {
            let total = interval_total(p, kernel, user);
            if total > 0 {
                let idle_d = sat_sub(idle, p.0);
                Load {
                    num: (if total >= idle_d { total - idle_d } else { 0 }) as u64,
                    den: total as u64,
                }
            } else {
                old_cpu
            }
        },
        None => old_cpu,
    }
}

/// The interval total of a new reading fits in a `u64`.
pub open spec fn times_fit_spec(prev: Option<(u64, u64, u64)>, kernel: u64, user: u64) -> bool {
    match prev {
        Some(p) => interval_total(p, kernel, user) <= u64::MAX,
        None => true,
    }
}

/// CPU / memory usage, kept from the raw numbers of the cheapest system
/// calls.
pub struct Metrics {
    /// Cumulative (idle, kernel, user) times of the previous reading.
    pub prev: Option<(u64, u64, u64)>,
    /// Busy share of the last measured interval.
    pub cpu: Load,
    /// Physical memory in use, in percent (`den` is 100 once measured).
    pub mem: Load,
    /// Physical memory in use, in bytes.
    pub mem_used_bytes: u64,
    /// Installed physical memory, in bytes.
    pub mem_total_bytes: u64,
}

impl Metrics {
    /// Nothing measured yet: every usage reads 0.
    pub fn new() -> (m: Metrics)
        ensures
            m.prev is None,
            m.cpu == (Load { num: 0, den: 0 }),
            m.mem == (Load { num: 0, den: 0 }),
            m.mem_used_bytes == 0,
            m.mem_total_bytes == 0,
    {
        Metrics {
            prev: None,
            cpu: Load { num: 0, den: 0 },
            mem: Load { num: 0, den: 0 },
            mem_used_bytes: 0,
            mem_total_bytes: 0,
        }
    }

    /// Whether a reading with these kernel and user times can be recorded
    /// without the interval total overflowing.
    pub fn times_fit(&self, kernel: u64, user: u64) -> (r: bool)
        ensures
            r == times_fit_spec(self.prev, kernel, user),
    {
        match self.prev {
            Some((_, pk, pu)) => {
                let k = kernel.saturating_sub(pk);
                let u = user.saturating_sub(pu);
                k <= u64::MAX - u
            },
            None => true,
        }
    }

    /// Record one reading: the cumulative (idle, kernel, user) system
    /// times and the memory status (load in percent, installed and
    /// available physical bytes), each `None` when the system could not
    /// report it (that part then keeps its previous value).
    pub fn sample(&mut self, times: Option<(u64, u64, u64)>, memory: Option<(u32, u64, u64)>)
        requires
            times matches Some(t) ==> times_fit_spec(old(self).prev, t.1, t.2),
        ensures
            match times {
                Some(t) => final(self).prev == Some(t) && final(self).cpu == cpu_after(old(self).prev, t.0, t.1, t.2, old(self).cpu),
                None => final(self).prev == old(self).prev && final(self).cpu == old(self).cpu,
            },
            match memory {
                Some(m) => {
                    &&& final(self).mem == (Load { num: m.0 as u64, den: 100 })
                    &&& final(self).mem_total_bytes == m.1
                    &&& final(self).mem_used_bytes == sat_sub(m.1, m.2)
                },
                None => {
                    &&& final(self).mem == old(self).mem
                    &&& final(self).mem_total_bytes == old(self).mem_total_bytes
                    &&& final(self).mem_used_bytes == old(self).mem_used_bytes
                },
            },
    {
        if let Some((idle, kernel, user)) = times {
            self.record_times(idle, kernel, user);
        }
        if let Some((load, total, avail)) = memory {
            self.record_memory(load, total, avail);
        }
    }

    /// Record a reading of the cumulative (idle, kernel, user) system times.
    fn record_times(&mut self, idle: u64, kernel: u64, user: u64)
        requires
            times_fit_spec(old(self).prev, kernel, user),
        ensures
            final(self).prev == Some((idle, kernel, user)),
            final(self).cpu == cpu_after(old(self).prev, idle, kernel, user, old(self).cpu),
            final(self).mem == old(self).mem,
            final(self).mem_used_bytes == old(self).mem_used_bytes,
            final(self).mem_total_bytes == old(self).mem_total_bytes,
    {
        if let Some((pi, pk, pu)) = self.prev {
            // Kernel time includes idle time.
            let total: u64 = kernel.saturating_sub(pk) + user.saturating_sub(pu);
            let idle_d: u64 = idle.saturating_sub(pi);
            if total > 0 {
                self.cpu = Load { num: total.saturating_sub(idle_d), den: total };
            }
        }
        self.prev = Some((idle, kernel, user));
    }

    /// Record the memory status: the load in percent, the installed and the
    /// available physical memory in bytes.
    fn record_memory(&mut self, load: u32, total_phys: u64, avail_phys: u64)
        ensures
            final(self).mem == (Load { num: load as u64, den: 100 }),
            final(self).mem_total_bytes == total_phys,
            final(self).mem_used_bytes == sat_sub(total_phys, avail_phys),
            final(self).prev == old(self).prev,
            final(self).cpu == old(self).cpu,
    {
        self.mem = Load { num: load as u64, den: 100 };
        self.mem_total_bytes = total_phys;
        self.mem_used_bytes = total_phys.saturating_sub(avail_phys);
    }
}

/// CPU usage stays within 0 %..100 %: a measured interval never reports
/// more busy time than it lasted, so every recorded CPU load is at most
/// its whole.
pub proof fn lemma_cpu_at_most_full(prev: Option<(u64, u64, u64)>, idle: u64, kernel: u64, user: u64, old_cpu: Load)
    requires
        old_cpu.num <= old_cpu.den,
        times_fit_spec(prev, kernel, user),
    ensures
        cpu_after(prev, idle, kernel, user, old_cpu).num <= cpu_after(prev, idle, kernel, user, old_cpu).den,
{
}

/// The first reading only primes the measurement: the CPU load changes
/// from the second reading on, and an interval with no elapsed time keeps
/// the previous value.
pub proof fn lemma_cpu_needs_two_readings(idle: u64, kernel: u64, user: u64, old_cpu: Load, p: (u64, u64, u64))
    ensures
        cpu_after(None, idle, kernel, user, old_cpu) == old_cpu,
        interval_total(p, kernel, user) == 0 ==> cpu_after(Some(p), idle, kernel, user, old_cpu) == old_cpu,
{
}

/// Memory in use never exceeds the installed memory.
pub proof fn lemma_memory_used_at_most_total(total_phys: u64, avail_phys: u64)
    ensures
        0 <= sat_sub(total_phys, avail_phys) <= total_phys,
{
}

/// The CPU load after a reading is the busy share of the interval since
/// the previous reading. The interval lasts the kernel time plus the user
/// time that elapsed (kernel time includes idle time); the busy part is
/// that less the idle time that elapsed (none if idle time exceeds it). A
/// counter that went backwards counts as no time elapsed.
pub proof fn lemma_cpu_is_busy_share(p: (u64, u64, u64), idle: u64, kernel: u64, user: u64, old_cpu: Load)
    requires
        times_fit_spec(Some(p), kernel, user),
    ensures
        ({
            let dk: int = if kernel >= p.1 { kernel - p.1 } else { 0 };
            let du: int = if user >= p.2 { user - p.2 } else { 0 };
            let di: int = if idle >= p.0 { idle - p.0 } else { 0 };
            let r = cpu_after(Some(p), idle, kernel, user, old_cpu);
            &&& dk + du > 0 ==> r.den == dk + du
            &&& dk + du > 0 && di <= dk + du ==> r.num + di == dk + du
            &&& dk + du > 0 && di > dk + du ==> r.num == 0
            &&& dk + du == 0 ==> r == old_cpu
        }),
{
}

} // verus!
