//! Usage figures: CPU load from two snapshots of the system times, memory
//! load, and the collector that keeps the previous snapshot.
use vstd::prelude::*;
use crate::text::{ascii_lowercase, contains, contains_exec, to_ascii_lowercase, to_chars};

verus! {

/// The three percentages sent to the display.
#[derive(Clone, Copy, Debug, PartialEq, Eq, Structural)]
pub struct Metrics {
    pub cpu: u8,
    pub gpu: u8,
    pub ram: u8,
}

/// One snapshot of the accumulated idle, kernel and user times (in 100 ns
/// ticks; kernel time includes idle time).
#[derive(Clone, Copy, Debug, PartialEq, Eq, Structural)]
pub struct SystemTimes {
    pub idle: u64,
    pub kernel: u64,
    pub user: u64,
}

/// The 64-bit value of a `FILETIME` split into its high and low halves.
pub open spec fn filetime_value(high: u32, low: u32) -> nat {
    (high as nat) * 0x1_0000_0000 + (low as nat)
}

/// Joins the two halves of a `FILETIME` into one 64-bit count.
pub fn filetime_to_u64(high: u32, low: u32) -> (r: u64)
    ensures
        r == filetime_value(high, low),
{
    let h: u64 = high as u64;
    let l: u64 = low as u64;
    let r = (h << 32u64) | l;
    proof {
        assert(h < 0x1_0000_0000 && l < 0x1_0000_0000 ==> ((h << 32u64) | l) == h * 0x1_0000_0000
            + l) by (bit_vector);
    }
    r
}

pub open spec fn saturating_sub(a: u64, b: u64) -> nat {
    if a >= b {
        (a - b) as nat
    } else {
        0
    }
}

/// Kernel plus user time elapsed between two snapshots.
pub open spec fn elapsed_total(previous: SystemTimes, current: SystemTimes) -> nat {
    saturating_sub(current.kernel, previous.kernel) + saturating_sub(current.user, previous.user)
}

/// The elapsed total fits in 64 bits, so that adding it up does not overflow.
pub open spec fn usage_fits(previous: SystemTimes, current: SystemTimes) -> bool {
    elapsed_total(previous, current) <= u64::MAX
}

/// The busy share of the elapsed time in percent, rounded half away from zero:
/// `round(100 * busy / total)`, and 0 when no time elapsed.
pub open spec fn cpu_usage(previous: SystemTimes, current: SystemTimes) -> nat {
    let idle = saturating_sub(current.idle, previous.idle);
    let total = elapsed_total(previous, current);
    if total == 0 {
        0
    } else {
        let busy: nat = if total >= idle {
            (total - idle) as nat
        } else {
            0
        };
        (200 * busy + total) / (2 * total)
    }
}

proof fn lemma_percent_bound(busy: nat, total: nat)
    by (nonlinear_arith)
    requires
        total > 0,
        busy <= total,
    ensures
        (200 * busy + total) / (2 * total) <= 100,
{
}

proof fn lemma_nearest_quotient(busy: int, total: int, r: int)
    by (nonlinear_arith)
    requires
        total > 0,
        busy >= 0,
        r == (200 * busy + total) / (2 * total),
    ensures
        2 * total * r <= 200 * busy + total,
        200 * busy + total < 2 * total * (r + 1),
{
}

/// The CPU load is the busy share of the elapsed time in percent, rounded to
/// the nearest integer with halves going up. With `kernel`, `user` and `idle`
/// the amounts by which each counter advanced between the two snapshots (0
/// where it went back), the elapsed time is `kernel + user` and the busy time
/// is that less `idle` (0 where idle is more); the load `r` then satisfies
/// `r - 1/2 <= 100 * busy / total < r + 1/2`, and is 0 when no time elapsed.
pub proof fn lemma_cpu_usage_rounds_busy_share(previous: SystemTimes, current: SystemTimes)
    ensures
        ({
            let kernel: int = if current.kernel >= previous.kernel {
                current.kernel - previous.kernel
            } else {
                0
            };
            let user: int = if current.user >= previous.user {
                current.user - previous.user
            } else {
                0
            };
            let idle: int = if current.idle >= previous.idle {
                current.idle - previous.idle
            } else {
                0
            };
            let total: int = kernel + user;
            let busy: int = if total >= idle {
                total - idle
            } else {
                0
            };
            let r: int = cpu_usage(previous, current) as int;
            &&& total == 0 ==> r == 0
            &&& total > 0 ==> 2 * total * r <= 200 * busy + total
            &&& total > 0 ==> 200 * busy + total < 2 * total * (r + 1)
        }),
{
    let idle = saturating_sub(current.idle, previous.idle);
    let total = elapsed_total(previous, current);
    if total > 0 {
        let busy: nat = if total >= idle {
            (total - idle) as nat
        } else {
            0
        };
        lemma_nearest_quotient(busy as int, total as int, cpu_usage(previous, current) as int);
    }
}

/// The CPU load between two snapshots, in percent.
pub fn cpu_usage_percent(previous: SystemTimes, current: SystemTimes) -> (r: u8)
    requires
        usage_fits(previous, current),
    ensures
        r == cpu_usage(previous, current),
        r <= 100,
{
    let idle = current.idle.saturating_sub(previous.idle);
    let kernel = current.kernel.saturating_sub(previous.kernel);
    let user = current.user.saturating_sub(previous.user);
    let total = kernel + user;
    if total == 0 {
        return 0;
    }
    let busy = total.saturating_sub(idle);
    proof {
        lemma_percent_bound(busy as nat, total as nat);
    }
    let numerator: u128 = 200 * (busy as u128) + (total as u128);
    let denominator: u128 = 2 * (total as u128);
    let r = numerator / denominator;
    r as u8
}

/// The memory load reported by the system, capped at 100 percent.
pub fn ram_usage_percent(memory_load: u32) -> (r: u8)
    ensures
        r == if memory_load < 100 {
            memory_load
        } else {
            100
        },
{
    if memory_load < 100 {
        memory_load as u8
    } else {
        100
    }
}

/// Keeps the previous snapshot of the system times.
pub struct CpuSampler {
    pub previous: Option<SystemTimes>,
}

/// The snapshots may be combined without overflow.
pub open spec fn sample_fits(previous: Option<SystemTimes>, current: Option<SystemTimes>) -> bool {
    match (previous, current) {
        (Some(p), Some(c)) => usage_fits(p, c),
        _ => true,
    }
}

impl CpuSampler {
    pub fn new() -> (s: Self)
        ensures
            s.previous is None,
    {
        CpuSampler { previous: None }
    }

    /// Takes the snapshot `current` (`None` when it could not be read) and gives the
    /// load since the previous one; the first snapshot gives no load.
    pub fn sample(&mut self, current: Option<SystemTimes>) -> (r: Option<u8>)
        requires
            sample_fits(old(self).previous, current),
        ensures
            match current {
                None => r is None && final(self).previous == old(self).previous,
                Some(c) => final(self).previous == Some(c) && r == match old(self).previous {
                    Some(p) => Some(cpu_usage(p, c) as u8),
                    None => None::<u8>,
                },
            },
    {
        let current = match current {
            Some(c) => c,
            None => return None,
        };
        let previous = self.previous;
        self.previous = Some(current);
        match previous {
            Some(p) => Some(cpu_usage_percent(p, current)),
            None => None,
        }
    }
}

/// Collects the three percentages once per tick.
pub struct MetricsCollector {
    pub cpu: CpuSampler,
}

impl MetricsCollector {
    pub fn new() -> (s: Self)
        ensures
            s.cpu.previous is None,
    {
        MetricsCollector { cpu: CpuSampler::new() }
    }

    /// The figures for this tick from the system times, the GPU load and the
    /// memory load that were read for it; a figure that could not be read is 0.
    pub fn sample(
        &mut self,
        system_times: Option<SystemTimes>,
        gpu: Option<u8>,
        memory_load: Option<u32>,
    ) -> (m: Metrics)
        requires
            sample_fits(old(self).cpu.previous, system_times),
        ensures
            m.cpu == match (old(self).cpu.previous, system_times) {
                (Some(p), Some(c)) => cpu_usage(p, c) as u8,
                _ => 0u8,
            },
            m.gpu == match gpu {
                Some(g) => g,
                None => 0u8,
            },
            m.ram == match memory_load {
                Some(load) => if load < 100 {
                    load as u8
                } else {
                    100u8
                },
                None => 0u8,
            },
            final(self).cpu.previous == match system_times {
                Some(c) => Some(c),
                None => old(self).cpu.previous,
            },
    {
        let cpu = match self.cpu.sample(system_times) {
            Some(c) => c,
            None => 0,
        };
        let gpu = match gpu {
            Some(g) => g,
            None => 0,
        };
        let ram = match memory_load {
            Some(load) => ram_usage_percent(load),
            None => 0,
        };
        Metrics { cpu, gpu, ram }
    }
}

/// `engtype_3d`, the engine type of 3D GPU engines in the counter names.
pub open spec fn engine_3d_tag() -> Seq<char> {
    seq!['e', 'n', 'g', 't', 'y', 'p', 'e', '_', '3', 'd']
}

/// Whether a GPU engine counter, named like
/// `pid_1234_luid_..._phys_0_eng_0_engtype_3D`, belongs to a 3D engine.
pub fn is_3d_engine_counter(name: &str) -> (b: bool)
    ensures
        b == contains(to_ascii_lowercase(name@), engine_3d_tag()),
        b == contains(
            to_ascii_lowercase(name@),
            seq!['e', 'n', 'g', 't', 'y', 'p', 'e', '_', '3', 'd'],
        ),
{
    let chars = to_chars(name);
    let lower = ascii_lowercase(&chars);
    let tag: Vec<char> = vec!['e', 'n', 'g', 't', 'y', 'p', 'e', '_', '3', 'd'];
    proof {
        assert(tag@ =~= engine_3d_tag());
        lemma_engine_3d_tag();
    }
    contains_exec(&lower, &tag)
}

/// The tag that marks a 3D engine is the whole engine type `engtype_3d`, so
/// that an engine's number (the `eng_3` in `eng_3_engtype_VideoDecode`) never
/// makes a counter count as 3D.
pub proof fn lemma_engine_3d_tag()
    ensures
        engine_3d_tag() == seq!['e', 'n', 'g', 't', 'y', 'p', 'e', '_', '3', 'd'],
        engine_3d_tag().len() == 10,
{
}

} // verus!
