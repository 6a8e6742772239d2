//! Aggregation of host-system samples into a metrics record.
//!
//! Sampling the operating system (and the short blocking delay that
//! makes the CPU reading meaningful) happens outside the library; this
//! module derives the record from the plain values handed in, in
//! fixed-point form: percentages in basis points, memory in kibibytes.

use vstd::prelude::*;

verus! {

use crate::scene::lemma_take_one_more;

/// A snapshot of host metrics: CPU load and memory-usage share in basis
/// points (hundredths of a percent), memory amounts in kibibytes.
#[derive(Clone, Copy, PartialEq, Eq, Structural, Debug)]
pub struct SystemMetrics {
    pub cpu_usage_bp: u32,
    pub memory_used_kb: u64,
    pub memory_total_kb: u64,
    pub memory_usage_bp: u32,
    pub process_memory_kb: u64,
}

pub open spec fn sum_bp(s: Seq<u32>) -> int
    decreases s.len(),
{
    if s.len() == 0 {
        0
    } else {
        sum_bp(s.drop_last()) + s.last()
    }
}

/// Mean of the per-core CPU samples; zero when there are no cores to
/// average over.
pub open spec fn mean_bp(s: Seq<u32>) -> int {
    if s.len() == 0 {
        0
    } else {
        sum_bp(s) / (s.len() as int)
    }
}

/// Derives the metrics record: the mean CPU share over the per-core
/// samples, memory amounts reduced to kibibytes, and the used-over-total
/// share in basis points (zero on a zero total).
pub fn aggregate_system_metrics(
    cpu_samples_bp: &Vec<u32>,
    memory_used_bytes: u64,
    memory_total_bytes: u64,
    process_memory_bytes: u64,
) -> (m: SystemMetrics)
    requires
        cpu_samples_bp@.len() <= 1000000,
        forall|i: int| 0 <= i < cpu_samples_bp@.len() ==> (#[trigger] cpu_samples_bp@[i]) <= 10000,
        memory_used_bytes <= memory_total_bytes,
    ensures
        m.cpu_usage_bp == mean_bp(cpu_samples_bp@),
        m.cpu_usage_bp <= 10000,
        m.memory_used_kb == memory_used_bytes / 1024,
        m.memory_total_kb == memory_total_bytes / 1024,
        m.memory_usage_bp == (if memory_total_bytes == 0 {
            0int
        } else {
            ((memory_used_bytes as int) * 10000) / (memory_total_bytes as int)
        }),
        m.memory_usage_bp <= 10000,
        m.process_memory_kb == process_memory_bytes / 1024,
{
    let ghost s = cpu_samples_bp@;
    let mut sum: u64 = 0;
    let mut i: usize = 0;
    while i < cpu_samples_bp.len()
        invariant
            s == cpu_samples_bp@,
            s.len() <= 1000000,
            forall|k: int| 0 <= k < s.len() ==> (#[trigger] s[k]) <= 10000,
            0 <= i <= s.len(),
            sum == sum_bp(s.take(i as int)),
            sum <= 10000 * i,
        decreases s.len() - i,
    {
        proof {
            lemma_take_one_more(s, i as int);
        }
        sum = sum + (cpu_samples_bp[i] as u64);
        i = i + 1;
    }
    proof {
        assert(s.take(s.len() as int) =~= s);
    }
    let cpu_bp: u32 = if cpu_samples_bp.len() == 0 {
        0
    } else {
        let len64: u64 = cpu_samples_bp.len() as u64;
        proof {
            vstd::arithmetic::div_mod::lemma_div_is_ordered(
                sum as int,
                10000 * (len64 as int),
                len64 as int,
            );
            vstd::arithmetic::div_mod::lemma_div_multiples_vanish(10000, len64 as int);
            assert(10000 * (len64 as int) == (len64 as int) * 10000) by (nonlinear_arith);
            vstd::arithmetic::div_mod::lemma_div_pos_is_pos(sum as int, len64 as int);
        }
        (sum / len64) as u32
    };
    let usage_bp: u32 = if memory_total_bytes == 0 {
        0
    } else {
        let scaled: u128 = (memory_used_bytes as u128) * 10000;
        proof {
            let used = memory_used_bytes as int;
            let total = memory_total_bytes as int;
            assert(used * 10000 <= total * 10000) by (nonlinear_arith)
                requires used <= total;
            vstd::arithmetic::div_mod::lemma_div_is_ordered(used * 10000, total * 10000, total);
            vstd::arithmetic::div_mod::lemma_div_multiples_vanish(10000, total);
            assert(total * 10000 == 10000 * total) by (nonlinear_arith);
            vstd::arithmetic::div_mod::lemma_div_pos_is_pos(used * 10000, total);
        }
        (scaled / (memory_total_bytes as u128)) as u32
    };
    SystemMetrics {
        cpu_usage_bp: cpu_bp,
        memory_used_kb: memory_used_bytes / 1024,
        memory_total_kb: memory_total_bytes / 1024,
        memory_usage_bp: usage_bp,
        process_memory_kb: process_memory_bytes / 1024,
    }
}

} // verus!
