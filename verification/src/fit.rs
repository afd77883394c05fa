//! Estimating what a model needs and judging whether a machine has it.

use vstd::prelude::*;

use crate::types::{self, FitResult, HardwareProfile, ModelVariant};

verus! {

#[derive(Debug, Clone, Copy)]
pub struct ResolveOpts {
    /// Let a model spread over GPU and system memory.
    pub allow_split: bool,
    /// Percentage added to the weights for cache and runtime.
    pub margin_pct: u32,
    pub context_tokens: u32,
    /// How many manifests may be looked up for one model.
    pub max_manifest_lookups: Option<usize>,
    /// Hide models that do not fit from search output.
    pub fit_filter: bool,
    /// Show every model, whether it can run here or not.
    pub all: bool,
}

/// The context length up to which no margin is added.
pub const BASE_CONTEXT_TOKENS: u32 = 8_192;

/// 5 percentage points for each block of 8192 tokens, begun or full, beyond the
/// first.
pub open spec fn context_margin(context_tokens: u32) -> nat {
    if context_tokens <= BASE_CONTEXT_TOKENS {
        0
    } else {
        (5 * ((context_tokens - BASE_CONTEXT_TOKENS + BASE_CONTEXT_TOKENS - 1) / (
        BASE_CONTEXT_TOKENS as int))) as nat
    }
}

pub fn context_margin_pct(context_tokens: u32) -> (r: u32)
    ensures
        r == context_margin(context_tokens),
{
    if context_tokens <= BASE_CONTEXT_TOKENS {
        return 0;
    }
    let extra_tokens: u64 = (context_tokens - BASE_CONTEXT_TOKENS) as u64;
    let extra_blocks: u64 = (extra_tokens + BASE_CONTEXT_TOKENS as u64 - 1)
        / BASE_CONTEXT_TOKENS as u64;
    (extra_blocks * 5) as u32
}

/// The margin for a request: the user's and the one for the context length.
pub open spec fn effective_margin(opts: ResolveOpts) -> u32 {
    let sum = opts.margin_pct + context_margin(opts.context_tokens);
    if sum > u32::MAX {
        u32::MAX
    } else {
        sum as u32
    }
}

pub fn effective_margin_pct(opts: &ResolveOpts) -> (r: u32)
    ensures
        r == effective_margin(*opts),
{
    opts.margin_pct.saturating_add(context_margin_pct(opts.context_tokens))
}

/// The weights and the margin on top, rounded up to a whole byte.
pub open spec fn runtime_estimate(weights_bytes: u64, margin_pct: u32) -> u64 {
    types::saturate_u64((weights_bytes * (100 + margin_pct) + 99) / 100)
}

pub fn estimate_runtime_bytes(weights_bytes: u64, margin_pct: u32) -> (r: u64)
    ensures
        r == runtime_estimate(weights_bytes, margin_pct),
{
    let factor: u128 = 100 + margin_pct as u128;
    assert(weights_bytes * factor <= u64::MAX * (100 + u32::MAX)) by (nonlinear_arith)
        requires
            factor <= 100 + u32::MAX,
    ;
    let numerator: u128 = weights_bytes as u128 * factor;
    let estimated: u128 = (numerator + 99) / 100;
    if estimated > u64::MAX as u128 {
        u64::MAX
    } else {
        estimated as u64
    }
}

/// The verdict on a model whose download takes `total` bytes on disk and which
/// takes `need` bytes of memory to run.
pub open spec fn verdict(total: u64, need: u64, hw: HardwareProfile, allow_split: bool) -> FitResult {
    let combined = types::saturate_u64(hw.vram_total + hw.ram_available);
    if total > hw.disk_free {
        FitResult::InsufficientDisk { need: total, have: hw.disk_free }
    } else if hw.unified_mem_total > 0 {
        if need <= hw.unified_ceiling() {
            FitResult::FitsVram
        } else {
            FitResult::DoesNotFit { need, have: hw.unified_ceiling() }
        }
    } else if hw.is_gpu_usable() {
        if need <= hw.vram_total {
            FitResult::FitsVram
        } else if allow_split && need <= combined {
            FitResult::FitsWithSplit { gpu_bytes: hw.vram_total, need }
        } else {
            FitResult::DoesNotFit {
                need,
                have: if allow_split {
                    combined
                } else {
                    hw.vram_total
                },
            }
        }
    } else if need <= hw.ram_available {
        FitResult::FitsRamOnly
    } else {
        FitResult::DoesNotFit { need, have: hw.ram_available }
    }
}

/// Judges a variant: disk space first, then memory.
pub fn check_fit(variant: &ModelVariant, hw: &HardwareProfile, opts: &ResolveOpts) -> (r: FitResult)
    ensures
        r == verdict(
            variant.total_bytes,
            variant.estimated_runtime_bytes,
            *hw,
            opts.allow_split,
        ),
{
    if variant.total_bytes > hw.disk_free {
        return FitResult::InsufficientDisk { need: variant.total_bytes, have: hw.disk_free };
    }
    let estimated = variant.estimated_runtime_bytes;
    // Shared memory is one pool, so there is nothing to split.
    if hw.unified_mem_total > 0 {
        let ceiling = hw.unified_fit_ceiling();
        return if estimated <= ceiling {
            FitResult::FitsVram
        } else {
            FitResult::DoesNotFit { need: estimated, have: ceiling }
        };
    }
    if hw.has_gpu() {
        if estimated <= hw.vram_total {
            return FitResult::FitsVram;
        }
        let combined = hw.vram_total.saturating_add(hw.ram_available);
        if opts.allow_split && estimated <= combined {
            return FitResult::FitsWithSplit { gpu_bytes: hw.vram_total, need: estimated };
        }
        FitResult::DoesNotFit {
            need: estimated,
            have: if opts.allow_split {
                combined
            } else {
                hw.vram_total
            },
        }
    } else if estimated <= hw.ram_available {
        FitResult::FitsRamOnly
    } else {
        FitResult::DoesNotFit { need: estimated, have: hw.ram_available }
    }
}

// ---- laws ------------------------------------------------------------------

/// The estimate is the least whole number of bytes that covers the weights and
/// the margin, short of the largest number there is.
pub proof fn law_estimate_is_a_ceiling(weights_bytes: u64, margin_pct: u32)
    ensures
        ({
            let e = runtime_estimate(weights_bytes, margin_pct);
            let exact = weights_bytes * (100 + margin_pct);
            &&& e == u64::MAX || (e * 100 >= exact && (e - 1) * 100 < exact)
            &&& exact <= u64::MAX * 100 ==> exact <= e * 100 < exact + 100
            &&& exact > u64::MAX * 100 ==> e == u64::MAX
            &&& e >= weights_bytes
        }),
{
    let exact = weights_bytes * (100 + margin_pct);
    assert(exact >= weights_bytes * 100) by (nonlinear_arith)
        requires
            exact == weights_bytes * (100 + margin_pct),
            margin_pct >= 0,
            weights_bytes >= 0,
    ;
}

/// Heavier weights and wider margins never lower the estimate.
pub proof fn law_estimate_is_monotone(w1: u64, w2: u64, m1: u32, m2: u32)
    requires
        w1 <= w2,
        m1 <= m2,
    ensures
        runtime_estimate(w1, m1) <= runtime_estimate(w2, m2),
{
    assert(w1 * (100 + m1) <= w2 * (100 + m2)) by (nonlinear_arith)
        requires
            0 <= w1 <= w2,
            0 <= m1 <= m2,
    ;
}

/// A longer context never lowers the margin, and up to 8192 tokens add nothing.
pub proof fn law_context_margin_is_monotone(a: u32, b: u32)
    requires
        a <= b,
    ensures
        context_margin(a) <= context_margin(b),
        a <= BASE_CONTEXT_TOKENS ==> context_margin(a) == 0,
{
}

/// One more block of 8192 tokens adds 5 percentage points.
pub proof fn law_context_margin_per_block(context_tokens: u32)
    requires
        context_tokens >= BASE_CONTEXT_TOKENS,
        context_tokens + BASE_CONTEXT_TOKENS <= u32::MAX,
    ensures
        context_margin((context_tokens + BASE_CONTEXT_TOKENS) as u32) == context_margin(
            context_tokens,
        ) + 5,
{
}

/// A model fits exactly when the disk holds its download and the memory that is
/// available for it covers its need. (`vram_free` always equals `vram_total` on a
/// detected machine.)
pub proof fn law_fit_is_enough_disk_and_memory(
    total: u64,
    need: u64,
    hw: HardwareProfile,
    allow_split: bool,
)
    requires
        hw.vram_free == hw.vram_total,
    ensures
        verdict(total, need, hw, allow_split).is_fit() <==> total <= hw.disk_free && need
            <= hw.runtime_bytes(allow_split),
{
}

/// Too little disk space is reported before anything else.
pub proof fn law_disk_comes_first(total: u64, need: u64, hw: HardwareProfile, allow_split: bool)
    ensures
        verdict(total, need, hw, allow_split) is InsufficientDisk <==> total > hw.disk_free,
{
}

/// Whatever is smaller than a model that fits fits too.
pub proof fn law_smaller_models_fit(
    total1: u64,
    need1: u64,
    total2: u64,
    need2: u64,
    hw: HardwareProfile,
    allow_split: bool,
)
    requires
        total1 <= total2,
        need1 <= need2,
        verdict(total2, need2, hw, allow_split).is_fit(),
    ensures
        verdict(total1, need1, hw, allow_split).is_fit(),
{
}

/// Allowing a split only ever lets more models fit, and a model that fits the
/// GPU alone is never split.
pub proof fn law_split_only_helps(total: u64, need: u64, hw: HardwareProfile)
    ensures
        verdict(total, need, hw, false).is_fit() ==> verdict(total, need, hw, true) == verdict(
            total,
            need,
            hw,
            false,
        ),
        !(verdict(total, need, hw, false) is FitsWithSplit),
        verdict(total, need, hw, true) is FitsWithSplit ==> need > hw.vram_total,
{
}

/// On Apple Silicon the option to split makes no difference to any verdict.
pub proof fn law_unified_memory_ignores_split(total: u64, need: u64, hw: HardwareProfile)
    requires
        hw.unified_mem_total > 0,
    ensures
        verdict(total, need, hw, true) == verdict(total, need, hw, false),
        !(verdict(total, need, hw, true) is FitsWithSplit),
{
}

/// A verdict that a model does not fit says what it needs and what there is,
/// and the first is more than the second.
pub proof fn law_shortfalls_are_real(total: u64, need: u64, hw: HardwareProfile, allow_split: bool)
    ensures
        match verdict(total, need, hw, allow_split) {
            FitResult::DoesNotFit { need: n, have } => n == need && n > have,
            FitResult::InsufficientDisk { need: n, have } => n == total && n > have && have
                == hw.disk_free,
            _ => true,
        },
{
}

/// A context of `k` full blocks of 8192 tokens and some of the next adds 5
/// percentage points for each of the `k`.
pub proof fn law_context_margin_counts_blocks(context_tokens: u32, k: nat)
    requires
        8192 * k < context_tokens <= 8192 * (k + 1),
    ensures
        context_margin(context_tokens) == 5 * k,
        context_margin(0) == 0,
{
}

/// The margin of a request is what the user asks for and what the context adds,
/// as far as a number can hold it.
pub proof fn law_margins_add_up(opts: ResolveOpts)
    ensures
        ({
            let sum = opts.margin_pct + context_margin(opts.context_tokens);
            &&& sum <= u32::MAX ==> effective_margin(opts) == sum
            &&& sum > u32::MAX ==> effective_margin(opts) == u32::MAX
        }),
{
}

/// On a machine with memory of its own on the GPU and at least one GPU selected,
/// however many, a model runs on the GPU exactly when its memory covers the need,
/// and is split exactly when that is allowed, the GPU alone is too small and both
/// memories together are not.
pub proof fn law_selected_gpus_are_used(
    total: u64,
    need: u64,
    hw: HardwareProfile,
    allow_split: bool,
)
    requires
        hw.unified_mem_total == 0,
        hw.vram_total > 0,
        hw.vram_free > 0,
        hw.selected_gpu_indices@.len() > 0,
    ensures
        ({
            let v = verdict(total, need, hw, allow_split);
            let both = hw.vram_total + hw.ram_available;
            &&& v == FitResult::FitsVram <==> total <= hw.disk_free && need <= hw.vram_total
            &&& v == FitResult::FitsWithSplit { gpu_bytes: hw.vram_total, need } <==> total
                <= hw.disk_free && allow_split && hw.vram_total < need <= both
            &&& v is FitsWithSplit ==> v == FitResult::FitsWithSplit {
                gpu_bytes: hw.vram_total,
                need,
            }
            &&& v is DoesNotFit <==> total <= hw.disk_free && need > hw.vram_total && (!allow_split
                || need > both)
            &&& v matches FitResult::DoesNotFit { need: n, have } ==> n == need && (if allow_split {
                have == both || (have == u64::MAX && both > u64::MAX)
            } else {
                have == hw.vram_total
            })
            &&& !(v is FitsRamOnly) && !(v is MacosOnly)
        }),
        hw.runtime_bytes(false) == hw.vram_free,
        hw.vram_free + hw.ram_available <= u64::MAX ==> hw.runtime_bytes(true) == hw.vram_free
            + hw.ram_available,
        hw.vram_free + hw.ram_available > u64::MAX ==> hw.runtime_bytes(true) == u64::MAX,
{
}

/// On a machine without a GPU that could be used, the free system memory decides,
/// whether a split is allowed or not.
pub proof fn law_without_gpu_system_memory_decides(
    total: u64,
    need: u64,
    hw: HardwareProfile,
    allow_split: bool,
)
    requires
        hw.unified_mem_total == 0,
        hw.vram_total == 0 || hw.vram_free == 0 || hw.selected_gpu_indices@.len() == 0,
    ensures
        ({
            let v = verdict(total, need, hw, allow_split);
            &&& v == FitResult::FitsRamOnly <==> total <= hw.disk_free && need <= hw.ram_available
            &&& v == FitResult::DoesNotFit { need, have: hw.ram_available } <==> total
                <= hw.disk_free && need > hw.ram_available
            &&& !(v is FitsVram) && !(v is FitsWithSplit) && !(v is MacosOnly)
        }),
        hw.runtime_bytes(allow_split) == hw.ram_available,
{
}

/// On a machine whose CPU and GPU share their memory, what is free of it decides,
/// or all of it where the free part is unknown.
pub proof fn law_shared_memory_decides(
    total: u64,
    need: u64,
    hw: HardwareProfile,
    allow_split: bool,
)
    requires
        hw.unified_mem_total > 0,
    ensures
        ({
            let v = verdict(total, need, hw, allow_split);
            let pool = if hw.ram_available > 0 {
                hw.ram_available
            } else {
                hw.unified_mem_total
            };
            &&& v == FitResult::FitsVram <==> total <= hw.disk_free && need <= pool
            &&& v == FitResult::DoesNotFit { need, have: pool } <==> total <= hw.disk_free && need
                > pool
            &&& !(v is FitsWithSplit) && !(v is FitsRamOnly) && !(v is MacosOnly)
            &&& hw.runtime_bytes(allow_split) == pool
        }),
{
}

/// A verdict counts as a fit exactly when it names memory that the model runs in.
pub proof fn law_which_verdicts_are_fits(v: FitResult)
    ensures
        v.is_fit() <==> !(v is DoesNotFit) && !(v is InsufficientDisk) && !(v is MacosOnly),
{
}

} // verus!
