//! Training parameters that are off, learned or prescribed.

use vstd::prelude::*;

verus! {

/// A parameter that is unused, learned by the model, or fixed per group.
#[derive(Clone)]
pub enum DynParam<T> {
    Off,
    Dynamic,
    Fixed(Vec<T>),
}

impl<T> DynParam<T> {
    /// Whether the parameter takes part in training at all.
    pub fn is_active(&self) -> (active: bool)
        ensures
            active == !(*self is Off),
    {
        match self {
            DynParam::Off => false,
            DynParam::Dynamic => true,
            DynParam::Fixed(_) => true,
        }
    }

    /// Whether the model learns the parameter.
    pub fn is_dynamic(&self) -> (dynamic: bool)
        ensures
            dynamic == (*self is Dynamic),
    {
        match self {
            DynParam::Off => false,
            DynParam::Dynamic => true,
            DynParam::Fixed(_) => false,
        }
    }
}

/// The prescribed values in front, the rest as it was.
pub open spec fn overlaid<T>(values: Seq<T>, target: Seq<T>) -> Seq<T> {
    Seq::new(
        target.len(),
        |i: int|
            if i < values.len() {
                values[i]
            } else {
                target[i]
            },
    )
}

/// Writes prescribed values over the front of `target`. Values beyond its length
/// are ignored; a parameter that is not fixed changes nothing.
pub fn apply_fixed<T: Copy>(param: &DynParam<T>, target: &mut Vec<T>)
    ensures
        final(target)@ == (match *param {
            DynParam::Fixed(values) => overlaid(values@, old(target)@),
            _ => old(target)@,
        }),
{
    match param {
        DynParam::Fixed(values) => {
            let n: usize = if values.len() < target.len() {
                values.len()
            } else {
                target.len()
            };
            let mut i: usize = 0;
            while i < n
                invariant
                    i <= n,
                    n <= values@.len(),
                    n <= target@.len(),
                    target@.len() == old(target)@.len(),
                    forall|k: int| 0 <= k < i ==> #[trigger] target@[k] == values@[k],
                    forall|k: int|
                        i <= k < target@.len() ==> #[trigger] target@[k] == old(target)@[k],
                decreases n - i,
            {
                target.set(i, values[i]);
                i += 1;
            }
            assert(target@ =~= overlaid(values@, old(target)@));
        },
        DynParam::Off => {},
        DynParam::Dynamic => {},
    }
}

/// Prescribing the same values again changes nothing.
pub proof fn law_overlay_idempotent<T>(values: Seq<T>, target: Seq<T>)
    ensures
        overlaid(values, overlaid(values, target)) == overlaid(values, target),
{
    assert(overlaid(values, overlaid(values, target)) =~= overlaid(values, target));
}

/// Position in the learning-rate schedule.
#[derive(Clone, Copy, Debug, PartialEq, Eq, Structural)]
pub enum LrPhase {
    /// Step `step` of `of` of the linear warm-up, counted from one.
    Warmup { step: usize, of: usize },
    /// `done` of `span` iterations of the cosine decay.
    Cosine { done: usize, span: usize },
}

/// Iterations of the linear warm-up.
pub const WARMUP_ITERS: usize = 100;

/// Where iteration `iter` of `total_iters` stands in the schedule.
pub fn lr_phase(iter: usize, total_iters: usize) -> (phase: LrPhase)
    requires
        iter < total_iters,
    ensures
        phase == (if iter < WARMUP_ITERS {
            LrPhase::Warmup { step: (iter + 1) as usize, of: WARMUP_ITERS }
        } else {
            LrPhase::Cosine {
                done: (iter - WARMUP_ITERS) as usize,
                span: (total_iters - WARMUP_ITERS) as usize,
            }
        }),
        phase matches LrPhase::Cosine { done, span } ==> done < span,
        phase matches LrPhase::Warmup { step, of } ==> 0 < step <= of,
{
    if iter < WARMUP_ITERS {
        LrPhase::Warmup { step: iter + 1, of: WARMUP_ITERS }
    } else {
        LrPhase::Cosine { done: iter - WARMUP_ITERS, span: total_iters - WARMUP_ITERS }
    }
}

} // verus!
