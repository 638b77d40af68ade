//! Curriculum: bands are opened stage by stage.
//!
//! The share of the run that each stage takes is a fraction, which is turned into whole
//! iterations once the length of the run is known.

use vstd::prelude::*;

verus! {

/// A stage: the number of bands that it opens and its share of the run in
/// hundredths.
#[derive(Clone, Copy, Debug, PartialEq, Eq, Structural)]
pub struct Stage {
    pub bands: usize,
    pub percent: usize,
}

/// Progressive band curriculum: starts with fewer bands and opens more.
pub struct CurriculumSchedule {
    pub stages: Vec<Stage>,
}

/// How far a band is opened.
#[derive(Clone, Copy, Debug, PartialEq, Eq, Structural)]
pub enum BandMask {
    /// The band is held down.
    Suppressed,
    /// The band is `step` of [`RAMP_ITERS`] iterations into its ramp.
    Ramping(usize),
    /// The band is open.
    Active,
}

/// Iterations over which a band is opened.
pub const RAMP_ITERS: usize = 200;

/// The larger of two numbers.
pub open spec fn larger(a: int, b: int) -> int {
    if a >= b {
        a
    } else {
        b
    }
}

/// The larger of two numbers.
fn max_of(a: usize, b: usize) -> (m: usize)
    ensures
        m == larger(a as int, b as int),
{
    if a >= b {
        a
    } else {
        b
    }
}

/// The smaller of two numbers.
pub open spec fn smaller(a: int, b: int) -> int {
    if a <= b {
        a
    } else {
        b
    }
}

/// The smaller of two numbers.
fn min_of(a: usize, b: usize) -> (m: usize)
    ensures
        m == smaller(a as int, b as int),
{
    if a <= b {
        a
    } else {
        b
    }
}

/// Four stages with an eighth, a quarter, a half and all of the bands. A stage never opens fewer
/// than eight bands or fewer than the one before, and none opens more than there are.
pub open spec fn default_stages(n_bands: int) -> Seq<Stage> {
    let s1 = smaller(larger(n_bands / 8, 8), n_bands);
    let s2 = larger(n_bands / 4, s1);
    let s3 = larger(n_bands / 2, s2);
    seq![
        Stage { bands: s1 as usize, percent: 20 },
        Stage { bands: s2 as usize, percent: 25 },
        Stage { bands: s3 as usize, percent: 25 },
        Stage { bands: n_bands as usize, percent: 30 },
    ]
}

/// Iterations before stage `i`, given the length of each stage.
pub open spec fn stage_start(lengths: Seq<usize>, i: int) -> int
    decreases i,
{
    if i <= 0 {
        0
    } else {
        stage_start(lengths, i - 1) + lengths[i - 1]
    }
}

/// The mask that a stage gives to the bands it opens, `None` before it starts.
pub open spec fn stage_mask(start: int, iter: int) -> Option<BandMask> {
    if iter >= start + RAMP_ITERS {
        Some(BandMask::Active)
    } else if iter >= start {
        Some(BandMask::Ramping((iter - start) as usize))
    } else {
        None
    }
}

/// The mask of band `k` after the first `n` stages: a stage decides about the
/// bands from where the stage before it ended up to its own number.
pub open spec fn mask_after(
    stages: Seq<Stage>,
    lengths: Seq<usize>,
    iter: int,
    k: int,
    n: int,
) -> BandMask
    decreases n,
{
    if n <= 0 {
        BandMask::Suppressed
    } else {
        let before = mask_after(stages, lengths, iter, k, n - 1);
        let prev = if n == 1 {
            0
        } else {
            stages[n - 2].bands as int
        };
        if prev <= k < stages[n - 1].bands {
            match stage_mask(stage_start(lengths, n - 1), iter) {
                Some(mask) => mask,
                None => before,
            }
        } else {
            before
        }
    }
}

/// Stages before `i` start no later.
pub proof fn lemma_start_monotone(lengths: Seq<usize>, i: int, j: int)
    requires
        0 <= i <= j <= lengths.len(),
    ensures
        0 <= stage_start(lengths, i) <= stage_start(lengths, j),
    decreases j,
{
    if i < j {
        lemma_start_monotone(lengths, i, j - 1);
    } else if i > 0 {
        lemma_start_monotone(lengths, i - 1, j - 1);
    }
}

impl CurriculumSchedule {
    /// The default stages, which start with few bands and open all of them in the end.
    pub fn default_4stage(n_bands: usize) -> (schedule: Self)
        ensures
            schedule.stages@ == default_stages(n_bands as int),
    {
        let s1: usize = min_of(max_of(n_bands / 8, 8), n_bands);
        let s2: usize = max_of(n_bands / 4, s1);
        let s3: usize = max_of(n_bands / 2, s2);
        let mut stages: Vec<Stage> = Vec::new();
        stages.push(Stage { bands: s1, percent: 20 });
        stages.push(Stage { bands: s2, percent: 25 });
        stages.push(Stage { bands: s3, percent: 25 });
        stages.push(Stage { bands: n_bands, percent: 30 });
        CurriculumSchedule { stages }
    }

    /// One stage with all bands.
    pub fn none(n_bands: usize) -> (schedule: Self)
        ensures
            schedule.stages@ == seq![Stage { bands: n_bands, percent: 100 }],
    {
        let mut stages: Vec<Stage> = Vec::new();
        stages.push(Stage { bands: n_bands, percent: 100 });
        CurriculumSchedule { stages }
    }

    /// The first stage that has not ended at `iter`, or the last one. `ends`
    /// gives the iteration at which each stage ends.
    pub open spec fn spec_stage_at(&self, iter: int, ends: Seq<usize>, from: int) -> int
        decreases self.stages@.len() - from,
    {
        if from >= self.stages@.len() - 1 {
            self.stages@.len() - 1
        } else if iter < ends[from] {
            from
        } else {
            self.spec_stage_at(iter, ends, from + 1)
        }
    }

    /// Number of open bands at `iter`, given the iteration at which each stage
    /// ends.
    pub fn active_bands(&self, iter: usize, ends: &Vec<usize>) -> (bands: usize)
        requires
            self.stages@.len() > 0,
            ends@.len() == self.stages@.len(),
        ensures
            bands == self.stages@[self.spec_stage_at(iter as int, ends@, 0)].bands,
    {
        let n: usize = self.stages.len();
        let mut i: usize = 0;
        while i < n - 1
            invariant
                n == self.stages@.len(),
                n > 0,
                ends@.len() == n,
                i <= n - 1,
                self.spec_stage_at(iter as int, ends@, 0) == self.spec_stage_at(
                    iter as int,
                    ends@,
                    i as int,
                ),
            decreases n - i,
        {
            if iter < ends[i] {
                return self.stages[i].bands;
            }
            i += 1;
        }
        self.stages[n - 1].bands
    }

    /// How far each band is opened at `iter`, given the length of each stage.
    pub fn band_masks(&self, iter: usize, lengths: &Vec<usize>, n_bands: usize) -> (masks: Vec<
        BandMask,
    >)
        requires
            lengths@.len() == self.stages@.len(),
            stage_start(lengths@, lengths@.len() as int) + RAMP_ITERS <= usize::MAX,
        ensures
            masks@.len() == n_bands,
            forall|k: int|
                0 <= k < n_bands ==> #[trigger] masks@[k] == mask_after(
                    self.stages@,
                    lengths@,
                    iter as int,
                    k,
                    self.stages@.len() as int,
                ),
    {
        let mut masks: Vec<BandMask> = Vec::new();
        let mut k: usize = 0;
        while k < n_bands
            invariant
                k <= n_bands,
                masks@.len() == k,
                forall|b: int| 0 <= b < k ==> #[trigger] masks@[b] == BandMask::Suppressed,
            decreases n_bands - k,
        {
            masks.push(BandMask::Suppressed);
            k += 1;
        }
        let n: usize = self.stages.len();
        let mut i: usize = 0;
        let mut start: usize = 0;
        let mut prev: usize = 0;
        while i < n
            invariant
                n == self.stages@.len(),
                lengths@.len() == n,
                stage_start(lengths@, n as int) + RAMP_ITERS <= usize::MAX,
                i <= n,
                start == stage_start(lengths@, i as int),
                prev == (if i == 0 {
                    0
                } else {
                    self.stages@[i - 1].bands as int
                }),
                masks@.len() == n_bands,
                forall|b: int|
                    0 <= b < n_bands ==> #[trigger] masks@[b] == mask_after(
                        self.stages@,
                        lengths@,
                        iter as int,
                        b,
                        i as int,
                    ),
            decreases n - i,
        {
            proof {
                lemma_start_monotone(lengths@, i as int, n as int);
                lemma_start_monotone(lengths@, i + 1, n as int);
            }
            let bands: usize = self.stages[i].bands;
            let stop: usize = if bands < n_bands {
                bands
            } else {
                n_bands
            };
            if iter >= start {
                let mask: BandMask = if iter >= start + RAMP_ITERS {
                    BandMask::Active
                } else {
                    BandMask::Ramping(iter - start)
                };
                let mut b: usize = prev;
                while b < stop
                    invariant
                        masks@.len() == n_bands,
                        stop <= n_bands,
                        prev <= b,
                        b <= stop || b == prev,
                        forall|c: int|
                            0 <= c < n_bands ==> #[trigger] masks@[c] == (if prev <= c < b {
                                mask
                            } else {
                                mask_after(self.stages@, lengths@, iter as int, c, i as int)
                            }),
                    decreases stop - b,
                {
                    masks.set(b, mask);
                    b += 1;
                }
            }
            prev = bands;
            start = start + lengths[i];
            i += 1;
        }
        masks
    }
}

/// The default stages never open fewer bands than the stage before, nor more than there are, and
/// the last one opens all of them.
pub proof fn law_default_stages_grow(n_bands: usize)
    ensures
        forall|i: int, j: int|
            0 <= i <= j < 4 ==> (#[trigger] default_stages(n_bands as int)[i]).bands <= (
            #[trigger] default_stages(n_bands as int)[j]).bands <= n_bands,
        default_stages(n_bands as int)[3].bands == n_bands,
{
    let n = n_bands as int;
    let s1 = smaller(larger(n / 8, 8), n);
    let s2 = larger(n / 4, s1);
    let s3 = larger(n / 2, s2);
    assert(s1 <= s2 <= s3 <= n);
}

/// With the default stages the number of open bands never falls during a run and never exceeds
/// the number of bands, and all of them are open once the first three stages have ended.
pub proof fn law_default_curriculum_opens(
    schedule: CurriculumSchedule,
    n_bands: usize,
    ends: Seq<usize>,
    earlier: int,
    later: int,
)
    requires
        schedule.stages@ == default_stages(n_bands as int),
        ends.len() == 4,
        earlier <= later,
    ensures
        schedule.stages@[schedule.spec_stage_at(earlier, ends, 0)].bands
            <= schedule.stages@[schedule.spec_stage_at(later, ends, 0)].bands <= n_bands,
        ends[0] <= later && ends[1] <= later && ends[2] <= later
            ==> schedule.stages@[schedule.spec_stage_at(later, ends, 0)].bands == n_bands,
{
    law_default_stages_grow(n_bands);
    law_active_bands_grow(schedule, ends, earlier, later);
    lemma_stage_at_range(schedule, later, ends, 0);
    assert(schedule.stages@[schedule.spec_stage_at(later, ends, 0)].bands
        <= schedule.stages@[3].bands);
    reveal_with_fuel(CurriculumSchedule::spec_stage_at, 5);
}

proof fn lemma_stage_at_range(schedule: CurriculumSchedule, iter: int, ends: Seq<usize>, from: int)
    requires
        schedule.stages@.len() > 0,
        ends.len() == schedule.stages@.len(),
        0 <= from < schedule.stages@.len(),
    ensures
        from <= schedule.spec_stage_at(iter, ends, from) < schedule.stages@.len(),
    decreases schedule.stages@.len() - from,
{
    if from < schedule.stages@.len() - 1 && iter >= ends[from] {
        lemma_stage_at_range(schedule, iter, ends, from + 1);
    }
}

/// As a run goes on a later stage is reached, never an earlier one.
pub proof fn law_stages_advance(
    schedule: CurriculumSchedule,
    ends: Seq<usize>,
    earlier: int,
    later: int,
    from: int,
)
    requires
        schedule.stages@.len() > 0,
        ends.len() == schedule.stages@.len(),
        earlier <= later,
        0 <= from < schedule.stages@.len(),
    ensures
        schedule.spec_stage_at(earlier, ends, from) <= schedule.spec_stage_at(later, ends, from),
    decreases schedule.stages@.len() - from,
{
    lemma_stage_at_range(schedule, later, ends, from);
    if from < schedule.stages@.len() - 1 && earlier >= ends[from] {
        law_stages_advance(schedule, ends, earlier, later, from + 1);
    }
}

/// With stages that never shrink, the number of open bands never falls during a
/// run.
pub proof fn law_active_bands_grow(
    schedule: CurriculumSchedule,
    ends: Seq<usize>,
    earlier: int,
    later: int,
)
    requires
        schedule.stages@.len() > 0,
        ends.len() == schedule.stages@.len(),
        earlier <= later,
        forall|i: int, j: int|
            0 <= i <= j < schedule.stages@.len() ==> (#[trigger] schedule.stages@[i]).bands
                <= (#[trigger] schedule.stages@[j]).bands,
    ensures
        schedule.stages@[schedule.spec_stage_at(earlier, ends, 0)].bands
            <= schedule.stages@[schedule.spec_stage_at(later, ends, 0)].bands,
{
    law_stages_advance(schedule, ends, earlier, later, 0);
    lemma_stage_at_range(schedule, earlier, ends, 0);
    lemma_stage_at_range(schedule, later, ends, 0);
}

} // verus!
