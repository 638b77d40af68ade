//! Decisions of a training run on wave data.

use vstd::prelude::*;
use vstd::string::*;
use crate::text::{append_decimal, decimal};

verus! {

/// The vocabulary size of a wave model. It is not used for decoding; it only has
/// to be positive.
pub fn wave_vocab_size(n_bands: usize) -> (n: usize)
    ensures
        n == (if n_bands >= 1 {
            n_bands
        } else {
            1
        }),
        n > 0,
{
    if n_bands >= 1 {
        n_bands
    } else {
        1
    }
}

/// A window into the wave data.
#[derive(Clone, Copy, Debug, PartialEq, Eq, Structural)]
pub struct WaveWindow {
    pub start: usize,
    pub len: usize,
}

/// Number of places where a window may start: at least one.
pub open spec fn spec_max_start(n_positions: int, seq_len: int) -> int {
    if n_positions - (seq_len + 1) >= 1 {
        n_positions - (seq_len + 1)
    } else {
        1
    }
}

/// A random window: as long as the sequence, or as long as the data allow.
pub fn wave_window(random: u64, n_positions: usize, seq_len: usize) -> (w: WaveWindow)
    requires
        n_positions >= 1,
        seq_len < usize::MAX,
    ensures
        w.start == (random as usize) as int % spec_max_start(n_positions as int, seq_len as int),
        w.len == (if seq_len <= n_positions - w.start - 1 {
            seq_len as int
        } else {
            n_positions - w.start - 1
        }),
        w.start + w.len + 1 <= n_positions,
{
    let spare: usize = n_positions.saturating_sub(seq_len + 1);
    let max_start: usize = if spare >= 1 {
        spare
    } else {
        1
    };
    let start: usize = (random as usize) % max_start;
    let room: usize = n_positions - start - 1;
    let len: usize = if seq_len <= room {
        seq_len
    } else {
        room
    };
    WaveWindow { start, len }
}

/// Where the data are long enough, every window has the full length.
pub proof fn law_full_windows(random: int, n_positions: int, seq_len: int)
    requires
        0 <= random,
        0 <= seq_len,
        seq_len + 1 < n_positions,
    ensures
        random % spec_max_start(n_positions, seq_len) + seq_len + 1 < n_positions,
{
}

/// What the stall detector does at an iteration.
#[derive(Clone, Copy, Debug, PartialEq, Eq, Structural)]
pub enum StallPoint {
    Nothing,
    /// The loss is remembered as the early reference.
    Remember,
    /// The loss is remembered and compared with the early reference.
    Compare,
    /// The run ends unless the loss fell since the comparison.
    Decide,
}

/// Checkpoints of the stall detector, counted from the start of the run.
pub fn stall_point(iters_into_run: usize) -> (point: StallPoint)
    ensures
        point == (if iters_into_run == 500 {
            StallPoint::Remember
        } else if iters_into_run == 2000 {
            StallPoint::Compare
        } else if iters_into_run == 5000 {
            StallPoint::Decide
        } else {
            StallPoint::Nothing
        }),
{
    if iters_into_run == 500 {
        StallPoint::Remember
    } else if iters_into_run == 2000 {
        StallPoint::Compare
    } else if iters_into_run == 5000 {
        StallPoint::Decide
    } else {
        StallPoint::Nothing
    }
}

/// What follows an iteration on wave data.
#[derive(Clone, Copy, Debug, PartialEq, Eq, Structural)]
pub struct WaveStep {
    /// The batch is discarded.
    pub skip: bool,
    /// Console and telemetry lines are due.
    pub log: bool,
    /// The run made no progress at the first comparison.
    pub warn_stall: bool,
    /// The run ends here.
    pub abort: bool,
    /// A checkpoint is due, named after this iteration.
    pub checkpoint: Option<usize>,
}

/// State of a run on wave data. Losses are kept as they are given.
pub struct WaveProgress<L> {
    pub start_iter: usize,
    pub total_iters: usize,
    pub iter: usize,
    pub nan_skips: usize,
    pub best: Option<L>,
    pub best_iter: usize,
    pub early: Option<L>,
    pub middle: Option<L>,
    pub stopped: bool,
}

impl<L: Copy> WaveProgress<L> {
    /// The run is between its first and its last iteration, and no more losses
    /// were discarded than iterations were run.
    pub open spec fn wf(&self) -> bool {
        &&& self.start_iter <= self.iter <= self.total_iters
        &&& self.nan_skips <= self.iter - self.start_iter
        &&& self.start_iter <= self.best_iter
        &&& self.best_iter < self.iter || self.best_iter == self.start_iter
    }

    /// A run of `n_iters` iterations from `start_iter` on.
    pub fn new(start_iter: usize, n_iters: usize) -> (run: Self)
        requires
            start_iter + n_iters <= usize::MAX,
        ensures
            run.wf(),
            run.start_iter == start_iter,
            run.iter == start_iter,
            run.total_iters == start_iter + n_iters,
            run.nan_skips == 0,
            run.best is None,
            run.best_iter == start_iter,
            run.early is None,
            run.middle is None,
            !run.stopped,
    {
        WaveProgress {
            start_iter,
            total_iters: start_iter + n_iters,
            iter: start_iter,
            nan_skips: 0,
            best: None,
            best_iter: start_iter,
            early: None,
            middle: None,
            stopped: false,
        }
    }

    /// Whether there is another iteration to run.
    pub fn running(&self) -> (more: bool)
        ensures
            more == (self.iter < self.total_iters && !self.stopped),
    {
        self.iter < self.total_iters && !self.stopped
    }

    /// Takes the loss of the current iteration and moves on.
    ///
    /// `flat_early` tells whether the loss is hardly below the early reference,
    /// `flat_middle` whether it is hardly below the middle one; each is read only
    /// where the stall detector compares.
    pub fn step(
        &mut self,
        loss: L,
        finite: bool,
        improves: bool,
        flat_early: bool,
        flat_middle: bool,
    ) -> (plan: WaveStep)
        requires
            old(self).wf(),
            old(self).iter < old(self).total_iters,
        ensures
            final(self).wf(),
            final(self).start_iter == old(self).start_iter,
            final(self).total_iters == old(self).total_iters,
            final(self).iter == old(self).iter + 1,
            plan.skip == !finite,
            !finite ==> {
                &&& final(self).nan_skips == old(self).nan_skips + 1
                &&& final(self).best == old(self).best
                &&& final(self).best_iter == old(self).best_iter
                &&& final(self).early == old(self).early
                &&& final(self).middle == old(self).middle
                &&& final(self).stopped == old(self).stopped
                &&& !plan.log && !plan.warn_stall && !plan.abort && plan.checkpoint is None
            },
            finite ==> {
                let into = old(self).iter - old(self).start_iter;
                &&& final(self).nan_skips == old(self).nan_skips
                &&& if improves {
                    final(self).best == Some(loss) && final(self).best_iter == old(self).iter
                } else {
                    final(self).best == old(self).best && final(self).best_iter == old(
                        self,
                    ).best_iter
                }
                &&& final(self).early == (if into == 500 {
                    Some(loss)
                } else {
                    old(self).early
                })
                &&& final(self).middle == (if into == 2000 {
                    Some(loss)
                } else {
                    old(self).middle
                })
                &&& plan.log == (old(self).iter % 100 == 0 || old(self).iter == old(
                    self,
                ).total_iters - 1 || into == 0)
                &&& plan.warn_stall == (into == 2000 && flat_early)
                &&& plan.abort == (into == 5000 && flat_middle)
                &&& final(self).stopped == (old(self).stopped || plan.abort)
                &&& plan.checkpoint == (if !plan.abort && into > 0 && old(self).iter % 500 == 0 {
                    Some((old(self).iter + 1) as usize)
                } else {
                    None
                })
            },
    {
        let iter: usize = self.iter;
        let into: usize = iter - self.start_iter;
        self.iter = iter + 1;
        if !finite {
            self.nan_skips = self.nan_skips + 1;
            return WaveStep {
                skip: true,
                log: false,
                warn_stall: false,
                abort: false,
                checkpoint: None,
            };
        }
        if improves {
            self.best = Some(loss);
            self.best_iter = iter;
        }
        let mut warn_stall: bool = false;
        let mut abort: bool = false;
        match stall_point(into) {
            StallPoint::Nothing => {},
            StallPoint::Remember => {
                self.early = Some(loss);
            },
            StallPoint::Compare => {
                self.middle = Some(loss);
                warn_stall = flat_early;
            },
            StallPoint::Decide => {
                abort = flat_middle;
            },
        }
        if abort {
            self.stopped = true;
        }
        let checkpoint: Option<usize> = if !abort && into > 0 && iter % 500 == 0 {
            Some(iter + 1)
        } else {
            None
        };
        WaveStep {
            skip: false,
            log: iter % 100 == 0 || iter == self.total_iters - 1 || into == 0,
            warn_stall,
            abort,
            checkpoint,
        }
    }
}

/// The file name of a periodic checkpoint of a run called `stem`.
pub fn iter_checkpoint_name(stem: &str, iter: usize) -> (name: String)
    ensures
        name@ == stem@ + "_iter"@ + decimal(iter as nat) + ".bin"@,
{
    let mut name: String = String::from_str(stem);
    name.append("_iter");
    append_decimal(&mut name, iter);
    name.append(".bin");
    name
}

} // verus!
