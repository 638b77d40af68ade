//! Decisions of a training run.
//!
//! The numerical work of an iteration is done elsewhere. Here stands what is
//! decided around it: how a run starts or resumes, which windows of the data are
//! drawn, what is recorded of each loss, and when something is printed, measured
//! or saved.

use vstd::prelude::*;
use vstd::string::*;
use crate::text::{append_decimal, decimal, replace_all, replaced, same_text, strip_suffix};
use crate::text::without_suffix;

verus! {

/// How the parameters of a checkpoint are taken over.
#[derive(Clone, Copy, Debug, PartialEq, Eq, Structural)]
pub enum ResumeParams {
    /// The checkpoint holds every trained parameter.
    Full,
    /// The checkpoint is older: the base parameters are loaded and the rest
    /// starts fresh.
    Base,
}

/// How the optimiser continues.
#[derive(Clone, Copy, Debug, PartialEq, Eq, Structural)]
pub enum ResumeOptimizer {
    Keep,
    Fresh,
}

/// A checkpoint is complete if it holds as many parameters as are trained.
pub fn resume_params(n_saved: usize, n_trained: usize) -> (how: ResumeParams)
    ensures
        how == (if n_saved == n_trained {
            ResumeParams::Full
        } else {
            ResumeParams::Base
        }),
{
    if n_saved == n_trained {
        ResumeParams::Full
    } else {
        ResumeParams::Base
    }
}

/// The optimiser's state is kept if it covers exactly the trained parameters.
pub fn resume_optimizer(n_state: usize, n_trained: usize) -> (how: ResumeOptimizer)
    ensures
        how == (if n_state == n_trained {
            ResumeOptimizer::Keep
        } else {
            ResumeOptimizer::Fresh
        }),
{
    if n_state == n_trained {
        ResumeOptimizer::Keep
    } else {
        ResumeOptimizer::Fresh
    }
}

/// A number of groups that does not divide the embedding.
pub struct GroupMismatch {
    /// Components that the groups would cover.
    pub covered: usize,
    /// Components that they would leave out.
    pub orphaned: usize,
    /// Numbers of groups up to 32 that do divide the embedding, ascending.
    pub valid: Vec<usize>,
}

/// `g` is a usable number of groups for an embedding of `n_embd` components.
pub open spec fn valid_groups(n_embd: int, g: int) -> bool {
    1 <= g <= n_embd && g <= 32 && n_embd % g == 0
}

/// The usable numbers of groups, ascending.
fn divisors(n_embd: usize) -> (valid: Vec<usize>)
    ensures
        forall|i: int, j: int|
            0 <= i < j < valid@.len() ==> #[trigger] valid@[i] < #[trigger] valid@[j],
        forall|g: usize| valid@.contains(g) <==> valid_groups(n_embd as int, g as int),
{
    let mut valid: Vec<usize> = Vec::new();
    let mut g: usize = 1;
    while g <= n_embd && g <= 32
        invariant
            1 <= g <= 33,
            g <= n_embd + 1,
            forall|i: int| 0 <= i < valid@.len() ==> #[trigger] valid@[i] < g,
            forall|i: int, j: int|
                0 <= i < j < valid@.len() ==> #[trigger] valid@[i] < #[trigger] valid@[j],
            forall|i: int|
                0 <= i < valid@.len() ==> valid_groups(n_embd as int, #[trigger] valid@[i] as int),
            forall|k: usize| k < g && valid_groups(n_embd as int, k as int) ==> valid@.contains(k),
        decreases 33 - g,
    {
        let ghost before = valid@;
        if n_embd % g == 0 {
            valid.push(g);
        }
        proof {
            assert forall|k: usize| k < g + 1 && valid_groups(n_embd as int, k as int) implies
                valid@.contains(k) by {
                if k < g {
                    let i = choose|i: int| 0 <= i < before.len() && before[i] == k;
                    assert(valid@[i] == k);
                } else {
                    assert(valid@[valid@.len() - 1] == g);
                }
            }
        }
        g += 1;
    }
    valid
}

/// Whether the groups of the output projection cover the embedding. One group,
/// or none, always does.
pub fn check_groups(n_embd: usize, groups: usize) -> (result: Result<(), GroupMismatch>)
    ensures
        result is Ok <==> groups <= 1 || n_embd % groups == 0,
        result matches Err(e) ==> {
            &&& e.covered == (n_embd as int / groups as int) * groups
            &&& e.covered + e.orphaned == n_embd
            &&& e.orphaned == n_embd % groups
            &&& forall|i: int, j: int|
                0 <= i < j < e.valid@.len() ==> #[trigger] e.valid@[i] < #[trigger] e.valid@[j]
            &&& forall|g: usize| e.valid@.contains(g) <==> valid_groups(n_embd as int, g as int)
        },
{
    if groups > 1 && n_embd % groups != 0 {
        proof {
            vstd::arithmetic::div_mod::lemma_fundamental_div_mod(n_embd as int, groups as int);
            vstd::arithmetic::mul::lemma_mul_is_commutative(
                groups as int,
                n_embd as int / groups as int,
            );
            assert((n_embd as int / groups as int) * groups >= 0) by (nonlinear_arith)
                requires
                    n_embd >= 0,
                    groups > 0,
            ;
        }
        let covered: usize = (n_embd / groups) * groups;
        Err(GroupMismatch { covered, orphaned: n_embd - covered, valid: divisors(n_embd) })
    } else {
        Ok(())
    }
}

/// The compute tier that tags a run.
pub open spec fn tier(use_gpu: bool) -> Seq<char> {
    if use_gpu {
        "wgpu"@
    } else {
        "cpu"@
    }
}

/// The name of a run's telemetry log: the given one, else derived from the
/// checkpoint's name, else from the compute tier.
pub open spec fn spec_log_name(
    given: Option<Seq<char>>,
    checkpoint: Seq<char>,
    use_gpu: bool,
) -> Seq<char> {
    match given {
        Some(name) => name,
        None => {
            let stem = if checkpoint != "checkpoint.bin"@ {
                without_suffix(checkpoint, ".bin"@)
            } else {
                tier(use_gpu)
            };
            "training_log_"@ + stem + ".jsonl"@
        },
    }
}

/// The name of a run's telemetry log.
pub fn log_name(given: Option<&str>, checkpoint: &str, use_gpu: bool) -> (name: String)
    ensures
        name@ == spec_log_name(
            match given {
                Some(g) => Some(g@),
                None => None,
            },
            checkpoint@,
            use_gpu,
        ),
{
    match given {
        Some(g) => String::from_str(g),
        None => {
            let stem: String = if !same_text(checkpoint, "checkpoint.bin") {
                strip_suffix(checkpoint, ".bin")
            } else if use_gpu {
                String::from_str("wgpu")
            } else {
                String::from_str("cpu")
            };
            log_file_name(stem.as_str())
        },
    }
}

/// The name of the telemetry log of a run called `stem`.
pub fn log_file_name(stem: &str) -> (name: String)
    ensures
        name@ == "training_log_"@ + stem@ + ".jsonl"@,
{
    let mut name: String = String::from_str("training_log_");
    name.append(stem);
    name.append(".jsonl");
    name
}

/// The name of a periodic checkpoint.
pub fn periodic_checkpoint_name(iter: usize) -> (name: String)
    ensures
        name@ == "checkpoint_iter"@ + decimal(iter as nat) + ".bin"@,
{
    let mut name: String = String::from_str("checkpoint_iter");
    append_decimal(&mut name, iter);
    name.append(".bin");
    name
}

/// The directory of the map scan that follows a run.
pub fn galaxy_dir_name(checkpoint: &str) -> (name: String)
    ensures
        name@ == replaced(checkpoint@, ".bin"@, "_galaxy"@),
{
    proof {
        reveal_strlit(".bin");
    }
    replace_all(checkpoint, ".bin", "_galaxy")
}

/// First token of a training window: a random number brought into range.
pub fn window_start(random: u64, n_tokens: usize, seq_len: usize) -> (start: usize)
    requires
        seq_len + 1 < n_tokens,
    ensures
        start == (random as usize) as int % (n_tokens - seq_len - 1),
        start + seq_len + 1 <= n_tokens,
        start + seq_len + 1 < n_tokens,
{
    (random as usize) % (n_tokens - seq_len - 1)
}

/// Every window that can be drawn lies in the data with its shifted targets.
pub proof fn law_window_lies_in_data(random: int, n_tokens: int, seq_len: int)
    requires
        0 <= random,
        0 <= seq_len,
        seq_len + 1 < n_tokens,
    ensures
        0 <= random % (n_tokens - seq_len - 1),
        random % (n_tokens - seq_len - 1) + seq_len + 1 < n_tokens,
{
}

/// Input tokens and target tokens of a training window: the targets are the
/// inputs shifted by one.
pub fn window<T: Copy>(data: &[T], start: usize, seq_len: usize) -> (pair: (Vec<T>, Vec<T>))
    requires
        start + seq_len + 1 <= data@.len(),
    ensures
        pair.0@ == data@.subrange(start as int, start + seq_len),
        pair.1@ == data@.subrange(start + 1, start + seq_len + 1),
{
    let total: usize = data.len();
    (
        crate::seqs::take(data, start, seq_len),
        crate::seqs::take(data, start + 1, seq_len),
    )
}

/// The last `n` entries of a history, or all of a shorter one.
pub open spec fn last_entries<L>(history: Seq<L>, n: int) -> Seq<L> {
    if history.len() <= n {
        history
    } else {
        history.subrange(history.len() - n, history.len() as int)
    }
}

/// What follows an iteration.
#[derive(Clone, Copy, Debug, PartialEq, Eq, Structural)]
pub struct StepPlan {
    /// The batch is discarded: no optimiser step, nothing else below.
    pub skip: bool,
    /// The discarded batch is reported.
    pub report_skip: bool,
    /// The head's learning-rate floor may apply.
    pub past_warmup: bool,
    /// A console line is due.
    pub print: bool,
    /// The line shows the average of the recent losses instead of the loss.
    pub average: bool,
    /// Iterations that the profile report covers.
    pub report_span: usize,
    /// Health lines are due.
    pub health: bool,
    /// A checkpoint is due.
    pub checkpoint: bool,
}

/// State of a run: losses are kept as they are given.
pub struct TrainProgress<L> {
    pub start_iter: usize,
    pub total_iters: usize,
    pub iter: usize,
    pub nan_skips: usize,
    pub best: Option<L>,
    pub best_iter: usize,
    pub history: Vec<L>,
    pub recent: Vec<L>,
}

impl<L: Copy> TrainProgress<L> {
    /// The run is between its first and its last iteration; each finished
    /// iteration was either recorded or skipped; the recent losses are the last
    /// hundred recorded ones; the best iteration was run.
    pub open spec fn wf(&self) -> bool {
        &&& self.start_iter <= self.iter <= self.total_iters
        &&& self.nan_skips + self.history@.len() == self.iter - self.start_iter
        &&& self.recent@ == last_entries(self.history@, 100)
        &&& self.best is Some ==> self.start_iter <= self.best_iter < self.iter
        &&& self.best is Some ==> self.history@.len() > 0
    }

    /// A run of `n_iters` iterations from `start_iter` on.
    pub fn new(start_iter: usize, n_iters: usize) -> (run: Self)
        requires
            start_iter + n_iters <= usize::MAX,
        ensures
            run.wf(),
            run.start_iter == start_iter,
            run.iter == start_iter,
            run.total_iters == start_iter + n_iters,
            run.nan_skips == 0,
            run.best is None,
            run.best_iter == 0,
            run.history@.len() == 0,
            run.recent@.len() == 0,
    {
        TrainProgress {
            start_iter,
            total_iters: start_iter + n_iters,
            iter: start_iter,
            nan_skips: 0,
            best: None,
            best_iter: 0,
            history: Vec::new(),
            recent: Vec::new(),
        }
    }

    /// Whether there is another iteration to run.
    pub fn running(&self) -> (more: bool)
        ensures
            more == (self.iter < self.total_iters),
    {
        self.iter < self.total_iters
    }

    /// Takes the loss of the current iteration and moves on to the next one.
    ///
    /// A loss that is not finite is counted and discarded. Any other loss is
    /// recorded, and becomes the best one if it `improves` on the best so far.
    pub fn step(
        &mut self,
        loss: L,
        finite: bool,
        improves: bool,
        health_interval: usize,
    ) -> (plan: StepPlan)
        requires
            old(self).wf(),
            old(self).iter < old(self).total_iters,
        ensures
            final(self).wf(),
            final(self).start_iter == old(self).start_iter,
            final(self).total_iters == old(self).total_iters,
            final(self).iter == old(self).iter + 1,
            plan.skip == !finite,
            !finite ==> {
                &&& final(self).nan_skips == old(self).nan_skips + 1
                &&& final(self).history@ == old(self).history@
                &&& final(self).recent@ == old(self).recent@
                &&& final(self).best == old(self).best
                &&& final(self).best_iter == old(self).best_iter
                &&& plan.report_skip == (old(self).iter % 100 == 0 || old(self).iter < 10)
                &&& !plan.past_warmup && !plan.print && !plan.average && !plan.health
                    && !plan.checkpoint
            },
            finite ==> {
                &&& final(self).nan_skips == old(self).nan_skips
                &&& final(self).history@ == old(self).history@.push(loss)
                &&& final(self).recent@ == last_entries(old(self).history@.push(loss), 100)
                &&& if improves {
                    final(self).best == Some(loss) && final(self).best_iter == old(self).iter
                } else {
                    final(self).best == old(self).best && final(self).best_iter == old(
                        self,
                    ).best_iter
                }
                &&& !plan.report_skip
                &&& plan.past_warmup == (old(self).iter - old(self).start_iter > 500)
                &&& plan.print == (old(self).iter % 10 == 0 || old(self).iter == old(
                    self,
                ).total_iters - 1)
                &&& plan.average == (final(self).recent@.len() >= 10)
                &&& plan.health == (health_interval > 0 && old(self).iter % health_interval == 0)
                &&& plan.checkpoint == ((old(self).iter + 1) % 500 == 0)
            },
            plan.report_span == (if old(self).iter == 0 {
                1
            } else if old(self).iter < 50 {
                old(self).iter as int
            } else {
                50
            }),
    {
        let iter: usize = self.iter;
        let report_span: usize = if iter == 0 {
            1
        } else if iter < 50 {
            iter
        } else {
            50
        };
        self.iter = iter + 1;
        if !finite {
            self.nan_skips = self.nan_skips + 1;
            return StepPlan {
                skip: true,
                report_skip: iter % 100 == 0 || iter < 10,
                past_warmup: false,
                print: false,
                average: false,
                report_span,
                health: false,
                checkpoint: false,
            };
        }
        let ghost history = self.history@;
        self.history.push(loss);
        if improves {
            self.best = Some(loss);
            self.best_iter = iter;
        }
        self.recent.push(loss);
        if self.recent.len() > 100 {
            let _oldest: L = self.recent.remove(0);
        }
        assert(self.recent@ =~= last_entries(history.push(loss), 100));
        StepPlan {
            skip: false,
            report_skip: false,
            past_warmup: iter - self.start_iter > 500,
            print: iter % 10 == 0 || iter == self.total_iters - 1,
            average: self.recent.len() >= 10,
            report_span,
            health: health_interval > 0 && iter % health_interval == 0,
            checkpoint: (iter + 1) % 500 == 0,
        }
    }
}

/// The recent losses stay the last hundred however a run goes on: appending a
/// loss and dropping the oldest beyond a hundred commutes with recording it.
pub proof fn law_recent_follows_history<L>(history: Seq<L>, loss: L)
    ensures
        last_entries(history.push(loss), 100) == last_entries(
            last_entries(history, 100).push(loss),
            100,
        ),
{
    assert(last_entries(history.push(loss), 100) =~= last_entries(
        last_entries(history, 100).push(loss),
        100,
    ));
}

/// Every iteration of a finished run was either recorded or skipped.
pub proof fn law_every_iteration_accounted<L: Copy>(run: TrainProgress<L>)
    requires
        run.wf(),
        run.iter == run.total_iters,
    ensures
        run.nan_skips + run.history@.len() == run.total_iters - run.start_iter,
{
}

/// Indices of the batch elements whose loss is not finite, ascending.
pub fn bad_elements(finite: &Vec<bool>) -> (bad: Vec<usize>)
    ensures
        forall|i: int, j: int|
            0 <= i < j < bad@.len() ==> #[trigger] bad@[i] < #[trigger] bad@[j],
        forall|k: usize| bad@.contains(k) <==> k < finite@.len() && !finite@[k as int],
{
    let n: usize = finite.len();
    let mut bad: Vec<usize> = Vec::new();
    let mut i: usize = 0;
    while i < n
        invariant
            n == finite@.len(),
            i <= n,
            forall|a: int| 0 <= a < bad@.len() ==> #[trigger] bad@[a] < i,
            forall|a: int, b: int|
                0 <= a < b < bad@.len() ==> #[trigger] bad@[a] < #[trigger] bad@[b],
            forall|a: int| 0 <= a < bad@.len() ==> !finite@[#[trigger] bad@[a] as int],
            forall|k: usize| k < i && !finite@[k as int] ==> bad@.contains(k),
        decreases n - i,
    {
        let ghost before = bad@;
        if !finite[i] {
            bad.push(i);
        }
        proof {
            assert forall|k: usize| k < i + 1 && !finite@[k as int] implies bad@.contains(k) by {
                if k < i {
                    let a = choose|a: int| 0 <= a < before.len() && before[a] == k;
                    assert(bad@[a] == k);
                } else {
                    assert(bad@[bad@.len() - 1] == i);
                }
            }
        }
        i += 1;
    }
    bad
}

/// Positions that the framework monitor compares as related: neighbours, from
/// every second of the first ten positions.
pub open spec fn spec_related(t: int) -> Seq<(int, int)> {
    let first = if t < 10 {
        t
    } else {
        10
    };
    Seq::new((first / 2) as nat, |i: int| (2 * i, 2 * i + 1))
}

/// Positions that the framework monitor compares as related. With an odd number
/// of positions below ten the last one has no neighbour and is left out.
pub fn related_positions(t: usize) -> (pairs: Vec<(usize, usize)>)
    ensures
        pairs@.len() == spec_related(t as int).len(),
        forall|i: int|
            0 <= i < pairs@.len() ==> (#[trigger] pairs@[i]).0 == spec_related(t as int)[i].0
                && pairs@[i].1 == spec_related(t as int)[i].1 && pairs@[i].1 < t,
{
    let first: usize = if t < 10 {
        t
    } else {
        10
    };
    let mut pairs: Vec<(usize, usize)> = Vec::new();
    let mut i: usize = 0;
    while i < first
        invariant
            first == (if t < 10 {
                t
            } else {
                10
            }),
            i <= first + 1,
            i % 2 == 0,
            i <= first ==> pairs@.len() == i / 2,
            i > first ==> pairs@.len() == first / 2,
            forall|k: int|
                0 <= k < pairs@.len() ==> (#[trigger] pairs@[k]).0 == 2 * k && pairs@[k].1 == 2 * k
                    + 1 && pairs@[k].1 < t,
        decreases first + 1 - i,
    {
        if i + 1 < t {
            pairs.push((i, i + 1));
        }
        i += 2;
    }
    pairs
}

/// Positions that the framework monitor compares as unrelated: each of the first
/// five with the one half a sequence on, where that is another position.
pub open spec fn spec_unrelated(t: int, n: int) -> Seq<(int, int)>
    decreases n,
{
    if n <= 0 {
        Seq::empty()
    } else {
        let i = n - 1;
        let j = (i + t / 2) % t;
        if j != i {
            spec_unrelated(t, n - 1).push((i, j))
        } else {
            spec_unrelated(t, n - 1)
        }
    }
}

/// Positions that the framework monitor compares as unrelated.
pub fn unrelated_positions(t: usize) -> (pairs: Vec<(usize, usize)>)
    requires
        t + t / 2 <= usize::MAX,
    ensures
        ({
            let expected = spec_unrelated(
                t as int,
                if t < 5 {
                    t as int
                } else {
                    5
                },
            );
            &&& pairs@.len() == expected.len()
            &&& forall|i: int|
                0 <= i < pairs@.len() ==> (#[trigger] pairs@[i]).0 == expected[i].0 && pairs@[i].1
                    == expected[i].1 && pairs@[i].1 < t
        }),
{
    let first: usize = if t < 5 {
        t
    } else {
        5
    };
    let mut pairs: Vec<(usize, usize)> = Vec::new();
    let mut i: usize = 0;
    while i < first
        invariant
            first <= t,
            t + t / 2 <= usize::MAX,
            i <= first,
            pairs@.len() == spec_unrelated(t as int, i as int).len(),
            forall|k: int|
                0 <= k < pairs@.len() ==> (#[trigger] pairs@[k]).0 == spec_unrelated(
                    t as int,
                    i as int,
                )[k].0 && pairs@[k].1 == spec_unrelated(t as int, i as int)[k].1 && pairs@[k].1
                    < t,
        decreases first - i,
    {
        let j: usize = (i + t / 2) % t;
        if j != i {
            pairs.push((i, j));
        }
        i += 1;
    }
    pairs
}

/// The label of a pair of positions.
pub fn pair_label(i: usize, j: usize) -> (label: String)
    ensures
        label@ == "pos"@ + decimal(i as nat) + "/"@ + decimal(j as nat),
{
    let mut label: String = String::from_str("pos");
    append_decimal(&mut label, i);
    label.append("/");
    append_decimal(&mut label, j);
    label
}

/// Tokens of the training data that the final scan looks at.
pub fn scan_len(n_tokens: usize) -> (n: usize)
    ensures
        n == (if n_tokens < 200 {
            n_tokens
        } else {
            200
        }),
{
    if n_tokens < 200 {
        n_tokens
    } else {
        200
    }
}

/// The moduli of the embedding, where not given the smallest coprime pair in use.
pub fn moduli_or_default(m1: Option<usize>, m2: Option<usize>) -> (m: (usize, usize))
    ensures
        m.0 == (match m1 {
            Some(m) => m,
            None => 5,
        }),
        m.1 == (match m2 {
            Some(m) => m,
            None => 7,
        }),
{
    let a: usize = match m1 {
        Some(m) => m,
        None => 5,
    };
    let b: usize = match m2 {
        Some(m) => m,
        None => 7,
    };
    (a, b)
}

} // verus!
