//! Pipeline monitor: time spent per section of the pipeline.
//!
//! A monitor that is not enabled records nothing.

use std::time::Instant;
use vstd::prelude::*;
use vstd::string::*;
use crate::text::same_text;

verus! {

/// `std::time::Instant`, a point in time.
#[verifier::external_type_specification]
#[verifier::external_body]
pub struct ExInstant(Instant);

/// `Instant::now`, the present point in time. Nothing is claimed of it.
#[verifier::external_body]
fn now() -> (at: Instant) {
    Instant::now()
}

/// `Instant::elapsed`, the time since a point in time, in nanoseconds. It depends on
/// the clock alone, so nothing is claimed of it.
#[verifier::external_body]
fn nanos_since(start: Instant) -> (nanos: u128) {
    start.elapsed().as_nanos()
}

/// Time and calls of one section.
#[derive(Clone, Copy)]
pub struct Timer {
    pub name: &'static str,
    pub nanos: u128,
    pub count: usize,
}

/// Times and calls by section name.
pub open spec fn by_name(timers: Seq<Timer>) -> Map<Seq<char>, (u128, usize)>
    decreases timers.len(),
{
    if timers.len() == 0 {
        Map::empty()
    } else {
        let t = timers.last();
        by_name(timers.drop_last()).insert(t.name@, (t.nanos, t.count))
    }
}

/// No section has two timers.
pub open spec fn distinct(timers: Seq<Timer>) -> bool {
    forall|i: int, j: int|
        0 <= i < j < timers.len() ==> (#[trigger] timers[i]).name@ != (#[trigger] timers[j]).name@
}

/// A sum that stops at the largest number.
pub open spec fn saturating(a: u128, b: u128) -> u128 {
    if a + b <= u128::MAX {
        (a + b) as u128
    } else {
        u128::MAX
    }
}

/// What a section's timer becomes after another call.
pub open spec fn recorded(
    timers: Map<Seq<char>, (u128, usize)>,
    name: Seq<char>,
    nanos: u128,
) -> Map<Seq<char>, (u128, usize)> {
    if timers.contains_key(name) {
        timers.insert(
            name,
            (saturating(timers[name].0, nanos), (timers[name].1 + 1) as usize),
        )
    } else {
        timers.insert(name, (nanos, 1))
    }
}

/// Records the time spent per section.
pub struct PipelineMonitor {
    timers: Vec<Timer>,
    gpu_dispatches: usize,
    enabled: bool,
}

proof fn lemma_by_name_absent(timers: Seq<Timer>, name: Seq<char>)
    ensures
        by_name(timers).contains_key(name) == exists|i: int|
            0 <= i < timers.len() && (#[trigger] timers[i]).name@ == name,
    decreases timers.len(),
{
    if timers.len() > 0 {
        let rest = timers.drop_last();
        lemma_by_name_absent(rest, name);
        if by_name(rest).contains_key(name) {
            let i = choose|i: int| 0 <= i < rest.len() && (#[trigger] rest[i]).name@ == name;
            assert(timers[i].name@ == name);
        }
        if exists|i: int| 0 <= i < timers.len() && (#[trigger] timers[i]).name@ == name {
            let i = choose|i: int| 0 <= i < timers.len() && (#[trigger] timers[i]).name@ == name;
            if i < rest.len() {
                assert(rest[i].name@ == name);
            }
        }
        if timers.last().name@ == name {
            assert(timers[timers.len() - 1].name@ == name);
        }
    }
}

proof fn lemma_by_name_at(timers: Seq<Timer>, i: int)
    requires
        distinct(timers),
        0 <= i < timers.len(),
    ensures
        by_name(timers).contains_key(timers[i].name@),
        by_name(timers)[timers[i].name@] == (timers[i].nanos, timers[i].count),
    decreases timers.len(),
{
    let rest = timers.drop_last();
    if i < rest.len() {
        assert(distinct(rest)) by {
            assert forall|a: int, b: int| 0 <= a < b < rest.len() implies (#[trigger] rest[a]).name@
                != (#[trigger] rest[b]).name@ by {
                assert(timers[a].name@ != timers[b].name@);
            }
        }
        lemma_by_name_at(rest, i);
        assert(timers[i].name@ != timers[timers.len() - 1].name@);
        assert(rest[i] == timers[i]);
    }
}

proof fn lemma_by_name_update(timers: Seq<Timer>, i: int, t: Timer)
    requires
        distinct(timers),
        0 <= i < timers.len(),
        t.name@ == timers[i].name@,
    ensures
        by_name(timers.update(i, t)) == by_name(timers).insert(t.name@, (t.nanos, t.count)),
    decreases timers.len(),
{
    let rest = timers.drop_last();
    let after = timers.update(i, t);
    let last = timers.last();
    if i < rest.len() {
        assert(distinct(rest)) by {
            assert forall|a: int, b: int| 0 <= a < b < rest.len() implies (#[trigger] rest[a]).name@
                != (#[trigger] rest[b]).name@ by {
                assert(timers[a].name@ != timers[b].name@);
            }
        }
        lemma_by_name_update(rest, i, t);
        assert(after.drop_last() =~= rest.update(i, t));
        assert(timers[i].name@ != timers[timers.len() - 1].name@);
        assert(by_name(after) =~= by_name(timers).insert(t.name@, (t.nanos, t.count)));
    } else {
        assert(after.drop_last() =~= rest);
        assert(by_name(after) =~= by_name(timers).insert(t.name@, (t.nanos, t.count)));
    }
}

impl PipelineMonitor {
    /// No section is timed twice.
    pub closed spec fn wf(&self) -> bool {
        distinct(self.timers@)
    }

    /// Times and calls by section.
    pub closed spec fn sections(&self) -> Map<Seq<char>, (u128, usize)> {
        by_name(self.timers@)
    }

    /// The timers themselves.
    pub closed spec fn all(&self) -> Seq<Timer> {
        self.timers@
    }

    /// Number of dispatches.
    pub closed spec fn dispatched(&self) -> usize {
        self.gpu_dispatches
    }

    /// Whether anything is recorded.
    pub closed spec fn is_enabled(&self) -> bool {
        self.enabled
    }

    /// A monitor that has recorded nothing.
    pub fn new(enabled: bool) -> (m: Self)
        ensures
            m.wf(),
            m.sections() == Map::<Seq<char>, (u128, usize)>::empty(),
            m.dispatched() == 0,
            m.is_enabled() == enabled,
    {
        PipelineMonitor { timers: Vec::new(), gpu_dispatches: 0, enabled }
    }

    /// Whether anything is recorded.
    pub fn enabled(&self) -> (on: bool)
        ensures
            on == self.is_enabled(),
    {
        self.enabled
    }

    /// Number of dispatches recorded.
    pub fn dispatches(&self) -> (n: usize)
        ensures
            n == self.dispatched(),
    {
        self.gpu_dispatches
    }

    /// The present point in time, to be handed to `record`.
    pub fn start(&self) -> (at: Instant) {
        now()
    }

    /// Adds the time since `start` to a section. Which time that is depends on the
    /// clock.
    pub fn record(&mut self, name: &'static str, start: Instant)
        requires
            old(self).wf(),
            old(self).sections().contains_key(name@) ==> old(self).sections()[name@].1
                < usize::MAX,
        ensures
            final(self).wf(),
            final(self).is_enabled() == old(self).is_enabled(),
            final(self).dispatched() == old(self).dispatched(),
            !old(self).is_enabled() ==> *final(self) == *old(self),
            old(self).is_enabled() ==> exists|nanos: u128|
                final(self).sections() == #[trigger] recorded(
                    old(self).sections(),
                    name@,
                    nanos,
                ),
    {
        if !self.enabled {
            return;
        }
        let nanos: u128 = nanos_since(start);
        self.record_nanos(name, nanos);
    }

    /// Adds a time to a section.
    pub fn record_nanos(&mut self, name: &'static str, nanos: u128)
        requires
            old(self).wf(),
            old(self).sections().contains_key(name@) ==> old(self).sections()[name@].1
                < usize::MAX,
        ensures
            final(self).wf(),
            final(self).is_enabled() == old(self).is_enabled(),
            final(self).dispatched() == old(self).dispatched(),
            !old(self).is_enabled() ==> *final(self) == *old(self),
            old(self).is_enabled() ==> final(self).sections() == recorded(
                old(self).sections(),
                name@,
                nanos,
            ),
    {
        if !self.enabled {
            return;
        }
        let ghost before = self.timers@;
        let n: usize = self.timers.len();
        let mut i: usize = 0;
        while i < n
            invariant
                n == self.timers@.len(),
                self.timers@ == before,
                before == old(self).timers@,
                self.enabled == old(self).enabled,
                self.enabled,
                self.gpu_dispatches == old(self).gpu_dispatches,
                distinct(before),
                by_name(before).contains_key(name@) ==> by_name(before)[name@].1 < usize::MAX,
                i <= n,
                forall|k: int| 0 <= k < i ==> (#[trigger] before[k]).name@ != name@,
            decreases n - i,
        {
            if same_text(self.timers[i].name, name) {
                let t: Timer = self.timers[i];
                proof {
                    lemma_by_name_at(before, i as int);
                }
                let sum: u128 = if t.nanos <= u128::MAX - nanos {
                    t.nanos + nanos
                } else {
                    u128::MAX
                };
                let next: Timer = Timer { name: t.name, nanos: sum, count: t.count + 1 };
                self.timers.set(i, next);
                proof {
                    lemma_by_name_update(before, i as int, next);
                    assert(self.timers@ == before.update(i as int, next));
                    assert forall|a: int, b: int| 0 <= a < b < self.timers@.len() implies (
                    #[trigger] self.timers@[a]).name@ != (#[trigger] self.timers@[b]).name@ by {
                        assert(before[a].name@ != before[b].name@);
                    }
                }
                return;
            }
            i += 1;
        }
        let first: Timer = Timer { name, nanos, count: 1 };
        self.timers.push(first);
        proof {
            lemma_by_name_absent(before, name@);
            assert(self.timers@.drop_last() =~= before);
            assert forall|a: int, b: int| 0 <= a < b < self.timers@.len() implies (
            #[trigger] self.timers@[a]).name@ != (#[trigger] self.timers@[b]).name@ by {
                if b < before.len() {
                    assert(before[a].name@ != before[b].name@);
                } else {
                    assert(before[a].name@ != name@);
                }
            }
        }
    }

    /// Counts a dispatch.
    pub fn gpu_dispatch(&mut self)
        requires
            old(self).dispatched() < usize::MAX,
        ensures
            final(self).wf() == old(self).wf(),
            final(self).sections() == old(self).sections(),
            final(self).is_enabled() == old(self).is_enabled(),
            final(self).dispatched() == old(self).dispatched() + (if old(self).is_enabled() {
                1int
            } else {
                0
            }),
    {
        if !self.enabled {
            return;
        }
        self.gpu_dispatches = self.gpu_dispatches + 1;
    }

    /// Forgets what was recorded; the monitor stays enabled or not.
    pub fn reset(&mut self)
        ensures
            final(self).wf(),
            final(self).sections() == Map::<Seq<char>, (u128, usize)>::empty(),
            final(self).dispatched() == 0,
            final(self).is_enabled() == old(self).is_enabled(),
    {
        self.timers = Vec::new();
        self.gpu_dispatches = 0;
    }

    /// The timers of an enabled monitor, from the longest time down.
    pub fn report_rows(&self) -> (rows: Option<Vec<Timer>>)
        ensures
            by_name(self.all()) == self.sections(),
            match rows {
                Some(r) => {
                    &&& self.is_enabled()
                    &&& r@.to_multiset() == self.all().to_multiset()
                    &&& longest_first(r@)
                },
                None => !self.is_enabled(),
            },
    {
        broadcast use vstd::seq_lib::group_to_multiset_ensures;

        if !self.enabled {
            return None;
        }
        let n: usize = self.timers.len();
        let mut rows: Vec<Timer> = Vec::new();
        let mut i: usize = 0;
        assert(self.timers@.take(0) =~= Seq::<Timer>::empty());
        assert(rows@ =~= Seq::<Timer>::empty());
        while i < n
            invariant
                n == self.timers@.len(),
                i <= n,
                rows@.to_multiset() == self.timers@.take(i as int).to_multiset(),
                longest_first(rows@),
            decreases n - i,
        {
            let t: Timer = self.timers[i];
            let len: usize = rows.len();
            let mut at: usize = 0;
            while at < len && rows[at].nanos >= t.nanos
                invariant
                    len == rows@.len(),
                    at <= len,
                    forall|k: int| 0 <= k < at ==> (#[trigger] rows@[k]).nanos >= t.nanos,
                decreases len - at,
            {
                at += 1;
            }
            let ghost before = rows@;
            rows.insert(at, t);
            proof {
                vstd::seq_lib::to_multiset_insert(before, at as int, t);
                assert(self.timers@.take(i + 1) =~= self.timers@.take(i as int).push(t));
                vstd::seq_lib::to_multiset_build(self.timers@.take(i as int), t);
                assert forall|a: int, b: int| 0 <= a < b < rows@.len() implies (
                #[trigger] rows@[a]).nanos >= (#[trigger] rows@[b]).nanos by {
                    if b < at {
                        assert(before[a].nanos >= before[b].nanos);
                    } else if a < at {
                        if b > at {
                            assert(before[a].nanos >= before[b - 1].nanos);
                        }
                    } else if a == at {
                        if at < before.len() && b - 1 > at {
                            assert(before[at as int].nanos >= before[b - 1].nanos);
                        }
                    } else {
                        assert(before[a - 1].nanos >= before[b - 1].nanos);
                    }
                }
            }
            i += 1;
        }
        assert(self.timers@.take(n as int) =~= self.timers@);
        Some(rows)
    }
}

/// Timers ordered from the longest time down.
pub open spec fn longest_first(rows: Seq<Timer>) -> bool {
    forall|i: int, j: int|
        0 <= i < j < rows.len() ==> (#[trigger] rows[i]).nanos >= (#[trigger] rows[j]).nanos
}

/// Recording never loses a section, and each record counts one call of its section
/// and none of any other.
pub proof fn law_record_counts_one_call(
    timers: Map<Seq<char>, (u128, usize)>,
    name: Seq<char>,
    nanos: u128,
    other: Seq<char>,
)
    requires
        timers.contains_key(name) ==> timers[name].1 < usize::MAX,
    ensures
        recorded(timers, name, nanos).contains_key(name),
        recorded(timers, name, nanos)[name].1 == (if timers.contains_key(name) {
            timers[name].1 as int
        } else {
            0
        }) + 1,
        other != name && timers.contains_key(other) ==> recorded(
            timers,
            name,
            nanos,
        ).contains_key(other) && recorded(timers, name, nanos)[other] == timers[other],
{
}

} // verus!
