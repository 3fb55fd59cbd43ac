//! A load harness: one operation, driven again and again, and what it sustained.
//!
//! The operations change persistent state, so batches are not independent and throughput
//! shifts as a table grows. What is wanted is the sustained number of rows. The driver
//! knows nothing of the operation: it says what to run next and is told how many rows that
//! was. Times are in nanoseconds.

use vstd::prelude::*;

verus! {

/// When to stop.
#[derive(Debug, Clone, Copy)]
pub enum Stop {
    /// Once this many rows have been measured, without the warmup.
    Rows(u64),
    /// After this much time.
    After(u128),
}

/// What to drive.
#[derive(Debug, Clone, Copy)]
pub struct Plan {
    pub batch: usize,
    pub stop: Stop,
    /// Batches that are driven but not measured. The first write creates the table, so
    /// without a warmup a short run mostly measures that.
    pub warmup: usize,
}

impl Plan {
    /// A plan with one batch of warmup.
    pub fn new(batch: usize, stop: Stop) -> (r: Plan)
        ensures
            r.batch == batch,
            r.stop == stop,
            r.warmup == 1,
    {
        Plan { batch, stop, warmup: 1 }
    }

    /// Sets the number of batches of warmup.
    pub fn warmup(self, batches: usize) -> (r: Plan)
        ensures
            r.batch == self.batch,
            r.stop == self.stop,
            r.warmup == batches,
    {
        Plan { batch: self.batch, stop: self.stop, warmup: batches }
    }
}

/// One measured batch.
#[derive(Debug, Clone, Copy)]
pub struct Sample {
    pub rows: u64,
    pub elapsed: u128,
    /// The rows that were written ahead of this batch.
    pub offset: u64,
}

/// What was measured.
#[derive(Debug)]
pub struct Report {
    pub samples: Vec<Sample>,
    pub wall: u128,
}

/// The rows of the samples.
pub open spec fn total_rows(samples: Seq<Sample>) -> nat
    decreases samples.len(),
{
    if samples.len() == 0 {
        0
    } else {
        total_rows(samples.drop_last()) + samples.last().rows as nat
    }
}

/// The first samples have no more rows than all.
proof fn lemma_total_grows(samples: Seq<Sample>, n: int)
    requires
        0 <= n <= samples.len(),
    ensures
        total_rows(samples.take(n)) <= total_rows(samples),
    decreases samples.len() - n,
{
    if n == samples.len() {
        assert(samples.take(n) =~= samples);
    } else {
        assert(samples.take(n + 1).drop_last() =~= samples.take(n));
        lemma_total_grows(samples, n + 1);
    }
}

impl Report {
    /// The measured rows.
    pub fn rows(&self) -> (r: u64)
        requires
            total_rows(self.samples@) <= u64::MAX,
        ensures
            r == total_rows(self.samples@),
    {
        let mut total: u64 = 0;
        let mut i: usize = 0;
        assert(self.samples@.take(0) =~= Seq::empty());
        while i < self.samples.len()
            invariant
                i <= self.samples.len(),
                total == total_rows(self.samples@.take(i as int)),
                total_rows(self.samples@) <= u64::MAX,
            decreases self.samples.len() - i,
        {
            proof {
                assert(self.samples@.take(i + 1).drop_last() =~= self.samples@.take(i as int));
                lemma_total_grows(self.samples@, i + 1);
            }
            total = total + self.samples[i].rows;
            i = i + 1;
        }
        assert(self.samples@.take(i as int) =~= self.samples@);
        total
    }
}

// === The driver ===

/// What to run next: a batch at an offset, or nothing more.
#[derive(Debug, Clone, Copy, PartialEq, Eq, Structural)]
pub enum Step {
    /// Run a batch without measuring it.
    Warm { offset: u64, batch: usize },
    /// Run a batch and measure it.
    Measure { offset: u64, batch: usize },
    Done,
}

/// A run of a plan.
#[derive(Debug)]
pub struct Driver {
    pub plan: Plan,
    /// The rows written so far. The operation gets it with each batch, so that each batch
    /// can write rows of its own.
    pub offset: u64,
    /// The batches of warmup that were run.
    pub warmed: usize,
    pub measured: u64,
    pub samples: Vec<Sample>,
    /// Whether a batch brought no rows. Another would bring none either.
    pub idle: bool,
}

/// Whether the offsets of the samples follow on one another from `start`.
pub open spec fn follow_on(samples: Seq<Sample>, start: int) -> bool {
    forall|i: int|
        0 <= i < samples.len() ==> (#[trigger] samples[i]).offset == start + total_rows(
            samples.take(i),
        )
}

/// Whether the measured rows have reached the plan's target.
pub open spec fn reached(stop: Stop, measured: u64, elapsed: u128) -> bool {
    match stop {
        Stop::Rows(target) => measured >= target,
        Stop::After(limit) => elapsed >= limit,
    }
}

/// Whether every sample was called for: the samples ahead of it had not reached a target of
/// rows, and each of them brought rows.
pub open spec fn called_for(samples: Seq<Sample>, stop: Stop) -> bool {
    &&& forall|i: int|
        0 <= i < samples.len() && stop is Rows ==> total_rows(#[trigger] samples.take(i))
            < stop->Rows_0
    &&& forall|i: int| 0 <= i < samples.len() - 1 ==> (#[trigger] samples[i]).rows > 0
}

impl Driver {
    /// What holds at every point of a run: the measured rows are those of the samples, the
    /// samples follow on one another behind the warmup, no sample is taken ahead of the end of
    /// the warmup, and none behind the target or behind a batch without rows.
    pub open spec fn wf(&self) -> bool {
        &&& self.measured == total_rows(self.samples@)
        &&& self.measured <= self.offset
        &&& self.warmed <= self.plan.warmup
        &&& self.samples.len() > 0 ==> self.warmed == self.plan.warmup
        &&& follow_on(self.samples@, self.offset - self.measured)
        &&& called_for(self.samples@, self.plan.stop)
        &&& self.idle <==> self.samples.len() > 0 && self.samples@.last().rows == 0
    }

    /// The start of a run.
    pub fn new(plan: Plan) -> (r: Driver)
        ensures
            r.wf(),
            r.plan == plan,
            r.offset == 0,
            r.warmed == 0,
            r.measured == 0,
            r.samples.len() == 0,
            !r.idle,
    {
        let samples: Vec<Sample> = Vec::new();
        Driver { plan, offset: 0, warmed: 0, measured: 0, samples, idle: false }
    }

    /// What to run next, when the measuring has taken `elapsed` so far.
    pub fn next(&self, elapsed: u128) -> (r: Step)
        requires
            self.wf(),
        ensures
            r == if self.warmed < self.plan.warmup {
                Step::Warm { offset: self.offset, batch: self.plan.batch }
            } else if self.idle || reached(self.plan.stop, self.measured, elapsed) {
                Step::Done
            } else {
                Step::Measure { offset: self.offset, batch: self.plan.batch }
            },
    {
        if self.warmed < self.plan.warmup {
            return Step::Warm { offset: self.offset, batch: self.plan.batch };
        }
        if self.idle {
            return Step::Done;
        }
        let over = match self.plan.stop {
            Stop::Rows(target) => self.measured >= target,
            Stop::After(limit) => elapsed >= limit,
        };
        if over {
            Step::Done
        } else {
            Step::Measure { offset: self.offset, batch: self.plan.batch }
        }
    }

    /// Takes in a batch of warmup.
    pub fn warm(&mut self, rows: u64)
        requires
            old(self).wf(),
            old(self).warmed < old(self).plan.warmup,
            old(self).offset + rows <= u64::MAX,
        ensures
            final(self).wf(),
            final(self).plan == old(self).plan,
            final(self).offset == old(self).offset + rows,
            final(self).warmed == old(self).warmed + 1,
            final(self).measured == old(self).measured,
            final(self).samples@ == old(self).samples@,
            final(self).idle == old(self).idle,
    {
        self.offset = self.offset + rows;
        self.warmed = self.warmed + 1;
    }

    /// Takes in a measured batch.
    pub fn measure(&mut self, rows: u64, elapsed: u128)
        requires
            old(self).wf(),
            old(self).warmed == old(self).plan.warmup,
            !old(self).idle,
            old(self).plan.stop is Rows ==> old(self).measured < old(self).plan.stop->Rows_0,
            old(self).offset + rows <= u64::MAX,
        ensures
            final(self).wf(),
            final(self).plan == old(self).plan,
            final(self).offset == old(self).offset + rows,
            final(self).warmed == old(self).warmed,
            final(self).measured == old(self).measured + rows,
            final(self).samples@ == old(self).samples@.push(
                Sample { rows, elapsed, offset: old(self).offset },
            ),
            final(self).idle == (rows == 0),
    {
        let ghost before = self.samples@;
        let ghost start = self.offset - self.measured;
        let sample = Sample { rows, elapsed, offset: self.offset };
        self.samples.push(sample);
        proof {
            let after = before.push(sample);
            assert(after.drop_last() =~= before);
            assert forall|i: int| 0 <= i < after.len() implies (#[trigger] after[i]).offset == start
                + total_rows(after.take(i)) by {
                assert(after.take(i) =~= before.take(i));
                if i < before.len() {
                    assert(after[i] == before[i]);
                } else {
                    assert(before.take(i) =~= before);
                }
            }
            assert forall|i: int| 0 <= i < after.len() && self.plan.stop is Rows implies total_rows(
                #[trigger] after.take(i),
            ) < self.plan.stop->Rows_0 by {
                assert(after.take(i) =~= before.take(i));
                if i == before.len() {
                    assert(before.take(i) =~= before);
                }
            }
            assert forall|i: int| 0 <= i < after.len() - 1 implies (#[trigger] after[i]).rows
                > 0 by {
                assert(after[i] == before[i]);
            }
        }
        self.offset = self.offset + rows;
        self.measured = self.measured + rows;
        self.idle = rows == 0;
    }

    /// The report of a run that took `wall` to measure.
    pub fn report(self, wall: u128) -> (r: Report)
        requires
            self.wf(),
        ensures
            r.samples == self.samples,
            r.wall == wall,
            total_rows(r.samples@) == self.measured,
    {
        Report { samples: self.samples, wall }
    }
}

// === Laws ===

/// The batches that a run still measures up to a target of rows, when each brings `batch`
/// rows and `taken` are measured.
pub open spec fn steady(batch: nat, target: nat, taken: nat) -> nat
    decreases (if taken <= target { target - taken } else { 0 }),
{
    if batch == 0 || taken >= target {
        0
    } else {
        1 + steady(batch, target, taken + batch)
    }
}

/// A run up to a target of rows whose batches all bring the same rows takes just as many
/// batches as it needs: the target is reached with the last, and not before it.
pub proof fn steady_run_stops_at_the_target(batch: nat, target: nat, taken: nat)
    requires
        batch > 0,
    ensures
        ({
            let n = steady(batch, target, taken);
            &&& taken + n * batch >= target
            &&& n > 0 ==> taken + (n - 1) * batch < target
        }),
    decreases (if taken <= target { target - taken } else { 0 }),
{
    if taken < target {
        steady_run_stops_at_the_target(batch, target, taken + batch);
        let n = steady(batch, target, taken);
        let m = steady(batch, target, taken + batch);
        assert(n * batch == m * batch + batch) by (nonlinear_arith)
            requires
                n == m + 1,
        ;
        if m > 0 {
            assert((n - 1) * batch == (m - 1) * batch + batch) by (nonlinear_arith)
                requires
                    n == m + 1,
            ;
        } else {
            assert((n - 1) * batch == 0) by (nonlinear_arith)
                requires
                    n == 1,
            ;
            assert(m * batch == 0) by (nonlinear_arith)
                requires
                    m == 0,
            ;
        }
    } else {
        assert(0 * batch == 0) by (nonlinear_arith);
    }
}

/// A run up to a target of rows stops as soon as it may, whatever its batches bring: when it is
/// done, the target is reached or the last batch brought no rows, and at no batch before the
/// last was either the case.
pub proof fn run_stops_as_soon_as_it_may(driver: Driver, target: u64, n: int)
    requires
        driver.wf(),
        driver.plan.stop == Stop::Rows(target),
        driver.idle || reached(driver.plan.stop, driver.measured, 0),
        0 <= n < driver.samples.len(),
    ensures
        total_rows(driver.samples@) >= target || driver.samples@.last().rows == 0,
        total_rows(driver.samples@.take(n)) < target,
        n > 0 ==> driver.samples@[n - 1].rows > 0,
{
    let samples = driver.samples@;
    assert(total_rows(samples.take(n)) < target);
    if n > 0 {
        assert(samples[n - 1].rows > 0);
    }
}

/// The first sample of a run stands behind its warmup: the rows of the warmup are written,
/// and none of them are measured.
pub proof fn warmup_is_not_measured(driver: Driver)
    requires
        driver.wf(),
        driver.samples.len() > 0,
    ensures
        driver.samples@[0].offset == driver.offset - total_rows(driver.samples@),
        driver.warmed == driver.plan.warmup,
{
    assert(driver.samples@.take(0) =~= Seq::empty());
    assert(driver.samples@[0].offset == (driver.offset - driver.measured) + total_rows(
        driver.samples@.take(0),
    ));
}

/// How a load generator stops: at the rows asked for, else after the seconds asked for,
/// else at a default of rows.
pub open spec fn chosen(rows: Option<u64>, seconds: Option<u64>) -> Stop {
    match (rows, seconds) {
        (Some(rows), _) => Stop::Rows(rows),
        (None, Some(seconds)) => Stop::After((seconds * 1_000_000_000) as u128),
        (None, None) => Stop::Rows(10_000),
    }
}

/// How a load generator stops.
pub fn choose_stop(rows: Option<u64>, seconds: Option<u64>) -> (r: Stop)
    ensures
        r == chosen(rows, seconds),
{
    match (rows, seconds) {
        (Some(rows), _) => Stop::Rows(rows),
        (None, Some(seconds)) => Stop::After(seconds as u128 * 1_000_000_000),
        (None, None) => Stop::Rows(10_000),
    }
}


// === Laws of what is counted ===

/// Rows are counted once: the rows of samples one behind the other are those of the first and
/// those of the others, and one sample counts as its own rows.
pub proof fn rows_add_up(first: Seq<Sample>, second: Seq<Sample>, sample: Sample)
    ensures
        total_rows(first + second) == total_rows(first) + total_rows(second),
        total_rows(seq![sample]) == sample.rows,
    decreases second.len(),
{
    reveal_with_fuel(total_rows, 2);
    if second.len() == 0 {
        assert(first + second =~= first);
    } else {
        rows_add_up(first, second.drop_last(), sample);
        assert((first + second).drop_last() =~= first + second.drop_last());
    }
}

/// A target of rows is reached by the measured rows whatever the time, a target of time by the
/// time whatever the rows; once reached, it stays reached.
pub proof fn targets_stay_reached(
    rows: u64,
    limit: u128,
    measured: u64,
    elapsed: u128,
)
    ensures
        reached(Stop::Rows(rows), measured, elapsed) <==> rows <= measured,
        reached(Stop::After(limit), measured, elapsed) <==> limit <= elapsed,
{
}

/// Rows that are asked for decide when to stop, with or without seconds; seconds alone decide
/// in nanoseconds; without either it is ten thousand rows.
pub proof fn stops_are_chosen_by_rows_first(
    rows: u64,
    seconds: u64,
    either: Option<u64>,
    measured: u64,
    elapsed: u128,
)
    ensures
        reached(chosen(Some(rows), either), measured, elapsed) <==> rows <= measured,
        reached(chosen(None, Some(seconds)), measured, elapsed) <==> seconds * 1_000_000_000
            <= elapsed,
        reached(chosen(None, None), measured, elapsed) <==> 10_000 <= measured,
{
}

} // verus!
