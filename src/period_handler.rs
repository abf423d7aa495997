use vstd::prelude::*;

use crate::external_value::Moment;

verus! {

/// The two parts of every period: sources push data in the aggregate part,
/// values are calculated from it in the calculate part.
#[derive(Debug, Clone, Copy, PartialEq, Eq, Structural)]
pub enum Part {
    Aggregate,
    Calculate,
}

/// Period Handler
/// |---------------------|---------------------|
/// |       period        |       period        |
/// |---------|-----------|---------|-----------|
/// |   agg   |   calc    |   agg   |   calc    |
/// agg - Part of timeline when we aggregate new data from sources
/// calc - Part of timeline when we calculate aggregated values
/// A value can be calculated only once in the calc part, or in the next agg part
#[derive(Clone, Copy, PartialEq, Eq, Debug)]
pub struct PeriodHandler {
    /// Begin of period handle
    pub begin: Moment,
    /// One period delta
    pub period: Moment,
    /// Aggregate part of period
    pub aggregate_part: Moment,
    /// Moment when we last update sources
    pub last_sources_update: Option<Moment>,
}

impl PeriodHandler {
    pub open spec fn wf(&self) -> bool {
        &&& self.period > self.aggregate_part
        &&& (self.last_sources_update matches Some(t) ==> t >= self.begin)
    }

    /// Number of the period that `now` falls in, counted from `begin`.
    pub open spec fn period_number(&self, now: Moment) -> int {
        (now - self.begin) as int / self.period as int
    }

    /// Position of `now` inside its period.
    pub open spec fn offset(&self, now: Moment) -> int {
        (now - self.begin) as int % self.period as int
    }

    pub open spec fn part_at(&self, now: Moment) -> Part {
        if self.offset(now) <= self.aggregate_part {
            Part::Aggregate
        } else {
            Part::Calculate
        }
    }

    /// Whether a value that last changed at `last` may be calculated again at `now`.
    pub open spec fn may_calculate(&self, last: Option<Moment>, now: Moment) -> bool {
        let current = self.period_number(now);
        let current_part = self.part_at(now);
        match last {
            None => if current == 0 {
                current_part == Part::Calculate
            } else {
                true
            },
            Some(t) => {
                let previous = self.period_number(t);
                let last_part = self.part_at(t);
                if current < previous {
                    false
                } else if current == previous {
                    last_part == Part::Aggregate && current_part == Part::Calculate
                } else {
                    current_part == Part::Calculate || last_part == Part::Aggregate || current
                        - 1 != previous
                }
            },
        }
    }

    /// Whether `last` lies in a later period than `now`: the clock went backwards.
    pub open spec fn time_reversed(&self, last: Option<Moment>, now: Moment) -> bool {
        last matches Some(t) && self.period_number(t) > self.period_number(now)
    }

    /// Whether `now`, given a value last changed at `last`, shows the clock out of order:
    /// `now` lies before `begin`, or in an earlier period than `last`.
    pub open spec fn clock_fault(&self, last: Option<Moment>, now: Moment) -> bool {
        now < self.begin || self.time_reversed(last, now)
    }

    pub open spec fn update_needed(&self, now: Moment) -> bool {
        &&& self.part_at(now) == Part::Aggregate
        &&& match self.last_sources_update {
            None => true,
            Some(t) => self.period_number(t) < self.period_number(now),
        }
    }

    /// Fails iff `period` is not longer than `aggregate_part`.
    pub fn new(now: Moment, period: Moment, aggregate_part: Moment) -> (r: Result<PeriodHandler, ()>)
        ensures
            r is Ok <==> period > aggregate_part,
            r matches Ok(h) ==> h.wf() && h.begin == now && h.period == period && h.aggregate_part
                == aggregate_part && h.last_sources_update is None,
    {
        if period > aggregate_part {
            Ok(PeriodHandler { period, aggregate_part, begin: now, last_sources_update: None })
        } else {
            Err(())
        }
    }

    /// Whether the handler keeps its invariant.
    pub fn is_valid(&self) -> (r: bool)
        ensures
            r == self.wf(),
    {
        self.period > self.aggregate_part && match self.last_sources_update {
            Some(t) => t >= self.begin,
            None => true,
        }
    }

    /// Get period number
    pub fn get_period(&self, now: Moment) -> (r: Moment)
        requires
            self.wf(),
            now >= self.begin,
        ensures
            r == self.period_number(now),
    {
        (now - self.begin) / self.period
    }

    /// Time left from `now` to the start of the next period.
    fn get_rest_of_period(&self, now: Moment) -> (r: Moment)
        requires
            self.wf(),
            now >= self.begin,
        ensures
            r == self.period - self.offset(now),
            now + r == self.begin + (self.period_number(now) + 1) * self.period,
    {
        let elapsed: Moment = now - self.begin;
        proof {
            vstd::arithmetic::div_mod::lemma_fundamental_div_mod(
                elapsed as int,
                self.period as int,
            );
            let q = elapsed as int / self.period as int;
            assert((q + 1) * self.period == self.period * q + self.period) by (nonlinear_arith);
        }
        self.period - elapsed % self.period
    }

    pub fn get_part(&self, now: Moment) -> (r: Part)
        requires
            self.wf(),
            now >= self.begin,
        ensures
            r == self.part_at(now),
    {
        if self.period - self.get_rest_of_period(now) <= self.aggregate_part {
            Part::Aggregate
        } else {
            Part::Calculate
        }
    }

    pub fn is_can_aggregate(&self, now: Moment) -> (r: bool)
        requires
            self.wf(),
            now >= self.begin,
        ensures
            r == (self.part_at(now) == Part::Aggregate),
    {
        self.get_part(now) == Part::Aggregate
    }

    /// Is calculation possible at `now` if the data last changed at `last_update_time`
    ///
    /// If we don't calculate data in the past period - we can calculate it in current aggregate
    /// part. A `last_update_time` in a later period than `now` gives `false`.
    pub fn is_can_calculate(&self, last_update_time: Option<Moment>, now: Moment) -> (r: bool)
        requires
            self.wf(),
            now >= self.begin,
            last_update_time matches Some(t) ==> t >= self.begin,
        ensures
            r == self.may_calculate(last_update_time, now),
    {
        let current_part = self.get_part(now);
        match last_update_time {
            Some(last_changed) => {
                let last_part = self.get_part(last_changed);
                let current_period = self.get_period(now);
                let last_period = self.get_period(last_changed);
                if current_period < last_period {
                    false
                } else if current_period == last_period {
                    last_part == Part::Aggregate && current_part == Part::Calculate
                } else {
                    match (last_part, current_part) {
                        (_, Part::Calculate) => true,
                        (Part::Aggregate, Part::Aggregate) => true,
                        (Part::Calculate, Part::Aggregate) => current_period - 1 != last_period,
                    }
                }
            },
            None => {
                if self.get_period(now) == 0 {
                    current_part == Part::Calculate
                } else {
                    true
                }
            },
        }
    }

    pub fn set_sources_updated(&mut self, now: Moment)
        requires
            old(self).wf(),
            now >= old(self).begin,
        ensures
            final(self).wf(),
            final(self).last_sources_update == Some(now),
            final(self).begin == old(self).begin,
            final(self).period == old(self).period,
            final(self).aggregate_part == old(self).aggregate_part,
    {
        self.last_sources_update = Some(now);
    }

    pub fn is_sources_update_needed(&self, now: Moment) -> (r: bool)
        requires
            self.wf(),
            now >= self.begin,
        ensures
            r == self.update_needed(now),
    {
        self.is_can_aggregate(now) && match self.last_sources_update {
            None => true,
            Some(last_sources_update) => self.get_period(last_sources_update) < self.get_period(
                now,
            ),
        }
    }
}

/// Period numbers never decrease as time goes on.
pub proof fn lemma_period_monotonic(h: PeriodHandler, t1: Moment, t2: Moment)
    requires
        h.wf(),
        h.begin <= t1 <= t2,
    ensures
        h.period_number(t1) <= h.period_number(t2),
{
    vstd::arithmetic::div_mod::lemma_div_is_ordered(
        (t1 - h.begin) as int,
        (t2 - h.begin) as int,
        h.period as int,
    );
}

/// Every moment from `begin` on lies in exactly one of the two parts: the aggregate
/// part up to `aggregate_part` into its period, the calculate part after it.
pub proof fn lemma_parts_partition(h: PeriodHandler, t: Moment)
    requires
        h.wf(),
        t >= h.begin,
    ensures
        (h.part_at(t) == Part::Aggregate) != (h.part_at(t) == Part::Calculate),
        h.part_at(t) == Part::Aggregate <==> 0 <= h.offset(t) <= h.aggregate_part,
        h.part_at(t) == Part::Calculate <==> h.aggregate_part < h.offset(t) < h.period,
{
}

/// Once a value was calculated at `t1` outside the aggregate part, the next moment
/// `t2` at which it may be calculated again lies in a later period. The one exception,
/// left out here, is a late calculation in the aggregate part of a period followed by
/// the regular one in the calculate part of that same period.
pub proof fn lemma_one_calculation_per_period(h: PeriodHandler, t1: Moment, t2: Moment)
    requires
        h.wf(),
        h.begin <= t1 <= t2,
        h.may_calculate(Some(t1), t2),
        !(h.part_at(t1) == Part::Aggregate && h.part_at(t2) == Part::Calculate && h.period_number(
            t1,
        ) == h.period_number(t2)),
    ensures
        h.period_number(t1) < h.period_number(t2),
{
    lemma_period_monotonic(h, t1, t2);
}

/// After the sources were updated at `now`, no update is needed again until the next period.
pub proof fn lemma_one_sources_update_per_period(h: PeriodHandler, now: Moment, later: Moment)
    requires
        h.wf(),
        h.begin <= now <= later,
        h.period_number(later) == h.period_number(now),
    ensures
        !(PeriodHandler { last_sources_update: Some(now), ..h }).update_needed(later),
{
}

} // verus!
