use std::collections::BTreeMap;
use vstd::prelude::*;
use vstd::std_specs::iter::IteratorSpec;

use crate::external_value::{ExternalValue, Moment, ValueType};
use crate::oracle::{
    cleared_rows, key_order, observed_row, refreshed_rows, Oracle, OracleError, RawString,
    SourceId, TableId,
};
use crate::period_handler::{lemma_one_calculation_per_period, Part, PeriodHandler};

verus! {

broadcast use vstd::laws_cmp::group_laws_cmp;

/// Identity of an oracle in the registry.
pub type OracleId = u32;

/// Identity of an account of the host.
pub type AccountId = SourceId;

/// Identity of a value (slot) inside an oracle, as it travels on the wire.
pub type ValueId = u8;

/// Errors returned by the dispatched operations.
#[derive(Clone, Copy, PartialEq, Eq, Debug, Structural)]
pub enum Error {
    NoneValue,
    OracleIdOverflow,
    WrongPeriods,
    WrongValuesCount,
    WrongValueId,
    NotAggregationTime,
    NotCalculateTime,
    NotEnoughSources,
    NotEnoughValues,
    NotCalculatedValue,
    AccountPermissionDenied,
}

/// The dispatch error an oracle error surfaces as.
pub open spec fn error_of(error: OracleError) -> Error {
    match error {
        OracleError::FewSources(_, _) => Error::NotEnoughSources,
        OracleError::FewPushedValue(_, _) => Error::NotEnoughValues,
        OracleError::EmptyPushedValueInPeriod => Error::NotEnoughValues,
        OracleError::WrongValuesCount(_, _) => Error::WrongValuesCount,
        OracleError::WrongValueId(_) => Error::WrongValueId,
        OracleError::NotCalculateTime => Error::NotCalculateTime,
        OracleError::UncalculatedValue(_) => Error::NotCalculatedValue,
        OracleError::SourcePermissionDenied => Error::AccountPermissionDenied,
        OracleError::CalculationError => Error::NoneValue,
    }
}

impl From<OracleError> for Error {
    fn from(error: OracleError) -> (r: Self)
        ensures
            r == error_of(error),
    {
        match error {
            OracleError::FewSources(_exp, _act) => Error::NotEnoughSources,
            OracleError::FewPushedValue(_exp, _act) => Error::NotEnoughValues,
            OracleError::EmptyPushedValueInPeriod => Error::NotEnoughValues,
            OracleError::WrongValuesCount(_exp, _act) => Error::WrongValuesCount,
            OracleError::WrongValueId(_asset) => Error::WrongValueId,
            OracleError::NotCalculateTime => Error::NotCalculateTime,
            OracleError::UncalculatedValue(_asset) => Error::NotCalculatedValue,
            OracleError::SourcePermissionDenied => Error::AccountPermissionDenied,
            OracleError::CalculationError => Error::NoneValue,
        }
    }
}

impl vstd::std_specs::convert::FromSpecImpl<OracleError> for Error {
    open spec fn obeys_from_spec() -> bool {
        true
    }

    open spec fn from_spec(error: OracleError) -> Error {
        error_of(error)
    }
}

/// Events for the host to publish.
#[derive(Clone, Copy, PartialEq, Eq, Debug, Structural)]
pub enum Event {
    OracleCreated(OracleId, AccountId),
    OracleUpdated(OracleId, ValueId, ValueType),
}

/// Whether the sources of `o` are renewed before a push at `now`.
pub open spec fn push_refresh_due(o: Oracle, now: Moment) -> bool {
    o.sources@.dom().len() == 0 || o.period_handler.update_needed(now)
}

/// The data of the sources of `o` once the renewal (if `due`) from `head` is done.
pub open spec fn rows_after(o: Oracle, due: bool, head: Seq<AccountId>) -> Map<
    SourceId,
    Seq<ExternalValue>,
> {
    if due {
        refreshed_rows(o.rows(), head.to_set(), o.slot_count())
    } else {
        o.rows()
    }
}

/// The outcome of a push of `values` by `who` at `now` to `o`, when the voting table's
/// head is `head`: the sources are renewed first if that is due.
pub open spec fn push_outcome_for(
    o: Oracle,
    who: AccountId,
    now: Moment,
    values: Seq<ValueType>,
    head: Seq<AccountId>,
) -> Result<(), Error> {
    let due = push_refresh_due(o, now);
    if now < o.period_handler.begin {
        Err(Error::NoneValue)
    } else if due && head.to_set().len() < o.source_limit {
        Err(Error::NotEnoughSources)
    } else if o.period_handler.part_at(now) != Part::Aggregate {
        Err(Error::NotAggregationTime)
    } else if !rows_after(o, due, head).contains_key(who) {
        Err(Error::AccountPermissionDenied)
    } else if values.len() != o.slot_count() {
        Err(Error::WrongValuesCount)
    } else {
        Ok(())
    }
}

/// The value calculated for `value_id` of `o` at `now`, when the voting table's head is
/// `head`: the sources are renewed first if that is due.
pub open spec fn calculation_for(o: Oracle, now: Moment, value_id: ValueId, head: Seq<AccountId>) -> Result<
    ValueType,
    Error,
> {
    let h = o.period_handler;
    let due = h.update_needed(now);
    if now < h.begin {
        Err(Error::NoneValue)
    } else if due && head.to_set().len() < o.source_limit {
        Err(Error::NotEnoughSources)
    } else {
        match o.calculation_over(rows_after(o, due, head), value_id as usize, now) {
            Ok(v) => Ok(v),
            Err(e) => Err(error_of(e)),
        }
    }
}

/// What a successful push of `values` by `who` at `now` makes of `o`, when the voting
/// table's head is `head`: on the first push of a new period the data of the last one is
/// kept where still needed and every source's data is cleaned; then `who`'s row is written.
pub open spec fn pushed(
    o: Oracle,
    after: Oracle,
    who: AccountId,
    now: Moment,
    values: Seq<ValueType>,
    head: Seq<AccountId>,
) -> bool {
    let base = rows_after(o, push_refresh_due(o, now), head);
    let p = o.period_handler.period_number(now);
    let row = observed_row(values, now);
    &&& after.sources@.dom() == base.dom()
    &&& after.last_push_period == Some(p as Moment)
    &&& after.values == o.values
    &&& if o.last_push_period matches Some(q) && q != p {
        &&& after.carried() == o.snapshot_over(base, o.last_push_period.unwrap() as int)
        &&& after.rows() == cleared_rows(base, o.slot_count()).insert(who, row)
    } else {
        &&& after.prev_period_source == o.prev_period_source
        &&& after.rows() == base.insert(who, row)
    }
}

/// Whether calculating `value_id` of `o` at `now` fails because nobody pushed in the
/// period of `now`, when the voting table's head is `head`.
pub open spec fn empty_period_for(o: Oracle, now: Moment, value_id: ValueId, head: Seq<AccountId>) -> bool {
    let due = o.period_handler.update_needed(now);
    &&& now >= o.period_handler.begin
    &&& !(due && head.to_set().len() < o.source_limit)
    &&& o.calculation_over(rows_after(o, due, head), value_id as usize, now) == Err::<
        ValueType,
        OracleError,
    >(OracleError::EmptyPushedValueInPeriod)
}

/// Renew the sources of `oracle` from the voting table's head `head`, and note the
/// renewal at `now`.
fn update_accounts(oracle: &mut Oracle, head: Vec<AccountId>, now: Moment) -> (r: Result<
    Vec<AccountId>,
    OracleError,
>)
    requires
        old(oracle).wf(),
        now >= old(oracle).period_handler.begin,
    ensures
        final(oracle).wf(),
        final(oracle).same_settings(old(oracle)),
        final(oracle).values == old(oracle).values,
        final(oracle).last_push_period == old(oracle).last_push_period,
        final(oracle).prev_period_source == old(oracle).prev_period_source,
        final(oracle).rows() == refreshed_rows(old(oracle).rows(), head@.to_set(), old(oracle).slot_count()),
        final(oracle).sources@.dom() == head@.to_set(),
        r is Ok <==> head@.to_set().len() >= old(oracle).source_limit,
        r is Ok ==> final(oracle).period_handler.last_sources_update == Some(now),
        r matches Ok(ks) ==> ks@ == key_order(head@.to_set()),
        r is Err ==> r == Err::<Vec<AccountId>, OracleError>(
            OracleError::FewSources(
                old(oracle).source_limit as usize,
                head@.to_set().len() as usize,
            ),
        ),
{
    let accounts = oracle.update_sources(head)?;
    oracle.period_handler.set_sources_updated(now);
    Ok(accounts)
}

/// Push `values` by `who` at `now` to `oracle`, renewing its sources first if due.
fn push_to(
    oracle: &mut Oracle,
    who: AccountId,
    now: Moment,
    values: Vec<ValueType>,
    head: Vec<AccountId>,
) -> (r: Result<(), Error>)
    requires
        old(oracle).wf(),
    ensures
        final(oracle).wf(),
        r == push_outcome_for(*old(oracle), who, now, values@, head@),
        r is Ok ==> pushed(*old(oracle), *final(oracle), who, now, values@, head@),
{
    if now < oracle.period_handler.begin {
        return Err(Error::NoneValue);
    }
    let ghost o = *oracle;
    let ghost due = push_refresh_due(o, now);
    if oracle.is_sources_empty() || oracle.period_handler.is_sources_update_needed(now) {
        if let Err(e) = update_accounts(oracle, head, now) {
            return Err(Error::from(e));
        }
    }
    assert(oracle.rows() == rows_after(o, due, head@));
    assert(oracle.rows().dom() =~= oracle.sources@.dom());
    if !oracle.period_handler.is_can_aggregate(now) {
        return Err(Error::NotAggregationTime);
    }
    let ghost o1 = *oracle;
    let ghost base = rows_after(o, due, head@);
    proof {
        if o.last_push_period is Some {
            let q = o.last_push_period.unwrap() as int;
            assert forall|i: int| o1.keeps_slot(i, q) == o.keeps_slot(i, q) by {}
            assert(o1.snapshot_over(base, q) =~~= o.snapshot_over(base, q));
        }
    }
    match oracle.push_values(&who, now, values) {
        Ok(()) => {
            assert(oracle.rows().dom() =~= oracle.sources@.dom());
            assert(o1.period_handler.period_number(now) == o.period_handler.period_number(now));
            assert(o1.rows() == base);
            assert(oracle.sources@.dom() == base.dom());
            assert(oracle.values == o.values);
            Ok(())
        },
        Err(e) => Err(Error::from(e)),
    }
}

/// Calculate value `value_id` of `oracle` at `now`, renewing its sources first if due.
fn calculate_at(oracle: &mut Oracle, now: Moment, value_id: ValueId, head: Vec<AccountId>) -> (r:
    Result<ValueType, Error>)
    requires
        old(oracle).wf(),
    ensures
        final(oracle).wf(),
        r == calculation_for(*old(oracle), now, value_id, head@),
        r matches Ok(v) ==> final(oracle).values@ == old(oracle).values@.update(
            value_id as int,
            ExternalValue::at(v, now),
        ),
        empty_period_for(*old(oracle), now, value_id, head@) ==> final(oracle).rows()
            == cleared_rows(
            rows_after(*old(oracle), old(oracle).period_handler.update_needed(now), head@),
            old(oracle).slot_count(),
        ),
{
    if now < oracle.period_handler.begin {
        return Err(Error::NoneValue);
    }
    let ghost o = *oracle;
    let ghost due = o.period_handler.update_needed(now);
    if oracle.period_handler.is_sources_update_needed(now) {
        if let Err(e) = update_accounts(oracle, head, now) {
            return Err(Error::from(e));
        }
    }
    assert(oracle.rows() == rows_after(o, due, head@));
    let ghost o1 = *oracle;
    assert(o1.calculation_over(o1.rows(), value_id as usize, now) == o.calculation_over(
        o1.rows(),
        value_id as usize,
        now,
    ));
    match oracle.calculate_value(value_id as usize, now) {
        Ok(v) => Ok(v),
        Err(e) => Err(Error::from(e)),
    }
}

/// The ids of the oracles of `m`.
fn oracle_ids(m: &BTreeMap<OracleId, Oracle>) -> (r: Vec<OracleId>)
    ensures
        r@.to_set() == m@.dom(),
{
    assert(vstd::laws_cmp::obeys_cmp::<OracleId>());
    let ghost ks = vstd::std_specs::btree::spec_keys_iter(m).remaining();
    let mut r: Vec<OracleId> = Vec::new();
    for k in it: m.keys()
        invariant
            r@ == it.seq().unref().take(it.index() as int),
            it.seq() == ks,
            ks.unref().to_set() == m@.dom(),
    {
        r.push(*k);
    }
    assert(r@ =~= ks.unref());
    r
}

/// The oracles with their id sequence.
#[derive(Clone, Debug)]
pub struct Registry {
    pub oracles: BTreeMap<OracleId, Oracle>,
    pub next_oracle_id: OracleId,
}

impl Registry {
    /// Every oracle is well formed, and its id was handed out before `next_oracle_id`.
    pub open spec fn wf(&self) -> bool {
        forall|id: OracleId| #[trigger]
            self.oracles@.contains_key(id) ==> id < self.next_oracle_id
                && self.oracles@[id].wf()
    }

    /// Whether the other oracles than `id` are as in `other`.
    pub open spec fn others_unchanged(&self, other: &Registry, id: OracleId) -> bool {
        &&& self.oracles@.dom() == other.oracles@.dom().insert(id)
        &&& forall|j: OracleId|
            j != id && #[trigger] other.oracles@.contains_key(j) ==> self.oracles@[j]
                == other.oracles@[j]
    }

    /// The outcome of a push of `values` by `who` at `now` to oracle `id`, when the
    /// voting table's head is `head`.
    pub open spec fn push_outcome(
        &self,
        who: AccountId,
        now: Moment,
        id: OracleId,
        values: Seq<ValueType>,
        head: Seq<AccountId>,
    ) -> Result<(), Error> {
        if !self.oracles@.contains_key(id) {
            Err(Error::NoneValue)
        } else {
            push_outcome_for(self.oracles@[id], who, now, values, head)
        }
    }

    /// The outcome of calculating value `value_id` of oracle `id` at `now`, when the
    /// voting table's head is `head`.
    pub open spec fn calculate_outcome(
        &self,
        now: Moment,
        id: OracleId,
        value_id: ValueId,
        head: Seq<AccountId>,
    ) -> Result<Event, Error> {
        if !self.oracles@.contains_key(id) {
            Err(Error::NoneValue)
        } else {
            match calculation_for(self.oracles@[id], now, value_id, head) {
                Ok(v) => Ok(Event::OracleUpdated(id, value_id, v)),
                Err(e) => Err(e),
            }
        }
    }

    /// The published value `value_id` of oracle `id` with the moment it was calculated.
    pub open spec fn stored_value(&self, id: OracleId, value_id: usize) -> Result<
        (ValueType, Moment),
        Error,
    > {
        if !self.oracles@.contains_key(id) || value_id >= self.oracles@[id].values@.len() {
            Err(Error::WrongValueId)
        } else {
            let ev = self.oracles@[id].values@[value_id as int];
            match (ev.value, ev.last_changed) {
                (Some(v), Some(t)) => Ok((v, t)),
                _ => Err(Error::NotCalculatedValue),
            }
        }
    }

    /// Whether the registry keeps its invariant.
    pub fn is_valid(&self) -> (r: bool)
        ensures
            r == self.wf(),
    {
        let ids = oracle_ids(&self.oracles);
        for i in 0..ids.len()
            invariant
                ids@.to_set() == self.oracles@.dom(),
                forall|j: int|
                    0 <= j < i ==> #[trigger] ids@[j] < self.next_oracle_id
                        && self.oracles@[ids@[j]].wf(),
        {
            let id = ids[i];
            assert(ids@.to_set().contains(id));
            let oracle = self.oracles.get(&id).unwrap();
            if id >= self.next_oracle_id || !oracle.is_valid() {
                return false;
            }
        }
        proof {
            assert forall|id: OracleId| #[trigger]
                self.oracles@.contains_key(id) implies id < self.next_oracle_id
                && self.oracles@[id].wf() by {
                assert(ids@.to_set().contains(id));
                let j = choose|j: int| 0 <= j < ids@.len() && ids@[j] == id;
                assert(ids@[j] < self.next_oracle_id);
            }
        }
        true
    }

    pub fn new() -> (r: Self)
        ensures
            r.wf(),
            r.oracles@ == Map::<OracleId, Oracle>::empty(),
            r.next_oracle_id == 0,
    {
        Registry { oracles: BTreeMap::new(), next_oracle_id: 0 }
    }

    /// Hand out the next oracle id.
    fn get_next_oracle_id(&mut self) -> (r: Result<OracleId, Error>)
        requires
            old(self).wf(),
        ensures
            final(self).wf(),
            final(self).oracles == old(self).oracles,
            old(self).next_oracle_id == OracleId::MAX ==> r == Err::<OracleId, Error>(
                Error::OracleIdOverflow,
            ) && final(self).next_oracle_id == old(self).next_oracle_id,
            old(self).next_oracle_id < OracleId::MAX ==> r == Ok::<OracleId, Error>(
                old(self).next_oracle_id,
            ) && final(self).next_oracle_id == old(self).next_oracle_id + 1,
    {
        match self.next_oracle_id.checked_add(1) {
            Some(next) => {
                let result = self.next_oracle_id;
                self.next_oracle_id = next;
                Ok(result)
            },
            None => Err(Error::OracleIdOverflow),
        }
    }

    /// Create an oracle that `who` asked for at `now`, backed by the voting table `table`.
    pub fn create_oracle(
        &mut self,
        who: AccountId,
        now: Moment,
        name: RawString,
        source_limit: u8,
        period: Moment,
        aggregate_period: Moment,
        table: TableId,
        values_names: Vec<RawString>,
    ) -> (r: Result<Event, Error>)
        requires
            old(self).wf(),
        ensures
            final(self).wf(),
            period <= aggregate_period ==> r == Err::<Event, Error>(Error::WrongPeriods),
            period > aggregate_period && old(self).next_oracle_id == OracleId::MAX ==> r == Err::<
                Event,
                Error,
            >(Error::OracleIdOverflow),
            r is Ok <==> period > aggregate_period && old(self).next_oracle_id < OracleId::MAX,
            r is Err ==> final(self).oracles == old(self).oracles,
            r is Ok ==> {
                let id = old(self).next_oracle_id;
                &&& r == Ok::<Event, Error>(Event::OracleCreated(id, who))
                &&& final(self).next_oracle_id == id + 1
                &&& final(self).others_unchanged(old(self), id)
                &&& !old(self).oracles@.contains_key(id)
                &&& final(self).oracles@[id].is_fresh(
                    name,
                    table,
                    PeriodHandler {
                        begin: now,
                        period,
                        aggregate_part: aggregate_period,
                        last_sources_update: None,
                    },
                    source_limit,
                    values_names,
                )
            },
    {
        let handler = match PeriodHandler::new(now, period, aggregate_period) {
            Ok(handler) => handler,
            Err(()) => {
                return Err(Error::WrongPeriods);
            },
        };
        let id = self.get_next_oracle_id()?;
        let oracle = Oracle::new(name, table, handler, source_limit, values_names);
        self.oracles.insert(id, oracle);
        proof {
            assert(self.oracles@.dom() =~= old(self).oracles@.dom().insert(id));
        }
        Ok(Event::OracleCreated(id, who))
    }

    /// Push `values` by `who` at `now` to oracle `oracle_id`; `head` is the current head
    /// of the oracle's voting table, from which the sources are renewed when due.
    pub fn push(
        &mut self,
        who: AccountId,
        now: Moment,
        oracle_id: OracleId,
        values: Vec<ValueType>,
        head: Vec<AccountId>,
    ) -> (r: Result<(), Error>)
        requires
            old(self).wf(),
        ensures
            final(self).wf(),
            final(self).next_oracle_id == old(self).next_oracle_id,
            r == old(self).push_outcome(who, now, oracle_id, values@, head@),
            old(self).oracles@.contains_key(oracle_id) ==> final(self).others_unchanged(
                old(self),
                oracle_id,
            ),
            !old(self).oracles@.contains_key(oracle_id) ==> final(self).oracles@ == old(self).oracles@,
            r is Ok ==> pushed(
                old(self).oracles@[oracle_id],
                final(self).oracles@[oracle_id],
                who,
                now,
                values@,
                head@,
            ),
    {
        let mut oracle = match self.oracles.remove(&oracle_id) {
            Some(oracle) => oracle,
            None => {
                return Err(Error::NoneValue);
            },
        };
        let result = push_to(&mut oracle, who, now, values, head);
        self.oracles.insert(oracle_id, oracle);
        proof {
            assert(self.oracles@.dom() =~= old(self).oracles@.dom().insert(oracle_id));
        }
        result
    }

    /// Calculate value `value_id` of oracle `oracle_id` at `now`; `head` is the current
    /// head of the oracle's voting table, from which the sources are renewed when due.
    pub fn calculate(
        &mut self,
        now: Moment,
        oracle_id: OracleId,
        value_id: ValueId,
        head: Vec<AccountId>,
    ) -> (r: Result<Event, Error>)
        requires
            old(self).wf(),
        ensures
            final(self).wf(),
            final(self).next_oracle_id == old(self).next_oracle_id,
            r == old(self).calculate_outcome(now, oracle_id, value_id, head@),
            old(self).oracles@.contains_key(oracle_id) ==> final(self).others_unchanged(
                old(self),
                oracle_id,
            ),
            !old(self).oracles@.contains_key(oracle_id) ==> final(self).oracles@ == old(self).oracles@,
            r matches Ok(Event::OracleUpdated(_, _, v)) ==> final(self).oracles@[oracle_id].values@
                == old(self).oracles@[oracle_id].values@.update(
                value_id as int,
                ExternalValue::at(v, now),
            ),
            old(self).oracles@.contains_key(oracle_id) && empty_period_for(
                old(self).oracles@[oracle_id],
                now,
                value_id,
                head@,
            ) ==> {
                let o = old(self).oracles@[oracle_id];
                final(self).oracles@[oracle_id].rows() == cleared_rows(
                    rows_after(o, o.period_handler.update_needed(now), head@),
                    o.slot_count(),
                )
            },
    {
        let mut oracle = match self.oracles.remove(&oracle_id) {
            Some(oracle) => oracle,
            None => {
                return Err(Error::NoneValue);
            },
        };
        let result = calculate_at(&mut oracle, now, value_id, head);
        self.oracles.insert(oracle_id, oracle);
        proof {
            assert(self.oracles@.dom() =~= old(self).oracles@.dom().insert(oracle_id));
        }
        match result {
            Ok(value) => Ok(Event::OracleUpdated(oracle_id, value_id, value)),
            Err(e) => Err(e),
        }
    }

    /// Getter for calculate value in oracle
    pub fn get_external_value(&self, oracle_id: OracleId, value_id: usize) -> (r: Result<
        (ValueType, Moment),
        Error,
    >)
        ensures
            r == self.stored_value(oracle_id, value_id),
    {
        let oracle = match self.oracles.get(&oracle_id) {
            Some(oracle) => oracle,
            None => {
                return Err(Error::WrongValueId);
            },
        };
        if value_id >= oracle.values.len() {
            return Err(Error::WrongValueId);
        }
        match oracle.values[value_id].get() {
            Some(pair) => Ok(pair),
            None => Err(Error::NotCalculatedValue),
        }
    }

    /// The published value `value_id` of oracle `oracle_id`, calculated at `now` first if
    /// it never was.
    pub fn get_or_calculate_external_value(
        &mut self,
        now: Moment,
        oracle_id: OracleId,
        value_id: usize,
        head: Vec<AccountId>,
    ) -> (r: Result<(ValueType, Moment), Error>)
        requires
            old(self).wf(),
        ensures
            final(self).wf(),
            old(self).stored_value(oracle_id, value_id) != Err::<(ValueType, Moment), Error>(
                Error::NotCalculatedValue,
            ) ==> r == old(self).stored_value(oracle_id, value_id) && final(self).oracles@ == old(
                self,
            ).oracles@,
            old(self).stored_value(oracle_id, value_id) == Err::<(ValueType, Moment), Error>(
                Error::NotCalculatedValue,
            ) && value_id > ValueId::MAX ==> r == Err::<(ValueType, Moment), Error>(
                Error::WrongValueId,
            ),
            old(self).stored_value(oracle_id, value_id) == Err::<(ValueType, Moment), Error>(
                Error::NotCalculatedValue,
            ) && value_id <= ValueId::MAX ==> r == (match old(self).calculate_outcome(now, oracle_id, value_id as ValueId, head@) {
                Ok(Event::OracleUpdated(_, _, v)) => Ok((v, now)),
                Ok(_) => Err(Error::NoneValue),
                Err(e) => Err(e),
            }),
    {
        match self.get_external_value(oracle_id, value_id) {
            Err(Error::NotCalculatedValue) => {},
            other => {
                return other;
            },
        }
        // Values are calculated by their wire id
        if value_id > ValueId::MAX as usize {
            return Err(Error::WrongValueId);
        }
        self.calculate(now, oracle_id, value_id as ValueId, head)?;
        self.get_external_value(oracle_id, value_id)
    }
}

/// Between two successful calculations of a value, the period strictly advances: once
/// value `value_id` of oracle `id` was published at `t1`, a later calculation at `t2`
/// succeeds only in a later period. Left out is the one exception: a late calculation in
/// the aggregate part of a period, followed by the regular one in its calculate part.
pub proof fn lemma_one_publication_per_period(
    registry: Registry,
    id: OracleId,
    value_id: ValueId,
    t1: Moment,
    t2: Moment,
    head: Seq<AccountId>,
)
    requires
        registry.wf(),
        registry.oracles@.contains_key(id),
        value_id < registry.oracles@[id].slot_count(),
        registry.oracles@[id].values@[value_id as int].last_changed == Some(t1),
        t1 <= t2,
        registry.calculate_outcome(t2, id, value_id, head) is Ok,
        ({
            let h = registry.oracles@[id].period_handler;
            !(h.part_at(t1) == Part::Aggregate && h.part_at(t2) == Part::Calculate
                && h.period_number(t1) == h.period_number(t2))
        }),
    ensures
        registry.oracles@[id].period_handler.period_number(t1)
            < registry.oracles@[id].period_handler.period_number(t2),
{
    let o = registry.oracles@[id];
    assert(o.wf());
    assert(t1 >= o.period_handler.begin);
    lemma_one_calculation_per_period(o.period_handler, t1, t2);
}

} // verus!
