use std::collections::BTreeMap;
use vstd::prelude::*;
use vstd::std_specs::cmp::OrdSpec;
use vstd::std_specs::iter::IteratorSpec;

use crate::external_value::{
    get_median, lemma_median_of_multiset, mean_of_pair, median_amount, median_spec, ExternalValue,
    Median, Moment, ValueType,
};
use crate::period_handler::{Part, PeriodHandler};

verus! {

broadcast use vstd::laws_cmp::group_laws_cmp;

/// Identity of a source (a reporter allowed to push data).
pub type SourceId = u64;

/// Reference to the table of the voting module that elects the sources.
pub type TableId = u32;

pub type RawString = Vec<u8>;

#[derive(Clone, Copy, PartialEq, Eq, Debug, Structural)]
pub enum OracleError {
    /// Not enough sources for oracle work
    FewSources(usize, usize),
    /// Not enough pushed values for calculate
    FewPushedValue(usize, usize),
    /// No push in period - can't calculate value
    EmptyPushedValueInPeriod,
    /// The pushed values vector is not the right size.
    WrongValuesCount(usize, usize),
    /// Value id (number in vector) is wrong
    WrongValueId(usize),
    /// The value may not be calculated at this moment
    NotCalculateTime,
    /// Value not calculated
    UncalculatedValue(usize),
    /// Source not in list
    SourcePermissionDenied,
    /// Unknown error in calculate process
    CalculationError,
}

/// `n` clean values.
pub open spec fn clean_row(n: nat) -> Seq<ExternalValue> {
    Seq::new(n, |i: int| ExternalValue::empty())
}

/// The values `values`, each changed at `now`.
pub open spec fn observed_row(values: Seq<ValueType>, now: Moment) -> Seq<ExternalValue> {
    Seq::new(values.len(), |i: int| ExternalValue::at(values[i], now))
}

/// The rows kept for the sources of `roster`: a source already present keeps its row,
/// a new one starts with `n` clean values.
pub open spec fn refreshed_rows(
    rows: Map<SourceId, Seq<ExternalValue>>,
    roster: Set<SourceId>,
    n: nat,
) -> Map<SourceId, Seq<ExternalValue>> {
    Map::new(
        |k: SourceId| roster.contains(k),
        |k: SourceId|
            if rows.contains_key(k) {
                rows[k]
            } else {
                clean_row(n)
            },
    )
}

/// The same sources, each with `n` clean values.
pub open spec fn cleared_rows(rows: Map<SourceId, Seq<ExternalValue>>, n: nat) -> Map<
    SourceId,
    Seq<ExternalValue>,
> {
    Map::new(|k: SourceId| rows.contains_key(k), |k: SourceId| clean_row(n))
}

/// The value each source of `rows` pushed for `slot`.
pub open spec fn pushed_cell(rows: Map<SourceId, Seq<ExternalValue>>, slot: int) -> spec_fn(
    SourceId,
) -> Option<ValueType> {
    |k: SourceId| rows[k][slot].value
}

/// The values present among the cells of the sources `ks`, in that order.
pub open spec fn present_values(
    ks: Seq<SourceId>,
    cell: spec_fn(SourceId) -> Option<ValueType>,
) -> Seq<ValueType>
    decreases ks.len(),
{
    if ks.len() == 0 {
        Seq::empty()
    } else {
        let rest = present_values(ks.drop_last(), cell);
        match cell(ks.last()) {
            Some(v) => rest.push(v),
            None => rest,
        }
    }
}

proof fn lemma_present_values_append(
    a: Seq<SourceId>,
    b: Seq<SourceId>,
    cell: spec_fn(SourceId) -> Option<ValueType>,
)
    ensures
        present_values(a + b, cell) == present_values(a, cell) + present_values(b, cell),
    decreases b.len(),
{
    if b.len() == 0 {
        assert(a + b =~= a);
        assert(present_values(a, cell) + present_values(b, cell) =~= present_values(a, cell));
    } else {
        let b1 = b.drop_last();
        lemma_present_values_append(a, b1, cell);
        assert((a + b).drop_last() =~= a + b1);
        assert((a + b).last() == b.last());
        match cell(b.last()) {
            Some(v) => {
                assert(present_values(a, cell) + present_values(b1, cell).push(v) =~= (
                present_values(a, cell) + present_values(b1, cell)).push(v));
            },
            None => {},
        }
    }
}

/// The values present among the cells of some sources form the same collection,
/// whatever order the sources are listed in; so they have the same median.
pub proof fn lemma_present_values_any_order(
    ks: Seq<SourceId>,
    kt: Seq<SourceId>,
    cell: spec_fn(SourceId) -> Option<ValueType>,
)
    requires
        ks.no_duplicates(),
        kt.no_duplicates(),
        forall|k: SourceId| ks.contains(k) <==> kt.contains(k),
    ensures
        present_values(ks, cell).to_multiset() == present_values(kt, cell).to_multiset(),
        median_spec(present_values(ks, cell)) == median_spec(present_values(kt, cell)),
    decreases ks.len(),
{
    broadcast use vstd::multiset::group_multiset_axioms;
    broadcast use vstd::seq_lib::lemma_multiset_commutative;

    if ks.len() == 0 {
        if kt.len() > 0 {
            assert(kt.contains(kt[0]));
        }
        assert(ks =~= kt);
    } else {
        let x = ks.last();
        let ks1 = ks.drop_last();
        assert(ks.contains(x));
        let i = choose|i: int| 0 <= i < kt.len() && kt[i] == x;
        let a = kt.subrange(0, i);
        let b = kt.subrange(i + 1, kt.len() as int);
        let kt1 = a + b;
        assert(kt =~= a + seq![x] + b);
        assert(ks =~= ks1 + seq![x]);
        assert(kt1.no_duplicates()) by {
            assert forall|p: int, q: int| 0 <= p < q < kt1.len() implies kt1[p] != kt1[q] by {
                let pp = if p < i { p } else { p + 1 };
                let qq = if q < i { q } else { q + 1 };
                assert(kt1[p] == kt[pp]);
                assert(kt1[q] == kt[qq]);
            }
        }
        assert forall|k: SourceId| ks1.contains(k) <==> kt1.contains(k) by {
            if ks1.contains(k) {
                let j = choose|j: int| 0 <= j < ks1.len() && ks1[j] == k;
                assert(ks[j] == k && k != x);
                assert(kt.contains(k));
                let jt = choose|jt: int| 0 <= jt < kt.len() && kt[jt] == k;
                if jt < i {
                    assert(kt1[jt] == k);
                } else {
                    assert(jt != i);
                    assert(kt1[jt - 1] == k);
                }
            }
            if kt1.contains(k) {
                let j = choose|j: int| 0 <= j < kt1.len() && kt1[j] == k;
                let jt = if j < i { j } else { j + 1 };
                assert(kt[jt] == k && k != x);
                assert(ks.contains(k));
                let js = choose|js: int| 0 <= js < ks.len() && ks[js] == k;
                assert(js != ks.len() - 1);
                assert(ks1[js] == k);
            }
        }
        lemma_present_values_any_order(ks1, kt1, cell);
        lemma_present_values_append(ks1, seq![x], cell);
        lemma_present_values_append(a + seq![x], b, cell);
        lemma_present_values_append(a, seq![x], cell);
        lemma_present_values_append(a, b, cell);
        let pa = present_values(a, cell);
        let pb = present_values(b, cell);
        let px = present_values(seq![x], cell);
        assert(present_values(kt, cell) == pa + px + pb);
        assert(present_values(ks, cell) == present_values(ks1, cell) + px);
        assert(present_values(kt1, cell) == pa + pb);
        assert((pa + px + pb).to_multiset() =~= (pa + pb + px).to_multiset());
    }
    lemma_median_of_multiset(present_values(ks, cell), present_values(kt, cell));
}

/// Whether `ks` lists exactly the members of `d`, in strictly ascending order.
pub open spec fn is_key_order(ks: Seq<SourceId>, d: Set<SourceId>) -> bool {
    &&& forall|k: SourceId| ks.contains(k) <==> d.contains(k)
    &&& forall|i: int, j: int| 0 <= i < j < ks.len() ==> ks[i] < ks[j]
}

/// The members of `d` in ascending order.
pub open spec fn key_order(d: Set<SourceId>) -> Seq<SourceId> {
    choose|ks: Seq<SourceId>| is_key_order(ks, d)
}

/// A set has only one strictly ascending listing.
proof fn lemma_key_order_unique(a: Seq<SourceId>, b: Seq<SourceId>, d: Set<SourceId>)
    requires
        is_key_order(a, d),
        is_key_order(b, d),
    ensures
        a == b,
    decreases a.len(),
{
    if a.len() == 0 {
        if b.len() > 0 {
            assert(b.contains(b[0]));
            assert(!a.contains(b[0]));
        }
        assert(a =~= b);
    } else {
        assert(a.contains(a[0]));
        assert(b.contains(a[0]));
        let jb = choose|j: int| 0 <= j < b.len() && b[j] == a[0];
        assert(b.contains(b[0]));
        assert(a.contains(b[0]));
        let ja = choose|j: int| 0 <= j < a.len() && a[j] == b[0];
        assert(a[0] == b[0]) by {
            if jb > 0 {
                assert(b[0] < b[jb]);
            }
            if ja > 0 {
                assert(a[0] < a[ja]);
            }
        }
        let d2 = d.remove(a[0]);
        let a2 = a.drop_first();
        let b2 = b.drop_first();
        assert forall|k: SourceId| a2.contains(k) <==> d2.contains(k) by {
            if a2.contains(k) {
                let j = choose|j: int| 0 <= j < a2.len() && a2[j] == k;
                assert(a[j + 1] == k);
                assert(a.contains(k));
            }
            if d2.contains(k) {
                assert(a.contains(k));
                let j = choose|j: int| 0 <= j < a.len() && a[j] == k;
                assert(j != 0);
                assert(a2[j - 1] == k);
            }
        }
        assert forall|k: SourceId| b2.contains(k) <==> d2.contains(k) by {
            if b2.contains(k) {
                let j = choose|j: int| 0 <= j < b2.len() && b2[j] == k;
                assert(b[j + 1] == k);
                assert(b.contains(k));
            }
            if d2.contains(k) {
                assert(b.contains(k));
                let j = choose|j: int| 0 <= j < b.len() && b[j] == k;
                assert(j != 0);
                assert(b2[j - 1] == k);
            }
        }
        lemma_key_order_unique(a2, b2, d2);
        assert(a =~= b) by {
            assert forall|i: int| 0 <= i < a.len() implies a[i] == b[i] by {
                if i > 0 {
                    assert(a2[i - 1] == b2[i - 1]);
                }
            }
        }
    }
}

/// The keys of `m` in ascending order.
fn source_keys<V>(m: &BTreeMap<SourceId, V>) -> (r: Vec<SourceId>)
    ensures
        r@ == key_order(m@.dom()),
        is_key_order(r@, m@.dom()),
{
    broadcast use vstd::laws_cmp::group_laws_cmp;

    assert(vstd::laws_cmp::obeys_cmp::<SourceId>());
    assert(vstd::laws_cmp::obeys_cmp::<&SourceId>());
    let ghost ks = vstd::std_specs::btree::spec_keys_iter(m).remaining();
    let mut r: Vec<SourceId> = Vec::new();
    for k in it: m.keys()
        invariant
            r@ == it.seq().unref().take(it.index() as int),
            it.seq() == ks,
            ks.unref().to_set() == m@.dom(),
            vstd::std_specs::btree::increasing_seq(ks),
    {
        r.push(*k);
    }
    assert(r@ =~= ks.unref());
    proof {
        vstd::std_specs::btree::axiom_increasing_seq_meaning(ks);
    }
    assert(is_key_order(r@, m@.dom())) by {
        assert forall|k: SourceId| r@.contains(k) <==> m@.dom().contains(k) by {
            if r@.contains(k) {
                assert(r@.to_set().contains(k));
            }
            if m@.dom().contains(k) {
                assert(r@.to_set().contains(k));
            }
        }
        assert forall|i: int, j: int| 0 <= i < j < r@.len() implies r@[i] < r@[j] by {
            assert(OrdSpec::cmp_spec(&ks[i], &ks[j]) is Less);
        }
    }
    proof {
        lemma_key_order_unique(r@, key_order(m@.dom()), m@.dom());
    }
    r
}

#[derive(Clone, PartialEq, Eq, Debug)]
pub struct Oracle {
    /// Name of oracle
    pub name: RawString,
    /// ID in the table of the voting module
    pub table: TableId,
    /// Lower limit of the number of sources
    pub source_limit: u8,
    /// Work with aggregate and calculate periods in oracle
    pub period_handler: PeriodHandler,
    /// All pushed by sources data
    pub sources: BTreeMap<SourceId, Vec<ExternalValue>>,
    /// Names of external values
    pub names: Vec<RawString>,
    /// Vector of calculated values
    pub values: Vec<ExternalValue>,
    /// The last period when one of the sources pushed the values
    pub last_push_period: Option<Moment>,
    /// The `sources` field from previous period for lazy calculating in current period aggregate part
    pub prev_period_source: BTreeMap<SourceId, Vec<Option<ExternalValue>>>,
}

impl Oracle {
    /// Number of values (slots) of the oracle.
    pub open spec fn slot_count(&self) -> nat {
        self.names@.len()
    }

    /// Data pushed by each source in the current period.
    pub open spec fn rows(&self) -> Map<SourceId, Seq<ExternalValue>> {
        self.sources@.map_values(|v: Vec<ExternalValue>| v@)
    }

    /// Data of the previous period, kept for late calculation.
    pub open spec fn carried(&self) -> Map<SourceId, Seq<Option<ExternalValue>>> {
        self.prev_period_source@.map_values(|v: Vec<Option<ExternalValue>>| v@)
    }

    pub open spec fn wf(&self) -> bool {
        &&& self.period_handler.wf()
        &&& self.values@.len() == self.names@.len()
        &&& forall|k: SourceId| #[trigger]
            self.sources@.contains_key(k) ==> self.sources@[k]@.len() == self.names@.len()
        &&& forall|k: SourceId| #[trigger]
            self.prev_period_source@.contains_key(k) ==> self.prev_period_source@[k]@.len()
                == self.names@.len()
        &&& forall|i: int|
            0 <= i < self.values@.len() ==> (#[trigger] self.values@[i].last_changed matches Some(
                t,
            ) ==> t >= self.period_handler.begin)
        &&& forall|i: int| 0 <= i < self.values@.len() ==> (#[trigger] self.values@[i]).wf()
    }

    /// The settings that no operation but `add_assets` changes.
    pub open spec fn same_settings(&self, other: &Oracle) -> bool {
        &&& self.name == other.name
        &&& self.table == other.table
        &&& self.source_limit == other.source_limit
        &&& self.names == other.names
        &&& self.period_handler.begin == other.period_handler.begin
        &&& self.period_handler.period == other.period_handler.period
        &&& self.period_handler.aggregate_part == other.period_handler.aggregate_part
    }

    /// Whether the data pushed for slot `i` in period `p` is kept for late calculation:
    /// the slot's value was not calculated in `p`.
    pub open spec fn keeps_slot(&self, i: int, p: int) -> bool {
        match self.values@[i].last_changed {
            Some(t) => self.period_handler.period_number(t) != p,
            None => true,
        }
    }

    /// The data kept at the first push of a new period from the sources' data `rows`, when
    /// the last push was in period `p`.
    pub open spec fn snapshot_over(&self, rows: Map<SourceId, Seq<ExternalValue>>, p: int) -> Map<
        SourceId,
        Seq<Option<ExternalValue>>,
    > {
        Map::new(
            |k: SourceId| rows.contains_key(k),
            |k: SourceId|
                Seq::new(
                    self.slot_count(),
                    |i: int|
                        if self.keeps_slot(i, p) {
                            Some(rows[k][i])
                        } else {
                            None
                        },
                ),
        )
    }

    /// The data kept at the first push of a new period, when the last push was in period `p`.
    pub open spec fn snapshot(&self, p: int) -> Map<SourceId, Seq<Option<ExternalValue>>> {
        self.snapshot_over(self.rows(), p)
    }

    /// The values a calculation of `slot` at `now` is made from when the sources hold
    /// `rows`, in ascending order of source: the current period's pushes in the calculate
    /// part, the previous period's kept data in the aggregate part.
    pub open spec fn candidates_over(
        &self,
        rows: Map<SourceId, Seq<ExternalValue>>,
        slot: int,
        now: Moment,
    ) -> Seq<ValueType> {
        if self.period_handler.part_at(now) == Part::Calculate {
            present_values(key_order(rows.dom()), pushed_cell(rows, slot))
        } else {
            present_values(key_order(self.prev_period_source@.dom()), self.carried_cell(slot))
        }
    }

    /// The values a calculation of `slot` at `now` is made from.
    pub open spec fn candidates(&self, slot: int, now: Moment) -> Seq<ValueType> {
        self.candidates_over(self.rows(), slot, now)
    }

    /// The value each source pushed for `slot` in the previous period, where it was kept.
    pub open spec fn carried_cell(&self, slot: int) -> spec_fn(SourceId) -> Option<ValueType> {
        |k: SourceId|
            match self.prev_period_source@[k]@[slot] {
                Some(ev) => ev.value,
                None => None,
            }
    }

    /// The outcome of calculating value `id` at `now` when the sources hold `rows`.
    pub open spec fn calculation_over(
        &self,
        rows: Map<SourceId, Seq<ExternalValue>>,
        id: usize,
        now: Moment,
    ) -> Result<ValueType, OracleError> {
        let limit = self.source_limit as nat;
        let last = self.values@[id as int].last_changed;
        if id >= self.slot_count() {
            Err(OracleError::WrongValueId(id))
        } else if self.period_handler.clock_fault(last, now) {
            Err(OracleError::CalculationError)
        } else if !self.period_handler.may_calculate(last, now) {
            Err(OracleError::NotCalculateTime)
        } else if rows.dom().len() < limit {
            Err(OracleError::FewSources(limit as usize, rows.dom().len() as usize))
        } else if self.last_push_period != Some(self.period_handler.period_number(now) as Moment) {
            Err(OracleError::EmptyPushedValueInPeriod)
        } else {
            let c = self.candidates_over(rows, id as int, now);
            if c.len() < limit {
                Err(OracleError::FewPushedValue(limit as usize, c.len() as usize))
            } else {
                match median_spec(c) {
                    Some(m) => Ok(median_amount(m) as ValueType),
                    None => Err(OracleError::CalculationError),
                }
            }
        }
    }

    /// The outcome of calculating value `id` at `now`.
    pub open spec fn calculation(&self, id: usize, now: Moment) -> Result<ValueType, OracleError> {
        self.calculation_over(self.rows(), id, now)
    }

    /// A new oracle with these settings: no sources, no pushed data, every value uncalculated.
    pub open spec fn is_fresh(
        &self,
        name: RawString,
        table: TableId,
        period_handler: PeriodHandler,
        source_limit: u8,
        names: Vec<RawString>,
    ) -> bool {
        &&& self.wf()
        &&& self.name == name
        &&& self.table == table
        &&& self.period_handler == period_handler
        &&& self.source_limit == source_limit
        &&& self.names == names
        &&& self.sources@ == Map::<SourceId, Vec<ExternalValue>>::empty()
        &&& self.values@ == clean_row(names@.len())
        &&& self.last_push_period is None
        &&& self.prev_period_source@ == Map::<SourceId, Vec<Option<ExternalValue>>>::empty()
    }

    /// Whether the oracle keeps its invariant.
    pub fn is_valid(&self) -> (r: bool)
        ensures
            r == self.wf(),
    {
        if !self.period_handler.is_valid() {
            return false;
        }
        let n = self.names.len();
        if self.values.len() != n {
            return false;
        }
        let begin = self.period_handler.begin;
        for i in 0..n
            invariant
                n == self.names@.len(),
                n == self.values@.len(),
                begin == self.period_handler.begin,
                forall|j: int|
                    0 <= j < i ==> (#[trigger] self.values@[j]).wf() && (
                    self.values@[j].last_changed matches Some(t) ==> t >= begin),
        {
            let v = self.values[i];
            if v.value.is_some() != v.last_changed.is_some() {
                assert(!self.values@[i as int].wf());
                return false;
            }
            if let Some(t) = v.last_changed {
                if t < begin {
                    assert(self.values@[i as int].last_changed == Some(t));
                    return false;
                }
            }
        }
        let keys = source_keys(&self.sources);
        for i in 0..keys.len()
            invariant
                n == self.names@.len(),
                is_key_order(keys@, self.sources@.dom()),
                forall|j: int| 0 <= j < i ==> self.sources@[#[trigger] keys@[j]]@.len() == n,
        {
            let k = keys[i];
            assert(keys@.contains(k));
            if self.sources.get(&k).unwrap().len() != n {
                return false;
            }
        }
        let kept_keys = source_keys(&self.prev_period_source);
        for i in 0..kept_keys.len()
            invariant
                n == self.names@.len(),
                is_key_order(kept_keys@, self.prev_period_source@.dom()),
                forall|j: int|
                    0 <= j < i ==> self.prev_period_source@[#[trigger] kept_keys@[j]]@.len() == n,
        {
            let k = kept_keys[i];
            assert(kept_keys@.contains(k));
            if self.prev_period_source.get(&k).unwrap().len() != n {
                return false;
            }
        }
        proof {
            assert forall|k: SourceId| #[trigger]
                self.sources@.contains_key(k) implies self.sources@[k]@.len() == n by {
                assert(keys@.contains(k));
                let j = choose|j: int| 0 <= j < keys@.len() && keys@[j] == k;
                assert(self.sources@[keys@[j]]@.len() == n);
            }
            assert forall|k: SourceId| #[trigger]
                self.prev_period_source@.contains_key(k) implies self.prev_period_source@[k]@.len()
                == n by {
                assert(kept_keys@.contains(k));
                let j = choose|j: int| 0 <= j < kept_keys@.len() && kept_keys@[j] == k;
                assert(self.prev_period_source@[kept_keys@[j]]@.len() == n);
            }
        }
        true
    }

    pub fn get_table(&self) -> (r: &TableId)
        ensures
            *r == self.table,
    {
        &self.table
    }

    pub fn new(
        name: RawString,
        table: TableId,
        period_handler: PeriodHandler,
        source_limit: u8,
        assets_name: Vec<RawString>,
    ) -> (r: Self)
        requires
            period_handler.wf(),
        ensures
            r.is_fresh(name, table, period_handler, source_limit, assets_name),
            forall|i: int| 0 <= i < r.values@.len() ==> (#[trigger] r.values@[i]).is_clean_spec(),
    {
        Oracle {
            name,
            table,
            period_handler,
            source_limit,
            sources: BTreeMap::new(),
            values: clean_values(assets_name.len()),
            names: assets_name,
            last_push_period: None,
            prev_period_source: BTreeMap::new(),
        }
    }

    /// Count of values inside oracle
    pub fn get_values_count(&self) -> (r: usize)
        ensures
            r == self.slot_count(),
    {
        self.names.len()
    }

    pub fn is_sources_empty(&self) -> (r: bool)
        ensures
            r == (self.sources@.dom().len() == 0),
    {
        self.sources.is_empty()
    }

    pub fn is_value_id_correct(&self, value_id: usize) -> (r: Result<(), OracleError>)
        ensures
            r is Ok <==> value_id < self.slot_count(),
            r is Err ==> r == Err::<(), OracleError>(OracleError::WrongValueId(value_id)),
    {
        if value_id < self.get_values_count() {
            Ok(())
        } else {
            Err(OracleError::WrongValueId(value_id))
        }
    }

    /// Is source enough for oracle work
    pub fn is_sources_enough(&self) -> (r: bool)
        ensures
            r == (self.sources@.dom().len() >= self.source_limit),
    {
        self.sources.len() >= self.source_limit as usize
    }

    /// Can we allow the calculation of a specific by id value?
    ///
    /// If now the calculation period and the value has not yet been calculated  - yes.
    /// A moment before the oracle's begin, or a value last changed in a later period than
    /// `now`, is a fault of the clock.
    pub fn is_allow_calculate(&self, value_id: usize, now: Moment) -> (r: Result<bool, OracleError>)
        requires
            self.wf(),
        ensures
            value_id >= self.slot_count() ==> r == Err::<bool, OracleError>(
                OracleError::WrongValueId(value_id),
            ),
            value_id < self.slot_count() ==> {
                let last = self.values@[value_id as int].last_changed;
                if self.period_handler.clock_fault(last, now) {
                    r == Err::<bool, OracleError>(OracleError::CalculationError)
                } else {
                    r == Ok::<bool, OracleError>(self.period_handler.may_calculate(last, now))
                }
            },
    {
        self.is_value_id_correct(value_id)?;
        if now < self.period_handler.begin {
            return Err(OracleError::CalculationError);
        }
        let last = self.values[value_id].last_changed;
        if let Some(t) = last {
            if self.period_handler.get_period(t) > self.period_handler.get_period(now) {
                return Err(OracleError::CalculationError);
            }
        }
        Ok(self.period_handler.is_can_calculate(last, now))
    }

    /// Add a value named `name`: it starts uncalculated, and every source gets a clean
    /// cell for it.
    pub fn add_assets(&mut self, name: RawString)
        requires
            old(self).wf(),
            old(self).names@.len() < usize::MAX,
        ensures
            final(self).wf(),
            final(self).name == old(self).name,
            final(self).table == old(self).table,
            final(self).source_limit == old(self).source_limit,
            final(self).period_handler == old(self).period_handler,
            final(self).last_push_period == old(self).last_push_period,
            final(self).names@ == old(self).names@.push(name),
            final(self).values@ == old(self).values@.push(ExternalValue::empty()),
            final(self).rows() == old(self).rows().map_values(
                |row: Seq<ExternalValue>| row.push(ExternalValue::empty()),
            ),
            final(self).carried() == old(self).carried().map_values(
                |row: Seq<Option<ExternalValue>>| row.push(None),
            ),
    {
        let keys = source_keys(&self.sources);
        let mut grown: BTreeMap<SourceId, Vec<ExternalValue>> = BTreeMap::new();
        for i in 0..keys.len()
            invariant
                is_key_order(keys@, self.sources@.dom()),
                forall|k: SourceId| #[trigger]
                    grown@.contains_key(k) ==> self.sources@.contains_key(k) && grown@[k]@
                        == self.sources@[k]@.push(ExternalValue::empty()),
                forall|j: int| 0 <= j < i ==> #[trigger] grown@.contains_key(keys@[j]),
        {
            let k = keys[i];
            assert(keys@.contains(k));
            let row = self.sources.get(&k).unwrap();
            grown.insert(k, extended(row, ExternalValue::clean_value()));
        }
        let keys = source_keys(&self.prev_period_source);
        let mut grown_prev: BTreeMap<SourceId, Vec<Option<ExternalValue>>> = BTreeMap::new();
        for i in 0..keys.len()
            invariant
                is_key_order(keys@, self.prev_period_source@.dom()),
                forall|k: SourceId| #[trigger]
                    grown_prev@.contains_key(k) ==> self.prev_period_source@.contains_key(k)
                        && grown_prev@[k]@ == self.prev_period_source@[k]@.push(None),
                forall|j: int| 0 <= j < i ==> #[trigger] grown_prev@.contains_key(keys@[j]),
        {
            let k = keys[i];
            assert(keys@.contains(k));
            let row = self.prev_period_source.get(&k).unwrap();
            grown_prev.insert(k, extended(row, None));
        }
        proof {
            assert forall|k: SourceId| #[trigger]
                grown@.contains_key(k) <==> self.sources@.contains_key(k) by {
                if self.sources@.contains_key(k) {
                    let ks = key_order(self.sources@.dom());
                    assert(ks.contains(k));
                }
            }
        }
        let ghost old_rows = self.rows();
        let ghost old_carried = self.carried();
        self.sources = grown;
        self.prev_period_source = grown_prev;
        self.names.push(name);
        self.values.push(ExternalValue::clean_value());
        assert(self.rows() =~= old_rows.map_values(
            |row: Seq<ExternalValue>| row.push(ExternalValue::empty()),
        ));
        assert(self.carried() =~= old_carried.map_values(
            |row: Seq<Option<ExternalValue>>| row.push(None),
        ));
    }

    /// Update sources for oracle
    ///
    /// The sources become exactly those of `sources`: one already present keeps its
    /// pushed data, a new one starts clean. Returns the sources in ascending order if
    /// there are enough of them.
    pub fn update_sources(&mut self, sources: Vec<SourceId>) -> (r: Result<
        Vec<SourceId>,
        OracleError,
    >)
        requires
            old(self).wf(),
        ensures
            final(self).wf(),
            final(self).same_settings(old(self)),
            final(self).period_handler == old(self).period_handler,
            final(self).values == old(self).values,
            final(self).last_push_period == old(self).last_push_period,
            final(self).prev_period_source == old(self).prev_period_source,
            final(self).sources@.dom() == sources@.to_set(),
            final(self).rows() == refreshed_rows(
                old(self).rows(),
                sources@.to_set(),
                old(self).slot_count(),
            ),
            r is Ok <==> final(self).sources@.dom().len() >= old(self).source_limit,
            r matches Ok(ks) ==> ks@ == key_order(final(self).sources@.dom()),
            r is Err ==> r == Err::<Vec<SourceId>, OracleError>(
                OracleError::FewSources(
                    old(self).source_limit as usize,
                    final(self).sources@.dom().len() as usize,
                ),
            ),
    {
        let n = self.get_values_count();
        let ghost old_rows = self.rows();
        let mut fresh: BTreeMap<SourceId, Vec<ExternalValue>> = BTreeMap::new();
        for i in 0..sources.len()
            invariant
                n == self.names@.len(),
                old_rows == old(self).rows(),
                old(self).wf(),
                self.same_settings(old(self)),
                self.period_handler == old(self).period_handler,
                self.values == old(self).values,
                self.last_push_period == old(self).last_push_period,
                self.prev_period_source == old(self).prev_period_source,
                forall|k: SourceId| #[trigger]
                    fresh@.contains_key(k) <==> exists|j: int| 0 <= j < i && sources@[j] == k,
                forall|k: SourceId| #[trigger]
                    fresh@.contains_key(k) ==> fresh@[k]@ == (if old_rows.contains_key(k) {
                        old_rows[k]
                    } else {
                        clean_row(n as nat)
                    }),
                forall|k: SourceId| #[trigger]
                    self.sources@.contains_key(k) ==> old_rows.contains_key(k)
                        && self.sources@[k]@ == old_rows[k],
                forall|k: SourceId| #[trigger]
                    old_rows.contains_key(k) ==> fresh@.contains_key(k)
                        || self.sources@.contains_key(k),
        {
            let account = sources[i];
            if !fresh.contains_key(&account) {
                let row = match self.sources.remove(&account) {
                    Some(row) => row,
                    None => clean_values(n),
                };
                fresh.insert(account, row);
            }
            assert(exists|j: int| 0 <= j < i + 1 && sources@[j] == account);
        }
        self.sources = fresh;
        proof {
            assert forall|k: SourceId| #[trigger]
                self.sources@.contains_key(k) <==> sources@.to_set().contains(k) by {
                if sources@.contains(k) {
                    let j = choose|j: int| 0 <= j < sources@.len() && sources@[j] == k;
                    assert(self.sources@.contains_key(sources@[j]));
                }
            }
            assert(self.sources@.dom() =~= sources@.to_set());
            assert(self.rows() =~= refreshed_rows(old_rows, sources@.to_set(), n as nat));
        }
        if self.is_sources_enough() {
            Ok(source_keys(&self.sources))
        } else {
            Err(OracleError::FewSources(self.source_limit as usize, self.sources.len()))
        }
    }

    /// Store pushed data for previous period for late lazy-calculate: only the slots
    /// whose value was not calculated in `period_for_store` are kept.
    fn store_pushed_data(&mut self, period_for_store: Moment)
        requires
            old(self).wf(),
        ensures
            final(self).wf(),
            final(self).same_settings(old(self)),
            final(self).period_handler == old(self).period_handler,
            final(self).values == old(self).values,
            final(self).last_push_period == old(self).last_push_period,
            final(self).sources == old(self).sources,
            final(self).carried() == old(self).snapshot(period_for_store as int),
    {
        let n = self.values.len();
        let mut flags: Vec<bool> = Vec::new();
        for i in 0..n
            invariant
                n == self.values@.len(),
                self.wf(),
                flags@.len() == i,
                forall|j: int| 0 <= j < i ==> flags@[j] == self.keeps_slot(j, period_for_store as int),
        {
            let keep = match self.values[i].last_changed {
                Some(moment) => self.period_handler.get_period(moment) != period_for_store,
                None => true,
            };
            flags.push(keep);
        }
        let keys = source_keys(&self.sources);
        let ghost snap = self.snapshot(period_for_store as int);
        let mut kept: BTreeMap<SourceId, Vec<Option<ExternalValue>>> = BTreeMap::new();
        for i in 0..keys.len()
            invariant
                self.wf(),
                n == self.names@.len(),
                flags@.len() == n,
                forall|j: int| 0 <= j < n ==> flags@[j] == self.keeps_slot(j, period_for_store as int),
                snap == self.snapshot(period_for_store as int),
                keys@ == key_order(self.sources@.dom()),
                is_key_order(keys@, self.sources@.dom()),
                forall|k: SourceId| #[trigger]
                    kept@.contains_key(k) ==> self.sources@.contains_key(k) && kept@[k]@ == snap[k],
                forall|j: int| 0 <= j < i ==> #[trigger] kept@.contains_key(keys@[j]),
        {
            let k = keys[i];
            assert(keys@.contains(k));
            let row = self.sources.get(&k).unwrap();
            let out = kept_row(row, &flags);
            assert(out@ =~= snap[k]);
            kept.insert(k, out);
        }
        proof {
            assert forall|k: SourceId| #[trigger]
                kept@.contains_key(k) <==> self.sources@.contains_key(k) by {
                if self.sources@.contains_key(k) {
                    assert(keys@.contains(k));
                    let j = choose|j: int| 0 <= j < keys@.len() && keys@[j] == k;
                    assert(kept@.contains_key(keys@[j]));
                }
            }
        }
        self.prev_period_source = kept;
        assert(self.carried() =~= snap);
    }

    /// Clean the data pushed by every source.
    fn clear_pushed_data(&mut self)
        requires
            old(self).wf(),
        ensures
            final(self).wf(),
            final(self).same_settings(old(self)),
            final(self).period_handler == old(self).period_handler,
            final(self).values == old(self).values,
            final(self).last_push_period == old(self).last_push_period,
            final(self).prev_period_source == old(self).prev_period_source,
            final(self).rows() == cleared_rows(old(self).rows(), old(self).slot_count()),
    {
        let n = self.names.len();
        let keys = source_keys(&self.sources);
        let mut cleared: BTreeMap<SourceId, Vec<ExternalValue>> = BTreeMap::new();
        for i in 0..keys.len()
            invariant
                keys@ == key_order(self.sources@.dom()),
                is_key_order(keys@, self.sources@.dom()),
                forall|k: SourceId| #[trigger]
                    cleared@.contains_key(k) ==> self.sources@.contains_key(k) && cleared@[k]@
                        == clean_row(n as nat),
                forall|j: int| 0 <= j < i ==> #[trigger] cleared@.contains_key(keys@[j]),
        {
            let k = keys[i];
            assert(keys@.contains(k));
            cleared.insert(k, clean_values(n));
        }
        proof {
            assert forall|k: SourceId| #[trigger]
                cleared@.contains_key(k) <==> self.sources@.contains_key(k) by {
                if self.sources@.contains_key(k) {
                    assert(keys@.contains(k));
                    let j = choose|j: int| 0 <= j < keys@.len() && keys@[j] == k;
                    assert(cleared@.contains_key(keys@[j]));
                }
            }
        }
        let ghost old_rows = self.rows();
        self.sources = cleared;
        assert(self.rows() =~= cleared_rows(old_rows, n as nat));
    }

    /// Push `new_values`, one for each slot, as the data of `source` at `now`.
    ///
    /// The first push of a new period keeps the data of the last period where it is
    /// still needed for a late calculation, and cleans the data of every source.
    pub fn push_values(&mut self, source: &SourceId, now: Moment, new_values: Vec<ValueType>) -> (r:
        Result<(), OracleError>)
        requires
            old(self).wf(),
        ensures
            now < old(self).period_handler.begin ==> r == Err::<(), OracleError>(
                OracleError::CalculationError,
            ),
            now >= old(self).period_handler.begin && !old(self).sources@.contains_key(*source)
                ==> r == Err::<(), OracleError>(OracleError::SourcePermissionDenied),
            now >= old(self).period_handler.begin && old(self).sources@.contains_key(*source)
                && new_values@.len() != old(self).slot_count() ==> r == Err::<(), OracleError>(
                OracleError::WrongValuesCount(old(self).slot_count() as usize, new_values.len()),
            ),
            r is Ok <==> now >= old(self).period_handler.begin && old(self).sources@.contains_key(
                *source,
            ) && new_values@.len() == old(self).slot_count(),
            r is Err ==> *final(self) == *old(self),
            final(self).wf(),
            final(self).same_settings(old(self)),
            final(self).period_handler == old(self).period_handler,
            final(self).values == old(self).values,
            r is Ok ==> {
                let p = old(self).period_handler.period_number(now);
                let row = observed_row(new_values@, now);
                &&& final(self).last_push_period == Some(p as Moment)
                &&& if old(self).last_push_period matches Some(q) && q != p {
                    &&& final(self).carried() == old(self).snapshot(
                        old(self).last_push_period.unwrap() as int,
                    )
                    &&& final(self).rows() == cleared_rows(
                        old(self).rows(),
                        old(self).slot_count(),
                    ).insert(*source, row)
                } else {
                    &&& final(self).prev_period_source == old(self).prev_period_source
                    &&& final(self).rows() == old(self).rows().insert(*source, row)
                }
            },
    {
        if now < self.period_handler.begin {
            return Err(OracleError::CalculationError);
        }
        if !self.sources.contains_key(source) {
            return Err(OracleError::SourcePermissionDenied);
        }
        let n = self.get_values_count();
        if new_values.len() != n {
            return Err(OracleError::WrongValuesCount(n, new_values.len()));
        }
        let current = self.period_handler.get_period(now);
        let ghost before_rows = self.rows();
        // If this is first push in period - we store and clean previous sources data
        if let Some(previous) = self.last_push_period {
            if previous != current {
                self.store_pushed_data(previous);
                self.clear_pushed_data();
            }
        }
        self.last_push_period = Some(current);
        let ghost mid_rows = self.rows();
        let row = observed_values(&new_values, now);
        self.sources.insert(*source, row);
        assert(self.rows() =~= mid_rows.insert(*source, observed_row(new_values@, now)));
        Ok(())
    }

    /// The values a calculation of `ex_asset_id` at `now` is made from.
    fn get_actual_value_variants(&self, ex_asset_id: usize, now: Moment) -> (r: Result<
        Vec<ValueType>,
        OracleError,
    >)
        requires
            self.wf(),
            now >= self.period_handler.begin,
        ensures
            ex_asset_id >= self.slot_count() ==> r == Err::<Vec<ValueType>, OracleError>(
                OracleError::WrongValueId(ex_asset_id),
            ),
            ex_asset_id < self.slot_count() ==> (r matches Ok(c) && c@ == self.candidates(
                ex_asset_id as int,
                now,
            )),
    {
        self.is_value_id_correct(ex_asset_id)?;
        let slot = ex_asset_id;
        let mut r: Vec<ValueType> = Vec::new();
        if self.period_handler.get_part(now) == Part::Calculate {
            // Calculate with current period data
            let keys = source_keys(&self.sources);
            let ghost cell = pushed_cell(self.rows(), slot as int);
            assert(self.rows().dom() =~= self.sources@.dom());
            for i in 0..keys.len()
                invariant
                    self.wf(),
                    slot < self.slot_count(),
                    cell == pushed_cell(self.rows(), slot as int),
                    is_key_order(keys@, self.sources@.dom()),
                    r@ == present_values(keys@.take(i as int), cell),
            {
                let k = keys[i];
                assert(keys@.contains(k));
                let row = self.sources.get(&k).unwrap();
                if let Some(value) = row[slot].value {
                    r.push(value);
                }
                assert(keys@.take(i + 1).drop_last() =~= keys@.take(i as int));
            }
            assert(keys@.take(keys@.len() as int) =~= keys@);
        } else {
            // Calculate with previous period data
            let keys = source_keys(&self.prev_period_source);
            let ghost cell = self.carried_cell(slot as int);
            for i in 0..keys.len()
                invariant
                    self.wf(),
                    slot < self.slot_count(),
                    cell == self.carried_cell(slot as int),
                    is_key_order(keys@, self.prev_period_source@.dom()),
                    r@ == present_values(keys@.take(i as int), cell),
            {
                let k = keys[i];
                assert(keys@.contains(k));
                let row = self.prev_period_source.get(&k).unwrap();
                if let Some(ex) = row[slot] {
                    if let Some(value) = ex.value {
                        r.push(value);
                    }
                }
                assert(keys@.take(i + 1).drop_last() =~= keys@.take(i as int));
            }
            assert(keys@.take(keys@.len() as int) =~= keys@);
        }
        Ok(r)
    }

    /// Calculate value `value_id` at `now` as the median of the data pushed for it,
    /// and publish it.
    ///
    /// If no source pushed in the period of `now`, the data of every source is cleaned.
    pub fn calculate_value(&mut self, value_id: usize, now: Moment) -> (r: Result<
        ValueType,
        OracleError,
    >)
        requires
            old(self).wf(),
        ensures
            r == old(self).calculation(value_id, now),
            final(self).wf(),
            final(self).same_settings(old(self)),
            final(self).period_handler == old(self).period_handler,
            final(self).last_push_period == old(self).last_push_period,
            final(self).prev_period_source == old(self).prev_period_source,
            r matches Ok(v) ==> final(self).values@ == old(self).values@.update(
                value_id as int,
                ExternalValue::at(v, now),
            ),
            r is Err ==> final(self).values == old(self).values,
            r != Err::<ValueType, OracleError>(OracleError::EmptyPushedValueInPeriod)
                ==> final(self).sources == old(self).sources,
            r == Err::<ValueType, OracleError>(OracleError::EmptyPushedValueInPeriod)
                ==> final(self).rows() == cleared_rows(old(self).rows(), old(self).slot_count()),
    {
        if !self.is_allow_calculate(value_id, now)? {
            return Err(OracleError::NotCalculateTime);
        }
        assert(self.rows().dom() =~= self.sources@.dom());
        if !self.is_sources_enough() {
            return Err(OracleError::FewSources(self.source_limit as usize, self.sources.len()));
        }
        // If in current period nobody pushed (clean) values
        let current = self.period_handler.get_period(now);
        let pushed_now = match self.last_push_period {
            Some(period) => period == current,
            None => false,
        };
        if !pushed_now {
            self.clear_pushed_data();
            return Err(OracleError::EmptyPushedValueInPeriod);
        }
        let values = self.get_actual_value_variants(value_id, now)?;
        let count = values.len();
        if self.source_limit as usize > count {
            return Err(OracleError::FewPushedValue(self.source_limit as usize, count));
        }
        let result = match get_median(values) {
            Some(Median::Value(value)) => value,
            Some(Median::Pair(left, right)) => mean_of_pair(left, right),
            None => {
                return Err(OracleError::CalculationError);
            },
        };
        self.values.set(value_id, ExternalValue::new(result, now));
        Ok(result)
    }

    /// The calculated value `ex_asset_id` with the moment it was calculated.
    pub fn pull_value(&mut self, ex_asset_id: usize) -> (r: Result<(ValueType, Moment), OracleError>)
        requires
            old(self).wf(),
        ensures
            *final(self) == *old(self),
            ex_asset_id >= old(self).slot_count() ==> r == Err::<(ValueType, Moment), OracleError>(
                OracleError::WrongValueId(ex_asset_id),
            ),
            ex_asset_id < old(self).slot_count() ==> r == (match (
                old(self).values@[ex_asset_id as int].value,
                old(self).values@[ex_asset_id as int].last_changed,
            ) {
                (Some(v), Some(t)) => Ok((v, t)),
                _ => Err(OracleError::UncalculatedValue(ex_asset_id)),
            }),
    {
        self.is_value_id_correct(ex_asset_id)?;
        if let (Some(value), Some(moment)) = (
            self.values[ex_asset_id].value,
            self.values[ex_asset_id].last_changed,
        ) {
            Ok((value, moment))
        } else {
            Err(OracleError::UncalculatedValue(ex_asset_id))
        }
    }
}

/// Updating the sources twice with the same roster leaves the same data as updating
/// once: the second update loses no pushed data.
pub proof fn lemma_update_sources_idempotent(
    rows: Map<SourceId, Seq<ExternalValue>>,
    roster: Set<SourceId>,
    n: nat,
)
    ensures
        refreshed_rows(refreshed_rows(rows, roster, n), roster, n) == refreshed_rows(
            rows,
            roster,
            n,
        ),
{
    assert(refreshed_rows(refreshed_rows(rows, roster, n), roster, n) =~= refreshed_rows(
        rows,
        roster,
        n,
    ));
}

/// A copy of `row` with `extra` appended.
fn extended<T: Copy>(row: &Vec<T>, extra: T) -> (r: Vec<T>)
    ensures
        r@ == row@.push(extra),
{
    let mut r: Vec<T> = Vec::new();
    for i in 0..row.len()
        invariant
            r@ == row@.take(i as int),
    {
        r.push(row[i]);
        assert(r@ =~= row@.take(i + 1));
    }
    r.push(extra);
    assert(r@ =~= row@.push(extra));
    r
}

/// The cells of `row` where `flags` is set, absent elsewhere.
fn kept_row(row: &Vec<ExternalValue>, flags: &Vec<bool>) -> (r: Vec<Option<ExternalValue>>)
    requires
        row@.len() == flags@.len(),
    ensures
        r@ == Seq::new(
            flags@.len(),
            |i: int|
                if flags@[i] {
                    Some(row@[i])
                } else {
                    None
                },
        ),
{
    let mut r: Vec<Option<ExternalValue>> = Vec::new();
    for i in 0..flags.len()
        invariant
            row@.len() == flags@.len(),
            r@.len() == i,
            forall|j: int|
                0 <= j < i ==> r@[j] == if flags@[j] {
                    Some(row@[j])
                } else {
                    None
                },
    {
        if flags[i] {
            r.push(Some(row[i]));
        } else {
            r.push(None);
        }
    }
    assert(r@ =~= Seq::new(
        flags@.len(),
        |i: int|
            if flags@[i] {
                Some(row@[i])
            } else {
                None
            },
    ));
    r
}

/// Each of `values` as changed at `now`.
fn observed_values(values: &Vec<ValueType>, now: Moment) -> (r: Vec<ExternalValue>)
    ensures
        r@ == observed_row(values@, now),
{
    let mut r: Vec<ExternalValue> = Vec::new();
    for i in 0..values.len()
        invariant
            r@.len() == i,
            forall|j: int| 0 <= j < i ==> r@[j] == ExternalValue::at(values@[j], now),
    {
        r.push(ExternalValue::new(values[i], now));
    }
    assert(r@ =~= observed_row(values@, now));
    r
}

/// `n` clean values.
fn clean_values(n: usize) -> (r: Vec<ExternalValue>)
    ensures
        r@ == clean_row(n as nat),
{
    let mut r: Vec<ExternalValue> = Vec::new();
    for i in 0..n
        invariant
            r@ == clean_row(i as nat),
    {
        r.push(ExternalValue::clean_value());
        assert(r@ =~= clean_row((i + 1) as nat));
    }
    r
}

} // verus!
