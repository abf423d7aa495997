use std::cmp::Ordering;
use vstd::prelude::*;
use vstd::relations::{sorted_by, total_ordering};

verus! {

/// Instant on the host's monotonic clock.
pub type Moment = u64;

/// Observed or published amount.
pub type ValueType = u128;

/// The middle of an ordered collection: one element, or the two middle elements.
#[derive(PartialEq, Eq, Debug)]
pub enum Median<T> {
    Value(T),
    Pair(T, T),
}

/// Ascending order on values.
pub open spec fn value_leq() -> spec_fn(ValueType, ValueType) -> bool {
    |a: ValueType, b: ValueType| a <= b
}

/// The values of `s` in ascending order.
pub open spec fn ascending(s: Seq<ValueType>) -> Seq<ValueType> {
    s.sort_by(value_leq())
}

/// The median of an already ordered sequence; undefined (None) below two elements.
pub open spec fn median_of_sorted(s: Seq<ValueType>) -> Option<Median<ValueType>> {
    if s.len() <= 1 {
        None
    } else if s.len() % 2 == 0 {
        Some(Median::Pair(s[s.len() / 2 - 1], s[(s.len() / 2) as int]))
    } else {
        Some(Median::Value(s[(s.len() / 2) as int]))
    }
}

/// The median of a collection of values, whatever their order.
pub open spec fn median_spec(s: Seq<ValueType>) -> Option<Median<ValueType>> {
    median_of_sorted(ascending(s))
}

/// The single value a median stands for: the middle one, or the floor of the mean of the pair.
pub open spec fn median_amount(m: Median<ValueType>) -> int {
    match m {
        Median::Value(v) => v as int,
        Median::Pair(a, b) => (a as int + b as int) / 2,
    }
}

/// Relies on `slice::sort_unstable`: the values come back in ascending order,
/// as a rearrangement of the input.
#[verifier::external_body]
fn sort_values(values: &mut Vec<ValueType>)
    ensures
        final(values)@.to_multiset() == old(values)@.to_multiset(),
        sorted_by(final(values)@, value_leq()),
{
    values.sort_unstable();
}

proof fn lemma_value_leq_total()
    ensures
        total_ordering(value_leq()),
{
}

/// Any ascending rearrangement of `s` is the ascending order of `s`.
proof fn lemma_ascending_unique(s: Seq<ValueType>, t: Seq<ValueType>)
    requires
        sorted_by(t, value_leq()),
        t.to_multiset() == s.to_multiset(),
    ensures
        t == ascending(s),
{
    lemma_value_leq_total();
    s.lemma_sort_by_ensures(value_leq());
    vstd::seq_lib::lemma_sorted_unique(t, ascending(s), value_leq());
}

/// The median depends on the values alone, not on their order: two collections with
/// the same elements, counted with multiplicity, have the same median.
pub proof fn lemma_median_of_multiset(s: Seq<ValueType>, t: Seq<ValueType>)
    requires
        s.to_multiset() == t.to_multiset(),
    ensures
        median_spec(s) == median_spec(t),
{
    lemma_value_leq_total();
    s.lemma_sort_by_ensures(value_leq());
    lemma_ascending_unique(t, ascending(s));
}

/// The median of `values`: `None` for fewer than two values, the pair of middle
/// elements of the ascending order for an even count, the middle element otherwise.
pub fn get_median(values: Vec<ValueType>) -> (r: Option<Median<ValueType>>)
    ensures
        r == median_spec(values@),
{
    let mut values = values;
    let ghost unsorted = values@;
    sort_values(&mut values);
    proof {
        lemma_ascending_unique(unsorted, values@);
    }
    let middle = values.len() / 2;
    if values.len() <= 1 {
        None
    } else if values.len() % 2 == 0 {
        Some(Median::Pair(values[middle - 1], values[middle]))
    } else {
        Some(Median::Value(values[middle]))
    }
}

/// Floor of the mean of two values, computed without overflow.
pub fn mean_of_pair(a: ValueType, b: ValueType) -> (r: ValueType)
    ensures
        r == (a as int + b as int) / 2,
{
    a / 2 + b / 2 + (a % 2 + b % 2) / 2
}

/// A value published on the host's timeline, with the moment it last changed.
/// Both parts are present together, or both absent ("clean").
#[derive(Clone, Copy, PartialEq, Eq, Ord, Default, Debug)]
pub struct ExternalValue {
    pub value: Option<ValueType>,
    /// Moment we last changed the value; None if the value is empty
    pub last_changed: Option<Moment>,
}

/// Order of optional parts: an absent part comes before a present one, present ones
/// are ordered by their numbers.
pub open spec fn part_order(a: Option<int>, b: Option<int>) -> Ordering {
    match (a, b) {
        (None, None) => Ordering::Equal,
        (None, Some(_)) => Ordering::Less,
        (Some(_), None) => Ordering::Greater,
        (Some(x), Some(y)) => if x < y {
            Ordering::Less
        } else if x == y {
            Ordering::Equal
        } else {
            Ordering::Greater
        },
    }
}

pub open spec fn value_part(v: ExternalValue) -> Option<int> {
    match v.value {
        Some(x) => Some(x as int),
        None => None,
    }
}

pub open spec fn moment_part(v: ExternalValue) -> Option<int> {
    match v.last_changed {
        Some(t) => Some(t as int),
        None => None,
    }
}

/// External values are ordered by their value first, then by the moment they changed.
pub open spec fn external_value_order(a: ExternalValue, b: ExternalValue) -> Ordering {
    match part_order(value_part(a), value_part(b)) {
        Ordering::Equal => part_order(moment_part(a), moment_part(b)),
        ord => ord,
    }
}

fn compare_values(a: Option<ValueType>, b: Option<ValueType>) -> (r: Ordering)
    ensures
        r == part_order(
            match a {
                Some(x) => Some(x as int),
                None => None,
            },
            match b {
                Some(x) => Some(x as int),
                None => None,
            },
        ),
{
    match (a, b) {
        (None, None) => Ordering::Equal,
        (None, Some(_)) => Ordering::Less,
        (Some(_), None) => Ordering::Greater,
        (Some(x), Some(y)) => if x < y {
            Ordering::Less
        } else if x == y {
            Ordering::Equal
        } else {
            Ordering::Greater
        },
    }
}

fn compare_moments(a: Option<Moment>, b: Option<Moment>) -> (r: Ordering)
    ensures
        r == part_order(
            match a {
                Some(x) => Some(x as int),
                None => None,
            },
            match b {
                Some(x) => Some(x as int),
                None => None,
            },
        ),
{
    match (a, b) {
        (None, None) => Ordering::Equal,
        (None, Some(_)) => Ordering::Less,
        (Some(_), None) => Ordering::Greater,
        (Some(x), Some(y)) => if x < y {
            Ordering::Less
        } else if x == y {
            Ordering::Equal
        } else {
            Ordering::Greater
        },
    }
}

impl PartialOrd for ExternalValue {
    fn partial_cmp(&self, other: &Self) -> (r: Option<Ordering>) {
        Some(
            match compare_values(self.value, other.value) {
                Ordering::Equal => compare_moments(self.last_changed, other.last_changed),
                ord => ord,
            },
        )
    }
}

impl vstd::std_specs::cmp::PartialOrdSpecImpl for ExternalValue {
    open spec fn obeys_partial_cmp_spec() -> bool {
        true
    }

    open spec fn partial_cmp_spec(&self, other: &Self) -> Option<Ordering> {
        Some(external_value_order(*self, *other))
    }
}

impl ExternalValue {
    /// Both parts present together, or both absent.
    pub open spec fn wf(&self) -> bool {
        self.value.is_some() == self.last_changed.is_some()
    }

    pub open spec fn is_clean_spec(&self) -> bool {
        self.value.is_none() && self.last_changed.is_none()
    }

    /// The clean value.
    pub open spec fn empty() -> ExternalValue {
        ExternalValue { value: None, last_changed: None }
    }

    /// The value `value` changed at `now`.
    pub open spec fn at(value: ValueType, now: Moment) -> ExternalValue {
        ExternalValue { value: Some(value), last_changed: Some(now) }
    }

    pub fn new(value: ValueType, now: Moment) -> (r: Self)
        ensures
            r == ExternalValue::at(value, now),
    {
        ExternalValue { value: Some(value), last_changed: Some(now) }
    }

    /// A value with both parts absent.
    pub fn clean_value() -> (r: Self)
        ensures
            r == ExternalValue::empty(),
    {
        ExternalValue { value: None, last_changed: None }
    }

    pub fn clean(&mut self)
        ensures
            *final(self) == ExternalValue::empty(),
    {
        self.value = None;
        self.last_changed = None;
    }

    pub fn update(&mut self, value: ValueType, now: Moment)
        ensures
            *final(self) == ExternalValue::at(value, now),
    {
        self.value = Some(value);
        self.last_changed = Some(now);
    }

    pub fn is_clean(&self) -> (r: bool)
        ensures
            r == self.is_clean_spec(),
    {
        self.last_changed.is_none() && self.value.is_none()
    }

    /// Both parts as a pair, if both are present.
    pub fn get(&self) -> (r: Option<(ValueType, Moment)>)
        ensures
            r == (match (self.value, self.last_changed) {
                (Some(v), Some(t)) => Some((v, t)),
                _ => None::<(ValueType, Moment)>,
            }),
    {
        match (self.value, self.last_changed) {
            (Some(value), Some(last_changed)) => Some((value, last_changed)),
            _ => None,
        }
    }
}

} // verus!
