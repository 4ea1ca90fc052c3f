//! The discrete profile of available power.
use vstd::prelude::*;
use crate::time::{Milliseconds, Timestamp};

verus! {

/// What a profile holds: the power available in each timeslot, the width of
/// a timeslot in milliseconds and the instant at which the first one begins.
pub struct ProfileView {
    pub values: Seq<i64>,
    pub delta: int,
    pub start: int,
}

impl ProfileView {
    /// The instant just past the last timeslot.
    pub open spec fn end(self) -> int {
        self.start + self.values.len() * self.delta
    }

    /// The same geometry with other values.
    pub open spec fn with_values(self, values: Seq<i64>) -> ProfileView {
        ProfileView { values, ..self }
    }
}

/// A series of power values over consecutive timeslots of equal width.
///
/// The slot `i` covers `[start + i * delta, start + (i + 1) * delta)`; the
/// profile ends, exclusively, after its last slot. Values may be negative:
/// that marks consumption beyond what is available.
pub struct DiscreteGraph {
    values: Vec<i64>,
    time_delta: Milliseconds,
    start_time: Timestamp,
}

impl View for DiscreteGraph {
    type V = ProfileView;

    closed spec fn view(&self) -> ProfileView {
        ProfileView {
            values: self.values@,
            delta: self.time_delta.0 as int,
            start: self.start_time.0 as int,
        }
    }
}

impl Clone for DiscreteGraph {
    /// An independent copy of the values and the geometry.
    fn clone(&self) -> (r: Self)
        ensures
            r@ == self@,
    {
        DiscreteGraph {
            values: self.values.clone(),
            time_delta: self.time_delta,
            start_time: self.start_time,
        }
    }
}

impl DiscreteGraph {
    pub fn new(values: Vec<i64>, time_delta: Milliseconds, start_time: Timestamp) -> (r:
        DiscreteGraph)
        ensures
            r@ == (ProfileView {
                values: values@,
                delta: time_delta.0 as int,
                start: start_time.0 as int,
            }),
    {
        DiscreteGraph { values, time_delta, start_time }
    }

    pub fn get_values(&self) -> (r: &Vec<i64>)
        ensures
            r@ == self@.values,
    {
        &self.values
    }

    /// The values, for the caller to change; the geometry stays.
    pub fn get_values_mut(&mut self) -> (r: &mut Vec<i64>)
        ensures
            r@ == old(self)@.values,
            final(self)@ == old(self)@.with_values(final(r)@),
    {
        &mut self.values
    }

    pub fn get_time_delta(&self) -> (r: Milliseconds)
        ensures
            r.0 == self@.delta,
    {
        self.time_delta
    }

    pub fn get_start_time(&self) -> (r: Timestamp)
        ensures
            r.0 == self@.start,
    {
        self.start_time
    }

    /// The instant just past the last timeslot, where it can be told.
    pub fn get_end_time(&self) -> (r: Option<Timestamp>)
        ensures
            r matches Some(t) <==> i64::MIN <= self@.end() <= i64::MAX,
            r matches Some(t) ==> t.0 == self@.end(),
    {
        let len = self.values.len() as i128;
        let delta = self.time_delta.0 as i128;
        proof {
            let l = len as int;
            let d = delta as int;
            assert(0 <= l < 0x1_0000_0000_0000_0000);
            assert(-0x8000_0000_0000_0000 <= d < 0x8000_0000_0000_0000);
            assert(-0x7fff_ffff_ffff_ffff_8000_0000_0000_0000 <= l * d
                <= 0x7fff_ffff_ffff_ffff_8000_0000_0000_0000) by (nonlinear_arith)
                requires
                    0 <= l < 0x1_0000_0000_0000_0000,
                    -0x8000_0000_0000_0000 <= d < 0x8000_0000_0000_0000,
            ;
        }
        let span = len * delta;
        let end = self.start_time.0 as i128 + span;
        if end < i64::MIN as i128 || end > i64::MAX as i128 {
            None
        } else {
            Some(Timestamp(end as i64))
        }
    }

    /// Takes `amount` from the slot `index`.
    pub fn sub_value(&mut self, index: usize, amount: i64)
        requires
            index < old(self)@.values.len(),
            i64::MIN <= old(self)@.values[index as int] - amount <= i64::MAX,
        ensures
            final(self)@ == old(self)@.with_values(
                old(self)@.values.update(index as int, (old(self)@.values[index as int] - amount) as i64),
            ),
    {
        let v = self.values[index] - amount;
        self.values.set(index, v);
    }
}

} // verus!

verus! {

/// `values` after `amount` was taken from the `count` slots from `index` on.
pub open spec fn drained(values: Seq<i64>, index: int, count: int, amount: int) -> Seq<i64> {
    Seq::new(
        values.len(),
        |i: int|
            if index <= i < index + count {
                (values[i] - amount) as i64
            } else {
                values[i]
            },
    )
}

/// Taking `amount` from the `count` slots from `index` on stays in range.
pub open spec fn can_drain(values: Seq<i64>, index: int, count: int, amount: int) -> bool {
    forall|i: int|
        index <= i < index + count ==> i64::MIN <= #[trigger] values[i] - amount <= i64::MAX
}

impl DiscreteGraph {
    /// Takes `amount` from each of the `count` slots from `index` on.
    pub fn sub_values(&mut self, index: usize, amount: i64, count: usize)
        requires
            index + count <= old(self)@.values.len(),
            can_drain(old(self)@.values, index as int, count as int, amount as int),
        ensures
            final(self)@ == old(self)@.with_values(
                drained(old(self)@.values, index as int, count as int, amount as int),
            ),
    {
        let ghost v0 = self@.values;
        let len = self.values.len();
        let mut n: usize = 0;
        while n < count
            invariant
                n <= count,
                index + count <= v0.len(),
                len == v0.len(),
                self@.values.len() == v0.len(),
                can_drain(v0, index as int, count as int, amount as int),
                self@ == old(self)@.with_values(self@.values),
                self@.values =~= drained(v0, index as int, n as int, amount as int),
            decreases count - n,
        {
            let i = index + n;
            assert(self@.values[i as int] == v0[i as int]);
            self.sub_value(i, amount);
            n = n + 1;
            assert(self@.values =~= drained(v0, index as int, n as int, amount as int));
        }
    }

    /// Whether `sub_values(index, amount, count)` stays in range.
    pub fn can_sub_values(&self, index: usize, amount: i64, count: usize) -> (r: bool)
        requires
            index + count <= self@.values.len(),
        ensures
            r == can_drain(self@.values, index as int, count as int, amount as int),
    {
        let len = self.values.len();
        let mut n: usize = 0;
        while n < count
            invariant
                n <= count,
                len == self@.values.len(),
                index + count <= self@.values.len(),
                can_drain(self@.values, index as int, n as int, amount as int),
            decreases count - n,
        {
            if self.values[index + n].checked_sub(amount).is_none() {
                assert(!(i64::MIN <= self@.values[index + n] - amount <= i64::MAX));
                return false;
            }
            n = n + 1;
        }
        true
    }
}

} // verus!
