//! The numbers that requests are told apart by: the date in the high half, and the
//! day's running number in the low half.
use vstd::prelude::*;

use crate::clock::{current_date_val, date_number};

verus! {

/// The last request number that was given out.
pub struct RequestIds {
    state: u64,
}

/// The day `date` has a number left after `state`: each has 4,294,967,295 of them.
pub open spec fn numbers_last(state: u64, date: u64) -> bool {
    state >> 32 == date ==> state & 0xffff_ffff < 0xffff_ffff
}

/// The number that follows `state` on the day `date`: a new day starts again at one.
pub open spec fn next_request_id(state: u64, date: u64) -> u64 {
    let seq: u64 = if state >> 32 != date {
        1
    } else {
        ((state & 0xffff_ffff) + 1) as u64
    };
    (date << 32) | seq
}

impl RequestIds {
    pub closed spec fn last(self) -> u64 {
        self.state
    }

    /// Starts from a date: the first number of any day is still to be given out.
    pub fn new(current_date_val: u64) -> (ids: Self)
        ensures
            ids.last() == current_date_val,
    {
        RequestIds { state: current_date_val }
    }

    /// The next number on the day `current_date_val`.
    pub fn next_on(&mut self, current_date_val: u64) -> (id: u64)
        ensures
            id == next_request_id(old(self).last(), current_date_val),
            final(self).last() == id,
    {
        let old_date: u64 = self.state >> 32;
        let old_seq: u64 = self.state & 0xffff_ffff;
        let state = self.state;
        assert(state & 0xffff_ffff <= 0xffff_ffff) by (bit_vector);
        let seq: u64 = if old_date != current_date_val {
            1
        } else {
            old_seq + 1
        };
        self.state = (current_date_val << 32) | seq;
        self.state
    }

    /// The next number today.
    pub fn generate_next_request_id(&mut self) -> (id: u64)
        ensures
            exists|year: int, month: int, day: int|
                {
                    &&& 1969 <= year <= 262143
                    &&& 1 <= month <= 12
                    &&& 1 <= day <= 31
                    &&& #[trigger] date_number(year, month, day) < 0x1_0000_0000
                    &&& id == next_request_id(
                        old(self).last(),
                        date_number(year, month, day) as u64,
                    )
                },
            final(self).last() == id,
    {
        let date: u64 = current_date_val();
        self.next_on(date)
    }
}

/// While a day's numbers last, the next number names its day in the high half, and its
/// low half counts on from the last number of that day, or is one.
pub proof fn law_request_id_halves(state: u64, date: u64)
    requires
        date < 0x1_0000_0000,
        numbers_last(state, date),
    ensures
        next_request_id(state, date) >> 32 == date,
        next_request_id(state, date) & 0xffff_ffff == if state >> 32 == date {
            (state & 0xffff_ffff) + 1
        } else {
            1
        },
{
    assert(state & 0xffff_ffff <= 0xffff_ffff) by (bit_vector);
    let seq: u64 = if state >> 32 != date {
        1
    } else {
        ((state & 0xffff_ffff) + 1) as u64
    };
    assert(((date << 32) | seq) >> 32 == date && ((date << 32) | seq) & 0xffff_ffff == seq)
        by (bit_vector)
        requires
            date < 0x1_0000_0000,
            seq < 0x1_0000_0000,
    ;
}

/// While a day's numbers last, and no day comes back, each number is larger than the
/// one before: no number is given out twice.
pub proof fn law_request_ids_grow(state: u64, date: u64)
    requires
        date < 0x1_0000_0000,
        state >> 32 <= date,
        numbers_last(state, date),
    ensures
        next_request_id(state, date) > state,
{
    assert(state & 0xffff_ffff <= 0xffff_ffff) by (bit_vector);
    let seq: u64 = if state >> 32 != date {
        1
    } else {
        ((state & 0xffff_ffff) + 1) as u64
    };
    assert(((date << 32) | seq) > state) by (bit_vector)
        requires
            date < 0x1_0000_0000,
            1 <= seq < 0x1_0000_0000,
            state >> 32 <= date,
            state >> 32 == date ==> seq > state & 0xffff_ffff,
    ;
}

} // verus!
