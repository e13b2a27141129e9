//! A bounded hand-off between the decoder and a sink.
//!
//! A slow sink must never hold up the reader: bytes that are not taken from
//! the serial buffer in time are lost, and with them the frame boundaries.
//! So the hand-off never blocks. When it is full, the oldest pending record
//! gives way to the new one, and the loss is counted.

use std::collections::VecDeque;
use vstd::prelude::*;
use crate::models::{Record, RecordView};

verus! {

/// The models of a sequence of records.
pub open spec fn record_views(s: Seq<Record>) -> Seq<RecordView> {
    Seq::new(s.len(), |i: int| s[i]@)
}

/// The mathematical model of a [`HandOff`].
pub struct HandOffView {
    /// How many records the hand-off holds at most.
    pub capacity: nat,
    /// The records that wait for the sink, oldest first.
    pub pending: Seq<RecordView>,
    /// How many records were dropped so far. The count stops at the largest
    /// number that it can hold.
    pub dropped: u64,
}

/// The model of an optional record.
pub open spec fn record_view(r: Option<Record>) -> Option<RecordView> {
    match r {
        Some(record) => Some(record@),
        None => None,
    }
}

/// `n + 1`, or `n` where the count is full.
pub open spec fn one_more(n: u64) -> u64 {
    if n < u64::MAX {
        (n + 1) as u64
    } else {
        n
    }
}

impl HandOffView {
    /// Whether the hand-off holds no more than its capacity. This holds of a
    /// new hand-off, and every operation keeps it.
    pub open spec fn wf(self) -> bool {
        self.pending.len() <= self.capacity
    }

    /// The hand-off after `record` was offered. It holds `record` as its
    /// newest, at the cost of its oldest if it was full. A hand-off of
    /// capacity zero stays empty.
    pub open spec fn offered(self, record: RecordView) -> HandOffView {
        if self.capacity == 0 {
            HandOffView { dropped: one_more(self.dropped), ..self }
        } else if self.pending.len() < self.capacity {
            HandOffView { pending: self.pending.push(record), ..self }
        } else {
            HandOffView {
                pending: self.pending.drop_first().push(record),
                dropped: one_more(self.dropped),
                ..self
            }
        }
    }

    /// The record that is dropped when `record` is offered: none while there
    /// is room, the oldest pending record if the hand-off is full, and
    /// `record` itself if the capacity is zero.
    pub open spec fn displaced(self, record: RecordView) -> Option<RecordView> {
        if self.capacity == 0 {
            Some(record)
        } else if self.pending.len() < self.capacity {
            None
        } else {
            Some(self.pending.first())
        }
    }
}

/// A queue of records that wait for the sink, bounded in length.
#[derive(Debug)]
pub struct HandOff {
    capacity: usize,
    pending: VecDeque<Record>,
    dropped: u64,
}

impl View for HandOff {
    type V = HandOffView;

    closed spec fn view(&self) -> HandOffView {
        HandOffView {
            capacity: self.capacity as nat,
            pending: record_views(self.pending@),
            dropped: self.dropped,
        }
    }
}

impl HandOff {
    /// An empty hand-off that holds at most `capacity` records.
    pub fn new(capacity: usize) -> (h: HandOff)
        ensures
            h@ == (HandOffView { capacity: capacity as nat, pending: Seq::empty(), dropped: 0 }),
            h@.wf(),
    {
        let h = HandOff { capacity, pending: VecDeque::new(), dropped: 0 };
        assert(h@.pending =~= Seq::empty());
        h
    }

    /// How many records wait for the sink.
    pub fn len(&self) -> (n: usize)
        ensures
            n == self@.pending.len(),
    {
        self.pending.len()
    }

    /// How many records were dropped so far.
    pub fn dropped(&self) -> (n: u64)
        ensures
            n == self@.dropped,
    {
        self.dropped
    }

    /// Hands a record over.
    ///
    /// If the hand-off is full, the oldest pending record is dropped to make
    /// room. The loss is counted, and the dropped record is returned for the
    /// caller to report. A hand-off of capacity zero holds nothing: it drops
    /// the record itself.
    pub fn offer(&mut self, record: Record) -> (dropped: Option<Record>)
        ensures
            final(self)@ == old(self)@.offered(record@),
            old(self)@.wf() ==> final(self)@.wf(),
            record_view(dropped) == old(self)@.displaced(record@),
    {
        let ghost before = self@.pending;
        let ghost added = record@;
        if self.capacity == 0 {
            self.count_one();
            Some(record)
        } else if self.pending.len() < self.capacity {
            self.pending.push_back(record);
            assert(self@.pending =~= before.push(added));
            None
        } else {
            let oldest = self.pending.pop_front();
            self.pending.push_back(record);
            self.count_one();
            assert(self@.pending =~= before.drop_first().push(added));
            oldest
        }
    }

    /// Counts one more dropped record.
    fn count_one(&mut self)
        ensures
            final(self).capacity == old(self).capacity,
            final(self).pending == old(self).pending,
            final(self).dropped == one_more(old(self).dropped),
    {
        if self.dropped < u64::MAX {
            self.dropped = self.dropped + 1;
        }
    }

    /// Takes the oldest pending record, if there is one.
    pub fn take(&mut self) -> (r: Option<Record>)
        ensures
            final(self)@.capacity == old(self)@.capacity,
            final(self)@.dropped == old(self)@.dropped,
            old(self)@.pending.len() == 0 ==> r is None && final(self)@ == old(self)@,
            old(self)@.pending.len() > 0 ==> record_view(r) == Some(old(self)@.pending.first())
                && final(self)@.pending == old(self)@.pending.drop_first(),
    {
        let ghost before = self@.pending;
        let r = self.pending.pop_front();
        assert(r is Some ==> self@.pending =~= before.drop_first());
        assert(r is None ==> self@.pending =~= before);
        r
    }

    /// Takes every pending record, oldest first. To be called on shutdown,
    /// so that what was decoded is still delivered.
    pub fn drain(&mut self) -> (records: Vec<Record>)
        ensures
            final(self)@.capacity == old(self)@.capacity,
            final(self)@.dropped == old(self)@.dropped,
            final(self)@.pending == Seq::<RecordView>::empty(),
            record_views(records@) == old(self)@.pending,
    {
        let ghost all = self@.pending;
        let mut records: Vec<Record> = Vec::new();
        assert(record_views(records@) + self@.pending =~= all);
        while self.pending.len() > 0
            invariant
                self.capacity == old(self).capacity,
                self.dropped == old(self).dropped,
                record_views(records@) + record_views(self.pending@) == all,
            decreases self.pending@.len(),
        {
            let ghost taken = record_views(records@);
            let ghost left = record_views(self.pending@);
            match self.pending.pop_front() {
                Some(record) => {
                    records.push(record);
                    assert(record_views(records@) =~= taken.push(left.first()));
                    assert(record_views(self.pending@) =~= left.drop_first());
                    assert(taken.push(left.first()) + left.drop_first() =~= taken + left);
                },
                None => {},
            }
        }
        assert(record_views(self.pending@) =~= Seq::empty());
        assert(record_views(records@) =~= all);
        records
    }
}

} // verus!
