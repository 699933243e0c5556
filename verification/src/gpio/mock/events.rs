//! Edge events of mock line requests.

use vstd::prelude::*;
use vstd::string::StringExecFns;

use crate::gpio::libgpiod::EdgeEventType;
use crate::gpio::libgpiod::GPIOError;
use crate::gpio::libgpiod::GPIOErrorModel;
use crate::gpio::traits::EdgeEvent;
use crate::gpio::traits::EdgeEventBuffer;
use crate::gpio::traits::EdgeModel;
use crate::number::decimal;
use crate::number::number_text;

verus! {

/// An edge event in the queue of a request.
#[derive(Debug, Clone, Copy, PartialEq, Eq, Structural)]
pub struct MockEdgeEventRecord {
    pub event_type: EdgeEventType,
    pub timestamp_ns: u64,
    pub line_offset: u32,
    pub global_seqno: u64,
    pub line_seqno: u64,
}

impl View for MockEdgeEventRecord {
    type V = EdgeModel;

    open spec fn view(&self) -> EdgeModel {
        EdgeModel {
            event_type: self.event_type,
            timestamp_ns: self.timestamp_ns,
            line_offset: self.line_offset,
            global_seqno: self.global_seqno,
            line_seqno: self.line_seqno,
        }
    }
}

/// An edge event as the buffer hands it out.
#[derive(Debug, Clone, Copy, PartialEq, Eq, Structural)]
pub struct MockEdgeEvent {
    event_type: EdgeEventType,
    timestamp_ns: u64,
    line_offset: u32,
    global_seqno: u64,
    line_seqno: u64,
}

impl MockEdgeEvent {
    /// The event of a queued record.
    pub fn from_record(record: &MockEdgeEventRecord) -> (event: Self)
        ensures
            event.record() == record@,
    {
        MockEdgeEvent {
            event_type: record.event_type,
            timestamp_ns: record.timestamp_ns,
            line_offset: record.line_offset,
            global_seqno: record.global_seqno,
            line_seqno: record.line_seqno,
        }
    }
}

impl EdgeEvent for MockEdgeEvent {
    closed spec fn record(&self) -> EdgeModel {
        EdgeModel {
            event_type: self.event_type,
            timestamp_ns: self.timestamp_ns,
            line_offset: self.line_offset,
            global_seqno: self.global_seqno,
            line_seqno: self.line_seqno,
        }
    }

    fn get_event_type(&self) -> (event_type: EdgeEventType) {
        self.event_type
    }

    fn get_timestamp_ns(&self) -> (timestamp: u64) {
        self.timestamp_ns
    }

    fn get_line_offset(&self) -> (offset: u32) {
        self.line_offset
    }

    fn get_global_seqno(&self) -> (seqno: u64) {
        self.global_seqno
    }

    fn get_line_seqno(&self) -> (seqno: u64) {
        self.line_seqno
    }
}

/// A bounded list of edge events.
#[derive(Debug, Clone, PartialEq, Eq)]
pub struct MockEdgeEventBuffer {
    capacity: usize,
    events: Vec<MockEdgeEvent>,
}

impl MockEdgeEventBuffer {
    /// An empty buffer for this many events.
    pub fn with_capacity(capacity: usize) -> (buffer: Self)
        ensures
            buffer.capacity() == capacity,
            buffer.records() == Seq::<EdgeModel>::empty(),
    {
        let buffer = MockEdgeEventBuffer { capacity, events: Vec::new() };
        assert(buffer.records() =~= Seq::<EdgeModel>::empty());
        buffer
    }

    /// Appends an event unless the buffer is full.
    pub fn push_record(&mut self, record: &MockEdgeEventRecord) -> (result: Result<(), GPIOError>)
        ensures
            final(self).capacity() == old(self).capacity(),
            match result {
                Ok(_) => old(self).records().len() < old(self).capacity()
                    && final(self).records() == old(self).records().push(record@),
                Err(error) => old(self).records().len() >= old(self).capacity()
                    && final(self).records() == old(self).records() && error@
                    == GPIOErrorModel::Other("edge event buffer is full"@),
            },
    {
        if self.events.len() >= self.capacity {
            return Err(GPIOError::Other("edge event buffer is full".to_owned()));
        }
        self.events.push(MockEdgeEvent::from_record(record));
        assert(self.records() =~= old(self).records().push(record@));
        Ok(())
    }
}

impl EdgeEventBuffer for MockEdgeEventBuffer {
    type EdgeEvent = MockEdgeEvent;

    closed spec fn capacity(&self) -> usize {
        self.capacity
    }

    closed spec fn records(&self) -> Seq<EdgeModel> {
        Seq::new(self.events@.len(), |i: int| self.events@[i].record())
    }

    fn get_capacity(&self) -> (capacity: usize) {
        self.capacity
    }

    fn get_num_events(&self) -> (count: usize) {
        self.events.len()
    }

    fn get_event(&self, index: usize) -> (result: Result<MockEdgeEvent, GPIOError>)
        ensures
            result matches Err(error) ==> error@ == GPIOErrorModel::InvalidArgument(
                "edge event index "@ + decimal(index as nat) + " out of range"@,
            ),
    {
        if index < self.events.len() {
            Ok(self.events[index])
        } else {
            Err(
                GPIOError::InvalidArgument(
                    "edge event index ".to_owned().concat(
                        number_text(index as u64).as_str(),
                    ).concat(" out of range"),
                ),
            )
        }
    }

    fn clear(&mut self) {
        self.events.clear();
        assert(self.records() =~= Seq::<EdgeModel>::empty());
    }
}

} // verus!
