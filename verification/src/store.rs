use std::collections::BTreeMap;
use vstd::prelude::*;

verus! {

/// A parsed ETW event with all display-relevant fields.
#[derive(Clone, Debug)]
pub struct ParsedEvent {
    /// Windows FILETIME: 100-nanosecond intervals since 1601-01-01 UTC.
    pub timestamp: i64,
    pub cpu: u8,
    pub pid: u32,
    pub tid: u32,
    pub provider_name: String,
    pub event_id: u16,
    pub level: u8,
    pub opcode: u8,
    pub message: String,
    /// Byte ranges of substituted field values within `message`: (start, end, color_index).
    pub field_ranges: Vec<(usize, usize, u8)>,
}

/// The positions, in insertion order, of the events carrying timestamp `ts`.
pub open spec fn indices_with_timestamp(events: Seq<ParsedEvent>, ts: i64) -> Seq<usize>
    decreases events.len(),
{
    if events.len() == 0 {
        Seq::empty()
    } else {
        let rest = indices_with_timestamp(events.drop_last(), ts);
        if events.last().timestamp == ts {
            rest.push((events.len() - 1) as usize)
        } else {
            rest
        }
    }
}

/// Append-only event store with a timestamp index for range queries.
pub struct EventStore {
    events: Vec<ParsedEvent>,
    /// Maps timestamp -> list of event indices for efficient time-range lookups.
    timestamp_index: BTreeMap<i64, Vec<usize>>,
}

impl View for EventStore {
    type V = Seq<ParsedEvent>;

    closed spec fn view(&self) -> Seq<ParsedEvent> {
        self.events@
    }
}

impl EventStore {
    /// The timestamp index as a map of sequences.
    pub closed spec fn index_view(&self) -> Map<i64, Seq<usize>> {
        Map::new(
            |ts: i64| self.timestamp_index@.contains_key(ts),
            |ts: i64| self.timestamp_index@[ts]@,
        )
    }

    /// The index holds, for every timestamp that occurs, exactly the positions
    /// of the events with that timestamp, in insertion order, and nothing else.
    pub open spec fn wf(&self) -> bool {
        forall|ts: i64|
            #![trigger self.index_view().contains_key(ts)]
            (self.index_view().contains_key(ts) <==> indices_with_timestamp(self@, ts).len() > 0)
                && (self.index_view().contains_key(ts) ==> self.index_view()[ts]
                == indices_with_timestamp(self@, ts))
    }

    pub fn new() -> (s: Self)
        ensures
            s@ == Seq::<ParsedEvent>::empty(),
            s.wf(),
    {
        Self { events: Vec::new(), timestamp_index: BTreeMap::new() }
    }

    pub fn push(&mut self, event: ParsedEvent)
        requires
            old(self).wf(),
        ensures
            final(self).wf(),
            final(self)@ == old(self)@.push(event),
    {
        let idx = self.events.len();
        let ts = event.timestamp;
        let ghost old_events = self.events@;
        let ghost old_index = self.index_view();
        self.events.push(event);
        let mut bucket = match self.timestamp_index.remove(&ts) {
            Some(v) => v,
            None => Vec::new(),
        };
        bucket.push(idx);
        self.timestamp_index.insert(ts, bucket);
        proof {
            assert(self.events@.drop_last() == old_events);
            assert forall|t: i64| #![trigger self.index_view().contains_key(t)]
                (self.index_view().contains_key(t) <==> indices_with_timestamp(self@, t).len() > 0)
                && (self.index_view().contains_key(t) ==> self.index_view()[t]
                == indices_with_timestamp(self@, t)) by {
                assert(old(self).index_view().contains_key(t) <==> indices_with_timestamp(old_events, t).len() > 0);
                if t == ts {
                    assert(self.index_view()[t] == old_index.get(t).unwrap_or(Seq::empty()).push(idx));
                } else {
                    assert(self.index_view().contains_key(t) == old_index.contains_key(t));
                }
            }
        }
    }

    pub fn get(&self, idx: usize) -> (r: Option<&ParsedEvent>)
        ensures
            r == (if idx < self@.len() { Some(&self@[idx as int]) } else { None::<&ParsedEvent> }),
    {
        if idx < self.events.len() {
            Some(&self.events[idx])
        } else {
            None
        }
    }

    /// The store never holds more events than a `usize` counts.
    pub proof fn lemma_len_bound(&self)
        ensures
            self@.len() <= usize::MAX,
    {
        assert(self.events.len() == self.events@.len());
    }

    pub fn len(&self) -> (n: usize)
        ensures
            n == self@.len(),
    {
        self.events.len()
    }
}

} // verus!
