use vstd::prelude::*;
use crate::order::{seq_sorted, sort_total, TotalOrdered};
use crate::raw;
use crate::report::{since, spec_since};

verus! {

/// The display color of a timeline event.
#[derive(Debug, Clone, Copy, PartialEq, Eq, Structural)]
pub enum EventType {
    Blue,
    Gold,
    Green,
    Red,
}

/// The icon shown next to a timeline event.
#[derive(Debug, Clone)]
pub enum EventIcon {
    Player { uuid: u128 },
    Icon { icon_id: String },
    Url { url: String },
}

/// A timeline event of the processed report.
#[derive(Debug, Clone)]
pub struct Event {
    /// Absolute timestamp of the event, in milliseconds.
    pub date: i64,
    /// Elapsed milliseconds between the match start and the event.
    pub since_beginning: u64,
    pub event_type: EventType,
    pub title: String,
    pub description: Option<String>,
    pub icon: EventIcon,
}

/// The display color given to a raw event that does not name one.
pub fn default_event_type() -> (t: EventType)
    ensures
        t == EventType::Blue,
{
    EventType::Blue
}

/// Events are ordered by timestamp.
impl TotalOrdered for Event {
    open spec fn le_spec(&self, other: &Self) -> bool {
        self.date <= other.date
    }

    proof fn lemma_total(a: &Self, b: &Self) {
    }

    proof fn lemma_trans(a: &Self, b: &Self, c: &Self) {
    }

    fn le(&self, other: &Self) -> (r: bool) {
        self.date <= other.date
    }
}

/// The processed event a raw event maps to.
pub open spec fn event_from_raw_spec(re: raw::Event, begin: i64) -> Event {
    Event {
        date: re.date,
        since_beginning: spec_since(re.date, begin),
        event_type: re.event_type,
        title: re.title,
        description: re.description,
        icon: re.icon,
    }
}

impl Event {
    /// Stamps one raw event with the elapsed time since the match start.
    pub fn from_raw(raw_event: raw::Event, begin: i64) -> (e: Event)
        ensures
            e == event_from_raw_spec(raw_event, begin),
    {
        Event {
            date: raw_event.date,
            since_beginning: since(raw_event.date, begin),
            event_type: raw_event.event_type,
            title: raw_event.title,
            description: raw_event.description,
            icon: raw_event.icon,
        }
    }

    /// Stamps every raw event and sorts the result by timestamp.
    #[verifier::loop_isolation(false)]
    pub fn from_raw_vec(raw_events: Vec<raw::Event>, begin: i64) -> (r: Vec<Event>)
        ensures
            r@.to_multiset() == raw_events@.map_values(
                |re: raw::Event| event_from_raw_spec(re, begin),
            ).to_multiset(),
            seq_sorted(r@),
    {
        let ghost orig = raw_events@;
        let ghost f = |re: raw::Event| event_from_raw_spec(re, begin);
        let mut rest = raw_events;
        let mut events: Vec<Event> = Vec::new();
        let ghost mut i: int = 0;
        proof {
            assert(rest@ =~= orig.skip(0));
            assert(events@ =~= orig.take(0).map_values(f));
        }
        while rest.len() > 0
            invariant
                0 <= i <= orig.len(),
                rest@ == orig.skip(i),
                events@ == orig.take(i).map_values(f),
            decreases rest@.len(),
        {
            let re = rest.remove(0);
            proof {
                assert(re == orig[i]);
                assert(rest@ =~= orig.skip(i + 1));
            }
            events.push(Event::from_raw(re, begin));
            proof {
                assert(events@ =~= orig.take(i + 1).map_values(f));
                i = i + 1;
            }
        }
        proof {
            assert(orig.take(i) =~= orig);
        }
        sort_total(events)
    }
}

} // verus!
