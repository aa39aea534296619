//! Bounded log of notable daemon events; the oldest fall off.

use vstd::prelude::*;

use crate::control::{event_views, Event, EventView};
use crate::names::Model;

verus! {

/// How many events the daemon keeps.
pub const EVENT_LOG_CAPACITY: usize = 200;

pub struct EventLog {
    inner: Vec<Event>,
    cap: usize,
}

#[verifier::ext_equal]
pub struct EventLogView {
    pub events: Seq<EventView>,
    pub cap: nat,
}

impl View for EventLog {
    type V = EventLogView;

    closed spec fn view(&self) -> EventLogView {
        EventLogView { events: event_views(self.inner@), cap: self.cap as nat }
    }
}

/// The log with one more event.
pub open spec fn logged(l: EventLogView, ev: EventView) -> EventLogView {
    EventLogView {
        events: if l.events.len() == l.cap {
            l.events.skip(1).push(ev)
        } else {
            l.events.push(ev)
        },
        cap: l.cap,
    }
}

impl EventLogView {
    /// The log has room for at least one event and never outgrows it.
    pub open spec fn bounded(self) -> bool {
        1 <= self.cap && self.events.len() <= self.cap
    }
}

impl EventLog {
    #[verifier::type_invariant]
    spec fn wf(self) -> bool {
        1 <= self.cap && self.inner@.len() <= self.cap
    }

    pub fn new(cap: usize) -> (r: Self)
        ensures
            r@.events == Seq::<EventView>::empty(),
            r@.cap == if cap == 0 {
                1
            } else {
                cap as nat
            },
            r@.bounded(),
    {
        let r = EventLog {
            inner: Vec::new(),
            cap: if cap == 0 {
                1
            } else {
                cap
            },
        };
        assert(r@.events =~= Seq::<EventView>::empty());
        r
    }

    pub fn push(&mut self, ev: Event)
        ensures
            final(self)@ == logged(old(self)@, ev@),
            final(self)@.bounded(),
    {
        proof {
            use_type_invariant(&*self);
        }
        let mut q: Vec<Event> = Vec::new();
        std::mem::swap(&mut q, &mut self.inner);
        let ghost before = event_views(q@);
        let ghost e = ev@;
        if q.len() == self.cap {
            q.remove(0);
            assert(event_views(q@) =~= before.skip(1));
        }
        let ghost mid = event_views(q@);
        q.push(ev);
        assert(event_views(q@) =~= mid.push(e));
        self.inner = q;
        assert(self@.events =~= logged(old(self)@, e).events);
    }

    /// The events, newest last.
    pub fn snapshot(&self) -> (r: Vec<Event>)
        ensures
            event_views(r@) == self@.events,
    {
        let mut r: Vec<Event> = Vec::new();
        let mut i: usize = 0;
        while i < self.inner.len()
            invariant
                i <= self.inner@.len(),
                event_views(r@) == event_views(self.inner@).take(i as int),
            decreases self.inner@.len() - i,
        {
            let ghost all = event_views(self.inner@);
            let ghost before = event_views(r@);
            let e = self.inner[i].dup();
            let ghost ev = e@;
            r.push(e);
            assert(event_views(r@) =~= before.push(ev));
            assert(all.take(i + 1) =~= all.take(i as int).push(all[i as int]));
            i = i + 1;
        }
        assert(event_views(self.inner@).take(i as int) =~= event_views(self.inner@));
        r
    }
}

/// All of the events, pushed in order.
pub open spec fn logged_all(l: EventLogView, evs: Seq<EventView>) -> EventLogView
    decreases evs.len(),
{
    if evs.len() == 0 {
        l
    } else {
        logged(logged_all(l, evs.drop_last()), evs.last())
    }
}

/// However many events come, the log holds the newest ones in order.
pub proof fn law_log_keeps_newest(l: EventLogView, evs: Seq<EventView>)
    requires
        l.bounded(),
    ensures
        logged_all(l, evs).bounded(),
        logged_all(l, evs).cap == l.cap,
        ({
            let all = l.events + evs;
            let n = if all.len() <= l.cap {
                0
            } else {
                all.len() - l.cap
            };
            logged_all(l, evs).events == all.skip(n as int)
        }),
    decreases evs.len(),
{
    let all = l.events + evs;
    if evs.len() == 0 {
        assert(all.skip(0) =~= l.events);
    } else {
        law_log_keeps_newest(l, evs.drop_last());
        let before = l.events + evs.drop_last();
        assert(all =~= before.push(evs.last()));
        if before.len() < l.cap {
            assert(before.skip(0).push(evs.last()) =~= all.skip(0));
        } else {
            let n = before.len() - l.cap;
            assert(before.skip(n).skip(1).push(evs.last()) =~= all.skip(n + 1));
        }
    }
}

} // verus!
