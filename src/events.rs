use crate::capacity::vacant;
use crate::engine::same_but_reservations;
use crate::order::{is_stable_order, order_by_key};
use crate::outbox::prompt_effect;
use crate::store::{
    event_index, has_vacancy, same_outside_outbox, sum_qty, CurrentEvent, EventRecord, Mark,
    Store, StoreError,
};
use crate::types::{Counter, Event, EventState, EventStats, MessageType};
use vstd::prelude::*;
use vstd::string::StringExecFns;

verus! {

/// The numbers a sum shows once it is stored in 64 bits.
pub open spec fn clamp(x: int) -> int {
    if x > u64::MAX {
        u64::MAX as int
    } else {
        x
    }
}

fn clamp_u128(x: u128) -> (r: u64)
    ensures
        r == clamp(x as int),
{
    if x > u64::MAX as u128 {
        u64::MAX
    } else {
        x as u64
    }
}

/// The counter of one category as `user` sees event `event_id`.
pub open spec fn counter_of(s: Store, event_id: u64, user: u64, children: bool, c: Counter) -> bool {
    &&& c.reserved == clamp(sum_qty(s.reservations@, event_id, None, false, children))
    &&& c.my_reservation == clamp(sum_qty(s.reservations@, event_id, Some(user), false, children))
    &&& c.my_waiting == clamp(sum_qty(s.reservations@, event_id, Some(user), true, children))
}

/// The text of the reminder of a new event.
pub open spec fn reminder_text(name: Seq<char>, link: Seq<char>) -> Seq<char> {
    "Reminder! You are signed up for <a href=\""@ + link + "\">"@ + name
        + "</a>. If you cannot come, please cancel your reservation."@
}

impl Store {
    fn copy_event_at(&self, i: usize) -> (r: Event)
        requires
            i < self.events@.len(),
        ensures
            r == self.events@[i as int].event,
    {
        let e = &self.events[i].event;
        Event {
            id: e.id,
            name: e.name.clone(),
            link: e.link.clone(),
            max_adults: e.max_adults,
            max_children: e.max_children,
            max_adults_per_reservation: e.max_adults_per_reservation,
            max_children_per_reservation: e.max_children_per_reservation,
            ts: e.ts,
            remind: e.remind,
        }
    }

    fn counter(&self, event_id: u64, user: u64, children: bool) -> (r: Counter)
        ensures
            counter_of(*self, event_id, user, children, r),
    {
        Counter {
            reserved: clamp_u128(self.sum_reserved(event_id, None, false, children)),
            my_reservation: clamp_u128(self.sum_reserved(event_id, Some(user), false, children)),
            my_waiting: clamp_u128(self.sum_reserved(event_id, Some(user), true, children)),
        }
    }

    /// The event at position `i` as `user` sees it.
    pub fn stats_at(&self, i: usize, user: u64) -> (r: EventStats)
        requires
            i < self.events@.len(),
        ensures
            r.event == self.events@[i as int].event,
            r.state == self.events@[i as int].state,
            counter_of(*self, self.events@[i as int].event.id, user, false, r.adults),
            counter_of(*self, self.events@[i as int].event.id, user, true, r.children),
    {
        let id = self.events[i].event.id;
        EventStats::new(
            self.copy_event_at(i),
            self.counter(id, user, false),
            self.counter(id, user, true),
            self.events[i].state,
        )
    }

    /// Records the event the user looked at last.
    pub fn set_current_event(&mut self, user: u64, event_id: u64)
        ensures
            final(self).current_events@ == old(self).current_events@.filter(
                |c: CurrentEvent| c.user != user,
            ).push(CurrentEvent { user, event: event_id }),
            same_outside_current(*old(self), *final(self)),
    {
        let ghost before = self.current_events@;
        let mut kept: Vec<CurrentEvent> = Vec::new();
        let mut i: usize = 0;
        while i < self.current_events.len()
            invariant
                i <= self.current_events@.len(),
                self.current_events@ == before,
                kept@ == before.take(i as int).filter(|c: CurrentEvent| c.user != user),
            decreases self.current_events@.len() - i,
        {
            proof {
                crate::rows::lemma_filter_take_step(
                    before,
                    |c: CurrentEvent| c.user != user,
                    i as int,
                );
            }
            if self.current_events[i].user != user {
                kept.push(self.current_events[i]);
            }
            i += 1;
        }
        assert(before.take(before.len() as int) =~= before);
        kept.push(CurrentEvent { user, event: event_id });
        self.current_events = kept;
    }

    /// The event the user looked at last; 0 when there is none.
    pub fn get_current_event(&self, user: u64) -> (r: u64)
        ensures
            (exists|k: int|
                0 <= k < self.current_events@.len() && self.current_events@[k].user == user
                    && self.current_events@[k].event == r && forall|j: int|
                    0 <= j < k ==> self.current_events@[j].user != user) || (r == 0 && forall|
                k: int,
            | 0 <= k < self.current_events@.len() ==> self.current_events@[k].user != user),
    {
        let mut i: usize = 0;
        while i < self.current_events.len()
            invariant
                i <= self.current_events@.len(),
                forall|k: int| 0 <= k < i ==> self.current_events@[k].user != user,
            decreases self.current_events@.len() - i,
        {
            if self.current_events[i].user == user {
                return self.current_events[i].event;
            }
            i += 1;
        }
        0
    }

    /// The event as `user` sees it; the event also becomes the user's
    /// current one.
    pub fn get_event(&mut self, event_id: u64, user: u64) -> (r: Result<EventStats, StoreError>)
        ensures
            event_index(old(self).events@, event_id) < 0 ==> r == Err::<EventStats, StoreError>(
                StoreError::NotFound,
            ) && *final(self) == *old(self),
            event_index(old(self).events@, event_id) >= 0 ==> (r matches Ok(st) && {
                let i = event_index(old(self).events@, event_id);
                &&& st.event == old(self).events@[i].event
                &&& st.state == old(self).events@[i].state
                &&& counter_of(*old(self), event_id, user, false, st.adults)
                &&& counter_of(*old(self), event_id, user, true, st.children)
                &&& final(self).current_events@ == old(self).current_events@.filter(
                    |c: CurrentEvent| c.user != user,
                ).push(CurrentEvent { user, event: event_id })
                &&& same_outside_current(*old(self), *final(self))
            }),
    {
        match self.find_event(event_id) {
            None => Err(StoreError::NotFound),
            Some(i) => {
                let st = self.stats_at(i, user);
                self.set_current_event(user, event_id);
                Ok(st)
            },
        }
    }

    /// The name of the event.
    pub fn get_event_name(&self, event_id: u64) -> (r: Result<String, StoreError>)
        ensures
            event_index(self.events@, event_id) < 0 ==> r == Err::<String, StoreError>(
                StoreError::NotFound,
            ),
            event_index(self.events@, event_id) >= 0 ==> (r matches Ok(n) && n
                == self.events@[event_index(self.events@, event_id)].event.name),
    {
        match self.find_event(event_id) {
            None => Err(StoreError::NotFound),
            Some(i) => Ok(self.events[i].event.name.clone()),
        }
    }

    /// Opens or closes the event (0 is open, anything else closed).
    pub fn change_event_state(&mut self, event_id: u64, state: u64)
        ensures
            event_index(old(self).events@, event_id) < 0 ==> *final(self) == *old(self),
            event_index(old(self).events@, event_id) >= 0 ==> {
                let i = event_index(old(self).events@, event_id);
                &&& final(self).events@ == old(self).events@.update(
                    i,
                    EventRecord {
                        state: if state == 0 {
                            EventState::Open
                        } else {
                            EventState::Closed
                        },
                        ..old(self).events@[i]
                    },
                )
                &&& same_outside_events(*old(self), *final(self))
            },
    {
        match self.find_event(event_id) {
            None => {},
            Some(i) => {
                let ghost before = self.events@;
                let mut rec = self.events.remove(i);
                rec.state = EventState::from_u64(state);
                self.events.insert(i, rec);
                proof {
                    assert(self.events@ =~= before.update(
                        i as int,
                        EventRecord {
                            state: if state == 0 {
                                EventState::Open
                            } else {
                                EventState::Closed
                            },
                            ..before[i as int]
                        },
                    ));
                }
            },
        }
    }

    /// Changes the event's limits; when it had no vacancy before, the waiting
    /// list is prompted.
    pub fn set_event_limits(&mut self, event_id: u64, max_adults: u64, max_children: u64, now: u64) -> (r:
        Result<(), StoreError>)
        ensures
            event_index(old(self).events@, event_id) < 0 ==> *final(self) == *old(self) && r is Ok,
            event_index(old(self).events@, event_id) >= 0 ==> exists|mid: Store|
                limits_then_prompted(
                    *old(self),
                    mid,
                    *final(self),
                    event_id,
                    max_adults,
                    max_children,
                    now,
                    r,
                ),
    {
        let had_vacancy = self.have_vacancies(event_id);
        match self.find_event(event_id) {
            None => Ok(()),
            Some(i) => {
                let ghost s0 = *self;
                let mut rec = self.events.remove(i);
                rec.event.max_adults = max_adults;
                rec.event.max_children = max_children;
                self.events.insert(i, rec);
                proof {
                    assert(self.events@ =~= s0.events@.update(
                        i as int,
                        EventRecord {
                            event: Event { max_adults, max_children, ..s0.events@[i as int].event },
                            ..s0.events@[i as int]
                        },
                    ));
                }
                let ghost mid = *self;
                let r = if !had_vacancy {
                    self.prompt_waiting_list(event_id, now)
                } else {
                    Ok(())
                };
                assert(limits_then_prompted(
                    s0,
                    mid,
                    *self,
                    event_id,
                    max_adults,
                    max_children,
                    now,
                    r,
                ));
                r
            },
        }
    }

    /// Adds a new event (`e.id == 0`) with its reminder message, scheduled at
    /// `e.remind`, and returns its id; otherwise replaces the fields of event
    /// `e.id` and returns 0.
    pub fn add_event(&mut self, e: Event, now: u64) -> (r: Result<u64, StoreError>)
        ensures
            e.id == 0 ==> match r {
                Ok(id) => {
                    &&& id == old(self).next_event_id
                    &&& final(self).next_event_id == id + 1
                    &&& final(self).events@ == old(self).events@.push(
                        EventRecord { event: Event { id, ..e }, state: EventState::Open },
                    )
                    &&& final(self).reservations@ == old(self).reservations@
                    &&& final(self).messages@.len() == old(self).messages@.len() + 1
                    &&& final(self).messages@.drop_last() == old(self).messages@
                    &&& final(self).messages@.last().id == old(self).next_message_id
                    &&& final(self).messages@.last().event == id
                    &&& final(self).messages@.last().message_type == MessageType::Reminder
                    &&& final(self).messages@.last().sender@ == "Bot"@
                    &&& !final(self).messages@.last().waiting_list
                    &&& final(self).messages@.last().text@ == reminder_text(e.name@, e.link@)
                    &&& final(self).outbox@ == old(self).outbox@.push(
                        crate::store::OutboxEntry {
                            message: old(self).next_message_id,
                            send_at: e.remind,
                        },
                    )
                },
                Err(err) => err == StoreError::IdsExhausted && *final(self) == *old(self) && (old(
                    self,
                ).next_event_id == u64::MAX || old(self).next_message_id == u64::MAX),
            },
            e.id != 0 ==> r == Ok::<u64, StoreError>(0) && same_outside_events(
                *old(self),
                *final(self),
            ) && (event_index(old(self).events@, e.id) < 0 ==> final(self).events@ == old(
                self,
            ).events@) && (event_index(old(self).events@, e.id) >= 0 ==> final(self).events@
                == old(self).events@.update(
                event_index(old(self).events@, e.id),
                EventRecord { event: e, ..old(self).events@[event_index(old(self).events@, e.id)] },
            )),
    {
        if e.id == 0 {
            if self.next_event_id == u64::MAX || self.next_message_id == u64::MAX {
                return Err(StoreError::IdsExhausted);
            }
            let id = self.next_event_id;
            let mut text = String::from_str("Reminder! You are signed up for <a href=\"");
            text.append(e.link.as_str());
            text.append("\">");
            text.append(e.name.as_str());
            text.append("</a>. If you cannot come, please cancel your reservation.");
            let remind = e.remind;
            self.events.push(EventRecord { event: Event { id, ..e }, state: EventState::Open });
            self.next_event_id = id + 1;
            let res = self.enqueue_message(
                id,
                "Bot",
                false,
                MessageType::Reminder,
                text.as_str(),
                remind,
                now,
            );
            match res {
                Ok(_) => Ok(id),
                Err(err) => Err(err),
            }
        } else {
            match self.find_event(e.id) {
                None => {},
                Some(i) => {
                    let ghost before = self.events@;
                    let ghost e0 = e;
                    let mut rec = self.events.remove(i);
                    rec.event = e;
                    self.events.insert(i, rec);
                    proof {
                        assert(self.events@ =~= before.update(
                            i as int,
                            EventRecord { event: e0, ..before[i as int] },
                        ));
                    }
                },
            }
            Ok(0)
        }
    }
}

impl Store {
    /// One page of the events as `user` sees them, ordered by the time they
    /// take place (equal times in the order they were added): `limit` events
    /// from event `offset * limit` on.
    pub fn get_events(&self, user: u64, offset: u64, limit: u64) -> (r: Vec<EventStats>)
        ensures
            exists|ord: Seq<usize>|
                is_stable_order(event_times(self.events@), ord) && #[trigger] events_page(
                    *self,
                    ord,
                    user,
                    offset as int,
                    limit as int,
                    r@,
                ),
    {
        let mut keys: Vec<u64> = Vec::new();
        let mut k: usize = 0;
        while k < self.events.len()
            invariant
                k <= self.events@.len(),
                keys@ =~= event_times(self.events@).take(k as int),
            decreases self.events@.len() - k,
        {
            keys.push(self.events[k].event.ts);
            k += 1;
        }
        assert(keys@ =~= event_times(self.events@));
        let ord = order_by_key(&keys);
        proof {
            assert(offset as int * limit as int <= 0xffff_ffff_ffff_ffffint * 0xffff_ffff_ffff_ffffint)
                by (nonlinear_arith)
                requires
                    offset <= 0xffff_ffff_ffff_ffffint,
                    limit <= 0xffff_ffff_ffff_ffffint,
            ;
        }
        let start: u128 = offset as u128 * limit as u128;
        let mut out: Vec<EventStats> = Vec::new();
        if start >= self.events.len() as u128 {
            assert(events_page(*self, ord@, user, offset as int, limit as int, out@));
            return out;
        }
        let start = start as usize;
        let mut i: usize = start;
        while i < self.events.len() && ((i - start) as u64) < limit
            invariant
                start <= i <= self.events@.len(),
                start == offset * limit,
                is_stable_order(event_times(self.events@), ord@),
                out@.len() == i - start,
                out@.len() <= limit,
                forall|j: int|
                    0 <= j < out@.len() ==> shows_event(
                        *self,
                        self.events@[ord@[offset * limit + j] as int],
                        user,
                        #[trigger] out@[j],
                    ),
            decreases self.events@.len() - i,
        {
            out.push(self.stats_at(ord[i], user));
            i += 1;
        }
        assert(events_page(*self, ord@, user, offset as int, limit as int, out@));
        out
    }
}

/// The times of the events, in store order.
pub open spec fn event_times(evs: Seq<EventRecord>) -> Seq<u64> {
    Seq::new(evs.len(), |i: int| evs[i].event.ts)
}

/// `st` shows the event as `user` sees it.
pub open spec fn shows_event(s: Store, rec: EventRecord, user: u64, st: EventStats) -> bool {
    &&& st.event == rec.event
    &&& st.state == rec.state
    &&& counter_of(s, rec.event.id, user, false, st.adults)
    &&& counter_of(s, rec.event.id, user, true, st.children)
}

/// `r` is the page `offset` of `limit` events in the order `ord`.
pub open spec fn events_page(
    s: Store,
    ord: Seq<usize>,
    user: u64,
    offset: int,
    limit: int,
    r: Seq<EventStats>,
) -> bool {
    &&& r.len() == crate::blacklist::page_len(s.events@.len() as int, offset, limit)
    &&& forall|j: int|
        0 <= j < r.len() ==> shows_event(s, s.events@[ord[offset * limit + j] as int], user, #[trigger] r[j])
}

/// `mid` is `before` with the event's limits changed, and `after` is `mid`
/// once the waiting list was prompted where due.
pub open spec fn limits_then_prompted(
    before: Store,
    mid: Store,
    after: Store,
    event_id: u64,
    max_adults: u64,
    max_children: u64,
    now: u64,
    r: Result<(), StoreError>,
) -> bool {
    let i = event_index(before.events@, event_id);
    &&& mid.events@ == before.events@.update(
        i,
        EventRecord {
            event: Event { max_adults, max_children, ..before.events@[i].event },
            ..before.events@[i]
        },
    )
    &&& same_outside_events(before, mid)
    &&& if has_vacancy(before, event_id) {
        after == mid && r is Ok
    } else {
        prompt_effect(mid, after, event_id, now, r)
    }
}

/// Every table but the current-event pointers is the same.
pub open spec fn same_outside_current(a: Store, b: Store) -> bool {
    &&& a.events@ == b.events@
    &&& a.reservations@ == b.reservations@
    &&& a.attachments@ == b.attachments@
    &&& a.black_list@ == b.black_list@
    &&& a.presence@ == b.presence@
    &&& a.group_leaders@ == b.group_leaders@
    &&& a.messages@ == b.messages@
    &&& a.outbox@ == b.outbox@
    &&& a.receipts@ == b.receipts@
    &&& a.next_event_id == b.next_event_id
    &&& a.next_message_id == b.next_message_id
}

/// Every table but the events is the same.
pub open spec fn same_outside_events(a: Store, b: Store) -> bool {
    &&& a.reservations@ == b.reservations@
    &&& a.attachments@ == b.attachments@
    &&& a.black_list@ == b.black_list@
    &&& a.presence@ == b.presence@
    &&& a.group_leaders@ == b.group_leaders@
    &&& a.current_events@ == b.current_events@
    &&& a.messages@ == b.messages@
    &&& a.outbox@ == b.outbox@
    &&& a.receipts@ == b.receipts@
    &&& a.next_event_id == b.next_event_id
    &&& a.next_message_id == b.next_message_id
}

} // verus!
