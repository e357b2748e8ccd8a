use crate::types::{Event, EventState, MessageType};
use vstd::prelude::*;

verus! {

/// An event together with its open/closed state.
pub struct EventRecord {
    pub event: Event,
    pub state: EventState,
}

/// One reservation row. A user may hold several rows for one event; their
/// sums are the user's holding.
pub struct Reservation {
    pub event: u64,
    pub user: u64,
    pub user_name1: String,
    pub user_name2: String,
    pub adults: u64,
    pub children: u64,
    pub waiting_list: bool,
    /// When the row was created (unix seconds).
    pub ts: u64,
}

/// A free-text note of a user for an event.
pub struct Attachment {
    pub event: u64,
    pub user: u64,
    pub text: String,
}

/// A banned user.
pub struct BlacklistEntry {
    pub user: u64,
    pub user_name1: String,
    pub user_name2: String,
    pub ts: u64,
    pub reason: String,
}

/// A flag of a user for an event (confirmed presence, group leader).
#[derive(PartialEq, Eq, Structural, Clone, Copy, Debug)]
pub struct Mark {
    pub event: u64,
    pub user: u64,
}

/// A message to the participants of an event.
pub struct Message {
    pub id: u64,
    pub event: u64,
    pub message_type: MessageType,
    pub sender: String,
    /// Whether the message goes to the waiting list rather than to the
    /// holders of active reservations.
    pub waiting_list: bool,
    pub text: String,
    pub ts: u64,
}

/// A scheduled dispatch of a message.
#[derive(PartialEq, Eq, Structural, Clone, Copy, Debug)]
pub struct OutboxEntry {
    pub message: u64,
    pub send_at: u64,
}

/// A record that a message has reached a user.
#[derive(PartialEq, Eq, Structural, Clone, Copy, Debug)]
pub struct Receipt {
    pub message: u64,
    pub user: u64,
    pub ts: u64,
}

/// The event a user looked at last.
#[derive(PartialEq, Eq, Structural, Clone, Copy, Debug)]
pub struct CurrentEvent {
    pub user: u64,
    pub event: u64,
}

/// The tables of the service. Rows keep the order in which they were added.
pub struct Store {
    pub events: Vec<EventRecord>,
    pub reservations: Vec<Reservation>,
    pub attachments: Vec<Attachment>,
    pub black_list: Vec<BlacklistEntry>,
    pub presence: Vec<Mark>,
    pub group_leaders: Vec<Mark>,
    pub messages: Vec<Message>,
    pub outbox: Vec<OutboxEntry>,
    pub receipts: Vec<Receipt>,
    pub current_events: Vec<CurrentEvent>,
    /// The id the next new event gets.
    pub next_event_id: u64,
    /// The id the next new message gets.
    pub next_message_id: u64,
}

#[derive(PartialEq, Eq, Structural, Clone, Copy, Debug)]
pub enum StoreError {
    /// The event or message does not exist.
    NotFound,
    /// No fresh id is left for a new row.
    IdsExhausted,
    /// A row with the same key exists already.
    Duplicate,
}

/// The quantity of a row that is counted: children, or adults.
pub open spec fn qty(r: Reservation, children: bool) -> int {
    if children {
        r.children as int
    } else {
        r.adults as int
    }
}

/// A row of the event, on the given list, of the given user (or of anyone).
pub open spec fn in_scope(r: Reservation, event: u64, user: Option<u64>, waiting: bool) -> bool {
    &&& r.event == event
    &&& r.waiting_list == waiting
    &&& match user {
        Some(u) => r.user == u,
        None => true,
    }
}

pub open spec fn contribution(
    r: Reservation,
    event: u64,
    user: Option<u64>,
    waiting: bool,
    children: bool,
) -> int {
    if in_scope(r, event, user, waiting) {
        qty(r, children)
    } else {
        0
    }
}

/// Sum of the adults (or children) over the rows in scope.
pub open spec fn sum_qty(
    rs: Seq<Reservation>,
    event: u64,
    user: Option<u64>,
    waiting: bool,
    children: bool,
) -> int
    decreases rs.len(),
{
    if rs.len() == 0 {
        0
    } else {
        sum_qty(rs.drop_last(), event, user, waiting, children) + contribution(
            rs.last(),
            event,
            user,
            waiting,
            children,
        )
    }
}

pub proof fn lemma_sum_bounds(
    rs: Seq<Reservation>,
    event: u64,
    user: Option<u64>,
    waiting: bool,
    children: bool,
)
    ensures
        0 <= sum_qty(rs, event, user, waiting, children) <= rs.len() * 0xffff_ffff_ffff_ffffint,
    decreases rs.len(),
{
    if rs.len() > 0 {
        lemma_sum_bounds(rs.drop_last(), event, user, waiting, children);
    }
}

pub proof fn lemma_sum_push(
    rs: Seq<Reservation>,
    x: Reservation,
    event: u64,
    user: Option<u64>,
    waiting: bool,
    children: bool,
)
    ensures
        sum_qty(rs.push(x), event, user, waiting, children) == sum_qty(
            rs,
            event,
            user,
            waiting,
            children,
        ) + contribution(x, event, user, waiting, children),
{
    assert(rs.push(x).drop_last() =~= rs);
}

pub proof fn lemma_sum_update(
    rs: Seq<Reservation>,
    i: int,
    x: Reservation,
    event: u64,
    user: Option<u64>,
    waiting: bool,
    children: bool,
)
    requires
        0 <= i < rs.len(),
    ensures
        sum_qty(rs.update(i, x), event, user, waiting, children) == sum_qty(
            rs,
            event,
            user,
            waiting,
            children,
        ) - contribution(rs[i], event, user, waiting, children) + contribution(
            x,
            event,
            user,
            waiting,
            children,
        ),
    decreases rs.len(),
{
    if i == rs.len() - 1 {
        assert(rs.update(i, x).drop_last() =~= rs.drop_last());
    } else {
        assert(rs.update(i, x).drop_last() =~= rs.drop_last().update(i, x));
        lemma_sum_update(rs.drop_last(), i, x, event, user, waiting, children);
    }
}

pub proof fn lemma_sum_remove(
    rs: Seq<Reservation>,
    i: int,
    event: u64,
    user: Option<u64>,
    waiting: bool,
    children: bool,
)
    requires
        0 <= i < rs.len(),
    ensures
        sum_qty(rs.remove(i), event, user, waiting, children) == sum_qty(
            rs,
            event,
            user,
            waiting,
            children,
        ) - contribution(rs[i], event, user, waiting, children),
    decreases rs.len(),
{
    if i == rs.len() - 1 {
        assert(rs.remove(i) =~= rs.drop_last());
    } else {
        assert(rs.remove(i).drop_last() =~= rs.drop_last().remove(i));
        lemma_sum_remove(rs.drop_last(), i, event, user, waiting, children);
    }
}

pub proof fn lemma_sum_filter(
    rs: Seq<Reservation>,
    keep: spec_fn(Reservation) -> bool,
    event: u64,
    user: Option<u64>,
    waiting: bool,
    children: bool,
)
    ensures
        sum_qty(rs.filter(keep), event, user, waiting, children) <= sum_qty(
            rs,
            event,
            user,
            waiting,
            children,
        ),
    decreases rs.len(),
{
    reveal(Seq::filter);
    if rs.len() > 0 {
        lemma_sum_filter(rs.drop_last(), keep, event, user, waiting, children);
        if keep(rs.last()) {
            lemma_sum_push(rs.drop_last().filter(keep), rs.last(), event, user, waiting, children);
        }
    }
}

/// Index of the first record of the event at or after `i`, or -1.
pub open spec fn find_event_from(evs: Seq<EventRecord>, id: u64, i: int) -> int
    decreases evs.len() - i,
{
    if i < 0 || i >= evs.len() {
        -1
    } else if evs[i].event.id == id {
        i
    } else {
        find_event_from(evs, id, i + 1)
    }
}

/// Index of the first record of the event, or -1 when there is none.
pub open spec fn event_index(evs: Seq<EventRecord>, id: u64) -> int {
    find_event_from(evs, id, 0)
}

pub proof fn lemma_find_event_from(evs: Seq<EventRecord>, id: u64, i: int)
    requires
        0 <= i,
    ensures
        find_event_from(evs, id, i) == -1 || (i <= find_event_from(evs, id, i) < evs.len()
            && evs[find_event_from(evs, id, i)].event.id == id),
        find_event_from(evs, id, i) == -1 ==> forall|k: int|
            i <= k < evs.len() ==> evs[k].event.id != id,
    decreases evs.len() - i,
{
    if i < evs.len() && evs[i].event.id != id {
        lemma_find_event_from(evs, id, i + 1);
    }
}

/// A blacklist entry exists for the user.
pub open spec fn blacklisted(bl: Seq<BlacklistEntry>, user: u64) -> bool {
    exists|k: int| 0 <= k < bl.len() && bl[k].user == user
}

impl Store {
    /// A store with no rows.
    pub fn new() -> (r: Store)
        ensures
            r.events@.len() == 0,
            r.reservations@.len() == 0,
            r.attachments@.len() == 0,
            r.black_list@.len() == 0,
            r.presence@.len() == 0,
            r.group_leaders@.len() == 0,
            r.messages@.len() == 0,
            r.outbox@.len() == 0,
            r.receipts@.len() == 0,
            r.current_events@.len() == 0,
            r.next_event_id == 1,
            r.next_message_id == 1,
    {
        Store {
            events: Vec::new(),
            reservations: Vec::new(),
            attachments: Vec::new(),
            black_list: Vec::new(),
            presence: Vec::new(),
            group_leaders: Vec::new(),
            messages: Vec::new(),
            outbox: Vec::new(),
            receipts: Vec::new(),
            current_events: Vec::new(),
            next_event_id: 1,
            next_message_id: 1,
        }
    }

    /// Position of the first record of the event.
    pub fn find_event(&self, event_id: u64) -> (r: Option<usize>)
        ensures
            match r {
                Some(i) => i == event_index(self.events@, event_id) && i < self.events@.len()
                    && self.events@[i as int].event.id == event_id,
                None => event_index(self.events@, event_id) == -1,
            },
    {
        proof {
            lemma_find_event_from(self.events@, event_id, 0);
        }
        let mut i: usize = 0;
        while i < self.events.len()
            invariant
                i <= self.events@.len(),
                event_index(self.events@, event_id) == find_event_from(
                    self.events@,
                    event_id,
                    i as int,
                ),
            decreases self.events@.len() - i,
        {
            if self.events[i].event.id == event_id {
                return Some(i);
            }
            i += 1;
        }
        None
    }

    /// Sum of adults (or children) over the reservation rows in scope.
    pub fn sum_reserved(&self, event: u64, user: Option<u64>, waiting: bool, children: bool) -> (r:
        u128)
        ensures
            r == sum_qty(self.reservations@, event, user, waiting, children),
    {
        let rs = &self.reservations;
        let mut acc: u128 = 0;
        let mut i: usize = 0;
        while i < rs.len()
            invariant
                i <= rs@.len(),
                acc == sum_qty(rs@.take(i as int), event, user, waiting, children),
                acc <= i * 0xffff_ffff_ffff_ffffint,
            decreases rs@.len() - i,
        {
            assert(rs@.take(i + 1).drop_last() =~= rs@.take(i as int));
            let r = &rs[i];
            let hit = r.event == event && r.waiting_list == waiting && match user {
                Some(u) => r.user == u,
                None => true,
            };
            if hit {
                if children {
                    acc = acc + r.children as u128;
                } else {
                    acc = acc + r.adults as u128;
                }
            }
            i += 1;
        }
        assert(rs@.take(rs@.len() as int) =~= rs@);
        acc
    }

    /// Whether the user is on the blacklist.
    pub fn is_in_black_list(&self, user: u64) -> (r: bool)
        ensures
            r == blacklisted(self.black_list@, user),
    {
        let mut i: usize = 0;
        while i < self.black_list.len()
            invariant
                i <= self.black_list@.len(),
                forall|k: int| 0 <= k < i ==> self.black_list@[k].user != user,
            decreases self.black_list@.len() - i,
        {
            if self.black_list[i].user == user {
                return true;
            }
            i += 1;
        }
        false
    }
}

} // verus!

verus! {

/// Free places of the event per category; an unknown event has none.
pub open spec fn vacancy(s: Store, event_id: u64) -> (int, int) {
    let i = event_index(s.events@, event_id);
    if i < 0 {
        (0, 0)
    } else {
        let e = s.events@[i].event;
        (
            crate::capacity::vacant(
                e.max_adults as int,
                sum_qty(s.reservations@, event_id, None, false, false),
            ),
            crate::capacity::vacant(
                e.max_children as int,
                sum_qty(s.reservations@, event_id, None, false, true),
            ),
        )
    }
}

/// The event has vacancy: its limits of both categories together exceed
/// what active reservations hold of both together (an overbooked category
/// counts against the other one). An unknown event has none.
pub open spec fn has_vacancy(s: Store, event_id: u64) -> bool {
    let i = event_index(s.events@, event_id);
    i >= 0 && {
        let e = s.events@[i].event;
        (e.max_adults - sum_qty(s.reservations@, event_id, None, false, false)) + (e.max_children
            - sum_qty(s.reservations@, event_id, None, false, true)) > 0
    }
}

impl Store {
    /// Free places of the event per category (none for an unknown event).
    pub fn get_vacancies(&self, event_id: u64) -> (r: (u64, u64))
        ensures
            r.0 == vacancy(*self, event_id).0,
            r.1 == vacancy(*self, event_id).1,
    {
        match self.find_event(event_id) {
            None => (0, 0),
            Some(i) => {
                let reserved_adults = self.sum_reserved(event_id, None, false, false);
                let reserved_children = self.sum_reserved(event_id, None, false, true);
                crate::capacity::get_vacancies(
                    self.events[i].event.max_adults,
                    self.events[i].event.max_children,
                    reserved_adults,
                    reserved_children,
                )
            },
        }
    }

    /// Whether the event has vacancy, both categories taken together.
    pub fn have_vacancies(&self, event_id: u64) -> (r: bool)
        ensures
            r == has_vacancy(*self, event_id),
    {
        match self.find_event(event_id) {
            None => false,
            Some(i) => {
                let reserved_adults = self.sum_reserved(event_id, None, false, false);
                let reserved_children = self.sum_reserved(event_id, None, false, true);
                crate::capacity::have_vacancies(
                    self.events[i].event.max_adults,
                    self.events[i].event.max_children,
                    reserved_adults,
                    reserved_children,
                )
            },
        }
    }
}

} // verus!

verus! {

/// Every table but the message tables is the same.
pub open spec fn same_outside_outbox(a: Store, b: Store) -> bool {
    &&& a.events@ == b.events@
    &&& a.reservations@ == b.reservations@
    &&& a.attachments@ == b.attachments@
    &&& a.black_list@ == b.black_list@
    &&& a.presence@ == b.presence@
    &&& a.group_leaders@ == b.group_leaders@
    &&& a.current_events@ == b.current_events@
    &&& a.next_event_id == b.next_event_id
}

} // verus!
