use crate::store::{
    Attachment, BlacklistEntry, EventRecord, Mark, Message, OutboxEntry, Receipt, Reservation,
};
use crate::types::Event;
use vstd::prelude::*;

verus! {

/// Which rows of a table a deletion removes.
#[derive(PartialEq, Eq, Structural, Clone, Copy, Debug)]
pub enum Selector {
    /// Rows of the event.
    Event(u64),
    /// Rows of the user.
    User(u64),
    /// Rows of the user for the event.
    EventUser(u64, u64),
    /// Rows of the message.
    Message(u64),
    /// Rows recorded before the time.
    Before(u64),
}

/// A row of one of the tables.
pub trait Row: Sized {
    spec fn selected_by(&self, sel: Selector) -> bool;

    fn is_selected(&self, sel: Selector) -> (r: bool)
        ensures
            r == self.selected_by(sel);

    fn duplicate(&self) -> (r: Self)
        ensures
            r == *self;
}

pub open spec fn unselected<T: Row>(sel: Selector) -> spec_fn(T) -> bool {
    |r: T| !r.selected_by(sel)
}

pub proof fn lemma_filter_take_step<A>(s: Seq<A>, p: spec_fn(A) -> bool, i: int)
    requires
        0 <= i < s.len(),
    ensures
        s.take(i + 1).filter(p) == (if p(s[i]) {
            s.take(i).filter(p).push(s[i])
        } else {
            s.take(i).filter(p)
        }),
{
    reveal(Seq::filter);
    assert(s.take(i + 1).drop_last() =~= s.take(i));
}

/// Deletes the selected rows, keeping the order of the others.
pub fn delete_where<T: Row>(v: &mut Vec<T>, sel: Selector)
    ensures
        final(v)@ == old(v)@.filter(unselected::<T>(sel)),
{
    let mut kept: Vec<T> = Vec::new();
    let mut i: usize = 0;
    while i < v.len()
        invariant
            i <= v@.len(),
            v@ == old(v)@,
            kept@ == v@.take(i as int).filter(unselected::<T>(sel)),
        decreases v@.len() - i,
    {
        proof {
            lemma_filter_take_step(v@, unselected::<T>(sel), i as int);
        }
        if !v[i].is_selected(sel) {
            kept.push(v[i].duplicate());
        }
        i += 1;
    }
    assert(v@.take(v@.len() as int) =~= v@);
    *v = kept;
}

fn copy_event(e: &Event) -> (r: Event)
    ensures
        r == *e,
{
    Event {
        id: e.id,
        name: e.name.clone(),
        link: e.link.clone(),
        max_adults: e.max_adults,
        max_children: e.max_children,
        max_adults_per_reservation: e.max_adults_per_reservation,
        max_children_per_reservation: e.max_children_per_reservation,
        ts: e.ts,
        remind: e.remind,
    }
}

impl Row for EventRecord {
    open spec fn selected_by(&self, sel: Selector) -> bool {
        match sel {
            Selector::Event(e) => self.event.id == e,
            _ => false,
        }
    }

    fn is_selected(&self, sel: Selector) -> (r: bool) {
        match sel {
            Selector::Event(e) => self.event.id == e,
            _ => false,
        }
    }

    fn duplicate(&self) -> (r: Self) {
        EventRecord { event: copy_event(&self.event), state: self.state }
    }
}

impl Row for Reservation {
    open spec fn selected_by(&self, sel: Selector) -> bool {
        match sel {
            Selector::Event(e) => self.event == e,
            Selector::User(u) => self.user == u,
            Selector::EventUser(e, u) => self.event == e && self.user == u,
            _ => false,
        }
    }

    fn is_selected(&self, sel: Selector) -> (r: bool) {
        match sel {
            Selector::Event(e) => self.event == e,
            Selector::User(u) => self.user == u,
            Selector::EventUser(e, u) => self.event == e && self.user == u,
            _ => false,
        }
    }

    fn duplicate(&self) -> (r: Self) {
        Reservation {
            event: self.event,
            user: self.user,
            user_name1: self.user_name1.clone(),
            user_name2: self.user_name2.clone(),
            adults: self.adults,
            children: self.children,
            waiting_list: self.waiting_list,
            ts: self.ts,
        }
    }
}

impl Row for Attachment {
    open spec fn selected_by(&self, sel: Selector) -> bool {
        match sel {
            Selector::Event(e) => self.event == e,
            Selector::EventUser(e, u) => self.event == e && self.user == u,
            _ => false,
        }
    }

    fn is_selected(&self, sel: Selector) -> (r: bool) {
        match sel {
            Selector::Event(e) => self.event == e,
            Selector::EventUser(e, u) => self.event == e && self.user == u,
            _ => false,
        }
    }

    fn duplicate(&self) -> (r: Self) {
        Attachment { event: self.event, user: self.user, text: self.text.clone() }
    }
}

impl Row for BlacklistEntry {
    open spec fn selected_by(&self, sel: Selector) -> bool {
        match sel {
            Selector::User(u) => self.user == u,
            Selector::Before(t) => self.ts < t,
            _ => false,
        }
    }

    fn is_selected(&self, sel: Selector) -> (r: bool) {
        match sel {
            Selector::User(u) => self.user == u,
            Selector::Before(t) => self.ts < t,
            _ => false,
        }
    }

    fn duplicate(&self) -> (r: Self) {
        BlacklistEntry {
            user: self.user,
            user_name1: self.user_name1.clone(),
            user_name2: self.user_name2.clone(),
            ts: self.ts,
            reason: self.reason.clone(),
        }
    }
}

impl Row for Mark {
    open spec fn selected_by(&self, sel: Selector) -> bool {
        match sel {
            Selector::Event(e) => self.event == e,
            Selector::EventUser(e, u) => self.event == e && self.user == u,
            _ => false,
        }
    }

    fn is_selected(&self, sel: Selector) -> (r: bool) {
        match sel {
            Selector::Event(e) => self.event == e,
            Selector::EventUser(e, u) => self.event == e && self.user == u,
            _ => false,
        }
    }

    fn duplicate(&self) -> (r: Self) {
        *self
    }
}

impl Row for Message {
    open spec fn selected_by(&self, sel: Selector) -> bool {
        match sel {
            Selector::Event(e) => self.event == e,
            Selector::Message(m) => self.id == m,
            _ => false,
        }
    }

    fn is_selected(&self, sel: Selector) -> (r: bool) {
        match sel {
            Selector::Event(e) => self.event == e,
            Selector::Message(m) => self.id == m,
            _ => false,
        }
    }

    fn duplicate(&self) -> (r: Self) {
        Message {
            id: self.id,
            event: self.event,
            message_type: self.message_type,
            sender: self.sender.clone(),
            waiting_list: self.waiting_list,
            text: self.text.clone(),
            ts: self.ts,
        }
    }
}

impl Row for OutboxEntry {
    open spec fn selected_by(&self, sel: Selector) -> bool {
        match sel {
            Selector::Message(m) => self.message == m,
            _ => false,
        }
    }

    fn is_selected(&self, sel: Selector) -> (r: bool) {
        match sel {
            Selector::Message(m) => self.message == m,
            _ => false,
        }
    }

    fn duplicate(&self) -> (r: Self) {
        *self
    }
}

impl Row for Receipt {
    open spec fn selected_by(&self, sel: Selector) -> bool {
        match sel {
            Selector::Message(m) => self.message == m,
            _ => false,
        }
    }

    fn is_selected(&self, sel: Selector) -> (r: bool) {
        match sel {
            Selector::Message(m) => self.message == m,
            _ => false,
        }
    }

    fn duplicate(&self) -> (r: Self) {
        *self
    }
}

} // verus!
