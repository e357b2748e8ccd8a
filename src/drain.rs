use crate::rows::{delete_where, unselected, Selector};
use crate::store::{
    has_vacancy, same_outside_outbox, Message, OutboxEntry, Receipt, Reservation, Store,
};
use crate::order::{is_stable_order, order_by_key};
use crate::types::{MessageBatch, MessageType};
use vstd::prelude::*;

verus! {

/// The user already got the message.
pub open spec fn receipt_exists(rcs: Seq<Receipt>, message_id: u64, user: u64) -> bool {
    exists|k: int| 0 <= k < rcs.len() && rcs[k].message == message_id && rcs[k].user == user
}

/// Users holding a reservation in the message's scope who have not got it
/// yet, each once, in the order their first such row was recorded.
pub open spec fn eligible(rs: Seq<Reservation>, rcs: Seq<Receipt>, m: Message) -> Seq<u64>
    decreases rs.len(),
{
    if rs.len() == 0 {
        seq![]
    } else {
        let p = eligible(rs.drop_last(), rcs, m);
        let r = rs.last();
        if r.event == m.event && r.waiting_list == m.waiting_list && !receipt_exists(
            rcs,
            m.id,
            r.user,
        ) && !p.contains(r.user) {
            p.push(r.user)
        } else {
            p
        }
    }
}

pub open spec fn is_prompt(m: Message) -> bool {
    m.message_type == MessageType::WaitingListPrompt
}

/// A waiting-list prompt whose event has no vacancy any more.
pub open spec fn suppressed(s: Store, m: Message) -> bool {
    is_prompt(m) && !has_vacancy(s, m.event)
}

/// How many recipients a message may get with `budget` left: a prompt goes
/// to one user per poll.
pub open spec fn allowance(m: Message, budget: int) -> int {
    if is_prompt(m) && budget > 1 {
        1
    } else {
        budget
    }
}

/// The creation times of the rows.
pub open spec fn row_times(rs: Seq<Reservation>) -> Seq<u64> {
    Seq::new(rs.len(), |i: int| rs[i].ts)
}

/// The rows in the order `ord`.
pub open spec fn by_time(rs: Seq<Reservation>, ord: Seq<usize>) -> Seq<Reservation> {
    Seq::new(ord.len(), |i: int| rs[ord[i] as int])
}

/// Recipients of the message in this poll; `rows` are the reservation rows
/// oldest first.
pub open spec fn recipients(s: Store, rows: Seq<Reservation>, m: Message, budget: int) -> Seq<u64> {
    if suppressed(s, m) {
        seq![]
    } else {
        let e = eligible(rows, s.receipts@, m);
        if e.len() <= allowance(m, budget) {
            e
        } else {
            e.take(allowance(m, budget))
        }
    }
}

/// Index of the first message with the id at or after `i`, or -1.
pub open spec fn find_message_from(ms: Seq<Message>, id: u64, i: int) -> int
    decreases ms.len() - i,
{
    if i < 0 || i >= ms.len() {
        -1
    } else if ms[i].id == id {
        i
    } else {
        find_message_from(ms, id, i + 1)
    }
}

pub proof fn lemma_find_message_from(ms: Seq<Message>, id: u64, i: int)
    requires
        0 <= i,
    ensures
        find_message_from(ms, id, i) == -1 || (i <= find_message_from(ms, id, i) < ms.len()
            && ms[find_message_from(ms, id, i)].id == id),
    decreases ms.len() - i,
{
    if i < ms.len() && ms[i].id != id {
        lemma_find_message_from(ms, id, i + 1);
    }
}

/// Progress of a drain: the batches so far (index of the message, its
/// recipients), the budget left, the messages looked at, the messages found
/// finished, the finished messages whose row goes too, and whether the
/// budget ran out.
pub type Drain = (Seq<(int, Seq<u64>)>, int, Seq<u64>, Seq<u64>, Seq<u64>, bool);

/// One outbox entry of a drain. A prompt held back for want of vacancy is
/// left as it is.
pub open spec fn drain_step(s: Store, rows: Seq<Reservation>, now: u64, d: Drain, e: OutboxEntry) -> Drain {
    let k = find_message_from(s.messages@, e.message, 0);
    if d.5 || e.send_at >= now || d.2.contains(e.message) || k < 0 {
        d
    } else if d.1 <= 0 {
        (d.0, d.1, d.2, d.3, d.4, true)
    } else {
        let m = s.messages@[k];
        let rec = recipients(s, rows, m, d.1);
        if suppressed(s, m) {
            (d.0, d.1, d.2.push(m.id), d.3, d.4, false)
        } else if rec.len() == 0 {
            (d.0, d.1, d.2.push(m.id), d.3.push(m.id), d.4.push(m.id), false)
        } else {
            let left = d.1 - rec.len();
            (d.0.push((k, rec)), left, d.2.push(m.id), d.3, d.4, left <= 0)
        }
    }
}

/// The drain after the first `j` outbox entries.
pub open spec fn drain_upto(s: Store, rows: Seq<Reservation>, now: u64, budget: u64, j: int) -> Drain
    decreases j,
{
    if j <= 0 {
        (seq![], budget as int, seq![], seq![], seq![], false)
    } else {
        drain_step(s, rows, now, drain_upto(s, rows, now, budget, j - 1), s.outbox@[j - 1])
    }
}

pub open spec fn drain(s: Store, rows: Seq<Reservation>, now: u64, budget: u64) -> Drain {
    drain_upto(s, rows, now, budget, s.outbox@.len() as int)
}

/// `r` and `after` are what draining `before` gives, with `rows` the
/// reservation rows oldest first.
pub open spec fn drained(
    before: Store,
    after: Store,
    r: Seq<MessageBatch>,
    rows: Seq<Reservation>,
    now: u64,
    budget: u64,
) -> bool {
    let d = drain(before, rows, now, budget);
    &&& batches_match(r, before, d.0)
    &&& after.outbox@ == strip_outbox(before.outbox@, d.3)
    &&& after.receipts@ == strip_receipts(before.receipts@, d.3)
    &&& after.messages@ == strip_messages(before.messages@, d.4)
    &&& after.next_message_id == before.next_message_id
    &&& same_outside_outbox(before, after)
}

/// Rows of `v` left once the rows of each listed message are deleted.
pub open spec fn strip_outbox(v: Seq<OutboxEntry>, ids: Seq<u64>) -> Seq<OutboxEntry>
    decreases ids.len(),
{
    if ids.len() == 0 {
        v
    } else {
        strip_outbox(v, ids.drop_last()).filter(
            unselected::<OutboxEntry>(Selector::Message(ids.last())),
        )
    }
}

pub open spec fn strip_receipts(v: Seq<Receipt>, ids: Seq<u64>) -> Seq<Receipt>
    decreases ids.len(),
{
    if ids.len() == 0 {
        v
    } else {
        strip_receipts(v, ids.drop_last()).filter(
            unselected::<Receipt>(Selector::Message(ids.last())),
        )
    }
}

pub open spec fn strip_messages(v: Seq<Message>, ids: Seq<u64>) -> Seq<Message>
    decreases ids.len(),
{
    if ids.len() == 0 {
        v
    } else {
        strip_messages(v, ids.drop_last()).filter(
            unselected::<Message>(Selector::Message(ids.last())),
        )
    }
}

/// The batch carries the message and the recipients.
pub open spec fn batch_matches(b: MessageBatch, m: Message, rec: Seq<u64>) -> bool {
    &&& b.message_id == m.id
    &&& b.event_id == m.event
    &&& b.sender == m.sender
    &&& b.message_type == m.message_type
    &&& b.waiting_list == m.waiting_list
    &&& b.text == m.text
    &&& b.recipients@ == rec
}

pub open spec fn batches_match(bs: Seq<MessageBatch>, s: Store, d: Seq<(int, Seq<u64>)>) -> bool {
    &&& bs.len() == d.len()
    &&& forall|i: int|
        0 <= i < bs.len() ==> 0 <= #[trigger] d[i].0 < s.messages@.len() && batch_matches(
            bs[i],
            s.messages@[d[i].0],
            d[i].1,
        )
}

pub(crate) fn contains_u64(v: &Vec<u64>, x: u64) -> (r: bool)
    ensures
        r == v@.contains(x),
{
    let mut i: usize = 0;
    while i < v.len()
        invariant
            i <= v@.len(),
            forall|k: int| 0 <= k < i ==> v@[k] != x,
        decreases v@.len() - i,
    {
        if v[i] == x {
            assert(v@[i as int] == x);
            return true;
        }
        i += 1;
    }
    false
}

impl Store {
    fn has_receipt(&self, message_id: u64, user: u64) -> (r: bool)
        ensures
            r == receipt_exists(self.receipts@, message_id, user),
    {
        let mut i: usize = 0;
        while i < self.receipts.len()
            invariant
                i <= self.receipts@.len(),
                forall|k: int|
                    0 <= k < i ==> !(self.receipts@[k].message == message_id
                        && self.receipts@[k].user == user),
            decreases self.receipts@.len() - i,
        {
            if self.receipts[i].message == message_id && self.receipts[i].user == user {
                return true;
            }
            i += 1;
        }
        false
    }

    fn find_message(&self, id: u64) -> (r: Option<usize>)
        ensures
            match r {
                Some(k) => k == find_message_from(self.messages@, id, 0) && k
                    < self.messages@.len(),
                None => find_message_from(self.messages@, id, 0) == -1,
            },
    {
        proof {
            lemma_find_message_from(self.messages@, id, 0);
        }
        let mut i: usize = 0;
        while i < self.messages.len()
            invariant
                i <= self.messages@.len(),
                find_message_from(self.messages@, id, 0) == find_message_from(
                    self.messages@,
                    id,
                    i as int,
                ),
            decreases self.messages@.len() - i,
        {
            if self.messages[i].id == id {
                return Some(i);
            }
            i += 1;
        }
        None
    }

    fn eligible_users(&self, m: &Message, ord: &Vec<usize>) -> (r: Vec<u64>)
        requires
            is_stable_order(row_times(self.reservations@), ord@),
        ensures
            r@ == eligible(by_time(self.reservations@, ord@), self.receipts@, *m),
    {
        let rs = &self.reservations;
        let ghost rows = by_time(rs@, ord@);
        let mut out: Vec<u64> = Vec::new();
        let mut i: usize = 0;
        while i < ord.len()
            invariant
                i <= ord@.len(),
                rs@ == self.reservations@,
                rows == by_time(rs@, ord@),
                is_stable_order(row_times(self.reservations@), ord@),
                out@ == eligible(rows.take(i as int), self.receipts@, *m),
            decreases ord@.len() - i,
        {
            assert(rows.take(i + 1).drop_last() =~= rows.take(i as int));
            let r = &rs[ord[i]];
            if r.event == m.event && r.waiting_list == m.waiting_list {
                if !self.has_receipt(m.id, r.user) && !contains_u64(&out, r.user) {
                    out.push(r.user);
                }
            }
            i += 1;
        }
        assert(rows.take(rows.len() as int) =~= rows);
        out
    }

    fn recipients_of(&self, m: &Message, budget: u64, ord: &Vec<usize>) -> (r: Vec<u64>)
        requires
            is_stable_order(row_times(self.reservations@), ord@),
        ensures
            r@ == recipients(*self, by_time(self.reservations@, ord@), *m, budget as int),
    {
        if m.message_type == MessageType::WaitingListPrompt && !self.have_vacancies(m.event) {
            return Vec::new();
        }
        let mut e = self.eligible_users(m, ord);
        let allowance: u64 = if m.message_type == MessageType::WaitingListPrompt && budget > 1 {
            1
        } else {
            budget
        };
        if e.len() as u64 > allowance {
            e.truncate(allowance as usize);
        }
        e
    }

    /// The drain called by the poller: for each due message (scheduled before
    /// `now`, in outbox order, each message once) chooses the users who get it
    /// in this poll, within `max_messages` recipients in all. Returns as soon
    /// as the budget is used up; a message reached with no budget left keeps
    /// its entries for the next poll. Users are offered a message oldest
    /// reservation first (by creation time, then by position). A waiting-list
    /// prompt goes to at most one user per poll, and to none while its event
    /// has no vacancy: such a prompt is held back with its outbox entries and
    /// receipts kept. Any other due message with no recipient is finished:
    /// the message, its outbox entries and its receipts are deleted. The
    /// caller delivers the batches and records a receipt for each delivery.
    pub fn get_pending_messages(&mut self, now: u64, max_messages: u64) -> (r: Vec<MessageBatch>)
        ensures
            exists|ord: Seq<usize>|
                is_stable_order(row_times(old(self).reservations@), ord) && #[trigger] drained(
                    *old(self),
                    *final(self),
                    r@,
                    by_time(old(self).reservations@, ord),
                    now,
                    max_messages,
                ),
    {
        let mut keys: Vec<u64> = Vec::new();
        let mut k: usize = 0;
        while k < self.reservations.len()
            invariant
                k <= self.reservations@.len(),
                keys@ =~= row_times(self.reservations@).take(k as int),
            decreases self.reservations@.len() - k,
        {
            keys.push(self.reservations[k].ts);
            k += 1;
        }
        assert(keys@ =~= row_times(self.reservations@));
        let ord = order_by_key(&keys);
        let ghost rows = by_time(self.reservations@, ord@);
        let ghost s0 = *self;
        let mut batches: Vec<MessageBatch> = Vec::new();
        let mut budget: u64 = max_messages;
        let mut seen: Vec<u64> = Vec::new();
        let mut finished: Vec<u64> = Vec::new();
        let mut erased: Vec<u64> = Vec::new();
        let mut stop = false;
        let mut j: usize = 0;
        while j < self.outbox.len()
            invariant
                *self == s0,
                rows == by_time(s0.reservations@, ord@),
                is_stable_order(row_times(s0.reservations@), ord@),
                j <= self.outbox@.len(),
                batches_match(batches@, s0, drain_upto(s0, rows, now, max_messages, j as int).0),
                budget as int == drain_upto(s0, rows, now, max_messages, j as int).1,
                seen@ == drain_upto(s0, rows, now, max_messages, j as int).2,
                finished@ == drain_upto(s0, rows, now, max_messages, j as int).3,
                erased@ == drain_upto(s0, rows, now, max_messages, j as int).4,
                stop == drain_upto(s0, rows, now, max_messages, j as int).5,
            decreases self.outbox@.len() - j,
        {
            let e = self.outbox[j];
            if !stop && e.send_at < now && !contains_u64(&seen, e.message) {
                match self.find_message(e.message) {
                    None => {},
                    Some(k) => {
                        if budget == 0 {
                            stop = true;
                        } else {
                            let m = &self.messages[k];
                            let rec = self.recipients_of(m, budget, &ord);
                            if m.message_type == MessageType::WaitingListPrompt
                                && !self.have_vacancies(m.event) {
                                seen.push(m.id);
                            } else if rec.len() == 0 {
                                seen.push(m.id);
                                finished.push(m.id);
                                erased.push(m.id);
                            } else {
                                let n = rec.len() as u64;
                                budget = budget - n;
                                seen.push(m.id);
                                let c = crate::rows::Row::duplicate(m);
                                batches.push(
                                    MessageBatch {
                                        message_id: c.id,
                                        event_id: c.event,
                                        sender: c.sender,
                                        message_type: c.message_type,
                                        waiting_list: c.waiting_list,
                                        text: c.text,
                                        recipients: rec,
                                    },
                                );
                                stop = budget == 0;
                            }
                        }
                    },
                }
            }
            j += 1;
        }
        assert(drain(s0, rows, now, max_messages) == drain_upto(s0, rows, now, max_messages, j as int));
        let mut i: usize = 0;
        while i < finished.len()
            invariant
                i <= finished@.len(),
                self.outbox@ == strip_outbox(s0.outbox@, finished@.take(i as int)),
                self.receipts@ == strip_receipts(s0.receipts@, finished@.take(i as int)),
                self.messages@ == s0.messages@,
                self.next_message_id == s0.next_message_id,
                same_outside_outbox(s0, *self),
            decreases finished@.len() - i,
        {
            assert(finished@.take(i + 1).drop_last() =~= finished@.take(i as int));
            delete_where(&mut self.outbox, Selector::Message(finished[i]));
            delete_where(&mut self.receipts, Selector::Message(finished[i]));
            i += 1;
        }
        assert(finished@.take(finished@.len() as int) =~= finished@);
        let mut i: usize = 0;
        while i < erased.len()
            invariant
                i <= erased@.len(),
                self.messages@ == strip_messages(s0.messages@, erased@.take(i as int)),
                self.outbox@ == strip_outbox(s0.outbox@, finished@),
                self.receipts@ == strip_receipts(s0.receipts@, finished@),
                self.next_message_id == s0.next_message_id,
                same_outside_outbox(s0, *self),
            decreases erased@.len() - i,
        {
            assert(erased@.take(i + 1).drop_last() =~= erased@.take(i as int));
            delete_where(&mut self.messages, Selector::Message(erased[i]));
            i += 1;
        }
        assert(erased@.take(erased@.len() as int) =~= erased@);
        assert(drained(s0, *self, batches@, rows, now, max_messages));
        batches
    }
}

} // verus!

verus! {

proof fn lemma_drain_batches_shape(s: Store, rows: Seq<Reservation>, now: u64, budget: u64, j: int)
    requires
        0 <= j <= s.outbox@.len(),
    ensures
        ({
            let d = drain_upto(s, rows, now, budget, j);
            &&& forall|i: int|
                #![trigger d.0[i]]
                0 <= i < d.0.len() ==> {
                    &&& 0 <= d.0[i].0 < s.messages@.len()
                    &&& (is_prompt(s.messages@[d.0[i].0]) ==> d.0[i].1.len() <= 1)
                    &&& d.2.contains(s.messages@[d.0[i].0].id)
                }
            &&& forall|a: int, b: int|
                #![trigger d.0[a], d.0[b]]
                0 <= a < b < d.0.len() ==> s.messages@[d.0[a].0].id != s.messages@[d.0[b].0].id
        }),
    decreases j,
{
    if j > 0 {
        lemma_drain_batches_shape(s, rows, now, budget, j - 1);
        let d = drain_upto(s, rows, now, budget, j - 1);
        let e = s.outbox@[j - 1];
        lemma_find_message_from(s.messages@, e.message, 0);
        let k = find_message_from(s.messages@, e.message, 0);
        let n = drain_upto(s, rows, now, budget, j);
        if !(d.5 || e.send_at >= now || d.2.contains(e.message) || k < 0) && d.1 > 0 {
            let m = s.messages@[k];
            let rec = recipients(s, rows, m, d.1);
            assert forall|i: int| 0 <= i < d.0.len() implies #[trigger] d.2.push(m.id).contains(
                s.messages@[d.0[i].0].id,
            ) by {
                let w = choose|w: int| 0 <= w < d.2.len() && d.2[w] == s.messages@[d.0[i].0].id;
                assert(d.2.push(m.id)[w] == s.messages@[d.0[i].0].id);
            }
            assert(d.2.push(m.id)[d.2.len() as int] == m.id);
            if rec.len() > 0 {
                assert(n.0 == d.0.push((k, rec)));
                assert(n.2 == d.2.push(m.id));
            }
        }
    }
}

/// A drain gives a waiting-list prompt at most one recipient, and deals
/// with each message in at most one batch.
pub proof fn lemma_prompt_single_recipient(s: Store, rows: Seq<Reservation>, now: u64, budget: u64)
    ensures
        forall|i: int|
            #![trigger drain(s, rows, now, budget).0[i]]
            0 <= i < drain(s, rows, now, budget).0.len() && is_prompt(
                s.messages@[drain(s, rows, now, budget).0[i].0],
            ) ==> drain(s, rows, now, budget).0[i].1.len() <= 1,
        forall|a: int, b: int|
            #![trigger drain(s, rows, now, budget).0[a], drain(s, rows, now, budget).0[b]]
            0 <= a < b < drain(s, rows, now, budget).0.len() ==> s.messages@[drain(s, rows, now, budget).0[a].0].id != s.messages@[drain(s, rows, now, budget).0[b].0].id,
{
    lemma_drain_batches_shape(s, rows, now, budget, s.outbox@.len() as int);
}

proof fn lemma_drain_idle(s: Store, rows: Seq<Reservation>, now: u64, budget: u64, p: int, j: int)
    requires
        0 <= j <= p <= s.outbox@.len(),
        forall|q: int| 0 <= q < p ==> s.outbox@[q].send_at >= now,
    ensures
        drain_upto(s, rows, now, budget, j) == drain_upto(s, rows, now, budget, 0),
    decreases j,
{
    if j > 0 {
        lemma_drain_idle(s, rows, now, budget, p, j - 1);
    }
}

proof fn lemma_drain_stopped(s: Store, rows: Seq<Reservation>, now: u64, budget: u64, p: int, j: int)
    requires
        0 <= p <= j <= s.outbox@.len(),
        drain_upto(s, rows, now, budget, p).5,
    ensures
        drain_upto(s, rows, now, budget, j) == drain_upto(s, rows, now, budget, p),
    decreases j - p,
{
    if j > p {
        lemma_drain_stopped(s, rows, now, budget, p, j - 1);
    }
}

/// When the first due outbox entry is for a message that is not a prompt
/// and has more eligible users than the budget, the drain hands out exactly
/// the budget, to the first of those users, finishes no message, and so
/// leaves the outbox as it was for the next poll.
pub proof fn lemma_budget_exhausted(s: Store, rows: Seq<Reservation>, now: u64, budget: u64, p: int)
    requires
        0 <= p < s.outbox@.len(),
        forall|q: int| 0 <= q < p ==> s.outbox@[q].send_at >= now,
        s.outbox@[p].send_at < now,
        find_message_from(s.messages@, s.outbox@[p].message, 0) >= 0,
        !is_prompt(s.messages@[find_message_from(s.messages@, s.outbox@[p].message, 0)]),
        0 < budget < eligible(
            rows,
            s.receipts@,
            s.messages@[find_message_from(s.messages@, s.outbox@[p].message, 0)],
        ).len(),
    ensures
        ({
            let k = find_message_from(s.messages@, s.outbox@[p].message, 0);
            let rec = eligible(rows, s.receipts@, s.messages@[k]).take(budget as int);
            &&& drain(s, rows, now, budget).0 == seq![(k, rec)]
            &&& rec.len() == budget
            &&& drain(s, rows, now, budget).3 == Seq::<u64>::empty()
            &&& drain(s, rows, now, budget).4 == Seq::<u64>::empty()
            &&& strip_outbox(s.outbox@, drain(s, rows, now, budget).3) == s.outbox@
        }),
{
    lemma_drain_idle(s, rows, now, budget, p, p);
    let k = find_message_from(s.messages@, s.outbox@[p].message, 0);
    let d = drain_upto(s, rows, now, budget, p);
    assert(!d.2.contains(s.outbox@[p].message));
    let m = s.messages@[k];
    assert(!suppressed(s, m));
    assert(recipients(s, rows, m, budget as int) == eligible(rows, s.receipts@, m).take(
        budget as int,
    ));
    let n = drain_upto(s, rows, now, budget, p + 1);
    assert(n.5);
    assert(n.0 =~= seq![(k, eligible(rows, s.receipts@, m).take(budget as int))]);
    lemma_drain_stopped(s, rows, now, budget, p + 1, s.outbox@.len() as int);
}

} // verus!
