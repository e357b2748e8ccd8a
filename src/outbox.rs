use crate::store::{
    event_index, has_vacancy, same_outside_outbox, Message, OutboxEntry, Receipt, Store,
    StoreError,
};
use crate::types::MessageType;
use vstd::prelude::*;
use vstd::string::StringExecFns;

verus! {

/// Delay before a waiting-list prompt goes out, absorbing bursts of
/// cancellations.
pub const PROMPT_DELAY: u64 = 10;

/// The time a prompt scheduled at `now` is due.
pub open spec fn debounced(now: u64) -> u64 {
    if now > u64::MAX - PROMPT_DELAY {
        u64::MAX
    } else {
        (now + PROMPT_DELAY) as u64
    }
}

pub open spec fn is_prompt_of(m: Message, event_id: u64) -> bool {
    m.event == event_id && m.message_type == MessageType::WaitingListPrompt
}

/// Index of the first waiting-list prompt of the event at or after `i`, or -1.
pub open spec fn find_prompt_from(ms: Seq<Message>, event_id: u64, i: int) -> int
    decreases ms.len() - i,
{
    if i < 0 || i >= ms.len() {
        -1
    } else if is_prompt_of(ms[i], event_id) {
        i
    } else {
        find_prompt_from(ms, event_id, i + 1)
    }
}

pub proof fn lemma_find_prompt_from(ms: Seq<Message>, event_id: u64, i: int)
    requires
        0 <= i,
    ensures
        find_prompt_from(ms, event_id, i) == -1 || (i <= find_prompt_from(ms, event_id, i) < ms.len()
            && is_prompt_of(ms[find_prompt_from(ms, event_id, i)], event_id)),
    decreases ms.len() - i,
{
    if i < ms.len() && !is_prompt_of(ms[i], event_id) {
        lemma_find_prompt_from(ms, event_id, i + 1);
    }
}

/// Every message id is below the id the next message gets, so that id is
/// fresh.
pub open spec fn message_ids_below(s: Store) -> bool {
    forall|i: int| 0 <= i < s.messages@.len() ==> #[trigger] s.messages@[i].id < s.next_message_id
}

/// The text of the prompt sent to the waiting list of an event.
pub open spec fn prompt_text(name: Seq<char>) -> Seq<char> {
    "Places are available again at \""@ + name + "\". You can sign up now."@
}

/// `after` is `before` with one new message of the next id and one outbox
/// entry for it.
pub open spec fn enqueued(
    before: Store,
    after: Store,
    event_id: u64,
    waiting_list: bool,
    message_type: MessageType,
    send_at: u64,
    now: u64,
) -> bool {
    let id = before.next_message_id;
    &&& before.next_message_id < u64::MAX
    &&& after.next_message_id == id + 1
    &&& after.messages@.len() == before.messages@.len() + 1
    &&& after.messages@.drop_last() == before.messages@
    &&& after.messages@.last().id == id
    &&& after.messages@.last().event == event_id
    &&& after.messages@.last().message_type == message_type
    &&& after.messages@.last().waiting_list == waiting_list
    &&& after.messages@.last().ts == now
    &&& after.outbox@ == before.outbox@.push(OutboxEntry { message: id, send_at })
    &&& after.receipts@ == before.receipts@
    &&& same_outside_outbox(before, after)
}

/// What scheduling a waiting-list prompt does to the store.
pub open spec fn prompt_effect(
    before: Store,
    after: Store,
    event_id: u64,
    now: u64,
    r: Result<(), StoreError>,
) -> bool {
    if !has_vacancy(before, event_id) {
        after == before && r is Ok
    } else {
        let k = find_prompt_from(before.messages@, event_id, 0);
        if k >= 0 {
            &&& r is Ok
            &&& after.outbox@ == before.outbox@.push(
                OutboxEntry { message: before.messages@[k].id, send_at: debounced(now) },
            )
            &&& after.messages@ == before.messages@
            &&& after.receipts@ == before.receipts@
            &&& after.next_message_id == before.next_message_id
            &&& same_outside_outbox(before, after)
        } else {
            match r {
                Ok(_) => {
                    &&& enqueued(
                        before,
                        after,
                        event_id,
                        true,
                        MessageType::WaitingListPrompt,
                        debounced(now),
                        now,
                    )
                    &&& after.messages@.last().sender@ == "Bot"@
                    &&& after.messages@.last().text@ == prompt_text(
                        before.events@[event_index(before.events@, event_id)].event.name@,
                    )
                },
                Err(e) => e == StoreError::IdsExhausted && before.next_message_id == u64::MAX
                    && after == before,
            }
        }
    }
}

impl Store {
    /// Records a message and schedules its first dispatch at `send_at`.
    pub fn enqueue_message(
        &mut self,
        event_id: u64,
        sender: &str,
        waiting_list: bool,
        message_type: MessageType,
        text: &str,
        send_at: u64,
        now: u64,
    ) -> (r: Result<u64, StoreError>)
        ensures
            match r {
                Ok(id) => {
                    &&& id == old(self).next_message_id
                    &&& enqueued(
                        *old(self),
                        *final(self),
                        event_id,
                        waiting_list,
                        message_type,
                        send_at,
                        now,
                    )
                    &&& final(self).messages@.last().sender@ == sender@
                    &&& final(self).messages@.last().text@ == text@
                    &&& message_ids_below(*old(self)) ==> message_ids_below(*final(self))
                        && forall|i: int|
                        0 <= i < old(self).messages@.len() ==> old(self).messages@[i].id != id
                },
                Err(e) => e == StoreError::IdsExhausted && old(self).next_message_id == u64::MAX
                    && *final(self) == *old(self),
            },
    {
        if self.next_message_id == u64::MAX {
            return Err(StoreError::IdsExhausted);
        }
        let id = self.next_message_id;
        self.messages.push(
            Message {
                id,
                event: event_id,
                message_type,
                sender: sender.to_owned(),
                waiting_list,
                text: text.to_owned(),
                ts: now,
            },
        );
        self.outbox.push(OutboxEntry { message: id, send_at });
        self.next_message_id = id + 1;
        proof {
            assert(self.messages@.drop_last() =~= old(self).messages@);
        }
        Ok(id)
    }

    /// Position of the first waiting-list prompt of the event.
    fn find_prompt(&self, event_id: u64) -> (r: Option<usize>)
        ensures
            match r {
                Some(k) => k == find_prompt_from(self.messages@, event_id, 0) && k
                    < self.messages@.len(),
                None => find_prompt_from(self.messages@, event_id, 0) == -1,
            },
    {
        proof {
            lemma_find_prompt_from(self.messages@, event_id, 0);
        }
        let mut i: usize = 0;
        while i < self.messages.len()
            invariant
                i <= self.messages@.len(),
                find_prompt_from(self.messages@, event_id, 0) == find_prompt_from(
                    self.messages@,
                    event_id,
                    i as int,
                ),
            decreases self.messages@.len() - i,
        {
            if self.messages[i].event == event_id && self.messages[i].message_type
                == MessageType::WaitingListPrompt {
                return Some(i);
            }
            i += 1;
        }
        None
    }

    /// Offers freed places to the waiting list: when the event has vacancy,
    /// schedules its prompt (re-arming an existing one) after the delay.
    /// Recipients are chosen only when the outbox is drained.
    pub fn prompt_waiting_list(&mut self, event_id: u64, now: u64) -> (r: Result<(), StoreError>)
        ensures
            prompt_effect(*old(self), *final(self), event_id, now, r),
    {
        if !self.have_vacancies(event_id) {
            return Ok(());
        }
        let send_at = now.saturating_add(PROMPT_DELAY);
        match self.find_prompt(event_id) {
            Some(k) => {
                let id = self.messages[k].id;
                self.outbox.push(OutboxEntry { message: id, send_at });
                Ok(())
            },
            None => {
                let i = match self.find_event(event_id) {
                    Some(i) => i,
                    None => {
                        return Ok(());
                    },
                };
                let mut text = String::from_str("Places are available again at \"");
                text.append(self.events[i].event.name.as_str());
                text.append("\". You can sign up now.");
                match self.enqueue_message(
                    event_id,
                    "Bot",
                    true,
                    MessageType::WaitingListPrompt,
                    text.as_str(),
                    send_at,
                    now,
                ) {
                    Ok(_) => Ok(()),
                    Err(e) => Err(e),
                }
            },
        }
    }

    /// Records that the message has reached the user.
    pub fn save_receipt(&mut self, message_id: u64, user: u64, now: u64)
        ensures
            final(self).receipts@ == old(self).receipts@.push(
                Receipt { message: message_id, user, ts: now },
            ),
            final(self).messages@ == old(self).messages@,
            final(self).outbox@ == old(self).outbox@,
            final(self).next_message_id == old(self).next_message_id,
            same_outside_outbox(*old(self), *final(self)),
    {
        self.receipts.push(Receipt { message: message_id, user, ts: now });
    }
}

} // verus!
