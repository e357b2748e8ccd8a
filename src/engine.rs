use crate::outbox::prompt_effect;
use crate::rows::{delete_where, unselected, Selector};
use crate::store::{
    blacklisted, event_index, has_vacancy, lemma_sum_filter, lemma_sum_remove,
    lemma_sum_update, sum_qty, EventRecord, Reservation, Store, StoreError,
};
use crate::types::{EventState, SignUpOutcome, User};
use vstd::prelude::*;

verus! {

/// The user holds a reservation for another existing event that takes place
/// at `ts`.
pub open spec fn has_conflict(
    evs: Seq<EventRecord>,
    rs: Seq<Reservation>,
    user: u64,
    event_id: u64,
    ts: u64,
) -> bool {
    exists|i: int, j: int|
        #![trigger rs[i], evs[j]]
        0 <= i < rs.len() && 0 <= j < evs.len() && rs[i].user == user && rs[i].event != event_id
            && evs[j].event.id == rs[i].event && evs[j].event.ts == ts
}

/// A waiting-list row of the user for the event with exactly this split.
pub open spec fn waiting_shape(
    r: Reservation,
    event_id: u64,
    user: u64,
    adults: u64,
    children: u64,
) -> bool {
    r.event == event_id && r.user == user && r.waiting_list && r.adults == adults && r.children
        == children
}

/// Row `i` is the oldest such waiting-list row (earliest creation time, then
/// earliest position).
pub open spec fn is_oldest_waiting(
    rs: Seq<Reservation>,
    i: int,
    event_id: u64,
    user: u64,
    adults: u64,
    children: u64,
) -> bool {
    &&& 0 <= i < rs.len()
    &&& waiting_shape(rs[i], event_id, user, adults, children)
    &&& forall|j: int|
        0 <= j < rs.len() && #[trigger] waiting_shape(rs[j], event_id, user, adults, children)
            ==> rs[i].ts < rs[j].ts || (rs[i].ts == rs[j].ts && i <= j)
}

/// `after` is `before` with the oldest such waiting-list row made active, or
/// `before` itself when there is no such row.
pub open spec fn promoted(
    before: Seq<Reservation>,
    after: Seq<Reservation>,
    event_id: u64,
    user: u64,
    adults: u64,
    children: u64,
) -> bool {
    ||| exists|i: int|
        is_oldest_waiting(before, i, event_id, user, adults, children) && after == before.update(
            i,
            Reservation { waiting_list: false, ..before[i] },
        )
    ||| (forall|j: int|
        0 <= j < before.len() ==> !waiting_shape(#[trigger] before[j], event_id, user, adults, children))
        && after == before
}

/// What `sign_up` decides, in the order the checks are made.
pub open spec fn sign_up_outcome(
    s: Store,
    event_id: u64,
    user: u64,
    is_admin: bool,
    adults: u64,
    children: u64,
    ts: u64,
) -> SignUpOutcome {
    let i = event_index(s.events@, event_id);
    if i < 0 {
        SignUpOutcome::NotFound
    } else {
        let e = s.events@[i];
        let rs = s.reservations@;
        let my_adults = sum_qty(rs, event_id, Some(user), false, false);
        let my_wait_adults = sum_qty(rs, event_id, Some(user), true, false);
        let my_children = sum_qty(rs, event_id, Some(user), false, true);
        let my_wait_children = sum_qty(rs, event_id, Some(user), true, true);
        if ts > e.event.ts || (e.state == EventState::Closed && !is_admin) {
            SignUpOutcome::RejectedClosedOrExpired
        } else if blacklisted(s.black_list@, user) {
            SignUpOutcome::RejectedBlacklisted
        } else if has_conflict(s.events@, rs, user, event_id, e.event.ts) {
            SignUpOutcome::RejectedConflict
        } else if my_adults + my_wait_adults + adults > e.event.max_adults_per_reservation {
            if my_adults + adults > e.event.max_adults_per_reservation {
                SignUpOutcome::RejectedCapacity
            } else {
                SignUpOutcome::PromotedFromWaiting
            }
        } else if my_children + my_wait_children + children
            > e.event.max_children_per_reservation {
            if my_children + children > e.event.max_children_per_reservation {
                SignUpOutcome::RejectedCapacity
            } else {
                SignUpOutcome::PromotedFromWaiting
            }
        } else {
            SignUpOutcome::Inserted
        }
    }
}

/// No user holds more active adults for an event than the event's per-user
/// limit allows.
pub open spec fn within_user_caps(s: Store) -> bool {
    forall|id: u64, user: u64|
        #![trigger event_index(s.events@, id), sum_qty(s.reservations@, id, Some(user), false, false)]
        event_index(s.events@, id) >= 0 ==> sum_qty(s.reservations@, id, Some(user), false, false)
            <= s.events@[event_index(s.events@, id)].event.max_adults_per_reservation
}

/// No user holds more active adults for the event than its per-user limit
/// allows.
pub open spec fn event_within_caps(s: Store, id: u64) -> bool {
    event_index(s.events@, id) >= 0 ==> forall|user: u64|
        #[trigger] sum_qty(s.reservations@, id, Some(user), false, false)
            <= s.events@[event_index(s.events@, id)].event.max_adults_per_reservation
}

/// Only the reservation table differs.
pub open spec fn same_but_reservations(a: Store, b: Store) -> bool {
    &&& a.events@ == b.events@
    &&& a.attachments@ == b.attachments@
    &&& a.black_list@ == b.black_list@
    &&& a.presence@ == b.presence@
    &&& a.group_leaders@ == b.group_leaders@
    &&& a.current_events@ == b.current_events@
    &&& a.messages@ == b.messages@
    &&& a.outbox@ == b.outbox@
    &&& a.receipts@ == b.receipts@
    &&& a.next_event_id == b.next_event_id
    &&& a.next_message_id == b.next_message_id
}

/// Index of the first row at or after `i` that `p` holds of, or -1.
pub open spec fn first_row_from(rs: Seq<Reservation>, p: spec_fn(Reservation) -> bool, i: int) -> int
    decreases rs.len() - i,
{
    if i < 0 || i >= rs.len() {
        -1
    } else if p(rs[i]) {
        i
    } else {
        first_row_from(rs, p, i + 1)
    }
}

pub proof fn lemma_first_row_from(rs: Seq<Reservation>, p: spec_fn(Reservation) -> bool, i: int)
    requires
        0 <= i,
    ensures
        first_row_from(rs, p, i) == -1 || (i <= first_row_from(rs, p, i) < rs.len() && p(
            rs[first_row_from(rs, p, i)],
        )),
        first_row_from(rs, p, i) == -1 ==> forall|k: int| i <= k < rs.len() ==> !p(rs[k]),
    decreases rs.len() - i,
{
    if i < rs.len() && !p(rs[i]) {
        lemma_first_row_from(rs, p, i + 1);
    }
}

pub open spec fn cancel_match(event_id: u64, user: u64, adults: u64, waiting_only: bool) -> spec_fn(
    Reservation,
) -> bool {
    |r: Reservation|
        r.event == event_id && r.user == user && r.adults == adults && (r.waiting_list
            || !waiting_only)
}

/// The row that `cancel` deletes: the first matching waiting-list row, else
/// the first matching row; -1 when none matches.
pub open spec fn cancel_target(rs: Seq<Reservation>, event_id: u64, user: u64, adults: u64) -> int {
    let w = first_row_from(rs, cancel_match(event_id, user, adults, true), 0);
    if w >= 0 {
        w
    } else {
        first_row_from(rs, cancel_match(event_id, user, adults, false), 0)
    }
}

pub open spec fn not_of(event_id: u64, user: u64) -> spec_fn(Reservation) -> bool {
    |r: Reservation| !(r.event == event_id && r.user == user)
}

/// What happens to the message tables after a removal: a prompt is scheduled
/// when the event had no vacancy before (`mid` is the store right after the
/// removal).
pub open spec fn after_removal(
    before: Store,
    mid: Store,
    after: Store,
    event_id: u64,
    now: u64,
    r: Result<(), StoreError>,
) -> bool {
    if has_vacancy(before, event_id) {
        after == mid && r is Ok
    } else {
        prompt_effect(mid, after, event_id, now, r)
    }
}

/// The reservation table after `cancel` removed its row.
pub open spec fn cancelled(rs: Seq<Reservation>, event_id: u64, user: u64, adults: u64) -> Seq<
    Reservation,
> {
    let t = cancel_target(rs, event_id, user, adults);
    if t >= 0 {
        rs.remove(t)
    } else {
        rs
    }
}

/// `mid` is `before` with the reservation table replaced by `rows`, and
/// `after` is `mid` once the waiting list was prompted where due.
pub open spec fn removed_then_prompted(
    before: Store,
    mid: Store,
    after: Store,
    rows: Seq<Reservation>,
    event_id: u64,
    now: u64,
    r: Result<(), StoreError>,
) -> bool {
    &&& mid.reservations@ == rows
    &&& same_but_reservations(before, mid)
    &&& after_removal(before, mid, after, event_id, now, r)
}

impl Store {
    fn has_time_conflict(&self, user: u64, event_id: u64, ts: u64) -> (r: bool)
        ensures
            r == has_conflict(self.events@, self.reservations@, user, event_id, ts),
    {
        let rs = &self.reservations;
        let evs = &self.events;
        let mut i: usize = 0;
        while i < rs.len()
            invariant
                i <= rs@.len(),
                rs@ == self.reservations@,
                evs@ == self.events@,
                forall|a: int, b: int|
                    #![trigger rs@[a], evs@[b]]
                    0 <= a < i && 0 <= b < evs@.len() ==> !(rs@[a].user == user && rs@[a].event
                        != event_id && evs@[b].event.id == rs@[a].event && evs@[b].event.ts == ts),
            decreases rs@.len() - i,
        {
            if rs[i].user == user && rs[i].event != event_id {
                let mut j: usize = 0;
                while j < evs.len()
                    invariant
                        i < rs@.len(),
                        rs@ == self.reservations@,
                        evs@ == self.events@,
                        j <= evs@.len(),
                        rs@[i as int].user == user && rs@[i as int].event != event_id,
                        forall|b: int|
                            0 <= b < j ==> !(#[trigger] evs@[b].event.id == rs@[i as int].event
                                && evs@[b].event.ts == ts),
                        forall|a: int, b: int|
                            #![trigger rs@[a], evs@[b]]
                            0 <= a < i && 0 <= b < evs@.len() ==> !(rs@[a].user == user
                                && rs@[a].event != event_id && evs@[b].event.id == rs@[a].event
                                && evs@[b].event.ts == ts),
                    decreases evs@.len() - j,
                {
                    if evs[j].event.id == rs[i].event && evs[j].event.ts == ts {
                        proof {
                            let a = i as int;
                            let b = j as int;
                            assert(0 <= a < self.reservations@.len() && 0 <= b < self.events@.len()
                                && self.reservations@[a].user == user
                                && self.reservations@[a].event != event_id
                                && self.events@[b].event.id == self.reservations@[a].event
                                && self.events@[b].event.ts == ts);
                            assert(has_conflict(self.events@, self.reservations@, user, event_id, ts));
                        }
                        return true;
                    }
                    j += 1;
                }
            }
            i += 1;
        }
        false
    }

    fn oldest_waiting(&self, event_id: u64, user: u64, adults: u64, children: u64) -> (r: Option<
        usize,
    >)
        ensures
            match r {
                Some(i) => is_oldest_waiting(
                    self.reservations@,
                    i as int,
                    event_id,
                    user,
                    adults,
                    children,
                ),
                None => forall|j: int|
                    0 <= j < self.reservations@.len() ==> !waiting_shape(
                        #[trigger] self.reservations@[j],
                        event_id,
                        user,
                        adults,
                        children,
                    ),
            },
    {
        let rs = &self.reservations;
        let mut best: Option<usize> = None;
        let mut i: usize = 0;
        while i < rs.len()
            invariant
                i <= rs@.len(),
                match best {
                    Some(b) => b < i && waiting_shape(rs@[b as int], event_id, user, adults, children)
                        && forall|j: int|
                        0 <= j < i && #[trigger] waiting_shape(
                            rs@[j],
                            event_id,
                            user,
                            adults,
                            children,
                        ) ==> rs@[b as int].ts < rs@[j].ts || (rs@[b as int].ts == rs@[j].ts && b
                            <= j),
                    None => forall|j: int|
                        0 <= j < i ==> !waiting_shape(
                            #[trigger] rs@[j],
                            event_id,
                            user,
                            adults,
                            children,
                        ),
                },
            decreases rs@.len() - i,
        {
            let r = &rs[i];
            if r.event == event_id && r.user == user && r.waiting_list && r.adults == adults
                && r.children == children {
                match best {
                    None => {
                        best = Some(i);
                    },
                    Some(b) => {
                        if r.ts < rs[b].ts {
                            best = Some(i);
                        }
                    },
                }
            }
            i += 1;
        }
        best
    }

    /// Makes the user's oldest waiting-list row of exactly this split active.
    fn move_from_waiting_list(&mut self, event_id: u64, user: u64, adults: u64, children: u64)
        ensures
            promoted(
                old(self).reservations@,
                final(self).reservations@,
                event_id,
                user,
                adults,
                children,
            ),
            same_but_reservations(*old(self), *final(self)),
    {
        match self.oldest_waiting(event_id, user, adults, children) {
            None => {},
            Some(i) => {
                let ghost before = self.reservations@;
                let mut row = self.reservations.remove(i);
                row.waiting_list = false;
                self.reservations.insert(i, row);
                proof {
                    assert(self.reservations@ =~= before.update(
                        i as int,
                        Reservation { waiting_list: false, ..before[i as int] },
                    ));
                }
            },
        }
    }

    /// Records a sign-up of `user` for the event. Checks, in order: the event
    /// exists; `ts` is not after the event and the event is open (admins may
    /// sign up to closed events); the user is not banned; the user holds no
    /// reservation for another event at the same time; the user's own limits.
    /// Where the user's active and waiting places together with the request
    /// exceed a limit but the active ones with the request do not, the user's
    /// oldest waiting-list row of this split becomes active instead of a new
    /// row. Whether a new row waits is the caller's decision (`wait`); the
    /// event-wide limits are not checked here. Sign-ups must be serialized by
    /// the caller.
    pub fn sign_up(
        &mut self,
        event_id: u64,
        user: &User,
        adults: u64,
        children: u64,
        wait: bool,
        ts: u64,
    ) -> (r: SignUpOutcome)
        ensures
            r == sign_up_outcome(*old(self), event_id, user.id, user.is_admin, adults, children, ts),
            r == SignUpOutcome::Inserted ==> final(self).reservations@ == old(self).reservations@.push(
                Reservation {
                    event: event_id,
                    user: user.id,
                    user_name1: user.user_name1,
                    user_name2: user.user_name2,
                    adults,
                    children,
                    waiting_list: wait,
                    ts,
                },
            ),
            r == SignUpOutcome::PromotedFromWaiting ==> promoted(
                old(self).reservations@,
                final(self).reservations@,
                event_id,
                user.id,
                adults,
                children,
            ),
            r != SignUpOutcome::Inserted && r != SignUpOutcome::PromotedFromWaiting ==> final(self).reservations@ == old(self).reservations@,
            same_but_reservations(*old(self), *final(self)),
            within_user_caps(*old(self)) ==> within_user_caps(*final(self)),
            forall|id: u64|
                #[trigger] event_within_caps(*old(self), id) ==> event_within_caps(*final(self), id),
    {
        let uid = user.id;
        let i = match self.find_event(event_id) {
            Some(i) => i,
            None => {
                return SignUpOutcome::NotFound;
            },
        };
        let ets = self.events[i].event.ts;
        let cap_adults = self.events[i].event.max_adults_per_reservation;
        let cap_children = self.events[i].event.max_children_per_reservation;
        if ts > ets || (self.events[i].state == EventState::Closed && !user.is_admin) {
            return SignUpOutcome::RejectedClosedOrExpired;
        }
        if self.is_in_black_list(uid) {
            return SignUpOutcome::RejectedBlacklisted;
        }
        if self.has_time_conflict(uid, event_id, ets) {
            return SignUpOutcome::RejectedConflict;
        }
        let my_adults = self.sum_reserved(event_id, Some(uid), false, false);
        let my_wait_adults = self.sum_reserved(event_id, Some(uid), true, false);
        let my_children = self.sum_reserved(event_id, Some(uid), false, true);
        let my_wait_children = self.sum_reserved(event_id, Some(uid), true, true);
        let n_rows: usize = self.reservations.len();
        let ghost s0 = *self;
        proof {
            crate::store::lemma_sum_bounds(s0.reservations@, event_id, Some(uid), false, false);
            crate::store::lemma_sum_bounds(s0.reservations@, event_id, Some(uid), true, false);
            crate::store::lemma_sum_bounds(s0.reservations@, event_id, Some(uid), false, true);
            crate::store::lemma_sum_bounds(s0.reservations@, event_id, Some(uid), true, true);
            let n = n_rows as int;
            assert(n <= 0xffff_ffff_ffff_ffffint);
            assert(n * 0xffff_ffff_ffff_ffffint <= 0xffff_ffff_ffff_ffffint * 0xffff_ffff_ffff_ffffint)
                by (nonlinear_arith)
                requires
                    n <= 0xffff_ffff_ffff_ffffint,
            ;
        }
        if exceeds(my_adults, my_wait_adults, adults, cap_adults) {
            if exceeds(my_adults, 0, adults, cap_adults) {
                return SignUpOutcome::RejectedCapacity;
            }
            self.move_from_waiting_list(event_id, uid, adults, children);
            proof {
                self.lemma_promotion_keeps_caps(s0, event_id, uid, adults, children);
            }
            return SignUpOutcome::PromotedFromWaiting;
        }
        if exceeds(my_children, my_wait_children, children, cap_children) {
            if exceeds(my_children, 0, children, cap_children) {
                return SignUpOutcome::RejectedCapacity;
            }
            self.move_from_waiting_list(event_id, uid, adults, children);
            proof {
                self.lemma_promotion_keeps_caps(s0, event_id, uid, adults, children);
            }
            return SignUpOutcome::PromotedFromWaiting;
        }
        self.reservations.push(
            Reservation {
                event: event_id,
                user: uid,
                user_name1: user.user_name1.clone(),
                user_name2: user.user_name2.clone(),
                adults,
                children,
                waiting_list: wait,
                ts,
            },
        );
        proof {
            let x = self.reservations@.last();
            assert forall|id: u64, u: u64|
                #![trigger sum_qty(self.reservations@, id, Some(u), false, false)]
                caps_step(s0, *self, id, u) by {
                crate::store::lemma_sum_push(s0.reservations@, x, id, Some(u), false, false);
            }
            lemma_caps_kept(s0, *self);
        }
        SignUpOutcome::Inserted
    }

    proof fn lemma_promotion_keeps_caps(
        &self,
        s0: Store,
        event_id: u64,
        uid: u64,
        adults: u64,
        children: u64,
    )
        requires
            promoted(s0.reservations@, self.reservations@, event_id, uid, adults, children),
            same_but_reservations(s0, *self),
            event_index(s0.events@, event_id) >= 0,
            sum_qty(s0.reservations@, event_id, Some(uid), false, false) + adults
                <= s0.events@[event_index(s0.events@, event_id)].event.max_adults_per_reservation,
        ensures
            within_user_caps(s0) ==> within_user_caps(*self),
            forall|id: u64| #[trigger] event_within_caps(s0, id) ==> event_within_caps(*self, id),
    {
        if self.reservations@ != s0.reservations@ {
            let i = choose|i: int|
                is_oldest_waiting(s0.reservations@, i, event_id, uid, adults, children)
                    && self.reservations@ == s0.reservations@.update(
                    i,
                    Reservation { waiting_list: false, ..s0.reservations@[i] },
                );
            let x = Reservation { waiting_list: false, ..s0.reservations@[i] };
            assert forall|id: u64, u: u64|
                #![trigger sum_qty(self.reservations@, id, Some(u), false, false)]
                caps_step(s0, *self, id, u) by {
                lemma_sum_update(s0.reservations@, i, x, id, Some(u), false, false);
            }
            lemma_caps_kept(s0, *self);
        } else {
            assert(forall|id: u64, u: u64|
                #![trigger sum_qty(self.reservations@, id, Some(u), false, false)]
                caps_step(s0, *self, id, u));
            lemma_caps_kept(s0, *self);
        }
    }
}

impl Store {
    fn first_cancel_row(&self, event_id: u64, user: u64, adults: u64, waiting_only: bool) -> (r:
        Option<usize>)
        ensures
            match r {
                Some(i) => i == first_row_from(
                    self.reservations@,
                    cancel_match(event_id, user, adults, waiting_only),
                    0,
                ) && i < self.reservations@.len(),
                None => first_row_from(
                    self.reservations@,
                    cancel_match(event_id, user, adults, waiting_only),
                    0,
                ) == -1,
            },
    {
        let ghost p = cancel_match(event_id, user, adults, waiting_only);
        proof {
            lemma_first_row_from(self.reservations@, p, 0);
        }
        let mut i: usize = 0;
        while i < self.reservations.len()
            invariant
                i <= self.reservations@.len(),
                p == cancel_match(event_id, user, adults, waiting_only),
                first_row_from(self.reservations@, p, 0) == first_row_from(
                    self.reservations@,
                    p,
                    i as int,
                ),
            decreases self.reservations@.len() - i,
        {
            let r = &self.reservations[i];
            if r.event == event_id && r.user == user && r.adults == adults && (r.waiting_list
                || !waiting_only) {
                return Some(i);
            }
            i += 1;
        }
        None
    }

    /// Deletes one reservation row of the user for the event with exactly
    /// `adults` adults, a waiting-list row before an active one. When the
    /// event had no vacancy before, the waiting list is prompted.
    pub fn cancel(&mut self, event_id: u64, user: u64, adults: u64, now: u64) -> (r: Result<
        (),
        StoreError,
    >)
        ensures
            exists|mid: Store|
                removed_then_prompted(
                    *old(self),
                    mid,
                    *final(self),
                    cancelled(old(self).reservations@, event_id, user, adults),
                    event_id,
                    now,
                    r,
                ),
            within_user_caps(*old(self)) ==> within_user_caps(*final(self)),
            forall|id: u64|
                #[trigger] event_within_caps(*old(self), id) ==> event_within_caps(*final(self), id),
    {
        let had_vacancy = self.have_vacancies(event_id);
        let ghost s0 = *self;
        let target = match self.first_cancel_row(event_id, user, adults, true) {
            Some(i) => Some(i),
            None => self.first_cancel_row(event_id, user, adults, false),
        };
        match target {
            Some(i) => {
                self.reservations.remove(i);
                proof {
                    assert forall|id: u64, u: u64|
                        #![trigger sum_qty(self.reservations@, id, Some(u), false, false)]
                        caps_step(s0, *self, id, u) by {
                        lemma_sum_remove(s0.reservations@, i as int, id, Some(u), false, false);
                    }
                    lemma_caps_kept(s0, *self);
                }
            },
            None => {
                proof {
                    assert(forall|id: u64, u: u64|
                        #![trigger sum_qty(self.reservations@, id, Some(u), false, false)]
                        caps_step(s0, *self, id, u));
                    lemma_caps_kept(s0, *self);
                }
            },
        }
        let ghost mid = *self;
        let r = if !had_vacancy {
            self.prompt_waiting_list(event_id, now)
        } else {
            Ok(())
        };
        assert(removed_then_prompted(
            s0,
            mid,
            *self,
            cancelled(s0.reservations@, event_id, user, adults),
            event_id,
            now,
            r,
        ));
        r
    }

    /// Deletes every reservation row of the user for the event, active and
    /// waiting; prompts the waiting list as `cancel` does.
    pub fn wontgo(&mut self, event_id: u64, user: u64, now: u64) -> (r: Result<(), StoreError>)
        ensures
            exists|mid: Store|
                removed_then_prompted(
                    *old(self),
                    mid,
                    *final(self),
                    old(self).reservations@.filter(
                        unselected::<Reservation>(Selector::EventUser(event_id, user)),
                    ),
                    event_id,
                    now,
                    r,
                ),
            within_user_caps(*old(self)) ==> within_user_caps(*final(self)),
            forall|id: u64|
                #[trigger] event_within_caps(*old(self), id) ==> event_within_caps(*final(self), id),
    {
        self.remove_user_from_event(event_id, user, now)
    }

    /// Administrative removal of a user from an event: the same as `wontgo`.
    pub fn delete_reservation(&mut self, event_id: u64, user: u64, now: u64) -> (r: Result<
        (),
        StoreError,
    >)
        ensures
            exists|mid: Store|
                removed_then_prompted(
                    *old(self),
                    mid,
                    *final(self),
                    old(self).reservations@.filter(
                        unselected::<Reservation>(Selector::EventUser(event_id, user)),
                    ),
                    event_id,
                    now,
                    r,
                ),
            within_user_caps(*old(self)) ==> within_user_caps(*final(self)),
            forall|id: u64|
                #[trigger] event_within_caps(*old(self), id) ==> event_within_caps(*final(self), id),
    {
        self.remove_user_from_event(event_id, user, now)
    }

    fn remove_user_from_event(&mut self, event_id: u64, user: u64, now: u64) -> (r: Result<
        (),
        StoreError,
    >)
        ensures
            exists|mid: Store|
                removed_then_prompted(
                    *old(self),
                    mid,
                    *final(self),
                    old(self).reservations@.filter(
                        unselected::<Reservation>(Selector::EventUser(event_id, user)),
                    ),
                    event_id,
                    now,
                    r,
                ),
            within_user_caps(*old(self)) ==> within_user_caps(*final(self)),
            forall|id: u64|
                #[trigger] event_within_caps(*old(self), id) ==> event_within_caps(*final(self), id),
    {
        let had_vacancy = self.have_vacancies(event_id);
        let ghost s0 = *self;
        delete_where(&mut self.reservations, Selector::EventUser(event_id, user));
        proof {
            assert forall|id: u64, u: u64|
                #![trigger sum_qty(self.reservations@, id, Some(u), false, false)]
                caps_step(s0, *self, id, u) by {
                lemma_sum_filter(
                    s0.reservations@,
                    unselected::<Reservation>(Selector::EventUser(event_id, user)),
                    id,
                    Some(u),
                    false,
                    false,
                );
            }
            lemma_caps_kept(s0, *self);
        }
        let ghost mid = *self;
        let r = if !had_vacancy {
            self.prompt_waiting_list(event_id, now)
        } else {
            Ok(())
        };
        assert(removed_then_prompted(
            s0,
            mid,
            *self,
            s0.reservations@.filter(unselected::<Reservation>(Selector::EventUser(event_id, user))),
            event_id,
            now,
            r,
        ));
        r
    }
}

/// A banned user's sign-up never records or promotes a reservation, and it
/// is refused as banned whatever the quantities, whenever the event exists
/// and is open to the user at that time (a closed or past event is refused as
/// such first).
pub proof fn lemma_blacklisted_sign_up(
    s: Store,
    event_id: u64,
    user: u64,
    is_admin: bool,
    adults: u64,
    children: u64,
    ts: u64,
)
    requires
        blacklisted(s.black_list@, user),
    ensures
        sign_up_outcome(s, event_id, user, is_admin, adults, children, ts)
            != SignUpOutcome::Inserted,
        sign_up_outcome(s, event_id, user, is_admin, adults, children, ts)
            != SignUpOutcome::PromotedFromWaiting,
        event_index(s.events@, event_id) >= 0 && ts <= s.events@[event_index(
            s.events@,
            event_id,
        )].event.ts && (s.events@[event_index(s.events@, event_id)].state == EventState::Open
            || is_admin) ==> sign_up_outcome(s, event_id, user, is_admin, adults, children, ts)
            == SignUpOutcome::RejectedBlacklisted,
{
}

/// A store without events respects every per-user limit.
pub proof fn lemma_empty_within_caps(s: Store)
    requires
        s.events@.len() == 0,
    ensures
        within_user_caps(s),
{
}

/// From `s0` to `s1` the user's active adults for the event did not grow,
/// or stay within the event's per-user limit.
pub open spec fn caps_step(s0: Store, s1: Store, id: u64, u: u64) -> bool {
    sum_qty(s1.reservations@, id, Some(u), false, false) <= sum_qty(
        s0.reservations@,
        id,
        Some(u),
        false,
        false,
    ) || (event_index(s1.events@, id) >= 0 && sum_qty(s1.reservations@, id, Some(u), false, false)
        <= s1.events@[event_index(s1.events@, id)].event.max_adults_per_reservation)
}

/// Where no user's active adults for an event grew, or grew only within the
/// limit, the per-user limits stay respected, store-wide and event by event.
pub proof fn lemma_caps_kept(s0: Store, s1: Store)
    requires
        s1.events@ == s0.events@,
        forall|id: u64, u: u64|
            #![trigger sum_qty(s1.reservations@, id, Some(u), false, false)]
            caps_step(s0, s1, id, u),
    ensures
        within_user_caps(s0) ==> within_user_caps(s1),
        forall|id: u64| #[trigger] event_within_caps(s0, id) ==> event_within_caps(s1, id),
{
    assert forall|id: u64| #[trigger] event_within_caps(s0, id) implies event_within_caps(s1, id) by {
        if event_index(s1.events@, id) >= 0 {
            assert forall|u: u64|
                #[trigger] sum_qty(s1.reservations@, id, Some(u), false, false)
                    <= s1.events@[event_index(s1.events@, id)].event.max_adults_per_reservation by {
                assert(sum_qty(s0.reservations@, id, Some(u), false, false)
                    <= s0.events@[event_index(s0.events@, id)].event.max_adults_per_reservation);
            }
        }
    }
    if within_user_caps(s0) {
        assert forall|id: u64, u: u64|
            #![trigger event_index(s1.events@, id), sum_qty(s1.reservations@, id, Some(u), false, false)]
            event_index(s1.events@, id) >= 0 implies sum_qty(s1.reservations@, id, Some(u), false, false)
                <= s1.events@[event_index(s1.events@, id)].event.max_adults_per_reservation by {
            assert(sum_qty(s0.reservations@, id, Some(u), false, false)
                <= s0.events@[event_index(s0.events@, id)].event.max_adults_per_reservation);
        }
    }
}

/// `a + b + c > cap`, without overflow.
fn exceeds(a: u128, b: u128, c: u64, cap: u64) -> (r: bool)
    requires
        a <= u64::MAX as u128 * u64::MAX as u128,
        b <= u64::MAX as u128 * u64::MAX as u128,
    ensures
        r == (a + b + c > cap),
{
    if a > cap as u128 || b > cap as u128 {
        true
    } else {
        a + b + c as u128 > cap as u128
    }
}

} // verus!
