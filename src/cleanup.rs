use crate::blacklist::{absentee, active_holder, present, presence_used, rows_within, same_but_bans};
use crate::rows::{delete_where, unselected, Row, Selector};
use crate::store::{
    blacklisted, event_index, Attachment, BlacklistEntry, EventRecord, Mark, Message, Reservation,
    Store,
};
use std::collections::HashSet;
use vstd::prelude::*;

verus! {

broadcast use vstd::std_specs::hash::group_hash_axioms;

/// No row of any table refers to the event any more.
pub open spec fn event_cleared(s: Store, event_id: u64) -> bool {
    &&& forall|i: int| 0 <= i < s.events@.len() ==> #[trigger] s.events@[i].event.id != event_id
    &&& forall|i: int|
        0 <= i < s.reservations@.len() ==> #[trigger] s.reservations@[i].event != event_id
    &&& forall|i: int|
        0 <= i < s.attachments@.len() ==> #[trigger] s.attachments@[i].event != event_id
    &&& forall|i: int| 0 <= i < s.presence@.len() ==> #[trigger] s.presence@[i].event != event_id
    &&& forall|i: int|
        0 <= i < s.group_leaders@.len() ==> #[trigger] s.group_leaders@[i].event != event_id
    &&& forall|i: int| 0 <= i < s.messages@.len() ==> #[trigger] s.messages@[i].event != event_id
}

/// Every row of `b` is a row of `a`, table by table.
pub open spec fn shrunk(a: Store, b: Store) -> bool {
    &&& rows_within(a.events@, b.events@)
    &&& rows_within(a.reservations@, b.reservations@)
    &&& rows_within(a.attachments@, b.attachments@)
    &&& rows_within(a.presence@, b.presence@)
    &&& rows_within(a.group_leaders@, b.group_leaders@)
    &&& rows_within(a.messages@, b.messages@)
}

pub proof fn lemma_within_trans<A>(a: Seq<A>, b: Seq<A>, c: Seq<A>)
    requires
        rows_within(a, b),
        rows_within(b, c),
    ensures
        rows_within(a, c),
{
    assert forall|i: int| 0 <= i < c.len() implies a.contains(#[trigger] c[i]) by {
        let j = choose|j: int| 0 <= j < b.len() && b[j] == c[i];
        assert(a.contains(b[j]));
    }
}

pub proof fn lemma_within_refl<A>(a: Seq<A>)
    ensures
        rows_within(a, a),
{
    assert forall|i: int| 0 <= i < a.len() implies a.contains(#[trigger] a[i]) by {
        assert(a[i] == a[i]);
    }
}

pub proof fn lemma_shrunk_trans(a: Store, b: Store, c: Store)
    requires
        shrunk(a, b),
        shrunk(b, c),
    ensures
        shrunk(a, c),
{
    lemma_within_trans(a.events@, b.events@, c.events@);
    lemma_within_trans(a.reservations@, b.reservations@, c.reservations@);
    lemma_within_trans(a.attachments@, b.attachments@, c.attachments@);
    lemma_within_trans(a.presence@, b.presence@, c.presence@);
    lemma_within_trans(a.group_leaders@, b.group_leaders@, c.group_leaders@);
    lemma_within_trans(a.messages@, b.messages@, c.messages@);
}

/// Once cleared, an event stays cleared while tables only lose rows.
pub proof fn lemma_cleared_stays(a: Store, b: Store, event_id: u64)
    requires
        event_cleared(a, event_id),
        shrunk(a, b),
    ensures
        event_cleared(b, event_id),
{
    assert forall|i: int| 0 <= i < b.events@.len() implies #[trigger] b.events@[i].event.id
        != event_id by {
        assert(a.events@.contains(b.events@[i]));
    }
    assert forall|i: int| 0 <= i < b.reservations@.len() implies #[trigger] b.reservations@[i].event
        != event_id by {
        assert(a.reservations@.contains(b.reservations@[i]));
    }
    assert forall|i: int| 0 <= i < b.attachments@.len() implies #[trigger] b.attachments@[i].event
        != event_id by {
        assert(a.attachments@.contains(b.attachments@[i]));
    }
    assert forall|i: int| 0 <= i < b.presence@.len() implies #[trigger] b.presence@[i].event
        != event_id by {
        assert(a.presence@.contains(b.presence@[i]));
    }
    assert forall|i: int| 0 <= i < b.group_leaders@.len() implies #[trigger] b.group_leaders@[i].event
        != event_id by {
        assert(a.group_leaders@.contains(b.group_leaders@[i]));
    }
    assert forall|i: int| 0 <= i < b.messages@.len() implies #[trigger] b.messages@[i].event
        != event_id by {
        assert(a.messages@.contains(b.messages@[i]));
    }
}

impl Store {
    fn is_present(&self, event_id: u64, user: u64) -> (r: bool)
        ensures
            r == present(self.presence@, event_id, user),
    {
        let mut i: usize = 0;
        while i < self.presence.len()
            invariant
                i <= self.presence@.len(),
                forall|k: int|
                    0 <= k < i ==> !(self.presence@[k].event == event_id && self.presence@[k].user
                        == user),
            decreases self.presence@.len() - i,
        {
            if self.presence[i].event == event_id && self.presence[i].user == user {
                return true;
            }
            i += 1;
        }
        false
    }

    fn presence_confirmed(&self, event_id: u64) -> (r: bool)
        ensures
            r == presence_used(self.presence@, event_id),
    {
        let mut i: usize = 0;
        while i < self.presence.len()
            invariant
                i <= self.presence@.len(),
                forall|k: int| 0 <= k < i ==> self.presence@[k].event != event_id,
            decreases self.presence@.len() - i,
        {
            if self.presence[i].event == event_id {
                return true;
            }
            i += 1;
        }
        false
    }

    /// Bans the holders of active reservations for the event who did not
    /// come, admins excepted, giving the event's name as the reason. Skipped
    /// when no presence was confirmed for the event at all (the organizer did
    /// not check presence) or the event does not exist.
    pub fn blacklist_absent_participants(
        &mut self,
        event_id: u64,
        admins: &HashSet<u64>,
        cascade: bool,
        now: u64,
    )
        ensures
            event_index(old(self).events@, event_id) < 0 || !presence_used(
                old(self).presence@,
                event_id,
            ) ==> *final(self) == *old(self),
            event_index(old(self).events@, event_id) >= 0 && presence_used(
                old(self).presence@,
                event_id,
            ) ==> forall|u: u64|
                #[trigger] blacklisted(final(self).black_list@, u) == (blacklisted(
                    old(self).black_list@,
                    u,
                ) || absentee(*old(self), event_id, u, admins@)),
            final(self).black_list@.len() >= old(self).black_list@.len(),
            forall|i: int|
                0 <= i < old(self).black_list@.len() ==> #[trigger] final(self).black_list@[i]
                    == old(self).black_list@[i],
            rows_within(old(self).reservations@, final(self).reservations@),
            !cascade ==> final(self).reservations@ == old(self).reservations@,
            same_but_bans(*old(self), *final(self)),
            forall|i: int|
                old(self).black_list@.len() <= i < final(self).black_list@.len()
                    ==> #[trigger] final(self).black_list@[i].reason@ == old(self).events@[event_index(old(self).events@, event_id)].event.name@,
            cascade && event_index(old(self).events@, event_id) >= 0 && presence_used(
                old(self).presence@,
                event_id,
            ) ==> forall|u: u64, k: int|
                #![trigger absentee(*old(self), event_id, u, admins@), final(self).reservations@[k]]
                absentee(*old(self), event_id, u, admins@) && !blacklisted(
                    old(self).black_list@,
                    u,
                ) && 0 <= k < final(self).reservations@.len() ==> final(self).reservations@[k].user != u,
            cascade && event_index(old(self).events@, event_id) >= 0 && presence_used(
                old(self).presence@,
                event_id,
            ) ==> final(self).reservations@ == old(self).reservations@.filter(
                spared(*old(self), event_id, admins@),
            ),
    {
        let ghost s0 = *self;
        proof {
            lemma_within_refl(s0.reservations@);
        }
        let ei = match self.find_event(event_id) {
            Some(ei) => ei,
            None => {
                return ;
            },
        };
        if !self.presence_confirmed(event_id) {
            return ;
        }
        let mut cands: Vec<BlacklistEntry> = Vec::new();
        let mut i: usize = 0;
        while i < self.reservations.len()
            invariant
                *self == s0,
                ei < self.events@.len(),
                ei == event_index(s0.events@, event_id),
                i <= self.reservations@.len(),
                forall|c: int|
                    0 <= c < cands@.len() ==> #[trigger] cands@[c].reason
                        == s0.events@[ei as int].event.name,
                forall|c: int|
                    0 <= c < cands@.len() ==> absentee(s0, event_id, #[trigger] cands@[c].user, admins@),
                forall|k: int|
                    #![trigger self.reservations@[k]]
                    0 <= k < i && self.reservations@[k].event == event_id
                        && !self.reservations@[k].waiting_list && !present(
                        s0.presence@,
                        event_id,
                        self.reservations@[k].user,
                    ) && !admins@.contains(self.reservations@[k].user) ==> exists|c: int|
                        0 <= c < cands@.len() && cands@[c].user == self.reservations@[k].user,
            decreases self.reservations@.len() - i,
        {
            let ghost old_cands = cands@;
            let r = &self.reservations[i];
            if r.event == event_id && !r.waiting_list && !self.is_present(event_id, r.user)
                && !admins.contains(&r.user) {
                proof {
                    assert(active_holder(s0.reservations@, event_id, r.user));
                }
                cands.push(
                    BlacklistEntry {
                        user: r.user,
                        user_name1: r.user_name1.clone(),
                        user_name2: r.user_name2.clone(),
                        ts: now,
                        reason: self.events[ei].event.name.clone(),
                    },
                );
                proof {
                    assert(cands@[cands@.len() - 1].user == r.user);
                    assert forall|k: int|
                        #![trigger self.reservations@[k]]
                        0 <= k < i + 1 && self.reservations@[k].event == event_id
                            && !self.reservations@[k].waiting_list && !present(
                            s0.presence@,
                            event_id,
                            self.reservations@[k].user,
                        ) && !admins@.contains(self.reservations@[k].user) implies exists|c: int|
                        0 <= c < cands@.len() && cands@[c].user == self.reservations@[k].user by {
                        if k < i {
                            let c = choose|c: int|
                                0 <= c < old_cands.len() && old_cands[c].user
                                    == self.reservations@[k].user;
                            assert(cands@[c] == old_cands[c]);
                        } else {
                            assert(cands@[cands@.len() - 1].user == self.reservations@[k].user);
                        }
                    }
                }
            }
            i += 1;
        }
        proof {
            assert forall|u: u64| absentee(s0, event_id, u, admins@) implies exists|c: int|
                0 <= c < cands@.len() && cands@[c].user == u by {
                let k = choose|k: int|
                    0 <= k < s0.reservations@.len() && s0.reservations@[k].event == event_id
                        && s0.reservations@[k].user == u && !s0.reservations@[k].waiting_list;
                assert(self.reservations@[k].event == event_id);
            }
        }
        proof {
            assert(not_cut(s0.black_list@, cands@, 0) =~= (|r: Reservation| true));
            lemma_filter_all(s0.reservations@);
        }
        let mut c: usize = 0;
        while c < cands.len()
            invariant
                c <= cands@.len(),
                forall|u: u64|
                    #[trigger] blacklisted(self.black_list@, u) == (blacklisted(s0.black_list@, u)
                        || exists|d: int| 0 <= d < c && cands@[d].user == u),
                self.black_list@.len() >= s0.black_list@.len(),
                forall|i: int|
                    0 <= i < s0.black_list@.len() ==> #[trigger] self.black_list@[i]
                        == s0.black_list@[i],
                rows_within(s0.reservations@, self.reservations@),
                !cascade ==> self.reservations@ == s0.reservations@,
                same_but_bans(s0, *self),
                ei == event_index(s0.events@, event_id),
                ei < s0.events@.len(),
                forall|d: int|
                    0 <= d < cands@.len() ==> #[trigger] cands@[d].reason
                        == s0.events@[ei as int].event.name,
                forall|i: int|
                    s0.black_list@.len() <= i < self.black_list@.len()
                        ==> #[trigger] self.black_list@[i].reason@ == s0.events@[ei as int].event.name@,
                cascade ==> self.reservations@ == s0.reservations@.filter(
                    not_cut(s0.black_list@, cands@, c as int),
                ),
                cascade ==> forall|d: int, k: int|
                    0 <= d < c && !blacklisted(s0.black_list@, cands@[d].user) && 0 <= k
                        < self.reservations@.len() ==> #[trigger] self.reservations@[k].user
                        != #[trigger] cands@[d].user,
            decreases cands@.len() - c,
        {
            let ghost before = *self;
            let e = &cands[c];
            let _ = self.ban_user(
                e.user,
                e.user_name1.as_str(),
                e.user_name2.as_str(),
                e.reason.as_str(),
                cascade,
                now,
            );
            proof {
                let u = cands@[c as int].user;
                if cascade {
                    if !blacklisted(before.black_list@, u) {
                        lemma_filter_filter(
                            s0.reservations@,
                            not_cut(s0.black_list@, cands@, c as int),
                            unselected::<Reservation>(Selector::User(u)),
                        );
                        assert(!blacklisted(s0.black_list@, u)) by {
                            if blacklisted(s0.black_list@, u) {
                                let k = choose|k: int|
                                    0 <= k < s0.black_list@.len() && s0.black_list@[k].user == u;
                                assert(before.black_list@[k] == s0.black_list@[k]);
                            }
                        }
                        assert(not_cut(s0.black_list@, cands@, c + 1) =~= (|r: Reservation|
                            not_cut(s0.black_list@, cands@, c as int)(r) && unselected::<
                                Reservation,
                            >(Selector::User(u))(r)));
                    } else {
                        assert(not_cut(s0.black_list@, cands@, c + 1) =~= not_cut(
                            s0.black_list@,
                            cands@,
                            c as int,
                        )) by {
                            assert forall|r: Reservation|
                                #![trigger not_cut(s0.black_list@, cands@, c + 1)(r)]
                                not_cut(s0.black_list@, cands@, c + 1)(r) == not_cut(
                                    s0.black_list@,
                                    cands@,
                                    c as int,
                                )(r) by {
                                if r.user == u && !blacklisted(s0.black_list@, u) {
                                    let e = choose|e: int| 0 <= e < c && cands@[e].user == u;
                                    assert(cands@[e].user == r.user);
                                }
                            }
                        }
                    }
                }
                assert forall|i: int|
                    s0.black_list@.len() <= i < self.black_list@.len()
                        implies #[trigger] self.black_list@[i].reason@
                        == s0.events@[ei as int].event.name@ by {
                    if i < before.black_list@.len() {
                        assert(self.black_list@[i] == before.black_list@[i]);
                    } else {
                        assert(self.black_list@[i].reason@ == cands@[c as int].reason@);
                    }
                }
                if cascade {
                    if !blacklisted(before.black_list@, u) {
                        broadcast use vstd::seq_lib::group_filter_ensures;

                        crate::blacklist::lemma_filter_within(
                            before.reservations@,
                            unselected::<Reservation>(Selector::User(u)),
                        );
                        assert forall|d: int, k: int|
                            0 <= d < c + 1 && !blacklisted(s0.black_list@, cands@[d].user) && 0
                                <= k < self.reservations@.len()
                                implies #[trigger] self.reservations@[k].user
                                != #[trigger] cands@[d].user by {
                            if d < c {
                                assert(before.reservations@.contains(self.reservations@[k]));
                            } else {
                                assert(unselected::<Reservation>(Selector::User(u))(
                                    self.reservations@[k],
                                ));
                            }
                        }
                    } else {
                        assert forall|d: int, k: int|
                            0 <= d < c + 1 && !blacklisted(s0.black_list@, cands@[d].user) && 0
                                <= k < self.reservations@.len()
                                implies #[trigger] self.reservations@[k].user
                                != #[trigger] cands@[d].user by {
                            if d == c {
                                assert(exists|e: int| 0 <= e < c && cands@[e].user == u);
                                let e = choose|e: int| 0 <= e < c && cands@[e].user == u;
                                assert(self.reservations@[k].user != cands@[e].user);
                            }
                        }
                    }
                }
                if cascade && !blacklisted(before.black_list@, cands@[c as int].user) {
                    crate::blacklist::lemma_filter_within(
                        before.reservations@,
                        unselected::<Reservation>(Selector::User(cands@[c as int].user)),
                    );
                    lemma_within_trans(
                        s0.reservations@,
                        before.reservations@,
                        self.reservations@,
                    );
                }
                assert forall|i: int|
                    0 <= i < s0.black_list@.len() implies #[trigger] self.black_list@[i]
                        == s0.black_list@[i] by {
                    assert(before.black_list@[i] == s0.black_list@[i]);
                    if !blacklisted(before.black_list@, cands@[c as int].user) {
                        assert(self.black_list@.drop_last()[i] == self.black_list@[i]);
                    }
                }
                assert forall|u: u64|
                    #[trigger] blacklisted(self.black_list@, u) == (blacklisted(s0.black_list@, u)
                        || exists|d: int| 0 <= d < c + 1 && cands@[d].user == u) by {
                    if u == cands@[c as int].user {
                        if !blacklisted(before.black_list@, u) {
                            assert(self.black_list@[self.black_list@.len() - 1].user == u);
                        }
                    } else if blacklisted(self.black_list@, u) {
                        if !blacklisted(before.black_list@, u) {
                            let k = choose|k: int|
                                0 <= k < self.black_list@.len() && self.black_list@[k].user == u;
                            assert(k < before.black_list@.len());
                            assert(self.black_list@[k] == before.black_list@[k]);
                        }
                    } else {
                        if blacklisted(before.black_list@, u) {
                            let k = choose|k: int|
                                0 <= k < before.black_list@.len() && before.black_list@[k].user
                                    == u;
                            assert(self.black_list@[k] == before.black_list@[k]);
                        }
                    }
                }
            }
            c += 1;
        }
        proof {
            if cascade {
                assert(not_cut(s0.black_list@, cands@, cands@.len() as int) =~= spared(
                    s0,
                    event_id,
                    admins@,
                )) by {
                    assert forall|r: Reservation|
                        #![trigger spared(s0, event_id, admins@)(r)]
                        not_cut(s0.black_list@, cands@, cands@.len() as int)(r) == spared(
                            s0,
                            event_id,
                            admins@,
                        )(r) by {
                        if absentee(s0, event_id, r.user, admins@) {
                            let d = choose|d: int| 0 <= d < cands@.len() && cands@[d].user == r.user;
                        }
                        if exists|d: int|
                            0 <= d < cands@.len() && cands@[d].user == r.user {
                            let d = choose|d: int| 0 <= d < cands@.len() && cands@[d].user == r.user;
                            assert(absentee(s0, event_id, cands@[d].user, admins@));
                        }
                    }
                }
            }
        }
    }
}

/// Rows kept by absentee banning: those of users who are not absentees
/// newly banned.
pub open spec fn spared(s: Store, event_id: u64, admins: Set<u64>) -> spec_fn(Reservation) -> bool {
    |r: Reservation| !(absentee(s, event_id, r.user, admins) && !blacklisted(s.black_list@, r.user))
}

/// Rows of none of the first `c` candidates that were not banned before.
pub open spec fn not_cut(bl: Seq<BlacklistEntry>, cands: Seq<BlacklistEntry>, c: int) -> spec_fn(
    Reservation,
) -> bool {
    |r: Reservation|
        !(exists|d: int| 0 <= d < c && cands[d].user == r.user && !blacklisted(bl, cands[d].user))
}

pub proof fn lemma_filter_filter<A>(s: Seq<A>, p: spec_fn(A) -> bool, q: spec_fn(A) -> bool)
    ensures
        s.filter(p).filter(q) == s.filter(|x: A| p(x) && q(x)),
    decreases s.len(),
{
    reveal(Seq::filter);
    if s.len() > 0 {
        lemma_filter_filter(s.drop_last(), p, q);
        if p(s.last()) {
            let f = s.drop_last().filter(p);
            assert(f.push(s.last()).drop_last() =~= f);
        }
    }
}

pub proof fn lemma_filter_all<A>(s: Seq<A>)
    ensures
        s.filter(|x: A| true) == s,
    decreases s.len(),
{
    reveal(Seq::filter);
    if s.len() > 0 {
        lemma_filter_all(s.drop_last());
        assert(s.drop_last().push(s.last()) =~= s);
    }
}

/// Only the tables that deleting an event touches differ.
pub open spec fn same_but_event_rows(a: Store, b: Store) -> bool {
    &&& a.black_list@ == b.black_list@
    &&& a.outbox@ == b.outbox@
    &&& a.receipts@ == b.receipts@
    &&& a.current_events@ == b.current_events@
    &&& a.next_event_id == b.next_event_id
    &&& a.next_message_id == b.next_message_id
}

/// No record of the event is due for cleanup.
pub open spec fn kept_event(s: Store, day_start: u64, event_id: u64) -> bool {
    forall|j: int|
        0 <= j < s.events@.len() && #[trigger] s.events@[j].event.id == event_id
            ==> !due_for_cleanup(s.events@[j], day_start)
}

/// Every listed id belongs to a record that is due.
pub open spec fn listed_due(s: Store, day_start: u64, ids: Seq<u64>) -> bool {
    forall|c: int|
        0 <= c < ids.len() ==> exists|k: int|
            0 <= k < s.events@.len() && s.events@[k].event.id == #[trigger] ids[c]
                && due_for_cleanup(s.events@[k], day_start)
}

proof fn lemma_kept_not_listed(s: Store, day_start: u64, ids: Seq<u64>, event_id: u64)
    requires
        kept_event(s, day_start, event_id),
        listed_due(s, day_start, ids),
    ensures
        !ids.contains(event_id),
{
    if ids.contains(event_id) {
        let w = choose|w: int| 0 <= w < ids.len() && ids[w] == event_id;
        let k = choose|k: int|
            0 <= k < s.events@.len() && s.events@[k].event.id == #[trigger] ids[w]
                && due_for_cleanup(s.events@[k], day_start);
    }
}

proof fn lemma_filter_keeps<T: Row>(v: Seq<T>, x: T, sel: Selector)
    requires
        v.contains(x),
        !x.selected_by(sel),
    ensures
        v.filter(unselected::<T>(sel)).contains(x),
{
    let j = choose|j: int| 0 <= j < v.len() && v[j] == x;
    v.lemma_filter_contains(unselected::<T>(sel), j);
}

pub open spec fn due_for_cleanup(e: EventRecord, day_start: u64) -> bool {
    e.event.ts < day_start
}

impl Store {
    /// Deletes the event and every row that refers to it: reservations,
    /// attachments, presence, group leaders and messages.
    pub fn delete_event(&mut self, event_id: u64)
        ensures
            final(self).events@ == old(self).events@.filter(
                unselected::<EventRecord>(Selector::Event(event_id)),
            ),
            final(self).reservations@ == old(self).reservations@.filter(
                unselected::<Reservation>(Selector::Event(event_id)),
            ),
            final(self).attachments@ == old(self).attachments@.filter(
                unselected::<Attachment>(Selector::Event(event_id)),
            ),
            final(self).presence@ == old(self).presence@.filter(
                unselected::<Mark>(Selector::Event(event_id)),
            ),
            final(self).group_leaders@ == old(self).group_leaders@.filter(
                unselected::<Mark>(Selector::Event(event_id)),
            ),
            final(self).messages@ == old(self).messages@.filter(
                unselected::<Message>(Selector::Event(event_id)),
            ),
            same_but_event_rows(*old(self), *final(self)),
            event_cleared(*final(self), event_id),
            shrunk(*old(self), *final(self)),
    {
        delete_where(&mut self.reservations, Selector::Event(event_id));
        delete_where(&mut self.events, Selector::Event(event_id));
        delete_where(&mut self.attachments, Selector::Event(event_id));
        delete_where(&mut self.presence, Selector::Event(event_id));
        delete_where(&mut self.group_leaders, Selector::Event(event_id));
        delete_where(&mut self.messages, Selector::Event(event_id));
        proof {
            broadcast use vstd::seq_lib::group_filter_ensures;

            crate::blacklist::lemma_filter_within(
                old(self).events@,
                unselected::<EventRecord>(Selector::Event(event_id)),
            );
            crate::blacklist::lemma_filter_within(
                old(self).reservations@,
                unselected::<Reservation>(Selector::Event(event_id)),
            );
            crate::blacklist::lemma_filter_within(
                old(self).attachments@,
                unselected::<Attachment>(Selector::Event(event_id)),
            );
            crate::blacklist::lemma_filter_within(
                old(self).presence@,
                unselected::<Mark>(Selector::Event(event_id)),
            );
            crate::blacklist::lemma_filter_within(
                old(self).group_leaders@,
                unselected::<Mark>(Selector::Event(event_id)),
            );
            crate::blacklist::lemma_filter_within(
                old(self).messages@,
                unselected::<Message>(Selector::Event(event_id)),
            );
        }
    }

    /// Deletes every event that took place before `day_start` (the start of
    /// the current day), with all rows that refer to it; with
    /// `automatic_blacklisting` the absentees of each are banned first.
    /// Events of later days are kept.
    pub fn clear_old_events(
        &mut self,
        day_start: u64,
        automatic_blacklisting: bool,
        cascade: bool,
        admins: &HashSet<u64>,
        now: u64,
    )
        ensures
            forall|i: int|
                0 <= i < old(self).events@.len() && due_for_cleanup(
                    #[trigger] old(self).events@[i],
                    day_start,
                ) ==> event_cleared(*final(self), old(self).events@[i].event.id),
            forall|i: int|
                0 <= i < old(self).events@.len() && (forall|j: int|
                    0 <= j < old(self).events@.len() && old(self).events@[j].event.id == old(self).events@[i].event.id ==> !due_for_cleanup(old(self).events@[j], day_start))
                    ==> final(self).events@.contains(#[trigger] old(self).events@[i]),
            shrunk(*old(self), *final(self)),
            final(self).black_list@.len() >= old(self).black_list@.len(),
            forall|i: int|
                0 <= i < old(self).black_list@.len() ==> #[trigger] final(self).black_list@[i]
                    == old(self).black_list@[i],
            !automatic_blacklisting ==> final(self).black_list@ == old(self).black_list@,
            final(self).outbox@ == old(self).outbox@,
            final(self).receipts@ == old(self).receipts@,
            final(self).current_events@ == old(self).current_events@,
            !(automatic_blacklisting && cascade) ==> forall|i: int|
                0 <= i < old(self).reservations@.len() && kept_event(*old(self), day_start, old(self).reservations@[i].event)
                    ==> final(self).reservations@.contains(#[trigger] old(self).reservations@[i]),
            forall|i: int|
                0 <= i < old(self).attachments@.len() && kept_event(*old(self), day_start, old(self).attachments@[i].event)
                    ==> final(self).attachments@.contains(#[trigger] old(self).attachments@[i]),
            forall|i: int|
                0 <= i < old(self).presence@.len() && kept_event(*old(self), day_start, old(self).presence@[i].event)
                    ==> final(self).presence@.contains(#[trigger] old(self).presence@[i]),
            forall|i: int|
                0 <= i < old(self).group_leaders@.len() && kept_event(*old(self), day_start, old(self).group_leaders@[i].event)
                    ==> final(self).group_leaders@.contains(#[trigger] old(self).group_leaders@[i]),
            forall|i: int|
                0 <= i < old(self).messages@.len() && kept_event(*old(self), day_start, old(self).messages@[i].event)
                    ==> final(self).messages@.contains(#[trigger] old(self).messages@[i]),
    {
        let ghost s0 = *self;
        let mut ids: Vec<u64> = Vec::new();
        let mut i: usize = 0;
        while i < self.events.len()
            invariant
                *self == s0,
                i <= self.events@.len(),
                forall|k: int|
                    0 <= k < i && due_for_cleanup(#[trigger] self.events@[k], day_start)
                        ==> ids@.contains(self.events@[k].event.id),
                listed_due(s0, day_start, ids@),
            decreases self.events@.len() - i,
        {
            if self.events[i].event.ts < day_start {
                let ghost before = ids@;
                ids.push(self.events[i].event.id);
                proof {
                    assert forall|k: int|
                        0 <= k < i + 1 && due_for_cleanup(#[trigger] self.events@[k], day_start)
                            implies ids@.contains(self.events@[k].event.id) by {
                        if k < i {
                            let w = choose|w: int|
                                0 <= w < before.len() && before[w] == self.events@[k].event.id;
                            assert(ids@[w] == before[w]);
                        } else {
                            assert(ids@[ids@.len() - 1] == self.events@[k].event.id);
                        }
                    }
                    assert forall|c: int| 0 <= c < ids@.len() implies exists|k: int|
                        0 <= k < s0.events@.len() && s0.events@[k].event.id == #[trigger] ids@[c]
                            && due_for_cleanup(s0.events@[k], day_start) by {
                        if c < before.len() {
                            assert(ids@[c] == before[c]);
                        } else {
                            assert(s0.events@[i as int].event.id == ids@[c]);
                        }
                    }
                }
            }
            i += 1;
        }
        proof {
            lemma_within_refl(s0.events@);
            lemma_within_refl(s0.reservations@);
            lemma_within_refl(s0.attachments@);
            lemma_within_refl(s0.presence@);
            lemma_within_refl(s0.group_leaders@);
            lemma_within_refl(s0.messages@);
        }
        let mut c: usize = 0;
        while c < ids.len()
            invariant
                c <= ids@.len(),
                forall|d: int| 0 <= d < c ==> event_cleared(*self, #[trigger] ids@[d]),
                forall|k: int|
                    0 <= k < s0.events@.len() && !ids@.contains(s0.events@[k].event.id)
                        ==> self.events@.contains(#[trigger] s0.events@[k]),
                shrunk(s0, *self),
                self.black_list@.len() >= s0.black_list@.len(),
                forall|i: int|
                    0 <= i < s0.black_list@.len() ==> #[trigger] self.black_list@[i]
                        == s0.black_list@[i],
                !automatic_blacklisting ==> self.black_list@ == s0.black_list@,
                self.outbox@ == s0.outbox@,
                self.receipts@ == s0.receipts@,
                self.current_events@ == s0.current_events@,
                listed_due(s0, day_start, ids@),
                !(automatic_blacklisting && cascade) ==> forall|k: int|
                    0 <= k < s0.reservations@.len() && !ids@.contains(s0.reservations@[k].event)
                        ==> self.reservations@.contains(#[trigger] s0.reservations@[k]),
                forall|k: int|
                    0 <= k < s0.attachments@.len() && !ids@.contains(s0.attachments@[k].event)
                        ==> self.attachments@.contains(#[trigger] s0.attachments@[k]),
                forall|k: int|
                    0 <= k < s0.presence@.len() && !ids@.contains(s0.presence@[k].event)
                        ==> self.presence@.contains(#[trigger] s0.presence@[k]),
                forall|k: int|
                    0 <= k < s0.group_leaders@.len() && !ids@.contains(s0.group_leaders@[k].event)
                        ==> self.group_leaders@.contains(#[trigger] s0.group_leaders@[k]),
                forall|k: int|
                    0 <= k < s0.messages@.len() && !ids@.contains(s0.messages@[k].event)
                        ==> self.messages@.contains(#[trigger] s0.messages@[k]),
            decreases ids@.len() - c,
        {
            let id = ids[c];
            let ghost s1 = *self;
            if automatic_blacklisting {
                self.blacklist_absent_participants(id, admins, cascade, now);
                proof {
                    lemma_within_refl(s1.events@);
                    lemma_within_refl(s1.attachments@);
                    lemma_within_refl(s1.presence@);
                    lemma_within_refl(s1.group_leaders@);
                    lemma_within_refl(s1.messages@);
                }
            } else {
                proof {
                    lemma_within_refl(s1.events@);
                    lemma_within_refl(s1.reservations@);
                    lemma_within_refl(s1.attachments@);
                    lemma_within_refl(s1.presence@);
                    lemma_within_refl(s1.group_leaders@);
                    lemma_within_refl(s1.messages@);
                }
            }
            let ghost s2 = *self;
            self.delete_event(id);
            proof {
                lemma_shrunk_trans(s1, s2, *self);
                lemma_shrunk_trans(s0, s1, *self);
                assert forall|d: int| 0 <= d < c + 1 implies event_cleared(*self, #[trigger] ids@[d]) by {
                    if d < c {
                        lemma_cleared_stays(s1, *self, ids@[d]);
                    }
                }
                assert forall|k: int|
                    0 <= k < s0.events@.len() && !ids@.contains(s0.events@[k].event.id)
                        implies self.events@.contains(#[trigger] s0.events@[k]) by {
                    let rec = s0.events@[k];
                    assert(s1.events@.contains(rec));
                    assert(s2.events@ == s1.events@);
                    let j = choose|j: int| 0 <= j < s2.events@.len() && s2.events@[j] == rec;
                    assert(ids@[c as int] == id);
                    assert(rec.event.id != id);
                    s2.events@.lemma_filter_contains(
                        unselected::<EventRecord>(Selector::Event(id)),
                        j,
                    );
                }
                if !(automatic_blacklisting && cascade) {
                    assert forall|k: int|
                        0 <= k < s0.reservations@.len() && !ids@.contains(s0.reservations@[k].event)
                            implies self.reservations@.contains(#[trigger] s0.reservations@[k]) by {
                        assert(ids@[c as int] == id);
                        assert(s2.reservations@ == s1.reservations@);
                        lemma_filter_keeps(s2.reservations@, s0.reservations@[k], Selector::Event(id));
                    }
                }
                {
                    assert forall|k: int|
                        0 <= k < s0.attachments@.len() && !ids@.contains(s0.attachments@[k].event)
                            implies self.attachments@.contains(#[trigger] s0.attachments@[k]) by {
                        assert(ids@[c as int] == id);
                        assert(s2.attachments@ == s1.attachments@);
                        lemma_filter_keeps(s2.attachments@, s0.attachments@[k], Selector::Event(id));
                    }
                }
                {
                    assert forall|k: int|
                        0 <= k < s0.presence@.len() && !ids@.contains(s0.presence@[k].event)
                            implies self.presence@.contains(#[trigger] s0.presence@[k]) by {
                        assert(ids@[c as int] == id);
                        assert(s2.presence@ == s1.presence@);
                        lemma_filter_keeps(s2.presence@, s0.presence@[k], Selector::Event(id));
                    }
                }
                {
                    assert forall|k: int|
                        0 <= k < s0.group_leaders@.len() && !ids@.contains(s0.group_leaders@[k].event)
                            implies self.group_leaders@.contains(#[trigger] s0.group_leaders@[k]) by {
                        assert(ids@[c as int] == id);
                        assert(s2.group_leaders@ == s1.group_leaders@);
                        lemma_filter_keeps(s2.group_leaders@, s0.group_leaders@[k], Selector::Event(id));
                    }
                }
                {
                    assert forall|k: int|
                        0 <= k < s0.messages@.len() && !ids@.contains(s0.messages@[k].event)
                            implies self.messages@.contains(#[trigger] s0.messages@[k]) by {
                        assert(ids@[c as int] == id);
                        assert(s2.messages@ == s1.messages@);
                        lemma_filter_keeps(s2.messages@, s0.messages@[k], Selector::Event(id));
                    }
                }
            }
            c += 1;
        }
        proof {
            assert forall|i: int|
                0 <= i < s0.events@.len() && due_for_cleanup(#[trigger] s0.events@[i], day_start)
                    implies event_cleared(*self, s0.events@[i].event.id) by {
                let w = choose|w: int| 0 <= w < ids@.len() && ids@[w] == s0.events@[i].event.id;
            }
            assert forall|i: int|
                0 <= i < s0.events@.len() && (forall|j: int|
                    0 <= j < s0.events@.len() && s0.events@[j].event.id == s0.events@[i].event.id
                        ==> !due_for_cleanup(s0.events@[j], day_start)) implies self.events@.contains(
                #[trigger] s0.events@[i],
            ) by {
                if ids@.contains(s0.events@[i].event.id) {
                    let w = choose|w: int| 0 <= w < ids@.len() && ids@[w] == s0.events@[i].event.id;
                    let k = choose|k: int|
                        0 <= k < s0.events@.len() && s0.events@[k].event.id == #[trigger] ids@[w]
                            && due_for_cleanup(s0.events@[k], day_start);
                }
            }
            if !(automatic_blacklisting && cascade) {
                assert forall|i: int|
                    0 <= i < s0.reservations@.len() && kept_event(s0, day_start, s0.reservations@[i].event)
                        implies self.reservations@.contains(#[trigger] s0.reservations@[i]) by {
                    lemma_kept_not_listed(s0, day_start, ids@, s0.reservations@[i].event);
                }
            }
            {
                assert forall|i: int|
                    0 <= i < s0.attachments@.len() && kept_event(s0, day_start, s0.attachments@[i].event)
                        implies self.attachments@.contains(#[trigger] s0.attachments@[i]) by {
                    lemma_kept_not_listed(s0, day_start, ids@, s0.attachments@[i].event);
                }
            }
            {
                assert forall|i: int|
                    0 <= i < s0.presence@.len() && kept_event(s0, day_start, s0.presence@[i].event)
                        implies self.presence@.contains(#[trigger] s0.presence@[i]) by {
                    lemma_kept_not_listed(s0, day_start, ids@, s0.presence@[i].event);
                }
            }
            {
                assert forall|i: int|
                    0 <= i < s0.group_leaders@.len() && kept_event(s0, day_start, s0.group_leaders@[i].event)
                        implies self.group_leaders@.contains(#[trigger] s0.group_leaders@[i]) by {
                    lemma_kept_not_listed(s0, day_start, ids@, s0.group_leaders@[i].event);
                }
            }
            {
                assert forall|i: int|
                    0 <= i < s0.messages@.len() && kept_event(s0, day_start, s0.messages@[i].event)
                        implies self.messages@.contains(#[trigger] s0.messages@[i]) by {
                    lemma_kept_not_listed(s0, day_start, ids@, s0.messages@[i].event);
                }
            }
        }
    }
}

} // verus!
