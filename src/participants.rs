use crate::blacklist::present;
use crate::drain::contains_u64;
use crate::engine::{first_row_from, lemma_first_row_from};
use crate::drain::{by_time, row_times};
use crate::order::{is_stable_order, is_text_order, order_by_key, order_by_text, texts};
use crate::events::clamp;
use crate::store::{sum_qty, Attachment, Mark, Message, Reservation, Store, StoreError};
use crate::types::{MessageType, Participant, Presence};
use vstd::prelude::*;
use vstd::string::StringExecFns;

verus! {

/// The user holds a reservation row (active or waiting) for the event.
pub open spec fn holds_row(rs: Seq<Reservation>, event_id: u64, user: u64) -> bool {
    exists|i: int| 0 <= i < rs.len() && rs[i].event == event_id && rs[i].user == user
}

/// Index of the user's attachment for the event, or -1.
pub open spec fn attachment_index(atts: Seq<Attachment>, event_id: u64, user: u64) -> int {
    if exists|i: int| 0 <= i < atts.len() && atts[i].event == event_id && atts[i].user == user {
        choose|i: int|
            0 <= i < atts.len() && atts[i].event == event_id && atts[i].user == user && forall|
                j: int,
            | 0 <= j < i ==> !(atts[j].event == event_id && atts[j].user == user)
    } else {
        -1
    }
}

/// The rows of a list of an event, users once each in the order of their
/// first row.
pub open spec fn list_users(rs: Seq<Reservation>, event_id: u64, waiting: bool) -> Seq<u64>
    decreases rs.len(),
{
    if rs.len() == 0 {
        seq![]
    } else {
        let p = list_users(rs.drop_last(), event_id, waiting);
        let r = rs.last();
        if r.event == event_id && r.waiting_list == waiting && !p.contains(r.user) {
            p.push(r.user)
        } else {
            p
        }
    }
}

/// Holders of active reservations for the event whose presence is not
/// confirmed, in the order of their first rows.
pub open spec fn absent_users(s: Store, event_id: u64) -> Seq<u64> {
    list_users(s.reservations@, event_id, false).filter(
        |u: u64| !present(s.presence@, event_id, u),
    )
}

/// `r` shows the users `us` of one list of the event.
pub open spec fn participants_page(
    s: Store,
    us: Seq<u64>,
    event_id: u64,
    waiting: bool,
    r: Seq<Participant>,
) -> bool {
    &&& r.len() == us.len()
    &&& forall|i: int|
        0 <= i < r.len() ==> {
            let p = #[trigger] r[i];
            let k = attachment_index(s.attachments@, event_id, us[i]);
            &&& p.user_id == us[i]
            &&& p.adults == clamp(sum_qty(s.reservations@, event_id, Some(us[i]), waiting, false))
            &&& p.children == clamp(sum_qty(s.reservations@, event_id, Some(us[i]), waiting, true))
            &&& names_of(s.reservations@, event_id, us[i], waiting, p.user_name1, p.user_name2)
            &&& k < 0 ==> p.attachment is None
            &&& k >= 0 ==> p.attachment == Some(s.attachments@[k].text)
        }
}

/// The creation times of the messages.
pub open spec fn message_times(ms: Seq<Message>) -> Seq<u64> {
    Seq::new(ms.len(), |i: int| ms[i].ts)
}

/// The messages in the order `ord`.
pub open spec fn messages_by(ms: Seq<Message>, ord: Seq<usize>) -> Seq<Message> {
    Seq::new(ord.len(), |i: int| ms[ord[i] as int])
}

/// A direct message of the event with a sender, of the list asked for.
pub open spec fn listed_message(event_id: u64, waiting_list: Option<bool>) -> spec_fn(Message) -> bool {
    |m: Message|
        m.event == event_id && m.message_type == MessageType::Direct && m.sender@.len() > 0
            && match waiting_list {
            Some(w) => m.waiting_list == w,
            None => true,
        }
}

/// A row of the user on a list of the event.
pub open spec fn row_of(event_id: u64, user: u64, waiting: bool) -> spec_fn(Reservation) -> bool {
    |r: Reservation| r.event == event_id && r.user == user && r.waiting_list == waiting
}

/// The name on the user's first active row for the event.
pub open spec fn holder_name(rs: Seq<Reservation>, event_id: u64, user: u64) -> Seq<char> {
    let i = first_row_from(rs, row_of(event_id, user, false), 0);
    if i >= 0 {
        rs[i].user_name1@
    } else {
        Seq::<char>::empty()
    }
}

/// The names of the absent holders, in the order of `absent_users`.
pub open spec fn absent_names(s: Store, event_id: u64) -> Seq<Seq<char>> {
    Seq::new(
        absent_users(s, event_id).len(),
        |j: int| holder_name(s.reservations@, event_id, absent_users(s, event_id)[j]),
    )
}

/// The names are those on the user's first row of the list (empty when the
/// user has none).
pub open spec fn names_of(
    rs: Seq<Reservation>,
    event_id: u64,
    user: u64,
    waiting: bool,
    name1: String,
    name2: String,
) -> bool {
    let f = first_row_from(rs, row_of(event_id, user, waiting), 0);
    if f >= 0 {
        name1 == rs[f].user_name1 && name2 == rs[f].user_name2
    } else {
        name1@.len() == 0 && name2@.len() == 0
    }
}

/// `p` shows the absent holder `u`.
pub open spec fn shows_absentee(s: Store, event_id: u64, u: u64, p: Presence) -> bool {
    let k = attachment_index(s.attachments@, event_id, u);
    &&& p.user_id == u
    &&& p.reserved == row_count(s.reservations@, event_id, u, false)
    &&& names_of(s.reservations@, event_id, u, false, p.user_name1, p.user_name2)
    &&& k < 0 ==> p.attachment is None
    &&& k >= 0 ==> p.attachment == Some(s.attachments@[k].text)
}

/// `r` is the page `offset` of `limit` absent holders in the order `ord`.
pub open spec fn presence_page(
    s: Store,
    event_id: u64,
    ord: Seq<usize>,
    offset: int,
    limit: int,
    r: Seq<Presence>,
) -> bool {
    &&& r.len() == crate::blacklist::page_len(absent_users(s, event_id).len() as int, offset, limit)
    &&& forall|j: int|
        0 <= j < r.len() ==> shows_absentee(
            s,
            event_id,
            absent_users(s, event_id)[ord[offset * limit + j] as int],
            #[trigger] r[j],
        )
}

/// Number of the user's rows on a list of the event.
pub open spec fn row_count(rs: Seq<Reservation>, event_id: u64, user: u64, waiting: bool) -> int
    decreases rs.len(),
{
    if rs.len() == 0 {
        0
    } else {
        row_count(rs.drop_last(), event_id, user, waiting) + if rs.last().event == event_id
            && rs.last().user == user && rs.last().waiting_list == waiting {
            1int
        } else {
            0int
        }
    }
}

/// The page `offset` of `limit` items of `s`; `limit == 0` gives all of it.
pub open spec fn page<A>(s: Seq<A>, offset: int, limit: int) -> Seq<A> {
    if limit == 0 {
        s
    } else if offset * limit >= s.len() {
        seq![]
    } else if s.len() - offset * limit <= limit {
        s.skip(offset * limit)
    } else {
        s.subrange(offset * limit, offset * limit + limit)
    }
}

fn page_u64(s: &Vec<u64>, offset: u64, limit: u64) -> (r: Vec<u64>)
    ensures
        r@ == page(s@, offset as int, limit as int),
{
    if limit == 0 {
        return s.clone();
    }
    proof {
        assert(offset as int * limit as int <= 0xffff_ffff_ffff_ffffint * 0xffff_ffff_ffff_ffffint)
            by (nonlinear_arith)
            requires
                offset <= 0xffff_ffff_ffff_ffffint,
                limit <= 0xffff_ffff_ffff_ffffint,
        ;
    }
    let start: u128 = offset as u128 * limit as u128;
    let mut out: Vec<u64> = Vec::new();
    if start >= s.len() as u128 {
        return out;
    }
    let start = start as usize;
    let end: usize = if (s.len() - start) as u128 <= limit as u128 {
        s.len()
    } else {
        start + limit as usize
    };
    let mut i: usize = start;
    while i < end
        invariant
            start <= i <= end <= s@.len(),
            out@ == s@.subrange(start as int, i as int),
        decreases end - i,
    {
        out.push(s[i]);
        proof {
            assert(out@ =~= s@.subrange(start as int, i + 1));
        }
        i += 1;
    }
    proof {
        if end == s@.len() {
            assert(out@ =~= s@.skip(start as int));
        }
    }
    out
}

impl Store {
    fn holds_any_row(&self, event_id: u64, user: u64) -> (r: bool)
        ensures
            r == holds_row(self.reservations@, event_id, user),
    {
        let mut i: usize = 0;
        while i < self.reservations.len()
            invariant
                i <= self.reservations@.len(),
                forall|k: int|
                    0 <= k < i ==> !(self.reservations@[k].event == event_id
                        && self.reservations@[k].user == user),
            decreases self.reservations@.len() - i,
        {
            if self.reservations[i].event == event_id && self.reservations[i].user == user {
                return true;
            }
            i += 1;
        }
        false
    }

    fn find_attachment(&self, event_id: u64, user: u64) -> (r: Option<usize>)
        ensures
            match r {
                Some(i) => i == attachment_index(self.attachments@, event_id, user),
                None => attachment_index(self.attachments@, event_id, user) == -1,
            },
            r matches Some(i) ==> i < self.attachments@.len() && self.attachments@[i as int].event
                == event_id && self.attachments@[i as int].user == user,
    {
        let mut i: usize = 0;
        while i < self.attachments.len()
            invariant
                i <= self.attachments@.len(),
                forall|k: int|
                    0 <= k < i ==> !(self.attachments@[k].event == event_id
                        && self.attachments@[k].user == user),
            decreases self.attachments@.len() - i,
        {
            if self.attachments[i].event == event_id && self.attachments[i].user == user {
                proof {
                    let j = attachment_index(self.attachments@, event_id, user);
                    if j > i {
                        // the first such note cannot come after this one
                        assert(!(self.attachments@[i as int].event == event_id
                            && self.attachments@[i as int].user == user));
                    }
                }
                return Some(i);
            }
            i += 1;
        }
        None
    }

    /// Sets the user's note for the event (the last one wins); refused with
    /// 0 rows written when the user holds no reservation row for the event.
    pub fn add_attachment(&mut self, event_id: u64, user: u64, attachment: &str) -> (r: usize)
        ensures
            !holds_row(old(self).reservations@, event_id, user) ==> r == 0 && *final(self) == *old(
                self,
            ),
            holds_row(old(self).reservations@, event_id, user) ==> {
                let k = attachment_index(old(self).attachments@, event_id, user);
                &&& r == 1
                &&& k >= 0 ==> final(self).attachments@.len() == old(self).attachments@.len()
                    && final(self).attachments@[k].event == event_id
                    && final(self).attachments@[k].user == user
                    && final(self).attachments@[k].text@ == attachment@ && forall|
                    j: int,
                | 0 <= j < old(self).attachments@.len() && j != k
                    ==> final(self).attachments@[j] == old(self).attachments@[j]
                &&& k < 0 ==> final(self).attachments@.len() == old(self).attachments@.len() + 1
                    && final(self).attachments@.drop_last() == old(self).attachments@
                    && final(self).attachments@.last().event == event_id
                    && final(self).attachments@.last().user == user
                    && final(self).attachments@.last().text@ == attachment@
                &&& final(self).reservations@ == old(self).reservations@
            },
    {
        if !self.holds_any_row(event_id, user) {
            return 0;
        }
        let text = String::from_str(attachment);
        match self.find_attachment(event_id, user) {
            Some(k) => {
                let ghost before = self.attachments@;
                let mut a = self.attachments.remove(k);
                a.text = text;
                self.attachments.insert(k, a);
                proof {
                    assert(self.attachments@ =~= before.update(k as int, self.attachments@[k as int]));
                }
            },
            None => {
                self.attachments.push(Attachment { event: event_id, user, text });
                proof {
                    assert(self.attachments@.drop_last() =~= old(self).attachments@);
                }
            },
        }
        1
    }

    /// The user's note for the event.
    pub fn get_attachment(&self, event_id: u64, user: u64) -> (r: Option<String>)
        ensures
            ({
                let k = attachment_index(self.attachments@, event_id, user);
                &&& k < 0 ==> r is None
                &&& k >= 0 ==> r == Some(self.attachments@[k].text)
            }),
    {
        match self.find_attachment(event_id, user) {
            Some(k) => Some(self.attachments[k].text.clone()),
            None => None,
        }
    }

    /// Confirms the user's presence at the event; a second confirmation is
    /// refused with `Duplicate`.
    pub fn confirm_presence(&mut self, event_id: u64, user: u64) -> (r: Result<(), StoreError>)
        ensures
            present(old(self).presence@, event_id, user) ==> r == Err::<(), StoreError>(
                StoreError::Duplicate,
            ) && *final(self) == *old(self),
            !present(old(self).presence@, event_id, user) ==> r is Ok && final(self).presence@
                == old(self).presence@.push(Mark { event: event_id, user }),
            final(self).reservations@ == old(self).reservations@,
            final(self).black_list@ == old(self).black_list@,
    {
        if self.is_marked(event_id, user, false) {
            return Err(StoreError::Duplicate);
        }
        self.presence.push(Mark { event: event_id, user });
        Ok(())
    }

    fn is_marked(&self, event_id: u64, user: u64, leaders: bool) -> (r: bool)
        ensures
            r == present(
                if leaders {
                    self.group_leaders@
                } else {
                    self.presence@
                },
                event_id,
                user,
            ),
    {
        let v = if leaders {
            &self.group_leaders
        } else {
            &self.presence
        };
        let mut i: usize = 0;
        while i < v.len()
            invariant
                i <= v@.len(),
                v@ == (if leaders {
                    self.group_leaders@
                } else {
                    self.presence@
                }),
                forall|k: int| 0 <= k < i ==> !(v@[k].event == event_id && v@[k].user == user),
            decreases v@.len() - i,
        {
            if v[i].event == event_id && v[i].user == user {
                return true;
            }
            i += 1;
        }
        false
    }

    /// Whether the user leads a group at the event.
    pub fn is_group_leader(&self, event_id: u64, user: u64) -> (r: bool)
        ensures
            r == present(self.group_leaders@, event_id, user),
    {
        self.is_marked(event_id, user, true)
    }

    /// Marks the user as a group leader at the event.
    pub fn set_group_leader(&mut self, event_id: u64, user: u64)
        ensures
            present(old(self).group_leaders@, event_id, user) ==> *final(self) == *old(self),
            !present(old(self).group_leaders@, event_id, user) ==> final(self).group_leaders@
                == old(self).group_leaders@.push(Mark { event: event_id, user }),
            final(self).reservations@ == old(self).reservations@,
            final(self).presence@ == old(self).presence@,
    {
        if !self.is_marked(event_id, user, true) {
            self.group_leaders.push(Mark { event: event_id, user });
        }
    }

    fn list_user_ids_by(&self, event_id: u64, waiting: bool, ord: &Vec<usize>) -> (r: Vec<u64>)
        requires
            is_stable_order(row_times(self.reservations@), ord@),
        ensures
            r@ == list_users(by_time(self.reservations@, ord@), event_id, waiting),
    {
        let rs = &self.reservations;
        let ghost rows = by_time(rs@, ord@);
        let mut out: Vec<u64> = Vec::new();
        let mut i: usize = 0;
        while i < ord.len()
            invariant
                i <= ord@.len(),
                rs@ == self.reservations@,
                rows == by_time(rs@, ord@),
                is_stable_order(row_times(self.reservations@), ord@),
                out@ == list_users(rows.take(i as int), event_id, waiting),
            decreases ord@.len() - i,
        {
            assert(rows.take(i + 1).drop_last() =~= rows.take(i as int));
            let r = &rs[ord[i]];
            if r.event == event_id && r.waiting_list == waiting && !contains_u64(&out, r.user) {
                out.push(r.user);
            }
            i += 1;
        }
        assert(rows.take(rows.len() as int) =~= rows);
        out
    }

    fn reservations_by_time(&self) -> (r: Vec<usize>)
        ensures
            is_stable_order(row_times(self.reservations@), r@),
    {
        let mut keys: Vec<u64> = Vec::new();
        let mut k: usize = 0;
        while k < self.reservations.len()
            invariant
                k <= self.reservations@.len(),
                keys@ =~= row_times(self.reservations@).take(k as int),
            decreases self.reservations@.len() - k,
        {
            keys.push(self.reservations[k].ts);
            k += 1;
        }
        assert(keys@ =~= row_times(self.reservations@));
        order_by_key(&keys)
    }

    fn list_user_ids(&self, event_id: u64, waiting: bool) -> (r: Vec<u64>)
        ensures
            r@ == list_users(self.reservations@, event_id, waiting),
    {
        let rs = &self.reservations;
        let mut out: Vec<u64> = Vec::new();
        let mut i: usize = 0;
        while i < rs.len()
            invariant
                i <= rs@.len(),
                rs@ == self.reservations@,
                out@ == list_users(rs@.take(i as int), event_id, waiting),
            decreases rs@.len() - i,
        {
            assert(rs@.take(i + 1).drop_last() =~= rs@.take(i as int));
            let r = &rs[i];
            if r.event == event_id && r.waiting_list == waiting && !contains_u64(&out, r.user) {
                out.push(r.user);
            }
            i += 1;
        }
        assert(rs@.take(rs@.len() as int) =~= rs@);
        out
    }

    fn first_row_of(&self, event_id: u64, user: u64, waiting: bool) -> (r: Option<usize>)
        ensures
            match r {
                Some(i) => i == first_row_from(
                    self.reservations@,
                    row_of(event_id, user, waiting),
                    0,
                ) && i < self.reservations@.len(),
                None => first_row_from(self.reservations@, row_of(event_id, user, waiting), 0)
                    == -1,
            },
    {
        proof {
            lemma_first_row_from(self.reservations@, row_of(event_id, user, waiting), 0);
        }
        let mut i: usize = 0;
        while i < self.reservations.len()
            invariant
                i <= self.reservations@.len(),
                first_row_from(self.reservations@, row_of(event_id, user, waiting), 0)
                    == first_row_from(
                    self.reservations@,
                    row_of(event_id, user, waiting),
                    i as int,
                ),
            decreases self.reservations@.len() - i,
        {
            let r = &self.reservations[i];
            if r.event == event_id && r.user == user && r.waiting_list == waiting {
                return Some(i);
            }
            i += 1;
        }
        None
    }

    fn count_rows(&self, event_id: u64, user: u64, waiting: bool) -> (r: u64)
        ensures
            r == row_count(self.reservations@, event_id, user, waiting),
    {
        let rs = &self.reservations;
        let mut n: u64 = 0;
        let mut i: usize = 0;
        while i < rs.len()
            invariant
                i <= rs@.len(),
                rs@ == self.reservations@,
                n == row_count(rs@.take(i as int), event_id, user, waiting),
                n <= i,
            decreases rs@.len() - i,
        {
            assert(rs@.take(i + 1).drop_last() =~= rs@.take(i as int));
            let r = &rs[i];
            if r.event == event_id && r.user == user && r.waiting_list == waiting {
                n = n + 1;
            }
            i += 1;
        }
        assert(rs@.take(rs@.len() as int) =~= rs@);
        n
    }

    /// One page of the participants on one list of the event (`limit == 0`
    /// gives all), each user once with the sums of the user's rows there and
    /// the user's note, oldest reservation first (by creation time, then by
    /// position).
    pub fn get_participants(&self, event_id: u64, waiting: bool, offset: u64, limit: u64) -> (r: Vec<
        Participant,
    >)
        ensures
            exists|ord: Seq<usize>|
                is_stable_order(row_times(self.reservations@), ord) && #[trigger] participants_page(
                    *self,
                    page(
                        list_users(by_time(self.reservations@, ord), event_id, waiting),
                        offset as int,
                        limit as int,
                    ),
                    event_id,
                    waiting,
                    r@,
                ),
    {
        let ord = self.reservations_by_time();
        let all = self.list_user_ids_by(event_id, waiting, &ord);
        let us = page_u64(&all, offset, limit);
        let mut out: Vec<Participant> = Vec::new();
        let mut i: usize = 0;
        while i < us.len()
            invariant
                i <= us@.len(),
                us@ == page(
                    list_users(by_time(self.reservations@, ord@), event_id, waiting),
                    offset as int,
                    limit as int,
                ),
                is_stable_order(row_times(self.reservations@), ord@),
                out@.len() == i,
                forall|j: int|
                    0 <= j < i ==> {
                        let p = #[trigger] out@[j];
                        let k = attachment_index(self.attachments@, event_id, us@[j]);
                        &&& p.user_id == us@[j]
                        &&& p.adults == clamp(
                            sum_qty(self.reservations@, event_id, Some(us@[j]), waiting, false),
                        )
                        &&& p.children == clamp(
                            sum_qty(self.reservations@, event_id, Some(us@[j]), waiting, true),
                        )
                        &&& names_of(
                            self.reservations@,
                            event_id,
                            us@[j],
                            waiting,
                            p.user_name1,
                            p.user_name2,
                        )
                        &&& k < 0 ==> p.attachment is None
                        &&& k >= 0 ==> p.attachment == Some(self.attachments@[k].text)
                    },
            decreases us@.len() - i,
        {
            let u = us[i];
            let (name1, name2) = match self.first_row_of(event_id, u, waiting) {
                Some(f) => (
                    self.reservations[f].user_name1.clone(),
                    self.reservations[f].user_name2.clone(),
                ),
                None => (String::new(), String::new()),
            };
            let adults = self.sum_reserved(event_id, Some(u), waiting, false);
            let children = self.sum_reserved(event_id, Some(u), waiting, true);
            out.push(
                Participant {
                    user_id: u,
                    user_name1: name1,
                    user_name2: name2,
                    adults: if adults > u64::MAX as u128 {
                        u64::MAX
                    } else {
                        adults as u64
                    },
                    children: if children > u64::MAX as u128 {
                        u64::MAX
                    } else {
                        children as u64
                    },
                    attachment: self.get_attachment(event_id, u),
                },
            );
            i += 1;
        }
        assert(participants_page(*self, us@, event_id, waiting, out@));
        out
    }

    /// One page of the holders of active reservations for the event whose
    /// presence is not confirmed yet, ordered by name (equal names in the
    /// order of their first rows), with their number of active rows and their
    /// note: `limit` holders from holder `offset * limit` on.
    pub fn get_presence_list(&self, event_id: u64, offset: u64, limit: u64) -> (r: Vec<Presence>)
        ensures
            exists|ord: Seq<usize>|
                is_text_order(absent_names(*self, event_id), ord) && #[trigger] presence_page(
                    *self,
                    event_id,
                    ord,
                    offset as int,
                    limit as int,
                    r@,
                ),
    {
        let all = self.list_user_ids(event_id, false);
        let ghost p = |u: u64| !present(self.presence@, event_id, u);
        let mut absent: Vec<u64> = Vec::new();
        let mut i: usize = 0;
        while i < all.len()
            invariant
                i <= all@.len(),
                all@ == list_users(self.reservations@, event_id, false),
                p == (|u: u64| !present(self.presence@, event_id, u)),
                absent@ == all@.take(i as int).filter(p),
            decreases all@.len() - i,
        {
            proof {
                crate::rows::lemma_filter_take_step(all@, p, i as int);
            }
            if !self.is_marked(event_id, all[i], false) {
                absent.push(all[i]);
            }
            i += 1;
        }
        assert(all@.take(all@.len() as int) =~= all@);
        let mut names: Vec<String> = Vec::new();
        let mut k: usize = 0;
        while k < absent.len()
            invariant
                k <= absent@.len(),
                absent@ == absent_users(*self, event_id),
                names@.len() == k,
                texts(names@) =~= absent_names(*self, event_id).take(k as int),
            decreases absent@.len() - k,
        {
            let ghost prev = names@;
            let name = match self.first_row_of(event_id, absent[k], false) {
                Some(f) => self.reservations[f].user_name1.clone(),
                None => String::new(),
            };
            names.push(name);
            proof {
                assert forall|j: int| 0 <= j < k + 1 implies texts(names@)[j] == absent_names(
                    *self,
                    event_id,
                )[j] by {
                    if j < k {
                        assert(names@[j] == prev[j]);
                        assert(texts(prev)[j] == absent_names(*self, event_id).take(k as int)[j]);
                    }
                }
                assert(texts(names@) =~= absent_names(*self, event_id).take(k + 1));
            }
            k += 1;
        }
        assert(texts(names@) =~= absent_names(*self, event_id));
        let ord = order_by_text(&names);
        proof {
            assert(offset as int * limit as int <= 0xffff_ffff_ffff_ffffint * 0xffff_ffff_ffff_ffffint)
                by (nonlinear_arith)
                requires
                    offset <= 0xffff_ffff_ffff_ffffint,
                    limit <= 0xffff_ffff_ffff_ffffint,
            ;
        }
        let start: u128 = offset as u128 * limit as u128;
        let mut out: Vec<Presence> = Vec::new();
        if start >= absent.len() as u128 {
            assert(presence_page(*self, event_id, ord@, offset as int, limit as int, out@));
            return out;
        }
        let start = start as usize;
        let mut i: usize = start;
        while i < absent.len() && ((i - start) as u64) < limit
            invariant
                start <= i <= absent@.len(),
                start == offset * limit,
                absent@ == absent_users(*self, event_id),
                is_text_order(absent_names(*self, event_id), ord@),
                out@.len() == i - start,
                out@.len() <= limit,
                forall|j: int|
                    0 <= j < out@.len() ==> shows_absentee(
                        *self,
                        event_id,
                        absent@[ord@[offset * limit + j] as int],
                        #[trigger] out@[j],
                    ),
            decreases absent@.len() - i,
        {
            let u = absent[ord[i]];
            let (name1, name2) = match self.first_row_of(event_id, u, false) {
                Some(f) => (
                    self.reservations[f].user_name1.clone(),
                    self.reservations[f].user_name2.clone(),
                ),
                None => (String::new(), String::new()),
            };
            out.push(
                Presence {
                    user_id: u,
                    user_name1: name1,
                    user_name2: name2,
                    reserved: self.count_rows(event_id, u, false),
                    attachment: self.get_attachment(event_id, u),
                },
            );
            i += 1;
        }
        assert(presence_page(*self, event_id, ord@, offset as int, limit as int, out@));
        out
    }

    /// The direct messages of the event, of one list or of both, ordered by
    /// creation time (then by position); messages without a sender are left
    /// out.
    pub fn get_messages(&self, event_id: u64, waiting_list: Option<bool>) -> (r: Vec<Message>)
        ensures
            exists|ord: Seq<usize>|
                is_stable_order(message_times(self.messages@), ord) && r@ == #[trigger] messages_by(
                    self.messages@,
                    ord,
                ).filter(listed_message(event_id, waiting_list)),
    {
        let mut keys: Vec<u64> = Vec::new();
        let mut k: usize = 0;
        while k < self.messages.len()
            invariant
                k <= self.messages@.len(),
                keys@ =~= message_times(self.messages@).take(k as int),
            decreases self.messages@.len() - k,
        {
            keys.push(self.messages[k].ts);
            k += 1;
        }
        assert(keys@ =~= message_times(self.messages@));
        let ord = order_by_key(&keys);
        let ghost p = listed_message(event_id, waiting_list);
        let ghost ms = messages_by(self.messages@, ord@);
        let mut out: Vec<Message> = Vec::new();
        let mut i: usize = 0;
        while i < ord.len()
            invariant
                i <= ord@.len(),
                is_stable_order(message_times(self.messages@), ord@),
                ms == messages_by(self.messages@, ord@),
                p == listed_message(event_id, waiting_list),
                out@ == ms.take(i as int).filter(p),
            decreases ord@.len() - i,
        {
            proof {
                crate::rows::lemma_filter_take_step(ms, p, i as int);
            }
            let m = &self.messages[ord[i]];
            let scope_ok = match waiting_list {
                Some(w) => m.waiting_list == w,
                None => true,
            };
            if m.event == event_id && m.message_type == MessageType::Direct && !m.sender.as_str().is_empty()
                && scope_ok {
                out.push(crate::rows::Row::duplicate(m));
            }
            i += 1;
        }
        assert(ms.take(ms.len() as int) =~= ms);
        out
    }
}

} // verus!
