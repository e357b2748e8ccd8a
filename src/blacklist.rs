use crate::rows::{delete_where, unselected, Selector};
use crate::store::{
    blacklisted, event_index, BlacklistEntry, Mark, Reservation, Store, StoreError,
};
use crate::order::{is_text_order, order_by_text, texts};
use crate::types::User;
use std::collections::HashSet;
use vstd::prelude::*;
use vstd::string::StringExecFns;

verus! {

broadcast use vstd::std_specs::hash::group_hash_axioms;

/// Decimal digits of a number.
pub open spec fn decimal(n: nat) -> Seq<char>
    decreases n,
{
    if n < 10 {
        seq![digit(n)]
    } else {
        decimal(n / 10).push(digit(n % 10))
    }
}

pub open spec fn digit(d: nat) -> char {
    if d == 0 { '0' }
    else if d == 1 { '1' }
    else if d == 2 { '2' }
    else if d == 3 { '3' }
    else if d == 4 { '4' }
    else if d == 5 { '5' }
    else if d == 6 { '6' }
    else if d == 7 { '7' }
    else if d == 8 { '8' }
    else { '9' }
}

fn digit_str(d: u64) -> (r: &'static str)
    requires
        d < 10,
    ensures
        r@ == seq![digit(d as nat)],
{
    if d == 0 {
        proof {
            reveal_strlit("0");
        }
        "0"
    } else if d == 1 {
        proof {
            reveal_strlit("1");
        }
        "1"
    } else if d == 2 {
        proof {
            reveal_strlit("2");
        }
        "2"
    } else if d == 3 {
        proof {
            reveal_strlit("3");
        }
        "3"
    } else if d == 4 {
        proof {
            reveal_strlit("4");
        }
        "4"
    } else if d == 5 {
        proof {
            reveal_strlit("5");
        }
        "5"
    } else if d == 6 {
        proof {
            reveal_strlit("6");
        }
        "6"
    } else if d == 7 {
        proof {
            reveal_strlit("7");
        }
        "7"
    } else if d == 8 {
        proof {
            reveal_strlit("8");
        }
        "8"
    } else {
        proof {
            reveal_strlit("9");
        }
        "9"
    }
}

/// The decimal digits of `n`, without sign or padding.
pub fn decimal_string(n: u64) -> (r: String)
    ensures
        r@ == decimal(n as nat),
    decreases n,
{
    if n < 10 {
        String::from_str(digit_str(n))
    } else {
        let mut s = decimal_string(n / 10);
        s.append(digit_str(n % 10));
        assert(s@ =~= decimal(n as nat));
        s
    }
}

/// Every table but the blacklist and the reservations is the same.
pub open spec fn same_but_bans(a: Store, b: Store) -> bool {
    &&& a.events@ == b.events@
    &&& a.attachments@ == b.attachments@
    &&& a.presence@ == b.presence@
    &&& a.group_leaders@ == b.group_leaders@
    &&& a.current_events@ == b.current_events@
    &&& a.messages@ == b.messages@
    &&& a.outbox@ == b.outbox@
    &&& a.receipts@ == b.receipts@
    &&& a.next_event_id == b.next_event_id
    &&& a.next_message_id == b.next_message_id
}

/// The user holds an active reservation for the event.
pub open spec fn active_holder(rs: Seq<Reservation>, event_id: u64, user: u64) -> bool {
    exists|i: int|
        0 <= i < rs.len() && rs[i].event == event_id && rs[i].user == user && !rs[i].waiting_list
}

/// Presence of the user at the event was confirmed.
pub open spec fn present(ps: Seq<Mark>, event_id: u64, user: u64) -> bool {
    exists|i: int| 0 <= i < ps.len() && ps[i].event == event_id && ps[i].user == user
}

/// Some presence at the event was confirmed.
pub open spec fn presence_used(ps: Seq<Mark>, event_id: u64) -> bool {
    exists|i: int| 0 <= i < ps.len() && ps[i].event == event_id
}

/// A holder of an active reservation who did not come and is no admin.
pub open spec fn absentee(s: Store, event_id: u64, user: u64, admins: Set<u64>) -> bool {
    active_holder(s.reservations@, event_id, user) && !present(s.presence@, event_id, user)
        && !admins.contains(user)
}

/// Every row of `b` is a row of `a`.
pub open spec fn rows_within<A>(a: Seq<A>, b: Seq<A>) -> bool {
    forall|i: int| 0 <= i < b.len() ==> a.contains(#[trigger] b[i])
}

pub proof fn lemma_filter_within<A>(s: Seq<A>, p: spec_fn(A) -> bool)
    ensures
        rows_within(s, s.filter(p)),
{
    assert forall|i: int| 0 <= i < s.filter(p).len() implies s.contains(#[trigger] s.filter(p)[i]) by {
        assert(s.filter(p).contains(s.filter(p)[i]));
        s.lemma_filter_contains_rev(p, s.filter(p)[i]);
    }
}

/// What banning does to the reservation table.
pub open spec fn after_ban(before: Seq<Reservation>, user: u64, cascade: bool) -> Seq<Reservation> {
    if cascade {
        before.filter(unselected::<Reservation>(Selector::User(user)))
    } else {
        before
    }
}

impl Store {
    /// Bans the user; with `cascade` all the user's reservation rows, of every
    /// event, are deleted too (no waiting list is prompted for them). A user
    /// who is banned already is refused with `Duplicate`.
    pub fn ban_user(
        &mut self,
        user: u64,
        user_name1: &str,
        user_name2: &str,
        reason: &str,
        cascade: bool,
        now: u64,
    ) -> (r: Result<(), StoreError>)
        ensures
            blacklisted(old(self).black_list@, user) ==> r == Err::<(), StoreError>(
                StoreError::Duplicate,
            ) && *final(self) == *old(self),
            !blacklisted(old(self).black_list@, user) ==> {
                &&& r is Ok
                &&& final(self).black_list@.len() == old(self).black_list@.len() + 1
                &&& final(self).black_list@.drop_last() == old(self).black_list@
                &&& final(self).black_list@.last().user == user
                &&& final(self).black_list@.last().user_name1@ == user_name1@
                &&& final(self).black_list@.last().user_name2@ == user_name2@
                &&& final(self).black_list@.last().reason@ == reason@
                &&& final(self).black_list@.last().ts == now
                &&& final(self).reservations@ == after_ban(old(self).reservations@, user, cascade)
                &&& same_but_bans(*old(self), *final(self))
            },
    {
        if self.is_in_black_list(user) {
            return Err(StoreError::Duplicate);
        }
        self.black_list.push(
            BlacklistEntry {
                user,
                user_name1: user_name1.to_owned(),
                user_name2: user_name2.to_owned(),
                ts: now,
                reason: reason.to_owned(),
            },
        );
        if cascade {
            delete_where(&mut self.reservations, Selector::User(user));
        }
        proof {
            assert(self.black_list@.drop_last() =~= old(self).black_list@);
        }
        Ok(())
    }

    /// Bans the user by an admin's decision, with the names found on any of
    /// the user's reservation rows (else the id as the name).
    pub fn add_to_black_list(&mut self, user: u64, cascade: bool, now: u64) -> (r: Result<
        (),
        StoreError,
    >)
        ensures
            blacklisted(old(self).black_list@, user) ==> r == Err::<(), StoreError>(
                StoreError::Duplicate,
            ) && *final(self) == *old(self),
            !blacklisted(old(self).black_list@, user) ==> {
                &&& r is Ok
                &&& final(self).black_list@.drop_last() == old(self).black_list@
                &&& final(self).black_list@.len() == old(self).black_list@.len() + 1
                &&& final(self).black_list@.last().user == user
                &&& final(self).black_list@.last().reason@ == "banned by admin"@
                &&& (forall|i: int|
                    0 <= i < old(self).reservations@.len() ==> old(self).reservations@[i].user
                        != user) ==> final(self).black_list@.last().user_name1@ == decimal(
                    user as nat,
                ) && final(self).black_list@.last().user_name2@.len() == 0
                &&& (exists|f: int|
                    0 <= f < old(self).reservations@.len() && old(self).reservations@[f].user == user)
                    ==> exists|f: int|
                    0 <= f < old(self).reservations@.len() && old(self).reservations@[f].user == user
                        && (forall|j: int|
                        0 <= j < f ==> old(self).reservations@[j].user != user)
                        && final(self).black_list@.last().user_name1@
                        == old(self).reservations@[f].user_name1@
                        && final(self).black_list@.last().user_name2@
                        == old(self).reservations@[f].user_name2@
                &&& final(self).reservations@ == after_ban(old(self).reservations@, user, cascade)
                &&& same_but_bans(*old(self), *final(self))
            },
    {
        let mut i: usize = 0;
        let mut found: Option<usize> = None;
        while i < self.reservations.len()
            invariant
                i <= self.reservations@.len(),
                found.is_none() ==> forall|k: int| 0 <= k < i ==> self.reservations@[k].user != user,
                found matches Some(f) ==> f < self.reservations@.len()
                    && self.reservations@[f as int].user == user && forall|j: int|
                    0 <= j < f ==> self.reservations@[j].user != user,
            decreases self.reservations@.len() - i,
        {
            if found.is_none() && self.reservations[i].user == user {
                found = Some(i);
            }
            i += 1;
        }
        let (name1, name2) = match found {
            Some(f) => (
                self.reservations[f].user_name1.clone(),
                self.reservations[f].user_name2.clone(),
            ),
            None => (decimal_string(user), String::new()),
        };
        self.ban_user(user, name1.as_str(), name2.as_str(), "banned by admin", cascade, now)
    }

    /// Lifts the user's ban.
    pub fn remove_from_black_list(&mut self, user: u64)
        ensures
            final(self).black_list@ == old(self).black_list@.filter(
                unselected::<BlacklistEntry>(Selector::User(user)),
            ),
            !blacklisted(final(self).black_list@, user),
            final(self).reservations@ == old(self).reservations@,
            same_but_bans(*old(self), *final(self)),
    {
        delete_where(&mut self.black_list, Selector::User(user));
        proof {
            broadcast use vstd::seq_lib::group_filter_ensures;

        }
    }

    /// Lifts every ban recorded before `cutoff`.
    pub fn clear_black_list(&mut self, cutoff: u64)
        ensures
            final(self).black_list@ == old(self).black_list@.filter(
                unselected::<BlacklistEntry>(Selector::Before(cutoff)),
            ),
            forall|i: int|
                0 <= i < final(self).black_list@.len() ==> final(self).black_list@[i].ts >= cutoff,
            final(self).reservations@ == old(self).reservations@,
            same_but_bans(*old(self), *final(self)),
    {
        delete_where(&mut self.black_list, Selector::Before(cutoff));
        proof {
            broadcast use vstd::seq_lib::group_filter_ensures;

        }
    }

    /// Why the user was banned; "unknown user" when the user is not banned.
    pub fn get_ban_reason(&self, user: u64) -> (r: String)
        ensures
            blacklisted(self.black_list@, user) ==> exists|k: int|
                0 <= k < self.black_list@.len() && self.black_list@[k].user == user && (forall|
                    j: int,
                | 0 <= j < k ==> self.black_list@[j].user != user) && r@
                    == self.black_list@[k].reason@,
            !blacklisted(self.black_list@, user) ==> r@ == "unknown user"@,
    {
        let mut i: usize = 0;
        while i < self.black_list.len()
            invariant
                i <= self.black_list@.len(),
                forall|k: int| 0 <= k < i ==> self.black_list@[k].user != user,
            decreases self.black_list@.len() - i,
        {
            if self.black_list[i].user == user {
                return self.black_list[i].reason.clone();
            }
            i += 1;
        }
        String::from_str("unknown user")
    }

    /// One page of banned users ordered by name (equal names in the order
    /// they were banned): `limit` entries from entry `offset * limit` on.
    pub fn get_black_list(&self, offset: u64, limit: u64) -> (r: Vec<User>)
        ensures
            exists|ord: Seq<usize>|
                is_text_order(ban_names(self.black_list@), ord) && #[trigger] bans_page(
                    self.black_list@,
                    ord,
                    offset as int,
                    limit as int,
                    r@,
                ),
    {
        let mut names: Vec<String> = Vec::new();
        let mut k: usize = 0;
        while k < self.black_list.len()
            invariant
                k <= self.black_list@.len(),
                names@.len() == k,
                texts(names@) =~= ban_names(self.black_list@).take(k as int),
            decreases self.black_list@.len() - k,
        {
            let ghost prev = names@;
            names.push(self.black_list[k].user_name1.clone());
            proof {
                assert forall|j: int| 0 <= j < k + 1 implies texts(names@)[j] == ban_names(
                    self.black_list@,
                )[j] by {
                    if j < k {
                        assert(names@[j] == prev[j]);
                        assert(texts(prev)[j] == ban_names(self.black_list@).take(k as int)[j]);
                    }
                }
                assert(texts(names@) =~= ban_names(self.black_list@).take(k + 1));
            }
            k += 1;
        }
        assert(texts(names@) =~= ban_names(self.black_list@));
        let ord = order_by_text(&names);
        proof {
            assert(offset as int * limit as int <= 0xffff_ffff_ffff_ffffint * 0xffff_ffff_ffff_ffffint)
                by (nonlinear_arith)
                requires
                    offset <= 0xffff_ffff_ffff_ffffint,
                    limit <= 0xffff_ffff_ffff_ffffint,
            ;
        }
        let start: u128 = offset as u128 * limit as u128;
        let mut out: Vec<User> = Vec::new();
        if start >= self.black_list.len() as u128 {
            assert(bans_page(self.black_list@, ord@, offset as int, limit as int, out@));
            return out;
        }
        let start = start as usize;
        let mut i: usize = start;
        while i < self.black_list.len() && ((i - start) as u64) < limit
            invariant
                start <= i <= self.black_list@.len(),
                start == offset * limit,
                is_text_order(ban_names(self.black_list@), ord@),
                out@.len() == i - start,
                out@.len() <= limit,
                forall|j: int|
                    0 <= j < out@.len() ==> shows_ban(
                        self.black_list@[ord@[offset * limit + j] as int],
                        #[trigger] out@[j],
                    ),
            decreases self.black_list@.len() - i,
        {
            let e = &self.black_list[ord[i]];
            out.push(
                User {
                    id: e.user,
                    user_name1: e.user_name1.clone(),
                    user_name2: e.user_name2.clone(),
                    is_admin: false,
                },
            );
            i += 1;
        }
        assert(bans_page(self.black_list@, ord@, offset as int, limit as int, out@));
        out
    }
}

/// The names of the banned users, in the order they were banned.
pub open spec fn ban_names(bl: Seq<BlacklistEntry>) -> Seq<Seq<char>> {
    Seq::new(bl.len(), |i: int| bl[i].user_name1@)
}

/// `u` shows the banned user.
pub open spec fn shows_ban(e: BlacklistEntry, u: User) -> bool {
    &&& u.id == e.user
    &&& u.user_name1 == e.user_name1
    &&& u.user_name2 == e.user_name2
    &&& !u.is_admin
}

/// `r` is the page `offset` of `limit` bans in the order `ord`.
pub open spec fn bans_page(
    bl: Seq<BlacklistEntry>,
    ord: Seq<usize>,
    offset: int,
    limit: int,
    r: Seq<User>,
) -> bool {
    &&& r.len() == page_len(bl.len() as int, offset, limit)
    &&& forall|j: int| 0 <= j < r.len() ==> shows_ban(bl[ord[offset * limit + j] as int], #[trigger] r[j])
}

/// Length of the page `offset` of `limit` rows out of `n`.
pub open spec fn page_len(n: int, offset: int, limit: int) -> int {
    let start = offset * limit;
    if start >= n {
        0
    } else if n - start < limit {
        n - start
    } else {
        limit
    }
}

} // verus!
