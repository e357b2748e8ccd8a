use event_bot::blacklist::decimal_string;
use event_bot::{Event, SignUpOutcome, Store, StoreError, User};
use std::collections::HashSet;

fn event(ts: u64) -> Event {
    Event {
        id: 0,
        name: "Hike".to_string(),
        link: "https://example.org/hike".to_string(),
        max_adults: 10,
        max_children: 10,
        max_adults_per_reservation: 5,
        max_children_per_reservation: 5,
        ts,
        remind: ts,
    }
}

fn user(id: u64) -> User {
    User { id, user_name1: format!("U{}", id), user_name2: format!("u{}", id), is_admin: false }
}

#[test]
fn ban_and_unban() {
    let mut s = Store::new();
    let id = s.add_event(event(1000), 1).unwrap();
    s.sign_up(id, &user(1), 1, 0, false, 10);
    assert_eq!(s.ban_user(1, "U1", "u1", "rude", true, 20), Ok(()));
    assert!(s.reservations.is_empty());
    assert!(s.is_in_black_list(1));
    assert_eq!(s.ban_user(1, "U1", "u1", "again", false, 21), Err(StoreError::Duplicate));
    assert_eq!(s.get_ban_reason(1), "rude");
    assert_eq!(s.get_ban_reason(2), "unknown user");
    s.remove_from_black_list(1);
    assert!(!s.is_in_black_list(1));
    assert_eq!(s.sign_up(id, &user(1), 1, 0, false, 30), SignUpOutcome::Inserted);
}

#[test]
fn admin_ban_takes_names() {
    let mut s = Store::new();
    let id = s.add_event(event(1000), 1).unwrap();
    s.sign_up(id, &user(3), 1, 0, false, 10);
    s.add_to_black_list(3, false, 20).unwrap();
    s.add_to_black_list(42, false, 20).unwrap();
    let list = s.get_black_list(0, 10);
    assert_eq!(list.len(), 2);
    assert_eq!(list[0].user_name1, "42");
    assert_eq!(list[0].user_name2, "");
    assert_eq!(list[1].user_name1, "U3");
    assert_eq!(s.black_list[0].reason, "banned by admin");
    assert_eq!(s.reservations.len(), 1);
    assert_eq!(s.get_black_list(1, 1).len(), 1);
    assert_eq!(s.get_black_list(2, 1).len(), 0);
}

#[test]
fn black_list_is_ordered_by_name() {
    let mut s = Store::new();
    s.ban_user(1, "Zoe", "", "r", false, 10).unwrap();
    s.ban_user(2, "Adam", "", "r", false, 11).unwrap();
    s.ban_user(3, "Mia", "", "r", false, 12).unwrap();
    s.ban_user(4, "Adam", "", "r", false, 13).unwrap();
    let ids: Vec<u64> = s.get_black_list(0, 10).iter().map(|u| u.id).collect();
    assert_eq!(ids, vec![2, 4, 3, 1]);
    let ids: Vec<u64> = s.get_black_list(1, 2).iter().map(|u| u.id).collect();
    assert_eq!(ids, vec![3, 1]);
}

#[test]
fn presence_list_is_ordered_by_name() {
    let mut s = Store::new();
    let id = s.add_event(event(1000), 1).unwrap();
    for (u, name) in [(1, "Zed"), (2, "Amy"), (3, "Kim")] {
        let who = User { id: u, user_name1: name.to_string(), user_name2: String::new(), is_admin: false };
        s.sign_up(id, &who, 1, 0, false, 10);
    }
    let ids: Vec<u64> = s.get_presence_list(id, 0, 10).iter().map(|p| p.user_id).collect();
    assert_eq!(ids, vec![2, 3, 1]);
    s.confirm_presence(id, 3).unwrap();
    let ids: Vec<u64> = s.get_presence_list(id, 0, 1).iter().map(|p| p.user_id).collect();
    assert_eq!(ids, vec![2]);
    assert!(s.get_presence_list(id, 0, 0).is_empty());
}

#[test]
fn clear_black_list_drops_old_entries() {
    let mut s = Store::new();
    s.ban_user(1, "a", "", "r", false, 10).unwrap();
    s.ban_user(2, "b", "", "r", false, 30).unwrap();
    s.clear_black_list(20);
    assert!(!s.is_in_black_list(1));
    assert!(s.is_in_black_list(2));
}

#[test]
fn absentees_are_banned() {
    let mut s = Store::new();
    let id = s.add_event(event(1000), 1).unwrap();
    for u in 1..=4 {
        s.sign_up(id, &user(u), 1, 0, false, 10);
    }
    s.sign_up(id, &user(5), 1, 0, true, 10);
    let admins: HashSet<u64> = [4].into_iter().collect();
    // nobody confirmed: nothing happens
    s.blacklist_absent_participants(id, &admins, false, 50);
    assert!(s.black_list.is_empty());
    s.confirm_presence(id, 1).unwrap();
    assert_eq!(s.confirm_presence(id, 1), Err(StoreError::Duplicate));
    s.blacklist_absent_participants(id, &admins, true, 50);
    assert!(!s.is_in_black_list(1));
    assert!(s.is_in_black_list(2));
    assert!(s.is_in_black_list(3));
    assert!(!s.is_in_black_list(4));
    assert!(!s.is_in_black_list(5));
    assert_eq!(s.get_ban_reason(2), "Hike");
    assert!(s.reservations.iter().all(|r| r.user != 2 && r.user != 3));
}

#[test]
fn old_events_are_cleared() {
    let mut s = Store::new();
    let old = s.add_event(event(500), 1).unwrap();
    let new = s.add_event(event(5000), 1).unwrap();
    s.sign_up(old, &user(1), 1, 0, false, 10);
    s.sign_up(new, &user(1), 1, 0, false, 10);
    s.add_attachment(old, 1, "note");
    s.confirm_presence(old, 1).unwrap();
    s.set_group_leader(old, 1);
    s.sign_up(old, &user(2), 1, 0, false, 10);
    let admins: HashSet<u64> = HashSet::new();
    s.clear_old_events(1000, true, false, &admins, 2000);
    assert!(s.events.iter().all(|e| e.event.id != old));
    assert!(s.reservations.iter().all(|r| r.event != old));
    assert!(s.attachments.iter().all(|a| a.event != old));
    assert!(s.presence.iter().all(|p| p.event != old));
    assert!(s.group_leaders.iter().all(|p| p.event != old));
    assert!(s.messages.iter().all(|m| m.event != old));
    assert_eq!(s.events.len(), 1);
    assert_eq!(s.reservations.len(), 1);
    assert!(s.is_in_black_list(2));
    assert!(!s.is_in_black_list(1));
}

#[test]
fn attachments_and_lists() {
    let mut s = Store::new();
    let id = s.add_event(event(1000), 1).unwrap();
    assert_eq!(s.add_attachment(id, 1, "hello"), 0);
    s.sign_up(id, &user(1), 1, 1, false, 10);
    s.sign_up(id, &user(1), 1, 0, false, 11);
    s.sign_up(id, &user(2), 2, 0, true, 12);
    assert_eq!(s.add_attachment(id, 1, "hello"), 1);
    assert_eq!(s.get_attachment(id, 1), Some("hello".to_string()));
    let long = "x".repeat(300);
    assert_eq!(s.add_attachment(id, 1, &long), 1);
    assert_eq!(s.get_attachment(id, 1), Some(long.clone()));
    assert_eq!(s.attachments.len(), 1);
    let p = s.get_participants(id, false, 0, 0);
    assert_eq!(p.len(), 1);
    assert_eq!((p[0].user_id, p[0].adults, p[0].children), (1, 2, 1));
    assert_eq!(p[0].attachment, Some(long));
    let w = s.get_participants(id, true, 0, 1);
    assert_eq!((w[0].user_id, w[0].adults), (2, 2));
    let pl = s.get_presence_list(id, 0, 10);
    assert_eq!(pl.len(), 1);
    assert_eq!(pl[0].reserved, 2);
    s.confirm_presence(id, 1).unwrap();
    assert!(s.get_presence_list(id, 0, 10).is_empty());
    assert!(!s.is_group_leader(id, 1));
    s.set_group_leader(id, 1);
    s.set_group_leader(id, 1);
    assert!(s.is_group_leader(id, 1));
    assert_eq!(s.group_leaders.len(), 1);
}

#[test]
fn participants_in_time_order() {
    let mut s = Store::new();
    let id = s.add_event(event(1000), 1).unwrap();
    s.sign_up(id, &user(1), 1, 0, false, 300);
    s.sign_up(id, &user(2), 1, 0, false, 100);
    s.sign_up(id, &user(3), 1, 0, false, 200);
    let ids: Vec<u64> = s.get_participants(id, false, 0, 0).iter().map(|p| p.user_id).collect();
    assert_eq!(ids, vec![2, 3, 1]);
    let ids: Vec<u64> = s.get_participants(id, false, 1, 2).iter().map(|p| p.user_id).collect();
    assert_eq!(ids, vec![1]);
}

#[test]
fn decimal_digits() {
    assert_eq!(decimal_string(0), "0");
    assert_eq!(decimal_string(1234), "1234");
    assert_eq!(decimal_string(u64::MAX), u64::MAX.to_string());
}

#[test]
fn absentee_ban_reason_and_cascade() {
    let mut s = Store::new();
    let id = s.add_event(event(1000), 1).unwrap();
    let other = s.add_event(event(2000), 1).unwrap();
    s.sign_up(id, &user(1), 1, 0, false, 10);
    s.sign_up(id, &user(2), 1, 0, false, 10);
    s.sign_up(other, &user(2), 1, 0, false, 10);
    s.confirm_presence(id, 1).unwrap();
    s.blacklist_absent_participants(id, &HashSet::new(), true, 50);
    assert_eq!(s.get_ban_reason(2), "Hike");
    assert!(s.reservations.iter().all(|r| r.user != 2));
    assert_eq!(s.reservations.len(), 1);
}
