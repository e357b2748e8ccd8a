use vstd::prelude::*;

verus! {

/// Free places of one category: the limit minus what active reservations
/// hold, and none once the limit is reached or exceeded. This is the
/// per-category figure shown to users; whether the event as a whole has
/// vacancy is decided on the signed totals (see `store::has_vacancy`).
pub open spec fn vacant(max: int, reserved: int) -> int {
    if reserved >= max {
        0
    } else {
        max - reserved
    }
}

/// Vacancy of an event per category, from its limits and the sums of its
/// active reservations.
pub fn get_vacancies(max_adults: u64, max_children: u64, reserved_adults: u128, reserved_children: u128) -> (r: (u64, u64))
    ensures
        r.0 == vacant(max_adults as int, reserved_adults as int),
        r.1 == vacant(max_children as int, reserved_children as int),
{
    let a: u64 = if reserved_adults >= max_adults as u128 {
        0
    } else {
        max_adults - reserved_adults as u64
    };
    let c: u64 = if reserved_children >= max_children as u128 {
        0
    } else {
        max_children - reserved_children as u64
    };
    (a, c)
}

/// An event has vacancy when its limits of both categories together exceed
/// the active reservations of both together; an overbooked category counts
/// against the free places of the other.
pub fn have_vacancies(max_adults: u64, max_children: u64, reserved_adults: u128, reserved_children: u128) -> (r: bool)
    ensures
        r == ((max_adults - reserved_adults) + (max_children - reserved_children) > 0),
{
    let total = max_adults as u128 + max_children as u128;
    if reserved_adults >= total {
        false
    } else {
        total - reserved_adults > reserved_children
    }
}

} // verus!
