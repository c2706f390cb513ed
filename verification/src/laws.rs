//! Laws of the calendar operations, stated over the result predicates that
//! the operations' contracts use: idempotence of rolling, strictness and
//! extremality of stepping, the override rules for holidays and extra
//! working dates, the zero-step anchoring of add and subtract, and the
//! existence of business days on calendars with a working weekday.

use vstd::prelude::*;

use crate::calendar::Calendar;
use crate::date::Date;
use crate::date::weekday_index;
use crate::date::weekday_number;

verus! {

/// Rolling forward never moves a date that is already a business day.
pub proof fn lemma_roll_forward_identity(c: Calendar, d: int, r: int)
    requires
        c.business(d),
        c.rolled_forward(d, r),
    ensures
        r == d,
{
    if d < r {
        assert(!c.business(d));
    }
}

/// Rolling backward never moves a date that is already a business day.
pub proof fn lemma_roll_backward_identity(c: Calendar, d: int, r: int)
    requires
        c.business(d),
        c.rolled_backward(d, r),
    ensures
        r == d,
{
    if r < d {
        assert(!c.business(d));
    }
}

/// Rolling forward is deterministic: the rolled result of a date is unique.
pub proof fn lemma_roll_forward_unique(c: Calendar, d: int, r1: int, r2: int)
    requires
        c.rolled_forward(d, r1),
        c.rolled_forward(d, r2),
    ensures
        r1 == r2,
{
    if r1 < r2 {
        assert(!c.business(r1));
    }
    if r2 < r1 {
        assert(!c.business(r2));
    }
}

/// Rolling backward is deterministic: the rolled result of a date is unique.
pub proof fn lemma_roll_backward_unique(c: Calendar, d: int, r1: int, r2: int)
    requires
        c.rolled_backward(d, r1),
        c.rolled_backward(d, r2),
    ensures
        r1 == r2,
{
    if r1 < r2 {
        assert(!c.business(r2));
    }
    if r2 < r1 {
        assert(!c.business(r1));
    }
}

/// Stepping forward is strict: the next business day differs from the input,
/// even when the input is itself a business day.
pub proof fn lemma_next_business_day_strict(c: Calendar, d: int, r: int)
    requires
        c.next_after(d, r),
    ensures
        r != d,
{
}

/// Stepping backward is strict: the previous business day differs from the
/// input, even when the input is itself a business day.
pub proof fn lemma_previous_business_day_strict(c: Calendar, d: int, r: int)
    requires
        c.previous_before(d, r),
    ensures
        r != d,
{
}

/// The next business day is the smallest business day strictly after `d`:
/// no business day after `d` comes before it.
pub proof fn lemma_next_business_day_minimal(c: Calendar, d: int, r: int, k: int)
    requires
        c.next_after(d, r),
        c.business(k),
        d < k,
    ensures
        r <= k,
{
    if k < r {
        assert(!c.business(k));
    }
}

/// The previous business day is the largest business day strictly before
/// `d`: no business day before `d` comes after it.
pub proof fn lemma_previous_business_day_maximal(c: Calendar, d: int, r: int, k: int)
    requires
        c.previous_before(d, r),
        c.business(k),
        k < d,
    ensures
        k <= r,
{
    if r < k {
        assert(!c.business(k));
    }
}

/// Stepping forward is deterministic: the next business day is unique.
pub proof fn lemma_next_business_day_unique(c: Calendar, d: int, r1: int, r2: int)
    requires
        c.next_after(d, r1),
        c.next_after(d, r2),
    ensures
        r1 == r2,
{
    lemma_next_business_day_minimal(c, d, r1, r2);
    lemma_next_business_day_minimal(c, d, r2, r1);
}

/// Stepping backward is deterministic: the previous business day is unique.
pub proof fn lemma_previous_business_day_unique(c: Calendar, d: int, r1: int, r2: int)
    requires
        c.previous_before(d, r1),
        c.previous_before(d, r2),
    ensures
        r1 == r2,
{
    lemma_previous_business_day_maximal(c, d, r1, r2);
    lemma_previous_business_day_maximal(c, d, r2, r1);
}

/// A date listed as an extra working date and not as a holiday is a business
/// day, even when its weekday is not one of the working days.
pub proof fn lemma_extra_working_override(c: Calendar, d: int)
    requires
        c.extra(d),
        !c.holiday(d),
    ensures
        c.business(d),
{
}

/// A holiday is never a business day, even when its weekday is a working day
/// and the calendar has no other exclusions.
pub proof fn lemma_holiday_override(c: Calendar, d: int)
    requires
        c.holiday(d),
    ensures
        !c.business(d),
{
}

/// Adding zero business days is exactly rolling forward: the two result
/// predicates agree.
pub proof fn lemma_add_zero_is_roll_forward(c: Calendar, d: int, r: int)
    ensures
        c.advanced(d, 0, r) <==> c.rolled_forward(d, r),
{
    c.lemma_count_zero(d, r);
}

/// Subtracting zero business days is exactly rolling backward: the two
/// result predicates agree.
pub proof fn lemma_subtract_zero_is_roll_backward(c: Calendar, d: int, r: int)
    ensures
        c.retreated(d, 0, r) <==> c.rolled_backward(d, r),
{
    c.lemma_count_zero(r + 1, d + 1);
}

/// Advancing by a count is deterministic: the result is unique.
pub proof fn lemma_advanced_unique(c: Calendar, d: int, n: nat, r1: int, r2: int)
    requires
        c.advanced(d, n, r1),
        c.advanced(d, n, r2),
    ensures
        r1 == r2,
{
    if r1 < r2 {
        c.lemma_count_split(d, r1, r2);
        assert(c.business_count(r1, r2) >= 1);
    }
    if r2 < r1 {
        c.lemma_count_split(d, r2, r1);
        assert(c.business_count(r2, r1) >= 1);
    }
}

/// Retreating by a count is deterministic: the result is unique.
pub proof fn lemma_retreated_unique(c: Calendar, d: int, n: nat, r1: int, r2: int)
    requires
        c.retreated(d, n, r1),
        c.retreated(d, n, r2),
    ensures
        r1 == r2,
{
    if r1 < r2 {
        c.lemma_count_split(r1 + 1, r2, d + 1);
        assert(c.business_count(r2, d + 1) >= 1 + c.business_count(r2 + 1, d + 1));
    }
    if r2 < r1 {
        c.lemma_count_split(r2 + 1, r1, d + 1);
        assert(c.business_count(r1, d + 1) >= 1 + c.business_count(r1 + 1, d + 1));
    }
}

/// Days a whole number of weeks apart fall on the same weekday.
pub proof fn lemma_weekday_step(d: int, j: int)
    ensures
        weekday_index(d + 7 * j) == weekday_index(d),
{
    vstd::arithmetic::div_mod::lemma_mod_multiples_vanish(j, d + 3, 7);
    assert(d + 7 * j + 3 == 7 * j + (d + 3));
}

/// The day `j` whole weeks after `start`.
spec fn week_later(start: int, j: int) -> int {
    start + 7 * j
}

/// The set of the first `n` members of the weekly progression out of
/// `start`.
spec fn progression(start: int, n: nat) -> Set<int> {
    Set::new(|x: int| exists|j: int| 0 <= j < n && x == #[trigger] week_later(start, j))
}

/// The first `n` members of a weekly progression are `n` distinct days.
proof fn lemma_progression_card(start: int, n: nat)
    ensures
        progression(start, n).finite(),
        progression(start, n).len() == n,
    decreases n,
{
    broadcast use vstd::set::group_set_axioms;

    if n == 0 {
        assert(progression(start, 0) =~= Set::<int>::empty());
    } else {
        let m = (n - 1) as nat;
        lemma_progression_card(start, m);
        let last = week_later(start, m as int);
        assert(!progression(start, m).contains(last));
        assert forall|x: int| progression(start, n).contains(x) implies progression(
            start,
            m,
        ).insert(last).contains(x) by {
            let j = choose|j: int| 0 <= j < n && x == #[trigger] week_later(start, j);
            if j < m {
                assert(progression(start, m).contains(x));
            }
        }
        assert forall|x: int| progression(start, m).insert(last).contains(x) implies progression(
            start,
            n,
        ).contains(x) by {
            if progression(start, m).contains(x) {
                let j = choose|j: int| 0 <= j < m && x == #[trigger] week_later(start, j);
                assert(0 <= j < n && x == week_later(start, j));
            } else {
                assert(x == week_later(start, m as int));
            }
        }
        assert(progression(start, n) =~= progression(start, m).insert(last));
    }
}

/// A calendar with at least one working weekday has a business day in every
/// window of `7 * (holiday count + 1)` consecutive days: such a window holds
/// one more day of that weekday than there are holidays, and only a holiday
/// can exclude such a day.
pub proof fn lemma_business_day_in_window(c: Calendar, lo: int)
    requires
        c.working_days@.len() > 0,
    ensures
        exists|k: int|
            lo <= k < lo + 7 * (c.holidays@.len() + 1) && c.business(k),
{
    broadcast use vstd::set::group_set_axioms;
    broadcast use vstd::seq_lib::seq_to_set_is_finite;

    let h = c.holidays@.len() as int;
    let w = weekday_number(c.working_days@[0]);
    let wi = weekday_index(lo);
    vstd::arithmetic::div_mod::lemma_mod_bound(lo + 3, 7);
    let step = if w >= wi {
        w - wi
    } else {
        w - wi + 7
    };
    let d0 = lo + step;
    assert(weekday_index(d0) == w) by {
        vstd::arithmetic::div_mod::lemma_fundamental_div_mod(lo + 3, 7);
        let q = (lo + 3) / 7;
        if w >= wi {
            assert(d0 + 3 == 7 * q + w);
            vstd::arithmetic::div_mod::lemma_mod_multiples_vanish(q, w, 7);
        } else {
            assert(d0 + 3 == 7 * (q + 1) + w);
            vstd::arithmetic::div_mod::lemma_mod_multiples_vanish(q + 1, w, 7);
        }
        vstd::arithmetic::div_mod::lemma_small_mod(w as nat, 7);
    }
    assert(c.works(w));
    if !(exists|k: int| lo <= k < lo + 7 * (h + 1) && c.business(k)) {
        assert forall|j: int| 0 <= j < h + 1 implies c.holiday(#[trigger] week_later(d0, j)) by {
            lemma_weekday_step(d0, j);
            assert(week_later(d0, j) == d0 + 7 * j);
            assert(lo <= d0 + 7 * j < lo + 7 * (h + 1));
            if !c.holiday(d0 + 7 * j) {
                assert(c.business(d0 + 7 * j));
            }
        }
        let days = c.holidays@.map_values(|p: Date| p@);
        let prog = progression(d0, (h + 1) as nat);
        lemma_progression_card(d0, (h + 1) as nat);
        assert forall|x: int| prog.contains(x) implies days.to_set().contains(x) by {
            let j = choose|j: int| 0 <= j < h + 1 && x == #[trigger] week_later(d0, j);
            assert(c.holiday(x));
            let i = choose|i: int| 0 <= i < c.holidays@.len() && c.holidays@[i]@ == x;
            assert(days[i] == x);
        }
        assert(prog.subset_of(days.to_set()));
        days.lemma_cardinality_of_set();
        vstd::set_lib::lemma_len_subset(prog, days.to_set());
        assert(false);
    }
}

/// On a calendar with a working weekday, `n` windows of
/// `7 * (holiday count + 1)` days hold at least `n` business days.
pub proof fn lemma_business_count_lower(c: Calendar, d: int, n: nat)
    requires
        c.working_days@.len() > 0,
    ensures
        c.business_count(d, d + n * (7 * (c.holidays@.len() + 1))) >= n,
    decreases n,
{
    let p = 7 * (c.holidays@.len() + 1) as int;
    if n > 0 {
        lemma_business_day_in_window(c, d);
        c.lemma_count_zero(d, d + p);
        assert(c.business_count(d, d + p) >= 1);
        lemma_business_count_lower(c, d + p, (n - 1) as nat);
        assert(d + p + (n - 1) * p == d + n * p) by (nonlinear_arith)
            requires
                n >= 1,
        ;
        c.lemma_count_split(d, d + p, d + n * p);
    }
}

/// On a calendar with a working weekday, at least `n` business days lie at
/// or after any day that leaves `n` windows' room below the largest
/// supported day.
pub proof fn lemma_has_businesses_from(c: Calendar, d: int, n: nat)
    requires
        c.working_days@.len() > 0,
        d <= i64::MAX,
        d + n * (7 * (c.holidays@.len() + 1)) <= i64::MAX,
    ensures
        c.has_businesses_from(d, n),
{
    if n == 0 {
        assert(c.business_count(d, d + 1) >= 0);
    } else {
        lemma_business_count_lower(c, d, n);
        let p = 7 * (c.holidays@.len() + 1) as int;
        assert(n * p >= 1) by (nonlinear_arith)
            requires
                n >= 1 && p >= 7,
        ;
        assert(d <= d + n * p - 1 <= i64::MAX && c.business_count(d, (d + n * p - 1) + 1) >= n);
    }
}

/// On a calendar with a working weekday, at least `n` business days lie at
/// or before any day that leaves `n` windows' room above the smallest
/// supported day.
pub proof fn lemma_has_businesses_until(c: Calendar, d: int, n: nat)
    requires
        c.working_days@.len() > 0,
        i64::MIN <= d,
        i64::MIN <= d + 1 - n * (7 * (c.holidays@.len() + 1)),
    ensures
        c.has_businesses_until(d, n),
{
    if n == 0 {
        assert(c.business_count(d, d + 1) >= 0);
    } else {
        let p = 7 * (c.holidays@.len() + 1) as int;
        let lo = d + 1 - n * p;
        lemma_business_count_lower(c, lo, n);
        assert(lo + n * p == d + 1);
        assert(n * p >= 1) by (nonlinear_arith)
            requires
                n >= 1 && p >= 7,
        ;
        assert(i64::MIN <= lo <= d && c.business_count(lo, d + 1) >= n);
    }
}

/// On a calendar with a working weekday, a business day lies at or after any
/// starting day that leaves a window's room below the largest supported day.
pub proof fn lemma_has_business_from(c: Calendar, d: int)
    requires
        c.working_days@.len() > 0,
        d + 7 * (c.holidays@.len() + 1) <= i64::MAX,
    ensures
        c.has_business_from(d),
{
    lemma_business_day_in_window(c, d);
}

/// On a calendar with a working weekday, a business day lies at or before
/// any starting day that leaves a window's room above the smallest supported
/// day.
pub proof fn lemma_has_business_until(c: Calendar, d: int)
    requires
        c.working_days@.len() > 0,
        i64::MIN <= d + 1 - 7 * (c.holidays@.len() + 1),
    ensures
        c.has_business_until(d),
{
    lemma_business_day_in_window(c, d + 1 - 7 * (c.holidays@.len() + 1));
}

} // verus!
