//! The calendar itself: working weekdays, holidays, extra working dates,
//! and the business-day arithmetic over them.

use vstd::prelude::*;

use crate::date::Date;
use crate::date::Weekday;
use crate::date::weekday_index;
use crate::date::weekday_number;

verus! {

/// Whether the sequence of dates `s` holds the day `d` days after the epoch.
pub open spec fn contains_day(s: Seq<Date>, d: int) -> bool {
    exists|i: int| 0 <= i < s.len() && s[i]@ == d
}

/// Whether the sequence of weekdays `s` holds weekday position `w`.
pub open spec fn contains_weekday_number(s: Seq<Weekday>, w: int) -> bool {
    exists|i: int| 0 <= i < s.len() && weekday_number(s[i]) == w
}

/// The error [`Calendar::construct`] returns when the holiday list and the
/// extra-working-date list claim the same date.
#[derive(Clone, Copy, Debug, PartialEq, Eq, Structural)]
pub struct ValidationError {
    /// The first holiday, in holiday-list order, that is also listed as an
    /// extra working date.
    pub conflicting: Date,
}

impl ValidationError {
    /// A short description of the conflicting condition.
    pub fn message(&self) -> &'static str {
        "a date is listed both as a holiday and as an extra working date"
    }
}

/// A calendar for business-day calculations.
///
/// A date is a business day exactly when its weekday is one of the working
/// days or the date is one of the extra working dates, and the date is not a
/// holiday. Holidays and extra working dates are kept disjoint by the fallible
/// constructor [`Calendar::construct`].
#[derive(Debug)]
pub struct Calendar {
    /// Weekdays that count as working days.
    pub working_days: Vec<Weekday>,
    /// Dates that never count as business days, whatever their weekday.
    pub holidays: Vec<Date>,
    /// Dates that count as working days even when their weekday is not in
    /// `working_days`.
    pub extra_working_dates: Vec<Date>,
}

impl Calendar {
    /// Whether weekday position `w` (Monday 0 .. Sunday 6) is a working day.
    pub open spec fn works(self, w: int) -> bool {
        contains_weekday_number(self.working_days@, w)
    }

    /// Whether the day `d` days after the epoch is a holiday.
    pub open spec fn holiday(self, d: int) -> bool {
        contains_day(self.holidays@, d)
    }

    /// Whether the day `d` days after the epoch is an extra working date.
    pub open spec fn extra(self, d: int) -> bool {
        contains_day(self.extra_working_dates@, d)
    }

    /// Whether the day `d` days after the epoch is a business day.
    pub open spec fn business(self, d: int) -> bool {
        (self.works(weekday_index(d)) || self.extra(d)) && !self.holiday(d)
    }

    /// The construction invariant: no date is both a holiday and an extra
    /// working date.
    pub open spec fn wf(self) -> bool {
        forall|d: int| !(self.holiday(d) && self.extra(d))
    }

    /// The number of business days in the half-open day range `[lo, hi)`.
    pub open spec fn business_count(self, lo: int, hi: int) -> nat
        decreases hi - lo,
    {
        if lo >= hi {
            0
        } else {
            (if self.business(lo) {
                1nat
            } else {
                0nat
            }) + self.business_count(lo + 1, hi)
        }
    }

    /// `r` is the result of rolling `d` forward: the smallest business day
    /// at or after `d`.
    pub open spec fn rolled_forward(self, d: int, r: int) -> bool {
        &&& self.business(r)
        &&& d <= r
        &&& forall|k: int| d <= k < r ==> !self.business(k)
    }

    /// `r` is the result of rolling `d` backward: the largest business day
    /// at or before `d`.
    pub open spec fn rolled_backward(self, d: int, r: int) -> bool {
        &&& self.business(r)
        &&& r <= d
        &&& forall|k: int| r < k <= d ==> !self.business(k)
    }

    /// `r` is the smallest business day strictly after `d`.
    pub open spec fn next_after(self, d: int, r: int) -> bool {
        &&& self.business(r)
        &&& d < r
        &&& forall|k: int| d < k < r ==> !self.business(k)
    }

    /// `r` is the largest business day strictly before `d`.
    pub open spec fn previous_before(self, d: int, r: int) -> bool {
        &&& self.business(r)
        &&& r < d
        &&& forall|k: int| r < k < d ==> !self.business(k)
    }

    /// `r` is `n` business-day steps forward from `d`: a business day at or
    /// after `d` with exactly `n` business days strictly between `d` and it
    /// (counting `d` itself when `d` is one).
    pub open spec fn advanced(self, d: int, n: nat, r: int) -> bool {
        &&& self.business(r)
        &&& d <= r
        &&& self.business_count(d, r) == n
    }

    /// `r` is `n` business-day steps backward from `d`: a business day at or
    /// before `d` with exactly `n` business days strictly between it and `d`
    /// (counting `d` itself when `d` is one).
    pub open spec fn retreated(self, d: int, n: nat, r: int) -> bool {
        &&& self.business(r)
        &&& r <= d
        &&& self.business_count(r + 1, d + 1) == n
    }

    /// Some business day lies at or after `d` within the supported day
    /// range. Rolling and stepping forward terminate only on such inputs.
    pub open spec fn has_business_from(self, d: int) -> bool {
        exists|k: int| d <= k <= i64::MAX && self.business(k)
    }

    /// Some business day lies at or before `d` within the supported day
    /// range. Rolling and stepping backward terminate only on such inputs.
    pub open spec fn has_business_until(self, d: int) -> bool {
        exists|k: int| i64::MIN <= k <= d && self.business(k)
    }

    /// At least `n` business days lie at or after `d` within the supported
    /// day range.
    pub open spec fn has_businesses_from(self, d: int, n: nat) -> bool {
        exists|k: int| d <= k <= i64::MAX && #[trigger] self.business_count(d, k + 1) >= n
    }

    /// At least `n` business days lie at or before `d` within the supported
    /// day range.
    pub open spec fn has_businesses_until(self, d: int, n: nat) -> bool {
        exists|k: int| i64::MIN <= k <= d && #[trigger] self.business_count(k, d + 1) >= n
    }

    /// Creates a `Calendar` with the given working days and holidays, and no
    /// extra working dates. With no extra working dates the construction
    /// invariant cannot be violated, so this never fails.
    pub fn new(working_days: Vec<Weekday>, holidays: Vec<Date>) -> (r: Calendar)
        ensures
            r.working_days@ == working_days@,
            r.holidays@ == holidays@,
            r.extra_working_dates@.len() == 0,
            r.wf(),
    {
        Calendar { working_days, holidays, extra_working_dates: Vec::new() }
    }

    /// Creates a `Calendar` from all three lists, failing when some date is
    /// listed both as a holiday and as an extra working date. On failure the
    /// error carries the first such holiday, in holiday-list order.
    pub fn construct(
        working_days: Vec<Weekday>,
        holidays: Vec<Date>,
        extra_working_dates: Vec<Date>,
    ) -> (r: Result<Calendar, ValidationError>)
        ensures
            (r is Ok) <==> (forall|d: int|
                !(contains_day(holidays@, d) && contains_day(extra_working_dates@, d))),
            match r {
                Ok(c) => {
                    &&& c.working_days@ == working_days@
                    &&& c.holidays@ == holidays@
                    &&& c.extra_working_dates@ == extra_working_dates@
                    &&& c.wf()
                },
                Err(e) => {
                    &&& contains_day(holidays@, e.conflicting@)
                    &&& contains_day(extra_working_dates@, e.conflicting@)
                    &&& exists|i: int|
                        {
                            &&& 0 <= i < holidays@.len()
                            &&& holidays@[i]@ == e.conflicting@
                            &&& forall|j: int|
                                0 <= j < i ==> !contains_day(extra_working_dates@, holidays@[j]@)
                        }
                },
            },
    {
        let mut i: usize = 0;
        while i < holidays.len()
            invariant
                0 <= i <= holidays@.len(),
                forall|j: int|
                    0 <= j < i ==> !contains_day(extra_working_dates@, holidays@[j]@),
            decreases holidays@.len() - i,
        {
            if contains_date(&extra_working_dates, holidays[i]) {
                proof {
                    assert(contains_day(holidays@, holidays@[i as int]@));
                }
                return Err(ValidationError { conflicting: holidays[i] });
            }
            i = i + 1;
        }
        let ghost h = holidays@;
        let ghost e = extra_working_dates@;
        let c = Calendar { working_days, holidays, extra_working_dates };
        proof {
            assert forall|d: int| !(c.holiday(d) && c.extra(d)) by {
                if c.holiday(d) {
                    let j = choose|j: int| 0 <= j < h.len() && h[j]@ == d;
                    assert(!contains_day(e, h[j]@));
                }
            }
        }
        Ok(c)
    }

    /// Creates a `Calendar` with Monday through Friday as working days and no
    /// holidays.
    pub fn workweek() -> (r: Calendar)
        ensures
            r.working_days@ == workweek_days(),
            r.holidays@.len() == 0,
            r.extra_working_dates@.len() == 0,
            r.wf(),
    {
        Calendar {
            working_days: workweek_vec(),
            holidays: Vec::new(),
            extra_working_dates: Vec::new(),
        }
    }

    /// Creates a `Calendar` with Monday through Friday as working days and
    /// the given holidays.
    pub fn with_holidays(holidays: &[Date]) -> (r: Calendar)
        ensures
            r.working_days@ == workweek_days(),
            r.holidays@ == holidays@,
            r.extra_working_dates@.len() == 0,
            r.wf(),
    {
        let mut hs: Vec<Date> = Vec::new();
        let mut k: usize = 0;
        while k < holidays.len()
            invariant
                0 <= k <= holidays@.len(),
                hs@ == holidays@.subrange(0, k as int),
            decreases holidays@.len() - k,
        {
            hs.push(holidays[k]);
            proof {
                assert(hs@ =~= holidays@.subrange(0, k + 1));
            }
            k = k + 1;
        }
        proof {
            assert(hs@ =~= holidays@);
        }
        Calendar { working_days: workweek_vec(), holidays: hs, extra_working_dates: Vec::new() }
    }

    /// Builds a calendar from a parsed configuration: absent lists fall back
    /// to their defaults, and the filled-in lists pass through the same
    /// validation as [`Calendar::construct`].
    pub fn from_config(config: CalendarConfig) -> (r: Result<Calendar, ValidationError>)
        ensures
            (r is Ok) <==> (forall|d: int|
                !(contains_day(config.holidays_or_default(), d) && contains_day(
                    config.extra_working_dates_or_default(),
                    d,
                ))),
            match r {
                Ok(c) => {
                    &&& c.working_days@ == config.working_days_or_default()
                    &&& c.holidays@ == config.holidays_or_default()
                    &&& c.extra_working_dates@ == config.extra_working_dates_or_default()
                    &&& c.wf()
                },
                Err(e) => {
                    &&& contains_day(config.holidays_or_default(), e.conflicting@)
                    &&& contains_day(config.extra_working_dates_or_default(), e.conflicting@)
                },
            },
    {
        let ghost cfg = config;
        let working_days = match config.working_days {
            Some(v) => v,
            None => workweek_vec(),
        };
        let holidays = match config.holidays {
            Some(v) => v,
            None => Vec::new(),
        };
        let extra_working_dates = match config.extra_working_dates {
            Some(v) => v,
            None => Vec::new(),
        };
        proof {
            assert(working_days@ =~= cfg.working_days_or_default());
            assert(holidays@ =~= cfg.holidays_or_default());
            assert(extra_working_dates@ =~= cfg.extra_working_dates_or_default());
        }
        Calendar::construct(working_days, holidays, extra_working_dates)
    }

    /// Returns `true` if the date is a business day: a working weekday or an
    /// extra working date, and not a holiday.
    pub fn is_business_day(&self, date: Date) -> (r: bool)
        ensures
            r == self.business(date@),
    {
        let wd = date.weekday();
        let is_working_day = contains_weekday(&self.working_days, wd)
            || contains_date(&self.extra_working_dates, date);
        let is_holiday = contains_date(&self.holidays, date);
        is_working_day && !is_holiday
    }

    /// Counting business days over two adjacent ranges adds up.
    pub proof fn lemma_count_split(self, a: int, b: int, x: int)
        requires
            a <= b <= x,
        ensures
            self.business_count(a, x) == self.business_count(a, b) + self.business_count(b, x),
        decreases b - a,
    {
        if a < b {
            self.lemma_count_split(a + 1, b, x);
        }
    }

    /// A range counts zero business days exactly when it holds none.
    pub proof fn lemma_count_zero(self, a: int, b: int)
        ensures
            (self.business_count(a, b) == 0) <==> (forall|k: int|
                a <= k < b ==> !self.business(k)),
        decreases b - a,
    {
        if a < b {
            self.lemma_count_zero(a + 1, b);
        }
    }

    /// A positive count names a business day in the range.
    pub proof fn lemma_count_some(self, a: int, b: int)
        requires
            self.business_count(a, b) >= 1,
        ensures
            exists|k: int| a <= k < b && self.business(k),
    {
        self.lemma_count_zero(a, b);
    }

    /// Rolls forward to the earliest business day at or after `date`; a date
    /// that is already a business day is returned unchanged.
    ///
    /// The caller must know of a business day at or after `date`: on a
    /// calendar without one the scan would never find an accepting day.
    pub fn roll_forward(&self, date: Date) -> (r: Date)
        requires
            self.has_business_from(date@),
        ensures
            self.rolled_forward(date@, r@),
    {
        let ghost k = choose|k: int| date@ <= k <= i64::MAX && self.business(k);
        let mut result = date;
        loop
            invariant
                self.business(k),
                k <= i64::MAX,
                date@ <= result@ <= k,
                forall|j: int| date@ <= j < result@ ==> !self.business(j),
            ensures
                self.rolled_forward(date@, result@),
            decreases k - result@,
        {
            if self.is_business_day(result) {
                break;
            }
            result = result.add_days(1);
        }
        result
    }

    /// Rolls backward to the latest business day at or before `date`; a date
    /// that is already a business day is returned unchanged.
    ///
    /// The caller must know of a business day at or before `date`: on a
    /// calendar without one the scan would never find an accepting day.
    pub fn roll_backward(&self, date: Date) -> (r: Date)
        requires
            self.has_business_until(date@),
        ensures
            self.rolled_backward(date@, r@),
    {
        let ghost k = choose|k: int| i64::MIN <= k <= date@ && self.business(k);
        let mut result = date;
        loop
            invariant
                self.business(k),
                i64::MIN <= k,
                k <= result@ <= date@,
                forall|j: int| result@ < j <= date@ ==> !self.business(j),
            ensures
                self.rolled_backward(date@, result@),
            decreases result@ - k,
        {
            if self.is_business_day(result) {
                break;
            }
            result = result.add_days(-1);
        }
        result
    }

    /// Steps to the smallest business day strictly after `date`, whether or
    /// not `date` itself is a business day.
    pub fn next_business_day(&self, date: Date) -> (r: Date)
        requires
            self.has_business_from(date@ + 1),
        ensures
            self.next_after(date@, r@),
    {
        proof {
            let k = choose|k: int| date@ + 1 <= k <= i64::MAX && self.business(k);
            assert(date@ + 1 <= i64::MAX);
        }
        let first = date.add_days(1);
        self.roll_forward(first)
    }

    /// Steps to the largest business day strictly before `date`, whether or
    /// not `date` itself is a business day.
    pub fn previous_business_day(&self, date: Date) -> (r: Date)
        requires
            self.has_business_until(date@ - 1),
        ensures
            self.previous_before(date@, r@),
    {
        proof {
            let k = choose|k: int| i64::MIN <= k <= date@ - 1 && self.business(k);
            assert(i64::MIN <= date@ - 1);
        }
        let first = date.add_days(-1);
        self.roll_backward(first)
    }

    /// Adds `delta` business days: first rolls `date` forward onto a business
    /// day, then steps to the next business day `delta` times.
    pub fn add_business_days(&self, date: Date, delta: u32) -> (r: Date)
        requires
            self.has_businesses_from(date@, delta as nat + 1),
        ensures
            self.advanced(date@, delta as nat, r@),
    {
        let ghost kk = choose|k: int|
            date@ <= k <= i64::MAX && #[trigger] self.business_count(date@, k + 1) >= delta as nat + 1;
        proof {
            self.lemma_count_some(date@, kk + 1);
            let k0 = choose|k: int| date@ <= k < kk + 1 && self.business(k);
            assert(date@ <= k0 <= i64::MAX && self.business(k0));
        }
        let mut result = self.roll_forward(date);
        proof {
            self.lemma_count_zero(date@, result@);
            let k0 = choose|k: int| date@ <= k < kk + 1 && self.business(k);
            assert(result@ <= k0);
        }
        let mut i: u32 = 0;
        while i < delta
            invariant
                0 <= i <= delta,
                self.business(result@),
                date@ <= result@ <= kk <= i64::MAX,
                self.business_count(date@, result@) == i as nat,
                self.business_count(date@, kk + 1) >= delta as nat + 1,
            decreases delta - i,
        {
            proof {
                self.lemma_count_split(date@, result@, kk + 1);
                assert(self.business_count(result@, kk + 1) == 1 + self.business_count(
                    result@ + 1,
                    kk + 1,
                ));
                self.lemma_count_some(result@ + 1, kk + 1);
                let kw = choose|k: int| result@ + 1 <= k < kk + 1 && self.business(k);
                assert(result@ + 1 <= kw <= i64::MAX && self.business(kw));
            }
            let next = self.next_business_day(result);
            proof {
                assert(self.business_count(result@ + 1, result@ + 1) == 0);
                assert(self.business_count(result@, result@ + 1) == 1);
                self.lemma_count_split(date@, result@, result@ + 1);
                self.lemma_count_zero(result@ + 1, next@);
                assert(self.business_count(result@ + 1, next@) == 0);
                self.lemma_count_split(date@, result@ + 1, next@);
                assert(self.business_count(date@, next@) == i + 1);
                if next@ > kk {
                    self.lemma_count_split(date@, kk + 1, next@);
                    assert(false);
                }
            }
            result = next;
            i = i + 1;
        }
        result
    }

    /// Subtracts `delta` business days: first rolls `date` backward onto a
    /// business day, then steps to the previous business day `delta` times.
    pub fn subtract_business_days(&self, date: Date, delta: u32) -> (r: Date)
        requires
            self.has_businesses_until(date@, delta as nat + 1),
        ensures
            self.retreated(date@, delta as nat, r@),
    {
        let ghost kk = choose|k: int|
            i64::MIN <= k <= date@ && #[trigger] self.business_count(k, date@ + 1) >= delta as nat + 1;
        proof {
            self.lemma_count_some(kk, date@ + 1);
            let k0 = choose|k: int| kk <= k < date@ + 1 && self.business(k);
            assert(i64::MIN <= k0 <= date@ && self.business(k0));
        }
        let mut result = self.roll_backward(date);
        proof {
            self.lemma_count_zero(result@ + 1, date@ + 1);
            let k0 = choose|k: int| kk <= k < date@ + 1 && self.business(k);
            assert(k0 <= result@);
        }
        let mut i: u32 = 0;
        while i < delta
            invariant
                0 <= i <= delta,
                self.business(result@),
                i64::MIN <= kk <= result@ <= date@,
                self.business_count(result@ + 1, date@ + 1) == i as nat,
                self.business_count(kk, date@ + 1) >= delta as nat + 1,
            decreases delta - i,
        {
            proof {
                self.lemma_count_split(kk, result@, date@ + 1);
                assert(self.business_count(result@, date@ + 1) == 1 + self.business_count(
                    result@ + 1,
                    date@ + 1,
                ));
                assert(self.business_count(kk, result@) >= 1);
                self.lemma_count_some(kk, result@);
                let kw = choose|k: int| kk <= k < result@ && self.business(k);
                assert(i64::MIN <= kw <= result@ - 1 && self.business(kw));
            }
            let prev = self.previous_business_day(result);
            proof {
                assert(self.business_count(result@, date@ + 1) == 1 + self.business_count(
                    result@ + 1,
                    date@ + 1,
                ));
                self.lemma_count_zero(prev@ + 1, result@);
                assert(self.business_count(prev@ + 1, result@) == 0);
                self.lemma_count_split(prev@ + 1, result@, date@ + 1);
                assert(self.business_count(prev@ + 1, date@ + 1) == i + 1);
                if prev@ < kk {
                    self.lemma_count_split(prev@ + 1, kk, date@ + 1);
                    assert(false);
                }
            }
            result = prev;
            i = i + 1;
        }
        result
    }
}

/// A loosely-typed calendar description, as a structured-config loader hands
/// it over: each list may be absent and then falls back to its default.
pub struct CalendarConfig {
    /// Working weekdays; Monday through Friday when absent.
    pub working_days: Option<Vec<Weekday>>,
    /// Holiday dates; none when absent.
    pub holidays: Option<Vec<Date>>,
    /// Extra working dates; none when absent.
    pub extra_working_dates: Option<Vec<Date>>,
}

impl CalendarConfig {
    /// The working-day list with the Monday-through-Friday default applied.
    pub open spec fn working_days_or_default(self) -> Seq<Weekday> {
        match self.working_days {
            Some(v) => v@,
            None => workweek_days(),
        }
    }

    /// The holiday list with the empty default applied.
    pub open spec fn holidays_or_default(self) -> Seq<Date> {
        match self.holidays {
            Some(v) => v@,
            None => Seq::empty(),
        }
    }

    /// The extra-working-date list with the empty default applied.
    pub open spec fn extra_working_dates_or_default(self) -> Seq<Date> {
        match self.extra_working_dates {
            Some(v) => v@,
            None => Seq::empty(),
        }
    }
}

/// The working days of an ordinary workweek, Monday through Friday.
pub open spec fn workweek_days() -> Seq<Weekday> {
    seq![
        Weekday::Monday,
        Weekday::Tuesday,
        Weekday::Wednesday,
        Weekday::Thursday,
        Weekday::Friday,
    ]
}

/// Builds the Monday-through-Friday working-day list.
fn workweek_vec() -> (r: Vec<Weekday>)
    ensures
        r@ == workweek_days(),
{
    let mut v: Vec<Weekday> = Vec::new();
    v.push(Weekday::Monday);
    v.push(Weekday::Tuesday);
    v.push(Weekday::Wednesday);
    v.push(Weekday::Thursday);
    v.push(Weekday::Friday);
    proof {
        assert(v@ =~= workweek_days());
    }
    v
}

/// Whether `v` holds the weekday `w`.
fn contains_weekday(v: &Vec<Weekday>, w: Weekday) -> (r: bool)
    ensures
        r == exists|i: int| 0 <= i < v@.len() && v@[i] == w,
{
    let mut j: usize = 0;
    while j < v.len()
        invariant
            0 <= j <= v@.len(),
            forall|i: int| 0 <= i < j ==> v@[i] != w,
        decreases v@.len() - j,
    {
        if v[j] == w {
            return true;
        }
        j = j + 1;
    }
    false
}

/// Whether `v` holds the date `d`.
fn contains_date(v: &Vec<Date>, d: Date) -> (r: bool)
    ensures
        r == exists|i: int| 0 <= i < v@.len() && v@[i]@ == d@,
{
    let mut j: usize = 0;
    while j < v.len()
        invariant
            0 <= j <= v@.len(),
            forall|i: int| 0 <= i < j ==> v@[i]@ != d@,
        decreases v@.len() - j,
    {
        if v[j] == d {
            return true;
        }
        j = j + 1;
    }
    false
}

} // verus!
