//! Business-day calendar projection.
//!
//! A calendar date is modelled as the number of whole days since the Unix
//! epoch (1970-01-01, a Thursday).  A business day is Monday through Friday
//! and contributes a fixed eight working hours; Saturday and Sunday
//! contribute none.  Projecting a required amount of working hours onto the
//! calendar advances one business day per eight hours, always landing on a
//! business day.

use vstd::prelude::*;

verus! {

/// Working time in one business day, in the fixed-point effort unit.
pub const DAY_MILLIHOURS: u64 = 8000;

/// A calendar date, counted in whole days since 1970-01-01.
#[derive(Clone, Copy, Debug, PartialEq, Eq, Structural)]
pub struct Day {
    pub num: u64,
}

/// Day of the week of epoch day `d`: 0 is Monday through 6 is Sunday.
/// Day 0 (1970-01-01) was a Thursday, index 3.
pub open spec fn weekday_of(d: int) -> int {
    (d + 3) % 7
}

/// Monday through Friday.
pub open spec fn is_business_day(d: int) -> bool {
    weekday_of(d) < 5
}

/// The first business day strictly after `d`: Friday jumps over the
/// weekend to Monday, Saturday skips Sunday, every other day steps by one.
pub open spec fn next_business_day(d: int) -> int {
    if weekday_of(d) == 4 {
        d + 3
    } else if weekday_of(d) == 5 {
        d + 2
    } else {
        d + 1
    }
}

/// The day reached after advancing `n` business days from `d`, each step
/// landing strictly later than the one before.
pub open spec fn advance_business(d: int, n: nat) -> int
    decreases n,
{
    if n == 0 {
        d
    } else {
        advance_business(next_business_day(d), (n - 1) as nat)
    }
}

/// Whole business days bought by `millihours` of work: the exact quotient
/// by a day's eight hours, rounded up.
pub open spec fn days_needed(millihours: int) -> int {
    if millihours % (DAY_MILLIHOURS as int) == 0 {
        millihours / (DAY_MILLIHOURS as int)
    } else {
        millihours / (DAY_MILLIHOURS as int) + 1
    }
}

/// A projection always advances at least one business day, so that even a
/// zero-hour forecast leaves the start date (which may be a weekend).
pub open spec fn steps_of(days: int) -> nat {
    if days == 0 {
        1
    } else {
        days as nat
    }
}

/// Stepping one day forward rotates the weekday by one.
proof fn lemma_weekday_step(d: int)
    ensures
        weekday_of(d + 1) == if weekday_of(d) == 6 {
            0int
        } else {
            weekday_of(d) + 1
        },
{
    vstd::arithmetic::div_mod::lemma_mod_bound(d + 3, 7);
    vstd::arithmetic::div_mod::lemma_fundamental_div_mod(d + 3, 7);
    let w = (d + 3) % 7;
    let q = (d + 3) / 7;
    assert(d + 3 == 7 * q + w);
    if w == 6 {
        assert(d + 4 == (q + 1) * 7);
        vstd::arithmetic::div_mod::lemma_mod_multiples_basic(q + 1, 7);
    } else {
        assert(d + 4 == 7 * q + (w + 1));
        vstd::arithmetic::div_mod::lemma_mod_multiples_vanish(q, w + 1, 7);
        vstd::arithmetic::div_mod::lemma_small_mod((w + 1) as nat, 7);
    }
}

/// The next business day is a business day and lies strictly ahead,
/// by at most three calendar days.
pub proof fn lemma_next_business_day(d: int)
    ensures
        is_business_day(next_business_day(d)),
        d < next_business_day(d) <= d + 3,
{
    vstd::arithmetic::div_mod::lemma_mod_bound(d + 3, 7);
    lemma_weekday_step(d);
    lemma_weekday_step(d + 1);
    lemma_weekday_step(d + 2);
}

/// Advancing at least one business day always lands on a business day,
/// strictly after the start and at most three calendar days per step.
pub proof fn lemma_advance_business(d: int, n: nat)
    requires
        n >= 1,
    ensures
        is_business_day(advance_business(d, n)),
        d + n <= advance_business(d, n) <= d + 3 * n,
    decreases n,
{
    lemma_next_business_day(d);
    let nxt = next_business_day(d);
    assert(advance_business(d, n) == advance_business(nxt, (n - 1) as nat));
    if n > 1 {
        lemma_advance_business(nxt, (n - 1) as nat);
    } else {
        assert(advance_business(nxt, 0) == nxt);
    }
}

/// The first business day strictly after `startdate`, or `None` when the
/// day number would leave `u64`.
pub fn next_business(startdate: Day) -> (r: Option<Day>)
    ensures
        r is Some <==> next_business_day(startdate.num as int) <= u64::MAX,
        r is Some ==> r->Some_0.num == next_business_day(startdate.num as int),
{
    let w = (startdate.num % 7 + 3) % 7;
    proof {
        vstd::arithmetic::div_mod::lemma_add_mod_noop(startdate.num as int, 3, 7);
        vstd::arithmetic::div_mod::lemma_small_mod(3, 7);
        assert(w == weekday_of(startdate.num as int));
    }
    let step: u64 = if w == 4 {
        3
    } else if w == 5 {
        2
    } else {
        1
    };
    match startdate.num.checked_add(step) {
        Some(n) => Some(Day { num: n }),
        None => None,
    }
}

/// Advances `number` business days (at least one) from `startdate`,
/// skipping weekends; the result is never a Saturday or Sunday.  `None`
/// only when the day number would leave `u64`.
pub fn dev_days_as_days(number: u64, startdate: Day) -> (r: Option<Day>)
    ensures
        r is Some <==> advance_business(
            startdate.num as int,
            steps_of(number as int),
        ) <= u64::MAX,
        r is Some ==> r->Some_0.num == advance_business(
            startdate.num as int,
            steps_of(number as int),
        ),
        r is Some ==> is_business_day(r->Some_0.num as int),
{
    let ghost m: nat = steps_of(number as int);
    let steps: u64 = if number == 0 {
        1
    } else {
        number
    };
    let mut cur = startdate;
    let mut k: u64 = 0;
    while k < steps
        invariant
            0 <= k <= steps,
            m == steps,
            m == steps_of(number as int),
            advance_business(startdate.num as int, m) == advance_business(
                cur.num as int,
                (m - k) as nat,
            ),
        decreases steps - k,
    {
        let ghost rest: nat = (m - k) as nat;
        let ghost nxt: int = next_business_day(cur.num as int);
        proof {
            lemma_next_business_day(cur.num as int);
            assert(advance_business(cur.num as int, rest) == advance_business(
                nxt,
                (rest - 1) as nat,
            ));
            if rest >= 2 {
                lemma_advance_business(nxt, (rest - 1) as nat);
            } else {
                assert(advance_business(nxt, 0) == nxt);
            }
            assert(advance_business(nxt, (rest - 1) as nat) >= nxt);
        }
        match next_business(cur) {
            Some(d) => {
                cur = d;
            },
            None => {
                proof {
                    assert(advance_business(startdate.num as int, m) >= nxt > u64::MAX);
                }
                return None;
            },
        }
        k += 1;
    }
    proof {
        lemma_advance_business(startdate.num as int, m);
    }
    Some(cur)
}

/// Projects `required` working effort (in fixed-point hours) forward from
/// `startdate`: returns the completion date and the whole business-day
/// count `days_needed(required)`.  The date is never a weekend day.
pub fn project_date(required: u64, startdate: Day) -> (r: Option<(Day, u64)>)
    ensures
        r is Some <==> advance_business(
            startdate.num as int,
            steps_of(days_needed(required as int)),
        ) <= u64::MAX,
        r is Some ==> r->Some_0.1 == days_needed(required as int),
        r is Some ==> r->Some_0.0.num == advance_business(
            startdate.num as int,
            steps_of(days_needed(required as int)),
        ),
        r is Some ==> is_business_day(r->Some_0.0.num as int),
{
    let whole = required / DAY_MILLIHOURS;
    proof {
        vstd::arithmetic::div_mod::lemma_fundamental_div_mod(
            required as int,
            DAY_MILLIHOURS as int,
        );
        vstd::arithmetic::div_mod::lemma_mod_bound(required as int, DAY_MILLIHOURS as int);
    }
    let days: u64 = if required % DAY_MILLIHOURS != 0 {
        whole + 1
    } else {
        whole
    };
    assert(days == days_needed(required as int));
    match dev_days_as_days(days, startdate) {
        Some(d) => Some((d, days)),
        None => None,
    }
}

} // verus!
