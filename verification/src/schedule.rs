//! The decoded daily schedule: a display name, the five flat daily times,
//! optional extra fields, and an optional full-year calendar override keyed
//! by month and day of month. The schedule is a plain data value; it carries
//! no file path and no environment state.

use vstd::prelude::*;

use crate::calculator::{remaining_chars, remaining_time};
use crate::clock::{local_now_hm, utc_today};
use crate::timeofday::{digit_val, is_digit};

verus! {

/// One calendar day's list of textual clock values.
pub struct DayTimes {
    /// Day of month, 1..=31.
    pub day: u8,
    /// The day's clock values, in slot order.
    pub times: Vec<String>,
}

/// One month's override table.
pub struct MonthTimes {
    /// The listed days, each with its times.
    pub days: Vec<DayTimes>,
}

/// The decoded daily schedule for one location.
pub struct PrayerTimes {
    /// Display label for the location; may be empty.
    pub name: String,
    /// The five canonical daily times, in slot order.
    pub times: Vec<String>,
    /// Optional display locality; empty when absent.
    pub localisation: String,
    /// Optional contact address; empty when absent.
    pub email: String,
    /// Optional Friday prayer time; empty when absent.
    pub jumua: String,
    /// Whether the Friday prayer coincides with the noon slot.
    pub jumua_as_duhr: bool,
    /// Optional sunrise time; empty when absent.
    pub shuruq: String,
    /// Full-year override table: twelve months when present, empty when the
    /// flat `times` list is authoritative.
    pub calendar: Vec<MonthTimes>,
}

/// What a calendar day key means: day tables are keyed by the day of month
/// written in decimal without padding, so one or two digits name a day and
/// anything else names none.
pub open spec fn parsed_day(s: Seq<char>) -> Option<u8> {
    if s.len() == 1 && is_digit(s[0]) {
        Some((digit_val(s[0]) as u8))
    } else if s.len() == 2 && is_digit(s[0]) && is_digit(s[1]) {
        Some(((10 * digit_val(s[0]) + digit_val(s[1])) as u8))
    } else {
        None
    }
}

/// Read a calendar day key as a day of month.
pub fn parse_day(s: &str) -> (r: Option<u8>)
    ensures
        r == parsed_day(s@),
{
    let n = s.unicode_len();
    if n == 0 || n > 2 {
        return None;
    }
    let c0 = s.get_char(0);
    let u0 = c0 as u32;
    if u0 < 48 || u0 > 57 {
        return None;
    }
    if n == 1 {
        return Some((u0 - 48) as u8);
    }
    let c1 = s.get_char(1);
    let u1 = c1 as u32;
    if u1 < 48 || u1 > 57 {
        return None;
    }
    Some((10 * (u0 - 48) + (u1 - 48)) as u8)
}

/// The listed values, each in double quotes, separated by comma and space.
pub open spec fn quoted_items(l: Seq<Seq<char>>) -> Seq<char>
    decreases l.len(),
{
    if l.len() == 0 {
        Seq::<char>::empty()
    } else if l.len() == 1 {
        seq!['"'] + l[0] + seq!['"']
    } else {
        quoted_items(l.drop_last()) + seq![',', ' ', '"'] + l.last() + seq!['"']
    }
}

/// The times listed for `day` in a month's table: the first entry under that
/// day number, if any.
pub open spec fn day_times_in(days: Seq<DayTimes>, day: u8) -> Option<Seq<Seq<char>>>
    decreases days.len(),
{
    if days.len() == 0 {
        None
    } else if days[0].day == day {
        Some(days[0].times.deep_view())
    } else {
        day_times_in(days.drop_first(), day)
    }
}

impl PrayerTimes {
    /// The calendar override is in force: twelve month tables stand there
    /// and at least one lists a day.
    pub open spec fn has_calendar(self) -> bool {
        self.calendar@.len() == 12 && exists|i: int|
            0 <= i < 12 && #[trigger] self.calendar@[i].days@.len() > 0
    }

    /// A well-formed schedule: the calendar is either absent or complete,
    /// and whenever it is not in force the flat list holds its five times.
    pub open spec fn wf(self) -> bool {
        (self.calendar@.len() == 0 || self.calendar@.len() == 12) && (self.has_calendar()
            || self.times@.len() == 5)
    }

    /// The day's applicable list of textual clock values: the calendar entry
    /// for the given month and day when the calendar is in force, else the
    /// flat daily times.
    pub open spec fn slot_times(self, month: u8, day: u8) -> Option<Seq<Seq<char>>>
        recommends
            1 <= month <= 12,
    {
        if self.has_calendar() {
            day_times_in(self.calendar@[month as int - 1].days@, day)
        } else {
            Some(self.times.deep_view())
        }
    }

    /// The given month and day have a non-empty list to compute from.
    pub open spec fn has_slot(self, month: u8, day: u8) -> bool {
        match self.slot_times(month, day) {
            Some(l) => l.len() > 0,
            None => false,
        }
    }

    /// The schedule's display text: a `Data:` header, the flat times each in
    /// double quotes inside brackets, and the location name.
    pub open spec fn description_chars(self) -> Seq<char> {
        "Data:\nTimes: ["@ + quoted_items(self.times.deep_view()) + "]\nName: "@ + self.name@
    }

    /// Render the schedule for display: its flat times and its name.
    pub fn display_string(&self) -> (r: String)
        ensures
            r@ == self.description_chars(),
    {
        let ghost dv = self.times.deep_view();
        let mut r = ("Data:\nTimes: [").to_owned();
        proof {
            assert(dv.take(0) =~= Seq::<Seq<char>>::empty());
            assert(r@ + quoted_items(dv.take(0)) =~= r@);
        }
        let n = self.times.len();
        let mut i: usize = 0;
        while i < n
            invariant
                0 <= i <= n,
                n == self.times@.len(),
                dv == self.times.deep_view(),
                dv.len() == n,
                r@ == "Data:\nTimes: ["@ + quoted_items(dv.take(i as int)),
            decreases n - i,
        {
            proof {
                assert(dv.take(i + 1).drop_last() =~= dv.take(i as int));
                assert(dv.take(i + 1).last() == dv[i as int]);
                assert(dv[i as int] == self.times@[i as int]@);
                reveal_strlit("\"");
                reveal_strlit(", \"");
            }
            if i == 0 {
                r.append("\"");
            } else {
                r.append(", \"");
            }
            r.append(self.times[i].as_str());
            r.append("\"");
            proof {
                if i == 0 {
                    assert(quoted_items(dv.take(1)) =~= seq!['"'] + dv[0] + seq!['"']);
                    assert(r@ =~= "Data:\nTimes: ["@ + quoted_items(dv.take(i + 1)));
                } else {
                    assert(quoted_items(dv.take(i + 1)) =~= quoted_items(dv.take(i as int)) + seq![
                        ',',
                        ' ',
                        '"',
                    ] + dv[i as int] + seq!['"']);
                    assert(r@ =~= "Data:\nTimes: ["@ + quoted_items(dv.take(i + 1)));
                }
            }
            i += 1;
        }
        r.append("]\nName: ");
        r.append(self.name.as_str());
        proof {
            assert(dv.take(n as int) =~= dv);
            assert(r@ =~= self.description_chars());
        }
        r
    }

    /// Whether the schedule is well formed; callers outside the library
    /// test this before asking for a remaining time.
    pub fn is_well_formed(&self) -> (r: bool)
        ensures
            r == self.wf(),
    {
        (self.calendar.len() == 0 || self.calendar.len() == 12) && (self.calendar_in_force()
            || self.times.len() == 5)
    }

    /// Whether the calendar override is in force.
    pub fn calendar_in_force(&self) -> (r: bool)
        ensures
            r == self.has_calendar(),
    {
        if self.calendar.len() != 12 {
            return false;
        }
        let mut i: usize = 0;
        while i < 12
            invariant
                0 <= i <= 12,
                self.calendar@.len() == 12,
                forall|j: int| 0 <= j < i ==> #[trigger] self.calendar@[j].days@.len() == 0,
            decreases 12 - i,
        {
            if self.calendar[i].days.len() > 0 {
                return true;
            }
            i += 1;
        }
        false
    }

    /// The applicable list of times for the given month and day, or `None`
    /// when the calendar is in force but does not list that day.
    pub fn times_for_day(&self, month: u8, day: u8) -> (r: Option<&Vec<String>>)
        requires
            1 <= month <= 12,
        ensures
            match r {
                Some(v) => self.slot_times(month, day) == Some(v.deep_view()),
                None => self.slot_times(month, day) is None,
            },
    {
        if !self.calendar_in_force() {
            return Some(&self.times);
        }
        let days = &self.calendar[(month - 1) as usize].days;
        let ghost dseq = days@;
        let n = days.len();
        proof {
            assert(dseq.skip(0) =~= dseq);
        }
        let mut i: usize = 0;
        while i < n
            invariant
                0 <= i <= n,
                n == dseq.len(),
                dseq == days@,
                self.has_calendar(),
                1 <= month <= 12,
                dseq == self.calendar@[month as int - 1].days@,
                day_times_in(dseq, day) == day_times_in(dseq.skip(i as int), day),
            decreases n - i,
        {
            proof {
                assert(dseq.skip(i as int).drop_first() =~= dseq.skip(i + 1));
                assert(dseq.skip(i as int)[0] == dseq[i as int]);
            }
            if days[i].day == day {
                proof {
                    assert(day_times_in(dseq.skip(i as int), day) == Some(
                        dseq[i as int].times.deep_view(),
                    ));
                }
                return Some(&days[i].times);
            }
            i += 1;
        }
        proof {
            assert(dseq.skip(n as int) =~= Seq::<DayTimes>::empty());
        }
        None
    }

    /// The remaining-time answer for the given calendar day and time of day:
    /// the gap to the soonest upcoming entry of the day's list as `HH:MM`,
    /// or the day's first entry verbatim when none is upcoming. The day must
    /// be covered by the schedule; an uncovered day under a calendar in
    /// force is a precondition violation, not a soft failure.
    pub fn get_remaining_time(&self, month: u8, day: u8, now_h: u8, now_m: u8) -> (r: String)
        requires
            self.wf(),
            1 <= month <= 12,
            now_h < 24,
            now_m < 60,
            self.has_slot(month, day),
        ensures
            r@ == remaining_chars(
                self.slot_times(month, day).unwrap(),
                60 * now_h as int + now_m as int,
            ),
    {
        match self.times_for_day(month, day) {
            Some(list) => remaining_time(list, now_h, now_m),
            None => {
                proof {
                    assert(false);
                }
                String::new()
            },
        }
    }

    /// The remaining-time answer for the present moment, read from the
    /// clock: the calendar day comes from the current UTC date and the time
    /// of day from the local clock, as the cache's upstream does. Whatever
    /// moment the clocks report, a `Some` answer is the exact remaining-time
    /// result for some covered day and valid time of day; `None` happens
    /// only when a calendar is in force and does not list the day.
    pub fn remaining_time_now(&self) -> (r: Option<String>)
        requires
            self.wf(),
        ensures
            match r {
                Some(s) => exists|month: u8, day: u8, now: int|
                    1 <= month <= 12 && 1 <= day <= 31 && 0 <= now < 1440 && self.has_slot(
                        month,
                        day,
                    ) && s@ == #[trigger] remaining_chars(self.slot_times(month, day).unwrap(), now),
                None => self.has_calendar(),
            },
    {
        let (day, month) = utc_today();
        let (now_h, now_m) = local_now_hm();
        match self.times_for_day(month, day) {
            Some(list) => {
                if list.len() > 0 {
                    let s = self.get_remaining_time(month, day, now_h, now_m);
                    proof {
                        let gnow: int = 60 * now_h as int + now_m as int;
                        assert(self.has_slot(month, day));
                        assert(s@ == remaining_chars(self.slot_times(month, day).unwrap(), gnow));
                    }
                    Some(s)
                } else {
                    proof {
                        if !self.has_calendar() {
                            assert(self.slot_times(month, day) == Some(self.times.deep_view()));
                            assert(self.times.deep_view().len() == 5);
                        }
                    }
                    None
                }
            },
            None => None,
        }
    }
}

} // verus!
