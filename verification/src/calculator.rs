//! The remaining-time calculator: among a list of textual clock values, pick
//! the soonest one strictly after "now" and format the forward gap, or fall
//! back to the first listed value verbatim when nothing is left today.

use vstd::prelude::*;

use crate::timeofday::{format_time, minutes_of, parse_time, time_chars};

verus! {

/// The smallest parsed value in `list` that lies strictly after `now`
/// (in minutes past midnight), if any entry does; entries that do not parse
/// as `HH:MM` are ignored.
pub open spec fn min_future(list: Seq<Seq<char>>, now: int) -> Option<int>
    decreases list.len(),
{
    if list.len() == 0 {
        None
    } else {
        let prev = min_future(list.drop_last(), now);
        let cur = match minutes_of(list.last()) {
            Some(t) => if t > now {
                Some(t)
            } else {
                None
            },
            None => None,
        };
        match (prev, cur) {
            (Some(p), Some(c)) => if c < p {
                Some(c)
            } else {
                Some(p)
            },
            (Some(p), None) => Some(p),
            (None, c) => c,
        }
    }
}

/// Any selected upcoming time lies strictly after `now` and within the day.
pub proof fn lemma_min_future_bounds(list: Seq<Seq<char>>, now: int)
    ensures
        match min_future(list, now) {
            Some(t) => now < t < 1440,
            None => true,
        },
    decreases list.len(),
{
    if list.len() > 0 {
        lemma_min_future_bounds(list.drop_last(), now);
    }
}

/// What the calculator answers for a non-empty list of textual clock values
/// and the current time of day, in minutes past midnight: the gap to the
/// soonest upcoming entry as zero-padded `HH:MM`, or — when every entry is
/// past or unparsable — the first entry of the list verbatim.
pub open spec fn remaining_chars(list: Seq<Seq<char>>, now: int) -> Seq<char>
    recommends
        list.len() > 0,
{
    match min_future(list, now) {
        Some(t) => time_chars((t - now) / 60, (t - now) % 60),
        None => list[0],
    }
}

/// Compute the time remaining until the soonest entry of `times` strictly
/// after now. Entries that are not valid `HH:MM` strings are dropped, never
/// fatal. When no entry lies ahead, the first entry of the list is returned
/// verbatim, read by callers as "tomorrow's first event, shown as an absolute
/// clock value": that fallback policy is fixed here once for the whole crate.
pub fn remaining_time(times: &Vec<String>, now_h: u8, now_m: u8) -> (r: String)
    requires
        times@.len() > 0,
        now_h < 24,
        now_m < 60,
    ensures
        r@ == remaining_chars(times.deep_view(), 60 * now_h as int + now_m as int),
{
    let now: u16 = 60 * (now_h as u16) + (now_m as u16);
    let ghost dv = times.deep_view();
    let ghost gnow = now as int;
    let mut best: Option<u16> = None;
    let n = times.len();
    proof {
        assert(dv.take(0) =~= Seq::<Seq<char>>::empty());
    }
    let mut i: usize = 0;
    while i < n
        invariant
            0 <= i <= n,
            n == times@.len(),
            dv == times.deep_view(),
            dv.len() == n,
            gnow == now,
            now < 1440,
            match best {
                Some(b) => min_future(dv.take(i as int), gnow) == Some(b as int),
                None => min_future(dv.take(i as int), gnow) is None,
            },
        decreases n - i,
    {
        let parsed = parse_time(times[i].as_str());
        proof {
            assert(dv[i as int] == times@[i as int]@);
            assert(dv.take(i + 1).drop_last() =~= dv.take(i as int));
            assert(dv.take(i + 1).last() == dv[i as int]);
        }
        if let Some((h, m)) = parsed {
            let t: u16 = 60 * (h as u16) + (m as u16);
            proof {
                assert(minutes_of(dv[i as int]) == Some(t as int));
            }
            if t > now {
                best = match best {
                    Some(b) => if t < b {
                        Some(t)
                    } else {
                        Some(b)
                    },
                    None => Some(t),
                };
            }
        }
        i += 1;
    }
    proof {
        assert(dv.take(n as int) =~= dv);
    }
    match best {
        Some(b) => {
            proof {
                lemma_min_future_bounds(dv, gnow);
            }
            let diff: u16 = b - now;
            let dh: u8 = (diff / 60) as u8;
            let dm: u8 = (diff % 60) as u8;
            format_time(dh, dm)
        },
        None => {
            let r = times[0].clone();
            proof {
                assert(r@ == dv[0]);
            }
            r
        },
    }
}

} // verus!
