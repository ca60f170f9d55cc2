//! The weekly time plan for the public wifi radios: whether the wifi
//! should be up at a given weekday and hour, and how the radio state is
//! read from the wireless configuration's listing.
use vstd::prelude::*;
use vstd::string::*;

use crate::text::{spec_contains, contains_sub};

verus! {

/// The wifi up times: for each weekday, Monday first, the hours (in
/// 24-hour form) during which the public wifi is up, and the time zone
/// those hours are meant in.
pub struct TimeControl {
    pub up_time: Vec<Vec<u8>>,
    pub timezone: String,
}

impl Default for TimeControl {
    /// An empty plan in the Berlin time zone: the wifi stays up.
    fn default() -> (r: TimeControl)
        ensures
            r.up_time@.len() == 0,
            r.timezone@ == "Europe/Berlin"@,
    {
        TimeControl { up_time: Vec::new(), timezone: "Europe/Berlin".to_owned() }
    }
}

pub enum Weekday {
    Mon,
    Tue,
    Wed,
    Thu,
    Fri,
    Sat,
    Sun,
}

pub open spec fn spec_weekday_index(w: Weekday) -> int {
    match w {
        Weekday::Mon => 0,
        Weekday::Tue => 1,
        Weekday::Wed => 2,
        Weekday::Thu => 3,
        Weekday::Fri => 4,
        Weekday::Sat => 5,
        Weekday::Sun => 6,
    }
}

/// The row of the up-time table that belongs to a weekday, Monday
/// first.
pub fn weekday_to_index(wday: Weekday) -> (r: usize)
    ensures
        r == spec_weekday_index(wday),
{
    match wday {
        Weekday::Mon => 0,
        Weekday::Tue => 1,
        Weekday::Wed => 2,
        Weekday::Thu => 3,
        Weekday::Fri => 4,
        Weekday::Sat => 5,
        Weekday::Sun => 6,
    }
}

/// Whether the plan asks for the wifi to be up: the hour must be listed
/// for the weekday; a day with no hours means up all day, and a missing
/// day means up.
pub open spec fn spec_requested_status(up_time: Seq<Seq<u8>>, day_idx: int, hour: u8) -> bool {
    if 0 <= day_idx < up_time.len() {
        let day = up_time[day_idx];
        day.len() == 0 || day.contains(hour)
    } else {
        true
    }
}

/// Decides, from the plan, the weekday and the hour, whether the public
/// wifi should be up right now.
pub fn get_current_requested_wifi_status(tc: &TimeControl, wday: Weekday, hour: u8) -> (r: bool)
    ensures
        r == spec_requested_status(tc.up_time.deep_view(), spec_weekday_index(wday), hour),
{
    let idx = weekday_to_index(wday);
    if idx >= tc.up_time.len() {
        return true;
    }
    let day = &tc.up_time[idx];
    proof {
        assert(tc.up_time.deep_view()[idx as int] == tc.up_time@[idx as int]@);
    }
    if day.len() == 0 {
        return true;
    }
    let mut i: usize = 0;
    while i < day.len()
        invariant
            i <= day.len(),
            day == &tc.up_time@[idx as int],
            idx < tc.up_time@.len(),
            idx == spec_weekday_index(wday),
            forall|k: int| 0 <= k < i ==> day@[k] != hour,
        decreases day.len() - i,
    {
        if day[i] == hour {
            proof {
                assert(tc.up_time.deep_view()[idx as int] == day@);
                assert(day@[i as int] == hour);
            }
            return true;
        }
        i += 1;
    }
    proof {
        assert(tc.up_time.deep_view()[idx as int] == day@);
        assert(!day@.contains(hour));
    }
    false
}

/// The wireless listing marks neither public radio disabled.
pub open spec fn spec_pub_wifi_enabled(output: Seq<char>) -> bool {
    !spec_contains(output, "wireless.wpublica.disabled='1'"@) && !spec_contains(
        output,
        "wireless.wpublicg.disabled='1'"@,
    )
}

/// Reads the current public-wifi state from the wireless
/// configuration's listing: disabled iff either public radio carries
/// `disabled='1'`.
pub fn is_pub_wifi_enabled_impl(output: &str) -> (r: bool)
    ensures
        r == spec_pub_wifi_enabled(output@),
{
    !contains_sub(output, "wireless.wpublica.disabled='1'") && !contains_sub(
        output,
        "wireless.wpublicg.disabled='1'",
    )
}

/// The configuration argument that switches one public radio: radio
/// `standard` is disabled when the wifi should be off.
pub fn wifi_status_arg(enable: bool, standard: &str) -> (r: String)
    ensures
        r@ == "wireless.wpublic"@ + standard@ + ".disabled="@ + (if enable {
            "0"@
        } else {
            "1"@
        }),
{
    let mut s = String::new();
    s.append("wireless.wpublic");
    s.append(standard);
    s.append(".disabled=");
    if enable {
        s.append("0");
        proof {
            assert(s@ =~= "wireless.wpublic"@ + standard@ + ".disabled="@ + "0"@);
        }
    } else {
        s.append("1");
        proof {
            assert(s@ =~= "wireless.wpublic"@ + standard@ + ".disabled="@ + "1"@);
        }
    }
    s
}

} // verus!
