//! Inspecting one fan.
use crate::benchmark::{fan_called, find_fan};
use crate::detect::{fan_views, DetectedFan, FanView};
use crate::text;
use vstd::prelude::*;

verus! {

/// The names of the fans.
pub open spec fn names_of(fans: Seq<FanView>) -> Seq<Seq<char>> {
    fans.map_values(|f: FanView| f.auto_name)
}

/// Why a fan cannot be inspected.
pub open spec fn refusal(fans: Seq<FanView>, name: Seq<char>, duration: u64) -> Option<Seq<char>> {
    if duration == 0 {
        Some("duration must be greater than zero"@)
    } else if fan_called(fans, name, 0) is None {
        Some(
            "fan '"@ + name + "' was not detected; available fans: "@ + text::joined(
                names_of(fans),
                ", "@,
            ),
        )
    } else {
        None
    }
}

/// Refuses a duration of nothing.
pub fn check_duration(duration: u64) -> (r: Result<(), String>)
    ensures
        match r {
            Ok(_) => duration > 0,
            Err(m) => duration == 0 && m@ == "duration must be greater than zero"@,
        },
{
    if duration == 0 {
        return Err("duration must be greater than zero".to_owned());
    }
    Ok(())
}

/// The discovered fan that is to be inspected for `duration` seconds.
pub fn choose_fan(fans: &Vec<DetectedFan>, name: &str, duration: u64) -> (r: Result<usize, String>)
    ensures
        match r {
            Ok(i) => refusal(fan_views(fans@), name@, duration) is None && i < fans@.len()
                && fan_called(fan_views(fans@), name@, 0) == Some(i as int),
            Err(m) => refusal(fan_views(fans@), name@, duration) == Some(m@),
        },
{
    if let Err(m) = check_duration(duration) {
        return Err(m);
    }
    match find_fan(fans, name) {
        Some(i) => Ok(i),
        None => {
            let mut names: Vec<String> = Vec::new();
            let ghost all = names_of(fan_views(fans@));
            for i in 0..fans.len()
                invariant
                    all == names_of(fan_views(fans@)),
                    names@.len() == i,
                    forall|k: int| 0 <= k < i ==> (#[trigger] names@[k])@ == all[k],
            {
                names.push(fans[i].auto_name.clone());
            }
            assert(text::views(names@) =~= all);
            Err(
                text::around("fan '", name, "' was not detected; available fans: ").concat(
                    text::join(&names, ", ").as_str(),
                ),
            )
        },
    }
}

/// The line that tells how the fan stands.
pub fn standing_line(fan: &DetectedFan, pwm: u8, rpm: u32) -> (r: String)
    ensures
        r@ == fan.auto_name@ + ": chip="@ + fan.hwmon_chip@ + " pwm"@ + text::decimal(
            fan.pwm_index as nat,
        ) + " current_pwm="@ + text::decimal(pwm as nat) + " current_rpm="@ + text::decimal(
            rpm as nat,
        ),
{
    text::around(fan.auto_name.as_str(), ": chip=", fan.hwmon_chip.as_str()).concat(" pwm").concat(
        text::decimal_of(fan.pwm_index as u64).as_str(),
    ).concat(" current_pwm=").concat(text::decimal_of(pwm as u64).as_str()).concat(
        " current_rpm=",
    ).concat(text::decimal_of(rpm as u64).as_str())
}

/// The line that tells how fast the fan turns at full speed.
pub fn measured_line(name: &str, rpm: u32) -> (r: String)
    ensures
        r@ == name@ + ": measured_rpm="@ + text::decimal(rpm as nat) + " at_pwm=255"@,
{
    text::around(name, ": measured_rpm=", text::decimal_of(rpm as u64).as_str()).concat(
        " at_pwm=255",
    )
}

/// An inspection is refused exactly where it would take no time or no fan has the name;
/// what is said of the latter ends in the names of all the fans.
pub proof fn law_refused_iff(fans: Seq<FanView>, name: Seq<char>, duration: u64)
    ensures
        refusal(fans, name, duration) is Some <==> duration == 0 || forall|i: int|
            0 <= i < fans.len() ==> (#[trigger] fans[i]).auto_name != name,
        duration > 0 ==> (refusal(fans, name, duration) matches Some(m) ==> text::joined(
            fans.map_values(|f: FanView| f.auto_name),
            ", "@,
        ).is_suffix_of(m)),
{
    crate::benchmark::law_fan_called(fans, name, 0);
    if duration > 0 {
        if let Some(m) = refusal(fans, name, duration) {
            let names = fans.map_values(|f: FanView| f.auto_name);
            assert(names_of(fans) =~= names);
            let list = text::joined(names, ", "@);
            assert(m.subrange(m.len() - list.len(), m.len() as int) =~= list);
        }
    }
}

} // verus!
