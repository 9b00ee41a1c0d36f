//! The decisions of the daemon: which readings count, what each fan is driven at,
//! and whether it obeyed.
use crate::config::{curve_value, rising, Config, CurvePoint, FanConfig, SensorConfig};
use crate::hwmon::{chosen_dir, fan_state, pwm_file, temp_input, Fan, Sensor};
use crate::interrupt::NAP;
use crate::ipc::FanStatus;
use crate::names::{looked_up, NameMap};
use crate::scalar::Scalar;
use crate::sysfs::{below, Sysfs};
use crate::text;
use vstd::prelude::*;

verus! {

/// Number of analytics history snapshots to retain per fan.
pub const ANALYTICS_HISTORY_SIZE: usize = 300;

/// Recompute analytics every N ticks.
pub const ANALYTICS_RECOMPUTE_INTERVAL: u32 = 30;

// ---- Starting up ----

/// What to say where the first sensor from the `i`-th on that cannot be found is.
pub open spec fn sensor_failure(
    sysfs: Sysfs,
    sensors: Seq<SensorConfig>,
    i: int,
) -> Option<Seq<char>>
    decreases sensors.len() - i,
{
    if i >= sensors.len() {
        None
    } else {
        let s = sensors[i];
        match chosen_dir(
            sysfs,
            "sensor"@,
            s.name@,
            s.hwmon@,
            s.hwmon_instance,
            temp_input(s.index),
        ) {
            Err(e) => Some("failed to initialize sensor '"@ + s.name@ + "': "@ + e),
            Ok(_) => sensor_failure(sysfs, sensors, i + 1),
        }
    }
}

/// Whether `sensor` is the one that the configuration means.
pub open spec fn is_configured_sensor(sysfs: Sysfs, sensor: Sensor, s: SensorConfig) -> bool {
    chosen_dir(
        sysfs,
        "sensor"@,
        s.name@,
        s.hwmon@,
        s.hwmon_instance,
        temp_input(s.index),
    ) matches Ok(dir) && sensor.is_at(s.name@, dir, s.index)
}

/// Binds every configured sensor to its files.
pub fn resolve_sensors(config: &Config, sysfs: &Sysfs) -> (r: Result<Vec<Sensor>, String>)
    ensures
        match r {
            Ok(v) => {
                &&& sensor_failure(*sysfs, config.sensors@, 0) is None
                &&& v@.len() == config.sensors@.len()
                &&& forall|i: int|
                    0 <= i < v@.len() ==> is_configured_sensor(
                        *sysfs,
                        #[trigger] v@[i],
                        config.sensors@[i],
                    )
            },
            Err(m) => sensor_failure(*sysfs, config.sensors@, 0) == Some(m@),
        },
{
    let mut r: Vec<Sensor> = Vec::new();
    for i in 0..config.sensors.len()
        invariant
            r@.len() == i,
            sensor_failure(*sysfs, config.sensors@, 0) == sensor_failure(
                *sysfs,
                config.sensors@,
                i as int,
            ),
            forall|k: int|
                0 <= k < i ==> is_configured_sensor(
                    *sysfs,
                    #[trigger] r@[k],
                    config.sensors@[k],
                ),
    {
        let s = &config.sensors[i];
        match Sensor::from_config(
            s.name.as_str(),
            s.hwmon.as_str(),
            s.index,
            s.hwmon_instance,
            sysfs,
        ) {
            Ok(sensor) => r.push(sensor),
            Err(e) => {
                return Err(
                    text::around("failed to initialize sensor '", s.name.as_str(), "': ").concat(
                        e.as_str(),
                    ),
                );
            },
        }
    }
    Ok(r)
}

/// What to say where the first fan from the `i`-th on that cannot be had is.
pub open spec fn fan_failure(sysfs: Sysfs, fans: Seq<FanConfig>, i: int) -> Option<Seq<char>>
    decreases fans.len() - i,
{
    if i >= fans.len() {
        None
    } else {
        let f = fans[i];
        let opening = "failed to initialize fan '"@ + f.name@ + "': "@;
        match chosen_dir(
            sysfs,
            "fan"@,
            f.name@,
            f.hwmon@,
            f.hwmon_instance,
            pwm_file(f.pwm_index),
        ) {
            Err(e) => Some(opening + e),
            Ok(dir) => match fan_state(sysfs, dir, f.pwm_index) {
                Err(e) => Some(opening + e),
                Ok(_) => fan_failure(sysfs, fans, i + 1),
            },
        }
    }
}

/// Whether `fan` is the one that the configuration means.
pub open spec fn is_configured_fan(sysfs: Sysfs, fan: Fan, f: FanConfig) -> bool {
    chosen_dir(
        sysfs,
        "fan"@,
        f.name@,
        f.hwmon@,
        f.hwmon_instance,
        pwm_file(f.pwm_index),
    ) matches Ok(dir) && fan.is_at(sysfs, f.name@, dir, f.pwm_index)
}

/// Binds every configured fan to its files, before any of them is taken over.
pub fn resolve_fans(config: &Config, sysfs: &Sysfs) -> (r: Result<Vec<Fan>, String>)
    ensures
        match r {
            Ok(v) => {
                &&& fan_failure(*sysfs, config.fans@, 0) is None
                &&& v@.len() == config.fans@.len()
                &&& forall|i: int|
                    0 <= i < v@.len() ==> is_configured_fan(
                        *sysfs,
                        #[trigger] v@[i],
                        config.fans@[i],
                    )
            },
            Err(m) => fan_failure(*sysfs, config.fans@, 0) == Some(m@),
        },
{
    let mut r: Vec<Fan> = Vec::new();
    for i in 0..config.fans.len()
        invariant
            r@.len() == i,
            fan_failure(*sysfs, config.fans@, 0) == fan_failure(*sysfs, config.fans@, i as int),
            forall|k: int|
                0 <= k < i ==> is_configured_fan(*sysfs, #[trigger] r@[k], config.fans@[k]),
    {
        let f = &config.fans[i];
        match Fan::from_config(
            f.name.as_str(),
            f.hwmon.as_str(),
            f.pwm_index,
            f.hwmon_instance,
            sysfs,
        ) {
            Ok(fan) => r.push(fan),
            Err(e) => {
                return Err(
                    text::around("failed to initialize fan '", f.name.as_str(), "': ").concat(
                        e.as_str(),
                    ),
                );
            },
        }
    }
    Ok(r)
}

/// What to say where a fan could not be switched to manual mode.
pub fn manual_failure(fan: &str, cause: &str) -> (r: String)
    ensures
        r@ == "failed to set fan '"@ + fan@ + "' to manual mode: "@ + cause@,
{
    text::around("failed to set fan '", fan, "' to manual mode: ").concat(cause)
}

// ---- Readings ----

/// What a reading of a sensor is worth.
#[derive(Debug, Clone)]
pub enum Reading {
    /// A temperature in thousandths of a degree Celsius.
    Accepted(i64),
    /// A temperature that cannot be right.
    OutOfRange(i64),
    /// No temperature, for the reason given.
    Unreadable(String),
}

/// Whether a temperature counts: above 0 and up to 150 degrees.
pub open spec fn plausible(temp: i64) -> bool {
    0 < temp <= 150000
}

/// What the reading of a sensor is worth.
pub open spec fn judged(reading: Result<i64, String>) -> Reading {
    match reading {
        Ok(t) => if plausible(t) {
            Reading::Accepted(t)
        } else {
            Reading::OutOfRange(t)
        },
        Err(e) => Reading::Unreadable(e),
    }
}

/// Judges a reading of a sensor.
pub fn judge(reading: Result<i64, String>) -> (r: Reading)
    ensures
        r == judged(reading),
{
    match reading {
        Ok(t) => if 0 < t && t <= 150000 {
            Reading::Accepted(t)
        } else {
            Reading::OutOfRange(t)
        },
        Err(e) => Reading::Unreadable(e),
    }
}

/// The temperatures that the first `n` readings give, by the names of the sensors:
/// those that are accepted, the last one of a name.
pub open spec fn temps_of(names: Seq<String>, readings: Seq<Reading>, n: int) -> Map<
    Seq<char>,
    i64,
>
    decreases n,
{
    if n <= 0 {
        Map::empty()
    } else {
        let before = temps_of(names, readings, n - 1);
        match readings[n - 1] {
            Reading::Accepted(t) => before.insert(names[n - 1]@, t),
            _ => before,
        }
    }
}

/// The rates that go with the temperatures of the first `n` readings.
pub open spec fn rates_of(
    names: Seq<String>,
    readings: Seq<Reading>,
    rates: Seq<Scalar>,
    n: int,
) -> Map<Seq<char>, Scalar>
    decreases n,
{
    if n <= 0 {
        Map::empty()
    } else {
        let before = rates_of(names, readings, rates, n - 1);
        match readings[n - 1] {
            Reading::Accepted(_) => before.insert(names[n - 1]@, rates[n - 1]),
            _ => before,
        }
    }
}

/// What a tick knows of the sensors: the temperatures that were accepted, and the
/// rates at which these change. `rates` is looked at only where the reading was
/// accepted.
pub fn sense(names: &Vec<String>, readings: &Vec<Reading>, rates: &Vec<Scalar>) -> (r: (
    NameMap<i64>,
    NameMap<Scalar>,
))
    requires
        readings@.len() == names@.len(),
        rates@.len() == names@.len(),
    ensures
        r.0@ == temps_of(names@, readings@, names@.len() as int),
        r.1@ == rates_of(names@, readings@, rates@, names@.len() as int),
{
    let mut temperatures: NameMap<i64> = NameMap::new();
    let mut derivatives: NameMap<Scalar> = NameMap::new();
    for i in 0..names.len()
        invariant
            readings@.len() == names@.len(),
            rates@.len() == names@.len(),
            temperatures@ == temps_of(names@, readings@, i as int),
            derivatives@ == rates_of(names@, readings@, rates@, i as int),
    {
        if let Reading::Accepted(t) = &readings[i] {
            temperatures.put(names[i].as_str(), *t);
            derivatives.put(names[i].as_str(), rates[i]);
        }
    }
    (temperatures, derivatives)
}

/// Whether one of the first `n` readings of the name was accepted.
pub open spec fn was_accepted(
    names: Seq<String>,
    readings: Seq<Reading>,
    name: Seq<char>,
    n: int,
) -> bool {
    exists|i: int| 0 <= i < n && (#[trigger] names[i])@ == name && readings[i] is Accepted
}

/// Whether a plausible temperature was read of the name.
pub open spec fn has_plausible(
    names: Seq<String>,
    raw: Seq<Result<i64, String>>,
    name: Seq<char>,
) -> bool {
    exists|i: int|
        0 <= i < names.len() && (#[trigger] names[i])@ == name && (raw[i] matches Ok(t)
            && plausible(t))
}

proof fn lemma_known(
    names: Seq<String>,
    readings: Seq<Reading>,
    rates: Seq<Scalar>,
    name: Seq<char>,
    n: int,
)
    requires
        0 <= n,
    ensures
        temps_of(names, readings, n).dom().contains(name) <==> was_accepted(
            names,
            readings,
            name,
            n,
        ),
        rates_of(names, readings, rates, n).dom().contains(name) <==> was_accepted(
            names,
            readings,
            name,
            n,
        ),
    decreases n,
{
    if n > 0 {
        lemma_known(names, readings, rates, name, n - 1);
        if was_accepted(names, readings, name, n - 1) {
            let k = choose|i: int|
                0 <= i < n - 1 && (#[trigger] names[i])@ == name && readings[i] is Accepted;
            assert(names[k]@ == name);
        }
        assert(names[n - 1]@ == name && readings[n - 1] is Accepted ==> was_accepted(
            names,
            readings,
            name,
            n,
        ));
    }
}

/// A tick knows the temperature and the rate of exactly those sensors of which a
/// reading was accepted, and they are those of the last such reading.
pub proof fn law_sensed(
    names: Seq<String>,
    readings: Seq<Reading>,
    rates: Seq<Scalar>,
    name: Seq<char>,
    n: int,
)
    requires
        0 <= n <= names.len(),
        readings.len() == names.len(),
        rates.len() == names.len(),
    ensures
        temps_of(names, readings, n).dom().contains(name) <==> was_accepted(
            names,
            readings,
            name,
            n,
        ),
        rates_of(names, readings, rates, n).dom().contains(name) <==> was_accepted(
            names,
            readings,
            name,
            n,
        ),
        was_accepted(names, readings, name, n) ==> exists|i: int|
            {
                &&& 0 <= i < n
                &&& (#[trigger] names[i])@ == name
                &&& readings[i] == Reading::Accepted(temps_of(names, readings, n)[name])
                &&& rates_of(names, readings, rates, n)[name] == rates[i]
                &&& forall|j: int|
                    i < j < n && (#[trigger] names[j])@ == name ==> !(readings[j] is Accepted)
            },
    decreases n,
{
    lemma_known(names, readings, rates, name, n);
    if n > 0 {
        law_sensed(names, readings, rates, name, n - 1);
        if names[n - 1]@ == name && readings[n - 1] is Accepted {
            assert(readings[n - 1] == Reading::Accepted(temps_of(names, readings, n)[name]));
        } else if was_accepted(names, readings, name, n) {
            let at = choose|i: int|
                0 <= i < n && (#[trigger] names[i])@ == name && readings[i] is Accepted;
            assert(names[at]@ == name && at < n - 1);
            let k = choose|i: int|
                {
                    &&& 0 <= i < n - 1
                    &&& (#[trigger] names[i])@ == name
                    &&& readings[i] == Reading::Accepted(temps_of(names, readings, n - 1)[name])
                    &&& rates_of(names, readings, rates, n - 1)[name] == rates[i]
                    &&& forall|j: int|
                        i < j < n - 1 && (#[trigger] names[j])@ == name ==> !(
                        readings[j] is Accepted)
                };
            assert(names[k]@ == name);
        }
    }
}

// ---- Linked sensors ----

/// Whether temperature and rate of each of the names are known.
pub open spec fn all_known(
    names: Seq<String>,
    temps: Map<Seq<char>, i64>,
    rates: Map<Seq<char>, Scalar>,
) -> bool {
    forall|i: int|
        0 <= i < names.len() ==> temps.dom().contains((#[trigger] names[i])@)
            && rates.dom().contains(names[i]@)
}

/// The highest temperature of the first `n` names.
pub open spec fn hottest(names: Seq<String>, temps: Map<Seq<char>, i64>, n: int) -> i64
    decreases n,
{
    let t = temps[names[n - 1]@];
    if n <= 1 {
        t
    } else {
        let h = hottest(names, temps, n - 1);
        if t > h {
            t
        } else {
            h
        }
    }
}

/// The rate farthest from zero of the first `n` names, the first where several
/// are equally far; zero where there is none.
pub open spec fn fastest(names: Seq<String>, rates: Map<Seq<char>, Scalar>, n: int) -> Scalar
    decreases n,
{
    if n <= 0 {
        Scalar { bits: 0 }
    } else {
        let f = fastest(names, rates, n - 1);
        let d = rates[names[n - 1]@];
        if f.absolute().below(d.absolute()) {
            d
        } else {
            f
        }
    }
}

/// The highest temperature and the fastest rate of the linked sensors, where all
/// of them are known and there are any.
pub open spec fn maxima(
    names: Seq<String>,
    temps: Map<Seq<char>, i64>,
    rates: Map<Seq<char>, Scalar>,
) -> Option<(i64, Scalar)> {
    if names.len() == 0 || !all_known(names, temps, rates) {
        None
    } else {
        Some(
            (
                hottest(names, temps, names.len() as int),
                fastest(names, rates, names.len() as int),
            ),
        )
    }
}

/// The highest temperature and the fastest rate of the linked sensors; none where
/// any of them is unknown.
pub fn linked_sensor_maxima(
    sensor_names: &Vec<String>,
    temperatures: &NameMap<i64>,
    derivatives: &NameMap<Scalar>,
) -> (r: Option<(i64, Scalar)>)
    ensures
        r == maxima(sensor_names@, temperatures@, derivatives@),
{
    let n: usize = sensor_names.len();
    if n == 0 {
        return None;
    }
    let mut max_temp: i64 = 0;
    let mut max_dt = Scalar { bits: 0 };
    for i in 0..n
        invariant
            n == sensor_names@.len(),
            n > 0,
            forall|k: int|
                0 <= k < i ==> temperatures@.dom().contains((#[trigger] sensor_names@[k])@)
                    && derivatives@.dom().contains(sensor_names@[k]@),
            i > 0 ==> max_temp == hottest(sensor_names@, temperatures@, i as int),
            max_dt == fastest(sensor_names@, derivatives@, i as int),
    {
        let name = sensor_names[i].as_str();
        match (temperatures.get(name), derivatives.get(name)) {
            (Some(t), Some(d)) => {
                if i == 0 || t > max_temp {
                    max_temp = t;
                }
                if max_dt.abs().lt(d.abs()) {
                    max_dt = d;
                }
            },
            _ => {
                assert(!all_known(sensor_names@, temperatures@, derivatives@)) by {
                    assert(sensor_names@[i as int]@ == name@);
                }
                return None;
            },
        }
    }
    Some((max_temp, max_dt))
}

/// The temperatures of the linked sensors that have one.
pub fn linked_temps(sensor_names: &Vec<String>, temperatures: &NameMap<i64>) -> (r: NameMap<i64>)
    ensures
        forall|name: Seq<char>| #[trigger]
            looked_up(r@, name) == if text::views(sensor_names@).contains(name) {
                looked_up(temperatures@, name)
            } else {
                None
            },
{
    let mut r: NameMap<i64> = NameMap::new();
    let ghost names = text::views(sensor_names@);
    for i in 0..sensor_names.len()
        invariant
            names == text::views(sensor_names@),
            forall|name: Seq<char>| #[trigger]
                looked_up(r@, name) == if names.take(i as int).contains(name) {
                    looked_up(temperatures@, name)
                } else {
                    None
                },
    {
        let ghost was = r@;
        let this = sensor_names[i].as_str();
        if let Some(t) = temperatures.get(this) {
            r.put(this, t);
        }
        assert forall|name: Seq<char>| #[trigger]
            looked_up(r@, name) == if names.take(i + 1).contains(name) {
                looked_up(temperatures@, name)
            } else {
                None
            } by {
            let more = names.take(i + 1);
            let less = names.take(i as int);
            assert(names[i as int] == this@);
            if name == this@ {
                assert(more[i as int] == name);
                assert(looked_up(was, name) == looked_up(temperatures@, name) || looked_up(
                    was,
                    name,
                ) is None);
            } else {
                assert(looked_up(r@, name) == looked_up(was, name));
                if less.contains(name) {
                    let k = choose|k: int| 0 <= k < less.len() && less[k] == name;
                    assert(more[k] == name);
                }
                if more.contains(name) {
                    let k = choose|k: int| 0 <= k < more.len() && more[k] == name;
                    assert(less[k] == name);
                }
            }
        }
    }
    assert(names.take(names.len() as int) =~= names);
    r
}

// ---- Driving a fan ----

/// What becomes of a fan's derivative boost.
#[derive(Debug, Clone, Copy, PartialEq, Eq, Structural)]
pub enum BoostAction {
    /// It rises by five times the rate.
    Raise,
    /// It falls by the decay rate, down to zero.
    Decay,
    /// It falls by half the decay rate, down to zero.
    Relax,
    /// It is dropped.
    Reset,
}

/// What a fan is to do in this tick.
#[derive(Debug, Clone, Copy)]
pub struct FanPlan {
    /// The highest temperature and the fastest rate of its sensors; none where a
    /// sensor is not available.
    pub maxima: Option<(i64, Scalar)>,
    pub boost: BoostAction,
}

impl FanPlan {
    /// The highest temperature of the fan's sensors.
    pub open spec fn temp(self) -> Option<i64> {
        match self.maxima {
            Some((t, _)) => Some(t),
            None => None,
        }
    }
}

/// What becomes of the boost at the rate: it rises above the threshold, decays
/// while the temperature falls, and relaxes in between.
pub open spec fn boost_at(rate: Scalar, threshold: Scalar) -> BoostAction {
    if threshold.below(rate) {
        BoostAction::Raise
    } else if rate.below(Scalar { bits: 0 }) {
        BoostAction::Decay
    } else {
        BoostAction::Relax
    }
}

/// The plan for a fan with the linked sensors.
pub open spec fn plan_of(
    sensors: Seq<String>,
    threshold: Scalar,
    temps: Map<Seq<char>, i64>,
    rates: Map<Seq<char>, Scalar>,
) -> FanPlan {
    let m = maxima(sensors, temps, rates);
    FanPlan {
        maxima: m,
        boost: match m {
            Some((_, rate)) => boost_at(rate, threshold),
            None => BoostAction::Reset,
        },
    }
}

/// Plans a fan's tick from the readings of its sensors.
pub fn plan_fan(
    fan: &FanConfig,
    boost_threshold: Scalar,
    temperatures: &NameMap<i64>,
    derivatives: &NameMap<Scalar>,
) -> (r: FanPlan)
    ensures
        r == plan_of(fan.sensors@, boost_threshold, temperatures@, derivatives@),
{
    match linked_sensor_maxima(&fan.sensors, temperatures, derivatives) {
        Some((temp, rate)) => {
            let boost = if boost_threshold.lt(rate) {
                BoostAction::Raise
            } else if rate.lt(Scalar { bits: 0 }) {
                BoostAction::Decay
            } else {
                BoostAction::Relax
            };
            FanPlan { maxima: Some((temp, rate)), boost }
        },
        None => FanPlan { maxima: None, boost: BoostAction::Reset },
    }
}

/// What a fan is driven at.
#[derive(Debug, Clone, Copy, PartialEq, Eq, Structural)]
pub struct FanCommand {
    pub base_pwm: u8,
    pub boost: i16,
    pub target_pwm: u8,
}

/// `x`, held to what a PWM value can be.
pub open spec fn clamped(x: int) -> int {
    if x < 0 {
        0
    } else if x > 255 {
        255
    } else {
        x
    }
}

/// What a fan with the curve is driven at: the curve's value at the highest
/// temperature plus the boost; full speed where a sensor is not available.
pub open spec fn command_of(curve: Seq<CurvePoint>, temp: Option<i64>, boost: i16) -> FanCommand {
    match temp {
        Some(t) => {
            let base = curve_value(curve, t as int);
            FanCommand {
                base_pwm: base as u8,
                boost,
                target_pwm: clamped(base + boost) as u8,
            }
        },
        None => FanCommand { base_pwm: 255, boost: 0, target_pwm: 255 },
    }
}

/// What the fan is driven at, with the boost that its plan led to.
pub fn command(fan: &FanConfig, plan: &FanPlan, boost: i16) -> (r: FanCommand)
    ensures
        r == command_of(fan.curve@, plan.temp(), boost),
{
    match plan.maxima {
        Some((t, _)) => {
            let base_pwm: u8 = fan.interpolate_pwm(t);
            let sum: i32 = base_pwm as i32 + boost as i32;
            let target_pwm: u8 = if sum < 0 {
                0
            } else if sum > 255 {
                255
            } else {
                sum as u8
            };
            FanCommand { base_pwm, boost, target_pwm }
        },
        None => FanCommand { base_pwm: 255, boost: 0, target_pwm: 255 },
    }
}

/// Whether the fan obeyed: what went wrong with writing and reading back its PWM
/// value, if anything.
pub open spec fn obedience_failure(
    fan: Fan,
    command: FanCommand,
    wrote: Result<(), String>,
    seen: Sysfs,
) -> Option<Seq<char>> {
    match wrote {
        Err(e) => Some("failed to write PWM for fan '"@ + fan.name@ + "': "@ + e@),
        Ok(_) => match seen.number_at(fan.pwm_path@, 255) {
            Err(e) => Some("failed to verify PWM for fan '"@ + fan.name@ + "': "@ + e),
            Ok(actual) => if actual != command.target_pwm {
                Some(
                    "fan '"@ + fan.name@ + "': requested PWM "@ + text::decimal(
                        command.target_pwm as nat,
                    ) + ", read back "@ + text::decimal(actual),
                )
            } else {
                None
            },
        },
    }
}

/// The fan's speed as far as it can be read, else 0.
pub open spec fn speed(fan: Fan, seen: Sysfs) -> int {
    if seen.at(fan.rpm_path@) is None {
        0
    } else {
        match seen.number_at(fan.rpm_path@, 0xffff_ffff) {
            Ok(n) => n as int,
            Err(_) => 0,
        }
    }
}

/// Checks that the fan obeyed, given the outcome of writing its PWM value and
/// what its files hold since, and reports its state. The tick ends with an error
/// where it did not.
pub fn settle_fan(
    fan: &mut Fan,
    command: &FanCommand,
    wrote: Result<(), String>,
    seen: &Sysfs,
) -> (r: Result<FanStatus, String>)
    ensures
        *final(fan) == if wrote is Ok {
            Fan { last_pwm: Some(command.target_pwm), ..*old(fan) }
        } else {
            *old(fan)
        },
        match r {
            Ok(s) => {
                &&& obedience_failure(*old(fan), *command, wrote, *seen) is None
                &&& s.name@ == old(fan).name@
                &&& s.pwm == command.target_pwm
                &&& s.rpm == speed(*old(fan), *seen)
                &&& s.base_pwm == command.base_pwm
                &&& s.boost_applied == command.boost
            },
            Err(m) => obedience_failure(*old(fan), *command, wrote, *seen) == Some(m@),
        },
{
    if let Err(e) = wrote {
        return Err(
            text::around("failed to write PWM for fan '", fan.name.as_str(), "': ").concat(
                e.as_str(),
            ),
        );
    }
    fan.wrote_pwm(command.target_pwm);
    let actual: u8 = match fan.read_pwm(seen) {
        Ok(n) => n,
        Err(e) => {
            return Err(
                text::around("failed to verify PWM for fan '", fan.name.as_str(), "': ").concat(
                    e.as_str(),
                ),
            );
        },
    };
    if actual != command.target_pwm {
        return Err(
            text::around("fan '", fan.name.as_str(), "': requested PWM ").concat(
                text::decimal_of(command.target_pwm as u64).as_str(),
            ).concat(", read back ").concat(text::decimal_of(actual as u64).as_str()),
        );
    }
    let rpm: u32 = match fan.read_rpm(seen) {
        Ok(n) => n,
        Err(_) => 0,
    };
    Ok(
        FanStatus {
            name: fan.name.clone(),
            pwm: actual,
            rpm,
            base_pwm: command.base_pwm,
            boost_applied: command.boost,
        },
    )
}

/// The PWM values that the fans run at, by name.
pub fn pwms_of(fans: &Vec<FanStatus>) -> (r: NameMap<u8>)
    ensures
        r@ == pwms_by_name(fans@, fans@.len() as int),
{
    let mut r: NameMap<u8> = NameMap::new();
    for i in 0..fans.len()
        invariant
            r@ == pwms_by_name(fans@, i as int),
    {
        r.put(fans[i].name.as_str(), fans[i].pwm);
    }
    r
}

/// The PWM values that the first `n` fans run at, by name.
pub open spec fn pwms_by_name(fans: Seq<FanStatus>, n: int) -> Map<Seq<char>, u8>
    decreases n,
{
    if n <= 0 {
        Map::empty()
    } else {
        pwms_by_name(fans, n - 1).insert(fans[n - 1].name@, fans[n - 1].pwm)
    }
}

/// Whether the analytics are recomputed in the tick.
pub fn analytics_due(tick: u32) -> (r: bool)
    ensures
        r == (tick % ANALYTICS_RECOMPUTE_INTERVAL == 0),
{
    tick % ANALYTICS_RECOMPUTE_INTERVAL == 0
}

// ---- The loop ----

/// What the service manager is told after a tick.
#[derive(Debug, Clone, Copy, PartialEq, Eq, Structural)]
pub enum Notice {
    Ready,
    Watchdog,
}

/// Where the loop stands.
#[derive(Debug, Clone, Copy, PartialEq, Eq, Structural)]
pub struct Pace {
    pub tick: u32,
    pub ready: bool,
}

impl Pace {
    pub fn new() -> (r: Self)
        ensures
            r == (Pace { tick: 0, ready: false }),
    {
        Pace { tick: 0, ready: false }
    }

    /// Goes on to the next tick: after the first one that succeeds the daemon is
    /// ready, after every other one the watchdog is fed.
    pub fn next(&mut self) -> (r: Notice)
        ensures
            r == if old(self).ready {
                Notice::Watchdog
            } else {
                Notice::Ready
            },
            final(self).ready,
            final(self).tick == if old(self).tick == u32::MAX {
                0
            } else {
                old(self).tick + 1
            },
    {
        let notice = if self.ready {
            Notice::Watchdog
        } else {
            Notice::Ready
        };
        self.ready = true;
        self.tick = if self.tick == 0xffff_ffff {
            0
        } else {
            self.tick + 1
        };
        notice
    }
}

/// Nanoseconds to wait until the next tick, when this one took `elapsed`
/// nanoseconds.
pub fn pause(poll_interval_ms: u64, elapsed: u128) -> (r: u128)
    ensures
        r == if elapsed < poll_interval_ms * 1_000_000 {
            poll_interval_ms * 1_000_000 - elapsed
        } else {
            0
        },
{
    let interval: u128 = poll_interval_ms as u128 * 1_000_000;
    if elapsed < interval {
        interval - elapsed
    } else {
        0
    }
}

/// How long to sleep before looking for a signal again, when `remaining`
/// nanoseconds of a wait are left; nothing once the wait or the daemon is over.
pub fn sleep_interruptibly(shutdown: bool, remaining: u128) -> (r: Option<u64>)
    ensures
        match r {
            None => shutdown || remaining == 0,
            Some(n) => !shutdown && remaining > 0 && n == if remaining < NAP {
                remaining as int
            } else {
                NAP as int
            },
        },
{
    if shutdown || remaining == 0 {
        None
    } else if remaining < NAP as u128 {
        Some(remaining as u64)
    } else {
        Some(NAP)
    }
}

// ---- Laws ----

/// The readings of a whole tick decide how a fan is driven. Where a sensor that is
/// linked to it has no plausible reading, or none is linked to it, it is driven at
/// full speed without a boost, whatever its curve, the other readings and the
/// boost so far are. Otherwise the highest of the temperatures decides.
pub proof fn law_missing_sensor_means_full_speed(
    names: Seq<String>,
    raw: Seq<Result<i64, String>>,
    readings: Seq<Reading>,
    rates: Seq<Scalar>,
    linked: Seq<String>,
    curve: Seq<CurvePoint>,
    threshold: Scalar,
    boost: i16,
)
    requires
        raw.len() == names.len(),
        readings.len() == names.len(),
        rates.len() == names.len(),
        forall|i: int| 0 <= i < raw.len() ==> #[trigger] readings[i] == judged(raw[i]),
    ensures
        ({
            let temps = temps_of(names, readings, names.len() as int);
            let plan = plan_of(
                linked,
                threshold,
                temps,
                rates_of(names, readings, rates, names.len() as int),
            );
            let known = forall|k: int|
                0 <= k < linked.len() ==> has_plausible(names, raw, (#[trigger] linked[k])@);
            if linked.len() == 0 || !known {
                &&& plan.boost == BoostAction::Reset
                &&& command_of(curve, plan.temp(), boost) == (FanCommand {
                    base_pwm: 255,
                    boost: 0,
                    target_pwm: 255,
                })
            } else {
                plan.temp() == Some(hottest(linked, temps, linked.len() as int))
            }
        }),
{
    let n = names.len() as int;
    assert forall|k: int| 0 <= k < linked.len() implies {
        &&& temps_of(names, readings, n).dom().contains((#[trigger] linked[k])@)
            <==> has_plausible(names, raw, linked[k]@)
        &&& rates_of(names, readings, rates, n).dom().contains(linked[k]@) <==> has_plausible(
            names,
            raw,
            linked[k]@,
        )
    } by {
        let name = linked[k]@;
        lemma_known(names, readings, rates, name, n);
        if was_accepted(names, readings, name, n) {
            let i = choose|i: int|
                0 <= i < n && (#[trigger] names[i])@ == name && readings[i] is Accepted;
            assert(readings[i] == judged(raw[i]));
            assert(names[i]@ == name);
        }
        if has_plausible(names, raw, name) {
            let i = choose|i: int|
                0 <= i < names.len() && (#[trigger] names[i])@ == name && (raw[i] matches Ok(t)
                    && plausible(t));
            assert(readings[i] == judged(raw[i]));
            assert(names[i]@ == name);
        }
    }
}

/// The highest temperature is that of one of the sensors, and none is hotter.
pub proof fn law_hottest(names: Seq<String>, temps: Map<Seq<char>, i64>, n: int)
    requires
        1 <= n <= names.len(),
    ensures
        forall|i: int| 0 <= i < n ==> temps[(#[trigger] names[i])@] <= hottest(names, temps, n),
        exists|i: int| 0 <= i < n && temps[(#[trigger] names[i])@] == hottest(names, temps, n),
    decreases n,
{
    if n > 1 {
        law_hottest(names, temps, n - 1);
    }
    if hottest(names, temps, n) == temps[names[n - 1]@] {
        assert(temps[names[n - 1]@] == hottest(names, temps, n));
    } else {
        let k = choose|i: int|
            0 <= i < n - 1 && temps[(#[trigger] names[i])@] == hottest(names, temps, n - 1);
        assert(temps[names[k]@] == hottest(names, temps, n));
    }
}

/// No sensor changes faster than the rate found.
pub proof fn law_fastest(names: Seq<String>, rates: Map<Seq<char>, Scalar>, n: int, i: int)
    requires
        0 <= i < n <= names.len(),
    ensures
        !fastest(names, rates, n).absolute().below(rates[names[i]@].absolute()),
        !fastest(names, rates, n).nan(),
    decreases n,
{
    let f = fastest(names, rates, n - 1);
    let d = rates[names[n - 1]@];
    if i < n - 1 {
        law_fastest(names, rates, n - 1, i);
    } else if n > 1 {
        law_fastest(names, rates, n - 1, 0);
    }
    if i < n - 1 {
        crate::scalar::law_strict_order(
            f.absolute(),
            d.absolute(),
            rates[names[i]@].absolute(),
        );
    }
}

/// A hotter machine is never cooled less: on a rising curve a fan's target does
/// not fall when the temperature rises and the boost stays.
pub proof fn law_hotter_not_slower(curve: Seq<CurvePoint>, s: i64, t: i64, boost: i16)
    requires
        rising(curve),
        s <= t,
    ensures
        command_of(curve, Some(s), boost).target_pwm <= command_of(
            curve,
            Some(t),
            boost,
        ).target_pwm,
{
    crate::config::law_curve_monotone(curve, s as int, t as int);
    if curve.len() > 0 {
        crate::config::law_curve_bounds(curve, s as int);
        crate::config::law_curve_bounds(curve, t as int);
    }
}

/// A boost never drives a fan below its curve, and never takes it out of what a
/// PWM value can be.
pub proof fn law_boost_only_raises(curve: Seq<CurvePoint>, t: i64, boost: i16)
    requires
        rising(curve),
        boost >= 0,
    ensures
        command_of(curve, Some(t), boost).target_pwm >= command_of(curve, Some(t), boost).base_pwm,
        command_of(curve, Some(t), boost).base_pwm == curve_value(curve, t as int),
{
    if curve.len() > 0 {
        crate::config::law_curve_bounds(curve, t as int);
    }
}

/// A reading is accepted exactly where a temperature above 0 and up to 150 degrees
/// was read, and then as it was read.
pub proof fn law_judged(reading: Result<i64, String>)
    ensures
        judged(reading) is Accepted <==> (reading matches Ok(t) && 0 < t <= 150_000),
        judged(reading) matches Reading::Accepted(t) ==> reading == Ok::<i64, String>(t),
        judged(reading) is Unreadable <==> reading is Err,
{
}

proof fn lemma_fastest_found(names: Seq<String>, rates: Map<Seq<char>, Scalar>, n: int)
    requires
        0 <= n <= names.len(),
    ensures
        ({
            let f = fastest(names, rates, n);
            ||| f.bits == 0 && forall|j: int|
                0 <= j < n ==> !(Scalar { bits: 0 }).below(
                    rates[(#[trigger] names[j])@].absolute(),
                )
            ||| exists|i: int|
                {
                    &&& 0 <= i < n
                    &&& rates[(#[trigger] names[i])@] == f
                    &&& forall|j: int|
                        0 <= j < i && !rates[(#[trigger] names[j])@].nan()
                            ==> rates[names[j]@].absolute().below(f.absolute())
                }
        }),
    decreases n,
{
    if n > 0 {
        lemma_fastest_found(names, rates, n - 1);
        let f = fastest(names, rates, n - 1);
        let d = rates[names[n - 1]@];
        if f.absolute().below(d.absolute()) {
            assert forall|j: int|
                0 <= j < n - 1 && !rates[(#[trigger] names[j])@].nan() implies rates[names[j]@].absolute().below(
                d.absolute(),
            ) by {
                if n > 1 {
                    law_fastest(names, rates, n - 1, j);
                }
            }
            assert(rates[names[n - 1]@] == d);
        } else {
            if exists|i: int|
                {
                    &&& 0 <= i < n - 1
                    &&& rates[(#[trigger] names[i])@] == f
                    &&& forall|j: int|
                        0 <= j < i && !rates[(#[trigger] names[j])@].nan()
                            ==> rates[names[j]@].absolute().below(f.absolute())
                } {
                let i = choose|i: int|
                    {
                        &&& 0 <= i < n - 1
                        &&& rates[(#[trigger] names[i])@] == f
                        &&& forall|j: int|
                            0 <= j < i && !rates[(#[trigger] names[j])@].nan()
                                ==> rates[names[j]@].absolute().below(f.absolute())
                    };
                assert(rates[names[i]@] == f);
            } else {
                assert(f.bits == 0);
            }
        }
    }
}

/// The plan for a fan all of whose sensors are known. The temperature is that of the
/// hottest of them. The rate is the one that is farthest from zero, the first of
/// several that are equally far. The boost is raised exactly where the rate is above
/// the configured threshold; where it is not, it decays while the rate is below zero
/// and relaxes while it is not.
pub proof fn law_plan(
    sensors: Seq<String>,
    threshold: Scalar,
    temps: Map<Seq<char>, i64>,
    rates: Map<Seq<char>, Scalar>,
)
    requires
        sensors.len() > 0,
        forall|i: int|
            0 <= i < sensors.len() ==> temps.dom().contains((#[trigger] sensors[i])@)
                && rates.dom().contains(sensors[i]@),
    ensures
        ({
            let plan = plan_of(sensors, threshold, temps, rates);
            let zero = Scalar { bits: 0 };
            &&& plan.maxima is Some
            &&& {
                let (temp, rate) = plan.maxima->0;
                &&& exists|i: int| 0 <= i < sensors.len() && temps[(#[trigger] sensors[i])@] == temp
                &&& forall|i: int|
                    0 <= i < sensors.len() ==> temps[(#[trigger] sensors[i])@] <= temp
                &&& forall|i: int|
                    0 <= i < sensors.len() ==> !rate.absolute().below(
                        rates[(#[trigger] sensors[i])@].absolute(),
                    )
                &&& {
                    ||| rate == zero
                    ||| exists|i: int|
                        {
                            &&& 0 <= i < sensors.len()
                            &&& rates[(#[trigger] sensors[i])@] == rate
                            &&& forall|j: int|
                                0 <= j < i && !rates[(#[trigger] sensors[j])@].nan()
                                    ==> rates[sensors[j]@].absolute().below(rate.absolute())
                        }
                }
                &&& plan.boost == BoostAction::Raise <==> threshold.below(rate)
                &&& plan.boost == BoostAction::Decay <==> !threshold.below(rate) && rate.below(zero)
                &&& plan.boost == BoostAction::Relax <==> !threshold.below(rate) && !rate.below(
                    zero,
                )
            }
        }),
{
    let n = sensors.len() as int;
    law_hottest(sensors, temps, n);
    assert forall|i: int| 0 <= i < n implies !fastest(sensors, rates, n).absolute().below(
        rates[(#[trigger] sensors[i])@].absolute(),
    ) by {
        law_fastest(sensors, rates, n, i);
    }
    lemma_fastest_found(sensors, rates, n);
}

/// A higher threshold never raises a boost that a lower one does not.
pub proof fn law_threshold_matters(
    sensors: Seq<String>,
    lower: Scalar,
    higher: Scalar,
    temps: Map<Seq<char>, i64>,
    rates: Map<Seq<char>, Scalar>,
)
    requires
        lower.below(higher),
    ensures
        plan_of(sensors, higher, temps, rates).boost == BoostAction::Raise ==> plan_of(
            sensors,
            lower,
            temps,
            rates,
        ).boost == BoostAction::Raise,
{
}

/// What a fan whose sensors are known is driven at: its curve's value at the highest
/// temperature plus the boost, held between 0 and 255.
pub proof fn law_command(curve: Seq<CurvePoint>, temp: i64, boost: i16)
    requires
        rising(curve),
    ensures
        ({
            let c = command_of(curve, Some(temp), boost);
            let sum = curve_value(curve, temp as int) + boost;
            &&& c.base_pwm == curve_value(curve, temp as int)
            &&& c.boost == boost
            &&& 0 <= sum <= 255 ==> c.target_pwm == sum
            &&& sum < 0 ==> c.target_pwm == 0
            &&& sum > 255 ==> c.target_pwm == 255
        }),
{
    if curve.len() > 0 {
        crate::config::law_curve_bounds(curve, temp as int);
    }
}

/// A fan has obeyed exactly where its PWM value was written and reads back as it was
/// commanded.
pub proof fn law_obeyed_iff(
    fan: Fan,
    command: FanCommand,
    wrote: Result<(), String>,
    seen: Sysfs,
)
    ensures
        obedience_failure(fan, command, wrote, seen) is None <==> wrote is Ok && (seen.number_at(
            fan.pwm_path@,
            255,
        ) matches Ok(n) && n == command.target_pwm),
{
}

/// The PWM values by name: a name has one exactly where a fan has the name, and then
/// that of the last such fan.
pub proof fn law_pwms_by_name(fans: Seq<FanStatus>, name: Seq<char>, n: int)
    requires
        0 <= n <= fans.len(),
    ensures
        pwms_by_name(fans, n).dom().contains(name) <==> exists|i: int|
            0 <= i < n && (#[trigger] fans[i]).name@ == name,
        pwms_by_name(fans, n).dom().contains(name) ==> exists|i: int|
            {
                &&& 0 <= i < n
                &&& (#[trigger] fans[i]).name@ == name
                &&& fans[i].pwm == pwms_by_name(fans, n)[name]
                &&& forall|j: int| i < j < n ==> (#[trigger] fans[j]).name@ != name
            },
    decreases n,
{
    if n > 0 {
        law_pwms_by_name(fans, name, n - 1);
        if fans[n - 1].name@ == name {
            assert(fans[n - 1].pwm == pwms_by_name(fans, n)[name]);
        } else if pwms_by_name(fans, n).dom().contains(name) {
            let i = choose|i: int|
                {
                    &&& 0 <= i < n - 1
                    &&& (#[trigger] fans[i]).name@ == name
                    &&& fans[i].pwm == pwms_by_name(fans, n - 1)[name]
                    &&& forall|j: int| i < j < n - 1 ==> (#[trigger] fans[j]).name@ != name
                };
            assert(fans[i].name@ == name);
        }
    }
}

/// Start-up fails exactly where some configured sensor, or fan, has no directory to be
/// in, or a fan's control mode or PWM value cannot be read there.
pub proof fn law_start_refused_iff(
    sysfs: Sysfs,
    sensors: Seq<SensorConfig>,
    fans: Seq<FanConfig>,
)
    ensures
        sensor_failure(sysfs, sensors, 0) is None <==> forall|k: int|
            0 <= k < sensors.len() ==> sensor_dir(sysfs, #[trigger] sensors[k]) is Ok,
        fan_failure(sysfs, fans, 0) is None <==> forall|k: int|
            0 <= k < fans.len() ==> (fan_dir(sysfs, #[trigger] fans[k]) matches Ok(dir)
                && fan_state(sysfs, dir, fans[k].pwm_index) is Ok),
{
    lemma_sensor_failure(sysfs, sensors, 0);
    lemma_fan_failure(sysfs, fans, 0);
}

/// The directory that a configured sensor is in: that of its chip and instance, or of
/// the first of its chips with its temperature file.
pub open spec fn sensor_dir(sysfs: Sysfs, s: SensorConfig) -> Result<Seq<char>, Seq<char>> {
    chosen_dir(
        sysfs,
        "sensor"@,
        s.name@,
        s.hwmon@,
        s.hwmon_instance,
        "temp"@ + text::decimal(s.index as nat) + "_input"@,
    )
}

/// The directory that a configured fan is in: that of its chip and instance, or of the
/// first of its chips with its PWM file.
pub open spec fn fan_dir(sysfs: Sysfs, f: FanConfig) -> Result<Seq<char>, Seq<char>> {
    chosen_dir(
        sysfs,
        "fan"@,
        f.name@,
        f.hwmon@,
        f.hwmon_instance,
        "pwm"@ + text::decimal(f.pwm_index as nat),
    )
}

proof fn lemma_sensor_failure(sysfs: Sysfs, sensors: Seq<SensorConfig>, i: int)
    requires
        0 <= i <= sensors.len(),
    ensures
        sensor_failure(sysfs, sensors, i) is None <==> forall|k: int|
            i <= k < sensors.len() ==> sensor_dir(sysfs, #[trigger] sensors[k]) is Ok,
    decreases sensors.len() - i,
{
    if i < sensors.len() {
        lemma_sensor_failure(sysfs, sensors, i + 1);
        if forall|k: int| i <= k < sensors.len() ==> sensor_dir(sysfs, #[trigger] sensors[k]) is Ok {
            assert(sensor_dir(sysfs, sensors[i]) is Ok);
        }
    }
}

proof fn lemma_fan_failure(sysfs: Sysfs, fans: Seq<FanConfig>, i: int)
    requires
        0 <= i <= fans.len(),
    ensures
        fan_failure(sysfs, fans, i) is None <==> forall|k: int|
            i <= k < fans.len() ==> (fan_dir(sysfs, #[trigger] fans[k]) matches Ok(dir)
                && fan_state(sysfs, dir, fans[k].pwm_index) is Ok),
    decreases fans.len() - i,
{
    if i < fans.len() {
        lemma_fan_failure(sysfs, fans, i + 1);
        if forall|k: int|
            i <= k < fans.len() ==> (fan_dir(sysfs, #[trigger] fans[k]) matches Ok(dir)
                && fan_state(sysfs, dir, fans[k].pwm_index) is Ok) {
            assert(fan_dir(sysfs, fans[i]) matches Ok(dir) && fan_state(
                sysfs,
                dir,
                fans[i].pwm_index,
            ) is Ok);
        }
    }
}

/// A sensor, or fan, that is bound as configured has the configured name and reads, or
/// writes, the files of its number in its own directory; a fan remembers what they held.
pub proof fn law_bound_as_configured(
    sysfs: Sysfs,
    sensor: Sensor,
    s: SensorConfig,
    fan: Fan,
    f: FanConfig,
)
    ensures
        is_configured_sensor(sysfs, sensor, s) ==> {
            &&& sensor.name@ == s.name@
            &&& sensor_dir(sysfs, s) is Ok
            &&& sensor.input_path@ == below(
                sensor_dir(sysfs, s)->Ok_0,
                "temp"@ + text::decimal(s.index as nat) + "_input"@,
            )
        },
        is_configured_fan(sysfs, fan, f) ==> {
            let dir = fan_dir(sysfs, f)->Ok_0;
            &&& fan.name@ == f.name@
            &&& fan_dir(sysfs, f) is Ok
            &&& fan.pwm_path@ == below(dir, "pwm"@ + text::decimal(f.pwm_index as nat))
            &&& fan.enable_path@ == below(
                dir,
                "pwm"@ + text::decimal(f.pwm_index as nat) + "_enable"@,
            )
            &&& fan.rpm_path@ == below(
                dir,
                "fan"@ + text::decimal(f.pwm_index as nat) + "_input"@,
            )
            &&& sysfs.number_at(fan.pwm_path@, 255) == Ok::<nat, Seq<char>>(
                fan.original_pwm as nat,
            )
            &&& sysfs.number_at(fan.enable_path@, 255) == Ok::<nat, Seq<char>>(
                fan.original_enable as nat,
            )
        },
{
}

/// A fan's speed is what its speed file holds; one without such a file, or whose file
/// holds no number, counts as standing still.
pub proof fn law_speed(fan: Fan, seen: Sysfs)
    ensures
        seen.number_at(fan.rpm_path@, 0xffff_ffff) matches Ok(n) ==> speed(fan, seen) == n,
        seen.number_at(fan.rpm_path@, 0xffff_ffff) is Err ==> speed(fan, seen) == 0,
{
}

} // verus!
