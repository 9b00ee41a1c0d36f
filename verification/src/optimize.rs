//! Fan configurations fitted to tuning data: which sensors drive a fan, and the
//! curve along which they do.
use crate::config::{nearest, rising, Config, CurvePoint, FanConfig, FanPosition};
use crate::coupling::copy_names;
use crate::ipc::{CouplingEntry, TuningResponse};
use crate::scalar::Scalar;
use crate::text;
use vstd::prelude::*;

verus! {

/// The bit pattern of 1.0.
pub const ONE: u64 = 0x3ff0_0000_0000_0000;

/// The bit pattern of 0.3.
pub const THREE_TENTHS: u64 = 0x3fd3_3333_3333_3333;

/// A fan's configuration as the tuning data suggests it.
#[derive(Debug)]
pub struct OptimizedFan {
    pub name: String,
    pub sensors: Vec<String>,
    pub curve: Vec<CurvePoint>,
}

/// One entry per configured fan.
#[derive(Debug)]
pub struct OptimizedConfig {
    pub fans: Vec<OptimizedFan>,
    pub has_tuning_data: bool,
}

// ---- Thermal profiles ----

/// Temperatures of a sensor, in degrees Celsius: where its fan starts, what it
/// aims at, and where the part throttles.
#[derive(Debug, Clone, Copy, PartialEq, Eq, Structural)]
pub struct ThermalProfile {
    pub fan_on: u32,
    pub target: u32,
    pub throttle: u32,
}

/// The thermal profile that a sensor has by its name.
pub open spec fn profile_of(name: Seq<char>) -> ThermalProfile {
    if "cpu"@.is_prefix_of(name) {
        if text::holds_part(name, "ccd"@) {
            ThermalProfile { fan_on: 45, target: 78, throttle: 95 }
        } else {
            ThermalProfile { fan_on: 45, target: 80, throttle: 95 }
        }
    } else if "gpu"@.is_prefix_of(name) {
        if text::holds_part(name, "junction"@) {
            ThermalProfile { fan_on: 50, target: 90, throttle: 110 }
        } else if text::holds_part(name, "mem"@) {
            ThermalProfile { fan_on: 50, target: 85, throttle: 100 }
        } else {
            ThermalProfile { fan_on: 45, target: 80, throttle: 100 }
        }
    } else {
        ThermalProfile { fan_on: 40, target: 70, throttle: 90 }
    }
}

/// The default thermal profile of a sensor, by its name.
pub fn sensor_thermal_profile(sensor_name: &str) -> (r: ThermalProfile)
    ensures
        r == profile_of(sensor_name@),
{
    if text::starts_with(sensor_name, "cpu") {
        if text::contains(sensor_name, "ccd") {
            ThermalProfile { fan_on: 45, target: 78, throttle: 95 }
        } else {
            ThermalProfile { fan_on: 45, target: 80, throttle: 95 }
        }
    } else if text::starts_with(sensor_name, "gpu") {
        if text::contains(sensor_name, "junction") {
            ThermalProfile { fan_on: 50, target: 90, throttle: 110 }
        } else if text::contains(sensor_name, "mem") {
            ThermalProfile { fan_on: 50, target: 85, throttle: 100 }
        } else {
            ThermalProfile { fan_on: 45, target: 80, throttle: 100 }
        }
    } else {
        ThermalProfile { fan_on: 40, target: 70, throttle: 90 }
    }
}

/// In every profile the fan starts below the target, and the target lies below
/// the throttling temperature.
pub proof fn law_profile_order(name: Seq<char>)
    ensures
        profile_of(name).fan_on < profile_of(name).target < profile_of(name).throttle,
{
}

// ---- Sensors ----

/// Whether the entry says that the fan cools the sensor by more than the
/// threshold.
pub open spec fn cools(e: CouplingEntry, fan: Seq<char>, threshold: Scalar) -> bool {
    e.fan@ == fan && e.beta.below(threshold.negated())
}

/// `e` put into the list behind every entry that is not weaker.
pub open spec fn put_by_strength(
    s: Seq<(Seq<char>, Scalar)>,
    e: (Seq<char>, Scalar),
) -> Seq<(Seq<char>, Scalar)>
    decreases s.len(),
{
    if s.len() == 0 || !s.last().1.absolute().below(e.1.absolute()) {
        s.push(e)
    } else {
        put_by_strength(s.drop_last(), e).push(s.last())
    }
}

/// The sensors that the fan cools by more than the threshold, by the first `n`
/// entries, the strongest first; of equally strong ones the earlier first.
pub open spec fn coupled(
    entries: Seq<CouplingEntry>,
    fan: Seq<char>,
    threshold: Scalar,
    n: int,
) -> Seq<(Seq<char>, Scalar)>
    decreases n,
{
    if n <= 0 {
        Seq::empty()
    } else {
        let rest = coupled(entries, fan, threshold, n - 1);
        let e = entries[n - 1];
        if cools(e, fan, threshold) {
            put_by_strength(rest, (e.sensor@, e.beta))
        } else {
            rest
        }
    }
}

/// The sensors that the fan cools by more than the threshold, in the order of the
/// first `n` entries.
pub open spec fn cooled(
    entries: Seq<CouplingEntry>,
    fan: Seq<char>,
    threshold: Scalar,
    n: int,
) -> Seq<(Seq<char>, Scalar)>
    decreases n,
{
    if n <= 0 {
        Seq::empty()
    } else if cools(entries[n - 1], fan, threshold) {
        cooled(entries, fan, threshold, n - 1).push((entries[n - 1].sensor@, entries[n - 1].beta))
    } else {
        cooled(entries, fan, threshold, n - 1)
    }
}

pub open spec fn pair_views(s: Seq<(String, Scalar)>) -> Seq<(Seq<char>, Scalar)> {
    s.map_values(|p: (String, Scalar)| (p.0@, p.1))
}

/// Whether no entry is stronger than one before it.
pub open spec fn by_strength(s: Seq<(Seq<char>, Scalar)>) -> bool {
    forall|i: int, j: int|
        0 <= i < j < s.len() ==> !(#[trigger] s[i]).1.absolute().below(
            (#[trigger] s[j]).1.absolute(),
        )
}

proof fn lemma_put_by_strength(s: Seq<(Seq<char>, Scalar)>, e: (Seq<char>, Scalar))
    requires
        by_strength(s),
        !e.1.nan(),
        forall|i: int| 0 <= i < s.len() ==> !(#[trigger] s[i]).1.nan(),
    ensures
        by_strength(put_by_strength(s, e)),
        put_by_strength(s, e).to_multiset() == s.to_multiset().insert(e),
        forall|i: int|
            0 <= i < put_by_strength(s, e).len() ==> #[trigger] put_by_strength(s, e)[i] == e
                || s.contains(put_by_strength(s, e)[i]),
    decreases s.len(),
{
    broadcast use vstd::seq_lib::group_to_multiset_ensures;

    let r = put_by_strength(s, e);
    if s.len() == 0 || !s.last().1.absolute().below(e.1.absolute()) {
        assert forall|i: int, j: int| 0 <= i < j < r.len() implies !(
        #[trigger] r[i]).1.absolute().below((#[trigger] r[j]).1.absolute()) by {
            if j == s.len() && i < s.len() - 1 {
                assert(!s[i].1.absolute().below(s.last().1.absolute()));
            }
        }
        assert forall|i: int| 0 <= i < r.len() implies #[trigger] r[i] == e || s.contains(r[i]) by {
            if i < s.len() {
                assert(s[i] == r[i]);
            }
        }
    } else {
        let t = s.drop_last();
        assert forall|i: int, j: int| 0 <= i < j < t.len() implies !(
        #[trigger] t[i]).1.absolute().below((#[trigger] t[j]).1.absolute()) by {
            assert(!s[i].1.absolute().below(s[j].1.absolute()));
        }
        lemma_put_by_strength(t, e);
        let u = put_by_strength(t, e);
        assert forall|i: int, j: int| 0 <= i < j < r.len() implies !(
        #[trigger] r[i]).1.absolute().below((#[trigger] r[j]).1.absolute()) by {
            if j == r.len() - 1 {
                assert(u[i] == r[i]);
                if r[i] != e {
                    assert(t.contains(r[i]));
                    let k = choose|k: int| 0 <= k < t.len() && t[k] == r[i];
                    assert(!s[k].1.absolute().below(s.last().1.absolute()));
                }
            } else {
                assert(!u[i].1.absolute().below(u[j].1.absolute()));
            }
        }
        assert forall|i: int| 0 <= i < r.len() implies #[trigger] r[i] == e || s.contains(r[i]) by {
            if i < r.len() - 1 {
                assert(u[i] == r[i]);
                if r[i] != e {
                    let k = choose|k: int| 0 <= k < t.len() && t[k] == r[i];
                    assert(s[k] == r[i]);
                }
            } else {
                assert(s[s.len() - 1] == r[i]);
            }
        }
        assert(s =~= t.push(s.last()));
        assert(t.to_multiset().insert(e).insert(s.last()) =~= s.to_multiset().insert(e));
    }
}

/// Exactly the sensors that the fan cools by more than the threshold are found,
/// each as often as the entries say so, and none stands behind a weaker one.
pub proof fn law_coupled(entries: Seq<CouplingEntry>, fan: Seq<char>, threshold: Scalar, n: int)
    requires
        0 <= n <= entries.len(),
    ensures
        by_strength(coupled(entries, fan, threshold, n)),
        coupled(entries, fan, threshold, n).to_multiset() == cooled(
            entries,
            fan,
            threshold,
            n,
        ).to_multiset(),
        forall|i: int|
            0 <= i < coupled(entries, fan, threshold, n).len() ==> (#[trigger] coupled(
                entries,
                fan,
                threshold,
                n,
            )[i]).1.below(threshold.negated()),
    decreases n,
{
    broadcast use vstd::seq_lib::group_to_multiset_ensures;

    if n > 0 {
        law_coupled(entries, fan, threshold, n - 1);
        let rest = coupled(entries, fan, threshold, n - 1);
        let e = entries[n - 1];
        if cools(e, fan, threshold) {
            let p = (e.sensor@, e.beta);
            assert forall|i: int| 0 <= i < rest.len() implies !(#[trigger] rest[i]).1.nan() by {
                assert(rest[i].1.below(threshold.negated()));
            }
            lemma_put_by_strength(rest, p);
            let r = put_by_strength(rest, p);
            assert forall|i: int| 0 <= i < r.len() implies (#[trigger] r[i]).1.below(
                threshold.negated(),
            ) by {
                if r[i] != p {
                    assert(rest.contains(r[i]));
                    let k = choose|k: int| 0 <= k < rest.len() && rest[k] == r[i];
                    assert(rest[k].1.below(threshold.negated()));
                }
            }
        }
    }
}

fn insert_by_strength(list: &mut Vec<(String, Scalar)>, sensor: &str, beta: Scalar)
    ensures
        pair_views(final(list)@) == put_by_strength(pair_views(old(list)@), (sensor@, beta)),
{
    let ghost before = pair_views(list@);
    let ghost e = (sensor@, beta);
    let mut at: usize = list.len();
    let ghost mut tail: Seq<(Seq<char>, Scalar)> = Seq::empty();
    assert(put_by_strength(before, e) =~= put_by_strength(before.take(at as int), e) + tail) by {
        assert(before.take(at as int) =~= before);
    }
    while at > 0 && list[at - 1].1.abs().lt(beta.abs())
        invariant
            at <= list@.len(),
            before == pair_views(list@),
            list@ == old(list)@,
            e == (sensor@, beta),
            tail == before.skip(at as int),
            put_by_strength(before, e) == put_by_strength(before.take(at as int), e) + tail,
        decreases at,
    {
        proof {
            let s = before.take(at as int);
            assert(s.last() == (list@[at - 1].0@, list@[at - 1].1));
            assert(s.drop_last() =~= before.take(at - 1));
            assert(put_by_strength(s, e) == put_by_strength(s.drop_last(), e).push(s.last()));
            assert(put_by_strength(s.drop_last(), e).push(s.last()) + tail =~= put_by_strength(
                s.drop_last(),
                e,
            ) + before.skip(at - 1));
            tail = before.skip(at - 1);
        }
        at = at - 1;
    }
    proof {
        let s = before.take(at as int);
        assert(at > 0 ==> s.last() == (list@[at - 1].0@, list@[at - 1].1));
        assert(put_by_strength(s, e) == s.push(e));
    }
    list.insert(at, (sensor.to_owned(), beta));
    assert(pair_views(list@) =~= before.take(at as int).push(e) + before.skip(at as int));
}

fn couple(entries: &Vec<CouplingEntry>, fan: &str, threshold: Scalar) -> (r: Vec<(String, Scalar)>)
    ensures
        pair_views(r@) == coupled(entries@, fan@, threshold, entries@.len() as int),
{
    let limit = threshold.neg();
    let mut r: Vec<(String, Scalar)> = Vec::new();
    assert(pair_views(r@) =~= coupled(entries@, fan@, threshold, 0));
    for i in 0..entries.len()
        invariant
            limit == threshold.negated(),
            pair_views(r@) == coupled(entries@, fan@, threshold, i as int),
    {
        let e = &entries[i];
        if text::same(e.fan.as_str(), fan) && e.beta.lt(limit) {
            insert_by_strength(&mut r, e.sensor.as_str(), e.beta);
        }
    }
    r
}

/// What drives a fan, as the tuning data suggests it.
#[derive(Debug)]
pub struct Selection {
    pub sensors: Vec<String>,
    /// How far the strongest coupling is from zero.
    pub strength: Scalar,
}

/// The sensors that drive the fan: those that it cools, or its own where it cools
/// none.
pub open spec fn chosen_sensors(
    fan: FanConfig,
    entries: Seq<CouplingEntry>,
    threshold: Scalar,
) -> Seq<Seq<char>> {
    let c = coupled(entries, fan.name@, threshold, entries.len() as int);
    if c.len() == 0 {
        text::views(fan.sensors@)
    } else {
        c.map_values(|p: (Seq<char>, Scalar)| p.0)
    }
}

/// How far the fan's strongest cooling coupling is from zero; zero where it has
/// none.
pub open spec fn strength_of(
    fan: FanConfig,
    entries: Seq<CouplingEntry>,
    threshold: Scalar,
) -> Scalar {
    let c = coupled(entries, fan.name@, threshold, entries.len() as int);
    if c.len() == 0 {
        Scalar { bits: 0 }
    } else {
        c[0].1.absolute()
    }
}

/// Selects what drives the fan.
pub fn select_sensors(fan: &FanConfig, entries: &Vec<CouplingEntry>, threshold: Scalar) -> (r:
    Selection)
    ensures
        text::views(r.sensors@) == chosen_sensors(*fan, entries@, threshold),
        r.strength == strength_of(*fan, entries@, threshold),
{
    let c = couple(entries, fan.name.as_str(), threshold);
    let ghost views = pair_views(c@);
    assert(views.len() == c@.len());
    if c.len() == 0 {
        return Selection {
            sensors: copy_names(&fan.sensors),
            strength: Scalar { bits: 0 },
        };
    }
    let mut sensors: Vec<String> = Vec::new();
    for i in 0..c.len()
        invariant
            views == pair_views(c@),
            sensors@.len() == i,
            forall|k: int| 0 <= k < i ==> (#[trigger] sensors@[k])@ == views[k].0,
    {
        sensors.push(c[i].0.clone());
    }
    assert(text::views(sensors@) =~= views.map_values(|p: (Seq<char>, Scalar)| p.0));
    assert(views[0] == (c@[0].0@, c@[0].1));
    Selection { sensors, strength: c[0].1.abs() }
}

// ---- Curves ----

/// How effective a fan is, by how far its coupling is from zero; the shape of its
/// curve goes by that.
#[derive(Debug, Clone, Copy, PartialEq, Eq, Structural)]
pub enum Effectiveness {
    /// Above 1: the curve is convex, a gentle ramp.
    Strong,
    /// From 0.3 to 1: between linear and convex.
    Medium,
    /// Above 0 and below 0.3: concave, an aggressive ramp.
    Weak,
    /// No coupling is known: linear.
    Unknown,
}

/// How effective a fan with the coupling is.
pub fn effectiveness(beta_abs: Scalar) -> (r: Effectiveness)
    ensures
        r == if (Scalar { bits: ONE }).below(beta_abs) {
            Effectiveness::Strong
        } else if !beta_abs.nan() && !beta_abs.below(Scalar { bits: THREE_TENTHS }) {
            Effectiveness::Medium
        } else if (Scalar { bits: 0 }).below(beta_abs) {
            Effectiveness::Weak
        } else {
            Effectiveness::Unknown
        },
{
    if (Scalar { bits: ONE }).lt(beta_abs) {
        Effectiveness::Strong
    } else if beta_abs.abs().bits <= crate::scalar::INFINITY_BITS && !beta_abs.lt(
        Scalar { bits: THREE_TENTHS },
    ) {
        Effectiveness::Medium
    } else if (Scalar { bits: 0 }).lt(beta_abs) {
        Effectiveness::Weak
    } else {
        Effectiveness::Unknown
    }
}

/// The slowest a fan at the position runs.
pub open spec fn slowest(position: FanPosition) -> u8 {
    if position == FanPosition::CpuCooler || position == FanPosition::GpuCooler {
        30
    } else {
        0
    }
}

/// The temperature at `percent` of the way from where the fan starts to where the
/// part throttles.
pub open spec fn temp_at(p: ThermalProfile, percent: int) -> int {
    p.fan_on + nearest(percent * (p.throttle - p.fan_on), 100)
}

/// The curve between the two temperatures of the profile: it begins at the
/// slowest, ends at full speed, and has the values `interior` at 15, 35, 55, 75
/// and 90 percent of the way.
pub open spec fn urgency_curve(p: ThermalProfile, least: u8, interior: Seq<u8>) -> Seq<CurvePoint> {
    seq![
        CurvePoint { temp: p.fan_on, pwm: least },
        CurvePoint { temp: temp_at(p, 15) as u32, pwm: interior[0] },
        CurvePoint { temp: temp_at(p, 35) as u32, pwm: interior[1] },
        CurvePoint { temp: temp_at(p, 55) as u32, pwm: interior[2] },
        CurvePoint { temp: temp_at(p, 75) as u32, pwm: interior[3] },
        CurvePoint { temp: temp_at(p, 90) as u32, pwm: interior[4] },
        CurvePoint { temp: p.throttle, pwm: 255 },
    ]
}

fn temp_of(p: ThermalProfile, percent: u32) -> (r: u32)
    requires
        p.fan_on < p.throttle <= 110,
        percent <= 100,
    ensures
        r == temp_at(p, percent as int),
{
    let way: u32 = p.throttle - p.fan_on;
    assert(0 <= percent * way <= 100 * 110) by (nonlinear_arith)
        requires
            0 <= percent <= 100,
            0 <= way <= 110,
    ;
    p.fan_on + (2 * (percent * way) + 100) / 200
}

/// The slowest a fan at the position runs.
pub fn minimum_pwm(position: FanPosition) -> (r: u8)
    ensures
        r == slowest(position),
{
    match position {
        FanPosition::CpuCooler | FanPosition::GpuCooler => 30,
        _ => 0,
    }
}

/// The curve of a fan whose most important sensor is `primary_sensor`, with the
/// given values between its ends.
pub fn generate_urgency_curve(
    fan_config: &FanConfig,
    primary_sensor: &str,
    interior: [u8; 5],
) -> (r: Vec<CurvePoint>)
    ensures
        r@ == urgency_curve(
            profile_of(primary_sensor@),
            slowest(fan_config.topology.position),
            interior@,
        ),
{
    let p = sensor_thermal_profile(primary_sensor);
    let r = vec![
        CurvePoint { temp: p.fan_on, pwm: minimum_pwm(fan_config.topology.position) },
        CurvePoint { temp: temp_of(p, 15), pwm: interior[0] },
        CurvePoint { temp: temp_of(p, 35), pwm: interior[1] },
        CurvePoint { temp: temp_of(p, 55), pwm: interior[2] },
        CurvePoint { temp: temp_of(p, 75), pwm: interior[3] },
        CurvePoint { temp: temp_of(p, 90), pwm: interior[4] },
        CurvePoint { temp: p.throttle, pwm: 255 },
    ];
    assert(r@ =~= urgency_curve(
        profile_of(primary_sensor@),
        slowest(fan_config.topology.position),
        interior@,
    ));
    r
}

/// The curve of every sensor has strictly rising temperatures, from where its fan
/// starts up to where the part throttles, and ends at full speed; where the
/// values in between never fall, it is a curve that the daemon accepts.
pub proof fn law_urgency_curve_rises(name: Seq<char>, least: u8, interior: Seq<u8>)
    requires
        interior.len() == 5,
    ensures
        ({
            let c = urgency_curve(profile_of(name), least, interior);
            &&& c.len() == 7
            &&& c[0] == (CurvePoint { temp: profile_of(name).fan_on, pwm: least })
            &&& c[6] == (CurvePoint { temp: profile_of(name).throttle, pwm: 255 })
            &&& forall|i: int, j: int|
                0 <= i < j < c.len() ==> (#[trigger] c[i]).temp < (#[trigger] c[j]).temp
            &&& forall|i: int|
                0 <= i < c.len() ==> (#[trigger] c[i]).temp <= crate::config::MAX_CURVE_TEMP
            &&& (least <= interior[0] && (forall|i: int, j: int|
                0 <= i < j < 5 ==> #[trigger] interior[i] <= #[trigger] interior[j])) ==> rising(c)
        }),
{
    let p = profile_of(name);
    let c = urgency_curve(p, least, interior);
    let way = p.throttle - p.fan_on;
    assert(p.fan_on < temp_at(p, 15) < temp_at(p, 35) < temp_at(p, 55) < temp_at(p, 75)
        < temp_at(p, 90) < p.throttle);
    assert forall|i: int, j: int| 0 <= i < j < c.len() implies (#[trigger] c[i]).temp < (
    #[trigger] c[j]).temp by {}
}

// ---- The whole configuration ----

/// Whether `o` is the fan as it is configured.
pub open spec fn is_unchanged(o: OptimizedFan, f: FanConfig) -> bool {
    &&& o.name@ == f.name@
    &&& text::views(o.sensors@) == text::views(f.sensors@)
    &&& o.curve@ == f.curve@
}

/// The most important of the sensors: the first one, if there is any.
pub open spec fn primary(sensors: Seq<Seq<char>>) -> Seq<char> {
    if sensors.len() == 0 {
        Seq::empty()
    } else {
        sensors[0]
    }
}

/// Whether `o` is the fan as the tuning data suggests it, with values between the
/// ends of its curve that `shape` gives for its strength and its slowest value.
pub open spec fn is_optimized<S: Fn(Scalar, u8) -> [u8; 5]>(
    o: OptimizedFan,
    f: FanConfig,
    entries: Seq<CouplingEntry>,
    threshold: Scalar,
    shape: S,
) -> bool {
    let sensors = chosen_sensors(f, entries, threshold);
    let least = slowest(f.topology.position);
    &&& o.name@ == f.name@
    &&& text::views(o.sensors@) == sensors
    &&& exists|interior: [u8; 5]| #[trigger]
        call_ensures(shape, (strength_of(f, entries, threshold), least), interior) && o.curve@
            == urgency_curve(profile_of(primary(sensors)), least, interior@)
}

fn keep_fan(f: &FanConfig) -> (r: OptimizedFan)
    ensures
        is_unchanged(r, *f),
{
    let mut curve: Vec<CurvePoint> = Vec::new();
    for i in 0..f.curve.len()
        invariant
            curve@ == f.curve@.take(i as int),
    {
        curve.push(f.curve[i]);
        assert(curve@ =~= f.curve@.take(i + 1));
    }
    assert(f.curve@.take(f.curve@.len() as int) =~= f.curve@);
    OptimizedFan { name: f.name.clone(), sensors: copy_names(&f.sensors), curve }
}

/// Fan configurations as the tuning data suggests them; without tuning data they
/// stay as they are.
pub fn optimize_config<S: Fn(Scalar, u8) -> [u8; 5]>(
    config: &Config,
    tuning: Option<&TuningResponse>,
    coupling_threshold: Scalar,
    shape: S,
) -> (r: OptimizedConfig)
    requires
        forall|strength: Scalar, least: u8| #[trigger] call_requires(shape, (strength, least)),
    ensures
        r.has_tuning_data == (tuning matches Some(t) && t.coupling_matrix@.len() > 0),
        r.fans@.len() == config.fans@.len(),
        forall|i: int|
            0 <= i < r.fans@.len() ==> if r.has_tuning_data {
                is_optimized(
                    #[trigger] r.fans@[i],
                    config.fans@[i],
                    tuning->0.coupling_matrix@,
                    coupling_threshold,
                    shape,
                )
            } else {
                is_unchanged(r.fans@[i], config.fans@[i])
            },
{
    let mut fans: Vec<OptimizedFan> = Vec::new();
    if let Some(t) = tuning {
        if t.coupling_matrix.len() > 0 {
            for i in 0..config.fans.len()
                invariant
                    forall|strength: Scalar, least: u8| #[trigger]
                        call_requires(shape, (strength, least)),
                    fans@.len() == i,
                    forall|k: int|
                        0 <= k < i ==> is_optimized(
                            #[trigger] fans@[k],
                            config.fans@[k],
                            t.coupling_matrix@,
                            coupling_threshold,
                            shape,
                        ),
            {
                let f = &config.fans[i];
                let chosen = select_sensors(f, &t.coupling_matrix, coupling_threshold);
                let least: u8 = minimum_pwm(f.topology.position);
                let interior = shape(chosen.strength, least);
                assert(text::views(chosen.sensors@).len() == chosen.sensors@.len());
                let first = if chosen.sensors.len() == 0 {
                    String::new()
                } else {
                    chosen.sensors[0].clone()
                };
                assert(first@ =~= primary(text::views(chosen.sensors@)));
                let curve = generate_urgency_curve(f, first.as_str(), interior);
                fans.push(
                    OptimizedFan { name: f.name.clone(), sensors: chosen.sensors, curve },
                );
            }
            return OptimizedConfig { fans, has_tuning_data: true };
        }
    }
    for i in 0..config.fans.len()
        invariant
            fans@.len() == i,
            forall|k: int| 0 <= k < i ==> is_unchanged(#[trigger] fans@[k], config.fans@[k]),
    {
        fans.push(keep_fan(&config.fans[i]));
    }
    OptimizedConfig { fans, has_tuning_data: false }
}

// ---- Fans without data ----

/// Whether the tuning data says anything of the fan.
pub open spec fn has_data(entries: Seq<CouplingEntry>, fan: Seq<char>) -> bool {
    exists|i: int| 0 <= i < entries.len() && (#[trigger] entries[i]).fan@ == fan
}

/// The fans among the first `n` that the tuning data says anything of.
pub open spec fn fans_with_data(
    fans: Seq<FanConfig>,
    entries: Seq<CouplingEntry>,
    n: int,
) -> Seq<FanConfig>
    decreases n,
{
    if n <= 0 {
        Seq::empty()
    } else if has_data(entries, fans[n - 1].name@) {
        fans_with_data(fans, entries, n - 1).push(fans[n - 1])
    } else {
        fans_with_data(fans, entries, n - 1)
    }
}

/// The names of the fans among the first `n` that the tuning data says nothing
/// of.
pub open spec fn names_without_data(
    fans: Seq<FanConfig>,
    entries: Seq<CouplingEntry>,
    n: int,
) -> Seq<Seq<char>>
    decreases n,
{
    if n <= 0 {
        Seq::empty()
    } else if has_data(entries, fans[n - 1].name@) {
        names_without_data(fans, entries, n - 1)
    } else {
        names_without_data(fans, entries, n - 1).push(fans[n - 1].name@)
    }
}

fn is_measured(entries: &Vec<CouplingEntry>, fan: &str) -> (r: bool)
    ensures
        r == has_data(entries@, fan@),
{
    for i in 0..entries.len()
        invariant
            forall|k: int| 0 <= k < i ==> (#[trigger] entries@[k]).fan@ != fan@,
    {
        if text::same(entries[i].fan.as_str(), fan) {
            return true;
        }
    }
    false
}

/// Takes the fans out of a configuration that the tuning data says nothing of:
/// they are driven by firmware, or cannot be driven. Gives their names.
pub fn filter_uncontrollable_fans(config: &mut Config, tuning: &TuningResponse) -> (r: Vec<String>)
    ensures
        final(config).fans@ == fans_with_data(
            old(config).fans@,
            tuning.coupling_matrix@,
            old(config).fans@.len() as int,
        ),
        text::views(r@) == names_without_data(
            old(config).fans@,
            tuning.coupling_matrix@,
            old(config).fans@.len() as int,
        ),
        *final(config) == (Config { fans: final(config).fans, ..*old(config) }),
{
    let mut kept: Vec<FanConfig> = Vec::new();
    let mut removed: Vec<String> = Vec::new();
    let mut fans: Vec<FanConfig> = Vec::new();
    std::mem::swap(&mut fans, &mut config.fans);
    let n: usize = fans.len();
    let ghost all = fans@;
    let ghost entries = tuning.coupling_matrix@;
    assert(kept@ =~= fans_with_data(all, entries, 0));
    assert(text::views(removed@) =~= names_without_data(all, entries, 0));
    for i in 0..n
        invariant
            n == all.len(),
            entries == tuning.coupling_matrix@,
            all == old(config).fans@,
            *config == (Config { fans: config.fans, ..*old(config) }),
            fans@ == all.skip(i as int),
            kept@ == fans_with_data(all, entries, i as int),
            text::views(removed@) == names_without_data(all, entries, i as int),
    {
        assert(fans@[0] == all[i as int]);
        let fan = fans.remove(0);
        assert(fans@ =~= all.skip(i + 1));
        if is_measured(&tuning.coupling_matrix, fan.name.as_str()) {
            kept.push(fan);
        } else {
            let ghost was = removed@;
            removed.push(fan.name.clone());
            assert(text::views(removed@) =~= text::views(was).push(fan.name@));
        }
    }
    config.fans = kept;
    removed
}

// ---- What is chosen ----

/// The sensors that a fan cools are told by exactly those entries that name the fan
/// and whose coefficient is below the threshold with its sign flipped; they stand by
/// strength, and equally strong ones in the order of the entries.
pub proof fn law_coupled_entries(
    entries: Seq<CouplingEntry>,
    fan: Seq<char>,
    threshold: Scalar,
    strength: Scalar,
)
    ensures
        ({
            let told = entries.filter(
                |e: CouplingEntry| e.fan@ == fan && e.beta.below(threshold.negated()),
            ).map_values(|e: CouplingEntry| (e.sensor@, e.beta));
            let c = coupled(entries, fan, threshold, entries.len() as int);
            &&& c.to_multiset() == told.to_multiset()
            &&& c.len() == told.len()
            &&& forall|i: int, j: int|
                0 <= i < j < c.len() ==> !(#[trigger] c[i]).1.absolute().below(
                    (#[trigger] c[j]).1.absolute(),
                )
            &&& c.filter(|p: (Seq<char>, Scalar)| p.1.absolute() == strength) == told.filter(
                |p: (Seq<char>, Scalar)| p.1.absolute() == strength,
            )
        }),
{
    let n = entries.len() as int;
    let told = entries.filter(
        |e: CouplingEntry| e.fan@ == fan && e.beta.below(threshold.negated()),
    ).map_values(|e: CouplingEntry| (e.sensor@, e.beta));
    law_coupled(entries, fan, threshold, n);
    assert(entries.take(n) =~= entries);
    lemma_cooled(entries, fan, threshold, n);
    assert(cooled(entries, fan, threshold, n) == told);
    lemma_equally_strong(
        entries,
        fan,
        threshold,
        strength,
        |p: (Seq<char>, Scalar)| p.1.absolute() == strength,
        n,
    );
    coupled(entries, fan, threshold, n).to_multiset_ensures();
    told.to_multiset_ensures();
}

proof fn lemma_cooled(entries: Seq<CouplingEntry>, fan: Seq<char>, threshold: Scalar, n: int)
    requires
        0 <= n <= entries.len(),
    ensures
        cooled(entries, fan, threshold, n) == entries.take(n).filter(
            |e: CouplingEntry| e.fan@ == fan && e.beta.below(threshold.negated()),
        ).map_values(|e: CouplingEntry| (e.sensor@, e.beta)),
    decreases n,
{
    reveal(Seq::filter);
    let pred = |e: CouplingEntry| e.fan@ == fan && e.beta.below(threshold.negated());
    let pair = |e: CouplingEntry| (e.sensor@, e.beta);
    let s = entries.take(n);
    if n > 0 {
        let rest = entries.take(n - 1);
        lemma_cooled(entries, fan, threshold, n - 1);
        assert(s.drop_last() =~= rest);
        if pred(s.last()) {
            assert(rest.filter(pred).push(s.last()).map_values(pair) =~= rest.filter(
                pred,
            ).map_values(pair).push(pair(s.last())));
        }
    }
    assert(cooled(entries, fan, threshold, n) =~= s.filter(pred).map_values(pair));
}

proof fn lemma_equally_strong(
    entries: Seq<CouplingEntry>,
    fan: Seq<char>,
    threshold: Scalar,
    strength: Scalar,
    pred: spec_fn((Seq<char>, Scalar)) -> bool,
    n: int,
)
    requires
        forall|p: (Seq<char>, Scalar)| #[trigger] pred(p) == (p.1.absolute() == strength),
    ensures
        coupled(entries, fan, threshold, n).filter(pred) == cooled(
            entries,
            fan,
            threshold,
            n,
        ).filter(pred),
    decreases n,
{
    if n > 0 {
        lemma_equally_strong(entries, fan, threshold, strength, pred, n - 1);
        let e = entries[n - 1];
        if cools(e, fan, threshold) {
            let c = coupled(entries, fan, threshold, n - 1);
            let d = cooled(entries, fan, threshold, n - 1);
            let p = (e.sensor@, e.beta);
            lemma_put_is_behind(c, p, strength, pred);
            reveal(Seq::filter);
            assert(c.push(p).drop_last() =~= c);
            assert(d.push(p).drop_last() =~= d);
        }
    }
}

proof fn lemma_put_is_behind(
    s: Seq<(Seq<char>, Scalar)>,
    e: (Seq<char>, Scalar),
    strength: Scalar,
    pred: spec_fn((Seq<char>, Scalar)) -> bool,
)
    requires
        forall|p: (Seq<char>, Scalar)| #[trigger] pred(p) == (p.1.absolute() == strength),
    ensures
        put_by_strength(s, e).filter(pred) == s.push(e).filter(pred),
    decreases s.len(),
{
    if s.len() > 0 && s.last().1.absolute().below(e.1.absolute()) {
        let t = s.drop_last();
        let put = put_by_strength(t, e);
        lemma_put_is_behind(t, e, strength, pred);
        lemma_filter_push(put, s.last(), pred);
        lemma_filter_push(t, e, pred);
        lemma_filter_push(t, s.last(), pred);
        lemma_filter_push(s, e, pred);
        assert(t.push(s.last()) =~= s);
        assert(!(pred(s.last()) && pred(e)));
    }
}

proof fn lemma_filter_push<T>(s: Seq<T>, x: T, pred: spec_fn(T) -> bool)
    ensures
        s.push(x).filter(pred) == if pred(x) {
            s.filter(pred).push(x)
        } else {
            s.filter(pred)
        },
{
    reveal(Seq::filter);
    assert(s.push(x).drop_last() =~= s);
}

proof fn lemma_same_filter<T>(s: Seq<T>, p: spec_fn(T) -> bool, q: spec_fn(T) -> bool)
    requires
        forall|x: T| #[trigger] p(x) == q(x),
    ensures
        s.filter(p) == s.filter(q),
    decreases s.len(),
{
    reveal(Seq::filter);
    if s.len() > 0 {
        lemma_same_filter(s.drop_last(), p, q);
        assert(p(s.last()) == q(s.last()));
    }
}

/// The sensors that a fan cools drive it, the first being one that it cools most; its
/// own drive it exactly where it cools none. Its strength is how far the coefficient
/// of the first is from zero, which no other exceeds, and nought where there is none.
pub proof fn law_chosen_sensors(
    fan: FanConfig,
    entries: Seq<CouplingEntry>,
    threshold: Scalar,
    k: int,
)
    requires
        0 <= k < entries.len(),
    ensures
        ({
            let told = entries.filter(
                |e: CouplingEntry| e.fan@ == fan.name@ && e.beta.below(threshold.negated()),
            );
            let strength = strength_of(fan, entries, threshold);
            let sensors = chosen_sensors(fan, entries, threshold);
            &&& told.len() == 0 ==> {
                &&& sensors == text::views(fan.sensors@)
                &&& strength == Scalar { bits: 0 }
            }
            &&& told.len() > 0 ==> {
                &&& sensors.len() == told.len()
                &&& exists|i: int|
                    {
                        &&& 0 <= i < entries.len()
                        &&& (#[trigger] entries[i]).fan@ == fan.name@
                        &&& entries[i].beta.below(threshold.negated())
                        &&& entries[i].sensor@ == sensors[0]
                        &&& entries[i].beta.absolute() == strength
                    }
                &&& entries[k].fan@ == fan.name@ && entries[k].beta.below(threshold.negated()) ==> {
                    &&& sensors.contains(entries[k].sensor@)
                    &&& !strength.below(entries[k].beta.absolute())
                }
            }
        }),
{
    broadcast use vstd::seq_lib::group_to_multiset_ensures;

    let pred = |e: CouplingEntry| e.fan@ == fan.name@ && e.beta.below(threshold.negated());
    let pair = |e: CouplingEntry| (e.sensor@, e.beta);
    let told = entries.filter(pred);
    let c = coupled(entries, fan.name@, threshold, entries.len() as int);
    let name = fan.name@;
    law_coupled_entries(entries, name, threshold, Scalar { bits: 0 });
    lemma_same_filter(
        entries,
        pred,
        |e: CouplingEntry| e.fan@ == name && e.beta.below(threshold.negated()),
    );
    let d = told.map_values(pair);
    assert(c.len() == told.len());
    if told.len() > 0 {
        assert(c.to_multiset().count(c[0]) > 0);
        assert(d.contains(c[0]));
        let m = choose|m: int| 0 <= m < d.len() && d[m] == c[0];
        assert(pair(told[m]) == c[0]);
        entries.lemma_filter_contains_rev(pred, told[m]);
        let i = choose|i: int| 0 <= i < entries.len() && entries[i] == told[m];
        assert(entries[i].sensor@ == c[0].0);
        entries.lemma_filter_pred(pred, m);
        if pred(entries[k]) {
            entries.lemma_filter_contains(pred, k);
            let q = choose|q: int| 0 <= q < told.len() && told[q] == entries[k];
            assert(d[q] == pair(entries[k]));
            assert(d.to_multiset().count(d[q]) > 0);
            assert(c.contains(d[q]));
            let r = choose|r: int| 0 <= r < c.len() && c[r] == d[q];
            assert(chosen_sensors(fan, entries, threshold)[r] == entries[k].sensor@);
            if r == 0 {
                assert(!c[0].1.absolute().below(c[0].1.absolute()));
            }
        }
    }
}

// ---- What the curves are ----

/// The temperatures of a sensor's profile.
pub proof fn law_profiles(name: Seq<char>)
    ensures
        "cpu"@.is_prefix_of(name) ==> {
            let p = profile_of(name);
            &&& (p.fan_on, p.throttle) == (45u32, 95u32)
            &&& p.target == 78 <==> text::holds_part(name, "ccd"@)
            &&& p.target == 80 <==> !text::holds_part(name, "ccd"@)
        },
        "gpu"@.is_prefix_of(name) ==> {
            let p = profile_of(name);
            let (junction, mem) = (
                text::holds_part(name, "junction"@),
                text::holds_part(name, "mem"@),
            );
            &&& junction <==> (p.fan_on, p.target, p.throttle) == (50u32, 90u32, 110u32)
            &&& !junction && mem <==> (p.fan_on, p.target, p.throttle) == (50u32, 85u32, 100u32)
            &&& !junction && !mem <==> (p.fan_on, p.target, p.throttle) == (45u32, 80u32, 100u32)
        },
        !"cpu"@.is_prefix_of(name) && !"gpu"@.is_prefix_of(name) ==> {
            let p = profile_of(name);
            (p.fan_on, p.target, p.throttle) == (40u32, 70u32, 90u32)
        },
{
    reveal_strlit("cpu");
    reveal_strlit("gpu");
    if "cpu"@.is_prefix_of(name) && "gpu"@.is_prefix_of(name) {
        assert(name.subrange(0, 3)[0] == "cpu"@[0]);
        assert(name.subrange(0, 3)[0] == "gpu"@[0]);
    }
}

/// The inner points of a curve stand at 15, 35, 55, 75 and 90 hundredths of the way
/// from where the fan starts to where the part throttles, to the nearest degree, a
/// half up, and have the given values; the ends have the least value and full speed.
pub proof fn law_urgency_points(name: Seq<char>, least: u8, interior: Seq<u8>, i: int)
    requires
        interior.len() == 5,
        0 <= i < 7,
    ensures
        ({
            let p = profile_of(name);
            let point = urgency_curve(p, least, interior)[i];
            let percent = seq![0int, 15, 35, 55, 75, 90, 100][i];
            let way = percent * (p.throttle - p.fan_on);
            &&& -50 < 100 * (point.temp - p.fan_on) - way <= 50
            &&& point.pwm == if i == 0 {
                least
            } else if i == 6 {
                255
            } else {
                interior[i - 1]
            }
        }),
{
    let p = profile_of(name);
    let percent = seq![0int, 15, 35, 55, 75, 90, 100];
    let way = p.throttle - p.fan_on;
    assert(percent[0] == 0 && percent[1] == 15 && percent[2] == 35 && percent[3] == 55
        && percent[4] == 75 && percent[5] == 90 && percent[6] == 100);
    assert(0 * way == 0);
    if i == 1 {
    } else if i == 2 {
    } else if i == 3 {
    } else if i == 4 {
    } else if i == 5 {
    }
}

/// Fans that cool a CPU or GPU never run slower than thirty; all others may stop.
pub proof fn law_slowest(position: FanPosition)
    ensures
        slowest(position) == 30 <==> position == FanPosition::CpuCooler || position
            == FanPosition::GpuCooler,
        slowest(position) == 0 <==> position != FanPosition::CpuCooler && position
            != FanPosition::GpuCooler,
{
}

/// The two limits of effectiveness are the binary64 numbers nearest to 1 and to 0.3:
/// with exponent `e` and fraction `f`, a number is `(1 + f / 2^52) * 2^(e - 1023)`.
pub proof fn law_limits()
    ensures
        ONE as int / 0x10_0000_0000_0000 == 1023,
        ONE as int % 0x10_0000_0000_0000 == 0,
        THREE_TENTHS as int / 0x10_0000_0000_0000 == 1021,
        ({
            let f = THREE_TENTHS as int % 0x10_0000_0000_0000;
            -5 < 10 * (0x10_0000_0000_0000 + f) - 3 * 0x40_0000_0000_0000 < 5
        }),
{
}

/// Of the fans of a configuration those stay that some entry names, as they are and in
/// their order; the others go, and are named in their order.
pub proof fn law_fans_with_data(fans: Seq<FanConfig>, entries: Seq<CouplingEntry>)
    ensures
        fans_with_data(fans, entries, fans.len() as int) == fans.filter(
            |f: FanConfig|
                exists|i: int| 0 <= i < entries.len() && (#[trigger] entries[i]).fan@ == f.name@,
        ),
        names_without_data(fans, entries, fans.len() as int) == fans.filter(
            |f: FanConfig|
                forall|i: int| 0 <= i < entries.len() ==> (#[trigger] entries[i]).fan@ != f.name@,
        ).map_values(|f: FanConfig| f.name@),
{
    assert(fans.take(fans.len() as int) =~= fans);
    lemma_fans_with_data(fans, entries, fans.len() as int);
}

proof fn lemma_fans_with_data(fans: Seq<FanConfig>, entries: Seq<CouplingEntry>, n: int)
    requires
        0 <= n <= fans.len(),
    ensures
        fans_with_data(fans, entries, n) == fans.take(n).filter(
            |f: FanConfig|
                exists|i: int| 0 <= i < entries.len() && (#[trigger] entries[i]).fan@ == f.name@,
        ),
        names_without_data(fans, entries, n) == fans.take(n).filter(
            |f: FanConfig|
                forall|i: int| 0 <= i < entries.len() ==> (#[trigger] entries[i]).fan@ != f.name@,
        ).map_values(|f: FanConfig| f.name@),
    decreases n,
{
    reveal(Seq::filter);
    let with = |f: FanConfig|
        exists|i: int| 0 <= i < entries.len() && (#[trigger] entries[i]).fan@ == f.name@;
    let without = |f: FanConfig|
        forall|i: int| 0 <= i < entries.len() ==> (#[trigger] entries[i]).fan@ != f.name@;
    let name = |f: FanConfig| f.name@;
    let s = fans.take(n);
    if n > 0 {
        let rest = fans.take(n - 1);
        lemma_fans_with_data(fans, entries, n - 1);
        assert(s.drop_last() =~= rest);
        assert(s.last() == fans[n - 1]);
        assert(with(s.last()) == has_data(entries, fans[n - 1].name@));
        assert(without(s.last()) == !has_data(entries, fans[n - 1].name@));
        if without(s.last()) {
            assert(rest.filter(without).push(s.last()).map_values(name) =~= rest.filter(
                without,
            ).map_values(name).push(name(s.last())));
        }
    }
    assert(fans_with_data(fans, entries, n) =~= s.filter(with));
    assert(names_without_data(fans, entries, n) =~= s.filter(without).map_values(name));
}

} // verus!
