//! A first configuration for the hardware that was discovered: which sensors
//! drive which fan, and along which curve.
use crate::config::{AirflowDirection, Config, CurvePoint, DerivativeConfig, FanConfig};
use crate::config::{acceptable, rising, FanPosition, FanTopology, SensorConfig, TuningConfig};
use crate::detect::{chip_views, class_of, classify_chip, fan_views, sensor_views, ChipClass};
use crate::detect::{ChipView, DetectedFan, DetectedSensor, DetectionResult, FanView, HwmonChip};
use crate::detect::SensorView;
use crate::scalar::Scalar;
use crate::sysfs::{ordered, sort_paths, PathOrder};
use crate::text;
use vstd::prelude::*;

verus! {

/// The bit pattern of 2.0.
pub const TWO: u64 = 0x4000_0000_0000_0000;

/// The bit pattern of 0.5.
pub const HALF: u64 = 0x3fe0_0000_0000_0000;

// ---- Default curves ----

pub open spec fn cpu_curve() -> Seq<CurvePoint> {
    seq![
        CurvePoint { temp: 40, pwm: 0 },
        CurvePoint { temp: 50, pwm: 40 },
        CurvePoint { temp: 60, pwm: 80 },
        CurvePoint { temp: 70, pwm: 140 },
        CurvePoint { temp: 80, pwm: 200 },
        CurvePoint { temp: 90, pwm: 255 },
    ]
}

pub open spec fn gpu_curve() -> Seq<CurvePoint> {
    seq![
        CurvePoint { temp: 40, pwm: 0 },
        CurvePoint { temp: 55, pwm: 60 },
        CurvePoint { temp: 65, pwm: 120 },
        CurvePoint { temp: 75, pwm: 180 },
        CurvePoint { temp: 85, pwm: 230 },
        CurvePoint { temp: 95, pwm: 255 },
    ]
}

pub open spec fn case_curve() -> Seq<CurvePoint> {
    seq![
        CurvePoint { temp: 40, pwm: 0 },
        CurvePoint { temp: 50, pwm: 30 },
        CurvePoint { temp: 60, pwm: 60 },
        CurvePoint { temp: 70, pwm: 100 },
        CurvePoint { temp: 80, pwm: 160 },
        CurvePoint { temp: 90, pwm: 255 },
    ]
}

/// The default curve of fans that mostly cool the CPU.
pub fn default_cpu_curve() -> (r: Vec<CurvePoint>)
    ensures
        r@ == cpu_curve(),
{
    let r = vec![
        CurvePoint { temp: 40, pwm: 0 },
        CurvePoint { temp: 50, pwm: 40 },
        CurvePoint { temp: 60, pwm: 80 },
        CurvePoint { temp: 70, pwm: 140 },
        CurvePoint { temp: 80, pwm: 200 },
        CurvePoint { temp: 90, pwm: 255 },
    ];
    assert(r@ =~= cpu_curve());
    r
}

/// The default curve of fans that mostly cool a GPU.
pub fn default_gpu_curve() -> (r: Vec<CurvePoint>)
    ensures
        r@ == gpu_curve(),
{
    let r = vec![
        CurvePoint { temp: 40, pwm: 0 },
        CurvePoint { temp: 55, pwm: 60 },
        CurvePoint { temp: 65, pwm: 120 },
        CurvePoint { temp: 75, pwm: 180 },
        CurvePoint { temp: 85, pwm: 230 },
        CurvePoint { temp: 95, pwm: 255 },
    ];
    assert(r@ =~= gpu_curve());
    r
}

/// The default curve of the other fans.
pub fn default_case_curve() -> (r: Vec<CurvePoint>)
    ensures
        r@ == case_curve(),
{
    let r = vec![
        CurvePoint { temp: 40, pwm: 0 },
        CurvePoint { temp: 50, pwm: 30 },
        CurvePoint { temp: 60, pwm: 60 },
        CurvePoint { temp: 70, pwm: 100 },
        CurvePoint { temp: 80, pwm: 160 },
        CurvePoint { temp: 90, pwm: 255 },
    ];
    assert(r@ =~= case_curve());
    r
}

/// The default curves rise, and stay within the temperatures that a curve may
/// have.
pub proof fn law_default_curves_rise()
    ensures
        rising(cpu_curve()),
        rising(gpu_curve()),
        rising(case_curve()),
        cpu_curve().last() == (CurvePoint { temp: 90, pwm: 255 }),
        gpu_curve().last() == (CurvePoint { temp: 95, pwm: 255 }),
        case_curve().last() == (CurvePoint { temp: 90, pwm: 255 }),
{
}

// ---- Instances ----

/// The directories of the chips with the name among the first `n`, each once.
pub open spec fn chip_dirs(chips: Seq<ChipView>, name: Seq<char>, n: int) -> Seq<Seq<char>>
    decreases n,
{
    if n <= 0 {
        Seq::empty()
    } else {
        let rest = chip_dirs(chips, name, n - 1);
        if chips[n - 1].name == name && !rest.contains(chips[n - 1].path) {
            rest.push(chips[n - 1].path)
        } else {
            rest
        }
    }
}

/// Where `path` stands among `dirs` from the `i`-th on.
pub open spec fn place_from(dirs: Seq<Seq<char>>, path: Seq<char>, i: int) -> Option<int>
    decreases dirs.len() - i,
{
    if i >= dirs.len() {
        None
    } else if dirs[i] == path {
        Some(i)
    } else {
        place_from(dirs, path, i + 1)
    }
}

/// Which of the chips with the name is at `path`, in order of their numbers; none
/// where only one chip has the name.
pub open spec fn instance_of(
    chips: Seq<ChipView>,
    name: Seq<char>,
    path: Seq<char>,
) -> Option<u32> {
    let dirs = ordered(PathOrder::Number, chip_dirs(chips, name, chips.len() as int));
    if dirs.len() <= 1 {
        None
    } else {
        match place_from(dirs, path, 0) {
            Some(i) => Some((i % 0x1_0000_0000) as u32),
            None => None,
        }
    }
}

/// The number that tells the chip at `hwmon_path` from the others of its name;
/// none where its name is unique.
pub fn hwmon_instance_for(chips: &Vec<HwmonChip>, chip_name: &str, hwmon_path: &str) -> (r:
    Option<u32>)
    ensures
        r == instance_of(chip_views(chips@), chip_name@, hwmon_path@),
{
    let ghost all = chip_views(chips@);
    let mut dirs: Vec<String> = Vec::new();
    assert(text::views(dirs@) =~= chip_dirs(all, chip_name@, 0));
    for i in 0..chips.len()
        invariant
            all == chip_views(chips@),
            text::views(dirs@) == chip_dirs(all, chip_name@, i as int),
    {
        if text::same(chips[i].name.as_str(), chip_name) && !text::is_one_of(
            &dirs,
            chips[i].path.as_str(),
        ) {
            let ghost was = dirs@;
            dirs.push(chips[i].path.clone());
            assert(text::views(dirs@) =~= text::views(was).push(chips@[i as int].path@));
        }
    }
    let sorted = sort_paths(PathOrder::Number, &dirs);
    let n: usize = sorted.len();
    let ghost s = text::views(sorted@);
    assert(s.len() == n);
    if n <= 1 {
        return None;
    }
    for i in 0..n
        invariant
            n == sorted@.len(),
            s == text::views(sorted@),
            place_from(s, hwmon_path@, 0) == place_from(s, hwmon_path@, i as int),
            s == ordered(PathOrder::Number, chip_dirs(all, chip_name@, all.len() as int)),
            all == chip_views(chips@),
            n > 1,
    {
        if text::same(sorted[i].as_str(), hwmon_path) {
            return Some((i as u64 % 0x1_0000_0000) as u32);
        }
    }
    None
}

// ---- Sensors of a fan ----

/// The sensors among the first `n` whose chip is of the class, and has the name
/// where one is given.
pub open spec fn sensors_on(
    sensors: Seq<SensorView>,
    class: ChipClass,
    chip: Option<Seq<char>>,
    n: int,
) -> Seq<int>
    decreases n,
{
    if n <= 0 {
        Seq::empty()
    } else {
        let rest = sensors_on(sensors, class, chip, n - 1);
        let s = sensors[n - 1];
        if class_of(s.hwmon_chip) == class && (chip matches Some(c) ==> s.hwmon_chip == c) {
            rest.push(n - 1)
        } else {
            rest
        }
    }
}

/// The sensors that a fan responds to. A GPU's fan: the sensors of its chip, or
/// those of all GPUs where it has none. Any other: all CPU and GPU sensors, or
/// whatever there is where there are none.
pub open spec fn sensors_for(sensors: Seq<SensorView>, fan: FanView) -> Seq<int> {
    let n = sensors.len() as int;
    let gpu = sensors_on(sensors, ChipClass::GpuTemp, None, n);
    if class_of(fan.hwmon_chip) == ChipClass::GpuTemp {
        let same = sensors_on(sensors, ChipClass::GpuTemp, Some(fan.hwmon_chip), n);
        if same.len() == 0 {
            gpu
        } else {
            same
        }
    } else {
        let all = sensors_on(sensors, ChipClass::CpuTemp, None, n) + gpu;
        if all.len() == 0 {
            Seq::new(sensors.len(), |i: int| i)
        } else {
            all
        }
    }
}

pub open spec fn as_ints(v: Seq<usize>) -> Seq<int> {
    v.map_values(|i: usize| i as int)
}

fn find_sensors(
    sensors: &Vec<DetectedSensor>,
    class: ChipClass,
    chip: Option<&str>,
) -> (r: Vec<usize>)
    ensures
        as_ints(r@) == sensors_on(
            sensor_views(sensors@),
            class,
            match chip {
                Some(c) => Some(c@),
                None => None,
            },
            sensors@.len() as int,
        ),
{
    let ghost all = sensor_views(sensors@);
    let ghost wanted = match chip {
        Some(c) => Some(c@),
        None => None,
    };
    let mut r: Vec<usize> = Vec::new();
    assert(as_ints(r@) =~= sensors_on(all, class, wanted, 0));
    for i in 0..sensors.len()
        invariant
            all == sensor_views(sensors@),
            wanted == (match chip {
                Some(c) => Some(c@),
                None => None,
            }),
            as_ints(r@) == sensors_on(all, class, wanted, i as int),
    {
        let name = sensors[i].hwmon_chip.as_str();
        let fits = classify_chip(name) == class && match chip {
            Some(c) => text::same(name, c),
            None => true,
        };
        if fits {
            let ghost was = r@;
            r.push(i);
            assert(as_ints(r@) =~= as_ints(was).push(i as int));
        }
    }
    r
}

/// The sensors that the fan responds to, by their place.
pub fn map_fan_to_sensors(sensors: &Vec<DetectedSensor>, fan: &DetectedFan) -> (r: Vec<usize>)
    ensures
        as_ints(r@) == sensors_for(sensor_views(sensors@), fan@),
{
    let mut gpu = find_sensors(sensors, ChipClass::GpuTemp, None);
    if classify_chip(fan.hwmon_chip.as_str()) == ChipClass::GpuTemp {
        let same = find_sensors(sensors, ChipClass::GpuTemp, Some(fan.hwmon_chip.as_str()));
        assert(as_ints(same@).len() == same@.len());
        if same.len() == 0 {
            gpu
        } else {
            same
        }
    } else {
        let mut all = find_sensors(sensors, ChipClass::CpuTemp, None);
        let ghost cpu = all@;
        let ghost more = gpu@;
        all.append(&mut gpu);
        assert(as_ints(all@) =~= as_ints(cpu) + as_ints(more));
        assert(as_ints(all@).len() == all@.len());
        if all.len() == 0 {
            let mut whole: Vec<usize> = Vec::new();
            for i in 0..sensors.len()
                invariant
                    whole@.len() == i,
                    forall|k: int| 0 <= k < i ==> #[trigger] whole@[k] == k,
            {
                whole.push(i);
            }
            assert(as_ints(whole@) =~= Seq::new(sensors@.len(), |i: int| i));
            whole
        } else {
            all
        }
    }
}

proof fn lemma_sensors_on(
    sensors: Seq<SensorView>,
    class: ChipClass,
    chip: Option<Seq<char>>,
    n: int,
)
    requires
        n <= sensors.len(),
    ensures
        forall|k: int|
            0 <= k < sensors_on(sensors, class, chip, n).len() ==> 0 <= #[trigger] sensors_on(
                sensors,
                class,
                chip,
                n,
            )[k] < n,
    decreases n,
{
    if n > 0 {
        lemma_sensors_on(sensors, class, chip, n - 1);
        let rest = sensors_on(sensors, class, chip, n - 1);
        assert forall|k: int| 0 <= k < sensors_on(sensors, class, chip, n).len() implies 0
            <= #[trigger] sensors_on(sensors, class, chip, n)[k] < n by {
            if k < rest.len() {
                assert(0 <= rest[k] < n - 1);
            }
        }
    }
}

/// A fan only responds to sensors that there are.
pub proof fn law_sensors_for_exist(sensors: Seq<SensorView>, fan: FanView, k: int)
    requires
        0 <= k < sensors_for(sensors, fan).len(),
    ensures
        0 <= sensors_for(sensors, fan)[k] < sensors.len(),
{
    let n = sensors.len() as int;
    lemma_sensors_on(sensors, ChipClass::GpuTemp, None, n);
    lemma_sensors_on(sensors, ChipClass::CpuTemp, None, n);
    lemma_sensors_on(sensors, ChipClass::GpuTemp, Some(fan.hwmon_chip), n);
    let cpu = sensors_on(sensors, ChipClass::CpuTemp, None, n);
    let gpu = sensors_on(sensors, ChipClass::GpuTemp, None, n);
    if class_of(fan.hwmon_chip) != ChipClass::GpuTemp && (cpu + gpu).len() > 0 {
        if k < cpu.len() {
            assert((cpu + gpu)[k] == cpu[k]);
        } else {
            assert((cpu + gpu)[k] == gpu[k - cpu.len()]);
        }
    }
}

// ---- Topology and curve ----

/// Where a fan is taken to sit: on the GPU cooler where it hangs on a GPU, in
/// front as an intake else.
pub open spec fn inferred_position(fan: FanView) -> (FanPosition, AirflowDirection) {
    if class_of(fan.hwmon_chip) == ChipClass::GpuTemp {
        (FanPosition::GpuCooler, AirflowDirection::Exhaust)
    } else {
        (FanPosition::Front, AirflowDirection::Intake)
    }
}

/// Infer fan topology from the chip class. Users are expected to correct it in
/// the generated configuration.
pub fn infer_topology(fan: &DetectedFan) -> (r: FanTopology)
    ensures
        (r.position, r.direction) == inferred_position(fan@),
        r.group is None,
{
    match classify_chip(fan.hwmon_chip.as_str()) {
        ChipClass::GpuTemp => FanTopology {
            position: FanPosition::GpuCooler,
            direction: AirflowDirection::Exhaust,
            group: None,
        },
        _ => FanTopology {
            position: FanPosition::Front,
            direction: AirflowDirection::Intake,
            group: None,
        },
    }
}

/// The default curve of a fan that responds to the sensors `at`: that of GPUs
/// where the fan hangs on one or all of the sensors do, that of the CPU where any
/// of them does, that of the case else.
pub open spec fn chosen_curve(
    fan: FanView,
    sensors: Seq<SensorView>,
    at: Seq<int>,
) -> Seq<CurvePoint> {
    if class_of(fan.hwmon_chip) == ChipClass::GpuTemp {
        gpu_curve()
    } else if forall|k: int|
        0 <= k < at.len() ==> class_of(sensors[#[trigger] at[k]].hwmon_chip)
            == ChipClass::GpuTemp {
        gpu_curve()
    } else if exists|k: int|
        0 <= k < at.len() && class_of(sensors[#[trigger] at[k]].hwmon_chip)
            == ChipClass::CpuTemp {
        cpu_curve()
    } else {
        case_curve()
    }
}

/// Select the default curve of a fan that responds to the sensors `at`.
pub fn select_curve(fan: &DetectedFan, sensors: &Vec<DetectedSensor>, at: &Vec<usize>) -> (r: Vec<
    CurvePoint,
>)
    requires
        forall|k: int| 0 <= k < at@.len() ==> #[trigger] at@[k] < sensors@.len(),
    ensures
        r@ == chosen_curve(fan@, sensor_views(sensors@), as_ints(at@)),
{
    if classify_chip(fan.hwmon_chip.as_str()) == ChipClass::GpuTemp {
        return default_gpu_curve();
    }
    let ghost all = sensor_views(sensors@);
    let ghost places = as_ints(at@);
    let mut only_gpu = true;
    let mut any_cpu = false;
    for k in 0..at.len()
        invariant
            all == sensor_views(sensors@),
            places == as_ints(at@),
            forall|k: int| 0 <= k < at@.len() ==> #[trigger] at@[k] < sensors@.len(),
            only_gpu == (forall|i: int|
                0 <= i < k ==> class_of(all[#[trigger] places[i]].hwmon_chip)
                    == ChipClass::GpuTemp),
            any_cpu == (exists|i: int|
                0 <= i < k && class_of(all[#[trigger] places[i]].hwmon_chip)
                    == ChipClass::CpuTemp),
    {
        let i: usize = at[k];
        let class = classify_chip(sensors[i].hwmon_chip.as_str());
        assert(places[k as int] == i);
        assert(all[places[k as int]].hwmon_chip == sensors@[i as int].hwmon_chip@);
        let ghost had = any_cpu;
        if class != ChipClass::GpuTemp {
            only_gpu = false;
        }
        if class == ChipClass::CpuTemp {
            any_cpu = true;
        }
        proof {
            if had {
                let w = choose|w: int|
                    0 <= w < k && class_of(all[#[trigger] places[w]].hwmon_chip)
                        == ChipClass::CpuTemp;
                assert(class_of(all[places[w]].hwmon_chip) == ChipClass::CpuTemp);
            }
        }
    }
    if only_gpu {
        default_gpu_curve()
    } else if any_cpu {
        default_cpu_curve()
    } else {
        default_case_curve()
    }
}

// ---- The configuration ----

/// Whether `c` is the configuration of the discovered sensor.
pub open spec fn is_built_sensor(
    c: SensorConfig,
    chips: Seq<ChipView>,
    s: SensorView,
) -> bool {
    &&& c.name@ == s.auto_name
    &&& c.hwmon@ == s.hwmon_chip
    &&& c.index == s.index
    &&& c.hwmon_instance == instance_of(chips, s.hwmon_chip, s.hwmon_path)
}

/// The names of the sensors `at`.
pub open spec fn names_at(sensors: Seq<SensorView>, at: Seq<int>) -> Seq<Seq<char>> {
    at.map_values(|i: int| sensors[i].auto_name)
}

/// Whether `c` is the configuration of the discovered fan.
pub open spec fn is_built_fan(
    c: FanConfig,
    chips: Seq<ChipView>,
    sensors: Seq<SensorView>,
    f: FanView,
) -> bool {
    let at = sensors_for(sensors, f);
    &&& c.name@ == f.auto_name
    &&& c.hwmon@ == f.hwmon_chip
    &&& c.pwm_index == f.pwm_index
    &&& c.hwmon_instance == instance_of(chips, f.hwmon_chip, f.hwmon_path)
    &&& (c.topology.position, c.topology.direction) == inferred_position(f)
    &&& c.topology.group is None
    &&& text::views(c.sensors@) == names_at(sensors, at)
    &&& c.curve@ == chosen_curve(f, sensors, at)
}

/// Whether the general settings are the defaults.
pub open spec fn has_default_settings(c: Config) -> bool {
    &&& c.poll_interval_ms == 2000
    &&& c.derivative == (DerivativeConfig {
        window_size: 10,
        boost_threshold: Scalar { bits: TWO },
        decay_rate: Scalar { bits: HALF },
    })
    &&& c.tuning == (TuningConfig {
        ewma_span: 20,
        ccf_buffer_size: 120,
        ccf_max_lag: 30,
        step_threshold: 15,
        response_window: 60,
        regression_min_samples: 60,
    })
}

/// A configuration with the default settings.
pub fn with_default_settings(sensors: Vec<SensorConfig>, fans: Vec<FanConfig>) -> (r: Config)
    ensures
        has_default_settings(r),
        r.sensors == sensors,
        r.fans == fans,
{
    Config {
        poll_interval_ms: 2000,
        derivative: DerivativeConfig {
            window_size: 10,
            boost_threshold: Scalar { bits: TWO },
            decay_rate: Scalar { bits: HALF },
        },
        sensors,
        fans,
        tuning: TuningConfig::default(),
    }
}

/// Whether `c` is the configuration of everything that was discovered.
pub open spec fn is_built_config(
    c: Config,
    chips: Seq<ChipView>,
    sensors: Seq<SensorView>,
    fans: Seq<FanView>,
) -> bool {
    &&& has_default_settings(c)
    &&& c.sensors@.len() == sensors.len()
    &&& forall|i: int|
        0 <= i < sensors.len() ==> is_built_sensor(#[trigger] c.sensors@[i], chips, sensors[i])
    &&& c.fans@.len() == fans.len()
    &&& forall|i: int|
        0 <= i < fans.len() ==> is_built_fan(#[trigger] c.fans@[i], chips, sensors, fans[i])
}

fn build_fan(result: &DetectionResult, fan: &DetectedFan) -> (r: FanConfig)
    ensures
        is_built_fan(r, chip_views(result.chips@), sensor_views(result.sensors@), fan@),
{
    let ghost all = sensor_views(result.sensors@);
    let at = map_fan_to_sensors(&result.sensors, fan);
    let ghost places = as_ints(at@);
    assert forall|k: int| 0 <= k < at@.len() implies #[trigger] at@[k] < result.sensors@.len() by {
        law_sensors_for_exist(all, fan@, k);
        assert(places[k] == at@[k]);
    }
    let mut names: Vec<String> = Vec::new();
    for k in 0..at.len()
        invariant
            all == sensor_views(result.sensors@),
            places == as_ints(at@),
            names@.len() == k,
            forall|i: int| 0 <= i < at@.len() ==> #[trigger] at@[i] < result.sensors@.len(),
            forall|i: int| 0 <= i < k ==> (#[trigger] names@[i])@ == all[places[i]].auto_name,
    {
        names.push(result.sensors[at[k]].auto_name.clone());
        assert(places[k as int] == at@[k as int]);
    }
    assert(text::views(names@) =~= names_at(all, places));
    FanConfig {
        name: fan.auto_name.clone(),
        hwmon: fan.hwmon_chip.clone(),
        pwm_index: fan.pwm_index,
        hwmon_instance: hwmon_instance_for(
            &result.chips,
            fan.hwmon_chip.as_str(),
            fan.hwmon_path.as_str(),
        ),
        topology: infer_topology(fan),
        sensors: names,
        curve: select_curve(fan, &result.sensors, &at),
    }
}

/// Build a complete configuration from what was discovered.
pub fn build_config(result: &DetectionResult) -> (r: Config)
    ensures
        is_built_config(
            r,
            chip_views(result.chips@),
            sensor_views(result.sensors@),
            fan_views(result.fans@),
        ),
{
    let mut sensors: Vec<SensorConfig> = Vec::new();
    for i in 0..result.sensors.len()
        invariant
            sensors@.len() == i,
            forall|k: int|
                0 <= k < i ==> is_built_sensor(
                    #[trigger] sensors@[k],
                    chip_views(result.chips@),
                    sensor_views(result.sensors@)[k],
                ),
    {
        let s = &result.sensors[i];
        sensors.push(
            SensorConfig {
                name: s.auto_name.clone(),
                hwmon: s.hwmon_chip.clone(),
                index: s.index,
                hwmon_instance: hwmon_instance_for(
                    &result.chips,
                    s.hwmon_chip.as_str(),
                    s.hwmon_path.as_str(),
                ),
            },
        );
    }
    let mut fans: Vec<FanConfig> = Vec::new();
    for i in 0..result.fans.len()
        invariant
            fans@.len() == i,
            forall|k: int|
                0 <= k < i ==> is_built_fan(
                    #[trigger] fans@[k],
                    chip_views(result.chips@),
                    sensor_views(result.sensors@),
                    fan_views(result.fans@)[k],
                ),
    {
        fans.push(build_fan(result, &result.fans[i]));
    }
    with_default_settings(sensors, fans)
}

/// The configuration of discovered hardware is acceptable, provided that names
/// tell the sensors and the fans apart, that no fan occurs twice, that none of
/// the names is blank, and that a GPU that has a fan has sensors too.
pub proof fn law_built_config_is_acceptable(
    c: Config,
    chips: Seq<ChipView>,
    sensors: Seq<SensorView>,
    fans: Seq<FanView>,
)
    requires
        is_built_config(c, chips, sensors, fans),
        sensors.len() > 0,
        fans.len() > 0,
        forall|i: int|
            0 <= i < sensors.len() ==> !text::blank((#[trigger] sensors[i]).auto_name)
                && !text::blank(sensors[i].hwmon_chip) && sensors[i].index > 0,
        forall|i: int, j: int|
            0 <= i < j < sensors.len() ==> (#[trigger] sensors[i]).auto_name != (
            #[trigger] sensors[j]).auto_name,
        forall|i: int|
            0 <= i < fans.len() ==> !text::blank((#[trigger] fans[i]).auto_name) && !text::blank(
                fans[i].hwmon_chip,
            ) && fans[i].pwm_index > 0 && sensors_for(sensors, fans[i]).len() > 0,
        forall|i: int, j: int|
            0 <= i < j < fans.len() ==> (#[trigger] fans[i]).auto_name != (
            #[trigger] fans[j]).auto_name && !(fans[i].hwmon_chip == fans[j].hwmon_chip
                && fans[i].pwm_index == fans[j].pwm_index && instance_of(
                chips,
                fans[i].hwmon_chip,
                fans[i].hwmon_path,
            ) == instance_of(chips, fans[j].hwmon_chip, fans[j].hwmon_path)),
    ensures
        acceptable(c),
{
    assert forall|i: int| 0 <= i < c.sensors@.len() implies
        #[trigger] crate::config::acceptable_sensor(c.sensors@[i]) by {
        assert(is_built_sensor(c.sensors@[i], chips, sensors[i]));
    }
    assert forall|i: int, j: int| 0 <= i < j < c.sensors@.len() implies (
    #[trigger] c.sensors@[i]).name@ != (#[trigger] c.sensors@[j]).name@ by {
        assert(is_built_sensor(c.sensors@[i], chips, sensors[i]));
        assert(is_built_sensor(c.sensors@[j], chips, sensors[j]));
        assert(sensors[i].auto_name != sensors[j].auto_name);
    }
    assert forall|i: int| 0 <= i < c.fans@.len() implies #[trigger] crate::config::acceptable_fan(
        c.fans@[i],
        c.sensors@,
    ) by {
        let f = fans[i];
        let at = sensors_for(sensors, f);
        let d = c.fans@[i];
        assert(is_built_fan(d, chips, sensors, f));
        law_default_curves_rise();
        assert(text::views(d.sensors@).len() == at.len());
        assert forall|k: int| 0 <= k < d.sensors@.len() implies crate::config::sensor_named(
            c.sensors@,
            c.sensors@.len() as int,
            (#[trigger] d.sensors@[k])@,
        ) by {
            law_sensors_for_exist(sensors, f, k);
            assert(text::views(d.sensors@)[k] == d.sensors@[k]@);
            assert(names_at(sensors, at)[k] == sensors[at[k]].auto_name);
            assert(is_built_sensor(c.sensors@[at[k]], chips, sensors[at[k]]));
        }
    }
    assert forall|i: int, j: int| 0 <= i < j < c.fans@.len() implies (
    #[trigger] c.fans@[i]).name@ != (#[trigger] c.fans@[j]).name@ && !crate::config::same_channel(
        c.fans@[i],
        c.fans@[j],
    ) by {
        assert(is_built_fan(c.fans@[i], chips, sensors, fans[i]));
        assert(is_built_fan(c.fans@[j], chips, sensors, fans[j]));
        assert(fans[i].auto_name != fans[j].auto_name);
    }
}

// ---- The summary ----

/// What a chip is for, in a word.
pub open spec fn class_word(class: ChipClass) -> Seq<char> {
    match class {
        ChipClass::CpuTemp => "CPU"@,
        ChipClass::GpuTemp => "GPU"@,
        ChipClass::MotherboardEc => "EC"@,
        ChipClass::Other => "other"@,
    }
}

/// The chips with what they are for.
pub open spec fn chip_words(chips: Seq<ChipView>) -> Seq<Seq<char>> {
    chips.map_values(|c: ChipView| c.name + " ("@ + class_word(c.class) + ")"@)
}

/// The line that tells of a sensor; `temp` is its temperature in words.
pub open spec fn sensor_line(s: SensorView, temp: Seq<char>) -> Seq<char> {
    "    "@ + text::padded_right(s.auto_name, 16) + " "@ + text::padded_right(s.hwmon_chip, 12)
        + " temp"@ + text::decimal(s.index as nat) + "  "@ + text::padded_right(
        match s.label {
            Some(l) => l,
            None => "-"@,
        },
        12,
    ) + " "@ + text::padded_left(temp, 5) + " C"@
}

/// How fast a fan turns, in words.
pub open spec fn rpm_words(rpm: Option<u32>) -> Seq<char> {
    match rpm {
        Some(r) => if r == 0 {
            "0 RPM (stopped?)"@
        } else {
            text::decimal(r as nat) + " RPM"@
        },
        None => "no RPM sensor"@,
    }
}

/// The line that tells of a fan.
pub open spec fn fan_line(f: FanView) -> Seq<char> {
    "    "@ + text::padded_right(f.auto_name, 16) + " "@ + text::padded_right(f.hwmon_chip, 12)
        + " pwm"@ + text::decimal(f.pwm_index as nat) + "   "@ + rpm_words(f.current_rpm)
}

/// The lines that tell of what was discovered; `temps` are the temperatures of
/// the sensors in words.
pub open spec fn summary(
    chips: Seq<ChipView>,
    sensors: Seq<SensorView>,
    fans: Seq<FanView>,
    temps: Seq<Seq<char>>,
) -> Seq<Seq<char>> {
    let chip_lines = if chips.len() == 0 {
        Seq::empty()
    } else {
        seq!["  Chips: "@ + text::joined(chip_words(chips), ", "@)]
    };
    let sensor_lines = if sensors.len() == 0 {
        seq!["  Sensors: none found"@]
    } else {
        seq!["  Sensors:"@] + Seq::new(
            sensors.len(),
            |i: int| sensor_line(sensors[i], temps[i]),
        )
    };
    let fan_lines = if fans.len() == 0 {
        seq!["  Fans: none found"@]
    } else {
        seq!["  Fans:"@] + Seq::new(fans.len(), |i: int| fan_line(fans[i]))
    };
    seq!["Detected hardware:"@] + chip_lines + sensor_lines + fan_lines + seq![""@]
}

fn tell_sensor(s: &DetectedSensor, temp: &str) -> (r: String)
    ensures
        r@ == sensor_line(s@, temp@),
{
    let label = match &s.label {
        Some(l) => l.as_str(),
        None => "-",
    };
    text::around("    ", text::pad_right(s.auto_name.as_str(), 16).as_str(), " ").concat(
        text::pad_right(s.hwmon_chip.as_str(), 12).as_str(),
    ).concat(" temp").concat(text::decimal_of(s.index as u64).as_str()).concat("  ").concat(
        text::pad_right(label, 12).as_str(),
    ).concat(" ").concat(text::pad_left(temp, 5).as_str()).concat(" C")
}

fn tell_fan(f: &DetectedFan) -> (r: String)
    ensures
        r@ == fan_line(f@),
{
    let rpm = match f.current_rpm {
        Some(n) => if n == 0 {
            "0 RPM (stopped?)".to_owned()
        } else {
            text::decimal_of(n as u64).concat(" RPM")
        },
        None => "no RPM sensor".to_owned(),
    };
    text::around("    ", text::pad_right(f.auto_name.as_str(), 16).as_str(), " ").concat(
        text::pad_right(f.hwmon_chip.as_str(), 12).as_str(),
    ).concat(" pwm").concat(text::decimal_of(f.pwm_index as u64).as_str()).concat("   ").concat(
        rpm.as_str(),
    )
}

fn tell_chips(chips: &Vec<HwmonChip>) -> (r: String)
    ensures
        r@ == "  Chips: "@ + text::joined(chip_words(chip_views(chips@)), ", "@),
{
    let mut words: Vec<String> = Vec::new();
    let ghost all = chip_words(chip_views(chips@));
    for i in 0..chips.len()
        invariant
            all == chip_words(chip_views(chips@)),
            words@.len() == i,
            forall|k: int| 0 <= k < i ==> (#[trigger] words@[k])@ == all[k],
    {
        let word = match chips[i].class {
            ChipClass::CpuTemp => "CPU",
            ChipClass::GpuTemp => "GPU",
            ChipClass::MotherboardEc => "EC",
            ChipClass::Other => "other",
        };
        words.push(text::around(chips[i].name.as_str(), " (", word).concat(")"));
    }
    assert(text::views(words@) =~= all);
    "  Chips: ".to_owned().concat(text::join(&words, ", ").as_str())
}

/// The lines that tell of what was discovered; `temps` are the temperatures of
/// the sensors in words.
pub fn print_summary(result: &DetectionResult, temps: &Vec<String>) -> (r: Vec<String>)
    requires
        temps@.len() == result.sensors@.len(),
    ensures
        text::views(r@) == summary(
            chip_views(result.chips@),
            sensor_views(result.sensors@),
            fan_views(result.fans@),
            text::views(temps@),
        ),
{
    let ghost sensors = sensor_views(result.sensors@);
    let ghost fans = fan_views(result.fans@);
    let ghost words = text::views(temps@);
    let mut lines: Vec<String> = Vec::new();
    lines.push("Detected hardware:".to_owned());
    assert(text::views(lines@) =~= seq!["Detected hardware:"@]);
    if result.chips.len() > 0 {
        lines.push(tell_chips(&result.chips));
    }
    let ghost first = text::views(lines@);
    if result.sensors.len() == 0 {
        lines.push("  Sensors: none found".to_owned());
        assert(text::views(lines@) =~= first + seq!["  Sensors: none found"@]);
    } else {
        lines.push("  Sensors:".to_owned());
        let ghost all = Seq::new(sensors.len(), |i: int| sensor_line(sensors[i], words[i]));
        assert(text::views(lines@) =~= first + seq!["  Sensors:"@] + all.take(0));
        for i in 0..result.sensors.len()
            invariant
                temps@.len() == result.sensors@.len(),
                sensors == sensor_views(result.sensors@),
                words == text::views(temps@),
                all == Seq::new(sensors.len(), |i: int| sensor_line(sensors[i], words[i])),
                text::views(lines@) == first + seq!["  Sensors:"@] + all.take(i as int),
        {
            let ghost was = text::views(lines@);
            lines.push(tell_sensor(&result.sensors[i], temps[i].as_str()));
            assert(text::views(lines@) =~= was.push(all[i as int]));
            assert(text::views(lines@) =~= first + seq!["  Sensors:"@] + all.take(i + 1));
        }
        assert(all.take(all.len() as int) =~= all);
        assert(text::views(lines@) =~= first + (seq!["  Sensors:"@] + all));
    }
    let ghost second = text::views(lines@);
    if result.fans.len() == 0 {
        lines.push("  Fans: none found".to_owned());
        assert(text::views(lines@) =~= second + seq!["  Fans: none found"@]);
    } else {
        lines.push("  Fans:".to_owned());
        let ghost all = Seq::new(fans.len(), |i: int| fan_line(fans[i]));
        assert(text::views(lines@) =~= second + seq!["  Fans:"@] + all.take(0));
        for i in 0..result.fans.len()
            invariant
                fans == fan_views(result.fans@),
                all == Seq::new(fans.len(), |i: int| fan_line(fans[i])),
                text::views(lines@) == second + seq!["  Fans:"@] + all.take(i as int),
        {
            let ghost was = text::views(lines@);
            lines.push(tell_fan(&result.fans[i]));
            assert(text::views(lines@) =~= was.push(all[i as int]));
            assert(text::views(lines@) =~= second + seq!["  Fans:"@] + all.take(i + 1));
        }
        assert(all.take(all.len() as int) =~= all);
        assert(text::views(lines@) =~= second + (seq!["  Fans:"@] + all));
    }
    let ghost third = text::views(lines@);
    lines.push("".to_owned());
    assert(text::views(lines@) =~= third + seq![""@]);
    proof {
        let chips = chip_views(result.chips@);
        let chip_lines = if chips.len() == 0 {
            Seq::empty()
        } else {
            seq!["  Chips: "@ + text::joined(chip_words(chips), ", "@)]
        };
        assert(first =~= seq!["Detected hardware:"@] + chip_lines);
    }
    lines
}

// ---- Laws of the first configuration ----

proof fn lemma_sensors_on_filter(
    sensors: Seq<SensorView>,
    class: ChipClass,
    chip: Option<Seq<char>>,
    n: int,
)
    requires
        0 <= n <= sensors.len(),
    ensures
        sensors_on(sensors, class, chip, n).map_values(|i: int| sensors[i].auto_name)
            == sensors.take(n).filter(
            |s: SensorView|
                class_of(s.hwmon_chip) == class && (chip matches Some(c) ==> s.hwmon_chip == c),
        ).map_values(|s: SensorView| s.auto_name),
    decreases n,
{
    reveal(Seq::filter);
    let pred = |s: SensorView|
        class_of(s.hwmon_chip) == class && (chip matches Some(c) ==> s.hwmon_chip == c);
    let name = |s: SensorView| s.auto_name;
    if n > 0 {
        lemma_sensors_on_filter(sensors, class, chip, n - 1);
        let last = sensors[n - 1];
        let place = |i: int| sensors[i].auto_name;
        assert(sensors.take(n).drop_last() =~= sensors.take(n - 1));
        assert(sensors.take(n).last() == last);
        let rest = sensors_on(sensors, class, chip, n - 1);
        let kept = sensors.take(n - 1).filter(pred);
        if pred(last) {
            assert(rest.push(n - 1).map_values(place) =~= rest.map_values(place).push(
                last.auto_name,
            ));
            assert(kept.push(last).map_values(name) =~= kept.map_values(name).push(last.auto_name));
        }
    }
    assert(sensors_on(sensors, class, chip, n).map_values(|i: int| sensors[i].auto_name)
        =~= sensors.take(n).filter(pred).map_values(name));
}

proof fn lemma_same_filter(
    s: Seq<SensorView>,
    p: spec_fn(SensorView) -> bool,
    q: spec_fn(SensorView) -> bool,
)
    requires
        forall|x: SensorView| #[trigger] p(x) == q(x),
    ensures
        s.filter(p) == s.filter(q),
    decreases s.len(),
{
    reveal(Seq::filter);
    if s.len() > 0 {
        lemma_same_filter(s.drop_last(), p, q);
    }
}

/// Which sensors drive which fan in the first configuration. A GPU's fan is driven by
/// the sensors of its own chip, all of them, in their order, or by those of all GPUs
/// where its chip has none; never by a sensor of another kind. Any other fan is
/// driven by all CPU sensors and, behind them, all GPU sensors, or by all sensors
/// where there are neither.
pub proof fn law_who_drives_a_fan(
    c: Config,
    chips: Seq<ChipView>,
    sensors: Seq<SensorView>,
    fans: Seq<FanView>,
    i: int,
)
    requires
        is_built_config(c, chips, sensors, fans),
        0 <= i < fans.len(),
    ensures
        ({
            let linked = c.fans@[i].sensors@.map_values(|s: String| s@);
            let own = sensors.filter(|s: SensorView| s.hwmon_chip == fans[i].hwmon_chip);
            let cpu = sensors.filter(
                |s: SensorView| class_of(s.hwmon_chip) == ChipClass::CpuTemp,
            ).map_values(|s: SensorView| s.auto_name);
            let gpu = sensors.filter(
                |s: SensorView| class_of(s.hwmon_chip) == ChipClass::GpuTemp,
            ).map_values(|s: SensorView| s.auto_name);
            if class_of(fans[i].hwmon_chip) == ChipClass::GpuTemp {
                linked == if own.len() > 0 {
                    own.map_values(|s: SensorView| s.auto_name)
                } else {
                    gpu
                }
            } else {
                linked == if (cpu + gpu).len() > 0 {
                    cpu + gpu
                } else {
                    sensors.map_values(|s: SensorView| s.auto_name)
                }
            }
        }),
{
    let f = fans[i];
    let n = sensors.len() as int;
    let at = sensors_for(sensors, f);
    assert(is_built_fan(c.fans@[i], chips, sensors, f));
    let linked = c.fans@[i].sensors@.map_values(|s: String| s@);
    assert(linked =~= names_at(sensors, at));
    assert(sensors.take(n) =~= sensors);
    lemma_sensors_on_filter(sensors, ChipClass::CpuTemp, None, n);
    lemma_sensors_on_filter(sensors, ChipClass::GpuTemp, None, n);
    lemma_sensors_on_filter(sensors, ChipClass::GpuTemp, Some(f.hwmon_chip), n);
    let none: Option<Seq<char>> = None;
    let one: Option<Seq<char>> = Some(f.hwmon_chip);
    let is_cpu = |s: SensorView| class_of(s.hwmon_chip) == ChipClass::CpuTemp;
    let is_gpu = |s: SensorView| class_of(s.hwmon_chip) == ChipClass::GpuTemp;
    let is_own = |s: SensorView| s.hwmon_chip == fans[i].hwmon_chip;
    let name = |s: SensorView| s.auto_name;
    lemma_same_filter(
        sensors,
        |s: SensorView|
            class_of(s.hwmon_chip) == ChipClass::CpuTemp && (none matches Some(c) ==> s.hwmon_chip
                == c),
        is_cpu,
    );
    lemma_same_filter(
        sensors,
        |s: SensorView|
            class_of(s.hwmon_chip) == ChipClass::GpuTemp && (none matches Some(c) ==> s.hwmon_chip
                == c),
        is_gpu,
    );
    let cpu_at = sensors_on(sensors, ChipClass::CpuTemp, None, n);
    let gpu_at = sensors_on(sensors, ChipClass::GpuTemp, None, n);
    let own_at = sensors_on(sensors, ChipClass::GpuTemp, Some(f.hwmon_chip), n);
    let place = |i: int| sensors[i].auto_name;
    assert(cpu_at.map_values(place).len() == cpu_at.len());
    assert(gpu_at.map_values(place).len() == gpu_at.len());
    if class_of(f.hwmon_chip) == ChipClass::GpuTemp {
        lemma_same_filter(
            sensors,
            |s: SensorView|
                class_of(s.hwmon_chip) == ChipClass::GpuTemp && (one matches Some(c)
                    ==> s.hwmon_chip == c),
            is_own,
        );
        assert(own_at.map_values(place).len() == own_at.len());
        assert(sensors.filter(is_own).map_values(name).len() == sensors.filter(is_own).len());
        assert(names_at(sensors, own_at) =~= own_at.map_values(place));
        assert(names_at(sensors, gpu_at) =~= gpu_at.map_values(place));
    } else {
        assert(names_at(sensors, cpu_at + gpu_at) =~= cpu_at.map_values(place)
            + gpu_at.map_values(place));
        let whole = Seq::new(sensors.len(), |i: int| i);
        assert(names_at(sensors, whole) =~= sensors.map_values(name));
    }
}

/// How a fan is set up in the first configuration: under its own name, at its own
/// channel; on a GPU cooler and along the curve for GPUs where it hangs on a GPU; in
/// front as an intake elsewhere, along the curve for GPUs where no sensor that drives
/// it is of another kind, else along the one for the CPU where a CPU sensor drives
/// it, else along the one for the case.
pub proof fn law_how_a_fan_is_set_up(
    c: Config,
    chips: Seq<ChipView>,
    sensors: Seq<SensorView>,
    fans: Seq<FanView>,
    i: int,
)
    requires
        is_built_config(c, chips, sensors, fans),
        0 <= i < fans.len(),
    ensures
        ({
            let f = c.fans@[i];
            let cpus = sensors.filter(
                |s: SensorView| class_of(s.hwmon_chip) == ChipClass::CpuTemp,
            ).len();
            let gpus = sensors.filter(
                |s: SensorView| class_of(s.hwmon_chip) == ChipClass::GpuTemp,
            ).len();
            &&& c.fans@.len() == fans.len()
            &&& f.name@ == fans[i].auto_name
            &&& f.hwmon@ == fans[i].hwmon_chip
            &&& f.pwm_index == fans[i].pwm_index
            &&& f.hwmon_instance == instance_of(chips, fans[i].hwmon_chip, fans[i].hwmon_path)
            &&& f.topology.group is None
            &&& if class_of(fans[i].hwmon_chip) == ChipClass::GpuTemp {
                &&& f.topology.position == FanPosition::GpuCooler
                &&& f.topology.direction == AirflowDirection::Exhaust
                &&& f.curve@ == gpu_curve()
            } else {
                &&& f.topology.position == FanPosition::Front
                &&& f.topology.direction == AirflowDirection::Intake
                &&& f.curve@ == if cpus > 0 {
                    cpu_curve()
                } else if gpus > 0 || sensors.len() == 0 {
                    gpu_curve()
                } else {
                    case_curve()
                }
            }
        }),
{
    let f = fans[i];
    let n = sensors.len() as int;
    assert(is_built_fan(c.fans@[i], chips, sensors, f));
    let cpu_at = sensors_on(sensors, ChipClass::CpuTemp, None, n);
    let gpu_at = sensors_on(sensors, ChipClass::GpuTemp, None, n);
    lemma_counted(sensors, ChipClass::CpuTemp, n);
    lemma_counted(sensors, ChipClass::GpuTemp, n);
    assert(sensors.take(n) =~= sensors);
    lemma_classes_on(sensors, ChipClass::CpuTemp, None, n);
    lemma_classes_on(sensors, ChipClass::GpuTemp, None, n);
    if class_of(f.hwmon_chip) != ChipClass::GpuTemp {
        let at = sensors_for(sensors, f);
        if cpu_at.len() > 0 {
            assert(at[0] == cpu_at[0]);
            assert(class_of(sensors[at[0]].hwmon_chip) == ChipClass::CpuTemp);
        } else if gpu_at.len() > 0 {
            assert(at =~= gpu_at);
            assert forall|k: int| 0 <= k < at.len() implies class_of(
                sensors[#[trigger] at[k]].hwmon_chip,
            ) == ChipClass::GpuTemp by {
                assert(at[k] == gpu_at[k]);
            }
        } else if n > 0 {
            lemma_none_on(sensors, ChipClass::CpuTemp, n);
            lemma_none_on(sensors, ChipClass::GpuTemp, n);
            assert(at =~= Seq::new(sensors.len(), |i: int| i));
            assert(at[0] == 0);
            assert(class_of(sensors[at[0]].hwmon_chip) != ChipClass::GpuTemp);
        }
    }
}

proof fn lemma_counted(sensors: Seq<SensorView>, class: ChipClass, n: int)
    requires
        0 <= n <= sensors.len(),
    ensures
        sensors_on(sensors, class, None, n).len() == sensors.take(n).filter(
            |s: SensorView| class_of(s.hwmon_chip) == class,
        ).len(),
    decreases n,
{
    reveal(Seq::filter);
    if n > 0 {
        lemma_counted(sensors, class, n - 1);
        assert(sensors.take(n).drop_last() =~= sensors.take(n - 1));
        assert(sensors.take(n).last() == sensors[n - 1]);
    }
}

proof fn lemma_classes_on(
    sensors: Seq<SensorView>,
    class: ChipClass,
    chip: Option<Seq<char>>,
    n: int,
)
    requires
        0 <= n <= sensors.len(),
    ensures
        forall|k: int|
            0 <= k < sensors_on(sensors, class, chip, n).len() ==> class_of(
                sensors[#[trigger] sensors_on(sensors, class, chip, n)[k]].hwmon_chip,
            ) == class,
    decreases n,
{
    if n > 0 {
        lemma_classes_on(sensors, class, chip, n - 1);
        let rest = sensors_on(sensors, class, chip, n - 1);
        let all = sensors_on(sensors, class, chip, n);
        assert forall|k: int| 0 <= k < all.len() implies class_of(
            sensors[#[trigger] all[k]].hwmon_chip,
        ) == class by {
            if k < rest.len() {
                assert(all[k] == rest[k]);
            }
        }
    }
}

proof fn lemma_none_on(sensors: Seq<SensorView>, class: ChipClass, n: int)
    requires
        0 <= n <= sensors.len(),
        sensors_on(sensors, class, None, n).len() == 0,
    ensures
        forall|k: int| 0 <= k < n ==> class_of((#[trigger] sensors[k]).hwmon_chip) != class,
    decreases n,
{
    if n > 0 {
        lemma_none_on(sensors, class, n - 1);
    }
}

/// How sensors and general settings stand in the first configuration: every sensor,
/// in order, under its own name, at its own input.
pub proof fn law_how_sensors_are_set_up(
    c: Config,
    chips: Seq<ChipView>,
    sensors: Seq<SensorView>,
    fans: Seq<FanView>,
    i: int,
)
    requires
        is_built_config(c, chips, sensors, fans),
        0 <= i < sensors.len(),
    ensures
        c.sensors@.len() == sensors.len(),
        c.sensors@[i].name@ == sensors[i].auto_name,
        c.sensors@[i].hwmon@ == sensors[i].hwmon_chip,
        c.sensors@[i].index == sensors[i].index,
        c.sensors@[i].hwmon_instance == instance_of(
            chips,
            sensors[i].hwmon_chip,
            sensors[i].hwmon_path,
        ),
        c.poll_interval_ms == 2000,
        c.derivative.window_size == 10,
        c.derivative.boost_threshold.bits == 0x4000_0000_0000_0000u64,
        c.derivative.decay_rate.bits == 0x3fe0_0000_0000_0000u64,
{
    assert(is_built_sensor(c.sensors@[i], chips, sensors[i]));
}

proof fn lemma_chip_dirs(chips: Seq<ChipView>, name: Seq<char>, n: int)
    requires
        0 <= n <= chips.len(),
    ensures
        chip_dirs(chips, name, n).no_duplicates(),
        forall|p: Seq<char>| #[trigger]
            chip_dirs(chips, name, n).contains(p) <==> exists|k: int|
                0 <= k < n && (#[trigger] chips[k]).name == name && chips[k].path == p,
    decreases n,
{
    if n > 0 {
        lemma_chip_dirs(chips, name, n - 1);
        let rest = chip_dirs(chips, name, n - 1);
        let all = chip_dirs(chips, name, n);
        assert forall|p: Seq<char>| #[trigger] all.contains(p) <==> exists|k: int|
            0 <= k < n && (#[trigger] chips[k]).name == name && chips[k].path == p by {
            if all.contains(p) {
                let j = choose|j: int| 0 <= j < all.len() && all[j] == p;
                if j < rest.len() {
                    assert(rest[j] == p);
                    assert(rest.contains(p));
                    let k = choose|k: int|
                        0 <= k < n - 1 && (#[trigger] chips[k]).name == name && chips[k].path == p;
                    assert(chips[k].name == name);
                } else {
                    assert(chips[n - 1].name == name);
                }
            }
            if exists|k: int| 0 <= k < n && (#[trigger] chips[k]).name == name && chips[k].path == p {
                let k = choose|k: int|
                    0 <= k < n && (#[trigger] chips[k]).name == name && chips[k].path == p;
                if k == n - 1 && !rest.contains(p) {
                    assert(all[rest.len() as int] == p);
                } else {
                    if k < n - 1 {
                        assert(rest.contains(p));
                    }
                    let j = choose|j: int| 0 <= j < rest.len() && rest[j] == p;
                    assert(all[j] == p);
                }
            }
        }
    }
}

proof fn lemma_place_from(dirs: Seq<Seq<char>>, path: Seq<char>, i: int)
    requires
        0 <= i <= dirs.len(),
    ensures
        match place_from(dirs, path, i) {
            Some(k) => i <= k < dirs.len() && dirs[k] == path,
            None => forall|k: int| i <= k < dirs.len() ==> #[trigger] dirs[k] != path,
        },
    decreases dirs.len() - i,
{
    if i < dirs.len() {
        lemma_place_from(dirs, path, i + 1);
    }
}

/// Which instance a chip is: none is given where it is the only one of its name;
/// otherwise `d` are the directories of all chips of the name, each once, in order of
/// their numbers, and the instance is the place at which its own stands there.
pub proof fn law_instance(chips: Seq<ChipView>, name: Seq<char>, path: Seq<char>) -> (d: Seq<
    Seq<char>,
>)
    ensures
        d.no_duplicates(),
        forall|p: Seq<char>| #[trigger]
            d.contains(p) <==> exists|k: int|
                0 <= k < chips.len() && (#[trigger] chips[k]).name == name && chips[k].path == p,
        forall|i: int, j: int|
            0 <= i < j < d.len() && crate::sysfs::is_numbered(#[trigger] d[i])
                && crate::sysfs::is_numbered(#[trigger] d[j]) ==> crate::sysfs::end_number(d[i])
                <= crate::sysfs::end_number(d[j]),
        d.len() <= 1 ==> instance_of(chips, name, path) is None,
        1 < d.len() <= 0x1_0000_0000 && d.contains(path) ==> (instance_of(
            chips,
            name,
            path,
        ) matches Some(k) && k < d.len() && d[k as int] == path),
{
    let dirs = chip_dirs(chips, name, chips.len() as int);
    let d = ordered(PathOrder::Number, dirs);
    lemma_chip_dirs(chips, name, chips.len() as int);
    crate::sysfs::law_ordered(PathOrder::Number, dirs);
    crate::sysfs::law_ordered_keeps(PathOrder::Number, dirs);
    assert forall|i: int, j: int|
        0 <= i < j < d.len() && crate::sysfs::is_numbered(#[trigger] d[i])
            && crate::sysfs::is_numbered(#[trigger] d[j]) implies crate::sysfs::end_number(d[i])
        <= crate::sysfs::end_number(d[j]) by {
        crate::sysfs::law_ordered_by_number(dirs, i, j);
    }
    lemma_place_from(d, path, 0);
    d
}

/// The default curves: from standing still at 40 degrees to full speed at 90 or 95, with
/// the values between given in order of the points.
pub proof fn law_default_curve_points(i: int)
    requires
        0 <= i < 6,
    ensures
        cpu_curve().len() == 6 && gpu_curve().len() == 6 && case_curve().len() == 6,
        cpu_curve()[i].temp == 40 + 10 * i,
        case_curve()[i].temp == 40 + 10 * i,
        gpu_curve()[i].temp == if i == 0 {
            40
        } else {
            45 + 10 * i
        },
        cpu_curve()[i].pwm == seq![0int, 40, 80, 140, 200, 255][i],
        gpu_curve()[i].pwm == seq![0int, 60, 120, 180, 230, 255][i],
        case_curve()[i].pwm == seq![0int, 30, 60, 100, 160, 255][i],
{
    let c = seq![0int, 40, 80, 140, 200, 255];
    let g = seq![0int, 60, 120, 180, 230, 255];
    let h = seq![0int, 30, 60, 100, 160, 255];
    if i == 0 {
        assert(c[0] == 0 && g[0] == 0 && h[0] == 0);
    } else if i == 1 {
        assert(c[1] == 40 && g[1] == 60 && h[1] == 30);
    } else if i == 2 {
        assert(c[2] == 80 && g[2] == 120 && h[2] == 60);
    } else if i == 3 {
        assert(c[3] == 140 && g[3] == 180 && h[3] == 100);
    } else if i == 4 {
        assert(c[4] == 200 && g[4] == 230 && h[4] == 160);
    } else {
        assert(c[5] == 255 && g[5] == 255 && h[5] == 255);
    }
}

/// The default settings: how much is kept and how much is asked for before anything is
/// told.
pub proof fn law_default_settings(c: Config)
    requires
        has_default_settings(c),
    ensures
        c.poll_interval_ms == 2000,
        c.derivative.window_size == 10,
        c.tuning.ewma_span == 20,
        c.tuning.ccf_buffer_size == 120,
        c.tuning.ccf_max_lag == 30,
        c.tuning.step_threshold == 15,
        c.tuning.response_window == 60,
        c.tuning.regression_min_samples == 60,
{
}

} // verus!
