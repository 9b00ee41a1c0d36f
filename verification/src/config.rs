//! The daemon's configuration: what it holds, when it is acceptable, and the
//! temperature curve of a fan.
use crate::scalar::Scalar;
use crate::text;
use vstd::prelude::*;

verus! {

/// The daemon's configuration.
#[derive(Debug, Clone)]
pub struct Config {
    pub poll_interval_ms: u64,
    pub derivative: DerivativeConfig,
    pub sensors: Vec<SensorConfig>,
    pub fans: Vec<FanConfig>,
    pub tuning: TuningConfig,
}

/// Settings of the thermal tuning estimators.
#[derive(Debug, Clone, Copy, PartialEq, Eq, Structural)]
pub struct TuningConfig {
    /// EWMA smoothing span (samples). Higher = smoother, more lag.
    pub ewma_span: usize,
    /// Cross-correlation circular buffer size (samples).
    pub ccf_buffer_size: usize,
    /// Maximum lag to search in the cross-correlation (samples).
    pub ccf_max_lag: usize,
    /// Minimum PWM change that starts a step-response recording.
    pub step_threshold: u8,
    /// Ticks to record after a step for exponential fitting.
    pub response_window: usize,
    /// Minimum samples before solving the regression.
    pub regression_min_samples: usize,
}

impl Default for TuningConfig {
    fn default() -> (r: Self)
        ensures
            r.ewma_span == 20,
            r.ccf_buffer_size == 120,
            r.ccf_max_lag == 30,
            r.step_threshold == 15,
            r.response_window == 60,
            r.regression_min_samples == 60,
    {
        TuningConfig {
            ewma_span: default_ewma_span(),
            ccf_buffer_size: default_ccf_buffer_size(),
            ccf_max_lag: default_ccf_max_lag(),
            step_threshold: default_step_threshold(),
            response_window: default_response_window(),
            regression_min_samples: default_regression_min_samples(),
        }
    }
}

pub fn default_ewma_span() -> (r: usize)
    ensures
        r == 20,
{
    20
}

pub fn default_ccf_buffer_size() -> (r: usize)
    ensures
        r == 120,
{
    120
}

pub fn default_ccf_max_lag() -> (r: usize)
    ensures
        r == 30,
{
    30
}

pub fn default_step_threshold() -> (r: u8)
    ensures
        r == 15,
{
    15
}

pub fn default_response_window() -> (r: usize)
    ensures
        r == 60,
{
    60
}

pub fn default_regression_min_samples() -> (r: usize)
    ensures
        r == 60,
{
    60
}

/// Settings of the derivative boost.
#[derive(Debug, Clone, Copy, PartialEq, Eq, Structural)]
pub struct DerivativeConfig {
    /// Number of samples in the rolling window.
    pub window_size: usize,
    /// Rise in °C/s that triggers a proactive boost.
    pub boost_threshold: Scalar,
    /// PWM units per tick by which the boost relaxes.
    pub decay_rate: Scalar,
}

/// A temperature sensor.
#[derive(Debug, Clone)]
pub struct SensorConfig {
    pub name: String,
    /// hwmon chip name (e.g. "k10temp", "nct6799").
    pub hwmon: String,
    /// Temperature input index (e.g. 1 for temp1_input).
    pub index: u32,
    /// Zero-based choice among chips that share the name.
    pub hwmon_instance: Option<u32>,
}

/// Physical location of a fan in the case.
#[derive(Debug, Clone, Copy, PartialEq, Eq, Structural)]
pub enum FanPosition {
    Front,
    Rear,
    Top,
    Bottom,
    Side,
    CpuCooler,
    GpuCooler,
}

/// Direction of airflow relative to the case.
#[derive(Debug, Clone, Copy, PartialEq, Eq, Structural)]
pub enum AirflowDirection {
    /// Pulling cool air into the case.
    Intake,
    /// Pushing hot air out of the case.
    Exhaust,
}

/// Where a fan sits and which way it blows.
#[derive(Debug, Clone)]
pub struct FanTopology {
    pub position: FanPosition,
    pub direction: AirflowDirection,
    /// Fans of one group are benchmarked and controlled together.
    pub group: Option<String>,
}

/// A PWM fan.
#[derive(Debug, Clone)]
pub struct FanConfig {
    pub name: String,
    /// hwmon chip name of the fan controller.
    pub hwmon: String,
    /// PWM channel index (e.g. 2 for pwm2).
    pub pwm_index: u32,
    /// Zero-based choice among chips that share the name.
    pub hwmon_instance: Option<u32>,
    pub topology: FanTopology,
    /// Names of the sensors that drive this fan.
    pub sensors: Vec<String>,
    /// Temperature-to-PWM points, sorted by ascending temperature.
    pub curve: Vec<CurvePoint>,
}

/// One point of a fan curve.
#[derive(Debug, Clone, Copy, PartialEq, Eq, Structural)]
pub struct CurvePoint {
    /// Temperature in °C.
    pub temp: u32,
    /// PWM value at this temperature.
    pub pwm: u8,
}

// ---- The curve ----

/// `num / den` rounded to the nearest integer, halves up.
pub open spec fn nearest(num: int, den: int) -> int {
    (2 * num + den) / (2 * den)
}

/// The PWM value at `t` thousandths of a degree on the straight line from `lo`
/// to `hi`, rounded to the nearest integer. A line of no width has value 0.
pub open spec fn on_segment(lo: CurvePoint, hi: CurvePoint, t: int) -> int {
    let width = (hi.temp - lo.temp) * 1000;
    if width == 0 {
        0
    } else {
        nearest(lo.pwm * width + (t - lo.temp * 1000) * (hi.pwm - lo.pwm), width)
    }
}

/// Whether `t` lies between the points `i` and `i + 1`, ends included.
pub open spec fn in_segment(curve: Seq<CurvePoint>, i: int, t: int) -> bool {
    curve[i].temp * 1000 <= t <= curve[i + 1].temp * 1000
}

/// The value at `t` on the first segment from the `i`-th on that holds `t`, or
/// that of the last point where none does.
pub open spec fn on_segments_from(curve: Seq<CurvePoint>, i: int, t: int) -> int
    decreases curve.len() - i,
{
    if i + 1 >= curve.len() {
        curve.last().pwm as int
    } else if in_segment(curve, i, t) {
        on_segment(curve[i], curve[i + 1], t)
    } else {
        on_segments_from(curve, i + 1, t)
    }
}

/// The PWM value that `curve` gives at `t` thousandths of a degree Celsius:
/// level below the first point and above the last, straight lines between.
pub open spec fn curve_value(curve: Seq<CurvePoint>, t: int) -> int {
    if curve.len() == 0 {
        0
    } else if t <= curve[0].temp * 1000 {
        curve[0].pwm as int
    } else if t >= curve.last().temp * 1000 {
        curve.last().pwm as int
    } else {
        on_segments_from(curve, 0, t)
    }
}

/// Whether the curve's temperatures rise strictly and its PWM values never fall.
pub open spec fn rising(curve: Seq<CurvePoint>) -> bool {
    forall|i: int, j: int|
        0 <= i < j < curve.len() ==> (#[trigger] curve[i]).temp < (#[trigger] curve[j]).temp
            && curve[i].pwm <= curve[j].pwm
}

proof fn lemma_nearest_between(num: int, den: int, lo: int, hi: int)
    requires
        den > 0,
        lo * den <= num <= hi * den,
    ensures
        lo <= nearest(num, den) <= hi,
{
    assert(lo <= (2 * num + den) / (2 * den) <= hi) by (nonlinear_arith)
        requires
            den > 0,
            lo * den <= num <= hi * den,
    ;
}

proof fn lemma_nearest_monotone(a: int, b: int, den: int)
    requires
        den > 0,
        a <= b,
    ensures
        nearest(a, den) <= nearest(b, den),
{
    assert((2 * a + den) / (2 * den) <= (2 * b + den) / (2 * den)) by (nonlinear_arith)
        requires
            den > 0,
            a <= b,
    ;
}

proof fn lemma_segment_between(lo: CurvePoint, hi: CurvePoint, t: int)
    requires
        lo.temp < hi.temp,
        lo.temp * 1000 <= t <= hi.temp * 1000,
    ensures
        lo.pwm <= hi.pwm ==> lo.pwm <= on_segment(lo, hi, t) <= hi.pwm,
        lo.pwm >= hi.pwm ==> hi.pwm <= on_segment(lo, hi, t) <= lo.pwm,
{
    let width = (hi.temp - lo.temp) * 1000;
    let x = t - lo.temp * 1000;
    let rise = hi.pwm - lo.pwm;
    let num = lo.pwm * width + x * rise;
    if rise >= 0 {
        assert(lo.pwm * width <= num <= hi.pwm * width) by (nonlinear_arith)
            requires
                0 <= x <= width,
                rise >= 0,
                rise == hi.pwm - lo.pwm,
                num == lo.pwm * width + x * rise,
        ;
        lemma_nearest_between(num, width, lo.pwm as int, hi.pwm as int);
    }
    if rise <= 0 {
        assert(hi.pwm * width <= num <= lo.pwm * width) by (nonlinear_arith)
            requires
                0 <= x <= width,
                rise <= 0,
                rise == hi.pwm - lo.pwm,
                num == lo.pwm * width + x * rise,
        ;
        lemma_nearest_between(num, width, hi.pwm as int, lo.pwm as int);
    }
}

impl FanConfig {
    /// The PWM value that the fan's curve gives at `temp` thousandths of a
    /// degree Celsius: linear interpolation between the curve's points, rounded
    /// to the nearest value.
    pub fn interpolate_pwm(&self, temp: i64) -> (r: u8)
        ensures
            r == curve_value(self.curve@, temp as int),
    {
        let n: usize = self.curve.len();
        if n == 0 {
            return 0;
        }
        let first = self.curve[0];
        let last = self.curve[n - 1];
        if temp <= first.temp as i64 * 1000 {
            return first.pwm;
        }
        if temp >= last.temp as i64 * 1000 {
            return last.pwm;
        }
        let mut i: usize = 0;
        while i + 1 < n
            invariant
                n == self.curve.len(),
                n > 0,
                i < n,
                last == self.curve@[n - 1],
                self.curve@[0].temp * 1000 < temp < last.temp * 1000,
                on_segments_from(self.curve@, 0, temp as int) == on_segments_from(
                    self.curve@,
                    i as int,
                    temp as int,
                ),
            decreases n - i,
        {
            let lo = self.curve[i];
            let hi = self.curve[i + 1];
            let lo_t: i64 = lo.temp as i64 * 1000;
            let hi_t: i64 = hi.temp as i64 * 1000;
            if lo_t <= temp && temp <= hi_t {
                let width: i64 = hi_t - lo_t;
                if width == 0 {
                    return 0;
                }
                let x: i64 = temp - lo_t;
                let rise: i64 = hi.pwm as i64 - lo.pwm as i64;
                proof {
                    lemma_segment_between(lo, hi, temp as int);
                    assert(-255 * width <= x * rise <= 255 * width) by (nonlinear_arith)
                        requires
                            0 <= x <= width,
                            -255 <= rise <= 255,
                    ;
                    assert(0 <= lo.pwm * width + x * rise) by (nonlinear_arith)
                        requires
                            0 <= x <= width,
                            rise == hi.pwm - lo.pwm,
                            hi.pwm >= 0,
                            lo.pwm >= 0,
                    ;
                    assert(0 <= lo.pwm * width <= 255 * width) by (nonlinear_arith)
                        requires
                            0 <= lo.pwm <= 255,
                            width >= 0,
                    ;
                }
                let num: i64 = lo.pwm as i64 * width + x * rise;
                let r: i64 = (2 * num + width) / (2 * width);
                return r as u8;
            }
            i = i + 1;
        }
        last.pwm
    }
}

/// On a rising curve the value lies between the first point's and the last's.
pub proof fn law_curve_bounds(curve: Seq<CurvePoint>, t: int)
    requires
        curve.len() > 0,
        rising(curve),
    ensures
        curve[0].pwm <= curve_value(curve, t) <= curve.last().pwm,
{
    lemma_segments_bounds(curve, 0, t);
}

proof fn lemma_segments_bounds(curve: Seq<CurvePoint>, i: int, t: int)
    requires
        0 <= i < curve.len(),
        rising(curve),
    ensures
        curve[i].pwm <= on_segments_from(curve, i, t) <= curve.last().pwm,
    decreases curve.len() - i,
{
    if i + 1 < curve.len() {
        if in_segment(curve, i, t) {
            lemma_segment_between(curve[i], curve[i + 1], t);
        } else {
            lemma_segments_bounds(curve, i + 1, t);
        }
    }
}

/// On a rising curve a hotter reading never asks for less PWM.
pub proof fn law_curve_monotone(curve: Seq<CurvePoint>, s: int, t: int)
    requires
        rising(curve),
        s <= t,
    ensures
        curve_value(curve, s) <= curve_value(curve, t),
{
    if curve.len() > 0 {
        law_curve_bounds(curve, s);
        law_curve_bounds(curve, t);
        if curve[0].temp * 1000 < s && t < curve.last().temp * 1000 {
            lemma_segments_monotone(curve, 0, s, t);
        }
    }
}

proof fn lemma_segments_monotone(curve: Seq<CurvePoint>, i: int, s: int, t: int)
    requires
        0 <= i < curve.len(),
        rising(curve),
        curve[i].temp * 1000 <= s <= t < curve.last().temp * 1000,
    ensures
        on_segments_from(curve, i, s) <= on_segments_from(curve, i, t),
    decreases curve.len() - i,
{
    if i + 1 < curve.len() {
        let lo = curve[i];
        let hi = curve[i + 1];
        if in_segment(curve, i, s) {
            lemma_segment_between(lo, hi, s);
            if in_segment(curve, i, t) {
                let width = (hi.temp - lo.temp) * 1000;
                let x = s - lo.temp * 1000;
                let y = t - lo.temp * 1000;
                let rise = hi.pwm - lo.pwm;
                assert(x * rise <= y * rise) by (nonlinear_arith)
                    requires
                        x <= y,
                        rise >= 0,
                ;
                lemma_nearest_monotone(lo.pwm * width + x * rise, lo.pwm * width + y * rise, width);
            } else {
                lemma_segments_bounds(curve, i + 1, t);
            }
        } else {
            lemma_segments_monotone(curve, i + 1, s, t);
        }
    }
}

/// A rising curve passes through each of its points.
pub proof fn law_curve_through_points(curve: Seq<CurvePoint>, k: int)
    requires
        rising(curve),
        0 <= k < curve.len(),
    ensures
        curve_value(curve, curve[k].temp * 1000) == curve[k].pwm,
{
    if 0 < k < curve.len() - 1 {
        lemma_segments_through(curve, 0, k);
    }
}

proof fn lemma_segments_through(curve: Seq<CurvePoint>, i: int, k: int)
    requires
        rising(curve),
        0 <= i < k < curve.len(),
    ensures
        on_segments_from(curve, i, curve[k].temp * 1000) == curve[k].pwm,
    decreases k - i,
{
    let t = curve[k].temp * 1000;
    if i + 1 == k {
        let lo = curve[i];
        let hi = curve[k];
        let width = (hi.temp - lo.temp) * 1000;
        assert(lo.pwm * width + width * (hi.pwm - lo.pwm) == hi.pwm * width) by (nonlinear_arith);
        lemma_nearest_between(hi.pwm * width, width, hi.pwm as int, hi.pwm as int);
    } else {
        assert(curve[i + 1].temp < curve[k].temp);
        lemma_segments_through(curve, i + 1, k);
    }
}

// ---- Validation ----

/// The hottest temperature, in °C, that a curve point may have.
pub const MAX_CURVE_TEMP: u32 = 150;

/// The samples that a cross-correlation buffer holds beyond its largest lag.
pub const CCF_MARGIN: usize = 10;

/// Why a configuration is refused; `sensor`, `fan`, `point` and `reference` are
/// positions in the configuration's own lists.
#[derive(Debug, Clone, Copy, PartialEq, Eq, Structural)]
pub enum ConfigError {
    NoSensors,
    NoFans,
    ZeroPollInterval,
    WindowTooSmall,
    BadBoostThreshold,
    BadDecayRate,
    ZeroEwmaSpan,
    ZeroCcfBuffer,
    CcfMaxLagTooLarge,
    CcfBufferTooSmall,
    ZeroStepThreshold,
    ResponseWindowTooSmall,
    ZeroRegressionSamples,
    SensorUnnamed { sensor: usize },
    SensorWithoutHwmon { sensor: usize },
    SensorIndexZero { sensor: usize },
    SensorDuplicate { sensor: usize },
    FanUnnamed { fan: usize },
    FanWithoutHwmon { fan: usize },
    FanIndexZero { fan: usize },
    FanDuplicate { fan: usize },
    FanChannelShared { fan: usize },
    FanWithoutSensors { fan: usize },
    CurveTooShort { fan: usize },
    CurveNotAscending { fan: usize },
    CurvePwmDecreasing { fan: usize },
    CurveTooHot { fan: usize, point: usize },
    UnknownSensor { fan: usize, reference: usize },
}

/// Whether `x` is finite and not negative.
pub open spec fn finite_non_negative(x: Scalar) -> bool {
    x.finite() && x.rank() >= 0
}

/// The first rule that the settings outside the sensor and fan lists break.
pub open spec fn settings_error(c: Config) -> Option<ConfigError> {
    if c.sensors@.len() == 0 {
        Some(ConfigError::NoSensors)
    } else if c.fans@.len() == 0 {
        Some(ConfigError::NoFans)
    } else if c.poll_interval_ms == 0 {
        Some(ConfigError::ZeroPollInterval)
    } else if c.derivative.window_size < 2 {
        Some(ConfigError::WindowTooSmall)
    } else if !finite_non_negative(c.derivative.boost_threshold) {
        Some(ConfigError::BadBoostThreshold)
    } else if !finite_non_negative(c.derivative.decay_rate) {
        Some(ConfigError::BadDecayRate)
    } else {
        tuning_error(c.tuning)
    }
}

/// The first rule that the tuning settings break.
pub open spec fn tuning_error(t: TuningConfig) -> Option<ConfigError> {
    if t.ewma_span == 0 {
        Some(ConfigError::ZeroEwmaSpan)
    } else if t.ccf_buffer_size == 0 {
        Some(ConfigError::ZeroCcfBuffer)
    } else if t.ccf_max_lag + CCF_MARGIN > usize::MAX {
        Some(ConfigError::CcfMaxLagTooLarge)
    } else if t.ccf_buffer_size < t.ccf_max_lag + CCF_MARGIN {
        Some(ConfigError::CcfBufferTooSmall)
    } else if t.step_threshold == 0 {
        Some(ConfigError::ZeroStepThreshold)
    } else if t.response_window < 5 {
        Some(ConfigError::ResponseWindowTooSmall)
    } else if t.regression_min_samples == 0 {
        Some(ConfigError::ZeroRegressionSamples)
    } else {
        None
    }
}

/// Whether a sensor before the `end`-th is called `name`.
pub open spec fn sensor_named(sensors: Seq<SensorConfig>, end: int, name: Seq<char>) -> bool {
    exists|k: int| 0 <= k < end && (#[trigger] sensors[k]).name@ == name
}

/// The first rule that the `i`-th sensor breaks.
pub open spec fn sensor_error(sensors: Seq<SensorConfig>, i: int) -> Option<ConfigError> {
    let s = sensors[i];
    if text::blank(s.name@) {
        Some(ConfigError::SensorUnnamed { sensor: i as usize })
    } else if text::blank(s.hwmon@) {
        Some(ConfigError::SensorWithoutHwmon { sensor: i as usize })
    } else if s.index == 0 {
        Some(ConfigError::SensorIndexZero { sensor: i as usize })
    } else if sensor_named(sensors, i, s.name@) {
        Some(ConfigError::SensorDuplicate { sensor: i as usize })
    } else {
        None
    }
}

/// The first rule that a sensor from the `i`-th on breaks.
pub open spec fn sensors_error(sensors: Seq<SensorConfig>, i: int) -> Option<ConfigError>
    decreases sensors.len() - i,
{
    if i >= sensors.len() {
        None
    } else if sensor_error(sensors, i) is Some {
        sensor_error(sensors, i)
    } else {
        sensors_error(sensors, i + 1)
    }
}

/// Whether two fans sit on the same PWM channel.
pub open spec fn same_channel(a: FanConfig, b: FanConfig) -> bool {
    a.hwmon@ == b.hwmon@ && a.hwmon_instance == b.hwmon_instance && a.pwm_index == b.pwm_index
}

/// The first pair of neighbours from the `k`-th on that breaks a curve rule.
pub open spec fn curve_error(curve: Seq<CurvePoint>, fan: usize, k: int) -> Option<ConfigError>
    decreases curve.len() - k,
{
    if k + 1 >= curve.len() {
        None
    } else if curve[k].temp >= curve[k + 1].temp {
        Some(ConfigError::CurveNotAscending { fan })
    } else if curve[k].pwm > curve[k + 1].pwm {
        Some(ConfigError::CurvePwmDecreasing { fan })
    } else {
        curve_error(curve, fan, k + 1)
    }
}

/// The first point from the `k`-th on that is hotter than a curve may be.
pub open spec fn heat_error(curve: Seq<CurvePoint>, fan: usize, k: int) -> Option<ConfigError>
    decreases curve.len() - k,
{
    if k >= curve.len() {
        None
    } else if curve[k].temp > MAX_CURVE_TEMP {
        Some(ConfigError::CurveTooHot { fan, point: k as usize })
    } else {
        heat_error(curve, fan, k + 1)
    }
}

/// The first sensor reference from the `k`-th on that names no sensor.
pub open spec fn reference_error(
    refs: Seq<String>,
    sensors: Seq<SensorConfig>,
    fan: usize,
    k: int,
) -> Option<ConfigError>
    decreases refs.len() - k,
{
    if k >= refs.len() {
        None
    } else if !sensor_named(sensors, sensors.len() as int, refs[k]@) {
        Some(ConfigError::UnknownSensor { fan, reference: k as usize })
    } else {
        reference_error(refs, sensors, fan, k + 1)
    }
}

/// The first rule that the `i`-th fan breaks.
pub open spec fn fan_error(c: Config, i: int) -> Option<ConfigError> {
    let f = c.fans@[i];
    let fan = i as usize;
    if text::blank(f.name@) {
        Some(ConfigError::FanUnnamed { fan })
    } else if text::blank(f.hwmon@) {
        Some(ConfigError::FanWithoutHwmon { fan })
    } else if f.pwm_index == 0 {
        Some(ConfigError::FanIndexZero { fan })
    } else if exists|k: int| 0 <= k < i && (#[trigger] c.fans@[k]).name@ == f.name@ {
        Some(ConfigError::FanDuplicate { fan })
    } else if exists|k: int| 0 <= k < i && same_channel(#[trigger] c.fans@[k], f) {
        Some(ConfigError::FanChannelShared { fan })
    } else if f.sensors@.len() == 0 {
        Some(ConfigError::FanWithoutSensors { fan })
    } else if f.curve@.len() == 0 {
        Some(ConfigError::CurveTooShort { fan })
    } else if curve_error(f.curve@, fan, 0) is Some {
        curve_error(f.curve@, fan, 0)
    } else if heat_error(f.curve@, fan, 0) is Some {
        heat_error(f.curve@, fan, 0)
    } else {
        reference_error(f.sensors@, c.sensors@, fan, 0)
    }
}

/// The first rule that a fan from the `i`-th on breaks.
pub open spec fn fans_error(c: Config, i: int) -> Option<ConfigError>
    decreases c.fans@.len() - i,
{
    if i >= c.fans@.len() {
        None
    } else if fan_error(c, i) is Some {
        fan_error(c, i)
    } else {
        fans_error(c, i + 1)
    }
}

/// The first rule that the configuration breaks: settings first, then the
/// sensors in order, then the fans in order.
pub open spec fn first_error(c: Config) -> Option<ConfigError> {
    if settings_error(c) is Some {
        settings_error(c)
    } else if sensors_error(c.sensors@, 0) is Some {
        sensors_error(c.sensors@, 0)
    } else {
        fans_error(c, 0)
    }
}

fn non_negative(x: Scalar) -> (r: bool)
    ensures
        r == finite_non_negative(x),
{
    x.is_finite() && !x.lt(Scalar { bits: 0 })
}

fn check_settings(config: &Config) -> (r: Option<ConfigError>)
    ensures
        r == settings_error(*config),
{
    if config.sensors.len() == 0 {
        return Some(ConfigError::NoSensors);
    }
    if config.fans.len() == 0 {
        return Some(ConfigError::NoFans);
    }
    if config.poll_interval_ms == 0 {
        return Some(ConfigError::ZeroPollInterval);
    }
    if config.derivative.window_size < 2 {
        return Some(ConfigError::WindowTooSmall);
    }
    if !non_negative(config.derivative.boost_threshold) {
        return Some(ConfigError::BadBoostThreshold);
    }
    if !non_negative(config.derivative.decay_rate) {
        return Some(ConfigError::BadDecayRate);
    }
    let t = config.tuning;
    if t.ewma_span == 0 {
        return Some(ConfigError::ZeroEwmaSpan);
    }
    if t.ccf_buffer_size == 0 {
        return Some(ConfigError::ZeroCcfBuffer);
    }
    match t.ccf_max_lag.checked_add(CCF_MARGIN) {
        None => {
            return Some(ConfigError::CcfMaxLagTooLarge);
        },
        Some(minimum) => {
            if t.ccf_buffer_size < minimum {
                return Some(ConfigError::CcfBufferTooSmall);
            }
        },
    }
    if t.step_threshold == 0 {
        return Some(ConfigError::ZeroStepThreshold);
    }
    if t.response_window < 5 {
        return Some(ConfigError::ResponseWindowTooSmall);
    }
    if t.regression_min_samples == 0 {
        return Some(ConfigError::ZeroRegressionSamples);
    }
    None
}

fn has_sensor(sensors: &Vec<SensorConfig>, end: usize, name: &String) -> (r: bool)
    requires
        end <= sensors.len(),
    ensures
        r == sensor_named(sensors@, end as int, name@),
{
    for k in 0..end
        invariant
            end <= sensors.len(),
            forall|j: int| 0 <= j < k ==> (#[trigger] sensors@[j]).name@ != name@,
    {
        if sensors[k].name == *name {
            return true;
        }
    }
    false
}

fn check_sensor(sensors: &Vec<SensorConfig>, i: usize) -> (r: Option<ConfigError>)
    requires
        i < sensors.len(),
    ensures
        r == sensor_error(sensors@, i as int),
{
    let s = &sensors[i];
    if text::is_blank(s.name.as_str()) {
        return Some(ConfigError::SensorUnnamed { sensor: i });
    }
    if text::is_blank(s.hwmon.as_str()) {
        return Some(ConfigError::SensorWithoutHwmon { sensor: i });
    }
    if s.index == 0 {
        return Some(ConfigError::SensorIndexZero { sensor: i });
    }
    if has_sensor(sensors, i, &s.name) {
        return Some(ConfigError::SensorDuplicate { sensor: i });
    }
    None
}

fn check_sensors(sensors: &Vec<SensorConfig>) -> (r: Option<ConfigError>)
    ensures
        r == sensors_error(sensors@, 0),
{
    for i in 0..sensors.len()
        invariant
            sensors_error(sensors@, 0) == sensors_error(sensors@, i as int),
    {
        let e = check_sensor(sensors, i);
        if e.is_some() {
            return e;
        }
    }
    None
}

fn fan_name_taken(fans: &Vec<FanConfig>, i: usize) -> (r: bool)
    requires
        i < fans.len(),
    ensures
        r == exists|k: int| 0 <= k < i && (#[trigger] fans@[k]).name@ == fans@[i as int].name@,
{
    for k in 0..i
        invariant
            i < fans.len(),
            forall|j: int| 0 <= j < k ==> (#[trigger] fans@[j]).name@ != fans@[i as int].name@,
    {
        if fans[k].name == fans[i].name {
            return true;
        }
    }
    false
}

fn same_option(a: Option<u32>, b: Option<u32>) -> (r: bool)
    ensures
        r == (a == b),
{
    match (a, b) {
        (Some(x), Some(y)) => x == y,
        (None, None) => true,
        _ => false,
    }
}

fn channel_taken(fans: &Vec<FanConfig>, i: usize) -> (r: bool)
    requires
        i < fans.len(),
    ensures
        r == exists|k: int| 0 <= k < i && same_channel(#[trigger] fans@[k], fans@[i as int]),
{
    for k in 0..i
        invariant
            i < fans.len(),
            forall|j: int| 0 <= j < k ==> !same_channel(#[trigger] fans@[j], fans@[i as int]),
    {
        if fans[k].hwmon == fans[i].hwmon && same_option(
            fans[k].hwmon_instance,
            fans[i].hwmon_instance,
        ) && fans[k].pwm_index == fans[i].pwm_index {
            return true;
        }
    }
    false
}

fn check_curve(curve: &Vec<CurvePoint>, fan: usize) -> (r: Option<ConfigError>)
    ensures
        r == (if curve_error(curve@, fan, 0) is Some {
            curve_error(curve@, fan, 0)
        } else {
            heat_error(curve@, fan, 0)
        }),
{
    let mut k: usize = 0;
    while k < curve.len() && k + 1 < curve.len()
        invariant
            k <= curve.len(),
            curve_error(curve@, fan, 0) == curve_error(curve@, fan, k as int),
        decreases curve.len() - k,
    {
        if curve[k].temp >= curve[k + 1].temp {
            return Some(ConfigError::CurveNotAscending { fan });
        }
        if curve[k].pwm > curve[k + 1].pwm {
            return Some(ConfigError::CurvePwmDecreasing { fan });
        }
        k = k + 1;
    }
    for k in 0..curve.len()
        invariant
            curve_error(curve@, fan, 0) is None,
            heat_error(curve@, fan, 0) == heat_error(curve@, fan, k as int),
    {
        if curve[k].temp > MAX_CURVE_TEMP {
            return Some(ConfigError::CurveTooHot { fan, point: k });
        }
    }
    None
}

fn check_references(config: &Config, fan: usize) -> (r: Option<ConfigError>)
    requires
        fan < config.fans.len(),
    ensures
        r == reference_error(config.fans@[fan as int].sensors@, config.sensors@, fan, 0),
{
    let refs = &config.fans[fan].sensors;
    for k in 0..refs.len()
        invariant
            refs == config.fans@[fan as int].sensors,
            reference_error(refs@, config.sensors@, fan, 0) == reference_error(
                refs@,
                config.sensors@,
                fan,
                k as int,
            ),
    {
        if !has_sensor(&config.sensors, config.sensors.len(), &refs[k]) {
            return Some(ConfigError::UnknownSensor { fan, reference: k });
        }
    }
    None
}

fn check_fan(config: &Config, i: usize) -> (r: Option<ConfigError>)
    requires
        i < config.fans.len(),
    ensures
        r == fan_error(*config, i as int),
{
    let f = &config.fans[i];
    if text::is_blank(f.name.as_str()) {
        return Some(ConfigError::FanUnnamed { fan: i });
    }
    if text::is_blank(f.hwmon.as_str()) {
        return Some(ConfigError::FanWithoutHwmon { fan: i });
    }
    if f.pwm_index == 0 {
        return Some(ConfigError::FanIndexZero { fan: i });
    }
    if fan_name_taken(&config.fans, i) {
        return Some(ConfigError::FanDuplicate { fan: i });
    }
    if channel_taken(&config.fans, i) {
        return Some(ConfigError::FanChannelShared { fan: i });
    }
    if f.sensors.len() == 0 {
        return Some(ConfigError::FanWithoutSensors { fan: i });
    }
    if f.curve.len() == 0 {
        return Some(ConfigError::CurveTooShort { fan: i });
    }
    let e = check_curve(&f.curve, i);
    if e.is_some() {
        return e;
    }
    check_references(config, i)
}

/// Accepts the configuration, or names the first rule that it breaks.
pub fn validate(config: &Config) -> (r: Result<(), ConfigError>)
    ensures
        match r {
            Ok(_) => first_error(*config) is None,
            Err(e) => first_error(*config) == Some(e) && points_into(e, *config),
        },
{
    proof {
        lemma_sensors_point(*config, 0);
        lemma_fans_point(*config, 0);
    }
    if let Some(e) = check_settings(config) {
        return Err(e);
    }
    if let Some(e) = check_sensors(&config.sensors) {
        return Err(e);
    }
    for i in 0..config.fans.len()
        invariant
            settings_error(*config) is None,
            sensors_error(config.sensors@, 0) is None,
            fans_error(*config, 0) matches Some(e) ==> points_into(e, *config),
            fans_error(*config, 0) == fans_error(*config, i as int),
    {
        if let Some(e) = check_fan(config, i) {
            return Err(e);
        }
    }
    Ok(())
}

/// What an acceptable configuration is, as a whole.
pub open spec fn acceptable(c: Config) -> bool {
    &&& c.sensors@.len() > 0
    &&& c.fans@.len() > 0
    &&& c.poll_interval_ms > 0
    &&& c.derivative.window_size >= 2
    &&& finite_non_negative(c.derivative.boost_threshold)
    &&& finite_non_negative(c.derivative.decay_rate)
    &&& c.tuning.ewma_span > 0
    &&& c.tuning.ccf_buffer_size >= c.tuning.ccf_max_lag + CCF_MARGIN
    &&& c.tuning.step_threshold > 0
    &&& c.tuning.response_window >= 5
    &&& c.tuning.regression_min_samples > 0
    &&& forall|i: int| 0 <= i < c.sensors@.len() ==> #[trigger] acceptable_sensor(c.sensors@[i])
    &&& forall|i: int, j: int|
        0 <= i < j < c.sensors@.len() ==> (#[trigger] c.sensors@[i]).name@ != (
        #[trigger] c.sensors@[j]).name@
    &&& forall|i: int|
        0 <= i < c.fans@.len() ==> #[trigger] acceptable_fan(c.fans@[i], c.sensors@)
    &&& forall|i: int, j: int|
        0 <= i < j < c.fans@.len() ==> (#[trigger] c.fans@[i]).name@ != (
        #[trigger] c.fans@[j]).name@ && !same_channel(c.fans@[i], c.fans@[j])
}

/// What a sensor must be by itself.
pub open spec fn acceptable_sensor(s: SensorConfig) -> bool {
    !text::blank(s.name@) && !text::blank(s.hwmon@) && s.index > 0
}

/// What a fan must be by itself, given the sensors it may refer to.
pub open spec fn acceptable_fan(f: FanConfig, sensors: Seq<SensorConfig>) -> bool {
    &&& !text::blank(f.name@)
    &&& !text::blank(f.hwmon@)
    &&& f.pwm_index > 0
    &&& f.sensors@.len() > 0
    &&& f.curve@.len() >= 1
    &&& rising(f.curve@)
    &&& forall|k: int| 0 <= k < f.curve@.len() ==> (#[trigger] f.curve@[k]).temp <= MAX_CURVE_TEMP
    &&& forall|k: int|
        0 <= k < f.sensors@.len() ==> sensor_named(
            sensors,
            sensors.len() as int,
            (#[trigger] f.sensors@[k])@,
        )
}

proof fn lemma_sensors_error(sensors: Seq<SensorConfig>, i: int)
    requires
        0 <= i <= sensors.len(),
    ensures
        sensors_error(sensors, i) is None <==> forall|k: int|
            i <= k < sensors.len() ==> #[trigger] sensor_error(sensors, k) is None,
    decreases sensors.len() - i,
{
    if i < sensors.len() {
        lemma_sensors_error(sensors, i + 1);
    }
}

proof fn lemma_fans_error(c: Config, i: int)
    requires
        0 <= i <= c.fans@.len(),
    ensures
        fans_error(c, i) is None <==> forall|k: int|
            i <= k < c.fans@.len() ==> #[trigger] fan_error(c, k) is None,
    decreases c.fans@.len() - i,
{
    if i < c.fans@.len() {
        lemma_fans_error(c, i + 1);
    }
}

proof fn lemma_curve_error(curve: Seq<CurvePoint>, fan: usize, k: int)
    requires
        0 <= k <= curve.len(),
    ensures
        curve_error(curve, fan, k) is None <==> rising(curve.skip(k)),
    decreases curve.len() - k,
{
    let tail = curve.skip(k);
    if k + 1 < curve.len() {
        lemma_curve_error(curve, fan, k + 1);
        let rest = curve.skip(k + 1);
        assert(forall|j: int| 0 <= j < rest.len() ==> #[trigger] rest[j] == tail[j + 1]);
        if rising(tail) {
            assert(tail[0].temp < tail[1].temp && tail[0].pwm <= tail[1].pwm);
        }
        if curve_error(curve, fan, k) is None {
            assert forall|i: int, j: int| 0 <= i < j < tail.len() implies (
            #[trigger] tail[i]).temp < (#[trigger] tail[j]).temp && tail[i].pwm <= tail[j].pwm by {
                assert(tail[j] == rest[j - 1]);
                if i > 0 {
                    assert(tail[i] == rest[i - 1]);
                } else if j > 1 {
                    assert(rest[0] == tail[1]);
                }
            }
        }
    }
}

proof fn lemma_heat_error(curve: Seq<CurvePoint>, fan: usize, k: int)
    requires
        0 <= k <= curve.len(),
    ensures
        heat_error(curve, fan, k) is None <==> forall|j: int|
            k <= j < curve.len() ==> (#[trigger] curve[j]).temp <= MAX_CURVE_TEMP,
    decreases curve.len() - k,
{
    if k < curve.len() {
        lemma_heat_error(curve, fan, k + 1);
    }
}

proof fn lemma_reference_error(
    refs: Seq<String>,
    sensors: Seq<SensorConfig>,
    fan: usize,
    k: int,
)
    requires
        0 <= k <= refs.len(),
    ensures
        reference_error(refs, sensors, fan, k) is None <==> forall|j: int|
            k <= j < refs.len() ==> sensor_named(
                sensors,
                sensors.len() as int,
                (#[trigger] refs[j])@,
            ),
    decreases refs.len() - k,
{
    if k < refs.len() {
        lemma_reference_error(refs, sensors, fan, k + 1);
    }
}

/// A configuration is refused exactly when it is not acceptable as a whole.
pub proof fn law_refused_iff_unacceptable(c: Config)
    ensures
        first_error(c) is None <==> acceptable(c),
{
    lemma_sensors_error(c.sensors@, 0);
    lemma_fans_error(c, 0);
    assert forall|i: int| 0 <= i < c.fans@.len() implies (curve_error(
        (#[trigger] c.fans@[i]).curve@,
        i as usize,
        0,
    ) is None <==> rising(c.fans@[i].curve@)) by {
        lemma_curve_error(c.fans@[i].curve@, i as usize, 0);
        assert(c.fans@[i].curve@.skip(0) == c.fans@[i].curve@);
    }
    assert forall|i: int| 0 <= i < c.fans@.len() implies (heat_error(
        (#[trigger] c.fans@[i]).curve@,
        i as usize,
        0,
    ) is None <==> forall|j: int|
        0 <= j < c.fans@[i].curve@.len() ==> (#[trigger] c.fans@[i].curve@[j]).temp
            <= MAX_CURVE_TEMP) by {
        lemma_heat_error(c.fans@[i].curve@, i as usize, 0);
    }
    assert forall|i: int| 0 <= i < c.fans@.len() implies (reference_error(
        (#[trigger] c.fans@[i]).sensors@,
        c.sensors@,
        i as usize,
        0,
    ) is None <==> forall|j: int|
        0 <= j < c.fans@[i].sensors@.len() ==> sensor_named(
            c.sensors@,
            c.sensors@.len() as int,
            (#[trigger] c.fans@[i].sensors@[j])@,
        )) by {
        lemma_reference_error(c.fans@[i].sensors@, c.sensors@, i as usize, 0);
    }
    if first_error(c) is None {
        assert forall|i: int, j: int| 0 <= i < j < c.sensors@.len() implies (
        #[trigger] c.sensors@[i]).name@ != (#[trigger] c.sensors@[j]).name@ by {
            assert(sensor_error(c.sensors@, j) is None);
        }
        assert forall|i: int| 0 <= i < c.sensors@.len() implies #[trigger] acceptable_sensor(
            c.sensors@[i],
        ) by {
            assert(sensor_error(c.sensors@, i) is None);
        }
        assert forall|i: int, j: int| 0 <= i < j < c.fans@.len() implies (
        #[trigger] c.fans@[i]).name@ != (#[trigger] c.fans@[j]).name@ && !same_channel(
            c.fans@[i],
            c.fans@[j],
        ) by {
            assert(fan_error(c, j) is None);
        }
        assert forall|i: int| 0 <= i < c.fans@.len() implies #[trigger] acceptable_fan(
            c.fans@[i],
            c.sensors@,
        ) by {
            assert(fan_error(c, i) is None);
        }
    }
    if acceptable(c) {
        assert forall|k: int| 0 <= k < c.sensors@.len() implies #[trigger] sensor_error(
            c.sensors@,
            k,
        ) is None by {
            assert(acceptable_sensor(c.sensors@[k]));
        }
        assert forall|k: int| 0 <= k < c.fans@.len() implies #[trigger] fan_error(c, k) is None by {
            assert(acceptable_fan(c.fans@[k], c.sensors@));
        }
    }
}

/// The default tuning settings break no rule.
pub proof fn law_default_tuning_accepted(t: TuningConfig)
    requires
        call_ensures(TuningConfig::default, (), t),
    ensures
        tuning_error(t) is None,
{
}

// ---- Messages ----

/// Whether the error's positions stand in `c`.
pub open spec fn points_into(e: ConfigError, c: Config) -> bool {
    match e {
        ConfigError::SensorUnnamed { sensor }
        | ConfigError::SensorWithoutHwmon { sensor }
        | ConfigError::SensorIndexZero { sensor }
        | ConfigError::SensorDuplicate { sensor } => sensor < c.sensors@.len(),
        ConfigError::FanUnnamed { fan }
        | ConfigError::FanWithoutHwmon { fan }
        | ConfigError::FanIndexZero { fan }
        | ConfigError::FanDuplicate { fan }
        | ConfigError::FanChannelShared { fan }
        | ConfigError::FanWithoutSensors { fan }
        | ConfigError::CurveTooShort { fan }
        | ConfigError::CurveNotAscending { fan }
        | ConfigError::CurvePwmDecreasing { fan } => fan < c.fans@.len(),
        ConfigError::CurveTooHot { fan, point } => fan < c.fans@.len() && point
            < c.fans@[fan as int].curve@.len(),
        ConfigError::UnknownSensor { fan, reference } => fan < c.fans@.len() && reference
            < c.fans@[fan as int].sensors@.len(),
        _ => true,
    }
}

proof fn lemma_sensors_point(c: Config, i: int)
    requires
        0 <= i,
    ensures
        sensors_error(c.sensors@, i) matches Some(e) ==> points_into(e, c),
    decreases c.sensors@.len() - i,
{
    assert(c.sensors@.len() == c.sensors.len());
    if i < c.sensors@.len() && sensor_error(c.sensors@, i) is None {
        lemma_sensors_point(c, i + 1);
    }
}

proof fn lemma_fan_point(c: Config, fan: usize, k: int)
    requires
        fan < c.fans@.len(),
        0 <= k,
    ensures
        curve_error(c.fans@[fan as int].curve@, fan, k) matches Some(e) ==> points_into(e, c),
        heat_error(c.fans@[fan as int].curve@, fan, k) matches Some(e) ==> points_into(e, c),
        reference_error(c.fans@[fan as int].sensors@, c.sensors@, fan, k) matches Some(e)
            ==> points_into(e, c),
    decreases c.fans@[fan as int].curve@.len() + c.fans@[fan as int].sensors@.len() - k,
{
    let f = c.fans@[fan as int];
    assert(f.curve@.len() == f.curve.len());
    assert(f.sensors@.len() == f.sensors.len());
    if k < f.curve@.len() + f.sensors@.len() {
        lemma_fan_point(c, fan, k + 1);
    }
}

proof fn lemma_fans_point(c: Config, i: int)
    requires
        0 <= i,
    ensures
        fans_error(c, i) matches Some(e) ==> points_into(e, c),
    decreases c.fans@.len() - i,
{
    assert(c.fans@.len() == c.fans.len());
    if i < c.fans@.len() {
        lemma_fan_point(c, i as usize, 0);
        lemma_fans_point(c, i + 1);
    }
}

/// The text that tells a user what `e` says of `c`.
pub open spec fn error_text(e: ConfigError, c: Config) -> Seq<char> {
    match e {
        ConfigError::NoSensors => "at least one sensor is required"@,
        ConfigError::NoFans => "at least one fan is required"@,
        ConfigError::ZeroPollInterval => "poll_interval_ms must be > 0"@,
        ConfigError::WindowTooSmall => "derivative window_size must be >= 2"@,
        ConfigError::BadBoostThreshold => "derivative boost_threshold must be finite and >= 0"@,
        ConfigError::BadDecayRate => "derivative decay_rate must be finite and >= 0"@,
        ConfigError::ZeroEwmaSpan => "tuning ewma_span must be > 0"@,
        ConfigError::ZeroCcfBuffer => "tuning ccf_buffer_size must be > 0"@,
        ConfigError::CcfMaxLagTooLarge => "tuning ccf_max_lag is too large"@,
        ConfigError::CcfBufferTooSmall => "tuning ccf_buffer_size must be at least ccf_max_lag + 10"@,
        ConfigError::ZeroStepThreshold => "tuning step_threshold must be > 0"@,
        ConfigError::ResponseWindowTooSmall => "tuning response_window must be >= 5"@,
        ConfigError::ZeroRegressionSamples => "tuning regression_min_samples must be > 0"@,
        ConfigError::SensorUnnamed { .. } => "sensor name must not be empty"@,
        ConfigError::FanUnnamed { .. } => "fan name must not be empty"@,
        ConfigError::SensorWithoutHwmon { sensor } => "sensor '"@ + c.sensors@[sensor as int].name@ + "' has empty hwmon"@,
        ConfigError::SensorIndexZero { sensor } => "sensor '"@ + c.sensors@[sensor as int].name@ + "' index must be > 0"@,
        ConfigError::SensorDuplicate { sensor } => "duplicate sensor name '"@ + c.sensors@[sensor as int].name@ + "'"@,
        ConfigError::FanWithoutHwmon { fan } => "fan '"@ + c.fans@[fan as int].name@ + "' has empty hwmon"@,
        ConfigError::FanIndexZero { fan } => "fan '"@ + c.fans@[fan as int].name@ + "' pwm_index must be > 0"@,
        ConfigError::FanDuplicate { fan } => "duplicate fan name '"@ + c.fans@[fan as int].name@ + "'"@,
        ConfigError::FanChannelShared { fan } => "fan '"@ + c.fans@[fan as int].name@ + "' shares its hwmon channel with another fan"@,
        ConfigError::FanWithoutSensors { fan } => "fan '"@ + c.fans@[fan as int].name@ + "' must reference at least one sensor"@,
        ConfigError::CurveTooShort { fan } => "fan '"@ + c.fans@[fan as int].name@ + "' curve must contain at least one point"@,
        ConfigError::CurveNotAscending { fan } => "fan '"@ + c.fans@[fan as int].name@ + "' curve must be sorted by ascending temperature"@,
        ConfigError::CurvePwmDecreasing { fan } => "fan '"@ + c.fans@[fan as int].name@ + "' curve PWM must be non-decreasing"@,
        ConfigError::CurveTooHot { fan, point } => "fan '"@ + c.fans@[fan as int].name@
            + "' curve temperature "@ + (text::decimal(c.fans@[fan as int].curve@[point as int].temp as nat)
            + "°C is outside the supported 0..=150°C range"@),
        ConfigError::UnknownSensor { fan, reference } => "fan '"@ + c.fans@[fan as int].name@
            + "' references unknown sensor '"@ + (c.fans@[fan as int].sensors@[reference as int]@
            + "'"@),
    }
}

impl ConfigError {
    /// The text that tells a user what the error says of `config`.
    pub fn message(&self, config: &Config) -> (r: String)
        requires
            points_into(*self, *config),
        ensures
            r@ == error_text(*self, *config),
    {
        match *self {
            ConfigError::NoSensors => "at least one sensor is required".to_owned(),
            ConfigError::NoFans => "at least one fan is required".to_owned(),
            ConfigError::ZeroPollInterval => "poll_interval_ms must be > 0".to_owned(),
            ConfigError::WindowTooSmall => "derivative window_size must be >= 2".to_owned(),
            ConfigError::BadBoostThreshold => "derivative boost_threshold must be finite and >= 0".to_owned(),
            ConfigError::BadDecayRate => "derivative decay_rate must be finite and >= 0".to_owned(),
            ConfigError::ZeroEwmaSpan => "tuning ewma_span must be > 0".to_owned(),
            ConfigError::ZeroCcfBuffer => "tuning ccf_buffer_size must be > 0".to_owned(),
            ConfigError::CcfMaxLagTooLarge => "tuning ccf_max_lag is too large".to_owned(),
            ConfigError::CcfBufferTooSmall => "tuning ccf_buffer_size must be at least ccf_max_lag + 10".to_owned(),
            ConfigError::ZeroStepThreshold => "tuning step_threshold must be > 0".to_owned(),
            ConfigError::ResponseWindowTooSmall => "tuning response_window must be >= 5".to_owned(),
            ConfigError::ZeroRegressionSamples => "tuning regression_min_samples must be > 0".to_owned(),
            ConfigError::SensorUnnamed { .. } => "sensor name must not be empty".to_owned(),
            ConfigError::FanUnnamed { .. } => "fan name must not be empty".to_owned(),
            ConfigError::SensorWithoutHwmon { sensor } => text::around(
                "sensor '",
                config.sensors[sensor].name.as_str(),
                "' has empty hwmon",
            ),
            ConfigError::SensorIndexZero { sensor } => text::around(
                "sensor '",
                config.sensors[sensor].name.as_str(),
                "' index must be > 0",
            ),
            ConfigError::SensorDuplicate { sensor } => text::around(
                "duplicate sensor name '",
                config.sensors[sensor].name.as_str(),
                "'",
            ),
            ConfigError::FanWithoutHwmon { fan } => text::around(
                "fan '",
                config.fans[fan].name.as_str(),
                "' has empty hwmon",
            ),
            ConfigError::FanIndexZero { fan } => text::around(
                "fan '",
                config.fans[fan].name.as_str(),
                "' pwm_index must be > 0",
            ),
            ConfigError::FanDuplicate { fan } => text::around(
                "duplicate fan name '",
                config.fans[fan].name.as_str(),
                "'",
            ),
            ConfigError::FanChannelShared { fan } => text::around(
                "fan '",
                config.fans[fan].name.as_str(),
                "' shares its hwmon channel with another fan",
            ),
            ConfigError::FanWithoutSensors { fan } => text::around(
                "fan '",
                config.fans[fan].name.as_str(),
                "' must reference at least one sensor",
            ),
            ConfigError::CurveTooShort { fan } => text::around(
                "fan '",
                config.fans[fan].name.as_str(),
                "' curve must contain at least one point",
            ),
            ConfigError::CurveNotAscending { fan } => text::around(
                "fan '",
                config.fans[fan].name.as_str(),
                "' curve must be sorted by ascending temperature",
            ),
            ConfigError::CurvePwmDecreasing { fan } => text::around(
                "fan '",
                config.fans[fan].name.as_str(),
                "' curve PWM must be non-decreasing",
            ),
            ConfigError::CurveTooHot { fan, point } => {
                let d = text::decimal_of(config.fans[fan].curve[point].temp as u64);
                let mut r = text::around(
                    "fan '",
                    config.fans[fan].name.as_str(),
                    "' curve temperature ",
                );
                let tail = text::around(
                    d.as_str(),
                    "°C is outside the supported 0..=150°C range",
                    "",
                );
                r.append(tail.as_str());
                proof {
                    reveal_strlit("");
                    assert(tail@ == d@ + "°C is outside the supported 0..=150°C range"@);
                }
                r
            },
            ConfigError::UnknownSensor { fan, reference } => {
                let f = &config.fans[fan];
                let mut r = text::around("fan '", f.name.as_str(), "' references unknown sensor '");
                r.append(f.sensors[reference].as_str());
                r.append("'");
                assert(r@ == error_text(*self, *config));
                r
            },
        }
    }
}

// ---- Loading ----

/// What is said where a Pkl file cannot be evaluated.
pub open spec fn unevaluated(what: Seq<char>, path: Seq<char>, cause: Seq<char>) -> Seq<char> {
    what + path + ": failed to evaluate Pkl "@ + path + ": "@ + cause
}

/// The text of `unevaluated`.
pub fn evaluation_failure(what: &str, path: &str, cause: &str) -> (r: String)
    ensures
        r@ == unevaluated(what@, path@, cause@),
{
    let mut r = text::around(what, path, ": failed to evaluate Pkl ");
    r.append(path);
    r.append(": ");
    r.append(cause);
    r
}

/// The configuration that evaluating the Pkl file at `path` gave, where it can be
/// accepted, or what is wrong with the file.
pub fn load(path: &str, evaluated: Result<Config, String>) -> (r: Result<Config, String>)
    ensures
        match evaluated {
            Err(cause) => {
                &&& r is Err
                &&& r->Err_0@ == unevaluated("failed to evaluate Pkl config: "@, path@, cause@)
            },
            Ok(config) => match first_error(config) {
                None => r == Ok::<Config, String>(config),
                Some(e) => r is Err && r->Err_0@ == error_text(e, config),
            },
        },
{
    match evaluated {
        Err(cause) => Err(
            evaluation_failure("failed to evaluate Pkl config: ", path, cause.as_str()),
        ),
        Ok(config) => match validate(&config) {
            Ok(_) => Ok(config),
            Err(e) => Err(e.message(&config)),
        },
    }
}

// ---- Laws ----

proof fn lemma_found_segment(curve: Seq<CurvePoint>, i: int, k: int, t: int)
    requires
        rising(curve),
        0 <= i <= k,
        k + 1 < curve.len(),
        curve[k].temp * 1000 <= t <= curve[k + 1].temp * 1000,
    ensures
        on_segments_from(curve, i, t) == on_segment(curve[k], curve[k + 1], t),
    decreases k - i,
{
    if i < k {
        if in_segment(curve, i, t) {
            if i + 1 < k {
                assert(curve[i + 1].temp < curve[k].temp);
            }
            assert(i + 1 == k && t == curve[k].temp * 1000);
            lemma_segments_through(curve, i, k);
            let w = (curve[k + 1].temp - curve[k].temp) * 1000;
            let rise = curve[k + 1].pwm - curve[k].pwm;
            assert(curve[k].temp < curve[k + 1].temp);
            assert(0 * rise == 0) by (nonlinear_arith);
            lemma_nearest_between(curve[k].pwm * w, w, curve[k].pwm as int, curve[k].pwm as int);
        } else {
            lemma_found_segment(curve, i + 1, k, t);
        }
    }
}

/// Between two neighbouring points the curve is the straight line from one to the
/// other, rounded to the nearest value, halves up: `w` times the value is no farther
/// than half of `w` from `w` times what the line has there.
pub proof fn law_curve_is_linear(curve: Seq<CurvePoint>, k: int, t: int)
    requires
        rising(curve),
        0 <= k,
        k + 1 < curve.len(),
        curve[k].temp * 1000 <= t <= curve[k + 1].temp * 1000,
    ensures
        ({
            let w = (curve[k + 1].temp - curve[k].temp) * 1000;
            let exact = curve[k].pwm * (curve[k + 1].temp * 1000 - t) + curve[k + 1].pwm * (t
                - curve[k].temp * 1000);
            -w < 2 * (w * curve_value(curve, t) - exact) <= w
        }),
{
    let lo = curve[k];
    let hi = curve[k + 1];
    assert(lo.temp < hi.temp);
    let w = (hi.temp - lo.temp) * 1000;
    let x = t - lo.temp * 1000;
    let exact = lo.pwm * (hi.temp * 1000 - t) + hi.pwm * (t - lo.temp * 1000);
    let num = lo.pwm * w + x * (hi.pwm - lo.pwm);
    let (p, q, y) = (lo.pwm as int, hi.pwm as int, hi.temp * 1000 - t);
    assert(p * w + x * (q - p) == p * y + q * x) by (nonlinear_arith)
        requires
            w == x + y,
    ;
    let v = nearest(num, w);
    assert(-w < 2 * (w * v - num) <= w) by (nonlinear_arith)
        requires
            w > 0,
            v == (2 * num + w) / (2 * w),
    ;
    lemma_found_segment(curve, 0, k, t);
    if t <= curve[0].temp * 1000 {
        if k > 0 {
            assert(curve[0].temp < curve[k].temp);
        }
        assert(x == 0);
        assert(0 * (q - p) == 0) by (nonlinear_arith);
        lemma_nearest_between(p * w, w, p, p);
    } else if t >= curve.last().temp * 1000 {
        if k + 1 < curve.len() - 1 {
            assert(curve[k + 1].temp < curve[curve.len() - 1].temp);
        }
        assert(x == w);
        assert(p * w + w * (q - p) == q * w) by (nonlinear_arith);
        lemma_nearest_between(q * w, w, q, q);
    }
}

/// Outside its points the curve is level.
pub proof fn law_curve_is_level_outside(curve: Seq<CurvePoint>, t: int)
    requires
        curve.len() > 0,
        rising(curve),
    ensures
        t <= curve[0].temp * 1000 ==> curve_value(curve, t) == curve[0].pwm,
        t >= curve[curve.len() - 1].temp * 1000 ==> curve_value(curve, t) == curve[curve.len()
            - 1].pwm,
{
    if curve.len() > 1 {
        assert(curve[0].temp < curve[curve.len() - 1].temp);
    }
}

/// A curve rises exactly where every point is hotter than the one before it and asks
/// for no less.
pub proof fn law_rising_by_neighbours(curve: Seq<CurvePoint>)
    ensures
        rising(curve) <==> forall|k: int|
            0 < k < curve.len() ==> curve[k - 1].temp < (#[trigger] curve[k]).temp && curve[k
                - 1].pwm <= curve[k].pwm,
{
    if forall|k: int|
        0 < k < curve.len() ==> curve[k - 1].temp < (#[trigger] curve[k]).temp && curve[k - 1].pwm
            <= curve[k].pwm {
        assert forall|i: int, j: int| 0 <= i < j < curve.len() implies (#[trigger] curve[i]).temp < (
        #[trigger] curve[j]).temp && curve[i].pwm <= curve[j].pwm by {
            lemma_rises(curve, i, j);
        }
    }
}

proof fn lemma_rises(curve: Seq<CurvePoint>, i: int, j: int)
    requires
        0 <= i < j < curve.len(),
        forall|k: int|
            0 < k < curve.len() ==> curve[k - 1].temp < (#[trigger] curve[k]).temp && curve[k
                - 1].pwm <= curve[k].pwm,
    ensures
        curve[i].temp < curve[j].temp,
        curve[i].pwm <= curve[j].pwm,
    decreases j - i,
{
    assert(curve[j - 1].temp < curve[j].temp);
    if i < j - 1 {
        lemma_rises(curve, i, j - 1);
    }
}

/// What an accepted configuration is, as a whole and at the `i`-th sensor or fan:
/// every rule that can be broken is kept there.
pub proof fn law_accepted_keeps_every_rule(c: Config, i: int, j: int)
    requires
        first_error(c) is None,
    ensures
        c.sensors@.len() > 0,
        c.fans@.len() > 0,
        c.poll_interval_ms > 0,
        c.derivative.window_size >= 2,
        c.derivative.boost_threshold.finite(),
        !c.derivative.boost_threshold.below(Scalar { bits: 0 }),
        c.derivative.decay_rate.finite(),
        !c.derivative.decay_rate.below(Scalar { bits: 0 }),
        c.tuning.ewma_span > 0,
        c.tuning.ccf_buffer_size >= c.tuning.ccf_max_lag + 10,
        c.tuning.step_threshold > 0,
        c.tuning.response_window >= 5,
        c.tuning.regression_min_samples > 0,
        0 <= i < c.sensors@.len() ==> {
            &&& !text::blank(c.sensors@[i].name@)
            &&& !text::blank(c.sensors@[i].hwmon@)
            &&& c.sensors@[i].index > 0
            &&& i < j < c.sensors@.len() ==> c.sensors@[i].name@ != c.sensors@[j].name@
        },
        0 <= i < c.fans@.len() ==> {
            let f = c.fans@[i];
            &&& !text::blank(f.name@)
            &&& !text::blank(f.hwmon@)
            &&& f.pwm_index > 0
            &&& f.sensors@.len() > 0
            &&& f.curve@.len() > 0
            &&& 0 <= j < f.sensors@.len() ==> exists|k: int|
                0 <= k < c.sensors@.len() && (#[trigger] c.sensors@[k]).name@ == f.sensors@[j]@
            &&& 0 <= j < f.curve@.len() ==> f.curve@[j].temp <= 150
            &&& 0 < j < f.curve@.len() ==> f.curve@[j - 1].temp < f.curve@[j].temp && f.curve@[j
                - 1].pwm <= f.curve@[j].pwm
            &&& i < j < c.fans@.len() ==> {
                let g = c.fans@[j];
                &&& f.name@ != g.name@
                &&& !(f.hwmon@ == g.hwmon@ && f.hwmon_instance == g.hwmon_instance && f.pwm_index
                    == g.pwm_index)
            }
        },
{
    law_refused_iff_unacceptable(c);
    if 0 <= i < c.sensors@.len() {
        assert(acceptable_sensor(c.sensors@[i]));
    }
    if 0 <= i < c.fans@.len() {
        assert(acceptable_fan(c.fans@[i], c.sensors@));
        let f = c.fans@[i];
        if 0 <= j < f.sensors@.len() {
            assert(sensor_named(c.sensors@, c.sensors@.len() as int, f.sensors@[j]@));
        }
    }
}

/// What a refusal says is so: the rule that it names is broken at the place that it
/// names. With the law above: a configuration is refused exactly where it breaks a
/// rule.
pub proof fn law_refusal_is_true(c: Config, e: ConfigError)
    requires
        first_error(c) == Some(e),
    ensures
        match e {
            ConfigError::NoSensors => c.sensors@.len() == 0,
            ConfigError::NoFans => c.fans@.len() == 0,
            ConfigError::ZeroPollInterval => c.poll_interval_ms == 0,
            ConfigError::WindowTooSmall => c.derivative.window_size < 2,
            ConfigError::BadBoostThreshold => !c.derivative.boost_threshold.finite()
                || c.derivative.boost_threshold.below(Scalar { bits: 0 }),
            ConfigError::BadDecayRate => !c.derivative.decay_rate.finite()
                || c.derivative.decay_rate.below(Scalar { bits: 0 }),
            ConfigError::ZeroEwmaSpan => c.tuning.ewma_span == 0,
            ConfigError::ZeroCcfBuffer => c.tuning.ccf_buffer_size == 0,
            ConfigError::CcfMaxLagTooLarge => c.tuning.ccf_max_lag + 10 > usize::MAX,
            ConfigError::CcfBufferTooSmall => c.tuning.ccf_buffer_size < c.tuning.ccf_max_lag + 10,
            ConfigError::ZeroStepThreshold => c.tuning.step_threshold == 0,
            ConfigError::ResponseWindowTooSmall => c.tuning.response_window < 5,
            ConfigError::ZeroRegressionSamples => c.tuning.regression_min_samples == 0,
            ConfigError::SensorUnnamed { sensor } => text::blank(c.sensors@[sensor as int].name@),
            ConfigError::SensorWithoutHwmon { sensor } => text::blank(
                c.sensors@[sensor as int].hwmon@,
            ),
            ConfigError::SensorIndexZero { sensor } => c.sensors@[sensor as int].index == 0,
            ConfigError::SensorDuplicate { sensor } => exists|k: int|
                0 <= k < sensor && (#[trigger] c.sensors@[k]).name@
                    == c.sensors@[sensor as int].name@,
            ConfigError::FanUnnamed { fan } => text::blank(c.fans@[fan as int].name@),
            ConfigError::FanWithoutHwmon { fan } => text::blank(c.fans@[fan as int].hwmon@),
            ConfigError::FanIndexZero { fan } => c.fans@[fan as int].pwm_index == 0,
            ConfigError::FanDuplicate { fan } => exists|k: int|
                0 <= k < fan && (#[trigger] c.fans@[k]).name@ == c.fans@[fan as int].name@,
            ConfigError::FanChannelShared { fan } => exists|k: int|
                {
                    &&& 0 <= k < fan
                    &&& (#[trigger] c.fans@[k]).hwmon@ == c.fans@[fan as int].hwmon@
                    &&& c.fans@[k].hwmon_instance == c.fans@[fan as int].hwmon_instance
                    &&& c.fans@[k].pwm_index == c.fans@[fan as int].pwm_index
                },
            ConfigError::FanWithoutSensors { fan } => c.fans@[fan as int].sensors@.len() == 0,
            ConfigError::CurveTooShort { fan } => c.fans@[fan as int].curve@.len() == 0,
            ConfigError::CurveNotAscending { fan } => exists|k: int|
                0 < k < c.fans@[fan as int].curve@.len() && c.fans@[fan as int].curve@[k - 1].temp
                    >= (#[trigger] c.fans@[fan as int].curve@[k]).temp,
            ConfigError::CurvePwmDecreasing { fan } => exists|k: int|
                0 < k < c.fans@[fan as int].curve@.len() && c.fans@[fan as int].curve@[k - 1].pwm
                    > (#[trigger] c.fans@[fan as int].curve@[k]).pwm,
            ConfigError::CurveTooHot { fan, point } => c.fans@[fan as int].curve@[point as int].temp
                > 150,
            ConfigError::UnknownSensor { fan, reference } => forall|k: int|
                0 <= k < c.sensors@.len() ==> (#[trigger] c.sensors@[k]).name@
                    != c.fans@[fan as int].sensors@[reference as int]@,
        },
        points_into(e, c),
{
    lemma_sensors_point(c, 0);
    lemma_fans_point(c, 0);
    if settings_error(c) is None {
        if sensors_error(c.sensors@, 0) is Some {
            lemma_sensor_refused(c, 0);
            let k = choose|k: int|
                0 <= k < c.sensors@.len() && k <= usize::MAX && #[trigger] sensor_error(
                    c.sensors@,
                    k,
                ) == sensors_error(c.sensors@, 0);
            assert(sensor_error(c.sensors@, k) == Some(e));
            if e is SensorDuplicate {
                let m = choose|m: int|
                    0 <= m < k && (#[trigger] c.sensors@[m]).name@ == c.sensors@[k].name@;
                assert(c.sensors@[m].name@ == c.sensors@[k].name@);
            }
        } else {
            lemma_fan_refused(c, 0);
            let k = choose|k: int|
                {
                    &&& 0 <= k < c.fans@.len()
                    &&& k <= usize::MAX
                    &&& #[trigger] fan_error(c, k) == Some(e)
                    &&& e matches ConfigError::CurveNotAscending { fan } ==> exists|m: int|
                        0 < m < c.fans@[k].curve@.len() && c.fans@[k].curve@[m - 1].temp >= (
                        #[trigger] c.fans@[k].curve@[m]).temp
                    &&& e matches ConfigError::CurvePwmDecreasing { fan } ==> exists|m: int|
                        0 < m < c.fans@[k].curve@.len() && c.fans@[k].curve@[m - 1].pwm > (
                        #[trigger] c.fans@[k].curve@[m]).pwm
                    &&& e matches ConfigError::CurveTooHot { fan, point }
                        ==> c.fans@[k].curve@[point as int].temp > 150
                    &&& e matches ConfigError::UnknownSensor { fan, reference }
                        ==> !sensor_named(
                        c.sensors@,
                        c.sensors@.len() as int,
                        c.fans@[k].sensors@[reference as int]@,
                    )
                    &&& fan_of(e) == Some(k as usize)
                };
            lemma_curve_refused(c.fans@[k].curve@, k as usize, 0);
            lemma_fan_error_kind(c, k, e);
        }
    }
}

proof fn lemma_sensor_refused(c: Config, i: int)
    requires
        0 <= i <= c.sensors@.len(),
        sensors_error(c.sensors@, i) is Some,
    ensures
        exists|k: int|
            i <= k < c.sensors@.len() && k <= usize::MAX && #[trigger] sensor_error(c.sensors@, k)
                == sensors_error(c.sensors@, i),
    decreases c.sensors@.len() - i,
{
    assert(c.sensors@.len() == c.sensors.len());
    if i < c.sensors@.len() {
        if sensor_error(c.sensors@, i) is Some {
            assert(sensor_error(c.sensors@, i) == sensors_error(c.sensors@, i));
        } else {
            lemma_sensor_refused(c, i + 1);
            let k = choose|k: int|
                i + 1 <= k < c.sensors@.len() && k <= usize::MAX && #[trigger] sensor_error(
                    c.sensors@,
                    k,
                ) == sensors_error(c.sensors@, i + 1);
            assert(sensor_error(c.sensors@, k) == sensors_error(c.sensors@, i));
        }
    }
}

proof fn lemma_fan_refused(c: Config, i: int)
    requires
        0 <= i <= c.fans@.len(),
        fans_error(c, i) is Some,
    ensures
        ({
            let e = fans_error(c, i)->0;
            exists|k: int|
                {
                    &&& i <= k < c.fans@.len()
                    &&& k <= usize::MAX
                    &&& #[trigger] fan_error(c, k) == Some(e)
                    &&& e matches ConfigError::CurveNotAscending { fan } ==> exists|m: int|
                        0 < m < c.fans@[k].curve@.len() && c.fans@[k].curve@[m - 1].temp >= (
                        #[trigger] c.fans@[k].curve@[m]).temp
                    &&& e matches ConfigError::CurvePwmDecreasing { fan } ==> exists|m: int|
                        0 < m < c.fans@[k].curve@.len() && c.fans@[k].curve@[m - 1].pwm > (
                        #[trigger] c.fans@[k].curve@[m]).pwm
                    &&& e matches ConfigError::CurveTooHot { fan, point }
                        ==> c.fans@[k].curve@[point as int].temp > 150
                    &&& e matches ConfigError::UnknownSensor { fan, reference }
                        ==> !sensor_named(
                        c.sensors@,
                        c.sensors@.len() as int,
                        c.fans@[k].sensors@[reference as int]@,
                    )
                    &&& fan_of(e) == Some(k as usize)
                }
        }),
    decreases c.fans@.len() - i,
{
    assert(c.fans@.len() == c.fans.len());
    if i < c.fans@.len() {
        if fan_error(c, i) is Some {
            let f = c.fans@[i];
            assert(f.curve@.len() == f.curve.len());
            assert(f.sensors@.len() == f.sensors.len());
            lemma_curve_refused(f.curve@, i as usize, 0);
            lemma_heat_refused(f.curve@, i as usize, 0);
            lemma_reference_refused(f.sensors@, c.sensors@, i as usize, 0);
            assert(fan_error(c, i) == fans_error(c, i));
        } else {
            lemma_fan_refused(c, i + 1);
        }
    }
}

proof fn lemma_fan_error_kind(c: Config, k: int, e: ConfigError)
    requires
        0 <= k < c.fans@.len(),
        k <= usize::MAX,
        fan_error(c, k) == Some(e),
    ensures
        match e {
            ConfigError::FanUnnamed { .. } => text::blank(c.fans@[k].name@),
            ConfigError::FanWithoutHwmon { .. } => text::blank(c.fans@[k].hwmon@),
            ConfigError::FanIndexZero { .. } => c.fans@[k].pwm_index == 0,
            ConfigError::FanDuplicate { .. } => exists|m: int|
                0 <= m < k && (#[trigger] c.fans@[m]).name@ == c.fans@[k].name@,
            ConfigError::FanChannelShared { .. } => exists|m: int|
                {
                    &&& 0 <= m < k
                    &&& (#[trigger] c.fans@[m]).hwmon@ == c.fans@[k].hwmon@
                    &&& c.fans@[m].hwmon_instance == c.fans@[k].hwmon_instance
                    &&& c.fans@[m].pwm_index == c.fans@[k].pwm_index
                },
            ConfigError::FanWithoutSensors { .. } => c.fans@[k].sensors@.len() == 0,
            ConfigError::CurveTooShort { .. } => c.fans@[k].curve@.len() == 0,
            ConfigError::CurveNotAscending { .. }
            | ConfigError::CurvePwmDecreasing { .. }
            | ConfigError::CurveTooHot { .. }
            | ConfigError::UnknownSensor { .. } => true,
            _ => false,
        },
{
    let f = c.fans@[k];
    assert(f.curve@.len() == f.curve.len());
    assert(f.sensors@.len() == f.sensors.len());
    lemma_curve_refused(f.curve@, k as usize, 0);
    lemma_heat_refused(f.curve@, k as usize, 0);
    lemma_reference_refused(f.sensors@, c.sensors@, k as usize, 0);
    if exists|m: int| 0 <= m < k && same_channel(#[trigger] c.fans@[m], f) {
        let m = choose|m: int| 0 <= m < k && same_channel(#[trigger] c.fans@[m], f);
        assert(c.fans@[m].hwmon@ == f.hwmon@);
    }
}

/// The fan that an error is about.
spec fn fan_of(e: ConfigError) -> Option<usize> {
    match e {
        ConfigError::FanUnnamed { fan }
        | ConfigError::FanWithoutHwmon { fan }
        | ConfigError::FanIndexZero { fan }
        | ConfigError::FanDuplicate { fan }
        | ConfigError::FanChannelShared { fan }
        | ConfigError::FanWithoutSensors { fan }
        | ConfigError::CurveTooShort { fan }
        | ConfigError::CurveNotAscending { fan }
        | ConfigError::CurvePwmDecreasing { fan }
        | ConfigError::CurveTooHot { fan, .. }
        | ConfigError::UnknownSensor { fan, .. } => Some(fan),
        _ => None,
    }
}

proof fn lemma_curve_refused(curve: Seq<CurvePoint>, fan: usize, k: int)
    requires
        0 <= k,
    ensures
        match curve_error(curve, fan, k) {
            None => true,
            Some(ConfigError::CurveNotAscending { fan: f }) => f == fan && exists|m: int|
                0 < m < curve.len() && curve[m - 1].temp >= (#[trigger] curve[m]).temp,
            Some(ConfigError::CurvePwmDecreasing { fan: f }) => f == fan && exists|m: int|
                0 < m < curve.len() && curve[m - 1].pwm > (#[trigger] curve[m]).pwm,
            _ => false,
        },
    decreases curve.len() - k,
{
    if k + 1 < curve.len() {
        lemma_curve_refused(curve, fan, k + 1);
        assert(curve[k + 1] == curve[k + 1]);
    }
}

proof fn lemma_heat_refused(curve: Seq<CurvePoint>, fan: usize, k: int)
    requires
        0 <= k,
        curve.len() <= usize::MAX,
    ensures
        match heat_error(curve, fan, k) {
            None => true,
            Some(ConfigError::CurveTooHot { fan: f, point }) => f == fan && point < curve.len()
                && curve[point as int].temp > 150,
            _ => false,
        },
    decreases curve.len() - k,
{
    if k < curve.len() {
        lemma_heat_refused(curve, fan, k + 1);
    }
}

proof fn lemma_reference_refused(
    refs: Seq<String>,
    sensors: Seq<SensorConfig>,
    fan: usize,
    k: int,
)
    requires
        0 <= k,
        refs.len() <= usize::MAX,
    ensures
        match reference_error(refs, sensors, fan, k) {
            None => true,
            Some(ConfigError::UnknownSensor { fan: f, reference }) => f == fan && reference
                < refs.len() && !sensor_named(
                sensors,
                sensors.len() as int,
                refs[reference as int]@,
            ),
            _ => false,
        },
    decreases refs.len() - k,
{
    if k < refs.len() {
        lemma_reference_refused(refs, sensors, fan, k + 1);
    }
}

} // verus!
