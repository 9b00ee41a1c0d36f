//! Firmware fan curves for `asusd`: the configuration, its rules, and the form
//! in which a curve goes over the bus.
use crate::config::{evaluation_failure, unevaluated};
use crate::text;
use vstd::prelude::*;

verus! {

/// A curve as the bus carries it: fan name, PWM values, temperatures, enabled.
pub type WireCurve = (String, [u8; 8], [u8; 8], bool);

/// The hottest temperature, in °C, that a firmware curve may have.
pub const MAX_FIRMWARE_TEMP: u32 = 100;

/// The curves to store, profile by profile.
#[derive(Debug, Clone)]
pub struct Config {
    pub profiles: Vec<ProfileConfig>,
}

/// The curves of one platform profile.
#[derive(Debug, Clone)]
pub struct ProfileConfig {
    pub name: String,
    pub curves: Vec<CurveConfig>,
}

/// The curve of one fan.
#[derive(Debug, Clone)]
pub struct CurveConfig {
    pub fan: String,
    pub temp: Vec<u32>,
    pub pwm: Vec<u32>,
    pub enabled: bool,
}

/// A platform profile.
#[derive(Debug, Clone, Copy, PartialEq, Eq, Hash, Structural)]
pub enum Profile {
    Balanced,
    Performance,
    Quiet,
    LowPower,
    Custom,
}

/// A fan that the firmware controls.
#[derive(Debug, Clone, Copy, PartialEq, Eq, Hash, Structural)]
pub enum Fan {
    Cpu,
    Gpu,
    Mid,
}

/// A name as it is compared: trimmed, ASCII letters small.
pub open spec fn normalized(s: Seq<char>) -> Seq<char> {
    text::ascii_lowered(text::trimmed(s))
}

/// The profile that a user means by `s`.
pub open spec fn profile_named(s: Seq<char>) -> Option<Profile> {
    let n = normalized(s);
    if n == "balanced"@ {
        Some(Profile::Balanced)
    } else if n == "performance"@ {
        Some(Profile::Performance)
    } else if n == "quiet"@ {
        Some(Profile::Quiet)
    } else if n == "lowpower"@ || n == "low-power"@ || n == "low_power"@ {
        Some(Profile::LowPower)
    } else if n == "custom"@ {
        Some(Profile::Custom)
    } else {
        None
    }
}

/// The fan that a user, or the bus, means by `s`.
pub open spec fn fan_named(s: Seq<char>) -> Option<Fan> {
    let n = normalized(s);
    if n == "cpu"@ {
        Some(Fan::Cpu)
    } else if n == "gpu"@ {
        Some(Fan::Gpu)
    } else if n == "mid"@ {
        Some(Fan::Mid)
    } else {
        None
    }
}

fn normalize(value: &str) -> (r: String)
    ensures
        r@ == normalized(value@),
{
    let t = text::trim(value);
    text::to_ascii_lowercase(t.as_str())
}

impl Profile {
    /// The profile's name.
    pub open spec fn label(self) -> Seq<char> {
        match self {
            Profile::Balanced => "balanced"@,
            Profile::Performance => "performance"@,
            Profile::Quiet => "quiet"@,
            Profile::LowPower => "low_power"@,
            Profile::Custom => "custom"@,
        }
    }

    /// The number by which the bus knows the profile.
    pub open spec fn number(self) -> u32 {
        match self {
            Profile::Balanced => 0,
            Profile::Performance => 1,
            Profile::Quiet => 2,
            Profile::LowPower => 3,
            Profile::Custom => 4,
        }
    }

    /// Reads a profile's name, in any case and with surrounding white space.
    pub fn parse(value: &str) -> (r: Result<Self, String>)
        ensures
            match r {
                Ok(p) => profile_named(value@) == Some(p),
                Err(m) => profile_named(value@) is None && m@ == "unknown asusd profile '"@ + value@
                    + "'"@,
            },
    {
        let n = normalize(value);
        let n = n.as_str();
        if text::same(n, "balanced") {
            Ok(Profile::Balanced)
        } else if text::same(n, "performance") {
            Ok(Profile::Performance)
        } else if text::same(n, "quiet") {
            Ok(Profile::Quiet)
        } else if text::same(n, "lowpower") || text::same(n, "low-power") || text::same(
            n,
            "low_power",
        ) {
            Ok(Profile::LowPower)
        } else if text::same(n, "custom") {
            Ok(Profile::Custom)
        } else {
            Err(text::around("unknown asusd profile '", value, "'"))
        }
    }

    /// The profile's name.
    pub fn name(self) -> (r: &'static str)
        ensures
            r@ == self.label(),
    {
        match self {
            Profile::Balanced => "balanced",
            Profile::Performance => "performance",
            Profile::Quiet => "quiet",
            Profile::LowPower => "low_power",
            Profile::Custom => "custom",
        }
    }

    /// The number by which the bus knows the profile.
    pub fn id(self) -> (r: u32)
        ensures
            r == self.number(),
    {
        match self {
            Profile::Balanced => 0,
            Profile::Performance => 1,
            Profile::Quiet => 2,
            Profile::LowPower => 3,
            Profile::Custom => 4,
        }
    }

    /// The profile that the bus knows by `value`.
    pub fn from_id(value: u32) -> (r: Result<Self, String>)
        ensures
            match r {
                Ok(p) => p.number() == value,
                Err(m) => value > 4 && m@ == "asusd returned unknown platform profile "@
                    + text::decimal(value as nat),
            },
    {
        match value {
            0 => Ok(Profile::Balanced),
            1 => Ok(Profile::Performance),
            2 => Ok(Profile::Quiet),
            3 => Ok(Profile::LowPower),
            4 => Ok(Profile::Custom),
            _ => {
                let d = text::decimal_of(value as u64);
                Err("asusd returned unknown platform profile ".to_owned().concat(d.as_str()))
            },
        }
    }
}

impl Fan {
    /// The fan's name.
    pub open spec fn label(self) -> Seq<char> {
        match self {
            Fan::Cpu => "CPU"@,
            Fan::Gpu => "GPU"@,
            Fan::Mid => "MID"@,
        }
    }

    /// Reads a fan's name, in any case and with surrounding white space.
    pub fn parse(value: &str) -> (r: Result<Self, String>)
        ensures
            match r {
                Ok(f) => fan_named(value@) == Some(f),
                Err(m) => fan_named(value@) is None && m@ == "unknown asusd fan '"@ + value@
                    + "'"@,
            },
    {
        let n = normalize(value);
        let n = n.as_str();
        if text::same(n, "cpu") {
            Ok(Fan::Cpu)
        } else if text::same(n, "gpu") {
            Ok(Fan::Gpu)
        } else if text::same(n, "mid") {
            Ok(Fan::Mid)
        } else {
            Err(text::around("unknown asusd fan '", value, "'"))
        }
    }

    /// The fan's name.
    pub fn name(self) -> (r: &'static str)
        ensures
            r@ == self.label(),
    {
        match self {
            Fan::Cpu => "CPU",
            Fan::Gpu => "GPU",
            Fan::Mid => "MID",
        }
    }
}

proof fn lemma_lowercase_kept(s: Seq<char>)
    requires
        s.len() > 0,
        forall|i: int| 0 <= i < s.len() ==> ('a' <= #[trigger] s[i] && s[i] <= 'z') || s[i] == '_',
    ensures
        normalized(s) == s,
{
    assert(text::trimmed(s) == s);
    assert(text::ascii_lowered(s) == s);
}

/// Every profile is found again by its name and by its number, and no two
/// profiles share a number.
pub proof fn law_profile_round_trip(p: Profile, q: Profile)
    ensures
        profile_named(p.label()) == Some(p),
        p.number() == q.number() ==> p == q,
        p.number() <= 4,
{
    reveal_strlit("balanced");
    reveal_strlit("performance");
    reveal_strlit("quiet");
    reveal_strlit("lowpower");
    reveal_strlit("low-power");
    reveal_strlit("low_power");
    reveal_strlit("custom");
    lemma_lowercase_kept(p.label());
    assert("custom"@[0] != "quiet"@[0]);
}

/// Every fan is found again by its name.
pub proof fn law_fan_round_trip(f: Fan)
    ensures
        fan_named(f.label()) == Some(f),
{
    reveal_strlit("cpu");
    reveal_strlit("gpu");
    reveal_strlit("mid");
    reveal_strlit("CPU");
    reveal_strlit("GPU");
    reveal_strlit("MID");
    let s = f.label();
    assert(text::trimmed(s) == s);
    assert(text::ascii_lowered("CPU"@) == "cpu"@);
    assert(text::ascii_lowered("GPU"@) == "gpu"@);
    assert(text::ascii_lowered("MID"@) == "mid"@);
    assert("cpu"@[0] != "gpu"@[0] && "cpu"@[0] != "mid"@[0] && "gpu"@[0] != "mid"@[0]);
}

// ---- The wire form ----

/// Whether every value fits a byte.
pub open spec fn all_bytes(v: Seq<u32>) -> bool {
    forall|i: int| 0 <= i < v.len() ==> #[trigger] v[i] <= 255
}

/// Whether `bytes` are the numbers `v`.
pub open spec fn same_numbers(bytes: Seq<u8>, v: Seq<u32>) -> bool {
    bytes.len() == v.len() && forall|i: int| 0 <= i < v.len() ==> #[trigger] bytes[i] == v[i]
}

/// Why a curve has no wire form, if it has none.
pub open spec fn wire_error(c: CurveConfig) -> Option<Seq<char>> {
    if fan_named(c.fan@) is None {
        Some("unknown asusd fan '"@ + c.fan@ + "'"@)
    } else if !all_bytes(c.temp@) {
        Some("out of range integral type conversion attempted"@)
    } else if c.temp@.len() != 8 {
        Some("fan '"@ + c.fan@ + "' must have exactly 8 temperatures"@)
    } else if !all_bytes(c.pwm@) {
        Some("out of range integral type conversion attempted"@)
    } else if c.pwm@.len() != 8 {
        Some("fan '"@ + c.fan@ + "' must have exactly 8 PWM values"@)
    } else {
        None
    }
}

/// Whether `w` is the wire form of `c`: the fan's canonical name and the
/// configured numbers, unscaled.
pub open spec fn is_wire_form(w: WireCurve, c: CurveConfig) -> bool {
    &&& fan_named(c.fan@) matches Some(f) && w.0@ == f.label()
    &&& same_numbers(w.1@, c.pwm@)
    &&& same_numbers(w.2@, c.temp@)
    &&& w.3 == c.enabled
}

fn are_bytes(v: &Vec<u32>) -> (r: bool)
    ensures
        r == all_bytes(v@),
{
    for i in 0..v.len()
        invariant
            forall|j: int| 0 <= j < i ==> #[trigger] v@[j] <= 255,
    {
        if v[i] > 255 {
            return false;
        }
    }
    true
}

fn eight_bytes(v: &Vec<u32>) -> (r: [u8; 8])
    requires
        v.len() == 8,
        all_bytes(v@),
    ensures
        same_numbers(r@, v@),
{
    [
        v[0] as u8,
        v[1] as u8,
        v[2] as u8,
        v[3] as u8,
        v[4] as u8,
        v[5] as u8,
        v[6] as u8,
        v[7] as u8,
    ]
}

impl CurveConfig {
    /// The curve as the bus carries it.
    pub fn wire(&self) -> (r: Result<WireCurve, String>)
        ensures
            match r {
                Ok(w) => wire_error(*self) is None && is_wire_form(w, *self),
                Err(m) => wire_error(*self) == Some(m@),
            },
    {
        let fan = match Fan::parse(self.fan.as_str()) {
            Ok(fan) => fan,
            Err(m) => {
                return Err(m);
            },
        };
        if !are_bytes(&self.temp) {
            return Err("out of range integral type conversion attempted".to_owned());
        }
        if self.temp.len() != 8 {
            return Err(
                text::around("fan '", self.fan.as_str(), "' must have exactly 8 temperatures"),
            );
        }
        if !are_bytes(&self.pwm) {
            return Err("out of range integral type conversion attempted".to_owned());
        }
        if self.pwm.len() != 8 {
            return Err(text::around("fan '", self.fan.as_str(), "' must have exactly 8 PWM values"));
        }
        let temp = eight_bytes(&self.temp);
        let pwm = eight_bytes(&self.pwm);
        Ok((fan.name().to_owned(), pwm, temp, self.enabled))
    }
}

/// A curve is enabled unless its configuration says otherwise.
pub fn enabled_by_default() -> (r: bool)
    ensures
        r,
{
    true
}

// ---- Validation ----

/// Why a configuration is refused; `profile` and `curve` are positions in its
/// own lists.
#[derive(Debug, Clone, Copy, PartialEq, Eq, Structural)]
pub enum ConfigError {
    NoProfiles,
    UnknownProfile { profile: usize },
    DuplicateProfile { profile: usize },
    NoCurves { profile: usize },
    UnknownFan { profile: usize, curve: usize },
    DuplicateFan { profile: usize, curve: usize },
    TemperatureCount { profile: usize, curve: usize },
    PwmCount { profile: usize, curve: usize },
    TemperatureTooHigh { profile: usize, curve: usize },
    PwmTooHigh { profile: usize, curve: usize },
    TemperaturesDecrease { profile: usize, curve: usize },
    PwmDecreases { profile: usize, curve: usize },
}

/// Whether no value exceeds `max`.
pub open spec fn all_at_most(v: Seq<u32>, max: u32) -> bool {
    forall|i: int| 0 <= i < v.len() ==> #[trigger] v[i] <= max
}

/// Whether the values never fall.
pub open spec fn never_falls(v: Seq<u32>) -> bool {
    forall|i: int, j: int| 0 <= i <= j < v.len() ==> #[trigger] v[i] <= #[trigger] v[j]
}

/// The first rule that the `j`-th curve of the `i`-th profile breaks.
pub open spec fn curve_error(curves: Seq<CurveConfig>, i: int, j: int) -> Option<ConfigError> {
    let c = curves[j];
    let profile = i as usize;
    let curve = j as usize;
    if fan_named(c.fan@) is None {
        Some(ConfigError::UnknownFan { profile, curve })
    } else if exists|k: int| 0 <= k < j && fan_named((#[trigger] curves[k]).fan@) == fan_named(c.fan@) {
        Some(ConfigError::DuplicateFan { profile, curve })
    } else if c.temp@.len() != 8 {
        Some(ConfigError::TemperatureCount { profile, curve })
    } else if c.pwm@.len() != 8 {
        Some(ConfigError::PwmCount { profile, curve })
    } else if !all_at_most(c.temp@, MAX_FIRMWARE_TEMP) {
        Some(ConfigError::TemperatureTooHigh { profile, curve })
    } else if !all_at_most(c.pwm@, 255) {
        Some(ConfigError::PwmTooHigh { profile, curve })
    } else if !never_falls(c.temp@) {
        Some(ConfigError::TemperaturesDecrease { profile, curve })
    } else if !never_falls(c.pwm@) {
        Some(ConfigError::PwmDecreases { profile, curve })
    } else {
        None
    }
}

/// The first rule that a curve of the `i`-th profile from the `j`-th on breaks.
pub open spec fn curves_error(curves: Seq<CurveConfig>, i: int, j: int) -> Option<ConfigError>
    decreases curves.len() - j,
{
    if j >= curves.len() {
        None
    } else if curve_error(curves, i, j) is Some {
        curve_error(curves, i, j)
    } else {
        curves_error(curves, i, j + 1)
    }
}

/// The first rule that the `i`-th profile breaks.
pub open spec fn profile_error(profiles: Seq<ProfileConfig>, i: int) -> Option<ConfigError> {
    let p = profiles[i];
    let profile = i as usize;
    if profile_named(p.name@) is None {
        Some(ConfigError::UnknownProfile { profile })
    } else if exists|k: int|
        0 <= k < i && profile_named((#[trigger] profiles[k]).name@) == profile_named(p.name@) {
        Some(ConfigError::DuplicateProfile { profile })
    } else if p.curves@.len() == 0 {
        Some(ConfigError::NoCurves { profile })
    } else {
        curves_error(p.curves@, i, 0)
    }
}

/// The first rule that a profile from the `i`-th on breaks.
pub open spec fn profiles_error(profiles: Seq<ProfileConfig>, i: int) -> Option<ConfigError>
    decreases profiles.len() - i,
{
    if i >= profiles.len() {
        None
    } else if profile_error(profiles, i) is Some {
        profile_error(profiles, i)
    } else {
        profiles_error(profiles, i + 1)
    }
}

/// The first rule that the configuration breaks.
pub open spec fn first_error(c: Config) -> Option<ConfigError> {
    if c.profiles@.len() == 0 {
        Some(ConfigError::NoProfiles)
    } else {
        profiles_error(c.profiles@, 0)
    }
}

fn are_at_most(v: &Vec<u32>, max: u32) -> (r: bool)
    ensures
        r == all_at_most(v@, max),
{
    for i in 0..v.len()
        invariant
            forall|j: int| 0 <= j < i ==> #[trigger] v@[j] <= max,
    {
        if v[i] > max {
            return false;
        }
    }
    true
}

fn is_never_falling(v: &Vec<u32>) -> (r: bool)
    ensures
        r == never_falls(v@),
{
    for i in 0..v.len()
        invariant
            forall|a: int, b: int| 0 <= a <= b < i ==> #[trigger] v@[a] <= #[trigger] v@[b],
    {
        if i > 0 && v[i - 1] > v[i] {
            return false;
        }
        assert forall|a: int, b: int| 0 <= a <= b < i + 1 implies #[trigger] v@[a]
            <= #[trigger] v@[b] by {
            if b == i && a < i {
                assert(v@[a] <= v@[i - 1]);
            }
        }
    }
    true
}

fn check_curve(
    curves: &Vec<CurveConfig>,
    i: usize,
    j: usize,
    seen: &mut Vec<Fan>,
) -> (r: Option<ConfigError>)
    requires
        j < curves.len(),
        old(seen)@.len() == j,
        forall|k: int|
            0 <= k < j ==> fan_named((#[trigger] curves@[k]).fan@) == Some(old(seen)@[k]),
    ensures
        r == curve_error(curves@, i as int, j as int),
        r is None ==> final(seen)@.len() == j + 1 && forall|k: int|
            0 <= k <= j ==> fan_named((#[trigger] curves@[k]).fan@) == Some(final(seen)@[k]),
{
    let c = &curves[j];
    let profile = i;
    let curve = j;
    let fan = match Fan::parse(c.fan.as_str()) {
        Ok(fan) => fan,
        Err(_) => {
            return Some(ConfigError::UnknownFan { profile, curve });
        },
    };
    for k in 0..seen.len()
        invariant
            j < curves.len(),
            seen@ == old(seen)@,
            seen@.len() == j,
            fan_named(curves@[j as int].fan@) == Some(fan),
            forall|m: int| 0 <= m < j ==> fan_named((#[trigger] curves@[m]).fan@) == Some(seen@[m]),
            forall|m: int| 0 <= m < k ==> seen@[m] != fan,
            c == &curves@[j as int],
            profile == i,
            curve == j,
    {
        if seen[k] == fan {
            assert(fan_named(curves@[k as int].fan@) == fan_named(c.fan@));
            return Some(ConfigError::DuplicateFan { profile, curve });
        }
    }
    seen.push(fan);
    if c.temp.len() != 8 {
        return Some(ConfigError::TemperatureCount { profile, curve });
    }
    if c.pwm.len() != 8 {
        return Some(ConfigError::PwmCount { profile, curve });
    }
    if !are_at_most(&c.temp, MAX_FIRMWARE_TEMP) {
        return Some(ConfigError::TemperatureTooHigh { profile, curve });
    }
    if !are_at_most(&c.pwm, 255) {
        return Some(ConfigError::PwmTooHigh { profile, curve });
    }
    if !is_never_falling(&c.temp) {
        return Some(ConfigError::TemperaturesDecrease { profile, curve });
    }
    if !is_never_falling(&c.pwm) {
        return Some(ConfigError::PwmDecreases { profile, curve });
    }
    None
}

fn check_curves(curves: &Vec<CurveConfig>, i: usize) -> (r: Option<ConfigError>)
    ensures
        r == curves_error(curves@, i as int, 0),
{
    let mut seen: Vec<Fan> = Vec::new();
    for j in 0..curves.len()
        invariant
            seen@.len() == j,
            forall|k: int| 0 <= k < j ==> fan_named((#[trigger] curves@[k]).fan@) == Some(seen@[k]),
            curves_error(curves@, i as int, 0) == curves_error(curves@, i as int, j as int),
    {
        let e = check_curve(curves, i, j, &mut seen);
        if e.is_some() {
            return e;
        }
    }
    None
}

/// Accepts the configuration, or names the first rule that it breaks.
pub fn validate(config: &Config) -> (r: Result<(), ConfigError>)
    ensures
        match r {
            Ok(_) => first_error(*config) is None,
            Err(e) => first_error(*config) == Some(e) && points_into(e, *config),
        },
{
    proof {
        lemma_profiles_point(*config, 0);
    }
    if config.profiles.len() == 0 {
        return Err(ConfigError::NoProfiles);
    }
    let mut seen: Vec<Profile> = Vec::new();
    for i in 0..config.profiles.len()
        invariant
            config.profiles@.len() > 0,
            seen@.len() == i,
            forall|k: int|
                0 <= k < i ==> profile_named((#[trigger] config.profiles@[k]).name@) == Some(
                    seen@[k],
                ),
            profiles_error(config.profiles@, 0) matches Some(e) ==> points_into(e, *config),
            profiles_error(config.profiles@, 0) == profiles_error(config.profiles@, i as int),
    {
        let p = &config.profiles[i];
        let profile = match Profile::parse(p.name.as_str()) {
            Ok(profile) => profile,
            Err(_) => {
                return Err(ConfigError::UnknownProfile { profile: i });
            },
        };
        for k in 0..seen.len()
            invariant
                i < config.profiles@.len(),
                p == &config.profiles@[i as int],
                seen@.len() == i,
                profile_named(config.profiles@[i as int].name@) == Some(profile),
                forall|m: int|
                    0 <= m < i ==> profile_named((#[trigger] config.profiles@[m]).name@) == Some(
                        seen@[m],
                    ),
                forall|m: int| 0 <= m < k ==> seen@[m] != profile,
                profiles_error(config.profiles@, 0) matches Some(e) ==> points_into(e, *config),
                profiles_error(config.profiles@, 0) == profiles_error(config.profiles@, i as int),
        {
            if seen[k] == profile {
                assert(profile_named(config.profiles@[k as int].name@) == profile_named(p.name@));
                return Err(ConfigError::DuplicateProfile { profile: i });
            }
        }
        seen.push(profile);
        if p.curves.len() == 0 {
            return Err(ConfigError::NoCurves { profile: i });
        }
        if let Some(e) = check_curves(&p.curves, i) {
            return Err(e);
        }
    }
    Ok(())
}

/// Every curve of an accepted configuration has a wire form that carries the
/// configured numbers unchanged; its profile and fan are known, and neither
/// occurs twice.
pub proof fn law_accepted_curves_have_wire_form(c: Config, i: int, j: int)
    requires
        first_error(c) is None,
        0 <= i < c.profiles@.len(),
        0 <= j < c.profiles@[i].curves@.len(),
    ensures
        wire_error(c.profiles@[i].curves@[j]) is None,
        profile_named(c.profiles@[i].name@) is Some,
        fan_named(c.profiles@[i].curves@[j].fan@) is Some,
        never_falls(c.profiles@[i].curves@[j].temp@),
        never_falls(c.profiles@[i].curves@[j].pwm@),
        all_at_most(c.profiles@[i].curves@[j].temp@, MAX_FIRMWARE_TEMP),
        forall|k: int|
            0 <= k < i ==> profile_named((#[trigger] c.profiles@[k]).name@) != profile_named(
                c.profiles@[i].name@,
            ),
        forall|k: int|
            0 <= k < j ==> fan_named((#[trigger] c.profiles@[i].curves@[k]).fan@) != fan_named(
                c.profiles@[i].curves@[j].fan@,
            ),
{
    lemma_profile_passes(c.profiles@, 0, i);
    lemma_curve_passes(c.profiles@[i].curves@, i, 0, j);
    let t = c.profiles@[i].curves@[j].temp@;
    assert forall|k: int| 0 <= k < t.len() implies #[trigger] t[k] <= 255 by {
        assert(t[k] <= MAX_FIRMWARE_TEMP);
    }
}

/// Every profile of an accepted configuration is known.
pub proof fn law_accepted_profile(c: Config, i: int)
    requires
        first_error(c) is None,
        0 <= i < c.profiles@.len(),
    ensures
        profile_named(c.profiles@[i].name@) is Some,
{
    lemma_profile_passes(c.profiles@, 0, i);
}

proof fn lemma_profile_passes(profiles: Seq<ProfileConfig>, from: int, i: int)
    requires
        profiles_error(profiles, from) is None,
        from <= i < profiles.len(),
    ensures
        profile_error(profiles, i) is None,
    decreases i - from,
{
    if from < i {
        lemma_profile_passes(profiles, from + 1, i);
    }
}

proof fn lemma_curve_passes(curves: Seq<CurveConfig>, i: int, from: int, j: int)
    requires
        curves_error(curves, i, from) is None,
        from <= j < curves.len(),
    ensures
        curve_error(curves, i, j) is None,
    decreases j - from,
{
    if from < j {
        lemma_curve_passes(curves, i, from + 1, j);
    }
}

// ---- Messages ----

/// Whether the error's positions stand in `c`.
pub open spec fn points_into(e: ConfigError, c: Config) -> bool {
    match e {
        ConfigError::NoProfiles => true,
        ConfigError::UnknownProfile { profile }
        | ConfigError::DuplicateProfile { profile }
        | ConfigError::NoCurves { profile } => profile < c.profiles@.len(),
        ConfigError::UnknownFan { profile, curve }
        | ConfigError::DuplicateFan { profile, curve }
        | ConfigError::TemperatureCount { profile, curve }
        | ConfigError::PwmCount { profile, curve }
        | ConfigError::TemperatureTooHigh { profile, curve }
        | ConfigError::PwmTooHigh { profile, curve }
        | ConfigError::TemperaturesDecrease { profile, curve }
        | ConfigError::PwmDecreases { profile, curve } => profile < c.profiles@.len() && curve
            < c.profiles@[profile as int].curves@.len(),
    }
}

proof fn lemma_curves_point(c: Config, i: int, j: int)
    requires
        0 <= i < c.profiles@.len(),
        0 <= j,
    ensures
        curves_error(c.profiles@[i].curves@, i, j) matches Some(e) ==> points_into(e, c),
    decreases c.profiles@[i].curves@.len() - j,
{
    assert(c.profiles@.len() == c.profiles.len());
    assert(c.profiles@[i].curves@.len() == c.profiles@[i].curves.len());
    if j < c.profiles@[i].curves@.len() {
        lemma_curves_point(c, i, j + 1);
    }
}

proof fn lemma_profiles_point(c: Config, i: int)
    requires
        0 <= i,
    ensures
        profiles_error(c.profiles@, i) matches Some(e) ==> points_into(e, c),
    decreases c.profiles@.len() - i,
{
    assert(c.profiles@.len() == c.profiles.len());
    if i < c.profiles@.len() {
        lemma_curves_point(c, i, 0);
        lemma_profiles_point(c, i + 1);
    }
}

/// `"fan '<fan>' in profile '<profile>"`, the opening of a curve's message.
pub open spec fn curve_subject(c: Config, profile: usize, curve: usize) -> Seq<char> {
    "fan '"@ + c.profiles@[profile as int].curves@[curve as int].fan@ + "' in profile '"@
        + c.profiles@[profile as int].name@
}

/// The text that tells a user what `e` says of `c`.
pub open spec fn error_text(e: ConfigError, c: Config) -> Seq<char> {
    match e {
        ConfigError::NoProfiles => "at least one asusd profile is required"@,
        ConfigError::UnknownProfile { profile } => "unknown asusd profile '"@
            + c.profiles@[profile as int].name@ + "'"@,
        ConfigError::DuplicateProfile { profile } => "duplicate asusd profile '"@
            + c.profiles@[profile as int].name@ + "'"@,
        ConfigError::NoCurves { profile } => "asusd profile '"@ + c.profiles@[profile as int].name@
            + "' must contain at least one fan curve"@,
        ConfigError::UnknownFan { profile, curve } => "unknown asusd fan '"@
            + c.profiles@[profile as int].curves@[curve as int].fan@ + "'"@,
        ConfigError::DuplicateFan { profile, curve } => "duplicate "@ + curve_subject(
            c,
            profile,
            curve,
        ) + "'"@,
        ConfigError::TemperatureCount { profile, curve } => curve_subject(c, profile, curve)
            + "' must have exactly 8 temperatures"@,
        ConfigError::PwmCount { profile, curve } => curve_subject(c, profile, curve)
            + "' must have exactly 8 PWM values"@,
        ConfigError::TemperatureTooHigh { profile, curve } => curve_subject(c, profile, curve)
            + "' temperatures must be <= 100"@,
        ConfigError::PwmTooHigh { profile, curve } => curve_subject(c, profile, curve)
            + "' PWM values must be <= 255"@,
        ConfigError::TemperaturesDecrease { profile, curve } => curve_subject(c, profile, curve)
            + "' temperatures must be non-decreasing"@,
        ConfigError::PwmDecreases { profile, curve } => curve_subject(c, profile, curve)
            + "' PWM values must be non-decreasing"@,
    }
}

fn subject(config: &Config, profile: usize, curve: usize) -> (r: String)
    requires
        profile < config.profiles@.len(),
        curve < config.profiles@[profile as int].curves@.len(),
    ensures
        r@ == curve_subject(*config, profile, curve),
{
    let p = &config.profiles[profile];
    let r = text::around("fan '", p.curves[curve].fan.as_str(), "' in profile '");
    r.concat(p.name.as_str())
}

impl ConfigError {
    /// The text that tells a user what the error says of `config`.
    pub fn message(&self, config: &Config) -> (r: String)
        requires
            points_into(*self, *config),
        ensures
            r@ == error_text(*self, *config),
    {
        match *self {
            ConfigError::NoProfiles => "at least one asusd profile is required".to_owned(),
            ConfigError::UnknownProfile { profile } => text::around(
                "unknown asusd profile '",
                config.profiles[profile].name.as_str(),
                "'",
            ),
            ConfigError::DuplicateProfile { profile } => text::around(
                "duplicate asusd profile '",
                config.profiles[profile].name.as_str(),
                "'",
            ),
            ConfigError::NoCurves { profile } => text::around(
                "asusd profile '",
                config.profiles[profile].name.as_str(),
                "' must contain at least one fan curve",
            ),
            ConfigError::UnknownFan { profile, curve } => text::around(
                "unknown asusd fan '",
                config.profiles[profile].curves[curve].fan.as_str(),
                "'",
            ),
            ConfigError::DuplicateFan { profile, curve } => text::around(
                "duplicate ",
                subject(config, profile, curve).as_str(),
                "'",
            ),
            ConfigError::TemperatureCount { profile, curve } => subject(
                config,
                profile,
                curve,
            ).concat("' must have exactly 8 temperatures"),
            ConfigError::PwmCount { profile, curve } => subject(config, profile, curve).concat(
                "' must have exactly 8 PWM values",
            ),
            ConfigError::TemperatureTooHigh { profile, curve } => subject(
                config,
                profile,
                curve,
            ).concat("' temperatures must be <= 100"),
            ConfigError::PwmTooHigh { profile, curve } => subject(config, profile, curve).concat(
                "' PWM values must be <= 255",
            ),
            ConfigError::TemperaturesDecrease { profile, curve } => subject(
                config,
                profile,
                curve,
            ).concat("' temperatures must be non-decreasing"),
            ConfigError::PwmDecreases { profile, curve } => subject(config, profile, curve).concat(
                "' PWM values must be non-decreasing",
            ),
        }
    }
}

// ---- Loading ----

/// The firmware curves that evaluating the Pkl file at `path` gave, where they can be
/// accepted, or what is wrong with the file.
pub fn load(path: &str, evaluated: Result<Config, String>) -> (r: Result<Config, String>)
    ensures
        match evaluated {
            Err(cause) => {
                &&& r is Err
                &&& r->Err_0@ == unevaluated(
                    "failed to evaluate asusd Pkl config: "@,
                    path@,
                    cause@,
                )
            },
            Ok(config) => match first_error(config) {
                None => r == Ok::<Config, String>(config),
                Some(e) => r is Err && r->Err_0@ == error_text(e, config),
            },
        },
{
    match evaluated {
        Err(cause) => Err(
            evaluation_failure("failed to evaluate asusd Pkl config: ", path, cause.as_str()),
        ),
        Ok(config) => match validate(&config) {
            Ok(_) => Ok(config),
            Err(e) => Err(e.message(&config)),
        },
    }
}

// ---- Laws ----

/// A text names a profile where, trimmed and in small letters, it is the profile's
/// own name, or one of the other two ways to write that of low power; it names none
/// otherwise. The bus numbers the profiles in this order.
pub proof fn law_profile_names(s: Seq<char>)
    ensures
        ({
            let n = text::ascii_lowered(text::trimmed(s));
            &&& n == "balanced"@ ==> profile_named(s) == Some(Profile::Balanced)
            &&& n == "performance"@ ==> profile_named(s) == Some(Profile::Performance)
            &&& n == "quiet"@ ==> profile_named(s) == Some(Profile::Quiet)
            &&& n == "lowpower"@ || n == "low-power"@ || n == "low_power"@ ==> profile_named(s)
                == Some(Profile::LowPower)
            &&& n == "custom"@ ==> profile_named(s) == Some(Profile::Custom)
            &&& profile_named(s) is Some ==> n == "balanced"@ || n == "performance"@ || n
                == "quiet"@ || n == "lowpower"@ || n == "low-power"@ || n == "low_power"@ || n
                == "custom"@
        }),
        Profile::Balanced.number() == 0,
        Profile::Performance.number() == 1,
        Profile::Quiet.number() == 2,
        Profile::LowPower.number() == 3,
        Profile::Custom.number() == 4,
{
    reveal_strlit("balanced");
    reveal_strlit("performance");
    reveal_strlit("quiet");
    reveal_strlit("lowpower");
    reveal_strlit("low-power");
    reveal_strlit("low_power");
    reveal_strlit("custom");
    assert("custom"@[0] != "quiet"@[0] && "custom"@[0] != "balanced"@[0] && "custom"@[0]
        != "lowpower"@[0]);
    assert("quiet"@[0] != "balanced"@[0] && "quiet"@[0] != "lowpower"@[0]);
    assert("balanced"@.len() == 8 && "performance"@.len() == 11 && "low-power"@.len() == 9);
    assert("balanced"@[0] != "lowpower"@[0]);
}

/// A text names a fan where, trimmed and in small letters, it is the fan's name.
pub proof fn law_fan_names(s: Seq<char>)
    ensures
        ({
            let n = text::ascii_lowered(text::trimmed(s));
            &&& n == "cpu"@ <==> fan_named(s) == Some(Fan::Cpu)
            &&& n == "gpu"@ <==> fan_named(s) == Some(Fan::Gpu)
            &&& n == "mid"@ <==> fan_named(s) == Some(Fan::Mid)
        }),
        Fan::Cpu.label() == "CPU"@,
        Fan::Gpu.label() == "GPU"@,
        Fan::Mid.label() == "MID"@,
{
    reveal_strlit("cpu");
    reveal_strlit("gpu");
    reveal_strlit("mid");
    assert("cpu"@[0] != "gpu"@[0] && "cpu"@[0] != "mid"@[0] && "gpu"@[0] != "mid"@[0]);
}

/// What an accepted configuration is, at the `j`-th curve of the `i`-th profile:
/// every rule that can be broken is kept there.
pub proof fn law_accepted_keeps_every_rule(c: Config, i: int, j: int, k: int)
    requires
        first_error(c) is None,
    ensures
        c.profiles@.len() > 0,
        0 <= i < c.profiles@.len() ==> {
            let p = c.profiles@[i];
            &&& profile_named(p.name@) is Some
            &&& 0 <= k < i ==> profile_named(c.profiles@[k].name@) != profile_named(p.name@)
            &&& p.curves@.len() > 0
            &&& 0 <= j < p.curves@.len() ==> {
                let v = p.curves@[j];
                &&& fan_named(v.fan@) is Some
                &&& 0 <= k < j ==> fan_named(p.curves@[k].fan@) != fan_named(v.fan@)
                &&& v.temp@.len() == 8
                &&& v.pwm@.len() == 8
                &&& 0 <= k < 8 ==> v.temp@[k] <= 100 && v.pwm@[k] <= 255
                &&& 0 < k < 8 ==> v.temp@[k - 1] <= v.temp@[k] && v.pwm@[k - 1] <= v.pwm@[k]
            }
        },
{
    if 0 <= i < c.profiles@.len() {
        lemma_profile_passes(c.profiles@, 0, i);
        if 0 <= j < c.profiles@[i].curves@.len() {
            lemma_curve_passes(c.profiles@[i].curves@, i, 0, j);
        }
    }
}

/// What a refusal says is so: the rule that it names is broken at the place that it
/// names.
pub proof fn law_refusal_is_true(c: Config, e: ConfigError)
    requires
        first_error(c) == Some(e),
    ensures
        points_into(e, c),
        match e {
            ConfigError::NoProfiles => c.profiles@.len() == 0,
            ConfigError::UnknownProfile { profile } => profile_named(
                c.profiles@[profile as int].name@,
            ) is None,
            ConfigError::DuplicateProfile { profile } => exists|k: int|
                0 <= k < profile && profile_named((#[trigger] c.profiles@[k]).name@)
                    == profile_named(c.profiles@[profile as int].name@),
            ConfigError::NoCurves { profile } => c.profiles@[profile as int].curves@.len() == 0,
            ConfigError::UnknownFan { profile, curve } => fan_named(
                c.profiles@[profile as int].curves@[curve as int].fan@,
            ) is None,
            ConfigError::DuplicateFan { profile, curve } => exists|k: int|
                0 <= k < curve && fan_named(
                    (#[trigger] c.profiles@[profile as int].curves@[k]).fan@,
                ) == fan_named(c.profiles@[profile as int].curves@[curve as int].fan@),
            ConfigError::TemperatureCount { profile, curve } =>
                c.profiles@[profile as int].curves@[curve as int].temp@.len() != 8,
            ConfigError::PwmCount { profile, curve } =>
                c.profiles@[profile as int].curves@[curve as int].pwm@.len() != 8,
            ConfigError::TemperatureTooHigh { profile, curve } => exists|k: int|
                0 <= k < c.profiles@[profile as int].curves@[curve as int].temp@.len()
                    && #[trigger] c.profiles@[profile as int].curves@[curve as int].temp@[k] > 100,
            ConfigError::PwmTooHigh { profile, curve } => exists|k: int|
                0 <= k < c.profiles@[profile as int].curves@[curve as int].pwm@.len()
                    && #[trigger] c.profiles@[profile as int].curves@[curve as int].pwm@[k] > 255,
            ConfigError::TemperaturesDecrease { profile, curve } => exists|a: int, b: int|
                0 <= a < b < c.profiles@[profile as int].curves@[curve as int].temp@.len()
                    && #[trigger] c.profiles@[profile as int].curves@[curve as int].temp@[a]
                    > #[trigger] c.profiles@[profile as int].curves@[curve as int].temp@[b],
            ConfigError::PwmDecreases { profile, curve } => exists|a: int, b: int|
                0 <= a < b < c.profiles@[profile as int].curves@[curve as int].pwm@.len()
                    && #[trigger] c.profiles@[profile as int].curves@[curve as int].pwm@[a]
                    > #[trigger] c.profiles@[profile as int].curves@[curve as int].pwm@[b],
        },
{
    lemma_profiles_point(c, 0);
    if c.profiles@.len() > 0 {
        lemma_refused_profile(c, 0);
        let i = choose|i: int|
            0 <= i < c.profiles@.len() && i <= usize::MAX && #[trigger] profile_error(
                c.profiles@,
                i,
            ) == Some(e);
        let p = c.profiles@[i];
        if profile_named(p.name@) is Some && p.curves@.len() > 0 && curves_error(p.curves@, i, 0)
            == Some(e) {
            assert(p.curves@.len() == p.curves.len());
            lemma_refused_curve(p.curves@, i, 0);
            let j = choose|j: int|
                0 <= j < p.curves@.len() && j <= usize::MAX && #[trigger] curve_error(
                    p.curves@,
                    i,
                    j,
                ) == Some(e);
            assert(curve_error(p.curves@, i, j) == Some(e));
        }
    }
}

proof fn lemma_refused_profile(c: Config, from: int)
    requires
        0 <= from <= c.profiles@.len(),
        profiles_error(c.profiles@, from) is Some,
    ensures
        exists|i: int|
            from <= i < c.profiles@.len() && i <= usize::MAX && #[trigger] profile_error(
                c.profiles@,
                i,
            ) == profiles_error(c.profiles@, from),
    decreases c.profiles@.len() - from,
{
    assert(c.profiles@.len() == c.profiles.len());
    if from < c.profiles@.len() {
        if profile_error(c.profiles@, from) is Some {
            assert(profile_error(c.profiles@, from) == profiles_error(c.profiles@, from));
        } else {
            lemma_refused_profile(c, from + 1);
            let i = choose|i: int|
                from + 1 <= i < c.profiles@.len() && i <= usize::MAX && #[trigger] profile_error(
                    c.profiles@,
                    i,
                ) == profiles_error(c.profiles@, from + 1);
            assert(profile_error(c.profiles@, i) == profiles_error(c.profiles@, from));
        }
    }
}

proof fn lemma_refused_curve(curves: Seq<CurveConfig>, i: int, from: int)
    requires
        0 <= from <= curves.len() <= usize::MAX,
        curves_error(curves, i, from) is Some,
    ensures
        exists|j: int|
            from <= j < curves.len() && j <= usize::MAX && #[trigger] curve_error(curves, i, j)
                == curves_error(curves, i, from),
    decreases curves.len() - from,
{
    if from < curves.len() {
        if curve_error(curves, i, from) is Some {
            assert(curve_error(curves, i, from) == curves_error(curves, i, from));
        } else {
            lemma_refused_curve(curves, i, from + 1);
            let j = choose|j: int|
                from + 1 <= j < curves.len() && j <= usize::MAX && #[trigger] curve_error(
                    curves,
                    i,
                    j,
                ) == curves_error(curves, i, from + 1);
            assert(curve_error(curves, i, j) == curves_error(curves, i, from));
        }
    }
}

} // verus!
