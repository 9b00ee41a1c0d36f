//! Sensors and fans of hwmon chips: where their files are, what the files say,
//! and what is written to take a fan over and to hand it back.
use crate::sysfs::{below, find_hwmon_paths, hwmon_paths, join, ordered, performed, read_sysfs};
use crate::sysfs::{read_sysfs_signed, sort_paths, write_sysfs, PathOrder, Sysfs, SysfsWrite};
use crate::text;
use vstd::prelude::*;

verus! {

/// PWM enable modes for fan control.
#[derive(Debug, Clone, Copy, PartialEq, Eq, Structural)]
pub enum PwmEnable {
    /// Full speed (no control)
    FullSpeed,
    /// Manual PWM control
    Manual,
    /// Automatic (thermal cruise, etc.)
    Auto,
    /// SmartFan III
    SmartFan3,
    /// SmartFan IV
    SmartFan4,
    /// SmartFan IV (variant used by nct6799)
    SmartFan4v2,
}

impl PwmEnable {
    /// The number that stands for the mode in a `pwmN_enable` file.
    pub open spec fn number(self) -> u8 {
        match self {
            PwmEnable::FullSpeed => 0,
            PwmEnable::Manual => 1,
            PwmEnable::Auto => 2,
            PwmEnable::SmartFan3 => 3,
            PwmEnable::SmartFan4 => 4,
            PwmEnable::SmartFan4v2 => 5,
        }
    }

    /// The number that stands for the mode in a `pwmN_enable` file.
    pub fn value(self) -> (r: u8)
        ensures
            r == self.number(),
    {
        match self {
            PwmEnable::FullSpeed => 0,
            PwmEnable::Manual => 1,
            PwmEnable::Auto => 2,
            PwmEnable::SmartFan3 => 3,
            PwmEnable::SmartFan4 => 4,
            PwmEnable::SmartFan4v2 => 5,
        }
    }
}

// ---- Which chip ----

/// The first of `dirs` from the `i`-th on that holds `file`.
pub open spec fn first_with(
    sysfs: Sysfs,
    dirs: Seq<Seq<char>>,
    file: Seq<char>,
    i: int,
) -> Option<Seq<char>>
    decreases dirs.len() - i,
{
    if i >= dirs.len() {
        None
    } else if sysfs.at(below(dirs[i], file)) is Some {
        Some(dirs[i])
    } else {
        first_with(sysfs, dirs, file, i + 1)
    }
}

/// The directory of the chip that a sensor or fan (`kind`) named `name` is on:
/// among the chips called `chip`, in order of their numbers, the one at
/// `instance`, or the first that holds `file` where no instance is given; or why
/// there is none.
pub open spec fn chosen_dir(
    sysfs: Sysfs,
    kind: Seq<char>,
    name: Seq<char>,
    chip: Seq<char>,
    instance: Option<u32>,
    file: Seq<char>,
) -> Result<Seq<char>, Seq<char>> {
    match hwmon_paths(sysfs, chip) {
        Err(e) => Err(e),
        Ok(listed) => {
            let dirs = ordered(PathOrder::Number, listed);
            match instance {
                Some(i) => if i < dirs.len() {
                    Ok(dirs[i as int])
                } else {
                    Err(
                        kind + " '"@ + name + "': '"@ + chip + "' has "@ + text::decimal(
                            dirs.len(),
                        ) + " instances but hwmon_instance="@ + text::decimal(i as nat)
                            + " requested"@,
                    )
                },
                None => match first_with(sysfs, dirs, file, 0) {
                    Some(dir) => Ok(dir),
                    None => Err(
                        kind + " '"@ + name + "': no '"@ + chip + "' hwmon instance has "@ + file,
                    ),
                },
            }
        },
    }
}

fn choose_dir(
    sysfs: &Sysfs,
    kind: &str,
    name: &str,
    chip: &str,
    instance: Option<u32>,
    file: &str,
) -> (r: Result<String, String>)
    ensures
        match r {
            Ok(p) => chosen_dir(*sysfs, kind@, name@, chip@, instance, file@) == Ok::<
                Seq<char>,
                Seq<char>,
            >(p@),
            Err(m) => chosen_dir(*sysfs, kind@, name@, chip@, instance, file@) == Err::<
                Seq<char>,
                Seq<char>,
            >(m@),
        },
{
    let paths = match find_hwmon_paths(sysfs, chip) {
        Ok(listed) => sort_paths(PathOrder::Number, &listed),
        Err(m) => {
            return Err(m);
        },
    };
    let ghost dirs = text::views(paths@);
    let opening = text::around(kind, " '", name);
    match instance {
        Some(i) => {
            if (i as usize) < paths.len() {
                return Ok(paths[i as usize].clone());
            }
            Err(
                opening.concat("': '").concat(chip).concat("' has ").concat(
                    text::decimal_of(paths.len() as u64).as_str(),
                ).concat(" instances but hwmon_instance=").concat(
                    text::decimal_of(i as u64).as_str(),
                ).concat(" requested"),
            )
        },
        None => {
            for k in 0..paths.len()
                invariant
                    dirs == text::views(paths@),
                    first_with(*sysfs, dirs, file@, 0) == first_with(
                        *sysfs,
                        dirs,
                        file@,
                        k as int,
                    ),
                    hwmon_paths(*sysfs, chip@) matches Ok(listed) && dirs == ordered(PathOrder::Number, listed),
                    instance is None,
            {
                if sysfs.has(join(paths[k].as_str(), file).as_str()) {
                    return Ok(paths[k].clone());
                }
            }
            Err(opening.concat("': no '").concat(chip).concat("' hwmon instance has ").concat(file))
        },
    }
}

// ---- Sensors ----

/// A temperature sensor bound to its files.
#[derive(Debug, Clone)]
pub struct Sensor {
    pub name: String,
    /// Path to tempN_input (reads millidegrees Celsius)
    pub input_path: String,
    /// Path to tempN_label (optional human-readable label)
    pub label_path: String,
}

/// The name of the `index`-th temperature file.
pub open spec fn temp_input(index: u32) -> Seq<char> {
    "temp"@ + text::decimal(index as nat) + "_input"@
}

/// The name of the `index`-th temperature label file.
pub open spec fn temp_label(index: u32) -> Seq<char> {
    "temp"@ + text::decimal(index as nat) + "_label"@
}

/// The name of the `index`-th temperature file.
pub fn temp_input_name(index: u32) -> (r: String)
    ensures
        r@ == temp_input(index),
{
    text::around("temp", text::decimal_of(index as u64).as_str(), "_input")
}

/// The name of the `index`-th temperature label file.
pub fn temp_label_name(index: u32) -> (r: String)
    ensures
        r@ == temp_label(index),
{
    text::around("temp", text::decimal_of(index as u64).as_str(), "_label")
}

impl Sensor {
    /// Whether this is the sensor `name` on the `index`-th input in `dir`.
    pub open spec fn is_at(self, name: Seq<char>, dir: Seq<char>, index: u32) -> bool {
        &&& self.name@ == name
        &&& self.input_path@ == below(dir, temp_input(index))
        &&& self.label_path@ == below(dir, temp_label(index))
    }

    fn bound(name: &str, dir: &str, index: u32) -> (r: Self)
        ensures
            r.is_at(name@, dir@, index),
    {
        Sensor {
            name: name.to_owned(),
            input_path: join(dir, temp_input_name(index).as_str()),
            label_path: join(dir, temp_label_name(index).as_str()),
        }
    }

    /// Create a sensor from its configuration.
    /// `instance` selects which hwmon chip to use when multiple share the same
    /// name. `None` picks the first with the requested tempN_input.
    pub fn from_config(
        name: &str,
        hwmon_name: &str,
        index: u32,
        instance: Option<u32>,
        sysfs: &Sysfs,
    ) -> (r: Result<Self, String>)
        ensures
            match (
                r,
                chosen_dir(*sysfs, "sensor"@, name@, hwmon_name@, instance, temp_input(index)),
            ) {
                (Ok(s), Ok(dir)) => s.is_at(name@, dir, index),
                (Err(m), Err(e)) => m@ == e,
                _ => false,
            },
    {
        match choose_dir(
            sysfs,
            "sensor",
            name,
            hwmon_name,
            instance,
            temp_input_name(index).as_str(),
        ) {
            Ok(dir) => Ok(Self::bound(name, dir.as_str(), index)),
            Err(m) => Err(m),
        }
    }

    /// Create a sensor in an already-resolved hwmon directory.
    pub fn from_path(name: &str, hwmon_path: &str, index: u32, sysfs: &Sysfs) -> (r: Result<
        Self,
        String,
    >)
        ensures
            match r {
                Ok(s) => s.is_at(name@, hwmon_path@, index) && sysfs.at(s.input_path@) is Some,
                Err(m) => {
                    let path = below(hwmon_path@, temp_input(index));
                    &&& sysfs.at(path) is None
                    &&& m@ == "sensor '"@ + name@ + "': "@ + path + " does not exist"@
                },
            },
    {
        let sensor = Self::bound(name, hwmon_path, index);
        if !sysfs.has(sensor.input_path.as_str()) {
            return Err(
                text::around("sensor '", name, "': ").concat(sensor.input_path.as_str()).concat(
                    " does not exist",
                ),
            );
        }
        Ok(sensor)
    }

    /// The current temperature in thousandths of a degree Celsius.
    pub fn read_temp_c(&self, sysfs: &Sysfs) -> (r: Result<i64, String>)
        ensures
            match (r, sysfs.signed_at(self.input_path@)) {
                (Ok(t), Ok(n)) => t == n,
                (Err(m), Err(e)) => m@ == e,
                _ => false,
            },
    {
        read_sysfs_signed(sysfs, self.input_path.as_str())
    }

    /// The sensor's label, if it has one.
    pub fn read_label(&self, sysfs: &Sysfs) -> (r: Option<String>)
        ensures
            match (r, sysfs.text_at(self.label_path@)) {
                (Some(s), Some(t)) => s@ == text::trimmed(t),
                (None, None) => true,
                _ => false,
            },
    {
        sysfs.read_string(self.label_path.as_str())
    }
}

// ---- Fans ----

/// A PWM fan bound to its files.
#[derive(Debug, Clone)]
pub struct Fan {
    pub name: String,
    /// Path to fanN_input (reads RPM)
    pub rpm_path: String,
    /// Path to pwmN (read/write PWM 0-255)
    pub pwm_path: String,
    /// Path to pwmN_enable (read/write control mode)
    pub enable_path: String,
    /// The pwm_enable value from before the fan was taken over
    pub original_enable: u8,
    /// The pwm value from before the fan was taken over
    pub original_pwm: u8,
    /// Last PWM value written (to avoid redundant writes)
    pub last_pwm: Option<u8>,
}

/// The name of the `index`-th speed file.
pub open spec fn fan_input(index: u32) -> Seq<char> {
    "fan"@ + text::decimal(index as nat) + "_input"@
}

/// The name of the `index`-th PWM file.
pub open spec fn pwm_file(index: u32) -> Seq<char> {
    "pwm"@ + text::decimal(index as nat)
}

/// The name of the `index`-th control mode file.
pub open spec fn pwm_enable_file(index: u32) -> Seq<char> {
    "pwm"@ + text::decimal(index as nat) + "_enable"@
}

/// The name of the `index`-th speed file.
pub fn fan_input_name(index: u32) -> (r: String)
    ensures
        r@ == fan_input(index),
{
    text::around("fan", text::decimal_of(index as u64).as_str(), "_input")
}

/// The name of the `index`-th PWM file.
pub fn pwm_file_name(index: u32) -> (r: String)
    ensures
        r@ == pwm_file(index),
{
    "pwm".to_owned().concat(text::decimal_of(index as u64).as_str())
}

/// The name of the `index`-th control mode file.
pub fn pwm_enable_name(index: u32) -> (r: String)
    ensures
        r@ == pwm_enable_file(index),
{
    text::around("pwm", text::decimal_of(index as u64).as_str(), "_enable")
}

/// The control mode and PWM value that the files of the `index`-th fan in `dir`
/// hold, or why they cannot be had.
pub open spec fn fan_state(sysfs: Sysfs, dir: Seq<char>, index: u32) -> Result<
    (nat, nat),
    Seq<char>,
> {
    match sysfs.number_at(below(dir, pwm_enable_file(index)), 255) {
        Err(e) => Err(e),
        Ok(enable) => match sysfs.number_at(below(dir, pwm_file(index)), 255) {
            Err(e) => Err(e),
            Ok(pwm) => Ok((enable, pwm)),
        },
    }
}

impl Fan {
    /// Whether this is the fan `name` on the `index`-th channel in `dir`, not
    /// yet taken over, with the state that its files hold.
    pub open spec fn is_at(
        self,
        sysfs: Sysfs,
        name: Seq<char>,
        dir: Seq<char>,
        index: u32,
    ) -> bool {
        &&& self.name@ == name
        &&& self.rpm_path@ == below(dir, fan_input(index))
        &&& self.pwm_path@ == below(dir, pwm_file(index))
        &&& self.enable_path@ == below(dir, pwm_enable_file(index))
        &&& fan_state(sysfs, dir, index) == Ok::<(nat, nat), Seq<char>>(
            (self.original_enable as nat, self.original_pwm as nat),
        )
        &&& self.last_pwm is None
    }

    fn bound(name: &str, dir: &str, index: u32, sysfs: &Sysfs) -> (r: Result<Self, String>)
        ensures
            match r {
                Ok(f) => f.is_at(*sysfs, name@, dir@, index),
                Err(m) => fan_state(*sysfs, dir@, index) == Err::<(nat, nat), Seq<char>>(m@),
            },
    {
        let rpm_path = join(dir, fan_input_name(index).as_str());
        let pwm_path = join(dir, pwm_file_name(index).as_str());
        let enable_path = join(dir, pwm_enable_name(index).as_str());
        let original_enable: u8 = match read_sysfs(sysfs, enable_path.as_str(), 255) {
            Ok(n) => n as u8,
            Err(m) => {
                return Err(m);
            },
        };
        let original_pwm: u8 = match read_sysfs(sysfs, pwm_path.as_str(), 255) {
            Ok(n) => n as u8,
            Err(m) => {
                return Err(m);
            },
        };
        Ok(
            Fan {
                name: name.to_owned(),
                rpm_path,
                pwm_path,
                enable_path,
                original_enable,
                original_pwm,
                last_pwm: None,
            },
        )
    }

    /// Create a fan from its configuration.
    /// `instance` selects which hwmon chip to use when multiple share the same
    /// name (e.g. two "amdgpu"). `None` picks the first with the requested pwmN.
    pub fn from_config(
        name: &str,
        hwmon_name: &str,
        pwm_index: u32,
        instance: Option<u32>,
        sysfs: &Sysfs,
    ) -> (r: Result<Self, String>)
        ensures
            match chosen_dir(*sysfs, "fan"@, name@, hwmon_name@, instance, pwm_file(pwm_index)) {
                Err(e) => r matches Err(m) && m@ == e,
                Ok(dir) => match (r, fan_state(*sysfs, dir, pwm_index)) {
                    (Ok(f), Ok(_)) => f.is_at(*sysfs, name@, dir, pwm_index),
                    (Err(m), Err(e)) => m@ == e,
                    _ => false,
                },
            },
    {
        match choose_dir(
            sysfs,
            "fan",
            name,
            hwmon_name,
            instance,
            pwm_file_name(pwm_index).as_str(),
        ) {
            Ok(dir) => Self::bound(name, dir.as_str(), pwm_index, sysfs),
            Err(m) => Err(m),
        }
    }

    /// Create a fan in an already-resolved hwmon directory.
    pub fn from_path(name: &str, hwmon_path: &str, pwm_index: u32, sysfs: &Sysfs) -> (r: Result<
        Self,
        String,
    >)
        ensures
            ({
                let pwm_path = below(hwmon_path@, pwm_file(pwm_index));
                if sysfs.at(pwm_path) is None {
                    r matches Err(m) && m@ == "fan '"@ + name@ + "': "@ + pwm_path
                        + " does not exist"@
                } else {
                    match (r, fan_state(*sysfs, hwmon_path@, pwm_index)) {
                        (Ok(f), Ok(_)) => f.is_at(*sysfs, name@, hwmon_path@, pwm_index),
                        (Err(m), Err(e)) => m@ == e,
                        _ => false,
                    }
                }
            }),
    {
        let pwm_path = join(hwmon_path, pwm_file_name(pwm_index).as_str());
        if !sysfs.has(pwm_path.as_str()) {
            return Err(
                text::around("fan '", name, "': ").concat(pwm_path.as_str()).concat(
                    " does not exist",
                ),
            );
        }
        Self::bound(name, hwmon_path, pwm_index, sysfs)
    }

    /// The write that switches the fan to manual PWM control.
    pub fn set_manual(&self) -> (r: SysfsWrite)
        ensures
            r.path@ == self.enable_path@,
            r.value@ == text::decimal(PwmEnable::Manual.number() as nat),
    {
        write_sysfs(
            self.enable_path.as_str(),
            text::decimal_of(PwmEnable::Manual.value() as u64).as_str(),
        )
    }

    /// Whether `writes` put the fan's PWM value back and then its control mode.
    pub open spec fn are_restoring(self, writes: Seq<SysfsWrite>) -> bool {
        &&& writes.len() == 2
        &&& writes[0].path@ == self.pwm_path@
        &&& writes[0].value@ == text::decimal(self.original_pwm as nat)
        &&& writes[1].path@ == self.enable_path@
        &&& writes[1].value@ == text::decimal(self.original_enable as nat)
    }

    /// The writes that put the fan back as it was found. The PWM value comes
    /// first: control is handed back only once the duty cycle is restored. The
    /// second write is to be made even where the first fails, since a fan left
    /// in manual mode is the worse failure.
    pub fn restore_original(&self) -> (r: Vec<SysfsWrite>)
        ensures
            self.are_restoring(r@),
    {
        vec![
            write_sysfs(
                self.pwm_path.as_str(),
                text::decimal_of(self.original_pwm as u64).as_str(),
            ),
            write_sysfs(
                self.enable_path.as_str(),
                text::decimal_of(self.original_enable as u64).as_str(),
            ),
        ]
    }

    /// What to say where one or both of the restoring writes failed.
    pub open spec fn restore_failure(
        self,
        pwm: Option<Seq<char>>,
        enable: Option<Seq<char>>,
    ) -> Option<Seq<char>> {
        let opening = "fan '"@ + self.name@ + "': "@;
        match (pwm, enable) {
            (None, None) => None,
            (Some(e), None) => Some(opening + "PWM restoration failed: "@ + e),
            (None, Some(e)) => Some(opening + "control-mode restoration failed: "@ + e),
            (Some(e), Some(f)) => Some(
                opening + "PWM restoration failed: "@ + e + "; "@
                    + "control-mode restoration failed: "@ + f,
            ),
        }
    }

    /// The outcome of the restoring writes, given why each failed.
    pub fn restored_original(&self, pwm: &Option<String>, enable: &Option<String>) -> (r: Result<
        (),
        String,
    >)
        ensures
            match (r, self.restore_failure(seen(*pwm), seen(*enable))) {
                (Ok(_), None) => true,
                (Err(m), Some(e)) => m@ == e,
                _ => false,
            },
    {
        let opening = text::around("fan '", self.name.as_str(), "': ");
        match (pwm, enable) {
            (None, None) => Ok(()),
            (Some(e), None) => Err(opening.concat("PWM restoration failed: ").concat(e.as_str())),
            (None, Some(e)) => Err(
                opening.concat("control-mode restoration failed: ").concat(e.as_str()),
            ),
            (Some(e), Some(f)) => Err(
                opening.concat("PWM restoration failed: ").concat(e.as_str()).concat("; ").concat(
                    "control-mode restoration failed: ",
                ).concat(f.as_str()),
            ),
        }
    }

    /// Current fan speed in RPM; 0 where the fan reports none.
    pub fn read_rpm(&self, sysfs: &Sysfs) -> (r: Result<u32, String>)
        ensures
            if sysfs.at(self.rpm_path@) is None {
                r matches Ok(n) && n == 0
            } else {
                match (r, sysfs.number_at(self.rpm_path@, 0xffff_ffff)) {
                    (Ok(n), Ok(v)) => n == v,
                    (Err(m), Err(e)) => m@ == e,
                    _ => false,
                }
            },
    {
        if sysfs.has(self.rpm_path.as_str()) {
            match read_sysfs(sysfs, self.rpm_path.as_str(), 0xffff_ffff) {
                Ok(n) => Ok(n as u32),
                Err(m) => Err(m),
            }
        } else {
            Ok(0)
        }
    }

    /// Current PWM value (0-255).
    pub fn read_pwm(&self, sysfs: &Sysfs) -> (r: Result<u8, String>)
        ensures
            match (r, sysfs.number_at(self.pwm_path@, 255)) {
                (Ok(n), Ok(v)) => n == v,
                (Err(m), Err(e)) => m@ == e,
                _ => false,
            },
    {
        match read_sysfs(sysfs, self.pwm_path.as_str(), 255) {
            Ok(n) => Ok(n as u8),
            Err(m) => Err(m),
        }
    }

    /// The write of a PWM value; none where the value was the last one written.
    pub fn write_pwm(&self, pwm: u8) -> (r: Option<SysfsWrite>)
        ensures
            match r {
                None => self.last_pwm == Some(pwm),
                Some(w) => self.last_pwm != Some(pwm) && w.path@ == self.pwm_path@ && w.value@
                    == text::decimal(pwm as nat),
            },
    {
        if let Some(last) = self.last_pwm {
            if last == pwm {
                return None;
            }
        }
        Some(write_sysfs(self.pwm_path.as_str(), text::decimal_of(pwm as u64).as_str()))
    }

    /// Notes that the write of `pwm` succeeded.
    pub fn wrote_pwm(&mut self, pwm: u8)
        ensures
            *final(self) == (Fan { last_pwm: Some(pwm), ..*old(self) }),
    {
        self.last_pwm = Some(pwm);
    }
}

/// The text of an optional message.
pub open spec fn seen(m: Option<String>) -> Option<Seq<char>> {
    match m {
        Some(s) => Some(s@),
        None => None,
    }
}

// ---- Holding fans ----

/// Owns a manual-control session for one or more fans.
///
/// Whoever takes fans over must never leave a machine in a mutated fan state
/// when they fail. As long as `needs_restore` says so, the writes of `restore`
/// are due on every way out.
#[derive(Debug)]
pub struct FanControlGuard {
    pub fans: Vec<Fan>,
    pub restored: bool,
}

/// Whether `writes` restore all of `fans`, in order.
pub open spec fn all_restoring(fans: Seq<Fan>, writes: Seq<SysfsWrite>) -> bool {
    &&& writes.len() == 2 * fans.len()
    &&& forall|i: int|
        0 <= i < fans.len() ==> (#[trigger] fans[i]).are_restoring(
            writes.subrange(2 * i, 2 * i + 2),
        )
}

/// What to say of each of the first `n` fans that could not be restored.
pub open spec fn restore_failures(
    fans: Seq<Fan>,
    failures: Seq<Option<String>>,
    n: int,
) -> Seq<Seq<char>>
    decreases n,
{
    if n <= 0 {
        Seq::empty()
    } else {
        let rest = restore_failures(fans, failures, n - 1);
        let fan = fans[n - 1];
        match fan.restore_failure(seen(failures[2 * n - 2]), seen(failures[2 * n - 1])) {
            Some(e) => rest.push(fan.name@ + ": "@ + e),
            None => rest,
        }
    }
}

impl FanControlGuard {
    pub fn new(fans: Vec<Fan>) -> (r: Self)
        ensures
            r.fans@ == fans@,
            !r.restored,
    {
        FanControlGuard { fans, restored: false }
    }

    pub fn fans_mut(&mut self) -> (r: &mut Vec<Fan>)
        ensures
            *r == old(self).fans,
            final(self).fans == *final(r),
            !final(self).restored,
    {
        self.restored = false;
        &mut self.fans
    }

    /// Whether the fans may still be in a mutated state.
    pub fn needs_restore(&self) -> (r: bool)
        ensures
            r == !self.restored,
    {
        !self.restored
    }

    /// The writes that put every fan back as it was found. All of them are to be
    /// made, whichever fail.
    pub fn restore(&self) -> (r: Vec<SysfsWrite>)
        ensures
            all_restoring(self.fans@, r@),
    {
        let mut writes: Vec<SysfsWrite> = Vec::new();
        for i in 0..self.fans.len()
            invariant
                writes@.len() == 2 * i,
                forall|k: int|
                    0 <= k < i ==> (#[trigger] self.fans@[k]).are_restoring(
                        writes@.subrange(2 * k, 2 * k + 2),
                    ),
        {
            let ghost was = writes@;
            let mut two = self.fans[i].restore_original();
            let ghost added = two@;
            writes.append(&mut two);
            proof {
                assert forall|k: int| 0 <= k < i + 1 implies (
                #[trigger] self.fans@[k]).are_restoring(writes@.subrange(2 * k, 2 * k + 2)) by {
                    if k < i {
                        assert(writes@.subrange(2 * k, 2 * k + 2) =~= was.subrange(
                            2 * k,
                            2 * k + 2,
                        ));
                    } else {
                        assert(writes@.subrange(2 * k, 2 * k + 2) =~= added);
                    }
                }
            }
        }
        writes
    }

    /// Notes the outcome of the restoring writes, given why each failed.
    pub fn finish_restore(&mut self, failures: &Vec<Option<String>>) -> (r: Result<(), String>)
        requires
            failures@.len() == 2 * old(self).fans@.len(),
        ensures
            final(self).fans == old(self).fans,
            ({
                let texts = restore_failures(
                    old(self).fans@,
                    failures@,
                    old(self).fans@.len() as int,
                );
                match r {
                    Ok(_) => texts.len() == 0 && final(self).restored,
                    Err(m) => texts.len() > 0 && final(self).restored == old(self).restored && m@
                        == "failed to restore fan state: "@ + text::joined(texts, "; "@),
                }
            }),
    {
        let mut errors: Vec<String> = Vec::new();
        let n: usize = failures.len();
        assert(text::views(errors@) =~= restore_failures(self.fans@, failures@, 0));
        for i in 0..self.fans.len()
            invariant
                *self == *old(self),
                n == failures@.len(),
                n == 2 * self.fans@.len(),
                text::views(errors@) == restore_failures(self.fans@, failures@, i as int),
        {
            let fan = &self.fans[i];
            if let Err(m) = fan.restored_original(&failures[2 * i], &failures[2 * i + 1]) {
                let ghost was = errors@;
                errors.push(text::around(fan.name.as_str(), ": ", m.as_str()));
                assert(text::views(errors@) =~= text::views(was).push(fan.name@ + ": "@ + m@));
            }
        }
        if errors.len() == 0 {
            self.restored = true;
            Ok(())
        } else {
            Err("failed to restore fan state: ".to_owned().concat(
                text::join(&errors, "; ").as_str(),
            ))
        }
    }
}

/// Whether no two of the fans share a PWM or control mode file.
pub open spec fn separate(fans: Seq<Fan>) -> bool {
    &&& forall|i: int| 0 <= i < fans.len() ==> (#[trigger] fans[i]).pwm_path@ != fans[i].enable_path@
    &&& forall|i: int, j: int|
        0 <= i < j < fans.len() ==> {
            &&& (#[trigger] fans[i]).pwm_path@ != (#[trigger] fans[j]).pwm_path@
            &&& fans[i].pwm_path@ != fans[j].enable_path@
            &&& fans[i].enable_path@ != fans[j].pwm_path@
            &&& fans[i].enable_path@ != fans[j].enable_path@
        }
}

proof fn lemma_performed_append(
    files: Map<Seq<char>, Seq<char>>,
    a: Seq<SysfsWrite>,
    b: Seq<SysfsWrite>,
)
    ensures
        performed(files, a + b) == performed(performed(files, a), b),
    decreases b.len(),
{
    if b.len() == 0 {
        assert(a + b =~= a);
    } else {
        assert((a + b).drop_last() =~= a + b.drop_last());
        lemma_performed_append(files, a, b.drop_last());
    }
}

/// Whatever was written to the files of the fans in between, the restoring
/// writes leave in each fan's two files the PWM value and the control mode that
/// it was found with, and touch no other file.
pub proof fn law_restore_puts_back(
    files: Map<Seq<char>, Seq<char>>,
    fans: Seq<Fan>,
    writes: Seq<SysfsWrite>,
)
    requires
        all_restoring(fans, writes),
        separate(fans),
    ensures
        ({
            let after = performed(files, writes);
            &&& forall|i: int|
                0 <= i < fans.len() ==> {
                    &&& after.dom().contains((#[trigger] fans[i]).pwm_path@)
                    &&& after[fans[i].pwm_path@] == text::decimal(fans[i].original_pwm as nat)
                    &&& text::unsigned_of(after[fans[i].pwm_path@], 255) == Some(
                        fans[i].original_pwm as nat,
                    )
                    &&& after.dom().contains(fans[i].enable_path@)
                    &&& after[fans[i].enable_path@] == text::decimal(
                        fans[i].original_enable as nat,
                    )
                    &&& text::unsigned_of(after[fans[i].enable_path@], 255) == Some(
                        fans[i].original_enable as nat,
                    )
                }
            &&& forall|p: Seq<char>|
                (forall|i: int|
                    0 <= i < fans.len() ==> (#[trigger] fans[i]).pwm_path@ != p
                        && fans[i].enable_path@ != p) ==> {
                    &&& #[trigger] after.dom().contains(p) == files.dom().contains(p)
                    &&& files.dom().contains(p) ==> after[p] == files[p]
                }
        }),
    decreases fans.len(),
{
    if fans.len() == 0 {
        assert(writes =~= Seq::<SysfsWrite>::empty());
    } else {
        let n = fans.len() - 1;
        let front = writes.subrange(0, 2 * n);
        let back = writes.subrange(2 * n, 2 * n + 2);
        let last = fans[n];
        assert(writes =~= front + back);
        lemma_performed_append(files, front, back);
        assert forall|i: int| 0 <= i < n implies (#[trigger] fans.drop_last()[i]).are_restoring(
            front.subrange(2 * i, 2 * i + 2),
        ) by {
            assert(fans[i].are_restoring(writes.subrange(2 * i, 2 * i + 2)));
            assert(front.subrange(2 * i, 2 * i + 2) =~= writes.subrange(2 * i, 2 * i + 2));
        }
        assert(separate(fans.drop_last())) by {
            assert forall|i: int, j: int| 0 <= i < j < n implies {
                &&& (#[trigger] fans.drop_last()[i]).pwm_path@ != (
                #[trigger] fans.drop_last()[j]).pwm_path@
                &&& fans.drop_last()[i].pwm_path@ != fans.drop_last()[j].enable_path@
                &&& fans.drop_last()[i].enable_path@ != fans.drop_last()[j].pwm_path@
                &&& fans.drop_last()[i].enable_path@ != fans.drop_last()[j].enable_path@
            } by {
                assert(fans[i].pwm_path@ != fans[j].pwm_path@);
            }
        }
        law_restore_puts_back(files, fans.drop_last(), front);
        let mid = performed(files, front);
        let after = performed(files, writes);
        assert(last.are_restoring(back));
        assert(performed(mid, back) == mid.insert(
            last.pwm_path@,
            text::decimal(last.original_pwm as nat),
        ).insert(last.enable_path@, text::decimal(last.original_enable as nat))) by {
            assert(back.drop_last().drop_last() =~= Seq::<SysfsWrite>::empty());
            assert(back.drop_last().last() == back[0]);
            reveal_with_fuel(performed, 3);
        }
        assert forall|i: int| 0 <= i < fans.len() implies {
            &&& after.dom().contains((#[trigger] fans[i]).pwm_path@)
            &&& after[fans[i].pwm_path@] == text::decimal(fans[i].original_pwm as nat)
            &&& text::unsigned_of(after[fans[i].pwm_path@], 255) == Some(
                fans[i].original_pwm as nat,
            )
            &&& after.dom().contains(fans[i].enable_path@)
            &&& after[fans[i].enable_path@] == text::decimal(fans[i].original_enable as nat)
            &&& text::unsigned_of(after[fans[i].enable_path@], 255) == Some(
                fans[i].original_enable as nat,
            )
        } by {
            text::law_decimal_reads_back(fans[i].original_pwm as nat);
            text::law_decimal_reads_back(fans[i].original_enable as nat);
            if i < n {
                assert(fans.drop_last()[i] == fans[i]);
                assert(fans[i].pwm_path@ != fans[n].pwm_path@);
            }
        }
        assert forall|p: Seq<char>|
            (forall|i: int|
                0 <= i < fans.len() ==> (#[trigger] fans[i]).pwm_path@ != p && fans[i].enable_path@
                    != p) implies {
            &&& #[trigger] after.dom().contains(p) == files.dom().contains(p)
            &&& files.dom().contains(p) ==> after[p] == files[p]
        } by {
            assert(fans[n].pwm_path@ != p);
            assert forall|i: int| 0 <= i < n implies (#[trigger] fans.drop_last()[i]).pwm_path@ != p
                && fans.drop_last()[i].enable_path@ != p by {
                assert(fans[i].pwm_path@ != p);
            }
            assert(mid.dom().contains(p) == files.dom().contains(p));
        }
    }
}

// ---- Laws of binding and of restoring ----

/// Among the directories of the chips of that name, in the order of their numbers, an
/// instance picks the one of that place, counted from nought. Without an instance it
/// is the first that holds the file. There is one exactly where the chip is listed and
/// the place exists or some directory holds the file.
pub proof fn law_chosen_dir(
    sysfs: Sysfs,
    kind: Seq<char>,
    name: Seq<char>,
    chip: Seq<char>,
    instance: Option<u32>,
    file: Seq<char>,
)
    ensures
        match hwmon_paths(sysfs, chip) {
            Err(_) => chosen_dir(sysfs, kind, name, chip, instance, file) is Err,
            Ok(listed) => {
                let dirs = ordered(PathOrder::Number, listed);
                match (instance, chosen_dir(sysfs, kind, name, chip, instance, file)) {
                    (Some(i), Ok(d)) => i < listed.len() && d == dirs[i as int],
                    (Some(i), Err(_)) => i >= listed.len(),
                    (None, Ok(d)) => exists|k: int|
                        {
                            &&& 0 <= k < dirs.len()
                            &&& d == #[trigger] dirs[k]
                            &&& sysfs.at(below(d, file)) is Some
                            &&& forall|j: int|
                                0 <= j < k ==> sysfs.at(below(#[trigger] dirs[j], file)) is None
                        },
                    (None, Err(_)) => forall|j: int|
                        0 <= j < dirs.len() ==> sysfs.at(below(#[trigger] dirs[j], file)) is None,
                }
            },
        },
{
    if let Ok(listed) = hwmon_paths(sysfs, chip) {
        let dirs = ordered(PathOrder::Number, listed);
        crate::sysfs::law_ordered(PathOrder::Number, listed);
        dirs.to_multiset_ensures();
        listed.to_multiset_ensures();
        lemma_first_with(sysfs, dirs, file, 0);
    }
}

proof fn lemma_first_with(sysfs: Sysfs, dirs: Seq<Seq<char>>, file: Seq<char>, from: int)
    requires
        0 <= from <= dirs.len(),
    ensures
        match first_with(sysfs, dirs, file, from) {
            Some(d) => exists|k: int|
                {
                    &&& from <= k < dirs.len()
                    &&& d == #[trigger] dirs[k]
                    &&& sysfs.at(below(d, file)) is Some
                    &&& forall|j: int|
                        from <= j < k ==> sysfs.at(below(#[trigger] dirs[j], file)) is None
                },
            None => forall|j: int|
                from <= j < dirs.len() ==> sysfs.at(below(#[trigger] dirs[j], file)) is None,
        },
    decreases dirs.len() - from,
{
    if from < dirs.len() {
        lemma_first_with(sysfs, dirs, file, from + 1);
        if sysfs.at(below(dirs[from], file)) is Some {
            assert(dirs[from] == dirs[from]);
        } else if let Some(d) = first_with(sysfs, dirs, file, from + 1) {
            let k = choose|k: int|
                {
                    &&& from + 1 <= k < dirs.len()
                    &&& d == #[trigger] dirs[k]
                    &&& sysfs.at(below(d, file)) is Some
                    &&& forall|j: int|
                        from + 1 <= j < k ==> sysfs.at(below(#[trigger] dirs[j], file)) is None
                };
            assert(d == dirs[k]);
        }
    }
}

/// Below a directory without a slash at its end stands a slash and the name.
pub proof fn law_below(dir: Seq<char>, name: Seq<char>)
    requires
        dir.len() > 0,
        dir.last() != '/',
    ensures
        below(dir, name) == dir + seq!['/'] + name,
{
    reveal_strlit("/");
    assert("/"@ =~= seq!['/']);
}

/// The files of a bound sensor, by their names.
pub proof fn law_sensor_files(s: Sensor, name: Seq<char>, dir: Seq<char>, index: u32)
    requires
        s.is_at(name, dir, index),
    ensures
        s.name@ == name,
        s.input_path@ == below(dir, "temp"@ + text::decimal(index as nat) + "_input"@),
        s.label_path@ == below(dir, "temp"@ + text::decimal(index as nat) + "_label"@),
{
}

/// The files of a bound fan, by their names, and what it remembers: the control mode
/// and the PWM value that its files held.
pub proof fn law_fan_files(f: Fan, sysfs: Sysfs, name: Seq<char>, dir: Seq<char>, index: u32)
    requires
        f.is_at(sysfs, name, dir, index),
    ensures
        f.name@ == name,
        f.rpm_path@ == below(dir, "fan"@ + text::decimal(index as nat) + "_input"@),
        f.pwm_path@ == below(dir, "pwm"@ + text::decimal(index as nat)),
        f.enable_path@ == below(dir, "pwm"@ + text::decimal(index as nat) + "_enable"@),
        sysfs.number_at(f.pwm_path@, 255) == Ok::<nat, Seq<char>>(f.original_pwm as nat),
        sysfs.number_at(f.enable_path@, 255) == Ok::<nat, Seq<char>>(f.original_enable as nat),
        f.last_pwm is None,
{
}

/// A fan can be bound exactly where both its control mode and its PWM value can be
/// read.
pub proof fn law_fan_bound_iff(sysfs: Sysfs, dir: Seq<char>, index: u32)
    ensures
        fan_state(sysfs, dir, index) is Ok <==> sysfs.number_at(
            below(dir, "pwm"@ + text::decimal(index as nat)),
            255,
        ) is Ok && sysfs.number_at(
            below(dir, "pwm"@ + text::decimal(index as nat) + "_enable"@),
            255,
        ) is Ok,
{
}

/// The modes are numbered as the kernel numbers them.
pub proof fn law_mode_numbers(m: PwmEnable)
    ensures
        m.number() == 0 <==> m == PwmEnable::FullSpeed,
        m.number() == 1 <==> m == PwmEnable::Manual,
        m.number() == 2 <==> m == PwmEnable::Auto,
        m.number() == 3 <==> m == PwmEnable::SmartFan3,
        m.number() == 4 <==> m == PwmEnable::SmartFan4,
        m.number() == 5 <==> m == PwmEnable::SmartFan4v2,
{
}

/// What a restoring that failed says names each fan of which one write failed, or both,
/// once, in the order of the fans; it says nothing exactly where no write failed.
pub proof fn law_restore_failures(fans: Seq<Fan>, failures: Seq<Option<String>>)
    requires
        failures.len() == 2 * fans.len(),
    ensures
        restore_failures(fans, failures, fans.len() as int) == Seq::new(
            fans.len(),
            |i: int| i,
        ).filter(|i: int| failures[2 * i] is Some || failures[2 * i + 1] is Some).map_values(
            |i: int|
                fans[i].name@ + ": "@ + fans[i].restore_failure(
                    seen(failures[2 * i]),
                    seen(failures[2 * i + 1]),
                )->Some_0,
        ),
        restore_failures(fans, failures, fans.len() as int).len() == 0 <==> forall|i: int|
            0 <= i < failures.len() ==> #[trigger] failures[i] is None,
{
    let n = fans.len() as int;
    lemma_restore_failures(fans, failures, n);
    lemma_no_failures(fans, failures, n);
    if restore_failures(fans, failures, n).len() == 0 {
        assert forall|i: int| 0 <= i < failures.len() implies #[trigger] failures[i] is None by {
            let k = i / 2;
            assert(failures[2 * k] is None && failures[2 * k + 1] is None);
        }
    }
    if forall|i: int| 0 <= i < failures.len() ==> #[trigger] failures[i] is None {
        assert forall|k: int| 0 <= k < n implies #[trigger] failures[2 * k] is None && failures[2
            * k + 1] is None by {}
    }
}

proof fn lemma_no_failures(fans: Seq<Fan>, failures: Seq<Option<String>>, n: int)
    requires
        0 <= n <= fans.len(),
        failures.len() == 2 * fans.len(),
    ensures
        restore_failures(fans, failures, n).len() == 0 <==> forall|k: int|
            0 <= k < n ==> (#[trigger] failures[2 * k]) is None && failures[2 * k + 1] is None,
    decreases n,
{
    if n > 0 {
        lemma_no_failures(fans, failures, n - 1);
        assert(2 * (n - 1) == 2 * n - 2);
        if restore_failures(fans, failures, n).len() == 0 {
            assert forall|k: int| 0 <= k < n implies (#[trigger] failures[2 * k]) is None
                && failures[2 * k + 1] is None by {}
        }
        if forall|k: int|
            0 <= k < n ==> (#[trigger] failures[2 * k]) is None && failures[2 * k + 1] is None {
            assert(failures[2 * (n - 1)] is None && failures[2 * (n - 1) + 1] is None);
        }
    }
}

proof fn lemma_restore_failures(fans: Seq<Fan>, failures: Seq<Option<String>>, n: int)
    requires
        0 <= n <= fans.len(),
        failures.len() == 2 * fans.len(),
    ensures
        restore_failures(fans, failures, n) == Seq::new(n as nat, |i: int| i).filter(
            |i: int| failures[2 * i] is Some || failures[2 * i + 1] is Some,
        ).map_values(
            |i: int|
                fans[i].name@ + ": "@ + fans[i].restore_failure(
                    seen(failures[2 * i]),
                    seen(failures[2 * i + 1]),
                )->Some_0,
        ),
    decreases n,
{
    reveal(Seq::filter);
    let pred = |i: int| failures[2 * i] is Some || failures[2 * i + 1] is Some;
    let told = |i: int|
        fans[i].name@ + ": "@ + fans[i].restore_failure(
            seen(failures[2 * i]),
            seen(failures[2 * i + 1]),
        )->Some_0;
    let all = Seq::new(n as nat, |i: int| i);
    if n > 0 {
        lemma_restore_failures(fans, failures, n - 1);
        let rest = Seq::new((n - 1) as nat, |i: int| i);
        assert(all.drop_last() =~= rest);
        assert(all.last() == n - 1);
        if pred(n - 1) {
            assert(rest.filter(pred).push(n - 1).map_values(told) =~= rest.filter(pred).map_values(
                told,
            ).push(told(n - 1)));
        }
    }
    assert(restore_failures(fans, failures, n) =~= all.filter(pred).map_values(told));
}

/// What is said of one fan names it, and holds the reason of each write that failed.
pub proof fn law_restore_failure_told(
    f: Fan,
    pwm: Option<Seq<char>>,
    enable: Option<Seq<char>>,
)
    ensures
        f.restore_failure(pwm, enable) is None <==> pwm is None && enable is None,
        f.restore_failure(pwm, enable) matches Some(t) ==> {
            &&& ("fan '"@ + f.name@).is_prefix_of(t)
            &&& (pwm matches Some(e) ==> text::holds_part(t, "PWM restoration failed: "@ + e))
            &&& (enable matches Some(e) ==> text::holds_part(
                t,
                "control-mode restoration failed: "@ + e,
            ))
        },
{
    if let Some(t) = f.restore_failure(pwm, enable) {
        let start = "fan '"@ + f.name@;
        let opening = start + "': "@;
        assert(t.subrange(0, start.len() as int) =~= start);
        if let Some(e) = pwm {
            let part = "PWM restoration failed: "@ + e;
            let at = opening.len() as int;
            assert(t.subrange(at, at + part.len()) =~= part);
            assert(text::stands_at(t, part, at));
        }
        if let Some(e) = enable {
            let part = "control-mode restoration failed: "@ + e;
            let at = t.len() - part.len();
            assert(t.subrange(at, at + part.len()) =~= part);
            assert(text::stands_at(t, part, at));
        }
    }
}

} // verus!
