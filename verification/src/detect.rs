//! Discovery of sensors and controllable fans: which hwmon chips there are, what
//! they are for, and how their inputs are named.
use crate::hwmon::{fan_input, fan_input_name, pwm_file, pwm_file_name, temp_input, temp_label};
use crate::hwmon::{temp_input_name, temp_label_name};
use crate::sysfs::{below, first_failure, hwmon_base, join, read_failure, DirEntry, Listing};
use crate::sysfs::Sysfs;
use crate::text;
use vstd::prelude::*;

verus! {

/// The highest temperature input that is looked for.
pub const MAX_TEMP_INDEX: u32 = 16;

/// The highest PWM channel that is looked for.
pub const MAX_PWM_INDEX: u32 = 8;

/// What an hwmon chip is for.
#[derive(Debug, Clone, Copy, PartialEq, Eq, Structural)]
pub enum ChipClass {
    CpuTemp,
    GpuTemp,
    MotherboardEc,
    Other,
}

/// A discovered hwmon chip with its directory.
#[derive(Debug)]
pub struct HwmonChip {
    pub name: String,
    pub path: String,
    pub class: ChipClass,
}

/// A discovered temperature sensor.
#[derive(Debug)]
pub struct DetectedSensor {
    pub auto_name: String,
    pub hwmon_chip: String,
    pub hwmon_path: String,
    pub index: u32,
    pub label: Option<String>,
    /// In thousandths of a degree Celsius.
    pub current_temp_c: i64,
}

/// A discovered controllable fan (PWM channel).
#[derive(Debug)]
pub struct DetectedFan {
    pub auto_name: String,
    pub hwmon_chip: String,
    pub hwmon_path: String,
    pub pwm_index: u32,
    pub current_rpm: Option<u32>,
}

/// Everything that was discovered.
#[derive(Debug)]
pub struct DetectionResult {
    pub chips: Vec<HwmonChip>,
    pub sensors: Vec<DetectedSensor>,
    pub fans: Vec<DetectedFan>,
}

/// A chip by its texts.
pub ghost struct ChipView {
    pub name: Seq<char>,
    pub path: Seq<char>,
    pub class: ChipClass,
}

/// A sensor by its texts.
pub ghost struct SensorView {
    pub auto_name: Seq<char>,
    pub hwmon_chip: Seq<char>,
    pub hwmon_path: Seq<char>,
    pub index: u32,
    pub label: Option<Seq<char>>,
    pub current_temp_c: int,
}

/// A fan by its texts.
pub ghost struct FanView {
    pub auto_name: Seq<char>,
    pub hwmon_chip: Seq<char>,
    pub hwmon_path: Seq<char>,
    pub pwm_index: u32,
    pub current_rpm: Option<u32>,
}

impl View for HwmonChip {
    type V = ChipView;

    open spec fn view(&self) -> ChipView {
        ChipView { name: self.name@, path: self.path@, class: self.class }
    }
}

impl View for DetectedSensor {
    type V = SensorView;

    open spec fn view(&self) -> SensorView {
        SensorView {
            auto_name: self.auto_name@,
            hwmon_chip: self.hwmon_chip@,
            hwmon_path: self.hwmon_path@,
            index: self.index,
            label: crate::hwmon::seen(self.label),
            current_temp_c: self.current_temp_c as int,
        }
    }
}

impl View for DetectedFan {
    type V = FanView;

    open spec fn view(&self) -> FanView {
        FanView {
            auto_name: self.auto_name@,
            hwmon_chip: self.hwmon_chip@,
            hwmon_path: self.hwmon_path@,
            pwm_index: self.pwm_index,
            current_rpm: self.current_rpm,
        }
    }
}

pub open spec fn chip_views(s: Seq<HwmonChip>) -> Seq<ChipView> {
    s.map_values(|c: HwmonChip| c@)
}

pub open spec fn sensor_views(s: Seq<DetectedSensor>) -> Seq<SensorView> {
    s.map_values(|c: DetectedSensor| c@)
}

pub open spec fn fan_views(s: Seq<DetectedFan>) -> Seq<FanView> {
    s.map_values(|c: DetectedFan| c@)
}

// ---- Chips ----

/// What the chip with the name is for.
pub open spec fn class_of(name: Seq<char>) -> ChipClass {
    if name == "k10temp"@ || name == "coretemp"@ || name == "zenpower"@ {
        ChipClass::CpuTemp
    } else if name == "amdgpu"@ || name == "nvidia"@ || name == "nouveau"@ {
        ChipClass::GpuTemp
    } else if "nct6"@.is_prefix_of(name) || "it8"@.is_prefix_of(name) || "w83"@.is_prefix_of(name)
        || "f71"@.is_prefix_of(name) || "asus"@.is_prefix_of(name) {
        ChipClass::MotherboardEc
    } else {
        ChipClass::Other
    }
}

/// Classify a chip name by its function.
pub fn classify_chip(name: &str) -> (r: ChipClass)
    ensures
        r == class_of(name@),
{
    if text::same(name, "k10temp") || text::same(name, "coretemp") || text::same(
        name,
        "zenpower",
    ) {
        ChipClass::CpuTemp
    } else if text::same(name, "amdgpu") || text::same(name, "nvidia") || text::same(
        name,
        "nouveau",
    ) {
        ChipClass::GpuTemp
    } else if text::starts_with(name, "nct6") || text::starts_with(name, "it8")
        || text::starts_with(name, "w83") || text::starts_with(name, "f71") || text::starts_with(
        name,
        "asus",
    ) {
        ChipClass::MotherboardEc
    } else {
        ChipClass::Other
    }
}

/// The listed chips whose name can be read, as listed.
pub open spec fn listed_chips(sysfs: Sysfs, entries: Seq<DirEntry>) -> Seq<ChipView>
    decreases entries.len(),
{
    if entries.len() == 0 {
        Seq::empty()
    } else {
        let rest = listed_chips(sysfs, entries.drop_last());
        match entries.last() {
            DirEntry::Failed(_) => rest,
            DirEntry::Path(p) => match sysfs.text_at(below(p@, "name"@)) {
                None => rest,
                Some(t) => rest.push(
                    ChipView {
                        name: text::trimmed(t),
                        path: p@,
                        class: class_of(text::trimmed(t)),
                    },
                ),
            },
        }
    }
}

/// Those of `chips` that are of the class, as they stand.
pub open spec fn of_class(chips: Seq<ChipView>, class: ChipClass) -> Seq<ChipView>
    decreases chips.len(),
{
    if chips.len() == 0 {
        Seq::empty()
    } else if chips.last().class == class {
        of_class(chips.drop_last(), class).push(chips.last())
    } else {
        of_class(chips.drop_last(), class)
    }
}

/// CPU chips first, then GPU chips, then board controllers, then the others;
/// those of one class as they stand.
pub open spec fn by_class(chips: Seq<ChipView>) -> Seq<ChipView> {
    of_class(chips, ChipClass::CpuTemp) + of_class(chips, ChipClass::GpuTemp) + of_class(
        chips,
        ChipClass::MotherboardEc,
    ) + of_class(chips, ChipClass::Other)
}

proof fn lemma_of_class(chips: Seq<ChipView>, class: ChipClass)
    ensures
        forall|i: int|
            0 <= i < of_class(chips, class).len() ==> (#[trigger] of_class(chips, class)[i]).class
                == class,
        forall|c: ChipView| #[trigger]
            of_class(chips, class).to_multiset().count(c) == if c.class == class {
                chips.to_multiset().count(c)
            } else {
                0
            },
    decreases chips.len(),
{
    broadcast use vstd::seq_lib::group_to_multiset_ensures;

    if chips.len() > 0 {
        lemma_of_class(chips.drop_last(), class);
        assert(chips =~= chips.drop_last().push(chips.last()));
        let rest = of_class(chips.drop_last(), class);
        if chips.last().class == class {
            assert forall|i: int| 0 <= i < of_class(chips, class).len() implies (
            #[trigger] of_class(chips, class)[i]).class == class by {
                if i < rest.len() {
                    assert(rest[i].class == class);
                }
            }
        }
    }
}

/// Arranging chips by class loses none and adds none, and puts every chip behind
/// those of the classes before its own.
pub proof fn law_by_class(chips: Seq<ChipView>)
    ensures
        by_class(chips).to_multiset() =~= chips.to_multiset(),
        forall|i: int, j: int|
            0 <= i < j < by_class(chips).len() ==> class_rank((#[trigger] by_class(chips)[i]).class)
                <= class_rank((#[trigger] by_class(chips)[j]).class),
{
    let a = of_class(chips, ChipClass::CpuTemp);
    let b = of_class(chips, ChipClass::GpuTemp);
    let c = of_class(chips, ChipClass::MotherboardEc);
    let d = of_class(chips, ChipClass::Other);
    lemma_of_class(chips, ChipClass::CpuTemp);
    lemma_of_class(chips, ChipClass::GpuTemp);
    lemma_of_class(chips, ChipClass::MotherboardEc);
    lemma_of_class(chips, ChipClass::Other);
    vstd::seq_lib::lemma_multiset_commutative(a, b);
    vstd::seq_lib::lemma_multiset_commutative(a + b, c);
    vstd::seq_lib::lemma_multiset_commutative(a + b + c, d);
    assert forall|i: int, j: int| 0 <= i < j < by_class(chips).len() implies class_rank(
        (#[trigger] by_class(chips)[i]).class,
    ) <= class_rank((#[trigger] by_class(chips)[j]).class) by {
        lemma_in_fourth(a, b, c, d, i);
        lemma_in_fourth(a, b, c, d, j);
    }
}

proof fn lemma_in_fourth(
    a: Seq<ChipView>,
    b: Seq<ChipView>,
    c: Seq<ChipView>,
    d: Seq<ChipView>,
    i: int,
)
    requires
        0 <= i < (a + b + c + d).len(),
    ensures
        (a + b + c + d)[i] == if i < a.len() {
            a[i]
        } else if i < a.len() + b.len() {
            b[i - a.len()]
        } else if i < a.len() + b.len() + c.len() {
            c[i - a.len() - b.len()]
        } else {
            d[i - a.len() - b.len() - c.len()]
        },
{
}

/// Where a class stands in the order of chips.
pub open spec fn class_rank(class: ChipClass) -> int {
    match class {
        ChipClass::CpuTemp => 0,
        ChipClass::GpuTemp => 1,
        ChipClass::MotherboardEc => 2,
        ChipClass::Other => 3,
    }
}

/// The chips in order of their classes, or why they cannot be had.
pub open spec fn chips_found(sysfs: Sysfs) -> Result<Seq<ChipView>, Seq<char>> {
    match sysfs.listing {
        Listing::Missing => Err(
            "/sys/class/hwmon does not exist \u{2014} are you running on Linux?"@,
        ),
        Listing::Failed(e) => Err(read_failure(hwmon_base(), e@)),
        Listing::Entries(entries) => match first_failure(entries@) {
            Some(e) => Err(e),
            None => Ok(by_class(listed_chips(sysfs, entries@))),
        },
    }
}

fn list_chips(sysfs: &Sysfs, entries: &Vec<DirEntry>) -> (r: Result<Vec<HwmonChip>, String>)
    ensures
        match r {
            Ok(v) => first_failure(entries@) is None && chip_views(v@) == listed_chips(
                *sysfs,
                entries@,
            ),
            Err(m) => first_failure(entries@) == Some(m@),
        },
{
    let mut chips: Vec<HwmonChip> = Vec::new();
    assert(chip_views(chips@) =~= listed_chips(*sysfs, entries@.take(0)));
    for i in 0..entries.len()
        invariant
            first_failure(entries@.take(i as int)) is None,
            chip_views(chips@) == listed_chips(*sysfs, entries@.take(i as int)),
    {
        assert(entries@.take(i + 1).drop_last() =~= entries@.take(i as int));
        match &entries[i] {
            DirEntry::Failed(e) => {
                proof {
                    crate::sysfs::lemma_first_failure_stands(entries@, i + 1);
                }
                return Err(e.clone());
            },
            DirEntry::Path(p) => {
                if let Some(name) = sysfs.read_string(join(p.as_str(), "name").as_str()) {
                    let class = classify_chip(name.as_str());
                    let ghost was = chips@;
                    chips.push(HwmonChip { name, path: p.clone(), class });
                    assert(chip_views(chips@) =~= chip_views(was).push(chips@.last()@));
                }
            },
        }
    }
    assert(entries@.take(entries@.len() as int) =~= entries@);
    Ok(chips)
}

fn copy_class(chips: &Vec<HwmonChip>, class: ChipClass, out: &mut Vec<HwmonChip>)
    ensures
        chip_views(final(out)@) == chip_views(old(out)@) + of_class(chip_views(chips@), class),
{
    let ghost start = chip_views(out@);
    let ghost all = chip_views(chips@);
    assert(start =~= start + of_class(all.take(0), class));
    for i in 0..chips.len()
        invariant
            all == chip_views(chips@),
            chip_views(out@) == start + of_class(all.take(i as int), class),
    {
        assert(all.take(i + 1).drop_last() =~= all.take(i as int));
        if chips[i].class == class {
            let ghost was = out@;
            out.push(
                HwmonChip {
                    name: chips[i].name.clone(),
                    path: chips[i].path.clone(),
                    class: chips[i].class,
                },
            );
            assert(chip_views(out@) =~= chip_views(was).push(all[i as int]));
            assert(chip_views(out@) =~= start + of_class(all.take(i + 1), class));
        }
    }
    assert(all.take(all.len() as int) =~= all);
}

/// All hwmon chips, CPU first, GPU second, board controllers third.
pub fn enumerate_chips(sysfs: &Sysfs) -> (r: Result<Vec<HwmonChip>, String>)
    ensures
        match (r, chips_found(*sysfs)) {
            (Ok(v), Ok(c)) => chip_views(v@) == c,
            (Err(m), Err(e)) => m@ == e,
            _ => false,
        },
{
    match &sysfs.listing {
        Listing::Missing => Err(
            "/sys/class/hwmon does not exist \u{2014} are you running on Linux?".to_owned(),
        ),
        Listing::Failed(e) => Err(
            text::around("failed to read ", "/sys/class/hwmon", ": ").concat(e.as_str()),
        ),
        Listing::Entries(entries) => {
            let listed = match list_chips(sysfs, entries) {
                Ok(v) => v,
                Err(m) => {
                    return Err(m);
                },
            };
            let mut chips: Vec<HwmonChip> = Vec::new();
            copy_class(&listed, ChipClass::CpuTemp, &mut chips);
            copy_class(&listed, ChipClass::GpuTemp, &mut chips);
            copy_class(&listed, ChipClass::MotherboardEc, &mut chips);
            copy_class(&listed, ChipClass::Other, &mut chips);
            assert(chip_views(chips@) =~= by_class(chip_views(listed@)));
            Ok(chips)
        },
    }
}

// ---- Names ----

/// The lower-case form of a text, as `str::to_lowercase` gives it.
pub uninterp spec fn lowercased(s: Seq<char>) -> Seq<char>;

/// Whether every character is ASCII.
pub open spec fn is_ascii(s: Seq<char>) -> bool {
    forall|i: int| 0 <= i < s.len() ==> (#[trigger] s[i]) as u32 <= 127
}

/// `str::to_lowercase` of std: the Unicode lower-case form of the text. It is a
/// function of the text alone; on ASCII text it maps `A` to `Z` to `a` to `z`
/// and leaves the rest; and no ASCII capital is left in it, so that turning those
/// into small letters changes nothing any more.
#[verifier::external_body]
fn to_lowercase(s: &str) -> (r: String)
    ensures
        r@ == lowercased(s@),
        is_ascii(s@) ==> r@ == text::ascii_lowered(s@),
        text::ascii_lowered(r@) == r@,
{
    s.to_lowercase()
}

/// Whether a name may hold the character.
pub open spec fn name_char(c: char) -> bool {
    text::ascii_letter(c) || text::ascii_digit(c) || c == '_'
}

/// `s` with underscores for blanks and without anything else that a name may not
/// hold.
pub open spec fn cleaned(s: Seq<char>) -> Seq<char>
    decreases s.len(),
{
    if s.len() == 0 {
        s
    } else {
        let rest = cleaned(s.drop_last());
        if s.last() == ' ' {
            rest.push('_')
        } else if name_char(s.last()) {
            rest.push(s.last())
        } else {
            rest
        }
    }
}

/// A cleaned text holds nothing but ASCII letters, digits and underscores.
pub proof fn law_cleaned(s: Seq<char>)
    ensures
        forall|i: int| 0 <= i < cleaned(s).len() ==> name_char(#[trigger] cleaned(s)[i]),
    decreases s.len(),
{
    if s.len() > 0 {
        law_cleaned(s.drop_last());
        let rest = cleaned(s.drop_last());
        assert forall|i: int| 0 <= i < cleaned(s).len() implies name_char(
            #[trigger] cleaned(s)[i],
        ) by {
            if i < rest.len() {
                assert(name_char(rest[i]));
            }
        }
    }
}

/// `s` with underscores for blanks and without anything else that a name may not
/// hold.
pub fn clean_label(s: &str) -> (r: String)
    ensures
        r@ == cleaned(s@),
{
    let v = text::chars_of(s);
    let mut r = String::new();
    assert(r@ =~= cleaned(s@.take(0)));
    for i in 0..v.len()
        invariant
            v@ == s@,
            r@ == cleaned(s@.take(i as int)),
    {
        let c = v[i];
        assert(s@.take(i + 1).drop_last() =~= s@.take(i as int));
        if c == ' ' {
            r.push('_');
        } else if ('a' <= c && c <= 'z') || ('A' <= c && c <= 'Z') || ('0' <= c && c <= '9') || c
            == '_' {
            r.push(c);
        }
    }
    assert(s@.take(s@.len() as int) =~= s@);
    r
}

/// A text in small letters.
pub open spec fn lowered(s: Seq<char>) -> Seq<char> {
    text::ascii_lowered(
        if is_ascii(s) {
            s
        } else {
            lowercased(s)
        },
    )
}

/// A label as a name: lower-case, with underscores for blanks, and without
/// anything else that a name may not hold.
pub open spec fn sanitized(label: Seq<char>) -> Seq<char> {
    cleaned(lowered(label))
}

/// Sanitize a label into a valid config name (lowercase, no spaces).
pub fn sanitize_label(label: &str) -> (r: String)
    ensures
        r@ == sanitized(label@),
        r@ == cleaned(lowercased(label@)),
{
    clean_label(to_lowercase(label).as_str())
}

/// Whether the character is one that a sanitized label may hold.
pub open spec fn small_name_char(c: char) -> bool {
    ('a' <= c && c <= 'z') || text::ascii_digit(c) || c == '_'
}

proof fn lemma_cleaned_small(s: Seq<char>)
    ensures
        forall|i: int|
            0 <= i < cleaned(text::ascii_lowered(s)).len() ==> small_name_char(
                #[trigger] cleaned(text::ascii_lowered(s))[i],
            ),
    decreases s.len(),
{
    let low = text::ascii_lowered(s);
    if s.len() > 0 {
        lemma_cleaned_small(s.drop_last());
        assert(low.drop_last() =~= text::ascii_lowered(s.drop_last()));
        assert(low.last() == text::ascii_lower(s.last()));
        let rest = cleaned(low.drop_last());
        assert forall|i: int| 0 <= i < cleaned(low).len() implies small_name_char(
            #[trigger] cleaned(low)[i],
        ) by {
            if i < rest.len() {
                assert(small_name_char(rest[i]));
            }
        }
    }
}

proof fn lemma_cleaned_keeps(s: Seq<char>)
    requires
        forall|i: int| 0 <= i < s.len() ==> small_name_char(#[trigger] s[i]),
    ensures
        cleaned(s) == s,
    decreases s.len(),
{
    if s.len() > 0 {
        assert forall|i: int| 0 <= i < s.drop_last().len() implies small_name_char(
            #[trigger] s.drop_last()[i],
        ) by {
            assert(s.drop_last()[i] == s[i]);
        }
        lemma_cleaned_keeps(s.drop_last());
        assert(small_name_char(s[s.len() - 1]));
        assert(s.drop_last().push(s.last()) =~= s);
    }
}

/// A sanitized label holds nothing but small ASCII letters, digits and
/// underscores, and sanitizing it again changes nothing.
pub proof fn law_sanitized(label: Seq<char>)
    ensures
        forall|i: int|
            0 <= i < sanitized(label).len() ==> small_name_char(#[trigger] sanitized(label)[i]),
        sanitized(sanitized(label)) == sanitized(label),
{
    let name = sanitized(label);
    lemma_cleaned_small(
        if is_ascii(label) {
            label
        } else {
            lowercased(label)
        },
    );
    assert(is_ascii(name)) by {
        assert forall|i: int| 0 <= i < name.len() implies (#[trigger] name[i]) as u32 <= 127 by {
            assert(small_name_char(name[i]));
        }
    }
    assert(text::ascii_lowered(name) =~= name) by {
        assert forall|i: int| 0 <= i < name.len() implies text::ascii_lower(#[trigger] name[i])
            == name[i] by {
            assert(small_name_char(name[i]));
        }
    }
    lemma_cleaned_keeps(name);
}

/// The name of a CPU sensor.
pub open spec fn cpu_name(index: u32, label: Option<Seq<char>>) -> Seq<char> {
    match label {
        Some(l) => if l == "Tctl"@ || l == "Tdie"@ {
            "cpu"@
        } else if "Tccd"@.is_prefix_of(l) {
            "cpu_ccd"@ + text::without_leading(l, "Tccd"@)
        } else if "Core "@.is_prefix_of(l) {
            "cpu_core"@ + text::without_char(text::without_leading(l, "Core "@), ' ')
        } else {
            "cpu_"@ + sanitized(l)
        },
        None => if index == 1 {
            "cpu"@
        } else {
            "cpu_temp"@ + text::decimal(index as nat)
        },
    }
}

pub fn auto_name_cpu_sensor(index: u32, label: &Option<String>) -> (r: String)
    ensures
        r@ == cpu_name(index, crate::hwmon::seen(*label)),
{
    match label {
        Some(l) => {
            if text::same(l.as_str(), "Tctl") || text::same(l.as_str(), "Tdie") {
                "cpu".to_owned()
            } else if text::starts_with(l.as_str(), "Tccd") {
                proof {
                    reveal_strlit("Tccd");
                }
                "cpu_ccd".to_owned().concat(text::trim_start_matches(l.as_str(), "Tccd").as_str())
            } else if text::starts_with(l.as_str(), "Core ") {
                proof {
                    reveal_strlit("Core ");
                }
                let rest = text::trim_start_matches(l.as_str(), "Core ");
                "cpu_core".to_owned().concat(text::remove_char(rest.as_str(), ' ').as_str())
            } else {
                "cpu_".to_owned().concat(sanitize_label(l.as_str()).as_str())
            }
        },
        None => if index == 1 {
            "cpu".to_owned()
        } else {
            "cpu_temp".to_owned().concat(text::decimal_of(index as u64).as_str())
        },
    }
}

/// The name of a GPU sensor.
pub open spec fn gpu_name(label: Option<Seq<char>>, multi: bool, gpu: nat) -> Seq<char> {
    let prefix = if multi {
        "gpu"@ + text::decimal(gpu)
    } else {
        "gpu"@
    };
    match label {
        Some(l) => if l == "edge"@ {
            prefix
        } else if l == "junction"@ {
            prefix + "_junction"@
        } else if l == "mem"@ {
            prefix + "_mem"@
        } else {
            prefix + "_"@ + sanitized(l)
        },
        None => prefix,
    }
}

pub fn auto_name_gpu_sensor(label: &Option<String>, is_multi_gpu: bool, gpu_idx: usize) -> (r:
    String)
    ensures
        r@ == gpu_name(crate::hwmon::seen(*label), is_multi_gpu, gpu_idx as nat),
{
    let prefix = if is_multi_gpu {
        "gpu".to_owned().concat(text::decimal_of(gpu_idx as u64).as_str())
    } else {
        "gpu".to_owned()
    };
    match label {
        Some(l) => {
            if text::same(l.as_str(), "edge") {
                prefix
            } else if text::same(l.as_str(), "junction") {
                prefix.concat("_junction")
            } else if text::same(l.as_str(), "mem") {
                prefix.concat("_mem")
            } else {
                prefix.concat("_").concat(sanitize_label(l.as_str()).as_str())
            }
        },
        None => prefix,
    }
}

/// The name of a board controller's sensor.
pub open spec fn ec_name(index: u32, label: Option<Seq<char>>) -> Seq<char> {
    match label {
        Some(l) => "board_"@ + sanitized(l),
        None => "board_temp"@ + text::decimal(index as nat),
    }
}

pub fn auto_name_ec_sensor(index: u32, label: &Option<String>) -> (r: String)
    ensures
        r@ == ec_name(index, crate::hwmon::seen(*label)),
{
    match label {
        Some(l) => "board_".to_owned().concat(sanitize_label(l.as_str()).as_str()),
        None => "board_temp".to_owned().concat(text::decimal_of(index as u64).as_str()),
    }
}

/// The name that a sensor has by its chip and label alone.
pub open spec fn base_name(
    chip: ChipView,
    index: u32,
    label: Option<Seq<char>>,
    multi: bool,
    gpu: Option<usize>,
) -> Seq<char> {
    match chip.class {
        ChipClass::CpuTemp => cpu_name(index, label),
        ChipClass::GpuTemp => gpu_name(
            label,
            multi,
            match gpu {
                Some(g) => g as nat,
                None => 0,
            },
        ),
        ChipClass::MotherboardEc => ec_name(index, label),
        ChipClass::Other => chip.name + "_temp"@ + text::decimal(index as nat),
    }
}

/// `base`, told apart from the names in use: by the index where `base` is in use,
/// by chip and index where that is in use too.
pub open spec fn told_apart(
    base: Seq<char>,
    chip: Seq<char>,
    index: u32,
    existing: Seq<Seq<char>>,
) -> Seq<char> {
    let second = base + "_"@ + text::decimal(index as nat);
    if !existing.contains(base) {
        base
    } else if !existing.contains(second) {
        second
    } else {
        chip + "_"@ + base + "_"@ + text::decimal(index as nat)
    }
}

/// A sensor's name is not in use yet, unless all three candidates are.
pub proof fn law_told_apart(
    base: Seq<char>,
    chip: Seq<char>,
    index: u32,
    existing: Seq<Seq<char>>,
)
    requires
        !existing.contains(chip + "_"@ + base + "_"@ + text::decimal(index as nat)),
    ensures
        !existing.contains(told_apart(base, chip, index, existing)),
{
}

pub fn auto_name_sensor(
    chip: &HwmonChip,
    index: u32,
    label: &Option<String>,
    existing: &Vec<String>,
    is_multi_gpu: bool,
    gpu_idx: Option<usize>,
) -> (r: String)
    ensures
        r@ == told_apart(
            base_name(chip@, index, crate::hwmon::seen(*label), is_multi_gpu, gpu_idx),
            chip.name@,
            index,
            text::views(existing@),
        ),
{
    let base = match chip.class {
        ChipClass::CpuTemp => auto_name_cpu_sensor(index, label),
        ChipClass::GpuTemp => {
            let g: usize = match gpu_idx {
                Some(g) => g,
                None => 0,
            };
            auto_name_gpu_sensor(label, is_multi_gpu, g)
        },
        ChipClass::MotherboardEc => auto_name_ec_sensor(index, label),
        ChipClass::Other => text::around(
            chip.name.as_str(),
            "_temp",
            text::decimal_of(index as u64).as_str(),
        ),
    };
    if text::is_one_of(existing, base.as_str()) {
        let number = text::decimal_of(index as u64);
        let second = text::around(base.as_str(), "_", number.as_str());
        if text::is_one_of(existing, second.as_str()) {
            text::around(chip.name.as_str(), "_", base.as_str()).concat("_").concat(
                number.as_str(),
            )
        } else {
            second
        }
    } else {
        base
    }
}

// ---- Sensors ----

/// The number in the file at `path`, where it holds one.
pub open spec fn signed_text(sysfs: Sysfs, path: Seq<char>) -> Option<int> {
    match sysfs.text_at(path) {
        Some(t) => text::signed_of(text::trimmed(t)),
        None => None,
    }
}

fn read_sysfs_i64(sysfs: &Sysfs, path: &str) -> (r: Option<i64>)
    ensures
        match (r, signed_text(*sysfs, path@)) {
            (Some(n), Some(v)) => n == v,
            (None, None) => true,
            _ => false,
        },
{
    match sysfs.read_string(path) {
        Some(s) => text::parse_signed(s.as_str()),
        None => None,
    }
}

/// How many of `chips` are of the class.
pub open spec fn class_count(chips: Seq<ChipView>, class: ChipClass) -> nat {
    of_class(chips, class).len()
}

/// What a scan has found: sensors, and warnings about inputs that cannot be read.
pub ghost struct SensorScan {
    pub sensors: Seq<SensorView>,
    pub warnings: Seq<Seq<char>>,
}

pub open spec fn names_of(sensors: Seq<SensorView>) -> Seq<Seq<char>> {
    sensors.map_values(|s: SensorView| s.auto_name)
}

/// Whether chips of the class are scanned for temperatures.
pub open spec fn scanned(class: ChipClass, include_ec: bool) -> bool {
    match class {
        ChipClass::CpuTemp | ChipClass::GpuTemp => true,
        ChipClass::MotherboardEc => include_ec,
        ChipClass::Other => false,
    }
}

/// The scan with the `index`-th input of the chip added to it. An input that
/// does not exist adds nothing, one that cannot be read a warning, and one
/// outside of -20 to 150 degrees is no sensor.
pub open spec fn with_input(
    sysfs: Sysfs,
    chip: ChipView,
    multi: bool,
    gpu: Option<usize>,
    index: u32,
    scan: SensorScan,
) -> SensorScan {
    let path = below(chip.path, temp_input(index));
    if sysfs.at(path) is None {
        scan
    } else {
        match signed_text(sysfs, path) {
            None => SensorScan {
                warnings: scan.warnings.push("warning: could not read "@ + path + ", skipping"@),
                ..scan
            },
            Some(t) => if t < -20000 || t > 150000 {
                scan
            } else {
                let label = match sysfs.text_at(below(chip.path, temp_label(index))) {
                    Some(l) => Some(text::trimmed(l)),
                    None => None,
                };
                SensorScan {
                    sensors: scan.sensors.push(
                        SensorView {
                            auto_name: told_apart(
                                base_name(chip, index, label, multi, gpu),
                                chip.name,
                                index,
                                names_of(scan.sensors),
                            ),
                            hwmon_chip: chip.name,
                            hwmon_path: chip.path,
                            index,
                            label,
                            current_temp_c: t,
                        },
                    ),
                    ..scan
                }
            },
        }
    }
}

/// The scan with the chip's inputs up to the `n`-th added to it.
pub open spec fn with_inputs(
    sysfs: Sysfs,
    chip: ChipView,
    multi: bool,
    gpu: Option<usize>,
    n: int,
    scan: SensorScan,
) -> SensorScan
    decreases n,
{
    if n <= 0 {
        scan
    } else {
        with_input(
            sysfs,
            chip,
            multi,
            gpu,
            n as u32,
            with_inputs(sysfs, chip, multi, gpu, n - 1, scan),
        )
    }
}

/// The number of the GPU that the `n`-th chip is, if it is one.
pub open spec fn gpu_number(chips: Seq<ChipView>, n: int) -> Option<usize> {
    if chips[n].class == ChipClass::GpuTemp {
        Some(class_count(chips.take(n), ChipClass::GpuTemp) as usize)
    } else {
        None
    }
}

/// The scan of the first `n` chips.
pub open spec fn scan_of(sysfs: Sysfs, chips: Seq<ChipView>, include_ec: bool, n: int) -> SensorScan
    decreases n,
{
    if n <= 0 {
        SensorScan { sensors: Seq::empty(), warnings: Seq::empty() }
    } else {
        let before = scan_of(sysfs, chips, include_ec, n - 1);
        let chip = chips[n - 1];
        if scanned(chip.class, include_ec) {
            with_inputs(
                sysfs,
                chip,
                chip.class == ChipClass::GpuTemp && class_count(chips, ChipClass::GpuTemp) > 1,
                gpu_number(chips, n - 1),
                MAX_TEMP_INDEX as int,
                before,
            )
        } else {
            before
        }
    }
}

fn count_class(chips: &Vec<HwmonChip>, n: usize, class: ChipClass) -> (r: usize)
    requires
        n <= chips.len(),
    ensures
        r == class_count(chip_views(chips@).take(n as int), class),
        r <= n,
{
    let ghost all = chip_views(chips@);
    let mut count: usize = 0;
    assert(of_class(all.take(0), class).len() == 0);
    for i in 0..n
        invariant
            n <= chips.len(),
            all == chip_views(chips@),
            count == class_count(all.take(i as int), class),
            count <= i,
    {
        assert(all.take(i + 1).drop_last() =~= all.take(i as int));
        if chips[i].class == class {
            count = count + 1;
        }
    }
    count
}

fn scan_input(
    sysfs: &Sysfs,
    chip: &HwmonChip,
    multi: bool,
    gpu: Option<usize>,
    index: u32,
    sensors: &mut Vec<DetectedSensor>,
    names: &mut Vec<String>,
    warnings: &mut Vec<String>,
)
    requires
        text::views(old(names)@) == names_of(sensor_views(old(sensors)@)),
    ensures
        text::views(final(names)@) == names_of(sensor_views(final(sensors)@)),
        (SensorScan {
            sensors: sensor_views(final(sensors)@),
            warnings: text::views(final(warnings)@),
        }) == with_input(
            *sysfs,
            chip@,
            multi,
            gpu,
            index,
            SensorScan {
                sensors: sensor_views(old(sensors)@),
                warnings: text::views(old(warnings)@),
            },
        ),
{
    let path = join(chip.path.as_str(), temp_input_name(index).as_str());
    if !sysfs.has(path.as_str()) {
        return ;
    }
    match read_sysfs_i64(sysfs, path.as_str()) {
        None => {
            warnings.push(text::around("warning: could not read ", path.as_str(), ", skipping"));
            assert(text::views(warnings@) =~= text::views(old(warnings)@).push(
                warnings@.last()@,
            ));
        },
        Some(t) => {
            if t < -20000 || t > 150000 {
                return ;
            }
            let label = sysfs.read_string(
                join(chip.path.as_str(), temp_label_name(index).as_str()).as_str(),
            );
            let auto_name = auto_name_sensor(chip, index, &label, names, multi, gpu);
            names.push(auto_name.clone());
            sensors.push(
                DetectedSensor {
                    auto_name,
                    hwmon_chip: chip.name.clone(),
                    hwmon_path: chip.path.clone(),
                    index,
                    label,
                    current_temp_c: t,
                },
            );
            proof {
                assert(sensor_views(sensors@) =~= sensor_views(old(sensors)@).push(
                    sensors@.last()@,
                ));
                let was = names_of(sensor_views(old(sensors)@));
                assert(text::views(names@) =~= was.push(sensors@.last().auto_name@));
                assert(names_of(sensor_views(sensors@)) =~= was.push(
                    sensors@.last().auto_name@,
                ));
            }
        },
    }
}

/// Temperature sensors of the given chips; board controllers are scanned only
/// where `include_ec` says so. What is to be told of inputs that cannot be read
/// is added to `warnings`.
pub fn discover_sensors(
    chips: &Vec<HwmonChip>,
    include_ec: bool,
    sysfs: &Sysfs,
    warnings: &mut Vec<String>,
) -> (r: Result<Vec<DetectedSensor>, String>)
    ensures
        ({
            let scan = scan_of(*sysfs, chip_views(chips@), include_ec, chips@.len() as int);
            &&& r matches Ok(v) && sensor_views(v@) == scan.sensors
            &&& text::views(final(warnings)@) == text::views(old(warnings)@) + scan.warnings
        }),
{
    let ghost all = chip_views(chips@);
    let mut sensors: Vec<DetectedSensor> = Vec::new();
    let mut names: Vec<String> = Vec::new();
    let mut told: Vec<String> = Vec::new();
    let total: usize = count_class(chips, chips.len(), ChipClass::GpuTemp);
    let mut gpu_index: usize = 0;
    proof {
        assert(all.take(all.len() as int) =~= all);
        assert(sensor_views(sensors@) =~= Seq::<SensorView>::empty());
        assert(text::views(told@) =~= Seq::<Seq<char>>::empty());
        assert(text::views(names@) =~= names_of(sensor_views(sensors@)));
        assert(of_class(all.take(0), ChipClass::GpuTemp).len() == 0);
    }
    for n in 0..chips.len()
        invariant
            all == chip_views(chips@),
            warnings@ == old(warnings)@,
            total == class_count(all, ChipClass::GpuTemp),
            gpu_index == class_count(all.take(n as int), ChipClass::GpuTemp),
            gpu_index <= n,
            text::views(names@) == names_of(sensor_views(sensors@)),
            (SensorScan { sensors: sensor_views(sensors@), warnings: text::views(told@) })
                == scan_of(*sysfs, all, include_ec, n as int),
    {
        let chip = &chips[n];
        let scan = match chip.class {
            ChipClass::CpuTemp | ChipClass::GpuTemp => true,
            ChipClass::MotherboardEc => include_ec,
            ChipClass::Other => false,
        };
        assert(all.take(n + 1).drop_last() =~= all.take(n as int));
        if scan {
            let is_gpu = chip.class == ChipClass::GpuTemp;
            let multi = is_gpu && total > 1;
            let gpu: Option<usize> = if is_gpu {
                Some(gpu_index)
            } else {
                None
            };
            if is_gpu {
                gpu_index = gpu_index + 1;
            }
            let ghost before = SensorScan {
                sensors: sensor_views(sensors@),
                warnings: text::views(told@),
            };
            let mut index: u32 = 1;
            while index <= MAX_TEMP_INDEX
                invariant
                    1 <= index <= MAX_TEMP_INDEX + 1,
                    text::views(names@) == names_of(sensor_views(sensors@)),
                    (SensorScan { sensors: sensor_views(sensors@), warnings: text::views(told@) })
                        == with_inputs(*sysfs, chip@, multi, gpu, index - 1, before),
                decreases MAX_TEMP_INDEX + 1 - index,
            {
                scan_input(sysfs, chip, multi, gpu, index, &mut sensors, &mut names, &mut told);
                index = index + 1;
            }
        }
    }
    let ghost added = text::views(told@);
    let ghost was = text::views(warnings@);
    warnings.append(&mut told);
    assert(text::views(warnings@) =~= was + added);
    Ok(sensors)
}

// ---- Fans ----

/// What a scan for fans has found, with the fans counted by where they are.
pub ghost struct FanScan {
    pub fans: Seq<FanView>,
    pub on_gpus: nat,
    pub elsewhere: nat,
}

/// The scan with the `index`-th channel of the chip added to it.
pub open spec fn with_channel(
    sysfs: Sysfs,
    chip: ChipView,
    multi: bool,
    index: u32,
    scan: FanScan,
) -> FanScan {
    if sysfs.at(below(chip.path, pwm_file(index))) is None {
        scan
    } else {
        let is_gpu = chip.class == ChipClass::GpuTemp;
        let auto_name = if !is_gpu {
            "fan"@ + text::decimal(scan.elsewhere + 1)
        } else if multi {
            "gpu"@ + text::decimal(scan.on_gpus) + "_fan"@
        } else {
            "gpu_fan"@
        };
        FanScan {
            fans: scan.fans.push(
                FanView {
                    auto_name,
                    hwmon_chip: chip.name,
                    hwmon_path: chip.path,
                    pwm_index: index,
                    current_rpm: match signed_text(sysfs, below(chip.path, fan_input(index))) {
                        Some(v) => Some((v % 0x1_0000_0000) as u32),
                        None => None,
                    },
                },
            ),
            on_gpus: if is_gpu {
                scan.on_gpus + 1
            } else {
                scan.on_gpus
            },
            elsewhere: if is_gpu {
                scan.elsewhere
            } else {
                scan.elsewhere + 1
            },
        }
    }
}

/// The scan with the chip's channels up to the `n`-th added to it.
pub open spec fn with_channels(
    sysfs: Sysfs,
    chip: ChipView,
    multi: bool,
    n: int,
    scan: FanScan,
) -> FanScan
    decreases n,
{
    if n <= 0 {
        scan
    } else {
        with_channel(sysfs, chip, multi, n as u32, with_channels(sysfs, chip, multi, n - 1, scan))
    }
}

/// The scan of the first `n` chips for fans.
pub open spec fn fan_scan_of(sysfs: Sysfs, chips: Seq<ChipView>, n: int) -> FanScan
    decreases n,
{
    if n <= 0 {
        FanScan { fans: Seq::empty(), on_gpus: 0, elsewhere: 0 }
    } else {
        let chip = chips[n - 1];
        with_channels(
            sysfs,
            chip,
            chip.class == ChipClass::GpuTemp && class_count(chips, ChipClass::GpuTemp) > 1,
            MAX_PWM_INDEX as int,
            fan_scan_of(sysfs, chips, n - 1),
        )
    }
}

fn low_word(v: i64) -> (r: u32)
    ensures
        r == (v as int) % 0x1_0000_0000,
{
    if v >= 0 {
        (v as u64 % 0x1_0000_0000) as u32
    } else {
        let up: u64 = (-(v + 1)) as u64;
        (0xffff_ffff - up % 0x1_0000_0000) as u32
    }
}

/// Controllable fans (PWM channels) of all the chips.
pub fn discover_fans(chips: &Vec<HwmonChip>, sysfs: &Sysfs) -> (r: Result<Vec<DetectedFan>, String>)
    ensures
        r matches Ok(v) && fan_views(v@) == fan_scan_of(
            *sysfs,
            chip_views(chips@),
            chips@.len() as int,
        ).fans,
{
    let ghost all = chip_views(chips@);
    let mut fans: Vec<DetectedFan> = Vec::new();
    let total: usize = count_class(chips, chips.len(), ChipClass::GpuTemp);
    let mut on_gpus: u64 = 0;
    let mut elsewhere: u64 = 0;
    proof {
        assert(all.take(all.len() as int) =~= all);
        assert(fan_views(fans@) =~= Seq::<FanView>::empty());
    }
    for n in 0..chips.len()
        invariant
            all == chip_views(chips@),
            total == class_count(all, ChipClass::GpuTemp),
            on_gpus + elsewhere == fans@.len(),
            (FanScan {
                fans: fan_views(fans@),
                on_gpus: on_gpus as nat,
                elsewhere: elsewhere as nat,
            }) == fan_scan_of(*sysfs, all, n as int),
    {
        let chip = &chips[n];
        let is_gpu = chip.class == ChipClass::GpuTemp;
        let multi = is_gpu && total > 1;
        let ghost before = fan_scan_of(*sysfs, all, n as int);
        let mut index: u32 = 1;
        while index <= MAX_PWM_INDEX
            invariant
                1 <= index <= MAX_PWM_INDEX + 1,
                is_gpu == (chip.class == ChipClass::GpuTemp),
                on_gpus + elsewhere == fans@.len(),
                (FanScan {
                    fans: fan_views(fans@),
                    on_gpus: on_gpus as nat,
                    elsewhere: elsewhere as nat,
                }) == with_channels(*sysfs, chip@, multi, index - 1, before),
            decreases MAX_PWM_INDEX + 1 - index,
        {
            let pwm_path = join(chip.path.as_str(), pwm_file_name(index).as_str());
            if sysfs.has(pwm_path.as_str()) {
                let rpm_path = join(chip.path.as_str(), fan_input_name(index).as_str());
                let current_rpm: Option<u32> = match read_sysfs_i64(sysfs, rpm_path.as_str()) {
                    Some(v) => Some(low_word(v)),
                    None => None,
                };
                let ghost was = fans@;
                fans.push(
                    DetectedFan {
                        auto_name: "gpu_fan".to_owned(),
                        hwmon_chip: chip.name.clone(),
                        hwmon_path: chip.path.clone(),
                        pwm_index: index,
                        current_rpm,
                    },
                );
                let last: usize = fans.len() - 1;
                if !is_gpu {
                    elsewhere = elsewhere + 1;
                    fans[last].auto_name =
                    "fan".to_owned().concat(text::decimal_of(elsewhere).as_str());
                } else {
                    if multi {
                        fans[last].auto_name =
                        text::around("gpu", text::decimal_of(on_gpus).as_str(), "_fan");
                    }
                    on_gpus = on_gpus + 1;
                }
                assert(fan_views(fans@) =~= fan_views(was).push(fans@.last()@));
            }
            index = index + 1;
        }
    }
    Ok(fans)
}

/// Detect all available sensors and fans. When `include_ec` is false, only CPU
/// and GPU temperatures are looked for; fans are looked for on all chips, since
/// board controllers are what most fans hang on.
pub fn detect_hardware(include_ec: bool, sysfs: &Sysfs, warnings: &mut Vec<String>) -> (r: Result<
    DetectionResult,
    String,
>)
    ensures
        match chips_found(*sysfs) {
            Err(e) => (r matches Err(m) && m@ == e) && final(warnings)@ == old(warnings)@,
            Ok(chips) => {
                let scan = scan_of(*sysfs, chips, include_ec, chips.len() as int);
                &&& text::views(final(warnings)@) == text::views(old(warnings)@) + scan.warnings
                &&& r matches Ok(d) && chip_views(d.chips@) == chips && sensor_views(d.sensors@)
                    == scan.sensors && fan_views(d.fans@) == fan_scan_of(
                    *sysfs,
                    chips,
                    chips.len() as int,
                ).fans
            },
        },
{
    let chips = match enumerate_chips(sysfs) {
        Ok(chips) => chips,
        Err(m) => {
            return Err(m);
        },
    };
    let sensors = match discover_sensors(&chips, include_ec, sysfs, warnings) {
        Ok(sensors) => sensors,
        Err(m) => {
            return Err(m);
        },
    };
    let fans = match discover_fans(&chips, sysfs) {
        Ok(fans) => fans,
        Err(m) => {
            return Err(m);
        },
    };
    Ok(DetectionResult { chips, sensors, fans })
}

// ---- Laws ----

proof fn lemma_inputs_from(
    sysfs: Sysfs,
    chip: ChipView,
    multi: bool,
    gpu: Option<usize>,
    n: int,
    scan: SensorScan,
)
    ensures
        ({
            let after = with_inputs(sysfs, chip, multi, gpu, n, scan).sensors;
            &&& after.len() >= scan.sensors.len()
            &&& forall|i: int|
                0 <= i < scan.sensors.len() ==> #[trigger] after[i] == scan.sensors[i]
            &&& forall|i: int|
                scan.sensors.len() <= i < after.len() ==> (#[trigger] after[i]).hwmon_chip
                    == chip.name && after[i].hwmon_path == chip.path && -20000
                    <= after[i].current_temp_c <= 150000
        }),
    decreases n,
{
    if n > 0 {
        lemma_inputs_from(sysfs, chip, multi, gpu, n - 1, scan);
    }
}

/// Every sensor found is on a chip that is scanned (without `include_ec`, a CPU
/// or GPU chip), and its reading lies between -20 and 150 degrees.
pub proof fn law_sensors_on_scanned_chips(
    sysfs: Sysfs,
    chips: Seq<ChipView>,
    include_ec: bool,
    n: int,
    i: int,
)
    requires
        0 <= n <= chips.len(),
        0 <= i < scan_of(sysfs, chips, include_ec, n).sensors.len(),
    ensures
        ({
            let s = scan_of(sysfs, chips, include_ec, n).sensors[i];
            &&& -20000 <= s.current_temp_c <= 150000
            &&& exists|k: int|
                0 <= k < n && (#[trigger] chips[k]).name == s.hwmon_chip && chips[k].path
                    == s.hwmon_path && scanned(chips[k].class, include_ec)
        }),
    decreases n,
{
    if n > 0 {
        let before = scan_of(sysfs, chips, include_ec, n - 1);
        let chip = chips[n - 1];
        let s = scan_of(sysfs, chips, include_ec, n).sensors[i];
        lemma_inputs_from(
            sysfs,
            chip,
            chip.class == ChipClass::GpuTemp && class_count(chips, ChipClass::GpuTemp) > 1,
            gpu_number(chips, n - 1),
            MAX_TEMP_INDEX as int,
            before,
        );
        if i < before.sensors.len() {
            law_sensors_on_scanned_chips(sysfs, chips, include_ec, n - 1, i);
            let k = choose|k: int|
                0 <= k < n - 1 && (#[trigger] chips[k]).name == s.hwmon_chip && chips[k].path
                    == s.hwmon_path && scanned(chips[k].class, include_ec);
            assert(chips[k].name == s.hwmon_chip);
        } else {
            assert(chips[n - 1].name == s.hwmon_chip);
        }
    }
}

proof fn lemma_channels_grow(sysfs: Sysfs, chip: ChipView, multi: bool, n: int, m: int, scan: FanScan)
    requires
        n <= m,
    ensures
        with_channels(sysfs, chip, multi, n, scan).fans.is_prefix_of(
            with_channels(sysfs, chip, multi, m, scan).fans,
        ),
    decreases m - n,
{
    if n < m {
        lemma_channels_grow(sysfs, chip, multi, n, m - 1, scan);
        let a = with_channels(sysfs, chip, multi, n, scan).fans;
        let b = with_channels(sysfs, chip, multi, m - 1, scan).fans;
        let c = with_channels(sysfs, chip, multi, m, scan).fans;
        if m > 0 {
            assert(b =~= c.subrange(0, b.len() as int));
            assert(a =~= c.subrange(0, a.len() as int));
        }
    } else {
        let a = with_channels(sysfs, chip, multi, n, scan).fans;
        assert(a =~= a.subrange(0, a.len() as int));
    }
}

proof fn lemma_fans_grow(sysfs: Sysfs, chips: Seq<ChipView>, n: int, m: int)
    requires
        n <= m,
    ensures
        fan_scan_of(sysfs, chips, n).fans.is_prefix_of(fan_scan_of(sysfs, chips, m).fans),
    decreases m - n,
{
    let a = fan_scan_of(sysfs, chips, n).fans;
    if n < m {
        lemma_fans_grow(sysfs, chips, n, m - 1);
        if m > 0 {
            let chip = chips[m - 1];
            let multi = chip.class == ChipClass::GpuTemp && class_count(chips, ChipClass::GpuTemp)
                > 1;
            let before = fan_scan_of(sysfs, chips, m - 1);
            lemma_channels_grow(sysfs, chip, multi, 0, MAX_PWM_INDEX as int, before);
            let c = fan_scan_of(sysfs, chips, m).fans;
            assert(before.fans =~= c.subrange(0, before.fans.len() as int));
            assert(a =~= c.subrange(0, a.len() as int));
        }
    } else {
        assert(a =~= a.subrange(0, a.len() as int));
    }
}

/// Fans are found on every chip, whatever its class: each PWM channel that
/// exists is one.
pub proof fn law_every_channel_found(sysfs: Sysfs, chips: Seq<ChipView>, k: int, index: u32)
    requires
        0 <= k < chips.len(),
        1 <= index <= MAX_PWM_INDEX,
        sysfs.at(below(chips[k].path, pwm_file(index))) is Some,
    ensures
        exists|i: int|
            0 <= i < fan_scan_of(sysfs, chips, chips.len() as int).fans.len() && {
                let f = #[trigger] fan_scan_of(sysfs, chips, chips.len() as int).fans[i];
                f.hwmon_path == chips[k].path && f.hwmon_chip == chips[k].name && f.pwm_index
                    == index
            },
{
    let chip = chips[k];
    let multi = chip.class == ChipClass::GpuTemp && class_count(chips, ChipClass::GpuTemp) > 1;
    let before = fan_scan_of(sysfs, chips, k);
    let here = with_channels(sysfs, chip, multi, index as int, before).fans;
    let chip_done = with_channels(sysfs, chip, multi, MAX_PWM_INDEX as int, before).fans;
    let all = fan_scan_of(sysfs, chips, chips.len() as int).fans;
    lemma_channels_grow(sysfs, chip, multi, index as int, MAX_PWM_INDEX as int, before);
    lemma_fans_grow(sysfs, chips, k + 1, chips.len() as int);
    let i = here.len() - 1;
    assert(here[i].pwm_index == index);
    assert(chip_done[i] == here[i]) by {
        assert(here =~= chip_done.subrange(0, here.len() as int));
    }
    assert(all[i] == chip_done[i]) by {
        assert(chip_done =~= all.subrange(0, chip_done.len() as int));
    }
}

/// How many of the chip's channels up to the `n`-th exist.
pub open spec fn channels(sysfs: Sysfs, chip: ChipView, n: int) -> nat
    decreases n,
{
    if n <= 0 {
        0
    } else if sysfs.at(below(chip.path, pwm_file(n as u32))) is None {
        channels(sysfs, chip, n - 1)
    } else {
        channels(sysfs, chip, n - 1) + 1
    }
}

/// For each fan of the first `n` chips, whether it is on a GPU.
pub open spec fn gpu_fans(sysfs: Sysfs, chips: Seq<ChipView>, n: int) -> Seq<bool>
    decreases n,
{
    if n <= 0 {
        Seq::empty()
    } else {
        let chip = chips[n - 1];
        gpu_fans(sysfs, chips, n - 1) + Seq::new(
            channels(sysfs, chip, MAX_PWM_INDEX as int),
            |i: int| chip.class == ChipClass::GpuTemp,
        )
    }
}

/// How many of the first `n` entries are `v`.
pub open spec fn count_of(s: Seq<bool>, v: bool, n: int) -> nat
    decreases n,
{
    if n <= 0 {
        0
    } else if s[n - 1] == v {
        count_of(s, v, n - 1) + 1
    } else {
        count_of(s, v, n - 1)
    }
}

/// The name of a fan: those on GPUs are counted among themselves from zero where
/// there are several GPUs, the others among themselves from one.
pub open spec fn fan_name(on_gpu: Seq<bool>, several: bool, i: int) -> Seq<char> {
    if !on_gpu[i] {
        "fan"@ + text::decimal(count_of(on_gpu, false, i) + 1)
    } else if several {
        "gpu"@ + text::decimal(count_of(on_gpu, true, i)) + "_fan"@
    } else {
        "gpu_fan"@
    }
}

proof fn lemma_count_same(a: Seq<bool>, b: Seq<bool>, v: bool, n: int)
    requires
        n <= a.len(),
        n <= b.len(),
        forall|i: int| 0 <= i < n ==> a[i] == b[i],
    ensures
        count_of(a, v, n) == count_of(b, v, n),
    decreases n,
{
    if n > 0 {
        lemma_count_same(a, b, v, n - 1);
    }
}

proof fn lemma_count_grows(s: Seq<bool>, v: bool, i: int, j: int)
    requires
        0 <= i < j,
        s[i] == v,
    ensures
        count_of(s, v, i) < count_of(s, v, j),
    decreases j,
{
    if i < j - 1 {
        lemma_count_grows(s, v, i, j - 1);
    }
}

proof fn lemma_count_block(s: Seq<bool>, v: bool, at: int, k: int)
    requires
        0 <= at,
        0 <= k,
        forall|i: int| at <= i < at + k ==> s[i] == v,
    ensures
        count_of(s, v, at + k) == count_of(s, v, at) + k,
        count_of(s, !v, at + k) == count_of(s, !v, at),
    decreases k,
{
    if k > 0 {
        lemma_count_block(s, v, at, k - 1);
    }
}

proof fn lemma_channel_names(
    sysfs: Sysfs,
    chip: ChipView,
    multi: bool,
    n: int,
    scan: FanScan,
)
    ensures
        ({
            let after = with_channels(sysfs, chip, multi, n, scan);
            let k = channels(sysfs, chip, n);
            let gpu = chip.class == ChipClass::GpuTemp;
            &&& after.fans.len() == scan.fans.len() + k
            &&& after.on_gpus == scan.on_gpus + if gpu {
                k
            } else {
                0
            }
            &&& after.elsewhere == scan.elsewhere + if gpu {
                0
            } else {
                k
            }
            &&& forall|i: int| 0 <= i < scan.fans.len() ==> after.fans[i] == scan.fans[i]
            &&& forall|j: int|
                scan.fans.len() <= j < after.fans.len() ==> (#[trigger] after.fans[j]).auto_name
                    == if !gpu {
                    "fan"@ + text::decimal((scan.elsewhere + (j - scan.fans.len()) + 1) as nat)
                } else if multi {
                    "gpu"@ + text::decimal((scan.on_gpus + (j - scan.fans.len())) as nat) + "_fan"@
                } else {
                    "gpu_fan"@
                }
        }),
    decreases n,
{
    if n > 0 {
        lemma_channel_names(sysfs, chip, multi, n - 1, scan);
    }
}

proof fn lemma_fan_names(sysfs: Sysfs, chips: Seq<ChipView>, n: int)
    ensures
        ({
            let scan = fan_scan_of(sysfs, chips, n);
            let on_gpu = gpu_fans(sysfs, chips, n);
            &&& on_gpu.len() == scan.fans.len()
            &&& scan.on_gpus == count_of(on_gpu, true, on_gpu.len() as int)
            &&& scan.elsewhere == count_of(on_gpu, false, on_gpu.len() as int)
            &&& forall|i: int|
                0 <= i < scan.fans.len() ==> (#[trigger] scan.fans[i]).auto_name == fan_name(
                    on_gpu,
                    class_count(chips, ChipClass::GpuTemp) > 1,
                    i,
                )
        }),
    decreases n,
{
    if n > 0 {
        lemma_fan_names(sysfs, chips, n - 1);
        let chip = chips[n - 1];
        let gpu = chip.class == ChipClass::GpuTemp;
        let several = class_count(chips, ChipClass::GpuTemp) > 1;
        let before = fan_scan_of(sysfs, chips, n - 1);
        let was = gpu_fans(sysfs, chips, n - 1);
        let scan = fan_scan_of(sysfs, chips, n);
        let on_gpu = gpu_fans(sysfs, chips, n);
        let k = channels(sysfs, chip, MAX_PWM_INDEX as int);
        lemma_channel_names(sysfs, chip, gpu && several, MAX_PWM_INDEX as int, before);
        lemma_count_same(was, on_gpu, true, was.len() as int);
        lemma_count_same(was, on_gpu, false, was.len() as int);
        lemma_count_block(on_gpu, gpu, was.len() as int, k as int);
        assert forall|i: int| 0 <= i < scan.fans.len() implies (#[trigger] scan.fans[i]).auto_name
            == fan_name(on_gpu, several, i) by {
            if i < was.len() {
                lemma_count_same(was, on_gpu, true, i);
                lemma_count_same(was, on_gpu, false, i);
                assert(scan.fans[i] == before.fans[i]);
            } else {
                lemma_count_block(on_gpu, gpu, was.len() as int, i - was.len());
            }
        }
    }
}

/// How fans are named: those that are not on a GPU are `fan1`, `fan2` and so on in
/// the order in which they are found, whatever GPUs there are between them; those
/// on GPUs are `gpu_fan` where there is one GPU, and `gpu0_fan`, `gpu1_fan` and so
/// on where there are several.
pub proof fn law_fan_names(sysfs: Sysfs, chips: Seq<ChipView>, i: int)
    requires
        0 <= i < fan_scan_of(sysfs, chips, chips.len() as int).fans.len(),
    ensures
        gpu_fans(sysfs, chips, chips.len() as int).len() == fan_scan_of(
            sysfs,
            chips,
            chips.len() as int,
        ).fans.len(),
        fan_scan_of(sysfs, chips, chips.len() as int).fans[i].auto_name == fan_name(
            gpu_fans(sysfs, chips, chips.len() as int),
            class_count(chips, ChipClass::GpuTemp) > 1,
            i,
        ),
{
    lemma_fan_names(sysfs, chips, chips.len() as int);
}

/// Two fans have the same name only where both are on the one GPU that there is.
pub proof fn law_fan_names_differ(sysfs: Sysfs, chips: Seq<ChipView>, i: int, j: int)
    requires
        0 <= i < j < fan_scan_of(sysfs, chips, chips.len() as int).fans.len(),
    ensures
        ({
            let fans = fan_scan_of(sysfs, chips, chips.len() as int).fans;
            let on_gpu = gpu_fans(sysfs, chips, chips.len() as int);
            fans[i].auto_name == fans[j].auto_name <==> on_gpu[i] && on_gpu[j] && class_count(
                chips,
                ChipClass::GpuTemp,
            ) <= 1
        }),
{
    let on_gpu = gpu_fans(sysfs, chips, chips.len() as int);
    let several = class_count(chips, ChipClass::GpuTemp) > 1;
    lemma_fan_names(sysfs, chips, chips.len() as int);
    let a = fan_name(on_gpu, several, i);
    let b = fan_name(on_gpu, several, j);
    reveal_strlit("fan");
    reveal_strlit("gpu");
    reveal_strlit("_fan");
    reveal_strlit("gpu_fan");
    assert(a[0] == if on_gpu[i] {
        'g'
    } else {
        'f'
    });
    assert(b[0] == if on_gpu[j] {
        'g'
    } else {
        'f'
    });
    if on_gpu[i] == on_gpu[j] && a == b && !(on_gpu[i] && !several) {
        let v = on_gpu[i];
        lemma_count_grows(on_gpu, v, i, j);
        let past: nat = if v {
            0
        } else {
            1
        };
        let m = count_of(on_gpu, v, i) + past;
        let n = count_of(on_gpu, v, j) + past;
        let tail: int = if v {
            4
        } else {
            0
        };
        assert(text::decimal(m) =~= a.subrange(3, a.len() - tail));
        assert(text::decimal(n) =~= b.subrange(3, b.len() - tail));
        text::law_decimal_injective(m, n);
    }
}

/// The chips that are no GPUs.
pub open spec fn beside_gpus(chips: Seq<ChipView>) -> Seq<ChipView>
    decreases chips.len(),
{
    if chips.len() == 0 {
        Seq::empty()
    } else if chips.last().class == ChipClass::GpuTemp {
        beside_gpus(chips.drop_last())
    } else {
        beside_gpus(chips.drop_last()).push(chips.last())
    }
}

/// Those of the first `n` fans that are not on a GPU.
pub open spec fn fans_beside_gpus(fans: Seq<FanView>, on_gpu: Seq<bool>, n: int) -> Seq<FanView>
    decreases n,
{
    if n <= 0 {
        Seq::empty()
    } else if on_gpu[n - 1] {
        fans_beside_gpus(fans, on_gpu, n - 1)
    } else {
        fans_beside_gpus(fans, on_gpu, n - 1).push(fans[n - 1])
    }
}

proof fn lemma_beside_same(
    fans: Seq<FanView>,
    on_gpu: Seq<bool>,
    more: Seq<FanView>,
    longer: Seq<bool>,
    n: int,
)
    requires
        forall|i: int| 0 <= i < n ==> fans[i] == more[i] && on_gpu[i] == longer[i],
    ensures
        fans_beside_gpus(fans, on_gpu, n) == fans_beside_gpus(more, longer, n),
    decreases n,
{
    if n > 0 {
        lemma_beside_same(fans, on_gpu, more, longer, n - 1);
    }
}

proof fn lemma_channels_alike(
    sysfs: Sysfs,
    chip: ChipView,
    n: int,
    a: FanScan,
    on_gpu: Seq<bool>,
    b: FanScan,
)
    requires
        a.fans.len() <= on_gpu.len(),
        a.elsewhere == b.elsewhere,
        fans_beside_gpus(a.fans, on_gpu, a.fans.len() as int) == b.fans,
        chip.class != ChipClass::GpuTemp,
        a.fans.len() + channels(sysfs, chip, n) <= on_gpu.len(),
        forall|i: int|
            a.fans.len() <= i < a.fans.len() + channels(sysfs, chip, n) ==> !on_gpu[i],
    ensures
        ({
            let x = with_channels(sysfs, chip, false, n, a);
            let y = with_channels(sysfs, chip, false, n, b);
            &&& x.elsewhere == y.elsewhere
            &&& fans_beside_gpus(x.fans, on_gpu, x.fans.len() as int) == y.fans
        }),
    decreases n,
{
    if n > 0 {
        lemma_channels_alike(sysfs, chip, n - 1, a, on_gpu, b);
        lemma_channel_names(sysfs, chip, false, n - 1, a);
        let was = with_channels(sysfs, chip, false, n - 1, a);
        let now = with_channels(sysfs, chip, false, n, a);
        lemma_beside_same(was.fans, on_gpu, now.fans, on_gpu, was.fans.len() as int);
    }
}

proof fn lemma_beside_gpus(sysfs: Sysfs, chips: Seq<ChipView>, n: int, rest: Seq<ChipView>)
    requires
        0 <= n <= chips.len(),
        beside_gpus(chips.take(n)).len() <= rest.len(),
        forall|i: int|
            0 <= i < beside_gpus(chips.take(n)).len() ==> rest[i] == beside_gpus(chips.take(n))[i],
    ensures
        ({
            let scan = fan_scan_of(sysfs, chips, n);
            let other = fan_scan_of(sysfs, rest, beside_gpus(chips.take(n)).len() as int);
            &&& scan.elsewhere == other.elsewhere
            &&& fans_beside_gpus(
                scan.fans,
                gpu_fans(sysfs, chips, n),
                scan.fans.len() as int,
            ) == other.fans
        }),
    decreases n,
{
    if n > 0 {
        let chip = chips[n - 1];
        let some = chips.take(n);
        assert(some.drop_last() =~= chips.take(n - 1));
        lemma_beside_gpus(sysfs, chips, n - 1, rest);
        lemma_fan_names(sysfs, chips, n - 1);
        lemma_fan_names(sysfs, chips, n);
        let was = fan_scan_of(sysfs, chips, n - 1);
        let now = fan_scan_of(sysfs, chips, n);
        let before = gpu_fans(sysfs, chips, n - 1);
        let on_gpu = gpu_fans(sysfs, chips, n);
        let m = beside_gpus(chips.take(n - 1)).len() as int;
        let multi = chip.class == ChipClass::GpuTemp && class_count(chips, ChipClass::GpuTemp) > 1;
        lemma_channel_names(sysfs, chip, multi, MAX_PWM_INDEX as int, was);
        lemma_beside_same(was.fans, before, was.fans, on_gpu, was.fans.len() as int);
        if chip.class == ChipClass::GpuTemp {
            lemma_beside_same(was.fans, before, now.fans, on_gpu, was.fans.len() as int);
            lemma_beside_skips(now.fans, on_gpu, was.fans.len() as int, now.fans.len() as int);
        } else {
            assert(rest[m] == chip);
            lemma_channels_alike(
                sysfs,
                chip,
                MAX_PWM_INDEX as int,
                was,
                on_gpu,
                fan_scan_of(sysfs, rest, m),
            );
        }
    }
}

proof fn lemma_beside_skips(fans: Seq<FanView>, on_gpu: Seq<bool>, n: int, m: int)
    requires
        0 <= n <= m,
        forall|i: int| n <= i < m ==> on_gpu[i],
    ensures
        fans_beside_gpus(fans, on_gpu, m) == fans_beside_gpus(fans, on_gpu, n),
    decreases m - n,
{
    if n < m {
        lemma_beside_skips(fans, on_gpu, n, m - 1);
    }
}

/// The fans that are not on a GPU are the same, names included, whether or not
/// GPUs are there: they are those that are found on the other chips alone.
pub proof fn law_gpus_rename_no_other_fan(sysfs: Sysfs, chips: Seq<ChipView>)
    ensures
        fans_beside_gpus(
            fan_scan_of(sysfs, chips, chips.len() as int).fans,
            gpu_fans(sysfs, chips, chips.len() as int),
            fan_scan_of(sysfs, chips, chips.len() as int).fans.len() as int,
        ) == fan_scan_of(sysfs, beside_gpus(chips), beside_gpus(chips).len() as int).fans,
{
    assert(chips.take(chips.len() as int) =~= chips);
    lemma_beside_gpus(sysfs, chips, chips.len() as int, beside_gpus(chips));
}

// ---- What is found, and where ----

/// The names that make a chip one of a CPU, a GPU or the board; no name makes it two.
pub proof fn law_chip_classes(name: Seq<char>)
    ensures
        class_of(name) == ChipClass::CpuTemp <==> name == "k10temp"@ || name == "coretemp"@ || name
            == "zenpower"@,
        class_of(name) == ChipClass::GpuTemp <==> name == "amdgpu"@ || name == "nvidia"@ || name
            == "nouveau"@,
        class_of(name) == ChipClass::MotherboardEc <==> "nct6"@.is_prefix_of(name)
            || "it8"@.is_prefix_of(name) || "w83"@.is_prefix_of(name) || "f71"@.is_prefix_of(name)
            || "asus"@.is_prefix_of(name),
{
    reveal_strlit("k10temp");
    reveal_strlit("coretemp");
    reveal_strlit("zenpower");
    reveal_strlit("amdgpu");
    reveal_strlit("nvidia");
    reveal_strlit("nouveau");
    reveal_strlit("nct6");
    reveal_strlit("it8");
    reveal_strlit("w83");
    reveal_strlit("f71");
    reveal_strlit("asus");
    lemma_first_char(name, "nct6"@);
    lemma_first_char(name, "it8"@);
    lemma_first_char(name, "w83"@);
    lemma_first_char(name, "f71"@);
    lemma_first_char(name, "asus"@);
    assert("k10temp"@[0] == 'k' && "coretemp"@[0] == 'c' && "zenpower"@[0] == 'z');
    assert("amdgpu"@[0] == 'a' && "amdgpu"@[1] == 'm' && "nvidia"@[0] == 'n' && "nvidia"@[1] == 'v'
        && "nouveau"@[0] == 'n' && "nouveau"@[1] == 'o');
}

proof fn lemma_first_char(name: Seq<char>, prefix: Seq<char>)
    requires
        prefix.len() > 1,
    ensures
        prefix.is_prefix_of(name) ==> name.len() > 1 && name[0] == prefix[0] && name[1]
            == prefix[1],
{
    if prefix.is_prefix_of(name) {
        assert(name.subrange(0, prefix.len() as int)[0] == name[0]);
        assert(name.subrange(0, prefix.len() as int)[1] == name[1]);
    }
}

/// The chips found are the listed directories whose name can be read, each with its
/// name and the class that goes with it: those of CPUs, then GPUs, then boards, then
/// all the others, each as listed. They are found exactly where the whole listing
/// could be read.
pub proof fn law_chips_found(sysfs: Sysfs)
    ensures
        match sysfs.listing {
            Listing::Entries(entries) => if forall|i: int|
                0 <= i < entries@.len() ==> #[trigger] entries@[i] is Path {
                let named = entries@.filter(
                    |e: DirEntry|
                        e matches DirEntry::Path(p) && sysfs.text_at(below(p@, "name"@)) is Some,
                ).map_values(
                    |e: DirEntry|
                        {
                            let name = text::trimmed(
                                sysfs.text_at(below(e->Path_0@, "name"@))->Some_0,
                            );
                            ChipView { name, path: e->Path_0@, class: class_of(name) }
                        },
                );
                chips_found(sysfs) == Ok::<Seq<ChipView>, Seq<char>>(
                    named.filter(|c: ChipView| c.class == ChipClass::CpuTemp) + named.filter(
                        |c: ChipView| c.class == ChipClass::GpuTemp,
                    ) + named.filter(|c: ChipView| c.class == ChipClass::MotherboardEc)
                        + named.filter(|c: ChipView| c.class == ChipClass::Other),
                )
            } else {
                chips_found(sysfs) is Err
            },
            _ => chips_found(sysfs) is Err,
        },
{
    if let Listing::Entries(entries) = sysfs.listing {
        crate::sysfs::lemma_first_failure(entries@);
        lemma_listed_chips(sysfs, entries@);
        let named = listed_chips(sysfs, entries@);
        lemma_class_filter(named, ChipClass::CpuTemp, |c: ChipView| c.class == ChipClass::CpuTemp);
        lemma_class_filter(named, ChipClass::GpuTemp, |c: ChipView| c.class == ChipClass::GpuTemp);
        lemma_class_filter(
            named,
            ChipClass::MotherboardEc,
            |c: ChipView| c.class == ChipClass::MotherboardEc,
        );
        lemma_class_filter(named, ChipClass::Other, |c: ChipView| c.class == ChipClass::Other);
    }
}

proof fn lemma_listed_chips(sysfs: Sysfs, entries: Seq<DirEntry>)
    ensures
        listed_chips(sysfs, entries) == entries.filter(
            |e: DirEntry|
                e matches DirEntry::Path(p) && sysfs.text_at(below(p@, "name"@)) is Some,
        ).map_values(
            |e: DirEntry|
                {
                    let name = text::trimmed(sysfs.text_at(below(e->Path_0@, "name"@))->Some_0);
                    ChipView { name, path: e->Path_0@, class: class_of(name) }
                },
        ),
    decreases entries.len(),
{
    reveal(Seq::filter);
    let pred = |e: DirEntry|
        e matches DirEntry::Path(p) && sysfs.text_at(below(p@, "name"@)) is Some;
    let chip = |e: DirEntry|
        {
            let name = text::trimmed(sysfs.text_at(below(e->Path_0@, "name"@))->Some_0);
            ChipView { name, path: e->Path_0@, class: class_of(name) }
        };
    if entries.len() > 0 {
        let rest = entries.drop_last();
        lemma_listed_chips(sysfs, rest);
        if pred(entries.last()) {
            assert(rest.filter(pred).push(entries.last()).map_values(chip) =~= rest.filter(
                pred,
            ).map_values(chip).push(chip(entries.last())));
        }
    }
    assert(listed_chips(sysfs, entries) =~= entries.filter(pred).map_values(chip));
}

proof fn lemma_class_filter(
    chips: Seq<ChipView>,
    class: ChipClass,
    pred: spec_fn(ChipView) -> bool,
)
    requires
        forall|c: ChipView| #[trigger] pred(c) == (c.class == class),
    ensures
        of_class(chips, class) == chips.filter(pred),
    decreases chips.len(),
{
    reveal(Seq::filter);
    if chips.len() > 0 {
        lemma_class_filter(chips.drop_last(), class, pred);
    }
}

/// A cleaned text is the text with blanks turned into underscores and every other
/// character that is no ASCII letter, digit or underscore left out.
pub proof fn law_cleaned_keeps(s: Seq<char>)
    ensures
        cleaned(s) == s.filter(
            |c: char|
                c == ' ' || c == '_' || ('a' <= c && c <= 'z') || ('A' <= c && c <= 'Z') || ('0'
                    <= c && c <= '9'),
        ).map_values(
            |c: char|
                if c == ' ' {
                    '_'
                } else {
                    c
                },
        ),
    decreases s.len(),
{
    reveal(Seq::filter);
    let pred = |c: char|
        c == ' ' || c == '_' || ('a' <= c && c <= 'z') || ('A' <= c && c <= 'Z') || ('0' <= c && c
            <= '9');
    let turned = |c: char|
        if c == ' ' {
            '_'
        } else {
            c
        };
    if s.len() > 0 {
        let rest = s.drop_last();
        law_cleaned_keeps(rest);
        if pred(s.last()) {
            assert(rest.filter(pred).push(s.last()).map_values(turned) =~= rest.filter(
                pred,
            ).map_values(turned).push(turned(s.last())));
        }
    }
    assert(cleaned(s) =~= s.filter(pred).map_values(turned));
}

/// Whether one place, a chip and a channel on it, comes before another.
pub open spec fn place_before(a: (int, int), b: (int, int)) -> bool {
    a.0 < b.0 || (a.0 == b.0 && a.1 < b.1)
}

/// What the `x`-th temperature file of a chip reads, where it holds a number.
pub open spec fn temperature_read(sysfs: Sysfs, chip: ChipView, x: int) -> Option<int> {
    match sysfs.text_at(below(chip.path, "temp"@ + text::decimal(x as nat) + "_input"@)) {
        Some(t) => text::signed_of(text::trimmed(t)),
        None => None,
    }
}

/// Whether the `x`-th temperature file of the `k`-th chip is there and is looked at:
/// it is one of the first sixteen of a CPU or GPU, or of a board where those are
/// asked for.
pub open spec fn is_looked_at(
    sysfs: Sysfs,
    chips: Seq<ChipView>,
    include_ec: bool,
    k: int,
    x: int,
) -> bool {
    &&& 0 <= k < chips.len()
    &&& 1 <= x <= 16
    &&& chips[k].class != ChipClass::Other
    &&& chips[k].class == ChipClass::MotherboardEc ==> include_ec
    &&& sysfs.at(below(chips[k].path, "temp"@ + text::decimal(x as nat) + "_input"@)) is Some
}

/// Whether a temperature of -20 to 150 degrees is read there.
pub open spec fn is_sensor_place(
    sysfs: Sysfs,
    chips: Seq<ChipView>,
    include_ec: bool,
    k: int,
    x: int,
) -> bool {
    is_looked_at(sysfs, chips, include_ec, k, x) && (temperature_read(
        sysfs,
        chips[k],
        x,
    ) matches Some(t) && -20000 <= t <= 150000)
}

/// Whether the `i`-th sensor is the one at the `x`-th temperature file of the `k`-th
/// chip: it tells chip, file, label and reading, and it has the chip's name for it,
/// with the number behind it where an earlier sensor has that name, and with the chip
/// in front too where an earlier one has even that.
pub open spec fn is_sensor_at(
    sysfs: Sysfs,
    chips: Seq<ChipView>,
    sensors: Seq<SensorView>,
    i: int,
    k: int,
    x: int,
) -> bool {
    let gpus = |c: ChipView| c.class == ChipClass::GpuTemp;
    let base = base_name(
        chips[k],
        x as u32,
        sensors[i].label,
        chips[k].class == ChipClass::GpuTemp && chips.filter(gpus).len() >= 2,
        if chips[k].class == ChipClass::GpuTemp {
            Some(chips.take(k).filter(gpus).len() as usize)
        } else {
            None
        },
    );
    let numbered = base + "_"@ + text::decimal(x as nat);
    &&& sensors[i].hwmon_chip == chips[k].name
    &&& sensors[i].hwmon_path == chips[k].path
    &&& sensors[i].index == x
    &&& temperature_read(sysfs, chips[k], x) == Some(sensors[i].current_temp_c)
    &&& sensors[i].label == match sysfs.text_at(
        below(chips[k].path, "temp"@ + text::decimal(x as nat) + "_label"@),
    ) {
        Some(t) => Some(text::trimmed(t)),
        None => None,
    }
    &&& (forall|j: int| 0 <= j < i ==> (#[trigger] sensors[j]).auto_name != base)
        ==> sensors[i].auto_name == base
    &&& (exists|j: int| 0 <= j < i && (#[trigger] sensors[j]).auto_name == base) && (forall|j: int|
        0 <= j < i ==> (#[trigger] sensors[j]).auto_name != numbered) ==> sensors[i].auto_name
        == numbered
    &&& (exists|j: int| 0 <= j < i && (#[trigger] sensors[j]).auto_name == base) && (exists|j: int|
        0 <= j < i && (#[trigger] sensors[j]).auto_name == numbered) ==> sensors[i].auto_name
        == chips[k].name + "_"@ + numbered
}

/// Every sensor place yields one sensor, in the order of the chips and of the files on
/// each, and nothing else does; the places that are looked at and hold no number are
/// warned of, each by its path. The results are the places of the sensors and those
/// of the warnings.
pub proof fn law_sensors_found(
    sysfs: Sysfs,
    chips: Seq<ChipView>,
    include_ec: bool,
) -> (places: (Seq<(int, int)>, Seq<(int, int)>))
    ensures
        ({
            let scan = scan_of(sysfs, chips, include_ec, chips.len() as int);
            let (o, w) = places;
            &&& o.len() == scan.sensors.len()
            &&& forall|i: int, j: int| 0 <= i < j < o.len() ==> place_before(o[i], o[j])
            &&& forall|k: int, x: int|
                #![trigger o.contains((k, x))]
                #![trigger is_sensor_place(sysfs, chips, include_ec, k, x)]
                o.contains((k, x)) <==> is_sensor_place(sysfs, chips, include_ec, k, x)
            &&& forall|i: int|
                0 <= i < o.len() ==> #[trigger] is_sensor_at(
                    sysfs,
                    chips,
                    scan.sensors,
                    i,
                    o[i].0,
                    o[i].1,
                )
            &&& w.len() == scan.warnings.len()
            &&& forall|i: int, j: int| 0 <= i < j < w.len() ==> place_before(w[i], w[j])
            &&& forall|k: int, x: int|
                #![trigger w.contains((k, x))]
                #![trigger is_looked_at(sysfs, chips, include_ec, k, x)]
                w.contains((k, x)) <==> is_looked_at(sysfs, chips, include_ec, k, x)
                    && temperature_read(sysfs, chips[k], x) is None
            &&& forall|i: int|
                0 <= i < w.len() ==> #[trigger] scan.warnings[i] == "warning: could not read "@
                    + below(
                    chips[w[i].0].path,
                    "temp"@ + text::decimal(w[i].1 as nat) + "_input"@,
                ) + ", skipping"@
        }),
{
    lemma_scanned_chips(sysfs, chips, include_ec, chips.len() as int)
}

/// What holds of a scan of the chips before the `n`-th and of the first `m` files of
/// the `n`-th.
spec fn is_traced(
    sysfs: Sysfs,
    chips: Seq<ChipView>,
    include_ec: bool,
    places: (Seq<(int, int)>, Seq<(int, int)>),
    scan: SensorScan,
    n: int,
    m: int,
) -> bool {
    let (o, w) = places;
    &&& o.len() == scan.sensors.len()
    &&& forall|i: int, j: int| 0 <= i < j < o.len() ==> place_before(o[i], o[j])
    &&& forall|k: int, x: int|
        #![trigger o.contains((k, x))]
        #![trigger is_sensor_place(sysfs, chips, include_ec, k, x)]
        o.contains((k, x)) <==> is_sensor_place(sysfs, chips, include_ec, k, x)
            && place_before((k, x), (n, m + 1))
    &&& forall|i: int|
        0 <= i < o.len() ==> #[trigger] is_sensor_at(
            sysfs,
            chips,
            scan.sensors,
            i,
            o[i].0,
            o[i].1,
        )
    &&& w.len() == scan.warnings.len()
    &&& forall|i: int, j: int| 0 <= i < j < w.len() ==> place_before(w[i], w[j])
    &&& forall|k: int, x: int|
        #![trigger w.contains((k, x))]
        #![trigger is_looked_at(sysfs, chips, include_ec, k, x)]
        w.contains((k, x)) <==> is_looked_at(sysfs, chips, include_ec, k, x)
            && temperature_read(sysfs, chips[k], x) is None && place_before((k, x), (n, m + 1))
    &&& forall|i: int|
        0 <= i < w.len() ==> #[trigger] scan.warnings[i] == "warning: could not read "@ + below(
            chips[w[i].0].path,
            "temp"@ + text::decimal(w[i].1 as nat) + "_input"@,
        ) + ", skipping"@
}

proof fn lemma_scanned_chips(
    sysfs: Sysfs,
    chips: Seq<ChipView>,
    include_ec: bool,
    n: int,
) -> (places: (Seq<(int, int)>, Seq<(int, int)>))
    requires
        0 <= n <= chips.len(),
    ensures
        is_traced(
            sysfs,
            chips,
            include_ec,
            places,
            scan_of(sysfs, chips, include_ec, n),
            n,
            0,
        ),
    decreases n,
{
    if n == 0 {
        (Seq::empty(), Seq::empty())
    } else {
        let places = lemma_scanned_chips(sysfs, chips, include_ec, n - 1);
        if scanned(chips[n - 1].class, include_ec) {
            let after = lemma_scanned_inputs(sysfs, chips, include_ec, n - 1, 16, places);
            after
        } else {
            places
        }
    }
}

proof fn lemma_scanned_inputs(
    sysfs: Sysfs,
    chips: Seq<ChipView>,
    include_ec: bool,
    n: int,
    m: int,
    places: (Seq<(int, int)>, Seq<(int, int)>),
) -> (after: (Seq<(int, int)>, Seq<(int, int)>))
    requires
        0 <= n < chips.len(),
        0 <= m <= 16,
        scanned(chips[n].class, include_ec),
        is_traced(
            sysfs,
            chips,
            include_ec,
            places,
            scan_of(sysfs, chips, include_ec, n),
            n,
            0,
        ),
    ensures
        is_traced(
            sysfs,
            chips,
            include_ec,
            after,
            with_inputs(
                sysfs,
                chips[n],
                chips[n].class == ChipClass::GpuTemp && class_count(chips, ChipClass::GpuTemp) > 1,
                gpu_number(chips, n),
                m,
                scan_of(sysfs, chips, include_ec, n),
            ),
            n,
            m,
        ),
    decreases m,
{
    if m == 0 {
        places
    } else {
        let multi = chips[n].class == ChipClass::GpuTemp && class_count(chips, ChipClass::GpuTemp)
            > 1;
        let gpu = gpu_number(chips, n);
        let start = scan_of(sysfs, chips, include_ec, n);
        let before = lemma_scanned_inputs(sysfs, chips, include_ec, n, m - 1, places);
        let scan = with_inputs(sysfs, chips[n], multi, gpu, m - 1, start);
        lemma_scanned_input(sysfs, chips, include_ec, n, m, before, scan)
    }
}

proof fn lemma_one_more_place(o: Seq<(int, int)>, n: int, m: int, k: int, x: int)
    ensures
        o.push((n, m)).contains((k, x)) <==> o.contains((k, x)) || (k == n && x == m),
        place_before((k, x), (n, m + 1)) <==> place_before((k, x), (n, m)) || (k == n && x == m),
{
    let o2 = o.push((n, m));
    if o.contains((k, x)) {
        let i = choose|i: int| 0 <= i < o.len() && o[i] == (k, x);
        assert(o2[i] == (k, x));
    }
    assert(o2[o.len() as int] == (n, m));
    if o2.contains((k, x)) {
        let i = choose|i: int| 0 <= i < o2.len() && o2[i] == (k, x);
        if i < o.len() {
            assert(o[i] == (k, x));
        }
    }
}

#[verifier::rlimit(60)]
proof fn lemma_scanned_input(
    sysfs: Sysfs,
    chips: Seq<ChipView>,
    include_ec: bool,
    n: int,
    m: int,
    places: (Seq<(int, int)>, Seq<(int, int)>),
    scan: SensorScan,
) -> (after: (Seq<(int, int)>, Seq<(int, int)>))
    requires
        0 <= n < chips.len(),
        1 <= m <= 16,
        scanned(chips[n].class, include_ec),
        is_traced(sysfs, chips, include_ec, places, scan, n, m - 1),
    ensures
        is_traced(
            sysfs,
            chips,
            include_ec,
            after,
            with_input(
                sysfs,
                chips[n],
                chips[n].class == ChipClass::GpuTemp && class_count(chips, ChipClass::GpuTemp) > 1,
                gpu_number(chips, n),
                m as u32,
                scan,
            ),
            n,
            m,
        ),
{
    let (o, w) = places;
    let multi = chips[n].class == ChipClass::GpuTemp && class_count(chips, ChipClass::GpuTemp) > 1;
    let gpu = gpu_number(chips, n);
    let next = with_input(sysfs, chips[n], multi, gpu, m as u32, scan);
    let p = (n, m);
    assert(temp_input(m as u32) == "temp"@ + text::decimal(m as nat) + "_input"@);
    assert(temp_label(m as u32) == "temp"@ + text::decimal(m as nat) + "_label"@);
    if is_sensor_place(sysfs, chips, include_ec, n, m) {
        let s = scan.sensors;
        let t = next.sensors;
        let o2 = o.push(p);
        let gpus = |c: ChipView| c.class == ChipClass::GpuTemp;
        lemma_class_filter(chips, ChipClass::GpuTemp, gpus);
        lemma_class_filter(chips.take(n), ChipClass::GpuTemp, gpus);
        assert forall|k: int, x: int|
            #![trigger o2.contains((k, x))]
            #![trigger is_sensor_place(sysfs, chips, include_ec, k, x)]
            o2.contains((k, x)) <==> is_sensor_place(sysfs, chips, include_ec, k, x)
                && place_before((k, x), (n, m + 1)) by {
            lemma_one_more_place(o, n, m, k, x);
        }
        assert forall|i: int, j: int| 0 <= i < j < o2.len() implies place_before(o2[i], o2[j]) by {
            if j == o.len() {
                assert(o.contains(o[i]));
                assert(is_sensor_place(sysfs, chips, include_ec, o[i].0, o[i].1) && place_before(
                    (o[i].0, o[i].1),
                    (n, m),
                ));
            }
        }
        assert forall|i: int| 0 <= i < o2.len() implies #[trigger] is_sensor_at(
            sysfs,
            chips,
            t,
            i,
            o2[i].0,
            o2[i].1,
        ) by {
            if i < o.len() {
                assert(is_sensor_at(sysfs, chips, s, i, o[i].0, o[i].1));
                assert forall|j: int| 0 <= j <= i implies #[trigger] t[j] == s[j] by {}
                lemma_sensor_stays(sysfs, chips, s, t, i, o[i].0, o[i].1);
            } else {
                lemma_names_held(s, t);
                let base = base_name(chips[n], m as u32, t[i].label, multi, gpu);
                let numbered = base + "_"@ + text::decimal(m as nat);
                assert(chips[n].name + "_"@ + base + "_"@ + text::decimal(m as nat)
                    =~= chips[n].name + "_"@ + numbered);
            }
        }
        (o2, w)
    } else if is_looked_at(sysfs, chips, include_ec, n, m) && temperature_read(
        sysfs,
        chips[n],
        m,
    ) is None {
        let w2 = w.push(p);
        assert forall|k: int, x: int|
            #![trigger w2.contains((k, x))]
            #![trigger is_looked_at(sysfs, chips, include_ec, k, x)]
            w2.contains((k, x)) <==> is_looked_at(sysfs, chips, include_ec, k, x)
                && temperature_read(sysfs, chips[k], x) is None && place_before(
                (k, x),
                (n, m + 1),
            ) by {
            lemma_one_more_place(w, n, m, k, x);
        }
        assert forall|i: int, j: int| 0 <= i < j < w2.len() implies place_before(w2[i], w2[j]) by {
            if j == w.len() {
                assert(w.contains(w[i]));
                assert(is_looked_at(sysfs, chips, include_ec, w[i].0, w[i].1) && place_before(
                    (w[i].0, w[i].1),
                    (n, m),
                ));
            }
        }
        (o, w2)
    } else {
        (o, w)
    }
}

proof fn lemma_sensor_stays(
    sysfs: Sysfs,
    chips: Seq<ChipView>,
    s: Seq<SensorView>,
    t: Seq<SensorView>,
    i: int,
    k: int,
    x: int,
)
    requires
        is_sensor_at(sysfs, chips, s, i, k, x),
        0 <= i < s.len() <= t.len(),
        forall|j: int| 0 <= j <= i ==> #[trigger] t[j] == s[j],
    ensures
        is_sensor_at(sysfs, chips, t, i, k, x),
{
    assert forall|j: int| 0 <= j <= i implies #[trigger] s[j] == t[j] by {}
}

proof fn lemma_names_held(s: Seq<SensorView>, t: Seq<SensorView>)
    requires
        t.len() > s.len(),
        forall|j: int| 0 <= j < s.len() ==> #[trigger] t[j] == s[j],
    ensures
        forall|name: Seq<char>| #[trigger]
            names_of(s).contains(name) <==> exists|j: int|
                0 <= j < s.len() && (#[trigger] t[j]).auto_name == name,
{
    assert forall|name: Seq<char>| #[trigger]
        names_of(s).contains(name) <==> exists|j: int|
            0 <= j < s.len() && (#[trigger] t[j]).auto_name == name by {
        if names_of(s).contains(name) {
            let j = choose|j: int| 0 <= j < names_of(s).len() && names_of(s)[j] == name;
            assert(t[j] == s[j]);
            assert(t[j].auto_name == name);
        }
        if exists|j: int| 0 <= j < s.len() && (#[trigger] t[j]).auto_name == name {
            let j = choose|j: int| 0 <= j < s.len() && (#[trigger] t[j]).auto_name == name;
            assert(names_of(s)[j] == name);
        }
    }
}

/// Whether the `k`-th chip has an `x`-th PWM file, one of the first eight.
pub open spec fn is_fan_place(sysfs: Sysfs, chips: Seq<ChipView>, k: int, x: int) -> bool {
    &&& 0 <= k < chips.len()
    &&& 1 <= x <= 8
    &&& sysfs.at(below(chips[k].path, "pwm"@ + text::decimal(x as nat))) is Some
}

/// How many of the places are on GPUs.
pub open spec fn places_on_gpus(chips: Seq<ChipView>, o: Seq<(int, int)>) -> nat {
    o.filter(|p: (int, int)| chips[p.0].class == ChipClass::GpuTemp).len()
}

/// Whether the fan found `i`-th is the one at the `i`-th place: it tells chip and
/// channel, and its speed where there is a number for it. Fans that are on no GPU are
/// counted from one, as `fan1` and so on; that of a single GPU is `gpu_fan`, and those
/// of several are counted from nought, as `gpu0_fan` and so on.
pub open spec fn is_fan_at(
    sysfs: Sysfs,
    chips: Seq<ChipView>,
    o: Seq<(int, int)>,
    f: FanView,
    i: int,
) -> bool {
    let (k, x) = o[i];
    let gpus = places_on_gpus(chips, o.take(i));
    &&& f.hwmon_chip == chips[k].name
    &&& f.hwmon_path == chips[k].path
    &&& f.pwm_index == x
    &&& f.auto_name == if chips[k].class != ChipClass::GpuTemp {
        "fan"@ + text::decimal((i - gpus + 1) as nat)
    } else if chips.filter(|c: ChipView| c.class == ChipClass::GpuTemp).len() < 2 {
        "gpu_fan"@
    } else {
        "gpu"@ + text::decimal(gpus) + "_fan"@
    }
    &&& match sysfs.text_at(below(chips[k].path, "fan"@ + text::decimal(x as nat) + "_input"@)) {
        Some(t) => match text::signed_of(text::trimmed(t)) {
            Some(v) => f.current_rpm matches Some(r) && (0 <= v <= u32::MAX ==> r == v) && (v - r)
                % 0x1_0000_0000 == 0,
            None => f.current_rpm is None,
        },
        None => f.current_rpm is None,
    }
}

/// Every fan place yields one fan, in the order of the chips and of the channels on
/// each, and nothing else does. The result is the places.
pub proof fn law_fans_found(sysfs: Sysfs, chips: Seq<ChipView>) -> (o: Seq<(int, int)>)
    ensures
        ({
            let fans = fan_scan_of(sysfs, chips, chips.len() as int).fans;
            &&& o.len() == fans.len()
            &&& forall|i: int, j: int| 0 <= i < j < o.len() ==> place_before(o[i], o[j])
            &&& forall|k: int, x: int|
                #![trigger o.contains((k, x))]
                #![trigger is_fan_place(sysfs, chips, k, x)]
                o.contains((k, x)) <==> is_fan_place(sysfs, chips, k, x)
            &&& forall|i: int|
                0 <= i < o.len() ==> is_fan_at(sysfs, chips, o, #[trigger] fans[i], i)
        }),
{
    lemma_channel_chips(sysfs, chips, chips.len() as int)
}

spec fn are_fans(
    sysfs: Sysfs,
    chips: Seq<ChipView>,
    o: Seq<(int, int)>,
    scan: FanScan,
    n: int,
    m: int,
) -> bool {
    &&& o.len() == scan.fans.len()
    &&& scan.on_gpus == places_on_gpus(chips, o)
    &&& scan.on_gpus + scan.elsewhere == o.len()
    &&& forall|i: int, j: int| 0 <= i < j < o.len() ==> place_before(o[i], o[j])
    &&& forall|k: int, x: int|
        #![trigger o.contains((k, x))]
        #![trigger is_fan_place(sysfs, chips, k, x)]
        o.contains((k, x)) <==> is_fan_place(sysfs, chips, k, x) && place_before(
            (k, x),
            (n, m + 1),
        )
    &&& forall|i: int|
        0 <= i < o.len() ==> is_fan_at(sysfs, chips, o, #[trigger] scan.fans[i], i)
}

proof fn lemma_channel_chips(sysfs: Sysfs, chips: Seq<ChipView>, n: int) -> (o: Seq<(int, int)>)
    requires
        0 <= n <= chips.len(),
    ensures
        are_fans(sysfs, chips, o, fan_scan_of(sysfs, chips, n), n, 0),
    decreases n,
{
    if n == 0 {
        let o = Seq::<(int, int)>::empty();
        reveal(Seq::filter);
        assert(places_on_gpus(chips, o) == 0);
        o
    } else {
        let before = lemma_channel_chips(sysfs, chips, n - 1);
        let o = lemma_channel_files(sysfs, chips, n - 1, 8, before);
        o
    }
}

proof fn lemma_channel_files(
    sysfs: Sysfs,
    chips: Seq<ChipView>,
    n: int,
    m: int,
    places: Seq<(int, int)>,
) -> (o: Seq<(int, int)>)
    requires
        0 <= n < chips.len(),
        0 <= m <= 8,
        are_fans(sysfs, chips, places, fan_scan_of(sysfs, chips, n), n, 0),
    ensures
        are_fans(
            sysfs,
            chips,
            o,
            with_channels(
                sysfs,
                chips[n],
                chips[n].class == ChipClass::GpuTemp && class_count(chips, ChipClass::GpuTemp) > 1,
                m,
                fan_scan_of(sysfs, chips, n),
            ),
            n,
            m,
        ),
    decreases m,
{
    if m == 0 {
        places
    } else {
        let multi = chips[n].class == ChipClass::GpuTemp && class_count(chips, ChipClass::GpuTemp)
            > 1;
        let before = lemma_channel_files(sysfs, chips, n, m - 1, places);
        let scan = with_channels(sysfs, chips[n], multi, m - 1, fan_scan_of(sysfs, chips, n));
        lemma_channel_file(sysfs, chips, n, m, before, scan)
    }
}

proof fn lemma_channel_file(
    sysfs: Sysfs,
    chips: Seq<ChipView>,
    n: int,
    m: int,
    o: Seq<(int, int)>,
    scan: FanScan,
) -> (after: Seq<(int, int)>)
    requires
        0 <= n < chips.len(),
        1 <= m <= 8,
        are_fans(sysfs, chips, o, scan, n, m - 1),
    ensures
        are_fans(
            sysfs,
            chips,
            after,
            with_channel(
                sysfs,
                chips[n],
                chips[n].class == ChipClass::GpuTemp && class_count(chips, ChipClass::GpuTemp) > 1,
                m as u32,
                scan,
            ),
            n,
            m,
        ),
{
    let multi = chips[n].class == ChipClass::GpuTemp && class_count(chips, ChipClass::GpuTemp) > 1;
    let next = with_channel(sysfs, chips[n], multi, m as u32, scan);
    assert(pwm_file(m as u32) == "pwm"@ + text::decimal(m as nat));
    assert(fan_input(m as u32) == "fan"@ + text::decimal(m as nat) + "_input"@);
    if is_fan_place(sysfs, chips, n, m) {
        let p = (n, m);
        let o2 = o.push(p);
        let gpus = |c: ChipView| c.class == ChipClass::GpuTemp;
        lemma_class_filter(chips, ChipClass::GpuTemp, gpus);
        assert(o2.drop_last() =~= o);
        assert(places_on_gpus(chips, o2) == next.on_gpus) by {
            reveal(Seq::filter);
        }
        assert forall|k: int, x: int|
            #![trigger o2.contains((k, x))]
            #![trigger is_fan_place(sysfs, chips, k, x)]
            o2.contains((k, x)) <==> is_fan_place(sysfs, chips, k, x) && place_before(
                (k, x),
                (n, m + 1),
            ) by {
            lemma_one_more_place(o, n, m, k, x);
        }
        assert forall|i: int, j: int| 0 <= i < j < o2.len() implies place_before(o2[i], o2[j]) by {
            if j == o.len() {
                assert(o.contains((o[i].0, o[i].1)));
            }
        }
        assert forall|i: int| 0 <= i < o2.len() implies is_fan_at(
            sysfs,
            chips,
            o2,
            #[trigger] next.fans[i],
            i,
        ) by {
            assert(o2.take(i) =~= o.take(i));
            if i < o.len() {
                assert(is_fan_at(sysfs, chips, o, scan.fans[i], i));
            } else {
                assert(o2.take(i) =~= o);
            }
        }
        o2
    } else {
        o
    }
}

/// What a CPU sensor is called: `cpu` for the whole, by its label or as the first
/// without one; by number for the parts; and after its label for any other.
pub proof fn law_cpu_names(index: u32, rest: Seq<char>)
    ensures
        cpu_name(index, Some("Tctl"@)) == "cpu"@,
        cpu_name(index, Some("Tdie"@)) == "cpu"@,
        cpu_name(1, None) == "cpu"@,
        index != 1 ==> cpu_name(index, None) == "cpu_temp"@ + text::decimal(index as nat),
        !"Tccd"@.is_prefix_of(rest) ==> cpu_name(index, Some("Tccd"@ + rest)) == "cpu_ccd"@ + rest,
        !"Core "@.is_prefix_of(rest) && !rest.contains(' ') ==> cpu_name(
            index,
            Some("Core "@ + rest),
        ) == "cpu_core"@ + rest,
        rest != "Tctl"@ && rest != "Tdie"@ && !"Tccd"@.is_prefix_of(rest)
            && !"Core "@.is_prefix_of(rest) ==> cpu_name(index, Some(rest)) == "cpu_"@ + sanitized(
            rest,
        ),
{
    reveal_strlit("Tctl");
    reveal_strlit("Tdie");
    reveal_strlit("Tccd");
    reveal_strlit("Core ");
    text::law_without_leading(rest, "Tccd"@);
    text::law_without_leading(rest, "Core "@);
    let a = "Tccd"@ + rest;
    let b = "Core "@ + rest;
    assert(a.subrange(0, 4) =~= "Tccd"@);
    assert(b.subrange(0, 5) =~= "Core "@);
    assert(a[0] == 'T' && a[1] == 'c' && a[2] == 'c');
    assert("Tctl"@[2] == 't' && "Tdie"@[1] == 'd');
    assert(b[0] == 'C');
    lemma_first_char(b, "Tccd"@);
    if !rest.contains(' ') {
        assert forall|i: int| 0 <= i < rest.len() implies #[trigger] rest[i] != ' ' by {}
        lemma_nothing_left_out(rest, ' ');
    }
}

proof fn lemma_nothing_left_out(s: Seq<char>, c: char)
    requires
        forall|i: int| 0 <= i < s.len() ==> #[trigger] s[i] != c,
    ensures
        text::without_char(s, c) == s,
    decreases s.len(),
{
    reveal(Seq::filter);
    if s.len() > 0 {
        lemma_nothing_left_out(s.drop_last(), c);
        assert(s.drop_last().push(s.last()) =~= s);
        assert(s[s.len() - 1] != c);
    }
    assert(text::without_char(s, c) =~= s);
}

/// What a GPU sensor is called: after the GPU alone at the edge or without a label, and
/// after the GPU and the label otherwise; several GPUs are told apart by their number.
pub proof fn law_gpu_names(label: Seq<char>, gpu: nat, other: nat)
    ensures
        gpu_name(None, false, gpu) == "gpu"@,
        gpu_name(None, true, gpu) == "gpu"@ + text::decimal(gpu),
        gpu_name(Some(label), false, gpu) == gpu_name(Some(label), false, other),
        forall|multi: bool|
            {
                &&& gpu_name(Some("edge"@), multi, gpu) == gpu_name(None, multi, gpu)
                &&& label != "edge"@ && sanitized(label) == label ==> #[trigger] gpu_name(
                    Some(label),
                    multi,
                    gpu,
                ) == gpu_name(None, multi, gpu) + "_"@ + label
                &&& label != "edge"@ && label != "junction"@ && label != "mem"@ ==> gpu_name(
                    Some(label),
                    multi,
                    gpu,
                ) == gpu_name(None, multi, gpu) + "_"@ + sanitized(label)
            },
        gpu_name(Some("junction"@), false, gpu) == "gpu_junction"@,
        gpu_name(Some("mem"@), false, gpu) == "gpu_mem"@,
{
    reveal_strlit("edge");
    reveal_strlit("junction");
    reveal_strlit("mem");
    reveal_strlit("gpu");
    reveal_strlit("_");
    reveal_strlit("_junction");
    reveal_strlit("_mem");
    reveal_strlit("gpu_junction");
    reveal_strlit("gpu_mem");
    assert("edge"@.len() == 4 && "junction"@.len() == 8 && "mem"@.len() == 3);
    assert("gpu"@ + "_junction"@ =~= "gpu_junction"@);
    assert("gpu"@ + "_mem"@ =~= "gpu_mem"@);
    assert forall|p: Seq<char>| #[trigger] (p + "_"@) + "junction"@ =~= p + "_junction"@ by {}
    assert forall|p: Seq<char>| #[trigger] (p + "_"@) + "mem"@ =~= p + "_mem"@ by {}
}

/// Two chips, two sensors or two fans with the same view agree in everything that is
/// told of them.
pub proof fn law_views_tell_apart(
    c: HwmonChip,
    d: HwmonChip,
    s: DetectedSensor,
    t: DetectedSensor,
    f: DetectedFan,
    g: DetectedFan,
)
    ensures
        c@ == d@ ==> c.name@ == d.name@ && c.path@ == d.path@ && c.class == d.class,
        s@ == t@ ==> {
            &&& s.auto_name@ == t.auto_name@
            &&& s.hwmon_chip@ == t.hwmon_chip@
            &&& s.hwmon_path@ == t.hwmon_path@
            &&& s.index == t.index
            &&& s.current_temp_c == t.current_temp_c
            &&& s.label is Some == t.label is Some
            &&& (s.label matches Some(l) ==> t.label->Some_0@ == l@)
        },
        f@ == g@ ==> {
            &&& f.auto_name@ == g.auto_name@
            &&& f.hwmon_chip@ == g.hwmon_chip@
            &&& f.hwmon_path@ == g.hwmon_path@
            &&& f.pwm_index == g.pwm_index
            &&& f.current_rpm == g.current_rpm
        },
{
}

/// A label in ASCII becomes a name by turning its letters small and its blanks into
/// underscores, and leaving out all else that is no letter, digit or underscore.
pub proof fn law_sanitized_ascii(label: Seq<char>)
    requires
        forall|i: int| 0 <= i < label.len() ==> (#[trigger] label[i]) as u32 <= 127,
    ensures
        sanitized(label) == text::ascii_lowered(label).filter(
            |c: char|
                c == ' ' || c == '_' || ('a' <= c && c <= 'z') || ('A' <= c && c <= 'Z') || ('0'
                    <= c && c <= '9'),
        ).map_values(
            |c: char|
                if c == ' ' {
                    '_'
                } else {
                    c
                },
        ),
{
    law_cleaned_keeps(text::ascii_lowered(label));
}

/// What a sensor is called by its chip and label alone: after its part where the chip is
/// that of a CPU or GPU, after the board, or after the chip.
pub proof fn law_base_names(
    chip: ChipView,
    index: u32,
    label: Option<Seq<char>>,
    multi: bool,
    gpu: Option<usize>,
)
    ensures
        chip.class == ChipClass::CpuTemp ==> base_name(chip, index, label, multi, gpu) == cpu_name(
            index,
            label,
        ),
        chip.class == ChipClass::GpuTemp && gpu is Some ==> base_name(
            chip,
            index,
            label,
            multi,
            gpu,
        ) == gpu_name(label, multi, gpu->Some_0 as nat),
        chip.class == ChipClass::MotherboardEc ==> base_name(chip, index, label, multi, gpu)
            == match label {
            Some(l) => "board_"@ + sanitized(l),
            None => "board_temp"@ + text::decimal(index as nat),
        },
        chip.class == ChipClass::Other ==> base_name(chip, index, label, multi, gpu) == chip.name
            + "_temp"@ + text::decimal(index as nat),
{
}

} // verus!
