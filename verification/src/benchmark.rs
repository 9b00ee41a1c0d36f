//! The thermal benchmark: which fans are swept and how, and what the measurements
//! say.
use crate::autoconfig::{default_gpu_curve, gpu_curve, hwmon_instance_for, instance_of};
use crate::autoconfig::{has_default_settings, is_built_sensor, with_default_settings};
use crate::config::{AirflowDirection, Config, FanConfig, FanPosition, FanTopology, SensorConfig};
use crate::coupling::copy_names;
use crate::detect::{chip_views, fan_views, name_char, sensor_views, ChipView, DetectedFan};
use crate::detect::{DetectionResult, FanView, SensorView};
use crate::hwmon::{fan_state, pwm_file, temp_input, Fan, Sensor};
use crate::pkl_format::{self, unloaded};
use crate::sysfs::{below, Sysfs};
use crate::text;
use vstd::prelude::*;

verus! {

/// Polling interval during sampling, in milliseconds.
pub const POLL_MS: u64 = 500;

/// Seconds for which temperatures are sampled at each PWM level.
pub const SAMPLE_SECS: u64 = 3;

/// The PWM value that fans run at while another one is swept.
pub const MIDPOINT: u8 = 128;

// ---- Finding a PWM value that the driver takes ----

/// Whether a failed write was refused as an invalid value, as drivers do that
/// enforce a minimum.
pub fn is_einval(error: &str) -> (r: bool)
    ensures
        r == text::holds_part(error@, "Invalid argument"@),
{
    text::contains(error, "Invalid argument")
}

/// What follows from trying a PWM value.
#[derive(Debug)]
pub enum Probe {
    /// The fan runs at the value.
    Running(u8),
    /// The next value is to be tried.
    Try(u8),
    /// The fan cannot be driven, for the reason given.
    Failed(String),
}

/// What to say where a driver refuses every value.
pub open spec fn all_rejected(fan: Seq<char>) -> Seq<char> {
    "fan '"@ + fan + "': driver rejected all PWM values 0-255"@
}

/// Goes on after the write of `tried` had the outcome: a value that the driver
/// refuses as invalid leads to the next higher one.
pub fn write_pwm_safe(fan: &str, tried: u8, outcome: Result<(), String>) -> (r: Probe)
    ensures
        match outcome {
            Ok(_) => r matches Probe::Running(p) && p == tried,
            Err(e) => if !text::holds_part(e@, "Invalid argument"@) {
                r matches Probe::Failed(m) && m@ == e@
            } else if tried == 255 {
                r matches Probe::Failed(m) && m@ == all_rejected(fan@)
            } else {
                r matches Probe::Try(p) && p == tried + 1
            },
        },
{
    match outcome {
        Ok(_) => Probe::Running(tried),
        Err(e) => if !is_einval(e.as_str()) {
            Probe::Failed(e)
        } else if tried == 255 {
            Probe::Failed(
                text::around("fan '", fan, "': driver rejected all PWM values 0-255"),
            )
        } else {
            Probe::Try(tried + 1)
        },
    }
}

/// What to tell where a fan runs at more than was asked for.
pub fn minimum_note(fan: &str, set: u8, target: u8) -> (r: Option<String>)
    ensures
        match r {
            None => set == target,
            Some(m) => set != target && m@ == "  (fan '"@ + fan@ + "' minimum PWM = "@
                + text::decimal(set as nat) + ", driver rejected "@ + text::decimal(target as nat)
                + ")"@,
        },
{
    if set == target {
        None
    } else {
        Some(
            text::around("  (fan '", fan, "' minimum PWM = ").concat(
                text::decimal_of(set as u64).as_str(),
            ).concat(", driver rejected ").concat(text::decimal_of(target as u64).as_str()).concat(
                ")",
            ),
        )
    }
}

/// The value that trying one after another from `pwm` on ends at, when `takes`
/// says which values the driver takes and it refuses the others as invalid.
pub open spec fn first_taken(takes: spec_fn(int) -> bool, pwm: int) -> Option<int>
    decreases 256 - pwm,
{
    if pwm > 255 {
        None
    } else if takes(pwm) {
        Some(pwm)
    } else {
        first_taken(takes, pwm + 1)
    }
}

/// The value that is found is the lowest one, from the target on, that the driver
/// takes; none is found exactly where it takes none.
pub proof fn law_finds_lowest(takes: spec_fn(int) -> bool, target: int)
    requires
        0 <= target <= 256,
    ensures
        match first_taken(takes, target) {
            Some(p) => {
                &&& target <= p <= 255
                &&& takes(p)
                &&& forall|q: int| target <= q < p ==> !#[trigger] takes(q)
            },
            None => forall|q: int| target <= q <= 255 ==> !#[trigger] takes(q),
        },
    decreases 256 - target,
{
    if target <= 255 && !takes(target) {
        law_finds_lowest(takes, target + 1);
    }
}

// ---- Topology ----

/// The layout of the fans, as the user gives it.
#[derive(Debug)]
pub struct Topology {
    pub fans: Vec<FanTopo>,
}

/// A fan header, which may drive fans in several places.
#[derive(Debug)]
pub struct FanTopo {
    /// Must match a detected fan's auto_name
    pub name: String,
    /// Physical locations of fans on this header
    pub positions: Vec<FanPlacement>,
    /// Group name for coordinated control (e.g. "case")
    pub group: Option<String>,
}

#[derive(Debug)]
pub struct FanPlacement {
    pub location: String,
    pub direction: String,
    /// Number of fans at this location
    pub count: u32,
}

/// The number of fans at a location, where none is given.
pub fn default_count() -> (r: u32)
    ensures
        r == 1,
{
    1
}

/// A topology lists at least one fan.
pub fn check_topology(topo: &Topology) -> (r: Result<(), String>)
    ensures
        match r {
            Ok(_) => topo.fans@.len() > 0,
            Err(m) => topo.fans@.len() == 0 && m@ == "topology file has no fan entries"@,
        },
{
    if topo.fans.len() == 0 {
        return Err("topology file has no fan entries".to_owned());
    }
    Ok(())
}

/// The topology that evaluating the Pkl file at `path` gave, where it lists a fan.
pub fn load_topology(path: &str, evaluated: Result<Topology, String>) -> (r: Result<
    Topology,
    String,
>)
    ensures
        match evaluated {
            Err(cause) => r is Err && r->Err_0@ == unloaded("topology"@, path@, cause@),
            Ok(topo) => if topo.fans@.len() > 0 {
                r == Ok::<Topology, String>(topo)
            } else {
                r is Err && r->Err_0@ == "topology file has no fan entries"@
            },
        },
{
    let topo = match pkl_format::load(path, "topology", evaluated) {
        Ok(topo) => topo,
        Err(m) => return Err(m),
    };
    match check_topology(&topo) {
        Ok(_) => Ok(topo),
        Err(m) => Err(m),
    }
}

/// The position that `s` names.
pub open spec fn position_named(s: Seq<char>) -> Option<FanPosition> {
    if s == "front"@ {
        Some(FanPosition::Front)
    } else if s == "rear"@ {
        Some(FanPosition::Rear)
    } else if s == "top"@ {
        Some(FanPosition::Top)
    } else if s == "bottom"@ {
        Some(FanPosition::Bottom)
    } else if s == "side"@ {
        Some(FanPosition::Side)
    } else if s == "cpu_cooler"@ {
        Some(FanPosition::CpuCooler)
    } else if s == "gpu_cooler"@ {
        Some(FanPosition::GpuCooler)
    } else {
        None
    }
}

/// What to say of a name for no position.
pub open spec fn unknown_position(s: Seq<char>) -> Seq<char> {
    "unknown position: '"@ + s
        + "' (expected: front, rear, top, bottom, side, cpu_cooler, gpu_cooler)"@
}

/// The position that `s` names.
pub fn parse_position(s: &str) -> (r: Result<FanPosition, String>)
    ensures
        match r {
            Ok(p) => position_named(s@) == Some(p),
            Err(m) => position_named(s@) is None && m@ == unknown_position(s@),
        },
{
    if text::same(s, "front") {
        Ok(FanPosition::Front)
    } else if text::same(s, "rear") {
        Ok(FanPosition::Rear)
    } else if text::same(s, "top") {
        Ok(FanPosition::Top)
    } else if text::same(s, "bottom") {
        Ok(FanPosition::Bottom)
    } else if text::same(s, "side") {
        Ok(FanPosition::Side)
    } else if text::same(s, "cpu_cooler") {
        Ok(FanPosition::CpuCooler)
    } else if text::same(s, "gpu_cooler") {
        Ok(FanPosition::GpuCooler)
    } else {
        Err(
            text::around(
                "unknown position: '",
                s,
                "' (expected: front, rear, top, bottom, side, cpu_cooler, gpu_cooler)",
            ),
        )
    }
}

/// The direction that `s` names.
pub open spec fn direction_named(s: Seq<char>) -> Option<AirflowDirection> {
    if s == "intake"@ {
        Some(AirflowDirection::Intake)
    } else if s == "exhaust"@ {
        Some(AirflowDirection::Exhaust)
    } else {
        None
    }
}

/// What to say of a name for no direction.
pub open spec fn unknown_direction(s: Seq<char>) -> Seq<char> {
    "unknown direction: '"@ + s + "' (expected: intake, exhaust)"@
}

/// The direction that `s` names.
pub fn parse_direction(s: &str) -> (r: Result<AirflowDirection, String>)
    ensures
        match r {
            Ok(d) => direction_named(s@) == Some(d),
            Err(m) => direction_named(s@) is None && m@ == unknown_direction(s@),
        },
{
    if text::same(s, "intake") {
        Ok(AirflowDirection::Intake)
    } else if text::same(s, "exhaust") {
        Ok(AirflowDirection::Exhaust)
    } else {
        Err(text::around("unknown direction: '", s, "' (expected: intake, exhaust)"))
    }
}

/// Where most of the fans of a header sit: the last of the first `n` places that
/// has as many as any of them.
pub open spec fn main_place(positions: Seq<FanPlacement>, n: int) -> int
    decreases n,
{
    if n <= 1 {
        0
    } else {
        let p = main_place(positions, n - 1);
        if positions[n - 1].count >= positions[p].count {
            n - 1
        } else {
            p
        }
    }
}

/// The main place is one of the places, and none has more fans.
pub proof fn law_main_place(positions: Seq<FanPlacement>, n: int)
    requires
        1 <= n <= positions.len(),
    ensures
        0 <= main_place(positions, n) < n,
        forall|i: int|
            0 <= i < n ==> (#[trigger] positions[i]).count <= positions[main_place(
                positions,
                n,
            )].count,
    decreases n,
{
    if n > 1 {
        law_main_place(positions, n - 1);
    }
}

/// Where a header's fans mostly sit and which way they blow; or what is wrong
/// with what is said of that. `wanting` is what to say where nothing is said.
pub open spec fn placed(ft: FanTopo, wanting: Seq<char>) -> Result<
    (FanPosition, AirflowDirection),
    Seq<char>,
> {
    if ft.positions@.len() == 0 {
        Err("fan '"@ + ft.name@ + wanting)
    } else {
        let p = ft.positions@[main_place(ft.positions@, ft.positions@.len() as int)];
        match (position_named(p.location@), direction_named(p.direction@)) {
            (None, _) => Err(unknown_position(p.location@)),
            (_, None) => Err(unknown_direction(p.direction@)),
            (Some(position), Some(direction)) => Ok((position, direction)),
        }
    }
}

fn place(ft: &FanTopo, wanting: &str) -> (r: Result<(FanPosition, AirflowDirection), String>)
    ensures
        match (r, placed(*ft, wanting@)) {
            (Ok(p), Ok(q)) => p == q,
            (Err(m), Err(e)) => m@ == e,
            _ => false,
        },
{
    let n: usize = ft.positions.len();
    if n == 0 {
        return Err(text::around("fan '", ft.name.as_str(), wanting));
    }
    let mut main: usize = 0;
    for i in 0..n
        invariant
            n == ft.positions@.len(),
            n > 0,
            main < n,
            main == main_place(ft.positions@, i as int),
    {
        if i > 0 && ft.positions[i].count >= ft.positions[main].count {
            main = i;
        }
    }
    let p = &ft.positions[main];
    let position = match parse_position(p.location.as_str()) {
        Ok(position) => position,
        Err(m) => {
            return Err(m);
        },
    };
    match parse_direction(p.direction.as_str()) {
        Ok(direction) => Ok((position, direction)),
        Err(m) => Err(m),
    }
}

// ---- Roles ----

/// What part a fan plays in the benchmark.
#[derive(Debug)]
pub enum FanRole {
    /// Directly cools one component (cpu_cooler, gpu_cooler)
    DirectCooler,
    /// Case airflow fan: representative of its group, or solo
    CaseRepresentative,
    /// Case fan in a group: follows the representative's results
    CaseFollower { representative: String },
}

/// A role by its texts.
pub ghost enum RoleView {
    DirectCooler,
    CaseRepresentative,
    CaseFollower(Seq<char>),
}

impl View for FanRole {
    type V = RoleView;

    open spec fn view(&self) -> RoleView {
        match *self {
            FanRole::DirectCooler => RoleView::DirectCooler,
            FanRole::CaseRepresentative => RoleView::CaseRepresentative,
            FanRole::CaseFollower { representative } => RoleView::CaseFollower(representative@),
        }
    }
}

#[derive(Debug)]
pub struct ClassifiedFan {
    pub name: String,
    pub role: FanRole,
    pub position: FanPosition,
    pub direction: AirflowDirection,
    /// Sensor names this fan is expected to primarily affect
    pub expected_sensors: Vec<String>,
}

/// The first fan of the group from the `i`-th on.
pub open spec fn representative(fans: Seq<FanTopo>, group: Seq<char>, i: int) -> Option<Seq<char>>
    decreases fans.len() - i,
{
    if i >= fans.len() {
        None
    } else if fans[i].group matches Some(g) && g@ == group {
        Some(fans[i].name@)
    } else {
        representative(fans, group, i + 1)
    }
}

/// What part the fan plays: direct coolers stand for themselves, of a group its
/// first fan stands for all.
pub open spec fn role_of(fans: Seq<FanTopo>, ft: FanTopo, position: FanPosition) -> RoleView {
    if position == FanPosition::CpuCooler || position == FanPosition::GpuCooler {
        RoleView::DirectCooler
    } else {
        match ft.group {
            None => RoleView::CaseRepresentative,
            Some(g) => match representative(fans, g@, 0) {
                Some(rep) => if rep == ft.name@ {
                    RoleView::CaseRepresentative
                } else {
                    RoleView::CaseFollower(rep)
                },
                None => RoleView::CaseRepresentative,
            },
        }
    }
}

/// The names among the first `n` that begin with `prefix`.
pub open spec fn with_prefix(names: Seq<String>, prefix: Seq<char>, n: int) -> Seq<Seq<char>>
    decreases n,
{
    if n <= 0 {
        Seq::empty()
    } else if prefix.is_prefix_of(names[n - 1]@) {
        with_prefix(names, prefix, n - 1).push(names[n - 1]@)
    } else {
        with_prefix(names, prefix, n - 1)
    }
}

/// The sensors that a fan at the position is expected to affect.
pub open spec fn expected_at(position: FanPosition, names: Seq<String>) -> Seq<Seq<char>> {
    if position == FanPosition::CpuCooler {
        with_prefix(names, "cpu"@, names.len() as int)
    } else if position == FanPosition::GpuCooler {
        with_prefix(names, "gpu"@, names.len() as int)
    } else {
        text::views(names)
    }
}

/// What to say of the first fan from the `i`-th on whose place is not given
/// properly.
pub open spec fn placing_error(
    fans: Seq<FanTopo>,
    wanting: Seq<char>,
    i: int,
) -> Option<Seq<char>>
    decreases fans.len() - i,
{
    if i >= fans.len() {
        None
    } else {
        match placed(fans[i], wanting) {
            Err(e) => Some(e),
            Ok(_) => placing_error(fans, wanting, i + 1),
        }
    }
}

/// Whether `c` is what the layout makes of the `i`-th fan.
pub open spec fn is_classified(
    c: ClassifiedFan,
    fans: Seq<FanTopo>,
    i: int,
    names: Seq<String>,
) -> bool {
    &&& c.name@ == fans[i].name@
    &&& placed(fans[i], "' has no positions"@) == Ok::<
        (FanPosition, AirflowDirection),
        Seq<char>,
    >((c.position, c.direction))
    &&& c.role@ == role_of(fans, fans[i], c.position)
    &&& text::views(c.expected_sensors@) == expected_at(c.position, names)
}

fn keep_prefix(names: &Vec<String>, prefix: &str) -> (r: Vec<String>)
    ensures
        text::views(r@) == with_prefix(names@, prefix@, names@.len() as int),
{
    let mut r: Vec<String> = Vec::new();
    assert(text::views(r@) =~= with_prefix(names@, prefix@, 0));
    for i in 0..names.len()
        invariant
            text::views(r@) == with_prefix(names@, prefix@, i as int),
    {
        if text::starts_with(names[i].as_str(), prefix) {
            let ghost was = r@;
            r.push(names[i].clone());
            assert(text::views(r@) =~= text::views(was).push(names@[i as int]@));
        }
    }
    r
}

fn find_representative(fans: &Vec<FanTopo>, group: &str) -> (r: Option<String>)
    ensures
        match (r, representative(fans@, group@, 0)) {
            (Some(s), Some(n)) => s@ == n,
            (None, None) => true,
            _ => false,
        },
{
    for i in 0..fans.len()
        invariant
            representative(fans@, group@, 0) == representative(fans@, group@, i as int),
    {
        if let Some(g) = &fans[i].group {
            if text::same(g.as_str(), group) {
                return Some(fans[i].name.clone());
            }
        }
    }
    None
}

fn find_role(fans: &Vec<FanTopo>, ft: &FanTopo, position: FanPosition) -> (r: FanRole)
    ensures
        r@ == role_of(fans@, *ft, position),
{
    if position == FanPosition::CpuCooler || position == FanPosition::GpuCooler {
        return FanRole::DirectCooler;
    }
    match &ft.group {
        None => FanRole::CaseRepresentative,
        Some(g) => match find_representative(fans, g.as_str()) {
            Some(rep) => if text::same(rep.as_str(), ft.name.as_str()) {
                FanRole::CaseRepresentative
            } else {
                FanRole::CaseFollower { representative: rep }
            },
            None => FanRole::CaseRepresentative,
        },
    }
}

/// Classify fans by the layout, to determine how the benchmark treats each.
pub fn classify_fans(topo: &Topology, sensor_names: &Vec<String>) -> (r: Result<
    Vec<ClassifiedFan>,
    String,
>)
    ensures
        match r {
            Ok(v) => {
                &&& placing_error(topo.fans@, "' has no positions"@, 0) is None
                &&& v@.len() == topo.fans@.len()
                &&& forall|i: int|
                    0 <= i < v@.len() ==> is_classified(
                        #[trigger] v@[i],
                        topo.fans@,
                        i,
                        sensor_names@,
                    )
            },
            Err(m) => placing_error(topo.fans@, "' has no positions"@, 0) == Some(m@),
        },
{
    let mut v: Vec<ClassifiedFan> = Vec::new();
    for i in 0..topo.fans.len()
        invariant
            v@.len() == i,
            placing_error(topo.fans@, "' has no positions"@, 0) == placing_error(
                topo.fans@,
                "' has no positions"@,
                i as int,
            ),
            forall|k: int|
                0 <= k < i ==> is_classified(#[trigger] v@[k], topo.fans@, k, sensor_names@),
    {
        let ft = &topo.fans[i];
        let (position, direction) = match place(ft, "' has no positions") {
            Ok(p) => p,
            Err(m) => {
                return Err(m);
            },
        };
        let expected_sensors = match position {
            FanPosition::CpuCooler => keep_prefix(sensor_names, "cpu"),
            FanPosition::GpuCooler => keep_prefix(sensor_names, "gpu"),
            _ => copy_names(sensor_names),
        };
        v.push(
            ClassifiedFan {
                name: ft.name.clone(),
                role: find_role(&topo.fans, ft, position),
                position,
                direction,
                expected_sensors,
            },
        );
    }
    Ok(v)
}

proof fn lemma_representative(fans: Seq<FanTopo>, group: Seq<char>, i: int)
    requires
        0 <= i,
        representative(fans, group, i) is Some,
    ensures
        exists|k: int|
            i <= k < fans.len() && (#[trigger] fans[k]).name@ == representative(
                fans,
                group,
                i,
            )->0 && (fans[k].group matches Some(g) && g@ == group),
    decreases fans.len() - i,
{
    if i < fans.len() {
        if !(fans[i].group matches Some(g) && g@ == group) {
            lemma_representative(fans, group, i + 1);
            let k = choose|k: int|
                i + 1 <= k < fans.len() && (#[trigger] fans[k]).name@ == representative(
                    fans,
                    group,
                    i + 1,
                )->0 && (fans[k].group matches Some(g) && g@ == group);
            assert(fans[k].name@ == representative(fans, group, i)->0);
        } else {
            assert(fans[i].name@ == representative(fans, group, i)->0);
        }
    }
}

/// A follower follows a fan of its own group, and that fan is not itself.
pub proof fn law_followers_follow_their_group(
    fans: Seq<FanTopo>,
    ft: FanTopo,
    position: FanPosition,
    rep: Seq<char>,
)
    requires
        role_of(fans, ft, position) == RoleView::CaseFollower(rep),
    ensures
        rep != ft.name@,
        exists|k: int|
            0 <= k < fans.len() && (#[trigger] fans[k]).name@ == rep && (fans[k].group matches Some(
                g,
            ) && ft.group matches Some(h) && g@ == h@),
{
    let g = ft.group->0;
    lemma_representative(fans, g@, 0);
    let k = choose|k: int|
        0 <= k < fans.len() && (#[trigger] fans[k]).name@ == representative(fans, g@, 0)->0 && (
        fans[k].group matches Some(h) && h@ == g@);
    assert(fans[k].name@ == rep);
}

// ---- Preparation ----

/// The text in quotes, as `Debug` writes it.
pub uninterp spec fn debug_text(s: Seq<char>) -> Seq<char>;

/// The `Debug` form of std for a text: the text in double quotes, with what does
/// not print as itself escaped. It is a function of the text alone; ASCII
/// letters, digits and underscores print as themselves.
#[verifier::external_body]
fn debug_form(s: &str) -> (r: String)
    ensures
        r@ == debug_text(s@),
        (forall|i: int| 0 <= i < s@.len() ==> name_char(#[trigger] s@[i])) ==> r@ == "\""@ + s@
            + "\""@,
{
    format!("{:?}", s)
}

/// The names in quotes.
pub open spec fn quoted(fans: Seq<FanView>) -> Seq<Seq<char>> {
    fans.map_values(|f: FanView| debug_text(f.auto_name))
}

/// A bracketed list of the parts.
pub fn list_of(parts: &Vec<String>) -> (r: String)
    ensures
        r@ == "["@ + text::joined(text::views(parts@), ", "@) + "]"@,
{
    text::around("[", text::join(parts, ", ").as_str(), "]")
}

/// The first discovered fan from the `i`-th on that has the name.
pub open spec fn fan_called(fans: Seq<FanView>, name: Seq<char>, i: int) -> Option<int>
    decreases fans.len() - i,
{
    if i >= fans.len() {
        None
    } else if fans[i].auto_name == name {
        Some(i)
    } else {
        fan_called(fans, name, i + 1)
    }
}

/// Where the discovered fan with the name is.
pub fn find_fan(fans: &Vec<DetectedFan>, name: &str) -> (r: Option<usize>)
    ensures
        match (r, fan_called(fan_views(fans@), name@, 0)) {
            (Some(i), Some(k)) => i == k && i < fans@.len(),
            (None, None) => true,
            _ => false,
        },
{
    let ghost all = fan_views(fans@);
    for i in 0..fans.len()
        invariant
            all == fan_views(fans@),
            fan_called(all, name@, 0) == fan_called(all, name@, i as int),
    {
        if text::same(fans[i].auto_name.as_str(), name) {
            return Some(i);
        }
    }
    None
}

/// What to say of the first fan of the layout from the `i`-th on that was not
/// discovered, or whose place is not given properly.
pub open spec fn layout_error(
    topo: Seq<FanTopo>,
    fans: Seq<FanView>,
    i: int,
) -> Option<Seq<char>>
    decreases topo.len() - i,
{
    if i >= topo.len() {
        None
    } else if fan_called(fans, topo[i].name@, 0) is None {
        Some(
            "topology fan '"@ + topo[i].name@ + "' not found in detected hardware. Available: "@ + (
            "["@ + text::joined(quoted(fans), ", "@) + "]"@),
        )
    } else {
        match placed(topo[i], "' has no positions defined"@) {
            Err(e) => Some(e),
            Ok(_) => layout_error(topo, fans, i + 1),
        }
    }
}

/// What keeps a sensor from being used.
pub open spec fn sensor_fault(sysfs: Sysfs, s: SensorView) -> Option<Seq<char>> {
    let path = below(s.hwmon_path, temp_input(s.index));
    if sysfs.at(path) is None {
        Some("sensor '"@ + s.auto_name + "': "@ + path + " does not exist"@)
    } else {
        None
    }
}

/// The sensors among the first `n` that can be used.
pub open spec fn usable_sensors(sysfs: Sysfs, sensors: Seq<SensorView>, n: int) -> Seq<int>
    decreases n,
{
    if n <= 0 {
        Seq::empty()
    } else if sensor_fault(sysfs, sensors[n - 1]) is None {
        usable_sensors(sysfs, sensors, n - 1).push(n - 1)
    } else {
        usable_sensors(sysfs, sensors, n - 1)
    }
}

/// What to tell of those of the first `n` sensors that cannot be used.
pub open spec fn skipped_sensors(sysfs: Sysfs, sensors: Seq<SensorView>, n: int) -> Seq<Seq<char>>
    decreases n,
{
    if n <= 0 {
        Seq::empty()
    } else {
        let rest = skipped_sensors(sysfs, sensors, n - 1);
        match sensor_fault(sysfs, sensors[n - 1]) {
            Some(e) => rest.push("skipping sensor '"@ + sensors[n - 1].auto_name + "': "@ + e),
            None => rest,
        }
    }
}

/// What keeps a discovered fan from being used.
pub open spec fn fan_fault(sysfs: Sysfs, f: FanView) -> Option<Seq<char>> {
    let path = below(f.hwmon_path, pwm_file(f.pwm_index));
    if sysfs.at(path) is None {
        Some("fan '"@ + f.auto_name + "': "@ + path + " does not exist"@)
    } else {
        match fan_state(sysfs, f.hwmon_path, f.pwm_index) {
            Err(e) => Some(e),
            Ok(_) => None,
        }
    }
}

/// The discovered fan that the layout's `i`-th entry means.
pub open spec fn meant(topo: Seq<FanTopo>, fans: Seq<FanView>, i: int) -> FanView {
    fans[fan_called(fans, topo[i].name@, 0)->0]
}

/// The entries among the first `n` of the layout whose fan can be used.
pub open spec fn usable_fans(
    sysfs: Sysfs,
    topo: Seq<FanTopo>,
    fans: Seq<FanView>,
    n: int,
) -> Seq<int>
    decreases n,
{
    if n <= 0 {
        Seq::empty()
    } else if fan_fault(sysfs, meant(topo, fans, n - 1)) is None {
        usable_fans(sysfs, topo, fans, n - 1).push(n - 1)
    } else {
        usable_fans(sysfs, topo, fans, n - 1)
    }
}

/// What to tell of those of the first `n` entries of the layout whose fan cannot
/// be used.
pub open spec fn skipped_fans(
    sysfs: Sysfs,
    topo: Seq<FanTopo>,
    fans: Seq<FanView>,
    n: int,
) -> Seq<Seq<char>>
    decreases n,
{
    if n <= 0 {
        Seq::empty()
    } else {
        let rest = skipped_fans(sysfs, topo, fans, n - 1);
        let f = meant(topo, fans, n - 1);
        match fan_fault(sysfs, f) {
            Some(e) => rest.push("skipping fan '"@ + f.auto_name + "': "@ + e),
            None => rest,
        }
    }
}

/// What the benchmark works on.
#[derive(Debug)]
pub struct Prepared {
    pub fans: Vec<Fan>,
    /// For each entry of the layout, where its fan stands among `fans`; none where
    /// the fan cannot be used.
    pub places: Vec<Option<usize>>,
    pub sensors: Vec<Sensor>,
    pub sensor_names: Vec<String>,
    pub config: Config,
    /// What is to be told of hardware that is left out.
    pub skipped: Vec<String>,
}

/// Whether `c` is the configuration of the fan that the layout's entry means.
pub open spec fn is_prepared_fan(
    c: FanConfig,
    chips: Seq<ChipView>,
    ft: FanTopo,
    f: FanView,
    names: Seq<Seq<char>>,
) -> bool {
    &&& c.name@ == f.auto_name
    &&& c.hwmon@ == f.hwmon_chip
    &&& c.pwm_index == f.pwm_index
    &&& c.hwmon_instance == instance_of(chips, f.hwmon_chip, f.hwmon_path)
    &&& placed(ft, "' has no positions defined"@) == Ok::<
        (FanPosition, AirflowDirection),
        Seq<char>,
    >((c.topology.position, c.topology.direction))
    &&& crate::hwmon::seen(c.topology.group) == crate::hwmon::seen(ft.group)
    &&& text::views(c.sensors@) == names
    &&& c.curve@ == gpu_curve()
}

/// The names of the sensors `at`.
pub open spec fn sensor_names_at(sensors: Seq<SensorView>, at: Seq<int>) -> Seq<Seq<char>> {
    at.map_values(|i: int| sensors[i].auto_name)
}

/// Whether sensor and configuration are those of the discovered sensor.
pub open spec fn is_ready_sensor(
    sensor: Sensor,
    c: SensorConfig,
    chips: Seq<ChipView>,
    d: SensorView,
) -> bool {
    sensor.is_at(d.auto_name, d.hwmon_path, d.index) && is_built_sensor(c, chips, d)
}

/// Whether fan and configuration are those of the discovered fan that the
/// layout's entry means.
pub open spec fn is_ready_fan(
    fan: Fan,
    c: FanConfig,
    sysfs: Sysfs,
    chips: Seq<ChipView>,
    ft: FanTopo,
    d: FanView,
    names: Seq<Seq<char>>,
) -> bool {
    fan.is_at(sysfs, d.auto_name, d.hwmon_path, d.pwm_index) && is_prepared_fan(
        c,
        chips,
        ft,
        d,
        names,
    )
}

/// Whether `places` says for each entry of the layout where its fan stands among
/// those of the `usable` entries.
pub open spec fn are_places(places: Seq<Option<usize>>, usable: Seq<int>) -> bool {
    &&& forall|i: int|
        0 <= i < places.len() ==> (#[trigger] places[i] matches Some(k) ==> k < usable.len()
            && usable[k as int] == i)
    &&& forall|k: int|
        0 <= k < usable.len() ==> 0 <= #[trigger] usable[k] < places.len() && places[usable[k]]
            == Some(k as usize)
}

/// Whether `p` is what there is to work on: the discovered sensors and the fans
/// of the layout as far as they can be used, each with its configuration.
pub open spec fn is_preparation(
    p: Prepared,
    sysfs: Sysfs,
    chips: Seq<ChipView>,
    sensors: Seq<SensorView>,
    fans: Seq<FanView>,
    topo: Seq<FanTopo>,
) -> bool {
    let s = usable_sensors(sysfs, sensors, sensors.len() as int);
    let f = usable_fans(sysfs, topo, fans, topo.len() as int);
    let names = sensor_names_at(sensors, s);
    &&& p.sensors@.len() == s.len()
    &&& text::views(p.sensor_names@) == names
    &&& p.config.sensors@.len() == s.len()
    &&& forall|k: int|
        0 <= k < s.len() ==> is_ready_sensor(
            #[trigger] p.sensors@[k],
            p.config.sensors@[k],
            chips,
            sensors[s[k]],
        )
    &&& p.fans@.len() == f.len()
    &&& p.places@.len() == topo.len()
    &&& are_places(p.places@, f)
    &&& p.config.fans@.len() == f.len()
    &&& forall|k: int|
        0 <= k < f.len() ==> is_ready_fan(
            #[trigger] p.fans@[k],
            p.config.fans@[k],
            sysfs,
            chips,
            topo[f[k]],
            meant(topo, fans, f[k]),
            names,
        )
    &&& has_default_settings(p.config)
    &&& text::views(p.skipped@) == skipped_sensors(sysfs, sensors, sensors.len() as int)
        + skipped_fans(sysfs, topo, fans, topo.len() as int)
}

fn prepare_sensors(
    result: &DetectionResult,
    sysfs: &Sysfs,
    skipped: &mut Vec<String>,
) -> (r: (Vec<Sensor>, Vec<String>, Vec<SensorConfig>))
    ensures
        ({
            let sensors = sensor_views(result.sensors@);
            let s = usable_sensors(*sysfs, sensors, sensors.len() as int);
            &&& r.0@.len() == s.len()
            &&& text::views(r.1@) == sensor_names_at(sensors, s)
            &&& r.2@.len() == s.len()
            &&& forall|k: int|
                0 <= k < s.len() ==> is_ready_sensor(
                    #[trigger] r.0@[k],
                    r.2@[k],
                    chip_views(result.chips@),
                    sensors[s[k]],
                )
            &&& text::views(final(skipped)@) == text::views(old(skipped)@) + skipped_sensors(
                *sysfs,
                sensors,
                sensors.len() as int,
            )
        }),
{
    let ghost all = sensor_views(result.sensors@);
    let ghost start = text::views(skipped@);
    let mut sensors: Vec<Sensor> = Vec::new();
    let mut names: Vec<String> = Vec::new();
    let mut configs: Vec<SensorConfig> = Vec::new();
    assert(text::views(names@) =~= sensor_names_at(all, usable_sensors(*sysfs, all, 0)));
    assert(start =~= start + skipped_sensors(*sysfs, all, 0));
    for i in 0..result.sensors.len()
        invariant
            all == sensor_views(result.sensors@),
            sensors@.len() == usable_sensors(*sysfs, all, i as int).len(),
            configs@.len() == sensors@.len(),
            text::views(names@) == sensor_names_at(all, usable_sensors(*sysfs, all, i as int)),
            forall|k: int|
                0 <= k < sensors@.len() ==> is_ready_sensor(
                    #[trigger] sensors@[k],
                    configs@[k],
                    chip_views(result.chips@),
                    all[usable_sensors(*sysfs, all, i as int)[k]],
                ),
            text::views(skipped@) == start + skipped_sensors(*sysfs, all, i as int),
    {
        let ds = &result.sensors[i];
        let ghost before = usable_sensors(*sysfs, all, i as int);
        let ghost after = usable_sensors(*sysfs, all, i + 1);
        let ghost d = all[i as int];
        match Sensor::from_path(
            ds.auto_name.as_str(),
            ds.hwmon_path.as_str(),
            ds.index,
            sysfs,
        ) {
            Ok(sensor) => {
                let ghost was = names@;
                let ghost had = sensors@;
                names.push(ds.auto_name.clone());
                sensors.push(sensor);
                configs.push(
                    SensorConfig {
                        name: ds.auto_name.clone(),
                        hwmon: ds.hwmon_chip.clone(),
                        index: ds.index,
                        hwmon_instance: hwmon_instance_for(
                            &result.chips,
                            ds.hwmon_chip.as_str(),
                            ds.hwmon_path.as_str(),
                        ),
                    },
                );
                proof {
                    assert(after == before.push(i as int));
                    assert(text::views(names@) =~= text::views(was).push(d.auto_name));
                    assert(sensor_names_at(all, after) =~= sensor_names_at(all, before).push(
                        d.auto_name,
                    ));
                    assert forall|k: int| 0 <= k < sensors@.len() implies is_ready_sensor(
                        #[trigger] sensors@[k],
                        configs@[k],
                        chip_views(result.chips@),
                        all[after[k]],
                    ) by {
                        if k < before.len() {
                            assert(had[k] == sensors@[k]);
                            assert(after[k] == before[k]);
                        }
                    }
                }
            },
            Err(e) => {
                let ghost was = text::views(skipped@);
                skipped.push(
                    text::around("skipping sensor '", ds.auto_name.as_str(), "': ").concat(
                        e.as_str(),
                    ),
                );
                proof {
                    assert(text::views(skipped@) =~= was.push(skipped@.last()@));
                    assert(text::views(skipped@) =~= start + skipped_sensors(
                        *sysfs,
                        all,
                        i + 1,
                    ));
                    assert(after == before);
                }
            },
        }
    }
    (sensors, names, configs)
}

fn copy_group(group: &Option<String>) -> (r: Option<String>)
    ensures
        crate::hwmon::seen(r) == crate::hwmon::seen(*group),
{
    match group {
        Some(g) => Some(g.clone()),
        None => None,
    }
}

fn name_available(fans: &Vec<DetectedFan>) -> (r: String)
    ensures
        r@ == "["@ + text::joined(quoted(fan_views(fans@)), ", "@) + "]"@,
{
    let mut names: Vec<String> = Vec::new();
    let ghost all = quoted(fan_views(fans@));
    for i in 0..fans.len()
        invariant
            all == quoted(fan_views(fans@)),
            names@.len() == i,
            forall|k: int| 0 <= k < i ==> (#[trigger] names@[k])@ == all[k],
    {
        names.push(debug_form(fans[i].auto_name.as_str()));
    }
    assert(text::views(names@) =~= all);
    list_of(&names)
}

/// Match discovered hardware to the layout and bind it to its files.
pub fn prepare_from_detect(result: &DetectionResult, topo: &Topology, sysfs: &Sysfs) -> (r: Result<
    Prepared,
    String,
>)
    ensures
        ({
            let fans = fan_views(result.fans@);
            let usable = usable_fans(*sysfs, topo.fans@, fans, topo.fans@.len() as int);
            match r {
                Ok(p) => {
                    &&& layout_error(topo.fans@, fans, 0) is None
                    &&& usable.len() > 0
                    &&& is_preparation(
                        p,
                        *sysfs,
                        chip_views(result.chips@),
                        sensor_views(result.sensors@),
                        fans,
                        topo.fans@,
                    )
                },
                Err(m) => match layout_error(topo.fans@, fans, 0) {
                    Some(e) => m@ == e,
                    None => usable.len() == 0 && m@
                        == "no fans resolved \u{2014} cannot benchmark"@,
                },
            }
        }),
{
    let ghost all = fan_views(result.fans@);
    let ghost chips = chip_views(result.chips@);
    let mut skipped: Vec<String> = Vec::new();
    assert(text::views(skipped@) =~= Seq::<Seq<char>>::empty());
    let (sensors, sensor_names, sensor_configs) = prepare_sensors(result, sysfs, &mut skipped);
    let ghost start = text::views(skipped@);
    let ghost names = text::views(sensor_names@);
    let mut fans: Vec<Fan> = Vec::new();
    let mut places: Vec<Option<usize>> = Vec::new();
    let mut configs: Vec<FanConfig> = Vec::new();
    assert(start =~= start + skipped_fans(*sysfs, topo.fans@, all, 0));
    assert(start =~= skipped_sensors(
        *sysfs,
        sensor_views(result.sensors@),
        result.sensors@.len() as int,
    ));
    for i in 0..topo.fans.len()
        invariant
            all == fan_views(result.fans@),
            chips == chip_views(result.chips@),
            names == text::views(sensor_names@),
            layout_error(topo.fans@, all, 0) == layout_error(topo.fans@, all, i as int),
            fans@.len() == usable_fans(*sysfs, topo.fans@, all, i as int).len(),
            configs@.len() == fans@.len(),
            places@.len() == i,
            are_places(places@, usable_fans(*sysfs, topo.fans@, all, i as int)),
            forall|k: int|
                0 <= k < fans@.len() ==> is_ready_fan(
                    #[trigger] fans@[k],
                    configs@[k],
                    *sysfs,
                    chips,
                    topo.fans@[usable_fans(*sysfs, topo.fans@, all, i as int)[k]],
                    meant(
                        topo.fans@,
                        all,
                        usable_fans(*sysfs, topo.fans@, all, i as int)[k],
                    ),
                    names,
                ),
            text::views(skipped@) == start + skipped_fans(*sysfs, topo.fans@, all, i as int),
    {
        let ft = &topo.fans[i];
        let at: usize = match find_fan(&result.fans, ft.name.as_str()) {
            Some(at) => at,
            None => {
                return Err(
                    text::around(
                        "topology fan '",
                        ft.name.as_str(),
                        "' not found in detected hardware. Available: ",
                    ).concat(name_available(&result.fans).as_str()),
                );
            },
        };
        let df = &result.fans[at];
        let (position, direction) = match place(ft, "' has no positions defined") {
            Ok(p) => p,
            Err(m) => {
                return Err(m);
            },
        };
        let ghost before = usable_fans(*sysfs, topo.fans@, all, i as int);
        let ghost after = usable_fans(*sysfs, topo.fans@, all, i + 1);
        let ghost d = meant(topo.fans@, all, i as int);
        assert(d == df@);
        match Fan::from_path(
            df.auto_name.as_str(),
            df.hwmon_path.as_str(),
            df.pwm_index,
            sysfs,
        ) {
            Ok(fan) => {
                let ghost had = fans@;
                let ghost placed_so_far = places@;
                places.push(Some(fans.len()));
                fans.push(fan);
                configs.push(
                    FanConfig {
                        name: df.auto_name.clone(),
                        hwmon: df.hwmon_chip.clone(),
                        pwm_index: df.pwm_index,
                        hwmon_instance: hwmon_instance_for(
                            &result.chips,
                            df.hwmon_chip.as_str(),
                            df.hwmon_path.as_str(),
                        ),
                        topology: FanTopology {
                            position,
                            direction,
                            group: copy_group(&ft.group),
                        },
                        sensors: copy_names(&sensor_names),
                        curve: default_gpu_curve(),
                    },
                );
                proof {
                    assert(after == before.push(i as int));
                    assert forall|k: int| 0 <= k < after.len() implies 0 <= #[trigger] after[k]
                        < places@.len() && places@[after[k]] == Some(k as usize) by {
                        if k < before.len() {
                            assert(after[k] == before[k]);
                            assert(places@[before[k]] == placed_so_far[before[k]]);
                        }
                    }
                    assert forall|j: int| 0 <= j < places@.len() implies (
                    #[trigger] places@[j] matches Some(k) ==> k < after.len() && after[k as int]
                        == j) by {
                        if j < i {
                            assert(places@[j] == placed_so_far[j]);
                        }
                    }
                    assert forall|k: int| 0 <= k < fans@.len() implies is_ready_fan(
                        #[trigger] fans@[k],
                        configs@[k],
                        *sysfs,
                        chips,
                        topo.fans@[after[k]],
                        meant(topo.fans@, all, after[k]),
                        names,
                    ) by {
                        if k < before.len() {
                            assert(had[k] == fans@[k]);
                            assert(after[k] == before[k]);
                        }
                    }
                }
            },
            Err(e) => {
                let ghost was = text::views(skipped@);
                let ghost placed_so_far = places@;
                places.push(None);
                skipped.push(
                    text::around("skipping fan '", df.auto_name.as_str(), "': ").concat(
                        e.as_str(),
                    ),
                );
                proof {
                    assert(text::views(skipped@) =~= was.push(skipped@.last()@));
                    assert(text::views(skipped@) =~= start + skipped_fans(
                        *sysfs,
                        topo.fans@,
                        all,
                        i + 1,
                    ));
                    assert(after == before);
                    assert forall|k: int| 0 <= k < after.len() implies 0 <= #[trigger] after[k]
                        < places@.len() && places@[after[k]] == Some(k as usize) by {
                        assert(places@[before[k]] == placed_so_far[before[k]]);
                    }
                    assert forall|j: int| 0 <= j < places@.len() implies (
                    #[trigger] places@[j] matches Some(k) ==> k < after.len() && after[k as int]
                        == j) by {
                        if j < i {
                            assert(places@[j] == placed_so_far[j]);
                        }
                    }
                }
            },
        }
    }
    if fans.len() == 0 {
        return Err("no fans resolved \u{2014} cannot benchmark".to_owned());
    }
    let config = with_default_settings(sensor_configs, configs);
    Ok(Prepared { fans, places, sensors, sensor_names, config, skipped })
}

// ---- Laws of the layout ----

/// Each position and each direction has one name.
pub proof fn law_place_names(s: Seq<char>)
    ensures
        position_named(s) == Some(FanPosition::Front) <==> s == "front"@,
        position_named(s) == Some(FanPosition::Rear) <==> s == "rear"@,
        position_named(s) == Some(FanPosition::Top) <==> s == "top"@,
        position_named(s) == Some(FanPosition::Bottom) <==> s == "bottom"@,
        position_named(s) == Some(FanPosition::Side) <==> s == "side"@,
        position_named(s) == Some(FanPosition::CpuCooler) <==> s == "cpu_cooler"@,
        position_named(s) == Some(FanPosition::GpuCooler) <==> s == "gpu_cooler"@,
        direction_named(s) == Some(AirflowDirection::Intake) <==> s == "intake"@,
        direction_named(s) == Some(AirflowDirection::Exhaust) <==> s == "exhaust"@,
{
    reveal_strlit("front");
    reveal_strlit("rear");
    reveal_strlit("top");
    reveal_strlit("bottom");
    reveal_strlit("side");
    reveal_strlit("cpu_cooler");
    reveal_strlit("gpu_cooler");
    reveal_strlit("intake");
    reveal_strlit("exhaust");
    assert("front"@[0] == 'f' && "rear"@[0] == 'r' && "top"@[0] == 't' && "bottom"@[0] == 'b'
        && "side"@[0] == 's' && "cpu_cooler"@[0] == 'c' && "gpu_cooler"@[0] == 'g');
    assert("intake"@[0] == 'i' && "exhaust"@[0] == 'e');
}

/// Of the places with the most fans the last one is the main place.
pub proof fn law_last_of_equals(positions: Seq<FanPlacement>, n: int)
    requires
        1 <= n <= positions.len(),
    ensures
        forall|i: int|
            main_place(positions, n) < i < n ==> (#[trigger] positions[i]).count
                < positions[main_place(positions, n)].count,
    decreases n,
{
    if n > 1 {
        law_main_place(positions, n - 1);
        law_last_of_equals(positions, n - 1);
    }
}

/// A header is placed where the place with the most of its fans is, the last of such;
/// it is placed exactly where it has a place and that one names a position and a
/// direction. `m` is that place.
pub proof fn law_placed(ft: FanTopo, wanting: Seq<char>, m: int)
    requires
        0 <= m < ft.positions@.len(),
        forall|i: int|
            0 <= i < m ==> (#[trigger] ft.positions@[i]).count <= ft.positions@[m].count,
        forall|i: int|
            m < i < ft.positions@.len() ==> (#[trigger] ft.positions@[i]).count
                < ft.positions@[m].count,
    ensures
        match placed(ft, wanting) {
            Ok((p, d)) => {
                &&& position_named(ft.positions@[m].location@) == Some(p)
                &&& direction_named(ft.positions@[m].direction@) == Some(d)
            },
            Err(_) => position_named(ft.positions@[m].location@) is None || direction_named(
                ft.positions@[m].direction@,
            ) is None,
        },
{
    let n = ft.positions@.len() as int;
    law_main_place(ft.positions@, n);
    law_last_of_equals(ft.positions@, n);
    let k = main_place(ft.positions@, n);
    if k < m {
        assert(ft.positions@[m].count < ft.positions@[k].count);
        assert(ft.positions@[k].count <= ft.positions@[m].count);
    } else if m < k {
        assert(ft.positions@[k].count < ft.positions@[m].count);
        assert(ft.positions@[m].count <= ft.positions@[k].count);
    }
}

/// A fan on a CPU or GPU cooler cools directly. Any other stands for its group exactly
/// where it has none or no fan of the group comes before it under another name: else it
/// follows the first of the group. `first` is that fan.
pub proof fn law_roles(fans: Seq<FanTopo>, ft: FanTopo, position: FanPosition, first: int)
    requires
        ft.group matches Some(g) ==> {
            &&& 0 <= first < fans.len()
            &&& fans[first].group matches Some(h) && h@ == g@
            &&& forall|i: int|
                0 <= i < first ==> !((#[trigger] fans[i]).group matches Some(h) && h@ == g@)
        },
    ensures
        ({
            let role = role_of(fans, ft, position);
            let direct = position == FanPosition::CpuCooler || position == FanPosition::GpuCooler;
            &&& role == RoleView::DirectCooler <==> direct
            &&& role == RoleView::CaseRepresentative <==> !direct && (ft.group is None
                || fans[first].name@ == ft.name@)
            &&& (role matches RoleView::CaseFollower(rep) ==> rep == fans[first].name@)
        }),
{
    if let Some(g) = ft.group {
        lemma_first_of_group(fans, g@, 0, first);
    }
}

proof fn lemma_first_of_group(fans: Seq<FanTopo>, group: Seq<char>, from: int, first: int)
    requires
        0 <= from <= first < fans.len(),
        fans[first].group matches Some(h) && h@ == group,
        forall|i: int|
            from <= i < first ==> !((#[trigger] fans[i]).group matches Some(h) && h@ == group),
    ensures
        representative(fans, group, from) == Some(fans[first].name@),
    decreases first - from,
{
    if from < first {
        assert(!(fans[from].group matches Some(h) && h@ == group));
        lemma_first_of_group(fans, group, from + 1, first);
    }
}

/// A CPU cooler is expected to affect the sensors whose names begin with `cpu`, a GPU
/// cooler those with `gpu`, and any other fan all of them; in their order.
pub proof fn law_expected_sensors(position: FanPosition, names: Seq<String>)
    ensures
        expected_at(position, names) == names.map_values(|s: String| s@).filter(
            |s: Seq<char>|
                (position == FanPosition::CpuCooler ==> "cpu"@.is_prefix_of(s)) && (position
                    == FanPosition::GpuCooler ==> "gpu"@.is_prefix_of(s)),
        ),
{
    let n = names.len() as int;
    let all = names.map_values(|s: String| s@);
    let pred = |s: Seq<char>|
        (position == FanPosition::CpuCooler ==> "cpu"@.is_prefix_of(s)) && (position
            == FanPosition::GpuCooler ==> "gpu"@.is_prefix_of(s));
    assert(all.take(n) =~= all);
    if position == FanPosition::CpuCooler {
        lemma_with_prefix(names, "cpu"@, pred, n);
    } else if position == FanPosition::GpuCooler {
        lemma_with_prefix(names, "gpu"@, pred, n);
    } else {
        lemma_all_kept(all, pred);
        assert(text::views(names) =~= all);
    }
}

proof fn lemma_with_prefix(
    names: Seq<String>,
    prefix: Seq<char>,
    pred: spec_fn(Seq<char>) -> bool,
    n: int,
)
    requires
        0 <= n <= names.len(),
        forall|s: Seq<char>| #[trigger] pred(s) == prefix.is_prefix_of(s),
    ensures
        with_prefix(names, prefix, n) == names.map_values(|s: String| s@).take(n).filter(pred),
    decreases n,
{
    reveal(Seq::filter);
    let all = names.map_values(|s: String| s@);
    if n > 0 {
        lemma_with_prefix(names, prefix, pred, n - 1);
        assert(all.take(n).drop_last() =~= all.take(n - 1));
    }
}

proof fn lemma_all_kept<T>(s: Seq<T>, pred: spec_fn(T) -> bool)
    requires
        forall|x: T| #[trigger] pred(x),
    ensures
        s.filter(pred) == s,
    decreases s.len(),
{
    reveal(Seq::filter);
    if s.len() > 0 {
        lemma_all_kept(s.drop_last(), pred);
        assert(pred(s.last()));
        assert(s.drop_last().push(s.last()) =~= s);
    }
}

/// The layout is refused exactly where some fan of it is not placed or, where the
/// hardware counts, not among the fans discovered.
pub proof fn law_layout_refused_iff(
    topo: Seq<FanTopo>,
    fans: Seq<FanView>,
    wanting: Seq<char>,
    i: int,
)
    requires
        0 <= i,
    ensures
        placing_error(topo, wanting, i) is None <==> forall|k: int|
            i <= k < topo.len() ==> placed(#[trigger] topo[k], wanting) is Ok,
        layout_error(topo, fans, i) is None <==> forall|k: int|
            i <= k < topo.len() ==> placed(#[trigger] topo[k], "' has no positions defined"@) is Ok
                && (exists|j: int|
                0 <= j < fans.len() && (#[trigger] fans[j]).auto_name == topo[k].name@),
    decreases topo.len() - i,
{
    if i < topo.len() {
        law_layout_refused_iff(topo, fans, wanting, i + 1);
        law_fan_called(fans, topo[i].name@, 0);
        if placing_error(topo, wanting, i) is None {
            assert forall|k: int| i <= k < topo.len() implies placed(
                #[trigger] topo[k],
                wanting,
            ) is Ok by {}
        }
        if forall|k: int| i <= k < topo.len() ==> placed(#[trigger] topo[k], wanting) is Ok {
            assert(placed(topo[i], wanting) is Ok);
        }
        if layout_error(topo, fans, i) is None {
            let j = fan_called(fans, topo[i].name@, 0)->Some_0;
            assert(fans[j].auto_name == topo[i].name@);
        }
        if forall|k: int|
            i <= k < topo.len() ==> placed(#[trigger] topo[k], "' has no positions defined"@) is Ok
                && (exists|j: int|
                0 <= j < fans.len() && (#[trigger] fans[j]).auto_name == topo[k].name@) {
            assert(placed(topo[i], "' has no positions defined"@) is Ok);
            let j = choose|j: int|
                0 <= j < fans.len() && (#[trigger] fans[j]).auto_name == topo[i].name@;
            assert(fans[j].auto_name == topo[i].name@);
        }
    }
}

/// The fan called by a name is the first with that name, if there is any.
pub proof fn law_fan_called(fans: Seq<FanView>, name: Seq<char>, from: int)
    requires
        0 <= from,
    ensures
        match fan_called(fans, name, from) {
            Some(i) => {
                &&& from <= i < fans.len()
                &&& fans[i].auto_name == name
                &&& forall|j: int| from <= j < i ==> (#[trigger] fans[j]).auto_name != name
            },
            None => forall|j: int|
                from <= j < fans.len() ==> (#[trigger] fans[j]).auto_name != name,
        },
    decreases fans.len() - from,
{
    if from < fans.len() {
        law_fan_called(fans, name, from + 1);
    }
}

/// The sensors used are those whose temperature file is there, all of them in their
/// order; each of the others is told of.
pub proof fn law_usable_sensors(sysfs: Sysfs, sensors: Seq<SensorView>)
    ensures
        usable_sensors(sysfs, sensors, sensors.len() as int) == Seq::new(
            sensors.len(),
            |i: int| i,
        ).filter(
            |i: int|
                sysfs.at(
                    below(
                        sensors[i].hwmon_path,
                        "temp"@ + text::decimal(sensors[i].index as nat) + "_input"@,
                    ),
                ) is Some,
        ),
        usable_sensors(sysfs, sensors, sensors.len() as int).len() + skipped_sensors(
            sysfs,
            sensors,
            sensors.len() as int,
        ).len() == sensors.len(),
{
    lemma_usable_sensors(sysfs, sensors, sensors.len() as int);
}

proof fn lemma_usable_sensors(sysfs: Sysfs, sensors: Seq<SensorView>, n: int)
    requires
        0 <= n <= sensors.len(),
    ensures
        usable_sensors(sysfs, sensors, n) == Seq::new(n as nat, |i: int| i).filter(
            |i: int|
                sysfs.at(
                    below(
                        sensors[i].hwmon_path,
                        "temp"@ + text::decimal(sensors[i].index as nat) + "_input"@,
                    ),
                ) is Some,
        ),
        usable_sensors(sysfs, sensors, n).len() + skipped_sensors(sysfs, sensors, n).len() == n,
    decreases n,
{
    reveal(Seq::filter);
    let all = Seq::new(n as nat, |i: int| i);
    if n > 0 {
        lemma_usable_sensors(sysfs, sensors, n - 1);
        assert(all.drop_last() =~= Seq::new((n - 1) as nat, |i: int| i));
        assert(all.last() == n - 1);
    }
}

/// The fans of the layout that are used are those whose PWM file is there and whose
/// PWM value and control mode can be read, all of them in their order; each of the
/// others is told of.
pub proof fn law_usable_fans(sysfs: Sysfs, topo: Seq<FanTopo>, fans: Seq<FanView>)
    ensures
        usable_fans(sysfs, topo, fans, topo.len() as int) == Seq::new(
            topo.len(),
            |i: int| i,
        ).filter(
            |i: int|
                {
                    let f = meant(topo, fans, i);
                    let pwm = below(f.hwmon_path, "pwm"@ + text::decimal(f.pwm_index as nat));
                    let mode = below(
                        f.hwmon_path,
                        "pwm"@ + text::decimal(f.pwm_index as nat) + "_enable"@,
                    );
                    &&& sysfs.at(pwm) is Some
                    &&& sysfs.number_at(pwm, 255) is Ok
                    &&& sysfs.number_at(mode, 255) is Ok
                },
        ),
        usable_fans(sysfs, topo, fans, topo.len() as int).len() + skipped_fans(
            sysfs,
            topo,
            fans,
            topo.len() as int,
        ).len() == topo.len(),
{
    lemma_usable_fans(sysfs, topo, fans, topo.len() as int);
}

proof fn lemma_usable_fans(sysfs: Sysfs, topo: Seq<FanTopo>, fans: Seq<FanView>, n: int)
    requires
        0 <= n <= topo.len(),
    ensures
        usable_fans(sysfs, topo, fans, n) == Seq::new(n as nat, |i: int| i).filter(
            |i: int|
                {
                    let f = meant(topo, fans, i);
                    let pwm = below(f.hwmon_path, "pwm"@ + text::decimal(f.pwm_index as nat));
                    let mode = below(
                        f.hwmon_path,
                        "pwm"@ + text::decimal(f.pwm_index as nat) + "_enable"@,
                    );
                    &&& sysfs.at(pwm) is Some
                    &&& sysfs.number_at(pwm, 255) is Ok
                    &&& sysfs.number_at(mode, 255) is Ok
                },
        ),
        usable_fans(sysfs, topo, fans, n).len() + skipped_fans(sysfs, topo, fans, n).len() == n,
    decreases n,
{
    reveal(Seq::filter);
    let all = Seq::new(n as nat, |i: int| i);
    if n > 0 {
        lemma_usable_fans(sysfs, topo, fans, n - 1);
        assert(all.drop_last() =~= Seq::new((n - 1) as nat, |i: int| i));
        assert(all.last() == n - 1);
    }
}

/// The entry of the layout means the first fan discovered under its name.
pub proof fn law_meant(topo: Seq<FanTopo>, fans: Seq<FanView>, i: int, j: int)
    requires
        0 <= j < fans.len(),
        fans[j].auto_name == topo[i].name@,
        forall|k: int| 0 <= k < j ==> (#[trigger] fans[k]).auto_name != topo[i].name@,
    ensures
        meant(topo, fans, i) == fans[j],
{
    law_fan_called(fans, topo[i].name@, 0);
    let k = fan_called(fans, topo[i].name@, 0)->Some_0;
    if k < j {
        assert(fans[k].auto_name != topo[i].name@);
    }
}

/// What the layout makes of a fan: its name, the place of most of its fans, its part in
/// the benchmark and the sensors that it is expected to affect.
pub proof fn law_classified(c: ClassifiedFan, fans: Seq<FanTopo>, i: int, names: Seq<String>)
    requires
        is_classified(c, fans, i, names),
    ensures
        c.name@ == fans[i].name@,
        placed(fans[i], "' has no positions"@) == Ok::<
            (FanPosition, AirflowDirection),
            Seq<char>,
        >((c.position, c.direction)),
        match c.role {
            FanRole::DirectCooler => role_of(fans, fans[i], c.position) is DirectCooler,
            FanRole::CaseRepresentative => role_of(fans, fans[i], c.position) is CaseRepresentative,
            FanRole::CaseFollower { representative } => role_of(fans, fans[i], c.position)
                == RoleView::CaseFollower(representative@),
        },
        c.expected_sensors@.map_values(|s: String| s@) == names.map_values(|s: String| s@).filter(
            |s: Seq<char>|
                (c.position == FanPosition::CpuCooler ==> "cpu"@.is_prefix_of(s)) && (c.position
                    == FanPosition::GpuCooler ==> "gpu"@.is_prefix_of(s)),
        ),
{
    let position = c.position;
    law_expected_sensors(position, names);
    let all = names.map_values(|s: String| s@);
    let p = |s: Seq<char>|
        (position == FanPosition::CpuCooler ==> "cpu"@.is_prefix_of(s)) && (position
            == FanPosition::GpuCooler ==> "gpu"@.is_prefix_of(s));
    let q = |s: Seq<char>|
        (c.position == FanPosition::CpuCooler ==> "cpu"@.is_prefix_of(s)) && (c.position
            == FanPosition::GpuCooler ==> "gpu"@.is_prefix_of(s));
    lemma_same_kept(all, p, q);
    assert(text::views(c.expected_sensors@) =~= c.expected_sensors@.map_values(|s: String| s@));
}

proof fn lemma_same_kept<T>(s: Seq<T>, p: spec_fn(T) -> bool, q: spec_fn(T) -> bool)
    requires
        forall|x: T| #[trigger] p(x) == q(x),
    ensures
        s.filter(p) == s.filter(q),
    decreases s.len(),
{
    reveal(Seq::filter);
    if s.len() > 0 {
        lemma_same_kept(s.drop_last(), p, q);
        assert(p(s.last()) == q(s.last()));
    }
}

/// What is prepared of each sensor that can be used: it is bound to its file, is told by
/// its own name, and is configured on its chip.
pub proof fn law_prepared_sensors(
    p: Prepared,
    sysfs: Sysfs,
    chips: Seq<ChipView>,
    sensors: Seq<SensorView>,
    fans: Seq<FanView>,
    topo: Seq<FanTopo>,
    k: int,
)
    requires
        is_preparation(p, sysfs, chips, sensors, fans, topo),
        0 <= k < p.sensors@.len(),
    ensures
        ({
            let at = usable_sensors(sysfs, sensors, sensors.len() as int);
            let s = sensors[at[k]];
            &&& p.sensors@.len() == at.len()
            &&& p.sensor_names@.len() == at.len()
            &&& p.config.sensors@.len() == at.len()
            &&& p.sensors@[k].name@ == s.auto_name
            &&& p.sensors@[k].input_path@ == below(
                s.hwmon_path,
                "temp"@ + text::decimal(s.index as nat) + "_input"@,
            )
            &&& p.sensor_names@[k]@ == s.auto_name
            &&& p.config.sensors@[k].name@ == s.auto_name
            &&& p.config.sensors@[k].hwmon@ == s.hwmon_chip
            &&& p.config.sensors@[k].index == s.index
        }),
{
    let at = usable_sensors(sysfs, sensors, sensors.len() as int);
    assert(is_ready_sensor(p.sensors@[k], p.config.sensors@[k], chips, sensors[at[k]]));
    let names = sensor_names_at(sensors, at);
    assert(text::views(p.sensor_names@).len() == p.sensor_names@.len());
    assert(text::views(p.sensor_names@)[k] == names[k]);
}

/// What is prepared of each fan of the layout that can be used: it is bound to its
/// files, is configured on its channel and where the layout puts it, and every sensor
/// that can be used drives it. The layout's entry points at it.
pub proof fn law_prepared_fans(
    p: Prepared,
    sysfs: Sysfs,
    chips: Seq<ChipView>,
    sensors: Seq<SensorView>,
    fans: Seq<FanView>,
    topo: Seq<FanTopo>,
    k: int,
)
    requires
        is_preparation(p, sysfs, chips, sensors, fans, topo),
        0 <= k < p.fans@.len(),
    ensures
        ({
            let at = usable_fans(sysfs, topo, fans, topo.len() as int);
            let f = meant(topo, fans, at[k]);
            let c = p.config.fans@[k];
            &&& p.fans@.len() == at.len()
            &&& p.config.fans@.len() == at.len()
            &&& p.places@.len() == topo.len()
            &&& 0 <= at[k] < topo.len()
            &&& p.places@[at[k]] == Some(k as usize)
            &&& p.fans@[k].name@ == f.auto_name
            &&& p.fans@[k].pwm_path@ == below(
                f.hwmon_path,
                "pwm"@ + text::decimal(f.pwm_index as nat),
            )
            &&& c.name@ == f.auto_name
            &&& c.hwmon@ == f.hwmon_chip
            &&& c.pwm_index == f.pwm_index
            &&& placed(topo[at[k]], "' has no positions defined"@) == Ok::<
                (FanPosition, AirflowDirection),
                Seq<char>,
            >((c.topology.position, c.topology.direction))
            &&& c.topology.group is Some == topo[at[k]].group is Some
            &&& (c.topology.group matches Some(g) ==> g@ == topo[at[k]].group->Some_0@)
            &&& c.sensors@.map_values(|s: String| s@) == p.sensor_names@.map_values(
                |s: String| s@,
            )
        }),
{
    let at = usable_fans(sysfs, topo, fans, topo.len() as int);
    let names = sensor_names_at(
        sensors,
        usable_sensors(sysfs, sensors, sensors.len() as int),
    );
    assert(is_ready_fan(
        p.fans@[k],
        p.config.fans@[k],
        sysfs,
        chips,
        topo[at[k]],
        meant(topo, fans, at[k]),
        names,
    ));
    assert(0 <= at[k] < p.places@.len());
    let c = p.config.fans@[k];
    assert(c.sensors@.map_values(|s: String| s@) =~= text::views(c.sensors@));
    assert(p.sensor_names@.map_values(|s: String| s@) =~= text::views(p.sensor_names@));
}

/// An entry of the layout points at no fan exactly where its fan cannot be used.
pub proof fn law_places(
    p: Prepared,
    sysfs: Sysfs,
    chips: Seq<ChipView>,
    sensors: Seq<SensorView>,
    fans: Seq<FanView>,
    topo: Seq<FanTopo>,
    i: int,
)
    requires
        is_preparation(p, sysfs, chips, sensors, fans, topo),
        0 <= i < topo.len(),
    ensures
        p.places@[i] is Some <==> usable_fans(sysfs, topo, fans, topo.len() as int).contains(i),
{
    let at = usable_fans(sysfs, topo, fans, topo.len() as int);
    if at.contains(i) {
        let k = choose|k: int| 0 <= k < at.len() && at[k] == i;
        assert(p.places@[at[k]] == Some(k as usize));
    }
    if let Some(k) = p.places@[i] {
        assert(at[k as int] == i);
    }
}

} // verus!
