//! Step responses: how temperatures run after a fan's PWM value has jumped.
use crate::names::{looked_up, NameMap};
use crate::scalar::Scalar;
use crate::text;
use vstd::prelude::*;

verus! {

/// The fewest temperatures that a response is fitted to.
pub const MIN_RESPONSE: usize = 5;

/// A fitted first-order response.
#[derive(Debug, Clone, Copy, PartialEq, Eq, Structural)]
pub struct FittedStep {
    /// Degrees Celsius per unit of PWM.
    pub gain_k: Scalar,
    /// Time constant in ticks (63% of the response).
    pub tau_ticks: Scalar,
}

/// The temperatures of one sensor since a step, in thousandths of a degree.
#[derive(Debug)]
pub struct Trajectory {
    pub sensor: String,
    pub temps: Vec<i32>,
}

/// A step that is being recorded.
#[derive(Debug)]
pub struct ActiveStep {
    pub fan: String,
    pub delta_pwm: i32,
    pub tick: usize,
    pub initial_temps: NameMap<i32>,
    pub trajectories: Vec<Trajectory>,
}

/// A recorded response of one sensor, to be fitted.
#[derive(Debug)]
pub struct Recording {
    pub fan: String,
    pub sensor: String,
    pub delta_pwm: i32,
    /// The temperature when the step came.
    pub initial: i32,
    pub temps: Vec<i32>,
}

/// The fits of one sensor's responses to one fan.
#[derive(Debug)]
pub struct FitGroup {
    pub fan: String,
    pub sensor: String,
    pub fits: Vec<FittedStep>,
}

/// Detects PWM steps and records how the temperatures respond.
#[derive(Debug)]
pub struct StepDetector {
    pub step_threshold: u8,
    pub response_window: usize,
    pub completed: Vec<FitGroup>,
    pub active: Vec<ActiveStep>,
}

/// A trajectory by its texts.
pub ghost struct TrajectoryView {
    pub sensor: Seq<char>,
    pub temps: Seq<i32>,
}

/// A step that is being recorded, by its texts.
pub ghost struct StepView {
    pub fan: Seq<char>,
    pub delta_pwm: int,
    pub tick: int,
    pub initial: Map<Seq<char>, i32>,
    pub trajectories: Seq<TrajectoryView>,
}

/// A recorded response by its texts.
pub ghost struct RecordingView {
    pub fan: Seq<char>,
    pub sensor: Seq<char>,
    pub delta_pwm: int,
    pub initial: i32,
    pub temps: Seq<i32>,
}

impl View for Trajectory {
    type V = TrajectoryView;

    open spec fn view(&self) -> TrajectoryView {
        TrajectoryView { sensor: self.sensor@, temps: self.temps@ }
    }
}

pub open spec fn trajectory_views(s: Seq<Trajectory>) -> Seq<TrajectoryView> {
    s.map_values(|t: Trajectory| t@)
}

impl View for ActiveStep {
    type V = StepView;

    open spec fn view(&self) -> StepView {
        StepView {
            fan: self.fan@,
            delta_pwm: self.delta_pwm as int,
            tick: self.tick as int,
            initial: self.initial_temps@,
            trajectories: trajectory_views(self.trajectories@),
        }
    }
}

impl View for Recording {
    type V = RecordingView;

    open spec fn view(&self) -> RecordingView {
        RecordingView {
            fan: self.fan@,
            sensor: self.sensor@,
            delta_pwm: self.delta_pwm as int,
            initial: self.initial,
            temps: self.temps@,
        }
    }
}

pub open spec fn step_views(s: Seq<ActiveStep>) -> Seq<StepView> {
    s.map_values(|t: ActiveStep| t@)
}

pub open spec fn recording_views(s: Seq<Recording>) -> Seq<RecordingView> {
    s.map_values(|t: Recording| t@)
}

// ---- Steps ----

/// By how much the fan has jumped, where it has jumped by the threshold or more.
pub open spec fn jump(
    prev: Map<Seq<char>, u8>,
    curr: Map<Seq<char>, u8>,
    threshold: u8,
    fan: Seq<char>,
) -> Option<int> {
    match (looked_up(prev, fan), looked_up(curr, fan)) {
        (Some(p), Some(c)) => if c - p >= threshold || p - c >= threshold {
            Some(c - p)
        } else {
            None
        },
        _ => None,
    }
}

/// A step of `fan` that has just come, with the temperatures it starts from.
pub open spec fn new_step(fan: Seq<char>, delta: int, temps: NameMap<i32>) -> StepView {
    StepView {
        fan,
        delta_pwm: delta,
        tick: 0,
        initial: temps@,
        trajectories: Seq::new(
            temps.entries@.len(),
            |i: int|
                TrajectoryView {
                    sensor: temps.entries@[i].0@,
                    temps: seq![temps@[temps.entries@[i].0@]],
                },
        ),
    }
}

/// The steps without those of `fan`.
pub open spec fn without_fan(steps: Seq<StepView>, fan: Seq<char>) -> Seq<StepView>
    decreases steps.len(),
{
    if steps.len() == 0 {
        steps
    } else if steps.last().fan == fan {
        without_fan(steps.drop_last(), fan)
    } else {
        without_fan(steps.drop_last(), fan).push(steps.last())
    }
}

/// The steps with those that come with the first `n` of the current PWM values:
/// a new step takes the place of one that the fan had.
pub open spec fn with_new_steps(
    steps: Seq<StepView>,
    prev: Map<Seq<char>, u8>,
    curr: NameMap<u8>,
    temps: NameMap<i32>,
    threshold: u8,
    n: int,
) -> Seq<StepView>
    decreases n,
{
    if n <= 0 {
        steps
    } else {
        let before = with_new_steps(steps, prev, curr, temps, threshold, n - 1);
        let fan = curr.entries@[n - 1].0@;
        match jump(prev, curr@, threshold, fan) {
            Some(delta) => without_fan(before, fan).push(new_step(fan, delta, temps)),
            None => before,
        }
    }
}

/// The trajectory with the sensor's temperature added, where it has one.
pub open spec fn extended(t: TrajectoryView, temps: Map<Seq<char>, i32>) -> TrajectoryView {
    match looked_up(temps, t.sensor) {
        Some(v) => TrajectoryView { temps: t.temps.push(v), ..t },
        None => t,
    }
}

/// The step one tick later.
pub open spec fn advanced(s: StepView, temps: Map<Seq<char>, i32>) -> StepView {
    StepView {
        tick: s.tick + 1,
        trajectories: s.trajectories.map_values(|t: TrajectoryView| extended(t, temps)),
        ..s
    }
}

/// The steps, one tick later, that are still being recorded.
pub open spec fn still_active(
    steps: Seq<StepView>,
    temps: Map<Seq<char>, i32>,
    window: int,
) -> Seq<StepView>
    decreases steps.len(),
{
    if steps.len() == 0 {
        steps
    } else {
        let rest = still_active(steps.drop_last(), temps, window);
        let s = advanced(steps.last(), temps);
        if s.tick >= window {
            rest
        } else {
            rest.push(s)
        }
    }
}

/// What the first `n` trajectories of a step leave to be fitted: those that are
/// long enough.
pub open spec fn recordings_of(s: StepView, n: int) -> Seq<RecordingView>
    decreases n,
{
    if n <= 0 {
        Seq::empty()
    } else {
        let rest = recordings_of(s, n - 1);
        let t = s.trajectories[n - 1];
        if t.temps.len() < MIN_RESPONSE {
            rest
        } else {
            rest.push(
                RecordingView {
                    fan: s.fan,
                    sensor: t.sensor,
                    delta_pwm: s.delta_pwm,
                    initial: match looked_up(s.initial, t.sensor) {
                        Some(v) => v,
                        None => t.temps[0],
                    },
                    temps: t.temps,
                },
            )
        }
    }
}

/// What the steps that end with this tick leave to be fitted.
pub open spec fn finished(
    steps: Seq<StepView>,
    temps: Map<Seq<char>, i32>,
    window: int,
) -> Seq<RecordingView>
    decreases steps.len(),
{
    if steps.len() == 0 {
        Seq::empty()
    } else {
        let rest = finished(steps.drop_last(), temps, window);
        let s = advanced(steps.last(), temps);
        if s.tick >= window {
            rest + recordings_of(s, s.trajectories.len() as int)
        } else {
            rest
        }
    }
}

/// The fits of the sensor's responses to the fan, from the `i`-th group on.
pub open spec fn fits_from(
    groups: Seq<FitGroup>,
    fan: Seq<char>,
    sensor: Seq<char>,
    i: int,
) -> Seq<FittedStep>
    decreases groups.len() - i,
{
    if i >= groups.len() {
        Seq::empty()
    } else if groups[i].fan@ == fan && groups[i].sensor@ == sensor {
        groups[i].fits@
    } else {
        fits_from(groups, fan, sensor, i + 1)
    }
}

impl StepDetector {
    pub open spec fn wf(self) -> bool {
        &&& forall|i: int|
            0 <= i < self.active@.len() ==> (#[trigger] self.active@[i]).tick < self.response_window
        &&& forall|i: int|
            0 <= i < self.completed@.len() ==> (#[trigger] self.completed@[i]).fits@.len() > 0
    }

    /// The fits of the sensor's responses to the fan, as they came.
    pub open spec fn fits_of(self, fan: Seq<char>, sensor: Seq<char>) -> Seq<FittedStep> {
        fits_from(self.completed@, fan, sensor, 0)
    }

    pub fn new(step_threshold: u8, response_window: usize) -> (r: Self)
        ensures
            r.wf(),
            r.step_threshold == step_threshold,
            r.response_window == response_window,
            step_views(r.active@) == Seq::<StepView>::empty(),
            r.completed@.len() == 0,
    {
        let r = StepDetector {
            step_threshold,
            response_window,
            completed: Vec::new(),
            active: Vec::new(),
        };
        assert(step_views(r.active@) =~= Seq::<StepView>::empty());
        r
    }

    /// Called each tick with the previous and the current PWM values and the
    /// temperatures; gives the responses that are complete.
    pub fn update(
        &mut self,
        prev_pwms: &NameMap<u8>,
        curr_pwms: &NameMap<u8>,
        sensor_temps: &NameMap<i32>,
    ) -> (r: Vec<Recording>)
        requires
            old(self).wf(),
        ensures
            final(self).wf(),
            final(self).step_threshold == old(self).step_threshold,
            final(self).response_window == old(self).response_window,
            final(self).completed == old(self).completed,
            ({
                let running = with_new_steps(
                    step_views(old(self).active@),
                    prev_pwms@,
                    *curr_pwms,
                    *sensor_temps,
                    old(self).step_threshold,
                    curr_pwms.entries@.len() as int,
                );
                let window = old(self).response_window as int;
                &&& step_views(final(self).active@) == still_active(
                    running,
                    sensor_temps@,
                    window,
                )
                &&& recording_views(r@) == finished(running, sensor_temps@, window)
            }),
    {
        let ghost start = step_views(self.active@);
        let n: usize = curr_pwms.entries.len();
        let ghost threshold = self.step_threshold;
        for i in 0..n
            invariant
                n == curr_pwms.entries@.len(),
                threshold == self.step_threshold,
                self.step_threshold == old(self).step_threshold,
                self.response_window == old(self).response_window,
                self.completed == old(self).completed,
                forall|k: int|
                    0 <= k < self.active@.len() ==> (#[trigger] self.active@[k]).tick < usize::MAX,
                step_views(self.active@) == with_new_steps(
                    start,
                    prev_pwms@,
                    *curr_pwms,
                    *sensor_temps,
                    threshold,
                    i as int,
                ),
        {
            let fan = curr_pwms.entries[i].0.as_str();
            let delta: Option<i32> = match (prev_pwms.get(fan), curr_pwms.get(fan)) {
                (Some(p), Some(c)) => {
                    let d: i32 = c as i32 - p as i32;
                    if d >= self.step_threshold as i32 || -d >= self.step_threshold as i32 {
                        Some(d)
                    } else {
                        None
                    }
                },
                _ => None,
            };
            if let Some(d) = delta {
                self.start(fan, d, sensor_temps);
            }
        }
        let ghost running = step_views(self.active@);
        let mut recordings: Vec<Recording> = Vec::new();
        let mut kept: Vec<ActiveStep> = Vec::new();
        let mut steps: Vec<ActiveStep> = Vec::new();
        std::mem::swap(&mut steps, &mut self.active);
        let total: usize = steps.len();
        let ghost all = steps@;
        proof {
            assert(step_views(kept@) =~= still_active(
                running.take(0),
                sensor_temps@,
                self.response_window as int,
            ));
            assert(recording_views(recordings@) =~= finished(
                running.take(0),
                sensor_temps@,
                self.response_window as int,
            ));
        }
        for i in 0..total
            invariant
                total == all.len(),
                running == step_views(all),
                steps@ == all.skip(i as int),
                self.step_threshold == old(self).step_threshold,
                self.response_window == old(self).response_window,
                self.completed == old(self).completed,
                forall|k: int| 0 <= k < all.len() ==> (#[trigger] all[k]).tick < usize::MAX,
                forall|k: int|
                    0 <= k < kept@.len() ==> (#[trigger] kept@[k]).tick < self.response_window,
                step_views(kept@) == still_active(
                    running.take(i as int),
                    sensor_temps@,
                    self.response_window as int,
                ),
                recording_views(recordings@) == finished(
                    running.take(i as int),
                    sensor_temps@,
                    self.response_window as int,
                ),
        {
            assert(steps@[0] == all[i as int]);
            let first = steps.remove(0);
            assert(steps@ =~= all.skip(i + 1));
            assert(running.take(i + 1).drop_last() =~= running.take(i as int));
            assert(running.take(i + 1).last() == first@);
            let step = advance(first, sensor_temps);
            if step.tick >= self.response_window {
                record(&step, &mut recordings);
            } else {
                let ghost was = kept@;
                kept.push(step);
                assert(step_views(kept@) =~= step_views(was).push(kept@.last()@));
            }
        }
        assert(running.take(running.len() as int) =~= running);
        self.active = kept;
        recordings
    }

    fn start(&mut self, fan: &str, delta: i32, temps: &NameMap<i32>)
        requires
            forall|k: int|
                0 <= k < old(self).active@.len() ==> (#[trigger] old(self).active@[k]).tick
                    < usize::MAX,
        ensures
            final(self).step_threshold == old(self).step_threshold,
            final(self).response_window == old(self).response_window,
            final(self).completed == old(self).completed,
            forall|k: int|
                0 <= k < final(self).active@.len() ==> (#[trigger] final(self).active@[k]).tick
                    < usize::MAX,
            step_views(final(self).active@) == without_fan(
                step_views(old(self).active@),
                fan@,
            ).push(new_step(fan@, delta as int, *temps)),
    {
        let mut kept: Vec<ActiveStep> = Vec::new();
        let mut steps: Vec<ActiveStep> = Vec::new();
        std::mem::swap(&mut steps, &mut self.active);
        let total: usize = steps.len();
        let ghost all = steps@;
        let ghost views = step_views(all);
        assert(step_views(kept@) =~= without_fan(views.take(0), fan@));
        for i in 0..total
            invariant
                total == all.len(),
                views == step_views(all),
                steps@ == all.skip(i as int),
                self.step_threshold == old(self).step_threshold,
                self.response_window == old(self).response_window,
                self.completed == old(self).completed,
                forall|k: int| 0 <= k < all.len() ==> (#[trigger] all[k]).tick < usize::MAX,
                forall|k: int| 0 <= k < kept@.len() ==> (#[trigger] kept@[k]).tick < usize::MAX,
                step_views(kept@) == without_fan(views.take(i as int), fan@),
        {
            assert(steps@[0] == all[i as int]);
            let step = steps.remove(0);
            assert(steps@ =~= all.skip(i + 1));
            assert(views.take(i + 1).drop_last() =~= views.take(i as int));
            if !text::same(step.fan.as_str(), fan) {
                let ghost was = kept@;
                kept.push(step);
                assert(step_views(kept@) =~= step_views(was).push(views[i as int]));
            }
        }
        assert(views.take(views.len() as int) =~= views);
        let mut trajectories: Vec<Trajectory> = Vec::new();
        let ghost fresh = new_step(fan@, delta as int, *temps);
        for i in 0..temps.entries.len()
            invariant
                fresh == new_step(fan@, delta as int, *temps),
                trajectories@.len() == i,
                forall|k: int|
                    0 <= k < i ==> (#[trigger] trajectories@[k])@ == fresh.trajectories[k],
        {
            let sensor = temps.entries[i].0.as_str();
            proof {
                crate::names::lemma_named(temps.entries@, 0, i as int);
            }
            let temp: i32 = match temps.get(sensor) {
                Some(v) => v,
                None => 0,
            };
            let mut path: Vec<i32> = Vec::new();
            path.push(temp);
            assert(path@ =~= seq![temps@[sensor@]]);
            trajectories.push(Trajectory { sensor: temps.entries[i].0.clone(), temps: path });
        }
        let step = ActiveStep {
            fan: fan.to_owned(),
            delta_pwm: delta,
            tick: 0,
            initial_temps: temps.copied(),
            trajectories,
        };
        assert(step@.trajectories =~= fresh.trajectories);
        let ghost before = kept@;
        kept.push(step);
        assert(step_views(kept@) =~= step_views(before).push(fresh));
        self.active = kept;
    }

    /// Keeps a fit of the sensor's response to the fan.
    pub fn keep_fit(&mut self, fan: &str, sensor: &str, fitted: FittedStep)
        requires
            old(self).wf(),
        ensures
            final(self).wf(),
            final(self).step_threshold == old(self).step_threshold,
            final(self).response_window == old(self).response_window,
            final(self).active == old(self).active,
            forall|f: Seq<char>, s: Seq<char>| #[trigger]
                final(self).fits_of(f, s) == if f == fan@ && s == sensor@ {
                    old(self).fits_of(f, s).push(fitted)
                } else {
                    old(self).fits_of(f, s)
                },
    {
        let n: usize = self.completed.len();
        for i in 0..n
            invariant
                n == self.completed@.len(),
                *self == *old(self),
                old(self).wf(),
                forall|k: int|
                    0 <= k < i ==> (#[trigger] self.completed@[k]).fan@ != fan@
                        || self.completed@[k].sensor@ != sensor@,
        {
            if text::same(self.completed[i].fan.as_str(), fan) && text::same(
                self.completed[i].sensor.as_str(),
                sensor,
            ) {
                let ghost was = self.completed@;
                self.completed[i].fits.push(fitted);
                assert forall|f: Seq<char>, s: Seq<char>| #[trigger]
                    self.fits_of(f, s) == if f == fan@ && s == sensor@ {
                        old(self).fits_of(f, s).push(fitted)
                    } else {
                        old(self).fits_of(f, s)
                    } by {
                    lemma_fit_added(was, self.completed@, i as int, fitted, f, s, 0);
                }
                return ;
            }
        }
        let mut fits: Vec<FittedStep> = Vec::new();
        fits.push(fitted);
        let group = FitGroup { fan: fan.to_owned(), sensor: sensor.to_owned(), fits };
        let ghost was = self.completed@;
        self.completed.push(group);
        assert forall|f: Seq<char>, s: Seq<char>| #[trigger]
            self.fits_of(f, s) == if f == fan@ && s == sensor@ {
                old(self).fits_of(f, s).push(fitted)
            } else {
                old(self).fits_of(f, s)
            } by {
            lemma_group_added(was, group, f, s, 0);
            if f == fan@ && s == sensor@ {
                assert(group.fits@ =~= Seq::<FittedStep>::empty().push(fitted));
            }
        }
    }
}

proof fn lemma_fit_added(
    before: Seq<FitGroup>,
    after: Seq<FitGroup>,
    at: int,
    fitted: FittedStep,
    f: Seq<char>,
    s: Seq<char>,
    i: int,
)
    requires
        0 <= i,
        0 <= at < before.len(),
        after.len() == before.len(),
        forall|k: int| 0 <= k < before.len() && k != at ==> #[trigger] after[k] == before[k],
        after[at].fan == before[at].fan,
        after[at].sensor == before[at].sensor,
        after[at].fits@ == before[at].fits@.push(fitted),
        forall|k: int|
            0 <= k < at ==> (#[trigger] before[k]).fan@ != before[at].fan@ || before[k].sensor@
                != before[at].sensor@,
    ensures
        fits_from(after, f, s, i) == if i <= at && f == before[at].fan@ && s
            == before[at].sensor@ {
            fits_from(before, f, s, i).push(fitted)
        } else {
            fits_from(before, f, s, i)
        },
    decreases before.len() - i,
{
    if i < before.len() {
        lemma_fit_added(before, after, at, fitted, f, s, i + 1);
        if i != at {
            assert(after[i] == before[i]);
        }
    }
}

proof fn lemma_group_added(
    before: Seq<FitGroup>,
    group: FitGroup,
    f: Seq<char>,
    s: Seq<char>,
    i: int,
)
    requires
        0 <= i <= before.len(),
        forall|k: int|
            0 <= k < before.len() ==> (#[trigger] before[k]).fan@ != group.fan@ || before[k].sensor@
                != group.sensor@,
    ensures
        fits_from(before.push(group), f, s, i) == if f == group.fan@ && s == group.sensor@ {
            group.fits@
        } else {
            fits_from(before, f, s, i)
        },
        f == group.fan@ && s == group.sensor@ ==> fits_from(before, f, s, i).len() == 0,
    decreases before.len() - i,
{
    if i < before.len() {
        lemma_group_added(before, group, f, s, i + 1);
    } else {
        reveal_with_fuel(fits_from, 2);
    }
}

fn advance(step: ActiveStep, temps: &NameMap<i32>) -> (r: ActiveStep)
    requires
        step.tick < usize::MAX,
    ensures
        r@ == advanced(step@, temps@),
{
    let mut step = step;
    let ghost before = step@;
    let n: usize = step.trajectories.len();
    let ghost paths = step.trajectories@;
    for i in 0..n
        invariant
            n == paths.len(),
            n == step.trajectories@.len(),
            step.fan@ == before.fan,
            step.delta_pwm == before.delta_pwm,
            step.tick == before.tick,
            step.tick < usize::MAX,
            step.initial_temps@ == before.initial,
            forall|k: int|
                0 <= k < i ==> (#[trigger] step.trajectories@[k])@ == extended(paths[k]@, temps@),
            forall|k: int| i <= k < n ==> #[trigger] step.trajectories@[k] == paths[k],
    {
        if let Some(t) = temps.get(step.trajectories[i].sensor.as_str()) {
            step.trajectories[i].temps.push(t);
        }
        assert(step.trajectories@[i as int]@ == extended(paths[i as int]@, temps@));
    }
    step.tick = step.tick + 1;
    assert(step@.trajectories =~= advanced(before, temps@).trajectories);
    step
}

fn record(step: &ActiveStep, recordings: &mut Vec<Recording>)
    ensures
        recording_views(final(recordings)@) == recording_views(old(recordings)@) + recordings_of(
            step@,
            step@.trajectories.len() as int,
        ),
{
    let ghost start = recording_views(recordings@);
    assert(start =~= start + recordings_of(step@, 0));
    for i in 0..step.trajectories.len()
        invariant
            recording_views(recordings@) == start + recordings_of(step@, i as int),
    {
        let t = &step.trajectories[i];
        if t.temps.len() >= MIN_RESPONSE {
            let initial: i32 = match step.initial_temps.get(t.sensor.as_str()) {
                Some(v) => v,
                None => t.temps[0],
            };
            let temps = copy_temps(&t.temps);
            let ghost was = recordings@;
            recordings.push(
                Recording {
                    fan: step.fan.clone(),
                    sensor: t.sensor.clone(),
                    delta_pwm: step.delta_pwm,
                    initial,
                    temps,
                },
            );
            assert(recording_views(recordings@) =~= recording_views(was).push(
                recordings@.last()@,
            ));
            assert(recording_views(recordings@) =~= start + recordings_of(step@, i + 1));
        }
    }
}

fn copy_temps(temps: &Vec<i32>) -> (r: Vec<i32>)
    ensures
        r@ == temps@,
{
    let mut r: Vec<i32> = Vec::new();
    for i in 0..temps.len()
        invariant
            r@ == temps@.take(i as int),
    {
        r.push(temps[i]);
        assert(r@ =~= temps@.take(i + 1));
    }
    assert(temps@.take(temps@.len() as int) =~= temps@);
    r
}

// ---- What there is to fit ----

/// The last fifth of a response, which stands for the temperature that it settles
/// at: the sum of its temperatures, and their number.
#[derive(Debug, Clone, Copy, PartialEq, Eq, Structural)]
pub struct Settled {
    pub sum: i128,
    pub count: usize,
}

/// The sum of the first `n` temperatures from the `from`-th on.
pub open spec fn temps_sum(temps: Seq<i32>, from: int, n: int) -> int
    decreases n,
{
    if n <= 0 {
        0
    } else {
        temps_sum(temps, from, n - 1) + temps[from + n - 1]
    }
}

/// How many temperatures the last fifth of `n` holds.
pub open spec fn tail_count(n: int) -> int {
    n - n * 4 / 5
}

/// Whether the mean of the tail is within 0.05 degrees of where the response
/// started.
pub open spec fn no_response(initial: i32, sum: int, count: int) -> bool {
    -50 * count < sum - initial * count < 50 * count
}

/// What there is to fit: nothing where the response is too short, the PWM value
/// has not changed, or the temperature has hardly moved.
pub open spec fn settled_of(initial: i32, temps: Seq<i32>, delta_pwm: i32) -> Option<Settled> {
    let n = temps.len() as int;
    let count = tail_count(n);
    let sum = temps_sum(temps, n - count, count);
    if n < MIN_RESPONSE || delta_pwm == 0 || no_response(initial, sum, count) {
        None
    } else {
        Some(Settled { sum: sum as i128, count: count as usize })
    }
}

/// What there is to fit in a response that started at `initial` when the PWM
/// value changed by `delta_pwm`.
pub fn settled(initial: i32, temps: &Vec<i32>, delta_pwm: i32) -> (r: Option<Settled>)
    ensures
        r == settled_of(initial, temps@, delta_pwm),
{
    let n: usize = temps.len();
    if n < MIN_RESPONSE || delta_pwm == 0 {
        return None;
    }
    let count: usize = if n % 5 == 0 {
        n / 5
    } else {
        n / 5 + 1
    };
    assert(count == tail_count(n as int));
    let from: usize = n - count;
    let mut sum: i128 = 0;
    for i in 0..count
        invariant
            n == temps@.len(),
            from + count == n,
            sum == temps_sum(temps@, from as int, i as int),
            -(i * 0x8000_0000) <= sum <= i * 0x8000_0000,
    {
        sum = sum + temps[from + i] as i128;
    }
    let wide: i128 = count as i128;
    assert(-(wide * 0x8000_0000) <= initial * wide <= wide * 0x8000_0000) by (nonlinear_arith)
        requires
            wide >= 0,
            -0x8000_0000 <= initial <= 0x8000_0000,
    ;
    let moved: i128 = sum - initial as i128 * wide;
    if -(50 * wide) < moved && moved < 50 * wide {
        return None;
    }
    Some(Settled { sum, count })
}

// ---- Laws ----

proof fn lemma_still_active(
    steps: Seq<StepView>,
    temps: Map<Seq<char>, i32>,
    window: int,
    s: StepView,
)
    requires
        still_active(steps, temps, window).contains(s),
    ensures
        exists|k: int|
            0 <= k < steps.len() && advanced(#[trigger] steps[k], temps) == s && s.tick < window,
    decreases steps.len(),
{
    let rest = still_active(steps.drop_last(), temps, window);
    let last = advanced(steps.last(), temps);
    let all = still_active(steps, temps, window);
    let i = choose|i: int| 0 <= i < all.len() && all[i] == s;
    if steps.len() > 0 {
        if last.tick < window && i == rest.len() {
            assert(steps[steps.len() - 1] == steps.last());
        } else {
            assert(rest[i] == s);
            lemma_still_active(steps.drop_last(), temps, window, s);
            let k = choose|k: int|
                0 <= k < steps.len() - 1 && advanced(#[trigger] steps.drop_last()[k], temps) == s
                    && s.tick < window;
            assert(steps[k] == steps.drop_last()[k]);
        }
    }
}

/// A step is recorded for as many ticks as the window has, and not longer: what
/// is still recorded is a tick further, and below the window.
pub proof fn law_recording_ends(
    steps: Seq<StepView>,
    temps: Map<Seq<char>, i32>,
    window: int,
    i: int,
)
    requires
        0 <= i < still_active(steps, temps, window).len(),
    ensures
        ({
            let s = still_active(steps, temps, window)[i];
            &&& s.tick < window
            &&& exists|k: int|
                0 <= k < steps.len() && advanced(#[trigger] steps[k], temps) == s
        }),
{
    let s = still_active(steps, temps, window)[i];
    assert(still_active(steps, temps, window).contains(s));
    lemma_still_active(steps, temps, window, s);
}

/// A fan has stepped exactly where its PWM value is known before and after and the two
/// are at least the threshold apart; the step is the new value less the old one.
pub proof fn law_jump(
    prev: Map<Seq<char>, u8>,
    curr: Map<Seq<char>, u8>,
    threshold: u8,
    fan: Seq<char>,
)
    ensures
        match jump(prev, curr, threshold, fan) {
            Some(d) => {
                &&& prev.contains_key(fan) && curr.contains_key(fan)
                &&& prev[fan] + d == curr[fan]
                &&& d >= threshold || d <= -threshold
            },
            None => prev.contains_key(fan) && curr.contains_key(fan) ==> -threshold < curr[fan]
                - prev[fan] < threshold,
        },
{
}

/// Of a fan that has stepped only the new step is recorded, from its first tick on,
/// with the temperatures of all the sensors that are known then; of any other fan what
/// was recorded before still is.
pub proof fn law_new_steps(
    steps: Seq<StepView>,
    prev: Map<Seq<char>, u8>,
    curr: NameMap<u8>,
    temps: NameMap<i32>,
    threshold: u8,
    fan: Seq<char>,
)
    ensures
        ({
            let mine = with_new_steps(
                steps,
                prev,
                curr,
                temps,
                threshold,
                curr.entries@.len() as int,
            ).filter(|s: StepView| s.fan == fan);
            match jump(prev, curr@, threshold, fan) {
                Some(d) => {
                    &&& mine.len() == 1
                    &&& mine[0].fan == fan
                    &&& mine[0].delta_pwm == d
                    &&& mine[0].tick == 0
                    &&& mine[0].initial == temps@
                    &&& mine[0].trajectories.len() == temps.entries@.len()
                    &&& forall|i: int|
                        0 <= i < temps.entries@.len() ==> {
                            let t = #[trigger] mine[0].trajectories[i];
                            let sensor = temps.entries@[i].0@;
                            t.sensor == sensor && t.temps == seq![temps@[sensor]]
                        }
                },
                None => mine == steps.filter(|s: StepView| s.fan == fan),
            }
        }),
{
    let n = curr.entries@.len() as int;
    lemma_new_steps(steps, prev, curr, temps, threshold, fan, |s: StepView| s.fan == fan, n);
    if jump(prev, curr@, threshold, fan) is Some {
        crate::names::lemma_entry_of(curr.entries@, 0, fan);
    }
}

proof fn lemma_new_steps(
    steps: Seq<StepView>,
    prev: Map<Seq<char>, u8>,
    curr: NameMap<u8>,
    temps: NameMap<i32>,
    threshold: u8,
    fan: Seq<char>,
    pred: spec_fn(StepView) -> bool,
    n: int,
)
    requires
        0 <= n <= curr.entries@.len(),
        forall|s: StepView| #[trigger] pred(s) == (s.fan == fan),
    ensures
        with_new_steps(steps, prev, curr, temps, threshold, n).filter(pred) == match jump(
            prev,
            curr@,
            threshold,
            fan,
        ) {
            Some(d) => if exists|k: int|
                0 <= k < n && (#[trigger] curr.entries@[k]).0@ == fan {
                seq![new_step(fan, d, temps)]
            } else {
                steps.filter(pred)
            },
            None => steps.filter(pred),
        },
    decreases n,
{
    if n > 0 {
        lemma_new_steps(steps, prev, curr, temps, threshold, fan, pred, n - 1);
        let before = with_new_steps(steps, prev, curr, temps, threshold, n - 1);
        let name = curr.entries@[n - 1].0@;
        if let Some(d) = jump(prev, curr@, threshold, name) {
            let s = new_step(name, d, temps);
            let kept = without_fan(before, name);
            lemma_other_steps(before, name, fan, pred);
            reveal(Seq::filter);
            assert(kept.push(s).drop_last() =~= kept);
            if name == fan {
                assert(Seq::<StepView>::empty().push(s) =~= seq![s]);
                assert(curr.entries@[n - 1].0@ == fan);
            }
        }
        if exists|k: int| 0 <= k < n && (#[trigger] curr.entries@[k]).0@ == fan {
            let k = choose|k: int| 0 <= k < n && (#[trigger] curr.entries@[k]).0@ == fan;
            if name != fan {
                assert(k < n - 1);
                assert(curr.entries@[k].0@ == fan);
            }
        }
    }
}

proof fn lemma_other_steps(
    steps: Seq<StepView>,
    name: Seq<char>,
    fan: Seq<char>,
    pred: spec_fn(StepView) -> bool,
)
    requires
        forall|s: StepView| #[trigger] pred(s) == (s.fan == fan),
    ensures
        without_fan(steps, name).filter(pred) == if name == fan {
            Seq::<StepView>::empty()
        } else {
            steps.filter(pred)
        },
    decreases steps.len(),
{
    reveal(Seq::filter);
    if steps.len() > 0 {
        let rest = steps.drop_last();
        lemma_other_steps(rest, name, fan, pred);
        if steps.last().fan != name {
            let kept = without_fan(rest, name);
            assert(kept.push(steps.last()).drop_last() =~= kept);
        }
    }
}

/// With each tick a step grows by what its sensors read then, at the end; a sensor that
/// is not read keeps what it has. Nothing else of it changes.
pub proof fn law_advanced(s: StepView, temps: Map<Seq<char>, i32>, i: int)
    requires
        0 <= i < s.trajectories.len(),
    ensures
        advanced(s, temps).tick == s.tick + 1,
        advanced(s, temps).fan == s.fan,
        advanced(s, temps).delta_pwm == s.delta_pwm,
        advanced(s, temps).initial == s.initial,
        advanced(s, temps).trajectories.len() == s.trajectories.len(),
        ({
            let (t, u) = (s.trajectories[i], advanced(s, temps).trajectories[i]);
            &&& u.sensor == t.sensor
            &&& temps.contains_key(t.sensor) ==> u.temps == t.temps + seq![temps[t.sensor]]
            &&& !temps.contains_key(t.sensor) ==> u.temps == t.temps
        }),
{
    let t = s.trajectories[i];
    if temps.contains_key(t.sensor) {
        assert(t.temps.push(temps[t.sensor]) =~= t.temps + seq![temps[t.sensor]]);
    }
}

/// The steps that have not reached the window with this tick go on, all of them; the
/// others leave their recordings, all of them, step by step.
pub proof fn law_steps_end(steps: Seq<StepView>, temps: Map<Seq<char>, i32>, window: int)
    ensures
        still_active(steps, temps, window) == steps.filter(
            |s: StepView| s.tick + 1 < window,
        ).map_values(|s: StepView| advanced(s, temps)),
        finished(steps, temps, window) == steps.filter(
            |s: StepView| s.tick + 1 >= window,
        ).fold_left(
            Seq::<RecordingView>::empty(),
            |r: Seq<RecordingView>, s: StepView|
                r + recordings_of(advanced(s, temps), s.trajectories.len() as int),
        ),
    decreases steps.len(),
{
    reveal(Seq::filter);
    let on = |s: StepView| s.tick + 1 < window;
    let off = |s: StepView| s.tick + 1 >= window;
    let next = |s: StepView| advanced(s, temps);
    let more = |r: Seq<RecordingView>, s: StepView|
        r + recordings_of(advanced(s, temps), s.trajectories.len() as int);
    if steps.len() > 0 {
        let rest = steps.drop_last();
        let last = steps.last();
        law_steps_end(rest, temps, window);
        if on(last) {
            assert(rest.filter(on).push(last).map_values(next) =~= rest.filter(on).map_values(
                next,
            ).push(next(last)));
        } else {
            let s = rest.filter(off);
            assert(s.push(last).drop_last() =~= s);
            assert(advanced(last, temps).trajectories.len() == last.trajectories.len());
        }
    }
    assert(still_active(steps, temps, window) =~= steps.filter(on).map_values(next));
    assert(finished(steps, temps, window) =~= steps.filter(off).fold_left(
        Seq::<RecordingView>::empty(),
        more,
    ));
}

/// A step that ends leaves a recording of each sensor that was read at least five
/// times, with all its readings, and where it started from.
pub proof fn law_recordings(s: StepView)
    ensures
        recordings_of(s, s.trajectories.len() as int) == s.trajectories.filter(
            |t: TrajectoryView| t.temps.len() >= 5,
        ).map_values(
            |t: TrajectoryView|
                RecordingView {
                    fan: s.fan,
                    sensor: t.sensor,
                    delta_pwm: s.delta_pwm,
                    initial: if s.initial.contains_key(t.sensor) {
                        s.initial[t.sensor]
                    } else {
                        t.temps[0]
                    },
                    temps: t.temps,
                },
        ),
{
    let n = s.trajectories.len() as int;
    assert(s.trajectories.take(n) =~= s.trajectories);
    lemma_recordings(s, n);
}

proof fn lemma_recordings(s: StepView, n: int)
    requires
        0 <= n <= s.trajectories.len(),
    ensures
        recordings_of(s, n) == s.trajectories.take(n).filter(
            |t: TrajectoryView| t.temps.len() >= 5,
        ).map_values(
            |t: TrajectoryView|
                RecordingView {
                    fan: s.fan,
                    sensor: t.sensor,
                    delta_pwm: s.delta_pwm,
                    initial: if s.initial.contains_key(t.sensor) {
                        s.initial[t.sensor]
                    } else {
                        t.temps[0]
                    },
                    temps: t.temps,
                },
        ),
    decreases n,
{
    reveal(Seq::filter);
    let long = |t: TrajectoryView| t.temps.len() >= 5;
    let told = |t: TrajectoryView|
        RecordingView {
            fan: s.fan,
            sensor: t.sensor,
            delta_pwm: s.delta_pwm,
            initial: if s.initial.contains_key(t.sensor) {
                s.initial[t.sensor]
            } else {
                t.temps[0]
            },
            temps: t.temps,
        };
    let all = s.trajectories.take(n);
    if n > 0 {
        lemma_recordings(s, n - 1);
        let rest = s.trajectories.take(n - 1);
        assert(all.drop_last() =~= rest);
        if long(all.last()) {
            assert(rest.filter(long).push(all.last()).map_values(told) =~= rest.filter(
                long,
            ).map_values(told).push(told(all.last())));
        }
    }
    assert(recordings_of(s, n) =~= all.filter(long).map_values(told));
}

/// A response settles at the mean of its last fifth, rounded up to whole readings.
/// There is one to fit exactly where there are five readings, the PWM value has
/// changed, and that mean is at least 0.05 degrees from where the response started.
pub proof fn law_settled(initial: i32, temps: Seq<i32>, delta_pwm: i32, count: int)
    requires
        temps.len() <= usize::MAX,
        temps.len() <= 5 * count < temps.len() + 5,
    ensures
        ({
            let n = temps.len() as int;
            let sum = temps.subrange(n - count, n).fold_left(0, |t: int, x: i32| t + x);
            match settled_of(initial, temps, delta_pwm) {
                Some(s) => {
                    &&& n >= 5 && delta_pwm != 0
                    &&& s.count == count
                    &&& s.sum == sum
                    &&& sum >= (initial + 50) * count || sum <= (initial - 50) * count
                },
                None => n < 5 || delta_pwm == 0 || ((initial - 50) * count < sum < (initial + 50)
                    * count),
            }
        }),
{
    let n = temps.len() as int;
    assert(tail_count(n) == count);
    lemma_temps_sum(temps, n - count, count);
    let sum = temps_sum(temps, n - count, count);
    assert((initial + 50) * count == initial * count + 50 * count) by (nonlinear_arith);
    assert((initial - 50) * count == initial * count - 50 * count) by (nonlinear_arith);
}

proof fn lemma_temps_sum(temps: Seq<i32>, from: int, n: int)
    requires
        0 <= from,
        0 <= n <= usize::MAX,
        from + n <= temps.len(),
    ensures
        temps_sum(temps, from, n) == temps.subrange(from, from + n).fold_left(
            0,
            |t: int, x: i32| t + x,
        ),
        -(n * 0x8000_0000) <= temps_sum(temps, from, n) <= n * 0x8000_0000,
    decreases n,
{
    let s = temps.subrange(from, from + n);
    if n > 0 {
        lemma_temps_sum(temps, from, n - 1);
        assert(s.drop_last() =~= temps.subrange(from, from + n - 1));
    }
}

/// Two steps with the same view agree in everything that is recorded of them, and so
/// do two recordings.
pub proof fn law_views_tell_apart(a: ActiveStep, b: ActiveStep, r: Recording, s: Recording)
    ensures
        a@ == b@ ==> {
            &&& a.fan@ == b.fan@
            &&& a.delta_pwm == b.delta_pwm
            &&& a.tick == b.tick
            &&& a.initial_temps@ == b.initial_temps@
            &&& a.trajectories@.len() == b.trajectories@.len()
            &&& forall|i: int|
                0 <= i < a.trajectories@.len() ==> {
                    &&& (#[trigger] a.trajectories@[i]).sensor@ == b.trajectories@[i].sensor@
                    &&& a.trajectories@[i].temps@ == b.trajectories@[i].temps@
                }
        },
        r@ == s@ ==> {
            &&& r.fan@ == s.fan@
            &&& r.sensor@ == s.sensor@
            &&& r.delta_pwm == s.delta_pwm
            &&& r.initial == s.initial
            &&& r.temps@ == s.temps@
        },
{
    if a@ == b@ {
        let (v, w) = (trajectory_views(a.trajectories@), trajectory_views(b.trajectories@));
        assert(v.len() == w.len());
        assert forall|i: int| 0 <= i < a.trajectories@.len() implies {
            &&& (#[trigger] a.trajectories@[i]).sensor@ == b.trajectories@[i].sensor@
            &&& a.trajectories@[i].temps@ == b.trajectories@[i].temps@
        } by {
            assert(v[i] == w[i]);
        }
    }
}

} // verus!
