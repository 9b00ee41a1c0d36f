//! What the daemon tells its clients.
use crate::scalar::Scalar;
use vstd::prelude::*;

verus! {

/// Where the daemon listens.
pub fn socket_path() -> (r: &'static str)
    ensures
        r@ == "/run/smartcool/sc.sock"@,
{
    "/run/smartcool/sc.sock"
}

/// What a client may ask for.
#[derive(Debug, Clone, Copy, PartialEq, Eq, Structural)]
pub enum Request {
    Status,
    Analytics,
    Tuning,
}

/// What a client is told.
#[derive(Debug, Clone)]
pub enum Response {
    Status(StatusResponse),
    Analytics(AnalyticsResponse),
    Tuning(TuningResponse),
    Error(String),
}

#[derive(Debug, Clone)]
pub struct StatusResponse {
    pub sensors: Vec<SensorStatus>,
    pub fans: Vec<FanStatus>,
}

#[derive(Debug, Clone)]
pub struct SensorStatus {
    pub name: String,
    pub temp_c: Scalar,
    pub dt_per_sec: Scalar,
}

#[derive(Debug, Clone)]
pub struct FanStatus {
    pub name: String,
    pub pwm: u8,
    pub rpm: u32,
    pub base_pwm: u8,
    pub boost_applied: i16,
}

#[derive(Debug, Clone)]
pub struct AnalyticsResponse {
    pub fans: Vec<FanAnalyticsReport>,
}

#[derive(Debug, Clone)]
pub struct FanAnalyticsReport {
    pub name: String,
    pub pwm: u8,
    pub rpm: u32,
    pub history_samples: usize,
    /// Per-sensor effectiveness: (sensor_name, degrees Celsius per +10 PWM)
    pub effectiveness: Vec<(String, Scalar)>,
}

#[derive(Debug, Clone)]
pub struct TuningResponse {
    pub coupling_matrix: Vec<CouplingEntry>,
    pub step_responses: Vec<StepResponseEntry>,
    pub cross_correlations: Vec<CorrelationEntry>,
    pub thermal_integrals: Vec<IntegralEntry>,
}

#[derive(Debug, Clone)]
pub struct CouplingEntry {
    pub fan: String,
    pub sensor: String,
    /// Degrees Celsius per +10 PWM
    pub beta: Scalar,
    pub r_squared: Scalar,
}

#[derive(Debug, Clone)]
pub struct StepResponseEntry {
    pub fan: String,
    pub sensor: String,
    /// Static gain: degrees Celsius per unit PWM
    pub gain_k: Scalar,
    /// Time constant in ticks (63% of response)
    pub tau_ticks: Scalar,
    pub n_events: usize,
}

#[derive(Debug, Clone)]
pub struct CorrelationEntry {
    pub fan: String,
    pub sensor: String,
    /// Peak normalized cross-correlation coefficient
    pub peak_ccf: Scalar,
    /// Lag in ticks at peak correlation
    pub optimal_lag: usize,
}

#[derive(Debug, Clone)]
pub struct IntegralEntry {
    pub sensor: String,
    /// Cumulative thermal energy (degrees Celsius times seconds above baseline)
    pub integral: Scalar,
    pub baseline: Scalar,
}

/// What the daemon knows at present.
#[derive(Debug)]
pub struct DaemonState {
    pub status: StatusResponse,
    pub analytics: AnalyticsResponse,
    pub tuning: TuningResponse,
}

/// The part of the daemon's state that answers a request.
#[derive(Debug)]
pub enum Reply<'a> {
    Status(&'a StatusResponse),
    Analytics(&'a AnalyticsResponse),
    Tuning(&'a TuningResponse),
}

impl DaemonState {
    /// Nothing known yet.
    pub fn new() -> (r: Self)
        ensures
            r.status.sensors@.len() == 0,
            r.status.fans@.len() == 0,
            r.analytics.fans@.len() == 0,
            r.tuning.coupling_matrix@.len() == 0,
            r.tuning.step_responses@.len() == 0,
            r.tuning.cross_correlations@.len() == 0,
            r.tuning.thermal_integrals@.len() == 0,
    {
        DaemonState {
            status: StatusResponse { sensors: Vec::new(), fans: Vec::new() },
            analytics: AnalyticsResponse { fans: Vec::new() },
            tuning: TuningResponse {
                coupling_matrix: Vec::new(),
                step_responses: Vec::new(),
                cross_correlations: Vec::new(),
                thermal_integrals: Vec::new(),
            },
        }
    }

    /// The answer to a request.
    pub fn reply(&self, request: Request) -> (r: Reply<'_>)
        ensures
            match request {
                Request::Status => r == Reply::Status(&self.status),
                Request::Analytics => r == Reply::Analytics(&self.analytics),
                Request::Tuning => r == Reply::Tuning(&self.tuning),
            },
    {
        match request {
            Request::Status => Reply::Status(&self.status),
            Request::Analytics => Reply::Analytics(&self.analytics),
            Request::Tuning => Reply::Tuning(&self.tuning),
        }
    }
}

/// A message as it goes over the socket: one line.
pub fn framed(message: &str) -> (r: String)
    ensures
        r@ == message@.push('\n'),
{
    let mut r = message.to_owned();
    r.push('\n');
    r
}

} // verus!
