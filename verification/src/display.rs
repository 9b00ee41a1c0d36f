//! The tables that clients print.
use crate::ipc::{AnalyticsResponse, CorrelationEntry, CouplingEntry, FanAnalyticsReport};
use crate::ipc::{FanStatus, IntegralEntry, Response, SensorStatus, StatusResponse};
use crate::ipc::{StepResponseEntry, TuningResponse};
use crate::scalar::Scalar;
use crate::text;
use vstd::prelude::*;

verus! {

/// A piece of a line: a text, or a number that is written right-aligned in at
/// least `width` places with the given number of decimals, and with its sign even
/// where it is positive if `plus` says so.
#[derive(Debug)]
pub enum Cell {
    Text(String),
    Number { value: Scalar, width: usize, decimals: usize, plus: bool },
}

/// What is printed: lines on the standard output, or a complaint on the standard
/// error.
#[derive(Debug)]
pub enum Printed {
    Table(Vec<Vec<Cell>>),
    Complaint(String),
}

/// A piece of a line by its text.
pub ghost enum CellView {
    Text(Seq<char>),
    Number { value: Scalar, width: usize, decimals: usize, plus: bool },
}

impl View for Cell {
    type V = CellView;

    open spec fn view(&self) -> CellView {
        match *self {
            Cell::Text(s) => CellView::Text(s@),
            Cell::Number { value, width, decimals, plus } => CellView::Number {
                value,
                width,
                decimals,
                plus,
            },
        }
    }
}

pub open spec fn cell_views(s: Seq<Cell>) -> Seq<CellView> {
    s.map_values(|c: Cell| c@)
}

pub open spec fn line_views(s: Seq<Vec<Cell>>) -> Seq<Seq<CellView>> {
    s.map_values(|l: Vec<Cell>| cell_views(l@))
}

/// A line that is one text.
pub open spec fn plain(s: Seq<char>) -> Seq<CellView> {
    seq![CellView::Text(s)]
}

/// Whether `p` is the table with the lines.
pub open spec fn is_table(p: Printed, lines: Seq<Seq<CellView>>) -> bool {
    p matches Printed::Table(t) && line_views(t@) == lines
}

/// Whether `p` is the complaint.
pub open spec fn is_complaint(p: Printed, s: Seq<char>) -> bool {
    p matches Printed::Complaint(m) && m@ == s
}

/// Whether `p` complains about a response that is not the one asked for.
pub open spec fn complains(p: Printed, response: Response) -> bool {
    match response {
        Response::Error(m) => is_complaint(p, "Error: "@ + m@),
        _ => is_complaint(p, "Unexpected response type"@),
    }
}

fn complain(response: &Response) -> (r: Printed)
    ensures
        complains(r, *response),
{
    match response {
        Response::Error(m) => Printed::Complaint("Error: ".to_owned().concat(m.as_str())),
        _ => Printed::Complaint("Unexpected response type".to_owned()),
    }
}

fn add_text(cells: &mut Vec<Cell>, s: String)
    ensures
        cell_views(final(cells)@) == cell_views(old(cells)@).push(CellView::Text(s@)),
{
    cells.push(Cell::Text(s));
    assert(cell_views(cells@) =~= cell_views(old(cells)@).push(CellView::Text(s@)));
}

fn add_number(cells: &mut Vec<Cell>, value: Scalar, width: usize, decimals: usize, plus: bool)
    ensures
        cell_views(final(cells)@) == cell_views(old(cells)@).push(
            CellView::Number { value, width, decimals, plus },
        ),
{
    cells.push(Cell::Number { value, width, decimals, plus });
    assert(cell_views(cells@) =~= cell_views(old(cells)@).push(
        CellView::Number { value, width, decimals, plus },
    ));
}

fn add_line(lines: &mut Vec<Vec<Cell>>, cells: Vec<Cell>)
    ensures
        line_views(final(lines)@) == line_views(old(lines)@).push(cell_views(cells@)),
{
    lines.push(cells);
    assert(line_views(lines@) =~= line_views(old(lines)@).push(cell_views(cells@)));
}

fn add_plain(lines: &mut Vec<Vec<Cell>>, s: &str)
    ensures
        line_views(final(lines)@) == line_views(old(lines)@).push(plain(s@)),
{
    let mut cells: Vec<Cell> = Vec::new();
    add_text(&mut cells, s.to_owned());
    assert(cell_views(cells@) =~= plain(s@));
    add_line(lines, cells);
}

fn no_cells() -> (r: Vec<Cell>)
    ensures
        cell_views(r@) == Seq::<CellView>::empty(),
{
    let r: Vec<Cell> = Vec::new();
    assert(cell_views(r@) =~= Seq::<CellView>::empty());
    r
}

fn no_lines() -> (r: Vec<Vec<Cell>>)
    ensures
        line_views(r@) == Seq::<Seq<CellView>>::empty(),
{
    let r: Vec<Vec<Cell>> = Vec::new();
    assert(line_views(r@) =~= Seq::<Seq<CellView>>::empty());
    r
}

// ---- Status ----

/// The number with its sign, even where it is positive.
pub open spec fn with_sign(n: i16) -> Seq<char> {
    if n >= 0 {
        "+"@ + text::decimal(n as nat)
    } else {
        text::signed_decimal(n as int)
    }
}

fn signed_text(n: i16) -> (r: String)
    ensures
        r@ == with_sign(n),
{
    if n >= 0 {
        "+".to_owned().concat(text::decimal_of(n as u64).as_str())
    } else {
        text::signed_decimal_of(n as i32)
    }
}

pub open spec fn sensor_row(s: SensorStatus) -> Seq<CellView> {
    seq![
        CellView::Text("  "@ + text::padded_right(s.name@, 15) + " "@),
        CellView::Number { value: s.temp_c, width: 8, decimals: 1, plus: false },
        CellView::Text(" "@),
        CellView::Number { value: s.dt_per_sec, width: 10, decimals: 2, plus: true },
    ]
}

pub open spec fn fan_row(f: FanStatus) -> Seq<CellView> {
    plain(
        "  "@ + text::padded_right(f.name@, 15) + " "@ + text::padded_left(
            text::decimal(f.pwm as nat),
            5,
        ) + " "@ + text::padded_left(text::decimal(f.rpm as nat), 6) + " "@ + text::padded_left(
            text::decimal(f.base_pwm as nat),
            8,
        ) + " "@ + text::padded_left(with_sign(f.boost_applied), 7),
    )
}

/// The lines that show the state of sensors and fans.
pub open spec fn status_table(s: StatusResponse) -> Seq<Seq<CellView>> {
    seq![
        plain("Sensors:"@),
        plain("  Name            Temp (C) dT/dt (C/s)"@),
        plain("  -----------------------------------"@),
    ] + s.sensors@.map_values(|x: SensorStatus| sensor_row(x)) + seq![
        plain(""@),
        plain("Fans:"@),
        plain("  Name              PWM    RPM Base PWM   Boost"@),
        plain("  ---------------------------------------------"@),
    ] + s.fans@.map_values(|x: FanStatus| fan_row(x))
}

fn show_sensor(s: &SensorStatus) -> (r: Vec<Cell>)
    ensures
        cell_views(r@) == sensor_row(*s),
{
    let mut cells = no_cells();
    add_text(
        &mut cells,
        text::around("  ", text::pad_right(s.name.as_str(), 15).as_str(), " "),
    );
    add_number(&mut cells, s.temp_c, 8, 1, false);
    add_text(&mut cells, " ".to_owned());
    add_number(&mut cells, s.dt_per_sec, 10, 2, true);
    assert(cell_views(cells@) =~= sensor_row(*s));
    cells
}

fn show_fan(f: &FanStatus) -> (r: Vec<Cell>)
    ensures
        cell_views(r@) == fan_row(*f),
{
    let mut cells = no_cells();
    add_text(
        &mut cells,
        text::around("  ", text::pad_right(f.name.as_str(), 15).as_str(), " ").concat(
            text::pad_left(text::decimal_of(f.pwm as u64).as_str(), 5).as_str(),
        ).concat(" ").concat(
            text::pad_left(text::decimal_of(f.rpm as u64).as_str(), 6).as_str(),
        ).concat(" ").concat(
            text::pad_left(text::decimal_of(f.base_pwm as u64).as_str(), 8).as_str(),
        ).concat(" ").concat(
            text::pad_left(signed_text(f.boost_applied).as_str(), 7).as_str(),
        ),
    );
    assert(cell_views(cells@) =~= fan_row(*f));
    cells
}

/// The state of sensors and fans.
pub fn print_status(response: &Response) -> (r: Printed)
    ensures
        match *response {
            Response::Status(s) => is_table(r, status_table(s)),
            _ => complains(r, *response),
        },
{
    match response {
        Response::Status(status) => {
            let mut lines = no_lines();
            add_plain(&mut lines, "Sensors:");
            add_plain(&mut lines, "  Name            Temp (C) dT/dt (C/s)");
            add_plain(&mut lines, "  -----------------------------------");
            let ghost head = line_views(lines@);
            let ghost rows = status.sensors@.map_values(|x: SensorStatus| sensor_row(x));
            assert(head =~= head + rows.take(0));
            for i in 0..status.sensors.len()
                invariant
                    rows == status.sensors@.map_values(|x: SensorStatus| sensor_row(x)),
                    line_views(lines@) == head + rows.take(i as int),
            {
                add_line(&mut lines, show_sensor(&status.sensors[i]));
                assert(line_views(lines@) =~= head + rows.take(i + 1));
            }
            assert(rows.take(rows.len() as int) =~= rows);
            add_plain(&mut lines, "");
            add_plain(&mut lines, "Fans:");
            add_plain(&mut lines, "  Name              PWM    RPM Base PWM   Boost");
            add_plain(&mut lines, "  ---------------------------------------------");
            let ghost middle = line_views(lines@);
            let ghost fans = status.fans@.map_values(|x: FanStatus| fan_row(x));
            assert(middle =~= middle + fans.take(0));
            for i in 0..status.fans.len()
                invariant
                    fans == status.fans@.map_values(|x: FanStatus| fan_row(x)),
                    line_views(lines@) == middle + fans.take(i as int),
            {
                add_line(&mut lines, show_fan(&status.fans[i]));
                assert(line_views(lines@) =~= middle + fans.take(i + 1));
            }
            assert(fans.take(fans.len() as int) =~= fans);
            assert(line_views(lines@) =~= status_table(*status));
            Printed::Table(lines)
        },
        _ => complain(response),
    }
}

// ---- Names, each once ----

/// The names with one more, where it is not among them.
pub open spec fn with_name(names: Seq<Seq<char>>, name: Seq<char>) -> Seq<Seq<char>> {
    if names.contains(name) {
        names
    } else {
        names.push(name)
    }
}

fn add_name(names: &mut Vec<String>, name: &str)
    ensures
        text::views(final(names)@) == with_name(text::views(old(names)@), name@),
{
    if !text::is_one_of(names, name) {
        names.push(name.to_owned());
        assert(text::views(names@) =~= text::views(old(names)@).push(name@));
    }
}

/// The names behind one another, each right-aligned behind a blank.
pub open spec fn name_columns(names: Seq<Seq<char>>, width: int, n: int) -> Seq<char>
    decreases n,
{
    if n <= 0 {
        Seq::empty()
    } else {
        name_columns(names, width, n - 1) + " "@ + text::padded_left(names[n - 1], width)
    }
}

/// `n` times the dashes, each behind a blank.
pub open spec fn dash_columns(dashes: Seq<char>, n: int) -> Seq<char>
    decreases n,
{
    if n <= 0 {
        Seq::empty()
    } else {
        dash_columns(dashes, n - 1) + " "@ + dashes
    }
}

fn column_heads(names: &Vec<String>, width: usize) -> (r: String)
    ensures
        r@ == name_columns(text::views(names@), width as int, names@.len() as int),
{
    let mut r = String::new();
    let ghost all = text::views(names@);
    assert(r@ =~= name_columns(all, width as int, 0));
    for i in 0..names.len()
        invariant
            all == text::views(names@),
            r@ == name_columns(all, width as int, i as int),
    {
        r = r.concat(" ").concat(text::pad_left(names[i].as_str(), width).as_str());
    }
    r
}

fn column_dashes(dashes: &str, n: usize) -> (r: String)
    ensures
        r@ == dash_columns(dashes@, n as int),
{
    let mut r = String::new();
    assert(r@ =~= dash_columns(dashes@, 0));
    for i in 0..n
        invariant
            r@ == dash_columns(dashes@, i as int),
    {
        r = r.concat(" ").concat(dashes);
    }
    r
}

/// A number in a column, or a dash where there is none.
pub open spec fn column(value: Option<Scalar>, width: usize) -> Seq<CellView> {
    match value {
        Some(v) => seq![
            CellView::Text(" "@),
            CellView::Number { value: v, width, decimals: 2, plus: true },
        ],
        None => seq![CellView::Text(" "@ + text::padded_left("-"@, width as int))],
    }
}

fn add_column(cells: &mut Vec<Cell>, value: Option<Scalar>, width: usize)
    ensures
        cell_views(final(cells)@) == cell_views(old(cells)@) + column(value, width),
{
    match value {
        Some(v) => {
            add_text(cells, " ".to_owned());
            add_number(cells, v, width, 2, true);
        },
        None => {
            add_text(cells, " ".to_owned().concat(text::pad_left("-", width).as_str()));
        },
    }
    assert(cell_views(cells@) =~= cell_views(old(cells)@) + column(value, width));
}

// ---- Analytics ----

/// The sensors that the first `n` estimates of a fan are for, added to `names`.
pub open spec fn estimated_sensors(
    names: Seq<Seq<char>>,
    e: Seq<(String, Scalar)>,
    n: int,
) -> Seq<Seq<char>>
    decreases n,
{
    if n <= 0 {
        names
    } else {
        with_name(estimated_sensors(names, e, n - 1), e[n - 1].0@)
    }
}

/// The sensors that the estimates of the first `n` fans are for, each once.
pub open spec fn all_sensors(fans: Seq<FanAnalyticsReport>, n: int) -> Seq<Seq<char>>
    decreases n,
{
    if n <= 0 {
        Seq::empty()
    } else {
        estimated_sensors(
            all_sensors(fans, n - 1),
            fans[n - 1].effectiveness@,
            fans[n - 1].effectiveness@.len() as int,
        )
    }
}

/// The first estimate for the sensor from the `i`-th on.
pub open spec fn estimate_for(
    e: Seq<(String, Scalar)>,
    sensor: Seq<char>,
    i: int,
) -> Option<Scalar>
    decreases e.len() - i,
{
    if i >= e.len() {
        None
    } else if e[i].0@ == sensor {
        Some(e[i].1)
    } else {
        estimate_for(e, sensor, i + 1)
    }
}

/// The estimates of a fan for the first `n` sensors, column by column.
pub open spec fn estimate_columns(
    e: Seq<(String, Scalar)>,
    sensors: Seq<Seq<char>>,
    n: int,
) -> Seq<CellView>
    decreases n,
{
    if n <= 0 {
        Seq::empty()
    } else {
        estimate_columns(e, sensors, n - 1) + column(estimate_for(e, sensors[n - 1], 0), 10)
    }
}

pub open spec fn analytics_row(f: FanAnalyticsReport, sensors: Seq<Seq<char>>) -> Seq<CellView> {
    plain(
        "  "@ + text::padded_right(f.name@, 15) + " "@ + text::padded_left(
            text::decimal(f.pwm as nat),
            5,
        ) + " "@ + text::padded_left(text::decimal(f.rpm as nat), 6) + " "@ + text::padded_left(
            text::decimal(f.history_samples as nat),
            8,
        ),
    ) + estimate_columns(f.effectiveness@, sensors, sensors.len() as int)
}

/// The lines that show how well the fans cool.
pub open spec fn analytics_table(a: AnalyticsResponse) -> Seq<Seq<CellView>> {
    let sensors = all_sensors(a.fans@, a.fans@.len() as int);
    let n = sensors.len() as int;
    if a.fans@.len() == 0 {
        seq![plain("No analytics data yet (need more samples)"@)]
    } else {
        seq![
            plain(
                "  Fan               PWM    RPM  Samples"@ + name_columns(sensors, 10, n),
            ),
            plain("  ------------------------------------"@ + dash_columns("----------"@, n)),
        ] + a.fans@.map_values(|f: FanAnalyticsReport| analytics_row(f, sensors)) + seq![
            plain(""@),
            plain("  Effectiveness: C change per +10 PWM (negative = cooling)"@),
        ]
    }
}

fn find_estimate(e: &Vec<(String, Scalar)>, sensor: &str) -> (r: Option<Scalar>)
    ensures
        r == estimate_for(e@, sensor@, 0),
{
    for i in 0..e.len()
        invariant
            estimate_for(e@, sensor@, 0) == estimate_for(e@, sensor@, i as int),
    {
        if text::same(e[i].0.as_str(), sensor) {
            return Some(e[i].1);
        }
    }
    None
}

fn show_analytics(f: &FanAnalyticsReport, sensors: &Vec<String>) -> (r: Vec<Cell>)
    ensures
        cell_views(r@) == analytics_row(*f, text::views(sensors@)),
{
    let mut cells = no_cells();
    add_text(
        &mut cells,
        text::around("  ", text::pad_right(f.name.as_str(), 15).as_str(), " ").concat(
            text::pad_left(text::decimal_of(f.pwm as u64).as_str(), 5).as_str(),
        ).concat(" ").concat(
            text::pad_left(text::decimal_of(f.rpm as u64).as_str(), 6).as_str(),
        ).concat(" ").concat(
            text::pad_left(text::decimal_of(f.history_samples as u64).as_str(), 8).as_str(),
        ),
    );
    let ghost all = text::views(sensors@);
    let ghost head = cell_views(cells@);
    assert(head =~= head + estimate_columns(f.effectiveness@, all, 0));
    for i in 0..sensors.len()
        invariant
            all == text::views(sensors@),
            cell_views(cells@) == head + estimate_columns(f.effectiveness@, all, i as int),
    {
        let value = find_estimate(&f.effectiveness, sensors[i].as_str());
        add_column(&mut cells, value, 10);
        assert(cell_views(cells@) =~= head + estimate_columns(f.effectiveness@, all, i + 1));
    }
    assert(cell_views(cells@) =~= analytics_row(*f, all));
    cells
}

fn collect_sensors(fans: &Vec<FanAnalyticsReport>) -> (r: Vec<String>)
    ensures
        text::views(r@) == all_sensors(fans@, fans@.len() as int),
{
    let mut names: Vec<String> = Vec::new();
    assert(text::views(names@) =~= all_sensors(fans@, 0));
    for i in 0..fans.len()
        invariant
            text::views(names@) == all_sensors(fans@, i as int),
    {
        let e = &fans[i].effectiveness;
        let ghost start = text::views(names@);
        for k in 0..e.len()
            invariant
                text::views(names@) == estimated_sensors(start, e@, k as int),
        {
            add_name(&mut names, e[k].0.as_str());
        }
    }
    names
}

/// How well the fans cool.
pub fn print_analytics(response: &Response) -> (r: Printed)
    ensures
        match *response {
            Response::Analytics(a) => is_table(r, analytics_table(a)),
            _ => complains(r, *response),
        },
{
    match response {
        Response::Analytics(analytics) => {
            let mut lines = no_lines();
            if analytics.fans.len() == 0 {
                add_plain(&mut lines, "No analytics data yet (need more samples)");
                assert(line_views(lines@) =~= analytics_table(*analytics));
                return Printed::Table(lines);
            }
            let sensors = collect_sensors(&analytics.fans);
            let ghost names = text::views(sensors@);
            assert(names.len() == sensors@.len());
            add_plain(
                &mut lines,
                "  Fan               PWM    RPM  Samples".to_owned().concat(
                    column_heads(&sensors, 10).as_str(),
                ).as_str(),
            );
            add_plain(
                &mut lines,
                "  ------------------------------------".to_owned().concat(
                    column_dashes("----------", sensors.len()).as_str(),
                ).as_str(),
            );
            let ghost head = line_views(lines@);
            let ghost rows = analytics.fans@.map_values(
                |f: FanAnalyticsReport| analytics_row(f, names),
            );
            assert(head =~= head + rows.take(0));
            for i in 0..analytics.fans.len()
                invariant
                    names == text::views(sensors@),
                    rows == analytics.fans@.map_values(
                        |f: FanAnalyticsReport| analytics_row(f, names),
                    ),
                    line_views(lines@) == head + rows.take(i as int),
            {
                add_line(&mut lines, show_analytics(&analytics.fans[i], &sensors));
                assert(line_views(lines@) =~= head + rows.take(i + 1));
            }
            assert(rows.take(rows.len() as int) =~= rows);
            add_plain(&mut lines, "");
            add_plain(&mut lines, "  Effectiveness: C change per +10 PWM (negative = cooling)");
            assert(line_views(lines@) =~= analytics_table(*analytics));
            Printed::Table(lines)
        },
        _ => complain(response),
    }
}

// ---- Tuning ----

/// The fans of the first `n` entries, each once.
pub open spec fn entry_fans(m: Seq<CouplingEntry>, n: int) -> Seq<Seq<char>>
    decreases n,
{
    if n <= 0 {
        Seq::empty()
    } else {
        with_name(entry_fans(m, n - 1), m[n - 1].fan@)
    }
}

/// The sensors of the first `n` entries, each once.
pub open spec fn entry_sensors(m: Seq<CouplingEntry>, n: int) -> Seq<Seq<char>>
    decreases n,
{
    if n <= 0 {
        Seq::empty()
    } else {
        with_name(entry_sensors(m, n - 1), m[n - 1].sensor@)
    }
}

/// The first coefficient for fan and sensor from the `i`-th entry on.
pub open spec fn beta_for(
    m: Seq<CouplingEntry>,
    fan: Seq<char>,
    sensor: Seq<char>,
    i: int,
) -> Option<Scalar>
    decreases m.len() - i,
{
    if i >= m.len() {
        None
    } else if m[i].fan@ == fan && m[i].sensor@ == sensor {
        Some(m[i].beta)
    } else {
        beta_for(m, fan, sensor, i + 1)
    }
}

/// The coefficients of a sensor for the first `n` fans, column by column.
pub open spec fn beta_columns(
    m: Seq<CouplingEntry>,
    fans: Seq<Seq<char>>,
    sensor: Seq<char>,
    n: int,
) -> Seq<CellView>
    decreases n,
{
    if n <= 0 {
        Seq::empty()
    } else {
        beta_columns(m, fans, sensor, n - 1) + column(beta_for(m, fans[n - 1], sensor, 0), 12)
    }
}

pub open spec fn beta_row(
    m: Seq<CouplingEntry>,
    fans: Seq<Seq<char>>,
    sensor: Seq<char>,
) -> Seq<CellView> {
    plain("  "@ + text::padded_right(sensor, 15)) + beta_columns(
        m,
        fans,
        sensor,
        fans.len() as int,
    )
}

/// The lines that show the coupling matrix.
pub open spec fn coupling_table(m: Seq<CouplingEntry>) -> Seq<Seq<CellView>> {
    let fans = entry_fans(m, m.len() as int);
    let sensors = entry_sensors(m, m.len() as int);
    if m.len() == 0 {
        seq![plain("Coupling matrix: not enough data yet"@)]
    } else {
        seq![
            plain("Coupling Matrix (C per +10 PWM, via multivariate OLS):"@),
            plain("  Sensor         "@ + name_columns(fans, 12, fans.len() as int)),
            plain("  ---------------"@ + dash_columns("------------"@, fans.len() as int)),
        ] + sensors.map_values(|s: Seq<char>| beta_row(m, fans, s))
    }
}

fn find_beta(m: &Vec<CouplingEntry>, fan: &str, sensor: &str) -> (r: Option<Scalar>)
    ensures
        r == beta_for(m@, fan@, sensor@, 0),
{
    for i in 0..m.len()
        invariant
            beta_for(m@, fan@, sensor@, 0) == beta_for(m@, fan@, sensor@, i as int),
    {
        if text::same(m[i].fan.as_str(), fan) && text::same(m[i].sensor.as_str(), sensor) {
            return Some(m[i].beta);
        }
    }
    None
}

fn show_betas(m: &Vec<CouplingEntry>, fans: &Vec<String>, sensor: &str) -> (r: Vec<Cell>)
    ensures
        cell_views(r@) == beta_row(m@, text::views(fans@), sensor@),
{
    let mut cells = no_cells();
    add_text(
        &mut cells,
        "  ".to_owned().concat(text::pad_right(sensor, 15).as_str()),
    );
    let ghost all = text::views(fans@);
    let ghost head = cell_views(cells@);
    assert(head =~= head + beta_columns(m@, all, sensor@, 0));
    for i in 0..fans.len()
        invariant
            all == text::views(fans@),
            cell_views(cells@) == head + beta_columns(m@, all, sensor@, i as int),
    {
        let value = find_beta(m, fans[i].as_str(), sensor);
        add_column(&mut cells, value, 12);
        assert(cell_views(cells@) =~= head + beta_columns(m@, all, sensor@, i + 1));
    }
    assert(cell_views(cells@) =~= beta_row(m@, all, sensor@));
    cells
}

fn show_coupling(m: &Vec<CouplingEntry>, lines: &mut Vec<Vec<Cell>>)
    ensures
        line_views(final(lines)@) == line_views(old(lines)@) + coupling_table(m@),
{
    let ghost start = line_views(lines@);
    if m.len() == 0 {
        add_plain(lines, "Coupling matrix: not enough data yet");
        assert(line_views(lines@) =~= start + coupling_table(m@));
        return ;
    }
    let mut fans: Vec<String> = Vec::new();
    let mut sensors: Vec<String> = Vec::new();
    assert(text::views(fans@) =~= entry_fans(m@, 0));
    assert(text::views(sensors@) =~= entry_sensors(m@, 0));
    for i in 0..m.len()
        invariant
            text::views(fans@) == entry_fans(m@, i as int),
            text::views(sensors@) == entry_sensors(m@, i as int),
    {
        add_name(&mut fans, m[i].fan.as_str());
        add_name(&mut sensors, m[i].sensor.as_str());
    }
    let ghost fan_names = text::views(fans@);
    let ghost sensor_names = text::views(sensors@);
    assert(fan_names.len() == fans@.len());
    add_plain(lines, "Coupling Matrix (C per +10 PWM, via multivariate OLS):");
    add_plain(
        lines,
        "  Sensor         ".to_owned().concat(column_heads(&fans, 12).as_str()).as_str(),
    );
    add_plain(
        lines,
        "  ---------------".to_owned().concat(
            column_dashes("------------", fans.len()).as_str(),
        ).as_str(),
    );
    let ghost head = line_views(lines@);
    let ghost rows = sensor_names.map_values(|s: Seq<char>| beta_row(m@, fan_names, s));
    assert(head =~= head + rows.take(0));
    for i in 0..sensors.len()
        invariant
            fan_names == text::views(fans@),
            sensor_names == text::views(sensors@),
            rows == sensor_names.map_values(|s: Seq<char>| beta_row(m@, fan_names, s)),
            line_views(lines@) == head + rows.take(i as int),
    {
        add_line(lines, show_betas(m, &fans, sensors[i].as_str()));
        assert(line_views(lines@) =~= head + rows.take(i + 1));
    }
    assert(rows.take(rows.len() as int) =~= rows);
    assert(line_views(lines@) =~= start + coupling_table(m@));
}

/// `"<fan>-><sensor>"`, left-aligned.
pub open spec fn pair_column(fan: Seq<char>, sensor: Seq<char>) -> Seq<char> {
    "  "@ + text::padded_right(fan + "->"@ + sensor, 20) + " "@
}

fn pair_text(fan: &str, sensor: &str) -> (r: String)
    ensures
        r@ == pair_column(fan@, sensor@),
{
    text::around(
        "  ",
        text::pad_right(text::around(fan, "->", sensor).as_str(), 20).as_str(),
        " ",
    )
}

pub open spec fn step_row(s: StepResponseEntry) -> Seq<CellView> {
    seq![
        CellView::Text(pair_column(s.fan@, s.sensor@)),
        CellView::Number { value: s.gain_k, width: 10, decimals: 3, plus: true },
        CellView::Text(" "@),
        CellView::Number { value: s.tau_ticks, width: 12, decimals: 1, plus: false },
        CellView::Text(" "@ + text::padded_left(text::decimal(s.n_events as nat), 8)),
    ]
}

/// The lines that show the step responses.
pub open spec fn step_table(s: Seq<StepResponseEntry>) -> Seq<Seq<CellView>> {
    if s.len() == 0 {
        seq![plain("Step responses: no step events detected yet"@)]
    } else {
        seq![
            plain("Step Response (first-order exponential fit):"@),
            plain("  Fan -> Sensor            Gain K  tau (ticks)   Events"@),
            plain("  ----------------------------------------------------"@),
        ] + s.map_values(|e: StepResponseEntry| step_row(e))
    }
}

fn show_step(s: &StepResponseEntry) -> (r: Vec<Cell>)
    ensures
        cell_views(r@) == step_row(*s),
{
    let mut cells = no_cells();
    add_text(&mut cells, pair_text(s.fan.as_str(), s.sensor.as_str()));
    add_number(&mut cells, s.gain_k, 10, 3, true);
    add_text(&mut cells, " ".to_owned());
    add_number(&mut cells, s.tau_ticks, 12, 1, false);
    add_text(
        &mut cells,
        " ".to_owned().concat(
            text::pad_left(text::decimal_of(s.n_events as u64).as_str(), 8).as_str(),
        ),
    );
    assert(cell_views(cells@) =~= step_row(*s));
    cells
}

fn show_steps(s: &Vec<StepResponseEntry>, lines: &mut Vec<Vec<Cell>>)
    ensures
        line_views(final(lines)@) == line_views(old(lines)@) + step_table(s@),
{
    let ghost start = line_views(lines@);
    if s.len() == 0 {
        add_plain(lines, "Step responses: no step events detected yet");
    } else {
        add_plain(lines, "Step Response (first-order exponential fit):");
        add_plain(lines, "  Fan -> Sensor            Gain K  tau (ticks)   Events");
        add_plain(lines, "  ----------------------------------------------------");
        let ghost head = line_views(lines@);
        let ghost rows = s@.map_values(|e: StepResponseEntry| step_row(e));
        assert(head =~= head + rows.take(0));
        for i in 0..s.len()
            invariant
                rows == s@.map_values(|e: StepResponseEntry| step_row(e)),
                line_views(lines@) == head + rows.take(i as int),
        {
            add_line(lines, show_step(&s[i]));
            assert(line_views(lines@) =~= head + rows.take(i + 1));
        }
        assert(rows.take(rows.len() as int) =~= rows);
    }
    assert(line_views(lines@) =~= start + step_table(s@));
}

pub open spec fn correlation_row(c: CorrelationEntry) -> Seq<CellView> {
    seq![
        CellView::Text(pair_column(c.fan@, c.sensor@)),
        CellView::Number { value: c.peak_ccf.absolute(), width: 10, decimals: 3, plus: false },
        CellView::Text(" "@ + text::padded_left(text::decimal(c.optimal_lag as nat), 12)),
    ]
}

/// The lines that show the correlations.
pub open spec fn correlation_table(s: Seq<CorrelationEntry>) -> Seq<Seq<CellView>> {
    if s.len() == 0 {
        seq![plain("Cross-correlations: not enough data yet"@)]
    } else {
        seq![
            plain("Cross-Correlation (peak CCF, optimal lag):"@),
            plain("  Fan -> Sensor             |CCF|  Lag (ticks)"@),
            plain("  --------------------------------------------"@),
        ] + s.map_values(|e: CorrelationEntry| correlation_row(e))
    }
}

fn show_correlation(c: &CorrelationEntry) -> (r: Vec<Cell>)
    ensures
        cell_views(r@) == correlation_row(*c),
{
    let mut cells = no_cells();
    add_text(&mut cells, pair_text(c.fan.as_str(), c.sensor.as_str()));
    add_number(&mut cells, c.peak_ccf.abs(), 10, 3, false);
    add_text(
        &mut cells,
        " ".to_owned().concat(
            text::pad_left(text::decimal_of(c.optimal_lag as u64).as_str(), 12).as_str(),
        ),
    );
    assert(cell_views(cells@) =~= correlation_row(*c));
    cells
}

fn show_correlations(s: &Vec<CorrelationEntry>, lines: &mut Vec<Vec<Cell>>)
    ensures
        line_views(final(lines)@) == line_views(old(lines)@) + correlation_table(s@),
{
    let ghost start = line_views(lines@);
    if s.len() == 0 {
        add_plain(lines, "Cross-correlations: not enough data yet");
    } else {
        add_plain(lines, "Cross-Correlation (peak CCF, optimal lag):");
        add_plain(lines, "  Fan -> Sensor             |CCF|  Lag (ticks)");
        add_plain(lines, "  --------------------------------------------");
        let ghost head = line_views(lines@);
        let ghost rows = s@.map_values(|e: CorrelationEntry| correlation_row(e));
        assert(head =~= head + rows.take(0));
        for i in 0..s.len()
            invariant
                rows == s@.map_values(|e: CorrelationEntry| correlation_row(e)),
                line_views(lines@) == head + rows.take(i as int),
        {
            add_line(lines, show_correlation(&s[i]));
            assert(line_views(lines@) =~= head + rows.take(i + 1));
        }
        assert(rows.take(rows.len() as int) =~= rows);
    }
    assert(line_views(lines@) =~= start + correlation_table(s@));
}

pub open spec fn integral_row(t: IntegralEntry) -> Seq<CellView> {
    seq![
        CellView::Text("  "@ + text::padded_right(t.sensor@, 15) + " "@),
        CellView::Number { value: t.integral, width: 16, decimals: 1, plus: false },
        CellView::Text(" "@),
        CellView::Number { value: t.baseline, width: 10, decimals: 1, plus: false },
    ]
}

/// The lines that show the heat integrals.
pub open spec fn integral_table(s: Seq<IntegralEntry>) -> Seq<Seq<CellView>> {
    if s.len() == 0 {
        seq![plain("Thermal integrals: no data yet"@)]
    } else {
        seq![
            plain("Thermal Integrals:"@),
            plain("  Sensor            Integral (C*s)   Baseline"@),
            plain("  -------------------------------------------"@),
        ] + s.map_values(|e: IntegralEntry| integral_row(e))
    }
}

fn show_integral(t: &IntegralEntry) -> (r: Vec<Cell>)
    ensures
        cell_views(r@) == integral_row(*t),
{
    let mut cells = no_cells();
    add_text(
        &mut cells,
        text::around("  ", text::pad_right(t.sensor.as_str(), 15).as_str(), " "),
    );
    add_number(&mut cells, t.integral, 16, 1, false);
    add_text(&mut cells, " ".to_owned());
    add_number(&mut cells, t.baseline, 10, 1, false);
    assert(cell_views(cells@) =~= integral_row(*t));
    cells
}

fn show_integrals(s: &Vec<IntegralEntry>, lines: &mut Vec<Vec<Cell>>)
    ensures
        line_views(final(lines)@) == line_views(old(lines)@) + integral_table(s@),
{
    let ghost start = line_views(lines@);
    if s.len() == 0 {
        add_plain(lines, "Thermal integrals: no data yet");
    } else {
        add_plain(lines, "Thermal Integrals:");
        add_plain(lines, "  Sensor            Integral (C*s)   Baseline");
        add_plain(lines, "  -------------------------------------------");
        let ghost head = line_views(lines@);
        let ghost rows = s@.map_values(|e: IntegralEntry| integral_row(e));
        assert(head =~= head + rows.take(0));
        for i in 0..s.len()
            invariant
                rows == s@.map_values(|e: IntegralEntry| integral_row(e)),
                line_views(lines@) == head + rows.take(i as int),
        {
            add_line(lines, show_integral(&s[i]));
            assert(line_views(lines@) =~= head + rows.take(i + 1));
        }
        assert(rows.take(rows.len() as int) =~= rows);
    }
    assert(line_views(lines@) =~= start + integral_table(s@));
}

/// The lines that show the tuning data.
pub open spec fn tuning_table(t: TuningResponse) -> Seq<Seq<CellView>> {
    coupling_table(t.coupling_matrix@) + seq![plain(""@)] + step_table(t.step_responses@) + seq![
        plain(""@),
    ] + correlation_table(t.cross_correlations@) + seq![plain(""@)] + integral_table(
        t.thermal_integrals@,
    )
}

/// The tuning data.
pub fn print_tuning(response: &Response) -> (r: Printed)
    ensures
        match *response {
            Response::Tuning(t) => is_table(r, tuning_table(t)),
            _ => complains(r, *response),
        },
{
    match response {
        Response::Tuning(tuning) => {
            let mut lines = no_lines();
            show_coupling(&tuning.coupling_matrix, &mut lines);
            add_plain(&mut lines, "");
            show_steps(&tuning.step_responses, &mut lines);
            add_plain(&mut lines, "");
            show_correlations(&tuning.cross_correlations, &mut lines);
            add_plain(&mut lines, "");
            show_integrals(&tuning.thermal_integrals, &mut lines);
            assert(line_views(lines@) =~= tuning_table(*tuning));
            Printed::Table(lines)
        },
        _ => complain(response),
    }
}

// ---- Laws ----

/// The status shows every sensor and every fan, in their order, each on a line of its
/// own: of a sensor its name, its temperature and its rate, of a fan its name, its PWM
/// value, its speed, its base value and its boost.
pub proof fn law_status_shows_all(s: StatusResponse, i: int)
    ensures
        ({
            let t = status_table(s);
            let n = s.sensors@.len() as int;
            &&& t.len() == 7 + n + s.fans@.len()
            &&& 0 <= i < n ==> {
                let (x, line) = (s.sensors@[i], t[3 + i]);
                &&& line.len() == 4
                &&& line[0] == CellView::Text("  "@ + text::padded_right(x.name@, 15) + " "@)
                &&& (line[1] matches CellView::Number { value, decimals, .. } && value == x.temp_c
                    && decimals == 1)
                &&& (line[3] matches CellView::Number { value, decimals, plus, .. } && value
                    == x.dt_per_sec && decimals == 2 && plus)
            }
            &&& 0 <= i < s.fans@.len() ==> {
                let (f, line) = (s.fans@[i], t[7 + n + i]);
                &&& line.len() == 1
                &&& line[0] == CellView::Text(
                    "  "@ + text::padded_right(f.name@, 15) + " "@ + text::padded_left(
                        text::decimal(f.pwm as nat),
                        5,
                    ) + " "@ + text::padded_left(text::decimal(f.rpm as nat), 6) + " "@
                        + text::padded_left(text::decimal(f.base_pwm as nat), 8) + " "@
                        + text::padded_left(
                        if f.boost_applied >= 0 {
                            "+"@ + text::decimal(f.boost_applied as nat)
                        } else {
                            seq!['-'] + text::decimal((-f.boost_applied) as nat)
                        },
                        7,
                    ),
                )
            }
        }),
{
    let n = s.sensors@.len() as int;
    let t = status_table(s);
    if 0 <= i < n {
        assert(t[3 + i] == sensor_row(s.sensors@[i]));
    }
    if 0 <= i < s.fans@.len() {
        assert(t[7 + n + i] == fan_row(s.fans@[i]));
    }
}

/// The fans, and the sensors, of a coupling matrix are shown once each, and exactly
/// those that some entry names; one more entry adds its name at the end, if at all.
pub proof fn law_each_once(m: Seq<CouplingEntry>, n: int)
    requires
        0 <= n <= m.len(),
    ensures
        entry_fans(m, n).no_duplicates(),
        entry_sensors(m, n).no_duplicates(),
        forall|x: Seq<char>| #[trigger]
            entry_fans(m, n).contains(x) <==> exists|i: int|
                0 <= i < n && (#[trigger] m[i]).fan@ == x,
        forall|x: Seq<char>| #[trigger]
            entry_sensors(m, n).contains(x) <==> exists|i: int|
                0 <= i < n && (#[trigger] m[i]).sensor@ == x,
        n > 0 ==> entry_fans(m, n - 1).is_prefix_of(entry_fans(m, n)),
        n > 0 ==> entry_sensors(m, n - 1).is_prefix_of(entry_sensors(m, n)),
    decreases n,
{
    if n > 0 {
        law_each_once(m, n - 1);
        let (f, s) = (entry_fans(m, n - 1), entry_sensors(m, n - 1));
        lemma_with_name(f, m[n - 1].fan@);
        lemma_with_name(s, m[n - 1].sensor@);
        assert forall|x: Seq<char>| #[trigger]
            entry_fans(m, n).contains(x) <==> exists|i: int|
                0 <= i < n && (#[trigger] m[i]).fan@ == x by {
            assert(with_name(f, m[n - 1].fan@).contains(x) <==> f.contains(x) || x
                == m[n - 1].fan@);
            if x == m[n - 1].fan@ {
                assert(m[n - 1].fan@ == x);
            }
        }
        assert forall|x: Seq<char>| #[trigger]
            entry_sensors(m, n).contains(x) <==> exists|i: int|
                0 <= i < n && (#[trigger] m[i]).sensor@ == x by {
            assert(with_name(s, m[n - 1].sensor@).contains(x) <==> s.contains(x) || x
                == m[n - 1].sensor@);
            if x == m[n - 1].sensor@ {
                assert(m[n - 1].sensor@ == x);
            }
        }
    }
}

proof fn lemma_with_name(names: Seq<Seq<char>>, name: Seq<char>)
    ensures
        names.no_duplicates() ==> with_name(names, name).no_duplicates(),
        forall|x: Seq<char>| #[trigger]
            with_name(names, name).contains(x) <==> names.contains(x) || x == name,
        names.is_prefix_of(with_name(names, name)),
{
    let all = with_name(names, name);
    assert(names =~= all.subrange(0, names.len() as int));
    if !names.contains(name) {
        assert forall|x: Seq<char>| #[trigger] all.contains(x) <==> names.contains(x) || x
            == name by {
            if names.contains(x) {
                let i = choose|i: int| 0 <= i < names.len() && names[i] == x;
                assert(all[i] == x);
            }
            assert(all[names.len() as int] == name);
            if all.contains(x) {
                let i = choose|i: int| 0 <= i < all.len() && all[i] == x;
                if i < names.len() {
                    assert(names[i] == x);
                }
            }
        }
    }
}

/// The analytics have one column for each sensor that some fan has an estimate for,
/// and no column twice.
pub proof fn law_columns_of_analytics(fans: Seq<FanAnalyticsReport>, n: int)
    requires
        0 <= n <= fans.len(),
    ensures
        all_sensors(fans, n).no_duplicates(),
        forall|x: Seq<char>| #[trigger]
            all_sensors(fans, n).contains(x) <==> exists|i: int, j: int|
                0 <= i < n && 0 <= j < fans[i].effectiveness@.len() && (
                #[trigger] fans[i].effectiveness@[j]).0@ == x,
    decreases n,
{
    if n > 0 {
        law_columns_of_analytics(fans, n - 1);
        let before = all_sensors(fans, n - 1);
        let e = fans[n - 1].effectiveness@;
        lemma_estimated(before, e, e.len() as int);
        assert forall|x: Seq<char>| #[trigger]
            all_sensors(fans, n).contains(x) <==> exists|i: int, j: int|
                0 <= i < n && 0 <= j < fans[i].effectiveness@.len() && (
                #[trigger] fans[i].effectiveness@[j]).0@ == x by {
            let all = estimated_sensors(before, e, e.len() as int);
            assert(all_sensors(fans, n) == all);
            assert(all.contains(x) <==> before.contains(x) || exists|j: int|
                0 <= j < e.len() && (#[trigger] e[j]).0@ == x);
            if exists|j: int| 0 <= j < e.len() && (#[trigger] e[j]).0@ == x {
                let j = choose|j: int| 0 <= j < e.len() && (#[trigger] e[j]).0@ == x;
                assert(fans[n - 1].effectiveness@[j].0@ == x);
            }
            if exists|i: int, j: int|
                0 <= i < n && 0 <= j < fans[i].effectiveness@.len() && (
                #[trigger] fans[i].effectiveness@[j]).0@ == x {
                let (i, j) = choose|i: int, j: int|
                    0 <= i < n && 0 <= j < fans[i].effectiveness@.len() && (
                    #[trigger] fans[i].effectiveness@[j]).0@ == x;
                if i == n - 1 {
                    assert(e[j].0@ == x);
                } else {
                    assert(fans[i].effectiveness@[j].0@ == x);
                }
            }
        }
    }
}

proof fn lemma_estimated(names: Seq<Seq<char>>, e: Seq<(String, Scalar)>, n: int)
    requires
        0 <= n <= e.len(),
    ensures
        names.no_duplicates() ==> estimated_sensors(names, e, n).no_duplicates(),
        forall|x: Seq<char>| #[trigger]
            estimated_sensors(names, e, n).contains(x) <==> names.contains(x) || exists|j: int|
                0 <= j < n && (#[trigger] e[j]).0@ == x,
    decreases n,
{
    if n > 0 {
        lemma_estimated(names, e, n - 1);
        let before = estimated_sensors(names, e, n - 1);
        lemma_with_name(before, e[n - 1].0@);
        assert forall|x: Seq<char>| #[trigger]
            estimated_sensors(names, e, n).contains(x) <==> names.contains(x) || exists|j: int|
                0 <= j < n && (#[trigger] e[j]).0@ == x by {
            assert(with_name(before, e[n - 1].0@).contains(x) <==> before.contains(x) || x
                == e[n - 1].0@);
            if x == e[n - 1].0@ {
                assert(e[n - 1].0@ == x);
            }
        }
    }
}

/// A cell of the matrix shows the first coefficient for its fan and sensor, and that of
/// the analytics the first estimate for its sensor; there is a dash exactly where there
/// is none.
pub proof fn law_shown_value(
    m: Seq<CouplingEntry>,
    fan: Seq<char>,
    sensor: Seq<char>,
    e: Seq<(String, Scalar)>,
    i: int,
)
    requires
        0 <= i,
    ensures
        match beta_for(m, fan, sensor, i) {
            Some(b) => exists|k: int|
                {
                    &&& i <= k < m.len()
                    &&& (#[trigger] m[k]).fan@ == fan && m[k].sensor@ == sensor && m[k].beta == b
                    &&& forall|j: int|
                        i <= j < k ==> (#[trigger] m[j]).fan@ != fan || m[j].sensor@ != sensor
                },
            None => forall|j: int|
                i <= j < m.len() ==> (#[trigger] m[j]).fan@ != fan || m[j].sensor@ != sensor,
        },
        match estimate_for(e, sensor, i) {
            Some(b) => exists|k: int|
                {
                    &&& i <= k < e.len()
                    &&& (#[trigger] e[k]).0@ == sensor && e[k].1 == b
                    &&& forall|j: int| i <= j < k ==> (#[trigger] e[j]).0@ != sensor
                },
            None => forall|j: int| i <= j < e.len() ==> (#[trigger] e[j]).0@ != sensor,
        },
{
    lemma_beta_for(m, fan, sensor, i);
    lemma_estimate_for(e, sensor, i);
}

proof fn lemma_beta_for(m: Seq<CouplingEntry>, fan: Seq<char>, sensor: Seq<char>, i: int)
    requires
        0 <= i,
    ensures
        match beta_for(m, fan, sensor, i) {
            Some(b) => exists|k: int|
                {
                    &&& i <= k < m.len()
                    &&& (#[trigger] m[k]).fan@ == fan && m[k].sensor@ == sensor && m[k].beta == b
                    &&& forall|j: int|
                        i <= j < k ==> (#[trigger] m[j]).fan@ != fan || m[j].sensor@ != sensor
                },
            None => forall|j: int|
                i <= j < m.len() ==> (#[trigger] m[j]).fan@ != fan || m[j].sensor@ != sensor,
        },
    decreases m.len() - i,
{
    if i < m.len() {
        lemma_beta_for(m, fan, sensor, i + 1);
        if m[i].fan@ == fan && m[i].sensor@ == sensor {
            assert(m[i].beta == m[i].beta);
        } else if let Some(b) = beta_for(m, fan, sensor, i + 1) {
            let k = choose|k: int|
                {
                    &&& i + 1 <= k < m.len()
                    &&& (#[trigger] m[k]).fan@ == fan && m[k].sensor@ == sensor && m[k].beta == b
                    &&& forall|j: int|
                        i + 1 <= j < k ==> (#[trigger] m[j]).fan@ != fan || m[j].sensor@ != sensor
                };
            assert(m[k].fan@ == fan);
        }
    }
}

proof fn lemma_estimate_for(e: Seq<(String, Scalar)>, sensor: Seq<char>, i: int)
    requires
        0 <= i,
    ensures
        match estimate_for(e, sensor, i) {
            Some(b) => exists|k: int|
                {
                    &&& i <= k < e.len()
                    &&& (#[trigger] e[k]).0@ == sensor && e[k].1 == b
                    &&& forall|j: int| i <= j < k ==> (#[trigger] e[j]).0@ != sensor
                },
            None => forall|j: int| i <= j < e.len() ==> (#[trigger] e[j]).0@ != sensor,
        },
    decreases e.len() - i,
{
    if i < e.len() {
        lemma_estimate_for(e, sensor, i + 1);
        if e[i].0@ == sensor {
            assert(e[i].0@ == sensor);
        } else if let Some(b) = estimate_for(e, sensor, i + 1) {
            let k = choose|k: int|
                {
                    &&& i + 1 <= k < e.len()
                    &&& (#[trigger] e[k]).0@ == sensor && e[k].1 == b
                    &&& forall|j: int| i + 1 <= j < k ==> (#[trigger] e[j]).0@ != sensor
                };
            assert(e[k].0@ == sensor);
        }
    }
}

/// A row of the matrix shows its sensor and then one column for each fan, in the order
/// of the columns; a row of the analytics its fan and then one for each sensor.
pub proof fn law_rows_by_column(
    m: Seq<CouplingEntry>,
    fans: Seq<Seq<char>>,
    sensor: Seq<char>,
    f: FanAnalyticsReport,
    sensors: Seq<Seq<char>>,
)
    ensures
        beta_row(m, fans, sensor) == fans.fold_left(
            seq![CellView::Text("  "@ + text::padded_right(sensor, 15))],
            |t: Seq<CellView>, x: Seq<char>| t + column(beta_for(m, x, sensor, 0), 12),
        ),
        analytics_row(f, sensors) == sensors.fold_left(
            seq![
                CellView::Text(
                    "  "@ + text::padded_right(f.name@, 15) + " "@ + text::padded_left(
                        text::decimal(f.pwm as nat),
                        5,
                    ) + " "@ + text::padded_left(text::decimal(f.rpm as nat), 6) + " "@
                        + text::padded_left(text::decimal(f.history_samples as nat), 8),
                ),
            ],
            |t: Seq<CellView>, x: Seq<char>| t + column(estimate_for(f.effectiveness@, x, 0), 10),
        ),
{
    let start = plain("  "@ + text::padded_right(sensor, 15));
    assert(fans.take(fans.len() as int) =~= fans);
    assert(start =~= seq![CellView::Text("  "@ + text::padded_right(sensor, 15))]);
    lemma_beta_columns(
        m,
        fans,
        sensor,
        start,
        |t: Seq<CellView>, x: Seq<char>| t + column(beta_for(m, x, sensor, 0), 12),
        fans.len() as int,
    );
    assert(sensors.take(sensors.len() as int) =~= sensors);
    lemma_estimate_columns(
        f.effectiveness@,
        sensors,
        plain(
            "  "@ + text::padded_right(f.name@, 15) + " "@ + text::padded_left(
                text::decimal(f.pwm as nat),
                5,
            ) + " "@ + text::padded_left(text::decimal(f.rpm as nat), 6) + " "@
                + text::padded_left(text::decimal(f.history_samples as nat), 8),
        ),
        |t: Seq<CellView>, x: Seq<char>| t + column(estimate_for(f.effectiveness@, x, 0), 10),
        sensors.len() as int,
    );
}

proof fn lemma_beta_columns(
    m: Seq<CouplingEntry>,
    fans: Seq<Seq<char>>,
    sensor: Seq<char>,
    start: Seq<CellView>,
    more: spec_fn(Seq<CellView>, Seq<char>) -> Seq<CellView>,
    n: int,
)
    requires
        0 <= n <= fans.len(),
        forall|t: Seq<CellView>, x: Seq<char>| #[trigger]
            more(t, x) == t + column(beta_for(m, x, sensor, 0), 12),
    ensures
        start + beta_columns(m, fans, sensor, n) == fans.take(n).fold_left(start, more),
    decreases n,
{
    if n > 0 {
        lemma_beta_columns(m, fans, sensor, start, more, n - 1);
        let t = fans.take(n);
        assert(t.drop_last() =~= fans.take(n - 1));
        let c = column(beta_for(m, fans[n - 1], sensor, 0), 12);
        let b = beta_columns(m, fans, sensor, n - 1);
        assert(start + (b + c) =~= (start + b) + c);
        assert(t.fold_left(start, more) == more(
            t.drop_last().fold_left(start, more),
            t.last(),
        ));
    } else {
        assert(start + beta_columns(m, fans, sensor, n) =~= start);
    }
}

proof fn lemma_estimate_columns(
    e: Seq<(String, Scalar)>,
    sensors: Seq<Seq<char>>,
    start: Seq<CellView>,
    more: spec_fn(Seq<CellView>, Seq<char>) -> Seq<CellView>,
    n: int,
)
    requires
        0 <= n <= sensors.len(),
        forall|t: Seq<CellView>, x: Seq<char>| #[trigger]
            more(t, x) == t + column(estimate_for(e, x, 0), 10),
    ensures
        start + estimate_columns(e, sensors, n) == sensors.take(n).fold_left(start, more),
    decreases n,
{
    if n > 0 {
        lemma_estimate_columns(e, sensors, start, more, n - 1);
        let t = sensors.take(n);
        assert(t.drop_last() =~= sensors.take(n - 1));
        let c = column(estimate_for(e, sensors[n - 1], 0), 10);
        let b = estimate_columns(e, sensors, n - 1);
        assert(start + (b + c) =~= (start + b) + c);
        assert(t.fold_left(start, more) == more(
            t.drop_last().fold_left(start, more),
            t.last(),
        ));
    } else {
        assert(start + estimate_columns(e, sensors, n) =~= start);
    }
}

/// The matrix has a row for each sensor, the other tables one for each entry, all in
/// their order; without entries each is one line that says so.
pub proof fn law_tables_show_all(t: TuningResponse, i: int)
    requires
        0 <= i,
    ensures
        ({
            let m = t.coupling_matrix@;
            let fans = entry_fans(m, m.len() as int);
            let sensors = entry_sensors(m, m.len() as int);
            &&& m.len() == 0 ==> coupling_table(m).len() == 1
            &&& m.len() > 0 ==> coupling_table(m).len() == 3 + sensors.len()
            &&& m.len() > 0 && i < sensors.len() ==> coupling_table(m)[3 + i] == beta_row(
                m,
                fans,
                sensors[i],
            )
        }),
        ({
            let s = t.step_responses@;
            &&& s.len() == 0 ==> step_table(s).len() == 1
            &&& s.len() > 0 ==> step_table(s).len() == 3 + s.len()
            &&& i < s.len() ==> {
                let line = step_table(s)[3 + i];
                &&& line[0] == CellView::Text(pair_column(s[i].fan@, s[i].sensor@))
                &&& (line[1] matches CellView::Number { value, .. } && value == s[i].gain_k)
                &&& (line[3] matches CellView::Number { value, .. } && value == s[i].tau_ticks)
                &&& line[4] == CellView::Text(
                    " "@ + text::padded_left(text::decimal(s[i].n_events as nat), 8),
                )
            }
        }),
        ({
            let c = t.cross_correlations@;
            &&& c.len() == 0 ==> correlation_table(c).len() == 1
            &&& c.len() > 0 ==> correlation_table(c).len() == 3 + c.len()
            &&& i < c.len() ==> {
                let line = correlation_table(c)[3 + i];
                &&& line[0] == CellView::Text(pair_column(c[i].fan@, c[i].sensor@))
                &&& (line[1] matches CellView::Number { value, .. } && value
                    == c[i].peak_ccf.absolute())
                &&& line[2] == CellView::Text(
                    " "@ + text::padded_left(text::decimal(c[i].optimal_lag as nat), 12),
                )
            }
        }),
        ({
            let h = t.thermal_integrals@;
            &&& h.len() == 0 ==> integral_table(h).len() == 1
            &&& h.len() > 0 ==> integral_table(h).len() == 3 + h.len()
            &&& i < h.len() ==> {
                let line = integral_table(h)[3 + i];
                &&& line[0] == CellView::Text("  "@ + text::padded_right(h[i].sensor@, 15) + " "@)
                &&& (line[1] matches CellView::Number { value, .. } && value == h[i].integral)
                &&& (line[3] matches CellView::Number { value, .. } && value == h[i].baseline)
            }
        }),
{
    if i < t.step_responses@.len() {
        let s = t.step_responses@;
        assert(step_table(s)[3 + i] == step_row(s[i]));
    }
    if i < t.cross_correlations@.len() {
        let c = t.cross_correlations@;
        assert(correlation_table(c)[3 + i] == correlation_row(c[i]));
    }
    if i < t.thermal_integrals@.len() {
        let h = t.thermal_integrals@;
        assert(integral_table(h)[3 + i] == integral_row(h[i]));
    }
}

/// Two tables with the same lines hold the same texts and numbers.
pub proof fn law_lines_tell_apart(a: Seq<Vec<Cell>>, b: Seq<Vec<Cell>>, i: int, j: int)
    requires
        line_views(a) == line_views(b),
    ensures
        a.len() == b.len(),
        0 <= i < a.len() ==> a[i]@.len() == b[i]@.len(),
        0 <= i < a.len() && 0 <= j < a[i]@.len() ==> match (a[i]@[j], b[i]@[j]) {
            (Cell::Text(s), Cell::Text(t)) => s@ == t@,
            (
                Cell::Number { value: v, width: w, decimals: d, plus: p },
                Cell::Number { value: x, width: y, decimals: e, plus: q },
            ) => v == x && w == y && d == e && p == q,
            _ => false,
        },
{
    assert(line_views(a).len() == a.len() && line_views(b).len() == b.len());
    if 0 <= i < a.len() {
        let (v, w) = (cell_views(a[i]@), cell_views(b[i]@));
        assert(line_views(a)[i] == v && line_views(b)[i] == w);
        assert(v.len() == a[i]@.len() && w.len() == b[i]@.len());
        if 0 <= j < a[i]@.len() {
            assert(v[j] == a[i]@[j]@ && w[j] == b[i]@[j]@);
        }
    }
}

} // verus!
