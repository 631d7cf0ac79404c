//! Export generation for CSV telemetry tables and standalone HTML mission reports.
//!
//! Numbers reach the exporter already rendered (with the precision each column or figure
//! shows); the exporter lays out the rows, the tables and the report.

use vstd::prelude::*;
use vstd::string::*;
use crate::analysis::alerts::{alerts_view, Alert, AlertSeverity, AlertView};
use crate::scripting::commands::strings_view;
use crate::simulation::events::{events_view, EventView, MissionEvent};
use crate::simulation::flight::{mode_label, FlightMode};
use crate::text::{
    decimal, decimal_string, is_digit, lemma_decimal_digits, lemma_replace_absent,
    lemma_replace_around, lemma_replace_split_after, lemma_replace_split_before, replace, replace_all,
};

verus! {

broadcast use vstd::string::group_string_axioms;

/// The first line of a CSV export.
pub const CSV_HEADER: &'static str = "step,sim_time_sec,x_m,y_m,altitude_m,heading_deg,horizontal_speed_mps,vertical_speed_mps,battery_percent,raw_x_m,raw_y_m,raw_altitude_m,raw_heading_deg,filtered_x_m,filtered_y_m,filtered_altitude_m,filtered_heading_deg,flight_mode\n";

/// The page of an HTML mission report, with `__NAME__`-style placeholders, up to its
/// alert-count cell.
pub const REPORT_HEAD: &'static str = r###"<!DOCTYPE html>
<html lang="en">
<head>
<meta charset="UTF-8">
<meta name="viewport" content="width=device-width, initial-scale=1.0">
<title>Drift Mission Report: __NAME__</title>
<style>
  :root {
    --bg-primary: #0b0f19;
    --bg-secondary: #111827;
    --bg-card: #1e293b;
    --border: #334155;
    --text-primary: #f8fafc;
    --text-secondary: #94a3b8;
    --cyan: #06b6d4;
    --amber: #f59e0b;
    --emerald: #10b981;
    --red: #ef4444;
  }
  * { box-sizing: border-box; margin: 0; padding: 0; }
  body {
    background-color: var(--bg-primary);
    color: var(--text-primary);
    font-family: -apple-system, BlinkMacSystemFont, "Segoe UI", Roboto, sans-serif;
    padding: 32px;
    line-height: 1.5;
  }
  .container { max-width: 1200px; margin: 0 auto; }
  header {
    display: flex;
    justify-content: space-between;
    align-items: center;
    border-bottom: 1px solid var(--border);
    padding-bottom: 24px;
    margin-bottom: 32px;
  }
  h1 { font-size: 28px; font-weight: 700; letter-spacing: -0.5px; }
  .tag { font-size: 13px; color: var(--text-secondary); text-transform: uppercase; letter-spacing: 1px; }
  .metrics-grid {
    display: grid;
    grid-template-columns: repeat(auto-fit, minmax(200px, 1fr));
    gap: 16px;
    margin-bottom: 32px;
  }
  .metric-card {
    background: var(--bg-card);
    border: 1px solid var(--border);
    border-radius: 8px;
    padding: 20px;
  }
  .metric-title { font-size: 12px; text-transform: uppercase; color: var(--text-secondary); margin-bottom: 6px; }
  .metric-value { font-size: 26px; font-weight: 700; font-family: ui-monospace, monospace; color: var(--cyan); }
  .section {
    background: var(--bg-secondary);
    border: 1px solid var(--border);
    border-radius: 8px;
    padding: 24px;
    margin-bottom: 32px;
  }
  .section-title {
    font-size: 18px;
    font-weight: 600;
    margin-bottom: 16px;
    border-bottom: 1px solid var(--border);
    padding-bottom: 10px;
  }
  .map-wrapper {
    display: flex;
    justify-content: center;
    background: #06090e;
    border-radius: 6px;
    padding: 16px;
  }
  svg { max-width: 100%; height: auto; }
  table {
    width: 100%;
    border-collapse: collapse;
    font-size: 14px;
    margin-top: 8px;
  }
  th, td {
    padding: 10px 14px;
    text-align: left;
    border-bottom: 1px solid var(--border);
  }
  th { color: var(--text-secondary); font-size: 12px; text-transform: uppercase; }
  .mono { font-family: ui-monospace, monospace; font-size: 13px; color: var(--text-secondary); }
  .subtle { color: var(--text-secondary); font-size: 13px; }
  .badge {
    display: inline-block;
    padding: 2px 8px;
    border-radius: 4px;
    font-size: 11px;
    font-weight: 600;
    text-transform: uppercase;
  }
  .badge-event { background: rgba(6, 182, 212, 0.15); color: var(--cyan); border: 1px solid var(--cyan); }
  .badge-critical { background: rgba(239, 68, 68, 0.15); color: var(--red); border: 1px solid var(--red); }
  .badge-warning { background: rgba(245, 158, 11, 0.15); color: var(--amber); border: 1px solid var(--amber); }
  .badge-info { background: rgba(16, 185, 129, 0.15); color: var(--emerald); border: 1px solid var(--emerald); }
</style>
</head>
<body>
<div class="container">
  <header>
    <div>
      <div class="tag">Drift Telemetry Analysis Platform</div>
      <h1>Mission Report: __NAME__</h1>
    </div>
    <div style="text-align: right;">
      <div class="mono">ID: __ID__</div>
      <div class="subtle">Started: __START_TIME__</div>
    </div>
  </header>

  <div class="metrics-grid">
    <div class="metric-card">
      <div class="metric-title">Flight Duration</div>
      <div class="metric-value">__DURATION__s</div>
    </div>
    <div class="metric-card">
      <div class="metric-title">Distance Traveled</div>
      <div class="metric-value">__DISTANCE__m</div>
    </div>
    <div class="metric-card">
      <div class="metric-title">Peak Altitude</div>
      <div class="metric-value">__MAX_ALT__m</div>
    </div>
    <div class="metric-card">
      <div class="metric-title">Battery Consumed</div>
      <div class="metric-value">__BATTERY__%</div>
    </div>
    <div class="metric-card">
      <div class="metric-title""###;

/// The rest of the report page, after its alert-count cell.
pub const REPORT_TAIL: &'static str = r###"
    </div>
  </div>

  <div class="section">
    <div class="section-title">2D Trajectory Vector Map (400m x 400m Airspace)</div>
    <div style="font-size: 12px; color: var(--text-secondary); margin-bottom: 8px;">
      <span style="color: #ef4444;">-- Pink / Red Dashed:</span> Raw GPS Position Path &nbsp;|&nbsp;
      <span style="color: #06b6d4;">-- Cyan Solid:</span> Kalman Filtered Localization Path
    </div>
    <div class="map-wrapper">
      <svg width="600" height="600" viewBox="0 0 600 600" xmlns="http://www.w3.org/2000/svg">
        <rect width="600" height="600" fill="#090d16" stroke="#334155" stroke-width="2"/>
        <line x1="150" y1="0" x2="150" y2="600" stroke="#1e293b" stroke-dasharray="4"/>
        <line x1="300" y1="0" x2="300" y2="600" stroke="#1e293b" stroke-dasharray="4"/>
        <line x1="450" y1="0" x2="450" y2="600" stroke="#1e293b" stroke-dasharray="4"/>
        <line x1="0" y1="150" x2="600" y2="150" stroke="#1e293b" stroke-dasharray="4"/>
        <line x1="0" y1="300" x2="600" y2="300" stroke="#1e293b" stroke-dasharray="4"/>
        <line x1="0" y1="450" x2="600" y2="450" stroke="#1e293b" stroke-dasharray="4"/>
        <polyline points="__RAW_POINTS__" fill="none" stroke="#ec4899" stroke-width="1.5" stroke-dasharray="3,3" opacity="0.75"/>
        <polyline points="__FILTERED_POINTS__" fill="none" stroke="#06b6d4" stroke-width="2.5"/>
      </svg>
    </div>
  </div>

  <div class="section">
    <div class="section-title">Mission Safety & Diagnostic Alerts</div>
    <table>
      <thead>
        <tr>
          <th>Timestamp</th>
          <th>Alert Type</th>
          <th>Description</th>
          <th>Mitigation Action</th>
        </tr>
      </thead>
      <tbody>
        __ALERT_ROWS__
      </tbody>
    </table>
  </div>

  <div class="section">
    <div class="section-title">Chronological Event Timeline</div>
    <table>
      <thead>
        <tr>
          <th>Timestamp</th>
          <th>Event Type</th>
          <th>Description</th>
        </tr>
      </thead>
      <tbody>
        __EVENT_ROWS__
      </tbody>
    </table>
  </div>
</div>
</body>
</html>"###;

/// The badge class of an alert's severity in the report.
pub open spec fn badge_class(s: AlertSeverity) -> Seq<char> {
    match s {
        AlertSeverity::Critical => "badge-critical"@,
        AlertSeverity::Warning => "badge-warning"@,
        AlertSeverity::Info => "badge-info"@,
    }
}

/// The report's table row for an event.
pub open spec fn event_row(e: EventView) -> Seq<char> {
    "<tr><td class=\"mono\">"@ + e.timestamp + "</td><td><span class=\"badge badge-event\">"@
        + e.event_type + "</span></td><td>"@ + e.description + "</td></tr>\n"@
}

/// The report's table rows for events, in order.
pub open spec fn event_rows(es: Seq<EventView>) -> Seq<char>
    decreases es.len(),
{
    if es.len() == 0 {
        seq![]
    } else {
        event_rows(es.drop_last()) + event_row(es.last())
    }
}

/// The report's table row for an alert.
pub open spec fn alert_row(a: AlertView) -> Seq<char> {
    "<tr><td class=\"mono\">"@ + a.timestamp + "</td><td><span class=\"badge "@ + badge_class(a.severity)
        + "\">"@ + a.alert_type + "</span></td><td>"@ + a.description + "</td><td class=\"subtle\">"@
        + a.suggested_action + "</td></tr>\n"@
}

/// The report's table rows for alerts, in order.
pub open spec fn alert_rows(s: Seq<AlertView>) -> Seq<char>
    decreases s.len(),
{
    if s.len() == 0 {
        seq![]
    } else {
        alert_rows(s.drop_last()) + alert_row(s.last())
    }
}

/// The points of an SVG polyline: each point followed by a space.
pub open spec fn points_text(ps: Seq<Seq<char>>) -> Seq<char>
    decreases ps.len(),
{
    if ps.len() == 0 {
        seq![]
    } else {
        points_text(ps.drop_last()) + ps.last() + " "@
    }
}

/// Appends `a + b + c` to `s`.
fn push3(s: &mut String, a: &str, b: &str, c: &str)
    ensures
        final(s)@ == old(s)@ + a@ + b@ + c@,
{
    s.append(a);
    s.append(b);
    s.append(c);
    assert(s@ =~= old(s)@ + a@ + b@ + c@);
}

pub struct MissionExporter;

impl MissionExporter {
    /// The badge class of a severity: `badge-critical`, `badge-warning` or `badge-info`.
    pub fn badge_class(severity: AlertSeverity) -> (c: &'static str)
        ensures
            c@ == badge_class(severity),
    {
        match severity {
            AlertSeverity::Critical => "badge-critical",
            AlertSeverity::Warning => "badge-warning",
            AlertSeverity::Info => "badge-info",
        }
    }

    /// The report's event table rows, one per event, in order.
    pub fn event_rows(events: &Vec<MissionEvent>) -> (rows: String)
        ensures
            rows@ == event_rows(events_view(events@)),
    {
        let mut rows = String::new();
        let mut i: usize = 0;
        let ghost all = events_view(events@);
        proof {
            assert(all.take(0) =~= Seq::<EventView>::empty());
        }
        while i < events.len()
            invariant
                i <= events.len(),
                all == events_view(events@),
                rows@ == event_rows(all.take(i as int)),
            decreases events.len() - i,
        {
            let e = &events[i];
            proof {
                assert(all.take(i + 1).drop_last() =~= all.take(i as int));
                assert(all.take(i + 1).last() == all[i as int]);
                assert(all[i as int] == e@);
            }
            push3(&mut rows, "<tr><td class=\"mono\">", e.timestamp.as_str(), "</td><td><span class=\"badge badge-event\">");
            push3(&mut rows, e.event_type.as_str(), "</span></td><td>", e.description.as_str());
            rows.append("</td></tr>\n");
            proof {
                assert(rows@ =~= event_rows(all.take(i as int)) + event_row(e@));
            }
            i = i + 1;
        }
        proof {
            assert(all.take(events.len() as int) =~= all);
        }
        rows
    }

    /// The report's alert table rows, one per alert, in order.
    pub fn alert_rows(alerts: &Vec<Alert>) -> (rows: String)
        ensures
            rows@ == alert_rows(alerts_view(alerts@)),
    {
        let mut rows = String::new();
        let mut i: usize = 0;
        let ghost all = alerts_view(alerts@);
        proof {
            assert(all.take(0) =~= Seq::<AlertView>::empty());
        }
        while i < alerts.len()
            invariant
                i <= alerts.len(),
                all == alerts_view(alerts@),
                rows@ == alert_rows(all.take(i as int)),
            decreases alerts.len() - i,
        {
            let a = &alerts[i];
            proof {
                assert(all.take(i + 1).drop_last() =~= all.take(i as int));
                assert(all.take(i + 1).last() == all[i as int]);
                assert(all[i as int] == a@);
            }
            push3(&mut rows, "<tr><td class=\"mono\">", a.timestamp.as_str(), "</td><td><span class=\"badge ");
            push3(&mut rows, Self::badge_class(a.severity), "\">", a.alert_type.as_str());
            push3(&mut rows, "</span></td><td>", a.description.as_str(), "</td><td class=\"subtle\">");
            push3(&mut rows, a.suggested_action.as_str(), "</td></tr>\n", "");
            proof {
                reveal_strlit("");
                assert(rows@ =~= alert_rows(all.take(i as int)) + alert_row(a@));
            }
            i = i + 1;
        }
        proof {
            assert(all.take(alerts.len() as int) =~= all);
        }
        rows
    }

    /// The points of an SVG polyline, each followed by a space.
    pub fn points(ps: &Vec<String>) -> (t: String)
        ensures
            t@ == points_text(strings_view(ps@)),
    {
        let mut t = String::new();
        let mut i: usize = 0;
        let ghost all = strings_view(ps@);
        proof {
            assert(all.take(0) =~= Seq::<Seq<char>>::empty());
        }
        while i < ps.len()
            invariant
                i <= ps.len(),
                all == strings_view(ps@),
                t@ == points_text(all.take(i as int)),
            decreases ps.len() - i,
        {
            proof {
                assert(all.take(i + 1).drop_last() =~= all.take(i as int));
                assert(all.take(i + 1).last() == ps@[i as int]@);
            }
            t.append(ps[i].as_str());
            t.append(" ");
            proof {
                assert(t@ =~= points_text(all.take(i as int)) + ps@[i as int]@ + " "@);
            }
            i = i + 1;
        }
        proof {
            assert(all.take(ps.len() as int) =~= all);
        }
        t
    }
}

/// What an HTML report shows.
pub struct ReportInputs {
    pub name: String,
    pub id: String,
    pub start_time: String,
    /// The flight duration in seconds, with one decimal.
    pub duration_text: String,
    /// The distance traveled in metres, with one decimal.
    pub distance_text: String,
    /// The peak altitude in metres, with one decimal.
    pub max_altitude_text: String,
    /// The battery consumed in percent, with one decimal.
    pub battery_text: String,
    /// The raw and filtered trajectory points on the map, each as `x,y`.
    pub raw_points: Vec<String>,
    pub filtered_points: Vec<String>,
    pub events: Vec<MissionEvent>,
    pub alerts: Vec<Alert>,
}

/// The heading of the report's "Total Alerts" metric, up to the figure.
pub open spec fn alert_count_label() -> Seq<char> {
    ">Total Alerts</div>\n      <div class=\"metric-value\" style=\"color: var(--amber);\">"@
}

/// The "Total Alerts" metric showing the figure `count`.
pub open spec fn alert_count_cell(count: Seq<char>) -> Seq<char> {
    alert_count_label() + count + "</div>"@
}

/// The report page, with its placeholders.
pub open spec fn report_template() -> Seq<char> {
    REPORT_HEAD@ + alert_count_cell("__ALERT_COUNT__"@) + REPORT_TAIL@
}

/// The HTML report: the template with its placeholders replaced, one after the other.
pub open spec fn report_text(r: ReportInputs) -> Seq<char> {
    let t = replace_all(report_template(), "__NAME__"@, r.name@);
    let t = replace_all(t, "__ID__"@, r.id@);
    let t = replace_all(t, "__START_TIME__"@, r.start_time@);
    let t = replace_all(t, "__DURATION__"@, r.duration_text@);
    let t = replace_all(t, "__DISTANCE__"@, r.distance_text@);
    let t = replace_all(t, "__MAX_ALT__"@, r.max_altitude_text@);
    let t = replace_all(t, "__BATTERY__"@, r.battery_text@);
    let t = replace_all(t, "__ALERT_COUNT__"@, decimal(r.alerts@.len()));
    let t = replace_all(t, "__RAW_POINTS__"@, points_text(strings_view(r.raw_points@)));
    let t = replace_all(t, "__FILTERED_POINTS__"@, points_text(strings_view(r.filtered_points@)));
    let t = replace_all(t, "__ALERT_ROWS__"@, alert_rows(alerts_view(r.alerts@)));
    replace_all(t, "__EVENT_ROWS__"@, event_rows(events_view(r.events@)))
}

/// One telemetry sample of a CSV export: its rendered values, in column order, and its mode.
pub struct CsvRow {
    pub values: Vec<String>,
    pub flight_mode: FlightMode,
}

/// Each value preceded by a comma.
pub open spec fn fields_text(vs: Seq<Seq<char>>) -> Seq<char>
    decreases vs.len(),
{
    if vs.len() == 0 {
        seq![]
    } else {
        fields_text(vs.drop_last()) + ","@ + vs.last()
    }
}

/// The CSV line of sample `i`: its step number, its values and its mode.
pub open spec fn csv_line(i: nat, r: CsvRow) -> Seq<char> {
    decimal(i) + fields_text(strings_view(r.values@)) + ","@ + mode_label(r.flight_mode) + "\n"@
}

/// The CSV lines of the samples, numbered from 0.
pub open spec fn csv_lines(rows: Seq<CsvRow>) -> Seq<char>
    decreases rows.len(),
{
    if rows.len() == 0 {
        seq![]
    } else {
        csv_lines(rows.drop_last()) + csv_line((rows.len() - 1) as nat, rows.last())
    }
}

/// A CSV export: the header, then one line per sample.
pub open spec fn csv_text(rows: Seq<CsvRow>) -> Seq<char> {
    CSV_HEADER@ + csv_lines(rows)
}

/// Replaces a placeholder, which is never empty.
fn fill(t: String, placeholder: &str, value: &str) -> (r: String)
    requires
        placeholder@.len() > 0,
    ensures
        r@ == replace_all(t@, placeholder@, value@),
{
    replace(t.as_str(), placeholder, value)
}

impl MissionExporter {
    /// The self-contained HTML mission report.
    pub fn to_html_report(r: &ReportInputs) -> (html: String)
        ensures
            html@ == report_text(*r),
    {
        let raw = Self::points(&r.raw_points);
        let filtered = Self::points(&r.filtered_points);
        let event_rows = Self::event_rows(&r.events);
        let alert_rows = Self::alert_rows(&r.alerts);
        let count = decimal_string(r.alerts.len());
        proof {
            reveal_strlit("__NAME__");
            reveal_strlit("__ID__");
            reveal_strlit("__START_TIME__");
            reveal_strlit("__DURATION__");
            reveal_strlit("__DISTANCE__");
            reveal_strlit("__MAX_ALT__");
            reveal_strlit("__BATTERY__");
            reveal_strlit("__ALERT_COUNT__");
            reveal_strlit("__RAW_POINTS__");
            reveal_strlit("__FILTERED_POINTS__");
            reveal_strlit("__ALERT_ROWS__");
            reveal_strlit("__EVENT_ROWS__");
        }
        let mut page = REPORT_HEAD.to_string();
        page.append(">Total Alerts</div>\n      <div class=\"metric-value\" style=\"color: var(--amber);\">");
        page.append("__ALERT_COUNT__");
        page.append("</div>");
        page.append(REPORT_TAIL);
        proof {
            assert(page@ =~= report_template());
        }
        let t = fill(page, "__NAME__", r.name.as_str());
        let t = fill(t, "__ID__", r.id.as_str());
        let t = fill(t, "__START_TIME__", r.start_time.as_str());
        let t = fill(t, "__DURATION__", r.duration_text.as_str());
        let t = fill(t, "__DISTANCE__", r.distance_text.as_str());
        let t = fill(t, "__MAX_ALT__", r.max_altitude_text.as_str());
        let t = fill(t, "__BATTERY__", r.battery_text.as_str());
        let t = fill(t, "__ALERT_COUNT__", count.as_str());
        let t = fill(t, "__RAW_POINTS__", raw.as_str());
        let t = fill(t, "__FILTERED_POINTS__", filtered.as_str());
        let t = fill(t, "__ALERT_ROWS__", alert_rows.as_str());
        fill(t, "__EVENT_ROWS__", event_rows.as_str())
    }

    /// The telemetry samples as CSV: the header, then one line per sample numbered from 0.
    pub fn to_csv(rows: &Vec<CsvRow>) -> (csv: String)
        ensures
            csv@ == csv_text(rows@),
    {
        let mut csv = CSV_HEADER.to_string();
        let mut i: usize = 0;
        proof {
            assert(rows@.take(0) =~= Seq::<CsvRow>::empty());
            assert(csv@ =~= CSV_HEADER@ + csv_lines(rows@.take(0)));
        }
        while i < rows.len()
            invariant
                i <= rows.len(),
                csv@ == CSV_HEADER@ + csv_lines(rows@.take(i as int)),
            decreases rows.len() - i,
        {
            let row = &rows[i];
            let ghost before = csv@;
            proof {
                assert(rows@.take(i + 1).drop_last() =~= rows@.take(i as int));
                assert(rows@.take(i + 1).last() == rows@[i as int]);
            }
            let step = decimal_string(i);
            csv.append(step.as_str());
            let mut j: usize = 0;
            let ghost vals = strings_view(row.values@);
            proof {
                assert(vals.take(0) =~= Seq::<Seq<char>>::empty());
                assert(csv@ =~= before + decimal(i as nat) + fields_text(vals.take(0)));
            }
            while j < row.values.len()
                invariant
                    j <= row.values.len(),
                    vals == strings_view(row.values@),
                    csv@ == before + decimal(i as nat) + fields_text(vals.take(j as int)),
                decreases row.values.len() - j,
            {
                proof {
                    assert(vals.take(j + 1).drop_last() =~= vals.take(j as int));
                    assert(vals.take(j + 1).last() == row.values@[j as int]@);
                }
                csv.append(",");
                csv.append(row.values[j].as_str());
                proof {
                    assert(csv@ =~= before + decimal(i as nat) + fields_text(vals.take(j + 1)));
                }
                j = j + 1;
            }
            proof {
                assert(vals.take(row.values.len() as int) =~= vals);
            }
            let label = row.flight_mode.label();
            csv.append(",");
            csv.append(label.as_str());
            csv.append("\n");
            proof {
                assert(csv@ =~= CSV_HEADER@ + csv_lines(rows@.take(i as int)) + csv_line(i as nat, *row));
                assert(csv@ =~= CSV_HEADER@ + csv_lines(rows@.take(i + 1)));
            }
            i = i + 1;
        }
        proof {
            assert(rows@.take(rows.len() as int) =~= rows@);
        }
        csv
    }
}


/// The "Total Alerts" metric starts and ends with `>`.
proof fn lemma_cell_ends(count: Seq<char>)
    ensures
        alert_count_cell(count).len() > 0,
        alert_count_cell(count)[0] == '>',
        alert_count_cell(count).last() == '>',
{
    reveal_strlit(">Total Alerts</div>\n      <div class=\"metric-value\" style=\"color: var(--amber);\">");
    reveal_strlit("</div>");
    assert(alert_count_cell(count)[0] == alert_count_label()[0]);
}

/// The letters `c` of the earlier placeholders do not occur in the metric before its
/// figure is filled in.
proof fn lemma_cell_lacks(c: char)
    requires
        c == 'M' || c == 'I' || c == 'S' || c == 'D' || c == 'B',
    ensures
        !alert_count_cell("__ALERT_COUNT__"@).contains(c),
{
    reveal_strlit(">Total Alerts</div>\n      <div class=\"metric-value\" style=\"color: var(--amber);\">");
    reveal_strlit("__ALERT_COUNT__");
    reveal_strlit("</div>");
    let cell = alert_count_cell("__ALERT_COUNT__"@);
    assert forall|i: int| 0 <= i < cell.len() implies cell[i] != c by {
        let l = alert_count_label().len();
        if i < l {
            assert(cell[i] == alert_count_label()[i]);
        } else if i < l + 15 {
            assert(cell[i] == "__ALERT_COUNT__"@[i - l]);
        } else {
            assert(cell[i] == "</div>"@[i - l - 15]);
        }
    }
}

/// No underscore occurs in the metric once its figure is a decimal number.
proof fn lemma_filled_cell_lacks_underscore(n: nat)
    ensures
        !alert_count_cell(decimal(n)).contains('_'),
{
    reveal_strlit(">Total Alerts</div>\n      <div class=\"metric-value\" style=\"color: var(--amber);\">");
    reveal_strlit("</div>");
    lemma_decimal_digits(n);
    let d = decimal(n);
    let cell = alert_count_cell(d);
    assert forall|i: int| 0 <= i < cell.len() implies cell[i] != '_' by {
        let l = alert_count_label().len();
        if i < l {
            assert(cell[i] == alert_count_label()[i]);
        } else if i < l + d.len() {
            assert(cell[i] == d[i - l]);
            assert(is_digit(d[i - l]));
        } else {
            assert(cell[i] == "</div>"@[i - l - d.len()]);
        }
    }
}

/// Replacing a pattern without `>` that holds a character the metric lacks keeps the
/// metric as it is, between the replaced texts before and after it.
proof fn lemma_pass_cell(x: Seq<char>, count: Seq<char>, y: Seq<char>, from: Seq<char>, to: Seq<char>, c: char)
    requires
        !from.contains('>'),
        from.contains(c),
        !alert_count_cell(count).contains(c),
    ensures
        replace_all(x + alert_count_cell(count) + y, from, to) == replace_all(x, from, to)
            + alert_count_cell(count) + replace_all(y, from, to),
{
    lemma_cell_ends(count);
    lemma_replace_around(x, alert_count_cell(count), y, from, to);
    lemma_replace_absent(alert_count_cell(count), from, to, c);
}

/// Filling in the alert count puts the figure into the metric.
proof fn lemma_fill_count(x: Seq<char>, y: Seq<char>, n: nat)
    ensures
        replace_all(x + alert_count_cell("__ALERT_COUNT__"@) + y, "__ALERT_COUNT__"@, decimal(n))
            == replace_all(x, "__ALERT_COUNT__"@, decimal(n)) + alert_count_cell(decimal(n))
            + replace_all(y, "__ALERT_COUNT__"@, decimal(n)),
{
    let p = "__ALERT_COUNT__"@;
    let d = decimal(n);
    let l = alert_count_label();
    let close = "</div>"@;
    reveal_strlit(">Total Alerts</div>\n      <div class=\"metric-value\" style=\"color: var(--amber);\">");
    reveal_strlit("__ALERT_COUNT__");
    reveal_strlit("</div>");
    assert(!p.contains('>')) by {
        assert forall|i: int| 0 <= i < p.len() implies p[i] != '>' by {}
    }
    assert(!p.contains('<')) by {
        assert forall|i: int| 0 <= i < p.len() implies p[i] != '<' by {}
    }
    assert(p.contains('_')) by {
        assert(p[0] == '_');
    }
    lemma_cell_ends("__ALERT_COUNT__"@);
    lemma_replace_around(x, alert_count_cell(p), y, p, d);
    // Inside the metric: the heading and the closing tag stay, the placeholder becomes the figure.
    assert(alert_count_cell(p) == (l + p) + close);
    lemma_replace_split_before(l + p, close, p, d);
    assert((l + p).last() == p.last());
    lemma_replace_split_after(l, p, p, d);
    assert(!l.contains('_')) by {
        assert forall|i: int| 0 <= i < l.len() implies l[i] != '_' by {}
    }
    lemma_replace_absent(l, p, d, '_');
    assert(replace_all(close, p, d) == close);
    assert(p.take(p.len() as int) =~= p);
    assert(p.skip(p.len() as int) =~= Seq::<char>::empty());
    assert(replace_all(Seq::<char>::empty(), p, d) == Seq::<char>::empty());
    assert(replace_all(p, p, d) =~= d);
}


/// The report's "Total Alerts" metric shows the number of alerts passed in, in decimal,
/// whatever the other inputs are: the report reads `...>Total Alerts</div> ... >N</div>...`
/// with `N` the count of alerts.
pub proof fn law_report_shows_alert_count(r: ReportInputs)
    ensures
        exists|a: Seq<char>, b: Seq<char>|
            report_text(r) == a + alert_count_cell(decimal(r.alerts@.len())) + b,
{
    let n = r.alerts@.len();
    let c1 = alert_count_cell(decimal(n));
    lemma_filled_cell_lacks_underscore(n);
    let x0 = REPORT_HEAD@;
    let y0 = REPORT_TAIL@;
    assert(!"__NAME__"@.contains('>') && "__NAME__"@.contains('M')) by {
        reveal_strlit("__NAME__");
        assert("__NAME__"@[4] == 'M');
        assert forall|i: int| 0 <= i < "__NAME__"@.len() implies "__NAME__"@[i] != '>' by {}
    }
    lemma_cell_lacks('M');
    lemma_pass_cell(x0, "__ALERT_COUNT__"@, y0, "__NAME__"@, r.name@, 'M');
    let x1 = replace_all(x0, "__NAME__"@, r.name@);
    let y1 = replace_all(y0, "__NAME__"@, r.name@);
    assert(!"__ID__"@.contains('>') && "__ID__"@.contains('I')) by {
        reveal_strlit("__ID__");
        assert("__ID__"@[2] == 'I');
        assert forall|i: int| 0 <= i < "__ID__"@.len() implies "__ID__"@[i] != '>' by {}
    }
    lemma_cell_lacks('I');
    lemma_pass_cell(x1, "__ALERT_COUNT__"@, y1, "__ID__"@, r.id@, 'I');
    let x2 = replace_all(x1, "__ID__"@, r.id@);
    let y2 = replace_all(y1, "__ID__"@, r.id@);
    assert(!"__START_TIME__"@.contains('>') && "__START_TIME__"@.contains('S')) by {
        reveal_strlit("__START_TIME__");
        assert("__START_TIME__"@[2] == 'S');
        assert forall|i: int| 0 <= i < "__START_TIME__"@.len() implies "__START_TIME__"@[i] != '>' by {}
    }
    lemma_cell_lacks('S');
    lemma_pass_cell(x2, "__ALERT_COUNT__"@, y2, "__START_TIME__"@, r.start_time@, 'S');
    let x3 = replace_all(x2, "__START_TIME__"@, r.start_time@);
    let y3 = replace_all(y2, "__START_TIME__"@, r.start_time@);
    assert(!"__DURATION__"@.contains('>') && "__DURATION__"@.contains('D')) by {
        reveal_strlit("__DURATION__");
        assert("__DURATION__"@[2] == 'D');
        assert forall|i: int| 0 <= i < "__DURATION__"@.len() implies "__DURATION__"@[i] != '>' by {}
    }
    lemma_cell_lacks('D');
    lemma_pass_cell(x3, "__ALERT_COUNT__"@, y3, "__DURATION__"@, r.duration_text@, 'D');
    let x4 = replace_all(x3, "__DURATION__"@, r.duration_text@);
    let y4 = replace_all(y3, "__DURATION__"@, r.duration_text@);
    assert(!"__DISTANCE__"@.contains('>') && "__DISTANCE__"@.contains('D')) by {
        reveal_strlit("__DISTANCE__");
        assert("__DISTANCE__"@[2] == 'D');
        assert forall|i: int| 0 <= i < "__DISTANCE__"@.len() implies "__DISTANCE__"@[i] != '>' by {}
    }
    lemma_cell_lacks('D');
    lemma_pass_cell(x4, "__ALERT_COUNT__"@, y4, "__DISTANCE__"@, r.distance_text@, 'D');
    let x5 = replace_all(x4, "__DISTANCE__"@, r.distance_text@);
    let y5 = replace_all(y4, "__DISTANCE__"@, r.distance_text@);
    assert(!"__MAX_ALT__"@.contains('>') && "__MAX_ALT__"@.contains('M')) by {
        reveal_strlit("__MAX_ALT__");
        assert("__MAX_ALT__"@[2] == 'M');
        assert forall|i: int| 0 <= i < "__MAX_ALT__"@.len() implies "__MAX_ALT__"@[i] != '>' by {}
    }
    lemma_cell_lacks('M');
    lemma_pass_cell(x5, "__ALERT_COUNT__"@, y5, "__MAX_ALT__"@, r.max_altitude_text@, 'M');
    let x6 = replace_all(x5, "__MAX_ALT__"@, r.max_altitude_text@);
    let y6 = replace_all(y5, "__MAX_ALT__"@, r.max_altitude_text@);
    assert(!"__BATTERY__"@.contains('>') && "__BATTERY__"@.contains('B')) by {
        reveal_strlit("__BATTERY__");
        assert("__BATTERY__"@[2] == 'B');
        assert forall|i: int| 0 <= i < "__BATTERY__"@.len() implies "__BATTERY__"@[i] != '>' by {}
    }
    lemma_cell_lacks('B');
    lemma_pass_cell(x6, "__ALERT_COUNT__"@, y6, "__BATTERY__"@, r.battery_text@, 'B');
    let x7 = replace_all(x6, "__BATTERY__"@, r.battery_text@);
    let y7 = replace_all(y6, "__BATTERY__"@, r.battery_text@);
    lemma_fill_count(x7, y7, n);
    let x8 = replace_all(x7, "__ALERT_COUNT__"@, decimal(n));
    let y8 = replace_all(y7, "__ALERT_COUNT__"@, decimal(n));
    assert(!"__RAW_POINTS__"@.contains('>') && "__RAW_POINTS__"@.contains('_')) by {
        reveal_strlit("__RAW_POINTS__");
        assert("__RAW_POINTS__"@[0] == '_');
        assert forall|i: int| 0 <= i < "__RAW_POINTS__"@.len() implies "__RAW_POINTS__"@[i] != '>' by {}
    }
    lemma_pass_cell(x8, decimal(n), y8, "__RAW_POINTS__"@, points_text(strings_view(r.raw_points@)), '_');
    let x9 = replace_all(x8, "__RAW_POINTS__"@, points_text(strings_view(r.raw_points@)));
    let y9 = replace_all(y8, "__RAW_POINTS__"@, points_text(strings_view(r.raw_points@)));
    assert(!"__FILTERED_POINTS__"@.contains('>') && "__FILTERED_POINTS__"@.contains('_')) by {
        reveal_strlit("__FILTERED_POINTS__");
        assert("__FILTERED_POINTS__"@[0] == '_');
        assert forall|i: int| 0 <= i < "__FILTERED_POINTS__"@.len() implies "__FILTERED_POINTS__"@[i] != '>' by {}
    }
    lemma_pass_cell(x9, decimal(n), y9, "__FILTERED_POINTS__"@, points_text(strings_view(r.filtered_points@)), '_');
    let x10 = replace_all(x9, "__FILTERED_POINTS__"@, points_text(strings_view(r.filtered_points@)));
    let y10 = replace_all(y9, "__FILTERED_POINTS__"@, points_text(strings_view(r.filtered_points@)));
    assert(!"__ALERT_ROWS__"@.contains('>') && "__ALERT_ROWS__"@.contains('_')) by {
        reveal_strlit("__ALERT_ROWS__");
        assert("__ALERT_ROWS__"@[0] == '_');
        assert forall|i: int| 0 <= i < "__ALERT_ROWS__"@.len() implies "__ALERT_ROWS__"@[i] != '>' by {}
    }
    lemma_pass_cell(x10, decimal(n), y10, "__ALERT_ROWS__"@, alert_rows(alerts_view(r.alerts@)), '_');
    let x11 = replace_all(x10, "__ALERT_ROWS__"@, alert_rows(alerts_view(r.alerts@)));
    let y11 = replace_all(y10, "__ALERT_ROWS__"@, alert_rows(alerts_view(r.alerts@)));
    assert(!"__EVENT_ROWS__"@.contains('>') && "__EVENT_ROWS__"@.contains('_')) by {
        reveal_strlit("__EVENT_ROWS__");
        assert("__EVENT_ROWS__"@[0] == '_');
        assert forall|i: int| 0 <= i < "__EVENT_ROWS__"@.len() implies "__EVENT_ROWS__"@[i] != '>' by {}
    }
    lemma_pass_cell(x11, decimal(n), y11, "__EVENT_ROWS__"@, event_rows(events_view(r.events@)), '_');
    let x12 = replace_all(x11, "__EVENT_ROWS__"@, event_rows(events_view(r.events@)));
    let y12 = replace_all(y11, "__EVENT_ROWS__"@, event_rows(events_view(r.events@)));
    assert(report_text(r) == x12 + c1 + y12);
}

} // verus!
