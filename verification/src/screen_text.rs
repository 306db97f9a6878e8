//! Text the screens show that follows from integers alone: timestamps,
//! sensor lists, and the FLIGHTS list and its status line.
use vstd::prelude::*;
use crate::flight_index::IndexState;
use crate::link::LinkStatus;
use crate::nmea::{from_unix_ms, utc_of_unix_ms, UtcDateTime};
use crate::summary_request::SummaryRequest;
use crate::packet::{sensor_names_where, Sensor, Summary};

verus! {

/// The decimal digit `d` (0-9).
pub open spec fn digit_char(d: nat) -> char {
    (d + 48) as char
}

/// The decimal digits of `n`, without leading zeros.
pub open spec fn decimal(n: nat) -> Seq<char>
    decreases n,
{
    if n < 10 {
        seq![digit_char(n)]
    } else {
        decimal(n / 10).push(digit_char(n % 10))
    }
}

/// `n` in decimal, left-padded with zeros to at least `width` digits.
pub open spec fn zero_padded(n: nat, width: nat) -> Seq<char> {
    Seq::new(
        if decimal(n).len() < width {
            (width - decimal(n).len()) as nat
        } else {
            0
        },
        |i: int| '0',
    ) + decimal(n)
}

/// Append `n` in decimal.
pub(crate) fn push_decimal(s: &mut String, n: u32)
    ensures
        final(s)@ == old(s)@ + decimal(n as nat),
    decreases n,
{
    if n >= 10 {
        push_decimal(s, n / 10);
    }
    let c = ((n % 10) as u8 + 48) as char;
    crate::nmea::string_push(s, c);
    assert(final(s)@ =~= old(s)@ + decimal(n as nat));
}

fn decimal_len(n: u32) -> (r: usize)
    ensures
        r == decimal(n as nat).len(),
        r <= n as nat + 1,
    decreases n,
{
    if n >= 10 {
        decimal_len(n / 10) + 1
    } else {
        1
    }
}

fn push_padded(s: &mut String, n: u32, width: usize)
    ensures
        final(s)@ == old(s)@ + zero_padded(n as nat, width as nat),
{
    let len = decimal_len(n);
    let ghost start = s@;
    let mut k: usize = len;
    while k < width
        invariant
            len <= k <= if width > len { width } else { len },
            len == decimal(n as nat).len(),
            s@ == start + Seq::new((k - len) as nat, |i: int| '0'),
        decreases width - k,
    {
        crate::nmea::string_push(s, '0');
        k = k + 1;
        assert(s@ =~= start + Seq::new((k - len) as nat, |i: int| '0'));
    }
    push_decimal(s, n);
    assert(s@ =~= start + zero_padded(n as nat, width as nat));
}

/// `YYYY-MM-DD HH:MM:SSZ` for `dt`, each number zero-padded.
pub open spec fn utc_stamp_text(dt: UtcDateTime) -> Seq<char> {
    zero_padded(dt.year as nat, 4) + seq!['-'] + zero_padded(dt.month as nat, 2) + seq!['-']
        + zero_padded(dt.day as nat, 2) + seq![' '] + zero_padded(dt.hour as nat, 2) + seq![':']
        + zero_padded(dt.minute as nat, 2) + seq![':'] + zero_padded(dt.second as nat, 2) + seq!['Z']
}

/// The header's clock and the SUMMARY screen's arm time.
pub fn utc_stamp(dt: &UtcDateTime) -> (r: String)
    ensures
        r@ == utc_stamp_text(*dt),
{
    let mut s = String::new();
    push_padded(&mut s, dt.year as u32, 4);
    crate::nmea::string_push(&mut s, '-');
    push_padded(&mut s, dt.month as u32, 2);
    crate::nmea::string_push(&mut s, '-');
    push_padded(&mut s, dt.day as u32, 2);
    crate::nmea::string_push(&mut s, ' ');
    push_padded(&mut s, dt.hour as u32, 2);
    crate::nmea::string_push(&mut s, ':');
    push_padded(&mut s, dt.minute as u32, 2);
    crate::nmea::string_push(&mut s, ':');
    push_padded(&mut s, dt.second as u32, 2);
    crate::nmea::string_push(&mut s, 'Z');
    assert(s@ =~= utc_stamp_text(*dt));
    s
}

/// `names` joined with single spaces.
pub open spec fn joined(names: Seq<&'static str>) -> Seq<char>
    decreases names.len(),
{
    if names.len() == 0 {
        Seq::empty()
    } else if names.len() == 1 {
        names[0]@
    } else {
        joined(names.drop_last()) + seq![' '] + names.last()@
    }
}

/// The DIAG screen's sensor list: the names of the sensors whose bit in
/// `raw` is set (`up`) or clear (not `up`), separated by spaces.
pub fn sensor_list(raw: u8, up: bool) -> (r: String)
    ensures
        r@ == joined(sensor_names_where(raw, up)),
{
    let names = if up {
        Sensor::present(raw)
    } else {
        Sensor::missing(raw)
    };
    let mut out = String::new();
    let mut i: usize = 0;
    while i < names.len()
        invariant
            i <= names@.len(),
            names@ == sensor_names_where(raw, up),
            out@ == joined(names@.take(i as int)),
        decreases names@.len() - i,
    {
        let ghost before = names@.take(i as int);
        assert(names@.take(i + 1).drop_last() =~= before);
        if i > 0 {
            crate::nmea::string_push(&mut out, ' ');
        } else {
            assert(out@ =~= Seq::<char>::empty());
        }
        out.append(names[i]);
        i = i + 1;
        assert(out@ =~= joined(names@.take(i as int)));
    }
    assert(names@.take(names@.len() as int) =~= names@);
    out
}

/// What the FLIGHTS screen shows for the state of the flight index.
#[derive(Debug, Clone, Copy, PartialEq, Eq, Structural)]
pub enum FlightsView {
    /// Nothing fetched and the rocket is not heard from.
    Unavailable,
    Loading,
    Failed,
    NoLogs,
    List { count: u8 },
}

/// The FLIGHTS screen's content for an index state and link freshness.
pub fn flights_view(state: IndexState, status: LinkStatus) -> (r: FlightsView)
    ensures
        r == (match state {
            IndexState::Idle => if status == LinkStatus::Lost {
                FlightsView::Unavailable
            } else {
                FlightsView::Loading
            },
            IndexState::Pending { .. } => FlightsView::Loading,
            IndexState::Failed => FlightsView::Failed,
            IndexState::Empty => FlightsView::NoLogs,
            IndexState::Ready { count } => FlightsView::List { count },
        }),
{
    match state {
        IndexState::Idle => if status == LinkStatus::Lost {
            FlightsView::Unavailable
        } else {
            FlightsView::Loading
        },
        IndexState::Pending { .. } => FlightsView::Loading,
        IndexState::Failed => FlightsView::Failed,
        IndexState::Empty => FlightsView::NoLogs,
        IndexState::Ready { count } => FlightsView::List { count },
    }
}

/// Rows the FLIGHTS list has room for.
pub const MAX_VISIBLE_ROWS: u8 = 7;

/// One row of the FLIGHTS list: its 1-based flight number and whether the
/// cursor is on it.
#[derive(Debug, Clone, Copy, PartialEq, Eq, Structural)]
pub struct FlightRow {
    pub number: u16,
    pub selected: bool,
}

/// The visible rows of a list of `count` flights with the cursor at
/// `selected`, and how many more flights do not fit.
pub fn flight_rows(count: u8, selected: u8) -> (r: (Vec<FlightRow>, Option<u8>))
    ensures
        r.0@.len() == (if count < MAX_VISIBLE_ROWS {
            count
        } else {
            MAX_VISIBLE_ROWS
        }),
        forall|i: int|
            0 <= i < r.0@.len() ==> #[trigger] r.0@[i] == (FlightRow { number: (i + 1) as u16, selected: i == selected }),
        r.1 == (if count > MAX_VISIBLE_ROWS {
            Some((count - MAX_VISIBLE_ROWS) as u8)
        } else {
            None
        }),
{
    let visible = if count < MAX_VISIBLE_ROWS {
        count
    } else {
        MAX_VISIBLE_ROWS
    };
    let mut rows: Vec<FlightRow> = Vec::new();
    let mut i: u8 = 0;
    while i < visible
        invariant
            i <= visible <= MAX_VISIBLE_ROWS,
            rows@.len() == i,
            forall|k: int| 0 <= k < i ==> #[trigger] rows@[k] == (FlightRow { number: (k + 1) as u16, selected: k == selected }),
        decreases visible - i,
    {
        rows.push(FlightRow { number: i as u16 + 1, selected: i == selected });
        i = i + 1;
    }
    let more = if count > MAX_VISIBLE_ROWS {
        Some(count - MAX_VISIBLE_ROWS)
    } else {
        None
    };
    (rows, more)
}

/// A FLIGHTS list row as drawn: `>` on the selected row, else a space,
/// then `FLIGHT` and the flight number.
pub fn flight_row_text(row: FlightRow) -> (r: String)
    ensures
        r@ == seq![if row.selected { '>' } else { ' ' }] + "FLIGHT "@ + decimal(row.number as nat),
{
    let mut s = String::new();
    crate::nmea::string_push(&mut s, if row.selected { '>' } else { ' ' });
    s.append("FLIGHT ");
    push_decimal(&mut s, row.number as u32);
    s
}

/// The banner shown while flight summaries are fetched in the background:
/// `FETCHING LOGS: cached/total...`.
pub fn fetching_text(cached: u8, total: u8) -> (r: String)
    ensures
        r@ == "FETCHING LOGS: "@ + decimal(cached as nat) + seq!['/'] + decimal(total as nat) + "..."@,
{
    let mut s = "FETCHING LOGS: ".to_owned();
    push_decimal(&mut s, cached as u32);
    crate::nmea::string_push(&mut s, '/');
    push_decimal(&mut s, total as u32);
    s.append("...");
    s
}

/// The SUMMARY screen's message for a request that has no summary to
/// show (flight numbers are 1-based); nothing for a ready one, whose
/// summary is shown instead.
pub open spec fn request_lines(req: SummaryRequest) -> Seq<Seq<char>> {
    match req {
        SummaryRequest::Idle => seq!["NO FLIGHT SELECTED"@, "MENU to go back and pick one"@],
        SummaryRequest::Pending { index, .. } => seq![
            "REQUESTING FLIGHT "@ + decimal(index as nat + 1) + "..."@,
        ],
        SummaryRequest::Failed { index } => seq![
            "NO RESPONSE FOR FLIGHT "@ + decimal(index as nat + 1),
            "out of range, or link too weak"@,
            "MENU, then try again"@,
        ],
        SummaryRequest::Ready(_) => seq![],
    }
}

/// The SUMMARY screen's message lines for the state of its request.
pub fn request_text(req: &SummaryRequest) -> (r: Vec<String>)
    ensures
        r@.map_values(|s: String| s@) == request_lines(*req),
{
    let mut out: Vec<String> = Vec::new();
    match *req {
        SummaryRequest::Idle => {
            out.push("NO FLIGHT SELECTED".to_owned());
            out.push("MENU to go back and pick one".to_owned());
        },
        SummaryRequest::Pending { index, .. } => {
            let mut s = "REQUESTING FLIGHT ".to_owned();
            push_decimal(&mut s, index as u32 + 1);
            s.append("...");
            out.push(s);
        },
        SummaryRequest::Failed { index } => {
            let mut s = "NO RESPONSE FOR FLIGHT ".to_owned();
            push_decimal(&mut s, index as u32 + 1);
            out.push(s);
            out.push("out of range, or link too weak".to_owned());
            out.push("MENU, then try again".to_owned());
        },
        SummaryRequest::Ready(_) => {},
    }
    assert(out@.map_values(|s: String| s@) =~= request_lines(*req));
    out
}

/// The SUMMARY screen's title: `FLIGHT` and the 1-based flight number.
pub fn summary_title(s: &Summary) -> (r: String)
    ensures
        r@ == "FLIGHT "@ + decimal(s.flight_index as nat + 1),
{
    let mut t = "FLIGHT ".to_owned();
    push_decimal(&mut t, s.flight_index as u32 + 1);
    t
}

/// The start of the SUMMARY screen's log line: how many records the
/// flight logged (the rate and size estimates that follow need floating
/// point).
pub fn record_count_text(s: &Summary) -> (r: String)
    ensures
        r@ == decimal(s.record_count as nat) + " LOG RECORDS"@,
{
    let mut t = String::new();
    push_decimal(&mut t, s.record_count);
    t.append(" LOG RECORDS");
    t
}

/// The SUMMARY screen's arm-time line: the UTC time of ARM, or a note
/// that the rocket had no GPS time when it armed (`arm_epoch_s` is 0).
pub open spec fn arm_time_line(arm_epoch_s: u32) -> Seq<char> {
    if arm_epoch_s > 0 {
        "ARMED "@ + utc_stamp_text(utc_of_unix_ms(arm_epoch_s * 1000))
    } else {
        "ARMED: unknown (no GPS fix at arm)"@
    }
}

/// The arm-time line of a summary.
pub fn arm_time_text(s: &Summary) -> (r: String)
    ensures
        r@ == arm_time_line(s.arm_epoch_s),
{
    if s.arm_epoch_s > 0 {
        let dt = from_unix_ms(s.arm_epoch_s as i64 * 1000);
        let mut t = "ARMED ".to_owned();
        let stamp = utc_stamp(&dt);
        t.append(stamp.as_str());
        t
    } else {
        "ARMED: unknown (no GPS fix at arm)".to_owned()
    }
}

} // verus!
