use vstd::prelude::*;
use crate::app::{App, Elapsed, InputMode, TableCursor, TimestampMode};
use crate::store::ParsedEvent;
use crate::text::{chars_of, decimal_spec, decimal_text, extend_chars, extend_str, hex_spec, hex_text, string_of};
use crate::timefmt::{format_timestamp_full, timestamp_spec, EPOCH_DIFF};

verus! {

/* ---------- The event table window ---------- */

/// Width of the timestamp column.
pub const TIMESTAMP_COL_WIDTH: u16 = 26;

/// The first row shown so that `selected` is inside a window of `view_height`
/// rows that starts at `offset` whenever possible.
pub open spec fn effective_offset_spec(selected: usize, offset: usize, view_height: usize) -> usize {
    if selected < offset {
        selected
    } else if selected >= offset + view_height {
        if selected >= view_height - 1 {
            (selected - (view_height - 1)) as usize
        } else {
            0
        }
    } else {
        offset
    }
}

/// Scrolling the table keeps the selected row within the rows in view.
pub proof fn lemma_selection_in_view(selected: usize, offset: usize, view_height: usize)
    requires
        view_height > 0,
    ensures
        effective_offset_spec(selected, offset, view_height) <= selected,
        selected < effective_offset_spec(selected, offset, view_height) + view_height,
{
}

/// The part of the table that is drawn.
#[derive(Debug)]
pub struct TableWindow {
    /// The event indices of the rows drawn.
    pub rows: Vec<usize>,
    /// The visible row number of `rows[0]`.
    pub first_row: usize,
    /// The selected row, counted from `first_row`.
    pub selected_in_window: usize,
    /// The selected row.
    pub selected: usize,
    /// Number of visible rows.
    pub total: usize,
    /// The selected row is the current search match.
    pub on_search_match: bool,
    /// The visual selection (lo, hi), if any.
    pub visual: Option<(usize, usize)>,
}

impl TableWindow {
    /// Row `p` of the window lies in the visual selection.
    pub fn in_selection(&self, p: usize) -> (b: bool)
        requires
            self.first_row + p <= usize::MAX,
        ensures
            b == (match self.visual {
                Some((lo, hi)) => lo <= self.first_row + p <= hi,
                None => false,
            }),
    {
        match self.visual {
            Some((lo, hi)) => {
                let row = self.first_row + p;
                row >= lo && row <= hi
            },
            None => false,
        }
    }
}

/// The selected row after the table makes sure one is selected.
pub open spec fn table_selected(a: App) -> usize {
    if a.table_state.selected is None && a.visible_spec().len() > 0 {
        0
    } else {
        a.cursor()
    }
}

/// Lays out the event table for a view of `view_height` rows: selects the first
/// row when none is, scrolls so that the selection is in view, and returns what
/// is to be drawn (the rows, the selection within them, and the highlights).
#[verifier::rlimit(40)]
pub fn layout_table(app: &mut App, view_height: usize) -> (w: TableWindow)
    requires
        old(app).wf(),
        view_height > 0 || table_selected(*old(app)) < old(app).table_state.offset,
        table_selected(*old(app)) >= old(app).table_state.offset ==> old(app).table_state.offset
            + view_height <= usize::MAX,
        effective_offset_spec(table_selected(*old(app)), old(app).table_state.offset, view_height)
            + view_height + 4 <= usize::MAX,
        effective_offset_spec(table_selected(*old(app)), old(app).table_state.offset, view_height)
            <= old(app).visible_spec().len(),
    ensures
        final(app).wf(),
        ({
            let a = *old(app);
            let vis = a.visible_spec();
            let sel = table_selected(a);
            let start = effective_offset_spec(sel, a.table_state.offset, view_height);
            let end = if start + view_height + 4 <= vis.len() {
                start + view_height + 4
            } else {
                vis.len() as int
            };
            &&& w.first_row == start
            &&& w.selected == sel
            &&& w.total == vis.len()
            &&& w.rows@ == vis.subrange(start as int, end)
            &&& w.selected_in_window == (if sel >= start {
                (sel - start) as usize
            } else {
                0
            })
            &&& w.on_search_match == (match a.search_match_pos {
                Some(p) => p < a.search_matches@.len() && a.search_matches@[p as int] == sel,
                None => false,
            })
            &&& w.visual == a.visual_span()
            &&& *final(app) == (App {
                table_state: TableCursor {
                    selected: if a.table_state.selected is None && vis.len() > 0 {
                        Some(0usize)
                    } else {
                        a.table_state.selected
                    },
                    offset: start,
                },
                visible_cache: final(app).visible_cache,
                ..a
            })
        }),
{
    let ghost a = *app;
    let visible = vstd::slice::slice_to_vec(app.visible_indices());
    let total = visible.len();
    if app.table_state.selected().is_none() && total > 0 {
        app.table_state.select(Some(0));
    }
    let selected = match app.table_state.selected() {
        Some(s) => s,
        None => 0,
    };
    let offset = app.table_state.offset();
    let effective_offset = if selected < offset {
        selected
    } else if selected >= offset + view_height {
        selected.saturating_sub(view_height - 1)
    } else {
        offset
    };
    let render_start = effective_offset;
    let render_end = if effective_offset + view_height + 4 <= total {
        effective_offset + view_height + 4
    } else {
        total
    };
    app.table_state.set_offset(render_start);
    let selected_in_window = selected.saturating_sub(render_start);
    let on_search_match = match app.search_match_pos {
        Some(pos) => pos < app.search_matches.len() && app.search_matches[pos] == selected,
        None => false,
    };
    let visual = app.visual_range();
    let mut rows: Vec<usize> = Vec::new();
    let mut i = render_start;
    while i < render_end
        invariant
            render_start <= i <= render_end <= visible@.len(),
            rows@ == visible@.subrange(render_start as int, i as int),
        decreases render_end - i,
    {
        rows.push(visible[i]);
        i = i + 1;
    }
    TableWindow {
        rows,
        first_row: render_start,
        selected_in_window,
        selected,
        total,
        on_search_match,
        visual,
    }
}

/// Width left for the message column.
pub fn message_column_width(table_width: u16, show_source: bool) -> (w: usize)
    ensures
        w == (if show_source {
            if table_width >= 26 + 18 + 3 {
                table_width - (26 + 18 + 3)
            } else {
                0
            }
        } else {
            if table_width >= 26 + 2 {
                table_width - (26 + 2)
            } else {
                0
            }
        }),
{
    if show_source {
        table_width.saturating_sub(TIMESTAMP_COL_WIDTH + 18 + 3) as usize
    } else {
        table_width.saturating_sub(TIMESTAMP_COL_WIDTH + 2) as usize
    }
}

/* ---------- The position indicator ---------- */

/// The track of the position indicator (its height below the first line) and the
/// row of its marker, or `None` when there is nothing to draw.
pub open spec fn indicator_spec(width: u16, height: u16, total: usize, selected: usize) -> Option<
    (usize, usize),
> {
    if width == 0 || height <= 1 || total == 0 {
        None
    } else {
        let track = (height - 1) as usize;
        let product = selected * (track - 1);
        let sat = if product <= usize::MAX {
            product
        } else {
            usize::MAX as int
        };
        Some(
            (
                track,
                if total <= 1 {
                    0
                } else {
                    (sat / (total - 1)) as usize
                },
            ),
        )
    }
}

/// The marker of the position indicator stays on its track while the
/// selected row is one of the rows.
pub proof fn lemma_marker_on_track(width: u16, height: u16, total: usize, selected: usize)
    requires
        selected < total,
    ensures
        indicator_spec(width, height, total, selected) matches Some((track, row)) ==> row < track,
{
    if !(width == 0 || height <= 1 || total == 0) && total > 1 {
        let track = (height - 1) as int;
        let product = selected * (track - 1);
        let d = total - 1;
        assert(product <= d * (track - 1)) by (nonlinear_arith)
            requires
                0 <= selected <= d,
                track >= 1,
                product == selected * (track - 1),
        ;
        let sat = if product <= usize::MAX {
            product
        } else {
            usize::MAX as int
        };
        assert(sat <= d * (track - 1));
        assert(sat / d <= track - 1) by (nonlinear_arith)
            requires
                0 <= sat <= d * (track - 1),
                d > 0,
                track >= 1,
        {
            vstd::arithmetic::div_mod::lemma_div_is_ordered(sat, d * (track - 1), d);
            vstd::arithmetic::div_mod::lemma_div_by_multiple(track - 1, d);
            vstd::arithmetic::mul::lemma_mul_is_commutative(d, track - 1);
        }
    }
}

/// Where the marker of the scrollbar-like position indicator goes.
pub fn indicator_marker(width: u16, height: u16, total: usize, selected: usize) -> (r: Option<
    (usize, usize),
>)
    ensures
        r == indicator_spec(width, height, total, selected),
{
    if width == 0 || height <= 1 || total == 0 {
        return None;
    }
    let track_height = (height - 1) as usize;
    let marker_row = if total <= 1 {
        0
    } else {
        let product = match selected.checked_mul(track_height - 1) {
            Some(p) => p,
            None => usize::MAX,
        };
        product / (total - 1)
    };
    Some((track_height, marker_row))
}

/* ---------- Small texts ---------- */

/// The name of an event level.
pub open spec fn level_name(level: u8) -> Seq<char> {
    if level == 1 {
        "Critical"@
    } else if level == 2 {
        "Error"@
    } else if level == 3 {
        "Warning"@
    } else if level == 4 {
        "Info"@
    } else if level == 5 {
        "Verbose"@
    } else if level == 0 {
        "None"@
    } else {
        "?"@
    }
}

/// The name of an event level.
pub fn level_str(level: u8) -> (s: &'static str)
    ensures
        s@ == level_name(level),
{
    match level {
        1 => "Critical",
        2 => "Error",
        3 => "Warning",
        4 => "Info",
        5 => "Verbose",
        0 => "None",
        _ => "?",
    }
}

/// The source column of an event: `[cpu]pid.tid`, the ids in upper-case hex.
pub open spec fn source_spec(e: ParsedEvent) -> Seq<char> {
    "["@ + decimal_spec(e.cpu as nat) + "]"@ + hex_spec(e.pid as nat, true) + "."@ + hex_spec(
        e.tid as nat,
        true,
    )
}

pub fn source_text(evt: &ParsedEvent) -> (s: String)
    ensures
        s@ == source_spec(*evt),
{
    let mut out = chars_of("[");
    extend_str(&mut out, decimal_text(evt.cpu as u64).as_str());
    extend_str(&mut out, "]");
    extend_str(&mut out, hex_text(evt.pid as u64, true, 0).as_str());
    extend_str(&mut out, ".");
    extend_str(&mut out, hex_text(evt.tid as u64, true, 0).as_str());
    string_of(out.as_slice())
}

/// The area of the detail popup on a screen of `width` by `height` cells:
/// `(x, y, w, h)`, most of the screen but at least 40 by 10, centred.
pub open spec fn popup_spec(width: u16, height: u16) -> (u16, u16, u16, u16) {
    let w = if width >= 48 {
        (width - 8) as u16
    } else {
        40u16
    };
    let h = if height >= 16 {
        (height - 6) as u16
    } else {
        10u16
    };
    let x = if width >= w {
        ((width - w) / 2) as u16
    } else {
        0u16
    };
    let y = if height >= h {
        ((height - h) / 2) as u16
    } else {
        0u16
    };
    (x, y, w, h)
}

pub fn detail_popup_area(width: u16, height: u16) -> (r: (u16, u16, u16, u16))
    ensures
        r == popup_spec(width, height),
{
    let sw = width.saturating_sub(8);
    let w = if sw > 40 {
        sw
    } else {
        40
    };
    let sh = height.saturating_sub(6);
    let h = if sh > 10 {
        sh
    } else {
        10
    };
    let x = width.saturating_sub(w) / 2;
    let y = height.saturating_sub(h) / 2;
    (x, y, w, h)
}

/// The text of the detail view of event `e` whose full timestamp reads `ts`.
pub open spec fn detail_spec(e: ParsedEvent, ts: Seq<char>) -> Seq<char> {
    "Timestamp: "@ + ts + "\nCPU: "@ + decimal_spec(e.cpu as nat) + "  PID: "@ + hex_spec(
        e.pid as nat,
        true,
    ) + " ("@ + decimal_spec(e.pid as nat) + ")  TID: "@ + hex_spec(e.tid as nat, true) + " ("@
        + decimal_spec(e.tid as nat) + ")\nProvider:  "@ + e.provider_name@ + "\nEvent ID:  "@
        + decimal_spec(e.event_id as nat) + "  Level: "@ + level_name(e.level) + " ("@
        + decimal_spec(e.level as nat) + ")  Opcode: "@ + decimal_spec(e.opcode as nat) + "\n\n"@
        + e.message@
}

/// The text of the detail view of an event: its full timestamp, CPU, process
/// and thread (hex and decimal), provider, id, level and opcode, then its
/// message.
pub fn detail_text(evt: &ParsedEvent, mode: TimestampMode) -> (s: String)
    requires
        evt.timestamp >= i64::MIN + EPOCH_DIFF,
    ensures
        exists|ts: Seq<char>|
            timestamp_spec(
                evt.timestamp,
                mode == TimestampMode::Utc,
                if mode == TimestampMode::Utc {
                    "%Y-%m-%d %H:%M:%S%.9f UTC"@
                } else {
                    "%Y-%m-%d %H:%M:%S%.9f %Z"@
                },
                ts,
            ) && s@ == detail_spec(*evt, ts),
{
    let ts = format_timestamp_full(evt.timestamp, mode);
    let mut out = chars_of("Timestamp: ");
    extend_str(&mut out, ts.as_str());
    extend_str(&mut out, "\nCPU: ");
    extend_str(&mut out, decimal_text(evt.cpu as u64).as_str());
    extend_str(&mut out, "  PID: ");
    extend_str(&mut out, hex_text(evt.pid as u64, true, 0).as_str());
    extend_str(&mut out, " (");
    extend_str(&mut out, decimal_text(evt.pid as u64).as_str());
    extend_str(&mut out, ")  TID: ");
    extend_str(&mut out, hex_text(evt.tid as u64, true, 0).as_str());
    extend_str(&mut out, " (");
    extend_str(&mut out, decimal_text(evt.tid as u64).as_str());
    extend_str(&mut out, ")\nProvider:  ");
    extend_str(&mut out, evt.provider_name.as_str());
    extend_str(&mut out, "\nEvent ID:  ");
    extend_str(&mut out, decimal_text(evt.event_id as u64).as_str());
    extend_str(&mut out, "  Level: ");
    extend_str(&mut out, level_str(evt.level));
    extend_str(&mut out, " (");
    extend_str(&mut out, decimal_text(evt.level as u64).as_str());
    extend_str(&mut out, ")  Opcode: ");
    extend_str(&mut out, decimal_text(evt.opcode as u64).as_str());
    extend_str(&mut out, "\n\n");
    extend_str(&mut out, evt.message.as_str());
    let s = string_of(out.as_slice());
    assert(s@ == detail_spec(*evt, ts@));
    s
}

/// Milliseconds below 1000 as three digits.
pub open spec fn three_digits(m: nat) -> Seq<char> {
    let d = decimal_spec(m);
    if d.len() >= 3 {
        d
    } else {
        Seq::new((3 - d.len()) as nat, |i: int| '0') + d
    }
}

/// `123ms` below one second, else `1.234s`.
pub open spec fn duration_spec(d: Elapsed) -> Seq<char> {
    let millis = (d.nanos / 1_000_000) as nat;
    if d.secs == 0 {
        decimal_spec(millis) + "ms"@
    } else {
        decimal_spec(d.secs as nat) + "."@ + three_digits(millis) + "s"@
    }
}

/// Formats how long parsing took.
pub fn format_duration(duration: Elapsed) -> (s: String)
    ensures
        s@ == duration_spec(duration),
{
    let millis = duration.nanos / 1_000_000;
    let mut out: Vec<char> = Vec::new();
    if duration.secs == 0 {
        extend_str(&mut out, decimal_text(millis as u64).as_str());
        extend_str(&mut out, "ms");
    } else {
        extend_str(&mut out, decimal_text(duration.secs).as_str());
        extend_str(&mut out, ".");
        let m = chars_of(decimal_text(millis as u64).as_str());
        let ghost before = out@;
        let mut pad: usize = 0;
        while pad + m.len() < 3
            invariant
                out@ == before + Seq::new(pad as nat, |i: int| '0'),
                pad + m@.len() <= 3 || pad == 0,
            decreases 3 - pad,
        {
            out.push('0');
            pad = pad + 1;
            assert(out@ == before + Seq::new(pad as nat, |i: int| '0'));
        }
        let ghost padded = out@;
        extend_chars(&mut out, &m);
        proof {
            if m@.len() >= 3 {
                assert(pad == 0);
                assert(padded == before);
            } else {
                assert(Seq::new(pad as nat, |i: int| '0') == Seq::new((3 - m@.len()) as nat, |i: int| '0'));
            }
            assert(out@ == before + three_digits(millis as nat));
        }
        extend_str(&mut out, "s");
    }
    string_of(out.as_slice())
}

/* ---------- The status and input line ---------- */

/// The key help shown after the status.
pub open spec fn key_help() -> Seq<char> {
    " | q quit  / search  f filter  F clear  v select  c copy  s src  t time  w wrap  ? help  PgUp/^U PgDn/^D page  ←→ scroll  Enter detail "@
}

/// The status line of the table view at `now_ms`.
pub open spec fn status_spec(a: App, now_ms: u64) -> Seq<char> {
    let time_mode = if a.timestamp_mode == TimestampMode::Utc {
        "UTC"@
    } else {
        "Local"@
    };
    let summary = match a.active_filter_desc {
        Some(d) => decimal_spec(a.visible_spec().len()) + "/"@ + decimal_spec(a.store@.len())
            + " events | filter "@ + d@,
        None => decimal_spec(a.store@.len()) + " events"@,
    };
    let shown = a.parse_done && a.parse_elapsed is Some && match a.parse_elapsed_visible_until {
        Some(deadline) => now_ms <= deadline,
        None => false,
    };
    let parse = if shown {
        match a.parse_elapsed {
            Some(e) => " | parsed in "@ + duration_spec(e),
            None => Seq::<char>::empty(),
        }
    } else if a.parse_done {
        Seq::<char>::empty()
    } else {
        " | loading"@
    };
    let provider = a.selected_provider_spec();
    let provider_part = if provider.len() == 0 {
        Seq::<char>::empty()
    } else {
        " | "@ + provider
    };
    " "@ + summary + " ["@ + time_mode + "]"@ + provider_part + parse + key_help()
}

/// The title and the text of the input line in the current mode.
pub open spec fn input_bar_spec(a: App, now_ms: u64) -> (Seq<char>, Seq<char>) {
    match a.input_mode {
        InputMode::Normal => ("Status"@, status_spec(a, now_ms)),
        InputMode::Search => ("Search"@, "/"@ + a.input_buffer@),
        InputMode::Filter => ("Filter"@, "filter> "@ + a.input_buffer@),
        InputMode::Detail => ("Detail"@, " ↑↓ scroll  PgUp/^U PgDn/^D page  Esc close "@),
        InputMode::Visual => {
            let lo = if a.visual_anchor <= a.cursor() {
                a.visual_anchor
            } else {
                a.cursor()
            };
            let hi = if a.visual_anchor <= a.cursor() {
                a.cursor()
            } else {
                a.visual_anchor
            };
            (
                "Visual"@,
                " -- VISUAL -- "@ + decimal_spec((hi - lo + 1) as nat)
                    + " lines selected | ↑↓ move  PgUp/^U PgDn/^D page  y yank  Esc cancel "@,
            )
        },
        InputMode::Help => ("Help"@, " Press any key to close "@),
    }
}

fn summary_part(app: &App) -> (v: Vec<char>)
    requires
        app.wf(),
    ensures
        v@ == (match app.active_filter_desc {
            Some(d) => decimal_spec(app.visible_spec().len()) + "/"@ + decimal_spec(app.store@.len())
                + " events | filter "@ + d@,
            None => decimal_spec(app.store@.len()) + " events"@,
        }),
{
    let mut out: Vec<char> = Vec::new();
    match &app.active_filter_desc {
        Some(d) => {
            extend_str(&mut out, decimal_text(app.visible_count() as u64).as_str());
            extend_str(&mut out, "/");
            extend_str(&mut out, decimal_text(app.store.len() as u64).as_str());
            extend_str(&mut out, " events | filter ");
            extend_str(&mut out, d.as_str());
        },
        None => {
            extend_str(&mut out, decimal_text(app.store.len() as u64).as_str());
            extend_str(&mut out, " events");
        },
    }
    out
}

fn parse_part(app: &App, now_ms: u64) -> (v: Vec<char>)
    ensures
        v@ == (if app.parse_done && app.parse_elapsed is Some && match app.parse_elapsed_visible_until {
            Some(deadline) => now_ms <= deadline,
            None => false,
        } {
            match app.parse_elapsed {
                Some(e) => " | parsed in "@ + duration_spec(e),
                None => Seq::<char>::empty(),
            }
        } else if app.parse_done {
            Seq::<char>::empty()
        } else {
            " | loading"@
        }),
{
    let mut out: Vec<char> = Vec::new();
    if app.should_show_parse_elapsed(now_ms) {
        if let Some(elapsed) = app.parse_elapsed {
            extend_str(&mut out, " | parsed in ");
            extend_str(&mut out, format_duration(elapsed).as_str());
        }
    } else if !app.parse_done {
        extend_str(&mut out, " | loading");
    }
    out
}

fn provider_part(app: &App) -> (v: Vec<char>)
    requires
        app.wf(),
    ensures
        v@ == (if app.selected_provider_spec().len() == 0 {
            Seq::<char>::empty()
        } else {
            " | "@ + app.selected_provider_spec()
        }),
{
    let mut out: Vec<char> = Vec::new();
    let provider = app.selected_provider_name();
    if !provider.is_empty() {
        extend_str(&mut out, " | ");
        extend_str(&mut out, provider);
    }
    out
}

/// The status line of the table view.
pub fn status_line(app: &App, now_ms: u64) -> (s: String)
    requires
        app.wf(),
    ensures
        s@ == status_spec(*app, now_ms),
{
    let mut out: Vec<char> = Vec::new();
    extend_str(&mut out, " ");
    let summary = summary_part(app);
    extend_chars(&mut out, &summary);
    extend_str(&mut out, " [");
    if app.timestamp_mode == TimestampMode::Utc {
        extend_str(&mut out, "UTC");
    } else {
        extend_str(&mut out, "Local");
    }
    extend_str(&mut out, "]");
    let provider = provider_part(app);
    extend_chars(&mut out, &provider);
    let parse = parse_part(app, now_ms);
    extend_chars(&mut out, &parse);
    extend_str(
        &mut out,
        " | q quit  / search  f filter  F clear  v select  c copy  s src  t time  w wrap  ? help  PgUp/^U PgDn/^D page  ←→ scroll  Enter detail ",
    );
    string_of(out.as_slice())
}

/// The title and the text of the input line at the bottom of the screen.
pub fn input_bar(app: &App, now_ms: u64) -> (r: (&'static str, String))
    requires
        app.wf(),
        app.input_mode == InputMode::Visual ==> (if app.visual_anchor <= app.cursor() {
            app.cursor() - app.visual_anchor
        } else {
            app.visual_anchor - app.cursor()
        }) < usize::MAX,
    ensures
        r.0@ == input_bar_spec(*app, now_ms).0,
        r.1@ == input_bar_spec(*app, now_ms).1,
{
    let mut out: Vec<char> = Vec::new();
    match app.input_mode {
        InputMode::Normal => ("Status", status_line(app, now_ms)),
        InputMode::Search => {
            extend_str(&mut out, "/");
            extend_str(&mut out, app.input_buffer.as_str());
            ("Search", string_of(out.as_slice()))
        },
        InputMode::Filter => {
            extend_str(&mut out, "filter> ");
            extend_str(&mut out, app.input_buffer.as_str());
            ("Filter", string_of(out.as_slice()))
        },
        InputMode::Detail => {
            extend_str(&mut out, " ↑↓ scroll  PgUp/^U PgDn/^D page  Esc close ");
            ("Detail", string_of(out.as_slice()))
        },
        InputMode::Visual => {
            let selected = match app.table_state.selected() {
                Some(s) => s,
                None => 0,
            };
            let anchor = app.visual_anchor;
            let lo = if anchor <= selected {
                anchor
            } else {
                selected
            };
            let hi = if anchor <= selected {
                selected
            } else {
                anchor
            };
            let count = hi - lo + 1;
            extend_str(&mut out, " -- VISUAL -- ");
            extend_str(&mut out, decimal_text(count as u64).as_str());
            extend_str(
                &mut out,
                " lines selected | ↑↓ move  PgUp/^U PgDn/^D page  y yank  Esc cancel ",
            );
            ("Visual", string_of(out.as_slice()))
        },
        InputMode::Help => {
            extend_str(&mut out, " Press any key to close ");
            ("Help", string_of(out.as_slice()))
        },
    }
}

} // verus!
