use vstd::prelude::*;
use crate::app::TimestampMode;
use crate::store::{EventStore, ParsedEvent};
use crate::text::{extend_str, hex_padded_spec, hex_text, string_of};

verus! {

/// The text chrono gives for the UTC time `secs` seconds and `nanos`
/// nanoseconds after the Unix epoch (`DateTime::from_timestamp`) formatted with
/// `fmt`; `None` when chrono rejects the timestamp.
pub uninterp spec fn chrono_utc_text(secs: i64, nanos: u32, fmt: Seq<char>) -> Option<Seq<char>>;

/// The formats used here, all of which chrono can write.
pub open spec fn supported_format(fmt: Seq<char>) -> bool {
    ||| fmt == "%Y-%m-%d %H:%M:%S%.6f"@
    ||| fmt == "%Y-%m-%d %H:%M:%S%.9f UTC"@
    ||| fmt == "%Y-%m-%d %H:%M:%S%.9f %Z"@
}

/// `chrono_utc_text` of the instant `o` seconds after `secs`.
pub open spec fn shifted_utc_text(secs: i64, nanos: u32, fmt: Seq<char>, o: int) -> Option<Seq<char>> {
    chrono_utc_text((secs + o) as i64, nanos, fmt)
}

/// The format up to its zone: the zoned format without ` %Z`, any other as
/// it is.
pub open spec fn zoneless(fmt: Seq<char>) -> Seq<char> {
    if fmt == "%Y-%m-%d %H:%M:%S%.9f %Z"@ {
        "%Y-%m-%d %H:%M:%S%.9f"@
    } else {
        fmt
    }
}

/// Far enough from the ends of chrono's range that a shift by under a day
/// stays inside it, and not within a leap second.
pub open spec fn local_in_range(secs: i64, nanos: u32) -> bool {
    -8_000_000_000_000 <= secs <= 8_000_000_000_000 && nanos < 1_000_000_000
}

/// The ASCII digit of `d` (0 to 9).
pub open spec fn digit_char(d: int) -> char {
    (48 + d) as char
}

/// `v` (0 to 99) in two decimal digits.
pub open spec fn two_digits(v: int) -> Seq<char> {
    seq![digit_char(v / 10), digit_char(v % 10)]
}

/// How chrono writes a fixed offset of `o` seconds east of UTC as a zone
/// name: its sign, hours and minutes as `+HH:MM`, and `:SS` when the
/// seconds are not zero.
pub open spec fn offset_text(o: int) -> Seq<char> {
    let m = if o < 0 {
        -o
    } else {
        o
    };
    let sign = if o < 0 {
        '-'
    } else {
        '+'
    };
    let sec = m % 60;
    let min = (m / 60) % 60;
    let hour = (m / 60) / 60;
    seq![sign] + two_digits(hour) + seq![':'] + two_digits(min) + (if sec == 0 {
        Seq::<char>::empty()
    } else {
        seq![':'] + two_digits(sec)
    })
}

/// `text` is the time written in a zone less than a day away from UTC:
/// chrono's UTC text of the instant shifted by the zone's offset, followed,
/// for the zoned format, by a space and that offset as the zone's name.
pub open spec fn local_time_text(secs: i64, nanos: u32, fmt: Seq<char>, text: Seq<char>) -> bool {
    exists|o: int|
        #![trigger shifted_utc_text(secs, nanos, zoneless(fmt), o)]
        -86400 < o < 86400 && shifted_utc_text(secs, nanos, zoneless(fmt), o) is Some && ({
            let t = shifted_utc_text(secs, nanos, zoneless(fmt), o)->0;
            if fmt == "%Y-%m-%d %H:%M:%S%.9f %Z"@ {
                text == t + seq![' '] + offset_text(o)
            } else {
                text == t
            }
        })
}

pub open spec fn opt_view(o: Option<String>) -> Option<Seq<char>> {
    match o {
        Some(s) => Some(s@),
        None => None,
    }
}

/// `DateTime::from_timestamp(secs, nanos)` formatted in UTC with `fmt`. What the
/// text is, and which timestamps chrono rejects, is only named.
#[verifier::external_body]
fn utc_text(secs: i64, nanos: u32, fmt: &str) -> (r: Option<String>)
    requires
        supported_format(fmt@),
    ensures
        opt_view(r) == chrono_utc_text(secs, nanos, fmt@),
{
    match chrono::DateTime::from_timestamp(secs, nanos) {
        Some(dt) => Some(dt.format(fmt).to_string()),
        None => None,
    }
}

/// `DateTime::from_timestamp(secs, nanos)` converted to the local time zone
/// (`with_timezone(&Local)`) and formatted with `fmt`. It is `None` exactly
/// when the UTC text is (the same `from_timestamp` decides). The local offset
/// is a `FixedOffset`, which chrono keeps under a day, and the date and time
/// fields are written from the shifted instant; so, away from chrono's range
/// ends and leap seconds, the text is the UTC text of the instant shifted by
/// some offset under a day (then, for `%Z`, a space and that offset as
/// `FixedOffset` displays it). Which offset depends on the machine's time
/// zone and is not stated.
#[verifier::external_body]
fn local_text(secs: i64, nanos: u32, fmt: &str) -> (r: Option<String>)
    requires
        supported_format(fmt@),
    ensures
        r is Some <==> chrono_utc_text(secs, nanos, fmt@) is Some,
        r matches Some(t) ==> (local_in_range(secs, nanos) ==> local_time_text(secs, nanos, fmt@, t@)),
{
    match chrono::DateTime::from_timestamp(secs, nanos) {
        Some(dt) => {
            let local: chrono::DateTime<chrono::Local> = dt.into();
            Some(local.format(fmt).to_string())
        },
        None => None,
    }
}

/// 100-nanosecond intervals between 1601-01-01 and 1970-01-01.
pub const EPOCH_DIFF: i64 = 116_444_736_000_000_000;

/// Division truncating toward zero, as Rust's `/` on integers.
pub open spec fn trunc_div(a: int, d: int) -> int {
    if a >= 0 {
        a / d
    } else {
        -((-a) / d)
    }
}

/// Remainder with the sign of the dividend, as Rust's `%` on integers.
pub open spec fn trunc_rem(a: int, d: int) -> int {
    a - d * trunc_div(a, d)
}

/// An integer in `(-2^32, 2^32)` cast to `u32` (wrapping).
pub open spec fn wrap_u32(v: int) -> u32 {
    if v >= 0 {
        v as u32
    } else {
        (v + 0x1_0000_0000) as u32
    }
}

/// Seconds and nanoseconds (as `u32`, wrapping) of `v` 100-nanosecond units.
pub open spec fn split_100ns(v: int) -> (i64, u32) {
    (trunc_div(v, 10_000_000) as i64, wrap_u32(trunc_rem(v, 10_000_000) * 100))
}

fn split_units(v: i64) -> (r: (i64, u32))
    ensures
        r == split_100ns(v as int),
{
    let neg = v < 0;
    let mag: u64 = if neg {
        (0i128 - (v as i128)) as u64
    } else {
        v as u64
    };
    let q: u64 = mag / 10_000_000;
    let rem: u64 = mag % 10_000_000;
    let secs: i64 = if neg {
        0 - (q as i64)
    } else {
        q as i64
    };
    let scaled: u64 = rem * 100;
    let nanos: u32 = if neg && scaled != 0 {
        (0x1_0000_0000u64 - scaled) as u32
    } else {
        scaled as u32
    };
    (secs, nanos)
}

/// `0x` and the 16 lower-case hex digits of the two's-complement bits of `v`.
pub open spec fn raw_hex_spec(v: i64) -> Seq<char> {
    "0x"@ + hex_padded_spec((v as u64) as nat, false, 16)
}

fn raw_hex(v: i64) -> (s: String)
    ensures
        s@ == raw_hex_spec(v),
{
    let mut out: Vec<char> = Vec::new();
    extend_str(&mut out, "0x");
    extend_str(&mut out, hex_text(v as u64, false, 16).as_str());
    string_of(out.as_slice())
}

/// What a FILETIME shows as: its UTC text in `fmt` in UTC mode, a local time
/// text (`local_time_text`) in local mode, or the raw value in hex when chrono
/// rejects it.
pub open spec fn timestamp_spec(filetime: i64, utc: bool, fmt: Seq<char>, text: Seq<char>) -> bool {
    let (secs, nanos) = split_100ns(filetime - EPOCH_DIFF);
    match chrono_utc_text(secs, nanos, fmt) {
        Some(t) => if utc {
            text == t
        } else {
            local_in_range(secs, nanos) ==> local_time_text(secs, nanos, fmt, text)
        },
        None => text == raw_hex_spec(filetime),
    }
}

fn format_filetime(filetime: i64, mode: TimestampMode, utc_fmt: &str, local_fmt: &str) -> (s: String)
    requires
        filetime >= i64::MIN + EPOCH_DIFF,
        supported_format(utc_fmt@),
        supported_format(local_fmt@),
    ensures
        timestamp_spec(
            filetime,
            mode == TimestampMode::Utc,
            if mode == TimestampMode::Utc {
                utc_fmt@
            } else {
                local_fmt@
            },
            s@,
        ),
{
    let (secs, nanos) = split_units(filetime - EPOCH_DIFF);
    let text = match mode {
        TimestampMode::Utc => utc_text(secs, nanos, utc_fmt),
        TimestampMode::Local => local_text(secs, nanos, local_fmt),
    };
    match text {
        Some(t) => t,
        None => raw_hex(filetime),
    }
}

/// The timestamp column: `YYYY-MM-DD HH:MM:SS.ffffff` in UTC or local time,
/// or the raw value in hex when it is out of range.
pub fn format_timestamp(filetime: i64, mode: TimestampMode) -> (s: String)
    requires
        filetime >= i64::MIN + EPOCH_DIFF,
    ensures
        timestamp_spec(filetime, mode == TimestampMode::Utc, "%Y-%m-%d %H:%M:%S%.6f"@, s@),
{
    format_filetime(filetime, mode, "%Y-%m-%d %H:%M:%S%.6f", "%Y-%m-%d %H:%M:%S%.6f")
}

/// The timestamp of the detail view, to the nanosecond and with the zone.
pub fn format_timestamp_full(filetime: i64, mode: TimestampMode) -> (s: String)
    requires
        filetime >= i64::MIN + EPOCH_DIFF,
    ensures
        timestamp_spec(
            filetime,
            mode == TimestampMode::Utc,
            if mode == TimestampMode::Utc {
                "%Y-%m-%d %H:%M:%S%.9f UTC"@
            } else {
                "%Y-%m-%d %H:%M:%S%.9f %Z"@
            },
            s@,
        ),
{
    format_filetime(filetime, mode, "%Y-%m-%d %H:%M:%S%.9f UTC", "%Y-%m-%d %H:%M:%S%.9f %Z")
}

/// Seconds since the Unix epoch and nanoseconds of a FILETIME, as the copied
/// lines compute them.
pub open spec fn line_time_parts(ts: i64) -> (i64, u32) {
    (
        (trunc_div(ts as int, 10_000_000) - 11_644_473_600) as i64,
        wrap_u32(trunc_rem(ts as int, 10_000_000) * 100),
    )
}

/// The line copied for an event: its time, two spaces, its message. The time
/// is empty when chrono rejects it, its UTC text in UTC mode, and a local time
/// text in local mode.
pub open spec fn event_line_spec(e: ParsedEvent, utc: bool, line: Seq<char>) -> bool {
    let (secs, nanos) = line_time_parts(e.timestamp);
    match chrono_utc_text(secs, nanos, "%Y-%m-%d %H:%M:%S%.6f"@) {
        Some(t) => if utc {
            line == t + "  "@ + e.message@
        } else {
            exists|ts: Seq<char>|
                #![trigger ts + "  "@]
                line == ts + "  "@ + e.message@ && (local_in_range(secs, nanos) ==> local_time_text(
                    secs,
                    nanos,
                    "%Y-%m-%d %H:%M:%S%.6f"@,
                    ts,
                ))
        },
        None => line == "  "@ + e.message@,
    }
}

/// The text copied to the clipboard for an event.
pub fn format_event_line(evt: &ParsedEvent, ts_mode: TimestampMode) -> (s: String)
    ensures
        event_line_spec(*evt, ts_mode == TimestampMode::Utc, s@),
{
    let (secs0, nanos) = split_units(evt.timestamp);
    let secs = secs0 - 11_644_473_600;
    proof {
        assert(line_time_parts(evt.timestamp).0 == secs);
    }
    let text = match ts_mode {
        TimestampMode::Utc => utc_text(secs, nanos, "%Y-%m-%d %H:%M:%S%.6f"),
        TimestampMode::Local => local_text(secs, nanos, "%Y-%m-%d %H:%M:%S%.6f"),
    };
    let mut out: Vec<char> = Vec::new();
    let ghost time: Seq<char> = match opt_view(text) {
        Some(t) => t,
        None => Seq::empty(),
    };
    match &text {
        Some(t) => extend_str(&mut out, t.as_str()),
        None => {},
    }
    assert(out@ == time) by {
        if text is None {
            assert(out@ == Seq::<char>::empty());
        }
    }
    extend_str(&mut out, "  ");
    extend_str(&mut out, evt.message.as_str());
    let s = string_of(out.as_slice());
    assert(s@ == time + "  "@ + evt.message@);
    proof {
        if text is None {
            assert(time + "  "@ == "  "@);
        }
    }
    s
}

/// Lines one after the other, each followed by a line break.
pub open spec fn lines_text(parts: Seq<Seq<char>>) -> Seq<char>
    decreases parts.len(),
{
    if parts.len() == 0 {
        Seq::empty()
    } else {
        lines_text(parts.drop_last()) + parts.last() + seq!['\n']
    }
}

/// The events at the positions `idx` that exist in `events`, in that order.
pub open spec fn events_at(events: Seq<ParsedEvent>, idx: Seq<usize>) -> Seq<ParsedEvent>
    decreases idx.len(),
{
    if idx.len() == 0 {
        Seq::empty()
    } else {
        let k = events_at(events, idx.drop_last());
        if idx.last() < events.len() {
            k.push(events[idx.last() as int])
        } else {
            k
        }
    }
}

/// The text copied for several events: the line of each event at a position
/// in `indices` that exists in the store, each followed by a line break.
pub fn copied_lines(store: &EventStore, indices: &[usize], mode: TimestampMode) -> (s: String)
    ensures
        exists|parts: Seq<Seq<char>>|
            parts.len() == events_at(store@, indices@).len() && (forall|i: int|
                0 <= i < parts.len() ==> event_line_spec(
                    #[trigger] events_at(store@, indices@)[i],
                    mode == TimestampMode::Utc,
                    parts[i],
                )) && s@ == lines_text(parts),
{
    let mut out: Vec<char> = Vec::new();
    let ghost mut parts: Seq<Seq<char>> = Seq::empty();
    let mut k: usize = 0;
    while k < indices.len()
        invariant
            k <= indices@.len(),
            parts.len() == events_at(store@, indices@.take(k as int)).len(),
            forall|i: int|
                0 <= i < parts.len() ==> event_line_spec(
                    #[trigger] events_at(store@, indices@.take(k as int))[i],
                    mode == TimestampMode::Utc,
                    parts[i],
                ),
            out@ == lines_text(parts),
        decreases indices@.len() - k,
    {
        let ghost before = events_at(store@, indices@.take(k as int));
        assert(indices@.take(k + 1).drop_last() == indices@.take(k as int));
        match store.get(indices[k]) {
            Some(evt) => {
                let line = format_event_line(evt, mode);
                extend_str(&mut out, line.as_str());
                out.push('\n');
                proof {
                    let old_parts = parts;
                    parts = parts.push(line@);
                    assert(parts.drop_last() == old_parts);
                    let now = events_at(store@, indices@.take(k + 1));
                    assert(now == before.push(*evt));
                    assert forall|i: int| 0 <= i < parts.len() implies event_line_spec(
                        #[trigger] now[i],
                        mode == TimestampMode::Utc,
                        parts[i],
                    ) by {
                        if i < old_parts.len() {
                            assert(now[i] == before[i]);
                        }
                    }
                }
            },
            None => {},
        }
        k = k + 1;
    }
    assert(indices@.take(indices@.len() as int) == indices@);
    let s = string_of(out.as_slice());
    assert(s@ == lines_text(parts));
    s
}

} // verus!
