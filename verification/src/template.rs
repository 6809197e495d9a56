use vstd::prelude::*;
use crate::segments::{
    SegmentStyle, byte_to_char, field_parts, field_segments, lemma_field_segments_sorted,
    lemma_marks_appended, lemma_marks_extend, marks_value, range_field, sorted_ranges,
};
use crate::text::{chars_of, string_of, parse_usize_digits, parse_usize_spec, utf8_len, char_width, utf8_width, trim_spec, trim_start_spec, leading_ws, count_leading_ws, trim_chars, lemma_utf8_len_push, lemma_utf8_len_concat, lemma_utf8_len_take_le, lemma_leading_ws_bound, lemma_trailing_ws_bound, trailing_ws, decimal_text, decimal_spec};

verus! {

/* ---------- Line breaks ---------- */

/// Every `\r\n` and every remaining `\n` of `s` turned into one space
/// (`s.replace("\r\n", " ").replace('\n', " ")`).
pub open spec fn normalize_spec(s: Seq<char>) -> Seq<char>
    decreases s.len(),
{
    if s.len() == 0 {
        Seq::empty()
    } else if s.len() >= 2 && s[0] == '\r' && s[1] == '\n' {
        seq![' '] + normalize_spec(s.skip(2))
    } else if s[0] == '\n' {
        seq![' '] + normalize_spec(s.skip(1))
    } else {
        seq![s[0]] + normalize_spec(s.skip(1))
    }
}

/// Turns the line breaks of a message template into spaces.
pub fn normalize_template(template: &str) -> (r: String)
    ensures
        r@ == normalize_spec(template@),
{
    let t = chars_of(template);
    let mut out: Vec<char> = Vec::new();
    let mut i: usize = 0;
    assert(t@.skip(0) == t@);
    while i < t.len()
        invariant
            t@ == template@,
            i <= t@.len(),
            out@ + normalize_spec(t@.skip(i as int)) == normalize_spec(t@),
        decreases t@.len() - i,
    {
        let ghost rest = t@.skip(i as int);
        let ghost old_out = out@;
        if i + 1 < t.len() && t[i] == '\r' && t[i + 1] == '\n' {
            assert(rest.skip(2) == t@.skip(i + 2));
            out.push(' ');
            i = i + 2;
            assert(out@ + normalize_spec(t@.skip(i as int)) == old_out + (seq![' '] + normalize_spec(rest.skip(2))));
        } else {
            let c = t[i];
            assert(rest.skip(1) == t@.skip(i + 1));
            if c == '\n' {
                out.push(' ');
                assert(out@ + normalize_spec(t@.skip(i + 1)) == old_out + (seq![' '] + normalize_spec(rest.skip(1))));
            } else {
                out.push(c);
                assert(out@ + normalize_spec(t@.skip(i + 1)) == old_out + (seq![c] + normalize_spec(rest.skip(1))));
            }
            i = i + 1;
        }
    }
    assert(normalize_spec(t@.skip(i as int)) == Seq::<char>::empty());
    assert(out@ + Seq::<char>::empty() == out@);
    string_of(out.as_slice())
}

/* ---------- Placeholders ---------- */

/// Unicode decimal digits (general category `Nd`, Unicode 16), the class `\d`
/// that placeholders are written with.
pub open spec fn is_decimal_digit(c: char) -> bool {
    let v = c as u32;
    ||| 48 <= v <= 57
    ||| 1632 <= v <= 1641
    ||| 1776 <= v <= 1785
    ||| 1984 <= v <= 1993
    ||| 2406 <= v <= 2415
    ||| 2534 <= v <= 2543
    ||| 2662 <= v <= 2671
    ||| 2790 <= v <= 2799
    ||| 2918 <= v <= 2927
    ||| 3046 <= v <= 3055
    ||| 3174 <= v <= 3183
    ||| 3302 <= v <= 3311
    ||| 3430 <= v <= 3439
    ||| 3558 <= v <= 3567
    ||| 3664 <= v <= 3673
    ||| 3792 <= v <= 3801
    ||| 3872 <= v <= 3881
    ||| 4160 <= v <= 4169
    ||| 4240 <= v <= 4249
    ||| 6112 <= v <= 6121
    ||| 6160 <= v <= 6169
    ||| 6470 <= v <= 6479
    ||| 6608 <= v <= 6617
    ||| 6784 <= v <= 6793
    ||| 6800 <= v <= 6809
    ||| 6992 <= v <= 7001
    ||| 7088 <= v <= 7097
    ||| 7232 <= v <= 7241
    ||| 7248 <= v <= 7257
    ||| 42528 <= v <= 42537
    ||| 43216 <= v <= 43225
    ||| 43264 <= v <= 43273
    ||| 43472 <= v <= 43481
    ||| 43504 <= v <= 43513
    ||| 43600 <= v <= 43609
    ||| 44016 <= v <= 44025
    ||| 65296 <= v <= 65305
    ||| 66720 <= v <= 66729
    ||| 68912 <= v <= 68921
    ||| 68928 <= v <= 68937
    ||| 69734 <= v <= 69743
    ||| 69872 <= v <= 69881
    ||| 69942 <= v <= 69951
    ||| 70096 <= v <= 70105
    ||| 70384 <= v <= 70393
    ||| 70736 <= v <= 70745
    ||| 70864 <= v <= 70873
    ||| 71248 <= v <= 71257
    ||| 71360 <= v <= 71369
    ||| 71376 <= v <= 71395
    ||| 71472 <= v <= 71481
    ||| 71904 <= v <= 71913
    ||| 72016 <= v <= 72025
    ||| 72688 <= v <= 72697
    ||| 72784 <= v <= 72793
    ||| 73040 <= v <= 73049
    ||| 73120 <= v <= 73129
    ||| 73552 <= v <= 73561
    ||| 90416 <= v <= 90425
    ||| 92768 <= v <= 92777
    ||| 92864 <= v <= 92873
    ||| 93008 <= v <= 93017
    ||| 93552 <= v <= 93561
    ||| 118000 <= v <= 118009
    ||| 120782 <= v <= 120831
    ||| 123200 <= v <= 123209
    ||| 123632 <= v <= 123641
    ||| 124144 <= v <= 124153
    ||| 124401 <= v <= 124410
    ||| 125264 <= v <= 125273
    ||| 130032 <= v <= 130041
}

pub fn decimal_digit(c: char) -> (b: bool)
    ensures
        b == is_decimal_digit(c),
{
    let v = c as u32;
    (48 <= v && v <= 57) ||
        (1632 <= v && v <= 1641) ||
        (1776 <= v && v <= 1785) ||
        (1984 <= v && v <= 1993) ||
        (2406 <= v && v <= 2415) ||
        (2534 <= v && v <= 2543) ||
        (2662 <= v && v <= 2671) ||
        (2790 <= v && v <= 2799) ||
        (2918 <= v && v <= 2927) ||
        (3046 <= v && v <= 3055) ||
        (3174 <= v && v <= 3183) ||
        (3302 <= v && v <= 3311) ||
        (3430 <= v && v <= 3439) ||
        (3558 <= v && v <= 3567) ||
        (3664 <= v && v <= 3673) ||
        (3792 <= v && v <= 3801) ||
        (3872 <= v && v <= 3881) ||
        (4160 <= v && v <= 4169) ||
        (4240 <= v && v <= 4249) ||
        (6112 <= v && v <= 6121) ||
        (6160 <= v && v <= 6169) ||
        (6470 <= v && v <= 6479) ||
        (6608 <= v && v <= 6617) ||
        (6784 <= v && v <= 6793) ||
        (6800 <= v && v <= 6809) ||
        (6992 <= v && v <= 7001) ||
        (7088 <= v && v <= 7097) ||
        (7232 <= v && v <= 7241) ||
        (7248 <= v && v <= 7257) ||
        (42528 <= v && v <= 42537) ||
        (43216 <= v && v <= 43225) ||
        (43264 <= v && v <= 43273) ||
        (43472 <= v && v <= 43481) ||
        (43504 <= v && v <= 43513) ||
        (43600 <= v && v <= 43609) ||
        (44016 <= v && v <= 44025) ||
        (65296 <= v && v <= 65305) ||
        (66720 <= v && v <= 66729) ||
        (68912 <= v && v <= 68921) ||
        (68928 <= v && v <= 68937) ||
        (69734 <= v && v <= 69743) ||
        (69872 <= v && v <= 69881) ||
        (69942 <= v && v <= 69951) ||
        (70096 <= v && v <= 70105) ||
        (70384 <= v && v <= 70393) ||
        (70736 <= v && v <= 70745) ||
        (70864 <= v && v <= 70873) ||
        (71248 <= v && v <= 71257) ||
        (71360 <= v && v <= 71369) ||
        (71376 <= v && v <= 71395) ||
        (71472 <= v && v <= 71481) ||
        (71904 <= v && v <= 71913) ||
        (72016 <= v && v <= 72025) ||
        (72688 <= v && v <= 72697) ||
        (72784 <= v && v <= 72793) ||
        (73040 <= v && v <= 73049) ||
        (73120 <= v && v <= 73129) ||
        (73552 <= v && v <= 73561) ||
        (90416 <= v && v <= 90425) ||
        (92768 <= v && v <= 92777) ||
        (92864 <= v && v <= 92873) ||
        (93008 <= v && v <= 93017) ||
        (93552 <= v && v <= 93561) ||
        (118000 <= v && v <= 118009) ||
        (120782 <= v && v <= 120831) ||
        (123200 <= v && v <= 123209) ||
        (123632 <= v && v <= 123641) ||
        (124144 <= v && v <= 124153) ||
        (124401 <= v && v <= 124410) ||
        (125264 <= v && v <= 125273) ||
        (130032 <= v && v <= 130041)
}

/// Characters allowed inside a `!format!` suffix.
pub open spec fn is_format_char(c: char) -> bool {
    ('a' <= c <= 'z') || ('A' <= c <= 'Z') || ('0' <= c <= '9')
}

/// End of the run of decimal digits starting at `j`.
pub open spec fn digit_run_end(t: Seq<char>, j: int) -> int
    decreases t.len() - j,
{
    if 0 <= j < t.len() && is_decimal_digit(t[j]) {
        digit_run_end(t, j + 1)
    } else {
        j
    }
}

/// End of the run of format characters starting at `j`.
pub open spec fn format_run_end(t: Seq<char>, j: int) -> int
    decreases t.len() - j,
{
    if 0 <= j < t.len() && is_format_char(t[j]) {
        format_run_end(t, j + 1)
    } else {
        j
    }
}

pub proof fn lemma_digit_run_end(t: Seq<char>, j: int)
    requires
        0 <= j,
    ensures
        j <= digit_run_end(t, j),
        j <= t.len() ==> digit_run_end(t, j) <= t.len(),
        forall|k: int| j <= k < digit_run_end(t, j) ==> is_decimal_digit(#[trigger] t[k]),
        digit_run_end(t, j) < t.len() ==> !is_decimal_digit(t[digit_run_end(t, j)]),
    decreases t.len() - j,
{
    if 0 <= j < t.len() && is_decimal_digit(t[j]) {
        lemma_digit_run_end(t, j + 1);
    }
}

pub proof fn lemma_format_run_end(t: Seq<char>, j: int)
    requires
        0 <= j,
    ensures
        j <= format_run_end(t, j),
        j <= t.len() ==> format_run_end(t, j) <= t.len(),
        format_run_end(t, j) < t.len() ==> !is_format_char(t[format_run_end(t, j)]),
    decreases t.len() - j,
{
    if 0 <= j < t.len() && is_format_char(t[j]) {
        lemma_format_run_end(t, j + 1);
    }
}

/// A placeholder `%N` or `%N!fmt!` (the pattern `%(\d+)(?:![a-zA-Z0-9]*!)?`)
/// starting at `i`: the end of its digits and the end of the whole match.
pub open spec fn placeholder_at(t: Seq<char>, i: int) -> Option<(int, int)> {
    if 0 <= i && i + 1 < t.len() && t[i] == '%' && is_decimal_digit(t[i + 1]) {
        let d = digit_run_end(t, i + 1);
        if d < t.len() && t[d] == '!' {
            let k = format_run_end(t, d + 1);
            if k < t.len() && t[k] == '!' {
                Some((d, k + 1))
            } else {
                Some((d, d))
            }
        } else {
            Some((d, d))
        }
    } else {
        None
    }
}

pub proof fn lemma_placeholder_bounds(t: Seq<char>, i: int)
    requires
        placeholder_at(t, i) is Some,
    ensures
        match placeholder_at(t, i) {
            Some((d, m)) => i + 2 <= d <= m <= t.len(),
            None => true,
        },
{
    lemma_digit_run_end(t, i + 1);
    let d = digit_run_end(t, i + 1);
    if d < t.len() && t[d] == '!' {
        lemma_format_run_end(t, d + 1);
    }
}

fn run_char(c: char, digits: bool) -> (b: bool)
    ensures
        b == (if digits {
            is_decimal_digit(c)
        } else {
            is_format_char(c)
        }),
{
    if digits {
        decimal_digit(c)
    } else {
        ('a' <= c && c <= 'z') || ('A' <= c && c <= 'Z') || ('0' <= c && c <= '9')
    }
}

fn run_end(t: &Vec<char>, j: usize, digits: bool) -> (e: usize)
    requires
        j <= t@.len(),
    ensures
        e == (if digits {
            digit_run_end(t@, j as int)
        } else {
            format_run_end(t@, j as int)
        }),
{
    let mut k = j;
    while k < t.len() && run_char(t[k], digits)
        invariant
            j <= k <= t@.len(),
            (if digits {
                digit_run_end(t@, j as int) == digit_run_end(t@, k as int)
            } else {
                format_run_end(t@, j as int) == format_run_end(t@, k as int)
            }),
        decreases t@.len() - k,
    {
        k = k + 1;
    }
    k
}

/// The placeholder starting at `i`, if any, as in `placeholder_at`.
pub fn find_placeholder(t: &Vec<char>, i: usize) -> (r: Option<(usize, usize)>)
    requires
        i <= t@.len(),
    ensures
        match r {
            Some((d, m)) => placeholder_at(t@, i as int) == Some((d as int, m as int)),
            None => placeholder_at(t@, i as int) is None,
        },
{
    if i < t.len() && i + 1 < t.len() && t[i] == '%' && decimal_digit(t[i + 1]) {
        let d = run_end(t, i + 1, true);
        proof {
            lemma_digit_run_end(t@, i + 1);
        }
        if d < t.len() && t[d] == '!' {
            let k = run_end(t, d + 1, false);
            proof {
                lemma_format_run_end(t@, d + 1);
            }
            if k < t.len() && t[k] == '!' {
                Some((d, k + 1))
            } else {
                Some((d, d))
            }
        } else {
            Some((d, d))
        }
    } else {
        None
    }
}

/* ---------- Filling a template ---------- */

/// The number a placeholder `t[i..d]` names (`caps[1].parse().unwrap_or(0)`).
pub open spec fn placeholder_number(t: Seq<char>, i: int, d: int) -> usize {
    match parse_usize_spec(t.subrange(i + 1, d)) {
        Some(n) => n,
        None => 0,
    }
}

/// The views of a sequence of strings.
pub open spec fn string_views(v: Seq<String>) -> Seq<Seq<char>> {
    v.map_values(|s: String| s@)
}

/// Scanning `t` from `i` with the text `out` and the ranges `rs` produced so far:
/// each placeholder `%N` with `1 <= N <= values.len()` is replaced by
/// `values[N - 1]`, whose byte range is recorded (when not empty) with colour
/// `(N - 1) % 8`; any other placeholder is kept as written; other characters are copied.
pub open spec fn fill_from(
    t: Seq<char>,
    values: Seq<Seq<char>>,
    i: int,
    out: Seq<char>,
    rs: Seq<(usize, usize, u8)>,
) -> (Seq<char>, Seq<(usize, usize, u8)>)
    decreases t.len() - i,
{
    if i < 0 || i >= t.len() {
        (out, rs)
    } else {
        match placeholder_at(t, i) {
            Some((d, m)) => {
                proof {
                    lemma_placeholder_bounds(t, i);
                }
                let n = placeholder_number(t, i, d);
                if 1 <= n <= values.len() {
                    let v = values[n - 1];
                    let s = utf8_len(out);
                    let e = utf8_len(out + v);
                    let rs2 = if e > s {
                        rs.push((s as usize, e as usize, ((n - 1) % 8) as u8))
                    } else {
                        rs
                    };
                    fill_from(t, values, m, out + v, rs2)
                } else {
                    fill_from(t, values, m, out + t.subrange(i, m), rs)
                }
            },
            None => fill_from(t, values, i + 1, out.push(t[i]), rs),
        }
    }
}

/// The filled template before trimming, with its ranges.
pub open spec fn fill_untrimmed(t: Seq<char>, values: Seq<Seq<char>>) -> (
    Seq<char>,
    Seq<(usize, usize, u8)>,
) {
    fill_from(t, values, 0, Seq::empty(), Seq::empty())
}

/// Ranges moved left by `leading` bytes (saturating), cut at `new_len`, and
/// dropped when they become empty.
pub open spec fn adjust_ranges(rs: Seq<(usize, usize, u8)>, leading: int, new_len: int) -> Seq<
    (usize, usize, u8),
>
    decreases rs.len(),
{
    if rs.len() == 0 {
        Seq::empty()
    } else {
        let s = rs[0].0 as int;
        let e = rs[0].1 as int;
        let ns = if s >= leading {
            s - leading
        } else {
            0
        };
        let ne0 = if e >= leading {
            e - leading
        } else {
            0
        };
        let ne = if ne0 < new_len {
            ne0
        } else {
            new_len
        };
        let rest = adjust_ranges(rs.drop_first(), leading, new_len);
        if ne > ns {
            seq![(ns as usize, ne as usize, rs[0].2)] + rest
        } else {
            rest
        }
    }
}

/// The filled template: the text with surrounding white space trimmed, and the
/// value ranges shifted to the trimmed text.
pub open spec fn fill_template_spec(t: Seq<char>, values: Seq<Seq<char>>) -> (
    Seq<char>,
    Seq<(usize, usize, u8)>,
) {
    let out = fill_untrimmed(t, values).0;
    let rs = fill_untrimmed(t, values).1;
    let trimmed = trim_spec(out);
    if utf8_len(trimmed) < utf8_len(out) {
        let leading = utf8_len(out) - utf8_len(trim_start_spec(out));
        (trimmed, adjust_ranges(rs, leading, utf8_len(trimmed) as int))
    } else {
        (out, rs)
    }
}

/// The text built so far is a prefix of the final text.
pub proof fn lemma_fill_from_prefix(
    t: Seq<char>,
    values: Seq<Seq<char>>,
    i: int,
    out: Seq<char>,
    rs: Seq<(usize, usize, u8)>,
)
    ensures
        out.len() <= fill_from(t, values, i, out, rs).0.len(),
        fill_from(t, values, i, out, rs).0.take(out.len() as int) == out,
    decreases t.len() - i,
{
    if 0 <= i < t.len() {
        match placeholder_at(t, i) {
            Some((d, m)) => {
                lemma_placeholder_bounds(t, i);
                let n = placeholder_number(t, i, d);
                if 1 <= n <= values.len() {
                    let v = values[n - 1];
                    let s = utf8_len(out);
                    let e = utf8_len(out + v);
                    let rs2 = if e > s {
                        rs.push((s as usize, e as usize, ((n - 1) % 8) as u8))
                    } else {
                        rs
                    };
                    lemma_fill_from_prefix(t, values, m, out + v, rs2);
                    let f = fill_from(t, values, m, out + v, rs2).0;
                    assert(f.take(out.len() as int) == (out + v).take(out.len() as int));
                } else {
                    lemma_fill_from_prefix(t, values, m, out + t.subrange(i, m), rs);
                    let f = fill_from(t, values, m, out + t.subrange(i, m), rs).0;
                    assert(f.take(out.len() as int) == (out + t.subrange(i, m)).take(
                        out.len() as int,
                    ));
                }
            },
            None => {
                lemma_fill_from_prefix(t, values, i + 1, out.push(t[i]), rs);
                let f = fill_from(t, values, i + 1, out.push(t[i]), rs).0;
                assert(f.take(out.len() as int) == out.push(t[i]).take(out.len() as int));
            },
        }
    }
}

pub proof fn lemma_utf8_len_subrange_le(s: Seq<char>, i: int, j: int)
    requires
        0 <= i <= j <= s.len(),
    ensures
        utf8_len(s.subrange(i, j)) <= utf8_len(s),
{
    lemma_utf8_len_concat(s.subrange(i, j), s.skip(j));
    assert(s.subrange(i, j) + s.skip(j) == s.skip(i));
    lemma_utf8_len_concat(s.take(i), s.skip(i));
    assert(s.take(i) + s.skip(i) == s);
}

/// Number of bytes of the UTF-8 encoding of `v`.
pub fn byte_len(v: &Vec<char>) -> (n: usize)
    requires
        utf8_len(v@) <= usize::MAX,
    ensures
        n == utf8_len(v@),
{
    let mut n: usize = 0;
    let mut i: usize = 0;
    while i < v.len()
        invariant
            i <= v@.len(),
            n == utf8_len(v@.take(i as int)),
            utf8_len(v@) <= usize::MAX,
        decreases v@.len() - i,
    {
        proof {
            lemma_utf8_len_push(v@.take(i as int), v@[i as int]);
            assert(v@.take(i + 1) == v@.take(i as int).push(v@[i as int]));
            lemma_utf8_len_take_le(v@, i + 1, v@.len() as int);
            assert(v@.take(v@.len() as int) == v@);
        }
        n = n + char_width(v[i]);
        i = i + 1;
    }
    assert(v@.take(v@.len() as int) == v@);
    n
}

/// Appends `src[from..to]` to `out`, keeping `bytes` the byte length of `out`.
fn append_chars(out: &mut Vec<char>, bytes: &mut usize, src: &Vec<char>, from: usize, to: usize)
    requires
        from <= to <= src@.len(),
        *old(bytes) == utf8_len(old(out)@),
        utf8_len(old(out)@ + src@.subrange(from as int, to as int)) <= usize::MAX,
    ensures
        final(out)@ == old(out)@ + src@.subrange(from as int, to as int),
        *final(bytes) == utf8_len(final(out)@),
{
    let ghost start = out@;
    let ghost whole = start + src@.subrange(from as int, to as int);
    let mut k = from;
    while k < to
        invariant
            from <= k <= to <= src@.len(),
            whole == start + src@.subrange(from as int, to as int),
            out@ == start + src@.subrange(from as int, k as int),
            *bytes == utf8_len(out@),
            utf8_len(whole) <= usize::MAX,
        decreases to - k,
    {
        proof {
            let next = start + src@.subrange(from as int, k + 1);
            assert(next == out@.push(src@[k as int]));
            lemma_utf8_len_push(out@, src@[k as int]);
            assert(next == whole.take(next.len() as int));
            lemma_utf8_len_take_le(whole, next.len() as int, whole.len() as int);
            assert(whole.take(whole.len() as int) == whole);
        }
        out.push(src[k]);
        *bytes = *bytes + char_width(src[k]);
        k = k + 1;
    }
}

/// Fills the placeholders `%1`, `%2`, ... (optionally followed by `!format!`) of
/// a template with `values`; returns the trimmed text and the byte range and
/// colour index of each substituted value.
pub fn fill_template_from_normalized(template: &str, values: &[String]) -> (r: (
    String,
    Vec<(usize, usize, u8)>,
))
    requires
        utf8_len(fill_untrimmed(template@, string_views(values@)).0) <= usize::MAX,
    ensures
        r.0@ == fill_template_spec(template@, string_views(values@)).0,
        r.1@ == fill_template_spec(template@, string_views(values@)).1,
{
    let ghost vals = string_views(values@);
    let ghost fin = fill_untrimmed(template@, vals);
    let t = chars_of(template);
    let mut out: Vec<char> = Vec::new();
    let mut out_bytes: usize = 0;
    let mut ranges: Vec<(usize, usize, u8)> = Vec::new();
    let mut i: usize = 0;
    while i < t.len()
        invariant
            t@ == template@,
            vals == string_views(values@),
            fin == fill_untrimmed(template@, vals),
            i <= t@.len(),
            fill_from(t@, vals, i as int, out@, ranges@) == fin,
            out_bytes == utf8_len(out@),
            utf8_len(fin.0) <= usize::MAX,
        decreases t@.len() - i,
    {
        match find_placeholder(&t, i) {
            Some((d, m)) => {
                proof {
                    lemma_placeholder_bounds(t@, i as int);
                }
                let n: usize = match parse_usize_digits(&t, i + 1, d) {
                    Some(n) => n,
                    None => 0,
                };
                if 1 <= n && n <= values.len() {
                    let v = chars_of(values[n - 1].as_str());
                    assert(v@ == vals[n - 1]);
                    let start = out_bytes;
                    let ghost s_out = out@;
                    proof {
                        let e = utf8_len(s_out + v@);
                        let rs2 = if e > utf8_len(s_out) {
                            ranges@.push((utf8_len(s_out) as usize, e as usize, ((n - 1) % 8) as u8))
                        } else {
                            ranges@
                        };
                        lemma_fill_from_prefix(t@, vals, m as int, s_out + v@, rs2);
                        lemma_utf8_len_take_le(fin.0, (s_out + v@).len() as int, fin.0.len() as int);
                        assert(v@.subrange(0, v@.len() as int) == v@);
                    }
                    append_chars(&mut out, &mut out_bytes, &v, 0, v.len());
                    assert(v@.subrange(0, v@.len() as int) == v@);
                    if out_bytes > start {
                        ranges.push((start, out_bytes, ((n - 1) % 8) as u8));
                    }
                } else {
                    let ghost s_out = out@;
                    proof {
                        lemma_fill_from_prefix(t@, vals, m as int, s_out + t@.subrange(i as int, m as int), ranges@);
                        lemma_utf8_len_take_le(
                            fin.0,
                            (s_out + t@.subrange(i as int, m as int)).len() as int,
                            fin.0.len() as int,
                        );
                    }
                    append_chars(&mut out, &mut out_bytes, &t, i, m);
                }
                i = m;
            },
            None => {
                let ghost s_out = out@;
                proof {
                    lemma_fill_from_prefix(t@, vals, i + 1, s_out.push(t@[i as int]), ranges@);
                    lemma_utf8_len_take_le(fin.0, (s_out.len() + 1) as int, fin.0.len() as int);
                    assert(t@.subrange(i as int, i + 1) == seq![t@[i as int]]);
                    assert(s_out + seq![t@[i as int]] == s_out.push(t@[i as int]));
                }
                append_chars(&mut out, &mut out_bytes, &t, i, i + 1);
                i = i + 1;
            },
        }
    }
    assert(out@ == fin.0 && ranges@ == fin.1);
    let lead = count_leading_ws(&out);
    proof {
        lemma_leading_ws_bound(out@);
    }
    let trimmed_start = crate::text::sub_chars(&out, lead, out.len());
    let trimmed = trim_chars(&out);
    proof {
        lemma_trailing_ws_bound(trimmed_start@);
        lemma_utf8_len_subrange_le(out@, lead as int, out@.len() as int);
        lemma_utf8_len_subrange_le(
            trimmed_start@,
            0,
            trimmed_start@.len() - trailing_ws(trimmed_start@),
        );
        assert(trimmed@ == trimmed_start@.subrange(
            0,
            trimmed_start@.len() - trailing_ws(trimmed_start@),
        ));
    }
    let start_bytes = byte_len(&trimmed_start);
    let trimmed_bytes = byte_len(&trimmed);
    if trimmed_bytes < out_bytes {
        let leading = out_bytes - start_bytes;
        let mut adjusted: Vec<(usize, usize, u8)> = Vec::new();
        let mut k: usize = 0;
        assert(ranges@.skip(0) == ranges@);
        while k < ranges.len()
            invariant
                k <= ranges@.len(),
                adjusted@ + adjust_ranges(ranges@.skip(k as int), leading as int, trimmed_bytes as int)
                    == adjust_ranges(ranges@, leading as int, trimmed_bytes as int),
            decreases ranges@.len() - k,
        {
            let (s, e, c) = ranges[k];
            let ns = s.saturating_sub(leading);
            let ne0 = e.saturating_sub(leading);
            let ne = if ne0 < trimmed_bytes {
                ne0
            } else {
                trimmed_bytes
            };
            let ghost rest = ranges@.skip(k as int);
            assert(rest.drop_first() == ranges@.skip(k + 1));
            assert(rest[0] == (s, e, c));
            let ghost old_adj = adjusted@;
            if ne > ns {
                adjusted.push((ns, ne, c));
                assert(old_adj + (seq![(ns, ne, c)] + adjust_ranges(ranges@.skip(k + 1), leading as int, trimmed_bytes as int))
                    == adjusted@ + adjust_ranges(ranges@.skip(k + 1), leading as int, trimmed_bytes as int));
            }
            k = k + 1;
        }
        assert(adjusted@ + Seq::<(usize, usize, u8)>::empty() == adjusted@);
        (string_of(trimmed.as_slice()), adjusted)
    } else {
        (string_of(out.as_slice()), ranges)
    }
}

/// Every range is a non-empty byte range within the first `n` bytes.
pub open spec fn ranges_within(rs: Seq<(usize, usize, u8)>, n: int) -> bool {
    forall|i: int| #![trigger rs[i]] 0 <= i < rs.len() ==> rs[i].0 < rs[i].1 && rs[i].1 <= n
}

proof fn lemma_fill_from_ranges(
    t: Seq<char>,
    values: Seq<Seq<char>>,
    i: int,
    out: Seq<char>,
    rs: Seq<(usize, usize, u8)>,
)
    requires
        ranges_within(rs, utf8_len(out) as int),
        utf8_len(fill_from(t, values, i, out, rs).0) <= usize::MAX,
    ensures
        ranges_within(
            fill_from(t, values, i, out, rs).1,
            utf8_len(fill_from(t, values, i, out, rs).0) as int,
        ),
    decreases t.len() - i,
{
    if 0 <= i < t.len() {
        match placeholder_at(t, i) {
            Some((d, m)) => {
                lemma_placeholder_bounds(t, i);
                let n = placeholder_number(t, i, d);
                if 1 <= n <= values.len() {
                    let v = values[n - 1];
                    let s = utf8_len(out);
                    let e = utf8_len(out + v);
                    let rs2 = if e > s {
                        rs.push((s as usize, e as usize, ((n - 1) % 8) as u8))
                    } else {
                        rs
                    };
                    lemma_utf8_len_concat(out, v);
                    lemma_fill_from_prefix(t, values, m, out + v, rs2);
                    let f = fill_from(t, values, m, out + v, rs2).0;
                    lemma_utf8_len_take_le(f, (out + v).len() as int, f.len() as int);
                    assert(f.take(f.len() as int) == f);
                    assert(ranges_within(rs2, e as int));
                    lemma_fill_from_ranges(t, values, m, out + v, rs2);
                } else {
                    let o2 = out + t.subrange(i, m);
                    lemma_utf8_len_concat(out, t.subrange(i, m));
                    lemma_fill_from_ranges(t, values, m, o2, rs);
                }
            },
            None => {
                lemma_utf8_len_push(out, t[i]);
                lemma_fill_from_ranges(t, values, i + 1, out.push(t[i]), rs);
            },
        }
    }
}

proof fn lemma_ranges_within_cons(x: (usize, usize, u8), rest: Seq<(usize, usize, u8)>, n: int)
    requires
        x.0 < x.1 <= n,
        ranges_within(rest, n),
    ensures
        ranges_within(seq![x] + rest, n),
{
    let r = seq![x] + rest;
    assert forall|i: int| 0 <= i < r.len() implies #[trigger] r[i].0 < r[i].1 && r[i].1 <= n by {
        if i > 0 {
            assert(r[i] == rest[i - 1]);
        } else {
            assert(r[i] == x);
        }
    }
}

#[verifier::spinoff_prover]
proof fn lemma_adjust_ranges_within(rs: Seq<(usize, usize, u8)>, leading: int, new_len: int)
    requires
        0 <= new_len <= usize::MAX,
    ensures
        ranges_within(adjust_ranges(rs, leading, new_len), new_len),
    decreases rs.len(),
{
    if rs.len() == 0 {
        assert(adjust_ranges(rs, leading, new_len) == Seq::<(usize, usize, u8)>::empty());
    } else {
        lemma_adjust_ranges_within(rs.drop_first(), leading, new_len);
        let s = rs[0].0 as int;
        let e = rs[0].1 as int;
        let ns = if s >= leading {
            s - leading
        } else {
            0
        };
        let ne0 = if e >= leading {
            e - leading
        } else {
            0
        };
        let ne = if ne0 < new_len {
            ne0
        } else {
            new_len
        };
        let rest = adjust_ranges(rs.drop_first(), leading, new_len);
        let full = adjust_ranges(rs, leading, new_len);
        if ne > ns {
            assert(0 <= ns < ne <= new_len <= usize::MAX);
            let x = (ns as usize, ne as usize, rs[0].2);
            assert(x.0 as int == ns && x.1 as int == ne);
            assert(full == seq![x] + rest);
            lemma_ranges_within_cons(x, rest, new_len);
        } else {
            assert(full == rest);
        }
    }
}

/// The ranges of a filled template are non-empty byte ranges within its text.
pub proof fn lemma_fill_template_ranges(t: Seq<char>, values: Seq<Seq<char>>)
    requires
        utf8_len(fill_untrimmed(t, values).0) <= usize::MAX,
    ensures
        ranges_within(
            fill_template_spec(t, values).1,
            utf8_len(fill_template_spec(t, values).0) as int,
        ),
{
    lemma_fill_from_ranges(t, values, 0, Seq::empty(), Seq::empty());
    let out = fill_untrimmed(t, values).0;
    let trimmed = trim_spec(out);
    if utf8_len(trimmed) < utf8_len(out) {
        let leading = utf8_len(out) - utf8_len(trim_start_spec(out));
        lemma_adjust_ranges_within(fill_untrimmed(t, values).1, leading, utf8_len(trimmed) as int);
    }
}

/// The range `r` holds exactly some value `i` and has colour `i % 8`.
pub open spec fn marks_some_value(text: Seq<char>, r: (usize, usize, u8), values: Seq<Seq<char>>) -> bool {
    exists|i: int| 0 <= i < values.len() && r.2 == (i % 8) as u8 && #[trigger] marks_value(text, r, values[i])
}

/// Every range holds exactly one of the values, with its colour.
pub open spec fn ranges_mark_values(
    text: Seq<char>,
    rs: Seq<(usize, usize, u8)>,
    values: Seq<Seq<char>>,
) -> bool {
    forall|j: int| 0 <= j < rs.len() ==> #[trigger] marks_some_value(text, rs[j], values)
}

proof fn lemma_marks_some_extend(
    text: Seq<char>,
    more: Seq<char>,
    r: (usize, usize, u8),
    values: Seq<Seq<char>>,
)
    requires
        marks_some_value(text, r, values),
    ensures
        marks_some_value(text + more, r, values),
{
    let i = choose|i: int| 0 <= i < values.len() && r.2 == (i % 8) as u8 && #[trigger] marks_value(text, r, values[i]);
    lemma_marks_extend(text, more, r, values[i]);
}

pub(crate) proof fn lemma_ranges_mark_extend(
    text: Seq<char>,
    more: Seq<char>,
    rs: Seq<(usize, usize, u8)>,
    values: Seq<Seq<char>>,
)
    requires
        ranges_mark_values(text, rs, values),
    ensures
        ranges_mark_values(text + more, rs, values),
{
    assert forall|j: int| 0 <= j < rs.len() implies #[trigger] marks_some_value(text + more, rs[j], values) by {
        assert(marks_some_value(text, rs[j], values));
        lemma_marks_some_extend(text, more, rs[j], values);
    }
}

proof fn lemma_fill_from_marks(
    t: Seq<char>,
    values: Seq<Seq<char>>,
    i: int,
    out: Seq<char>,
    rs: Seq<(usize, usize, u8)>,
)
    requires
        ranges_mark_values(out, rs, values),
        utf8_len(fill_from(t, values, i, out, rs).0) <= usize::MAX,
    ensures
        ranges_mark_values(fill_from(t, values, i, out, rs).0, fill_from(t, values, i, out, rs).1, values),
    decreases t.len() - i,
{
    if 0 <= i < t.len() {
        match placeholder_at(t, i) {
            Some((d, m)) => {
                lemma_placeholder_bounds(t, i);
                let n = placeholder_number(t, i, d);
                if 1 <= n <= values.len() {
                    let v = values[n - 1];
                    let s = utf8_len(out);
                    let e = utf8_len(out + v);
                    let rs2 = if e > s {
                        rs.push((s as usize, e as usize, ((n - 1) % 8) as u8))
                    } else {
                        rs
                    };
                    lemma_utf8_len_concat(out, v);
                    lemma_fill_from_prefix(t, values, m, out + v, rs2);
                    let f = fill_from(t, values, m, out + v, rs2).0;
                    lemma_utf8_len_take_le(f, (out + v).len() as int, f.len() as int);
                    assert(f.take(f.len() as int) == f);
                    lemma_ranges_mark_extend(out, v, rs, values);
                    if e > s {
                        let r = (s as usize, e as usize, ((n - 1) % 8) as u8);
                        lemma_marks_appended(out, v, r);
                        assert forall|j: int| 0 <= j < rs2.len() implies #[trigger] marks_some_value(
                            out + v,
                            rs2[j],
                            values,
                        ) by {
                            if j < rs.len() {
                                assert(rs2[j] == rs[j]);
                                assert(marks_some_value(out + v, rs[j], values));
                            } else {
                                assert(rs2[j] == r);
                                assert(marks_value(out + v, rs2[j], values[n - 1]));
                            }
                        }
                    }
                    lemma_fill_from_marks(t, values, m, out + v, rs2);
                } else {
                    lemma_ranges_mark_extend(out, t.subrange(i, m), rs, values);
                    lemma_fill_from_marks(t, values, m, out + t.subrange(i, m), rs);
                }
            },
            None => {
                lemma_ranges_mark_extend(out, seq![t[i]], rs, values);
                assert(out + seq![t[i]] == out.push(t[i]));
                lemma_fill_from_marks(t, values, i + 1, out.push(t[i]), rs);
            },
        }
    }
}

/// When the filled text needs no trimming, each of its ranges holds exactly
/// the value put in for a placeholder `%N`, with colour `(N - 1) % 8`.
pub proof fn lemma_fill_template_marks(t: Seq<char>, values: Seq<Seq<char>>)
    requires
        utf8_len(fill_untrimmed(t, values).0) <= usize::MAX,
        leading_ws(fill_untrimmed(t, values).0) == 0,
        trailing_ws(fill_untrimmed(t, values).0) == 0,
    ensures
        ranges_mark_values(fill_template_spec(t, values).0, fill_template_spec(t, values).1, values),
{
    let out = fill_untrimmed(t, values).0;
    assert(ranges_mark_values(Seq::empty(), Seq::<(usize, usize, u8)>::empty(), values));
    lemma_fill_from_marks(t, values, 0, Seq::empty(), Seq::empty());
    assert(trim_start_spec(out) == out);
    assert(trim_spec(out) == out);
}

/// Each range ends before the next starts.
pub open spec fn ranges_in_order(rs: Seq<(usize, usize, u8)>) -> bool {
    forall|j: int, k: int| 0 <= j < k < rs.len() ==> #[trigger] rs[j].1 <= #[trigger] rs[k].0
}

/// The segment `p` is one of the values, drawn in that value's colour.
pub open spec fn is_value_part(p: (Seq<char>, SegmentStyle), values: Seq<Seq<char>>) -> bool {
    exists|i: int| 0 <= i < values.len() && #[trigger] values[i] == p.0 && p.1 == SegmentStyle::Field((i % 8) as u8)
}

/// Ranges that mark values, in order and within the text, make the coloured
/// field segments of the text exactly those values, in their colours.
pub proof fn lemma_fields_show_values(text: Seq<char>, rs: Seq<(usize, usize, u8)>, values: Seq<Seq<char>>)
    requires
        ranges_within(rs, utf8_len(text) as int),
        ranges_in_order(rs),
        ranges_mark_values(text, rs, values),
    ensures
        field_segments(text, rs) matches Some(segs) && {
            &&& field_parts(segs).len() == rs.len()
            &&& forall|j: int| 0 <= j < rs.len() ==> #[trigger] is_value_part(field_parts(segs)[j], values)
        },
{
    assert forall|j: int| 0 <= j < rs.len() implies #[trigger] rs[j].0 < rs[j].1 && rs[j].1 <= utf8_len(text)
        && byte_to_char(text, rs[j].0 as int) is Some && byte_to_char(text, rs[j].1 as int) is Some by {
        assert(marks_some_value(text, rs[j], values));
    }
    assert(sorted_ranges(text, rs));
    lemma_field_segments_sorted(text, rs);
    let segs = field_segments(text, rs)->0;
    assert forall|j: int| 0 <= j < rs.len() implies #[trigger] is_value_part(field_parts(segs)[j], values) by {
        assert(marks_some_value(text, rs[j], values));
        let i = choose|i: int| 0 <= i < values.len() && rs[j].2 == (i % 8) as u8 && #[trigger] marks_value(text, rs[j], values[i]);
        assert(field_parts(segs)[j] == range_field(text, rs[j]));
        assert(values[i] == field_parts(segs)[j].0);
    }
}

proof fn lemma_ranges_within_mono(rs: Seq<(usize, usize, u8)>, a: int, b: int)
    requires
        ranges_within(rs, a),
        a <= b,
    ensures
        ranges_within(rs, b),
{
    assert forall|j: int| 0 <= j < rs.len() implies #[trigger] rs[j].0 < rs[j].1 && rs[j].1 <= b by {
        assert(rs[j].0 < rs[j].1 && rs[j].1 <= a);
    }
}

proof fn lemma_fill_from_in_order(
    t: Seq<char>,
    values: Seq<Seq<char>>,
    i: int,
    out: Seq<char>,
    rs: Seq<(usize, usize, u8)>,
)
    requires
        ranges_within(rs, utf8_len(out) as int),
        ranges_in_order(rs),
        utf8_len(fill_from(t, values, i, out, rs).0) <= usize::MAX,
    ensures
        ranges_in_order(fill_from(t, values, i, out, rs).1),
    decreases t.len() - i,
{
    if 0 <= i < t.len() {
        match placeholder_at(t, i) {
            Some((d, m)) => {
                lemma_placeholder_bounds(t, i);
                let n = placeholder_number(t, i, d);
                if 1 <= n <= values.len() {
                    let v = values[n - 1];
                    let s = utf8_len(out);
                    let e = utf8_len(out + v);
                    let rs2 = if e > s {
                        rs.push((s as usize, e as usize, ((n - 1) % 8) as u8))
                    } else {
                        rs
                    };
                    lemma_utf8_len_concat(out, v);
                    lemma_fill_from_prefix(t, values, m, out + v, rs2);
                    let f = fill_from(t, values, m, out + v, rs2).0;
                    lemma_utf8_len_take_le(f, (out + v).len() as int, f.len() as int);
                    assert(f.take(f.len() as int) == f);
                    if e > s {
                        assert forall|j: int, k: int| 0 <= j < k < rs2.len() implies #[trigger] rs2[j].1
                            <= #[trigger] rs2[k].0 by {
                            assert(rs2[j] == rs[j]);
                            assert(rs[j].0 < rs[j].1 && rs[j].1 <= s);
                            if k < rs.len() {
                                assert(rs2[k] == rs[k]);
                            } else {
                                assert(rs2[k].0 as int == s);
                            }
                        }
                        assert forall|j: int| 0 <= j < rs2.len() implies #[trigger] rs2[j].0 < rs2[j].1
                            && rs2[j].1 <= e by {
                            if j < rs.len() {
                                assert(rs2[j] == rs[j]);
                            }
                        }
                    }
                    lemma_fill_from_in_order(t, values, m, out + v, rs2);
                } else {
                    lemma_utf8_len_concat(out, t.subrange(i, m));
                    lemma_ranges_within_mono(rs, utf8_len(out) as int, utf8_len(out + t.subrange(i, m)) as int);
                    lemma_fill_from_in_order(t, values, m, out + t.subrange(i, m), rs);
                }
            },
            None => {
                lemma_utf8_len_push(out, t[i]);
                lemma_ranges_within_mono(rs, utf8_len(out) as int, utf8_len(out.push(t[i])) as int);
                lemma_fill_from_in_order(t, values, i + 1, out.push(t[i]), rs);
            },
        }
    }
}

/// When the filled text needs no trimming, its coloured field segments are
/// exactly the values put in for its placeholders, each in the colour of its
/// placeholder number.
pub proof fn lemma_fill_template_fields(t: Seq<char>, values: Seq<Seq<char>>)
    requires
        utf8_len(fill_untrimmed(t, values).0) <= usize::MAX,
        leading_ws(fill_untrimmed(t, values).0) == 0,
        trailing_ws(fill_untrimmed(t, values).0) == 0,
    ensures
        ({
            let (text, rs) = fill_template_spec(t, values);
            field_segments(text, rs) matches Some(segs) && {
                &&& field_parts(segs).len() == rs.len()
                &&& forall|j: int| 0 <= j < rs.len() ==> #[trigger] is_value_part(field_parts(segs)[j], values)
            }
        }),
{
    lemma_fill_template_marks(t, values);
    lemma_fill_template_ranges(t, values);
    lemma_fill_from_in_order(t, values, 0, Seq::empty(), Seq::empty());
    let out = fill_untrimmed(t, values).0;
    assert(trim_start_spec(out) == out);
    assert(trim_spec(out) == out);
    lemma_fields_show_values(fill_template_spec(t, values).0, fill_template_spec(t, values).1, values);
}

} // verus!
