use vstd::prelude::*;
use crate::pattern::{Pattern, regex_find_spans, well_formed_spans};
use crate::text::{char_width, chars_of, string_of, sub_chars, utf8_len, utf8_width, lemma_utf8_len_push};

verus! {

/// How a piece of a message is drawn.
#[derive(Clone, Copy, Debug, PartialEq, Eq, Structural)]
pub enum SegmentStyle {
    /// Template text.
    Plain,
    /// A substituted field value, with its colour index (below 8).
    Field(u8),
    /// A search match.
    SearchHit,
}

/// A piece of a message with its style.
#[derive(Debug)]
pub struct Segment {
    pub text: String,
    pub style: SegmentStyle,
}

pub open spec fn seg_views(v: Seq<Segment>) -> Seq<(Seq<char>, SegmentStyle)> {
    v.map_values(|s: Segment| (s.text@, s.style))
}

fn segment(text: &Vec<char>, style: SegmentStyle) -> (s: Segment)
    ensures
        s.text@ == text@,
        s.style == style,
{
    Segment { text: string_of(text.as_slice()), style }
}

/* ---------- Byte offsets in character sequences ---------- */

/// The number of characters whose UTF-8 encoding takes the first `b` bytes of
/// `t`, or `None` when byte `b` is inside a character or past the end.
pub open spec fn byte_to_char(t: Seq<char>, b: int) -> Option<int>
    decreases t.len(),
{
    if b == 0 {
        Some(0)
    } else if t.len() == 0 || b < utf8_width(t[0]) {
        None
    } else {
        match byte_to_char(t.drop_first(), b - utf8_width(t[0])) {
            Some(k) => Some(k + 1),
            None => None,
        }
    }
}

pub proof fn lemma_byte_to_char_bound(t: Seq<char>, b: int)
    ensures
        byte_to_char(t, b) matches Some(k) ==> 0 <= k <= t.len() && utf8_len(t.take(k)) == b,
    decreases t.len(),
{
    if b != 0 && t.len() > 0 && b >= utf8_width(t[0]) {
        lemma_byte_to_char_bound(t.drop_first(), b - utf8_width(t[0]));
        if let Some(k) = byte_to_char(t.drop_first(), b - utf8_width(t[0])) {
            assert(t.take(k + 1).drop_first() == t.drop_first().take(k));
        }
    }
    if b == 0 {
        assert(t.take(0).len() == 0);
    }
}

proof fn lemma_byte_to_char_step(t: Seq<char>, b: int, k: int, acc: int)
    requires
        0 <= k < t.len(),
        acc == utf8_len(t.take(k)),
        acc < b,
    ensures
        byte_to_char(t.skip(k), b - acc) == (match byte_to_char(t.skip(k + 1), b - acc - utf8_width(t[k])) {
            Some(j) => Some(j + 1),
            None => None::<int>,
        }),
{
    let r = t.skip(k);
    assert(r[0] == t[k]);
    assert(r.drop_first() == t.skip(k + 1));
}

/// Byte positions past a prefix `a` fall in `b`, shifted by its length.
pub proof fn lemma_byte_to_char_concat(a: Seq<char>, b: Seq<char>, x: int)
    requires
        0 <= x,
    ensures
        byte_to_char(a + b, utf8_len(a) + x) == (match byte_to_char(b, x) {
            Some(k) => Some(k + a.len()),
            None => None::<int>,
        }),
    decreases a.len(),
{
    if a.len() == 0 {
        assert(a + b == b);
    } else {
        let ab = a + b;
        assert(ab[0] == a[0]);
        assert(ab.drop_first() == a.drop_first() + b);
        assert(utf8_len(a) == utf8_width(a[0]) + utf8_len(a.drop_first()));
        lemma_byte_to_char_concat(a.drop_first(), b, x);
    }
}

/// A character boundary of `a` stays one, at the same character, in `a + b`.
pub proof fn lemma_byte_to_char_extend(a: Seq<char>, b: Seq<char>, y: int)
    requires
        byte_to_char(a, y) is Some,
    ensures
        byte_to_char(a + b, y) == byte_to_char(a, y),
    decreases a.len(),
{
    if y != 0 {
        let ab = a + b;
        assert(ab[0] == a[0]);
        assert(ab.drop_first() == a.drop_first() + b);
        lemma_byte_to_char_extend(a.drop_first(), b, y - utf8_width(a[0]));
    }
}

/// The byte range `r` of `text` lies on character boundaries and holds
/// exactly the characters `v`.
pub open spec fn marks_value(text: Seq<char>, r: (usize, usize, u8), v: Seq<char>) -> bool {
    &&& byte_to_char(text, r.0 as int) is Some
    &&& byte_to_char(text, r.1 as int) == Some(byte_to_char(text, r.0 as int)->0 + v.len())
    &&& text.subrange(
        byte_to_char(text, r.0 as int)->0,
        byte_to_char(text, r.0 as int)->0 + v.len(),
    ) == v
}

/// Appending `v` to `head` makes the range of its bytes mark `v`.
pub proof fn lemma_marks_appended(head: Seq<char>, v: Seq<char>, r: (usize, usize, u8))
    requires
        r.0 == utf8_len(head),
        r.1 == utf8_len(head) + utf8_len(v),
    ensures
        marks_value(head + v, r, v),
{
    lemma_byte_to_char_concat(head, v, 0);
    lemma_byte_to_char_concat(head, v, utf8_len(v) as int);
    lemma_byte_to_char_concat(v, Seq::<char>::empty(), 0);
    assert(v + Seq::<char>::empty() == v);
    assert((head + v).subrange(head.len() as int, (head.len() + v.len()) as int) == v);
}

/// A range that marks `v` in `text` still does after more text is appended.
pub proof fn lemma_marks_extend(text: Seq<char>, more: Seq<char>, r: (usize, usize, u8), v: Seq<char>)
    requires
        marks_value(text, r, v),
    ensures
        marks_value(text + more, r, v),
{
    lemma_byte_to_char_extend(text, more, r.0 as int);
    lemma_byte_to_char_extend(text, more, r.1 as int);
    lemma_byte_to_char_bound(text, r.0 as int);
    lemma_byte_to_char_bound(text, r.1 as int);
    let k = byte_to_char(text, r.0 as int)->0;
    assert((text + more).subrange(k, k + v.len()) == text.subrange(k, k + v.len()));
}

/// The character position of byte `b` of `t`, as `byte_to_char`.
pub fn char_index(t: &Vec<char>, b: usize) -> (r: Option<usize>)
    ensures
        match r {
            Some(k) => byte_to_char(t@, b as int) == Some(k as int),
            None => byte_to_char(t@, b as int) is None,
        },
{
    let mut k: usize = 0;
    let mut acc: usize = 0;
    assert(t@.skip(0) == t@);
    while k < t.len() && acc < b
        invariant
            k <= t@.len(),
            acc <= b,
            acc == utf8_len(t@.take(k as int)),
            byte_to_char(t@, b as int) == (match byte_to_char(t@.skip(k as int), b - acc) {
                Some(j) => Some(j + k),
                None => None::<int>,
            }),
        decreases t@.len() - k,
    {
        let w = char_width(t[k]);
        proof {
            lemma_byte_to_char_step(t@, b as int, k as int, acc as int);
            lemma_utf8_len_push(t@.take(k as int), t@[k as int]);
            assert(t@.take(k + 1) == t@.take(k as int).push(t@[k as int]));
        }
        if b - acc < w {
            return None;
        }
        acc = acc + w;
        k = k + 1;
    }
    if acc == b {
        Some(k)
    } else {
        assert(t@.skip(k as int).len() == 0);
        None
    }
}

/* ---------- Field colouring ---------- */

/// Scanning the field ranges from `k` with the text up to byte `pos` already
/// cut into `acc`: a range (clamped to the text) that starts before `pos` or is
/// empty is skipped; otherwise the template text before it and the value are
/// cut off. `None` when a cut falls inside a character (slicing would panic).
pub open spec fn field_scan(
    t: Seq<char>,
    ranges: Seq<(usize, usize, u8)>,
    k: int,
    pos: int,
    acc: Seq<(Seq<char>, SegmentStyle)>,
) -> Option<(Seq<(Seq<char>, SegmentStyle)>, int)>
    decreases ranges.len() - k,
{
    if k < 0 || k >= ranges.len() {
        Some((acc, pos))
    } else {
        let blen = utf8_len(t) as int;
        let s = if ranges[k].0 <= blen {
            ranges[k].0 as int
        } else {
            blen
        };
        let e = if ranges[k].1 <= blen {
            ranges[k].1 as int
        } else {
            blen
        };
        if s < pos || s >= e {
            field_scan(t, ranges, k + 1, pos, acc)
        } else {
            match (byte_to_char(t, pos), byte_to_char(t, s), byte_to_char(t, e)) {
                (Some(cp), Some(cs), Some(ce)) => {
                    let acc1 = if pos < s {
                        acc.push((t.subrange(cp, cs), SegmentStyle::Plain))
                    } else {
                        acc
                    };
                    field_scan(
                        t,
                        ranges,
                        k + 1,
                        e,
                        acc1.push((t.subrange(cs, ce), SegmentStyle::Field(ranges[k].2 % 8))),
                    )
                },
                _ => None,
            }
        }
    }
}

/// The message cut into template text and coloured field values; `None` when a
/// range would cut a character.
pub open spec fn field_segments(t: Seq<char>, ranges: Seq<(usize, usize, u8)>) -> Option<
    Seq<(Seq<char>, SegmentStyle)>,
> {
    match field_scan(t, ranges, 0int, 0int, Seq::<(Seq<char>, SegmentStyle)>::empty()) {
        Some((acc, pos)) => {
            let acc1 = if pos < utf8_len(t) {
                match byte_to_char(t, pos) {
                    Some(cp) => acc.push((t.skip(cp), SegmentStyle::Plain)),
                    None => acc,
                }
            } else {
                acc
            };
            Some(
                if acc1.len() == 0 {
                    seq![(t, SegmentStyle::Plain)]
                } else {
                    acc1
                },
            )
        },
        None => None,
    }
}

proof fn lemma_utf8_take_mono(t: Seq<char>, i: int, j: int)
    requires
        0 <= i < j <= t.len(),
    ensures
        utf8_len(t.take(i)) < utf8_len(t.take(j)),
    decreases j - i,
{
    lemma_utf8_len_push(t.take(j - 1), t[j - 1]);
    assert(t.take(j) == t.take(j - 1).push(t[j - 1]));
    if i < j - 1 {
        lemma_utf8_take_mono(t, i, j - 1);
    }
}

/// Character positions of boundaries are ordered as the bytes are.
proof fn lemma_byte_to_char_mono(t: Seq<char>, x: int, y: int)
    requires
        x <= y,
        byte_to_char(t, x) is Some,
        byte_to_char(t, y) is Some,
    ensures
        byte_to_char(t, x)->0 <= byte_to_char(t, y)->0,
{
    lemma_byte_to_char_bound(t, x);
    lemma_byte_to_char_bound(t, y);
    let i = byte_to_char(t, x)->0;
    let j = byte_to_char(t, y)->0;
    if i > j {
        lemma_utf8_take_mono(t, j, i);
    }
}

proof fn lemma_field_segments_none(t: Seq<char>, ranges: Seq<(usize, usize, u8)>)
    requires
        field_scan(t, ranges, 0int, 0int, Seq::<(Seq<char>, SegmentStyle)>::empty()) is None,
    ensures
        field_segments(t, ranges) is None,
{
}

/// The coloured field values among the segments, in order.
pub open spec fn field_parts(segs: Seq<(Seq<char>, SegmentStyle)>) -> Seq<(Seq<char>, SegmentStyle)>
    decreases segs.len(),
{
    if segs.len() == 0 {
        Seq::empty()
    } else if segs.last().1 is Field {
        field_parts(segs.drop_last()).push(segs.last())
    } else {
        field_parts(segs.drop_last())
    }
}

/// The ranges are non-empty, lie on character boundaries of `t`, and come in
/// order without overlapping.
pub open spec fn sorted_ranges(t: Seq<char>, rs: Seq<(usize, usize, u8)>) -> bool {
    &&& forall|j: int|
        0 <= j < rs.len() ==> #[trigger] rs[j].0 < rs[j].1 && rs[j].1 <= utf8_len(t) && byte_to_char(
            t,
            rs[j].0 as int,
        ) is Some && byte_to_char(t, rs[j].1 as int) is Some
    &&& forall|j: int, k: int| 0 <= j < k < rs.len() ==> #[trigger] rs[j].1 <= #[trigger] rs[k].0
}

/// The field segment a range gives.
pub open spec fn range_field(t: Seq<char>, r: (usize, usize, u8)) -> (Seq<char>, SegmentStyle) {
    (
        t.subrange(byte_to_char(t, r.0 as int)->0, byte_to_char(t, r.1 as int)->0),
        SegmentStyle::Field(r.2 % 8),
    )
}

/// The field segments that sorted ranges give, in order.
pub open spec fn range_fields(t: Seq<char>, rs: Seq<(usize, usize, u8)>) -> Seq<(Seq<char>, SegmentStyle)> {
    Seq::new(rs.len(), |j: int| range_field(t, rs[j]))
}

proof fn lemma_field_parts_push(segs: Seq<(Seq<char>, SegmentStyle)>, x: (Seq<char>, SegmentStyle))
    ensures
        field_parts(segs.push(x)) == (if x.1 is Field {
            field_parts(segs).push(x)
        } else {
            field_parts(segs)
        }),
{
    assert(segs.push(x).drop_last() == segs);
}

proof fn lemma_field_scan_sorted(
    t: Seq<char>,
    rs: Seq<(usize, usize, u8)>,
    k: int,
    pos: int,
    acc: Seq<(Seq<char>, SegmentStyle)>,
)
    requires
        sorted_ranges(t, rs),
        0 <= k <= rs.len(),
        0 <= pos <= utf8_len(t),
        byte_to_char(t, pos) is Some,
        k < rs.len() ==> pos <= rs[k].0,
        field_parts(acc) == range_fields(t, rs.take(k)),
        acc.len() > 0 || k == 0,
    ensures
        field_scan(t, rs, k, pos, acc) matches Some((a, _)) && field_parts(a) == range_fields(t, rs)
            && (a.len() > 0 || rs.len() == 0),
    decreases rs.len() - k,
{
    if k == rs.len() {
        assert(rs.take(k) == rs);
    } else {
        let blen = utf8_len(t) as int;
        let s = rs[k].0 as int;
        let e = rs[k].1 as int;
        let cp = byte_to_char(t, pos)->0;
        let cs = byte_to_char(t, s)->0;
        let ce = byte_to_char(t, e)->0;
        let acc1 = if pos < s {
            acc.push((t.subrange(cp, cs), SegmentStyle::Plain))
        } else {
            acc
        };
        if pos < s {
            lemma_field_parts_push(acc, (t.subrange(cp, cs), SegmentStyle::Plain));
        }
        let f = (t.subrange(cs, ce), SegmentStyle::Field(rs[k].2 % 8));
        lemma_field_parts_push(acc1, f);
        assert(rs.take(k + 1) == rs.take(k).push(rs[k]));
        assert(range_fields(t, rs.take(k + 1)) == range_fields(t, rs.take(k)).push(range_field(t, rs[k])));
        if k + 1 < rs.len() {
            assert(rs[k].1 <= rs[k + 1].0);
        }
        lemma_field_scan_sorted(t, rs, k + 1, e, acc1.push(f));
    }
}

/// Sorted ranges on character boundaries colour exactly their own text, in
/// order: the field segments of the message are the ranges' texts.
pub proof fn lemma_field_segments_sorted(t: Seq<char>, rs: Seq<(usize, usize, u8)>)
    requires
        sorted_ranges(t, rs),
    ensures
        field_segments(t, rs) matches Some(segs) && field_parts(segs) == range_fields(t, rs),
{
    let e = Seq::<(Seq<char>, SegmentStyle)>::empty();
    assert(rs.take(0).len() == 0);
    assert(range_fields(t, rs.take(0)) == Seq::<(Seq<char>, SegmentStyle)>::empty());
    lemma_field_scan_sorted(t, rs, 0, 0, e);
    match field_scan(t, rs, 0int, 0int, e) {
        Some((acc, pos)) => {
            if pos < utf8_len(t) {
                match byte_to_char(t, pos) {
                    Some(cp) => lemma_field_parts_push(acc, (t.skip(cp), SegmentStyle::Plain)),
                    None => {},
                }
            }
            let acc1 = if pos < utf8_len(t) {
                match byte_to_char(t, pos) {
                    Some(cp) => acc.push((t.skip(cp), SegmentStyle::Plain)),
                    None => acc,
                }
            } else {
                acc
            };
            if acc1.len() == 0 {
                let d = seq![(t, SegmentStyle::Plain)];
                lemma_field_parts_push(Seq::empty(), (t, SegmentStyle::Plain));
                assert(Seq::<(Seq<char>, SegmentStyle)>::empty().push((t, SegmentStyle::Plain)) == d);
                assert(range_fields(t, rs) == Seq::<(Seq<char>, SegmentStyle)>::empty());
            }
        },
        None => {},
    }
}

/// Cuts a message into template text and coloured field values, following
/// its field ranges; `None` when a range would cut inside a character.
pub fn field_segments_of(text: &str, ranges: &[(usize, usize, u8)]) -> (r: Option<Vec<Segment>>)
    requires
        utf8_len(text@) <= usize::MAX,
    ensures
        match r {
            Some(v) => field_segments(text@, ranges@) == Some(seg_views(v@)),
            None => field_segments(text@, ranges@) is None,
        },
{
    let t = chars_of(text);
    let blen = crate::template::byte_len(&t);
    let ghost fin = field_scan(text@, ranges@, 0int, 0int, Seq::<(Seq<char>, SegmentStyle)>::empty());
    let mut acc: Vec<Segment> = Vec::new();
    let mut pos: usize = 0;
    let mut cp: usize = 0;
    let mut k: usize = 0;
    assert(seg_views(acc@) == Seq::<(Seq<char>, SegmentStyle)>::empty());
    while k < ranges.len()
        invariant
            t@ == text@,
            fin == field_scan(text@, ranges@, 0int, 0int, Seq::<(Seq<char>, SegmentStyle)>::empty()),
            blen == utf8_len(t@),
            k <= ranges@.len(),
            field_scan(t@, ranges@, k as int, pos as int, seg_views(acc@)) == fin,
            byte_to_char(t@, pos as int) == Some(cp as int),
            pos <= blen,
            cp <= t@.len(),
        decreases ranges@.len() - k,
    {
        let (start, end, c) = ranges[k];
        let s = if start <= blen {
            start
        } else {
            blen
        };
        let e = if end <= blen {
            end
        } else {
            blen
        };
        if s < pos || s >= e {
            k = k + 1;
            continue;
        }
        let cs = match char_index(&t, s) {
            Some(i) => i,
            None => {
                assert(field_scan(t@, ranges@, k as int, pos as int, seg_views(acc@)) is None);
                assert(fin is None);
                proof { lemma_field_segments_none(text@, ranges@); }
                return None;
            },
        };
        let ce = match char_index(&t, e) {
            Some(i) => i,
            None => {
                assert(field_scan(t@, ranges@, k as int, pos as int, seg_views(acc@)) is None);
                assert(fin is None);
                proof { lemma_field_segments_none(text@, ranges@); }
                return None;
            },
        };
        proof {
            lemma_byte_to_char_mono(t@, pos as int, s as int);
            lemma_byte_to_char_mono(t@, s as int, e as int);
            lemma_byte_to_char_bound(t@, e as int);
        }
        let ghost before = seg_views(acc@);
        if pos < s {
            acc.push(segment(&sub_chars(&t, cp, cs), SegmentStyle::Plain));
        }
        acc.push(segment(&sub_chars(&t, cs, ce), SegmentStyle::Field(c % 8)));
        proof {
            let acc1 = if pos < s {
                before.push((t@.subrange(cp as int, cs as int), SegmentStyle::Plain))
            } else {
                before
            };
            assert(seg_views(acc@) == acc1.push(
                (t@.subrange(cs as int, ce as int), SegmentStyle::Field(c % 8)),
            ));
        }
        pos = e;
        cp = ce;
        k = k + 1;
    }
    let ghost before = seg_views(acc@);
    if pos < blen {
        acc.push(segment(&sub_chars(&t, cp, t.len()), SegmentStyle::Plain));
        assert(t@.subrange(cp as int, t@.len() as int) == t@.skip(cp as int));
        assert(seg_views(acc@) == before.push((t@.skip(cp as int), SegmentStyle::Plain)));
    }
    if acc.len() == 0 {
        acc.push(segment(&t, SegmentStyle::Plain));
        assert(seg_views(acc@) == seq![(t@, SegmentStyle::Plain)]);
    }
    Some(acc)
}

/* ---------- Search highlighting ---------- */

/// The byte spans as character positions.
pub open spec fn char_spans(x: Seq<char>, spans: Seq<(usize, usize)>) -> Seq<(int, int)> {
    Seq::new(
        spans.len(),
        |i: int| (byte_to_char(x, spans[i].0 as int)->0, byte_to_char(x, spans[i].1 as int)->0),
    )
}

/// Cutting `x` (drawn with `st`) at the matches `cs` from match `i`, the text
/// up to `last` being done: text between matches keeps `st`, matches are
/// highlighted; an untouched segment stays as it is.
pub open spec fn highlight_from(
    x: Seq<char>,
    st: SegmentStyle,
    cs: Seq<(int, int)>,
    i: int,
    last: int,
    acc: Seq<(Seq<char>, SegmentStyle)>,
) -> Seq<(Seq<char>, SegmentStyle)>
    decreases cs.len() - i,
{
    if i < 0 || i >= cs.len() {
        if last < x.len() {
            acc.push((x.subrange(last, x.len() as int), st))
        } else if last == 0 {
            acc.push((x, st))
        } else {
            acc
        }
    } else {
        let a = cs[i].0;
        let b = cs[i].1;
        let acc1 = if a > last {
            acc.push((x.subrange(last, a), st))
        } else {
            acc
        };
        highlight_from(x, st, cs, i + 1, b, acc1.push((x.subrange(a, b), SegmentStyle::SearchHit)))
    }
}

/// One segment with the matches of `pattern` highlighted.
pub open spec fn highlight_segment(pattern: Seq<char>, x: Seq<char>, st: SegmentStyle) -> Seq<
    (Seq<char>, SegmentStyle),
> {
    highlight_from(x, st, char_spans(x, regex_find_spans(pattern, x)), 0, 0, Seq::empty())
}

/// All segments with the matches of `pattern` highlighted.
pub open spec fn highlight_all(pattern: Seq<char>, segs: Seq<(Seq<char>, SegmentStyle)>) -> Seq<
    (Seq<char>, SegmentStyle),
>
    decreases segs.len(),
{
    if segs.len() == 0 {
        Seq::empty()
    } else {
        highlight_all(pattern, segs.drop_last()) + highlight_segment(
            pattern,
            segs.last().0,
            segs.last().1,
        )
    }
}

fn highlight_one(seg: &Segment, re: &Pattern) -> (r: Vec<Segment>)
    ensures
        seg_views(r@) == highlight_segment(re@, seg.text@, seg.style),
        well_formed_spans(seg.text@, regex_find_spans(re@, seg.text@)),
{
    let x = chars_of(seg.text.as_str());
    let spans = re.find_spans(seg.text.as_str());
    let ghost cs = char_spans(x@, spans@);
    let ghost fin = highlight_segment(re@, seg.text@, seg.style);
    let mut acc: Vec<Segment> = Vec::new();
    let mut last: usize = 0;
    let mut i: usize = 0;
    assert(seg_views(acc@) == Seq::<(Seq<char>, SegmentStyle)>::empty());
    while i < spans.len()
        invariant
            x@ == seg.text@,
            spans@ == regex_find_spans(re@, seg.text@),
            well_formed_spans(x@, spans@),
            cs == char_spans(x@, spans@),
            fin == highlight_segment(re@, seg.text@, seg.style),
            i <= spans@.len(),
            last <= x@.len(),
            i > 0 ==> last == cs[i - 1].1,
            i == 0 ==> last == 0,
            highlight_from(x@, seg.style, cs, i as int, last as int, seg_views(acc@)) == fin,
        decreases spans@.len() - i,
    {
        let (sb, eb) = spans[i];
        let a = match char_index(&x, sb) {
            Some(k) => k,
            None => 0,
        };
        let b = match char_index(&x, eb) {
            Some(k) => k,
            None => 0,
        };
        proof {
            assert(spans@[i as int].0 <= spans@[i as int].1);
            lemma_byte_to_char_mono(x@, sb as int, eb as int);
            lemma_byte_to_char_bound(x@, eb as int);
            if i > 0 {
                let (pb, qb) = spans@[i - 1];
                assert(qb <= sb);
                lemma_byte_to_char_mono(x@, qb as int, sb as int);
            }
            assert(cs[i as int] == (a as int, b as int));
        }
        let ghost before = seg_views(acc@);
        if a > last {
            acc.push(segment(&sub_chars(&x, last, a), seg.style));
        }
        acc.push(segment(&sub_chars(&x, a, b), SegmentStyle::SearchHit));
        proof {
            let acc1 = if a > last {
                before.push((x@.subrange(last as int, a as int), seg.style))
            } else {
                before
            };
            assert(seg_views(acc@) == acc1.push((x@.subrange(a as int, b as int), SegmentStyle::SearchHit)));
        }
        last = b;
        i = i + 1;
    }
    let ghost before = seg_views(acc@);
    if last < x.len() {
        acc.push(segment(&sub_chars(&x, last, x.len()), seg.style));
        assert(seg_views(acc@) == before.push((x@.subrange(last as int, x@.len() as int), seg.style)));
    } else if last == 0 {
        acc.push(segment(&x, seg.style));
        assert(seg_views(acc@) == before.push((x@, seg.style)));
    }
    acc
}

/// Overlays the matches of `re` on the segments (a match takes the highlight
/// style, the rest keeps its own).
pub fn apply_search_highlight(spans: Vec<Segment>, re: &Pattern) -> (r: Vec<Segment>)
    ensures
        seg_views(r@) == highlight_all(re@, seg_views(spans@)),
        flat(seg_views(r@)) == flat(seg_views(spans@)),
{
    let mut result: Vec<Segment> = Vec::new();
    let mut k: usize = 0;
    let ghost segs = seg_views(spans@);
    assert(seg_views(result@) == Seq::<(Seq<char>, SegmentStyle)>::empty());
    while k < spans.len()
        invariant
            segs == seg_views(spans@),
            k <= spans@.len(),
            seg_views(result@) == highlight_all(re@, segs.take(k as int)),
            forall|i: int|
                0 <= i < k ==> well_formed_spans(
                    #[trigger] segs[i].0,
                    regex_find_spans(re@, segs[i].0),
                ),
        decreases spans@.len() - k,
    {
        let mut part = highlight_one(&spans[k], re);
        assert(segs[k as int].0 == spans@[k as int].text@);
        let ghost before = seg_views(result@);
        let ghost added = seg_views(part@);
        result.append(&mut part);
        assert(seg_views(result@) == before + added);
        assert(segs.take(k + 1).drop_last() == segs.take(k as int));
        k = k + 1;
    }
    assert(segs.take(spans@.len() as int) == segs);
    proof {
        lemma_highlight_keeps_text(re@, segs);
    }
    result
}


/* ---------- Text of a line ---------- */

/// The characters of a line, segment after segment.
pub open spec fn flat(segs: Seq<(Seq<char>, SegmentStyle)>) -> Seq<char>
    decreases segs.len(),
{
    if segs.len() == 0 {
        Seq::empty()
    } else {
        flat(segs.drop_last()) + segs.last().0
    }
}

pub proof fn lemma_flat_concat(a: Seq<(Seq<char>, SegmentStyle)>, b: Seq<(Seq<char>, SegmentStyle)>)
    ensures
        flat(a + b) == flat(a) + flat(b),
    decreases b.len(),
{
    if b.len() == 0 {
        assert(a + b == a);
    } else {
        lemma_flat_concat(a, b.drop_last());
        assert((a + b).drop_last() == a + b.drop_last());
    }
}

proof fn lemma_flat_single(e: (Seq<char>, SegmentStyle))
    ensures
        flat(seq![e]) == e.0,
{
    let s = seq![e];
    assert(s.drop_last() == Seq::<(Seq<char>, SegmentStyle)>::empty());
    assert(flat(s.drop_last()) == Seq::<char>::empty());
    assert(s.last() == e);
    assert(Seq::<char>::empty() + e.0 == e.0);
}

/* ---------- Horizontal scrolling ---------- */

/// The segments with their first `r` characters dropped: a segment that lies
/// wholly in the dropped part goes, the one where it ends loses its head.
pub open spec fn hscroll_spec(segs: Seq<(Seq<char>, SegmentStyle)>, r: int) -> Seq<
    (Seq<char>, SegmentStyle),
>
    decreases segs.len(),
{
    if segs.len() == 0 || r <= 0 {
        segs
    } else if r >= segs[0].0.len() {
        hscroll_spec(segs.drop_first(), r - segs[0].0.len())
    } else {
        seq![(segs[0].0.skip(r), segs[0].1)] + segs.drop_first()
    }
}

/// Shifts a line left by `offset` characters.
pub fn hscroll_line(segs: Vec<Segment>, offset: usize) -> (r: Vec<Segment>)
    ensures
        seg_views(r@) == hscroll_spec(seg_views(segs@), offset as int),
{
    if offset == 0 {
        return segs;
    }
    let ghost all = seg_views(segs@);
    let mut out: Vec<Segment> = Vec::new();
    let mut remaining: usize = offset;
    let mut k: usize = 0;
    assert(all.skip(0) == all);
    assert(seg_views(out@) + all == all);
    while k < segs.len()
        invariant
            all == seg_views(segs@),
            k <= segs@.len(),
            hscroll_spec(all, offset as int) == seg_views(out@) + hscroll_spec(
                all.skip(k as int),
                remaining as int,
            ),
        decreases segs@.len() - k,
    {
        let ghost rest = all.skip(k as int);
        assert(rest[0] == all[k as int]);
        assert(rest.drop_first() == all.skip(k + 1));
        let ghost before = seg_views(out@);
        if remaining == 0 {
            out.push(Segment { text: segs[k].text.clone(), style: segs[k].style });
            assert(seg_views(out@) == before.push(all[k as int]));
            assert(rest == seq![all[k as int]] + all.skip(k + 1));
            assert(seg_views(out@) + all.skip(k + 1) == before + rest);
        } else {
            let x = chars_of(segs[k].text.as_str());
            if remaining >= x.len() {
                remaining = remaining - x.len();
            } else {
                out.push(segment(&sub_chars(&x, remaining, x.len()), segs[k].style));
                assert(x@.subrange(remaining as int, x@.len() as int) == x@.skip(remaining as int));
                assert(seg_views(out@) == before.push((x@.skip(remaining as int), segs@[k as int].style)));
                assert(seg_views(out@) + all.skip(k + 1) == before + (seq![(x@.skip(remaining as int), segs@[k as int].style)] + all.skip(k + 1)));
                remaining = 0;
            }
        }
        k = k + 1;
    }
    assert(all.skip(segs@.len() as int).len() == 0);
    assert(seg_views(out@) + Seq::<(Seq<char>, SegmentStyle)>::empty() == seg_views(out@));
    out
}

/// Dropping the first `r` characters of a line drops them from its text.
pub proof fn lemma_hscroll_text(segs: Seq<(Seq<char>, SegmentStyle)>, r: int)
    requires
        0 <= r,
    ensures
        flat(hscroll_spec(segs, r)) == (if r <= flat(segs).len() {
            flat(segs).skip(r)
        } else {
            Seq::empty()
        }),
    decreases segs.len(),
{
    if segs.len() == 0 {
    } else {
        let rest = segs.drop_first();
        assert(segs == seq![segs[0]] + rest);
        lemma_flat_concat(seq![segs[0]], rest);
        lemma_flat_single(segs[0]);
        if r <= 0 {
            assert(flat(segs).skip(0) == flat(segs));
        } else if r >= segs[0].0.len() {
            lemma_hscroll_text(rest, r - segs[0].0.len());
            if r <= flat(segs).len() {
                assert(flat(segs).skip(r) == flat(rest).skip(r - segs[0].0.len()));
            }
        } else {
            let head = seq![(segs[0].0.skip(r), segs[0].1)];
            lemma_flat_concat(head, rest);
            lemma_flat_single(head[0]);
            assert(head == seq![head[0]]);
            assert(flat(segs).skip(r) == segs[0].0.skip(r) + flat(rest));
        }
    }
}

/// Scrolling by `a` and then by `b` is scrolling by `a + b`.
pub proof fn lemma_hscroll_compose(segs: Seq<(Seq<char>, SegmentStyle)>, a: int, b: int)
    requires
        0 <= a,
        0 <= b,
    ensures
        hscroll_spec(hscroll_spec(segs, a), b) == hscroll_spec(segs, a + b),
    decreases segs.len(),
{
    if segs.len() == 0 || a == 0 {
    } else {
        let x = segs[0].0;
        let rest = segs.drop_first();
        if a >= x.len() {
            lemma_hscroll_compose(rest, a - x.len(), b);
        } else {
            let head = seq![(x.skip(a), segs[0].1)] + rest;
            assert(head[0] == (x.skip(a), segs[0].1));
            assert(head.drop_first() == rest);
            if b == 0 {
            } else if b >= x.len() - a {
            } else {
                assert(x.skip(a).skip(b) == x.skip(a + b));
            }
        }
    }
}

/* ---------- Wrapping ---------- */

pub open spec fn line_views(v: Seq<Vec<Segment>>) -> Seq<Seq<(Seq<char>, SegmentStyle)>> {
    v.map_values(|l: Vec<Segment>| seg_views(l@))
}

/// Lays the text `x` (drawn with `st`) out after the finished `lines` and the
/// line `cur` being filled, which holds `col` characters: what fits goes on
/// the current line, the rest is cut at the width and continues on new lines.
pub open spec fn wrap_piece(
    x: Seq<char>,
    st: SegmentStyle,
    width: int,
    lines: Seq<Seq<(Seq<char>, SegmentStyle)>>,
    cur: Seq<(Seq<char>, SegmentStyle)>,
    col: int,
) -> (Seq<Seq<(Seq<char>, SegmentStyle)>>, Seq<(Seq<char>, SegmentStyle)>, int)
    decreases x.len(), (if col > 0 {
        1int
    } else {
        0int
    }),
{
    let left = width - col;
    if x.len() == 0 {
        (lines, cur, col)
    } else if x.len() <= left {
        (lines, cur.push((x, st)), col + x.len())
    } else if left > 0 {
        wrap_piece(x.skip(left), st, width, lines.push(cur.push((x.take(left), st))), Seq::empty(), 0)
    } else if col > 0 {
        wrap_piece(x, st, width, lines.push(cur), Seq::empty(), 0)
    } else {
        (lines, cur, col)
    }
}

/// The layout state after the segments `segs`.
pub open spec fn wrap_fold(segs: Seq<(Seq<char>, SegmentStyle)>, width: int) -> (
    Seq<Seq<(Seq<char>, SegmentStyle)>>,
    Seq<(Seq<char>, SegmentStyle)>,
    int,
)
    decreases segs.len(),
{
    if segs.len() == 0 {
        (Seq::empty(), Seq::empty(), 0)
    } else {
        let st = wrap_fold(segs.drop_last(), width);
        wrap_piece(segs.last().0, segs.last().1, width, st.0, st.1, st.2)
    }
}

/// A line wrapped at `width` characters; width 0 leaves it whole, and an
/// empty line gives one empty line.
pub open spec fn wrap_spec(segs: Seq<(Seq<char>, SegmentStyle)>, width: int) -> Seq<
    Seq<(Seq<char>, SegmentStyle)>,
> {
    if width == 0 {
        seq![segs]
    } else {
        let st = wrap_fold(segs, width);
        let lines = if st.1.len() > 0 {
            st.0.push(st.1)
        } else {
            st.0
        };
        if lines.len() == 0 {
            seq![seq![(Seq::<char>::empty(), SegmentStyle::Plain)]]
        } else {
            lines
        }
    }
}

/// Wraps a line into lines of at most `width` characters, splitting segments
/// where needed and keeping their styles.
pub fn wrap_line(segs: Vec<Segment>, width: usize) -> (r: Vec<Vec<Segment>>)
    ensures
        line_views(r@) == wrap_spec(seg_views(segs@), width as int),
{
    if width == 0 {
        let mut v: Vec<Vec<Segment>> = Vec::new();
        v.push(segs);
        assert(line_views(v@) == seq![seg_views(v@[0]@)]);
        return v;
    }
    let ghost all = seg_views(segs@);
    let mut lines: Vec<Vec<Segment>> = Vec::new();
    let mut cur: Vec<Segment> = Vec::new();
    let mut col: usize = 0;
    let mut k: usize = 0;
    assert(all.take(0).len() == 0);
    assert(line_views(lines@) == Seq::<Seq<(Seq<char>, SegmentStyle)>>::empty());
    assert(seg_views(cur@) == Seq::<(Seq<char>, SegmentStyle)>::empty());
    while k < segs.len()
        invariant
            width > 0,
            all == seg_views(segs@),
            k <= segs@.len(),
            col <= width,
            (line_views(lines@), seg_views(cur@), col as int) == wrap_fold(
                all.take(k as int),
                width as int,
            ),
        decreases segs@.len() - k,
    {
        let x = chars_of(segs[k].text.as_str());
        let st = segs[k].style;
        assert(all.take(k + 1).drop_last() == all.take(k as int));
        let ghost target = wrap_fold(all.take(k + 1), width as int);
        let mut start: usize = 0;
        assert(x@.skip(0) == x@);
        while start < x.len()
            invariant
                width > 0,
                start <= x@.len(),
                col <= width,
                wrap_piece(x@.skip(start as int), st, width as int, line_views(lines@), seg_views(cur@), col as int)
                    == target,
            decreases x@.len() - start, col,
        {
            let chars_left = width - col;
            let count = x.len() - start;
            let ghost rest = x@.skip(start as int);
            let ghost lv = line_views(lines@);
            let ghost cv = seg_views(cur@);
            if count <= chars_left {
                cur.push(segment(&sub_chars(&x, start, x.len()), st));
                assert(x@.subrange(start as int, x@.len() as int) == rest);
                assert(seg_views(cur@) == cv.push((rest, st)));
                col = col + count;
                start = x.len();
                assert(x@.skip(start as int).len() == 0);
            } else {
                if chars_left > 0 {
                    cur.push(segment(&sub_chars(&x, start, start + chars_left), st));
                    assert(x@.subrange(start as int, start + chars_left) == rest.take(chars_left as int));
                    assert(seg_views(cur@) == cv.push((rest.take(chars_left as int), st)));
                }
                let ghost cv1 = seg_views(cur@);
                lines.push(cur);
                cur = Vec::new();
                assert(line_views(lines@) == lv.push(cv1));
                assert(seg_views(cur@) == Seq::<(Seq<char>, SegmentStyle)>::empty());
                col = 0;
                start = start + chars_left;
                assert(rest.skip(chars_left as int) == x@.skip(start as int));
            }
        }
        k = k + 1;
    }
    assert(all.take(segs@.len() as int) == all);
    let ghost lv = line_views(lines@);
    let ghost cv = seg_views(cur@);
    if cur.len() > 0 {
        lines.push(cur);
        assert(line_views(lines@) == lv.push(cv));
    }
    if lines.len() == 0 {
        let mut l: Vec<Segment> = Vec::new();
        l.push(Segment { text: String::new(), style: SegmentStyle::Plain });
        assert(seg_views(l@) == seq![(Seq::<char>::empty(), SegmentStyle::Plain)]);
        lines.push(l);
        assert(line_views(lines@) == seq![seg_views(l@)]);
        assert(line_views(lines@) == seq![seq![(Seq::<char>::empty(), SegmentStyle::Plain)]]);
    }
    lines
}

/// The text of several lines, one after the other.
pub open spec fn flat_lines(ls: Seq<Seq<(Seq<char>, SegmentStyle)>>) -> Seq<char>
    decreases ls.len(),
{
    if ls.len() == 0 {
        Seq::empty()
    } else {
        flat_lines(ls.drop_last()) + flat(ls.last())
    }
}

/// The layout state is sound: finished lines are full, the current line
/// holds `col` characters.
pub open spec fn wrap_state_ok(
    lines: Seq<Seq<(Seq<char>, SegmentStyle)>>,
    cur: Seq<(Seq<char>, SegmentStyle)>,
    col: int,
    width: int,
) -> bool {
    &&& 0 <= col <= width
    &&& flat(cur).len() == col
    &&& forall|i: int| 0 <= i < lines.len() ==> #[trigger] flat(lines[i]).len() == width
}

proof fn lemma_flat_push(segs: Seq<(Seq<char>, SegmentStyle)>, e: (Seq<char>, SegmentStyle))
    ensures
        flat(segs.push(e)) == flat(segs) + e.0,
{
    assert(segs.push(e).drop_last() == segs);
}

proof fn lemma_flat_lines_push(ls: Seq<Seq<(Seq<char>, SegmentStyle)>>, l: Seq<(Seq<char>, SegmentStyle)>)
    ensures
        flat_lines(ls.push(l)) == flat_lines(ls) + flat(l),
{
    assert(ls.push(l).drop_last() == ls);
}

proof fn lemma_wrap_piece(
    x: Seq<char>,
    st: SegmentStyle,
    width: int,
    lines: Seq<Seq<(Seq<char>, SegmentStyle)>>,
    cur: Seq<(Seq<char>, SegmentStyle)>,
    col: int,
)
    requires
        width > 0,
        wrap_state_ok(lines, cur, col, width),
    ensures
        ({
            let r = wrap_piece(x, st, width, lines, cur, col);
            &&& wrap_state_ok(r.0, r.1, r.2, width)
            &&& flat_lines(r.0) + flat(r.1) == flat_lines(lines) + flat(cur) + x
        }),
    decreases x.len(), (if col > 0 {
        1int
    } else {
        0int
    }),
{
    let left = width - col;
    let p = flat_lines(lines) + flat(cur);
    if x.len() == 0 {
        assert(p + x == p);
    } else if x.len() <= left {
        lemma_flat_push(cur, (x, st));
        assert(flat_lines(lines) + flat(cur.push((x, st))) == p + x);
    } else if left > 0 {
        let nl = cur.push((x.take(left), st));
        lemma_flat_push(cur, (x.take(left), st));
        lemma_flat_lines_push(lines, nl);
        let lines1 = lines.push(nl);
        assert forall|i: int| 0 <= i < lines1.len() implies #[trigger] flat(lines1[i]).len() == width by {
            if i < lines.len() {
                assert(lines1[i] == lines[i]);
            }
        }
        assert(flat(Seq::<(Seq<char>, SegmentStyle)>::empty()) == Seq::<char>::empty());
        lemma_wrap_piece(x.skip(left), st, width, lines1, Seq::empty(), 0);
        assert(flat_lines(lines1) + flat(Seq::<(Seq<char>, SegmentStyle)>::empty()) == p + x.take(left));
        assert(x.take(left) + x.skip(left) == x);
        assert(p + x.take(left) + x.skip(left) == p + x);
    } else {
        lemma_flat_lines_push(lines, cur);
        let lines1 = lines.push(cur);
        assert forall|i: int| 0 <= i < lines1.len() implies #[trigger] flat(lines1[i]).len() == width by {
            if i < lines.len() {
                assert(lines1[i] == lines[i]);
            }
        }
        assert(flat(Seq::<(Seq<char>, SegmentStyle)>::empty()) == Seq::<char>::empty());
        assert(flat_lines(lines1) + flat(Seq::<(Seq<char>, SegmentStyle)>::empty()) == p);
        lemma_wrap_piece(x, st, width, lines1, Seq::empty(), 0);
    }
}

proof fn lemma_wrap_fold(segs: Seq<(Seq<char>, SegmentStyle)>, width: int)
    requires
        width > 0,
    ensures
        ({
            let r = wrap_fold(segs, width);
            &&& wrap_state_ok(r.0, r.1, r.2, width)
            &&& flat_lines(r.0) + flat(r.1) == flat(segs)
        }),
    decreases segs.len(),
{
    if segs.len() == 0 {
        let e = Seq::<(Seq<char>, SegmentStyle)>::empty();
        assert(flat(e) == Seq::<char>::empty());
        assert(flat_lines(Seq::<Seq<(Seq<char>, SegmentStyle)>>::empty()) == Seq::<char>::empty());
        assert(Seq::<char>::empty() + Seq::<char>::empty() == Seq::<char>::empty());
    } else {
        lemma_wrap_fold(segs.drop_last(), width);
        let st = wrap_fold(segs.drop_last(), width);
        lemma_wrap_piece(segs.last().0, segs.last().1, width, st.0, st.1, st.2);
    }
}

/// Wrapping at a positive width keeps the text and its order, fills every line
/// but the last to exactly `width` characters, and gives at least one line,
/// the last of at most `width` characters.
pub proof fn lemma_wrap_line(segs: Seq<(Seq<char>, SegmentStyle)>, width: int)
    requires
        width > 0,
    ensures
        ({
            let ls = wrap_spec(segs, width);
            &&& ls.len() >= 1
            &&& flat_lines(ls) == flat(segs)
            &&& forall|i: int| 0 <= i < ls.len() - 1 ==> #[trigger] flat(ls[i]).len() == width
            &&& flat(ls.last()).len() <= width
        }),
{
    lemma_wrap_fold(segs, width);
    let st = wrap_fold(segs, width);
    let lines = if st.1.len() > 0 {
        st.0.push(st.1)
    } else {
        st.0
    };
    if st.1.len() > 0 {
        lemma_flat_lines_push(st.0, st.1);
        assert forall|i: int| 0 <= i < lines.len() implies #[trigger] flat(lines[i]).len() <= width by {
            if i < st.0.len() {
                assert(lines[i] == st.0[i]);
            }
        }
    } else {
        assert(st.1 == Seq::<(Seq<char>, SegmentStyle)>::empty());
        assert(flat(st.1) == Seq::<char>::empty());
        assert(flat_lines(st.0) + Seq::<char>::empty() == flat_lines(st.0));
    }
    if lines.len() == 0 {
        let d = seq![seq![(Seq::<char>::empty(), SegmentStyle::Plain)]];
        lemma_flat_single((Seq::<char>::empty(), SegmentStyle::Plain));
        assert(d.drop_last() == Seq::<Seq<(Seq<char>, SegmentStyle)>>::empty());
        assert(d.last() == seq![(Seq::<char>::empty(), SegmentStyle::Plain)]);
        assert(flat_lines(d.drop_last()) == Seq::<char>::empty());
        assert(Seq::<char>::empty() + Seq::<char>::empty() == Seq::<char>::empty());
        assert(flat_lines(d) == Seq::<char>::empty());
        assert(flat_lines(lines) == Seq::<char>::empty());
    } else {
        assert(flat(lines.last()).len() <= width);
    }
}

/* ---------- A message as drawn in the table ---------- */

/// The segments of a message: fields coloured, matches of the search
/// highlighted, then scrolled left by `hscroll` characters.
pub open spec fn styled_spec(
    t: Seq<char>,
    ranges: Seq<(usize, usize, u8)>,
    search: Option<Seq<char>>,
    hscroll: int,
) -> Option<Seq<(Seq<char>, SegmentStyle)>> {
    match field_segments(t, ranges) {
        Some(segs) => Some(
            hscroll_spec(
                match search {
                    Some(p) => highlight_all(p, segs),
                    None => segs,
                },
                hscroll,
            ),
        ),
        None => None,
    }
}

/// Builds the styled segments of a message. Every field range must start and
/// end on a character boundary (as `field_segments_of` tests).
pub fn styled_message(
    text: &str,
    field_ranges: &[(usize, usize, u8)],
    search_re: Option<&Pattern>,
    hscroll: usize,
) -> (r: Vec<Segment>)
    requires
        utf8_len(text@) <= usize::MAX,
        field_segments(text@, field_ranges@) is Some,
    ensures
        styled_spec(
            text@,
            field_ranges@,
            match search_re {
                Some(p) => Some(p@),
                None => None,
            },
            hscroll as int,
        ) == Some(seg_views(r@)),
        flat(seg_views(r@)) == (if hscroll <= text@.len() {
            text@.skip(hscroll as int)
        } else {
            Seq::<char>::empty()
        }),
{
    let spans = field_segments_of(text, field_ranges).unwrap();
    proof {
        lemma_field_segments_text(text@, field_ranges@);
    }
    let spans = match search_re {
        Some(re) => apply_search_highlight(spans, re),
        None => spans,
    };
    proof {
        lemma_hscroll_text(seg_views(spans@), hscroll as int);
    }
    hscroll_line(spans, hscroll)
}

/* ---------- Styling keeps the text ---------- */

proof fn lemma_flat_push_subrange(
    acc: Seq<(Seq<char>, SegmentStyle)>,
    x: Seq<char>,
    a: int,
    b: int,
    st: SegmentStyle,
)
    requires
        0 <= a <= b <= x.len(),
        flat(acc) == x.take(a),
    ensures
        flat(acc.push((x.subrange(a, b), st))) == x.take(b),
{
    lemma_flat_push(acc, (x.subrange(a, b), st));
    assert(x.take(a) + x.subrange(a, b) == x.take(b));
}

proof fn lemma_highlight_from_text(
    x: Seq<char>,
    st: SegmentStyle,
    cs: Seq<(int, int)>,
    i: int,
    last: int,
    acc: Seq<(Seq<char>, SegmentStyle)>,
)
    requires
        0 <= i <= cs.len(),
        0 <= last <= x.len(),
        flat(acc) == x.take(last),
        forall|j: int| i <= j < cs.len() ==> last <= #[trigger] cs[j].0 <= cs[j].1 <= x.len(),
        forall|j: int, k: int| i <= j < k < cs.len() ==> #[trigger] cs[j].1 <= #[trigger] cs[k].0,
    ensures
        flat(highlight_from(x, st, cs, i, last, acc)) == x,
    decreases cs.len() - i,
{
    if i >= cs.len() {
        if last < x.len() {
            lemma_flat_push_subrange(acc, x, last, x.len() as int, st);
            assert(x.take(x.len() as int) == x);
        } else if last == 0 {
            lemma_flat_push(acc, (x, st));
            assert(x.take(0) + x == x);
        } else {
            assert(x.take(x.len() as int) == x);
        }
    } else {
        let a = cs[i].0;
        let b = cs[i].1;
        let acc1 = if a > last {
            acc.push((x.subrange(last, a), st))
        } else {
            acc
        };
        if a > last {
            lemma_flat_push_subrange(acc, x, last, a, st);
        }
        assert(flat(acc1) == x.take(a));
        lemma_flat_push_subrange(acc1, x, a, b, SegmentStyle::SearchHit);
        assert forall|j: int| i + 1 <= j < cs.len() implies b <= #[trigger] cs[j].0 <= cs[j].1
            <= x.len() by {
            assert(cs[i].1 <= cs[j].0);
        }
        lemma_highlight_from_text(
            x,
            st,
            cs,
            i + 1,
            b,
            acc1.push((x.subrange(a, b), SegmentStyle::SearchHit)),
        );
    }
}

/// Highlighting the matches of a segment keeps its text.
proof fn lemma_highlight_segment_text(pattern: Seq<char>, x: Seq<char>, st: SegmentStyle)
    requires
        well_formed_spans(x, regex_find_spans(pattern, x)),
    ensures
        flat(highlight_segment(pattern, x, st)) == x,
{
    let spans = regex_find_spans(pattern, x);
    let cs = char_spans(x, spans);
    assert forall|j: int| 0 <= j < cs.len() implies 0 <= #[trigger] cs[j].0 <= cs[j].1 <= x.len() by {
        lemma_byte_to_char_mono(x, spans[j].0 as int, spans[j].1 as int);
        lemma_byte_to_char_bound(x, spans[j].0 as int);
        lemma_byte_to_char_bound(x, spans[j].1 as int);
    }
    assert forall|j: int, k: int| 0 <= j < k < cs.len() implies #[trigger] cs[j].1 <= #[trigger] cs[k].0 by {
        assert(spans[j].1 <= spans[k].0);
        assert(spans[k].0 <= spans[k].1);
        lemma_byte_to_char_mono(x, spans[j].1 as int, spans[k].0 as int);
    }
    assert(flat(Seq::<(Seq<char>, SegmentStyle)>::empty()) == x.take(0));
    lemma_highlight_from_text(x, st, cs, 0, 0, Seq::empty());
}

/// Highlighting search matches restyles a line without changing its text,
/// whenever the matches come as `Regex::find_iter` documents them.
proof fn lemma_highlight_keeps_text(pattern: Seq<char>, segs: Seq<(Seq<char>, SegmentStyle)>)
    requires
        forall|i: int|
            0 <= i < segs.len() ==> well_formed_spans(
                #[trigger] segs[i].0,
                regex_find_spans(pattern, segs[i].0),
            ),
    ensures
        flat(highlight_all(pattern, segs)) == flat(segs),
    decreases segs.len(),
{
    if segs.len() > 0 {
        let init = segs.drop_last();
        assert forall|i: int| 0 <= i < init.len() implies well_formed_spans(
            #[trigger] init[i].0,
            regex_find_spans(pattern, init[i].0),
        ) by {
            assert(init[i] == segs[i]);
        }
        lemma_highlight_keeps_text(pattern, init);
        assert(segs.last() == segs[segs.len() - 1]);
        lemma_highlight_segment_text(pattern, segs.last().0, segs.last().1);
        lemma_flat_concat(
            highlight_all(pattern, init),
            highlight_segment(pattern, segs.last().0, segs.last().1),
        );
    }
}

proof fn lemma_byte_to_char_unique_end(t: Seq<char>, b: int)
    requires
        byte_to_char(t, b) is Some,
        b == utf8_len(t),
    ensures
        byte_to_char(t, b) == Some(t.len() as int),
{
    lemma_byte_to_char_bound(t, b);
    let k = byte_to_char(t, b)->0;
    if k < t.len() {
        lemma_utf8_take_mono(t, k, t.len() as int);
        assert(t.take(t.len() as int) == t);
    }
}

proof fn lemma_field_scan_text(
    t: Seq<char>,
    ranges: Seq<(usize, usize, u8)>,
    k: int,
    pos: int,
    acc: Seq<(Seq<char>, SegmentStyle)>,
)
    requires
        0 <= k,
        0 <= pos <= utf8_len(t),
        byte_to_char(t, pos) is Some,
        flat(acc) == t.take(byte_to_char(t, pos)->0),
    ensures
        field_scan(t, ranges, k, pos, acc) matches Some((a, p)) ==> {
            &&& 0 <= p <= utf8_len(t)
            &&& byte_to_char(t, p) is Some
            &&& flat(a) == t.take(byte_to_char(t, p)->0)
        },
    decreases ranges.len() - k,
{
    if k < ranges.len() {
        let blen = utf8_len(t) as int;
        let s = if ranges[k].0 <= blen {
            ranges[k].0 as int
        } else {
            blen
        };
        let e = if ranges[k].1 <= blen {
            ranges[k].1 as int
        } else {
            blen
        };
        if s < pos || s >= e {
            lemma_field_scan_text(t, ranges, k + 1, pos, acc);
        } else {
            match (byte_to_char(t, pos), byte_to_char(t, s), byte_to_char(t, e)) {
                (Some(cp), Some(cs), Some(ce)) => {
                    lemma_byte_to_char_mono(t, pos, s);
                    lemma_byte_to_char_mono(t, s, e);
                    lemma_byte_to_char_bound(t, pos);
                    lemma_byte_to_char_bound(t, s);
                    lemma_byte_to_char_bound(t, e);
                    let acc1 = if pos < s {
                        acc.push((t.subrange(cp, cs), SegmentStyle::Plain))
                    } else {
                        acc
                    };
                    if pos < s {
                        lemma_flat_push_subrange(acc, t, cp, cs, SegmentStyle::Plain);
                    }
                    assert(flat(acc1) == t.take(cs));
                    lemma_flat_push_subrange(acc1, t, cs, ce, SegmentStyle::Field(ranges[k].2 % 8));
                    lemma_field_scan_text(
                        t,
                        ranges,
                        k + 1,
                        e,
                        acc1.push((t.subrange(cs, ce), SegmentStyle::Field(ranges[k].2 % 8))),
                    );
                },
                _ => {},
            }
        }
    }
}

/// Colouring the fields of a message cuts it into segments without changing
/// its text.
pub proof fn lemma_field_segments_text(t: Seq<char>, ranges: Seq<(usize, usize, u8)>)
    ensures
        field_segments(t, ranges) matches Some(segs) ==> flat(segs) == t,
{
    let e = Seq::<(Seq<char>, SegmentStyle)>::empty();
    assert(flat(e) == t.take(0));
    lemma_field_scan_text(t, ranges, 0, 0, e);
    match field_scan(t, ranges, 0int, 0int, e) {
        Some((acc, pos)) => {
            let cp = byte_to_char(t, pos)->0;
            lemma_byte_to_char_bound(t, pos);
            if pos < utf8_len(t) {
                lemma_flat_push_subrange(acc, t, cp, t.len() as int, SegmentStyle::Plain);
                assert(t.subrange(cp, t.len() as int) == t.skip(cp));
                assert(t.take(t.len() as int) == t);
            } else {
                lemma_byte_to_char_unique_end(t, pos);
                assert(t.take(t.len() as int) == t);
            }
            let acc1 = if pos < utf8_len(t) {
                acc.push((t.skip(cp), SegmentStyle::Plain))
            } else {
                acc
            };
            if acc1.len() == 0 {
                lemma_flat_single((t, SegmentStyle::Plain));
            }
        },
        None => {},
    }
}

} // verus!
