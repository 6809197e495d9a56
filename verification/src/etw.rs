use vstd::prelude::*;
use vstd::utf8::is_scalar;
use crate::text::{chars_of, decimal_spec, decimal_text, extend_chars, extend_str, scalar_char, string_of};
use crate::template::{
    byte_len, fill_template_from_normalized, fill_template_spec, fill_untrimmed, normalize_spec,
    is_value_part, lemma_fields_show_values, lemma_ranges_mark_extend, marks_some_value,
    normalize_template, ranges_in_order, ranges_mark_values, ranges_within, string_views,
};
use crate::segments::{field_parts, field_segments, lemma_marks_appended, marks_value};
use crate::text::{utf8_len, utf8_width, char_width, lemma_utf8_len_push, lemma_utf8_len_concat, lemma_utf8_len_take_le};

verus! {

/* ---------- Reading small integers from event data ---------- */

/// The 16-bit little-endian value of two bytes.
pub open spec fn le_u16(lo: u8, hi: u8) -> u16 {
    (lo as int + 256 * (hi as int)) as u16
}

/// `read_uint_from_user_data`: the 1-, 2- or 4-byte little-endian unsigned value at
/// `offset`, cut to 16 bits; 0 for any other width or when it does not fit.
pub open spec fn read_uint_spec(data: Seq<u8>, offset: int, len: int) -> u16 {
    if offset + len > data.len() {
        0
    } else if len == 1 {
        data[offset] as u16
    } else if len == 2 || len == 4 {
        le_u16(data[offset], data[offset + 1])
    } else {
        0
    }
}

/// Reads a small unsigned integer (1/2/4 bytes) from `user_data` at `offset`; it
/// resolves the length or count of a property that another property holds.
pub fn read_uint_from_user_data(user_data: &[u8], offset: usize, len: usize) -> (v: u16)
    requires
        offset + len <= usize::MAX,
    ensures
        v == read_uint_spec(user_data@, offset as int, len as int),
{
    if offset + len > user_data.len() {
        return 0;
    }
    if len == 1 {
        user_data[offset] as u16
    } else if len == 2 || len == 4 {
        // A 4-byte value is cut to its low 16 bits.
        (user_data[offset] as u16) + 256 * (user_data[offset + 1] as u16)
    } else {
        0
    }
}

/// `infer_property_size`: the byte size of a value of the given TDH input type
/// when the schema gives none; 0 when unknown (variable length).
pub open spec fn property_size_spec(in_type: u16, pointer_size: u32) -> usize {
    if in_type == 4 || in_type == 13 {
        1
    } else if in_type == 5 || in_type == 6 {
        2
    } else if in_type == 7 || in_type == 8 || in_type == 14 || in_type == 11 {
        4
    } else if in_type == 9 || in_type == 10 || in_type == 15 || in_type == 12 || in_type == 17 {
        8
    } else if in_type == 16 || in_type == 19 {
        pointer_size as usize
    } else if in_type == 18 {
        16
    } else {
        0
    }
}

/// Infers the byte size of a property value from its input type when the
/// schema gives no length.
pub fn infer_property_size(in_type: u16, pointer_size: u32) -> (n: usize)
    ensures
        n == property_size_spec(in_type, pointer_size),
{
    match in_type {
        4 | 13 => 1,
        5 | 6 => 2,
        7 | 8 | 14 | 11 => 4,
        9 | 10 | 15 | 12 | 17 => 8,
        16 | 19 => pointer_size as usize,
        18 => 16,
        _ => 0,
    }
}

/// The pointer size of an event: 4 bytes when its header has the 32-bit flag.
pub fn pointer_size_of(header_flags: u16, flag_32_bit: u16) -> (p: u32)
    ensures
        p == (if header_flags & flag_32_bit != 0 {
            4u32
        } else {
            8u32
        }),
{
    if header_flags & flag_32_bit != 0 {
        4
    } else {
        8
    }
}

/* ---------- Walking the properties of an event ---------- */

/// Bound on what one property can consume beyond the end of the data.
pub open spec fn slack() -> int {
    0x10000
}

/// What the walk over an event's top-level properties has found so far: where
/// each property starts, how many bytes it took and its text, and where the
/// next property starts.
pub struct PropertyLayout {
    pub offsets: Vec<usize>,
    pub consumed: Vec<usize>,
    pub values: Vec<String>,
    pub offset: usize,
}

impl PropertyLayout {
    /// Offsets and consumed lengths stay within one property's reach past data
    /// of `data_len` bytes.
    pub open spec fn bounded(&self, data_len: nat) -> bool {
        &&& 2 * data_len + 4 * slack() <= usize::MAX
        &&& self.offset <= data_len + slack()
        &&& forall|i: int| 0 <= i < self.offsets@.len() ==> #[trigger] self.offsets@[i] <= data_len + slack()
        &&& forall|i: int| 0 <= i < self.consumed@.len() ==> #[trigger] self.consumed@[i] <= data_len + slack()
    }

    /// Between properties: every property seen is finished.
    pub open spec fn wf(&self, data_len: nat) -> bool {
        &&& self.bounded(data_len)
        &&& self.offsets@.len() == self.consumed@.len()
        &&& self.offsets@.len() == self.values@.len()
    }

    /// Inside a property: it is started but not finished.
    pub open spec fn open_wf(&self, data_len: nat) -> bool {
        &&& self.bounded(data_len)
        &&& self.offsets@.len() == self.consumed@.len() + 1
        &&& self.offsets@.len() == self.values@.len() + 1
    }

    pub fn new() -> (l: Self)
        ensures
            l.offsets@ == Seq::<usize>::empty(),
            l.consumed@ == Seq::<usize>::empty(),
            l.values@ == Seq::<String>::empty(),
            l.offset == 0,
    {
        PropertyLayout { offsets: Vec::new(), consumed: Vec::new(), values: Vec::new(), offset: 0 }
    }

    /// A struct property: recorded at the current offset, consuming nothing,
    /// with an empty text (sub-properties are not read).
    pub fn skip_struct(&mut self)
        ensures
            final(self).offsets@ == old(self).offsets@.push(old(self).offset),
            final(self).consumed@ == old(self).consumed@.push(0),
            string_views(final(self).values@) == string_views(old(self).values@).push(Seq::empty()),
            final(self).offset == old(self).offset,
    {
        self.offsets.push(self.offset);
        self.consumed.push(0);
        let ghost old_values = self.values@;
        self.values.push(String::new());
        assert(string_views(self.values@) == string_views(old_values).push(Seq::empty()));
    }

    /// The value of the property at `ref_idx` read from the data (the length or
    /// count another property refers to), or `default` when there is no such
    /// property yet.
    pub open spec fn param_spec(&self, data: Seq<u8>, ref_idx: int, default: u16) -> u16 {
        if ref_idx < self.offsets@.len() && ref_idx < self.consumed@.len() {
            read_uint_spec(data, self.offsets@[ref_idx] as int, self.consumed@[ref_idx] as int)
        } else {
            default
        }
    }

    fn param_value(&self, data: &[u8], ref_idx: usize, default: u16) -> (v: u16)
        requires
            self.wf(data@.len()),
        ensures
            v == self.param_spec(data@, ref_idx as int, default),
    {
        if ref_idx < self.offsets.len() && ref_idx < self.consumed.len() {
            read_uint_from_user_data(data, self.offsets[ref_idx], self.consumed[ref_idx])
        } else {
            default
        }
    }

    /// The length of the next property: read from the property it names when
    /// `param_length`, else `raw_length`.
    pub fn resolve_length(&self, data: &[u8], param_length: bool, raw_length: u16) -> (len: u16)
        requires
            self.wf(data@.len()),
        ensures
            len == (if param_length {
                self.param_spec(data@, raw_length as int, 0)
            } else {
                raw_length
            }),
    {
        if param_length {
            self.param_value(data, raw_length as usize, 0)
        } else {
            raw_length
        }
    }

    /// The element count of the next property: read from the property it names
    /// when `param_count` (1 when there is none), else `raw_count`, at least 1.
    pub fn resolve_count(&self, data: &[u8], param_count: bool, raw_count: u16) -> (count: u16)
        requires
            self.wf(data@.len()),
        ensures
            count == (if param_count {
                self.param_spec(data@, raw_count as int, 1)
            } else if raw_count > 0 {
                raw_count
            } else {
                1
            }),
    {
        if param_count {
            self.param_value(data, raw_count as usize, 1)
        } else if raw_count > 0 {
            raw_count
        } else {
            1
        }
    }

    /// Starts a property at the current offset. When the data is used up, the
    /// property is finished at once, empty, and `false` is returned.
    pub fn begin_property(&mut self, data_len: usize) -> (more: bool)
        requires
            old(self).wf(data_len as nat),
        ensures
            more ==> final(self).open_wf(data_len as nat),
            !more ==> final(self).wf(data_len as nat),
            more == (old(self).offset < data_len),
            final(self).offsets@ == old(self).offsets@.push(old(self).offset),
            final(self).offset == old(self).offset,
            more ==> final(self).consumed@ == old(self).consumed@ && final(self).values@
                == old(self).values@,
            !more ==> final(self).consumed@ == old(self).consumed@.push(0) && string_views(
                final(self).values@,
            ) == string_views(old(self).values@).push(Seq::empty()),
    {
        self.offsets.push(self.offset);
        if self.offset >= data_len {
            self.consumed.push(0);
            let ghost old_values = self.values@;
            self.values.push(String::new());
            assert(string_views(self.values@) == string_views(old_values).push(Seq::empty()));
            return false;
        }
        true
    }

    /// Where the next element of the current property starts, `total` bytes
    /// into it, or `None` when that is past the data.
    pub fn element_start(&self, total: usize, data_len: usize) -> (start: Option<usize>)
        requires
            self.open_wf(data_len as nat),
            total < data_len + slack(),
        ensures
            start == (if self.offset + total >= data_len {
                None
            } else {
                Some((self.offset + total) as usize)
            }),
    {
        if self.offset + total >= data_len {
            None
        } else {
            Some(self.offset + total)
        }
    }

    /// Finishes the current property: it consumed `total` bytes and its text
    /// is its element texts joined with `", "`.
    pub fn finish_property(&mut self, texts: &Vec<String>, total: usize, data_len: usize)
        requires
            old(self).open_wf(data_len as nat),
            old(self).offset + total < data_len + slack(),
        ensures
            final(self).wf(data_len as nat),
            final(self).offsets@ == old(self).offsets@,
            final(self).consumed@ == old(self).consumed@.push(total),
            final(self).offset == old(self).offset + total,
            string_views(final(self).values@) == string_views(old(self).values@).push(
                join_spec(string_views(texts@), ", "@),
            ),
    {
        self.consumed.push(total);
        self.offset = self.offset + total;
        let joined = join(texts, ", ");
        let ghost old_values = self.values@;
        self.values.push(joined);
        assert(string_views(self.values@) == string_views(old_values).push(joined@));
    }
}

/// How far into the current property the walk is after one element: by what
/// the formatter consumed, else by the known length, else by the size the
/// input type implies.
pub open spec fn advance_spec(
    total: int,
    consumed: Option<u16>,
    prop_length: u16,
    in_type: u16,
    pointer_size: u32,
) -> int {
    match consumed {
        Some(c) => total + c,
        None => if prop_length > 0 {
            total + prop_length
        } else {
            total + property_size_spec(in_type, pointer_size)
        },
    }
}

/// Advances past one element of a property.
pub fn element_advance(
    total: usize,
    consumed: Option<u16>,
    prop_length: u16,
    in_type: u16,
    pointer_size: u32,
) -> (next: usize)
    requires
        total + 0x10000 <= usize::MAX,
        pointer_size <= 8,
    ensures
        next == advance_spec(total as int, consumed, prop_length, in_type, pointer_size),
{
    match consumed {
        Some(c) => total + c as usize,
        None => {
            let skip = if prop_length > 0 {
                prop_length as usize
            } else {
                infer_property_size(in_type, pointer_size)
            };
            total + skip
        },
    }
}

/* ---------- Joining texts ---------- */

/// The texts with `sep` between each two.
pub open spec fn join_spec(texts: Seq<Seq<char>>, sep: Seq<char>) -> Seq<char>
    decreases texts.len(),
{
    if texts.len() == 0 {
        Seq::empty()
    } else if texts.len() == 1 {
        texts[0]
    } else {
        join_spec(texts.drop_last(), sep) + sep + texts.last()
    }
}

/// `texts.join(sep)`.
pub fn join(texts: &Vec<String>, sep: &str) -> (r: String)
    ensures
        r@ == join_spec(string_views(texts@), sep@),
{
    let s = chars_of(sep);
    let mut out: Vec<char> = Vec::new();
    let mut i: usize = 0;
    let ghost views = string_views(texts@);
    while i < texts.len()
        invariant
            s@ == sep@,
            views == string_views(texts@),
            i <= texts@.len(),
            out@ == join_spec(views.take(i as int), sep@),
        decreases texts@.len() - i,
    {
        let t = chars_of(texts[i].as_str());
        let ghost before = out@;
        if i > 0 {
            extend_chars(&mut out, &s);
        }
        extend_chars(&mut out, &t);
        proof {
            let tk = views.take(i + 1);
            assert(tk.drop_last() == views.take(i as int));
            assert(tk.last() == t@);
            if i == 0 {
                assert(before == Seq::<char>::empty());
                assert(out@ == t@);
            } else {
                assert(out@ == before + sep@ + t@);
            }
        }
        i = i + 1;
    }
    assert(views.take(texts@.len() as int) == views);
    string_of(out.as_slice())
}

/* ---------- UTF-16 text in event data ---------- */

/// The 16-bit code units of `bytes`, two bytes each, low byte first; a last odd
/// byte is left out.
pub open spec fn utf16_units(bytes: Seq<u8>) -> Seq<u16> {
    Seq::new(bytes.len() / 2, |i: int| le_u16(bytes[2 * i], bytes[2 * i + 1]))
}

/// The position of the first NUL unit, or the length when there is none.
pub open spec fn first_nul(units: Seq<u16>) -> nat
    decreases units.len(),
{
    if units.len() == 0 || units[0] == 0 {
        0
    } else {
        1 + first_nul(units.drop_first())
    }
}

/// The units before the first NUL.
pub open spec fn until_nul(units: Seq<u16>) -> Seq<u16> {
    units.take(first_nul(units) as int)
}

proof fn lemma_first_nul(units: Seq<u16>, p: int)
    requires
        0 <= p <= units.len(),
        forall|j: int| 0 <= j < p ==> units[j] != 0,
        p == units.len() || units[p] == 0,
    ensures
        first_nul(units) == p,
    decreases p,
{
    if p > 0 {
        let r = units.drop_first();
        assert forall|j: int| 0 <= j < p - 1 implies r[j] != 0 by {
            assert(r[j] == units[j + 1]);
        }
        if p < units.len() {
            assert(r[p - 1] == units[p]);
        }
        lemma_first_nul(r, p - 1);
    }
}

pub open spec fn is_high_surrogate(u: u16) -> bool {
    0xD800 <= u <= 0xDBFF
}

pub open spec fn is_low_surrogate(u: u16) -> bool {
    0xDC00 <= u <= 0xDFFF
}

/// The character of a surrogate pair.
pub open spec fn pair_scalar(hi: u16, lo: u16) -> u32 {
    (0x10000 + (hi - 0xD800) * 0x400 + (lo - 0xDC00)) as u32
}

/// UTF-16 decoded as `String::from_utf16_lossy` does: a unit outside the
/// surrogate range is its own character, a high surrogate followed by a low one
/// makes one character, and any other surrogate becomes U+FFFD.
pub open spec fn decode_utf16(units: Seq<u16>) -> Seq<char>
    decreases units.len(),
{
    if units.len() == 0 {
        Seq::empty()
    } else {
        let u = units[0];
        if !(0xD800 <= u <= 0xDFFF) {
            seq![(u as u32) as char] + decode_utf16(units.drop_first())
        } else if is_high_surrogate(u) && units.len() >= 2 && is_low_surrogate(units[1]) {
            seq![pair_scalar(u, units[1]) as char] + decode_utf16(units.skip(2))
        } else {
            seq!['\u{FFFD}'] + decode_utf16(units.drop_first())
        }
    }
}

/// The code unit at position `i` of `bytes`.
fn unit_at(bytes: &[u8], start: usize, i: usize) -> (u: u16)
    requires
        start <= bytes@.len(),
        i < (bytes@.len() - start) / 2,
    ensures
        u == utf16_units(bytes@.skip(start as int))[i as int],
{
    let blen = bytes.len();
    assert(i + i + 1 < blen - start) by (nonlinear_arith)
        requires
            i < (blen - start) / 2,
            start <= blen,
    ;
    let at = start + i + i;
    let lo = bytes[at];
    let hi = bytes[at + 1];
    proof {
        let b = bytes@.skip(start as int);
        assert(b[2 * i] == lo && b[2 * i + 1] == hi);
    }
    (lo as u16) + (hi as u16) * 256
}

/// Decodes UTF-16 code units as `decode_utf16`.
pub fn decode_units(units: &Vec<u16>) -> (r: Vec<char>)
    ensures
        r@ == decode_utf16(units@),
{
    let mut out: Vec<char> = Vec::new();
    let mut i: usize = 0;
    assert(units@.skip(0) == units@);
    while i < units.len()
        invariant
            i <= units@.len(),
            out@ + decode_utf16(units@.skip(i as int)) == decode_utf16(units@),
        decreases units@.len() - i,
    {
        let ghost rest = units@.skip(i as int);
        let ghost before = out@;
        assert(rest[0] == units@[i as int]);
        assert(rest.drop_first() == units@.skip(i + 1));
        let u = units[i];
        if u < 0xD800 || u > 0xDFFF {
            let c = scalar_char(u as u32);
            out.push(c);
            i = i + 1;
            assert(out@ + decode_utf16(units@.skip(i as int)) == before + decode_utf16(rest));
        } else if u <= 0xDBFF && i + 1 < units.len() && units[i + 1] >= 0xDC00 && units[i + 1] <= 0xDFFF {
            let v: u32 = 0x10000 + ((u - 0xD800) as u32) * 0x400 + ((units[i + 1] - 0xDC00) as u32);
            assert(rest[1] == units@[i + 1]);
            assert(rest.skip(2) == units@.skip(i + 2));
            assert(v == pair_scalar(u, units@[i + 1]));
            let c = scalar_char(v);
            out.push(c);
            i = i + 2;
            assert(out@ + decode_utf16(units@.skip(i as int)) == before + decode_utf16(rest));
        } else {
            out.push('\u{FFFD}');
            i = i + 1;
            assert(out@ + decode_utf16(units@.skip(i as int)) == before + decode_utf16(rest));
        }
    }
    assert(units@.skip(i as int).len() == 0);
    assert(out@ + Seq::<char>::empty() == out@);
    out
}

/// The UTF-16 text at the start of `bytes`, up to the first NUL.
pub open spec fn buffer_string_spec(bytes: Seq<u8>) -> Seq<char> {
    decode_utf16(until_nul(utf16_units(bytes)))
}

/// The NUL-terminated UTF-16 string at byte `offset` of a buffer (decoded
/// lossily); empty when the offset is past the end.
pub fn extract_string_from_buffer(buffer: &[u8], offset: usize) -> (s: String)
    ensures
        s@ == (if offset >= buffer@.len() {
            Seq::<char>::empty()
        } else {
            buffer_string_spec(buffer@.skip(offset as int))
        }),
{
    if offset >= buffer.len() {
        return String::new();
    }
    let ghost all = utf16_units(buffer@.skip(offset as int));
    let n = (buffer.len() - offset) / 2;
    let mut units: Vec<u16> = Vec::new();
    let mut i: usize = 0;
    while i < n
        invariant
            offset < buffer@.len(),
            n == (buffer@.len() - offset) / 2,
            all == utf16_units(buffer@.skip(offset as int)),
            all.len() == n,
            i <= n,
            units@ == all.take(i as int),
            forall|j: int| 0 <= j < i ==> all[j] != 0,
        ensures
            i == n || all[i as int] == 0,
        decreases n - i,
    {
        let u = unit_at(buffer, offset, i);
        if u == 0 {
            break;
        }
        units.push(u);
        i = i + 1;
    }
    proof {
        lemma_first_nul(all, i as int);
    }
    let chars = decode_units(&units);
    string_of(chars.as_slice())
}

/* ---------- Status codes of the trace formatter ---------- */

/// The status a trace-data helper returns when the buffer given is too small.
pub const ERROR_INSUFFICIENT_BUFFER: u32 = 122;

/// Code units in the buffer a property is first formatted into.
pub const FORMAT_BUFFER_UNITS: u32 = 256;

/// What to do after an attempt to format a property.
#[derive(Clone, Copy, Debug, PartialEq, Eq, Structural)]
pub enum FormatStep {
    /// The text is in the buffer: up to its first NUL, or else its first
    /// this many units.
    Done(usize),
    /// Try once more with a buffer of this many units.
    Retry(u32),
    /// Give up on this property.
    Fail,
}

/// After the first attempt (into `FORMAT_BUFFER_UNITS` units): done on
/// success, the text ending at the size reported; a retry with the size asked
/// for when the buffer was too small and more was asked for; else failure.
/// After the retry: done on success, the text ending at the buffer's end
/// (`buf_len` units), else failure.
pub open spec fn format_step_spec(status: u32, size: u32, first: bool, buf_len: usize) -> FormatStep {
    if status == 0 {
        FormatStep::Done(
            if first {
                size as usize
            } else {
                buf_len
            },
        )
    } else if first && status == ERROR_INSUFFICIENT_BUFFER && size > FORMAT_BUFFER_UNITS {
        FormatStep::Retry(size)
    } else {
        FormatStep::Fail
    }
}

pub fn format_step(status: u32, size: u32, first: bool, buf_len: usize) -> (r: FormatStep)
    ensures
        r == format_step_spec(status, size, first, buf_len),
{
    if status == 0 {
        FormatStep::Done(
            if first {
                size as usize
            } else {
                buf_len
            },
        )
    } else if first && status == ERROR_INSUFFICIENT_BUFFER && size > FORMAT_BUFFER_UNITS {
        FormatStep::Retry(size)
    } else {
        FormatStep::Fail
    }
}

/// After asking for the size of an event's information: the buffer size to
/// allocate, when the call succeeded or only found no buffer and the size is
/// not zero; `None` gives up.
pub fn info_buffer_size(status: u32, size: u32) -> (r: Option<u32>)
    ensures
        r == (if (status == 0 || status == ERROR_INSUFFICIENT_BUFFER) && size > 0 {
            Some(size)
        } else {
            None::<u32>
        }),
{
    if (status == 0 || status == ERROR_INSUFFICIENT_BUFFER) && size > 0 {
        Some(size)
    } else {
        None
    }
}

/// After asking for the size of an event map: the buffer size to allocate,
/// only when the call reported a too-small buffer and a size that is not zero.
pub fn map_buffer_size(status: u32, size: u32) -> (r: Option<u32>)
    ensures
        r == (if status == ERROR_INSUFFICIENT_BUFFER && size > 0 {
            Some(size)
        } else {
            None::<u32>
        }),
{
    if status == ERROR_INSUFFICIENT_BUFFER && size > 0 {
        Some(size)
    } else {
        None
    }
}

/// The text a formatter wrote into `buf`: the units before the first NUL, or
/// the first `fallback` units when there is no NUL.
pub open spec fn formatted_value_spec(buf: Seq<u16>, fallback: int) -> Seq<char> {
    if first_nul(buf) < buf.len() {
        decode_utf16(until_nul(buf))
    } else {
        decode_utf16(buf.take(fallback))
    }
}

/// Reads the text a formatter wrote into a buffer of UTF-16 units.
pub fn formatted_value(buf: &Vec<u16>, fallback: usize) -> (s: String)
    requires
        fallback <= buf@.len(),
    ensures
        s@ == formatted_value_spec(buf@, fallback as int),
{
    let mut p: usize = 0;
    while p < buf.len()
        invariant
            p <= buf@.len(),
            forall|j: int| 0 <= j < p ==> buf@[j] != 0,
        ensures
            p == buf@.len() || buf@[p as int] == 0,
        decreases buf@.len() - p,
    {
        if buf[p] == 0 {
            break;
        }
        p = p + 1;
    }
    proof {
        lemma_first_nul(buf@, p as int);
    }
    let len = if p < buf.len() {
        p
    } else {
        fallback
    };
    let mut units: Vec<u16> = Vec::new();
    let mut i: usize = 0;
    while i < len
        invariant
            len <= buf@.len(),
            i <= len,
            units@ == buf@.take(i as int),
        decreases len - i,
    {
        units.push(buf[i]);
        i = i + 1;
        assert(units@ == buf@.take(i as int));
    }
    let chars = decode_units(&units);
    string_of(chars.as_slice())
}

/// Control characters (general category Cc): U+0000 to U+001F and U+007F to
/// U+009F, as `char::is_control` tells them.
pub open spec fn is_control_char(c: char) -> bool {
    (c as u32) <= 0x1F || (0x7F <= (c as u32) && (c as u32) <= 0x9F)
}

pub fn is_control(c: char) -> (b: bool)
    ensures
        b == is_control_char(c),
{
    let v = c as u32;
    v <= 0x1F || (0x7F <= v && v <= 0x9F)
}

/// What raw event data reads as when the event has no properties: its UTF-16
/// text up to the first NUL, when the data holds at least one unit and that
/// text is not empty and has no control characters other than line breaks;
/// otherwise nothing.
pub open spec fn raw_string_spec(data: Seq<u8>) -> Seq<char> {
    let s = buffer_string_spec(data);
    if data.len() >= 2 && s.len() > 0 && (forall|i: int|
        0 <= i < s.len() ==> !is_control_char(#[trigger] s[i]) || s[i] == '\n' || s[i] == '\r') {
        s
    } else {
        Seq::empty()
    }
}

/// Reads the data of an event without properties as text, when it looks like text.
pub fn try_read_raw_string(user_data: &[u8]) -> (s: String)
    ensures
        s@ == raw_string_spec(user_data@),
{
    if user_data.len() >= 2 {
        let text = extract_string_from_buffer(user_data, 0);
        assert(user_data@.skip(0) == user_data@);
        let chars = chars_of(text.as_str());
        if chars.len() == 0 {
            return String::new();
        }
        let mut i: usize = 0;
        while i < chars.len()
            invariant
                i <= chars@.len(),
                chars@ == text@,
                text@ == buffer_string_spec(user_data@),
                user_data@.len() >= 2,
                forall|j: int| 0 <= j < i ==> !is_control_char(#[trigger] chars@[j]) || chars@[j] == '\n' || chars@[j] == '\r',
            decreases chars@.len() - i,
        {
            let c = chars[i];
            if is_control(c) && c != '\n' && c != '\r' {
                assert(!(!is_control_char(chars@[i as int]) || chars@[i as int] == '\n' || chars@[i as int] == '\r'));
                return String::new();
            }
            i = i + 1;
        }
        return text;
    }
    String::new()
}

/// The name shown for property `i`: the name at `name_offset` in the event
/// information buffer, or `prop` and the number when there is no name offset.
pub open spec fn property_name_spec(buffer: Seq<u8>, name_offset: u32, i: nat) -> Seq<char> {
    if name_offset > 0 {
        if name_offset >= buffer.len() {
            Seq::empty()
        } else {
            buffer_string_spec(buffer.skip(name_offset as int))
        }
    } else {
        "prop"@ + decimal_spec(i)
    }
}

pub fn property_name(buffer: &[u8], name_offset: u32, i: usize) -> (s: String)
    ensures
        s@ == property_name_spec(buffer@, name_offset, i as nat),
{
    if name_offset > 0 {
        extract_string_from_buffer(buffer, name_offset as usize)
    } else {
        let mut out = chars_of("prop");
        extend_chars(&mut out, &chars_of(decimal_text(i as u64).as_str()));
        string_of(out.as_slice())
    }
}

/* ---------- Messages without a template ---------- */

/// `name=value` pairs separated by `"; "` for the first `n` properties whose
/// value is not empty, with the byte range and colour `i % 8` of each value.
pub open spec fn key_value_spec(names: Seq<Seq<char>>, values: Seq<Seq<char>>, n: int) -> (
    Seq<char>,
    Seq<(usize, usize, u8)>,
)
    decreases n,
{
    if n <= 0 {
        (Seq::empty(), Seq::empty())
    } else {
        let prev = key_value_spec(names, values, n - 1);
        let i = n - 1;
        if i < values.len() && values[i].len() > 0 {
            let sep = if prev.0.len() > 0 {
                "; "@
            } else {
                Seq::<char>::empty()
            };
            let head = prev.0 + sep + names[i] + "="@;
            let start = utf8_len(head);
            (
                head + values[i],
                prev.1.push((start as usize, (start + utf8_len(values[i])) as usize, (i % 8) as u8)),
            )
        } else {
            prev
        }
    }
}

proof fn lemma_key_value_prefix(names: Seq<Seq<char>>, values: Seq<Seq<char>>, m: int, n: int)
    requires
        0 <= m <= n,
    ensures
        key_value_spec(names, values, n).0.len() >= key_value_spec(names, values, m).0.len(),
        key_value_spec(names, values, n).0.take(key_value_spec(names, values, m).0.len() as int)
            == key_value_spec(names, values, m).0,
    decreases n - m,
{
    if m < n {
        lemma_key_value_prefix(names, values, m, n - 1);
        let a = key_value_spec(names, values, m).0;
        let b = key_value_spec(names, values, n - 1).0;
        let c = key_value_spec(names, values, n).0;
        assert(c.take(b.len() as int) == b);
        assert(c.take(a.len() as int) == b.take(a.len() as int));
    } else {
        let a = key_value_spec(names, values, m).0;
        assert(a.take(a.len() as int) == a);
    }
}

/// The value ranges of a `name=value` message are non-empty byte ranges
/// within its text.
pub proof fn lemma_key_value_ranges(names: Seq<Seq<char>>, values: Seq<Seq<char>>, n: int)
    requires
        utf8_len(key_value_spec(names, values, n).0) <= usize::MAX,
    ensures
        ranges_within(key_value_spec(names, values, n).1, utf8_len(key_value_spec(names, values, n).0) as int),
    decreases n,
{
    if n > 0 {
        let prev = key_value_spec(names, values, n - 1);
        let cur = key_value_spec(names, values, n);
        lemma_key_value_prefix(names, values, n - 1, n);
        lemma_utf8_len_take_le(cur.0, prev.0.len() as int, cur.0.len() as int);
        assert(cur.0.take(cur.0.len() as int) == cur.0);
        lemma_key_value_ranges(names, values, n - 1);
        let i = n - 1;
        if i < values.len() && values[i].len() > 0 {
            let sep = if prev.0.len() > 0 {
                "; "@
            } else {
                Seq::<char>::empty()
            };
            let head = prev.0 + sep + names[i] + "="@;
            lemma_utf8_len_concat(head, values[i]);
            lemma_utf8_len_concat(prev.0 + sep + names[i], "="@);
            lemma_utf8_len_concat(prev.0 + sep, names[i]);
            lemma_utf8_len_concat(prev.0, sep);
            assert(utf8_len(values[i]) > 0) by {
                assert(values[i] == seq![values[i][0]] + values[i].drop_first());
                lemma_utf8_len_concat(seq![values[i][0]], values[i].drop_first());
                lemma_utf8_len_push(Seq::<char>::empty(), values[i][0]);
                assert(Seq::<char>::empty().push(values[i][0]) == seq![values[i][0]]);
            }
            assert forall|j: int| 0 <= j < cur.1.len() implies #[trigger] cur.1[j].0 < cur.1[j].1
                && cur.1[j].1 <= utf8_len(cur.0) by {
                if j < prev.1.len() {
                    assert(cur.1[j] == prev.1[j]);
                }
            }
        }
    }
}

/// Each value range of a `name=value` message holds exactly the value of a
/// property `i`, and has colour `i % 8`.
pub proof fn lemma_key_value_marks(names: Seq<Seq<char>>, values: Seq<Seq<char>>, n: int)
    requires
        utf8_len(key_value_spec(names, values, n).0) <= usize::MAX,
    ensures
        ranges_mark_values(key_value_spec(names, values, n).0, key_value_spec(names, values, n).1, values),
    decreases n,
{
    if n > 0 {
        let prev = key_value_spec(names, values, n - 1);
        let cur = key_value_spec(names, values, n);
        lemma_key_value_prefix(names, values, n - 1, n);
        lemma_utf8_len_take_le(cur.0, prev.0.len() as int, cur.0.len() as int);
        assert(cur.0.take(cur.0.len() as int) == cur.0);
        lemma_key_value_marks(names, values, n - 1);
        let i = n - 1;
        if i < values.len() && values[i].len() > 0 {
            let sep = if prev.0.len() > 0 {
                "; "@
            } else {
                Seq::<char>::empty()
            };
            let head = prev.0 + sep + names[i] + "="@;
            let more = sep + names[i] + "="@ + values[i];
            assert(cur.0 == prev.0 + more);
            lemma_utf8_len_concat(head, values[i]);
            let r = cur.1[prev.1.len() as int];
            lemma_marks_appended(head, values[i], r);
            lemma_ranges_mark_extend(prev.0, more, prev.1, values);
            assert forall|j: int| 0 <= j < cur.1.len() implies #[trigger] marks_some_value(
                cur.0,
                cur.1[j],
                values,
            ) by {
                if j < prev.1.len() {
                    assert(cur.1[j] == prev.1[j]);
                    assert(marks_some_value(cur.0, prev.1[j], values));
                } else {
                    assert(marks_value(cur.0, cur.1[j], values[i]));
                }
            }
        }
    }
}

proof fn lemma_key_value_in_order(names: Seq<Seq<char>>, values: Seq<Seq<char>>, n: int)
    requires
        utf8_len(key_value_spec(names, values, n).0) <= usize::MAX,
    ensures
        ranges_in_order(key_value_spec(names, values, n).1),
    decreases n,
{
    if n > 0 {
        let prev = key_value_spec(names, values, n - 1);
        let cur = key_value_spec(names, values, n);
        lemma_key_value_prefix(names, values, n - 1, n);
        lemma_utf8_len_take_le(cur.0, prev.0.len() as int, cur.0.len() as int);
        assert(cur.0.take(cur.0.len() as int) == cur.0);
        lemma_key_value_in_order(names, values, n - 1);
        lemma_key_value_ranges(names, values, n - 1);
        let i = n - 1;
        if i < values.len() && values[i].len() > 0 {
            let sep = if prev.0.len() > 0 {
                "; "@
            } else {
                Seq::<char>::empty()
            };
            let head = prev.0 + sep + names[i] + "="@;
            lemma_utf8_len_concat(head, values[i]);
            lemma_utf8_len_concat(prev.0 + sep + names[i], "="@);
            lemma_utf8_len_concat(prev.0 + sep, names[i]);
            lemma_utf8_len_concat(prev.0, sep);
            assert forall|j: int, k: int| 0 <= j < k < cur.1.len() implies #[trigger] cur.1[j].1
                <= #[trigger] cur.1[k].0 by {
                assert(cur.1[j] == prev.1[j]);
                assert(prev.1[j].0 < prev.1[j].1 && prev.1[j].1 <= utf8_len(prev.0));
                if k < prev.1.len() {
                    assert(cur.1[k] == prev.1[k]);
                }
            }
        }
    }
}

/// The coloured field segments of a `name=value` message are exactly the
/// non-empty values, each in the colour of its property.
pub proof fn lemma_key_value_fields(names: Seq<Seq<char>>, values: Seq<Seq<char>>, n: int)
    requires
        utf8_len(key_value_spec(names, values, n).0) <= usize::MAX,
    ensures
        ({
            let (text, rs) = key_value_spec(names, values, n);
            field_segments(text, rs) matches Some(segs) && {
                &&& field_parts(segs).len() == rs.len()
                &&& forall|j: int| 0 <= j < rs.len() ==> #[trigger] is_value_part(field_parts(segs)[j], values)
            }
        }),
{
    lemma_key_value_ranges(names, values, n);
    lemma_key_value_in_order(names, values, n);
    lemma_key_value_marks(names, values, n);
    lemma_fields_show_values(key_value_spec(names, values, n).0, key_value_spec(names, values, n).1, values);
}

/// The `name=value; ...` message of an event without a template.
pub fn key_value_message(names: &Vec<String>, values: &Vec<String>) -> (r: (String, Vec<(usize, usize, u8)>))
    requires
        utf8_len(key_value_spec(string_views(names@), string_views(values@), names@.len() as int).0)
            <= usize::MAX,
    ensures
        r.0@ == key_value_spec(string_views(names@), string_views(values@), names@.len() as int).0,
        r.1@ == key_value_spec(string_views(names@), string_views(values@), names@.len() as int).1,
{
    let ghost nv = string_views(names@);
    let ghost vv = string_views(values@);
    let ghost fin = key_value_spec(nv, vv, names@.len() as int);
    let mut out: Vec<char> = Vec::new();
    let mut bytes: usize = 0;
    let mut ranges: Vec<(usize, usize, u8)> = Vec::new();
    let mut i: usize = 0;
    while i < names.len()
        invariant
            nv == string_views(names@),
            vv == string_views(values@),
            fin == key_value_spec(nv, vv, names@.len() as int),
            utf8_len(fin.0) <= usize::MAX,
            i <= names@.len(),
            (out@, ranges@) == key_value_spec(nv, vv, i as int),
            bytes == utf8_len(out@),
        decreases names@.len() - i,
    {
        let v = if i < values.len() {
            chars_of(values[i].as_str())
        } else {
            Vec::new()
        };
        if i < values.len() && v.len() > 0 {
            let nm = chars_of(names[i].as_str());
            assert(v@ == vv[i as int] && nm@ == nv[i as int]);
            let ghost prev = out@;
            let ghost sep = if prev.len() > 0 {
                "; "@
            } else {
                Seq::<char>::empty()
            };
            if out.len() > 0 {
                extend_str(&mut out, "; ");
            } else {
                assert(out@ + Seq::<char>::empty() == out@);
            }
            extend_chars(&mut out, &nm);
            extend_str(&mut out, "=");
            let ghost head = out@;
            assert(head == prev + sep + nm@ + "="@);
            extend_chars(&mut out, &v);
            proof {
                lemma_key_value_prefix(nv, vv, i + 1, names@.len() as int);
                let full = key_value_spec(nv, vv, i + 1).0;
                assert(full == out@);
                lemma_utf8_len_take_le(fin.0, full.len() as int, fin.0.len() as int);
                assert(fin.0.take(fin.0.len() as int) == fin.0);
                lemma_utf8_len_concat(head, v@);
            }
            let start = byte_len(&out) - byte_len(&v);
            proof {
                lemma_utf8_len_concat(head, v@);
            }
            bytes = byte_len(&out);
            ranges.push((start, bytes, (i % 8) as u8));
        }
        i = i + 1;
    }
    (string_of(out.as_slice()), ranges)
}

/* ---------- The message of an event ---------- */

/// The message template at `message_offset` of the event information buffer;
/// empty when there is none.
pub open spec fn template_at(buffer: Seq<u8>, message_offset: u32) -> Seq<char> {
    if message_offset > 0 && message_offset < buffer.len() {
        buffer_string_spec(buffer.skip(message_offset as int))
    } else {
        Seq::empty()
    }
}

/// The message of an event and the ranges of its values: without properties,
/// the raw data read as text; else its template filled with the property
/// values; without a template, the `name=value` pairs.
pub open spec fn event_message_spec(
    user_data: Seq<u8>,
    buffer: Seq<u8>,
    message_offset: u32,
    names: Seq<Seq<char>>,
    values: Seq<Seq<char>>,
) -> (Seq<char>, Seq<(usize, usize, u8)>) {
    let t = template_at(buffer, message_offset);
    if names.len() == 0 {
        (raw_string_spec(user_data), Seq::empty())
    } else if t.len() > 0 {
        fill_template_spec(normalize_spec(t), values)
    } else {
        key_value_spec(names, values, names.len() as int)
    }
}

/// Builds the message of an event from its property names and formatted
/// values (one name per top-level property).
pub fn event_message(
    user_data: &[u8],
    buffer: &[u8],
    message_offset: u32,
    names: &Vec<String>,
    values: &Vec<String>,
) -> (r: (String, Vec<(usize, usize, u8)>))
    requires
        utf8_len(
            fill_untrimmed(normalize_spec(template_at(buffer@, message_offset)), string_views(values@)).0,
        ) <= usize::MAX,
        utf8_len(key_value_spec(string_views(names@), string_views(values@), names@.len() as int).0)
            <= usize::MAX,
    ensures
        (r.0@, r.1@) == event_message_spec(
            user_data@,
            buffer@,
            message_offset,
            string_views(names@),
            string_views(values@),
        ),
{
    if names.len() == 0 {
        return (try_read_raw_string(user_data), Vec::new());
    }
    if message_offset > 0 {
        let template = extract_string_from_buffer(buffer, message_offset as usize);
        let t = chars_of(template.as_str());
        if t.len() > 0 {
            let normalized = normalize_template(template.as_str());
            return fill_template_from_normalized(normalized.as_str(), values.as_slice());
        }
    }
    key_value_message(names, values)
}

} // verus!
