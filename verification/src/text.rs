use vstd::prelude::*;
use vstd::utf8::*;

verus! {

broadcast use vstd::utf8::char_is_scalar;

/// Appends one character to a `String` (`String::push`).
#[verifier::external_body]
pub(crate) fn push_char(s: &mut String, c: char)
    ensures
        final(s)@ == old(s)@.push(c),
{
    s.push(c);
}

/// `char::from_u32`: the character with code point `v` when `v` is a Unicode
/// scalar value, `None` otherwise.
#[verifier::external_body]
pub(crate) fn char_from_u32(v: u32) -> (r: Option<char>)
    ensures
        r == (if is_scalar(v) {
            Some(v as char)
        } else {
            None
        }),
{
    char::from_u32(v)
}

/// The character with code point `v`.
pub fn scalar_char(v: u32) -> (c: char)
    requires
        is_scalar(v),
    ensures
        c == v as char,
{
    char_from_u32(v).unwrap()
}

/// The characters of a string slice, in order.
pub fn chars_of(s: &str) -> (v: Vec<char>)
    ensures
        v@ == s@,
{
    let mut v: Vec<char> = Vec::new();
    for c in it: s.chars()
        invariant
            v@ == it.seq().take(it.index() as int),
    {
        v.push(c);
    }
    v
}

/// A `String` holding the given characters.
pub fn string_of(v: &[char]) -> (s: String)
    ensures
        s@ == v@,
{
    let mut s = String::new();
    let mut i: usize = 0;
    while i < v.len()
        invariant
            i <= v@.len(),
            s@ == v@.take(i as int),
        decreases v@.len() - i,
    {
        push_char(&mut s, v[i]);
        i = i + 1;
        assert(s@ == v@.take(i as int));
    }
    assert(v@.take(v@.len() as int) == v@);
    s
}

/// Appends the characters of `src` to `out`.
pub fn extend_chars(out: &mut Vec<char>, src: &Vec<char>)
    ensures
        final(out)@ == old(out)@ + src@,
{
    let mut k: usize = 0;
    let ghost start = out@;
    while k < src.len()
        invariant
            k <= src@.len(),
            out@ == start + src@.take(k as int),
        decreases src@.len() - k,
    {
        out.push(src[k]);
        k = k + 1;
        assert(out@ == start + src@.take(k as int));
    }
    assert(src@.take(src@.len() as int) == src@);
}

/// Appends the characters of `src` to `out`.
pub fn extend_str(out: &mut Vec<char>, src: &str)
    ensures
        final(out)@ == old(out)@ + src@,
{
    let c = chars_of(src);
    extend_chars(out, &c);
}

/* ---------- UTF-8 byte lengths ---------- */

/// Number of bytes of the UTF-8 encoding of `c`.
pub open spec fn utf8_width(c: char) -> nat {
    if (c as u32) <= 0x7F {
        1
    } else if (c as u32) <= 0x7FF {
        2
    } else if (c as u32) <= 0xFFFF {
        3
    } else {
        4
    }
}

/// Number of bytes of the UTF-8 encoding of `s`.
pub open spec fn utf8_len(s: Seq<char>) -> nat
    decreases s.len(),
{
    if s.len() == 0 {
        0
    } else {
        utf8_width(s[0]) + utf8_len(s.drop_first())
    }
}

/// `utf8_len` is the length of the UTF-8 encoding, that is, what `str::len` returns.
pub proof fn lemma_utf8_len_encoding(s: Seq<char>)
    ensures
        utf8_len(s) == encode_utf8(s).len(),
    decreases s.len(),
{
    if s.len() > 0 {
        lemma_utf8_len_encoding(s.drop_first());
        char_is_scalar(s[0]);
        assert(encode_scalar(s[0] as u32).len() == utf8_width(s[0]));
    }
}

pub proof fn lemma_utf8_len_concat(a: Seq<char>, b: Seq<char>)
    ensures
        utf8_len(a + b) == utf8_len(a) + utf8_len(b),
    decreases a.len(),
{
    if a.len() > 0 {
        assert((a + b).drop_first() == a.drop_first() + b);
        lemma_utf8_len_concat(a.drop_first(), b);
    } else {
        assert(a + b == b);
    }
}

pub proof fn lemma_utf8_len_push(a: Seq<char>, c: char)
    ensures
        utf8_len(a.push(c)) == utf8_len(a) + utf8_width(c),
{
    lemma_utf8_len_concat(a, seq![c]);
    assert(a + seq![c] == a.push(c));
    assert(seq![c].drop_first() == Seq::<char>::empty());
    assert(utf8_len(seq![c]) == utf8_width(c) + utf8_len(seq![c].drop_first()));
}

pub proof fn lemma_utf8_len_take_le(s: Seq<char>, i: int, j: int)
    requires
        0 <= i <= j <= s.len(),
    ensures
        utf8_len(s.take(i)) <= utf8_len(s.take(j)),
        utf8_len(s.take(j)) <= utf8_len(s),
{
    lemma_utf8_len_concat(s.take(i), s.subrange(i, j));
    assert(s.take(i) + s.subrange(i, j) == s.take(j));
    lemma_utf8_len_concat(s.take(j), s.skip(j));
    assert(s.take(j) + s.skip(j) == s);
}

pub fn char_width(c: char) -> (w: usize)
    ensures
        w == utf8_width(c),
{
    let v = c as u32;
    if v <= 0x7F {
        1
    } else if v <= 0x7FF {
        2
    } else if v <= 0xFFFF {
        3
    } else {
        4
    }
}

/* ---------- White space ---------- */

/// Unicode `White_Space`, as tested by `char::is_whitespace`.
pub open spec fn is_white_space(c: char) -> bool {
    let v = c as u32;
    ||| 0x09 <= v <= 0x0D
    ||| v == 0x20
    ||| v == 0x85
    ||| v == 0xA0
    ||| v == 0x1680
    ||| 0x2000 <= v <= 0x200A
    ||| v == 0x2028
    ||| v == 0x2029
    ||| v == 0x202F
    ||| v == 0x205F
    ||| v == 0x3000
}

pub fn is_whitespace(c: char) -> (b: bool)
    ensures
        b == is_white_space(c),
{
    let v = c as u32;
    (0x09 <= v && v <= 0x0D) || v == 0x20 || v == 0x85 || v == 0xA0 || v == 0x1680 || (0x2000
        <= v && v <= 0x200A) || v == 0x2028 || v == 0x2029 || v == 0x202F || v == 0x205F || v
        == 0x3000
}

/// Number of white-space characters at the front of `s`.
pub open spec fn leading_ws(s: Seq<char>) -> nat
    decreases s.len(),
{
    if s.len() == 0 || !is_white_space(s[0]) {
        0
    } else {
        1 + leading_ws(s.drop_first())
    }
}

/// Number of white-space characters at the back of `s`.
pub open spec fn trailing_ws(s: Seq<char>) -> nat
    decreases s.len(),
{
    if s.len() == 0 || !is_white_space(s.last()) {
        0
    } else {
        1 + trailing_ws(s.drop_last())
    }
}

/// `str::trim_start`.
pub open spec fn trim_start_spec(s: Seq<char>) -> Seq<char> {
    s.skip(leading_ws(s) as int)
}

/// `str::trim`.
pub open spec fn trim_spec(s: Seq<char>) -> Seq<char> {
    let t = trim_start_spec(s);
    t.take(t.len() - trailing_ws(t))
}

pub proof fn lemma_leading_ws_bound(s: Seq<char>)
    ensures
        leading_ws(s) <= s.len(),
        forall|k: int| 0 <= k < leading_ws(s) ==> is_white_space(#[trigger] s[k]),
        leading_ws(s) < s.len() ==> !is_white_space(s[leading_ws(s) as int]),
    decreases s.len(),
{
    if s.len() > 0 && is_white_space(s[0]) {
        lemma_leading_ws_bound(s.drop_first());
        assert forall|k: int| 0 <= k < leading_ws(s) implies is_white_space(#[trigger] s[k]) by {
            if k > 0 {
                assert(s[k] == s.drop_first()[k - 1]);
            }
        }
    }
}

pub proof fn lemma_trailing_ws_bound(s: Seq<char>)
    ensures
        trailing_ws(s) <= s.len(),
        forall|k: int| s.len() - trailing_ws(s) <= k < s.len() ==> is_white_space(#[trigger] s[k]),
        trailing_ws(s) < s.len() ==> !is_white_space(s[s.len() - trailing_ws(s) - 1]),
    decreases s.len(),
{
    if s.len() > 0 && is_white_space(s.last()) {
        lemma_trailing_ws_bound(s.drop_last());
        assert forall|k: int| s.len() - trailing_ws(s) <= k < s.len() implies is_white_space(
            #[trigger] s[k],
        ) by {
            if k < s.len() - 1 {
                assert(s[k] == s.drop_last()[k]);
            }
        }
    }
}

/// Length of the white-space run at the front of `s`.
pub fn count_leading_ws(s: &Vec<char>) -> (n: usize)
    ensures
        n == leading_ws(s@),
{
    let mut i: usize = 0;
    assert(s@.skip(0) == s@);
    while i < s.len() && is_whitespace(s[i])
        invariant
            i <= s@.len(),
            leading_ws(s@) == i + leading_ws(s@.skip(i as int)),
        decreases s@.len() - i,
    {
        assert(s@.skip(i as int).drop_first() == s@.skip(i + 1));
        i = i + 1;
    }
    i
}

/// Length of the white-space run at the back of `s`.
pub fn count_trailing_ws(s: &Vec<char>) -> (n: usize)
    ensures
        n == trailing_ws(s@),
{
    let mut i: usize = 0;
    assert(s@.take(s@.len() as int) == s@);
    while i < s.len() && is_whitespace(s[s.len() - 1 - i])
        invariant
            i <= s@.len(),
            trailing_ws(s@) == i + trailing_ws(s@.take(s@.len() - i)),
        decreases s@.len() - i,
    {
        assert(s@.take(s@.len() - i).drop_last() == s@.take(s@.len() - (i + 1)));
        i = i + 1;
    }
    i
}

/// Characters `from..to` of `s`.
pub fn sub_chars(s: &Vec<char>, from: usize, to: usize) -> (r: Vec<char>)
    requires
        from <= to <= s@.len(),
    ensures
        r@ == s@.subrange(from as int, to as int),
{
    let mut r: Vec<char> = Vec::new();
    let mut i = from;
    while i < to
        invariant
            from <= i <= to <= s@.len(),
            r@ == s@.subrange(from as int, i as int),
        decreases to - i,
    {
        r.push(s[i]);
        i = i + 1;
    }
    r
}

/// `str::trim` on a character vector.
pub fn trim_chars(s: &Vec<char>) -> (r: Vec<char>)
    ensures
        r@ == trim_spec(s@),
{
    let lead = count_leading_ws(s);
    proof {
        lemma_leading_ws_bound(s@);
    }
    let t = sub_chars(s, lead, s.len());
    let trail = count_trailing_ws(&t);
    proof {
        lemma_trailing_ws_bound(t@);
    }
    sub_chars(&t, 0, t.len() - trail)
}

/* ---------- Splitting on white space ---------- */

/// The words of `s` after the partial word `cur`: `str::split_whitespace`
/// scanned from the front.
pub open spec fn words_from(s: Seq<char>, cur: Seq<char>) -> Seq<Seq<char>>
    decreases s.len(),
{
    if s.len() == 0 {
        if cur.len() > 0 {
            seq![cur]
        } else {
            Seq::empty()
        }
    } else if is_white_space(s[0]) {
        if cur.len() > 0 {
            seq![cur] + words_from(s.drop_first(), Seq::empty())
        } else {
            words_from(s.drop_first(), Seq::empty())
        }
    } else {
        words_from(s.drop_first(), cur.push(s[0]))
    }
}

/// `str::split_whitespace`: the maximal runs of non-white-space characters.
pub open spec fn words(s: Seq<char>) -> Seq<Seq<char>> {
    words_from(s, Seq::empty())
}

/// The views of a sequence of character vectors.
pub open spec fn views_of(v: Seq<Vec<char>>) -> Seq<Seq<char>> {
    v.map_values(|w: Vec<char>| w@)
}

pub fn split_words(s: &Vec<char>) -> (r: Vec<Vec<char>>)
    ensures
        views_of(r@) == words(s@),
{
    let mut r: Vec<Vec<char>> = Vec::new();
    let mut cur: Vec<char> = Vec::new();
    let mut i: usize = 0;
    assert(s@.skip(0) == s@);
    assert(views_of(r@) == Seq::<Seq<char>>::empty());
    assert(views_of(r@) + words(s@) == words(s@));
    while i < s.len()
        invariant
            i <= s@.len(),
            views_of(r@) + words_from(s@.skip(i as int), cur@) == words(s@),
        decreases s@.len() - i,
    {
        let c = s[i];
        let ghost rest = s@.skip(i as int);
        assert(rest[0] == c);
        assert(rest.drop_first() == s@.skip(i + 1));
        let ghost old_r = views_of(r@);
        let ghost old_cur = cur@;
        assert(words_from(rest, old_cur) == if is_white_space(c) {
            if old_cur.len() > 0 {
                seq![old_cur] + words_from(rest.drop_first(), Seq::empty())
            } else {
                words_from(rest.drop_first(), Seq::empty())
            }
        } else {
            words_from(rest.drop_first(), old_cur.push(c))
        });
        if is_whitespace(c) {
            if cur.len() > 0 {
                let w = cur;
                cur = Vec::new();
                r.push(w);
                assert(views_of(r@) == old_r.push(w@));
                assert(old_r + (seq![w@] + words_from(rest.drop_first(), Seq::empty()))
                    == old_r.push(w@) + words_from(rest.drop_first(), Seq::empty()));
            } else {
                assert(cur@ == Seq::<char>::empty());
            }
        } else {
            cur.push(c);
        }
        i = i + 1;
    }
    assert(s@.skip(i as int).len() == 0);
    if cur.len() > 0 {
        let ghost old_r = views_of(r@);
        let w = cur;
        r.push(w);
        assert(views_of(r@) == old_r.push(w@));
    } else {
        assert(views_of(r@) + Seq::<Seq<char>>::empty() == views_of(r@));
    }
    r
}

/* ---------- Prefixes ---------- */

/// `prefix` is a prefix of `s`.
pub open spec fn has_prefix(s: Seq<char>, prefix: Seq<char>) -> bool {
    prefix.len() <= s.len() && s.take(prefix.len() as int) == prefix
}

/// `str::strip_prefix`.
pub fn strip_prefix(s: &Vec<char>, prefix: &str) -> (r: Option<Vec<char>>)
    ensures
        match r {
            Some(rest) => has_prefix(s@, prefix@) && rest@ == s@.skip(prefix@.len() as int),
            None => !has_prefix(s@, prefix@),
        },
{
    let p = chars_of(prefix);
    if p.len() > s.len() {
        return None;
    }
    let mut i: usize = 0;
    while i < p.len()
        invariant
            p@ == prefix@,
            p@.len() <= s@.len(),
            i <= p@.len(),
            s@.take(i as int) == p@.take(i as int),
        decreases p@.len() - i,
    {
        if s[i] != p[i] {
            assert(s@.take(p@.len() as int)[i as int] != p@[i as int]);
            return None;
        }
        assert(s@.take(i + 1) == s@.take(i as int).push(s@[i as int]));
        assert(p@.take(i + 1) == p@.take(i as int).push(p@[i as int]));
        i = i + 1;
    }
    assert(p@.take(p@.len() as int) == p@);
    Some(sub_chars(s, p.len(), s.len()))
}

/* ---------- Case folding for keywords ---------- */

/// ASCII upper-case letters mapped to lower case, everything else kept.
pub open spec fn ascii_lower(c: char) -> char {
    if 'A' <= c <= 'Z' {
        ((c as u32) + 32) as char
    } else {
        c
    }
}

pub open spec fn ascii_lower_seq(s: Seq<char>) -> Seq<char> {
    s.map_values(|c: char| ascii_lower(c))
}

pub fn lower_char(c: char) -> (r: char)
    ensures
        r == ascii_lower(c),
{
    if 'A' <= c && c <= 'Z' {
        let v: u32 = (c as u32) + 32;
        assert(v < 0xD800);
        scalar_char(v)
    } else {
        c
    }
}

/// `s` equals `word` once ASCII letters of `s` are put in lower case.
pub fn eq_lower(s: &Vec<char>, word: &str) -> (b: bool)
    ensures
        b == (ascii_lower_seq(s@) == word@),
{
    let w = chars_of(word);
    if w.len() != s.len() {
        return false;
    }
    let mut i: usize = 0;
    while i < s.len()
        invariant
            w@ == word@,
            w@.len() == s@.len(),
            i <= s@.len(),
            forall|k: int| 0 <= k < i ==> ascii_lower(#[trigger] s@[k]) == w@[k],
        decreases s@.len() - i,
    {
        if lower_char(s[i]) != w[i] {
            assert(ascii_lower_seq(s@)[i as int] != w@[i as int]);
            return false;
        }
        i = i + 1;
    }
    assert(ascii_lower_seq(s@) == w@);
    true
}

/* ---------- Decimal numbers ---------- */

pub open spec fn is_ascii_digit(c: char) -> bool {
    '0' <= c <= '9'
}

pub open spec fn digit_value(c: char) -> nat {
    ((c as u32) - ('0' as u32)) as nat
}

/// Value of a run of ASCII digits.
pub open spec fn digits_value(s: Seq<char>) -> nat
    decreases s.len(),
{
    if s.len() == 0 {
        0
    } else {
        digits_value(s.drop_last()) * 10 + digit_value(s.last())
    }
}

pub open spec fn all_ascii_digits(s: Seq<char>) -> bool {
    forall|k: int| 0 <= k < s.len() ==> is_ascii_digit(#[trigger] s[k])
}

/// `u32::from_str`: an optional `+`, then one or more ASCII digits, without overflow.
pub open spec fn parse_u32_spec(s: Seq<char>) -> Option<u32> {
    let d = if s.len() > 0 && s[0] == '+' {
        s.drop_first()
    } else {
        s
    };
    if d.len() > 0 && all_ascii_digits(d) && digits_value(d) <= u32::MAX {
        Some(digits_value(d) as u32)
    } else {
        None
    }
}

/// `usize::from_str` for a run of ASCII digits (no sign), without overflow.
pub open spec fn parse_usize_spec(s: Seq<char>) -> Option<usize> {
    if s.len() > 0 && all_ascii_digits(s) && digits_value(s) <= usize::MAX {
        Some(digits_value(s) as usize)
    } else {
        None
    }
}

proof fn lemma_digits_value_mono(s: Seq<char>, c: char)
    requires
        is_ascii_digit(c),
    ensures
        digits_value(s.push(c)) >= digits_value(s),
        digits_value(s.push(c)) == digits_value(s) * 10 + digit_value(c),
{
    assert(s.push(c).drop_last() == s);
}

pub proof fn lemma_digits_value_prefix_le(s: Seq<char>, k: int)
    requires
        all_ascii_digits(s),
        0 <= k <= s.len(),
    ensures
        digits_value(s.take(k)) <= digits_value(s),
    decreases s.len(),
{
    if k < s.len() {
        let t = s.drop_last();
        assert(t.take(k) == s.take(k));
        assert(all_ascii_digits(t)) by {
            assert forall|j: int| 0 <= j < t.len() implies is_ascii_digit(#[trigger] t[j]) by {
                assert(t[j] == s[j]);
            }
        }
        lemma_digits_value_prefix_le(t, k);
    } else {
        assert(s.take(k) == s);
    }
}

/// Value of the ASCII digits `s[from..to]`, or `None` when one is not a digit or
/// the value exceeds `limit`.
pub fn digits_to_u64(s: &Vec<char>, from: usize, to: usize, limit: u64) -> (r: Option<u64>)
    requires
        from <= to <= s@.len(),
        limit >= 9,
    ensures
        match r {
            Some(v) => all_ascii_digits(s@.subrange(from as int, to as int)) && v == digits_value(
                s@.subrange(from as int, to as int),
            ) && v <= limit,
            None => !all_ascii_digits(s@.subrange(from as int, to as int)) || digits_value(
                s@.subrange(from as int, to as int),
            ) > limit,
        },
{
    let ghost full = s@.subrange(from as int, to as int);
    let mut v: u64 = 0;
    let mut i = from;
    while i < to
        invariant
            from <= i <= to <= s@.len(),
            limit >= 9,
            full == s@.subrange(from as int, to as int),
            all_ascii_digits(s@.subrange(from as int, i as int)),
            v == digits_value(s@.subrange(from as int, i as int)),
            v <= limit,
        decreases to - i,
    {
        let c = s[i];
        let ghost pre = s@.subrange(from as int, i as int);
        assert(s@.subrange(from as int, i + 1) == pre.push(c));
        assert(full.take((i + 1 - from) as int) == pre.push(c));
        if !('0' <= c && c <= '9') {
            assert(full[i - from] == c);
            return None;
        }
        let d: u64 = (c as u32 - '0' as u32) as u64;
        proof {
            lemma_digits_value_mono(pre, c);
            assert(all_ascii_digits(pre.push(c))) by {
                assert forall|j: int| 0 <= j < pre.push(c).len() implies is_ascii_digit(
                    #[trigger] pre.push(c)[j],
                ) by {
                    if j < pre.len() {
                        assert(pre.push(c)[j] == pre[j]);
                    }
                }
            }
        }
        if v > (limit - d) / 10 {
            proof {
                assert(v * 10 + d > limit) by (nonlinear_arith)
                    requires
                        v > (limit - d) / 10,
                        d <= limit,
                ;
                if all_ascii_digits(full) {
                    lemma_digits_value_prefix_le(full, (i + 1 - from) as int);
                }
            }
            return None;
        }
        assert(v * 10 + d <= limit) by (nonlinear_arith)
            requires
                v <= (limit - d) / 10,
                d <= limit,
        ;
        v = v * 10 + d;
        i = i + 1;
    }
    Some(v)
}

/// `u32::from_str`.
pub fn parse_u32(s: &Vec<char>) -> (r: Option<u32>)
    ensures
        r == parse_u32_spec(s@),
{
    let start: usize = if s.len() > 0 && s[0] == '+' {
        1
    } else {
        0
    };
    proof {
        if s@.len() > 0 && s@[0] == '+' {
            assert(s@.drop_first() == s@.subrange(1, s@.len() as int));
        } else {
            assert(s@ == s@.subrange(0, s@.len() as int));
        }
    }
    if start == s.len() {
        return None;
    }
    match digits_to_u64(s, start, s.len(), 0xFFFF_FFFFu64) {
        Some(v) => Some(v as u32),
        None => None,
    }
}

/// `usize::from_str` restricted to what it is given here: a run of characters
/// without sign.
pub fn parse_usize_digits(s: &Vec<char>, from: usize, to: usize) -> (r: Option<usize>)
    requires
        from <= to <= s@.len(),
        s@.subrange(from as int, to as int).len() == 0 || s@[from as int] != '+',
    ensures
        r == parse_usize_spec(s@.subrange(from as int, to as int)),
{
    if from == to {
        return None;
    }
    match digits_to_u64(s, from, to, usize::MAX as u64) {
        Some(v) => Some(v as usize),
        None => None,
    }
}

/// Decimal digits of `n`, most significant first.
pub open spec fn decimal_spec(n: nat) -> Seq<char>
    decreases n,
{
    if n < 10 {
        seq![(('0' as u32) + n) as char]
    } else {
        decimal_spec(n / 10).push((('0' as u32) + (n % 10)) as char)
    }
}

/// The decimal text of `n`, as `format!("{}", n)` writes it.
pub fn decimal_text(n: u64) -> (s: String)
    ensures
        s@ == decimal_spec(n as nat),
{
    let mut digits: Vec<char> = Vec::new();
    let mut m = n;
    loop
        invariant_except_break
            decimal_spec(n as nat) == decimal_spec(m as nat) + digits@,
        ensures
            decimal_spec(n as nat) == digits@,
        decreases m,
    {
        let d = (m % 10) as u32;
        let c = scalar_char(0x30 + d);
        if m < 10 {
            let ghost old_digits = digits@;
            digits.insert(0, c);
            assert(digits@ == seq![c] + old_digits);
            assert(decimal_spec(m as nat) == seq![c]);
            break;
        }
        let ghost old_digits = digits@;
        digits.insert(0, c);
        assert(decimal_spec(m as nat) == decimal_spec((m / 10) as nat).push(c));
        assert(decimal_spec((m / 10) as nat).push(c) + old_digits == decimal_spec((m / 10) as nat)
            + digits@);
        m = m / 10;
    }
    string_of(digits.as_slice())
}

/// Hexadecimal digit of `d` (below 16).
pub open spec fn hex_digit(d: nat, upper: bool) -> char {
    if d < 10 {
        (('0' as u32) + d) as char
    } else if upper {
        (('A' as u32) + d - 10) as char
    } else {
        (('a' as u32) + d - 10) as char
    }
}

/// Hexadecimal digits of `n`, most significant first, without leading zeros.
pub open spec fn hex_spec(n: nat, upper: bool) -> Seq<char>
    decreases n,
{
    if n < 16 {
        seq![hex_digit(n, upper)]
    } else {
        hex_spec(n / 16, upper).push(hex_digit(n % 16, upper))
    }
}

/// `hex_spec` padded on the left with `0` to at least `width` characters.
pub open spec fn hex_padded_spec(n: nat, upper: bool, width: nat) -> Seq<char> {
    let h = hex_spec(n, upper);
    if h.len() >= width {
        h
    } else {
        Seq::new((width - h.len()) as nat, |i: int| '0') + h
    }
}

fn hex_char(d: u64, upper: bool) -> (c: char)
    requires
        d < 16,
    ensures
        c == hex_digit(d as nat, upper),
{
    let v: u32 = if d < 10 {
        0x30 + d as u32
    } else if upper {
        0x41 + d as u32 - 10
    } else {
        0x61 + d as u32 - 10
    };
    scalar_char(v)
}

pub open spec fn pow16(k: nat) -> nat
    decreases k,
{
    if k == 0 {
        1
    } else {
        16 * pow16((k - 1) as nat)
    }
}

proof fn lemma_hex_len(n: nat, upper: bool, k: nat)
    requires
        k >= 1,
        n < pow16(k),
    ensures
        hex_spec(n, upper).len() <= k,
    decreases k,
{
    if n >= 16 {
        assert(k >= 2) by {
            if k == 1 {
                assert(pow16(1) == 16 * pow16(0));
            }
        }
        assert(n / 16 < pow16((k - 1) as nat));
        lemma_hex_len(n / 16, upper, (k - 1) as nat);
    }
}

/// `format!("{:0width$x}", n)` (or `X` when `upper`).
pub fn hex_text(n: u64, upper: bool, width: usize) -> (s: String)
    requires
        width <= 64,
    ensures
        s@ == hex_padded_spec(n as nat, upper, width as nat),
{
    proof {
        reveal_with_fuel(pow16, 17);
        assert(pow16(16) == 0x1_0000_0000_0000_0000);
        lemma_hex_len(n as nat, upper, 16);
    }
    let mut digits: Vec<char> = Vec::new();
    let mut m = n;
    loop
        invariant_except_break
            hex_spec(n as nat, upper) == hex_spec(m as nat, upper) + digits@,
        ensures
            hex_spec(n as nat, upper) == digits@,
        decreases m,
    {
        let c = hex_char(m % 16, upper);
        let ghost old_digits = digits@;
        if m < 16 {
            digits.insert(0, c);
            assert(digits@ == seq![c] + old_digits);
            assert(hex_spec(m as nat, upper) == seq![c]);
            break;
        }
        digits.insert(0, c);
        assert(hex_spec(m as nat, upper) == hex_spec((m / 16) as nat, upper).push(c));
        assert(hex_spec((m / 16) as nat, upper).push(c) + old_digits == hex_spec(
            (m / 16) as nat,
            upper,
        ) + digits@);
        m = m / 16;
    }
    let ghost h = digits@;
    assert(h == hex_spec(n as nat, upper));
    let pad: usize = if digits.len() >= width {
        0
    } else {
        width - digits.len()
    };
    let mut out: Vec<char> = Vec::new();
    while out.len() < pad
        invariant
            out@.len() <= pad,
            out@ == Seq::new(out@.len(), |i: int| '0'),
        decreases pad - out@.len(),
    {
        out.push('0');
    }
    let mut i: usize = 0;
    let ghost zeros = out@;
    while i < digits.len()
        invariant
            i <= digits@.len(),
            out@ == zeros + digits@.take(i as int),
        decreases digits@.len() - i,
    {
        out.push(digits[i]);
        i = i + 1;
    }
    assert(digits@.take(digits@.len() as int) == digits@);
    proof {
        if h.len() >= width {
            assert(zeros.len() == 0);
            assert(out@ == h);
        } else {
            assert(zeros == Seq::new((width - h.len()) as nat, |i: int| '0'));
        }
    }
    string_of(out.as_slice())
}

} // verus!
