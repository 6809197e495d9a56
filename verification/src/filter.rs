use vstd::prelude::*;
use crate::pattern::{Pattern, escape, escape_spec, regex_compiles, regex_is_match};
use crate::store::ParsedEvent;
use crate::text::{
    ascii_lower_seq, chars_of, eq_lower, has_prefix, parse_u32, parse_u32_spec, split_words,
    string_of, strip_prefix, views_of, words,
};

verus! {

/// The value after `prefix` in the last part that starts with `prefix`.
pub open spec fn last_value(parts: Seq<Seq<char>>, prefix: Seq<char>) -> Option<Seq<char>>
    decreases parts.len(),
{
    if parts.len() == 0 {
        None
    } else if has_prefix(parts.last(), prefix) {
        Some(parts.last().skip(prefix.len() as int))
    } else {
        last_value(parts.drop_last(), prefix)
    }
}

/// Some part starts with one of the filter keys.
pub open spec fn any_key(parts: Seq<Seq<char>>) -> bool {
    exists|k: int|
        0 <= k < parts.len() && (has_prefix(parts[k], "provider:"@) || has_prefix(
            parts[k],
            "level:"@,
        ) || has_prefix(parts[k], "pid:"@) || has_prefix(#[trigger] parts[k], "msg:"@))
}

/// The level a `level:` value names (case-insensitively), if any. Folding
/// ASCII letters is enough: the lower case of a character outside ASCII holds
/// a character outside ASCII, except the Kelvin sign's `k`, which none of
/// these words holds.
pub open spec fn level_code(v: Seq<char>) -> Option<u8> {
    let l = ascii_lower_seq(v);
    if l == "critical"@ || l == "1"@ {
        Some(1u8)
    } else if l == "error"@ || l == "2"@ {
        Some(2u8)
    } else if l == "warning"@ || l == "3"@ {
        Some(3u8)
    } else if l == "info"@ || l == "4"@ {
        Some(4u8)
    } else if l == "verbose"@ || l == "5"@ {
        Some(5u8)
    } else {
        None
    }
}

/// The case-insensitive pattern prefix.
pub open spec fn ci(p: Seq<char>) -> Seq<char> {
    "(?i)"@ + p
}

pub open spec fn provider_source(input: Seq<char>) -> Option<Seq<char>> {
    match last_value(words(input), "provider:"@) {
        Some(v) => Some(ci(escape_spec(v))),
        None => None,
    }
}

pub open spec fn level_term(input: Seq<char>) -> Option<u8> {
    match last_value(words(input), "level:"@) {
        Some(v) => level_code(v),
        None => None,
    }
}

pub open spec fn pid_term(input: Seq<char>) -> Option<u32> {
    match last_value(words(input), "pid:"@) {
        Some(v) => parse_u32_spec(v),
        None => None,
    }
}

pub open spec fn msg_source(input: Seq<char>) -> Option<Seq<char>> {
    match last_value(words(input), "msg:"@) {
        Some(v) => Some(ci(v)),
        None => None,
    }
}

/// Without any key, the whole input is searched for literally in message and provider.
pub open spec fn generic_source(input: Seq<char>) -> Option<Seq<char>> {
    if any_key(words(input)) {
        None
    } else {
        Some(ci(escape_spec(input)))
    }
}

pub open spec fn opt_view(o: Option<String>) -> Option<Seq<char>> {
    match o {
        Some(s) => Some(s@),
        None => None,
    }
}

/// The pattern texts and values of a filter expression
/// `provider:X level:X pid:X msg:X`, or of a plain text.
pub struct FilterTerms {
    pub provider: Option<String>,
    pub level: Option<u8>,
    pub pid: Option<u32>,
    pub msg: Option<String>,
    pub generic: Option<String>,
}

/// `(?i)` followed by `p`.
fn case_insensitive(p: &Vec<char>) -> (s: String)
    ensures
        s@ == ci(p@),
{
    let mut v = chars_of("(?i)");
    let mut i: usize = 0;
    let ghost pre = v@;
    while i < p.len()
        invariant
            i <= p@.len(),
            v@ == pre + p@.take(i as int),
        decreases p@.len() - i,
    {
        v.push(p[i]);
        i = i + 1;
    }
    assert(p@.take(p@.len() as int) == p@);
    string_of(v.as_slice())
}

/// Reads a (trimmed) filter expression: for each key the last part that
/// carries it counts.
pub fn parse_filter_terms(input: &str) -> (t: FilterTerms)
    ensures
        opt_view(t.provider) == provider_source(input@),
        t.level == level_term(input@),
        t.pid == pid_term(input@),
        opt_view(t.msg) == msg_source(input@),
        opt_view(t.generic) == generic_source(input@),
{
    let chars = chars_of(input);
    let parts = split_words(&chars);
    let ghost ps = views_of(parts@);
    let mut provider: Option<Vec<char>> = None;
    let mut level_val: Option<Vec<char>> = None;
    let mut pid_val: Option<Vec<char>> = None;
    let mut msg: Option<Vec<char>> = None;
    let mut keyed = false;
    let mut k: usize = 0;
    while k < parts.len()
        invariant
            ps == views_of(parts@),
            ps == words(input@),
            k <= parts@.len(),
            opt_chars(provider) == last_value(ps.take(k as int), "provider:"@),
            opt_chars(level_val) == last_value(ps.take(k as int), "level:"@),
            opt_chars(pid_val) == last_value(ps.take(k as int), "pid:"@),
            opt_chars(msg) == last_value(ps.take(k as int), "msg:"@),
            keyed == any_key(ps.take(k as int)),
        decreases parts@.len() - k,
    {
        let part = &parts[k];
        assert(ps.take(k + 1).drop_last() == ps.take(k as int));
        assert(ps.take(k + 1).last() == part@);
        let p = strip_prefix(part, "provider:");
        let l = strip_prefix(part, "level:");
        let d = strip_prefix(part, "pid:");
        let m = strip_prefix(part, "msg:");
        let has_key = p.is_some() || l.is_some() || d.is_some() || m.is_some();
        if p.is_some() {
            provider = p;
        }
        if l.is_some() {
            level_val = l;
        }
        if d.is_some() {
            pid_val = d;
        }
        if m.is_some() {
            msg = m;
        }
        let ghost before = ps.take(k as int);
        let ghost after = ps.take(k + 1);
        proof {
            assert(after == before.push(part@));
            if any_key(before) {
                let j = choose|j: int|
                    0 <= j < before.len() && (has_prefix(before[j], "provider:"@) || has_prefix(
                        before[j],
                        "level:"@,
                    ) || has_prefix(before[j], "pid:"@) || has_prefix(
                        #[trigger] before[j],
                        "msg:"@,
                    ));
                assert(after[j] == before[j]);
            }
            if any_key(after) && !any_key(before) {
                let j = choose|j: int|
                    0 <= j < after.len() && (has_prefix(after[j], "provider:"@) || has_prefix(
                        after[j],
                        "level:"@,
                    ) || has_prefix(after[j], "pid:"@) || has_prefix(
                        #[trigger] after[j],
                        "msg:"@,
                    ));
                if j < before.len() {
                    assert(after[j] == before[j]);
                }
            }
            if has_key {
                assert(after[k as int] == part@);
            }
        }
        keyed = keyed || has_key;
        k = k + 1;
    }
    assert(ps.take(parts@.len() as int) == ps);
    let provider_out = match &provider {
        Some(v) => {
            let e = escape(string_of(v.as_slice()).as_str());
            Some(case_insensitive(&chars_of(e.as_str())))
        },
        None => None,
    };
    let level_out = match &level_val {
        Some(v) => level_of(v),
        None => None,
    };
    let pid_out = match &pid_val {
        Some(v) => parse_u32(v),
        None => None,
    };
    let msg_out = match &msg {
        Some(v) => Some(case_insensitive(v)),
        None => None,
    };
    let generic_out = if keyed {
        None
    } else {
        let e = escape(input);
        Some(case_insensitive(&chars_of(e.as_str())))
    };
    FilterTerms {
        provider: provider_out,
        level: level_out,
        pid: pid_out,
        msg: msg_out,
        generic: generic_out,
    }
}

pub open spec fn opt_chars(o: Option<Vec<char>>) -> Option<Seq<char>> {
    match o {
        Some(v) => Some(v@),
        None => None,
    }
}

/// The level a `level:` value names.
pub fn level_of(v: &Vec<char>) -> (r: Option<u8>)
    ensures
        r == level_code(v@),
{
    if eq_lower(v, "critical") || eq_lower(v, "1") {
        Some(1)
    } else if eq_lower(v, "error") || eq_lower(v, "2") {
        Some(2)
    } else if eq_lower(v, "warning") || eq_lower(v, "3") {
        Some(3)
    } else if eq_lower(v, "info") || eq_lower(v, "4") {
        Some(4)
    } else if eq_lower(v, "verbose") || eq_lower(v, "5") {
        Some(5)
    } else {
        None
    }
}

/// A filter with its patterns compiled.
pub struct FilterSpec {
    pub provider: Option<Pattern>,
    pub level: Option<u8>,
    pub pid: Option<u32>,
    pub msg: Option<Pattern>,
    pub generic: Option<Pattern>,
}

/// A pattern text that the regex crate accepts (a rejected one filters nothing).
pub open spec fn compiled(src: Option<Seq<char>>) -> Option<Seq<char>> {
    match src {
        Some(p) => if regex_compiles(p) {
            Some(p)
        } else {
            None
        },
        None => None,
    }
}

pub open spec fn pattern_view(o: Option<Pattern>) -> Option<Seq<char>> {
    match o {
        Some(p) => Some(p@),
        None => None,
    }
}

fn compile_opt(src: Option<String>) -> (r: Option<Pattern>)
    ensures
        pattern_view(r) == compiled(opt_view(src)),
{
    match src {
        Some(s) => Pattern::compile(s.as_str()),
        None => None,
    }
}

/// Compiles the patterns of a filter; a pattern that does not compile is dropped.
pub fn compile_filter(terms: FilterTerms) -> (f: FilterSpec)
    ensures
        pattern_view(f.provider) == compiled(opt_view(terms.provider)),
        f.level == terms.level,
        f.pid == terms.pid,
        pattern_view(f.msg) == compiled(opt_view(terms.msg)),
        pattern_view(f.generic) == compiled(opt_view(terms.generic)),
{
    FilterSpec {
        provider: compile_opt(terms.provider),
        level: terms.level,
        pid: terms.pid,
        msg: compile_opt(terms.msg),
        generic: compile_opt(terms.generic),
    }
}

/// An event passes a filter when it meets every part that is present.
pub open spec fn filter_passes(
    provider: Option<Seq<char>>,
    level: Option<u8>,
    pid: Option<u32>,
    msg: Option<Seq<char>>,
    generic: Option<Seq<char>>,
    e: ParsedEvent,
) -> bool {
    &&& (provider matches Some(p) ==> regex_is_match(p, e.provider_name@))
    &&& (level matches Some(l) ==> e.level == l)
    &&& (pid matches Some(d) ==> e.pid == d)
    &&& (msg matches Some(p) ==> regex_is_match(p, e.message@))
    &&& (generic matches Some(p) ==> regex_is_match(p, e.message@) || regex_is_match(
        p,
        e.provider_name@,
    ))
}

/// The event passes the filter written as `input` (already trimmed).
pub open spec fn passes_input(input: Seq<char>, e: ParsedEvent) -> bool {
    filter_passes(
        compiled(provider_source(input)),
        level_term(input),
        pid_term(input),
        compiled(msg_source(input)),
        compiled(generic_source(input)),
        e,
    )
}

/// The positions of the events that pass the filter `input`, in order.
pub open spec fn passing_indices(input: Seq<char>, events: Seq<ParsedEvent>) -> Seq<usize>
    decreases events.len(),
{
    if events.len() == 0 {
        Seq::empty()
    } else {
        let rest = passing_indices(input, events.drop_last());
        if passes_input(input, events.last()) {
            rest.push((events.len() - 1) as usize)
        } else {
            rest
        }
    }
}

/// Whether `e` passes the compiled filter `f`.
pub fn event_passes(f: &FilterSpec, e: &ParsedEvent) -> (b: bool)
    ensures
        b == filter_passes(
            pattern_view(f.provider),
            f.level,
            f.pid,
            pattern_view(f.msg),
            pattern_view(f.generic),
            *e,
        ),
{
    if let Some(re) = &f.provider {
        if !re.is_match(e.provider_name.as_str()) {
            return false;
        }
    }
    if let Some(lvl) = f.level {
        if e.level != lvl {
            return false;
        }
    }
    if let Some(pid) = f.pid {
        if e.pid != pid {
            return false;
        }
    }
    if let Some(re) = &f.msg {
        if !re.is_match(e.message.as_str()) {
            return false;
        }
    }
    if let Some(re) = &f.generic {
        if !re.is_match(e.message.as_str()) && !re.is_match(e.provider_name.as_str()) {
            return false;
        }
    }
    true
}

} // verus!
