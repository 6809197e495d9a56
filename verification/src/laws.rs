use vstd::prelude::*;
use crate::app::{
    App, TableCursor, event_matches, hit_positions, increasing_below, search_hits, seq_range,
};
use crate::filter::{any_key, filter_passes, last_value, level_code, passes_input, passing_indices};
use crate::pattern::{escape_spec, regex_compiles, regex_is_match};
use crate::text::{
    ascii_lower, ascii_lower_seq, decimal_spec, has_prefix, is_white_space, parse_u32_spec, words,
    words_from,
};
use crate::view::level_name;
use crate::keys::{
    Action, Key, KeyInput, detail_post, is_nothing, normal_command_spec, normal_post, rows_between,
    visual_command_spec, visual_post,
};
use crate::app::{InputMode, TimestampMode};
use crate::store::ParsedEvent;
use crate::text::{
    all_ascii_digits, digit_value, digits_value, is_ascii_digit, leading_ws, lemma_leading_ws_bound,
    lemma_trailing_ws_bound, trailing_ws, trim_spec,
};

verus! {

/// Switching the timestamp mode twice gives the viewer back unchanged.
pub proof fn lemma_toggle_timestamp_twice(a: App, b: App, c: App)
    requires
        b == (App { timestamp_mode: App::other_mode(a.timestamp_mode), ..a }),
        c == (App { timestamp_mode: App::other_mode(b.timestamp_mode), ..b }),
    ensures
        c == a,
{
}

/// The rows shown are positions of events in the store, in increasing order.
pub proof fn lemma_visible_rows_valid(a: App)
    requires
        a.wf(),
    ensures
        increasing_below(a.visible_spec(), a.store@.len()),
{
    a.store.lemma_len_bound();
    if a.filtered_indices is None {
        let s = seq_range(a.store@.len());
        assert forall|i: int| 0 <= i < s.len() implies #[trigger] s[i] < a.store@.len() by {
            assert(s[i] == i as usize);
        }
    }
}

proof fn lemma_push_contains(rest: Seq<usize>, n: usize, p: usize)
    ensures
        rest.push(n).contains(p) <==> (rest.contains(p) || p == n),
{
    let s = rest.push(n);
    if s.contains(p) {
        let k = choose|k: int| 0 <= k < s.len() && s[k] == p;
        if k < rest.len() {
            assert(rest[k] == p);
        }
    }
    if rest.contains(p) {
        let k = choose|k: int| 0 <= k < rest.len() && rest[k] == p;
        assert(s[k] == p);
    }
    if p == n {
        assert(s[rest.len() as int] == p);
    }
}

/// The positions holding `true` are exactly those, in increasing order.
pub proof fn lemma_hit_positions(hits: Seq<bool>)
    requires
        hits.len() <= usize::MAX,
    ensures
        increasing_below(hit_positions(hits), hits.len()),
        forall|p: int|
            0 <= p < hits.len() ==> (hit_positions(hits).contains(p as usize) <==> #[trigger] hits[p]),
    decreases hits.len(),
{
    if hits.len() > 0 {
        let init = hits.drop_last();
        lemma_hit_positions(init);
        let rest = hit_positions(init);
        let n = (hits.len() - 1) as usize;
        assert forall|p: int| 0 <= p < hits.len() implies (hit_positions(hits).contains(p as usize)
            <==> #[trigger] hits[p]) by {
            lemma_push_contains(rest, n, p as usize);
            if p < init.len() {
                assert(hits[p] == init[p]);
            } else if rest.contains(p as usize) {
                let k = choose|k: int| 0 <= k < rest.len() && rest[k] == p as usize;
                assert(rest[k] < init.len());
            }
        }
    }
}

/// Filtering keeps exactly the events that pass the filter, in store order.
pub proof fn lemma_filter_rows(input: Seq<char>, events: Seq<ParsedEvent>)
    requires
        events.len() <= usize::MAX,
    ensures
        increasing_below(passing_indices(input, events), events.len()),
        forall|i: int|
            0 <= i < events.len() ==> (passing_indices(input, events).contains(i as usize)
                <==> passes_input(input, #[trigger] events[i])),
    decreases events.len(),
{
    if events.len() > 0 {
        let init = events.drop_last();
        lemma_filter_rows(input, init);
        let rest = passing_indices(input, init);
        let n = (events.len() - 1) as usize;
        assert forall|i: int| 0 <= i < events.len() implies (passing_indices(input, events).contains(
            i as usize,
        ) <==> passes_input(input, #[trigger] events[i])) by {
            lemma_push_contains(rest, n, i as usize);
            if i < init.len() {
                assert(events[i] == init[i]);
            } else if rest.contains(i as usize) {
                let k = choose|k: int| 0 <= k < rest.len() && rest[k] == i as usize;
                assert(rest[k] < init.len());
            }
        }
    }
}

/// After a filter is applied, the rows shown are exactly the events that pass
/// it, in store order; an empty filter shows every event again.
pub proof fn lemma_filter_result(a: App, b: App)
    requires
        a.wf(),
        App::filtered(a, b),
    ensures
        trim_spec(a.input_buffer@).len() == 0 ==> b.visible_spec() == seq_range(a.store@.len()),
        trim_spec(a.input_buffer@).len() > 0 ==> {
            &&& increasing_below(b.visible_spec(), a.store@.len())
            &&& forall|i: int|
                0 <= i < a.store@.len() ==> (b.visible_spec().contains(i as usize) <==> passes_input(
                    trim_spec(a.input_buffer@),
                    #[trigger] a.store@[i],
                ))
        },
{
    a.store.lemma_len_bound();
    lemma_filter_rows(trim_spec(a.input_buffer@), a.store@);
}

/// A search finds exactly the shown rows whose event matches the pattern, in
/// increasing order, and selects the first of them.
pub proof fn lemma_search_result(a: App, b: App)
    requires
        a.wf(),
        App::searched(a, b),
        a.input_buffer@.len() > 0,
        crate::pattern::regex_compiles(App::search_pattern(a.input_buffer@)),
    ensures
        increasing_below(b.search_matches@, a.visible_spec().len()),
        forall|p: int|
            0 <= p < a.visible_spec().len() ==> (b.search_matches@.contains(p as usize)
                <==> event_matches(
                App::search_pattern(a.input_buffer@),
                #[trigger] a.store@[a.visible_spec()[p] as int],
            )),
        b.search_matches@.len() > 0 ==> b.table_state.selected == Some(b.search_matches@[0]),
{
    let pat = App::search_pattern(a.input_buffer@);
    let hits = search_hits(pat, a.store@, a.visible_spec());
    a.lemma_visible_len();
    lemma_hit_positions(hits);
    assert forall|p: int| 0 <= p < a.visible_spec().len() implies (b.search_matches@.contains(
        p as usize,
    ) <==> event_matches(pat, #[trigger] a.store@[a.visible_spec()[p] as int])) by {
        assert(hits[p] == event_matches(pat, a.store@[a.visible_spec()[p] as int]));
    }
}

/// Jumping to the next match and then to the previous one comes back to the
/// match one started from, with it selected.
pub proof fn lemma_next_then_prev_match(a: App, b: App, c: App)
    requires
        a.wf(),
        a.search_match_pos matches Some(p) && p < a.search_matches@.len(),
        App::jumped_to_match(a, b, a.next_pos()),
        App::jumped_to_match(b, c, b.prev_pos()),
    ensures
        c == (App {
            table_state: TableCursor {
                selected: Some(a.search_matches@[a.search_match_pos->0 as int]),
                offset: a.table_state.offset,
            },
            ..a
        }),
{
    let p = a.search_match_pos->0;
    let n = a.search_matches@.len();
    assert(a.search_matches.len() == n);
    if p + 1 < n {
        assert((p + 1) % (n as int) == p + 1) by (nonlinear_arith)
            requires
                0 <= p + 1 < n,
        ;
    } else {
        assert((p + 1) % (n as int) == 0) by (nonlinear_arith)
            requires
                p + 1 == n,
                n > 0,
        ;
    }
    assert(b.search_match_pos == Some(a.next_pos()));
    assert(b.prev_pos() == p);
}

/// Moving the selection down and then up by the same number of rows comes
/// back to the row one started from, when the move down was not stopped by
/// the last row.
pub proof fn lemma_scroll_down_then_up(a: App, b: App, c: App, n: usize)
    requires
        a.wf(),
        a.visible_spec().len() > 0,
        a.cursor() + n < a.visible_spec().len(),
        App::moved_to(a, b, App::cursor_down(a, n)),
        c == (App { table_state: App::cursor_up(b, n), ..b }),
    ensures
        c.cursor() == a.cursor(),
        c.table_state.offset == a.table_state.offset,
{
    a.lemma_visible_len();
}

/// After a filter the search matches are positions among the rows now shown,
/// each holding an event that the search pattern matches, and none of them is
/// current.
pub proof fn lemma_filter_search_valid(a: App, b: App)
    requires
        a.wf(),
        App::filtered(a, b),
    ensures
        b.search_match_pos is None,
        forall|j: int|
            0 <= j < b.search_matches@.len() ==> #[trigger] b.search_matches@[j]
                < b.visible_spec().len() && (a.search_regex matches Some(re) ==> event_matches(
                re@,
                b.store@[b.visible_spec()[b.search_matches@[j] as int] as int],
            )),
{
    b.lemma_visible_len();
    match a.search_regex {
        Some(re) => {
            let hits = search_hits(re@, b.store@, b.visible_spec());
            lemma_hit_positions(hits);
            assert forall|j: int| 0 <= j < b.search_matches@.len() implies #[trigger] b.search_matches@[j]
                < b.visible_spec().len() && event_matches(
                re@,
                b.store@[b.visible_spec()[b.search_matches@[j] as int] as int],
            ) by {
                let p = b.search_matches@[j];
                assert(hit_positions(hits).contains(p));
                assert(hits[p as int]);
            }
        },
        None => {},
    }
}

/// A search position is always a position in the match list; an empty match
/// list has none.
pub proof fn lemma_search_position_valid(a: App)
    requires
        a.wf(),
    ensures
        a.search_match_pos matches Some(p) ==> p < a.search_matches@.len(),
        a.search_matches@.len() == 0 ==> a.search_match_pos is None,
{
}

proof fn lemma_words_from_one(s: Seq<char>, cur: Seq<char>)
    requires
        cur.len() + s.len() > 0,
        forall|i: int| 0 <= i < s.len() ==> !is_white_space(#[trigger] s[i]),
    ensures
        words_from(s, cur) == seq![cur + s],
    decreases s.len(),
{
    if s.len() == 0 {
        assert(cur + s == cur);
    } else {
        assert(!is_white_space(s[0]));
        let r = s.drop_first();
        assert forall|i: int| 0 <= i < r.len() implies !is_white_space(#[trigger] r[i]) by {
            assert(r[i] == s[i + 1]);
        }
        lemma_words_from_one(r, cur.push(s[0]));
        assert(cur.push(s[0]) + r == cur + s);
    }
}

/// The texts a `level:` value may take for level `n`: its name as the table
/// shows it, in any letter case, or its number.
pub open spec fn names_level(n: u8, w: Seq<char>) -> bool {
    ascii_lower_seq(w) == ascii_lower_seq(level_name(n)) || w == decimal_spec(n as nat)
}

proof fn lemma_level_word(n: u8, w: Seq<char>)
    requires
        1 <= n <= 5,
        names_level(n, w),
    ensures
        level_code(w) == Some(n),
        w.len() > 0,
        forall|i: int| 0 <= i < w.len() ==> !is_white_space(#[trigger] w[i]),
{
    reveal_strlit("Critical");
    reveal_strlit("Error");
    reveal_strlit("Warning");
    reveal_strlit("Info");
    reveal_strlit("Verbose");
    reveal_strlit("critical");
    reveal_strlit("error");
    reveal_strlit("warning");
    reveal_strlit("info");
    reveal_strlit("verbose");
    reveal_strlit("1");
    reveal_strlit("2");
    reveal_strlit("3");
    reveal_strlit("4");
    reveal_strlit("5");
    let l = ascii_lower_seq(w);
    assert(w.len() == l.len());
    if ascii_lower_seq(w) == ascii_lower_seq(level_name(n)) {
        let name = level_name(n);
        assert forall|i: int| 0 <= i < w.len() implies !is_white_space(#[trigger] w[i]) by {
            assert(l[i] == ascii_lower(w[i]));
            assert(l[i] == ascii_lower(name[i]));
        }
        if n == 1 {
            assert(ascii_lower_seq("Critical"@) =~= "critical"@);
            assert(l == "critical"@);
        } else if n == 2 {
            assert(ascii_lower_seq("Error"@) =~= "error"@);
            assert(l == "error"@);
            assert(l != "critical"@ && l != "1"@);
        } else if n == 3 {
            assert(ascii_lower_seq("Warning"@) =~= "warning"@);
            assert(l == "warning"@);
            assert(l != "critical"@ && l != "1"@ && l != "error"@ && l != "2"@);
        } else if n == 4 {
            assert(ascii_lower_seq("Info"@) =~= "info"@);
            assert(l == "info"@);
            assert(l != "critical"@ && l != "1"@ && l != "error"@ && l != "2"@);
            assert(l != "warning"@ && l != "3"@);
        } else {
            assert(ascii_lower_seq("Verbose"@) =~= "verbose"@);
            assert(l == "verbose"@);
            assert(l != "critical"@ && l != "1"@ && l != "error"@ && l != "2"@);
            assert(l[0] == 'v' && ("warning"@)[0] == 'w');
            assert(l != "warning"@ && l != "3"@ && l != "info"@ && l != "4"@);
        }
    } else {
        assert(w.len() == 1);
        let c = w[0];
        assert(c == ((('0' as u32) + n) as char));
        assert(!is_white_space(c));
        assert(ascii_lower(c) == c);
        assert(l =~= w);
        assert forall|i: int| 0 <= i < w.len() implies !is_white_space(#[trigger] w[i]) by {
            assert(i == 0);
        }
        if n == 1 {
            assert(c == '1');
            assert(w =~= "1"@);
        } else if n == 2 {
            assert(c == '2');
            assert(w =~= "2"@);
            assert(l != "critical"@ && l != "1"@);
        } else if n == 3 {
            assert(c == '3');
            assert(w =~= "3"@);
            assert(l != "critical"@ && l != "1"@ && l != "error"@ && l != "2"@);
        } else if n == 4 {
            assert(c == '4');
            assert(w =~= "4"@);
            assert(l != "critical"@ && l != "1"@ && l != "error"@ && l != "2"@);
            assert(l != "warning"@ && l != "3"@);
        } else {
            assert(c == '5');
            assert(w =~= "5"@);
            assert(l != "critical"@ && l != "1"@ && l != "error"@ && l != "2"@);
            assert(l != "warning"@ && l != "3"@ && l != "info"@ && l != "4"@);
        }
    }
}

/// Filtering by `level:` with a level name as the table shows it (in any
/// letter case) or with its number keeps exactly the events of that level.
pub proof fn lemma_level_filter(n: u8, w: Seq<char>, e: ParsedEvent)
    requires
        1 <= n <= 5,
        names_level(n, w),
    ensures
        passes_input("level:"@ + w, e) <==> e.level == n,
{
    reveal_strlit("level:");
    reveal_strlit("provider:");
    reveal_strlit("pid:");
    reveal_strlit("msg:");
    lemma_level_word(n, w);
    let input = "level:"@ + w;
    assert forall|i: int| 0 <= i < input.len() implies !is_white_space(#[trigger] input[i]) by {
        if i >= 6 {
            assert(input[i] == w[i - 6]);
        }
    }
    lemma_words_from_one(input, Seq::empty());
    assert(Seq::<char>::empty() + input == input);
    let ws = words(input);
    assert(ws == seq![input]);
    assert(ws.drop_last().len() == 0);
    assert(ws.last() == input);
    assert(input.take(6) =~= "level:"@);
    assert(input.skip(6) =~= w);
    assert(input[0] == 'l');
    assert(!has_prefix(input, "provider:"@)) by {
        if has_prefix(input, "provider:"@) {
            assert(input.take(9)[0] == 'p');
        }
    }
    assert(!has_prefix(input, "pid:"@)) by {
        if has_prefix(input, "pid:"@) {
            assert(input.take(4)[0] == 'p');
        }
    }
    assert(!has_prefix(input, "msg:"@)) by {
        if has_prefix(input, "msg:"@) {
            assert(input.take(4)[0] == 'm');
        }
    }
    assert(last_value(ws, "level:"@) == Some(w));
    assert(last_value(ws.drop_last(), "provider:"@) is None);
    assert(last_value(ws.drop_last(), "pid:"@) is None);
    assert(last_value(ws.drop_last(), "msg:"@) is None);
    assert(last_value(ws, "provider:"@) is None);
    assert(last_value(ws, "pid:"@) is None);
    assert(last_value(ws, "msg:"@) is None);
    assert(any_key(ws)) by {
        assert(has_prefix(ws[0], "level:"@));
    }
}

proof fn lemma_words_append(a: Seq<char>, x: Seq<char>, cur: Seq<char>)
    requires
        x.len() > 0,
        is_white_space(x[0]),
    ensures
        words_from(a + x, cur) == words_from(a, cur) + words_from(x, Seq::empty()),
    decreases a.len(),
{
    if a.len() == 0 {
        assert(a + x == x);
        assert(x.drop_first() == x.drop_first());
        if cur.len() > 0 {
            assert(words_from(a, cur) == seq![cur]);
        } else {
            assert(words_from(a, cur) == Seq::<Seq<char>>::empty());
            assert(Seq::<Seq<char>>::empty() + words_from(x, Seq::empty()) == words_from(x, Seq::empty()));
        }
    } else {
        let ax = a + x;
        assert(ax[0] == a[0]);
        assert(ax.drop_first() == a.drop_first() + x);
        if is_white_space(a[0]) {
            lemma_words_append(a.drop_first(), x, Seq::empty());
            if cur.len() > 0 {
                assert(seq![cur] + (words_from(a.drop_first(), Seq::empty()) + words_from(x, Seq::empty()))
                    == (seq![cur] + words_from(a.drop_first(), Seq::empty())) + words_from(x, Seq::empty()));
            }
        } else {
            lemma_words_append(a.drop_first(), x, cur.push(a[0]));
        }
    }
}

/// Adding a `pid:` term to a filter that has keyed terms and none for the
/// process only narrows it: an event passes exactly when it passed before and,
/// when the value is a number, belongs to that process.
pub proof fn lemma_pid_term_narrows(s: Seq<char>, d: Seq<char>, e: ParsedEvent)
    requires
        any_key(words(s)),
        last_value(words(s), "pid:"@) is None,
        forall|i: int| 0 <= i < d.len() ==> !is_white_space(#[trigger] d[i]),
    ensures
        passes_input(s + " pid:"@ + d, e) <==> (passes_input(s, e) && (parse_u32_spec(d) matches Some(
            n,
        ) ==> e.pid == n)),
{
    reveal_strlit(" pid:");
    reveal_strlit("pid:");
    reveal_strlit("level:");
    reveal_strlit("provider:");
    reveal_strlit("msg:");
    let p = "pid:"@ + d;
    let x = " pid:"@ + d;
    assert(s + " pid:"@ + d == s + x);
    assert(x[0] == ' ');
    assert(x.drop_first() == p);
    lemma_words_append(s, x, Seq::empty());
    assert forall|i: int| 0 <= i < p.len() implies !is_white_space(#[trigger] p[i]) by {
        if i >= 4 {
            assert(p[i] == d[i - 4]);
        }
    }
    lemma_words_from_one(p, Seq::empty());
    assert(Seq::<char>::empty() + p == p);
    assert(words_from(x, Seq::empty()) == seq![p]);
    let ws = words(s);
    let ws2 = words(s + x);
    assert(ws2 == ws.push(p));
    assert(ws2.drop_last() == ws);
    assert(ws2.last() == p);
    assert(p.take(4) =~= "pid:"@);
    assert(p.skip(4) =~= d);
    assert(!has_prefix(p, "provider:"@)) by {
        if has_prefix(p, "provider:"@) {
            assert(p.take(9)[1] == 'r');
        }
    }
    assert(!has_prefix(p, "level:"@)) by {
        if has_prefix(p, "level:"@) {
            assert(p.take(6)[0] == 'l');
        }
    }
    assert(!has_prefix(p, "msg:"@)) by {
        if has_prefix(p, "msg:"@) {
            assert(p.take(4)[0] == 'm');
        }
    }
    assert(last_value(ws2, "pid:"@) == Some(d));
    assert(last_value(ws2, "provider:"@) == last_value(ws, "provider:"@));
    assert(last_value(ws2, "level:"@) == last_value(ws, "level:"@));
    assert(last_value(ws2, "msg:"@) == last_value(ws, "msg:"@));
    assert(any_key(ws2)) by {
        let k = choose|k: int|
            0 <= k < ws.len() && (has_prefix(ws[k], "provider:"@) || has_prefix(ws[k], "level:"@)
                || has_prefix(ws[k], "pid:"@) || has_prefix(#[trigger] ws[k], "msg:"@));
        assert(ws2[k] == ws[k]);
    }
}


/// The decimal text of a number is one or more ASCII digits that read back as
/// the number.
pub proof fn lemma_decimal_reads_back(n: nat)
    ensures
        decimal_spec(n).len() > 0,
        all_ascii_digits(decimal_spec(n)),
        digits_value(decimal_spec(n)) == n,
    decreases n,
{
    let c = ((('0' as u32) + (n % 10)) as char);
    assert(c as u32 == 48 + n % 10);
    assert(digit_value(c) == n % 10);
    if n < 10 {
        assert(decimal_spec(n) == seq![c]);
        assert(seq![c].drop_last() == Seq::<char>::empty());
        assert(digits_value(seq![c]) == digits_value(Seq::<char>::empty()) * 10 + digit_value(c));
    } else {
        lemma_decimal_reads_back(n / 10);
        let q = decimal_spec(n / 10);
        assert(decimal_spec(n) == q.push(c));
        assert(q.push(c).drop_last() == q);
        assert forall|k: int| 0 <= k < q.push(c).len() implies is_ascii_digit(
            #[trigger] q.push(c)[k],
        ) by {
            if k < q.len() {
                assert(q.push(c)[k] == q[k]);
            }
        }
        assert(digits_value(q.push(c)) == digits_value(q) * 10 + digit_value(c));
        assert((n / 10) * 10 + n % 10 == n) by (nonlinear_arith);
    }
}

/// A trimmed text that is not empty starts and ends with a character that is
/// not white space, and trimming it again changes nothing.
pub proof fn lemma_trim_idempotent(x: Seq<char>)
    ensures
        trim_spec(x).len() > 0 ==> !is_white_space(trim_spec(x)[0]) && !is_white_space(
            trim_spec(x).last(),
        ),
        trim_spec(trim_spec(x)) == trim_spec(x),
{
    let l = leading_ws(x);
    let t = x.skip(l as int);
    lemma_leading_ws_bound(x);
    lemma_trailing_ws_bound(t);
    let s = trim_spec(x);
    if s.len() > 0 {
        assert(s[0] == x[l as int]);
        assert(s.last() == t[t.len() - trailing_ws(t) - 1]);
        lemma_untrimmed(s);
    } else {
        assert(leading_ws(s) == 0);
        assert(trailing_ws(s) == 0);
        assert(trim_spec(s) =~= s);
    }
}

/// A text that starts and ends with a character that is not white space is
/// its own trim.
proof fn lemma_untrimmed(s: Seq<char>)
    requires
        s.len() > 0,
        !is_white_space(s[0]),
        !is_white_space(s.last()),
    ensures
        trim_spec(s) == s,
{
    assert(leading_ws(s) == 0);
    assert(s.skip(0) =~= s);
    assert(trailing_ws(s) == 0);
    assert(s.take(s.len() as int) =~= s);
}

/// Over the first `k` events, the positions passing `s pid:d` are those
/// passing `s` whose event belongs to process `n`, where `d` reads as `n`.
proof fn lemma_pid_rows(s: Seq<char>, d: Seq<char>, n: u32, events: Seq<ParsedEvent>, k: int)
    requires
        any_key(words(s)),
        last_value(words(s), "pid:"@) is None,
        forall|i: int| 0 <= i < d.len() ==> !is_white_space(#[trigger] d[i]),
        parse_u32_spec(d) == Some(n),
        events.len() <= usize::MAX,
        0 <= k <= events.len(),
    ensures
        passing_indices(s + " pid:"@ + d, events.take(k)) == passing_indices(s, events.take(k)).filter(
            |i: usize| events[i as int].pid == n,
        ),
    decreases k,
{
    reveal(Seq::filter);
    let pred = |i: usize| events[i as int].pid == n;
    let t = events.take(k);
    if k == 0 {
        assert(passing_indices(s, t) == Seq::<usize>::empty());
    } else {
        lemma_pid_rows(s, d, n, events, k - 1);
        assert(t.drop_last() == events.take(k - 1));
        assert(t.last() == events[k - 1]);
        lemma_pid_term_narrows(s, d, events[k - 1]);
        let q = passing_indices(s, events.take(k - 1));
        let j = (k - 1) as usize;
        if passes_input(s, events[k - 1]) {
            assert(q.push(j).drop_last() == q);
            assert(q.push(j).last() == j);
            assert(pred(j) == (events[k - 1].pid == n));
        }
    }
}

/// Narrowing a filter by process: when the filter `s` just applied has keyed
/// terms and none for the process, applying `s pid:N` over the same events
/// shows exactly the rows shown before whose event belongs to process `N`, in
/// the same order.
pub proof fn lemma_pid_filter_narrows(a: App, b: App, c: App, d: App, n: u32)
    requires
        a.wf(),
        App::filtered(a, b),
        any_key(words(trim_spec(a.input_buffer@))),
        last_value(words(trim_spec(a.input_buffer@)), "pid:"@) is None,
        c.wf(),
        c.store@ == b.store@,
        c.input_buffer@ == trim_spec(a.input_buffer@) + " pid:"@ + decimal_spec(n as nat),
        App::filtered(c, d),
    ensures
        b.filtered_indices is Some,
        d.filtered_indices is Some,
        d.filtered_indices->0@ == b.filtered_indices->0@.filter(
            |i: usize| a.store@[i as int].pid == n,
        ),
{
    reveal_strlit(" pid:");
    let s = trim_spec(a.input_buffer@);
    let dec = decimal_spec(n as nat);
    let s2 = s + " pid:"@ + dec;
    lemma_decimal_reads_back(n as nat);
    assert(words(s).len() > 0);
    assert(s.len() > 0) by {
        if s.len() == 0 {
            assert(words(s) == Seq::<Seq<char>>::empty());
        }
    }
    lemma_trim_idempotent(a.input_buffer@);
    assert(s2[0] == s[0]);
    assert(s2.last() == dec.last());
    assert(is_ascii_digit(dec[dec.len() - 1]));
    lemma_untrimmed(s2);
    assert forall|i: int| 0 <= i < dec.len() implies !is_white_space(#[trigger] dec[i]) by {
        assert(is_ascii_digit(dec[i]));
    }
    assert(dec[0] != '+') by {
        assert(is_ascii_digit(dec[0]));
    }
    assert(parse_u32_spec(dec) == Some(n));
    a.store.lemma_len_bound();
    lemma_pid_rows(s, dec, n, a.store@, a.store@.len() as int);
    assert(a.store@.take(a.store@.len() as int) == a.store@);
}


/// What a store holds after `es` are pushed onto it one after the other, each
/// push appending its event (as `EventStore::push` ensures).
pub open spec fn after_pushes(start: Seq<ParsedEvent>, es: Seq<ParsedEvent>) -> Seq<ParsedEvent>
    decreases es.len(),
{
    if es.len() == 0 {
        start
    } else {
        after_pushes(start, es.drop_last()).push(es.last())
    }
}

/// A store that starts empty and has `es` pushed holds exactly `es`, in the
/// order they were pushed: `get` gives the `i`-th event pushed at every
/// position `i` below their count and nothing at any other position.
pub proof fn lemma_pushes_then_get(es: Seq<ParsedEvent>)
    ensures
        after_pushes(Seq::empty(), es) == es,
        forall|i: int| 0 <= i < es.len() ==> #[trigger] after_pushes(Seq::empty(), es)[i] == es[i],
        after_pushes(Seq::empty(), es).len() == es.len(),
    decreases es.len(),
{
    if es.len() > 0 {
        lemma_pushes_then_get(es.drop_last());
        assert(es.drop_last().push(es.last()) == es);
    }
}


/* ---------- What the keys do ---------- */

/// `b` is `a` with row `r` selected; the offset of the table and everything
/// else stay as they were (the cache of visible rows may have been refreshed).
pub open spec fn selects_row(a: App, b: App, r: int) -> bool {
    b == (App {
        table_state: TableCursor { selected: Some(r as usize), offset: a.table_state.offset },
        visible_cache: b.visible_cache,
        ..a
    })
}

/// The row `d` rows below row `c`, or the last row `last` when there are
/// not that many.
pub open spec fn row_below(c: int, d: int, last: int) -> int {
    if c + d > last {
        last
    } else {
        c + d
    }
}

/// The row `d` rows above row `c`, or the first row when there are not that
/// many.
pub open spec fn row_above(c: int, d: int) -> int {
    if c - d < 0 {
        0
    } else {
        c - d
    }
}

/// How a navigation key moves the selection over `n` rows from row `c`:
/// `Home`/`g` to the first row, `End`/`G` to the last, `Down`/`j` and
/// `Up`/`k` one row, `PageDown`/`Ctrl+D` and `PageUp`/`Ctrl+U` thirty rows,
/// never past the first or last row. `None` for any other key.
pub open spec fn navigated_row(k: KeyInput, c: int, n: int) -> Option<int> {
    if k.code == Key::Home || k.code == Key::Char('g') {
        Some(0)
    } else if k.code == Key::End || k.code == Key::Char('G') {
        Some(n - 1)
    } else if k.code == Key::Down || k.code == Key::Char('j') {
        Some(row_below(c, 1, n - 1))
    } else if k.code == Key::Up || k.code == Key::Char('k') {
        Some(row_above(c, 1))
    } else if k.code == Key::PageDown || (k.code == Key::Char('d') && k.ctrl) {
        Some(row_below(c, 30, n - 1))
    } else if k.code == Key::PageUp || (k.code == Key::Char('u') && k.ctrl) {
        Some(row_above(c, 30))
    } else {
        None
    }
}

/// In the table, the navigation keys move the selection as `navigated_row`
/// says and change nothing else: `Home` and `g` select the first row, `End`
/// and `G` the last one, and so on, whatever row was selected.
pub proof fn lemma_table_navigation(a: App, b: App, act: Action, k: KeyInput)
    requires
        a.visible_spec().len() > 0,
        normal_post(a, b, normal_command_spec(k), act),
        navigated_row(k, a.cursor() as int, a.visible_spec().len() as int) is Some,
    ensures
        selects_row(a, b, navigated_row(k, a.cursor() as int, a.visible_spec().len() as int)->0),
        is_nothing(act),
{
}

/// What the other keys of the table do: `q` and `Ctrl+C` quit; `h`/`Left`
/// and `l`/`Right` scroll the messages eight characters; `/` and `f` start
/// typing a search or a filter; `Enter` opens the detail view at its top;
/// `?` opens the help; `t`, `s` and `w` switch the time zone, the source
/// column and wrapping; `v` starts a visual selection at the selected row;
/// `Esc` drops the search; `c` copies the selected event and `C` every shown
/// event; `n` and `N` go to the next and previous match, wrapping around; `F`
/// drops the filter and selects the first row. Nothing else changes.
pub proof fn lemma_table_keys(a: App, b: App, act: Action, k: KeyInput)
    requires
        normal_post(a, b, normal_command_spec(k), act),
    ensures
        (k.code == Key::Char('q') || (k.code == Key::Char('c') && k.ctrl)) ==> b == (App {
            should_quit: true,
            ..a
        }) && is_nothing(act),
        (k.code == Key::Left || k.code == Key::Char('h')) ==> b == (App {
            horizontal_scroll: (if a.horizontal_scroll >= 8 {
                a.horizontal_scroll - 8
            } else {
                0
            }) as usize,
            ..a
        }) && is_nothing(act),
        (k.code == Key::Right || k.code == Key::Char('l')) ==> b == (App {
            horizontal_scroll: (if a.horizontal_scroll <= usize::MAX - 8 {
                a.horizontal_scroll + 8
            } else {
                usize::MAX as int
            }) as usize,
            ..a
        }) && is_nothing(act),
        k.code == Key::Char('/') ==> b.input_buffer@.len() == 0 && b == (App {
            input_mode: InputMode::Search,
            input_buffer: b.input_buffer,
            ..a
        }) && is_nothing(act),
        k.code == Key::Char('f') ==> b.input_buffer@.len() == 0 && b == (App {
            input_mode: InputMode::Filter,
            input_buffer: b.input_buffer,
            ..a
        }) && is_nothing(act),
        k.code == Key::Enter ==> b == (App {
            input_mode: InputMode::Detail,
            detail_scroll: 0,
            ..a
        }) && is_nothing(act),
        k.code == Key::Char('?') ==> b == (App { input_mode: InputMode::Help, ..a }) && is_nothing(
            act,
        ),
        k.code == Key::Char('t') ==> b == (App {
            timestamp_mode: if a.timestamp_mode == TimestampMode::Utc {
                TimestampMode::Local
            } else {
                TimestampMode::Utc
            },
            ..a
        }) && is_nothing(act),
        k.code == Key::Char('s') ==> b == (App { show_source: !a.show_source, ..a }) && is_nothing(
            act,
        ),
        k.code == Key::Char('w') ==> b == (App { wrap_lines: !a.wrap_lines, ..a }) && is_nothing(
            act,
        ),
        k.code == Key::Char('v') ==> b == (App {
            input_mode: InputMode::Visual,
            visual_anchor: a.cursor(),
            ..a
        }) && is_nothing(act),
        k.code == Key::Esc ==> b.search_regex is None && b.search_matches@.len() == 0
            && b.search_match_pos is None && b == (App {
            search_regex: None,
            search_matches: b.search_matches,
            search_match_pos: None,
            ..a
        }) && is_nothing(act),
        (k.code == Key::Char('c') && !k.ctrl) ==> b == (App { visible_cache: b.visible_cache, ..a })
            && (if a.cursor() < a.visible_spec().len() {
            act == Action::CopyLine(a.visible_spec()[a.cursor() as int])
        } else {
            is_nothing(act)
        }),
        k.code == Key::Char('C') ==> b == (App { visible_cache: b.visible_cache, ..a }) && (
        act matches Action::CopyLines(rows) && rows@ == a.visible_spec()),
        (k.code == Key::Char('n') && a.search_matches@.len() > 0) ==> {
            let p = match a.search_match_pos {
                Some(q) => (q + 1) % (a.search_matches@.len() as int),
                None => 0,
            };
            &&& b == (App {
                search_match_pos: Some(p as usize),
                table_state: TableCursor {
                    selected: Some(a.search_matches@[p]),
                    offset: a.table_state.offset,
                },
                ..a
            })
            &&& is_nothing(act)
        },
        (k.code == Key::Char('N') && a.search_matches@.len() > 0) ==> {
            let p = match a.search_match_pos {
                Some(q) => if q == 0 {
                    a.search_matches@.len() - 1
                } else {
                    q - 1
                },
                None => 0,
            };
            &&& b == (App {
                search_match_pos: Some(p as usize),
                table_state: TableCursor {
                    selected: Some(a.search_matches@[p]),
                    offset: a.table_state.offset,
                },
                ..a
            })
            &&& is_nothing(act)
        },
        (k.code == Key::Char('F') && a.filtered_indices is Some) ==> {
            &&& b.filtered_indices is None
            &&& b.active_filter_desc is None
            &&& b.table_state == (TableCursor { selected: Some(0), offset: a.table_state.offset })
            &&& b.search_match_pos is None
            &&& b.store == a.store && b.input_mode == a.input_mode && b.search_regex == a.search_regex
            &&& is_nothing(act)
        },
        (k.code == Key::Char('F') && a.filtered_indices is None) ==> b == a && is_nothing(act),
{
    assert(a.search_matches@.len() == a.search_matches.len());
}

/// In visual mode the navigation keys move the selection as in the table,
/// and the selection's anchor and the mode stay.
pub proof fn lemma_visual_navigation(a: App, b: App, act: Action, k: KeyInput)
    requires
        a.visible_spec().len() > 0,
        visual_post(a, b, visual_command_spec(k), act),
        navigated_row(k, a.cursor() as int, a.visible_spec().len() as int) is Some,
    ensures
        selects_row(a, b, navigated_row(k, a.cursor() as int, a.visible_spec().len() as int)->0),
        b.visual_anchor == a.visual_anchor,
        b.input_mode == a.input_mode,
        is_nothing(act),
{
}

/// The shown rows from `lo` to `hi` (both included) that exist.
pub open spec fn shown_rows(vis: Seq<usize>, lo: int, hi: int) -> Seq<usize> {
    Seq::new(
        if lo < vis.len() {
            (if hi < vis.len() {
                hi + 1
            } else {
                vis.len() as int
            }) - lo
        } else {
            0
        } as nat,
        |i: int| vis[lo + i],
    )
}

/// In visual mode `Enter`, `y` and `c` copy the selected rows, from the
/// lower to the higher of the anchor and the selection (those that exist),
/// and return to the table; `Esc`, `v` and `q` return to the table and copy
/// nothing. Nothing else changes.
pub proof fn lemma_visual_copy_and_cancel(a: App, b: App, act: Action, k: KeyInput)
    requires
        visual_post(a, b, visual_command_spec(k), act),
    ensures
        ({
            let c = a.cursor() as int;
            let lo = if a.visual_anchor <= c {
                a.visual_anchor as int
            } else {
                c
            };
            let hi = if a.visual_anchor <= c {
                c
            } else {
                a.visual_anchor as int
            };
            (k.code == Key::Enter || k.code == Key::Char('y') || k.code == Key::Char('c')) ==> {
                &&& b == (App {
                    input_mode: InputMode::Normal,
                    visible_cache: b.visible_cache,
                    ..a
                })
                &&& act matches Action::CopyLines(rows) && rows@ == shown_rows(
                    a.visible_spec(),
                    lo,
                    hi,
                )
            }
        }),
        (k.code == Key::Esc || k.code == Key::Char('v') || k.code == Key::Char('q')) ==> b == (App {
            input_mode: InputMode::Normal,
            ..a
        }) && is_nothing(act),
{
    if k.code == Key::Enter || k.code == Key::Char('y') || k.code == Key::Char('c') {
        let c = a.cursor() as int;
        let lo = if a.visual_anchor <= c {
            a.visual_anchor as int
        } else {
            c
        };
        let hi = if a.visual_anchor <= c {
            c
        } else {
            a.visual_anchor as int
        };
        let vis = a.visible_spec();
        assert(rows_between(vis, lo, hi) =~= shown_rows(vis, lo, hi));
    }
}

/// In the detail view `Down`/`j` scroll one line down and `Up`/`k` one line
/// up, `PageDown`/`Ctrl+D` and `PageUp`/`Ctrl+U` ten lines, never below 0 or
/// past `u16::MAX`; `Esc`, `Enter` and `q` go back to the table. Nothing else
/// changes.
pub proof fn lemma_detail_keys(a: App, b: App, k: KeyInput)
    requires
        detail_post(a, b, k),
    ensures
        ({
            let s = a.detail_scroll as int;
            let scrolled = |d: int| b == (App {
                detail_scroll: (if s + d < 0 {
                    0
                } else if s + d > u16::MAX {
                    u16::MAX as int
                } else {
                    s + d
                }) as u16,
                ..a
            });
            &&& (k.code == Key::Down || k.code == Key::Char('j')) ==> scrolled(1)
            &&& (k.code == Key::Up || k.code == Key::Char('k')) ==> scrolled(-1)
            &&& (k.code == Key::PageDown || (k.code == Key::Char('d') && k.ctrl)) ==> scrolled(10)
            &&& (k.code == Key::PageUp || (k.code == Key::Char('u') && k.ctrl)) ==> scrolled(-10)
        }),
        (k.code == Key::Esc || k.code == Key::Enter || k.code == Key::Char('q')) ==> b == (App {
            input_mode: InputMode::Normal,
            ..a
        }),
{
}


/* ---------- What each filter term looks at ---------- */

/// A compiled `msg:` term looks at the message only: an event passes it
/// exactly when the pattern matches its message, whatever its provider.
pub proof fn lemma_msg_term_reads_message(p: Seq<char>, e: ParsedEvent)
    ensures
        filter_passes(None, None, None, Some(p), None, e) <==> regex_is_match(p, e.message@),
{
}

/// A compiled `provider:` term looks at the provider only.
pub proof fn lemma_provider_term_reads_provider(p: Seq<char>, e: ParsedEvent)
    ensures
        filter_passes(Some(p), None, None, None, None, e) <==> regex_is_match(p, e.provider_name@),
{
}

/// A plain text looks at both: an event passes when the pattern matches its
/// message or its provider.
pub proof fn lemma_plain_term_reads_both(p: Seq<char>, e: ParsedEvent)
    ensures
        filter_passes(None, None, None, None, Some(p), e) <==> (regex_is_match(p, e.message@)
            || regex_is_match(p, e.provider_name@)),
{
}

/// A text without white space is one word.
proof fn lemma_one_word(input: Seq<char>)
    requires
        input.len() > 0,
        forall|i: int| 0 <= i < input.len() ==> !is_white_space(#[trigger] input[i]),
    ensures
        words(input) == seq![input],
        words(input).drop_last().len() == 0,
        words(input).last() == input,
{
    lemma_words_from_one(input, Seq::empty());
    assert(Seq::<char>::empty() + input == input);
}

/// `key` followed by a value without white space has no white space.
proof fn lemma_keyed_word(key: Seq<char>, x: Seq<char>)
    requires
        key.len() > 0,
        forall|i: int| 0 <= i < key.len() ==> !is_white_space(#[trigger] key[i]),
        forall|i: int| 0 <= i < x.len() ==> !is_white_space(#[trigger] x[i]),
    ensures
        words(key + x) == seq![key + x],
        words(key + x).drop_last().len() == 0,
        words(key + x).last() == key + x,
        has_prefix(key + x, key),
        (key + x).skip(key.len() as int) == x,
{
    let w = key + x;
    assert forall|i: int| 0 <= i < w.len() implies !is_white_space(#[trigger] w[i]) by {
        if i < key.len() {
            assert(w[i] == key[i]);
        } else {
            assert(w[i] == x[i - key.len()]);
        }
    }
    lemma_one_word(w);
    assert(w.take(key.len() as int) =~= key);
    assert(w.skip(key.len() as int) =~= x);
}

/// Filtering by `msg:X` alone keeps exactly the events whose message the
/// case-insensitive pattern `X` matches, whatever their provider; a pattern
/// that does not compile keeps every event.
pub proof fn lemma_msg_filter(x: Seq<char>, e: ParsedEvent)
    requires
        forall|i: int| 0 <= i < x.len() ==> !is_white_space(#[trigger] x[i]),
    ensures
        passes_input("msg:"@ + x, e) <==> (regex_compiles("(?i)"@ + x) ==> regex_is_match(
            "(?i)"@ + x,
            e.message@,
        )),
{
    reveal_strlit("msg:");
    reveal_strlit("level:");
    reveal_strlit("provider:");
    reveal_strlit("pid:");
    reveal_strlit("(?i)");
    let key = "msg:"@;
    assert forall|i: int| 0 <= i < key.len() implies !is_white_space(#[trigger] key[i]) by {}
    lemma_keyed_word(key, x);
    let w = key + x;
    let ws = words(w);
    assert(w[0] == 'm');
    assert(!has_prefix(w, "provider:"@)) by {
        if has_prefix(w, "provider:"@) {
            assert(w.take(9)[0] == 'p');
        }
    }
    assert(!has_prefix(w, "level:"@)) by {
        if has_prefix(w, "level:"@) {
            assert(w.take(6)[0] == 'l');
        }
    }
    assert(!has_prefix(w, "pid:"@)) by {
        if has_prefix(w, "pid:"@) {
            assert(w.take(4)[0] == 'p');
        }
    }
    assert(last_value(ws, "msg:"@) == Some(x));
    assert(last_value(ws.drop_last(), "provider:"@) is None);
    assert(last_value(ws, "provider:"@) is None);
    assert(last_value(ws.drop_last(), "level:"@) is None);
    assert(last_value(ws, "level:"@) is None);
    assert(last_value(ws.drop_last(), "pid:"@) is None);
    assert(last_value(ws, "pid:"@) is None);
    assert(any_key(ws)) by {
        assert(has_prefix(ws[0], "msg:"@));
    }
}

/// Filtering by `provider:X` alone keeps exactly the events whose provider
/// contains `X` (taken literally, in any letter case), whatever their
/// message.
pub proof fn lemma_provider_filter(x: Seq<char>, e: ParsedEvent)
    requires
        forall|i: int| 0 <= i < x.len() ==> !is_white_space(#[trigger] x[i]),
    ensures
        passes_input("provider:"@ + x, e) <==> (regex_compiles("(?i)"@ + escape_spec(x))
            ==> regex_is_match("(?i)"@ + escape_spec(x), e.provider_name@)),
{
    reveal_strlit("msg:");
    reveal_strlit("level:");
    reveal_strlit("provider:");
    reveal_strlit("pid:");
    reveal_strlit("(?i)");
    let key = "provider:"@;
    assert forall|i: int| 0 <= i < key.len() implies !is_white_space(#[trigger] key[i]) by {}
    lemma_keyed_word(key, x);
    let w = key + x;
    let ws = words(w);
    assert(w[0] == 'p' && w[1] == 'r');
    assert(!has_prefix(w, "msg:"@)) by {
        if has_prefix(w, "msg:"@) {
            assert(w.take(4)[0] == 'm');
        }
    }
    assert(!has_prefix(w, "level:"@)) by {
        if has_prefix(w, "level:"@) {
            assert(w.take(6)[0] == 'l');
        }
    }
    assert(!has_prefix(w, "pid:"@)) by {
        if has_prefix(w, "pid:"@) {
            assert(w.take(4)[1] == 'i');
        }
    }
    assert(last_value(ws, "provider:"@) == Some(x));
    assert(last_value(ws.drop_last(), "msg:"@) is None);
    assert(last_value(ws, "msg:"@) is None);
    assert(last_value(ws.drop_last(), "level:"@) is None);
    assert(last_value(ws, "level:"@) is None);
    assert(last_value(ws.drop_last(), "pid:"@) is None);
    assert(last_value(ws, "pid:"@) is None);
    assert(any_key(ws)) by {
        assert(has_prefix(ws[0], "provider:"@));
    }
}

/// Filtering by `pid:N` alone keeps exactly the events of process `N`; a
/// value that is not a number keeps every event.
pub proof fn lemma_pid_filter(x: Seq<char>, e: ParsedEvent)
    requires
        forall|i: int| 0 <= i < x.len() ==> !is_white_space(#[trigger] x[i]),
    ensures
        passes_input("pid:"@ + x, e) <==> (parse_u32_spec(x) matches Some(n) ==> e.pid == n),
{
    reveal_strlit("msg:");
    reveal_strlit("level:");
    reveal_strlit("provider:");
    reveal_strlit("pid:");
    let key = "pid:"@;
    assert forall|i: int| 0 <= i < key.len() implies !is_white_space(#[trigger] key[i]) by {}
    lemma_keyed_word(key, x);
    let w = key + x;
    let ws = words(w);
    assert(w[0] == 'p' && w[1] == 'i');
    assert(!has_prefix(w, "msg:"@)) by {
        if has_prefix(w, "msg:"@) {
            assert(w.take(4)[0] == 'm');
        }
    }
    assert(!has_prefix(w, "level:"@)) by {
        if has_prefix(w, "level:"@) {
            assert(w.take(6)[0] == 'l');
        }
    }
    assert(!has_prefix(w, "provider:"@)) by {
        if has_prefix(w, "provider:"@) {
            assert(w.take(9)[1] == 'r');
        }
    }
    assert(last_value(ws, "pid:"@) == Some(x));
    assert(last_value(ws.drop_last(), "msg:"@) is None);
    assert(last_value(ws, "msg:"@) is None);
    assert(last_value(ws.drop_last(), "level:"@) is None);
    assert(last_value(ws, "level:"@) is None);
    assert(last_value(ws.drop_last(), "provider:"@) is None);
    assert(last_value(ws, "provider:"@) is None);
    assert(any_key(ws)) by {
        assert(has_prefix(ws[0], "pid:"@));
    }
}

/// A plain text (no word of it starts with a key) keeps exactly the events
/// whose message or provider contains the whole text (taken literally, in any
/// letter case).
pub proof fn lemma_plain_filter(s: Seq<char>, e: ParsedEvent)
    requires
        forall|k: int|
            0 <= k < words(s).len() ==> !has_prefix(#[trigger] words(s)[k], "provider:"@)
                && !has_prefix(words(s)[k], "level:"@) && !has_prefix(words(s)[k], "pid:"@)
                && !has_prefix(words(s)[k], "msg:"@),
    ensures
        passes_input(s, e) <==> (regex_compiles("(?i)"@ + escape_spec(s)) ==> (regex_is_match(
            "(?i)"@ + escape_spec(s),
            e.message@,
        ) || regex_is_match("(?i)"@ + escape_spec(s), e.provider_name@))),
{
    lemma_last_value_none(words(s), "provider:"@);
    lemma_last_value_none(words(s), "level:"@);
    lemma_last_value_none(words(s), "pid:"@);
    lemma_last_value_none(words(s), "msg:"@);
}

/// No part starts with `prefix`, so there is no value for it.
proof fn lemma_last_value_none(parts: Seq<Seq<char>>, prefix: Seq<char>)
    requires
        forall|k: int| 0 <= k < parts.len() ==> !has_prefix(#[trigger] parts[k], prefix),
    ensures
        last_value(parts, prefix) is None,
    decreases parts.len(),
{
    if parts.len() > 0 {
        assert(!has_prefix(parts[parts.len() - 1], prefix));
        let init = parts.drop_last();
        assert forall|k: int| 0 <= k < init.len() implies !has_prefix(#[trigger] init[k], prefix) by {
            assert(init[k] == parts[k]);
        }
        lemma_last_value_none(init, prefix);
    }
}


/// One of the keys of the filter language.
pub open spec fn filter_key(k: Seq<char>) -> bool {
    k == "provider:"@ || k == "level:"@ || k == "pid:"@ || k == "msg:"@
}

/// Whether a word starts with one of the keys depends on its key only, not on
/// the value after it.
proof fn lemma_key_prefix(key: Seq<char>, x: Seq<char>, y: Seq<char>, k: Seq<char>)
    requires
        filter_key(key),
        filter_key(k),
    ensures
        has_prefix(key + x, k) == has_prefix(key + y, k),
{
    reveal_strlit("provider:");
    reveal_strlit("level:");
    reveal_strlit("pid:");
    reveal_strlit("msg:");
    if k.len() <= key.len() {
        assert((key + x).take(k.len() as int) =~= key.take(k.len() as int));
        assert((key + y).take(k.len() as int) =~= key.take(k.len() as int));
    } else {
        assert(key[0] != k[0] || key[1] != k[1]);
        assert((key + x)[0] == key[0] && (key + x)[1] == key[1]);
        assert((key + y)[0] == key[0] && (key + y)[1] == key[1]);
        if has_prefix(key + x, k) {
            assert((key + x).take(k.len() as int)[0] == k[0]);
            assert((key + x).take(k.len() as int)[1] == k[1]);
        }
        if has_prefix(key + y, k) {
            assert((key + y).take(k.len() as int)[0] == k[0]);
            assert((key + y).take(k.len() as int)[1] == k[1]);
        }
    }
}

/// A key given twice counts with its later value: `K:x K:y` filters as
/// `K:y` alone.
pub proof fn lemma_later_term_wins(key: Seq<char>, x: Seq<char>, y: Seq<char>, e: ParsedEvent)
    requires
        filter_key(key),
        forall|i: int| 0 <= i < x.len() ==> !is_white_space(#[trigger] x[i]),
        forall|i: int| 0 <= i < y.len() ==> !is_white_space(#[trigger] y[i]),
    ensures
        passes_input(key + x + " "@ + key + y, e) <==> passes_input(key + y, e),
{
    reveal_strlit("provider:");
    reveal_strlit("level:");
    reveal_strlit("pid:");
    reveal_strlit("msg:");
    reveal_strlit(" ");
    assert forall|i: int| 0 <= i < key.len() implies !is_white_space(#[trigger] key[i]) by {}
    lemma_keyed_word(key, x);
    lemma_keyed_word(key, y);
    let w1 = key + x;
    let w2 = key + y;
    let rest = " "@ + w2;
    let s = key + x + " "@ + key + y;
    assert(s =~= w1 + rest);
    assert(rest[0] == ' ');
    lemma_words_append(w1, rest, Seq::empty());
    assert(rest.drop_first() =~= w2);
    assert(words_from(rest, Seq::empty()) == words_from(w2, Seq::empty()));
    let ws = words(s);
    assert(ws =~= seq![w1, w2]);
    let one = words(w2);
    assert(ws.drop_last() =~= seq![w1]);
    assert(ws.last() == w2);
    assert(seq![w1].drop_last().len() == 0);
    assert(seq![w1].last() == w1);
    assert forall|k: Seq<char>| filter_key(k) implies last_value(ws, k) == last_value(one, k) by {
        lemma_key_prefix(key, x, y, k);
        let a1 = ws.drop_last();
        assert(a1.len() == 1 && a1.last() == w1);
        assert(a1.drop_last().len() == 0);
        assert(last_value(a1.drop_last(), k) is None);
        assert(last_value(one.drop_last(), k) is None);
        if has_prefix(w2, k) {
            assert(last_value(ws, k) == Some(w2.skip(k.len() as int)));
            assert(last_value(one, k) == Some(w2.skip(k.len() as int)));
        } else {
            assert(!has_prefix(w1, k));
            assert(last_value(a1, k) is None);
            assert(last_value(ws, k) == last_value(a1, k));
            assert(last_value(one, k) is None);
        }
    }
    assert(filter_key("provider:"@));
    assert(filter_key("level:"@));
    assert(filter_key("pid:"@));
    assert(filter_key("msg:"@));
    assert(last_value(ws, "provider:"@) == last_value(one, "provider:"@));
    assert(last_value(ws, "level:"@) == last_value(one, "level:"@));
    assert(last_value(ws, "pid:"@) == last_value(one, "pid:"@));
    assert(last_value(ws, "msg:"@) == last_value(one, "msg:"@));
    assert(has_prefix(one[0], key));
    assert(has_prefix(ws[1], key));
    assert(any_key(one));
    assert(any_key(ws));
}

} // verus!
