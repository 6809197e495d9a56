use vstd::prelude::*;
use crate::pattern::{Pattern, escape, escape_spec, regex_compiles, regex_is_match};
use crate::store::{EventStore, ParsedEvent};
use crate::filter::{compile_filter, event_passes, parse_filter_terms, passes_input, passing_indices, filter_passes, pattern_view, compiled, provider_source, level_term, pid_term, msg_source, generic_source};
use crate::text::{chars_of, string_of, trim_chars, trim_spec};

verus! {

#[derive(Clone, Copy, Debug, PartialEq, Eq, Structural)]
pub enum TimestampMode {
    Utc,
    Local,
}

#[derive(Clone, Copy, Debug, PartialEq, Eq, Structural)]
pub enum InputMode {
    Normal,
    Search,
    Filter,
    Detail,
    Visual,
    Help,
}

/// The event matches `pattern` in its message or in its provider name.
pub open spec fn event_matches(pattern: Seq<char>, e: ParsedEvent) -> bool {
    regex_is_match(pattern, e.message@) || regex_is_match(pattern, e.provider_name@)
}

/// For each visible row, whether its event matches `pattern`.
pub open spec fn search_hits(pattern: Seq<char>, events: Seq<ParsedEvent>, visible: Seq<usize>) -> Seq<
    bool,
> {
    Seq::new(visible.len(), |p: int| event_matches(pattern, events[visible[p] as int]))
}

/// The positions holding `true`, in increasing order.
pub open spec fn hit_positions(hits: Seq<bool>) -> Seq<usize>
    decreases hits.len(),
{
    if hits.len() == 0 {
        Seq::empty()
    } else {
        let rest = hit_positions(hits.drop_last());
        if hits.last() {
            rest.push((hits.len() - 1) as usize)
        } else {
            rest
        }
    }
}

/// The positions holding `true`, in increasing order.
pub fn positions_of_hits(hits: &Vec<bool>) -> (r: Vec<usize>)
    ensures
        r@ == hit_positions(hits@),
{
    let mut r: Vec<usize> = Vec::new();
    let mut i: usize = 0;
    while i < hits.len()
        invariant
            i <= hits@.len(),
            r@ == hit_positions(hits@.take(i as int)),
        decreases hits@.len() - i,
    {
        assert(hits@.take(i + 1).drop_last() == hits@.take(i as int));
        if hits[i] {
            r.push(i);
        }
        i = i + 1;
    }
    assert(hits@.take(hits@.len() as int) == hits@);
    r
}

/// The selected row and the scroll offset of the event table.
#[derive(Clone, Copy, Debug, PartialEq, Eq, Structural)]
pub struct TableCursor {
    pub selected: Option<usize>,
    pub offset: usize,
}

impl TableCursor {
    pub fn new() -> (c: Self)
        ensures
            c.selected is None,
            c.offset == 0,
    {
        TableCursor { selected: None, offset: 0 }
    }

    pub fn selected(&self) -> (r: Option<usize>)
        ensures
            r == self.selected,
    {
        self.selected
    }

    /// Selects a row; selecting none also scrolls back to the top.
    pub fn select(&mut self, index: Option<usize>)
        ensures
            final(self).selected == index,
            final(self).offset == (if index is None {
                0
            } else {
                old(self).offset
            }),
    {
        self.selected = index;
        if index.is_none() {
            self.offset = 0;
        }
    }

    pub fn offset(&self) -> (r: usize)
        ensures
            r == self.offset,
    {
        self.offset
    }

    pub fn set_offset(&mut self, offset: usize)
        ensures
            final(self).offset == offset,
            final(self).selected == old(self).selected,
    {
        self.offset = offset;
    }
}

/// How long parsing took.
#[derive(Clone, Copy, Debug, PartialEq, Eq, Structural)]
pub struct Elapsed {
    pub secs: u64,
    /// Below one second.
    pub nanos: u32,
}

/// `0, 1, ..., n - 1`.
pub open spec fn seq_range(n: nat) -> Seq<usize> {
    Seq::new(n, |i: int| i as usize)
}

/// Every element is below `n`, and the elements increase strictly.
pub open spec fn increasing_below(s: Seq<usize>, n: nat) -> bool {
    &&& forall|i: int| 0 <= i < s.len() ==> #[trigger] s[i] < n
    &&& forall|i: int, j: int| 0 <= i < j < s.len() ==> s[i] < s[j]
}

/// The rows last computed for display, and the store length they were computed at.
pub struct VisibleCache {
    rows: Option<Vec<usize>>,
    store_len: usize,
}

impl VisibleCache {
    pub closed spec fn rows_view(&self) -> Option<Seq<usize>> {
        match self.rows {
            Some(r) => Some(r@),
            None => None,
        }
    }

    /// A cache never contradicts the rows it stands for: with a filter it holds
    /// the filtered rows for the current store; without one it holds `0..k` for
    /// some `k` not beyond the store.
    pub closed spec fn consistent(&self, filtered: Option<Seq<usize>>, store_len: nat) -> bool {
        match self.rows {
            Some(c) => match filtered {
                Some(f) => c@ == f && self.store_len == store_len,
                None => c@ == seq_range(c@.len()) && c@.len() <= store_len,
            },
            None => true,
        }
    }

    fn empty() -> (c: Self)
        ensures
            c.rows_view() is None,
            forall|f: Option<Seq<usize>>, n: nat| c.consistent(f, n),
    {
        VisibleCache { rows: None, store_len: 0 }
    }
}

pub open spec fn filtered_view(f: Option<Vec<usize>>) -> Option<Seq<usize>> {
    match f {
        Some(v) => Some(v@),
        None => None,
    }
}

fn range_vec(n: usize) -> (v: Vec<usize>)
    ensures
        v@ == seq_range(n as nat),
{
    let mut v: Vec<usize> = Vec::new();
    let mut i: usize = 0;
    while i < n
        invariant
            i <= n,
            v@ == seq_range(i as nat),
        decreases n - i,
    {
        v.push(i);
        i = i + 1;
    }
    v
}

/// Events the event loop takes from the parser in one turn, while parsing
/// goes on, before it draws the screen again.
pub const INGEST_BATCH: usize = 10_000;

/// Whether the event loop takes another event from the parser in this turn,
/// having taken `taken`: once the parser has said it is done, everything left
/// is taken; before that, a turn stops when a batch is full.
pub fn take_another(taken: usize, parser_done: bool) -> (b: bool)
    ensures
        b == (parser_done || taken < INGEST_BATCH),
{
    parser_done || taken < INGEST_BATCH
}

pub struct App {
    pub store: EventStore,
    pub table_state: TableCursor,
    pub input_mode: InputMode,
    pub input_buffer: String,
    pub timestamp_mode: TimestampMode,
    pub parse_done: bool,
    pub parse_elapsed: Option<Elapsed>,
    /// Until when (milliseconds on the caller's monotonic clock) the parse time is shown.
    pub parse_elapsed_visible_until: Option<u64>,
    pub should_quit: bool,
    // Search
    pub search_regex: Option<Pattern>,
    /// Positions in the visible rows that match the search.
    pub search_matches: Vec<usize>,
    /// Current position in `search_matches`.
    pub search_match_pos: Option<usize>,
    // Filter
    pub filtered_indices: Option<Vec<usize>>,
    pub active_filter_desc: Option<String>,
    /// Cached visible rows.
    pub visible_cache: VisibleCache,
    // Detail view scroll offset
    pub detail_scroll: u16,
    // UI toggles
    pub show_source: bool,
    pub horizontal_scroll: usize,
    pub wrap_lines: bool,
    /// Visual selection anchor (row index in the visible rows).
    pub visual_anchor: usize,
}

impl App {
    /// The rows to display: the filtered events, or all of them.
    pub open spec fn visible_spec(&self) -> Seq<usize> {
        match self.filtered_indices {
            Some(f) => f@,
            None => seq_range(self.store@.len()),
        }
    }

    /// The selected row, or row 0 when none is selected.
    pub open spec fn cursor(&self) -> usize {
        match self.table_state.selected {
            Some(s) => s,
            None => 0,
        }
    }

    pub open spec fn wf(&self) -> bool {
        &&& self.store.wf()
        &&& (self.filtered_indices matches Some(f) ==> increasing_below(f@, self.store@.len()))
        &&& self.visible_cache.consistent(filtered_view(self.filtered_indices), self.store@.len())
        &&& (self.search_match_pos matches Some(p) ==> p < self.search_matches@.len())
    }

    /// There are never more rows than a `usize` counts.
    pub proof fn lemma_visible_len(&self)
        ensures
            self.visible_spec().len() <= usize::MAX,
    {
        self.store.lemma_len_bound();
        match self.filtered_indices {
            Some(f) => {
                assert(f.len() == f@.len());
            },
            None => {},
        }
    }

    pub fn new() -> (a: Self)
        ensures
            a.wf(),
            a.store@ == Seq::<ParsedEvent>::empty(),
            a.table_state.selected is None,
            a.table_state.offset == 0,
            a.input_mode == InputMode::Normal,
            a.input_buffer@ == Seq::<char>::empty(),
            a.timestamp_mode == TimestampMode::Utc,
            !a.parse_done,
            a.parse_elapsed is None,
            a.parse_elapsed_visible_until is None,
            !a.should_quit,
            a.search_regex is None,
            a.search_matches@ == Seq::<usize>::empty(),
            a.search_match_pos is None,
            a.filtered_indices is None,
            a.active_filter_desc is None,
            a.visible_cache.rows_view() is None,
            a.detail_scroll == 0,
            !a.show_source,
            a.horizontal_scroll == 0,
            !a.wrap_lines,
            a.visual_anchor == 0,
    {
        App {
            store: EventStore::new(),
            table_state: TableCursor::new(),
            input_mode: InputMode::Normal,
            input_buffer: String::new(),
            timestamp_mode: TimestampMode::Utc,
            parse_done: false,
            parse_elapsed: None,
            parse_elapsed_visible_until: None,
            should_quit: false,
            search_regex: None,
            search_matches: Vec::new(),
            search_match_pos: None,
            filtered_indices: None,
            active_filter_desc: None,
            visible_cache: VisibleCache::empty(),
            detail_scroll: 0,
            show_source: false,
            horizontal_scroll: 0,
            wrap_lines: false,
            visual_anchor: 0,
        }
    }

    /// Invalidates the visible rows cache.
    fn invalidate_cache(&mut self)
        ensures
            *final(self) == (App { visible_cache: final(self).visible_cache, ..*old(self) }),
            final(self).visible_cache.rows_view() is None,
            forall|f: Option<Seq<usize>>, n: nat| final(self).visible_cache.consistent(f, n),
    {
        self.visible_cache = VisibleCache::empty();
    }

    /// Adds a parsed event to the store.
    pub fn ingest(&mut self, event: ParsedEvent)
        requires
            old(self).wf(),
        ensures
            final(self).wf(),
            final(self).store@ == old(self).store@.push(event),
            *final(self) == (App {
                store: final(self).store,
                visible_cache: final(self).visible_cache,
                ..*old(self)
            }),
    {
        self.store.push(event);
        if self.filtered_indices.is_some() {
            self.invalidate_cache();
        }
    }

    /// The event indices to display, considering the filter. Uses a cache that
    /// is invalidated when the filter or the store changes.
    pub fn visible_indices(&mut self) -> (r: &[usize])
        requires
            old(self).wf(),
        ensures
            r@ == old(self).visible_spec(),
            final(self).wf(),
            *final(self) == (App { visible_cache: final(self).visible_cache, ..*old(self) }),
            final(self).visible_cache.rows_view() == Some(old(self).visible_spec()),
    {
        let store_len = self.store.len();
        let cache_valid = match &self.visible_cache.rows {
            Some(cache) => {
                if self.filtered_indices.is_none() {
                    cache.len() == store_len
                } else {
                    self.visible_cache.store_len == store_len
                }
            },
            None => false,
        };
        if !cache_valid {
            let result = match &self.filtered_indices {
                Some(filtered) => filtered.clone(),
                None => range_vec(store_len),
            };
            self.visible_cache = VisibleCache { rows: Some(result), store_len };
        }
        match &self.visible_cache.rows {
            Some(rows) => rows.as_slice(),
            None => &[],
        }
    }

    /// Number of rows to display.
    pub fn visible_count(&self) -> (n: usize)
        requires
            self.wf(),
        ensures
            n == self.visible_spec().len(),
    {
        match &self.filtered_indices {
            Some(indices) => indices.len(),
            None => self.store.len(),
        }
    }

    /// Whether the parse time is to be shown at `now_ms` (on the same clock as
    /// `parse_elapsed_visible_until`).
    pub fn should_show_parse_elapsed(&self, now_ms: u64) -> (b: bool)
        ensures
            b == (self.parse_done && self.parse_elapsed is Some && match self.parse_elapsed_visible_until {
                Some(deadline) => now_ms <= deadline,
                None => false,
            }),
    {
        self.parse_done && self.parse_elapsed.is_some() && match self.parse_elapsed_visible_until {
            Some(deadline) => now_ms <= deadline,
            None => false,
        }
    }

    /// Records the end of parsing: it took `elapsed`, and the time is shown for
    /// two seconds from `now_ms`.
    pub fn mark_parse_done(&mut self, elapsed: Elapsed, now_ms: u64)
        requires
            now_ms + 2000 <= u64::MAX,
        ensures
            *final(self) == (App {
                parse_done: true,
                parse_elapsed: Some(elapsed),
                parse_elapsed_visible_until: Some((now_ms + 2000) as u64),
                ..*old(self)
            }),
    {
        self.parse_done = true;
        self.parse_elapsed = Some(elapsed);
        self.parse_elapsed_visible_until = Some(now_ms + 2000);
    }

    /// The visual selection (lo, hi): the rows between the anchor and the
    /// cursor, in visual mode only.
    pub open spec fn visual_span(&self) -> Option<(usize, usize)> {
        if self.input_mode == InputMode::Visual {
            Some(
                (
                    if self.visual_anchor <= self.cursor() {
                        self.visual_anchor
                    } else {
                        self.cursor()
                    },
                    if self.visual_anchor <= self.cursor() {
                        self.cursor()
                    } else {
                        self.visual_anchor
                    },
                ),
            )
        } else {
            None
        }
    }

    /// The visual selection range (lo, hi) in visible row indices, or `None`
    /// when not in visual mode.
    pub fn visual_range(&self) -> (r: Option<(usize, usize)>)
        ensures
            r == self.visual_span(),
    {
        if self.input_mode != InputMode::Visual {
            return None;
        }
        let selected = match self.table_state.selected() {
            Some(s) => s,
            None => 0,
        };
        let lo = if self.visual_anchor <= selected {
            self.visual_anchor
        } else {
            selected
        };
        let hi = if self.visual_anchor <= selected {
            selected
        } else {
            self.visual_anchor
        };
        Some((lo, hi))
    }

    /// The cursor after moving down `amount` rows in `a`.
    pub open spec fn cursor_down(a: App, amount: usize) -> TableCursor {
        let total = a.visible_spec().len();
        if total == 0 {
            a.table_state
        } else {
            TableCursor {
                selected: Some(
                    if a.cursor() + amount <= total - 1 {
                        (a.cursor() + amount) as usize
                    } else {
                        (total - 1) as usize
                    },
                ),
                offset: a.table_state.offset,
            }
        }
    }

    /// The cursor after moving up `amount` rows in `a`.
    pub open spec fn cursor_up(a: App, amount: usize) -> TableCursor {
        TableCursor {
            selected: Some(
                if a.cursor() >= amount {
                    (a.cursor() - amount) as usize
                } else {
                    0
                },
            ),
            offset: a.table_state.offset,
        }
    }

    /// The cursor after jumping to the first row of `a`.
    pub open spec fn cursor_top(a: App) -> TableCursor {
        if a.visible_spec().len() == 0 {
            a.table_state
        } else {
            TableCursor { selected: Some(0), offset: a.table_state.offset }
        }
    }

    /// The cursor after jumping to the last row of `a`.
    pub open spec fn cursor_bottom(a: App) -> TableCursor {
        if a.visible_spec().len() == 0 {
            a.table_state
        } else {
            TableCursor {
                selected: Some((a.visible_spec().len() - 1) as usize),
                offset: a.table_state.offset,
            }
        }
    }

    /// `b` is `a` with the cursor `c` (and possibly a refreshed cache).
    pub open spec fn moved_to(a: App, b: App, c: TableCursor) -> bool {
        b == (App { table_state: c, visible_cache: b.visible_cache, ..a })
    }

    /// Moves the selection down by `amount` rows, stopping at the last row.
    pub fn scroll_down(&mut self, amount: usize)
        requires
            old(self).wf(),
            old(self).visible_spec().len() == 0 || old(self).cursor() + amount <= usize::MAX,
        ensures
            final(self).wf(),
            App::moved_to(*old(self), *final(self), App::cursor_down(*old(self), amount)),
    {
        let total = self.visible_indices().len();
        if total == 0 {
            return;
        }
        let current = match self.table_state.selected() {
            Some(s) => s,
            None => 0,
        };
        let next = if current + amount <= total - 1 {
            current + amount
        } else {
            total - 1
        };
        self.table_state.select(Some(next));
    }

    /// Moves the selection up by `amount` rows, stopping at the first row.
    pub fn scroll_up(&mut self, amount: usize)
        ensures
            *final(self) == (App { table_state: App::cursor_up(*old(self), amount), ..*old(self) }),
    {
        let current = match self.table_state.selected() {
            Some(s) => s,
            None => 0,
        };
        let next = current.saturating_sub(amount);
        self.table_state.select(Some(next));
    }

    /// Selects the first row, when there is one.
    pub fn scroll_to_top(&mut self)
        requires
            old(self).wf(),
        ensures
            final(self).wf(),
            App::moved_to(*old(self), *final(self), App::cursor_top(*old(self))),
    {
        if self.visible_indices().len() != 0 {
            self.table_state.select(Some(0));
        }
    }

    /// Selects the last row, when there is one.
    pub fn scroll_to_bottom(&mut self)
        requires
            old(self).wf(),
        ensures
            final(self).wf(),
            App::moved_to(*old(self), *final(self), App::cursor_bottom(*old(self))),
    {
        let total = self.visible_indices().len();
        if total > 0 {
            self.table_state.select(Some(total - 1));
        }
    }

    /// The search position after `next_match`.
    pub open spec fn next_pos(&self) -> usize {
        match self.search_match_pos {
            Some(p) => ((p + 1) % (self.search_matches@.len() as int)) as usize,
            None => 0,
        }
    }

    /// The search position after `prev_match`.
    pub open spec fn prev_pos(&self) -> usize {
        match self.search_match_pos {
            Some(p) => if p == 0 {
                (self.search_matches@.len() - 1) as usize
            } else {
                (p - 1) as usize
            },
            None => 0,
        }
    }

    /// `b` is `a` with the search position `pos` and its match selected; with
    /// no matches, `b` is `a`.
    pub open spec fn jumped_to_match(a: App, b: App, pos: usize) -> bool {
        if a.search_matches@.len() == 0 {
            b == a
        } else {
            b == (App {
                search_match_pos: Some(pos),
                table_state: TableCursor {
                    selected: Some(a.search_matches@[pos as int]),
                    offset: a.table_state.offset,
                },
                ..a
            })
        }
    }

    /// Jumps to the next search match, wrapping around.
    pub fn next_match(&mut self)
        requires
            old(self).wf(),
        ensures
            final(self).wf(),
            App::jumped_to_match(*old(self), *final(self), old(self).next_pos()),
    {
        if self.search_matches.len() == 0 {
            return;
        }
        let pos = match self.search_match_pos {
            Some(p) => (p + 1) % self.search_matches.len(),
            None => 0,
        };
        self.search_match_pos = Some(pos);
        let target = self.search_matches[pos];
        self.table_state.select(Some(target));
    }

    /// Jumps to the previous search match, wrapping around.
    pub fn prev_match(&mut self)
        requires
            old(self).wf(),
        ensures
            final(self).wf(),
            App::jumped_to_match(*old(self), *final(self), old(self).prev_pos()),
    {
        if self.search_matches.len() == 0 {
            return;
        }
        let pos = match self.search_match_pos {
            Some(p) => if p == 0 {
                self.search_matches.len() - 1
            } else {
                p - 1
            },
            None => 0,
        };
        self.search_match_pos = Some(pos);
        let target = self.search_matches[pos];
        self.table_state.select(Some(target));
    }

    /// The matches of the search pattern `re` (none without one) among the
    /// rows `visible`.
    pub open spec fn matches_over(re: Option<Pattern>, events: Seq<ParsedEvent>, visible: Seq<usize>) -> Seq<
        usize,
    > {
        match re {
            Some(r) => hit_positions(search_hits(r@, events, visible)),
            None => Seq::empty(),
        }
    }

    /// `b` is `a` without a filter, with the first row selected and the search
    /// matched again over the rows now shown, none of its matches current.
    pub open spec fn filter_cleared(a: App, b: App) -> bool {
        &&& b.search_matches@ == App::matches_over(a.search_regex, a.store@, seq_range(a.store@.len()))
        &&& b == (App {
            filtered_indices: None,
            active_filter_desc: None,
            visible_cache: b.visible_cache,
            search_matches: b.search_matches,
            search_match_pos: None,
            table_state: TableCursor { selected: Some(0), offset: a.table_state.offset },
            ..a
        })
    }

    /// Matches the search pattern again over the rows now shown; no match is
    /// current.
    fn refresh_search(&mut self)
        requires
            old(self).wf(),
        ensures
            final(self).wf(),
            final(self).search_matches@ == App::matches_over(
                old(self).search_regex,
                old(self).store@,
                old(self).visible_spec(),
            ),
            *final(self) == (App {
                search_matches: final(self).search_matches,
                search_match_pos: None,
                visible_cache: final(self).visible_cache,
                ..*old(self)
            }),
    {
        self.search_match_pos = None;
        let mut taken: Option<Pattern> = None;
        std::mem::swap(&mut taken, &mut self.search_regex);
        match &taken {
            Some(re) => {
                let hits = self.row_hits(re);
                self.search_matches = positions_of_hits(&hits);
            },
            None => {
                self.search_matches = Vec::new();
            },
        }
        std::mem::swap(&mut taken, &mut self.search_regex);
    }

    /// Removes the filter, selects the first row and matches the search again
    /// over all rows.
    pub fn clear_filter(&mut self)
        requires
            old(self).wf(),
        ensures
            final(self).wf(),
            App::filter_cleared(*old(self), *final(self)),
    {
        self.filtered_indices = None;
        self.active_filter_desc = None;
        self.invalidate_cache();
        self.table_state.select(Some(0));
        self.refresh_search();
    }

    /// The other timestamp mode.
    pub open spec fn other_mode(m: TimestampMode) -> TimestampMode {
        match m {
            TimestampMode::Utc => TimestampMode::Local,
            TimestampMode::Local => TimestampMode::Utc,
        }
    }

    /// Switches between UTC and local timestamps.
    pub fn toggle_timestamp(&mut self)
        ensures
            *final(self) == (App {
                timestamp_mode: App::other_mode(old(self).timestamp_mode),
                ..*old(self)
            }),
    {
        self.timestamp_mode = match self.timestamp_mode {
            TimestampMode::Utc => TimestampMode::Local,
            TimestampMode::Local => TimestampMode::Utc,
        };
    }

    /// The provider name of the selected event, or the empty text when the
    /// selection is past the rows.
    pub open spec fn selected_provider_spec(&self) -> Seq<char> {
        if self.cursor() < self.visible_spec().len() {
            self.store@[self.visible_spec()[self.cursor() as int] as int].provider_name@
        } else {
            Seq::<char>::empty()
        }
    }

    /// The provider name of the currently selected event, or the empty string
    /// when no event is selected.
    pub fn selected_provider_name(&self) -> (r: &str)
        requires
            self.wf(),
        ensures
            r@ == self.selected_provider_spec(),
    {
        let selected = match self.table_state.selected() {
            Some(s) => s,
            None => 0,
        };
        let idx = match &self.filtered_indices {
            Some(f) => {
                if selected < f.len() {
                    Some(f[selected])
                } else {
                    None
                }
            },
            None => {
                if selected < self.store.len() {
                    Some(selected)
                } else {
                    None
                }
            },
        };
        if let Some(i) = idx {
            if let Some(evt) = self.store.get(i) {
                return evt.provider_name.as_str();
            }
        }
        proof {
            reveal_strlit("");
        }
        ""
    }

    /// For each visible row, whether its event matches `re`.
    fn row_hits(&mut self, re: &Pattern) -> (hits: Vec<bool>)
        requires
            old(self).wf(),
        ensures
            hits@ == search_hits(re@, old(self).store@, old(self).visible_spec()),
            final(self).wf(),
            *final(self) == (App { visible_cache: final(self).visible_cache, ..*old(self) }),
    {
        let vis: &[usize] = self.visible_indices();
        let visible = vstd::slice::slice_to_vec(vis);
        let mut hits: Vec<bool> = Vec::new();
        let mut p: usize = 0;
        while p < visible.len()
            invariant
                self.wf(),
                visible@ == self.visible_spec(),
                p <= visible@.len(),
                hits@ == search_hits(re@, self.store@, visible@).take(p as int),
            decreases visible@.len() - p,
        {
            let idx = visible[p];
            assert(idx < self.store@.len()) by {
                if self.filtered_indices is None {
                    assert(visible@[p as int] == p);
                }
            }
            let evt = self.store.get(idx).unwrap();
            let hit = re.is_match(evt.message.as_str()) || re.is_match(evt.provider_name.as_str());
            hits.push(hit);
            p = p + 1;
            assert(hits@ == search_hits(re@, self.store@, visible@).take(p as int));
        }
        hits
    }

    /// Installs a search result: `re` becomes the search pattern and the rows
    /// with a hit its matches; the first match is selected and current. When
    /// nothing matches, no match is current.
    pub fn set_search_result(&mut self, re: Pattern, hits: &Vec<bool>)
        requires
            old(self).wf(),
        ensures
            final(self).wf(),
            final(self).search_regex == Some(re),
            final(self).search_matches@ == hit_positions(hits@),
            final(self).search_match_pos == (if hit_positions(hits@).len() > 0 {
                Some(0usize)
            } else {
                None
            }),
            final(self).table_state == (if hit_positions(hits@).len() > 0 {
                TableCursor {
                    selected: Some(hit_positions(hits@)[0]),
                    offset: old(self).table_state.offset,
                }
            } else {
                old(self).table_state
            }),
            *final(self) == (App {
                search_regex: final(self).search_regex,
                search_matches: final(self).search_matches,
                search_match_pos: final(self).search_match_pos,
                table_state: final(self).table_state,
                ..*old(self)
            }),
    {
        let matches = positions_of_hits(hits);
        self.search_regex = Some(re);
        self.search_matches = matches;
        if self.search_matches.len() != 0 {
            self.search_match_pos = Some(0);
            let target = self.search_matches[0];
            self.table_state.select(Some(target));
        } else {
            self.search_match_pos = None;
        }
    }

    /// The pattern `apply_search` searches with for the text `input`: the text
    /// itself when the regex crate accepts it, else its escaped form.
    pub open spec fn search_pattern(input: Seq<char>) -> Seq<char> {
        if regex_compiles(input) {
            input
        } else {
            escape_spec(input)
        }
    }

    /// `b` is `a` after searching for the text of `a.input_buffer`.
    pub open spec fn searched(a: App, b: App) -> bool {
        let input = a.input_buffer@;
        let pat = App::search_pattern(input);
        if input.len() == 0 {
            &&& b.search_matches@ == Seq::<usize>::empty()
            &&& b == (App {
                search_regex: None,
                search_matches: b.search_matches,
                search_match_pos: None,
                ..a
            })
        } else if !regex_compiles(pat) {
            b == a
        } else {
            let found = hit_positions(search_hits(pat, a.store@, a.visible_spec()));
            &&& b.search_regex matches Some(re) && re@ == pat
            &&& b.search_matches@ == found
            &&& b == (App {
                search_regex: b.search_regex,
                search_matches: b.search_matches,
                search_match_pos: if found.len() > 0 {
                    Some(0usize)
                } else {
                    None
                },
                table_state: if found.len() > 0 {
                    TableCursor { selected: Some(found[0]), offset: a.table_state.offset }
                } else {
                    a.table_state
                },
                visible_cache: b.visible_cache,
                ..a
            })
        }
    }

    /// Searches the visible rows for the regex typed in `input_buffer` (taken
    /// literally when it is not a valid regex) and selects the first match.
    pub fn apply_search(&mut self)
        requires
            old(self).wf(),
        ensures
            final(self).wf(),
            App::searched(*old(self), *final(self)),
    {
        let pattern = self.input_buffer.clone();
        if pattern.as_str().is_empty() {
            self.search_regex = None;
            self.search_matches.clear();
            self.search_match_pos = None;
            return;
        }
        match Pattern::compile(pattern.as_str()) {
            Some(re) => {
                let hits = self.row_hits(&re);
                self.set_search_result(re, &hits);
            },
            None => {
                // Not a valid regex: search for the text literally.
                let escaped = escape(pattern.as_str());
                match Pattern::compile(escaped.as_str()) {
                    Some(re) => {
                        let hits = self.row_hits(&re);
                        self.set_search_result(re, &hits);
                    },
                    None => {},
                }
            },
        }
    }

    /// `b` is `a` after filtering by the trimmed text of `a.input_buffer`.
    pub open spec fn filtered(a: App, b: App) -> bool {
        let input = trim_spec(a.input_buffer@);
        if input.len() == 0 {
            App::filter_cleared(a, b)
        } else {
            &&& b.filtered_indices matches Some(f) && f@ == passing_indices(input, a.store@)
            &&& b.active_filter_desc matches Some(d) && d@ == input
            &&& b.search_matches@ == App::matches_over(
                a.search_regex,
                a.store@,
                passing_indices(input, a.store@),
            )
            &&& b == (App {
                filtered_indices: b.filtered_indices,
                active_filter_desc: b.active_filter_desc,
                visible_cache: b.visible_cache,
                search_matches: b.search_matches,
                search_match_pos: None,
                table_state: TableCursor { selected: Some(0), offset: a.table_state.offset },
                ..a
            })
        }
    }

    /// Filters the events by the expression typed in `input_buffer` (trimmed):
    /// `provider:X level:X pid:X msg:X`, or a plain text looked for in message
    /// and provider; an empty expression clears the filter. Selects the first
    /// row and matches the search again over the rows now shown.
    pub fn apply_filter(&mut self)
        requires
            old(self).wf(),
        ensures
            final(self).wf(),
            App::filtered(*old(self), *final(self)),
    {
        let chars = chars_of(self.input_buffer.as_str());
        let trimmed = trim_chars(&chars);
        if trimmed.len() == 0 {
            self.clear_filter();
            return;
        }
        let input = string_of(trimmed.as_slice());
        let terms = parse_filter_terms(input.as_str());
        let spec = compile_filter(terms);
        let total = self.store.len();
        let mut indices: Vec<usize> = Vec::new();
        let mut i: usize = 0;
        while i < total
            invariant
                total == self.store@.len(),
                i <= total,
                indices@ == passing_indices(input@, self.store@.take(i as int)),
                increasing_below(indices@, i as nat),
                pattern_view(spec.provider) == compiled(provider_source(input@)),
                spec.level == level_term(input@),
                spec.pid == pid_term(input@),
                pattern_view(spec.msg) == compiled(msg_source(input@)),
                pattern_view(spec.generic) == compiled(generic_source(input@)),
            decreases total - i,
        {
            let evt = self.store.get(i).unwrap();
            assert(self.store@.take(i + 1).drop_last() == self.store@.take(i as int));
            assert(self.store@.take(i + 1).last() == *evt);
            if event_passes(&spec, evt) {
                indices.push(i);
            }
            i = i + 1;
        }
        assert(self.store@.take(total as int) == self.store@);
        self.filtered_indices = Some(indices);
        self.active_filter_desc = Some(input);
        self.invalidate_cache();
        self.table_state.select(Some(0));
        self.refresh_search();
    }
}

} // verus!
