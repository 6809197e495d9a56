use vstd::prelude::*;
use crate::app::{App, InputMode, TableCursor};
use crate::text::push_char;

verus! {

/// A key, as far as the viewer tells keys apart.
#[derive(Clone, Copy, Debug, PartialEq, Eq, Structural)]
pub enum Key {
    Char(char),
    Up,
    Down,
    Left,
    Right,
    PageUp,
    PageDown,
    Home,
    End,
    Enter,
    Esc,
    Backspace,
    Other,
}

/// A key press and whether Control was held.
#[derive(Clone, Copy, Debug, PartialEq, Eq, Structural)]
pub struct KeyInput {
    pub code: Key,
    pub ctrl: bool,
}

/// What the caller has to carry out after a key press.
#[derive(Debug)]
pub enum Action {
    Nothing,
    /// Copy the line of this event (no line break after it).
    CopyLine(usize),
    /// Copy the lines of these events, each followed by a line break.
    CopyLines(Vec<usize>),
}

/// What a key means in the table view.
#[derive(Clone, Copy, Debug, PartialEq, Eq, Structural)]
pub enum Command {
    Quit,
    Down(usize),
    Up(usize),
    Top,
    Bottom,
    ScrollLeft,
    ScrollRight,
    StartSearch,
    NextMatch,
    PrevMatch,
    StartFilter,
    ClearFilter,
    ClearSearch,
    ToggleTime,
    ToggleSource,
    ToggleWrap,
    StartVisual,
    CopySelected,
    CopyAll,
    OpenDetail,
    OpenHelp,
    Ignore,
}

/// The key bindings of the table view.
pub open spec fn normal_command_spec(k: KeyInput) -> Command {
    match k.code {
        Key::Char(c) => if c == 'q' {
            Command::Quit
        } else if c == 'c' && k.ctrl {
            Command::Quit
        } else if c == 'j' {
            Command::Down(1)
        } else if c == 'k' {
            Command::Up(1)
        } else if c == 'd' && k.ctrl {
            Command::Down(30)
        } else if c == 'u' && k.ctrl {
            Command::Up(30)
        } else if c == 'g' {
            Command::Top
        } else if c == 'G' {
            Command::Bottom
        } else if c == 'h' {
            Command::ScrollLeft
        } else if c == 'l' {
            Command::ScrollRight
        } else if c == '/' {
            Command::StartSearch
        } else if c == 'n' {
            Command::NextMatch
        } else if c == 'N' {
            Command::PrevMatch
        } else if c == 'f' {
            Command::StartFilter
        } else if c == 'F' {
            Command::ClearFilter
        } else if c == 't' {
            Command::ToggleTime
        } else if c == 's' {
            Command::ToggleSource
        } else if c == 'w' {
            Command::ToggleWrap
        } else if c == 'v' {
            Command::StartVisual
        } else if c == 'c' {
            Command::CopySelected
        } else if c == 'C' {
            Command::CopyAll
        } else if c == '?' {
            Command::OpenHelp
        } else {
            Command::Ignore
        },
        Key::Down => Command::Down(1),
        Key::Up => Command::Up(1),
        Key::PageDown => Command::Down(30),
        Key::PageUp => Command::Up(30),
        Key::Home => Command::Top,
        Key::End => Command::Bottom,
        Key::Left => Command::ScrollLeft,
        Key::Right => Command::ScrollRight,
        Key::Esc => Command::ClearSearch,
        Key::Enter => Command::OpenDetail,
        _ => Command::Ignore,
    }
}

/// The command a key stands for in the table view.
pub fn normal_command(k: KeyInput) -> (c: Command)
    ensures
        c == normal_command_spec(k),
{
    match k.code {
        Key::Char(c) => {
            if c == 'q' {
                Command::Quit
            } else if c == 'c' && k.ctrl {
                Command::Quit
            } else if c == 'j' {
                Command::Down(1)
            } else if c == 'k' {
                Command::Up(1)
            } else if c == 'd' && k.ctrl {
                Command::Down(30)
            } else if c == 'u' && k.ctrl {
                Command::Up(30)
            } else if c == 'g' {
                Command::Top
            } else if c == 'G' {
                Command::Bottom
            } else if c == 'h' {
                Command::ScrollLeft
            } else if c == 'l' {
                Command::ScrollRight
            } else if c == '/' {
                Command::StartSearch
            } else if c == 'n' {
                Command::NextMatch
            } else if c == 'N' {
                Command::PrevMatch
            } else if c == 'f' {
                Command::StartFilter
            } else if c == 'F' {
                Command::ClearFilter
            } else if c == 't' {
                Command::ToggleTime
            } else if c == 's' {
                Command::ToggleSource
            } else if c == 'w' {
                Command::ToggleWrap
            } else if c == 'v' {
                Command::StartVisual
            } else if c == 'c' {
                Command::CopySelected
            } else if c == 'C' {
                Command::CopyAll
            } else if c == '?' {
                Command::OpenHelp
            } else {
                Command::Ignore
            }
        },
        Key::Down => Command::Down(1),
        Key::Up => Command::Up(1),
        Key::PageDown => Command::Down(30),
        Key::PageUp => Command::Up(30),
        Key::Home => Command::Top,
        Key::End => Command::Bottom,
        Key::Left => Command::ScrollLeft,
        Key::Right => Command::ScrollRight,
        Key::Esc => Command::ClearSearch,
        Key::Enter => Command::OpenDetail,
        _ => Command::Ignore,
    }
}

/// `String::pop`.
#[verifier::external_body]
fn pop_char(s: &mut String) -> (r: Option<char>)
    ensures
        final(s)@ == (if old(s)@.len() > 0 {
            old(s)@.drop_last()
        } else {
            old(s)@
        }),
        r == (if old(s)@.len() > 0 {
            Some(old(s)@.last())
        } else {
            None
        }),
{
    s.pop()
}

pub open spec fn is_nothing(a: Action) -> bool {
    a matches Action::Nothing
}

/// The rows `lo..=hi` of `visible` that exist.
pub open spec fn rows_between(visible: Seq<usize>, lo: int, hi: int) -> Seq<usize> {
    if lo >= visible.len() || lo > hi {
        Seq::empty()
    } else if hi < visible.len() {
        visible.subrange(lo, hi + 1)
    } else {
        visible.subrange(lo, visible.len() as int)
    }
}

/// `b` is `a` with `mode` and an emptied input buffer.
pub open spec fn entered_mode(a: App, b: App, mode: InputMode) -> bool {
    &&& b.input_buffer@ == Seq::<char>::empty()
    &&& b == (App { input_mode: mode, input_buffer: b.input_buffer, ..a })
}

/// The effect of a table-view command.
pub open spec fn normal_post(a: App, b: App, cmd: Command, act: Action) -> bool {
    let vis = a.visible_spec();
    match cmd {
        Command::Quit => b == (App { should_quit: true, ..a }) && is_nothing(act),
        Command::Down(n) => App::moved_to(a, b, App::cursor_down(a, n)) && is_nothing(act),
        Command::Up(n) => b == (App { table_state: App::cursor_up(a, n), ..a }) && is_nothing(act),
        Command::Top => App::moved_to(a, b, App::cursor_top(a)) && is_nothing(act),
        Command::Bottom => App::moved_to(a, b, App::cursor_bottom(a)) && is_nothing(act),
        Command::ScrollLeft => b == (App {
            horizontal_scroll: if a.horizontal_scroll >= 8 {
                (a.horizontal_scroll - 8) as usize
            } else {
                0
            },
            ..a
        }) && is_nothing(act),
        Command::ScrollRight => b == (App {
            horizontal_scroll: if a.horizontal_scroll + 8 <= usize::MAX {
                (a.horizontal_scroll + 8) as usize
            } else {
                usize::MAX
            },
            ..a
        }) && is_nothing(act),
        Command::StartSearch => entered_mode(a, b, InputMode::Search) && is_nothing(act),
        Command::NextMatch => App::jumped_to_match(a, b, a.next_pos()) && is_nothing(act),
        Command::PrevMatch => App::jumped_to_match(a, b, a.prev_pos()) && is_nothing(act),
        Command::StartFilter => entered_mode(a, b, InputMode::Filter) && is_nothing(act),
        Command::ClearFilter => (if a.filtered_indices is Some {
            App::filter_cleared(a, b)
        } else {
            b == a
        }) && is_nothing(act),
        Command::ClearSearch => b.search_matches@ == Seq::<usize>::empty() && b == (App {
            search_regex: None,
            search_matches: b.search_matches,
            search_match_pos: None,
            ..a
        }) && is_nothing(act),
        Command::ToggleTime => b == (App {
            timestamp_mode: App::other_mode(a.timestamp_mode),
            ..a
        }) && is_nothing(act),
        Command::ToggleSource => b == (App { show_source: !a.show_source, ..a }) && is_nothing(act),
        Command::ToggleWrap => b == (App { wrap_lines: !a.wrap_lines, ..a }) && is_nothing(act),
        Command::StartVisual => b == (App {
            visual_anchor: a.cursor(),
            input_mode: InputMode::Visual,
            ..a
        }) && is_nothing(act),
        Command::CopySelected => b == (App { visible_cache: b.visible_cache, ..a }) && (if a.cursor()
            < vis.len() {
            act == Action::CopyLine(vis[a.cursor() as int])
        } else {
            is_nothing(act)
        }),
        Command::CopyAll => b == (App { visible_cache: b.visible_cache, ..a }) && (
        act matches Action::CopyLines(rows) && rows@ == vis),
        Command::OpenDetail => b == (App {
            detail_scroll: 0,
            input_mode: InputMode::Detail,
            ..a
        }) && is_nothing(act),
        Command::OpenHelp => b == (App { input_mode: InputMode::Help, ..a }) && is_nothing(act),
        Command::Ignore => b == a && is_nothing(act),
    }
}

/// Moving down by the command does not take the row number past `usize::MAX`.
pub open spec fn down_fits(a: App, cmd: Command) -> bool {
    match cmd {
        Command::Down(n) => a.visible_spec().len() == 0 || a.cursor() + n <= usize::MAX,
        _ => true,
    }
}

/// Handles a key in the table view.
pub fn handle_normal_input(app: &mut App, key: KeyInput) -> (act: Action)
    requires
        old(app).wf(),
        down_fits(*old(app), normal_command_spec(key)),
    ensures
        final(app).wf(),
        normal_post(*old(app), *final(app), normal_command_spec(key), act),
{
    match normal_command(key) {
        Command::Quit => {
            app.should_quit = true;
        },
        Command::Down(n) => app.scroll_down(n),
        Command::Up(n) => app.scroll_up(n),
        Command::Top => app.scroll_to_top(),
        Command::Bottom => app.scroll_to_bottom(),
        Command::ScrollLeft => {
            app.horizontal_scroll = app.horizontal_scroll.saturating_sub(8);
        },
        Command::ScrollRight => {
            app.horizontal_scroll = app.horizontal_scroll.saturating_add(8);
        },
        Command::StartSearch => {
            app.input_mode = InputMode::Search;
            app.input_buffer = String::new();
        },
        Command::NextMatch => app.next_match(),
        Command::PrevMatch => app.prev_match(),
        Command::StartFilter => {
            app.input_mode = InputMode::Filter;
            app.input_buffer = String::new();
        },
        Command::ClearFilter => {
            if app.filtered_indices.is_some() {
                app.clear_filter();
            }
        },
        Command::ClearSearch => {
            app.search_regex = None;
            app.search_matches.clear();
            app.search_match_pos = None;
        },
        Command::ToggleTime => app.toggle_timestamp(),
        Command::ToggleSource => {
            app.show_source = !app.show_source;
        },
        Command::ToggleWrap => {
            app.wrap_lines = !app.wrap_lines;
        },
        Command::StartVisual => {
            app.visual_anchor = match app.table_state.selected() {
                Some(s) => s,
                None => 0,
            };
            app.input_mode = InputMode::Visual;
        },
        Command::CopySelected => {
            return copy_selected(app);
        },
        Command::CopyAll => {
            let rows = vstd::slice::slice_to_vec(app.visible_indices());
            return Action::CopyLines(rows);
        },
        Command::OpenDetail => {
            app.detail_scroll = 0;
            app.input_mode = InputMode::Detail;
        },
        Command::OpenHelp => {
            app.input_mode = InputMode::Help;
        },
        Command::Ignore => {},
    }
    Action::Nothing
}

/// The selected event, to be copied.
fn copy_selected(app: &mut App) -> (act: Action)
    requires
        old(app).wf(),
    ensures
        final(app).wf(),
        *final(app) == (App { visible_cache: final(app).visible_cache, ..*old(app) }),
        if old(app).cursor() < old(app).visible_spec().len() {
            act == Action::CopyLine(old(app).visible_spec()[old(app).cursor() as int])
        } else {
            is_nothing(act)
        },
{
    let selected = match app.table_state.selected() {
        Some(s) => s,
        None => 0,
    };
    let indices: &[usize] = app.visible_indices();
    if selected < indices.len() {
        Action::CopyLine(indices[selected])
    } else {
        Action::Nothing
    }
}

/// Whether the key edits the input line, ends it, or is ignored.
pub open spec fn text_input_post(a: App, b: App, key: KeyInput, applied: bool) -> bool {
    match key.code {
        Key::Enter => applied && b.input_mode == InputMode::Normal,
        Key::Esc => !applied && entered_mode(a, b, InputMode::Normal),
        Key::Backspace => !applied && b.input_buffer@ == (if a.input_buffer@.len() > 0 {
            a.input_buffer@.drop_last()
        } else {
            a.input_buffer@
        }) && b == (App { input_buffer: b.input_buffer, ..a }),
        Key::Char(c) => !applied && b.input_buffer@ == a.input_buffer@.push(c) && b == (App {
            input_buffer: b.input_buffer,
            ..a
        }),
        _ => !applied && b == a,
    }
}

/// Edits the input line; returns whether the key was Enter (which the caller
/// then acts on).
fn edit_input(app: &mut App, key: KeyInput) -> (enter: bool)
    requires
        old(app).wf(),
    ensures
        final(app).wf(),
        enter == (key.code == Key::Enter),
        enter ==> *final(app) == *old(app),
        !enter ==> text_input_post(*old(app), *final(app), key, false),
{
    match key.code {
        Key::Enter => {
            return true;
        },
        Key::Esc => {
            app.input_mode = InputMode::Normal;
            app.input_buffer = String::new();
        },
        Key::Backspace => {
            pop_char(&mut app.input_buffer);
        },
        Key::Char(c) => {
            push_char(&mut app.input_buffer, c);
        },
        _ => {},
    }
    false
}

/// Handles a key while the search text is typed: Enter searches and returns
/// to the table.
pub fn handle_search_input(app: &mut App, key: KeyInput)
    requires
        old(app).wf(),
    ensures
        final(app).wf(),
        key.code == Key::Enter ==> App::searched(
            *old(app),
            App { input_mode: old(app).input_mode, ..*final(app) },
        ) && final(app).input_mode == InputMode::Normal,
        key.code != Key::Enter ==> text_input_post(*old(app), *final(app), key, false),
{
    if edit_input(app, key) {
        app.apply_search();
        app.input_mode = InputMode::Normal;
    }
}

/// Handles a key while the filter expression is typed: Enter filters and
/// returns to the table.
pub fn handle_filter_input(app: &mut App, key: KeyInput)
    requires
        old(app).wf(),
    ensures
        final(app).wf(),
        key.code == Key::Enter ==> App::filtered(
            *old(app),
            App { input_mode: old(app).input_mode, ..*final(app) },
        ) && final(app).input_mode == InputMode::Normal,
        key.code != Key::Enter ==> text_input_post(*old(app), *final(app), key, false),
{
    if edit_input(app, key) {
        app.apply_filter();
        app.input_mode = InputMode::Normal;
    }
}

/// The detail-view scroll offset after a key, or `None` when the key closes
/// the view or means nothing there.
pub open spec fn detail_scroll_after(scroll: u16, key: KeyInput) -> Option<u16> {
    let up = |n: int| if scroll >= n {
        (scroll - n) as u16
    } else {
        0u16
    };
    let down = |n: int| if scroll + n <= u16::MAX {
        (scroll + n) as u16
    } else {
        u16::MAX
    };
    match key.code {
        Key::Down => Some(down(1)),
        Key::Up => Some(up(1)),
        Key::PageDown => Some(down(10)),
        Key::PageUp => Some(up(10)),
        Key::Char(c) => if c == 'q' {
            None
        } else if c == 'j' {
            Some(down(1))
        } else if c == 'k' {
            Some(up(1))
        } else if c == 'd' && key.ctrl {
            Some(down(10))
        } else if c == 'u' && key.ctrl {
            Some(up(10))
        } else {
            None
        },
        _ => None,
    }
}

/// The key closes the detail view.
pub open spec fn closes_detail(key: KeyInput) -> bool {
    key.code == Key::Esc || key.code == Key::Enter || key.code == Key::Char('q')
}

/// The effect of a key in the detail view: closing it, scrolling it, or nothing.
pub open spec fn detail_post(a: App, b: App, key: KeyInput) -> bool {
    b == (if closes_detail(key) {
        App { input_mode: InputMode::Normal, ..a }
    } else {
        match detail_scroll_after(a.detail_scroll, key) {
            Some(d) => App { detail_scroll: d, ..a },
            None => a,
        }
    })
}

/// Handles a key in the event detail view.
pub fn handle_detail_input(app: &mut App, key: KeyInput)
    ensures
        detail_post(*old(app), *final(app), key),
{
    match key.code {
        Key::Esc | Key::Enter => {
            app.input_mode = InputMode::Normal;
        },
        Key::Char('q') => {
            app.input_mode = InputMode::Normal;
        },
        Key::Down | Key::Char('j') => {
            app.detail_scroll = app.detail_scroll.saturating_add(1);
        },
        Key::Up | Key::Char('k') => {
            app.detail_scroll = app.detail_scroll.saturating_sub(1);
        },
        Key::Char('d') if key.ctrl => {
            app.detail_scroll = app.detail_scroll.saturating_add(10);
        },
        Key::Char('u') if key.ctrl => {
            app.detail_scroll = app.detail_scroll.saturating_sub(10);
        },
        Key::PageDown => {
            app.detail_scroll = app.detail_scroll.saturating_add(10);
        },
        Key::PageUp => {
            app.detail_scroll = app.detail_scroll.saturating_sub(10);
        },
        _ => {},
    }
}

/// What a key means in visual selection mode.
pub open spec fn visual_command_spec(k: KeyInput) -> Command {
    match k.code {
        Key::Down => Command::Down(1),
        Key::Up => Command::Up(1),
        Key::PageDown => Command::Down(30),
        Key::PageUp => Command::Up(30),
        Key::Home => Command::Top,
        Key::End => Command::Bottom,
        Key::Enter => Command::CopySelected,
        Key::Esc => Command::Quit,
        Key::Char(c) => if c == 'j' {
            Command::Down(1)
        } else if c == 'k' {
            Command::Up(1)
        } else if c == 'd' && k.ctrl {
            Command::Down(30)
        } else if c == 'u' && k.ctrl {
            Command::Up(30)
        } else if c == 'g' {
            Command::Top
        } else if c == 'G' {
            Command::Bottom
        } else if c == 'y' || c == 'c' {
            Command::CopySelected
        } else if c == 'v' || c == 'q' {
            Command::Quit
        } else {
            Command::Ignore
        },
        _ => Command::Ignore,
    }
}

/// The command a key stands for in visual selection mode.
pub fn visual_command(k: KeyInput) -> (c: Command)
    ensures
        c == visual_command_spec(k),
{
    match k.code {
        Key::Down => Command::Down(1),
        Key::Up => Command::Up(1),
        Key::PageDown => Command::Down(30),
        Key::PageUp => Command::Up(30),
        Key::Home => Command::Top,
        Key::End => Command::Bottom,
        Key::Enter => Command::CopySelected,
        Key::Esc => Command::Quit,
        Key::Char(c) => {
            if c == 'j' {
                Command::Down(1)
            } else if c == 'k' {
                Command::Up(1)
            } else if c == 'd' && k.ctrl {
                Command::Down(30)
            } else if c == 'u' && k.ctrl {
                Command::Up(30)
            } else if c == 'g' {
                Command::Top
            } else if c == 'G' {
                Command::Bottom
            } else if c == 'y' || c == 'c' {
                Command::CopySelected
            } else if c == 'v' || c == 'q' {
                Command::Quit
            } else {
                Command::Ignore
            }
        },
        _ => Command::Ignore,
    }
}

/// The rows of the visual selection of `a`.
pub open spec fn visual_rows(a: App) -> Seq<usize> {
    let lo = if a.visual_anchor <= a.cursor() {
        a.visual_anchor
    } else {
        a.cursor()
    };
    let hi = if a.visual_anchor <= a.cursor() {
        a.cursor()
    } else {
        a.visual_anchor
    };
    rows_between(a.visible_spec(), lo as int, hi as int)
}

/// The effect of a key in visual mode: moving extends the selection; copying
/// (`Command::CopySelected` here) yields the selected rows and, like
/// cancelling (`Command::Quit` here), returns to the table.
pub open spec fn visual_post(a: App, b: App, cmd: Command, act: Action) -> bool {
    match cmd {
        Command::Down(n) => App::moved_to(a, b, App::cursor_down(a, n)) && is_nothing(act),
        Command::Up(n) => b == (App { table_state: App::cursor_up(a, n), ..a }) && is_nothing(act),
        Command::Top => App::moved_to(a, b, App::cursor_top(a)) && is_nothing(act),
        Command::Bottom => App::moved_to(a, b, App::cursor_bottom(a)) && is_nothing(act),
        Command::CopySelected => b == (App {
            input_mode: InputMode::Normal,
            visible_cache: b.visible_cache,
            ..a
        }) && (act matches Action::CopyLines(rows) && rows@ == visual_rows(a)),
        Command::Quit => b == (App { input_mode: InputMode::Normal, ..a }) && is_nothing(act),
        _ => b == a && is_nothing(act),
    }
}

/// Handles a key in visual selection mode.
pub fn handle_visual_input(app: &mut App, key: KeyInput) -> (act: Action)
    requires
        old(app).wf(),
        down_fits(*old(app), visual_command_spec(key)),
    ensures
        final(app).wf(),
        visual_post(*old(app), *final(app), visual_command_spec(key), act),
{
    match visual_command(key) {
        Command::Down(n) => app.scroll_down(n),
        Command::Up(n) => app.scroll_up(n),
        Command::Top => app.scroll_to_top(),
        Command::Bottom => app.scroll_to_bottom(),
        Command::CopySelected => {
            return copy_visual_selection(app);
        },
        Command::Quit => {
            app.input_mode = InputMode::Normal;
        },
        _ => {},
    }
    Action::Nothing
}

/// The rows of the visual selection, to be copied; back to the table.
fn copy_visual_selection(app: &mut App) -> (act: Action)
    requires
        old(app).wf(),
    ensures
        final(app).wf(),
        *final(app) == (App {
            input_mode: InputMode::Normal,
            visible_cache: final(app).visible_cache,
            ..*old(app)
        }),
        act matches Action::CopyLines(rows) && rows@ == visual_rows(*old(app)),
{
    let selected = match app.table_state.selected() {
        Some(s) => s,
        None => 0,
    };
    let anchor = app.visual_anchor;
    let lo = if anchor <= selected {
        anchor
    } else {
        selected
    };
    let hi = if anchor <= selected {
        selected
    } else {
        anchor
    };
    let indices: &[usize] = app.visible_indices();
    let mut rows: Vec<usize> = Vec::new();
    if lo < indices.len() {
        let last = if hi < indices.len() {
            hi
        } else {
            indices.len() - 1
        };
        let mut i = lo;
        while i <= last
            invariant
                lo <= i <= last + 1,
                last < indices@.len(),
                rows@ == indices@.subrange(lo as int, i as int),
            decreases last + 1 - i,
        {
            rows.push(indices[i]);
            i = i + 1;
        }
    }
    app.input_mode = InputMode::Normal;
    Action::CopyLines(rows)
}

/// Any key closes the help view.
pub fn handle_help_input(app: &mut App, _key: KeyInput)
    ensures
        *final(app) == (App { input_mode: InputMode::Normal, ..*old(app) }),
{
    app.input_mode = InputMode::Normal;
}

/// Handles a key press according to the current input mode.
pub fn handle_key(app: &mut App, key: KeyInput) -> (act: Action)
    requires
        old(app).wf(),
        old(app).input_mode == InputMode::Normal ==> down_fits(*old(app), normal_command_spec(key)),
        old(app).input_mode == InputMode::Visual ==> down_fits(*old(app), visual_command_spec(key)),
    ensures
        final(app).wf(),
        match old(app).input_mode {
            InputMode::Normal => normal_post(*old(app), *final(app), normal_command_spec(key), act),
            InputMode::Visual => visual_post(*old(app), *final(app), visual_command_spec(key), act),
            InputMode::Search => is_nothing(act) && (if key.code == Key::Enter {
                App::searched(*old(app), App { input_mode: old(app).input_mode, ..*final(app) })
                    && final(app).input_mode == InputMode::Normal
            } else {
                text_input_post(*old(app), *final(app), key, false)
            }),
            InputMode::Filter => is_nothing(act) && (if key.code == Key::Enter {
                App::filtered(*old(app), App { input_mode: old(app).input_mode, ..*final(app) })
                    && final(app).input_mode == InputMode::Normal
            } else {
                text_input_post(*old(app), *final(app), key, false)
            }),
            InputMode::Detail => is_nothing(act) && detail_post(*old(app), *final(app), key),
            InputMode::Help => is_nothing(act) && *final(app) == (App {
                input_mode: InputMode::Normal,
                ..*old(app)
            }),
        },
{
    match app.input_mode {
        InputMode::Normal => handle_normal_input(app, key),
        InputMode::Search => {
            handle_search_input(app, key);
            Action::Nothing
        },
        InputMode::Filter => {
            handle_filter_input(app, key);
            Action::Nothing
        },
        InputMode::Detail => {
            handle_detail_input(app, key);
            Action::Nothing
        },
        InputMode::Visual => handle_visual_input(app, key),
        InputMode::Help => {
            handle_help_input(app, key);
            Action::Nothing
        },
    }
}

} // verus!
