//! The state of the terminal front end, and what a command of the run, a
//! key or the mouse wheel makes of it. The front end itself only reads the
//! keys, draws the state and hands on what a step gives back.

use crate::model::texts_of;
use crate::text::{append_chars, chars_of, join_all, same_chars, slice_chars, string_of};
use crate::ui::{
    build_choice_keys, choice_key, cursor_offset, find_history_match, history_match,
    next_word_index, offset_from, prev_word_index, prompt_parts, scrolled, split_prompt, word_end,
    word_start, wrapped_line_count, wrapped_rows, Scroll, UiEvent,
};
use vstd::prelude::*;

verus! {

/// A key, as far as the front end tells keys apart.
#[derive(Clone, Copy, Debug)]
pub enum KeyCode {
    Enter,
    Backspace,
    Delete,
    Left,
    Right,
    Up,
    Down,
    Home,
    End,
    PageUp,
    PageDown,
    Esc,
    Char(char),
    Other,
}

/// A key that was pressed, alone or with the control key.
#[derive(Clone, Copy, Debug)]
pub struct Key {
    pub code: KeyCode,
    pub control: bool,
}

/// How the output was laid out when it was last drawn.
#[derive(Clone, Copy, Debug)]
pub struct Layout {
    /// The rows that the output has on the screen.
    pub output_height: usize,
    /// The first row of the last screenful.
    pub max_scroll: usize,
}

/// What the front end waits for.
#[derive(Debug)]
pub enum Mode {
    /// Nothing.
    Idle,
    /// A line that the user types.
    Input { prompt_inline: String, buffer: Vec<char>, cursor: usize, allow_menu_toggle: bool },
    /// A line that the user looks for among the earlier ones.
    Search {
        prompt_inline: String,
        buffer: Vec<char>,
        allow_menu_toggle: bool,
        query: Vec<char>,
        original: Vec<char>,
        match_index: Option<usize>,
    },
    /// One of some options.
    Choice {
        description: Option<String>,
        options: Vec<String>,
        keys: Vec<String>,
        allow_menu_toggle: bool,
    },
}

/// The model of a `Mode`.
pub enum ModeView {
    Idle,
    Input { prompt_inline: Seq<char>, buffer: Seq<char>, cursor: int, allow_menu_toggle: bool },
    Search {
        prompt_inline: Seq<char>,
        buffer: Seq<char>,
        allow_menu_toggle: bool,
        query: Seq<char>,
        original: Seq<char>,
        match_index: Option<int>,
    },
    Choice {
        description: Option<Seq<char>>,
        options: Seq<Seq<char>>,
        keys: Seq<Seq<char>>,
        allow_menu_toggle: bool,
    },
}

/// The number `o`, if there is one.
pub open spec fn place_view(o: Option<usize>) -> Option<int> {
    match o {
        Some(i) => Some(i as int),
        None => None,
    }
}

impl View for Mode {
    type V = ModeView;

    open spec fn view(&self) -> ModeView {
        match *self {
            Mode::Idle => ModeView::Idle,
            Mode::Input { prompt_inline, buffer, cursor, allow_menu_toggle } => ModeView::Input {
                prompt_inline: prompt_inline@,
                buffer: buffer@,
                cursor: cursor as int,
                allow_menu_toggle,
            },
            Mode::Search {
                prompt_inline,
                buffer,
                allow_menu_toggle,
                query,
                original,
                match_index,
            } => ModeView::Search {
                prompt_inline: prompt_inline@,
                buffer: buffer@,
                allow_menu_toggle,
                query: query@,
                original: original@,
                match_index: place_view(match_index),
            },
            Mode::Choice { description, options, keys, allow_menu_toggle } => ModeView::Choice {
                description: match description {
                    Some(d) => Some(d@),
                    None => None,
                },
                options: texts_of(options@),
                keys: texts_of(keys@),
                allow_menu_toggle,
            },
        }
    }
}

/// What the front end shows and waits for.
#[derive(Debug)]
pub struct Screen {
    /// What the run has written.
    pub output: Vec<char>,
    /// What stands above the line that is typed into.
    pub info: String,
    pub mode: Mode,
    /// The lines that were typed earlier, the oldest first.
    pub history: Vec<String>,
    /// The earlier line that is shown, while the user walks through them.
    pub history_cursor: Option<usize>,
    /// What was typed before the user began to walk through them.
    pub history_stash: Option<Vec<char>>,
    /// The first row of the output that is shown.
    pub output_scroll: usize,
    /// Whether the output follows what is written to it.
    pub auto_scroll: bool,
    pub last_layout: Option<Layout>,
}

/// The model of a `Screen`.
pub struct ScreenView {
    pub output: Seq<char>,
    pub info: Seq<char>,
    pub mode: ModeView,
    pub history: Seq<Seq<char>>,
    pub history_cursor: Option<int>,
    pub history_stash: Option<Seq<char>>,
    pub output_scroll: int,
    pub auto_scroll: bool,
    pub last_layout: Option<Layout>,
}

impl View for Screen {
    type V = ScreenView;

    open spec fn view(&self) -> ScreenView {
        ScreenView {
            output: self.output@,
            info: self.info@,
            mode: self.mode@,
            history: texts_of(self.history@),
            history_cursor: place_view(self.history_cursor),
            history_stash: match self.history_stash {
                Some(s) => Some(s@),
                None => None,
            },
            output_scroll: self.output_scroll as int,
            auto_scroll: self.auto_scroll,
            last_layout: self.last_layout,
        }
    }
}

/// The screen before anything was written, with the lines typed earlier.
pub open spec fn blank(history: Seq<Seq<char>>) -> ScreenView {
    ScreenView {
        output: Seq::empty(),
        info: Seq::empty(),
        mode: ModeView::Idle,
        history,
        history_cursor: None,
        history_stash: None,
        output_scroll: 0,
        auto_scroll: true,
        last_layout: None,
    }
}

/// `s` with the output scrolled by `delta` rows; nothing moves before the
/// output was drawn once.
pub open spec fn scrolled_by(s: ScreenView, delta: int) -> (ScreenView, bool) {
    match s.last_layout {
        None => (s, false),
        Some(l) => {
            let r = scrolled(s.output_scroll, s.auto_scroll, l.max_scroll as int, delta);
            (ScreenView { output_scroll: r.offset as int, auto_scroll: r.follows, ..s }, r.changed)
        },
    }
}

/// `s` with the output scrolled by `pages` screenfuls.
pub open spec fn paged(s: ScreenView, pages: int) -> (ScreenView, bool) {
    match s.last_layout {
        None => (s, false),
        Some(l) => if l.output_height == 0 {
            (s, false)
        } else {
            scrolled_by(s, l.output_height * pages)
        },
    }
}

/// `s` with the output at its first row, or at its last screenful. At the
/// first row the output no longer follows what is written, unless one
/// screenful holds it all.
pub open spec fn at_end(s: ScreenView, home: bool) -> (ScreenView, bool) {
    match s.last_layout {
        None => (s, false),
        Some(l) => {
            let wanted: int = if home {
                0
            } else {
                l.max_scroll as int
            };
            if wanted == s.output_scroll && (!home || s.auto_scroll) {
                (s, false)
            } else {
                (
                    ScreenView { output_scroll: wanted, auto_scroll: wanted == l.max_scroll, ..s },
                    true,
                )
            }
        },
    }
}

/// What a key that scrolls makes of `s`, and whether anything changed.
pub open spec fn scroll_step(s: ScreenView, code: KeyCode) -> (ScreenView, bool) {
    match code {
        KeyCode::PageUp => paged(s, -1),
        KeyCode::PageDown => paged(s, 1),
        KeyCode::Home => at_end(s, true),
        KeyCode::End => at_end(s, false),
        KeyCode::Up => scrolled_by(s, -1),
        KeyCode::Down => scrolled_by(s, 1),
        _ => (s, false),
    }
}

/// What a turn of the mouse wheel makes of `s`: three rows up or down.
pub open spec fn wheel_step(s: ScreenView, up: bool) -> (ScreenView, bool) {
    scrolled_by(
        s,
        if up {
            -3
        } else {
            3
        },
    )
}

/// `s` with the output at its last screenful, where it follows what is written.
pub open spec fn followed(s: ScreenView) -> ScreenView {
    match s.last_layout {
        Some(l) if s.auto_scroll => ScreenView { output_scroll: l.max_scroll as int, ..s },
        _ => s,
    }
}

/// `s` after `text` was written to the output.
pub open spec fn written(s: ScreenView, text: Seq<char>) -> ScreenView {
    followed(ScreenView { output: s.output + text, ..s })
}

/// `s` with `text` as the whole output.
pub open spec fn with_output_text(s: ScreenView, text: Seq<char>) -> ScreenView {
    followed(ScreenView { output: text, ..s })
}

/// `s` with no output.
pub open spec fn cleared(s: ScreenView) -> ScreenView {
    ScreenView { output: Seq::empty(), output_scroll: 0, auto_scroll: true, ..s }
}

/// `s` waiting for a line: the last line of `prompt` stands before the line
/// that is typed, the rest of it above, and `default` is what is typed so far.
pub open spec fn input_begun(
    s: ScreenView,
    prompt: Seq<char>,
    default: Seq<char>,
    allow_menu_toggle: bool,
) -> ScreenView {
    ScreenView {
        info: prompt_parts(prompt).0,
        mode: ModeView::Input {
            prompt_inline: prompt_parts(prompt).1,
            buffer: default,
            cursor: default.len() as int,
            allow_menu_toggle,
        },
        history_cursor: None,
        history_stash: None,
        ..s
    }
}

/// The keys by which `n` options are chosen.
pub open spec fn choice_keys(n: nat) -> Seq<Seq<char>> {
    Seq::new(n, |i: int| choice_key(n, i as nat))
}

/// `s` waiting for one of `options`.
pub open spec fn choice_begun(
    s: ScreenView,
    options: Seq<Seq<char>>,
    description: Option<Seq<char>>,
    allow_menu_toggle: bool,
) -> ScreenView {
    ScreenView {
        mode: ModeView::Choice {
            description,
            options,
            keys: choice_keys(options.len()),
            allow_menu_toggle,
        },
        ..s
    }
}

/// `s` waiting for nothing.
pub open spec fn idle(s: ScreenView) -> ScreenView {
    ScreenView { mode: ModeView::Idle, ..s }
}

/// A line that is edited: its characters and the number of them before the cursor.
pub struct Line {
    pub buffer: Seq<char>,
    pub cursor: int,
}

/// `b` without the characters from place `from` up to place `to`.
pub open spec fn without_range(b: Seq<char>, from: int, to: int) -> Seq<char> {
    b.take(from) + b.skip(to)
}

/// A cursor behind the end of the line counts as one at its end.
pub open spec fn clamped(cursor: int, len: int) -> int {
    if cursor > len {
        len
    } else {
        cursor
    }
}

/// What a key that edits makes of `line`: backspace and delete take the
/// character before and at the cursor, control with `w` the word before
/// it; the arrows move by a character, with control by a word; home and
/// end, or control with `a` and `e`, move to the ends; control with `n`
/// breaks the line; any other character is typed. Nothing for a key that
/// does not edit, and for a delete at the end of the line.
pub open spec fn edited(line: Line, key: Key) -> Option<Line> {
    let b = line.buffer;
    let c = clamped(line.cursor, b.len() as int);
    match key.code {
        KeyCode::Backspace => Some(
            if c > 0 {
                Line { buffer: without_range(b, c - 1, c), cursor: c - 1 }
            } else {
                Line { buffer: b, cursor: c }
            },
        ),
        KeyCode::Delete => if c < b.len() {
            Some(Line { buffer: without_range(b, c, c + 1), cursor: c })
        } else {
            None
        },
        KeyCode::Left => Some(
            Line {
                buffer: b,
                cursor: if key.control {
                    word_start(b, c)
                } else if c > 0 {
                    c - 1
                } else {
                    0
                },
            },
        ),
        KeyCode::Right => Some(
            Line {
                buffer: b,
                cursor: if key.control {
                    word_end(b, c)
                } else if c < b.len() {
                    c + 1
                } else {
                    c
                },
            },
        ),
        KeyCode::Home => if key.control {
            None
        } else {
            Some(Line { buffer: b, cursor: 0 })
        },
        KeyCode::End => if key.control {
            None
        } else {
            Some(Line { buffer: b, cursor: b.len() as int })
        },
        KeyCode::Char(ch) => Some(
            if key.control && ch == 'n' {
                Line { buffer: b.insert(c, '\n'), cursor: c + 1 }
            } else if key.control && ch == 'a' {
                Line { buffer: b, cursor: 0 }
            } else if key.control && ch == 'e' {
                Line { buffer: b, cursor: b.len() as int }
            } else if key.control && ch == 'w' {
                Line { buffer: without_range(b, word_start(b, c), c), cursor: word_start(b, c) }
            } else {
                Line { buffer: b.insert(c, ch), cursor: c + 1 }
            },
        ),
        _ => None,
    }
}

/// Scrolls the output by `rows` rows, up or down.
fn scroll_far(current: usize, follows: bool, max_scroll: usize, rows: usize, up: bool) -> (r: Scroll)
    ensures
        r == scrolled(
            current as int,
            follows,
            max_scroll as int,
            if up {
                -(rows as int)
            } else {
                rows as int
            },
        ),
{
    if max_scroll == 0 {
        return Scroll { offset: 0, follows: true, changed: false };
    }
    let wanted: i128 = if up {
        current as i128 - rows as i128
    } else {
        current as i128 + rows as i128
    };
    let next: usize = if wanted < 0 {
        0
    } else if wanted > max_scroll as i128 {
        max_scroll
    } else {
        wanted as usize
    };
    if next == current {
        Scroll { offset: current, follows, changed: false }
    } else {
        Scroll { offset: next, follows: next == max_scroll, changed: true }
    }
}

/// What a key hands to whoever waits for an answer.
#[derive(Debug)]
pub enum Reply {
    Nothing,
    /// The line that was typed.
    Text(String),
    /// The place of the option that was chosen.
    Index(usize),
}

/// The model of a `Reply`.
pub enum ReplyView {
    Nothing,
    Text(Seq<char>),
    Index(int),
}

impl View for Reply {
    type V = ReplyView;

    open spec fn view(&self) -> ReplyView {
        match *self {
            Reply::Nothing => ReplyView::Nothing,
            Reply::Text(t) => ReplyView::Text(t@),
            Reply::Index(i) => ReplyView::Index(i as int),
        }
    }
}

/// What a key led to, besides what it made of the screen.
#[derive(Debug)]
pub struct KeyOutcome {
    /// Whether the front end is to end.
    pub quit: bool,
    /// Whether the screen is to be drawn anew.
    pub changed: bool,
    /// What the run is to be told.
    pub event: Option<UiEvent>,
    pub reply: Reply,
}

/// The model of a `KeyOutcome`.
pub struct KeyOutcomeView {
    pub quit: bool,
    pub changed: bool,
    pub event: Option<UiEvent>,
    pub reply: ReplyView,
}

impl View for KeyOutcome {
    type V = KeyOutcomeView;

    open spec fn view(&self) -> KeyOutcomeView {
        KeyOutcomeView {
            quit: self.quit,
            changed: self.changed,
            event: self.event,
            reply: self.reply@,
        }
    }
}

/// A key that only the screen took note of.
pub open spec fn quiet(changed: bool) -> KeyOutcomeView {
    KeyOutcomeView { quit: false, changed, event: None, reply: ReplyView::Nothing }
}

/// A key that gave the answer `reply`.
pub open spec fn answered(reply: ReplyView) -> KeyOutcomeView {
    KeyOutcomeView { quit: false, changed: true, event: None, reply }
}

/// What a key that scrolls makes of `s`.
pub open spec fn scrolling(s: ScreenView, code: KeyCode) -> (ScreenView, KeyOutcomeView) {
    (scroll_step(s, code).0, quiet(scroll_step(s, code).1))
}

/// A key that moves the output by screenfuls or to its ends.
pub open spec fn scrolls(code: KeyCode) -> bool {
    code is PageUp || code is PageDown || code is Home || code is End
}

/// The first place at or after `from` where `x` stands in `list`.
pub open spec fn first_place(list: Seq<Seq<char>>, x: Seq<char>, from: int) -> Option<int>
    decreases list.len() - from,
{
    if from < 0 || from >= list.len() {
        None
    } else if list[from] == x {
        Some(from)
    } else {
        first_place(list, x, from + 1)
    }
}

/// The earlier line at place `found`, or `otherwise` where nothing was found.
pub open spec fn entry_or(history: Seq<Seq<char>>, found: Option<int>, otherwise: Seq<char>) -> Seq<
    char,
> {
    match found {
        Some(i) if 0 <= i < history.len() => history[i],
        _ => otherwise,
    }
}

/// `s` looking for `query` among the earlier lines, from the last one back:
/// the line shown is the one found, or `original` where none holds `query`.
pub open spec fn searching(
    s: ScreenView,
    prompt_inline: Seq<char>,
    allow_menu_toggle: bool,
    query: Seq<char>,
    original: Seq<char>,
) -> ScreenView {
    let found = history_match(s.history, query, s.history.len() - 1);
    ScreenView {
        mode: ModeView::Search {
            prompt_inline,
            buffer: entry_or(s.history, found, original),
            allow_menu_toggle,
            query,
            original,
            match_index: found,
        },
        ..s
    }
}

/// `s` looking for the next earlier line that holds `query`: from the one
/// before the line found last, and from the last line again where that was
/// the first or none was found. Where none is found the line shown stays.
pub open spec fn searching_on(
    s: ScreenView,
    prompt_inline: Seq<char>,
    buffer: Seq<char>,
    allow_menu_toggle: bool,
    query: Seq<char>,
    original: Seq<char>,
    match_index: Option<int>,
) -> ScreenView {
    let from = match match_index {
        Some(i) if i > 0 => i - 1,
        _ => s.history.len() - 1,
    };
    let found = history_match(s.history, query, from);
    ScreenView {
        mode: ModeView::Search {
            prompt_inline,
            buffer: entry_or(s.history, found, buffer),
            allow_menu_toggle,
            query,
            original,
            match_index: found,
        },
        ..s
    }
}

/// What the arrow up makes of a line that is typed: the earlier line before
/// the one shown, or the last one, with what was typed put aside.
pub open spec fn browse_up(
    s: ScreenView,
    prompt_inline: Seq<char>,
    buffer: Seq<char>,
    cursor: int,
    allow_menu_toggle: bool,
) -> (ScreenView, KeyOutcomeView) {
    if s.history.len() == 0 {
        (
            ScreenView {
                mode: ModeView::Input { prompt_inline, buffer, cursor, allow_menu_toggle },
                ..s
            },
            quiet(false),
        )
    } else {
        let idx = match s.history_cursor {
            None => s.history.len() - 1,
            Some(i) => if i > 0 {
                i - 1
            } else {
                0
            },
        };
        let stash = if s.history_cursor is None {
            Some(buffer)
        } else {
            s.history_stash
        };
        if idx < s.history.len() {
            (
                ScreenView {
                    mode: ModeView::Input {
                        prompt_inline,
                        buffer: s.history[idx],
                        cursor: s.history[idx].len() as int,
                        allow_menu_toggle,
                    },
                    history_cursor: Some(idx),
                    history_stash: stash,
                    ..s
                },
                quiet(true),
            )
        } else {
            (
                ScreenView {
                    mode: ModeView::Input { prompt_inline, buffer, cursor, allow_menu_toggle },
                    history_stash: stash,
                    ..s
                },
                quiet(true),
            )
        }
    }
}

/// What the arrow down makes of a line that is typed: the earlier line
/// behind the one shown, and behind the last one what was put aside.
pub open spec fn browse_down(
    s: ScreenView,
    prompt_inline: Seq<char>,
    buffer: Seq<char>,
    cursor: int,
    allow_menu_toggle: bool,
) -> (ScreenView, KeyOutcomeView) {
    let same = ScreenView {
        mode: ModeView::Input { prompt_inline, buffer, cursor, allow_menu_toggle },
        ..s
    };
    if s.history.len() == 0 {
        (same, quiet(false))
    } else {
        match s.history_cursor {
            None => (same, quiet(true)),
            Some(i) => if 0 <= i + 1 < s.history.len() {
                (
                    ScreenView {
                        mode: ModeView::Input {
                            prompt_inline,
                            buffer: s.history[i + 1],
                            cursor: s.history[i + 1].len() as int,
                            allow_menu_toggle,
                        },
                        history_cursor: Some(i + 1),
                        ..s
                    },
                    quiet(true),
                )
            } else {
                match s.history_stash {
                    Some(stash) => (
                        ScreenView {
                            mode: ModeView::Input {
                                prompt_inline,
                                buffer: stash,
                                cursor: stash.len() as int,
                                allow_menu_toggle,
                            },
                            history_cursor: None,
                            history_stash: None,
                            ..s
                        },
                        quiet(true),
                    ),
                    None => (ScreenView { history_cursor: None, ..same }, quiet(true)),
                }
            },
        }
    }
}

/// What a key makes of a screen that waits for a line. Enter gives the
/// line as the answer; control with `r` begins to look through the earlier
/// lines; the arrows up and down walk through them; page up and down, and
/// home and end with control, scroll the output; a key that edits edits
/// the line, and ends the walk through the earlier lines.
pub open spec fn input_step(
    s: ScreenView,
    prompt_inline: Seq<char>,
    buffer: Seq<char>,
    cursor: int,
    allow_menu_toggle: bool,
    key: Key,
) -> (ScreenView, KeyOutcomeView) {
    let same = ScreenView {
        mode: ModeView::Input { prompt_inline, buffer, cursor, allow_menu_toggle },
        ..s
    };
    match key.code {
        KeyCode::Enter => (idle(s), answered(ReplyView::Text(buffer))),
        KeyCode::Up => browse_up(s, prompt_inline, buffer, cursor, allow_menu_toggle),
        KeyCode::Down => browse_down(s, prompt_inline, buffer, cursor, allow_menu_toggle),
        KeyCode::PageUp => scrolling(same, key.code),
        KeyCode::PageDown => scrolling(same, key.code),
        _ => if key.control && key.code == KeyCode::Char('r') {
            (searching(s, prompt_inline, allow_menu_toggle, Seq::empty(), buffer), quiet(true))
        } else if key.control && (key.code is Home || key.code is End) {
            scrolling(same, key.code)
        } else {
            match edited(Line { buffer, cursor }, key) {
                Some(l) => (
                    ScreenView {
                        mode: ModeView::Input {
                            prompt_inline,
                            buffer: l.buffer,
                            cursor: l.cursor,
                            allow_menu_toggle,
                        },
                        history_cursor: None,
                        ..s
                    },
                    quiet(true),
                ),
                None => (same, quiet(false)),
            }
        },
    }
}

/// What a key makes of a screen that looks through the earlier lines.
/// Enter takes the line shown as the line that is typed; a character
/// lengthens what is looked for and backspace shortens it; control with
/// `r` looks further back. A key that scrolls the output ends the search,
/// and the wait for a line with it.
pub open spec fn search_step(
    s: ScreenView,
    prompt_inline: Seq<char>,
    buffer: Seq<char>,
    allow_menu_toggle: bool,
    query: Seq<char>,
    original: Seq<char>,
    match_index: Option<int>,
    key: Key,
) -> (ScreenView, KeyOutcomeView) {
    match key.code {
        KeyCode::Enter => (
            ScreenView {
                mode: ModeView::Input {
                    prompt_inline,
                    buffer,
                    cursor: buffer.len() as int,
                    allow_menu_toggle,
                },
                ..s
            },
            quiet(true),
        ),
        KeyCode::Backspace => (
            searching(
                s,
                prompt_inline,
                allow_menu_toggle,
                if query.len() > 0 {
                    query.drop_last()
                } else {
                    query
                },
                original,
            ),
            quiet(true),
        ),
        KeyCode::Char(c) => if key.control && c == 'r' {
            (
                searching_on(
                    s,
                    prompt_inline,
                    buffer,
                    allow_menu_toggle,
                    query,
                    original,
                    match_index,
                ),
                quiet(true),
            )
        } else {
            (searching(s, prompt_inline, allow_menu_toggle, query.push(c), original), quiet(true))
        },
        _ => if scrolls(key.code) {
            scrolling(idle(s), key.code)
        } else {
            (
                ScreenView {
                    mode: ModeView::Search {
                        prompt_inline,
                        buffer,
                        allow_menu_toggle,
                        query,
                        original,
                        match_index,
                    },
                    ..s
                },
                quiet(false),
            )
        },
    }
}

/// What a key makes of a screen that waits for a choice. Where there is
/// nothing to choose from, any key answers with the first place. Else a
/// character answers with the place of the key that it is, or of the
/// option that it is; a key that scrolls scrolls the output.
pub open spec fn choice_step(
    s: ScreenView,
    description: Option<Seq<char>>,
    options: Seq<Seq<char>>,
    keys: Seq<Seq<char>>,
    allow_menu_toggle: bool,
    key: Key,
) -> (ScreenView, KeyOutcomeView) {
    let same = ScreenView {
        mode: ModeView::Choice { description, options, keys, allow_menu_toggle },
        ..s
    };
    if options.len() == 0 {
        (idle(s), answered(ReplyView::Index(0)))
    } else {
        match key.code {
            KeyCode::Char(c) => match first_place(keys, seq![c], 0) {
                Some(i) => (idle(s), answered(ReplyView::Index(i))),
                None => match first_place(options, seq![c], 0) {
                    Some(i) => (idle(s), answered(ReplyView::Index(i))),
                    None => (same, quiet(false)),
                },
            },
            _ => if scrolls(key.code) {
                scrolling(same, key.code)
            } else {
                (same, quiet(false))
            },
        }
    }
}

/// What a key makes of a screen that waits for nothing: a key that
/// scrolls, and an arrow up or down with control, scrolls the output.
pub open spec fn idle_step(s: ScreenView, key: Key) -> (ScreenView, KeyOutcomeView) {
    if scrolls(key.code) || (key.control && (key.code is Up || key.code is Down)) {
        scrolling(idle(s), key.code)
    } else {
        (idle(s), quiet(false))
    }
}

/// Whether escape in mode `m` only ends the wait, without asking for the menu.
pub open spec fn menu_barred(m: ModeView) -> bool {
    match m {
        ModeView::Input { allow_menu_toggle, .. } => !allow_menu_toggle,
        ModeView::Choice { allow_menu_toggle, .. } => !allow_menu_toggle,
        _ => false,
    }
}

/// What a key makes of the screen, and what it leads to. Escape ends
/// whatever the screen waits for and asks for the menu, unless the wait
/// for a line or a choice bars that. Control with `c` asks for the end.
/// Any other key goes to what the screen waits for.
pub open spec fn key_step(s: ScreenView, key: Key) -> (ScreenView, KeyOutcomeView) {
    if key.code is Esc {
        (
            idle(s),
            KeyOutcomeView {
                quit: false,
                changed: true,
                event: if menu_barred(s.mode) {
                    None
                } else {
                    Some(UiEvent::ToggleMenu)
                },
                reply: ReplyView::Nothing,
            },
        )
    } else if key.control && key.code == KeyCode::Char('c') {
        (
            s,
            KeyOutcomeView {
                quit: true,
                changed: true,
                event: Some(UiEvent::Quit),
                reply: ReplyView::Nothing,
            },
        )
    } else {
        match s.mode {
            ModeView::Idle => idle_step(s, key),
            ModeView::Input { prompt_inline, buffer, cursor, allow_menu_toggle } => input_step(
                idle(s),
                prompt_inline,
                buffer,
                cursor,
                allow_menu_toggle,
                key,
            ),
            ModeView::Search {
                prompt_inline,
                buffer,
                allow_menu_toggle,
                query,
                original,
                match_index,
            } => search_step(
                idle(s),
                prompt_inline,
                buffer,
                allow_menu_toggle,
                query,
                original,
                match_index,
                key,
            ),
            ModeView::Choice { description, options, keys, allow_menu_toggle } => choice_step(
                idle(s),
                description,
                options,
                keys,
                allow_menu_toggle,
                key,
            ),
        }
    }
}

/// The line that shows an option and the key by which it is chosen.
pub open spec fn option_line(key: Seq<char>, option: Seq<char>) -> Seq<char> {
    seq!['('] + key + seq![')', ' '] + option
}

/// The lines that show the options, as far as there are keys for them.
pub open spec fn option_lines(options: Seq<Seq<char>>, keys: Seq<Seq<char>>) -> Seq<Seq<char>> {
    Seq::new(
        if options.len() < keys.len() {
            options.len()
        } else {
            keys.len()
        },
        |i: int| option_line(keys[i], options[i]),
    )
}

/// The lines that a choice shows: what it is about, where that is said,
/// and the options.
pub open spec fn choice_lines(
    description: Option<Seq<char>>,
    options: Seq<Seq<char>>,
    keys: Seq<Seq<char>>,
) -> Seq<Seq<char>> {
    match description {
        Some(d) => seq![d] + option_lines(options, keys),
        None => option_lines(options, keys),
    }
}

/// What stands above the line that is typed into.
pub open spec fn info_text(s: ScreenView) -> Seq<char> {
    match s.mode {
        ModeView::Idle => Seq::empty(),
        ModeView::Input { .. } => s.info,
        ModeView::Search { query, .. } => "reverse-i-search: "@ + query,
        ModeView::Choice { description, options, keys, .. } => join_all(
            choice_lines(description, options, keys),
            seq!['\n'],
        ),
    }
}

/// The line that is typed into, with what stands before it.
pub open spec fn prompt_text(s: ScreenView) -> Seq<char> {
    match s.mode {
        ModeView::Input { prompt_inline, buffer, .. } => prompt_inline + buffer,
        ModeView::Search { prompt_inline, buffer, .. } => prompt_inline + buffer,
        _ => Seq::empty(),
    }
}

/// The text that stands before the cursor, where the screen has a cursor.
pub open spec fn cursor_text(s: ScreenView) -> Option<Seq<char>> {
    match s.mode {
        ModeView::Input { prompt_inline, buffer, cursor, .. } => Some(
            prompt_inline + buffer.take(clamped(cursor, buffer.len() as int)),
        ),
        ModeView::Search { .. } => Some(info_text(s)),
        _ => None,
    }
}

/// The rows that `text` takes at `width` columns, as far as a `usize` counts.
pub open spec fn rows_shown(text: Seq<char>, width: usize) -> usize {
    if wrapped_rows(text, width as nat) > usize::MAX {
        usize::MAX
    } else {
        wrapped_rows(text, width as nat) as usize
    }
}

/// The lesser of `a` and `b`.
pub open spec fn lesser(a: usize, b: usize) -> usize {
    if a < b {
        a
    } else {
        b
    }
}

/// Where the cursor is drawn.
#[derive(Clone, Copy, Debug)]
pub struct CursorPlace {
    /// Whether it stands in the line that is typed into, not above it.
    pub in_prompt: bool,
    pub row: usize,
    pub col: usize,
}

/// What is drawn: the three texts, the rows that each of them gets, the
/// first row of the output that is shown, and the cursor.
#[derive(Debug)]
pub struct Frame {
    pub output_text: String,
    pub info_text: String,
    pub prompt_text: String,
    pub output_height: usize,
    pub info_height: usize,
    pub prompt_height: usize,
    pub scroll_offset: usize,
    pub max_scroll: usize,
    pub cursor: Option<CursorPlace>,
}

/// The model of a `Frame`.
pub struct FrameView {
    pub output_text: Seq<char>,
    pub info_text: Seq<char>,
    pub prompt_text: Seq<char>,
    pub output_height: usize,
    pub info_height: usize,
    pub prompt_height: usize,
    pub scroll_offset: usize,
    pub max_scroll: usize,
    pub cursor: Option<CursorPlace>,
}

impl View for Frame {
    type V = FrameView;

    open spec fn view(&self) -> FrameView {
        FrameView {
            output_text: self.output_text@,
            info_text: self.info_text@,
            prompt_text: self.prompt_text@,
            output_height: self.output_height,
            info_height: self.info_height,
            prompt_height: self.prompt_height,
            scroll_offset: self.scroll_offset,
            max_scroll: self.max_scroll,
            cursor: self.cursor,
        }
    }
}

/// What is drawn of `s` on `height` rows of `width` columns. The line that
/// is typed into gets the rows it takes; what stands above it gets the
/// rows it takes of what is left, and none while the screen waits for
/// nothing; the output gets the rest. The output is shown from its last
/// screenful where it follows what is written, else from where it was
/// scrolled to. The cursor stands behind what was typed before it, or
/// behind what is looked for.
pub open spec fn frame_of(s: ScreenView, width: usize, height: usize) -> FrameView {
    let prompt_height = lesser(rows_shown(prompt_text(s), width), height);
    let available = (height - prompt_height) as usize;
    let info_height = if s.mode is Idle {
        0
    } else {
        lesser(lesser(rows_shown(info_text(s), width), height), available)
    };
    let output_height = (available - info_height) as usize;
    let rows = rows_shown(s.output, width);
    let max_scroll = if rows > output_height {
        (rows - output_height) as usize
    } else {
        0
    };
    let in_prompt = s.mode is Input;
    FrameView {
        output_text: s.output,
        info_text: info_text(s),
        prompt_text: prompt_text(s),
        output_height,
        info_height,
        prompt_height,
        scroll_offset: if s.auto_scroll || s.output_scroll > max_scroll {
            max_scroll
        } else {
            s.output_scroll as usize
        },
        max_scroll,
        cursor: match cursor_text(s) {
            Some(t) => if width > 0 && ((in_prompt && prompt_height > 0) || (!in_prompt
                && info_height > 0)) {
                Some(
                    CursorPlace {
                        in_prompt,
                        row: offset_from(t, width as nat, 0, 0, 0).0 as usize,
                        col: offset_from(t, width as nat, 0, 0, 0).1 as usize,
                    },
                )
            } else {
                None
            },
            None => None,
        },
    }
}

/// `s` after it was drawn on `height` rows of `width` columns: it knows
/// the rows that the output got and how far the output scrolls.
pub open spec fn drawn(s: ScreenView, width: usize, height: usize) -> ScreenView {
    ScreenView {
        last_layout: Some(
            Layout {
                output_height: frame_of(s, width, height).output_height,
                max_scroll: frame_of(s, width, height).max_scroll,
            },
        ),
        ..s
    }
}

/// The first place where `x` stands in `list`.
fn place_in(list: &Vec<String>, x: &Vec<char>) -> (r: Option<usize>)
    ensures
        place_view(r) == first_place(texts_of(list@), x@, 0),
{
    let ghost texts = texts_of(list@);
    let mut i: usize = 0;
    while i < list.len()
        invariant
            i <= list.len(),
            texts == texts_of(list@),
            first_place(texts, x@, 0) == first_place(texts, x@, i as int),
        decreases list.len() - i,
    {
        let item = chars_of(list[i].as_str());
        if same_chars(&item, x) {
            return Some(i);
        }
        i += 1;
    }
    None
}

/// The place of the last earlier line at or before `from`, or before the
/// end, that holds `query`.
fn find_entry(history: &Vec<String>, query: &Vec<char>, from: Option<usize>) -> (r: Option<usize>)
    ensures
        place_view(r) == history_match(
            texts_of(history@),
            query@,
            match from {
                Some(f) => f as int,
                None => history.len() - 1,
            },
        ),
        match r {
            Some(i) => i < history.len(),
            None => true,
        },
{
    let q = string_of(query);
    match from {
        Some(f) => {
            if f >= history.len() {
                None
            } else {
                find_history_match(history, q.as_str(), from)
            }
        },
        None => find_history_match(history, q.as_str(), None),
    }
}

/// The earlier line at place `found`, or a copy of `otherwise`.
fn entry_chars(history: &Vec<String>, found: Option<usize>, otherwise: &Vec<char>) -> (r: Vec<char>)
    ensures
        r@ == entry_or(texts_of(history@), place_view(found), otherwise@),
{
    match found {
        Some(i) => {
            if i < history.len() {
                chars_of(history[i].as_str())
            } else {
                copy_chars(otherwise)
            }
        },
        None => copy_chars(otherwise),
    }
}

/// A copy of `b`.
fn copy_chars(b: &Vec<char>) -> (r: Vec<char>)
    ensures
        r@ == b@,
{
    let r = slice_chars(b, 0, b.len());
    assert(r@ =~= b@);
    r
}

/// The outcome of a key that only the screen took note of.
fn quiet_outcome(changed: bool) -> (r: KeyOutcome)
    ensures
        r@ == quiet(changed),
{
    KeyOutcome { quit: false, changed, event: None, reply: Reply::Nothing }
}

/// `b` without the characters from place `from` up to place `to`.
fn remove_range(b: &Vec<char>, from: usize, to: usize) -> (r: Vec<char>)
    requires
        from <= to <= b.len(),
    ensures
        r@ == without_range(b@, from as int, to as int),
{
    let mut out = slice_chars(b, 0, from);
    let tail = slice_chars(b, to, b.len());
    append_chars(&mut out, &tail);
    assert(out@ =~= without_range(b@, from as int, to as int));
    out
}

/// Edits the line as `key` asks; says whether `key` is one that edits.
pub fn edit_line(buffer: &mut Vec<char>, cursor: &mut usize, key: Key) -> (r: bool)
    ensures
        match edited(Line { buffer: old(buffer)@, cursor: *old(cursor) as int }, key) {
            Some(l) => r && final(buffer)@ == l.buffer && *final(cursor) == l.cursor,
            None => !r && final(buffer)@ == old(buffer)@ && *final(cursor) == *old(cursor),
        },
{
    let c: usize = if *cursor > buffer.len() {
        buffer.len()
    } else {
        *cursor
    };
    match key.code {
        KeyCode::Backspace => {
            if c > 0 {
                *buffer = remove_range(buffer, c - 1, c);
                *cursor = c - 1;
            } else {
                *cursor = c;
            }
            true
        },
        KeyCode::Delete => {
            if c < buffer.len() {
                *buffer = remove_range(buffer, c, c + 1);
                *cursor = c;
                true
            } else {
                false
            }
        },
        KeyCode::Left => {
            *cursor = if key.control {
                prev_word_index(buffer, c)
            } else if c > 0 {
                c - 1
            } else {
                0
            };
            true
        },
        KeyCode::Right => {
            *cursor = if key.control {
                next_word_index(buffer, c)
            } else if c < buffer.len() {
                c + 1
            } else {
                c
            };
            true
        },
        KeyCode::Home => {
            if key.control {
                false
            } else {
                *cursor = 0;
                true
            }
        },
        KeyCode::End => {
            if key.control {
                false
            } else {
                *cursor = buffer.len();
                true
            }
        },
        KeyCode::Char(ch) => {
            if key.control && ch == 'n' {
                buffer.insert(c, '\n');
                assert(c < buffer.len());
                *cursor = c + 1;
            } else if key.control && ch == 'a' {
                *cursor = 0;
            } else if key.control && ch == 'e' {
                *cursor = buffer.len();
            } else if key.control && ch == 'w' {
                let start = prev_word_index(buffer, c);
                *buffer = remove_range(buffer, start, c);
                *cursor = start;
            } else {
                buffer.insert(c, ch);
                assert(c < buffer.len());
                *cursor = c + 1;
            }
            true
        },
        _ => false,
    }
}

impl Screen {
    /// The screen before anything was written.
    pub fn new(history: Vec<String>) -> (s: Screen)
        ensures
            s@ == blank(texts_of(history@)),
    {
        Screen {
            output: Vec::new(),
            info: String::new(),
            mode: Mode::Idle,
            history,
            history_cursor: None,
            history_stash: None,
            output_scroll: 0,
            auto_scroll: true,
            last_layout: None,
        }
    }

    /// Scrolls the output by `rows` rows, up or down.
    pub fn scroll_rows(&mut self, rows: usize, up: bool) -> (changed: bool)
        ensures
            (final(self)@, changed) == scrolled_by(
                old(self)@,
                if up {
                    -(rows as int)
                } else {
                    rows as int
                },
            ),
    {
        match self.last_layout {
            None => false,
            Some(l) => {
                let r = scroll_far(self.output_scroll, self.auto_scroll, l.max_scroll, rows, up);
                self.output_scroll = r.offset;
                self.auto_scroll = r.follows;
                r.changed
            },
        }
    }
    /// Scrolls the output by one screenful, up or down.
    pub fn scroll_page(&mut self, up: bool) -> (changed: bool)
        ensures
            (final(self)@, changed) == paged(
                old(self)@,
                if up {
                    -1
                } else {
                    1
                },
            ),
    {
        match self.last_layout {
            None => false,
            Some(l) => {
                if l.output_height == 0 {
                    false
                } else {
                    assert(l.output_height * 1 == l.output_height && l.output_height * (-1) == -(
                    l.output_height as int)) by (nonlinear_arith);
                    self.scroll_rows(l.output_height, up)
                }
            },
        }
    }

    /// Shows the first row of the output, or its last screenful.
    pub fn scroll_to_end(&mut self, home: bool) -> (changed: bool)
        ensures
            (final(self)@, changed) == at_end(old(self)@, home),
    {
        match self.last_layout {
            None => false,
            Some(l) => {
                let wanted: usize = if home {
                    0
                } else {
                    l.max_scroll
                };
                if wanted == self.output_scroll && (!home || self.auto_scroll) {
                    false
                } else {
                    self.output_scroll = wanted;
                    self.auto_scroll = wanted == l.max_scroll;
                    true
                }
            },
        }
    }

    /// Scrolls the output as the key `code` asks.
    pub fn scroll_key(&mut self, code: KeyCode) -> (changed: bool)
        ensures
            (final(self)@, changed) == scroll_step(old(self)@, code),
    {
        match code {
            KeyCode::PageUp => self.scroll_page(true),
            KeyCode::PageDown => self.scroll_page(false),
            KeyCode::Home => self.scroll_to_end(true),
            KeyCode::End => self.scroll_to_end(false),
            KeyCode::Up => self.scroll_rows(1, true),
            KeyCode::Down => self.scroll_rows(1, false),
            _ => false,
        }
    }

    /// Scrolls the output as a turn of the mouse wheel asks.
    pub fn handle_mouse(&mut self, up: bool) -> (changed: bool)
        ensures
            (final(self)@, changed) == wheel_step(old(self)@, up),
    {
        self.scroll_rows(3, up)
    }

    /// Lets the output follow what is written, where it does.
    fn follow(&mut self)
        ensures
            final(self)@ == followed(old(self)@),
    {
        if self.auto_scroll {
            match self.last_layout {
                Some(l) => {
                    self.output_scroll = l.max_scroll;
                },
                None => {},
            }
        }
    }

    /// Writes `text` to the output.
    pub fn write(&mut self, text: &str)
        ensures
            final(self)@ == written(old(self)@, text@),
    {
        let tail = chars_of(text);
        append_chars(&mut self.output, &tail);
        self.follow();
    }

    /// Makes `text` the whole output.
    pub fn set_output(&mut self, text: &str)
        ensures
            final(self)@ == with_output_text(old(self)@, text@),
    {
        self.output = chars_of(text);
        self.follow();
    }

    /// Empties the output.
    pub fn clear(&mut self)
        ensures
            final(self)@ == cleared(old(self)@),
    {
        self.output = Vec::new();
        self.output_scroll = 0;
        self.auto_scroll = true;
    }

    /// Begins to wait for a line.
    pub fn begin_input(&mut self, prompt: &str, default: &str, allow_menu_toggle: bool)
        ensures
            final(self)@ == input_begun(old(self)@, prompt@, default@, allow_menu_toggle),
    {
        let (outline, inline) = split_prompt(prompt);
        let buffer = chars_of(default);
        let cursor = buffer.len();
        self.info = outline;
        self.mode = Mode::Input { prompt_inline: inline, buffer, cursor, allow_menu_toggle };
        self.history_cursor = None;
        self.history_stash = None;
    }

    /// Begins to wait for one of `options`.
    pub fn begin_choice(
        &mut self,
        options: Vec<String>,
        description: Option<String>,
        allow_menu_toggle: bool,
    )
        ensures
            final(self)@ == choice_begun(
                old(self)@,
                texts_of(options@),
                match description {
                    Some(d) => Some(d@),
                    None => None,
                },
                allow_menu_toggle,
            ),
    {
        let keys = build_choice_keys(options.len());
        assert(texts_of(keys@) =~= choice_keys(texts_of(options@).len()));
        self.mode = Mode::Choice { description, options, keys, allow_menu_toggle };
    }

    /// Stops waiting; says whether the screen waited for anything.
    pub fn cancel_input(&mut self) -> (changed: bool)
        ensures
            changed == !(old(self)@.mode is Idle),
            final(self)@ == idle(old(self)@),
    {
        let waited = match &self.mode {
            Mode::Idle => false,
            _ => true,
        };
        self.mode = Mode::Idle;
        waited
    }
    /// Looks for `query` among the earlier lines from the last one back.
    fn search(
        &mut self,
        prompt_inline: String,
        allow_menu_toggle: bool,
        query: Vec<char>,
        original: Vec<char>,
    )
        ensures
            final(self)@ == searching(
                old(self)@,
                prompt_inline@,
                allow_menu_toggle,
                query@,
                original@,
            ),
    {
        let match_index = find_entry(&self.history, &query, None);
        let buffer = entry_chars(&self.history, match_index, &original);
        self.mode = Mode::Search {
            prompt_inline,
            buffer,
            allow_menu_toggle,
            query,
            original,
            match_index,
        };
    }

    /// Takes a key while the screen waits for nothing.
    fn idle_key(&mut self, key: Key) -> (r: KeyOutcome)
        requires
            old(self).mode is Idle,
        ensures
            (final(self)@, r@) == idle_step(old(self)@, key),
    {
        let scrolls = match key.code {
            KeyCode::PageUp | KeyCode::PageDown | KeyCode::Home | KeyCode::End => true,
            KeyCode::Up | KeyCode::Down => key.control,
            _ => false,
        };
        if scrolls {
            let changed = self.scroll_key(key.code);
            quiet_outcome(changed)
        } else {
            quiet_outcome(false)
        }
    }

    /// Takes a key while the screen waits for a choice, whose parts are handed in.
    fn choice_key(
        &mut self,
        description: Option<String>,
        options: Vec<String>,
        keys: Vec<String>,
        allow_menu_toggle: bool,
        key: Key,
    ) -> (r: KeyOutcome)
        requires
            old(self).mode is Idle,
        ensures
            (final(self)@, r@) == choice_step(
                old(self)@,
                match description {
                    Some(d) => Some(d@),
                    None => None,
                },
                texts_of(options@),
                texts_of(keys@),
                allow_menu_toggle,
                key,
            ),
    {
        if options.len() == 0 {
            return KeyOutcome { quit: false, changed: true, event: None, reply: Reply::Index(0) };
        }
        let picked = match key.code {
            KeyCode::Char(c) => {
                let mut typed: Vec<char> = Vec::new();
                typed.push(c);
                assert(typed@ =~= seq![c]);
                match place_in(&keys, &typed) {
                    Some(i) => Some(i),
                    None => place_in(&options, &typed),
                }
            },
            _ => None,
        };
        match picked {
            Some(i) => KeyOutcome { quit: false, changed: true, event: None, reply: Reply::Index(i) },
            None => {
                self.mode = Mode::Choice { description, options, keys, allow_menu_toggle };
                match key.code {
                    KeyCode::PageUp | KeyCode::PageDown | KeyCode::Home | KeyCode::End => {
                        let changed = self.scroll_key(key.code);
                        quiet_outcome(changed)
                    },
                    _ => quiet_outcome(false),
                }
            },
        }
    }

    /// Takes a key while the screen looks through the earlier lines.
    fn search_key(
        &mut self,
        prompt_inline: String,
        buffer: Vec<char>,
        allow_menu_toggle: bool,
        query: Vec<char>,
        original: Vec<char>,
        match_index: Option<usize>,
        key: Key,
    ) -> (r: KeyOutcome)
        requires
            old(self).mode is Idle,
        ensures
            (final(self)@, r@) == search_step(
                old(self)@,
                prompt_inline@,
                buffer@,
                allow_menu_toggle,
                query@,
                original@,
                place_view(match_index),
                key,
            ),
    {
        match key.code {
            KeyCode::Enter => {
                let cursor = buffer.len();
                self.mode = Mode::Input { prompt_inline, buffer, cursor, allow_menu_toggle };
                quiet_outcome(true)
            },
            KeyCode::Backspace => {
                let mut query = query;
                if query.len() > 0 {
                    query.pop();
                }
                self.search(prompt_inline, allow_menu_toggle, query, original);
                quiet_outcome(true)
            },
            KeyCode::Char(c) => {
                if key.control && c == 'r' {
                    let from = match match_index {
                        Some(i) => if i > 0 {
                            Some(i - 1)
                        } else {
                            None
                        },
                        None => None,
                    };
                    let found = find_entry(&self.history, &query, from);
                    let shown = entry_chars(&self.history, found, &buffer);
                    self.mode = Mode::Search {
                        prompt_inline,
                        buffer: shown,
                        allow_menu_toggle,
                        query,
                        original,
                        match_index: found,
                    };
                } else {
                    let mut query = query;
                    query.push(c);
                    self.search(prompt_inline, allow_menu_toggle, query, original);
                }
                quiet_outcome(true)
            },
            KeyCode::PageUp | KeyCode::PageDown | KeyCode::Home | KeyCode::End => {
                let changed = self.scroll_key(key.code);
                quiet_outcome(changed)
            },
            _ => {
                self.mode = Mode::Search {
                    prompt_inline,
                    buffer,
                    allow_menu_toggle,
                    query,
                    original,
                    match_index,
                };
                quiet_outcome(false)
            },
        }
    }

    /// Walks one line up or down through the earlier lines.
    fn browse_key(
        &mut self,
        prompt_inline: String,
        buffer: Vec<char>,
        cursor: usize,
        allow_menu_toggle: bool,
        up: bool,
    ) -> (r: KeyOutcome)
        requires
            old(self).mode is Idle,
        ensures
            (final(self)@, r@) == if up {
                browse_up(old(self)@, prompt_inline@, buffer@, cursor as int, allow_menu_toggle)
            } else {
                browse_down(old(self)@, prompt_inline@, buffer@, cursor as int, allow_menu_toggle)
            },
    {
        let len = self.history.len();
        if len == 0 {
            self.mode = Mode::Input { prompt_inline, buffer, cursor, allow_menu_toggle };
            return quiet_outcome(false);
        }
        if up {
            let idx = match self.history_cursor {
                None => {
                    self.history_stash = Some(copy_chars(&buffer));
                    len - 1
                },
                Some(i) => if i > 0 {
                    i - 1
                } else {
                    0
                },
            };
            if idx < len {
                let entry = chars_of(self.history[idx].as_str());
                let at = entry.len();
                self.mode = Mode::Input { prompt_inline, buffer: entry, cursor: at, allow_menu_toggle };
                self.history_cursor = Some(idx);
            } else {
                self.mode = Mode::Input { prompt_inline, buffer, cursor, allow_menu_toggle };
            }
        } else {
            match self.history_cursor {
                None => {
                    self.mode = Mode::Input { prompt_inline, buffer, cursor, allow_menu_toggle };
                },
                Some(i) => {
                    if i < len - 1 {
                        let entry = chars_of(self.history[i + 1].as_str());
                        let at = entry.len();
                        self.mode = Mode::Input {
                            prompt_inline,
                            buffer: entry,
                            cursor: at,
                            allow_menu_toggle,
                        };
                        self.history_cursor = Some(i + 1);
                    } else {
                        self.history_cursor = None;
                        match self.history_stash.take() {
                            Some(stash) => {
                                let at = stash.len();
                                self.mode = Mode::Input {
                                    prompt_inline,
                                    buffer: stash,
                                    cursor: at,
                                    allow_menu_toggle,
                                };
                            },
                            None => {
                                self.mode = Mode::Input {
                                    prompt_inline,
                                    buffer,
                                    cursor,
                                    allow_menu_toggle,
                                };
                            },
                        }
                    }
                },
            }
        }
        quiet_outcome(true)
    }

    /// Takes a key while the screen waits for a line, whose parts are handed in.
    fn input_key(
        &mut self,
        prompt_inline: String,
        buffer: Vec<char>,
        cursor: usize,
        allow_menu_toggle: bool,
        key: Key,
    ) -> (r: KeyOutcome)
        requires
            old(self).mode is Idle,
        ensures
            (final(self)@, r@) == input_step(
                old(self)@,
                prompt_inline@,
                buffer@,
                cursor as int,
                allow_menu_toggle,
                key,
            ),
    {
        match key.code {
            KeyCode::Enter => {
                return KeyOutcome {
                    quit: false,
                    changed: true,
                    event: None,
                    reply: Reply::Text(string_of(&buffer)),
                };
            },
            KeyCode::Up => {
                return self.browse_key(prompt_inline, buffer, cursor, allow_menu_toggle, true);
            },
            KeyCode::Down => {
                return self.browse_key(prompt_inline, buffer, cursor, allow_menu_toggle, false);
            },
            KeyCode::PageUp | KeyCode::PageDown => {
                self.mode = Mode::Input { prompt_inline, buffer, cursor, allow_menu_toggle };
                let changed = self.scroll_key(key.code);
                return quiet_outcome(changed);
            },
            KeyCode::Home | KeyCode::End => {
                if key.control {
                    self.mode = Mode::Input { prompt_inline, buffer, cursor, allow_menu_toggle };
                    let changed = self.scroll_key(key.code);
                    return quiet_outcome(changed);
                }
            },
            KeyCode::Char(c) => {
                if key.control && c == 'r' {
                    self.search(prompt_inline, allow_menu_toggle, Vec::new(), buffer);
                    return quiet_outcome(true);
                }
            },
            _ => {},
        }
        let mut buffer = buffer;
        let mut cursor = cursor;
        let edits = edit_line(&mut buffer, &mut cursor, key);
        self.mode = Mode::Input { prompt_inline, buffer, cursor, allow_menu_toggle };
        if edits {
            self.history_cursor = None;
        }
        quiet_outcome(edits)
    }

    /// Takes the key `key`: changes the screen as the key asks, and says
    /// what the key leads to.
    pub fn handle_key(&mut self, key: Key) -> (r: KeyOutcome)
        ensures
            (final(self)@, r@) == key_step(old(self)@, key),
    {
        match key.code {
            KeyCode::Esc => {
                let barred = match &self.mode {
                    Mode::Input { allow_menu_toggle, .. } => !*allow_menu_toggle,
                    Mode::Choice { allow_menu_toggle, .. } => !*allow_menu_toggle,
                    _ => false,
                };
                self.mode = Mode::Idle;
                return KeyOutcome {
                    quit: false,
                    changed: true,
                    event: if barred {
                        None
                    } else {
                        Some(UiEvent::ToggleMenu)
                    },
                    reply: Reply::Nothing,
                };
            },
            KeyCode::Char(c) => {
                if key.control && c == 'c' {
                    return KeyOutcome {
                        quit: true,
                        changed: true,
                        event: Some(UiEvent::Quit),
                        reply: Reply::Nothing,
                    };
                }
            },
            _ => {},
        }
        let mut mode = Mode::Idle;
        std::mem::swap(&mut self.mode, &mut mode);
        match mode {
            Mode::Idle => self.idle_key(key),
            Mode::Input { prompt_inline, buffer, cursor, allow_menu_toggle } => self.input_key(
                prompt_inline,
                buffer,
                cursor,
                allow_menu_toggle,
                key,
            ),
            Mode::Search {
                prompt_inline,
                buffer,
                allow_menu_toggle,
                query,
                original,
                match_index,
            } => self.search_key(
                prompt_inline,
                buffer,
                allow_menu_toggle,
                query,
                original,
                match_index,
                key,
            ),
            Mode::Choice { description, options, keys, allow_menu_toggle } => self.choice_key(
                description,
                options,
                keys,
                allow_menu_toggle,
                key,
            ),
        }
    }
    /// The text that stands above the line that is typed into.
    fn info_chars(&self) -> (r: Vec<char>)
        ensures
            r@ == info_text(self@),
    {
        match &self.mode {
            Mode::Idle => Vec::new(),
            Mode::Input { .. } => chars_of(self.info.as_str()),
            Mode::Search { query, .. } => {
                let mut out = chars_of("reverse-i-search: ");
                append_chars(&mut out, query);
                out
            },
            Mode::Choice { description, options, keys, .. } => {
                let ghost lines = choice_lines(
                    match description {
                        Some(d) => Some(d@),
                        None => None,
                    },
                    texts_of(options@),
                    texts_of(keys@),
                );
                let ghost shown = option_lines(texts_of(options@), texts_of(keys@));
                let ghost lead: int = if description is Some {
                    1
                } else {
                    0
                };
                let mut out: Vec<char> = Vec::new();
                match description {
                    Some(d) => {
                        out = chars_of(d.as_str());
                        assert(lines.take(1) =~= seq![d@]);
                    },
                    None => {
                        assert(lines.take(0) =~= Seq::<Seq<char>>::empty());
                    },
                }
                let n = if options.len() < keys.len() {
                    options.len()
                } else {
                    keys.len()
                };
                let ghost sep = seq!['\n'];
                let mut i: usize = 0;
                while i < n
                    invariant
                        i <= n,
                        n == shown.len(),
                        n <= options.len(),
                        n <= keys.len(),
                        shown == option_lines(texts_of(options@), texts_of(keys@)),
                        lead == if description is Some {
                            1int
                        } else {
                            0int
                        },
                        lines.len() == lead + n,
                        forall|k: int| 0 <= k < n ==> lines[lead + k] == shown[k],
                        sep == seq!['\n'],
                        out@ == join_all(lines.take(lead + i), sep),
                    decreases n - i,
                {
                    let ghost before = out@;
                    let first = match description {
                        Some(_) => false,
                        None => i == 0,
                    };
                    if !first {
                        out.push('\n');
                    }
                    out.push('(');
                    append_chars(&mut out, &chars_of(keys[i].as_str()));
                    out.push(')');
                    out.push(' ');
                    append_chars(&mut out, &chars_of(options[i].as_str()));
                    proof {
                        let next = lines.take(lead + i + 1);
                        assert(next.drop_last() =~= lines.take(lead + i));
                        assert(next.last() == shown[i as int]);
                        assert(shown[i as int] == option_line(keys[i as int]@, options[i as int]@));
                        assert(next.len() == lead + i + 1);
                        if first {
                            assert(lines.take(0).len() == 0);
                            assert(before =~= Seq::<char>::empty());
                            assert(out@ =~= next[0]);
                        } else {
                            assert(out@ =~= before + sep + next.last());
                        }
                    }
                    i += 1;
                }
                assert(lines.take(lines.len() as int) =~= lines);
                out
            },
        }
    }

    /// What is to be drawn on `height` rows of `width` columns; the screen
    /// takes note of how the output was laid out.
    pub fn frame(&mut self, width: usize, height: usize) -> (r: Frame)
        ensures
            r@ == frame_of(old(self)@, width, height),
            final(self)@ == drawn(old(self)@, width, height),
    {
        let info = self.info_chars();
        let mut prompt: Vec<char> = Vec::new();
        let mut before: Option<Vec<char>> = None;
        let mut in_prompt = false;
        let mut idle = false;
        match &self.mode {
            Mode::Input { prompt_inline, buffer, cursor, .. } => {
                prompt = chars_of(prompt_inline.as_str());
                let mut typed = copy_chars(&prompt);
                append_chars(&mut prompt, buffer);
                let c: usize = if *cursor > buffer.len() {
                    buffer.len()
                } else {
                    *cursor
                };
                let head = slice_chars(buffer, 0, c);
                append_chars(&mut typed, &head);
                assert(typed@ =~= prompt_inline@ + buffer@.take(c as int));
                before = Some(typed);
                in_prompt = true;
            },
            Mode::Search { prompt_inline, buffer, .. } => {
                prompt = chars_of(prompt_inline.as_str());
                append_chars(&mut prompt, buffer);
                before = Some(copy_chars(&info));
            },
            Mode::Idle => {
                idle = true;
            },
            _ => {},
        }
        let output_text = string_of(&self.output);
        let info_text = string_of(&info);
        let prompt_text = string_of(&prompt);
        let prompt_rows = wrapped_line_count(prompt_text.as_str(), width);
        let prompt_height = if prompt_rows < height {
            prompt_rows
        } else {
            height
        };
        let available = height - prompt_height;
        let info_height = if idle {
            0
        } else {
            let info_rows = wrapped_line_count(info_text.as_str(), width);
            let wanted = if info_rows < height {
                info_rows
            } else {
                height
            };
            if wanted < available {
                wanted
            } else {
                available
            }
        };
        let output_height = available - info_height;
        let rows = wrapped_line_count(output_text.as_str(), width);
        let max_scroll = if rows > output_height {
            rows - output_height
        } else {
            0
        };
        let scroll_offset = if self.auto_scroll || self.output_scroll > max_scroll {
            max_scroll
        } else {
            self.output_scroll
        };
        let cursor = match before {
            Some(t) => {
                if width > 0 && ((in_prompt && prompt_height > 0) || (!in_prompt && info_height > 0)) {
                    let text = string_of(&t);
                    let (row, col) = cursor_offset(text.as_str(), width);
                    Some(CursorPlace { in_prompt, row, col })
                } else {
                    None
                }
            },
            None => None,
        };
        self.last_layout = Some(Layout { output_height, max_scroll });
        Frame {
            output_text,
            info_text,
            prompt_text,
            output_height,
            info_height,
            prompt_height,
            scroll_offset,
            max_scroll,
            cursor,
        }
    }
}

} // verus!
