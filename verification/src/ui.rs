//! What the terminal front end computes: how a prompt is laid out, where
//! the cursor moves in a line that is edited, and how far the output scrolls.
//! A line that is edited is a buffer of characters, and a cursor is the
//! number of characters before it.

use crate::text::{
    chars_of, is_space, is_whitespace, last_before, occurs, occurs_at, occurs_at_index, rfind,
    slice_chars, string_of,
};
use crate::value::{nat_text, push_nat};
use vstd::prelude::*;

verus! {

/// What the user asks of the run from the keyboard.
#[derive(Clone, Copy, Debug, PartialEq, Eq, Structural)]
pub enum UiEvent {
    ToggleMenu,
    Quit,
}

/// What of the prompt `p` stands above the line that is typed into, and
/// what stands in it: the prompt up to its last line feed, and what is behind.
pub open spec fn prompt_parts(p: Seq<char>) -> (Seq<char>, Seq<char>) {
    let at = last_before(p, '\n', p.len() as int);
    if at < 0 {
        (Seq::empty(), p)
    } else {
        (p.take(at), p.skip(at + 1))
    }
}

/// What of `prompt` stands above the line that is typed into, and what stands in it.
pub fn split_prompt(prompt: &str) -> (r: (String, String))
    ensures
        (r.0@, r.1@) == prompt_parts(prompt@),
{
    let c = chars_of(prompt);
    match rfind(&c, '\n') {
        Some(at) => {
            let above = slice_chars(&c, 0, at);
            let inline = slice_chars(&c, at + 1, c.len());
            (string_of(&above), string_of(&inline))
        },
        None => (String::new(), string_of(&c)),
    }
}

/// The letter that stands for choice `i` where there are more than nine
/// choices: `a` for the first, and on through the characters behind it.
pub open spec fn choice_letter(i: nat) -> char {
    (((97 + (i % 256)) % 256) as u8) as char
}

/// The key of choice `i` of `n`: its number from 1 where there are nine
/// choices at most, else its letter.
pub open spec fn choice_key(n: nat, i: nat) -> Seq<char> {
    if n <= 9 {
        nat_text(i + 1)
    } else {
        seq![choice_letter(i)]
    }
}

/// The keys by which `n` choices are chosen.
pub fn build_choice_keys(n: usize) -> (keys: Vec<String>)
    ensures
        keys@.len() == n,
        forall|i: int| 0 <= i < n ==> (#[trigger] keys@[i])@ == choice_key(n as nat, i as nat),
{
    let mut keys: Vec<String> = Vec::new();
    let mut i: usize = 0;
    while i < n
        invariant
            i <= n,
            keys@.len() == i,
            forall|k: int| 0 <= k < i ==> (#[trigger] keys@[k])@ == choice_key(n as nat, k as nat),
        decreases n - i,
    {
        let mut key: Vec<char> = Vec::new();
        if n <= 9 {
            push_nat(&mut key, (i + 1) as u64);
        } else {
            let code: u8 = ((97 + (i % 256)) % 256) as u8;
            key.push(code as char);
            assert(key@ =~= seq![choice_letter(i as nat)]);
        }
        keys.push(string_of(&key));
        i += 1;
    }
    keys
}

/// The number of rows that a line of `len` characters takes at `width` columns.
pub open spec fn rows_of(len: nat, width: nat) -> nat {
    if len == 0 || width == 0 {
        1
    } else {
        ((len - 1) / width as int + 1) as nat
    }
}

/// The number of rows that `text` from place `from` on takes at `width`
/// columns, where the line that `from` stands in has `line` characters before `from`.
pub open spec fn rows_from(text: Seq<char>, width: nat, from: int, line: nat) -> nat
    decreases text.len() - from,
{
    if from < 0 || from >= text.len() {
        rows_of(line, width)
    } else if text[from] == '\n' {
        rows_of(line, width) + rows_from(text, width, from + 1, 0)
    } else {
        rows_from(text, width, from + 1, line + 1)
    }
}

/// The number of rows that `text` takes when it is wrapped at `width`
/// columns: none for no text or no width.
pub open spec fn wrapped_rows(text: Seq<char>, width: nat) -> nat {
    if text.len() == 0 || width == 0 {
        0
    } else {
        rows_from(text, width, 0, 0)
    }
}

/// The number of rows that `text` takes when it is wrapped at `width`
/// columns. A count beyond what a `usize` holds is given as the greatest `usize`.
pub fn wrapped_line_count(text: &str, width: usize) -> (count: usize)
    ensures
        count == if wrapped_rows(text@, width as nat) > usize::MAX {
            usize::MAX as nat
        } else {
            wrapped_rows(text@, width as nat)
        },
{
    let c = chars_of(text);
    if c.len() == 0 || width == 0 {
        return 0;
    }
    let mut count: u128 = 0;
    let mut line: usize = 0;
    let mut i: usize = 0;
    while i < c.len()
        invariant
            i <= c.len(),
            width > 0,
            c@ == text@,
            line <= i,
            count + line <= 2 * i,
            wrapped_rows(c@, width as nat) == count + rows_from(c@, width as nat, i as int, line as nat),
        decreases c.len() - i,
    {
        if c[i] == '\n' {
            let rows: usize = if line == 0 {
                1
            } else {
                (line - 1) / width + 1
            };
            assert(rows <= line + 1) by (nonlinear_arith)
                requires
                    width > 0,
                    rows == if line == 0 {
                        1
                    } else {
                        (line - 1) / width as int + 1
                    },
            {
                if line > 0 {
                    assert((line - 1) / width as int <= line - 1);
                }
            }
            count = count + rows as u128;
            line = 0;
        } else {
            line += 1;
        }
        i += 1;
    }
    let rows: usize = if line == 0 {
        1
    } else {
        (line - 1) / width + 1
    };
    let total: u128 = count + rows as u128;
    if total > usize::MAX as u128 {
        usize::MAX
    } else {
        total as usize
    }
}

/// Where the cursor stands behind the characters of `text` from `from` on,
/// at `width` columns, when it stood at row `row` and column `col` before them.
pub open spec fn offset_from(text: Seq<char>, width: nat, from: int, row: nat, col: nat) -> (nat, nat)
    decreases text.len() - from,
{
    if from < 0 || from >= text.len() {
        (row, col)
    } else if text[from] == '\n' {
        offset_from(text, width, from + 1, row + 1, 0)
    } else if col + 1 >= width {
        offset_from(text, width, from + 1, row + 1, 0)
    } else {
        offset_from(text, width, from + 1, row, col + 1)
    }
}

/// The row and the column at which the cursor stands behind `text` at `width` columns.
pub fn cursor_offset(text: &str, width: usize) -> (r: (usize, usize))
    ensures
        (r.0 as nat, r.1 as nat) == offset_from(text@, width as nat, 0, 0, 0),
{
    let c = chars_of(text);
    let mut row: usize = 0;
    let mut col: usize = 0;
    let mut i: usize = 0;
    while i < c.len()
        invariant
            i <= c.len(),
            c@ == text@,
            row <= i,
            col <= i,
            offset_from(c@, width as nat, 0, 0, 0) == offset_from(
                c@,
                width as nat,
                i as int,
                row as nat,
                col as nat,
            ),
        decreases c.len() - i,
    {
        if c[i] == '\n' {
            row += 1;
            col = 0;
        } else {
            col += 1;
            if col >= width {
                row += 1;
                col = 0;
            }
        }
        i += 1;
    }
    (row, col)
}

/// The place of the last entry of `history` at or before `from` that holds `query`.
pub open spec fn history_match(history: Seq<Seq<char>>, query: Seq<char>, from: int) -> Option<int>
    decreases from + 1,
{
    if from < 0 || from >= history.len() {
        None
    } else if occurs(history[from], query) {
        Some(from)
    } else {
        history_match(history, query, from - 1)
    }
}

/// Whether `needle` stands somewhere in `s`.
pub fn contains_text(s: &Vec<char>, needle: &Vec<char>) -> (r: bool)
    ensures
        r == occurs(s@, needle@),
{
    if needle.len() > s.len() {
        assert forall|i: int| !occurs_at(s@, i, needle@) by {}
        return false;
    }
    let last = s.len() - needle.len();
    let mut i: usize = 0;
    loop
        invariant
            i <= last,
            last == s.len() - needle.len(),
            forall|k: int| 0 <= k < i ==> !occurs_at(s@, k, needle@),
        decreases last - i,
    {
        if occurs_at_index(s, i, needle) {
            return true;
        }
        if i == last {
            assert forall|k: int| !occurs_at(s@, k, needle@) by {}
            return false;
        }
        i += 1;
    }
}

/// The place of the last entry of `history` that holds `query`, looking
/// back from `start_from`, or from the last entry.
pub fn find_history_match(history: &Vec<String>, query: &str, start_from: Option<usize>) -> (r:
    Option<usize>)
    requires
        match start_from {
            Some(s) => history.len() == 0 || s < history.len(),
            None => true,
        },
    ensures
        match r {
            Some(i) => i < history.len() && history_match(
                crate::model::texts_of(history@),
                query@,
                match start_from {
                    Some(s) => s as int,
                    None => history.len() - 1,
                },
            ) == Some(i as int),
            None => history_match(
                crate::model::texts_of(history@),
                query@,
                match start_from {
                    Some(s) => s as int,
                    None => history.len() - 1,
                },
            ) is None,
        },
{
    if history.len() == 0 {
        return None;
    }
    let q = chars_of(query);
    let ghost texts = crate::model::texts_of(history@);
    let start = match start_from {
        Some(s) => s,
        None => history.len() - 1,
    };
    let mut idx: usize = start;
    loop
        invariant
            idx < history.len(),
            q@ == query@,
            texts == crate::model::texts_of(history@),
            start == match start_from {
                Some(s) => s as int,
                None => history.len() - 1,
            },
            history_match(texts, query@, start as int) == history_match(texts, query@, idx as int),
        decreases idx,
    {
        let h = chars_of(history[idx].as_str());
        if contains_text(&h, &q) {
            return Some(idx);
        }
        if idx == 0 {
            return None;
        }
        idx -= 1;
    }
}

/// Whether `c` is a letter or a digit, as `char::is_alphanumeric` says.
pub uninterp spec fn alphanumeric(c: char) -> bool;

/// `char::is_alphanumeric`: whether `c` is a letter or a digit of any script.
#[verifier::external_body]
fn is_alphanumeric(c: char) -> (r: bool)
    ensures
        r == alphanumeric(c),
{
    c.is_alphanumeric()
}

/// A character of a word: a letter, a digit or an underscore.
pub open spec fn word_char(c: char) -> bool {
    alphanumeric(c) || c == '_'
}

/// Whether `ch` is a character of a word.
pub fn is_word_char(ch: char) -> (r: bool)
    ensures
        r == word_char(ch),
{
    is_alphanumeric(ch) || ch == '_'
}

/// The character at place `idx` of `text`; the null character behind its end.
pub fn char_at(text: &Vec<char>, idx: usize) -> (c: char)
    ensures
        c == if idx < text.len() {
            text@[idx as int]
        } else {
            '\0'
        },
{
    if idx < text.len() {
        text[idx]
    } else {
        '\0'
    }
}

/// The cursor one character back.
pub fn prev_char_index(text: &Vec<char>, cursor: usize) -> (r: usize)
    ensures
        r == if cursor == 0 {
            0
        } else if cursor > text.len() {
            text.len() as int
        } else {
            cursor - 1
        },
{
    if cursor == 0 {
        0
    } else if cursor > text.len() {
        text.len()
    } else {
        cursor - 1
    }
}

/// The cursor one character on.
pub fn next_char_index(text: &Vec<char>, cursor: usize) -> (r: usize)
    ensures
        r == if cursor < text.len() {
            cursor + 1
        } else {
            text.len() as int
        },
{
    if cursor < text.len() {
        cursor + 1
    } else {
        text.len()
    }
}

/// The cursor moved back over white space.
pub open spec fn back_over_space(s: Seq<char>, i: int) -> int
    decreases i,
{
    if i <= 0 || i > s.len() || !is_space(s[i - 1]) {
        i
    } else {
        back_over_space(s, i - 1)
    }
}

/// The cursor moved back to where the word before it begins: over
/// characters of a word where `word` holds, else over all that is no white space.
pub open spec fn back_over_word(s: Seq<char>, i: int, word: bool) -> int
    decreases i,
{
    if i <= 0 || i > s.len() || (word && !word_char(s[i - 1])) || (!word && is_space(s[i - 1])) {
        i
    } else {
        back_over_word(s, i - 1, word)
    }
}

/// Where the word before the cursor begins.
pub open spec fn word_start(s: Seq<char>, cursor: int) -> int {
    let i = back_over_space(s, cursor);
    if i <= 0 || i > s.len() {
        0
    } else {
        back_over_word(s, i, word_char(s[i - 1]))
    }
}

/// The cursor moved back to where the word before it begins.
pub fn prev_word_index(text: &Vec<char>, cursor: usize) -> (r: usize)
    requires
        cursor <= text.len(),
    ensures
        r == word_start(text@, cursor as int),
        r <= cursor,
{
    let mut i: usize = cursor;
    while i > 0 && is_whitespace(text[i - 1])
        invariant
            i <= cursor <= text.len(),
            back_over_space(text@, cursor as int) == back_over_space(text@, i as int),
        decreases i,
    {
        i -= 1;
    }
    if i == 0 {
        return 0;
    }
    let word = is_word_char(text[i - 1]);
    let ghost start = i;
    while i > 0 && !((word && !is_word_char(text[i - 1])) || (!word && is_whitespace(text[i - 1])))
        invariant
            i <= start <= cursor <= text.len(),
            back_over_word(text@, start as int, word) == back_over_word(text@, i as int, word),
        decreases i,
    {
        i -= 1;
    }
    i
}

/// The cursor moved on over white space.
pub open spec fn on_over_space(s: Seq<char>, i: int) -> int
    decreases s.len() - i,
{
    if i < 0 || i >= s.len() || !is_space(s[i]) {
        i
    } else {
        on_over_space(s, i + 1)
    }
}

/// The cursor moved on to where the word at it ends.
pub open spec fn on_over_word(s: Seq<char>, i: int, word: bool) -> int
    decreases s.len() - i,
{
    if i < 0 || i >= s.len() || (word && !word_char(s[i])) || (!word && is_space(s[i])) {
        i
    } else {
        on_over_word(s, i + 1, word)
    }
}

/// Where the word at or behind the cursor ends.
pub open spec fn word_end(s: Seq<char>, cursor: int) -> int {
    let i = on_over_space(s, cursor);
    if i < 0 || i >= s.len() {
        s.len() as int
    } else {
        on_over_word(s, i, word_char(s[i]))
    }
}

/// The cursor moved on to where the word at or behind it ends.
pub fn next_word_index(text: &Vec<char>, cursor: usize) -> (r: usize)
    ensures
        r == word_end(text@, cursor as int),
        r <= text.len(),
{
    if cursor >= text.len() {
        return text.len();
    }
    let mut i: usize = cursor;
    while i < text.len() && is_whitespace(text[i])
        invariant
            cursor <= i <= text.len(),
            on_over_space(text@, cursor as int) == on_over_space(text@, i as int),
        decreases text.len() - i,
    {
        i += 1;
    }
    if i >= text.len() {
        return text.len();
    }
    let word = is_word_char(text[i]);
    let ghost start = i;
    while i < text.len() && !((word && !is_word_char(text[i])) || (!word && is_whitespace(text[i])))
        invariant
            start <= i <= text.len(),
            on_over_word(text@, start as int, word) == on_over_word(text@, i as int, word),
        decreases text.len() - i,
    {
        i += 1;
    }
    i
}

/// Where the output stands after it was scrolled.
#[derive(Clone, Copy, Debug, PartialEq, Eq, Structural)]
pub struct Scroll {
    /// The first row that is shown.
    pub offset: usize,
    /// Whether the output follows what is written to it.
    pub follows: bool,
    /// Whether anything changed.
    pub changed: bool,
}

/// The output scrolled by `delta` rows from `current`, where `max_scroll`
/// is as far as it goes: it stops at both ends, and follows what is written
/// just when it stands at the far end.
pub open spec fn scrolled(current: int, follows: bool, max_scroll: int, delta: int) -> Scroll {
    if max_scroll == 0 {
        Scroll { offset: 0, follows: true, changed: false }
    } else {
        let wanted = current + delta;
        let next = if wanted < 0 {
            0
        } else if wanted > max_scroll {
            max_scroll
        } else {
            wanted
        };
        if next == current {
            Scroll { offset: current as usize, follows, changed: false }
        } else {
            Scroll { offset: next as usize, follows: next == max_scroll, changed: true }
        }
    }
}

/// Scrolls the output by `delta` rows.
pub fn scroll_output_delta(current: usize, follows: bool, max_scroll: usize, delta: i64) -> (r: Scroll)
    ensures
        r == scrolled(current as int, follows, max_scroll as int, delta as int),
{
    if max_scroll == 0 {
        return Scroll { offset: 0, follows: true, changed: false };
    }
    let wanted: i128 = current as i128 + delta as i128;
    let next: usize = if wanted < 0 {
        0
    } else if wanted > max_scroll as i128 {
        max_scroll
    } else {
        wanted as usize
    };
    if next == current {
        Scroll { offset: current, follows, changed: false }
    } else {
        Scroll { offset: next, follows: next == max_scroll, changed: true }
    }
}

} // verus!
