//! The file of what was typed before: entries that may span lines, each
//! ended by a record separator on a line of its own.

use crate::parser::{lemma_first_from_skip, lines_of, split_lines};
use crate::text::{chars_of, find_from, first_from, slice_chars, string_of};
use vstd::prelude::*;

verus! {

/// The record separator.
pub const HISTORY_RS: char = '\u{1e}';

/// What is appended to the history for the entry `text`.
pub fn history_record(text: &str) -> (r: String)
    ensures
        r@ == text@ + seq!['\n', '\u{1e}', '\n'],
{
    let mut out = chars_of(text);
    out.push('\n');
    out.push(HISTORY_RS);
    out.push('\n');
    assert(out@ =~= text@ + seq!['\n', '\u{1e}', '\n']);
    string_of(&out)
}

/// The number of line feeds at the beginning of `s`.
pub open spec fn leading_feeds(s: Seq<char>) -> nat
    decreases s.len(),
{
    if s.len() > 0 && s[0] == '\n' {
        1 + leading_feeds(s.skip(1))
    } else {
        0
    }
}

/// The number of line feeds at the end of `s`.
pub open spec fn trailing_feeds(s: Seq<char>) -> nat
    decreases s.len(),
{
    if s.len() > 0 && s[s.len() - 1] == '\n' {
        1 + trailing_feeds(s.take(s.len() - 1))
    } else {
        0
    }
}

/// `s` without the line feeds at its beginning and at its end.
pub open spec fn without_feeds(s: Seq<char>) -> Seq<char> {
    let t = s.take(s.len() - trailing_feeds(s));
    t.skip(leading_feeds(t) as int)
}

/// `acc` with the entry `piece` behind it, without the line feeds around
/// it where `strip` holds, unless nothing is left of it.
pub open spec fn with_entry(acc: Seq<Seq<char>>, piece: Seq<char>, strip: bool) -> Seq<Seq<char>> {
    let entry = if strip {
        without_feeds(piece)
    } else {
        piece
    };
    if entry.len() > 0 {
        acc.push(entry)
    } else {
        acc
    }
}

/// `acc` followed by the entries of `s`, which record separators part.
pub open spec fn separated_entries(s: Seq<char>, acc: Seq<Seq<char>>) -> Seq<Seq<char>>
    decreases s.len(),
{
    let end = first_from(s, '\u{1e}', 0);
    if end < 0 || end >= s.len() {
        with_entry(acc, s, true)
    } else {
        separated_entries(s.skip(end + 1), with_entry(acc, s.take(end), true))
    }
}

/// `acc` followed by the lines of `lines` from `from` on that are not empty.
pub open spec fn filled_lines(lines: Seq<Seq<char>>, from: int, acc: Seq<Seq<char>>) -> Seq<
    Seq<char>,
>
    decreases lines.len() - from,
{
    if from < 0 || from >= lines.len() {
        acc
    } else {
        filled_lines(lines, from + 1, with_entry(acc, lines[from], false))
    }
}

/// The entries of the history `raw`: what record separators part, where
/// it holds any, else its lines; without empty entries.
pub open spec fn history_entries(raw: Seq<char>) -> Seq<Seq<char>> {
    if first_from(raw, '\u{1e}', 0) < raw.len() {
        separated_entries(raw, Seq::empty())
    } else {
        filled_lines(lines_of(raw), 0, Seq::empty())
    }
}

fn strip_feeds(s: &Vec<char>) -> (r: Vec<char>)
    ensures
        r@ == without_feeds(s@),
{
    let mut end: usize = s.len();
    assert(s@.take(s.len() as int) == s@);
    while end > 0 && s[end - 1] == '\n'
        invariant
            end <= s.len(),
            trailing_feeds(s@) == (s.len() - end) + trailing_feeds(s@.take(end as int)),
        decreases end,
    {
        assert(s@.take(end as int).take(end - 1) == s@.take(end - 1));
        end -= 1;
    }
    let ghost t = s@.take(end as int);
    let mut start: usize = 0;
    assert(t.skip(0) == t);
    while start < end && s[start] == '\n'
        invariant
            start <= end <= s.len(),
            t == s@.take(end as int),
            leading_feeds(t) == start + leading_feeds(t.skip(start as int)),
        decreases end - start,
    {
        assert(t.skip(start as int).skip(1) == t.skip(start + 1));
        start += 1;
    }
    let r = slice_chars(s, start, end);
    assert(r@ == t.skip(start as int));
    r
}

fn push_entry(out: &mut Vec<String>, piece: &Vec<char>, strip: bool)
    ensures
        crate::model::texts_of(final(out)@) == with_entry(
            crate::model::texts_of(old(out)@),
            piece@,
            strip,
        ),
{
    let ghost before = out@;
    if strip {
        let e = strip_feeds(piece);
        if e.len() > 0 {
            out.push(string_of(&e));
            assert(crate::model::texts_of(out@) =~= crate::model::texts_of(before).push(e@));
        }
    } else if piece.len() > 0 {
        out.push(string_of(piece));
        assert(crate::model::texts_of(out@) =~= crate::model::texts_of(before).push(piece@));
    }
}

/// The entries of the history `raw`.
pub fn parse_history(raw: &str) -> (entries: Vec<String>)
    ensures
        crate::model::texts_of(entries@) == history_entries(raw@),
{
    let c = chars_of(raw);
    let mut out: Vec<String> = Vec::new();
    assert(crate::model::texts_of(out@) =~= Seq::<Seq<char>>::empty());
    if find_from(&c, HISTORY_RS, 0) < c.len() {
        let mut start: usize = 0;
        assert(c@.skip(0) == c@);
        loop
            invariant
                start <= c.len(),
                c@ == raw@,
                first_from(c@, '\u{1e}', 0) < c@.len(),
                separated_entries(c@, Seq::empty()) == separated_entries(
                    c@.skip(start as int),
                    crate::model::texts_of(out@),
                ),
            decreases c.len() - start,
        {
            let end = find_from(&c, HISTORY_RS, start);
            proof {
                lemma_first_from_skip(c@, '\u{1e}', start as int, start as int);
            }
            let ghost rest = c@.skip(start as int);
            if end >= c.len() {
                let piece = slice_chars(&c, start, c.len());
                assert(piece@ == rest);
                push_entry(&mut out, &piece, true);
                return out;
            }
            let piece = slice_chars(&c, start, end);
            assert(piece@ == rest.take(end - start));
            assert(rest.skip(end - start + 1) == c@.skip(end + 1));
            push_entry(&mut out, &piece, true);
            start = end + 1;
        }
    } else {
        let lines = split_lines(raw);
        let ghost texts = crate::model::texts_of(lines@);
        let mut i: usize = 0;
        while i < lines.len()
            invariant
                i <= lines.len(),
                texts == crate::model::texts_of(lines@),
                filled_lines(texts, 0, Seq::empty()) == filled_lines(
                    texts,
                    i as int,
                    crate::model::texts_of(out@),
                ),
            decreases lines.len() - i,
        {
            let l = chars_of(lines[i].as_str());
            push_entry(&mut out, &l, false);
            i += 1;
        }
        out
    }
}

} // verus!
