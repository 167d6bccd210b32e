//! Wildcard patterns: every character of a pattern stands for itself, but
//! for `*`, which stands for any text, the empty one too. A pattern matches
//! a text only as a whole.

use crate::text::{chars_of, slice_chars, string_of};
use vstd::prelude::*;

verus! {

/// Whether `pattern` matches all of `text`.
pub open spec fn wildcard_matches(pattern: Seq<char>, text: Seq<char>) -> bool
    decreases pattern.len(), text.len(),
{
    if pattern.len() == 0 {
        text.len() == 0
    } else if pattern[0] == '*' {
        wildcard_matches(pattern.skip(1), text) || (text.len() > 0 && wildcard_matches(
            pattern,
            text.skip(1),
        ))
    } else {
        text.len() > 0 && text[0] == pattern[0] && wildcard_matches(pattern.skip(1), text.skip(1))
    }
}

/// The greatest `k` up to `upto` such that `rest` matches `text` without its
/// first `k` characters; 0 if there is none.
pub open spec fn longest_star(rest: Seq<char>, text: Seq<char>, upto: int) -> int
    decreases upto,
{
    if upto <= 0 {
        0
    } else if upto <= text.len() && wildcard_matches(rest, text.skip(upto)) {
        upto
    } else {
        longest_star(rest, text, upto - 1)
    }
}

/// What the stars of `pattern` stand for in `text`, in order, where each
/// star in turn takes as much as the rest of the pattern allows.
pub open spec fn star_captures(pattern: Seq<char>, text: Seq<char>) -> Seq<Seq<char>>
    decreases pattern.len(),
{
    if pattern.len() == 0 {
        Seq::empty()
    } else if pattern[0] == '*' {
        let k = longest_star(pattern.skip(1), text, text.len() as int);
        seq![text.take(k)] + star_captures(pattern.skip(1), text.skip(k))
    } else {
        star_captures(pattern.skip(1), text.skip(1))
    }
}

/// What the stars of `pattern` stand for in `text`; nothing where `pattern`
/// does not match.
pub open spec fn captures_of(pattern: Seq<char>, text: Seq<char>) -> Seq<Seq<char>> {
    if wildcard_matches(pattern, text) {
        star_captures(pattern, text)
    } else {
        Seq::empty()
    }
}

/// `row[j]` says whether `pattern` from `j` on matches `text` from `i` on,
/// for every `j` before the end of `pattern`.
pub open spec fn is_row(row: Seq<bool>, pattern: Seq<char>, text: Seq<char>, i: int) -> bool {
    &&& row.len() == pattern.len()
    &&& forall|j: int|
        0 <= j < pattern.len() ==> #[trigger] row[j] == wildcard_matches(
            pattern.skip(j),
            text.skip(i),
        )
}

/// The entry `j` of a row, where the entry behind its end is `at_end`.
fn row_at(row: &Vec<bool>, j: usize, at_end: bool) -> (r: bool)
    requires
        j <= row.len(),
    ensures
        r == if j < row.len() {
            row@[j as int]
        } else {
            at_end
        },
{
    if j < row.len() {
        row[j]
    } else {
        at_end
    }
}

/// The row for position `i` of `text`, from the row `below` for `i + 1`.
fn match_row(pattern: &Vec<char>, text: &Vec<char>, i: usize, below: &Vec<bool>) -> (row: Vec<bool>)
    requires
        i <= text.len(),
        i < text.len() ==> is_row(below@, pattern@, text@, i + 1),
    ensures
        is_row(row@, pattern@, text@, i as int),
{
    let m = pattern.len();
    let n = text.len();
    let mut row: Vec<bool> = Vec::new();
    let mut k: usize = 0;
    while k < m
        invariant
            k <= m,
            row@.len() == k,
        decreases m - k,
    {
        row.push(false);
        k += 1;
    }
    let ghost t = text@.skip(i as int);
    assert(pattern@.skip(m as int).len() == 0);
    let mut j: usize = m;
    while j > 0
        invariant
            j <= m,
            m == pattern.len(),
            n == text.len(),
            i <= n,
            t == text@.skip(i as int),
            row@.len() == m,
            i < n ==> is_row(below@, pattern@, text@, i + 1),
            forall|q: int| j <= q < m ==> #[trigger] row@[q] == wildcard_matches(pattern@.skip(q), t),
        decreases j,
    {
        let p = j - 1;
        let ghost rest = pattern@.skip(p as int);
        assert(rest[0] == pattern@[p as int]);
        assert(rest.skip(1) == pattern@.skip(p + 1));
        assert(pattern@.skip(m as int).len() == 0);
        proof {
            let done = pattern@.skip(m as int);
            assert(wildcard_matches(done, t) == (i == n));
            if i < n {
                assert(t.skip(1) == text@.skip(i + 1));
                assert(t[0] == text@[i as int]);
                assert(wildcard_matches(done, t.skip(1)) == (i + 1 == n));
            }
        }
        let value = if pattern[p] == '*' {
            row_at(&row, p + 1, i == n) || (i < n && below[p])
        } else {
            i < n && text[i] == pattern[p] && row_at(below, p + 1, i + 1 == n)
        };
        row.set(p, value);
        j -= 1;
    }
    row
}

/// Whether `pattern` matches all of `text`.
pub fn wildcard_match_chars(pattern: &Vec<char>, text: &Vec<char>) -> (r: bool)
    ensures
        r == wildcard_matches(pattern@, text@),
{
    let n = text.len();
    let mut row = match_row(pattern, text, n, &Vec::new());
    let mut i: usize = n;
    while i > 0
        invariant
            i <= n,
            n == text.len(),
            is_row(row@, pattern@, text@, i as int),
        decreases i,
    {
        row = match_row(pattern, text, i - 1, &row);
        i -= 1;
    }
    assert(pattern@.skip(0) == pattern@);
    assert(text@.skip(0) == text@);
    row_at(&row, 0, n == 0)
}

/// Whether `pattern` matches all of `s`: `*` stands for any text, every
/// other character for itself.
pub fn wildcard_match(pattern: &str, s: &str) -> (r: bool)
    ensures
        r == wildcard_matches(pattern@, s@),
{
    let p = chars_of(pattern);
    let t = chars_of(s);
    wildcard_match_chars(&p, &t)
}

/// `rows[k]` is the row for position `text.len() - 1 - k`.
pub open spec fn is_table(rows: Seq<Vec<bool>>, pattern: Seq<char>, text: Seq<char>) -> bool {
    &&& rows.len() == text.len()
    &&& forall|k: int|
        0 <= k < rows.len() ==> is_row((#[trigger] rows[k])@, pattern, text, text.len() - 1 - k)
}

/// Whether `pattern` from `j` on matches `text` from `i` on, read off the table.
fn table_at(
    rows: &Vec<Vec<bool>>,
    last: &Vec<bool>,
    pattern: &Vec<char>,
    text: &Vec<char>,
    i: usize,
    j: usize,
) -> (r: bool)
    requires
        i <= text.len(),
        j <= pattern.len(),
        is_table(rows@, pattern@, text@),
        is_row(last@, pattern@, text@, text.len() as int),
    ensures
        r == wildcard_matches(pattern@.skip(j as int), text@.skip(i as int)),
{
    let n = text.len();
    assert(pattern@.skip(pattern@.len() as int).len() == 0);
    if i == n {
        assert(text@.skip(n as int).len() == 0);
        row_at(last, j, true)
    } else {
        let row = &rows[n - 1 - i];
        assert(is_row(row@, pattern@, text@, i as int));
        row_at(row, j, false)
    }
}

/// If a pattern that begins with a star matches, the longest text that the
/// star can take leaves a text that the rest matches.
pub proof fn lemma_longest_star(rest: Seq<char>, text: Seq<char>, upto: int, k: int)
    requires
        0 <= k <= upto <= text.len(),
        wildcard_matches(rest, text.skip(k)),
    ensures
        k <= longest_star(rest, text, upto) <= upto,
        wildcard_matches(rest, text.skip(longest_star(rest, text, upto))),
    decreases upto,
{
    if upto > 0 && !wildcard_matches(rest, text.skip(upto)) {
        lemma_longest_star(rest, text, upto - 1, k);
    }
}

/// A pattern that begins with a star matches a text just when its rest
/// matches the text from some position on.
pub proof fn lemma_star_takes_some(pattern: Seq<char>, text: Seq<char>)
    requires
        pattern.len() > 0,
        pattern[0] == '*',
    ensures
        wildcard_matches(pattern, text) <==> exists|k: int|
            0 <= k <= text.len() && wildcard_matches(pattern.skip(1), #[trigger] text.skip(k)),
    decreases text.len(),
{
    let rest = pattern.skip(1);
    assert(text.skip(0) == text);
    if text.len() > 0 {
        let tail = text.skip(1);
        lemma_star_takes_some(pattern, tail);
        if wildcard_matches(pattern, text) && !wildcard_matches(rest, text) {
            let k = choose|k: int| 0 <= k <= tail.len() && wildcard_matches(rest, tail.skip(k));
            assert(tail.skip(k) == text.skip(k + 1));
        }
        if exists|k: int| 0 <= k <= text.len() && wildcard_matches(rest, #[trigger] text.skip(k)) {
            let k = choose|k: int| 0 <= k <= text.len() && wildcard_matches(rest, text.skip(k));
            if k > 0 {
                assert(tail.skip(k - 1) == text.skip(k));
            }
        }
    } else {
        if exists|k: int| 0 <= k <= text.len() && wildcard_matches(rest, #[trigger] text.skip(k)) {
            let k = choose|k: int| 0 <= k <= text.len() && wildcard_matches(rest, text.skip(k));
            assert(k == 0);
        }
    }
}

/// What the stars of `pattern` stand for in `text`, where `pattern` matches.
fn star_captures_chars(pattern: &Vec<char>, text: &Vec<char>) -> (out: Vec<String>)
    requires
        wildcard_matches(pattern@, text@),
    ensures
        crate::model::texts_of(out@) == star_captures(pattern@, text@),
{
    let n = text.len();
    let m = pattern.len();
    let last = match_row(pattern, text, n, &Vec::new());
    let mut rows: Vec<Vec<bool>> = Vec::new();
    let mut r: usize = 0;
    while r < n
        invariant
            r <= n,
            n == text.len(),
            is_row(last@, pattern@, text@, n as int),
            rows@.len() == r,
            forall|k: int|
                0 <= k < r ==> is_row((#[trigger] rows@[k])@, pattern@, text@, n - 1 - k),
        decreases n - r,
    {
        let row = if r == 0 {
            match_row(pattern, text, n - 1, &last)
        } else {
            match_row(pattern, text, n - 1 - r, &rows[r - 1])
        };
        rows.push(row);
        r += 1;
    }
    let mut out: Vec<String> = Vec::new();
    let mut i: usize = 0;
    let mut j: usize = 0;
    assert(pattern@.skip(0) == pattern@);
    assert(text@.skip(0) == text@);
    assert(crate::model::texts_of(out@) =~= Seq::<Seq<char>>::empty());
    while j < m
        invariant
            i <= n,
            j <= m,
            n == text.len(),
            m == pattern.len(),
            is_table(rows@, pattern@, text@),
            is_row(last@, pattern@, text@, n as int),
            wildcard_matches(pattern@.skip(j as int), text@.skip(i as int)),
            star_captures(pattern@, text@) == crate::model::texts_of(out@) + star_captures(
                pattern@.skip(j as int),
                text@.skip(i as int),
            ),
        decreases m - j,
    {
        let ghost p = pattern@.skip(j as int);
        let ghost t = text@.skip(i as int);
        assert(p[0] == pattern@[j as int]);
        assert(p.skip(1) == pattern@.skip(j + 1));
        if pattern[j] == '*' {
            proof {
                lemma_star_takes_some(p, t);
                let w = choose|w: int| 0 <= w <= t.len() && wildcard_matches(p.skip(1), t.skip(w));
                lemma_longest_star(p.skip(1), t, t.len() as int, w);
            }
            let mut k: usize = n;
            while k > i && !table_at(&rows, &last, pattern, text, k, j + 1)
                invariant
                    i <= k <= n,
                    j < m,
                    n == text.len(),
                    m == pattern.len(),
                    is_table(rows@, pattern@, text@),
                    is_row(last@, pattern@, text@, n as int),
                    t == text@.skip(i as int),
                    p == pattern@.skip(j as int),
                    p.skip(1) == pattern@.skip(j + 1),
                    longest_star(p.skip(1), t, t.len() as int) == longest_star(
                        p.skip(1),
                        t,
                        k - i,
                    ),
                decreases k,
            {
                assert(t.skip(k - i) == text@.skip(k as int));
                k -= 1;
            }
            proof {
                if k > i {
                    assert(t.skip(k - i) == text@.skip(k as int));
                }
                assert(longest_star(p.skip(1), t, t.len() as int) == k - i);
                assert(t.skip(k - i) == text@.skip(k as int));
                assert(t.take(k - i) == text@.subrange(i as int, k as int));
            }
            let piece = slice_chars(text, i, k);
            let ghost before = out@;
            out.push(string_of(&piece));
            proof {
                assert(crate::model::texts_of(out@) =~= crate::model::texts_of(before).push(
                    piece@,
                ));
                assert(crate::model::texts_of(before) + (seq![piece@] + star_captures(
                    p.skip(1),
                    t.skip(k - i),
                )) =~= crate::model::texts_of(out@) + star_captures(p.skip(1), t.skip(k - i)));
            }
            i = k;
        } else {
            assert(t.len() > 0);
            assert(t.skip(1) == text@.skip(i + 1));
            i += 1;
        }
        j += 1;
    }
    assert(pattern@.skip(m as int).len() == 0);
    assert(crate::model::texts_of(out@) + Seq::<Seq<char>>::empty() == crate::model::texts_of(
        out@,
    ));
    out
}

/// What the stars of `pattern` stand for in `text`; nothing where `pattern` does not match.
pub fn wildcard_captures_chars(pattern: &Vec<char>, text: &Vec<char>) -> (out: Vec<String>)
    ensures
        crate::model::texts_of(out@) == captures_of(pattern@, text@),
{
    if wildcard_match_chars(pattern, text) {
        star_captures_chars(pattern, text)
    } else {
        let out: Vec<String> = Vec::new();
        assert(crate::model::texts_of(out@) =~= Seq::<Seq<char>>::empty());
        out
    }
}

/// What each `*` of `pattern` stands for in `text`, in order, each star in
/// turn taking as much as the rest of the pattern allows; nothing where
/// `pattern` does not match `text`.
pub fn wildcard_captures(pattern: &str, text: &str) -> (out: Vec<String>)
    ensures
        crate::model::texts_of(out@) == captures_of(pattern@, text@),
{
    let p = chars_of(pattern);
    let t = chars_of(text);
    wildcard_captures_chars(&p, &t)
}

/// A pattern without a star matches itself and nothing else.
pub proof fn lemma_literal_pattern(pattern: Seq<char>, text: Seq<char>)
    requires
        forall|i: int| 0 <= i < pattern.len() ==> pattern[i] != '*',
    ensures
        wildcard_matches(pattern, text) <==> pattern == text,
    decreases pattern.len(),
{
    if pattern.len() == 0 {
        assert(wildcard_matches(pattern, text) <==> text.len() == 0);
        if text.len() == 0 {
            assert(pattern =~= text);
        }
    } else {
        let rest = pattern.skip(1);
        if text.len() > 0 {
            lemma_literal_pattern(rest, text.skip(1));
            if text[0] == pattern[0] && rest == text.skip(1) {
                assert(pattern.len() == text.len());
                assert forall|i: int| 0 <= i < pattern.len() implies pattern[i] == text[i] by {
                    if i > 0 {
                        assert(rest[i - 1] == pattern[i]);
                        assert(text.skip(1)[i - 1] == text[i]);
                    }
                }
                assert(pattern =~= text);
            }
            if pattern == text {
                assert(rest == text.skip(1));
            }
        }
    }
}

/// A single star matches every text.
pub proof fn lemma_star_matches_all(text: Seq<char>)
    ensures
        wildcard_matches(seq!['*'], text),
    decreases text.len(),
{
    let star = seq!['*'];
    assert(star.skip(1).len() == 0);
    if text.len() > 0 {
        lemma_star_matches_all(text.skip(1));
    } else {
        assert(wildcard_matches(star.skip(1), text));
    }
}

/// A star stands for any text: where `before` matches `head` and `after`
/// matches `tail`, the pattern `before * after` matches `head`, any text
/// `middle`, `tail`.
pub proof fn lemma_star_stands_for_any(
    before: Seq<char>,
    after: Seq<char>,
    head: Seq<char>,
    middle: Seq<char>,
    tail: Seq<char>,
)
    requires
        wildcard_matches(before, head),
        wildcard_matches(after, tail),
    ensures
        wildcard_matches(before + seq!['*'] + after, head + middle + tail),
    decreases before.len(), head.len(), middle.len(),
{
    let pattern = before + seq!['*'] + after;
    let text = head + middle + tail;
    if before.len() == 0 {
        assert(head.len() == 0);
        assert(pattern.skip(1) =~= after);
        assert(pattern[0] == '*');
        if middle.len() == 0 {
            assert(text =~= tail);
        } else {
            lemma_star_stands_for_any(before, after, head, middle.skip(1), tail);
            assert(text.skip(1) =~= head + middle.skip(1) + tail);
        }
    } else if before[0] == '*' {
        assert(pattern[0] == '*');
        if wildcard_matches(before.skip(1), head) {
            lemma_star_stands_for_any(before.skip(1), after, head, middle, tail);
            assert(pattern.skip(1) =~= before.skip(1) + seq!['*'] + after);
        } else {
            lemma_star_stands_for_any(before, after, head.skip(1), middle, tail);
            assert(text.skip(1) =~= head.skip(1) + middle + tail);
        }
    } else {
        assert(pattern[0] == before[0]);
        lemma_star_stands_for_any(before.skip(1), after, head.skip(1), middle, tail);
        assert(pattern.skip(1) =~= before.skip(1) + seq!['*'] + after);
        assert(text.skip(1) =~= head.skip(1) + middle + tail);
        assert(text[0] == head[0]);
    }
}

} // verus!
