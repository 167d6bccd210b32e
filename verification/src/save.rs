//! Writing an object back into the text of a program: the members of the
//! object that a key is bound to are replaced in place, and everything
//! around them, comments and layout, stays as it was written.

use crate::parser::{lines_of, split_lines};
use crate::text::{append_chars, chars_of, join_all, last_before, rfind, slice_chars, string_of};
use vstd::prelude::*;

verus! {

/// Why an object cannot be written back.
#[derive(Clone, Copy, Debug, PartialEq, Eq, Structural)]
pub enum SpliceError {
    /// The key makes no regular expression.
    BadKey,
    /// The text binds the key to no object.
    KeyNotFound,
    /// The object that the key is bound to is not closed.
    Unclosed,
}

/// The pattern of a member that binds `key` to an object: the key, bare or
/// in quotes, a colon, and the brace that opens the object.
pub open spec fn key_pattern(key: Seq<char>) -> Seq<char> {
    "(['\"]?"@ + key + "['\"]?)\\s*:\\s*\\{"@
}

/// What `regex::Regex::find` finds of the regular expression `pattern` in
/// `text`: the text before the first match, the match, and the text behind
/// it. Nothing at all where `pattern` is no regular expression.
pub uninterp spec fn first_match(pattern: Seq<char>, text: Seq<char>) -> Option<
    Option<(Seq<char>, Seq<char>, Seq<char>)>,
>;

/// `regex::Regex::new` and `regex::Regex::find`: the first match of
/// `pattern` in `text`, with what stands before and behind it. The result
/// is a function of the two arguments; nothing else is claimed of it.
#[verifier::external_body]
fn find_first(pattern: &str, text: &str) -> (r: Option<Option<(String, String, String)>>)
    ensures
        match r {
            None => first_match(pattern@, text@) is None,
            Some(None) => first_match(pattern@, text@) == Some(
                None::<(Seq<char>, Seq<char>, Seq<char>)>,
            ),
            Some(Some(parts)) => first_match(pattern@, text@) == Some(
                Some((parts.0@, parts.1@, parts.2@)),
            ),
        },
{
    let re = regex::Regex::new(pattern).ok()?;
    match re.find(text) {
        Some(m) => Some(
            Some((text[..m.start()].to_string(), m.as_str().to_string(), text[m.end()..].to_string())),
        ),
        None => Some(None),
    }
}

/// The place at or after `from` of the brace that closes an object in
/// which `level` braces are open.
pub open spec fn closing_brace(s: Seq<char>, from: int, level: int) -> Option<int>
    decreases s.len() - from,
{
    if from < 0 || from >= s.len() {
        None
    } else {
        let next = if s[from] == '{' {
            level + 1
        } else if s[from] == '}' {
            level - 1
        } else {
            level
        };
        if next == 0 {
            Some(from)
        } else {
            closing_brace(s, from + 1, next)
        }
    }
}

/// What stands in the last line of `before`: the indentation of a member
/// that begins behind `before`.
pub open spec fn indent_of(before: Seq<char>) -> Seq<char> {
    before.skip(last_before(before, '\n', before.len() as int) + 1)
}

/// The lines of `dumped` but the first and the last, each behind `indent`.
pub open spec fn inner_lines(dumped: Seq<char>, indent: Seq<char>) -> Seq<Seq<char>> {
    let lines = lines_of(dumped);
    Seq::new(
        if lines.len() >= 2 {
            (lines.len() - 2) as nat
        } else {
            0
        },
        |i: int| indent + lines[i + 1],
    )
}

/// What takes the place of the members of the object: the inner lines of
/// `dumped`, each on a line of its own, and the indentation of the brace
/// that closes the object.
pub open spec fn replacement(dumped: Seq<char>, indent: Seq<char>) -> Seq<char> {
    seq!['\n'] + join_all(inner_lines(dumped, indent), seq!['\n']) + seq!['\n'] + indent
}

/// The text made of `before`, of `matched`, which ends with the brace that
/// opens an object, and of `after`, with the members of that object
/// replaced by the inner lines of `dumped`.
pub open spec fn spliced(
    before: Seq<char>,
    matched: Seq<char>,
    after: Seq<char>,
    dumped: Seq<char>,
) -> Result<Seq<char>, SpliceError> {
    match closing_brace(after, 0, 1) {
        None => Err(SpliceError::Unclosed),
        Some(end) => Ok(before + matched + replacement(dumped, indent_of(before)) + after.skip(end)),
    }
}

/// What becomes of `content` when the object that it binds `key` to gets
/// the members that `dumped` shows.
pub open spec fn spliced_key(content: Seq<char>, key: Seq<char>, dumped: Seq<char>) -> Result<
    Seq<char>,
    SpliceError,
> {
    match first_match(key_pattern(key), content) {
        None => Err(SpliceError::BadKey),
        Some(None) => Err(SpliceError::KeyNotFound),
        Some(Some(parts)) => spliced(parts.0, parts.1, parts.2, dumped),
    }
}

/// The place of the brace that closes the object whose members `s` begins with.
fn find_closing(s: &Vec<char>) -> (r: Option<usize>)
    ensures
        match r {
            Some(end) => closing_brace(s@, 0, 1) == Some(end as int) && end < s.len(),
            None => closing_brace(s@, 0, 1) is None,
        },
{
    let mut level: u128 = 1;
    let mut i: usize = 0;
    while i < s.len()
        invariant
            i <= s.len(),
            1 <= level <= i + 1,
            closing_brace(s@, 0, 1) == closing_brace(s@, i as int, level as int),
        decreases s.len() - i,
    {
        if s[i] == '{' {
            level += 1;
        } else if s[i] == '}' {
            level -= 1;
        }
        if level == 0 {
            return Some(i);
        }
        i += 1;
    }
    None
}

/// Replaces the members of the object that begins at the end of `matched`
/// by the inner lines of `dumped`, which is the object as it is to be written.
pub fn splice_at(before: &str, matched: &str, after: &str, dumped: &str) -> (r: Result<
    String,
    SpliceError,
>)
    ensures
        match r {
            Ok(t) => spliced(before@, matched@, after@, dumped@) == Ok::<Seq<char>, SpliceError>(t@),
            Err(e) => spliced(before@, matched@, after@, dumped@) == Err::<Seq<char>, SpliceError>(
                e,
            ),
        },
{
    let rest = chars_of(after);
    let end = match find_closing(&rest) {
        Some(end) => end,
        None => {
            return Err(SpliceError::Unclosed);
        },
    };
    let head = chars_of(before);
    let indent = match rfind(&head, '\n') {
        Some(at) => slice_chars(&head, at + 1, head.len()),
        None => slice_chars(&head, 0, head.len()),
    };
    assert(indent@ =~= indent_of(before@));
    let lines = split_lines(dumped);
    let ghost texts = lines_of(dumped@);
    let ghost inner = inner_lines(dumped@, indent@);
    let mut body: Vec<char> = Vec::new();
    let count: usize = if lines.len() >= 2 {
        lines.len() - 2
    } else {
        0
    };
    let mut i: usize = 0;
    assert(inner.take(0) =~= Seq::<Seq<char>>::empty());
    while i < count
        invariant
            i <= count,
            count == inner.len(),
            count + 2 <= lines.len() || count == 0,
            texts == crate::model::texts_of(lines@),
            inner == inner_lines(dumped@, indent@),
            texts == lines_of(dumped@),
            body@ == join_all(inner.take(i as int), seq!['\n']),
        decreases count - i,
    {
        let ghost old_body = body@;
        if i > 0 {
            body.push('\n');
        }
        append_chars(&mut body, &indent);
        append_chars(&mut body, &chars_of(lines[i + 1].as_str()));
        proof {
            let next = inner.take(i + 1);
            assert(next.drop_last() =~= inner.take(i as int));
            assert(next.last() == indent@ + texts[i + 1]);
            if i == 0 {
                assert(old_body =~= Seq::<char>::empty());
                assert(body@ =~= next[0]);
            } else {
                assert(body@ =~= old_body + seq!['\n'] + next.last());
            }
        }
        i += 1;
    }
    assert(inner.take(inner.len() as int) =~= inner);
    let mut out = head;
    append_chars(&mut out, &chars_of(matched));
    out.push('\n');
    append_chars(&mut out, &body);
    out.push('\n');
    append_chars(&mut out, &indent);
    let tail = slice_chars(&rest, end, rest.len());
    append_chars(&mut out, &tail);
    assert(out@ =~= before@ + matched@ + replacement(dumped@, indent@) + after@.skip(end as int));
    Ok(string_of(&out))
}

/// The pattern of a member that binds `key` to an object.
fn pattern_for(key: &str) -> (p: String)
    ensures
        p@ == key_pattern(key@),
{
    let mut out = chars_of("(['\"]?");
    append_chars(&mut out, &chars_of(key));
    append_chars(&mut out, &chars_of("['\"]?)\\s*:\\s*\\{"));
    string_of(&out)
}

/// Writes the object that `dumped` shows, one member on each of its inner
/// lines, in place of the object that `content` binds `key` to. The key
/// stands in a regular expression as it is.
pub fn splice_key_into_json5(content: &str, key: &str, dumped: &str) -> (r: Result<
    String,
    SpliceError,
>)
    ensures
        match r {
            Ok(t) => spliced_key(content@, key@, dumped@) == Ok::<Seq<char>, SpliceError>(t@),
            Err(e) => spliced_key(content@, key@, dumped@) == Err::<Seq<char>, SpliceError>(e),
        },
{
    let pattern = pattern_for(key);
    match find_first(pattern.as_str(), content) {
        None => Err(SpliceError::BadKey),
        Some(None) => Err(SpliceError::KeyNotFound),
        Some(Some(parts)) => splice_at(
            parts.0.as_str(),
            parts.1.as_str(),
            parts.2.as_str(),
            dumped,
        ),
    }
}

} // verus!
