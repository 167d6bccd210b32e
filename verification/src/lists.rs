//! The list commands: positions count from 1, and a negative position counts
//! from the end.

use crate::error::ExecError;
use crate::text::{append_chars, chars_of, join_all, string_of};
use crate::value::{
    json_equal, lemma_list_view, list_view, push_rendered, render, Json, Value,
};
use vstd::prelude::*;

verus! {

/// The place in a list of `len` items that the position `idx` means: `idx -
/// 1` for a positive position, `len + idx` for a negative one.
pub open spec fn index_position(idx: int, len: int) -> Option<int> {
    if 0 < idx <= len {
        Some(idx - 1)
    } else if idx < 0 && len + idx >= 0 {
        Some(len + idx)
    } else {
        None
    }
}

/// The place that `idx` means, or why it means none.
pub open spec fn checked_position(idx: int, len: int) -> Result<int, ExecError> {
    if idx == 0 {
        Err(ExecError::IndexZero)
    } else {
        match index_position(idx, len) {
            Some(p) => Ok(p),
            None => Err(ExecError::IndexOutOfBounds),
        }
    }
}

/// The item of `list` at position `idx`.
pub open spec fn item_at(list: Seq<Json>, idx: int) -> Result<Json, ExecError> {
    match checked_position(idx, list.len() as int) {
        Ok(p) => Ok(list[p]),
        Err(e) => Err(e),
    }
}

/// The first and last place of the slice from position `from` to position `to`.
pub open spec fn slice_places(from: int, to: int, len: int) -> Result<(int, int), ExecError> {
    let start = if from > 0 {
        from - 1
    } else {
        len + from
    };
    let end = if to > 0 {
        to - 1
    } else {
        len + to
    };
    if from == 0 {
        Err(ExecError::SliceLowerZero)
    } else if start < 0 || end < 0 || start >= len || end >= len {
        Err(ExecError::SliceOutOfBounds)
    } else {
        Ok((start, end))
    }
}

/// The items of `list` from position `from` to position `to`, both
/// included. None where `to` is 0 or the slice ends before it begins.
pub open spec fn slice_of(list: Seq<Json>, from: int, to: int) -> Result<Seq<Json>, ExecError> {
    if to == 0 {
        Ok(Seq::empty())
    } else {
        match slice_places(from, to, list.len() as int) {
            Err(e) => Err(e),
            Ok((start, end)) => if end < start {
                Ok(Seq::empty())
            } else {
                Ok(list.subrange(start, end + 1))
            },
        }
    }
}

/// The texts of the items of `list`, in order.
pub open spec fn rendered(list: Seq<Json>) -> Seq<Seq<char>> {
    Seq::new(list.len(), |i: int| render(list[i]))
}

/// `before`, the texts of the items with `between` between them, `after`.
pub open spec fn joined(
    list: Seq<Json>,
    before: Seq<char>,
    between: Seq<char>,
    after: Seq<char>,
) -> Seq<char> {
    before + join_all(rendered(list), between) + after
}

/// The items of the lists of `lists`, one list after the other; none where
/// an item of `lists` is no list.
pub open spec fn concatenated(lists: Seq<Json>) -> Option<Seq<Json>>
    decreases lists.len(),
{
    if lists.len() == 0 {
        Some(Seq::empty())
    } else {
        match (concatenated(lists.take(lists.len() - 1)), lists[lists.len() - 1]) {
            (Some(front), Json::List(a)) => Some(front + a),
            _ => None,
        }
    }
}

/// The first place at or after `from` whose item equals `item`, or `list.len()`.
pub open spec fn first_equal(list: Seq<Json>, item: Json, from: int) -> int
    decreases list.len() - from,
{
    if from < 0 || from >= list.len() {
        list.len() as int
    } else if json_equal(list[from], item) {
        from
    } else {
        first_equal(list, item, from + 1)
    }
}

/// `list` without the first item that equals `item`.
pub open spec fn without_first(list: Seq<Json>, item: Json) -> Seq<Json> {
    let p = first_equal(list, item, 0);
    if p < list.len() {
        list.take(p) + list.skip(p + 1)
    } else {
        list
    }
}

/// The place in a list of `len` items that the position `idx` means.
pub fn eval_index(idx: i64, len: usize) -> (r: Result<usize, ExecError>)
    ensures
        match r {
            Ok(p) => checked_position(idx as int, len as int) == Ok::<int, ExecError>(p as int) && p
                < len,
            Err(e) => checked_position(idx as int, len as int) == Err::<int, ExecError>(e),
        },
{
    if idx == 0 {
        return Err(ExecError::IndexZero);
    }
    let pos: i128 = if idx > 0 {
        idx as i128 - 1
    } else {
        len as i128 + idx as i128
    };
    if pos < 0 || pos >= len as i128 {
        return Err(ExecError::IndexOutOfBounds);
    }
    Ok(pos as usize)
}

/// Whether the position `idx` means no place in a list of `len` items.
pub fn is_index_out_of_bounds(idx: i64, len: usize) -> (r: bool)
    ensures
        r == (index_position(idx as int, len as int) is None),
{
    match eval_index(idx, len) {
        Ok(_) => false,
        Err(_) => true,
    }
}

/// The first and last place of the slice from position `from` to position `to`.
pub fn slice_indices(from: i64, to: i64, len: usize) -> (r: Result<(usize, usize), ExecError>)
    ensures
        match r {
            Ok((s, e)) => slice_places(from as int, to as int, len as int) == Ok::<
                (int, int),
                ExecError,
            >((s as int, e as int)) && s < len && e < len,
            Err(e) => slice_places(from as int, to as int, len as int) == Err::<
                (int, int),
                ExecError,
            >(e),
        },
{
    let start: i128 = if from > 0 {
        from as i128 - 1
    } else {
        len as i128 + from as i128
    };
    let end: i128 = if to > 0 {
        to as i128 - 1
    } else {
        len as i128 + to as i128
    };
    if from == 0 {
        return Err(ExecError::SliceLowerZero);
    }
    if start < 0 || end < 0 || start >= len as i128 || end >= len as i128 {
        return Err(ExecError::SliceOutOfBounds);
    }
    Ok((start as usize, end as usize))
}

/// Copies of the items of `list` from place `start` up to, not including, place `end`.
pub fn copy_range(list: &Vec<Value>, start: usize, end: usize) -> (out: Vec<Value>)
    requires
        start <= end <= list.len(),
    ensures
        list_view(out@) == list_view(list@).subrange(start as int, end as int),
{
    let mut out: Vec<Value> = Vec::new();
    let mut i: usize = start;
    while i < end
        invariant
            start <= i <= end <= list.len(),
            out@.len() == i - start,
            forall|k: int| 0 <= k < out@.len() ==> out@[k]@ == list@[start + k]@,
        decreases end - i,
    {
        out.push(list[i].clone());
        i += 1;
    }
    proof {
        lemma_list_view(out@);
        lemma_list_view(list@);
        assert(list_view(out@) =~= list_view(list@).subrange(start as int, end as int));
    }
    out
}

/// The item of `list` at position `index`: the first item is at 1, the last
/// at -1, and 0 is no position.
pub fn list_index(list: &Vec<Value>, index: i64) -> (r: Result<Value, ExecError>)
    ensures
        match r {
            Ok(v) => item_at(list_view(list@), index as int) == Ok::<Json, ExecError>(v@),
            Err(e) => item_at(list_view(list@), index as int) == Err::<Json, ExecError>(e),
        },
{
    proof {
        lemma_list_view(list@);
    }
    match eval_index(index, list.len()) {
        Ok(p) => Ok(list[p].clone()),
        Err(e) => Err(e),
    }
}

/// The items of `list` from position `from_index` to position `to_index`,
/// both included.
pub fn list_slice(list: &Vec<Value>, from_index: i64, to_index: i64) -> (r: Result<
    Vec<Value>,
    ExecError,
>)
    ensures
        match r {
            Ok(v) => slice_of(list_view(list@), from_index as int, to_index as int) == Ok::<
                Seq<Json>,
                ExecError,
            >(list_view(v@)),
            Err(e) => slice_of(list_view(list@), from_index as int, to_index as int) == Err::<
                Seq<Json>,
                ExecError,
            >(e),
        },
{
    proof {
        lemma_list_view(list@);
    }
    if to_index == 0 {
        let out: Vec<Value> = Vec::new();
        proof {
            lemma_list_view(out@);
            assert(list_view(out@) =~= Seq::<Json>::empty());
        }
        return Ok(out);
    }
    let (start, end) = match slice_indices(from_index, to_index, list.len()) {
        Ok(p) => p,
        Err(e) => {
            return Err(e);
        },
    };
    if end < start {
        let out: Vec<Value> = Vec::new();
        proof {
            lemma_list_view(out@);
            assert(list_view(out@) =~= Seq::<Json>::empty());
        }
        return Ok(out);
    }
    Ok(copy_range(list, start, end + 1))
}

/// `list` with `item` behind its last item.
pub fn list_append(list: &Vec<Value>, item: Value) -> (out: Vec<Value>)
    ensures
        list_view(out@) == list_view(list@).push(item@),
{
    let mut out = copy_range(list, 0, list.len());
    let ghost before = out@;
    out.push(item);
    proof {
        lemma_list_view(list@);
        assert(out@.take(out@.len() - 1) == before);
        assert(list_view(list@).subrange(0, list@.len() as int) == list_view(list@));
    }
    out
}

/// `list` without the first item that equals `item`.
pub fn list_remove(list: &Vec<Value>, item: &Value) -> (out: Vec<Value>)
    ensures
        list_view(out@) == without_first(list_view(list@), item@),
{
    let ghost items = list_view(list@);
    proof {
        lemma_list_view(list@);
    }
    let mut p: usize = 0;
    while p < list.len() && !list[p].equals(item)
        invariant
            p <= list.len(),
            items == list_view(list@),
            items.len() == list@.len(),
            forall|k: int| 0 <= k < items.len() ==> items[k] == list@[k]@,
            first_equal(items, item@, 0) == first_equal(items, item@, p as int),
        decreases list.len() - p,
    {
        p += 1;
    }
    if p < list.len() {
        let mut out = copy_range(list, 0, p);
        let tail = copy_range(list, p + 1, list.len());
        let ghost front = out@;
        let mut i: usize = 0;
        while i < tail.len()
            invariant
                i <= tail.len(),
                out@.len() == front.len() + i,
                forall|k: int| 0 <= k < front.len() ==> out@[k]@ == front[k]@,
                forall|k: int| 0 <= k < i ==> out@[front.len() + k]@ == tail@[k]@,
            decreases tail.len() - i,
        {
            out.push(tail[i].clone());
            i += 1;
        }
        proof {
            lemma_list_view(out@);
            lemma_list_view(front);
            lemma_list_view(tail@);
            assert(list_view(out@) =~= list_view(front) + list_view(tail@));
            assert(items.subrange(0, p as int) == items.take(p as int));
            assert(items.subrange(p + 1, items.len() as int) == items.skip(p + 1));
        }
        out
    } else {
        let out = copy_range(list, 0, list.len());
        assert(items.subrange(0, items.len() as int) == items);
        out
    }
}

/// The items of the lists of `lists`, one list after the other.
pub fn list_concat(lists: &Vec<Value>) -> (r: Result<Vec<Value>, ExecError>)
    ensures
        match r {
            Ok(out) => concatenated(list_view(lists@)) == Some(list_view(out@)),
            Err(e) => e == ExecError::ConcatNotLists && concatenated(list_view(lists@)) is None,
        },
{
    let ghost items = list_view(lists@);
    let mut out: Vec<Value> = Vec::new();
    let mut i: usize = 0;
    proof {
        lemma_list_view(lists@);
        lemma_list_view(out@);
        assert(items.take(0) == Seq::<Json>::empty());
        assert(list_view(out@) =~= Seq::<Json>::empty());
    }
    while i < lists.len()
        invariant
            i <= lists.len(),
            items == list_view(lists@),
            items.len() == lists@.len(),
            forall|k: int| 0 <= k < items.len() ==> items[k] == lists@[k]@,
            concatenated(items.take(i as int)) == Some(list_view(out@)),
        decreases lists.len() - i,
    {
        assert(items.take(i + 1).take(i as int) == items.take(i as int));
        match &lists[i] {
            Value::Array(a) => {
                let ghost before = out@;
                let mut k: usize = 0;
                while k < a.len()
                    invariant
                        k <= a.len(),
                        out@.len() == before.len() + k,
                        forall|q: int| 0 <= q < before.len() ==> out@[q]@ == before[q]@,
                        forall|q: int| 0 <= q < k ==> out@[before.len() + q]@ == a@[q]@,
                    decreases a.len() - k,
                {
                    out.push(a[k].clone());
                    k += 1;
                }
                proof {
                    lemma_list_view(out@);
                    lemma_list_view(before);
                    lemma_list_view(a@);
                    assert(list_view(out@) =~= list_view(before) + list_view(a@));
                }
            },
            _ => {
                proof {
                    lemma_concat_fails(items, i as int);
                }
                return Err(ExecError::ConcatNotLists);
            },
        }
        i += 1;
    }
    assert(items.take(items.len() as int) == items);
    Ok(out)
}

/// Where an item of `lists` is no list, nothing is concatenated.
pub proof fn lemma_concat_fails(lists: Seq<Json>, i: int)
    requires
        0 <= i < lists.len(),
        !(lists[i] is List),
    ensures
        concatenated(lists) is None,
    decreases lists.len(),
{
    if i < lists.len() - 1 {
        lemma_concat_fails(lists.take(lists.len() - 1), i);
    }
}

/// `before`, the texts of the items of `list` with `between` between them, `after`.
pub fn list_join(list: &Vec<Value>, before: &str, between: &str, after: &str) -> (s: String)
    ensures
        s@ == joined(list_view(list@), before@, between@, after@),
{
    let ghost items = list_view(list@);
    let ghost parts = rendered(items);
    let sep = chars_of(between);
    let mut body: Vec<char> = Vec::new();
    let mut i: usize = 0;
    proof {
        lemma_list_view(list@);
        assert(parts.take(0) == Seq::<Seq<char>>::empty());
    }
    while i < list.len()
        invariant
            i <= list.len(),
            sep@ == between@,
            items == list_view(list@),
            parts == rendered(items),
            items.len() == list@.len(),
            forall|k: int| 0 <= k < items.len() ==> items[k] == list@[k]@,
            body@ == join_all(parts.take(i as int), between@),
        decreases list.len() - i,
    {
        let ghost old_body = body@;
        if i > 0 {
            append_chars(&mut body, &sep);
        }
        push_rendered(&mut body, &list[i]);
        proof {
            let next = parts.take(i + 1);
            assert(next.drop_last() == parts.take(i as int));
            assert(next.last() == render(items[i as int]));
            if i == 0 {
                assert(body@ =~= next[0]);
            } else {
                assert(body@ =~= old_body + between@ + next.last());
            }
        }
        i += 1;
    }
    assert(parts.take(parts.len() as int) == parts);
    let mut out = chars_of(before);
    append_chars(&mut out, &body);
    let tail = chars_of(after);
    append_chars(&mut out, &tail);
    string_of(&out)
}

/// A position and the position that counts the same place from the end
/// mean the same item: for `1 <= i <= n`, position `i` is position `i - n - 1`.
pub proof fn lemma_index_symmetry(list: Seq<Json>, i: int)
    requires
        1 <= i <= list.len(),
    ensures
        item_at(list, i) == item_at(list, i - list.len() - 1),
        item_at(list, i) is Ok,
{
}

} // verus!
