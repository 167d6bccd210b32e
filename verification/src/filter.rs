//! Two filters over a stream of text that arrives in chunks. Both watch for a
//! pair of markers and let text through on one side of them only.

use crate::text::{append_chars, chars_of, occurs_at, slice_chars, starts_with, string_of};
use crate::value::{nat_text, push_nat};
use vstd::prelude::*;

verus! {

/// The first position at or after `from` from which the rest of `buffer` is
/// a prefix of `next`; `buffer.len()` at the latest.
pub open spec fn safe_from(buffer: Seq<char>, next: Seq<char>, from: int) -> int
    decreases buffer.len() - from,
{
    if from < 0 || from >= buffer.len() {
        buffer.len() as int
    } else if buffer.skip(from).is_prefix_of(next) {
        from
    } else {
        safe_from(buffer, next, from + 1)
    }
}

/// How much of `buffer` can be let go: all of it up to the first position
/// from which the rest could be the beginning of `next`.
pub open spec fn safe_len(buffer: Seq<char>, next: Seq<char>) -> int {
    safe_from(buffer, next, 0)
}

/// `safe_from` is the least such position.
pub proof fn lemma_safe_from(buffer: Seq<char>, next: Seq<char>, from: int)
    requires
        0 <= from <= buffer.len(),
    ensures
        from <= safe_from(buffer, next, from) <= buffer.len(),
        buffer.skip(safe_from(buffer, next, from)).is_prefix_of(next),
        forall|k: int|
            from <= k < safe_from(buffer, next, from) ==> !(#[trigger] buffer.skip(k)).is_prefix_of(
                next,
            ),
    decreases buffer.len() - from,
{
    if from < buffer.len() && !buffer.skip(from).is_prefix_of(next) {
        lemma_safe_from(buffer, next, from + 1);
    }
    if from >= buffer.len() {
        assert(buffer.skip(buffer.len() as int).len() == 0);
    }
}

/// What one step of a filter does with the text it holds: whether the marker
/// `next` was met at the front, what is let through, and what is held back.
pub struct Scan {
    pub toggled: bool,
    pub shown: bool,
    pub delta: Seq<char>,
    pub rest: Seq<char>,
}

/// One step on `held`, the text held back so far with the new chunk behind
/// it. Where `held` begins with the marker `next`, the marker goes and `shown`
/// flips. Of the rest, all that could not begin `next` is let go: it is the
/// step's output where the filter now shows, and is dropped where it does not.
pub open spec fn scan(held: Seq<char>, next: Seq<char>, shown: bool) -> Scan {
    let toggled = next.len() > 0 && next.is_prefix_of(held);
    let after = if toggled {
        held.skip(next.len() as int)
    } else {
        held
    };
    let now_shown = if toggled {
        !shown
    } else {
        shown
    };
    let safe = safe_len(after, next);
    Scan {
        toggled,
        shown: now_shown,
        delta: if now_shown {
            after.take(safe)
        } else {
            Seq::empty()
        },
        rest: after.skip(safe),
    }
}

/// How much of `buffer` can be let go while `next_str` is awaited.
pub fn safe_index(buffer: &Vec<char>, next_str: &Vec<char>) -> (safe: usize)
    ensures
        safe == safe_len(buffer@, next_str@),
        safe <= buffer.len(),
        buffer@.skip(safe as int).is_prefix_of(next_str@),
        forall|k: int| 0 <= k < safe ==> !(#[trigger] buffer@.skip(k)).is_prefix_of(next_str@),
{
    proof {
        lemma_safe_from(buffer@, next_str@, 0);
    }
    let mut i: usize = 0;
    while i < buffer.len()
        invariant
            i <= buffer.len(),
            safe_from(buffer@, next_str@, 0) == safe_from(buffer@, next_str@, i as int),
        decreases buffer.len() - i,
    {
        let rest = slice_chars(buffer, i, buffer.len());
        assert(rest@ == buffer@.skip(i as int));
        if starts_with(next_str, &rest) {
            proof {
                lemma_safe_from(buffer@, next_str@, 0);
            }
            return i;
        }
        i += 1;
    }
    i
}

/// One step of a filter on the text in `buffer`; see `scan`. Leaves in
/// `buffer` what is held back, and returns whether the filter now shows and
/// what is let through.
fn scan_buffer(buffer: &mut Vec<char>, next: &Vec<char>, shown: bool) -> (r: (bool, bool, Vec<char>))
    ensures
        ({
            let s = scan(old(buffer)@, next@, shown);
            r.0 == s.toggled && r.1 == s.shown && r.2@ == s.delta && final(buffer)@ == s.rest
        }),
{
    let toggled = next.len() > 0 && starts_with(buffer, next);
    let after = if toggled {
        slice_chars(buffer, next.len(), buffer.len())
    } else {
        slice_chars(buffer, 0, buffer.len())
    };
    assert(buffer@.subrange(0, buffer@.len() as int) == buffer@);
    let now_shown = if toggled {
        !shown
    } else {
        shown
    };
    let safe = safe_index(&after, next);
    let delta = if now_shown {
        slice_chars(&after, 0, safe)
    } else {
        Vec::new()
    };
    *buffer = slice_chars(&after, safe, after.len());
    (toggled, now_shown, delta)
}

/// Cuts a stream into the outputs that stand between a start and a stop
/// marker, and lets through what stands inside them.
pub struct OutputFilter {
    pub start_str: Vec<char>,
    pub stop_str: Vec<char>,
    pub enumerate_outputs: bool,
    pub buffer: Vec<char>,
    pub shown: bool,
    pub outputs: Vec<Vec<char>>,
}

/// The model of an `OutputFilter`.
pub struct OutputState {
    pub start: Seq<char>,
    pub stop: Seq<char>,
    pub enumerate: bool,
    pub buffer: Seq<char>,
    pub shown: bool,
    pub outputs: Seq<Seq<char>>,
}

/// The texts of `outputs`, in order.
pub open spec fn outputs_view(outputs: Seq<Vec<char>>) -> Seq<Seq<char>> {
    Seq::new(outputs.len(), |i: int| outputs[i]@)
}

impl View for OutputFilter {
    type V = OutputState;

    open spec fn view(&self) -> OutputState {
        OutputState {
            start: self.start_str@,
            stop: self.stop_str@,
            enumerate: self.enumerate_outputs,
            buffer: self.buffer@,
            shown: self.shown,
            outputs: outputs_view(self.outputs@),
        }
    }
}

/// What announces output number `n`: the number, a full stop and a space,
/// after an empty line unless it is the first.
pub open spec fn enumeration(n: nat) -> Seq<char> {
    let head = if n > 1 {
        seq!['\n', '\n']
    } else {
        Seq::empty()
    };
    head + nat_text(n) + seq!['.', ' ']
}

/// `outputs` with `delta` appended to its last text. Without outputs, nothing changes.
pub open spec fn extend_last(outputs: Seq<Seq<char>>, delta: Seq<char>) -> Seq<Seq<char>> {
    if outputs.len() == 0 {
        outputs
    } else {
        outputs.update(outputs.len() - 1, outputs[outputs.len() - 1] + delta)
    }
}

/// The filter after `chunk`, and the text it lets through.
pub open spec fn output_step(f: OutputState, chunk: Seq<char>) -> (OutputState, Seq<char>) {
    if f.start.len() == 0 || f.stop.len() == 0 {
        let opened = if f.outputs.len() == 0 {
            seq![Seq::<char>::empty()]
        } else {
            f.outputs
        };
        (OutputState { outputs: extend_last(opened, chunk), ..f }, chunk)
    } else {
        let next = if f.shown {
            f.stop
        } else {
            f.start
        };
        let s = scan(f.buffer + chunk, next, f.shown);
        let rising = s.toggled && s.shown;
        let opened = if rising {
            f.outputs.push(Seq::empty())
        } else {
            f.outputs
        };
        let announced = if rising && f.enumerate {
            enumeration(opened.len())
        } else {
            Seq::empty()
        };
        (
            OutputState {
                buffer: s.rest,
                shown: s.shown,
                outputs: if s.shown {
                    extend_last(opened, s.delta)
                } else {
                    opened
                },
                ..f
            },
            announced + s.delta,
        )
    }
}

impl OutputFilter {
    /// A filter that has seen nothing; it begins outside an output.
    pub fn new(start_str: &str, stop_str: &str, enumerate_outputs: bool) -> (f: OutputFilter)
        ensures
            f@ == (OutputState {
                start: start_str@,
                stop: stop_str@,
                enumerate: enumerate_outputs,
                buffer: Seq::empty(),
                shown: false,
                outputs: Seq::empty(),
            }),
    {
        let f = OutputFilter {
            start_str: chars_of(start_str),
            stop_str: chars_of(stop_str),
            enumerate_outputs,
            buffer: Vec::new(),
            shown: false,
            outputs: Vec::new(),
        };
        assert(outputs_view(f.outputs@) =~= Seq::<Seq<char>>::empty());
        f
    }

    fn extend_last_output(&mut self, delta: &Vec<char>)
        ensures
            final(self)@ == (OutputState {
                outputs: extend_last(old(self)@.outputs, delta@),
                ..old(self)@
            }),
    {
        let n = self.outputs.len();
        if n > 0 {
            let mut last: Vec<char> = Vec::new();
            append_chars(&mut last, &self.outputs[n - 1]);
            append_chars(&mut last, delta);
            self.outputs.set(n - 1, last);
            assert(outputs_view(self.outputs@) =~= extend_last(old(self)@.outputs, delta@));
        }
    }

    /// Feeds `chunk` to the filter and returns the text that it lets through.
    /// The chunk goes to the output that is open; no other output changes.
    pub fn update(&mut self, chunk: &str) -> (shown: String)
        ensures
            final(self)@ == output_step(old(self)@, chunk@).0,
            shown@ == output_step(old(self)@, chunk@).1,
    {
        let c = chars_of(chunk);
        if self.start_str.len() == 0 || self.stop_str.len() == 0 {
            if self.outputs.len() == 0 {
                self.outputs.push(Vec::new());
                assert(outputs_view(self.outputs@) =~= seq![Seq::<char>::empty()]);
            }
            self.extend_last_output(&c);
            return string_of(&c);
        }
        append_chars(&mut self.buffer, &c);
        let (toggled, now_shown, delta) = if self.shown {
            scan_buffer(&mut self.buffer, &self.stop_str, self.shown)
        } else {
            scan_buffer(&mut self.buffer, &self.start_str, self.shown)
        };
        self.shown = now_shown;
        let mut announced: Vec<char> = Vec::new();
        if toggled && now_shown {
            let ghost before = self.outputs@;
            self.outputs.push(Vec::new());
            assert(outputs_view(self.outputs@) =~= outputs_view(before).push(Seq::empty()));
            if self.enumerate_outputs {
                if self.outputs.len() > 1 {
                    announced.push('\n');
                    announced.push('\n');
                }
                push_nat(&mut announced, self.outputs.len() as u64);
                announced.push('.');
                announced.push(' ');
                assert(announced@ =~= enumeration(self.outputs@.len()));
            }
        }
        if now_shown {
            self.extend_last_output(&delta);
        }
        append_chars(&mut announced, &delta);
        string_of(&announced)
    }

    /// The outputs so far, in order; the last may still be open.
    pub fn outputs(&self) -> (r: Vec<String>)
        ensures
            crate::model::texts_of(r@) == self@.outputs,
    {
        let mut r: Vec<String> = Vec::new();
        let mut i: usize = 0;
        while i < self.outputs.len()
            invariant
                i <= self.outputs.len(),
                r@.len() == i,
                forall|k: int| 0 <= k < i ==> r@[k]@ == self.outputs@[k]@,
            decreases self.outputs.len() - i,
        {
            r.push(string_of(&self.outputs[i]));
            i += 1;
        }
        assert(crate::model::texts_of(r@) =~= self@.outputs);
        r
    }
}

/// Lets a stream through but for what stands between a start and a stop marker.
pub struct InvertedFilter {
    pub start_str: Vec<char>,
    pub stop_str: Vec<char>,
    pub buffer: Vec<char>,
    pub shown: bool,
}

/// The model of an `InvertedFilter`.
pub struct InvertedState {
    pub start: Seq<char>,
    pub stop: Seq<char>,
    pub buffer: Seq<char>,
    pub shown: bool,
}

impl View for InvertedFilter {
    type V = InvertedState;

    open spec fn view(&self) -> InvertedState {
        InvertedState {
            start: self.start_str@,
            stop: self.stop_str@,
            buffer: self.buffer@,
            shown: self.shown,
        }
    }
}

/// The filter after `chunk`, and the text it lets through.
pub open spec fn inverted_step(f: InvertedState, chunk: Seq<char>) -> (InvertedState, Seq<char>) {
    let next = if f.shown {
        f.start
    } else {
        f.stop
    };
    let s = scan(f.buffer + chunk, next, f.shown);
    (InvertedState { buffer: s.rest, shown: s.shown, ..f }, s.delta)
}

impl InvertedFilter {
    /// A filter that has seen nothing; it begins by showing.
    pub fn new(start_str: &str, stop_str: &str) -> (f: InvertedFilter)
        ensures
            f@ == (InvertedState {
                start: start_str@,
                stop: stop_str@,
                buffer: Seq::empty(),
                shown: true,
            }),
    {
        InvertedFilter {
            start_str: chars_of(start_str),
            stop_str: chars_of(stop_str),
            buffer: Vec::new(),
            shown: true,
        }
    }

    /// Feeds `chunk` to the filter and returns the text that it lets through.
    pub fn update(&mut self, chunk: &str) -> (shown: String)
        ensures
            final(self)@ == inverted_step(old(self)@, chunk@).0,
            shown@ == inverted_step(old(self)@, chunk@).1,
    {
        let c = chars_of(chunk);
        append_chars(&mut self.buffer, &c);
        let (_toggled, now_shown, delta) = if self.shown {
            scan_buffer(&mut self.buffer, &self.start_str, self.shown)
        } else {
            scan_buffer(&mut self.buffer, &self.stop_str, self.shown)
        };
        self.shown = now_shown;
        string_of(&delta)
    }
}

/// A chunk goes to the output that is open and to no other: a step
/// leaves every output but the last as it was, and either extends the last
/// or opens one more behind it.
pub proof fn lemma_chunk_touches_last_output(f: OutputState, chunk: Seq<char>)
    ensures
        ({
            let g = output_step(f, chunk).0;
            let n = f.outputs.len();
            &&& g.outputs.len() == n || g.outputs.len() == n + 1
            &&& forall|i: int| 0 <= i < n - 1 ==> g.outputs[i] == f.outputs[i]
            &&& g.outputs.len() == n + 1 && n > 0 ==> g.outputs[n - 1] == f.outputs[n - 1]
            &&& g.outputs.len() == n && n > 0 ==> f.outputs[n - 1].is_prefix_of(g.outputs[n - 1])
        }),
{
    let g = output_step(f, chunk).0;
    let n = f.outputs.len();
    if n > 0 && g.outputs.len() == n {
        let grown = g.outputs[n - 1];
        assert(f.outputs[n - 1] =~= grown.take(f.outputs[n - 1].len() as int));
    }
}

/// The filter after the chunks `chunks`, one after the other.
pub open spec fn run_output(f: OutputState, chunks: Seq<Seq<char>>) -> OutputState
    decreases chunks.len(),
{
    if chunks.len() == 0 {
        f
    } else {
        output_step(run_output(f, chunks.take(chunks.len() - 1)), chunks[chunks.len() - 1]).0
    }
}

/// At how many of the first `n` places of `stream` the marker `start` stands.
pub open spec fn starts_before(stream: Seq<char>, start: Seq<char>, n: int) -> nat
    decreases n,
{
    if n <= 0 {
        0
    } else {
        starts_before(stream, start, n - 1) + if occurs_at(stream, n - 1, start) {
            1nat
        } else {
            0nat
        }
    }
}

proof fn lemma_starts_grow(stream: Seq<char>, start: Seq<char>, m: int, n: int)
    requires
        m <= n,
    ensures
        starts_before(stream, start, m) <= starts_before(stream, start, n),
    decreases n - m,
{
    if m < n {
        lemma_starts_grow(stream, start, m, n - 1);
    }
}

proof fn lemma_starts_stay(stream: Seq<char>, more: Seq<char>, start: Seq<char>, n: int)
    requires
        n <= stream.len(),
    ensures
        starts_before(stream, start, n) <= starts_before(stream + more, start, n),
    decreases n,
{
    if n > 0 {
        lemma_starts_stay(stream, more, start, n - 1);
        if occurs_at(stream, n - 1, start) {
            assert((stream + more).subrange(n - 1, n - 1 + start.len()) == stream.subrange(
                n - 1,
                n - 1 + start.len(),
            ));
        }
    }
}

/// The filter `f` has taken in `stream`: what it holds back is the end of
/// the stream, and it has opened no more outputs than start markers stand
/// in what it has let go.
pub open spec fn keeps_count(f: OutputState, start: Seq<char>, stream: Seq<char>) -> bool {
    let let_go = stream.len() - f.buffer.len();
    &&& f.start == start
    &&& f.start.len() > 0
    &&& f.stop.len() > 0
    &&& let_go >= 0
    &&& f.buffer == stream.skip(let_go)
    &&& f.outputs.len() <= starts_before(stream, f.start, let_go)
}

proof fn lemma_step_keeps_count(f: OutputState, stream: Seq<char>, chunk: Seq<char>)
    requires
        keeps_count(f, f.start, stream),
    ensures
        keeps_count(output_step(f, chunk).0, f.start, stream + chunk),
{
    let g = output_step(f, chunk).0;
    let longer = stream + chunk;
    let c = stream.len() - f.buffer.len();
    let held = f.buffer + chunk;
    assert(held =~= longer.skip(c));
    let next = if f.shown {
        f.stop
    } else {
        f.start
    };
    let s = scan(held, next, f.shown);
    let after = if s.toggled {
        held.skip(next.len() as int)
    } else {
        held
    };
    lemma_safe_from(after, next, 0);
    let safe = safe_len(after, next);
    let gone = c + (if s.toggled {
        next.len() as int
    } else {
        0
    }) + safe;
    assert(g.buffer =~= longer.skip(gone));
    assert(gone == longer.len() - g.buffer.len());
    lemma_starts_stay(stream, chunk, f.start, c);
    lemma_starts_grow(longer, f.start, c, gone);
    if s.toggled && s.shown {
        assert(next == f.start);
        assert(longer.subrange(c, c + f.start.len()) =~= held.take(f.start.len() as int));
        assert(occurs_at(longer, c, f.start));
        lemma_starts_grow(longer, f.start, c + 1, gone);
    }
}

proof fn lemma_run_keeps_count(f: OutputState, chunks: Seq<Seq<char>>)
    requires
        keeps_count(f, f.start, Seq::empty()),
    ensures
        keeps_count(run_output(f, chunks), f.start, crate::text::concat_all(chunks)),
    decreases chunks.len(),
{
    if chunks.len() > 0 {
        let front = chunks.take(chunks.len() - 1);
        lemma_run_keeps_count(f, front);
        lemma_step_keeps_count(
            run_output(f, front),
            crate::text::concat_all(front),
            chunks[chunks.len() - 1],
        );
        assert(chunks.drop_last() == front);
    }
}

/// A filter with both markers opens no more outputs than start markers
/// stand in the stream: after any chunks, it has at most as many outputs as
/// there are places in all that came in at which the start marker stands.
pub proof fn lemma_outputs_bounded_by_markers(
    start: Seq<char>,
    stop: Seq<char>,
    enumerate: bool,
    chunks: Seq<Seq<char>>,
)
    requires
        start.len() > 0,
        stop.len() > 0,
    ensures
        ({
            let fresh = OutputState {
                start,
                stop,
                enumerate,
                buffer: Seq::empty(),
                shown: false,
                outputs: Seq::empty(),
            };
            let stream = crate::text::concat_all(chunks);
            run_output(fresh, chunks).outputs.len() <= starts_before(
                stream,
                start,
                stream.len() as int,
            )
        }),
{
    let fresh = OutputState {
        start,
        stop,
        enumerate,
        buffer: Seq::empty(),
        shown: false,
        outputs: Seq::empty(),
    };
    let nothing = Seq::<char>::empty();
    assert(fresh.buffer =~= nothing.skip(0));
    lemma_run_keeps_count(fresh, chunks);
    let stream = crate::text::concat_all(chunks);
    let end = run_output(fresh, chunks);
    lemma_starts_grow(stream, start, stream.len() - end.buffer.len(), stream.len() as int);
}

} // verus!
