//! The attributes of one line of text: a default style, and spans of bytes
//! that carry a style of their own.

use crate::attrs::{Attrs, AttrsView};
use std::ops::Range;
use vstd::prelude::*;

verus! {

/// A range of bytes `[start, end)` of a line, and the attributes it carries.
pub ghost struct Span {
    pub start: int,
    pub end: int,
    pub attrs: AttrsView,
}

/// What an [`AttrsList`] stands for. Later spans take priority over earlier ones.
pub ghost struct AttrsListView {
    pub defaults: AttrsView,
    pub spans: Seq<Span>,
}

/// The span that an entry of the list stands for.
pub open spec fn span_of<'a>(entry: (Range<usize>, Attrs<'a>)) -> Span {
    Span { start: entry.0.start as int, end: entry.0.end as int, attrs: entry.1@ }
}

/// The spans that the entries of a list stand for, in the same order.
pub open spec fn span_views<'a>(entries: Seq<(Range<usize>, Attrs<'a>)>) -> Seq<Span> {
    Seq::new(entries.len(), |i: int| span_of(entries[i]))
}

impl Span {
    /// True when the span's range holds the whole range `[start, end)`.
    pub open spec fn contains_range(self, start: int, end: int) -> bool {
        start >= self.start && end <= self.end
    }

    /// True when the span gives byte `p` the attributes `attrs`.
    pub open spec fn styles(self, p: int, attrs: AttrsView) -> bool {
        self.start <= p < self.end && self.attrs == attrs
    }

    /// True when `next` starts where this span ends and has the same attributes.
    pub open spec fn joins(self, next: Span) -> bool {
        self.end == next.start && self.attrs == next.attrs
    }

    /// What stays before a cut at `index`: all of a span that ends by then, the
    /// part up to the cut of a span that straddles it, nothing of one that
    /// starts at or after it.
    pub open spec fn kept_part(self, index: int) -> Option<Span> {
        if self.end <= index {
            Some(self)
        } else if self.start >= index {
            None
        } else {
            Some(Span { end: index, ..self })
        }
    }

    /// What moves behind a cut at `index`, counted from the cut: all of a span
    /// that starts at or after the cut, the part from the cut on of a span that
    /// straddles it, nothing of one that ends by then.
    pub open spec fn moved_part(self, index: int) -> Option<Span> {
        if self.end <= index {
            None
        } else if self.start >= index {
            Some(Span { start: self.start - index, end: self.end - index, ..self })
        } else {
            Some(Span { start: 0, end: self.end - index, ..self })
        }
    }
}

/// One pass from the left that joins each span with those that follow it for
/// as long as each starts where the one before ended, with equal attributes.
pub open spec fn coalesce(spans: Seq<Span>) -> Seq<Span>
    decreases spans.len(),
{
    if spans.len() < 2 {
        spans
    } else if spans[0].joins(spans[1]) {
        coalesce(seq![Span { end: spans[1].end, ..spans[0] }] + spans.skip(2))
    } else {
        seq![spans[0]] + coalesce(spans.skip(1))
    }
}

/// The parts of `spans` that stay before a cut at `index`, in order.
pub open spec fn kept_spans(spans: Seq<Span>, index: int) -> Seq<Span>
    decreases spans.len(),
{
    if spans.len() == 0 {
        Seq::empty()
    } else {
        let rest = kept_spans(spans.drop_last(), index);
        match spans.last().kept_part(index) {
            Some(part) => rest.push(part),
            None => rest,
        }
    }
}

/// The parts of `spans` that move behind a cut at `index`, in order, counted
/// from the cut.
pub open spec fn moved_spans(spans: Seq<Span>, index: int) -> Seq<Span>
    decreases spans.len(),
{
    if spans.len() == 0 {
        Seq::empty()
    } else {
        let rest = moved_spans(spans.drop_last(), index);
        match spans.last().moved_part(index) {
            Some(part) => rest.push(part),
            None => rest,
        }
    }
}

/// True when all spans lie within the first `len` bytes, none with its end before its start.
pub open spec fn spans_within(spans: Seq<Span>, len: int) -> bool {
    forall|k: int| 0 <= k < spans.len() ==> 0 <= (#[trigger] spans[k]).start <= spans[k].end <= len
}

/// True when some span gives byte `p` the attributes `attrs`.
pub open spec fn styled(spans: Seq<Span>, p: int, attrs: AttrsView) -> bool {
    exists|k: int| 0 <= k < spans.len() && (#[trigger] spans[k]).styles(p, attrs)
}

impl AttrsListView {
    /// True when all spans lie within the first `len` bytes.
    pub open spec fn within(self, len: int) -> bool {
        spans_within(self.spans, len)
    }

    /// The list after one more span was added.
    pub open spec fn add(self, start: int, end: int, attrs: AttrsView) -> AttrsListView {
        AttrsListView { spans: coalesce(self.spans.push(Span { start, end, attrs })), ..self }
    }

    /// The list after spans with the given ranges were added one after the
    /// other, all with the same attributes.
    pub open spec fn add_all(self, ranges: Seq<(int, int)>, attrs: AttrsView) -> AttrsListView
        decreases ranges.len(),
    {
        if ranges.len() == 0 {
            self
        } else {
            self.add_all(ranges.drop_last(), attrs).add(ranges.last().0, ranges.last().1, attrs)
        }
    }

    /// The attributes for the range `[start, end)`: those of the last span that
    /// holds the whole range, the defaults where there is none.
    pub open spec fn lookup(self, start: int, end: int) -> AttrsView
        decreases self.spans.len(),
    {
        if self.spans.len() == 0 {
            self.defaults
        } else if self.spans.last().contains_range(start, end) {
            self.spans.last().attrs
        } else {
            (AttrsListView { spans: self.spans.drop_last(), ..self }).lookup(start, end)
        }
    }

    /// The list that is left before a cut at `index`.
    pub open spec fn kept(self, index: int) -> AttrsListView {
        AttrsListView { spans: kept_spans(self.spans, index), ..self }
    }

    /// The list that is split off behind a cut at `index`.
    pub open spec fn moved(self, index: int) -> AttrsListView {
        AttrsListView { spans: moved_spans(self.spans, index), ..self }
    }
}

/// List of text attributes to apply to a line
///
/// Two lists are equal when they have equal defaults and equal spans in the
/// same order.
#[derive(PartialEq, Eq)]
pub struct AttrsList<'a> {
    defaults: Attrs<'a>,
    spans: Vec<(Range<usize>, Attrs<'a>)>,
}

impl<'a> View for AttrsList<'a> {
    type V = AttrsListView;

    closed spec fn view(&self) -> AttrsListView {
        AttrsListView { defaults: self.defaults@, spans: span_views(self.spans@) }
    }
}

impl<'a> AttrsList<'a> {
    /// Create a new attributes list with a set of default [Attrs]
    pub fn new(defaults: Attrs<'a>) -> (list: Self)
        ensures
            list@ == (AttrsListView { defaults: defaults@, spans: Seq::empty() }),
    {
        let list = Self { defaults, spans: Vec::new() };
        assert(span_views(list.spans@) =~= Seq::empty());
        list
    }

    /// Get the default [Attrs]
    pub fn defaults(&self) -> (attrs: Attrs<'a>)
        ensures
            attrs@ == self@.defaults,
    {
        self.defaults
    }

    /// Get the current attribute spans
    pub fn spans(&self) -> (spans: &Vec<(Range<usize>, Attrs<'a>)>)
        ensures
            span_views(spans@) == self@.spans,
    {
        &self.spans
    }

    /// Clear the current attribute spans
    pub fn clear_spans(&mut self)
        ensures
            final(self)@ == (AttrsListView { spans: Seq::empty(), ..old(self)@ }),
    {
        self.spans.clear();
        assert(span_views(self.spans@) =~= Seq::empty());
    }

    /// Add an attribute span, then join spans that start where the span before
    /// them ends and have equal attributes.
    pub fn add_span(&mut self, range: Range<usize>, attrs: Attrs<'a>)
        ensures
            final(self)@ == old(self)@.add(range.start as int, range.end as int, attrs@),
            forall|len: int|
                #![trigger old(self)@.within(len)]
                old(self)@.within(len) && range.start <= range.end <= len ==> final(self)@.within(
                    len,
                ),
    {
        let ghost pushed = span_views(self.spans@).push(span_of((range, attrs)));
        self.spans.push((range, attrs));
        assert(span_views(self.spans@) =~= pushed);
        assert(pushed.take(0) =~= Seq::empty());
        assert(pushed.skip(0) =~= pushed);
        assert(Seq::<Span>::empty() + coalesce(pushed) =~= coalesce(pushed));

        // Condense spans
        let mut i: usize = 0;
        while i < self.spans.len() - 1
            invariant
                i < self.spans@.len(),
                self.defaults == old(self).defaults,
                coalesce(pushed) == span_views(self.spans@).take(i as int) + coalesce(
                    span_views(self.spans@).skip(i as int),
                ),
            decreases self.spans@.len() - i,
        {
            let ghost cur = span_views(self.spans@);
            let ghost tail = cur.skip(i as int);
            assert(tail[0] == cur[i as int] && tail[1] == cur[i + 1]);
            if self.spans[i].0.end == self.spans[i + 1].0.start && self.spans[i].1 == self.spans[i
                + 1].1 {
                let next = self.spans.remove(i + 1);
                self.spans[i].0.end = next.0.end;
                proof {
                    let now = span_views(self.spans@);
                    assert(now.take(i as int) =~= cur.take(i as int));
                    assert(now.skip(i as int) =~= seq![Span { end: tail[1].end, ..tail[0] }]
                        + tail.skip(2));
                }
            } else {
                proof {
                    assert(cur.take(i + 1) =~= cur.take(i as int) + seq![tail[0]]);
                    assert(cur.skip(i + 1) =~= tail.skip(1));
                    assert(cur.take(i as int) + (seq![tail[0]] + coalesce(tail.skip(1)))
                        =~= cur.take(i + 1) + coalesce(cur.skip(i + 1)));
                }
                i += 1;
            }
        }
        proof {
            let now = span_views(self.spans@);
            assert(now.take(i as int) + now.skip(i as int) =~= now);
            assert forall|len: int|
                #![trigger old(self)@.within(len)]
                old(self)@.within(len) && range.start <= range.end <= len implies self@.within(
                len,
            ) by {
                lemma_coalesce_within(pushed, len);
            }
        }
    }

    /// Get the highest priority attribute span for a range
    ///
    /// This returns the attributes of the latest added span that contains the
    /// range, and the defaults where no span does.
    pub fn get_span(&self, range: Range<usize>) -> (attrs: Attrs<'a>)
        ensures
            attrs@ == self@.lookup(range.start as int, range.end as int),
            (forall|k: int|
                0 <= k < self@.spans.len() ==> !(#[trigger] self@.spans[k]).contains_range(
                    range.start as int,
                    range.end as int,
                )) ==> attrs@ == self@.defaults,
            forall|k: int|
                0 <= k < self@.spans.len() && (#[trigger] self@.spans[k]).contains_range(
                    range.start as int,
                    range.end as int,
                ) && (forall|j: int|
                    k < j < self@.spans.len() ==> !(#[trigger] self@.spans[j]).contains_range(
                        range.start as int,
                        range.end as int,
                    )) ==> attrs@ == self@.spans[k].attrs,
    {
        proof {
            lemma_lookup(self@, range.start as int, range.end as int);
        }
        let ghost all = self@;
        let mut i: usize = self.spans.len();
        assert(all.spans.take(i as int) =~= all.spans);
        while i > 0
            invariant
                i <= self.spans@.len(),
                all == self@,
                all.lookup(range.start as int, range.end as int) == (AttrsListView {
                    spans: all.spans.take(i as int),
                    ..all
                }).lookup(range.start as int, range.end as int),
            decreases i,
        {
            let ghost front = AttrsListView { spans: all.spans.take(i as int), ..all };
            assert(front.spans.drop_last() =~= all.spans.take(i - 1));
            assert(front.spans.last() == span_of(self.spans@[i - 1]));
            i -= 1;
            if range.start >= self.spans[i].0.start && range.end <= self.spans[i].0.end {
                proof {
                    lemma_lookup(self@, range.start as int, range.end as int);
                }
                return self.spans[i].1;
            }
        }
        assert(all.spans.take(0) =~= Seq::empty());
        self.defaults
    }

    /// Split attributes list at an offset
    ///
    /// The list keeps what lies before the offset. The list returned holds what
    /// lies at or after it, counted from the offset. A span that straddles the
    /// offset is cut in two.
    pub fn split_off(&mut self, index: usize) -> (new: Self)
        ensures
            final(self)@ == old(self)@.kept(index as int),
            new@ == old(self)@.moved(index as int),
            forall|len: int|
                #![trigger old(self)@.within(len)]
                old(self)@.within(len) && index <= len ==> final(self)@.within(index as int)
                    && new@.within(len - index),
    {
        let mut new = Self::new(self.defaults);
        let ghost all = span_views(self.spans@);
        let ghost mut done: int = 0;
        let mut i: usize = 0;
        assert(all.take(0) =~= Seq::empty());
        assert(all.skip(0) =~= all);
        assert(span_views(self.spans@).take(0) =~= Seq::empty());
        while i < self.spans.len()
            invariant
                0 <= done <= all.len(),
                i <= self.spans@.len(),
                self.spans@.len() - i == all.len() - done,
                self.defaults == old(self).defaults,
                new.defaults@ == old(self).defaults@,
                span_views(self.spans@).take(i as int) == kept_spans(all.take(done), index as int),
                span_views(self.spans@).skip(i as int) == all.skip(done),
                span_views(new.spans@) == moved_spans(all.take(done), index as int),
            decreases self.spans@.len() - i,
        {
            let ghost cur = span_views(self.spans@);
            let ghost moved = span_views(new.spans@);
            assert(cur[i as int] == cur.skip(i as int)[0]);
            assert(all.take(done + 1).drop_last() =~= all.take(done));
            assert(all.take(done + 1).last() == all[done]);
            assert(all.skip(done)[0] == all[done]);
            if self.spans[i].0.end <= index {
                // Leave this in the previous attributes list
                proof {
                    assert(cur.take(i + 1) =~= cur.take(i as int).push(all[done]));
                    lemma_skip_step(cur, i as int, all, done);
                }
                i += 1;
            } else if self.spans[i].0.start >= index {
                // Move this to the new attributes list
                let (range, attrs) = self.spans.remove(i);
                new.spans.push((Range { start: range.start - index, end: range.end - index }, attrs));
                proof {
                    let now = span_views(self.spans@);
                    assert(now.take(i as int) =~= cur.take(i as int));
                    lemma_skip_step(cur, i as int, all, done);
                    assert(now.skip(i as int) =~= cur.skip(i + 1));
                    assert(span_views(new.spans@) =~= moved.push(
                        all[done].moved_part(index as int).unwrap(),
                    ));
                }
            } else {
                // New span has index..end
                let end = self.spans[i].0.end;
                let attrs = self.spans[i].1;
                new.spans.push((Range { start: 0, end: end - index }, attrs));
                // Old span has start..index
                self.spans[i].0.end = index;
                proof {
                    let now = span_views(self.spans@);
                    assert(now.take(i + 1) =~= cur.take(i as int).push(
                        all[done].kept_part(index as int).unwrap(),
                    ));
                    lemma_skip_step(cur, i as int, all, done);
                    assert(now.skip(i + 1) =~= cur.skip(i + 1));
                    assert(span_views(new.spans@) =~= moved.push(
                        all[done].moved_part(index as int).unwrap(),
                    ));
                }
                i += 1;
            }
            proof {
                done = done + 1;
            }
        }
        proof {
            assert(all.take(done) =~= all);
            assert(span_views(self.spans@).take(i as int) =~= span_views(self.spans@));
            assert forall|len: int|
                #![trigger old(self)@.within(len)]
                old(self)@.within(len) && index <= len implies self@.within(index as int)
                && new@.within(len - index) by {
                lemma_split_within(all, index as int, len);
            }
        }
        new
    }
}

/// Two sequences with equal tails have equal tails one element further on.
proof fn lemma_skip_step<T>(a: Seq<T>, i: int, b: Seq<T>, j: int)
    requires
        0 <= i < a.len(),
        0 <= j < b.len(),
        a.skip(i) == b.skip(j),
    ensures
        a[i] == b[j],
        a.skip(i + 1) == b.skip(j + 1),
{
    assert(a.skip(i)[0] == a[i]);
    assert(b.skip(j)[0] == b[j]);
    assert(a.skip(i + 1) =~= a.skip(i).skip(1));
    assert(b.skip(j + 1) =~= b.skip(j).skip(1));
}

/// Joining spans keeps them within the bytes that they were within.
pub proof fn lemma_coalesce_within(spans: Seq<Span>, len: int)
    requires
        spans_within(spans, len),
    ensures
        spans_within(coalesce(spans), len),
    decreases spans.len(),
{
    if spans.len() >= 2 {
        if spans[0].joins(spans[1]) {
            let merged = seq![Span { end: spans[1].end, ..spans[0] }] + spans.skip(2);
            assert forall|k: int| 0 <= k < merged.len() implies 0 <= (#[trigger] merged[k]).start
                <= merged[k].end <= len by {
                if k > 0 {
                    assert(merged[k] == spans[k + 1]);
                } else {
                    assert(spans[0].start <= spans[0].end);
                    assert(spans[1].start <= spans[1].end);
                }
            }
            lemma_coalesce_within(merged, len);
        } else {
            let rest = spans.skip(1);
            assert forall|k: int| 0 <= k < rest.len() implies 0 <= (#[trigger] rest[k]).start
                <= rest[k].end <= len by {
                assert(rest[k] == spans[k + 1]);
            }
            lemma_coalesce_within(rest, len);
            let joined = coalesce(rest);
            assert forall|k: int| 0 <= k < (seq![spans[0]] + joined).len() implies 0 <= (
            #[trigger] (seq![spans[0]] + joined)[k]).start <= (seq![spans[0]] + joined)[k].end
                <= len by {
                if k > 0 {
                    assert((seq![spans[0]] + joined)[k] == joined[k - 1]);
                }
            }
        }
    }
}

/// Cutting spans that lie within `len` bytes at `index` leaves the kept parts
/// within `index` bytes and the moved parts within the rest.
pub proof fn lemma_split_within(spans: Seq<Span>, index: int, len: int)
    requires
        spans_within(spans, len),
        0 <= index <= len,
    ensures
        spans_within(kept_spans(spans, index), index),
        spans_within(moved_spans(spans, index), len - index),
    decreases spans.len(),
{
    if spans.len() > 0 {
        let front = spans.drop_last();
        assert forall|k: int| 0 <= k < front.len() implies 0 <= (#[trigger] front[k]).start
            <= front[k].end <= len by {
            assert(front[k] == spans[k]);
        }
        lemma_split_within(front, index, len);
        assert(0 <= spans.last().start <= spans.last().end <= len);
    }
}

/// A lookup gives the attributes of the last span that holds the range, and
/// the defaults where no span holds it.
pub proof fn lemma_lookup(list: AttrsListView, start: int, end: int)
    ensures
        (forall|k: int|
            0 <= k < list.spans.len() ==> !(#[trigger] list.spans[k]).contains_range(start, end))
            ==> list.lookup(start, end) == list.defaults,
        forall|k: int|
            0 <= k < list.spans.len() && (#[trigger] list.spans[k]).contains_range(start, end) && (
            forall|j: int|
                k < j < list.spans.len() ==> !(#[trigger] list.spans[j]).contains_range(start, end))
                ==> list.lookup(start, end) == list.spans[k].attrs,
    decreases list.spans.len(),
{
    if list.spans.len() > 0 {
        let front = AttrsListView { spans: list.spans.drop_last(), ..list };
        lemma_lookup(front, start, end);
        if !list.spans.last().contains_range(start, end) {
            assert forall|k: int|
                0 <= k < list.spans.len() && (#[trigger] list.spans[k]).contains_range(start, end)
                    && (forall|j: int|
                    k < j < list.spans.len() ==> !(#[trigger] list.spans[j]).contains_range(
                        start,
                        end,
                    )) implies list.lookup(start, end) == list.spans[k].attrs by {
                assert(k < list.spans.len() - 1);
                assert(front.spans[k] == list.spans[k]);
                assert forall|j: int| k < j < front.spans.len() implies !(
                #[trigger] front.spans[j]).contains_range(start, end) by {
                    assert(front.spans[j] == list.spans[j]);
                }
            }
            if forall|k: int|
                0 <= k < list.spans.len() ==> !(#[trigger] list.spans[k]).contains_range(
                    start,
                    end,
                ) {
                assert forall|k: int| 0 <= k < front.spans.len() implies !(
                #[trigger] front.spans[k]).contains_range(start, end) by {
                    assert(front.spans[k] == list.spans[k]);
                }
            }
        } else {
            let n = list.spans.len() - 1;
            assert(list.spans[n].contains_range(start, end));
        }
    }
}

/// Spans added one after the other to an empty list, each starting where the
/// one before it ended and all with the same attributes, leave exactly one
/// span: from the start of the first to the end of the last.
pub proof fn lemma_adjacent_spans_merge(
    defaults: AttrsView,
    ranges: Seq<(int, int)>,
    attrs: AttrsView,
)
    requires
        ranges.len() > 0,
        forall|k: int| 0 <= k < ranges.len() - 1 ==> (#[trigger] ranges[k]).1 == ranges[k + 1].0,
    ensures
        (AttrsListView { defaults, spans: Seq::empty() }).add_all(ranges, attrs).spans
            == seq![Span { start: ranges[0].0, end: ranges.last().1, attrs }],
    decreases ranges.len(),
{
    let empty = AttrsListView { defaults, spans: Seq::empty() };
    let front = ranges.drop_last();
    let last = ranges.last();
    if ranges.len() == 1 {
        assert(empty.add_all(front, attrs) == empty);
        let pushed = empty.spans.push(Span { start: last.0, end: last.1, attrs });
        assert(coalesce(pushed) == pushed);
        assert(pushed =~= seq![Span { start: ranges[0].0, end: ranges.last().1, attrs }]);
    } else {
        assert forall|k: int| 0 <= k < front.len() - 1 implies (#[trigger] front[k]).1 == front[k
            + 1].0 by {
            assert(front[k] == ranges[k]);
            assert(front[k + 1] == ranges[k + 1]);
        }
        lemma_adjacent_spans_merge(defaults, front, attrs);
        let before = empty.add_all(front, attrs).spans;
        let joined = Span { start: ranges[0].0, end: front.last().1, attrs };
        let added = Span { start: last.0, end: last.1, attrs };
        assert(front.last() == ranges[ranges.len() - 2]);
        assert(front[0] == ranges[0]);
        let pushed = before.push(added);
        assert(pushed =~= seq![joined, added]);
        assert(joined.joins(added));
        let merged = seq![Span { end: added.end, ..joined }] + pushed.skip(2);
        assert(merged =~= seq![Span { start: ranges[0].0, end: last.1, attrs }]);
        assert(coalesce(merged) == merged);
        assert(coalesce(pushed) == coalesce(merged));
    }
}

/// The parts kept before a cut style exactly the bytes before the cut that
/// the spans styled.
proof fn lemma_kept_styles(spans: Seq<Span>, index: int, p: int, attrs: AttrsView)
    ensures
        styled(kept_spans(spans, index), p, attrs) <==> p < index && styled(spans, p, attrs),
    decreases spans.len(),
{
    let kept = kept_spans(spans, index);
    if spans.len() > 0 {
        let front = spans.drop_last();
        let rest = kept_spans(front, index);
        lemma_kept_styles(front, index, p, attrs);
        let last = spans.last();
        if styled(kept, p, attrs) {
            let k = choose|k: int| 0 <= k < kept.len() && (#[trigger] kept[k]).styles(p, attrs);
            if k < rest.len() {
                assert(rest[k].styles(p, attrs));
                let m = choose|m: int| 0 <= m < front.len() && (#[trigger] front[m]).styles(p, attrs);
                assert(spans[m].styles(p, attrs));
            } else {
                assert(spans[spans.len() - 1].styles(p, attrs));
            }
        }
        if p < index && styled(spans, p, attrs) {
            let m = choose|m: int| 0 <= m < spans.len() && (#[trigger] spans[m]).styles(p, attrs);
            if m < front.len() {
                assert(front[m].styles(p, attrs));
                let k = choose|k: int| 0 <= k < rest.len() && (#[trigger] rest[k]).styles(p, attrs);
                assert(kept[k].styles(p, attrs));
            } else {
                assert(kept[kept.len() - 1].styles(p, attrs));
            }
        }
    }
}

/// The parts moved behind a cut style, counted from the cut, exactly the bytes
/// from the cut on that the spans styled.
proof fn lemma_moved_styles(spans: Seq<Span>, index: int, p: int, attrs: AttrsView)
    requires
        forall|k: int| 0 <= k < spans.len() ==> 0 <= (#[trigger] spans[k]).start,
        0 <= index,
    ensures
        styled(moved_spans(spans, index), p - index, attrs) <==> p >= index && styled(
            spans,
            p,
            attrs,
        ),
    decreases spans.len(),
{
    let moved = moved_spans(spans, index);
    if spans.len() > 0 {
        let front = spans.drop_last();
        let rest = moved_spans(front, index);
        assert forall|k: int| 0 <= k < front.len() implies 0 <= (#[trigger] front[k]).start by {
            assert(front[k] == spans[k]);
        }
        lemma_moved_styles(front, index, p, attrs);
        let last = spans.last();
        assert(0 <= last.start);
        if styled(moved, p - index, attrs) {
            let k = choose|k: int|
                0 <= k < moved.len() && (#[trigger] moved[k]).styles(p - index, attrs);
            if k < rest.len() {
                assert(rest[k].styles(p - index, attrs));
                let m = choose|m: int| 0 <= m < front.len() && (#[trigger] front[m]).styles(p, attrs);
                assert(spans[m].styles(p, attrs));
            } else {
                assert(spans[spans.len() - 1].styles(p, attrs));
            }
        }
        if p >= index && styled(spans, p, attrs) {
            let m = choose|m: int| 0 <= m < spans.len() && (#[trigger] spans[m]).styles(p, attrs);
            if m < front.len() {
                assert(front[m].styles(p, attrs));
                let k = choose|k: int|
                    0 <= k < rest.len() && (#[trigger] rest[k]).styles(p - index, attrs);
                assert(moved[k].styles(p - index, attrs));
            } else {
                assert(moved[moved.len() - 1].styles(p - index, attrs));
            }
        }
    }
}

/// Splitting a list at a byte offset keeps what every span covers: a byte that
/// a span styled is styled the same way in exactly one of the two lists, the
/// list before the offset for a byte before it, and else the list behind it,
/// where the byte is counted from the offset. Neither list styles any other byte.
pub proof fn lemma_split_off_keeps_coverage(
    list: AttrsListView,
    index: int,
    p: int,
    attrs: AttrsView,
)
    requires
        forall|k: int| 0 <= k < list.spans.len() ==> 0 <= (#[trigger] list.spans[k]).start,
        0 <= index,
    ensures
        styled(list.spans, p, attrs) <==> styled(list.kept(index).spans, p, attrs) || styled(
            list.moved(index).spans,
            p - index,
            attrs,
        ),
        !(styled(list.kept(index).spans, p, attrs) && styled(
            list.moved(index).spans,
            p - index,
            attrs,
        )),
        styled(list.kept(index).spans, p, attrs) ==> p < index,
        styled(list.moved(index).spans, p - index, attrs) ==> p >= index,
{
    lemma_kept_styles(list.spans, index, p, attrs);
    lemma_moved_styles(list.spans, index, p, attrs);
}

} // verus!
