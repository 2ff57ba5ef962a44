//! The mathematical model of splitting: a run of elements, the match spans
//! found in it, and the items that each splitting policy yields from them.
use vstd::prelude::*;
use vstd::string::{is_ascii, is_ascii_spec_bytes, StringSliceAdditionalSpecFns};
use vstd::utf8::*;

verus! {

/// Where a splitter stands in its life.
///
/// `Active`: the match source may still yield spans. `Draining`: the source
/// ran dry and the trailing item has been handed out. `Done`: terminal.
pub enum Phase {
    Active,
    Draining,
    Done,
}

/// `spans` are half-open ranges into a run of `len` elements, each inside it,
/// none overlapping the next and all in increasing order, none starting
/// before `from`.
pub open spec fn spans_ordered(spans: Seq<(int, int)>, from: int, len: int) -> bool {
    &&& 0 <= from <= len
    &&& forall|i: int| 0 <= i < spans.len() ==> from <= #[trigger] spans[i].0 <= spans[i].1 <= len
    &&& forall|i: int, j: int|
        0 <= i < j < spans.len() ==> (#[trigger] spans[i]).1 <= (#[trigger] spans[j]).0
}

/// Both ends of every span fall between two UTF-8 encoded characters of
/// `bytes`.
pub open spec fn on_char_boundaries(spans: Seq<(int, int)>, bytes: Seq<u8>) -> bool {
    forall|i: int|
        0 <= i < spans.len() ==> is_char_boundary(bytes, (#[trigger] spans[i]).0)
            && is_char_boundary(bytes, spans[i].1)
}

/// The items that the inclusive-right policy yields from `last` on: each
/// item runs up to the end of the next match, and the remainder after the
/// last match follows.
pub open spec fn items_right<A>(data: Seq<A>, spans: Seq<(int, int)>, last: int) -> Seq<Seq<A>>
    decreases spans.len(),
{
    if spans.len() == 0 {
        seq![data.subrange(last, data.len() as int)]
    } else {
        seq![data.subrange(last, spans[0].1)] + items_right(data, spans.drop_first(), spans[0].1)
    }
}

/// The items that the inclusive-left policy yields from `last` on: each item
/// runs up to the start of the next match, so that the match opens the item
/// after it, and the remainder after the last match follows.
pub open spec fn items_left<A>(data: Seq<A>, spans: Seq<(int, int)>, last: int) -> Seq<Seq<A>>
    decreases spans.len(),
{
    if spans.len() == 0 {
        seq![data.subrange(last, data.len() as int)]
    } else {
        seq![data.subrange(last, spans[0].0)] + items_left(data, spans.drop_first(), spans[0].0)
    }
}

proof fn lemma_ordered_tail(spans: Seq<(int, int)>, from: int, len: int, next: int)
    requires
        spans_ordered(spans, from, len),
        spans.len() > 0,
        spans[0].0 <= next <= spans[0].1,
    ensures
        spans_ordered(spans.drop_first(), next, len),
{
    let tail = spans.drop_first();
    assert forall|i: int| 0 <= i < tail.len() implies next <= #[trigger] tail[i].0 <= tail[i].1
        <= len by {
        assert(tail[i] == spans[i + 1]);
        assert(spans[0].1 <= spans[i + 1].0);
    }
    assert forall|i: int, j: int| 0 <= i < j < tail.len() implies (#[trigger] tail[i]).1 <= (
    #[trigger] tail[j]).0 by {
        assert(tail[i] == spans[i + 1]);
        assert(tail[j] == spans[j + 1]);
    }
}

/// Cutting after each match and gluing the items back together gives the
/// run back from `last` on; there is one item more than there are matches.
proof fn lemma_items_right(data: Seq<u8>, spans: Seq<(int, int)>, last: int)
    requires
        spans_ordered(spans, last, data.len() as int),
    ensures
        items_right(data, spans, last).flatten() == data.subrange(last, data.len() as int),
        items_right(data, spans, last).len() == spans.len() + 1,
    decreases spans.len(),
{
    let items = items_right(data, spans, last);
    if spans.len() == 0 {
        assert(items.drop_first() =~= Seq::<Seq<u8>>::empty());
        assert(items.drop_first().flatten() =~= Seq::<u8>::empty());
        assert(items.flatten() =~= data.subrange(last, data.len() as int));
    } else {
        let e = spans[0].1;
        lemma_ordered_tail(spans, last, data.len() as int, e);
        lemma_items_right(data, spans.drop_first(), e);
        assert(items.drop_first() =~= items_right(data, spans.drop_first(), e));
        assert(items.flatten() =~= data.subrange(last, data.len() as int));
    }
}

/// Cutting before each match and gluing the items back together gives the
/// run back from `last` on; there is one item more than there are matches.
proof fn lemma_items_left(data: Seq<u8>, spans: Seq<(int, int)>, last: int)
    requires
        spans_ordered(spans, last, data.len() as int),
    ensures
        items_left(data, spans, last).flatten() == data.subrange(last, data.len() as int),
        items_left(data, spans, last).len() == spans.len() + 1,
    decreases spans.len(),
{
    let items = items_left(data, spans, last);
    if spans.len() == 0 {
        assert(items.drop_first() =~= Seq::<Seq<u8>>::empty());
        assert(items.drop_first().flatten() =~= Seq::<u8>::empty());
        assert(items.flatten() =~= data.subrange(last, data.len() as int));
    } else {
        let s = spans[0].0;
        lemma_ordered_tail(spans, last, data.len() as int, s);
        lemma_items_left(data, spans.drop_first(), s);
        assert(items.drop_first() =~= items_left(data, spans.drop_first(), s));
        assert(items.flatten() =~= data.subrange(last, data.len() as int));
    }
}

/// Where item `k` of a split starts: at `last` for the first item, else
/// at `cut` of the span before it.
pub open spec fn item_start(spans: Seq<(int, int)>, last: int, k: int, cut: spec_fn(
    (int, int),
) -> int) -> int {
    if k == 0 {
        last
    } else {
        cut(spans[k - 1])
    }
}

/// Where item `k` of a split ends: at `cut` of its span, or at the end of
/// the run for the trailing item.
pub open spec fn item_end(spans: Seq<(int, int)>, len: int, k: int, cut: spec_fn(
    (int, int),
) -> int) -> int {
    if k < spans.len() {
        cut(spans[k])
    } else {
        len
    }
}

proof fn lemma_item_right_at(data: Seq<u8>, spans: Seq<(int, int)>, last: int, k: int)
    requires
        spans_ordered(spans, last, data.len() as int),
        0 <= k <= spans.len(),
    ensures
        items_right(data, spans, last)[k] == data.subrange(
            item_start(spans, last, k, |sp: (int, int)| sp.1),
            item_end(spans, data.len() as int, k, |sp: (int, int)| sp.1),
        ),
    decreases spans.len(),
{
    lemma_items_right(data, spans, last);
    if k > 0 {
        lemma_ordered_tail(spans, last, data.len() as int, spans[0].1);
        lemma_item_right_at(data, spans.drop_first(), spans[0].1, k - 1);
        assert(items_right(data, spans, last)[k] == items_right(
            data,
            spans.drop_first(),
            spans[0].1,
        )[k - 1]);
    }
}

proof fn lemma_item_left_at(data: Seq<u8>, spans: Seq<(int, int)>, last: int, k: int)
    requires
        spans_ordered(spans, last, data.len() as int),
        0 <= k <= spans.len(),
    ensures
        items_left(data, spans, last)[k] == data.subrange(
            item_start(spans, last, k, |sp: (int, int)| sp.0),
            item_end(spans, data.len() as int, k, |sp: (int, int)| sp.0),
        ),
    decreases spans.len(),
{
    lemma_items_left(data, spans, last);
    if k > 0 {
        lemma_ordered_tail(spans, last, data.len() as int, spans[0].0);
        lemma_item_left_at(data, spans.drop_first(), spans[0].0, k - 1);
        assert(items_left(data, spans, last)[k] == items_left(
            data,
            spans.drop_first(),
            spans[0].0,
        )[k - 1]);
    }
}

/// Splitting after each match and concatenating the items gives the whole
/// input back.
pub proof fn law_right_reassembles(data: Seq<u8>, spans: Seq<(int, int)>)
    requires
        spans_ordered(spans, 0, data.len() as int),
    ensures
        items_right(data, spans, 0).flatten() == data,
{
    lemma_items_right(data, spans, 0);
    assert(data.subrange(0, data.len() as int) =~= data);
}

/// Splitting before each match and concatenating the items gives the whole
/// input back.
pub proof fn law_left_reassembles(data: Seq<u8>, spans: Seq<(int, int)>)
    requires
        spans_ordered(spans, 0, data.len() as int),
    ensures
        items_left(data, spans, 0).flatten() == data,
{
    lemma_items_left(data, spans, 0);
    assert(data.subrange(0, data.len() as int) =~= data);
}

/// Either policy yields exactly one item more than there are matches.
pub proof fn law_item_count(data: Seq<u8>, spans: Seq<(int, int)>)
    requires
        spans_ordered(spans, 0, data.len() as int),
    ensures
        items_right(data, spans, 0).len() == spans.len() + 1,
        items_left(data, spans, 0).len() == spans.len() + 1,
{
    lemma_items_right(data, spans, 0);
    lemma_items_left(data, spans, 0);
}

/// Item `k` of the inclusive-right split runs from the end of match `k - 1`
/// (or the start of the input) to the end of match `k` (or the end of the
/// input); of the inclusive-left split, from the start of match `k - 1` to
/// the start of match `k`.
pub proof fn law_item_bounds(data: Seq<u8>, spans: Seq<(int, int)>, k: int)
    requires
        spans_ordered(spans, 0, data.len() as int),
        0 <= k <= spans.len(),
    ensures
        items_right(data, spans, 0)[k] == data.subrange(
            item_start(spans, 0, k, |sp: (int, int)| sp.1),
            item_end(spans, data.len() as int, k, |sp: (int, int)| sp.1),
        ),
        items_left(data, spans, 0)[k] == data.subrange(
            item_start(spans, 0, k, |sp: (int, int)| sp.0),
            item_end(spans, data.len() as int, k, |sp: (int, int)| sp.0),
        ),
{
    lemma_item_right_at(data, spans, 0, k);
    lemma_item_left_at(data, spans, 0, k);
}

/// An empty match at offset `p` still cuts the input there: under either
/// policy the item before the cut ends at `p` and the item after it starts
/// at `p`, each possibly empty.
pub proof fn law_empty_match_cuts(data: Seq<u8>, spans: Seq<(int, int)>, k: int)
    requires
        spans_ordered(spans, 0, data.len() as int),
        0 <= k < spans.len(),
        spans[k].0 == spans[k].1,
    ensures
        items_right(data, spans, 0)[k] == data.subrange(
            item_start(spans, 0, k, |sp: (int, int)| sp.1),
            spans[k].0,
        ),
        items_right(data, spans, 0)[k + 1] == data.subrange(
            spans[k].0,
            item_end(spans, data.len() as int, k + 1, |sp: (int, int)| sp.1),
        ),
        items_left(data, spans, 0)[k] == data.subrange(
            item_start(spans, 0, k, |sp: (int, int)| sp.0),
            spans[k].0,
        ),
        items_left(data, spans, 0)[k + 1] == data.subrange(
            spans[k].0,
            item_end(spans, data.len() as int, k + 1, |sp: (int, int)| sp.0),
        ),
{
    law_item_bounds(data, spans, k);
    law_item_bounds(data, spans, k + 1);
}

/// On ASCII text, splitting the text (whose items are read as UTF-8 bytes)
/// and splitting the bytes that are its characters give the same items.
pub proof fn law_ascii_text_as_bytes(text: &str, spans: Seq<(int, int)>)
    ensures
        is_ascii(text) ==> items_right(text.spec_bytes(), spans, 0) == items_right(
            text@.map_values(|c: char| c as u8),
            spans,
            0,
        ),
        is_ascii(text) ==> items_left(text.spec_bytes(), spans, 0) == items_left(
            text@.map_values(|c: char| c as u8),
            spans,
            0,
        ),
{
    if is_ascii(text) {
        is_ascii_spec_bytes(text);
        assert(text.spec_bytes() =~= text@.map_values(|c: char| c as u8));
    }
}

} // verus!
