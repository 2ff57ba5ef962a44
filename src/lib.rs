//! Splitting by a regular expression while keeping the delimiters.
//!
//! `RegexSplit` adds two operations to a compiled `regex::Regex`:
//! `split_inclusive` cuts the text after each match, so that every item but
//! the last ends with its match; `split_inclusive_left` cuts before each
//! match, so that every item but the first starts with its match. Both hand
//! out borrowed pieces of the text, one per call of `next`, and gluing the
//! pieces together gives the text back. `bytes::RegexSplit` does the same for
//! `regex::bytes::Regex`.
pub mod bytes;
pub mod matcher;
pub mod spans;

use vstd::prelude::*;
use vstd::string::StringSliceAdditionalSpecFns;
use vstd::utf8::*;
use crate::matcher::{text_find_iter, text_next_span, text_spans_ahead};
use crate::spans::{items_left, items_right, on_char_boundaries, spans_ordered, Phase};

verus! {

broadcast use {encode_utf8_valid_utf8, is_char_boundary_start_end_of_seq};

/// The piece `[from, to)`, in bytes, of `text`.
fn str_range<'t>(text: &'t str, from: usize, to: usize) -> (r: &'t str)
    requires
        from <= to <= text.spec_bytes().len(),
        is_char_boundary(text.spec_bytes(), from as int),
        is_char_boundary(text.spec_bytes(), to as int),
    ensures
        r.spec_bytes() == text.spec_bytes().subrange(from as int, to as int),
{
    let bytes = Ghost(text.spec_bytes());
    proof {
        encode_utf8_valid_utf8(text@);
        valid_utf8_split(bytes@, from as int);
    }
    let (_, rest) = text.split_at(from);
    proof {
        let tail = rest.spec_bytes();
        let k = (to - from) as int;
        if to as int == bytes@.len() {
            is_char_boundary_start_end_of_seq(tail);
            assert(k == tail.len());
        } else {
            is_char_boundary_iff_not_is_continuation_byte(bytes@, to as int);
            is_char_boundary_iff_not_is_continuation_byte(tail, k);
            assert(tail[k] == bytes@[to as int]);
        }
    }
    let (piece, _) = rest.split_at(to - from);
    piece
}


/// Adds inclusive splitting to a compiled pattern.
pub trait RegexSplit {
    /// Splits `text` after each match: every item but the last ends with the
    /// match that closed it. The text is not copied.
    fn split_inclusive<'r, 't>(&'r self, text: &'t str) -> (r: SplitInclusive<'r, 't>)
        ensures
            r.wf(),
            r.source() == text.spec_bytes(),
            spans_ordered(r.spans_ahead(), 0, text.spec_bytes().len() as int),
            on_char_boundaries(r.spans_ahead(), text.spec_bytes()),
            r.items() == items_right(text.spec_bytes(), r.spans_ahead(), 0),
    ;

    /// Splits `text` before each match: every item but the first starts with
    /// the match that opened it. The text is not copied.
    fn split_inclusive_left<'r, 't>(&'r self, text: &'t str) -> (r: SplitInclusiveLeft<'r, 't>)
        ensures
            r.wf(),
            r.source() == text.spec_bytes(),
            spans_ordered(r.spans_ahead(), 0, text.spec_bytes().len() as int),
            on_char_boundaries(r.spans_ahead(), text.spec_bytes()),
            r.items() == items_left(text.spec_bytes(), r.spans_ahead(), 0),
    ;
}

/// Yields the pieces of a text cut after each match of a pattern,
/// each piece ending with its match.
pub struct SplitInclusive<'r, 't> {
    finder: regex::Matches<'r, 't>,
    last: usize,
    text: &'t str,
    phase: Phase,
}

impl<'r, 't> SplitInclusive<'r, 't> {
    /// The UTF-8 encoding of the text being split.
    pub closed spec fn source(&self) -> Seq<u8> {
        self.text.spec_bytes()
    }

    /// The match spans that the match source has still to yield.
    pub closed spec fn spans_ahead(&self) -> Seq<(int, int)> {
        text_spans_ahead(self.finder)
    }

    /// The items that `next` has still to hand out, in order.
    pub closed spec fn items(&self) -> Seq<Seq<u8>> {
        match self.phase {
            Phase::Active => items_right(self.text.spec_bytes(), self.spans_ahead(), self.last as int),
            _ => seq![],
        }
    }

    /// What holds between calls: the cursor lies inside the input and, while
    /// matches may still come, they lie ahead of it and in order.
    pub closed spec fn wf(&self) -> bool {
        &&& self.last <= self.text.spec_bytes().len()
        &&& self.phase is Active ==> spans_ordered(
            self.spans_ahead(),
            self.last as int,
            self.text.spec_bytes().len() as int,
        )
        &&& self.phase is Active ==> on_char_boundaries(self.spans_ahead(), self.text.spec_bytes())
        &&& self.phase is Active ==> is_char_boundary(self.text.spec_bytes(), self.last as int)
    }

    /// Hands out the next item, or `None` once every item has been handed out;
    /// from then on it keeps returning `None`.
    pub fn next(&mut self) -> (r: Option<&'t str>)
        requires
            old(self).wf(),
        ensures
            final(self).wf(),
            final(self).source() == old(self).source(),
            match r {
                None => old(self).items().len() == 0 && final(self).items().len() == 0,
                Some(piece) => {
                    &&& old(self).items().len() > 0
                    &&& piece.spec_bytes() == old(self).items()[0]
                    &&& final(self).items() == old(self).items().drop_first()
                },
            },
    {
        match self.phase {
            Phase::Active => {
                match text_next_span(&mut self.finder) {
                    Some(span) => {
                        let end = span.1;
                        let piece = str_range(self.text, self.last, end);
                        self.last = end;
                        Some(piece)
                    },
                    None => {
                        let len = self.text.as_bytes().len();
                        let piece = str_range(self.text, self.last, len);
                        self.last = len;
                        self.phase = Phase::Draining;
                        Some(piece)
                    },
                }
            },
            Phase::Draining => {
                self.phase = Phase::Done;
                None
            },
            Phase::Done => None,
        }
    }
}

/// Yields the pieces of a text cut before each match of a pattern,
/// each piece after the first starting with its match.
pub struct SplitInclusiveLeft<'r, 't> {
    finder: regex::Matches<'r, 't>,
    last: usize,
    text: &'t str,
    phase: Phase,
}

impl<'r, 't> SplitInclusiveLeft<'r, 't> {
    /// The UTF-8 encoding of the text being split.
    pub closed spec fn source(&self) -> Seq<u8> {
        self.text.spec_bytes()
    }

    /// The match spans that the match source has still to yield.
    pub closed spec fn spans_ahead(&self) -> Seq<(int, int)> {
        text_spans_ahead(self.finder)
    }

    /// The items that `next` has still to hand out, in order.
    pub closed spec fn items(&self) -> Seq<Seq<u8>> {
        match self.phase {
            Phase::Active => items_left(self.text.spec_bytes(), self.spans_ahead(), self.last as int),
            _ => seq![],
        }
    }

    /// What holds between calls: the cursor lies inside the input and, while
    /// matches may still come, they lie ahead of it and in order.
    pub closed spec fn wf(&self) -> bool {
        &&& self.last <= self.text.spec_bytes().len()
        &&& self.phase is Active ==> spans_ordered(
            self.spans_ahead(),
            self.last as int,
            self.text.spec_bytes().len() as int,
        )
        &&& self.phase is Active ==> on_char_boundaries(self.spans_ahead(), self.text.spec_bytes())
        &&& self.phase is Active ==> is_char_boundary(self.text.spec_bytes(), self.last as int)
    }

    /// Hands out the next item, or `None` once every item has been handed out;
    /// from then on it keeps returning `None`.
    pub fn next(&mut self) -> (r: Option<&'t str>)
        requires
            old(self).wf(),
        ensures
            final(self).wf(),
            final(self).source() == old(self).source(),
            match r {
                None => old(self).items().len() == 0 && final(self).items().len() == 0,
                Some(piece) => {
                    &&& old(self).items().len() > 0
                    &&& piece.spec_bytes() == old(self).items()[0]
                    &&& final(self).items() == old(self).items().drop_first()
                },
            },
    {
        match self.phase {
            Phase::Active => {
                match text_next_span(&mut self.finder) {
                    Some(span) => {
                        let start = span.0;
                        let piece = str_range(self.text, self.last, start);
                        self.last = start;
                        Some(piece)
                    },
                    None => {
                        let len = self.text.as_bytes().len();
                        let piece = str_range(self.text, self.last, len);
                        self.last = len;
                        self.phase = Phase::Draining;
                        Some(piece)
                    },
                }
            },
            Phase::Draining => {
                self.phase = Phase::Done;
                None
            },
            Phase::Done => None,
        }
    }
}

impl RegexSplit for regex::Regex {
    fn split_inclusive<'r, 't>(&'r self, text: &'t str) -> (r: SplitInclusive<'r, 't>) {
        SplitInclusive { finder: text_find_iter(self, text), last: 0, text, phase: Phase::Active }
    }

    fn split_inclusive_left<'r, 't>(&'r self, text: &'t str) -> (r: SplitInclusiveLeft<'r, 't>) {
        SplitInclusiveLeft {
            finder: text_find_iter(self, text),
            last: 0,
            text,
            phase: Phase::Active,
        }
    }
}

} // verus!
