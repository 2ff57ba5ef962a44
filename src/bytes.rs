//! Inclusive splitting of byte strings, for `regex::bytes::Regex`.
use vstd::prelude::*;
use vstd::slice::slice_subrange;
use crate::matcher::{byte_find_iter, byte_next_span, byte_spans_ahead};
use crate::spans::{items_left, items_right, spans_ordered, Phase};

verus! {

/// Adds inclusive splitting to a compiled byte-string pattern.
pub trait RegexSplit {
    /// Splits `text` after each match: every item but the last ends with the
    /// match that closed it. The text is not copied.
    fn split_inclusive<'r, 't>(&'r self, text: &'t [u8]) -> (r: SplitInclusive<'r, 't>)
        ensures
            r.wf(),
            r.source() == text@,
            spans_ordered(r.spans_ahead(), 0, text@.len() as int),
            r.items() == items_right(text@, r.spans_ahead(), 0),
    ;

    /// Splits `text` before each match: every item but the first starts with
    /// the match that opened it. The text is not copied.
    fn split_inclusive_left<'r, 't>(&'r self, text: &'t [u8]) -> (r: SplitInclusiveLeft<'r, 't>)
        ensures
            r.wf(),
            r.source() == text@,
            spans_ordered(r.spans_ahead(), 0, text@.len() as int),
            r.items() == items_left(text@, r.spans_ahead(), 0),
    ;
}

/// Yields the pieces of a byte string cut after each match of a pattern,
/// each piece ending with its match.
pub struct SplitInclusive<'r, 't> {
    finder: regex::bytes::Matches<'r, 't>,
    last: usize,
    text: &'t [u8],
    phase: Phase,
}

impl<'r, 't> SplitInclusive<'r, 't> {
    /// The byte string being split.
    pub closed spec fn source(&self) -> Seq<u8> {
        self.text@
    }

    /// The match spans that the match source has still to yield.
    pub closed spec fn spans_ahead(&self) -> Seq<(int, int)> {
        byte_spans_ahead(self.finder)
    }

    /// The items that `next` has still to hand out, in order.
    pub closed spec fn items(&self) -> Seq<Seq<u8>> {
        match self.phase {
            Phase::Active => items_right(self.text@, self.spans_ahead(), self.last as int),
            _ => seq![],
        }
    }

    /// What holds between calls: the cursor lies inside the input and, while
    /// matches may still come, they lie ahead of it and in order.
    pub closed spec fn wf(&self) -> bool {
        &&& self.last <= self.text@.len()
        &&& self.phase is Active ==> spans_ordered(
            self.spans_ahead(),
            self.last as int,
            self.text@.len() as int,
        )
    }

    /// Hands out the next item, or `None` once every item has been handed out;
    /// from then on it keeps returning `None`.
    pub fn next(&mut self) -> (r: Option<&'t [u8]>)
        requires
            old(self).wf(),
        ensures
            final(self).wf(),
            final(self).source() == old(self).source(),
            match r {
                None => old(self).items().len() == 0 && final(self).items().len() == 0,
                Some(piece) => {
                    &&& old(self).items().len() > 0
                    &&& piece@ == old(self).items()[0]
                    &&& final(self).items() == old(self).items().drop_first()
                },
            },
    {
        match self.phase {
            Phase::Active => {
                match byte_next_span(&mut self.finder) {
                    Some(span) => {
                        let end = span.1;
                        let piece = slice_subrange(self.text, self.last, end);
                        self.last = end;
                        Some(piece)
                    },
                    None => {
                        let len = self.text.len();
                        let piece = slice_subrange(self.text, self.last, len);
                        self.last = len;
                        self.phase = Phase::Draining;
                        Some(piece)
                    },
                }
            },
            Phase::Draining => {
                self.phase = Phase::Done;
                None
            },
            Phase::Done => None,
        }
    }
}

/// Yields the pieces of a byte string cut before each match of a pattern,
/// each piece after the first starting with its match.
pub struct SplitInclusiveLeft<'r, 't> {
    finder: regex::bytes::Matches<'r, 't>,
    last: usize,
    text: &'t [u8],
    phase: Phase,
}

impl<'r, 't> SplitInclusiveLeft<'r, 't> {
    /// The byte string being split.
    pub closed spec fn source(&self) -> Seq<u8> {
        self.text@
    }

    /// The match spans that the match source has still to yield.
    pub closed spec fn spans_ahead(&self) -> Seq<(int, int)> {
        byte_spans_ahead(self.finder)
    }

    /// The items that `next` has still to hand out, in order.
    pub closed spec fn items(&self) -> Seq<Seq<u8>> {
        match self.phase {
            Phase::Active => items_left(self.text@, self.spans_ahead(), self.last as int),
            _ => seq![],
        }
    }

    /// What holds between calls: the cursor lies inside the input and, while
    /// matches may still come, they lie ahead of it and in order.
    pub closed spec fn wf(&self) -> bool {
        &&& self.last <= self.text@.len()
        &&& self.phase is Active ==> spans_ordered(
            self.spans_ahead(),
            self.last as int,
            self.text@.len() as int,
        )
    }

    /// Hands out the next item, or `None` once every item has been handed out;
    /// from then on it keeps returning `None`.
    pub fn next(&mut self) -> (r: Option<&'t [u8]>)
        requires
            old(self).wf(),
        ensures
            final(self).wf(),
            final(self).source() == old(self).source(),
            match r {
                None => old(self).items().len() == 0 && final(self).items().len() == 0,
                Some(piece) => {
                    &&& old(self).items().len() > 0
                    &&& piece@ == old(self).items()[0]
                    &&& final(self).items() == old(self).items().drop_first()
                },
            },
    {
        match self.phase {
            Phase::Active => {
                match byte_next_span(&mut self.finder) {
                    Some(span) => {
                        let start = span.0;
                        let piece = slice_subrange(self.text, self.last, start);
                        self.last = start;
                        Some(piece)
                    },
                    None => {
                        let len = self.text.len();
                        let piece = slice_subrange(self.text, self.last, len);
                        self.last = len;
                        self.phase = Phase::Draining;
                        Some(piece)
                    },
                }
            },
            Phase::Draining => {
                self.phase = Phase::Done;
                None
            },
            Phase::Done => None,
        }
    }
}

impl RegexSplit for regex::bytes::Regex {
    fn split_inclusive<'r, 't>(&'r self, text: &'t [u8]) -> (r: SplitInclusive<'r, 't>) {
        SplitInclusive { finder: byte_find_iter(self, text), last: 0, text, phase: Phase::Active }
    }

    fn split_inclusive_left<'r, 't>(&'r self, text: &'t [u8]) -> (r: SplitInclusiveLeft<'r, 't>) {
        SplitInclusiveLeft {
            finder: byte_find_iter(self, text),
            last: 0,
            text,
            phase: Phase::Active,
        }
    }
}

} // verus!
