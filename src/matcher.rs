//! The match source: the `regex` crate finds the matches, and these trusted
//! items state what its documentation promises of them.
use vstd::prelude::*;
use vstd::string::StringSliceAdditionalSpecFns;
use crate::spans::{on_char_boundaries, spans_ordered};

verus! {

#[verifier::external_type_specification]
#[verifier::external_body]
pub struct ExBytesRegex(regex::bytes::Regex);

#[verifier::external_type_specification]
#[verifier::external_body]
pub struct ExBytesMatches<'r, 'h>(regex::bytes::Matches<'r, 'h>);

/// The spans, as (start, end) byte offsets, that a byte-haystack match
/// iterator has still to yield, in the order it yields them.
pub uninterp spec fn byte_spans_ahead(m: regex::bytes::Matches) -> Seq<(int, int)>;

/// Relies on `regex::bytes::Regex::find_iter`: the successive non-overlapping
/// matches of the pattern in `haystack`, in order, each a range inside it.
#[verifier::external_body]
pub(crate) fn byte_find_iter<'r, 'h>(re: &'r regex::bytes::Regex, haystack: &'h [u8]) -> (r:
    regex::bytes::Matches<'r, 'h>)
    ensures
        spans_ordered(byte_spans_ahead(r), 0, haystack@.len() as int),
{
    re.find_iter(haystack)
}

/// Relies on `Iterator::next` of `regex::bytes::Matches`, with
/// `Match::start` and `Match::end`: the next span, or `None` when no match
/// is left.
#[verifier::external_body]
pub(crate) fn byte_next_span(m: &mut regex::bytes::Matches) -> (r: Option<(usize, usize)>)
    ensures
        match r {
            None => byte_spans_ahead(*old(m)).len() == 0,
            Some(sp) => {
                &&& byte_spans_ahead(*old(m)).len() > 0
                &&& byte_spans_ahead(*old(m))[0] == (sp.0 as int, sp.1 as int)
                &&& byte_spans_ahead(*final(m)) == byte_spans_ahead(*old(m)).drop_first()
            },
        },
{
    m.next().map(|x| (x.start(), x.end()))
}

#[verifier::external_type_specification]
#[verifier::external_body]
pub struct ExRegex(regex::Regex);

#[verifier::external_type_specification]
#[verifier::external_body]
pub struct ExMatches<'r, 'h>(regex::Matches<'r, 'h>);

/// The spans, as (start, end) byte offsets, that a text match iterator has
/// still to yield, in the order it yields them.
pub uninterp spec fn text_spans_ahead(m: regex::Matches) -> Seq<(int, int)>;

/// Relies on `regex::Regex::find_iter`: the successive non-overlapping
/// matches of the pattern in `haystack`, in order, each a range inside it
/// whose ends fall on UTF-8 codepoint boundaries (as `Match::start` and
/// `Match::end` promise).
#[verifier::external_body]
pub(crate) fn text_find_iter<'r, 'h>(re: &'r regex::Regex, haystack: &'h str) -> (r:
    regex::Matches<'r, 'h>)
    ensures
        spans_ordered(text_spans_ahead(r), 0, haystack.spec_bytes().len() as int),
        on_char_boundaries(text_spans_ahead(r), haystack.spec_bytes()),
{
    re.find_iter(haystack)
}

/// Relies on `Iterator::next` of `regex::Matches`, with `Match::start` and
/// `Match::end`: the next span, or `None` when no match is left.
#[verifier::external_body]
pub(crate) fn text_next_span(m: &mut regex::Matches) -> (r: Option<(usize, usize)>)
    ensures
        match r {
            None => text_spans_ahead(*old(m)).len() == 0,
            Some(sp) => {
                &&& text_spans_ahead(*old(m)).len() > 0
                &&& text_spans_ahead(*old(m))[0] == (sp.0 as int, sp.1 as int)
                &&& text_spans_ahead(*final(m)) == text_spans_ahead(*old(m)).drop_first()
            },
        },
{
    m.next().map(|x| (x.start(), x.end()))
}

} // verus!
