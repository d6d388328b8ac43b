//! The field parser: a two-state machine that scans the recognized
//! lines of one image for a 14-digit tracking number following the
//! label keyword.
//!
//! Scanning state: a candidate line (one at least as long as the
//! keyword) that contains the keyword is split on `':'` into non-empty
//! tokens. Anything other than exactly two tokens moves the machine to
//! the awaiting state (the value likely wrapped to the next line). With
//! two tokens, the second is trimmed: a trimmed length other than 14
//! aborts the whole search with no match; 14 digits are a match; 14
//! characters with a non-digit move to the awaiting state. Awaiting
//! state: the next candidate line matches iff its full text is numeric;
//! either way the machine never returns to general scanning.

use vstd::prelude::*;
use vstd::string::*;

use crate::geometry::Rectangle;
use crate::text::{
    contains_keyword, digits_in_range, has_keyword, is_digit, is_number, numeric, token_pair,
    token_ranges, trim_range, trimmed, RecognizedLine, KEYWORD_LEN, TRACK_LEN,
};

verus! {

/// A successfully located tracking number: the 14-digit text and the
/// bounding box of the first word of the line it was found on, when
/// that line has word geometry.
pub struct TrackMatch {
    pub track_number: String,
    pub rect: Option<Rectangle>,
}

/// The bounding box of the first word of a line, if the line has any.
pub open spec fn first_rect(l: RecognizedLine) -> Option<Rectangle> {
    if l.words@.len() > 0 {
        Some(l.words@[0])
    } else {
        None
    }
}

/// A line long enough to contain the keyword; shorter lines are skipped
/// in either state.
pub open spec fn candidate(l: RecognizedLine) -> bool {
    l.text@.len() >= KEYWORD_LEN
}

/// The second colon-token of `s`, trimmed; meaningful when `s` splits
/// into exactly two non-empty tokens.
pub open spec fn second_trimmed(s: Seq<char>) -> Seq<char> {
    let r = token_ranges(s)[1];
    trimmed(s, r.0, r.1)
}

/// What the field parser returns on the lines `lines[i..]`, starting in
/// the awaiting state iff `awaiting`: the tracking number's characters
/// and the reported rectangle, or `None` when there is no match.
pub open spec fn spec_find(lines: Seq<RecognizedLine>, i: int, awaiting: bool) -> Option<
    (Seq<char>, Option<Rectangle>),
>
    decreases lines.len() - i,
{
    if i < 0 || i >= lines.len() {
        None
    } else if !candidate(lines[i]) {
        spec_find(lines, i + 1, awaiting)
    } else if awaiting {
        if numeric(lines[i].text@) {
            Some((lines[i].text@, first_rect(lines[i])))
        } else {
            None
        }
    } else if !contains_keyword(lines[i].text@) {
        spec_find(lines, i + 1, false)
    } else if token_ranges(lines[i].text@).len() != 2 {
        spec_find(lines, i + 1, true)
    } else if second_trimmed(lines[i].text@).len() != TRACK_LEN {
        None
    } else if numeric(second_trimmed(lines[i].text@)) {
        Some((second_trimmed(lines[i].text@), first_rect(lines[i])))
    } else {
        spec_find(lines, i + 1, true)
    }
}

/// The outcome of the field parser on a whole image's lines.
pub open spec fn spec_parse(lines: Seq<RecognizedLine>) -> Option<
    (Seq<char>, Option<Rectangle>),
> {
    spec_find(lines, 0, false)
}

/// The field parser is deterministic: a fixed sequence of recognized
/// lines always yields the same outcome.
pub proof fn lemma_parser_deterministic(
    lines: Seq<RecognizedLine>,
    r1: Option<(Seq<char>, Option<Rectangle>)>,
    r2: Option<(Seq<char>, Option<Rectangle>)>,
)
    requires
        r1 == spec_parse(lines),
        r2 == spec_parse(lines),
    ensures
        r1 == r2,
{
}

/// Every tracking number the parser returns is a non-empty string of
/// decimal digits, at least as long as the keyword.
pub proof fn lemma_match_numeric(lines: Seq<RecognizedLine>, i: int, awaiting: bool)
    ensures
        spec_find(lines, i, awaiting) matches Some(m) ==> numeric(m.0) && m.0.len()
            >= KEYWORD_LEN,
    decreases lines.len() - i,
{
    if i < 0 || i >= lines.len() {
    } else if !candidate(lines[i]) {
        lemma_match_numeric(lines, i + 1, awaiting);
    } else if awaiting {
    } else if !contains_keyword(lines[i].text@) {
        lemma_match_numeric(lines, i + 1, false);
    } else if token_ranges(lines[i].text@).len() != 2 {
        lemma_match_numeric(lines, i + 1, true);
    } else if second_trimmed(lines[i].text@).len() != TRACK_LEN {
    } else if numeric(second_trimmed(lines[i].text@)) {
    } else {
        lemma_match_numeric(lines, i + 1, true);
    }
}

/// Every tracking number the parser returns has exactly 14 characters,
/// provided every all-numeric candidate line has exactly 14 characters.
/// The proviso is needed because the awaiting state returns a numeric
/// continuation line's full text whatever its length.
pub proof fn lemma_match_len(lines: Seq<RecognizedLine>, i: int, awaiting: bool)
    requires
        forall|j: int|
            0 <= j < lines.len() && candidate(#[trigger] lines[j]) && numeric(lines[j].text@)
                ==> lines[j].text@.len() == TRACK_LEN,
    ensures
        spec_find(lines, i, awaiting) matches Some(m) ==> m.0.len() == TRACK_LEN && numeric(m.0),
    decreases lines.len() - i,
{
    if i < 0 || i >= lines.len() {
    } else if !candidate(lines[i]) {
        lemma_match_len(lines, i + 1, awaiting);
    } else if awaiting {
    } else if !contains_keyword(lines[i].text@) {
        lemma_match_len(lines, i + 1, false);
    } else if token_ranges(lines[i].text@).len() != 2 {
        lemma_match_len(lines, i + 1, true);
    } else if second_trimmed(lines[i].text@).len() != TRACK_LEN {
    } else if numeric(second_trimmed(lines[i].text@)) {
    } else {
        lemma_match_len(lines, i + 1, true);
    }
}

/// While no candidate line contains the keyword, scanning just moves
/// forward: the outcome from position `k` equals the outcome from `i`.
proof fn lemma_scan_skips(lines: Seq<RecognizedLine>, k: int, i: int)
    requires
        0 <= k <= i <= lines.len(),
        forall|j: int|
            k <= j < i && candidate(#[trigger] lines[j]) ==> !contains_keyword(lines[j].text@),
    ensures
        spec_find(lines, k, false) == spec_find(lines, i, false),
    decreases i - k,
{
    if k < i {
        lemma_scan_skips(lines, k + 1, i);
    }
}

/// Early abort: when the first keyword-bearing candidate line splits
/// into exactly two tokens whose trimmed second token does not have 14
/// characters, the whole image has no match, whatever lines follow.
pub proof fn lemma_early_abort(lines: Seq<RecognizedLine>, i: int)
    requires
        0 <= i < lines.len(),
        forall|j: int|
            0 <= j < i && candidate(#[trigger] lines[j]) ==> !contains_keyword(lines[j].text@),
        candidate(lines[i]),
        contains_keyword(lines[i].text@),
        token_ranges(lines[i].text@).len() == 2,
        second_trimmed(lines[i].text@).len() != TRACK_LEN,
    ensures
        spec_parse(lines) is None,
{
    lemma_scan_skips(lines, 0, i);
}

/// Continuation: when the first keyword-bearing candidate line has a
/// malformed split (not exactly two non-empty tokens) and the next
/// candidate line's full text is numeric, that text is the match.
pub proof fn lemma_continuation(lines: Seq<RecognizedLine>, i: int)
    requires
        0 <= i,
        i + 1 < lines.len(),
        forall|j: int|
            0 <= j < i && candidate(#[trigger] lines[j]) ==> !contains_keyword(lines[j].text@),
        candidate(lines[i]),
        contains_keyword(lines[i].text@),
        token_ranges(lines[i].text@).len() != 2,
        candidate(lines[i + 1]),
        numeric(lines[i + 1].text@),
    ensures
        spec_parse(lines) == Some((lines[i + 1].text@, first_rect(lines[i + 1]))),
{
    lemma_scan_skips(lines, 0, i);
    assert(spec_find(lines, i, false) == spec_find(lines, i + 1, true));
    assert(spec_find(lines, i + 1, true) == Some((lines[i + 1].text@, first_rect(lines[i + 1]))));
}

/// The bounding box of the first word of a line, if the line has any.
fn first_word_rect(line: &RecognizedLine) -> (r: Option<Rectangle>)
    ensures
        r == first_rect(*line),
{
    if line.words.len() > 0 {
        Some(line.words[0])
    } else {
        None
    }
}

/// Runs the field parser over the recognized lines of one image.
pub fn find_track_number(lines: &Vec<RecognizedLine>) -> (r: Option<TrackMatch>)
    ensures
        (r is Some) == (spec_parse(lines@) is Some),
        r matches Some(m) ==> spec_parse(lines@) == Some((m.track_number@, m.rect)),
{
    let mut awaiting = false;
    let mut i: usize = 0;
    while i < lines.len()
        invariant
            i <= lines@.len(),
            spec_parse(lines@) == spec_find(lines@, i as int, awaiting),
        decreases lines@.len() - i,
    {
        let line = &lines[i];
        let text = line.text.as_str();
        let n = text.unicode_len();
        if n >= KEYWORD_LEN {
            if awaiting {
                if is_number(text) {
                    let track = String::from_str(text);
                    return Some(TrackMatch { track_number: track, rect: first_word_rect(line) });
                } else {
                    return None;
                }
            } else if has_keyword(text) {
                match token_pair(text) {
                    None => {
                        awaiting = true;
                    },
                    Some((a, b)) => {
                        let (a2, b2) = trim_range(text, a, b);
                        proof {
                            assert(second_trimmed(text@) == text@.subrange(a2 as int, b2 as int));
                        }
                        if b2 - a2 != TRACK_LEN {
                            return None;
                        } else if digits_in_range(text, a2, b2) {
                            proof {
                                assert(forall|k: int|
                                    0 <= k < second_trimmed(text@).len() ==> is_digit(
                                        #[trigger] second_trimmed(text@)[k],
                                    ));
                            }
                            let track = String::from_str(text.substring_char(a2, b2));
                            return Some(
                                TrackMatch { track_number: track, rect: first_word_rect(line) },
                            );
                        } else {
                            proof {
                                assert(!numeric(second_trimmed(text@))) by {
                                    if numeric(second_trimmed(text@)) {
                                        let k = choose|k: int|
                                            a2 <= k < b2 && !is_digit(#[trigger] text@[k]);
                                        assert(second_trimmed(text@)[k - a2] == text@[k]);
                                        assert(false);
                                    }
                                }
                            }
                            awaiting = true;
                        }
                    },
                }
            }
        }
        i += 1;
    }
    None
}

} // verus!
