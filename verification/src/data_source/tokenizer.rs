use vstd::prelude::*;
use crate::data_source::read_delimited::{char_index, is_delim, is_delimiter, DelimiterKind, Direction};
use crate::data_source::text::{pos, byte_len, Text};
use crate::interval::Integer;

verus! {

/// Where the scan over a token stands.
#[derive(PartialEq, Eq, Structural, Copy, Clone, Debug)]
pub enum State {
    InToken,
    InWhitespace,
    DetermineIfTokenBoundary,
}

pub open spec fn word_delim(c: char) -> bool {
    is_delim(DelimiterKind::NonWordChar, c)
}

/// The state after the first char of a scan.
pub open spec fn first_state(c: char) -> State {
    if !word_delim(c) {
        State::DetermineIfTokenBoundary
    } else {
        State::InWhitespace
    }
}

/// Forward scan from index `i`; `prev` is the index of the last char taken. The result is the
/// index where the next token begins, or the last char taken when the text ends.
pub open spec fn skip_forward(s: Seq<char>, i: int, state: State, prev: int) -> int
    decreases s.len() - i,
{
    if i < 0 || i >= s.len() {
        prev
    } else {
        let c = s[i];
        match state {
            State::DetermineIfTokenBoundary => skip_forward(
                s,
                i + 1,
                if !word_delim(c) {
                    State::InToken
                } else {
                    State::InWhitespace
                },
                i,
            ),
            State::InWhitespace => if !word_delim(c) {
                i
            } else {
                skip_forward(s, i + 1, State::InWhitespace, i)
            },
            State::InToken => if word_delim(c) {
                prev
            } else {
                skip_forward(s, i + 1, State::InToken, i)
            },
        }
    }
}

/// The same scan, moving backward from index `i`.
pub open spec fn skip_backward(s: Seq<char>, i: int, state: State, prev: int) -> int
    decreases i + 1,
{
    if i < 0 || i >= s.len() {
        prev
    } else {
        let c = s[i];
        match state {
            State::DetermineIfTokenBoundary => skip_backward(
                s,
                i - 1,
                if !word_delim(c) {
                    State::InToken
                } else {
                    State::InWhitespace
                },
                i,
            ),
            State::InWhitespace => if !word_delim(c) {
                i
            } else {
                skip_backward(s, i - 1, State::InWhitespace, i)
            },
            State::InToken => if word_delim(c) {
                prev
            } else {
                skip_backward(s, i - 1, State::InToken, i)
            },
        }
    }
}

/// Char index where `skip_token` ends, or `None` when there is no char to start from.
pub open spec fn skip_token_index(s: Seq<char>, o: int, direction: Direction) -> Option<int> {
    let idx = char_index(s, o);
    match direction {
        Direction::Forward => if idx < s.len() {
            Some(skip_forward(s, idx + 1, first_state(s[idx]), idx))
        } else {
            None
        },
        Direction::Backward => {
            let b = if idx < s.len() {
                idx
            } else {
                s.len() - 1
            };
            if b >= 0 {
                Some(skip_backward(s, b - 1, first_state(s[b]), b))
            } else {
                None
            }
        },
    }
}

/// Forward from a word char at index `i` whose word goes on to index `j - 1` (the word ends
/// where a delimiter or the end of the text comes), the token skip lands on the last char of the
/// word, at index `j - 1`; `skip_token` then answers with that char's offset.
pub proof fn lemma_skip_forward_reaches_word_end(s: Seq<char>, i: int, j: int)
    requires
        0 <= i,
        i + 1 < j <= s.len(),
        forall|k: int| i <= k < j ==> !word_delim(#[trigger] s[k]),
        j < s.len() ==> word_delim(s[j]),
    ensures
        pos(s, i) <= byte_len(s),
        skip_token_index(s, pos(s, i) as int, Direction::Forward) == Some(j - 1),
        forall|k: int| i < k < j ==> #[trigger] pos(s, k) <= pos(s, j - 1),
{
    assert forall|q: int| 0 <= q < i implies pos(s, q) < pos(s, i) by {
        crate::data_source::text::lemma_pos_monotonic(s, q, i);
    }
    crate::data_source::read_delimited::lemma_index_from_pub(s, pos(s, i) as int, i);
    crate::data_source::text::lemma_pos_monotonic(s, i, s.len() as int);
    crate::data_source::text::lemma_pos_full(s);
    assert(!word_delim(s[i]) && !word_delim(s[i + 1]));
    lemma_in_token_runs_to_word_end(s, i + 2, j);
    assert(skip_forward(s, i + 1, State::DetermineIfTokenBoundary, i) == skip_forward(s, i + 2, State::InToken, i + 1));
    assert forall|k: int| i < k < j implies #[trigger] pos(s, k) <= pos(s, j - 1) by {
        crate::data_source::text::lemma_pos_monotonic(s, k, j - 1);
    }
}

/// Inside a word, the forward scan goes on to the word's last char.
proof fn lemma_in_token_runs_to_word_end(s: Seq<char>, k: int, j: int)
    requires
        1 <= k <= j <= s.len(),
        forall|q: int| k - 1 <= q < j ==> !word_delim(#[trigger] s[q]),
        j < s.len() ==> word_delim(s[j]),
    ensures
        skip_forward(s, k, State::InToken, k - 1) == j - 1,
    decreases j - k,
{
    if k < j {
        lemma_in_token_runs_to_word_end(s, k + 1, j);
        assert(!word_delim(s[k]));
    }
}

/// Forward from a delimiter at index `i` followed by more delimiters up to index `j`, the token
/// skip lands on the word char at `j` that begins the next word; when the text ends before a
/// word begins, on its last char.
pub proof fn lemma_skip_forward_reaches_next_word(s: Seq<char>, i: int, j: int)
    requires
        0 <= i < j <= s.len(),
        forall|k: int| i <= k < j ==> word_delim(#[trigger] s[k]),
        j < s.len() ==> !word_delim(s[j]),
    ensures
        pos(s, i) <= byte_len(s),
        skip_token_index(s, pos(s, i) as int, Direction::Forward) == Some(if j < s.len() { j } else { j - 1 }),
{
    assert forall|q: int| 0 <= q < i implies pos(s, q) < pos(s, i) by {
        crate::data_source::text::lemma_pos_monotonic(s, q, i);
    }
    crate::data_source::read_delimited::lemma_index_from_pub(s, pos(s, i) as int, i);
    crate::data_source::text::lemma_pos_monotonic(s, i, s.len() as int);
    crate::data_source::text::lemma_pos_full(s);
    assert(word_delim(s[i]));
    lemma_in_whitespace_runs_to_word(s, i + 1, j);
}

/// Among delimiters, the forward scan goes on to the next word char, or to the last char.
proof fn lemma_in_whitespace_runs_to_word(s: Seq<char>, k: int, j: int)
    requires
        1 <= k <= j <= s.len(),
        forall|q: int| k - 1 <= q < j ==> word_delim(#[trigger] s[q]),
        j < s.len() ==> !word_delim(s[j]),
    ensures
        skip_forward(s, k, State::InWhitespace, k - 1) == if j < s.len() { j } else { j - 1 },
    decreases j - k,
{
    if k < j {
        lemma_in_whitespace_runs_to_word(s, k + 1, j);
        assert(word_delim(s[k]));
    }
}

/// Backward from a word char at index `i` whose word goes back to index `j + 1` (the word
/// begins after a delimiter at `j`, or at the start of the text when `j` is `-1`), the token skip
/// lands on the first char of the word.
pub proof fn lemma_skip_backward_reaches_word_start(s: Seq<char>, i: int, j: int)
    requires
        -1 <= j,
        j + 1 < i < s.len(),
        forall|k: int| j < k <= i ==> !word_delim(#[trigger] s[k]),
        j >= 0 ==> word_delim(s[j]),
    ensures
        pos(s, i) <= byte_len(s),
        skip_token_index(s, pos(s, i) as int, Direction::Backward) == Some(j + 1),
{
    assert forall|q: int| 0 <= q < i implies pos(s, q) < pos(s, i) by {
        crate::data_source::text::lemma_pos_monotonic(s, q, i);
    }
    crate::data_source::read_delimited::lemma_index_from_pub(s, pos(s, i) as int, i);
    crate::data_source::text::lemma_pos_monotonic(s, i, s.len() as int);
    crate::data_source::text::lemma_pos_full(s);
    assert(!word_delim(s[i]) && !word_delim(s[i - 1]));
    lemma_in_token_runs_to_word_start(s, i - 2, j);
    assert(skip_backward(s, i - 1, State::DetermineIfTokenBoundary, i) == skip_backward(s, i - 2, State::InToken, i - 1));
}

/// Inside a word, the backward scan goes on to the word's first char.
proof fn lemma_in_token_runs_to_word_start(s: Seq<char>, k: int, j: int)
    requires
        -1 <= j <= k < s.len() - 1,
        forall|q: int| j < q <= k + 1 ==> !word_delim(#[trigger] s[q]),
        j >= 0 ==> word_delim(s[j]),
    ensures
        skip_backward(s, k, State::InToken, k + 1) == j + 1,
    decreases k - j,
{
    if k > j {
        lemma_in_token_runs_to_word_start(s, k - 1, j);
        assert(!word_delim(s[k]));
    }
}

/// Skips a token starting from `offset` in `direction`. A token is a group of either word chars
/// or delimiters; the result is the offset of the first char of the next group of word chars,
/// or of the last char passed. An offset beyond the text is returned unchanged; a negative one
/// is refused.
pub fn skip_token(offset: Integer, direction: Direction, text: &Text) -> (r: Result<Integer, ()>)
    ensures
        offset < 0 ==> r is Err,
        offset >= 0 && offset > byte_len(text.view()) ==> r == Ok::<Integer, ()>(offset),
        offset >= 0 && offset <= byte_len(text.view()) ==> r == Ok::<Integer, ()>(
            match skip_token_index(text.view(), offset as int, direction) {
                Some(k) => pos(text.view(), k) as Integer,
                None => offset,
            },
        ),
{
    if offset < 0 {
        return Err(());
    }
    let total = text.total();
    if offset > total {
        return Ok(offset);
    }
    let ghost s = text.view();
    let len = text.len();
    let idx = text.index_of_offset(offset);
    proof {
        crate::data_source::read_delimited::lemma_index_from_pub(s, offset as int, idx as int);
    }
    match direction {
        Direction::Forward => {
            if idx >= len {
                return Ok(offset);
            }
            let c0 = text.char_at(idx);
            let mut state = if !is_delimiter(DelimiterKind::NonWordChar, c0) {
                State::DetermineIfTokenBoundary
            } else {
                State::InWhitespace
            };
            let mut prev = idx;
            let mut i = idx + 1;
            let ghost goal = skip_forward(s, idx + 1, first_state(c0), idx as int);
            loop
                invariant_except_break
                    skip_forward(s, i as int, state, prev as int) == goal,
                invariant
                    s == text.view(),
                    len == s.len(),
                    idx < i <= len,
                    prev <= i,
                    prev < len,
                ensures
                    prev == goal,
                    prev < len,
                decreases len - i,
            {
                if i >= len {
                    break;
                }
                let c = text.char_at(i);
                let delim = is_delimiter(DelimiterKind::NonWordChar, c);
                match state {
                    State::DetermineIfTokenBoundary => {
                        state = if !delim {
                            State::InToken
                        } else {
                            State::InWhitespace
                        };
                    },
                    State::InWhitespace => {
                        if !delim {
                            prev = i;
                            break;
                        }
                    },
                    State::InToken => {
                        if delim {
                            break;
                        }
                    },
                }
                prev = i;
                i = i + 1;
            }
            Ok(text.offset_at(prev))
        },
        Direction::Backward => {
            if len == 0 {
                return Ok(offset);
            }
            let b = if idx < len {
                idx
            } else {
                len - 1
            };
            let c0 = text.char_at(b);
            let mut state = if !is_delimiter(DelimiterKind::NonWordChar, c0) {
                State::DetermineIfTokenBoundary
            } else {
                State::InWhitespace
            };
            let mut prev = b;
            let mut i = b;
            let ghost goal = skip_backward(s, b - 1, first_state(c0), b as int);
            loop
                invariant_except_break
                    skip_backward(s, i - 1, state, prev as int) == goal,
                invariant
                    s == text.view(),
                    len == s.len(),
                    i <= b < len,
                    i <= prev + 1,
                    prev <= b,
                ensures
                    prev == goal,
                    prev < len,
                decreases i,
            {
                if i == 0 {
                    break;
                }
                let k = i - 1;
                let c = text.char_at(k);
                let delim = is_delimiter(DelimiterKind::NonWordChar, c);
                match state {
                    State::DetermineIfTokenBoundary => {
                        state = if !delim {
                            State::InToken
                        } else {
                            State::InWhitespace
                        };
                    },
                    State::InWhitespace => {
                        if !delim {
                            prev = k;
                            break;
                        }
                    },
                    State::InToken => {
                        if delim {
                            break;
                        }
                    },
                }
                prev = k;
                i = k;
            }
            Ok(text.offset_at(prev))
        },
    }
}

} // verus!
