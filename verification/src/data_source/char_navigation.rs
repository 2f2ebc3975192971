use vstd::prelude::*;
use crate::data_source::read_delimited::{char_index, lemma_index_from_pub};
use crate::data_source::text::{char_width, lemma_pos_step, pos, Text};
use crate::interval::Integer;

verus! {

/// A char read from a text with the byte offset where it starts and its length in bytes.
#[derive(PartialEq, Eq, Structural, Copy, Clone, Debug)]
pub struct UtfChar {
    pub ch: char,
    pub offset: Integer,
    pub len: u64,
}

impl UtfChar {
    pub fn get_char(&self) -> (r: char)
        ensures
            r == self.ch,
    {
        self.ch
    }
}

/// The char at index `i` of `s`, with where it starts and its length.
pub open spec fn utf_char_at(s: Seq<char>, i: int) -> UtfChar {
    UtfChar { ch: s[i], offset: pos(s, i) as Integer, len: char_width(s[i]) as u64 }
}

/// The index of the char that holds byte `position` or starts after it.
fn index_at(text: &Text, position: Integer) -> (r: usize)
    ensures
        r == char_index(text.view(), position as int),
        r <= text.view().len(),
{
    let r = text.index_of_offset(position);
    proof {
        lemma_index_from_pub(text.view(), position as int, r as int);
    }
    r
}

/// Reads the char at `position` (the first char starting there or after it) and moves past
/// it; `None` at the end of the text.
pub fn next_char(text: &Text, position: &mut Integer) -> (r: Option<UtfChar>)
    requires
        0 <= *old(position),
    ensures
        ({
            let s = text.view();
            let i = char_index(s, *old(position) as int);
            if i < s.len() {
                r == Some(utf_char_at(s, i)) && *final(position) == pos(s, i + 1)
            } else {
                r is None && *final(position) == *old(position)
            }
        }),
{
    let i = index_at(text, *position);
    if i >= text.len() {
        return None;
    }
    let o = text.offset_at(i);
    let e = text.offset_at(i + 1);
    proof {
        lemma_pos_step(text.view(), i as int);
    }
    *position = e;
    Some(UtfChar { ch: text.char_at(i), offset: o, len: (e - o) as u64 })
}

/// The char before `position` (the one that holds the byte before it); the position does not
/// change. `None` at the beginning of the text.
pub fn peek_prev_char(text: &Text, position: &mut Integer) -> (r: Option<UtfChar>)
    requires
        0 <= *old(position),
    ensures
        *final(position) == *old(position),
        r matches Some(c) ==> c.offset == pos(text.view(), char_index(text.view(), *old(position) as int) - 1),
        ({
            let s = text.view();
            let i = char_index(s, *old(position) as int);
            if *old(position) == 0 || i == 0 {
                r is None
            } else {
                r == Some(utf_char_at(s, i - 1))
            }
        }),
{
    if *position == 0 {
        return None;
    }
    let i = index_at(text, *position);
    if i == 0 {
        return None;
    }
    let o = text.offset_at(i - 1);
    let e = text.offset_at(i);
    proof {
        lemma_pos_step(text.view(), i - 1);
    }
    Some(UtfChar { ch: text.char_at(i - 1), offset: o, len: (e - o) as u64 })
}

/// Reads the char before `position` and moves to where it starts; `None` at the beginning of
/// the text.
pub fn prev_char(text: &Text, position: &mut Integer) -> (r: Option<UtfChar>)
    requires
        0 <= *old(position),
    ensures
        ({
            let s = text.view();
            let i = char_index(s, *old(position) as int);
            if *old(position) == 0 || i == 0 {
                r is None && *final(position) == *old(position)
            } else {
                r == Some(utf_char_at(s, i - 1)) && *final(position) == pos(s, i - 1)
            }
        }),
{
    let result = peek_prev_char(text, position);
    if let Some(ch) = result {
        *position = ch.offset;
    }
    result
}

/// The char at `position` (as `next_char` reads it); the position does not change.
pub fn peek_next_char(text: &Text, position: &mut Integer) -> (r: Option<UtfChar>)
    requires
        0 <= *old(position),
    ensures
        *final(position) == *old(position),
        ({
            let s = text.view();
            let i = char_index(s, *old(position) as int);
            if i < s.len() {
                r == Some(utf_char_at(s, i))
            } else {
                r is None
            }
        }),
{
    let p0 = *position;
    let result = next_char(text, position);
    *position = p0;
    result
}

} // verus!
