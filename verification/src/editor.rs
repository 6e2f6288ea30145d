//! The input editor: a text buffer and a caret on a scalar boundary, with
//! insertion, character and word deletion, caret movement, and the rendered
//! form the view layer draws.

use vstd::prelude::*;
use vstd::string::StrSliceExecFns;
use vstd::string::StringExecFns;
use unicode_segmentation::UnicodeSegmentation;
use crate::text::{chars_of, push_char};

verus! {

/// Which way the caret moves.
pub enum CursorMove {
    Left,
    Right,
}

/// The buffer without its trailing run of spaces.
pub open spec fn trim_trailing_spaces(s: Seq<char>) -> Seq<char>
    decreases s.len(),
{
    if s.len() > 0 && s.last() == ' ' {
        trim_trailing_spaces(s.drop_last())
    } else {
        s
    }
}

/// What remains of `s` when Unicode word segmentation removes its last
/// word-bounded segment; it depends on the characters of `s` alone.
pub uninterp spec fn word_cut(s: Seq<char>) -> Seq<char>;

/// Relies on unicode-segmentation's split_word_bound_indices: the segments
/// are non-empty and cover the text in order, so cutting the last one keeps
/// a strictly shorter prefix.
#[verifier::external_body]
fn word_cut_prefix(s: &str) -> (r: String)
    ensures
        r@ == word_cut(s@),
        r@.len() <= s@.len(),
        r@ == s@.subrange(0, r@.len() as int),
        s@.len() > 0 ==> r@.len() < s@.len(),
        s@.len() == 0 ==> r@.len() == 0,
{
    match s.split_word_bound_indices().next_back() {
        Some((i, _)) => s[..i].to_owned(),
        None => String::new(),
    }
}

/// The search box: the query text and the caret position, counted in
/// characters, always within the buffer.
pub struct SearchBox {
    pub input: String,
    pub cursor_position: usize,
}

impl SearchBox {
    /// The caret sits on a boundary inside the buffer.
    pub open spec fn wf(self) -> bool {
        self.cursor_position <= self.input@.len()
    }

    pub fn new() -> (r: SearchBox)
        ensures
            r.wf(),
            r.input@ == Seq::<char>::empty(),
            r.cursor_position == 0,
    {
        SearchBox { input: String::new(), cursor_position: 0 }
    }

    /// Inserts the character at the caret and advances the caret past it.
    pub fn add_char(&mut self, c: char)
        requires
            old(self).wf(),
            old(self).input@.len() < usize::MAX,
        ensures
            final(self).wf(),
            final(self).input@ == old(self).input@.insert(
                old(self).cursor_position as int,
                c,
            ),
            final(self).cursor_position == old(self).cursor_position + 1,
    {
        let len = self.input.as_str().unicode_len();
        let before = self.input.as_str().substring_char(0, self.cursor_position).to_owned();
        let after = self.input.as_str().substring_char(self.cursor_position, len).to_owned();
        let mut s = before;
        push_char(&mut s, c);
        s.append(after.as_str());
        proof {
            assert(s@ =~= self.input@.insert(self.cursor_position as int, c));
        }
        self.input = s;
        self.cursor_position = self.cursor_position + 1;
    }

    /// Removes the character just before the caret; at the start of the
    /// buffer nothing happens.
    pub fn delete_char(&mut self)
        requires
            old(self).wf(),
        ensures
            final(self).wf(),
            old(self).cursor_position == 0 ==> *final(self) == *old(self),
            old(self).cursor_position > 0 ==> {
                &&& final(self).input@ == old(self).input@.remove(
                    old(self).cursor_position - 1,
                )
                &&& final(self).cursor_position == old(self).cursor_position - 1
            },
    {
        if self.cursor_position == 0 {
            return ;
        }
        let len = self.input.as_str().unicode_len();
        let before = self.input.as_str().substring_char(0, self.cursor_position - 1).to_owned();
        let after = self.input.as_str().substring_char(self.cursor_position, len);
        let s = before.concat(after);
        proof {
            assert(s@ =~= self.input@.remove(self.cursor_position - 1));
        }
        self.input = s;
        self.cursor_position = self.cursor_position - 1;
    }

    /// Removes the trailing run of spaces before the caret, then the last
    /// word-bounded segment before it; the text after the caret stays.
    pub fn delete_word(&mut self)
        requires
            old(self).wf(),
        ensures
            final(self).wf(),
            old(self).input@.len() == 0 ==> *final(self) == *old(self),
            old(self).input@.len() > 0 ==> {
                let before = old(self).input@.subrange(0, old(self).cursor_position as int);
                let after = old(self).input@.subrange(
                    old(self).cursor_position as int,
                    old(self).input@.len() as int,
                );
                let kept = word_cut(trim_trailing_spaces(before));
                &&& final(self).input@ == kept + after
                &&& final(self).cursor_position == kept.len()
            },
    {
        if self.input.as_str().is_empty() {
            return ;
        }
        let len = self.input.as_str().unicode_len();
        let cur = self.cursor_position;
        let ghost before = self.input@.subrange(0, cur as int);
        let bc = chars_of(self.input.as_str().substring_char(0, cur));
        let mut mlen: usize = bc.len();
        proof {
            assert(bc@.take(mlen as int) =~= bc@);
        }
        loop
            invariant
                mlen <= bc@.len(),
                bc@ == before,
                trim_trailing_spaces(before) == trim_trailing_spaces(bc@.take(mlen as int)),
            ensures
                mlen <= bc@.len(),
                trim_trailing_spaces(before) == bc@.take(mlen as int),
            decreases mlen,
        {
            if mlen == 0 {
                proof {
                    assert(bc@.take(0) =~= Seq::<char>::empty());
                }
                break ;
            }
            if bc[mlen - 1] != ' ' {
                proof {
                    assert(bc@.take(mlen as int).last() == bc@[mlen - 1]);
                }
                break ;
            }
            proof {
                assert(bc@.take(mlen as int).last() == bc@[mlen - 1]);
                assert(bc@.take(mlen as int).drop_last() =~= bc@.take(mlen - 1));
            }
            mlen = mlen - 1;
        }
        let trimmed = self.input.as_str().substring_char(0, mlen);
        proof {
            assert(trimmed@ =~= bc@.take(mlen as int));
        }
        let kept = word_cut_prefix(trimmed);
        let kept_len = kept.as_str().unicode_len();
        let after = self.input.as_str().substring_char(cur, len);
        let s = kept.concat(after);
        self.input = s;
        self.cursor_position = kept_len;
    }

    /// The buffer with the caret marker glyph at the caret's position: what
    /// the view layer draws.
    pub fn get_rendered_input(&self) -> (r: String)
        requires
            self.wf(),
        ensures
            r@ == self.input@.insert(self.cursor_position as int, '\u{258F}'),
    {
        let len = self.input.as_str().unicode_len();
        let mut s = self.input.as_str().substring_char(0, self.cursor_position).to_owned();
        push_char(&mut s, '\u{258F}');
        s.append(self.input.as_str().substring_char(self.cursor_position, len));
        proof {
            assert(s@ =~= self.input@.insert(self.cursor_position as int, '\u{258F}'));
        }
        s
    }

    /// Moves the caret one character left or right, clamped to the buffer.
    pub fn move_cursor(&mut self, direction: CursorMove)
        requires
            old(self).wf(),
        ensures
            final(self).wf(),
            final(self).input == old(self).input,
            direction == CursorMove::Left && old(self).cursor_position > 0 ==> final(self).cursor_position == old(self).cursor_position - 1,
            direction == CursorMove::Left && old(self).cursor_position == 0 ==> final(self).cursor_position == 0,
            direction == CursorMove::Right && old(self).cursor_position < old(self).input@.len()
                ==> final(self).cursor_position == old(self).cursor_position + 1,
            direction == CursorMove::Right && old(self).cursor_position == old(self).input@.len() ==> final(self).cursor_position == old(self).cursor_position,
    {
        match direction {
            CursorMove::Left => {
                if self.cursor_position > 0 {
                    self.cursor_position = self.cursor_position - 1;
                }
            },
            CursorMove::Right => {
                if self.cursor_position < self.input.as_str().unicode_len() {
                    self.cursor_position = self.cursor_position + 1;
                }
            },
        }
    }
}

} // verus!
