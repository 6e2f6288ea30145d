//! The interaction state machine: one application state holding the search
//! box, the bounded result list and the selection, and one transition per
//! keyboard event.

use vstd::prelude::*;
use crate::data::{UnicodeData, UnicodeFile};
use crate::editor::{CursorMove, SearchBox, trim_trailing_spaces, word_cut};
use crate::query::{query_name, query_results};
use crate::selection::{SearchSelection, down_target, up_target};
use crate::text::upper_of;

verus! {

/// The most results a query run keeps.
pub const RESULT_CAP: usize = 20;

/// One keyboard event, as the state machine sees it.
#[derive(Clone, Copy)]
pub enum InputKey {
    Character(char),
    Backspace,
    WordBackspace,
    Enter,
    Escape,
    Up,
    Down,
    Left,
    Right,
    Other,
}

/// What a transition decides: keep going, confirm the selection, or leave
/// with nothing.
#[derive(Clone, Copy, PartialEq, Eq, Structural, Debug)]
pub enum Step {
    Continue,
    Confirm,
    Cancel,
}

/// The live session state over one immutable table.
pub struct App<'a> {
    pub search_box: SearchBox,
    pub file: &'a UnicodeFile,
    pub search_selection: SearchSelection,
    pub results: Vec<usize>,
}

impl<'a> App<'a> {
    /// The box is well formed, the table is, and every result is an index
    /// into the table's records.
    pub open spec fn wf(self) -> bool {
        &&& self.search_box.wf()
        &&& self.file.wf()
        &&& forall|k: int| 0 <= k < self.results@.len() ==> #[trigger] self.results@[k]
            < self.file.records@.len()
    }

    /// The result list is the engine's answer for the current input.
    pub open spec fn results_current(self) -> bool {
        self.results@.map_values(|u: usize| u as int) == query_results(
            self.file.records@,
            upper_of(self.search_box.input@),
            RESULT_CAP as nat,
        )
    }

    pub fn new(file: &'a UnicodeFile) -> (r: App<'a>)
        requires
            file.wf(),
        ensures
            r.wf(),
            r.file == file,
            r.search_box.input@ == Seq::<char>::empty(),
            r.search_box.cursor_position == 0,
            r.search_selection.sel() is None,
            r.results@ == Seq::<usize>::empty(),
    {
        let r = App {
            search_box: SearchBox::new(),
            file,
            search_selection: SearchSelection::new(),
            results: Vec::new(),
        };
        proof {
            assert(r.results@ =~= Seq::<usize>::empty());
        }
        r
    }

    /// Reruns the query engine on the current input, replacing the result
    /// list and touching nothing else (the selection is kept as it is).
    pub fn update_query(&mut self)
        requires
            old(self).wf(),
        ensures
            final(self).wf(),
            final(self).results_current(),
            final(self).search_box == old(self).search_box,
            final(self).file == old(self).file,
            final(self).search_selection == old(self).search_selection,
    {
        let r = query_name(self.search_box.input.clone(), self.file, RESULT_CAP);
        self.results = r;
    }

    /// Moves the highlight up, wrapping over the current result list.
    pub fn selection_up(&mut self)
        requires
            old(self).wf(),
        ensures
            final(self).wf(),
            final(self).search_box == old(self).search_box,
            final(self).file == old(self).file,
            final(self).results == old(self).results,
            old(self).results@.len() == 0 ==> final(self).search_selection.sel() == old(self).search_selection.sel(),
            old(self).results@.len() > 0 ==> (final(self).search_selection.sel() matches Some(j)
                && j as int == up_target(
                old(self).search_selection.sel(),
                old(self).results@.len() as int,
            )),
    {
        let len = self.results.len();
        self.search_selection.move_up(len);
    }

    /// Moves the highlight down, wrapping over the current result list.
    pub fn selection_down(&mut self)
        requires
            old(self).wf(),
        ensures
            final(self).wf(),
            final(self).search_box == old(self).search_box,
            final(self).file == old(self).file,
            final(self).results == old(self).results,
            old(self).results@.len() == 0 ==> final(self).search_selection.sel() == old(self).search_selection.sel(),
            old(self).results@.len() > 0 ==> (final(self).search_selection.sel() matches Some(j)
                && j as int == down_target(
                old(self).search_selection.sel(),
                old(self).results@.len() as int,
            )),
    {
        let len = self.results.len();
        self.search_selection.move_down(len);
    }

    /// The tracked highlight row, for the view layer.
    pub fn selection_index(&self) -> (r: Option<usize>)
        ensures
            r == self.search_selection.sel(),
    {
        self.search_selection.selected_index()
    }

    /// The record the user would confirm: none on an empty result list,
    /// else the highlighted record, the first one when no navigation has
    /// happened yet.
    pub fn get_selection(&self) -> (r: Option<&'a UnicodeData>)
        requires
            self.wf(),
            self.search_selection.sel() matches Some(i) ==> self.results@.len() == 0 || i
                < self.results@.len(),
        ensures
            (r is None) <==> self.results@.len() == 0,
            self.results@.len() > 0 ==> (r matches Some(d) && *d
                == self.file.records@[self.results@[self.search_selection.sel_index()] as int]),
    {
        match self.search_selection.get_selection(&self.results) {
            Some(idx) => Some(&self.file.records[idx]),
            None => None,
        }
    }

    /// One step of the interaction loop: routes the event to the editor or
    /// the selection, reruns the query exactly when the text changed, and
    /// reports whether the session goes on, confirms, or is cancelled.
    pub fn handle_key(&mut self, key: InputKey) -> (r: Step)
        requires
            old(self).wf(),
            key matches InputKey::Character(_) ==> old(self).search_box.input@.len()
                < usize::MAX,
        ensures
            final(self).wf(),
            final(self).file == old(self).file,
            key == InputKey::Enter ==> r == Step::Confirm && *final(self) == *old(self),
            key == InputKey::Escape ==> r == Step::Cancel && *final(self) == *old(self),
            !(key == InputKey::Enter || key == InputKey::Escape) ==> r == Step::Continue,
            key == InputKey::Other ==> *final(self) == *old(self),
            key matches InputKey::Character(c) ==> {
                &&& final(self).search_box.input@ == old(self).search_box.input@.insert(
                    old(self).search_box.cursor_position as int,
                    c,
                )
                &&& final(self).search_box.cursor_position == old(self).search_box.cursor_position + 1
                &&& final(self).results_current()
                &&& final(self).search_selection == old(self).search_selection
            },
            key == InputKey::Backspace ==> {
                &&& (old(self).search_box.cursor_position == 0 ==> final(self).search_box == old(self).search_box)
                &&& (old(self).search_box.cursor_position > 0 ==> final(self).search_box.input@
                    == old(self).search_box.input@.remove(old(self).search_box.cursor_position - 1)
                    && final(self).search_box.cursor_position == old(self).search_box.cursor_position - 1)
                &&& final(self).results_current()
                &&& final(self).search_selection == old(self).search_selection
            },
            key == InputKey::WordBackspace ==> {
                &&& (old(self).search_box.input@.len() == 0 ==> final(self).search_box == old(self).search_box)
                &&& (old(self).search_box.input@.len() > 0 ==> {
                    let before = old(self).search_box.input@.subrange(
                        0,
                        old(self).search_box.cursor_position as int,
                    );
                    let after = old(self).search_box.input@.subrange(
                        old(self).search_box.cursor_position as int,
                        old(self).search_box.input@.len() as int,
                    );
                    let kept = word_cut(trim_trailing_spaces(before));
                    final(self).search_box.input@ == kept + after && final(self).search_box.cursor_position == kept.len()
                })
                &&& final(self).results_current()
                &&& final(self).search_selection == old(self).search_selection
            },
            key == InputKey::Up || key == InputKey::Down ==> {
                &&& final(self).search_box == old(self).search_box
                &&& final(self).results == old(self).results
                &&& (old(self).results@.len() == 0 ==> final(self).search_selection.sel() == old(self).search_selection.sel())
            },
            key == InputKey::Up && old(self).results@.len() > 0 ==> (final(self).search_selection.sel() matches Some(j) && j as int == up_target(
                old(self).search_selection.sel(),
                old(self).results@.len() as int,
            )),
            key == InputKey::Down && old(self).results@.len() > 0 ==> (final(self).search_selection.sel() matches Some(j) && j as int == down_target(
                old(self).search_selection.sel(),
                old(self).results@.len() as int,
            )),
            key == InputKey::Left || key == InputKey::Right ==> {
                &&& final(self).search_box.input == old(self).search_box.input
                &&& final(self).results == old(self).results
                &&& final(self).search_selection == old(self).search_selection
            },
            key == InputKey::Left && old(self).search_box.cursor_position > 0 ==> final(self).search_box.cursor_position == old(self).search_box.cursor_position - 1,
            key == InputKey::Left && old(self).search_box.cursor_position == 0 ==> final(self).search_box.cursor_position == 0,
            key == InputKey::Right && old(self).search_box.cursor_position < old(self).search_box.input@.len() ==> final(self).search_box.cursor_position == old(self).search_box.cursor_position + 1,
            key == InputKey::Right && old(self).search_box.cursor_position == old(self).search_box.input@.len() ==> final(self).search_box.cursor_position == old(self).search_box.cursor_position,
    {
        match key {
            InputKey::Enter => Step::Confirm,
            InputKey::Escape => Step::Cancel,
            InputKey::Character(c) => {
                self.search_box.add_char(c);
                self.update_query();
                Step::Continue
            },
            InputKey::Backspace => {
                self.search_box.delete_char();
                self.update_query();
                Step::Continue
            },
            InputKey::WordBackspace => {
                self.search_box.delete_word();
                self.update_query();
                Step::Continue
            },
            InputKey::Up => {
                self.selection_up();
                Step::Continue
            },
            InputKey::Down => {
                self.selection_down();
                Step::Continue
            },
            InputKey::Left => {
                self.search_box.move_cursor(CursorMove::Left);
                Step::Continue
            },
            InputKey::Right => {
                self.search_box.move_cursor(CursorMove::Right);
                Step::Continue
            },
            InputKey::Other => Step::Continue,
        }
    }
}

} // verus!
