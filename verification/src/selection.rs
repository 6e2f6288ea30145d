//! The selection tracker: the optional highlighted index into the current
//! result list, with wrap-around movement and a first-row default on
//! retrieval.

use vstd::prelude::*;

verus! {

/// Where an upward move lands: a fresh selection starts at the first row;
/// from the first row (or a row the list no longer has) it wraps to the
/// last; otherwise it goes one row up. Meaningful only for `len > 0`.
pub open spec fn up_target(sel: Option<usize>, len: int) -> int {
    match sel {
        Option::None => 0,
        Option::Some(i) => if i == 0 || i as int >= len {
            len - 1
        } else {
            i as int - 1
        },
    }
}

/// Where a downward move lands: a fresh selection starts at the first row;
/// from the last row (or past it) it wraps to the first; otherwise it goes
/// one row down. Meaningful only for `len > 0`.
pub open spec fn down_target(sel: Option<usize>, len: int) -> int {
    match sel {
        Option::None => 0,
        Option::Some(i) => if i as int + 1 >= len {
            0
        } else {
            i as int + 1
        },
    }
}

/// The highlighted index over the current result list; `None` until the
/// user first navigates.
pub struct SearchSelection {
    selected: Option<usize>,
}

impl SearchSelection {
    /// The tracked index, if any.
    pub closed spec fn sel(self) -> Option<usize> {
        self.selected
    }

    /// The index retrieval uses: the tracked one, or the first row when no
    /// navigation has happened yet.
    pub open spec fn sel_index(self) -> int {
        match self.sel() {
            Option::None => 0,
            Option::Some(i) => i as int,
        }
    }

    pub fn new() -> (r: SearchSelection)
        ensures
            r.sel() is None,
    {
        SearchSelection { selected: None }
    }

    /// The tracked index, for the view layer's highlight.
    pub fn selected_index(&self) -> (r: Option<usize>)
        ensures
            r == self.sel(),
    {
        self.selected
    }

    /// Moves the highlight up over a list of `len` rows; on an empty list
    /// nothing happens.
    pub fn move_up(&mut self, len: usize)
        ensures
            len == 0 ==> final(self).sel() == old(self).sel(),
            len > 0 ==> (final(self).sel() matches Some(j) && j as int == up_target(
                old(self).sel(),
                len as int,
            )),
    {
        if len == 0 {
            return ;
        }
        let j: usize = match self.selected {
            Option::None => 0,
            Option::Some(i) => if i == 0 || i >= len {
                len - 1
            } else {
                i - 1
            },
        };
        self.selected = Some(j);
    }

    /// Moves the highlight down over a list of `len` rows; on an empty list
    /// nothing happens.
    pub fn move_down(&mut self, len: usize)
        ensures
            len == 0 ==> final(self).sel() == old(self).sel(),
            len > 0 ==> (final(self).sel() matches Some(j) && j as int == down_target(
                old(self).sel(),
                len as int,
            )),
    {
        if len == 0 {
            return ;
        }
        let j: usize = match self.selected {
            Option::None => 0,
            Option::Some(i) => if i >= len - 1 {
                0
            } else {
                i + 1
            },
        };
        self.selected = Some(j);
    }

    /// The selected entry of the result list: `None` on an empty list, else
    /// the tracked row, the first row when no navigation has happened yet.
    pub fn get_selection(&self, results: &Vec<usize>) -> (r: Option<usize>)
        requires
            self.sel() matches Some(i) ==> results@.len() == 0 || i < results@.len(),
        ensures
            results@.len() == 0 ==> r is None,
            results@.len() > 0 ==> r == Some(results@[self.sel_index()]),
    {
        if results.is_empty() {
            return None;
        }
        let idx: usize = match self.selected {
            Option::None => 0,
            Option::Some(i) => i,
        };
        Some(results[idx])
    }
}

} // verus!
