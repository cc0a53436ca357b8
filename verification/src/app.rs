use vstd::prelude::*;
use crate::engine::EngineResult;

verus! {

/// State of the interactive picker: the query line, the listed paths and the
/// selection among them.
pub struct App {
    /// Text of the query line.
    pub query: String,
    /// Listed paths, best first.
    pub results: Vec<String>,
    /// Index of the selected path.
    pub selected_i: usize,
    /// The picker is done.
    pub should_exit: bool,
    /// The path chosen with Enter, if any.
    pub final_selection: Option<String>,
}

/// The selection points at a listed path, or at 0 when nothing is listed.
pub open spec fn selection_valid(selected_i: usize, len: nat) -> bool {
    selected_i == 0 || selected_i < len
}

impl App {
    /// The selection points at a listed path, or at 0.
    pub open spec fn selection_ok(&self) -> bool {
        selection_valid(self.selected_i, self.results@.len())
    }

    /// An empty picker with room for `list_length` paths.
    pub fn new(list_length: u16) -> (app: Self)
        ensures
            app.query@.len() == 0,
            app.results@.len() == 0,
            app.selected_i == 0,
            !app.should_exit,
            app.final_selection is None,
            app.selection_ok(),
    {
        App {
            query: String::new(),
            results: Vec::with_capacity(list_length as usize),
            selected_i: 0,
            should_exit: false,
            final_selection: None,
        }
    }

    /// Moves the selection one line up, unless it is on the first line.
    pub fn move_up(&mut self)
        ensures
            final(self).selected_i == if old(self).selected_i > 0 {
                (old(self).selected_i - 1) as usize
            } else {
                old(self).selected_i
            },
            final(self).query == old(self).query,
            final(self).results == old(self).results,
            final(self).should_exit == old(self).should_exit,
            final(self).final_selection == old(self).final_selection,
            old(self).selection_ok() ==> final(self).selection_ok(),
    {
        if self.selected_i > 0 {
            self.selected_i = self.selected_i - 1;
        }
    }

    /// Moves the selection one line down, unless it is on the last line.
    pub fn move_down(&mut self)
        ensures
            final(self).selected_i == if old(self).selected_i + 1 < old(self).results@.len() {
                (old(self).selected_i + 1) as usize
            } else {
                old(self).selected_i
            },
            final(self).query == old(self).query,
            final(self).results == old(self).results,
            final(self).should_exit == old(self).should_exit,
            final(self).final_selection == old(self).final_selection,
            old(self).selection_ok() ==> final(self).selection_ok(),
    {
        if self.selected_i < self.results.len().saturating_sub(1) {
            self.selected_i = self.selected_i + 1;
        }
    }

    /// Brings the selection back onto the list when the list got shorter.
    fn clamp_selection(&mut self)
        ensures
            final(self).selected_i == if old(self).selected_i >= old(self).results@.len() {
                if old(self).results@.len() == 0 {
                    0
                } else {
                    (old(self).results@.len() - 1) as usize
                }
            } else {
                old(self).selected_i
            },
            final(self).query == old(self).query,
            final(self).results == old(self).results,
            final(self).should_exit == old(self).should_exit,
            final(self).final_selection == old(self).final_selection,
            final(self).selection_ok(),
    {
        if self.selected_i >= self.results.len() {
            self.selected_i = self.results.len().saturating_sub(1);
        }
    }

    /// Takes a message of the engine: an update replaces the listed paths; the
    /// selection is then brought back onto the list.
    pub fn receive_result(&mut self, result: EngineResult)
        ensures
            match result {
                EngineResult::Update(paths) => final(self).results@ == paths@,
                EngineResult::Done => final(self).results == old(self).results,
            },
            final(self).selected_i == if old(self).selected_i >= final(self).results@.len() {
                if final(self).results@.len() == 0 {
                    0
                } else {
                    (final(self).results@.len() - 1) as usize
                }
            } else {
                old(self).selected_i
            },
            final(self).query == old(self).query,
            final(self).should_exit == old(self).should_exit,
            final(self).final_selection == old(self).final_selection,
            final(self).selection_ok(),
    {
        match result {
            EngineResult::Update(paths) => {
                self.results = paths;
            },
            EngineResult::Done => {},
        }
        self.clamp_selection();
    }
}

} // verus!
