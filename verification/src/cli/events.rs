use vstd::prelude::*;
use crate::app::App;
use crate::engine::EngineCommand;

verus! {

/// A key event, as the picker sees it.
pub enum KeyInput {
    /// Arrow up was pressed.
    Up,
    /// Arrow down was pressed.
    Down,
    /// Enter was pressed.
    Enter,
    /// Another key was pressed and given to the query line; this is the line's
    /// text afterwards.
    Edited(String),
    /// A key was released or repeated.
    Ignored,
}

/// Applies a key event to the picker. Up and Down move the selection; Enter
/// takes the selected path, if there is one, and ends the picker; a change of
/// the query text resets the selection and asks for a new search, which is
/// returned.
pub fn handle_events(app: &mut App, key: KeyInput) -> (cmd: Option<EngineCommand>)
    ensures
        final(app).results == old(app).results,
        old(app).selection_ok() ==> final(app).selection_ok(),
        match key {
            KeyInput::Up => {
                &&& final(app).selected_i == if old(app).selected_i > 0 {
                    (old(app).selected_i - 1) as usize
                } else {
                    old(app).selected_i
                }
                &&& final(app).query == old(app).query
                &&& final(app).should_exit == old(app).should_exit
                &&& final(app).final_selection == old(app).final_selection
                &&& cmd is None
            },
            KeyInput::Down => {
                &&& final(app).selected_i == if old(app).selected_i + 1 < old(app).results@.len() {
                    (old(app).selected_i + 1) as usize
                } else {
                    old(app).selected_i
                }
                &&& final(app).query == old(app).query
                &&& final(app).should_exit == old(app).should_exit
                &&& final(app).final_selection == old(app).final_selection
                &&& cmd is None
            },
            KeyInput::Enter => {
                &&& final(app).selected_i == old(app).selected_i
                &&& final(app).query == old(app).query
                &&& final(app).should_exit
                &&& final(app).final_selection == if old(app).selected_i < old(app).results@.len() {
                    Some(old(app).results@[old(app).selected_i as int])
                } else {
                    old(app).final_selection
                }
                &&& cmd is None
            },
            KeyInput::Edited(text) => {
                &&& final(app).should_exit == old(app).should_exit
                &&& final(app).final_selection == old(app).final_selection
                &&& final(app).query@ == text@
                &&& if text@ != old(app).query@ {
                    &&& final(app).selected_i == 0
                    &&& cmd matches Some(EngineCommand::Search(q)) && q@ == text@
                } else {
                    &&& final(app).selected_i == old(app).selected_i
                    &&& cmd is None
                }
            },
            KeyInput::Ignored => {
                &&& final(app).selected_i == old(app).selected_i
                &&& final(app).query == old(app).query
                &&& final(app).should_exit == old(app).should_exit
                &&& final(app).final_selection == old(app).final_selection
                &&& cmd is None
            },
        },
{
    match key {
        KeyInput::Up => {
            app.move_up();
            None
        },
        KeyInput::Down => {
            app.move_down();
            None
        },
        KeyInput::Enter => {
            if !app.results.is_empty() && app.selected_i < app.results.len() {
                app.final_selection = Some(app.results[app.selected_i].clone());
            }
            app.should_exit = true;
            None
        },
        KeyInput::Edited(text) => {
            if text == app.query {
                None
            } else {
                app.query = text.clone();
                app.selected_i = 0;
                Some(EngineCommand::Search(text))
            }
        },
        KeyInput::Ignored => None,
    }
}

} // verus!
