use vstd::prelude::*;
use crate::app::App;

verus! {

/// One line of the result list.
pub struct ResultLine {
    /// The line shows the selected path.
    pub highlighted: bool,
    pub path: String,
}

/// Number of result lines shown for `len` listed paths: all but the last.
pub open spec fn shown_lines(len: nat) -> nat {
    if len == 0 {
        0
    } else {
        (len - 1) as nat
    }
}

/// The result list as drawn: every listed path but the last, in order, the
/// selected one highlighted.
pub fn result_lines(app: &App) -> (lines: Vec<ResultLine>)
    ensures
        lines@.len() == shown_lines(app.results@.len()),
        forall|i: int|
            0 <= i < lines@.len() ==> {
                &&& (#[trigger] lines@[i]).path@ == app.results@[i]@
                &&& lines@[i].highlighted == (i == app.selected_i)
            },
{
    let result_list_size = app.results.len().saturating_sub(1);
    let mut lines: Vec<ResultLine> = Vec::new();
    let mut i: usize = 0;
    while i < result_list_size
        invariant
            result_list_size == shown_lines(app.results@.len()),
            0 <= i <= result_list_size,
            lines@.len() == i,
            forall|j: int|
                0 <= j < i ==> {
                    &&& (#[trigger] lines@[j]).path@ == app.results@[j]@
                    &&& lines@[j].highlighted == (j == app.selected_i)
                },
        decreases result_list_size - i,
    {
        lines.push(ResultLine { highlighted: i == app.selected_i, path: app.results[i].clone() });
        i = i + 1;
    }
    lines
}

} // verus!
