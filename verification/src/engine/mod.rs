pub mod db;
pub mod matcher;
pub mod score;
pub mod walker;

use vstd::prelude::*;
use std::sync::atomic::AtomicBool;
use std::sync::Arc;

verus! {

/// A request to the search engine.
pub enum EngineCommand {
    /// Search for the given query, replacing any running search.
    Search(String),
    /// Stop the engine.
    Quit,
}

/// A message from the search engine.
pub enum EngineResult {
    /// The current best paths, best first.
    Update(Vec<String>),
    /// The search has finished.
    Done,
}

/// What the engine does next after a command.
pub enum EngineAction {
    /// Send this result back.
    Send(EngineResult),
    /// Start a search for `query` under `dir`.
    StartSearch { query: String, dir: String },
    /// Leave the command loop.
    Stop,
}

/// The directory searched: the given search space, else the home directory,
/// else the current directory.
pub open spec fn search_directory(search_space: Option<String>, home: Option<String>) -> Seq<char> {
    match search_space {
        Some(dir) => dir@,
        None => match home {
            Some(h) => h@,
            None => seq!['.'],
        },
    }
}

/// Picks the directory to search: `search_space` when given, else `home`
/// (the user's home directory, when known), else `"."`.
pub fn resolve_search_directory(search_space: &Option<String>, home: Option<String>) -> (dir: String)
    ensures
        dir@ == search_directory(*search_space, home),
{
    match search_space {
        Some(dir) => dir.clone(),
        None => match home {
            Some(h) => h,
            None => {
                proof {
                    reveal_strlit(".");
                }
                ".".to_owned()
            },
        },
    }
}

/// Tells the running search, if any, to stop, and forgets it.
pub fn kill_active_search(current_kill_switch: &mut Option<Arc<AtomicBool>>)
    ensures
        final(current_kill_switch).is_none(),
{
    if let Some(ks) = current_kill_switch.take() {
        ks.store(true, std::sync::atomic::Ordering::Relaxed);
    }
}

/// Handles one command: any running search is stopped first; an empty query is
/// answered with an empty list, another query starts a search in the resolved
/// directory, and `Quit` stops the engine.
pub fn engine_step(
    current_kill_switch: &mut Option<Arc<AtomicBool>>,
    cmd: EngineCommand,
    search_space: &Option<String>,
    home: Option<String>,
) -> (action: EngineAction)
    ensures
        final(current_kill_switch).is_none(),
        match cmd {
            EngineCommand::Search(query) => if query@.len() == 0 {
                action matches EngineAction::Send(EngineResult::Update(paths)) && paths@.len() == 0
            } else {
                action matches EngineAction::StartSearch { query: q, dir } && q@ == query@ && dir@
                    == search_directory(*search_space, home)
            },
            EngineCommand::Quit => action is Stop,
        },
{
    match cmd {
        EngineCommand::Search(query) => {
            kill_active_search(current_kill_switch);
            if query.as_str().is_empty() {
                return EngineAction::Send(EngineResult::Update(Vec::new()));
            }
            let dir = resolve_search_directory(search_space, home);
            EngineAction::StartSearch { query, dir }
        },
        EngineCommand::Quit => {
            kill_active_search(current_kill_switch);
            EngineAction::Stop
        },
    }
}

} // verus!
