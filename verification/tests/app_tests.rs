use fast_jump::app::App;
use fast_jump::cli::events::{handle_events, KeyInput};
use fast_jump::cli::render::result_lines;
use fast_jump::engine::{EngineCommand, EngineResult};

fn paths(n: usize) -> Vec<String> {
    (0..n).map(|i| format!("/p{}", i)).collect()
}

fn app_with(n: usize) -> App {
    let mut app = App::new(10);
    app.receive_result(EngineResult::Update(paths(n)));
    app
}

#[test]
fn new_app_is_empty() {
    let app = App::new(10);
    assert!(app.results.is_empty());
    assert_eq!(app.selected_i, 0);
    assert!(!app.should_exit);
    assert!(app.final_selection.is_none());
    assert!(app.query.is_empty());
}

#[test]
fn move_down_stops_at_last() {
    let mut app = app_with(3);
    app.move_down();
    app.move_down();
    assert_eq!(app.selected_i, 2);
    app.move_down();
    assert_eq!(app.selected_i, 2);
}

#[test]
fn move_up_stops_at_first() {
    let mut app = app_with(3);
    app.move_up();
    assert_eq!(app.selected_i, 0);
    app.move_down();
    app.move_up();
    assert_eq!(app.selected_i, 0);
}

#[test]
fn move_down_on_empty_list_stays() {
    let mut app = App::new(10);
    app.move_down();
    assert_eq!(app.selected_i, 0);
}

#[test]
fn receive_result_clamps_selection() {
    let mut app = app_with(5);
    app.selected_i = 4;
    app.receive_result(EngineResult::Update(paths(2)));
    assert_eq!(app.selected_i, 1);
    app.receive_result(EngineResult::Update(Vec::new()));
    assert_eq!(app.selected_i, 0);
    app.receive_result(EngineResult::Update(paths(3)));
    app.selected_i = 2;
    app.receive_result(EngineResult::Done);
    assert_eq!(app.selected_i, 2);
    assert_eq!(app.results.len(), 3);
}

#[test]
fn enter_selects_and_exits() {
    let mut app = app_with(3);
    assert!(handle_events(&mut app, KeyInput::Down).is_none());
    assert!(handle_events(&mut app, KeyInput::Enter).is_none());
    assert!(app.should_exit);
    assert_eq!(app.final_selection, Some("/p1".to_string()));
}

#[test]
fn enter_on_empty_list_exits_without_selection() {
    let mut app = App::new(10);
    handle_events(&mut app, KeyInput::Enter);
    assert!(app.should_exit);
    assert!(app.final_selection.is_none());
}

#[test]
fn edit_sends_search_and_resets_selection() {
    let mut app = app_with(3);
    handle_events(&mut app, KeyInput::Down);
    let cmd = handle_events(&mut app, KeyInput::Edited("do".to_string()));
    assert!(matches!(cmd, Some(EngineCommand::Search(ref q)) if q == "do"));
    assert_eq!(app.selected_i, 0);
    assert_eq!(app.query, "do");
    handle_events(&mut app, KeyInput::Down);
    assert!(handle_events(&mut app, KeyInput::Edited("do".to_string())).is_none());
    assert_eq!(app.selected_i, 1);
}

#[test]
fn ignored_key_changes_nothing() {
    let mut app = app_with(3);
    handle_events(&mut app, KeyInput::Down);
    assert!(handle_events(&mut app, KeyInput::Ignored).is_none());
    assert_eq!(app.selected_i, 1);
    assert!(!app.should_exit);
}

#[test]
fn result_lines_show_all_but_last_and_mark_selection() {
    let mut app = app_with(4);
    app.move_down();
    let lines = result_lines(&app);
    assert_eq!(lines.len(), 3);
    assert_eq!(lines[0].path, "/p0");
    assert!(!lines[0].highlighted);
    assert!(lines[1].highlighted);
    assert!(!lines[2].highlighted);
    assert!(result_lines(&App::new(10)).is_empty());
    assert!(result_lines(&app_with(1)).is_empty());
}
