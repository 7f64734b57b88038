use kanban_tui::input::{Effect, Key};
use kanban_tui::model::{App, InputMode};

fn plain_app() -> App {
    let mut app = App::new("Board");
    app.input_mode = InputMode::Normal;
    app
}

#[test]
fn quitting_from_normal_mode() {
    let mut app = plain_app();
    assert_eq!(app.handle_key(Key::Char('q')), Effect::Quit);
}

#[test]
fn an_add_column_chord_types_a_name_and_commits() {
    let mut app = plain_app();
    assert_eq!(app.handle_key(Key::Char('a')), Effect::Nothing);
    assert_eq!(app.pending_chord, Some('a'));
    assert_eq!(app.handle_key(Key::Char('c')), Effect::Nothing);
    assert_eq!(app.input_mode, InputMode::AddingColumn);
    for c in "Done".chars() {
        app.handle_key(Key::Char(c));
    }
    assert_eq!(app.input_text, "Done");
    assert_eq!(app.handle_key(Key::Enter), Effect::Save);
    assert_eq!(app.input_mode, InputMode::Normal);
    assert_eq!(app.columns[1].title, "Done");
    assert_eq!(app.input_text, "");
}

#[test]
fn an_empty_buffer_commits_the_default_name() {
    let mut app = plain_app();
    app.handle_key(Key::Char('a'));
    app.handle_key(Key::Char('t'));
    assert_eq!(app.input_mode, InputMode::AddingTask);
    assert_eq!(app.handle_key(Key::Enter), Effect::Save);
    let col = &app.columns[0];
    assert_eq!(col.tasks.last().unwrap().title, "New Task");
    assert_eq!(col.selected_task, Some(col.tasks.len() - 1));
}

#[test]
fn backspace_edits_the_buffer() {
    let mut app = plain_app();
    app.handle_key(Key::Char('a'));
    app.handle_key(Key::Char('c'));
    app.handle_key(Key::Char('x'));
    app.handle_key(Key::Char('y'));
    app.handle_key(Key::Backspace);
    assert_eq!(app.input_text, "x");
    app.handle_key(Key::Esc);
    assert_eq!(app.input_mode, InputMode::Normal);
    assert_eq!(app.input_text, "");
}

#[test]
fn an_unmatched_chord_is_dropped() {
    let mut app = plain_app();
    app.handle_key(Key::Char('a'));
    assert_eq!(app.handle_key(Key::Char('z')), Effect::Nothing);
    assert_eq!(app.pending_chord, None);
    assert_eq!(app.input_mode, InputMode::Normal);
}

#[test]
fn deleting_a_column_needs_confirmation() {
    let mut app = plain_app();
    app.handle_key(Key::Char('d'));
    app.handle_key(Key::Char('c'));
    assert_eq!(app.input_mode, InputMode::ConfirmDeleteColumn);
    assert_eq!(app.handle_key(Key::Char('n')), Effect::Nothing);
    assert_eq!(app.input_mode, InputMode::Normal);
    assert_eq!(app.columns.len(), 1);
    app.handle_key(Key::Char('d'));
    app.handle_key(Key::Char('c'));
    assert_eq!(app.handle_key(Key::Char('y')), Effect::Save);
    assert!(app.columns.is_empty());
}

#[test]
fn the_delete_task_chord_saves() {
    let mut app = plain_app();
    assert_eq!(app.columns[0].tasks.len(), 2);
    app.handle_key(Key::Char('d'));
    assert_eq!(app.handle_key(Key::Char('t')), Effect::Save);
    assert_eq!(app.columns[0].tasks.len(), 1);
}

#[test]
fn move_mode_jumps_by_digit() {
    let mut app = plain_app();
    app.add_column("B");
    assert_eq!(app.handle_key(Key::Ctrl('k')), Effect::Nothing);
    assert_eq!(app.input_mode, InputMode::MoveMode);
    assert_eq!(app.handle_key(Key::Char('2')), Effect::Save);
    assert_eq!(app.active_column, 1);
    assert_eq!(app.input_mode, InputMode::Normal);
}

#[test]
fn column_selection_moves_the_selected_task() {
    let mut app = plain_app();
    app.add_column("B");
    assert_eq!(app.handle_key(Key::Char('m')), Effect::Nothing);
    assert_eq!(app.input_mode, InputMode::ColumnSelectionMode);
    assert_eq!(app.handle_key(Key::Char('2')), Effect::Save);
    assert_eq!(app.columns[1].tasks.len(), 1);
    assert_eq!(app.input_mode, InputMode::Normal);
}

#[test]
fn jump_to_task_stays_on_an_unassigned_label() {
    let mut app = plain_app();
    app.handle_key(Key::Char('g'));
    app.handle_key(Key::Char('t'));
    assert_eq!(app.input_mode, InputMode::JumpToTaskMode);
    // only two tasks exist, so 'z' carries no label yet
    assert_eq!(app.handle_key(Key::Char('z')), Effect::Nothing);
    assert_eq!(app.input_mode, InputMode::JumpToTaskMode);
    assert_eq!(app.handle_key(Key::Char('b')), Effect::Save);
    assert_eq!(app.input_mode, InputMode::Normal);
    assert_eq!(app.columns[0].selected_task, Some(1));
}

#[test]
fn board_selection_flows_into_naming_a_new_board() {
    let mut app = App::new("Board");
    assert_eq!(app.input_mode, InputMode::BoardSelection);
    app.set_available_boards(vec![]);
    // only the create-new entry is listed; enter opens the prompt
    assert_eq!(app.handle_key(Key::Enter), Effect::Nothing);
    assert_eq!(app.input_mode, InputMode::AddingBoard);
    // no base directory is set, so committing cannot persist
    for c in "Mine".chars() {
        app.handle_key(Key::Char(c));
    }
    assert_eq!(app.handle_key(Key::Enter), Effect::Nothing);
    assert_eq!(app.title, "Mine");
    assert_eq!(app.columns.len(), 1);
    assert_eq!(app.columns[0].title, "To Do");
    assert!(app.columns[0].tasks.is_empty());
}

#[test]
fn opening_a_board_points_at_its_file() {
    let mut app = App::new("Board");
    app.base_dir = Some("/boards".to_string());
    app.set_available_boards(vec!["work_board.txt".to_string()]);
    assert_eq!(app.handle_key(Key::Enter), Effect::ReadBoardFile);
    assert_eq!(app.title, "work board");
    assert_eq!(app.file_path, Some("/boards/work_board.txt".to_string()));
}

#[test]
fn rename_chords_seed_the_buffer() {
    let mut app = plain_app();
    app.handle_key(Key::Char('r'));
    app.handle_key(Key::Char('c'));
    assert_eq!(app.input_mode, InputMode::RenamingColumn);
    assert_eq!(app.input_text, "To Do");
    app.handle_key(Key::Esc);
    app.handle_key(Key::Char('r'));
    app.handle_key(Key::Char('t'));
    assert_eq!(app.input_mode, InputMode::RenamingTask);
    assert_eq!(app.input_text, "Implement UI");
    for c in " now".chars() {
        app.handle_key(Key::Char(c));
    }
    assert_eq!(app.handle_key(Key::Enter), Effect::Save);
    assert_eq!(app.columns[0].tasks[0].title, "Implement UI now");
}
