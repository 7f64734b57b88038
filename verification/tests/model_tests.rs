use kanban_tui::model::App;

fn plain_app() -> App {
    // a fresh board, past the board-selection screen
    let mut app = App::new("Board");
    app.input_mode = kanban_tui::model::InputMode::Normal;
    app
}

#[test]
fn duplicate_column_titles_get_numbered() {
    let mut app = plain_app();
    // a "To Do" column exists from the start
    app.add_column("To Do");
    assert_eq!(app.columns[1].title, "To Do (1)");
    app.add_column("To Do");
    assert_eq!(app.columns[2].title, "To Do (2)");
    app.add_column("Doing");
    assert_eq!(app.columns[3].title, "Doing");
}

#[test]
fn switching_columns_scopes_the_selection() {
    let mut app = plain_app();
    app.add_column("Next");
    app.select_next_column();
    app.select_next_task();
    // every column but the new active one has no selection
    for (i, col) in app.columns.iter().enumerate() {
        if i != app.active_column {
            assert_eq!(col.selected_task, None);
        }
    }
    app.select_prev_column();
    for (i, col) in app.columns.iter().enumerate() {
        if i != app.active_column {
            assert_eq!(col.selected_task, None);
        }
    }
}

#[test]
fn thirty_tasks_reach_the_uppercase_labels() {
    let mut app = plain_app();
    // the fresh board starts with two tasks; add twenty-eight more
    for _ in 0..28 {
        app.add_task("filler");
    }
    assert_eq!(app.total_task_count(), 30);
    let labels = app.get_jump_labels();
    assert!(labels.len() >= 30);
    // the twenty-fifth task (0-indexed 24) carries the first uppercase label
    assert_eq!(app.get_jump_label_for_task(0, 24), Some('A'));
    // and the label leads back to the task
    assert_eq!(app.get_task_by_jump_label('A'), Some((0, 24)));
    assert_eq!(app.get_jump_label_for_task(0, 0), Some('a'));
    assert_eq!(app.get_task_by_jump_label('a'), Some((0, 0)));
}

#[test]
fn moving_a_task_appends_it_and_reclamps_the_source() {
    let mut app = plain_app();
    app.add_column("B");
    // column A: exactly three tasks, the middle one selected
    app.delete_current_task();
    app.delete_current_task();
    app.add_task("one");
    app.add_task("two");
    app.add_task("three");
    assert_eq!(app.columns[0].tasks.len(), 3);
    app.select_prev_task();
    assert_eq!(app.columns[0].selected_task, Some(1));

    app.move_task_to_column(1);
    assert_eq!(app.columns[0].tasks.len(), 2);
    assert_eq!(app.columns[0].selected_task, Some(1));
    assert_eq!(app.columns[1].tasks.len(), 1);
    assert_eq!(app.columns[1].tasks[0].title, "two");
    // the target keeps its own (empty) selection
    assert_eq!(app.columns[1].selected_task, None);
}

#[test]
fn deleting_the_only_task_clears_the_selection() {
    let mut app = plain_app();
    // reduce to a single task in the single column
    app.delete_current_task();
    assert_eq!(app.columns[0].tasks.len(), 1);
    app.delete_current_task();
    assert_eq!(app.columns[0].tasks.len(), 0);
    assert_eq!(app.columns[0].selected_task, None);
    // navigation afterwards is a quiet no-op
    app.select_next_task();
    app.select_prev_task();
    app.select_next_column();
    app.select_prev_column();
    assert_eq!(app.columns[0].selected_task, None);
    assert_eq!(app.active_column, 0);
}

#[test]
fn deleting_the_last_column_leaves_an_empty_board() {
    let mut app = plain_app();
    app.delete_current_column();
    assert!(app.columns.is_empty());
    // later operations must tolerate the empty board
    app.select_next_column();
    app.delete_current_task();
    app.delete_current_column();
    app.add_task("ignored");
    assert!(app.columns.is_empty());
}

#[test]
fn jumping_to_a_column_by_number() {
    let mut app = plain_app();
    app.add_column("B");
    app.add_column("C");
    app.jump_to_column(3);
    assert_eq!(app.active_column, 2);
    app.jump_to_column(0);
    assert_eq!(app.active_column, 0);
    // out of range does nothing
    app.jump_to_column(9);
    assert_eq!(app.active_column, 0);
}

#[test]
fn renaming_column_and_task() {
    let mut app = plain_app();
    app.rename_current_column("Soon");
    assert_eq!(app.columns[0].title, "Soon");
    app.rename_current_task("first");
    assert_eq!(app.columns[0].tasks[0].title, "first");
    // the other task kept its name
    assert_eq!(app.columns[0].tasks[1].title, "Add task functionality");
}
