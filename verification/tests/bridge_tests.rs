use kanban_tui::bridge::task_to_id;
use kanban_tui::model::{App, InputMode, Task};

#[test]
fn the_stored_id_folds_the_title_bytes() {
    let t = |s: &str| Task {
        title: s.to_string(),
        description: None,
        priority: None,
    };
    assert_eq!(task_to_id(&t("")), 0);
    assert_eq!(task_to_id(&t("a")), 97);
    assert_eq!(task_to_id(&t("ab")), 97 * 31 + 98);
}

fn save_reload_scenario(board_title: &str, date: &str, task_title: &str) {
    // a fresh board, one new column, one task added there
    let mut app = App::new(board_title);
    app.input_mode = InputMode::Normal;
    app.add_column("Doing");
    app.select_next_column();
    app.add_task(task_title);
    app.file_path = Some("board.txt".to_string());
    let text = app.save_board_text(date).unwrap();

    // a second model whose active column carries the same title
    let mut other = App::new(board_title);
    other.columns[0].title = "Doing".to_string();
    other.load_board(text.as_str());
    assert_eq!(other.input_mode, InputMode::Normal);
    assert_eq!(other.active_column, 1);
    assert_eq!(other.columns[1].title, "Doing");
    assert_eq!(other.columns[1].selected_task, Some(0));
    assert_eq!(other.columns[1].tasks[0].title, task_title);
    // the first column came along too, unselected
    assert_eq!(other.columns[0].title, "To Do");
    assert_eq!(other.columns[0].selected_task, None);
}

#[test]
fn saving_and_reloading_restores_the_active_column_by_title() {
    save_reload_scenario("Board", "2025-03-24", "write spec");
    save_reload_scenario("Another Board", "1999-12-31", "ship it");
}

#[test]
fn saving_without_a_file_path_is_the_configuration_error() {
    let app = App::new("Board");
    assert_eq!(app.save_board_text("2025-01-01"), Err("No file path set".to_string()));
    assert_eq!(app.save_board(), Err("No file path set".to_string()));
}

#[test]
fn saving_assigns_the_stored_defaults() {
    let mut app = App::new("Board");
    app.input_mode = InputMode::Normal;
    app.file_path = Some("board.txt".to_string());
    let text = app.save_board_text("2025-03-24").unwrap();
    let stored = kanban_tui::record::Board::from_text(text.as_str());
    assert_eq!(stored.name, "Board");
    assert_eq!(stored.date, "2025-03-24");
    assert_eq!(stored.description, "TUI Kanban Board");
    let t = &stored.columns[0].tasks[0];
    assert_eq!(t.title, "Implement UI");
    let p = t.priority.as_ref().unwrap();
    assert_eq!((p.impact, p.urgency, p.effort), (5, 5, 3));
    assert_eq!(t.created, Some("2025-03-24".to_string()));
}

#[test]
fn loading_keeps_only_the_impact() {
    let text = "# TUI Kanban Board: B\n\
                Date: 2025-01-01\n\
                Description: d\n\
                == C ==\n\
                * [ID:1] keep | Impact: 7 | Urgency: 9 | Effort: 2 | Tags: x,y\n\
                * [ID:2] bare\n";
    let mut app = App::new("B");
    app.load_board(text);
    assert_eq!(app.columns.len(), 1);
    assert_eq!(app.columns[0].tasks[0].priority, Some(7));
    assert_eq!(app.columns[0].tasks[1].priority, None);
    assert_eq!(app.columns[0].tasks[0].description, None);
}

#[test]
fn saving_with_the_live_date_renders_a_board_file() {
    let mut app = App::new("Board");
    app.input_mode = InputMode::Normal;
    app.file_path = Some("board.txt".to_string());
    let text = app.save_board().unwrap();
    assert!(text.starts_with("# TUI Kanban Board: Board\nDate: "));
    assert!(text.contains("== To Do =="));
    // the rendered text reads back as the same board
    let stored = kanban_tui::record::Board::from_text(text.as_str());
    assert_eq!(stored.columns.len(), 1);
    assert_eq!(stored.columns[0].tasks.len(), 2);
}
