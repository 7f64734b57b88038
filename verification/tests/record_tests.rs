use kanban_tui::record::{Board, Priority, Task};

#[test]
fn test_board_creation_and_add_column() {
    let mut board = Board::new("Test Board", "2025-03-24", "Test description");
    board.add_column("To Do");
    board.add_column("Done");

    assert_eq!(board.columns.len(), 2);
    assert_eq!(board.columns[0].name, "To Do");
    assert_eq!(board.columns[1].name, "Done");
}

#[test]
fn test_add_update_delete_task() {
    let mut board = Board::new("Test Board", "2025-03-24", "Test description");
    board.add_column("To Do");

    let task = Task {
        id: 1,
        title: "Test task".to_string(),
        priority: Some(Priority {
            impact: 8,
            urgency: 7,
            effort: 2,
        }),
        tags: vec!["tag1".to_string()],
        created: Some("2025-03-23".to_string()),
    };

    // Test adding a task.
    board.add_task("To Do", task.clone()).unwrap();
    assert_eq!(board.columns[0].tasks.len(), 1);
    assert_eq!(board.columns[0].tasks[0].id, 1);

    // Test updating the task.
    let updated_task = Task {
        id: 1,
        title: "Updated task".to_string(),
        priority: Some(Priority {
            impact: 9,
            urgency: 8,
            effort: 3,
        }),
        tags: vec!["tag1".to_string(), "tag2".to_string()],
        created: Some("2025-03-24".to_string()),
    };
    board.update_task("To Do", 1, updated_task.clone()).unwrap();
    assert_eq!(board.columns[0].tasks[0].title, "Updated task");

    // Test deleting the task.
    board.delete_task("To Do", 1).unwrap();
    assert_eq!(board.columns[0].tasks.len(), 0);
}

#[test]
fn missing_column_is_an_error() {
    let mut board = Board::new("B", "2025-01-01", "");
    let task = Task {
        id: 3,
        title: "t".to_string(),
        priority: None,
        tags: vec![],
        created: None,
    };
    let err = board.add_task("Nowhere", task).unwrap_err();
    assert_eq!(err, "Column 'Nowhere' not found");
    let err = board.delete_task("Nowhere", 3).unwrap_err();
    assert_eq!(err, "Column 'Nowhere' not found");
}

#[test]
fn missing_task_is_an_error() {
    let mut board = Board::new("B", "2025-01-01", "");
    board.add_column("Open");
    let err = board.delete_task("Open", 42).unwrap_err();
    assert_eq!(err, "Task with id 42 not found in column 'Open'");
}

#[test]
fn computed_hundredths_follows_the_formula() {
    // effort zero has no computed value
    let p = Priority {
        impact: 8,
        urgency: 5,
        effort: 0,
    };
    assert!(p.computed_hundredths().is_none());

    // 1 + 9 * (((8 + 12) / 1 - 0.2) / 19.8) is exactly 10
    let p = Priority {
        impact: 8,
        urgency: 12,
        effort: 1,
    };
    assert_eq!(p.computed_hundredths(), Some(1000));

    // 5 * (8 + 5 + 2 * 2) / (11 * 2) = 85/22 = 3.8636..., rounded 3.86
    let p = Priority {
        impact: 8,
        urgency: 5,
        effort: 2,
    };
    assert_eq!(p.computed_hundredths(), Some(386));
}
