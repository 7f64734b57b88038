use kanban_tui::record::{Board, Priority, Task};

fn sample_board() -> Board {
    let mut board = Board::new("Test Board", "2025-03-24", "A sample");
    board.add_column("To Do");
    board.add_column("Done");
    board
        .add_task(
            "To Do",
            Task {
                id: 1,
                title: "Task 1".to_string(),
                priority: Some(Priority {
                    impact: 5,
                    urgency: 5,
                    effort: 5,
                }),
                tags: vec!["test".to_string()],
                created: Some("2025-03-23".to_string()),
            },
        )
        .unwrap();
    board
        .add_task(
            "Done",
            Task {
                id: 2,
                title: "Task 2".to_string(),
                priority: None,
                tags: vec![],
                created: None,
            },
        )
        .unwrap();
    board
}

#[test]
fn rendering_writes_the_exact_layout() {
    let text = sample_board().to_text();
    // 5 * (5 + 5 + 10) / 55 = 100/55 = 1.8181..., written 1.82
    let expected = "# TUI Kanban Board: Test Board\n\
                    Date: 2025-03-24\n\
                    Description: A sample\n\
                    \n\
                    == To Do ==\n\
                    * [ID:1] Task 1 | Impact: 5 | Urgency: 5 | Effort: 5 | Computed: 1.82 | Tags: test | Created: 2025-03-23\n\
                    \n\
                    == Done ==\n\
                    * [ID:2] Task 2\n\
                    \n";
    assert_eq!(text, expected);
}

#[test]
fn text_round_trips() {
    let board = sample_board();
    let loaded = Board::from_text(board.to_text().as_str());
    assert_eq!(loaded.name, "Test Board");
    assert_eq!(loaded.date, "2025-03-24");
    assert_eq!(loaded.description, "A sample");
    assert_eq!(loaded.columns.len(), 2);
    assert_eq!(loaded.columns[0].name, "To Do");
    assert_eq!(loaded.columns[0].tasks.len(), 1);
    let t = &loaded.columns[0].tasks[0];
    assert_eq!(t.id, 1);
    assert_eq!(t.title, "Task 1");
    assert_eq!(
        t.priority,
        Some(Priority {
            impact: 5,
            urgency: 5,
            effort: 5
        })
    );
    assert_eq!(t.tags, vec!["test".to_string()]);
    assert_eq!(t.created, Some("2025-03-23".to_string()));
    let u = &loaded.columns[1].tasks[0];
    assert_eq!(u.id, 2);
    assert_eq!(u.title, "Task 2");
    assert_eq!(u.priority, None);
    assert!(u.tags.is_empty());
    assert_eq!(u.created, None);
}

#[test]
fn parsing_is_tolerant() {
    let text = "junk line to skip\n\
                # TUI Kanban Board: B\n\
                Date: 2025-01-01\n\
                Description: d\n\
                == Col ==\n\
                * stray title]\n\
                * [ID:notanumber] second\n\
                not a task\n";
    let b = Board::from_text(text);
    assert_eq!(b.name, "B");
    assert_eq!(b.columns.len(), 1);
    assert_eq!(b.columns[0].tasks.len(), 2);
    // a malformed or missing [ID:...] reads as id 0
    assert_eq!(b.columns[0].tasks[0].id, 0);
    assert_eq!(b.columns[0].tasks[1].id, 0);
    assert_eq!(b.columns[0].tasks[1].title, "second");
}

#[test]
fn computed_field_is_ignored_on_parse() {
    let text = "# TUI Kanban Board: B\n\
                Date: x\n\
                Description: y\n\
                == C ==\n\
                * [ID:7] t | Impact: 1 | Urgency: 2 | Effort: 3 | Computed: 99.99\n";
    let b = Board::from_text(text);
    let t = &b.columns[0].tasks[0];
    assert_eq!(
        t.priority,
        Some(Priority {
            impact: 1,
            urgency: 2,
            effort: 3
        })
    );
}

#[test]
fn a_task_outside_any_column_is_dropped() {
    let text = "# TUI Kanban Board: B\n\
                Date: x\n\
                Description: y\n\
                * [ID:1] homeless\n\
                == C ==\n";
    let b = Board::from_text(text);
    assert_eq!(b.columns.len(), 1);
    assert!(b.columns[0].tasks.is_empty());
}

#[test]
fn missing_priority_field_means_no_priority() {
    let text = "# TUI Kanban Board: B\n\
                Date: x\n\
                Description: y\n\
                == C ==\n\
                * [ID:1] t | Impact: 4 | Effort: 2\n";
    let b = Board::from_text(text);
    assert_eq!(b.columns[0].tasks[0].priority, None);
}

#[test]
fn empty_fields_round_trip() {
    let mut board = Board::new("", "", "");
    board.add_column("");
    board
        .add_task(
            "",
            Task {
                id: 0,
                title: "".to_string(),
                priority: Some(Priority {
                    impact: 1,
                    urgency: 2,
                    effort: 3,
                }),
                tags: vec![],
                created: None,
            },
        )
        .unwrap();
    let loaded = Board::from_text(board.to_text().as_str());
    assert_eq!(loaded.name, "");
    assert_eq!(loaded.date, "");
    assert_eq!(loaded.description, "");
    assert_eq!(loaded.columns.len(), 1);
    assert_eq!(loaded.columns[0].name, "");
    assert_eq!(loaded.columns[0].tasks.len(), 1);
    assert_eq!(loaded.columns[0].tasks[0].title, "");
    assert_eq!(
        loaded.columns[0].tasks[0].priority,
        Some(Priority {
            impact: 1,
            urgency: 2,
            effort: 3
        })
    );
}
