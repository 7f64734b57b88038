use kanban_tui::model::App;
use kanban_tui::store::{available_boards_from_files, display_to_file_name, sort_strings};

#[test]
fn a_directory_scan_lists_boards_sorted_with_the_sentinel_last() {
    let names = vec!["work_board.txt".to_string(), "home_board.txt".to_string()];
    let boards = available_boards_from_files(names);
    assert_eq!(
        boards,
        vec![
            "home board".to_string(),
            "work board".to_string(),
            "[Create New Board]".to_string()
        ]
    );
}

#[test]
fn only_txt_files_become_boards() {
    let names = vec![
        "notes.md".to_string(),
        "b_two.txt".to_string(),
        "a_one.txt".to_string(),
        "backup".to_string(),
    ];
    let boards = available_boards_from_files(names);
    assert_eq!(
        boards,
        vec![
            "a one".to_string(),
            "b two".to_string(),
            "[Create New Board]".to_string()
        ]
    );
}

#[test]
fn display_names_map_back_to_file_names() {
    assert_eq!(display_to_file_name("My Board"), "my_board.txt");
    assert_eq!(display_to_file_name("work board"), "work_board.txt");
}

#[test]
fn sorting_is_by_code_point() {
    let sorted = sort_strings(vec![
        "pear".to_string(),
        "Apple".to_string(),
        "apple".to_string(),
        "fig".to_string(),
    ]);
    assert_eq!(
        sorted,
        vec![
            "Apple".to_string(),
            "apple".to_string(),
            "fig".to_string(),
            "pear".to_string()
        ]
    );
}

#[test]
fn setting_the_board_list_highlights_the_first_entry() {
    let mut app = App::new("b");
    app.selected_board_index = None;
    app.set_available_boards(vec!["z.txt".to_string(), "a.txt".to_string()]);
    assert_eq!(
        app.available_boards,
        vec![
            "a".to_string(),
            "z".to_string(),
            "[Create New Board]".to_string()
        ]
    );
    assert_eq!(app.selected_board_index, Some(0));
}
