//! The modal key dispatch: every key press becomes one transition of
//! the board state plus an effect the surrounding program performs
//! (quit, persist, scan the board directory, read a board file). Each
//! mode's transition is a spec relation (`normal_step`, `move_mode_step`,
//! ...); the mode handlers are proved against them, and `handle_key`
//! ensures the relation of whatever mode the board is in.
use crate::model::{flat_index, labels_spec, total_tasks, App, Column, InputMode};
use crate::store::{display_to_file_name, lower_of, underscored};
use crate::textutil::{find_ch_spec, pop_char, push_char};
use vstd::prelude::*;

verus! {

/// A key press, as the terminal reports it, reduced to what the modes
/// read.
#[derive(Debug, Clone, Copy, PartialEq, Eq, Structural)]
pub enum Key {
    Char(char),
    Ctrl(char),
    Enter,
    Esc,
    Backspace,
    Up,
    Down,
    Other,
}

/// What the caller must do after a transition: nothing, stop the
/// program, write the board to its file, list the board directory and
/// hand the names back, or read the chosen board file and hand its
/// text back.
#[derive(Debug, Clone, Copy, PartialEq, Eq, Structural)]
pub enum Effect {
    Nothing,
    Quit,
    Save,
    ScanBoards,
    ReadBoardFile,
}

/// The text a text-entry mode commits: the buffer, or the fallback
/// when the buffer is empty.
pub open spec fn committed(buffer: Seq<char>, fallback: Seq<char>) -> Seq<char> {
    if buffer.len() == 0 {
        fallback
    } else {
        buffer
    }
}

/// The stored path of a board named `name` under `dir`.
pub open spec fn board_path(dir: Seq<char>, name: Seq<char>) -> Seq<char> {
    dir + "/"@ + lower_of(underscored(name)) + ".txt"@
}

/// The digit a `0`-`9` key names, or nothing.
pub open spec fn digit_of_key(key: Key) -> Option<int> {
    match key {
        Key::Char(c) => if '0' <= c && c <= '9' {
            Some(c as int - '0' as int)
        } else {
            None
        },
        _ => None,
    }
}

/// Every column keeps its title and its tasks (selections may move).
pub open spec fn keeps_titles_tasks(pre: App, post: App) -> bool {
    &&& post.columns.len() == pre.columns.len()
    &&& forall|i: int|
        0 <= i < pre.columns.len() ==> {
            let c = #[trigger] post.columns@[i];
            c.title == pre.columns@[i].title && c.tasks == pre.columns@[i].tasks
        }
}

/// The board-list highlight one step up, stopping at the top.
pub open spec fn highlight_up_step(pre: App, post: App) -> bool {
    match pre.selected_board_index {
        Some(i) => if i > 0 {
            post == (App { selected_board_index: Some((i - 1) as usize), ..pre })
        } else {
            post == pre
        },
        None => post == pre,
    }
}

/// The board-list highlight one step down, stopping at the last entry.
pub open spec fn highlight_down_step(pre: App, post: App) -> bool {
    match pre.selected_board_index {
        Some(i) => if pre.available_boards.len() > 0 && i + 1 < pre.available_boards.len() {
            post == (App { selected_board_index: Some((i + 1) as usize), ..pre })
        } else {
            post == pre
        },
        None => post == pre,
    }
}

/// Opening the highlighted board entry: the create-new entry opens the
/// naming prompt; a board entry takes its title, points the file path
/// into the base directory (when one is set), and asks for the file.
pub open spec fn open_selected_step(pre: App, post: App, e: Effect) -> bool {
    match pre.selected_board_index {
        Some(i) => if pre.available_boards.len() > 0 && i == pre.available_boards.len() - 1 {
            e is Nothing && post == (App {
                input_mode: InputMode::AddingBoard,
                input_text: post.input_text,
                ..pre
            }) && post.input_text@.len() == 0
        } else if i < pre.available_boards.len() {
            &&& e is ReadBoardFile
            &&& post.title@ == pre.available_boards@[i as int]@
            &&& (match pre.base_dir {
                Some(d) => post.file_path matches Some(p) && p@ == board_path(
                    d@,
                    pre.available_boards@[i as int]@,
                ),
                None => post.file_path == pre.file_path,
            })
            &&& post == (App { title: post.title, file_path: post.file_path, ..pre })
        } else {
            e is Nothing && post == pre
        },
        None => e is Nothing && post == pre,
    }
}

/// The board-selection screen's transition for one key.
pub open spec fn board_selection_step(pre: App, key: Key, post: App, e: Effect) -> bool {
    match key {
        Key::Esc => if pre.columns.len() > 0 {
            e is Nothing && post == (App { input_mode: InputMode::Normal, ..pre })
        } else {
            e is Quit && post == pre
        },
        Key::Char('b') => e is Nothing && post == (App { input_mode: InputMode::Normal, ..pre }),
        Key::Char('q') => e is Quit && post == pre,
        Key::Up | Key::Char('k') => e is Nothing && highlight_up_step(pre, post),
        Key::Down | Key::Char('j') => e is Nothing && highlight_down_step(pre, post),
        Key::Enter => open_selected_step(pre, post, e),
        _ => e is Nothing && post == pre,
    }
}

/// The new-board naming prompt's transition for one key.
pub open spec fn adding_board_step(pre: App, key: Key, post: App, e: Effect) -> bool {
    match key {
        Key::Enter => {
            let name = committed(pre.input_text@, "My Kanban Board"@);
            &&& post.title@ == name
            &&& post.columns.len() == 1
            &&& post.columns@[0].title@ == "To Do"@
            &&& post.columns@[0].tasks.len() == 0
            &&& post.columns@[0].selected_task is None
            &&& post.active_column == 0
            &&& post.input_text@.len() == 0
            &&& (match pre.base_dir {
                Some(d) => (post.file_path matches Some(p) && p@ == board_path(d@, name))
                    && post.input_mode is Normal && e is Save,
                None => post.file_path == pre.file_path && post.input_mode == pre.input_mode && e
                    is Nothing,
            })
            &&& post == (App {
                title: post.title,
                columns: post.columns,
                active_column: 0,
                input_mode: post.input_mode,
                input_text: post.input_text,
                file_path: post.file_path,
                ..pre
            })
        },
        Key::Esc => e is Nothing && post == (App {
            input_mode: InputMode::BoardSelection,
            input_text: post.input_text,
            ..pre
        }) && post.input_text@.len() == 0,
        Key::Char(c) => e is Nothing && post == (App { input_text: post.input_text, ..pre })
            && post.input_text@ == pre.input_text@.push(c),
        Key::Backspace => e is Nothing && post == (App { input_text: post.input_text, ..pre })
            && post.input_text@ == (if pre.input_text@.len() > 0 {
            pre.input_text@.drop_last()
        } else {
            pre.input_text@
        }),
        _ => e is Nothing && post == pre,
    }
}

/// A text-entry prompt's transition for one key: characters build the
/// buffer, backspace shortens it, escape discards, and enter commits
/// what `kind` names (the fallback name when the buffer is empty).
pub open spec fn text_entry_step(pre: App, key: Key, post: App, e: Effect, kind: InputMode) -> bool {
    match key {
        Key::Enter => text_commit_step(pre, post, e, kind),
        Key::Esc => e is Nothing && post == (App {
            input_mode: InputMode::Normal,
            input_text: post.input_text,
            ..pre
        }) && post.input_text@.len() == 0,
        Key::Char(c) => e is Nothing && post == (App { input_text: post.input_text, ..pre })
            && post.input_text@ == pre.input_text@.push(c),
        Key::Backspace => e is Nothing && post == (App { input_text: post.input_text, ..pre })
            && post.input_text@ == (if pre.input_text@.len() > 0 {
            pre.input_text@.drop_last()
        } else {
            pre.input_text@
        }),
        _ => e is Nothing && post == pre,
    }
}

/// What enter commits in each text-entry mode.
pub open spec fn text_commit_step(pre: App, post: App, e: Effect, kind: InputMode) -> bool {
    match kind {
        InputMode::AddingColumn => {
            &&& post.columns.len() == pre.columns.len() + 1
            &&& (forall|i: int|
                0 <= i < pre.columns.len() ==> #[trigger] post.columns@[i] == pre.columns@[i])
            &&& post.columns@.last().tasks.len() == 0
            &&& post.columns@.last().selected_task is None
            &&& post == (App {
                columns: post.columns,
                input_mode: InputMode::Normal,
                input_text: post.input_text,
                ..pre
            })
            &&& post.input_text@.len() == 0
            &&& e is Save
        },
        InputMode::AddingTask => if pre.columns.len() == 0 {
            post == pre && e is Nothing
        } else {
            let a = pre.active_column as int;
            &&& post.columns@[a].tasks.len() == pre.columns@[a].tasks.len() + 1
            &&& post.columns@[a].tasks@.last().title@ == committed(
                pre.input_text@,
                "New Task"@,
            )
            &&& post.columns@[a].selected_task == Some(pre.columns@[a].tasks.len() as usize)
            &&& (forall|i: int|
                0 <= i < pre.columns.len() && i != a ==> #[trigger] post.columns@[i]
                    == pre.columns@[i])
            &&& post == (App {
                columns: post.columns,
                input_mode: InputMode::Normal,
                input_text: post.input_text,
                ..pre
            })
            &&& post.input_text@.len() == 0
            &&& e is Save
        },
        InputMode::RenamingColumn => if pre.columns.len() == 0 {
            post == pre && e is Nothing
        } else {
            let a = pre.active_column as int;
            &&& post.columns@[a].title@ == committed(pre.input_text@, "Unnamed Column"@)
            &&& post.columns@[a].tasks == pre.columns@[a].tasks
            &&& post.columns@[a].selected_task == pre.columns@[a].selected_task
            &&& (forall|i: int|
                0 <= i < pre.columns.len() && i != a ==> #[trigger] post.columns@[i]
                    == pre.columns@[i])
            &&& post == (App {
                columns: post.columns,
                input_mode: InputMode::Normal,
                input_text: post.input_text,
                ..pre
            })
            &&& post.input_text@.len() == 0
            &&& e is Save
        },
        _ => {
            // renaming the selected task
            let a = pre.active_column as int;
            if pre.columns.len() == 0 || pre.columns@[a].selected_task is None {
                post == pre && e is Nothing
            } else {
                let idx = pre.columns@[a].selected_task->0 as int;
                &&& post.columns@[a].tasks@[idx].title@ == committed(
                    pre.input_text@,
                    "Unnamed Task"@,
                )
                &&& post == (App {
                    columns: post.columns,
                    input_mode: InputMode::Normal,
                    input_text: post.input_text,
                    ..pre
                })
                &&& post.input_text@.len() == 0
                &&& e is Save
            }
        },
    }
}

/// The active column one step left, other selections cleared.
pub open spec fn prev_column_step(pre: App, post: App) -> bool {
    if pre.active_column == 0 {
        post == pre
    } else {
        &&& post.active_column == pre.active_column - 1
        &&& keeps_titles_tasks(pre, post)
        &&& post.columns@[post.active_column as int] == pre.columns@[post.active_column as int]
        &&& post == (App { columns: post.columns, active_column: post.active_column, ..pre })
    }
}

/// The active column one step right, other selections cleared.
pub open spec fn next_column_step(pre: App, post: App) -> bool {
    if pre.columns.len() == 0 || pre.active_column + 1 >= pre.columns.len() {
        post == pre
    } else {
        &&& post.active_column == pre.active_column + 1
        &&& keeps_titles_tasks(pre, post)
        &&& post.columns@[post.active_column as int] == pre.columns@[post.active_column as int]
        &&& post == (App { columns: post.columns, active_column: post.active_column, ..pre })
    }
}

/// The selection one task up in the active column (the last task when
/// nothing was selected; unmoved at the first task).
pub open spec fn prev_task_step(pre: App, post: App) -> bool {
    if pre.columns.len() == 0 {
        post == pre
    } else {
        let a = pre.active_column as int;
        let col = pre.columns@[a];
        let want: Option<usize> = if col.tasks.len() == 0 {
            None
        } else {
            match col.selected_task {
                Some(cur) => if cur > 0 {
                    Some((cur - 1) as usize)
                } else {
                    Some(cur)
                },
                None => Some((col.tasks.len() - 1) as usize),
            }
        };
        &&& post.columns@ == pre.columns@.update(
            a,
            Column { title: col.title, tasks: col.tasks, selected_task: want },
        )
        &&& post == (App { columns: post.columns, ..pre })
    }
}

/// The selection one task down in the active column (the first task
/// when nothing was selected; unmoved at the last task).
pub open spec fn next_task_step(pre: App, post: App) -> bool {
    if pre.columns.len() == 0 {
        post == pre
    } else {
        let a = pre.active_column as int;
        let col = pre.columns@[a];
        let want: Option<usize> = if col.tasks.len() == 0 {
            None
        } else {
            match col.selected_task {
                Some(cur) => if cur + 1 < col.tasks.len() {
                    Some((cur + 1) as usize)
                } else {
                    Some(cur)
                },
                None => Some(0usize),
            }
        };
        &&& post.columns@ == pre.columns@.update(
            a,
            Column { title: col.title, tasks: col.tasks, selected_task: want },
        )
        &&& post == (App { columns: post.columns, ..pre })
    }
}

/// The delete-task chord: with a selection, the selected task leaves
/// the active column and the selection re-clamps; otherwise nothing
/// but the chord is consumed.
pub open spec fn chord_delete_task_step(pre: App, post: App, e: Effect) -> bool {
    let a = pre.active_column as int;
    if pre.columns.len() > 0 && pre.columns@[a].selected_task is Some {
        let col = pre.columns@[a];
        let idx = col.selected_task->0 as int;
        let rest = col.tasks@.remove(idx);
        let want: Option<usize> = if rest.len() == 0 {
            None
        } else if idx >= rest.len() {
            Some((rest.len() - 1) as usize)
        } else {
            col.selected_task
        };
        &&& e is Save
        &&& post.columns@.len() == pre.columns@.len()
        &&& post.columns@[a].tasks@ == rest
        &&& post.columns@[a].selected_task == want
        &&& post.columns@[a].title == col.title
        &&& (forall|i: int|
            0 <= i < pre.columns@.len() && i != a ==> #[trigger] post.columns@[i]
                == pre.columns@[i])
        &&& post == (App { columns: post.columns, pending_chord: None, ..pre })
    } else {
        e is Nothing && post == (App { pending_chord: None, ..pre })
    }
}

/// The normal mode's transition for one key: immediate commands fire
/// at once, the prefix keys `a`, `d`, `g`, `r` wait in the pending
/// chord for a `c` (column) or `t` (task), and an unmatched chord is
/// dropped.
pub open spec fn normal_step(pre: App, key: Key, post: App, e: Effect) -> bool {
    match pre.pending_chord {
        None => match key {
            Key::Char('q') => e is Quit && post == pre,
            Key::Char('a') | Key::Char('d') | Key::Char('g') | Key::Char('r') => e is Nothing
                && post == (App { pending_chord: Some(key->Char_0), ..pre }),
            Key::Char('b') => e is ScanBoards && post == (App {
                input_mode: InputMode::BoardSelection,
                ..pre
            }),
            Key::Char('m') => e is Nothing && (if pre.columns.len() > 0 && pre.columns@[pre.active_column as int].selected_task is Some {
                post == (App { input_mode: InputMode::ColumnSelectionMode, ..pre })
            } else {
                post == pre
            }),
            Key::Ctrl('s') => e is Save && post == pre,
            Key::Ctrl('k') => e is Nothing && post == (App {
                input_mode: InputMode::MoveMode,
                ..pre
            }),
            Key::Char('h') => e is Nothing && prev_column_step(pre, post),
            Key::Char('l') => e is Nothing && next_column_step(pre, post),
            Key::Char('j') => e is Nothing && next_task_step(pre, post),
            Key::Char('k') => e is Nothing && prev_task_step(pre, post),
            _ => e is Nothing && post == pre,
        },
        Some(p) => match (p, key) {
            ('a', Key::Char('c')) => e is Nothing && post == (App {
                input_mode: InputMode::AddingColumn,
                pending_chord: None,
                ..pre
            }),
            ('a', Key::Char('t')) => e is Nothing && post == (App {
                input_mode: InputMode::AddingTask,
                pending_chord: None,
                ..pre
            }),
            ('d', Key::Char('c')) => e is Nothing && (if pre.columns.len() > 0 {
                post == (App {
                    input_mode: InputMode::ConfirmDeleteColumn,
                    pending_chord: None,
                    ..pre
                })
            } else {
                post == (App { pending_chord: None, ..pre })
            }),
            ('d', Key::Char('t')) => chord_delete_task_step(pre, post, e),
            ('g', Key::Char('c')) => e is Nothing && post == (App {
                input_mode: InputMode::JumpToColumnMode,
                pending_chord: None,
                ..pre
            }),
            ('g', Key::Char('t')) => e is Nothing && post == (App {
                input_mode: InputMode::JumpToTaskMode,
                pending_chord: None,
                ..pre
            }),
            ('r', Key::Char('c')) => e is Nothing && (if pre.columns.len() > 0 {
                post == (App {
                    input_mode: InputMode::RenamingColumn,
                    input_text: post.input_text,
                    pending_chord: None,
                    ..pre
                }) && post.input_text@ == pre.columns@[pre.active_column as int].title@
            } else {
                post == (App { pending_chord: None, ..pre })
            }),
            ('r', Key::Char('t')) => e is Nothing && (if pre.columns.len() > 0 && pre.columns@[pre.active_column as int].selected_task is Some {
                post == (App {
                    input_mode: InputMode::RenamingTask,
                    input_text: post.input_text,
                    pending_chord: None,
                    ..pre
                }) && post.input_text@ == pre.columns@[pre.active_column as int].tasks@[pre.columns@[pre.active_column as int].selected_task->0 as int].title@
            } else {
                post == (App { pending_chord: None, ..pre })
            }),
            _ => e is Nothing && post == (App { pending_chord: None, ..pre }),
        },
    }
}

/// Move mode's transition: a digit jumps to that column (`0` to the
/// first, `1` through `9` to columns one through nine) and saves,
/// escape cancels, anything else stays.
pub open spec fn move_mode_step(pre: App, key: Key, post: App, e: Effect) -> bool {
    match key {
        Key::Esc => e is Nothing && post == (App { input_mode: InputMode::Normal, ..pre }),
        _ => match digit_of_key(key) {
            Some(d) => {
                let target: int = if d == 0 {
                    0
                } else {
                    d - 1
                };
                if target < pre.columns.len() {
                    &&& e is Save
                    &&& post.active_column == target
                    &&& keeps_titles_tasks(pre, post)
                    &&& post.columns@[target] == pre.columns@[target]
                    &&& post == (App {
                        columns: post.columns,
                        active_column: post.active_column,
                        input_mode: InputMode::Normal,
                        ..pre
                    })
                } else {
                    e is Nothing && post == pre
                }
            },
            None => e is Nothing && post == pre,
        },
    }
}

/// The delete-column confirmation's transition: `y` deletes the active
/// column (re-clamping the active index) and saves, `n` or escape
/// cancels; all three return to the normal mode.
pub open spec fn confirm_delete_step(pre: App, key: Key, post: App, e: Effect) -> bool {
    match key {
        Key::Char('y') => if pre.columns.len() > 0 {
            &&& e is Save
            &&& post.columns@ == pre.columns@.remove(pre.active_column as int)
            &&& post.active_column == (if pre.active_column < post.columns@.len()
                || post.columns@.len() == 0 {
                pre.active_column as int
            } else {
                post.columns@.len() - 1
            })
            &&& post == (App {
                columns: post.columns,
                active_column: post.active_column,
                input_mode: InputMode::Normal,
                ..pre
            })
        } else {
            e is Nothing && post == (App { input_mode: InputMode::Normal, ..pre })
        },
        Key::Char('n') | Key::Esc => e is Nothing && post == (App {
            input_mode: InputMode::Normal,
            ..pre
        }),
        _ => e is Nothing && post == pre,
    }
}

/// What moving the selected task to `target` does to the columns.
pub open spec fn move_task_effect(pre: App, post: App, target: int) -> bool {
    let a = pre.active_column as int;
    let src = pre.columns@[a];
    let idx = src.selected_task->0 as int;
    let moved = src.tasks@[idx];
    let rest = src.tasks@.remove(idx);
    let want: Option<usize> = if rest.len() == 0 {
        None
    } else if idx >= rest.len() {
        Some((rest.len() - 1) as usize)
    } else {
        src.selected_task
    };
    &&& post.columns@.len() == pre.columns@.len()
    &&& post.columns@[a].tasks@ == rest
    &&& post.columns@[a].selected_task == want
    &&& post.columns@[a].title == src.title
    &&& post.columns@[target].tasks@ == pre.columns@[target].tasks@.push(moved)
    &&& post.columns@[target].selected_task == pre.columns@[target].selected_task
    &&& post.columns@[target].title == pre.columns@[target].title
    &&& (forall|i: int|
        0 <= i < pre.columns@.len() && i != a && i != target ==> #[trigger] post.columns@[i]
            == pre.columns@[i])
}

/// Column selection's transition: `1` through `9` move the selected
/// task to that column and return to the normal mode (saving when the
/// move happened), escape cancels, anything else stays.
pub open spec fn column_selection_step(pre: App, key: Key, post: App, e: Effect) -> bool {
    match key {
        Key::Esc => e is Nothing && post == (App { input_mode: InputMode::Normal, ..pre }),
        Key::Char(c) => if '1' <= c && c <= '9' {
            let target = c as int - '0' as int - 1;
            if target < pre.columns.len() && target != pre.active_column && pre.columns@[pre.active_column as int].selected_task is Some {
                &&& e is Save
                &&& move_task_effect(pre, post, target)
                &&& post == (App {
                    columns: post.columns,
                    input_mode: InputMode::Normal,
                    ..pre
                })
            } else {
                e is Nothing && post == (App { input_mode: InputMode::Normal, ..pre })
            }
        } else {
            e is Nothing && post == pre
        },
        _ => e is Nothing && post == pre,
    }
}

/// The single-shot column jump's transition: `1` through `9` switch
/// the active column (clearing other selections) when in range; every
/// key returns to the normal mode, and nothing else changes.
pub open spec fn jump_column_step(pre: App, key: Key, post: App, e: Effect) -> bool {
    &&& e is Nothing
    &&& (match key {
        Key::Char(c) => if '1' <= c && c <= '9' && c as int - '0' as int - 1
            < pre.columns.len() {
            let target = c as int - '0' as int - 1;
            &&& post.active_column == target
            &&& keeps_titles_tasks(pre, post)
            &&& post.columns@[target] == pre.columns@[target]
            &&& post == (App {
                columns: post.columns,
                active_column: post.active_column,
                input_mode: InputMode::Normal,
                ..pre
            })
        } else {
            post == (App { input_mode: InputMode::Normal, ..pre })
        },
        _ => post == (App { input_mode: InputMode::Normal, ..pre }),
    })
}

/// The task-jump mode's transition: a character carrying a jump label
/// selects the task at that label's reading-order position and saves;
/// an unassigned character stays, so the labels can be read and tried
/// again; escape cancels.
pub open spec fn jump_task_step(pre: App, key: Key, post: App, e: Effect) -> bool {
    match key {
        Key::Esc => e is Nothing && post == (App { input_mode: InputMode::Normal, ..pre }),
        Key::Char(c) => {
            let li = find_ch_spec(labels_spec(total_tasks(pre.columns@)), c);
            if 0 <= li < total_tasks(pre.columns@) {
                &&& e is Save
                &&& keeps_titles_tasks(pre, post)
                &&& post.active_column < pre.columns.len()
                &&& (post.columns@[post.active_column as int].selected_task matches Some(t)
                    && flat_index(pre.columns@, post.active_column as int, t as int) == li)
                &&& post == (App {
                    columns: post.columns,
                    active_column: post.active_column,
                    input_mode: InputMode::Normal,
                    ..pre
                })
            } else {
                e is Nothing && post == pre
            }
        },
        _ => e is Nothing && post == pre,
    }
}

impl App {
    /// One character into the text buffer.
    pub fn buffer_push(&mut self, c: char)
        ensures
            *final(self) == (App { input_text: final(self).input_text, ..*old(self) }),
            final(self).input_text@ == old(self).input_text@.push(c),
    {
        push_char(&mut self.input_text, c);
    }

    /// The last character out of the text buffer.
    pub fn buffer_pop(&mut self)
        ensures
            *final(self) == (App { input_text: final(self).input_text, ..*old(self) }),
            final(self).input_text@ == (if old(self).input_text@.len() > 0 {
                old(self).input_text@.drop_last()
            } else {
                old(self).input_text@
            }),
    {
        let _ = pop_char(&mut self.input_text);
    }

    /// The board-selection screen: up and down (or `k`/`j`) move the
    /// highlight, enter opens the highlighted board or the create-new
    /// prompt, `b` and escape return to the board (escape quits when
    /// none is loaded yet), `q` quits.
    pub fn key_board_selection(&mut self, key: Key) -> (e: Effect)
        requires
            old(self).wf(),
        ensures
            final(self).wf(),
            board_selection_step(*old(self), key, *final(self), e),
    {
        match key {
            Key::Esc => {
                if self.columns.len() > 0 {
                    self.input_mode = InputMode::Normal;
                    Effect::Nothing
                } else {
                    Effect::Quit
                }
            },
            Key::Char('b') => {
                self.input_mode = InputMode::Normal;
                Effect::Nothing
            },
            Key::Char('q') => Effect::Quit,
            Key::Up | Key::Char('k') => {
                self.select_prev_board();
                Effect::Nothing
            },
            Key::Down | Key::Char('j') => {
                self.select_next_board();
                Effect::Nothing
            },
            Key::Enter => self.open_selected_board(),
            _ => Effect::Nothing,
        }
    }

    /// Opens the highlighted board entry, as `open_selected_step` says.
    pub fn open_selected_board(&mut self) -> (e: Effect)
        requires
            old(self).wf(),
        ensures
            final(self).wf(),
            open_selected_step(*old(self), *final(self), e),
    {
        let n = self.available_boards.len();
        match self.selected_board_index {
            Some(i) => {
                if n > 0 && i == n - 1 {
                    self.input_mode = InputMode::AddingBoard;
                    self.input_text = String::new();
                    Effect::Nothing
                } else if i < n {
                    let name = self.available_boards[i].clone();
                    self.title = name.clone();
                    match &self.base_dir {
                        Some(d) => {
                            let ghost d_v = d@;
                            let mut path = d.clone();
                            path.append("/");
                            let file = display_to_file_name(name.as_str());
                            path.append(file.as_str());
                            proof {
                                reveal_strlit("/");
                                assert(path@ =~= board_path(d_v, name@));
                            }
                            self.file_path = Some(path);
                        },
                        None => {},
                    }
                    Effect::ReadBoardFile
                } else {
                    Effect::Nothing
                }
            },
            None => Effect::Nothing,
        }
    }

    /// The naming prompt for a new board: characters build the name,
    /// enter commits it (`My Kanban Board` when empty) as a fresh
    /// one-column board and asks the caller to persist it, escape
    /// returns to board selection.
    pub fn key_adding_board(&mut self, key: Key) -> (e: Effect)
        requires
            old(self).wf(),
        ensures
            final(self).wf(),
            adding_board_step(*old(self), key, *final(self), e),
    {
        match key {
            Key::Enter => {
                let name = if self.input_text.unicode_len() == 0 {
                    "My Kanban Board".to_owned()
                } else {
                    self.input_text.clone()
                };
                self.title = name.clone();
                let mut cols: Vec<Column> = Vec::new();
                cols.push(
                    Column { title: "To Do".to_owned(), tasks: Vec::new(), selected_task: None },
                );
                self.columns = cols;
                self.active_column = 0;
                self.input_text = String::new();
                match &self.base_dir {
                    Some(d) => {
                        let ghost d_v = d@;
                        let mut path = d.clone();
                        path.append("/");
                        let file = display_to_file_name(name.as_str());
                        path.append(file.as_str());
                        proof {
                            reveal_strlit("/");
                            assert(path@ =~= board_path(d_v, name@));
                        }
                        self.file_path = Some(path);
                        self.input_mode = InputMode::Normal;
                        Effect::Save
                    },
                    None => Effect::Nothing,
                }
            },
            Key::Esc => {
                self.input_mode = InputMode::BoardSelection;
                self.input_text = String::new();
                Effect::Nothing
            },
            Key::Char(c) => {
                self.buffer_push(c);
                Effect::Nothing
            },
            Key::Backspace => {
                self.buffer_pop();
                Effect::Nothing
            },
            _ => Effect::Nothing,
        }
    }

    /// A text-entry prompt, as `text_entry_step` says. `kind` selects
    /// what enter commits: a column, a task, a column rename or a task
    /// rename.
    fn key_text_entry(&mut self, key: Key, kind: InputMode) -> (e: Effect)
        requires
            old(self).wf(),
            old(self).columns.len() < usize::MAX,
            kind is AddingColumn || kind is AddingTask || kind is RenamingColumn
                || kind is RenamingTask,
        ensures
            final(self).wf(),
            text_entry_step(*old(self), key, *final(self), e, kind),
    {
        match key {
            Key::Enter => {
                match kind {
                    InputMode::AddingColumn => {
                        let name = if self.input_text.unicode_len() == 0 {
                            "New Column".to_owned()
                        } else {
                            self.input_text.clone()
                        };
                        self.add_column(name.as_str());
                        Effect::Save
                    },
                    InputMode::AddingTask => {
                        if self.columns.len() == 0 {
                            return Effect::Nothing;
                        }
                        let name = if self.input_text.unicode_len() == 0 {
                            "New Task".to_owned()
                        } else {
                            self.input_text.clone()
                        };
                        self.add_task(name.as_str());
                        Effect::Save
                    },
                    InputMode::RenamingColumn => {
                        if self.columns.len() == 0 {
                            return Effect::Nothing;
                        }
                        let name = if self.input_text.unicode_len() == 0 {
                            "Unnamed Column".to_owned()
                        } else {
                            self.input_text.clone()
                        };
                        self.rename_current_column(name.as_str());
                        Effect::Save
                    },
                    _ => {
                        let a = self.active_column;
                        if self.columns.len() == 0 || self.columns[a].selected_task.is_none() {
                            return Effect::Nothing;
                        }
                        let name = if self.input_text.unicode_len() == 0 {
                            "Unnamed Task".to_owned()
                        } else {
                            self.input_text.clone()
                        };
                        self.rename_current_task(name.as_str());
                        Effect::Save
                    },
                }
            },
            Key::Esc => {
                self.input_mode = InputMode::Normal;
                self.input_text = String::new();
                Effect::Nothing
            },
            Key::Char(c) => {
                self.buffer_push(c);
                Effect::Nothing
            },
            Key::Backspace => {
                self.buffer_pop();
                Effect::Nothing
            },
            _ => Effect::Nothing,
        }
    }

    /// The normal mode, as `normal_step` says: `q` quits, `h`/`l` move
    /// across columns, `j`/`k` across tasks, `b` opens board selection
    /// after a rescan, control-`s` saves, control-`k` opens move mode,
    /// `m` opens column selection when a task is selected, and `a`,
    /// `d`, `g`, `r` wait for one more key.
    #[verifier::rlimit(100)]
    pub fn key_normal(&mut self, key: Key) -> (e: Effect)
        requires
            old(self).wf(),
        ensures
            final(self).wf(),
            normal_step(*old(self), key, *final(self), e),
    {
        match self.pending_chord {
            Some(p) => {
                self.pending_chord = None;
                match (p, key) {
                    ('a', Key::Char('c')) => {
                        self.input_mode = InputMode::AddingColumn;
                        Effect::Nothing
                    },
                    ('a', Key::Char('t')) => {
                        self.input_mode = InputMode::AddingTask;
                        Effect::Nothing
                    },
                    ('d', Key::Char('c')) => {
                        if self.columns.len() > 0 {
                            self.input_mode = InputMode::ConfirmDeleteColumn;
                        }
                        Effect::Nothing
                    },
                    ('d', Key::Char('t')) => {
                        let a = self.active_column;
                        if self.columns.len() > 0 && self.columns[a].selected_task.is_some() {
                            self.delete_current_task();
                            Effect::Save
                        } else {
                            Effect::Nothing
                        }
                    },
                    ('g', Key::Char('c')) => {
                        self.input_mode = InputMode::JumpToColumnMode;
                        Effect::Nothing
                    },
                    ('g', Key::Char('t')) => {
                        self.input_mode = InputMode::JumpToTaskMode;
                        Effect::Nothing
                    },
                    ('r', Key::Char('c')) => {
                        if self.columns.len() > 0 {
                            self.prepare_rename_column();
                        }
                        Effect::Nothing
                    },
                    ('r', Key::Char('t')) => {
                        let a = self.active_column;
                        if self.columns.len() > 0 && self.columns[a].selected_task.is_some() {
                            self.prepare_rename_task();
                        }
                        Effect::Nothing
                    },
                    _ => Effect::Nothing,
                }
            },
            None => {
                match key {
                    Key::Char('q') => Effect::Quit,
                    Key::Char('a') => {
                        self.pending_chord = Some('a');
                        Effect::Nothing
                    },
                    Key::Char('d') => {
                        self.pending_chord = Some('d');
                        Effect::Nothing
                    },
                    Key::Char('g') => {
                        self.pending_chord = Some('g');
                        Effect::Nothing
                    },
                    Key::Char('r') => {
                        self.pending_chord = Some('r');
                        Effect::Nothing
                    },
                    Key::Char('b') => {
                        self.input_mode = InputMode::BoardSelection;
                        Effect::ScanBoards
                    },
                    Key::Char('m') => {
                        let a = self.active_column;
                        if self.columns.len() > 0 && self.columns[a].selected_task.is_some() {
                            self.input_mode = InputMode::ColumnSelectionMode;
                        }
                        Effect::Nothing
                    },
                    Key::Ctrl('s') => Effect::Save,
                    Key::Ctrl('k') => {
                        self.input_mode = InputMode::MoveMode;
                        Effect::Nothing
                    },
                    Key::Char('h') => {
                        self.select_prev_column();
                        Effect::Nothing
                    },
                    Key::Char('l') => {
                        self.select_next_column();
                        Effect::Nothing
                    },
                    Key::Char('j') => {
                        self.select_next_task();
                        Effect::Nothing
                    },
                    Key::Char('k') => {
                        self.select_prev_task();
                        Effect::Nothing
                    },
                    _ => Effect::Nothing,
                }
            },
        }
    }

    /// Move mode, as `move_mode_step` says.
    pub fn key_move_mode(&mut self, key: Key) -> (e: Effect)
        requires
            old(self).wf(),
        ensures
            final(self).wf(),
            move_mode_step(*old(self), key, *final(self), e),
    {
        match key {
            Key::Esc => {
                self.input_mode = InputMode::Normal;
                Effect::Nothing
            },
            Key::Char(c) => {
                if '0' <= c && c <= '9' {
                    let d = (c as u32 - '0' as u32) as usize;
                    let target = if d == 0 {
                        0
                    } else {
                        d - 1
                    };
                    if target < self.columns.len() {
                        self.jump_to_column(d);
                        Effect::Save
                    } else {
                        Effect::Nothing
                    }
                } else {
                    Effect::Nothing
                }
            },
            _ => Effect::Nothing,
        }
    }

    /// The delete-column confirmation, as `confirm_delete_step` says.
    pub fn key_confirm_delete(&mut self, key: Key) -> (e: Effect)
        requires
            old(self).wf(),
        ensures
            final(self).wf(),
            confirm_delete_step(*old(self), key, *final(self), e),
    {
        match key {
            Key::Char('y') => {
                let had = self.columns.len() > 0;
                if had {
                    self.delete_current_column();
                }
                self.input_mode = InputMode::Normal;
                if had {
                    Effect::Save
                } else {
                    Effect::Nothing
                }
            },
            Key::Char('n') | Key::Esc => {
                self.input_mode = InputMode::Normal;
                Effect::Nothing
            },
            _ => Effect::Nothing,
        }
    }

    /// Column selection for a move, as `column_selection_step` says.
    pub fn key_column_selection(&mut self, key: Key) -> (e: Effect)
        requires
            old(self).wf(),
        ensures
            final(self).wf(),
            column_selection_step(*old(self), key, *final(self), e),
    {
        match key {
            Key::Esc => {
                self.input_mode = InputMode::Normal;
                Effect::Nothing
            },
            Key::Char(c) => {
                if '1' <= c && c <= '9' {
                    let d = (c as u32 - '0' as u32) as usize;
                    let target = d - 1;
                    let a = self.active_column;
                    let moved = target < self.columns.len() && target != a && self.columns.len()
                        > 0 && self.columns[a].selected_task.is_some();
                    if target < self.columns.len() && target != a {
                        self.move_task_to_column(target);
                    }
                    self.input_mode = InputMode::Normal;
                    if moved {
                        Effect::Save
                    } else {
                        Effect::Nothing
                    }
                } else {
                    Effect::Nothing
                }
            },
            _ => Effect::Nothing,
        }
    }

    /// The single-shot column jump, as `jump_column_step` says.
    pub fn key_jump_column(&mut self, key: Key) -> (e: Effect)
        requires
            old(self).wf(),
        ensures
            final(self).wf(),
            jump_column_step(*old(self), key, *final(self), e),
    {
        match key {
            Key::Char(c) => {
                if '1' <= c && c <= '9' {
                    let d = (c as u32 - '0' as u32) as usize;
                    let target = d - 1;
                    if target < self.columns.len() {
                        self.active_column = target;
                        self.clear_other_selections();
                    }
                }
                self.input_mode = InputMode::Normal;
                Effect::Nothing
            },
            _ => {
                self.input_mode = InputMode::Normal;
                Effect::Nothing
            },
        }
    }

    /// The task-jump mode, as `jump_task_step` says.
    pub fn key_jump_task(&mut self, key: Key) -> (e: Effect)
        requires
            old(self).wf(),
            total_tasks(old(self).columns@) <= usize::MAX,
        ensures
            final(self).wf(),
            jump_task_step(*old(self), key, *final(self), e),
    {
        match key {
            Key::Esc => {
                self.input_mode = InputMode::Normal;
                Effect::Nothing
            },
            Key::Char(c) => {
                match self.get_task_by_jump_label(c) {
                    Some(ct) => {
                        self.jump_to_task(ct.0, ct.1);
                        Effect::Save
                    },
                    None => Effect::Nothing,
                }
            },
            _ => Effect::Nothing,
        }
    }

    /// One key press in whatever mode the board is in: the transition
    /// is exactly the current mode's step relation.
    pub fn handle_key(&mut self, key: Key) -> (e: Effect)
        requires
            old(self).wf(),
            old(self).columns.len() < usize::MAX,
            total_tasks(old(self).columns@) <= usize::MAX,
        ensures
            final(self).wf(),
            ({
                match old(self).input_mode {
                    InputMode::Normal => normal_step(*old(self), key, *final(self), e),
                    InputMode::AddingColumn => text_entry_step(
                        *old(self),
                        key,
                        *final(self),
                        e,
                        InputMode::AddingColumn,
                    ),
                    InputMode::AddingTask => text_entry_step(
                        *old(self),
                        key,
                        *final(self),
                        e,
                        InputMode::AddingTask,
                    ),
                    InputMode::RenamingColumn => text_entry_step(
                        *old(self),
                        key,
                        *final(self),
                        e,
                        InputMode::RenamingColumn,
                    ),
                    InputMode::RenamingTask => text_entry_step(
                        *old(self),
                        key,
                        *final(self),
                        e,
                        InputMode::RenamingTask,
                    ),
                    InputMode::MoveMode => move_mode_step(*old(self), key, *final(self), e),
                    InputMode::ConfirmDeleteColumn => confirm_delete_step(
                        *old(self),
                        key,
                        *final(self),
                        e,
                    ),
                    InputMode::BoardSelection => board_selection_step(
                        *old(self),
                        key,
                        *final(self),
                        e,
                    ),
                    InputMode::AddingBoard => adding_board_step(*old(self), key, *final(self), e),
                    InputMode::ColumnSelectionMode => column_selection_step(
                        *old(self),
                        key,
                        *final(self),
                        e,
                    ),
                    InputMode::JumpToColumnMode => jump_column_step(
                        *old(self),
                        key,
                        *final(self),
                        e,
                    ),
                    InputMode::JumpToTaskMode => jump_task_step(*old(self), key, *final(self), e),
                }
            }),
    {
        match self.input_mode {
            InputMode::Normal => self.key_normal(key),
            InputMode::AddingColumn => self.key_text_entry(key, InputMode::AddingColumn),
            InputMode::AddingTask => self.key_text_entry(key, InputMode::AddingTask),
            InputMode::RenamingColumn => self.key_text_entry(key, InputMode::RenamingColumn),
            InputMode::RenamingTask => self.key_text_entry(key, InputMode::RenamingTask),
            InputMode::MoveMode => self.key_move_mode(key),
            InputMode::ConfirmDeleteColumn => self.key_confirm_delete(key),
            InputMode::BoardSelection => self.key_board_selection(key),
            InputMode::AddingBoard => self.key_adding_board(key),
            InputMode::ColumnSelectionMode => self.key_column_selection(key),
            InputMode::JumpToColumnMode => self.key_jump_column(key),
            InputMode::JumpToTaskMode => self.key_jump_task(key),
        }
    }
}

} // verus!
